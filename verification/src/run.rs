//! Decisions of a single run: whether typed input is a slash command, whether a tool
//! call is approved, whether piped mode keeps going, and what the process exits with.
use vstd::prelude::*;
use crate::text::{chars_of, eq_str, lowercase, to_lowercase, trim, trim_start, trim_start_index, trim_vec};

verus! {

/// Whether typed input is a slash command: its first character after leading whitespace
/// is `/`.
pub open spec fn is_slash_command(input: Seq<char>) -> bool {
    trim_start(input).len() > 0 && trim_start(input)[0] == '/'
}

/// Whether typed input is a slash command rather than a prompt.
pub fn looks_like_slash_command(input: &str) -> (r: bool)
    ensures
        r == is_slash_command(input@),
{
    let s = chars_of(input);
    let i = trim_start_index(s.as_slice());
    i < s.len() && s[i] == '/'
}

/// How the user answered a tool-approval prompt.
#[derive(Debug, Clone, Copy, PartialEq, Eq, Structural)]
pub enum Approval {
    /// Not approved.
    Deny,
    /// Approved this once.
    Once,
    /// Approved, and every later call too.
    Always,
}

/// The answer an already lowercased, trimmed response gives: `y`/`yes` approve once,
/// `a`/`always` approve from now on, anything else denies.
pub open spec fn approval_of(normalized: Seq<char>) -> Approval {
    if normalized == "a"@ || normalized == "always"@ {
        Approval::Always
    } else if normalized == "y"@ || normalized == "yes"@ {
        Approval::Once
    } else {
        Approval::Deny
    }
}

/// Reads an already trimmed and lowercased response (see [`approval_of`]).
pub fn approval_of_lowercase(normalized: &str) -> (r: Approval)
    ensures
        r == approval_of(normalized@),
{
    let t = chars_of(normalized);
    if eq_str(t.as_slice(), "a") || eq_str(t.as_slice(), "always") {
        Approval::Always
    } else if eq_str(t.as_slice(), "y") || eq_str(t.as_slice(), "yes") {
        Approval::Once
    } else {
        Approval::Deny
    }
}

/// Reads the answer to a tool-approval prompt, ignoring case and surrounding whitespace.
pub fn approval_of_response(response: &str) -> (r: Approval)
    ensures
        r == approval_of(lowercase(trim(response@))),
{
    let v = chars_of(response);
    let t = crate::text::string_of(trim_vec(v.as_slice()).as_slice());
    let lower = to_lowercase(t.as_str());
    approval_of_lowercase(lower.as_str())
}

/// Whether piped mode starts another auto-continue turn: only when the user opted in,
/// the budget of turns is not spent, the last turn had no error, the session budget is
/// not exhausted, and the shared decision says there is more to do.
pub fn piped_should_continue(
    opted_in: bool,
    count: u32,
    max: u32,
    had_error: bool,
    budget_exhausted: bool,
    predicate: bool,
) -> (r: bool)
    ensures
        r == (opted_in && count < max && !had_error && !budget_exhausted && predicate),
{
    opted_in && count < max && !had_error && !budget_exhausted && predicate
}

/// The process exit status for a run: 1 when the run failed or its `--output` file
/// could not be written, else 2 when a checkpoint was requested, else 0.
pub open spec fn exit_code(failed: bool, output_write_failed: bool, checkpoint: bool) -> i32 {
    if failed || output_write_failed {
        1
    } else if checkpoint {
        2
    } else {
        0
    }
}

/// The exit status for a run's outcome (see [`exit_code`]).
pub fn exit_code_for_outcome(failed: bool, output_write_failed: bool, checkpoint: bool) -> (r: i32)
    ensures
        r == exit_code(failed, output_write_failed, checkpoint),
{
    if failed || output_write_failed {
        1
    } else if checkpoint {
        2
    } else {
        0
    }
}

/// What a run has recorded about itself: whether it failed, whether writing its output
/// file failed, whether a checkpoint was requested. A fresh run has recorded none.
pub struct RunState {
    failed: bool,
    output_write_failed: bool,
    checkpoint: bool,
}

impl RunState {
    /// Whether the run failed.
    pub closed spec fn has_failed(&self) -> bool {
        self.failed
    }

    /// Whether writing the output file failed.
    pub closed spec fn output_failed(&self) -> bool {
        self.output_write_failed
    }

    /// Whether a checkpoint was requested.
    pub closed spec fn checkpoint_requested(&self) -> bool {
        self.checkpoint
    }

    /// A run that has recorded nothing.
    pub fn new() -> (r: Self)
        ensures
            !r.has_failed(),
            !r.output_failed(),
            !r.checkpoint_requested(),
    {
        RunState { failed: false, output_write_failed: false, checkpoint: false }
    }

    /// Records that the run failed.
    pub fn mark_failed(&mut self)
        ensures
            final(self).has_failed(),
            final(self).output_failed() == old(self).output_failed(),
            final(self).checkpoint_requested() == old(self).checkpoint_requested(),
    {
        self.failed = true;
    }

    /// Records that writing the output file failed.
    pub fn mark_output_write_failed(&mut self)
        ensures
            final(self).output_failed(),
            final(self).has_failed() == old(self).has_failed(),
            final(self).checkpoint_requested() == old(self).checkpoint_requested(),
    {
        self.output_write_failed = true;
    }

    /// Records that a checkpoint was requested.
    pub fn trigger_checkpoint(&mut self)
        ensures
            final(self).checkpoint_requested(),
            final(self).has_failed() == old(self).has_failed(),
            final(self).output_failed() == old(self).output_failed(),
    {
        self.checkpoint = true;
    }

    /// Whether a checkpoint was requested.
    pub fn checkpoint_triggered(&self) -> (r: bool)
        ensures
            r == self.checkpoint_requested(),
    {
        self.checkpoint
    }

    /// The exit status the run ends with.
    pub fn exit_code(&self) -> (r: i32)
        ensures
            r == exit_code(self.has_failed(), self.output_failed(), self.checkpoint_requested()),
    {
        exit_code_for_outcome(self.failed, self.output_write_failed, self.checkpoint)
    }
}


/// A failure, or a failed output write, decides the exit status whatever else was
/// recorded; a checkpoint alone exits 2; a run that recorded nothing exits 0; no other
/// status is possible.
pub proof fn law_exit_code_precedence(failed: bool, output_write_failed: bool, checkpoint: bool)
    ensures
        (failed || output_write_failed) ==> exit_code(failed, output_write_failed, checkpoint) == 1,
        (!failed && !output_write_failed && checkpoint) ==> exit_code(failed, output_write_failed, checkpoint) == 2,
        exit_code(failed, output_write_failed, checkpoint) == 0 <==> (!failed && !output_write_failed
            && !checkpoint),
        exit_code(failed, output_write_failed, checkpoint) == 0 || exit_code(failed, output_write_failed, checkpoint) == 1
            || exit_code(failed, output_write_failed, checkpoint) == 2,
{
}


/// The API key a run uses once Bedrock credentials are assembled: for the `bedrock`
/// provider a bare access key (no `:`) is joined by `:` with the secret access key and,
/// when one is set and not empty, the session token. Any other provider, an
/// already-combined key, or a missing secret leaves the key as it is.
pub open spec fn bedrock_key(
    provider: Seq<char>,
    api_key: Seq<char>,
    secret: Option<Seq<char>>,
    token: Option<Seq<char>>,
) -> Seq<char> {
    if provider != "bedrock"@ || api_key.contains(':') {
        api_key
    } else {
        match secret {
            None => api_key,
            Some(sec) => match token {
                Some(t) => if t.len() > 0 {
                    api_key + seq![':'] + sec + seq![':'] + t
                } else {
                    api_key + seq![':'] + sec
                },
                None => api_key + seq![':'] + sec,
            },
        }
    }
}

/// The view of an optional string slice.
pub open spec fn opt_slice(o: Option<&str>) -> Option<Seq<char>> {
    match o {
        Some(s) => Some(s@),
        None => None,
    }
}

/// Assembles the combined AWS credentials Bedrock takes, given the values of
/// `AWS_SECRET_ACCESS_KEY` and `AWS_SESSION_TOKEN` (see [`bedrock_key`]).
pub fn apply_bedrock_credentials(provider: &str, api_key: &mut String, secret: Option<&str>, token: Option<&str>)
    ensures
        final(api_key)@ == bedrock_key(provider@, old(api_key)@, opt_slice(secret), opt_slice(token)),
{
    let p = chars_of(provider);
    let k = chars_of(api_key.as_str());
    if !eq_str(p.as_slice(), "bedrock") || crate::text::contains_char(k.as_slice(), ':') {
        return;
    }
    let sec = match secret {
        Some(sec) => sec,
        None => {
            return;
        },
    };
    let mut v = k;
    v.push(':');
    crate::text::extend_str(&mut v, sec);
    if let Some(t) = token {
        if !t.is_empty() {
            v.push(':');
            crate::text::extend_str(&mut v, t);
        }
    }
    *api_key = crate::text::string_of(v.as_slice());
}

} // verus!
