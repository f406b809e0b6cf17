//! Hook plumbing: the results hooks hand back, the shell-hook configuration, the caps
//! applied to what crosses the hook boundary, and the warnings about hook keys that can
//! never fire. Running a hook's shell command is the caller's job; every decision about
//! what to run and what to do with the outcome is made here.
use vstd::prelude::*;
use crate::text::{
    byte_len, byte_len_exec, chars_of, decimal, decimal_vec, extend, extend_str, is_blank,
    join, join_vec, safe_truncate, safe_truncate_vec, slice_vec, starts_with, starts_with_str,
    string_of, trim, trim_vec, views, eq_str, eq_chars, lemma_byte_len_add, byte_len_wide,
    char_width, fit_from, width, lemma_fit_from, key_less, key_less_exec, lemma_key_less_irreflexive,
    lemma_key_less_total, lemma_key_less_transitive, lemma_key_less_asymmetric,
};

verus! {

/// Bytes of the head of a hook's stderr kept by [`cap_hook_stderr`].
pub const HOOK_STDERR_HEAD_BYTES: usize = 4096;

/// Bytes of the tail of a hook's stderr kept by [`cap_hook_stderr`].
pub const HOOK_STDERR_TAIL_BYTES: usize = 4096;

/// Characters of tool output handed to a hook through `TOOL_OUTPUT`.
pub const HOOK_TOOL_OUTPUT_MAX_CHARS: usize = 1000;

/// Bytes of the JSON payload written to a hook's stdin.
pub const HOOK_STDIN_MAX_BYTES: usize = 32768;

/// The names of the builtin tools a hook key can name.
pub const BUILTIN_TOOL_NAMES: [&'static str; 6] = [
    "bash",
    "read_file",
    "write_file",
    "edit_file",
    "list_files",
    "search",
];

/// Edit-distance budget for suggesting the builtin a hook key may have mistyped.
pub const NEAREST_BUILTIN_MAX_DISTANCE: usize = 2;

// ───────────────────────────── hook results ─────────────────────────────

/// What a post-hook hands back: the (possibly modified) tool output, threaded through
/// the chain, and optional feedback for the agent's next turn.
#[derive(Debug, Clone, PartialEq)]
pub struct PostHookResult {
    /// The (possibly modified) tool output.
    pub output: String,
    /// Feedback to inject into the agent's context, if the hook has any.
    pub feedback: Option<String>,
}

/// The view of an optional string.
pub open spec fn opt_str(o: Option<String>) -> Option<Seq<char>> {
    match o {
        Some(s) => Some(s@),
        None => None,
    }
}

impl PostHookResult {
    /// Wraps output with no feedback.
    pub fn passthrough(output: &str) -> (r: Self)
        ensures
            r.output@ == output@,
            r.feedback is None,
    {
        PostHookResult { output: output.to_owned(), feedback: None }
    }

    /// Wraps output with feedback.
    pub fn with_feedback(output: &str, feedback: String) -> (r: Self)
        ensures
            r.output@ == output@,
            opt_str(r.feedback) == Some(feedback@),
    {
        PostHookResult { output: output.to_owned(), feedback: Some(feedback) }
    }
}

/// Phase at which a shell hook fires.
#[derive(Debug, Clone, Copy, PartialEq, Eq, Structural)]
pub enum HookPhase {
    Pre,
    Post,
}

/// A user-configured shell command run before or after a tool: `tool_pattern` is a tool
/// name or `*` for every tool.
#[derive(Debug, Clone)]
pub struct ShellHook {
    pub name: String,
    pub phase: HookPhase,
    pub tool_pattern: String,
    pub command: String,
}

/// Whether a hook with this pattern fires for `tool_name`.
pub open spec fn pattern_matches(tool_pattern: Seq<char>, tool_name: Seq<char>) -> bool {
    tool_pattern == seq!['*'] || tool_pattern == tool_name
}

impl ShellHook {
    /// Whether this hook fires for the given tool.
    pub fn matches_tool(&self, tool_name: &str) -> (r: bool)
        ensures
            r == pattern_matches(self.tool_pattern@, tool_name@),
    {
        let p = chars_of(self.tool_pattern.as_str());
        let t = chars_of(tool_name);
        let star = p.len() == 1 && p[0] == '*';
        assert(star <==> p@ == seq!['*']) by {
            if p@ == seq!['*'] {
                assert(p@[0] == '*');
            }
            if star {
                assert(p@ =~= seq!['*']);
            }
        }
        star || eq_chars(p.as_slice(), t.as_slice())
    }

    /// Whether this hook runs at `phase` for `tool_name`.
    pub fn fires(&self, phase: HookPhase, tool_name: &str) -> (r: bool)
        ensures
            r == (self.phase == phase && pattern_matches(self.tool_pattern@, tool_name@)),
    {
        self.phase == phase && self.matches_tool(tool_name)
    }
}

/// The hook that observes every tool call. It never blocks and never changes or adds to
/// what the tool returned; the audit log has a single writer elsewhere.
pub struct AuditHook;

impl AuditHook {
    /// The hook's name.
    pub fn name(&self) -> (r: &'static str)
        ensures
            r@ == "audit"@,
    {
        "audit"
    }

    /// Before a tool runs: always proceed.
    pub fn pre_execute(&self, tool_name: &str) -> (r: Result<Option<String>, String>)
        ensures
            r matches Ok(None),
    {
        Ok(None)
    }

    /// After a tool runs: the output passes through unchanged, with no feedback.
    pub fn post_execute(&self, tool_name: &str, output: &str) -> (r: Result<PostHookResult, String>)
        ensures
            r matches Ok(p) && p.output@ == output@ && p.feedback is None,
    {
        Ok(PostHookResult::passthrough(output))
    }
}

/// A decimal rendering of an integer, with a leading `-` when negative.
pub open spec fn int_text(i: int) -> Seq<char> {
    if i < 0 {
        seq!['-'] + decimal((-i) as nat)
    } else {
        decimal(i as nat)
    }
}

fn int_text_exec(i: i32) -> (r: Vec<char>)
    ensures
        r@ == int_text(i as int),
{
    if i < 0 {
        let m: u128 = (-(i as i64)) as u128;
        let mut out: Vec<char> = Vec::new();
        out.push('-');
        let d = decimal_vec(m);
        extend(&mut out, d.as_slice());
        assert(out@ =~= seq!['-'] + d@);
        out
    } else {
        decimal_vec(i as u128)
    }
}

/// The verdict of a pre-hook that ran: exit status 0 lets the tool run, any other status
/// blocks it, and a hook that could not be run blocks it with that error.
pub open spec fn pre_verdict(hook_name: Seq<char>, run: Result<(i32, Seq<char>), Seq<char>>) -> Result<
    Option<Seq<char>>,
    Seq<char>,
> {
    match run {
        Ok((code, _)) => {
            if code == 0 {
                Ok(None)
            } else {
                Err("Pre-hook '"@ + hook_name + "' exited with code "@ + int_text(code as int))
            }
        },
        Err(e) => Err(e),
    }
}

/// The view of a hook run's outcome: exit status and stderr, or why it could not run.
pub open spec fn run_view(run: Result<(i32, String), String>) -> Result<(i32, Seq<char>), Seq<char>> {
    match run {
        Ok((code, stderr)) => Ok((code, stderr@)),
        Err(e) => Err(e@),
    }
}

/// The view of a pre-hook verdict.
pub open spec fn verdict_view(v: Result<Option<String>, String>) -> Result<Option<Seq<char>>, Seq<char>> {
    match v {
        Ok(o) => Ok(opt_str(o)),
        Err(e) => Err(e@),
    }
}

/// Turns the outcome of running a pre-hook's command into its verdict.
pub fn pre_hook_verdict(hook_name: &str, run: Result<(i32, String), String>) -> (r: Result<
    Option<String>,
    String,
>)
    ensures
        verdict_view(r) == pre_verdict(hook_name@, run_view(run)),
{
    match run {
        Ok((code, _)) => {
            if code == 0 {
                Ok(None)
            } else {
                let mut out: Vec<char> = Vec::new();
                extend_str(&mut out, "Pre-hook '");
                extend_str(&mut out, hook_name);
                extend_str(&mut out, "' exited with code ");
                let c = int_text_exec(code);
                extend(&mut out, c.as_slice());
                Err(string_of(out.as_slice()))
            }
        },
        Err(e) => Err(e),
    }
}

/// What a post-hook that ran hands back: the output unchanged, with its trimmed stderr as
/// feedback when that is not blank. A hook that could not be run passes the output
/// through with no feedback.
pub open spec fn post_outcome(output: Seq<char>, run: Result<(i32, Seq<char>), Seq<char>>) -> (
    Seq<char>,
    Option<Seq<char>>,
) {
    match run {
        Ok((_, stderr)) => {
            if trim(stderr).len() == 0 {
                (output, None)
            } else {
                (output, Some(trim(stderr)))
            }
        },
        Err(_) => (output, None),
    }
}

/// Turns the outcome of running a post-hook's command into its result.
pub fn post_hook_result(output: &str, run: Result<(i32, String), String>) -> (r: PostHookResult)
    ensures
        (r.output@, opt_str(r.feedback)) == post_outcome(output@, run_view(run)),
{
    match run {
        Ok((_, stderr)) => {
            let s = chars_of(stderr.as_str());
            let t = trim_vec(s.as_slice());
            if t.len() == 0 {
                PostHookResult::passthrough(output)
            } else {
                PostHookResult::with_feedback(output, string_of(t.as_slice()))
            }
        },
        Err(_) => PostHookResult::passthrough(output),
    }
}

/// A shell pre-hook lets the tool run exactly when its command ran and exited 0; it
/// never answers in the tool's place.
pub proof fn law_pre_hook_proceeds_on_success(hook_name: Seq<char>, run: Result<(i32, Seq<char>), Seq<char>>)
    ensures
        pre_verdict(hook_name, run) == Ok::<Option<Seq<char>>, Seq<char>>(None) <==> (run matches Ok((code, _)) && code == 0),
        !(pre_verdict(hook_name, run) matches Ok(Some(_))),
{
}

/// A shell post-hook never changes the tool's output, whatever its command did.
pub proof fn law_post_hook_passes_output_through(output: Seq<char>, run: Result<(i32, Seq<char>), Seq<char>>)
    ensures
        post_outcome(output, run).0 == output,
{
}

// ───────────────────────────── the pre-hook chain ─────────────────────────────

/// What to do after one pre-hook's verdict.
#[derive(Debug, PartialEq)]
pub enum PreHookStep {
    /// The hook let the tool run: ask the next hook.
    Next,
    /// The hook blocked the tool (`Err`) or answered in its place (`Ok(Some)`): this is
    /// the outcome, and no later hook runs.
    Decided(Result<Option<String>, String>),
}

/// Pre-hooks run first to last, and the first one that blocks or answers decides.
pub fn pre_hook_step(verdict: Result<Option<String>, String>) -> (r: PreHookStep)
    ensures
        verdict matches Ok(None) ==> r == PreHookStep::Next,
        !(verdict matches Ok(None)) ==> (r matches PreHookStep::Decided(v) && verdict_view(v)
            == verdict_view(verdict)),
{
    match verdict {
        Ok(None) => PreHookStep::Next,
        other => PreHookStep::Decided(other),
    }
}

// ───────────────────────────── a tool wrapped in hooks ─────────────────────────────

/// What a hooked tool does once its pre-hooks have answered.
#[derive(Debug, PartialEq)]
pub enum HookedStart {
    /// Run the tool.
    Run,
    /// Answer with this text in the tool's place.
    Cached(String),
    /// Fail the call with this message.
    Blocked(String),
}

/// A hooked tool's start: a pre-hook that blocked fails the call with its reason, one
/// that answered supplies the result, otherwise the tool runs.
pub fn hooked_tool_start(pre: Result<Option<String>, String>) -> (r: HookedStart)
    ensures
        pre matches Ok(None) ==> r == HookedStart::Run,
        pre matches Ok(Some(t)) ==> (r matches HookedStart::Cached(c) && c@ == t@),
        pre matches Err(e) ==> (r matches HookedStart::Blocked(m) && m@ == "Blocked by hook: "@
            + e@),
{
    match pre {
        Ok(None) => HookedStart::Run,
        Ok(Some(t)) => HookedStart::Cached(t),
        Err(e) => {
            let mut v: Vec<char> = Vec::new();
            extend_str(&mut v, "Blocked by hook: ");
            extend_str(&mut v, e.as_str());
            HookedStart::Blocked(string_of(v.as_slice()))
        },
    }
}

/// The text block that carries post-hook feedback after a tool's result.
pub fn hook_feedback_block(feedback: &str) -> (r: String)
    ensures
        r@ == "\n[Hook feedback]\n"@ + feedback@,
{
    let mut v: Vec<char> = Vec::new();
    extend_str(&mut v, "\n[Hook feedback]\n");
    extend_str(&mut v, feedback);
    string_of(v.as_slice())
}

/// The message a hooked tool fails with when a post-hook fails.
pub fn post_hook_failure(reason: &str) -> (r: String)
    ensures
        r@ == "Post-hook error: "@ + reason@,
{
    let mut v: Vec<char> = Vec::new();
    extend_str(&mut v, "Post-hook error: ");
    extend_str(&mut v, reason);
    string_of(v.as_slice())
}

// ───────────────────────────── the post-hook chain ─────────────────────────────

/// Post-hooks run first to last: each sees the output the previous one returned, and the
/// non-empty feedback of all of them is collected in order.
pub struct PostHookChain {
    current: String,
    feedback: Vec<String>,
}

/// The views of a list of strings.
pub open spec fn str_views(v: Seq<String>) -> Seq<Seq<char>> {
    v.map_values(|s: String| s@)
}

/// The feedback of a finished chain: the collected pieces joined by newlines, or none.
pub open spec fn chain_feedback(pieces: Seq<Seq<char>>) -> Option<Seq<char>> {
    if pieces.len() == 0 {
        None
    } else {
        Some(join(pieces, seq!['\n']))
    }
}

impl PostHookChain {
    /// The output the next hook will see.
    pub closed spec fn output(&self) -> Seq<char> {
        self.current@
    }

    /// The non-empty feedback collected so far.
    pub closed spec fn pieces(&self) -> Seq<Seq<char>> {
        str_views(self.feedback@)
    }

    /// A chain over the tool's own output, with no feedback yet.
    pub fn start(output: &str) -> (r: Self)
        ensures
            r.output() == output@,
            r.pieces() == Seq::<Seq<char>>::empty(),
    {
        let r = PostHookChain { current: output.to_owned(), feedback: Vec::new() };
        assert(str_views(r.feedback@) =~= Seq::<Seq<char>>::empty());
        r
    }

    /// The output the next hook will see.
    pub fn current_output(&self) -> (r: &str)
        ensures
            r@ == self.output(),
    {
        self.current.as_str()
    }

    /// Takes in what one hook returned.
    pub fn absorb(&mut self, result: PostHookResult)
        ensures
            final(self).output() == result.output@,
            final(self).pieces() == match opt_str(result.feedback) {
                Some(f) => if f.len() > 0 {
                    old(self).pieces().push(f)
                } else {
                    old(self).pieces()
                },
                None => old(self).pieces(),
            },
    {
        self.current = result.output;
        if let Some(fb) = result.feedback {
            if !fb.as_str().is_empty() {
                let ghost before = self.feedback@;
                self.feedback.push(fb);
                assert(str_views(self.feedback@) =~= str_views(before).push(fb@));
            }
        }
    }

    /// The final output and the joined feedback.
    pub fn finish(self) -> (r: PostHookResult)
        ensures
            r.output@ == self.output(),
            opt_str(r.feedback) == chain_feedback(self.pieces()),
    {
        if self.feedback.len() == 0 {
            return PostHookResult { output: self.current, feedback: None };
        }
        let mut pieces: Vec<Vec<char>> = Vec::new();
        let mut k: usize = 0;
        while k < self.feedback.len()
            invariant
                k <= self.feedback@.len(),
                views(pieces@) =~= str_views(self.feedback@).take(k as int),
            decreases self.feedback.len() - k,
        {
            let ghost before = views(pieces@);
            pieces.push(chars_of(self.feedback[k].as_str()));
            assert(views(pieces@) =~= before.push(self.feedback@[k as int]@));
            assert(str_views(self.feedback@).take(k + 1) =~= str_views(self.feedback@).take(
                k as int,
            ).push(self.feedback@[k as int]@));
            k = k + 1;
        }
        assert(str_views(self.feedback@).take(self.feedback@.len() as int) =~= str_views(
            self.feedback@,
        ));
        let joined = join_vec(pieces.as_slice(), "\n");
        proof {
            reveal_strlit("\n");
        }
        assert("\n"@ =~= seq!['\n']);
        PostHookResult { output: self.current, feedback: Some(string_of(joined.as_slice())) }
    }
}


// ───────────────────────────── capping what hooks hand over ─────────────────────────────

/// The first character index at or after `k` before which at least `b` bytes lie (the
/// end of `s` when there is none).
pub open spec fn first_index_with_bytes(s: Seq<char>, b: int, k: int) -> int
    decreases s.len() - k,
{
    if k < 0 || k >= s.len() || byte_len(s.take(k)) >= b {
        k
    } else {
        first_index_with_bytes(s, b, k + 1)
    }
}

/// A hook's stderr bounded to `head` + `tail` bytes: unchanged when it fits; otherwise
/// the longest head of at most `head` bytes and the shortest tail of at most `tail`
/// bytes that start on a character (never splitting one), with the cut marked between
/// them on its own line, naming how many bytes were dropped.
pub open spec fn capped_stderr(raw: Seq<char>, head: nat, tail: nat) -> Seq<char> {
    let n = byte_len(raw);
    if n <= head + tail {
        raw
    } else {
        let hk = fit_from(raw, head as int, 0);
        let tk0 = first_index_with_bytes(raw, n - tail, 0);
        let tk = if tk0 < hk {
            hk
        } else {
            tk0
        };
        let dropped = byte_len(raw.take(tk)) - byte_len(raw.take(hk));
        raw.take(hk) + "\n… [yoyo: "@ + decimal(dropped as nat)
            + " bytes elided — hook stderr is capped at "@ + decimal(head) + " head + "@ + decimal(
            tail,
        ) + " tail bytes]\n"@ + raw.skip(tk)
    }
}

proof fn lemma_byte_len_take_mono(s: Seq<char>, a: int, b: int)
    requires
        0 <= a <= b <= s.len(),
    ensures
        byte_len(s.take(a)) <= byte_len(s.take(b)),
{
    assert(s.take(b) =~= s.take(a) + s.subrange(a, b));
    lemma_byte_len_add(s.take(a), s.subrange(a, b));
}

/// Bounds a hook's stderr to `head` + `tail` bytes before it enters the conversation.
pub fn cap_hook_stderr(raw: &str, head: usize, tail: usize) -> (r: String)
    ensures
        r@ == capped_stderr(raw@, head as nat, tail as nat),
{
    let s = chars_of(raw);
    let total = byte_len_wide(s.as_slice());
    if total <= head as u128 + tail as u128 {
        return raw.to_owned();
    }
    let h = safe_truncate_vec(s.as_slice(), head);
    let hk = h.len();
    proof {
        lemma_fit_from(s@, head as int, 0);
    }
    let target = total - tail as u128;
    let mut k: usize = 0;
    let mut acc: u128 = 0;
    assert(s@.take(0) =~= Seq::<char>::empty());
    while k < s.len() && acc < target
        invariant
            k <= s@.len(),
            acc == byte_len(s@.take(k as int)),
            total == byte_len(s@),
            first_index_with_bytes(s@, target as int, 0) == first_index_with_bytes(
                s@,
                target as int,
                k as int,
            ),
        decreases s@.len() - k,
    {
        assert(s@.take(k + 1) =~= s@.take(k as int) + seq![s@[k as int]]);
        proof {
            lemma_byte_len_add(s@.take(k as int), seq![s@[k as int]]);
            assert(byte_len(seq![s@[k as int]]) == width(s@[k as int])) by {
                assert(seq![s@[k as int]].drop_last() =~= Seq::<char>::empty());
                reveal_with_fuel(byte_len, 2);
            }
            lemma_byte_len_take_mono(s@, k + 1, s@.len() as int);
            assert(s@.take(s@.len() as int) =~= s@);
        }
        acc = acc + char_width(s[k]) as u128;
        k = k + 1;
    }
    let mut tk = k;
    let mut tail_bytes = acc;
    let head_bytes = byte_len_wide(h.as_slice());
    if tk < hk {
        tk = hk;
        tail_bytes = head_bytes;
    }
    proof {
        lemma_byte_len_take_mono(s@, hk as int, tk as int);
    }
    let dropped = tail_bytes - head_bytes;
    let mut out = h;
    extend_str(&mut out, "\n… [yoyo: ");
    let d = decimal_vec(dropped);
    extend(&mut out, d.as_slice());
    extend_str(&mut out, " bytes elided — hook stderr is capped at ");
    let hd = decimal_vec(head as u128);
    extend(&mut out, hd.as_slice());
    extend_str(&mut out, " head + ");
    let td = decimal_vec(tail as u128);
    extend(&mut out, td.as_slice());
    extend_str(&mut out, " tail bytes]\n");
    let n = s.len();
    let rest = slice_vec(s.as_slice(), tk, n);
    extend(&mut out, rest.as_slice());
    string_of(out.as_slice())
}

/// `s` with every NUL written as the four characters `\x00`.
pub open spec fn escape_nul(s: Seq<char>) -> Seq<char>
    decreases s.len(),
{
    if s.len() == 0 {
        s
    } else {
        escape_nul(s.drop_last()) + if s.last() == '\0' {
            "\\x00"@
        } else {
            seq![s.last()]
        }
    }
}

/// Tool output as handed to a hook's `TOOL_OUTPUT`: NULs escaped, then at most
/// `max_chars` characters of the escaped text, with the cut marked and the number of
/// dropped characters (of the escaped text) named.
pub open spec fn tool_output_for_hook(output: Seq<char>, max_chars: nat) -> Seq<char> {
    let e = escape_nul(output);
    if e.len() <= max_chars {
        e
    } else {
        e.take(max_chars as int) + "\n… [yoyo: "@ + decimal((e.len() - max_chars) as nat)
            + " chars elided — hook TOOL_OUTPUT is capped at "@ + decimal(max_chars) + " chars]"@
    }
}

/// Prepares tool output for the `TOOL_OUTPUT` environment variable of a shell hook.
pub fn hook_tool_output(output: &str, max_chars: usize) -> (r: String)
    ensures
        r@ == tool_output_for_hook(output@, max_chars as nat),
{
    let s = chars_of(output);
    let mut e: Vec<char> = Vec::new();
    let mut i: usize = 0;
    while i < s.len()
        invariant
            i <= s@.len(),
            e@ == escape_nul(s@.take(i as int)),
        decreases s.len() - i,
    {
        assert(s@.take(i + 1).drop_last() =~= s@.take(i as int));
        assert(s@.take(i + 1).last() == s@[i as int]);
        if s[i] == '\0' {
            extend_str(&mut e, "\\x00");
        } else {
            e.push(s[i]);
        }
        i = i + 1;
    }
    assert(s@.take(s.len() as int) =~= s@);
    if e.len() <= max_chars {
        return string_of(e.as_slice());
    }
    let total = e.len();
    let mut out = slice_vec(e.as_slice(), 0, max_chars);
    extend_str(&mut out, "\n… [yoyo: ");
    let d = decimal_vec((total - max_chars) as u128);
    extend(&mut out, d.as_slice());
    extend_str(&mut out, " chars elided — hook TOOL_OUTPUT is capped at ");
    let m = decimal_vec(max_chars as u128);
    extend(&mut out, m.as_slice());
    extend_str(&mut out, " chars]");
    string_of(out.as_slice())
}


// ───────────────────────────── edit distance ─────────────────────────────

/// The smallest of three numbers.
pub open spec fn min3(a: nat, b: nat, c: nat) -> nat {
    if a <= b && a <= c {
        a
    } else if b <= c {
        b
    } else {
        c
    }
}

/// The Levenshtein distance: the fewest single-character insertions, deletions and
/// substitutions that turn `a` into `b`.
pub open spec fn edit_distance(a: Seq<char>, b: Seq<char>) -> nat
    decreases a.len() + b.len(),
{
    if a.len() == 0 {
        b.len()
    } else if b.len() == 0 {
        a.len()
    } else {
        min3(
            edit_distance(a.drop_last(), b.drop_last()) + if a.last() == b.last() {
                0nat
            } else {
                1nat
            },
            edit_distance(a.drop_last(), b) + 1,
            edit_distance(a, b.drop_last()) + 1,
        )
    }
}

proof fn lemma_edit_distance_bound(a: Seq<char>, b: Seq<char>)
    ensures
        edit_distance(a, b) <= if a.len() >= b.len() {
            a.len()
        } else {
            b.len()
        },
    decreases a.len() + b.len(),
{
    if a.len() > 0 && b.len() > 0 {
        lemma_edit_distance_bound(a.drop_last(), b.drop_last());
    }
}

/// The Levenshtein distance between two character sequences.
fn edit_distance_exec(a: &[char], b: &[char]) -> (r: u128)
    ensures
        r == edit_distance(a@, b@),
{
    let m = a.len();
    let n = b.len();
    // prev[j] is the distance between the first i characters of `a` and the first j of `b`.
    let mut prev: Vec<u128> = Vec::new();
    prev.push(0);
    let mut j: usize = 0;
    while j < n
        invariant
            j <= n,
            n == b@.len(),
            prev@.len() == j + 1,
            forall|x: int| 0 <= x <= j ==> prev@[x] == x,
        decreases n - j,
    {
        j = j + 1;
        prev.push(j as u128);
    }
    assert forall|x: int| 0 <= x <= n implies prev@[x] == edit_distance(a@.take(0), b@.take(x)) by {
        assert(a@.take(0) =~= Seq::<char>::empty());
    }
    let mut i: usize = 0;
    while i < m
        invariant
            i <= m,
            m == a@.len(),
            n == b@.len(),
            prev@.len() == n + 1,
            forall|x: int| 0 <= x <= n ==> prev@[x] == edit_distance(a@.take(i as int), b@.take(x)),
        decreases m - i,
    {
        let ghost ai = a@.take(i as int);
        let ghost ai1 = a@.take(i + 1);
        assert(ai1.drop_last() =~= ai);
        assert(ai1.last() == a@[i as int]);
        let mut cur: Vec<u128> = Vec::new();
        assert(b@.take(0) =~= Seq::<char>::empty());
        cur.push((i + 1) as u128);
        let mut k: usize = 0;
        while k < n
            invariant
                k <= n,
                i < m,
                m == a@.len(),
                n == b@.len(),
                prev@.len() == n + 1,
                cur@.len() == k + 1,
                ai == a@.take(i as int),
                ai1 == a@.take(i + 1),
                ai1.drop_last() == ai,
                ai1.last() == a@[i as int],
                forall|x: int| 0 <= x <= n ==> prev@[x] == edit_distance(ai, b@.take(x)),
                forall|x: int| 0 <= x <= k ==> cur@[x] == edit_distance(ai1, b@.take(x)),
            decreases n - k,
        {
            let ghost bk = b@.take(k + 1);
            assert(bk.drop_last() =~= b@.take(k as int));
            assert(bk.last() == b@[k as int]);
            proof {
                lemma_edit_distance_bound(ai, b@.take(k as int));
                lemma_edit_distance_bound(ai, bk);
                lemma_edit_distance_bound(ai1, b@.take(k as int));
            }
            let cost: u128 = if a[i] == b[k] {
                0
            } else {
                1
            };
            let sub = prev[k] + cost;
            let del = prev[k + 1] + 1;
            let ins = cur[k] + 1;
            let best = if sub <= del && sub <= ins {
                sub
            } else if del <= ins {
                del
            } else {
                ins
            };
            cur.push(best);
            k = k + 1;
        }
        prev = cur;
        i = i + 1;
    }
    assert(a@.take(m as int) =~= a@);
    assert(b@.take(n as int) =~= b@);
    prev[n]
}

/// Among the first `k` candidates, the first one closest to `input`, provided it lies
/// within `max` edits.
pub open spec fn closest_among(input: Seq<char>, cands: Seq<Seq<char>>, max: nat, k: int) -> Option<
    int,
>
    decreases k,
{
    if k <= 0 {
        None
    } else {
        let b = closest_among(input, cands, max, k - 1);
        let d = edit_distance(input, cands[k - 1]);
        if d <= max && (b is None || d < edit_distance(input, cands[b->0])) {
            Some(k - 1)
        } else {
            b
        }
    }
}

/// The views of a list of string slices.
pub open spec fn str_slice_views(v: Seq<&str>) -> Seq<Seq<char>> {
    v.map_values(|s: &str| s@)
}

proof fn lemma_closest_among(input: Seq<char>, cands: Seq<Seq<char>>, max: nat, k: int)
    ensures
        closest_among(input, cands, max, k) matches Some(i) ==> 0 <= i < k,
    decreases k,
{
    if k > 0 {
        lemma_closest_among(input, cands, max, k - 1);
    }
}

/// The candidate closest to `input` by edit distance, the first of equally close ones,
/// or `None` when none lies within `max_distance` edits.
pub fn closest_match<'a>(input: &str, candidates: &[&'a str], max_distance: usize) -> (r: Option<
    &'a str,
>)
    ensures
        r matches Some(c) ==> exists|i: int|
            closest_among(input@, str_slice_views(candidates@), max_distance as nat, candidates@.len() as int)
                == Some(i) && c@ == candidates@[i]@,
        r is None ==> closest_among(
            input@,
            str_slice_views(candidates@),
            max_distance as nat,
            candidates@.len() as int,
        ) is None,
{
    let ghost cv = str_slice_views(candidates@);
    let inp = chars_of(input);
    let mut best: Option<usize> = None;
    let mut best_d: u128 = 0;
    let mut k: usize = 0;
    while k < candidates.len()
        invariant
            k <= candidates@.len(),
            cv == str_slice_views(candidates@),
            inp@ == input@,
            match best {
                Some(b) => closest_among(input@, cv, max_distance as nat, k as int) == Some(b as int)
                    && b < k && best_d == edit_distance(input@, cv[b as int]),
                None => closest_among(input@, cv, max_distance as nat, k as int) is None,
            },
        decreases candidates.len() - k,
    {
        let c = chars_of(candidates[k]);
        let d = edit_distance_exec(inp.as_slice(), c.as_slice());
        assert(cv[k as int] == c@);
        let closer = match best {
            Some(_) => d < best_d,
            None => true,
        };
        if d <= max_distance as u128 && closer {
            best = Some(k);
            best_d = d;
        }
        k = k + 1;
    }
    match best {
        Some(b) => Some(candidates[b]),
        None => None,
    }
}

// ───────────────────────────── warnings about hook keys ─────────────────────────────

/// `name` is `pattern` followed by `_` and more (a dropped suffix such as `write` for
/// `write_file`).
pub open spec fn extends_with_underscore(name: Seq<char>, pattern: Seq<char>) -> bool {
    starts_with(name, pattern) && name.len() > pattern.len() && name[pattern.len() as int] == '_'
}

/// The first of `known[..k]` that extends `pattern` with an underscore.
pub open spec fn first_extension(pattern: Seq<char>, known: Seq<Seq<char>>, k: int) -> Option<int>
    decreases k,
{
    if k <= 0 {
        None
    } else {
        match first_extension(pattern, known, k - 1) {
            Some(i) => Some(i),
            None => {
                if extends_with_underscore(known[k - 1], pattern) {
                    Some(k - 1)
                } else {
                    None
                }
            },
        }
    }
}

/// The builtin a hook's tool pattern most plausibly meant: none for an empty pattern;
/// else the first builtin the pattern is a dropped-suffix form of; else the closest
/// builtin within the edit budget.
pub open spec fn nearest_builtin_index(pattern: Seq<char>, known: Seq<Seq<char>>) -> Option<int> {
    if pattern.len() == 0 {
        None
    } else {
        match first_extension(pattern, known, known.len() as int) {
            Some(i) => Some(i),
            None => closest_among(pattern, known, NEAREST_BUILTIN_MAX_DISTANCE as nat, known.len() as int),
        }
    }
}

fn extends_with_underscore_exec(name: &[char], pattern: &[char]) -> (r: bool)
    ensures
        r == extends_with_underscore(name@, pattern@),
{
    crate::text::match_at(name, 0, pattern) && name.len() > pattern.len() && name[pattern.len()] == '_'
}

/// The builtin a hook's `tool_pattern` most plausibly meant, or `None`.
pub fn nearest_builtin<'a>(pattern: &str, known: &[&'a str]) -> (r: Option<&'a str>)
    ensures
        r matches Some(c) ==> exists|i: int|
            nearest_builtin_index(pattern@, str_slice_views(known@)) == Some(i) && c@ == known@[i]@,
        r is None ==> nearest_builtin_index(pattern@, str_slice_views(known@)) is None,
{
    let p = chars_of(pattern);
    if p.len() == 0 {
        return None;
    }
    let ghost kv = str_slice_views(known@);
    let mut k: usize = 0;
    while k < known.len()
        invariant
            k <= known@.len(),
            kv == str_slice_views(known@),
            p@ == pattern@,
            pattern@.len() > 0,
            first_extension(pattern@, kv, k as int) is None,
        decreases known.len() - k,
    {
        let name = chars_of(known[k]);
        assert(kv[k as int] == name@);
        if extends_with_underscore_exec(name.as_slice(), p.as_slice()) {
            assert(first_extension(pattern@, kv, k + 1) == Some(k as int));
            proof {
                lemma_first_extension_stable(pattern@, kv, k + 1, known@.len() as int);
            }
            assert(kv.len() == known@.len());
            assert(nearest_builtin_index(pattern@, kv) == Some(k as int));
            assert(known@[k as int]@ == kv[k as int]);
            return Some(known[k]);
        }
        k = k + 1;
    }
    closest_match(pattern, known, NEAREST_BUILTIN_MAX_DISTANCE)
}

proof fn lemma_nearest_bounds(pattern: Seq<char>, known: Seq<Seq<char>>)
    ensures
        nearest_builtin_index(pattern, known) matches Some(i) ==> 0 <= i < known.len(),
{
    lemma_first_extension_bounds(pattern, known, known.len() as int);
    lemma_closest_among(pattern, known, NEAREST_BUILTIN_MAX_DISTANCE as nat, known.len() as int);
}

proof fn lemma_first_extension_bounds(pattern: Seq<char>, known: Seq<Seq<char>>, k: int)
    ensures
        first_extension(pattern, known, k) matches Some(i) ==> 0 <= i < k,
    decreases k,
{
    if k > 0 {
        lemma_first_extension_bounds(pattern, known, k - 1);
    }
}

proof fn lemma_first_extension_stable(pattern: Seq<char>, known: Seq<Seq<char>>, k: int, n: int)
    requires
        0 <= k <= n,
        first_extension(pattern, known, k) is Some,
    ensures
        first_extension(pattern, known, n) == first_extension(pattern, known, k),
    decreases n - k,
{
    if k < n {
        lemma_first_extension_stable(pattern, known, k, n - 1);
    }
}

/// The warning's leading marker: a glyph, or a plain word.
pub open spec fn warn_marker(plain: bool) -> Seq<char> {
    if plain {
        "warning:"@
    } else {
        "⚠"@
    }
}

/// The clause joiner: an em dash, or a plain semicolon.
pub open spec fn warn_joiner(plain: bool) -> Seq<char> {
    if plain {
        ";"@
    } else {
        " —"@
    }
}

/// The warning for a hook whose tool pattern names no builtin: none for `*` or a known
/// name; otherwise a question that allows for an MCP-provided tool, followed by a
/// suggestion when a builtin is near.
pub open spec fn unknown_tool_warning(tool_pattern: Seq<char>, known: Seq<Seq<char>>, plain: bool) -> Option<
    Seq<char>,
> {
    if tool_pattern == seq!['*'] || known.contains(tool_pattern) {
        None
    } else {
        let msg = warn_marker(plain) + " hook `"@ + tool_pattern
            + "`: no builtin tool has that name. That is fine if `"@ + tool_pattern
            + "` comes from an MCP server"@ + warn_joiner(plain)
            + " otherwise this hook can never fire."@;
        match nearest_builtin_index(tool_pattern, known) {
            Some(i) => Some(msg + " Did you mean `"@ + known[i] + "`?"@),
            None => Some(msg),
        }
    }
}

fn push_marker_and(out: &mut Vec<char>, plain: bool)
    ensures
        final(out)@ == old(out)@ + warn_marker(plain),
{
    if plain {
        extend_str(out, "warning:");
    } else {
        extend_str(out, "⚠");
    }
}

fn push_joiner(out: &mut Vec<char>, plain: bool)
    ensures
        final(out)@ == old(out)@ + warn_joiner(plain),
{
    if plain {
        extend_str(out, ";");
    } else {
        extend_str(out, " —");
    }
}

/// Warns when a hook key names a tool that no builtin provides (it never refuses: an
/// MCP server may provide the tool).
pub fn unknown_hook_tool_warning(tool_pattern: &str, known: &[&str], plain: bool) -> (r: Option<
    String,
>)
    ensures
        opt_str(r) == unknown_tool_warning(tool_pattern@, str_slice_views(known@), plain),
{
    let p = chars_of(tool_pattern);
    let ghost kv = str_slice_views(known@);
    let star = p.len() == 1 && p[0] == '*';
    assert(star <==> p@ == seq!['*']) by {
        if p@ == seq!['*'] {
            assert(p@[0] == '*');
        }
        if star {
            assert(p@ =~= seq!['*']);
        }
    }
    if star {
        return None;
    }
    let mut k: usize = 0;
    while k < known.len()
        invariant
            k <= known@.len(),
            kv == str_slice_views(known@),
            p@ == tool_pattern@,
            forall|x: int| 0 <= x < k ==> kv[x] != tool_pattern@,
        decreases known.len() - k,
    {
        if eq_str(p.as_slice(), known[k]) {
            assert(kv[k as int] == tool_pattern@);
            assert(kv.contains(tool_pattern@));
            return None;
        }
        k = k + 1;
    }
    assert(!kv.contains(tool_pattern@));
    let mut out: Vec<char> = Vec::new();
    push_marker_and(&mut out, plain);
    extend_str(&mut out, " hook `");
    extend_str(&mut out, tool_pattern);
    extend_str(&mut out, "`: no builtin tool has that name. That is fine if `");
    extend_str(&mut out, tool_pattern);
    extend_str(&mut out, "` comes from an MCP server");
    push_joiner(&mut out, plain);
    extend_str(&mut out, " otherwise this hook can never fire.");
    let ghost msg = out@;
    if let Some(nearest) = nearest_builtin(tool_pattern, known) {
        let ghost i = choose|i: int|
            nearest_builtin_index(tool_pattern@, kv) == Some(i) && nearest@ == known@[i]@;
        proof {
            lemma_nearest_bounds(tool_pattern@, kv);
        }
        assert(kv[i] == known@[i]@);
        extend_str(&mut out, " Did you mean `");
        extend_str(&mut out, nearest);
        extend_str(&mut out, "`?");
        assert(out@ == msg + " Did you mean `"@ + kv[i] + "`?"@);
    }
    Some(string_of(out.as_slice()))
}

/// The warning for a `hooks.*` key that names a phase but no tool (`hooks.pre`,
/// `hooks.post`); silent for every other key.
pub open spec fn malformed_key_warning(rest: Seq<char>, plain: bool) -> Option<Seq<char>> {
    if rest != "pre"@ && rest != "post"@ {
        None
    } else {
        Some(
            warn_marker(plain) + " hook key `hooks."@ + rest
                + "` has no tool segment, so it names no tool and can never fire"@ + warn_joiner(
                plain,
            ) + " write `hooks."@ + rest + ".<tool> = \"...\"` instead, e.g. `hooks."@ + rest
                + ".bash`."@,
        )
    }
}

/// Warns when a `hooks.*` key names a phase but no tool, so it can never fire.
pub fn malformed_hook_key_warning(rest: &str, plain: bool) -> (r: Option<String>)
    ensures
        opt_str(r) == malformed_key_warning(rest@, plain),
{
    let v = chars_of(rest);
    if !eq_str(v.as_slice(), "pre") && !eq_str(v.as_slice(), "post") {
        return None;
    }
    let mut out: Vec<char> = Vec::new();
    push_marker_and(&mut out, plain);
    extend_str(&mut out, " hook key `hooks.");
    extend_str(&mut out, rest);
    extend_str(&mut out, "` has no tool segment, so it names no tool and can never fire");
    push_joiner(&mut out, plain);
    extend_str(&mut out, " write `hooks.");
    extend_str(&mut out, rest);
    extend_str(&mut out, ".<tool> = \"...\"` instead, e.g. `hooks.");
    extend_str(&mut out, rest);
    extend_str(&mut out, ".bash`.");
    Some(string_of(out.as_slice()))
}


// ───────────────────────────── reading hooks from configuration ─────────────────────────────

/// What a `hooks.<phase>.<tool> = "<command>"` entry configures: its phase and tool
/// pattern, when the key has both, the tool is not empty and the command is not empty.
pub open spec fn entry_hook(key: Seq<char>, value: Seq<char>) -> Option<(HookPhase, Seq<char>)> {
    if !starts_with(key, "hooks."@) {
        None
    } else {
        let rest = key.skip("hooks."@.len() as int);
        let parsed: Option<(HookPhase, Seq<char>)> = if starts_with(rest, "pre."@) {
            Some((HookPhase::Pre, rest.skip("pre."@.len() as int)))
        } else if starts_with(rest, "post."@) {
            Some((HookPhase::Post, rest.skip("post."@.len() as int)))
        } else {
            None
        };
        match parsed {
            Some((phase, tool)) => {
                if tool.len() == 0 || value.len() == 0 {
                    None
                } else {
                    Some((phase, tool))
                }
            },
            None => None,
        }
    }
}

/// The warning a `hooks.*` entry earns: the malformed-key warning when the key names no
/// tool segment, the unknown-tool warning for a hook that would be built, none otherwise.
pub open spec fn entry_warning(
    key: Seq<char>,
    value: Seq<char>,
    known: Seq<Seq<char>>,
    plain: bool,
) -> Option<Seq<char>> {
    if !starts_with(key, "hooks."@) {
        None
    } else {
        let rest = key.skip("hooks."@.len() as int);
        if starts_with(rest, "pre."@) || starts_with(rest, "post."@) {
            match entry_hook(key, value) {
                Some((_, tool)) => unknown_tool_warning(tool, known, plain),
                None => None,
            }
        } else {
            malformed_key_warning(rest, plain)
        }
    }
}

/// The word for a phase.
pub open spec fn phase_word(phase: HookPhase) -> Seq<char> {
    match phase {
        HookPhase::Pre => "pre"@,
        HookPhase::Post => "post"@,
    }
}

/// A hook's view: name, phase, tool pattern and command.
pub open spec fn hook_view(h: ShellHook) -> (Seq<char>, HookPhase, Seq<char>, Seq<char>) {
    (h.name@, h.phase, h.tool_pattern@, h.command@)
}

/// The views of configuration entries.
pub open spec fn entry_views(entries: Seq<(String, String)>) -> Seq<(Seq<char>, Seq<char>)> {
    entries.map_values(|e: (String, String)| (e.0@, e.1@))
}

/// `o` lists, in increasing key order, exactly the positions of the `hooks.*` entries.
pub open spec fn is_key_order(entries: Seq<(Seq<char>, Seq<char>)>, o: Seq<int>) -> bool {
    &&& forall|i: int, j: int|
        0 <= i < j < o.len() ==> key_less(entries[o[i]].0, entries[o[j]].0)
    &&& forall|i: int|
        0 <= i < o.len() ==> 0 <= #[trigger] o[i] < entries.len() && starts_with(
            entries[o[i]].0,
            "hooks."@,
        )
    &&& forall|e: int|
        0 <= e < entries.len() && starts_with(#[trigger] entries[e].0, "hooks."@) ==> o.contains(e)
}

/// The hooks the entries at positions `o` configure, in that order.
pub open spec fn hooks_along(entries: Seq<(Seq<char>, Seq<char>)>, o: Seq<int>) -> Seq<
    (Seq<char>, HookPhase, Seq<char>, Seq<char>),
>
    decreases o.len(),
{
    if o.len() == 0 {
        Seq::empty()
    } else {
        let rest = hooks_along(entries, o.drop_last());
        let (key, value) = entries[o.last()];
        match entry_hook(key, value) {
            Some((phase, tool)) => rest.push(
                (phase_word(phase) + seq![':'] + tool, phase, tool, value),
            ),
            None => rest,
        }
    }
}

/// The warnings the entries at positions `o` earn, in that order.
pub open spec fn warnings_along(
    entries: Seq<(Seq<char>, Seq<char>)>,
    o: Seq<int>,
    known: Seq<Seq<char>>,
    plain: bool,
) -> Seq<Seq<char>>
    decreases o.len(),
{
    if o.len() == 0 {
        Seq::empty()
    } else {
        let rest = warnings_along(entries, o.drop_last(), known, plain);
        let (key, value) = entries[o.last()];
        match entry_warning(key, value, known, plain) {
            Some(w) => rest.push(w),
            None => rest,
        }
    }
}

/// Where `key` (the key of entry `e`, later than every listed one) goes in the sorted
/// list `o`: after every smaller key and before the first larger one.
fn insert_position(entries: &[(String, String)], o: &Vec<usize>, key: &[char], e: usize) -> (p: usize)
    requires
        e < entries@.len(),
        key@ == entries@[e as int].0@,
        forall|i: int| 0 <= i < o@.len() ==> #[trigger] o@[i] < e,
        forall|a: int, b: int| 0 <= a < b < entries@.len() ==> entries@[a].0@ != entries@[b].0@,
    ensures
        p <= o@.len(),
        forall|q: int| 0 <= q < p ==> key_less(entry_views(entries@)[o@[q] as int].0, key@),
        p < o@.len() ==> key_less(key@, entry_views(entries@)[o@[p as int] as int].0),
{
    let ghost ev = entry_views(entries@);
    let mut p: usize = 0;
    while p < o.len()
        invariant
            p <= o@.len(),
            ev == entry_views(entries@),
            forall|q: int| 0 <= q < p ==> key_less(ev[o@[q] as int].0, key@),
            forall|i: int| 0 <= i < o@.len() ==> #[trigger] o@[i] < e,
            e < entries@.len(),
            key@ == entries@[e as int].0@,
            forall|a: int, b: int| 0 <= a < b < entries@.len() ==> entries@[a].0@ != entries@[b].0@,
        decreases o.len() - p,
    {
        let other = chars_of(entries[o[p]].0.as_str());
        assert(ev[o@[p as int] as int].0 == other@);
        if key_less_exec(key, other.as_slice()) {
            return p;
        }
        proof {
            assert(o@[p as int] < e);
            assert(entries@[o@[p as int] as int].0@ != entries@[e as int].0@);
            lemma_key_less_total(key@, other@);
        }
        p = p + 1;
    }
    p
}

/// The positions of the `hooks.*` entries, in increasing key order.
fn hook_entry_order(entries: &[(String, String)]) -> (o: Vec<usize>)
    requires
        forall|a: int, b: int|
            0 <= a < b < entries@.len() ==> entries@[a].0@ != entries@[b].0@,
    ensures
        is_key_order(entry_views(entries@), o@.map_values(|x: usize| x as int)),
{
    let ghost ev = entry_views(entries@);
    let mut o: Vec<usize> = Vec::new();
    let mut e: usize = 0;
    while e < entries.len()
        invariant
            e <= entries@.len(),
            ev == entry_views(entries@),
            forall|a: int, b: int| 0 <= a < b < entries@.len() ==> entries@[a].0@ != entries@[b].0@,
            forall|i: int, j: int|
                0 <= i < j < o@.len() ==> key_less(ev[o@[i] as int].0, ev[o@[j] as int].0),
            forall|i: int|
                0 <= i < o@.len() ==> #[trigger] o@[i] < e && starts_with(ev[o@[i] as int].0, "hooks."@),
            forall|x: int|
                0 <= x < e && starts_with(#[trigger] ev[x].0, "hooks."@) ==> o@.contains(x as usize),
        decreases entries.len() - e,
    {
        let key = chars_of(entries[e].0.as_str());
        assert(ev[e as int].0 == key@);
        if starts_with_str(key.as_slice(), "hooks.") {
            // The key goes after every smaller key.
            let p = insert_position(entries, &o, key.as_slice(), e);
            let ghost before = o@;
            proof {
                if p < before.len() {
                    assert forall|q: int| p <= q < before.len() implies key_less(
                        key@,
                        ev[before[q] as int].0,
                    ) by {
                        if q > p {
                            assert(key_less(ev[before[p as int] as int].0, ev[before[q] as int].0));
                            lemma_key_less_transitive(
                                key@,
                                ev[before[p as int] as int].0,
                                ev[before[q] as int].0,
                            );
                        }
                    }
                }
            }
            o.insert(p, e);
            assert(o@ == before.insert(p as int, e));
            assert forall|i: int, j: int|
                0 <= i < j < o@.len() implies key_less(ev[o@[i] as int].0, ev[o@[j] as int].0) by {
                if j < p {
                    assert(o@[i] == before[i] && o@[j] == before[j]);
                } else if j == p {
                    assert(o@[i] == before[i]);
                } else if i == p {
                    assert(o@[j] == before[j - 1]);
                } else if i < p {
                    assert(o@[i] == before[i] && o@[j] == before[j - 1]);
                } else {
                    assert(o@[i] == before[i - 1] && o@[j] == before[j - 1]);
                }
            }
            assert forall|x: int|
                0 <= x < e + 1 && starts_with(#[trigger] ev[x].0, "hooks."@) implies o@.contains(
                x as usize,
            ) by {
                if x == e {
                    assert(o@[p as int] == e);
                } else {
                    assert(before.contains(x as usize));
                    let k = choose|k: int| 0 <= k < before.len() && before[k] == x as usize;
                    if k < p {
                        assert(o@[k] == x as usize);
                    } else {
                        assert(o@[k + 1] == x as usize);
                    }
                }
            }
            assert forall|i: int| 0 <= i < o@.len() implies #[trigger] o@[i] < e + 1 && starts_with(
                ev[o@[i] as int].0,
                "hooks."@,
            ) by {
                if i < p {
                    assert(o@[i] == before[i]);
                } else if i > p {
                    assert(o@[i] == before[i - 1]);
                }
            }
        }
        e = e + 1;
    }
    let ghost ov = o@.map_values(|x: usize| x as int);
    assert forall|x: int| 0 <= x < ev.len() && starts_with(#[trigger] ev[x].0, "hooks."@) implies ov.contains(x) by {
        assert(o@.contains(x as usize));
        let k = choose|k: int| 0 <= k < o@.len() && o@[k] == x as usize;
        assert(ov[k] == x);
    }
    o
}

/// The hooks a configuration's entries describe, in key order, beside the warnings to
/// show for them, in the same order. `entries` are the configuration's distinct keys with
/// their values; `known` the builtin tool names; `plain` selects glyph-free wording. Keys
/// outside `hooks.` are ignored; a key with no tool segment, an empty tool or an empty
/// command yields no hook.
pub fn parse_hooks_from_config(entries: &[(String, String)], known: &[&str], plain: bool) -> (r: (
    Vec<ShellHook>,
    Vec<String>,
))
    requires
        forall|a: int, b: int|
            0 <= a < b < entries@.len() ==> entries@[a].0@ != entries@[b].0@,
    ensures
        exists|o: Seq<int>|
            is_key_order(entry_views(entries@), o) && r.0@.map_values(|h: ShellHook| hook_view(h))
                == hooks_along(entry_views(entries@), o) && str_views(r.1@) == warnings_along(
                entry_views(entries@),
                o,
                str_slice_views(known@),
                plain,
            ),
{
    let ghost ev = entry_views(entries@);
    let ghost kv = str_slice_views(known@);
    let order = hook_entry_order(entries);
    let ghost ov = order@.map_values(|x: usize| x as int);
    let mut hooks: Vec<ShellHook> = Vec::new();
    let mut warnings: Vec<String> = Vec::new();
    let mut i: usize = 0;
    while i < order.len()
        invariant
            i <= order@.len(),
            ev == entry_views(entries@),
            kv == str_slice_views(known@),
            ov == order@.map_values(|x: usize| x as int),
            is_key_order(ev, ov),
            hooks@.map_values(|h: ShellHook| hook_view(h)) == hooks_along(ev, ov.take(i as int)),
            str_views(warnings@) == warnings_along(ev, ov.take(i as int), kv, plain),
        decreases order.len() - i,
    {
        let e = order[i];
        assert(ov[i as int] == e as int);
        assert(0 <= ov[i as int] < ev.len());
        assert(ov.take(i + 1).drop_last() =~= ov.take(i as int));
        assert(ov.take(i + 1).last() == e as int);
        let key = chars_of(entries[e].0.as_str());
        let value = entries[e].1.as_str();
        assert(ev[e as int] == (key@, value@));
        let ghost hv = hooks@.map_values(|h: ShellHook| hook_view(h));
        let ghost wv = str_views(warnings@);
        let kn = key.len();
        let h6 = chars_of("hooks.");
        let rest = if starts_with_str(key.as_slice(), "hooks.") {
            slice_vec(key.as_slice(), h6.len(), kn)
        } else {
            Vec::new()
        };
        let rn = rest.len();
        let parsed: Option<(HookPhase, Vec<char>)> = if starts_with_str(rest.as_slice(), "pre.") {
            let m = chars_of("pre.");
            Some((HookPhase::Pre, slice_vec(rest.as_slice(), m.len(), rn)))
        } else if starts_with_str(rest.as_slice(), "post.") {
            let m = chars_of("post.");
            Some((HookPhase::Post, slice_vec(rest.as_slice(), m.len(), rn)))
        } else {
            None
        };
        match parsed {
            None => {
                let rs = string_of(rest.as_slice());
                if let Some(w) = malformed_hook_key_warning(rs.as_str(), plain) {
                    warnings.push(w);
                    assert(str_views(warnings@) =~= wv.push(opt_str(Some(w))->0));
                }
            },
            Some((phase, tool)) => {
                if tool.len() > 0 && !value.is_empty() {
                    let tool_s = string_of(tool.as_slice());
                    if let Some(w) = unknown_hook_tool_warning(tool_s.as_str(), known, plain) {
                        warnings.push(w);
                        assert(str_views(warnings@) =~= wv.push(opt_str(Some(w))->0));
                    }
                    let mut name: Vec<char> = Vec::new();
                    match phase {
                        HookPhase::Pre => extend_str(&mut name, "pre"),
                        HookPhase::Post => extend_str(&mut name, "post"),
                    }
                    name.push(':');
                    extend(&mut name, tool.as_slice());
                    let hook = ShellHook {
                        name: string_of(name.as_slice()),
                        phase,
                        tool_pattern: tool_s,
                        command: value.to_owned(),
                    };
                    assert(name@ == phase_word(phase) + seq![':'] + tool@);
                    hooks.push(hook);
                    assert(hooks@.map_values(|h: ShellHook| hook_view(h)) =~= hv.push(
                        (phase_word(phase) + seq![':'] + tool@, phase, tool@, value@),
                    ));
                }
            },
        }
        i = i + 1;
    }
    assert(ov.take(order.len() as int) =~= ov);
    (hooks, warnings)
}


// ───────────────────────────── laws ─────────────────────────────

proof fn lemma_first_index_with_bytes(s: Seq<char>, b: int, k: int)
    requires
        0 <= k <= s.len(),
    ensures
        k <= first_index_with_bytes(s, b, k) <= s.len(),
        byte_len(s.take(first_index_with_bytes(s, b, k))) >= b || first_index_with_bytes(s, b, k)
            == s.len(),
    decreases s.len() - k,
{
    if k < s.len() && byte_len(s.take(k)) < b {
        lemma_first_index_with_bytes(s, b, k + 1);
    }
}

/// A hook's stderr within `head` + `tail` bytes passes through unchanged.
pub proof fn law_stderr_within_budget_unchanged(raw: Seq<char>, head: nat, tail: nat)
    requires
        byte_len(raw) <= head + tail,
    ensures
        capped_stderr(raw, head, tail) == raw,
{
}

/// Over budget, what survives of a hook's stderr is a head of at most `head` bytes and a
/// tail of at most `tail` bytes, both cut between characters, with the marker between
/// them; the two never overlap.
pub proof fn law_stderr_over_budget_keeps_head_and_tail(raw: Seq<char>, head: nat, tail: nat)
    requires
        byte_len(raw) > head + tail,
    ensures
        exists|hk: int, tk: int|
            0 <= hk <= tk <= raw.len() && byte_len(raw.take(hk)) <= head && byte_len(raw.skip(tk))
                <= tail && #[trigger] capped_stderr(raw, head, tail) == raw.take(hk) + "\n… [yoyo: "@
                + decimal((byte_len(raw.take(tk)) - byte_len(raw.take(hk))) as nat)
                + " bytes elided — hook stderr is capped at "@ + decimal(head) + " head + "@
                + decimal(tail) + " tail bytes]\n"@ + raw.skip(tk),
{
    let n = byte_len(raw);
    let hk = fit_from(raw, head as int, 0);
    let tk0 = first_index_with_bytes(raw, n - tail, 0);
    let tk = if tk0 < hk {
        hk
    } else {
        tk0
    };
    assert(raw.take(0) =~= Seq::<char>::empty());
    lemma_fit_from(raw, head as int, 0);
    lemma_first_index_with_bytes(raw, n - tail, 0);
    lemma_byte_len_take_mono(raw, tk0, tk);
    assert(raw.take(tk) + raw.skip(tk) =~= raw);
    lemma_byte_len_add(raw.take(tk), raw.skip(tk));
    assert(raw.take(raw.len() as int) =~= raw);
}

/// No NUL reaches a hook's `TOOL_OUTPUT`: each one is written as `\x00`.
pub proof fn law_tool_output_has_no_nul(output: Seq<char>, max_chars: nat)
    ensures
        forall|j: int|
            0 <= j < tool_output_for_hook(output, max_chars).len() ==> #[trigger] tool_output_for_hook(
                output,
                max_chars,
            )[j] != '\0',
{
    lemma_escape_nul_no_nul(output);
    let e = escape_nul(output);
    if e.len() > max_chars {
        reveal_strlit("\n… [yoyo: ");
        reveal_strlit(" chars elided — hook TOOL_OUTPUT is capped at ");
        reveal_strlit(" chars]");
        lemma_decimal_digits((e.len() - max_chars) as nat);
        lemma_decimal_digits(max_chars);
        let r = tool_output_for_hook(output, max_chars);
        assert forall|j: int| 0 <= j < r.len() implies r[j] != '\0' by {
            let parts = seq![
                e.take(max_chars as int),
                "\n… [yoyo: "@,
                decimal((e.len() - max_chars) as nat),
                " chars elided — hook TOOL_OUTPUT is capped at "@,
                decimal(max_chars),
                " chars]"@,
            ];
            assert(r == parts[0] + parts[1] + parts[2] + parts[3] + parts[4] + parts[5]);
        }
    }
}

/// Tool output with no NUL and at most `max_chars` characters reaches `TOOL_OUTPUT`
/// unchanged.
pub proof fn law_tool_output_within_budget_unchanged(output: Seq<char>, max_chars: nat)
    requires
        output.len() <= max_chars,
        forall|j: int| 0 <= j < output.len() ==> output[j] != '\0',
    ensures
        tool_output_for_hook(output, max_chars) == output,
{
    lemma_escape_nul_identity(output);
}

proof fn lemma_escape_nul_no_nul(s: Seq<char>)
    ensures
        forall|j: int| 0 <= j < escape_nul(s).len() ==> escape_nul(s)[j] != '\0',
    decreases s.len(),
{
    if s.len() > 0 {
        lemma_escape_nul_no_nul(s.drop_last());
        reveal_strlit("\\x00");
        let a = escape_nul(s.drop_last());
        let b = if s.last() == '\0' {
            "\\x00"@
        } else {
            seq![s.last()]
        };
        assert(escape_nul(s) == a + b);
        assert forall|j: int| 0 <= j < (a + b).len() implies (a + b)[j] != '\0' by {
            if j >= a.len() {
                assert((a + b)[j] == b[j - a.len()]);
            }
        }
    }
}

proof fn lemma_escape_nul_identity(s: Seq<char>)
    requires
        forall|j: int| 0 <= j < s.len() ==> s[j] != '\0',
    ensures
        escape_nul(s) == s,
    decreases s.len(),
{
    if s.len() > 0 {
        lemma_escape_nul_identity(s.drop_last());
        assert(s.drop_last() + seq![s.last()] =~= s);
    }
}

proof fn lemma_decimal_digits(n: nat)
    ensures
        forall|j: int| 0 <= j < decimal(n).len() ==> #[trigger] decimal(n)[j] != '\0',
    decreases n,
{
    let d = if n < 10 {
        n
    } else {
        n % 10
    };
    assert('0' as u32 == 48);
    assert(crate::text::digit_char(d) as u32 == 48 + d);
    if n >= 10 {
        lemma_decimal_digits(n / 10);
        let p = decimal(n / 10);
        assert forall|j: int| 0 <= j < decimal(n).len() implies #[trigger] decimal(n)[j] != '\0' by {
            if j < p.len() {
                assert(decimal(n)[j] == p[j]);
            }
        }
    }
}

/// A suggested name lies within the edit budget, and no earlier candidate is closer.
pub proof fn law_closest_is_within_budget_and_first_closest(
    input: Seq<char>,
    cands: Seq<Seq<char>>,
    max: nat,
    k: int,
)
    requires
        0 <= k <= cands.len(),
    ensures
        closest_among(input, cands, max, k) matches Some(i) ==> 0 <= i < k && edit_distance(
            input,
            cands[i],
        ) <= max && forall|j: int|
            0 <= j < k ==> edit_distance(input, cands[i]) <= #[trigger] edit_distance(input, cands[j])
                || edit_distance(input, cands[j]) > max,
        closest_among(input, cands, max, k) is None ==> forall|j: int|
            0 <= j < k ==> #[trigger] edit_distance(input, cands[j]) > max,
    decreases k,
{
    if k > 0 {
        law_closest_is_within_budget_and_first_closest(input, cands, max, k - 1);
    }
}


/// The entries at positions `o`, in that order.
pub open spec fn entries_along(entries: Seq<(Seq<char>, Seq<char>)>, o: Seq<int>) -> Seq<
    (Seq<char>, Seq<char>),
> {
    o.map_values(|i: int| entries[i])
}

/// Strictly increasing by key.
pub open spec fn sorted_by_key(s: Seq<(Seq<char>, Seq<char>)>) -> bool {
    forall|i: int, j: int| 0 <= i < j < s.len() ==> key_less(#[trigger] s[i].0, #[trigger] s[j].0)
}

proof fn lemma_along_determines(
    ev1: Seq<(Seq<char>, Seq<char>)>,
    o1: Seq<int>,
    ev2: Seq<(Seq<char>, Seq<char>)>,
    o2: Seq<int>,
    known: Seq<Seq<char>>,
    plain: bool,
)
    requires
        entries_along(ev1, o1) == entries_along(ev2, o2),
    ensures
        hooks_along(ev1, o1) == hooks_along(ev2, o2),
        warnings_along(ev1, o1, known, plain) == warnings_along(ev2, o2, known, plain),
    decreases o1.len(),
{
    assert(o1.len() == entries_along(ev1, o1).len());
    assert(o2.len() == entries_along(ev2, o2).len());
    if o1.len() > 0 {
        assert(entries_along(ev1, o1.drop_last()) =~= entries_along(ev1, o1).drop_last());
        assert(entries_along(ev2, o2.drop_last()) =~= entries_along(ev2, o2).drop_last());
        lemma_along_determines(ev1, o1.drop_last(), ev2, o2.drop_last(), known, plain);
        assert(ev1[o1.last()] == entries_along(ev1, o1)[o1.len() - 1]);
        assert(ev2[o2.last()] == entries_along(ev2, o2)[o2.len() - 1]);
    }
}

proof fn lemma_sorted_same_entries(s1: Seq<(Seq<char>, Seq<char>)>, s2: Seq<(Seq<char>, Seq<char>)>)
    requires
        sorted_by_key(s1),
        sorted_by_key(s2),
        forall|x: (Seq<char>, Seq<char>)| s1.contains(x) <==> s2.contains(x),
    ensures
        s1 == s2,
    decreases s1.len(),
{
    if s1.len() == 0 {
        if s2.len() > 0 {
            assert(s2.contains(s2[0]));
        }
        assert(s1 =~= s2);
    } else {
        assert(s1.contains(s1[0]));
        let j = choose|j: int| 0 <= j < s2.len() && s2[j] == s1[0];
        assert(s2.contains(s2[0]));
        let i = choose|i: int| 0 <= i < s1.len() && s1[i] == s2[0];
        if j > 0 {
            assert(key_less(s2[0].0, s2[j].0));
            if i > 0 {
                assert(key_less(s1[0].0, s1[i].0));
                lemma_key_less_asymmetric(s1[0].0, s1[i].0);
            } else {
                lemma_key_less_irreflexive(s1[0].0);
            }
        }
        assert(s2[0] == s1[0]);
        let t1 = s1.drop_first();
        let t2 = s2.drop_first();
        assert forall|x: (Seq<char>, Seq<char>)| t1.contains(x) implies t2.contains(x) by {
            let a = choose|a: int| 0 <= a < t1.len() && t1[a] == x;
            assert(s1[a + 1] == x);
            assert(key_less(s1[0].0, s1[a + 1].0));
            lemma_key_less_irreflexive(x.0);
            assert(s2.contains(x));
            let b = choose|b: int| 0 <= b < s2.len() && s2[b] == x;
            assert(b != 0);
            assert(t2[b - 1] == x);
        }
        assert forall|x: (Seq<char>, Seq<char>)| t2.contains(x) implies t1.contains(x) by {
            let a = choose|a: int| 0 <= a < t2.len() && t2[a] == x;
            assert(s2[a + 1] == x);
            assert(key_less(s2[0].0, s2[a + 1].0));
            lemma_key_less_irreflexive(x.0);
            assert(s1.contains(x));
            let b = choose|b: int| 0 <= b < s1.len() && s1[b] == x;
            assert(b != 0);
            assert(t1[b - 1] == x);
        }
        assert(sorted_by_key(t1)) by {
            assert forall|a: int, b: int| 0 <= a < b < t1.len() implies key_less(
                #[trigger] t1[a].0,
                #[trigger] t1[b].0,
            ) by {
                assert(key_less(s1[a + 1].0, s1[b + 1].0));
            }
        }
        assert(sorted_by_key(t2)) by {
            assert forall|a: int, b: int| 0 <= a < b < t2.len() implies key_less(
                #[trigger] t2[a].0,
                #[trigger] t2[b].0,
            ) by {
                assert(key_less(s2[a + 1].0, s2[b + 1].0));
            }
        }
        lemma_sorted_same_entries(t1, t2);
        assert(s1 =~= seq![s1[0]] + t1);
        assert(s2 =~= seq![s2[0]] + t2);
    }
}

proof fn lemma_key_order_along(ev: Seq<(Seq<char>, Seq<char>)>, o: Seq<int>)
    requires
        is_key_order(ev, o),
    ensures
        sorted_by_key(entries_along(ev, o)),
        forall|x: (Seq<char>, Seq<char>)|
            entries_along(ev, o).contains(x) <==> (ev.contains(x) && starts_with(x.0, "hooks."@)),
{
    let s = entries_along(ev, o);
    assert forall|i: int, j: int| 0 <= i < j < s.len() implies key_less(
        #[trigger] s[i].0,
        #[trigger] s[j].0,
    ) by {
        assert(s[i] == ev[o[i]]);
        assert(s[j] == ev[o[j]]);
    }
    assert forall|x: (Seq<char>, Seq<char>)|
        s.contains(x) implies (ev.contains(x) && starts_with(x.0, "hooks."@)) by {
        let a = choose|a: int| 0 <= a < s.len() && s[a] == x;
        assert(0 <= o[a] < ev.len());
        assert(ev[o[a]] == x);
    }
    assert forall|x: (Seq<char>, Seq<char>)|
        (ev.contains(x) && starts_with(x.0, "hooks."@)) implies s.contains(x) by {
        let e = choose|e: int| 0 <= e < ev.len() && ev[e] == x;
        assert(starts_with(ev[e].0, "hooks."@));
        assert(o.contains(e));
        let a = choose|a: int| 0 <= a < o.len() && o[a] == e;
        assert(s[a] == x);
    }
}

/// The hooks and warnings a configuration yields do not depend on the order its entries
/// are listed in: two listings of the same entries give the same hooks, in the same
/// (key) order, and the same warnings.
pub proof fn law_hooks_independent_of_entry_order(
    ev1: Seq<(Seq<char>, Seq<char>)>,
    o1: Seq<int>,
    ev2: Seq<(Seq<char>, Seq<char>)>,
    o2: Seq<int>,
    known: Seq<Seq<char>>,
    plain: bool,
)
    requires
        forall|x: (Seq<char>, Seq<char>)| ev1.contains(x) <==> ev2.contains(x),
        is_key_order(ev1, o1),
        is_key_order(ev2, o2),
    ensures
        hooks_along(ev1, o1) == hooks_along(ev2, o2),
        warnings_along(ev1, o1, known, plain) == warnings_along(ev2, o2, known, plain),
{
    lemma_key_order_along(ev1, o1);
    lemma_key_order_along(ev2, o2);
    assert forall|x: (Seq<char>, Seq<char>)|
        entries_along(ev1, o1).contains(x) <==> entries_along(ev2, o2).contains(x) by {
        assert(ev1.contains(x) <==> ev2.contains(x));
    }
    lemma_sorted_same_entries(entries_along(ev1, o1), entries_along(ev2, o2));
    lemma_along_determines(ev1, o1, ev2, o2, known, plain);
}

} // verus!
