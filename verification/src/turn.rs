//! One prompt turn, as a state machine fed by the agent's events, and the attempt loop
//! around it: what a turn has collected, how its outcome is classified, and whether the
//! prompt is retried, compacted and retried, or finished. Rendering, timers and the agent
//! itself stay with the caller, which performs each step this module decides.
use vstd::prelude::*;
use crate::hooks::opt_str;
use crate::prompt::is_dropped_tool_args_error;
use crate::prompt_retry_limits::{backoff_ms, retry_delay};
use crate::text::{chars_of, string_of};
use crate::time::{Dur, NANOS_PER_MILLI};

verus! {

// ───────────────────────────── token usage ─────────────────────────────

/// The tokens a turn used, as the provider reports them.
#[derive(Debug, Clone, Copy, PartialEq, Eq, Structural)]
pub struct TokenUsage {
    pub input: u64,
    pub output: u64,
    pub cache_read: u64,
    pub cache_write: u64,
}

/// Whether adding `b` to `a` stays within `u64` in every field.
pub open spec fn usage_fits(a: TokenUsage, b: TokenUsage) -> bool {
    &&& a.input + b.input <= u64::MAX
    &&& a.output + b.output <= u64::MAX
    &&& a.cache_read + b.cache_read <= u64::MAX
    &&& a.cache_write + b.cache_write <= u64::MAX
}

/// The field-wise sum.
pub open spec fn usage_sum(a: TokenUsage, b: TokenUsage) -> TokenUsage {
    TokenUsage {
        input: (a.input + b.input) as u64,
        output: (a.output + b.output) as u64,
        cache_read: (a.cache_read + b.cache_read) as u64,
        cache_write: (a.cache_write + b.cache_write) as u64,
    }
}

impl Default for TokenUsage {
    fn default() -> (r: Self)
        ensures
            r == TokenUsage::zero_spec(),
    {
        TokenUsage::zero()
    }
}

impl TokenUsage {
    /// No tokens.
    pub open spec fn zero_spec() -> TokenUsage {
        TokenUsage { input: 0, output: 0, cache_read: 0, cache_write: 0 }
    }

    /// No tokens.
    pub fn zero() -> (r: Self)
        ensures
            r == TokenUsage::zero_spec(),
    {
        TokenUsage { input: 0, output: 0, cache_read: 0, cache_write: 0 }
    }
}

/// Adds `delta` into `total`, field by field.
pub fn accumulate_usage(total: &mut TokenUsage, delta: &TokenUsage)
    requires
        usage_fits(*old(total), *delta),
    ensures
        *final(total) == usage_sum(*old(total), *delta),
{
    total.input = total.input + delta.input;
    total.output = total.output + delta.output;
    total.cache_read = total.cache_read + delta.cache_read;
    total.cache_write = total.cache_write + delta.cache_write;
}

/// Accumulating two reports gives the same total in either order.
pub proof fn law_usage_order_irrelevant(total: TokenUsage, a: TokenUsage, b: TokenUsage)
    requires
        usage_fits(total, a),
        usage_fits(usage_sum(total, a), b),
    ensures
        usage_fits(total, b),
        usage_fits(usage_sum(total, b), a),
        usage_sum(usage_sum(total, a), b) == usage_sum(usage_sum(total, b), a),
{
}

// ───────────────────────────── the outcome of one turn ─────────────────────────────

/// How one attempt at a prompt ended.
#[derive(Debug, Clone, PartialEq)]
pub enum TurnResult {
    /// The turn completed (errors the user has already seen aside).
    Done {
        collected_text: String,
        usage: TokenUsage,
        last_tool_error: Option<String>,
        last_tool_name: Option<String>,
    },
    /// A provider error worth retrying.
    RetriableError { error_msg: String, usage: TokenUsage },
    /// The context overflowed: compact and retry.
    ContextOverflow { error_msg: String, usage: TokenUsage },
    /// A turn failure that retrying the same prompt can reproduce: surface and stop.
    FatalError { error_msg: String, usage: TokenUsage },
}

/// The view of a turn's outcome.
pub enum TurnResultV {
    Done {
        collected_text: Seq<char>,
        usage: TokenUsage,
        last_tool_error: Option<Seq<char>>,
        last_tool_name: Option<Seq<char>>,
    },
    RetriableError { error_msg: Seq<char>, usage: TokenUsage },
    ContextOverflow { error_msg: Seq<char>, usage: TokenUsage },
    FatalError { error_msg: Seq<char>, usage: TokenUsage },
}

impl TurnResult {
    pub open spec fn view(&self) -> TurnResultV {
        match self {
            TurnResult::Done { collected_text, usage, last_tool_error, last_tool_name } => {
                TurnResultV::Done {
                    collected_text: collected_text@,
                    usage: *usage,
                    last_tool_error: opt_str(*last_tool_error),
                    last_tool_name: opt_str(*last_tool_name),
                }
            },
            TurnResult::RetriableError { error_msg, usage } => TurnResultV::RetriableError {
                error_msg: error_msg@,
                usage: *usage,
            },
            TurnResult::ContextOverflow { error_msg, usage } => TurnResultV::ContextOverflow {
                error_msg: error_msg@,
                usage: *usage,
            },
            TurnResult::FatalError { error_msg, usage } => TurnResultV::FatalError {
                error_msg: error_msg@,
                usage: *usage,
            },
        }
    }
}

/// The usage a turn's outcome reports.
pub open spec fn result_usage(r: TurnResultV) -> TokenUsage {
    match r {
        TurnResultV::Done { usage, .. } => usage,
        TurnResultV::RetriableError { usage, .. } => usage,
        TurnResultV::ContextOverflow { usage, .. } => usage,
        TurnResultV::FatalError { usage, .. } => usage,
    }
}

// ───────────────────────────── calls in flight ─────────────────────────────

/// The call ids a list holds, as a set: the list stands for the keys of a map from call
/// id to what the caller keeps for that call (a start time, a timer, cached arguments).
pub open spec fn ids(v: Seq<String>) -> Set<Seq<char>> {
    Set::new(|x: Seq<char>| exists|i: int| 0 <= i < v.len() && #[trigger] v[i]@ == x)
}

fn holds_id(v: &Vec<String>, key: &String) -> (r: bool)
    ensures
        r == ids(v@).contains(key@),
{
    let mut i: usize = 0;
    while i < v.len()
        invariant
            i <= v@.len(),
            forall|j: int| 0 <= j < i ==> v@[j]@ != key@,
        decreases v.len() - i,
    {
        if v[i] == *key {
            assert(v@[i as int]@ == key@);
            return true;
        }
        i = i + 1;
    }
    false
}

proof fn lemma_ids_push(v: Seq<String>, s: String)
    ensures
        ids(v.push(s)) == ids(v).insert(s@),
{
    let w = v.push(s);
    assert forall|x: Seq<char>| ids(v).insert(s@).contains(x) implies ids(w).contains(x) by {
        if x == s@ {
            assert(w[v.len() as int]@ == x);
        } else {
            let i = choose|i: int| 0 <= i < v.len() && #[trigger] v[i]@ == x;
            assert(w[i]@ == x);
        }
    }
    assert forall|x: Seq<char>| ids(w).contains(x) implies ids(v).insert(s@).contains(x) by {
        let i = choose|i: int| 0 <= i < w.len() && #[trigger] w[i]@ == x;
        if i < v.len() {
            assert(v[i]@ == x);
        }
    }
    assert(ids(w) =~= ids(v).insert(s@));
}

fn insert_id(v: &mut Vec<String>, key: &String)
    ensures
        ids(final(v)@) == ids(old(v)@).insert(key@),
{
    if holds_id(v, key) {
        assert(ids(old(v)@).insert(key@) =~= ids(old(v)@));
    } else {
        let ghost before = v@;
        let k = key.clone();
        v.push(k);
        proof {
            lemma_ids_push(before, k);
        }
    }
}

fn remove_id(v: &mut Vec<String>, key: &String) -> (was: bool)
    ensures
        was == ids(old(v)@).contains(key@),
        ids(final(v)@) == ids(old(v)@).remove(key@),
{
    let ghost src = v@;
    let mut out: Vec<String> = Vec::new();
    let mut was = false;
    let mut i: usize = 0;
    assert(ids(src.take(0)) =~= Set::empty());
    assert(ids(out@) =~= Set::empty());
    while i < v.len()
        invariant
            i <= v@.len(),
            v@ == src,
            was == ids(src.take(i as int)).contains(key@),
            ids(out@) == ids(src.take(i as int)).remove(key@),
        decreases v.len() - i,
    {
        let ghost seen = ids(src.take(i as int));
        assert(src.take(i + 1) =~= src.take(i as int).push(src[i as int]));
        proof {
            lemma_ids_push(src.take(i as int), src[i as int]);
        }
        if v[i] == *key {
            was = true;
            assert(seen.insert(key@).remove(key@) =~= seen.remove(key@));
        } else {
            let ghost before = out@;
            let c = v[i].clone();
            out.push(c);
            proof {
                lemma_ids_push(before, c);
            }
            assert(seen.insert(c@).remove(key@) =~= seen.remove(key@).insert(c@));
        }
        i = i + 1;
    }
    assert(src.take(src.len() as int) =~= src);
    *v = out;
    was
}

// ───────────────────────────── the turn's state ─────────────────────────────

/// What the agent's events have told a turn so far.
pub struct TurnState {
    /// Tokens used by the turn's assistant messages.
    pub usage: TokenUsage,
    /// Whether answer text is being streamed on the current line.
    pub in_text: bool,
    /// Whether thinking output is being streamed.
    pub in_thinking: bool,
    /// The answer text (think blocks already filtered out).
    pub collected_text: String,
    /// A provider error worth retrying.
    pub retriable_error: Option<String>,
    /// A context-overflow error.
    pub overflow_error: Option<String>,
    /// A failure that must be surfaced and not retried.
    pub fatal_error: Option<String>,
    /// The last tool failure (cleared by a later success).
    pub last_tool_error: Option<String>,
    /// The tool that failed last.
    pub last_tool_name: Option<String>,
    /// Tool calls in the current batch, and how they ended.
    pub batch_count: usize,
    pub batch_succeeded: usize,
    pub batch_failed: usize,
    /// Turns started so far.
    pub turn_number: usize,
    /// Whether any answer text was shown.
    pub had_text: bool,
    /// Calls started and not yet ended: the caller keeps each one's start time and
    /// arguments, to show its duration and log it when it ends.
    pub in_flight: Vec<String>,
    /// `bash` calls whose progress timer waits for the command's first output (a timer
    /// started earlier would overwrite the confirmation prompt).
    pub deferred_timers: Vec<String>,
    /// Calls with a running progress timer.
    pub progress_timers: Vec<String>,
    /// `edit_file` calls whose arguments are kept to show the edit once it succeeded.
    pub cached_edits: Vec<String>,
}

/// Two states that track the same calls.
pub open spec fn same_calls(a: TurnState, b: TurnState) -> bool {
    &&& a.in_flight@ == b.in_flight@
    &&& a.deferred_timers@ == b.deferred_timers@
    &&& a.progress_timers@ == b.progress_timers@
    &&& a.cached_edits@ == b.cached_edits@
}

/// Two states that agree on everything but the calls they track.
pub open spec fn same_events(a: TurnState, b: TurnState) -> bool {
    &&& a.usage == b.usage
    &&& a.in_text == b.in_text
    &&& a.in_thinking == b.in_thinking
    &&& a.collected_text@ == b.collected_text@
    &&& opt_str(a.retriable_error) == opt_str(b.retriable_error)
    &&& opt_str(a.overflow_error) == opt_str(b.overflow_error)
    &&& opt_str(a.fatal_error) == opt_str(b.fatal_error)
    &&& opt_str(a.last_tool_error) == opt_str(b.last_tool_error)
    &&& opt_str(a.last_tool_name) == opt_str(b.last_tool_name)
    &&& a.batch_count == b.batch_count
    &&& a.batch_succeeded == b.batch_succeeded
    &&& a.batch_failed == b.batch_failed
    &&& a.turn_number == b.turn_number
    &&& a.had_text == b.had_text
}

/// What `TurnState::into_result` returns for the state `s`: a context overflow first, then
/// a fatal failure, then a retriable error, else the completed turn.
pub open spec fn result_of(s: TurnState) -> TurnResultV {
    if let Some(m) = s.overflow_error {
        TurnResultV::ContextOverflow { error_msg: m@, usage: s.usage }
    } else if let Some(m) = s.fatal_error {
        TurnResultV::FatalError { error_msg: m@, usage: s.usage }
    } else if let Some(m) = s.retriable_error {
        TurnResultV::RetriableError { error_msg: m@, usage: s.usage }
    } else {
        TurnResultV::Done {
            collected_text: s.collected_text@,
            usage: s.usage,
            last_tool_error: opt_str(s.last_tool_error),
            last_tool_name: opt_str(s.last_tool_name),
        }
    }
}

/// How a tool call changes a file of the session.
#[derive(Debug, Clone, Copy, PartialEq, Eq, Structural)]
pub enum FileChange {
    /// `write_file`: the file is written whole.
    Write,
    /// `edit_file`: the file is edited in place.
    Edit,
}

/// The file change a tool records, by the tool's name.
pub open spec fn file_change_of(tool_name: Seq<char>) -> Option<FileChange> {
    if tool_name == "write_file"@ {
        Some(FileChange::Write)
    } else if tool_name == "edit_file"@ {
        Some(FileChange::Edit)
    } else {
        None
    }
}

/// What a tool call starting asks the caller to do.
#[derive(Debug, Clone, Copy, PartialEq, Eq, Structural)]
pub struct ToolStart {
    /// End the answer line that was being streamed.
    pub close_text_line: bool,
    /// This call opens a new batch (start the batch clock if it is not running).
    pub new_batch: bool,
    /// Print the boundary marker of this turn number.
    pub turn_boundary: Option<usize>,
    /// Record this change of the file named by the call's `path` argument.
    pub file_change: Option<FileChange>,
    /// Announce a delegation to a sub-agent.
    pub sub_agent: bool,
    /// Start the progress timer only once the command runs (`bash`, whose confirmation
    /// prompt a timer would overwrite).
    pub deferred_timer: bool,
}

/// What output arriving from a running call asks the caller to do.
#[derive(Debug, Clone, Copy, PartialEq, Eq, Structural)]
pub struct ToolUpdate {
    /// Start the call's progress timer now: the command runs.
    pub start_progress_timer: bool,
    /// The call has a running progress timer (give it the output's line count).
    pub progress_timer_running: bool,
}

/// What a call ending asks the caller to do with what it kept for the call.
#[derive(Debug, Clone, Copy, PartialEq, Eq, Structural)]
pub struct ToolEnd {
    /// The call was in flight: show its duration and log it.
    pub was_in_flight: bool,
    /// Stop the call's progress timer.
    pub stop_progress_timer: bool,
    /// The call's edit arguments were kept: show the edit if the call succeeded.
    pub had_cached_edit: bool,
}

/// A finished tool batch: how many calls it held, and how many succeeded and failed.
#[derive(Debug, Clone, Copy, PartialEq, Eq, Structural)]
pub struct BatchSummary {
    pub count: usize,
    pub succeeded: usize,
    pub failed: usize,
}

/// What answer text arriving asks the caller to do first.
#[derive(Debug, Clone, Copy, PartialEq, Eq, Structural)]
pub struct TextStart {
    /// Print the divider that ends a thinking section.
    pub close_thinking: bool,
    /// Print this summary of the tool batch just run.
    pub batch_summary: Option<BatchSummary>,
    /// Start the answer on a fresh line.
    pub open_text_line: bool,
}

/// What a turn that stopped with an error asks the caller to show.
#[derive(Debug, Clone, Copy, PartialEq, Eq, Structural)]
pub enum StopNotice {
    /// No message at all: the turn is reported as incomplete.
    Incomplete,
    /// A failure retrying cannot fix: the message is shown and the turn fails.
    Fatal,
    /// Nothing now: the overflow or retriable error is handled by the attempt loop.
    Quiet,
    /// The stream ended without its terminator after delivering the whole answer.
    BenignEnd,
    /// Any other error: the message is shown, with a diagnostic where one applies.
    Error,
}

/// The message recorded for a turn that stopped with an error and no message.
pub open spec fn incomplete_text() -> Seq<char> {
    "turn ended with an error but no message — treating the response as incomplete (no resume path)"@
}

/// Whether an optional message is absent or empty.
pub open spec fn no_message(message: Option<&str>) -> bool {
    match message {
        Some(m) => m@.len() == 0,
        None => true,
    }
}

impl TurnState {
    /// A turn that has seen nothing.
    pub fn new() -> (r: Self)
        ensures
            r.usage == TokenUsage::zero_spec(),
            !r.in_text && !r.in_thinking && !r.had_text,
            r.collected_text@.len() == 0,
            r.retriable_error is None && r.overflow_error is None && r.fatal_error is None,
            r.last_tool_error is None && r.last_tool_name is None,
            r.batch_count == 0 && r.batch_succeeded == 0 && r.batch_failed == 0,
            r.turn_number == 0,
            r.in_flight@.len() == 0 && r.deferred_timers@.len() == 0,
            r.progress_timers@.len() == 0 && r.cached_edits@.len() == 0,
    {
        TurnState {
            usage: TokenUsage::zero(),
            in_text: false,
            in_thinking: false,
            collected_text: String::new(),
            retriable_error: None,
            overflow_error: None,
            fatal_error: None,
            last_tool_error: None,
            last_tool_name: None,
            batch_count: 0,
            batch_succeeded: 0,
            batch_failed: 0,
            turn_number: 0,
            had_text: false,
            in_flight: Vec::new(),
            deferred_timers: Vec::new(),
            progress_timers: Vec::new(),
            cached_edits: Vec::new(),
        }
    }

    /// A new turn of the conversation starts.
    pub fn turn_started(&mut self)
        requires
            old(self).turn_number < usize::MAX,
        ensures
            final(self).turn_number == old(self).turn_number + 1,
            final(self).batch_count == old(self).batch_count,
            final(self).in_text == old(self).in_text,
            final(self).had_text == old(self).had_text,
            result_of(*final(self)) == result_of(*old(self)),
            same_calls(*final(self), *old(self)),
    {
        self.turn_number = self.turn_number + 1;
    }

    /// The tool call `tool_call_id` starts. It is in flight from now on; a `bash` call
    /// waits for its first output before its progress timer starts, and an `edit_file`
    /// call's arguments are kept until it ends.
    pub fn tool_started(&mut self, tool_call_id: &str, tool_name: &str) -> (r: ToolStart)
        requires
            old(self).batch_count < usize::MAX,
        ensures
            ids(final(self).in_flight@) == ids(old(self).in_flight@).insert(tool_call_id@),
            ids(final(self).deferred_timers@) == (if tool_name@ == "bash"@ {
                ids(old(self).deferred_timers@).insert(tool_call_id@)
            } else {
                ids(old(self).deferred_timers@)
            }),
            ids(final(self).cached_edits@) == (if tool_name@ == "edit_file"@ {
                ids(old(self).cached_edits@).insert(tool_call_id@)
            } else {
                ids(old(self).cached_edits@)
            }),
            final(self).progress_timers@ == old(self).progress_timers@,
            r.file_change == file_change_of(tool_name@),
            r.sub_agent == (tool_name@ == "sub_agent"@),
            r.deferred_timer == (tool_name@ == "bash"@),
            r.close_text_line == old(self).in_text,
            !final(self).in_text,
            r.new_batch == (old(self).batch_count == 0),
            r.turn_boundary == (if old(self).batch_count == 0 && old(self).turn_number > 1
                && old(self).had_text {
                Some(old(self).turn_number)
            } else {
                None
            }),
            final(self).batch_count == old(self).batch_count + 1,
            final(self).batch_succeeded == old(self).batch_succeeded,
            final(self).batch_failed == old(self).batch_failed,
            final(self).turn_number == old(self).turn_number,
            final(self).had_text == old(self).had_text,
            final(self).in_thinking == old(self).in_thinking,
            result_of(*final(self)) == result_of(*old(self)),
    {
        let close_text_line = self.in_text;
        self.in_text = false;
        let new_batch = self.batch_count == 0;
        let turn_boundary = if new_batch && self.turn_number > 1 && self.had_text {
            Some(self.turn_number)
        } else {
            None
        };
        self.batch_count = self.batch_count + 1;
        let name = chars_of(tool_name);
        let file_change = if crate::text::eq_str(name.as_slice(), "write_file") {
            Some(FileChange::Write)
        } else if crate::text::eq_str(name.as_slice(), "edit_file") {
            Some(FileChange::Edit)
        } else {
            None
        };
        let sub_agent = crate::text::eq_str(name.as_slice(), "sub_agent");
        let deferred_timer = crate::text::eq_str(name.as_slice(), "bash");
        let id = tool_call_id.to_owned();
        insert_id(&mut self.in_flight, &id);
        if deferred_timer {
            insert_id(&mut self.deferred_timers, &id);
        }
        if crate::text::eq_str(name.as_slice(), "edit_file") {
            insert_id(&mut self.cached_edits, &id);
        }
        ToolStart {
            close_text_line,
            new_batch,
            turn_boundary,
            file_change,
            sub_agent,
            deferred_timer,
        }
    }

    /// Output arrived from the running call `tool_call_id`. A call whose timer was
    /// deferred starts it now.
    pub fn tool_updated(&mut self, tool_call_id: &str) -> (r: ToolUpdate)
        ensures
            r.start_progress_timer == ids(old(self).deferred_timers@).contains(tool_call_id@),
            ids(final(self).deferred_timers@) == ids(old(self).deferred_timers@).remove(
                tool_call_id@,
            ),
            ids(final(self).progress_timers@) == (if r.start_progress_timer {
                ids(old(self).progress_timers@).insert(tool_call_id@)
            } else {
                ids(old(self).progress_timers@)
            }),
            r.progress_timer_running == ids(final(self).progress_timers@).contains(tool_call_id@),
            final(self).in_flight@ == old(self).in_flight@,
            final(self).cached_edits@ == old(self).cached_edits@,
            same_events(*final(self), *old(self)),
    {
        let id = tool_call_id.to_owned();
        let start_progress_timer = remove_id(&mut self.deferred_timers, &id);
        if start_progress_timer {
            insert_id(&mut self.progress_timers, &id);
        }
        let progress_timer_running = holds_id(&self.progress_timers, &id);
        ToolUpdate { start_progress_timer, progress_timer_running }
    }

    /// The tool call `tool_call_id` ended. `preview` is the start of a failed tool's
    /// output. The call is no longer tracked anywhere: not in flight, not waiting for a
    /// timer, not timed, and its cached arguments are dropped.
    pub fn tool_ended(&mut self, tool_call_id: &str, tool_name: &str, is_error: bool, preview: &str) -> (r: ToolEnd)
        requires
            is_error ==> old(self).batch_failed < usize::MAX,
            !is_error ==> old(self).batch_succeeded < usize::MAX,
        ensures
            is_error ==> final(self).batch_failed == old(self).batch_failed + 1
                && final(self).batch_succeeded == old(self).batch_succeeded
                && opt_str(final(self).last_tool_error) == Some(
                if preview@.len() > 0 {
                    preview@
                } else {
                    "tool execution failed"@
                },
            ) && opt_str(final(self).last_tool_name) == Some(tool_name@),
            !is_error ==> final(self).batch_succeeded == old(self).batch_succeeded + 1
                && final(self).batch_failed == old(self).batch_failed
                && final(self).last_tool_error is None && final(self).last_tool_name is None,
            final(self).batch_count == old(self).batch_count,
            final(self).usage == old(self).usage,
            final(self).collected_text@ == old(self).collected_text@,
            opt_str(final(self).retriable_error) == opt_str(old(self).retriable_error),
            opt_str(final(self).overflow_error) == opt_str(old(self).overflow_error),
            opt_str(final(self).fatal_error) == opt_str(old(self).fatal_error),
            final(self).in_text == old(self).in_text,
            final(self).turn_number == old(self).turn_number,
            r.was_in_flight == ids(old(self).in_flight@).contains(tool_call_id@),
            r.stop_progress_timer == ids(old(self).progress_timers@).contains(tool_call_id@),
            r.had_cached_edit == ids(old(self).cached_edits@).contains(tool_call_id@),
            ids(final(self).in_flight@) == ids(old(self).in_flight@).remove(tool_call_id@),
            ids(final(self).deferred_timers@) == ids(old(self).deferred_timers@).remove(
                tool_call_id@,
            ),
            ids(final(self).progress_timers@) == ids(old(self).progress_timers@).remove(
                tool_call_id@,
            ),
            ids(final(self).cached_edits@) == ids(old(self).cached_edits@).remove(tool_call_id@),
    {
        let id = tool_call_id.to_owned();
        remove_id(&mut self.deferred_timers, &id);
        let stop_progress_timer = remove_id(&mut self.progress_timers, &id);
        let was_in_flight = remove_id(&mut self.in_flight, &id);
        let had_cached_edit = remove_id(&mut self.cached_edits, &id);
        if is_error {
            self.batch_failed = self.batch_failed + 1;
            if preview.is_empty() {
                self.last_tool_error = Some("tool execution failed".to_owned());
            } else {
                self.last_tool_error = Some(preview.to_owned());
            }
            self.last_tool_name = Some(tool_name.to_owned());
        } else {
            self.batch_succeeded = self.batch_succeeded + 1;
            self.last_tool_error = None;
            self.last_tool_name = None;
        }
        ToolEnd { was_in_flight, stop_progress_timer, had_cached_edit }
    }

    /// Ends the current tool batch: its summary, and the counters start again from zero.
    pub fn take_batch_summary(&mut self) -> (r: BatchSummary)
        ensures
            r == (BatchSummary {
                count: old(self).batch_count,
                succeeded: old(self).batch_succeeded,
                failed: old(self).batch_failed,
            }),
            final(self).batch_count == 0 && final(self).batch_succeeded == 0
                && final(self).batch_failed == 0,
            final(self).in_text == old(self).in_text,
            final(self).turn_number == old(self).turn_number,
            final(self).had_text == old(self).had_text,
            result_of(*final(self)) == result_of(*old(self)),
            same_calls(*final(self), *old(self)),
    {
        let r = BatchSummary {
            count: self.batch_count,
            succeeded: self.batch_succeeded,
            failed: self.batch_failed,
        };
        self.batch_count = 0;
        self.batch_succeeded = 0;
        self.batch_failed = 0;
        r
    }

    /// Thinking output arrives: whether to print the thinking header first.
    pub fn thinking_delta(&mut self) -> (r: bool)
        ensures
            r == !old(self).in_thinking,
            final(self).in_thinking,
            final(self).in_text == old(self).in_text,
            final(self).batch_count == old(self).batch_count,
            result_of(*final(self)) == result_of(*old(self)),
            same_calls(*final(self), *old(self)),
    {
        let header = !self.in_thinking;
        self.in_thinking = true;
        header
    }

    /// Answer text arrives; `filtered` is the part left once think blocks are removed,
    /// and it is collected.
    pub fn text_delta(&mut self, filtered: &str) -> (r: TextStart)
        ensures
            r.close_thinking == old(self).in_thinking,
            !final(self).in_thinking,
            r.batch_summary == (if old(self).batch_count > 0 {
                Some(
                    BatchSummary {
                        count: old(self).batch_count,
                        succeeded: old(self).batch_succeeded,
                        failed: old(self).batch_failed,
                    },
                )
            } else {
                None
            }),
            old(self).batch_count > 0 ==> final(self).batch_count == 0 && final(self).batch_succeeded
                == 0 && final(self).batch_failed == 0,
            old(self).batch_count == 0 ==> final(self).batch_count == 0 && final(self).batch_succeeded
                == old(self).batch_succeeded && final(self).batch_failed == old(self).batch_failed,
            r.open_text_line == !old(self).in_text,
            final(self).in_text,
            final(self).had_text == (old(self).had_text || !old(self).in_text),
            final(self).collected_text@ == old(self).collected_text@ + filtered@,
            final(self).usage == old(self).usage,
            opt_str(final(self).retriable_error) == opt_str(old(self).retriable_error),
            opt_str(final(self).overflow_error) == opt_str(old(self).overflow_error),
            opt_str(final(self).fatal_error) == opt_str(old(self).fatal_error),
            opt_str(final(self).last_tool_error) == opt_str(old(self).last_tool_error),
            opt_str(final(self).last_tool_name) == opt_str(old(self).last_tool_name),
            final(self).turn_number == old(self).turn_number,
            same_calls(*final(self), *old(self)),
    {
        let close_thinking = self.in_thinking;
        self.in_thinking = false;
        let batch_summary = if self.batch_count > 0 {
            let b = BatchSummary {
                count: self.batch_count,
                succeeded: self.batch_succeeded,
                failed: self.batch_failed,
            };
            self.batch_count = 0;
            self.batch_succeeded = 0;
            self.batch_failed = 0;
            Some(b)
        } else {
            None
        };
        let open_text_line = !self.in_text;
        if open_text_line {
            self.in_text = true;
            self.had_text = true;
        }
        if !filtered.is_empty() {
            let mut v = chars_of(self.collected_text.as_str());
            let f = chars_of(filtered);
            crate::text::extend(&mut v, f.as_slice());
            self.collected_text = string_of(v.as_slice());
        } else {
            assert(old(self).collected_text@ + filtered@ =~= old(self).collected_text@);
        }
        TextStart { close_thinking, batch_summary, open_text_line }
    }

    /// A message ended, or a progress line is about to be printed: whether the answer line
    /// being streamed must be ended first.
    pub fn end_text_line(&mut self) -> (r: bool)
        ensures
            r == old(self).in_text,
            !final(self).in_text,
            final(self).batch_count == old(self).batch_count,
            final(self).had_text == old(self).had_text,
            final(self).turn_number == old(self).turn_number,
            result_of(*final(self)) == result_of(*old(self)),
            same_calls(*final(self), *old(self)),
    {
        let r = self.in_text;
        self.in_text = false;
        r
    }

    /// An assistant message reports the tokens it used.
    pub fn add_usage(&mut self, usage: &TokenUsage)
        requires
            usage_fits(old(self).usage, *usage),
        ensures
            final(self).usage == usage_sum(old(self).usage, *usage),
            final(self).in_text == old(self).in_text,
            final(self).collected_text@ == old(self).collected_text@,
            opt_str(final(self).retriable_error) == opt_str(old(self).retriable_error),
            opt_str(final(self).overflow_error) == opt_str(old(self).overflow_error),
            opt_str(final(self).fatal_error) == opt_str(old(self).fatal_error),
            opt_str(final(self).last_tool_error) == opt_str(old(self).last_tool_error),
            opt_str(final(self).last_tool_name) == opt_str(old(self).last_tool_name),
            same_calls(*final(self), *old(self)),
    {
        accumulate_usage(&mut self.usage, usage);
    }

    /// An assistant message stopped with an error. `is_overflow`, `is_retriable` and
    /// `is_benign` classify its message (a context overflow, a provider error worth
    /// retrying, a stream that ended after delivering its answer). Returns whether the
    /// answer line had to be ended, and what to show.
    ///
    /// No message is an incomplete turn; then, in order, an overflow is left to the attempt
    /// loop, a tool call whose arguments never assembled is fatal (even when the message
    /// also reads as retriable), a retriable error is left to the attempt loop, a benign
    /// end is noted, and anything else is shown as an error.
    pub fn stopped_with_error(
        &mut self,
        message: Option<&str>,
        is_overflow: bool,
        is_retriable: bool,
        is_benign: bool,
    ) -> (r: (bool, StopNotice))
        ensures
            r.0 == old(self).in_text,
            !final(self).in_text,
            final(self).usage == old(self).usage,
            final(self).collected_text@ == old(self).collected_text@,
            opt_str(final(self).last_tool_error) == opt_str(old(self).last_tool_error),
            opt_str(final(self).last_tool_name) == opt_str(old(self).last_tool_name),
            final(self).batch_count == old(self).batch_count,
            final(self).had_text == old(self).had_text,
            final(self).turn_number == old(self).turn_number,
            no_message(message) ==> r.1 == StopNotice::Incomplete && opt_str(final(self).fatal_error)
                == Some(incomplete_text()) && opt_str(final(self).overflow_error) == opt_str(
                old(self).overflow_error,
            ) && opt_str(final(self).retriable_error) == opt_str(old(self).retriable_error),
            !no_message(message) ==> ({
                let m = message->0@;
                if is_overflow {
                    r.1 == StopNotice::Quiet && opt_str(final(self).overflow_error) == Some(m)
                        && opt_str(final(self).fatal_error) == opt_str(old(self).fatal_error)
                        && opt_str(final(self).retriable_error) == opt_str(old(self).retriable_error)
                } else if crate::prompt::dropped_tool_args_lower(crate::text::lowercase(m)) {
                    r.1 == StopNotice::Fatal && opt_str(final(self).fatal_error) == Some(m)
                        && opt_str(final(self).overflow_error) == opt_str(old(self).overflow_error)
                        && opt_str(final(self).retriable_error) == opt_str(old(self).retriable_error)
                } else if is_retriable {
                    r.1 == StopNotice::Quiet && opt_str(final(self).retriable_error) == Some(m)
                        && opt_str(final(self).overflow_error) == opt_str(old(self).overflow_error)
                        && opt_str(final(self).fatal_error) == opt_str(old(self).fatal_error)
                } else {
                    r.1 == (if is_benign {
                        StopNotice::BenignEnd
                    } else {
                        StopNotice::Error
                    }) && opt_str(final(self).overflow_error) == opt_str(old(self).overflow_error)
                        && opt_str(final(self).fatal_error) == opt_str(old(self).fatal_error)
                        && opt_str(final(self).retriable_error) == opt_str(old(self).retriable_error)
                }
            }),
            same_calls(*final(self), *old(self)),
    {
        let closed = self.in_text;
        self.in_text = false;
        let m = match message {
            Some(m) if !m.is_empty() => m,
            _ => {
                self.fatal_error = Some(
                    "turn ended with an error but no message — treating the response as incomplete (no resume path)".to_owned(),
                );
                return (closed, StopNotice::Incomplete);
            },
        };
        if is_overflow {
            self.overflow_error = Some(m.to_owned());
            (closed, StopNotice::Quiet)
        } else if is_dropped_tool_args_error(m) {
            self.fatal_error = Some(m.to_owned());
            (closed, StopNotice::Fatal)
        } else if is_retriable {
            self.retriable_error = Some(m.to_owned());
            (closed, StopNotice::Quiet)
        } else if is_benign {
            (closed, StopNotice::BenignEnd)
        } else {
            (closed, StopNotice::Error)
        }
    }

    /// The turn's outcome (see [`result_of`]).
    pub fn into_result(self) -> (r: TurnResult)
        ensures
            r@ == result_of(self),
    {
        if let Some(m) = self.overflow_error {
            TurnResult::ContextOverflow { error_msg: m, usage: self.usage }
        } else if let Some(m) = self.fatal_error {
            TurnResult::FatalError { error_msg: m, usage: self.usage }
        } else if let Some(m) = self.retriable_error {
            TurnResult::RetriableError { error_msg: m, usage: self.usage }
        } else {
            TurnResult::Done {
                collected_text: self.collected_text,
                usage: self.usage,
                last_tool_error: self.last_tool_error,
                last_tool_name: self.last_tool_name,
            }
        }
    }

    /// The turn was interrupted: it ends as completed with what it has, whatever errors
    /// it recorded.
    pub fn interrupted(self) -> (r: TurnResult)
        ensures
            r@ == (TurnResultV::Done {
                collected_text: self.collected_text@,
                usage: self.usage,
                last_tool_error: opt_str(self.last_tool_error),
                last_tool_name: opt_str(self.last_tool_name),
            }),
    {
        TurnResult::Done {
            collected_text: self.collected_text,
            usage: self.usage,
            last_tool_error: self.last_tool_error,
            last_tool_name: self.last_tool_name,
        }
    }
}

/// A recorded context overflow decides a turn's outcome whatever else it recorded; then a
/// fatal failure, which is never reported as a completed turn; a retriable error only
/// when neither was recorded.
pub proof fn law_turn_outcome_priority(s: TurnState)
    ensures
        s.overflow_error is Some ==> result_of(s) is ContextOverflow,
        (s.overflow_error is None && s.fatal_error is Some) ==> result_of(s) is FatalError,
        (s.overflow_error is None && s.fatal_error is None && s.retriable_error is Some)
            ==> result_of(s) is RetriableError,
        result_of(s) is Done <==> (s.overflow_error is None && s.fatal_error is None
            && s.retriable_error is None),
        result_usage(result_of(s)) == s.usage,
{
}


// ───────────────────────────── the attempt loop ─────────────────────────────

/// What a prompt's attempts produced, for the caller.
#[derive(Debug, Clone)]
pub struct PromptOutcome {
    /// The answer text.
    pub text: String,
    /// The last tool failure, if the final turn ended with one.
    pub last_tool_error: Option<String>,
    /// The tool that failed last.
    pub last_tool_name: Option<String>,
    /// Whether the context overflowed and was compacted.
    pub was_overflow: bool,
    /// The provider error the prompt finally failed with, if any.
    pub last_api_error: Option<String>,
}

impl Default for PromptOutcome {
    fn default() -> (r: Self)
        ensures
            r.text@.len() == 0,
            r.last_tool_error is None && r.last_tool_name is None,
            !r.was_overflow,
            r.last_api_error is None,
    {
        PromptOutcome {
            text: String::new(),
            last_tool_error: None,
            last_tool_name: None,
            was_overflow: false,
            last_api_error: None,
        }
    }
}

impl PromptOutcome {
    /// Takes in the outcome of an auto-continued turn, so the whole run is reported: its
    /// text is appended after a blank line when it is not blank, and its errors replace
    /// the earlier ones.
    pub fn absorb_continuation(&mut self, cont: PromptOutcome)
        ensures
            crate::text::trim(cont.text@).len() == 0 ==> final(self).text@ == old(self).text@,
            crate::text::trim(cont.text@).len() > 0 && old(self).text@.len() == 0 ==> final(self).text@
                == cont.text@,
            crate::text::trim(cont.text@).len() > 0 && old(self).text@.len() > 0 ==> final(self).text@
                == old(self).text@ + "\n\n"@ + cont.text@,
            opt_str(final(self).last_tool_error) == opt_str(cont.last_tool_error),
            opt_str(final(self).last_tool_name) == opt_str(cont.last_tool_name),
            opt_str(final(self).last_api_error) == opt_str(cont.last_api_error),
            final(self).was_overflow == old(self).was_overflow,
    {
        let c = chars_of(cont.text.as_str());
        let t = crate::text::trim_vec(c.as_slice());
        if t.len() > 0 {
            let mut v = chars_of(self.text.as_str());
            if v.len() > 0 {
                crate::text::extend_str(&mut v, "\n\n");
            }
            crate::text::extend(&mut v, c.as_slice());
            self.text = string_of(v.as_slice());
        }
        self.last_tool_error = cont.last_tool_error;
        self.last_tool_name = cont.last_tool_name;
        self.last_api_error = cont.last_api_error;
    }
}

/// Where a prompt's attempts stand.
#[derive(Debug, Clone, Copy, PartialEq, Eq, Structural)]
pub enum RunStage {
    /// Ordinary attempts, retried on retriable errors.
    Trying,
    /// The one retry after compacting an overflowed context.
    AfterCompact,
    /// Nothing more will be attempted.
    Finished,
}

/// What to do after an attempt.
#[derive(Debug, Clone, Copy, PartialEq, Eq, Structural)]
pub enum NextStep {
    /// Stop: the outcome is complete.
    Finish,
    /// Stop after the last allowed attempt failed with a retriable error (show it, with
    /// the number of attempts made).
    GaveUp,
    /// Stop: the retry after compacting failed too.
    CompactRetryFailed,
    /// Restore the conversation, wait `delay`, and make attempt `attempt` (counting from 0).
    RetryAfter { delay: Dur, attempt: u32 },
    /// Restore the conversation, compact it, and retry once with the overflow prompt.
    CompactAndRetry,
}

/// The attempts made at one prompt: `max_retries` retries after the first attempt on
/// retriable errors, one compact-and-retry on a context overflow (when the prompt can be
/// compacted), none on a fatal error.
pub struct PromptRun {
    /// The attempt being made, counting from 0.
    pub attempt: u32,
    pub max_retries: u32,
    /// Whether a context overflow is answered by compacting and retrying. A prompt that
    /// carries content blocks (images) is not: its overflow ends the run at once.
    pub compact_on_overflow: bool,
    pub stage: RunStage,
    pub total_usage: TokenUsage,
    pub text: String,
    pub last_tool_error: Option<String>,
    pub last_tool_name: Option<String>,
    pub was_overflow: bool,
    pub api_error: Option<String>,
}

/// How many more attempts a run can make at most: none once finished, the one retry
/// after compacting, or the retries left plus the first try of this stage and a possible
/// compact-and-retry.
pub open spec fn attempts_left(r: PromptRun) -> int {
    match r.stage {
        RunStage::Finished => 0,
        RunStage::AfterCompact => 1,
        RunStage::Trying => r.max_retries - r.attempt + 2,
    }
}

impl PromptRun {
    /// A prompt about to make its first attempt; an overflow is compacted and retried.
    pub fn new(max_retries: u32) -> (r: Self)
        ensures
            r.attempt == 0,
            r.max_retries == max_retries,
            r.compact_on_overflow,
            r.stage == RunStage::Trying,
            r.total_usage == TokenUsage::zero_spec(),
            r.text@.len() == 0,
            r.last_tool_error is None && r.last_tool_name is None,
            !r.was_overflow,
            r.api_error is None,
    {
        PromptRun {
            attempt: 0,
            max_retries,
            compact_on_overflow: true,
            stage: RunStage::Trying,
            total_usage: TokenUsage::zero(),
            text: String::new(),
            last_tool_error: None,
            last_tool_name: None,
            was_overflow: false,
            api_error: None,
        }
    }

    /// A prompt with content blocks about to make its first attempt: such a prompt cannot
    /// be compacted and resent, so a context overflow ends the run with the overflow as
    /// its error.
    pub fn new_no_compact(max_retries: u32) -> (r: Self)
        ensures
            r.attempt == 0,
            r.max_retries == max_retries,
            !r.compact_on_overflow,
            r.stage == RunStage::Trying,
            r.total_usage == TokenUsage::zero_spec(),
            r.text@.len() == 0,
            r.last_tool_error is None && r.last_tool_name is None,
            !r.was_overflow,
            r.api_error is None,
    {
        let mut r = PromptRun::new(max_retries);
        r.compact_on_overflow = false;
        r
    }

    /// Takes in how an attempt ended and decides what comes next. Every attempt's tokens
    /// are counted. A completed turn supplies the text and the last tool failure and
    /// finishes. A retriable error is retried after the backoff delay while retries are
    /// left, and otherwise becomes the prompt's error. An overflow is compacted and
    /// retried once (whatever fails after that becomes the prompt's error), unless the run
    /// does not compact, where the overflow becomes the prompt's error at once. A fatal
    /// error becomes the prompt's error at once.
    pub fn absorb(&mut self, result: TurnResult) -> (step: NextStep)
        requires
            old(self).stage != RunStage::Finished,
            old(self).attempt <= old(self).max_retries,
            old(self).max_retries < u32::MAX,
            usage_fits(old(self).total_usage, result_usage(result@)),
        ensures
            final(self).total_usage == usage_sum(old(self).total_usage, result_usage(result@)),
            final(self).max_retries == old(self).max_retries,
            final(self).compact_on_overflow == old(self).compact_on_overflow,
            final(self).attempt <= final(self).max_retries,
            attempts_left(*final(self)) < attempts_left(*old(self)),
            final(self).was_overflow == (old(self).was_overflow || (old(self).stage
                == RunStage::Trying && old(self).compact_on_overflow && result@ is ContextOverflow)),
            match result@ {
                TurnResultV::Done { collected_text, last_tool_error, last_tool_name, .. } => {
                    &&& step == NextStep::Finish
                    &&& final(self).stage == RunStage::Finished
                    &&& final(self).text@ == collected_text
                    &&& opt_str(final(self).last_tool_error) == last_tool_error
                    &&& opt_str(final(self).last_tool_name) == last_tool_name
                    &&& opt_str(final(self).api_error) == opt_str(old(self).api_error)
                },
                TurnResultV::RetriableError { error_msg, .. } => if old(self).stage
                    == RunStage::AfterCompact {
                    &&& step == NextStep::CompactRetryFailed
                    &&& final(self).stage == RunStage::Finished
                    &&& opt_str(final(self).api_error) == Some(error_msg)
                } else if old(self).attempt < old(self).max_retries {
                    &&& step == (NextStep::RetryAfter {
                        delay: Dur { nanos: (backoff_ms((old(self).attempt + 1) as nat) * (NANOS_PER_MILLI as nat)) as u128 },
                        attempt: (old(self).attempt + 1) as u32,
                    })
                    &&& final(self).stage == RunStage::Trying
                    &&& final(self).attempt == old(self).attempt + 1
                    &&& opt_str(final(self).api_error) == opt_str(old(self).api_error)
                } else {
                    &&& step == NextStep::GaveUp
                    &&& final(self).stage == RunStage::Finished
                    &&& opt_str(final(self).api_error) == Some(error_msg)
                },
                TurnResultV::ContextOverflow { error_msg, .. } => if old(self).stage
                    == RunStage::AfterCompact {
                    &&& step == NextStep::CompactRetryFailed
                    &&& final(self).stage == RunStage::Finished
                    &&& opt_str(final(self).api_error) == Some(error_msg)
                } else if !old(self).compact_on_overflow {
                    &&& step == NextStep::Finish
                    &&& final(self).stage == RunStage::Finished
                    &&& opt_str(final(self).api_error) == Some(error_msg)
                } else {
                    &&& step == NextStep::CompactAndRetry
                    &&& final(self).stage == RunStage::AfterCompact
                    &&& opt_str(final(self).api_error) == opt_str(old(self).api_error)
                },
                TurnResultV::FatalError { error_msg, .. } => {
                    &&& step == NextStep::Finish
                    &&& final(self).stage == RunStage::Finished
                    &&& opt_str(final(self).api_error) == Some(error_msg)
                },
            },
            !(result@ is Done) ==> final(self).text@ == old(self).text@ && opt_str(
                final(self).last_tool_error,
            ) == opt_str(old(self).last_tool_error) && opt_str(final(self).last_tool_name)
                == opt_str(old(self).last_tool_name),
            !(result@ is RetriableError && old(self).stage == RunStage::Trying) ==> final(self).attempt
                == old(self).attempt,
    {
        let after_compact = self.stage == RunStage::AfterCompact;
        match result {
            TurnResult::Done { collected_text, usage, last_tool_error, last_tool_name } => {
                accumulate_usage(&mut self.total_usage, &usage);
                self.text = collected_text;
                self.last_tool_error = last_tool_error;
                self.last_tool_name = last_tool_name;
                self.stage = RunStage::Finished;
                NextStep::Finish
            },
            TurnResult::RetriableError { error_msg, usage } => {
                accumulate_usage(&mut self.total_usage, &usage);
                if after_compact {
                    self.api_error = Some(error_msg);
                    self.stage = RunStage::Finished;
                    NextStep::CompactRetryFailed
                } else if self.attempt < self.max_retries {
                    let delay = retry_delay(self.attempt + 1);
                    self.attempt = self.attempt + 1;
                    NextStep::RetryAfter { delay, attempt: self.attempt }
                } else {
                    self.api_error = Some(error_msg);
                    self.stage = RunStage::Finished;
                    NextStep::GaveUp
                }
            },
            TurnResult::ContextOverflow { error_msg, usage } => {
                accumulate_usage(&mut self.total_usage, &usage);
                if after_compact {
                    self.api_error = Some(error_msg);
                    self.stage = RunStage::Finished;
                    NextStep::CompactRetryFailed
                } else if !self.compact_on_overflow {
                    self.api_error = Some(error_msg);
                    self.stage = RunStage::Finished;
                    NextStep::Finish
                } else {
                    self.was_overflow = true;
                    self.stage = RunStage::AfterCompact;
                    NextStep::CompactAndRetry
                }
            },
            TurnResult::FatalError { error_msg, usage } => {
                accumulate_usage(&mut self.total_usage, &usage);
                self.api_error = Some(error_msg);
                self.stage = RunStage::Finished;
                NextStep::Finish
            },
        }
    }

    /// The outcome of the attempts made so far (also when the caller had to stop early).
    pub fn outcome(self) -> (r: PromptOutcome)
        ensures
            r.text@ == self.text@,
            opt_str(r.last_tool_error) == opt_str(self.last_tool_error),
            opt_str(r.last_tool_name) == opt_str(self.last_tool_name),
            r.was_overflow == self.was_overflow,
            opt_str(r.last_api_error) == opt_str(self.api_error),
    {
        PromptOutcome {
            text: self.text,
            last_tool_error: self.last_tool_error,
            last_tool_name: self.last_tool_name,
            was_overflow: self.was_overflow,
            last_api_error: self.api_error,
        }
    }
}

/// What to do after a prompt's outcome when tool failures are retried automatically.
#[derive(Debug, Clone, Copy, PartialEq, Eq, Structural)]
pub enum AutoRetry {
    /// The outcome stands.
    Stop,
    /// The outcome stands because the session budget is nearly spent (say so).
    StopForBudget,
    /// Re-run the prompt with the tool failure as context; this is retry number `attempt`.
    Retry { attempt: u32 },
}

/// Whether to re-run a prompt whose outcome is known, `attempt` (from 1) being the retry
/// that would come next: only while a tool failure is reported and retries are left, and
/// not once the session budget is nearly spent.
pub fn auto_retry_step(attempt: u32, max_auto_retries: u32, has_tool_error: bool, budget_nearly_spent: bool) -> (r: AutoRetry)
    ensures
        r == (if attempt < 1 || attempt > max_auto_retries || !has_tool_error {
            AutoRetry::Stop
        } else if budget_nearly_spent {
            AutoRetry::StopForBudget
        } else {
            AutoRetry::Retry { attempt }
        }),
{
    if attempt < 1 || attempt > max_auto_retries || !has_tool_error {
        AutoRetry::Stop
    } else if budget_nearly_spent {
        AutoRetry::StopForBudget
    } else {
        AutoRetry::Retry { attempt }
    }
}



// ───────────────────────────── stream-json mode ─────────────────────────────

/// What a turn run in stream-json mode keeps while its events are written out as they
/// arrive.
pub struct StreamJsonRun {
    pub usage: TokenUsage,
    pub text: String,
    pub last_tool_error: Option<String>,
    pub last_tool_name: Option<String>,
    pub last_api_error: Option<String>,
}

/// The views of a list of strings.
pub open spec fn text_views(v: Seq<String>) -> Seq<Seq<char>> {
    v.map_values(|s: String| s@)
}

impl StreamJsonRun {
    /// A run that has seen nothing.
    pub fn new() -> (r: Self)
        ensures
            r.usage == TokenUsage::zero_spec(),
            r.text@.len() == 0,
            r.last_tool_error is None && r.last_tool_name is None && r.last_api_error is None,
    {
        StreamJsonRun {
            usage: TokenUsage::zero(),
            text: String::new(),
            last_tool_error: None,
            last_tool_name: None,
            last_api_error: None,
        }
    }

    /// A tool call ended; `texts` are the text parts of its result. A failure is
    /// remembered with its text (the parts joined by newlines, or `tool execution failed`
    /// when that is empty); a success forgets the last failure.
    pub fn tool_ended(&mut self, tool_name: &str, is_error: bool, texts: &[String])
        ensures
            is_error ==> opt_str(final(self).last_tool_error) == Some(
                if crate::text::join(text_views(texts@), seq!['\n']).len() > 0 {
                    crate::text::join(text_views(texts@), seq!['\n'])
                } else {
                    "tool execution failed"@
                },
            ) && opt_str(final(self).last_tool_name) == Some(tool_name@),
            !is_error ==> final(self).last_tool_error is None && final(self).last_tool_name is None,
            final(self).usage == old(self).usage,
            final(self).text@ == old(self).text@,
            opt_str(final(self).last_api_error) == opt_str(old(self).last_api_error),
    {
        if is_error {
            let mut parts: Vec<Vec<char>> = Vec::new();
            let mut k: usize = 0;
            while k < texts.len()
                invariant
                    k <= texts@.len(),
                    crate::text::views(parts@) == text_views(texts@).take(k as int),
                decreases texts.len() - k,
            {
                let ghost before = crate::text::views(parts@);
                parts.push(chars_of(texts[k].as_str()));
                assert(crate::text::views(parts@) =~= before.push(texts@[k as int]@));
                assert(text_views(texts@).take(k + 1) =~= text_views(texts@).take(k as int).push(
                    texts@[k as int]@,
                ));
                k = k + 1;
            }
            assert(text_views(texts@).take(texts.len() as int) =~= text_views(texts@));
            let joined = crate::text::join_vec(parts.as_slice(), "\n");
            proof {
                reveal_strlit("\n");
            }
            assert("\n"@ =~= seq!['\n']);
            if joined.len() > 0 {
                self.last_tool_error = Some(string_of(joined.as_slice()));
            } else {
                self.last_tool_error = Some("tool execution failed".to_owned());
            }
            self.last_tool_name = Some(tool_name.to_owned());
        } else {
            self.last_tool_error = None;
            self.last_tool_name = None;
        }
    }

    /// Answer text arrives.
    pub fn text_delta(&mut self, delta: &str)
        ensures
            final(self).text@ == old(self).text@ + delta@,
            final(self).usage == old(self).usage,
            opt_str(final(self).last_tool_error) == opt_str(old(self).last_tool_error),
            opt_str(final(self).last_tool_name) == opt_str(old(self).last_tool_name),
            opt_str(final(self).last_api_error) == opt_str(old(self).last_api_error),
    {
        let mut v = chars_of(self.text.as_str());
        let d = chars_of(delta);
        crate::text::extend(&mut v, d.as_slice());
        self.text = string_of(v.as_slice());
    }

    /// An assistant message reports its tokens.
    pub fn add_usage(&mut self, usage: &TokenUsage)
        requires
            usage_fits(old(self).usage, *usage),
        ensures
            final(self).usage == usage_sum(old(self).usage, *usage),
            final(self).text@ == old(self).text@,
            opt_str(final(self).last_tool_error) == opt_str(old(self).last_tool_error),
            opt_str(final(self).last_tool_name) == opt_str(old(self).last_tool_name),
            opt_str(final(self).last_api_error) == opt_str(old(self).last_api_error),
    {
        accumulate_usage(&mut self.usage, usage);
    }

    /// The provider rejected the input: the reason, followed by the diagnostic when
    /// there is one, is the run's error.
    pub fn input_rejected(&mut self, reason: &str, diagnostic: Option<&str>)
        ensures
            opt_str(final(self).last_api_error) == Some(
                match diagnostic {
                    Some(d) => reason@ + ": "@ + d@,
                    None => reason@,
                },
            ),
            final(self).usage == old(self).usage,
            final(self).text@ == old(self).text@,
            opt_str(final(self).last_tool_error) == opt_str(old(self).last_tool_error),
            opt_str(final(self).last_tool_name) == opt_str(old(self).last_tool_name),
    {
        match diagnostic {
            Some(d) => {
                let mut v = chars_of(reason);
                crate::text::extend_str(&mut v, ": ");
                crate::text::extend_str(&mut v, d);
                self.last_api_error = Some(string_of(v.as_slice()));
            },
            None => {
                self.last_api_error = Some(reason.to_owned());
            },
        }
    }

    /// Whether the agent still has to be finalized when the events ran out: no input or
    /// output tokens were reported, so no end-of-run event was seen.
    pub fn needs_finish(&self) -> (r: bool)
        ensures
            r == (self.usage.input == 0 && self.usage.output == 0),
    {
        self.usage.input == 0 && self.usage.output == 0
    }

    /// The outcome and the tokens used.
    pub fn finish(self) -> (r: (PromptOutcome, TokenUsage))
        ensures
            r.0.text@ == self.text@,
            opt_str(r.0.last_tool_error) == opt_str(self.last_tool_error),
            opt_str(r.0.last_tool_name) == opt_str(self.last_tool_name),
            !r.0.was_overflow,
            opt_str(r.0.last_api_error) == opt_str(self.last_api_error),
            r.1 == self.usage,
    {
        (
            PromptOutcome {
                text: self.text,
                last_tool_error: self.last_tool_error,
                last_tool_name: self.last_tool_name,
                was_overflow: false,
                last_api_error: self.last_api_error,
            },
            self.usage,
        )
    }
}

} // verus!
