//! Rate-limit aware retry: read a provider's own reset time and decide whether waiting
//! it out is possible at all. Nothing here does I/O.
use vstd::prelude::*;
use crate::text::{
    chars_of, contains, contains_str, eq_str, extend, extend_str, find, find_str, is_alpha,
    is_digit, is_whitespace, is_ws, lemma_run_end, lowercase, matches_at, parse_digits_u64, run_end,
    slice_vec, starts_with, starts_with_str, to_lowercase, trim_start, trim_start_vec,
    digits_value, all_digits, match_at,
};
use crate::time::{duration_text, format_duration, Dur, NANOS_PER_MILLI, NANOS_PER_SEC};

verus! {

/// Sanity clamp on a parsed retry-after value: 24 hours, in nanoseconds.
pub const MAX_RETRY_AFTER_NANOS: u128 = 86_400_000_000_000;

/// The longest a single retry sleeps inline when no session budget is known: 120 s.
pub const MAX_INLINE_RETRY_AFTER_NANOS: u128 = 120_000_000_000;

/// The longest a single retry sleeps under `--wait-for-reset`: 6 hours.
pub const MAX_RESET_WAIT_NANOS: u128 = 21_600_000_000_000;

/// The floor on an honoured reset, so `retry after 1ms` cannot spin. A value this library
/// chose: half a second.
pub const MIN_RETRY_DELAY_MS: u64 = 500;

/// The cap on the exponential backoff used when no reset time was named. A value this
/// library chose: one minute.
pub const MAX_BACKOFF_MS: u64 = 60_000;

/// `MAX_RETRY_AFTER` as a span.
pub fn max_retry_after() -> (d: Dur)
    ensures
        d.nanos == MAX_RETRY_AFTER_NANOS,
{
    Dur { nanos: MAX_RETRY_AFTER_NANOS }
}

/// `MAX_INLINE_RETRY_AFTER` as a span.
pub fn max_inline_retry_after() -> (d: Dur)
    ensures
        d.nanos == MAX_INLINE_RETRY_AFTER_NANOS,
{
    Dur { nanos: MAX_INLINE_RETRY_AFTER_NANOS }
}

/// `MAX_RESET_WAIT` as a span.
pub fn max_reset_wait() -> (d: Dur)
    ensures
        d.nanos == MAX_RESET_WAIT_NANOS,
{
    Dur { nanos: MAX_RESET_WAIT_NANOS }
}

// ───────────────────────────── parsing the hint ─────────────────────────────

pub open spec fn is_lead(c: char) -> bool {
    is_ws(c) || c == ':' || c == '='
}

pub open spec fn is_close_paren(c: char) -> bool {
    c == ')'
}

/// Whether a unit word means seconds.
pub open spec fn is_seconds_unit(u: Seq<char>) -> bool {
    u == ""@ || u == "s"@ || u == "sec"@ || u == "secs"@ || u == "second"@ || u == "seconds"@
}

/// Reads `value unit` out of the text following a retry-after marker, in nanoseconds.
pub open spec fn retry_after_value(rest: Seq<char>) -> Option<nat> {
    let s1 = rest.skip(run_end(rest, 0, |c: char| is_lead(c)));
    let s2 = if starts_with(s1, "some("@) {
        trim_start(s1.skip("some("@.len() as int))
    } else {
        s1
    };
    let nd = run_end(s2, 0, |c: char| is_digit(c));
    let digits = s2.take(nd);
    let after = s2.skip(nd);
    let after2 = trim_start(after.skip(run_end(after, 0, |c: char| is_close_paren(c))));
    let unit = after2.take(run_end(after2, 0, |c: char| is_alpha(c)));
    if nd == 0 || digits_value(digits) > u64::MAX {
        None
    } else if unit == "ms"@ {
        Some(digits_value(digits) * (NANOS_PER_MILLI as nat))
    } else if is_seconds_unit(unit) {
        Some(digits_value(digits) * (NANOS_PER_SEC as nat))
    } else {
        None
    }
}

/// The hint read after one marker, when the marker occurs and its value parses.
pub open spec fn hint_after_marker(lower: Seq<char>, marker: Seq<char>) -> Option<nat> {
    match find(lower, marker) {
        Some(k) => retry_after_value(lower.skip(k + marker.len())),
        None => None,
    }
}

pub open spec fn clamp_hint(v: nat) -> nat {
    if v <= MAX_RETRY_AFTER_NANOS {
        v
    } else {
        MAX_RETRY_AFTER_NANOS as nat
    }
}

/// The reset time named by an already-lowercased error message: the first of the three
/// markers (`retry after`, `retry_after`, `retry-after`) whose value parses, clamped to 24h.
pub open spec fn retry_after_hint_spec(lower: Seq<char>) -> Option<nat> {
    match hint_after_marker(lower, "retry after"@) {
        Some(v) => Some(clamp_hint(v)),
        None => match hint_after_marker(lower, "retry_after"@) {
            Some(v) => Some(clamp_hint(v)),
            None => match hint_after_marker(lower, "retry-after"@) {
                Some(v) => Some(clamp_hint(v)),
                None => None,
            },
        },
    }
}

/// Index of the first character at or after `start` that is not a marker lead.
fn skip_leads(s: &[char], start: usize) -> (i: usize)
    requires
        start <= s@.len(),
    ensures
        i == run_end(s@, start as int, |c: char| is_lead(c)),
{
    let mut i = start;
    while i < s.len() && (is_whitespace(s[i]) || s[i] == ':' || s[i] == '=')
        invariant
            start <= i <= s@.len(),
            run_end(s@, start as int, |c: char| is_lead(c)) == run_end(
                s@,
                i as int,
                |c: char| is_lead(c),
            ),
        decreases s.len() - i,
    {
        i = i + 1;
    }
    i
}

fn skip_digits(s: &[char]) -> (i: usize)
    ensures
        i == run_end(s@, 0, |c: char| is_digit(c)),
{
    let mut i: usize = 0;
    while i < s.len() && s[i] >= '0' && s[i] <= '9'
        invariant
            i <= s@.len(),
            run_end(s@, 0, |c: char| is_digit(c)) == run_end(s@, i as int, |c: char| is_digit(c)),
        decreases s.len() - i,
    {
        i = i + 1;
    }
    i
}

fn skip_close_parens(s: &[char]) -> (i: usize)
    ensures
        i == run_end(s@, 0, |c: char| is_close_paren(c)),
{
    let mut i: usize = 0;
    while i < s.len() && s[i] == ')'
        invariant
            i <= s@.len(),
            run_end(s@, 0, |c: char| is_close_paren(c)) == run_end(
                s@,
                i as int,
                |c: char| is_close_paren(c),
            ),
        decreases s.len() - i,
    {
        i = i + 1;
    }
    i
}

fn skip_alpha(s: &[char]) -> (i: usize)
    ensures
        i == run_end(s@, 0, |c: char| is_alpha(c)),
{
    let mut i: usize = 0;
    while i < s.len() && ((s[i] >= 'a' && s[i] <= 'z') || (s[i] >= 'A' && s[i] <= 'Z'))
        invariant
            i <= s@.len(),
            run_end(s@, 0, |c: char| is_alpha(c)) == run_end(s@, i as int, |c: char| is_alpha(c)),
        decreases s.len() - i,
    {
        i = i + 1;
    }
    i
}

/// The value after a marker, in nanoseconds.
fn parse_retry_after_value(rest: &[char]) -> (r: Option<u128>)
    ensures
        r matches Some(v) ==> retry_after_value(rest@) == Some(v as nat),
        r is None ==> retry_after_value(rest@) is None,
{
    let i = skip_leads(rest, 0);
    proof {
        lemma_run_end(rest@, 0, |c: char| is_lead(c));
    }
    let s1 = slice_vec(rest, i, rest.len());
    let s2 = if starts_with_str(s1.as_slice(), "some(") {
        let five = chars_of("some(").len();
        let inner = slice_vec(s1.as_slice(), five, s1.len());
        trim_start_vec(inner.as_slice())
    } else {
        s1
    };
    let nd = skip_digits(s2.as_slice());
    proof {
        lemma_run_end(s2@, 0, |c: char| is_digit(c));
    }
    let digits = slice_vec(s2.as_slice(), 0, nd);
    let after = slice_vec(s2.as_slice(), nd, s2.len());
    let np = skip_close_parens(after.as_slice());
    proof {
        lemma_run_end(after@, 0, |c: char| is_close_paren(c));
    }
    let after_p = slice_vec(after.as_slice(), np, after.len());
    let after2 = trim_start_vec(after_p.as_slice());
    let nu = skip_alpha(after2.as_slice());
    proof {
        lemma_run_end(after2@, 0, |c: char| is_alpha(c));
    }
    let unit = slice_vec(after2.as_slice(), 0, nu);
    assert(digits@ == s2@.take(nd as int));
    assert(all_digits(digits@));
    if nd == 0 {
        return None;
    }
    let value = match parse_digits_u64(digits.as_slice()) {
        Some(v) => v,
        None => {
            return None;
        },
    };
    if eq_str(unit.as_slice(), "ms") {
        Some(value as u128 * NANOS_PER_MILLI)
    } else if eq_str(unit.as_slice(), "") || eq_str(unit.as_slice(), "s") || eq_str(
        unit.as_slice(),
        "sec",
    ) || eq_str(unit.as_slice(), "secs") || eq_str(unit.as_slice(), "second") || eq_str(
        unit.as_slice(),
        "seconds",
    ) {
        Some(value as u128 * NANOS_PER_SEC)
    } else {
        None
    }
}

fn hint_after(lower: &[char], marker: &str) -> (r: Option<u128>)
    ensures
        r matches Some(v) ==> hint_after_marker(lower@, marker@) == Some(v as nat),
        r is None ==> hint_after_marker(lower@, marker@) is None,
{
    match find_str(lower, marker) {
        Some(k) => {
            proof {
                crate::text::lemma_find_from(lower@, marker@, 0);
            }
            let m = chars_of(marker);
            let n = lower.len();
            assert(k + m@.len() <= n);
            let rest = slice_vec(lower, k + m.len(), lower.len());
            parse_retry_after_value(rest.as_slice())
        },
        None => None,
    }
}

fn clamp(v: u128) -> (r: u128)
    ensures
        r == clamp_hint(v as nat),
{
    if v <= MAX_RETRY_AFTER_NANOS {
        v
    } else {
        MAX_RETRY_AFTER_NANOS
    }
}

/// The reset time named by an error message that has already been lowercased.
pub fn retry_after_hint_in_lowercase(lower: &str) -> (r: Option<Dur>)
    ensures
        r matches Some(d) ==> retry_after_hint_spec(lower@) == Some(d.nanos as nat),
        r is None ==> retry_after_hint_spec(lower@) is None,
{
    let l = chars_of(lower);
    match hint_after(l.as_slice(), "retry after") {
        Some(v) => Some(Dur { nanos: clamp(v) }),
        None => match hint_after(l.as_slice(), "retry_after") {
            Some(v) => Some(Dur { nanos: clamp(v) }),
            None => match hint_after(l.as_slice(), "retry-after") {
                Some(v) => Some(Dur { nanos: clamp(v) }),
                None => None,
            },
        },
    }
}

/// Parse an explicit reset time out of a provider error message (case-insensitively):
/// the value after `retry after` / `retry_after` / `retry-after`, in milliseconds with an
/// explicit `ms` suffix and in seconds when bare or spelled as seconds; anything else is
/// `None`. A value above 24h is clamped to 24h.
pub fn retry_after_hint(error_msg: &str) -> (r: Option<Dur>)
    ensures
        r matches Some(d) ==> retry_after_hint_spec(lowercase(error_msg@)) == Some(d.nanos as nat),
        r is None ==> retry_after_hint_spec(lowercase(error_msg@)) is None,
{
    let lower = to_lowercase(error_msg);
    retry_after_hint_in_lowercase(lower.as_str())
}


// ───────────────────────────── deciding ─────────────────────────────

/// What the retry loop should do about one retriable error.
#[derive(Debug, Clone, Copy, PartialEq, Eq, Structural)]
pub enum RetryWait {
    /// Sleep this long and retry.
    Wait(Dur),
    /// The provider named a reset this session cannot outlast. Stop, and say when.
    GiveUp { retry_after: Dur },
}

/// Exponential backoff in milliseconds when no reset was named: 1s, doubling per attempt,
/// capped at `MAX_BACKOFF_MS`. No random jitter is part of it.
pub open spec fn backoff_ms(attempt: nat) -> nat
    decreases attempt,
{
    if attempt <= 1 {
        1000
    } else {
        let prev = backoff_ms((attempt - 1) as nat);
        if 2 * prev <= MAX_BACKOFF_MS {
            2 * prev
        } else {
            MAX_BACKOFF_MS as nat
        }
    }
}

proof fn lemma_backoff_bounded(attempt: nat)
    ensures
        1000 <= backoff_ms(attempt) <= MAX_BACKOFF_MS,
    decreases attempt,
{
    if attempt > 1 {
        lemma_backoff_bounded((attempt - 1) as nat);
    }
}

/// The delay before retry number `attempt` when the provider named no reset time: the
/// backoff itself. No random jitter is drawn here, so the same attempt always waits the
/// same (at most `MAX_BACKOFF_MS`); a caller that wants retries spread out adds its own
/// jitter to the sleep.
pub fn retry_delay(attempt: u32) -> (d: Dur)
    ensures
        d.nanos == backoff_ms(attempt as nat) * (NANOS_PER_MILLI as nat),
{
    let mut ms: u64 = 1000;
    let mut a: u32 = 1;
    while a < attempt
        invariant
            1 <= a,
            a <= attempt || attempt <= 1,
            attempt <= 1 ==> a == 1,
            ms == backoff_ms(a as nat),
            1000 <= ms <= MAX_BACKOFF_MS,
        decreases attempt - a,
    {
        a = a + 1;
        if 2 * ms <= MAX_BACKOFF_MS {
            ms = 2 * ms;
        } else {
            ms = MAX_BACKOFF_MS;
        }
    }
    proof {
        if attempt <= 1 {
            assert(backoff_ms(attempt as nat) == 1000);
        }
    }
    assert(ms == backoff_ms(attempt as nat));
    let d = Dur::from_millis(ms);
    assert(d.nanos == ms as nat * NANOS_PER_MILLI as nat);
    d
}

pub open spec fn min_nat(a: nat, b: nat) -> nat {
    if a <= b {
        a
    } else {
        b
    }
}

/// The ceiling on an inline wait: never above 120s, never above the remaining budget.
pub fn inline_retry_ceiling(budget_remaining: Dur) -> (d: Dur)
    ensures
        d.nanos == min_nat(budget_remaining.nanos as nat, MAX_INLINE_RETRY_AFTER_NANOS as nat),
{
    budget_remaining.min(max_inline_retry_after())
}

/// The ceiling under `--wait-for-reset`: never above 6h, never above the remaining budget.
pub fn reset_wait_ceiling(budget_remaining: Dur) -> (d: Dur)
    ensures
        d.nanos == min_nat(budget_remaining.nanos as nat, MAX_RESET_WAIT_NANOS as nat),
{
    budget_remaining.min(max_reset_wait())
}

/// How long this session can afford to wait for one reset.
pub open spec fn affordable(budget: Option<nat>, wait_for_reset: bool) -> nat {
    match (budget, wait_for_reset) {
        (Some(b), false) => min_nat(b, MAX_INLINE_RETRY_AFTER_NANOS as nat),
        (Some(b), true) => min_nat(b, MAX_RESET_WAIT_NANOS as nat),
        (None, false) => MAX_INLINE_RETRY_AFTER_NANOS as nat,
        (None, true) => MAX_RESET_WAIT_NANOS as nat,
    }
}

pub open spec fn opt_nanos(d: Option<Dur>) -> Option<nat> {
    match d {
        Some(x) => Some(x.nanos as nat),
        None => None,
    }
}

/// The decision, as a function of the parsed hint.
pub open spec fn decision(
    attempt: nat,
    hint: Option<nat>,
    budget: Option<nat>,
    wait_for_reset: bool,
) -> (bool, nat) {
    match hint {
        None => (false, backoff_ms(attempt) * (NANOS_PER_MILLI as nat)),
        Some(h) => {
            if h > affordable(budget, wait_for_reset) {
                (true, h)
            } else if h >= MIN_RETRY_DELAY_MS * NANOS_PER_MILLI {
                (false, h)
            } else {
                (false, (MIN_RETRY_DELAY_MS as nat) * (NANOS_PER_MILLI as nat))
            }
        },
    }
}

/// Whether a `RetryWait` is the given decision (`(true, d)` is giving up on a reset `d`).
pub open spec fn is_decision(w: RetryWait, d: (bool, nat)) -> bool {
    match w {
        RetryWait::Wait(x) => !d.0 && x.nanos == d.1,
        RetryWait::GiveUp { retry_after } => d.0 && retry_after.nanos == d.1,
    }
}

/// The decision once the provider's reset hint has been read: no hint backs off as usual;
/// a hint above what the session can afford gives up; otherwise the hint is honoured,
/// floored at `MIN_RETRY_DELAY_MS`.
pub fn retry_wait_decision_for_hint(
    attempt: u32,
    hint: Option<Dur>,
    budget_remaining: Option<Dur>,
    wait_for_reset: bool,
) -> (w: RetryWait)
    ensures
        is_decision(
            w,
            decision(attempt as nat, opt_nanos(hint), opt_nanos(budget_remaining), wait_for_reset),
        ),
{
    let hint = match hint {
        None => {
            return RetryWait::Wait(retry_delay(attempt));
        },
        Some(h) => h,
    };
    let afford = match (budget_remaining, wait_for_reset) {
        (Some(remaining), false) => inline_retry_ceiling(remaining),
        (Some(remaining), true) => reset_wait_ceiling(remaining),
        (None, false) => max_inline_retry_after(),
        (None, true) => max_reset_wait(),
    };
    if hint.nanos > afford.nanos {
        return RetryWait::GiveUp { retry_after: hint };
    }
    RetryWait::Wait(hint.max(Dur::from_millis(MIN_RETRY_DELAY_MS)))
}

/// Decide how long to wait before the next retry, or whether to stop, with the
/// `--wait-for-reset` opt-in passed in.
pub fn retry_wait_decision_with(
    attempt: u32,
    error_msg: &str,
    budget_remaining: Option<Dur>,
    wait_for_reset: bool,
) -> (w: RetryWait)
    ensures
        is_decision(
            w,
            decision(
                attempt as nat,
                retry_after_hint_spec(lowercase(error_msg@)),
                opt_nanos(budget_remaining),
                wait_for_reset,
            ),
        ),
{
    let hint = retry_after_hint(error_msg);
    retry_wait_decision_for_hint(attempt, hint, budget_remaining, wait_for_reset)
}

// ───────────────────────────── telling the user ─────────────────────────────

/// The notice printed before a wait longer than the inline ceiling.
pub open spec fn wait_notice_text(nanos: nat, plain: bool) -> Seq<char> {
    (if plain {
        ""@
    } else {
        "⏳ "@
    }) + "waiting ~"@ + duration_text(nanos)
        + " for the provider's rate limit to reset. This wait is deliberate "@ + (if plain {
        "-"@
    } else {
        "—"@
    }) + " you asked for it with --wait-for-reset; drop that flag to stop and report instead."@
}

/// `None` at or below the inline ceiling; above it, a line naming the wait, saying it is
/// deliberate, and naming the flag that turns it off.
pub fn rate_limit_wait_notice(delay: Dur, plain: bool) -> (r: Option<String>)
    ensures
        delay.nanos <= MAX_INLINE_RETRY_AFTER_NANOS ==> r is None,
        delay.nanos > MAX_INLINE_RETRY_AFTER_NANOS ==> (r matches Some(t) && t@ == wait_notice_text(
            delay.nanos as nat,
            plain,
        )),
{
    if delay.nanos <= MAX_INLINE_RETRY_AFTER_NANOS {
        return None;
    }
    let mut out: Vec<char> = Vec::new();
    if plain {
        extend_str(&mut out, "");
    } else {
        extend_str(&mut out, "⏳ ");
    }
    extend_str(&mut out, "waiting ~");
    let d = format_duration(delay);
    extend(&mut out, d.as_slice());
    extend_str(&mut out, " for the provider's rate limit to reset. This wait is deliberate ");
    if plain {
        extend_str(&mut out, "-");
    } else {
        extend_str(&mut out, "—");
    }
    extend_str(
        &mut out,
        " you asked for it with --wait-for-reset; drop that flag to stop and report instead.",
    );
    Some(crate::text::string_of(out.as_slice()))
}

/// The line printed when a retry-after is too long to wait out.
pub open spec fn giveup_text(nanos: nat) -> Seq<char> {
    "stopped retrying on purpose: the provider says its rate limit resets in ~"@ + duration_text(
        nanos,
    )
        + ". Retrying now cannot succeed — this is not a transient error. Try again after the limit resets."@
}

/// Says the stop was deliberate, names the reset in human units, and says a retry will
/// not fix it.
pub fn rate_limit_giveup_message(retry_after: Dur) -> (r: String)
    ensures
        r@ == giveup_text(retry_after.nanos as nat),
{
    let mut out: Vec<char> = Vec::new();
    extend_str(
        &mut out,
        "stopped retrying on purpose: the provider says its rate limit resets in ~",
    );
    let d = format_duration(retry_after);
    extend(&mut out, d.as_slice());
    extend_str(
        &mut out,
        ". Retrying now cannot succeed — this is not a transient error. Try again after the limit resets.",
    );
    crate::text::string_of(out.as_slice())
}


// ───────────────────────────── malformed tool calls ─────────────────────────────

/// How many extra attempts a malformed tool-call turn is worth.
pub const MAX_MALFORMED_RETRIES: u32 = 1;

/// `code` occurs in `s` as a whole number: not preceded or followed by another digit.
pub open spec fn status_code_at(s: Seq<char>, i: int, code: Seq<char>) -> bool {
    &&& matches_at(s, i, code)
    &&& (i == 0 || !is_digit(s[i - 1]))
    &&& (i + code.len() == s.len() || !is_digit(s[i + code.len()]))
}

pub open spec fn has_status_code(s: Seq<char>, code: Seq<char>) -> bool {
    exists|i: int| status_code_at(s, i, code)
}

/// Whether `code` appears in `lower` as a whole number, never as part of a longer digit run.
pub fn contains_status_code(lower: &[char], code: &str) -> (r: bool)
    ensures
        r == has_status_code(lower@, code@),
{
    let c = chars_of(code);
    let n = lower.len();
    if c.len() > n {
        assert forall|i: int| !status_code_at(lower@, i, code@) by {}
        return false;
    }
    let mut i: usize = 0;
    loop
        invariant
            n == lower@.len(),
            c@ == code@,
            c@.len() <= n,
            i <= n - c@.len(),
            forall|j: int| 0 <= j < i ==> !status_code_at(lower@, j, code@),
        decreases n - c.len() - i,
    {
        if match_at(lower, i, c.as_slice()) {
            let before_ok = i == 0 || !(lower[i - 1] >= '0' && lower[i - 1] <= '9');
            let after_ok = i + c.len() == n || !(lower[i + c.len()] >= '0' && lower[i + c.len()]
                <= '9');
            if before_ok && after_ok {
                assert(status_code_at(lower@, i as int, code@));
                return true;
            }
        }
        if i == n - c.len() {
            assert forall|j: int| !status_code_at(lower@, j, code@) by {
                if 0 <= j && j + code@.len() <= lower@.len() {
                    assert(j <= i);
                }
            }
            return false;
        }
        i = i + 1;
    }
}

/// Message shapes of an authentication failure.
pub open spec fn auth_shape(lower: Seq<char>) -> bool {
    contains(lower, "unauthorized"@) || contains(lower, "forbidden"@) || contains(
        lower,
        "invalid api key"@,
    ) || contains(lower, "authentication"@) || contains(lower, "permission denied"@)
}

/// Message shapes of a rate limit or an overloaded provider.
pub open spec fn rate_limit_shape(lower: Seq<char>) -> bool {
    contains(lower, "rate limit"@) || contains(lower, "too many requests"@) || contains(
        lower,
        "overloaded"@,
    ) || contains(lower, "quota"@) || contains(lower, "capacity"@)
}

/// Authentication and rate limits belong to other policies and always win.
pub open spec fn other_policy(lower: Seq<char>) -> bool {
    auth_shape(lower) || has_status_code(lower, "401"@) || has_status_code(lower, "403"@)
        || rate_limit_shape(lower) || has_status_code(lower, "429"@)
}

/// Whether a fatal turn is resampled, given the lowercased message.
pub open spec fn malformed_retry_spec(lower: Seq<char>, attempt: nat) -> bool {
    !other_policy(lower) && attempt < MAX_MALFORMED_RETRIES && crate::prompt::dropped_tool_args_lower(
        lower,
    )
}

/// `malformed_tool_call_retry` once the message has been lowercased.
pub fn malformed_tool_call_retry_in_lowercase(lower: &str, attempt: u32) -> (r: bool)
    ensures
        r == malformed_retry_spec(lower@, attempt as nat),
{
    let l = chars_of(lower);
    let s = l.as_slice();
    if contains_str(s, "unauthorized") || contains_str(s, "forbidden") || contains_str(
        s,
        "invalid api key",
    ) || contains_str(s, "authentication") || contains_str(s, "permission denied")
        || contains_status_code(s, "401") || contains_status_code(s, "403") || contains_str(
        s,
        "rate limit",
    ) || contains_str(s, "too many requests") || contains_str(s, "overloaded") || contains_str(
        s,
        "quota",
    ) || contains_str(s, "capacity") || contains_status_code(s, "429") {
        return false;
    }
    attempt < MAX_MALFORMED_RETRIES && crate::prompt::is_dropped_tool_args_error_in_lowercase(
        lower,
    )
}

/// Should a fatal turn be resampled because its tool call arrived malformed? Never for an
/// authentication or rate-limit shape (checked first), at most `MAX_MALFORMED_RETRIES`
/// times, and only for the dropped-arguments class.
pub fn malformed_tool_call_retry(err_msg: &str, attempt: u32) -> (r: bool)
    ensures
        r == malformed_retry_spec(lowercase(err_msg@), attempt as nat),
{
    let lower = to_lowercase(err_msg);
    malformed_tool_call_retry_in_lowercase(lower.as_str(), attempt)
}

/// The line printed before a malformed-tool-call resample.
pub open spec fn malformed_notice_text(plain: bool) -> Seq<char> {
    (if plain {
        ""@
    } else {
        "⚡ "@
    }) + "the model's tool call arrived malformed "@ + (if plain {
        "-"@
    } else {
        "—"@
    }) + " resampling once (this is not a provider failure)"@
}

/// Names the cause and the bound; glyph-free under `plain`.
pub fn malformed_retry_notice(plain: bool) -> (r: String)
    ensures
        r@ == malformed_notice_text(plain),
{
    let mut out: Vec<char> = Vec::new();
    if plain {
        extend_str(&mut out, "");
    } else {
        extend_str(&mut out, "⚡ ");
    }
    extend_str(&mut out, "the model's tool call arrived malformed ");
    if plain {
        extend_str(&mut out, "-");
    } else {
        extend_str(&mut out, "—");
    }
    extend_str(&mut out, " resampling once (this is not a provider failure)");
    crate::text::string_of(out.as_slice())
}


// ───────────────────────────── laws ─────────────────────────────

/// A session budget can only shrink the ceiling on a wait, never raise it, with or
/// without `--wait-for-reset`.
pub proof fn law_budget_only_shrinks_ceiling(budget: nat, wait_for_reset: bool)
    ensures
        affordable(Some(budget), wait_for_reset) <= affordable(None, wait_for_reset),
        affordable(Some(budget), wait_for_reset) <= budget,
{
}

/// Opting into `--wait-for-reset` only raises the ceiling.
pub proof fn law_opt_in_only_raises_ceiling(budget: Option<nat>)
    ensures
        affordable(budget, false) <= affordable(budget, true),
{
}

/// Opting in changes nothing for a session that would have waited anyway: the no-hint
/// backoff, an honoured hint and its floor are the same with and without the flag. Only
/// a give-up can turn into a (longer) wait.
pub proof fn law_opt_in_keeps_every_wait(attempt: nat, hint: Option<nat>, budget: Option<nat>)
    ensures
        !decision(attempt, hint, budget, false).0 ==> decision(attempt, hint, budget, true)
            == decision(attempt, hint, budget, false),
        decision(attempt, None, budget, true) == decision(attempt, None, budget, false),
{
    law_opt_in_only_raises_ceiling(budget);
}

/// More session budget never turns a wait into a give-up.
pub proof fn law_more_budget_never_gives_up_sooner(
    attempt: nat,
    hint: Option<nat>,
    less: nat,
    more: nat,
    wait_for_reset: bool,
)
    requires
        less <= more,
    ensures
        !decision(attempt, hint, Some(less), wait_for_reset).0 ==> decision(
            attempt,
            hint,
            Some(more),
            wait_for_reset,
        ) == decision(attempt, hint, Some(less), wait_for_reset),
{
}

/// Every wait lies between the floor and the ceiling: a named reset is waited at least
/// `MIN_RETRY_DELAY_MS` and at most what the session can afford (or the floor); without
/// one, the backoff stays between one second and `MAX_BACKOFF_MS`. A give-up names the
/// provider's own reset, which is beyond what the session can afford.
pub proof fn law_wait_bounds(attempt: nat, hint: Option<nat>, budget: Option<nat>, wait_for_reset: bool)
    ensures
        ({
            let d = decision(attempt, hint, budget, wait_for_reset);
            match hint {
                None => !d.0 && 1000 * NANOS_PER_MILLI <= d.1 <= MAX_BACKOFF_MS * NANOS_PER_MILLI,
                Some(h) => if d.0 {
                    d.1 == h && h > affordable(budget, wait_for_reset)
                } else {
                    MIN_RETRY_DELAY_MS * NANOS_PER_MILLI <= d.1 && (d.1 == h || d.1
                        == MIN_RETRY_DELAY_MS * NANOS_PER_MILLI) && d.1 <= if affordable(
                        budget,
                        wait_for_reset,
                    ) >= MIN_RETRY_DELAY_MS * NANOS_PER_MILLI {
                        affordable(budget, wait_for_reset)
                    } else {
                        (MIN_RETRY_DELAY_MS * NANOS_PER_MILLI) as nat
                    }
                },
            }
        }),
{
    lemma_backoff_bounded(attempt);
    assert(backoff_ms(attempt) * NANOS_PER_MILLI >= 1000 * NANOS_PER_MILLI) by (nonlinear_arith)
        requires
            backoff_ms(attempt) >= 1000,
    ;
    assert(backoff_ms(attempt) * NANOS_PER_MILLI <= MAX_BACKOFF_MS * NANOS_PER_MILLI) by (nonlinear_arith)
        requires
            backoff_ms(attempt) <= MAX_BACKOFF_MS,
    ;
}

/// A named reset is never read as more than 24 hours.
pub proof fn law_hint_clamped(lower: Seq<char>)
    ensures
        retry_after_hint_spec(lower) matches Some(h) ==> h <= MAX_RETRY_AFTER_NANOS,
{
}

} // verus!
