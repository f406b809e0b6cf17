//! The session's soft wall-clock budget, the audit-log switch, and the civil-calendar
//! arithmetic behind audit timestamps. Reading the environment and the clock, and
//! writing the log, are the caller's; what is computed from them is here.
use vstd::prelude::*;
use crate::text::{
    byte_len, byte_len_wide, chars_of, decimal, decimal_vec, extend, extend_str, parse_unsigned,
    parse_unsigned_exec, safe_truncate, safe_truncate_vec, string_of, fit_from, lemma_fit_from,
};
use crate::time::Dur;

verus! {

// ───────────────────────────── the civil calendar ─────────────────────────────

/// A leap year of the Gregorian calendar.
pub open spec fn is_leap(y: int) -> bool {
    y % 4 == 0 && (y % 100 != 0 || y % 400 == 0)
}

/// Days in month `m` (1 to 12) of year `y`.
pub open spec fn month_len(y: int, m: int) -> int {
    if m == 2 {
        if is_leap(y) {
            29
        } else {
            28
        }
    } else if m == 4 || m == 6 || m == 9 || m == 11 {
        30
    } else {
        31
    }
}

/// Days of year `y` before the first of month `m` (1 to 12).
pub open spec fn days_before_month(y: int, m: int) -> int {
    let base: int = if m == 1 {
        0
    } else if m == 2 {
        31
    } else if m == 3 {
        59
    } else if m == 4 {
        90
    } else if m == 5 {
        120
    } else if m == 6 {
        151
    } else if m == 7 {
        181
    } else if m == 8 {
        212
    } else if m == 9 {
        243
    } else if m == 10 {
        273
    } else if m == 11 {
        304
    } else {
        334
    };
    base + if m > 2 && is_leap(y) {
        1int
    } else {
        0int
    }
}

/// How many of the years 1 to `n` are leap years.
pub open spec fn leap_years_through(n: int) -> int {
    n / 4 - n / 100 + n / 400
}

/// Days from 1970-01-01 to the first of January of year `y`.
pub open spec fn days_before_year(y: int) -> int {
    365 * (y - 1970) + leap_years_through(y - 1) - leap_years_through(1969)
}

/// Days from 1970-01-01 to the date `y`-`m`-`d`.
pub open spec fn civil_days(y: int, m: int, d: int) -> int {
    days_before_year(y) + days_before_month(y, m) + d - 1
}

/// A real date: a month from 1 to 12 and a day within that month.
pub open spec fn is_date(y: int, m: int, d: int) -> bool {
    1 <= m <= 12 && 1 <= d <= month_len(y, m)
}

/// Days from 0000-03-01 to the first of March of year `y` (for `y >= 0`).
spec fn march_days(y: int) -> int {
    365 * y + leap_years_through(y)
}

proof fn lemma_cycle(doe: u32, yoe: u32)
    requires
        doe < 146097,
        yoe == (doe - doe / 1460 + doe / 36524 - doe / 146096) / 365,
    ensures
        yoe <= 399,
        365 * yoe + yoe / 4 - yoe / 100 <= doe,
        doe <= 365 * yoe + yoe / 4 - yoe / 100 + 365,
        doe == 365 * yoe + yoe / 4 - yoe / 100 + 365 ==> yoe % 4 == 3,
        doe == 365 * yoe + yoe / 4 - yoe / 100 + 365 ==> (yoe != 99 && yoe != 199 && yoe != 299),
{
    assert(yoe <= 399) by (bit_vector)
        requires
            doe < 146097,
            yoe == (doe - doe / 1460 + doe / 36524 - doe / 146096) / 365,
    ;
    assert(365 * yoe + yoe / 4 - yoe / 100 <= doe) by (bit_vector)
        requires
            doe < 146097,
            yoe == (doe - doe / 1460 + doe / 36524 - doe / 146096) / 365,
    ;
    assert(doe <= 365 * yoe + yoe / 4 - yoe / 100 + 365) by (bit_vector)
        requires
            doe < 146097,
            yoe == (doe - doe / 1460 + doe / 36524 - doe / 146096) / 365,
    ;
    assert(doe == 365 * yoe + yoe / 4 - yoe / 100 + 365 ==> yoe % 4 == 3) by (bit_vector)
        requires
            doe < 146097,
            yoe == (doe - doe / 1460 + doe / 36524 - doe / 146096) / 365,
    ;
    assert(doe == 365 * yoe + yoe / 4 - yoe / 100 + 365 ==> (yoe != 99 && yoe != 199 && yoe
        != 299)) by (bit_vector)
        requires
            doe < 146097,
            yoe == (doe - doe / 1460 + doe / 36524 - doe / 146096) / 365,
    ;
}

proof fn lemma_month(doy: int)
    requires
        0 <= doy <= 365,
    ensures
        0 <= (5 * doy + 2) / 153 <= 11,
        (153 * ((5 * doy + 2) / 153) + 2) / 5 <= doy,
        (5 * doy + 2) / 153 == 11 ==> doy - (153 * ((5 * doy + 2) / 153) + 2) / 5 < 29,
        ((5 * doy + 2) / 153 == 1 || (5 * doy + 2) / 153 == 3 || (5 * doy + 2) / 153 == 6 || (5
            * doy + 2) / 153 == 8) ==> doy - (153 * ((5 * doy + 2) / 153) + 2) / 5 < 30,
        doy - (153 * ((5 * doy + 2) / 153) + 2) / 5 < 31,
{
    let mp = (5 * doy + 2) / 153;
    assert(0 <= mp <= 11);
    assert(153 * mp <= 5 * doy + 2 < 153 * mp + 153);
    if mp == 0 {
    } else if mp == 1 {
    } else if mp == 2 {
    } else if mp == 3 {
    } else if mp == 4 {
    } else if mp == 5 {
    } else if mp == 6 {
    } else if mp == 7 {
    } else if mp == 8 {
    } else if mp == 9 {
    } else if mp == 10 {
    } else {
    }
}

/// One more year adds its leap day, if any, to the count.
proof fn lemma_leap_step(y: int)
    requires
        y >= 1,
    ensures
        leap_years_through(y) == leap_years_through(y - 1) + if is_leap(y) {
            1int
        } else {
            0int
        },
{
    assert(y / 4 - (y - 1) / 4 == if y % 4 == 0 {
        1int
    } else {
        0int
    }) by (nonlinear_arith)
        requires
            y >= 1,
    ;
    assert(y / 100 - (y - 1) / 100 == if y % 100 == 0 {
        1int
    } else {
        0int
    }) by (nonlinear_arith)
        requires
            y >= 1,
    ;
    assert(y / 400 - (y - 1) / 400 == if y % 400 == 0 {
        1int
    } else {
        0int
    }) by (nonlinear_arith)
        requires
            y >= 1,
    ;
    assert(y % 400 == 0 ==> y % 100 == 0 && y % 4 == 0) by (nonlinear_arith);
    assert(y % 100 == 0 ==> y % 4 == 0) by (nonlinear_arith);
}

/// The first of March of year `400 * era + yoe` falls `146097 * era` days plus the
/// cycle's own share after 0000-03-01.
proof fn lemma_march_days(era: int, yoe: int)
    requires
        era >= 0,
        0 <= yoe <= 399,
    ensures
        march_days(400 * era + yoe) == 146097 * era + 365 * yoe + yoe / 4 - yoe / 100,
{
    assert((400 * era + yoe) / 4 == 100 * era + yoe / 4);
    assert((400 * era + yoe) / 100 == 4 * era + yoe / 100);
    assert((400 * era + yoe) / 400 == era);
}

/// From 0000-03-01 to 1970-01-01 there are 719468 days, so the first of March of any
/// year lies that much earlier in one count than in the other.
proof fn lemma_march_vs_civil(y: int)
    requires
        y >= 1,
    ensures
        march_days(y) - 719468 == days_before_year(y) + 59 + if is_leap(y) {
            1int
        } else {
            0int
        },
{
    lemma_leap_step(y);
}

/// The month (1 to 12) of the `mp`-th month of a year counted from March.
spec fn month_of(mp: int) -> int {
    if mp < 10 {
        mp + 3
    } else {
        mp - 9
    }
}

/// A date `doy` days into the year that starts on the first of March of year
/// `400 * era + yoe` is a real date, `doy` days after that first of March.
proof fn lemma_date_parts(era: int, yoe: int, doy: int)
    requires
        era >= 4,
        0 <= yoe <= 399,
        0 <= doy <= 365,
        doy == 365 ==> yoe % 4 == 3 && yoe != 99 && yoe != 199 && yoe != 299,
    ensures
        ({
            let y0 = 400 * era + yoe;
            let mp = (5 * doy + 2) / 153;
            let d = doy - (153 * mp + 2) / 5 + 1;
            let m = month_of(mp);
            let y = if m <= 2 {
                y0 + 1
            } else {
                y0
            };
            is_date(y, m, d) && civil_days(y, m, d) == march_days(y0) + doy - 719468
        }),
{
    let y0 = 400 * era + yoe;
    let mp = (5 * doy + 2) / 153;
    let d = doy - (153 * mp + 2) / 5 + 1;
    lemma_month(doy);
    if mp >= 10 {
        lemma_leap_step(y0 + 1);
        lemma_march_vs_civil(y0 + 1);
        if mp == 11 && d == 29 {
            assert(doy == 365);
            assert((400 * era + yoe + 1) % 4 == 0);
            assert(yoe + 1 == 400 || (400 * era + yoe + 1) % 100 != 0);
        }
    } else {
        lemma_march_vs_civil(y0);
    }
}

/// The civil date `days` days after 1970-01-01, as (year, month, day).
pub open spec fn is_civil_date_of(days: int, ymd: (u64, u64, u64)) -> bool {
    is_date(ymd.0 as int, ymd.1 as int, ymd.2 as int) && civil_days(
        ymd.0 as int,
        ymd.1 as int,
        ymd.2 as int,
    ) == days && ymd.0 >= 1970
}

/// Converts days since the Unix epoch (1970-01-01) to the civil (year, month, day).
pub fn days_from_epoch(days: u64) -> (r: (u64, u64, u64))
    requires
        days <= u64::MAX - 719468,
    ensures
        is_civil_date_of(days as int, r),
{
    let z = days + 719468;
    let era = z / 146097;
    let doe = z - era * 146097;
    let yoe = (doe - doe / 1460 + doe / 36524 - doe / 146096) / 365;
    proof {
        lemma_cycle(doe as u32, yoe as u32);
    }
    let y0 = yoe + era * 400;
    let doy = doe - (365 * yoe + yoe / 4 - yoe / 100);
    proof {
        lemma_month(doy as int);
        lemma_march_days(era as int, yoe as int);
        lemma_date_parts(era as int, yoe as int, doy as int);
    }
    let mp = (5 * doy + 2) / 153;
    let d = doy - (153 * mp + 2) / 5 + 1;
    let m = if mp < 10 {
        mp + 3
    } else {
        mp - 9
    };
    let y = if m <= 2 {
        y0 + 1
    } else {
        y0
    };
    (y, m, d)
}

// ───────────────────────────── audit timestamps and arguments ─────────────────────────────

/// `n` in decimal, padded with leading zeros to at least `width` digits (`{:0width$}`).
pub open spec fn zero_padded(n: nat, width: nat) -> Seq<char> {
    let d = decimal(n);
    if d.len() >= width {
        d
    } else {
        Seq::new((width - d.len()) as nat, |i: int| '0') + d
    }
}

fn push_zero_padded(out: &mut Vec<char>, n: u64, width: usize)
    ensures
        final(out)@ == old(out)@ + zero_padded(n as nat, width as nat),
{
    let d = decimal_vec(n as u128);
    let mut k = d.len();
    let ghost start = out@;
    while k < width
        invariant
            d.len() <= k <= width || (k == d.len() && k >= width),
            out@ == start + Seq::new((k - d.len()) as nat, |i: int| '0'),
        decreases width - k,
    {
        out.push('0');
        assert(start + Seq::new((k + 1 - d.len()) as nat, |i: int| '0') =~= start + Seq::new(
            (k - d.len()) as nat,
            |i: int| '0',
        ).push('0'));
        k = k + 1;
    }
    extend(out, d.as_slice());
    if d.len() >= width {
        assert(Seq::new((k - d.len()) as nat, |i: int| '0') =~= Seq::<char>::empty());
        assert(out@ =~= start + d@);
    } else {
        assert(out@ =~= start + (Seq::new((width - d.len()) as nat, |i: int| '0') + d@));
    }
}

/// An audit timestamp `YYYY-MM-DDTHH:MM:SS` for `secs` seconds after the Unix epoch.
pub open spec fn timestamp_text(secs: nat, ymd: (u64, u64, u64)) -> Seq<char> {
    let tod = secs % 86400;
    zero_padded(ymd.0 as nat, 4) + seq!['-'] + zero_padded(ymd.1 as nat, 2) + seq!['-']
        + zero_padded(ymd.2 as nat, 2) + seq!['T'] + zero_padded(tod / 3600, 2) + seq![':']
        + zero_padded((tod % 3600) / 60, 2) + seq![':'] + zero_padded(tod % 60, 2)
}

/// Formats `secs` seconds after the Unix epoch as an audit timestamp: the civil date of
/// the day and the time of day, in UTC.
pub fn audit_timestamp_text(secs: u64) -> (r: String)
    ensures
        exists|ymd: (u64, u64, u64)|
            is_civil_date_of(secs as int / 86400, ymd) && r@ == timestamp_text(secs as nat, ymd),
{
    let days = secs / 86400;
    let tod = secs % 86400;
    let ymd = days_from_epoch(days);
    let (y, m, d) = ymd;
    let mut out: Vec<char> = Vec::new();
    push_zero_padded(&mut out, y, 4);
    out.push('-');
    push_zero_padded(&mut out, m, 2);
    out.push('-');
    push_zero_padded(&mut out, d, 2);
    out.push('T');
    push_zero_padded(&mut out, tod / 3600, 2);
    out.push(':');
    push_zero_padded(&mut out, (tod % 3600) / 60, 2);
    out.push(':');
    push_zero_padded(&mut out, tod % 60, 2);
    assert(out@ =~= timestamp_text(secs as nat, ymd));
    string_of(out.as_slice())
}

/// Bytes of a string argument kept in an audit entry.
pub const AUDIT_ARG_MAX_BYTES: usize = 200;

/// A string argument as recorded in the audit log: unchanged up to 200 bytes; longer,
/// its longest prefix of at most 200 bytes followed by a note of its full length in
/// bytes.
pub open spec fn audit_string(s: Seq<char>) -> Seq<char> {
    if byte_len(s) <= AUDIT_ARG_MAX_BYTES {
        s
    } else {
        safe_truncate(s, AUDIT_ARG_MAX_BYTES as int) + "... [truncated, "@ + decimal(byte_len(s))
            + " chars total]"@
    }
}

/// Truncates one string argument for the audit log (see [`audit_string`]).
pub fn truncate_audit_string(s: &str) -> (r: String)
    ensures
        r@ == audit_string(s@),
{
    let v = chars_of(s);
    let n = byte_len_wide(v.as_slice());
    if n <= AUDIT_ARG_MAX_BYTES as u128 {
        return s.to_owned();
    }
    let mut out = safe_truncate_vec(v.as_slice(), AUDIT_ARG_MAX_BYTES);
    extend_str(&mut out, "... [truncated, ");
    let d = decimal_vec(n);
    extend(&mut out, d.as_slice());
    extend_str(&mut out, " chars total]");
    string_of(out.as_slice())
}

/// One argument of a tool call as the audit log sees it: a string, or any other value,
/// which the log keeps as it came.
#[derive(Debug, PartialEq, Eq)]
pub enum AuditArg {
    Text(String),
    Kept,
}

/// The string an argument holds, if it is one.
pub open spec fn audit_arg_text(a: AuditArg) -> Option<Seq<char>> {
    match a {
        AuditArg::Text(s) => Some(s@),
        AuditArg::Kept => None,
    }
}

/// A named argument of a tool call.
#[derive(Debug, PartialEq, Eq)]
pub struct AuditField {
    pub key: String,
    pub value: AuditArg,
}

/// The arguments of an object-shaped tool call as the audit log records them: every key
/// kept, every string shortened as [`audit_string`] says, every other value kept.
pub fn truncate_audit_fields(fields: &[AuditField]) -> (r: Vec<AuditField>)
    ensures
        r@.len() == fields@.len(),
        forall|i: int|
            0 <= i < fields@.len() ==> (#[trigger] r@[i]).key@ == fields@[i].key@
                && audit_arg_text(r@[i].value) == match audit_arg_text(fields@[i].value) {
                Some(t) => Some(audit_string(t)),
                None => None,
            },
{
    let mut out: Vec<AuditField> = Vec::new();
    let mut i: usize = 0;
    while i < fields.len()
        invariant
            i <= fields@.len(),
            out@.len() == i,
            forall|j: int|
                0 <= j < i ==> (#[trigger] out@[j]).key@ == fields@[j].key@
                    && audit_arg_text(out@[j].value) == match audit_arg_text(fields@[j].value) {
                    Some(t) => Some(audit_string(t)),
                    None => None,
                },
        decreases fields.len() - i,
    {
        let f = &fields[i];
        let value = match &f.value {
            AuditArg::Text(t) => AuditArg::Text(truncate_audit_string(t.as_str())),
            AuditArg::Kept => AuditArg::Kept,
        };
        out.push(AuditField { key: f.key.as_str().to_owned(), value });
        i = i + 1;
    }
    out
}

// ───────────────────────────── the session budget ─────────────────────────────

/// The budget in seconds used when `YOYO_SESSION_BUDGET_SECS` is set but does not read
/// as a number (45 minutes).
pub const DEFAULT_SESSION_BUDGET_SECS: u64 = 2700;

/// What `YOYO_SESSION_BUDGET_SECS` configures: no budget when unset or empty, its value
/// when it reads as a whole number of seconds, and the default otherwise (so a typo
/// does not silently disable the guard).
pub open spec fn session_budget(raw: Option<Seq<char>>) -> Option<nat> {
    match raw {
        None => None,
        Some(s) => {
            if s.len() == 0 {
                None
            } else {
                match parse_unsigned(s, u64::MAX as nat) {
                    Some(v) => Some(v),
                    None => Some(DEFAULT_SESSION_BUDGET_SECS as nat),
                }
            }
        },
    }
}

/// Reads the budget setting.
pub fn parse_session_budget(raw: Option<String>) -> (r: Option<u64>)
    ensures
        match r {
            Some(v) => session_budget(
                match raw {
                    Some(s) => Some(s@),
                    None => None,
                },
            ) == Some(v as nat),
            None => session_budget(
                match raw {
                    Some(s) => Some(s@),
                    None => None,
                },
            ) is None,
        },
{
    match raw {
        None => None,
        Some(s) => {
            let v = chars_of(s.as_str());
            if v.len() == 0 {
                return None;
            }
            match parse_unsigned_exec(v.as_slice(), u64::MAX) {
                Some(n) => Some(n),
                None => Some(DEFAULT_SESSION_BUDGET_SECS),
            }
        },
    }
}

/// What remains of a budget of `budget_secs` seconds after `elapsed`: none without a
/// budget, never less than zero.
pub open spec fn budget_remaining(budget_secs: Option<u64>, elapsed: nat) -> Option<nat> {
    match budget_secs {
        Some(b) => {
            let total = b as nat * 1_000_000_000;
            Some(
                if total >= elapsed {
                    (total - elapsed) as nat
                } else {
                    0
                },
            )
        },
        None => None,
    }
}

/// How much wall-clock time remains of the session's soft budget, given the configured
/// budget and the time elapsed since the budget started.
pub fn session_budget_remaining(budget_secs: Option<u64>, elapsed: Dur) -> (r: Option<Dur>)
    ensures
        match r {
            Some(d) => budget_remaining(budget_secs, elapsed.nanos as nat) == Some(d.nanos as nat),
            None => budget_secs is None,
        },
{
    match budget_secs {
        Some(b) => Some(Dur::from_secs(b).saturating_sub(elapsed)),
        None => None,
    }
}

/// Whether the session budget is set and has no more than `grace_secs` whole seconds
/// left. An unbounded session is never exhausted.
pub open spec fn budget_exhausted(remaining: Option<nat>, grace_secs: nat) -> bool {
    match remaining {
        Some(r) => r / 1_000_000_000 <= grace_secs,
        None => false,
    }
}

/// Whether the remaining budget (see [`session_budget_remaining`]) is within the grace
/// window.
pub fn session_budget_exhausted(remaining: Option<Dur>, grace_secs: u64) -> (r: bool)
    ensures
        r == budget_exhausted(
            match remaining {
                Some(d) => Some(d.nanos as nat),
                None => None,
            },
            grace_secs as nat,
        ),
{
    match remaining {
        Some(d) => d.whole_secs() <= grace_secs as u128,
        None => false,
    }
}

// ───────────────────────────── the audit log switch ─────────────────────────────

/// Whether audit logging is on for this session; it starts off.
pub struct AuditSwitch {
    enabled: bool,
}

impl AuditSwitch {
    /// Whether the switch is on.
    pub closed spec fn on(&self) -> bool {
        self.enabled
    }

    /// A switch that is off.
    pub fn new() -> (r: Self)
        ensures
            !r.on(),
    {
        AuditSwitch { enabled: false }
    }

    /// Turns audit logging on for the rest of the session.
    pub fn enable_audit_log(&mut self)
        ensures
            final(self).on(),
    {
        self.enabled = true;
    }

    /// Whether audit logging is on.
    pub fn is_audit_enabled(&self) -> (r: bool)
        ensures
            r == self.on(),
    {
        self.enabled
    }
}


// ───────────────────────────── laws ─────────────────────────────

/// An audit argument of at most 200 bytes is recorded unchanged; a longer one keeps a
/// prefix of it of at most 200 bytes, cut between characters.
pub proof fn law_audit_string_prefix(s: Seq<char>)
    ensures
        byte_len(s) <= AUDIT_ARG_MAX_BYTES ==> audit_string(s) == s,
        byte_len(s) > AUDIT_ARG_MAX_BYTES ==> exists|k: int|
            0 <= k < s.len() && byte_len(s.take(k)) <= AUDIT_ARG_MAX_BYTES && #[trigger] audit_string(
                s,
            ) == s.take(k) + "... [truncated, "@ + decimal(byte_len(s)) + " chars total]"@,
{
    if byte_len(s) > AUDIT_ARG_MAX_BYTES {
        let k = fit_from_prefix(s);
        assert(audit_string(s) == s.take(k) + "... [truncated, "@ + decimal(byte_len(s))
            + " chars total]"@);
    }
}

/// The prefix length `audit_string` keeps of an over-long argument.
proof fn fit_from_prefix(s: Seq<char>) -> (k: int)
    requires
        byte_len(s) > AUDIT_ARG_MAX_BYTES,
    ensures
        k == fit_from(s, AUDIT_ARG_MAX_BYTES as int, 0),
        0 <= k < s.len(),
        byte_len(s.take(k)) <= AUDIT_ARG_MAX_BYTES,
{
    assert(s.take(0) =~= Seq::<char>::empty());
    lemma_fit_from(s, AUDIT_ARG_MAX_BYTES as int, 0);
    let k = fit_from(s, AUDIT_ARG_MAX_BYTES as int, 0);
    if k == s.len() {
        assert(s.take(k) =~= s);
    }
    k
}

/// The remaining budget never exceeds the budget, and shrinks as time passes.
pub proof fn law_budget_remaining_shrinks(budget_secs: Option<u64>, earlier: nat, later: nat)
    requires
        earlier <= later,
    ensures
        match (budget_remaining(budget_secs, earlier), budget_remaining(budget_secs, later)) {
            (Some(a), Some(b)) => b <= a && a <= budget_secs->0 as nat * 1_000_000_000,
            (None, None) => budget_secs is None,
            _ => false,
        },
{
}

/// A session without a budget is never exhausted, and one that is exhausted for a grace
/// window stays exhausted for any wider one, and as its remaining time shrinks.
pub proof fn law_exhaustion_monotone(remaining: Option<nat>, less: nat, grace: nat, wider: nat)
    requires
        grace <= wider,
        remaining matches Some(r) ==> less <= r,
    ensures
        !budget_exhausted(None, grace),
        budget_exhausted(remaining, grace) ==> budget_exhausted(remaining, wider),
        budget_exhausted(remaining, grace) ==> budget_exhausted(Some(less), grace),
{
    if let Some(r) = remaining {
        assert(less / 1_000_000_000 <= r / 1_000_000_000) by (nonlinear_arith)
            requires
                less <= r,
        ;
    }
}

} // verus!
