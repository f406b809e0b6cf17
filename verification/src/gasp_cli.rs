//! `yoyo gasp <arm>`: the argument contract of the four GASP session-graph arms.
//!
//! Every flag takes exactly one value and a pending flag consumes the next token
//! unconditionally, so a value that starts with `--` stays a value. A flag left dangling
//! at the end is refused by name. Empty optional values mean "unset"; empty required
//! values are refused.
use vstd::prelude::*;
use crate::text::{
    chars_of, eq_chars, eq_str, extend, extend_str, is_blank, slice_vec, starts_with,
    starts_with_str, string_of, trim, views,
};

verus! {

/// The four arm names, in the order the usage line lists them.
pub const GASP_ARMS: [&'static str; 4] = ["session-start", "task", "task-result", "session-end"];

/// Flags every arm carries.
#[derive(Debug, Clone, PartialEq, Eq)]
pub struct GaspCommon {
    /// `--state-dir`: the GASP agent-repo root. Required.
    pub state_dir: String,
    /// `--run-id`: the run these events chain to. Required.
    pub run_id: String,
    /// `--goal`: empty means unset.
    pub goal: Option<String>,
    /// `--worker`: parsed for argv compatibility, not honoured.
    pub worker: Option<String>,
}

/// One variant per arm, carrying exactly the fields that arm takes.
#[derive(Debug, Clone, PartialEq, Eq)]
pub enum GaspCommand {
    SessionStart {
        common: GaspCommon,
        day: String,
        task: Option<String>,
        goal_title: Option<String>,
        goal_summary: Option<String>,
    },
    Task { common: GaspCommon, num: String, title: String, kind: String },
    TaskResult {
        common: GaspCommon,
        num: String,
        title: String,
        verdict: String,
        pre_sha: String,
        post_sha: String,
        repo: String,
        branch: Option<String>,
        eval_command: Option<String>,
        reason: String,
        kind: String,
    },
    SessionEnd { common: GaspCommon, outcome: Option<String>, extra: String },
}

/// The characters of the common flags.
pub struct GaspCommonV {
    pub state_dir: Seq<char>,
    pub run_id: Seq<char>,
    pub goal: Option<Seq<char>>,
    pub worker: Option<Seq<char>>,
}

/// The characters of a parsed command.
pub enum GaspCommandV {
    SessionStart {
        common: GaspCommonV,
        day: Seq<char>,
        task: Option<Seq<char>>,
        goal_title: Option<Seq<char>>,
        goal_summary: Option<Seq<char>>,
    },
    Task { common: GaspCommonV, num: Seq<char>, title: Seq<char>, kind: Seq<char> },
    TaskResult {
        common: GaspCommonV,
        num: Seq<char>,
        title: Seq<char>,
        verdict: Seq<char>,
        pre_sha: Seq<char>,
        post_sha: Seq<char>,
        repo: Seq<char>,
        branch: Option<Seq<char>>,
        eval_command: Option<Seq<char>>,
        reason: Seq<char>,
        kind: Seq<char>,
    },
    SessionEnd { common: GaspCommonV, outcome: Option<Seq<char>>, extra: Seq<char> },
}

pub open spec fn opt_view(o: Option<String>) -> Option<Seq<char>> {
    match o {
        Some(s) => Some(s@),
        None => None,
    }
}

impl View for GaspCommon {
    type V = GaspCommonV;

    open spec fn view(&self) -> GaspCommonV {
        GaspCommonV {
            state_dir: self.state_dir@,
            run_id: self.run_id@,
            goal: opt_view(self.goal),
            worker: opt_view(self.worker),
        }
    }
}

impl View for GaspCommand {
    type V = GaspCommandV;

    open spec fn view(&self) -> GaspCommandV {
        match self {
            GaspCommand::SessionStart { common, day, task, goal_title, goal_summary } => {
                GaspCommandV::SessionStart {
                    common: common@,
                    day: day@,
                    task: opt_view(*task),
                    goal_title: opt_view(*goal_title),
                    goal_summary: opt_view(*goal_summary),
                }
            },
            GaspCommand::Task { common, num, title, kind } => GaspCommandV::Task {
                common: common@,
                num: num@,
                title: title@,
                kind: kind@,
            },
            GaspCommand::TaskResult {
                common,
                num,
                title,
                verdict,
                pre_sha,
                post_sha,
                repo,
                branch,
                eval_command,
                reason,
                kind,
            } => GaspCommandV::TaskResult {
                common: common@,
                num: num@,
                title: title@,
                verdict: verdict@,
                pre_sha: pre_sha@,
                post_sha: post_sha@,
                repo: repo@,
                branch: opt_view(*branch),
                eval_command: opt_view(*eval_command),
                reason: reason@,
                kind: kind@,
            },
            GaspCommand::SessionEnd { common, outcome, extra } => GaspCommandV::SessionEnd {
                common: common@,
                outcome: opt_view(*outcome),
                extra: extra@,
            },
        }
    }
}

// ───────────────────────────── the flag pairs ─────────────────────────────

pub type FlagsV = Seq<(Seq<char>, Seq<char>)>;

/// Splits `args[i..]` into flag/value pairs, with `pending` a flag still waiting for its
/// value and `acc` the pairs already read.
pub open spec fn split_flags_from(
    args: Seq<Seq<char>>,
    i: int,
    pending: Option<Seq<char>>,
    acc: FlagsV,
) -> Result<FlagsV, Seq<char>>
    decreases args.len() - i,
{
    if i < 0 || i >= args.len() {
        match pending {
            Some(name) => Err("--"@ + name + " was given with no value"@),
            None => Ok(acc),
        }
    } else {
        let arg = args[i];
        match pending {
            Some(name) => split_flags_from(args, i + 1, None, acc.push((name, arg))),
            None => {
                if starts_with(arg, "--"@) {
                    let name = arg.skip("--"@.len() as int);
                    if name.len() == 0 {
                        Err("`--` is not a flag name"@)
                    } else {
                        split_flags_from(args, i + 1, Some(name), acc)
                    }
                } else {
                    Err("unexpected positional argument `"@ + arg
                        + "` — every gasp value is passed as `--flag <value>`"@)
                }
            },
        }
    }
}

/// `split_flags`: every flag takes exactly one value, the next token, whatever it looks like.
pub open spec fn split_flags_spec(args: Seq<Seq<char>>) -> Result<FlagsV, Seq<char>> {
    split_flags_from(args, 0, None, seq![])
}

proof fn lemma_split_flags_counts(args: Seq<Seq<char>>, i: int, pending: Option<Seq<char>>, acc: FlagsV)
    requires
        0 <= i <= args.len(),
    ensures
        split_flags_from(args, i, pending, acc) matches Ok(f) ==> 2 * f.len() == 2 * acc.len() + (
        args.len() - i) + if pending is Some {
            1int
        } else {
            0int
        },
    decreases args.len() - i,
{
    if i < args.len() {
        let arg = args[i];
        match pending {
            Some(name) => lemma_split_flags_counts(args, i + 1, None, acc.push((name, arg))),
            None => {
                if starts_with(arg, "--"@) && arg.skip("--"@.len() as int).len() > 0 {
                    lemma_split_flags_counts(args, i + 1, Some(arg.skip("--"@.len() as int)), acc);
                }
            },
        }
    }
}

/// Every flag takes exactly one value: a parse that succeeds reads the arguments as
/// flag/value pairs, so an odd number of arguments (a flag left dangling at the end) is
/// always refused.
pub proof fn law_flags_come_in_pairs(args: Seq<Seq<char>>)
    ensures
        split_flags_spec(args) matches Ok(flags) ==> args.len() == 2 * flags.len(),
        args.len() % 2 == 1 ==> split_flags_spec(args) is Err,
{
    lemma_split_flags_counts(args, 0, None, seq![]);
}

pub open spec fn flags_view(v: Seq<(Vec<char>, Vec<char>)>) -> FlagsV {
    v.map_values(|p: (Vec<char>, Vec<char>)| (p.0@, p.1@))
}

fn split_flags(args: &[Vec<char>]) -> (r: Result<Vec<(Vec<char>, Vec<char>)>, Vec<char>>)
    ensures
        match (r, split_flags_spec(views(args@))) {
            (Ok(v), Ok(w)) => flags_view(v@) == w,
            (Err(e), Err(m)) => e@ == m,
            _ => false,
        },
{
    let ghost a = views(args@);
    let mut out: Vec<(Vec<char>, Vec<char>)> = Vec::new();
    let mut pending: Option<Vec<char>> = None;
    let mut i: usize = 0;
    assert(flags_view(out@) =~= Seq::<(Seq<char>, Seq<char>)>::empty());
    while i < args.len()
        invariant
            i <= args@.len(),
            a == views(args@),
            split_flags_spec(a) == split_flags_from(
                a,
                i as int,
                match pending {
                    Some(p) => Some(p@),
                    None => None,
                },
                flags_view(out@),
            ),
        decreases args.len() - i,
    {
        let arg = &args[i];
        assert(a[i as int] == arg@);
        match pending {
            Some(name) => {
                let ghost before = flags_view(out@);
                out.push((name, crate::text::copy_chars(arg.as_slice())));
                assert(flags_view(out@) =~= before.push((name@, arg@)));
                pending = None;
            },
            None => {
                if starts_with_str(arg.as_slice(), "--") {
                    let two = chars_of("--").len();
                    let name = slice_vec(arg.as_slice(), two, arg.len());
                    if name.len() == 0 {
                        let mut e = Vec::new();
                        extend_str(&mut e, "`--` is not a flag name");
                        return Err(e);
                    }
                    pending = Some(name);
                } else {
                    let mut e = Vec::new();
                    extend_str(&mut e, "unexpected positional argument `");
                    extend(&mut e, arg.as_slice());
                    extend_str(&mut e, "` — every gasp value is passed as `--flag <value>`");
                    return Err(e);
                }
            },
        }
        i = i + 1;
    }
    match pending {
        Some(name) => {
            let mut e = Vec::new();
            extend_str(&mut e, "--");
            extend(&mut e, name.as_slice());
            extend_str(&mut e, " was given with no value");
            Err(e)
        },
        None => Ok(out),
    }
}

/// The value of the last pair before index `k` named `name` (last wins).
pub open spec fn flag_before(flags: FlagsV, name: Seq<char>, k: int) -> Option<Seq<char>>
    decreases k,
{
    if k <= 0 || k > flags.len() {
        None
    } else if flags[k - 1].0 == name {
        Some(flags[k - 1].1)
    } else {
        flag_before(flags, name, k - 1)
    }
}

/// Last-wins lookup.
pub open spec fn flag(flags: FlagsV, name: Seq<char>) -> Option<Seq<char>> {
    flag_before(flags, name, flags.len() as int)
}

fn flag_exec(flags: &[(Vec<char>, Vec<char>)], name: &str) -> (r: Option<Vec<char>>)
    ensures
        match r {
            Some(v) => flag(flags_view(flags@), name@) == Some(v@),
            None => flag(flags_view(flags@), name@) is None,
        },
{
    let n = chars_of(name);
    let ghost f = flags_view(flags@);
    let mut k: usize = flags.len();
    while k > 0
        invariant
            k <= flags@.len(),
            f == flags_view(flags@),
            n@ == name@,
            flag(f, name@) == flag_before(f, name@, k as int),
        decreases k,
    {
        assert(f[k - 1] == (flags@[k - 1].0@, flags@[k - 1].1@));
        if eq_chars(flags[k - 1].0.as_slice(), n.as_slice()) {
            return Some(crate::text::copy_chars(flags[k - 1].1.as_slice()));
        }
        k = k - 1;
    }
    None
}

/// A required flag: present and not blank.
pub open spec fn required(flags: FlagsV, name: Seq<char>) -> Result<Seq<char>, Seq<char>> {
    match flag(flags, name) {
        Some(v) => {
            if trim(v).len() != 0 {
                Ok(v)
            } else {
                Err("--"@ + name + " is required and was empty"@)
            }
        },
        None => Err("--"@ + name + " is required"@),
    }
}

/// An optional flag where empty (or blank) means absent.
pub open spec fn optional(flags: FlagsV, name: Seq<char>) -> Option<Seq<char>> {
    match flag(flags, name) {
        Some(v) => {
            if trim(v).len() != 0 {
                Some(v)
            } else {
                None
            }
        },
        None => None,
    }
}

/// An optional flag whose absence is the empty string.
pub open spec fn optional_str(flags: FlagsV, name: Seq<char>) -> Seq<char> {
    match flag(flags, name) {
        Some(v) => v,
        None => Seq::empty(),
    }
}

/// `--kind`: empty, `product` or `evolve`.
pub open spec fn kind_of(flags: FlagsV) -> Result<Seq<char>, Seq<char>> {
    let kind = optional_str(flags, "kind"@);
    if kind.len() == 0 || kind == "product"@ || kind == "evolve"@ {
        Ok(kind)
    } else {
        Err("--kind `"@ + kind + "` is not one of: product, evolve (or empty for unset)"@)
    }
}

/// The common flags, with the first failing required flag as the error.
pub open spec fn common_of(flags: FlagsV) -> Result<GaspCommonV, Seq<char>> {
    match required(flags, "state-dir"@) {
        Err(e) => Err(e),
        Ok(state_dir) => match required(flags, "run-id"@) {
            Err(e) => Err(e),
            Ok(run_id) => Ok(
                GaspCommonV {
                    state_dir,
                    run_id,
                    goal: optional(flags, "goal"@),
                    worker: optional(flags, "worker"@),
                },
            ),
        },
    }
}

fn to_string(v: Vec<char>) -> (s: String)
    ensures
        s@ == v@,
{
    string_of(v.as_slice())
}

fn required_exec(flags: &[(Vec<char>, Vec<char>)], name: &str) -> (r: Result<String, String>)
    ensures
        match (r, required(flags_view(flags@), name@)) {
            (Ok(v), Ok(w)) => v@ == w,
            (Err(e), Err(m)) => e@ == m,
            _ => false,
        },
{
    match flag_exec(flags, name) {
        Some(v) => {
            if !is_blank(v.as_slice()) {
                Ok(to_string(v))
            } else {
                let mut e = Vec::new();
                extend_str(&mut e, "--");
                extend_str(&mut e, name);
                extend_str(&mut e, " is required and was empty");
                Err(to_string(e))
            }
        },
        None => {
            let mut e = Vec::new();
            extend_str(&mut e, "--");
            extend_str(&mut e, name);
            extend_str(&mut e, " is required");
            Err(to_string(e))
        },
    }
}

fn optional_exec(flags: &[(Vec<char>, Vec<char>)], name: &str) -> (r: Option<String>)
    ensures
        opt_view(r) == optional(flags_view(flags@), name@),
{
    match flag_exec(flags, name) {
        Some(v) => {
            if !is_blank(v.as_slice()) {
                Some(to_string(v))
            } else {
                None
            }
        },
        None => None,
    }
}

fn optional_str_exec(flags: &[(Vec<char>, Vec<char>)], name: &str) -> (r: String)
    ensures
        r@ == optional_str(flags_view(flags@), name@),
{
    match flag_exec(flags, name) {
        Some(v) => to_string(v),
        None => String::new(),
    }
}

fn kind_exec(flags: &[(Vec<char>, Vec<char>)]) -> (r: Result<String, String>)
    ensures
        match (r, kind_of(flags_view(flags@))) {
            (Ok(v), Ok(w)) => v@ == w,
            (Err(e), Err(m)) => e@ == m,
            _ => false,
        },
{
    let kind = match flag_exec(flags, "kind") {
        Some(v) => v,
        None => Vec::new(),
    };
    assert(kind@ == optional_str(flags_view(flags@), "kind"@));
    if kind.len() == 0 || eq_str(kind.as_slice(), "product") || eq_str(kind.as_slice(), "evolve") {
        Ok(to_string(kind))
    } else {
        let mut e = Vec::new();
        extend_str(&mut e, "--kind `");
        extend(&mut e, kind.as_slice());
        extend_str(&mut e, "` is not one of: product, evolve (or empty for unset)");
        Err(to_string(e))
    }
}

fn common_exec(flags: &[(Vec<char>, Vec<char>)]) -> (r: Result<GaspCommon, String>)
    ensures
        match (r, common_of(flags_view(flags@))) {
            (Ok(v), Ok(w)) => v@ == w,
            (Err(e), Err(m)) => e@ == m,
            _ => false,
        },
{
    let state_dir = match required_exec(flags, "state-dir") {
        Ok(v) => v,
        Err(e) => {
            return Err(e);
        },
    };
    let run_id = match required_exec(flags, "run-id") {
        Ok(v) => v,
        Err(e) => {
            return Err(e);
        },
    };
    let goal = optional_exec(flags, "goal");
    let worker = optional_exec(flags, "worker");
    Ok(GaspCommon { state_dir, run_id, goal, worker })
}

// ───────────────────────────── the arms ─────────────────────────────

pub open spec fn arms_list() -> Seq<char> {
    "session-start, task, task-result, session-end"@
}

/// The `session-start` arm.
pub open spec fn session_start_of(flags: FlagsV) -> Result<GaspCommandV, Seq<char>> {
    match common_of(flags) {
        Err(e) => Err(e),
        Ok(common) => Ok(
            GaspCommandV::SessionStart {
                common,
                day: optional_str(flags, "day"@),
                task: optional(flags, "task"@),
                goal_title: optional(flags, "goal-title"@),
                goal_summary: optional(flags, "goal-summary"@),
            },
        ),
    }
}

/// The `task` arm.
pub open spec fn task_of(flags: FlagsV) -> Result<GaspCommandV, Seq<char>> {
    match common_of(flags) {
        Err(e) => Err(e),
        Ok(common) => match required(flags, "num"@) {
            Err(e) => Err(e),
            Ok(num) => match required(flags, "title"@) {
                Err(e) => Err(e),
                Ok(title) => match kind_of(flags) {
                    Err(e) => Err(e),
                    Ok(kind) => Ok(GaspCommandV::Task { common, num, title, kind }),
                },
            },
        },
    }
}

/// The `task-result` arm.
pub open spec fn task_result_of(flags: FlagsV) -> Result<GaspCommandV, Seq<char>> {
    match common_of(flags) {
        Err(e) => Err(e),
        Ok(common) => match required(flags, "num"@) {
            Err(e) => Err(e),
            Ok(num) => match required(flags, "title"@) {
                Err(e) => Err(e),
                Ok(title) => match required(flags, "verdict"@) {
                    Err(e) => Err(e),
                    Ok(verdict) => match required(flags, "pre-sha"@) {
                        Err(e) => Err(e),
                        Ok(pre_sha) => match required(flags, "post-sha"@) {
                            Err(e) => Err(e),
                            Ok(post_sha) => match required(flags, "repo"@) {
                                Err(e) => Err(e),
                                Ok(repo) => match kind_of(flags) {
                                    Err(e) => Err(e),
                                    Ok(kind) => Ok(
                                        GaspCommandV::TaskResult {
                                            common,
                                            num,
                                            title,
                                            verdict,
                                            pre_sha,
                                            post_sha,
                                            repo,
                                            branch: optional(flags, "branch"@),
                                            eval_command: optional(flags, "eval-command"@),
                                            reason: optional_str(flags, "reason"@),
                                            kind,
                                        },
                                    ),
                                },
                            },
                        },
                    },
                },
            },
        },
    }
}

/// The `session-end` arm.
pub open spec fn session_end_of(flags: FlagsV) -> Result<GaspCommandV, Seq<char>> {
    match common_of(flags) {
        Err(e) => Err(e),
        Ok(common) => Ok(
            GaspCommandV::SessionEnd {
                common,
                outcome: optional(flags, "outcome"@),
                extra: optional_str(flags, "extra"@),
            },
        ),
    }
}

/// What `parse_gasp_args` returns for the characters of `args` (`args[0]` is the arm).
pub open spec fn parse_gasp_spec(args: Seq<Seq<char>>) -> Result<GaspCommandV, Seq<char>> {
    let arm = if args.len() > 0 {
        args[0]
    } else {
        Seq::empty()
    };
    if arm.len() == 0 {
        Err("missing arm — expected one of: "@ + arms_list())
    } else {
        match split_flags_spec(args.skip(1)) {
            Err(e) => Err(e),
            Ok(flags) => {
                if arm == "session-start"@ {
                    session_start_of(flags)
                } else if arm == "task"@ {
                    task_of(flags)
                } else if arm == "task-result"@ {
                    task_result_of(flags)
                } else if arm == "session-end"@ {
                    session_end_of(flags)
                } else {
                    Err("unknown gasp arm `"@ + arm + "` — expected one of: "@ + arms_list())
                }
            },
        }
    }
}

pub open spec fn arg_views(args: Seq<String>) -> Seq<Seq<char>> {
    args.map_values(|s: String| s@)
}

/// Parses everything after `yoyo gasp` into one arm's command, or the error naming what
/// is wrong (a missing, empty or dangling flag, a stray positional, an unknown arm or kind).
pub fn parse_gasp_args(args: &[String]) -> (r: Result<GaspCommand, String>)
    ensures
        match (r, parse_gasp_spec(arg_views(args@))) {
            (Ok(c), Ok(v)) => c@ == v,
            (Err(e), Err(m)) => e@ == m,
            _ => false,
        },
{
    let ghost a = arg_views(args@);
    let mut cs: Vec<Vec<char>> = Vec::new();
    let mut i: usize = 0;
    while i < args.len()
        invariant
            i <= args@.len(),
            a == arg_views(args@),
            views(cs@) == a.take(i as int),
        decreases args.len() - i,
    {
        let ghost before = views(cs@);
        cs.push(chars_of(args[i].as_str()));
        assert(views(cs@) =~= before.push(a[i as int]));
        assert(a.take(i + 1) =~= a.take(i as int).push(a[i as int]));
        i = i + 1;
    }
    assert(a.take(args.len() as int) =~= a);
    let arm: Vec<char> = if cs.len() > 0 {
        crate::text::copy_chars(cs[0].as_slice())
    } else {
        Vec::new()
    };
    if arm.len() == 0 {
        let mut e = Vec::new();
        extend_str(&mut e, "missing arm — expected one of: ");
        extend_str(&mut e, "session-start, task, task-result, session-end");
        return Err(to_string(e));
    }
    let rest = crate::text::slice_vec_of_vecs(cs.as_slice(), 1);
    assert(views(rest@) =~= a.skip(1));
    let flags = match split_flags(rest.as_slice()) {
        Ok(f) => f,
        Err(e) => {
            return Err(to_string(e));
        },
    };
    let f = flags.as_slice();
    if eq_str(arm.as_slice(), "session-start") {
        let common = match common_exec(f) {
            Ok(c) => c,
            Err(e) => {
                return Err(e);
            },
        };
        Ok(
            GaspCommand::SessionStart {
                common,
                day: optional_str_exec(f, "day"),
                task: optional_exec(f, "task"),
                goal_title: optional_exec(f, "goal-title"),
                goal_summary: optional_exec(f, "goal-summary"),
            },
        )
    } else if eq_str(arm.as_slice(), "task") {
        let common = match common_exec(f) {
            Ok(c) => c,
            Err(e) => {
                return Err(e);
            },
        };
        let num = match required_exec(f, "num") {
            Ok(v) => v,
            Err(e) => {
                return Err(e);
            },
        };
        let title = match required_exec(f, "title") {
            Ok(v) => v,
            Err(e) => {
                return Err(e);
            },
        };
        let kind = match kind_exec(f) {
            Ok(v) => v,
            Err(e) => {
                return Err(e);
            },
        };
        Ok(GaspCommand::Task { common, num, title, kind })
    } else if eq_str(arm.as_slice(), "task-result") {
        let common = match common_exec(f) {
            Ok(c) => c,
            Err(e) => {
                return Err(e);
            },
        };
        let num = match required_exec(f, "num") {
            Ok(v) => v,
            Err(e) => {
                return Err(e);
            },
        };
        let title = match required_exec(f, "title") {
            Ok(v) => v,
            Err(e) => {
                return Err(e);
            },
        };
        let verdict = match required_exec(f, "verdict") {
            Ok(v) => v,
            Err(e) => {
                return Err(e);
            },
        };
        let pre_sha = match required_exec(f, "pre-sha") {
            Ok(v) => v,
            Err(e) => {
                return Err(e);
            },
        };
        let post_sha = match required_exec(f, "post-sha") {
            Ok(v) => v,
            Err(e) => {
                return Err(e);
            },
        };
        let repo = match required_exec(f, "repo") {
            Ok(v) => v,
            Err(e) => {
                return Err(e);
            },
        };
        let branch = optional_exec(f, "branch");
        let eval_command = optional_exec(f, "eval-command");
        let reason = optional_str_exec(f, "reason");
        let kind = match kind_exec(f) {
            Ok(v) => v,
            Err(e) => {
                return Err(e);
            },
        };
        Ok(
            GaspCommand::TaskResult {
                common,
                num,
                title,
                verdict,
                pre_sha,
                post_sha,
                repo,
                branch,
                eval_command,
                reason,
                kind,
            },
        )
    } else if eq_str(arm.as_slice(), "session-end") {
        let common = match common_exec(f) {
            Ok(c) => c,
            Err(e) => {
                return Err(e);
            },
        };
        Ok(
            GaspCommand::SessionEnd {
                common,
                outcome: optional_exec(f, "outcome"),
                extra: optional_str_exec(f, "extra"),
            },
        )
    } else {
        let mut e = Vec::new();
        extend_str(&mut e, "unknown gasp arm `");
        extend(&mut e, arm.as_slice());
        extend_str(&mut e, "` — expected one of: ");
        extend_str(&mut e, "session-start, task, task-result, session-end");
        Err(to_string(e))
    }
}

/// The one-line usage, printed on any parse error.
pub open spec fn usage_text() -> Seq<char> {
    "usage: yoyo gasp <session-start|task|task-result|session-end> --state-dir <dir> --run-id <id> [...]"@
}

/// The one-line usage naming every arm.
pub fn gasp_usage() -> (r: String)
    ensures
        r@ == usage_text(),
{
    let v = chars_of(
        "usage: yoyo gasp <session-start|task|task-result|session-end> --state-dir <dir> --run-id <id> [...]",
    );
    to_string(v)
}

/// Does this arm chain to a run an earlier process opened? Every arm but `session-start`.
pub fn needs_open_run(cmd: &GaspCommand) -> (r: bool)
    ensures
        r == !(cmd is SessionStart),
{
    !matches!(cmd, GaspCommand::SessionStart { .. })
}

} // verus!
