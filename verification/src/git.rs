//! Git helpers: commit trailers, diff colouring, `/git` argument parsing, stage
//! selection, PR descriptions and change counts. Running `git` itself is the caller's job;
//! everything here works on the text git printed or the text a user typed.
use vstd::prelude::*;
use crate::text::{
    contains_char, decimal, parse_unsigned, parse_unsigned_exec, split_char,
    byte_len, chars_of, contains,
    contains_str, copy_chars, ends_with, ends_with_str, eq_chars, eq_str, extend, extend_str, find,
    find_char, find_char_from, find_str, is_blank, is_whitespace, is_ws, join, join_vec,
    lemma_contains_iff, lemma_find_char_from, lemma_find_from, lines, lines_vec, lowercase, matches_at,
    slice_vec, starts_with, starts_with_str, string_of, to_lowercase, trim, trim_vec, views,
};

verus! {

pub open spec fn bold() -> Seq<char> {
    "\x1b[1m"@
}

pub open spec fn dim() -> Seq<char> {
    "\x1b[2m"@
}

pub open spec fn red() -> Seq<char> {
    "\x1b[31m"@
}

pub open spec fn green() -> Seq<char> {
    "\x1b[32m"@
}

pub open spec fn yellow() -> Seq<char> {
    "\x1b[33m"@
}

pub open spec fn cyan() -> Seq<char> {
    "\x1b[36m"@
}

pub open spec fn reset() -> Seq<char> {
    "\x1b[0m"@
}

// ───────────────────────────── co-authored-by trailer ─────────────────────────────

pub open spec fn trailer() -> Seq<char> {
    "Co-authored-by: yoyo <yoyo@users.noreply.github.com>"@
}

/// The message with the yoyo trailer after a blank line, unless it already carries it.
pub open spec fn with_trailer(message: Seq<char>) -> Seq<char> {
    if contains(message, trailer()) {
        message
    } else {
        message + "\n\n"@ + trailer()
    }
}

/// Append a `Co-authored-by: yoyo` trailer to a commit message; a message that already
/// contains the trailer is returned unchanged.
pub fn append_co_authored_trailer(message: &str) -> (r: String)
    ensures
        r@ == with_trailer(message@),
{
    let m = chars_of(message);
    if contains_str(m.as_slice(), "Co-authored-by: yoyo <yoyo@users.noreply.github.com>") {
        return string_of(m.as_slice());
    }
    let mut out = copy_chars(m.as_slice());
    extend_str(&mut out, "\n\n");
    extend_str(&mut out, "Co-authored-by: yoyo <yoyo@users.noreply.github.com>");
    string_of(out.as_slice())
}

/// Adding the trailer twice is adding it once, and a message with the trailer added
/// always carries it.
pub proof fn law_trailer_idempotent(message: Seq<char>)
    ensures
        with_trailer(with_trailer(message)) == with_trailer(message),
        contains(with_trailer(message), trailer()),
{
    if !contains(message, trailer()) {
        let w = message + "\n\n"@ + trailer();
        reveal_strlit("\n\n");
        let at = message.len() as int + 2;
        assert(matches_at(w, at, trailer())) by {
            assert(w.subrange(at, at + trailer().len() as int) =~= trailer());
        }
        lemma_contains_iff(w, trailer());
    }
}

// ───────────────────────────── commit message ─────────────────────────────

/// The conventional commit message for a diff. This is the weighted generator of
/// `git_commit_msg`: the type follows where the weight of the change lies, test paths are
/// recognised by their shape, and files come from the diff headers as well as from
/// `+++ b/` lines.
pub fn generate_commit_message(diff: &str) -> (r: String)
    ensures
        r@ == crate::git_commit_msg::commit_message(diff@),
{
    crate::git_commit_msg::generate_commit_message(diff)
}


// ───────────────────────────── colouring ─────────────────────────────

/// One diff line with its colour: bold file headers, cyan hunk headers, green
/// additions, red deletions, context untouched.
pub open spec fn colored_line(line: Seq<char>) -> Seq<char> {
    if starts_with(line, "diff --git"@) || starts_with(line, "---"@) || starts_with(line, "+++"@) {
        bold() + line + reset()
    } else if starts_with(line, "@@"@) {
        cyan() + line + reset()
    } else if starts_with(line, "+"@) {
        green() + line + reset()
    } else if starts_with(line, "-"@) {
        red() + line + reset()
    } else {
        line
    }
}

/// Every line coloured and newline-terminated.
pub open spec fn colored_lines(ls: Seq<Seq<char>>) -> Seq<char>
    decreases ls.len(),
{
    if ls.len() == 0 {
        Seq::empty()
    } else {
        colored_lines(ls.drop_last()) + colored_line(ls.last()) + "\n"@
    }
}

/// The coloured diff; the final newline only when the input had one.
pub open spec fn colorized(diff: Seq<char>) -> Seq<char> {
    if diff.len() == 0 {
        Seq::empty()
    } else {
        let body = colored_lines(lines(diff));
        if !ends_with(diff, "\n"@) && ends_with(body, "\n"@) {
            body.drop_last()
        } else {
            body
        }
    }
}

/// Lines put back together, each followed by a newline.
spec fn newline_terminated(ls: Seq<Seq<char>>) -> Seq<char>
    decreases ls.len(),
{
    if ls.len() == 0 {
        Seq::empty()
    } else {
        newline_terminated(ls.drop_last()) + ls.last() + "\n"@
    }
}

proof fn lemma_newline_terminated_prepend(x: Seq<char>, rest: Seq<Seq<char>>)
    ensures
        newline_terminated(seq![x] + rest) == x + "\n"@ + newline_terminated(rest),
    decreases rest.len(),
{
    let s = seq![x] + rest;
    if rest.len() == 0 {
        assert(s =~= seq![x]);
        assert(s.drop_last() =~= Seq::<Seq<char>>::empty());
        assert(newline_terminated(s) == newline_terminated(s.drop_last()) + x + "\n"@);
        assert(Seq::<char>::empty() + x + "\n"@ =~= x + "\n"@ + Seq::<char>::empty());
    } else {
        lemma_newline_terminated_prepend(x, rest.drop_last());
        assert(s.drop_last() =~= seq![x] + rest.drop_last());
        assert(s.last() == rest.last());
        assert(newline_terminated(s) == newline_terminated(s.drop_last()) + rest.last() + "\n"@);
        assert(newline_terminated(rest) == newline_terminated(rest.drop_last()) + rest.last()
            + "\n"@);
        assert(x + "\n"@ + newline_terminated(rest.drop_last()) + rest.last() + "\n"@ =~= x
            + "\n"@ + (newline_terminated(rest.drop_last()) + rest.last() + "\n"@));
    }
}

/// The lines of `d[i..]` put back together give `d[i..]`, with a newline added when `d`
/// did not end with one; no line holds a character `d` does not.
proof fn lemma_lines_rejoin(d: Seq<char>, i: int)
    requires
        0 <= i < d.len(),
        forall|j: int| 0 <= j < d.len() ==> #[trigger] d[j] != '\r',
    ensures
        newline_terminated(crate::text::lines_from(d, i)) == if d.last() == '\n' {
            d.skip(i)
        } else {
            d.skip(i) + "\n"@
        },
        forall|k: int, j: int|
            0 <= k < crate::text::lines_from(d, i).len() && 0 <= j < crate::text::lines_from(
                d,
                i,
            )[k].len() ==> exists|m: int| i <= m < d.len() && #[trigger] crate::text::lines_from(
                d,
                i,
            )[k][j] == d[m],
    decreases d.len() - i,
{
    reveal_strlit("\n");
    let ls = crate::text::lines_from(d, i);
    lemma_find_char_from(d, '\n', i);
    match find_char_from(d, '\n', i) {
        None => {
            let x = d.subrange(i, d.len() as int);
            assert(ls == seq![x]);
            assert(d.last() == d[d.len() - 1]);
            lemma_newline_terminated_prepend(x, Seq::<Seq<char>>::empty());
            assert(seq![x] + Seq::<Seq<char>>::empty() =~= seq![x]);
            assert(newline_terminated(Seq::<Seq<char>>::empty()) == Seq::<char>::empty());
            assert(x + "\n"@ + Seq::<char>::empty() =~= d.skip(i) + "\n"@);
            assert(d.last() != '\n');
            assert(newline_terminated(ls) == d.skip(i) + "\n"@);
            assert forall|k: int, j: int| 0 <= k < ls.len() && 0 <= j < ls[k].len() implies exists|
                m: int,
            | i <= m < d.len() && #[trigger] ls[k][j] == d[m] by {
                assert(ls[k][j] == d[i + j]);
            }
        },
        Some(e) => {
            let x = d.subrange(i, e);
            if x.len() > 0 {
                assert(x.last() == d[e - 1]);
            }
            assert(crate::text::strip_cr(x) == x);
            let rest = crate::text::lines_from(d, e + 1);
            assert(ls == seq![x] + rest);
            lemma_newline_terminated_prepend(x, rest);
            if e + 1 == d.len() {
                assert(rest == Seq::<Seq<char>>::empty());
                assert(newline_terminated(rest) == Seq::<char>::empty());
                assert(d.last() == '\n');
                assert(x + "\n"@ + Seq::<char>::empty() =~= d.skip(i));
                assert(newline_terminated(ls) == d.skip(i));
            } else {
                lemma_lines_rejoin(d, e + 1);
                if d.last() == '\n' {
                    assert(x + "\n"@ + d.skip(e + 1) =~= d.skip(i));
                    assert(newline_terminated(ls) == d.skip(i));
                } else {
                    assert(x + "\n"@ + (d.skip(e + 1) + "\n"@) =~= d.skip(i) + "\n"@);
                    assert(newline_terminated(ls) == d.skip(i) + "\n"@);
                }
            }
            assert forall|k: int, j: int| 0 <= k < ls.len() && 0 <= j < ls[k].len() implies exists|
                m: int,
            | i <= m < d.len() && #[trigger] ls[k][j] == d[m] by {
                if k == 0 {
                    assert(ls[k][j] == d[i + j]);
                } else {
                    assert(ls[k] == rest[k - 1]);
                    if e + 1 < d.len() {
                        let m = choose|m: int| e + 1 <= m < d.len() && #[trigger] rest[k - 1][j]
                            == d[m];
                        assert(ls[k][j] == d[m]);
                    }
                }
            }
        },
    }
}

/// A coloured line, its codes removed, is the line.
proof fn lemma_colored_line_strips(l: Seq<char>)
    requires
        forall|j: int| 0 <= j < l.len() ==> #[trigger] l[j] != '\x1b',
    ensures
        crate::repl::strip_ansi_state(colored_line(l)) == (l, false),
{
    reveal_strlit("\x1b[1m");
    reveal_strlit("\x1b[36m");
    reveal_strlit("\x1b[32m");
    reveal_strlit("\x1b[31m");
    reveal_strlit("\x1b[0m");
    assert(bold() =~= seq!['\x1b'] + seq!['[', '1'] + seq!['m']);
    assert(cyan() =~= seq!['\x1b'] + seq!['[', '3', '6'] + seq!['m']);
    assert(green() =~= seq!['\x1b'] + seq!['[', '3', '2'] + seq!['m']);
    assert(red() =~= seq!['\x1b'] + seq!['[', '3', '1'] + seq!['m']);
    assert(reset() =~= seq!['\x1b'] + seq!['[', '0'] + seq!['m']);
    crate::repl::lemma_strip_ansi_sgr(seq!['[', '1']);
    crate::repl::lemma_strip_ansi_sgr(seq!['[', '3', '6']);
    crate::repl::lemma_strip_ansi_sgr(seq!['[', '3', '2']);
    crate::repl::lemma_strip_ansi_sgr(seq!['[', '3', '1']);
    crate::repl::lemma_strip_ansi_sgr(seq!['[', '0']);
    crate::repl::lemma_strip_ansi_plain(l);
    let c = if starts_with(l, "diff --git"@) || starts_with(l, "---"@) || starts_with(l, "+++"@) {
        bold()
    } else if starts_with(l, "@@"@) {
        cyan()
    } else if starts_with(l, "+"@) {
        green()
    } else if starts_with(l, "-"@) {
        red()
    } else {
        Seq::empty()
    };
    if c.len() > 0 {
        assert(colored_line(l) == c + l + reset());
        crate::repl::lemma_strip_ansi_append(c, l);
        assert(Seq::<char>::empty() + l =~= l);
        crate::repl::lemma_strip_ansi_append(c + l, reset());
        assert(l + Seq::<char>::empty() =~= l);
    }
}

/// Coloured lines, their codes removed, are the lines each followed by a newline.
proof fn lemma_colored_lines_strip(ls: Seq<Seq<char>>)
    requires
        forall|k: int, j: int| 0 <= k < ls.len() && 0 <= j < ls[k].len() ==> #[trigger] ls[k][j]
            != '\x1b',
    ensures
        crate::repl::strip_ansi_state(colored_lines(ls)) == (newline_terminated(ls), false),
    decreases ls.len(),
{
    reveal_strlit("\n");
    if ls.len() > 0 {
        let dl = ls.drop_last();
        assert forall|k: int, j: int| 0 <= k < dl.len() && 0 <= j < dl[k].len() implies #[trigger] dl[k][j]
            != '\x1b' by {
            assert(dl[k] == ls[k]);
        }
        lemma_colored_lines_strip(dl);
        let l = ls.last();
        assert forall|j: int| 0 <= j < l.len() implies #[trigger] l[j] != '\x1b' by {
            assert(l == ls[ls.len() - 1]);
        }
        lemma_colored_line_strips(l);
        crate::repl::lemma_strip_ansi_append(colored_lines(dl), colored_line(l));
        crate::repl::lemma_strip_ansi_plain("\n"@);
        crate::repl::lemma_strip_ansi_append(colored_lines(dl) + colored_line(l), "\n"@);
    }
}

/// Removing the colour codes from a coloured diff gives the diff back: every line is
/// kept, whole and in its place, and only wrapped in a colour. (For a diff with no escape
/// and no carriage-return characters of its own.)
pub proof fn law_colorize_keeps_the_diff(diff: Seq<char>)
    requires
        forall|j: int| 0 <= j < diff.len() ==> #[trigger] diff[j] != '\x1b' && diff[j] != '\r',
    ensures
        crate::repl::strip_ansi(colorized(diff)) == diff,
{
    reveal_strlit("\n");
    if diff.len() == 0 {
        assert(crate::repl::strip_ansi_state(Seq::<char>::empty()).0 == Seq::<char>::empty());
    } else {
        let ls = lines(diff);
        lemma_lines_rejoin(diff, 0);
        assert forall|k: int, j: int| 0 <= k < ls.len() && 0 <= j < ls[k].len() implies #[trigger] ls[k][j]
            != '\x1b' by {
            let m = choose|m: int| 0 <= m < diff.len() && #[trigger] ls[k][j] == diff[m];
            assert(diff[m] != '\x1b');
        }
        lemma_colored_lines_strip(ls);
        assert(diff.skip(0) =~= diff);
        let body = colored_lines(ls);
        let ends = ends_with(diff, "\n"@);
        assert("\n"@ =~= seq!['\n']);
        assert(ends <==> diff.last() == '\n') by {
            assert(diff.subrange(diff.len() - 1, diff.len() as int) =~= seq![diff.last()]);
        }
        if !ends {
            assert(ls.len() > 0) by {
                if ls.len() == 0 {
                    assert(newline_terminated(ls) == Seq::<char>::empty());
                }
            }
            let dl = ls.drop_last();
            let l = ls.last();
            assert(body == colored_lines(dl) + colored_line(l) + "\n"@);
            assert(body.drop_last() =~= colored_lines(dl) + colored_line(l));
            assert(ends_with(body, "\n"@)) by {
                assert(body.subrange(body.len() - 1, body.len() as int) =~= "\n"@);
            }
            assert forall|k: int, j: int| 0 <= k < dl.len() && 0 <= j < dl[k].len() implies #[trigger] dl[k][j]
                != '\x1b' by {
                assert(dl[k] == ls[k]);
            }
            lemma_colored_lines_strip(dl);
            assert forall|j: int| 0 <= j < l.len() implies #[trigger] l[j] != '\x1b' by {
                assert(l == ls[ls.len() - 1]);
            }
            lemma_colored_line_strips(l);
            crate::repl::lemma_strip_ansi_append(colored_lines(dl), colored_line(l));
            assert(newline_terminated(ls) == newline_terminated(dl) + l + "\n"@);
            assert((newline_terminated(dl) + l + "\n"@).drop_last() =~= newline_terminated(dl) + l);
            assert((diff + "\n"@).drop_last() =~= diff);
        }
    }
}

/// How one diff line is shown: file headers bold, hunk headers cyan, additions green,
/// deletions red, each closed by a reset; context lines untouched.
pub proof fn law_colorize_one_line(l: Seq<char>)
    requires
        forall|j: int| 0 <= j < l.len() ==> #[trigger] l[j] != '\n' && l[j] != '\r',
    ensures
        (starts_with(l, "diff --git"@) || starts_with(l, "---"@) || starts_with(l, "+++"@))
            ==> colorized(l + "\n"@) == "\x1b[1m"@ + l + "\x1b[0m"@ + "\n"@,
        starts_with(l, "@@"@) ==> colorized(l + "\n"@) == "\x1b[36m"@ + l + "\x1b[0m"@ + "\n"@,
        (starts_with(l, "+"@) && !starts_with(l, "+++"@)) ==> colorized(l + "\n"@) == "\x1b[32m"@
            + l + "\x1b[0m"@ + "\n"@,
        (starts_with(l, "-"@) && !starts_with(l, "---"@)) ==> colorized(l + "\n"@) == "\x1b[31m"@
            + l + "\x1b[0m"@ + "\n"@,
        !starts_with(l, "+"@) && !starts_with(l, "-"@) && !starts_with(l, "@@"@) && !starts_with(
            l,
            "diff --git"@,
        ) ==> colorized(l + "\n"@) == l + "\n"@,
{
    reveal_strlit("\n");
    let d = l + "\n"@;
    assert(d[l.len() as int] == '\n');
    assert forall|j: int| 0 <= j < d.len() implies #[trigger] d[j] != '\r' by {
        if j < l.len() {
            assert(d[j] == l[j]);
        }
    }
    lemma_find_char_from(d, '\n', 0);
    match find_char_from(d, '\n', 0) {
        Some(e) => {
            if e < l.len() {
                assert(d[e] == l[e]);
            }
        },
        None => {},
    }
    assert(d.subrange(0, l.len() as int) =~= l);
    if l.len() > 0 {
        assert(l.last() == l[l.len() - 1]);
    }
    assert(crate::text::strip_cr(l) == l);
    assert(find_char_from(d, '\n', 0) == Some(l.len() as int));
    assert(crate::text::lines_from(d, d.len() as int) == Seq::<Seq<char>>::empty());
    assert(lines(d) =~= seq![l]);
    assert(seq![l].drop_last() =~= Seq::<Seq<char>>::empty());
    assert(colored_lines(Seq::<Seq<char>>::empty()) == Seq::<char>::empty());
    assert(colored_lines(seq![l]) =~= colored_line(l) + "\n"@);
    assert("\n"@ =~= seq!['\n']);
    assert(ends_with(d, "\n"@)) by {
        assert(d.subrange(d.len() - 1, d.len() as int) =~= "\n"@);
    }
    reveal_strlit("+++");
    reveal_strlit("+");
    reveal_strlit("---");
    reveal_strlit("-");
    reveal_strlit("@@");
    reveal_strlit("diff --git");
    assert("+"@ =~= seq!['+'] && "-"@ =~= seq!['-']);
    if starts_with(l, "+++"@) {
        assert(l.subrange(0, 1) =~= "+"@);
    }
    if starts_with(l, "---"@) {
        assert(l.subrange(0, 1) =~= "-"@);
    }
    if l.len() > 0 {
        assert(starts_with(l, "+"@) <==> l[0] == '+') by {
            if starts_with(l, "+"@) {
                assert(l.subrange(0, 1)[0] == "+"@[0]);
            }
            if l[0] == '+' {
                assert(l.subrange(0, 1) =~= "+"@);
            }
        }
        assert(starts_with(l, "-"@) <==> l[0] == '-') by {
            if starts_with(l, "-"@) {
                assert(l.subrange(0, 1)[0] == "-"@[0]);
            }
            if l[0] == '-' {
                assert(l.subrange(0, 1) =~= "-"@);
            }
        }
        assert(starts_with(l, "@@"@) ==> l[0] == '@') by {
            if starts_with(l, "@@"@) {
                assert(l.subrange(0, 2)[0] == l[0]);
            }
        }
        assert(starts_with(l, "diff --git"@) ==> l[0] == 'd') by {
            if starts_with(l, "diff --git"@) {
                assert(l.subrange(0, 10)[0] == l[0]);
            }
        }
        assert(starts_with(l, "+++"@) ==> l[0] == '+') by {
            if starts_with(l, "+++"@) {
                assert(l.subrange(0, 3)[0] == l[0]);
            }
        }
        assert(starts_with(l, "---"@) ==> l[0] == '-') by {
            if starts_with(l, "---"@) {
                assert(l.subrange(0, 3)[0] == l[0]);
            }
        }
    }
}

fn push_colored(out: &mut Vec<char>, line: &[char])
    ensures
        final(out)@ == old(out)@ + colored_line(line@),
{
    if starts_with_str(line, "diff --git") || starts_with_str(line, "---") || starts_with_str(
        line,
        "+++",
    ) {
        extend_str(out, "\x1b[1m");
        extend(out, line);
        extend_str(out, "\x1b[0m");
    } else if starts_with_str(line, "@@") {
        extend_str(out, "\x1b[36m");
        extend(out, line);
        extend_str(out, "\x1b[0m");
    } else if starts_with_str(line, "+") {
        extend_str(out, "\x1b[32m");
        extend(out, line);
        extend_str(out, "\x1b[0m");
    } else if starts_with_str(line, "-") {
        extend_str(out, "\x1b[31m");
        extend(out, line);
        extend_str(out, "\x1b[0m");
    } else {
        extend(out, line);
    }
}

/// Apply ANSI colours to a unified diff, line by line.
pub fn colorize_diff(diff: &str) -> (r: String)
    ensures
        r@ == colorized(diff@),
{
    let d = chars_of(diff);
    if d.len() == 0 {
        return String::new();
    }
    let ls = lines_vec(d.as_slice());
    let ghost lv = views(ls@);
    let mut out: Vec<char> = Vec::new();
    let mut i: usize = 0;
    while i < ls.len()
        invariant
            i <= ls@.len(),
            lv == views(ls@),
            out@ == colored_lines(lv.take(i as int)),
        decreases ls.len() - i,
    {
        assert(lv.take(i + 1).drop_last() =~= lv.take(i as int));
        assert(lv.take(i + 1).last() == ls@[i as int]@);
        push_colored(&mut out, ls[i].as_slice());
        extend_str(&mut out, "\n");
        i = i + 1;
    }
    assert(lv.take(ls.len() as int) =~= lv);
    assert(out@ == colored_lines(lines(diff@)));
    if !ends_with_str(d.as_slice(), "\n") && ends_with_str(out.as_slice(), "\n") {
        let ghost before = out@;
        proof {
            reveal_strlit("\n");
        }
        out.pop();
        assert(out@ =~= before.drop_last());
    }
    string_of(out.as_slice())
}

// ───────────────────────────── stash list ─────────────────────────────

/// One `stash@{N}: <type> on <branch>: <message>` line: the ref in yellow, the middle
/// dimmed and the message (which keeps its leading colon) in bold.
pub open spec fn stash_line(line: Seq<char>) -> Seq<char> {
    match find(line, ":"@) {
        Some(p) => {
            let stash_ref = line.take(p);
            let rest = line.skip(p);
            match find(rest.skip(1), ":"@) {
                Some(q) => "  "@ + yellow() + stash_ref + reset() + dim() + rest.take(q + 1)
                    + reset() + ":"@ + bold() + rest.skip(q + 1) + reset() + "\n"@,
                None => "  "@ + yellow() + stash_ref + reset() + dim() + rest + reset() + "\n"@,
            }
        },
        None => "  "@ + dim() + line + reset() + "\n"@,
    }
}

pub open spec fn stash_lines(ls: Seq<Seq<char>>) -> Seq<char>
    decreases ls.len(),
{
    if ls.len() == 0 {
        Seq::empty()
    } else {
        stash_lines(ls.drop_last()) + stash_line(ls.last())
    }
}

/// `git stash list` output with coloured entries, or a dimmed `(no stashes)`.
pub open spec fn stash_list_text(raw: Seq<char>) -> Seq<char> {
    if raw.len() == 0 {
        dim() + "  (no stashes)"@ + reset() + "\n"@
    } else {
        stash_lines(lines(raw))
    }
}

fn push_stash_rest(out: &mut Vec<char>, stash_ref: &[char], rest: &[char])
    requires
        rest@.len() >= 1,
    ensures
        final(out)@ == old(out)@ + (match find(rest@.skip(1), ":"@) {
            Some(q) => "  "@ + yellow() + stash_ref@ + reset() + dim() + rest@.take(q + 1)
                + reset() + ":"@ + bold() + rest@.skip(q + 1) + reset() + "\n"@,
            None => "  "@ + yellow() + stash_ref@ + reset() + dim() + rest@ + reset() + "\n"@,
        }),
{
    let n = rest.len();
    let tail = slice_vec(rest, 1, n);
    assert(tail@ == rest@.skip(1));
    proof {
        lemma_find_from(tail@, ":"@, 0);
    }
    extend_str(out, "  ");
    extend_str(out, "\x1b[33m");
    extend(out, stash_ref);
    extend_str(out, "\x1b[0m");
    extend_str(out, "\x1b[2m");
    match find_str(tail.as_slice(), ":") {
        Some(q) => {
            assert(q + ":"@.len() <= tail@.len());
            proof {
                reveal_strlit(":");
            }
            let middle = slice_vec(rest, 0, q + 1);
            extend(out, middle.as_slice());
            extend_str(out, "\x1b[0m");
            extend_str(out, ":");
            extend_str(out, "\x1b[1m");
            let message = slice_vec(rest, q + 1, n);
            extend(out, message.as_slice());
            extend_str(out, "\x1b[0m");
            extend_str(out, "\n");
        },
        None => {
            extend(out, rest);
            extend_str(out, "\x1b[0m");
            extend_str(out, "\n");
        },
    }
}

fn push_stash_line(out: &mut Vec<char>, line: &[char])
    ensures
        final(out)@ == old(out)@ + stash_line(line@),
{
    proof {
        lemma_find_from(line@, ":"@, 0);
        reveal_strlit(":");
    }
    match find_str(line, ":") {
        Some(p) => {
            let stash_ref = slice_vec(line, 0, p);
            let rest = slice_vec(line, p, line.len());
            push_stash_rest(out, stash_ref.as_slice(), rest.as_slice());
        },
        None => {
            extend_str(out, "  ");
            extend_str(out, "\x1b[2m");
            extend(out, line);
            extend_str(out, "\x1b[0m");
            extend_str(out, "\n");
        },
    }
}

/// Format `git stash list` output with coloured entries.
pub fn format_stash_list(raw: &str) -> (r: String)
    ensures
        r@ == stash_list_text(raw@),
{
    let d = chars_of(raw);
    let mut out: Vec<char> = Vec::new();
    if d.len() == 0 {
        extend_str(&mut out, "\x1b[2m");
        extend_str(&mut out, "  (no stashes)");
        extend_str(&mut out, "\x1b[0m");
        extend_str(&mut out, "\n");
        return string_of(out.as_slice());
    }
    let ls = lines_vec(d.as_slice());
    let ghost lv = views(ls@);
    let mut i: usize = 0;
    while i < ls.len()
        invariant
            i <= ls@.len(),
            lv == views(ls@),
            out@ == stash_lines(lv.take(i as int)),
        decreases ls.len() - i,
    {
        assert(lv.take(i + 1).drop_last() =~= lv.take(i as int));
        assert(lv.take(i + 1).last() == ls@[i as int]@);
        push_stash_line(&mut out, ls[i].as_slice());
        i = i + 1;
    }
    assert(lv.take(ls.len() as int) =~= lv);
    string_of(out.as_slice())
}


// ───────────────────────────── porcelain status ─────────────────────────────

/// Every line of at least four bytes has character boundaries at bytes 2 and 3, where the
/// status code ends and the file name begins (slicing there must not split a character).
pub open spec fn status_lines_sliceable(porcelain: Seq<char>) -> bool {
    forall|i: int|
        0 <= i < lines(porcelain).len() && byte_len(#[trigger] lines(porcelain)[i]) >= 4 ==> {
            &&& crate::text::char_index_of_byte(lines(porcelain)[i], 2) is Some
            &&& crate::text::char_index_of_byte(lines(porcelain)[i], 3) is Some
        }
}

/// One porcelain line's `(status, filename)`: the first two bytes and everything after the
/// third, both trimmed; nothing for a line under four bytes or with an empty name.
pub open spec fn status_entry(line: Seq<char>) -> Option<(Seq<char>, Seq<char>)> {
    if byte_len(line) < 4 {
        None
    } else {
        let k2 = crate::text::char_index_of_byte(line, 2)->0;
        let k3 = crate::text::char_index_of_byte(line, 3)->0;
        let name = trim(line.skip(k3));
        if name.len() == 0 {
            None
        } else {
            Some((trim(line.take(k2)), name))
        }
    }
}

pub open spec fn status_entries(ls: Seq<Seq<char>>) -> Seq<(Seq<char>, Seq<char>)>
    decreases ls.len(),
{
    if ls.len() == 0 {
        seq![]
    } else {
        match status_entry(ls.last()) {
            Some(e) => status_entries(ls.drop_last()).push(e),
            None => status_entries(ls.drop_last()),
        }
    }
}

pub open spec fn pair_views(v: Seq<(String, String)>) -> Seq<(Seq<char>, Seq<char>)> {
    v.map_values(|p: (String, String)| (p.0@, p.1@))
}

/// Parse `git status --porcelain` output into `(status_code, filename)` pairs.
pub fn parse_status_files(porcelain: &str) -> (r: Vec<(String, String)>)
    requires
        status_lines_sliceable(porcelain@),
    ensures
        pair_views(r@) == status_entries(lines(porcelain@)),
{
    let d = chars_of(porcelain);
    let ls = lines_vec(d.as_slice());
    let ghost lv = views(ls@);
    let mut out: Vec<(String, String)> = Vec::new();
    let mut i: usize = 0;
    while i < ls.len()
        invariant
            i <= ls@.len(),
            lv == views(ls@),
            lv == lines(porcelain@),
            status_lines_sliceable(porcelain@),
            pair_views(out@) == status_entries(lv.take(i as int)),
        decreases ls.len() - i,
    {
        let line = ls[i].as_slice();
        assert(lv[i as int] == line@);
        assert(lv.take(i + 1).drop_last() =~= lv.take(i as int));
        assert(lv.take(i + 1).last() == line@);
        if !crate::text::byte_len_lt(line, 4) {
            let k2 = match crate::text::char_index_of_byte_exec(line, 2) {
                Some(k) => k,
                None => {
                    assert(false);
                    0
                },
            };
            let k3 = match crate::text::char_index_of_byte_exec(line, 3) {
                Some(k) => k,
                None => {
                    assert(false);
                    0
                },
            };
            proof {
                crate::text::lemma_boundary_from(line@, 2, 0);
                crate::text::lemma_boundary_from(line@, 3, 0);
            }
            let name_part = slice_vec(line, k3, line.len());
            let name = trim_vec(name_part.as_slice());
            if name.len() > 0 {
                let status_part = slice_vec(line, 0, k2);
                let status = trim_vec(status_part.as_slice());
                let ghost before = pair_views(out@);
                out.push((string_of(status.as_slice()), string_of(name.as_slice())));
                assert(pair_views(out@) =~= before.push((status@, name@)));
            }
        }
        i = i + 1;
    }
    assert(lv.take(ls.len() as int) =~= lv);
    out
}

// ───────────────────────────── PR descriptions ─────────────────────────────

/// The index of the first line starting with `TITLE:`, scanning from `k`.
pub open spec fn title_line_from(ls: Seq<Seq<char>>, k: int) -> Option<int>
    decreases ls.len() - k,
{
    if k < 0 || k >= ls.len() {
        None
    } else if starts_with(ls[k], "TITLE:"@) {
        Some(k)
    } else {
        title_line_from(ls, k + 1)
    }
}

/// `(title, body)` from a `TITLE: ...\n---\n...` response: the first `TITLE:` line gives
/// the (trimmed, non-empty) title and everything after the first `\n---\n` the body.
pub open spec fn pr_description(response: Seq<char>) -> Option<(Seq<char>, Seq<char>)> {
    let r = trim(response);
    let ls = lines(r);
    match title_line_from(ls, 0) {
        None => None,
        Some(k) => {
            let title = trim(ls[k].skip("TITLE:"@.len() as int));
            if title.len() == 0 {
                None
            } else {
                match find(r, "\n---\n"@) {
                    None => None,
                    Some(p) => Some((title, trim(r.skip(p + "\n---\n"@.len())))),
                }
            }
        },
    }
}

/// The body of a PR description is everything after the first `\n---\n` of the trimmed
/// response, trimmed: later `---` rules, and whatever follows them, stay in the body.
pub proof fn law_pr_body_is_all_after_first_separator(response: Seq<char>)
    ensures
        pr_description(response) matches Some((title, body)) ==> ({
            let r = trim(response);
            &&& find(r, "\n---\n"@) matches Some(p)
            &&& body == trim(r.skip(p + 5))
        }),
{
    reveal_strlit("\n---\n");
}

fn find_title_line(ls: &[Vec<char>]) -> (r: Option<usize>)
    ensures
        r matches Some(k) ==> title_line_from(views(ls@), 0) == Some(k as int) && k < ls@.len()
            && starts_with(ls@[k as int]@, "TITLE:"@),
        r is None ==> title_line_from(views(ls@), 0) is None,
{
    let ghost lv = views(ls@);
    let mut k: usize = 0;
    while k < ls.len()
        invariant
            k <= ls@.len(),
            lv == views(ls@),
            title_line_from(lv, 0) == title_line_from(lv, k as int),
        decreases ls.len() - k,
    {
        assert(lv[k as int] == ls@[k as int]@);
        if starts_with_str(ls[k].as_slice(), "TITLE:") {
            return Some(k);
        }
        k = k + 1;
    }
    None
}

/// Parse the model's response into a PR title and body.
pub fn parse_pr_description(response: &str) -> (r: Option<(String, String)>)
    ensures
        match (r, pr_description(response@)) {
            (Some((t, b)), Some((st, sb))) => t@ == st && b@ == sb,
            (None, None) => true,
            _ => false,
        },
{
    let d = chars_of(response);
    let rv = trim_vec(d.as_slice());
    let ls = lines_vec(rv.as_slice());
    let ghost lv = views(ls@);
    let k = match find_title_line(ls.as_slice()) {
        Some(k) => k,
        None => {
            return None;
        },
    };
    assert(lv[k as int] == ls@[k as int]@);
    let line = ls[k].as_slice();
    let n = chars_of("TITLE:").len();
    let t0 = slice_vec(line, n, line.len());
    let title = trim_vec(t0.as_slice());
    if title.len() == 0 {
        return None;
    }
    proof {
        lemma_find_from(rv@, "\n---\n"@, 0);
    }
    match find_str(rv.as_slice(), "\n---\n") {
        None => None,
        Some(p) => {
            let m = chars_of("\n---\n").len();
            let rn = rv.len();
            assert(p + m <= rn);
            let b0 = slice_vec(rv.as_slice(), p + m, rv.len());
            let body = trim_vec(b0.as_slice());
            Some((string_of(title.as_slice()), string_of(body.as_slice())))
        },
    }
}


/// Diffs longer than this many bytes are cut before they go into the PR prompt.
pub const MAX_PR_DIFF_BYTES: usize = 15000;

/// The diff as the prompt shows it: whole when it fits, else cut on a character boundary
/// with a note of how many bytes were dropped.
pub open spec fn diff_preview(diff: Seq<char>) -> Seq<char> {
    if byte_len(diff) > MAX_PR_DIFF_BYTES {
        crate::text::safe_truncate(diff, MAX_PR_DIFF_BYTES as int) + "\n\n... (diff truncated, "@
            + crate::text::decimal((byte_len(diff) - MAX_PR_DIFF_BYTES) as nat) + " more chars)"@
    } else {
        diff
    }
}

/// The prompt asking for a PR title and description in `TITLE: ...\n---\n...` form.
pub open spec fn pr_prompt(
    branch: Seq<char>,
    base: Seq<char>,
    commits: Seq<char>,
    diff: Seq<char>,
) -> Seq<char> {
    "Generate a pull request title and description for the following changes.\n\nBranch: "@ + branch + " → "@ + base + "\n\nCommits:\n"@ + commits + "\n\nDiff:\n```\n"@ + diff_preview(diff) + "\n```\n\nRespond in EXACTLY this format (no extra text before or after):\n\nTITLE: <concise PR title using conventional commit style>\n---\n<markdown PR description body>\n\nThe description should include:\n- A brief summary of what changed and why\n- Key changes as bullet points\n- Any notable implementation details\n\nKeep it concise but informative."@
}

/// Build the prompt for the model to write a PR title and description.
pub fn build_pr_description_prompt(branch: &str, base: &str, commits: &str, diff: &str) -> (r:
    String)
    ensures
        r@ == pr_prompt(branch@, base@, commits@, diff@),
{
    let d = chars_of(diff);
    let mut preview: Vec<char>;
    if !crate::text::byte_len_lt(d.as_slice(), MAX_PR_DIFF_BYTES + 1) {
        let total = crate::text::byte_len_wide(d.as_slice());
        preview = crate::text::safe_truncate_vec(d.as_slice(), MAX_PR_DIFF_BYTES);
        extend_str(&mut preview, "\n\n... (diff truncated, ");
        let n = crate::text::decimal_vec(total - MAX_PR_DIFF_BYTES as u128);
        extend(&mut preview, n.as_slice());
        extend_str(&mut preview, " more chars)");
    } else {
        preview = d;
    }
    let mut out: Vec<char> = Vec::new();
    extend_str(&mut out, "Generate a pull request title and description for the following changes.\n\nBranch: ");
    extend_str(&mut out, branch);
    extend_str(&mut out, " → ");
    extend_str(&mut out, base);
    extend_str(&mut out, "\n\nCommits:\n");
    extend_str(&mut out, commits);
    extend_str(&mut out, "\n\nDiff:\n```\n");
    extend(&mut out, preview.as_slice());
    extend_str(&mut out, "\n```\n\nRespond in EXACTLY this format (no extra text before or after):\n\nTITLE: <concise PR title using conventional commit style>\n---\n<markdown PR description body>\n\nThe description should include:\n- A brief summary of what changed and why\n- Key changes as bullet points\n- Any notable implementation details\n\nKeep it concise but informative.");
    string_of(out.as_slice())
}


// ───────────────────────────── `/git` arguments ─────────────────────────────

/// Valid words after `/git stash`.
pub const STASH_SUBCOMMANDS: [&'static str; 5] = ["push", "pop", "list", "show", "drop"];

/// A parsed `/git` subcommand.
#[derive(Debug, PartialEq)]
pub enum GitSubcommand {
    /// `/git status`
    Status,
    /// `/git log [n]` (default 5)
    Log(usize),
    /// `/git add <path>`
    Add(String),
    /// `/git stash` or `/git stash push`
    Stash,
    /// `/git stash pop`
    StashPop,
    /// `/git stash list`
    StashList,
    /// `/git stash drop [n]`
    StashDrop(Option<usize>),
    /// `/git stash show [n]`
    StashShow(Option<usize>),
    /// `/git stage`
    Stage,
    /// `/git diff [--cached]`
    Diff { cached: bool },
    /// `/git branch [name]`
    Branch(Option<String>),
    /// Missing or incomplete subcommand.
    Help,
    /// Unrecognised top-level word, as typed.
    Unknown(String),
    /// Unrecognised word after `stash`, as typed (never falls through to `stash push`).
    UnknownStash(String),
    /// `stash drop`/`stash show` with a non-numeric index (never defaults to stash@{0}).
    BadStashIndex { action: String, arg: String },
}

/// The characters of a parsed subcommand.
pub enum GitSubcommandV {
    Status,
    Log(nat),
    Add(Seq<char>),
    Stash,
    StashPop,
    StashList,
    StashDrop(Option<nat>),
    StashShow(Option<nat>),
    Stage,
    Diff { cached: bool },
    Branch(Option<Seq<char>>),
    Help,
    Unknown(Seq<char>),
    UnknownStash(Seq<char>),
    BadStashIndex { action: Seq<char>, arg: Seq<char> },
}

pub open spec fn opt_nat(o: Option<usize>) -> Option<nat> {
    match o {
        Some(n) => Some(n as nat),
        None => None,
    }
}

impl View for GitSubcommand {
    type V = GitSubcommandV;

    open spec fn view(&self) -> GitSubcommandV {
        match self {
            GitSubcommand::Status => GitSubcommandV::Status,
            GitSubcommand::Log(n) => GitSubcommandV::Log(*n as nat),
            GitSubcommand::Add(p) => GitSubcommandV::Add(p@),
            GitSubcommand::Stash => GitSubcommandV::Stash,
            GitSubcommand::StashPop => GitSubcommandV::StashPop,
            GitSubcommand::StashList => GitSubcommandV::StashList,
            GitSubcommand::StashDrop(n) => GitSubcommandV::StashDrop(opt_nat(*n)),
            GitSubcommand::StashShow(n) => GitSubcommandV::StashShow(opt_nat(*n)),
            GitSubcommand::Stage => GitSubcommandV::Stage,
            GitSubcommand::Diff { cached } => GitSubcommandV::Diff { cached: *cached },
            GitSubcommand::Branch(b) => GitSubcommandV::Branch(
                match b {
                    Some(x) => Some(x@),
                    None => None,
                },
            ),
            GitSubcommand::Help => GitSubcommandV::Help,
            GitSubcommand::Unknown(w) => GitSubcommandV::Unknown(w@),
            GitSubcommand::UnknownStash(w) => GitSubcommandV::UnknownStash(w@),
            GitSubcommand::BadStashIndex { action, arg } => GitSubcommandV::BadStashIndex {
                action: action@,
                arg: arg@,
            },
        }
    }
}

/// Index of the first whitespace character at or after `i`.
pub open spec fn ws_from(s: Seq<char>, i: int) -> Option<int>
    decreases s.len() - i,
{
    if i < 0 || i >= s.len() {
        None
    } else if is_ws(s[i]) {
        Some(i)
    } else {
        ws_from(s, i + 1)
    }
}

proof fn lemma_ws_from(s: Seq<char>, i: int)
    requires
        0 <= i,
    ensures
        ws_from(s, i) matches Some(k) ==> i <= k < s.len(),
    decreases s.len() - i,
{
    if i < s.len() && !is_ws(s[i]) {
        lemma_ws_from(s, i + 1);
    }
}

/// `s.splitn(3, char::is_whitespace)`.
pub open spec fn splitn3_ws(s: Seq<char>) -> Seq<Seq<char>> {
    match ws_from(s, 0) {
        None => seq![s],
        Some(a) => {
            let r = s.skip(a + 1);
            match ws_from(r, 0) {
                None => seq![s.take(a), r],
                Some(b) => seq![s.take(a), r.take(b), r.skip(b + 1)],
            }
        },
    }
}

fn ws_index(s: &[char]) -> (r: Option<usize>)
    ensures
        r matches Some(k) ==> ws_from(s@, 0) == Some(k as int) && k < s@.len(),
        r is None ==> ws_from(s@, 0) is None,
{
    let mut i: usize = 0;
    while i < s.len()
        invariant
            i <= s@.len(),
            ws_from(s@, 0) == ws_from(s@, i as int),
        decreases s.len() - i,
    {
        if is_whitespace(s[i]) {
            return Some(i);
        }
        i = i + 1;
    }
    None
}

fn splitn3_ws_exec(s: &[char]) -> (r: Vec<Vec<char>>)
    ensures
        views(r@) == splitn3_ws(s@),
{
    let mut out: Vec<Vec<char>> = Vec::new();
    match ws_index(s) {
        None => {
            out.push(copy_chars(s));
            assert(views(out@) =~= seq![s@]);
        },
        Some(a) => {
            let n = s.len();
            let r = slice_vec(s, a + 1, n);
            assert(r@ =~= s@.skip(a + 1));
            match ws_index(r.as_slice()) {
                None => {
                    out.push(slice_vec(s, 0, a));
                    out.push(r);
                    assert(views(out@) =~= seq![s@.take(a as int), s@.skip(a + 1)]);
                },
                Some(b) => {
                    let rn = r.len();
                    out.push(slice_vec(s, 0, a));
                    out.push(slice_vec(r.as_slice(), 0, b));
                    out.push(slice_vec(r.as_slice(), b + 1, rn));
                    assert(views(out@) =~= seq![
                        s@.take(a as int),
                        r@.take(b as int),
                        r@.skip(b + 1),
                    ]);
                },
            }
        },
    }
    out
}

/// `trim_start_matches('-')`.
pub open spec fn strip_dashes(s: Seq<char>) -> Seq<char> {
    s.skip(crate::text::run_end(s, 0, |c: char| c == '-'))
}

fn strip_dashes_exec(s: &[char]) -> (r: Vec<char>)
    ensures
        r@ == strip_dashes(s@),
{
    let mut i: usize = 0;
    while i < s.len() && s[i] == '-'
        invariant
            i <= s@.len(),
            crate::text::run_end(s@, 0, |c: char| c == '-') == crate::text::run_end(
                s@,
                i as int,
                |c: char| c == '-',
            ),
        decreases s.len() - i,
    {
        i = i + 1;
    }
    proof {
        crate::text::lemma_run_end(s@, 0, |c: char| c == '-');
    }
    slice_vec(s, i, s.len())
}

/// The stash index after `show`/`drop`: absent or blank means none, a number is that
/// index, anything else is refused by name.
pub open spec fn stash_index(parts: Seq<Seq<char>>, action: Seq<char>, some: bool) -> GitSubcommandV {
    if parts.len() < 3 || trim(parts[2]).len() == 0 {
        if some {
            GitSubcommandV::StashShow(None)
        } else {
            GitSubcommandV::StashDrop(None)
        }
    } else {
        match crate::text::parse_unsigned(trim(parts[2]), usize::MAX as nat) {
            Some(n) => if some {
                GitSubcommandV::StashShow(Some(n))
            } else {
                GitSubcommandV::StashDrop(Some(n))
            },
            None => GitSubcommandV::BadStashIndex { action, arg: trim(parts[2]) },
        }
    }
}

/// `/git` subcommand for split words `parts`, given the lowercase of the first word, of the
/// second word, and of the second word with leading dashes stripped.
pub open spec fn git_subcommand_spec(
    parts: Seq<Seq<char>>,
    head: Seq<char>,
    second: Seq<char>,
    second_flag: Seq<char>,
) -> GitSubcommandV {
    if head == "status"@ {
        GitSubcommandV::Status
    } else if head == "log"@ {
        if parts.len() >= 2 {
            match crate::text::parse_unsigned(parts[1], usize::MAX as nat) {
                Some(n) => GitSubcommandV::Log(n),
                None => GitSubcommandV::Log(5),
            }
        } else {
            GitSubcommandV::Log(5)
        }
    } else if head == "add"@ {
        if parts.len() < 2 || trim(parts[1]).len() == 0 {
            GitSubcommandV::Help
        } else {
            GitSubcommandV::Add(join(parts.skip(1), " "@))
        }
    } else if head == "stash"@ {
        if parts.len() >= 2 {
            if second == "pop"@ {
                GitSubcommandV::StashPop
            } else if second == "list"@ {
                GitSubcommandV::StashList
            } else if second == "show"@ {
                stash_index(parts, "show"@, true)
            } else if second == "drop"@ {
                stash_index(parts, "drop"@, false)
            } else if second == "push"@ {
                GitSubcommandV::Stash
            } else {
                GitSubcommandV::UnknownStash(parts[1])
            }
        } else {
            GitSubcommandV::Stash
        }
    } else if head == "stage"@ {
        GitSubcommandV::Stage
    } else if head == "diff"@ {
        GitSubcommandV::Diff { cached: parts.len() >= 2 && second_flag == "cached"@ }
    } else if head == "branch"@ {
        if parts.len() >= 2 && trim(parts[1]).len() != 0 {
            GitSubcommandV::Branch(Some(join(parts.skip(1), " "@)))
        } else {
            GitSubcommandV::Branch(None)
        }
    } else {
        GitSubcommandV::Unknown(parts[0])
    }
}

pub open spec fn string_views(v: Seq<String>) -> Seq<Seq<char>> {
    v.map_values(|s: String| s@)
}

fn parse_index(parts: &[Vec<char>], show: bool) -> (r: GitSubcommand)
    ensures
        r@ == stash_index(
            views(parts@),
            if show {
                "show"@
            } else {
                "drop"@
            },
            show,
        ),
{
    let ghost pv = views(parts@);
    if parts.len() < 3 {
        return if show {
            GitSubcommand::StashShow(None)
        } else {
            GitSubcommand::StashDrop(None)
        };
    }
    assert(pv[2] == parts@[2]@);
    let t = trim_vec(parts[2].as_slice());
    if t.len() == 0 {
        return if show {
            GitSubcommand::StashShow(None)
        } else {
            GitSubcommand::StashDrop(None)
        };
    }
    match crate::text::parse_unsigned_exec(t.as_slice(), usize::MAX as u64) {
        Some(n) => {
            if show {
                GitSubcommand::StashShow(Some(n as usize))
            } else {
                GitSubcommand::StashDrop(Some(n as usize))
            }
        },
        None => {
            let action = if show {
                string_of(chars_of("show").as_slice())
            } else {
                string_of(chars_of("drop").as_slice())
            };
            GitSubcommand::BadStashIndex { action, arg: string_of(t.as_slice()) }
        },
    }
}

fn join_rest(parts: &[Vec<char>]) -> (r: String)
    requires
        parts@.len() >= 1,
    ensures
        r@ == join(views(parts@).skip(1), " "@),
{
    let rest = crate::text::slice_vec_of_vecs(parts, 1);
    let j = join_vec(rest.as_slice(), " ");
    string_of(j.as_slice())
}

/// The subcommand named by already-split words, given the lowercase of the first word
/// (`head`), of the second word (`second`) and of the second word without its leading
/// dashes (`second_flag`); the last two are ignored when there is no second word.
pub fn git_subcommand_of(parts: &[String], head: &str, second: &str, second_flag: &str) -> (r:
    GitSubcommand)
    requires
        parts@.len() >= 1,
    ensures
        r@ == git_subcommand_spec(string_views(parts@), head@, second@, second_flag@),
{
    let ghost pv = string_views(parts@);
    let mut ps: Vec<Vec<char>> = Vec::new();
    let mut i: usize = 0;
    while i < parts.len()
        invariant
            i <= parts@.len(),
            pv == string_views(parts@),
            views(ps@) == pv.take(i as int),
        decreases parts.len() - i,
    {
        let ghost before = views(ps@);
        ps.push(chars_of(parts[i].as_str()));
        assert(views(ps@) =~= before.push(pv[i as int]));
        assert(pv.take(i + 1) =~= pv.take(i as int).push(pv[i as int]));
        i = i + 1;
    }
    assert(pv.take(parts.len() as int) =~= pv);
    let h = chars_of(head);
    let sec = chars_of(second);
    let secf = chars_of(second_flag);
    if eq_str(h.as_slice(), "status") {
        GitSubcommand::Status
    } else if eq_str(h.as_slice(), "log") {
        if ps.len() >= 2 {
            match crate::text::parse_unsigned_exec(ps[1].as_slice(), usize::MAX as u64) {
                Some(n) => GitSubcommand::Log(n as usize),
                None => GitSubcommand::Log(5),
            }
        } else {
            GitSubcommand::Log(5)
        }
    } else if eq_str(h.as_slice(), "add") {
        if ps.len() < 2 || is_blank(ps[1].as_slice()) {
            GitSubcommand::Help
        } else {
            GitSubcommand::Add(join_rest(ps.as_slice()))
        }
    } else if eq_str(h.as_slice(), "stash") {
        if ps.len() >= 2 {
            if eq_str(sec.as_slice(), "pop") {
                GitSubcommand::StashPop
            } else if eq_str(sec.as_slice(), "list") {
                GitSubcommand::StashList
            } else if eq_str(sec.as_slice(), "show") {
                parse_index(ps.as_slice(), true)
            } else if eq_str(sec.as_slice(), "drop") {
                parse_index(ps.as_slice(), false)
            } else if eq_str(sec.as_slice(), "push") {
                GitSubcommand::Stash
            } else {
                GitSubcommand::UnknownStash(string_of(ps[1].as_slice()))
            }
        } else {
            GitSubcommand::Stash
        }
    } else if eq_str(h.as_slice(), "stage") {
        GitSubcommand::Stage
    } else if eq_str(h.as_slice(), "diff") {
        GitSubcommand::Diff { cached: ps.len() >= 2 && eq_str(secf.as_slice(), "cached") }
    } else if eq_str(h.as_slice(), "branch") {
        if ps.len() >= 2 && !is_blank(ps[1].as_slice()) {
            GitSubcommand::Branch(Some(join_rest(ps.as_slice())))
        } else {
            GitSubcommand::Branch(None)
        }
    } else {
        GitSubcommand::Unknown(string_of(ps[0].as_slice()))
    }
}

/// What `parse_git_args` answers: help for a blank argument, otherwise the subcommand of
/// its first three whitespace-separated pieces, matched case-insensitively.
pub open spec fn parse_git_args_spec(arg: Seq<char>) -> GitSubcommandV {
    let t = trim(arg);
    if t.len() == 0 {
        GitSubcommandV::Help
    } else {
        let parts = splitn3_ws(t);
        git_subcommand_spec(
            parts,
            lowercase(parts[0]),
            if parts.len() >= 2 {
                lowercase(parts[1])
            } else {
                Seq::empty()
            },
            if parts.len() >= 2 {
                lowercase(strip_dashes(parts[1]))
            } else {
                Seq::empty()
            },
        )
    }
}

/// Parse the argument string after `/git` into a `GitSubcommand`.
pub fn parse_git_args(arg: &str) -> (r: GitSubcommand)
    ensures
        r@ == parse_git_args_spec(arg@),
{
    let a = chars_of(arg);
    let t = trim_vec(a.as_slice());
    if t.len() == 0 {
        return GitSubcommand::Help;
    }
    let parts = splitn3_ws_exec(t.as_slice());
    let ghost pv = views(parts@);
    let mut strs: Vec<String> = Vec::new();
    let mut i: usize = 0;
    while i < parts.len()
        invariant
            i <= parts@.len(),
            pv == views(parts@),
            string_views(strs@) == pv.take(i as int),
        decreases parts.len() - i,
    {
        let ghost before = string_views(strs@);
        strs.push(string_of(parts[i].as_slice()));
        assert(string_views(strs@) =~= before.push(pv[i as int]));
        assert(pv.take(i + 1) =~= pv.take(i as int).push(pv[i as int]));
        i = i + 1;
    }
    assert(pv.take(parts.len() as int) =~= pv);
    let head = to_lowercase(strs[0].as_str());
    let (second, second_flag) = if strs.len() >= 2 {
        let sf = strip_dashes_exec(parts[1].as_slice());
        let sfs = string_of(sf.as_slice());
        (to_lowercase(strs[1].as_str()), to_lowercase(sfs.as_str()))
    } else {
        (String::new(), String::new())
    };
    git_subcommand_of(strs.as_slice(), head.as_str(), second.as_str(), second_flag.as_str())
}


/// A typo after `stash` never becomes `stash push` (which would stash the whole working
/// tree), and a `stash drop`/`stash show` never falls back to the newest stash unless no
/// index was typed; a numeric index is the one typed.
pub proof fn law_stash_typos_are_never_destructive(arg: Seq<char>)
    ensures
        ({
            let parts = splitn3_ws(trim(arg));
            &&& parse_git_args_spec(arg) is Stash ==> parts.len() < 2 || lowercase(parts[1])
                == "push"@
            &&& (parse_git_args_spec(arg) == GitSubcommandV::StashDrop(None)
                || parse_git_args_spec(arg) == GitSubcommandV::StashShow(None)) ==> parts.len() < 3
                || trim(parts[2]).len() == 0
            &&& parse_git_args_spec(arg) matches GitSubcommandV::StashDrop(Some(n))
                ==> crate::text::parse_unsigned(trim(parts[2]), usize::MAX as nat) == Some(n)
            &&& parse_git_args_spec(arg) matches GitSubcommandV::StashShow(Some(n))
                ==> crate::text::parse_unsigned(trim(parts[2]), usize::MAX as nat) == Some(n)
        }),
{
}

/// `ws_from` finds the first whitespace character: none before it, and it is one.
proof fn lemma_ws_from_first(s: Seq<char>, i: int, k: int)
    requires
        0 <= i <= k < s.len(),
        forall|j: int| i <= j < k ==> !is_ws(#[trigger] s[j]),
        is_ws(s[k]),
    ensures
        ws_from(s, i) == Some(k),
    decreases k - i,
{
    if i < k {
        lemma_ws_from_first(s, i + 1, k);
    }
}

proof fn lemma_ws_from_none(s: Seq<char>, i: int)
    requires
        0 <= i,
        forall|j: int| i <= j < s.len() ==> !is_ws(#[trigger] s[j]),
    ensures
        ws_from(s, i) is None,
    decreases s.len() - i,
{
    if i < s.len() {
        lemma_ws_from_none(s, i + 1);
    }
}

proof fn lemma_ws_from_hit(s: Seq<char>, i: int)
    requires
        0 <= i,
    ensures
        ws_from(s, i) matches Some(k) ==> i <= k < s.len() && is_ws(s[k]),
    decreases s.len() - i,
{
    if i < s.len() && !is_ws(s[i]) {
        lemma_ws_from_hit(s, i + 1);
    }
}

/// A text whose first and last characters are not whitespace is its own trim.
proof fn lemma_trim_of_unpadded(s: Seq<char>)
    requires
        s.len() > 0,
        !is_ws(s[0]),
        !is_ws(s.last()),
    ensures
        trim(s) == s,
{
    assert(crate::text::first_non_ws(s, 0) == 0);
    assert(s.skip(0) =~= s);
    assert(crate::text::end_non_ws(s, s.len() as int) == s.len());
    assert(s.take(s.len() as int) =~= s);
}

/// `/git add` stages the whole path typed after `add`: every word of it, with the spaces
/// between them, and not only the first. Here the path's only whitespace is plain spaces.
#[verifier::spinoff_prover]
#[verifier::rlimit(40)]
pub proof fn law_add_takes_the_whole_path(word: Seq<char>, path: Seq<char>)
    requires
        word.len() > 0,
        forall|j: int| 0 <= j < word.len() ==> !is_ws(#[trigger] word[j]),
        path.len() > 0,
        !is_ws(path[0]),
        !is_ws(path.last()),
        forall|j: int| 0 <= j < path.len() && is_ws(#[trigger] path[j]) ==> path[j] == ' ',
    ensures
        lowercase(word) == "add"@ ==> parse_git_args_spec(word + " "@ + path)
            == GitSubcommandV::Add(path),
{
    reveal_strlit(" ");
    reveal_strlit("add");
    reveal_strlit("status");
    reveal_strlit("log");
    assert("add"@.len() == 3 && "status"@.len() == 6 && "add"@[0] != "log"@[0]);
    let arg = word + " "@ + path;
    assert(arg[0] == word[0]);
    assert(arg.last() == path.last());
    lemma_trim_of_unpadded(arg);
    assert forall|j: int| 0 <= j < word.len() implies !is_ws(#[trigger] arg[j]) by {
        assert(arg[j] == word[j]);
    }
    assert(arg[word.len() as int] == ' ');
    lemma_ws_from_first(arg, 0, word.len() as int);
    let r = arg.skip(word.len() as int + 1);
    assert(r =~= path);
    assert(arg.take(word.len() as int) =~= word);
    let parts = splitn3_ws(arg);
    if lowercase(word) == "add"@ {
        match ws_from(path, 0) {
            None => {
                assert(parts =~= seq![word, path]);
                assert(parts.skip(1) =~= seq![path]);
                lemma_trim_of_unpadded(path);
            },
            Some(b) => {
                lemma_ws_from_hit(path, 0);
                assert(0 < b < path.len() - 1) by {
                    if b == path.len() - 1 {
                        assert(path[b] == path.last());
                    }
                }
                assert(parts =~= seq![word, path.take(b), path.skip(b + 1)]);
                let x = path.take(b);
                let y = path.skip(b + 1);
                assert(parts.skip(1) =~= seq![x, y]);
                assert(seq![x, y].drop_last() =~= seq![x]);
                assert(join(seq![x], " "@) == x);
                assert(join(seq![x, y], " "@) == join(seq![x], " "@) + " "@ + y);
                assert(join(parts.skip(1), " "@) == x + " "@ + y);
                assert(path[b] == ' ');
                assert(x + " "@ + y =~= path);
                let e = crate::text::end_non_ws(x, x.len() as int);
                crate::text::lemma_end_non_ws_bounds(x, x.len() as int);
                assert(crate::text::first_non_ws(x, 0) == 0);
                assert(x.skip(0) =~= x);
                if e == 0 {
                    assert(is_ws(x[0]));
                }
                assert(trim(x).len() == e);
            },
        }
    }
}

// ───────────────────────────── glob matching ─────────────────────────────

/// Every pattern character from `pi` on is `*`.
pub open spec fn only_stars_from(p: Seq<char>, pi: int) -> bool {
    forall|k: int| pi <= k < p.len() ==> p[k] == '*'
}

/// The backtracking glob matcher, one step at a time: `pi`/`ti` are the positions in the
/// pattern and text, `sp` the position of the last `*` seen (`-1` when none) and `st` the
/// text position that star has swallowed up to. A pattern character matches when it is
/// `?` or equals the text character; `*` matches any run.
pub open spec fn glob_run(p: Seq<char>, t: Seq<char>, pi: int, ti: int, sp: int, st: int) -> bool
    decreases t.len() - st, t.len() - ti, p.len() - pi
    when 0 <= pi <= p.len() && 0 <= st <= ti <= t.len() && sp < p.len()
{
    if ti < t.len() {
        if pi < p.len() && (p[pi] == '?' || p[pi] == t[ti]) {
            glob_run(p, t, pi + 1, ti + 1, sp, st)
        } else if pi < p.len() && p[pi] == '*' {
            glob_run(p, t, pi + 1, ti, pi, ti)
        } else if sp >= 0 {
            glob_run(p, t, sp + 1, st + 1, sp, st + 1)
        } else {
            false
        }
    } else {
        only_stars_from(p, pi)
    }
}

/// Whether `pattern` matches all of `text`.
pub open spec fn glob_matches(pattern: Seq<char>, text: Seq<char>) -> bool {
    glob_run(pattern, text, 0, 0, -1, 0)
}

fn glob_match_chars(pat: &[char], txt: &[char]) -> (r: bool)
    ensures
        r == glob_matches(pat@, txt@),
{
    let mut pi: usize = 0;
    let mut ti: usize = 0;
    let mut has_star = false;
    let mut star_pi: usize = 0;
    let mut star_ti: usize = 0;
    while ti < txt.len()
        invariant
            0 <= pi <= pat@.len(),
            star_ti <= ti <= txt@.len(),
            has_star ==> star_pi < pat@.len(),
            !has_star ==> star_ti == 0,
            glob_matches(pat@, txt@) == glob_run(
                pat@,
                txt@,
                pi as int,
                ti as int,
                if has_star { star_pi as int } else { -1 },
                star_ti as int,
            ),
        decreases txt.len() - star_ti, txt.len() - ti, pat.len() - pi,
    {
        if pi < pat.len() && (pat[pi] == '?' || pat[pi] == txt[ti]) {
            pi = pi + 1;
            ti = ti + 1;
        } else if pi < pat.len() && pat[pi] == '*' {
            has_star = true;
            star_pi = pi;
            star_ti = ti;
            pi = pi + 1;
        } else if has_star {
            pi = star_pi + 1;
            star_ti = star_ti + 1;
            ti = star_ti;
        } else {
            return false;
        }
    }
    while pi < pat.len() && pat[pi] == '*'
        invariant
            0 <= pi <= pat@.len(),
            glob_matches(pat@, txt@) == only_stars_from(pat@, pi as int),
        decreases pat.len() - pi,
    {
        pi = pi + 1;
    }
    pi == pat.len()
}

/// Simple glob matching for file paths: `*` matches any run of characters, `?` any one.
pub fn glob_match_simple(pattern: &str, text: &str) -> (r: bool)
    ensures
        r == glob_matches(pattern@, text@),
{
    let pat = chars_of(pattern);
    let txt = chars_of(text);
    glob_match_chars(pat.as_slice(), txt.as_slice())
}


/// Once the pattern is down to a trailing `*`, every rest of a text without `*` matches.
proof fn lemma_star_swallows(p: Seq<char>, t: Seq<char>, k: int)
    requires
        p == seq!['*'],
        0 <= k <= t.len(),
        forall|j: int| 0 <= j < t.len() ==> t[j] != '*',
    ensures
        glob_run(p, t, 1, k, 0, k),
    decreases t.len() - k,
{
    if k < t.len() {
        lemma_star_swallows(p, t, k + 1);
    }
}

/// The pattern `*` matches every text that holds no `*` itself. (A text that starts with
/// `*` is first matched literally, and the matcher then has no star to fall back on.)
pub proof fn law_star_matches_any_text(text: Seq<char>)
    requires
        forall|j: int| 0 <= j < text.len() ==> text[j] != '*',
    ensures
        glob_matches(seq!['*'], text),
{
    let p = seq!['*'];
    lemma_star_swallows(p, text, 0);
    if text.len() > 0 {
        assert(glob_run(p, text, 0, 0, -1, 0) == glob_run(p, text, 1, 0, 0, 0));
    }
}

/// Without a star to fall back on, a run that has matched `pi` pattern characters against
/// as many text characters goes on only while the rest of the pattern spells the rest of
/// the text.
proof fn lemma_literal_run(p: Seq<char>, t: Seq<char>, i: int)
    requires
        forall|j: int| 0 <= j < p.len() ==> p[j] != '*' && p[j] != '?',
        0 <= i <= p.len(),
        i <= t.len(),
    ensures
        glob_run(p, t, i, i, -1, 0) <==> p.skip(i) == t.skip(i),
    decreases t.len() - i,
{
    if i < t.len() {
        if i < p.len() && p[i] == t[i] {
            lemma_literal_run(p, t, i + 1);
            if p.skip(i + 1) == t.skip(i + 1) {
                assert(p.skip(i) =~= seq![p[i]] + p.skip(i + 1));
                assert(t.skip(i) =~= seq![t[i]] + t.skip(i + 1));
            }
            if p.skip(i) == t.skip(i) {
                assert(p.skip(i + 1) =~= p.skip(i).drop_first());
                assert(t.skip(i + 1) =~= t.skip(i).drop_first());
            }
        } else {
            if p.skip(i) == t.skip(i) {
                assert(p.skip(i)[0] == t.skip(i)[0]);
            }
        }
    } else {
        if p.skip(i) == t.skip(i) {
            assert(p.skip(i).len() == 0);
        }
        if only_stars_from(p, i) && i < p.len() {
            assert(p[i] == '*');
        }
        if i == p.len() {
            assert(p.skip(i) =~= t.skip(i));
        }
    }
}

/// A pattern with no `*` and no `?` matches exactly the text it spells.
pub proof fn law_literal_pattern_matches_only_itself(pattern: Seq<char>, text: Seq<char>)
    requires
        forall|j: int| 0 <= j < pattern.len() ==> pattern[j] != '*' && pattern[j] != '?',
    ensures
        glob_matches(pattern, text) <==> pattern == text,
{
    lemma_literal_run(pattern, text, 0);
    assert(pattern.skip(0) =~= pattern);
    assert(text.skip(0) =~= text);
}

// ───────────────────────────── stage selection ─────────────────────────────

/// What one trimmed comma-separated piece of a stage selection picks, as a 0-based index
/// `i` among `n` files: `a-b` picks the 1-based numbers `a..=b` (when `1 <= a <= b`), a
/// lone number `k` picks `k`; numbers beyond the list pick nothing.
pub open spec fn part_selects(part: Seq<char>, n: nat, i: nat) -> bool {
    i < n && match find_char_from(part, '-', 0) {
        Some(k) => match (
            parse_unsigned(trim(part.take(k)), usize::MAX as nat),
            parse_unsigned(trim(part.skip(k + 1)), usize::MAX as nat),
        ) {
            (Some(a), Some(b)) => 1 <= a && a <= b && a <= i + 1 && i + 1 <= b,
            _ => false,
        },
        None => parse_unsigned(part, usize::MAX as nat) == Some(i + 1),
    }
}

/// Whether a list of numbers and ranges such as `1,3-5` picks index `i` of `n`.
pub open spec fn numbers_select(t: Seq<char>, n: nat, i: nat) -> bool {
    let parts = split_char(t, ',');
    exists|j: int| 0 <= j < parts.len() && #[trigger] part_selects(trim(parts[j]), n, i)
}

/// A selection is read as a glob when it holds `*` or `?`.
pub open spec fn is_glob(t: Seq<char>) -> bool {
    t.contains('*') || t.contains('?')
}

/// Whether the typed selection `input` picks file `i` of those named `names`: nothing for
/// an empty answer or `q`, everything for `all` or `a`, the files whose path matches a glob,
/// else the files a list of numbers and ranges names.
pub open spec fn stage_picks(input: Seq<char>, names: Seq<Seq<char>>, i: nat) -> bool {
    let t = trim(input);
    let n = names.len();
    if t.len() == 0 || t == seq!['q'] {
        false
    } else if t == seq!['a', 'l', 'l'] || t == seq!['a'] {
        i < n
    } else if is_glob(t) {
        i < n && glob_matches(t, names[i as int])
    } else {
        numbers_select(t, n, i)
    }
}

/// Leading whitespace does not change a trimmed text.
proof fn lemma_trim_skips_leading_ws(u: Seq<char>, q: Seq<char>)
    requires
        forall|j: int| 0 <= j < u.len() ==> is_ws(#[trigger] u[j]),
    ensures
        trim(u + q) == trim(q),
{
    let s = u + q;
    let f1 = crate::text::first_non_ws(s, 0);
    let f2 = crate::text::first_non_ws(q, 0);
    crate::text::lemma_first_non_ws_bounds(s, 0);
    crate::text::lemma_first_non_ws_bounds(q, 0);
    let g = u.len() + f2;
    assert forall|k: int| 0 <= k < g implies is_ws(#[trigger] s[k]) by {
        if k >= u.len() {
            assert(s[k] == q[k - u.len()]);
        }
    }
    if f1 < g {
        assert(is_ws(s[f1]));
    }
    if f1 > g {
        assert(s[g] == q[f2]);
    }
    assert(f1 == g);
    assert(s.skip(f1) =~= q.skip(f2));
}

/// Splitting `p,q` at commas, where neither piece holds a comma, gives the two pieces.
proof fn lemma_split_two(p: Seq<char>, q: Seq<char>)
    requires
        forall|j: int| 0 <= j < p.len() ==> #[trigger] p[j] != ',',
        forall|j: int| 0 <= j < q.len() ==> #[trigger] q[j] != ',',
    ensures
        split_char(p + ","@ + q, ',') == seq![p, q],
{
    reveal_strlit(",");
    let s = p + ","@ + q;
    let k = p.len() as int;
    assert(s[k] == ',');
    lemma_find_char_from(s, ',', 0);
    match find_char_from(s, ',', 0) {
        Some(e) => {
            if e < k {
                assert(s[e] == p[e]);
            }
        },
        None => {},
    }
    assert(find_char_from(s, ',', 0) == Some(k));
    lemma_find_char_from(s, ',', k + 1);
    match find_char_from(s, ',', k + 1) {
        Some(e) => {
            assert(s[e] == q[e - k - 1]);
        },
        None => {},
    }
    assert(s.subrange(0, k) =~= p);
    assert(s.subrange(k + 1, s.len() as int) =~= q);
    assert(crate::text::split_from(s, ',', k + 1) =~= seq![q]);
    assert(split_char(s, ',') =~= seq![p, q]);
}

/// Each comma-separated piece of a number selection is read trimmed: spaces after a comma
/// change nothing, so `1, 3` picks what `1,3` picks.
#[verifier::spinoff_prover]
#[verifier::rlimit(40)]
pub proof fn law_stage_pieces_are_read_trimmed(
    p: Seq<char>,
    u: Seq<char>,
    q: Seq<char>,
    names: Seq<Seq<char>>,
    i: nat,
)
    requires
        p.len() > 0 && !is_ws(p[0]),
        q.len() > 0 && !is_ws(q.last()),
        forall|j: int| 0 <= j < p.len() ==> #[trigger] p[j] != ',' && p[j] != '*' && p[j] != '?',
        forall|j: int| 0 <= j < q.len() ==> #[trigger] q[j] != ',' && q[j] != '*' && q[j] != '?',
        forall|j: int| 0 <= j < u.len() ==> is_ws(#[trigger] u[j]),
    ensures
        stage_picks(p + ","@ + u + q, names, i) == stage_picks(p + ","@ + q, names, i),
{
    reveal_strlit(",");
    let uq = u + q;
    assert forall|j: int| 0 <= j < uq.len() implies #[trigger] uq[j] != ',' && uq[j] != '*'
        && uq[j] != '?' by {
        if j < u.len() {
            assert(is_ws(u[j]));
        } else {
            assert(uq[j] == q[j - u.len()]);
        }
    }
    let a = p + ","@ + uq;
    let b = p + ","@ + q;
    assert(a =~= p + ","@ + u + q);
    lemma_trim_skips_leading_ws(u, q);
    // both inputs are their own trim
    assert(a[0] == p[0] && b[0] == p[0]);
    assert(a.last() == q.last() && b.last() == q.last());
    lemma_trim_of_unpadded(a);
    lemma_trim_of_unpadded(b);
    // neither is a keyword or a glob
    let k = p.len() as int;
    assert(a[k] == ',' && b[k] == ',');
    assert forall|j: int| 0 <= j < a.len() implies a[j] != '*' && a[j] != '?' by {
        if j < k {
            assert(a[j] == p[j]);
        } else if j > k {
            assert(a[j] == uq[j - k - 1]);
        }
    }
    assert forall|j: int| 0 <= j < b.len() implies b[j] != '*' && b[j] != '?' by {
        if j < k {
            assert(b[j] == p[j]);
        } else if j > k {
            assert(b[j] == q[j - k - 1]);
        }
    }
    assert(!a.contains('*') && !a.contains('?') && !b.contains('*') && !b.contains('?'));
    assert(a != seq!['a', 'l', 'l'] && a != seq!['a'] && a != seq!['q']) by {
        if a == seq!['a', 'l', 'l'] {
            assert(a[k] != ',');
        }
    }
    assert(b != seq!['a', 'l', 'l'] && b != seq!['a'] && b != seq!['q']) by {
        if b == seq!['a', 'l', 'l'] {
            assert(b[k] != ',');
        }
    }
    lemma_split_two(p, uq);
    lemma_split_two(p, q);
    let pa = split_char(a, ',');
    let pb = split_char(b, ',');
    let n = names.len();
    assert(trim(pa[1]) == trim(pb[1]));
    assert(numbers_select(a, n, i) == numbers_select(b, n, i)) by {
        if numbers_select(a, n, i) {
            let j = choose|j: int| 0 <= j < pa.len() && #[trigger] part_selects(trim(pa[j]), n, i);
            assert(part_selects(trim(pb[j]), n, i));
        }
        if numbers_select(b, n, i) {
            let j = choose|j: int| 0 <= j < pb.len() && #[trigger] part_selects(trim(pb[j]), n, i);
            assert(part_selects(trim(pa[j]), n, i));
        }
    }
}

/// The paths of `(status, path)` pairs.
pub open spec fn file_names(files: Seq<(String, String)>) -> Seq<Seq<char>> {
    files.map_values(|f: (String, String)| f.1@)
}

/// The 1-based numbers a trimmed piece picks, as the closed range `lo..=hi` (empty when
/// `hi < lo`).
fn part_range(part: &[char]) -> (r: (usize, usize))
    ensures
        forall|n: nat, i: nat|
            #[trigger] part_selects(part@, n, i) <==> (i < n && r.0 <= i + 1 && i + 1 <= r.1),
{
    match find_char(part, '-', 0) {
        Some(k) => {
            proof {
                lemma_find_char_from(part@, '-', 0);
            }
            let n = part.len();
            let head = slice_vec(part, 0, k);
            let tail = slice_vec(part, k + 1, n);
            let a = parse_unsigned_exec(trim_vec(head.as_slice()).as_slice(), usize::MAX as u64);
            let b = parse_unsigned_exec(trim_vec(tail.as_slice()).as_slice(), usize::MAX as u64);
            match (a, b) {
                (Some(a), Some(b)) => {
                    if a >= 1 && b >= a {
                        (a as usize, b as usize)
                    } else {
                        (1, 0)
                    }
                },
                _ => (1, 0),
            }
        },
        None => match parse_unsigned_exec(part, usize::MAX as u64) {
            Some(v) => {
                if v >= 1 {
                    (v as usize, v as usize)
                } else {
                    (1, 0)
                }
            },
            None => (1, 0),
        },
    }
}

/// The positions holding `true`, in increasing order.
fn marked_indices(marks: &[bool]) -> (r: Vec<usize>)
    ensures
        forall|a: int, b: int| 0 <= a < b < r@.len() ==> r@[a] < r@[b],
        forall|k: int| 0 <= k < r@.len() ==> r@[k] < marks@.len(),
        forall|i: int| 0 <= i < marks@.len() ==> (r@.contains(i as usize) <==> marks@[i]),
{
    let mut out: Vec<usize> = Vec::new();
    let mut i: usize = 0;
    while i < marks.len()
        invariant
            i <= marks@.len(),
            forall|a: int, b: int| 0 <= a < b < out@.len() ==> out@[a] < out@[b],
            forall|k: int| 0 <= k < out@.len() ==> out@[k] < i,
            forall|j: int| 0 <= j < i ==> (out@.contains(j as usize) <==> marks@[j]),
        decreases marks.len() - i,
    {
        let ghost before = out@;
        if marks[i] {
            out.push(i);
            assert forall|j: int| 0 <= j < i + 1 implies (out@.contains(j as usize) <==> marks@[j]) by {
                if j < i {
                    if before.contains(j as usize) {
                        let k = choose|k: int| 0 <= k < before.len() && before[k] == j as usize;
                        assert(out@[k] == j as usize);
                    }
                    if out@.contains(j as usize) {
                        let k = choose|k: int| 0 <= k < out@.len() && out@[k] == j as usize;
                        assert(k < before.len());
                        assert(before[k] == j as usize);
                    }
                } else {
                    assert(out@[before.len() as int] == i);
                }
            }
        } else {
            assert forall|j: int| 0 <= j < i + 1 implies (out@.contains(j as usize) <==> marks@[j]) by {
                if j == i && out@.contains(j as usize) {
                    let k = choose|k: int| 0 <= k < out@.len() && out@[k] == j as usize;
                    assert(out@[k] < i);
                }
            }
        }
        i = i + 1;
    }
    out
}

/// Sets every position `z` with `lo <= z + 1 <= hi` to `true`.
fn mark_range(marks: &mut Vec<bool>, lo: usize, hi: usize)
    ensures
        final(marks)@.len() == old(marks)@.len(),
        forall|z: int|
            0 <= z < old(marks)@.len() ==> (final(marks)@[z] <==> (old(marks)@[z] || (lo <= z + 1
                && z + 1 <= hi))),
{
    let n = marks.len();
    let mut x: usize = 0;
    while x < n
        invariant
            x <= n,
            n == old(marks)@.len(),
            marks@.len() == n,
            forall|z: int|
                0 <= z < n ==> (marks@[z] <==> (old(marks)@[z] || (z < x && lo <= z + 1 && z + 1
                    <= hi))),
        decreases n - x,
    {
        if lo <= x + 1 && x + 1 <= hi {
            marks.set(x, true);
        }
        x = x + 1;
    }
}

/// Reads a typed stage selection against the listed `(status, path)` files and returns the
/// picked 0-based indices, sorted and without repeats: numbers (`3`), ranges (`1-3`),
/// comma-separated mixes (`1,3,5-7`), globs (`*.rs`), or `all`/`a`. Out-of-range numbers
/// are dropped.
pub fn parse_stage_selection(input: &str, files: &[(String, String)]) -> (r: Vec<usize>)
    ensures
        forall|a: int, b: int| 0 <= a < b < r@.len() ==> r@[a] < r@[b],
        forall|k: int| 0 <= k < r@.len() ==> r@[k] < files@.len(),
        forall|i: int|
            0 <= i < files@.len() ==> (r@.contains(i as usize) <==> #[trigger] stage_picks(
                input@,
                file_names(files@),
                i as nat,
            )),
{
    let chars = chars_of(input);
    let t = trim_vec(chars.as_slice());
    let n = files.len();
    let ghost names = file_names(files@);
    assert(names.len() == n);
    if t.len() == 0 || (t.len() == 1 && t[0] == 'q') {
        assert(t.len() == 1 ==> t@ =~= seq!['q']);
        return Vec::new();
    }
    let is_all = (t.len() == 3 && t[0] == 'a' && t[1] == 'l' && t[2] == 'l') || (t.len() == 1
        && t[0] == 'a');
    assert(is_all <==> (t@ == seq!['a', 'l', 'l'] || t@ == seq!['a'])) by {
        if t@ == seq!['a', 'l', 'l'] || t@ == seq!['a'] {
            assert(t@.len() == 3 ==> t@[0] == 'a' && t@[1] == 'l' && t@[2] == 'l');
        }
        if t.len() == 3 && t[0] == 'a' && t[1] == 'l' && t[2] == 'l' {
            assert(t@ =~= seq!['a', 'l', 'l']);
        }
        if t.len() == 1 && t[0] == 'a' {
            assert(t@ =~= seq!['a']);
        }
    }
    assert(t@ != seq!['q']) by {
        if t@ == seq!['q'] {
            assert(t@[0] == 'q');
        }
    }
    let mut marks: Vec<bool> = Vec::new();
    if is_all {
        let mut i: usize = 0;
        while i < n
            invariant
                i <= n,
                n == files@.len(),
                marks@.len() == i,
                forall|j: int| 0 <= j < i ==> marks@[j],
            decreases n - i,
        {
            marks.push(true);
            i = i + 1;
        }
    } else if contains_char(t.as_slice(), '*') || contains_char(t.as_slice(), '?') {
        let mut i: usize = 0;
        while i < n
            invariant
                i <= n,
                n == files@.len(),
                names == file_names(files@),
                marks@.len() == i,
                forall|j: int| 0 <= j < i ==> marks@[j] == glob_matches(t@, #[trigger] names[j]),
            decreases n - i,
        {
            let name = chars_of(files[i].1.as_str());
            assert(names[i as int] == files@[i as int].1@);
            marks.push(glob_match_chars(t.as_slice(), name.as_slice()));
            i = i + 1;
        }
    } else {
        let parts = crate::text::split_char_vec(t.as_slice(), ',');
        let ghost pv = views(parts@);
        let mut i: usize = 0;
        while i < n
            invariant
                i <= n,
                marks@.len() == i,
                forall|j: int| 0 <= j < i ==> !marks@[j],
            decreases n - i,
        {
            marks.push(false);
            i = i + 1;
        }
        let mut j: usize = 0;
        while j < parts.len()
            invariant
                j <= parts@.len(),
                pv == views(parts@),
                pv == crate::text::split_char(t@, ','),
                marks@.len() == n,
                forall|x: int|
                    0 <= x < n ==> (marks@[x] <==> exists|y: int|
                        0 <= y < j && #[trigger] part_selects(trim(pv[y]), n as nat, x as nat)),
            decreases parts.len() - j,
        {
            let piece = trim_vec(parts[j].as_slice());
            assert(piece@ == trim(pv[j as int]));
            let (lo, hi) = part_range(piece.as_slice());
            let ghost old_marks = marks@;
            mark_range(&mut marks, lo, hi);
            assert forall|z: int|
                0 <= z < n implies (marks@[z] <==> exists|y: int|
                    0 <= y < j + 1 && #[trigger] part_selects(trim(pv[y]), n as nat, z as nat)) by {
                assert(part_selects(piece@, n as nat, z as nat) <==> (z < n && lo <= z + 1 && z
                    + 1 <= hi));
                if marks@[z] && !old_marks[z] {
                    assert(part_selects(trim(pv[j as int]), n as nat, z as nat));
                }
                if exists|y: int|
                    0 <= y < j + 1 && #[trigger] part_selects(trim(pv[y]), n as nat, z as nat) {
                    let y = choose|y: int|
                        0 <= y < j + 1 && #[trigger] part_selects(trim(pv[y]), n as nat, z as nat);
                    if y < j {
                        assert(old_marks[z]);
                    }
                }
            }
            j = j + 1;
        }
        assert forall|x: int| 0 <= x < n implies (marks@[x] <==> numbers_select(
            t@,
            n as nat,
            x as nat,
        )) by {}
    }
    assert(t@ == trim(input@));
    assert forall|i: int| 0 <= i < n implies marks@[i] == stage_picks(input@, names, i as nat) by {}
    let r = marked_indices(marks.as_slice());
    assert forall|i: int| 0 <= i < files@.len() implies (r@.contains(i as usize)
        <==> #[trigger] stage_picks(input@, file_names(files@), i as nat)) by {
        assert(r@.contains(i as usize) <==> marks@[i]);
    }
    r
}


// ───────────────────────────── change counts ─────────────────────────────

/// A path that names a Rust source file under `src/`.
pub open spec fn is_src_rust(path: Seq<char>) -> bool {
    starts_with(path, "src/"@) && ends_with(path, ".rs"@)
}

/// The trimmed lines of `git log --name-only` output that name Rust files under `src/`,
/// in order, repeats kept.
pub open spec fn src_rust_paths(ls: Seq<Seq<char>>) -> Seq<Seq<char>>
    decreases ls.len(),
{
    if ls.len() == 0 {
        Seq::empty()
    } else {
        let rest = src_rust_paths(ls.drop_last());
        let p = trim(ls.last());
        if p.len() > 0 && is_src_rust(p) {
            rest.push(p)
        } else {
            rest
        }
    }
}

/// How many times `x` occurs in `s`.
pub open spec fn count_of(s: Seq<Seq<char>>, x: Seq<char>) -> nat
    decreases s.len(),
{
    if s.len() == 0 {
        0
    } else {
        count_of(s.drop_last(), x) + if s.last() == x {
            1nat
        } else {
            0nat
        }
    }
}

/// `names`/`counts` list each path of `paths` exactly once, beside the number of times it
/// occurs there.
pub open spec fn is_tally(names: Seq<Seq<char>>, counts: Seq<nat>, paths: Seq<Seq<char>>) -> bool {
    &&& names.len() == counts.len()
    &&& forall|a: int, b: int| 0 <= a < b < names.len() ==> names[a] != names[b]
    &&& forall|a: int|
        0 <= a < names.len() ==> counts[a] == count_of(paths, #[trigger] names[a]) && counts[a]
            > 0
    &&& forall|k: int| 0 <= k < paths.len() ==> names_has(names, #[trigger] paths[k])
}

/// `x` is one of `names`.
pub open spec fn names_has(names: Seq<Seq<char>>, x: Seq<char>) -> bool {
    exists|a: int| 0 <= a < names.len() && names[a] == x
}

/// The paths of a tally.
pub open spec fn tally_names(v: Seq<(String, u32)>) -> Seq<Seq<char>> {
    v.map_values(|e: (String, u32)| e.0@)
}

/// The counts of a tally.
pub open spec fn tally_counts(v: Seq<(String, u32)>) -> Seq<nat> {
    v.map_values(|e: (String, u32)| e.1 as nat)
}

proof fn lemma_count_le(s: Seq<Seq<char>>, x: Seq<char>)
    ensures
        count_of(s, x) <= s.len(),
    decreases s.len(),
{
    if s.len() > 0 {
        lemma_count_le(s.drop_last(), x);
    }
}

proof fn lemma_count_absent(s: Seq<Seq<char>>, x: Seq<char>)
    requires
        forall|k: int| 0 <= k < s.len() ==> s[k] != x,
    ensures
        count_of(s, x) == 0,
    decreases s.len(),
{
    if s.len() > 0 {
        lemma_count_absent(s.drop_last(), x);
    }
}

proof fn lemma_src_paths_len(ls: Seq<Seq<char>>)
    ensures
        src_rust_paths(ls).len() <= ls.len(),
    decreases ls.len(),
{
    if ls.len() > 0 {
        lemma_src_paths_len(ls.drop_last());
    }
}

fn find_name(names: &Vec<Vec<char>>, p: &[char]) -> (r: Option<usize>)
    ensures
        r matches Some(a) ==> a < names@.len() && names@[a as int]@ == p@,
        r is None ==> forall|a: int| 0 <= a < names@.len() ==> names@[a]@ != p@,
{
    let mut a: usize = 0;
    while a < names.len()
        invariant
            a <= names@.len(),
            forall|b: int| 0 <= b < a ==> names@[b]@ != p@,
        decreases names.len() - a,
    {
        if eq_chars(names[a].as_slice(), p) {
            return Some(a);
        }
        a = a + 1;
    }
    None
}

/// Counts, from the output of `git log --name-only --pretty=format:`, how many commits
/// touched each Rust file under `src/`: each such path once, in the order it first appears.
pub fn file_change_counts(log: &str) -> (r: Vec<(String, u32)>)
    requires
        lines(log@).len() <= u32::MAX,
    ensures
        is_tally(tally_names(r@), tally_counts(r@), src_rust_paths(lines(log@))),
{
    let chars = chars_of(log);
    let ls = lines_vec(chars.as_slice());
    let ghost lv = views(ls@);
    let mut names: Vec<Vec<char>> = Vec::new();
    let mut counts: Vec<u32> = Vec::new();
    let mut i: usize = 0;
    while i < ls.len()
        invariant
            i <= ls@.len(),
            lv == views(ls@),
            lv == lines(log@),
            lv.len() <= u32::MAX,
            is_tally(
                views(names@),
                counts@.map_values(|c: u32| c as nat),
                src_rust_paths(lv.take(i as int)),
            ),
        decreases ls.len() - i,
    {
        let ghost paths = src_rust_paths(lv.take(i as int));
        let ghost nv = views(names@);
        let ghost cv = counts@.map_values(|c: u32| c as nat);
        assert(lv.take(i + 1).drop_last() =~= lv.take(i as int));
        assert(lv.take(i + 1).last() == lv[i as int]);
        let p = trim_vec(ls[i].as_slice());
        if p.len() > 0 && starts_with_str(p.as_slice(), "src/") && ends_with_str(p.as_slice(), ".rs") {
            let ghost paths2 = paths.push(p@);
            assert(src_rust_paths(lv.take(i + 1)) == paths2);
            assert forall|x: Seq<char>| count_of(paths2, x) == count_of(paths, x) + if p@ == x {
                1nat
            } else {
                0nat
            } by {
                assert(paths2.drop_last() =~= paths);
            }
            match find_name(&names, p.as_slice()) {
                Some(a) => {
                    proof {
                        lemma_count_le(paths, p@);
                        lemma_src_paths_len(lv.take(i as int));
                    }
                    let c = counts[a];
                    assert(nv[a as int] == p@);
                    assert(c as nat == cv[a as int]);
                    assert(cv[a as int] == count_of(paths, nv[a as int]));
                    counts.set(a, c + 1);
                    let ghost cv2 = counts@.map_values(|c: u32| c as nat);
                    assert forall|b: int| 0 <= b < nv.len() implies cv2[b] == count_of(
                        paths2,
                        #[trigger] nv[b],
                    ) && cv2[b] > 0 by {
                        if b != a {
                            assert(nv[b] != nv[a as int]);
                            assert(cv2[b] == cv[b]);
                        }
                    }
                    assert forall|k: int| 0 <= k < paths2.len() implies names_has(
                        nv,
                        #[trigger] paths2[k],
                    ) by {
                        if k < paths.len() {
                            assert(paths2[k] == paths[k]);
                        } else {
                            assert(nv[a as int] == paths2[k]);
                        }
                    }
                    assert(is_tally(nv, cv2, paths2));
                },
                None => {
                    names.push(p);
                    counts.push(1);
                    let ghost nv2 = views(names@);
                    let ghost cv2 = counts@.map_values(|c: u32| c as nat);
                    assert(nv2 =~= nv.push(p@));
                    assert(cv2 =~= cv.push(1nat));
                    assert forall|k: int| 0 <= k < paths.len() implies paths[k] != p@ by {
                        if paths[k] == p@ {
                            assert(names_has(nv, paths[k]));
                            let b = choose|b: int| 0 <= b < nv.len() && nv[b] == paths[k];
                            assert(nv[b] == names@[b]@);
                        }
                    }
                    proof {
                        lemma_count_absent(paths, p@);
                    }
                    assert forall|k: int| 0 <= k < paths2.len() implies names_has(
                        nv2,
                        #[trigger] paths2[k],
                    ) by {
                        if k < paths.len() {
                            assert(paths2[k] == paths[k]);
                            assert(names_has(nv, paths[k]));
                            let b = choose|b: int| 0 <= b < nv.len() && nv[b] == paths[k];
                            assert(nv2[b] == paths2[k]);
                        } else {
                            assert(nv2[nv.len() as int] == paths2[k]);
                        }
                    }
                    assert forall|a: int, b: int| 0 <= a < b < nv2.len() implies nv2[a] != nv2[b] by {
                        if b == nv.len() {
                            assert(nv2[a] == names@[a]@);
                        }
                    }
                    assert(is_tally(nv2, cv2, paths2));
                },
            }
        } else {
            assert(src_rust_paths(lv.take(i + 1)) == paths);
        }
        i = i + 1;
    }
    assert(lv.take(ls.len() as int) =~= lv);
    let mut out: Vec<(String, u32)> = Vec::new();
    let mut k: usize = 0;
    while k < names.len()
        invariant
            k <= names@.len(),
            names@.len() == counts@.len(),
            tally_names(out@) =~= views(names@).take(k as int),
            tally_counts(out@) =~= counts@.map_values(|c: u32| c as nat).take(k as int),
        decreases names.len() - k,
    {
        let ghost before = out@;
        out.push((string_of(names[k].as_slice()), counts[k]));
        assert(tally_names(out@) =~= tally_names(before).push(names@[k as int]@));
        assert(tally_counts(out@) =~= tally_counts(before).push(counts@[k as int] as nat));
        assert(views(names@).take(k + 1) =~= views(names@).take(k as int).push(names@[k as int]@));
        assert(counts@.map_values(|c: u32| c as nat).take(k + 1) =~= counts@.map_values(
            |c: u32| c as nat,
        ).take(k as int).push(counts@[k as int] as nat));
        k = k + 1;
    }
    assert(views(names@).take(names.len() as int) =~= views(names@));
    assert(counts@.map_values(|c: u32| c as nat).take(counts.len() as int) =~= counts@.map_values(
        |c: u32| c as nat,
    ));
    out
}


// ───────────────────────────── base branch ─────────────────────────────

/// The base branch for a pull request: `main` when it exists, else `master` when that
/// exists, else `main`.
pub open spec fn base_branch(main_exists: bool, master_exists: bool) -> Seq<char> {
    if !main_exists && master_exists {
        "master"@
    } else {
        "main"@
    }
}

/// Picks the base branch for a pull request from whether `main` and `master` resolve.
pub fn detect_base_branch(main_exists: bool, master_exists: bool) -> (r: String)
    ensures
        r@ == base_branch(main_exists, master_exists),
{
    if main_exists {
        return "main".to_owned();
    }
    if master_exists {
        return "master".to_owned();
    }
    "main".to_owned()
}

// ───────────────────────────── destructive invocations ─────────────────────────────

/// Git subcommands that change the repository. `tag` and `branch` are left out: their
/// read-only forms (`git tag --sort=...`, `git branch --show-current`) are in common use.
pub const DESTRUCTIVE_GIT_COMMANDS: [&'static str; 13] = [
    "revert",
    "reset",
    "push",
    "commit",
    "checkout",
    "clean",
    "stash",
    "add",
    "merge",
    "rebase",
    "cherry-pick",
    "rm",
    "mv",
];

/// The views of an argument vector.
pub open spec fn arg_views(args: Seq<&str>) -> Seq<Seq<char>> {
    args.map_values(|a: &str| a@)
}

/// Where the subcommand of `git <args>` stands, starting the scan at `i`, and the
/// positions of the `-C` directories met on the way (in order; each is joined onto the
/// directory resolved so far). `-c`, `--exec-path` and `--namespace` consume a value;
/// other leading flags stand alone. `None` when no subcommand follows, or a `-C` lacks
/// its value.
pub open spec fn invocation_from(args: Seq<Seq<char>>, i: int, dirs: Seq<int>) -> Option<
    (int, Seq<int>),
>
    decreases args.len() + 2 - i,
{
    if i < 0 || i >= args.len() {
        None
    } else if !(args[i].len() > 0 && args[i][0] == '-') {
        Some((i, dirs))
    } else if args[i] == "-C"@ {
        if i + 1 < args.len() {
            invocation_from(args, i + 2, dirs.push(i + 1))
        } else {
            None
        }
    } else if args[i] == "-c"@ || args[i] == "--exec-path"@ || args[i] == "--namespace"@ {
        invocation_from(args, i + 2, dirs)
    } else {
        invocation_from(args, i + 1, dirs)
    }
}

/// Locates the subcommand of `git <args>`, skipping leading global flags, and lists the
/// `-C` directories (as positions in `args`) that move the invocation elsewhere.
pub fn resolve_git_invocation(args: &[&str]) -> (r: Option<(usize, Vec<usize>)>)
    ensures
        r matches Some((k, dirs)) ==> invocation_from(arg_views(args@), 0, Seq::empty())
            == Some((k as int, dirs@.map_values(|d: usize| d as int))),
        r is None ==> invocation_from(arg_views(args@), 0, Seq::empty()) is None,
{
    let ghost av = arg_views(args@);
    let mut dirs: Vec<usize> = Vec::new();
    assert(dirs@.map_values(|d: usize| d as int) =~= Seq::<int>::empty());
    let mut i: usize = 0;
    while i < args.len()
        invariant
            av == arg_views(args@),
            invocation_from(av, 0, Seq::empty()) == invocation_from(
                av,
                i as int,
                dirs@.map_values(|d: usize| d as int),
            ),
        decreases args.len() - i,
    {
        let a = args[i];
        assert(av[i as int] == a@);
        let ghost dv = dirs@.map_values(|d: usize| d as int);
        let first_dash = match first_char(a) {
            Some(c) => c == '-',
            None => false,
        };
        if !first_dash {
            return Some((i, dirs));
        }
        if eq_str_str(a, "-C") {
            if args.len() - i < 2 {
                return None;
            }
            dirs.push(i + 1);
            assert(dirs@.map_values(|d: usize| d as int) =~= dv.push(i + 1));
            if args.len() - i == 2 {
                assert(invocation_from(av, i + 2, dv.push(i + 1)) is None);
                return None;
            }
            i = i + 2;
        } else if eq_str_str(a, "-c") || eq_str_str(a, "--exec-path") || eq_str_str(
            a,
            "--namespace",
        ) {
            if args.len() - i <= 2 {
                assert(invocation_from(av, i + 2, dv) is None);
                return None;
            }
            i = i + 2;
        } else {
            i = i + 1;
        }
    }
    None
}

/// The first character of `s`, if any.
fn first_char(s: &str) -> (r: Option<char>)
    ensures
        r matches Some(c) ==> s@.len() > 0 && c == s@[0],
        r is None ==> s@.len() == 0,
{
    let v = chars_of(s);
    if v.len() == 0 {
        None
    } else {
        Some(v[0])
    }
}

/// Whether two strings are equal.
fn eq_str_str(a: &str, b: &str) -> (r: bool)
    ensures
        r == (a@ == b@),
{
    let v = chars_of(a);
    eq_str(v.as_slice(), b)
}

/// Whether `subcommand` is one of [`DESTRUCTIVE_GIT_COMMANDS`].
pub fn is_destructive_git_command(subcommand: &str) -> (r: bool)
    ensures
        r == exists|k: int|
            0 <= k < DESTRUCTIVE_GIT_COMMANDS@.len() && DESTRUCTIVE_GIT_COMMANDS@[k]@ == subcommand@,
{
    let mut k: usize = 0;
    while k < 13
        invariant
            k <= 13,
            forall|j: int| 0 <= j < k ==> DESTRUCTIVE_GIT_COMMANDS@[j]@ != subcommand@,
        decreases 13 - k,
    {
        if eq_str_str(subcommand, DESTRUCTIVE_GIT_COMMANDS[k]) {
            return true;
        }
        k = k + 1;
    }
    false
}

// ───────────────────────────── status labels and help ─────────────────────────────

/// The coloured label of a porcelain status code in the stage picker.
pub open spec fn status_label(status: Seq<char>) -> Seq<char> {
    if status == "M"@ {
        yellow() + "M"@ + reset()
    } else if status == "A"@ {
        green() + "A"@ + reset()
    } else if status == "D"@ {
        red() + "D"@ + reset()
    } else if status == "R"@ {
        cyan() + "R"@ + reset()
    } else if status == "??"@ {
        dim() + "?"@ + reset()
    } else {
        dim() + status + reset()
    }
}

/// Formats a status code with a coloured label for the stage display.
pub fn format_status_label(status: &str) -> (r: String)
    ensures
        r@ == status_label(status@),
{
    let mut out: Vec<char> = Vec::new();
    if eq_str_str(status, "M") {
        extend_str(&mut out, "\x1b[33m");
        extend_str(&mut out, "M");
    } else if eq_str_str(status, "A") {
        extend_str(&mut out, "\x1b[32m");
        extend_str(&mut out, "A");
    } else if eq_str_str(status, "D") {
        extend_str(&mut out, "\x1b[31m");
        extend_str(&mut out, "D");
    } else if eq_str_str(status, "R") {
        extend_str(&mut out, "\x1b[36m");
        extend_str(&mut out, "R");
    } else if eq_str_str(status, "??") {
        extend_str(&mut out, "\x1b[2m");
        extend_str(&mut out, "?");
    } else {
        extend_str(&mut out, "\x1b[2m");
        extend_str(&mut out, status);
    }
    extend_str(&mut out, "\x1b[0m");
    string_of(out.as_slice())
}

/// The body of the `/git` help.
pub open spec fn git_help_body() -> Seq<char> {
    "  usage: /git status             Show working tree status\n         /git log [n]             Show last n commits (default: 5)\n         /git add <path>          Stage files for commit\n         /git stage               Interactive file staging picker\n         /git diff [--cached]     Show diff (unstaged or staged changes)\n         /git branch [name]       List branches or create & switch\n         /git stash               Stash uncommitted changes (alias: stash push)\n         /git stash pop           Restore stashed changes\n         /git stash list          List all stash entries\n         /git stash show [n]      Show diff of stash entry n\n         /git stash drop [n]      Drop stash entry n"@
}

/// The `/git` help text: the usage table, dimmed, then a blank line.
pub fn git_help_text() -> (r: String)
    ensures
        r@ == dim() + git_help_body() + reset() + "\n\n"@,
{
    let mut out: Vec<char> = Vec::new();
    extend_str(&mut out, "\x1b[2m");
    extend_str(
        &mut out,
        "  usage: /git status             Show working tree status\n         /git log [n]             Show last n commits (default: 5)\n         /git add <path>          Stage files for commit\n         /git stage               Interactive file staging picker\n         /git diff [--cached]     Show diff (unstaged or staged changes)\n         /git branch [name]       List branches or create & switch\n         /git stash               Stash uncommitted changes (alias: stash push)\n         /git stash pop           Restore stashed changes\n         /git stash list          List all stash entries\n         /git stash show [n]      Show diff of stash entry n\n         /git stash drop [n]      Drop stash entry n",
    );
    extend_str(&mut out, "\x1b[0m");
    extend_str(&mut out, "\n\n");
    string_of(out.as_slice())
}


// ───────────────────────────── running a `/git` subcommand ─────────────────────────────

/// `stash@{n}`: the stash a drop or show acts on, the newest when none is named.
pub open spec fn stash_ref(n: Option<nat>) -> Seq<char> {
    "stash@{"@ + decimal(
        match n {
            Some(i) => i,
            None => 0,
        },
    ) + "}"@
}

/// The arguments of the `git` command a `/git` subcommand runs; none for help and the
/// unknown forms, which run nothing.
pub open spec fn git_args_spec(s: GitSubcommandV) -> Option<Seq<Seq<char>>> {
    match s {
        GitSubcommandV::Status => Some(seq!["status"@, "--short"@]),
        GitSubcommandV::Log(n) => Some(seq!["log"@, "--oneline"@, "-n"@, decimal(n)]),
        GitSubcommandV::Add(p) => Some(seq!["add"@, p]),
        GitSubcommandV::Stash => Some(seq!["stash"@, "push"@]),
        GitSubcommandV::StashPop => Some(seq!["stash"@, "pop"@]),
        GitSubcommandV::StashList => Some(seq!["stash"@, "list"@]),
        GitSubcommandV::StashDrop(n) => Some(seq!["stash"@, "drop"@, stash_ref(n)]),
        GitSubcommandV::StashShow(n) => Some(seq!["stash"@, "show"@, "-p"@, stash_ref(n)]),
        GitSubcommandV::Stage => Some(seq!["status"@, "--porcelain"@]),
        GitSubcommandV::Diff { cached } => {
            if cached {
                Some(seq!["diff"@, "--cached"@])
            } else {
                Some(seq!["diff"@])
            }
        },
        GitSubcommandV::Branch(Some(b)) => Some(seq!["checkout"@, "-b"@, b]),
        GitSubcommandV::Branch(None) => Some(seq!["branch"@, "--list"@, "-a"@]),
        _ => None,
    }
}

fn owned(s: &str) -> (r: String)
    ensures
        r@ == s@,
{
    s.to_owned()
}

fn stash_ref_exec(n: Option<usize>) -> (r: String)
    ensures
        r@ == stash_ref(opt_nat(n)),
{
    let i: usize = match n {
        Some(i) => i,
        None => 0,
    };
    let mut out: Vec<char> = Vec::new();
    extend_str(&mut out, "stash@{");
    let d = crate::text::decimal_vec(i as u128);
    extend(&mut out, d.as_slice());
    extend_str(&mut out, "}");
    string_of(out.as_slice())
}

/// The arguments of the `git` command to run for a `/git` subcommand, if any.
pub fn git_args_for(subcmd: &GitSubcommand) -> (r: Option<Vec<String>>)
    ensures
        match r {
            Some(v) => git_args_spec(subcmd@) == Some(string_views(v@)),
            None => git_args_spec(subcmd@) is None,
        },
{
    let mut v: Vec<String> = Vec::new();
    match subcmd {
        GitSubcommand::Status => {
            v.push(owned("status"));
            v.push(owned("--short"));
        },
        GitSubcommand::Log(n) => {
            v.push(owned("log"));
            v.push(owned("--oneline"));
            v.push(owned("-n"));
            let d = crate::text::decimal_vec(*n as u128);
            v.push(string_of(d.as_slice()));
        },
        GitSubcommand::Add(p) => {
            v.push(owned("add"));
            v.push(p.clone());
        },
        GitSubcommand::Stash => {
            v.push(owned("stash"));
            v.push(owned("push"));
        },
        GitSubcommand::StashPop => {
            v.push(owned("stash"));
            v.push(owned("pop"));
        },
        GitSubcommand::StashList => {
            v.push(owned("stash"));
            v.push(owned("list"));
        },
        GitSubcommand::StashDrop(n) => {
            v.push(owned("stash"));
            v.push(owned("drop"));
            v.push(stash_ref_exec(*n));
        },
        GitSubcommand::StashShow(n) => {
            v.push(owned("stash"));
            v.push(owned("show"));
            v.push(owned("-p"));
            v.push(stash_ref_exec(*n));
        },
        GitSubcommand::Stage => {
            v.push(owned("status"));
            v.push(owned("--porcelain"));
        },
        GitSubcommand::Diff { cached } => {
            v.push(owned("diff"));
            if *cached {
                v.push(owned("--cached"));
            }
        },
        GitSubcommand::Branch(Some(b)) => {
            v.push(owned("checkout"));
            v.push(owned("-b"));
            v.push(b.clone());
        },
        GitSubcommand::Branch(None) => {
            v.push(owned("branch"));
            v.push(owned("--list"));
            v.push(owned("-a"));
        },
        _ => {
            return None;
        },
    }
    assert(string_views(v@) == git_args_spec(subcmd@)->0);
    Some(v)
}

/// The message for a git command that failed: git is missing, or what git said.
pub open spec fn git_error_text(e: Seq<char>) -> Seq<char> {
    red() + (if contains(e, "git not found"@) {
        "  error: git not found"@
    } else {
        "  error: "@ + e
    }) + reset() + "\n\n"@
}

/// The message for a read-only git command that failed: not in a repository.
pub open spec fn not_a_repo_text() -> Seq<char> {
    red() + "  error: not in a git repository"@ + reset() + "\n\n"@
}

/// A dimmed note on its own line followed by a blank line.
pub open spec fn dim_note(t: Seq<char>) -> Seq<char> {
    dim() + t + reset() + "\n\n"@
}

/// A green confirmation on its own line followed by a blank line.
pub open spec fn green_note(t: Seq<char>) -> Seq<char> {
    green() + t + reset() + "\n\n"@
}

/// What a `/git` line that names no command says: the word it did not know, or the stash
/// index it could not read. The wording is this library's own.
pub open spec fn unknown_git_text(s: GitSubcommandV) -> Seq<char> {
    match s {
        GitSubcommandV::Unknown(w) => "unknown /git subcommand '"@ + w + "' (see /git help)"@,
        GitSubcommandV::UnknownStash(w) => "unknown /git stash subcommand '"@ + w
            + "' (see /git help)"@,
        GitSubcommandV::BadStashIndex { action, arg } => "invalid stash index '"@ + arg
            + "' for /git stash "@ + action + " (expected a number)"@,
        _ => Seq::empty(),
    }
}

/// A red error line followed by a blank line.
pub open spec fn red_note(t: Seq<char>) -> Seq<char> {
    red() + "  "@ + t + reset() + "\n\n"@
}

/// The lines of `git branch --list -a`, the current branch (`* `) in green and the rest
/// dimmed.
pub open spec fn branch_lines(ls: Seq<Seq<char>>) -> Seq<char>
    decreases ls.len(),
{
    if ls.len() == 0 {
        Seq::empty()
    } else {
        let l = ls.last();
        branch_lines(ls.drop_last()) + (if starts_with(l, "* "@) {
            green()
        } else {
            dim()
        }) + l + reset() + "\n"@
    }
}

/// What a `/git` subcommand prints for what its git command returned, as (standard
/// output, standard error). Help prints the usage whatever came back; an unknown word or
/// an unreadable stash index prints a red line naming it; staging is handled elsewhere
/// and prints nothing here.
pub open spec fn git_report(s: GitSubcommandV, outcome: Result<Seq<char>, Seq<char>>) -> (
    Seq<char>,
    Seq<char>,
) {
    let none = Seq::<char>::empty();
    match s {
        GitSubcommandV::Status => match outcome {
            Ok(t) => (
                if t.len() == 0 {
                    dim_note("  (clean working tree)"@)
                } else {
                    dim() + t + reset() + "\n"@
                },
                none,
            ),
            Err(_) => (none, not_a_repo_text()),
        },
        GitSubcommandV::Log(_) => match outcome {
            Ok(t) => (
                if t.len() == 0 {
                    dim_note("  (no commits yet)"@)
                } else {
                    dim() + t + reset() + "\n"@
                },
                none,
            ),
            Err(_) => (none, not_a_repo_text()),
        },
        GitSubcommandV::Add(p) => match outcome {
            Ok(_) => (green_note("  ✓ staged: "@ + p), none),
            Err(e) => (none, git_error_text(e)),
        },
        GitSubcommandV::Stash | GitSubcommandV::StashPop | GitSubcommandV::StashDrop(_) => match outcome {
            Ok(t) => (green_note("  ✓ "@ + t), none),
            Err(e) => (none, git_error_text(e)),
        },
        GitSubcommandV::StashList => match outcome {
            Ok(t) => (stash_list_text(t), none),
            Err(e) => (none, git_error_text(e)),
        },
        GitSubcommandV::StashShow(_) => match outcome {
            Ok(t) => (
                if t.len() == 0 {
                    dim_note("  (empty stash)"@)
                } else {
                    colorized(t) + "\n"@
                },
                none,
            ),
            Err(e) => (none, git_error_text(e)),
        },
        GitSubcommandV::Diff { cached } => match outcome {
            Ok(t) => (
                if t.len() == 0 {
                    dim_note(
                        "  (no "@ + (if cached {
                            "staged"@
                        } else {
                            "unstaged"@
                        }) + " changes)"@,
                    )
                } else {
                    t + "\n"@
                },
                none,
            ),
            Err(_) => (none, not_a_repo_text()),
        },
        GitSubcommandV::Branch(Some(b)) => match outcome {
            Ok(_) => (green_note("  ✓ switched to new branch '"@ + b + "'"@), none),
            Err(e) => (none, git_error_text(e)),
        },
        GitSubcommandV::Branch(None) => match outcome {
            Ok(t) => (
                if t.len() == 0 {
                    dim_note("  (no branches yet)"@)
                } else {
                    branch_lines(lines(t)) + "\n"@
                },
                none,
            ),
            Err(_) => (none, not_a_repo_text()),
        },
        GitSubcommandV::Help => (dim() + git_help_body() + reset() + "\n\n"@, none),
        GitSubcommandV::Unknown(_) | GitSubcommandV::UnknownStash(_)
        | GitSubcommandV::BadStashIndex { .. } => (red_note(unknown_git_text(s)), none),
        GitSubcommandV::Stage => (none, none),
    }
}

/// What a `/git` subcommand prints: text for standard output and for standard error.
pub struct GitReport {
    pub out: String,
    pub err: String,
}

/// The view of a git command's outcome.
pub open spec fn outcome_view(o: &Result<String, String>) -> Result<Seq<char>, Seq<char>> {
    match o {
        Ok(t) => Ok(t@),
        Err(e) => Err(e@),
    }
}

fn git_error_exec(e: &str) -> (r: Vec<char>)
    ensures
        r@ == git_error_text(e@),
{
    let ev = chars_of(e);
    let mut out: Vec<char> = Vec::new();
    extend_str(&mut out, "\x1b[31m");
    if contains_str(ev.as_slice(), "git not found") {
        extend_str(&mut out, "  error: git not found");
    } else {
        extend_str(&mut out, "  error: ");
        extend_str(&mut out, e);
    }
    extend_str(&mut out, "\x1b[0m");
    extend_str(&mut out, "\n\n");
    out
}

fn not_a_repo_exec() -> (r: Vec<char>)
    ensures
        r@ == not_a_repo_text(),
{
    let mut out: Vec<char> = Vec::new();
    extend_str(&mut out, "\x1b[31m");
    extend_str(&mut out, "  error: not in a git repository");
    extend_str(&mut out, "\x1b[0m");
    extend_str(&mut out, "\n\n");
    out
}

fn note_exec(color: &str, text: &[char]) -> (r: Vec<char>)
    ensures
        r@ == color@ + text@ + reset() + "\n\n"@,
{
    let mut out: Vec<char> = Vec::new();
    extend_str(&mut out, color);
    extend(&mut out, text);
    extend_str(&mut out, "\x1b[0m");
    extend_str(&mut out, "\n\n");
    out
}

fn red_note_exec(text: &[char]) -> (r: Vec<char>)
    ensures
        r@ == red_note(text@),
{
    let mut out: Vec<char> = Vec::new();
    extend_str(&mut out, "\x1b[31m");
    extend_str(&mut out, "  ");
    extend(&mut out, text);
    extend_str(&mut out, "\x1b[0m");
    extend_str(&mut out, "\n\n");
    out
}

fn lit(s: &str) -> (r: Vec<char>)
    ensures
        r@ == s@,
{
    chars_of(s)
}

fn wrapped_line(color: &str, text: &str) -> (r: Vec<char>)
    ensures
        r@ == color@ + text@ + reset() + "\n"@,
{
    let mut out: Vec<char> = Vec::new();
    extend_str(&mut out, color);
    extend_str(&mut out, text);
    extend_str(&mut out, "\x1b[0m");
    extend_str(&mut out, "\n");
    out
}

fn branch_lines_exec(t: &str) -> (r: Vec<char>)
    ensures
        r@ == branch_lines(lines(t@)),
{
    let d = chars_of(t);
    let ls = lines_vec(d.as_slice());
    let ghost lv = views(ls@);
    let mut out: Vec<char> = Vec::new();
    let mut i: usize = 0;
    while i < ls.len()
        invariant
            i <= ls@.len(),
            lv == views(ls@),
            lv == lines(t@),
            out@ == branch_lines(lv.take(i as int)),
        decreases ls.len() - i,
    {
        assert(lv.take(i + 1).drop_last() =~= lv.take(i as int));
        assert(lv.take(i + 1).last() == ls@[i as int]@);
        let l = ls[i].as_slice();
        if starts_with_str(l, "* ") {
            extend_str(&mut out, "\x1b[32m");
        } else {
            extend_str(&mut out, "\x1b[2m");
        }
        extend(&mut out, l);
        extend_str(&mut out, "\x1b[0m");
        extend_str(&mut out, "\n");
        i = i + 1;
    }
    assert(lv.take(ls.len() as int) =~= lv);
    out
}

/// What a `/git` subcommand prints for its git command's outcome (see [`git_report`]).
pub fn git_report_for(subcmd: &GitSubcommand, outcome: &Result<String, String>) -> (r: GitReport)
    ensures
        (r.out@, r.err@) == git_report(subcmd@, outcome_view(outcome)),
{
    let mut out: Vec<char> = Vec::new();
    let mut err: Vec<char> = Vec::new();
    match subcmd {
        GitSubcommand::Status | GitSubcommand::Log(_) => match outcome {
            Ok(t) => {
                if t.as_str().is_empty() {
                    let note = match subcmd {
                        GitSubcommand::Status => lit("  (clean working tree)"),
                        _ => lit("  (no commits yet)"),
                    };
                    out = note_exec("\x1b[2m", note.as_slice());
                } else {
                    out = wrapped_line("\x1b[2m", t.as_str());
                }
            },
            Err(_) => {
                err = not_a_repo_exec();
            },
        },
        GitSubcommand::Add(p) => match outcome {
            Ok(_) => {
                let mut m = lit("  ✓ staged: ");
                extend_str(&mut m, p.as_str());
                out = note_exec("\x1b[32m", m.as_slice());
            },
            Err(e) => {
                err = git_error_exec(e.as_str());
            },
        },
        GitSubcommand::Stash | GitSubcommand::StashPop | GitSubcommand::StashDrop(_) => match outcome {
            Ok(t) => {
                let mut m = lit("  ✓ ");
                extend_str(&mut m, t.as_str());
                out = note_exec("\x1b[32m", m.as_slice());
            },
            Err(e) => {
                err = git_error_exec(e.as_str());
            },
        },
        GitSubcommand::StashList => match outcome {
            Ok(t) => {
                out = chars_of(format_stash_list(t.as_str()).as_str());
            },
            Err(e) => {
                err = git_error_exec(e.as_str());
            },
        },
        GitSubcommand::StashShow(_) => match outcome {
            Ok(t) => {
                if t.as_str().is_empty() {
                    out = note_exec("\x1b[2m", lit("  (empty stash)").as_slice());
                } else {
                    out = chars_of(colorize_diff(t.as_str()).as_str());
                    extend_str(&mut out, "\n");
                }
            },
            Err(e) => {
                err = git_error_exec(e.as_str());
            },
        },
        GitSubcommand::Diff { cached } => match outcome {
            Ok(t) => {
                if t.as_str().is_empty() {
                    let mut m = lit("  (no ");
                    if *cached {
                        extend_str(&mut m, "staged");
                    } else {
                        extend_str(&mut m, "unstaged");
                    }
                    extend_str(&mut m, " changes)");
                    out = note_exec("\x1b[2m", m.as_slice());
                } else {
                    out = chars_of(t.as_str());
                    extend_str(&mut out, "\n");
                }
            },
            Err(_) => {
                err = not_a_repo_exec();
            },
        },
        GitSubcommand::Branch(Some(b)) => match outcome {
            Ok(_) => {
                let mut m = lit("  ✓ switched to new branch '");
                extend_str(&mut m, b.as_str());
                extend_str(&mut m, "'");
                out = note_exec("\x1b[32m", m.as_slice());
            },
            Err(e) => {
                err = git_error_exec(e.as_str());
            },
        },
        GitSubcommand::Branch(None) => match outcome {
            Ok(t) => {
                if t.as_str().is_empty() {
                    out = note_exec("\x1b[2m", lit("  (no branches yet)").as_slice());
                } else {
                    out = branch_lines_exec(t.as_str());
                    extend_str(&mut out, "\n");
                }
            },
            Err(_) => {
                err = not_a_repo_exec();
            },
        },
        GitSubcommand::Help => {
            out = chars_of(git_help_text().as_str());
        },
        GitSubcommand::Unknown(w) => {
            let mut m = lit("unknown /git subcommand '");
            extend_str(&mut m, w.as_str());
            extend_str(&mut m, "' (see /git help)");
            out = red_note_exec(m.as_slice());
        },
        GitSubcommand::UnknownStash(w) => {
            let mut m = lit("unknown /git stash subcommand '");
            extend_str(&mut m, w.as_str());
            extend_str(&mut m, "' (see /git help)");
            out = red_note_exec(m.as_slice());
        },
        GitSubcommand::BadStashIndex { action, arg } => {
            let mut m = lit("invalid stash index '");
            extend_str(&mut m, arg.as_str());
            extend_str(&mut m, "' for /git stash ");
            extend_str(&mut m, action.as_str());
            extend_str(&mut m, " (expected a number)");
            out = red_note_exec(m.as_slice());
        },
        GitSubcommand::Stage => {},
    }
    GitReport { out: string_of(out.as_slice()), err: string_of(err.as_slice()) }
}


// ───────────────────────────── the interactive stage picker ─────────────────────────────

/// The picker's rows for the first `k` files: number, coloured status label, path.
pub open spec fn stage_rows(files: Seq<(Seq<char>, Seq<char>)>, k: int) -> Seq<char>
    decreases k,
{
    if k <= 0 {
        Seq::empty()
    } else {
        stage_rows(files, k - 1) + "    "@ + bold() + decimal(k as nat) + ". "@ + reset() + "["@
            + status_label(files[k - 1].0) + "] "@ + files[k - 1].1 + "\n"@
    }
}

/// The picker's numbered list of files.
pub open spec fn stage_listing(files: Seq<(Seq<char>, Seq<char>)>) -> Seq<char> {
    dim() + "  Modified/untracked files:"@ + reset() + "\n"@ + stage_rows(files, files.len() as int)
}

/// The picker's question.
pub open spec fn stage_prompt() -> Seq<char> {
    "\n  "@ + dim() + "Stage which? (1,3 / 1-3 / *.rs / all / q): "@ + reset()
}

/// Where the stage picker stands after `git status --porcelain`: done with a message, or
/// waiting for the user to choose among the listed files.
pub enum StageStep {
    Done(GitReport),
    Choose { files: Vec<(String, String)>, listing: String, prompt: String },
}

/// Whether every porcelain line of four bytes or more can be cut after its second and
/// third bytes (always so for what git prints).
pub fn porcelain_is_sliceable(porcelain: &str) -> (r: bool)
    ensures
        r == status_lines_sliceable(porcelain@),
{
    let d = chars_of(porcelain);
    let ls = lines_vec(d.as_slice());
    let ghost lv = views(ls@);
    let mut i: usize = 0;
    while i < ls.len()
        invariant
            i <= ls@.len(),
            lv == views(ls@),
            lv == lines(porcelain@),
            forall|j: int|
                0 <= j < i && byte_len(#[trigger] lv[j]) >= 4 ==> {
                    &&& crate::text::char_index_of_byte(lv[j], 2) is Some
                    &&& crate::text::char_index_of_byte(lv[j], 3) is Some
                },
        decreases ls.len() - i,
    {
        let l = ls[i].as_slice();
        assert(lv[i as int] == l@);
        if !crate::text::byte_len_lt(l, 4) {
            let a = crate::text::char_index_of_byte_exec(l, 2);
            let b = crate::text::char_index_of_byte_exec(l, 3);
            if a.is_none() || b.is_none() {
                return false;
            }
        }
        i = i + 1;
    }
    true
}

/// Starts the stage picker from what `git status --porcelain` returned.
pub fn stage_menu(outcome: &Result<String, String>) -> (r: StageStep)
    requires
        outcome matches Ok(p) ==> status_lines_sliceable(p@),
    ensures
        match r {
            StageStep::Done(rep) => match outcome_view(outcome) {
                Err(_) => rep.out@.len() == 0 && rep.err@ == not_a_repo_text(),
                Ok(p) => rep.err@.len() == 0 && if p.len() == 0 {
                    rep.out@ == dim_note("  (nothing to stage — clean working tree)"@)
                } else {
                    status_entries(lines(p)).len() == 0 && rep.out@ == dim_note(
                        "  (nothing to stage)"@,
                    )
                },
            },
            StageStep::Choose { files, listing, prompt } => match outcome_view(outcome) {
                Ok(p) => p.len() > 0 && pair_views(files@) == status_entries(lines(p))
                    && files@.len() > 0 && listing@ == stage_listing(pair_views(files@))
                    && prompt@ == stage_prompt(),
                Err(_) => false,
            },
        },
{
    let porcelain = match outcome {
        Ok(p) => p,
        Err(_) => {
            return StageStep::Done(
                GitReport { out: String::new(), err: string_of(not_a_repo_exec().as_slice()) },
            );
        },
    };
    if porcelain.as_str().is_empty() {
        let out = note_exec("\x1b[2m", lit("  (nothing to stage — clean working tree)").as_slice());
        return StageStep::Done(GitReport { out: string_of(out.as_slice()), err: String::new() });
    }
    let files = parse_status_files(porcelain.as_str());
    if files.len() == 0 {
        let out = note_exec("\x1b[2m", lit("  (nothing to stage)").as_slice());
        return StageStep::Done(GitReport { out: string_of(out.as_slice()), err: String::new() });
    }
    let ghost fv = pair_views(files@);
    let mut listing: Vec<char> = Vec::new();
    extend_str(&mut listing, "\x1b[2m");
    extend_str(&mut listing, "  Modified/untracked files:");
    extend_str(&mut listing, "\x1b[0m");
    extend_str(&mut listing, "\n");
    let ghost head = listing@;
    let mut k: usize = 0;
    while k < files.len()
        invariant
            k <= files@.len(),
            fv == pair_views(files@),
            listing@ == head + stage_rows(fv, k as int),
        decreases files.len() - k,
    {
        extend_str(&mut listing, "    ");
        extend_str(&mut listing, "\x1b[1m");
        let num = crate::text::decimal_vec((k + 1) as u128);
        extend(&mut listing, num.as_slice());
        extend_str(&mut listing, ". ");
        extend_str(&mut listing, "\x1b[0m");
        extend_str(&mut listing, "[");
        let label = format_status_label(files[k].0.as_str());
        extend_str(&mut listing, label.as_str());
        extend_str(&mut listing, "] ");
        extend_str(&mut listing, files[k].1.as_str());
        extend_str(&mut listing, "\n");
        assert(fv[k as int] == (files@[k as int].0@, files@[k as int].1@));
        k = k + 1;
    }
    let mut prompt: Vec<char> = Vec::new();
    extend_str(&mut prompt, "\n  ");
    extend_str(&mut prompt, "\x1b[2m");
    extend_str(&mut prompt, "Stage which? (1,3 / 1-3 / *.rs / all / q): ");
    extend_str(&mut prompt, "\x1b[0m");
    StageStep::Choose {
        files,
        listing: string_of(listing.as_slice()),
        prompt: string_of(prompt.as_slice()),
    }
}

/// The note for an empty selection.
pub open spec fn stage_cancelled_text() -> Seq<char> {
    dim_note("  (cancelled)"@)
}

/// The picker's note when nothing was selected.
pub fn stage_cancelled() -> (r: String)
    ensures
        r@ == stage_cancelled_text(),
{
    string_of(note_exec("\x1b[2m", lit("  (cancelled)").as_slice()).as_slice())
}

/// The error line for a file `git add` refused.
pub open spec fn stage_error_text(path: Seq<char>) -> Seq<char> {
    red() + "  error staging: "@ + path + reset() + "\n"@
}

/// The picker's error line for a file that could not be staged.
pub fn stage_error_line(path: &str) -> (r: String)
    ensures
        r@ == stage_error_text(path@),
{
    let mut m = lit("  error staging: ");
    extend_str(&mut m, path);
    string_of(wrapped_line("\x1b[31m", string_of(m.as_slice()).as_str()).as_slice())
}

/// The closing note after staging `n` files: none when nothing was staged.
pub open spec fn staged_summary_text(n: nat) -> Seq<char> {
    if n == 0 {
        Seq::empty()
    } else {
        green_note("  ✓ staged "@ + decimal(n) + " file"@ + (if n == 1 {
            Seq::empty()
        } else {
            "s"@
        }))
    }
}

/// The picker's closing note.
pub fn staged_summary(n: usize) -> (r: String)
    ensures
        r@ == staged_summary_text(n as nat),
{
    if n == 0 {
        return String::new();
    }
    let mut m = lit("  ✓ staged ");
    let d = crate::text::decimal_vec(n as u128);
    extend(&mut m, d.as_slice());
    extend_str(&mut m, " file");
    if n != 1 {
        extend_str(&mut m, "s");
    } else {
        assert(m@ =~= m@ + Seq::<char>::empty());
    }
    string_of(note_exec("\x1b[32m", m.as_slice()).as_slice())
}

} // verus!
