//! Deterministic commit-message generation for `/commit`: the diff is walked once,
//! every changed file is named and weighed by the lines it changed, and the commit type,
//! scope and summary are read off those weights.
use vstd::prelude::*;
use vstd::utf8::*;
use crate::text::{
    after_last, after_last_vec, before_first, before_first_vec, chars_of, contains, contains_str,
    ends_with, ends_with_str, eq_chars, eq_str, extend, extend_str, find_char_from, join, join_vec,
    lines, lines_vec, matches_at, match_at, rfind_char_before, slice_vec, split_char,
    split_char_vec, starts_with, starts_with_str, string_of, views, decimal, decimal_vec,
    lemma_find_char_from, lemma_rfind_char_before,
};

verus! {

/// What kind of file a changed path is, for commit-type classification. `Code` is the
/// default bucket and wins ties.
#[derive(Debug, Clone, Copy, PartialEq, Eq, Structural)]
pub enum CommitFileCategory {
    Test,
    Docs,
    Chore,
    Code,
}

// ───────────────────────────── classifying paths ─────────────────────────────

/// A directory name that marks test code in some language.
pub open spec fn is_test_dir(c: Seq<char>) -> bool {
    c == "tests"@ || c == "test"@ || c == "spec"@ || c == "__tests__"@
}

/// What precedes the last `.` of a file name (`rsplit_once('.')`), or the whole name.
pub open spec fn stem_before_last_dot(name: Seq<char>) -> Seq<char> {
    match rfind_char_before(name, '.', name.len() as int) {
        Some(k) => name.take(k),
        None => name,
    }
}

/// A test file by shape: a path component `tests`, `test`, `spec` or `__tests__`; a file
/// name holding `.test.` or `.spec.`; or a stem ending in `_test` or `_tests`.
pub open spec fn is_test_path(path: Seq<char>) -> bool {
    let comps = split_char(path, '/');
    let name = after_last(path, '/');
    let stem = stem_before_last_dot(name);
    ||| exists|j: int| 0 <= j < comps.len() && #[trigger] is_test_dir(comps[j])
    ||| contains(name, ".test."@)
    ||| contains(name, ".spec."@)
    ||| ends_with(stem, "_test"@)
    ||| ends_with(stem, "_tests"@)
}

fn is_test_dir_exec(c: &[char]) -> (r: bool)
    ensures
        r == is_test_dir(c@),
{
    eq_str(c, "tests") || eq_str(c, "test") || eq_str(c, "spec") || eq_str(c, "__tests__")
}

fn stem_before_last_dot_vec(name: &[char]) -> (r: Vec<char>)
    ensures
        r@ == stem_before_last_dot(name@),
{
    let mut j = name.len();
    while j > 0
        invariant
            j <= name@.len(),
            rfind_char_before(name@, '.', name@.len() as int) == rfind_char_before(
                name@,
                '.',
                j as int,
            ),
        decreases j,
    {
        if name[j - 1] == '.' {
            return slice_vec(name, 0, j - 1);
        }
        j = j - 1;
    }
    slice_vec(name, 0, name.len())
}

/// Whether `path` is a test file by shape, not by substring: `src/commands_latest.rs` is not
/// one, `tests/x.rs`, `pkg/handler_test.go` and `src/Button.test.tsx` are.
pub fn path_is_test(path: &str) -> (r: bool)
    ensures
        r == is_test_path(path@),
{
    let p = chars_of(path);
    path_is_test_chars(p.as_slice())
}

fn path_is_test_chars(p: &[char]) -> (r: bool)
    ensures
        r == is_test_path(p@),
{
    let comps = split_char_vec(p, '/');
    let ghost cv = views(comps@);
    let mut j: usize = 0;
    while j < comps.len()
        invariant
            j <= comps@.len(),
            cv == views(comps@),
            cv == split_char(p@, '/'),
            forall|k: int| 0 <= k < j ==> !is_test_dir(#[trigger] cv[k]),
        decreases comps.len() - j,
    {
        if is_test_dir_exec(comps[j].as_slice()) {
            assert(is_test_dir(cv[j as int]));
            return true;
        }
        j = j + 1;
    }
    let name = after_last_vec(p, '/');
    if contains_str(name.as_slice(), ".test.") || contains_str(name.as_slice(), ".spec.") {
        return true;
    }
    let stem = stem_before_last_dot_vec(name.as_slice());
    ends_with_str(stem.as_slice(), "_test") || ends_with_str(stem.as_slice(), "_tests")
}

/// The category of one changed path.
pub open spec fn category_of(path: Seq<char>) -> CommitFileCategory {
    if is_test_path(path) {
        CommitFileCategory::Test
    } else if ends_with(path, ".md"@) || starts_with(path, "docs/"@) {
        CommitFileCategory::Docs
    } else if starts_with(path, ".github/"@) || starts_with(path, "scripts/"@) || path
        == "Cargo.toml"@ {
        CommitFileCategory::Chore
    } else {
        CommitFileCategory::Code
    }
}

/// Documentation is recognised by place and by kind: a path that is not a test path is
/// documentation when it lies under `docs/` or is a Markdown file, whatever else it looks
/// like; and only such paths are.
pub proof fn law_docs_paths_are_docs(path: Seq<char>)
    requires
        !is_test_path(path),
    ensures
        starts_with(path, "docs/"@) ==> category_of(path) == CommitFileCategory::Docs,
        ends_with(path, ".md"@) ==> category_of(path) == CommitFileCategory::Docs,
        category_of(path) == CommitFileCategory::Docs ==> starts_with(path, "docs/"@) || ends_with(
            path,
            ".md"@,
        ),
{
}

/// Classifies one changed path.
pub fn commit_file_category(path: &str) -> (r: CommitFileCategory)
    ensures
        r == category_of(path@),
{
    let p = chars_of(path);
    category_of_chars(p.as_slice())
}

fn category_of_chars(p: &[char]) -> (r: CommitFileCategory)
    ensures
        r == category_of(p@),
{
    if path_is_test_chars(p) {
        return CommitFileCategory::Test;
    }
    if ends_with_str(p, ".md") || starts_with_str(p, "docs/") {
        CommitFileCategory::Docs
    } else if starts_with_str(p, ".github/") || starts_with_str(p, "scripts/") || eq_str(
        p,
        "Cargo.toml",
    ) {
        CommitFileCategory::Chore
    } else {
        CommitFileCategory::Code
    }
}

// ───────────────────────────── weighing categories ─────────────────────────────

/// The total weight `ws` gives category `cat`.
pub open spec fn weight_of(ws: Seq<(CommitFileCategory, usize)>, cat: CommitFileCategory) -> nat
    decreases ws.len(),
{
    if ws.len() == 0 {
        0
    } else {
        weight_of(ws.drop_last(), cat) + if ws.last().0 == cat {
            ws.last().1 as nat
        } else {
            0nat
        }
    }
}

/// The category carrying the most weight. Ties go to `Code`, then to `Test`, `Docs` and
/// `Chore` in that order; with no weight at all the answer is `Code`.
pub open spec fn dominant_category(ws: Seq<(CommitFileCategory, usize)>) -> CommitFileCategory {
    pick_dominant(
        weight_of(ws, CommitFileCategory::Code),
        weight_of(ws, CommitFileCategory::Test),
        weight_of(ws, CommitFileCategory::Docs),
        weight_of(ws, CommitFileCategory::Chore),
    )
}

/// The heaviest of the four categories given their weights; ties go to `Code`, then to
/// `Test`, `Docs` and `Chore` in that order.
pub open spec fn pick_dominant(wc: nat, wt: nat, wd: nat, wh: nat) -> CommitFileCategory {
    if wt > wc && wt >= wd && wt >= wh {
        CommitFileCategory::Test
    } else if wd > wc && wd > wt && wd >= wh {
        CommitFileCategory::Docs
    } else if wh > wc && wh > wt && wh > wd {
        CommitFileCategory::Chore
    } else {
        CommitFileCategory::Code
    }
}

/// The dominant category carries at least the weight of every other one, and production
/// code wins whenever no other category outweighs it.
pub proof fn law_dominant_is_heaviest(ws: Seq<(CommitFileCategory, usize)>, cat: CommitFileCategory)
    ensures
        weight_of(ws, cat) <= weight_of(ws, dominant_category(ws)),
        (weight_of(ws, CommitFileCategory::Test) <= weight_of(ws, CommitFileCategory::Code)
            && weight_of(ws, CommitFileCategory::Docs) <= weight_of(ws, CommitFileCategory::Code)
            && weight_of(ws, CommitFileCategory::Chore) <= weight_of(ws, CommitFileCategory::Code))
            ==> dominant_category(ws) == CommitFileCategory::Code,
{
}

proof fn lemma_weight_bound(ws: Seq<(CommitFileCategory, usize)>, cat: CommitFileCategory)
    ensures
        weight_of(ws, cat) <= ws.len() * (usize::MAX as nat),
    decreases ws.len(),
{
    if ws.len() > 0 {
        lemma_weight_bound(ws.drop_last(), cat);
        assert((ws.len() - 1) * (usize::MAX as nat) + (usize::MAX as nat) == ws.len() * (
        usize::MAX as nat)) by (nonlinear_arith);
    }
}

fn weight_of_exec(ws: &[(CommitFileCategory, usize)], cat: CommitFileCategory) -> (r: u128)
    ensures
        r == weight_of(ws@, cat),
{
    let mut total: u128 = 0;
    let mut i: usize = 0;
    while i < ws.len()
        invariant
            i <= ws@.len(),
            total == weight_of(ws@.take(i as int), cat),
        decreases ws.len() - i,
    {
        assert(ws@.take(i + 1).drop_last() =~= ws@.take(i as int));
        proof {
            lemma_weight_bound(ws@.take(i as int), cat);
            assert(i * (usize::MAX as nat) + (usize::MAX as nat) <= (usize::MAX as nat) * (
            usize::MAX as nat)) by (nonlinear_arith)
                requires
                    i < usize::MAX,
            ;
        }
        let (c, w) = ws[i];
        if c == cat {
            total = total + w as u128;
        }
        i = i + 1;
    }
    assert(ws@.take(ws.len() as int) =~= ws@);
    total
}

/// Picks the category carrying the most weight, not the one that happens to appear first.
pub fn dominant_commit_category(weights: &[(CommitFileCategory, usize)]) -> (r:
    CommitFileCategory)
    ensures
        r == dominant_category(weights@),
{
    let wc = weight_of_exec(weights, CommitFileCategory::Code);
    let wt = weight_of_exec(weights, CommitFileCategory::Test);
    let wd = weight_of_exec(weights, CommitFileCategory::Docs);
    let wh = weight_of_exec(weights, CommitFileCategory::Chore);
    // Walk the categories in rank order; a later one must beat the best so far outright.
    let mut best = CommitFileCategory::Code;
    let mut best_weight: u128 = 0;
    if wc > best_weight {
        best_weight = wc;
    }
    if wt > best_weight {
        best = CommitFileCategory::Test;
        best_weight = wt;
    }
    if wd > best_weight {
        best = CommitFileCategory::Docs;
        best_weight = wd;
    }
    if wh > best_weight {
        best = CommitFileCategory::Chore;
    }
    best
}

/// The bare name of a path with its extension(s) stripped, cutting at the first dot:
/// `src/prompt.rs` gives `prompt`, `foo.test.js` gives `foo`.
pub open spec fn file_stem(path: Seq<char>) -> Seq<char> {
    before_first(after_last(path, '/'), '.')
}

/// `file_stem`, on characters.
pub fn file_stem_of_chars(path: &[char]) -> (r: Vec<char>)
    ensures
        r@ == file_stem(path@),
{
    let name = after_last_vec(path, '/');
    before_first_vec(name.as_slice(), '.')
}

/// The bare name of a path with its extension(s) stripped.
pub fn file_stem_of(path: &str) -> (r: String)
    ensures
        r@ == file_stem(path@),
{
    let p = chars_of(path);
    let s = file_stem_of_chars(p.as_slice());
    string_of(s.as_slice())
}


// ───────────────────────────── git-quoted paths ─────────────────────────────

/// Scanning `s` from `i`, the index just past the first `"` that no backslash escapes
/// (`escaped` says whether the character at `i` is escaped).
pub open spec fn quote_end_from(s: Seq<char>, i: int, escaped: bool) -> Option<int>
    decreases s.len() - i,
{
    if i < 0 || i >= s.len() {
        None
    } else if escaped {
        quote_end_from(s, i + 1, false)
    } else if s[i] == '\\' {
        quote_end_from(s, i + 1, true)
    } else if s[i] == '"' {
        Some(i + 1)
    } else {
        quote_end_from(s, i + 1, false)
    }
}

/// Where the git-quoted token at the front of `s` ends (just past its closing quote);
/// `None` when `s` does not open with a quote or never closes it.
pub open spec fn quoted_token_end(s: Seq<char>) -> Option<int> {
    if s.len() > 0 && s[0] == '"' {
        quote_end_from(s, 1, false)
    } else {
        None
    }
}

proof fn lemma_quote_end_from(s: Seq<char>, i: int, escaped: bool)
    requires
        0 <= i,
    ensures
        quote_end_from(s, i, escaped) matches Some(e) ==> i < e <= s.len(),
    decreases s.len() - i,
{
    if 0 <= i < s.len() {
        if escaped {
            lemma_quote_end_from(s, i + 1, false);
        } else if s[i] == '\\' {
            lemma_quote_end_from(s, i + 1, true);
        } else if s[i] != '"' {
            lemma_quote_end_from(s, i + 1, false);
        }
    }
}

/// Finds the end of a git-quoted token at the front of `s`.
fn quoted_token_end_exec(s: &[char]) -> (r: Option<usize>)
    ensures
        r matches Some(e) ==> quoted_token_end(s@) == Some(e as int) && 1 < e <= s@.len(),
        r is None ==> quoted_token_end(s@) is None,
{
    if s.len() == 0 || s[0] != '"' {
        return None;
    }
    let mut escaped = false;
    let mut i: usize = 1;
    while i < s.len()
        invariant
            1 <= i <= s@.len(),
            s@.len() > 0 && s@[0] == '"',
            quoted_token_end(s@) == quote_end_from(s@, i as int, escaped),
        decreases s.len() - i,
    {
        if escaped {
            escaped = false;
        } else if s[i] == '\\' {
            escaped = true;
        } else if s[i] == '"' {
            return Some(i + 1);
        }
        i = i + 1;
    }
    None
}

/// An octal digit.
pub open spec fn is_octal(c: char) -> bool {
    '0' <= c <= '7'
}

/// The value of an octal digit.
pub open spec fn octal_value(c: char) -> nat {
    ((c as u32) - ('0' as u32)) as nat
}

/// The byte a single-character escape `\e` stands for: `\"`, `\\`, `\t`, `\n`, `\r`.
pub open spec fn simple_escape(e: char) -> Option<u8> {
    if e == '"' {
        Some(0x22u8)
    } else if e == '\\' {
        Some(0x5cu8)
    } else if e == 't' {
        Some(0x09u8)
    } else if e == 'n' {
        Some(0x0au8)
    } else if e == 'r' {
        Some(0x0du8)
    } else {
        None
    }
}

/// `prefix` before the bytes of `rest`, when there are any.
pub open spec fn prepend(prefix: Seq<u8>, rest: Option<Seq<u8>>) -> Option<Seq<u8>> {
    match rest {
        Some(r) => Some(prefix + r),
        None => None,
    }
}

/// The bytes that the C-style escaped text `s[i..]` stands for: a plain character gives its
/// UTF-8 bytes, `\"`, `\\`, `\t`, `\n`, `\r` their byte, and exactly three octal digits
/// one byte of that value. Any other escape, a short octal run, a value above 255 or a
/// trailing lone backslash gives `None`.
pub open spec fn unescape_from(s: Seq<char>, i: int) -> Option<Seq<u8>>
    decreases s.len() - i,
{
    if i < 0 || i >= s.len() {
        Some(Seq::empty())
    } else if s[i] != '\\' {
        prepend(encode_scalar(s[i] as u32), unescape_from(s, i + 1))
    } else if i + 1 >= s.len() {
        None
    } else {
        let e = s[i + 1];
        match simple_escape(e) {
            Some(b) => prepend(seq![b], unescape_from(s, i + 2)),
            None => {
                if is_octal(e) && i + 3 < s.len() && is_octal(s[i + 2]) && is_octal(s[i + 3]) {
                    let v = octal_value(e) * 64 + octal_value(s[i + 2]) * 8 + octal_value(
                        s[i + 3],
                    );
                    if v <= 255 {
                        prepend(seq![v as u8], unescape_from(s, i + 4))
                    } else {
                        None
                    }
                } else {
                    None
                }
            },
        }
    }
}

/// The path a git-quoted token (quotes included) stands for: the escapes decoded to
/// bytes and the bytes read as UTF-8. `None` when the token is not quoted at both ends,
/// an escape cannot be read, or the bytes are not valid UTF-8.
pub open spec fn unquote(quoted: Seq<char>) -> Option<Seq<char>> {
    if quoted.len() >= 2 && quoted[0] == '"' && quoted.last() == '"' {
        match unescape_from(quoted.subrange(1, quoted.len() - 1), 0) {
            Some(bytes) => {
                if valid_utf8(bytes) {
                    Some(decode_utf8(bytes))
                } else {
                    None
                }
            },
            None => None,
        }
    } else {
        None
    }
}

/// `String::from_utf8(bytes).ok()`: `Some` exactly when the bytes are valid UTF-8, and
/// then the characters they encode.
#[verifier::external_body]
fn string_from_utf8(bytes: Vec<u8>) -> (r: Option<String>)
    ensures
        r is Some <==> valid_utf8(bytes@),
        r matches Some(s) ==> s@ == decode_utf8(bytes@),
{
    String::from_utf8(bytes).ok()
}

/// Appends the UTF-8 encoding of `c`.
fn push_utf8(out: &mut Vec<u8>, c: char)
    ensures
        final(out)@ == old(out)@ + encode_scalar(c as u32),
{
    let v = c as u32;
    if v <= 0x7F {
        out.push((v & 0x7F) as u8);
    } else if v <= 0x7FF {
        out.push(0xC0u8 | ((v >> 6) & 0x1F) as u8);
        out.push(0x80u8 | (v & 0x3F) as u8);
    } else if v <= 0xFFFF {
        out.push(0xE0u8 | ((v >> 12) & 0x0F) as u8);
        out.push(0x80u8 | ((v >> 6) & 0x3F) as u8);
        out.push(0x80u8 | (v & 0x3F) as u8);
    } else {
        out.push(0xF0u8 | ((v >> 18) & 0x7) as u8);
        out.push(0x80u8 | ((v >> 12) & 0x3F) as u8);
        out.push(0x80u8 | ((v >> 6) & 0x3F) as u8);
        out.push(0x80u8 | (v & 0x3F) as u8);
    }
}

fn octal_of(c: char) -> (r: Option<u32>)
    ensures
        r matches Some(v) ==> is_octal(c) && v == octal_value(c),
        r is None ==> !is_octal(c),
{
    if '0' <= c && c <= '7' {
        Some(c as u32 - '0' as u32)
    } else {
        None
    }
}

/// Decodes the C-style escapes of `s` into bytes.
fn unescape(s: &[char]) -> (r: Option<Vec<u8>>)
    ensures
        r matches Some(b) ==> unescape_from(s@, 0) == Some(b@),
        r is None ==> unescape_from(s@, 0) is None,
{
    let mut out: Vec<u8> = Vec::new();
    let mut i: usize = 0;
    while i < s.len()
        invariant
            i <= s@.len(),
            unescape_from(s@, 0) == prepend(out@, unescape_from(s@, i as int)),
        decreases s.len() - i,
    {
        let ghost before = out@;
        let c = s[i];
        if c != '\\' {
            push_utf8(&mut out, c);
            assert(prepend(before, unescape_from(s@, i as int)) == prepend(
                out@,
                unescape_from(s@, i + 1),
            )) by {
                if let Some(r) = unescape_from(s@, i + 1) {
                    assert(before + (encode_scalar(c as u32) + r) =~= out@ + r);
                }
            }
            i = i + 1;
        } else {
            if i + 1 >= s.len() {
                return None;
            }
            let e = s[i + 1];
            let simple: Option<u8> = if e == '"' {
                Some(0x22u8)
            } else if e == '\\' {
                Some(0x5cu8)
            } else if e == 't' {
                Some(0x09u8)
            } else if e == 'n' {
                Some(0x0au8)
            } else if e == 'r' {
                Some(0x0du8)
            } else {
                None
            };
            assert(simple == simple_escape(e));
            match simple {
                Some(b) => {
                    out.push(b);
                    assert(prepend(before, unescape_from(s@, i as int)) == prepend(
                        out@,
                        unescape_from(s@, i + 2),
                    )) by {
                        if let Some(r) = unescape_from(s@, i + 2) {
                            assert(before + (seq![b] + r) =~= out@ + r);
                        }
                    }
                    i = i + 2;
                },
                None => {
                    let d1 = match octal_of(e) {
                        Some(d) => d,
                        None => {
                            return None;
                        },
                    };
                    if s.len() - i <= 3 {
                        return None;
                    }
                    let d2 = match octal_of(s[i + 2]) {
                        Some(d) => d,
                        None => {
                            return None;
                        },
                    };
                    let d3 = match octal_of(s[i + 3]) {
                        Some(d) => d,
                        None => {
                            return None;
                        },
                    };
                    let v = d1 * 64 + d2 * 8 + d3;
                    if v > 255 {
                        return None;
                    }
                    out.push(v as u8);
                    assert(prepend(before, unescape_from(s@, i as int)) == prepend(
                        out@,
                        unescape_from(s@, i + 4),
                    )) by {
                        if let Some(r) = unescape_from(s@, i + 4) {
                            assert(before + (seq![v as u8] + r) =~= out@ + r);
                        }
                    }
                    i = i + 4;
                },
            }
        }
    }
    assert(out@ + Seq::<u8>::empty() =~= out@);
    Some(out)
}

/// Decodes a git-quoted path token (quotes included) into the real path, or `None`.
pub fn unquote_diff_path(quoted: &[char]) -> (r: Option<Vec<char>>)
    ensures
        r matches Some(p) ==> unquote(quoted@) == Some(p@),
        r is None ==> unquote(quoted@) is None,
{
    let n = quoted.len();
    if !(n >= 2 && quoted[0] == '"' && quoted[n - 1] == '"') {
        return None;
    }
    let inner = slice_vec(quoted, 1, n - 1);
    match unescape(inner.as_slice()) {
        Some(bytes) => match string_from_utf8(bytes) {
            Some(s) => Some(chars_of(s.as_str())),
            None => None,
        },
        None => None,
    }
}

/// The path named by a quoted `--- "a/<path>"` / `+++ "b/<path>"` hunk line: the token
/// after `marker`, followed by nothing or one tab, unquoted, less its `side` prefix, and
/// not empty.
pub open spec fn hunk_path(line: Seq<char>, marker: Seq<char>, side: Seq<char>) -> Option<
    Seq<char>,
> {
    if !starts_with(line, marker) {
        None
    } else {
        let rest = line.skip(marker.len() as int);
        match quoted_token_end(rest) {
            None => None,
            Some(e) => {
                let trailing = rest.skip(e);
                if trailing.len() > 0 && trailing != seq!['\t'] {
                    None
                } else {
                    match unquote(rest.take(e)) {
                        Some(p) => {
                            if starts_with(p, side) && p.len() > side.len() {
                                Some(p.skip(side.len() as int))
                            } else {
                                None
                            }
                        },
                        None => None,
                    }
                }
            },
        }
    }
}

/// Reads a quoted hunk path (see [`hunk_path`]).
fn quoted_hunk_path(line: &[char], marker: &str, side: &str) -> (r: Option<Vec<char>>)
    ensures
        r matches Some(p) ==> hunk_path(line@, marker@, side@) == Some(p@),
        r is None ==> hunk_path(line@, marker@, side@) is None,
{
    if !starts_with_str(line, marker) {
        return None;
    }
    let m = chars_of(marker);
    let n = line.len();
    let rest = slice_vec(line, m.len(), n);
    let e = match quoted_token_end_exec(rest.as_slice()) {
        Some(e) => e,
        None => {
            return None;
        },
    };
    let rn = rest.len();
    let trailing = slice_vec(rest.as_slice(), e, rn);
    if trailing.len() > 0 && !(trailing.len() == 1 && trailing[0] == '\t') {
        assert(trailing@ != seq!['\t']);
        return None;
    }
    assert(trailing.len() > 0 ==> trailing@ =~= seq!['\t']);
    let token = slice_vec(rest.as_slice(), 0, e);
    let p = match unquote_diff_path(token.as_slice()) {
        Some(p) => p,
        None => {
            return None;
        },
    };
    let sd = chars_of(side);
    if starts_with_str(p.as_slice(), side) && p.len() > sd.len() {
        let pn = p.len();
        Some(slice_vec(p.as_slice(), sd.len(), pn))
    } else {
        None
    }
}


// ───────────────────────────── `diff --git` headers ─────────────────────────────

/// The new path of a quoted header's remainder `"a/<old>" "b/<new>"`: two quoted tokens
/// separated by one space with nothing after, the second unquoted, less `b/`, not empty.
pub open spec fn quoted_header_path(rest: Seq<char>) -> Option<Seq<char>> {
    match quoted_token_end(rest) {
        None => None,
        Some(e1) => {
            let tail = rest.skip(e1);
            if !(tail.len() > 0 && tail[0] == ' ') {
                None
            } else {
                let t2 = tail.skip(1);
                match quoted_token_end(t2) {
                    None => None,
                    Some(e2) => {
                        if e2 < t2.len() {
                            None
                        } else {
                            match unquote(t2.take(e2)) {
                                Some(p) => {
                                    if starts_with(p, "b/"@) && p.len() > "b/"@.len() {
                                        Some(p.skip("b/"@.len() as int))
                                    } else {
                                        None
                                    }
                                },
                                None => None,
                            }
                        }
                    },
                }
            }
        },
    }
}

/// The positions at or after `i` where `" b/"` occurs in `rest`, in increasing order.
pub open spec fn separators_from(rest: Seq<char>, i: int) -> Seq<int>
    decreases rest.len() - i,
{
    if i < 0 || i >= rest.len() {
        Seq::empty()
    } else if matches_at(rest, i, " b/"@) {
        seq![i] + separators_from(rest, i + 1)
    } else {
        separators_from(rest, i + 1)
    }
}

/// A separator at `k` whose two sides are the same text.
pub open spec fn is_equal_split(rest: Seq<char>, k: int) -> bool {
    rest.take(k) == rest.skip(k + " b/"@.len())
}

/// The separators of `cands` whose sides agree, in order.
pub open spec fn equal_splits(rest: Seq<char>, cands: Seq<int>) -> Seq<int>
    decreases cands.len(),
{
    if cands.len() == 0 {
        Seq::empty()
    } else {
        let r = equal_splits(rest, cands.drop_last());
        if is_equal_split(rest, cands.last()) {
            r.push(cands.last())
        } else {
            r
        }
    }
}

/// The new path of an unquoted header's remainder `<old> b/<new>`: split at the only
/// `" b/"`, or, when there are several, at the only one whose two sides agree; `None`
/// when that is not unique or the new path is empty.
pub open spec fn unquoted_header_path(rest: Seq<char>) -> Option<Seq<char>> {
    let cands = separators_from(rest, 0);
    let at: Option<int> = if cands.len() == 0 {
        None
    } else if cands.len() == 1 {
        Some(cands[0])
    } else {
        let eq = equal_splits(rest, cands);
        if eq.len() == 1 {
            Some(eq[0])
        } else {
            None
        }
    };
    match at {
        None => None,
        Some(a) => {
            let np = rest.skip(a + " b/"@.len());
            if np.len() == 0 {
                None
            } else {
                Some(np)
            }
        },
    }
}

/// The new path named by a `diff --git a/<old> b/<new>` header, quoted or not, when it
/// can be read unambiguously.
pub open spec fn header_path(line: Seq<char>) -> Option<Seq<char>> {
    let rest = line.skip("diff --git "@.len() as int);
    if starts_with(line, "diff --git "@) && rest.len() > 0 && rest[0] == '"' {
        quoted_header_path(rest)
    } else if starts_with(line, "diff --git a/"@) {
        unquoted_header_path(line.skip("diff --git a/"@.len() as int))
    } else {
        None
    }
}

proof fn lemma_separators_from(rest: Seq<char>, i: int)
    requires
        0 <= i,
    ensures
        forall|k: int|
            0 <= k < separators_from(rest, i).len() ==> i <= #[trigger] separators_from(rest, i)[k]
                < rest.len() && matches_at(rest, separators_from(rest, i)[k], " b/"@),
    decreases rest.len() - i,
{
    if i < rest.len() {
        lemma_separators_from(rest, i + 1);
        let t = separators_from(rest, i + 1);
        if matches_at(rest, i, " b/"@) {
            let s = separators_from(rest, i);
            assert(s == seq![i] + t);
            assert forall|k: int| 0 <= k < s.len() implies i <= #[trigger] s[k] < rest.len()
                && matches_at(rest, s[k], " b/"@) by {
                if k > 0 {
                    assert(s[k] == t[k - 1]);
                }
            }
        }
    }
}

proof fn lemma_equal_splits(rest: Seq<char>, cands: Seq<int>)
    ensures
        forall|k: int|
            0 <= k < equal_splits(rest, cands).len() ==> exists|j: int|
                0 <= j < cands.len() && cands[j] == #[trigger] equal_splits(rest, cands)[k],
    decreases cands.len(),
{
    if cands.len() > 0 {
        let c = cands.drop_last();
        lemma_equal_splits(rest, c);
        let e = equal_splits(rest, cands);
        let r = equal_splits(rest, c);
        assert forall|k: int| 0 <= k < e.len() implies exists|j: int|
            0 <= j < cands.len() && cands[j] == #[trigger] e[k] by {
            if k < r.len() {
                assert(e[k] == r[k]);
                let j = choose|j: int| 0 <= j < c.len() && c[j] == r[k];
                assert(cands[j] == e[k]);
            } else {
                assert(cands[cands.len() - 1] == e[k]);
            }
        }
    }
}

fn quoted_header_path_exec(rest: &[char]) -> (r: Option<Vec<char>>)
    ensures
        r matches Some(p) ==> quoted_header_path(rest@) == Some(p@),
        r is None ==> quoted_header_path(rest@) is None,
{
    let e1 = match quoted_token_end_exec(rest) {
        Some(e) => e,
        None => {
            return None;
        },
    };
    let n = rest.len();
    let tail = slice_vec(rest, e1, n);
    if !(tail.len() > 0 && tail[0] == ' ') {
        return None;
    }
    let tn = tail.len();
    let t2 = slice_vec(tail.as_slice(), 1, tn);
    let e2 = match quoted_token_end_exec(t2.as_slice()) {
        Some(e) => e,
        None => {
            return None;
        },
    };
    if e2 < t2.len() {
        return None;
    }
    let token = slice_vec(t2.as_slice(), 0, e2);
    let p = match unquote_diff_path(token.as_slice()) {
        Some(p) => p,
        None => {
            return None;
        },
    };
    let b = chars_of("b/");
    if starts_with_str(p.as_slice(), "b/") && p.len() > b.len() {
        let pn = p.len();
        Some(slice_vec(p.as_slice(), b.len(), pn))
    } else {
        None
    }
}

fn separators(rest: &[char]) -> (r: Vec<usize>)
    ensures
        r@.map_values(|k: usize| k as int) == separators_from(rest@, 0),
{
    let pat = chars_of(" b/");
    let n = rest.len();
    let mut out: Vec<usize> = Vec::new();
    let mut i: usize = n;
    // Collect from the back so each step prepends, matching the recursive definition.
    let mut rev: Vec<usize> = Vec::new();
    assert(rev@.map_values(|k: usize| k as int) =~= separators_from(rest@, n as int));
    while i > 0
        invariant
            i <= n,
            n == rest@.len(),
            pat@ == " b/"@,
            rev@.map_values(|k: usize| k as int).reverse() =~= separators_from(rest@, i as int),
        decreases i,
    {
        i = i - 1;
        let ghost before = rev@;
        if match_at(rest, i, pat.as_slice()) {
            rev.push(i);
            assert(rev@.map_values(|k: usize| k as int).reverse() =~= seq![i as int]
                + before.map_values(|k: usize| k as int).reverse());
        }
    }
    let mut j: usize = rev.len();
    while j > 0
        invariant
            j <= rev@.len(),
            out@.map_values(|k: usize| k as int) =~= rev@.map_values(|k: usize| k as int).reverse().take(
                (rev@.len() - j) as int,
            ),
        decreases j,
    {
        j = j - 1;
        let ghost before = out@;
        out.push(rev[j]);
        assert(out@.map_values(|k: usize| k as int) =~= before.map_values(|k: usize| k as int).push(
            rev@[j as int] as int,
        ));
        assert(rev@.map_values(|k: usize| k as int).reverse().take((rev@.len() - j) as int)
            =~= rev@.map_values(|k: usize| k as int).reverse().take((rev@.len() - j - 1) as int).push(
            rev@[j as int] as int,
        ));
    }
    assert(rev@.map_values(|k: usize| k as int).reverse().take(rev@.len() as int) =~= rev@.map_values(
        |k: usize| k as int,
    ).reverse());
    out
}

fn unquoted_header_path_exec(rest: &[char]) -> (r: Option<Vec<char>>)
    ensures
        r matches Some(p) ==> unquoted_header_path(rest@) == Some(p@),
        r is None ==> unquoted_header_path(rest@) is None,
{
    let cands = separators(rest);
    let ghost cv = separators_from(rest@, 0);
    assert(cands@.len() == cv.len());
    proof {
        lemma_separators_from(rest@, 0);
    }
    assert(forall|k: int| 0 <= k < cands@.len() ==> cands@[k] as int == #[trigger] cv[k]);
    let n = rest.len();
    let at: usize = if cands.len() == 0 {
        return None;
    } else if cands.len() == 1 {
        cands[0]
    } else {
        let mut eq: Vec<usize> = Vec::new();
        let mut k: usize = 0;
        while k < cands.len()
            invariant
                k <= cands@.len(),
                cands@.len() == cv.len(),
                cv == separators_from(rest@, 0),
                n == rest@.len(),
                forall|x: int| 0 <= x < cands@.len() ==> cands@[x] as int == #[trigger] cv[x],
                forall|x: int| 0 <= x < cv.len() ==> 0 <= #[trigger] cv[x] < rest@.len() && matches_at(rest@, cv[x], " b/"@),
                eq@.map_values(|x: usize| x as int) =~= equal_splits(rest@, cv.take(k as int)),
            decreases cands.len() - k,
        {
            let c = cands[k];
            assert(cv.take(k + 1).drop_last() =~= cv.take(k as int));
            assert(cv.take(k + 1).last() == c as int);
            assert(matches_at(rest@, c as int, " b/"@));
            proof {
                reveal_strlit(" b/");
            }
            let left = slice_vec(rest, 0, c);
            let right = slice_vec(rest, c + 3, n);
            let ghost before = eq@;
            if eq_chars(left.as_slice(), right.as_slice()) {
                eq.push(c);
                assert(eq@.map_values(|x: usize| x as int) =~= before.map_values(|x: usize| x as int).push(c as int));
            }
            k = k + 1;
        }
        assert(cv.take(cands.len() as int) =~= cv);
        if eq.len() == 1 {
            eq[0]
        } else {
            return None;
        }
    };
    proof {
        reveal_strlit(" b/");
    }
    assert(0 <= at < n && matches_at(rest@, at as int, " b/"@)) by {
        lemma_separators_from(rest@, 0);
        lemma_equal_splits(rest@, cv);
        if cands.len() > 1 {
            let eqs = equal_splits(rest@, cv);
            assert(eqs.len() == 1 && eqs[0] == at as int);
            let j = choose|j: int| 0 <= j < cv.len() && cv[j] == #[trigger] eqs[0];
            assert(cv[j] == at as int);
        } else {
            assert(cv[0] == at as int);
        }
    }
    let np = slice_vec(rest, at + 3, n);
    if np.len() == 0 {
        None
    } else {
        Some(np)
    }
}

fn header_path_exec(line: &[char]) -> (r: Option<Vec<char>>)
    ensures
        r matches Some(p) ==> header_path(line@) == Some(p@),
        r is None ==> header_path(line@) is None,
{
    let n = line.len();
    let pre = chars_of("diff --git ");
    if starts_with_str(line, "diff --git ") {
        let rest = slice_vec(line, pre.len(), n);
        if rest.len() > 0 && rest[0] == '"' {
            return quoted_header_path_exec(rest.as_slice());
        }
    }
    if starts_with_str(line, "diff --git a/") {
        let pa = chars_of("diff --git a/");
        let rest = slice_vec(line, pa.len(), n);
        unquoted_header_path_exec(rest.as_slice())
    } else {
        None
    }
}

/// The new path named by a `diff --git` header line, quoted or not, when it can be read
/// unambiguously; `None` for any other line.
pub fn diff_header_path(line: &str) -> (r: Option<String>)
    ensures
        r matches Some(p) ==> header_path(line@) == Some(p@),
        r is None ==> header_path(line@) is None,
{
    let l = chars_of(line);
    match header_path_exec(l.as_slice()) {
        Some(p) => Some(string_of(p.as_slice())),
        None => None,
    }
}


// ───────────────────────────── walking the diff ─────────────────────────────

/// What the walk over a diff knows after some of its lines: the files named so far with
/// the changed lines counted against each, the file the current hunk belongs to, the
/// insertion and deletion totals, the path of the last `--- a/` line, and the path of a
/// `diff --git` header not yet confirmed by a `---`/`+++` line.
pub struct WalkState {
    pub files: Seq<Seq<char>>,
    pub counts: Seq<nat>,
    pub current: Option<int>,
    pub ins: nat,
    pub del: nat,
    pub old_path: Option<Seq<char>>,
    pub header: Option<Seq<char>>,
}

/// The state before the first line.
pub open spec fn walk_start() -> WalkState {
    WalkState {
        files: Seq::empty(),
        counts: Seq::empty(),
        current: None,
        ins: 0,
        del: 0,
        old_path: None,
        header: None,
    }
}

/// The path a `+++ b/<path>` line names, plain or quoted.
pub open spec fn new_side_path(line: Seq<char>) -> Option<Seq<char>> {
    if starts_with(line, "+++ b/"@) {
        Some(line.skip("+++ b/"@.len() as int))
    } else {
        hunk_path(line, "+++ "@, "b/"@)
    }
}

/// The path a `--- a/<path>` line names, plain or quoted.
pub open spec fn old_side_path(line: Seq<char>) -> Option<Seq<char>> {
    if starts_with(line, "--- a/"@) {
        Some(line.skip("--- a/"@.len() as int))
    } else {
        hunk_path(line, "--- "@, "a/"@)
    }
}

/// The counts with one more changed line for the current file, if there is one.
pub open spec fn bumped(st: WalkState) -> Seq<nat> {
    match st.current {
        Some(i) => {
            if 0 <= i < st.counts.len() {
                st.counts.update(i, st.counts[i] + 1)
            } else {
                st.counts
            }
        },
        None => st.counts,
    }
}

/// `st` with `p` recorded as the next file, becoming the current one.
pub open spec fn record(st: WalkState, p: Seq<char>) -> WalkState {
    WalkState {
        files: st.files.push(p),
        counts: st.counts.push(0),
        current: Some(st.files.len() as int),
        ins: st.ins,
        del: st.del,
        old_path: None,
        header: None,
    }
}

/// One line of the walk. A header line flushes an earlier unconfirmed header (a rename,
/// binary or mode change names its file nowhere else) and becomes the pending one. A
/// `+++` line records the file it names, or, for `+++ /dev/null`, the file the `---`
/// line named. A `--- a/` line remembers its path. Other `+` lines are insertions and
/// other `-` lines (not `---`) deletions, counted against the current file.
pub open spec fn walk_step(st: WalkState, line: Seq<char>) -> WalkState {
    match header_path(line) {
        Some(p) => match st.header {
            Some(prev) => WalkState {
                files: st.files.push(prev),
                counts: st.counts.push(0),
                current: None,
                ins: st.ins,
                del: st.del,
                old_path: st.old_path,
                header: Some(p),
            },
            None => WalkState {
                files: st.files,
                counts: st.counts,
                current: st.current,
                ins: st.ins,
                del: st.del,
                old_path: st.old_path,
                header: Some(p),
            },
        },
        None => match new_side_path(line) {
            Some(p) => record(st, p),
            None => {
                if starts_with(line, "+++"@) {
                    match st.old_path {
                        Some(p) => record(st, p),
                        None => WalkState {
                            files: st.files,
                            counts: st.counts,
                            current: None,
                            ins: st.ins,
                            del: st.del,
                            old_path: None,
                            header: None,
                        },
                    }
                } else {
                    match old_side_path(line) {
                        Some(p) => WalkState {
                            files: st.files,
                            counts: st.counts,
                            current: st.current,
                            ins: st.ins,
                            del: st.del,
                            old_path: Some(p),
                            header: st.header,
                        },
                        None => {
                            if line.len() > 0 && line[0] == '+' {
                                WalkState {
                                    files: st.files,
                                    counts: bumped(st),
                                    current: st.current,
                                    ins: st.ins + 1,
                                    del: st.del,
                                    old_path: st.old_path,
                                    header: st.header,
                                }
                            } else if line.len() > 0 && line[0] == '-' && !starts_with(
                                line,
                                "---"@,
                            ) {
                                WalkState {
                                    files: st.files,
                                    counts: bumped(st),
                                    current: st.current,
                                    ins: st.ins,
                                    del: st.del + 1,
                                    old_path: st.old_path,
                                    header: st.header,
                                }
                            } else {
                                st
                            }
                        },
                    }
                }
            },
        },
    }
}

/// The state after all of `ls`.
pub open spec fn walk_lines(ls: Seq<Seq<char>>) -> WalkState
    decreases ls.len(),
{
    if ls.len() == 0 {
        walk_start()
    } else {
        walk_step(walk_lines(ls.drop_last()), ls.last())
    }
}

/// The walk over a whole diff, with a still-pending header recorded at the end.
pub open spec fn walk_diff(diff: Seq<char>) -> WalkState {
    let st = walk_lines(lines(diff));
    match st.header {
        Some(p) => WalkState {
            files: st.files.push(p),
            counts: st.counts.push(0),
            current: st.current,
            ins: st.ins,
            del: st.del,
            old_path: st.old_path,
            header: None,
        },
        None => st,
    }
}

/// The executable walk state.
struct Walker {
    files: Vec<Vec<char>>,
    counts: Vec<usize>,
    current: Option<usize>,
    ins: usize,
    del: usize,
    old_path: Option<Vec<char>>,
    header: Option<Vec<char>>,
}

/// The view of an optional path.
pub open spec fn opt_view(o: Option<Vec<char>>) -> Option<Seq<char>> {
    match o {
        Some(v) => Some(v@),
        None => None,
    }
}

impl Walker {
    spec fn state(&self) -> WalkState {
        WalkState {
            files: views(self.files@),
            counts: self.counts@.map_values(|c: usize| c as nat),
            current: match self.current {
                Some(c) => Some(c as int),
                None => None,
            },
            ins: self.ins as nat,
            del: self.del as nat,
            old_path: opt_view(self.old_path),
            header: opt_view(self.header),
        }
    }

    /// Every count, and both totals, are at most `n`; the counts match the files.
    spec fn bounded(&self, n: nat) -> bool {
        &&& self.counts@.len() == self.files@.len()
        &&& forall|k: int| 0 <= k < self.counts@.len() ==> self.counts@[k] <= n
        &&& self.ins <= n
        &&& self.del <= n
        &&& (self.current matches Some(c) ==> c < self.files@.len())
    }

    fn push_file(&mut self, p: Vec<char>)
        requires
            old(self).counts@.len() == old(self).files@.len(),
        ensures
            final(self).state() == record(old(self).state(), p@),
            final(self).counts@ == old(self).counts@.push(0),
            final(self).files@.len() == old(self).files@.len() + 1,
            final(self).ins == old(self).ins,
            final(self).del == old(self).del,
            final(self).current == Some(old(self).files@.len() as usize),
    {
        let n = self.files.len();
        self.files.push(p);
        self.counts.push(0);
        self.current = Some(n);
        self.old_path = None;
        self.header = None;
        assert(views(self.files@) =~= views(old(self).files@).push(p@));
        assert(self.counts@.map_values(|c: usize| c as nat) =~= old(self).counts@.map_values(
            |c: usize| c as nat,
        ).push(0));
    }

    fn bump(&mut self)
        requires
            old(self).counts@.len() == old(self).files@.len(),
            old(self).current matches Some(c) ==> c < old(self).files@.len() && old(self).counts@[c as int] < usize::MAX,
        ensures
            final(self).counts@.map_values(|c: usize| c as nat) == bumped(old(self).state()),
            final(self).counts@.len() == old(self).counts@.len(),
            forall|k: int|
                0 <= k < old(self).counts@.len() ==> final(self).counts@[k] <= old(self).counts@[k] + 1,
            final(self).files == old(self).files,
            final(self).current == old(self).current,
            final(self).ins == old(self).ins,
            final(self).del == old(self).del,
            final(self).old_path == old(self).old_path,
            final(self).header == old(self).header,
    {
        if let Some(c) = self.current {
            let v = self.counts[c];
            self.counts.set(c, v + 1);
            assert(self.counts@.map_values(|c: usize| c as nat) =~= old(self).counts@.map_values(
                |c: usize| c as nat,
            ).update(c as int, (v + 1) as nat));
        }
    }

    fn step(&mut self, line: &[char], Ghost(n): Ghost<nat>)
        requires
            old(self).bounded(n),
            n < usize::MAX,
        ensures
            final(self).state() == walk_step(old(self).state(), line@),
            final(self).bounded(n + 1),
    {
        let ghost st = self.state();
        if let Some(p) = header_path_exec(line) {
            if let Some(prev) = self.header.take() {
                self.files.push(prev);
                self.counts.push(0);
                self.current = None;
                assert(views(self.files@) =~= st.files.push(opt_view(old(self).header)->0));
                assert(self.counts@.map_values(|c: usize| c as nat) =~= st.counts.push(0));
            }
            self.header = Some(p);
            return;
        }
        let plain_new = starts_with_str(line, "+++ b/");
        let new_path = if plain_new {
            let m = chars_of("+++ b/");
            let ln = line.len();
            Some(slice_vec(line, m.len(), ln))
        } else {
            quoted_hunk_path(line, "+++ ", "b/")
        };
        assert(opt_view(new_path) == new_side_path(line@));
        if let Some(p) = new_path {
            self.push_file(p);
            return;
        }
        if starts_with_str(line, "+++") {
            self.header = None;
            match self.old_path.take() {
                Some(p) => {
                    self.push_file(p);
                },
                None => {
                    self.current = None;
                },
            }
            return;
        }
        let plain_old = starts_with_str(line, "--- a/");
        let old_side = if plain_old {
            let m = chars_of("--- a/");
            let ln = line.len();
            Some(slice_vec(line, m.len(), ln))
        } else {
            quoted_hunk_path(line, "--- ", "a/")
        };
        assert(opt_view(old_side) == old_side_path(line@));
        if let Some(p) = old_side {
            self.old_path = Some(p);
            return;
        }
        if line.len() > 0 && line[0] == '+' {
            self.bump();
            self.ins = self.ins + 1;
        } else if line.len() > 0 && line[0] == '-' && !starts_with_str(line, "---") {
            self.bump();
            self.del = self.del + 1;
        }
    }
}


// ───────────────────────────── the message ─────────────────────────────

/// A weight of at least one: a file with no counted lines (a rename, a mode change)
/// still counts once.
pub open spec fn at_least_one(n: nat) -> nat {
    if n == 0 {
        1
    } else {
        n
    }
}

/// The weight of category `cat` among `files`, each weighed by its changed lines.
pub open spec fn category_weight(files: Seq<Seq<char>>, counts: Seq<nat>, cat: CommitFileCategory) -> nat
    decreases files.len(),
{
    if files.len() == 0 {
        0
    } else {
        category_weight(files.drop_last(), counts, cat) + if category_of(files.last()) == cat {
            at_least_one(counts[files.len() - 1])
        } else {
            0nat
        }
    }
}

/// The conventional-commit type for the dominant category: code that removes more than
/// twice what it adds is a refactor.
pub open spec fn type_prefix(cat: CommitFileCategory, ins: nat, del: nat) -> Seq<char> {
    match cat {
        CommitFileCategory::Test => "test"@,
        CommitFileCategory::Docs => "docs"@,
        CommitFileCategory::Chore => "chore"@,
        CommitFileCategory::Code => {
            if del > ins * 2 {
                "refactor"@
            } else {
                "feat"@
            }
        },
    }
}

/// The scope: the stem of a lone file, the stems of up to three files joined by `, `, or
/// `N files`.
pub open spec fn scope_of(files: Seq<Seq<char>>) -> Seq<char> {
    if files.len() == 1 {
        file_stem(files[0])
    } else if files.len() <= 3 {
        join(files.map_values(|f: Seq<char>| file_stem(f)), ", "@)
    } else {
        decimal(files.len()) + " files"@
    }
}

/// `add` when only lines were added, `remove` when only lines were removed, else `update`.
pub open spec fn verb_of(ins: nat, del: nat) -> Seq<char> {
    if del == 0 && ins > 0 {
        "add"@
    } else if ins == 0 && del > 0 {
        "remove"@
    } else {
        "update"@
    }
}

/// The first of `c[..n]` holding the largest count.
pub open spec fn first_max_index(c: Seq<nat>, n: int) -> int
    decreases n,
{
    if n <= 1 {
        0
    } else {
        let b = first_max_index(c, n - 1);
        if c[n - 1] > c[b] {
            n - 1
        } else {
            b
        }
    }
}

/// The summary: for more than three files, the verb, the stem of the file carrying the
/// most changed lines and how many others there are; otherwise `add changes`,
/// `remove code` or `update code`.
pub open spec fn summary_of(files: Seq<Seq<char>>, counts: Seq<nat>, ins: nat, del: nat) -> Seq<
    char,
> {
    if files.len() > 3 {
        verb_of(ins, del) + " "@ + file_stem(files[first_max_index(counts, counts.len() as int)])
            + " (+"@ + decimal((files.len() - 1) as nat) + " more)"@
    } else if del == 0 && ins > 0 {
        "add changes"@
    } else if ins == 0 && del > 0 {
        "remove code"@
    } else {
        "update code"@
    }
}

/// The commit message for a diff: `type(scope): summary`.
pub open spec fn commit_message(diff: Seq<char>) -> Seq<char> {
    let st = walk_diff(diff);
    let dom = pick_dominant(
        category_weight(st.files, st.counts, CommitFileCategory::Code),
        category_weight(st.files, st.counts, CommitFileCategory::Test),
        category_weight(st.files, st.counts, CommitFileCategory::Docs),
        category_weight(st.files, st.counts, CommitFileCategory::Chore),
    );
    type_prefix(dom, st.ins, st.del) + "("@ + scope_of(st.files) + "): "@ + summary_of(
        st.files,
        st.counts,
        st.ins,
        st.del,
    )
}

fn scope_exec(files: &Vec<Vec<char>>) -> (r: Vec<char>)
    ensures
        r@ == scope_of(views(files@)),
{
    let n = files.len();
    let ghost fv = views(files@);
    if n == 1 {
        return file_stem_of_chars(files[0].as_slice());
    }
    if n <= 3 {
        let mut stems: Vec<Vec<char>> = Vec::new();
        let mut k: usize = 0;
        while k < n
            invariant
                k <= n,
                n == files@.len(),
                fv == views(files@),
                views(stems@) =~= fv.map_values(|f: Seq<char>| file_stem(f)).take(k as int),
            decreases n - k,
        {
            let ghost before = views(stems@);
            stems.push(file_stem_of_chars(files[k].as_slice()));
            assert(views(stems@) =~= before.push(file_stem(fv[k as int])));
            assert(fv.map_values(|f: Seq<char>| file_stem(f)).take(k + 1) =~= fv.map_values(
                |f: Seq<char>| file_stem(f),
            ).take(k as int).push(file_stem(fv[k as int])));
            k = k + 1;
        }
        assert(fv.map_values(|f: Seq<char>| file_stem(f)).take(n as int) =~= fv.map_values(
            |f: Seq<char>| file_stem(f),
        ));
        return join_vec(stems.as_slice(), ", ");
    }
    let mut out = decimal_vec(n as u128);
    extend_str(&mut out, " files");
    out
}

fn first_max_exec(counts: &Vec<usize>) -> (r: usize)
    requires
        counts@.len() > 0,
    ensures
        r as int == first_max_index(counts@.map_values(|c: usize| c as nat), counts@.len() as int),
        r < counts@.len(),
{
    let ghost cv = counts@.map_values(|c: usize| c as nat);
    let mut best: usize = 0;
    let mut k: usize = 1;
    while k < counts.len()
        invariant
            1 <= k <= counts@.len(),
            cv == counts@.map_values(|c: usize| c as nat),
            best < k,
            best as int == first_max_index(cv, k as int),
        decreases counts.len() - k,
    {
        if counts[k] > counts[best] {
            best = k;
        }
        k = k + 1;
    }
    best
}

/// Walks every line of the diff and records a header still pending at the end.
fn walk_exec(d: &[char]) -> (w: Walker)
    ensures
        w.state() == walk_diff(d@),
        w.counts@.len() == w.files@.len(),
{
    let ls = lines_vec(d);
    let ghost lv = views(ls@);
    let mut w = Walker {
        files: Vec::new(),
        counts: Vec::new(),
        current: None,
        ins: 0,
        del: 0,
        old_path: None,
        header: None,
    };
    assert(views(w.files@) =~= Seq::<Seq<char>>::empty());
    assert(w.counts@.map_values(|c: usize| c as nat) =~= Seq::<nat>::empty());
    assert(w.state() == walk_start());
    let mut i: usize = 0;
    while i < ls.len()
        invariant
            i <= ls@.len(),
            lv == views(ls@),
            lv == lines(d@),
            w.state() == walk_lines(lv.take(i as int)),
            w.bounded(i as nat),
        decreases ls.len() - i,
    {
        assert(lv.take(i + 1).drop_last() =~= lv.take(i as int));
        assert(lv.take(i + 1).last() == ls@[i as int]@);
        w.step(ls[i].as_slice(), Ghost(i as nat));
        i = i + 1;
    }
    assert(lv.take(ls.len() as int) =~= lv);
    let ghost st = w.state();
    if let Some(p) = w.header.take() {
        w.files.push(p);
        w.counts.push(0);
        assert(views(w.files@) =~= st.files.push(st.header->0));
        assert(w.counts@.map_values(|c: usize| c as nat) =~= st.counts.push(0));
    }
    w
}

/// Counts as natural numbers.
pub open spec fn nat_counts(v: Seq<usize>) -> Seq<nat> {
    v.map_values(|c: usize| c as nat)
}

/// Each file's category beside its weight (its changed lines, at least one).
fn weights_exec(files: &Vec<Vec<char>>, counts: &Vec<usize>) -> (ws: Vec<(CommitFileCategory, usize)>)
    requires
        counts@.len() == files@.len(),
    ensures
        forall|c: CommitFileCategory|
            weight_of(ws@, c) == #[trigger] category_weight(
                views(files@),
                nat_counts(counts@),
                c,
            ),
{
    let ghost fv = views(files@);
    let ghost cv = nat_counts(counts@);
    let n = files.len();
    let mut weights: Vec<(CommitFileCategory, usize)> = Vec::new();
    let mut k: usize = 0;
    while k < n
        invariant
            k <= n,
            n == files@.len(),
            counts@.len() == n,
            fv == views(files@),
            cv == nat_counts(counts@),
            weights@.len() == k,
            forall|c: CommitFileCategory|
                weight_of(weights@, c) == #[trigger] category_weight(fv.take(k as int), cv, c),
        decreases n - k,
    {
        let cat = category_of_chars(files[k].as_slice());
        let c = counts[k];
        let wt: usize = if c == 0 {
            1
        } else {
            c
        };
        let ghost before = weights@;
        weights.push((cat, wt));
        assert(weights@.drop_last() =~= before);
        assert(fv.take(k + 1).drop_last() =~= fv.take(k as int));
        assert(fv.take(k + 1).last() == fv[k as int]);
        assert forall|cc: CommitFileCategory|
            weight_of(weights@, cc) == #[trigger] category_weight(fv.take(k + 1), cv, cc) by {
            assert(category_weight(fv.take(k + 1), cv, cc) == category_weight(
                fv.take(k as int),
                cv,
                cc,
            ) + if category_of(fv[k as int]) == cc {
                at_least_one(cv[k as int])
            } else {
                0nat
            });
        }
        k = k + 1;
    }
    assert(fv.take(n as int) =~= fv);
    weights
}

/// Appends the summary (see [`summary_of`]).
fn push_summary(out: &mut Vec<char>, files: &Vec<Vec<char>>, counts: &Vec<usize>, ins: usize, del: usize)
    requires
        counts@.len() == files@.len(),
    ensures
        final(out)@ == old(out)@ + summary_of(
            views(files@),
            counts@.map_values(|x: usize| x as nat),
            ins as nat,
            del as nat,
        ),
{
    let n = files.len();
    if n > 3 {
        if del == 0 && ins > 0 {
            extend_str(out, "add");
        } else if ins == 0 && del > 0 {
            extend_str(out, "remove");
        } else {
            extend_str(out, "update");
        }
        extend_str(out, " ");
        let best = first_max_exec(counts);
        let stem = file_stem_of_chars(files[best].as_slice());
        extend(out, stem.as_slice());
        extend_str(out, " (+");
        let more = decimal_vec((n - 1) as u128);
        extend(out, more.as_slice());
        extend_str(out, " more)");
    } else if del == 0 && ins > 0 {
        extend_str(out, "add changes");
    } else if ins == 0 && del > 0 {
        extend_str(out, "remove code");
    } else {
        extend_str(out, "update code");
    }
}

/// Generates a conventional commit message from a diff using simple heuristics: the type
/// follows where the weight of the change is, the scope names the files, and the summary
/// says what happened to them.
pub fn generate_commit_message(diff: &str) -> (r: String)
    ensures
        r@ == commit_message(diff@),
{
    let d = chars_of(diff);
    let w = walk_exec(d.as_slice());
    let ghost fv = views(w.files@);
    let ghost cv = nat_counts(w.counts@);
    let weights = weights_exec(&w.files, &w.counts);
    let dom = dominant_commit_category(weights.as_slice());
    assert(dom == pick_dominant(
        category_weight(fv, cv, CommitFileCategory::Code),
        category_weight(fv, cv, CommitFileCategory::Test),
        category_weight(fv, cv, CommitFileCategory::Docs),
        category_weight(fv, cv, CommitFileCategory::Chore),
    ));
    let ins = w.ins;
    let del = w.del;
    let mut out: Vec<char> = Vec::new();
    match dom {
        CommitFileCategory::Test => extend_str(&mut out, "test"),
        CommitFileCategory::Docs => extend_str(&mut out, "docs"),
        CommitFileCategory::Chore => extend_str(&mut out, "chore"),
        CommitFileCategory::Code => {
            if (del as u128) > (ins as u128) * 2 {
                extend_str(&mut out, "refactor");
            } else {
                extend_str(&mut out, "feat");
            }
        },
    }
    assert(out@ == type_prefix(dom, ins as nat, del as nat));
    extend_str(&mut out, "(");
    let scope = scope_exec(&w.files);
    extend(&mut out, scope.as_slice());
    extend_str(&mut out, "): ");
    push_summary(&mut out, &w.files, &w.counts, ins, del);
    string_of(out.as_slice())
}

} // verus!
