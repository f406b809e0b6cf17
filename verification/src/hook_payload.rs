//! The JSON object a shell hook reads on its standard input, bounded in bytes.
//!
//! The object is serialized by `serde_json`; what this module decides is which object to
//! serialize so that the bytes written to the hook's pipe stay within the budget: the
//! full payload when it fits, else the longest kept prefix of the tool output that fits
//! with an in-band marker, else a small object saying the payload was elided, else `{}`.
use vstd::prelude::*;
use crate::text::{
    byte_len, byte_len_wide, chars_of, decimal, decimal_vec, extend, extend_str, slice_vec,
    string_of,
};

verus! {

/// The compact JSON text `serde_json` writes for an object holding the string field
/// `key_a: text_a`, the field `raw.0` whose value is the JSON text `raw.1` parsed (null when
/// it does not parse), and the string field `extra.0: extra.1`, the last two when present.
pub uninterp spec fn json_object_text(
    key_a: Seq<char>,
    text_a: Seq<char>,
    raw: Option<(Seq<char>, Seq<char>)>,
    extra: Option<(Seq<char>, Seq<char>)>,
) -> Seq<char>;

/// The view of an optional pair of strings.
pub open spec fn pair_view(o: Option<(&str, &str)>) -> Option<(Seq<char>, Seq<char>)> {
    match o {
        Some((a, b)) => Some((a@, b@)),
        None => None,
    }
}

/// Builds a `serde_json::Value::Object` from the fields and writes it with `to_string`.
/// Claimed: the result is `json_object_text` of the arguments, a function of them alone
/// (the default `serde_json` map is ordered by key). Nothing is stated of that text beyond
/// the name.
#[verifier::external_body]
fn object_text(key_a: &str, text_a: &str, raw: Option<(&str, &str)>, extra: Option<(&str, &str)>) -> (r: String)
    ensures
        r@ == json_object_text(key_a@, text_a@, pair_view(raw), pair_view(extra)),
{
    let mut obj = serde_json::Map::new();
    obj.insert(key_a.to_string(), serde_json::Value::String(text_a.to_string()));
    if let Some((k, text)) = raw {
        obj.insert(k.to_string(), serde_json::from_str(text).unwrap_or(serde_json::Value::Null));
    }
    if let Some((k, v)) = extra {
        obj.insert(k.to_string(), serde_json::Value::String(v.to_string()));
    }
    serde_json::Value::Object(obj).to_string()
}

/// The payload: `tool_name`, `tool_params` (given as JSON text) and, for a post-hook,
/// `tool_output`. A pre-hook has no output, and the key is then absent.
pub open spec fn full_payload(name: Seq<char>, params: Seq<char>, output: Option<Seq<char>>) -> Seq<char> {
    json_object_text(
        "tool_name"@,
        name,
        Some(("tool_params"@, params)),
        match output {
            Some(o) => Some(("tool_output"@, o)),
            None => None,
        },
    )
}

/// Whether `s` fits in `max` bytes of UTF-8.
pub open spec fn fits(s: Seq<char>, max: nat) -> bool {
    byte_len(s) <= max
}

/// The in-band marker appended to a cut tool output.
pub open spec fn elision_marker(dropped: nat, max: nat) -> Seq<char> {
    "\n… [yoyo: "@ + decimal(dropped) + " chars elided — hook stdin payload is capped at "@
        + decimal(max) + " bytes]"@
}

/// The payload with only the first `k` characters of the output kept, and the cut marked.
pub open spec fn trimmed_payload(name: Seq<char>, params: Seq<char>, out: Seq<char>, max: nat, k: int) -> Seq<char> {
    full_payload(name, params, Some(out.take(k) + elision_marker((out.len() - k) as nat, max)))
}

/// A kept count that the search may settle on: its payload fits, and keeping one more
/// character would not (or nothing more is left).
pub open spec fn settled_trim(name: Seq<char>, params: Seq<char>, out: Seq<char>, max: nat, k: int) -> bool {
    &&& 0 <= k <= out.len()
    &&& fits(trimmed_payload(name, params, out, max, k), max)
    &&& (k == out.len() || !fits(trimmed_payload(name, params, out, max, k + 1), max))
}

/// What the fallback object says about the payload it replaces.
pub open spec fn elided_note(full_bytes: nat, max: nat) -> Seq<char> {
    "… [yoyo: payload elided — the hook stdin payload was "@ + decimal(full_bytes)
        + " bytes, over the "@ + decimal(max)
        + " byte cap; read the environment variables instead]"@
}

/// When no trimmed output fits: `tool_name` (at most 200 characters of it) and a note,
/// or `{}` when even that is over the budget.
pub open spec fn fallback_payload(name: Seq<char>, full_bytes: nat, max: nat) -> Seq<char> {
    let fb = json_object_text(
        "tool_name"@,
        name.take(if name.len() < 200 { name.len() as int } else { 200 }),
        None,
        Some(("payload_elided"@, elided_note(full_bytes, max))),
    );
    if fits(fb, max) {
        fb
    } else {
        "{}"@
    }
}

/// The view of an optional string slice.
pub open spec fn opt_view(o: Option<&str>) -> Option<Seq<char>> {
    match o {
        Some(s) => Some(s@),
        None => None,
    }
}

/// The payload with `k` output characters kept, built.
fn trimmed_exec(name: &str, params: &str, out: &[char], k: usize, max: usize) -> (r: String)
    requires
        k <= out@.len(),
    ensures
        r@ == trimmed_payload(name@, params@, out@, max as nat, k as int),
{
    let mut kept = slice_vec(out, 0, k);
    extend_str(&mut kept, "\n… [yoyo: ");
    let n = out.len();
    let d = decimal_vec((n - k) as u128);
    extend(&mut kept, d.as_slice());
    extend_str(&mut kept, " chars elided — hook stdin payload is capped at ");
    let m = decimal_vec(max as u128);
    extend(&mut kept, m.as_slice());
    extend_str(&mut kept, " bytes]");
    let kept_text = string_of(kept.as_slice());
    assert(kept_text@ == out@.take(k as int) + elision_marker((out@.len() - k) as nat, max as nat));
    object_text("tool_name", name, Some(("tool_params", params)), Some(("tool_output", kept_text.as_str())))
}

/// Whether `s` fits in `max` bytes.
fn fits_exec(s: &String, max: usize) -> (r: bool)
    ensures
        r == fits(s@, max as nat),
{
    let c = chars_of(s.as_str());
    byte_len_wide(c.as_slice()) <= max as u128
}

/// Binary search for the number of output characters to keep.
fn search_trim(name: &str, params: &str, out: &[char], max: usize) -> (r: Option<String>)
    requires
        out@.len() < usize::MAX,
    ensures
        match r {
            Some(s) => exists|k: int|
                settled_trim(name@, params@, out@, max as nat, k) && s@ == trimmed_payload(
                    name@,
                    params@,
                    out@,
                    max as nat,
                    k,
                ),
            None => !fits(trimmed_payload(name@, params@, out@, max as nat, 0), max as nat),
        },
{
    let total = out.len();
    let mut lo: usize = 0;
    let mut hi: usize = total;
    let mut best: Option<String> = None;
    while lo <= hi
        invariant
            total == out@.len(),
            total < usize::MAX,
            lo <= hi + 1,
            hi <= total,
            best is None ==> lo == 0,
            best matches Some(b) ==> lo >= 1 && b@ == trimmed_payload(
                name@,
                params@,
                out@,
                max as nat,
                lo - 1,
            ) && fits(b@, max as nat),
            hi < total ==> !fits(trimmed_payload(name@, params@, out@, max as nat, hi + 1), max as nat),
        decreases hi + 1 - lo,
    {
        let mid = lo + (hi - lo) / 2;
        let candidate = trimmed_exec(name, params, out, mid, max);
        if fits_exec(&candidate, max) {
            best = Some(candidate);
            lo = mid + 1;
        } else {
            if mid == 0 {
                return None;
            }
            hi = mid - 1;
        }
    }
    match best {
        Some(b) => {
            assert(settled_trim(name@, params@, out@, max as nat, hi as int));
            Some(b)
        },
        None => None,
    }
}

/// The fallback object, built.
fn fallback_exec(name: &str, full_bytes: u128, max: usize) -> (r: String)
    ensures
        r@ == fallback_payload(name@, full_bytes as nat, max as nat),
{
    let chars = chars_of(name);
    let n = chars.len();
    let keep = if n < 200 { n } else { 200 };
    let short = string_of(slice_vec(chars.as_slice(), 0, keep).as_slice());
    let mut note: Vec<char> = Vec::new();
    extend_str(&mut note, "… [yoyo: payload elided — the hook stdin payload was ");
    let d = decimal_vec(full_bytes);
    extend(&mut note, d.as_slice());
    extend_str(&mut note, " bytes, over the ");
    let m = decimal_vec(max as u128);
    extend(&mut note, m.as_slice());
    extend_str(&mut note, " byte cap; read the environment variables instead]");
    let note_text = string_of(note.as_slice());
    let fb = object_text("tool_name", short.as_str(), None, Some(("payload_elided", note_text.as_str())));
    if fits_exec(&fb, max) {
        fb
    } else {
        "{}".to_owned()
    }
}

/// `{}` is two bytes.
proof fn lemma_empty_object_bytes()
    ensures
        byte_len("{}"@) == 2,
{
    reveal_strlit("{}");
    assert("{}"@.drop_last().drop_last() =~= Seq::<char>::empty());
    reveal_with_fuel(byte_len, 3);
}

/// The JSON text written to a shell hook's standard input: `tool_name`, `tool_params`
/// (`params` is their JSON text) and, for a post-hook, `tool_output`, kept within
/// `max_bytes` bytes.
pub fn hook_stdin_payload(tool_name: &str, params: &str, output: Option<&str>, max_bytes: usize) -> (r: String)
    requires
        output matches Some(o) ==> o@.len() < usize::MAX,
    ensures
        fits(full_payload(tool_name@, params@, opt_view(output)), max_bytes as nat) ==> r@
            == full_payload(tool_name@, params@, opt_view(output)),
        !fits(full_payload(tool_name@, params@, opt_view(output)), max_bytes as nat) ==> match output {
            Some(o) => (exists|k: int|
                settled_trim(tool_name@, params@, o@, max_bytes as nat, k) && r@ == trimmed_payload(
                    tool_name@,
                    params@,
                    o@,
                    max_bytes as nat,
                    k,
                )) || (!fits(trimmed_payload(tool_name@, params@, o@, max_bytes as nat, 0), max_bytes as nat)
                && r@ == fallback_payload(
                tool_name@,
                byte_len(full_payload(tool_name@, params@, opt_view(output))),
                max_bytes as nat,
            )),
            None => r@ == fallback_payload(
                tool_name@,
                byte_len(full_payload(tool_name@, params@, opt_view(output))),
                max_bytes as nat,
            ),
        },
        max_bytes >= 2 ==> fits(r@, max_bytes as nat),
{
    proof {
        lemma_empty_object_bytes();
    }
    let full = match output {
        Some(o) => object_text("tool_name", tool_name, Some(("tool_params", params)), Some(("tool_output", o))),
        None => object_text("tool_name", tool_name, Some(("tool_params", params)), None),
    };
    if fits_exec(&full, max_bytes) {
        return full;
    }
    if let Some(o) = output {
        let out = chars_of(o);
        if let Some(payload) = search_trim(tool_name, params, out.as_slice(), max_bytes) {
            return payload;
        }
    }
    let full_chars = chars_of(full.as_str());
    let full_bytes = byte_len_wide(full_chars.as_slice());
    fallback_exec(tool_name, full_bytes, max_bytes)
}

} // verus!
