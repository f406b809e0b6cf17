//! Prompt-turn classification that does not depend on a live agent.
use vstd::prelude::*;
use crate::text::{chars_of, contains, contains_str, lowercase, to_lowercase};

verus! {

/// The #646 class, over an already-lowercased message: it names a tool call (or its
/// arguments) and says they never assembled.
pub open spec fn dropped_tool_args_lower(lower: Seq<char>) -> bool {
    (contains(lower, "tool call"@) || contains(lower, "tool_call"@) || contains(
        lower,
        "arguments"@,
    )) && (contains(lower, "never assembled"@) || contains(lower, "never completed"@) || contains(
        lower,
        "were not assembled"@,
    ) || contains(lower, "incomplete arguments"@) || contains(lower, "no arguments"@))
}

/// `is_dropped_tool_args_error` once the message has been lowercased.
pub fn is_dropped_tool_args_error_in_lowercase(lower: &str) -> (r: bool)
    ensures
        r == dropped_tool_args_lower(lower@),
{
    let l = chars_of(lower);
    let s = l.as_slice();
    (contains_str(s, "tool call") || contains_str(s, "tool_call") || contains_str(s, "arguments"))
        && (contains_str(s, "never assembled") || contains_str(s, "never completed")
        || contains_str(s, "were not assembled") || contains_str(s, "incomplete arguments")
        || contains_str(s, "no arguments"))
}

/// True when a `StopReason::Error` message (case-insensitively) names the #646 class: the
/// turn's tool-call arguments never assembled, so the tool never ran.
pub fn is_dropped_tool_args_error(error_msg: &str) -> (r: bool)
    ensures
        r == dropped_tool_args_lower(lowercase(error_msg@)),
{
    let lower = to_lowercase(error_msg);
    is_dropped_tool_args_error_in_lowercase(lower.as_str())
}


/// The input as sent for an effort level whose system hint is `hint`: unchanged when the
/// hint is empty (medium effort), else the bracketed hint and a blank line first.
pub open spec fn effort_hinted(hint: Seq<char>, input: Seq<char>) -> Seq<char> {
    if hint.len() == 0 {
        input
    } else {
        "[Effort: "@ + hint + "]\n\n"@ + input
    }
}

/// Prepends the effort level's hint (`hint`, empty for medium effort) to user input.
pub fn apply_effort_hint(hint: &str, input: &str) -> (r: String)
    ensures
        r@ == effort_hinted(hint@, input@),
{
    if hint.is_empty() {
        return input.to_owned();
    }
    let mut v: Vec<char> = Vec::new();
    crate::text::extend_str(&mut v, "[Effort: ");
    crate::text::extend_str(&mut v, hint);
    crate::text::extend_str(&mut v, "]\n\n");
    crate::text::extend_str(&mut v, input);
    crate::text::string_of(v.as_slice())
}

} // verus!
