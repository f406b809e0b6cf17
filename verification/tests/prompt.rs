use yoyo::prompt::{apply_effort_hint, is_dropped_tool_args_error};

#[test]
fn effort_hint_medium_is_a_no_op() {
    assert_eq!(apply_effort_hint("", "Hello agent"), "Hello agent");
}

#[test]
fn effort_hint_is_bracketed_before_the_input() {
    let result = apply_effort_hint("Be concise.", "Hello agent");
    assert!(result.starts_with("[Effort: "));
    assert!(result.contains("concise"));
    assert!(result.ends_with("Hello agent"));
    assert_eq!(result, "[Effort: Be concise.]\n\nHello agent");
}

#[test]
fn dropped_tool_arguments_are_recognised_in_any_case() {
    assert!(is_dropped_tool_args_error(
        "Tool call arguments for `read_file` were NEVER ASSEMBLED"
    ));
    assert!(is_dropped_tool_args_error("tool_call had no arguments"));
    assert!(!is_dropped_tool_args_error("429 Too Many Requests"));
    assert!(!is_dropped_tool_args_error("the tool call failed"));
}
