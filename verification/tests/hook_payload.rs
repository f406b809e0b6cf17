use serde_json::Value;
use yoyo::hook_payload::hook_stdin_payload;
use yoyo::hooks::{hook_tool_output, HOOK_STDIN_MAX_BYTES, HOOK_TOOL_OUTPUT_MAX_CHARS};

/// A JSON object with the given fields.
fn object(fields: &[(&str, Value)]) -> Value {
    let mut m = serde_json::Map::new();
    for (k, v) in fields {
        m.insert((*k).to_string(), v.clone());
    }
    Value::Object(m)
}

fn payload(tool: &str, params: &Value, output: Option<&str>, cap: usize) -> String {
    hook_stdin_payload(tool, &params.to_string(), output, cap)
}

#[test]
fn hook_stdin_payload_ordinary_shapes_are_untouched_and_parse() {
    let params = object(&[("path", Value::from("src/main.rs")), ("n", Value::from(3))]);
    for (label, out) in [
        ("empty", ""),
        ("ascii", "all good"),
        ("crlf and tabs", "a\r\n\tb\r\n"),
        ("multi-byte", "caf\u{e9} \u{1F419} na\u{ef}ve"),
    ] {
        let got = payload("bash", &params, Some(out), HOOK_STDIN_MAX_BYTES);
        assert!(
            got.len() <= HOOK_STDIN_MAX_BYTES,
            "{label}: fixture must be in budget for this to test the pass-through"
        );
        let parsed: Value = serde_json::from_str(&got)
            .unwrap_or_else(|e| panic!("{label}: payload must be valid JSON: {e}"));
        assert_eq!(parsed["tool_name"], Value::from("bash"), "{label}");
        assert_eq!(parsed["tool_params"], params, "{label}: params go in as a Value");
        assert_eq!(
            parsed["tool_output"],
            Value::from(out),
            "{label}: an in-budget output must arrive byte-identically"
        );
        assert!(
            !got.contains("elided"),
            "{label}: nothing was dropped, so nothing may claim it was"
        );
    }
}

#[test]
fn hook_stdin_payload_carries_a_nul_the_env_channel_cannot() {
    let raw = "before\u{0}after";
    assert!(raw.contains('\u{0}'), "fixture must genuinely carry a NUL");
    let got = payload("bash", &object(&[]), Some(raw), HOOK_STDIN_MAX_BYTES);
    assert!(got.contains("\\u0000"), "serde must escape the NUL as \\u0000, got: {got}");
    let parsed: Value =
        serde_json::from_str(&got).expect("a NUL-carrying payload must still be valid JSON");
    assert_eq!(
        parsed["tool_output"].as_str(),
        Some(raw),
        "the NUL must round-trip as the real byte"
    );
    assert_eq!(
        hook_tool_output(raw, HOOK_TOOL_OUTPUT_MAX_CHARS),
        "before\\x00after",
        "the env channel escapes it to visible characters because it must"
    );
}

#[test]
fn hook_stdin_payload_omits_tool_output_for_a_pre_hook() {
    let params = object(&[("command", Value::from("ls"))]);
    let pre = payload("bash", &params, None, HOOK_STDIN_MAX_BYTES);
    let parsed: Value = serde_json::from_str(&pre).expect("valid JSON");
    assert!(
        parsed.get("tool_output").is_none(),
        "a pre-hook has no output, so the key must be ABSENT, not empty: {pre}"
    );
    assert_eq!(parsed["tool_name"], Value::from("bash"));
    assert_eq!(parsed["tool_params"], params);

    let post = payload("bash", &params, Some(""), HOOK_STDIN_MAX_BYTES);
    let parsed_post: Value = serde_json::from_str(&post).expect("valid JSON");
    assert_eq!(
        parsed_post["tool_output"],
        Value::from(""),
        "an observed-empty output is a different fact from no output at all"
    );
}

#[test]
fn hook_stdin_payload_boundary_is_pinned_on_both_sides() {
    let params = object(&[]);
    let overhead = payload("b", &params, Some(""), HOOK_STDIN_MAX_BYTES).len();
    let cap = overhead + 400;

    let exactly = "a".repeat(400);
    let at = payload("b", &params, Some(&exactly), cap);
    assert_eq!(at.len(), cap, "fixture must land exactly on the budget");
    assert!(!at.contains("elided"), "exactly at the cap must be untouched: {at}");
    assert_eq!(
        serde_json::from_str::<Value>(&at).expect("valid JSON")["tool_output"],
        Value::from(exactly.as_str())
    );

    let over = "a".repeat(401);
    let marked = payload("b", &params, Some(&over), cap);
    assert!(marked.contains("elided"), "one byte over the cap must mark its cut: {marked}");
    assert!(
        marked.len() <= cap,
        "the marked payload must itself fit the budget, got {} > {cap}",
        marked.len()
    );
}

#[test]
fn hook_stdin_payload_marker_count_agrees_with_what_was_dropped() {
    let params = object(&[]);
    let overhead = payload("b", &params, Some(""), HOOK_STDIN_MAX_BYTES).len();
    let cap = overhead + 200;
    let total_chars = 5_000;
    let raw = "z".repeat(total_chars);
    assert!(
        payload("b", &params, Some(&raw), HOOK_STDIN_MAX_BYTES).len() > cap,
        "fixture must be over the budget under test"
    );

    let got = payload("b", &params, Some(&raw), cap);
    assert!(got.len() <= cap, "the result must fit the budget it was given");

    let parsed: Value = serde_json::from_str(&got).expect("valid JSON");
    let value = parsed["tool_output"].as_str().expect("a string");
    let kept = value.chars().take_while(|c| *c == 'z').count();
    let claimed = value
        .split("[yoyo: ")
        .nth(1)
        .and_then(|s| s.split(' ').next())
        .and_then(|n| n.parse::<usize>().ok())
        .unwrap_or_else(|| panic!("marker must report a count: {value}"));
    assert_eq!(
        claimed,
        total_chars - kept,
        "the marker claims {claimed} chars dropped but {} were",
        total_chars - kept
    );
}

#[test]
fn hook_stdin_payload_never_splits_a_char_and_always_parses() {
    let params = object(&[]);
    let raw = "\u{1F419}".repeat(400);
    assert!(raw.len() > 1000, "fixture must be genuinely large");

    let overhead = payload("b", &params, Some(""), HOOK_STDIN_MAX_BYTES).len();
    for extra in [200usize, 201, 202, 203, 400, 401] {
        let cap = overhead + extra;
        let got = payload("b", &params, Some(&raw), cap);
        let parsed: Value = serde_json::from_str(&got)
            .unwrap_or_else(|e| panic!("cap {cap}: must stay valid JSON: {e}"));
        let value = parsed["tool_output"].as_str().expect("a string");
        let kept = value.split('\n').next().unwrap_or("");
        assert!(
            !kept.is_empty() && kept.chars().all(|c| c == '\u{1F419}'),
            "cap {cap}: the kept prefix must be WHOLE characters, got {kept:?}"
        );
        assert!(got.len() <= cap, "cap {cap}: result must fit its budget, got {}", got.len());
    }
}

#[test]
fn hook_stdin_payload_degrades_to_a_parseable_object_when_params_alone_are_too_big() {
    let params = object(&[("content", Value::from("x".repeat(5_000)))]);
    let cap = 512;
    assert!(params.to_string().len() > cap, "fixture params must genuinely exceed the cap");

    let got = payload("write_file", &params, Some("done"), cap);
    let parsed: Value =
        serde_json::from_str(&got).expect("the fallback must still be valid JSON");
    assert_eq!(parsed["tool_name"], Value::from("write_file"));
    assert!(
        parsed["payload_elided"].as_str().is_some_and(|s| s.contains("elided")),
        "the fallback must say what happened: {got}"
    );
    assert!(got.len() <= cap, "the fallback must fit the budget, got {} > {cap}", got.len());
}

#[test]
fn hook_stdin_payload_a_tiny_budget_still_writes_an_object() {
    let params = object(&[("command", Value::from("ls"))]);
    let got = payload("bash", &params, Some("output"), 2);
    assert_eq!(got, "{}");
    let got = payload("bash", &params, None, 40);
    assert!(got.len() <= 40, "got {got}");
    assert!(serde_json::from_str::<Value>(&got).is_ok());
}

#[test]
fn hook_stdin_payload_fallback_keeps_at_most_two_hundred_name_chars() {
    let name = "t".repeat(300);
    let params = object(&[("content", Value::from("x".repeat(2_000)))]);
    let got = payload(&name, &params, None, 1_000);
    let parsed: Value = serde_json::from_str(&got).expect("valid JSON");
    assert_eq!(parsed["tool_name"].as_str().map(|s| s.chars().count()), Some(200));
    let note = parsed["payload_elided"].as_str().expect("a note");
    assert!(note.contains("over the 1000 byte cap"), "{note}");
}
