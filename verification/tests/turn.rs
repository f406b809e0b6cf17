use yoyo::prompt_retry_limits::retry_delay;
use yoyo::turn::{
    accumulate_usage, auto_retry_step, AutoRetry, BatchSummary, FileChange, NextStep, PromptOutcome,
    PromptRun, RunStage, StopNotice, StreamJsonRun, TokenUsage, ToolEnd, ToolUpdate, TurnResult,
    TurnState,
};

fn usage(input: u64, output: u64, cache_read: u64, cache_write: u64) -> TokenUsage {
    TokenUsage { input, output, cache_read, cache_write }
}

#[test]
fn test_accumulate_usage_adds_all_fields() {
    let mut total = usage(10, 20, 30, 40);
    let delta = usage(1, 2, 3, 4);
    accumulate_usage(&mut total, &delta);
    assert_eq!(total.input, 11);
    assert_eq!(total.output, 22);
    assert_eq!(total.cache_read, 33);
    assert_eq!(total.cache_write, 44);
}

#[test]
fn test_accumulate_usage_with_zero_delta() {
    let mut total = usage(100, 200, 300, 400);
    let delta = TokenUsage::default();
    accumulate_usage(&mut total, &delta);
    assert_eq!(total.input, 100);
    assert_eq!(total.output, 200);
    assert_eq!(total.cache_read, 300);
    assert_eq!(total.cache_write, 400);
}

#[test]
fn test_accumulate_usage_multiple_deltas() {
    let mut total = TokenUsage::default();
    for i in 1..=5 {
        let delta = usage(i, i * 2, i * 3, i * 4);
        accumulate_usage(&mut total, &delta);
    }
    assert_eq!(total.input, 15);
    assert_eq!(total.output, 30);
    assert_eq!(total.cache_read, 45);
    assert_eq!(total.cache_write, 60);
}

#[test]
fn test_accumulate_usage_commutative() {
    let a = usage(10, 20, 30, 40);
    let b = usage(5, 15, 25, 35);

    let mut total_ab = TokenUsage::default();
    accumulate_usage(&mut total_ab, &a);
    accumulate_usage(&mut total_ab, &b);

    let mut total_ba = TokenUsage::default();
    accumulate_usage(&mut total_ba, &b);
    accumulate_usage(&mut total_ba, &a);

    assert_eq!(total_ab.input, total_ba.input);
    assert_eq!(total_ab.output, total_ba.output);
    assert_eq!(total_ab.cache_read, total_ba.cache_read);
    assert_eq!(total_ab.cache_write, total_ba.cache_write);
}

#[test]
fn test_prompt_outcome_has_api_error_field() {
    let outcome = PromptOutcome {
        text: String::new(),
        last_tool_error: None,
        last_tool_name: None,
        was_overflow: false,
        last_api_error: Some("503 Service Unavailable".to_string()),
    };
    assert_eq!(outcome.last_api_error, Some("503 Service Unavailable".to_string()));

    let outcome_no_error = PromptOutcome {
        text: "hello".to_string(),
        last_tool_error: None,
        last_tool_name: None,
        was_overflow: false,
        last_api_error: None,
    };
    assert!(outcome_no_error.last_api_error.is_none());
}

#[test]
fn test_prompt_outcome_has_tool_name_field() {
    let outcome = PromptOutcome {
        text: String::new(),
        last_tool_error: Some("file not found".to_string()),
        last_tool_name: Some("read_file".to_string()),
        was_overflow: false,
        last_api_error: None,
    };
    assert_eq!(outcome.last_tool_name.as_deref(), Some("read_file"));

    let outcome_none = PromptOutcome {
        text: String::new(),
        last_tool_error: None,
        last_tool_name: None,
        was_overflow: false,
        last_api_error: None,
    };
    assert!(outcome_none.last_tool_name.is_none());
}

#[test]
fn test_prompt_outcome_default() {
    let outcome = PromptOutcome::default();
    assert!(outcome.text.is_empty());
    assert!(outcome.last_tool_error.is_none());
    assert!(outcome.last_tool_name.is_none());
    assert!(!outcome.was_overflow);
    assert!(outcome.last_api_error.is_none());
}

#[test]
fn test_prompt_outcome_clone() {
    let outcome = PromptOutcome {
        text: "hello world".to_string(),
        last_tool_error: Some("error msg".to_string()),
        last_tool_name: Some("bash".to_string()),
        was_overflow: true,
        last_api_error: Some("429 rate limit".to_string()),
    };
    let cloned = outcome.clone();
    assert_eq!(cloned.text, "hello world");
    assert_eq!(cloned.last_tool_error, Some("error msg".to_string()));
    assert_eq!(cloned.last_tool_name, Some("bash".to_string()));
    assert!(cloned.was_overflow);
    assert_eq!(cloned.last_api_error, Some("429 rate limit".to_string()));
}

#[test]
fn test_prompt_outcome_debug_format() {
    let outcome = PromptOutcome::default();
    let debug = format!("{:?}", outcome);
    assert!(debug.contains("PromptOutcome"));
    assert!(debug.contains("text"));
    assert!(debug.contains("was_overflow"));
}

#[test]
fn test_prompt_outcome_with_overflow() {
    let outcome = PromptOutcome {
        text: "compacted response".to_string(),
        last_tool_error: None,
        last_tool_name: None,
        was_overflow: true,
        last_api_error: None,
    };
    assert!(outcome.was_overflow);
    assert_eq!(outcome.text, "compacted response");
}

#[test]
fn test_prompt_outcome_combined_tool_and_api_error() {
    let outcome = PromptOutcome {
        text: String::new(),
        last_tool_error: Some("file not found".to_string()),
        last_tool_name: Some("read_file".to_string()),
        was_overflow: false,
        last_api_error: Some("500 internal server error".to_string()),
    };
    assert!(outcome.last_tool_error.is_some());
    assert!(outcome.last_api_error.is_some());
    assert_eq!(outcome.last_tool_name.as_deref(), Some("read_file"));
}

#[test]
fn test_prompt_outcome_text_with_unicode() {
    let outcome = PromptOutcome {
        text: "Hello 🐙 — yoyo speaking! ✓ 日本語".to_string(),
        last_tool_error: None,
        last_tool_name: None,
        was_overflow: false,
        last_api_error: None,
    };
    assert!(outcome.text.contains('🐙'));
    assert!(outcome.text.contains("日本語"));
}

#[test]
fn test_prompt_event_state_into_result_done() {
    let mut state = TurnState::new();
    state.collected_text = "response text".to_string();
    state.last_tool_error = None;
    state.last_tool_name = None;
    match state.into_result() {
        TurnResult::Done { collected_text, last_tool_error, last_tool_name, .. } => {
            assert_eq!(collected_text, "response text");
            assert!(last_tool_error.is_none());
            assert!(last_tool_name.is_none());
        }
        _ => panic!("expected TurnResult::Done"),
    }
}

#[test]
fn test_prompt_event_state_into_result_retriable_error() {
    let mut state = TurnState::new();
    state.retriable_error = Some("429 Too Many Requests".to_string());
    match state.into_result() {
        TurnResult::RetriableError { error_msg, .. } => {
            assert_eq!(error_msg, "429 Too Many Requests");
        }
        _ => panic!("expected TurnResult::RetriableError"),
    }
}

#[test]
fn test_prompt_event_state_into_result_context_overflow() {
    let mut state = TurnState::new();
    state.overflow_error = Some("prompt is too long: 250000 tokens".to_string());
    match state.into_result() {
        TurnResult::ContextOverflow { error_msg, .. } => {
            assert!(error_msg.contains("prompt is too long"));
        }
        _ => panic!("expected TurnResult::ContextOverflow"),
    }
}

#[test]
fn test_fatal_stop_error_is_caller_visible_not_done() {
    let mut state = TurnState::new();
    let (_, notice) = state.stopped_with_error(
        Some("tool call arguments for `read_file` were never assembled"),
        false,
        false,
        false,
    );
    assert_eq!(notice, StopNotice::Fatal);
    assert!(
        state.fatal_error.is_some(),
        "a non-retriable, non-overflow StopReason::Error must be recorded"
    );
    match state.into_result() {
        TurnResult::FatalError { error_msg, .. } => {
            assert!(error_msg.contains("read_file"));
        }
        TurnResult::Done { .. } => {
            panic!("fatal StopReason::Error must NOT surface as Done (the swallow bug)")
        }
        _ => panic!("expected TurnResult::FatalError"),
    }
}

#[test]
fn test_fatal_stop_error_without_message_surfaces_as_incomplete() {
    let mut state = TurnState::new();
    let (_, notice) = state.stopped_with_error(None, false, false, false);
    assert_eq!(notice, StopNotice::Incomplete);
    let fatal = state
        .fatal_error
        .clone()
        .expect("empty-message StopReason::Error must still be recorded");
    assert!(
        fatal.to_lowercase().contains("incomplete"),
        "expected an honest 'incomplete' message, got: {fatal}"
    );
    assert!(
        matches!(state.into_result(), TurnResult::FatalError { .. }),
        "empty-message fatal error must not read as Done"
    );
}

#[test]
fn test_fatal_error_does_not_hijack_retriable_or_overflow() {
    // "429 Too Many Requests" reads as retriable; the caller's classification says so.
    let mut state = TurnState::new();
    state.stopped_with_error(Some("429 Too Many Requests"), false, true, false);
    assert!(state.fatal_error.is_none(), "a retriable error must not be marked fatal");
    assert!(matches!(state.into_result(), TurnResult::RetriableError { .. }));

    let mut state = TurnState::new();
    state.stopped_with_error(Some("prompt is too long: 250000 tokens"), true, false, false);
    assert!(state.fatal_error.is_none());
    assert!(matches!(state.into_result(), TurnResult::ContextOverflow { .. }));
}

#[test]
fn test_benign_stream_end_is_not_fatal() {
    let mut state = TurnState::new();
    state.collected_text = "full response".to_string();
    let (_, notice) =
        state.stopped_with_error(Some("stream ended without a terminator"), false, false, true);
    assert_eq!(notice, StopNotice::BenignEnd);
    assert!(state.fatal_error.is_none());
    assert!(matches!(state.into_result(), TurnResult::Done { .. }));
}

#[test]
fn test_prompt_event_state_into_result_overflow_takes_priority() {
    let mut state = TurnState::new();
    state.overflow_error = Some("context too large".to_string());
    state.retriable_error = Some("rate limited".to_string());
    match state.into_result() {
        TurnResult::ContextOverflow { error_msg, .. } => {
            assert_eq!(error_msg, "context too large");
        }
        _ => panic!("expected ContextOverflow to take priority over RetriableError"),
    }
}

#[test]
fn test_prompt_event_state_into_result_preserves_tool_error() {
    let mut state = TurnState::new();
    state.collected_text = "partial".to_string();
    state.last_tool_error = Some("permission denied".to_string());
    state.last_tool_name = Some("bash".to_string());
    match state.into_result() {
        TurnResult::Done { last_tool_error, last_tool_name, .. } => {
            assert_eq!(last_tool_error, Some("permission denied".to_string()));
            assert_eq!(last_tool_name, Some("bash".to_string()));
        }
        _ => panic!("expected TurnResult::Done"),
    }
}

#[test]
fn test_prompt_event_state_new_defaults() {
    let state = TurnState::new();
    assert!(state.collected_text.is_empty());
    assert!(!state.in_text);
    assert!(!state.in_thinking);
    assert!(state.retriable_error.is_none());
    assert!(state.overflow_error.is_none());
    assert!(state.last_tool_error.is_none());
    assert!(state.last_tool_name.is_none());
    assert_eq!(state.batch_count, 0);
    assert_eq!(state.batch_succeeded, 0);
    assert_eq!(state.batch_failed, 0);
    assert_eq!(state.turn_number, 0);
    assert!(!state.had_text);
    assert!(state.in_flight.is_empty());
    assert!(state.deferred_timers.is_empty());
    assert!(state.progress_timers.is_empty());
    assert!(state.cached_edits.is_empty());
}

#[test]
fn test_prompt_event_state_batch_reset_on_print() {
    let mut state = TurnState::new();
    state.batch_count = 5;
    state.batch_succeeded = 3;
    state.batch_failed = 2;
    let summary = state.take_batch_summary();
    assert_eq!(summary, BatchSummary { count: 5, succeeded: 3, failed: 2 });
    assert_eq!(state.batch_count, 0);
    assert_eq!(state.batch_succeeded, 0);
    assert_eq!(state.batch_failed, 0);
}

#[test]
fn test_prompt_event_state_into_result_preserves_usage() {
    let mut state = TurnState::new();
    state.usage = usage(500, 100, 50, 25);
    match state.into_result() {
        TurnResult::Done { usage, .. } => {
            assert_eq!(usage.input, 500);
            assert_eq!(usage.output, 100);
            assert_eq!(usage.cache_read, 50);
            assert_eq!(usage.cache_write, 25);
        }
        _ => panic!("expected TurnResult::Done"),
    }
}

#[test]
fn turn_tool_failure_is_remembered_until_a_success() {
    let mut state = TurnState::new();
    state.tool_ended("c1", "bash", true, "");
    assert_eq!(state.last_tool_error.as_deref(), Some("tool execution failed"));
    assert_eq!(state.last_tool_name.as_deref(), Some("bash"));
    state.tool_ended("c2", "read_file", true, "no such file");
    assert_eq!(state.last_tool_error.as_deref(), Some("no such file"));
    assert_eq!(state.last_tool_name.as_deref(), Some("read_file"));
    state.tool_ended("c3", "read_file", false, "");
    assert!(state.last_tool_error.is_none());
    assert!(state.last_tool_name.is_none());
    assert_eq!((state.batch_succeeded, state.batch_failed), (1, 2));
}

#[test]
fn turn_text_after_tools_prints_the_batch_summary_once() {
    let mut state = TurnState::new();
    state.turn_started();
    let first = state.tool_started("c1", "write_file");
    assert!(first.new_batch);
    assert_eq!(first.turn_boundary, None);
    assert_eq!(first.file_change, Some(FileChange::Write));
    assert!(!first.deferred_timer);
    state.tool_ended("c1", "write_file", false, "");
    let second = state.tool_started("c2", "bash");
    assert!(!second.new_batch);
    assert!(second.deferred_timer);
    assert_eq!(second.file_change, None);
    let text = state.text_delta("Done.");
    assert_eq!(text.batch_summary, Some(BatchSummary { count: 2, succeeded: 1, failed: 0 }));
    assert!(text.open_text_line);
    let more = state.text_delta(" Really.");
    assert_eq!(more.batch_summary, None);
    assert!(!more.open_text_line);
    assert_eq!(state.collected_text, "Done. Really.");
}

#[test]
fn turn_boundary_marks_a_later_turn_after_text() {
    let mut state = TurnState::new();
    state.turn_started();
    state.text_delta("thinking aloud");
    state.turn_started();
    let start = state.tool_started("c1", "sub_agent");
    assert!(start.close_text_line);
    assert_eq!(start.turn_boundary, Some(2));
    assert!(start.sub_agent);
}

#[test]
fn turn_dropped_arguments_win_over_a_retriable_reading() {
    let mut state = TurnState::new();
    let (_, notice) = state.stopped_with_error(
        Some("Tool call arguments never completed (incomplete stream)"),
        false,
        true,
        false,
    );
    assert_eq!(notice, StopNotice::Fatal);
    assert!(state.retriable_error.is_none());
}

#[test]
fn turn_interrupted_reports_what_it_has() {
    let mut state = TurnState::new();
    state.text_delta("half an answer");
    state.overflow_error = Some("too long".to_string());
    match state.interrupted() {
        TurnResult::Done { collected_text, .. } => assert_eq!(collected_text, "half an answer"),
        _ => panic!("an interrupted turn ends as Done"),
    }
}

fn retriable(msg: &str) -> TurnResult {
    TurnResult::RetriableError { error_msg: msg.to_string(), usage: usage(1, 1, 0, 0) }
}

#[test]
fn prompt_run_retries_then_gives_up() {
    let mut run = PromptRun::new(2);
    assert_eq!(
        run.absorb(retriable("503")),
        NextStep::RetryAfter { delay: retry_delay(1), attempt: 1 }
    );
    assert_eq!(
        run.absorb(retriable("503")),
        NextStep::RetryAfter { delay: retry_delay(2), attempt: 2 }
    );
    assert_eq!(run.absorb(retriable("503 again")), NextStep::GaveUp);
    assert_eq!(run.stage, RunStage::Finished);
    assert_eq!(run.total_usage, usage(3, 3, 0, 0));
    let outcome = run.outcome();
    assert_eq!(outcome.last_api_error.as_deref(), Some("503 again"));
    assert!(!outcome.was_overflow);
}

#[test]
fn prompt_run_compacts_once_on_overflow() {
    let mut run = PromptRun::new(3);
    let overflow =
        TurnResult::ContextOverflow { error_msg: "too long".to_string(), usage: usage(5, 0, 0, 0) };
    assert_eq!(run.absorb(overflow.clone()), NextStep::CompactAndRetry);
    assert_eq!(run.absorb(overflow), NextStep::CompactRetryFailed);
    let outcome = run.outcome();
    assert!(outcome.was_overflow);
    assert_eq!(outcome.last_api_error.as_deref(), Some("too long"));
}

#[test]
fn prompt_run_with_content_stops_at_once_on_overflow() {
    let mut run = PromptRun::new_no_compact(3);
    assert!(!run.compact_on_overflow);
    let overflow =
        TurnResult::ContextOverflow { error_msg: "too long".to_string(), usage: usage(5, 1, 0, 0) };
    assert_eq!(run.absorb(overflow), NextStep::Finish);
    assert_eq!(run.stage, RunStage::Finished);
    assert_eq!(run.attempt, 0);
    assert_eq!(run.total_usage, usage(5, 1, 0, 0));
    let outcome = run.outcome();
    assert!(!outcome.was_overflow);
    assert_eq!(outcome.text, "");
    assert!(outcome.last_tool_error.is_none());
    assert_eq!(outcome.last_api_error.as_deref(), Some("too long"));
}

#[test]
fn prompt_run_with_content_still_retries_retriable_errors() {
    let mut run = PromptRun::new_no_compact(1);
    assert_eq!(
        run.absorb(retriable("503")),
        NextStep::RetryAfter { delay: retry_delay(1), attempt: 1 }
    );
    let overflow =
        TurnResult::ContextOverflow { error_msg: "too long".to_string(), usage: usage(0, 0, 0, 0) };
    assert_eq!(run.absorb(overflow), NextStep::Finish);
    assert_eq!(run.outcome().last_api_error.as_deref(), Some("too long"));
}

#[test]
fn prompt_run_fatal_error_is_not_retried() {
    let mut run = PromptRun::new(3);
    let fatal =
        TurnResult::FatalError { error_msg: "never assembled".to_string(), usage: usage(0, 0, 0, 0) };
    assert_eq!(run.absorb(fatal), NextStep::Finish);
    assert_eq!(run.attempt, 0);
    assert_eq!(run.outcome().last_api_error.as_deref(), Some("never assembled"));
}

#[test]
fn prompt_run_done_keeps_the_answer() {
    let mut run = PromptRun::new(3);
    run.absorb(retriable("429"));
    let done = TurnResult::Done {
        collected_text: "answer".to_string(),
        usage: usage(2, 3, 0, 0),
        last_tool_error: Some("boom".to_string()),
        last_tool_name: Some("bash".to_string()),
    };
    assert_eq!(run.absorb(done), NextStep::Finish);
    let outcome = run.outcome();
    assert_eq!(outcome.text, "answer");
    assert_eq!(outcome.last_tool_error.as_deref(), Some("boom"));
    assert!(outcome.last_api_error.is_none());
}

#[test]
fn auto_retry_only_while_a_tool_failed_and_budget_remains() {
    assert_eq!(auto_retry_step(1, 2, true, false), AutoRetry::Retry { attempt: 1 });
    assert_eq!(auto_retry_step(2, 2, true, false), AutoRetry::Retry { attempt: 2 });
    assert_eq!(auto_retry_step(3, 2, true, false), AutoRetry::Stop);
    assert_eq!(auto_retry_step(1, 2, false, false), AutoRetry::Stop);
    assert_eq!(auto_retry_step(1, 2, true, true), AutoRetry::StopForBudget);
}

fn outcome(text: &str) -> PromptOutcome {
    PromptOutcome { text: text.to_string(), ..PromptOutcome::default() }
}

#[test]
fn continuation_text_is_appended_after_a_blank_line() {
    let mut whole = outcome("first part");
    whole.absorb_continuation(outcome("second part"));
    assert_eq!(whole.text, "first part\n\nsecond part");
    whole.absorb_continuation(outcome("   \n"));
    assert_eq!(whole.text, "first part\n\nsecond part");
    let mut empty = outcome("");
    let mut failing = outcome("more");
    failing.last_api_error = Some("503".to_string());
    empty.absorb_continuation(failing);
    assert_eq!(empty.text, "more");
    assert_eq!(empty.last_api_error.as_deref(), Some("503"));
}

#[test]
fn stream_json_run_tracks_errors_text_and_usage() {
    let mut run = StreamJsonRun::new();
    assert!(run.needs_finish());
    run.text_delta("Hello");
    run.text_delta(", world");
    run.tool_ended("bash", true, &["line one".to_string(), "line two".to_string()]);
    assert_eq!(run.last_tool_error.as_deref(), Some("line one\nline two"));
    run.tool_ended("bash", true, &[]);
    assert_eq!(run.last_tool_error.as_deref(), Some("tool execution failed"));
    run.tool_ended("bash", false, &[]);
    assert!(run.last_tool_error.is_none());
    run.input_rejected("too large", Some("try /compact"));
    assert_eq!(run.last_api_error.as_deref(), Some("too large: try /compact"));
    run.add_usage(&usage(7, 3, 0, 0));
    assert!(!run.needs_finish());
    let (out, used) = run.finish();
    assert_eq!(out.text, "Hello, world");
    assert!(!out.was_overflow);
    assert_eq!(used, usage(7, 3, 0, 0));
}

#[test]
fn turn_bash_timer_waits_for_the_first_output() {
    let mut state = TurnState::new();
    let start = state.tool_started("call-7", "bash");
    assert!(start.deferred_timer);
    assert_eq!(state.in_flight, vec!["call-7".to_string()]);
    assert_eq!(state.deferred_timers, vec!["call-7".to_string()]);
    assert!(state.progress_timers.is_empty());
    let first = state.tool_updated("call-7");
    assert_eq!(first, ToolUpdate { start_progress_timer: true, progress_timer_running: true });
    assert!(state.deferred_timers.is_empty());
    assert_eq!(state.progress_timers, vec!["call-7".to_string()]);
    let again = state.tool_updated("call-7");
    assert_eq!(again, ToolUpdate { start_progress_timer: false, progress_timer_running: true });
    let unknown = state.tool_updated("call-8");
    assert_eq!(unknown, ToolUpdate { start_progress_timer: false, progress_timer_running: false });
}

#[test]
fn turn_ended_call_is_tracked_nowhere() {
    let mut state = TurnState::new();
    state.tool_started("e1", "edit_file");
    state.tool_started("b1", "bash");
    state.tool_updated("b1");
    assert_eq!(state.cached_edits, vec!["e1".to_string()]);
    let end = state.tool_ended("b1", "bash", false, "");
    assert_eq!(
        end,
        ToolEnd { was_in_flight: true, stop_progress_timer: true, had_cached_edit: false }
    );
    assert_eq!(state.in_flight, vec!["e1".to_string()]);
    assert!(state.progress_timers.is_empty());
    let end = state.tool_ended("e1", "edit_file", true, "no match");
    assert_eq!(
        end,
        ToolEnd { was_in_flight: true, stop_progress_timer: false, had_cached_edit: true }
    );
    assert!(state.in_flight.is_empty());
    assert!(state.cached_edits.is_empty());
    assert!(state.deferred_timers.is_empty());
}

#[test]
fn turn_denied_bash_call_drops_its_deferred_timer() {
    let mut state = TurnState::new();
    state.tool_started("b2", "bash");
    let end = state.tool_ended("b2", "bash", true, "denied");
    assert_eq!(
        end,
        ToolEnd { was_in_flight: true, stop_progress_timer: false, had_cached_edit: false }
    );
    assert!(state.deferred_timers.is_empty());
    assert!(state.in_flight.is_empty());
}
