use std::sync::atomic::{AtomicBool, Ordering};
use std::sync::Arc;
use yoyo::run::{
    apply_bedrock_credentials,
    approval_of_response, exit_code_for_outcome, looks_like_slash_command, piped_should_continue,
    Approval, RunState,
};

#[test]
fn looks_like_slash_command_detects_leading_slash() {
    assert!(looks_like_slash_command("/doctor"));
    assert!(looks_like_slash_command("/help"));
    assert!(looks_like_slash_command("/"));
}

#[test]
fn looks_like_slash_command_handles_leading_whitespace() {
    // The caller already trims, but we should be robust to \n/doctor\n etc.
    assert!(looks_like_slash_command("  /doctor"));
    assert!(looks_like_slash_command("\n/doctor\n"));
    assert!(looks_like_slash_command("\t/status"));
}

#[test]
fn looks_like_slash_command_rejects_mid_string_slash() {
    // A slash that isn't the first non-whitespace character must NOT trigger.
    assert!(!looks_like_slash_command("what does /doctor do?"));
    assert!(!looks_like_slash_command("explain /help to me"));
    assert!(!looks_like_slash_command("path: a/b/c"));
}

#[test]
fn looks_like_slash_command_rejects_non_slash_input() {
    assert!(!looks_like_slash_command("hello"));
    assert!(!looks_like_slash_command(""));
    assert!(!looks_like_slash_command("   "));
    assert!(!looks_like_slash_command("-flag"));
}

#[test]
fn test_checkpoint_triggered_flag_starts_false() {
    // The checkpoint flag should default to false
    assert!(!RunState::new().checkpoint_triggered());
}

#[test]
fn test_always_approve_response_matching() {
    // Verify the response matching logic for "always" variants
    let responses_that_approve = ["y", "yes", "a", "always"];
    let responses_that_deny = ["n", "no", "", "maybe", "nope"];

    for r in &responses_that_approve {
        assert!(
            matches!(approval_of_response(r), Approval::Once | Approval::Always),
            "Expected '{}' to be approved",
            r
        );
    }

    for r in &responses_that_deny {
        assert!(
            !matches!(approval_of_response(r), Approval::Once | Approval::Always),
            "Expected '{}' to be denied",
            r
        );
    }
}

#[test]
fn test_always_approve_only_on_a_or_always() {
    // Only "a" and "always" should set the persist flag, not "y" or "yes"
    let always_responses = ["a", "always"];
    let single_responses = ["y", "yes"];

    for r in &always_responses {
        assert!(
            matches!(approval_of_response(r), Approval::Always),
            "Expected '{}' to trigger always-approve",
            r
        );
    }

    for r in &single_responses {
        assert!(
            !matches!(approval_of_response(r), Approval::Always),
            "Expected '{}' NOT to trigger always-approve",
            r
        );
    }
}

#[test]
fn test_always_approve_flag_used_in_confirm_simulation() {
    // End-to-end simulation of the confirm flow with "always"
    let always_approved = Arc::new(AtomicBool::new(false));

    // Simulate three bash commands in sequence
    let commands = ["ls", "echo hello", "cat file.txt"];
    let user_responses = ["a", "", ""]; // user answers "always" first time

    for (i, cmd) in commands.iter().enumerate() {
        let approved = if always_approved.load(Ordering::Relaxed) {
            // Auto-approved — no prompt needed
            true
        } else {
            let answer = approval_of_response(user_responses[i]);
            if answer == Approval::Always {
                always_approved.store(true, Ordering::Relaxed);
            }
            answer != Approval::Deny
        };

        match i {
            0 => assert!(
                approved,
                "First command '{}' should be approved via 'a'",
                cmd
            ),
            1 => assert!(approved, "Second command '{}' should be auto-approved", cmd),
            2 => assert!(approved, "Third command '{}' should be auto-approved", cmd),
            _ => unreachable!(),
        }
    }
}

/// Every stop condition, tested independently: each `false`/exceeded input
/// alone must stop the loop, and all-true must continue. This is the only
/// part of the piped auto-continue loop that can be driven by a test — the
/// loop body is async and does network I/O.
#[test]
fn piped_should_continue_requires_every_condition() {
    // All conditions met -> continue.
    assert!(piped_should_continue(true, 0, 5, false, false, true));
    assert!(piped_should_continue(true, 4, 5, false, false, true));

    // Not opted in -> never continues, whatever else is true.
    assert!(!piped_should_continue(false, 0, 5, false, false, true));

    // Budget spent: count == max stops, and so does count > max.
    assert!(!piped_should_continue(true, 5, 5, false, false, true));
    assert!(!piped_should_continue(true, 6, 5, false, false, true));
    // max == 0 (auto_continue disabled in config) stops immediately.
    assert!(!piped_should_continue(true, 0, 0, false, false, true));

    // An error on the previous turn stops.
    assert!(!piped_should_continue(true, 0, 5, true, false, true));

    // A spent session wall-clock budget stops.
    assert!(!piped_should_continue(true, 0, 5, false, true, true));

    // The shared predicate says there's nothing pending -> stop.
    assert!(!piped_should_continue(true, 0, 5, false, false, false));
}

#[test]
fn looks_like_slash_command_slash_followed_by_numbers() {
    // /123 is technically a slash command (starts with /)
    assert!(looks_like_slash_command("/123"));
    assert!(looks_like_slash_command("/42foo"));
}

#[test]
fn looks_like_slash_command_only_whitespace_before_slash() {
    assert!(looks_like_slash_command("   /test"));
    assert!(looks_like_slash_command("\t\t/test"));
    assert!(looks_like_slash_command(" \n \t /test"));
}

#[test]
fn looks_like_slash_command_empty_and_whitespace() {
    assert!(!looks_like_slash_command(""));
    assert!(!looks_like_slash_command("   "));
    assert!(!looks_like_slash_command("\n\t\n"));
}

#[test]
fn looks_like_slash_command_slash_only() {
    // A single "/" should still be detected as a slash command
    assert!(looks_like_slash_command("/"));
    assert!(looks_like_slash_command("  /"));
}

#[test]
fn looks_like_slash_command_unicode_after_slash() {
    assert!(looks_like_slash_command("/café"));
    assert!(looks_like_slash_command("/日本語"));
}

/// The ladder, in both directions and at every boundary.
///
/// The success row is the entire regression surface — every user, every
/// session — and it is asserted with a whole-value `assert_eq!` against 0
/// rather than a `!= 1`, because "not 1" is satisfied by 2 as well.
#[test]
fn exit_code_for_outcome_table() {
    // The pass-through. This row is every successful run there has ever been.
    assert_eq!(
        exit_code_for_outcome(false, false, false),
        0,
        "a clean run must still exit 0, byte-identically"
    );

    // The fix: a failed run is 1, whatever else is true.
    assert_eq!(exit_code_for_outcome(true, false, false), 1);
    assert_eq!(exit_code_for_outcome(true, true, false), 1);

    // #766, unchanged: a failed --output write is a failed run on its own.
    assert_eq!(exit_code_for_outcome(false, true, false), 1);

    // Checkpoint keeps 2, and keeps LOSING to a failure — a checkpoint is a
    // request to resume and a dead turn has nothing to resume from.
    assert_eq!(exit_code_for_outcome(false, false, true), 2);
    assert_eq!(
        exit_code_for_outcome(true, false, true),
        1,
        "a failed run outranks a triggered checkpoint"
    );
    assert_eq!(
        exit_code_for_outcome(false, true, true),
        1,
        "a failed --output write outranks a triggered checkpoint"
    );
}

/// 1 and 2 mean different things in this binary and must not collide.
///
/// 2 is already spoken for twice — the Day-165 bare-word near-miss guard and
/// `yoyo gasp` on a default build — plus `CHECKPOINT_TRIGGERED` here. A failed
/// run must not be reported with a code a caller already reads as something
/// else.
#[test]
fn a_failed_run_does_not_collide_with_the_checkpoint_code() {
    let failed = exit_code_for_outcome(true, false, false);
    let checkpoint = exit_code_for_outcome(false, false, true);
    assert_ne!(
        failed, checkpoint,
        "a dead turn and a checkpoint must be distinguishable by exit code"
    );
    assert_eq!(failed, 1, "a failed run is the conventional 1");
}

#[test]
fn approval_ignores_case_and_surrounding_whitespace() {
    assert_eq!(approval_of_response("  YES\n"), Approval::Once);
    assert_eq!(approval_of_response("Always"), Approval::Always);
    assert_eq!(approval_of_response(" A "), Approval::Always);
    assert_eq!(approval_of_response("yess"), Approval::Deny);
}

#[test]
fn run_state_exit_code_follows_the_ladder() {
    let mut run = RunState::new();
    assert_eq!(run.exit_code(), 0);
    run.trigger_checkpoint();
    assert!(run.checkpoint_triggered());
    assert_eq!(run.exit_code(), 2);
    run.mark_output_write_failed();
    assert_eq!(run.exit_code(), 1);
    let mut failed = RunState::new();
    failed.mark_failed();
    assert_eq!(failed.exit_code(), 1);
}

#[test]
fn bedrock_credentials_noop_for_non_bedrock() {
    let mut api_key = "sk-test".to_string();
    apply_bedrock_credentials("anthropic", &mut api_key, Some("my-secret"), None);
    assert_eq!(api_key, "sk-test");
}

#[test]
fn bedrock_credentials_noop_when_already_combined() {
    let mut api_key = "access:secret".to_string();
    apply_bedrock_credentials("bedrock", &mut api_key, Some("my-secret"), None);
    assert_eq!(api_key, "access:secret");
}

#[test]
fn bedrock_credentials_combines_access_and_secret() {
    let mut api_key = "my-access".to_string();
    apply_bedrock_credentials("bedrock", &mut api_key, Some("my-secret"), None);
    assert_eq!(api_key, "my-access:my-secret");
}

#[test]
fn bedrock_credentials_includes_session_token() {
    let mut api_key = "my-access".to_string();
    apply_bedrock_credentials("bedrock", &mut api_key, Some("my-secret"), Some("my-token"));
    assert_eq!(api_key, "my-access:my-secret:my-token");
}

#[test]
fn bedrock_credentials_need_a_secret_and_skip_an_empty_token() {
    let mut api_key = "my-access".to_string();
    apply_bedrock_credentials("bedrock", &mut api_key, None, Some("my-token"));
    assert_eq!(api_key, "my-access");
    apply_bedrock_credentials("bedrock", &mut api_key, Some("s"), Some(""));
    assert_eq!(api_key, "my-access:s");
}
