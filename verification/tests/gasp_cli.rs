use yoyo::gasp_cli::{gasp_usage, parse_gasp_args, GaspCommand, GASP_ARMS};


fn argv(parts: &[&str]) -> Vec<String> {
    parts.iter().map(|s| s.to_string()).collect()
}

/// The exact argv `scripts/gasp_shim.sh:132` passes, minus the binary name.
#[test]
fn session_start_happy_path_matches_the_shim_argv() {
    let cmd = parse_gasp_args(&argv(&[
        "session-start",
        "--state-dir",
        "yoyo-gasp",
        "--run-id",
        "run_evolve178_20260825T212400Z",
        "--worker",
        "evolve-shim-4242",
        "--day",
        "178",
        "--goal",
        "goal_self_improvement",
        "--goal-title",
        "Evolve yoyo",
        "--goal-summary",
        "the standing goal",
        "--task",
        "evolve session day 178",
    ]))
    .expect("the shim's own session-start argv must parse");

    match cmd {
        GaspCommand::SessionStart {
            common,
            day,
            task,
            goal_title,
            goal_summary,
        } => {
            assert_eq!(common.state_dir, "yoyo-gasp");
            assert_eq!(common.run_id, "run_evolve178_20260825T212400Z");
            assert_eq!(common.goal.as_deref(), Some("goal_self_improvement"));
            assert_eq!(common.worker.as_deref(), Some("evolve-shim-4242"));
            assert_eq!(day, "178");
            assert_eq!(task.as_deref(), Some("evolve session day 178"));
            assert_eq!(goal_title.as_deref(), Some("Evolve yoyo"));
            assert_eq!(goal_summary.as_deref(), Some("the standing goal"));
        }
        other => panic!("expected SessionStart, got {other:?}"),
    }
}

#[test]
fn task_happy_path_matches_the_shim_argv() {
    let cmd = parse_gasp_args(&argv(&[
        "task",
        "--state-dir",
        "yoyo-gasp",
        "--run-id",
        "run_1",
        "--worker",
        "evolve-shim-1",
        "--goal",
        "goal_self_improvement",
        "--kind",
        "product",
        "--num",
        "2",
        "--title",
        "give the gasp arms a CLI door",
    ]))
    .expect("the shim's own task argv must parse");

    match cmd {
        GaspCommand::Task {
            common,
            num,
            title,
            kind,
        } => {
            assert_eq!(common.run_id, "run_1");
            assert_eq!(num, "2");
            assert_eq!(title, "give the gasp arms a CLI door");
            assert_eq!(kind, "product");
        }
        other => panic!("expected Task, got {other:?}"),
    }
}

#[test]
fn task_result_happy_path_matches_the_shim_argv() {
    let cmd = parse_gasp_args(&argv(&[
        "task-result",
        "--state-dir",
        "yoyo-gasp",
        "--run-id",
        "run_1",
        "--worker",
        "evolve-shim-1",
        "--goal",
        "goal_self_improvement",
        "--kind",
        "evolve",
        "--num",
        "1",
        "--title",
        "fix the deletion parser",
        "--verdict",
        "promoted",
        "--pre-sha",
        "aaaa111",
        "--post-sha",
        "bbbb222",
        "--repo",
        "yologdev/yoyo-evolve",
        "--branch",
        "main",
        "--eval-command",
        "cargo test",
        "--reason",
        "",
    ]))
    .expect("the shim's own task-result argv must parse");

    match cmd {
        GaspCommand::TaskResult {
            common,
            num,
            title,
            verdict,
            pre_sha,
            post_sha,
            repo,
            branch,
            eval_command,
            reason,
            kind,
        } => {
            assert_eq!(common.state_dir, "yoyo-gasp");
            assert_eq!(num, "1");
            assert_eq!(title, "fix the deletion parser");
            assert_eq!(verdict, "promoted");
            assert_eq!(pre_sha, "aaaa111");
            assert_eq!(post_sha, "bbbb222");
            assert_eq!(repo, "yologdev/yoyo-evolve");
            assert_eq!(branch.as_deref(), Some("main"));
            assert_eq!(eval_command.as_deref(), Some("cargo test"));
            // `--reason ""` is how the shim spells "no reason", and the
            // ported arm takes `&str`, so it stays the empty string.
            assert_eq!(reason, "");
            assert_eq!(kind, "evolve");
        }
        other => panic!("expected TaskResult, got {other:?}"),
    }
}

#[test]
fn session_end_happy_path_matches_the_shim_argv() {
    let cmd = parse_gasp_args(&argv(&[
        "session-end",
        "--state-dir",
        "yoyo-gasp",
        "--run-id",
        "run_1",
        "--worker",
        "evolve-shim-1",
        "--goal",
        "goal_self_improvement",
        "--extra",
        "skills,memory",
        "--outcome",
        "done",
    ]))
    .expect("the shim's own session-end argv must parse");

    match cmd {
        GaspCommand::SessionEnd {
            common,
            outcome,
            extra,
        } => {
            assert_eq!(common.goal.as_deref(), Some("goal_self_improvement"));
            assert_eq!(outcome.as_deref(), Some("done"));
            assert_eq!(extra, "skills,memory");
        }
        other => panic!("expected SessionEnd, got {other:?}"),
    }
}

/// The shim passes every optional flag unconditionally and spells "unset"
/// as `""` — so an empty optional must read as absent, not as a value.
#[test]
fn empty_optional_values_read_as_absent() {
    let cmd = parse_gasp_args(&argv(&[
        "session-end",
        "--state-dir",
        "d",
        "--run-id",
        "r",
        "--goal",
        "",
        "--worker",
        "",
        "--outcome",
        "",
        "--extra",
        "",
    ]))
    .expect("empty optional values are the shim's spelling of `unset`");
    match cmd {
        GaspCommand::SessionEnd {
            common,
            outcome,
            extra,
        } => {
            assert_eq!(common.goal, None);
            assert_eq!(common.worker, None);
            assert_eq!(outcome, None);
            assert_eq!(extra, "");
        }
        other => panic!("expected SessionEnd, got {other:?}"),
    }
}

/// One missing-required-flag case per arm, and the error must name the flag
/// — an error that only says "bad arguments" makes the shim's failure log
/// useless.
#[test]
fn missing_required_flag_is_named_for_every_arm() {
    let cases: &[(&[&str], &str)] = &[
        (&["session-start", "--run-id", "r"], "state-dir"),
        (&["session-start", "--state-dir", "d"], "run-id"),
        (
            &["task", "--state-dir", "d", "--run-id", "r", "--title", "t"],
            "num",
        ),
        (
            &["task", "--state-dir", "d", "--run-id", "r", "--num", "1"],
            "title",
        ),
        (
            &[
                "task-result",
                "--state-dir",
                "d",
                "--run-id",
                "r",
                "--num",
                "1",
                "--title",
                "t",
                "--pre-sha",
                "a",
                "--post-sha",
                "b",
                "--repo",
                "o/r",
            ],
            "verdict",
        ),
        (
            &[
                "task-result",
                "--state-dir",
                "d",
                "--run-id",
                "r",
                "--num",
                "1",
                "--title",
                "t",
                "--verdict",
                "promoted",
                "--pre-sha",
                "a",
                "--post-sha",
                "b",
            ],
            "repo",
        ),
        (&["session-end", "--state-dir", "d"], "run-id"),
    ];
    for (args, flag_name) in cases {
        let err = parse_gasp_args(&argv(args))
            .expect_err(&format!("{args:?} is missing --{flag_name}"));
        assert!(
            err.contains(flag_name),
            "the error for {args:?} must name --{flag_name}, got: {err}"
        );
    }
}

/// A required flag present but empty is refused too: an empty run id is a
/// silently wrong record, not a default.
#[test]
fn empty_required_flag_is_refused_and_named() {
    let err = parse_gasp_args(&argv(&[
        "session-start",
        "--state-dir",
        "d",
        "--run-id",
        "",
    ]))
    .expect_err("an empty --run-id must not be accepted");
    assert!(err.contains("run-id"), "got: {err}");
}

#[test]
fn unknown_arm_names_the_four_valid_ones() {
    let err = parse_gasp_args(&argv(&["session-strat", "--state-dir", "d"]))
        .expect_err("an unknown arm must be refused");
    for arm in GASP_ARMS {
        assert!(err.contains(arm), "the error must name `{arm}`, got: {err}");
    }
    assert!(err.contains("session-strat"), "got: {err}");
}

#[test]
fn missing_arm_names_the_four_valid_ones() {
    let err = parse_gasp_args(&[]).expect_err("no arm at all must be refused");
    for arm in GASP_ARMS {
        assert!(err.contains(arm), "the error must name `{arm}`, got: {err}");
    }
}

/// A trailing flag with no value is an `Err` naming it — never a panic, and
/// never a silently swallowed neighbour. This is the one place the parser
/// deliberately diverges from the sidecar, which records an empty value.
#[test]
fn dangling_flag_is_refused_rather_than_swallowing_a_neighbour() {
    let err = parse_gasp_args(&argv(&["session-end", "--state-dir", "d", "--run-id"]))
        .expect_err("a dangling --run-id must be refused");
    assert!(err.contains("run-id"), "got: {err}");
    assert!(err.contains("no value"), "got: {err}");
}

#[test]
fn unrecognised_kind_is_refused_rather_than_guessed() {
    let err = parse_gasp_args(&argv(&[
        "task",
        "--state-dir",
        "d",
        "--run-id",
        "r",
        "--num",
        "1",
        "--title",
        "t",
        "--kind",
        "prodcut",
    ]))
    .expect_err("a misspelled --kind must not pass through the reroute");
    assert!(err.contains("prodcut"), "got: {err}");
    assert!(err.contains("product"), "got: {err}");
    assert!(err.contains("evolve"), "got: {err}");
}

/// The near-miss guard: an empty `--kind` is how the shim spells "unset" and
/// must keep passing. A discriminator tested only on the side that blocks is
/// vacuous green.
#[test]
fn empty_kind_still_passes() {
    let cmd = parse_gasp_args(&argv(&[
        "task",
        "--state-dir",
        "d",
        "--run-id",
        "r",
        "--num",
        "1",
        "--title",
        "t",
        "--kind",
        "",
    ]))
    .expect("`--kind \"\"` is the shim's spelling of unset");
    match cmd {
        GaspCommand::Task { kind, .. } => assert_eq!(kind, ""),
        other => panic!("expected Task, got {other:?}"),
    }
}

/// The sidecar's own rule: a pending flag consumes the next token
/// unconditionally, so an LLM-authored value starting with `--` (a revert
/// reason, a task title) stays a value.
#[test]
fn a_value_starting_with_dashes_stays_a_value() {
    let cmd = parse_gasp_args(&argv(&[
        "task",
        "--state-dir",
        "d",
        "--run-id",
        "r",
        "--num",
        "1",
        "--title",
        "--verdict is not a flag here",
    ]))
    .expect("a value beginning with `--` must not become a flag");
    match cmd {
        GaspCommand::Task { title, .. } => {
            assert_eq!(title, "--verdict is not a flag here");
        }
        other => panic!("expected Task, got {other:?}"),
    }
}

#[test]
fn a_stray_positional_is_refused() {
    let err = parse_gasp_args(&argv(&["session-end", "yoyo-gasp", "--run-id", "r"]))
        .expect_err("a bare positional must not be silently ignored");
    assert!(err.contains("yoyo-gasp"), "got: {err}");
}

#[test]
fn usage_names_every_arm() {
    let usage = gasp_usage();
    for arm in GASP_ARMS {
        assert!(usage.contains(arm), "usage must name `{arm}`: {usage}");
    }
}
