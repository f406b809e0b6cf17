use yoyo::git::{
    append_co_authored_trailer, build_pr_description_prompt, colorize_diff, detect_base_branch,
    file_change_counts, format_stash_list, generate_commit_message, glob_match_simple,
    parse_git_args, parse_pr_description, parse_stage_selection, parse_status_files,
    GitSubcommand, DESTRUCTIVE_GIT_COMMANDS, STASH_SUBCOMMANDS,
};

#[test]
fn git_test_generate_commit_message_basic() {
    let diff = "\
diff --git a/src/main.rs b/src/main.rs
--- a/src/main.rs
+++ b/src/main.rs
@@ -1,3 +1,5 @@
+// new comment
+use std::io;
 fn main() {
 println!(\"hello\");
 }
";
    let msg = generate_commit_message(diff);
    // Should produce a conventional commit format: type(scope): description
    assert!(msg.contains('('), "Should have scope: {msg}");
    assert!(msg.contains("):"), "Should have conventional format: {msg}");
    assert!(msg.contains("main"), "Scope should mention 'main': {msg}");
}

#[test]
fn git_test_generate_commit_message_docs() {
    let diff = "\
diff --git a/README.md b/README.md
--- a/README.md
+++ b/README.md
@@ -1,2 +1,3 @@
 # Project
+New docs line
";
    let msg = generate_commit_message(diff);
    assert!(
        msg.starts_with("docs("),
        "Markdown changes should use docs prefix: {msg}"
    );
}

#[test]
fn git_test_generate_commit_message_multiple_files() {
    let diff = "\
diff --git a/src/a.rs b/src/a.rs
--- a/src/a.rs
+++ b/src/a.rs
@@ -1 +1,2 @@
+// change a
diff --git a/src/b.rs b/src/b.rs
--- a/src/b.rs
+++ b/src/b.rs
@@ -1 +1,2 @@
+// change b
diff --git a/src/c.rs b/src/c.rs
--- a/src/c.rs
+++ b/src/c.rs
@@ -1 +1,2 @@
+// change c
diff --git a/src/d.rs b/src/d.rs
--- a/src/d.rs
+++ b/src/d.rs
@@ -1 +1,2 @@
+// change d
";
    let msg = generate_commit_message(diff);
    // More than 3 files should show "N files"
    assert!(
        msg.contains("4 files"),
        "Should show file count for many files: {msg}"
    );
}

#[test]
fn git_test_generate_commit_message_deletions_only() {
    let diff = "\
diff --git a/src/old.rs b/src/old.rs
--- a/src/old.rs
+++ b/src/old.rs
@@ -1,5 +1,2 @@
-// removed line 1
-// removed line 2
-// removed line 3
 fn keep() {}
";
    let msg = generate_commit_message(diff);
    assert!(
        msg.contains("remove code"),
        "Pure deletion should say 'remove code': {msg}"
    );
}

#[test]
fn test_git_subcommand_help() {
    assert_eq!(parse_git_args(""), GitSubcommand::Help);
    assert_eq!(parse_git_args("  "), GitSubcommand::Help);
    // Unknown words no longer silently show generic help — they name the word
    // so handle_git can print an honest error with a did-you-mean suggestion.
    assert_eq!(
        parse_git_args("unknown"),
        GitSubcommand::Unknown("unknown".to_string())
    );
    assert_eq!(
        parse_git_args("push"),
        GitSubcommand::Unknown("push".to_string())
    );
}

#[test]
fn test_git_subcommand_status() {
    assert_eq!(parse_git_args("status"), GitSubcommand::Status);
    assert_eq!(parse_git_args("STATUS"), GitSubcommand::Status);
    assert_eq!(parse_git_args("Status"), GitSubcommand::Status);
}

#[test]
fn test_git_subcommand_log() {
    assert_eq!(parse_git_args("log"), GitSubcommand::Log(5));
    assert_eq!(parse_git_args("log 10"), GitSubcommand::Log(10));
    assert_eq!(parse_git_args("log 1"), GitSubcommand::Log(1));
    assert_eq!(parse_git_args("LOG 20"), GitSubcommand::Log(20));
    // Invalid number falls back to default 5
    assert_eq!(parse_git_args("log abc"), GitSubcommand::Log(5));
}

#[test]
fn test_git_subcommand_add() {
    assert_eq!(
        parse_git_args("add src/main.rs"),
        GitSubcommand::Add("src/main.rs".to_string())
    );
    assert_eq!(parse_git_args("add ."), GitSubcommand::Add(".".to_string()));
    assert_eq!(
        parse_git_args("ADD Cargo.toml"),
        GitSubcommand::Add("Cargo.toml".to_string())
    );
    // add without path shows help
    assert_eq!(parse_git_args("add"), GitSubcommand::Help);
    assert_eq!(parse_git_args("add  "), GitSubcommand::Help);
}

#[test]
fn test_git_subcommand_stash() {
    assert_eq!(parse_git_args("stash"), GitSubcommand::Stash);
    assert_eq!(parse_git_args("STASH"), GitSubcommand::Stash);
}

#[test]
fn test_git_subcommand_stash_pop() {
    assert_eq!(parse_git_args("stash pop"), GitSubcommand::StashPop);
    assert_eq!(parse_git_args("STASH POP"), GitSubcommand::StashPop);
    assert_eq!(parse_git_args("stash Pop"), GitSubcommand::StashPop);
}

#[test]
fn test_git_subcommand_stash_list() {
    assert_eq!(parse_git_args("stash list"), GitSubcommand::StashList);
    assert_eq!(parse_git_args("STASH LIST"), GitSubcommand::StashList);
    assert_eq!(parse_git_args("stash List"), GitSubcommand::StashList);
}

#[test]
fn test_git_subcommand_stash_show() {
    assert_eq!(parse_git_args("stash show"), GitSubcommand::StashShow(None));
    assert_eq!(
        parse_git_args("stash show 2"),
        GitSubcommand::StashShow(Some(2))
    );
    assert_eq!(
        parse_git_args("STASH SHOW 0"),
        GitSubcommand::StashShow(Some(0))
    );
    // Non-numeric argument no longer silently falls back to stash@{0} —
    // it surfaces as a bad-index error instead of showing the wrong stash.
    assert_eq!(
        parse_git_args("stash show abc"),
        GitSubcommand::BadStashIndex {
            action: "show".to_string(),
            arg: "abc".to_string(),
        }
    );
}

#[test]
fn test_git_subcommand_stash_drop() {
    assert_eq!(parse_git_args("stash drop"), GitSubcommand::StashDrop(None));
    assert_eq!(
        parse_git_args("stash drop 3"),
        GitSubcommand::StashDrop(Some(3))
    );
    assert_eq!(
        parse_git_args("STASH DROP 1"),
        GitSubcommand::StashDrop(Some(1))
    );
    // Non-numeric argument must NOT silently drop stash@{0} — that's data loss
    assert_eq!(
        parse_git_args("stash drop xyz"),
        GitSubcommand::BadStashIndex {
            action: "drop".to_string(),
            arg: "xyz".to_string()
        }
    );
}

/// Fixture table for the destructive-silent-swallow class (Day 142):
/// typo'd stash words must never fall through to `stash push` (which would
/// stash the user's entire working tree), and bad indices must never
/// default to acting on stash@{0}.
#[test]
fn test_git_unknown_inputs_never_destructive() {
    let cases: &[(&str, GitSubcommand)] = &[
        // typo'd stash word — must NOT become Stash (push)
        ("stash pip", GitSubcommand::UnknownStash("pip".to_string())),
        (
            "stash pops",
            GitSubcommand::UnknownStash("pops".to_string()),
        ),
        (
            "STASH Aply",
            GitSubcommand::UnknownStash("Aply".to_string()),
        ),
        // bad index — must NOT default to stash@{0}
        (
            "stash drop abc",
            GitSubcommand::BadStashIndex {
                action: "drop".to_string(),
                arg: "abc".to_string(),
            },
        ),
        (
            "stash show 1x",
            GitSubcommand::BadStashIndex {
                action: "show".to_string(),
                arg: "1x".to_string(),
            },
        ),
        // top-level unknown word — named, not generic help
        ("statsu", GitSubcommand::Unknown("statsu".to_string())),
        ("push", GitSubcommand::Unknown("push".to_string())),
    ];
    for (input, expected) in cases {
        assert_eq!(&parse_git_args(input), expected, "input: {input:?}");
    }
    // Still-valid shapes are untouched
    assert_eq!(parse_git_args("stash"), GitSubcommand::Stash);
    assert_eq!(parse_git_args("stash push"), GitSubcommand::Stash);
    assert_eq!(parse_git_args("stash pop"), GitSubcommand::StashPop);
    assert_eq!(
        parse_git_args("stash drop 2"),
        GitSubcommand::StashDrop(Some(2))
    );
    assert_eq!(parse_git_args("stash drop"), GitSubcommand::StashDrop(None));
    // Trailing whitespace after show/drop still means "no index given"
    assert_eq!(
        parse_git_args("stash show "),
        GitSubcommand::StashShow(None)
    );
}

/// Drift guard: every word in STASH_SUBCOMMANDS must parse to a real
/// (non-Unknown) variant — the const and the match arms are two surfaces
/// of one fact (Day 140: derive enumerations, don't copy them).
#[test]
fn test_stash_subcommands_const_covers_parse() {
    for word in STASH_SUBCOMMANDS {
        let parsed = parse_git_args(&format!("stash {word}"));
        assert!(
            !matches!(
                parsed,
                GitSubcommand::UnknownStash(_) | GitSubcommand::Unknown(_)
            ),
            "STASH_SUBCOMMANDS lists '{word}' but parse_git_args treats it as unknown"
        );
    }
}

#[test]
fn test_git_subcommand_stash_push() {
    // "stash push" is an explicit alias for "stash"
    assert_eq!(parse_git_args("stash push"), GitSubcommand::Stash);
    assert_eq!(parse_git_args("STASH PUSH"), GitSubcommand::Stash);
}

#[test]
fn test_format_stash_list_empty() {
    let result = format_stash_list("");
    assert!(
        result.contains("no stashes"),
        "Empty input should show 'no stashes': {result}"
    );
}

#[test]
fn test_format_stash_list_single_entry() {
    let input = "stash@{0}: WIP on main: abc1234 fix tests";
    let result = format_stash_list(input);
    // Should contain the stash ref
    assert!(
        result.contains("stash@{0}"),
        "Should contain stash ref: {result}"
    );
    // Should contain the message
    assert!(
        result.contains("fix tests"),
        "Should contain the message: {result}"
    );
}

#[test]
fn test_format_stash_list_multiple_entries() {
    let input = "\
stash@{0}: WIP on main: abc1234 fix tests
stash@{1}: On feature: def5678 wip stuff";
    let result = format_stash_list(input);
    assert!(
        result.contains("stash@{0}"),
        "Should contain first stash ref: {result}"
    );
    assert!(
        result.contains("stash@{1}"),
        "Should contain second stash ref: {result}"
    );
    assert!(
        result.contains("fix tests"),
        "Should contain first message: {result}"
    );
    assert!(
        result.contains("wip stuff"),
        "Should contain second message: {result}"
    );
}

#[test]
fn test_format_stash_list_uses_ansi_colors() {
    let input = "stash@{0}: WIP on main: abc1234 fix tests";
    let result = format_stash_list(input);
    // Should use YELLOW for stash ref
    assert!(
        result.contains("\x1b[33m"),
        "Should use YELLOW ANSI code: {result}"
    );
    // Should use BOLD for message
    assert!(
        result.contains("\x1b[1m"),
        "Should use BOLD ANSI code: {result}"
    );
    // Should use DIM for middle part
    assert!(
        result.contains("\x1b[2m"),
        "Should use DIM ANSI code: {result}"
    );
}

#[test]
fn test_git_subcommand_diff() {
    assert_eq!(
        parse_git_args("diff"),
        GitSubcommand::Diff { cached: false }
    );
    assert_eq!(
        parse_git_args("DIFF"),
        GitSubcommand::Diff { cached: false }
    );
    assert_eq!(
        parse_git_args("diff --cached"),
        GitSubcommand::Diff { cached: true }
    );
    assert_eq!(
        parse_git_args("DIFF --CACHED"),
        GitSubcommand::Diff { cached: true }
    );
    // Non-cached flag treated as not cached
    assert_eq!(
        parse_git_args("diff --stat"),
        GitSubcommand::Diff { cached: false }
    );
}

#[test]
fn test_git_subcommand_branch() {
    assert_eq!(parse_git_args("branch"), GitSubcommand::Branch(None));
    assert_eq!(parse_git_args("BRANCH"), GitSubcommand::Branch(None));
    assert_eq!(
        parse_git_args("branch feature/new"),
        GitSubcommand::Branch(Some("feature/new".to_string()))
    );
    assert_eq!(
        parse_git_args("BRANCH my-branch"),
        GitSubcommand::Branch(Some("my-branch".to_string()))
    );
    // branch with empty name is just listing
    assert_eq!(parse_git_args("branch  "), GitSubcommand::Branch(None));
}

#[test]
fn test_detect_base_branch_returns_valid_name() {
    // Whatever `git rev-parse --verify` reports for `main` and `master`.
    for (main_exists, master_exists) in [(true, true), (true, false), (false, true), (false, false)] {
        let base = detect_base_branch(main_exists, master_exists);
        assert!(
            base == "main" || base == "master",
            "Base branch should be 'main' or 'master', got: {base}"
        );
    }
}

#[test]
fn test_build_pr_description_prompt_contains_info() {
    let prompt = build_pr_description_prompt(
        "feature/test",
        "main",
        "abc1234 Add feature\ndef5678 Fix bug\n",
        "+++ b/src/main.rs\n+// new code\n",
    );
    assert!(
        prompt.contains("feature/test"),
        "Prompt should contain branch name"
    );
    assert!(prompt.contains("main"), "Prompt should contain base branch");
    assert!(prompt.contains("abc1234"), "Prompt should contain commits");
    assert!(prompt.contains("new code"), "Prompt should contain diff");
    assert!(
        prompt.contains("TITLE:"),
        "Prompt should ask for TITLE format"
    );
}

#[test]
fn test_build_pr_description_prompt_truncates_large_diff() {
    let large_diff = "x".repeat(20_000);
    let prompt = build_pr_description_prompt("branch", "main", "commit1", &large_diff);
    assert!(
        prompt.contains("diff truncated"),
        "Large diffs should be truncated"
    );
    // The prompt should not be the full 20k+ length
    assert!(
        prompt.len() < 20_000,
        "Prompt should be truncated, got {} chars",
        prompt.len()
    );
}

#[test]
fn test_parse_pr_description_valid() {
    let response = "TITLE: feat: add PR creation command\n---\nThis PR adds the `/pr create` command.\n\n- New command\n- AI-generated descriptions";
    let result = parse_pr_description(response);
    assert!(result.is_some(), "Should parse valid response");
    let (title, body) = result.unwrap();
    assert_eq!(title, "feat: add PR creation command");
    assert!(body.contains("This PR adds"));
    assert!(body.contains("- New command"));
}

#[test]
fn test_parse_pr_description_with_extra_whitespace() {
    let response =
        "\n  TITLE: fix: resolve crash on startup\n---\n\nFixed the null pointer issue.\n  ";
    let result = parse_pr_description(response);
    assert!(result.is_some(), "Should parse with extra whitespace");
    let (title, body) = result.unwrap();
    assert_eq!(title, "fix: resolve crash on startup");
    assert!(body.contains("Fixed the null pointer"));
}

#[test]
fn test_parse_pr_description_missing_title() {
    let response = "Some random text without TITLE line\n---\nbody here";
    let result = parse_pr_description(response);
    assert!(result.is_none(), "Should fail without TITLE: line");
}

#[test]
fn test_parse_pr_description_missing_separator() {
    let response = "TITLE: some title\nbody without separator";
    let result = parse_pr_description(response);
    assert!(result.is_none(), "Should fail without --- separator");
}

#[test]
fn test_parse_pr_description_empty_title() {
    let response = "TITLE: \n---\nbody here";
    let result = parse_pr_description(response);
    assert!(result.is_none(), "Should fail with empty title");
}

#[test]
fn colorize_diff_green_for_additions() {
    let diff = "+added line\n context\n";
    let result = colorize_diff(diff);
    assert!(
        result.contains("\x1b[32m+added line\x1b[0m"),
        "Addition lines should be green: {result}"
    );
}

#[test]
fn colorize_diff_red_for_deletions() {
    let diff = "-removed line\n context\n";
    let result = colorize_diff(diff);
    assert!(
        result.contains("\x1b[31m-removed line\x1b[0m"),
        "Deletion lines should be red: {result}"
    );
}

#[test]
fn colorize_diff_cyan_for_hunk_headers() {
    let diff = "@@ -1,3 +1,4 @@\n context\n";
    let result = colorize_diff(diff);
    assert!(
        result.contains("\x1b[36m@@ -1,3 +1,4 @@\x1b[0m"),
        "Hunk headers should be cyan: {result}"
    );
}

#[test]
fn colorize_diff_bold_for_file_headers() {
    let diff = "diff --git a/foo.rs b/foo.rs\n--- a/foo.rs\n+++ b/foo.rs\n";
    let result = colorize_diff(diff);
    assert!(
        result.contains("\x1b[1mdiff --git a/foo.rs b/foo.rs\x1b[0m"),
        "diff --git lines should be bold: {result}"
    );
    assert!(
        result.contains("\x1b[1m--- a/foo.rs\x1b[0m"),
        "--- lines should be bold: {result}"
    );
    assert!(
        result.contains("\x1b[1m+++ b/foo.rs\x1b[0m"),
        "+++ lines should be bold: {result}"
    );
}

#[test]
fn colorize_diff_context_lines_unchanged() {
    let diff = " context line\nanother context\n";
    let result = colorize_diff(diff);
    assert!(
        result.contains(" context line\n"),
        "Context lines should be unchanged: {result}"
    );
    assert!(
        result.contains("another context\n"),
        "Context lines should be unchanged: {result}"
    );
    // Should NOT contain any ANSI codes on context lines
    assert!(
        !result.contains("\x1b[32m context line"),
        "Context lines should not be colored"
    );
}

#[test]
fn colorize_diff_empty_input() {
    let result = colorize_diff("");
    assert_eq!(result, "", "Empty input should return empty output");
}

#[test]
fn co_authored_trailer_normal_message() {
    let result = append_co_authored_trailer("fix: typo");
    assert_eq!(
        result,
        "fix: typo\n\nCo-authored-by: yoyo <yoyo@users.noreply.github.com>"
    );
}

#[test]
fn co_authored_trailer_empty_message() {
    let result = append_co_authored_trailer("");
    assert!(
        result.contains("Co-authored-by: yoyo"),
        "Should still append trailer to empty message"
    );
}

#[test]
fn co_authored_trailer_already_present() {
    let msg = "fix: typo\n\nCo-authored-by: yoyo <yoyo@users.noreply.github.com>";
    let result = append_co_authored_trailer(msg);
    assert_eq!(result, msg, "Should not duplicate existing trailer");
}

#[test]
fn co_authored_trailer_multiline_message() {
    let msg = "feat: add new command\n\nThis adds a cool new feature\nwith multiple lines.";
    let result = append_co_authored_trailer(msg);
    assert!(
        result.starts_with(msg),
        "Original message should be preserved"
    );
    assert!(
        result.ends_with("Co-authored-by: yoyo <yoyo@users.noreply.github.com>"),
        "Trailer should be at the end"
    );
    // Ensure proper blank line separation
    assert!(
        result.contains("\n\nCo-authored-by:"),
        "Trailer should be separated by a blank line"
    );
}

#[test]
fn destructive_guard_list_covers_original_incident() {
    // The incident behind the list was `run_git(&["revert", "HEAD", "--no-edit"])`
    assert!(
        DESTRUCTIVE_GIT_COMMANDS.contains(&"revert"),
        "revert must be in destructive list (original incident)"
    );
    assert!(
        DESTRUCTIVE_GIT_COMMANDS.contains(&"reset"),
        "reset must be in destructive list"
    );
    assert!(
        DESTRUCTIVE_GIT_COMMANDS.contains(&"push"),
        "push must be in destructive list"
    );
}

#[test]
fn test_parse_git_args_stage() {
    assert_eq!(parse_git_args("stage"), GitSubcommand::Stage);
    assert_eq!(parse_git_args("STAGE"), GitSubcommand::Stage);
    assert_eq!(parse_git_args("Stage"), GitSubcommand::Stage);
}

#[test]
fn test_parse_status_files_basic() {
    let porcelain = " M src/main.rs\n?? new_file.rs\n D deleted.rs\n";
    let files = parse_status_files(porcelain);
    assert_eq!(files.len(), 3);
    assert_eq!(files[0], ("M".to_string(), "src/main.rs".to_string()));
    assert_eq!(files[1], ("??".to_string(), "new_file.rs".to_string()));
    assert_eq!(files[2], ("D".to_string(), "deleted.rs".to_string()));
}

#[test]
fn test_parse_status_files_empty() {
    assert_eq!(parse_status_files(""), Vec::<(String, String)>::new());
    assert_eq!(parse_status_files("\n"), Vec::<(String, String)>::new());
}

#[test]
fn test_parse_stage_selection_all() {
    let files = vec![
        ("M".to_string(), "a.rs".to_string()),
        ("M".to_string(), "b.rs".to_string()),
        ("??".to_string(), "c.rs".to_string()),
    ];
    assert_eq!(parse_stage_selection("all", &files), vec![0, 1, 2]);
    assert_eq!(parse_stage_selection("a", &files), vec![0, 1, 2]);
}

#[test]
fn test_parse_stage_selection_single() {
    let files = vec![
        ("M".to_string(), "a.rs".to_string()),
        ("M".to_string(), "b.rs".to_string()),
        ("??".to_string(), "c.rs".to_string()),
    ];
    assert_eq!(parse_stage_selection("1", &files), vec![0]);
    assert_eq!(parse_stage_selection("2", &files), vec![1]);
    assert_eq!(parse_stage_selection("3", &files), vec![2]);
}

#[test]
fn test_parse_stage_selection_range() {
    let files = vec![
        ("M".to_string(), "a.rs".to_string()),
        ("M".to_string(), "b.rs".to_string()),
        ("??".to_string(), "c.rs".to_string()),
        ("D".to_string(), "d.rs".to_string()),
    ];
    assert_eq!(parse_stage_selection("1-3", &files), vec![0, 1, 2]);
    assert_eq!(parse_stage_selection("2-4", &files), vec![1, 2, 3]);
}

#[test]
fn test_parse_stage_selection_comma_separated() {
    let files = vec![
        ("M".to_string(), "a.rs".to_string()),
        ("M".to_string(), "b.rs".to_string()),
        ("??".to_string(), "c.rs".to_string()),
        ("D".to_string(), "d.rs".to_string()),
    ];
    assert_eq!(parse_stage_selection("1,3", &files), vec![0, 2]);
    assert_eq!(parse_stage_selection("1,3,4", &files), vec![0, 2, 3]);
}

#[test]
fn test_parse_stage_selection_mixed() {
    let files = vec![
        ("M".to_string(), "a.rs".to_string()),
        ("M".to_string(), "b.rs".to_string()),
        ("??".to_string(), "c.rs".to_string()),
        ("D".to_string(), "d.rs".to_string()),
        ("M".to_string(), "e.rs".to_string()),
    ];
    assert_eq!(parse_stage_selection("1,3-5", &files), vec![0, 2, 3, 4]);
}

#[test]
fn test_parse_stage_selection_glob() {
    let files = vec![
        ("M".to_string(), "src/main.rs".to_string()),
        ("M".to_string(), "src/lib.rs".to_string()),
        ("??".to_string(), "README.md".to_string()),
        ("M".to_string(), "Cargo.toml".to_string()),
    ];
    assert_eq!(parse_stage_selection("*.rs", &files), vec![0, 1]);
    assert_eq!(parse_stage_selection("*.md", &files), vec![2]);
    assert_eq!(parse_stage_selection("src/*", &files), vec![0, 1]);
}

#[test]
fn test_parse_stage_selection_quit_and_empty() {
    let files = vec![("M".to_string(), "a.rs".to_string())];
    assert_eq!(parse_stage_selection("q", &files), Vec::<usize>::new());
    assert_eq!(parse_stage_selection("", &files), Vec::<usize>::new());
    assert_eq!(parse_stage_selection("  ", &files), Vec::<usize>::new());
}

#[test]
fn test_parse_stage_selection_out_of_range() {
    let files = vec![
        ("M".to_string(), "a.rs".to_string()),
        ("M".to_string(), "b.rs".to_string()),
    ];
    // Out-of-range numbers are silently dropped
    assert_eq!(parse_stage_selection("5", &files), Vec::<usize>::new());
    assert_eq!(parse_stage_selection("0", &files), Vec::<usize>::new());
    // But valid ones remain
    assert_eq!(parse_stage_selection("1,5", &files), vec![0]);
}

#[test]
fn test_parse_stage_selection_deduplicates() {
    let files = vec![
        ("M".to_string(), "a.rs".to_string()),
        ("M".to_string(), "b.rs".to_string()),
        ("M".to_string(), "c.rs".to_string()),
    ];
    // Overlapping range and explicit number
    assert_eq!(parse_stage_selection("1-2,2", &files), vec![0, 1]);
}

#[test]
fn test_glob_match_simple_patterns() {
    assert!(glob_match_simple("*.rs", "main.rs"));
    assert!(glob_match_simple("*.rs", "src/lib.rs"));
    assert!(!glob_match_simple("*.rs", "main.toml"));
    assert!(glob_match_simple("src/*", "src/main.rs"));
    assert!(!glob_match_simple("src/*", "tests/main.rs"));
    assert!(glob_match_simple("??.rs", "ab.rs"));
    assert!(!glob_match_simple("??.rs", "abc.rs"));
}

#[test]
fn test_file_change_counts_returns_results() {
    // In the yoyo repo, there should be at least some changed files in the last 30 days
    // This test runs against the real repo — it's an integration-style test
    // The text `git log --since="30 days ago" --name-only --pretty=format:` prints.
    let log = "src/main.rs\nsrc/git.rs\n\nsrc/main.rs\nREADME.md\n";
    let counts = file_change_counts(log);
    // Don't assert specific files, but the function should not panic
    // and should return some results in a repo with history
    // (may be empty in shallow clones, which is fine)
    let _ = counts; // just verify it doesn't panic
}

#[test]
fn git_generate_commit_message_is_the_weighted_generator() {
    let deleted = "\
diff --git a/mutants.toml b/mutants.toml
deleted file mode 100644
--- a/mutants.toml
+++ /dev/null
@@ -1,2 +0,0 @@
-a = 1
-b = 2
";
    let contest = "\
diff --git a/src/contest.rs b/src/contest.rs
--- a/src/contest.rs
+++ b/src/contest.rs
@@ -1 +1,2 @@
+// entry
";
    for diff in ["", deleted, contest] {
        assert_eq!(
            generate_commit_message(diff),
            yoyo::git_commit_msg::generate_commit_message(diff)
        );
    }
    assert_eq!(generate_commit_message(""), "feat(): update code");
    assert_eq!(generate_commit_message(deleted), "refactor(mutants): remove code");
    assert_eq!(generate_commit_message(contest), "feat(contest): add changes");
}

#[test]
fn git_report_names_the_unknown_word() {
    let ok = Ok(String::new());
    let r = yoyo::git::git_report_for(&GitSubcommand::Unknown("statsu".to_string()), &ok);
    assert_eq!(r.out, "\x1b[31m  unknown /git subcommand 'statsu' (see /git help)\x1b[0m\n\n");
    assert_eq!(r.err, "");
    let r = yoyo::git::git_report_for(&parse_git_args("stash pip"), &ok);
    assert_eq!(r.out, "\x1b[31m  unknown /git stash subcommand 'pip' (see /git help)\x1b[0m\n\n");
    let r = yoyo::git::git_report_for(
        &GitSubcommand::BadStashIndex { action: "drop".to_string(), arg: "x".to_string() },
        &ok,
    );
    assert_eq!(
        r.out,
        "\x1b[31m  invalid stash index 'x' for /git stash drop (expected a number)\x1b[0m\n\n"
    );
    let r = yoyo::git::git_report_for(&GitSubcommand::Stage, &ok);
    assert_eq!((r.out.as_str(), r.err.as_str()), ("", ""));
}
