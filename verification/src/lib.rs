//! Pure decision logic of the yoyo coding agent: argument parsers, diff readers,
//! commit-message heuristics, hook plumbing and rate-limit decisions.
pub mod text;
pub mod time;
pub mod prompt_retry_limits;
pub mod prompt;
pub mod gasp_cli;
pub mod git;
pub mod git_commit_msg;
pub mod hooks;
pub mod hook_payload;
pub mod prompt_budget;
pub mod run;
pub mod repl;
pub mod turn;
