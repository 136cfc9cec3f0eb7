//! Verified core of a terminal dashboard for GitHub Actions workflow runs.

pub mod text;
pub mod seqs;
pub mod model;
pub mod github;
pub mod cli;
pub mod config;
pub mod settings;
pub mod state;
pub mod ui;
pub mod notify;
pub mod watch;
