//! Verified core of `jj-gh`: the planning, parsing and rendering logic behind
//! a CLI that manages GitHub pull requests for `jj` repositories.
//!
//! Everything that talks to a process, a terminal or the network lives in the
//! companion binary; this crate holds the decisions, each with its contract.

pub mod text;
pub mod remote_url;
pub mod remote;
pub mod reviewer;
pub mod config;
pub mod gh;
pub mod jj;
pub mod stack_detect;
pub mod stack_create;
pub mod numbers;
pub mod stack_plan;
pub mod restack;
pub mod restack_ui;
pub mod restack_log;
pub mod frontmatter;
pub mod title;
pub mod shell;
pub mod auth;
pub mod editor;
pub mod logging;
pub mod ci;
pub mod gh_search;
pub mod create_flow;
pub mod report;
pub mod stack_apply;
pub mod stack_run;
pub mod jj_output;
pub mod completions;
pub mod edit_flow;
pub mod lookup;
pub mod gh_response;
pub mod body_template;
