//! Verified core logic of the cmux terminal multiplexer.
#![allow(unused_imports)]

pub mod admission;
pub mod browser_refs;
pub mod commands;
pub mod dispatch;
pub mod environment;
pub mod events;
pub mod framing;
pub mod git_metadata;
pub mod gl_environment;
pub mod ids;
pub mod inbox;
pub mod inbox_actions;
pub mod json;
pub mod notification_caller;
pub mod notifications;
pub mod palette;
pub mod pane_tree;
pub mod polling;
pub mod ports;
pub mod project_action;
pub mod project_config;
pub mod project_layout;
pub mod project_run;
pub mod registry;
pub mod remote_transport;
pub mod response;
pub mod review_comments;
pub mod resume;
pub mod resume_command;
pub mod resume_policy;
pub mod scrollback;
pub mod selection;
pub mod shell;
pub mod session;
pub mod signing;
pub mod surface;
pub mod text;
pub mod timestamp;
pub mod utf8_stream;
