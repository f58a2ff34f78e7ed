//! Verified core of an AI-agent collaboration platform: calendar arithmetic for
//! timestamps, the organisation chart, the task board, workspace access control
//! and the pure parts of the agents' tools.

pub mod clock;
pub mod text;
pub mod config;
pub mod org;
pub mod hierarchy;
pub mod tasks;
pub mod workspace;
pub mod tools;
pub mod agents;
pub mod activity;
pub mod history;
pub mod chat;
