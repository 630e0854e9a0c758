//! Relays issue-tracker events into a chat webhook: who is notified for an
//! issue, what the message says, and how a delivery reacts to the
//! webhook's answers.

pub mod color;
pub mod config;
pub mod delivery;
pub mod discord_dtos;
pub mod error;
pub mod github_dtos;
pub mod issue_event;
pub mod label_map;
pub mod message;
pub mod orchestrator;
pub mod recipient_set;
pub mod retry_after;
pub mod text;
