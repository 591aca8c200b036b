//! The decisions of a desktop assistant that drafts replies to chat messages.
//!
//! The library finds the message to answer, says what to ask the assistant application and how to
//! get its answer, and turns the answer into a draft. It also keeps the activity log and makes
//! reports of it, maintains the knowledge base, and holds the state of the window. What it needs of
//! the outside world it gets as plain values, and what is to be done there it says as plain values.

pub mod activity;
pub mod autostart;
pub mod cli;
pub mod config;
pub mod copilot;
pub mod drive;
pub mod gui;
pub mod json;
pub mod learn;
pub mod logs;
pub mod mem;
pub mod number;
pub mod order;
pub mod paths;
pub mod report;
pub mod slack_api;
pub mod text;
pub mod triage;
pub mod uia;
pub mod updater;
pub mod watch;
pub mod win32;
