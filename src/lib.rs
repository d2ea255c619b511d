//! Core control logic of an AI-agent runtime: conversation messages, the
//! extension registry, the permission check, the context window, the reply
//! state machine, the session transcript and its interrupt recovery, and the
//! prompt completion index.
pub mod bench;
pub mod command;
pub mod completion;
pub mod configure;
pub mod context;
pub mod extension;
pub mod message;
pub mod permission;
pub mod provider;
pub mod reply;
pub mod session;
