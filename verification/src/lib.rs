//! A Polycentric chat client library: the protocol's wire format, event
//! construction and signing, identity storage records, the text that the
//! client shows for protocol values, and the client's pages as state
//! machines.
//!
//! The protocol's messages are protocol-buffer messages; `wire` holds the
//! byte-level format and the message modules (`keys`, `event`, `content`,
//! `query`) hold the messages, each with a value (`@`), an encoder and a
//! decoder whose contracts are stated over the same field lists.
//!
//! The pages (`chat_page`, `post_page`, `account_page`, `query_page`) take
//! what happens to them (the user's input, the answers of storage and of the
//! server) and give their new state and what they ask the outside to do; the
//! user interface carries that out.

pub mod account_page;
pub mod api;
pub mod chat;
pub mod chat_page;
pub mod clock;
pub mod content;
pub mod crypto;
pub mod display;
pub mod event;
pub mod format;
pub mod inspect;
pub mod keys;
pub mod post_page;
pub mod query;
pub mod query_page;
pub mod session;
pub mod storage;
pub mod text;
pub mod wire;
