//! Indexes and downloads the files posted to Telegram chats and channels:
//! classifies the attachments of incoming messages, keeps an index of them,
//! filters and orders it, and plans safe, HTTPS-only downloads.
use vstd::prelude::*;

pub mod cli;
pub mod commands;
pub mod files;
pub mod security;
pub mod storage;
pub mod telegram;
pub mod text;
pub mod ui;

verus! {

} // verus!
