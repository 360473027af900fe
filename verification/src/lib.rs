//! Core logic of a clipboard history manager: the history list, text
//! previews, the clipboard payload codecs and the persisted store.

pub mod text;
pub mod utf16;
pub mod codec;
pub mod entry;
pub mod clipboard;
pub mod history;
pub mod storage;
pub mod paste;
pub mod watch;
