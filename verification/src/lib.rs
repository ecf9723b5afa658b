//! Verified core of a LAN clipboard: the rules by which devices of one sharing
//! domain recognise each other, exchange clipboard contents and store them.

pub mod bytes;
pub mod clipboard;
pub mod commands;
pub mod net;
pub mod order;
pub mod primitives;
pub mod protocol;
pub mod settings;
pub mod state;
pub mod storage;
pub mod text;
pub mod uuid_text;
