//! Verified core of a command-line bridge to Chromium browsers speaking the
//! DevTools protocol: tab selection, snapshot paths, network capture
//! bookkeeping, response-body decoding and input planning.

pub mod text;
pub mod network;
pub mod body;
pub mod paths;
pub mod tabs;
pub mod typing;
pub mod snapshot;
pub mod wait;
pub mod state;
pub mod setup;


