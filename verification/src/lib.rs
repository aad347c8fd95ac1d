//! Raw access to removable media: transfers between a device and a file, the
//! partition tables and the PIT a medium carries, and the commands over them.

pub mod app;
pub mod bar;
pub mod bytes;
pub mod cli;
pub mod device;
pub mod error;
pub mod failing;
pub mod figures;
pub mod hex_layout;
pub mod hexdump;
pub mod longpath;
pub mod medium;
pub mod number;
pub mod output;
pub mod parts;
pub mod pit;
pub mod pit_layout;
pub mod platform;
pub mod progress;
pub mod ranges;
pub mod reading;
pub mod search;
pub mod stream;
pub mod text;
pub mod trace;
pub mod transfer;
pub mod watching;
