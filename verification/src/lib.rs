//! The decisions of a native Signal messenger channel and of its bridge
//! adapter, stated as contracts and proved.

pub mod backoff;
pub mod bridge;
pub mod channel;
pub mod cli;
pub mod clock;
pub mod content;
pub mod error;
pub mod hex;
pub mod identity;
pub mod linking;
pub mod path;
pub mod recipient;
pub mod store;
pub mod text;
