//! Host-side checks for a bridge between sandboxed content and the host:
//! which links may be handed to the system opener, how a downloaded payload
//! is decoded and named on disk, and the steps of audio-session setup.

pub mod error;
pub mod gateway;
pub mod naming;
pub mod download;
pub mod audio;
mod text;
