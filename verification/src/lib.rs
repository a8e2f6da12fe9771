//! Core logic of a desktop companion widget that mirrors a user's current
//! streaming-audio playback and keeps that state live by polling a remote
//! control API, with a fallback to a locally indexed audio library for
//! cover art.
//!
//! The crate holds the verified heart of the application: text
//! normalization and key building, the local library index, the artwork
//! resolution tiers, the token and settings file codec, the OAuth loopback
//! callback parsing, and the session/poller state transitions. All I/O
//! (network, filesystem, process) lives outside, handing plain values in
//! and out.

pub mod callback;
pub mod export;
pub mod index;
pub mod nowplaying;
pub mod numbers;
pub mod probe;
pub mod resolve;
pub mod session;
pub mod store;
pub mod text;
