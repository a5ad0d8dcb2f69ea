//! Engine core of a multi-track stem player.
//!
//! A song is a set of stems that play in sync. The crate holds what the
//! player has to get right: the mix of the audible stems for every block of
//! the output, per-stem gain, mute and solo, the transport, conversion of
//! decoded audio to the rate and channel layout of the output, the cache that
//! keeps decoded songs resident under a budget, and the order in which a
//! setlist is loaded ahead of time.
//!
//! The sample type is a type parameter throughout. Where samples have to be
//! multiplied, added or interpolated, the caller supplies the arithmetic as
//! small kernels; reading files and driving an output device are the
//! caller's part as well.

pub mod cache;
pub mod callback;
pub mod commands;
pub mod gain;
pub mod import;
pub mod loader;
pub mod mixer;
pub mod models;
pub mod preload;
pub mod resampler;
pub mod stem_detection;
pub mod types;
