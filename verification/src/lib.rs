//! Recovery of playable audio from two encrypted music containers.
//!
//! - [`format`] tells containers and codecs apart by their leading bytes.
//! - [`qmcdump`] is the cipher of the raw-offset-keyed container, and a reader
//!   that hands out its plain text.
//! - [`ncmdump`] takes the header-tagged container apart: framing, stream key,
//!   key schedule, audio cipher, metadata text and cover.
//! - [`metadata`], [`lossy`] and [`lossless`] put a track's metadata into the
//!   decrypted payload.
//! - [`dump`] is the conversion of one file as a machine that decides what is
//!   to be done next; [`command`], [`item`], [`errors`] and [`progress`] hold
//!   the settings, inputs, failures and counters of a run.
//!
//! Nothing here reads or writes files: whoever uses the library hands it bytes
//! and does what it decides.

mod bytes;
pub mod command;
pub mod dump;
pub mod errors;
pub mod format;
pub mod item;
pub mod lossless;
pub mod lossy;
pub mod metadata;
pub mod ncmdump;
pub mod outside;
pub mod progress;
pub mod qmcdump;
