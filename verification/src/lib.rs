//! Decoder for osu! replay captures, verified with Verus.
//!
//! A capture is a little-endian binary header followed by an LZMA-compressed
//! stream of input actions. [`Replay::parse`] decodes the header from a byte
//! buffer; [`Replay::get_actions`] decompresses the embedded stream and decodes
//! its records.
//!
//! Every decoder comes with a specification function over byte sequences,
//! and its contract says that it computes exactly that function: the same
//! value and the same bytes left over, or the same failure. A failure is a
//! [`ReplayDataError`]: one of six kinds, with the labels of the decode steps
//! that were active when it arose.
//!
//! - [`errors`]: the kinds of failure, the trace, and its rendering as text.
//! - [`cursor`]: fixed-width little-endian integers and runs of bytes.
//! - [`uleb128`]: the variable-length integer in front of a string.
//! - [`parser`]: strings with a presence flag, the game mode, and the header.
//! - [`text`]: cutting text at separators, and decimal integers.
//! - [`actions`]: the records of the action stream.
//! - [`replay`]: the record types, and the way from a blob to its actions.
//!
//! The library itself does no floating-point arithmetic. The coordinates of
//! an action are of a type that the caller picks, read by a function that the
//! caller hands in.

pub mod actions;
pub mod cursor;
pub mod errors;
pub mod parser;
pub mod replay;
pub mod text;
pub mod uleb128;

pub use errors::{ErrorKind, ReplayDataError};
pub use replay::{GameMode, Replay, ReplayData};
