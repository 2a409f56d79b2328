//! Framing and integrity layer of a durable, append-only commit log.
//!
//! A commit is one batch of transaction records. On disk it is a frame: a
//! fixed 14-byte header, the opaque record bytes, and a trailing CRC-32C
//! over header and records. A segment is a run of frames, possibly followed
//! by zeroes where it was allocated ahead of its use.
//!
//! This crate states the format as functions on byte sequences and proves
//! the codec against them:
//!
//! - [`commit`] holds the commit, its header and its metadata, and reads
//!   and writes frames;
//! - [`payload`] walks the records of a commit with a decoder that the
//!   caller brings;
//! - [`stream`] holds what segment readers and writers decide between two
//!   calls to their transport;
//! - [`laws`] relates reading to writing: what was written is read back,
//!   zeroes end the log, and damage to a frame does not go unnoticed where
//!   that can be shown without looking into the checksum.
//!
//! Bytes are read from a `&mut &[u8]`, which each read advances, and
//! written by appending to a `Vec<u8>`. Moving bytes to and from files is
//! left to the caller.

pub mod checksum;
pub mod commit;
pub mod error;
pub mod laws;
pub mod le;
pub mod payload;
pub mod reader;
pub mod stream;
