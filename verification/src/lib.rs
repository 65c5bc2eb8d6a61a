//! Hiding messages in PNG files: the chunk codec.
//!
//! A PNG file is an eight-byte signature followed by chunks. Each chunk is
//! framed as `length | type code | payload | CRC-32`, all integers big-endian.
//! This crate parses and serialises type codes, chunks and whole files, and
//! states for each operation exactly what it returns.

pub mod be32;
pub mod checksum;
pub mod chunk;
pub mod chunk_type;
pub mod commands;
pub mod outcome;
pub mod png;
pub mod text;
