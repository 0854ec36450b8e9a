//! A codec for PNG files that exposes their chunks: validated chunk types,
//! CRC-checked chunks, and the container that holds them in file order.
pub mod checksum;
pub mod chunk;
pub mod chunk_type;
pub mod commands;
pub mod endian;
pub mod png;
pub mod text;
