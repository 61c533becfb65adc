//! Decoder core for 87a/89a animated bitmap streams: a block-oriented
//! stream parser and a variable-width LZW decompressor that together turn
//! a byte buffer into fully decoded, palette-indexed frames.

pub mod bit_reader;
pub mod error;
pub mod lzw;
pub mod decoder;
pub mod parser;
