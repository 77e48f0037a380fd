//! Binary transaction wire.
//!
//! One transaction is one commit of the sender. Layout:
//!
//! ```text
//! magic u32 = "CRW1" | version u16 | flags u16 | seq u64 | string_count u32
//! strings: string_count x (u32 byte_len + utf8 bytes)
//! ops:     to the end of the buffer
//! ```
//!
//! Strings come first so that ops can name them by index. Ops are a flat
//! stream of tagged records with positional fields. Integers and floats are
//! little-endian. Decoding borrows string bytes from the buffer.

pub mod apply;
pub mod bytes;
mod decode;
mod encode;
pub mod fields;
pub mod format;
pub mod laws;
pub mod layout;
pub use encode::{interned, Encoder, NIL};
pub use decode::decode;
pub use format::{Command, CommandModel, Op, OpModel, PaintParts, Payload, Txn, TxnModel, WireError};
pub(crate) use encode::same_str;
