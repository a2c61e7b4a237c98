//! Decoder for a little-endian binary tagged-tree format ("NBT") and a
//! renderer that turns the decoded tree into an indented text notation
//! ("SNBT").
//!
//! The decoder consumes a byte slice and produces a [`nbt::Tag`] tree; the
//! renderer walks the tree and produces a `String`. Both directions are
//! specified against a ghost model of the tree ([`nbt::TagV`]) and a
//! mathematical description of the wire format and of the text notation.

pub mod nbt;
pub mod snbt;
pub mod laws;
