//! A dynamic message engine for the Protocol Buffers wire format.
//!
//! A [`value::DynamicMessage`] holds a protobuf message whose schema is only
//! known at runtime, through a [`descriptor::DescriptorPool`].  The engine
//! offers a reflection surface (read, set and clear fields, with oneof
//! bookkeeping), a wire-format decoder that accepts packed and unpacked
//! repeated scalars, and an encoder/sizer pair whose byte output and length
//! are proved to agree.

use vstd::prelude::*;

pub mod descriptor;
pub mod value;
pub mod message;
pub mod wire;
pub mod utf8;
pub mod encode;
pub mod decode;

verus! {

/// Everything that can go wrong while moving a message between bytes and
/// values.
#[derive(Clone, Copy, Debug, PartialEq, Eq, Structural)]
pub enum Error {
    /// The input ended in the middle of a record.
    Truncated,
    /// A varint ran past ten bytes, overflowed 64 bits, or a tag was invalid.
    Malformed,
    /// A string field carried bytes that are not UTF-8.
    InvalidUtf8,
    /// A nested message exceeded the stream's recursion limit.
    RecursionLimitExceeded,
    /// A known repeated scalar field arrived under a wire type that fits
    /// neither its unpacked nor its packed encoding.
    UnexpectedWireType,
    /// The descriptor asks for a construct this engine does not implement:
    /// groups, or map-valued fields on the encode path.
    Unsupported,
}

} // verus!
