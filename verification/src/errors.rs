//! The errors a load can end in.

use vstd::prelude::*;

verus! {

/// The checks made on the header of a chunk, each named after what it reads.
#[derive(Debug, Clone, Copy, PartialEq, Eq, Structural)]
pub enum Verification {
    /// The four bytes every chunk starts with.
    Header,
    /// The version byte.
    Version,
    /// The format byte.
    Format,
    /// The six bytes that show the chunk was not mangled by a text-mode transfer.
    LoadOrder,
    /// The width in bytes of a 32-bit integer.
    SizeOfInt,
    /// The width in bytes of a size.
    SizeOfSize,
    /// The width in bytes of an instruction word.
    SizeOfInstruction,
    /// The width in bytes of an integer value.
    SizeOfInteger,
    /// The width in bytes of a floating-point value.
    SizeOfNumber,
    /// The sample integer, which shows the byte order.
    Endianness,
    /// The sample floating-point number, which shows the number format.
    FloatFormat,
}

/// Why a load failed.
#[derive(Debug, Clone, Copy, PartialEq, Eq, Structural)]
pub enum LoadError {
    /// A read asked for this many bytes, and fewer were left.
    BufferNotReadable(u64),
    /// Bytes were left over after the whole chunk had been read.
    BufferNotEmpty,
    /// The header failed this check.
    InvalidVerification(Verification),
    /// A constant began with this tag byte, which selects no kind of constant.
    InvalidConstantType(u8),
    /// The debug section names an upvalue at this index, and there is none.
    InvalidUpvalueIndex(usize),
    /// The source name of a function is not valid UTF-8.
    InvalidSourceName,
    /// The opcode field of an instruction word holds no assigned code.
    InvalidOpCode,
    /// This byte names no type of value.
    InvalidType(u8),
}

} // verus!
