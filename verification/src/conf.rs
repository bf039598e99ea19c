//! Version and format constants of the chunks this library accepts.

use vstd::prelude::*;

verus! {

/// Major version of the bytecode format.
pub const SYX_VERSION_MAJOR: u8 = 0x5;

/// Minor version of the bytecode format.
pub const SYX_VERSION_MINOR: u8 = 0x3;

/// The bytes every chunk starts with: the escape character, which no source
/// text holds, and "Lua".
pub const SYX_HEADER: [u8; 4] = [0x1b, 0x4c, 0x75, 0x61];

/// The bytes that follow the format byte. They hold line ends of both
/// conventions, so that a chunk mangled by a text-mode transfer is caught.
pub const SYX_DATA: [u8; 6] = [0x19, 0x93, 0x0d, 0x0a, 0x1a, 0x0a];

/// The version byte of a chunk: major version in the high nibble, minor in the low.
pub const SYX_VERSION: u8 = SYX_VERSION_MAJOR * 16 + SYX_VERSION_MINOR;

/// The format byte of a chunk: 0 is the official format.
pub const SYX_FORMAT: u8 = 0;

/// The integer a chunk carries after its size bytes, to show its byte order.
pub const SYX_INT: i64 = 0x5678;

/// The bit pattern of the number 370.5 as an IEEE 754 double, which a chunk
/// carries after `SYX_INT` to show its floating-point format.
pub const SYX_NUM: u64 = 0x4077_2800_0000_0000;

/// The width in bytes of a count or a line number.
pub const SIZE_OF_INT: u8 = 4;

/// The width in bytes of a size.
pub const SIZE_OF_SIZE: u8 = 8;

/// The width in bytes of an instruction word.
pub const SIZE_OF_INSTRUCTION: u8 = 4;

/// The width in bytes of an integer value.
pub const SIZE_OF_INTEGER: u8 = 8;

/// The width in bytes of a floating-point value.
pub const SIZE_OF_NUMBER: u8 = 8;

} // verus!
