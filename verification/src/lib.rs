//! A loader for precompiled Lua 5.3 bytecode chunks.
//!
//! A chunk is a header and one function block; a function block holds the
//! code, the constants and the upvalues of a function, the blocks of the
//! functions nested in it, and debug information. `undump` reads a chunk
//! into a tree of function prototypes (`object`), decoding each instruction
//! word on the way (`opcodes`).
//!
//! What a sequence of bytes loads to is defined in `grammar`, as functions
//! on sequences, and every step of the loader is proved to compute what
//! those functions say. `laws` holds what follows from the definitions.
//!
//! The chunks accepted are those of a 64-bit little-endian machine: sizes
//! and integers of eight bytes, instructions and counts of four, floats as
//! IEEE 754 doubles.

pub mod conf;
pub mod errors;
pub mod grammar;
pub mod laws;
pub mod object;
pub mod opcodes;
pub mod text;
pub mod undump;
