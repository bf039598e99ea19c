//! The chunk format, as functions on sequences of bytes.
//!
//! Each function here takes the bytes that are left of a chunk and says what
//! is read from their start: the value read together with the bytes left
//! after it, or the error that the read ends in. The loader is held to these
//! functions.

use vstd::prelude::*;
use vstd::utf8::{decode_utf8, valid_utf8};
use crate::object::{LocVarView, ProtoView, SyxType, SyxValueView, UpvalueView};
use crate::opcodes::Instruction;
use crate::conf::{
    SIZE_OF_INSTRUCTION, SIZE_OF_INT, SIZE_OF_INTEGER, SIZE_OF_NUMBER, SIZE_OF_SIZE, SYX_DATA,
    SYX_FORMAT, SYX_HEADER, SYX_INT, SYX_NUM, SYX_VERSION,
};
use crate::errors::{LoadError, Verification};

verus! {

/// What a read gives: the value and the bytes left after it, or an error.
pub type Parsed<T> = Result<(T, Seq<u8>), LoadError>;

/// Reads `n` bytes.
pub open spec fn read_range(s: Seq<u8>, n: nat) -> Parsed<Seq<u8>> {
    if n <= s.len() {
        Ok((s.take(n as int), s.skip(n as int)))
    } else {
        Err(LoadError::BufferNotReadable(n as u64))
    }
}

/// Reads one byte.
pub open spec fn read_byte(s: Seq<u8>) -> Parsed<u8> {
    match read_range(s, 1) {
        Ok((bytes, rest)) => Ok((bytes[0], rest)),
        Err(e) => Err(e),
    }
}

/// The number that four bytes stand for, the lowest byte first.
pub open spec fn le_u32(bytes: Seq<u8>) -> u32
    recommends
        bytes.len() == 4,
{
    (bytes[0] + bytes[1] * 0x100 + bytes[2] * 0x1_0000 + bytes[3] * 0x100_0000) as u32
}

/// The number that eight bytes stand for, the lowest byte first.
pub open spec fn le_u64(bytes: Seq<u8>) -> u64
    recommends
        bytes.len() == 8,
{
    (le_u32(bytes.take(4)) + le_u32(bytes.skip(4)) * 0x1_0000_0000) as u64
}

/// The signed number with the bits of `x`, in two's complement.
pub open spec fn signed32(x: u32) -> i32 {
    if x < 0x8000_0000 {
        x as i32
    } else {
        (x - 0x1_0000_0000) as i32
    }
}

/// The signed number with the bits of `x`, in two's complement.
pub open spec fn signed64(x: u64) -> i64 {
    if x < 0x8000_0000_0000_0000 {
        x as i64
    } else {
        (x - 0x1_0000_0000_0000_0000) as i64
    }
}

/// Reads an unsigned number of four bytes: an instruction word.
pub open spec fn read_u32(s: Seq<u8>) -> Parsed<u32> {
    match read_range(s, 4) {
        Ok((bytes, rest)) => Ok((le_u32(bytes), rest)),
        Err(e) => Err(e),
    }
}

/// Reads a signed number of four bytes: a count or a line number.
pub open spec fn read_i32(s: Seq<u8>) -> Parsed<i32> {
    match read_range(s, 4) {
        Ok((bytes, rest)) => Ok((signed32(le_u32(bytes)), rest)),
        Err(e) => Err(e),
    }
}

/// Reads an unsigned number of eight bytes: a size, or the bits of a float.
pub open spec fn read_u64(s: Seq<u8>) -> Parsed<u64> {
    match read_range(s, 8) {
        Ok((bytes, rest)) => Ok((le_u64(bytes), rest)),
        Err(e) => Err(e),
    }
}

/// Reads a signed number of eight bytes: an integer value.
pub open spec fn read_i64(s: Seq<u8>) -> Parsed<i64> {
    match read_range(s, 8) {
        Ok((bytes, rest)) => Ok((signed64(le_u64(bytes)), rest)),
        Err(e) => Err(e),
    }
}

/// Reads the bytes of a string whose size field held `size`. A size of zero
/// stands for no string at all and is read as the empty string; any other
/// size is one more than the number of bytes that follow.
pub open spec fn read_string_body(s: Seq<u8>, size: u64) -> Parsed<Seq<u8>> {
    if size == 0 {
        Ok((Seq::empty(), s))
    } else {
        read_range(s, (size - 1) as nat)
    }
}

/// Reads a string: a size, then the bytes. The size is one byte, unless
/// that byte is 0xFF: then the size is the number of eight bytes after it.
pub open spec fn read_string(s: Seq<u8>) -> Parsed<Seq<u8>> {
    match read_byte(s) {
        Err(e) => Err(e),
        Ok((short, rest)) => if short == 0xFF {
            match read_u64(rest) {
                Err(e) => Err(e),
                Ok((size, rest)) => read_string_body(rest, size),
            }
        } else {
            read_string_body(rest, short as u64)
        },
    }
}

/// Reads `n` times what `one` reads, one after the other, and gives what
/// was read in that order. It ends in the first error that `one` ends in.
pub open spec fn read_many<T>(one: spec_fn(Seq<u8>) -> Parsed<T>, s: Seq<u8>, n: nat) -> Parsed<
    Seq<T>,
>
    decreases n,
{
    if n == 0 {
        Ok((Seq::empty(), s))
    } else {
        match read_many(one, s, (n - 1) as nat) {
            Err(e) => Err(e),
            Ok((items, rest)) => match one(rest) {
                Err(e) => Err(e),
                Ok((item, rest)) => Ok((items.push(item), rest)),
            },
        }
    }
}

/// The number of records that a count field declares: none where the field
/// is below zero.
pub open spec fn count_of(field: i32) -> nat {
    if field < 0 {
        0
    } else {
        field as nat
    }
}

/// Once `read_many` has ended in an error, it ends in that error for every
/// greater number of records.
pub proof fn lemma_read_many_err<T>(
    one: spec_fn(Seq<u8>) -> Parsed<T>,
    s: Seq<u8>,
    m: nat,
    n: nat,
)
    requires
        m <= n,
        read_many(one, s, m) is Err,
    ensures
        read_many(one, s, n) == read_many(one, s, m),
    decreases n,
{
    if m < n {
        lemma_read_many_err(one, s, m, (n - 1) as nat);
    }
}

/// Where `read_many` succeeds it gives as many records as were asked for.
pub proof fn lemma_read_many_len<T>(one: spec_fn(Seq<u8>) -> Parsed<T>, s: Seq<u8>, n: nat)
    ensures
        read_many(one, s, n) matches Ok((items, rest)) ==> items.len() == n,
    decreases n,
{
    if n > 0 {
        lemma_read_many_len(one, s, (n - 1) as nat);
    }
}

/// What a check of the header gives: nothing where `ok` holds, else the
/// error that names the check.
pub open spec fn verified(ok: bool, check: Verification) -> Result<(), LoadError> {
    if ok {
        Ok(())
    } else {
        Err(LoadError::InvalidVerification(check))
    }
}

/// Reads as many bytes as `literal` has and checks that they are `literal`.
pub open spec fn expect_literal(s: Seq<u8>, literal: Seq<u8>, check: Verification) -> Parsed<()> {
    match read_range(s, literal.len()) {
        Err(e) => Err(e),
        Ok((bytes, rest)) => match verified(bytes == literal, check) {
            Err(e) => Err(e),
            Ok(_) => Ok(((), rest)),
        },
    }
}

/// Reads one byte and checks that it is `byte`.
pub open spec fn expect_byte(s: Seq<u8>, byte: u8, check: Verification) -> Parsed<()> {
    match read_byte(s) {
        Err(e) => Err(e),
        Ok((found, rest)) => match verified(found == byte, check) {
            Err(e) => Err(e),
            Ok(_) => Ok(((), rest)),
        },
    }
}

/// Reads the sample integer and checks it. A chunk written in the other
/// byte order fails here.
pub open spec fn expect_sample_integer(s: Seq<u8>) -> Parsed<()> {
    match read_i64(s) {
        Err(e) => Err(e),
        Ok((found, rest)) => match verified(found == SYX_INT, Verification::Endianness) {
            Err(e) => Err(e),
            Ok(_) => Ok(((), rest)),
        },
    }
}

/// Reads the sample float and checks its bits.
pub open spec fn expect_sample_number(s: Seq<u8>) -> Parsed<()> {
    match read_u64(s) {
        Err(e) => Err(e),
        Ok((found, rest)) => match verified(found == SYX_NUM, Verification::FloatFormat) {
            Err(e) => Err(e),
            Ok(_) => Ok(((), rest)),
        },
    }
}

/// Goes on with `next` on the bytes that a check has left, unless the check
/// has failed.
pub open spec fn and_then<T>(checked: Parsed<()>, next: spec_fn(Seq<u8>) -> Parsed<T>) -> Parsed<
    T,
> {
    match checked {
        Err(e) => Err(e),
        Ok((_, rest)) => next(rest),
    }
}

/// Reads the header of a chunk and checks it, step by step: the first
/// check that fails, or the first read past the end, decides the error.
#[verifier::opaque]
pub open spec fn read_header(s: Seq<u8>) -> Parsed<()> {
    let r = expect_literal(s, SYX_HEADER@, Verification::Header);
    let r = and_then(r, |s: Seq<u8>| expect_byte(s, SYX_VERSION, Verification::Version));
    let r = and_then(r, |s: Seq<u8>| expect_byte(s, SYX_FORMAT, Verification::Format));
    let r = and_then(r, |s: Seq<u8>| expect_literal(s, SYX_DATA@, Verification::LoadOrder));
    let r = and_then(r, |s: Seq<u8>| expect_byte(s, SIZE_OF_INT, Verification::SizeOfInt));
    let r = and_then(r, |s: Seq<u8>| expect_byte(s, SIZE_OF_SIZE, Verification::SizeOfSize));
    let r = and_then(
        r,
        |s: Seq<u8>| expect_byte(s, SIZE_OF_INSTRUCTION, Verification::SizeOfInstruction),
    );
    let r = and_then(r, |s: Seq<u8>| expect_byte(s, SIZE_OF_INTEGER, Verification::SizeOfInteger));
    let r = and_then(r, |s: Seq<u8>| expect_byte(s, SIZE_OF_NUMBER, Verification::SizeOfNumber));
    let r = and_then(r, |s: Seq<u8>| expect_sample_integer(s));
    and_then(r, |s: Seq<u8>| expect_sample_number(s))
}

/// The length of the header in bytes.
pub const HEADER_LEN: usize = 33;

/// The header that is accepted: the magic bytes, the version and format
/// bytes, the marker against mangled line ends, the five widths, and the
/// two samples with the lowest byte first.
pub open spec fn header_bytes() -> Seq<u8> {
    SYX_HEADER@ + seq![SYX_VERSION, SYX_FORMAT] + SYX_DATA@ + seq![
        SIZE_OF_INT,
        SIZE_OF_SIZE,
        SIZE_OF_INSTRUCTION,
        SIZE_OF_INTEGER,
        SIZE_OF_NUMBER,
    ] + seq![0x78u8, 0x56u8, 0u8, 0u8, 0u8, 0u8, 0u8, 0u8] + seq![
        0u8,
        0u8,
        0u8,
        0u8,
        0u8,
        0x28u8,
        0x77u8,
        0x40u8,
    ]
}

/// The position of the sample integer in the header.
pub const HEADER_SAMPLE_INTEGER: usize = 17;

/// The position of the sample float in the header.
pub const HEADER_SAMPLE_NUMBER: usize = 25;

/// Reads one instruction: a word, decoded.
pub open spec fn read_instruction(s: Seq<u8>) -> Parsed<Instruction> {
    match read_u32(s) {
        Err(e) => Err(e),
        Ok((word, rest)) => match Instruction::decode(word) {
            Err(e) => Err(e),
            Ok(instruction) => Ok((instruction, rest)),
        },
    }
}

/// Reads the code of a function: a count, then that many instructions.
pub open spec fn read_code(s: Seq<u8>) -> Parsed<Seq<Instruction>> {
    match read_i32(s) {
        Err(e) => Err(e),
        Ok((count, rest)) => read_many(|s: Seq<u8>| read_instruction(s), rest, count_of(count)),
    }
}

/// Reads one constant: a tag byte, then what the tag calls for. A boolean
/// is true where its byte is 1. A tag that names no kind of constant is
/// refused with `InvalidConstantType`, which holds the tag.
pub open spec fn read_constant(s: Seq<u8>) -> Parsed<SyxValueView> {
    match read_byte(s) {
        Err(e) => Err(e),
        Ok((tag, rest)) => match SyxType::of_tag(tag) {
            Some(SyxType::TNIL) => Ok((SyxValueView::Nil, rest)),
            Some(SyxType::TBOOLEAN) => match read_byte(rest) {
                Err(e) => Err(e),
                Ok((byte, rest)) => Ok((SyxValueView::Bool(byte == 1), rest)),
            },
            Some(SyxType::TNUMFLT) => match read_u64(rest) {
                Err(e) => Err(e),
                Ok((bits, rest)) => Ok((SyxValueView::Number(bits), rest)),
            },
            Some(SyxType::TNUMINT) => match read_i64(rest) {
                Err(e) => Err(e),
                Ok((value, rest)) => Ok((SyxValueView::Integer(value), rest)),
            },
            Some(SyxType::TSHRSTR) | Some(SyxType::TLNGSTR) => match read_string(rest) {
                Err(e) => Err(e),
                Ok((bytes, rest)) => Ok((SyxValueView::String(bytes), rest)),
            },
            _ => Err(LoadError::InvalidConstantType(tag)),
        },
    }
}

/// Reads the constants of a function: a count, then that many constants.
pub open spec fn read_constants(s: Seq<u8>) -> Parsed<Seq<SyxValueView>> {
    match read_i32(s) {
        Err(e) => Err(e),
        Ok((count, rest)) => read_many(|s: Seq<u8>| read_constant(s), rest, count_of(count)),
    }
}

/// Reads one upvalue: two bytes. Its name is left empty.
pub open spec fn read_upvalue(s: Seq<u8>) -> Parsed<UpvalueView> {
    match read_byte(s) {
        Err(e) => Err(e),
        Ok((instack, rest)) => match read_byte(rest) {
            Err(e) => Err(e),
            Ok((idx, rest)) => Ok((UpvalueView { name: Seq::empty(), instack, idx }, rest)),
        },
    }
}

/// Reads the upvalues of a function: a count, then that many upvalues.
pub open spec fn read_upvalues(s: Seq<u8>) -> Parsed<Seq<UpvalueView>> {
    match read_i32(s) {
        Err(e) => Err(e),
        Ok((count, rest)) => read_many(|s: Seq<u8>| read_upvalue(s), rest, count_of(count)),
    }
}

/// Reads the line numbers of a function: a count, then that many numbers.
pub open spec fn read_lineinfo(s: Seq<u8>) -> Parsed<Seq<i32>> {
    match read_i32(s) {
        Err(e) => Err(e),
        Ok((count, rest)) => read_many(|s: Seq<u8>| read_i32(s), rest, count_of(count)),
    }
}

/// Reads one local variable: its name, and the two ends of its life.
pub open spec fn read_locvar(s: Seq<u8>) -> Parsed<LocVarView> {
    match read_string(s) {
        Err(e) => Err(e),
        Ok((varname, rest)) => match read_i32(rest) {
            Err(e) => Err(e),
            Ok((startpc, rest)) => match read_i32(rest) {
                Err(e) => Err(e),
                Ok((endpc, rest)) => Ok((LocVarView { varname, startpc, endpc }, rest)),
            },
        },
    }
}

/// Reads the local variables of a function: a count, then that many.
pub open spec fn read_locvars(s: Seq<u8>) -> Parsed<Seq<LocVarView>> {
    match read_i32(s) {
        Err(e) => Err(e),
        Ok((count, rest)) => read_many(|s: Seq<u8>| read_locvar(s), rest, count_of(count)),
    }
}

/// Reads `n` names and gives them to the first `n` of `upvalues`, in order.
/// A name for which there is no upvalue is refused with
/// `InvalidUpvalueIndex` before it is read.
pub open spec fn read_upvalue_names(s: Seq<u8>, upvalues: Seq<UpvalueView>, n: nat) -> Parsed<
    Seq<UpvalueView>,
>
    decreases n,
{
    if n == 0 {
        Ok((upvalues, s))
    } else {
        let index = n - 1;
        match read_upvalue_names(s, upvalues, index as nat) {
            Err(e) => Err(e),
            Ok((named, rest)) => if index >= named.len() {
                Err(LoadError::InvalidUpvalueIndex(index as usize))
            } else {
                match read_string(rest) {
                    Err(e) => Err(e),
                    Ok((name, rest)) => Ok(
                        (
                            named.update(
                                index,
                                UpvalueView {
                                    name,
                                    instack: named[index].instack,
                                    idx: named[index].idx,
                                },
                            ),
                            rest,
                        ),
                    ),
                }
            },
        }
    }
}

/// The debug section of a function.
pub struct DebugView {
    pub lineinfo: Seq<i32>,
    pub locvars: Seq<LocVarView>,
    pub upvalues: Seq<UpvalueView>,
}

/// Reads the debug section of a function whose upvalues are `upvalues`: the
/// line numbers, the local variables, and a count with that many names of
/// upvalues.
pub open spec fn read_debug(s: Seq<u8>, upvalues: Seq<UpvalueView>) -> Parsed<DebugView> {
    match read_lineinfo(s) {
        Err(e) => Err(e),
        Ok((lineinfo, rest)) => match read_locvars(rest) {
            Err(e) => Err(e),
            Ok((locvars, rest)) => match read_i32(rest) {
                Err(e) => Err(e),
                Ok((count, rest)) => match read_upvalue_names(rest, upvalues, count_of(count)) {
                    Err(e) => Err(e),
                    Ok((upvalues, rest)) => Ok((DebugView { lineinfo, locvars, upvalues }, rest)),
                },
            },
        },
    }
}

/// Reads the source name of a function whose enclosing function has the
/// source name `parent`. Where the function has none of its own it takes
/// `parent`. A name that is not valid UTF-8 is refused with
/// `InvalidSourceName`.
pub open spec fn read_source(s: Seq<u8>, parent: Seq<u8>) -> Parsed<Seq<u8>> {
    match read_string(s) {
        Err(e) => Err(e),
        Ok((own, rest)) => {
            let source = if own.len() != 0 {
                own
            } else {
                parent
            };
            if valid_utf8(source) {
                Ok((source, rest))
            } else {
                Err(LoadError::InvalidSourceName)
            }
        },
    }
}

/// What a function block holds before its nested functions.
pub struct HeadView {
    /// The source name, as bytes.
    pub source: Seq<u8>,
    pub linedefined: i32,
    pub lastlinedefined: i32,
    pub numparams: u8,
    pub is_vararg: bool,
    pub maxstacksize: u8,
    pub instructions: Seq<Instruction>,
    pub constants: Seq<SyxValueView>,
    pub upvalues: Seq<UpvalueView>,
}

/// The five numbers that follow the source name of a function.
pub struct FrameView {
    pub linedefined: i32,
    pub lastlinedefined: i32,
    pub numparams: u8,
    pub is_vararg: bool,
    pub maxstacksize: u8,
}

/// Reads the two lines between which a function is defined, the number of
/// its parameters, whether it takes more arguments (any byte but zero says
/// so), and the number of registers it needs.
pub open spec fn read_frame(s: Seq<u8>) -> Parsed<FrameView> {
    match read_i32(s) {
        Err(e) => Err(e),
        Ok((linedefined, rest)) => match read_i32(rest) {
            Err(e) => Err(e),
            Ok((lastlinedefined, rest)) => match read_byte(rest) {
                Err(e) => Err(e),
                Ok((numparams, rest)) => match read_byte(rest) {
                    Err(e) => Err(e),
                    Ok((vararg, rest)) => match read_byte(rest) {
                        Err(e) => Err(e),
                        Ok((maxstacksize, rest)) => Ok(
                            (
                                FrameView {
                                    linedefined,
                                    lastlinedefined,
                                    numparams,
                                    is_vararg: vararg != 0,
                                    maxstacksize,
                                },
                                rest,
                            ),
                        ),
                    },
                },
            },
        },
    }
}

/// Reads a function block up to its nested functions: the source name, the
/// frame, the code, the constants and the upvalues.
pub open spec fn read_head(s: Seq<u8>, parent: Seq<u8>) -> Parsed<HeadView> {
    match read_source(s, parent) {
        Err(e) => Err(e),
        Ok((source, rest)) => match read_frame(rest) {
            Err(e) => Err(e),
            Ok((frame, rest)) => match read_code(rest) {
                Err(e) => Err(e),
                Ok((instructions, rest)) => match read_constants(rest) {
                    Err(e) => Err(e),
                    Ok((constants, rest)) => match read_upvalues(rest) {
                        Err(e) => Err(e),
                        Ok((upvalues, rest)) => Ok(
                            (
                                HeadView {
                                    source,
                                    linedefined: frame.linedefined,
                                    lastlinedefined: frame.lastlinedefined,
                                    numparams: frame.numparams,
                                    is_vararg: frame.is_vararg,
                                    maxstacksize: frame.maxstacksize,
                                    instructions,
                                    constants,
                                    upvalues,
                                },
                                rest,
                            ),
                        ),
                    },
                },
            },
        },
    }
}

/// Where each read of `one` leaves no more bytes than it was given, so
/// does `read_many`.
pub proof fn lemma_read_many_rest<T>(one: spec_fn(Seq<u8>) -> Parsed<T>, s: Seq<u8>, n: nat)
    requires
        forall|t: Seq<u8>| #[trigger] one(t) matches Ok((_, rest)) ==> rest.len() <= t.len(),
    ensures
        read_many(one, s, n) matches Ok((_, rest)) ==> rest.len() <= s.len(),
    decreases n,
{
    if n > 0 {
        lemma_read_many_rest(one, s, (n - 1) as nat);
    }
}

/// A string takes at least one byte.
pub proof fn lemma_read_string_rest(s: Seq<u8>)
    ensures
        read_string(s) matches Ok((_, rest)) ==> rest.len() < s.len(),
{
}

/// A constant takes at least one byte.
pub proof fn lemma_read_constant_rest(s: Seq<u8>)
    ensures
        read_constant(s) matches Ok((_, rest)) ==> rest.len() < s.len(),
{
    if let Ok((tag, rest)) = read_byte(s) {
        lemma_read_string_rest(rest);
    }
}

/// The names of upvalues take nothing back.
pub proof fn lemma_read_upvalue_names_rest(s: Seq<u8>, upvalues: Seq<UpvalueView>, n: nat)
    ensures
        read_upvalue_names(s, upvalues, n) matches Ok((named, rest)) ==> rest.len() <= s.len()
            && named.len() == upvalues.len() && n <= upvalues.len(),
    decreases n,
{
    if n > 0 {
        lemma_read_upvalue_names_rest(s, upvalues, (n - 1) as nat);
    }
}

/// Once the names of upvalues have ended in an error, they end in that
/// error for every greater number of names.
pub proof fn lemma_read_upvalue_names_err(s: Seq<u8>, upvalues: Seq<UpvalueView>, m: nat, n: nat)
    requires
        m <= n,
        read_upvalue_names(s, upvalues, m) is Err,
    ensures
        read_upvalue_names(s, upvalues, n) == read_upvalue_names(s, upvalues, m),
    decreases n,
{
    if m < n {
        lemma_read_upvalue_names_err(s, upvalues, m, (n - 1) as nat);
    }
}

/// The debug section takes at least its three counts.
pub proof fn lemma_read_debug_rest(s: Seq<u8>, upvalues: Seq<UpvalueView>)
    ensures
        read_debug(s, upvalues) matches Ok((_, rest)) ==> rest.len() < s.len(),
{
    if let Ok((count, rest)) = read_i32(s) {
        lemma_read_many_rest(|s: Seq<u8>| read_i32(s), rest, count_of(count));
    }
    if let Ok((_, rest)) = read_lineinfo(s) {
        assert forall|t: Seq<u8>| #[trigger]
            read_locvar(t) matches Ok((_, after)) ==> after.len() <= t.len() by {
            lemma_read_string_rest(t);
        }
        if let Ok((count, rest)) = read_i32(rest) {
            lemma_read_many_rest(|s: Seq<u8>| read_locvar(s), rest, count_of(count));
        }
        if let Ok((_, rest)) = read_locvars(rest) {
            if let Ok((count, rest)) = read_i32(rest) {
                lemma_read_upvalue_names_rest(rest, upvalues, count_of(count));
            }
        }
    }
}

/// A function block takes at least one byte before its nested functions.
pub proof fn lemma_read_head_rest(s: Seq<u8>, parent: Seq<u8>)
    ensures
        read_head(s, parent) matches Ok((_, rest)) ==> rest.len() < s.len(),
{
    lemma_read_string_rest(s);
    if let Ok((_, rest)) = read_source(s, parent) {
        if let Ok((_, rest)) = read_frame(rest) {
            if let Ok((count, after)) = read_i32(rest) {
                lemma_read_many_rest(|s: Seq<u8>| read_instruction(s), after, count_of(count));
            }
            if let Ok((_, rest)) = read_code(rest) {
                assert forall|t: Seq<u8>| #[trigger]
                    read_constant(t) matches Ok((_, after)) ==> after.len() <= t.len() by {
                    lemma_read_constant_rest(t);
                }
                if let Ok((count, after)) = read_i32(rest) {
                    lemma_read_many_rest(|s: Seq<u8>| read_constant(s), after, count_of(count));
                }
                if let Ok((_, rest)) = read_constants(rest) {
                    if let Ok((count, after)) = read_i32(rest) {
                        lemma_read_many_rest(
                            |s: Seq<u8>| read_upvalue(s),
                            after,
                            count_of(count),
                        );
                    }
                }
            }
        }
    }
}

/// Reads a function block whose enclosing function has the source name
/// `parent`: what `read_head` reads, then a count with that many nested
/// function blocks, whose enclosing source name is this function's, then
/// the debug section.
pub open spec fn read_function(s: Seq<u8>, parent: Seq<u8>) -> Parsed<ProtoView>
    decreases s.len(), 0nat,
{
    match read_head(s, parent) {
        Err(e) => Err(e),
        Ok((head, rest)) => match read_i32(rest) {
            Err(e) => Err(e),
            Ok((count, rest)) => {
                proof {
                    lemma_read_head_rest(s, parent);
                }
                match read_protos(rest, head.source, count_of(count)) {
                    Err(e) => Err(e),
                    Ok((protos, rest)) => match read_debug(rest, head.upvalues) {
                        Err(e) => Err(e),
                        Ok((debug, rest)) => Ok(
                            (
                                ProtoView {
                                    numparams: head.numparams,
                                    is_vararg: head.is_vararg,
                                    maxstacksize: head.maxstacksize,
                                    linedefined: head.linedefined,
                                    lastlinedefined: head.lastlinedefined,
                                    constants: head.constants,
                                    instructions: head.instructions,
                                    protos,
                                    lineinfo: debug.lineinfo,
                                    upvalues: debug.upvalues,
                                    locvars: debug.locvars,
                                    source: decode_utf8(head.source),
                                },
                                rest,
                            ),
                        ),
                    },
                }
            },
        },
    }
}

/// Reads `n` function blocks, one after the other, each with the enclosing
/// source name `parent`.
///
/// The test on the bytes left is there for the definition to be well
/// founded. It never fails: see `lemma_read_protos_rest`.
pub open spec fn read_protos(s: Seq<u8>, parent: Seq<u8>, n: nat) -> Parsed<Seq<ProtoView>>
    decreases s.len(), n + 1,
{
    if n == 0 {
        Ok((Seq::empty(), s))
    } else {
        match read_protos(s, parent, (n - 1) as nat) {
            Err(e) => Err(e),
            Ok((protos, rest)) => if rest.len() <= s.len() {
                match read_function(rest, parent) {
                    Err(e) => Err(e),
                    Ok((proto, rest)) => Ok((protos.push(proto), rest)),
                }
            } else {
                Err(LoadError::BufferNotEmpty)
            },
        }
    }
}

/// A function block takes at least one byte.
pub proof fn lemma_read_function_rest(s: Seq<u8>, parent: Seq<u8>)
    ensures
        read_function(s, parent) matches Ok((_, rest)) ==> rest.len() < s.len(),
    decreases s.len(), 0nat,
{
    lemma_read_head_rest(s, parent);
    if let Ok((head, rest)) = read_head(s, parent) {
        if let Ok((count, rest)) = read_i32(rest) {
            lemma_read_protos_rest(rest, head.source, count_of(count));
            if let Ok((_, rest)) = read_protos(rest, head.source, count_of(count)) {
                lemma_read_debug_rest(rest, head.upvalues);
            }
        }
    }
}

/// Function blocks take nothing back, so the test in `read_protos` holds
/// wherever it is made; and where `read_protos` succeeds it gives as many
/// functions as were asked for.
pub proof fn lemma_read_protos_rest(s: Seq<u8>, parent: Seq<u8>, n: nat)
    ensures
        read_protos(s, parent, n) matches Ok((protos, rest)) ==> rest.len() <= s.len()
            && protos.len() == n,
    decreases s.len(), n + 1,
{
    if n > 0 {
        lemma_read_protos_rest(s, parent, (n - 1) as nat);
        if let Ok((_, rest)) = read_protos(s, parent, (n - 1) as nat) {
            lemma_read_function_rest(rest, parent);
        }
    }
}

/// Once `read_protos` has ended in an error, it ends in that error for
/// every greater number of functions.
pub proof fn lemma_read_protos_err(s: Seq<u8>, parent: Seq<u8>, m: nat, n: nat)
    requires
        m <= n,
        read_protos(s, parent, m) is Err,
    ensures
        read_protos(s, parent, n) == read_protos(s, parent, m),
    decreases n,
{
    if m < n {
        lemma_read_protos_err(s, parent, m, (n - 1) as nat);
    }
}

/// Reads a chunk: the header, one byte that counts the upvalues of the
/// main function, and the block of the main function, which has no
/// enclosing source name.
pub open spec fn read_chunk(s: Seq<u8>) -> Parsed<ProtoView> {
    match read_header(s) {
        Err(e) => Err(e),
        Ok((_, rest)) => match read_byte(rest) {
            Err(e) => Err(e),
            Ok((_, rest)) => read_function(rest, Seq::empty()),
        },
    }
}

/// What the bytes of a whole chunk load to: the main function that
/// `read_chunk` reads, provided that no byte is left after it.
pub open spec fn chunk_of(s: Seq<u8>) -> Result<ProtoView, LoadError> {
    match read_chunk(s) {
        Err(e) => Err(e),
        Ok((proto, rest)) => if rest.len() == 0 {
            Ok(proto)
        } else {
            Err(LoadError::BufferNotEmpty)
        },
    }
}

} // verus!
