//! The loader: a reader over the bytes of a chunk, and the steps that build
//! a function prototype from them.

use vstd::prelude::*;
use vstd::utf8::decode_utf8;
use crate::errors::{LoadError, Verification};
use crate::conf::{
    SIZE_OF_INSTRUCTION, SIZE_OF_INT, SIZE_OF_INTEGER, SIZE_OF_NUMBER, SIZE_OF_SIZE, SYX_DATA,
    SYX_FORMAT, SYX_HEADER, SYX_INT, SYX_NUM, SYX_VERSION,
};
use crate::grammar::{
    chunk_of, count_of, expect_byte, expect_literal, le_u32, lemma_read_head_rest,
    lemma_read_many_err, lemma_read_protos_err, lemma_read_protos_rest,
    lemma_read_upvalue_names_err, read_byte, read_chunk, read_code, read_constant,
    read_constants, read_debug, read_function, read_header, read_i32, read_i64,
    read_instruction, read_lineinfo, read_locvar, read_locvars, read_many, read_protos,
    read_range, read_source, read_string, read_u32, read_u64, read_upvalue, read_upvalue_names,
    read_upvalues, signed32, signed64, verified,
};
use crate::object::{
    locvars_view, protos_view, upvalues_view, values_view, LocVar, Proto, SyxType, SyxValue,
    Upvalue,
};
use crate::opcodes::Instruction;

verus! {

/// A reader over the bytes of one chunk. It reads from the front, and what
/// it has read is gone.
pub struct LoadState {
    input: Vec<u8>,
    pos: usize,
    name: String,
}

impl LoadState {
    #[verifier::type_invariant]
    spec fn inv(self) -> bool {
        self.pos <= self.input.len()
    }

    /// The bytes that are still to be read.
    pub closed spec fn remaining(&self) -> Seq<u8> {
        self.input@.skip(self.pos as int)
    }

    /// The name of the chunk, for messages.
    pub closed spec fn name(&self) -> Seq<char> {
        self.name@
    }

    /// Makes a reader over `input`, which is the chunk called `name`.
    pub fn new(input: Vec<u8>, name: String) -> (r: LoadState)
        ensures
            r.remaining() == input@,
            r.name() == name@,
    {
        let r = LoadState { input, pos: 0, name };
        assert(r.input@.skip(0) =~= r.input@);
        r
    }

    /// Returns the name of the chunk.
    pub fn chunk_name(&self) -> (r: &String)
        ensures
            r@ == self.name(),
    {
        &self.name
    }

    /// Tells whether every byte has been read.
    pub fn finished(&self) -> (r: bool)
        ensures
            r == (self.remaining().len() == 0),
    {
        proof {
            use_type_invariant(self);
        }
        self.pos == self.input.len()
    }

    /// Reads `range` bytes. Where fewer are left it fails with
    /// `BufferNotReadable` and reads nothing.
    pub fn load_range(&mut self, range: usize) -> (r: Result<Vec<u8>, LoadError>)
        ensures
            final(self).name() == old(self).name(),
            match read_range(old(self).remaining(), range as nat) {
                Ok((bytes, rest)) => r matches Ok(v) && v@ == bytes && final(self).remaining()
                    == rest,
                Err(e) => r == Err::<Vec<u8>, LoadError>(e) && final(self).remaining() == old(
                    self,
                ).remaining(),
            },
    {
        proof {
            use_type_invariant(&*self);
        }
        if range > self.input.len() - self.pos {
            return Err(LoadError::BufferNotReadable(range as u64));
        }
        let mut v: Vec<u8> = Vec::new();
        let mut i: usize = 0;
        while i < range
            invariant
                i <= range,
                self.pos + range <= self.input.len(),
                v@ == self.input@.subrange(self.pos as int, self.pos + i),
                *self == *old(self),
            decreases range - i,
        {
            v.push(self.input[self.pos + i]);
            i += 1;
            assert(v@ =~= self.input@.subrange(self.pos as int, self.pos + i));
        }
        self.pos = self.pos + range;
        proof {
            let s = old(self).remaining();
            assert(v@ =~= s.take(range as int));
            assert(self.remaining() =~= s.skip(range as int));
        }
        Ok(v)
    }

    /// Reads one byte.
    pub fn load_byte(&mut self) -> (r: Result<u8, LoadError>)
        ensures
            final(self).name() == old(self).name(),
            match read_byte(old(self).remaining()) {
                Ok((byte, rest)) => r == Ok::<u8, LoadError>(byte) && final(self).remaining()
                    == rest,
                Err(e) => r == Err::<u8, LoadError>(e) && final(self).remaining() == old(
                    self,
                ).remaining(),
            },
    {
        let bytes = self.load_range(1)?;
        Ok(bytes[0])
    }

    /// Reads an instruction word: four bytes, the lowest first.
    pub fn load_word(&mut self) -> (r: Result<u32, LoadError>)
        ensures
            final(self).name() == old(self).name(),
            match read_u32(old(self).remaining()) {
                Ok((word, rest)) => r == Ok::<u32, LoadError>(word) && final(self).remaining()
                    == rest,
                Err(e) => r == Err::<u32, LoadError>(e) && final(self).remaining() == old(
                    self,
                ).remaining(),
            },
    {
        let bytes = self.load_range(4)?;
        Ok(u32_of(bytes[0], bytes[1], bytes[2], bytes[3]))
    }

    /// Reads a count or a line number: four bytes, the lowest first, in
    /// two's complement.
    pub fn load_int(&mut self) -> (r: Result<i32, LoadError>)
        ensures
            final(self).name() == old(self).name(),
            match read_i32(old(self).remaining()) {
                Ok((value, rest)) => r == Ok::<i32, LoadError>(value) && final(self).remaining()
                    == rest,
                Err(e) => r == Err::<i32, LoadError>(e) && final(self).remaining() == old(
                    self,
                ).remaining(),
            },
    {
        let word = self.load_word()?;
        Ok(i32_of(word))
    }

    /// Reads a size, or the bits of a float: eight bytes, the lowest first.
    pub fn load_size(&mut self) -> (r: Result<u64, LoadError>)
        ensures
            final(self).name() == old(self).name(),
            match read_u64(old(self).remaining()) {
                Ok((size, rest)) => r == Ok::<u64, LoadError>(size) && final(self).remaining()
                    == rest,
                Err(e) => r == Err::<u64, LoadError>(e) && final(self).remaining() == old(
                    self,
                ).remaining(),
            },
    {
        let bytes = self.load_range(8)?;
        let low = u32_of(bytes[0], bytes[1], bytes[2], bytes[3]);
        let high = u32_of(bytes[4], bytes[5], bytes[6], bytes[7]);
        proof {
            assert(bytes@.take(4) =~= seq![bytes[0], bytes[1], bytes[2], bytes[3]]);
            assert(bytes@.skip(4) =~= seq![bytes[4], bytes[5], bytes[6], bytes[7]]);
        }
        Ok(low as u64 + high as u64 * 0x1_0000_0000)
    }

    /// Reads an integer value: eight bytes, the lowest first, in two's
    /// complement.
    pub fn load_integer(&mut self) -> (r: Result<i64, LoadError>)
        ensures
            final(self).name() == old(self).name(),
            match read_i64(old(self).remaining()) {
                Ok((value, rest)) => r == Ok::<i64, LoadError>(value) && final(self).remaining()
                    == rest,
                Err(e) => r == Err::<i64, LoadError>(e) && final(self).remaining() == old(
                    self,
                ).remaining(),
            },
    {
        let bits = self.load_size()?;
        Ok(i64_of(bits))
    }

    /// Reads a string: its size, then its bytes.
    pub fn load_string(&mut self) -> (r: Result<Vec<u8>, LoadError>)
        ensures
            final(self).name() == old(self).name(),
            match read_string(old(self).remaining()) {
                Ok((bytes, rest)) => r matches Ok(v) && v@ == bytes && final(self).remaining()
                    == rest,
                Err(e) => r == Err::<Vec<u8>, LoadError>(e),
            },
    {
        let mut size: u64 = self.load_byte()? as u64;
        if size == 0xFF {
            size = self.load_size()?;
        }
        if size == 0 {
            return Ok(Vec::new());
        }
        size -= 1;
        proof {
            use_type_invariant(&*self);
        }
        if size > usize::MAX as u64 || size as usize > self.input.len() - self.pos {
            return Err(LoadError::BufferNotReadable(size));
        }
        self.load_range(size as usize)
    }

    /// Fails with the error that names `err`.
    pub fn raise_from_verification(&self, err: Verification) -> (r: Result<(), LoadError>)
        ensures
            r == verified(false, err),
    {
        Err(LoadError::InvalidVerification(err))
    }

    /// Fails with the error that names `err`, unless `val` holds.
    pub fn assert_verification(&self, val: bool, err: Verification) -> (r: Result<(), LoadError>)
        ensures
            r == verified(val, err),
    {
        if !val {
            return self.raise_from_verification(err);
        }
        Ok(())
    }

    /// Reads one byte and checks that it is `size`, the width in bytes of
    /// what `err` names.
    pub fn check_size(&mut self, size: u8, err: Verification) -> (r: Result<(), LoadError>)
        ensures
            final(self).name() == old(self).name(),
            match expect_byte(old(self).remaining(), size, err) {
                Ok((_, rest)) => r is Ok && final(self).remaining() == rest,
                Err(e) => r == Err::<(), LoadError>(e),
            },
    {
        let bytecode_size = self.load_byte()?;
        self.assert_verification(bytecode_size == size, err)
    }

    /// Reads as many bytes as `value` has and checks that they are `value`.
    pub fn check_literal(&mut self, value: &[u8], err: Verification) -> (r: Result<
        (),
        LoadError,
    >)
        ensures
            final(self).name() == old(self).name(),
            match expect_literal(old(self).remaining(), value@, err) {
                Ok((_, rest)) => r is Ok && final(self).remaining() == rest,
                Err(e) => r == Err::<(), LoadError>(e),
            },
    {
        let literal = self.load_range(value.len())?;
        let same = same_bytes(&literal, value);
        self.assert_verification(same, err)
    }

    /// Reads the header of a chunk and checks each part of it.
    pub fn check_header(&mut self) -> (r: Result<(), LoadError>)
        ensures
            final(self).name() == old(self).name(),
            match read_header(old(self).remaining()) {
                Ok((_, rest)) => r is Ok && final(self).remaining() == rest,
                Err(e) => r == Err::<(), LoadError>(e),
            },
    {
        proof {
            reveal(read_header);
        }
        self.check_literal(SYX_HEADER.as_slice(), Verification::Header)?;
        let version = self.load_byte()?;
        self.assert_verification(version == SYX_VERSION, Verification::Version)?;
        let format = self.load_byte()?;
        self.assert_verification(format == SYX_FORMAT, Verification::Format)?;
        self.check_literal(SYX_DATA.as_slice(), Verification::LoadOrder)?;
        self.check_size(SIZE_OF_INT, Verification::SizeOfInt)?;
        self.check_size(SIZE_OF_SIZE, Verification::SizeOfSize)?;
        self.check_size(SIZE_OF_INSTRUCTION, Verification::SizeOfInstruction)?;
        self.check_size(SIZE_OF_INTEGER, Verification::SizeOfInteger)?;
        self.check_size(SIZE_OF_NUMBER, Verification::SizeOfNumber)?;
        let sample = self.load_integer()?;
        self.assert_verification(sample == SYX_INT, Verification::Endianness)?;
        let bits = self.load_size()?;
        self.assert_verification(bits == SYX_NUM, Verification::FloatFormat)?;
        Ok(())
    }

    /// Reads one instruction.
    fn load_instruction(&mut self) -> (r: Result<Instruction, LoadError>)
        ensures
            final(self).name() == old(self).name(),
            match read_instruction(old(self).remaining()) {
                Ok((instruction, rest)) => r == Ok::<Instruction, LoadError>(instruction)
                    && final(self).remaining() == rest,
                Err(e) => r == Err::<Instruction, LoadError>(e),
            },
    {
        let word = self.load_word()?;
        Instruction::try_from(word)
    }

    /// Reads the code of a function: a count, then that many instructions.
    /// A count below zero is read as zero.
    pub fn load_code(&mut self) -> (r: Result<Vec<Instruction>, LoadError>)
        ensures
            final(self).name() == old(self).name(),
            match read_code(old(self).remaining()) {
                Ok((code, rest)) => r matches Ok(v) && v@ == code && final(self).remaining()
                    == rest,
                Err(e) => r == Err::<Vec<Instruction>, LoadError>(e),
            },
    {
        let count = self.load_int()?;
        let ghost start = self.remaining();
        let ghost one = |s: Seq<u8>| read_instruction(s);
        let mut code: Vec<Instruction> = Vec::new();
        let mut i: i32 = 0;
        while i < count
            invariant
                0 <= i <= count_of(count),
                one == |s: Seq<u8>| read_instruction(s),
                read_i32(old(self).remaining()) == Ok::<_, LoadError>((count, start)),
                read_many(one, start, i as nat) == Ok::<_, LoadError>((code@, self.remaining())),
                self.name() == old(self).name(),
            decreases count - i,
        {
            match self.load_instruction() {
                Ok(instruction) => {
                    code.push(instruction);
                },
                Err(e) => {
                    proof {
                        lemma_read_many_err(one, start, (i + 1) as nat, count_of(count));
                    }
                    return Err(e);
                },
            }
            i += 1;
        }
        Ok(code)
    }

    /// Reads one constant.
    fn load_constant(&mut self) -> (r: Result<SyxValue, LoadError>)
        ensures
            final(self).name() == old(self).name(),
            match read_constant(old(self).remaining()) {
                Ok((constant, rest)) => r matches Ok(v) && v@ == constant
                    && final(self).remaining() == rest,
                Err(e) => r == Err::<SyxValue, LoadError>(e),
            },
    {
        let tag = self.load_byte()?;
        match SyxType::try_from(tag) {
            Ok(SyxType::TNIL) => Ok(SyxValue::Nil),
            Ok(SyxType::TBOOLEAN) => Ok(SyxValue::Bool(self.load_byte()? == 1)),
            Ok(SyxType::TNUMFLT) => Ok(SyxValue::Number(self.load_size()?)),
            Ok(SyxType::TNUMINT) => Ok(SyxValue::Integer(self.load_integer()?)),
            Ok(SyxType::TSHRSTR) | Ok(SyxType::TLNGSTR) => Ok(
                SyxValue::String(self.load_string()?),
            ),
            _ => Err(LoadError::InvalidConstantType(tag)),
        }
    }

    /// Reads the constants of a function: a count, then that many
    /// constants. A count below zero is read as zero.
    pub fn load_constants(&mut self) -> (r: Result<Vec<SyxValue>, LoadError>)
        ensures
            final(self).name() == old(self).name(),
            match read_constants(old(self).remaining()) {
                Ok((constants, rest)) => r matches Ok(v) && values_view(v@) == constants
                    && final(self).remaining() == rest,
                Err(e) => r == Err::<Vec<SyxValue>, LoadError>(e),
            },
    {
        let count = self.load_int()?;
        let ghost start = self.remaining();
        let ghost one = |s: Seq<u8>| read_constant(s);
        let mut constants: Vec<SyxValue> = Vec::new();
        let mut i: i32 = 0;
        proof {
            assert(values_view(constants@) =~= Seq::empty());
        }
        while i < count
            invariant
                0 <= i <= count_of(count),
                one == |s: Seq<u8>| read_constant(s),
                read_i32(old(self).remaining()) == Ok::<_, LoadError>((count, start)),
                read_many(one, start, i as nat) == Ok::<_, LoadError>(
                    (values_view(constants@), self.remaining()),
                ),
                self.name() == old(self).name(),
            decreases count - i,
        {
            let ghost before = constants@;
            match self.load_constant() {
                Ok(constant) => {
                    constants.push(constant);
                    proof {
                        assert(values_view(constants@) =~= values_view(before).push(constant@));
                    }
                },
                Err(e) => {
                    proof {
                        lemma_read_many_err(one, start, (i + 1) as nat, count_of(count));
                    }
                    return Err(e);
                },
            }
            i += 1;
        }
        Ok(constants)
    }

    /// Reads one upvalue. Its name is left empty.
    fn load_upvalue(&mut self) -> (r: Result<Upvalue, LoadError>)
        ensures
            final(self).name() == old(self).name(),
            match read_upvalue(old(self).remaining()) {
                Ok((upvalue, rest)) => r matches Ok(v) && v@ == upvalue
                    && final(self).remaining() == rest,
                Err(e) => r == Err::<Upvalue, LoadError>(e),
            },
    {
        let instack = self.load_byte()?;
        let idx = self.load_byte()?;
        Ok(Upvalue { name: Vec::new(), instack, idx })
    }

    /// Reads the upvalues of a function: a count, then that many upvalues,
    /// without their names. A count below zero is read as zero.
    pub fn load_upvalues(&mut self) -> (r: Result<Vec<Upvalue>, LoadError>)
        ensures
            final(self).name() == old(self).name(),
            match read_upvalues(old(self).remaining()) {
                Ok((upvalues, rest)) => r matches Ok(v) && upvalues_view(v@) == upvalues
                    && final(self).remaining() == rest,
                Err(e) => r == Err::<Vec<Upvalue>, LoadError>(e),
            },
    {
        let count = self.load_int()?;
        let ghost start = self.remaining();
        let ghost one = |s: Seq<u8>| read_upvalue(s);
        let mut upvalues: Vec<Upvalue> = Vec::new();
        let mut i: i32 = 0;
        proof {
            assert(upvalues_view(upvalues@) =~= Seq::empty());
        }
        while i < count
            invariant
                0 <= i <= count_of(count),
                one == |s: Seq<u8>| read_upvalue(s),
                read_i32(old(self).remaining()) == Ok::<_, LoadError>((count, start)),
                read_many(one, start, i as nat) == Ok::<_, LoadError>(
                    (upvalues_view(upvalues@), self.remaining()),
                ),
                self.name() == old(self).name(),
            decreases count - i,
        {
            let ghost before = upvalues@;
            match self.load_upvalue() {
                Ok(upvalue) => {
                    upvalues.push(upvalue);
                    proof {
                        assert(upvalues_view(upvalues@) =~= upvalues_view(before).push(upvalue@));
                    }
                },
                Err(e) => {
                    proof {
                        lemma_read_many_err(one, start, (i + 1) as nat, count_of(count));
                    }
                    return Err(e);
                },
            }
            i += 1;
        }
        Ok(upvalues)
    }

    /// Reads the line numbers of a function: a count, then that many
    /// numbers. A count below zero is read as zero.
    pub fn load_lineinfo(&mut self) -> (r: Result<Vec<i32>, LoadError>)
        ensures
            final(self).name() == old(self).name(),
            match read_lineinfo(old(self).remaining()) {
                Ok((lines, rest)) => r matches Ok(v) && v@ == lines && final(self).remaining()
                    == rest,
                Err(e) => r == Err::<Vec<i32>, LoadError>(e),
            },
    {
        let count = self.load_int()?;
        let ghost start = self.remaining();
        let ghost one = |s: Seq<u8>| read_i32(s);
        let mut lines: Vec<i32> = Vec::new();
        let mut i: i32 = 0;
        while i < count
            invariant
                0 <= i <= count_of(count),
                one == |s: Seq<u8>| read_i32(s),
                read_i32(old(self).remaining()) == Ok::<_, LoadError>((count, start)),
                read_many(one, start, i as nat) == Ok::<_, LoadError>((lines@, self.remaining())),
                self.name() == old(self).name(),
            decreases count - i,
        {
            match self.load_int() {
                Ok(line) => {
                    lines.push(line);
                },
                Err(e) => {
                    proof {
                        lemma_read_many_err(one, start, (i + 1) as nat, count_of(count));
                    }
                    return Err(e);
                },
            }
            i += 1;
        }
        Ok(lines)
    }

    /// Reads one local variable.
    fn load_locvar(&mut self) -> (r: Result<LocVar, LoadError>)
        ensures
            final(self).name() == old(self).name(),
            match read_locvar(old(self).remaining()) {
                Ok((locvar, rest)) => r matches Ok(v) && v@ == locvar
                    && final(self).remaining() == rest,
                Err(e) => r == Err::<LocVar, LoadError>(e),
            },
    {
        let varname = self.load_string()?;
        let startpc = self.load_int()?;
        let endpc = self.load_int()?;
        Ok(LocVar { varname, startpc, endpc })
    }

    /// Reads the local variables of a function: a count, then that many
    /// variables. A count below zero is read as zero.
    pub fn load_locvars(&mut self) -> (r: Result<Vec<LocVar>, LoadError>)
        ensures
            final(self).name() == old(self).name(),
            match read_locvars(old(self).remaining()) {
                Ok((locvars, rest)) => r matches Ok(v) && locvars_view(v@) == locvars
                    && final(self).remaining() == rest,
                Err(e) => r == Err::<Vec<LocVar>, LoadError>(e),
            },
    {
        let count = self.load_int()?;
        let ghost start = self.remaining();
        let ghost one = |s: Seq<u8>| read_locvar(s);
        let mut locvars: Vec<LocVar> = Vec::new();
        let mut i: i32 = 0;
        proof {
            assert(locvars_view(locvars@) =~= Seq::empty());
        }
        while i < count
            invariant
                0 <= i <= count_of(count),
                one == |s: Seq<u8>| read_locvar(s),
                read_i32(old(self).remaining()) == Ok::<_, LoadError>((count, start)),
                read_many(one, start, i as nat) == Ok::<_, LoadError>(
                    (locvars_view(locvars@), self.remaining()),
                ),
                self.name() == old(self).name(),
            decreases count - i,
        {
            let ghost before = locvars@;
            match self.load_locvar() {
                Ok(locvar) => {
                    locvars.push(locvar);
                    proof {
                        assert(locvars_view(locvars@) =~= locvars_view(before).push(locvar@));
                    }
                },
                Err(e) => {
                    proof {
                        lemma_read_many_err(one, start, (i + 1) as nat, count_of(count));
                    }
                    return Err(e);
                },
            }
            i += 1;
        }
        Ok(locvars)
    }

    /// Reads the names of upvalues: a count, then that many names, which go
    /// to the first of `upvalues` in order. A count below zero is read as
    /// zero. A count above the number of `upvalues` makes the load fail
    /// with `InvalidUpvalueIndex`, once the names that have an upvalue are
    /// read.
    pub fn load_upvalue_names(&mut self, upvalues: Vec<Upvalue>) -> (r: Result<
        Vec<Upvalue>,
        LoadError,
    >)
        ensures
            final(self).name() == old(self).name(),
            match read_i32(old(self).remaining()) {
                Err(e) => r == Err::<Vec<Upvalue>, LoadError>(e),
                Ok((count, rest)) => match read_upvalue_names(
                    rest,
                    upvalues_view(upvalues@),
                    count_of(count),
                ) {
                    Ok((named, rest)) => r matches Ok(v) && upvalues_view(v@) == named
                        && final(self).remaining() == rest,
                    Err(e) => r == Err::<Vec<Upvalue>, LoadError>(e),
                },
            },
    {
        let count = self.load_int()?;
        let ghost start = self.remaining();
        let ghost unnamed = upvalues_view(upvalues@);
        let mut named = upvalues;
        let mut i: i32 = 0;
        while i < count
            invariant
                0 <= i <= count_of(count),
                unnamed == upvalues_view(upvalues@),
                read_i32(old(self).remaining()) == Ok::<_, LoadError>((count, start)),
                read_upvalue_names(start, unnamed, i as nat) == Ok::<_, LoadError>(
                    (upvalues_view(named@), self.remaining()),
                ),
                self.name() == old(self).name(),
            decreases count - i,
        {
            let index = i as usize;
            if index >= named.len() {
                proof {
                    lemma_read_upvalue_names_err(start, unnamed, (i + 1) as nat, count_of(count));
                }
                return Err(LoadError::InvalidUpvalueIndex(index));
            }
            let ghost before = named@;
            match self.load_string() {
                Ok(name) => {
                    let instack = named[index].instack;
                    let idx = named[index].idx;
                    let upvalue = Upvalue { name, instack, idx };
                    named.set(index, upvalue);
                    proof {
                        assert(upvalues_view(named@) =~= upvalues_view(before).update(
                            index as int,
                            upvalue@,
                        ));
                    }
                },
                Err(e) => {
                    proof {
                        lemma_read_upvalue_names_err(
                            start,
                            unnamed,
                            (i + 1) as nat,
                            count_of(count),
                        );
                    }
                    return Err(e);
                },
            }
            i += 1;
        }
        Ok(named)
    }

    /// Reads the debug section of a function whose upvalues are `upvalues`:
    /// the line numbers, the local variables and the names of the upvalues.
    /// It gives the three back, the upvalues with their names.
    pub fn load_debug(&mut self, upvalues: Vec<Upvalue>) -> (r: Result<
        (Vec<i32>, Vec<LocVar>, Vec<Upvalue>),
        LoadError,
    >)
        ensures
            final(self).name() == old(self).name(),
            match read_debug(old(self).remaining(), upvalues_view(upvalues@)) {
                Ok((debug, rest)) => {
                    &&& r matches Ok((lineinfo, locvars, named))
                    &&& lineinfo@ == debug.lineinfo
                    &&& locvars_view(locvars@) == debug.locvars
                    &&& upvalues_view(named@) == debug.upvalues
                    &&& final(self).remaining() == rest
                },
                Err(e) => r matches Err(found) && found == e,
            },
    {
        let lineinfo = self.load_lineinfo()?;
        let locvars = self.load_locvars()?;
        let named = self.load_upvalue_names(upvalues)?;
        Ok((lineinfo, locvars, named))
    }

    /// Reads the source name of a function, and gives it as bytes and as
    /// text. A function without a name of its own takes `parent`.
    fn load_source(&mut self, parent: &Vec<u8>) -> (r: Result<(Vec<u8>, String), LoadError>)
        ensures
            final(self).name() == old(self).name(),
            match read_source(old(self).remaining(), parent@) {
                Ok((source, rest)) => {
                    &&& r matches Ok((bytes, text))
                    &&& bytes@ == source
                    &&& text@ == decode_utf8(source)
                    &&& final(self).remaining() == rest
                },
                Err(e) => r matches Err(found) && found == e,
            },
    {
        let own = self.load_string()?;
        let bytes = if own.len() != 0 {
            own
        } else {
            parent.clone()
        };
        match String::from_utf8(bytes.clone()) {
            Ok(text) => Ok((bytes, text)),
            Err(_) => Err(LoadError::InvalidSourceName),
        }
    }

    /// Reads a function block whose enclosing function has the source name
    /// `source`.
    pub fn load_function(&mut self, source: &Vec<u8>) -> (r: Result<Proto, LoadError>)
        ensures
            final(self).name() == old(self).name(),
            match read_function(old(self).remaining(), source@) {
                Ok((proto, rest)) => r matches Ok(v) && v@ == proto && final(self).remaining()
                    == rest,
                Err(e) => r matches Err(found) && found == e,
            },
        decreases old(self).remaining().len(), 0nat,
    {
        let (bytes, text) = self.load_source(source)?;
        let linedefined = self.load_int()?;
        let lastlinedefined = self.load_int()?;
        let numparams = self.load_byte()?;
        let is_vararg = self.load_byte()? != 0;
        let maxstacksize = self.load_byte()?;
        let instructions = self.load_code()?;
        let constants = self.load_constants()?;
        let upvalues = self.load_upvalues()?;
        proof {
            lemma_read_head_rest(old(self).remaining(), source@);
        }
        let protos = self.load_protos(&bytes)?;
        let (lineinfo, locvars, upvalues) = self.load_debug(upvalues)?;
        let proto = Proto {
            numparams,
            is_vararg,
            maxstacksize,
            linedefined,
            lastlinedefined,
            constants,
            instructions,
            protos,
            lineinfo,
            upvalues,
            locvars,
            source: text,
        };
        proof {
            Proto::lemma_view_protos(proto);
        }
        Ok(proto)
    }

    /// Reads the functions nested in a function whose source name is
    /// `source`: a count, then that many function blocks. A count below
    /// zero is read as zero.
    pub fn load_protos(&mut self, source: &Vec<u8>) -> (r: Result<Vec<Proto>, LoadError>)
        ensures
            final(self).name() == old(self).name(),
            match read_i32(old(self).remaining()) {
                Err(e) => r matches Err(found) && found == e,
                Ok((count, rest)) => match read_protos(rest, source@, count_of(count)) {
                    Ok((protos, rest)) => r matches Ok(v) && protos_view(v@) == protos
                        && final(self).remaining() == rest,
                    Err(e) => r matches Err(found) && found == e,
                },
            },
        decreases old(self).remaining().len(), 1nat,
    {
        let count = self.load_int()?;
        let ghost start = self.remaining();
        let mut protos: Vec<Proto> = Vec::new();
        let mut i: i32 = 0;
        proof {
            assert(protos_view(protos@) =~= Seq::empty());
        }
        while i < count
            invariant
                0 <= i <= count_of(count),
                start.len() < old(self).remaining().len(),
                read_i32(old(self).remaining()) == Ok::<_, LoadError>((count, start)),
                read_protos(start, source@, i as nat) == Ok::<_, LoadError>(
                    (protos_view(protos@), self.remaining()),
                ),
                self.name() == old(self).name(),
            decreases count - i,
        {
            let ghost before = protos@;
            proof {
                lemma_read_protos_rest(start, source@, i as nat);
            }
            match self.load_function(source) {
                Ok(proto) => {
                    protos.push(proto);
                    proof {
                        assert(protos_view(protos@) =~= protos_view(before).push(proto@));
                    }
                },
                Err(e) => {
                    proof {
                        lemma_read_protos_err(start, source@, (i + 1) as nat, count_of(count));
                    }
                    return Err(e);
                },
            }
            i += 1;
        }
        Ok(protos)
    }

    /// Reads a chunk: the header, the byte that counts the upvalues of the
    /// main function, and the main function.
    pub fn load_chunk(&mut self) -> (r: Result<Proto, LoadError>)
        ensures
            final(self).name() == old(self).name(),
            match read_chunk(old(self).remaining()) {
                Ok((proto, rest)) => r matches Ok(v) && v@ == proto && final(self).remaining()
                    == rest,
                Err(e) => r matches Err(found) && found == e,
            },
    {
        self.check_header()?;
        let _upvals = self.load_byte()?;
        let source: Vec<u8> = Vec::new();
        self.load_function(&source)
    }

    /// Loads the chunk called `name` from `input`, the bytes read from it.
    /// It gives the main function of the chunk, and fails with
    /// `BufferNotEmpty` where bytes are left after it.
    pub fn from_read(input: Vec<u8>, name: String) -> (r: Result<Proto, LoadError>)
        ensures
            match chunk_of(input@) {
                Ok(proto) => r matches Ok(v) && v@ == proto,
                Err(e) => r matches Err(found) && found == e,
            },
    {
        let mut state = LoadState::new(input, name);
        let proto = state.load_chunk()?;
        if state.finished() {
            Ok(proto)
        } else {
            Err(LoadError::BufferNotEmpty)
        }
    }
}

/// Tells whether two runs of bytes are the same.
fn same_bytes(a: &Vec<u8>, b: &[u8]) -> (r: bool)
    ensures
        r == (a@ == b@),
{
    if a.len() != b.len() {
        return false;
    }
    let mut i: usize = 0;
    while i < a.len()
        invariant
            i <= a.len(),
            a.len() == b.len(),
            a@.take(i as int) == b@.take(i as int),
        decreases a.len() - i,
    {
        if a[i] != b[i] {
            return false;
        }
        i += 1;
        assert(a@.take(i as int) =~= a@.take(i - 1).push(a@[i - 1]));
        assert(b@.take(i as int) =~= b@.take(i - 1).push(b@[i - 1]));
    }
    assert(a@ =~= a@.take(i as int));
    assert(b@ =~= b@.take(i as int));
    true
}

/// The number that four bytes stand for, the lowest byte first.
fn u32_of(b0: u8, b1: u8, b2: u8, b3: u8) -> (r: u32)
    ensures
        r == le_u32(seq![b0, b1, b2, b3]),
{
    b0 as u32 + b1 as u32 * 0x100 + b2 as u32 * 0x1_0000 + b3 as u32 * 0x100_0000
}

/// The signed number with the bits of `x`.
fn i32_of(x: u32) -> (r: i32)
    ensures
        r == signed32(x),
{
    if x < 0x8000_0000 {
        x as i32
    } else {
        ((x - 0x8000_0000) as i32) + i32::MIN
    }
}

/// The signed number with the bits of `x`.
fn i64_of(x: u64) -> (r: i64)
    ensures
        r == signed64(x),
{
    if x < 0x8000_0000_0000_0000 {
        x as i64
    } else {
        ((x - 0x8000_0000_0000_0000) as i64) + i64::MIN
    }
}

} // verus!
