//! Instruction words and their decoded form.
//!
//! An instruction is one 32-bit word. Its lowest six bits hold the opcode; the
//! opcode decides which of four layouts the other 26 bits have:
//!
//! ```text
//!  31      23 22      14 13     6 5    0
//! |    B     |    C     |   A    |  op  |   ABC
//! |         Bx          |   A    |  op  |   ABx
//! |         sBx         |   A    |  op  |   AsBx
//! |              Ax              |  op  |   Ax
//! ```
//!
//! `sBx` is a signed number stored with an excess: the field holds the number
//! plus `MAXARG_SBX`.

use vstd::prelude::*;
use vstd::std_specs::convert::TryFromSpecImpl;
use crate::errors::LoadError;

verus! {

/// One packed instruction.
pub type Word = u32;

/// Width in bits of the opcode field.
pub const SIZE_OP: u32 = 6;

/// Width in bits of the field A.
pub const SIZE_A: u32 = 8;

/// Width in bits of the field C.
pub const SIZE_C: u32 = 9;

/// Width in bits of the field B.
pub const SIZE_B: u32 = 9;

/// Width in bits of the field Bx, which covers C and B.
pub const SIZE_BX: u32 = SIZE_C + SIZE_B;

/// Width in bits of the field Ax, which covers A, C and B.
pub const SIZE_AX: u32 = SIZE_C + SIZE_B + SIZE_A;

/// Position of the lowest bit of the opcode field.
pub const OFFSET_OP: u32 = 0;

/// Position of the lowest bit of the field A.
pub const OFFSET_A: u32 = OFFSET_OP + SIZE_OP;

/// Position of the lowest bit of the field C.
pub const OFFSET_C: u32 = OFFSET_A + SIZE_A;

/// Position of the lowest bit of the field B.
pub const OFFSET_B: u32 = OFFSET_C + SIZE_C;

/// Position of the lowest bit of the field Bx.
pub const OFFSET_BX: u32 = OFFSET_C;

/// Position of the lowest bit of the field Ax.
pub const OFFSET_AX: u32 = OFFSET_A;

/// The largest value of the opcode field.
pub const BITMASK_OP: u32 = 0x3f;

/// The largest value of the field A.
pub const BITMASK_A: u32 = 0xff;

/// The largest value of the field Ax.
pub const BITMASK_AX: u32 = 0x3ff_ffff;

/// The largest value of the field B.
pub const BITMASK_B: u32 = 0x1ff;

/// The largest value of the field Bx.
pub const BITMASK_BX: u32 = 0x3_ffff;

/// The largest value of the field C.
pub const BITMASK_C: u32 = 0x1ff;

/// The bit of a field B or C that tells a constant from a register.
pub const BITMASK_IS_RK: u32 = 0x100;

/// The excess of the field sBx: the largest value of a field one bit narrower
/// than Bx, so that the numbers from `-MAXARG_SBX` to `MAXARG_SBX + 1` can be
/// stored.
pub const MAXARG_SBX: i32 = 0x1_ffff;

/// The number of opcodes. Their codes are the numbers below it.
pub const NUM_OPCODES: u8 = 47;

/// Each mask is a run of as many one bits as its field is wide, and the
/// excess of sBx is half the mask of Bx.
pub proof fn lemma_masks_from_sizes()
    ensures
        BITMASK_OP == (1u32 << SIZE_OP) - 1,
        BITMASK_A == (1u32 << SIZE_A) - 1,
        BITMASK_AX == (1u32 << SIZE_AX) - 1,
        BITMASK_B == (1u32 << SIZE_B) - 1,
        BITMASK_BX == (1u32 << SIZE_BX) - 1,
        BITMASK_C == (1u32 << SIZE_C) - 1,
        BITMASK_IS_RK == 1u32 << (SIZE_B - 1) as u32,
        MAXARG_SBX == BITMASK_BX >> 1,
        OFFSET_B + SIZE_B == 32,
        OFFSET_BX + SIZE_BX == 32,
        OFFSET_AX + SIZE_AX == 32,
{
    assert(0x3fu32 == (1u32 << 6u32) - 1) by (bit_vector);
    assert(0xffu32 == (1u32 << 8u32) - 1) by (bit_vector);
    assert(0x3ff_ffffu32 == (1u32 << 26u32) - 1) by (bit_vector);
    assert(0x1ffu32 == (1u32 << 9u32) - 1) by (bit_vector);
    assert(0x3_ffffu32 == (1u32 << 18u32) - 1) by (bit_vector);
    assert(0x100u32 == 1u32 << 8u32) by (bit_vector);
    assert(0x1_ffffu32 == 0x3_ffffu32 >> 1u32) by (bit_vector);
}

/// The four ways in which an instruction word is divided.
#[derive(Debug, Clone, Copy, PartialEq, Eq, Structural)]
pub enum OperandLayout {
    /// The fields A, B and C.
    ABC,
    /// The fields A and Bx.
    ABx,
    /// The fields A and sBx.
    AsBx,
    /// The field Ax.
    Ax,
}

/// The operations of the virtual machine, in the order of their codes.
#[derive(Debug, Clone, Copy, PartialEq, Eq, Structural)]
pub enum OpCode {
    /// ABC: copies register B into register A.
    Move,
    /// ABx: loads constant Bx into register A.
    LoadK,
    /// ABC: loads into register A the constant named by the extra argument that follows.
    LoadKX,
    /// ABC: sets register A to the truth value B and, if C is set, skips the next instruction.
    LoadBool,
    /// ABC: sets registers A to A + B to nil.
    LoadNil,
    /// ABC: loads upvalue B into register A.
    GetUpval,
    /// ABC: indexes upvalue B with the register or constant C, into register A.
    GetTabUp,
    /// ABC: indexes register B with the register or constant C, into register A.
    GetTable,
    /// ABC: stores the register or constant C in upvalue A at the key B.
    SetTabUp,
    /// ABC: stores register A in upvalue B.
    SetUpval,
    /// ABC: stores the register or constant C in register A at the key B.
    SetTable,
    /// ABC: makes a table in register A, with sizes B and C.
    NewTable,
    /// ABC: prepares a method call: register A + 1 gets register B, register A its field C.
    SelfLoad,
    /// ABC: addition of B and C into register A.
    Add,
    /// ABC: subtraction of C from B into register A.
    Sub,
    /// ABC: multiplication of B and C into register A.
    Mul,
    /// ABC: remainder of B by C into register A.
    Mod,
    /// ABC: B raised to the power C, into register A.
    Pow,
    /// ABC: division of B by C into register A.
    Div,
    /// ABC: floor division of B by C into register A.
    IDiv,
    /// ABC: bitwise and of B and C into register A.
    BAnd,
    /// ABC: bitwise or of B and C into register A.
    BOr,
    /// ABC: bitwise exclusive or of B and C into register A.
    BXOr,
    /// ABC: B shifted left by C, into register A.
    Shl,
    /// ABC: B shifted right by C, into register A.
    Shr,
    /// ABC: arithmetic negation of register B into register A.
    Unm,
    /// ABC: bitwise negation of register B into register A.
    BNot,
    /// ABC: logical negation of register B into register A.
    Not,
    /// ABC: length of register B into register A.
    Len,
    /// ABC: concatenation of registers B to C into register A.
    Concat,
    /// AsBx: jumps by sBx and, if A is not zero, closes the upvalues from register A - 1 on.
    Jmp,
    /// ABC: skips the next instruction unless the equality of B and C is A.
    Eq,
    /// ABC: skips the next instruction unless B being less than C is A.
    Lt,
    /// ABC: skips the next instruction unless B being at most C is A.
    Le,
    /// ABC: skips the next instruction unless the truth of register A is C.
    Test,
    /// ABC: if the truth of register B is C, copies it into register A, else skips the next instruction.
    TestSet,
    /// ABC: calls register A with B - 1 arguments, for C - 1 results.
    Call,
    /// ABC: returns the call of register A with B - 1 arguments.
    TailCall,
    /// ABC: returns B - 1 values from register A on.
    Return,
    /// AsBx: steps a numeric loop and jumps back by sBx while it lasts.
    ForLoop,
    /// AsBx: prepares a numeric loop and jumps by sBx to its test.
    ForPrep,
    /// ABC: calls the iterator of a generic loop, for C results.
    TForCall,
    /// AsBx: jumps back by sBx while the iterator of a generic loop yields a value.
    TForLoop,
    /// ABC: stores B registers after A into the table in register A, in block C.
    SetList,
    /// ABx: makes a closure of nested function Bx in register A.
    Closure,
    /// ABC: copies B - 1 variable arguments into the registers from A on.
    VarArg,
    /// Ax: holds in Ax an argument too large for the instruction before it.
    ExtraArg,
}

impl OpCode {
    /// The code of an operation: its place in the table of operations.
    pub open spec fn code(self) -> u8 {
        match self {
            OpCode::Move => 0,
            OpCode::LoadK => 1,
            OpCode::LoadKX => 2,
            OpCode::LoadBool => 3,
            OpCode::LoadNil => 4,
            OpCode::GetUpval => 5,
            OpCode::GetTabUp => 6,
            OpCode::GetTable => 7,
            OpCode::SetTabUp => 8,
            OpCode::SetUpval => 9,
            OpCode::SetTable => 10,
            OpCode::NewTable => 11,
            OpCode::SelfLoad => 12,
            OpCode::Add => 13,
            OpCode::Sub => 14,
            OpCode::Mul => 15,
            OpCode::Mod => 16,
            OpCode::Pow => 17,
            OpCode::Div => 18,
            OpCode::IDiv => 19,
            OpCode::BAnd => 20,
            OpCode::BOr => 21,
            OpCode::BXOr => 22,
            OpCode::Shl => 23,
            OpCode::Shr => 24,
            OpCode::Unm => 25,
            OpCode::BNot => 26,
            OpCode::Not => 27,
            OpCode::Len => 28,
            OpCode::Concat => 29,
            OpCode::Jmp => 30,
            OpCode::Eq => 31,
            OpCode::Lt => 32,
            OpCode::Le => 33,
            OpCode::Test => 34,
            OpCode::TestSet => 35,
            OpCode::Call => 36,
            OpCode::TailCall => 37,
            OpCode::Return => 38,
            OpCode::ForLoop => 39,
            OpCode::ForPrep => 40,
            OpCode::TForCall => 41,
            OpCode::TForLoop => 42,
            OpCode::SetList => 43,
            OpCode::Closure => 44,
            OpCode::VarArg => 45,
            OpCode::ExtraArg => 46,
        }
    }

    /// The operation with a given code, if the code is assigned.
    pub open spec fn of_code(code: u8) -> Option<OpCode> {
        match code {
            0 => Some(OpCode::Move),
            1 => Some(OpCode::LoadK),
            2 => Some(OpCode::LoadKX),
            3 => Some(OpCode::LoadBool),
            4 => Some(OpCode::LoadNil),
            5 => Some(OpCode::GetUpval),
            6 => Some(OpCode::GetTabUp),
            7 => Some(OpCode::GetTable),
            8 => Some(OpCode::SetTabUp),
            9 => Some(OpCode::SetUpval),
            10 => Some(OpCode::SetTable),
            11 => Some(OpCode::NewTable),
            12 => Some(OpCode::SelfLoad),
            13 => Some(OpCode::Add),
            14 => Some(OpCode::Sub),
            15 => Some(OpCode::Mul),
            16 => Some(OpCode::Mod),
            17 => Some(OpCode::Pow),
            18 => Some(OpCode::Div),
            19 => Some(OpCode::IDiv),
            20 => Some(OpCode::BAnd),
            21 => Some(OpCode::BOr),
            22 => Some(OpCode::BXOr),
            23 => Some(OpCode::Shl),
            24 => Some(OpCode::Shr),
            25 => Some(OpCode::Unm),
            26 => Some(OpCode::BNot),
            27 => Some(OpCode::Not),
            28 => Some(OpCode::Len),
            29 => Some(OpCode::Concat),
            30 => Some(OpCode::Jmp),
            31 => Some(OpCode::Eq),
            32 => Some(OpCode::Lt),
            33 => Some(OpCode::Le),
            34 => Some(OpCode::Test),
            35 => Some(OpCode::TestSet),
            36 => Some(OpCode::Call),
            37 => Some(OpCode::TailCall),
            38 => Some(OpCode::Return),
            39 => Some(OpCode::ForLoop),
            40 => Some(OpCode::ForPrep),
            41 => Some(OpCode::TForCall),
            42 => Some(OpCode::TForLoop),
            43 => Some(OpCode::SetList),
            44 => Some(OpCode::Closure),
            45 => Some(OpCode::VarArg),
            46 => Some(OpCode::ExtraArg),
            _ => None,
        }
    }

    /// The layout of the words that carry an operation.
    pub open spec fn layout(self) -> OperandLayout {
        match self {
            OpCode::LoadK | OpCode::Closure => OperandLayout::ABx,
            OpCode::Jmp | OpCode::ForLoop | OpCode::ForPrep | OpCode::TForLoop => OperandLayout::AsBx,
            OpCode::ExtraArg => OperandLayout::Ax,
            _ => OperandLayout::ABC,
        }
    }

    /// Returns the code of the operation.
    pub fn to_code(self) -> (r: u8)
        ensures
            r == self.code(),
            r < NUM_OPCODES,
            OpCode::of_code(r) == Some(self),
    {
        match self {
            OpCode::Move => 0,
            OpCode::LoadK => 1,
            OpCode::LoadKX => 2,
            OpCode::LoadBool => 3,
            OpCode::LoadNil => 4,
            OpCode::GetUpval => 5,
            OpCode::GetTabUp => 6,
            OpCode::GetTable => 7,
            OpCode::SetTabUp => 8,
            OpCode::SetUpval => 9,
            OpCode::SetTable => 10,
            OpCode::NewTable => 11,
            OpCode::SelfLoad => 12,
            OpCode::Add => 13,
            OpCode::Sub => 14,
            OpCode::Mul => 15,
            OpCode::Mod => 16,
            OpCode::Pow => 17,
            OpCode::Div => 18,
            OpCode::IDiv => 19,
            OpCode::BAnd => 20,
            OpCode::BOr => 21,
            OpCode::BXOr => 22,
            OpCode::Shl => 23,
            OpCode::Shr => 24,
            OpCode::Unm => 25,
            OpCode::BNot => 26,
            OpCode::Not => 27,
            OpCode::Len => 28,
            OpCode::Concat => 29,
            OpCode::Jmp => 30,
            OpCode::Eq => 31,
            OpCode::Lt => 32,
            OpCode::Le => 33,
            OpCode::Test => 34,
            OpCode::TestSet => 35,
            OpCode::Call => 36,
            OpCode::TailCall => 37,
            OpCode::Return => 38,
            OpCode::ForLoop => 39,
            OpCode::ForPrep => 40,
            OpCode::TForCall => 41,
            OpCode::TForLoop => 42,
            OpCode::SetList => 43,
            OpCode::Closure => 44,
            OpCode::VarArg => 45,
            OpCode::ExtraArg => 46,
        }
    }

    /// Returns the layout of the words that carry the operation.
    pub fn operand_layout(self) -> (r: OperandLayout)
        ensures
            r == self.layout(),
    {
        match self {
            OpCode::LoadK | OpCode::Closure => OperandLayout::ABx,
            OpCode::Jmp | OpCode::ForLoop | OpCode::ForPrep | OpCode::TForLoop => OperandLayout::AsBx,
            OpCode::ExtraArg => OperandLayout::Ax,
            _ => OperandLayout::ABC,
        }
    }

    /// The codes and the operations correspond one to one: the codes in use
    /// are exactly those below `NUM_OPCODES`, each operation is found again
    /// from its code, and each code from its operation.
    pub proof fn lemma_code_table(op: OpCode, code: u8)
        ensures
            op.code() < NUM_OPCODES,
            OpCode::of_code(op.code()) == Some(op),
            OpCode::of_code(code) is Some <==> code < NUM_OPCODES,
            OpCode::of_code(code) matches Some(found) ==> found.code() == code,
    {
    }
}

impl TryFrom<u8> for OpCode {
    type Error = LoadError;

    /// Finds the operation with the code `value`. Fails with `InvalidOpCode`
    /// where no operation has that code.
    fn try_from(value: u8) -> (r: Result<OpCode, LoadError>) {
        match value {
            0 => Ok(OpCode::Move),
            1 => Ok(OpCode::LoadK),
            2 => Ok(OpCode::LoadKX),
            3 => Ok(OpCode::LoadBool),
            4 => Ok(OpCode::LoadNil),
            5 => Ok(OpCode::GetUpval),
            6 => Ok(OpCode::GetTabUp),
            7 => Ok(OpCode::GetTable),
            8 => Ok(OpCode::SetTabUp),
            9 => Ok(OpCode::SetUpval),
            10 => Ok(OpCode::SetTable),
            11 => Ok(OpCode::NewTable),
            12 => Ok(OpCode::SelfLoad),
            13 => Ok(OpCode::Add),
            14 => Ok(OpCode::Sub),
            15 => Ok(OpCode::Mul),
            16 => Ok(OpCode::Mod),
            17 => Ok(OpCode::Pow),
            18 => Ok(OpCode::Div),
            19 => Ok(OpCode::IDiv),
            20 => Ok(OpCode::BAnd),
            21 => Ok(OpCode::BOr),
            22 => Ok(OpCode::BXOr),
            23 => Ok(OpCode::Shl),
            24 => Ok(OpCode::Shr),
            25 => Ok(OpCode::Unm),
            26 => Ok(OpCode::BNot),
            27 => Ok(OpCode::Not),
            28 => Ok(OpCode::Len),
            29 => Ok(OpCode::Concat),
            30 => Ok(OpCode::Jmp),
            31 => Ok(OpCode::Eq),
            32 => Ok(OpCode::Lt),
            33 => Ok(OpCode::Le),
            34 => Ok(OpCode::Test),
            35 => Ok(OpCode::TestSet),
            36 => Ok(OpCode::Call),
            37 => Ok(OpCode::TailCall),
            38 => Ok(OpCode::Return),
            39 => Ok(OpCode::ForLoop),
            40 => Ok(OpCode::ForPrep),
            41 => Ok(OpCode::TForCall),
            42 => Ok(OpCode::TForLoop),
            43 => Ok(OpCode::SetList),
            44 => Ok(OpCode::Closure),
            45 => Ok(OpCode::VarArg),
            46 => Ok(OpCode::ExtraArg),
            _ => Err(LoadError::InvalidOpCode),
        }
    }
}

impl TryFromSpecImpl<u8> for OpCode {
    open spec fn obeys_try_from_spec() -> bool {
        true
    }

    open spec fn try_from_spec(v: u8) -> Result<OpCode, LoadError> {
        match OpCode::of_code(v) {
            Some(op) => Ok(op),
            None => Err(LoadError::InvalidOpCode),
        }
    }
}

/// The opcode field of a word.
pub open spec fn get_opcode(word: Word) -> u32 {
    (word >> OFFSET_OP) & BITMASK_OP
}

/// The field A of a word.
pub open spec fn get_a(word: Word) -> u32 {
    (word >> OFFSET_A) & BITMASK_A
}

/// The field B of a word.
pub open spec fn get_b(word: Word) -> u32 {
    (word >> OFFSET_B) & BITMASK_B
}

/// The field C of a word.
pub open spec fn get_c(word: Word) -> u32 {
    (word >> OFFSET_C) & BITMASK_C
}

/// The field Bx of a word.
pub open spec fn get_bx(word: Word) -> u32 {
    (word >> OFFSET_BX) & BITMASK_BX
}

/// The field Ax of a word.
pub open spec fn get_ax(word: Word) -> u32 {
    (word >> OFFSET_AX) & BITMASK_AX
}

/// The number that the field sBx of a word stands for: what the field holds,
/// less the excess.
pub open spec fn get_sbx(word: Word) -> int {
    get_bx(word) - MAXARG_SBX
}

/// No field holds more than its mask.
pub proof fn lemma_field_bounds(word: Word)
    ensures
        get_opcode(word) <= BITMASK_OP,
        get_a(word) <= BITMASK_A,
        get_b(word) <= BITMASK_B,
        get_c(word) <= BITMASK_C,
        get_bx(word) <= BITMASK_BX,
        get_ax(word) <= BITMASK_AX,
        -MAXARG_SBX <= get_sbx(word) <= MAXARG_SBX + 1,
{
    assert(get_opcode(word) <= BITMASK_OP) by (bit_vector);
    assert(get_a(word) <= BITMASK_A) by (bit_vector);
    assert(get_b(word) <= BITMASK_B) by (bit_vector);
    assert(get_c(word) <= BITMASK_C) by (bit_vector);
    assert(get_bx(word) <= BITMASK_BX) by (bit_vector);
    assert(get_ax(word) <= BITMASK_AX) by (bit_vector);
}

/// The field sBx that holds nothing but zero bits stands for the least
/// number, `-MAXARG_SBX`, and the field that holds nothing but one bits for
/// the greatest, `MAXARG_SBX + 1`. The field that holds `MAXARG_SBX` stands
/// for zero.
pub proof fn lemma_sbx_extremes(word: Word)
    ensures
        get_bx(word) == 0 <==> get_sbx(word) == -MAXARG_SBX,
        get_bx(word) == BITMASK_BX <==> get_sbx(word) == MAXARG_SBX + 1,
        get_bx(word) == MAXARG_SBX <==> get_sbx(word) == 0,
        -MAXARG_SBX == -131071,
        MAXARG_SBX + 1 == 131072,
{
}

/// A decoded instruction: the operation, and the operands that its layout has.
#[derive(Debug, Clone, Copy, PartialEq, Eq, Structural)]
pub enum Instruction {
    /// An operation with up to three short operands.
    ABC {
        instruction: OpCode,
        a: u8,
        b: u16,
        c: u16,
    },
    /// An operation with one short and one long unsigned operand.
    ABx {
        instruction: OpCode,
        a: u8,
        bx: u32,
    },
    /// An operation with one short operand and one long signed operand.
    AsBx {
        instruction: OpCode,
        a: u8,
        sbx: i32,
    },
    /// An operation whose one operand fills the word.
    Ax {
        instruction: OpCode,
        ax: u32,
    },
}

impl Instruction {
    /// What a word decodes to. The opcode field selects the operation, and
    /// the operation selects the layout by which the operands are taken out.
    /// A word whose opcode field holds no assigned code decodes to nothing.
    pub open spec fn decode(word: Word) -> Result<Instruction, LoadError> {
        match OpCode::of_code(get_opcode(word) as u8) {
            None => Err(LoadError::InvalidOpCode),
            Some(op) => Ok(
                match op.layout() {
                    OperandLayout::ABC => Instruction::ABC {
                        instruction: op,
                        a: get_a(word) as u8,
                        b: get_b(word) as u16,
                        c: get_c(word) as u16,
                    },
                    OperandLayout::ABx => Instruction::ABx {
                        instruction: op,
                        a: get_a(word) as u8,
                        bx: get_bx(word),
                    },
                    OperandLayout::AsBx => Instruction::AsBx {
                        instruction: op,
                        a: get_a(word) as u8,
                        sbx: get_sbx(word) as i32,
                    },
                    OperandLayout::Ax => Instruction::Ax { instruction: op, ax: get_ax(word) },
                },
            ),
        }
    }

    /// The operation of an instruction.
    pub open spec fn op(self) -> OpCode {
        match self {
            Instruction::ABC { instruction, .. } => instruction,
            Instruction::ABx { instruction, .. } => instruction,
            Instruction::AsBx { instruction, .. } => instruction,
            Instruction::Ax { instruction, .. } => instruction,
        }
    }

    /// Whether an instruction can stand in a word: it has the layout of its
    /// operation, and each operand fits its field.
    pub open spec fn wf(self) -> bool {
        match self {
            Instruction::ABC { instruction, a, b, c } => {
                &&& instruction.layout() == OperandLayout::ABC
                &&& b <= BITMASK_B
                &&& c <= BITMASK_C
            },
            Instruction::ABx { instruction, a, bx } => {
                &&& instruction.layout() == OperandLayout::ABx
                &&& bx <= BITMASK_BX
            },
            Instruction::AsBx { instruction, a, sbx } => {
                &&& instruction.layout() == OperandLayout::AsBx
                &&& -MAXARG_SBX <= sbx <= MAXARG_SBX + 1
            },
            Instruction::Ax { instruction, ax } => {
                &&& instruction.layout() == OperandLayout::Ax
                &&& ax <= BITMASK_AX
            },
        }
    }

    /// The word that holds an instruction: each operand at the offset of its
    /// field, the signed operand with its excess added. It says nothing of
    /// an instruction that is not `wf`.
    pub open spec fn word(self) -> Word {
        match self {
            Instruction::ABC { instruction, a, b, c } => {
                (instruction.code() as u32) << OFFSET_OP | (a as u32) << OFFSET_A | (c as u32)
                    << OFFSET_C | (b as u32) << OFFSET_B
            },
            Instruction::ABx { instruction, a, bx } => {
                (instruction.code() as u32) << OFFSET_OP | (a as u32) << OFFSET_A | bx
                    << OFFSET_BX
            },
            Instruction::AsBx { instruction, a, sbx } => {
                (instruction.code() as u32) << OFFSET_OP | (a as u32) << OFFSET_A | ((sbx
                    + MAXARG_SBX) as u32) << OFFSET_BX
            },
            Instruction::Ax { instruction, ax } => {
                (instruction.code() as u32) << OFFSET_OP | ax << OFFSET_AX
            },
        }
    }

    /// Returns the operation of the instruction.
    pub fn opcode(&self) -> (r: OpCode)
        ensures
            r == self.op(),
    {
        match self {
            Instruction::ABC { instruction, .. } => *instruction,
            Instruction::ABx { instruction, .. } => *instruction,
            Instruction::AsBx { instruction, .. } => *instruction,
            Instruction::Ax { instruction, .. } => *instruction,
        }
    }

    /// Tells whether the instruction can stand in a word.
    pub fn is_valid(&self) -> (r: bool)
        ensures
            r == self.wf(),
    {
        match self {
            Instruction::ABC { instruction, a, b, c } => {
                instruction.operand_layout() == OperandLayout::ABC && *b <= 0x1ff && *c <= 0x1ff
            },
            Instruction::ABx { instruction, a, bx } => {
                instruction.operand_layout() == OperandLayout::ABx && *bx <= BITMASK_BX
            },
            Instruction::AsBx { instruction, a, sbx } => {
                instruction.operand_layout() == OperandLayout::AsBx && -MAXARG_SBX <= *sbx
                    && *sbx <= MAXARG_SBX + 1
            },
            Instruction::Ax { instruction, ax } => {
                instruction.operand_layout() == OperandLayout::Ax && *ax <= BITMASK_AX
            },
        }
    }

    /// Packs the instruction into a word. Returns `None` where the
    /// instruction cannot stand in a word; else the word returned decodes to
    /// the instruction again.
    pub fn encode(&self) -> (r: Option<Word>)
        ensures
            r == (if self.wf() {
                Some(self.word())
            } else {
                None
            }),
            self.wf() ==> Instruction::decode(self.word()) == Ok::<Instruction, LoadError>(*self),
    {
        if !self.is_valid() {
            return None;
        }
        proof {
            Instruction::lemma_decode_encode(*self);
        }
        let word: Word = match self {
            Instruction::ABC { instruction, a, b, c } => {
                (instruction.to_code() as u32) << OFFSET_OP | (*a as u32) << OFFSET_A | (*c as u32)
                    << OFFSET_C | (*b as u32) << OFFSET_B
            },
            Instruction::ABx { instruction, a, bx } => {
                (instruction.to_code() as u32) << OFFSET_OP | (*a as u32) << OFFSET_A | *bx
                    << OFFSET_BX
            },
            Instruction::AsBx { instruction, a, sbx } => {
                (instruction.to_code() as u32) << OFFSET_OP | (*a as u32) << OFFSET_A | ((*sbx
                    + MAXARG_SBX) as u32) << OFFSET_BX
            },
            Instruction::Ax { instruction, ax } => {
                (instruction.to_code() as u32) << OFFSET_OP | *ax << OFFSET_AX
            },
        };
        Some(word)
    }

    /// Packing an instruction that can stand in a word, and decoding that
    /// word, gives the instruction back.
    pub proof fn lemma_decode_encode(i: Instruction)
        requires
            i.wf(),
        ensures
            Instruction::decode(i.word()) == Ok::<Instruction, LoadError>(i),
    {
        let w = i.word();
        let op = i.op().code() as u32;
        OpCode::lemma_code_table(i.op(), 0);
        match i {
            Instruction::ABC { instruction, a, b, c } => {
                let (a, b, c) = (a as u32, b as u32, c as u32);
                assert(get_opcode(w) == op && get_a(w) == a && get_b(w) == b && get_c(w) == c)
                    by (bit_vector)
                    requires
                        w == op << OFFSET_OP | a << OFFSET_A | c << OFFSET_C | b << OFFSET_B,
                        op <= BITMASK_OP,
                        a <= BITMASK_A,
                        b <= BITMASK_B,
                        c <= BITMASK_C,
                ;
            },
            Instruction::ABx { instruction, a, bx } => {
                let a = a as u32;
                assert(get_opcode(w) == op && get_a(w) == a && get_bx(w) == bx) by (bit_vector)
                    requires
                        w == op << OFFSET_OP | a << OFFSET_A | bx << OFFSET_BX,
                        op <= BITMASK_OP,
                        a <= BITMASK_A,
                        bx <= BITMASK_BX,
                ;
            },
            Instruction::AsBx { instruction, a, sbx } => {
                let a = a as u32;
                let bx = (sbx + MAXARG_SBX) as u32;
                assert(get_opcode(w) == op && get_a(w) == a && get_bx(w) == bx) by (bit_vector)
                    requires
                        w == op << OFFSET_OP | a << OFFSET_A | bx << OFFSET_BX,
                        op <= BITMASK_OP,
                        a <= BITMASK_A,
                        bx <= BITMASK_BX,
                ;
            },
            Instruction::Ax { instruction, ax } => {
                assert(get_opcode(w) == op && get_ax(w) == ax) by (bit_vector)
                    requires
                        w == op << OFFSET_OP | ax << OFFSET_AX,
                        op <= BITMASK_OP,
                        ax <= BITMASK_AX,
                ;
            },
        }
    }

    /// What a word decodes to can stand in a word, and that word is the one
    /// that was decoded: no bit of a word is lost in decoding.
    pub proof fn lemma_encode_decode(word: Word)
        ensures
            Instruction::decode(word) matches Ok(i) ==> i.wf() && i.word() == word,
    {
        lemma_field_bounds(word);
        if let Ok(i) = Instruction::decode(word) {
            let op = get_opcode(word);
            OpCode::lemma_code_table(i.op(), op as u8);
            assert(i.op().code() == op);
            let (a, b, c) = (get_a(word), get_b(word), get_c(word));
            let (bx, ax) = (get_bx(word), get_ax(word));
            assert(word == op << OFFSET_OP | a << OFFSET_A | c << OFFSET_C | b << OFFSET_B)
                by (bit_vector)
                requires
                    op == get_opcode(word),
                    a == get_a(word),
                    b == get_b(word),
                    c == get_c(word),
            ;
            assert(word == op << OFFSET_OP | a << OFFSET_A | bx << OFFSET_BX) by (bit_vector)
                requires
                    op == get_opcode(word),
                    a == get_a(word),
                    bx == get_bx(word),
            ;
            assert(word == op << OFFSET_OP | ax << OFFSET_AX) by (bit_vector)
                requires
                    op == get_opcode(word),
                    ax == get_ax(word),
            ;
        }
    }

    /// A word decodes to an instruction if and only if its opcode field is
    /// below `NUM_OPCODES`; any other word is refused as `InvalidOpCode`.
    pub proof fn lemma_decode_defined(word: Word)
        ensures
            Instruction::decode(word) is Ok <==> get_opcode(word) < NUM_OPCODES,
            Instruction::decode(word) is Err ==> Instruction::decode(word) == Err::<
                Instruction,
                LoadError,
            >(LoadError::InvalidOpCode),
            Instruction::decode(word) matches Ok(i) ==> i.op().code() == get_opcode(word),
    {
        lemma_field_bounds(word);
        OpCode::lemma_code_table(OpCode::Move, get_opcode(word) as u8);
    }
}

impl TryFrom<Word> for Instruction {
    type Error = LoadError;

    /// Decodes a word. Fails with `InvalidOpCode` where the opcode field of
    /// the word holds no assigned code.
    fn try_from(instr: Word) -> (r: Result<Instruction, LoadError>) {
        proof {
            lemma_field_bounds(instr);
        }
        let opcode = (instr >> OFFSET_OP) & BITMASK_OP;
        let op = OpCode::try_from(opcode as u8)?;
        let a = ((instr >> OFFSET_A) & BITMASK_A) as u8;
        Ok(
            match op.operand_layout() {
                OperandLayout::ABC => Instruction::ABC {
                    instruction: op,
                    a,
                    b: ((instr >> OFFSET_B) & BITMASK_B) as u16,
                    c: ((instr >> OFFSET_C) & BITMASK_C) as u16,
                },
                OperandLayout::ABx => Instruction::ABx {
                    instruction: op,
                    a,
                    bx: (instr >> OFFSET_BX) & BITMASK_BX,
                },
                OperandLayout::AsBx => Instruction::AsBx {
                    instruction: op,
                    a,
                    sbx: ((instr >> OFFSET_BX) & BITMASK_BX) as i32 - MAXARG_SBX,
                },
                OperandLayout::Ax => Instruction::Ax {
                    instruction: op,
                    ax: (instr >> OFFSET_AX) & BITMASK_AX,
                },
            },
        )
    }
}

impl TryFromSpecImpl<Word> for Instruction {
    open spec fn obeys_try_from_spec() -> bool {
        true
    }

    open spec fn try_from_spec(v: Word) -> Result<Instruction, LoadError> {
        Instruction::decode(v)
    }
}

} // verus!
