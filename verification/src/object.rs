//! What a loaded chunk is made of: values, upvalues, local variables and
//! function prototypes.

use vstd::prelude::*;
use vstd::std_specs::convert::TryFromSpecImpl;
use crate::errors::LoadError;
use crate::opcodes::Instruction;

verus! {

/// A 32-bit integer of the chunk format: a count or a line number.
pub type SyxInt = i32;

/// An integer value.
pub type SyxInteger = i64;

/// A floating-point value, held as the bit pattern of an IEEE 754 double.
pub type SyxNumber = u64;

/// A string value: any bytes.
pub type SyxString = Vec<u8>;

/// The types of values, and the four subtypes that constants are tagged with.
#[derive(Debug, Clone, Copy, PartialEq, Eq, Structural)]
pub enum SyxType {
    /// Nil.
    TNIL,
    /// A truth value.
    TBOOLEAN,
    /// A pointer of the host.
    TLIGHTUSERDATA,
    /// A number of either kind. No tag byte names it: the tag of numbers
    /// names `TNUMFLT`.
    TNUMBER,
    /// A string of either kind. No tag byte names it: the tag of strings
    /// names `TSHRSTR`.
    TSTRING,
    /// A table.
    TTABLE,
    /// A function.
    TFUNCTION,
    /// Memory of the host.
    TUSERDATA,
    /// A coroutine.
    TTHREAD,
    /// A number held as a float.
    TNUMFLT,
    /// A number held as an integer.
    TNUMINT,
    /// A short string.
    TSHRSTR,
    /// A long string.
    TLNGSTR,
}

/// The tag of numbers.
pub const SYX_TNUMBER: u8 = 3;

/// The tag of strings.
pub const SYX_TSTRING: u8 = 4;

/// What the tag of a subtype has more than the tag of its type.
pub const SYX_VARIANT: u8 = 16;

/// The tag of numbers held as floats: the tag of numbers itself.
pub const SYX_TNUMFLT: u8 = SYX_TNUMBER;

/// The tag of numbers held as integers.
pub const SYX_TNUMINT: u8 = SYX_TNUMBER + SYX_VARIANT;

/// The tag of short strings: the tag of strings itself.
pub const SYX_TSHRSTR: u8 = SYX_TSTRING;

/// The tag of long strings.
pub const SYX_TLNGSTR: u8 = SYX_TSTRING + SYX_VARIANT;

impl SyxType {
    /// The type that a tag byte names, if it names one. The tags of numbers
    /// and strings name the subtypes without the variant bit.
    pub open spec fn of_tag(tag: u8) -> Option<SyxType> {
        if tag == SYX_TNUMFLT {
            Some(SyxType::TNUMFLT)
        } else if tag == SYX_TNUMINT {
            Some(SyxType::TNUMINT)
        } else if tag == SYX_TSHRSTR {
            Some(SyxType::TSHRSTR)
        } else if tag == SYX_TLNGSTR {
            Some(SyxType::TLNGSTR)
        } else if tag == 0 {
            Some(SyxType::TNIL)
        } else if tag == 1 {
            Some(SyxType::TBOOLEAN)
        } else if tag == 2 {
            Some(SyxType::TLIGHTUSERDATA)
        } else if tag == 5 {
            Some(SyxType::TTABLE)
        } else if tag == 6 {
            Some(SyxType::TFUNCTION)
        } else if tag == 7 {
            Some(SyxType::TUSERDATA)
        } else if tag == 8 {
            Some(SyxType::TTHREAD)
        } else {
            None
        }
    }
}

impl TryFrom<u8> for SyxType {
    type Error = LoadError;

    /// Finds the type that the tag byte `value` names. Fails with
    /// `InvalidType`, which holds the byte, where it names none.
    fn try_from(value: u8) -> (r: Result<SyxType, LoadError>) {
        match value {
            3 => Ok(SyxType::TNUMFLT),
            19 => Ok(SyxType::TNUMINT),
            4 => Ok(SyxType::TSHRSTR),
            20 => Ok(SyxType::TLNGSTR),
            0 => Ok(SyxType::TNIL),
            1 => Ok(SyxType::TBOOLEAN),
            2 => Ok(SyxType::TLIGHTUSERDATA),
            5 => Ok(SyxType::TTABLE),
            6 => Ok(SyxType::TFUNCTION),
            7 => Ok(SyxType::TUSERDATA),
            8 => Ok(SyxType::TTHREAD),
            _ => Err(LoadError::InvalidType(value)),
        }
    }
}

impl TryFromSpecImpl<u8> for SyxType {
    open spec fn obeys_try_from_spec() -> bool {
        true
    }

    open spec fn try_from_spec(v: u8) -> Result<SyxType, LoadError> {
        match SyxType::of_tag(v) {
            Some(t) => Ok(t),
            None => Err(LoadError::InvalidType(v)),
        }
    }
}

/// A constant of a function.
#[derive(Debug, Clone, PartialEq, Eq)]
pub enum SyxValue {
    /// A truth value.
    Bool(bool),
    /// A float, as its bit pattern.
    Number(SyxNumber),
    /// An integer.
    Integer(SyxInteger),
    /// A string, short or long.
    String(SyxString),
    /// Nil.
    Nil,
}

/// A constant as a mathematical value.
pub enum SyxValueView {
    Bool(bool),
    Number(SyxNumber),
    Integer(SyxInteger),
    String(Seq<u8>),
    Nil,
}

impl View for SyxValue {
    type V = SyxValueView;

    open spec fn view(&self) -> SyxValueView {
        match *self {
            SyxValue::Bool(b) => SyxValueView::Bool(b),
            SyxValue::Number(n) => SyxValueView::Number(n),
            SyxValue::Integer(i) => SyxValueView::Integer(i),
            SyxValue::String(s) => SyxValueView::String(s@),
            SyxValue::Nil => SyxValueView::Nil,
        }
    }
}

/// The constants of a vector, as mathematical values.
pub open spec fn values_view(v: Seq<SyxValue>) -> Seq<SyxValueView> {
    v.map_values(|x: SyxValue| x@)
}

/// A variable of an enclosing function that a function refers to.
#[derive(Debug, Clone, PartialEq, Eq)]
pub struct Upvalue {
    /// The name of the variable; empty where the chunk gives none.
    pub name: SyxString,
    /// Not zero where the variable is a local of the enclosing function,
    /// zero where it is an upvalue of it.
    pub instack: u8,
    /// The register or the upvalue of the enclosing function that holds it.
    pub idx: u8,
}

/// An upvalue as a mathematical value.
pub struct UpvalueView {
    pub name: Seq<u8>,
    pub instack: u8,
    pub idx: u8,
}

impl View for Upvalue {
    type V = UpvalueView;

    open spec fn view(&self) -> UpvalueView {
        UpvalueView { name: self.name@, instack: self.instack, idx: self.idx }
    }
}

/// The upvalues of a vector, as mathematical values.
pub open spec fn upvalues_view(v: Seq<Upvalue>) -> Seq<UpvalueView> {
    v.map_values(|x: Upvalue| x@)
}

/// A local variable, for debugging.
#[derive(Debug, Clone, PartialEq, Eq)]
pub struct LocVar {
    /// The name of the variable.
    pub varname: SyxString,
    /// The first instruction at which the variable is alive.
    pub startpc: SyxInt,
    /// The first instruction at which it is dead.
    pub endpc: SyxInt,
}

/// A local variable as a mathematical value.
pub struct LocVarView {
    pub varname: Seq<u8>,
    pub startpc: SyxInt,
    pub endpc: SyxInt,
}

impl View for LocVar {
    type V = LocVarView;

    open spec fn view(&self) -> LocVarView {
        LocVarView { varname: self.varname@, startpc: self.startpc, endpc: self.endpc }
    }
}

/// The local variables of a vector, as mathematical values.
pub open spec fn locvars_view(v: Seq<LocVar>) -> Seq<LocVarView> {
    v.map_values(|x: LocVar| x@)
}

/// A function prototype: what a function is before it is called.
#[derive(Debug)]
pub struct Proto {
    /// The number of fixed parameters.
    pub numparams: u8,
    /// Whether the function takes a variable number of arguments.
    pub is_vararg: bool,
    /// The number of registers the function needs.
    pub maxstacksize: u8,
    /// The line at which the function starts.
    pub linedefined: SyxInt,
    /// The line at which the function ends.
    pub lastlinedefined: SyxInt,
    /// The constants the function uses.
    pub constants: Vec<SyxValue>,
    /// The code of the function.
    pub instructions: Vec<Instruction>,
    /// The functions defined in the function.
    pub protos: Vec<Proto>,
    /// The source line of each instruction; empty where the chunk was stripped.
    pub lineinfo: Vec<SyxInt>,
    /// The upvalues of the function.
    pub upvalues: Vec<Upvalue>,
    /// The local variables of the function; empty where the chunk was stripped.
    pub locvars: Vec<LocVar>,
    /// The name of the source the function was compiled from.
    pub source: String,
}

/// A function prototype as a mathematical value.
pub struct ProtoView {
    pub numparams: u8,
    pub is_vararg: bool,
    pub maxstacksize: u8,
    pub linedefined: SyxInt,
    pub lastlinedefined: SyxInt,
    pub constants: Seq<SyxValueView>,
    pub instructions: Seq<Instruction>,
    pub protos: Seq<ProtoView>,
    pub lineinfo: Seq<SyxInt>,
    pub upvalues: Seq<UpvalueView>,
    pub locvars: Seq<LocVarView>,
    pub source: Seq<char>,
}

impl View for Proto {
    type V = ProtoView;

    open spec fn view(&self) -> ProtoView
        decreases self,
    {
        ProtoView {
            numparams: self.numparams,
            is_vararg: self.is_vararg,
            maxstacksize: self.maxstacksize,
            linedefined: self.linedefined,
            lastlinedefined: self.lastlinedefined,
            constants: values_view(self.constants@),
            instructions: self.instructions@,
            protos: Seq::new(
                self.protos.len() as nat,
                |i: int|
                    if 0 <= i < self.protos.len() {
                        self.protos[i]@
                    } else {
                        Proto::empty()
                    },
            ),
            lineinfo: self.lineinfo@,
            upvalues: upvalues_view(self.upvalues@),
            locvars: locvars_view(self.locvars@),
            source: self.source@,
        }
    }
}

/// The prototypes of a vector, as mathematical values.
pub open spec fn protos_view(v: Seq<Proto>) -> Seq<ProtoView> {
    v.map_values(|x: Proto| x@)
}

impl Proto {
    /// The nested functions of a prototype are seen as the prototypes they
    /// are.
    pub proof fn lemma_view_protos(p: Proto)
        ensures
            p@.protos == protos_view(p.protos@),
    {
        reveal_with_fuel(<Proto as View>::view, 2);
        assert(p@.protos =~= protos_view(p.protos@));
    }

    /// The prototype of a function with no parameters, no code and no name.
    pub open spec fn empty() -> ProtoView {
        ProtoView {
            numparams: 0,
            is_vararg: false,
            maxstacksize: 0,
            linedefined: 0,
            lastlinedefined: 0,
            constants: Seq::empty(),
            instructions: Seq::empty(),
            protos: Seq::empty(),
            lineinfo: Seq::empty(),
            upvalues: Seq::empty(),
            locvars: Seq::empty(),
            source: Seq::empty(),
        }
    }

    /// Makes the prototype of a function with no parameters, no code and no
    /// name.
    pub fn new() -> (r: Proto)
        ensures
            r@ == Proto::empty(),
    {
        let r = Proto {
            numparams: 0,
            is_vararg: false,
            maxstacksize: 0,
            linedefined: 0,
            lastlinedefined: 0,
            constants: Vec::new(),
            instructions: Vec::new(),
            protos: Vec::new(),
            lineinfo: Vec::new(),
            upvalues: Vec::new(),
            locvars: Vec::new(),
            source: String::new(),
        };
        assert(r@.constants =~= Seq::empty());
        assert(r@.protos =~= Seq::empty());
        assert(r@.upvalues =~= Seq::empty());
        assert(r@.locvars =~= Seq::empty());
        r
    }
}

} // verus!
