use syx::errors::{LoadError, Verification};
use syx::object::{LocVar, Proto, SyxValue, Upvalue};
use syx::opcodes::{Instruction, OpCode};
use syx::undump::LoadState;

fn header() -> Vec<u8> {
    let mut v: Vec<u8> = Vec::new();
    v.extend_from_slice(&[0x1b, b'L', b'u', b'a']);
    v.push(0x53);
    v.push(0);
    v.extend_from_slice(&[0x19, 0x93, b'\r', b'\n', 0x1a, b'\n']);
    v.extend_from_slice(&[4, 8, 4, 8, 8]);
    v.extend_from_slice(&[0x78, 0x56, 0, 0, 0, 0, 0, 0]);
    v.extend_from_slice(&[0, 0, 0, 0, 0, 0x28, 0x77, 0x40]);
    v
}

fn int32(n: i32) -> Vec<u8> {
    n.to_le_bytes().to_vec()
}

/// A function block with nothing in it but a name and its nested functions.
fn function(source: &[u8], nested: &[Vec<u8>]) -> Vec<u8> {
    let mut v: Vec<u8> = Vec::new();
    if source.is_empty() {
        v.push(0);
    } else {
        v.push(source.len() as u8 + 1);
        v.extend_from_slice(source);
    }
    v.extend(int32(1)); // linedefined
    v.extend(int32(2)); // lastlinedefined
    v.extend_from_slice(&[0, 0, 2]); // numparams, is_vararg, maxstacksize
    v.extend(int32(0)); // code
    v.extend(int32(0)); // constants
    v.extend(int32(0)); // upvalues
    v.extend(int32(nested.len() as i32));
    for f in nested {
        v.extend_from_slice(f);
    }
    v.extend(int32(0)); // lines
    v.extend(int32(0)); // local variables
    v.extend(int32(0)); // names of upvalues
    v
}

fn chunk(main: &[u8]) -> Vec<u8> {
    let mut v = header();
    v.push(1);
    v.extend_from_slice(main);
    v
}

fn load(bytes: Vec<u8>) -> Result<Proto, LoadError> {
    LoadState::from_read(bytes, String::from("test"))
}

fn reader(bytes: &[u8]) -> LoadState {
    LoadState::new(bytes.to_vec(), String::from("test"))
}

#[test]
fn header_is_33_bytes_and_is_accepted() {
    let h = header();
    assert_eq!(h.len(), 33);
    let mut st = LoadState::new(h, String::from("test"));
    assert_eq!(st.check_header(), Ok(()));
    assert!(st.finished());
}

#[test]
fn minimal_chunk_loads() {
    let bytes = chunk(&function(b"", &[]));
    let p = load(bytes).unwrap();
    assert_eq!(p.numparams, 0);
    assert!(!p.is_vararg);
    assert_eq!(p.maxstacksize, 2);
    assert_eq!(p.linedefined, 1);
    assert_eq!(p.lastlinedefined, 2);
    assert!(p.constants.is_empty());
    assert!(p.instructions.is_empty());
    assert!(p.protos.is_empty());
    assert!(p.lineinfo.is_empty());
    assert!(p.upvalues.is_empty());
    assert!(p.locvars.is_empty());
    assert_eq!(p.source, "");
}

#[test]
fn minimal_chunk_leaves_the_reader_finished() {
    let bytes = chunk(&function(b"", &[]));
    let mut st = LoadState::new(bytes, String::from("test"));
    assert!(!st.finished());
    assert!(st.load_chunk().is_ok());
    assert!(st.finished());
}

#[test]
fn trailing_byte_is_refused() {
    let mut bytes = chunk(&function(b"", &[]));
    bytes.push(0);
    assert_eq!(load(bytes).err(), Some(LoadError::BufferNotEmpty));
}

#[test]
fn empty_input_is_not_readable() {
    assert_eq!(load(Vec::new()).err(), Some(LoadError::BufferNotReadable(4)));
}

#[test]
fn every_truncation_of_a_chunk_is_not_readable() {
    let bytes = chunk(&function(b"@main.lua", &[function(b"", &[])]));
    for n in 0..bytes.len() {
        let r = load(bytes[..n].to_vec());
        assert!(matches!(r, Err(LoadError::BufferNotReadable(_))), "at {}", n);
    }
    assert!(load(bytes).is_ok());
}

#[test]
fn wrong_magic_is_refused() {
    let mut bytes = chunk(&function(b"", &[]));
    bytes[1] = b'l';
    assert_eq!(load(bytes).err(), Some(LoadError::InvalidVerification(Verification::Header)));
}

#[test]
fn wrong_version_is_refused() {
    let mut bytes = chunk(&function(b"", &[]));
    bytes[4] = 0x52;
    assert_eq!(load(bytes).err(), Some(LoadError::InvalidVerification(Verification::Version)));
}

#[test]
fn wrong_format_is_refused() {
    let mut bytes = chunk(&function(b"", &[]));
    bytes[5] = 1;
    assert_eq!(load(bytes).err(), Some(LoadError::InvalidVerification(Verification::Format)));
}

#[test]
fn mangled_line_ends_are_refused() {
    let mut bytes = chunk(&function(b"", &[]));
    bytes[8] = b'\n';
    assert_eq!(load(bytes).err(), Some(LoadError::InvalidVerification(Verification::LoadOrder)));
}

#[test]
fn wrong_sizes_are_refused() {
    let checks = [
        Verification::SizeOfInt,
        Verification::SizeOfSize,
        Verification::SizeOfInstruction,
        Verification::SizeOfInteger,
        Verification::SizeOfNumber,
    ];
    for (i, check) in checks.iter().enumerate() {
        let mut bytes = chunk(&function(b"", &[]));
        bytes[12 + i] = 2;
        assert_eq!(load(bytes).err(), Some(LoadError::InvalidVerification(*check)));
    }
}

#[test]
fn chunk_of_the_other_byte_order_is_refused() {
    let mut bytes = chunk(&function(b"", &[]));
    bytes[17..25].copy_from_slice(&[0, 0, 0, 0, 0, 0, 0x56, 0x78]);
    assert_eq!(load(bytes).err(), Some(LoadError::InvalidVerification(Verification::Endianness)));
}

#[test]
fn chunk_of_another_float_format_is_refused() {
    let mut bytes = chunk(&function(b"", &[]));
    bytes[25..33].copy_from_slice(&[0x40, 0x77, 0x28, 0, 0, 0, 0, 0]);
    assert_eq!(
        load(bytes).err(),
        Some(LoadError::InvalidVerification(Verification::FloatFormat))
    );
}

#[test]
fn sample_float_is_370_5() {
    assert_eq!(f64::from_bits(syx::conf::SYX_NUM), 370.5);
    assert_eq!(syx::conf::SYX_NUM.to_le_bytes(), [0, 0, 0, 0, 0, 0x28, 0x77, 0x40]);
    assert_eq!(syx::conf::SYX_INT, 0x5678);
    assert_eq!(syx::conf::SYX_VERSION, 0x53);
}

#[test]
fn header_cut_before_the_sample_float_is_not_readable() {
    let bytes = header()[..25].to_vec();
    let mut st = LoadState::new(bytes.clone(), String::from("test"));
    assert_eq!(st.check_header(), Err(LoadError::BufferNotReadable(8)));
    assert_eq!(load(bytes).err(), Some(LoadError::BufferNotReadable(8)));
    // cut in the middle of the float
    let bytes = header()[..30].to_vec();
    assert_eq!(load(bytes).err(), Some(LoadError::BufferNotReadable(8)));
}

#[test]
fn first_failing_check_decides() {
    let mut bytes = chunk(&function(b"", &[]));
    bytes[4] = 0;
    bytes[5] = 9;
    bytes[17] = 0;
    assert_eq!(load(bytes).err(), Some(LoadError::InvalidVerification(Verification::Version)));
}

#[test]
fn load_range_reads_exactly_or_nothing() {
    let mut st = reader(&[1, 2, 3, 4, 5]);
    assert_eq!(st.load_range(2), Ok(vec![1, 2]));
    assert_eq!(st.load_range(4), Err(LoadError::BufferNotReadable(4)));
    assert_eq!(st.load_range(0), Ok(vec![]));
    assert_eq!(st.load_range(3), Ok(vec![3, 4, 5]));
    assert!(st.finished());
    assert_eq!(st.load_range(1), Err(LoadError::BufferNotReadable(1)));
    assert_eq!(st.load_range(0), Ok(vec![]));
}

#[test]
fn fixed_width_reads_are_little_endian() {
    let mut st = reader(&[
        0x2a, 0x78, 0x56, 0x34, 0x12, 0xfe, 0xff, 0xff, 0xff, 0x08, 0x07, 0x06, 0x05, 0x04, 0x03,
        0x02, 0x01, 0xff, 0xff, 0xff, 0xff, 0xff, 0xff, 0xff, 0xff, 0, 0, 0, 0x80,
    ]);
    assert_eq!(st.load_byte(), Ok(0x2a));
    assert_eq!(st.load_word(), Ok(0x1234_5678));
    assert_eq!(st.load_int(), Ok(-2));
    assert_eq!(st.load_size(), Ok(0x0102_0304_0506_0708));
    assert_eq!(st.load_integer(), Ok(-1));
    assert_eq!(st.load_int(), Ok(i32::MIN));
    assert!(st.finished());
}

#[test]
fn fixed_width_reads_past_the_end() {
    assert_eq!(reader(&[]).load_byte(), Err(LoadError::BufferNotReadable(1)));
    assert_eq!(reader(&[1, 2, 3]).load_word(), Err(LoadError::BufferNotReadable(4)));
    assert_eq!(reader(&[1, 2, 3]).load_int(), Err(LoadError::BufferNotReadable(4)));
    assert_eq!(reader(&[1, 2, 3, 4, 5, 6, 7]).load_size(), Err(LoadError::BufferNotReadable(8)));
    assert_eq!(reader(&[1, 2, 3, 4, 5, 6, 7]).load_integer(), Err(LoadError::BufferNotReadable(8)));
    let mut st = reader(&[1, 2, 3]);
    assert!(st.load_word().is_err());
    assert_eq!(st.load_range(3), Ok(vec![1, 2, 3]));
}

#[test]
fn load_integer_extremes() {
    assert_eq!(reader(&[0, 0, 0, 0, 0, 0, 0, 0x80]).load_integer(), Ok(i64::MIN));
    assert_eq!(
        reader(&[0xff, 0xff, 0xff, 0xff, 0xff, 0xff, 0xff, 0x7f]).load_integer(),
        Ok(i64::MAX)
    );
    assert_eq!(reader(&[0xff, 0xff, 0xff, 0x7f]).load_int(), Ok(i32::MAX));
}

#[test]
fn string_of_size_3_has_2_bytes() {
    let mut st = reader(&[0x03, b'a', b'b']);
    assert_eq!(st.load_string(), Ok(b"ab".to_vec()));
    assert!(st.finished());
}

#[test]
fn string_of_size_0_is_empty() {
    let mut st = reader(&[0x00, b'a']);
    assert_eq!(st.load_string(), Ok(vec![]));
    assert_eq!(st.load_byte(), Ok(b'a'));
}

#[test]
fn string_of_size_1_is_empty_too() {
    let mut st = reader(&[0x01, b'a']);
    assert_eq!(st.load_string(), Ok(vec![]));
    assert_eq!(st.load_byte(), Ok(b'a'));
}

#[test]
fn long_string_has_its_size_in_8_bytes() {
    let mut bytes = vec![0xff, 0x04, 0, 0, 0, 0, 0, 0, 0];
    bytes.extend_from_slice(b"xyz!");
    let mut st = reader(&bytes);
    assert_eq!(st.load_string(), Ok(b"xyz".to_vec()));
    assert_eq!(st.load_byte(), Ok(b'!'));
    let mut bytes = vec![0xff, 0x2d, 0x01, 0, 0, 0, 0, 0, 0];
    bytes.extend(std::iter::repeat(b'q').take(300));
    let mut st = reader(&bytes);
    assert_eq!(st.load_string().map(|s| s.len()), Ok(300));
    assert!(st.finished());
    let mut st = reader(&[0xff, 0, 0, 0, 0, 0, 0, 0, 0, 7]);
    assert_eq!(st.load_string(), Ok(vec![]));
    assert_eq!(st.load_byte(), Ok(7));
}

#[test]
fn string_of_254_bytes_is_the_longest_short_one() {
    let mut bytes = vec![0xfe];
    bytes.extend(std::iter::repeat(b'q').take(253));
    let mut st = reader(&bytes);
    assert_eq!(st.load_string().map(|s| s.len()), Ok(253));
    assert!(st.finished());
}

#[test]
fn string_past_the_end() {
    assert_eq!(reader(&[]).load_string(), Err(LoadError::BufferNotReadable(1)));
    assert_eq!(reader(&[0x04, b'a', b'b']).load_string(), Err(LoadError::BufferNotReadable(3)));
    assert_eq!(reader(&[0xff, 1, 2, 3]).load_string(), Err(LoadError::BufferNotReadable(8)));
    assert_eq!(
        reader(&[0xff, 0xff, 0xff, 0xff, 0xff, 0xff, 0xff, 0xff, 0xff, 1]).load_string(),
        Err(LoadError::BufferNotReadable(u64::MAX - 1))
    );
}

#[test]
fn checks_give_their_own_error() {
    let st = reader(&[]);
    assert_eq!(st.assert_verification(true, Verification::Header), Ok(()));
    assert_eq!(
        st.assert_verification(false, Verification::Format),
        Err(LoadError::InvalidVerification(Verification::Format))
    );
    assert_eq!(
        st.raise_from_verification(Verification::Endianness),
        Err(LoadError::InvalidVerification(Verification::Endianness))
    );
}

#[test]
fn check_size_reads_one_byte() {
    let mut st = reader(&[4, 8]);
    assert_eq!(st.check_size(4, Verification::SizeOfInt), Ok(()));
    assert_eq!(
        st.check_size(4, Verification::SizeOfSize),
        Err(LoadError::InvalidVerification(Verification::SizeOfSize))
    );
    assert_eq!(st.check_size(4, Verification::SizeOfInt), Err(LoadError::BufferNotReadable(1)));
}

#[test]
fn check_literal_reads_as_many_bytes_as_the_literal() {
    let mut st = reader(b"abcdef");
    assert_eq!(st.check_literal(b"abc", Verification::Header), Ok(()));
    assert_eq!(
        st.check_literal(b"dxf", Verification::LoadOrder),
        Err(LoadError::InvalidVerification(Verification::LoadOrder))
    );
    let mut st = reader(b"ab");
    assert_eq!(st.check_literal(b"abc", Verification::Header), Err(LoadError::BufferNotReadable(3)));
    assert_eq!(st.check_literal(b"", Verification::Header), Ok(()));
}

#[test]
fn constants_of_each_kind() {
    let mut bytes = int32(7);
    bytes.push(0); // nil
    bytes.extend_from_slice(&[1, 1]); // true
    bytes.extend_from_slice(&[1, 0]); // false
    bytes.push(3); // float
    bytes.extend_from_slice(&1.5f64.to_le_bytes());
    bytes.push(19); // integer
    bytes.extend_from_slice(&(-42i64).to_le_bytes());
    bytes.extend_from_slice(&[4, 3, b'h', b'i']); // short string
    bytes.extend_from_slice(&[20, 0xff, 3, 0, 0, 0, 0, 0, 0, 0, b'y', b'o']); // long string
    let mut st = reader(&bytes);
    let constants = st.load_constants().unwrap();
    assert_eq!(
        constants,
        vec![
            SyxValue::Nil,
            SyxValue::Bool(true),
            SyxValue::Bool(false),
            SyxValue::Number(1.5f64.to_bits()),
            SyxValue::Integer(-42),
            SyxValue::String(b"hi".to_vec()),
            SyxValue::String(b"yo".to_vec()),
        ]
    );
    assert!(st.finished());
}

#[test]
fn number_tag_tells_float_from_integer() {
    let payload = [0, 0, 0, 0, 0, 0, 0xf0, 0x3f];
    let mut bytes = int32(1);
    bytes.push(0x03);
    bytes.extend_from_slice(&payload);
    assert_eq!(
        reader(&bytes).load_constants(),
        Ok(vec![SyxValue::Number(0x3ff0_0000_0000_0000)])
    );
    assert_eq!(f64::from_bits(0x3ff0_0000_0000_0000), 1.0);
    let mut bytes = int32(1);
    bytes.push(0x13);
    bytes.extend_from_slice(&payload);
    assert_eq!(
        reader(&bytes).load_constants(),
        Ok(vec![SyxValue::Integer(0x3ff0_0000_0000_0000)])
    );
    assert_eq!(syx::object::SYX_TNUMFLT, 0x03);
    assert_eq!(syx::object::SYX_TNUMINT, 0x13);
    assert_eq!(syx::object::SYX_TSHRSTR, 0x04);
    assert_eq!(syx::object::SYX_TLNGSTR, 0x14);
}

#[test]
fn boolean_is_true_only_for_1() {
    let mut bytes = int32(2);
    bytes.extend_from_slice(&[1, 2, 1, 255]);
    assert_eq!(
        reader(&bytes).load_constants(),
        Ok(vec![SyxValue::Bool(false), SyxValue::Bool(false)])
    );
}

#[test]
fn tags_of_no_constant_are_refused() {
    for tag in [2u8, 5, 6, 7, 8, 9, 18, 21, 35, 0x99, 255] {
        let mut bytes = int32(1);
        bytes.push(tag);
        bytes.extend_from_slice(&[0; 16]);
        assert_eq!(
            reader(&bytes).load_constants(),
            Err(LoadError::InvalidConstantType(tag))
        );
    }
}

#[test]
fn constant_after_a_good_one_can_fail() {
    let mut bytes = int32(2);
    bytes.extend_from_slice(&[0, 6]);
    assert_eq!(reader(&bytes).load_constants(), Err(LoadError::InvalidConstantType(6)));
    let mut bytes = int32(2);
    bytes.extend_from_slice(&[0]);
    assert_eq!(reader(&bytes).load_constants(), Err(LoadError::BufferNotReadable(1)));
    let mut bytes = int32(1);
    bytes.extend_from_slice(&[19, 1, 2]);
    assert_eq!(reader(&bytes).load_constants(), Err(LoadError::BufferNotReadable(8)));
}

#[test]
fn count_below_zero_is_read_as_zero() {
    let mut bytes = int32(-1);
    bytes.push(9);
    let mut st = reader(&bytes);
    assert_eq!(st.load_constants(), Ok(vec![]));
    assert_eq!(st.load_byte(), Ok(9));
    assert_eq!(reader(&int32(-5)).load_code(), Ok(vec![]));
    assert_eq!(reader(&int32(i32::MIN)).load_upvalues(), Ok(vec![]));
    assert_eq!(reader(&int32(-1)).load_lineinfo(), Ok(vec![]));
    assert_eq!(reader(&int32(-1)).load_locvars(), Ok(vec![]));
    assert_eq!(reader(&int32(-1)).load_upvalue_names(vec![]), Ok(vec![]));
    assert_eq!(reader(&int32(-1)).load_protos(&Vec::new()).map(|p| p.len()), Ok(0));
}

#[test]
fn count_above_what_is_there_is_not_readable() {
    let mut bytes = int32(i32::MAX);
    bytes.extend_from_slice(&[0, 0, 0]);
    assert_eq!(reader(&bytes).load_constants(), Err(LoadError::BufferNotReadable(1)));
    assert_eq!(reader(&bytes).load_code(), Err(LoadError::BufferNotReadable(4)));
    assert_eq!(reader(&bytes).load_lineinfo(), Err(LoadError::BufferNotReadable(4)));
    assert_eq!(reader(&bytes).load_upvalues(), Err(LoadError::BufferNotReadable(1)));
}

#[test]
fn code_is_decoded() {
    let mut bytes = int32(3);
    bytes.extend_from_slice(&0x0080_0041u32.to_le_bytes()); // LoadK 1 2
    bytes.extend_from_slice(&((131070u32 << 14) | 30).to_le_bytes()); // Jmp 0 -1
    bytes.extend_from_slice(&((1u32 << 23) | 38).to_le_bytes()); // Return 0 1
    let mut st = reader(&bytes);
    assert_eq!(
        st.load_code(),
        Ok(vec![
            Instruction::ABx { instruction: OpCode::LoadK, a: 1, bx: 0x200 },
            Instruction::AsBx { instruction: OpCode::Jmp, a: 0, sbx: -1 },
            Instruction::ABC { instruction: OpCode::Return, a: 0, b: 1, c: 0 },
        ])
    );
    assert!(st.finished());
}

#[test]
fn code_with_an_unassigned_opcode_is_refused() {
    let mut bytes = int32(2);
    bytes.extend_from_slice(&0u32.to_le_bytes());
    bytes.extend_from_slice(&47u32.to_le_bytes());
    assert_eq!(reader(&bytes).load_code(), Err(LoadError::InvalidOpCode));
    let mut f = function(b"", &[]);
    // the code count of the function follows the empty name and the frame
    f[12] = 1;
    f.splice(16..16, [0xff, 0xff, 0xff, 0xff]);
    assert_eq!(load(chunk(&f)).err(), Some(LoadError::InvalidOpCode));
}

#[test]
fn upvalues_are_pairs_of_bytes() {
    let mut bytes = int32(2);
    bytes.extend_from_slice(&[1, 0, 0, 3]);
    assert_eq!(
        reader(&bytes).load_upvalues(),
        Ok(vec![
            Upvalue { name: vec![], instack: 1, idx: 0 },
            Upvalue { name: vec![], instack: 0, idx: 3 },
        ])
    );
    let mut bytes = int32(2);
    bytes.extend_from_slice(&[1, 0, 0]);
    assert_eq!(reader(&bytes).load_upvalues(), Err(LoadError::BufferNotReadable(1)));
}

#[test]
fn lines_and_local_variables() {
    let mut bytes = int32(2);
    bytes.extend(int32(10));
    bytes.extend(int32(-3));
    assert_eq!(reader(&bytes).load_lineinfo(), Ok(vec![10, -3]));
    let mut bytes = int32(2);
    bytes.extend_from_slice(&[2, b'x']);
    bytes.extend(int32(0));
    bytes.extend(int32(5));
    bytes.extend_from_slice(&[0]);
    bytes.extend(int32(1));
    bytes.extend(int32(4));
    assert_eq!(
        reader(&bytes).load_locvars(),
        Ok(vec![
            LocVar { varname: b"x".to_vec(), startpc: 0, endpc: 5 },
            LocVar { varname: vec![], startpc: 1, endpc: 4 },
        ])
    );
}

fn two_upvalues() -> Vec<Upvalue> {
    vec![
        Upvalue { name: vec![], instack: 1, idx: 0 },
        Upvalue { name: vec![], instack: 0, idx: 3 },
    ]
}

#[test]
fn names_go_to_the_upvalues_in_order() {
    let mut bytes = int32(2);
    bytes.extend_from_slice(&[5, b'_', b'E', b'N', b'V', 2, b'x']);
    assert_eq!(
        reader(&bytes).load_upvalue_names(two_upvalues()),
        Ok(vec![
            Upvalue { name: b"_ENV".to_vec(), instack: 1, idx: 0 },
            Upvalue { name: b"x".to_vec(), instack: 0, idx: 3 },
        ])
    );
    let mut bytes = int32(1);
    bytes.extend_from_slice(&[5, b'_', b'E', b'N', b'V']);
    assert_eq!(
        reader(&bytes).load_upvalue_names(two_upvalues()),
        Ok(vec![
            Upvalue { name: b"_ENV".to_vec(), instack: 1, idx: 0 },
            Upvalue { name: vec![], instack: 0, idx: 3 },
        ])
    );
    assert_eq!(reader(&int32(0)).load_upvalue_names(two_upvalues()), Ok(two_upvalues()));
}

#[test]
fn name_without_an_upvalue_is_refused() {
    let mut bytes = int32(3);
    bytes.extend_from_slice(&[2, b'a', 2, b'b', 2, b'c']);
    assert_eq!(
        reader(&bytes).load_upvalue_names(two_upvalues()),
        Err(LoadError::InvalidUpvalueIndex(2))
    );
    let mut bytes = int32(1);
    bytes.extend_from_slice(&[2, b'a']);
    assert_eq!(
        reader(&bytes).load_upvalue_names(vec![]),
        Err(LoadError::InvalidUpvalueIndex(0))
    );
    // a read that fails comes before a name that has no upvalue
    let mut bytes = int32(3);
    bytes.extend_from_slice(&[2, b'a', 9, b'b']);
    assert_eq!(
        reader(&bytes).load_upvalue_names(two_upvalues()),
        Err(LoadError::BufferNotReadable(8))
    );
}

#[test]
fn debug_section_is_read_whole() {
    let mut bytes = int32(1);
    bytes.extend(int32(7));
    bytes.extend(int32(1));
    bytes.extend_from_slice(&[2, b'i']);
    bytes.extend(int32(2));
    bytes.extend(int32(3));
    bytes.extend(int32(1));
    bytes.extend_from_slice(&[3, b'u', b'p']);
    let mut st = reader(&bytes);
    let (lines, locvars, upvalues) = st.load_debug(two_upvalues()).unwrap();
    assert_eq!(lines, vec![7]);
    assert_eq!(locvars, vec![LocVar { varname: b"i".to_vec(), startpc: 2, endpc: 3 }]);
    assert_eq!(upvalues[0].name, b"up".to_vec());
    assert_eq!(upvalues[1].name, Vec::<u8>::new());
    assert!(st.finished());
}

#[test]
fn two_nested_functions_are_read_in_full() {
    let first = function(b"@first", &[]);
    let second = function(b"", &[function(b"", &[])]);
    let bytes = chunk(&function(b"@main.lua", &[first, second]));
    let p = load(bytes).unwrap();
    assert_eq!(p.source, "@main.lua");
    assert_eq!(p.protos.len(), 2);
    assert_eq!(p.protos[0].source, "@first");
    assert_eq!(p.protos[0].protos.len(), 0);
    assert_eq!(p.protos[0].maxstacksize, 2);
    assert_eq!(p.protos[0].linedefined, 1);
    assert_eq!(p.protos[1].source, "@main.lua");
    assert_eq!(p.protos[1].protos.len(), 1);
    assert_eq!(p.protos[1].protos[0].source, "@main.lua");
    assert_eq!(p.protos[1].protos[0].protos.len(), 0);
    assert_eq!(p.protos[1].lastlinedefined, 2);
}

#[test]
fn nested_function_that_is_cut_short_fails_the_load() {
    let first = function(b"", &[]);
    let mut second = function(b"", &[]);
    second.truncate(10);
    let mut main = function(b"", &[first, second]);
    // without the debug section of the main function, which follows
    main.truncate(main.len() - 12);
    assert!(matches!(load(chunk(&main)), Err(LoadError::BufferNotReadable(_))));
}

#[test]
fn source_name_is_decoded_as_utf8() {
    let name = "@caf\u{e9}\u{4e16}.lua";
    let p = load(chunk(&function(name.as_bytes(), &[]))).unwrap();
    assert_eq!(p.source, name);
    assert_eq!(p.source.chars().count(), 10);
}

#[test]
fn source_name_that_is_not_utf8_is_refused() {
    let bytes = chunk(&function(&[b'@', 0xff, 0xfe], &[]));
    assert_eq!(load(bytes).err(), Some(LoadError::InvalidSourceName));
    let bytes = chunk(&function(&[0xc3], &[]));
    assert_eq!(load(bytes).err(), Some(LoadError::InvalidSourceName));
    let nested = function(&[0x80], &[]);
    let bytes = chunk(&function(b"ok", &[nested]));
    assert_eq!(load(bytes).err(), Some(LoadError::InvalidSourceName));
}

#[test]
fn load_function_takes_the_name_it_is_given() {
    let f = function(b"", &[]);
    let mut st = reader(&f);
    let p = st.load_function(&b"outer".to_vec()).unwrap();
    assert_eq!(p.source, "outer");
    let mut st = reader(&f);
    assert_eq!(st.load_function(&vec![0xff]).err(), Some(LoadError::InvalidSourceName));
    let f = function(b"own", &[]);
    let mut st = reader(&f);
    assert_eq!(st.load_function(&vec![0xff]).map(|p| p.source), Ok(String::from("own")));
}

#[test]
fn whole_function_with_every_section() {
    let mut f: Vec<u8> = vec![6, b'@', b'a', b'.', b'l', b'u'];
    f.extend(int32(3));
    f.extend(int32(9));
    f.extend_from_slice(&[2, 1, 5]);
    f.extend(int32(1));
    f.extend_from_slice(&((1u32 << 23) | 38).to_le_bytes());
    f.extend(int32(1));
    f.push(19);
    f.extend_from_slice(&77i64.to_le_bytes());
    f.extend(int32(1));
    f.extend_from_slice(&[1, 0]);
    f.extend(int32(0));
    f.extend(int32(1));
    f.extend(int32(4));
    f.extend(int32(1));
    f.extend_from_slice(&[2, b'v']);
    f.extend(int32(0));
    f.extend(int32(1));
    f.extend(int32(1));
    f.extend_from_slice(&[5, b'_', b'E', b'N', b'V']);
    let p = load(chunk(&f)).unwrap();
    assert_eq!(p.source, "@a.lu");
    assert_eq!(p.linedefined, 3);
    assert_eq!(p.lastlinedefined, 9);
    assert_eq!(p.numparams, 2);
    assert!(p.is_vararg);
    assert_eq!(p.maxstacksize, 5);
    assert_eq!(
        p.instructions,
        vec![Instruction::ABC { instruction: OpCode::Return, a: 0, b: 1, c: 0 }]
    );
    assert_eq!(p.constants, vec![SyxValue::Integer(77)]);
    assert_eq!(p.upvalues, vec![Upvalue { name: b"_ENV".to_vec(), instack: 1, idx: 0 }]);
    assert_eq!(p.lineinfo, vec![4]);
    assert_eq!(p.locvars, vec![LocVar { varname: b"v".to_vec(), startpc: 0, endpc: 1 }]);
    assert!(p.protos.is_empty());
}

#[test]
fn vararg_is_any_byte_but_zero() {
    let mut f = function(b"", &[]);
    f[10] = 2;
    assert!(load(chunk(&f)).unwrap().is_vararg);
    f[10] = 0;
    assert!(!load(chunk(&f)).unwrap().is_vararg);
}

#[test]
fn new_proto_is_empty() {
    let p = Proto::new();
    assert_eq!(p.numparams, 0);
    assert!(!p.is_vararg);
    assert_eq!(p.maxstacksize, 0);
    assert_eq!(p.linedefined, 0);
    assert_eq!(p.lastlinedefined, 0);
    assert!(p.constants.is_empty());
    assert!(p.instructions.is_empty());
    assert!(p.protos.is_empty());
    assert!(p.lineinfo.is_empty());
    assert!(p.upvalues.is_empty());
    assert!(p.locvars.is_empty());
    assert_eq!(p.source, "");
}

#[test]
fn reader_keeps_the_name_of_its_chunk() {
    let mut st = LoadState::new(vec![1, 2, 3], String::from("luac.out"));
    assert_eq!(st.chunk_name(), "luac.out");
    assert_eq!(st.load_byte(), Ok(1));
    assert!(st.load_word().is_err());
    assert_eq!(st.chunk_name(), "luac.out");
}

#[test]
fn nested_functions_read_on_their_own() {
    let mut bytes = int32(2);
    bytes.extend(function(b"@a", &[]));
    bytes.extend(function(b"", &[]));
    bytes.push(0x5a);
    let mut st = reader(&bytes);
    let protos = st.load_protos(&b"@outer".to_vec()).unwrap();
    assert_eq!(protos.len(), 2);
    assert_eq!(protos[0].source, "@a");
    assert_eq!(protos[1].source, "@outer");
    assert_eq!(st.load_byte(), Ok(0x5a));
    assert!(st.finished());
}
