//! What holds of the chunk format: laws of the functions that define it.

use vstd::prelude::*;
use crate::conf::{
    SIZE_OF_INSTRUCTION, SIZE_OF_INT, SIZE_OF_INTEGER, SIZE_OF_NUMBER, SIZE_OF_SIZE, SYX_DATA,
    SYX_FORMAT, SYX_HEADER, SYX_INT, SYX_NUM, SYX_VERSION,
};
use crate::errors::{LoadError, Verification};
use crate::grammar::{
    chunk_of, count_of, expect_byte, expect_literal, expect_sample_integer,
    expect_sample_number, header_bytes, le_u64, lemma_read_head_rest, lemma_read_many_len,
    lemma_read_protos_rest, lemma_read_upvalue_names_rest, read_byte, read_chunk, read_code,
    read_constant, read_constants, read_debug, read_frame, read_function, read_head,
    read_header, read_i32, read_i64, read_instruction, read_lineinfo, read_locvar,
    read_locvars, read_many, read_protos, read_range, read_source, read_string, read_u32,
    read_u64, read_upvalue, read_upvalue_names, read_upvalues, signed64, Parsed,
    HEADER_LEN, HEADER_SAMPLE_INTEGER, HEADER_SAMPLE_NUMBER,
};
use crate::object::{ProtoView, UpvalueView};

verus! {

/// Each section of records holds as many records as its count field
/// declares.
pub proof fn lemma_declared_counts(s: Seq<u8>)
    ensures
        read_code(s) matches Ok((code, _)) ==> read_i32(s) matches Ok((count, _)) && code.len()
            == count_of(count),
        read_constants(s) matches Ok((constants, _)) ==> read_i32(s) matches Ok((count, _))
            && constants.len() == count_of(count),
        read_upvalues(s) matches Ok((upvalues, _)) ==> read_i32(s) matches Ok((count, _))
            && upvalues.len() == count_of(count),
        read_lineinfo(s) matches Ok((lines, _)) ==> read_i32(s) matches Ok((count, _))
            && lines.len() == count_of(count),
        read_locvars(s) matches Ok((locvars, _)) ==> read_i32(s) matches Ok((count, _))
            && locvars.len() == count_of(count),
{
    if let Ok((count, rest)) = read_i32(s) {
        lemma_read_many_len(|s: Seq<u8>| read_instruction(s), rest, count_of(count));
        lemma_read_many_len(|s: Seq<u8>| read_constant(s), rest, count_of(count));
        lemma_read_many_len(|s: Seq<u8>| read_upvalue(s), rest, count_of(count));
        lemma_read_many_len(|s: Seq<u8>| read_i32(s), rest, count_of(count));
        lemma_read_many_len(|s: Seq<u8>| read_locvar(s), rest, count_of(count));
    }
}

/// A function that was read has as many nested functions as the count
/// field after its upvalues declares, and as many upvalues after the debug
/// section as before it.
pub proof fn lemma_nested_count(s: Seq<u8>, parent: Seq<u8>)
    ensures
        read_function(s, parent) matches Ok((proto, _)) ==> {
            &&& read_head(s, parent) matches Ok((head, rest))
            &&& read_i32(rest) matches Ok((count, _))
            &&& proto.protos.len() == count_of(count)
            &&& proto.upvalues.len() == head.upvalues.len()
        },
{
    if let Ok((head, rest)) = read_head(s, parent) {
        if let Ok((count, rest)) = read_i32(rest) {
            lemma_read_protos_rest(rest, head.source, count_of(count));
            if let Ok((_, rest)) = read_protos(rest, head.source, count_of(count)) {
                if let Ok((_, rest)) = read_lineinfo(rest) {
                    if let Ok((_, rest)) = read_locvars(rest) {
                        if let Ok((count, rest)) = read_i32(rest) {
                            lemma_read_upvalue_names_rest(rest, head.upvalues, count_of(count));
                        }
                    }
                }
            }
        }
    }
}

/// The names of upvalues change nothing but names: there are as many
/// upvalues after as before, each with the place it had, and those past
/// the last name are as they were.
pub proof fn lemma_names_keep_upvalues(s: Seq<u8>, upvalues: Seq<UpvalueView>, n: nat)
    ensures
        read_upvalue_names(s, upvalues, n) matches Ok((named, _)) ==> {
            &&& n <= upvalues.len()
            &&& named.len() == upvalues.len()
            &&& forall|i: int|
                0 <= i < named.len() ==> (#[trigger] named[i]).instack == upvalues[i].instack
                    && named[i].idx == upvalues[i].idx
            &&& forall|i: int| n <= i < named.len() ==> #[trigger] named[i] == upvalues[i]
        },
    decreases n,
{
    if n > 0 {
        lemma_names_keep_upvalues(s, upvalues, (n - 1) as nat);
    }
}

/// Each of the functions that `read_protos` gives is a whole function
/// block, read by `read_function` from where the one before it ended.
pub proof fn lemma_nested_in_full(s: Seq<u8>, parent: Seq<u8>, n: nat, i: nat)
    requires
        i < n,
        read_protos(s, parent, n) is Ok,
    ensures
        ({
            let all = read_protos(s, parent, n).unwrap().0;
            &&& read_protos(s, parent, i) matches Ok((before, rest))
            &&& before == all.take(i as int)
            &&& read_function(rest, parent) matches Ok((proto, _))
            &&& proto == all[i as int]
        }),
    decreases n,
{
    let all = read_protos(s, parent, n).unwrap().0;
    lemma_read_protos_rest(s, parent, n);
    lemma_read_protos_rest(s, parent, (n - 1) as nat);
    let (init, rest) = read_protos(s, parent, (n - 1) as nat).unwrap();
    assert(init =~= all.take(n - 1));
    if i + 1 < n {
        lemma_nested_in_full(s, parent, (n - 1) as nat, i);
        assert(init.take(i as int) =~= all.take(i as int));
    }
}

/// What `expect_byte` gives at the position `at` of an input.
proof fn lemma_expect_byte_at(s: Seq<u8>, at: int, byte: u8, check: Verification)
    requires
        0 <= at <= s.len(),
    ensures
        expect_byte(s.skip(at), byte, check) == (if at >= s.len() {
            Err::<((), Seq<u8>), LoadError>(LoadError::BufferNotReadable(1))
        } else if s[at] != byte {
            Err(LoadError::InvalidVerification(check))
        } else {
            Ok(((), s.skip(at + 1)))
        }),
{
    if at < s.len() {
        assert(s.skip(at).skip(1) =~= s.skip(at + 1));
    }
}

/// What `expect_literal` gives at the position `at` of an input.
proof fn lemma_expect_literal_at(s: Seq<u8>, at: int, literal: Seq<u8>, check: Verification)
    requires
        0 <= at <= s.len(),
        literal.len() <= u64::MAX,
    ensures
        expect_literal(s.skip(at), literal, check) == (if at + literal.len() > s.len() {
            Err::<((), Seq<u8>), LoadError>(LoadError::BufferNotReadable(literal.len() as u64))
        } else if s.subrange(at, at + literal.len()) != literal {
            Err(LoadError::InvalidVerification(check))
        } else {
            Ok(((), s.skip(at + literal.len())))
        }),
{
    if at + literal.len() <= s.len() {
        assert(s.skip(at).skip(literal.len() as int) =~= s.skip(at + literal.len()));
        assert(s.skip(at).take(literal.len() as int) =~= s.subrange(at, at + literal.len()));
    }
}

/// The bytes of the two samples are the only ones that stand for them.
proof fn lemma_samples(bytes: Seq<u8>)
    requires
        bytes.len() == 8,
    ensures
        signed64(le_u64(bytes)) == SYX_INT <==> bytes == seq![
            0x78u8,
            0x56u8,
            0u8,
            0u8,
            0u8,
            0u8,
            0u8,
            0u8,
        ],
        le_u64(bytes) == SYX_NUM <==> bytes == seq![
            0u8,
            0u8,
            0u8,
            0u8,
            0u8,
            0x28u8,
            0x77u8,
            0x40u8,
        ],
{
    let low = bytes.take(4);
    let high = bytes.skip(4);
    assert(low[0] == bytes[0] && low[1] == bytes[1] && low[2] == bytes[2] && low[3] == bytes[3]);
    assert(high[0] == bytes[4] && high[1] == bytes[5] && high[2] == bytes[6] && high[3]
        == bytes[7]);
    assert(bytes =~= seq![
        bytes[0],
        bytes[1],
        bytes[2],
        bytes[3],
        bytes[4],
        bytes[5],
        bytes[6],
        bytes[7],
    ]);
}

/// What the two samples give at their positions in an input.
proof fn lemma_expect_samples_at(s: Seq<u8>)
    ensures
        s.len() >= HEADER_SAMPLE_INTEGER ==> expect_sample_integer(
            s.skip(HEADER_SAMPLE_INTEGER as int),
        ) == (if s.len() < HEADER_SAMPLE_NUMBER {
            Err::<((), Seq<u8>), LoadError>(LoadError::BufferNotReadable(8))
        } else if s.subrange(HEADER_SAMPLE_INTEGER as int, HEADER_SAMPLE_NUMBER as int)
            != header_bytes().subrange(HEADER_SAMPLE_INTEGER as int, HEADER_SAMPLE_NUMBER as int) {
            Err(LoadError::InvalidVerification(Verification::Endianness))
        } else {
            Ok(((), s.skip(HEADER_SAMPLE_NUMBER as int)))
        }),
        s.len() >= HEADER_SAMPLE_NUMBER ==> expect_sample_number(
            s.skip(HEADER_SAMPLE_NUMBER as int),
        ) == (if s.len() < HEADER_LEN {
            Err::<((), Seq<u8>), LoadError>(LoadError::BufferNotReadable(8))
        } else if s.subrange(HEADER_SAMPLE_NUMBER as int, HEADER_LEN as int)
            != header_bytes().subrange(HEADER_SAMPLE_NUMBER as int, HEADER_LEN as int) {
            Err(LoadError::InvalidVerification(Verification::FloatFormat))
        } else {
            Ok(((), s.skip(HEADER_LEN as int)))
        }),
{
    if s.len() >= 25 {
        let t = s.skip(17);
        assert(t.take(8) =~= s.subrange(17, 25));
        assert(t.skip(8) =~= s.skip(25));
        lemma_samples(s.subrange(17, 25));
        assert(header_bytes().subrange(17, 25) =~= seq![
            0x78u8,
            0x56u8,
            0u8,
            0u8,
            0u8,
            0u8,
            0u8,
            0u8,
        ]);
    }
    if s.len() >= 33 {
        let t = s.skip(25);
        assert(t.take(8) =~= s.subrange(25, 33));
        assert(t.skip(8) =~= s.skip(33));
        lemma_samples(s.subrange(25, 33));
        assert(header_bytes().subrange(25, 33) =~= seq![
            0u8,
            0u8,
            0u8,
            0u8,
            0u8,
            0x28u8,
            0x77u8,
            0x40u8,
        ]);
    }
}

/// The outcome of `read_header`, told by the positions in the input.
spec fn header_outcome(s: Seq<u8>) -> Parsed<()> {
    let h = header_bytes();
    if s.len() < 4 {
        Err(LoadError::BufferNotReadable(4))
    } else if s.subrange(0, 4) != h.subrange(0, 4) {
        Err(LoadError::InvalidVerification(Verification::Header))
    } else if s.len() < 5 {
        Err(LoadError::BufferNotReadable(1))
    } else if s[4] != h[4] {
        Err(LoadError::InvalidVerification(Verification::Version))
    } else if s.len() < 6 {
        Err(LoadError::BufferNotReadable(1))
    } else if s[5] != h[5] {
        Err(LoadError::InvalidVerification(Verification::Format))
    } else if s.len() < 12 {
        Err(LoadError::BufferNotReadable(6))
    } else if s.subrange(6, 12) != h.subrange(6, 12) {
        Err(LoadError::InvalidVerification(Verification::LoadOrder))
    } else if s.len() < 13 {
        Err(LoadError::BufferNotReadable(1))
    } else if s[12] != h[12] {
        Err(LoadError::InvalidVerification(Verification::SizeOfInt))
    } else if s.len() < 14 {
        Err(LoadError::BufferNotReadable(1))
    } else if s[13] != h[13] {
        Err(LoadError::InvalidVerification(Verification::SizeOfSize))
    } else if s.len() < 15 {
        Err(LoadError::BufferNotReadable(1))
    } else if s[14] != h[14] {
        Err(LoadError::InvalidVerification(Verification::SizeOfInstruction))
    } else if s.len() < 16 {
        Err(LoadError::BufferNotReadable(1))
    } else if s[15] != h[15] {
        Err(LoadError::InvalidVerification(Verification::SizeOfInteger))
    } else if s.len() < 17 {
        Err(LoadError::BufferNotReadable(1))
    } else if s[16] != h[16] {
        Err(LoadError::InvalidVerification(Verification::SizeOfNumber))
    } else if s.len() < 25 {
        Err(LoadError::BufferNotReadable(8))
    } else if s.subrange(17, 25) != h.subrange(17, 25) {
        Err(LoadError::InvalidVerification(Verification::Endianness))
    } else if s.len() < 33 {
        Err(LoadError::BufferNotReadable(8))
    } else if s.subrange(25, 33) != h.subrange(25, 33) {
        Err(LoadError::InvalidVerification(Verification::FloatFormat))
    } else {
        Ok(((), s.skip(33)))
    }
}

/// `read_header` has the outcome that `header_outcome` tells.
proof fn lemma_header_outcome(s: Seq<u8>)
    ensures
        read_header(s) == header_outcome(s),
{
    reveal(read_header);
    let h = header_bytes();
    assert(h.subrange(0, 4) =~= SYX_HEADER@);
    assert(h.subrange(6, 12) =~= SYX_DATA@);
    assert(s.skip(0) =~= s);
    lemma_expect_literal_at(s, 0, SYX_HEADER@, Verification::Header);
    if s.len() >= 4 {
        lemma_expect_byte_at(s, 4, SYX_VERSION, Verification::Version);
    }
    if s.len() >= 5 {
        lemma_expect_byte_at(s, 5, SYX_FORMAT, Verification::Format);
    }
    if s.len() >= 6 {
        lemma_expect_literal_at(s, 6, SYX_DATA@, Verification::LoadOrder);
    }
    if s.len() >= 12 {
        lemma_expect_byte_at(s, 12, SIZE_OF_INT, Verification::SizeOfInt);
    }
    if s.len() >= 13 {
        lemma_expect_byte_at(s, 13, SIZE_OF_SIZE, Verification::SizeOfSize);
    }
    if s.len() >= 14 {
        lemma_expect_byte_at(s, 14, SIZE_OF_INSTRUCTION, Verification::SizeOfInstruction);
    }
    if s.len() >= 15 {
        lemma_expect_byte_at(s, 15, SIZE_OF_INTEGER, Verification::SizeOfInteger);
    }
    if s.len() >= 16 {
        lemma_expect_byte_at(s, 16, SIZE_OF_NUMBER, Verification::SizeOfNumber);
    }
    lemma_expect_samples_at(s);
}

/// The four runs and seven single bytes of a header are those of
/// `header_bytes` if and only if its first `HEADER_LEN` bytes are.
proof fn lemma_header_parts(s: Seq<u8>)
    requires
        s.len() >= HEADER_LEN,
    ensures
        s.take(HEADER_LEN as int) == header_bytes() <==> {
            let h = header_bytes();
            &&& s.subrange(0, 4) == h.subrange(0, 4)
            &&& s[4] == h[4]
            &&& s[5] == h[5]
            &&& s.subrange(6, 12) == h.subrange(6, 12)
            &&& s[12] == h[12]
            &&& s[13] == h[13]
            &&& s[14] == h[14]
            &&& s[15] == h[15]
            &&& s[16] == h[16]
            &&& s.subrange(17, 25) == h.subrange(17, 25)
            &&& s.subrange(25, 33) == h.subrange(25, 33)
        },
{
    let h = header_bytes();
    if s.take(33) == h {
        assert(s.subrange(0, 4) =~= h.subrange(0, 4));
        assert(s.subrange(6, 12) =~= h.subrange(6, 12));
        assert(s.subrange(17, 25) =~= h.subrange(17, 25));
        assert(s.subrange(25, 33) =~= h.subrange(25, 33));
        assert(s[4] == s.take(33)[4] && s[5] == s.take(33)[5]);
        assert(s[12] == s.take(33)[12] && s[13] == s.take(33)[13] && s[14] == s.take(33)[14]);
        assert(s[15] == s.take(33)[15] && s[16] == s.take(33)[16]);
    }
    if s.subrange(0, 4) == h.subrange(0, 4) && s.subrange(6, 12) == h.subrange(6, 12)
        && s.subrange(17, 25) == h.subrange(17, 25) && s.subrange(25, 33) == h.subrange(25, 33)
        && s[4] == h[4] && s[5] == h[5] && s[12] == h[12] && s[13] == h[13] && s[14] == h[14]
        && s[15] == h[15] && s[16] == h[16] {
        assert forall|i: int| 0 <= i < 33 implies s.take(33)[i] == h[i] by {
            if i < 4 {
                assert(s.subrange(0, 4)[i] == h.subrange(0, 4)[i]);
            } else if 6 <= i < 12 {
                assert(s.subrange(6, 12)[i - 6] == h.subrange(6, 12)[i - 6]);
            } else if 17 <= i < 25 {
                assert(s.subrange(17, 25)[i - 17] == h.subrange(17, 25)[i - 17]);
            } else if 25 <= i {
                assert(s.subrange(25, 33)[i - 25] == h.subrange(25, 33)[i - 25]);
            }
        }
        assert(s.take(33) =~= h);
    }
}

/// The header takes exactly `HEADER_LEN` bytes.
pub proof fn lemma_header_length(s: Seq<u8>)
    ensures
        read_header(s) matches Ok((_, rest)) ==> s.len() >= HEADER_LEN && rest == s.skip(
            HEADER_LEN as int,
        ),
{
    lemma_header_outcome(s);
}

/// The header is accepted on exactly the inputs that start with
/// `header_bytes`.
pub proof fn lemma_header_accepted(s: Seq<u8>)
    ensures
        header_bytes().len() == HEADER_LEN,
        read_header(s) is Ok <==> s.len() >= HEADER_LEN && s.take(HEADER_LEN as int)
            == header_bytes(),
{
    lemma_header_outcome(s);
    if s.len() >= HEADER_LEN {
        lemma_header_parts(s);
    }
}

/// A header cut short is refused as not readable, wherever it is cut.
pub proof fn lemma_header_truncated(s: Seq<u8>)
    requires
        s.len() < HEADER_LEN,
        s == header_bytes().take(s.len() as int),
    ensures
        read_header(s) matches Err(e) && e is BufferNotReadable,
        s.len() >= HEADER_SAMPLE_INTEGER ==> read_header(s) == Err::<((), Seq<u8>), LoadError>(
            LoadError::BufferNotReadable(8),
        ),
{
    lemma_header_outcome(s);
    let h = header_bytes();
    if s.len() >= 4 {
        assert(s.subrange(0, 4) =~= h.subrange(0, 4));
    }
    if s.len() >= 12 {
        assert(s.subrange(6, 12) =~= h.subrange(6, 12));
    }
    if s.len() >= 25 {
        assert(s.subrange(17, 25) =~= h.subrange(17, 25));
    }
}

/// A header that is right up to the sample integer, and has another
/// sample integer, is refused for its byte order.
pub proof fn lemma_header_endianness(s: Seq<u8>)
    requires
        s.len() >= HEADER_SAMPLE_NUMBER,
        s.take(HEADER_SAMPLE_INTEGER as int) == header_bytes().take(HEADER_SAMPLE_INTEGER as int),
        s.subrange(HEADER_SAMPLE_INTEGER as int, HEADER_SAMPLE_NUMBER as int)
            != header_bytes().subrange(HEADER_SAMPLE_INTEGER as int, HEADER_SAMPLE_NUMBER as int),
    ensures
        read_header(s) == Err::<((), Seq<u8>), LoadError>(
            LoadError::InvalidVerification(Verification::Endianness),
        ),
{
    lemma_header_outcome(s);
    let h = header_bytes();
    assert forall|i: int| 0 <= i < 17 implies s[i] == h[i] by {
        assert(s.take(17)[i] == h.take(17)[i]);
    }
    assert(s.subrange(0, 4) =~= h.subrange(0, 4));
    assert(s.subrange(6, 12) =~= h.subrange(6, 12));
}

/// A read that succeeds takes no notice of what follows the bytes it
/// takes: with `more` after the input it gives the same value, and leaves
/// `more` after what it left before.
pub proof fn lemma_read_range_extend(s: Seq<u8>, more: Seq<u8>, n: nat)
    ensures
        read_range(s, n) matches Ok((bytes, rest)) ==> read_range(s + more, n) == Ok::<
            _,
            LoadError,
        >((bytes, rest + more)),
{
    if n <= s.len() {
        assert((s + more).take(n as int) =~= s.take(n as int));
        assert((s + more).skip(n as int) =~= s.skip(n as int) + more);
    }
}

/// As `lemma_read_range_extend`, for the numbers.
pub proof fn lemma_read_fixed_extend(s: Seq<u8>, more: Seq<u8>)
    ensures
        read_byte(s) matches Ok((v, rest)) ==> read_byte(s + more) == Ok::<_, LoadError>(
            (v, rest + more),
        ),
        read_u32(s) matches Ok((v, rest)) ==> read_u32(s + more) == Ok::<_, LoadError>(
            (v, rest + more),
        ),
        read_i32(s) matches Ok((v, rest)) ==> read_i32(s + more) == Ok::<_, LoadError>(
            (v, rest + more),
        ),
        read_u64(s) matches Ok((v, rest)) ==> read_u64(s + more) == Ok::<_, LoadError>(
            (v, rest + more),
        ),
        read_i64(s) matches Ok((v, rest)) ==> read_i64(s + more) == Ok::<_, LoadError>(
            (v, rest + more),
        ),
{
    lemma_read_range_extend(s, more, 1);
    lemma_read_range_extend(s, more, 4);
    lemma_read_range_extend(s, more, 8);
}

/// As `lemma_read_range_extend`, for strings.
pub proof fn lemma_read_string_extend(s: Seq<u8>, more: Seq<u8>)
    ensures
        read_string(s) matches Ok((v, rest)) ==> read_string(s + more) == Ok::<_, LoadError>(
            (v, rest + more),
        ),
{
    lemma_read_fixed_extend(s, more);
    if let Ok((short, rest)) = read_byte(s) {
        if short == 0xFF {
            lemma_read_fixed_extend(rest, more);
            if let Ok((size, rest)) = read_u64(rest) {
                if size != 0 {
                    lemma_read_range_extend(rest, more, (size - 1) as nat);
                }
            }
        } else if short != 0 {
            lemma_read_range_extend(rest, more, (short - 1) as nat);
        }
    }
}

/// As `lemma_read_range_extend`, for `read_many`, where it holds of `one`.
pub proof fn lemma_read_many_extend<T>(
    one: spec_fn(Seq<u8>) -> Parsed<T>,
    s: Seq<u8>,
    more: Seq<u8>,
    n: nat,
)
    requires
        forall|t: Seq<u8>, u: Seq<u8>|
            one(t) matches Ok((v, rest)) ==> #[trigger] one(t + u) == Ok::<_, LoadError>(
                (v, rest + u),
            ),
    ensures
        read_many(one, s, n) matches Ok((v, rest)) ==> read_many(one, s + more, n) == Ok::<
            _,
            LoadError,
        >((v, rest + more)),
    decreases n,
{
    if n > 0 {
        lemma_read_many_extend(one, s, more, (n - 1) as nat);
    }
}

/// As `lemma_read_range_extend`, for an instruction.
pub proof fn lemma_read_instruction_extend(s: Seq<u8>, more: Seq<u8>)
    ensures
        read_instruction(s) matches Ok((v, rest)) ==> read_instruction(s + more) == Ok::<
            _,
            LoadError,
        >((v, rest + more)),
{
    lemma_read_fixed_extend(s, more);
}

/// As `lemma_read_range_extend`, for a constant.
pub proof fn lemma_read_constant_extend(s: Seq<u8>, more: Seq<u8>)
    ensures
        read_constant(s) matches Ok((v, rest)) ==> read_constant(s + more) == Ok::<
            _,
            LoadError,
        >((v, rest + more)),
{
    lemma_read_fixed_extend(s, more);
    if let Ok((_, rest)) = read_byte(s) {
        lemma_read_fixed_extend(rest, more);
        lemma_read_string_extend(rest, more);
    }
}

/// As `lemma_read_range_extend`, for an upvalue.
pub proof fn lemma_read_upvalue_extend(s: Seq<u8>, more: Seq<u8>)
    ensures
        read_upvalue(s) matches Ok((v, rest)) ==> read_upvalue(s + more) == Ok::<_, LoadError>(
            (v, rest + more),
        ),
{
    lemma_read_fixed_extend(s, more);
    if let Ok((_, rest)) = read_byte(s) {
        lemma_read_fixed_extend(rest, more);
    }
}

/// As `lemma_read_range_extend`, for a local variable.
pub proof fn lemma_read_locvar_extend(s: Seq<u8>, more: Seq<u8>)
    ensures
        read_locvar(s) matches Ok((v, rest)) ==> read_locvar(s + more) == Ok::<_, LoadError>(
            (v, rest + more),
        ),
{
    lemma_read_string_extend(s, more);
    if let Ok((_, rest)) = read_string(s) {
        lemma_read_fixed_extend(rest, more);
        if let Ok((_, rest)) = read_i32(rest) {
            lemma_read_fixed_extend(rest, more);
        }
    }
}

/// As `lemma_read_range_extend`, for the sections of records.
pub proof fn lemma_read_section_extend(s: Seq<u8>, more: Seq<u8>)
    ensures
        read_code(s) matches Ok((v, rest)) ==> read_code(s + more) == Ok::<_, LoadError>(
            (v, rest + more),
        ),
        read_constants(s) matches Ok((v, rest)) ==> read_constants(s + more) == Ok::<
            _,
            LoadError,
        >((v, rest + more)),
        read_upvalues(s) matches Ok((v, rest)) ==> read_upvalues(s + more) == Ok::<
            _,
            LoadError,
        >((v, rest + more)),
        read_lineinfo(s) matches Ok((v, rest)) ==> read_lineinfo(s + more) == Ok::<
            _,
            LoadError,
        >((v, rest + more)),
        read_locvars(s) matches Ok((v, rest)) ==> read_locvars(s + more) == Ok::<_, LoadError>(
            (v, rest + more),
        ),
{
    lemma_read_fixed_extend(s, more);
    if let Ok((count, rest)) = read_i32(s) {
        let n = count_of(count);
        let instruction = |s: Seq<u8>| read_instruction(s);
        let constant = |s: Seq<u8>| read_constant(s);
        let upvalue = |s: Seq<u8>| read_upvalue(s);
        let line = |s: Seq<u8>| read_i32(s);
        let locvar = |s: Seq<u8>| read_locvar(s);
        assert forall|t: Seq<u8>, u: Seq<u8>|
            instruction(t) matches Ok((v, rest)) ==> #[trigger] instruction(t + u) == Ok::<
                _,
                LoadError,
            >((v, rest + u)) by {
            lemma_read_instruction_extend(t, u);
        }
        assert forall|t: Seq<u8>, u: Seq<u8>|
            constant(t) matches Ok((v, rest)) ==> #[trigger] constant(t + u) == Ok::<
                _,
                LoadError,
            >((v, rest + u)) by {
            lemma_read_constant_extend(t, u);
        }
        assert forall|t: Seq<u8>, u: Seq<u8>|
            upvalue(t) matches Ok((v, rest)) ==> #[trigger] upvalue(t + u) == Ok::<
                _,
                LoadError,
            >((v, rest + u)) by {
            lemma_read_upvalue_extend(t, u);
        }
        assert forall|t: Seq<u8>, u: Seq<u8>|
            line(t) matches Ok((v, rest)) ==> #[trigger] line(t + u) == Ok::<_, LoadError>(
                (v, rest + u),
            ) by {
            lemma_read_fixed_extend(t, u);
        }
        assert forall|t: Seq<u8>, u: Seq<u8>|
            locvar(t) matches Ok((v, rest)) ==> #[trigger] locvar(t + u) == Ok::<_, LoadError>(
                (v, rest + u),
            ) by {
            lemma_read_locvar_extend(t, u);
        }
        lemma_read_many_extend(instruction, rest, more, n);
        lemma_read_many_extend(constant, rest, more, n);
        lemma_read_many_extend(upvalue, rest, more, n);
        lemma_read_many_extend(line, rest, more, n);
        lemma_read_many_extend(locvar, rest, more, n);
    }
}

/// As `lemma_read_range_extend`, for the names of upvalues.
pub proof fn lemma_read_upvalue_names_extend(
    s: Seq<u8>,
    more: Seq<u8>,
    upvalues: Seq<UpvalueView>,
    n: nat,
)
    ensures
        read_upvalue_names(s, upvalues, n) matches Ok((v, rest)) ==> read_upvalue_names(
            s + more,
            upvalues,
            n,
        ) == Ok::<_, LoadError>((v, rest + more)),
    decreases n,
{
    if n > 0 {
        lemma_read_upvalue_names_extend(s, more, upvalues, (n - 1) as nat);
        if let Ok((_, rest)) = read_upvalue_names(s, upvalues, (n - 1) as nat) {
            lemma_read_string_extend(rest, more);
        }
    }
}

/// As `lemma_read_range_extend`, for the debug section.
pub proof fn lemma_read_debug_extend(s: Seq<u8>, more: Seq<u8>, upvalues: Seq<UpvalueView>)
    ensures
        read_debug(s, upvalues) matches Ok((v, rest)) ==> read_debug(s + more, upvalues) == Ok::<
            _,
            LoadError,
        >((v, rest + more)),
{
    lemma_read_section_extend(s, more);
    if let Ok((_, rest)) = read_lineinfo(s) {
        lemma_read_section_extend(rest, more);
        if let Ok((_, rest)) = read_locvars(rest) {
            lemma_read_fixed_extend(rest, more);
            if let Ok((count, rest)) = read_i32(rest) {
                lemma_read_upvalue_names_extend(rest, more, upvalues, count_of(count));
            }
        }
    }
}

/// As `lemma_read_range_extend`, for the source name of a function.
pub proof fn lemma_read_source_extend(s: Seq<u8>, more: Seq<u8>, parent: Seq<u8>)
    ensures
        read_source(s, parent) matches Ok((v, rest)) ==> read_source(s + more, parent) == Ok::<
            _,
            LoadError,
        >((v, rest + more)),
{
    lemma_read_string_extend(s, more);
}

/// As `lemma_read_range_extend`, for the frame of a function.
pub proof fn lemma_read_frame_extend(s: Seq<u8>, more: Seq<u8>)
    ensures
        read_frame(s) matches Ok((v, rest)) ==> read_frame(s + more) == Ok::<_, LoadError>(
            (v, rest + more),
        ),
{
    if let Ok((_, r1)) = read_i32(s) {
        lemma_read_range_extend(s, more, 4);
        if let Ok((_, r2)) = read_i32(r1) {
            lemma_read_range_extend(r1, more, 4);
            if let Ok((_, r3)) = read_byte(r2) {
                lemma_read_range_extend(r2, more, 1);
                if let Ok((_, r4)) = read_byte(r3) {
                    lemma_read_range_extend(r3, more, 1);
                    lemma_read_range_extend(r4, more, 1);
                }
            }
        }
    }
}

/// As `lemma_read_range_extend`, for a function block up to its nested
/// functions.
pub proof fn lemma_read_head_extend(s: Seq<u8>, more: Seq<u8>, parent: Seq<u8>)
    ensures
        read_head(s, parent) matches Ok((v, rest)) ==> read_head(s + more, parent) == Ok::<
            _,
            LoadError,
        >((v, rest + more)),
{
    lemma_read_source_extend(s, more, parent);
    if let Ok((_, r1)) = read_source(s, parent) {
        lemma_read_frame_extend(r1, more);
        if let Ok((_, r2)) = read_frame(r1) {
            lemma_read_section_extend(r2, more);
            if let Ok((_, r3)) = read_code(r2) {
                lemma_read_section_extend(r3, more);
                if let Ok((_, r4)) = read_constants(r3) {
                    lemma_read_section_extend(r4, more);
                }
            }
        }
    }
}

/// As `lemma_read_range_extend`, for a function block.
pub proof fn lemma_read_function_extend(s: Seq<u8>, more: Seq<u8>, parent: Seq<u8>)
    ensures
        read_function(s, parent) matches Ok((v, rest)) ==> read_function(s + more, parent)
            == Ok::<_, LoadError>((v, rest + more)),
    decreases s.len(), 0nat,
{
    lemma_read_head_extend(s, more, parent);
    lemma_read_head_rest(s, parent);
    if let Ok((head, rest)) = read_head(s, parent) {
        lemma_read_fixed_extend(rest, more);
        if let Ok((count, rest)) = read_i32(rest) {
            lemma_read_protos_extend(rest, more, head.source, count_of(count));
            if let Ok((_, rest)) = read_protos(rest, head.source, count_of(count)) {
                lemma_read_debug_extend(rest, more, head.upvalues);
            }
        }
    }
}

/// As `lemma_read_range_extend`, for nested function blocks.
pub proof fn lemma_read_protos_extend(s: Seq<u8>, more: Seq<u8>, parent: Seq<u8>, n: nat)
    ensures
        read_protos(s, parent, n) matches Ok((v, rest)) ==> read_protos(s + more, parent, n)
            == Ok::<_, LoadError>((v, rest + more)),
    decreases s.len(), n + 1,
{
    if n > 0 {
        lemma_read_protos_extend(s, more, parent, (n - 1) as nat);
        lemma_read_protos_rest(s, parent, (n - 1) as nat);
        if let Ok((_, rest)) = read_protos(s, parent, (n - 1) as nat) {
            lemma_read_function_extend(rest, more, parent);
        }
    }
}

/// As `lemma_read_range_extend`, for the header.
pub proof fn lemma_read_header_extend(s: Seq<u8>, more: Seq<u8>)
    ensures
        read_header(s) matches Ok((v, rest)) ==> read_header(s + more) == Ok::<_, LoadError>(
            (v, rest + more),
        ),
{
    lemma_header_accepted(s);
    lemma_header_accepted(s + more);
    lemma_header_length(s);
    lemma_header_length(s + more);
    if let Ok((v, rest)) = read_header(s) {
        assert((s + more).take(HEADER_LEN as int) =~= s.take(HEADER_LEN as int));
        assert((s + more).skip(HEADER_LEN as int) =~= rest + more);
        assert(read_header(s + more).unwrap() == (v, rest + more));
    }
}

/// As `lemma_read_range_extend`, for a chunk.
pub proof fn lemma_read_chunk_extend(s: Seq<u8>, more: Seq<u8>)
    ensures
        read_chunk(s) matches Ok((v, rest)) ==> read_chunk(s + more) == Ok::<_, LoadError>(
            (v, rest + more),
        ),
{
    lemma_read_header_extend(s, more);
    if let Ok((_, r1)) = read_header(s) {
        lemma_read_range_extend(r1, more, 1);
        if let Ok((_, r2)) = read_byte(r1) {
            lemma_read_function_extend(r2, more, Seq::empty());
        }
    }
}

/// A chunk with bytes after it is refused: where a sequence of bytes
/// loads, the same bytes with anything after them fail as not empty.
pub proof fn lemma_chunk_alone(s: Seq<u8>, more: Seq<u8>)
    requires
        chunk_of(s) is Ok,
        more.len() > 0,
    ensures
        chunk_of(s + more) == Err::<ProtoView, LoadError>(LoadError::BufferNotEmpty),
{
    lemma_read_chunk_extend(s, more);
}

} // verus!
