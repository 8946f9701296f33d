//! Which bytes of one instruction stay literal and which become wildcards.
//!
//! A disassembler reports the constants an instruction refers to, but not where in the
//! encoding they sit. Operands are encoded last, so the references are looked for from the
//! end of the instruction backwards, each in what the references before it left over.

use vstd::prelude::*;
use crate::signature::{matches_at, token_accepts};

verus! {

/// A constant that an instruction refers to.
#[derive(Clone, Copy, Debug, PartialEq, Eq, Structural)]
pub struct ConstantReference {
    /// Whether the constant is as wide as a pointer.
    pub is_pointer_sized: bool,
    /// The constant itself.
    pub value: i64,
}

/// What a disassembler knows of the instruction at one address.
#[derive(Clone, Debug)]
pub struct Instruction {
    /// The length of the encoding in bytes.
    pub length: usize,
    /// The constants it refers to, in the order reported.
    pub constants: Vec<ConstantReference>,
}

/// A byte read as a signed integer.
pub open spec fn signed_byte(b: u8) -> int {
    if b >= 128 {
        b - 256
    } else {
        b as int
    }
}

/// Four bytes, lowest first, read as a signed 32-bit integer.
pub open spec fn signed_word(b0: u8, b1: u8, b2: u8, b3: u8) -> int {
    let unsigned = b0 + 256 * b1 + 65536 * b2 + 16777216 * b3;
    if unsigned >= 0x8000_0000 {
        unsigned - 0x1_0000_0000
    } else {
        unsigned
    }
}

/// Whether the last byte of `bytes[..end]` holds `value`.
pub open spec fn ends_in_byte(bytes: Seq<u8>, end: int, value: int) -> bool {
    end >= 1 && signed_byte(bytes[end - 1]) == value
}

/// Whether the last four bytes of `bytes[..end]` hold `value`.
pub open spec fn ends_in_word(bytes: Seq<u8>, end: int, value: int) -> bool {
    end >= 4 && signed_word(bytes[end - 4], bytes[end - 3], bytes[end - 2], bytes[end - 1])
        == value
}

/// How many trailing bytes of `bytes[..end]` the reference `c` takes up.
///
/// A pointer-sized reference takes four bytes without looking at them, or all that is left
/// where that is less. Any other reference takes one byte if that byte holds its value, else
/// four bytes if they do, else nothing: it is then not part of the encoding's tail.
pub open spec fn consumed(bytes: Seq<u8>, end: int, c: ConstantReference) -> int {
    if c.is_pointer_sized {
        if end >= 4 {
            4
        } else {
            end
        }
    } else if ends_in_byte(bytes, end, c.value as int) {
        1
    } else if ends_in_word(bytes, end, c.value as int) {
        4
    } else {
        0
    }
}

/// How many leading bytes of `bytes` stay literal once every reference has taken its share.
pub open spec fn literal_len(bytes: Seq<u8>, constants: Seq<ConstantReference>) -> int
    decreases constants.len(),
{
    if constants.len() == 0 {
        bytes.len() as int
    } else {
        let end = literal_len(bytes, constants.drop_last());
        end - consumed(bytes, end, constants.last())
    }
}

/// The tokens of an instruction: its first `literal_len` bytes, then wildcards.
pub open spec fn instruction_tokens(
    bytes: Seq<u8>,
    constants: Seq<ConstantReference>,
) -> Seq<Option<u8>> {
    Seq::new(
        bytes.len(),
        |i: int|
            if i < literal_len(bytes, constants) {
                Some(bytes[i])
            } else {
                None
            },
    )
}

/// The literal part is never longer than the instruction, nor negative.
pub proof fn lemma_literal_len_bounds(bytes: Seq<u8>, constants: Seq<ConstantReference>)
    ensures
        0 <= literal_len(bytes, constants) <= bytes.len(),
    decreases constants.len(),
{
    if constants.len() > 0 {
        lemma_literal_len_bounds(bytes, constants.drop_last());
    }
}

/// An instruction without constant references keeps every byte literal.
pub proof fn lemma_no_reference_all_literal(bytes: Seq<u8>)
    ensures
        instruction_tokens(bytes, Seq::empty()) == bytes.map_values(|b: u8| Some(b)),
        forall|i: int|
            0 <= i < bytes.len() ==> #[trigger] instruction_tokens(bytes, Seq::empty())[i]
                == Some(bytes[i]),
{
    assert(instruction_tokens(bytes, Seq::empty()) =~= bytes.map_values(|b: u8| Some(b)));
}

/// The bytes of an instruction with the last `n` of them turned into wildcards.
pub open spec fn tail_wildcarded(bytes: Seq<u8>, n: int) -> Seq<Option<u8>> {
    Seq::new(
        bytes.len(),
        |i: int|
            if i < bytes.len() - n {
                Some(bytes[i])
            } else {
                None
            },
    )
}

/// A single reference turns exactly the trailing bytes it takes up into wildcards: the last
/// byte where that byte holds its value; otherwise the last four where they hold it;
/// otherwise none. Every other byte stays literal.
pub proof fn lemma_one_reference(bytes: Seq<u8>, c: ConstantReference)
    requires
        !c.is_pointer_sized,
    ensures
        ends_in_byte(bytes, bytes.len() as int, c.value as int) ==> instruction_tokens(
            bytes,
            seq![c],
        ) == tail_wildcarded(bytes, 1),
        !ends_in_byte(bytes, bytes.len() as int, c.value as int) && ends_in_word(
            bytes,
            bytes.len() as int,
            c.value as int,
        ) ==> instruction_tokens(bytes, seq![c]) == tail_wildcarded(bytes, 4),
        !ends_in_byte(bytes, bytes.len() as int, c.value as int) && !ends_in_word(
            bytes,
            bytes.len() as int,
            c.value as int,
        ) ==> instruction_tokens(bytes, seq![c]) == tail_wildcarded(bytes, 0),
{
    let one = seq![c];
    assert(one.drop_last() =~= Seq::<ConstantReference>::empty());
    assert(one.last() == c);
    assert(literal_len(bytes, one.drop_last()) == bytes.len());
    let taken = consumed(bytes, bytes.len() as int, c);
    assert(instruction_tokens(bytes, one) =~= tail_wildcarded(bytes, taken));
}

/// A pointer-sized reference turns the last four bytes into wildcards, or the whole
/// instruction where it is shorter than that.
pub proof fn lemma_pointer_reference(bytes: Seq<u8>, c: ConstantReference)
    requires
        c.is_pointer_sized,
    ensures
        instruction_tokens(bytes, seq![c]) == tail_wildcarded(
            bytes,
            if bytes.len() >= 4 {
                4
            } else {
                bytes.len() as int
            },
        ),
{
    let one = seq![c];
    assert(one.drop_last() =~= Seq::<ConstantReference>::empty());
    assert(one.last() == c);
    assert(literal_len(bytes, one.drop_last()) == bytes.len());
    let taken = consumed(bytes, bytes.len() as int, c);
    assert(instruction_tokens(bytes, one) =~= tail_wildcarded(bytes, taken));
}

/// The tokens of an instruction occur in its own bytes.
pub proof fn lemma_tokens_fit_bytes(bytes: Seq<u8>, constants: Seq<ConstantReference>)
    ensures
        matches_at(instruction_tokens(bytes, constants), bytes, 0),
{
    let tokens = instruction_tokens(bytes, constants);
    assert forall|j: int| 0 <= j < tokens.len() implies token_accepts(
        #[trigger] tokens[j],
        bytes[0 + j],
    ) by {}
}

fn signed_byte_of(b: u8) -> (v: i64)
    ensures
        v == signed_byte(b),
{
    if b >= 128 {
        b as i64 - 256
    } else {
        b as i64
    }
}

fn signed_word_of(b0: u8, b1: u8, b2: u8, b3: u8) -> (v: i64)
    ensures
        v == signed_word(b0, b1, b2, b3),
{
    let unsigned: i64 = b0 as i64 + 256 * (b1 as i64) + 65536 * (b2 as i64) + 16777216 * (
    b3 as i64);
    if unsigned >= 0x8000_0000 {
        unsigned - 0x1_0000_0000
    } else {
        unsigned
    }
}

/// How many trailing bytes of `bytes[..end]` the reference `c` takes up.
fn consume(bytes: &[u8], end: usize, c: &ConstantReference) -> (taken: usize)
    requires
        end <= bytes@.len(),
    ensures
        taken == consumed(bytes@, end as int, *c),
        taken <= end,
{
    if c.is_pointer_sized {
        if end >= 4 {
            4
        } else {
            end
        }
    } else if end >= 1 && signed_byte_of(bytes[end - 1]) == c.value {
        1
    } else if end >= 4 && signed_word_of(
        bytes[end - 4],
        bytes[end - 3],
        bytes[end - 2],
        bytes[end - 1],
    ) == c.value {
        4
    } else {
        0
    }
}

/// Where the wildcards of an instruction start.
pub fn wildcard_start(bytes: &[u8], constants: &Vec<ConstantReference>) -> (start: usize)
    ensures
        start == literal_len(bytes@, constants@),
        start <= bytes@.len(),
{
    let mut end: usize = bytes.len();
    let mut k: usize = 0;
    while k < constants.len()
        invariant
            k <= constants@.len(),
            end <= bytes@.len(),
            end == literal_len(bytes@, constants@.take(k as int)),
        decreases constants@.len() - k,
    {
        let taken: usize = consume(bytes, end, &constants[k]);
        proof {
            let seen = constants@.take(k + 1);
            assert(seen.drop_last() == constants@.take(k as int));
            assert(seen.last() == constants@[k as int]);
        }
        end = end - taken;
        k += 1;
    }
    assert(constants@.take(k as int) == constants@);
    end
}

/// The tokens of one instruction: for each of its bytes, the byte itself or a wildcard.
pub fn instruction_pattern(bytes: &[u8], constants: &Vec<ConstantReference>) -> (tokens: Vec<
    Option<u8>,
>)
    ensures
        tokens@ == instruction_tokens(bytes@, constants@),
{
    let start: usize = wildcard_start(bytes, constants);
    let mut tokens: Vec<Option<u8>> = Vec::new();
    let mut i: usize = 0;
    while i < bytes.len()
        invariant
            i <= bytes@.len(),
            start == literal_len(bytes@, constants@),
            tokens@ == instruction_tokens(bytes@, constants@).take(i as int),
        decreases bytes@.len() - i,
    {
        let token: Option<u8> = if i < start {
            Some(bytes[i])
        } else {
            None
        };
        tokens.push(token);
        assert(tokens@ == instruction_tokens(bytes@, constants@).take(i + 1));
        i += 1;
    }
    assert(instruction_tokens(bytes@, constants@).take(i as int) == instruction_tokens(
        bytes@,
        constants@,
    ));
    tokens
}

} // verus!
