//! Building the signature of an address range, one instruction at a time.
//!
//! The bytes of the range are read once. Then the range is walked from its start: the
//! instruction at the current address is looked up, its operand bytes become wildcards, and
//! the walk goes on behind it. The lookups are the caller's; [`SignatureBuilder`] says which
//! address comes next and takes the answer. [`create_pattern`] does the whole walk over
//! lookups made beforehand.

use vstd::prelude::*;
use vstd::slice::slice_subrange;
use crate::error::PatternError;
use crate::extract::{instruction_pattern, instruction_tokens, Instruction};
use crate::signature::{matches_at, token_accepts, Signature, MAX_TOKENS};

verus! {

/// The number of bytes of `[start, end)` that a signature covers: all of them, up to
/// [`MAX_TOKENS`].
pub open spec fn clamped_len(start: u64, end: u64) -> int {
    if end <= start {
        0
    } else if end - start > MAX_TOKENS {
        MAX_TOKENS as int
    } else {
        end - start
    }
}

/// The signature that takes every byte literally.
pub open spec fn literals(bytes: Seq<u8>) -> Seq<Option<u8>> {
    bytes.map_values(|b: u8| Some(b))
}

/// The length of an instruction cut to the `left` bytes that remain of the range.
pub open spec fn span(reported: int, left: int) -> int {
    if reported > left {
        left
    } else {
        reported
    }
}

/// How far the walk moves over an instruction of `len` bytes: never less than one byte.
pub open spec fn stride(len: int) -> int {
    if len == 0 {
        1
    } else {
        len
    }
}

/// `tokens` with the part under the instruction at offset `at` replaced by that
/// instruction's own tokens.
pub open spec fn overlaid(
    tokens: Seq<Option<u8>>,
    bytes: Seq<u8>,
    at: int,
    instruction: Instruction,
) -> Seq<Option<u8>> {
    let len = span(instruction.length as int, bytes.len() - at);
    let own = instruction_tokens(bytes.subrange(at, at + len), instruction.constants@);
    Seq::new(
        tokens.len(),
        |i: int|
            if at <= i < at + len {
                own[i - at]
            } else {
                tokens[i]
            },
    )
}

/// The tokens and the offset of the walk after the instruction at offset `at` has been
/// taken: its tokens lie over its bytes, and the walk stands behind it.
pub open spec fn taken(
    tokens: Seq<Option<u8>>,
    bytes: Seq<u8>,
    at: int,
    instruction: Instruction,
) -> (Seq<Option<u8>>, int) {
    (
        overlaid(tokens, bytes, at, instruction),
        at + stride(span(instruction.length as int, bytes.len() - at)),
    )
}

/// What is known of the instruction at offset `at`; nothing beyond the end of `lookups`.
pub open spec fn lookup_at(lookups: Seq<Option<Instruction>>, at: int) -> Option<Instruction> {
    if 0 <= at < lookups.len() {
        lookups[at]
    } else {
        None
    }
}

/// The tokens at the end of the walk that stands at offset `at` with `tokens` so far, or
/// `None` where the walk comes to an offset of which nothing is known.
pub open spec fn walk(
    bytes: Seq<u8>,
    lookups: Seq<Option<Instruction>>,
    at: int,
    tokens: Seq<Option<u8>>,
) -> Option<Seq<Option<u8>>>
    decreases bytes.len() - at,
{
    if at >= bytes.len() {
        Some(tokens)
    } else {
        match lookup_at(lookups, at) {
            None => None,
            Some(instruction) => {
                let next = taken(tokens, bytes, at, instruction);
                walk(bytes, lookups, next.1, next.0)
            },
        }
    }
}

/// Overlaying an instruction keeps the number of tokens, and keeps them occurring in the
/// bytes they were made from.
pub proof fn lemma_overlaid_fits(
    tokens: Seq<Option<u8>>,
    bytes: Seq<u8>,
    at: int,
    instruction: Instruction,
)
    requires
        0 <= at <= bytes.len(),
        matches_at(tokens, bytes, 0),
        tokens.len() == bytes.len(),
    ensures
        overlaid(tokens, bytes, at, instruction).len() == bytes.len(),
        matches_at(overlaid(tokens, bytes, at, instruction), bytes, 0),
{
    let after = overlaid(tokens, bytes, at, instruction);
    assert forall|j: int| 0 <= j < after.len() implies token_accepts(
        #[trigger] after[j],
        bytes[0 + j],
    ) by {
        assert(token_accepts(tokens[j], bytes[0 + j]));
    }
}

/// A walk that ends gives one token for each byte of the range, and the tokens occur in
/// those bytes.
pub proof fn lemma_walk_fits(
    bytes: Seq<u8>,
    lookups: Seq<Option<Instruction>>,
    at: int,
    tokens: Seq<Option<u8>>,
)
    requires
        0 <= at <= bytes.len(),
        matches_at(tokens, bytes, 0),
        tokens.len() == bytes.len(),
    ensures
        walk(bytes, lookups, at, tokens) matches Some(end) ==> end.len() == bytes.len()
            && matches_at(end, bytes, 0),
    decreases bytes.len() - at,
{
    if at < bytes.len() {
        match lookup_at(lookups, at) {
            None => {},
            Some(instruction) => {
                lemma_overlaid_fits(tokens, bytes, at, instruction);
                let next = taken(tokens, bytes, at, instruction);
                lemma_walk_fits(bytes, lookups, next.1, next.0);
            },
        }
    }
}

/// The number of bytes to read for the range `[start, end)`.
pub fn target_len(start: u64, end: u64) -> (len: usize)
    ensures
        len == clamped_len(start, end),
        len <= MAX_TOKENS,
{
    if end <= start {
        0
    } else if end - start > 64 {
        MAX_TOKENS
    } else {
        (end - start) as usize
    }
}

/// Whether a read brought all the bytes that were asked for.
pub fn read_data(wanted: usize, read: usize) -> (checked: Result<(), PatternError>)
    ensures
        read == wanted ==> checked is Ok,
        read != wanted ==> checked == Err::<(), PatternError>(PatternError::ReadError),
{
    if read != wanted {
        return Err(PatternError::ReadError);
    }
    Ok(())
}

/// A signature in the making: the bytes of the range, the tokens decided so far, and the
/// offset of the next instruction.
pub struct SignatureBuilder {
    origin: u64,
    data: Vec<u8>,
    tokens: Vec<Option<u8>>,
    cursor: usize,
}

impl SignatureBuilder {
    #[verifier::type_invariant]
    spec fn consistent(&self) -> bool {
        &&& self.tokens@.len() == self.data@.len()
        &&& self.data@.len() <= MAX_TOKENS
        &&& self.cursor <= self.data@.len()
        &&& self.origin + self.data@.len() <= u64::MAX
    }

    /// The address of the first byte of the range.
    pub closed spec fn origin(&self) -> u64 {
        self.origin
    }

    /// The bytes of the range.
    pub closed spec fn bytes(&self) -> Seq<u8> {
        self.data@
    }

    /// The tokens decided so far, one for each byte.
    pub closed spec fn tokens(&self) -> Seq<Option<u8>> {
        self.tokens@
    }

    /// The offset in the range of the next instruction to look up.
    pub closed spec fn position(&self) -> int {
        self.cursor as int
    }

    /// Whether the walk has reached the end of the range.
    pub open spec fn is_done(&self) -> bool {
        self.position() >= self.bytes().len()
    }

    /// Starts the walk over `[start, end)`, cut to [`MAX_TOKENS`] bytes, of which `data` is
    /// what was read. Fails with `ReadError` where `data` is not exactly those bytes.
    pub fn new(start: u64, end: u64, data: Vec<u8>) -> (made: Result<
        SignatureBuilder,
        PatternError,
    >)
        ensures
            data@.len() != clamped_len(start, end) ==> made matches Err(PatternError::ReadError),
            data@.len() == clamped_len(start, end) ==> (made matches Ok(builder) && {
                &&& builder.origin() == start
                &&& builder.bytes() == data@
                &&& builder.tokens() == literals(data@)
                &&& builder.position() == 0
            }),
    {
        let wanted: usize = target_len(start, end);
        if read_data(wanted, data.len()).is_err() {
            return Err(PatternError::ReadError);
        }
        let mut tokens: Vec<Option<u8>> = Vec::new();
        let mut i: usize = 0;
        while i < data.len()
            invariant
                i <= data@.len(),
                tokens@ == literals(data@).take(i as int),
            decreases data@.len() - i,
        {
            tokens.push(Some(data[i]));
            assert(tokens@ == literals(data@).take(i + 1));
            i += 1;
        }
        assert(literals(data@).take(i as int) == literals(data@));
        Ok(SignatureBuilder { origin: start, data, tokens, cursor: 0 })
    }

    /// The offset in the range of the next instruction to look up.
    pub fn offset(&self) -> (at: usize)
        ensures
            at == self.position(),
    {
        self.cursor
    }

    /// The address of the next instruction to look up, or `None` at the end of the range.
    pub fn pending(&self) -> (next: Option<u64>)
        ensures
            self.is_done() ==> next is None,
            !self.is_done() ==> next == Some((self.origin() + self.position()) as u64),
            !self.is_done() ==> self.origin() + self.position() <= u64::MAX,
    {
        proof {
            use_type_invariant(self);
        }
        if self.cursor >= self.data.len() {
            None
        } else {
            Some(self.origin + self.cursor as u64)
        }
    }

    /// Takes what the lookup at the pending address gave.
    ///
    /// `None` ends the walk with `NoDisassemblyContext` and changes nothing. An instruction
    /// puts its tokens over its bytes and moves the walk behind it, by one byte at least.
    /// At the end of the range nothing is pending, and nothing changes.
    pub fn apply(&mut self, lookup: &Option<Instruction>) -> (accepted: Result<
        (),
        PatternError,
    >)
        ensures
            final(self).origin() == old(self).origin(),
            final(self).bytes() == old(self).bytes(),
            (final(self).tokens(), final(self).position()) == (if old(self).is_done()
                || lookup is None {
                (old(self).tokens(), old(self).position())
            } else {
                taken(old(self).tokens(), old(self).bytes(), old(self).position(), lookup->0)
            }),
            accepted == (if !old(self).is_done() && lookup is None {
                Err::<(), PatternError>(PatternError::NoDisassemblyContext)
            } else {
                Ok::<(), PatternError>(())
            }),
    {
        proof {
            use_type_invariant(&*self);
        }
        let total: usize = self.data.len();
        let at: usize = self.cursor;
        if at >= total {
            return Ok(());
        }
        match lookup {
            None => Err(PatternError::NoDisassemblyContext),
            Some(instruction) => {
                let left: usize = total - at;
                let len: usize = if instruction.length > left {
                    left
                } else {
                    instruction.length
                };
                let own = instruction_pattern(
                    slice_subrange(self.data.as_slice(), at, at + len),
                    &instruction.constants,
                );
                let ghost goal = overlaid(self.tokens@, self.data@, at as int, *instruction);
                let mut merged: Vec<Option<u8>> = Vec::new();
                let mut i: usize = 0;
                while i < total
                    invariant
                        i <= total,
                        total == self.tokens@.len(),
                        at + len <= total,
                        own@.len() == len,
                        goal.len() == total,
                        forall|j: int|
                            0 <= j < total ==> #[trigger] goal[j] == (if at <= j < at + len {
                                own@[j - at]
                            } else {
                                self.tokens@[j]
                            }),
                        merged@ == goal.take(i as int),
                    decreases total - i,
                {
                    let token: Option<u8> = if at <= i && i < at + len {
                        own[i - at]
                    } else {
                        self.tokens[i]
                    };
                    merged.push(token);
                    assert(merged@ == goal.take(i + 1));
                    i += 1;
                }
                assert(goal.take(total as int) == goal);
                self.tokens = merged;
                self.cursor = at + (if len == 0 {
                    1
                } else {
                    len
                });
                Ok(())
            },
        }
    }

    /// The finished signature, or `None` while an instruction is still pending: no part of
    /// a signature is handed out.
    pub fn finish(self) -> (built: Option<Signature>)
        ensures
            built is Some <==> self.is_done(),
            built matches Some(sig) ==> sig@ == self.tokens() && sig@.len() == self.bytes().len()
                && sig@.len() <= MAX_TOKENS,
    {
        proof {
            use_type_invariant(&self);
        }
        if self.cursor >= self.data.len() {
            Signature::from_tokens(self.tokens)
        } else {
            None
        }
    }
}

/// The signature of the range `[start, end)`, cut to [`MAX_TOKENS`] bytes.
///
/// `data` holds the bytes read from the range, and `lookups[i]` what the disassembler knows
/// of the instruction at `start + i` (`None` where it knows nothing, as beyond the end of
/// `lookups`). The walk starts at offset 0 and reads only the lookups it comes to.
pub fn create_pattern(
    start: u64,
    end: u64,
    data: Vec<u8>,
    lookups: &Vec<Option<Instruction>>,
) -> (built: Result<Signature, PatternError>)
    ensures
        data@.len() != clamped_len(start, end) ==> built matches Err(PatternError::ReadError),
        data@.len() == clamped_len(start, end) ==> match walk(
            data@,
            lookups@,
            0,
            literals(data@),
        ) {
            Some(tokens) => built matches Ok(sig) && sig@ == tokens,
            None => built matches Err(PatternError::NoDisassemblyContext),
        },
        built matches Ok(sig) ==> sig@.len() == clamped_len(start, end) && sig@.len()
            <= MAX_TOKENS && matches_at(sig@, data@, 0),
{
    let ghost bytes = data@;
    let mut builder = match SignatureBuilder::new(start, end, data) {
        Ok(builder) => builder,
        Err(e) => {
            return Err(e);
        },
    };
    let unknown: Option<Instruction> = None;
    proof {
        assert(matches_at(literals(bytes), bytes, 0));
    }
    while builder.pending().is_some()
        invariant
            unknown is None,
            bytes == data@,
            bytes.len() == clamped_len(start, end),
            builder.bytes() == bytes,
            0 <= builder.position() <= bytes.len(),
            builder.tokens().len() == bytes.len(),
            matches_at(builder.tokens(), bytes, 0),
            walk(bytes, lookups@, 0, literals(bytes)) == walk(
                bytes,
                lookups@,
                builder.position(),
                builder.tokens(),
            ),
        decreases bytes.len() - builder.position(),
    {
        let at: usize = builder.offset();
        let lookup: &Option<Instruction> = if at < lookups.len() {
            &lookups[at]
        } else {
            &unknown
        };
        proof {
            assert(*lookup == lookup_at(lookups@, at as int));
            if lookup is Some {
                lemma_overlaid_fits(builder.tokens(), bytes, at as int, lookup->0);
            }
        }
        if builder.apply(lookup).is_err() {
            return Err(PatternError::NoDisassemblyContext);
        }
    }
    match builder.finish() {
        Some(sig) => Ok(sig),
        None => Err(PatternError::NoDisassemblyContext),
    }
}

} // verus!
