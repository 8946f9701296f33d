//! Scans that can be taken up again: find the first occurrence now, the next one later.
//!
//! A scan owns the image it searches and the parsed signature, and remembers the offset
//! behind the last occurrence it reported. The match engine is handed what remains of the
//! image from that offset on, so a scan that is taken up again neither parses nor copies
//! anything anew. A registry keeps at most one scan for each binary, under the binary's key.

use std::collections::hash_map::DefaultHasher;
use std::collections::HashMap;
use std::hash::Hasher;
use vstd::prelude::*;
use vstd::slice::slice_subrange;
use vstd::std_specs::hash::*;
use crate::error::{ParseError, PatternError};
use crate::image::{all_readable, image_of, load_binary, Section};
use crate::signature::{has_literal, is_first_from, lemma_first_in_rest};

verus! {

/// The mathematical view of a scan: what the contracts of this module speak of.
pub struct ScanView<P> {
    /// The parsed signature.
    pub pattern: P,
    /// The image that is searched.
    pub image: Seq<u8>,
    /// The offset from which the search goes on.
    pub resume: nat,
}

/// A scan in progress: the image, the parsed signature, and where the search goes on.
///
/// `P` is the match engine's parsed form of a signature; this module only keeps it.
pub struct FindState<P> {
    pattern: P,
    data: Vec<u8>,
    resume: usize,
}

impl<P> View for FindState<P> {
    type V = ScanView<P>;

    closed spec fn view(&self) -> ScanView<P> {
        ScanView { pattern: self.pattern, image: self.data@, resume: self.resume as nat }
    }
}

impl<P> FindState<P> {
    #[verifier::type_invariant]
    spec fn inside_image(&self) -> bool {
        self.resume <= self.data@.len()
    }

    /// The parsed signature.
    pub fn pattern(&self) -> (pattern: &P)
        ensures
            *pattern == self@.pattern,
    {
        &self.pattern
    }

    /// The whole image.
    pub fn data(&self) -> (data: &Vec<u8>)
        ensures
            data@ == self@.image,
    {
        &self.data
    }

    /// The offset from which the search goes on.
    pub fn resume_from(&self) -> (from: usize)
        ensures
            from == self@.resume,
            from <= self@.image.len(),
    {
        proof {
            use_type_invariant(self);
        }
        self.resume
    }

    /// The part of the image that is still to be searched.
    pub fn remaining(&self) -> (rest: &[u8])
        ensures
            rest@ == self@.image.skip(self@.resume as int),
    {
        proof {
            use_type_invariant(self);
        }
        slice_subrange(self.data.as_slice(), self.resume, self.data.len())
    }

    /// Takes the engine's answer: `found` is the first offset at which the signature occurs
    /// in [`FindState::remaining`], or `None`.
    ///
    /// With an occurrence, gives its offset in the whole image and the scan moved behind
    /// it. Without one, or with an offset outside what remained, the scan ends in
    /// `NotFound`.
    pub fn advance(self, found: Option<usize>) -> (moved: Result<
        (usize, FindState<P>),
        PatternError,
    >)
        ensures
            match located(self@.resume, self@.image.len(), found) {
                Some(offset) => moved matches Ok((at, next)) && at == offset && next@
                    == (ScanView { resume: offset + 1, ..self@ }),
                None => moved matches Err(PatternError::NotFound),
            },
    {
        proof {
            use_type_invariant(&self);
        }
        let rel: usize = match found {
            Some(rel) => rel,
            None => {
                return Err(PatternError::NotFound);
            },
        };
        let left: usize = self.data.len() - self.resume;
        if rel >= left {
            return Err(PatternError::NotFound);
        }
        let offset: usize = self.resume + rel;
        Ok((offset, FindState { pattern: self.pattern, data: self.data, resume: offset + 1 }))
    }
}

/// A scan of `data` for `pattern` that has reported nothing yet.
pub fn create_state<P>(pattern: P, data: Vec<u8>) -> (state: FindState<P>)
    ensures
        state@ == (ScanView { pattern, image: data@, resume: 0 }),
{
    FindState { pattern, data, resume: 0 }
}

/// Prepares a scan from what the match engine made of the signature text, and from the
/// sections of the binary.
///
/// A rejected text is a `ParseError` of the engine's kind, and no section is looked at. A
/// section that cannot be placed is a `ReadError`. Otherwise the scan stands at offset 0 of
/// the image that the sections make.
pub fn find_pattern<P>(
    parsed: Result<P, ParseError>,
    base: u64,
    len: usize,
    sections: &Vec<Section>,
) -> (prepared: Result<FindState<P>, PatternError>)
    ensures
        match parsed {
            Err(e) => prepared matches Err(PatternError::ParseError(kind)) && kind == e,
            Ok(pattern) => if all_readable(sections@, base, len as int) {
                prepared matches Ok(state) && state@ == (ScanView {
                    pattern,
                    image: image_of(sections@, base, len as int),
                    resume: 0,
                })
            } else {
                prepared matches Err(PatternError::ReadError)
            },
        },
{
    let pattern = match parsed {
        Ok(pattern) => pattern,
        Err(e) => {
            return Err(PatternError::ParseError(e));
        },
    };
    match load_binary(base, len, sections) {
        Ok(data) => Ok(create_state(pattern, data)),
        Err(e) => Err(e),
    }
}

/// The address of the byte at `offset` of an image at `base`, where there is one.
pub fn jump_address(base: u64, offset: usize) -> (address: Option<u64>)
    ensures
        base + offset <= u64::MAX ==> address == Some((base + offset) as u64),
        base + offset > u64::MAX ==> address is None,
{
    if offset as u64 <= u64::MAX - base {
        Some(base + offset as u64)
    } else {
        None
    }
}

/// The key under which the scans of a binary are kept: the digest of what identifies the
/// binary, made by the standard hasher from one write of `identity`.
pub fn get_hash(identity: &[u8]) -> (key: u64)
    ensures
        key == DefaultHasher::spec_finish(seq![identity@]),
{
    let mut hasher = DefaultHasher::new();
    hasher.write(identity);
    assert(hasher@ =~= seq![identity@]);
    hasher.finish()
}

/// The absolute offset that an answer of the match engine stands for, where `resume` bytes
/// of an image of `len` bytes were left out of the search: `None` where the engine found
/// nothing, or named an offset outside what it was given.
pub open spec fn located(resume: nat, len: nat, found: Option<usize>) -> Option<nat> {
    match found {
        Some(rel) => if resume + rel < len {
            Some((resume + rel) as nat)
        } else {
            None
        },
        None => None,
    }
}

/// The scans kept after the engine's answer for `state` has been taken: with an occurrence,
/// `state` stands under `key`, moved behind that occurrence; without one, nothing changes.
pub open spec fn settled<P>(
    sessions: Map<u64, ScanView<P>>,
    key: u64,
    state: ScanView<P>,
    found: Option<usize>,
) -> Map<u64, ScanView<P>> {
    match located(state.resume, state.image.len(), found) {
        Some(offset) => sessions.insert(key, ScanView { resume: offset + 1, ..state }),
        None => sessions,
    }
}

/// What is reported after the engine's answer for `state`: the absolute offset of the
/// occurrence, or `NotFound`.
pub open spec fn reported<P>(state: ScanView<P>, found: Option<usize>) -> Result<
    usize,
    PatternError,
> {
    match located(state.resume, state.image.len(), found) {
        Some(offset) => Ok(offset as usize),
        None => Err(PatternError::NotFound),
    }
}

/// Starting the same scan again, with the same answer of the engine, reports the same
/// offset and leaves the same scans behind as starting it once.
pub proof fn lemma_start_is_idempotent<P>(
    sessions: Map<u64, ScanView<P>>,
    key: u64,
    state: ScanView<P>,
    found: Option<usize>,
)
    ensures
        settled(settled(sessions, key, state, found), key, state, found) == settled(
            sessions,
            key,
            state,
            found,
        ),
{
    let once = settled(sessions, key, state, found);
    assert(settled(once, key, state, found) =~= once);
}

/// Where the engine answers with the first occurrence in what remained of the image, the
/// offset reported is the first occurrence at or after the point where the scan stood, and
/// the scan goes on right behind it.
pub proof fn lemma_report_is_next_occurrence<P>(
    sessions: Map<u64, ScanView<P>>,
    key: u64,
    state: ScanView<P>,
    sig: Seq<Option<u8>>,
    rel: usize,
)
    requires
        has_literal(sig),
        state.resume <= state.image.len() <= usize::MAX,
        is_first_from(sig, state.image.skip(state.resume as int), 0, rel as int),
    ensures
        reported(state, Some(rel)) matches Ok(offset) && is_first_from(
            sig,
            state.image,
            state.resume as int,
            offset as int,
        ) && settled(sessions, key, state, Some(rel))[key].resume == offset + 1,
{
    lemma_first_in_rest(sig, state.image, state.resume as int, rel as int);
    let literal = choose|j: int| 0 <= j < sig.len() && (#[trigger] sig[j]) is Some;
    assert(state.resume + rel + sig.len() <= state.image.len());
    assert(located(state.resume, state.image.len(), Some(rel)) == Some(
        (state.resume + rel) as nat,
    ));
}

/// A scan that ends without an occurrence after it was taken out of the registry leaves no
/// scan behind under its key.
pub proof fn lemma_exhausted_scan_is_gone<P>(
    sessions: Map<u64, ScanView<P>>,
    key: u64,
    state: ScanView<P>,
)
    ensures
        !settled(sessions.remove(key), key, state, None).contains_key(key),
        reported(state, None) == Err::<usize, PatternError>(PatternError::NotFound),
{
}

/// The scans in progress, at most one for each key.
pub struct SessionRegistry<P> {
    sessions: HashMap<u64, FindState<P>>,
}

impl<P> View for SessionRegistry<P> {
    type V = Map<u64, ScanView<P>>;

    closed spec fn view(&self) -> Map<u64, ScanView<P>> {
        self.sessions@.map_values(|state: FindState<P>| state@)
    }
}

impl<P> SessionRegistry<P> {
    /// A registry without scans.
    pub fn new() -> (registry: SessionRegistry<P>)
        ensures
            registry@ == Map::<u64, ScanView<P>>::empty(),
    {
        let registry = SessionRegistry { sessions: HashMap::new() };
        assert(registry@ =~= Map::<u64, ScanView<P>>::empty());
        registry
    }

    /// Whether a scan is kept under `key`.
    pub fn contains(&self, key: u64) -> (kept: bool)
        ensures
            kept == self@.contains_key(key),
    {
        broadcast use group_hash_axioms;

        self.sessions.contains_key(&key)
    }
}

/// Takes the scan kept under `key` out of the registry, to go on with it. Fails with
/// `MissingSession`, and changes nothing, where none is kept.
pub fn find_next<P>(registry: &mut SessionRegistry<P>, key: u64) -> (taken: Result<
    FindState<P>,
    PatternError,
>)
    ensures
        final(registry)@ == old(registry)@.remove(key),
        old(registry)@.contains_key(key) ==> (taken matches Ok(state) && state@ == old(
            registry,
        )@[key]),
        !old(registry)@.contains_key(key) ==> taken matches Err(PatternError::MissingSession),
{
    broadcast use group_hash_axioms;

    let ghost before = registry.sessions@;
    let removed = registry.sessions.remove(&key);
    assert(registry.sessions@ == before.remove(key));
    assert(registry@ =~= old(registry)@.remove(key));
    match removed {
        Some(state) => Ok(state),
        None => Err(PatternError::MissingSession),
    }
}

/// Takes the engine's answer for `state`: `found` is the first offset at which the
/// signature occurs in `state.remaining()`, or `None`.
///
/// With an occurrence, `state` is kept under `key` in place of any scan kept there,
/// moved behind the occurrence, and the offset of the occurrence in the whole image is
/// reported. Without one, or with an offset outside what remained, `NotFound` is reported
/// and the registry stays as it was.
pub fn find_and_navigate<P>(
    registry: &mut SessionRegistry<P>,
    key: u64,
    state: FindState<P>,
    found: Option<usize>,
) -> (report: Result<usize, PatternError>)
    ensures
        final(registry)@ == settled(old(registry)@, key, state@, found),
        report == reported(state@, found),
{
    broadcast use group_hash_axioms;

    match state.advance(found) {
        Ok((offset, moved)) => {
            let ghost before = registry.sessions@;
            registry.sessions.insert(key, moved);
            assert(registry.sessions@ == before.insert(key, moved));
            assert(registry@ =~= settled(old(registry)@, key, state@, found));
            Ok(offset)
        },
        Err(e) => Err(e),
    }
}

} // verus!
