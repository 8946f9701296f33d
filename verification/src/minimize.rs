//! Finding out whether a signature is unique, and shortening it while it stays so.
//!
//! A shorter signature survives more changes between builds of a binary, but one that is
//! too short occurs in many places. Whether a prefix is unique is the match engine's to
//! find out; [`Minimizer`] chooses the prefixes to ask about, by bisection between a length
//! known to be too short and a length known to be unique. Each question costs a search of
//! the whole image, so none is asked beforehand: [`shortest_unique_prefix`] asks through a
//! function of the caller's as the bisection goes.

use vstd::prelude::*;
use crate::error::{ParseError, PatternError};
use crate::signature::{
    has_literal,
    is_unique,
    lemma_longer_prefix_stays_unique,
    lemma_unique_prefix_keeps_offset,
    matches_at,
};

verus! {

/// The number of offsets after which a probe stops listening to the match engine: whether
/// a signature occurs twice or a hundred times makes no difference.
pub const PROBE_LIMIT: usize = 2;

/// What the match engine said of one signature text: how many offsets it reported before
/// the probe stopped listening, or why it rejected the text.
pub type Probe = Result<usize, ParseError>;

/// Whether a probe shows its signature to be unique: the text was accepted and at most one
/// offset reported.
pub open spec fn probe_is_unique(probe: Probe) -> bool {
    probe matches Ok(count) && count <= 1
}

/// The failure that a probe stands for, where it does not show uniqueness.
pub open spec fn probe_failure(probe: Probe) -> PatternError {
    match probe {
        Ok(_) => PatternError::AmbiguousSignature,
        Err(e) => PatternError::ParseError(e),
    }
}

/// The length halfway between `lo` and `hi`, nearer to `lo`.
pub open spec fn midpoint(lo: int, hi: int) -> int {
    lo + (hi - lo) / 2
}

/// The bounds after one answer for the length halfway between them: a unique prefix becomes
/// the upper bound, any other the lower bound. Neighbouring bounds stay.
pub open spec fn bisect(lo: int, hi: int, unique: bool) -> (int, int) {
    if hi - lo <= 1 {
        (lo, hi)
    } else if unique {
        (lo, midpoint(lo, hi))
    } else {
        (midpoint(lo, hi), hi)
    }
}

/// The length that bisection between `lo` and `hi` ends with, where `unique` tells of each
/// length whether the prefix of that length is unique.
pub open spec fn narrowed(lo: int, hi: int, unique: spec_fn(int) -> bool) -> int
    decreases hi - lo,
{
    if hi - lo <= 1 {
        hi
    } else {
        let bounds = bisect(lo, hi, unique(midpoint(lo, hi)));
        narrowed(bounds.0, bounds.1, unique)
    }
}

/// Bisection that starts with a unique upper bound ends with a unique length above the
/// lower bound, whose predecessor is the lower bound or not unique.
pub proof fn lemma_narrowed(lo: int, hi: int, unique: spec_fn(int) -> bool)
    requires
        lo < hi,
        unique(hi),
    ensures
        lo < narrowed(lo, hi, unique) <= hi,
        unique(narrowed(lo, hi, unique)),
        narrowed(lo, hi, unique) - 1 == lo || !unique(narrowed(lo, hi, unique) - 1),
    decreases hi - lo,
{
    if hi - lo > 1 {
        let mid = midpoint(lo, hi);
        if unique(mid) {
            lemma_narrowed(lo, mid, unique);
        } else {
            lemma_narrowed(mid, hi, unique);
        }
    }
}

/// One step of bisection with a true answer leaves the length that the bisection ends with
/// as it was; with neighbouring bounds that length is the upper bound.
pub proof fn lemma_narrowed_step(lo: int, hi: int, unique: spec_fn(int) -> bool)
    ensures
        narrowed(lo, hi, unique) == narrowed(
            bisect(lo, hi, unique(midpoint(lo, hi))).0,
            bisect(lo, hi, unique(midpoint(lo, hi))).1,
            unique,
        ),
        hi - lo <= 1 ==> narrowed(lo, hi, unique) == hi,
{
}

/// Shortening a unique signature by bisection, with an engine that answers truly, gives
/// its shortest unique prefix. That prefix is no longer than the signature, not empty, and
/// occurs in the image exactly where the signature does.
pub proof fn lemma_shortest_unique_prefix(sig: Seq<Option<u8>>, image: Seq<u8>)
    requires
        is_unique(sig, image),
    ensures
        ({
            let shortest = narrowed(
                0,
                sig.len() as int,
                |n: int| is_unique(sig.take(n), image),
            );
            &&& 0 < shortest <= sig.len()
            &&& is_unique(sig.take(shortest), image)
            &&& forall|n: int| 0 <= n < shortest ==> !is_unique(#[trigger] sig.take(n), image)
            &&& forall|at: int| #[trigger]
                matches_at(sig, image, at) ==> forall|p: int| #[trigger]
                    matches_at(sig.take(shortest), image, p) <==> p == at
        }),
{
    let total = sig.len() as int;
    let unique = |n: int| is_unique(sig.take(n), image);
    assert(sig.take(total) == sig);
    assert(total > 0) by {
        let j = choose|j: int| 0 <= j < sig.len() && (#[trigger] sig[j]) is Some;
    }
    assert(unique(total));
    lemma_narrowed(0, total, unique);
    let shortest = narrowed(0, total, unique);
    assert forall|n: int| 0 <= n < shortest implies !is_unique(
        #[trigger] sig.take(n),
        image,
    ) by {
        if is_unique(sig.take(n), image) {
            assert(has_literal(sig.take(n)));
            assert(n > 0);
            lemma_longer_prefix_stays_unique(sig, image, n, shortest - 1);
            assert(unique(shortest - 1));
        }
    }
    assert forall|at: int| #[trigger] matches_at(sig, image, at) implies forall|p: int| #[trigger]
        matches_at(sig.take(shortest), image, p) <==> p == at by {
        lemma_unique_prefix_keeps_offset(sig, image, shortest, at);
    }
}

/// Whether a probe shows its signature to be unique.
pub fn verify_unique(probe: &Probe) -> (unique: bool)
    ensures
        unique == probe_is_unique(*probe),
{
    match probe {
        Ok(count) => *count <= 1,
        Err(_) => false,
    }
}

/// The bisection for the shortest unique prefix of a signature.
///
/// The upper bound is a length whose prefix is known to be unique; the lower bound is a
/// length whose prefix is not, or the empty prefix. There is no other way to one than
/// [`Minimizer::start`], so none exists for a signature that was not found unique.
pub struct Minimizer {
    total: usize,
    lower: usize,
    upper: usize,
}

impl Minimizer {
    #[verifier::type_invariant]
    spec fn ordered(&self) -> bool {
        self.lower <= self.upper <= self.total
    }

    /// The length of the whole signature.
    pub closed spec fn total(&self) -> int {
        self.total as int
    }

    /// The greatest length known not to be unique, or zero.
    pub closed spec fn lower(&self) -> int {
        self.lower as int
    }

    /// The least length known to be unique.
    pub closed spec fn upper(&self) -> int {
        self.upper as int
    }

    /// Whether a length lies strictly between the bounds.
    pub open spec fn is_open(&self) -> bool {
        self.upper() - self.lower() > 1
    }

    /// Starts the bisection for a signature of `total` tokens, of which `full` is the
    /// engine's answer. Where that answer does not show the signature to be unique, there
    /// is nothing to shorten: more than one occurrence is an `AmbiguousSignature`, a
    /// rejected text a `ParseError`.
    pub fn start(total: usize, full: &Probe) -> (made: Result<Minimizer, PatternError>)
        ensures
            made is Ok <==> probe_is_unique(*full),
            made matches Ok(minimizer) ==> minimizer.total() == total && minimizer.lower() == 0
                && minimizer.upper() == total,
            made matches Err(e) ==> e == probe_failure(*full),
    {
        match full {
            Ok(count) => {
                if *count <= 1 {
                    Ok(Minimizer { total, lower: 0, upper: total })
                } else {
                    Err(PatternError::AmbiguousSignature)
                }
            },
            Err(e) => Err(PatternError::ParseError(*e)),
        }
    }

    /// The length of the prefix to ask the engine about next, or `None` once the bounds are
    /// neighbours.
    pub fn pending(&self) -> (next: Option<usize>)
        ensures
            self.is_open() ==> next == Some(midpoint(self.lower(), self.upper()) as usize),
            !self.is_open() ==> next is None,
            next matches Some(n) ==> self.lower() < n < self.upper(),
    {
        proof {
            use_type_invariant(self);
        }
        if self.upper - self.lower > 1 {
            Some(self.lower + (self.upper - self.lower) / 2)
        } else {
            None
        }
    }

    /// Takes the engine's answer for the pending length: a unique prefix becomes the upper
    /// bound, any other the lower bound. With nothing pending nothing changes.
    pub fn narrow(&mut self, answer: &Probe)
        ensures
            final(self).total() == old(self).total(),
            (final(self).lower(), final(self).upper()) == bisect(
                old(self).lower(),
                old(self).upper(),
                probe_is_unique(*answer),
            ),
    {
        proof {
            use_type_invariant(&*self);
        }
        if self.upper - self.lower > 1 {
            let mid: usize = self.lower + (self.upper - self.lower) / 2;
            if verify_unique(answer) {
                self.upper = mid;
            } else {
                self.lower = mid;
            }
        }
    }

    /// The shortest length known to be unique.
    pub fn shortest(&self) -> (len: usize)
        ensures
            len == self.upper(),
            len <= self.total(),
    {
        proof {
            use_type_invariant(self);
        }
        self.upper
    }

    /// Ends the bisection. `recheck` is the engine's answer for the prefix of length
    /// [`Minimizer::shortest`], asked once more: the length is reported only if that answer
    /// shows the prefix to be unique.
    pub fn finish(self, recheck: &Probe) -> (chosen: Result<usize, PatternError>)
        ensures
            chosen is Ok <==> probe_is_unique(*recheck),
            probe_is_unique(*recheck) ==> chosen == Ok::<usize, PatternError>(
                self.upper() as usize,
            ),
            !probe_is_unique(*recheck) ==> chosen == Err::<usize, PatternError>(
                probe_failure(*recheck),
            ),
            chosen matches Ok(len) ==> len <= self.total(),
    {
        proof {
            use_type_invariant(&self);
        }
        match recheck {
            Ok(count) => {
                if *count <= 1 {
                    Ok(self.upper)
                } else {
                    Err(PatternError::AmbiguousSignature)
                }
            },
            Err(e) => Err(PatternError::ParseError(*e)),
        }
    }
}

/// Whether `ask` answers for every length as `unique` says: its answer shows the prefix of
/// a length to be unique exactly where `unique` holds of that length.
pub open spec fn answers_as<F: Fn(usize) -> Probe>(ask: F, unique: spec_fn(int) -> bool) -> bool {
    forall|n: usize, answer: Probe| #[trigger]
        call_ensures(ask, (n,), answer) ==> probe_is_unique(answer) == unique(n as int)
}

/// The length of the shortest unique prefix of a signature of `total` tokens, where `ask`
/// puts the prefix of a given length to the match engine.
///
/// The whole signature is asked about first, and nothing more where it is not unique. Then
/// the bounds are bisected until they are neighbours, and the length found is asked about
/// once more before it is reported.
pub fn shortest_unique_prefix<F: Fn(usize) -> Probe>(total: usize, ask: F) -> (chosen: Result<
    usize,
    PatternError,
>)
    requires
        forall|n: usize| n <= total ==> call_requires(ask, (n,)),
    ensures
        chosen matches Ok(len) ==> len <= total && exists|answer: Probe|
            call_ensures(ask, (len,), answer) && probe_is_unique(answer),
        chosen matches Err(e) ==> exists|n: usize, answer: Probe|
            n <= total && call_ensures(ask, (n,), answer) && !probe_is_unique(answer) && e
                == probe_failure(answer),
        forall|unique: spec_fn(int) -> bool| #[trigger]
            answers_as(ask, unique) ==> (chosen is Ok <==> unique(total as int)) && (
            chosen matches Ok(len) ==> len == narrowed(0, total as int, unique)),
{
    let full = ask(total);
    let mut minimizer = match Minimizer::start(total, &full) {
        Ok(minimizer) => minimizer,
        Err(e) => {
            return Err(e);
        },
    };
    loop
        invariant
            forall|n: usize| n <= total ==> call_requires(ask, (n,)),
            minimizer.total() == total,
            0 <= minimizer.lower() <= minimizer.upper() <= total,
            forall|unique: spec_fn(int) -> bool| #[trigger]
                answers_as(ask, unique) ==> unique(total as int) && unique(minimizer.upper())
                    && narrowed(minimizer.lower(), minimizer.upper(), unique) == narrowed(
                    0,
                    total as int,
                    unique,
                ),
        ensures
            !minimizer.is_open(),
        decreases minimizer.upper() - minimizer.lower(),
    {
        let len: usize = match minimizer.pending() {
            Some(len) => len,
            None => {
                break;
            },
        };
        let ghost lo = minimizer.lower();
        let ghost hi = minimizer.upper();
        let answer = ask(len);
        minimizer.narrow(&answer);
        assert forall|unique: spec_fn(int) -> bool| #[trigger]
            answers_as(ask, unique) implies unique(total as int) && unique(minimizer.upper())
            && narrowed(minimizer.lower(), minimizer.upper(), unique) == narrowed(
            0,
            total as int,
            unique,
        ) by {
            assert(probe_is_unique(answer) == unique(len as int));
            lemma_narrowed_step(lo, hi, unique);
        }
    }
    let shortest: usize = minimizer.shortest();
    let recheck = ask(shortest);
    let ghost upper = minimizer.upper();
    let ghost lower = minimizer.lower();
    proof {
        assert forall|unique: spec_fn(int) -> bool| #[trigger]
            answers_as(ask, unique) implies probe_is_unique(recheck) && shortest == narrowed(
            0,
            total as int,
            unique,
        ) by {
            lemma_narrowed_step(lower, upper, unique);
        }
    }
    minimizer.finish(&recheck)
}

} // verus!
