//! Signatures: what they are, where they occur in an image, and how they are written down.
//!
//! A token is an `Option<u8>`: `Some(b)` stands for the literal byte `b`, `None` for a
//! wildcard that accepts any byte. A signature is a sequence of at most [`MAX_TOKENS`] tokens.

use vstd::prelude::*;
use vstd::string::StringExecFns;

verus! {

/// The most tokens a signature may hold.
pub const MAX_TOKENS: usize = 64;

/// Whether `token` accepts `byte` at its position.
pub open spec fn token_accepts(token: Option<u8>, byte: u8) -> bool {
    match token {
        Some(b) => b == byte,
        None => true,
    }
}

/// Whether `sig` occurs in `image` at offset `at`: it lies inside the image and each of its
/// tokens accepts the byte under it.
pub open spec fn matches_at(sig: Seq<Option<u8>>, image: Seq<u8>, at: int) -> bool {
    &&& 0 <= at
    &&& at + sig.len() <= image.len()
    &&& forall|j: int| 0 <= j < sig.len() ==> token_accepts(#[trigger] sig[j], image[at + j])
}

/// Whether `sig` holds a literal byte. A signature without one cannot be searched for.
pub open spec fn has_literal(sig: Seq<Option<u8>>) -> bool {
    exists|j: int| 0 <= j < sig.len() && (#[trigger] sig[j]) is Some
}

/// Whether `sig` occurs in `image` at no more than one offset.
pub open spec fn occurs_at_most_once(sig: Seq<Option<u8>>, image: Seq<u8>) -> bool {
    forall|a: int, b: int|
        #[trigger] matches_at(sig, image, a) && #[trigger] matches_at(sig, image, b) ==> a == b
}

/// Whether `sig` identifies a place in `image`: it can be searched for, and the search ends
/// with at most one offset.
pub open spec fn is_unique(sig: Seq<Option<u8>>, image: Seq<u8>) -> bool {
    &&& sig.len() <= MAX_TOKENS
    &&& has_literal(sig)
    &&& occurs_at_most_once(sig, image)
}

/// Whether `at` is the first offset from `from` on at which `sig` occurs in `image`.
pub open spec fn is_first_from(sig: Seq<Option<u8>>, image: Seq<u8>, from: int, at: int) -> bool {
    &&& from <= at
    &&& matches_at(sig, image, at)
    &&& forall|p: int| from <= p < at ==> !#[trigger] matches_at(sig, image, p)
}

/// The sixteen lower-case hexadecimal digits, in order.
pub open spec fn hex_digits() -> Seq<char> {
    seq!['0', '1', '2', '3', '4', '5', '6', '7', '8', '9', 'a', 'b', 'c', 'd', 'e', 'f']
}

/// How one token is written: two hexadecimal digits for a literal, `?` for a wildcard.
pub open spec fn token_text(token: Option<u8>) -> Seq<char> {
    match token {
        Some(b) => seq![hex_digits()[b as int / 16], hex_digits()[b as int % 16]],
        None => seq!['?'],
    }
}

/// How a signature is written: its tokens in order, with one space between neighbours.
pub open spec fn signature_text(sig: Seq<Option<u8>>) -> Seq<char>
    decreases sig.len(),
{
    if sig.len() == 0 {
        Seq::empty()
    } else if sig.len() == 1 {
        token_text(sig[0])
    } else {
        signature_text(sig.drop_last()) + seq![' '] + token_text(sig.last())
    }
}

/// A signature that occurs at an offset occurs there with every one of its prefixes.
pub proof fn lemma_prefix_occurs(sig: Seq<Option<u8>>, image: Seq<u8>, at: int, n: int)
    requires
        0 <= n <= sig.len(),
        matches_at(sig, image, at),
    ensures
        matches_at(sig.take(n), image, at),
{
    let prefix = sig.take(n);
    assert forall|j: int| 0 <= j < prefix.len() implies token_accepts(
        #[trigger] prefix[j],
        image[at + j],
    ) by {
        assert(prefix[j] == sig[j]);
    }
}

/// Searching the part of an image from `from` on finds the occurrences at or after `from`,
/// each reported `from` bytes lower.
pub proof fn lemma_occurs_in_rest(sig: Seq<Option<u8>>, image: Seq<u8>, from: int, at: int)
    requires
        0 <= from <= image.len(),
    ensures
        matches_at(sig, image.skip(from), at) <==> matches_at(sig, image, from + at) && 0 <= at,
{
    let rest = image.skip(from);
    if matches_at(sig, rest, at) {
        assert forall|j: int| 0 <= j < sig.len() implies token_accepts(
            #[trigger] sig[j],
            image[from + at + j],
        ) by {
            assert(rest[at + j] == image[from + at + j]);
        }
    }
    if matches_at(sig, image, from + at) && 0 <= at {
        assert forall|j: int| 0 <= j < sig.len() implies token_accepts(
            #[trigger] sig[j],
            rest[at + j],
        ) by {
            assert(rest[at + j] == image[from + at + j]);
        }
    }
}

/// Lengthening a unique prefix keeps it unique.
pub proof fn lemma_longer_prefix_stays_unique(
    sig: Seq<Option<u8>>,
    image: Seq<u8>,
    n: int,
    m: int,
)
    requires
        0 <= n <= m <= sig.len() <= MAX_TOKENS,
        is_unique(sig.take(n), image),
    ensures
        is_unique(sig.take(m), image),
{
    let short = sig.take(n);
    let long = sig.take(m);
    let j = choose|j: int| 0 <= j < short.len() && (#[trigger] short[j]) is Some;
    assert(long[j] == short[j]);
    assert forall|a: int, b: int| #[trigger]
        matches_at(long, image, a) && #[trigger] matches_at(long, image, b) implies a == b by {
        assert(long.take(n) == short);
        lemma_prefix_occurs(long, image, a, n);
        lemma_prefix_occurs(long, image, b, n);
    }
}

/// A unique prefix of a signature occurs exactly where the whole signature occurs.
pub proof fn lemma_unique_prefix_keeps_offset(
    sig: Seq<Option<u8>>,
    image: Seq<u8>,
    n: int,
    at: int,
)
    requires
        0 <= n <= sig.len(),
        matches_at(sig, image, at),
        occurs_at_most_once(sig.take(n), image),
    ensures
        forall|p: int| #[trigger] matches_at(sig.take(n), image, p) <==> p == at,
{
    lemma_prefix_occurs(sig, image, at, n);
}

/// A signature and an image have one first occurrence at most: searching again finds the
/// same offset.
pub proof fn lemma_first_is_determined(
    sig: Seq<Option<u8>>,
    image: Seq<u8>,
    from: int,
    a: int,
    b: int,
)
    requires
        is_first_from(sig, image, from, a),
        is_first_from(sig, image, from, b),
    ensures
        a == b,
{
}

/// The first occurrence in the part of an image from `from` on is the first occurrence in
/// the image at or after `from`, reported `from` bytes lower.
pub proof fn lemma_first_in_rest(sig: Seq<Option<u8>>, image: Seq<u8>, from: int, rel: int)
    requires
        0 <= from <= image.len(),
    ensures
        is_first_from(sig, image.skip(from), 0, rel) <==> is_first_from(
            sig,
            image,
            from,
            from + rel,
        ),
{
    let rest = image.skip(from);
    lemma_occurs_in_rest(sig, image, from, rel);
    if is_first_from(sig, rest, 0, rel) {
        assert forall|p: int| from <= p < from + rel implies !#[trigger] matches_at(
            sig,
            image,
            p,
        ) by {
            lemma_occurs_in_rest(sig, image, from, p - from);
            assert(!matches_at(sig, rest, p - from));
        }
    }
    if is_first_from(sig, image, from, from + rel) {
        assert forall|q: int| 0 <= q < rel implies !#[trigger] matches_at(sig, rest, q) by {
            lemma_occurs_in_rest(sig, image, from, q);
            assert(!matches_at(sig, image, from + q));
        }
    }
}

/// A search that goes on behind an occurrence finds a later one, and skips none.
pub proof fn lemma_next_is_later(sig: Seq<Option<u8>>, image: Seq<u8>, at: int, next: int)
    requires
        is_first_from(sig, image, at + 1, next),
    ensures
        at < next,
        forall|p: int| at < p < next ==> !#[trigger] matches_at(sig, image, p),
{
}

/// A sequence of at most [`MAX_TOKENS`] tokens.
pub struct Signature {
    tokens: Vec<Option<u8>>,
}

impl View for Signature {
    type V = Seq<Option<u8>>;

    closed spec fn view(&self) -> Seq<Option<u8>> {
        self.tokens@
    }
}

impl Signature {
    #[verifier::type_invariant]
    spec fn within_limit(&self) -> bool {
        self.tokens@.len() <= MAX_TOKENS
    }

    /// Makes a signature of `tokens`, unless there are too many of them.
    pub fn from_tokens(tokens: Vec<Option<u8>>) -> (made: Option<Signature>)
        ensures
            made is Some <==> tokens@.len() <= MAX_TOKENS,
            made matches Some(sig) ==> sig@ == tokens@,
    {
        if tokens.len() <= MAX_TOKENS {
            Some(Signature { tokens })
        } else {
            None
        }
    }

    /// The number of tokens.
    pub fn len(&self) -> (n: usize)
        ensures
            n == self@.len(),
            n <= MAX_TOKENS,
    {
        proof {
            use_type_invariant(self);
        }
        self.tokens.len()
    }

    /// The tokens in order.
    pub fn tokens(&self) -> (tokens: &Vec<Option<u8>>)
        ensures
            tokens@ == self@,
            tokens@.len() <= MAX_TOKENS,
    {
        proof {
            use_type_invariant(self);
        }
        &self.tokens
    }

    /// The first `n` tokens, or all of them where there are fewer.
    pub fn prefix(&self, n: usize) -> (head: Signature)
        ensures
            head@ == self@.take(if n <= self@.len() { n as int } else { self@.len() as int }),
    {
        proof {
            use_type_invariant(self);
        }
        let total: usize = self.tokens.len();
        let keep: usize = if n <= total { n } else { total };
        let mut tokens: Vec<Option<u8>> = Vec::new();
        let mut i: usize = 0;
        while i < keep
            invariant
                i <= keep <= total,
                total == self.tokens@.len(),
                tokens@ == self.tokens@.take(i as int),
            decreases keep - i,
        {
            tokens.push(self.tokens[i]);
            assert(self.tokens@.take(i + 1) == self.tokens@.take(i as int).push(
                self.tokens@[i as int],
            ));
            i += 1;
        }
        Signature { tokens }
    }

    /// Whether the signature occurs in `image` at offset `at`.
    pub fn occurs_at(&self, image: &[u8], at: usize) -> (occurs: bool)
        ensures
            occurs == matches_at(self@, image@, at as int),
    {
        let total: usize = self.tokens.len();
        let size: usize = image.len();
        if at > size || total > size - at {
            return false;
        }
        let mut j: usize = 0;
        while j < total
            invariant
                j <= total,
                total == self.tokens@.len(),
                size == image@.len(),
                at + total <= size,
                forall|k: int|
                    0 <= k < j ==> token_accepts(#[trigger] self.tokens@[k], image@[at + k]),
            decreases total - j,
        {
            match self.tokens[j] {
                Some(b) => {
                    if image[at + j] != b {
                        assert(!token_accepts(self.tokens@[j as int], image@[at + j]));
                        return false;
                    }
                },
                None => {},
            }
            j += 1;
        }
        true
    }

    /// The signature as text.
    pub fn text(&self) -> (out: String)
        ensures
            out@ == signature_text(self@),
    {
        let total: usize = self.tokens.len();
        let mut out = String::new();
        let mut i: usize = 0;
        while i < total
            invariant
                i <= total,
                total == self.tokens@.len(),
                out@ == signature_text(self.tokens@.take(i as int)),
            decreases total - i,
        {
            let ghost before = out@;
            let ghost head = self.tokens@.take(i + 1);
            if i > 0 {
                out.append(" ");
            }
            match self.tokens[i] {
                Some(b) => {
                    out.append(hex_digit_str(b / 16));
                    out.append(hex_digit_str(b % 16));
                },
                None => {
                    out.append("?");
                },
            }
            proof {
                reveal_strlit(" ");
                reveal_strlit("?");
                assert(head.drop_last() == self.tokens@.take(i as int));
                assert(head.last() == self.tokens@[i as int]);
                if i == 0 {
                    assert(before + token_text(head.last()) == token_text(head[0]));
                } else {
                    assert(out@ == before + seq![' '] + token_text(head.last()));
                }
            }
            i += 1;
        }
        assert(self.tokens@.take(total as int) == self.tokens@);
        out
    }
}

/// One hexadecimal digit as text.
fn hex_digit_str(n: u8) -> (digit: &'static str)
    requires
        n < 16,
    ensures
        digit@ == seq![hex_digits()[n as int]],
{
    proof {
        reveal_strlit("0");
        reveal_strlit("1");
        reveal_strlit("2");
        reveal_strlit("3");
        reveal_strlit("4");
        reveal_strlit("5");
        reveal_strlit("6");
        reveal_strlit("7");
        reveal_strlit("8");
        reveal_strlit("9");
        reveal_strlit("a");
        reveal_strlit("b");
        reveal_strlit("c");
        reveal_strlit("d");
        reveal_strlit("e");
        reveal_strlit("f");
    }
    let digit = if n == 0 {
        "0"
    } else if n == 1 {
        "1"
    } else if n == 2 {
        "2"
    } else if n == 3 {
        "3"
    } else if n == 4 {
        "4"
    } else if n == 5 {
        "5"
    } else if n == 6 {
        "6"
    } else if n == 7 {
        "7"
    } else if n == 8 {
        "8"
    } else if n == 9 {
        "9"
    } else if n == 10 {
        "a"
    } else if n == 11 {
        "b"
    } else if n == 12 {
        "c"
    } else if n == 13 {
        "d"
    } else if n == 14 {
        "e"
    } else {
        "f"
    };
    assert(digit@ =~= seq![hex_digits()[n as int]]);
    digit
}

} // verus!
