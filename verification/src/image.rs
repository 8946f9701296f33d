//! The flat image of a binary that signatures are searched in.
//!
//! The image has one byte for each address from the binary's base on. The bytes of every
//! section stand at the section's distance from the base; what no section covers is zero.

use vstd::prelude::*;
use crate::error::PatternError;

verus! {

/// A section of the binary with the bytes that were read from it.
#[derive(Clone, Debug)]
pub struct Section {
    /// The address of its first byte.
    pub start: u64,
    /// The address behind its last byte.
    pub end: u64,
    /// What the read of `[start, end)` brought.
    pub bytes: Vec<u8>,
}

/// Whether `section` lies inside an image of `len` bytes at `base` and was read in full.
pub open spec fn readable(section: Section, base: u64, len: int) -> bool {
    &&& base <= section.start <= section.end
    &&& section.end - base <= len
    &&& section.bytes@.len() == section.end - section.start
}

/// Whether every one of `sections` is readable.
pub open spec fn all_readable(sections: Seq<Section>, base: u64, len: int) -> bool {
    forall|k: int| 0 <= k < sections.len() ==> readable(#[trigger] sections[k], base, len)
}

/// Whether `section` holds the byte at offset `i` of the image.
pub open spec fn covers(section: Section, base: u64, i: int) -> bool {
    section.start - base <= i < section.end - base
}

/// The byte at offset `i` of the image: that of the last section that covers it, or zero
/// where none does.
pub open spec fn image_byte(sections: Seq<Section>, base: u64, i: int) -> u8
    decreases sections.len(),
{
    if sections.len() == 0 {
        0
    } else if covers(sections.last(), base, i) {
        sections.last().bytes@[i - (sections.last().start - base)]
    } else {
        image_byte(sections.drop_last(), base, i)
    }
}

/// The image of `len` bytes at `base` that `sections` make.
pub open spec fn image_of(sections: Seq<Section>, base: u64, len: int) -> Seq<u8> {
    Seq::new(len as nat, |i: int| image_byte(sections, base, i))
}

/// Offsets that no section covers are zero in the image.
pub proof fn lemma_gaps_are_zero(sections: Seq<Section>, base: u64, i: int)
    requires
        forall|k: int| 0 <= k < sections.len() ==> !covers(#[trigger] sections[k], base, i),
    ensures
        image_byte(sections, base, i) == 0,
    decreases sections.len(),
{
    if sections.len() > 0 {
        assert(!covers(sections[sections.len() - 1], base, i));
        lemma_gaps_are_zero(sections.drop_last(), base, i);
    }
}

/// Copies `bytes` into `image` from offset `at` on.
fn place(image: &mut Vec<u8>, at: usize, bytes: &Vec<u8>)
    requires
        at + bytes@.len() <= old(image)@.len(),
    ensures
        final(image)@.len() == old(image)@.len(),
        forall|i: int|
            0 <= i < old(image)@.len() ==> #[trigger] final(image)@[i] == (if at <= i < at
                + bytes@.len() {
                bytes@[i - at]
            } else {
                old(image)@[i]
            }),
{
    let size: usize = image.len();
    let count: usize = bytes.len();
    let mut j: usize = 0;
    while j < count
        invariant
            j <= count,
            count == bytes@.len(),
            image@.len() == old(image)@.len(),
            image@.len() == size,
            at + count <= size,
            forall|i: int|
                0 <= i < image@.len() ==> #[trigger] image@[i] == (if at <= i < at + j {
                    bytes@[i - at]
                } else {
                    old(image)@[i]
                }),
        decreases count - j,
    {
        image.set(at + j, bytes[j]);
        j += 1;
    }
}

/// Builds the image of `len` bytes at `base` from `sections`.
///
/// Fails with `ReadError` where a section does not lie inside the image or was not read
/// in full.
pub fn load_binary(base: u64, len: usize, sections: &Vec<Section>) -> (loaded: Result<
    Vec<u8>,
    PatternError,
>)
    ensures
        all_readable(sections@, base, len as int) ==> (loaded matches Ok(image) && image@
            == image_of(sections@, base, len as int)),
        !all_readable(sections@, base, len as int) ==> loaded matches Err(
            PatternError::ReadError,
        ),
{
    let mut image: Vec<u8> = vec![0u8; len];
    let mut k: usize = 0;
    assert(image@ =~= image_of(sections@.take(0), base, len as int));
    while k < sections.len()
        invariant
            k <= sections@.len(),
            image@.len() == len,
            all_readable(sections@.take(k as int), base, len as int),
            image@ == image_of(sections@.take(k as int), base, len as int),
        decreases sections@.len() - k,
    {
        let section = &sections[k];
        if !(base <= section.start && section.start <= section.end && section.end - base
            <= len as u64 && section.bytes.len() as u64 == section.end - section.start) {
            assert(!readable(sections@[k as int], base, len as int));
            return Err(PatternError::ReadError);
        }
        let at: usize = (section.start - base) as usize;
        place(&mut image, at, &section.bytes);
        proof {
            let seen = sections@.take(k + 1);
            assert(seen.drop_last() == sections@.take(k as int));
            assert(seen.last() == sections@[k as int]);
            assert forall|n: int| 0 <= n < seen.len() implies readable(
                #[trigger] seen[n],
                base,
                len as int,
            ) by {
                if n < k {
                    assert(sections@.take(k as int)[n] == seen[n]);
                }
            }
            assert(image@ =~= image_of(seen, base, len as int));
        }
        k += 1;
    }
    assert(sections@.take(k as int) == sections@);
    Ok(image)
}

} // verus!
