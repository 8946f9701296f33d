use binja_patterns::{
    create_state, find_and_navigate, find_next, find_pattern, get_hash, jump_address, FindState,
    ParseError, PatternError, Section, SessionRegistry, Signature,
};
use std::collections::hash_map::DefaultHasher;
use std::hash::Hasher;

/// Stands in for the match engine: the first offset at which `sig` occurs in `rest`.
fn first_in(sig: &Signature, rest: &[u8]) -> Option<usize> {
    (0..rest.len()).find(|at| sig.occurs_at(rest, *at))
}

fn signature(tokens: Vec<Option<u8>>) -> Signature {
    Signature::from_tokens(tokens).unwrap()
}

fn start_scan(
    registry: &mut SessionRegistry<Signature>,
    key: u64,
    tokens: Vec<Option<u8>>,
    image: &[u8],
) -> Result<usize, PatternError> {
    let end = 0x1000 + image.len() as u64;
    let sections = vec![Section { start: 0x1000, end, bytes: image.to_vec() }];
    let state = find_pattern(Ok(signature(tokens)), 0x1000, image.len(), &sections)?;
    let found = first_in(state.pattern(), state.remaining());
    find_and_navigate(registry, key, state, found)
}

fn resume_scan(registry: &mut SessionRegistry<Signature>, key: u64) -> Result<usize, PatternError> {
    let state = find_next(registry, key)?;
    let found = first_in(state.pattern(), state.remaining());
    find_and_navigate(registry, key, state, found)
}

#[test]
fn new_state_stands_at_the_start() {
    let state: FindState<u8> = create_state(7, vec![1, 2, 3]);
    assert_eq!(*state.pattern(), 7);
    assert_eq!(state.data(), &vec![1, 2, 3]);
    assert_eq!(state.resume_from(), 0);
    assert_eq!(state.remaining(), &[1, 2, 3]);
}

#[test]
fn state_over_empty_image() {
    let state: FindState<u8> = create_state(0, vec![]);
    assert_eq!(state.resume_from(), 0);
    assert!(state.remaining().is_empty());
}

#[test]
fn rejected_text_prepares_nothing() {
    let sections = vec![Section { start: 0, end: 9, bytes: vec![] }];
    let kinds =
        [ParseError::TooLong, ParseError::InvalidHex, ParseError::NoAnchorByte, ParseError::Other];
    for kind in kinds {
        let prepared = find_pattern::<Signature>(Err(kind), 0, 4, &sections);
        assert_eq!(prepared.err(), Some(PatternError::ParseError(kind)));
    }
}

#[test]
fn unreadable_section_prepares_nothing() {
    let sections = vec![Section { start: 0x10, end: 0x14, bytes: vec![1, 2] }];
    let prepared = find_pattern(Ok(0u8), 0x10, 8, &sections);
    assert_eq!(prepared.err(), Some(PatternError::ReadError));
}

#[test]
fn prepared_scan_holds_the_image_of_the_sections() {
    let sections = vec![Section { start: 0x12, end: 0x14, bytes: vec![0xaa, 0xbb] }];
    let state = find_pattern(Ok(5u8), 0x10, 6, &sections).unwrap();
    assert_eq!(state.data(), &vec![0, 0, 0xaa, 0xbb, 0, 0]);
    assert_eq!(state.resume_from(), 0);
    assert_eq!(*state.pattern(), 5);
}

#[test]
fn start_scan_finds_first_then_resume_finds_nothing() {
    let image = [0xaau8, 0xbb, 0xcc, 0xdd, 0xee];
    let mut registry = SessionRegistry::new();
    let key = 11;
    let first = start_scan(&mut registry, key, vec![Some(0xaa), None, Some(0xcc)], &image);
    assert_eq!(first, Ok(0));
    assert!(registry.contains(key));
    let next = resume_scan(&mut registry, key);
    assert_eq!(next, Err(PatternError::NotFound));
    assert!(!registry.contains(key));
}

#[test]
fn two_resumes_report_second_match_then_not_found() {
    let image = [0x01u8, 0x02, 0x00, 0x01, 0x02, 0x00];
    let mut registry = SessionRegistry::new();
    let key = 5;
    assert_eq!(start_scan(&mut registry, key, vec![Some(0x01), Some(0x02)], &image), Ok(0));
    assert_eq!(resume_scan(&mut registry, key), Ok(3));
    assert_eq!(resume_scan(&mut registry, key), Err(PatternError::NotFound));
    assert!(!registry.contains(key));
    assert_eq!(resume_scan(&mut registry, key), Err(PatternError::MissingSession));
}

#[test]
fn start_scan_is_idempotent() {
    let image = [0x00u8, 0x07, 0x07, 0x00, 0x07];
    let mut registry = SessionRegistry::new();
    let key = 3;
    assert_eq!(start_scan(&mut registry, key, vec![Some(0x07)], &image), Ok(1));
    assert_eq!(start_scan(&mut registry, key, vec![Some(0x07)], &image), Ok(1));
    assert_eq!(resume_scan(&mut registry, key), Ok(2));
    assert_eq!(start_scan(&mut registry, key, vec![Some(0x07)], &image), Ok(1));
    assert_eq!(resume_scan(&mut registry, key), Ok(2));
    assert_eq!(resume_scan(&mut registry, key), Ok(4));
    assert_eq!(resume_scan(&mut registry, key), Err(PatternError::NotFound));
}

#[test]
fn overlapping_occurrences_are_all_reported() {
    let image = [0x05u8, 0x05, 0x05, 0x05];
    let mut registry = SessionRegistry::new();
    assert_eq!(start_scan(&mut registry, 1, vec![Some(0x05), Some(0x05)], &image), Ok(0));
    assert_eq!(resume_scan(&mut registry, 1), Ok(1));
    assert_eq!(resume_scan(&mut registry, 1), Ok(2));
    assert_eq!(resume_scan(&mut registry, 1), Err(PatternError::NotFound));
}

#[test]
fn scan_without_occurrence_stores_nothing() {
    let image = [0x01u8, 0x02, 0x03];
    let mut registry = SessionRegistry::new();
    assert_eq!(
        start_scan(&mut registry, 9, vec![Some(0x04)], &image),
        Err(PatternError::NotFound)
    );
    assert!(!registry.contains(9));
}

#[test]
fn failed_start_keeps_the_scan_in_progress() {
    let image = [0x01u8, 0x02, 0x01];
    let mut registry = SessionRegistry::new();
    assert_eq!(start_scan(&mut registry, 9, vec![Some(0x01)], &image), Ok(0));
    assert_eq!(
        start_scan(&mut registry, 9, vec![Some(0x04)], &image),
        Err(PatternError::NotFound)
    );
    assert!(registry.contains(9));
    assert_eq!(resume_scan(&mut registry, 9), Ok(2));
}

#[test]
fn resume_without_start_is_a_missing_session() {
    let mut registry: SessionRegistry<Signature> = SessionRegistry::new();
    assert_eq!(find_next(&mut registry, 1).err(), Some(PatternError::MissingSession));
    assert!(!registry.contains(1));
}

#[test]
fn binaries_keep_their_own_scans() {
    let one = [0x01u8, 0x00, 0x01];
    let other = [0x00u8, 0x00, 0x01, 0x01];
    let mut registry = SessionRegistry::new();
    assert_eq!(start_scan(&mut registry, 1, vec![Some(0x01)], &one), Ok(0));
    assert_eq!(start_scan(&mut registry, 2, vec![Some(0x01)], &other), Ok(2));
    assert_eq!(resume_scan(&mut registry, 1), Ok(2));
    assert_eq!(resume_scan(&mut registry, 2), Ok(3));
    assert_eq!(resume_scan(&mut registry, 1), Err(PatternError::NotFound));
    assert!(!registry.contains(1));
    assert!(registry.contains(2));
}

#[test]
fn taken_scan_is_out_of_the_registry() {
    let mut registry = SessionRegistry::new();
    let state = create_state(0u8, vec![9, 9, 9]);
    assert_eq!(find_and_navigate(&mut registry, 4, state, Some(1)), Ok(1));
    let taken = find_next(&mut registry, 4).unwrap();
    assert!(!registry.contains(4));
    assert_eq!(taken.resume_from(), 2);
    assert_eq!(taken.remaining(), &[9]);
    assert_eq!(taken.data(), &vec![9, 9, 9]);
}

#[test]
fn reported_offset_counts_from_the_start_of_the_image() {
    let mut registry = SessionRegistry::new();
    let state = create_state(0u8, vec![0; 10]);
    assert_eq!(find_and_navigate(&mut registry, 4, state, Some(3)), Ok(3));
    let state = find_next(&mut registry, 4).unwrap();
    assert_eq!(state.resume_from(), 4);
    assert_eq!(find_and_navigate(&mut registry, 4, state, Some(2)), Ok(6));
    let state = find_next(&mut registry, 4).unwrap();
    assert_eq!(state.resume_from(), 7);
    assert_eq!(find_and_navigate(&mut registry, 4, state, Some(2)), Ok(9));
    let state = find_next(&mut registry, 4).unwrap();
    assert_eq!(state.resume_from(), 10);
    assert!(state.remaining().is_empty());
    assert_eq!(find_and_navigate(&mut registry, 4, state, None), Err(PatternError::NotFound));
    assert!(!registry.contains(4));
}

#[test]
fn offset_outside_what_remained_is_not_found() {
    let mut registry = SessionRegistry::new();
    let state = create_state(0u8, vec![0; 4]);
    assert_eq!(find_and_navigate(&mut registry, 4, state, Some(4)), Err(PatternError::NotFound));
    assert!(!registry.contains(4));
    let state = create_state(0u8, vec![0; 4]);
    assert_eq!(
        find_and_navigate(&mut registry, 4, state, Some(usize::MAX)),
        Err(PatternError::NotFound)
    );
    let state = create_state(0u8, vec![]);
    assert_eq!(find_and_navigate(&mut registry, 4, state, Some(0)), Err(PatternError::NotFound));
    assert!(!registry.contains(4));
}

#[test]
fn advance_moves_behind_the_occurrence() {
    let state = create_state(0u8, vec![1, 2, 3, 4, 5]);
    let (at, state) = state.advance(Some(1)).ok().unwrap();
    assert_eq!(at, 1);
    assert_eq!(state.resume_from(), 2);
    assert_eq!(state.remaining(), &[3, 4, 5]);
    let (at, state) = state.advance(Some(2)).ok().unwrap();
    assert_eq!(at, 4);
    assert_eq!(state.resume_from(), 5);
    assert!(state.remaining().is_empty());
    assert_eq!(state.advance(Some(0)).err(), Some(PatternError::NotFound));
}

#[test]
fn advance_without_occurrence_ends_the_scan() {
    let state = create_state(0u8, vec![1, 2, 3]);
    assert_eq!(state.advance(None).err(), Some(PatternError::NotFound));
    let state = create_state(0u8, vec![1, 2, 3]);
    assert_eq!(state.advance(Some(3)).err(), Some(PatternError::NotFound));
}

#[test]
fn advance_lists_every_occurrence_once() {
    let image = vec![7u8, 0, 7, 7, 0, 0, 7];
    let sig = signature(vec![Some(7)]);
    let mut state = create_state(sig, image);
    let mut seen = Vec::new();
    loop {
        let found = first_in(state.pattern(), state.remaining());
        match state.advance(found) {
            Ok((at, next)) => {
                seen.push(at);
                state = next;
            }
            Err(e) => {
                assert_eq!(e, PatternError::NotFound);
                break;
            }
        }
    }
    assert_eq!(seen, vec![0, 2, 3, 6]);
}

#[test]
fn jump_address_adds_offset_to_base() {
    assert_eq!(jump_address(0x400000, 0x1234), Some(0x401234));
    assert_eq!(jump_address(0, 0), Some(0));
    assert_eq!(jump_address(u64::MAX - 1, 1), Some(u64::MAX));
}

#[test]
fn jump_address_beyond_the_address_space_is_none() {
    assert_eq!(jump_address(u64::MAX, 1), None);
    assert_eq!(jump_address(u64::MAX - 1, 2), None);
}

#[test]
fn key_is_the_standard_digest_of_the_identity() {
    let identity = 0x7f00_dead_beefu64.to_ne_bytes();
    let mut hasher = DefaultHasher::new();
    hasher.write(&identity);
    assert_eq!(get_hash(&identity), hasher.finish());
}

#[test]
fn key_depends_on_the_identity_only() {
    let one = 1u64.to_ne_bytes();
    let two = 2u64.to_ne_bytes();
    assert_eq!(get_hash(&one), get_hash(&one));
    assert_ne!(get_hash(&one), get_hash(&two));
    assert_ne!(get_hash(&one), get_hash(&[]));
}
