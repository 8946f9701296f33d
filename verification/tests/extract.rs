use binja_patterns::{instruction_pattern, wildcard_start, ConstantReference, Signature};

fn plain(value: i64) -> ConstantReference {
    ConstantReference { is_pointer_sized: false, value }
}

fn pointer(value: i64) -> ConstantReference {
    ConstantReference { is_pointer_sized: true, value }
}

#[test]
fn no_references_keep_every_byte() {
    let bytes = [0x48u8, 0x89, 0xe5];
    let tokens = instruction_pattern(&bytes, &vec![]);
    assert_eq!(tokens, vec![Some(0x48), Some(0x89), Some(0xe5)]);
    assert_eq!(wildcard_start(&bytes, &vec![]), 3);
}

#[test]
fn empty_instruction_has_no_tokens() {
    let bytes: [u8; 0] = [];
    assert_eq!(instruction_pattern(&bytes, &vec![]), vec![]);
    assert_eq!(instruction_pattern(&bytes, &vec![plain(0), pointer(0)]), vec![]);
}

#[test]
fn load_immediate_wildcards_trailing_word() {
    let bytes = [0xb8u8, 0x78, 0x56, 0x34, 0x12];
    let tokens = instruction_pattern(&bytes, &vec![plain(0x12345678)]);
    assert_eq!(tokens, vec![Some(0xb8), None, None, None, None]);
    let sig = Signature::from_tokens(tokens).unwrap();
    assert_eq!(sig.text(), "b8 ? ? ? ?");
}

#[test]
fn trailing_byte_reference_wildcards_one_byte() {
    let bytes = [0x83u8, 0xc0, 0x10];
    let tokens = instruction_pattern(&bytes, &vec![plain(0x10)]);
    assert_eq!(tokens, vec![Some(0x83), Some(0xc0), None]);
}

#[test]
fn trailing_byte_is_read_signed() {
    let bytes = [0x83u8, 0xc0, 0xff];
    assert_eq!(wildcard_start(&bytes, &vec![plain(-1)]), 2);
    assert_eq!(wildcard_start(&bytes, &vec![plain(255)]), 3);
    let low = [0x6au8, 0x80];
    assert_eq!(wildcard_start(&low, &vec![plain(-128)]), 1);
    let high = [0x6au8, 0x7f];
    assert_eq!(wildcard_start(&high, &vec![plain(127)]), 1);
}

#[test]
fn trailing_word_is_read_signed_little_endian() {
    let bytes = [0xe8u8, 0xfe, 0xff, 0xff, 0xff];
    assert_eq!(wildcard_start(&bytes, &vec![plain(-2)]), 1);
    assert_eq!(wildcard_start(&bytes, &vec![plain(0xffff_fffe)]), 5);
    let least = [0x68u8, 0x00, 0x00, 0x00, 0x80];
    assert_eq!(wildcard_start(&least, &vec![plain(-2147483648)]), 1);
    let most = [0x68u8, 0xff, 0xff, 0xff, 0x7f];
    assert_eq!(wildcard_start(&most, &vec![plain(2147483647)]), 1);
}

#[test]
fn byte_match_goes_before_word_match() {
    let bytes = [0x68u8, 0xff, 0xff, 0xff, 0xff];
    let tokens = instruction_pattern(&bytes, &vec![plain(-1)]);
    assert_eq!(tokens, vec![Some(0x68), Some(0xff), Some(0xff), Some(0xff), None]);
}

#[test]
fn reference_that_is_not_found_is_skipped() {
    let bytes = [0xb8u8, 0x78, 0x56, 0x34, 0x12];
    let tokens = instruction_pattern(&bytes, &vec![plain(0x1234)]);
    assert_eq!(tokens, vec![Some(0xb8), Some(0x78), Some(0x56), Some(0x34), Some(0x12)]);
}

#[test]
fn word_needs_four_bytes() {
    let bytes = [0x56u8, 0x34, 0x12];
    assert_eq!(wildcard_start(&bytes, &vec![plain(0x123456)]), 3);
}

#[test]
fn pointer_reference_takes_four_bytes_unseen() {
    let bytes = [0xa1u8, 0x01, 0x02, 0x03, 0x04, 0x05];
    let tokens = instruction_pattern(&bytes, &vec![pointer(0x7777)]);
    assert_eq!(tokens, vec![Some(0xa1), Some(0x01), None, None, None, None]);
}

#[test]
fn pointer_reference_takes_what_is_left() {
    let bytes = [0xa1u8, 0x01, 0x02];
    let tokens = instruction_pattern(&bytes, &vec![pointer(0)]);
    assert_eq!(tokens, vec![None, None, None]);
    assert_eq!(wildcard_start(&bytes, &vec![pointer(0), pointer(0)]), 0);
}

#[test]
fn references_are_taken_in_order_from_the_end() {
    // c7 45 f8 | 2a 00 00 00 : the displacement -8 stands before the immediate 42.
    let bytes = [0xc7u8, 0x45, 0xf8, 0x2a, 0x00, 0x00, 0x00];
    assert_eq!(wildcard_start(&bytes, &vec![plain(42), plain(-8)]), 2);
    // In the other order the displacement is looked for at the very end and not found.
    assert_eq!(wildcard_start(&bytes, &vec![plain(-8), plain(42)]), 3);
}

#[test]
fn second_reference_looks_in_front_of_the_first() {
    let bytes = [0x69u8, 0xc0, 0x05, 0x05];
    let tokens = instruction_pattern(&bytes, &vec![plain(5), plain(5)]);
    assert_eq!(tokens, vec![Some(0x69), Some(0xc0), None, None]);
}
