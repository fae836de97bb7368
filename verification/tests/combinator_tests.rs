use parse_pdms_db::parser::combinator::{
    align_to_8, align_to_word, extend_impl_len, find_non_padding, is_marker, remaining_bytes,
    safe_slice, skip_padding, starts_with_padding, take_bytes, take_impl_block, verify_flag,
    ParseFailure, PADDING_SEVEN, PADDING_ZERO,
};

#[test]
fn test_extend_impl_len() {
    let input = [
        0x00, 0x00, 0x00, 0x01, // one data word
        0x00, 0x00, 0x00, 0x00, // padding
        0x00, 0x00, 0x00, 0x07, // padding
        0x00, 0x00, 0x00, 0x02, // data
    ];
    let actual = extend_impl_len(4, &input);
    assert_eq!(actual, 12);
}

#[test]
fn test_skip_padding() {
    let input = [0x00, 0x00, 0x00, 0x00, 0x00, 0x00, 0x00, 0x07, 0x00, 0x00, 0x00, 0x01];
    let rest = skip_padding(&input);
    assert_eq!(rest, &[0x00, 0x00, 0x00, 0x01]);
}

#[test]
fn test_starts_with_padding() {
    assert!(starts_with_padding(&PADDING_ZERO));
    assert!(starts_with_padding(&PADDING_SEVEN));
    assert!(!starts_with_padding(&[0x00, 0x00, 0x00, 0x01]));
    assert!(!starts_with_padding(&[0x00, 0x00]));
}

#[test]
fn test_verify_flag() {
    let input = [0x00, 0x02, 0x00, 0x10];
    let (rest, flag) = verify_flag(&input, 0x0002).unwrap();
    assert_eq!(flag, 2);
    assert_eq!(rest, &[0x00, 0x10]);

    let result = verify_flag(&input, 0x0003);
    assert!(result.is_err());
}

#[test]
fn test_align_to_word() {
    assert_eq!(align_to_word(0), 0);
    assert_eq!(align_to_word(1), 4);
    assert_eq!(align_to_word(4), 4);
    assert_eq!(align_to_word(5), 8);
}

#[test]
fn test_align_to_8() {
    assert_eq!(align_to_8(0), 0);
    assert_eq!(align_to_8(1), 8);
    assert_eq!(align_to_8(8), 8);
    assert_eq!(align_to_8(9), 16);
}

#[test]
fn test_safe_slice() {
    let input = [1, 2, 3, 4, 5];
    assert_eq!(safe_slice(&input, 0, 3), Some(&[1, 2, 3][..]));
    assert_eq!(safe_slice(&input, 2, 5), Some(&[3, 4, 5][..]));
    assert_eq!(safe_slice(&input, 0, 6), None);
    assert_eq!(safe_slice(&input, 3, 2), None);
}

#[test]
fn test_find_non_padding() {
    let input = [0x00, 0x00, 0x00, 0x00, 0x00, 0x00, 0x00, 0x07, 0x00, 0x00, 0x00, 0x01];
    assert_eq!(find_non_padding(&input), 8);

    let input2 = [0x00, 0x00, 0x00, 0x01];
    assert_eq!(find_non_padding(&input2), 0);
}

#[test]
fn padding_only_input_is_skipped_entirely() {
    let input = [0, 0, 0, 7, 0, 0, 0, 0, 0, 0];
    assert_eq!(find_non_padding(&input), 8);
    assert_eq!(skip_padding(&input), &[0, 0]);
    assert_eq!(skip_padding(skip_padding(&input)), &[0, 0]);
    assert_eq!(extend_impl_len(0, &input), 8);
    assert_eq!(extend_impl_len(20, &input), 20);
}

#[test]
fn extend_is_idempotent() {
    let input = [0, 0, 0, 1, 0, 0, 0, 0, 0, 0, 0, 9];
    let once = extend_impl_len(4, &input);
    assert_eq!(once, 8);
    assert_eq!(extend_impl_len(once, &input), once);
}

#[test]
fn verify_flag_short_input() {
    assert_eq!(verify_flag(&[0x00], 1), Err(ParseFailure::Eof));
    assert_eq!(verify_flag(&[0x00, 0x01], 2), Err(ParseFailure::Tag));
}

#[test]
fn take_bytes_splits() {
    let input = [1, 2, 3, 4, 5];
    let (rest, taken) = take_bytes(2, &input).unwrap();
    assert_eq!(taken, &[1, 2]);
    assert_eq!(rest, &[3, 4, 5]);
    assert_eq!(take_bytes(6, &input), Err(ParseFailure::Eof));
    let (rest, taken) = take_bytes(5, &input).unwrap();
    assert_eq!(taken, &input[..]);
    assert!(rest.is_empty());
}

#[test]
fn take_impl_block_extends_over_padding() {
    let input = [0, 0, 0, 2, 0xAA, 0xBB, 0xCC, 0xDD, 0, 0, 0, 7, 0, 0, 0, 5];
    let (rest, block) = take_impl_block(&input).unwrap();
    assert_eq!(block, &[0xAA, 0xBB, 0xCC, 0xDD, 0, 0, 0, 7]);
    assert_eq!(rest, &[0, 0, 0, 5]);
    let (rest, block) = take_impl_block(&[0, 0, 0, 0, 1, 2, 3, 4]).unwrap();
    assert!(block.is_empty());
    assert_eq!(rest, &[1, 2, 3, 4]);
    assert_eq!(take_impl_block(&[0, 0, 0, 9, 1, 2]), Err(ParseFailure::Eof));
    assert_eq!(take_impl_block(&[0, 0]), Err(ParseFailure::Eof));
}

#[test]
fn marker_and_remaining() {
    assert!(is_marker(&[0, 0, 0, 7, 1], &PADDING_SEVEN));
    assert!(!is_marker(&[0, 0, 0], &PADDING_ZERO));
    assert!(!is_marker(&[0, 0, 1, 0], &PADDING_ZERO));
    assert_eq!(remaining_bytes(&[1, 2, 3], 1), 2);
    assert_eq!(remaining_bytes(&[1, 2, 3], 3), 0);
    assert_eq!(remaining_bytes(&[1, 2, 3], 9), 0);
}
