use objstore::digits::{parse_dec, u64_to_dec};
use objstore::framer::{encode_header, parse_header, parse_object, Kind};
use objstore::Error;

#[test]
fn header_is_rendered_exactly() {
    assert_eq!(encode_header(Kind::Blob, 1234).as_slice(), b"blob 1234\0");
    assert_eq!(encode_header(Kind::Blob, 0).as_slice(), b"blob 0\0");
    assert_eq!(
        encode_header(Kind::Blob, u64::MAX).as_slice(),
        b"blob 18446744073709551615\0"
    );
}

#[test]
fn frame_round_trips_through_the_parser() {
    let mut frame = encode_header(Kind::Blob, 6);
    frame.extend_from_slice(b"hello\n");
    let payload = parse_object(frame.as_slice()).unwrap();
    assert_eq!(payload.as_slice(), b"hello\n");
}

#[test]
fn payload_may_contain_nul_bytes() {
    let frame = b"blob 5\0a\0b\0c";
    let payload = parse_object(frame).unwrap();
    assert_eq!(payload.as_slice(), b"a\0b\0c");
}

#[test]
fn missing_nul_is_a_framing_error() {
    assert_eq!(parse_object(b"blob 6 hello!"), Err(Error::Framing));
    assert_eq!(parse_object(b""), Err(Error::Framing));
}

#[test]
fn missing_space_is_a_framing_error() {
    assert_eq!(parse_object(b"blob6\0abcdef"), Err(Error::Framing));
}

#[test]
fn unknown_kind_token_is_a_framing_error() {
    assert_eq!(parse_object(b"tree 3\0abc"), Err(Error::Framing));
    assert_eq!(parse_object(b"bl0b 3\0abc"), Err(Error::Framing));
}

#[test]
fn non_numeric_length_is_a_framing_error() {
    assert_eq!(parse_object(b"blob x\0abc"), Err(Error::Framing));
    assert_eq!(parse_object(b"blob \0abc"), Err(Error::Framing));
    assert_eq!(parse_object(b"blob 1 2\0abc"), Err(Error::Framing));
    assert_eq!(parse_object(b"blob -1\0a"), Err(Error::Framing));
}

#[test]
fn oversized_length_numeral_is_a_framing_error() {
    // One past u64::MAX.
    assert_eq!(
        parse_object(b"blob 18446744073709551616\0abc"),
        Err(Error::Framing)
    );
}

#[test]
fn declared_length_must_match_the_payload() {
    assert_eq!(parse_object(b"blob 3\0hello\n"), Err(Error::SizeMismatch));
    assert_eq!(parse_object(b"blob 9\0hello\n"), Err(Error::SizeMismatch));
    assert_eq!(parse_object(b"blob 1\0"), Err(Error::SizeMismatch));
}

#[test]
fn empty_payload_frame_round_trips() {
    let payload = parse_object(b"blob 0\0").unwrap();
    assert_eq!(payload.len(), 0);
}

#[test]
fn leading_zeros_in_the_length_are_accepted() {
    let payload = parse_object(b"blob 006\0hello\n").unwrap();
    assert_eq!(payload.as_slice(), b"hello\n");
    let (_, len, end) = parse_header(b"blob 006\0hello\n").unwrap();
    assert_eq!(len, 6);
    assert_eq!(end, 9);
}

#[test]
fn numerals_render_and_parse_back() {
    assert_eq!(u64_to_dec(0).as_slice(), b"0");
    assert_eq!(u64_to_dec(10).as_slice(), b"10");
    assert_eq!(u64_to_dec(9876543210).as_slice(), b"9876543210");
    assert_eq!(
        u64_to_dec(u64::MAX).as_slice(),
        b"18446744073709551615"
    );
    assert_eq!(parse_dec(b"0"), Some(0));
    assert_eq!(parse_dec(b"007"), Some(7));
    assert_eq!(parse_dec(b"18446744073709551615"), Some(u64::MAX));
    assert_eq!(parse_dec(b"18446744073709551616"), None);
    assert_eq!(parse_dec(b""), None);
    assert_eq!(parse_dec(b"12a"), None);
}

#[test]
fn head_file_content() {
    assert_eq!(objstore::bootstrap::head_content(), "ref: refs/heads/main\n");
}
