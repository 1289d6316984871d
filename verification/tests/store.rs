use objstore::framer::Kind;
use objstore::store::{address_fanout, get_object, put_object};
use objstore::Error;

const HELLO_ADDRESS: &[u8] = b"ce013625030ba8dba906f756967f9e9ca394464a";

#[test]
fn hello_address_and_round_trip() {
    let (address, stored) = put_object(b"hello\n");
    assert_eq!(address.as_slice(), HELLO_ADDRESS);
    let payload = get_object(stored.as_slice()).unwrap();
    assert_eq!(payload.as_slice(), b"hello\n");
}

#[test]
fn round_trip_empty_payload() {
    let (address, stored) = put_object(b"");
    assert_eq!(address.len(), 40);
    let payload = get_object(stored.as_slice()).unwrap();
    assert_eq!(payload.len(), 0);
}

#[test]
fn round_trip_binary_payload() {
    let mut input: Vec<u8> = Vec::new();
    for i in 0..512usize {
        input.push((i % 256) as u8);
    }
    let (_, stored) = put_object(input.as_slice());
    let payload = get_object(stored.as_slice()).unwrap();
    assert_eq!(payload, input);
}

#[test]
fn round_trip_large_payload() {
    let mut input: Vec<u8> = Vec::new();
    for i in 0..200_000usize {
        input.push((i * 31 % 251) as u8);
    }
    let (address, stored) = put_object(input.as_slice());
    assert_eq!(address.len(), 40);
    let payload = get_object(stored.as_slice()).unwrap();
    assert_eq!(payload, input);
}

#[test]
fn put_is_deterministic() {
    let (a1, s1) = put_object(b"some payload bytes");
    let (a2, s2) = put_object(b"some payload bytes");
    assert_eq!(a1, a2);
    assert_eq!(s1, s2);
}

#[test]
fn distinct_payloads_distinct_addresses() {
    let (a1, _) = put_object(b"payload one");
    let (a2, _) = put_object(b"payload two");
    assert_ne!(a1, a2);
}

#[test]
fn idempotent_storage_same_path() {
    let (a1, s1) = put_object(b"hello\n");
    let (a2, s2) = put_object(b"hello\n");
    assert_eq!(a1, a2);
    assert_eq!(s1, s2);
    let p1 = address_fanout(a1.as_slice()).unwrap();
    let p2 = address_fanout(a2.as_slice()).unwrap();
    assert_eq!(p1, p2);
}

#[test]
fn fanout_splits_a_valid_address() {
    let (dir, file) = address_fanout(HELLO_ADDRESS).unwrap();
    assert_eq!(dir.as_slice(), b"ce");
    assert_eq!(file.as_slice(), b"013625030ba8dba906f756967f9e9ca394464a");
}

#[test]
fn fanout_rejects_malformed_addresses() {
    assert_eq!(address_fanout(b""), Err(Error::Argument));
    assert_eq!(
        address_fanout(b"e965047ad7c57865823c7d992b1d046ea66edf7"),
        Err(Error::Argument)
    );
    assert_eq!(
        address_fanout(b"E965047AD7C57865823C7D992B1D046EA66EDF78"),
        Err(Error::Argument)
    );
    assert_eq!(
        address_fanout(b"g965047ad7c57865823c7d992b1d046ea66edf78"),
        Err(Error::Argument)
    );
}

#[test]
fn get_rejects_bytes_that_are_not_compressed() {
    assert_eq!(get_object(b"definitely not zlib data"), Err(Error::Codec));
    assert_eq!(get_object(b""), Err(Error::Codec));
}

#[test]
fn stored_bytes_are_really_compressed() {
    // A compressible payload must come out smaller than its frame, and
    // must match what the codec's own encoder produces for the frame.
    let input = [97u8; 4096];
    let (_, stored) = put_object(&input);
    assert!(stored.len() < 4096);

    let mut frame: Vec<u8> = Vec::new();
    frame.extend_from_slice(b"blob 4096\0");
    frame.extend_from_slice(&input);
    let mut encoder =
        flate2::write::ZlibEncoder::new(Vec::new(), flate2::Compression::default());
    std::io::Write::write_all(&mut encoder, frame.as_slice()).unwrap();
    let reference = encoder.finish().unwrap();
    assert_eq!(stored, reference);
}

#[test]
fn corrupted_length_field_is_a_size_mismatch() {
    // The frame declares fewer bytes than it carries; retrieval must
    // refuse it rather than silently truncate.
    let mut encoder =
        flate2::write::ZlibEncoder::new(Vec::new(), flate2::Compression::default());
    std::io::Write::write_all(&mut encoder, b"blob 3\0hello\n").unwrap();
    let stored = encoder.finish().unwrap();
    assert_eq!(get_object(stored.as_slice()), Err(Error::SizeMismatch));
}

#[test]
fn oversized_length_field_is_a_size_mismatch() {
    let mut encoder =
        flate2::write::ZlibEncoder::new(Vec::new(), flate2::Compression::default());
    std::io::Write::write_all(&mut encoder, b"blob 100\0hello\n").unwrap();
    let stored = encoder.finish().unwrap();
    assert_eq!(get_object(stored.as_slice()), Err(Error::SizeMismatch));
}

#[test]
fn unknown_kind_is_a_framing_error() {
    let mut encoder =
        flate2::write::ZlibEncoder::new(Vec::new(), flate2::Compression::default());
    std::io::Write::write_all(&mut encoder, b"tree 6\0hello\n").unwrap();
    let stored = encoder.finish().unwrap();
    assert_eq!(get_object(stored.as_slice()), Err(Error::Framing));
}

#[test]
fn kind_is_blob() {
    let data = b"blob 6\0hello\n";
    let (kind, len, end) = objstore::framer::parse_header(data).unwrap();
    assert_eq!(kind, Kind::Blob);
    assert_eq!(len, 6);
    assert_eq!(end, 7);
}
