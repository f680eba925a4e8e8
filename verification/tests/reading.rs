use bytes::BytesMut;
use primitive_archiver::codec::compress;
use primitive_archiver::format::{next_frame, write_record, Frame, ReadError, Stop};
use primitive_archiver::Unarchiver;

fn read_all(input: &[u8]) -> (Unarchiver, BytesMut, Result<Stop, ReadError>) {
    let mut bytes = BytesMut::from(input);
    let mut unarchiver = Unarchiver::new();
    let outcome = unarchiver.read(&mut bytes);
    (unarchiver, bytes, outcome)
}

#[test]
fn one_byte_is_too_short_for_a_name_length() {
    let (unarchiver, rest, outcome) = read_all(&[5]);
    assert_eq!(outcome, Ok(Stop::ShortNameLength));
    assert!(unarchiver.files.is_empty());
    assert_eq!(&rest[..], &[5]);
}

#[test]
fn name_cut_short_stops_the_reading() {
    let (unarchiver, rest, outcome) = read_all(&[5, 0, b'a', b'b']);
    assert_eq!(outcome, Ok(Stop::ShortName));
    assert!(unarchiver.files.is_empty());
    assert_eq!(&rest[..], b"ab");
}

#[test]
fn payload_length_cut_short_stops_the_reading() {
    let (unarchiver, rest, outcome) = read_all(&[2, 0, b'a', b'b', 1, 0, 0]);
    assert_eq!(outcome, Ok(Stop::ShortContentLength));
    assert!(unarchiver.files.is_empty());
    assert_eq!(&rest[..], &[1, 0, 0]);
}

#[test]
fn payload_cut_short_stops_the_reading() {
    let (unarchiver, rest, outcome) = read_all(&[2, 0, b'a', b'b', 4, 0, 0, 0, 9, 9, 9]);
    assert_eq!(outcome, Ok(Stop::ShortContent));
    assert!(unarchiver.files.is_empty());
    assert_eq!(&rest[..], &[9, 9, 9]);
}

#[test]
fn payload_that_does_not_inflate_stops_the_reading() {
    let (unarchiver, rest, outcome) =
        read_all(&[2, 0, b'a', b'b', 3, 0, 0, 0, 0xff, 0xff, 0xff, 7, 7]);
    assert_eq!(outcome, Ok(Stop::BadContent));
    assert!(unarchiver.files.is_empty());
    assert_eq!(&rest[..], &[7, 7]);
}

#[test]
fn empty_payload_does_not_inflate() {
    let (unarchiver, rest, outcome) = read_all(&[1, 0, b'a', 0, 0, 0, 0]);
    assert_eq!(outcome, Ok(Stop::BadContent));
    assert!(unarchiver.files.is_empty());
    assert!(rest.is_empty());
}

#[test]
fn name_that_is_not_utf8_fails_the_reading() {
    let (unarchiver, rest, outcome) = read_all(&[2, 0, 0xc3, 0x28, 1, 0, 0, 0, 0]);
    assert_eq!(outcome, Err(ReadError::InvalidName));
    assert!(unarchiver.files.is_empty());
    assert_eq!(&rest[..], &[1, 0, 0, 0, 0]);
}

#[test]
fn bad_name_is_found_before_a_missing_payload_length() {
    let (_, rest, outcome) = read_all(&[1, 0, 0x80]);
    assert_eq!(outcome, Err(ReadError::InvalidName));
    assert!(rest.is_empty());
}

#[test]
fn overlong_and_surrogate_names_are_not_utf8() {
    let (_, _, overlong) = read_all(&[2, 0, 0xc0, 0x80, 0, 0, 0, 0]);
    assert_eq!(overlong, Err(ReadError::InvalidName));
    let (_, _, surrogate) = read_all(&[3, 0, 0xed, 0xa0, 0x80, 0, 0, 0, 0]);
    assert_eq!(surrogate, Err(ReadError::InvalidName));
    let (_, _, cut) = read_all(&[2, 0, 0xe6, 0x97, 0, 0, 0, 0]);
    assert_eq!(cut, Err(ReadError::InvalidName));
}

#[test]
fn bytes_after_the_last_record_stay_unread() {
    let payload = compress(b"content").unwrap();
    let mut input = BytesMut::new();
    write_record(&mut input, "name", &payload);
    input.extend_from_slice(&[1]);
    let mut unarchiver = Unarchiver::new();
    let outcome = unarchiver.read(&mut input);
    assert_eq!(outcome, Ok(Stop::ShortNameLength));
    assert_eq!(unarchiver.files.len(), 1);
    assert_eq!(unarchiver.files[0].name, "name");
    assert_eq!(unarchiver.files[0].content, b"content".to_vec());
    assert_eq!(&input[..], &[1]);
}

#[test]
fn payload_with_bytes_after_its_stream_does_not_inflate() {
    let mut payload = compress(b"content").unwrap();
    payload.push(0);
    let mut input = BytesMut::new();
    write_record(&mut input, "name", &payload);
    let mut unarchiver = Unarchiver::new();
    let outcome = unarchiver.read(&mut input);
    assert_eq!(outcome, Ok(Stop::BadContent));
    assert!(unarchiver.files.is_empty());
    assert!(input.is_empty());
}

#[test]
fn next_frame_takes_one_record_and_leaves_the_rest() {
    let mut input = BytesMut::from(&[2, 0, b'h', b'i', 3, 0, 0, 0, 9, 8, 7, 1, 0, b'x'][..]);
    match next_frame(&mut input) {
        Ok(Frame::Record { name, payload }) => {
            assert_eq!(name, "hi");
            assert_eq!(&payload[..], &[9, 8, 7]);
        }
        other => panic!("no record: {:?}", other),
    }
    assert_eq!(&input[..], &[1, 0, b'x']);
}

#[test]
fn next_frame_reads_lengths_low_byte_first() {
    let mut bytes = vec![0x02, 0x01];
    bytes.extend_from_slice(&[b'n'; 0x0102]);
    bytes.extend_from_slice(&[0x03, 0x02, 0x01, 0x00]);
    bytes.extend_from_slice(&[5; 0x010203]);
    bytes.push(0xaa);
    let mut input = BytesMut::from(&bytes[..]);
    match next_frame(&mut input) {
        Ok(Frame::Record { name, payload }) => {
            assert_eq!(name.len(), 0x0102);
            assert_eq!(payload.len(), 0x010203);
        }
        other => panic!("no record: {:?}", other),
    }
    assert_eq!(&input[..], &[0xaa]);
}

#[test]
fn next_frame_on_nothing_is_done() {
    let mut input = BytesMut::new();
    assert!(matches!(next_frame(&mut input), Ok(Frame::Halt(Stop::Done))));
}

#[test]
fn next_frame_decodes_the_name() {
    let mut input = BytesMut::from(&[3, 0, 0xe6, 0x97, 0xa5, 0, 0, 0, 0][..]);
    match next_frame(&mut input) {
        Ok(Frame::Record { name, payload }) => {
            assert_eq!(name, "\u{65e5}");
            assert!(payload.is_empty());
        }
        other => panic!("no record: {:?}", other),
    }
    assert!(input.is_empty());
}
