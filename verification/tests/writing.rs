use bytes::BytesMut;
use primitive_archiver::codec::{compress, decompress, CodecError};
use primitive_archiver::format::{name_length_field, payload_length_field, write_record};
use primitive_archiver::Archiver;

#[test]
fn record_is_lengths_name_and_payload() {
    let mut out = BytesMut::new();
    write_record(&mut out, "ab", &[9, 8, 7]);
    assert_eq!(&out[..], &[2, 0, b'a', b'b', 3, 0, 0, 0, 9, 8, 7]);
}

#[test]
fn record_of_nothing_is_six_zero_bytes() {
    let mut out = BytesMut::new();
    write_record(&mut out, "", &[]);
    assert_eq!(&out[..], &[0, 0, 0, 0, 0, 0]);
}

#[test]
fn record_goes_behind_what_is_there() {
    let mut out = BytesMut::from(&[0xaa, 0xbb][..]);
    write_record(&mut out, "x", &[1]);
    write_record(&mut out, "y", &[]);
    assert_eq!(&out[..], &[0xaa, 0xbb, 1, 0, b'x', 1, 0, 0, 0, 1, 1, 0, b'y', 0, 0, 0, 0]);
}

#[test]
fn name_length_counts_bytes_not_characters() {
    let mut out = BytesMut::new();
    write_record(&mut out, "\u{65e5}\u{672c}", &[]);
    assert_eq!(&out[..], &[6, 0, 0xe6, 0x97, 0xa5, 0xe6, 0x9c, 0xac, 0, 0, 0, 0]);
}

#[test]
fn lengths_are_written_low_byte_first() {
    let name = "n".repeat(0x0102);
    let payload = vec![5u8; 0x010203];
    let mut out = BytesMut::new();
    write_record(&mut out, &name, &payload);
    assert_eq!(out.len(), 2 + 0x0102 + 4 + 0x010203);
    assert_eq!(&out[..2], &[0x02, 0x01]);
    assert_eq!(&out[2..2 + 0x0102], name.as_bytes());
    assert_eq!(&out[2 + 0x0102..6 + 0x0102], &[0x03, 0x02, 0x01, 0x00]);
    assert_eq!(&out[6 + 0x0102..], &payload[..]);
}

#[test]
fn name_length_that_does_not_fit_is_cut_to_its_low_bits() {
    let name = "n".repeat(0x1_0003);
    let mut out = BytesMut::new();
    write_record(&mut out, &name, &[]);
    assert_eq!(out.len(), 2 + 0x1_0003 + 4);
    assert_eq!(&out[..2], &[0x03, 0x00]);
    assert_eq!(&out[2..5], b"nnn");
}

#[test]
fn archiver_writes_the_record_of_the_deflated_content() {
    let mut archiver = Archiver::new();
    archiver.put("file.txt", Vec::from("Nothing makes sense anymore."));
    archiver.end();

    let payload = compress(b"Nothing makes sense anymore.").unwrap();
    let mut expected = BytesMut::new();
    write_record(&mut expected, "file.txt", &payload);
    assert_eq!(archiver.bytes, expected);
    assert_eq!(&archiver.bytes[..2], &[8, 0]);
    assert_eq!(&archiver.bytes[2..10], b"file.txt");
    assert_eq!(archiver.bytes[10] as usize, payload.len());
    assert_eq!(&archiver.bytes[11..14], &[0, 0, 0]);
}

#[test]
fn write_appends_one_record() {
    let mut archiver = Archiver::new();
    archiver.put("staged", vec![1]);
    let outcome = archiver.write("direct", b"abc");
    assert!(outcome.is_ok());
    assert_eq!(archiver.stack.len(), 1);
    let mut expected = BytesMut::new();
    write_record(&mut expected, "direct", &compress(b"abc").unwrap());
    assert_eq!(archiver.bytes, expected);
}

#[test]
fn compress_gives_a_deflate_stream() {
    let data = vec![b'a'; 1000];
    let packed = compress(&data).unwrap();
    assert_ne!(packed, data);
    assert!(packed.len() < 100);
    assert_eq!(decompress(&packed).unwrap(), data);
}

#[test]
fn compress_of_nothing_is_a_stream_too() {
    let packed = compress(&[]).unwrap();
    assert!(!packed.is_empty());
    assert_eq!(decompress(&packed).unwrap(), Vec::<u8>::new());
}

#[test]
fn compress_is_the_same_every_time() {
    let data = b"Nothing makes sense anymore.";
    assert_eq!(compress(data).unwrap(), compress(data).unwrap());
}

#[test]
fn decompress_reads_a_stored_block() {
    let stream = [0x01, 0x03, 0x00, 0xfc, 0xff, b'a', b'b', b'c'];
    assert_eq!(decompress(&stream).unwrap(), b"abc".to_vec());
}

#[test]
fn decompress_refuses_what_is_no_stream() {
    assert!(matches!(decompress(&[0xff, 0xff, 0xff]), Err(CodecError::Stream(_))));
    assert!(matches!(decompress(&[]), Err(CodecError::Stream(_))));
}

#[test]
fn decompress_refuses_a_stream_cut_short() {
    let mut packed = compress(b"Nothing makes sense anymore.").unwrap();
    packed.pop();
    assert!(matches!(decompress(&packed), Err(CodecError::Stream(_))));
}

#[test]
fn end_says_of_each_file_whether_it_was_written() {
    let mut archiver = Archiver::new();
    assert!(archiver.end().is_empty());
    archiver.put("a", vec![1]);
    archiver.put("b", Vec::new());
    archiver.put("c", vec![3; 70_000]);
    let outcomes = archiver.end();
    assert_eq!(outcomes.len(), 3);
    assert!(outcomes.iter().all(|outcome| outcome.is_ok()));
}

#[test]
fn length_fields_are_low_byte_first() {
    assert_eq!(name_length_field(0), [0, 0]);
    assert_eq!(name_length_field(8), [8, 0]);
    assert_eq!(name_length_field(0x1234), [0x34, 0x12]);
    assert_eq!(name_length_field(0xffff), [0xff, 0xff]);
    assert_eq!(name_length_field(0x1_0000), [0, 0]);
    assert_eq!(name_length_field(0x3_1234), [0x34, 0x12]);
    assert_eq!(payload_length_field(0), [0, 0, 0, 0]);
    assert_eq!(payload_length_field(0x1234_5678), [0x78, 0x56, 0x34, 0x12]);
    assert_eq!(payload_length_field(0xffff_ffff), [0xff, 0xff, 0xff, 0xff]);
}
