//! The container format: a record is a 2-byte name length, the name in
//! UTF-8, a 4-byte payload length and the payload, lengths little-endian;
//! an archive is records one after another.

use crate::buffer::{contents, put_slice};
use bytes::BytesMut;
use vstd::arithmetic::div_mod::lemma_fundamental_div_mod_converse;
use vstd::prelude::*;
use vstd::slice::slice_to_vec;
use vstd::utf8::{decode_utf8, encode_utf8, encode_utf8_decode_utf8, valid_utf8};

verus! {

/// Largest name length that the 2-byte field can hold.
pub const MAX_NAME_LEN: usize = 0xffff;

/// Largest payload length that the 4-byte field can hold.
pub const MAX_PAYLOAD_LEN: usize = 0xffff_ffff;

/// The low 16 bits of `n`, low byte first.
pub open spec fn le16(n: nat) -> Seq<u8> {
    seq![(n % 0x100) as u8, (n / 0x100 % 0x100) as u8]
}

/// The low 32 bits of `n`, low byte first.
pub open spec fn le32(n: nat) -> Seq<u8> {
    seq![
        (n % 0x100) as u8,
        (n / 0x100 % 0x100) as u8,
        (n / 0x1_0000 % 0x100) as u8,
        (n / 0x100_0000 % 0x100) as u8,
    ]
}

/// The number that two bytes spell, low byte first.
pub open spec fn le16_value(b: Seq<u8>) -> nat
    recommends
        b.len() == 2,
{
    (b[0] + 0x100 * b[1]) as nat
}

/// The number that four bytes spell, low byte first.
pub open spec fn le32_value(b: Seq<u8>) -> nat
    recommends
        b.len() == 4,
{
    (b[0] + 0x100 * b[1] + 0x1_0000 * b[2] + 0x100_0000 * b[3]) as nat
}

/// A length field of two bytes spells the length it was written for, as
/// long as the length fits.
pub proof fn lemma_le16_value(n: nat)
    requires
        n <= MAX_NAME_LEN,
    ensures
        le16(n).len() == 2,
        le16_value(le16(n)) == n,
{
}

/// A length field of four bytes spells the length it was written for, as
/// long as the length fits.
pub proof fn lemma_le32_value(n: nat)
    requires
        n <= MAX_PAYLOAD_LEN,
    ensures
        le32(n).len() == 4,
        le32_value(le32(n)) == n,
{
}

/// Two bytes are the length field of the length they spell.
pub proof fn lemma_le16_of_value(field: Seq<u8>)
    requires
        field.len() == 2,
    ensures
        le16_value(field) <= MAX_NAME_LEN,
        le16(le16_value(field)) == field,
{
    let value = le16_value(field) as int;
    lemma_fundamental_div_mod_converse(value, 0x100, field[1] as int, field[0] as int);
    assert(le16(le16_value(field)) =~= field);
}

/// Four bytes are the length field of the length they spell.
pub proof fn lemma_le32_of_value(field: Seq<u8>)
    requires
        field.len() == 4,
    ensures
        le32_value(field) <= MAX_PAYLOAD_LEN,
        le32(le32_value(field)) == field,
{
    let value = le32_value(field) as int;
    let (b0, b1, b2, b3) = (field[0] as int, field[1] as int, field[2] as int, field[3] as int);
    lemma_fundamental_div_mod_converse(value, 0x100, b1 + 0x100 * b2 + 0x1_0000 * b3, b0);
    lemma_fundamental_div_mod_converse(value / 0x100, 0x100, b2 + 0x100 * b3, b1);
    lemma_fundamental_div_mod_converse(value, 0x1_0000, b2 + 0x100 * b3, b0 + 0x100 * b1);
    lemma_fundamental_div_mod_converse(value / 0x1_0000, 0x100, b3, b2);
    lemma_fundamental_div_mod_converse(value, 0x100_0000, b3, b0 + 0x100 * b1 + 0x1_0000 * b2);
    assert(le32(le32_value(field)) =~= field);
}

/// One record: the name's length, the name, the payload's length, the
/// payload. A length that does not fit its field is cut to the field's
/// low bits.
pub open spec fn record_bytes(name: Seq<u8>, payload: Seq<u8>) -> Seq<u8> {
    le16(name.len()) + name + le32(payload.len()) + payload
}

/// The two bytes of a name-length field for a name of `len` bytes.
pub fn name_length_field(len: usize) -> (field: [u8; 2])
    ensures
        field@ == le16(len as nat),
{
    let field = [(len % 0x100) as u8, (len / 0x100 % 0x100) as u8];
    assert(field@ =~= le16(len as nat));
    field
}

/// The four bytes of a payload-length field for a payload of `len` bytes.
pub fn payload_length_field(len: usize) -> (field: [u8; 4])
    ensures
        field@ == le32(len as nat),
{
    let field = [
        (len % 0x100) as u8,
        (len / 0x100 % 0x100) as u8,
        (len / 0x1_0000 % 0x100) as u8,
        (len / 0x100_0000 % 0x100) as u8,
    ];
    assert(field@ =~= le32(len as nat));
    field
}

/// The length that a 2-byte name-length field spells.
fn name_length(field: &[u8]) -> (len: usize)
    requires
        field@.len() == 2,
    ensures
        len == le16_value(field@),
{
    let value: u16 = field[0] as u16 + 0x100 * (field[1] as u16);
    value as usize
}

/// The length that a 4-byte payload-length field spells.
fn payload_length(field: &[u8]) -> (len: usize)
    requires
        field@.len() == 4,
    ensures
        len == le32_value(field@),
{
    let value: u32 = field[0] as u32 + 0x100 * (field[1] as u32) + 0x1_0000 * (field[2] as u32)
        + 0x100_0000 * (field[3] as u32);
    value as usize
}

/// Appends to `out` the record of `name` with the payload `payload`.
pub fn write_record(out: &mut BytesMut, name: &str, payload: &[u8])
    ensures
        contents(*final(out)) == contents(*old(out)) + record_bytes(encode_utf8(name@), payload@),
{
    let name_bytes = name.as_bytes();
    let name_len = name_length_field(name_bytes.len());
    let payload_len = payload_length_field(payload.len());
    put_slice(out, &name_len);
    put_slice(out, name_bytes);
    put_slice(out, &payload_len);
    put_slice(out, payload);
    assert(contents(*out) =~= contents(*old(out)) + record_bytes(encode_utf8(name@), payload@));
}

/// Why reading stopped without an error.
#[derive(Debug, Clone, Copy, PartialEq, Eq, Structural)]
pub enum Stop {
    /// Nothing was left: the buffer ended where a record ended.
    Done,
    /// One byte was left where a name length was due.
    ShortNameLength,
    /// Fewer bytes were left than the name length said.
    ShortName,
    /// Fewer than four bytes were left where a payload length was due.
    ShortContentLength,
    /// Fewer bytes were left than the payload length said.
    ShortContent,
    /// The payload was no deflate stream.
    BadContent,
}

/// Why reading failed.
#[derive(Debug, Clone, Copy, PartialEq, Eq, Structural)]
pub enum ReadError {
    /// A name was not well-formed UTF-8.
    InvalidName,
}

/// What stands at the front of a buffer: a whole record, or the reason
/// why there is none. `rest` is what is left once the fields that could be
/// read have been taken off.
pub enum Framed {
    Record { name: Seq<u8>, payload: Seq<u8>, rest: Seq<u8> },
    Halt { outcome: Result<Stop, ReadError>, rest: Seq<u8> },
}

/// Takes one record off the front of `buf`, field by field, and stops at
/// the first field that is not all there.
pub open spec fn frame(buf: Seq<u8>) -> Framed {
    if buf.len() == 0 {
        Framed::Halt { outcome: Ok(Stop::Done), rest: buf }
    } else if buf.len() < 2 {
        Framed::Halt { outcome: Ok(Stop::ShortNameLength), rest: buf }
    } else {
        let name_len = le16_value(buf.take(2));
        let after_name_len = buf.skip(2);
        if after_name_len.len() < name_len {
            Framed::Halt { outcome: Ok(Stop::ShortName), rest: after_name_len }
        } else {
            let name = after_name_len.take(name_len as int);
            let after_name = after_name_len.skip(name_len as int);
            if !valid_utf8(name) {
                Framed::Halt { outcome: Err(ReadError::InvalidName), rest: after_name }
            } else if after_name.len() < 4 {
                Framed::Halt { outcome: Ok(Stop::ShortContentLength), rest: after_name }
            } else {
                let payload_len = le32_value(after_name.take(4));
                let after_payload_len = after_name.skip(4);
                if after_payload_len.len() < payload_len {
                    Framed::Halt { outcome: Ok(Stop::ShortContent), rest: after_payload_len }
                } else {
                    Framed::Record {
                        name,
                        payload: after_payload_len.take(payload_len as int),
                        rest: after_payload_len.skip(payload_len as int),
                    }
                }
            }
        }
    }
}

/// A record whose lengths fit and whose name is UTF-8 is taken off the
/// front of a buffer whole, whatever comes behind it.
pub proof fn lemma_frame_of_record(name: Seq<u8>, payload: Seq<u8>, tail: Seq<u8>)
    requires
        name.len() <= MAX_NAME_LEN,
        payload.len() <= MAX_PAYLOAD_LEN,
        valid_utf8(name),
    ensures
        frame(record_bytes(name, payload) + tail) == (Framed::Record { name, payload, rest: tail }),
{
    let buf = record_bytes(name, payload) + tail;
    lemma_le16_value(name.len());
    lemma_le32_value(payload.len());
    assert(buf.take(2) =~= le16(name.len()));
    let after_name_len = buf.skip(2);
    assert(after_name_len =~= name + le32(payload.len()) + payload + tail);
    assert(after_name_len.take(name.len() as int) =~= name);
    let after_name = after_name_len.skip(name.len() as int);
    assert(after_name =~= le32(payload.len()) + payload + tail);
    assert(after_name.take(4) =~= le32(payload.len()));
    let after_payload_len = after_name.skip(4);
    assert(after_payload_len =~= payload + tail);
    assert(after_payload_len.take(payload.len() as int) =~= payload);
    assert(after_payload_len.skip(payload.len() as int) =~= tail);
}

/// And the other way round: where a record is taken off the front of a
/// buffer, the buffer is that record and then what is left, the lengths
/// fit their fields and the name is UTF-8.
pub proof fn lemma_record_of_frame(buf: Seq<u8>)
    requires
        frame(buf) is Record,
    ensures
        buf == record_bytes(frame(buf)->name, frame(buf)->payload) + frame(buf)->Record_rest,
        frame(buf)->name.len() <= MAX_NAME_LEN,
        frame(buf)->payload.len() <= MAX_PAYLOAD_LEN,
        valid_utf8(frame(buf)->name),
{
    let name_len_field = buf.take(2);
    let after_name_len = buf.skip(2);
    let name = after_name_len.take(le16_value(name_len_field) as int);
    let after_name = after_name_len.skip(le16_value(name_len_field) as int);
    let payload_len_field = after_name.take(4);
    let after_payload_len = after_name.skip(4);
    let payload = after_payload_len.take(le32_value(payload_len_field) as int);
    let rest = after_payload_len.skip(le32_value(payload_len_field) as int);
    assert(frame(buf) == (Framed::Record { name, payload, rest }));
    lemma_le16_of_value(name_len_field);
    lemma_le32_of_value(payload_len_field);
    let behind_name = payload_len_field + (payload + rest);
    assert(after_name == behind_name) by {
        assert(after_payload_len =~= payload + rest);
        assert(after_name =~= payload_len_field + after_payload_len);
    }
    assert(buf == name_len_field + (name + behind_name)) by {
        assert(after_name_len =~= name + after_name);
        assert(buf =~= name_len_field + after_name_len);
    }
    assert(name_len_field + (name + behind_name) =~= record_bytes(name, payload) + rest);
}

/// What `next_frame` found at the front of a buffer.
#[derive(Debug)]
pub enum Frame {
    /// A whole record: its name and its payload, still compressed.
    Record { name: String, payload: BytesMut },
    /// No record, and why.
    Halt(Stop),
}

/// Takes one record off the front of `input`. Bytes leave `input` as the
/// fields they belong to are read, also where a later field then turns out
/// to be cut short.
pub fn next_frame(input: &mut BytesMut) -> (res: Result<Frame, ReadError>)
    ensures
        match frame(contents(*old(input))) {
            Framed::Record { name, payload, rest } => {
                &&& res matches Ok(Frame::Record { name: got_name, payload: got_payload })
                &&& got_name@ == decode_utf8(name)
                &&& contents(got_payload) == payload
                &&& contents(*final(input)) == rest
            },
            Framed::Halt { outcome: Ok(stop), rest } => {
                &&& res == Ok::<Frame, ReadError>(Frame::Halt(stop))
                &&& contents(*final(input)) == rest
            },
            Framed::Halt { outcome: Err(error), rest } => {
                &&& res == Err::<Frame, ReadError>(error)
                &&& contents(*final(input)) == rest
            },
        },
{
    if input.len() == 0 {
        return Ok(Frame::Halt(Stop::Done));
    }
    if input.len() < 2 {
        return Ok(Frame::Halt(Stop::ShortNameLength));
    }
    let field = input.split_to(2);
    let name_len = name_length(field.as_ref());
    if input.len() < name_len {
        return Ok(Frame::Halt(Stop::ShortName));
    }
    let raw_name = input.split_to(name_len);
    let name = match String::from_utf8(slice_to_vec(raw_name.as_ref())) {
        Ok(name) => name,
        Err(_) => {
            return Err(ReadError::InvalidName);
        },
    };
    proof {
        encode_utf8_decode_utf8(name@);
    }
    if input.len() < 4 {
        return Ok(Frame::Halt(Stop::ShortContentLength));
    }
    let field = input.split_to(4);
    let payload_len = payload_length(field.as_ref());
    if input.len() < payload_len {
        return Ok(Frame::Halt(Stop::ShortContent));
    }
    let payload = input.split_to(payload_len);
    Ok(Frame::Record { name, payload })
}

} // verus!
