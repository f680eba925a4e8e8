//! What packing and unpacking have to do with each other.

use crate::archiver::{
    archive_bytes, entry_record, lemma_archive_bytes_concat, lemma_archive_bytes_single, Archiver,
};
use crate::buffer::contents;
use crate::codec::{deflated, restores};
use crate::file::{entries, Entry};
use crate::format::{
    lemma_frame_of_record, lemma_le16_value, lemma_le32_value, le16, le32, ReadError, Stop,
    MAX_NAME_LEN, MAX_PAYLOAD_LEN,
};
use crate::unarchiver::{decode, Decoded};
use vstd::prelude::*;
use vstd::utf8::{encode_utf8, encode_utf8_decode_utf8, encode_utf8_valid_utf8, valid_utf8};

verus! {

/// Whether the record of `entry` can say how long its name and its payload
/// are: the name takes at most 65535 bytes in UTF-8, and the content
/// deflates to at most 2^32 - 1 bytes.
pub open spec fn fits(entry: Entry) -> bool {
    &&& encode_utf8(entry.name).len() <= MAX_NAME_LEN
    &&& deflated(entry.content) matches Some(payload) && payload.len() <= MAX_PAYLOAD_LEN
}

/// Whether every entry of `staged` fits its record.
pub open spec fn all_fit(staged: Seq<Entry>) -> bool {
    forall|i: int| 0 <= i < staged.len() ==> fits(#[trigger] staged[i])
}

/// Whether every entry of `staged` fits its record and has a content that
/// the codec gives back.
pub open spec fn all_read_back(staged: Seq<Entry>) -> bool {
    forall|i: int| 0 <= i < staged.len() ==> fits(#[trigger] staged[i]) && restores(staged[i].content)
}

/// An empty buffer reads as no entries, and as done.
pub proof fn lemma_decode_nothing()
    ensures
        decode(Seq::empty()) == (Decoded {
            entries: Seq::empty(),
            rest: Seq::empty(),
            outcome: Ok(Stop::Done),
        }),
{
    reveal(decode);
}

/// Reading the record of `entry`, with `behind` behind it, gives `entry`
/// and then whatever reading `behind` alone gives.
pub proof fn lemma_decode_record_then(entry: Entry, behind: Seq<u8>)
    requires
        fits(entry),
        restores(entry.content),
    ensures
        decode(entry_record(entry) + behind) == (Decoded {
            entries: seq![entry] + decode(behind).entries,
            rest: decode(behind).rest,
            outcome: decode(behind).outcome,
        }),
{
    reveal(decode);
    let name = encode_utf8(entry.name);
    let payload = deflated(entry.content)->Some_0;
    encode_utf8_valid_utf8(entry.name);
    encode_utf8_decode_utf8(entry.name);
    lemma_frame_of_record(name, payload, behind);
}

/// Reading what was written for `staged`, with `tail` behind it, gives
/// `staged` and then whatever reading `tail` alone gives.
pub proof fn lemma_decode_archive_then(staged: Seq<Entry>, tail: Seq<u8>)
    requires
        all_read_back(staged),
    ensures
        decode(archive_bytes(staged) + tail) == (Decoded {
            entries: staged + decode(tail).entries,
            rest: decode(tail).rest,
            outcome: decode(tail).outcome,
        }),
    decreases staged.len(),
{
    if staged.len() == 0 {
        assert(archive_bytes(staged) + tail =~= tail);
        assert(staged + decode(tail).entries =~= decode(tail).entries);
    } else {
        let first = staged.first();
        let others = staged.drop_first();
        let behind = archive_bytes(others) + tail;
        assert(fits(staged[0]) && restores(staged[0].content));
        assert(all_read_back(others)) by {
            assert forall|i: int| 0 <= i < others.len() implies fits(#[trigger] others[i])
                && restores(others[i].content) by {
                assert(others[i] == staged[i + 1]);
            }
        }
        lemma_decode_archive_then(others, tail);
        lemma_decode_record_then(first, behind);
        assert(archive_bytes(staged) + tail =~= entry_record(first) + behind);
        assert(seq![first] + (others + decode(tail).entries) =~= staged + decode(tail).entries);
    }
}

/// Round trip: reading what was written for `staged` gives `staged` back,
/// names and contents, in the same order, and uses the buffer up.
pub proof fn lemma_round_trip(staged: Seq<Entry>)
    requires
        all_read_back(staged),
    ensures
        decode(archive_bytes(staged)) == (Decoded {
            entries: staged,
            rest: Seq::empty(),
            outcome: Ok(Stop::Done),
        }),
{
    lemma_decode_nothing();
    lemma_decode_archive_then(staged, Seq::empty());
    assert(archive_bytes(staged) + Seq::<u8>::empty() =~= archive_bytes(staged));
    assert(staged + Seq::<Entry>::empty() =~= staged);
}

/// Round trip, of an archiver: where every staged file fits its record,
/// what `end` leaves in a buffer that was empty reads back as the files
/// that were staged, names and contents, in the same order.
pub proof fn lemma_end_reads_back(before: Archiver, after: Archiver)
    requires
        after.is_end_of(before),
        contents(before.bytes).len() == 0,
        all_fit(entries(before.stack@)),
    ensures
        decode(contents(after.bytes)) == (Decoded {
            entries: entries(before.stack@),
            rest: Seq::empty(),
            outcome: Ok(Stop::Done),
        }),
{
    let staged = entries(before.stack@);
    assert forall|i: int| 0 <= i < staged.len() implies fits(#[trigger] staged[i]) && restores(
        staged[i].content,
    ) by {
        assert(restores(before.stack@[i].content@));
    }
    lemma_round_trip(staged);
    assert(contents(after.bytes) =~= archive_bytes(staged));
}

/// Nothing staged, nothing written: `end` leaves the buffer as it was, and
/// an empty buffer reads as no entries.
pub proof fn lemma_empty_archive(before: Archiver, after: Archiver)
    requires
        after.is_end_of(before),
        before.stack@.len() == 0,
    ensures
        contents(after.bytes) == contents(before.bytes),
        decode(Seq::empty()) == (Decoded {
            entries: Seq::empty(),
            rest: Seq::empty(),
            outcome: Ok(Stop::Done),
        }),
{
    lemma_decode_nothing();
    assert(contents(after.bytes) =~= contents(before.bytes));
}

/// A single entry's record without its last byte reads as no entries, and
/// without an error: the payload is found cut short, or its length where
/// the payload is empty.
pub proof fn lemma_truncated_single_entry(entry: Entry)
    requires
        fits(entry),
    ensures
        decode(archive_bytes(seq![entry]).drop_last()).entries.len() == 0,
        decode(archive_bytes(seq![entry]).drop_last()).outcome == Ok::<Stop, ReadError>(
            if deflated(entry.content)->Some_0.len() == 0 {
                Stop::ShortContentLength
            } else {
                Stop::ShortContent
            },
        ),
{
    reveal(decode);
    lemma_archive_bytes_single(entry);
    let name = encode_utf8(entry.name);
    let payload = deflated(entry.content)->Some_0;
    let cut = archive_bytes(seq![entry]).drop_last();
    encode_utf8_valid_utf8(entry.name);
    lemma_le16_value(name.len());
    lemma_le32_value(payload.len());
    assert(cut.take(2) =~= le16(name.len()));
    let after_name_len = cut.skip(2);
    assert(after_name_len.take(name.len() as int) =~= name);
    let after_name = after_name_len.skip(name.len() as int);
    if payload.len() == 0 {
        assert(after_name.len() == 3);
    } else {
        assert(after_name.take(4) =~= le32(payload.len()));
        assert(after_name.skip(4).len() == payload.len() - 1);
    }
}

/// Files before a cut record stay: what was written for `staged`, without
/// its last byte, reads as all of `staged` but the last entry, and without
/// an error.
pub proof fn lemma_truncated_archive(staged: Seq<Entry>)
    requires
        staged.len() > 0,
        all_read_back(staged),
    ensures
        decode(archive_bytes(staged).drop_last()).entries == staged.drop_last(),
        decode(archive_bytes(staged).drop_last()).outcome is Ok,
{
    let before = staged.drop_last();
    let last = staged.last();
    assert(staged =~= before + seq![last]);
    lemma_archive_bytes_concat(before, seq![last]);
    lemma_archive_bytes_single(last);
    assert(fits(staged[staged.len() - 1]));
    assert(entry_record(last).len() >= 6);
    assert(archive_bytes(staged).drop_last() =~= archive_bytes(before) + entry_record(
        last,
    ).drop_last());
    assert(all_read_back(before)) by {
        assert forall|i: int| 0 <= i < before.len() implies fits(#[trigger] before[i]) && restores(
            before[i].content,
        ) by {
            assert(before[i] == staged[i]);
        }
    }
    lemma_decode_archive_then(before, entry_record(last).drop_last());
    lemma_truncated_single_entry(last);
    assert(decode(entry_record(last).drop_last()).entries =~= Seq::<Entry>::empty());
    assert(before + Seq::<Entry>::empty() =~= before);
}

/// Order in the buffer: the record of the entry at `at` stands right
/// behind the records of the entries before it and right before those of
/// the entries after it.
pub proof fn lemma_record_position(staged: Seq<Entry>, at: int)
    requires
        0 <= at < staged.len(),
    ensures
        archive_bytes(staged) == archive_bytes(staged.take(at)) + entry_record(staged[at])
            + archive_bytes(staged.skip(at + 1)),
{
    assert(staged =~= staged.take(at) + seq![staged[at]] + staged.skip(at + 1));
    lemma_archive_bytes_concat(staged.take(at) + seq![staged[at]], staged.skip(at + 1));
    lemma_archive_bytes_concat(staged.take(at), seq![staged[at]]);
    lemma_archive_bytes_single(staged[at]);
}

/// Order of three: `a`, `b` and `c` staged in this order are written in
/// this order, and read back in this order.
pub proof fn lemma_three_entries_in_order(a: Entry, b: Entry, c: Entry)
    ensures
        archive_bytes(seq![a, b, c]) == entry_record(a) + entry_record(b) + entry_record(c),
        all_read_back(seq![a, b, c]) ==> decode(archive_bytes(seq![a, b, c])).entries == seq![
            a,
            b,
            c,
        ],
{
    let staged = seq![a, b, c];
    lemma_record_position(staged, 1);
    assert(staged.take(1) =~= seq![a]);
    assert(staged.skip(2) =~= seq![c]);
    lemma_archive_bytes_single(a);
    lemma_archive_bytes_single(c);
    if all_read_back(staged) {
        lemma_round_trip(staged);
    }
}

/// Writing is repeatable: two archivers with the same bytes written and
/// the same entries staged are left by `end` with the same bytes.
pub proof fn lemma_same_entries_same_bytes(
    one: Archiver,
    one_after: Archiver,
    other: Archiver,
    other_after: Archiver,
)
    requires
        one_after.is_end_of(one),
        other_after.is_end_of(other),
        contents(one.bytes) == contents(other.bytes),
        entries(one.stack@) == entries(other.stack@),
    ensures
        contents(one_after.bytes) == contents(other_after.bytes),
{
}

/// A name that is not UTF-8 fails the reading, whatever stands behind the
/// name, be it nothing at all; no entry is made of the record, and the
/// name and its length have left the buffer.
pub proof fn lemma_invalid_name(name: Seq<u8>, tail: Seq<u8>)
    requires
        name.len() <= MAX_NAME_LEN,
        !valid_utf8(name),
    ensures
        decode(le16(name.len()) + name + tail) == (Decoded {
            entries: Seq::empty(),
            rest: tail,
            outcome: Err(ReadError::InvalidName),
        }),
{
    reveal(decode);
    let buf = le16(name.len()) + name + tail;
    lemma_le16_value(name.len());
    assert(buf.take(2) =~= le16(name.len()));
    assert(buf.skip(2).take(name.len() as int) =~= name);
    assert(buf.skip(2).skip(name.len() as int) =~= tail);
}

/// Files read before a record with a bad name stay: reading what was
/// written for `staged`, with such a record behind it, gives `staged` and
/// the error.
pub proof fn lemma_invalid_name_behind_archive(staged: Seq<Entry>, name: Seq<u8>, tail: Seq<u8>)
    requires
        all_read_back(staged),
        name.len() <= MAX_NAME_LEN,
        !valid_utf8(name),
    ensures
        decode(archive_bytes(staged) + (le16(name.len()) + name + tail)) == (Decoded {
            entries: staged,
            rest: tail,
            outcome: Err(ReadError::InvalidName),
        }),
{
    lemma_invalid_name(name, tail);
    lemma_decode_archive_then(staged, le16(name.len()) + name + tail);
    assert(staged + Seq::<Entry>::empty() =~= staged);
}

} // verus!
