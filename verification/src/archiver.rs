//! Packing: files are staged, then written out as records, one after
//! another, each with its content deflated on its own.

use crate::buffer::contents;
use crate::codec::{compress, deflated, restores, CodecError};
use crate::file::{entries, Entry, File};
use crate::format::{record_bytes, write_record};
use bytes::BytesMut;
use vstd::prelude::*;
use vstd::utf8::encode_utf8;

verus! {

/// The record of one entry, or nothing where its content cannot be
/// deflated.
pub open spec fn entry_record(entry: Entry) -> Seq<u8> {
    match deflated(entry.content) {
        Some(payload) => record_bytes(encode_utf8(entry.name), payload),
        None => Seq::empty(),
    }
}

/// The records of `staged`, first to last, one after another.
pub open spec fn archive_bytes(staged: Seq<Entry>) -> Seq<u8>
    decreases staged.len(),
{
    if staged.len() == 0 {
        Seq::empty()
    } else {
        entry_record(staged.first()) + archive_bytes(staged.drop_first())
    }
}

/// A list of one entry is written as that entry's record.
pub proof fn lemma_archive_bytes_single(entry: Entry)
    ensures
        archive_bytes(seq![entry]) == entry_record(entry),
{
    reveal_with_fuel(archive_bytes, 2);
    assert(seq![entry].drop_first().len() == 0);
    assert(archive_bytes(seq![entry]) =~= entry_record(entry));
}

/// The records of two lists, one after the other, are the records of the
/// lists joined.
pub proof fn lemma_archive_bytes_concat(front: Seq<Entry>, back: Seq<Entry>)
    ensures
        archive_bytes(front + back) == archive_bytes(front) + archive_bytes(back),
    decreases front.len(),
{
    if front.len() == 0 {
        assert(front + back =~= back);
    } else {
        lemma_archive_bytes_concat(front.drop_first(), back);
        assert((front + back).drop_first() =~= front.drop_first() + back);
        assert((front + back).first() == front.first());
    }
}

/// Files waiting to be written, and the bytes written so far.
pub struct Archiver {
    pub stack: Vec<File>,
    pub bytes: BytesMut,
}

impl Archiver {
    /// Whether `self` is what `end` leaves of `before`: nothing staged, and
    /// the records of what was staged behind the bytes that were there, each
    /// with a payload that inflates to the content it was made of.
    pub open spec fn is_end_of(self, before: Archiver) -> bool {
        &&& self.stack@.len() == 0
        &&& contents(self.bytes) == contents(before.bytes) + archive_bytes(entries(before.stack@))
        &&& forall|i: int|
            0 <= i < before.stack@.len() ==> restores(#[trigger] before.stack@[i].content@)
    }

    /// An archiver with nothing staged and nothing written.
    pub fn new() -> (archiver: Archiver)
        ensures
            archiver.stack@.len() == 0,
            contents(archiver.bytes).len() == 0,
    {
        Archiver { stack: Vec::new(), bytes: BytesMut::new() }
    }

    /// Stages a file as the last one. Nothing is checked and nothing is
    /// written yet.
    pub fn put(&mut self, name: &str, content: Vec<u8>)
        ensures
            final(self).stack@.len() == old(self).stack@.len() + 1,
            final(self).stack@.drop_last() == old(self).stack@,
            final(self).stack@.last()@ == (Entry { name: name@, content: content@ }),
            entries(final(self).stack@) == entries(old(self).stack@).push(
                Entry { name: name@, content: content@ },
            ),
            final(self).bytes == old(self).bytes,
    {
        self.stack.push(File::new(name, content));
        assert(self.stack@.drop_last() =~= old(self).stack@);
        assert(entries(self.stack@) =~= entries(old(self).stack@).push(
            Entry { name: name@, content: content@ },
        ));
    }

    /// Deflates `content` and writes the record of it under `name`. Where
    /// the codec fails nothing is written.
    pub fn write(&mut self, name: &str, content: &[u8]) -> (res: Result<(), CodecError>)
        ensures
            final(self).stack == old(self).stack,
            contents(final(self).bytes) == contents(old(self).bytes) + entry_record(
                Entry { name: name@, content: content@ },
            ),
            res is Ok <==> deflated(content@) is Some,
            restores(content@),
    {
        match compress(content) {
            Ok(payload) => {
                write_record(&mut self.bytes, name, payload.as_slice());
                Ok(())
            },
            Err(error) => {
                assert(contents(self.bytes) =~= contents(old(self).bytes) + Seq::<u8>::empty());
                Err(error)
            },
        }
    }

    /// Writes every staged file, first to last, and leaves nothing staged.
    /// A file whose content the codec fails on is left out and the others
    /// are still written. The list returned says of each file, in the order
    /// in which they were staged, whether it was written.
    pub fn end(&mut self) -> (outcomes: Vec<Result<(), CodecError>>)
        ensures
            final(self).is_end_of(*old(self)),
            outcomes@.len() == old(self).stack@.len(),
            forall|i: int|
                0 <= i < outcomes@.len() ==> (#[trigger] outcomes@[i] is Ok <==> deflated(
                    old(self).stack@[i].content@,
                ) is Some),
    {
        let mut files: Vec<File> = Vec::new();
        std::mem::swap(&mut self.stack, &mut files);
        let mut outcomes: Vec<Result<(), CodecError>> = Vec::new();
        let ghost staged = entries(files@);
        let mut done: usize = 0;
        while done < files.len()
            invariant
                done <= files.len(),
                staged == entries(files@),
                files@ == old(self).stack@,
                self.stack@.len() == 0,
                contents(self.bytes) == contents(old(self).bytes) + archive_bytes(
                    staged.take(done as int),
                ),
                outcomes@.len() == done,
                forall|i: int|
                    0 <= i < done ==> (#[trigger] outcomes@[i] is Ok <==> deflated(
                        files@[i].content@,
                    ) is Some),
                forall|i: int| 0 <= i < done ==> restores(#[trigger] files@[i].content@),
            decreases files.len() - done,
        {
            let file = &files[done];
            let outcome = self.write(file.name.as_str(), file.content.as_slice());
            outcomes.push(outcome);
            proof {
                let written = staged.take(done as int);
                assert(staged.take(done + 1) =~= written + seq![staged[done as int]]);
                lemma_archive_bytes_concat(written, seq![staged[done as int]]);
                lemma_archive_bytes_single(staged[done as int]);
            }
            done += 1;
        }
        assert(staged.take(done as int) =~= staged);
        outcomes
    }
}

} // verus!
