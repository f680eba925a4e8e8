//! Unpacking: records are taken off the front of a buffer one by one and
//! their contents inflated, until the buffer is used up or a record is
//! cut short or damaged.

use crate::buffer::contents;
use crate::codec::{decompress, inflated};
use crate::file::{entries, Entry, File};
use crate::format::{frame, next_frame, Frame, Framed, ReadError, Stop};
use bytes::BytesMut;
use vstd::prelude::*;
use vstd::utf8::decode_utf8;

verus! {

/// What reading a buffer comes to: the entries read, what is left in the
/// buffer, and why reading ended.
pub struct Decoded {
    pub entries: Seq<Entry>,
    pub rest: Seq<u8>,
    pub outcome: Result<Stop, ReadError>,
}

/// Reads `buf` record by record. Reading ends at the first record that is
/// cut short, whose name is not UTF-8 or whose payload does not inflate;
/// what was read before it stays.
#[verifier::opaque]
pub open spec fn decode(buf: Seq<u8>) -> Decoded
    decreases buf.len(),
{
    match frame(buf) {
        Framed::Halt { outcome, rest } => Decoded { entries: Seq::empty(), rest, outcome },
        Framed::Record { name, payload, rest } => match inflated(payload) {
            None => Decoded { entries: Seq::empty(), rest, outcome: Ok(Stop::BadContent) },
            Some(content) => {
                let entry = Entry { name: decode_utf8(name), content };
                let after = decode(rest);
                Decoded { entries: seq![entry] + after.entries, ..after }
            },
        },
    }
}

/// Files read so far.
pub struct Unarchiver {
    pub files: Vec<File>,
}

impl Unarchiver {
    /// An unarchiver that has read nothing.
    pub fn new() -> (unarchiver: Unarchiver)
        ensures
            unarchiver.files@.len() == 0,
    {
        Unarchiver { files: Vec::new() }
    }

    /// Reads records off the front of `bytes` and adds a file for each to
    /// the end of the list. Bytes leave `bytes` as they are read. A record
    /// that is cut short or whose payload does not inflate ends the reading
    /// without an error; a name that is not UTF-8 ends it with one. In
    /// both cases the files read before stay in the list.
    pub fn read(&mut self, bytes: &mut BytesMut) -> (res: Result<Stop, ReadError>)
        ensures
            final(self).files@.len() >= old(self).files@.len(),
            final(self).files@.take(old(self).files@.len() as int) == old(self).files@,
            entries(final(self).files@) == entries(old(self).files@) + decode(
                contents(*old(bytes)),
            ).entries,
            contents(*final(bytes)) == decode(contents(*old(bytes))).rest,
            res == decode(contents(*old(bytes))).outcome,
    {
        let ghost whole = decode(contents(*bytes));
        loop
            invariant
                self.files@.len() >= old(self).files@.len(),
                self.files@.take(old(self).files@.len() as int) == old(self).files@,
                whole == decode(contents(*old(bytes))),
                whole.entries == entries(self.files@).skip(old(self).files@.len() as int) + decode(
                    contents(*bytes),
                ).entries,
                whole.rest == decode(contents(*bytes)).rest,
                whole.outcome == decode(contents(*bytes)).outcome,
            decreases contents(*bytes).len(),
        {
            let ghost read_so_far = self.files@;
            proof {
                reveal(decode);
            }
            match next_frame(bytes) {
                Err(error) => {
                    proof {
                        lemma_entries_split(self.files@, old(self).files@.len() as int);
                    }
                    return Err(error);
                },
                Ok(Frame::Halt(stop)) => {
                    proof {
                        lemma_entries_split(self.files@, old(self).files@.len() as int);
                    }
                    return Ok(stop);
                },
                Ok(Frame::Record { name, payload }) => {
                    match decompress(payload.as_ref()) {
                        Err(_) => {
                            proof {
                                lemma_entries_split(self.files@, old(self).files@.len() as int);
                            }
                            return Ok(Stop::BadContent);
                        },
                        Ok(content) => {
                            self.files.push(File { name, content });
                            assert(self.files@.take(old(self).files@.len() as int)
                                =~= old(self).files@);
                            assert(entries(self.files@).skip(old(self).files@.len() as int)
                                =~= entries(read_so_far).skip(old(self).files@.len() as int)
                                + seq![self.files@.last()@]);
                        },
                    }
                },
            }
        }
    }
}

/// The entries of a list are those of its first `mid` files and then those
/// of the others.
proof fn lemma_entries_split(files: Seq<File>, mid: int)
    requires
        0 <= mid <= files.len(),
    ensures
        entries(files) == entries(files.take(mid)) + entries(files).skip(mid),
{
    assert(entries(files) =~= entries(files.take(mid)) + entries(files).skip(mid));
}

} // verus!
