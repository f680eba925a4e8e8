//! What the rest of the crate assumes about `bytes::BytesMut`.

use bytes::{BufMut, BytesMut};
use vstd::prelude::*;

verus! {

/// `bytes::BytesMut`, a growable buffer of bytes. Nothing is known of a
/// value but what `contents` says it holds.
#[verifier::external_type_specification]
#[verifier::external_body]
pub struct ExBytesMut(bytes::BytesMut);

/// The bytes that a buffer holds, first to last.
pub uninterp spec fn contents(buf: BytesMut) -> Seq<u8>;

/// `BytesMut::new` gives a buffer that holds no bytes.
pub assume_specification[ BytesMut::new ]() -> (buf: BytesMut)
    ensures
        contents(buf) == Seq::<u8>::empty(),
;

/// `BytesMut::len` is the number of bytes held.
pub assume_specification[ BytesMut::len ](buf: &BytesMut) -> (n: usize)
    ensures
        n == contents(*buf).len(),
;

/// `BytesMut::split_to` hands out the first `at` bytes and keeps the others;
/// it panics when `at` is more than the buffer holds.
pub assume_specification[ BytesMut::split_to ](buf: &mut BytesMut, at: usize) -> (head: BytesMut)
    requires
        at <= contents(*old(buf)).len(),
    ensures
        contents(head) == contents(*old(buf)).take(at as int),
        contents(*final(buf)) == contents(*old(buf)).skip(at as int),
;

/// `AsRef::<[u8]>::as_ref` on a `BytesMut` borrows exactly the bytes held.
pub assume_specification[ <BytesMut as AsRef<[u8]>>::as_ref ](buf: &BytesMut) -> (s: &[u8])
    ensures
        s@ == contents(*buf),
;

/// `BufMut::put` with a byte slice appends the slice to what the buffer
/// holds. A `BytesMut` grows as needed; as with `Vec`, a buffer that can
/// grow no further ends the program, which the contract leaves aside.
#[verifier::external_body]
pub(crate) fn put_slice(buf: &mut BytesMut, src: &[u8])
    ensures
        contents(*final(buf)) == contents(*old(buf)) + src@,
{
    buf.put(src)
}

} // verus!
