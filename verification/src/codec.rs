//! The deflate codec: each call opens a stream of its own, feeds it the
//! whole input, closes it and returns what came out.

use async_compression::tokio::write::{DeflateDecoder, DeflateEncoder};
use std::future::Future;
use std::task::{Context, Poll, Waker};
use tokio::io::AsyncWriteExt;
use vstd::prelude::*;

verus! {

/// `std::io::Error`, the error that the streams report. It is carried
/// through and never looked into.
#[verifier::external_type_specification]
#[verifier::external_body]
pub struct ExIoError(std::io::Error);

/// Why a stream gave no output.
#[derive(Debug)]
pub enum CodecError {
    /// The stream reported an error.
    Stream(std::io::Error),
    /// The stream was not finished after one poll.
    Pending,
}

/// The deflate stream that the encoder writes for `data`, or `None` where
/// it writes none.
pub uninterp spec fn deflated(data: Seq<u8>) -> Option<Seq<u8>>;

/// The bytes that the decoder writes for the stream `data`, or `None`
/// where `data` is not one complete deflate stream.
pub uninterp spec fn inflated(data: Seq<u8>) -> Option<Seq<u8>>;

/// Whether the decoder gives `data` back from the stream that the encoder
/// writes for it.
pub open spec fn restores(data: Seq<u8>) -> bool {
    deflated(data) matches Some(packed) ==> inflated(packed) == Some(data)
}

/// Feeds `data` to a fresh `DeflateEncoder` over a `Vec<u8>` with
/// `write_all`, closes it with `shutdown` and takes the vector out with
/// `into_inner`. Each of the two futures is polled once: a `Vec<u8>` sink is
/// always ready, so once is enough; `None` stands for one that was not.
///
/// Trusted: the outcome depends on `data` alone, which makes it
/// `deflated(data)`; and the decoder's output for the stream that comes out
/// is `data` again.
#[verifier::external_body]
fn run_encoder(data: &[u8]) -> (res: Option<Result<Vec<u8>, std::io::Error>>)
    ensures
        res matches Some(Ok(out)) ==> deflated(data@) == Some(out@) && inflated(out@) == Some(
            data@,
        ),
        !(res matches Some(Ok(_))) ==> deflated(data@).is_none(),
{
    let mut cx = Context::from_waker(Waker::noop());
    let mut encoder = DeflateEncoder::new(Vec::new());
    let fed = Box::pin(encoder.write_all(data)).as_mut().poll(&mut cx);
    match fed {
        Poll::Ready(Ok(())) => {},
        Poll::Ready(Err(e)) => return Some(Err(e)),
        Poll::Pending => return None,
    }
    let closed = Box::pin(encoder.shutdown()).as_mut().poll(&mut cx);
    match closed {
        Poll::Ready(Ok(())) => Some(Ok(encoder.into_inner())),
        Poll::Ready(Err(e)) => Some(Err(e)),
        Poll::Pending => None,
    }
}

/// Feeds `data` to a fresh `DeflateDecoder` over a `Vec<u8>` with
/// `write_all`, closes it with `shutdown` and takes the vector out with
/// `into_inner`, polling as `run_encoder` does. The decoder reports an
/// error for input that ends early, that goes on after the end of the
/// stream, or that is no deflate stream at all.
///
/// Trusted: the outcome depends on `data` alone, which makes it
/// `inflated(data)`.
#[verifier::external_body]
fn run_decoder(data: &[u8]) -> (res: Option<Result<Vec<u8>, std::io::Error>>)
    ensures
        res matches Some(Ok(out)) ==> inflated(data@) == Some(out@),
        !(res matches Some(Ok(_))) ==> inflated(data@).is_none(),
{
    let mut cx = Context::from_waker(Waker::noop());
    let mut decoder = DeflateDecoder::new(Vec::new());
    let fed = Box::pin(decoder.write_all(data)).as_mut().poll(&mut cx);
    match fed {
        Poll::Ready(Ok(())) => {},
        Poll::Ready(Err(e)) => return Some(Err(e)),
        Poll::Pending => return None,
    }
    let closed = Box::pin(decoder.shutdown()).as_mut().poll(&mut cx);
    match closed {
        Poll::Ready(Ok(())) => Some(Ok(decoder.into_inner())),
        Poll::Ready(Err(e)) => Some(Err(e)),
        Poll::Pending => None,
    }
}

/// Compresses `data` into one deflate stream.
pub fn compress(data: &[u8]) -> (res: Result<Vec<u8>, CodecError>)
    ensures
        match res {
            Ok(out) => deflated(data@) == Some(out@),
            Err(_) => deflated(data@).is_none(),
        },
        restores(data@),
{
    match run_encoder(data) {
        Some(Ok(out)) => Ok(out),
        Some(Err(e)) => Err(CodecError::Stream(e)),
        None => Err(CodecError::Pending),
    }
}

/// Decompresses one deflate stream.
pub fn decompress(data: &[u8]) -> (res: Result<Vec<u8>, CodecError>)
    ensures
        match res {
            Ok(out) => inflated(data@) == Some(out@),
            Err(_) => inflated(data@).is_none(),
        },
{
    match run_decoder(data) {
        Some(Ok(out)) => Ok(out),
        Some(Err(e)) => Err(CodecError::Stream(e)),
        None => Err(CodecError::Pending),
    }
}

} // verus!
