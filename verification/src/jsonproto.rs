//! Framing of messages on the wire.
//!
//! Each message is a line of JSON: the bytes of the message, which hold no
//! newline, and then a single newline that ends it.

use bytes::BytesMut;
use vstd::prelude::*;

verus! {

/// The byte that ends a message.
pub const DELIMITER: u8 = 10;

/// The buffer type of the `bytes` crate, in which incoming and outgoing
/// bytes are kept.
#[verifier::external_type_specification]
#[verifier::external_body]
pub struct ExBytesMut(BytesMut);

/// The bytes that a buffer holds, first to last.
pub uninterp spec fn buffered(buffer: BytesMut) -> Seq<u8>;

/// `BytesMut::len`: the number of bytes in the buffer.
#[verifier::external_body]
fn buffer_len(buffer: &BytesMut) -> (len: usize)
    ensures
        len == buffered(*buffer).len(),
{
    buffer.len()
}

/// Indexing a `BytesMut` through its `Deref` to a slice: the `i`'th byte in
/// the buffer. The index must be in range, or the slice would panic.
#[verifier::external_body]
fn buffer_byte(buffer: &BytesMut, i: usize) -> (byte: u8)
    requires
        i < buffered(*buffer).len(),
    ensures
        byte == buffered(*buffer)[i as int],
{
    buffer[i]
}

/// `BytesMut::split_to`: afterwards the buffer holds the bytes from `at`
/// on, and the result holds those before `at`. It panics where `at` is
/// beyond the length.
#[verifier::external_body]
fn buffer_split_to(buffer: &mut BytesMut, at: usize) -> (head: BytesMut)
    requires
        at <= buffered(*old(buffer)).len(),
    ensures
        buffered(head) == buffered(*old(buffer)).take(at as int),
        buffered(*final(buffer)) == buffered(*old(buffer)).skip(at as int),
{
    buffer.split_to(at)
}

/// `BytesMut::extend_from_slice`: appends `bytes` to the buffer. It panics
/// where the new length overflows a `usize`.
#[verifier::external_body]
fn buffer_extend(buffer: &mut BytesMut, bytes: &[u8])
    requires
        buffered(*old(buffer)).len() + bytes@.len() <= usize::MAX,
    ensures
        buffered(*final(buffer)) == buffered(*old(buffer)) + bytes@,
{
    buffer.extend_from_slice(bytes)
}

/// Whether the first delimiter among `bytes` is at index `i`.
pub open spec fn delimiter_at(bytes: Seq<u8>, i: int) -> bool {
    &&& 0 <= i < bytes.len()
    &&& bytes[i] == DELIMITER
    &&& forall|j: int| 0 <= j < i ==> bytes[j] != DELIMITER
}

/// Why a message could not be framed.
#[derive(Debug, Clone, Copy, PartialEq, Eq, Structural)]
pub enum FrameError {
    /// The message holds the delimiter.
    DelimiterInBody,
    /// The buffer cannot hold the message as well.
    TooLong,
}

/// A codec that frames messages as lines.
pub struct JsonCodec {}

impl JsonCodec {
    /// Take the first complete line out of `src`, delimiter included. While
    /// `src` holds no delimiter it is left as it is and there is no line.
    pub fn decode_frame(src: &mut BytesMut) -> (line: Option<BytesMut>)
        ensures
            match line {
                None => {
                    &&& !buffered(*old(src)).contains(DELIMITER)
                    &&& buffered(*final(src)) == buffered(*old(src))
                },
                Some(line) => {
                    &&& delimiter_at(buffered(*old(src)), buffered(line).len() - 1)
                    &&& buffered(line) == buffered(*old(src)).take(buffered(line).len() as int)
                    &&& buffered(*final(src)) == buffered(*old(src)).skip(
                        buffered(line).len() as int,
                    )
                },
            },
    {
        let len: usize = buffer_len(src);
        let mut i: usize = 0;
        while i < len
            invariant
                len == buffered(*src).len(),
                *src == *old(src),
                i <= len,
                forall|j: int| 0 <= j < i ==> buffered(*src)[j] != DELIMITER,
            decreases len - i,
        {
            if buffer_byte(src, i) == DELIMITER {
                let line: BytesMut = buffer_split_to(src, i + 1);
                return Some(line);
            }
            i += 1;
        }
        None
    }

    /// Append `body` and the delimiter that ends it to `dst`. A body that
    /// holds the delimiter is turned away, and so is one that `dst` has no
    /// room for; `dst` is then left as it is.
    pub fn encode_frame(body: &[u8], dst: &mut BytesMut) -> (out: Result<
        (),
        FrameError,
    >)
        ensures
            match out {
                Ok(()) => {
                    &&& !body@.contains(DELIMITER)
                    &&& buffered(*final(dst)) == buffered(*old(dst)) + body@.push(DELIMITER)
                },
                Err(FrameError::DelimiterInBody) => {
                    &&& body@.contains(DELIMITER)
                    &&& buffered(*final(dst)) == buffered(*old(dst))
                },
                Err(FrameError::TooLong) => {
                    &&& !body@.contains(DELIMITER)
                    &&& buffered(*old(dst)).len() + body@.len() + 1 > usize::MAX
                    &&& buffered(*final(dst)) == buffered(*old(dst))
                },
            },
    {
        let mut i: usize = 0;
        while i < body.len()
            invariant
                i <= body@.len(),
                forall|j: int| 0 <= j < i ==> body@[j] != DELIMITER,
            decreases body@.len() - i,
        {
            if body[i] == DELIMITER {
                return Err(FrameError::DelimiterInBody);
            }
            i += 1;
        }
        let held: usize = buffer_len(dst);
        if body.len() == usize::MAX || held > usize::MAX - body.len() - 1 {
            return Err(FrameError::TooLong);
        }
        let ghost before = buffered(*dst);
        buffer_extend(dst, body);
        let end: [u8; 1] = [DELIMITER];
        buffer_extend(dst, end.as_slice());
        proof {
            assert(end@ =~= seq![DELIMITER]);
            assert(buffered(*dst) =~= before + body@.push(DELIMITER));
        }
        Ok(())
    }
}

/// The first delimiter among some bytes is in one place only.
pub proof fn lemma_delimiter_unique(bytes: Seq<u8>, i: int, j: int)
    requires
        delimiter_at(bytes, i),
        delimiter_at(bytes, j),
    ensures
        i == j,
{
}

/// A framed message comes back whole: where a body without a delimiter,
/// framed, is followed by any other bytes, the first delimiter is the one
/// that ends the body, so that the first line is the framed body and what
/// follows is left.
pub proof fn lemma_framed_body_comes_back(body: Seq<u8>, rest: Seq<u8>)
    requires
        !body.contains(DELIMITER),
    ensures
        delimiter_at(body.push(DELIMITER) + rest, body.len() as int),
        (body.push(DELIMITER) + rest).take(body.len() as int + 1) == body.push(DELIMITER),
        (body.push(DELIMITER) + rest).skip(body.len() as int + 1) == rest,
{
    let wire = body.push(DELIMITER) + rest;
    assert forall|j: int| 0 <= j < body.len() implies wire[j] != DELIMITER by {
        assert(wire[j] == body[j]);
        assert(body.contains(body[j]));
    }
    assert(wire.take(body.len() as int + 1) =~= body.push(DELIMITER));
    assert(wire.skip(body.len() as int + 1) =~= rest);
}

} // verus!
