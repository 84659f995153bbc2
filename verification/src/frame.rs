//! Fixed-size frames and the text codec over them.
//!
//! A frame is exactly [`FRAME_SIZE`] bytes: the UTF-8 bytes of one message,
//! left-aligned, followed by zero bytes. At least one zero byte always
//! follows the text, so a frame carries at most `FRAME_SIZE - 1` bytes of it.
use vstd::prelude::*;
use vstd::utf8::*;
use vstd::string::StringSliceAdditionalSpecFns;
use crate::text::{lemma_ascii_byte_in_utf8, lemma_run_len_is, run_len, string_from_utf8};

verus! {

/// Number of bytes in every frame.
pub const FRAME_SIZE: usize = 64;

/// Why a text could not be framed, or a frame not be read as text.
#[derive(Clone, Copy, Debug, PartialEq, Eq, Structural)]
pub enum CodecError {
    /// The text does not leave room for a terminating zero byte.
    Oversize,
    /// The bytes before the first zero byte are not well-formed UTF-8.
    InvalidEncoding,
}

/// `payload` followed by as many zero bytes as fill a frame.
pub open spec fn padded(payload: Seq<u8>) -> Seq<u8> {
    payload + Seq::new((FRAME_SIZE - payload.len()) as nat, |i: int| 0u8)
}

/// The bytes of `bytes` before its first zero byte.
pub open spec fn payload(bytes: Seq<u8>) -> Seq<u8> {
    bytes.take(run_len(bytes, 0) as int)
}

/// Padding bytes that fit a frame and hold no zero, then cutting at the
/// first zero, gives the bytes back.
pub proof fn lemma_payload_of_padded(bytes: Seq<u8>)
    requires
        bytes.len() < FRAME_SIZE,
        !bytes.contains(0u8),
    ensures
        padded(bytes).len() == FRAME_SIZE,
        payload(padded(bytes)) == bytes,
{
    let frame = padded(bytes);
    assert forall|i: int| 0 <= i < bytes.len() implies frame[i] != 0 by {
        assert(bytes.contains(bytes[i]));
    }
    lemma_run_len_is(frame, 0, bytes.len() as int);
    assert(frame.take(bytes.len() as int) == bytes);
}

/// Framing a text and reading the frame gives the text back, for every text
/// that fits a frame and whose bytes hold no zero.
pub proof fn lemma_decode_encode(text: Seq<char>)
    requires
        encode_utf8(text).len() < FRAME_SIZE,
        !encode_utf8(text).contains(0u8),
    ensures
        payload(padded(encode_utf8(text))) == encode_utf8(text),
        valid_utf8(payload(padded(encode_utf8(text)))),
        decode_utf8(payload(padded(encode_utf8(text)))) == text,
{
    lemma_payload_of_padded(encode_utf8(text));
    encode_utf8_valid_utf8(text);
    encode_utf8_decode_utf8(text);
}

/// The bytes of a text without a null character hold no zero.
pub proof fn lemma_no_null_no_zero(text: Seq<char>)
    requires
        !text.contains('\0'),
    ensures
        !encode_utf8(text).contains(0u8),
{
    if encode_utf8(text).contains(0u8) {
        lemma_ascii_byte_in_utf8(text, 0u8);
    }
}

/// One frame as it travels on the wire.
#[derive(Debug, PartialEq, Eq)]
pub struct Frame {
    bytes: Vec<u8>,
}

impl View for Frame {
    type V = Seq<u8>;

    closed spec fn view(&self) -> Seq<u8> {
        self.bytes@
    }
}

impl Frame {
    #[verifier::type_invariant]
    spec fn well_formed(self) -> bool {
        self.bytes@.len() == FRAME_SIZE
    }

    /// Takes `bytes` as a frame if it has the length of one.
    pub fn from_bytes(bytes: Vec<u8>) -> (r: Option<Frame>)
        ensures
            r is Some <==> bytes@.len() == FRAME_SIZE,
            r matches Some(f) ==> f@ == bytes@,
    {
        if bytes.len() == FRAME_SIZE {
            Some(Frame { bytes })
        } else {
            None
        }
    }

    /// The frame's bytes.
    pub fn as_bytes(&self) -> (b: &[u8])
        ensures
            b@ == self@,
            b@.len() == FRAME_SIZE,
    {
        proof {
            use_type_invariant(self);
        }
        self.bytes.as_slice()
    }
}

/// Frames `text`: its UTF-8 bytes, then zero bytes up to the frame size.
/// Fails exactly when the text has `FRAME_SIZE` bytes or more.
pub fn encode(text: &str) -> (r: Result<Frame, CodecError>)
    ensures
        r is Ok <==> text.spec_bytes().len() < FRAME_SIZE,
        r matches Ok(f) ==> f@ == padded(text.spec_bytes()),
        r matches Err(e) ==> e == CodecError::Oversize,
{
    let src = text.as_bytes();
    if src.len() >= FRAME_SIZE {
        return Err(CodecError::Oversize);
    }
    let mut bytes: Vec<u8> = Vec::with_capacity(FRAME_SIZE);
    let mut i: usize = 0;
    while i < src.len()
        invariant
            i <= src.len(),
            bytes@ == src@.take(i as int),
        decreases src.len() - i,
    {
        bytes.push(src[i]);
        i += 1;
    }
    assert(src@.take(src.len() as int) == src@);
    while bytes.len() < FRAME_SIZE
        invariant
            src@.len() <= bytes@.len() <= FRAME_SIZE,
            bytes@.take(src@.len() as int) == src@,
            forall|k: int| src@.len() <= k < bytes@.len() ==> bytes@[k] == 0,
        decreases FRAME_SIZE - bytes.len(),
    {
        bytes.push(0);
    }
    assert(bytes@ =~= padded(src@));
    Ok(Frame { bytes })
}

/// Reads the text of `frame`: the bytes before its first zero byte, as UTF-8.
/// Fails exactly when those bytes are not well-formed UTF-8.
pub fn decode(frame: &Frame) -> (r: Result<String, CodecError>)
    ensures
        r is Ok <==> valid_utf8(payload(frame@)),
        r matches Ok(text) ==> text@ == decode_utf8(payload(frame@)),
        r matches Err(e) ==> e == CodecError::InvalidEncoding,
{
    let src = frame.as_bytes();
    let mut run: Vec<u8> = Vec::new();
    let mut i: usize = 0;
    while i < src.len() && src[i] != 0
        invariant
            i <= src.len(),
            run@ == src@.take(i as int),
            forall|k: int| 0 <= k < i ==> src@[k] != 0,
        decreases src.len() - i,
    {
        run.push(src[i]);
        i += 1;
    }
    proof {
        lemma_run_len_is(src@, 0, i as int);
    }
    match string_from_utf8(run) {
        Some(text) => Ok(text),
        None => Err(CodecError::InvalidEncoding),
    }
}

} // verus!
