//! The decisions of the connection worker.
//!
//! The worker owns the socket and polls it: in each round it tries to read
//! one frame, then takes at most one text from the outbound queue and writes
//! it, then sleeps for [`POLL_INTERVAL_MS`]. Reading, writing and sleeping are
//! the caller's; what to do with each outcome is decided here. A frame or a
//! text that the codec refuses is discarded and the worker goes on. A write
//! that fails is not tried again.
use vstd::prelude::*;
use vstd::utf8::*;
use vstd::string::StringSliceAdditionalSpecFns;
use crate::frame::{decode, encode, padded, payload, CodecError, Frame, FRAME_SIZE};

verus! {

/// Milliseconds that the worker sleeps between two rounds.
pub const POLL_INTERVAL_MS: u64 = 30;

/// The address of the relay where none is given.
pub const DEFAULT_RELAY: &'static str = "127.0.0.1:6000";

/// How an attempt to read one frame from the socket ended.
#[derive(Debug, PartialEq, Eq)]
pub enum ReadEvent {
    /// A whole frame came in.
    Frame(Frame),
    /// Nothing is there to be read yet.
    WouldBlock,
    /// The read failed for any other reason.
    Failed,
}

/// What the worker does after an attempt to read.
#[derive(Debug, PartialEq, Eq)]
pub enum ReadAction {
    /// Put the text on the inbound queue.
    Deliver(String),
    /// Go on: nothing came in.
    Idle,
    /// Go on: a frame came in and is no text.
    Discard(CodecError),
    /// Leave the loop: the connection is lost.
    Stop,
}

/// How taking one text from the outbound queue ended.
#[derive(Debug, PartialEq, Eq)]
pub enum OutboundEvent {
    /// A text waits to be sent.
    Text(String),
    /// The queue is empty.
    Empty,
    /// The application has dropped its end of the queue.
    Closed,
}

/// What the worker does after looking at the outbound queue.
#[derive(Debug, PartialEq, Eq)]
pub enum WriteAction {
    /// Write the frame to the socket.
    Write(Frame),
    /// Go on: nothing waits.
    Idle,
    /// Go on: a text waited and fits no frame.
    Discard(CodecError),
    /// Leave the loop: nobody is left to work for.
    Stop,
}

/// Why the program ends.
#[derive(Clone, Copy, Debug, PartialEq, Eq, Structural)]
pub enum Ending {
    /// The two peers' turn counters have parted.
    Desynchronized,
    /// The relay could not be reached at the start.
    ConnectionFailed,
    /// The worker has stopped and closed the inbound queue.
    Disconnected,
}

/// The exit code of an ending.
pub open spec fn exit_code_of(ending: Ending) -> u8 {
    match ending {
        Ending::Desynchronized => 0,
        Ending::ConnectionFailed => 1,
        Ending::Disconnected => 1,
    }
}

/// The address to connect to when the user entered `entered`: the default
/// relay where nothing was entered.
pub fn relay_address(entered: &str) -> (address: &str)
    ensures
        address@ == if entered@.len() == 0 {
            DEFAULT_RELAY@
        } else {
            entered@
        },
{
    if entered.is_empty() {
        DEFAULT_RELAY
    } else {
        entered
    }
}

/// Decides what follows an attempt to read a frame.
pub fn on_read(event: ReadEvent) -> (action: ReadAction)
    ensures
        match event {
            ReadEvent::Frame(frame) => if valid_utf8(payload(frame@)) {
                action matches ReadAction::Deliver(text) && text@ == decode_utf8(payload(frame@))
            } else {
                action == ReadAction::Discard(CodecError::InvalidEncoding)
            },
            ReadEvent::WouldBlock => action == ReadAction::Idle,
            ReadEvent::Failed => action == ReadAction::Stop,
        },
{
    match event {
        ReadEvent::Frame(frame) => match decode(&frame) {
            Ok(text) => ReadAction::Deliver(text),
            Err(e) => ReadAction::Discard(e),
        },
        ReadEvent::WouldBlock => ReadAction::Idle,
        ReadEvent::Failed => ReadAction::Stop,
    }
}

/// Decides what follows a look at the outbound queue.
pub fn on_outbound(event: OutboundEvent) -> (action: WriteAction)
    ensures
        match event {
            OutboundEvent::Text(text) => if encode_utf8(text@).len() < FRAME_SIZE {
                action matches WriteAction::Write(frame) && frame@ == padded(encode_utf8(text@))
            } else {
                action == WriteAction::Discard(CodecError::Oversize)
            },
            OutboundEvent::Empty => action == WriteAction::Idle,
            OutboundEvent::Closed => action == WriteAction::Stop,
        },
{
    match event {
        OutboundEvent::Text(text) => match encode(text.as_str()) {
            Ok(frame) => WriteAction::Write(frame),
            Err(e) => WriteAction::Discard(e),
        },
        OutboundEvent::Empty => WriteAction::Idle,
        OutboundEvent::Closed => WriteAction::Stop,
    }
}

/// The code with which the program exits on `ending`.
pub fn exit_code(ending: Ending) -> (code: u8)
    ensures
        code == exit_code_of(ending),
{
    match ending {
        Ending::Desynchronized => 0,
        Ending::ConnectionFailed => 1,
        Ending::Disconnected => 1,
    }
}

} // verus!
