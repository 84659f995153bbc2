//! The move synchroniser: one turn counter per peer.
//!
//! Both peers start at 1 and add one for every move that the rules engine
//! accepts, so a move travels with the counter that it leads to. The relay
//! hands a peer its own frames back: a move that bears the local counter is
//! that echo and is ignored. A move that bears the next counter is the
//! peer's. Any other counter shows that the two histories have parted, which
//! nothing here repairs.
//!
//! The rules engine is not part of this library. A function that depends on
//! its verdict takes the verdict as `accepted`; the caller applies a remote
//! move to its game only when [`Session::receive`] hands it
//! [`Inbound::Move`].
use vstd::prelude::*;
use vstd::utf8::*;
use vstd::string::StringSliceAdditionalSpecFns;
use crate::message::{parse, parse_spec, text_of, Command, Message, MessageView, ParseError, Square};

verus! {

/// The turn counter of a fresh game.
pub const FIRST_TURN: u32 = 1;

/// The side that a peer plays.
#[derive(Clone, Copy, Debug, PartialEq, Eq, Structural)]
pub enum Color {
    White,
    Black,
}

/// Why a session cannot go on.
#[derive(Clone, Copy, Debug, PartialEq, Eq, Structural)]
pub enum SyncError {
    /// A move of the peer bears a counter that is neither the local one nor
    /// the next.
    CounterMismatch { local: u32, remote: u32 },
    /// The rules engine refused the peer's next move.
    MoveRejected { counter: u32 },
    /// The turn counter has reached the largest number it can hold.
    CounterExhausted,
}

/// How a move numbered by the peer stands to the local counter.
#[derive(Clone, Copy, Debug, PartialEq, Eq, Structural)]
pub enum Verdict {
    /// The local peer's own move, handed back by the relay.
    Echo,
    /// The peer's next move.
    Next,
    /// The histories have parted.
    Diverged,
}

/// What the application is to do with a text that came in.
#[derive(Clone, Copy, Debug, PartialEq, Eq, Structural)]
pub enum Inbound {
    /// Nothing: the text is for another room, announces a peer, or echoes a
    /// local move.
    Ignored,
    /// Nothing: the text is no message.
    Dropped(ParseError),
    /// Hand the move to the rules engine, then report its verdict with
    /// [`Session::confirm_remote_move`].
    Move { counter: u32, from: Square, to: Square },
    /// Start the game over: the peer did, and the counter is back at
    /// [`FIRST_TURN`].
    Reset,
    /// End the session: the counters have parted.
    Desynchronized { local: u32, remote: u32 },
}

/// The verdict on a move numbered `remote` at the counter `local`.
pub open spec fn verdict_of(local: u32, remote: u32) -> Verdict {
    if remote == local {
        Verdict::Echo
    } else if remote == local + 1 {
        Verdict::Next
    } else {
        Verdict::Diverged
    }
}

/// The counter of the move that `text` brings to `room`, if it brings one.
pub open spec fn move_counter_in(room: Seq<u8>, text: Seq<u8>) -> Option<u32> {
    match parse_spec(text) {
        Ok(m) => match m.command {
            Command::Move { counter, .. } => if m.room == room {
                Some(counter)
            } else {
                None
            },
            _ => None,
        },
        Err(_) => None,
    }
}

/// What a session in `room` at `turn_counter` makes of `text`.
pub open spec fn inbound_of(room: Seq<u8>, turn_counter: u32, text: Seq<u8>) -> Inbound {
    match parse_spec(text) {
        Err(e) => Inbound::Dropped(e),
        Ok(m) => if m.room != room {
            Inbound::Ignored
        } else {
            match m.command {
                Command::Join { .. } => Inbound::Ignored,
                Command::Reset => Inbound::Reset,
                Command::Move { counter, from, to } => match verdict_of(turn_counter, counter) {
                    Verdict::Echo => Inbound::Ignored,
                    Verdict::Next => Inbound::Move { counter, from, to },
                    Verdict::Diverged => Inbound::Desynchronized {
                        local: turn_counter,
                        remote: counter,
                    },
                },
            }
        },
    }
}

/// The counter after a local move that the rules engine accepted or not.
pub open spec fn after_local(turn_counter: u32, accepted: bool) -> Result<u32, SyncError> {
    if !accepted {
        Ok(turn_counter)
    } else if turn_counter == u32::MAX {
        Err(SyncError::CounterExhausted)
    } else {
        Ok((turn_counter + 1) as u32)
    }
}

/// The counter after a move that the peer numbered `counter` and that the
/// rules engine, asked only about the peer's next move, accepted or not.
pub open spec fn after_remote(turn_counter: u32, counter: u32, accepted: bool) -> Result<
    u32,
    SyncError,
> {
    match verdict_of(turn_counter, counter) {
        Verdict::Echo => Ok(turn_counter),
        Verdict::Next => if accepted {
            Ok(counter)
        } else {
            Err(SyncError::MoveRejected { counter })
        },
        Verdict::Diverged => Err(SyncError::CounterMismatch { local: turn_counter, remote: counter }),
    }
}

/// A move as the turn counter meets it.
pub enum MoveEvent {
    /// A local move, with the verdict of the rules engine.
    Local { accepted: bool },
    /// A move that the peer numbered `counter`, with the verdict that the
    /// rules engine gives if it is asked.
    Remote { counter: u32, accepted: bool },
}

/// The counter after one move, or the error that ends the session.
pub open spec fn after_move(turn_counter: u32, event: MoveEvent) -> Result<u32, SyncError> {
    match event {
        MoveEvent::Local { accepted } => after_local(turn_counter, accepted),
        MoveEvent::Remote { counter, accepted } => after_remote(turn_counter, counter, accepted),
    }
}

/// The move changes the game: the rules engine accepted it, and the counter
/// let it through.
pub open spec fn applied(turn_counter: u32, event: MoveEvent) -> bool {
    match event {
        MoveEvent::Local { accepted } => accepted && turn_counter < u32::MAX,
        MoveEvent::Remote { counter, accepted } => accepted && counter == turn_counter + 1,
    }
}

/// The counter after the moves `events`, one after the other, or the first
/// error on the way.
pub open spec fn after_moves(turn_counter: u32, events: Seq<MoveEvent>) -> Result<u32, SyncError>
    decreases events.len(),
{
    if events.len() == 0 {
        Ok(turn_counter)
    } else {
        match after_moves(turn_counter, events.drop_last()) {
            Ok(n) => after_move(n, events.last()),
            Err(e) => Err(e),
        }
    }
}

/// How many of the moves `events` change the game, as long as no error ends
/// the session.
pub open spec fn applied_count(turn_counter: u32, events: Seq<MoveEvent>) -> nat
    decreases events.len(),
{
    if events.len() == 0 {
        0
    } else {
        match after_moves(turn_counter, events.drop_last()) {
            Ok(n) => applied_count(turn_counter, events.drop_last()) + if applied(
                n,
                events.last(),
            ) {
                1nat
            } else {
                0nat
            },
            Err(_) => applied_count(turn_counter, events.drop_last()),
        }
    }
}

/// One move that does not end the session adds one to the counter if it
/// changes the game, and nothing if it does not.
pub proof fn lemma_move_counts_once(turn_counter: u32, event: MoveEvent)
    ensures
        after_move(turn_counter, event) matches Ok(n) ==> n == turn_counter + if applied(
            turn_counter,
            event,
        ) {
            1int
        } else {
            0int
        },
{
}

/// Over any run of moves that does not end the session the counter never
/// falls, and it grows by exactly the number of moves that changed the game.
pub proof fn lemma_counter_counts_moves(turn_counter: u32, events: Seq<MoveEvent>)
    ensures
        after_moves(turn_counter, events) matches Ok(n) ==> n == turn_counter + applied_count(
            turn_counter,
            events,
        ) && n >= turn_counter,
    decreases events.len(),
{
    if events.len() > 0 {
        lemma_counter_counts_moves(turn_counter, events.drop_last());
        if let Ok(n) = after_moves(turn_counter, events.drop_last()) {
            lemma_move_counts_once(n, events.last());
        }
    }
}

/// Compares the counter of a peer's move with the local one.
pub fn classify(local: u32, remote: u32) -> (v: Verdict)
    ensures
        v == verdict_of(local, remote),
{
    if remote == local {
        Verdict::Echo
    } else if local < u32::MAX && remote == local + 1 {
        Verdict::Next
    } else {
        Verdict::Diverged
    }
}

/// One peer's share of a game: its room, its token, its side, and the turn
/// counter.
#[derive(Debug)]
pub struct Session {
    room: String,
    token: u8,
    color: Color,
    turn_counter: u32,
}

/// A session as contracts see it: the room by the bytes of its name.
pub struct SessionView {
    pub room: Seq<u8>,
    pub token: u8,
    pub color: Color,
    pub turn_counter: u32,
}

impl View for Session {
    type V = SessionView;

    closed spec fn view(&self) -> SessionView {
        SessionView {
            room: encode_utf8(self.room@),
            token: self.token,
            color: self.color,
            turn_counter: self.turn_counter,
        }
    }
}

impl Session {
    #[verifier::type_invariant]
    spec fn counting(self) -> bool {
        self.turn_counter >= FIRST_TURN
    }

    /// A session at the start of a game.
    pub fn new(room: String, token: u8, color: Color) -> (s: Session)
        ensures
            s@ == (SessionView {
                room: encode_utf8(room@),
                token,
                color,
                turn_counter: FIRST_TURN,
            }),
    {
        Session { room, token, color, turn_counter: FIRST_TURN }
    }

    /// The name of the room.
    pub fn room(&self) -> (r: &str)
        ensures
            r.spec_bytes() == self@.room,
    {
        self.room.as_str()
    }

    /// The token that this peer announced itself with.
    pub fn token(&self) -> (t: u8)
        ensures
            t == self@.token,
    {
        self.token
    }

    /// The side that this peer plays.
    pub fn color(&self) -> (c: Color)
        ensures
            c == self@.color,
    {
        self.color
    }

    /// The turn counter: [`FIRST_TURN`] plus the moves made since the game
    /// began.
    pub fn turn_counter(&self) -> (n: u32)
        ensures
            n == self@.turn_counter,
            n >= FIRST_TURN,
    {
        proof {
            use_type_invariant(self);
        }
        self.turn_counter
    }

    /// Tells whether this peer is the one to move when `side_to_move` is.
    pub fn has_turn(&self, side_to_move: Color) -> (r: bool)
        ensures
            r == (side_to_move == self@.color),
    {
        side_to_move == self.color
    }

    /// Takes note of a local move from `from` to `to` on which the rules
    /// engine gave its verdict. An accepted move advances the counter by one
    /// and comes back as the text to send; a refused one changes nothing.
    pub fn apply_local_move(&mut self, from: Square, to: Square, accepted: bool) -> (r: Result<
        Option<String>,
        SyncError,
    >)
        requires
            from.on_board(),
            to.on_board(),
        ensures
            match after_local(old(self)@.turn_counter, accepted) {
                Ok(n) => {
                    &&& final(self)@ == (SessionView { turn_counter: n, ..old(self)@ })
                    &&& accepted ==> (r matches Ok(Some(text)) && encode_utf8(text@) == text_of(
                        MessageView {
                            room: old(self)@.room,
                            command: Command::Move { counter: n, from, to },
                        },
                    ))
                    &&& !accepted ==> r == Ok::<Option<String>, SyncError>(None)
                },
                Err(e) => r == Err::<Option<String>, SyncError>(e) && final(self)@ == old(self)@,
            },
    {
        if !accepted {
            return Ok(None);
        }
        if self.turn_counter == u32::MAX {
            return Err(SyncError::CounterExhausted);
        }
        self.turn_counter = self.turn_counter + 1;
        let message = Message {
            room: self.room.clone(),
            command: Command::Move { counter: self.turn_counter, from, to },
        };
        Ok(Some(message.to_text()))
    }

    /// Takes in a text from the peer or the relay and says what to do with it.
    ///
    /// Only a reset changes the session: it puts the counter back at
    /// [`FIRST_TURN`], whatever the counter was. A move in this room that
    /// bears the local counter is ignored; one that bears neither the local
    /// counter nor the next ends the session. Neither is handed out as
    /// [`Inbound::Move`], so neither reaches the game.
    pub fn receive(&mut self, text: &str) -> (r: Inbound)
        ensures
            r == inbound_of(old(self)@.room, old(self)@.turn_counter, text.spec_bytes()),
            final(self)@ == if r is Reset {
                SessionView { turn_counter: FIRST_TURN, ..old(self)@ }
            } else {
                old(self)@
            },
            move_counter_in(old(self)@.room, text.spec_bytes()) == Some(old(self)@.turn_counter)
                ==> r == Inbound::Ignored && final(self)@ == old(self)@,
            move_counter_in(old(self)@.room, text.spec_bytes()) matches Some(counter) && counter
                != old(self)@.turn_counter && counter != old(self)@.turn_counter + 1
                ==> r is Desynchronized && final(self)@ == old(self)@,
            parse_spec(text.spec_bytes()) matches Ok(m) && m.room == old(self)@.room
                && m.command is Reset ==> r == Inbound::Reset && final(self)@.turn_counter
                == FIRST_TURN,
            r matches Inbound::Move { from, to, .. } ==> from.on_board() && to.on_board(),
    {
        let message = match parse(text) {
            Ok(message) => message,
            Err(e) => {
                return Inbound::Dropped(e);
            },
        };
        proof {
            encode_utf8_decode_utf8(message.room@);
            encode_utf8_decode_utf8(self.room@);
        }
        if message.room != self.room {
            return Inbound::Ignored;
        }
        match message.command {
            Command::Join { .. } => Inbound::Ignored,
            Command::Reset => {
                self.turn_counter = FIRST_TURN;
                Inbound::Reset
            },
            Command::Move { counter, from, to } => match classify(self.turn_counter, counter) {
                Verdict::Echo => Inbound::Ignored,
                Verdict::Next => Inbound::Move { counter, from, to },
                Verdict::Diverged => Inbound::Desynchronized {
                    local: self.turn_counter,
                    remote: counter,
                },
            },
        }
    }

    /// Takes note of the rules engine's verdict on the move that
    /// [`Session::receive`] handed out with `counter`. An accepted move sets
    /// the counter to `counter`; a refused one ends the session, and so does a
    /// `counter` that is not the next.
    pub fn confirm_remote_move(&mut self, counter: u32, accepted: bool) -> (r: Result<
        (),
        SyncError,
    >)
        ensures
            match after_remote(old(self)@.turn_counter, counter, accepted) {
                Ok(n) => r is Ok && final(self)@ == (SessionView { turn_counter: n, ..old(self)@ }),
                Err(e) => r == Err::<(), SyncError>(e) && final(self)@ == old(self)@,
            },
    {
        proof {
            use_type_invariant(&*self);
        }
        match classify(self.turn_counter, counter) {
            Verdict::Echo => Ok(()),
            Verdict::Next => if accepted {
                self.turn_counter = counter;
                Ok(())
            } else {
                Err(SyncError::MoveRejected { counter })
            },
            Verdict::Diverged => Err(
                SyncError::CounterMismatch { local: self.turn_counter, remote: counter },
            ),
        }
    }

    /// Starts the game over on this side and comes back with the text that
    /// makes the peer do the same.
    pub fn local_reset(&mut self) -> (text: String)
        ensures
            final(self)@ == (SessionView { turn_counter: FIRST_TURN, ..old(self)@ }),
            encode_utf8(text@) == text_of(
                MessageView { room: old(self)@.room, command: Command::Reset },
            ),
    {
        self.turn_counter = FIRST_TURN;
        let message = Message { room: self.room.clone(), command: Command::Reset };
        message.to_text()
    }
}

} // verus!
