//! The join handshake.
//!
//! A peer announces itself in a room with a token drawn at random, then waits
//! for an announcement in the same room that bears another token: its own
//! announcement comes back from the relay and must not pair it with itself.
//! The peer with the smaller token plays White. On pairing, a peer announces
//! itself once more, so that a peer who joined first and whose first
//! announcement went unheard can pair as well.
//!
//! Waiting is the caller's part: it hands each text that comes in to
//! [`Matchmaker::on_message`] until a session comes back. Nothing here bounds
//! that wait.
use vstd::prelude::*;
use vstd::utf8::*;
use vstd::string::StringSliceAdditionalSpecFns;
use rand::Rng;
use crate::message::{
    field, lemma_parse_text_of, parse, parse_spec, text_of, Command, Message, MessageView,
};
use crate::session::{Color, Session, SessionView, FIRST_TURN};

verus! {

/// The side of the peer that holds `local` when the other holds `remote`:
/// White for the smaller token.
pub open spec fn color_for(local: u8, remote: u8) -> Color {
    if local < remote {
        Color::White
    } else {
        Color::Black
    }
}

/// The token of the peer that `text` announces in `room` to the holder of
/// `token`, if it announces one: a token other than `token`.
pub open spec fn peer_in(room: Seq<u8>, token: u8, text: Seq<u8>) -> Option<u8> {
    match parse_spec(text) {
        Ok(m) => match m.command {
            Command::Join { token: other } => if m.room == room && other != token {
                Some(other)
            } else {
                None
            },
            _ => None,
        },
        Err(_) => None,
    }
}

/// Two peers with different tokens get different sides, White going to the
/// smaller token, whichever of the two holds it.
pub proof fn lemma_colors_differ(a: u8, b: u8)
    requires
        a != b,
    ensures
        color_for(a, b) != color_for(b, a),
        color_for(a, b) == Color::White <==> a < b,
        color_for(b, a) == Color::White <==> b < a,
{
}

/// Two peers that announce themselves in one room with different tokens pair
/// with each other, and neither pairs with its own announcement.
pub proof fn lemma_announcements_pair(room: Seq<u8>, a: u8, b: u8)
    requires
        field(room),
        a != b,
    ensures
        peer_in(room, a, text_of(MessageView { room, command: Command::Join { token: b } }))
            == Some(b),
        peer_in(room, b, text_of(MessageView { room, command: Command::Join { token: a } }))
            == Some(a),
        peer_in(room, a, text_of(MessageView { room, command: Command::Join { token: a } }))
            == None::<u8>,
{
    lemma_parse_text_of(MessageView { room, command: Command::Join { token: a } });
    lemma_parse_text_of(MessageView { room, command: Command::Join { token: b } });
}

/// Chooses the side of the peer that holds `local` when the other holds
/// `remote`.
pub fn assign_color(local: u8, remote: u8) -> (c: Color)
    ensures
        c == color_for(local, remote),
{
    if local < remote {
        Color::White
    } else {
        Color::Black
    }
}

/// `Rng::gen` on `rand::thread_rng()`, for one byte. Any byte may come back,
/// so nothing is claimed of it. The generator is seeded from the operating
/// system on first use in a thread and panics if that fails.
#[verifier::external_body]
fn random_token() -> u8 {
    rand::thread_rng().gen()
}

/// A peer that has announced itself, or is about to, and has no opponent yet.
#[derive(Debug)]
pub struct Matchmaker {
    room: String,
    token: u8,
}

/// A matchmaker as contracts see it: the room by the bytes of its name.
pub struct MatchmakerView {
    pub room: Seq<u8>,
    pub token: u8,
}

impl View for Matchmaker {
    type V = MatchmakerView;

    closed spec fn view(&self) -> MatchmakerView {
        MatchmakerView { room: encode_utf8(self.room@), token: self.token }
    }
}

/// Where the handshake stands after a text came in.
#[derive(Debug)]
pub enum Handshake {
    /// No opponent yet: go on waiting.
    Waiting(Matchmaker),
    /// An opponent has joined: send `reply`, then play `session`.
    Paired { session: Session, reply: String },
}

impl Matchmaker {
    /// A peer that joins `room` with the tie-break token `token`.
    pub fn new(room: String, token: u8) -> (m: Matchmaker)
        ensures
            m@ == (MatchmakerView { room: encode_utf8(room@), token }),
    {
        Matchmaker { room, token }
    }

    /// A peer that joins `room` with a token drawn at random from all bytes.
    pub fn with_random_token(room: String) -> (m: Matchmaker)
        ensures
            m@.room == encode_utf8(room@),
    {
        let token: u8 = random_token();
        Matchmaker::new(room, token)
    }

    /// The token of this peer.
    pub fn token(&self) -> (t: u8)
        ensures
            t == self@.token,
    {
        self.token
    }

    /// The text that announces this peer in its room.
    pub fn announcement(&self) -> (text: String)
        ensures
            encode_utf8(text@) == text_of(
                MessageView { room: self@.room, command: Command::Join { token: self@.token } },
            ),
    {
        let message = Message {
            room: self.room.clone(),
            command: Command::Join { token: self.token },
        };
        message.to_text()
    }

    /// Takes in a text from the relay. An announcement in this room that
    /// bears another token pairs the two peers: the session starts with the
    /// side that the tokens give, and the reply is this peer's announcement
    /// once more. Any other text leaves the peer waiting as it was.
    pub fn on_message(self, text: &str) -> (r: Handshake)
        ensures
            match peer_in(self@.room, self@.token, text.spec_bytes()) {
                Some(peer) => r matches Handshake::Paired { session, reply } && session@ == (
                    SessionView {
                        room: self@.room,
                        token: self@.token,
                        color: color_for(self@.token, peer),
                        turn_counter: FIRST_TURN,
                    }
                ) && encode_utf8(reply@) == text_of(
                    MessageView { room: self@.room, command: Command::Join { token: self@.token } },
                ),
                None => r matches Handshake::Waiting(m) && m@ == self@,
            },
    {
        let message = match parse(text) {
            Ok(message) => message,
            Err(_) => {
                return Handshake::Waiting(self);
            },
        };
        proof {
            encode_utf8_decode_utf8(message.room@);
            encode_utf8_decode_utf8(self.room@);
        }
        match message.command {
            Command::Join { token } => if message.room == self.room && token != self.token {
                let reply = self.announcement();
                let color = assign_color(self.token, token);
                Handshake::Paired { session: Session::new(self.room, self.token, color), reply }
            } else {
                Handshake::Waiting(self)
            },
            _ => Handshake::Waiting(self),
        }
    }
}

} // verus!
