//! The messages of the protocol and their grammar.
//!
//! A message is a line of words separated by spaces:
//!
//! ```text
//! room <name> <token>
//! <name> mv <counter> <from row> <from column> <to row> <to column>
//! <name> reset
//! ```
//!
//! The three forms differ in their number of words, so a room may bear any
//! name, `room`, `mv` and `reset` included. Names are not escaped: one that is
//! empty or holds a space cannot be sent (see [`is_field`]).
use vstd::prelude::*;
use vstd::utf8::*;
use vstd::string::StringSliceAdditionalSpecFns;
use crate::decimal::{
    decimal, lemma_decimal_digits, lemma_decimal_round_trip, number_in, parse_number,
    push_decimal,
};
use crate::frame::{lemma_payload_of_padded, padded, payload, FRAME_SIZE};
use crate::text::{
    is_word, lemma_ascii_is_utf8, lemma_words_single, lemma_words_spaced, push_bytes, span_is, spaced,
    split_words, string_from_utf8, word_string, words, Span, SPACE,
};

verus! {

/// A square of the board, by row and column.
#[derive(Clone, Copy, Debug, PartialEq, Eq, Structural)]
pub struct Square {
    pub row: u8,
    pub col: u8,
}

/// Rows and columns are numbered from 0 up to, not including, this.
pub const BOARD_SIZE: u8 = 8;

impl Square {
    /// The square lies on the board.
    pub open spec fn on_board(self) -> bool {
        self.row < BOARD_SIZE && self.col < BOARD_SIZE
    }

    /// The square at `row` and `col`, if there is one on the board.
    pub fn new(row: u8, col: u8) -> (r: Option<Square>)
        ensures
            r == if row < BOARD_SIZE && col < BOARD_SIZE {
                Some(Square { row, col })
            } else {
                None::<Square>
            },
    {
        if row < BOARD_SIZE && col < BOARD_SIZE {
            Some(Square { row, col })
        } else {
            None
        }
    }
}

/// What a message asks for.
#[derive(Clone, Copy, Debug, PartialEq, Eq, Structural)]
pub enum Command {
    /// A peer announces itself in a room, with its tie-break token.
    Join { token: u8 },
    /// A move, numbered by the turn counter that it leads to.
    Move { counter: u32, from: Square, to: Square },
    /// The game starts over.
    Reset,
}

impl Command {
    /// The squares of a move lie on the board.
    pub open spec fn well_formed(self) -> bool {
        match self {
            Command::Move { from, to, .. } => from.on_board() && to.on_board(),
            _ => true,
        }
    }
}

/// One message: a command, and the room it is said in.
#[derive(Debug, PartialEq, Eq)]
pub struct Message {
    pub room: String,
    pub command: Command,
}

impl Clone for Message {
    fn clone(&self) -> (m: Message)
        ensures
            m == *self,
    {
        Message { room: self.room.clone(), command: self.command }
    }
}

/// A message as the grammar sees it: the room by the bytes of its name.
pub struct MessageView {
    pub room: Seq<u8>,
    pub command: Command,
}

impl View for Message {
    type V = MessageView;

    open spec fn view(&self) -> MessageView {
        MessageView { room: encode_utf8(self.room@), command: self.command }
    }
}

/// Why a text is no message.
#[derive(Clone, Copy, Debug, PartialEq, Eq, Structural)]
pub enum ParseError {
    /// The words follow none of the three forms, or go on past the end of
    /// one.
    Malformed,
    /// The words begin one of the forms and end too early.
    MissingField,
    /// A number is no numeral, or lies outside its range.
    BadInteger,
}

/// The word `room`.
pub open spec fn room_word() -> Seq<u8> {
    seq![0x72u8, 0x6fu8, 0x6fu8, 0x6du8]
}

/// The word `mv`.
pub open spec fn move_word() -> Seq<u8> {
    seq![0x6du8, 0x76u8]
}

/// The word `reset`.
pub open spec fn reset_word() -> Seq<u8> {
    seq![0x72u8, 0x65u8, 0x73u8, 0x65u8, 0x74u8]
}

/// The square that two numerals name, if both are numerals of a row and a
/// column of the board.
pub open spec fn square_in(row: Seq<u8>, col: Seq<u8>) -> Option<Square> {
    match (number_in(row, (BOARD_SIZE - 1) as u32), number_in(col, (BOARD_SIZE - 1) as u32)) {
        (Some(r), Some(c)) => Some(Square { row: r as u8, col: c as u8 }),
        _ => None,
    }
}

/// The message that the words `w` make.
pub open spec fn parse_words(w: Seq<Seq<u8>>) -> Result<MessageView, ParseError> {
    if w.len() == 3 && w[0] == room_word() {
        match number_in(w[2], u8::MAX as u32) {
            Some(token) => Ok(
                MessageView { room: w[1], command: Command::Join { token: token as u8 } },
            ),
            None => Err(ParseError::BadInteger),
        }
    } else if w.len() >= 2 && w[1] == move_word() {
        if w.len() < 7 {
            Err(ParseError::MissingField)
        } else if w.len() > 7 {
            Err(ParseError::Malformed)
        } else {
            match (number_in(w[2], u32::MAX), square_in(w[3], w[4]), square_in(w[5], w[6])) {
                (Some(counter), Some(from), Some(to)) => Ok(
                    MessageView { room: w[0], command: Command::Move { counter, from, to } },
                ),
                _ => Err(ParseError::BadInteger),
            }
        }
    } else if w.len() >= 2 && w[1] == reset_word() {
        if w.len() == 2 {
            Ok(MessageView { room: w[0], command: Command::Reset })
        } else {
            Err(ParseError::Malformed)
        }
    } else if w.len() >= 1 && w[0] == room_word() {
        if w.len() < 3 {
            Err(ParseError::MissingField)
        } else {
            Err(ParseError::Malformed)
        }
    } else {
        Err(ParseError::Malformed)
    }
}

/// One space, as a text.
pub open spec fn space() -> Seq<u8> {
    seq![SPACE]
}

/// The text that writes the message `m`: its words, one space between each
/// two, every number as its shortest numeral.
pub open spec fn text_of(m: MessageView) -> Seq<u8> {
    match m.command {
        Command::Join { token } => room_word() + space() + m.room + space() + decimal(
            token as nat,
        ),
        Command::Move { counter, from, to } => m.room + space() + move_word() + space() + decimal(
            counter as nat,
        ) + space() + decimal(from.row as nat) + space() + decimal(from.col as nat) + space()
            + decimal(to.row as nat) + space() + decimal(to.col as nat),
        Command::Reset => m.room + space() + reset_word(),
    }
}

/// The text of a message, word by word: each word, a space, and the rest.
spec fn text_by_words(m: MessageView) -> Seq<u8> {
    match m.command {
        Command::Join { token } => spaced(room_word(), spaced(m.room, decimal(token as nat))),
        Command::Move { counter, from, to } => spaced(
            m.room,
            spaced(
                move_word(),
                spaced(
                    decimal(counter as nat),
                    spaced(
                        decimal(from.row as nat),
                        spaced(
                            decimal(from.col as nat),
                            spaced(decimal(to.row as nat), decimal(to.col as nat)),
                        ),
                    ),
                ),
            ),
        ),
        Command::Reset => spaced(m.room, reset_word()),
    }
}

/// Three words with a space between each two, read from either end.
proof fn lemma_three_by_words(a: Seq<u8>, b: Seq<u8>, c: Seq<u8>)
    ensures
        a + space() + b + space() + c == spaced(a, spaced(b, c)),
{
    assert(a + space() + b + space() + c =~= spaced(a, spaced(b, c)));
}

/// Seven words with a space between each two, read from either end.
proof fn lemma_seven_by_words(
    a: Seq<u8>,
    b: Seq<u8>,
    c: Seq<u8>,
    d: Seq<u8>,
    e: Seq<u8>,
    f: Seq<u8>,
    g: Seq<u8>,
)
    ensures
        a + space() + b + space() + c + space() + d + space() + e + space() + f + space() + g
            == spaced(a, spaced(b, spaced(c, spaced(d, spaced(e, spaced(f, g)))))),
{
    let s = space();
    lemma_three_by_words(e, f, g);
    let t3 = spaced(e, spaced(f, g));
    assert(c + s + d + s + e + s + f + s + g =~= c + s + d + s + (e + s + f + s + g));
    lemma_three_by_words(c, d, t3);
    let t5 = spaced(c, spaced(d, t3));
    assert(a + s + b + s + c + s + d + s + e + s + f + s + g =~= a + s + b + s + (c + s + d + s
        + e + s + f + s + g));
    lemma_three_by_words(a, b, t5);
}

/// The two ways of writing the text of a message agree.
proof fn lemma_text_by_words(m: MessageView)
    ensures
        text_of(m) == text_by_words(m),
{
    match m.command {
        Command::Join { token } => {
            lemma_three_by_words(room_word(), m.room, decimal(token as nat));
        },
        Command::Move { counter, from, to } => {
            lemma_seven_by_words(
                m.room,
                move_word(),
                decimal(counter as nat),
                decimal(from.row as nat),
                decimal(from.col as nat),
                decimal(to.row as nat),
                decimal(to.col as nat),
            );
        },
        Command::Reset => {},
    }
}

/// `name` can stand as a word of a message and travel in a frame: it is not
/// empty and holds neither a space nor a zero byte.
pub open spec fn field(name: Seq<u8>) -> bool {
    is_word(name) && !name.contains(0u8)
}

/// The message that the text `s` writes.
pub open spec fn parse_spec(s: Seq<u8>) -> Result<MessageView, ParseError> {
    parse_words(words(s))
}

/// Reads the square that two spans of `s` name.
fn parse_square(s: &[u8], row: Span, col: Span) -> (r: Option<Square>)
    requires
        row.start <= row.end <= s.len(),
        col.start <= col.end <= s.len(),
    ensures
        r == square_in(row.of(s@), col.of(s@)),
{
    match parse_number(s, row, (BOARD_SIZE - 1) as u32) {
        Some(r) => match parse_number(s, col, (BOARD_SIZE - 1) as u32) {
            Some(c) => Some(Square { row: r as u8, col: c as u8 }),
            None => None,
        },
        None => None,
    }
}

/// Tells whether `name` can be the name of a room.
pub fn is_field(name: &str) -> (r: bool)
    ensures
        r == field(name.spec_bytes()),
{
    let s = name.as_bytes();
    if s.len() == 0 {
        return false;
    }
    let mut i: usize = 0;
    while i < s.len()
        invariant
            i <= s.len(),
            s@ == name.spec_bytes(),
            s@.len() > 0,
            forall|k: int| 0 <= k < i ==> s@[k] != SPACE && s@[k] != 0,
        decreases s.len() - i,
    {
        if s[i] == SPACE || s[i] == 0 {
            assert(s@.contains(s@[i as int]));
            return false;
        }
        i += 1;
    }
    true
}

/// A text made of two well-formed UTF-8 texts and a space between them is
/// well-formed UTF-8.
proof fn lemma_spaced_is_utf8(head: Seq<u8>, tail: Seq<u8>)
    requires
        valid_utf8(head),
        valid_utf8(tail),
    ensures
        valid_utf8(spaced(head, tail)),
{
    lemma_ascii_is_utf8(seq![SPACE]);
    valid_utf8_concat(head, seq![SPACE]);
    valid_utf8_concat(head + seq![SPACE], tail);
}

/// The numeral of a number is well-formed UTF-8.
proof fn lemma_decimal_is_utf8(n: nat)
    ensures
        valid_utf8(decimal(n)),
{
    lemma_decimal_digits(n);
    lemma_ascii_is_utf8(decimal(n));
}

/// The text of a message is well-formed UTF-8 if the name of its room is.
pub proof fn lemma_text_is_utf8(m: MessageView)
    requires
        valid_utf8(m.room),
    ensures
        valid_utf8(text_of(m)),
{
    lemma_text_by_words(m);
    lemma_ascii_is_utf8(room_word());
    lemma_ascii_is_utf8(move_word());
    lemma_ascii_is_utf8(reset_word());
    match m.command {
        Command::Join { token } => {
            lemma_decimal_is_utf8(token as nat);
            lemma_spaced_is_utf8(m.room, decimal(token as nat));
            lemma_spaced_is_utf8(room_word(), spaced(m.room, decimal(token as nat)));
        },
        Command::Move { counter, from, to } => {
            let c = decimal(counter as nat);
            let fr = decimal(from.row as nat);
            let fc = decimal(from.col as nat);
            let tr = decimal(to.row as nat);
            let tc = decimal(to.col as nat);
            lemma_decimal_is_utf8(counter as nat);
            lemma_decimal_is_utf8(from.row as nat);
            lemma_decimal_is_utf8(from.col as nat);
            lemma_decimal_is_utf8(to.row as nat);
            lemma_decimal_is_utf8(to.col as nat);
            lemma_spaced_is_utf8(tr, tc);
            lemma_spaced_is_utf8(fc, spaced(tr, tc));
            lemma_spaced_is_utf8(fr, spaced(fc, spaced(tr, tc)));
            lemma_spaced_is_utf8(c, spaced(fr, spaced(fc, spaced(tr, tc))));
            lemma_spaced_is_utf8(move_word(), spaced(c, spaced(fr, spaced(fc, spaced(tr, tc)))));
            lemma_spaced_is_utf8(
                m.room,
                spaced(move_word(), spaced(c, spaced(fr, spaced(fc, spaced(tr, tc))))),
            );
        },
        Command::Reset => {
            lemma_spaced_is_utf8(m.room, reset_word());
        },
    }
}

/// The words of three words with a space between each two.
proof fn lemma_words_of_three(a: Seq<u8>, b: Seq<u8>, c: Seq<u8>)
    requires
        is_word(a),
        is_word(b),
        is_word(c),
    ensures
        words(spaced(a, spaced(b, c))) == seq![a, b, c],
{
    lemma_words_single(c);
    lemma_words_spaced(b, c);
    assert(words(spaced(b, c)) =~= seq![b, c]);
    lemma_words_spaced(a, spaced(b, c));
    assert(words(spaced(a, spaced(b, c))) =~= seq![a, b, c]);
}

/// The words of five words with a space between each two.
proof fn lemma_words_of_five(a: Seq<u8>, b: Seq<u8>, c: Seq<u8>, d: Seq<u8>, e: Seq<u8>)
    requires
        is_word(a),
        is_word(b),
        is_word(c),
        is_word(d),
        is_word(e),
    ensures
        words(spaced(a, spaced(b, spaced(c, spaced(d, e))))) == seq![a, b, c, d, e],
{
    lemma_words_of_three(c, d, e);
    let t3 = spaced(c, spaced(d, e));
    lemma_words_spaced(b, t3);
    assert(words(spaced(b, t3)) =~= seq![b, c, d, e]);
    lemma_words_spaced(a, spaced(b, t3));
    assert(words(spaced(a, spaced(b, t3))) =~= seq![a, b, c, d, e]);
}

/// The words of seven words with a space between each two.
proof fn lemma_words_of_seven(
    a: Seq<u8>,
    b: Seq<u8>,
    c: Seq<u8>,
    d: Seq<u8>,
    e: Seq<u8>,
    f: Seq<u8>,
    g: Seq<u8>,
)
    requires
        is_word(a),
        is_word(b),
        is_word(c),
        is_word(d),
        is_word(e),
        is_word(f),
        is_word(g),
    ensures
        words(spaced(a, spaced(b, spaced(c, spaced(d, spaced(e, spaced(f, g))))))) == seq![
            a,
            b,
            c,
            d,
            e,
            f,
            g,
        ],
{
    lemma_words_of_five(c, d, e, f, g);
    let t5 = spaced(c, spaced(d, spaced(e, spaced(f, g))));
    lemma_words_spaced(b, t5);
    assert(words(spaced(b, t5)) =~= seq![b, c, d, e, f, g]);
    lemma_words_spaced(a, spaced(b, t5));
    assert(words(spaced(a, spaced(b, t5))) =~= seq![a, b, c, d, e, f, g]);
}

/// The numeral of a number is a word.
proof fn lemma_decimal_is_word(n: nat)
    ensures
        is_word(decimal(n)),
{
    lemma_decimal_digits(n);
}

/// The words of the text of a message, in their order.
proof fn lemma_words_of_text(m: MessageView)
    requires
        is_word(m.room),
    ensures
        words(text_of(m)) == match m.command {
            Command::Join { token } => seq![room_word(), m.room, decimal(token as nat)],
            Command::Move { counter, from, to } => seq![
                m.room,
                move_word(),
                decimal(counter as nat),
                decimal(from.row as nat),
                decimal(from.col as nat),
                decimal(to.row as nat),
                decimal(to.col as nat),
            ],
            Command::Reset => seq![m.room, reset_word()],
        },
{
    lemma_text_by_words(m);
    match m.command {
        Command::Join { token } => {
            assert(is_word(room_word())) by {
                assert(room_word().len() == 4);
            }
            lemma_decimal_is_word(token as nat);
            lemma_words_of_three(room_word(), m.room, decimal(token as nat));
        },
        Command::Move { counter, from, to } => {
            assert(is_word(move_word())) by {
                assert(move_word().len() == 2);
            }
            lemma_decimal_is_word(counter as nat);
            lemma_decimal_is_word(from.row as nat);
            lemma_decimal_is_word(from.col as nat);
            lemma_decimal_is_word(to.row as nat);
            lemma_decimal_is_word(to.col as nat);
            lemma_words_of_seven(
                m.room,
                move_word(),
                decimal(counter as nat),
                decimal(from.row as nat),
                decimal(from.col as nat),
                decimal(to.row as nat),
                decimal(to.col as nat),
            );
        },
        Command::Reset => {
            assert(is_word(reset_word())) by {
                assert(reset_word().len() == 5);
            }
            lemma_words_single(reset_word());
            lemma_words_spaced(m.room, reset_word());
            assert(words(spaced(m.room, reset_word())) =~= seq![m.room, reset_word()]);
        },
    }
}

/// Reading the text of a message gives the message back, whatever the name
/// of its room, as long as that name can stand as a word and the squares of
/// a move lie on the board.
pub proof fn lemma_parse_text_of(m: MessageView)
    requires
        field(m.room),
        m.command.well_formed(),
    ensures
        parse_spec(text_of(m)) == Ok::<MessageView, ParseError>(m),
{
    lemma_words_of_text(m);
    let w = words(text_of(m));
    match m.command {
        Command::Join { token } => {
            lemma_decimal_round_trip(token as nat, u8::MAX as u32);
            assert(w.len() == 3);
            assert(w[0] == room_word());
            assert(w[1] == m.room);
            assert(w[2] == decimal(token as nat));
        },
        Command::Move { counter, from, to } => {
            lemma_decimal_round_trip(counter as nat, u32::MAX);
            lemma_decimal_round_trip(from.row as nat, (BOARD_SIZE - 1) as u32);
            lemma_decimal_round_trip(from.col as nat, (BOARD_SIZE - 1) as u32);
            lemma_decimal_round_trip(to.row as nat, (BOARD_SIZE - 1) as u32);
            lemma_decimal_round_trip(to.col as nat, (BOARD_SIZE - 1) as u32);
            assert(w.len() == 7);
            assert(w[0] == m.room);
            assert(w[1] == move_word());
            assert(w[2] == decimal(counter as nat));
            assert(w[3] == decimal(from.row as nat));
            assert(w[4] == decimal(from.col as nat));
            assert(w[5] == decimal(to.row as nat));
            assert(w[6] == decimal(to.col as nat));
            assert(square_in(w[3], w[4]) == Some(from));
            assert(square_in(w[5], w[6]) == Some(to));
        },
        Command::Reset => {
            assert(w.len() == 2);
            assert(w[0] == m.room);
            assert(w[1] == reset_word());
            assert(reset_word().len() != move_word().len());
        },
    }
}

/// A byte other than the space that stands in neither of two texts does not
/// stand in the two joined by a space.
proof fn lemma_spaced_lacks(head: Seq<u8>, tail: Seq<u8>, b: u8)
    requires
        b != SPACE,
        !head.contains(b),
        !tail.contains(b),
    ensures
        !spaced(head, tail).contains(b),
{
    let s = spaced(head, tail);
    assert forall|i: int| 0 <= i < s.len() implies s[i] != b by {
        if i < head.len() {
            assert(head.contains(head[i]));
        } else if i > head.len() {
            assert(tail.contains(tail[i - head.len() - 1]));
        }
    }
}

/// The text of a message holds no zero byte unless the name of its room does.
pub proof fn lemma_text_lacks_zero(m: MessageView)
    requires
        !m.room.contains(0u8),
    ensures
        !text_of(m).contains(0u8),
{
    lemma_text_by_words(m);
    assert(!room_word().contains(0u8));
    assert(!move_word().contains(0u8));
    assert(!reset_word().contains(0u8));
    match m.command {
        Command::Join { token } => {
            let t = decimal(token as nat);
            lemma_decimal_digits(token as nat);
            lemma_spaced_lacks(m.room, t, 0);
            lemma_spaced_lacks(room_word(), spaced(m.room, t), 0);
        },
        Command::Move { counter, from, to } => {
            let c = decimal(counter as nat);
            let fr = decimal(from.row as nat);
            let fc = decimal(from.col as nat);
            let tr = decimal(to.row as nat);
            let tc = decimal(to.col as nat);
            lemma_decimal_digits(counter as nat);
            lemma_decimal_digits(from.row as nat);
            lemma_decimal_digits(from.col as nat);
            lemma_decimal_digits(to.row as nat);
            lemma_decimal_digits(to.col as nat);
            lemma_spaced_lacks(tr, tc, 0);
            lemma_spaced_lacks(fc, spaced(tr, tc), 0);
            lemma_spaced_lacks(fr, spaced(fc, spaced(tr, tc)), 0);
            lemma_spaced_lacks(c, spaced(fr, spaced(fc, spaced(tr, tc))), 0);
            lemma_spaced_lacks(move_word(), spaced(c, spaced(fr, spaced(fc, spaced(tr, tc)))), 0);
            lemma_spaced_lacks(
                m.room,
                spaced(move_word(), spaced(c, spaced(fr, spaced(fc, spaced(tr, tc))))),
                0,
            );
        },
        Command::Reset => {
            lemma_spaced_lacks(m.room, reset_word(), 0);
        },
    }
}

/// What one peer sends, the other reads: a message whose text fits a frame
/// comes out of the frame as it went in, as long as the name of its room can
/// stand as a word and the squares of a move lie on the board.
pub proof fn lemma_message_survives_frame(m: MessageView)
    requires
        field(m.room),
        m.command.well_formed(),
        text_of(m).len() < FRAME_SIZE,
    ensures
        parse_spec(payload(padded(text_of(m)))) == Ok::<MessageView, ParseError>(m),
{
    lemma_text_lacks_zero(m);
    lemma_payload_of_padded(text_of(m));
    lemma_parse_text_of(m);
}

/// Appends one space to `out`.
fn push_space(out: &mut Vec<u8>)
    ensures
        final(out)@ == old(out)@ + space(),
{
    out.push(SPACE);
    assert(out@ =~= old(out)@ + space());
}

impl Message {
    /// Writes the message as text.
    pub fn to_text(&self) -> (text: String)
        ensures
            encode_utf8(text@) == text_of(self@),
    {
        let room = self.room.as_str().as_bytes();
        let room_bytes: [u8; 4] = [0x72, 0x6f, 0x6f, 0x6d];
        let move_bytes: [u8; 2] = [0x6d, 0x76];
        let reset_bytes: [u8; 5] = [0x72, 0x65, 0x73, 0x65, 0x74];
        assert(room_bytes@ == room_word());
        assert(move_bytes@ == move_word());
        assert(reset_bytes@ == reset_word());
        let mut out: Vec<u8> = Vec::new();
        match self.command {
            Command::Join { token } => {
                push_bytes(&mut out, room_bytes.as_slice());
                assert(out@ =~= room_bytes@);
                push_space(&mut out);
                push_bytes(&mut out, room);
                push_space(&mut out);
                push_decimal(&mut out, token as u32);
            },
            Command::Move { counter, from, to } => {
                push_bytes(&mut out, room);
                assert(out@ =~= room@);
                push_space(&mut out);
                push_bytes(&mut out, move_bytes.as_slice());
                push_space(&mut out);
                push_decimal(&mut out, counter);
                push_space(&mut out);
                push_decimal(&mut out, from.row as u32);
                push_space(&mut out);
                push_decimal(&mut out, from.col as u32);
                push_space(&mut out);
                push_decimal(&mut out, to.row as u32);
                push_space(&mut out);
                push_decimal(&mut out, to.col as u32);
            },
            Command::Reset => {
                push_bytes(&mut out, room);
                assert(out@ =~= room@);
                push_space(&mut out);
                push_bytes(&mut out, reset_bytes.as_slice());
            },
        }
        proof {
            assert(out@ == text_of(self@));
            encode_utf8_valid_utf8(self.room@);
            lemma_text_is_utf8(self@);
            decode_utf8_encode_utf8(out@);
        }
        match string_from_utf8(out) {
            Some(text) => text,
            None => unreached(),
        }
    }
}

/// Reads `text` as a message. The squares of a move that comes back lie on
/// the board.
pub fn parse(text: &str) -> (r: Result<Message, ParseError>)
    ensures
        match parse_spec(text.spec_bytes()) {
            Ok(v) => r matches Ok(m) && m@ == v,
            Err(e) => r matches Err(f) && f == e,
        },
        r matches Ok(m) ==> m.command.well_formed(),
{
    let s = text.as_bytes();
    let spans = split_words(s);
    let n: usize = spans.len();
    let ghost w = words(s@);
    assert(forall|k: int| 0 <= k < n ==> w[k] == (#[trigger] spans@[k]).of(s@));
    let room_bytes: [u8; 4] = [0x72, 0x6f, 0x6f, 0x6d];
    let move_bytes: [u8; 2] = [0x6d, 0x76];
    let reset_bytes: [u8; 5] = [0x72, 0x65, 0x73, 0x65, 0x74];
    assert(room_bytes@ == room_word());
    assert(move_bytes@ == move_word());
    assert(reset_bytes@ == reset_word());
    if n == 3 && span_is(s, spans[0], room_bytes.as_slice()) {
        match parse_number(s, spans[2], u8::MAX as u32) {
            Some(token) => Ok(
                Message {
                    room: word_string(text, spans[1]),
                    command: Command::Join { token: token as u8 },
                },
            ),
            None => Err(ParseError::BadInteger),
        }
    } else if n >= 2 && span_is(s, spans[1], move_bytes.as_slice()) {
        if n < 7 {
            Err(ParseError::MissingField)
        } else if n > 7 {
            Err(ParseError::Malformed)
        } else {
            let counter = parse_number(s, spans[2], u32::MAX);
            let from = parse_square(s, spans[3], spans[4]);
            let to = parse_square(s, spans[5], spans[6]);
            match (counter, from, to) {
                (Some(counter), Some(from), Some(to)) => Ok(
                    Message {
                        room: word_string(text, spans[0]),
                        command: Command::Move { counter, from, to },
                    },
                ),
                _ => Err(ParseError::BadInteger),
            }
        }
    } else if n >= 2 && span_is(s, spans[1], reset_bytes.as_slice()) {
        if n == 2 {
            Ok(Message { room: word_string(text, spans[0]), command: Command::Reset })
        } else {
            Err(ParseError::Malformed)
        }
    } else if n >= 1 && span_is(s, spans[0], room_bytes.as_slice()) {
        if n < 3 {
            Err(ParseError::MissingField)
        } else {
            Err(ParseError::Malformed)
        }
    } else {
        Err(ParseError::Malformed)
    }
}

} // verus!
