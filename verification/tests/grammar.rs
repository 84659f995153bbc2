use chess_sync::frame::{decode, encode};
use chess_sync::message::{is_field, parse, Command, Message, ParseError, Square, BOARD_SIZE};

fn square(row: u8, col: u8) -> Square {
    Square::new(row, col).unwrap()
}

fn join(room: &str, token: u8) -> Message {
    Message { room: room.to_string(), command: Command::Join { token } }
}

fn mv(room: &str, counter: u32, from: (u8, u8), to: (u8, u8)) -> Message {
    Message {
        room: room.to_string(),
        command: Command::Move { counter, from: square(from.0, from.1), to: square(to.0, to.1) },
    }
}

fn reset(room: &str) -> Message {
    Message { room: room.to_string(), command: Command::Reset }
}

#[test]
fn square_new_keeps_to_the_board() {
    assert_eq!(BOARD_SIZE, 8);
    assert_eq!(Square::new(0, 0), Some(Square { row: 0, col: 0 }));
    assert_eq!(Square::new(7, 7), Some(Square { row: 7, col: 7 }));
    assert_eq!(Square::new(3, 5), Some(Square { row: 3, col: 5 }));
    assert_eq!(Square::new(8, 0), None);
    assert_eq!(Square::new(0, 8), None);
    assert_eq!(Square::new(255, 255), None);
}

#[test]
fn join_is_written_with_its_token() {
    assert_eq!(join("lobby", 5).to_text(), "room lobby 5");
    assert_eq!(join("lobby", 0).to_text(), "room lobby 0");
    assert_eq!(join("lobby", 255).to_text(), "room lobby 255");
}

#[test]
fn move_is_written_with_counter_and_squares() {
    assert_eq!(mv("lobby", 2, (1, 1), (3, 3)).to_text(), "lobby mv 2 1 1 3 3");
    assert_eq!(mv("x", u32::MAX, (7, 0), (0, 7)).to_text(), "x mv 4294967295 7 0 0 7");
}

#[test]
fn reset_is_written_after_the_room() {
    assert_eq!(reset("lobby").to_text(), "lobby reset");
}

#[test]
fn to_text_keeps_the_room_name_as_it_is() {
    assert_eq!(reset("k\u{f6}ping").to_text(), "k\u{f6}ping reset");
    assert_eq!(join("\u{265a}", 7).to_text(), "room \u{265a} 7");
}

#[test]
fn parse_reads_a_join() {
    assert_eq!(parse("room lobby 200"), Ok(join("lobby", 200)));
    assert_eq!(parse("room lobby 0"), Ok(join("lobby", 0)));
}

#[test]
fn parse_reads_a_move() {
    assert_eq!(parse("lobby mv 2 1 1 3 3"), Ok(mv("lobby", 2, (1, 1), (3, 3))));
    assert_eq!(parse("lobby mv 4294967295 7 7 0 0"), Ok(mv("lobby", u32::MAX, (7, 7), (0, 0))));
}

#[test]
fn parse_reads_a_reset() {
    assert_eq!(parse("lobby reset"), Ok(reset("lobby")));
}

#[test]
fn parse_allows_spaces_before_between_and_after() {
    assert_eq!(parse("lobby mv 2 1 1 3 3 "), Ok(mv("lobby", 2, (1, 1), (3, 3))));
    assert_eq!(parse("room lobby 5 "), Ok(join("lobby", 5)));
    assert_eq!(parse("  lobby   reset  "), Ok(reset("lobby")));
}

#[test]
fn parse_reads_numbers_with_sign_and_zeros() {
    assert_eq!(parse("room lobby +5"), Ok(join("lobby", 5)));
    assert_eq!(parse("room lobby 005"), Ok(join("lobby", 5)));
    assert_eq!(parse("lobby mv 02 +1 01 3 3"), Ok(mv("lobby", 2, (1, 1), (3, 3))));
}

#[test]
fn parse_tells_the_forms_by_their_length() {
    assert_eq!(parse("room mv 5"), Ok(join("mv", 5)));
    assert_eq!(parse("room reset 5"), Ok(join("reset", 5)));
    assert_eq!(parse("room room 5"), Ok(join("room", 5)));
    assert_eq!(parse("room reset"), Ok(reset("room")));
    assert_eq!(parse("reset reset"), Ok(reset("reset")));
    assert_eq!(parse("room mv 2 1 1 3 3"), Ok(mv("room", 2, (1, 1), (3, 3))));
    assert_eq!(parse("mv mv 2 1 1 3 3"), Ok(mv("mv", 2, (1, 1), (3, 3))));
}

#[test]
fn parse_finds_nothing_in_no_words() {
    assert_eq!(parse(""), Err(ParseError::Malformed));
    assert_eq!(parse("   "), Err(ParseError::Malformed));
}

#[test]
fn parse_refuses_unknown_forms() {
    assert_eq!(parse("lobby"), Err(ParseError::Malformed));
    assert_eq!(parse("lobby move 2 1 1 3 3"), Err(ParseError::Malformed));
    assert_eq!(parse("lobby MV 2 1 1 3 3"), Err(ParseError::Malformed));
    assert_eq!(parse("a b c"), Err(ParseError::Malformed));
    assert_eq!(parse("lobby resets"), Err(ParseError::Malformed));
}

#[test]
fn parse_refuses_words_past_the_end() {
    assert_eq!(parse("lobby mv 2 1 1 3 3 4"), Err(ParseError::Malformed));
    assert_eq!(parse("lobby reset now"), Err(ParseError::Malformed));
    assert_eq!(parse("room lobby 5 6"), Err(ParseError::Malformed));
}

#[test]
fn parse_misses_fields() {
    assert_eq!(parse("room"), Err(ParseError::MissingField));
    assert_eq!(parse("room lobby"), Err(ParseError::MissingField));
    assert_eq!(parse("lobby mv"), Err(ParseError::MissingField));
    assert_eq!(parse("lobby mv 2"), Err(ParseError::MissingField));
    assert_eq!(parse("lobby mv 2 1 1 3"), Err(ParseError::MissingField));
}

#[test]
fn parse_refuses_bad_numbers() {
    assert_eq!(parse("room lobby x"), Err(ParseError::BadInteger));
    assert_eq!(parse("room lobby 256"), Err(ParseError::BadInteger));
    assert_eq!(parse("room lobby -1"), Err(ParseError::BadInteger));
    assert_eq!(parse("lobby mv two 1 1 3 3"), Err(ParseError::BadInteger));
    assert_eq!(parse("lobby mv 4294967296 1 1 3 3"), Err(ParseError::BadInteger));
    assert_eq!(parse("lobby mv 2 8 1 3 3"), Err(ParseError::BadInteger));
    assert_eq!(parse("lobby mv 2 1 8 3 3"), Err(ParseError::BadInteger));
    assert_eq!(parse("lobby mv 2 1 1 8 3"), Err(ParseError::BadInteger));
    assert_eq!(parse("lobby mv 2 1 1 3 8"), Err(ParseError::BadInteger));
    assert_eq!(parse("lobby mv 2 1 1 3 3.0"), Err(ParseError::BadInteger));
}

#[test]
fn parse_gives_back_what_to_text_wrote() {
    let messages = [
        join("lobby", 0),
        join("lobby", 255),
        join("room", 17),
        mv("lobby", 1, (0, 0), (7, 7)),
        mv("mv", 123456, (6, 4), (4, 4)),
        mv("\u{265a}", u32::MAX, (7, 7), (7, 6)),
        reset("lobby"),
        reset("reset"),
        reset("r\u{e4}ka"),
    ];
    for message in messages {
        assert_eq!(parse(&message.to_text()), Ok(message.clone()));
    }
}

#[test]
fn a_message_survives_its_frame() {
    let messages = [
        join("lobby", 200),
        mv("lobby", u32::MAX, (7, 7), (7, 6)),
        mv("k\u{f6}ping", 12, (6, 4), (4, 4)),
        reset("lobby"),
    ];
    for message in messages {
        let frame = encode(&message.to_text()).unwrap();
        assert_eq!(parse(&decode(&frame).unwrap()), Ok(message));
    }
}

#[test]
fn a_space_in_the_name_does_not_survive() {
    assert_ne!(parse(&reset("my room").to_text()), Ok(reset("my room")));
    assert_ne!(parse(&join("", 7).to_text()), Ok(join("", 7)));
}

#[test]
fn is_field_wants_a_word_without_space_or_zero() {
    assert!(is_field("lobby"));
    assert!(is_field("room"));
    assert!(is_field("k\u{f6}ping"));
    assert!(is_field("a\tb"));
    assert!(!is_field(""));
    assert!(!is_field("my room"));
    assert!(!is_field(" lobby"));
    assert!(!is_field("lobby "));
    assert!(!is_field("lob\0by"));
}

#[test]
fn message_clone_is_equal() {
    let message = mv("lobby", 9, (1, 2), (3, 4));
    assert_eq!(message.clone(), message);
}
