use chess_sync::matchmaker::{assign_color, Handshake, Matchmaker};
use chess_sync::message::{parse, Command};
use chess_sync::session::Color;

fn paired(room: &str, token: u8, text: &str) -> Option<(Color, String, u32)> {
    match Matchmaker::new(room.to_string(), token).on_message(text) {
        Handshake::Paired { session, reply } => {
            assert_eq!(session.room(), room);
            assert_eq!(session.token(), token);
            Some((session.color(), reply, session.turn_counter()))
        }
        Handshake::Waiting(_) => None,
    }
}

#[test]
fn smaller_token_plays_white() {
    assert_eq!(assign_color(5, 200), Color::White);
    assert_eq!(assign_color(200, 5), Color::Black);
    assert_eq!(assign_color(0, 1), Color::White);
    assert_eq!(assign_color(255, 254), Color::Black);
    assert_eq!(assign_color(0, 255), Color::White);
}

#[test]
fn every_pair_of_tokens_gives_one_white_and_one_black() {
    for a in 0..=255u8 {
        for b in 0..=255u8 {
            if a != b {
                let (first, second) = (assign_color(a, b), assign_color(b, a));
                assert_ne!(first, second);
                assert_eq!(first == Color::White, a < b);
                assert_eq!(second == Color::White, b < a);
            }
        }
    }
}

#[test]
fn local_five_against_two_hundred_is_white() {
    assert_eq!(
        paired("lobby", 5, "room lobby 200"),
        Some((Color::White, "room lobby 5".to_string(), 1))
    );
}

#[test]
fn the_other_peer_is_black() {
    assert_eq!(
        paired("lobby", 200, "room lobby 5"),
        Some((Color::Black, "room lobby 200".to_string(), 1))
    );
}

#[test]
fn announcement_names_room_and_token() {
    let matchmaker = Matchmaker::new("lobby".to_string(), 42);
    assert_eq!(matchmaker.token(), 42);
    assert_eq!(matchmaker.announcement(), "room lobby 42");
}

#[test]
fn own_announcement_does_not_pair() {
    let matchmaker = Matchmaker::new("lobby".to_string(), 5);
    let echo = matchmaker.announcement();
    match matchmaker.on_message(&echo) {
        Handshake::Waiting(still) => {
            assert_eq!(still.token(), 5);
            assert_eq!(still.announcement(), "room lobby 5");
        }
        Handshake::Paired { .. } => panic!("paired with its own announcement"),
    }
}

#[test]
fn other_rooms_do_not_pair() {
    assert_eq!(paired("lobby", 5, "room hall 200"), None);
    assert_eq!(paired("lobby", 5, "room lobby2 200"), None);
    assert_eq!(paired("lobby", 5, "room lobb 200"), None);
}

#[test]
fn only_announcements_pair() {
    assert_eq!(paired("lobby", 5, "lobby mv 2 1 1 3 3"), None);
    assert_eq!(paired("lobby", 5, "lobby reset"), None);
    assert_eq!(paired("lobby", 5, ""), None);
    assert_eq!(paired("lobby", 5, "room lobby"), None);
    assert_eq!(paired("lobby", 5, "room lobby 256"), None);
    assert_eq!(paired("lobby", 5, "room lobby 200 1"), None);
}

#[test]
fn waiting_goes_on_until_a_peer_comes() {
    let mut matchmaker = Matchmaker::new("lobby".to_string(), 9);
    for text in ["room lobby 9", "room hall 3", "noise", "room lobby 9 "] {
        matchmaker = match matchmaker.on_message(text) {
            Handshake::Waiting(still) => still,
            Handshake::Paired { .. } => panic!("paired on {:?}", text),
        };
    }
    match matchmaker.on_message("room lobby 3 ") {
        Handshake::Paired { session, reply } => {
            assert_eq!(session.color(), Color::Black);
            assert_eq!(reply, "room lobby 9");
        }
        Handshake::Waiting(_) => panic!("did not pair"),
    }
}

#[test]
fn two_peers_pair_with_each_other() {
    let a = Matchmaker::new("lobby".to_string(), 77);
    let b = Matchmaker::new("lobby".to_string(), 78);
    let (from_a, from_b) = (a.announcement(), b.announcement());
    let side_a = match a.on_message(&from_b) {
        Handshake::Paired { session, .. } => session.color(),
        Handshake::Waiting(_) => panic!("a did not pair"),
    };
    let side_b = match b.on_message(&from_a) {
        Handshake::Paired { session, .. } => session.color(),
        Handshake::Waiting(_) => panic!("b did not pair"),
    };
    assert_eq!((side_a, side_b), (Color::White, Color::Black));
}

#[test]
fn a_random_token_is_announced_as_drawn() {
    for _ in 0..50 {
        let matchmaker = Matchmaker::with_random_token("lobby".to_string());
        let token = matchmaker.token();
        let message = parse(&matchmaker.announcement()).unwrap();
        assert_eq!(message.room, "lobby");
        assert_eq!(message.command, Command::Join { token });
    }
}
