use sage::engine::{Generation, TokenEvent};

#[test]
fn generation_collects_pieces_until_the_end_token() {
    let mut g = Generation::new(3, 10);
    assert!(g.wants_token());
    assert_eq!(g.next_position(), 3);
    g.accept(TokenEvent::Piece(b"ls".to_vec()));
    g.accept(TokenEvent::Piece(b" -la".to_vec()));
    assert_eq!(g.next_position(), 5);
    assert!(g.wants_token());
    g.accept(TokenEvent::EndOfGeneration);
    assert!(!g.wants_token());
    assert_eq!(g.into_text(), "ls -la");
}

#[test]
fn generation_stops_when_the_context_is_full() {
    let mut g = Generation::new(2, 4);
    let mut n = 0;
    while g.wants_token() {
        g.accept(TokenEvent::Piece(b"x".to_vec()));
        n += 1;
    }
    assert_eq!(n, 2);
    assert_eq!(g.into_text(), "xx");
    let g = Generation::new(5, 4);
    assert!(!g.wants_token());
    assert_eq!(g.into_text(), "");
}

#[test]
fn token_bytes_are_decoded_as_utf8() {
    let mut g = Generation::new(0, 10);
    g.accept(TokenEvent::Piece(vec![0xC3, 0xA9]));
    g.accept(TokenEvent::Piece(vec![0x80]));
    g.accept(TokenEvent::Piece(vec![0xFF]));
    g.accept(TokenEvent::Piece(vec![0xEF, 0xBB, 0xBF, b'a']));
    g.accept(TokenEvent::Piece("→ ok".as_bytes().to_vec()));
    assert_eq!(g.into_text(), "\u{e9}\u{fffd}a→ ok");
}
