use renderer::fen::Fen;
use renderer::piece::{Piece, PieceColor, PieceKind};

#[test]
fn decode_initial_position_yields_64_squares_in_order() {
    let fen = Fen::new("rnbqkbnr/pppppppp/8/8/8/8/PPPPPPPP/RNBQKBNR w KQkq - 0 1".to_string());
    let items = fen.decode();
    assert_eq!(items.len(), 64);
    // file ascending within each rank, ranks descending from 8 to 1
    for (k, (pos, _)) in items.iter().enumerate() {
        assert_eq!(pos[0] as usize, 1 + k % 8);
        assert_eq!(pos[1] as usize, 8 - k / 8);
    }
    assert_eq!(
        items[0].1,
        Some(Piece { color: PieceColor::Black, kind: PieceKind::Rook })
    );
    assert_eq!(
        items[4].1,
        Some(Piece { color: PieceColor::Black, kind: PieceKind::King })
    );
    assert_eq!(
        items[8].1,
        Some(Piece { color: PieceColor::Black, kind: PieceKind::Pawn })
    );
    // the four digit-run ranks decode to 32 empty squares
    assert!(items[16..48].iter().all(|(_, p)| p.is_none()));
    assert_eq!(
        items[63].1,
        Some(Piece { color: PieceColor::White, kind: PieceKind::Rook })
    );
}

#[test]
fn decode_digit_runs_sum_to_empty_squares() {
    let fen = Fen::new("8/8/8/8/8/8/8/8 w - - 0 1".to_string());
    let items = fen.decode();
    assert_eq!(items.len(), 64);
    assert!(items.iter().all(|(_, p)| p.is_none()));
    let mixed = Fen::new("4p3/8/8/8/8/8/8/8 w".to_string());
    let items2 = mixed.decode();
    assert_eq!(items2.len(), 64);
    assert_eq!(items2[0].1, None);
    assert_eq!(
        items2[4].1,
        Some(Piece { color: PieceColor::Black, kind: PieceKind::Pawn })
    );
    assert_eq!(items2.iter().filter(|(_, p)| p.is_none()).count(), 63);
}

#[test]
fn decode_skips_escape_character_and_its_follower() {
    // the backslash and the character after it are both skipped
    let fen = Fen::new("8\\x/8/8/8/8/8/8/8 w".to_string());
    let items = fen.decode();
    assert_eq!(items.len(), 64);
    assert!(items.iter().all(|(_, p)| p.is_none()));
    // an escaped digit places nothing
    let fen2 = Fen::new("4p3\\5/8/8/8/8/8/8/8 w".to_string());
    let items2 = fen2.decode();
    assert_eq!(items2.len(), 64);
    assert_eq!(items2.iter().filter(|(_, p)| p.is_some()).count(), 1);
}

#[test]
fn iter_walks_one_square_at_a_time() {
    let fen = Fen::new("k7/8/8/8/8/8/8/7K w".to_string());
    let mut it = fen.iter();
    let first = it.next().unwrap();
    assert_eq!(first.0, [1, 8]);
    assert_eq!(
        first.1,
        Some(Piece { color: PieceColor::Black, kind: PieceKind::King })
    );
    let second = it.next().unwrap();
    assert_eq!(second.0, [2, 8]);
    assert_eq!(second.1, None);
}

#[test]
fn decode_stops_at_end_of_record() {
    let fen = Fen::new("8".to_string());
    let items = fen.decode();
    assert_eq!(items.len(), 8);
    assert!(fen.decode().iter().all(|(_, p)| p.is_none()));
}
