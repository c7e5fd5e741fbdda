use renderer::board::{bresenham, Chessboard, LEN};
use renderer::piece::{Catalog, Piece, PieceColor, PieceKind, Sprite, SPRITE_PIXELS};
use renderer::pixel::Pixel;

fn dummy_catalog() -> Catalog {
    let mut sprites = Vec::new();
    for i in 0..12u8 {
        let px = Pixel::new(20 * i, 10 * i, 5 * i, 255);
        let s = Sprite::new(vec![px; SPRITE_PIXELS]).unwrap();
        sprites.push(s);
    }
    Catalog::new(sprites).unwrap()
}

fn at(b: &Chessboard, f: usize, r: usize) -> Option<Piece> {
    b.state[(f - 1) + 8 * (r - 1)]
}

#[test]
fn test_board() {
    let mut board = Chessboard::new();
    board.draw_initial();
    board.move_piece([[3, 2], [3, 3]]);
    board.move_piece([[8, 1], [3, 3]]);
    board.highlt([3, 3], Pixel::new(0xFF, 0x00, 0x00, 0x99));
    board.arrow([[8, 1], [3, 6]], Pixel::new(0x00, 0xDD, 0x00, 0xFF));
    board.arrow([[8, 2], [8, 1]], Pixel::new(0x00, 0xDD, 0x00, 0xFF));
    board.arrow([[2, 8], [3, 6]], Pixel::new(0x00, 0xDD, 0x00, 0xFF));
    board.arrow([[3, 3], [5, 3]], Pixel::new(0x00, 0xDD, 0x00, 0xFF));
    board.arrow([[3, 3], [1, 3]], Pixel::new(0x00, 0xDD, 0x00, 0xFF));
    board.arrow([[3, 3], [3, 5]], Pixel::new(0x00, 0xDD, 0x00, 0xFF));
    board.arrow([[3, 3], [3, 1]], Pixel::new(0x00, 0xDD, 0x00, 0xFF));
    board.arrow([[3, 3], [2, 4]], Pixel::new(0x00, 0xDD, 0x00, 0xFF));
    board.arrow([[3, 3], [4, 4]], Pixel::new(0x00, 0xDD, 0x00, 0xFF));
    board.arrow([[3, 3], [4, 2]], Pixel::new(0x00, 0xDD, 0x00, 0xFF));
    board.arrow([[3, 3], [2, 2]], Pixel::new(0x00, 0xDD, 0x00, 0xFF));
    board.arrow([[3, 3], [4, 5]], Pixel::new(0x00, 0xDD, 0x00, 0xFF));
    board.arrow([[3, 3], [2, 5]], Pixel::new(0x00, 0xDD, 0x00, 0xFF));
    board.arrow([[3, 3], [4, 1]], Pixel::new(0x00, 0xDD, 0x00, 0xFF));
    board.arrow([[3, 3], [2, 1]], Pixel::new(0x00, 0xDD, 0x00, 0xFF));
    board.arrow([[3, 3], [5, 4]], Pixel::new(0x00, 0xDD, 0x00, 0xFF));
    board.arrow([[3, 3], [1, 2]], Pixel::new(0x00, 0xDD, 0x00, 0xFF));
    board.arrow([[3, 3], [1, 4]], Pixel::new(0x00, 0xDD, 0x00, 0xFF));
    board.arrow([[3, 3], [5, 2]], Pixel::new(0x00, 0xDD, 0x00, 0xFF));
    let catalog = dummy_catalog();
    let img = board.render(&catalog);
    assert_eq!(img.len(), LEN);
}

#[test]
fn castling_kingside_relocates_rook() {
    let mut board = Chessboard::new();
    board.draw_piece(
        [5, 1],
        Some(Piece { color: PieceColor::White, kind: PieceKind::King }),
    );
    board.draw_piece(
        [8, 1],
        Some(Piece { color: PieceColor::White, kind: PieceKind::Rook }),
    );
    board.move_piece([[5, 1], [7, 1]]);
    assert_eq!(
        at(&board, 7, 1),
        Some(Piece { color: PieceColor::White, kind: PieceKind::King })
    );
    assert_eq!(
        at(&board, 6, 1),
        Some(Piece { color: PieceColor::White, kind: PieceKind::Rook })
    );
    assert_eq!(at(&board, 8, 1), None);
    assert_eq!(at(&board, 5, 1), None);
}

#[test]
fn castling_queenside_relocates_rook() {
    let mut board = Chessboard::new();
    board.draw_piece(
        [5, 8],
        Some(Piece { color: PieceColor::Black, kind: PieceKind::King }),
    );
    board.draw_piece(
        [1, 8],
        Some(Piece { color: PieceColor::Black, kind: PieceKind::Rook }),
    );
    board.move_piece([[5, 8], [3, 8]]);
    assert_eq!(
        at(&board, 3, 8),
        Some(Piece { color: PieceColor::Black, kind: PieceKind::King })
    );
    assert_eq!(
        at(&board, 4, 8),
        Some(Piece { color: PieceColor::Black, kind: PieceKind::Rook })
    );
    assert_eq!(at(&board, 1, 8), None);
}

#[test]
fn en_passant_removes_passed_pawn() {
    let mut board = Chessboard::new();
    board.draw_piece(
        [4, 5],
        Some(Piece { color: PieceColor::White, kind: PieceKind::Pawn }),
    );
    board.draw_piece(
        [5, 5],
        Some(Piece { color: PieceColor::Black, kind: PieceKind::Pawn }),
    );
    board.move_piece([[4, 5], [5, 6]]);
    assert_eq!(at(&board, 5, 5), None);
    assert_eq!(
        at(&board, 5, 6),
        Some(Piece { color: PieceColor::White, kind: PieceKind::Pawn })
    );
    assert_eq!(at(&board, 4, 5), None);
}

#[test]
fn checker_background_two_tones() {
    let board = Chessboard::new();
    // top-left square (file 1, rank 8) gets the light tone
    assert_eq!(board.background[0], Pixel::new(0xA6, 0x80, 0x67, 0xFF));
    // one square to the right gets the dark tone
    assert_eq!(board.background[67], Pixel::new(0x7D, 0x3E, 0x2F, 0xFF));
    assert_eq!(board.background.len(), LEN);
}

#[test]
fn highlight_fills_square_box() {
    let mut board = Chessboard::new();
    let red = Pixel::new(0xFF, 0, 0, 0x99);
    board.highlt([1, 8], red);
    // (file 1, rank 8) occupies the canvas's top-left 67 by 67 box
    assert_eq!(board.highlight[0], red);
    assert_eq!(board.highlight[66], red);
    assert_eq!(board.highlight[67], Pixel::new(0, 0, 0, 0));
    board.unhighlt(&[1, 8]);
    assert_eq!(board.highlight[0], Pixel::new(0, 0, 0, 0));
}

#[test]
fn bresenham_points_between_endpoints() {
    assert_eq!(
        bresenham([[0, 0], [5, 0]]),
        vec![[1, 0], [2, 0], [3, 0], [4, 0]]
    );
    assert_eq!(bresenham([[0, 0], [3, 3]]), vec![[1, 1], [2, 2]]);
    assert_eq!(bresenham([[0, 0], [0, 0]]), Vec::<[i32; 2]>::new());
    assert_eq!(bresenham([[0, 0], [1, 2]]), vec![[1, 1]]);
}

#[test]
fn render_output_is_opaque() {
    let mut board = Chessboard::new();
    board.arrow([[1, 1], [4, 4]], Pixel::new(0, 0xDD, 0, 0x80));
    let catalog = dummy_catalog();
    let img = board.render(&catalog);
    assert_eq!(img.len(), LEN);
    // flattened output: alpha forced to full everywhere
    assert!(img.iter().all(|p| p.a == 255));
    // an empty square with no markers shows the plain background
    assert_eq!(img[0], Pixel::new(0xA6, 0x80, 0x67, 0xFF));
}
