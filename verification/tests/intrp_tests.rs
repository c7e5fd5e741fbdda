use std::collections::HashMap;

use renderer::board::{Chessboard, LEN};
use renderer::fen::Fen;
use renderer::instr::{
    Color, DataFile, Game, Instruction, InstructionData, Move, MoveData,
};
use renderer::intrp::{goto_id, move_insn_board, Interpreter};
use renderer::piece::{Catalog, Piece, PieceColor, PieceKind, Sprite, SPRITE_PIXELS};
use renderer::pixel::Pixel;
use renderer::timeline::Timeline;

fn dummy_catalog() -> Catalog {
    let mut sprites = Vec::new();
    for i in 0..12u8 {
        let px = Pixel::new(20 * i, 10 * i, 5 * i, 255);
        sprites.push(Sprite::new(vec![px; SPRITE_PIXELS]).unwrap());
    }
    Catalog::new(sprites).unwrap()
}

fn boards_identical(a: &Chessboard, b: &Chessboard) -> bool {
    a.background == b.background && a.arrows_layer == b.arrows_layer && a.highlight == b.highlight
        && a.state == b.state && a.arrows == b.arrows && a.redraw_arrows == b.redraw_arrows
}

fn chain_game(depth: usize) -> Game {
    // moves 1..=depth, each relocating a pawn one rank up; move 1 is a root
    let mut moves: HashMap<usize, Move> = HashMap::new();
    for k in 1..=depth {
        moves.insert(
            k,
            Move {
                prev_m: if k == 1 { 1 } else { k - 1 },
                data: MoveData::Coord(
                    [
                        [5, (k + 1) as u32],
                        [5, (k + 2) as u32],
                    ],
                    None,
                ),
            },
        );
    }
    Game { init: Fen::new("8/8/8/8/8/8/4P3/8 w".to_string()), moves }
}

fn seeded_timeline() -> Timeline {
    let mut tl = Timeline::new();
    let mut b = Chessboard::new();
    b.draw_piece(
        [5, 2],
        Some(Piece { color: PieceColor::White, kind: PieceKind::Pawn }),
    );
    tl.insert((100, 0), b);
    tl
}

#[test]
fn memoized_revisit_returns_identical_snapshot() {
    let game = chain_game(1);
    let mut tl = seeded_timeline();
    goto_id(&mut tl, &game, 0, 1).unwrap();
    assert_eq!(tl.len(), 2);
    let stored = tl.boards.len();
    let snapshot = tl.current().clone();
    // second visit to the same key: same snapshot, no new clone or mutation
    goto_id(&mut tl, &game, 0, 1).unwrap();
    assert_eq!(tl.len(), 2);
    assert_eq!(tl.boards.len(), stored);
    assert!(boards_identical(&snapshot, tl.current()));
}

#[test]
fn deep_goto_materializes_ancestors_in_order_once() {
    let game = chain_game(5);
    let mut tl = seeded_timeline();
    goto_id(&mut tl, &game, 0, 5).unwrap();
    // all five ancestors cached, exactly once each: one seed plus five
    assert_eq!(tl.len(), 6);
    assert_eq!(tl.boards.len(), 6);
    assert_eq!(tl.index(), 5);
    // in materialization order: move 1 deepest, then 2, 3, 4, 5
    for k in 1..=5usize {
        tl.index_of(&(k, 0)).unwrap();
        assert_eq!(tl.index(), k);
    }
    // the pawn ended on rank 7 in the target snapshot
    tl.index_of(&(5, 0)).unwrap();
    let b = tl.current();
    assert_eq!(
        b.state[(5 - 1) + 8 * (7 - 1)],
        Some(Piece { color: PieceColor::White, kind: PieceKind::Pawn })
    );
    assert_eq!(b.state[(5 - 1) + 8 * (2 - 1)], None);
}

#[test]
fn move_diff_draws_one_inferred_arrow() {
    let mut b = Chessboard::new();
    b.draw_piece(
        [5, 2],
        Some(Piece { color: PieceColor::White, kind: PieceKind::Pawn }),
    );
    let fen = Fen::new("8/8/8/8/4P3/8/8/8 w".to_string());
    move_insn_board(&mut b, &fen).unwrap();
    // exactly one arrow, from the vacated e2 to the occupied e4
    assert_eq!(b.arrows.len(), 1);
    let a = b.arrows[0];
    assert_eq!((a.from_file, a.from_rank), (5, 2));
    assert_eq!((a.to_file, a.to_rank), (5, 4));
    let blue = Color::Blue.rgba();
    assert_eq!(a.color, blue);
    // the position itself was applied
    assert_eq!(
        b.state[(5 - 1) + 8 * (4 - 1)],
        Some(Piece { color: PieceColor::White, kind: PieceKind::Pawn })
    );
    assert_eq!(b.state[(5 - 1) + 8 * (2 - 1)], None);
}

#[test]
fn missing_game_truncates_at_timestamp() {
    let data = DataFile {
        cuepoints: vec![
            Instruction((
                0,
                InstructionData::SelectGame { initial_move_id: Some(1), game_index: 0 },
            )),
            Instruction((
                2_500_000,
                InstructionData::SelectGame { initial_move_id: None, game_index: 9 },
            )),
            Instruction((3_000_000, InstructionData::Nop)),
        ],
        games: vec![chain_game(1)],
    };
    let catalog = dummy_catalog();
    let out = Interpreter::new(data).render_frames(&catalog).unwrap();
    // the out-of-range reference stops rendering at its timestamp
    assert_eq!(out.truncated_us, Some(2_500_000));
    assert_eq!(out.frames.len(), 1);
    assert_eq!(out.manifest.len(), 1);
    assert_eq!(out.manifest[0], (0, 2_500_000));
}

#[test]
fn lesson_renders_frames_and_manifest() {
    let data = DataFile {
        cuepoints: vec![
            Instruction((
                0,
                InstructionData::SelectGame { initial_move_id: Some(1), game_index: 0 },
            )),
            Instruction((
                2_000_000,
                InstructionData::DrawArrow {
                    color: Color::Red,
                    coord: [[1, 1], [4, 4]],
                    game_index: 0,
                },
            )),
            Instruction((
                3_500_000,
                InstructionData::Move {
                    id: 7,
                    mov: 1,
                    fen: Fen::new("8/8/8/8/4P3/8/8/8 w".to_string()),
                    game_index: 0,
                },
            )),
        ],
        games: vec![chain_game(1)],
    };
    let catalog = dummy_catalog();
    let out = Interpreter::new(data).render_frames(&catalog).unwrap();
    assert_eq!(out.truncated_us, None);
    assert_eq!(out.frames.len(), 3);
    assert!(out.frames.iter().all(|f| f.len() == LEN));
    assert!(out.frames.iter().all(|f| f.iter().all(|p| p.a == 255)));
    // one entry per frame plus the repeated final entry
    assert_eq!(out.manifest.len(), 4);
    assert_eq!(out.manifest[0], (0, 2_000_000));
    assert_eq!(out.manifest[1], (1, 1_500_000));
    assert_eq!(out.manifest[2], (2, 1_000_000));
    assert_eq!(out.manifest[3], out.manifest[2]);
}

#[test]
fn recall_without_prior_visit_is_fatal() {
    let data = DataFile {
        cuepoints: vec![Instruction((
            0,
            InstructionData::SelectGame { initial_move_id: None, game_index: 0 },
        ))],
        games: vec![chain_game(1)],
    };
    let catalog = dummy_catalog();
    assert!(Interpreter::new(data).render_frames(&catalog).is_err());
}

#[test]
fn select_game_applies_move_effect() {
    let game = chain_game(1);
    let data = DataFile {
        cuepoints: vec![Instruction((
            0,
            InstructionData::SelectGame { initial_move_id: Some(1), game_index: 0 },
        ))],
        games: vec![game],
    };
    let catalog = dummy_catalog();
    let out = Interpreter::new(data).render_frames(&catalog).unwrap();
    assert_eq!(out.frames.len(), 1);
    // the selected move relocated the pawn from e2 to e3 on the fresh board
    let game2 = chain_game(1);
    let mut tl = Timeline::new();
    let mut lv: HashMap<usize, usize> = HashMap::new();
    renderer::intrp::select_game(&mut tl, &mut lv, &game2, 0, Some(1)).unwrap();
    let b = tl.current();
    assert_eq!(b.state[(5 - 1) + 8 * (2 - 1)], None);
    assert_eq!(
        b.state[(5 - 1) + 8 * (3 - 1)],
        Some(Piece { color: PieceColor::White, kind: PieceKind::Pawn })
    );
    assert_eq!(b.arrows.len(), 1);
}

#[test]
fn malformed_position_record_fails_the_lesson() {
    let mut b = Chessboard::new();
    let bad = Fen::new("x7/8/8/8/8/8/8/8 w".to_string());
    assert!(move_insn_board(&mut b, &bad).is_err());
    let mut tl = seeded_timeline();
    assert!(renderer::intrp::move_insn(&mut tl, 9, 0, &bad).is_err());
    // the timeline is untouched by the failed instruction
    assert_eq!(tl.len(), 1);
}
