use renderer::instr::{
    line_as_can2coord, try_line_as_can2coord, Color, DataFile, Game, Instruction, InstructionData,
    MoveData, ParseError, RawCuepoint, RawDataFile, RawField, RawGame, RawObj,
};

fn obj(fields: Vec<(&str, RawField)>) -> RawObj {
    RawObj { fields: fields.into_iter().map(|(k, v)| (k.to_string(), v)).collect() }
}

fn cue(name: &str, time_us: i64, data: RawObj) -> RawCuepoint {
    RawCuepoint { name: name.to_string(), time_us, data }
}

#[test]
fn color_words() {
    assert_eq!(Color::try_from_str("yellow"), Some(Color::Yellow));
    assert_eq!(Color::try_from_str("green"), Some(Color::Green));
    assert_eq!(Color::try_from_str("blue"), Some(Color::Blue));
    assert_eq!(Color::try_from_str("red"), Some(Color::Red));
    assert_eq!(Color::try_from_str("mauve"), None);
    assert!(matches!(Color::from_str("red"), Color::Red));
    let px = Color::Blue.rgba();
    assert_eq!((px.r, px.g, px.b, px.a), (0x33, 0x27, 0xDB, 0xFF));
}

#[test]
fn coordinate_strings() {
    let (coords, promo) = line_as_can2coord("e2e4");
    assert_eq!(coords, [[5, 2], [5, 4]]);
    assert_eq!(promo, None);
    let (coords2, promo2) = line_as_can2coord("e7e8q");
    assert_eq!(coords2, [[5, 7], [5, 8]]);
    assert_eq!(promo2, Some(4));
    assert_eq!(try_line_as_can2coord("e9e4"), None);
    assert_eq!(try_line_as_can2coord("z1a1"), None);
    assert_eq!(try_line_as_can2coord("e2"), None);
    // a fifth character naming no piece is not a promotion
    let (_, promo3) = try_line_as_can2coord("e2e4x").unwrap();
    assert_eq!(promo3, None);
}

#[test]
fn parse_goto_and_select() {
    let c = cue(
        "gotoId",
        1_500_000,
        obj(vec![("id", RawField::UInt(7)), ("gameIndex", RawField::UInt(0))]),
    );
    let insn = Instruction::parse(&c).unwrap();
    assert_eq!(insn.0 .0, 1_500_000);
    assert!(matches!(
        insn.0 .1,
        InstructionData::GotoId { id: 7, game_index: 0 }
    ));
    let s = cue("selectGame", 0, obj(vec![("gameIndex", RawField::UInt(2))]));
    let insn2 = Instruction::parse(&s).unwrap();
    assert!(matches!(
        insn2.0 .1,
        InstructionData::SelectGame { initial_move_id: None, game_index: 2 }
    ));
}

#[test]
fn parse_highlight_converts_zero_based_squares() {
    let c = cue(
        "highlightSquare",
        0,
        obj(vec![
            ("color", RawField::Str("green".to_string())),
            ("x", RawField::UInt(4)),
            ("y", RawField::UInt(3)),
            ("gameIndex", RawField::UInt(0)),
        ]),
    );
    let insn = Instruction::parse(&c).unwrap();
    match insn.0 .1 {
        InstructionData::HighlightSquare { color, coord, game_index } => {
            assert_eq!(color, Color::Green);
            assert_eq!(coord, [5, 4]);
            assert_eq!(game_index, 0);
        }
        other => panic!("wrong payload: {:?}", other),
    }
}

#[test]
fn parse_errors_name_their_cause() {
    let unknown = cue("sparkle", 0, obj(vec![("gameIndex", RawField::UInt(0))]));
    assert_eq!(Instruction::parse(&unknown).unwrap_err(), ParseError::UnknownTag);
    let missing = cue("gotoId", 0, obj(vec![("gameIndex", RawField::UInt(0))]));
    assert_eq!(Instruction::parse(&missing).unwrap_err(), ParseError::MissingField);
    let bad_color = cue(
        "highlightSquare",
        0,
        obj(vec![
            ("color", RawField::Str("pink".to_string())),
            ("x", RawField::UInt(0)),
            ("y", RawField::UInt(0)),
            ("gameIndex", RawField::UInt(0)),
        ]),
    );
    assert_eq!(Instruction::parse(&bad_color).unwrap_err(), ParseError::BadColor);
    let bad_coord = cue(
        "drawArrow",
        0,
        obj(vec![
            ("color", RawField::Str("red".to_string())),
            ("lineAsCan", RawField::Str("e9e9".to_string())),
            ("gameIndex", RawField::UInt(0)),
        ]),
    );
    assert_eq!(Instruction::parse(&bad_coord).unwrap_err(), ParseError::BadCoordinate);
    // a square outside the board is a failure too
    let off_board = cue(
        "highlightSquare",
        0,
        obj(vec![
            ("color", RawField::Str("red".to_string())),
            ("x", RawField::UInt(8)),
            ("y", RawField::UInt(0)),
            ("gameIndex", RawField::UInt(0)),
        ]),
    );
    assert_eq!(Instruction::parse(&off_board).unwrap_err(), ParseError::MissingField);
}

#[test]
fn parse_game_builds_move_graph() {
    let g = RawGame {
        video_start_fen: Some("8/8/8/8/8/8/8/8 w".to_string()),
        moves: Some(vec![
            obj(vec![
                ("id", RawField::UInt(1)),
                ("pm", RawField::Int(1)),
                ("m", RawField::Str("e2e4".to_string())),
            ]),
            obj(vec![
                ("id", RawField::UInt(2)),
                ("pm", RawField::Int(1)),
                ("fen", RawField::Str("8/8/8/8/8/8/8/8 w".to_string())),
            ]),
        ]),
    };
    let game: Game = Game::parse(&g).unwrap();
    let m1 = game.moves.get(&1).unwrap();
    assert_eq!(m1.prev_m, 1);
    assert!(matches!(m1.data, MoveData::Coord([[5, 2], [5, 4]], None)));
    let m2 = game.moves.get(&2).unwrap();
    assert_eq!(m2.prev_m, 1);
    assert!(matches!(m2.data, MoveData::Fen(_)));
    let broken = RawGame { video_start_fen: None, moves: Some(vec![]) };
    assert_eq!(Game::parse(&broken).unwrap_err(), ParseError::MissingField);
}

#[test]
fn one_malformed_lesson_fails_while_another_parses() {
    let good = RawDataFile {
        cuepoints: vec![cue(
            "gotoId",
            0,
            obj(vec![("id", RawField::UInt(1)), ("gameIndex", RawField::UInt(0))]),
        )],
        games: vec![RawGame {
            video_start_fen: Some("8/8/8/8/8/8/8/8 w".to_string()),
            moves: Some(vec![]),
        }],
    };
    let bad = RawDataFile {
        cuepoints: vec![cue("mystery", 0, obj(vec![]))],
        games: vec![],
    };
    let parsed_good: DataFile = DataFile::parse(&good).unwrap();
    assert_eq!(parsed_good.cuepoints.len(), 1);
    assert_eq!(parsed_good.games.len(), 1);
    assert_eq!(DataFile::parse(&bad).unwrap_err(), ParseError::UnknownTag);
}
