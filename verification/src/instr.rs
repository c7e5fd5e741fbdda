//! The typed instruction model and its parser.
//!
//! A lesson file carries a list of timestamped cuepoint records and a list
//! of games. Records arrive here in a plain pre-decoded form (`RawObj`:
//! named scalar fields); this module checks the per-tag required fields and
//! builds the typed instructions, the games' initial positions and their
//! move graphs. An unknown tag, a missing or mistyped required field, an
//! unparsable coordinate string or an out-of-range square is a hard parse
//! failure for the whole lesson.

use vstd::prelude::*;

use crate::fen::Fen;
use crate::piece::{uncolored_spec, Piece};
use crate::pixel::Pixel;
use std::collections::HashMap;

verus! {

/// One pre-decoded scalar field of a record: an unsigned integer, a signed
/// integer that fits no unsigned form, a string, or anything else.
pub enum RawField {
    UInt(u64),
    Int(i64),
    Str(String),
    Other,
}

/// One pre-decoded record object: named scalar fields.
pub struct RawObj {
    pub fields: Vec<(String, RawField)>,
}

/// One pre-decoded cuepoint: tag name, timestamp in microseconds, payload.
pub struct RawCuepoint {
    pub name: String,
    pub time_us: i64,
    pub data: RawObj,
}

/// One pre-decoded game record: the initial position string (when present
/// and a string) and the move records (when present and a list).
pub struct RawGame {
    pub video_start_fen: Option<String>,
    pub moves: Option<Vec<RawObj>>,
}

/// A whole pre-decoded lesson file.
pub struct RawDataFile {
    pub cuepoints: Vec<RawCuepoint>,
    pub games: Vec<RawGame>,
}

/// Why a lesson failed to parse.
#[derive(Clone, Copy, PartialEq, Eq, Structural, Debug)]
pub enum ParseError {
    UnknownTag,
    MissingField,
    BadCoordinate,
    BadColor,
}

/// The first field with the given name, searched front to back.
pub open spec fn obj_get_spec(fields: Seq<(String, RawField)>, key: Seq<char>) -> Option<RawField>
    decreases fields.len(),
{
    if fields.len() == 0 {
        None
    } else if fields[0].0@ == key {
        Some(fields[0].1)
    } else {
        obj_get_spec(fields.subrange(1, fields.len() as int), key)
    }
}

/// The field's value as an unsigned integer, if it has that form.
pub open spec fn get_u64_spec(fields: Seq<(String, RawField)>, key: Seq<char>) -> Option<u64> {
    match obj_get_spec(fields, key) {
        Some(RawField::UInt(x)) => Some(x),
        _ => None,
    }
}

/// The field's value as a signed integer: unsigned values that fit, or
/// signed ones.
pub open spec fn get_i64_spec(fields: Seq<(String, RawField)>, key: Seq<char>) -> Option<i64> {
    match obj_get_spec(fields, key) {
        Some(RawField::UInt(x)) => if x <= i64::MAX as u64 {
            Some(x as i64)
        } else {
            None
        },
        Some(RawField::Int(x)) => Some(x),
        _ => None,
    }
}

/// The field's value as a string.
pub open spec fn get_str_spec(fields: Seq<(String, RawField)>, key: Seq<char>) -> Option<Seq<char>> {
    match obj_get_spec(fields, key) {
        Some(RawField::Str(s)) => Some(s@),
        _ => None,
    }
}

impl RawObj {
    /// The first field with the given name.
    pub fn get<'a>(&'a self, key: &str) -> (r: Option<&'a RawField>)
        ensures
            match r {
                Some(f) => obj_get_spec(self.fields@, key@) == Some(*f),
                None => obj_get_spec(self.fields@, key@) is None,
            },
    {
        proof {
            lemma_obj_get(self.fields@, key@);
        }
        let mut i: usize = 0;
        let n = self.fields.len();
        while i < n
            invariant
                n == self.fields@.len(),
                i <= n,
                forall|j: int| 0 <= j < i ==> (#[trigger] self.fields@[j]).0@ != key@,
            decreases n - i,
        {
            if str_eq(self.fields[i].0.as_str(), key) {
                proof {
                    lemma_obj_get_found(self.fields@, key@, i as int);
                }
                return Some(&self.fields[i].1);
            }
            i = i + 1;
        }
        None
    }

    pub fn get_u64(&self, key: &str) -> (r: Option<u64>)
        ensures
            r == get_u64_spec(self.fields@, key@),
    {
        match self.get(key) {
            Some(RawField::UInt(x)) => Some(*x),
            _ => None,
        }
    }

    pub fn get_i64(&self, key: &str) -> (r: Option<i64>)
        ensures
            r == get_i64_spec(self.fields@, key@),
    {
        match self.get(key) {
            Some(RawField::UInt(x)) => {
                if *x <= i64::MAX as u64 {
                    Some(*x as i64)
                } else {
                    None
                }
            },
            Some(RawField::Int(x)) => Some(*x),
            _ => None,
        }
    }

    pub fn get_str(&self, key: &str) -> (r: Option<String>)
        ensures
            match r {
                Some(s) => get_str_spec(self.fields@, key@) == Some(s@),
                None => get_str_spec(self.fields@, key@) is None,
            },
    {
        match self.get(key) {
            Some(RawField::Str(s)) => Some(s.clone()),
            _ => None,
        }
    }
}

/// If no field of the object has the name, the lookup yields nothing.
proof fn lemma_obj_get(fields: Seq<(String, RawField)>, key: Seq<char>)
    ensures
        (forall|j: int| 0 <= j < fields.len() ==> (#[trigger] fields[j]).0@ != key) ==> obj_get_spec(
            fields,
            key,
        ) is None,
    decreases fields.len(),
{
    if fields.len() > 0 {
        lemma_obj_get(fields.subrange(1, fields.len() as int), key);
        assert forall|j: int| 1 <= j < fields.len() implies fields.subrange(1, fields.len() as int)[j
            - 1] == fields[j] by {}
    }
}

/// A first match at position `i` decides the lookup.
proof fn lemma_obj_get_found(fields: Seq<(String, RawField)>, key: Seq<char>, i: int)
    requires
        0 <= i < fields.len(),
        fields[i].0@ == key,
        forall|j: int| 0 <= j < i ==> (#[trigger] fields[j]).0@ != key,
    ensures
        obj_get_spec(fields, key) == Some(fields[i].1),
    decreases i,
{
    if i > 0 {
        lemma_obj_get_found(fields.subrange(1, fields.len() as int), key, i - 1);
    }
}

/// Whether two strings hold the same characters.
pub fn str_eq(a: &str, b: &str) -> (r: bool)
    ensures
        r == (a@ == b@),
{
    let la = a.unicode_len();
    let lb = b.unicode_len();
    if la != lb {
        return false;
    }
    let mut i: usize = 0;
    while i < la
        invariant
            la == a@.len(),
            lb == b@.len(),
            la == lb,
            i <= la,
            forall|j: int| 0 <= j < i ==> a@[j] == b@[j],
        decreases la - i,
    {
        if a.get_char(i) != b.get_char(i) {
            return false;
        }
        i = i + 1;
    }
    proof {
        assert(a@ =~= b@);
    }
    true
}

/// A marker colour.
#[derive(Debug, Clone, Copy, PartialEq, Eq, Structural)]
pub enum Color {
    Yellow,
    Green,
    Blue,
    Red,
}

/// The colour a record's colour word names.
pub open spec fn color_of_str_spec(s: Seq<char>) -> Option<Color> {
    if s == "yellow"@ {
        Some(Color::Yellow)
    } else if s == "green"@ {
        Some(Color::Green)
    } else if s == "blue"@ {
        Some(Color::Blue)
    } else if s == "red"@ {
        Some(Color::Red)
    } else {
        None
    }
}

impl Color {
    /// The colour a record's colour word names. Callers must hand one of
    /// the four known words.
    pub fn from_str(str: &str) -> (r: Color)
        requires
            color_of_str_spec(str@) is Some,
        ensures
            Some(r) == color_of_str_spec(str@),
    {
        match Self::try_from_str(str) {
            Some(c) => c,
            None => Color::Yellow,
        }
    }

    /// The colour a record's colour word names, or `None` for any other
    /// word.
    pub fn try_from_str(str: &str) -> (r: Option<Color>)
        ensures
            r == color_of_str_spec(str@),
    {
        if str_eq(str, "yellow") {
            Some(Color::Yellow)
        } else if str_eq(str, "green") {
            Some(Color::Green)
        } else if str_eq(str, "blue") {
            Some(Color::Blue)
        } else if str_eq(str, "red") {
            Some(Color::Red)
        } else {
            None
        }
    }

    /// The colour's pixel value.
    pub fn rgba(self) -> (p: Pixel)
        ensures
            p == color_pixel_spec(self),
    {
        match self {
            Color::Yellow => Pixel { r: 0xDB, g: 0xDB, b: 0x00, a: 0xFF },
            Color::Green => Pixel { r: 0x27, g: 0xDB, b: 0x33, a: 0xFF },
            Color::Blue => Pixel { r: 0x33, g: 0x27, b: 0xDB, a: 0xFF },
            Color::Red => Pixel { r: 0xDB, g: 0x33, b: 0x28, a: 0xFF },
        }
    }
}

pub open spec fn color_pixel_spec(c: Color) -> Pixel {
    match c {
        Color::Yellow => Pixel { r: 0xDB, g: 0xDB, b: 0x00, a: 0xFF },
        Color::Green => Pixel { r: 0x27, g: 0xDB, b: 0x33, a: 0xFF },
        Color::Blue => Pixel { r: 0x33, g: 0x27, b: 0xDB, a: 0xFF },
        Color::Red => Pixel { r: 0xDB, g: 0x33, b: 0x28, a: 0xFF },
    }
}

pub open spec fn is_file_char(c: char) -> bool {
    97 <= c as int <= 104
}

pub open spec fn is_rank_char(c: char) -> bool {
    49 <= c as int <= 56
}

/// The square pair and optional promotion kind a compact
/// "file-rank-file-rank[-promotionLetter]" coordinate string stands for,
/// or nothing when the first four characters name no two board squares.
pub open spec fn can_parse_spec(s: Seq<char>) -> Option<([[u32; 2]; 2], Option<usize>)> {
    if s.len() >= 4 && is_file_char(s[0]) && is_rank_char(s[1]) && is_file_char(s[2]) && is_rank_char(
        s[3],
    ) {
        let coords = [
            [(s[0] as int - 96) as u32, (s[1] as int - 48) as u32],
            [(s[2] as int - 96) as u32, (s[3] as int - 48) as u32],
        ];
        let promo = if s.len() >= 5 {
            uncolored_spec(s[4])
        } else {
            None
        };
        Some((coords, promo))
    } else {
        None
    }
}

/// Parse a compact coordinate string, or report that it names no two
/// board squares.
pub fn try_line_as_can2coord(str: &str) -> (r: Option<([[u32; 2]; 2], Option<usize>)>)
    ensures
        r == can_parse_spec(str@),
{
    let n = str.unicode_len();
    if n < 4 {
        return None;
    }
    let c0 = str.get_char(0);
    let c1 = str.get_char(1);
    let c2 = str.get_char(2);
    let c3 = str.get_char(3);
    let v0 = c0 as u32;
    let v1 = c1 as u32;
    let v2 = c2 as u32;
    let v3 = c3 as u32;
    if !(97 <= v0 && v0 <= 104 && 49 <= v1 && v1 <= 56 && 97 <= v2 && v2 <= 104 && 49 <= v3 && v3
        <= 56) {
        return None;
    }
    let coords = [[v0 - 96, v1 - 48], [v2 - 96, v3 - 48]];
    let promo = if n >= 5 {
        Piece::uncolored(str.get_char(4))
    } else {
        None
    };
    Some((coords, promo))
}

/// Parse a compact coordinate string. Callers must hand one that names two
/// board squares.
pub fn line_as_can2coord(str: &str) -> (r: ([[u32; 2]; 2], Option<usize>))
    requires
        can_parse_spec(str@) is Some,
    ensures
        Some(r) == can_parse_spec(str@),
{
    match try_line_as_can2coord(str) {
        Some(r) => r,
        None => ([[1, 1], [1, 1]], None),
    }
}

/// One timestamped lesson operation: the timestamp in microseconds and the
/// typed payload.
#[derive(Debug)]
pub struct Instruction(pub (i64, InstructionData));

#[derive(Debug, Clone)]
pub enum InstructionData {
    HighlightSquare { color: Color, coord: [u32; 2], game_index: usize },
    DrawArrow { color: Color, coord: [[u32; 2]; 2], game_index: usize },
    Unarrow { coord: [[u32; 2]; 2], game_index: usize },
    UnarrowAll { game_index: usize },
    ClearAllHighlights { game_index: usize },
    GotoId { id: usize, game_index: usize },
    Unmark { coord: [u32; 2], game_index: usize },
    UnmarkAll { game_index: usize },
    SelectGame { initial_move_id: Option<usize>, game_index: usize },
    Move { id: usize, mov: usize, fen: Fen, game_index: usize },
    Nop,
}

/// The ghost shape of a parsed payload: as `InstructionData`, with the
/// position string as its characters.
pub ghost enum InsnView {
    HighlightSquare { color: Color, coord: [u32; 2], game_index: usize },
    DrawArrow { color: Color, coord: [[u32; 2]; 2], game_index: usize },
    Unarrow { coord: [[u32; 2]; 2], game_index: usize },
    UnarrowAll { game_index: usize },
    ClearAllHighlights { game_index: usize },
    GotoId { id: usize, game_index: usize },
    Unmark { coord: [u32; 2], game_index: usize },
    UnmarkAll { game_index: usize },
    SelectGame { initial_move_id: Option<usize>, game_index: usize },
    Move { id: usize, mov: usize, fen: Seq<char>, game_index: usize },
    Nop,
}

impl View for InstructionData {
    type V = InsnView;

    open spec fn view(&self) -> InsnView {
        match self {
            InstructionData::HighlightSquare { color, coord, game_index } => InsnView::HighlightSquare {
                color: *color,
                coord: *coord,
                game_index: *game_index,
            },
            InstructionData::DrawArrow { color, coord, game_index } => InsnView::DrawArrow {
                color: *color,
                coord: *coord,
                game_index: *game_index,
            },
            InstructionData::Unarrow { coord, game_index } => InsnView::Unarrow {
                coord: *coord,
                game_index: *game_index,
            },
            InstructionData::UnarrowAll { game_index } => InsnView::UnarrowAll {
                game_index: *game_index,
            },
            InstructionData::ClearAllHighlights { game_index } => InsnView::ClearAllHighlights {
                game_index: *game_index,
            },
            InstructionData::GotoId { id, game_index } => InsnView::GotoId {
                id: *id,
                game_index: *game_index,
            },
            InstructionData::Unmark { coord, game_index } => InsnView::Unmark {
                coord: *coord,
                game_index: *game_index,
            },
            InstructionData::UnmarkAll { game_index } => InsnView::UnmarkAll {
                game_index: *game_index,
            },
            InstructionData::SelectGame { initial_move_id, game_index } => InsnView::SelectGame {
                initial_move_id: *initial_move_id,
                game_index: *game_index,
            },
            InstructionData::Move { id, mov, fen, game_index } => InsnView::Move {
                id: *id,
                mov: *mov,
                fen: fen.0@,
                game_index: *game_index,
            },
            InstructionData::Nop => InsnView::Nop,
        }
    }
}

/// The game index a payload names, when it is there and fits.
pub open spec fn game_index_spec(fields: Seq<(String, RawField)>) -> Option<usize> {
    match get_u64_spec(fields, "gameIndex"@) {
        Some(x) => if x <= usize::MAX as u64 {
            Some(x as usize)
        } else {
            None
        },
        None => None,
    }
}

/// The 0-based x/y square a payload names, converted to a 1-based board
/// square, when both coordinates are there and on the board.
pub open spec fn coords_spec(fields: Seq<(String, RawField)>) -> Option<[u32; 2]> {
    match (get_u64_spec(fields, "x"@), get_u64_spec(fields, "y"@)) {
        (Some(x), Some(y)) => if x <= 7 && y <= 7 {
            Some([(x + 1) as u32, (y + 1) as u32])
        } else {
            None
        },
        _ => None,
    }
}

/// A `usize`-sized id field.
pub open spec fn id_spec(fields: Seq<(String, RawField)>, key: Seq<char>) -> Option<usize> {
    match get_u64_spec(fields, key) {
        Some(x) => if x <= usize::MAX as u64 {
            Some(x as usize)
        } else {
            None
        },
        None => None,
    }
}

/// What parsing one cuepoint yields: the typed payload for a known tag
/// with all its required fields, or the failure.
pub open spec fn insn_spec(name: Seq<char>, time_us: i64, fields: Seq<(String, RawField)>) -> Result<
    (i64, InsnView),
    ParseError,
> {
    if name == "gotoId"@ {
        match (id_spec(fields, "id"@), game_index_spec(fields)) {
            (Some(id), Some(g)) => Ok((time_us, InsnView::GotoId { id, game_index: g })),
            _ => Err(ParseError::MissingField),
        }
    } else if name == "selectGame"@ {
        match game_index_spec(fields) {
            Some(g) => Ok(
                (
                    time_us,
                    InsnView::SelectGame {
                        initial_move_id: id_spec(fields, "initialMoveId"@),
                        game_index: g,
                    },
                ),
            ),
            None => Err(ParseError::MissingField),
        }
    } else if name == "highlightSquare"@ {
        match (get_str_spec(fields, "color"@), coords_spec(fields), game_index_spec(fields)) {
            (Some(cs), Some(coord), Some(g)) => match color_of_str_spec(cs) {
                Some(color) => Ok((time_us, InsnView::HighlightSquare { color, coord, game_index: g })),
                None => Err(ParseError::BadColor),
            },
            _ => Err(ParseError::MissingField),
        }
    } else if name == "drawArrow"@ {
        match (get_str_spec(fields, "lineAsCan"@), game_index_spec(fields)) {
            (Some(cs), Some(g)) => match (get_str_spec(fields, "color"@), can_parse_spec(cs)) {
                (Some(col), Some(pair)) => match color_of_str_spec(col) {
                    Some(color) => Ok(
                        (time_us, InsnView::DrawArrow { color, coord: pair.0, game_index: g }),
                    ),
                    None => Err(ParseError::BadColor),
                },
                (None, _) => Err(ParseError::MissingField),
                (_, None) => Err(ParseError::BadCoordinate),
            },
            _ => Err(ParseError::MissingField),
        }
    } else if name == "unmark"@ {
        match (coords_spec(fields), game_index_spec(fields)) {
            (Some(coord), Some(g)) => Ok((time_us, InsnView::Unmark { coord, game_index: g })),
            _ => Err(ParseError::MissingField),
        }
    } else if name == "unmarkAll"@ {
        match game_index_spec(fields) {
            Some(g) => Ok((time_us, InsnView::UnmarkAll { game_index: g })),
            None => Err(ParseError::MissingField),
        }
    } else if name == "clearAllHighlights"@ {
        match game_index_spec(fields) {
            Some(g) => Ok((time_us, InsnView::ClearAllHighlights { game_index: g })),
            None => Err(ParseError::MissingField),
        }
    } else if name == "move"@ {
        match (id_spec(fields, "id"@), id_spec(fields, "move"@), get_str_spec(fields, "fen"@), game_index_spec(fields)) {
            (Some(id), Some(mov), Some(fen), Some(g)) => Ok(
                (time_us, InsnView::Move { id, mov, fen, game_index: g }),
            ),
            _ => Err(ParseError::MissingField),
        }
    } else if name == "unarrow"@ {
        match (get_str_spec(fields, "lineAsCan"@), game_index_spec(fields)) {
            (Some(cs), Some(g)) => match can_parse_spec(cs) {
                Some(pair) => Ok((time_us, InsnView::Unarrow { coord: pair.0, game_index: g })),
                None => Err(ParseError::BadCoordinate),
            },
            _ => Err(ParseError::MissingField),
        }
    } else if name == "unarrowAll"@ {
        match game_index_spec(fields) {
            Some(g) => Ok((time_us, InsnView::UnarrowAll { game_index: g })),
            None => Err(ParseError::MissingField),
        }
    } else if name == "triggerExerciseGroup"@ {
        Ok((time_us, InsnView::Nop))
    } else {
        Err(ParseError::UnknownTag)
    }
}

/// The ghost shape of a parsed instruction result.
pub open spec fn insn_result_view(r: Result<Instruction, ParseError>) -> Result<
    (i64, InsnView),
    ParseError,
> {
    match r {
        Ok(i) => Ok((i.0.0, i.0.1@)),
        Err(e) => Err(e),
    }
}

impl Instruction {
    /// Parse one cuepoint record: check the tag and its required fields
    /// and build the typed payload.
    pub fn parse(c: &RawCuepoint) -> (r: Result<Instruction, ParseError>)
        ensures
            insn_result_view(r) == insn_spec(c.name@, c.time_us, c.data.fields@),
    {
        let d = &c.data;
        let t = c.time_us;
        if str_eq(c.name.as_str(), "gotoId") {
            match (Self::get_id(d, "id"), Self::get_game_index(d)) {
                (Some(id), Some(g)) => Ok(
                    Instruction((t, InstructionData::GotoId { id, game_index: g })),
                ),
                _ => Err(ParseError::MissingField),
            }
        } else if str_eq(c.name.as_str(), "selectGame") {
            match Self::get_game_index(d) {
                Some(g) => Ok(
                    Instruction(
                        (
                            t,
                            InstructionData::SelectGame {
                                initial_move_id: Self::get_id(d, "initialMoveId"),
                                game_index: g,
                            },
                        ),
                    ),
                ),
                None => Err(ParseError::MissingField),
            }
        } else if str_eq(c.name.as_str(), "highlightSquare") {
            match (d.get_str("color"), Self::get_coords(d), Self::get_game_index(d)) {
                (Some(cs), Some(coord), Some(g)) => match Color::try_from_str(cs.as_str()) {
                    Some(color) => Ok(
                        Instruction(
                            (t, InstructionData::HighlightSquare { color, coord, game_index: g }),
                        ),
                    ),
                    None => Err(ParseError::BadColor),
                },
                _ => Err(ParseError::MissingField),
            }
        } else if str_eq(c.name.as_str(), "drawArrow") {
            match (d.get_str("lineAsCan"), Self::get_game_index(d)) {
                (Some(cs), Some(g)) => match (d.get_str("color"), try_line_as_can2coord(
                    cs.as_str(),
                )) {
                    (Some(col), Some(pair)) => match Color::try_from_str(col.as_str()) {
                        Some(color) => Ok(
                            Instruction(
                                (t, InstructionData::DrawArrow { color, coord: pair.0, game_index: g }),
                            ),
                        ),
                        None => Err(ParseError::BadColor),
                    },
                    (None, _) => Err(ParseError::MissingField),
                    (_, None) => Err(ParseError::BadCoordinate),
                },
                _ => Err(ParseError::MissingField),
            }
        } else if str_eq(c.name.as_str(), "unmark") {
            match (Self::get_coords(d), Self::get_game_index(d)) {
                (Some(coord), Some(g)) => Ok(
                    Instruction((t, InstructionData::Unmark { coord, game_index: g })),
                ),
                _ => Err(ParseError::MissingField),
            }
        } else if str_eq(c.name.as_str(), "unmarkAll") {
            match Self::get_game_index(d) {
                Some(g) => Ok(Instruction((t, InstructionData::UnmarkAll { game_index: g }))),
                None => Err(ParseError::MissingField),
            }
        } else if str_eq(c.name.as_str(), "clearAllHighlights") {
            match Self::get_game_index(d) {
                Some(g) => Ok(
                    Instruction((t, InstructionData::ClearAllHighlights { game_index: g })),
                ),
                None => Err(ParseError::MissingField),
            }
        } else if str_eq(c.name.as_str(), "move") {
            match (Self::get_id(d, "id"), Self::get_id(d, "move"), d.get_str("fen"), Self::get_game_index(d)) {
                (Some(id), Some(mov), Some(fen), Some(g)) => Ok(
                    Instruction(
                        (
                            t,
                            InstructionData::Move {
                                id,
                                mov,
                                fen: Fen::new(fen),
                                game_index: g,
                            },
                        ),
                    ),
                ),
                _ => Err(ParseError::MissingField),
            }
        } else if str_eq(c.name.as_str(), "unarrow") {
            match (d.get_str("lineAsCan"), Self::get_game_index(d)) {
                (Some(cs), Some(g)) => match try_line_as_can2coord(cs.as_str()) {
                    Some(pair) => Ok(
                        Instruction((t, InstructionData::Unarrow { coord: pair.0, game_index: g })),
                    ),
                    None => Err(ParseError::BadCoordinate),
                },
                _ => Err(ParseError::MissingField),
            }
        } else if str_eq(c.name.as_str(), "unarrowAll") {
            match Self::get_game_index(d) {
                Some(g) => Ok(Instruction((t, InstructionData::UnarrowAll { game_index: g }))),
                None => Err(ParseError::MissingField),
            }
        } else if str_eq(c.name.as_str(), "triggerExerciseGroup") {
            Ok(Instruction((t, InstructionData::Nop)))
        } else {
            Err(ParseError::UnknownTag)
        }
    }

    fn get_game_index(d: &RawObj) -> (r: Option<usize>)
        ensures
            r == game_index_spec(d.fields@),
    {
        match d.get_u64("gameIndex") {
            Some(x) => {
                if x <= usize::MAX as u64 {
                    Some(x as usize)
                } else {
                    None
                }
            },
            None => None,
        }
    }

    fn get_id(d: &RawObj, key: &str) -> (r: Option<usize>)
        ensures
            r == id_spec(d.fields@, key@),
    {
        match d.get_u64(key) {
            Some(x) => {
                if x <= usize::MAX as u64 {
                    Some(x as usize)
                } else {
                    None
                }
            },
            None => None,
        }
    }

    fn get_coords(d: &RawObj) -> (r: Option<[u32; 2]>)
        ensures
            r == coords_spec(d.fields@),
    {
        match (d.get_u64("x"), d.get_u64("y")) {
            (Some(x), Some(y)) => {
                if x <= 7 && y <= 7 {
                    Some([(x + 1) as u32, (y + 1) as u32])
                } else {
                    None
                }
            },
            _ => None,
        }
    }
}

/// One move of a game's move graph.
#[derive(Debug)]
pub struct Move {
    pub prev_m: usize,
    pub data: MoveData,
}

/// A move's effect: a whole position, or a relocation with an optional
/// promotion kind.
#[derive(Debug)]
pub enum MoveData {
    Fen(Fen),
    Coord([[u32; 2]; 2], Option<usize>),
}

/// The ghost shape of a move.
pub ghost enum MoveDataView {
    FenV(Seq<char>),
    CoordV([[u32; 2]; 2], Option<usize>),
}

pub ghost struct MoveView {
    pub prev_m: usize,
    pub data: MoveDataView,
}

impl View for Move {
    type V = MoveView;

    open spec fn view(&self) -> MoveView {
        MoveView {
            prev_m: self.prev_m,
            data: match &self.data {
                MoveData::Fen(f) => MoveDataView::FenV(f.0@),
                MoveData::Coord(c, p) => MoveDataView::CoordV(*c, *p),
            },
        }
    }
}

/// What parsing one move record yields: its id and the move, or the
/// failure.
pub open spec fn move_spec(fields: Seq<(String, RawField)>) -> Result<(usize, MoveView), ParseError> {
    match (id_spec(fields, "id"@), get_i64_spec(fields, "pm"@)) {
        (Some(id), Some(pm)) => {
            let prev = pm as usize;
            match get_str_spec(fields, "fen"@) {
                Some(f) => Ok((id, MoveView { prev_m: prev, data: MoveDataView::FenV(f) })),
                None => match get_str_spec(fields, "m"@) {
                    Some(m) => match can_parse_spec(m) {
                        Some(pair) => Ok(
                            (id, MoveView { prev_m: prev, data: MoveDataView::CoordV(pair.0, pair.1) }),
                        ),
                        None => Err(ParseError::BadCoordinate),
                    },
                    None => Err(ParseError::MissingField),
                },
            }
        },
        _ => Err(ParseError::MissingField),
    }
}

/// One game: its initial position and its move graph.
#[derive(Debug)]
pub struct Game {
    pub init: Fen,
    pub moves: HashMap<usize, Move>,
}


/// The ghost shape of a game.
pub ghost struct GameView {
    pub init: Seq<char>,
    pub moves: Map<usize, MoveView>,
}

impl View for Game {
    type V = GameView;

    open spec fn view(&self) -> GameView {
        GameView { init: self.init.0@, moves: self.moves@.map_values(|m: Move| m@) }
    }
}

/// What parsing a list of move records yields: the move graph, where a
/// repeated id keeps the later record, or the first failure.
pub open spec fn parse_moves_spec(raws: Seq<RawObj>) -> Result<Map<usize, MoveView>, ParseError>
    decreases raws.len(),
{
    if raws.len() == 0 {
        Ok(Map::empty())
    } else {
        match parse_moves_spec(raws.drop_last()) {
            Err(e) => Err(e),
            Ok(m) => match move_spec(raws.last().fields@) {
                Err(e) => Err(e),
                Ok(p) => Ok(m.insert(p.0, p.1)),
            },
        }
    }
}

/// Once one move record fails, the whole list fails the same way.
proof fn lemma_parse_moves_err(raws: Seq<RawObj>, i: int, e: ParseError)
    requires
        0 <= i < raws.len(),
        parse_moves_spec(raws.subrange(0, i)) is Ok,
        move_spec(raws[i].fields@) == Err::<(usize, MoveView), ParseError>(e),
    ensures
        parse_moves_spec(raws) == Err::<Map<usize, MoveView>, ParseError>(e),
    decreases raws.len(),
{
    if raws.len() == i + 1 {
        assert(raws.drop_last() =~= raws.subrange(0, i));
        assert(raws.last() == raws[i]);
    } else {
        assert(raws.drop_last()[i] == raws[i]);
        assert(raws.drop_last().subrange(0, i) =~= raws.subrange(0, i));
        lemma_parse_moves_err(raws.drop_last(), i, e);
    }
}

/// What parsing one game record yields: its initial position string and
/// its move graph, or the failure.
pub open spec fn game_spec(g: &RawGame) -> Result<GameView, ParseError> {
    match g.video_start_fen {
        None => Err(ParseError::MissingField),
        Some(s) => match g.moves {
            None => Err(ParseError::MissingField),
            Some(ms) => match parse_moves_spec(ms@) {
                Err(e) => Err(e),
                Ok(m) => Ok(GameView { init: s@, moves: m }),
            },
        },
    }
}

impl Game {
    /// Parse one game record.
    pub fn parse(g: &RawGame) -> (r: Result<Game, ParseError>)
        ensures
            match r {
                Ok(game) => game_spec(g) == Ok::<GameView, ParseError>(game@),
                Err(e) => game_spec(g) == Err::<GameView, ParseError>(e),
            },
    {
        let init: Fen = match &g.video_start_fen {
            None => {
                return Err(ParseError::MissingField);
            },
            Some(s) => Fen::new(s.clone()),
        };
        let raws: &Vec<RawObj> = match &g.moves {
            None => {
                return Err(ParseError::MissingField);
            },
            Some(ms) => ms,
        };
        proof {
            assert(g.moves == Some(*raws));
            assert(g.video_start_fen matches Some(s) && s@ == init.0@);
        }
        let mut moves: HashMap<usize, Move> = HashMap::new();
        proof {
            assert(raws@.subrange(0, 0) =~= Seq::<RawObj>::empty());
            assert(moves@.map_values(|m: Move| m@) =~= Map::<usize, MoveView>::empty());
        }
        let mut i: usize = 0;
        let n = raws.len();
        while i < n
            invariant
                n == raws@.len(),
                i <= n,
                g.moves == Some(*raws),
                g.video_start_fen matches Some(s) && s@ == init.0@,
                vstd::std_specs::hash::obeys_key_model::<usize>(),
                parse_moves_spec(raws@.subrange(0, i as int)) == Ok::<
                    Map<usize, MoveView>,
                    ParseError,
                >(moves@.map_values(|m: Move| m@)),
            decreases n - i,
        {
            let ghost prefix = raws@.subrange(0, i as int);
            match Self::parse_move(&raws[i]) {
                Err(e) => {
                    proof {
                        lemma_parse_moves_err(raws@, i as int, e);
                    }
                    return Err(e);
                },
                Ok((id, mv)) => {
                    let ghost mview = mv@;
                    moves.insert(id, mv);
                    proof {
                        assert(raws@.subrange(0, i as int + 1).drop_last() =~= prefix);
                        assert(raws@.subrange(0, i as int + 1).last() == raws@[i as int]);
                        assert(moves@.map_values(|m: Move| m@) =~= parse_moves_spec(
                            prefix,
                        ).unwrap().insert(id, mview));
                    }
                },
            }
            i = i + 1;
        }
        proof {
            assert(raws@.subrange(0, n as int) =~= raws@);
        }
        Ok(Game { init, moves })
    }

    /// Parse one move record: its id, its predecessor id and its effect.
    fn parse_move(x: &RawObj) -> (r: Result<(usize, Move), ParseError>)
        ensures
            match r {
                Ok(p) => move_spec(x.fields@) == Ok::<(usize, MoveView), ParseError>((p.0, p.1@)),
                Err(e) => move_spec(x.fields@) == Err::<(usize, MoveView), ParseError>(e),
            },
    {
        let id = match Instruction::get_id(x, "id") {
            Some(v) => v,
            None => {
                return Err(ParseError::MissingField);
            },
        };
        let pm = match x.get_i64("pm") {
            Some(v) => v,
            None => {
                return Err(ParseError::MissingField);
            },
        };
        #[verifier::truncate]
        let prev: usize = pm as usize;
        match x.get_str("fen") {
            Some(f) => Ok((id, Move { prev_m: prev, data: MoveData::Fen(Fen::new(f)) })),
            None => match x.get_str("m") {
                Some(m) => match try_line_as_can2coord(m.as_str()) {
                    Some(pair) => Ok(
                        (id, Move { prev_m: prev, data: MoveData::Coord(pair.0, pair.1) }),
                    ),
                    None => Err(ParseError::BadCoordinate),
                },
                None => Err(ParseError::MissingField),
            },
        }
    }
}

/// What parsing the cuepoint list yields: the instructions in order, or
/// the first failure.
pub open spec fn parse_cues_spec(raws: Seq<RawCuepoint>) -> Result<Seq<(i64, InsnView)>, ParseError>
    decreases raws.len(),
{
    if raws.len() == 0 {
        Ok(Seq::empty())
    } else {
        match parse_cues_spec(raws.drop_last()) {
            Err(e) => Err(e),
            Ok(s) => match insn_spec(raws.last().name@, raws.last().time_us, raws.last().data.fields@) {
                Err(e) => Err(e),
                Ok(v) => Ok(s.push(v)),
            },
        }
    }
}

proof fn lemma_parse_cues_err(raws: Seq<RawCuepoint>, i: int, e: ParseError)
    requires
        0 <= i < raws.len(),
        parse_cues_spec(raws.subrange(0, i)) is Ok,
        insn_spec(raws[i].name@, raws[i].time_us, raws[i].data.fields@) == Err::<
            (i64, InsnView),
            ParseError,
        >(e),
    ensures
        parse_cues_spec(raws) == Err::<Seq<(i64, InsnView)>, ParseError>(e),
    decreases raws.len(),
{
    if raws.len() == i + 1 {
        assert(raws.drop_last() =~= raws.subrange(0, i));
        assert(raws.last() == raws[i]);
    } else {
        assert(raws.drop_last()[i] == raws[i]);
        assert(raws.drop_last().subrange(0, i) =~= raws.subrange(0, i));
        lemma_parse_cues_err(raws.drop_last(), i, e);
    }
}

/// What parsing the game list yields: the games in order, or the first
/// failure.
pub open spec fn parse_games_spec(raws: Seq<RawGame>) -> Result<Seq<GameView>, ParseError>
    decreases raws.len(),
{
    if raws.len() == 0 {
        Ok(Seq::empty())
    } else {
        match parse_games_spec(raws.drop_last()) {
            Err(e) => Err(e),
            Ok(s) => match game_spec(&raws.last()) {
                Err(e) => Err(e),
                Ok(v) => Ok(s.push(v)),
            },
        }
    }
}

proof fn lemma_parse_games_err(raws: Seq<RawGame>, i: int, e: ParseError)
    requires
        0 <= i < raws.len(),
        parse_games_spec(raws.subrange(0, i)) is Ok,
        game_spec(&raws[i]) == Err::<GameView, ParseError>(e),
    ensures
        parse_games_spec(raws) == Err::<Seq<GameView>, ParseError>(e),
    decreases raws.len(),
{
    if raws.len() == i + 1 {
        assert(raws.drop_last() =~= raws.subrange(0, i));
        assert(raws.last() == raws[i]);
    } else {
        assert(raws.drop_last()[i] == raws[i]);
        assert(raws.drop_last().subrange(0, i) =~= raws.subrange(0, i));
        lemma_parse_games_err(raws.drop_last(), i, e);
    }
}

/// The typed lesson: the time-ordered instructions and the games.
#[derive(Debug)]
pub struct DataFile {
    pub cuepoints: Vec<Instruction>,
    pub games: Vec<Game>,
}

/// The ghost shape of a parsed lesson.
pub ghost struct DataFileView {
    pub cuepoints: Seq<(i64, InsnView)>,
    pub games: Seq<GameView>,
}

impl View for DataFile {
    type V = DataFileView;

    open spec fn view(&self) -> DataFileView {
        DataFileView {
            cuepoints: self.cuepoints@.map_values(|c: Instruction| (c.0.0, c.0.1@)),
            games: self.games@.map_values(|g: Game| g@),
        }
    }
}

/// What parsing a whole lesson file yields: every cuepoint and every game
/// parsed, in order, or the first failure (cuepoints first).
pub open spec fn datafile_spec(raw: &RawDataFile) -> Result<DataFileView, ParseError> {
    match parse_cues_spec(raw.cuepoints@) {
        Err(e) => Err(e),
        Ok(cues) => match parse_games_spec(raw.games@) {
            Err(e) => Err(e),
            Ok(games) => Ok(DataFileView { cuepoints: cues, games }),
        },
    }
}

impl DataFile {
    /// Parse a whole pre-decoded lesson file.
    pub fn parse(raw: &RawDataFile) -> (r: Result<DataFile, ParseError>)
        ensures
            match r {
                Ok(df) => datafile_spec(raw) == Ok::<DataFileView, ParseError>(df@),
                Err(e) => datafile_spec(raw) == Err::<DataFileView, ParseError>(e),
            },
    {
        let mut cuepoints: Vec<Instruction> = Vec::new();
        proof {
            assert(raw.cuepoints@.subrange(0, 0) =~= Seq::<RawCuepoint>::empty());
            assert(cuepoints@.map_values(|c: Instruction| (c.0.0, c.0.1@)) =~= Seq::<
                (i64, InsnView),
            >::empty());
        }
        let mut i: usize = 0;
        let n = raw.cuepoints.len();
        while i < n
            invariant
                n == raw.cuepoints@.len(),
                i <= n,
                parse_cues_spec(raw.cuepoints@.subrange(0, i as int)) == Ok::<
                    Seq<(i64, InsnView)>,
                    ParseError,
                >(cuepoints@.map_values(|c: Instruction| (c.0.0, c.0.1@))),
            decreases n - i,
        {
            let ghost prefix = raw.cuepoints@.subrange(0, i as int);
            match Instruction::parse(&raw.cuepoints[i]) {
                Err(e) => {
                    proof {
                        lemma_parse_cues_err(raw.cuepoints@, i as int, e);
                    }
                    return Err(e);
                },
                Ok(insn) => {
                    let ghost iview = (insn.0.0, insn.0.1@);
                    cuepoints.push(insn);
                    proof {
                        assert(raw.cuepoints@.subrange(0, i as int + 1).drop_last() =~= prefix);
                        assert(raw.cuepoints@.subrange(0, i as int + 1).last() == raw.cuepoints@[i as int]);
                        assert(cuepoints@.map_values(|c: Instruction| (c.0.0, c.0.1@))
                            =~= parse_cues_spec(prefix).unwrap().push(iview));
                    }
                },
            }
            i = i + 1;
        }
        proof {
            assert(raw.cuepoints@.subrange(0, n as int) =~= raw.cuepoints@);
        }
        let mut games: Vec<Game> = Vec::new();
        proof {
            assert(raw.games@.subrange(0, 0) =~= Seq::<RawGame>::empty());
            assert(games@.map_values(|g: Game| g@) =~= Seq::<GameView>::empty());
        }
        let mut j: usize = 0;
        let m = raw.games.len();
        while j < m
            invariant
                m == raw.games@.len(),
                j <= m,
                parse_cues_spec(raw.cuepoints@) == Ok::<Seq<(i64, InsnView)>, ParseError>(
                    cuepoints@.map_values(|c: Instruction| (c.0.0, c.0.1@)),
                ),
                parse_games_spec(raw.games@.subrange(0, j as int)) == Ok::<
                    Seq<GameView>,
                    ParseError,
                >(games@.map_values(|g: Game| g@)),
            decreases m - j,
        {
            let ghost prefix = raw.games@.subrange(0, j as int);
            match Game::parse(&raw.games[j]) {
                Err(e) => {
                    proof {
                        lemma_parse_games_err(raw.games@, j as int, e);
                    }
                    return Err(e);
                },
                Ok(game) => {
                    let ghost gview = game@;
                    games.push(game);
                    proof {
                        assert(raw.games@.subrange(0, j as int + 1).drop_last() =~= prefix);
                        assert(raw.games@.subrange(0, j as int + 1).last() == raw.games@[j as int]);
                        assert(games@.map_values(|g: Game| g@) =~= parse_games_spec(
                            prefix,
                        ).unwrap().push(gview));
                    }
                },
            }
            j = j + 1;
        }
        proof {
            assert(raw.games@.subrange(0, m as int) =~= raw.games@);
        }
        Ok(DataFile { cuepoints, games })
    }
}

} // verus!
