//! Chess pieces and the sprite catalog.
//!
//! A piece is a plain (colour, kind) value; two pieces are the same piece
//! exactly when colour and kind agree. The catalog holds one sprite image
//! per (colour, kind) pair, loaded once before rendering and read-only
//! thereafter; the board grid stores piece values and never sprite data.

use vstd::prelude::*;

use crate::pixel::Pixel;

verus! {

/// Side length in pixels of one board square and of one piece sprite.
pub const SPRITE_SIDE: u32 = 67;

/// Number of pixels in one sprite: `SPRITE_SIDE * SPRITE_SIDE`.
pub const SPRITE_PIXELS: usize = 4489;

#[derive(Clone, Copy, PartialEq, Eq, Structural, Debug)]
pub enum PieceColor {
    White,
    Black,
}

#[derive(Clone, Copy, PartialEq, Eq, Structural, Debug)]
pub enum PieceKind {
    Pawn,
    Knight,
    Bishop,
    Rook,
    Queen,
    King,
}

/// One piece value. Compared by (kind, colour) equality.
#[derive(Clone, Copy, PartialEq, Eq, Structural, Debug)]
pub struct Piece {
    pub color: PieceColor,
    pub kind: PieceKind,
}

pub open spec fn kind_index_spec(k: PieceKind) -> int {
    match k {
        PieceKind::Pawn => 0,
        PieceKind::Knight => 1,
        PieceKind::Bishop => 2,
        PieceKind::Rook => 3,
        PieceKind::Queen => 4,
        PieceKind::King => 5,
    }
}

pub open spec fn kind_of_index_spec(n: int) -> PieceKind {
    if n == 0 {
        PieceKind::Pawn
    } else if n == 1 {
        PieceKind::Knight
    } else if n == 2 {
        PieceKind::Bishop
    } else if n == 3 {
        PieceKind::Rook
    } else if n == 4 {
        PieceKind::Queen
    } else {
        PieceKind::King
    }
}

pub open spec fn color_index_spec(c: PieceColor) -> int {
    match c {
        PieceColor::White => 0,
        PieceColor::Black => 1,
    }
}

/// The kind index a placement letter stands for, case-insensitively:
/// P/N/B/R/Q/K name Pawn/Knight/Bishop/Rook/Queen/King.
pub open spec fn uncolored_spec(c: char) -> Option<usize> {
    if c == 'P' || c == 'p' {
        Some(0usize)
    } else if c == 'N' || c == 'n' {
        Some(1usize)
    } else if c == 'B' || c == 'b' {
        Some(2usize)
    } else if c == 'R' || c == 'r' {
        Some(3usize)
    } else if c == 'Q' || c == 'q' {
        Some(4usize)
    } else if c == 'K' || c == 'k' {
        Some(5usize)
    } else {
        None
    }
}

/// The piece a placement letter stands for: uppercase is White, lowercase
/// Black, letter selects the kind.
pub open spec fn piece_of_char_spec(c: char) -> Option<Piece> {
    match uncolored_spec(c) {
        None => None,
        Some(n) => Some(
            Piece {
                color: if 'a' <= c <= 'z' {
                    PieceColor::Black
                } else {
                    PieceColor::White
                },
                kind: kind_of_index_spec(n as int),
            },
        ),
    }
}

impl Piece {
    /// The kind index of a placement letter, ignoring its case, or `None`
    /// for a character that names no piece.
    pub fn uncolored(c: char) -> (r: Option<usize>)
        ensures
            r == uncolored_spec(c),
    {
        match c {
            'P' | 'p' => Some(0),
            'N' | 'n' => Some(1),
            'B' | 'b' => Some(2),
            'R' | 'r' => Some(3),
            'Q' | 'q' => Some(4),
            'K' | 'k' => Some(5),
            _ => None,
        }
    }

    /// The piece a placement letter stands for, or `None` for any other
    /// character.
    pub fn from_char(c: char) -> (r: Option<Piece>)
        ensures
            r == piece_of_char_spec(c),
    {
        match c {
            'P' => Some(Piece { color: PieceColor::White, kind: PieceKind::Pawn }),
            'N' => Some(Piece { color: PieceColor::White, kind: PieceKind::Knight }),
            'B' => Some(Piece { color: PieceColor::White, kind: PieceKind::Bishop }),
            'R' => Some(Piece { color: PieceColor::White, kind: PieceKind::Rook }),
            'Q' => Some(Piece { color: PieceColor::White, kind: PieceKind::Queen }),
            'K' => Some(Piece { color: PieceColor::White, kind: PieceKind::King }),
            'p' => Some(Piece { color: PieceColor::Black, kind: PieceKind::Pawn }),
            'n' => Some(Piece { color: PieceColor::Black, kind: PieceKind::Knight }),
            'b' => Some(Piece { color: PieceColor::Black, kind: PieceKind::Bishop }),
            'r' => Some(Piece { color: PieceColor::Black, kind: PieceKind::Rook }),
            'q' => Some(Piece { color: PieceColor::Black, kind: PieceKind::Queen }),
            'k' => Some(Piece { color: PieceColor::Black, kind: PieceKind::King }),
            _ => None,
        }
    }

    /// Recolour: keep the colour of `original` but give it kind index `n`.
    /// Used when a move's promotion payload supplies only a kind. `None`
    /// when there is no original piece.
    pub fn from_uncolored(original: Option<Piece>, n: usize) -> (r: Option<Piece>)
        requires
            n < 6,
        ensures
            r == match original {
                None => None::<Piece>,
                Some(p) => Some(Piece { color: p.color, kind: kind_of_index_spec(n as int) }),
            },
    {
        match original {
            None => None,
            Some(p) => Some(
                Piece {
                    color: p.color,
                    kind: match n {
                        0 => PieceKind::Pawn,
                        1 => PieceKind::Knight,
                        2 => PieceKind::Bishop,
                        3 => PieceKind::Rook,
                        4 => PieceKind::Queen,
                        _ => PieceKind::King,
                    },
                },
            ),
        }
    }
}

/// One piece sprite: a square image of `SPRITE_SIDE` by `SPRITE_SIDE`
/// pixels in row-major order.
pub struct Sprite {
    pub pixels: Vec<Pixel>,
}

impl Sprite {
    pub open spec fn wf(self) -> bool {
        self.pixels@.len() == SPRITE_PIXELS
    }

    pub open spec fn view_pixels(self) -> Seq<Pixel> {
        self.pixels@
    }

    /// Build a sprite from row-major pixel data; `None` unless the data has
    /// exactly `SPRITE_PIXELS` entries.
    pub fn new(pixels: Vec<Pixel>) -> (r: Option<Sprite>)
        ensures
            r is Some <==> pixels@.len() == SPRITE_PIXELS,
            r matches Some(s) ==> s.wf() && s.view_pixels() == pixels@,
    {
        if pixels.len() == SPRITE_PIXELS {
            Some(Sprite { pixels })
        } else {
            None
        }
    }

    /// The sprite pixel at column `x`, row `y`.
    pub fn pixel_at(&self, x: u32, y: u32) -> (p: Pixel)
        requires
            self.wf(),
            x < SPRITE_SIDE,
            y < SPRITE_SIDE,
        ensures
            p == self.view_pixels()[y as int * SPRITE_SIDE as int + x as int],
    {
        proof {
            assert(y * 67 + x < 4489) by (nonlinear_arith)
                requires
                    y < 67,
                    x < 67,
            ;
        }
        let idx: usize = (y as usize) * 67 + (x as usize);
        self.pixels[idx]
    }
}

/// The sprite index of a piece: colour row times six plus kind column.
pub open spec fn sprite_index_spec(p: Piece) -> int {
    color_index_spec(p.color) * 6 + kind_index_spec(p.kind)
}

/// The immutable sprite catalog: one sprite per (colour, kind) pair,
/// White Pawn..King first, then Black Pawn..King.
pub struct Catalog {
    pub sprites: Vec<Sprite>,
}

impl Catalog {
    pub open spec fn wf(self) -> bool {
        &&& self.sprites@.len() == 12
    &&& forall|i: int| 0 <= i < 12 ==> (#[trigger] self.sprites@[i]).wf()
    }

    pub open spec fn view_sprites(self) -> Seq<Sprite> {
        self.sprites@
    }

    /// The sprite image of piece `p`, as a pixel sequence.
    pub open spec fn sprite_spec(self, p: Piece) -> Seq<Pixel> {
        self.sprites@[sprite_index_spec(p)].view_pixels()
    }

    /// Build the catalog from twelve sprites in index order; `None` unless
    /// exactly twelve are given.
    pub fn new(sprites: Vec<Sprite>) -> (r: Option<Catalog>)
        requires
            forall|i: int| 0 <= i < sprites@.len() ==> (#[trigger] sprites@[i]).wf(),
        ensures
            r is Some <==> sprites@.len() == 12,
            r matches Some(c) ==> c.wf() && c.view_sprites() == sprites@,
    {
        if sprites.len() == 12 {
            Some(Catalog { sprites })
        } else {
            None
        }
    }

    /// The sprite of piece `p`.
    pub fn sprite(&self, p: Piece) -> (s: &Sprite)
        requires
            self.wf(),
        ensures
            s.wf(),
            s.view_pixels() == self.sprite_spec(p),
    {
        let color_row: usize = match p.color {
            PieceColor::White => 0,
            PieceColor::Black => 1,
        };
        let kind_col: usize = match p.kind {
            PieceKind::Pawn => 0,
            PieceKind::Knight => 1,
            PieceKind::Bishop => 2,
            PieceKind::Rook => 3,
            PieceKind::Queen => 4,
            PieceKind::King => 5,
        };
        &self.sprites[color_row * 6 + kind_col]
    }
}

} // verus!
