//! The raster chessboard: three pixel layers over an 8 by 8 piece grid.
//!
//! The canvas is a fixed square of `BO_SIZE` pixels divided into an 8 by 8
//! grid of squares of `SQ_SIZE` pixels. The background layer is painted
//! once, at construction, with a two-tone checker pattern; the highlight
//! layer holds per-square solid fills; the arrow layer is re-rasterized
//! lazily from the arrow set when it has changed. Squares are addressed as
//! `[file, rank]`, both 1 to 8; rank 8 is at the top of the canvas.

use vstd::prelude::*;

use crate::piece::{Catalog, Piece, PieceColor, PieceKind};
use crate::pixel::Pixel;

verus! {

/// Side length of the canvas in pixels.
pub const BO_SIZE: u32 = 536;

/// Side length of one board square in pixels.
pub const SQ_SIZE: u32 = 67;

/// Number of squares along one edge.
pub const SQ_N_E: u32 = 8;

/// Number of pixels in one layer: `BO_SIZE * BO_SIZE`.
pub const LEN: usize = 287296;

/// Layer index of the arrow overlay.
pub const ARROWS_LAYER: usize = 1;

/// Layer index of the highlight overlay.
pub const HIGHLT_LAYER: usize = 2;

/// One active arrow: an ordered pair of squares and its colour. Inserting
/// an arrow whose square pair is already present replaces the colour.
#[derive(Clone, Copy, PartialEq, Eq, Structural, Debug)]
pub struct Arrow {
    pub from_file: u32,
    pub from_rank: u32,
    pub to_file: u32,
    pub to_rank: u32,
    pub color: Pixel,
}

impl Arrow {
    /// Whether this arrow connects the given ordered square pair.
    pub open spec fn keyed(self, coord: [[u32; 2]; 2]) -> bool {
        self.from_file == coord[0][0] && self.from_rank == coord[0][1] && self.to_file
            == coord[1][0] && self.to_rank == coord[1][1]
    }
}

/// The index of the arrow with the given square pair, or -1 if none has it.
pub open spec fn arrow_find(s: Seq<Arrow>, coord: [[u32; 2]; 2]) -> int
    decreases s.len(),
{
    if s.len() == 0 {
        -1
    } else if s[0].keyed(coord) {
        0
    } else {
        let sub = arrow_find(s.subrange(1, s.len() as int), coord);
        if sub == -1 {
            -1
        } else {
            1 + sub
        }
    }
}

pub proof fn lemma_arrow_find(s: Seq<Arrow>, coord: [[u32; 2]; 2])
    ensures
        arrow_find(s, coord) == -1 ==> forall|i: int| 0 <= i < s.len() ==> !(#[trigger] s[i]).keyed(coord),
        arrow_find(s, coord) != -1 ==> {
            let r = arrow_find(s, coord);
            &&& 0 <= r < s.len()
            &&& s[r].keyed(coord)
            &&& forall|i: int| 0 <= i < r ==> !(#[trigger] s[i]).keyed(coord)
        },
    decreases s.len(),
{
    if s.len() != 0 && !s[0].keyed(coord) {
        lemma_arrow_find(s.subrange(1, s.len() as int), coord);
        assert forall|i: int| 1 <= i < s.len() implies s.subrange(1, s.len() as int)[i - 1] == s[i] by {}
    }
}

/// No two arrows share a square pair.
pub open spec fn arrows_unique(s: Seq<Arrow>) -> bool {
    forall|i: int, j: int|
        #![trigger s[i], s[j]]
        0 <= i < j < s.len() ==> !(s[j].keyed(
            [[s[i].from_file, s[i].from_rank], [s[i].to_file, s[i].to_rank]],
        ))
}

/// What the arrow set becomes when an arrow is inserted: the colour is
/// replaced in place if the square pair is present, else the arrow is
/// appended.
pub open spec fn arrow_insert_spec(s: Seq<Arrow>, coord: [[u32; 2]; 2], color: Pixel) -> Seq<Arrow> {
    let a = Arrow {
        from_file: coord[0][0],
        from_rank: coord[0][1],
        to_file: coord[1][0],
        to_rank: coord[1][1],
        color,
    };
    let at = arrow_find(s, coord);
    if at == -1 {
        s.push(a)
    } else {
        s.update(at, a)
    }
}

/// What the arrow set becomes when a square pair is removed: unchanged if
/// the pair is absent.
pub open spec fn arrow_remove_spec(s: Seq<Arrow>, coord: [[u32; 2]; 2]) -> Seq<Arrow> {
    let at = arrow_find(s, coord);
    if at == -1 {
        s
    } else {
        s.subrange(0, at) + s.subrange(at + 1, s.len() as int)
    }
}

/// The ghost state of a board: the three pixel layers, the piece grid in
/// file-major order (`sq_spec`), the arrow set and the dirty flag.
#[verifier::ext_equal]
pub ghost struct BoardView {
    pub background: Seq<Pixel>,
    pub arrows_layer: Seq<Pixel>,
    pub highlight: Seq<Pixel>,
    pub state: Seq<Option<Piece>>,
    pub arrows: Seq<Arrow>,
    pub redraw_arrows: bool,
}

/// The grid index of square `[file, rank]`.
pub open spec fn sq_spec(file: int, rank: int) -> int {
    (file - 1) + 8 * (rank - 1)
}

/// Whether `[file, rank]` is a board square.
pub open spec fn on_board(file: int, rank: int) -> bool {
    1 <= file <= 8 && 1 <= rank <= 8
}

/// A freshly constructed board: checkered background, clear overlays, an
/// empty grid and no arrows, the arrow layer due for its first drawing.
pub open spec fn fresh_board_spec() -> BoardView {
    BoardView {
        background: Seq::new(LEN as nat, |i: int| checker_pixel(i)),
        arrows_layer: Seq::new(LEN as nat, |i: int| Pixel::transparent_spec()),
        highlight: Seq::new(LEN as nat, |i: int| Pixel::transparent_spec()),
        state: Seq::new(64, |i: int| None::<Piece>),
        arrows: Seq::<Arrow>::empty(),
        redraw_arrows: true,
    }
}

/// The checker colour of canvas pixel `i`: the two tones alternate between
/// neighbouring squares in both directions.
pub open spec fn checker_pixel(i: int) -> Pixel {
    let row_sq = (i / 536) / 67;
    let col_sq = (i % 536) / 67;
    if row_sq % 2 != col_sq % 2 {
        Pixel { r: 0x7D, g: 0x3E, b: 0x2F, a: 0xFF }
    } else {
        Pixel { r: 0xA6, g: 0x80, b: 0x67, a: 0xFF }
    }
}

/// The piece grid after relocating the piece on `from` to `to`, with the
/// two special cases read off the board's geometry first: castling (a King
/// moving two files from file 5 on rank 1 or 8 drags the rook from its
/// corner to the square beside the King) and en-passant capture (a pawn
/// stepping diagonally onto an empty square removes the opposing pawn
/// directly behind the destination). The generic relocation always runs:
/// the source square is vacated and its piece put on the destination,
/// discarding whatever stood there.
pub open spec fn move_piece_spec(state: Seq<Option<Piece>>, from: [u32; 2], to: [u32; 2]) -> Seq<
    Option<Piece>,
> {
    let f = from[0] as int;
    let r = from[1] as int;
    let f2 = to[0] as int;
    let r2 = to[1] as int;
    let src = state[sq_spec(f, r)];
    let s1 = if castles_spec(state, from, to) {
        if f2 == 7 {
            state.update(sq_spec(6, r), state[sq_spec(8, r)]).update(sq_spec(8, r), None)
        } else {
            state.update(sq_spec(4, r), state[sq_spec(1, r)]).update(sq_spec(1, r), None)
        }
    } else if en_passant_spec(state, from, to) {
        state.update(sq_spec(f2, r), None)
    } else {
        state
    };
    s1.update(sq_spec(f, r), None).update(sq_spec(f2, r2), src)
}

/// The move is a castling: the source is file 5 on rank 1 or 8 and holds a
/// King, and the destination is the same rank two files off.
pub open spec fn castles_spec(state: Seq<Option<Piece>>, from: [u32; 2], to: [u32; 2]) -> bool {
    let f = from[0] as int;
    let r = from[1] as int;
    let f2 = to[0] as int;
    let r2 = to[1] as int;
    &&& f == 5
    &&& (r == 1 || r == 8)
    &&& r2 == r
    &&& (f2 == 7 || f2 == 3)
    &&& state[sq_spec(f, r)] matches Some(p) && p.kind == PieceKind::King
}

/// The move is an en-passant capture: a pawn steps one file and one rank
/// onto an empty square while an opposing pawn stands directly behind the
/// destination (the destination's file on the source's rank).
pub open spec fn en_passant_spec(state: Seq<Option<Piece>>, from: [u32; 2], to: [u32; 2]) -> bool {
    let f = from[0] as int;
    let r = from[1] as int;
    let f2 = to[0] as int;
    let r2 = to[1] as int;
    &&& state[sq_spec(f2, r2)] is None
    &&& (f2 == f + 1 || f2 == f - 1)
    &&& (r2 == r + 1 || r2 == r - 1)
    &&& state[sq_spec(f, r)] matches Some(p) && p.kind == PieceKind::Pawn && (
    state[sq_spec(f2, r)] matches Some(q) && q.kind == PieceKind::Pawn && q.color != p.color)
}

/// The raster board.
pub struct Chessboard {
    pub background: Vec<Pixel>,
    pub arrows_layer: Vec<Pixel>,
    pub highlight: Vec<Pixel>,
    pub state: Vec<Option<Piece>>,
    pub arrows: Vec<Arrow>,
    pub redraw_arrows: bool,
}

impl View for Chessboard {
    type V = BoardView;

    open spec fn view(&self) -> BoardView {
        BoardView {
            background: self.background@,
            arrows_layer: self.arrows_layer@,
            highlight: self.highlight@,
            state: self.state@,
            arrows: self.arrows@,
            redraw_arrows: self.redraw_arrows,
        }
    }
}

/// A board whose layers have the right sizes, whose arrow set has no
/// repeated square pair and whose arrows all lie on the board.
pub open spec fn board_wf(v: BoardView) -> bool {
    &&& v.background.len() == LEN
    &&& v.arrows_layer.len() == LEN
    &&& v.highlight.len() == LEN
    &&& v.state.len() == 64
    &&& arrows_unique(v.arrows)
    &&& forall|i: int|
        0 <= i < v.arrows.len() ==> on_board((#[trigger] v.arrows[i]).from_file as int, v.arrows[i].from_rank as int)
            && on_board(v.arrows[i].to_file as int, v.arrows[i].to_rank as int)
}

fn filled_layer(px: Pixel) -> (r: Vec<Pixel>)
    ensures
        r@.len() == LEN,
        forall|i: int| 0 <= i < LEN ==> r@[i] == px,
{
    let mut v: Vec<Pixel> = Vec::new();
    let mut n: usize = 0;
    while n < LEN
        invariant
            n <= LEN,
            v@.len() == n,
            forall|i: int| 0 <= i < n ==> v@[i] == px,
        decreases LEN - n,
    {
        v.push(px);
        n = n + 1;
    }
    v
}

impl Chessboard {
    /// A fresh board: checkered background, empty overlays, empty grid,
    /// no arrows.
    pub fn new() -> (r: Chessboard)
        ensures
            board_wf(r@),
            r@ == fresh_board_spec(),
            forall|i: int| 0 <= i < LEN ==> r@.background[i] == checker_pixel(i),
            forall|i: int| 0 <= i < LEN ==> r@.arrows_layer[i] == Pixel::transparent_spec(),
            forall|i: int| 0 <= i < LEN ==> r@.highlight[i] == Pixel::transparent_spec(),
            forall|i: int| 0 <= i < 64 ==> r@.state[i] is None,
            r@.arrows.len() == 0,
            r@.redraw_arrows == true,
    {
        let mut background: Vec<Pixel> = Vec::new();
        let mut n: usize = 0;
        while n < LEN
            invariant
                n <= LEN,
                background@.len() == n,
                forall|i: int| 0 <= i < n ==> background@[i] == checker_pixel(i),
            decreases LEN - n,
        {
            let row_sq = ((n as u32) / BO_SIZE) / SQ_SIZE;
            let col_sq = ((n as u32) % BO_SIZE) / SQ_SIZE;
            let px = if row_sq % 2 != col_sq % 2 {
                Pixel { r: 0x7D, g: 0x3E, b: 0x2F, a: 0xFF }
            } else {
                Pixel { r: 0xA6, g: 0x80, b: 0x67, a: 0xFF }
            };
            background.push(px);
            n = n + 1;
        }
        let mut state: Vec<Option<Piece>> = Vec::new();
        let mut k: usize = 0;
        while k < 64
            invariant
                k <= 64,
                state@.len() == k,
                forall|i: int| 0 <= i < k ==> state@[i] is None,
            decreases 64 - k,
        {
            state.push(None);
            k = k + 1;
        }
        let r = Chessboard {
            background,
            arrows_layer: filled_layer(Pixel::transparent()),
            highlight: filled_layer(Pixel::transparent()),
            state,
            arrows: Vec::new(),
            redraw_arrows: true,
        };
        proof {
            assert(r@ =~= fresh_board_spec());
        }
        r
    }

    /// Read access to layer `n`: 0 background, 1 arrows, 2 highlight.
    pub fn img(&self, n: usize) -> (r: &Vec<Pixel>)
        requires
            n < 3,
        ensures
            r@ == layer_spec(self@, n as int),
    {
        if n == 0 {
            &self.background
        } else if n == 1 {
            &self.arrows_layer
        } else {
            &self.highlight
        }
    }

    /// Write access to layer `n`: 0 background, 1 arrows, 2 highlight.
    pub fn img_mut(&mut self, n: usize) -> (r: &mut Vec<Pixel>)
        requires
            n < 3,
        ensures
            r@ == layer_spec(old(self)@, n as int),
            final(self)@ == layer_replace(old(self)@, n as int, final(r)@),
    {
        if n == 0 {
            &mut self.background
        } else if n == 1 {
            &mut self.arrows_layer
        } else {
            &mut self.highlight
        }
    }

    /// Insert (or recolour) the arrow over the given ordered square pair
    /// and mark the arrow layer for redrawing.
    pub fn arrow(&mut self, coord: [[u32; 2]; 2], color: Pixel)
        requires
            board_wf(old(self)@),
            on_board(coord[0][0] as int, coord[0][1] as int),
            on_board(coord[1][0] as int, coord[1][1] as int),
        ensures
            board_wf(final(self)@),
            final(self)@ == (BoardView {
                arrows: arrow_insert_spec(old(self)@.arrows, coord, color),
                redraw_arrows: true,
                ..old(self)@
            }),
    {
        let a = Arrow {
            from_file: coord[0][0],
            from_rank: coord[0][1],
            to_file: coord[1][0],
            to_rank: coord[1][1],
            color,
        };
        proof {
            lemma_arrow_find(self.arrows@, coord);
        }
        let mut i: usize = 0;
        let n = self.arrows.len();
        while i < n
            invariant
                *self == *old(self),
                board_wf(self@),
                a == (Arrow {
                    from_file: coord[0][0],
                    from_rank: coord[0][1],
                    to_file: coord[1][0],
                    to_rank: coord[1][1],
                    color,
                }),
                n == self.arrows@.len(),
                i <= n,
                forall|j: int| 0 <= j < i ==> !(#[trigger] self.arrows@[j]).keyed(coord),
            decreases n - i,
        {
            let c = self.arrows[i];
            if c.from_file == coord[0][0] && c.from_rank == coord[0][1] && c.to_file == coord[1][0]
                && c.to_rank == coord[1][1] {
                self.arrows[i] = a;
                self.redraw_arrows = true;
                proof {
                    lemma_arrow_find(old(self).arrows@, coord);
                    assert(arrow_find(old(self).arrows@, coord) == i);
                    lemma_unique_update(old(self).arrows@, i as int, a);
                }
                return ;
            }
            i = i + 1;
        }
        self.arrows.push(a);
        self.redraw_arrows = true;
        proof {
            lemma_arrow_find(old(self).arrows@, coord);
            lemma_unique_push(old(self).arrows@, a);
        }
    }

    /// Remove the arrow over the given ordered square pair, if present, and
    /// mark the arrow layer for redrawing.
    pub fn unarrow(&mut self, coord: &[[u32; 2]; 2])
        requires
            board_wf(old(self)@),
        ensures
            board_wf(final(self)@),
            final(self)@ == (BoardView {
                arrows: arrow_remove_spec(old(self)@.arrows, *coord),
                redraw_arrows: true,
                ..old(self)@
            }),
    {
        proof {
            lemma_arrow_find(self.arrows@, *coord);
        }
        let mut i: usize = 0;
        let n = self.arrows.len();
        while i < n
            invariant
                *self == *old(self),
                board_wf(self@),
                n == self.arrows@.len(),
                i <= n,
                forall|j: int| 0 <= j < i ==> !(#[trigger] self.arrows@[j]).keyed(*coord),
            decreases n - i,
        {
            let c = self.arrows[i];
            if c.from_file == coord[0][0] && c.from_rank == coord[0][1] && c.to_file == coord[1][0]
                && c.to_rank == coord[1][1] {
                self.arrows.remove(i);
                self.redraw_arrows = true;
                proof {
                    lemma_arrow_find(old(self).arrows@, *coord);
                    assert(arrow_find(old(self).arrows@, *coord) == i);
                    lemma_unique_remove(old(self).arrows@, i as int);
                    assert(self.arrows@ =~= old(self).arrows@.subrange(0, i as int) + old(
                        self,
                    ).arrows@.subrange(i as int + 1, old(self).arrows@.len() as int));
                }
                return ;
            }
            i = i + 1;
        }
        self.redraw_arrows = true;
    }

    /// Drop every arrow and mark the arrow layer for redrawing.
    pub fn clear_arrows(&mut self)
        requires
            board_wf(old(self)@),
        ensures
            board_wf(final(self)@),
            final(self)@ == (BoardView {
                arrows: Seq::<Arrow>::empty(),
                redraw_arrows: true,
                ..old(self)@
            }),
    {
        self.arrows.clear();
        self.redraw_arrows = true;
        proof {
            assert(self.arrows@ =~= Seq::<Arrow>::empty());
        }
    }

    /// Overwrite the highlight pixels of the square's bounding box with a
    /// solid colour.
    pub fn highlt(&mut self, coord: [u32; 2], color: Pixel)
        requires
            board_wf(old(self)@),
            on_board(coord[0] as int, coord[1] as int),
        ensures
            board_wf(final(self)@),
            final(self)@ == (BoardView { highlight: final(self)@.highlight, ..old(self)@ }),
            final(self)@.highlight.len() == LEN,
            forall|i: int|
                0 <= i < LEN ==> final(self)@.highlight[i] == (if in_square_box(coord, i) {
                    color
                } else {
                    old(self)@.highlight[i]
                }),
    {
        let x0: usize = (coord[0] as usize - 1) * 67;
        let y0: usize = (8 - coord[1] as usize) * 67;
        let mut dy: usize = 0;
        while dy < 67
            invariant
                board_wf(old(self)@),
                on_board(coord[0] as int, coord[1] as int),
                x0 == (coord[0] - 1) * 67,
                y0 == (8 - coord[1]) * 67,
                dy <= 67,
                self@ == (BoardView { highlight: self@.highlight, ..old(self)@ }),
                self@.highlight.len() == LEN,
                forall|i: int|
                    #![trigger self@.highlight[i]]
                    0 <= i < LEN ==> self@.highlight[i] == (if x0 <= i % 536 < x0 + 67 && y0 <= i
                        / 536 < y0 + dy {
                        color
                    } else {
                        old(self)@.highlight[i]
                    }),
            decreases 67 - dy,
        {
            let mut dx: usize = 0;
            while dx < 67
                invariant
                    board_wf(old(self)@),
                    on_board(coord[0] as int, coord[1] as int),
                    x0 == (coord[0] - 1) * 67,
                    y0 == (8 - coord[1]) * 67,
                    dy < 67,
                    dx <= 67,
                    self@ == (BoardView { highlight: self@.highlight, ..old(self)@ }),
                    self@.highlight.len() == LEN,
                    forall|i: int|
                        #![trigger self@.highlight[i]]
                        0 <= i < LEN ==> self@.highlight[i] == (if x0 <= i % 536 < x0 + 67 && (y0
                            <= i / 536 < y0 + dy || (i / 536 == y0 + dy && x0 <= i % 536 < x0
                            + dx)) {
                            color
                        } else {
                            old(self)@.highlight[i]
                        }),
                decreases 67 - dx,
            {
                let idx: usize = (y0 + dy) * 536 + (x0 + dx);
                proof {
                    lemma_box_index(coord, x0 as int, y0 as int, dx as int, dy as int);
                    assert forall|i: int|
                        #![trigger i / 536, i % 536]
                        0 <= i < LEN && i / 536 == idx as int / 536 && i % 536 == idx as int % 536
                        implies i == idx as int by {
                        vstd::arithmetic::div_mod::lemma_fundamental_div_mod(i, 536);
                        vstd::arithmetic::div_mod::lemma_fundamental_div_mod(idx as int, 536);
                    }
                }
                self.highlight[idx] = color;
                dx = dx + 1;
            }
            dy = dy + 1;
        }
        proof {
            assert forall|i: int| 0 <= i < LEN implies (in_square_box(coord, i) <==> (x0 <= i % 536
                < x0 + 67 && y0 <= i / 536 < y0 + 67)) by {}
        }
    }

    /// Clear the highlight pixels of the square's bounding box.
    pub fn unhighlt(&mut self, coord: &[u32; 2])
        requires
            board_wf(old(self)@),
            on_board(coord[0] as int, coord[1] as int),
        ensures
            board_wf(final(self)@),
            final(self)@ == (BoardView { highlight: final(self)@.highlight, ..old(self)@ }),
            final(self)@.highlight.len() == LEN,
            forall|i: int|
                0 <= i < LEN ==> final(self)@.highlight[i] == (if in_square_box(*coord, i) {
                    Pixel::transparent_spec()
                } else {
                    old(self)@.highlight[i]
                }),
    {
        self.highlt(*coord, Pixel::transparent())
    }

    /// Clear the whole highlight layer.
    pub fn clear_highlt(&mut self)
        requires
            board_wf(old(self)@),
        ensures
            board_wf(final(self)@),
            final(self)@ == (BoardView { highlight: final(self)@.highlight, ..old(self)@ }),
            final(self)@.highlight.len() == LEN,
            forall|i: int|
                0 <= i < LEN ==> final(self)@.highlight[i] == Pixel::transparent_spec(),
    {
        self.highlight = filled_layer(Pixel::transparent());
    }

    /// Clear both kinds of marker: every arrow and every highlight.
    pub fn clear_markers(&mut self)
        requires
            board_wf(old(self)@),
        ensures
            board_wf(final(self)@),
            final(self)@ == (BoardView {
                highlight: final(self)@.highlight,
                arrows: Seq::<Arrow>::empty(),
                redraw_arrows: true,
                ..old(self)@
            }),
            final(self)@.highlight.len() == LEN,
            forall|i: int|
                0 <= i < LEN ==> final(self)@.highlight[i] == Pixel::transparent_spec(),
    {
        self.clear_arrows();
        self.clear_highlt();
    }

    /// Put `piece` (or nothing) on the square, with no side effects.
    pub fn draw_piece(&mut self, coord: [u32; 2], piece: Option<Piece>)
        requires
            board_wf(old(self)@),
            on_board(coord[0] as int, coord[1] as int),
        ensures
            board_wf(final(self)@),
            final(self)@ == (BoardView {
                state: old(self)@.state.update(sq_spec(coord[0] as int, coord[1] as int), piece),
                ..old(self)@
            }),
    {
        let idx: usize = (coord[0] as usize - 1) + 8 * (coord[1] as usize - 1);
        self.state[idx] = piece;
    }

    /// Relocate the piece on `coord[0]` to `coord[1]`, handling castling
    /// and en-passant capture as `move_piece_spec` says.
    pub fn move_piece(&mut self, coord: [[u32; 2]; 2])
        requires
            board_wf(old(self)@),
            on_board(coord[0][0] as int, coord[0][1] as int),
            on_board(coord[1][0] as int, coord[1][1] as int),
        ensures
            board_wf(final(self)@),
            final(self)@ == (BoardView {
                state: move_piece_spec(old(self)@.state, coord[0], coord[1]),
                ..old(self)@
            }),
    {
        let f = coord[0][0] as usize;
        let r = coord[0][1] as usize;
        let f2 = coord[1][0] as usize;
        let r2 = coord[1][1] as usize;
        let src = self.state[(f - 1) + 8 * (r - 1)];
        let is_king = match src {
            Some(p) => matches!(p.kind, PieceKind::King),
            None => false,
        };
        if f == 5 && (r == 1 || r == 8) && r2 == r && (f2 == 7 || f2 == 3) && is_king {
            if f2 == 7 {
                let rook = self.state[(8 - 1) + 8 * (r - 1)];
                self.state[(6 - 1) + 8 * (r - 1)] = rook;
                self.state[(8 - 1) + 8 * (r - 1)] = None;
            } else {
                let rook = self.state[(1 - 1) + 8 * (r - 1)];
                self.state[(4 - 1) + 8 * (r - 1)] = rook;
                self.state[(1 - 1) + 8 * (r - 1)] = None;
            }
        } else {
            let dst_empty = match self.state[(f2 - 1) + 8 * (r2 - 1)] {
                Some(_) => false,
                None => true,
            };
            let diag = (f2 == f + 1 || f2 + 1 == f) && (r2 == r + 1 || r2 + 1 == r);
            let pawn_pair = match (src, self.state[(f2 - 1) + 8 * (r - 1)]) {
                (Some(p), Some(q)) => matches!(p.kind, PieceKind::Pawn) && matches!(
                    q.kind,
                    PieceKind::Pawn,
                ) && !(q.color == p.color),
                _ => false,
            };
            if dst_empty && diag && pawn_pair {
                self.state[(f2 - 1) + 8 * (r - 1)] = None;
            }
        }
        self.state[(f - 1) + 8 * (r - 1)] = None;
        self.state[(f2 - 1) + 8 * (r2 - 1)] = src;
    }
}

/// Layer `n` of a board view: 0 background, 1 arrows, 2 highlight.
pub open spec fn layer_spec(v: BoardView, n: int) -> Seq<Pixel> {
    if n == 0 {
        v.background
    } else if n == 1 {
        v.arrows_layer
    } else {
        v.highlight
    }
}

/// The board view with layer `n` replaced.
pub open spec fn layer_replace(v: BoardView, n: int, l: Seq<Pixel>) -> BoardView {
    if n == 0 {
        BoardView { background: l, ..v }
    } else if n == 1 {
        BoardView { arrows_layer: l, ..v }
    } else {
        BoardView { highlight: l, ..v }
    }
}

/// Whether canvas pixel `i` lies in the bounding box of the square.
pub open spec fn in_square_box(coord: [u32; 2], i: int) -> bool {
    let x = i % 536;
    let y = i / 536;
    &&& (coord[0] as int - 1) * 67 <= x < coord[0] as int * 67
    &&& (8 - coord[1] as int) * 67 <= y < (9 - coord[1] as int) * 67
}

proof fn lemma_box_index(coord: [u32; 2], x0: int, y0: int, dx: int, dy: int)
    requires
        on_board(coord[0] as int, coord[1] as int),
        x0 == (coord[0] as int - 1) * 67,
        y0 == (8 - coord[1] as int) * 67,
        0 <= dx < 67,
        0 <= dy < 67,
    ensures
        0 <= (y0 + dy) * 536 + (x0 + dx) < LEN,
        in_square_box(coord, (y0 + dy) * 536 + (x0 + dx)),
        ((y0 + dy) * 536 + (x0 + dx)) / 536 == y0 + dy,
        ((y0 + dy) * 536 + (x0 + dx)) % 536 == x0 + dx,
    decreases 0int,
{
    let i = (y0 + dy) * 536 + (x0 + dx);
    assert(0 <= x0 + dx < 536);
    assert(0 <= y0 + dy < 536);
    vstd::arithmetic::div_mod::lemma_fundamental_div_mod_converse(i, 536, y0 + dy, x0 + dx);
}

proof fn lemma_unique_update(s: Seq<Arrow>, j: int, a: Arrow)
    requires
        arrows_unique(s),
        0 <= j < s.len(),
        s[j].keyed([[a.from_file, a.from_rank], [a.to_file, a.to_rank]]),
    ensures
        arrows_unique(s.update(j, a)),
{
}

proof fn lemma_unique_push(s: Seq<Arrow>, a: Arrow)
    requires
        arrows_unique(s),
        forall|i: int|
            0 <= i < s.len() ==> !(#[trigger] s[i]).keyed(
                [[a.from_file, a.from_rank], [a.to_file, a.to_rank]],
            ),
    ensures
        arrows_unique(s.push(a)),
{
}

proof fn lemma_unique_remove(s: Seq<Arrow>, j: int)
    requires
        arrows_unique(s),
        0 <= j < s.len(),
    ensures
        arrows_unique(s.subrange(0, j) + s.subrange(j + 1, s.len() as int)),
{
    let t = s.subrange(0, j) + s.subrange(j + 1, s.len() as int);
    assert forall|x: int, y: int|
        #![trigger t[x], t[y]]
        0 <= x < y < t.len() implies !(t[y].keyed(
        [[t[x].from_file, t[x].from_rank], [t[x].to_file, t[x].to_rank]],
    )) by {
        let ox = if x < j {
            x
        } else {
            x + 1
        };
        let oy = if y < j {
            y
        } else {
            y + 1
        };
        assert(t[x] == s[ox]);
        assert(t[y] == s[oy]);
    }
}

/// Castling, stated on its own: a King moving from (file 5, rank r) to
/// (file 7, rank r) also relocates the rook from (file 8, rank r) to
/// (file 6, rank r) in the same mutation.
pub proof fn lemma_castling_kingside(state: Seq<Option<Piece>>, r: int, dst: Option<Piece>)
    requires
        state.len() == 64,
        r == 1 || r == 8,
        state[sq_spec(5, r)] matches Some(p) && p.kind == PieceKind::King,
    ensures
        ({
            let after = move_piece_spec(state, [5u32, r as u32], [7u32, r as u32]);
            &&& after[sq_spec(7, r)] == state[sq_spec(5, r)]
            &&& after[sq_spec(5, r)] is None
            &&& after[sq_spec(6, r)] == state[sq_spec(8, r)]
            &&& after[sq_spec(8, r)] is None
        }),
{
}

/// En-passant, stated on its own: a pawn stepping diagonally onto an empty
/// square removes the opposing pawn behind the destination.
pub proof fn lemma_en_passant(state: Seq<Option<Piece>>, from: [u32; 2], to: [u32; 2])
    requires
        state.len() == 64,
        on_board(from[0] as int, from[1] as int),
        on_board(to[0] as int, to[1] as int),
        !castles_spec(state, from, to),
        en_passant_spec(state, from, to),
    ensures
        ({
            let after = move_piece_spec(state, from, to);
            &&& after[sq_spec(to[0] as int, from[1] as int)] is None
            &&& after[sq_spec(to[0] as int, to[1] as int)] == state[sq_spec(
                from[0] as int,
                from[1] as int,
            )]
            &&& after[sq_spec(from[0] as int, from[1] as int)] is None
        }),
{
    let f = from[0] as int;
    let r = from[1] as int;
    let f2 = to[0] as int;
    let r2 = to[1] as int;
    assert(sq_spec(f2, r) != sq_spec(f, r));
    if (f2, r) != (f2, r2) {
        assert(sq_spec(f2, r) != sq_spec(f2, r2));
    }
}


/// The absolute value.
pub open spec fn abs_i(x: int) -> int {
    if x < 0 {
        -x
    } else {
        x
    }
}

/// The step direction of the walk from `a` to `b`.
pub open spec fn sign_to(a: int, b: int) -> int {
    if a < b {
        1
    } else {
        -1
    }
}

pub open spec fn max_i(a: int, b: int) -> int {
    if a < b {
        b
    } else {
        a
    }
}

pub open spec fn min_i(a: int, b: int) -> int {
    if a < b {
        a
    } else {
        b
    }
}

/// How far the line has moved along its minor axis after `k` steps along
/// the major axis: `k * dmin / m`, rounded to the nearest pixel.
pub open spec fn bres_minor(k: int, dmin: int, m: int) -> int {
    (2 * k * dmin + m) / (2 * m)
}

/// The major-axis span of the segment.
pub open spec fn bres_m(a: [i32; 2], b: [i32; 2]) -> int {
    max_i(abs_i(b[0] as int - a[0] as int), abs_i(b[1] as int - a[1] as int))
}

/// The `k`-th point of the midpoint line from `a` to `b`: the major axis
/// advances one pixel per step, the minor axis follows the rounded slope.
pub open spec fn bres_point(a: [i32; 2], b: [i32; 2], k: int) -> (int, int) {
    let ax = a[0] as int;
    let ay = a[1] as int;
    let bx = b[0] as int;
    let by = b[1] as int;
    let dx = abs_i(bx - ax);
    let dy = abs_i(by - ay);
    let m = max_i(dx, dy);
    if dx >= dy {
        (ax + k * sign_to(ax, bx), ay + bres_minor(k, dy, m) * sign_to(ay, by))
    } else {
        (ax + bres_minor(k, dx, m) * sign_to(ax, bx), ay + k * sign_to(ay, by))
    }
}

proof fn lemma_bres_minor_bounds(k: int, dmin: int, m: int)
    requires
        0 <= k <= m,
        0 <= dmin <= m,
        1 <= m,
    ensures
        0 <= bres_minor(k, dmin, m) <= dmin,
{
    assert(0 <= 2 * k * dmin) by (nonlinear_arith)
        requires
            0 <= k,
            0 <= dmin,
    ;
    vstd::arithmetic::div_mod::lemma_div_pos_is_pos(2 * k * dmin + m, 2 * m);
    assert(2 * k * dmin <= 2 * m * dmin) by (nonlinear_arith)
        requires
            k <= m,
            0 <= dmin,
    ;
    vstd::arithmetic::div_mod::lemma_div_is_ordered(2 * k * dmin + m, 2 * m * dmin + m, 2 * m);
    assert((2 * m * dmin + m) / (2 * m) == dmin) by {
        vstd::arithmetic::div_mod::lemma_div_multiples_vanish_fancy(dmin, m, 2 * m);
        assert(2 * m * dmin == (2 * m) * dmin) by (nonlinear_arith);
    }
}

/// Every point of the midpoint line lies in the bounding rectangle of its
/// endpoints.
#[verifier::spinoff_prover]
pub proof fn lemma_bres_point_in_rect(a: [i32; 2], b: [i32; 2], k: int)
    requires
        0 <= k <= bres_m(a, b),
        1 <= bres_m(a, b),
    ensures
        min_i(a[0] as int, b[0] as int) <= bres_point(a, b, k).0 <= max_i(a[0] as int, b[0] as int),
        min_i(a[1] as int, b[1] as int) <= bres_point(a, b, k).1 <= max_i(a[1] as int, b[1] as int),
{
    let ax = a[0] as int;
    let ay = a[1] as int;
    let bx = b[0] as int;
    let by = b[1] as int;
    let dx = abs_i(bx - ax);
    let dy = abs_i(by - ay);
    let m = max_i(dx, dy);
    if dx >= dy {
        lemma_bres_minor_bounds(k, dy, m);
    } else {
        lemma_bres_minor_bounds(k, dx, m);
    }
}

/// The midpoint line between two endpoints: the ordered pixels strictly
/// between them, one per major-axis step, start and end excluded.
pub fn bresenham(p: [[i32; 2]; 2]) -> (r: Vec<[i32; 2]>)
    requires
        forall|i: int, j: int|
            #![trigger p[i][j]]
            0 <= i < 2 && 0 <= j < 2 ==> -1000000 <= p[i][j] <= 1000000,
    ensures
        r@.len() == (if bres_m(p[0], p[1]) == 0 {
            0int
        } else {
            bres_m(p[0], p[1]) - 1
        }),
        forall|k: int|
            0 <= k < r@.len() ==> (#[trigger] r@[k])[0] as int == bres_point(p[0], p[1], k + 1).0
                && r@[k][1] as int == bres_point(p[0], p[1], k + 1).1,
{
    let ax = p[0][0] as i64;
    let ay = p[0][1] as i64;
    let bx = p[1][0] as i64;
    let by = p[1][1] as i64;
    let dx: u64 = if bx >= ax {
        (bx - ax) as u64
    } else {
        (ax - bx) as u64
    };
    let dy: u64 = if by >= ay {
        (by - ay) as u64
    } else {
        (ay - by) as u64
    };
    let m: u64 = if dx < dy {
        dy
    } else {
        dx
    };
    let sx: i64 = if ax < bx {
        1
    } else {
        -1
    };
    let sy: i64 = if ay < by {
        1
    } else {
        -1
    };
    let mut r: Vec<[i32; 2]> = Vec::new();
    let mut k: u64 = 1;
    while k < m
        invariant
            ax == p[0][0] as int && ay == p[0][1] as int && bx == p[1][0] as int && by == p[1][1] as int,
            -1000000 <= ax <= 1000000,
            -1000000 <= ay <= 1000000,
            -1000000 <= bx <= 1000000,
            -1000000 <= by <= 1000000,
            dx as int == abs_i(bx as int - ax as int),
            dy as int == abs_i(by as int - ay as int),
            m as int == max_i(dx as int, dy as int),
            dx <= 2000000,
            dy <= 2000000,
            m <= 2000000,
            sx == sign_to(ax as int, bx as int),
            sy == sign_to(ay as int, by as int),
            1 <= k <= max_i(m as int, 1),
            r@.len() == k - 1,
            forall|t: int|
                0 <= t < r@.len() ==> (#[trigger] r@[t])[0] as int == bres_point(p[0], p[1], t + 1).0
                    && r@[t][1] as int == bres_point(p[0], p[1], t + 1).1,
        decreases m - k,
    {
        proof {
            lemma_bres_point_in_rect(p[0], p[1], k as int);
            if dx >= dy {
                lemma_bres_minor_bounds(k as int, dy as int, m as int);
            } else {
                lemma_bres_minor_bounds(k as int, dx as int, m as int);
            }
            assert(2 * (k as int) * (dy as int) <= 8000000000000) by (nonlinear_arith)
                requires
                    0 <= k <= 2000000,
                    0 <= dy <= 2000000,
            ;
            assert(2 * (k as int) * (dx as int) <= 8000000000000) by (nonlinear_arith)
                requires
                    0 <= k <= 2000000,
                    0 <= dx <= 2000000,
            ;
        }
        let px: i64;
        let py: i64;
        if dx >= dy {
            let minor: u64 = (2 * k * dy + m) / (2 * m);
            px = ax + (k as i64) * sx;
            py = ay + (minor as i64) * sy;
        } else {
            let minor: u64 = (2 * k * dx + m) / (2 * m);
            px = ax + (minor as i64) * sx;
            py = ay + (k as i64) * sy;
        }
        r.push([px as i32, py as i32]);
        k = k + 1;
    }
    r
}

/// Whether the segment, shifted by the offset, stays on the canvas.
pub open spec fn seg_in_canvas(seg: [[i32; 2]; 2], off: [i32; 2]) -> bool {
    &&& 0 <= (seg[0][0] as int + off[0] as int) < 536
    &&& 0 <= (seg[0][1] as int + off[1] as int) < 536
    &&& 0 <= (seg[1][0] as int + off[0] as int) < 536
    &&& 0 <= (seg[1][1] as int + off[1] as int) < 536
}

/// The segment shifted by one stroke offset.
pub open spec fn seg_shifted(seg: [[i32; 2]; 2], off: [i32; 2]) -> [[i32; 2]; 2] {
    [
        [(seg[0][0] as int + off[0] as int) as i32, (seg[0][1] as int + off[1] as int) as i32],
        [(seg[1][0] as int + off[0] as int) as i32, (seg[1][1] as int + off[1] as int) as i32],
    ]
}

/// How many interior points the shifted segment's midpoint line has.
pub open spec fn line_points(seg: [[i32; 2]; 2], off: [i32; 2]) -> int {
    let sh = seg_shifted(seg, off);
    if bres_m(sh[0], sh[1]) == 0 {
        0
    } else {
        bres_m(sh[0], sh[1]) - 1
    }
}

/// The canvas index of point `k` (1-based) of the shifted segment's
/// midpoint line.
pub open spec fn line_pixel(seg: [[i32; 2]; 2], off: [i32; 2], k: int) -> int {
    let sh = seg_shifted(seg, off);
    bres_point(sh[0], sh[1], k).1 * 536 + bres_point(sh[0], sh[1], k).0
}

/// The pixel centre of a square: x across, y down from the top.
pub open spec fn sq_center(f: int, r: int) -> (int, int) {
    ((f - 1) * 67 + 33, (8 - r) * 67 + 33)
}

/// How many interior points an arrow's centre shaft line has.
pub open spec fn shaft_points(ar: Arrow) -> int {
    line_points(shaft_seg(ar), [0i32, 0i32])
}

/// The canvas index of point `k` (1-based) of an arrow's centre shaft
/// line, the unshifted midpoint line between the two square centres.
pub open spec fn shaft_pixel(ar: Arrow, k: int) -> int {
    line_pixel(shaft_seg(ar), [0i32, 0i32], k)
}

/// An arrow's shaft segment: from the source square's centre to the
/// destination square's centre.
pub open spec fn shaft_seg(ar: Arrow) -> [[i32; 2]; 2] {
    [
        [
            sq_center(ar.from_file as int, ar.from_rank as int).0 as i32,
            sq_center(ar.from_file as int, ar.from_rank as int).1 as i32,
        ],
        [
            sq_center(ar.to_file as int, ar.to_rank as int).0 as i32,
            sq_center(ar.to_file as int, ar.to_rank as int).1 as i32,
        ],
    ]
}

impl Chessboard {
    /// Write one pixel of layer `img`.
    fn put_pixel(&mut self, img: usize, idx: usize, color: Pixel)
        requires
            img < 3,
            idx < LEN,
            board_wf(old(self)@),
        ensures
            board_wf(final(self)@),
            final(self)@ == layer_replace(
                old(self)@,
                img as int,
                layer_spec(old(self)@, img as int).update(idx as int, color),
            ),
    {
        if img == 0 {
            self.background[idx] = color;
        } else if img == 1 {
            self.arrows_layer[idx] = color;
        } else {
            self.highlight[idx] = color;
        }
    }

    /// Draw the segment into layer `img`, once per offset in `offsets`,
    /// shifted by that offset: a thickened stroke. Only pixels on the
    /// offset midpoint lines change, every such pixel gets `color`, and
    /// nothing else of the board moves.
    pub fn draw_line(&mut self, img: usize, color: Pixel, offsets: &Vec<[i32; 2]>, seg: [[i32; 2]; 2])
        requires
            img < 3,
            board_wf(old(self)@),
            forall|j: int| 0 <= j < offsets@.len() ==> seg_in_canvas(seg, #[trigger] offsets@[j]),
        ensures
            board_wf(final(self)@),
            final(self)@ == layer_replace(
                old(self)@,
                img as int,
                layer_spec(final(self)@, img as int),
            ),
            layer_spec(final(self)@, img as int).len() == LEN,
            forall|i: int|
                0 <= i < LEN && layer_spec(final(self)@, img as int)[i] != layer_spec(
                    old(self)@,
                    img as int,
                )[i] ==> layer_spec(final(self)@, img as int)[i] == color && (exists|j: int, k: int|
                    0 <= j < offsets@.len() && 1 <= k <= line_points(seg, offsets@[j]) && i
                        == #[trigger] line_pixel(seg, offsets@[j], k)),
            forall|j: int, k: int|
                0 <= j < offsets@.len() && 1 <= k <= line_points(seg, offsets@[j]) ==> layer_spec(
                    final(self)@,
                    img as int,
                )[#[trigger] line_pixel(seg, offsets@[j], k)] == color,
    {
        let n = offsets.len();
        proof {
            assert forall|j2: int, k2: int|
                0 <= j2 < n && 1 <= k2 <= line_points(seg, offsets@[j2]) implies 0 <= #[trigger] line_pixel(
                seg,
                offsets@[j2],
                k2,
            ) < LEN by {
                let sh = seg_shifted(seg, offsets@[j2]);
                lemma_bres_point_in_rect(sh[0], sh[1], k2);
            }
        }
        let mut j: usize = 0;
        while j < n
            invariant
                img < 3,
                board_wf(self@),
                n == offsets@.len(),
                j <= n,
                forall|t: int| 0 <= t < n ==> seg_in_canvas(seg, #[trigger] offsets@[t]),
                forall|j2: int, k2: int|
                    0 <= j2 < n && 1 <= k2 <= line_points(seg, offsets@[j2]) ==> 0 <= #[trigger] line_pixel(
                        seg,
                        offsets@[j2],
                        k2,
                    ) < LEN,
                self@ == layer_replace(old(self)@, img as int, layer_spec(self@, img as int)),
                layer_spec(self@, img as int).len() == LEN,
                forall|i: int|
                    0 <= i < LEN && layer_spec(self@, img as int)[i] != layer_spec(
                        old(self)@,
                        img as int,
                    )[i] ==> layer_spec(self@, img as int)[i] == color && (exists|j2: int, k2: int|
                        0 <= j2 < j && 1 <= k2 <= line_points(seg, offsets@[j2]) && i
                            == #[trigger] line_pixel(seg, offsets@[j2], k2)),
                forall|j2: int, k2: int|
                    0 <= j2 < j && 1 <= k2 <= line_points(seg, offsets@[j2]) ==> layer_spec(
                        self@,
                        img as int,
                    )[#[trigger] line_pixel(seg, offsets@[j2], k2)] == color,
            decreases n - j,
        {
            let off = offsets[j];
            let a = [seg[0][0] + off[0], seg[0][1] + off[1]];
            let b = [seg[1][0] + off[0], seg[1][1] + off[1]];
            proof {
                assert(a =~= seg_shifted(seg, offsets@[j as int])[0]);
                assert(b =~= seg_shifted(seg, offsets@[j as int])[1]);
                assert([a, b] =~= seg_shifted(seg, offsets@[j as int]));
            }
            let pts = bresenham([a, b]);
            let mut t: usize = 0;
            let np = pts.len();
            while t < np
                invariant
                    img < 3,
                    board_wf(self@),
                    np == pts@.len(),
                    t <= np,
                    j < n,
                    n == offsets@.len(),
                    a == seg_shifted(seg, offsets@[j as int])[0],
                    b == seg_shifted(seg, offsets@[j as int])[1],
                    0 <= (a[0] as int) < 536 && 0 <= (a[1] as int) < 536,
                    0 <= (b[0] as int) < 536 && 0 <= (b[1] as int) < 536,
                    forall|u: int|
                        0 <= u < np ==> (#[trigger] pts@[u])[0] as int == bres_point(a, b, u + 1).0
                            && pts@[u][1] as int == bres_point(a, b, u + 1).1,
                    np == line_points(seg, offsets@[j as int]),
                    forall|j2: int, k2: int|
                        0 <= j2 < n && 1 <= k2 <= line_points(seg, offsets@[j2]) ==> 0 <= #[trigger] line_pixel(
                            seg,
                            offsets@[j2],
                            k2,
                        ) < LEN,
                    self@ == layer_replace(old(self)@, img as int, layer_spec(self@, img as int)),
                    layer_spec(self@, img as int).len() == LEN,
                    forall|i: int|
                        0 <= i < LEN && layer_spec(self@, img as int)[i] != layer_spec(
                            old(self)@,
                            img as int,
                        )[i] ==> layer_spec(self@, img as int)[i] == color && (exists|j2: int, k2: int|
                            0 <= j2 <= j && 1 <= k2 <= line_points(seg, offsets@[j2]) && i
                                == #[trigger] line_pixel(seg, offsets@[j2], k2)),
                    forall|j2: int, k2: int|
                        0 <= j2 < j && 1 <= k2 <= line_points(seg, offsets@[j2]) ==> layer_spec(
                            self@,
                            img as int,
                        )[#[trigger] line_pixel(seg, offsets@[j2], k2)] == color,
                    forall|k2: int|
                        1 <= k2 <= t ==> layer_spec(self@, img as int)[#[trigger] line_pixel(
                            seg,
                            offsets@[j as int],
                            k2,
                        )] == color,
                decreases np - t,
            {
                let q = pts[t];
                proof {
                    lemma_bres_point_in_rect(a, b, t as int + 1);
                }
                let idx: usize = (q[1] as usize) * 536 + (q[0] as usize);
                proof {
                    assert(idx as int == line_pixel(seg, offsets@[j as int], t as int + 1));
                }
                self.put_pixel(img, idx, color);
                t = t + 1;
            }
            j = j + 1;
        }
    }

    /// Rasterize every arrow of the set into the arrow layer: a thickened
    /// shaft between the two square centres and a filled, flanged head at
    /// the destination. Every painted pixel carries the arrow's colour.
    fn draw_one_arrow(&mut self, ar: Arrow)
        requires
            board_wf(old(self)@),
            on_board(ar.from_file as int, ar.from_rank as int),
            on_board(ar.to_file as int, ar.to_rank as int),
        ensures
            board_wf(final(self)@),
            final(self)@ == layer_replace(old(self)@, 1, final(self)@.arrows_layer),
            final(self)@.arrows_layer.len() == LEN,
            forall|i: int|
                0 <= i < LEN ==> final(self)@.arrows_layer[i] == old(self)@.arrows_layer[i]
                    || final(self)@.arrows_layer[i] == ar.color,
            forall|k: int|
                1 <= k <= shaft_points(ar) ==> final(self)@.arrows_layer[#[trigger] shaft_pixel(
                    ar,
                    k,
                )] == ar.color,
    {
        let x1: i32 = (ar.from_file as i32 - 1) * 67 + 33;
        let y1: i32 = (8 - ar.from_rank as i32) * 67 + 33;
        let x2: i32 = (ar.to_file as i32 - 1) * 67 + 33;
        let y2: i32 = (8 - ar.to_rank as i32) * 67 + 33;
        let seg = [[x1, y1], [x2, y2]];
        proof {
            assert(seg =~= shaft_seg(ar));
            assert(seg_shifted(seg, [0i32, 0i32]) =~= seg);
            assert forall|k: int| 1 <= k <= shaft_points(ar) implies 0 <= #[trigger] shaft_pixel(
                ar,
                k,
            ) < LEN by {
                let sh = seg_shifted(shaft_seg(ar), [0i32, 0i32]);
                lemma_bres_point_in_rect(sh[0], sh[1], k);
            }
        }
        // thickened shaft: offsets run across the line's main direction
        let mut shaft: Vec<[i32; 2]> = Vec::new();
        let mut o: i32 = -3;
        while o <= 3
            invariant
                -3 <= o <= 4,
                shaft@.len() == o + 3,
                forall|j: int|
                    0 <= j < shaft@.len() ==> -3 <= ((#[trigger] shaft@[j])[0] as int) <= 3 && -3 <= (shaft@[j][1] as int) <= 3,
                o >= 1 ==> shaft@[3] == [0i32, 0i32],
            decreases 3 - o + 1,
        {
            if y1 == y2 {
                shaft.push([0, o]);
            } else {
                shaft.push([o, 0]);
            }
            o = o + 1;
        }
        self.draw_line(1, ar.color, &shaft, seg);
        proof {
            assert forall|k: int| 1 <= k <= shaft_points(ar) implies self@.arrows_layer[#[trigger] shaft_pixel(
                ar,
                k,
            )] == ar.color by {
                assert(shaft@[3] == [0i32, 0i32]);
                assert(layer_spec(self@, 1)[line_pixel(seg, shaft@[3], k)] == ar.color);
            }
        }
        // arrowhead: two flanges at roughly 45 degrees off the shaft, found
        // by rotating the destination-to-source direction, then the head
        // triangle filled by closing lines back to the destination
        let vx: i64 = (x1 - x2) as i64;
        let vy: i64 = (y1 - y2) as i64;
        proof {
            assert(vx * vx + vy * vy <= 1000000 && vx * vx >= 0 && vy * vy >= 0) by (nonlinear_arith)
                requires
                    -469 <= vx <= 469,
                    -469 <= vy <= 469,
            ;
        }
        let len2: i64 = vx * vx + vy * vy;
        let fx: i64;
        let fy: i64;
        if len2 > 0 {
            let len = isqrt(len2 as u64) as i64;
            fx = clamp30(vx * 30 / len);
            fy = clamp30(vy * 30 / len);
        } else {
            fx = 0;
            fy = 0;
        }
        let e1x = clamp30((fx - fy) * 29 / 41);
        let e1y = clamp30((fx + fy) * 29 / 41);
        let e2x = clamp30((fx + fy) * 29 / 41);
        let e2y = clamp30((fy - fx) * 29 / 41);
        let p1 = [x2 + e1x as i32, y2 + e1y as i32];
        let p2 = [x2 + e2x as i32, y2 + e2y as i32];
        let mut thin: Vec<[i32; 2]> = Vec::new();
        let mut o2: i32 = -1;
        while o2 <= 1
            invariant
                -1 <= o2 <= 2,
                forall|j: int|
                    0 <= j < thin@.len() ==> (#[trigger] thin@[j])[0] as int == 0 && -1 <= (thin@[j][1] as int) <= 1,
            decreases 1 - o2 + 1,
        {
            thin.push([0, o2]);
            o2 = o2 + 1;
        }
        self.draw_line(1, ar.color, &thin, [[x2, y2], p1]);
        self.draw_line(1, ar.color, &thin, [[x2, y2], p2]);
        self.draw_line(1, ar.color, &thin, [p1, p2]);
        let closing = bresenham([p1, p2]);
        let mut t: usize = 0;
        let n = closing.len();
        while t < n
            invariant
                board_wf(self@),
                n == closing@.len(),
                t <= n,
                3 <= (p1[0] as int) <= 532 && 3 <= (p1[1] as int) <= 532,
                3 <= (p2[0] as int) <= 532 && 3 <= (p2[1] as int) <= 532,
                33 <= (x2 as int) <= 502 && 33 <= (y2 as int) <= 502,
                forall|j: int|
                    0 <= j < thin@.len() ==> (#[trigger] thin@[j])[0] as int == 0 && -1 <= (thin@[j][1] as int) <= 1,
                forall|u: int|
                    0 <= u < n ==> (#[trigger] closing@[u])[0] as int == bres_point(p1, p2, u + 1).0
                        && closing@[u][1] as int == bres_point(p1, p2, u + 1).1,
                n == (if bres_m(p1, p2) == 0 {
                    0int
                } else {
                    bres_m(p1, p2) - 1
                }),
                self@ == layer_replace(old(self)@, 1, self@.arrows_layer),
                self@.arrows_layer.len() == LEN,
                forall|i: int|
                    0 <= i < LEN ==> self@.arrows_layer[i] == old(self)@.arrows_layer[i]
                        || self@.arrows_layer[i] == ar.color,
                forall|k: int|
                    1 <= k <= shaft_points(ar) ==> 0 <= #[trigger] shaft_pixel(ar, k) < LEN,
                forall|k: int|
                    1 <= k <= shaft_points(ar) ==> self@.arrows_layer[#[trigger] shaft_pixel(
                        ar,
                        k,
                    )] == ar.color,
            decreases n - t,
        {
            let q = closing[t];
            proof {
                lemma_bres_point_in_rect(p1, p2, t as int + 1);
            }
            self.draw_line(1, ar.color, &thin, [[x2, y2], q]);
            t = t + 1;
        }
    }

    /// Re-rasterize the arrow layer from the arrow set, lazily: only when
    /// it is marked dirty. Afterwards every arrow-layer pixel is either
    /// clear or carries the colour of one of the arrows, and the centre
    /// shaft of the arrow drawn last carries its colour pixel for pixel.
    pub fn prerender_arrows(&mut self)
        requires
            board_wf(old(self)@),
        ensures
            board_wf(final(self)@),
            !old(self)@.redraw_arrows ==> final(self)@ == old(self)@,
            old(self)@.redraw_arrows ==> {
                &&& final(self)@ == (BoardView {
                    arrows_layer: final(self)@.arrows_layer,
                    redraw_arrows: false,
                    ..old(self)@
                })
                &&& final(self)@.arrows_layer.len() == LEN
                &&& forall|i: int|
                    0 <= i < LEN ==> final(self)@.arrows_layer[i] == Pixel::transparent_spec() || (
                    exists|j: int|
                        0 <= j < old(self)@.arrows.len() && final(self)@.arrows_layer[i] == (
                        #[trigger] old(self)@.arrows[j]).color)
                &&& (old(self)@.arrows.len() > 0 ==> {
                    let last = old(self)@.arrows[old(self)@.arrows.len() - 1];
                    forall|k: int|
                        1 <= k <= shaft_points(last) ==> final(self)@.arrows_layer[#[trigger] shaft_pixel(
                            last,
                            k,
                        )] == last.color
                })
            },
    {
        if !self.redraw_arrows {
            return ;
        }
        self.arrows_layer = filled_layer(Pixel::transparent());
        let mut j: usize = 0;
        let n = self.arrows.len();
        while j < n
            invariant
                board_wf(self@),
                n == self.arrows@.len(),
                j <= n,
                self@ == (BoardView {
                    arrows_layer: self@.arrows_layer,
                    redraw_arrows: true,
                    ..old(self)@
                }),
                self@.arrows_layer.len() == LEN,
                forall|i: int|
                    0 <= i < LEN ==> self@.arrows_layer[i] == Pixel::transparent_spec() || (exists|t: int|
                        0 <= t < n && self@.arrows_layer[i] == (#[trigger] self.arrows@[t]).color),
                j > 0 ==> {
                    let prev = self.arrows@[j - 1];
                    forall|k: int|
                        1 <= k <= shaft_points(prev) ==> self@.arrows_layer[#[trigger] shaft_pixel(
                            prev,
                            k,
                        )] == prev.color
                },
            decreases n - j,
        {
            let ar = self.arrows[j];
            self.draw_one_arrow(ar);
            j = j + 1;
        }
        self.redraw_arrows = false;
    }

    /// The standard initial position, placed piece by piece.
    pub fn draw_initial(&mut self)
        requires
            board_wf(old(self)@),
        ensures
            board_wf(final(self)@),
            final(self)@ == (BoardView { state: final(self)@.state, ..old(self)@ }),
            final(self)@.state.len() == 64,
            forall|f: int, r: int|
                on_board(f, r) ==> final(self)@.state[sq_spec(f, r)] == (if r == 1 || r == 2 || r
                    == 7 || r == 8 {
                    initial_piece_at(f, r)
                } else {
                    old(self)@.state[sq_spec(f, r)]
                }),
    {
        let mut f: u32 = 1;
        while f <= 8
            invariant
                board_wf(self@),
                1 <= f <= 9,
                self@ == (BoardView { state: self@.state, ..old(self)@ }),
                self@.state.len() == 64,
                forall|g: int, r: int|
                    on_board(g, r) ==> self@.state[sq_spec(g, r)] == (if r == 2 && g < f {
                        initial_piece_at(g, r)
                    } else if r == 7 && g < f {
                        initial_piece_at(g, r)
                    } else {
                        old(self)@.state[sq_spec(g, r)]
                    }),
            decreases 9 - f,
        {
            self.draw_piece(
                [f, 2],
                Some(Piece { color: PieceColor::White, kind: PieceKind::Pawn }),
            );
            self.draw_piece(
                [f, 7],
                Some(Piece { color: PieceColor::Black, kind: PieceKind::Pawn }),
            );
            f = f + 1;
        }
        self.draw_piece([1, 1], Some(Piece { color: PieceColor::White, kind: PieceKind::Rook }));
        self.draw_piece([8, 1], Some(Piece { color: PieceColor::White, kind: PieceKind::Rook }));
        self.draw_piece([2, 1], Some(Piece { color: PieceColor::White, kind: PieceKind::Knight }));
        self.draw_piece([7, 1], Some(Piece { color: PieceColor::White, kind: PieceKind::Knight }));
        self.draw_piece([3, 1], Some(Piece { color: PieceColor::White, kind: PieceKind::Bishop }));
        self.draw_piece([6, 1], Some(Piece { color: PieceColor::White, kind: PieceKind::Bishop }));
        self.draw_piece([4, 1], Some(Piece { color: PieceColor::White, kind: PieceKind::Queen }));
        self.draw_piece([5, 1], Some(Piece { color: PieceColor::White, kind: PieceKind::King }));
        self.draw_piece([1, 8], Some(Piece { color: PieceColor::Black, kind: PieceKind::Rook }));
        self.draw_piece([8, 8], Some(Piece { color: PieceColor::Black, kind: PieceKind::Rook }));
        self.draw_piece([2, 8], Some(Piece { color: PieceColor::Black, kind: PieceKind::Knight }));
        self.draw_piece([7, 8], Some(Piece { color: PieceColor::Black, kind: PieceKind::Knight }));
        self.draw_piece([3, 8], Some(Piece { color: PieceColor::Black, kind: PieceKind::Bishop }));
        self.draw_piece([6, 8], Some(Piece { color: PieceColor::Black, kind: PieceKind::Bishop }));
        self.draw_piece([4, 8], Some(Piece { color: PieceColor::Black, kind: PieceKind::Queen }));
        self.draw_piece([5, 8], Some(Piece { color: PieceColor::Black, kind: PieceKind::King }));
    }

    /// Compose the final frame bottom-up: background, highlight alpha-over,
    /// piece sprites from the catalog, overlay-blended against the arrow
    /// layer (re-rasterized first if dirty), flattened to opaque output.
    pub fn render(&mut self, catalog: &Catalog) -> (out: Vec<Pixel>)
        requires
            board_wf(old(self)@),
            catalog.wf(),
        ensures
            board_wf(final(self)@),
            final(self)@ == (BoardView {
                arrows_layer: final(self)@.arrows_layer,
                redraw_arrows: final(self)@.redraw_arrows,
                ..old(self)@
            }),
            final(self)@.redraw_arrows == false,
            !old(self)@.redraw_arrows ==> final(self)@.arrows_layer == old(self)@.arrows_layer,
            out@.len() == LEN,
            forall|i: int|
                0 <= i < LEN ==> (#[trigger] out@[i]) == crate::pixel::composite_of(
                    old(self)@.background[i],
                    old(self)@.highlight[i],
                    piece_pixel_spec(old(self)@.state, *catalog, i),
                    final(self)@.arrows_layer[i],
                ),
            forall|i: int| 0 <= i < LEN ==> (#[trigger] out@[i]).a == 255,
    {
        self.prerender_arrows();
        let mut out: Vec<Pixel> = Vec::new();
        let mut i: usize = 0;
        while i < LEN
            invariant
                board_wf(self@),
                catalog.wf(),
                i <= LEN,
                self@ == (BoardView {
                    arrows_layer: self@.arrows_layer,
                    redraw_arrows: self@.redraw_arrows,
                    ..old(self)@
                }),
                self@.redraw_arrows == false,
                !old(self)@.redraw_arrows ==> self@.arrows_layer == old(self)@.arrows_layer,
                out@.len() == i,
                forall|t: int|
                    0 <= t < i ==> (#[trigger] out@[t]) == crate::pixel::composite_of(
                        old(self)@.background[t],
                        old(self)@.highlight[t],
                        piece_pixel_spec(old(self)@.state, *catalog, t),
                        self@.arrows_layer[t],
                    ),
                forall|t: int| 0 <= t < i ==> (#[trigger] out@[t]).a == 255,
            decreases LEN - i,
        {
            let x: usize = i % 536;
            let y: usize = i / 536;
            proof {
                vstd::arithmetic::div_mod::lemma_mod_bound(i as int, 536);
                vstd::arithmetic::div_mod::lemma_div_pos_is_pos(i as int, 536);
                vstd::arithmetic::div_mod::lemma_div_is_ordered(i as int, 287295, 536);
                vstd::arithmetic::div_mod::lemma_div_is_ordered(x as int, 535, 67);
                vstd::arithmetic::div_mod::lemma_div_is_ordered(y as int, 535, 67);
                vstd::arithmetic::div_mod::lemma_div_pos_is_pos(x as int, 67);
                vstd::arithmetic::div_mod::lemma_div_pos_is_pos(y as int, 67);
                vstd::arithmetic::div_mod::lemma_mod_bound(x as int, 67);
                vstd::arithmetic::div_mod::lemma_mod_bound(y as int, 67);
            }
            let file_idx: usize = x / 67;
            let rank_idx: usize = 7 - y / 67;
            let piece = self.state[file_idx + 8 * rank_idx];
            let sprite_px = match piece {
                None => Pixel::transparent(),
                Some(pc) => catalog.sprite(pc).pixel_at((x % 67) as u32, (y % 67) as u32),
            };
            let px = crate::pixel::composite_pixel(
                self.background[i],
                self.highlight[i],
                sprite_px,
                self.arrows_layer[i],
            );
            out.push(px);
            i = i + 1;
        }
        out
    }
}

/// The sprite pixel that the piece grid puts over canvas pixel `i`: look
/// up the square under the pixel, then the piece's sprite pixel at the
/// offset within the square; clear where the square is empty.
pub open spec fn piece_pixel_spec(state: Seq<Option<Piece>>, cat: Catalog, i: int) -> Pixel {
    let x = i % 536;
    let y = i / 536;
    let file_idx = x / 67;
    let rank_idx = 7 - y / 67;
    match state[file_idx + 8 * rank_idx] {
        None => Pixel::transparent_spec(),
        Some(p) => cat.sprite_spec(p)[(y % 67) * 67 + (x % 67)],
    }
}

/// The piece that the standard initial position puts on `[f, r]`.
pub open spec fn initial_piece_at(f: int, r: int) -> Option<Piece> {
    if r == 2 {
        Some(Piece { color: PieceColor::White, kind: PieceKind::Pawn })
    } else if r == 7 {
        Some(Piece { color: PieceColor::Black, kind: PieceKind::Pawn })
    } else if r == 1 || r == 8 {
        let color = if r == 1 {
            PieceColor::White
        } else {
            PieceColor::Black
        };
        let kind = if f == 1 || f == 8 {
            PieceKind::Rook
        } else if f == 2 || f == 7 {
            PieceKind::Knight
        } else if f == 3 || f == 6 {
            PieceKind::Bishop
        } else if f == 4 {
            PieceKind::Queen
        } else {
            PieceKind::King
        };
        Some(Piece { color, kind })
    } else {
        None
    }
}

/// Clamp a flange offset so the arrowhead stays within one square of its
/// destination centre.
fn clamp30(v: i64) -> (r: i64)
    ensures
        -30 <= r <= 30,
        -30 <= v <= 30 ==> r == v,
{
    if v < -30 {
        -30
    } else if v > 30 {
        30
    } else {
        v
    }
}

/// The integer square root, rounded down.
fn isqrt(n: u64) -> (r: u64)
    requires
        n <= 1000000,
    ensures
        r * r <= n,
        n >= 1 ==> r >= 1,
        r <= 1000,
{
    let mut r: u64 = 0;
    while r < 1000
        invariant
            r * r <= n,
            r <= 1000,
            n <= 1000000,
            n >= 1 ==> (r >= 1 || 1 <= n),
        decreases 1000 - r,
    {
        proof {
            assert(((r + 1) as int) * ((r + 1) as int) <= 1002001) by (nonlinear_arith)
                requires
                    r < 1000,
            ;
        }
        let nxt: u64 = (r + 1) * (r + 1);
        if nxt <= n {
            r = r + 1;
        } else {
            return r;
        }
    }
    r
}

/// Copy a vector of plain values.
fn copy_vec<T: Copy>(v: &Vec<T>) -> (r: Vec<T>)
    ensures
        r@ == v@,
{
    let mut r: Vec<T> = Vec::new();
    let mut i: usize = 0;
    while i < v.len()
        invariant
            i <= v@.len(),
            r@ == v@.subrange(0, i as int),
        decreases v@.len() - i,
    {
        r.push(v[i]);
        i = i + 1;
    }
    proof {
        assert(r@ =~= v@);
    }
    r
}

impl Clone for Chessboard {
    /// A deep copy: the clone's state is the same board view.
    fn clone(&self) -> (r: Self)
        ensures
            r@ == self@,
    {
        Chessboard {
            background: copy_vec(&self.background),
            arrows_layer: copy_vec(&self.arrows_layer),
            highlight: copy_vec(&self.highlight),
            state: copy_vec(&self.state),
            arrows: copy_vec(&self.arrows),
            redraw_arrows: self.redraw_arrows,
        }
    }
}

} // verus!