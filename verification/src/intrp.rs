//! The interpreter: replaying the instruction stream over the timeline.
//!
//! Instructions run strictly in time order, each board snapshot derived
//! from the previous one. A goto materializes the uncached ancestor chain
//! of its target, deepest first, memoizing every step; a move instruction
//! diffs the new position against the current board and infers an implicit
//! move arrow; marker instructions mutate the current snapshot in place.
//! An instruction whose game index lies outside the loaded games ends the
//! stream early at that instruction's timestamp.

use vstd::prelude::*;

use crate::board::{
    board_wf, move_piece_spec, on_board, sq_spec, Arrow, BoardView, Chessboard, LEN,
};
use crate::fen::{decode_spec, Fen, FenItem};
use crate::instr::{color_pixel_spec, Color, MoveView, MoveDataView};
use crate::piece::{kind_of_index_spec, Piece};
use crate::pixel::Pixel;

verus! {

/// A lesson whose replay broke an internal invariant: the timeline read
/// before any snapshot existed, a square reference off the board, a
/// promotion on an empty square, a recall of a game never visited, or a
/// cyclic move graph.
#[derive(Clone, Copy, PartialEq, Eq, Structural, Debug)]
pub enum LessonError {
    Internal,
}

/// A board with no markers left: highlights cleared, arrows dropped, the
/// arrow layer due for redrawing.
pub open spec fn clear_markers_view(b: BoardView) -> BoardView {
    BoardView {
        highlight: Seq::new(LEN as nat, |i: int| Pixel::transparent_spec()),
        arrows: Seq::<Arrow>::empty(),
        redraw_arrows: true,
        ..b
    }
}

/// The grid after placing each decoded (square, piece) pair in turn, or a
/// failure on the first pair naming a square off the board.
pub open spec fn apply_fen_items(state: Seq<Option<Piece>>, items: Seq<FenItem>) -> Result<
    Seq<Option<Piece>>,
    (),
>
    decreases items.len(),
{
    if items.len() == 0 {
        Ok(state)
    } else {
        let pos = items[0].0;
        if on_board(pos[0] as int, pos[1] as int) {
            apply_fen_items(
                state.update(sq_spec(pos[0] as int, pos[1] as int), items[0].1),
                items.subrange(1, items.len() as int),
            )
        } else {
            Err(())
        }
    }
}

/// The blue of implicit and recorded move arrows.
pub open spec fn move_arrow_color() -> Pixel {
    color_pixel_spec(Color::Blue)
}

/// What applying one recorded move does to a snapshot: markers cleared,
/// then either the whole position replaced square by square, or the piece
/// relocated (castling and en-passant included) with a blue arrow drawn
/// over the move and the optional promotion applied at the destination.
/// No move record at all just clears the markers. Fails on a square off
/// the board or a promotion of an empty destination.
pub open spec fn mov_apply_spec(b: BoardView, m: Option<MoveView>) -> Result<BoardView, ()> {
    let b1 = clear_markers_view(b);
    match m {
        None => Ok(b1),
        Some(mv) => match mv.data {
            MoveDataView::FenV(s) => if crate::fen::halts_spec(s) {
                Err(())
            } else {
                match apply_fen_items(b1.state, decode_spec(s)) {
                    Ok(st) => Ok(BoardView { state: st, ..b1 }),
                    Err(_) => Err(()),
                }
            },
            MoveDataView::CoordV(c, promo) => {
                if on_board(c[0][0] as int, c[0][1] as int) && on_board(
                    c[1][0] as int,
                    c[1][1] as int,
                ) {
                    let st = move_piece_spec(b1.state, c[0], c[1]);
                    let arrows = seq![
                        Arrow {
                            from_file: c[0][0],
                            from_rank: c[0][1],
                            to_file: c[1][0],
                            to_rank: c[1][1],
                            color: move_arrow_color(),
                        },
                    ];
                    let dst = sq_spec(c[1][0] as int, c[1][1] as int);
                    match promo {
                        None => Ok(BoardView { state: st, arrows, ..b1 }),
                        Some(p) => {
                            if p < 6 && st[dst] is Some {
                                let st2 = st.update(
                                    dst,
                                    Some(
                                        Piece {
                                            color: st[dst].unwrap().color,
                                            kind: kind_of_index_spec(p as int),
                                        },
                                    ),
                                );
                                Ok(BoardView { state: st2, arrows, ..b1 })
                            } else {
                                Err(())
                            }
                        },
                    }
                } else {
                    Err(())
                }
            },
        },
    }
}

/// Clear the markers of a board, in place.
fn clear_markers_exec(board: &mut Chessboard)
    requires
        board_wf(old(board)@),
    ensures
        board_wf(final(board)@),
        final(board)@ == clear_markers_view(old(board)@),
{
    board.clear_markers();
    proof {
        assert(final(board)@.highlight =~= Seq::new(LEN as nat, |i: int| Pixel::transparent_spec()));
        assert(final(board)@ =~= clear_markers_view(old(board)@));
    }
}

/// Place every decoded pair of the position record on the board, in
/// decoding order; fail on a pair naming a square off the board or on a
/// record holding a character that names nothing.
fn apply_fen(board: &mut Chessboard, fen: &Fen) -> (r: Result<(), LessonError>)
    requires
        board_wf(old(board)@),
    ensures
        board_wf(final(board)@),
        crate::fen::halts_spec(fen.0@) ==> r is Err,
        !crate::fen::halts_spec(fen.0@) ==> match apply_fen_items(
            old(board)@.state,
            decode_spec(fen.0@),
        ) {
            Ok(st) => r is Ok && final(board)@ == (BoardView { state: st, ..old(board)@ }),
            Err(_) => r is Err,
        },
{
    let mut it = fen.iter();
    loop
        invariant
            board_wf(board@),
            board@ == (BoardView { state: board@.state, ..old(board)@ }),
            it.halts() == crate::fen::halts_spec(fen.0@),
            apply_fen_items(old(board)@.state, decode_spec(fen.0@)) == apply_fen_items(
                board@.state,
                it.decoded(),
            ),
        decreases it.measure(),
    {
        match it.next() {
            None => {
                if it.row != 0 && it.i < it.fen.unicode_len() {
                    // a character that names nothing: the record is bad
                    return Err(LessonError::Internal);
                }
                return Ok(());
            },
            Some((pos, piece)) => {
                proof {
                    let items = seq![(pos, piece)] + it.decoded();
                    assert(items.subrange(1, items.len() as int) =~= it.decoded());
                    assert(items[0] == (pos, piece));
                }
                if 1 <= pos[0] && pos[0] <= 8 && 1 <= pos[1] && pos[1] <= 8 {
                    board.draw_piece(pos, piece);
                } else {
                    return Err(LessonError::Internal);
                }
            },
        }
    }
}

/// Apply the recorded move `id` of `game` to the board: `mov_apply_spec`.
pub fn mov(board: &mut Chessboard, game: &crate::instr::Game, id: usize) -> (r: Result<
    (),
    LessonError,
>)
    requires
        board_wf(old(board)@),
    ensures
        board_wf(final(board)@),
        match mov_apply_spec(old(board)@, moves_lookup(game@.moves, id)) {
            Ok(b) => r is Ok && final(board)@ == b,
            Err(_) => r is Err,
        },
{
    clear_markers_exec(board);
    let mv = match game.moves.get(&id) {
        None => {
            return Ok(());
        },
        Some(m) => m,
    };
    match &mv.data {
        crate::instr::MoveData::Fen(f) => {
            match apply_fen(board, f) {
                Ok(_) => Ok(()),
                Err(e) => Err(e),
            }
        },
        crate::instr::MoveData::Coord(c, promo) => {
            let c = *c;
            if !(1 <= c[0][0] && c[0][0] <= 8 && 1 <= c[0][1] && c[0][1] <= 8 && 1 <= c[1][0]
                && c[1][0] <= 8 && 1 <= c[1][1] && c[1][1] <= 8) {
                return Err(LessonError::Internal);
            }
            board.move_piece(c);
            board.arrow(c, Color::Blue.rgba());
            proof {
                assert(board@.arrows =~= seq![
                    Arrow {
                        from_file: c[0][0],
                        from_rank: c[0][1],
                        to_file: c[1][0],
                        to_rank: c[1][1],
                        color: move_arrow_color(),
                    },
                ]);
            }
            match promo {
                None => Ok(()),
                Some(p) => {
                    let p = *p;
                    if p >= 6 {
                        return Err(LessonError::Internal);
                    }
                    let idx: usize = (c[1][0] as usize - 1) + 8 * (c[1][1] as usize - 1);
                    let dst_piece = board.state[idx];
                    match Piece::from_uncolored(dst_piece, p) {
                        None => Err(LessonError::Internal),
                        Some(np) => {
                            board.draw_piece(c[1], Some(np));
                            Ok(())
                        },
                    }
                },
            }
        },
    }
}

/// The move a game's graph records under `id`, if any.
pub open spec fn moves_lookup(moves: Map<usize, MoveView>, id: usize) -> Option<MoveView> {
    if moves.dom().contains(id) {
        Some(moves[id])
    } else {
        None
    }
}


/// No id repeats in the chain.
pub open spec fn nodup(c: Seq<usize>) -> bool {
    forall|i: int, j: int| 0 <= i < j < c.len() ==> c[i] != c[j]
}

/// The walk from a goto target up the move graph to the nearest cached
/// ancestor or to a root: the ids still to materialize, deepest first, and
/// the cached anchor if the walk ended on one. `None` when the walk's fuel
/// runs out, as it does on a cyclic move graph.
pub open spec fn chain_walk(
    tl: crate::timeline::Timeline,
    gi: usize,
    moves: Map<usize, MoveView>,
    id: usize,
    fuel: nat,
) -> Option<(Seq<usize>, Option<usize>)>
    decreases fuel,
{
    if tl.has_key((id, gi)) {
        Some((Seq::empty(), Some(id)))
    } else if moves.dom().contains(id) && moves[id].prev_m != id {
        if fuel == 0 {
            None
        } else {
            match chain_walk(tl, gi, moves, moves[id].prev_m, (fuel - 1) as nat) {
                None => None,
                Some(pr) => Some((pr.0.push(id), pr.1)),
            }
        }
    } else {
        Some((seq![id], None))
    }
}

/// The snapshots a chain materializes: each derived from the one before
/// it by applying its move, starting from the predecessor snapshot.
pub open spec fn chain_boards(pred: BoardView, moves: Map<usize, MoveView>, c: Seq<usize>) -> Result<
    Seq<BoardView>,
    (),
>
    decreases c.len(),
{
    if c.len() == 0 {
        Ok(Seq::empty())
    } else {
        match mov_apply_spec(pred, moves_lookup(moves, c[0])) {
            Err(_) => Err(()),
            Ok(b) => match chain_boards(b, moves, c.subrange(1, c.len() as int)) {
                Err(_) => Err(()),
                Ok(bs) => Ok(seq![b] + bs),
            },
        }
    }
}

/// The position of key `k` in the timeline's insertion order.
pub open spec fn key_index(tl: crate::timeline::Timeline, k: (usize, usize)) -> int {
    choose|j: int| 0 <= j < tl.len_spec() && (#[trigger] tl.entries()[j]).0 == k
}

/// The predecessor snapshot a chain starts from: the cached anchor's
/// snapshot, or, for a chain ending at a root or unrecorded move, whatever
/// snapshot the cursor was on.
pub open spec fn pred_board(
    tl: crate::timeline::Timeline,
    gi: usize,
    anchor: Option<usize>,
) -> BoardView {
    match anchor {
        Some(aid) => tl.board_at(key_index(tl, (aid, gi))),
        None => tl.board_at(tl.cursor as int),
    }
}

/// Goto-materialization. If the target key is already stored, only the
/// cursor moves: the stored snapshots are untouched, so a revisit returns
/// the identical snapshot with no further clone or mutation. Otherwise the
/// uncached ancestor chain is materialized deepest-first and appended to
/// the order, one new entry per chain id, each snapshot derived from its
/// predecessor, and the cursor lands on the target.
pub fn goto_id(
    timeline: &mut crate::timeline::Timeline,
    game: &crate::instr::Game,
    gi: usize,
    id: usize,
) -> (r: Result<(), LessonError>)
    requires
        old(timeline).wf(),
    ensures
        final(timeline).wf(),
        old(timeline).has_key((id, gi)) ==> r is Ok && final(timeline).entries() == old(
            timeline,
        ).entries() && final(timeline).boards == old(timeline).boards && final(timeline).cursor
            < final(timeline).len_spec() && final(timeline).key_at(final(timeline).cursor as int)
            == (id, gi),
        !old(timeline).has_key((id, gi)) ==> match chain_walk(
            *old(timeline),
            gi,
            game@.moves,
            id,
            (game@.moves.dom().len() + 1) as nat,
        ) {
            None => r is Err && final(timeline).entries() == old(timeline).entries()
                && final(timeline).boards == old(timeline).boards,
            Some(pr) => {
                &&& (r is Ok ==> {
                    let c = pr.0;
                    let bs = chain_boards(
                        pred_board(*old(timeline), gi, pr.1),
                        game@.moves,
                        c,
                    ).unwrap();
                    &&& chain_boards(pred_board(*old(timeline), gi, pr.1), game@.moves, c) is Ok
                    &&& final(timeline).len_spec() == old(timeline).len_spec() + c.len()
                    &&& forall|k: int|
                        0 <= k < old(timeline).len_spec() ==> final(timeline).entries()[k]
                            == old(timeline).entries()[k]
                    &&& forall|k: int|
                        0 <= k < c.len() ==> final(timeline).key_at(old(timeline).len_spec() + k)
                            == (c[k], gi) && final(timeline).board_at(
                            old(timeline).len_spec() + k,
                        ) == bs[k]
                    &&& final(timeline).cursor == final(timeline).len_spec() - 1
                })
                &&& (r is Err ==> chain_boards(
                    pred_board(*old(timeline), gi, pr.1),
                    game@.moves,
                    pr.0,
                ) is Err || (pr.1 is None && old(timeline).len_spec() == 0) || !nodup(pr.0))
            },
        },
{
    let ghost tl0 = *old(timeline);
    let ghost moves0 = game@.moves;
    let ghost fuel0 = (game@.moves.dom().len() + 1) as nat;
    // walk up the move graph collecting the uncached chain, deepest first
    let mut chain: Vec<usize> = Vec::new();
    let mut cur: usize = id;
    let mut fuel: u128 = game.moves.len() as u128 + 1;
    let mut anchored: bool = false;
    proof {
        assert(game.moves@.dom() =~= game@.moves.dom());
    }
    loop
        invariant_except_break
            tl0 == *old(timeline),
            moves0 == game@.moves,
            fuel0 == (game@.moves.dom().len() + 1) as nat,
            timeline.wf(),
            timeline.entries() == tl0.entries(),
            timeline.boards == tl0.boards,
            timeline.cursor == tl0.cursor,
            fuel <= fuel0,
            chain_walk(tl0, gi, moves0, id, fuel0) == (match chain_walk(
                tl0,
                gi,
                moves0,
                cur,
                fuel as nat,
            ) {
                None => None::<(Seq<usize>, Option<usize>)>,
                Some(pr) => Some((pr.0 + chain@, pr.1)),
            }),
            !anchored,
            moves0 == game@.moves,
        ensures
            tl0 == *old(timeline),
            moves0 == game@.moves,
            fuel0 == (game@.moves.dom().len() + 1) as nat,
            timeline.wf(),
            timeline.entries() == tl0.entries(),
            timeline.boards == tl0.boards,
            chain_walk(tl0, gi, moves0, id, fuel0) == Some(
                (
                    chain@,
                    if anchored {
                        Some(cur)
                    } else {
                        None::<usize>
                    },
                ),
            ),
            anchored ==> timeline.cursor < timeline.len_spec() && timeline.key_at(
                timeline.cursor as int,
            ) == (cur, gi) && tl0.has_key((cur, gi)),
            !anchored ==> timeline.cursor == tl0.cursor,
        decreases fuel,
    {
        if timeline.index_of(&(cur, gi)).is_some() {
            proof {
                assert(tl0.has_key((cur, gi)));
                assert(chain_walk(tl0, gi, moves0, cur, fuel as nat) == Some(
                    (Seq::<usize>::empty(), Some(cur)),
                ));
                assert(Seq::<usize>::empty() + chain@ =~= chain@);
            }
            anchored = true;
        } else {
            proof {
                assert(!tl0.has_key((cur, gi)));
            }
            match game.moves.get(&cur) {
                Some(m) => {
                    proof {
                        assert(game.moves@.dom().contains(cur));
                        assert(moves0.dom() =~= game.moves@.dom());
                        assert(moves0[cur] == m@);
                    }
                    if m.prev_m != cur {
                        let prev = m.prev_m;
                        if fuel == 0 {
                            proof {
                                assert(chain_walk(tl0, gi, moves0, cur, 0nat) is None);
                            }
                            return Err(LessonError::Internal);
                        }
                        let ghost chain_pre = chain@;
                        chain.insert(0, cur);
                        proof {
                            assert(chain@ =~= seq![cur] + chain_pre);
                        }
                        fuel = fuel - 1;
                        proof {
                            assert(chain_walk(tl0, gi, moves0, cur, (fuel + 1) as nat) == (
                            match chain_walk(tl0, gi, moves0, prev, fuel as nat) {
                                None => None::<(Seq<usize>, Option<usize>)>,
                                Some(pr) => Some((pr.0.push(cur), pr.1)),
                            }));
                            if chain_walk(tl0, gi, moves0, prev, fuel as nat) is Some {
                                let pr = chain_walk(tl0, gi, moves0, prev, fuel as nat).unwrap();
                                assert(pr.0.push(cur) + chain_pre =~= pr.0 + chain@);
                            }
                        }
                        cur = prev;
                        continue ;
                    } else {
                        let ghost chain_pre = chain@;
                        chain.insert(0, cur);
                        proof {
                            assert(chain@ =~= seq![cur] + chain_pre);
                            assert(chain_walk(tl0, gi, moves0, cur, fuel as nat) == Some(
                                (seq![cur], None::<usize>),
                            ));
                            assert(seq![cur] + chain_pre =~= chain@);
                        }
                    }
                },
                None => {
                    proof {
                        assert(!game.moves@.dom().contains(cur));
                        assert(moves0.dom() =~= game.moves@.dom());
                    }
                    let ghost chain_pre = chain@;
                    chain.insert(0, cur);
                    proof {
                        assert(chain@ =~= seq![cur] + chain_pre);
                        assert(chain_walk(tl0, gi, moves0, cur, fuel as nat) == Some(
                            (seq![cur], None::<usize>),
                        ));
                        assert(seq![cur] + chain_pre =~= chain@);
                    }
                },
            }
        }
        break ;
    }
    let ghost walk = chain_walk(tl0, gi, moves0, id, fuel0).unwrap();
    if anchored && chain.len() == 0 {
        // the target itself was cached: the cursor already moved there
        return Ok(());
    }
    if timeline.len() == 0 {
        return Err(LessonError::Internal);
    }
    // replay the chain forward, deepest ancestor first
    let ghost n0 = tl0.len_spec();
    let ghost preds = pred_board(tl0, gi, walk.1);
    let ghost bs_res = chain_boards(preds, moves0, walk.0);
    proof {
        if anchored {
            lemma_key_index_agrees(*timeline, (cur, gi));
            assert(timeline.cursor as int == key_index(*timeline, (cur, gi)));
            assert(key_index(*timeline, (cur, gi)) == key_index(tl0, (cur, gi))) by {
                assert(timeline.entries() == tl0.entries());
            }
        }
    }
    proof {
        if bs_res is Ok {
            lemma_chain_boards_len(preds, moves0, walk.0);
        }
        assert(chain@.subrange(0, chain@.len() as int) =~= chain@);
        if bs_res is Ok {
            assert(bs_res.unwrap().subrange(0, chain@.len() as int) =~= bs_res.unwrap());
        }
        lemma_chain_uncached(tl0, gi, moves0, id, fuel0);
    }
    let mut j: usize = 0;
    let n = chain.len();
    while j < n
        invariant
            tl0 == *old(timeline),
            timeline.wf(),
            n == chain@.len(),
            j <= n,
            walk.0 == chain@,
            chain_walk(tl0, gi, moves0, id, fuel0) == Some((chain@, walk.1)),
            moves0 == game@.moves,
            fuel0 == (game@.moves.dom().len() + 1) as nat,
            preds == pred_board(tl0, gi, walk.1),
            bs_res == chain_boards(preds, moves0, chain@),
            bs_res is Ok ==> bs_res.unwrap().len() == chain@.len(),
            forall|k: int| 0 <= k < chain@.len() ==> !tl0.has_key(((#[trigger] chain@[k]), gi)),
            n0 == tl0.len_spec(),
            timeline.len_spec() == n0 + j,
            forall|k: int| 0 <= k < n0 ==> timeline.entries()[k] == tl0.entries()[k],
            timeline.boards@.len() >= tl0.boards@.len(),
            forall|k: int| 0 <= k < j ==> timeline.key_at(n0 + k) == (chain@[k], gi),
            j > 0 ==> timeline.cursor == n0 + j - 1,
            j == 0 ==> timeline.len_spec() > 0 && timeline.board_at(timeline.cursor as int)
                == preds,
            bs_res is Ok ==> forall|k: int|
                0 <= k < j ==> timeline.board_at(n0 + k) == bs_res.unwrap()[k],
            j > 0 && bs_res is Ok ==> timeline.board_at(timeline.cursor as int)
                == bs_res.unwrap()[j - 1],
            bs_res is Ok ==> chain_boards(
                (if j == 0 {
                    preds
                } else {
                    bs_res.unwrap()[j - 1]
                }),
                moves0,
                chain@.subrange(j as int, n as int),
            ) == Ok::<Seq<BoardView>, ()>(bs_res.unwrap().subrange(j as int, n as int)),
            bs_res is Err ==> chain_boards(
                timeline.board_at(timeline.cursor as int),
                moves0,
                chain@.subrange(j as int, n as int),
            ) is Err,
        decreases n - j,
    {
        let cid = chain[j];
        if timeline.contains_key(&(cid, gi)) {
            proof {
                let w = choose|t: int|
                    0 <= t < timeline.len_spec() && (#[trigger] timeline.entries()[t]).0 == (
                    cid,
                    gi,
                );
                if w < n0 {
                    assert(tl0.entries()[w].0 == (cid, gi));
                    assert(tl0.has_key((cid, gi)));
                    assert(false);
                } else {
                    assert(timeline.key_at(w) == (chain@[w - n0], gi));
                    assert(chain@[w - n0] == cid);
                    assert(!nodup(chain@));
                }
            }
            return Err(LessonError::Internal);
        }
        let mut b = timeline.current().clone();
        let ghost bpre = b@;
        match mov(&mut b, game, cid) {
            Err(e) => {
                proof {
                    if bs_res is Ok {
                        let tail = chain@.subrange(j as int, n as int);
                        assert(tail[0] == chain@[j as int]);
                        assert(bpre == (if j == 0 {
                            preds
                        } else {
                            bs_res.unwrap()[j - 1]
                        }));
                        assert(chain_boards(bpre, moves0, tail) is Ok);
                        assert(mov_apply_spec(bpre, moves_lookup(moves0, tail[0])) is Ok);
                        assert(false);
                    }
                }
                return Err(LessonError::Internal);
            },
            Ok(_) => {},
        }
        timeline.insert((cid, gi), b);
        proof {
            lemma_chain_boards_step_ok(preds, moves0, chain@, bs_res, j as int, bpre, b@);
            let tail = chain@.subrange(j as int, n as int);
            assert(tail[0] == chain@[j as int]);
            assert(tail.subrange(1, tail.len() as int) =~= chain@.subrange(j as int + 1, n as int));
            assert(mov_apply_spec(bpre, moves_lookup(moves0, chain@[j as int])) == Ok::<
                BoardView,
                (),
            >(b@));
        }
        j = j + 1;
    }
    proof {
        assert(chain@.subrange(n as int, n as int) =~= Seq::<usize>::empty());
    }
    Ok(())
}

/// A successfully applied chain yields one snapshot per chain id.
proof fn lemma_chain_boards_len(pred: BoardView, moves: Map<usize, MoveView>, c: Seq<usize>)
    requires
        chain_boards(pred, moves, c) is Ok,
    ensures
        chain_boards(pred, moves, c).unwrap().len() == c.len(),
    decreases c.len(),
{
    if c.len() > 0 {
        let b = mov_apply_spec(pred, moves_lookup(moves, c[0])).unwrap();
        lemma_chain_boards_len(b, moves, c.subrange(1, c.len() as int));
    }
}

/// One successful step extends the materialized prefix.
proof fn lemma_chain_boards_step_ok(
    preds: BoardView,
    moves: Map<usize, MoveView>,
    c: Seq<usize>,
    bs_res: Result<Seq<BoardView>, ()>,
    j: int,
    bpre: BoardView,
    bnew: BoardView,
)
    requires
        0 <= j < c.len(),
        bs_res == chain_boards(preds, moves, c),
        bs_res is Ok ==> bs_res.unwrap().len() == c.len(),
        bs_res is Ok ==> bpre == (if j == 0 {
            preds
        } else {
            bs_res.unwrap()[j - 1]
        }),
        mov_apply_spec(bpre, moves_lookup(moves, c[j])) == Ok::<BoardView, ()>(bnew),
        bs_res is Ok ==> chain_boards(
            bpre,
            moves,
            c.subrange(j, c.len() as int),
        ) == Ok::<Seq<BoardView>, ()>(bs_res.unwrap().subrange(j, c.len() as int)),
    ensures
        bs_res is Ok ==> bs_res.unwrap()[j] == bnew && chain_boards(
            bnew,
            moves,
            c.subrange(j + 1, c.len() as int),
        ) == Ok::<Seq<BoardView>, ()>(bs_res.unwrap().subrange(j + 1, c.len() as int)),
{
    if bs_res is Ok {
        let tail = c.subrange(j, c.len() as int);
        let bs_tail = bs_res.unwrap().subrange(j, c.len() as int);
        assert(tail[0] == c[j]);
        assert(chain_boards(bpre, moves, tail) == Ok::<Seq<BoardView>, ()>(bs_tail));
        assert(bs_tail == seq![bnew] + chain_boards(
            bnew,
            moves,
            tail.subrange(1, tail.len() as int),
        ).unwrap());
        assert(tail.subrange(1, tail.len() as int) =~= c.subrange(j + 1, c.len() as int));
        assert(bs_tail[0] == bnew);
        assert(bs_tail[0] == bs_res.unwrap()[j]);
        let rest = chain_boards(bnew, moves, c.subrange(j + 1, c.len() as int)).unwrap();
        assert(rest =~= bs_res.unwrap().subrange(j + 1, c.len() as int)) by {
            assert(bs_tail =~= seq![bnew] + rest);
            assert forall|t: int| 0 <= t < rest.len() implies rest[t] == bs_res.unwrap().subrange(
                j + 1,
                c.len() as int,
            )[t] by {
                assert(rest[t] == bs_tail[t + 1]);
                assert(bs_tail[t + 1] == bs_res.unwrap()[j + 1 + t]);
            }
            lemma_chain_boards_len(bnew, moves, c.subrange(j + 1, c.len() as int));
        }
    }
}

/// Every id on an uncached walk is itself uncached.
proof fn lemma_chain_uncached(
    tl: crate::timeline::Timeline,
    gi: usize,
    moves: Map<usize, MoveView>,
    id: usize,
    fuel: nat,
)
    requires
        chain_walk(tl, gi, moves, id, fuel) is Some,
    ensures
        forall|k: int|
            0 <= k < chain_walk(tl, gi, moves, id, fuel).unwrap().0.len() ==> !tl.has_key(
                ((#[trigger] chain_walk(tl, gi, moves, id, fuel).unwrap().0[k]), gi),
            ),
    decreases fuel,
{
    if !tl.has_key((id, gi)) && moves.dom().contains(id) && moves[id].prev_m != id && fuel > 0 {
        lemma_chain_uncached(tl, gi, moves, moves[id].prev_m, (fuel - 1) as nat);
    }
}


/// With unique keys, any entry holding key `k` stands at `key_index`.
proof fn lemma_key_index_agrees(tl: crate::timeline::Timeline, k: (usize, usize))
    requires
        tl.wf(),
        tl.has_key(k),
    ensures
        0 <= key_index(tl, k) < tl.len_spec(),
        tl.entries()[key_index(tl, k)].0 == k,
        forall|j: int|
            0 <= j < tl.len_spec() && (#[trigger] tl.entries()[j]).0 == k ==> j == key_index(tl, k),
{
    let w = choose|j: int| 0 <= j < tl.len_spec() && (#[trigger] tl.entries()[j]).0 == k;
    assert(0 <= w < tl.len_spec() && tl.entries()[w].0 == k);
    assert forall|j: int| 0 <= j < tl.len_spec() && (#[trigger] tl.entries()[j]).0 == k implies j
        == key_index(tl, k) by {
        if j != key_index(tl, k) {
            assert(tl.entries()[j].0 != tl.entries()[key_index(tl, k)].0);
        }
    }
}


/// The squares where the decoded position differs from the grid, in
/// decoding order, together with the grid after every decoded pair is
/// placed. Differences are judged by piece value. Fails on a square off
/// the board.
pub open spec fn diff_fold(state: Seq<Option<Piece>>, items: Seq<FenItem>) -> Result<
    (Seq<FenItem>, Seq<Option<Piece>>),
    (),
>
    decreases items.len(),
{
    if items.len() == 0 {
        Ok((Seq::empty(), state))
    } else {
        let pos = items[0].0;
        let p = items[0].1;
        if on_board(pos[0] as int, pos[1] as int) {
            match diff_fold(
                state.update(sq_spec(pos[0] as int, pos[1] as int), p),
                items.subrange(1, items.len() as int),
            ) {
                Err(_) => Err(()),
                Ok(r) => Ok(
                    (
                        if state[sq_spec(pos[0] as int, pos[1] as int)] != p {
                            seq![items[0]] + r.0
                        } else {
                            r.0
                        },
                        r.1,
                    ),
                ),
            }
        } else {
            Err(())
        }
    }
}

/// The implicit move arrow a position diff stands for: when two or three
/// squares differ and the first two form one vacated and one occupied
/// square, one arrow from the vacated to the occupied square, in the fixed
/// implicit-move blue.
pub open spec fn infer_arrows(df: Seq<FenItem>) -> Seq<Arrow> {
    if 2 <= df.len() <= 3 {
        if df[0].1 is None && df[1].1 is Some {
            seq![
                Arrow {
                    from_file: df[0].0[0],
                    from_rank: df[0].0[1],
                    to_file: df[1].0[0],
                    to_rank: df[1].0[1],
                    color: move_arrow_color(),
                },
            ]
        } else if df[1].1 is None && df[0].1 is Some {
            seq![
                Arrow {
                    from_file: df[1].0[0],
                    from_rank: df[1].0[1],
                    to_file: df[0].0[0],
                    to_rank: df[0].0[1],
                    color: move_arrow_color(),
                },
            ]
        } else {
            Seq::empty()
        }
    } else {
        Seq::empty()
    }
}

/// What a move instruction does to the current snapshot: markers cleared,
/// the new position applied square by square, and the inferred implicit
/// move arrow (if any) drawn. A record holding a character that names
/// nothing fails the lesson.
pub open spec fn move_insn_spec(b: BoardView, s: Seq<char>) -> Result<BoardView, ()> {
    let b1 = clear_markers_view(b);
    if crate::fen::halts_spec(s) {
        Err(())
    } else {
        match diff_fold(b1.state, decode_spec(s)) {
            Err(_) => Err(()),
            Ok(r) => Ok(BoardView { state: r.1, arrows: infer_arrows(r.0), ..b1 }),
        }
    }
}

/// A diff of exactly one vacated and one occupied square draws exactly one
/// inferred arrow, from the vacated square to the occupied one.
pub proof fn lemma_move_diff_arrow(b: BoardView, s: Seq<char>)
    requires
        move_insn_spec(b, s) is Ok,
        diff_fold(clear_markers_view(b).state, decode_spec(s)) matches Ok(r) && r.0.len() == 2
            && r.0[0].1 is Some && r.0[1].1 is None,
    ensures
        ({
            let df = diff_fold(clear_markers_view(b).state, decode_spec(s)).unwrap().0;
            move_insn_spec(b, s).unwrap().arrows == seq![
                Arrow {
                    from_file: df[1].0[0],
                    from_rank: df[1].0[1],
                    to_file: df[0].0[0],
                    to_rank: df[0].0[1],
                    color: move_arrow_color(),
                },
            ]
        }),
{
}

/// Apply a move instruction's position to the board: `move_insn_spec`.
pub fn move_insn_board(board: &mut Chessboard, fen: &Fen) -> (r: Result<(), LessonError>)
    requires
        board_wf(old(board)@),
    ensures
        board_wf(final(board)@),
        match move_insn_spec(old(board)@, fen.0@) {
            Ok(b) => r is Ok && final(board)@ == b,
            Err(_) => r is Err,
        },
{
    clear_markers_exec(board);
    let ghost b1 = board@;
    let mut df: Vec<FenItem> = Vec::new();
    let mut it = fen.iter();
    loop
        invariant
            board_wf(board@),
            board@ == (BoardView { state: board@.state, ..b1 }),
            b1 == clear_markers_view(old(board)@),
            b1.arrows.len() == 0,
            forall|k: int|
                0 <= k < df@.len() ==> on_board(
                    (#[trigger] df@[k]).0[0] as int,
                    df@[k].0[1] as int,
                ),
            it.halts() == crate::fen::halts_spec(fen.0@),
            diff_fold(b1.state, decode_spec(fen.0@)) == (match diff_fold(
                board@.state,
                it.decoded(),
            ) {
                Err(_) => Err::<(Seq<FenItem>, Seq<Option<Piece>>), ()>(()),
                Ok(r) => Ok((df@ + r.0, r.1)),
            }),
        ensures
            board_wf(board@),
            board@ == (BoardView { state: board@.state, ..b1 }),
            b1 == clear_markers_view(old(board)@),
            b1.arrows.len() == 0,
            forall|k: int|
                0 <= k < df@.len() ==> on_board(
                    (#[trigger] df@[k]).0[0] as int,
                    df@[k].0[1] as int,
                ),
            !crate::fen::halts_spec(fen.0@),
            diff_fold(b1.state, decode_spec(fen.0@)) == Ok::<(Seq<FenItem>, Seq<Option<Piece>>), ()>(
                (df@ + Seq::<FenItem>::empty(), board@.state),
            ),
        decreases it.measure(),
    {
        match it.next() {
            None => {
                if it.row != 0 && it.i < it.fen.unicode_len() {
                    // a character that names nothing: the record is bad
                    return Err(LessonError::Internal);
                }
                break ;
            },
            Some((pos, piece)) => {
                proof {
                    let items = seq![(pos, piece)] + it.decoded();
                    assert(items.subrange(1, items.len() as int) =~= it.decoded());
                    assert(items[0] == (pos, piece));
                }
                if 1 <= pos[0] && pos[0] <= 8 && 1 <= pos[1] && pos[1] <= 8 {
                    let idx: usize = (pos[0] as usize - 1) + 8 * (pos[1] as usize - 1);
                    let cur = board.state[idx];
                    let same = match (cur, piece) {
                        (None, None) => true,
                        (Some(a), Some(b)) => a == b,
                        _ => false,
                    };
                    let ghost df_pre = df@;
                    if !same {
                        df.push((pos, piece));
                        proof {
                            assert(df@ =~= df_pre + seq![(pos, piece)]);
                        }
                    }
                    board.draw_piece(pos, piece);
                    proof {
                        if !same {
                            assert forall|r0: Seq<FenItem>| true implies (df_pre + (seq![
                                (pos, piece),
                            ] + r0)) =~= (df@ + r0) by {}
                        }
                    }
                } else {
                    return Err(LessonError::Internal);
                }
            },
        }
    }
    proof {
        assert(df@ + Seq::<FenItem>::empty() =~= df@);
    }
    // infer the implicit move arrow from the first two differing squares
    if df.len() >= 2 && df.len() <= 3 {
        let (p0, c0) = df[0];
        let (p1, c1) = df[1];
        if c0.is_none() && c1.is_some() {
            board.arrow([p0, p1], Color::Blue.rgba());
            proof {
                assert(board@.arrows =~= infer_arrows(df@));
            }
        } else if c1.is_none() && c0.is_some() {
            board.arrow([p1, p0], Color::Blue.rgba());
            proof {
                assert(board@.arrows =~= infer_arrows(df@));
            }
        } else {
            proof {
                assert(board@.arrows =~= infer_arrows(df@));
            }
        }
    } else {
        proof {
            assert(board@.arrows =~= infer_arrows(df@));
        }
    }
    Ok(())
}


/// The game index an instruction references, if it references one.
pub open spec fn insn_gi(v: crate::instr::InsnView) -> Option<usize> {
    match v {
        crate::instr::InsnView::HighlightSquare { game_index, .. } => Some(game_index),
        crate::instr::InsnView::DrawArrow { game_index, .. } => Some(game_index),
        crate::instr::InsnView::Unarrow { game_index, .. } => Some(game_index),
        crate::instr::InsnView::UnarrowAll { game_index } => Some(game_index),
        crate::instr::InsnView::ClearAllHighlights { game_index } => Some(game_index),
        crate::instr::InsnView::GotoId { game_index, .. } => Some(game_index),
        crate::instr::InsnView::Unmark { game_index, .. } => Some(game_index),
        crate::instr::InsnView::UnmarkAll { game_index } => Some(game_index),
        crate::instr::InsnView::SelectGame { game_index, .. } => Some(game_index),
        crate::instr::InsnView::Move { game_index, .. } => Some(game_index),
        crate::instr::InsnView::Nop => None,
    }
}

/// The position, from `i` on, of the first instruction that references a
/// game index outside the `n` loaded games.
pub open spec fn first_oob_from(cues: Seq<(i64, crate::instr::InsnView)>, n: int, i: int) -> Option<
    int,
>
    decreases cues.len() - i,
{
    if i < 0 || i >= cues.len() {
        None
    } else if insn_gi(cues[i].1) matches Some(g) && g as int >= n {
        Some(i)
    } else {
        first_oob_from(cues, n, i + 1)
    }
}

/// The duration, in microseconds, from instruction `k` to the next one;
/// one second after the final instruction.
pub open spec fn dur_spec(cues: Seq<(i64, crate::instr::InsnView)>, k: int) -> int {
    if k + 1 < cues.len() {
        cues[k + 1].0 - cues[k].0
    } else {
        1000000
    }
}

/// The rendered frames of one lesson, its frame-duration manifest
/// (frame index, duration in microseconds) and, when rendering stopped at
/// an instruction referencing a missing game, that instruction's
/// timestamp.
pub struct RenderOutput {
    pub frames: Vec<Vec<Pixel>>,
    pub manifest: Vec<(usize, i128)>,
    pub truncated_us: Option<i64>,
}

/// The interpreter: the lesson, the timeline and, per game index, the move
/// last visited before switching away.
pub struct Interpreter {
    pub data: crate::instr::DataFile,
    pub timeline: crate::timeline::Timeline,
    pub last_visited: std::collections::HashMap<usize, usize>,
}

impl Interpreter {
    pub fn new(data: crate::instr::DataFile) -> (r: Interpreter)
        ensures
            r.data == data,
            r.timeline.wf(),
            r.timeline.len_spec() == 0,
    {
        Interpreter {
            data,
            timeline: crate::timeline::Timeline::new(),
            last_visited: std::collections::HashMap::new(),
        }
    }

    /// Walk the instruction stream once, in order: run each instruction
    /// against the timeline, render the current snapshot as a frame, and
    /// record its duration. An instruction referencing a game index beyond
    /// the loaded games ends the walk at that instruction's timestamp,
    /// with no frame for it; on normal completion the final manifest
    /// entry is repeated. A broken internal invariant stops the lesson
    /// with an error. What each instruction kind does to the timeline is
    /// the contract of `goto_id`, `move_insn`, `select_game` and the
    /// board's marker operations; this function's own contract fixes the
    /// frame count, the manifest and the truncation rule.
    pub fn render_frames(self, catalog: &crate::piece::Catalog) -> (r: Result<
        RenderOutput,
        LessonError,
    >)
        requires
            self.timeline.wf(),
            catalog.wf(),
        ensures
            self.data@.cuepoints.len() == 0 ==> r is Ok,
            first_oob_from(self.data@.cuepoints, self.data@.games.len() as int, 0) == Some(0int)
                ==> r is Ok,
            r matches Ok(out) ==> {
                let cues = self.data@.cuepoints;
                let ng = self.data@.games.len() as int;
                &&& match first_oob_from(cues, ng, 0) {
                    None => out.truncated_us is None && out.frames@.len() == cues.len(),
                    Some(i) => out.truncated_us == Some(cues[i].0) && out.frames@.len() == i,
                }
                &&& forall|k: int| 0 <= k < out.frames@.len() ==> (#[trigger] out.frames@[k])@.len() == LEN
                &&& forall|k: int, px: int|
                    0 <= k < out.frames@.len() && 0 <= px < LEN ==> ((#[trigger] out.frames@[k]@[px]).a)
                        == 255
                &&& out.manifest@.len() == out.frames@.len() + (
                if out.truncated_us is None && out.frames@.len() > 0 {
                    1int
                } else {
                    0int
                })
                &&& forall|k: int|
                    0 <= k < out.frames@.len() ==> (#[trigger] out.manifest@[k]).0 == k
                        && out.manifest@[k].1 as int == dur_spec(cues, k)
                &&& (out.truncated_us is None && out.frames@.len() > 0
                    ==> out.manifest@[out.frames@.len() as int] == out.manifest@[out.frames@.len()
                    - 1])
            },
    {
        let ghost cues = self.data@.cuepoints;
        let ghost ng = self.data@.games.len() as int;
        let mut this = self;
        let mut frames: Vec<Vec<Pixel>> = Vec::new();
        let mut manifest: Vec<(usize, i128)> = Vec::new();
        let n = this.data.cuepoints.len();
        proof {
            assert(cues.len() == n);
        }
        let mut i: usize = 0;
        while i < n
            invariant
                cues == self.data@.cuepoints,
                ng == self.data@.games.len() as int,
                cues == this.data@.cuepoints,
                ng == this.data@.games.len() as int,
                n == this.data.cuepoints@.len(),
                n == cues.len(),
                i <= n,
                this.timeline.wf(),
                catalog.wf(),
                first_oob_from(cues, ng, 0) == first_oob_from(cues, ng, i as int),
                first_oob_from(cues, ng, 0) == Some(0int) ==> i == 0,
                frames@.len() == i,
                manifest@.len() == i,
                forall|k: int| 0 <= k < i ==> (#[trigger] frames@[k])@.len() == LEN,
                forall|k: int, px: int|
                    0 <= k < i && 0 <= px < LEN ==> ((#[trigger] frames@[k]@[px]).a) == 255,
                forall|k: int|
                    0 <= k < i ==> (#[trigger] manifest@[k]).0 == k && manifest@[k].1 as int
                        == dur_spec(cues, k),
            decreases n - i,
        {
            let insn = &this.data.cuepoints[i];
            let t: i64 = insn.0.0;
            proof {
                assert(cues[i as int] == (insn.0.0, insn.0.1@));
            }
            let gi_opt: Option<usize> = match &insn.0.1 {
                crate::instr::InstructionData::HighlightSquare { game_index, .. } => Some(
                    *game_index,
                ),
                crate::instr::InstructionData::DrawArrow { game_index, .. } => Some(*game_index),
                crate::instr::InstructionData::Unarrow { game_index, .. } => Some(*game_index),
                crate::instr::InstructionData::UnarrowAll { game_index } => Some(*game_index),
                crate::instr::InstructionData::ClearAllHighlights { game_index } => Some(
                    *game_index,
                ),
                crate::instr::InstructionData::GotoId { game_index, .. } => Some(*game_index),
                crate::instr::InstructionData::Unmark { game_index, .. } => Some(*game_index),
                crate::instr::InstructionData::UnmarkAll { game_index } => Some(*game_index),
                crate::instr::InstructionData::SelectGame { game_index, .. } => Some(*game_index),
                crate::instr::InstructionData::Move { game_index, .. } => Some(*game_index),
                crate::instr::InstructionData::Nop => None,
            };
            proof {
                assert(gi_opt == insn_gi(cues[i as int].1));
            }
            let in_range: bool = match gi_opt {
                Some(g) => g < this.data.games.len(),
                None => true,
            };
            if !in_range {
                // graceful early termination: trim to this timestamp
                proof {
                    assert(ng == this.data.games@.len());
                    assert(first_oob_from(cues, ng, i as int) == Some(i as int));
                }
                return Ok(RenderOutput { frames, manifest, truncated_us: Some(t) });
            }
            proof {
                assert(ng == this.data.games@.len());
                if first_oob_from(cues, ng, 0) == Some(0int) {
                    assert(i == 0);
                    assert(first_oob_from(cues, ng, 0int) == first_oob_from(cues, ng, 1int));
                    lemma_first_oob_lower(cues, ng, 1);
                    assert(false);
                }
            }
            match &insn.0.1 {
                crate::instr::InstructionData::GotoId { id, game_index } => {
                    match goto_id(&mut this.timeline, &this.data.games[*game_index], *game_index, *id) {
                        Ok(_) => {},
                        Err(e) => {
                            return Err(e);
                        },
                    }
                },
                crate::instr::InstructionData::Move { id, fen, game_index, .. } => {
                    match move_insn(&mut this.timeline, *id, *game_index, fen) {
                        Ok(_) => {},
                        Err(e) => {
                            return Err(e);
                        },
                    }
                },
                crate::instr::InstructionData::DrawArrow { color, coord, .. } => {
                    if this.timeline.len() == 0 {
                        return Err(LessonError::Internal);
                    }
                    let c = *coord;
                    if !(1 <= c[0][0] && c[0][0] <= 8 && 1 <= c[0][1] && c[0][1] <= 8 && 1
                        <= c[1][0] && c[1][0] <= 8 && 1 <= c[1][1] && c[1][1] <= 8) {
                        return Err(LessonError::Internal);
                    }
                    let px = color.rgba();
                    let b = this.timeline.get();
                    b.arrow(c, px);
                },
                crate::instr::InstructionData::HighlightSquare { color, coord, .. } => {
                    if this.timeline.len() == 0 {
                        return Err(LessonError::Internal);
                    }
                    let c = *coord;
                    if !(1 <= c[0] && c[0] <= 8 && 1 <= c[1] && c[1] <= 8) {
                        return Err(LessonError::Internal);
                    }
                    let px = color.rgba();
                    let b = this.timeline.get();
                    b.highlt(c, px);
                },
                crate::instr::InstructionData::Unmark { coord, .. } => {
                    if this.timeline.len() == 0 {
                        return Err(LessonError::Internal);
                    }
                    let c = *coord;
                    if !(1 <= c[0] && c[0] <= 8 && 1 <= c[1] && c[1] <= 8) {
                        return Err(LessonError::Internal);
                    }
                    let b = this.timeline.get();
                    b.unhighlt(&c);
                },
                crate::instr::InstructionData::Unarrow { coord, .. } => {
                    if this.timeline.len() == 0 {
                        return Err(LessonError::Internal);
                    }
                    let c = *coord;
                    let b = this.timeline.get();
                    b.unarrow(&c);
                },
                crate::instr::InstructionData::UnmarkAll { .. } => {
                    if this.timeline.len() == 0 {
                        return Err(LessonError::Internal);
                    }
                    let b = this.timeline.get();
                    b.clear_markers();
                },
                crate::instr::InstructionData::ClearAllHighlights { .. } => {
                    if this.timeline.len() == 0 {
                        return Err(LessonError::Internal);
                    }
                    let b = this.timeline.get();
                    b.clear_highlt();
                },
                crate::instr::InstructionData::UnarrowAll { .. } => {
                    if this.timeline.len() == 0 {
                        return Err(LessonError::Internal);
                    }
                    let b = this.timeline.get();
                    b.clear_arrows();
                },
                crate::instr::InstructionData::SelectGame { initial_move_id, game_index } => {
                    let gi = *game_index;
                    match select_game(
                        &mut this.timeline,
                        &mut this.last_visited,
                        &this.data.games[gi],
                        gi,
                        *initial_move_id,
                    ) {
                        Ok(_) => {},
                        Err(e) => {
                            return Err(e);
                        },
                    }
                },
                crate::instr::InstructionData::Nop => {},
            }
            // render the current snapshot as this instruction's frame
            if this.timeline.len() == 0 {
                return Err(LessonError::Internal);
            }
            let board = this.timeline.get();
            let img = board.render(catalog);
            frames.push(img);
            let d: i128 = if i + 1 < n {
                let t2: i64 = this.data.cuepoints[i + 1].0.0;
                t2 as i128 - t as i128
            } else {
                1000000
            };
            proof {
                assert(cues[i as int + 1] == (
                    this.data.cuepoints@[i as int + 1].0.0,
                    this.data.cuepoints@[i as int + 1].0.1@,
                ) || i as int + 1 >= n);
            }
            manifest.push((i, d));
            i = i + 1;
        }
        // repeat the final entry: downstream concatenation reads one extra
        if manifest.len() > 0 {
            let last = manifest[manifest.len() - 1];
            manifest.push(last);
        }
        Ok(RenderOutput { frames, manifest, truncated_us: None })
    }
}


/// A hit of the out-of-range scan lies at or past its starting position.
proof fn lemma_first_oob_lower(cues: Seq<(i64, crate::instr::InsnView)>, n: int, i: int)
    ensures
        first_oob_from(cues, n, i) matches Some(x) ==> x >= i,
    decreases cues.len() - i,
{
    if 0 <= i < cues.len() {
        if !(insn_gi(cues[i].1) matches Some(g) && g as int >= n) {
            lemma_first_oob_lower(cues, n, i + 1);
        }
    }
}


/// Run one move instruction against the timeline: clone the current
/// snapshot, apply the instruction's position to the clone
/// (`move_insn_spec`: markers cleared, grid overwritten square by square,
/// the implicit move arrow inferred) and store the clone at
/// (id, gameIndex), which becomes current. Every other entry, the
/// predecessor included, is untouched; a timeline that never held a
/// snapshot, or a bad position record, fails the lesson.
pub fn move_insn(
    timeline: &mut crate::timeline::Timeline,
    id: usize,
    gi: usize,
    fen: &Fen,
) -> (r: Result<(), LessonError>)
    requires
        old(timeline).wf(),
    ensures
        final(timeline).wf(),
        old(timeline).len_spec() == 0 ==> r is Err && *final(timeline) == *old(timeline),
        old(timeline).len_spec() > 0 ==> match move_insn_spec(
            old(timeline).board_at(old(timeline).cursor as int),
            fen.0@,
        ) {
            Err(_) => r is Err && final(timeline).entries() == old(timeline).entries()
                && final(timeline).boards == old(timeline).boards,
            Ok(b) => {
                &&& r is Ok
                &&& final(timeline).cursor < final(timeline).len_spec()
                &&& final(timeline).key_at(final(timeline).cursor as int) == (id, gi)
                &&& final(timeline).board_at(final(timeline).cursor as int) == b
                &&& final(timeline).len_spec() == old(timeline).len_spec() + (
                if old(timeline).has_key((id, gi)) {
                    0int
                } else {
                    1int
                })
                &&& forall|k: int|
                    0 <= k < old(timeline).len_spec() && k != final(timeline).cursor
                        ==> final(timeline).key_at(k) == old(timeline).key_at(k)
                        && final(timeline).board_at(k) == old(timeline).board_at(k)
            },
        },
{
    if timeline.len() == 0 {
        return Err(LessonError::Internal);
    }
    let mut b = timeline.current().clone();
    match move_insn_board(&mut b, fen) {
        Err(e) => {
            return Err(e);
        },
        Ok(_) => {},
    }
    timeline.insert((id, gi), b);
    Ok(())
}

/// The last-visited bookkeeping a game switch performs: remember, for the
/// game being left, the move that was current.
pub open spec fn remembered_visits(
    tl: crate::timeline::Timeline,
    lv: Map<usize, usize>,
) -> Map<usize, usize> {
    if tl.len_spec() > 0 {
        lv.insert(tl.key_at(tl.cursor as int).1, tl.key_at(tl.cursor as int).0)
    } else {
        lv
    }
}

/// The snapshot a game switch with an initial move id builds: a fresh
/// board, the game's initial position applied, and the named move's
/// effect (arrow included) on top.
pub open spec fn select_setup_spec(game: crate::instr::GameView, id: usize) -> Result<
    BoardView,
    (),
> {
    if crate::fen::halts_spec(game.init) {
        Err(())
    } else {
        match apply_fen_items(
            crate::board::fresh_board_spec().state,
            decode_spec(game.init),
        ) {
            Err(_) => Err(()),
            Ok(st) => mov_apply_spec(
                BoardView { state: st, ..crate::board::fresh_board_spec() },
                moves_lookup(game.moves, id),
            ),
        }
    }
}

/// Switch the active game. The move current before leaving is remembered
/// for its game. With an initial move id, `select_setup_spec`'s snapshot
/// is stored at (id, gameIndex) and becomes current; without one, the
/// cursor returns to the move last visited in the selected game, and a
/// game never visited before fails the lesson.
pub fn select_game(
    timeline: &mut crate::timeline::Timeline,
    last_visited: &mut std::collections::HashMap<usize, usize>,
    game: &crate::instr::Game,
    gi: usize,
    initial_move_id: Option<usize>,
) -> (r: Result<(), LessonError>)
    requires
        old(timeline).wf(),
    ensures
        final(timeline).wf(),
        final(last_visited)@ == remembered_visits(*old(timeline), old(last_visited)@),
        match initial_move_id {
            Some(id) => match select_setup_spec(game@, id) {
                Err(_) => r is Err && final(timeline).entries() == old(timeline).entries()
                    && final(timeline).boards == old(timeline).boards,
                Ok(b) => {
                    &&& r is Ok
                    &&& final(timeline).cursor < final(timeline).len_spec()
                    &&& final(timeline).key_at(final(timeline).cursor as int) == (id, gi)
                    &&& final(timeline).board_at(final(timeline).cursor as int) == b
                    &&& final(timeline).len_spec() == old(timeline).len_spec() + (
                    if old(timeline).has_key((id, gi)) {
                        0int
                    } else {
                        1int
                    })
                    &&& forall|k: int|
                        0 <= k < old(timeline).len_spec() && k != final(timeline).cursor
                            ==> final(timeline).key_at(k) == old(timeline).key_at(k)
                            && final(timeline).board_at(k) == old(timeline).board_at(k)
                },
            },
            None => {
                let lv = remembered_visits(*old(timeline), old(last_visited)@);
                &&& (!lv.dom().contains(gi) ==> r is Err && final(timeline).entries()
                    == old(timeline).entries() && final(timeline).boards == old(timeline).boards)
                &&& (lv.dom().contains(gi) ==> {
                    &&& r is Ok
                    &&& final(timeline).entries() == old(timeline).entries()
                    &&& final(timeline).boards == old(timeline).boards
                    &&& (old(timeline).has_key((lv[gi], gi)) ==> final(timeline).cursor
                        < final(timeline).len_spec() && final(timeline).key_at(
                        final(timeline).cursor as int,
                    ) == (lv[gi], gi))
                    &&& (!old(timeline).has_key((lv[gi], gi)) ==> final(timeline).cursor
                        == old(timeline).cursor)
                })
            },
        },
{
    match timeline.get_key() {
        Some((last_m, last_g)) => {
            last_visited.insert(last_g, last_m);
        },
        None => {},
    }
    match initial_move_id {
        Some(id) => {
            let mut b = Chessboard::new();
            match apply_fen(&mut b, &game.init) {
                Ok(_) => {},
                Err(e) => {
                    return Err(e);
                },
            }
            match mov(&mut b, game, id) {
                Ok(_) => {},
                Err(e) => {
                    return Err(e);
                },
            }
            timeline.insert((id, gi), b);
            Ok(())
        },
        None => {
            let last = match last_visited.get(&gi) {
                Some(lm) => *lm,
                None => {
                    // recall of a game never visited before
                    return Err(LessonError::Internal);
                },
            };
            let _ = timeline.index_of(&(last, gi));
            Ok(())
        },
    }
}

} // verus!
