//! FEN placement-field decoding.
//!
//! A position record is walked one character at a time: a digit N means the
//! next N squares are empty, a letter names a piece through the catalog
//! letters, `/` resets the file cursor and steps down one rank, a space (or
//! the record's end) ends the walk once every rank is done, and a backslash
//! is a literal escape, skipped along with the character after it rather
//! than decoded. Squares are produced
//! file 1 to 8 within rank 8, then rank 7, and so on down to rank 1.

use vstd::prelude::*;

use crate::piece::Piece;
use crate::piece::piece_of_char_spec;

verus! {

/// One decoded entry: a `[file, rank]` square and the piece on it, if any.
pub type FenItem = ([u32; 2], Option<Piece>);

pub open spec fn is_digit(c: char) -> bool {
    48 <= c as int <= 57
}

pub open spec fn digit_val(c: char) -> int {
    c as int - 48
}

pub open spec fn is_rank_sep(c: char) -> bool {
    c == '/' || c == ' '
}

/// The file cursor after one more square, saturating at the type's limit.
pub open spec fn col_inc(c: int) -> int {
    if c < 0xFFFF_FFFF {
        c + 1
    } else {
        c
    }
}

/// Termination measure for the decoding walk: input left to scan, then the
/// pending run of empty squares.
pub open spec fn fen_measure(s: Seq<char>, i: int, skip: int) -> int {
    (if 0 <= i <= s.len() {
        s.len() - i
    } else {
        0
    }) * 10 + (if skip >= 0 {
        skip
    } else {
        0
    })
}

/// Everything the decoding walk still produces from cursor state
/// (row, column, skip, i) over the record `s`.
pub open spec fn decode_from(s: Seq<char>, row: int, column: int, skip: int, i: int) -> Seq<FenItem>
    decreases fen_measure(s, i, skip),
{
    if skip > 0 {
        seq![([column as u32, row as u32], None::<Piece>)] + decode_from(s, row, col_inc(column), skip - 1, i)
    } else if row == 0 {
        Seq::empty()
    } else if i < 0 || i >= s.len() {
        Seq::empty()
    } else if is_digit(s[i]) {
        decode_from(s, row, column, digit_val(s[i]), i + 1)
    } else if piece_of_char_spec(s[i]) is Some {
        seq![([column as u32, row as u32], piece_of_char_spec(s[i]))] + decode_from(
            s,
            row,
            col_inc(column),
            0,
            i + 1,
        )
    } else if s[i] == '\\' {
        decode_from(s, row, column, 0, i + 2)
    } else if is_rank_sep(s[i]) {
        decode_from(s, row - 1, 1, 0, i + 1)
    } else {
        Seq::empty()
    }
}

/// Everything decoding the record `s` produces, from the start state:
/// rank 8, file 1.
pub open spec fn decode_spec(s: Seq<char>) -> Seq<FenItem> {
    decode_from(s, 8, 1, 0, 0)
}

/// Whether the decoding walk from this cursor state runs into a character
/// that names nothing: not a digit, a piece letter, a rank separator or an
/// escape. Such a record is malformed and must fail the lesson rather than
/// yield a partial position.
pub open spec fn halts_from(s: Seq<char>, row: int, column: int, skip: int, i: int) -> bool
    decreases fen_measure(s, i, skip),
{
    if skip > 0 {
        halts_from(s, row, col_inc(column), skip - 1, i)
    } else if row == 0 {
        false
    } else if i < 0 || i >= s.len() {
        false
    } else if is_digit(s[i]) {
        halts_from(s, row, column, digit_val(s[i]), i + 1)
    } else if piece_of_char_spec(s[i]) is Some {
        halts_from(s, row, col_inc(column), 0, i + 1)
    } else if s[i] == '\\' {
        halts_from(s, row, column, 0, i + 2)
    } else if is_rank_sep(s[i]) {
        halts_from(s, row - 1, 1, 0, i + 1)
    } else {
        true
    }
}

/// Whether decoding the record `s` runs into a character that names
/// nothing.
pub open spec fn halts_spec(s: Seq<char>) -> bool {
    halts_from(s, 8, 1, 0, 0)
}

/// A position record string.
#[derive(Debug, Clone)]
pub struct Fen(pub String);

/// The decoding cursor over a position record: current rank `row`, current
/// file `column`, a pending run of `skip` empty squares, and the character
/// index `i`.
#[derive(Debug, Copy, Clone)]
pub struct RefFen<'a> {
    pub row: u32,
    pub column: u32,
    pub fen: &'a str,
    pub skip: u32,
    pub i: usize,
}

impl Fen {
    pub fn new(fen: String) -> (r: Fen)
        ensures
            r.0@ == fen@,
    {
        Fen(fen)
    }

    /// A fresh decoding cursor over this record.
    pub fn iter(&self) -> (r: RefFen<'_>)
        ensures
            r.fen@ == self.0@,
            r.row == 8,
            r.column == 1,
            r.skip == 0,
            r.i == 0,
            r.decoded() == decode_spec(self.0@),
            r.halts() == halts_spec(self.0@),
    {
        RefFen { row: 8, column: 1, fen: self.0.as_str(), skip: 0, i: 0 }
    }

    /// Decode the whole record at once.
    pub fn decode(&self) -> (r: Vec<FenItem>)
        ensures
            r@ == decode_spec(self.0@),
    {
        let mut it = self.iter();
        let mut out: Vec<FenItem> = Vec::new();
        loop
            invariant
                out@ + it.decoded() == decode_spec(self.0@),
            decreases it.measure(),
        {
            match it.next() {
                Some(item) => {
                    out.push(item);
                },
                None => {
                    proof {
                        assert(out@ + it.decoded() =~= out@);
                    }
                    return out;
                },
            }
        }
    }
}

impl<'a> RefFen<'a> {
    /// What this cursor still produces.
    pub open spec fn decoded(self) -> Seq<FenItem> {
        decode_from(self.fen@, self.row as int, self.column as int, self.skip as int, self.i as int)
    }

    pub open spec fn measure(self) -> int {
        fen_measure(self.fen@, self.i as int, self.skip as int)
    }

    /// Whether the rest of this walk runs into a character that names
    /// nothing.
    pub open spec fn halts(self) -> bool {
        halts_from(self.fen@, self.row as int, self.column as int, self.skip as int, self.i as int)
    }

    /// The next (square, piece) entry, or `None` once the record is spent:
    /// every rank done, or no readable input left.
    pub fn next(&mut self) -> (r: Option<FenItem>)
        ensures
            match r {
                Some(item) => old(self).decoded() == seq![item] + final(self).decoded()
                    && final(self).measure() < old(self).measure()
                    && final(self).fen@ == old(self).fen@
                    && final(self).halts() == old(self).halts(),
                None => old(self).decoded() == Seq::<FenItem>::empty() && final(self).decoded()
                    == Seq::<FenItem>::empty() && old(self).halts() == (final(self).row != 0
                    && final(self).i < final(self).fen@.len()),
            },
    {
        loop
            invariant
                self.decoded() == old(self).decoded(),
                self.halts() == old(self).halts(),
                self.fen@ == old(self).fen@,
                self.measure() <= old(self).measure(),
            decreases self.measure(),
        {
            let ghost pre = *self;
            if self.skip > 0 {
                let item = ([self.column, self.row], None);
                self.skip = self.skip - 1;
                self.column = if self.column < 0xFFFF_FFFFu32 {
                    self.column + 1
                } else {
                    self.column
                };
                proof {
                    assert(pre.decoded() == seq![item] + self.decoded());
                }
                return Some(item);
            } else if self.row != 0 {
                if self.i >= self.fen.unicode_len() {
                    return None;
                }
                let c = self.fen.get_char(self.i);
                let cv = c as u32;
                if 48 <= cv && cv <= 57 {
                    self.skip = cv - 48;
                    self.i = self.i + 1;
                } else {
                    match Piece::from_char(c) {
                        Some(p) => {
                            let item = ([self.column, self.row], Some(p));
                            self.column = if self.column < 0xFFFF_FFFFu32 {
                                self.column + 1
                            } else {
                                self.column
                            };
                            self.i = self.i + 1;
                            proof {
                                assert(pre.decoded() == seq![item] + self.decoded());
                            }
                            return Some(item);
                        },
                        None => {
                            if c == '\\' {
                                self.i = if self.i < usize::MAX - 1 {
                                    self.i + 2
                                } else {
                                    usize::MAX
                                };
                                proof {
                                    if pre.i + 2 != self.i as int {
                                        assert(self.i as int >= self.fen@.len());
                                        assert(decode_from(
                                            self.fen@,
                                            pre.row as int,
                                            pre.column as int,
                                            0,
                                            pre.i + 2,
                                        ) =~= Seq::<FenItem>::empty());
                                        assert(self.decoded() =~= Seq::<FenItem>::empty());
                                        assert(self.decoded() == pre.decoded());
                                        assert(!halts_from(
                                            self.fen@,
                                            pre.row as int,
                                            pre.column as int,
                                            0,
                                            pre.i + 2,
                                        ));
                                        assert(!self.halts());
                                        assert(self.halts() == pre.halts());
                                    }
                                }
                            } else if c == '/' || c == ' ' {
                                self.column = 1;
                                self.row = self.row - 1;
                                self.i = self.i + 1;
                            } else {
                                return None;
                            }
                        },
                    }
                }
            } else {
                return None;
            }
        }
    }
}

/// A well-formed continuation of a placement field read from position `i`,
/// with `row` ranks still owed and the current rank filled up to file
/// `col - 1`: piece letters and digit runs complete each rank to exactly
/// eight files, ranks are separated by `/`, and after the last rank the
/// record ends or a space follows.
pub open spec fn valid_cont(s: Seq<char>, i: int, row: int, col: int) -> bool
    decreases s.len() - i,
{
    if col <= 8 {
        0 <= i < s.len() && ((piece_of_char_spec(s[i]) is Some && valid_cont(s, i + 1, row, col + 1)) || (
        is_digit(s[i]) && digit_val(s[i]) >= 1 && col + digit_val(s[i]) <= 9 && valid_cont(
            s,
            i + 1,
            row,
            col + digit_val(s[i]),
        )))
    } else if row > 1 {
        0 <= i < s.len() && s[i] == '/' && valid_cont(s, i + 1, row - 1, 1)
    } else {
        i >= s.len() || (0 <= i && s[i] == ' ')
    }
}

/// A complete, well-formed 64-square placement field.
pub open spec fn valid_placement(s: Seq<char>) -> bool {
    valid_cont(s, 0, 8, 1)
}

/// The square that position `k` of the walk from (row, col) lands on:
/// first the rest of the current rank, file ascending, then the remaining
/// ranks, rank descending.
pub open spec fn pos_at(row: int, col: int, k: int) -> (int, int) {
    if k < 9 - col {
        (col + k, row)
    } else {
        let k2 = k - (9 - col);
        (1 + k2 % 8, row - 1 - k2 / 8)
    }
}

proof fn lemma_decode_cont(s: Seq<char>, row: int, col: int, skip: int, i: int)
    requires
        1 <= row <= 8,
        1 <= col,
        0 <= skip,
        col + skip <= 9,
        valid_cont(s, i, row, col + skip),
    ensures
        decode_from(s, row, col, skip, i).len() == (9 - col) + 8 * (row - 1),
        forall|k: int|
            0 <= k < (9 - col) + 8 * (row - 1) ==> (#[trigger] decode_from(s, row, col, skip, i)[k]).0[0] as int
                == pos_at(row, col, k).0 && decode_from(s, row, col, skip, i)[k].0[1] as int == pos_at(
                row,
                col,
                k,
            ).1,
    decreases fen_measure(s, i, skip),
{
    let d = decode_from(s, row, col, skip, i);
    if skip > 0 {
        let tail = decode_from(s, row, col + 1, skip - 1, i);
        assert(col_inc(col) == col + 1);
        lemma_decode_cont(s, row, col + 1, skip - 1, i);
        assert(d == seq![([col as u32, row as u32], None::<Piece>)] + tail);
        assert forall|k: int| 0 <= k < (9 - col) + 8 * (row - 1) implies (#[trigger] d[k]).0[0] as int
            == pos_at(row, col, k).0 && d[k].0[1] as int == pos_at(row, col, k).1 by {
            if k == 0 {
                assert(pos_at(row, col, 0) == (col, row));
            } else {
                assert(d[k] == tail[k - 1]);
                lemma_pos_shift(row, col, k);
            }
        }
    } else if col <= 8 {
        // a piece letter or a digit continues the current rank
        if is_digit(s[i]) {
            lemma_decode_cont(s, row, col, digit_val(s[i]), i + 1);
        } else {
            let tail = decode_from(s, row, col + 1, 0, i + 1);
            assert(col_inc(col) == col + 1);
            lemma_decode_cont(s, row, col + 1, 0, i + 1);
            assert(d == seq![([col as u32, row as u32], piece_of_char_spec(s[i]))] + tail);
            assert forall|k: int| 0 <= k < (9 - col) + 8 * (row - 1) implies (#[trigger] d[k]).0[0] as int
                == pos_at(row, col, k).0 && d[k].0[1] as int == pos_at(row, col, k).1 by {
                if k == 0 {
                    assert(pos_at(row, col, 0) == (col, row));
                } else {
                    assert(d[k] == tail[k - 1]);
                    lemma_pos_shift(row, col, k);
                }
            }
        }
    } else {
        // the rank is complete: either a rank separator or the record's end
        assert(col == 9);
        if row > 1 {
            assert(s[i] == '/');
            assert(!is_digit(s[i]) && piece_of_char_spec(s[i]) is None && s[i] != '\\');
            lemma_decode_cont(s, row - 1, 1, 0, i + 1);
            assert(d == decode_from(s, row - 1, 1, 0, i + 1));
            assert forall|k: int| 0 <= k < 8 * (row - 1) implies (#[trigger] d[k]).0[0] as int == pos_at(
                row,
                col,
                k,
            ).0 && d[k].0[1] as int == pos_at(row, col, k).1 by {
                lemma_pos_rank_step(row, k);
            }
        } else {
            // row == 1 and the rank is full: nothing more is produced
            if i < s.len() {
                assert(s[i] == ' ');
                assert(!is_digit(s[i]) && piece_of_char_spec(s[i]) is None && s[i] != '\\');
                assert(d == decode_from(s, 0, 1, 0, i + 1));
            }
            assert(d.len() == 0);
        }
    }
}

/// Walking one square further into a rank shifts the position table by one.
proof fn lemma_pos_shift(row: int, col: int, k: int)
    requires
        1 <= col <= 8,
        1 <= k,
    ensures
        pos_at(row, col, k) == pos_at(row, col + 1, k - 1),
{
}

/// Finishing a rank moves the walk to file 1 of the rank below.
proof fn lemma_pos_rank_step(row: int, k: int)
    requires
        0 <= k,
    ensures
        pos_at(row, 9, k) == pos_at(row - 1, 1, k),
{
    if k < 8 {
        assert(k % 8 == k && k / 8 == 0) by {
            vstd::arithmetic::div_mod::lemma_basic_div(k, 8);
            vstd::arithmetic::div_mod::lemma_small_mod(k as nat, 8nat);
        }
    } else {
        assert((k - 8) % 8 == k % 8 && (k - 8) / 8 == k / 8 - 1) by {
            vstd::arithmetic::div_mod::lemma_fundamental_div_mod(k, 8);
            vstd::arithmetic::div_mod::lemma_mod_bound(k, 8);
            vstd::arithmetic::div_mod::lemma_mod_multiples_vanish(-1, k, 8);
            vstd::arithmetic::div_mod::lemma_div_multiples_vanish_fancy(k / 8 - 1, k % 8, 8);
            assert(8 * (k / 8 - 1) + k % 8 == k - 8) by (nonlinear_arith)
                requires
                    k == 8 * (k / 8) + k % 8,
            ;
        }
    }
}

/// Decoding a well-formed 64-square placement field yields exactly 64
/// entries, one per square, file ascending within each rank and ranks
/// descending from 8 to 1.
pub proof fn lemma_valid_placement_decodes_fully(s: Seq<char>)
    requires
        valid_placement(s),
    ensures
        decode_spec(s).len() == 64,
        forall|k: int|
            0 <= k < 64 ==> (#[trigger] decode_spec(s)[k]).0[0] as int == 1 + k % 8 && decode_spec(
                s,
            )[k].0[1] as int == 8 - k / 8,
{
    lemma_decode_cont(s, 8, 1, 0, 0);
    assert forall|k: int| 0 <= k < 64 implies (#[trigger] decode_spec(s)[k]).0[0] as int == 1 + k % 8
        && decode_spec(s)[k].0[1] as int == 8 - k / 8 by {
        assert(pos_at(8, 1, k).0 == 1 + k % 8 && pos_at(8, 1, k).1 == 8 - k / 8);
    }
}

} // verus!
