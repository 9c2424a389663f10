use vstd::prelude::*;
use vstd::string::StringSliceAdditionalSpecFns;
use crate::board::{
    Board, BoardHistory, FenError, HistoryElement, SquareContent, empty_square, history_consistent,
    BLACK, WHITE, PAWN, KNIGHT, BISHOP, ROOK, QUEEN, KING,
};
use crate::hist_state::HistState;
use crate::moves::Move;

verus! {

/// The positions of the spaces in `b`.
pub open spec fn space_positions(b: Seq<u8>) -> Seq<int>
    decreases b.len(),
{
    if b.len() == 0 {
        seq![]
    } else if b.last() == 32 {
        space_positions(b.drop_last()).push(b.len() - 1)
    } else {
        space_positions(b.drop_last())
    }
}

/// Field `k` of `b`, the fields being separated by single spaces.
pub open spec fn field(b: Seq<u8>, k: int) -> Seq<u8> {
    let sp = space_positions(b);
    let start = if k == 0 {
        0
    } else {
        sp[k - 1] + 1
    };
    let end = if k < sp.len() {
        sp[k]
    } else {
        b.len() as int
    };
    b.subrange(start, end)
}

pub open spec fn field_count(b: Seq<u8>) -> int {
    space_positions(b).len() + 1int
}

/// The piece that a FEN letter stands for.
pub open spec fn letter_piece(c: u8) -> Option<SquareContent> {
    if c == 80 {
        Some((PAWN as u8, WHITE as u8))
    } else if c == 78 {
        Some((KNIGHT as u8, WHITE as u8))
    } else if c == 66 {
        Some((BISHOP as u8, WHITE as u8))
    } else if c == 82 {
        Some((ROOK as u8, WHITE as u8))
    } else if c == 81 {
        Some((QUEEN as u8, WHITE as u8))
    } else if c == 75 {
        Some((KING as u8, WHITE as u8))
    } else if c == 112 {
        Some((PAWN as u8, BLACK as u8))
    } else if c == 110 {
        Some((KNIGHT as u8, BLACK as u8))
    } else if c == 98 {
        Some((BISHOP as u8, BLACK as u8))
    } else if c == 114 {
        Some((ROOK as u8, BLACK as u8))
    } else if c == 113 {
        Some((QUEEN as u8, BLACK as u8))
    } else if c == 107 {
        Some((KING as u8, BLACK as u8))
    } else {
        None
    }
}

/// The state of a scan of the piece placement: whether it is well formed so far, the next
/// square, the current row and the squares filled so far.
pub struct PlaceScan {
    pub ok: bool,
    pub sq: int,
    pub row: int,
    pub squares: Seq<SquareContent>,
}

pub open spec fn empty_squares() -> Seq<SquareContent> {
    Seq::new(64, |i: int| empty_square())
}

/// Scans the piece placement `p`: a digit skips that many squares and a letter places a piece,
/// neither past the end of the row; a `/` ends a complete row that is not the last.
pub open spec fn place_scan(p: Seq<u8>) -> PlaceScan
    decreases p.len(),
{
    if p.len() == 0 {
        PlaceScan { ok: true, sq: 0, row: 0, squares: empty_squares() }
    } else {
        let st = place_scan(p.drop_last());
        let c = p.last();
        let row_end = st.row * 8 + 8;
        if !st.ok {
            st
        } else if 49 <= c <= 56 {
            let n = c - 48;
            if st.sq + n <= row_end {
                PlaceScan { sq: st.sq + n, ..st }
            } else {
                PlaceScan { ok: false, ..st }
            }
        } else if letter_piece(c) is Some {
            if st.sq + 1 <= row_end {
                PlaceScan {
                    sq: st.sq + 1,
                    squares: st.squares.update(st.sq, letter_piece(c)->0),
                    ..st
                }
            } else {
                PlaceScan { ok: false, ..st }
            }
        } else if c == 47 {
            if st.sq == row_end && st.row < 7 {
                PlaceScan { row: st.row + 1, ..st }
            } else {
                PlaceScan { ok: false, ..st }
            }
        } else {
            PlaceScan { ok: false, ..st }
        }
    }
}

pub open spec fn placement_ok(p: Seq<u8>) -> bool {
    place_scan(p).ok && place_scan(p).sq == 64
}

pub open spec fn turn_ok(t: Seq<u8>) -> bool {
    t.len() == 1 && (t[0] == 119 || t[0] == 98)
}

pub open spec fn is_right_letter(c: u8) -> bool {
    c == 75 || c == 81 || c == 107 || c == 113
}

pub open spec fn rights_ok(r: Seq<u8>) -> bool {
    1 <= r.len() <= 4 && (r == seq![45u8] || forall|i: int|
        0 <= i < r.len() ==> is_right_letter(#[trigger] r[i]))
}

pub open spec fn is_file_letter(c: u8) -> bool {
    97 <= c <= 104
}

pub open spec fn enp_ok(e: Seq<u8>) -> bool {
    e == seq![45u8] || (e.len() == 1 && is_file_letter(e[0]))
}

/// The error that reading the FEN `b` gives, if any: the first malformed field, checked in the
/// order field count, side to move, castling rights, en passant, piece placement.
pub open spec fn fen_error(b: Seq<u8>) -> Option<FenError> {
    if field_count(b) < 6 {
        Some(FenError::FenTooShort)
    } else if !turn_ok(field(b, 1)) {
        Some(FenError::FenBadTurn)
    } else if !rights_ok(field(b, 2)) {
        Some(FenError::FenBadRights)
    } else if !enp_ok(field(b, 3)) {
        Some(FenError::FenBadEnPassant)
    } else if !placement_ok(field(b, 0)) {
        Some(FenError::FenBadPlacement)
    } else {
        None
    }
}

/// The spaces of `b` are positions of `b`, in increasing order.
proof fn lemma_space_positions(b: Seq<u8>)
    ensures
        forall|k: int|
            0 <= k < space_positions(b).len() ==> 0 <= #[trigger] space_positions(b)[k] < b.len()
                && b[space_positions(b)[k]] == 32,
        forall|k: int, l: int|
            0 <= k < l < space_positions(b).len() ==> #[trigger] space_positions(b)[k]
                < #[trigger] space_positions(b)[l],
    decreases b.len(),
{
    if b.len() > 0 {
        let d = b.drop_last();
        lemma_space_positions(d);
        let prev = space_positions(d);
        assert forall|k: int| 0 <= k < prev.len() implies b[prev[k]] == 32 && prev[k] < b.len() - 1 by {
            assert(d[prev[k]] == 32);
        }
    }
}

/// The space positions of a prefix extend by the next byte.
proof fn lemma_space_positions_step(b: Seq<u8>, i: int)
    requires
        0 <= i < b.len(),
    ensures
        space_positions(b.subrange(0, i + 1)) == if b[i] == 32 {
            space_positions(b.subrange(0, i)).push(i)
        } else {
            space_positions(b.subrange(0, i))
        },
{
    assert(b.subrange(0, i + 1).drop_last() =~= b.subrange(0, i));
}

/// Finds the positions of the spaces in `b`.
fn find_spaces(b: &[u8]) -> (r: Vec<usize>)
    ensures
        r@.len() == space_positions(b@).len(),
        forall|k: int| 0 <= k < r@.len() ==> #[trigger] r@[k] as int == space_positions(b@)[k],
{
    let mut r: Vec<usize> = Vec::new();
    let mut i: usize = 0;
    while i < b.len()
        invariant
            i <= b@.len(),
            r@.len() == space_positions(b@.subrange(0, i as int)).len(),
            forall|k: int|
                0 <= k < r@.len() ==> #[trigger] r@[k] as int == space_positions(
                    b@.subrange(0, i as int),
                )[k],
        decreases b@.len() - i,
    {
        proof {
            lemma_space_positions_step(b@, i as int);
        }
        if b[i] == 32 {
            r.push(i);
        }
        i = i + 1;
    }
    assert(b@.subrange(0, b@.len() as int) =~= b@);
    r
}

/// The bounds of field `k` of `b`.
fn field_bounds(b: &[u8], spaces: &Vec<usize>, k: usize) -> (r: (usize, usize))
    requires
        spaces@.len() == space_positions(b@).len(),
        forall|j: int|
            0 <= j < spaces@.len() ==> #[trigger] spaces@[j] as int == space_positions(b@)[j],
        k <= spaces@.len(),
    ensures
        r.0 <= r.1 <= b@.len(),
        b@.subrange(r.0 as int, r.1 as int) == field(b@, k as int),
{
    proof {
        lemma_space_positions(b@);
    }
    let n = b.len();
    let start = if k == 0 {
        0
    } else {
        assert(spaces@[k - 1] < n);
        spaces[k - 1] + 1
    };
    let end = if k < spaces.len() {
        spaces[k]
    } else {
        b.len()
    };
    (start, end)
}

/// Once a placement scan has failed, it stays failed.
proof fn lemma_place_scan_fails(p: Seq<u8>, n: int, k: int)
    requires
        0 <= n <= k <= p.len(),
        !place_scan(p.subrange(0, n)).ok,
    ensures
        !place_scan(p.subrange(0, k)).ok,
    decreases k - n,
{
    if n < k {
        assert(p.subrange(0, n + 1).drop_last() =~= p.subrange(0, n));
        lemma_place_scan_fails(p, n + 1, k);
    }
}

/// A successful scan stays within the board, and the squares from the next one on are empty.
proof fn lemma_place_scan_bounds(p: Seq<u8>)
    ensures
        place_scan(p).squares.len() == 64,
        place_scan(p).ok ==> {
            let st = place_scan(p);
            &&& 0 <= st.row <= 7
            &&& st.row * 8 <= st.sq <= st.row * 8 + 8
            &&& forall|i: int| st.sq <= i < 64 ==> #[trigger] st.squares[i] == empty_square()
            &&& forall|i: int|
                0 <= i < 64 ==> (#[trigger] st.squares[i]).0 <= 6 && st.squares[i].1 <= 1 && (
                st.squares[i].0 == 6 ==> st.squares[i].1 == 0)
        },
    decreases p.len(),
{
    if p.len() > 0 {
        lemma_place_scan_bounds(p.drop_last());
    }
}

/// The piece that a FEN letter stands for, if any.
fn piece_of_letter(c: u8) -> (r: Option<(u8, u8)>)
    ensures
        r == letter_piece(c),
{
    match c {
        80 => Some((PAWN as u8, WHITE as u8)),
        78 => Some((KNIGHT as u8, WHITE as u8)),
        66 => Some((BISHOP as u8, WHITE as u8)),
        82 => Some((ROOK as u8, WHITE as u8)),
        81 => Some((QUEEN as u8, WHITE as u8)),
        75 => Some((KING as u8, WHITE as u8)),
        112 => Some((PAWN as u8, BLACK as u8)),
        110 => Some((KNIGHT as u8, BLACK as u8)),
        98 => Some((BISHOP as u8, BLACK as u8)),
        114 => Some((ROOK as u8, BLACK as u8)),
        113 => Some((QUEEN as u8, BLACK as u8)),
        107 => Some((KING as u8, BLACK as u8)),
        _ => None,
    }
}

/// Whether byte `c` occurs in `r`.
pub open spec fn has_letter(r: Seq<u8>, c: u8) -> bool {
    exists|i: int| 0 <= i < r.len() && r[i] == c
}

/// The board that a well-formed FEN `b` describes: its placement, the side to move, castling
/// rights as listed, an en-passant capture on the given file, and no move played yet.
pub open spec fn fen_board(x: Board, b: Seq<u8>) -> bool {
    let rights = field(b, 2);
    let enp = field(b, 3);
    let st = x.top_state();
    &&& x.wf()
    &&& x.squares() == place_scan(field(b, 0)).squares
    &&& x.side_to_move() == if field(b, 1)[0] == 119 {
        WHITE as u8
    } else {
        BLACK as u8
    }
    &&& x.hist().len() == 1
    &&& x.fullmove() == 0
    &&& st.clock() == 0
    &&& st.ksc(WHITE as u8) == has_letter(rights, 75)
    &&& st.qsc(WHITE as u8) == has_letter(rights, 81)
    &&& st.ksc(BLACK as u8) == has_letter(rights, 107)
    &&& st.qsc(BLACK as u8) == has_letter(rights, 113)
    &&& st.enp() == (enp != seq![45u8])
    &&& st.enp() ==> st.slot() == enp[0] - 97
}

/// Reads the piece placement between `start` and `end`; `None` when it is malformed.
fn parse_placement(b: &[u8], start: usize, end: usize) -> (r: Option<Board>)
    requires
        start <= end <= b@.len(),
    ensures
        r is Some <==> placement_ok(b@.subrange(start as int, end as int)),
        r matches Some(x) ==> {
            &&& x.wf_board()
            &&& x.squares() == place_scan(b@.subrange(start as int, end as int)).squares
            &&& x.turn == WHITE
            &&& x.fullmv_num == 0
            &&& x.history.data@.len() == 1
            &&& x.top_state().raw() == 0
        },
{
    let ghost p = b@.subrange(start as int, end as int);
    let mut board = Board::new_empty();
    let mut sq: u8 = 0;
    let mut row: u8 = 0;
    let mut j: usize = start;
    assert(p.subrange(0, 0) =~= Seq::<u8>::empty());
    assert(board.squares() =~= empty_squares());
    while j < end
        invariant
            start <= j <= end <= b@.len(),
            p == b@.subrange(start as int, end as int),
            place_scan(p.subrange(0, j - start)).ok,
            place_scan(p.subrange(0, j - start)).sq == sq,
            place_scan(p.subrange(0, j - start)).row == row,
            place_scan(p.subrange(0, j - start)).squares == board.squares(),
            board.wf_board(),
            board.turn == WHITE,
            board.fullmv_num == 0,
            board.history.data@.len() == 1,
            board.top_state().raw() == 0,
        decreases end - j,
    {
        let ghost q = p.subrange(0, j - start);
        let ghost q1 = p.subrange(0, j - start + 1);
        proof {
            assert(q1.drop_last() =~= q);
            assert(q1.last() == b@[j as int]);
            lemma_place_scan_bounds(q);
        }
        let c = b[j];
        let row_end: u8 = row * 8 + 8;
        if 49 <= c && c <= 56 {
            let n = c - 48;
            if sq + n <= row_end {
                sq = sq + n;
            } else {
                proof {
                    lemma_place_scan_fails(p, j - start + 1, p.len() as int);
                    assert(p.subrange(0, p.len() as int) =~= p);
                }
                return None;
            }
        } else if c == 47 {
            if sq == row_end && row < 7 {
                row = row + 1;
            } else {
                proof {
                    lemma_place_scan_fails(p, j - start + 1, p.len() as int);
                    assert(p.subrange(0, p.len() as int) =~= p);
                }
                return None;
            }
        } else {
            match piece_of_letter(c) {
                Some((kind, color)) => {
                    if sq + 1 <= row_end {
                        board.write_piece(sq, kind, color);
                        sq = sq + 1;
                    } else {
                        proof {
                            lemma_place_scan_fails(p, j - start + 1, p.len() as int);
                            assert(p.subrange(0, p.len() as int) =~= p);
                        }
                        return None;
                    }
                },
                None => {
                    proof {
                        lemma_place_scan_fails(p, j - start + 1, p.len() as int);
                        assert(p.subrange(0, p.len() as int) =~= p);
                    }
                    return None;
                },
            }
        }
        j = j + 1;
    }
    assert(p.subrange(0, end - start) =~= p);
    if sq != 64 {
        return None;
    }
    Some(board)
}

/// Reads the castling rights between `start` and `end` into a state with nothing else set;
/// `None` when the field is malformed.
fn parse_rights(b: &[u8], start: usize, end: usize) -> (r: Option<HistState>)
    requires
        start <= end <= b@.len(),
    ensures
        r is Some <==> rights_ok(b@.subrange(start as int, end as int)),
        r matches Some(st) ==> {
            let rights = b@.subrange(start as int, end as int);
            &&& st.wf()
            &&& st.clock() == 0
            &&& !st.enp()
            &&& st.ksc(WHITE as u8) == has_letter(rights, 75)
            &&& st.qsc(WHITE as u8) == has_letter(rights, 81)
            &&& st.ksc(BLACK as u8) == has_letter(rights, 107)
            &&& st.qsc(BLACK as u8) == has_letter(rights, 113)
        },
{
    let ghost p = b@.subrange(start as int, end as int);
    let mut st = HistState::from_data(0);
    proof {
        crate::hist_state::lemma_zero_state();
    }
    if end - start < 1 || end - start > 4 {
        return None;
    }
    if end - start == 1 && b[start] == 45 {
        assert(p =~= seq![45u8]);
        assert(!has_letter(p, 75) && !has_letter(p, 81) && !has_letter(p, 107) && !has_letter(
            p,
            113,
        ));
        return Some(st);
    }
    assert(p != seq![45u8]) by {
        if end - start == 1 {
            assert(p[0] == b@[start as int]);
        } else {
            assert(p.len() != seq![45u8].len());
        }
    }
    let mut j: usize = start;
    while j < end
        invariant
            start <= j <= end <= b@.len(),
            p == b@.subrange(start as int, end as int),
            p != seq![45u8],
            1 <= p.len() <= 4,
            forall|i: int| 0 <= i < j - start ==> is_right_letter(#[trigger] p[i]),
            st.wf(),
            st.clock() == 0,
            !st.enp(),
            st.ksc(WHITE as u8) == has_letter(p.subrange(0, j - start), 75),
            st.qsc(WHITE as u8) == has_letter(p.subrange(0, j - start), 81),
            st.ksc(BLACK as u8) == has_letter(p.subrange(0, j - start), 107),
            st.qsc(BLACK as u8) == has_letter(p.subrange(0, j - start), 113),
        decreases end - j,
    {
        let c = b[j];
        let ghost q = p.subrange(0, j - start);
        let ghost q1 = p.subrange(0, j - start + 1);
        proof {
            assert(q1 =~= q.push(c));
            assert forall|x: u8| #[trigger] has_letter(q1, x) == (has_letter(q, x) || c == x) by {
                if c == x {
                    assert(q1[q.len() as int] == x);
                }
                if has_letter(q, x) {
                    let i = choose|i: int| 0 <= i < q.len() && q[i] == x;
                    assert(q1[i] == x);
                }
                if has_letter(q1, x) {
                    let i = choose|i: int| 0 <= i < q1.len() && q1[i] == x;
                    if i < q.len() {
                        assert(q[i] == x);
                    }
                }
            }
        }
        let ghost before = st;
        if c == 75 {
            st.add_ksc_right(WHITE as u8);
        } else if c == 81 {
            st.add_qsc_right(WHITE as u8);
        } else if c == 107 {
            st.add_ksc_right(BLACK as u8);
        } else if c == 113 {
            st.add_qsc_right(BLACK as u8);
        } else {
            assert(p[j - start] == c);
            assert(!is_right_letter(c));
            return None;
        }
        proof {
            crate::hist_state::lemma_state_parts(before, st);
        }
        j = j + 1;
    }
    assert(p.subrange(0, end - start) =~= p);
    Some(st)
}

impl Board {
    /// Reads a position from FEN: piece placement, side to move, castling rights, en-passant
    /// file (`-` or one letter), halfmove clock and fullmove number, separated by single spaces. The last two are
    /// not read. A malformed field gives the error of its kind.
    pub fn from_fen(fen: &str) -> (r: Result<Board, FenError>)
        ensures
            match r {
                Ok(x) => fen_error(fen.spec_bytes()) is None && fen_board(x, fen.spec_bytes()),
                Err(e) => fen_error(fen.spec_bytes()) == Some(e),
            },
    {
        let b = fen.as_bytes();
        let ghost bs = fen.spec_bytes();
        let spaces = find_spaces(b);
        if spaces.len() < 5 {
            return Err(FenError::FenTooShort);
        }
        let (ts, te) = field_bounds(b, &spaces, 1);
        if te - ts != 1 || (b[ts] != 119 && b[ts] != 98) {
            return Err(FenError::FenBadTurn);
        }
        let turn: u8 = if b[ts] == 119 {
            WHITE as u8
        } else {
            BLACK as u8
        };
        let (rs, re) = field_bounds(b, &spaces, 2);
        let mut state = match parse_rights(b, rs, re) {
            Some(st) => st,
            None => {
                return Err(FenError::FenBadRights);
            },
        };
        let (es, ee) = field_bounds(b, &spaces, 3);
        let ghost e = b@.subrange(es as int, ee as int);
        let n = ee - es;
        let enp_ok = if n == 1 && b[es] == 45 {
            assert(e =~= seq![45u8]);
            true
        } else if n == 1 {
            97 <= b[es] && b[es] <= 104
        } else {
            false
        };
        if !enp_ok {
            assert(!crate::fen::enp_ok(e)) by {
                if n == 1 {
                    assert(e[0] == b@[es as int]);
                } else {
                    assert(e.len() != seq![45u8].len());
                }
            }
            return Err(FenError::FenBadEnPassant);
        }
        if !(n == 1 && b[es] == 45) {
            assert(e != seq![45u8]) by {
                if n == 1 {
                    assert(e[0] != 45);
                }
            }
            let ghost before = state;
            state.set_enp(b[es] - 97);
            proof {
                crate::hist_state::lemma_state_parts(before, state);
            }
        }
        let (ps, pe) = field_bounds(b, &spaces, 0);
        let mut board = match parse_placement(b, ps, pe) {
            Some(x) => x,
            None => {
                return Err(FenError::FenBadPlacement);
            },
        };
        board.turn = turn;
        board.history = BoardHistory {
            data: vec![HistoryElement { last_move: Move::invalid(), new_state: state }],
        };
        assert(history_consistent(board.squares(), board.turn, board.history.data@));
        Ok(board)
    }
}

} // verus!
