use vstd::prelude::*;
use crate::bitboard::{self, BitBoard, is_set, lemma_has_ops, lemma_bits_ext};
use crate::hist_state::{self, HistState};
use crate::mailbox::{self, Mailbox};
use crate::moves::{
    Move, is_move_kind, lemma_move_squares, QUIET, DOUBLE_PAWN_PUSH, KING_SIDE_CASTLE, QUEEN_SIDE_CASTLE, CAPTURE, ENPASSANT,
    KNIGHT_PROMO, BISHOP_PROMO, ROOK_PROMO, QUEEN_PROMO, KNIGHT_PROMO_CAPTURE, BISHOP_PROMO_CAPTURE,
    ROOK_PROMO_CAPTURE, QUEEN_PROMO_CAPTURE,
};

verus! {

pub const BLACK: usize = 0;
pub const WHITE: usize = 1;

pub const PAWN: usize = 0;
pub const KNIGHT: usize = 1;
pub const BISHOP: usize = 2;
pub const ROOK: usize = 3;
pub const QUEEN: usize = 4;
pub const KING: usize = 5;
pub const EMPTY: usize = 6;

/// A move that was played, with the irreversible state after it.
#[derive(Clone, Copy)]
pub struct HistoryElement {
    pub last_move: Move,
    pub new_state: HistState,
}

/// The moves played so far; the first element holds the state of the starting position.
pub struct BoardHistory {
    pub data: Vec<HistoryElement>,
}

/// Why a FEN string was refused: one kind per malformed field.
#[derive(Clone, Copy, Debug, PartialEq, Eq, Structural)]
pub enum FenError {
    /// Fewer than six space-separated fields.
    FenTooShort,
    /// The side to move is not `w` or `b`.
    FenBadTurn,
    /// The castling rights are not `-` or one to four of `KQkq`.
    FenBadRights,
    /// The en-passant field is not `-` or a single file letter.
    FenBadEnPassant,
    /// The piece placement has an unknown character, a row that is too long or too short, an
    /// unexpected `/`, or not 64 squares.
    FenBadPlacement,
}

impl FenError {
    /// A human-readable cause of the error.
    pub fn message(&self) -> (r: String)
        ensures
            r@ == fen_error_text(*self),
    {
        let s: &str = match self {
            FenError::FenTooShort => "fen too short",
            FenError::FenBadTurn => "malformed fen turn",
            FenError::FenBadRights => "malformed fen rights",
            FenError::FenBadEnPassant => "malformed fen en passant",
            FenError::FenBadPlacement => "malformed fen piece placement",
        };
        s.to_owned()
    }
}

/// The text of each FEN error.
pub open spec fn fen_error_text(e: FenError) -> Seq<char> {
    match e {
        FenError::FenTooShort => "fen too short"@,
        FenError::FenBadTurn => "malformed fen turn"@,
        FenError::FenBadRights => "malformed fen rights"@,
        FenError::FenBadEnPassant => "malformed fen en passant"@,
        FenError::FenBadPlacement => "malformed fen piece placement"@,
    }
}

/// A chess position: per-side and per-piece bitboards, a mailbox of piece kinds, the side to
/// move and the history that unmaking moves needs.
pub struct Board {
    pub(crate) bitboard: BitBoard,
    pub(crate) mailbox: Mailbox,
    pub(crate) history: BoardHistory,
    pub(crate) turn: u8,
    pub(crate) fullmv_num: u32,
}

/// What stands on a square: a piece kind (`EMPTY` for none) and a side (0 for an empty
/// square).
pub type SquareContent = (u8, u8);

pub open spec fn empty_square() -> SquareContent {
    (EMPTY as u8, 0u8)
}

/// The square and contents of the bitboards and the mailbox agree on square `s`.
pub open spec fn square_ok(b: BitBoard, mb: [u8; 64], s: u64) -> bool {
    &&& mb[s as int] <= 6
    &&& is_set(b.occupancy, s) == (mb[s as int] != 6)
    &&& !(is_set(b.color[0], s) && is_set(b.color[1], s))
    &&& is_set(b.occupancy, s) == (is_set(b.color[0], s) || is_set(b.color[1], s))
    &&& forall|c: int, k: int|
        0 <= c < 2 && 0 <= k < 6 ==> #[trigger] is_set(b.piece[c][k], s) == (mb[s as int] == k
            && is_set(b.color[c], s))
}

/// The square reached by moving `to` one row back toward side `turn`.
pub open spec fn behind(turn: u8, to: int) -> int {
    if turn == WHITE {
        to + 8
    } else {
        to - 8
    }
}

/// The king's square after castling.
pub open spec fn castle_king_to(turn: u8, king_side: bool) -> int {
    if king_side {
        if turn == WHITE {
            mailbox::WHITE_KING_SIDE_CASTLE_TARGET as int
        } else {
            mailbox::BLACK_KING_SIDE_CASTLE_TARGET as int
        }
    } else {
        if turn == WHITE {
            mailbox::WHITE_QUEEN_SIDE_CASTLE_TARGET as int
        } else {
            mailbox::BLACK_QUEEN_SIDE_CASTLE_TARGET as int
        }
    }
}

/// The rook's square before castling.
pub open spec fn castle_rook_from(turn: u8, king_side: bool) -> int {
    if king_side {
        hist_state::ks_rook_start(turn) as int
    } else {
        hist_state::qs_rook_start(turn) as int
    }
}

/// The rook's square after castling.
pub open spec fn castle_rook_to(turn: u8, king_side: bool) -> int {
    if king_side {
        if turn == WHITE {
            mailbox::WHITE_KING_SIDE_ROOK_TARGET as int
        } else {
            mailbox::BLACK_KING_SIDE_ROOK_TARGET as int
        }
    } else {
        if turn == WHITE {
            mailbox::WHITE_QUEEN_SIDE_ROOK_TARGET as int
        } else {
            mailbox::BLACK_QUEEN_SIDE_ROOK_TARGET as int
        }
    }
}

pub open spec fn is_promo(flags: u16) -> bool {
    flags == KNIGHT_PROMO || flags == BISHOP_PROMO || flags == ROOK_PROMO || flags == QUEEN_PROMO
}

pub open spec fn is_promo_capture(flags: u16) -> bool {
    flags == KNIGHT_PROMO_CAPTURE || flags == BISHOP_PROMO_CAPTURE || flags == ROOK_PROMO_CAPTURE
        || flags == QUEEN_PROMO_CAPTURE
}

/// The piece kind that a promotion creates.
pub open spec fn promo_kind(flags: u16) -> u8 {
    if flags == KNIGHT_PROMO || flags == KNIGHT_PROMO_CAPTURE {
        KNIGHT as u8
    } else if flags == BISHOP_PROMO || flags == BISHOP_PROMO_CAPTURE {
        BISHOP as u8
    } else if flags == ROOK_PROMO || flags == ROOK_PROMO_CAPTURE {
        ROOK as u8
    } else {
        QUEEN as u8
    }
}

/// A piece of side `c` stands on the square.
pub open spec fn piece_of(x: SquareContent, c: u8) -> bool {
    x.0 < 6 && x.1 == c
}

/// Whether move `m` can be played by side `turn` on the squares `s`: its origin holds a piece
/// of the mover, and every square that it fills or empties holds what its kind expects.
pub open spec fn applicable(s: Seq<SquareContent>, turn: u8, m: Move) -> bool {
    let from = m.from_sq() as int;
    let to = m.to_sq() as int;
    let f = m.flags();
    let enemy = (1 - turn) as u8;
    &&& s.len() == 64
    &&& turn <= 1
    &&& is_move_kind(f)
    &&& if f == KING_SIDE_CASTLE || f == QUEEN_SIDE_CASTLE {
        let ks = f == KING_SIDE_CASTLE;
        &&& s[hist_state::king_start(turn) as int] == (KING as u8, turn)
        &&& s[castle_rook_from(turn, ks)] == (ROOK as u8, turn)
        &&& s[castle_king_to(turn, ks)] == empty_square()
        &&& s[castle_rook_to(turn, ks)] == empty_square()
    } else {
        &&& from != to
        &&& piece_of(s[from], turn)
        &&& (f == CAPTURE || is_promo_capture(f)) ==> piece_of(s[to], enemy)
        &&& !(f == CAPTURE || is_promo_capture(f)) ==> s[to] == empty_square()
        &&& (f == DOUBLE_PAWN_PUSH || f == ENPASSANT || is_promo(f) || is_promo_capture(f))
            ==> s[from].0 == PAWN
        &&& f == ENPASSANT ==> {
            &&& 0 <= behind(turn, to) < 64
            &&& behind(turn, to) != from
            &&& s[behind(turn, to)] == (PAWN as u8, enemy)
        }
    }
}

/// The squares after side `turn` plays `m`.
pub open spec fn make_squares(s: Seq<SquareContent>, turn: u8, m: Move) -> Seq<SquareContent> {
    let from = m.from_sq() as int;
    let to = m.to_sq() as int;
    let f = m.flags();
    if f == KING_SIDE_CASTLE || f == QUEEN_SIDE_CASTLE {
        let ks = f == KING_SIDE_CASTLE;
        s.update(hist_state::king_start(turn) as int, empty_square()).update(
            castle_king_to(turn, ks),
            (KING as u8, turn),
        ).update(castle_rook_from(turn, ks), empty_square()).update(
            castle_rook_to(turn, ks),
            (ROOK as u8, turn),
        )
    } else if f == ENPASSANT {
        s.update(from, empty_square()).update(to, (PAWN as u8, turn)).update(
            behind(turn, to),
            empty_square(),
        )
    } else if is_promo(f) || is_promo_capture(f) {
        s.update(from, empty_square()).update(to, (promo_kind(f), turn))
    } else {
        s.update(to, s[from]).update(from, empty_square())
    }
}

/// The squares after side `turn` takes back `m`, which captured a piece of kind `captured`.
pub open spec fn unmake_squares(s: Seq<SquareContent>, turn: u8, m: Move, captured: u8) -> Seq<
    SquareContent,
> {
    let from = m.from_sq() as int;
    let to = m.to_sq() as int;
    let f = m.flags();
    let enemy = (1 - turn) as u8;
    if f == KING_SIDE_CASTLE || f == QUEEN_SIDE_CASTLE {
        let ks = f == KING_SIDE_CASTLE;
        s.update(castle_king_to(turn, ks), empty_square()).update(
            hist_state::king_start(turn) as int,
            (KING as u8, turn),
        ).update(castle_rook_to(turn, ks), empty_square()).update(
            castle_rook_from(turn, ks),
            (ROOK as u8, turn),
        )
    } else if f == ENPASSANT {
        s.update(to, empty_square()).update(from, (PAWN as u8, turn)).update(
            behind(turn, to),
            (PAWN as u8, enemy),
        )
    } else if is_promo(f) {
        s.update(to, empty_square()).update(from, (PAWN as u8, turn))
    } else if is_promo_capture(f) {
        s.update(to, (captured, enemy)).update(from, (PAWN as u8, turn))
    } else if f == CAPTURE {
        s.update(from, s[to]).update(to, (captured, enemy))
    } else {
        s.update(from, s[to]).update(to, empty_square())
    }
}

/// The kind of the piece that `m` captures: `EMPTY` when it captures none.
pub open spec fn captured_kind(s: Seq<SquareContent>, m: Move) -> u8 {
    let f = m.flags();
    if f == CAPTURE || is_promo_capture(f) {
        s[m.to_sq() as int].0
    } else if f == ENPASSANT {
        PAWN as u8
    } else {
        EMPTY as u8
    }
}

/// Whether the history, taken back move by move from the squares `s` with `turn` to move,
/// finds at each step the squares that the move left.
pub open spec fn history_consistent(
    s: Seq<SquareContent>,
    turn: u8,
    h: Seq<HistoryElement>,
) -> bool
    decreases h.len(),
{
    if h.len() <= 1 {
        true
    } else {
        let e = h.last();
        let mover = (1 - turn) as u8;
        let before = unmake_squares(s, mover, e.last_move, e.new_state.slot() as u8);
        &&& applicable(before, mover, e.last_move)
        &&& make_squares(before, mover, e.last_move) == s
        &&& e.last_move.flags() != DOUBLE_PAWN_PUSH ==> captured_kind(before, e.last_move)
            == e.new_state.slot()
        &&& history_consistent(before, mover, h.drop_last())
    }
}

impl Board {
    /// What stands on each square.
    pub open(crate) spec fn squares(&self) -> Seq<SquareContent> {
        Seq::new(
            64,
            |i: int|
                (
                    self.mailbox.data[i],
                    if is_set(self.bitboard.color[1], i as u64) {
                        1u8
                    } else {
                        0u8
                    },
                ),
        )
    }

    /// The bitboards and the mailbox describe the same position.
    pub open(crate) spec fn wf_board(&self) -> bool {
        forall|s: u64| s < 64 ==> #[trigger] square_ok(self.bitboard, self.mailbox.data, s)
    }

    /// The position is consistent, and so is the history that leads to it.
    pub open(crate) spec fn wf(&self) -> bool {
        &&& self.wf_board()
        &&& self.turn <= 1
        &&& self.history.data@.len() >= 1
        &&& history_consistent(self.squares(), self.turn, self.history.data@)
    }

    pub open(crate) spec fn side_to_move(&self) -> u8 {
        self.turn
    }

    pub open(crate) spec fn fullmove(&self) -> u32 {
        self.fullmv_num
    }

    pub open(crate) spec fn hist(&self) -> Seq<HistoryElement> {
        self.history.data@
    }

    /// The irreversible state of the position.
    pub open(crate) spec fn top_state(&self) -> HistState {
        self.history.data@.last().new_state
    }

    pub open(crate) spec fn kinds(&self) -> [u8; 64] {
        self.mailbox.data
    }

    pub open(crate) spec fn bits(&self) -> BitBoard {
        self.bitboard
    }

    /// Two positions that agree everywhere but on the squares, whose squares are `s`.
    pub open(crate) spec fn same_but_squares(&self, other: &Board, s: Seq<SquareContent>) -> bool {
        &&& other.wf_board()
        &&& other.squares() == s
        &&& other.history == self.history
        &&& other.turn == self.turn
        &&& other.fullmv_num == self.fullmv_num
    }

    /// The kind of the piece on a square given by row and column, or `EMPTY`.
    pub fn type_at(&self, row: u8, col: u8) -> (r: u8)
        requires
            row < 8,
            col < 8,
        ensures
            r == self.squares()[row * 8 + col].0,
    {
        self.mailbox.at(row, col)
    }

    /// The kind of the piece on a square, or `EMPTY`.
    pub fn type_at_sq(&self, sq: u8) -> (r: u8)
        requires
            sq < 64,
        ensures
            r == self.squares()[sq as int].0,
    {
        self.mailbox.at_sq(sq)
    }

    /// The side of the piece on a square given by row and column (0 for an empty square).
    pub fn color_at(&self, row: u8, col: u8) -> (r: u8)
        requires
            row < 8,
            col < 8,
        ensures
            r == self.squares()[row * 8 + col].1,
    {
        self.color_at_sq(row * 8 + col)
    }

    /// The side of the piece on a square (0 for an empty square).
    pub fn color_at_sq(&self, sq: u8) -> (r: u8)
        requires
            sq < 64,
        ensures
            r == self.squares()[sq as int].1,
    {
        if self.bitboard.color[WHITE] & (1u64 << sq) == 0 {
            0
        } else {
            1
        }
    }

    /// The board as letters, row by row from the top: `pnbrqk`, upper case for white.
    pub fn str_rep(&self) -> (r: Box<[[char; 8]; 8]>)
        ensures
            forall|row: int, col: int|
                0 <= row < 8 && 0 <= col < 8 ==> #[trigger] r[row][col] == piece_letter(
                    self.squares()[row * 8 + col],
                ),
    {
        self.diagram(false)
    }

    /// The board as chess symbols, row by row from the top.
    pub fn str_rep_utf8(&self) -> (r: Box<[[char; 8]; 8]>)
        ensures
            forall|row: int, col: int|
                0 <= row < 8 && 0 <= col < 8 ==> #[trigger] r[row][col] == piece_symbol(
                    self.squares()[row * 8 + col],
                ),
    {
        self.diagram(true)
    }

    fn diagram(&self, symbols: bool) -> (r: Box<[[char; 8]; 8]>)
        ensures
            forall|row: int, col: int|
                0 <= row < 8 && 0 <= col < 8 ==> #[trigger] r[row][col] == if symbols {
                    piece_symbol(self.squares()[row * 8 + col])
                } else {
                    piece_letter(self.squares()[row * 8 + col])
                },
    {
        let mut arr: [[char; 8]; 8] = [[' '; 8]; 8];
        let mut row: u8 = 0;
        while row < 8
            invariant
                row <= 8,
                forall|i: int, col: int|
                    0 <= i < row && 0 <= col < 8 ==> #[trigger] arr[i][col] == if symbols {
                        piece_symbol(self.squares()[i * 8 + col])
                    } else {
                        piece_letter(self.squares()[i * 8 + col])
                    },
            decreases 8 - row,
        {
            let mut line: [char; 8] = [' '; 8];
            let mut col: u8 = 0;
            while col < 8
                invariant
                    row < 8,
                    col <= 8,
                    forall|j: int|
                        0 <= j < col ==> #[trigger] line[j] == if symbols {
                            piece_symbol(self.squares()[row * 8 + j])
                        } else {
                            piece_letter(self.squares()[row * 8 + j])
                        },
                decreases 8 - col,
            {
                let kind = self.type_at(row, col);
                let color = self.color_at(row, col);
                line[col as usize] = if symbols {
                    symbol_of(kind, color)
                } else {
                    letter_of(kind, color)
                };
                col = col + 1;
            }
            arr[row as usize] = line;
            row = row + 1;
        }
        Box::new(arr)
    }

    /// The side to move: `WHITE` or `BLACK`.
    pub fn get_turn(&self) -> (r: u8)
        ensures
            r == self.side_to_move(),
    {
        self.turn
    }

    /// The side not to move.
    pub fn enemy_color(&self) -> (r: u8)
        requires
            self.side_to_move() <= 1,
        ensures
            r == 1 - self.side_to_move(),
    {
        1 - self.turn
    }

    /// The irreversible state of the position: castling rights, en passant, the halfmove
    /// clock.
    pub fn state(&self) -> (r: HistState)
        requires
            self.wf(),
        ensures
            r == self.top_state(),
    {
        self.history.data[self.history.data.len() - 1].new_state
    }

    /// The number of moves played that `unmake` can take back.
    pub fn ply_count(&self) -> (r: usize)
        requires
            self.wf(),
        ensures
            r == self.hist().len() - 1,
    {
        self.history.data.len() - 1
    }

    /// A copy of the bitboards.
    pub fn bitboards(&self) -> (r: BitBoard)
        ensures
            r == self.bits(),
    {
        self.bitboard
    }

    /// An empty board with white to move and no castling rights.
    pub(crate) fn new_empty() -> (r: Self)
        ensures
            r.wf_board(),
            r.squares() == Seq::new(64, |i: int| empty_square()),
            r.turn == WHITE,
            r.fullmv_num == 0,
            r.history.data@.len() == 1,
            r.top_state().raw() == 0,
    {
        let root = HistoryElement { last_move: Move::invalid(), new_state: HistState::from_data(0) };
        let b = Board {
            bitboard: BitBoard::new_empty(),
            mailbox: Mailbox::new_empty(),
            history: BoardHistory { data: vec![root] },
            turn: WHITE as u8,
            fullmv_num: 0,
        };
        proof {
            lemma_has_ops();
            assert forall|t: u64| t < 64 implies #[trigger] square_ok(
                b.bitboard,
                b.mailbox.data,
                t,
            ) by {
                assert(b.bitboard.piece[0][0] == 0);
            }
            assert(b.squares() =~= Seq::new(64, |i: int| empty_square()));
        }
        b
    }

    /// Places a piece on an empty square.
    pub(crate) fn write_piece(&mut self, sq: u8, ptype: u8, pcolor: u8)
        requires
            old(self).wf_board(),
            sq < 64,
            ptype < 6,
            pcolor < 2,
            old(self).squares()[sq as int] == empty_square(),
        ensures
            old(self).same_but_squares(
                final(self),
                old(self).squares().update(sq as int, (ptype, pcolor)),
            ),
    {
        let b: u64 = 1u64 << sq;
        let ghost old_b = self.bitboard;
        let ghost old_mb = self.mailbox.data;
        self.mailbox.data[sq as usize] = ptype;
        let mut row = self.bitboard.piece[pcolor as usize];
        row[ptype as usize] = row[ptype as usize] | b;
        self.bitboard.piece[pcolor as usize] = row;
        self.bitboard.color[pcolor as usize] = self.bitboard.color[pcolor as usize] | b;
        self.bitboard.occupancy = self.bitboard.occupancy | b;
        proof {
            lemma_has_ops();
            assert forall|t: u64| t < 64 implies #[trigger] square_ok(
                self.bitboard,
                self.mailbox.data,
                t,
            ) by {
                assert(square_ok(old_b, old_mb, t));
                assert(square_ok(old_b, old_mb, sq as u64));
            }
            assert(self.squares() =~= old(self).squares().update(sq as int, (ptype, pcolor)));
        }
    }

    /// Removes the piece of kind `old_ptype` and side `old_pcolor` from a square.
    fn delete_piece(&mut self, sq: u8, old_ptype: u8, old_pcolor: u8)
        requires
            old(self).wf_board(),
            sq < 64,
            old(self).squares()[sq as int] == (old_ptype, old_pcolor),
            old_ptype < 6,
            old_pcolor < 2,
        ensures
            old(self).same_but_squares(
                final(self),
                old(self).squares().update(sq as int, empty_square()),
            ),
    {
        let b: u64 = 1u64 << sq;
        let ghost old_b = self.bitboard;
        let ghost old_mb = self.mailbox.data;
        self.mailbox.data[sq as usize] = EMPTY as u8;
        let mut row = self.bitboard.piece[old_pcolor as usize];
        row[old_ptype as usize] = row[old_ptype as usize] & !b;
        self.bitboard.piece[old_pcolor as usize] = row;
        self.bitboard.color[old_pcolor as usize] = self.bitboard.color[old_pcolor as usize] & !b;
        self.bitboard.occupancy = self.bitboard.occupancy & !b;
        proof {
            lemma_has_ops();
            assert forall|t: u64| t < 64 implies #[trigger] square_ok(
                self.bitboard,
                self.mailbox.data,
                t,
            ) by {
                assert(square_ok(old_b, old_mb, t));
                assert(square_ok(old_b, old_mb, sq as u64));
            }
            assert(self.squares() =~= old(self).squares().update(sq as int, empty_square()));
        }
    }

    /// Replaces the piece on an occupied square by another.
    fn replace_piece(&mut self, sq: u8, ptype: u8, pcolor: u8, old_ptype: u8, old_pcolor: u8)
        requires
            old(self).wf_board(),
            sq < 64,
            old(self).squares()[sq as int] == (old_ptype, old_pcolor),
            old_ptype < 6,
            old_pcolor < 2,
            ptype < 6,
            pcolor < 2,
        ensures
            old(self).same_but_squares(
                final(self),
                old(self).squares().update(sq as int, (ptype, pcolor)),
            ),
    {
        self.delete_piece(sq, old_ptype, old_pcolor);
        self.write_piece(sq, ptype, pcolor);
        proof {
            assert(old(self).squares().update(sq as int, empty_square()).update(
                sq as int,
                (ptype, pcolor),
            ) =~= old(self).squares().update(sq as int, (ptype, pcolor)));
        }
    }
}

/// The letter of a piece in text diagrams: `pnbrqk`, upper case for white, a space for an empty
/// square.
pub open spec fn piece_letter(x: SquareContent) -> char {
    let c = if x.0 == PAWN {
        'p'
    } else if x.0 == KNIGHT {
        'n'
    } else if x.0 == BISHOP {
        'b'
    } else if x.0 == ROOK {
        'r'
    } else if x.0 == QUEEN {
        'q'
    } else if x.0 == KING {
        'k'
    } else {
        ' '
    };
    if x.1 == WHITE && x.0 < 6 {
        ((c as u8) - 32) as char
    } else {
        c
    }
}

/// The chess symbol of a piece, a space for an empty square.
pub open spec fn piece_symbol(x: SquareContent) -> char {
    let white = x.1 == WHITE;
    if x.0 == PAWN {
        if white { '\u{2659}' } else { '\u{265F}' }
    } else if x.0 == KNIGHT {
        if white { '\u{2658}' } else { '\u{265E}' }
    } else if x.0 == BISHOP {
        if white { '\u{2657}' } else { '\u{265D}' }
    } else if x.0 == ROOK {
        if white { '\u{2656}' } else { '\u{265C}' }
    } else if x.0 == QUEEN {
        if white { '\u{2655}' } else { '\u{265B}' }
    } else if x.0 == KING {
        if white { '\u{2654}' } else { '\u{265A}' }
    } else {
        ' '
    }
}

fn letter_of(kind: u8, color: u8) -> (r: char)
    ensures
        r == piece_letter((kind, color)),
{
    let c = if kind == PAWN as u8 {
        'p'
    } else if kind == KNIGHT as u8 {
        'n'
    } else if kind == BISHOP as u8 {
        'b'
    } else if kind == ROOK as u8 {
        'r'
    } else if kind == QUEEN as u8 {
        'q'
    } else if kind == KING as u8 {
        'k'
    } else {
        ' '
    };
    if color == WHITE as u8 && kind < 6 {
        ((c as u8) - 32) as char
    } else {
        c
    }
}

fn symbol_of(kind: u8, color: u8) -> (r: char)
    ensures
        r == piece_symbol((kind, color)),
{
    let white = color == WHITE as u8;
    if kind == PAWN as u8 {
        if white { '\u{2659}' } else { '\u{265F}' }
    } else if kind == KNIGHT as u8 {
        if white { '\u{2658}' } else { '\u{265E}' }
    } else if kind == BISHOP as u8 {
        if white { '\u{2657}' } else { '\u{265D}' }
    } else if kind == ROOK as u8 {
        if white { '\u{2656}' } else { '\u{265C}' }
    } else if kind == QUEEN as u8 {
        if white { '\u{2655}' } else { '\u{265B}' }
    } else if kind == KING as u8 {
        if white { '\u{2654}' } else { '\u{265A}' }
    } else {
        ' '
    }
}

/// The four squares of a castle: king from and to, rook from and to.
fn castle_squares(turn: u8, king_side: bool) -> (r: (u8, u8, u8, u8))
    requires
        turn <= 1,
    ensures
        r.0 == hist_state::king_start(turn),
        r.1 == castle_king_to(turn, king_side),
        r.2 == castle_rook_from(turn, king_side),
        r.3 == castle_rook_to(turn, king_side),
{
    if turn == WHITE as u8 {
        if king_side {
            (
                mailbox::WHITE_KING_START,
                mailbox::WHITE_KING_SIDE_CASTLE_TARGET,
                mailbox::WHITE_KING_SIDE_ROOK_START,
                mailbox::WHITE_KING_SIDE_ROOK_TARGET,
            )
        } else {
            (
                mailbox::WHITE_KING_START,
                mailbox::WHITE_QUEEN_SIDE_CASTLE_TARGET,
                mailbox::WHITE_QUEEN_SIDE_ROOK_START,
                mailbox::WHITE_QUEEN_SIDE_ROOK_TARGET,
            )
        }
    } else {
        if king_side {
            (
                mailbox::BLACK_KING_START,
                mailbox::BLACK_KING_SIDE_CASTLE_TARGET,
                mailbox::BLACK_KING_SIDE_ROOK_START,
                mailbox::BLACK_KING_SIDE_ROOK_TARGET,
            )
        } else {
            (
                mailbox::BLACK_KING_START,
                mailbox::BLACK_QUEEN_SIDE_CASTLE_TARGET,
                mailbox::BLACK_QUEEN_SIDE_ROOK_START,
                mailbox::BLACK_QUEEN_SIDE_ROOK_TARGET,
            )
        }
    }
}

fn promo_piece(flags: u16) -> (r: u8)
    ensures
        r == promo_kind(flags),
{
    if flags == KNIGHT_PROMO || flags == KNIGHT_PROMO_CAPTURE {
        KNIGHT as u8
    } else if flags == BISHOP_PROMO || flags == BISHOP_PROMO_CAPTURE {
        BISHOP as u8
    } else if flags == ROOK_PROMO || flags == ROOK_PROMO_CAPTURE {
        ROOK as u8
    } else {
        QUEEN as u8
    }
}

/// The irreversible state `st` after side `turn` plays `m` from squares `s` and state `prev`:
/// the halfmove clock is kept, a double pawn push makes an en-passant capture available on its
/// column, any other move records the kind of the piece it captures, and castling rights decay.
pub open spec fn state_after(
    prev: HistState,
    s: Seq<SquareContent>,
    turn: u8,
    m: Move,
    st: HistState,
) -> bool {
    let f = m.flags();
    let castle = f == KING_SIDE_CASTLE || f == QUEEN_SIDE_CASTLE;
    let from = m.from_sq() as u8;
    let to = m.to_sq() as u8;
    &&& st.clock() == prev.clock()
    &&& f == DOUBLE_PAWN_PUSH ==> st.enp() && st.slot() == m.to_sq() % 8
    &&& f != DOUBLE_PAWN_PUSH ==> !st.enp() && st.slot() == captured_kind(s, m)
    &&& forall|c: u8|
        c <= 1 ==> #[trigger] st.ksc(c) == (prev.ksc(c) && !(castle && c == turn) && !(!castle
            && hist_state::loses_ksc(c, turn, to, from)))
    &&& forall|c: u8|
        c <= 1 ==> #[trigger] st.qsc(c) == (prev.qsc(c) && !(castle && c == turn) && !(!castle
            && hist_state::loses_qsc(c, turn, to, from)))
}

/// What `make` of move `m` leaves in `after` when played on `before`.
pub open spec fn make_result(before: Board, after: Board, m: Move) -> bool {
    &&& after.squares() == make_squares(before.squares(), before.side_to_move(), m)
    &&& after.side_to_move() == 1 - before.side_to_move()
    &&& after.fullmove() == before.fullmove()
    &&& after.hist().len() == before.hist().len() + 1
    &&& after.hist().drop_last() == before.hist()
    &&& after.hist().last().last_move == m
    &&& state_after(
        before.top_state(),
        before.squares(),
        before.side_to_move(),
        m,
        after.top_state(),
    )
}

/// What `unmake` leaves in `after` when called on `before`.
pub open spec fn unmake_result(before: Board, after: Board) -> bool {
    if before.hist().len() <= 1 {
        after == before
    } else {
        let e = before.hist().last();
        &&& after.squares() == unmake_squares(
            before.squares(),
            (1 - before.side_to_move()) as u8,
            e.last_move,
            e.new_state.slot() as u8,
        )
        &&& after.side_to_move() == 1 - before.side_to_move()
        &&& after.hist() == before.hist().drop_last()
        &&& after.fullmove() == before.fullmove()
    }
}

/// Making an applicable move and then unmaking it restores the position exactly: the
/// bitboards, the mailbox, the side to move and the whole history.
pub proof fn lemma_make_unmake_round_trip(p: Board, q: Board, r: Board, m: Move)
    requires
        p.wf(),
        applicable(p.squares(), p.side_to_move(), m),
        q.wf(),
        make_result(p, q, m),
        r.wf(),
        unmake_result(q, r),
    ensures
        r.squares() == p.squares(),
        r.bits() == p.bits(),
        r.kinds() == p.kinds(),
        r.side_to_move() == p.side_to_move(),
        r.hist() == p.hist(),
        r.fullmove() == p.fullmove(),
{
    lemma_unmake_make_squares(
        p.squares(),
        p.side_to_move(),
        m,
        q.top_state().slot() as u8,
    );
    lemma_board_ext(&r, &p);
}

/// In every consistent position, so after any sequence of `make` and `unmake`, the occupancy
/// is the union of the two sides, the sides are disjoint, and no square is set in two piece
/// bitboards.
pub proof fn lemma_occupancy_invariant(b: Board)
    requires
        b.wf_board(),
    ensures
        b.bits().occupancy == b.bits().color[0] | b.bits().color[1],
        b.bits().color[0] & b.bits().color[1] == 0,
        forall|s: u64, c1: int, k1: int, c2: int, k2: int|
            s < 64 && 0 <= c1 < 2 && 0 <= k1 < 6 && 0 <= c2 < 2 && 0 <= k2 < 6 && is_set(
                b.bits().piece[c1][k1],
                s,
            ) && is_set(b.bits().piece[c2][k2], s) ==> c1 == c2 && k1 == k2,
{
    let x = b.bits();
    lemma_has_ops();
    assert forall|t: u64| t < 64 implies #[trigger] is_set(x.occupancy, t) == is_set(
        x.color[0] | x.color[1],
        t,
    ) by {
        assert(square_ok(x, b.kinds(), t));
    }
    lemma_bits_ext(x.occupancy, x.color[0] | x.color[1]);
    assert forall|t: u64| t < 64 implies #[trigger] is_set(x.color[0] & x.color[1], t) == is_set(
        0u64,
        t,
    ) by {
        assert(square_ok(x, b.kinds(), t));
    }
    lemma_bits_ext(x.color[0] & x.color[1], 0);
    assert forall|s: u64, c1: int, k1: int, c2: int, k2: int|
        s < 64 && 0 <= c1 < 2 && 0 <= k1 < 6 && 0 <= c2 < 2 && 0 <= k2 < 6 && is_set(
            x.piece[c1][k1],
            s,
        ) && is_set(x.piece[c2][k2], s) implies c1 == c2 && k1 == k2 by {
        assert(square_ok(x, b.kinds(), s));
    }
}

/// Taking back a move restores the squares that it was played on.
pub proof fn lemma_unmake_make_squares(s: Seq<SquareContent>, turn: u8, m: Move, captured: u8)
    requires
        applicable(s, turn, m),
        m.flags() != DOUBLE_PAWN_PUSH ==> captured == captured_kind(s, m),
    ensures
        unmake_squares(make_squares(s, turn, m), turn, m, captured) == s,
{
    lemma_move_squares(m);
    let t = unmake_squares(make_squares(s, turn, m), turn, m, captured);
    let f = m.flags();
    if f == KING_SIDE_CASTLE || f == QUEEN_SIDE_CASTLE {
        assert(t =~= s);
    } else if f == ENPASSANT {
        assert(t =~= s);
    } else if is_promo(f) {
        assert(t =~= s);
    } else if is_promo_capture(f) {
        assert(t =~= s);
    } else if f == CAPTURE {
        assert(t =~= s);
    } else {
        assert(t =~= s);
    }
}

/// Two consistent positions with the same squares have the same bitboards and mailbox.
pub proof fn lemma_board_ext(a: &Board, b: &Board)
    requires
        a.wf_board(),
        b.wf_board(),
        a.squares() == b.squares(),
    ensures
        a.bits() == b.bits(),
        a.kinds() == b.kinds(),
{
    let x = a.bitboard;
    let y = b.bitboard;
    assert forall|t: u64| t < 64 implies #[trigger] is_set(x.color[1], t) == is_set(
        y.color[1],
        t,
    ) && a.mailbox.data[t as int] == b.mailbox.data[t as int] by {
        assert(a.squares()[t as int] == b.squares()[t as int]);
    }
    assert forall|t: u64| t < 64 implies #[trigger] is_set(x.occupancy, t) == is_set(
        y.occupancy,
        t,
    ) by {
        assert(square_ok(x, a.mailbox.data, t));
        assert(square_ok(y, b.mailbox.data, t));
        assert(a.squares()[t as int] == b.squares()[t as int]);
    }
    assert forall|t: u64| t < 64 implies #[trigger] is_set(x.color[0], t) == is_set(
        y.color[0],
        t,
    ) by {
        assert(square_ok(x, a.mailbox.data, t));
        assert(square_ok(y, b.mailbox.data, t));
        assert(a.squares()[t as int] == b.squares()[t as int]);
    }
    lemma_bits_ext(x.occupancy, y.occupancy);
    lemma_bits_ext(x.color[0], y.color[0]);
    lemma_bits_ext(x.color[1], y.color[1]);
    assert forall|c: int, k: int| 0 <= c < 2 && 0 <= k < 6 implies x.piece[c][k] == y.piece[c][k] by {
        assert forall|t: u64| t < 64 implies #[trigger] is_set(x.piece[c][k], t) == is_set(
            y.piece[c][k],
            t,
        ) by {
            assert(square_ok(x, a.mailbox.data, t));
            assert(square_ok(y, b.mailbox.data, t));
            assert(a.squares()[t as int] == b.squares()[t as int]);
        }
        lemma_bits_ext(x.piece[c][k], y.piece[c][k]);
    }
    assert(x.piece[0] =~= y.piece[0]);
    assert(x.piece[1] =~= y.piece[1]);
    assert(x.piece =~= y.piece);
    assert(x.color =~= y.color);
    assert forall|i: int| 0 <= i < 64 implies a.mailbox.data[i] == b.mailbox.data[i] by {
        assert(a.squares()[i] == b.squares()[i]);
    }
    assert(a.mailbox.data =~= b.mailbox.data);
}

impl Board {
    /// Plays a move of the side to move; it must be applicable to the position.
    pub fn make(&mut self, mv: &Move)
        requires
            old(self).wf(),
            applicable(old(self).squares(), old(self).side_to_move(), *mv),
        ensures
            final(self).wf(),
            make_result(*old(self), *final(self), *mv),
    {
        let ghost s0 = self.squares();
        let ghost h0 = self.history.data@;
        let prev = self.history.data[self.history.data.len() - 1].new_state;
        let mut new_state = prev;
        let flags = mv.get_flags();
        let to = mv.get_to();
        let from = mv.get_from();
        let turn = self.turn;
        let enemy = 1 - turn;
        proof {
            lemma_move_squares(*mv);
        }
        if flags == KING_SIDE_CASTLE || flags == QUEEN_SIDE_CASTLE {
            let (king_from, king_to, rook_from, rook_to) = castle_squares(
                turn,
                flags == KING_SIDE_CASTLE,
            );
            new_state.set_captured_piece(EMPTY as u8);
            let ghost mid = new_state;
            new_state.remove_castle_rights(turn);
            proof {
                hist_state::lemma_state_parts(prev, mid);
                hist_state::lemma_state_parts(mid, new_state);
            }
            self.delete_piece(king_from, KING as u8, turn);
            self.write_piece(king_to, KING as u8, turn);
            self.delete_piece(rook_from, ROOK as u8, turn);
            self.write_piece(rook_to, ROOK as u8, turn);
        } else {
            if flags == DOUBLE_PAWN_PUSH {
                new_state.set_enp(to % 8);
            } else if flags == CAPTURE || flags == KNIGHT_PROMO_CAPTURE || flags
                == BISHOP_PROMO_CAPTURE || flags == ROOK_PROMO_CAPTURE || flags
                == QUEEN_PROMO_CAPTURE {
                let cap_ptype = self.type_at_sq(to);
                new_state.set_captured_piece(cap_ptype);
            } else if flags == ENPASSANT {
                new_state.set_captured_piece(PAWN as u8);
            } else {
                new_state.set_captured_piece(EMPTY as u8);
            }
            let ghost mid = new_state;
            new_state.decay_castle_rights(turn, to, from);
            proof {
                hist_state::lemma_state_parts(prev, mid);
                hist_state::lemma_state_parts(mid, new_state);
            }
            if flags == ENPASSANT {
                let cap_sq = if turn == WHITE as u8 {
                    to + 8
                } else {
                    to - 8
                };
                self.delete_piece(from, PAWN as u8, turn);
                self.write_piece(to, PAWN as u8, turn);
                self.delete_piece(cap_sq, PAWN as u8, enemy);
            } else if flags == CAPTURE {
                let ptype = self.type_at_sq(from);
                let cap_ptype = self.type_at_sq(to);
                self.replace_piece(to, ptype, turn, cap_ptype, enemy);
                self.delete_piece(from, ptype, turn);
            } else if flags == QUIET || flags == DOUBLE_PAWN_PUSH {
                let ptype = self.type_at_sq(from);
                self.write_piece(to, ptype, turn);
                self.delete_piece(from, ptype, turn);
            } else {
                let kind = promo_piece(flags);
                self.delete_piece(from, PAWN as u8, turn);
                if flags == KNIGHT_PROMO || flags == BISHOP_PROMO || flags == ROOK_PROMO || flags
                    == QUEEN_PROMO {
                    self.write_piece(to, kind, turn);
                } else {
                    let cap_ptype = self.type_at_sq(to);
                    self.replace_piece(to, kind, turn, cap_ptype, enemy);
                }
            }
        }
        self.turn = enemy;
        self.history.data.push(HistoryElement { last_move: *mv, new_state });
        proof {
            let s1 = self.squares();
            assert(s1 =~= make_squares(s0, turn, *mv));
            lemma_unmake_make_squares(s0, turn, *mv, new_state.slot() as u8);
            assert(self.history.data@.drop_last() =~= h0);
        }
    }

    /// Takes back the last move played; does nothing when no move was played.
    pub fn unmake(&mut self)
        requires
            old(self).wf(),
        ensures
            final(self).wf(),
            unmake_result(*old(self), *final(self)),
    {
        if self.history.data.len() <= 1 {
            return ;
        }
        let ele = self.history.data.pop().unwrap();
        let turn = 1 - self.turn;
        let enemy = self.turn;
        self.turn = turn;
        let mv = ele.last_move;
        let flags = mv.get_flags();
        let to = mv.get_to();
        let from = mv.get_from();
        let captured = ele.new_state.get_captured_piece();
        let ghost s0 = old(self).squares();
        let ghost before = unmake_squares(s0, turn, mv, captured);
        proof {
            lemma_move_squares(mv);
            assert(old(self).history.data@.drop_last() =~= self.history.data@);
        }
        if flags == KING_SIDE_CASTLE || flags == QUEEN_SIDE_CASTLE {
            let (king_from, king_to, rook_from, rook_to) = castle_squares(
                turn,
                flags == KING_SIDE_CASTLE,
            );
            self.delete_piece(king_to, KING as u8, turn);
            self.write_piece(king_from, KING as u8, turn);
            self.delete_piece(rook_to, ROOK as u8, turn);
            self.write_piece(rook_from, ROOK as u8, turn);
        } else if flags == ENPASSANT {
            let cap_sq = if turn == WHITE as u8 {
                to + 8
            } else {
                to - 8
            };
            self.delete_piece(to, PAWN as u8, turn);
            self.write_piece(from, PAWN as u8, turn);
            self.write_piece(cap_sq, PAWN as u8, enemy);
        } else if flags == KNIGHT_PROMO || flags == BISHOP_PROMO || flags == ROOK_PROMO || flags
            == QUEEN_PROMO {
            let kind = promo_piece(flags);
            self.delete_piece(to, kind, turn);
            self.write_piece(from, PAWN as u8, turn);
        } else if flags == KNIGHT_PROMO_CAPTURE || flags == BISHOP_PROMO_CAPTURE || flags
            == ROOK_PROMO_CAPTURE || flags == QUEEN_PROMO_CAPTURE {
            let kind = promo_piece(flags);
            self.replace_piece(to, captured, enemy, kind, turn);
            self.write_piece(from, PAWN as u8, turn);
        } else if flags == CAPTURE {
            let ptype = self.type_at_sq(to);
            self.write_piece(from, ptype, turn);
            self.replace_piece(to, captured, enemy, ptype, turn);
        } else {
            let ptype = self.type_at_sq(to);
            self.write_piece(from, ptype, turn);
            self.delete_piece(to, ptype, turn);
        }
        proof {
            assert(self.squares() =~= before);
        }
    }
}

} // verus!
