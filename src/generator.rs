use vstd::prelude::*;
use crate::bitboard::{
    self, is_set, lowest_square, count_bits, fold_or, fold_seq, fold_cat, walk_state,
    lemma_fold_cat_skip, lemma_fold_cat_len, lemma_fold_seq_len,
    lemma_walk_step, lemma_walk_done, lemma_walk_start, lemma_fold_skip, lemma_or_shift,
    lemma_has_ops, pop_rbit, peek_rbit, popcnt, pawn_smear, pawn_smear_spec,
};
use crate::board::{Board, applicable, square_ok, PAWN, KNIGHT, BISHOP, ROOK, QUEEN, KING, EMPTY, WHITE};
use crate::normal::connecting_ray;
use crate::tables::MoveTables;
use crate::moves::{
    Move, MoveList, MAX_NUM_MOVES, QUIET, CAPTURE, DOUBLE_PAWN_PUSH, KING_SIDE_CASTLE,
    QUEEN_SIDE_CASTLE, ENPASSANT, KNIGHT_PROMO, BISHOP_PROMO, ROOK_PROMO, QUEEN_PROMO,
    KNIGHT_PROMO_CAPTURE, BISHOP_PROMO_CAPTURE, ROOK_PROMO_CAPTURE, QUEEN_PROMO_CAPTURE,
};
use crate::mailbox;

verus! {

/// The masks that move generation derives from a position.
pub struct BoardTables {
    /// The squares that the side not to move attacks, its sliders seeing through the king of
    /// the side to move.
    pub threats: u64,
    /// The pieces that give check to the king of the side to move.
    pub checks: u64,
    /// The squares that a move other than a king move must reach: every square when not in
    /// check, none in double check.
    pub check_blocks: u64,
    /// One ray per pinning piece: from the king, excluded, to the pinner, included.
    pub pins: Vec<u64>,
}

/// Generates the legal moves of positions.
pub struct MoveGenerator {
    pub(crate) tables: MoveTables,
}

/// The squares that a piece of kind `kind` and side `c` on `sq` attacks on occupancy `occ`.
pub open spec fn piece_attacks(t: MoveTables, sq: int, kind: u8, occ: u64, c: int) -> u64 {
    if kind == PAWN {
        t.pawn_spec(sq, c)
    } else if kind == KNIGHT {
        t.knight_spec(sq)
    } else if kind == BISHOP {
        t.slider_spec(sq, occ, true)
    } else if kind == ROOK {
        t.slider_spec(sq, occ, false)
    } else if kind == QUEEN {
        t.slider_spec(sq, occ, true) | t.slider_spec(sq, occ, false)
    } else if kind == KING {
        t.king_spec(sq)
    } else {
        0
    }
}

pub open spec fn own(b: Board) -> int {
    b.side_to_move() as int
}

pub open spec fn enemy(b: Board) -> int {
    1 - b.side_to_move()
}

/// The pieces of kind `k` of side `c`.
pub open spec fn pieces(b: Board, c: int, k: int) -> u64 {
    b.bits().piece[c][k]
}

/// The square of the king of the side to move.
pub open spec fn king_square(b: Board) -> u64 {
    lowest_square(pieces(b, own(b), KING as int))
}

/// What the side not to move attacks, with the king of the side to move taken off the board.
pub open spec fn threats_spec(t: MoveTables, b: Board) -> u64 {
    let e = enemy(b);
    let occ = b.bits().occupancy ^ pieces(b, own(b), KING as int);
    pawn_smear_spec(pieces(b, e, PAWN as int), e == WHITE) | fold_or(
        b.bits().color[e] ^ pieces(b, e, PAWN as int),
        64,
        |s: int| piece_attacks(t, s, b.kinds()[s], occ, e),
    )
}

/// The enemy pieces that attack the king of the side to move.
pub open spec fn checks_spec(t: MoveTables, b: Board) -> u64 {
    let e = enemy(b);
    let k = king_square(b) as int;
    let occ = b.bits().occupancy;
    if pieces(b, own(b), KING as int) == 0 {
        0
    } else {
        (t.pawn_spec(k, own(b)) & pieces(b, e, PAWN as int)) | (t.knight_spec(k) & pieces(
            b,
            e,
            KNIGHT as int,
        )) | (t.slider_spec(k, occ, true) & (pieces(b, e, BISHOP as int) | pieces(
            b,
            e,
            QUEEN as int,
        ))) | (t.slider_spec(k, occ, false) & (pieces(b, e, ROOK as int) | pieces(
            b,
            e,
            QUEEN as int,
        )))
    }
}

/// The squares that resolve the checks `checks`: all when there is none, the checker and the
/// squares between it and the king when there is one, none when there are two or more.
pub open spec fn check_blocks_spec(b: Board, checks: u64) -> u64 {
    if checks == 0 {
        bitboard::FULL
    } else if count_bits(checks) != 1 {
        bitboard::EMPTY
    } else {
        checks | connecting_ray(king_square(b) as int, lowest_square(checks) as int)
    }
}

/// The enemy sliders of the given kind (bishop-like when `diag`) that pin a piece of the side
/// to move: those found beyond the first own blockers on the king's lines.
pub open spec fn pinners_spec(t: MoveTables, b: Board, diag: bool) -> u64 {
    let e = enemy(b);
    let k = king_square(b) as int;
    let occ = b.bits().occupancy;
    let attacks = t.slider_spec(k, occ, diag);
    let blockers = b.bits().color[own(b)] & attacks;
    let xray = attacks ^ t.slider_spec(k, occ ^ blockers, diag);
    xray & (pieces(b, e, if diag {
        BISHOP as int
    } else {
        ROOK as int
    }) | pieces(b, e, QUEEN as int))
}

/// The pin rays: for each pinner, by kind (lines first) and then by square, the squares from
/// the king, excluded, to the pinner, included.
pub open spec fn pins_spec(t: MoveTables, b: Board) -> Seq<u64> {
    let k = king_square(b) as int;
    if pieces(b, own(b), KING as int) == 0 {
        seq![]
    } else {
        fold_seq(pinners_spec(t, b, false), 64, |s: int| connecting_ray(k, s)) + fold_seq(
            pinners_spec(t, b, true),
            64,
            |s: int| connecting_ray(k, s),
        )
    }
}

impl BoardTables {
    /// The masks that `gen_board_tables` computes for position `b`.
    pub open spec fn of(&self, t: MoveTables, b: Board) -> bool {
        &&& self.threats == threats_spec(t, b)
        &&& self.checks == checks_spec(t, b)
        &&& self.check_blocks == check_blocks_spec(b, self.checks)
        &&& self.pins@ == pins_spec(t, b)
    }
}

impl MoveGenerator {
    pub open(crate) spec fn wf(&self) -> bool {
        self.tables.wf()
    }

    pub open(crate) spec fn tables_spec(&self) -> MoveTables {
        self.tables
    }

    /// Builds the generator and its attack tables; `None` exactly when the tables cannot be
    /// built from their constants.
    pub fn new() -> (r: Option<Self>)
        ensures
            r is Some <==> crate::magical::magic_constants_sound(true)
                && crate::magical::magic_constants_sound(false),
            r matches Some(g) ==> g.wf(),
    {
        match MoveTables::get_instance() {
            Some(tables) => Some(MoveGenerator { tables }),
            None => None,
        }
    }

    /// The attack tables.
    pub fn tables(&self) -> (r: &MoveTables)
        ensures
            *r == self.tables_spec(),
    {
        &self.tables
    }

    /// The squares that a piece of kind `piece_type` and side `turn` on `sq` attacks.
    fn gen_pseudo_move_mask(&self, sq: u8, piece_type: u8, occupancy: u64, turn: u8) -> (r: u64)
        requires
            self.wf(),
            sq < 64,
            turn < 2,
        ensures
            r == piece_attacks(self.tables, sq as int, piece_type, occupancy, turn as int),
    {
        if piece_type == PAWN as u8 {
            self.tables.read_pawn_attacks(sq, turn)
        } else if piece_type == KNIGHT as u8 {
            self.tables.read_knight_attacks(sq)
        } else if piece_type == BISHOP as u8 {
            self.tables.read_bishop_attacks(sq, occupancy)
        } else if piece_type == ROOK as u8 {
            self.tables.read_rook_attacks(sq, occupancy)
        } else if piece_type == QUEEN as u8 {
            self.tables.read_bishop_attacks(sq, occupancy) | self.tables.read_rook_attacks(
                sq,
                occupancy,
            )
        } else if piece_type == KING as u8 {
            self.tables.read_king_attacks(sq)
        } else {
            0
        }
    }

    fn gen_threats(&self, board: &Board) -> (r: u64)
        requires
            self.wf(),
            board.wf(),
        ensures
            r == threats_spec(self.tables, *board),
    {
        let turn = board.get_turn();
        let e: u8 = 1 - turn;
        let bits = board.bitboards();
        let pawns = bits.piece[e as usize][PAWN];
        let king = bits.piece[turn as usize][KING];
        let base = pawn_smear(pawns, e == WHITE as u8);
        let occupancy = bits.occupancy ^ king;
        let ghost mask = bits.color[e as int] ^ pawns;
        let ghost f = |s: int| piece_attacks(self.tables, s, board.kinds()[s], occupancy, e as int);
        let mut pieces = bits.color[e as usize] ^ pawns;
        let mut threats = base;
        let ghost mut lo: nat = 0;
        proof {
            lemma_walk_start(mask);
            lemma_or_shift(base, 0, 0, 0);
        }
        while pieces != 0
            invariant
                self.wf(),
                board.wf(),
                e < 2,
                walk_state(mask, pieces, lo),
                threats == base | fold_or(mask, lo, f),
                f == (|s: int| piece_attacks(self.tables, s, board.kinds()[s], occupancy, e as int)),
            decreases 64 - lo,
        {
            let ghost rem = pieces;
            let sq = pop_rbit(&mut pieces);
            proof {
                lemma_walk_step(mask, rem, lo, sq as u64, pieces);
                lemma_fold_skip::<u64>(mask, lo, sq as nat, f, |s: int| 0u64);
                lemma_or_shift(base, fold_or(mask, lo, f), f(sq as int), 0);
            }
            let attacks = self.gen_pseudo_move_mask(sq, board.type_at_sq(sq), occupancy, e);
            threats = threats | attacks;
            proof {
                lo = (sq + 1) as nat;
            }
        }
        proof {
            lemma_walk_done(mask, lo);
            lemma_fold_skip::<u64>(mask, lo, 64, f, |s: int| 0u64);
        }
        threats
    }
}

impl MoveGenerator {
    fn gen_checks(&self, board: &Board) -> (r: u64)
        requires
            self.wf(),
            board.wf(),
        ensures
            r == checks_spec(self.tables, *board),
    {
        let turn = board.get_turn();
        let e = 1 - turn;
        let bits = board.bitboards();
        let king = bits.piece[turn as usize][KING];
        if king == 0 {
            return 0;
        }
        let king_sq = peek_rbit(&king);
        let occupancy = bits.occupancy;
        let enemy = bits.piece[e as usize];
        let mut checks = self.tables.read_pawn_attacks(king_sq, turn) & enemy[PAWN];
        checks = checks | (self.tables.read_knight_attacks(king_sq) & enemy[KNIGHT]);
        checks = checks | (self.tables.read_bishop_attacks(king_sq, occupancy) & (enemy[BISHOP]
            | enemy[QUEEN]));
        checks = checks | (self.tables.read_rook_attacks(king_sq, occupancy) & (enemy[ROOK]
            | enemy[QUEEN]));
        checks
    }

    fn gen_check_blocks(&self, board: &Board, checks: u64) -> (r: u64)
        requires
            self.wf(),
            board.wf(),
            checks != 0 ==> pieces(*board, own(*board), KING as int) != 0,
        ensures
            r == check_blocks_spec(*board, checks),
    {
        if checks == 0 {
            return bitboard::FULL;
        }
        if popcnt(&checks) != 1 {
            return bitboard::EMPTY;
        }
        let bits = board.bitboards();
        let king = bits.piece[board.get_turn() as usize][KING];
        let king_sq = peek_rbit(&king);
        let check_sq = peek_rbit(&checks);
        checks | self.tables.read_to_from_table(king_sq, check_sq)
    }

    /// The enemy sliders, bishop-like when `diag`, that pin a piece to the king on `king_sq`.
    fn xray_pinners(&self, board: &Board, king_sq: u8, diag: bool) -> (r: u64)
        requires
            self.wf(),
            board.wf(),
            pieces(*board, own(*board), KING as int) != 0,
            king_sq == king_square(*board),
            king_sq < 64,
        ensures
            r == pinners_spec(self.tables, *board, diag),
    {
        let bits = board.bitboards();
        let turn = board.get_turn();
        let e = 1 - turn;
        let occupancy = bits.occupancy;
        let attacks = if diag {
            self.tables.read_bishop_attacks(king_sq, occupancy)
        } else {
            self.tables.read_rook_attacks(king_sq, occupancy)
        };
        let blockers = bits.color[turn as usize] & attacks;
        let beyond = if diag {
            self.tables.read_bishop_attacks(king_sq, occupancy ^ blockers)
        } else {
            self.tables.read_rook_attacks(king_sq, occupancy ^ blockers)
        };
        let sliders = if diag {
            bits.piece[e as usize][BISHOP]
        } else {
            bits.piece[e as usize][ROOK]
        };
        (attacks ^ beyond) & (sliders | bits.piece[e as usize][QUEEN])
    }

    /// Appends the pin ray of each pinner in `pinners` to `pins`.
    fn push_pin_rays(&self, king_sq: u8, pinners: u64, pins: &mut Vec<u64>)
        requires
            self.wf(),
            king_sq < 64,
        ensures
            final(pins)@ == old(pins)@ + fold_seq(
                pinners,
                64,
                |s: int| connecting_ray(king_sq as int, s),
            ),
    {
        let ghost f = |s: int| connecting_ray(king_sq as int, s);
        let ghost start = pins@;
        let mut rem = pinners;
        let ghost mut lo: nat = 0;
        proof {
            lemma_walk_start(pinners);
            assert(start + fold_seq(pinners, 0, f) =~= start);
        }
        while rem != 0
            invariant
                self.wf(),
                king_sq < 64,
                walk_state(pinners, rem, lo),
                pins@ == start + fold_seq(pinners, lo, f),
                f == (|s: int| connecting_ray(king_sq as int, s)),
            decreases 64 - lo,
        {
            let ghost old_rem = rem;
            let sq = pop_rbit(&mut rem);
            proof {
                lemma_walk_step(pinners, old_rem, lo, sq as u64, rem);
                lemma_fold_skip::<u64>(pinners, lo, sq as nat, |s: int| 0u64, f);
            }
            pins.push(self.tables.read_to_from_table(king_sq, sq));
            proof {
                assert(pins@ =~= start + fold_seq(pinners, (sq + 1) as nat, f));
                lo = (sq + 1) as nat;
            }
        }
        proof {
            lemma_walk_done(pinners, lo);
            lemma_fold_skip::<u64>(pinners, lo, 64, |s: int| 0u64, f);
        }
    }

    fn gen_pins(&self, board: &Board) -> (r: Vec<u64>)
        requires
            self.wf(),
            board.wf(),
        ensures
            r@ == pins_spec(self.tables, *board),
    {
        let mut pins: Vec<u64> = Vec::new();
        let bits = board.bitboards();
        let king = bits.piece[board.get_turn() as usize][KING];
        if king == 0 {
            return pins;
        }
        let king_sq = peek_rbit(&king);
        let line_pinners = self.xray_pinners(board, king_sq, false);
        self.push_pin_rays(king_sq, line_pinners, &mut pins);
        let diag_pinners = self.xray_pinners(board, king_sq, true);
        self.push_pin_rays(king_sq, diag_pinners, &mut pins);
        assert(pins@ =~= pins_spec(self.tables, *board));
        pins
    }

    /// Computes the threats, checks, check blocks and pins of a position.
    pub fn gen_board_tables(&self, board: &Board) -> (r: BoardTables)
        requires
            self.wf(),
            board.wf(),
        ensures
            r.of(self.tables_spec(), *board),
    {
        let threats = self.gen_threats(board);
        let checks = self.gen_checks(board);
        let check_blocks = self.gen_check_blocks(board, checks);
        let pins = self.gen_pins(board);
        BoardTables { threats, checks, check_blocks, pins }
    }
}

/// Every move of the list can be played on the position.
pub open spec fn all_applicable(list: Seq<Move>, b: Board) -> bool {
    &&& list.len() <= MAX_NUM_MOVES
    &&& forall|i: int|
        0 <= i < list.len() ==> applicable(b.squares(), b.side_to_move(), #[trigger] list[i])
}

/// The pieces that make quiet moves and captures: all of the side to move but its pawns about
/// to promote.
pub open spec fn movers_spec(b: Board) -> u64 {
    let promo_row = if own(b) == WHITE {
        bitboard::BLACK_PAWN_HOME
    } else {
        bitboard::WHITE_PAWN_HOME
    };
    b.bits().color[own(b)] ^ (pieces(b, own(b), PAWN as int) & promo_row)
}

/// A move to `to` is a capture when the square is occupied.
pub open spec fn flag_for(b: Board, to: int) -> u16 {
    if b.bits().occupancy & (1u64 << (to as u64)) == 0 {
        QUIET
    } else {
        CAPTURE
    }
}

/// The quiet moves and captures of the piece on `from`, by destination.
pub open spec fn targets_spec(t: MoveTables, b: Board, st: BoardTables, from: int) -> Seq<Move> {
    fold_seq(
        legal_mask_spec(t, b, st, from),
        64,
        |to: int| Move::new_spec(from as u16, to as u16, flag_for(b, to)),
    )
}

/// The quiet moves and captures of the position, by origin and then destination.
pub open spec fn simple_moves_spec(t: MoveTables, b: Board, st: BoardTables) -> Seq<Move> {
    fold_cat(movers_spec(b), 64, |from: int| targets_spec(t, b, st, from))
}

/// The first pin ray that holds `sq`, or every square when none does.
pub open spec fn pin_ray_spec(pins: Seq<u64>, sq: u64) -> u64
    decreases pins.len(),
{
    if pins.len() == 0 {
        bitboard::FULL
    } else if is_set(pins[0], sq) {
        pins[0]
    } else {
        pin_ray_spec(pins.drop_first(), sq)
    }
}

/// The square in front of a pawn of side `c` on `sq`, as a mask: empty off the board.
pub open spec fn push_mask(sq: int, c: int) -> u64 {
    let t = if c == WHITE {
        sq - 8
    } else {
        sq + 8
    };
    if 0 <= t < 64 {
        bitboard::bit(t as u64)
    } else {
        0
    }
}

/// The destinations of the piece on `sq` before checks and pins: for a pawn its captures and
/// its push onto an empty square, for other pieces the squares they attack.
pub open spec fn pseudo_dest(t: MoveTables, b: Board, sq: int) -> u64 {
    let kind = b.kinds()[sq];
    let occ = b.bits().occupancy;
    if kind == PAWN {
        (t.pawn_spec(sq, own(b)) & b.bits().color[enemy(b)]) | (push_mask(sq, own(b)) & !occ)
    } else {
        piece_attacks(t, sq, kind, occ, own(b))
    }
}

/// The legal destinations of the piece on `sq`: off its own pieces; a king off the threatened
/// squares; any other piece along its pin ray and onto the check blocks.
pub open spec fn legal_mask_spec(t: MoveTables, b: Board, st: BoardTables, sq: int) -> u64 {
    let m = pseudo_dest(t, b, sq) & !b.bits().color[own(b)];
    if b.kinds()[sq] == KING {
        m & !st.threats
    } else {
        (m & pin_ray_spec(st.pins@, sq as u64)) & st.check_blocks
    }
}

/// Every move that `gen_moves` lists can be made and then unmade, which restores the position
/// exactly: the bitboards, the mailbox, the side to move and the whole history.
pub proof fn lemma_generated_round_trip(list: Seq<Move>, i: int, p: Board, q: Board, r: Board)
    requires
        p.wf(),
        all_applicable(list, p),
        0 <= i < list.len(),
        q.wf(),
        crate::board::make_result(p, q, list[i]),
        r.wf(),
        crate::board::unmake_result(q, r),
    ensures
        r.squares() == p.squares(),
        r.bits() == p.bits(),
        r.kinds() == p.kinds(),
        r.side_to_move() == p.side_to_move(),
        r.hist() == p.hist(),
        r.fullmove() == p.fullmove(),
{
    crate::board::lemma_make_unmake_round_trip(p, q, r, list[i]);
}

/// A piece other than the king moves only along its pin ray and onto the check blocks; a king
/// moves only onto squares that are not threatened. Neither lands on a piece of its own side.
pub proof fn lemma_legal_mask_restricted(t: MoveTables, b: Board, st: BoardTables, sq: int, to: u64)
    requires
        to < 64,
        is_set(legal_mask_spec(t, b, st, sq), to),
    ensures
        !is_set(b.bits().color[own(b)], to),
        b.kinds()[sq] == KING ==> !is_set(st.threats, to),
        b.kinds()[sq] != KING ==> is_set(pin_ray_spec(st.pins@, sq as u64), to) && is_set(
            st.check_blocks,
            to,
        ),
{
    lemma_has_ops();
}

proof fn lemma_own_piece(b: Board, s: u64)
    requires
        b.wf(),
        s < 64,
        is_set(b.bits().color[own(b)], s),
    ensures
        b.squares()[s as int] == (b.kinds()[s as int], b.side_to_move()),
        b.kinds()[s as int] < 6,
{
    assert(square_ok(b.bits(), b.kinds(), s));
}

proof fn lemma_target_square(b: Board, s: u64)
    requires
        b.wf(),
        s < 64,
        !is_set(b.bits().color[own(b)], s),
    ensures
        !is_set(b.bits().occupancy, s) ==> b.squares()[s as int] == crate::board::empty_square(),
        is_set(b.bits().occupancy, s) ==> b.squares()[s as int].1 == enemy(b) && b.kinds()[s as int] < 6,
{
    assert(square_ok(b.bits(), b.kinds(), s));
}

fn push_move(move_list: &mut MoveList, m: Move) -> (r: bool)
    ensures
        r == (old(move_list)@.len() < MAX_NUM_MOVES),
        r ==> final(move_list)@ == old(move_list)@.push(m),
        !r ==> final(move_list)@ == old(move_list)@,
{
    if move_list.size() < MAX_NUM_MOVES {
        move_list.push(m);
        true
    } else {
        false
    }
}

impl MoveGenerator {
    /// The pin ray of the piece on `sq`, or every square when it is not pinned.
    fn get_pin_mask(sq: u8, state: &BoardTables) -> (r: u64)
        requires
            sq < 64,
        ensures
            r == pin_ray_spec(state.pins@, sq as u64),
    {
        let mut i: usize = 0;
        assert(state.pins@.subrange(0, state.pins@.len() as int) =~= state.pins@);
        while i < state.pins.len()
            invariant
                i <= state.pins@.len(),
                sq < 64,
                pin_ray_spec(state.pins@.subrange(i as int, state.pins@.len() as int), sq as u64)
                    == pin_ray_spec(state.pins@, sq as u64),
            decreases state.pins@.len() - i,
        {
            let ghost rest = state.pins@.subrange(i as int, state.pins@.len() as int);
            assert(rest.drop_first() =~= state.pins@.subrange(i + 1, state.pins@.len() as int));
            if state.pins[i] & (1u64 << sq) != 0 {
                return state.pins[i];
            }
            i = i + 1;
        }
        bitboard::FULL
    }

    /// Restricts `moves` to the pin ray of the piece on `sq`.
    fn pin_adjust(sq: u8, moves: u64, state: &BoardTables) -> (r: u64)
        requires
            sq < 64,
        ensures
            r == moves & pin_ray_spec(state.pins@, sq as u64),
    {
        moves & Self::get_pin_mask(sq, state)
    }

    fn gen_legal_mv_mask(&self, sq: u8, board: &Board, state: &BoardTables) -> (r: u64)
        requires
            self.wf(),
            board.wf(),
            sq < 64,
        ensures
            r == legal_mask_spec(self.tables, *board, *state, sq as int),
    {
        let turn = board.get_turn();
        let bits = board.bitboards();
        let piece_type = board.type_at_sq(sq);
        let occupancy = bits.occupancy;
        let mut moves = if piece_type == PAWN as u8 {
            let push: u64 = if turn == WHITE as u8 {
                if sq >= 8 {
                    1u64 << (sq - 8)
                } else {
                    0
                }
            } else {
                if sq < 56 {
                    1u64 << (sq + 8)
                } else {
                    0
                }
            };
            (self.tables.read_pawn_attacks(sq, turn) & bits.color[(1 - turn) as usize]) | (push
                & !occupancy)
        } else {
            self.gen_pseudo_move_mask(sq, piece_type, occupancy, turn)
        };
        moves = moves & !bits.color[turn as usize];
        if piece_type == KING as u8 {
            moves & !state.threats
        } else {
            Self::pin_adjust(sq, moves, state) & state.check_blocks
        }
    }
}

impl MoveGenerator {
    /// Appends the quiet moves and captures of every piece but the pawns about to promote.
    fn append_simple_moves(&self, move_list: &mut MoveList, board: &Board, state: &BoardTables) -> (r: bool)
        requires
            self.wf(),
            board.wf(),
            all_applicable(old(move_list)@, *board),
        ensures
            all_applicable(final(move_list)@, *board),
            r ==> final(move_list)@ == old(move_list)@ + simple_moves_spec(self.tables, *board, *state),
            !r ==> old(move_list)@.len() + simple_moves_spec(self.tables, *board, *state).len()
                > MAX_NUM_MOVES,
    {
        let turn = board.get_turn();
        let bits = board.bitboards();
        let own_pieces = bits.color[turn as usize];
        let promo_row = if turn == WHITE as u8 {
            bitboard::BLACK_PAWN_HOME
        } else {
            bitboard::WHITE_PAWN_HOME
        };
        let movers = own_pieces ^ (bits.piece[turn as usize][PAWN] & promo_row);
        let mut pieces = movers;
        let ghost start = move_list@;
        let ghost f = |s: int| targets_spec(self.tables, *board, *state, s);
        let ghost mut lo: nat = 0;
        proof {
            lemma_has_ops();
            lemma_walk_start(movers);
            assert(start + fold_cat(movers, 0, f) =~= start);
            assert forall|t: u64| t < 64 && #[trigger] is_set(movers, t) implies is_set(own_pieces, t) by {
                assert(square_ok(board.bits(), board.kinds(), t));
            }
        }
        while pieces != 0
            invariant
                self.wf(),
                board.wf(),
                turn == board.side_to_move(),
                bits == board.bits(),
                own_pieces == bits.color[turn as int],
                movers == movers_spec(*board),
                forall|t: u64| t < 64 && #[trigger] is_set(movers, t) ==> is_set(own_pieces, t),
                walk_state(movers, pieces, lo),
                f == (|s: int| targets_spec(self.tables, *board, *state, s)),
                move_list@ == start + fold_cat(movers, lo, f),
                start == old(move_list)@,
                all_applicable(move_list@, *board),
            decreases 64 - lo,
        {
            let ghost rem = pieces;
            let sq = pop_rbit(&mut pieces);
            proof {
                lemma_walk_step(movers, rem, lo, sq as u64, pieces);
                lemma_fold_cat_skip(movers, lo, sq as nat, f);
                lemma_own_piece(*board, sq as u64);
            }
            let tmask = self.gen_legal_mv_mask(sq, board, state);
            let mut targets = tmask;
            let ghost g = |to: int| Move::new_spec(sq as u16, to as u16, flag_for(*board, to));
            let ghost mid = move_list@;
            let ghost mut lo2: nat = 0;
            proof {
                lemma_has_ops();
                lemma_walk_start(tmask);
                assert(mid + fold_seq(tmask, 0, g) =~= mid);
            }
            while targets != 0
                invariant
                    self.wf(),
                    board.wf(),
                    sq < 64,
                    turn == board.side_to_move(),
                    bits == board.bits(),
                    own_pieces == bits.color[turn as int],
                    board.squares()[sq as int] == (board.kinds()[sq as int], turn),
                    board.kinds()[sq as int] < 6,
                    is_set(own_pieces, sq as u64),
                    tmask == legal_mask_spec(self.tables, *board, *state, sq as int),
                    forall|t: u64| t < 64 && #[trigger] is_set(tmask, t) ==> !is_set(own_pieces, t),
                    walk_state(tmask, targets, lo2),
                    g == (|to: int| Move::new_spec(sq as u16, to as u16, flag_for(*board, to))),
                    move_list@ == mid + fold_seq(tmask, lo2, g),
                    mid == start + fold_cat(movers, sq as nat, f),
                    start == old(move_list)@,
                    is_set(movers, sq as u64),
                    f(sq as int) == fold_seq(tmask, 64, g),
                    f == (|s: int| targets_spec(self.tables, *board, *state, s)),
                    movers == movers_spec(*board),
                    all_applicable(move_list@, *board),
                decreases 64 - lo2,
            {
                let ghost trem = targets;
                let to = pop_rbit(&mut targets);
                proof {
                    lemma_walk_step(tmask, trem, lo2, to as u64, targets);
                    lemma_fold_skip::<Move>(tmask, lo2, to as nat, |s: int| 0u64, g);
                    lemma_target_square(*board, to as u64);
                    lemma_has_ops();
                }
                let flag: u16 = if bits.occupancy & (1u64 << to) == 0 {
                    QUIET
                } else {
                    CAPTURE
                };
                let m = Move::new(sq as u16, to as u16, flag);
                if !push_move(move_list, m) {
                    proof {
                        lemma_fold_seq_len(tmask, to as nat, g);
                        lemma_fold_cat_len(movers, sq as nat, f);
                    }
                    return false;
                }
                proof {
                    lo2 = (to + 1) as nat;
                }
            }
            proof {
                lemma_walk_done(tmask, lo2);
                lemma_fold_skip::<Move>(tmask, lo2, 64, |s: int| 0u64, g);
                assert(f(sq as int) == fold_seq(tmask, 64, g));
                assert(move_list@ =~= start + fold_cat(movers, (sq + 1) as nat, f));
                lo = (sq + 1) as nat;
            }
        }
        proof {
            lemma_walk_done(movers, lo);
            lemma_fold_cat_skip(movers, lo, 64, f);
        }
        true
    }
}


/// The squares between the king and the rook of a castle.
pub open spec fn castle_occupancy_mask(turn: u8, king_side: bool) -> u64 {
    if turn == WHITE {
        if king_side {
            bitboard::WHITE_KING_SIDE_CASTLE_OCCUPANCY
        } else {
            bitboard::WHITE_QUEEN_SIDE_CASTLE_OCCUPANCY
        }
    } else {
        if king_side {
            bitboard::BLACK_KING_SIDE_CASTLE_OCCUPANCY
        } else {
            bitboard::BLACK_QUEEN_SIDE_CASTLE_OCCUPANCY
        }
    }
}

/// The squares that the king of a castle stands on, passes and reaches.
pub open spec fn castle_check_mask(turn: u8, king_side: bool) -> u64 {
    if turn == WHITE {
        if king_side {
            bitboard::WHITE_KING_SIDE_CASTLE_CHECK
        } else {
            bitboard::WHITE_QUEEN_SIDE_CASTLE_CHECK
        }
    } else {
        if king_side {
            bitboard::BLACK_KING_SIDE_CASTLE_CHECK
        } else {
            bitboard::BLACK_QUEEN_SIDE_CASTLE_CHECK
        }
    }
}

/// A castle is legal when the right is kept, the king and the rook stand on their starting
/// squares, the squares between them are empty, and none of the king's squares is threatened.
pub open spec fn castle_legal_spec(b: Board, st: BoardTables, king_side: bool) -> bool {
    let turn = b.side_to_move();
    &&& if king_side {
        b.top_state().ksc(turn)
    } else {
        b.top_state().qsc(turn)
    }
    &&& b.squares()[crate::hist_state::king_start(turn) as int] == (KING as u8, turn)
    &&& b.squares()[crate::board::castle_rook_from(turn, king_side)] == (ROOK as u8, turn)
    &&& b.bits().occupancy & castle_occupancy_mask(turn, king_side) == 0
    &&& st.threats & castle_check_mask(turn, king_side) == 0
}

/// The castles of the position: king side first.
pub open spec fn castle_moves_spec(b: Board, st: BoardTables) -> Seq<Move> {
    let turn = b.side_to_move();
    let from = crate::hist_state::king_start(turn) as u16;
    (if castle_legal_spec(b, st, true) {
        seq![Move::new_spec(from, crate::board::castle_king_to(turn, true) as u16, KING_SIDE_CASTLE)]
    } else {
        seq![]
    }) + (if castle_legal_spec(b, st, false) {
        seq![
            Move::new_spec(
                from,
                crate::board::castle_king_to(turn, false) as u16,
                QUEEN_SIDE_CASTLE,
            ),
        ]
    } else {
        seq![]
    })
}

/// The en-passant target square of the side to move.
pub open spec fn enp_target(b: Board) -> int {
    if own(b) == WHITE {
        mailbox::WHITE_MIN_ENPASSANT_TARGET + b.top_state().slot()
    } else {
        mailbox::BLACK_MIN_ENPASSANT_TARGET + b.top_state().slot()
    }
}

/// An en-passant capture is offered: the state allows one, the pawn to take and the empty target
/// square are where they should be, and the side to move has a king.
pub open spec fn enp_guard(b: Board) -> bool {
    let cap = crate::board::behind(b.side_to_move(), enp_target(b));
    &&& b.top_state().enp()
    &&& b.squares()[cap] == (PAWN as u8, enemy(b) as u8)
    &&& b.kinds()[enp_target(b)] == EMPTY
    &&& pieces(b, own(b), KING as int) != 0
}

/// The enemy pieces that would attack the king once the pawn on `s` takes en passant.
pub open spec fn enp_attackers(t: MoveTables, b: Board, s: int) -> u64 {
    let target = enp_target(b);
    let cap = crate::board::behind(b.side_to_move(), target);
    let e = enemy(b);
    let k = king_square(b) as int;
    let occ = (b.bits().occupancy & !(1u64 << (s as u64)) & !(1u64 << (cap as u64))) | (1u64 << (
    target as u64));
    (t.pawn_spec(k, own(b)) & pieces(b, e, PAWN as int) & !(1u64 << (cap as u64))) | (
    t.knight_spec(k) & pieces(b, e, KNIGHT as int)) | (t.slider_spec(k, occ, true) & (pieces(
        b,
        e,
        BISHOP as int,
    ) | pieces(b, e, QUEEN as int))) | (t.slider_spec(k, occ, false) & (pieces(b, e, ROOK as int)
        | pieces(b, e, QUEEN as int)))
}

/// The en-passant captures of the position, by origin.
pub open spec fn enp_moves_spec(t: MoveTables, b: Board) -> Seq<Move> {
    let target = enp_target(b);
    if !enp_guard(b) {
        seq![]
    } else {
        fold_cat(
            t.pawn_spec(target, enemy(b)) & pieces(b, own(b), PAWN as int),
            64,
            |s: int|
                if enp_attackers(t, b, s) == 0 {
                    seq![Move::new_spec(s as u16, target as u16, ENPASSANT)]
                } else {
                    seq![]
                },
        )
    }
}

/// The square `n` rows ahead of `s` for the side to move.
pub open spec fn ahead(b: Board, s: int, n: int) -> int {
    if own(b) == WHITE {
        s - 8 * n
    } else {
        s + 8 * n
    }
}

/// The double pawn push of the pawn on `s`, if it is legal.
pub open spec fn dpp_of(b: Board, st: BoardTables, s: int) -> Seq<Move> {
    let to = ahead(b, s, 2);
    let passed = ahead(b, s, 1);
    let path = (1u64 << (to as u64)) | (1u64 << (passed as u64));
    if path & b.bits().occupancy == 0 && ((1u64 << (to as u64)) & pin_ray_spec(
        st.pins@,
        s as u64,
    )) & st.check_blocks != 0 {
        seq![Move::new_spec(s as u16, to as u16, DOUBLE_PAWN_PUSH)]
    } else {
        seq![]
    }
}

pub open spec fn home_row(b: Board) -> u64 {
    if own(b) == WHITE {
        bitboard::WHITE_PAWN_HOME
    } else {
        bitboard::BLACK_PAWN_HOME
    }
}

pub open spec fn promo_row(b: Board) -> u64 {
    if own(b) == WHITE {
        bitboard::BLACK_PAWN_HOME
    } else {
        bitboard::WHITE_PAWN_HOME
    }
}

/// The double pawn pushes of the position, by origin.
pub open spec fn dpp_moves_spec(b: Board, st: BoardTables) -> Seq<Move> {
    fold_cat(home_row(b) & pieces(b, own(b), PAWN as int), 64, |s: int| dpp_of(b, st, s))
}

/// The four promotions from `from` to `to`: knight, bishop, rook, queen.
pub open spec fn promo_seq(from: int, to: int, capture: bool) -> Seq<Move> {
    let (a, b, c, d) = if capture {
        (KNIGHT_PROMO_CAPTURE, BISHOP_PROMO_CAPTURE, ROOK_PROMO_CAPTURE, QUEEN_PROMO_CAPTURE)
    } else {
        (KNIGHT_PROMO, BISHOP_PROMO, ROOK_PROMO, QUEEN_PROMO)
    };
    seq![
        Move::new_spec(from as u16, to as u16, a),
        Move::new_spec(from as u16, to as u16, b),
        Move::new_spec(from as u16, to as u16, c),
        Move::new_spec(from as u16, to as u16, d),
    ]
}

/// The squares that a move of the pawn on `s` may reach under its pin and the checks.
pub open spec fn promo_legal(st: BoardTables, s: int) -> u64 {
    pin_ray_spec(st.pins@, s as u64) & st.check_blocks
}

/// The promotions of the pawn on `s`: by a push, then by captures in order of destination.
pub open spec fn promos_of(t: MoveTables, b: Board, st: BoardTables, s: int) -> Seq<Move> {
    let p = ahead(b, s, 1);
    let legal = promo_legal(st, s);
    (if b.bits().occupancy & (1u64 << (p as u64)) == 0 && legal & (1u64 << (p as u64)) != 0 {
        promo_seq(s, p, false)
    } else {
        seq![]
    }) + fold_cat(
        t.pawn_spec(s, own(b)) & b.bits().color[enemy(b)] & legal,
        64,
        |to: int| promo_seq(s, to, true),
    )
}

/// The promotions of the position, by origin.
pub open spec fn promo_moves_spec(t: MoveTables, b: Board, st: BoardTables) -> Seq<Move> {
    fold_cat(pieces(b, own(b), PAWN as int) & promo_row(b), 64, |s: int| promos_of(t, b, st, s))
}

/// The legal moves of the position in the order of generation: quiet moves and captures,
/// castles, en-passant captures, double pawn pushes, promotions.
pub open spec fn legal_moves_spec(t: MoveTables, b: Board, st: BoardTables) -> Seq<Move> {
    simple_moves_spec(t, b, st) + castle_moves_spec(b, st) + enp_moves_spec(t, b)
        + dpp_moves_spec(b, st) + promo_moves_spec(t, b, st)
}

impl MoveGenerator {
    fn castle_legal(board: &Board, state: &BoardTables, king_side: bool) -> (r: bool)
        requires
            board.wf(),
        ensures
            r == castle_legal_spec(*board, *state, king_side),
            r ==> applicable(
                board.squares(),
                board.side_to_move(),
                Move::new_spec(0, 0, if king_side { KING_SIDE_CASTLE } else { QUEEN_SIDE_CASTLE }),
            ),
    {
        let turn = board.get_turn();
        let extra = board.state();
        let right = if king_side {
            extra.has_ksc_right(turn)
        } else {
            extra.has_qsc_right(turn)
        };
        if !right {
            return false;
        }
        let (king_from, rook_from) = if turn == WHITE as u8 {
            (
                mailbox::WHITE_KING_START,
                if king_side {
                    mailbox::WHITE_KING_SIDE_ROOK_START
                } else {
                    mailbox::WHITE_QUEEN_SIDE_ROOK_START
                },
            )
        } else {
            (
                mailbox::BLACK_KING_START,
                if king_side {
                    mailbox::BLACK_KING_SIDE_ROOK_START
                } else {
                    mailbox::BLACK_QUEEN_SIDE_ROOK_START
                },
            )
        };
        if board.type_at_sq(king_from) != KING as u8 || board.color_at_sq(king_from) != turn
            || board.type_at_sq(rook_from) != ROOK as u8 || board.color_at_sq(rook_from) != turn {
            return false;
        }
        let occupancy_mask: u64 = if turn == WHITE as u8 {
            if king_side {
                bitboard::WHITE_KING_SIDE_CASTLE_OCCUPANCY
            } else {
                bitboard::WHITE_QUEEN_SIDE_CASTLE_OCCUPANCY
            }
        } else {
            if king_side {
                bitboard::BLACK_KING_SIDE_CASTLE_OCCUPANCY
            } else {
                bitboard::BLACK_QUEEN_SIDE_CASTLE_OCCUPANCY
            }
        };
        let check_mask: u64 = if turn == WHITE as u8 {
            if king_side {
                bitboard::WHITE_KING_SIDE_CASTLE_CHECK
            } else {
                bitboard::WHITE_QUEEN_SIDE_CASTLE_CHECK
            }
        } else {
            if king_side {
                bitboard::BLACK_KING_SIDE_CASTLE_CHECK
            } else {
                bitboard::BLACK_QUEEN_SIDE_CASTLE_CHECK
            }
        };
        let bits = board.bitboards();
        let r = bits.occupancy & occupancy_mask == 0 && state.threats & check_mask == 0;
        proof {
            if r {
                lemma_has_ops();
                let kt = crate::board::castle_king_to(turn, king_side) as u64;
                let rt = crate::board::castle_rook_to(turn, king_side) as u64;
                bitboard::lemma_board_masks(kt);
                bitboard::lemma_board_masks(rt);
                assert(!is_set(bits.occupancy & occupancy_mask, kt));
                assert(!is_set(bits.occupancy & occupancy_mask, rt));
                assert(square_ok(bits, board.kinds(), kt));
                assert(square_ok(bits, board.kinds(), rt));
                crate::moves::lemma_new_spec(0, 0, if king_side { KING_SIDE_CASTLE } else { QUEEN_SIDE_CASTLE });
            }
        }
        r
    }

    /// Whether the side to move may castle king side.
    pub fn ksc_legal(board: &Board, state: &BoardTables) -> (r: bool)
        requires
            board.wf(),
        ensures
            r == castle_legal_spec(*board, *state, true),
    {
        Self::castle_legal(board, state, true)
    }

    /// Whether the side to move may castle queen side.
    pub fn qsc_legal(board: &Board, state: &BoardTables) -> (r: bool)
        requires
            board.wf(),
        ensures
            r == castle_legal_spec(*board, *state, false),
    {
        Self::castle_legal(board, state, false)
    }

    fn append_castle_moves(&self, move_list: &mut MoveList, board: &Board, state: &BoardTables) -> (r: bool)
        requires
            board.wf(),
            all_applicable(old(move_list)@, *board),
        ensures
            all_applicable(final(move_list)@, *board),
            r ==> final(move_list)@ == old(move_list)@ + castle_moves_spec(*board, *state),
            !r ==> old(move_list)@.len() + castle_moves_spec(*board, *state).len() > MAX_NUM_MOVES,
    {
        let ghost start = move_list@;
        let turn = board.get_turn();
        let (from, ks_to, qs_to) = if turn == WHITE as u8 {
            (
                mailbox::WHITE_KING_START,
                mailbox::WHITE_KING_SIDE_CASTLE_TARGET,
                mailbox::WHITE_QUEEN_SIDE_CASTLE_TARGET,
            )
        } else {
            (
                mailbox::BLACK_KING_START,
                mailbox::BLACK_KING_SIDE_CASTLE_TARGET,
                mailbox::BLACK_QUEEN_SIDE_CASTLE_TARGET,
            )
        };
        if Self::castle_legal(board, state, true) {
            let m = Move::new(from as u16, ks_to as u16, KING_SIDE_CASTLE);
            proof {
                crate::moves::lemma_new_spec(0, 0, KING_SIDE_CASTLE);
            }
            if !push_move(move_list, m) {
                return false;
            }
        }
        if Self::castle_legal(board, state, false) {
            let m = Move::new(from as u16, qs_to as u16, QUEEN_SIDE_CASTLE);
            proof {
                crate::moves::lemma_new_spec(0, 0, QUEEN_SIDE_CASTLE);
            }
            if !push_move(move_list, m) {
                return false;
            }
        }
        assert(move_list@ =~= start + castle_moves_spec(*board, *state));
        true
    }
}

impl MoveGenerator {
    /// Appends the en-passant captures that do not leave the king attacked: each is checked on
    /// the occupancy after the capture, which also finds a check along the row of both pawns.
    fn append_enp_moves(&self, move_list: &mut MoveList, board: &Board, state: &BoardTables) -> (r: bool)
        requires
            self.wf(),
            board.wf(),
            all_applicable(old(move_list)@, *board),
        ensures
            all_applicable(final(move_list)@, *board),
            r ==> final(move_list)@ == old(move_list)@ + enp_moves_spec(self.tables, *board),
            !r ==> old(move_list)@.len() + enp_moves_spec(self.tables, *board).len() > MAX_NUM_MOVES,
    {
        let ghost start = move_list@;
        assert(start + seq![] =~= start);
        let extra = board.state();
        if !extra.enp_avaliable() {
            return true;
        }
        let turn = board.get_turn();
        let e: u8 = 1 - turn;
        let col = extra.get_enp_col();
        let enp_sq: u8 = if turn == WHITE as u8 {
            mailbox::WHITE_MIN_ENPASSANT_TARGET + col
        } else {
            mailbox::BLACK_MIN_ENPASSANT_TARGET + col
        };
        let cap_sq: u8 = if turn == WHITE as u8 {
            enp_sq + 8
        } else {
            enp_sq - 8
        };
        if board.type_at_sq(cap_sq) != PAWN as u8 || board.color_at_sq(cap_sq) != e
            || board.type_at_sq(enp_sq) != EMPTY as u8 {
            return true;
        }
        let bits = board.bitboards();
        let king = bits.piece[turn as usize][KING];
        if king == 0 {
            return true;
        }
        let king_sq = peek_rbit(&king);
        let enemy = bits.piece[e as usize];
        let sources_mask = self.tables.read_pawn_attacks(enp_sq, e) & bits.piece[turn as usize][PAWN];
        let mut sources = sources_mask;
        let ghost f = |s: int|
            if enp_attackers(self.tables, *board, s) == 0 {
                seq![Move::new_spec(s as u16, enp_sq as u16, ENPASSANT)]
            } else {
                seq![]
            };
        let ghost mut lo: nat = 0;
        proof {
            lemma_has_ops();
            lemma_walk_start(sources_mask);
            assert(square_ok(bits, board.kinds(), enp_sq as u64));
            assert(start + fold_cat(sources_mask, 0, f) =~= start);
        }
        while sources != 0
            invariant
                self.wf(),
                board.wf(),
                turn == board.side_to_move(),
                e == 1 - turn,
                bits == board.bits(),
                enemy == bits.piece[e as int],
                enp_sq == enp_target(*board),
                enp_guard(*board),
                enp_sq < 64,
                king_sq < 64,
                king_sq == king_square(*board),
                crate::board::behind(turn, enp_sq as int) == cap_sq as int,
                0 <= cap_sq < 64,
                board.squares()[cap_sq as int] == (PAWN as u8, e),
                board.squares()[enp_sq as int] == crate::board::empty_square(),
                sources_mask == self.tables.pawn_spec(enp_sq as int, e as int) & pieces(*board, turn as int, PAWN as int),
                forall|t: u64| t < 64 && #[trigger] is_set(sources_mask, t) ==> is_set(bits.piece[turn as int][PAWN as int], t),
                walk_state(sources_mask, sources, lo),
                f == (|s: int|
                    if enp_attackers(self.tables, *board, s) == 0 {
                        seq![Move::new_spec(s as u16, enp_sq as u16, ENPASSANT)]
                    } else {
                        seq![]
                    }),
                move_list@ == start + fold_cat(sources_mask, lo, f),
                start == old(move_list)@,
                all_applicable(move_list@, *board),
            decreases 64 - lo,
        {
            let ghost rem = sources;
            let sq = pop_rbit(&mut sources);
            proof {
                lemma_walk_step(sources_mask, rem, lo, sq as u64, sources);
                lemma_fold_cat_skip(sources_mask, lo, sq as nat, f);
                assert(square_ok(bits, board.kinds(), sq as u64));
            }
            // The occupancy once the capture is made.
            let new_occupancy = (bits.occupancy & !(1u64 << sq) & !(1u64 << cap_sq)) | (1u64 << enp_sq);
            let attackers = (self.tables.read_pawn_attacks(king_sq, turn) & enemy[PAWN] & !(1u64 << cap_sq))
                | (self.tables.read_knight_attacks(king_sq) & enemy[KNIGHT])
                | (self.tables.read_bishop_attacks(king_sq, new_occupancy) & (enemy[BISHOP] | enemy[QUEEN]))
                | (self.tables.read_rook_attacks(king_sq, new_occupancy) & (enemy[ROOK] | enemy[QUEEN]));
            if attackers == 0 {
                let m = Move::new(sq as u16, enp_sq as u16, ENPASSANT);
                if !push_move(move_list, m) {
                    proof {
                        assert(attackers == enp_attackers(self.tables, *board, sq as int));
                        lemma_fold_cat_len(sources_mask, sq as nat, f);
                    }
                    return false;
                }
            }
            proof {
                assert(attackers == enp_attackers(self.tables, *board, sq as int));
                assert(move_list@ =~= start + fold_cat(sources_mask, (sq + 1) as nat, f));
                lo = (sq + 1) as nat;
            }
        }
        proof {
            lemma_walk_done(sources_mask, lo);
            lemma_fold_cat_skip(sources_mask, lo, 64, f);
        }
        true
    }

    /// Appends the double pawn pushes from the home row onto an empty square past an empty one.
    fn append_double_pawn_push(&self, move_list: &mut MoveList, board: &Board, state: &BoardTables) -> (r: bool)
        requires
            self.wf(),
            board.wf(),
            all_applicable(old(move_list)@, *board),
        ensures
            all_applicable(final(move_list)@, *board),
            r ==> final(move_list)@ == old(move_list)@ + dpp_moves_spec(*board, *state),
            !r ==> old(move_list)@.len() + dpp_moves_spec(*board, *state).len() > MAX_NUM_MOVES,
    {
        let turn = board.get_turn();
        let bits = board.bitboards();
        let home: u64 = if turn == WHITE as u8 {
            bitboard::WHITE_PAWN_HOME
        } else {
            bitboard::BLACK_PAWN_HOME
        };
        let pawns_mask: u64 = home & bits.piece[turn as usize][PAWN];
        let mut pawns = pawns_mask;
        let ghost start = move_list@;
        let ghost f = |s: int| dpp_of(*board, *state, s);
        let ghost mut lo: nat = 0;
        proof {
            lemma_has_ops();
            lemma_walk_start(pawns_mask);
            assert(start + fold_cat(pawns_mask, 0, f) =~= start);
        }
        while pawns != 0
            invariant
                self.wf(),
                board.wf(),
                turn == board.side_to_move(),
                bits == board.bits(),
                home == home_row(*board),
                pawns_mask == home & bits.piece[turn as int][PAWN as int],
                forall|t: u64| t < 64 && #[trigger] is_set(pawns_mask, t) ==> is_set(bits.piece[turn as int][PAWN as int], t) && is_set(home, t),
                walk_state(pawns_mask, pawns, lo),
                f == (|s: int| dpp_of(*board, *state, s)),
                move_list@ == start + fold_cat(pawns_mask, lo, f),
                start == old(move_list)@,
                all_applicable(move_list@, *board),
            decreases 64 - lo,
        {
            let ghost rem = pawns;
            let from = pop_rbit(&mut pawns);
            proof {
                lemma_walk_step(pawns_mask, rem, lo, from as u64, pawns);
                lemma_fold_cat_skip(pawns_mask, lo, from as nat, f);
                lemma_has_ops();
                assert(square_ok(bits, board.kinds(), from as u64));
                bitboard::lemma_board_masks(from as u64);
            }
            let to: u8 = if turn == WHITE as u8 {
                from - 16
            } else {
                from + 16
            };
            let passed: u8 = if turn == WHITE as u8 {
                from - 8
            } else {
                from + 8
            };
            let path: u64 = (1u64 << to) | (1u64 << passed);
            if path & bits.occupancy == 0 {
                let target = Self::pin_adjust(from, 1u64 << to, state) & state.check_blocks;
                if target != 0 {
                    proof {
                        assert(is_set(path, to as u64));
                        assert(!is_set(path & bits.occupancy, to as u64));
                        assert(square_ok(bits, board.kinds(), to as u64));
                        lemma_target_square(*board, to as u64);
                    }
                    let m = Move::new(from as u16, to as u16, DOUBLE_PAWN_PUSH);
                    if !push_move(move_list, m) {
                        proof {
                            lemma_fold_cat_len(pawns_mask, from as nat, f);
                        }
                        return false;
                    }
                }
            }
            proof {
                assert(move_list@ =~= start + fold_cat(pawns_mask, (from + 1) as nat, f));
                lo = (from + 1) as nat;
            }
        }
        proof {
            lemma_walk_done(pawns_mask, lo);
            lemma_fold_cat_skip(pawns_mask, lo, 64, f);
        }
        true
    }

    /// Appends the four promotions from `from` to `to`.
    fn push_promos(move_list: &mut MoveList, board: &Board, from: u8, to: u8, capture: bool) -> (r: bool)
        requires
            from < 64,
            to < 64,
            from != to,
            board.wf(),
            all_applicable(old(move_list)@, *board),
            board.squares()[from as int] == (PAWN as u8, board.side_to_move()),
            capture ==> crate::board::piece_of(board.squares()[to as int], (1 - board.side_to_move()) as u8),
            !capture ==> board.squares()[to as int] == crate::board::empty_square(),
        ensures
            all_applicable(final(move_list)@, *board),
            r ==> final(move_list)@ == old(move_list)@ + promo_seq(from as int, to as int, capture),
            !r ==> old(move_list)@.len() + 4 > MAX_NUM_MOVES,
    {
        let (a, b, c, d) = if capture {
            (KNIGHT_PROMO_CAPTURE, BISHOP_PROMO_CAPTURE, ROOK_PROMO_CAPTURE, QUEEN_PROMO_CAPTURE)
        } else {
            (KNIGHT_PROMO, BISHOP_PROMO, ROOK_PROMO, QUEEN_PROMO)
        };
        let ghost start = move_list@;
        if !push_move(move_list, Move::new(from as u16, to as u16, a)) {
            return false;
        }
        if !push_move(move_list, Move::new(from as u16, to as u16, b)) {
            return false;
        }
        if !push_move(move_list, Move::new(from as u16, to as u16, c)) {
            return false;
        }
        if !push_move(move_list, Move::new(from as u16, to as u16, d)) {
            return false;
        }
        assert(move_list@ =~= start + promo_seq(from as int, to as int, capture));
        true
    }

    /// Appends the four promotions of each legal push or capture of a pawn about to promote.
    fn append_promos(&self, move_list: &mut MoveList, board: &Board, state: &BoardTables) -> (r: bool)
        requires
            self.wf(),
            board.wf(),
            all_applicable(old(move_list)@, *board),
        ensures
            all_applicable(final(move_list)@, *board),
            r ==> final(move_list)@ == old(move_list)@ + promo_moves_spec(self.tables, *board, *state),
            !r ==> old(move_list)@.len() + promo_moves_spec(self.tables, *board, *state).len()
                > MAX_NUM_MOVES,
    {
        let turn = board.get_turn();
        let e: u8 = 1 - turn;
        let bits = board.bitboards();
        let last_rows: u64 = if turn == WHITE as u8 {
            bitboard::BLACK_PAWN_HOME
        } else {
            bitboard::WHITE_PAWN_HOME
        };
        let pawns_mask: u64 = bits.piece[turn as usize][PAWN] & last_rows;
        let mut pawns = pawns_mask;
        let ghost start = move_list@;
        let ghost f = |s: int| promos_of(self.tables, *board, *state, s);
        let ghost mut lo: nat = 0;
        proof {
            lemma_has_ops();
            lemma_walk_start(pawns_mask);
            assert(start + fold_cat(pawns_mask, 0, f) =~= start);
        }
        while pawns != 0
            invariant
                self.wf(),
                board.wf(),
                turn == board.side_to_move(),
                e == 1 - turn,
                bits == board.bits(),
                last_rows == promo_row(*board),
                pawns_mask == bits.piece[turn as int][PAWN as int] & last_rows,
                forall|t: u64| t < 64 && #[trigger] is_set(pawns_mask, t) ==> is_set(bits.piece[turn as int][PAWN as int], t) && is_set(last_rows, t),
                walk_state(pawns_mask, pawns, lo),
                f == (|s: int| promos_of(self.tables, *board, *state, s)),
                move_list@ == start + fold_cat(pawns_mask, lo, f),
                start == old(move_list)@,
                all_applicable(move_list@, *board),
            decreases 64 - lo,
        {
            let ghost rem = pawns;
            let sq = pop_rbit(&mut pawns);
            proof {
                lemma_walk_step(pawns_mask, rem, lo, sq as u64, pawns);
                lemma_fold_cat_skip(pawns_mask, lo, sq as nat, f);
                lemma_has_ops();
                assert(square_ok(bits, board.kinds(), sq as u64));
                bitboard::lemma_board_masks(sq as u64);
            }
            let ghost mid = move_list@;
            let legal_mask = Self::get_pin_mask(sq, state) & state.check_blocks;
            let push_target: u8 = if turn == WHITE as u8 {
                sq - 8
            } else {
                sq + 8
            };
            if bits.occupancy & (1u64 << push_target) == 0 && legal_mask & (1u64 << push_target) != 0 {
                proof {
                    assert(square_ok(bits, board.kinds(), push_target as u64));
                    lemma_target_square(*board, push_target as u64);
                }
                if !Self::push_promos(move_list, board, sq, push_target, false) {
                    proof {
                        lemma_fold_cat_len(pawns_mask, sq as nat, f);
                    }
                    return false;
                }
            }
            let ghost pushed = move_list@;
            proof {
                assert(pushed == mid + (if bits.occupancy & (1u64 << (push_target as u64)) == 0 && legal_mask & (1u64 << (push_target as u64)) != 0 {
                    promo_seq(sq as int, push_target as int, false)
                } else {
                    seq![]
                })) by {
                    if !(bits.occupancy & (1u64 << (push_target as u64)) == 0 && legal_mask & (1u64 << (push_target as u64)) != 0) {
                        assert(mid + seq![] =~= mid);
                    }
                }
            }
            let cap_mask = self.tables.read_pawn_attacks(sq, turn) & bits.color[e as usize] & legal_mask;
            let mut cap_targets = cap_mask;
            let ghost g = |to: int| promo_seq(sq as int, to, true);
            let ghost mut lo2: nat = 0;
            proof {
                lemma_walk_start(cap_mask);
                assert(pushed + fold_cat(cap_mask, 0, g) =~= pushed);
                lemma_fold_cat_len(pawns_mask, sq as nat, f);
                assert(f(sq as int) == promos_of(self.tables, *board, *state, sq as int));
            }
            while cap_targets != 0
                invariant
                    self.wf(),
                    board.wf(),
                    sq < 64,
                    turn == board.side_to_move(),
                    e == 1 - turn,
                    bits == board.bits(),
                    board.squares()[sq as int] == (PAWN as u8, turn),
                    forall|t: u64| t < 64 && #[trigger] is_set(cap_mask, t) ==> is_set(bits.color[e as int], t),
                    walk_state(cap_mask, cap_targets, lo2),
                    g == (|to: int| promo_seq(sq as int, to, true)),
                    move_list@ == pushed + fold_cat(cap_mask, lo2, g),
                    pushed.len() + fold_cat(cap_mask, 64, g).len() <= start.len() + promo_moves_spec(self.tables, *board, *state).len(),
                    start == old(move_list)@,
                    all_applicable(move_list@, *board),
                decreases 64 - lo2,
            {
                let ghost trem = cap_targets;
                let to = pop_rbit(&mut cap_targets);
                proof {
                    lemma_walk_step(cap_mask, trem, lo2, to as u64, cap_targets);
                    lemma_fold_cat_skip(cap_mask, lo2, to as nat, g);
                    lemma_has_ops();
                    assert(square_ok(bits, board.kinds(), to as u64));
                    lemma_target_square(*board, to as u64);
                }
                if !Self::push_promos(move_list, board, sq, to, true) {
                    proof {
                        lemma_fold_cat_len(cap_mask, to as nat, g);
                    }
                    return false;
                }
                proof {
                    assert(move_list@ =~= pushed + fold_cat(cap_mask, (to + 1) as nat, g));
                    lo2 = (to + 1) as nat;
                }
            }
            proof {
                lemma_walk_done(cap_mask, lo2);
                lemma_fold_cat_skip(cap_mask, lo2, 64, g);
                assert(move_list@ =~= start + fold_cat(pawns_mask, (sq + 1) as nat, f));
                lo = (sq + 1) as nat;
            }
        }
        proof {
            lemma_walk_done(pawns_mask, lo);
            lemma_fold_cat_skip(pawns_mask, lo, 64, f);
        }
        true
    }

    /// Fills `move_list` with the legal moves of the position; `false` if they do not fit in
    /// the list, which no position reachable from the starting one needs.
    pub fn gen_moves(&self, move_list: &mut MoveList, board: &Board, state: &BoardTables) -> (r: bool)
        requires
            self.wf(),
            board.wf(),
            state.of(self.tables_spec(), *board),
        ensures
            all_applicable(final(move_list)@, *board),
            r == (legal_moves_spec(self.tables_spec(), *board, *state).len() <= MAX_NUM_MOVES),
            r ==> final(move_list)@ == legal_moves_spec(self.tables_spec(), *board, *state),
    {
        move_list.clear();
        self.append_simple_moves(move_list, board, state) && self.append_castle_moves(
            move_list,
            board,
            state,
        ) && self.append_enp_moves(move_list, board, state) && self.append_double_pawn_push(
            move_list,
            board,
            state,
        ) && self.append_promos(move_list, board, state)
    }
}

} // verus!
