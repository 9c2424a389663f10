use vstd::prelude::*;

verus! {

pub const QUIET: u16 = 0x0000;
pub const DOUBLE_PAWN_PUSH: u16 = 0x1000;
pub const KING_SIDE_CASTLE: u16 = 0x2000;
pub const QUEEN_SIDE_CASTLE: u16 = 0x3000;
pub const CAPTURE: u16 = 0x4000;
pub const ENPASSANT: u16 = 0x5000;
pub const KNIGHT_PROMO: u16 = 0x8000;
pub const BISHOP_PROMO: u16 = 0x9000;
pub const ROOK_PROMO: u16 = 0xA000;
pub const QUEEN_PROMO: u16 = 0xB000;
pub const KNIGHT_PROMO_CAPTURE: u16 = 0xC000;
pub const BISHOP_PROMO_CAPTURE: u16 = 0xD000;
pub const ROOK_PROMO_CAPTURE: u16 = 0xE000;
pub const QUEEN_PROMO_CAPTURE: u16 = 0xF000;

const TO_MASK: u16 = 0x3F;
const FROM_MASK: u16 = 0xFC0;
const FLAG_MASK: u16 = 0xF000;

/// The greatest number of legal moves in any chess position.
pub const MAX_NUM_MOVES: usize = 218;
pub const INVALID_MOVE: u16 = 0x6FFF;

/// Whether `flags` is one of the move kinds.
pub open spec fn is_move_kind(flags: u16) -> bool {
    flags == QUIET || flags == DOUBLE_PAWN_PUSH || flags == KING_SIDE_CASTLE || flags
        == QUEEN_SIDE_CASTLE || flags == CAPTURE || flags == ENPASSANT || flags == KNIGHT_PROMO
        || flags == BISHOP_PROMO || flags == ROOK_PROMO || flags == QUEEN_PROMO || flags
        == KNIGHT_PROMO_CAPTURE || flags == BISHOP_PROMO_CAPTURE || flags == ROOK_PROMO_CAPTURE
        || flags == QUEEN_PROMO_CAPTURE
}

/// A move packed in 16 bits: the destination in bits 0-5, the origin in bits 6-11 and the
/// kind in bits 12-15.
#[derive(Clone, Copy, Debug, PartialEq, Eq, Structural)]
pub struct Move {
    pub(crate) data: u16,
}

/// The file letter of a square.
pub open spec fn file_char(sq: int) -> char {
    ((97 + sq % 8) as u8) as char
}

/// The rank digit of a square: the top row is rank 8.
pub open spec fn rank_char(sq: int) -> char {
    ((56 - sq / 8) as u8) as char
}

/// The letter that a promotion of the given kind appends in long algebraic notation.
pub open spec fn promo_suffix(flags: u16) -> Seq<char> {
    if flags == KNIGHT_PROMO || flags == KNIGHT_PROMO_CAPTURE {
        seq!['n']
    } else if flags == BISHOP_PROMO || flags == BISHOP_PROMO_CAPTURE {
        seq!['b']
    } else if flags == ROOK_PROMO || flags == ROOK_PROMO_CAPTURE {
        seq!['r']
    } else if flags == QUEEN_PROMO || flags == QUEEN_PROMO_CAPTURE {
        seq!['q']
    } else {
        seq![]
    }
}

proof fn lemma_move_fields(from: u16, to: u16, flags: u16)
    by (bit_vector)
    requires
        from < 64,
        to < 64,
        is_move_kind(flags),
    ensures
        (flags | (from << 6u16) | to) & 0x3F == to,
        ((flags | (from << 6u16) | to) & 0xFC0) >> 6u16 == from,
        (flags | (from << 6u16) | to) & 0xF000 == flags,
{
}

proof fn lemma_data_fields(d: u16)
    by (bit_vector)
    ensures
        d & 0x3F < 64,
        (d & 0xFC0) >> 6u16 < 64,
        0x6FFFu16 & 0x3F == 63,
        (0x6FFFu16 & 0xFC0) >> 6u16 == 63,
        0x6FFFu16 & 0xF000 == 0x6000,
{
}

/// Relies on `String::push`: appends one character.
#[verifier::external_body]
fn push_char(s: &mut String, c: char)
    ensures
        final(s)@ == old(s)@.push(c),
{
    s.push(c)
}

/// A move built from its parts gives them back.
pub proof fn lemma_new_spec(from: u16, to: u16, flags: u16)
    requires
        from < 64,
        to < 64,
        is_move_kind(flags),
    ensures
        Move::new_spec(from, to, flags).from_sq() == from,
        Move::new_spec(from, to, flags).to_sq() == to,
        Move::new_spec(from, to, flags).flags() == flags,
{
    lemma_move_fields(from, to, flags);
}

/// The origin and destination of a move are squares of the board.
pub proof fn lemma_move_squares(m: Move)
    ensures
        m.from_sq() < 64,
        m.to_sq() < 64,
{
    lemma_data_fields(m.data);
}

impl Move {
    /// The move with the given origin, destination and kind.
    pub open(crate) spec fn new_spec(from: u16, to: u16, flags: u16) -> Move {
        Move { data: (flags | (from << 6u16) | to) as u16 }
    }
    pub open(crate) spec fn to_sq(self) -> u16 {
        self.data & 0x3F
    }

    pub open(crate) spec fn from_sq(self) -> u16 {
        (self.data & 0xFC0) >> 6u16
    }

    pub open(crate) spec fn flags(self) -> u16 {
        self.data & 0xF000
    }

    pub open(crate) spec fn long_algebraic(self) -> Seq<char> {
        seq![
            file_char(self.from_sq() as int),
            rank_char(self.from_sq() as int),
            file_char(self.to_sq() as int),
            rank_char(self.to_sq() as int),
        ] + promo_suffix(self.flags())
    }

    /// Returns the UCI long algebraic notation of the move.
    pub fn to_long_algbr(&self) -> (r: String)
        ensures
            r@ == self.long_algebraic(),
    {
        let from = self.get_from();
        let to = self.get_to();
        let mut algbr = String::new();
        push_char(&mut algbr, (from % 8 + 97) as char);
        push_char(&mut algbr, (56 - from / 8) as char);
        push_char(&mut algbr, (to % 8 + 97) as char);
        push_char(&mut algbr, (56 - to / 8) as char);
        let flags = self.get_flags();
        if flags == KNIGHT_PROMO || flags == KNIGHT_PROMO_CAPTURE {
            push_char(&mut algbr, 'n');
        } else if flags == BISHOP_PROMO || flags == BISHOP_PROMO_CAPTURE {
            push_char(&mut algbr, 'b');
        } else if flags == ROOK_PROMO || flags == ROOK_PROMO_CAPTURE {
            push_char(&mut algbr, 'r');
        } else if flags == QUEEN_PROMO || flags == QUEEN_PROMO_CAPTURE {
            push_char(&mut algbr, 'q');
        }
        assert(algbr@ =~= self.long_algebraic());
        algbr
    }

    pub fn get_to(&self) -> (r: u8)
        ensures
            r as u16 == self.to_sq(),
            r < 64,
    {
        proof {
            lemma_data_fields(self.data);
        }
        (self.data & TO_MASK) as u8
    }

    pub fn get_from(&self) -> (r: u8)
        ensures
            r as u16 == self.from_sq(),
            r < 64,
    {
        proof {
            lemma_data_fields(self.data);
        }
        ((self.data & FROM_MASK) >> 6) as u8
    }

    pub fn get_flags(&self) -> (r: u16)
        ensures
            r == self.flags(),
    {
        self.data & FLAG_MASK
    }

    /// Builds the move from its origin, destination and kind.
    pub fn new(from: u16, to: u16, flags: u16) -> (r: Move)
        requires
            from < 64,
            to < 64,
            is_move_kind(flags),
        ensures
            r.from_sq() == from,
            r.to_sq() == to,
            r.flags() == flags,
            r == Move::new_spec(from, to, flags),
    {
        proof {
            lemma_move_fields(from, to, flags);
        }
        Move { data: flags | (from << 6) | to }
    }

    /// The placeholder that fills unused slots.
    pub fn invalid() -> (r: Move)
        ensures
            r.from_sq() == 63 && r.to_sq() == 63,
            !is_move_kind(r.flags()),
    {
        let m = Move { data: INVALID_MOVE };
        proof {
            lemma_data_fields(0);
        }
        m
    }
}

/// A list of the moves of one position, with room for `MAX_NUM_MOVES` of them.
pub struct MoveList {
    moves: Vec<Move>,
}

impl View for MoveList {
    type V = Seq<Move>;

    closed spec fn view(&self) -> Seq<Move> {
        self.moves@
    }
}

impl MoveList {
    pub open spec fn wf(&self) -> bool {
        self@.len() <= MAX_NUM_MOVES
    }

    pub fn new() -> (r: MoveList)
        ensures
            r@ == Seq::<Move>::empty(),
            r.wf(),
    {
        MoveList { moves: Vec::with_capacity(MAX_NUM_MOVES) }
    }

    /// The number of moves in the list.
    pub fn size(&self) -> (r: usize)
        ensures
            r == self@.len(),
    {
        self.moves.len()
    }

    /// Empties the list.
    pub fn clear(&mut self)
        ensures
            final(self)@ == Seq::<Move>::empty(),
    {
        self.moves.clear();
    }

    /// Appends a move; the list must have room for it.
    pub fn push(&mut self, new_move: Move)
        requires
            old(self)@.len() < MAX_NUM_MOVES,
        ensures
            final(self)@ == old(self)@.push(new_move),
    {
        self.moves.push(new_move);
    }

    /// Removes the last move and returns it.
    pub fn pop(&mut self) -> (r: Move)
        requires
            old(self)@.len() > 0,
        ensures
            r == old(self)@.last(),
            final(self)@ == old(self)@.drop_last(),
    {
        self.moves.pop().unwrap()
    }

    /// The move at position `idx`.
    pub fn at(&self, idx: usize) -> (r: Move)
        requires
            idx < self@.len(),
        ensures
            r == self@[idx as int],
    {
        self.moves[idx]
    }
}

} // verus!
