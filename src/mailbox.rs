use vstd::prelude::*;

verus! {

pub const WHITE_KING_START: u8 = 60;
pub const WHITE_KING_SIDE_ROOK_START: u8 = 63;
pub const WHITE_QUEEN_SIDE_ROOK_START: u8 = 56;
pub const WHITE_KING_SIDE_CASTLE_TARGET: u8 = 62;
pub const WHITE_KING_SIDE_ROOK_TARGET: u8 = 61;
pub const WHITE_QUEEN_SIDE_CASTLE_TARGET: u8 = 58;
pub const WHITE_QUEEN_SIDE_ROOK_TARGET: u8 = 59;

pub const BLACK_KING_START: u8 = 4;
pub const BLACK_KING_SIDE_ROOK_START: u8 = 7;
pub const BLACK_QUEEN_SIDE_ROOK_START: u8 = 0;
pub const BLACK_KING_SIDE_CASTLE_TARGET: u8 = 6;
pub const BLACK_KING_SIDE_ROOK_TARGET: u8 = 5;
pub const BLACK_QUEEN_SIDE_CASTLE_TARGET: u8 = 2;
pub const BLACK_QUEEN_SIDE_ROOK_TARGET: u8 = 3;

pub const WHITE_MIN_ENPASSANT_TARGET: u8 = 16;
pub const BLACK_MIN_ENPASSANT_TARGET: u8 = 40;

/// The kind of the piece on each square, or `EMPTY`.
pub struct Mailbox {
    pub data: [u8; 64],
}

impl Mailbox {
    /// Gets the piece kind given a row and a column, counted from the top left corner.
    pub fn at(&self, row: u8, col: u8) -> (r: u8)
        requires
            row < 8,
            col < 8,
        ensures
            r == self.data[row * 8 + col],
    {
        self.at_sq(row * 8 + col)
    }

    /// Gets the piece kind on a square.
    pub fn at_sq(&self, sq: u8) -> (r: u8)
        requires
            sq < 64,
        ensures
            r == self.data[sq as int],
    {
        self.data[sq as usize]
    }

    pub fn new_empty() -> (r: Self)
        ensures
            forall|i: int| 0 <= i < 64 ==> r.data[i] == 6,
    {
        Mailbox { data: [6u8; 64] }
    }
}

} // verus!
