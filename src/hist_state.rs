use vstd::prelude::*;
use crate::mailbox;

verus! {

pub const INIT_BOARD_STATE: u16 = 0;
pub const ENP_COL: u16 = 0xE0;
pub const PID_COL: u16 = 0xE0;
pub const ENP_AVAILABLE: u16 = 0x10;
pub const ENP_ALL: u16 = 0xF0;
pub const HALFMOVE_CLOCK: u16 = 0x3F00;
pub const HALFMOVE_FIFTY: u16 = 0x3200;

/// The irreversible part of a position, packed in 16 bits:
///
/// Bits 13 - 8 : the halfmove clock
/// Bits  7 - 5 : the en-passant column, or the kind of the captured piece
/// Bit       4 : whether an en-passant capture is available
/// Bits  3 - 0 : the castling rights, king side then queen side, black then white
#[derive(Clone, Copy, Debug, PartialEq, Eq, Structural)]
pub struct HistState {
    pub(crate) data: u16,
}

/// The castling-rights bit of one side and wing.
pub open spec fn right_bit(turn: u16, king_side: bool) -> u16 {
    if king_side {
        8u16 >> (2 * turn)
    } else {
        4u16 >> (2 * turn)
    }
}

proof fn lemma_right_ops(d: u16, t: u16, u: u16, ks: bool, ls: bool)
    by (bit_vector)
    requires
        t <= 1,
        u <= 1,
    ensures
        ((d & !right_bit(t, ks)) & right_bit(u, ls) != 0) == ((d & right_bit(u, ls) != 0) && !(t
            == u && ks == ls)),
        ((d | right_bit(t, ks)) & right_bit(u, ls) != 0) == ((d & right_bit(u, ls) != 0) || (t
            == u && ks == ls)),
        (d & !right_bit(t, ks)) & 0x3FF0 == d & 0x3FF0,
        (d | right_bit(t, ks)) & 0x3FF0 == d & 0x3FF0,
        d < 0x4000 ==> (d & !right_bit(t, ks)) < 0x4000,
        d < 0x4000 ==> (d | right_bit(t, ks)) < 0x4000,
{
}

proof fn lemma_right_all(d: u16, t: u16, ks: bool)
    requires
        t <= 1,
    ensures
        forall|u: u16, ls: bool|
            u <= 1 ==> ((#[trigger] (d & !right_bit(t, ks)) & right_bit(u, ls)) != 0) == ((d
                & right_bit(u, ls) != 0) && !(t == u && ks == ls)),
        forall|u: u16, ls: bool|
            u <= 1 ==> ((#[trigger] (d | right_bit(t, ks)) & right_bit(u, ls)) != 0) == ((d
                & right_bit(u, ls) != 0) || (t == u && ks == ls)),
        (d & !right_bit(t, ks)) & 0x3FF0 == d & 0x3FF0,
        (d | right_bit(t, ks)) & 0x3FF0 == d & 0x3FF0,
        d < 0x4000 ==> (d & !right_bit(t, ks)) < 0x4000,
        d < 0x4000 ==> (d | right_bit(t, ks)) < 0x4000,
{
    lemma_right_ops(d, t, 0, ks, true);
    lemma_right_ops(d, t, 0, ks, false);
    lemma_right_ops(d, t, 1, ks, true);
    lemma_right_ops(d, t, 1, ks, false);
    assert forall|u: u16, ls: bool| u <= 1 implies ((#[trigger] (d & !right_bit(t, ks))
        & right_bit(u, ls)) != 0) == ((d & right_bit(u, ls) != 0) && !(t == u && ks == ls)) by {
        lemma_right_ops(d, t, u, ks, ls);
    }
    assert forall|u: u16, ls: bool| u <= 1 implies ((#[trigger] (d | right_bit(t, ks))
        & right_bit(u, ls)) != 0) == ((d & right_bit(u, ls) != 0) || (t == u && ks == ls)) by {
        lemma_right_ops(d, t, u, ks, ls);
    }
}

proof fn lemma_slot_ops(d: u16, v: u16)
    by (bit_vector)
    requires
        v < 8,
    ensures
        ((d & !0xF0u16) | (v << 5u16)) & 0xF == d & 0xF,
        ((d & !0xF0u16) | (v << 5u16)) & 0x3F00 == d & 0x3F00,
        (((d & !0xF0u16) | (v << 5u16)) & 0xE0) >> 5u16 == v,
        ((d & !0xF0u16) | (v << 5u16)) & 0x10 == 0,
        (((d & !0xF0u16) | (v << 5u16)) | 0x10) & 0xF == d & 0xF,
        (((d & !0xF0u16) | (v << 5u16)) | 0x10) & 0x3F00 == d & 0x3F00,
        ((((d & !0xF0u16) | (v << 5u16)) | 0x10) & 0xE0) >> 5u16 == v,
        (((d & !0xF0u16) | (v << 5u16)) | 0x10) & 0x10 != 0,
        d < 0x4000 ==> ((d & !0xF0u16) | (v << 5u16)) < 0x4000,
        d < 0x4000 ==> (((d & !0xF0u16) | (v << 5u16)) | 0x10) < 0x4000,
        (d & 0xE0) >> 5u16 < 8,
        (d & 0x3F00) >> 8u16 < 64,
        ((d & !0xF0u16) | (v << 5u16)) & 0x3F0F == d & 0x3F0F,
        (((d & !0xF0u16) | (v << 5u16)) | 0x10) & 0x3F0F == d & 0x3F0F,
        (d & !0xF0u16) & 0x3F0F == d & 0x3F0F,
        (d & !0xF0u16) & 0x10 == 0,
        ((d & !0xF0u16) & 0xE0) >> 5u16 == 0,
        d < 0x4000 ==> (d & !0xF0u16) < 0x4000,
{
}

proof fn lemma_clock_ops(d: u16)
    by (bit_vector)
    ensures
        (d & !0x3F00u16) & 0xFF == d & 0xFF,
        (d & !0x3F00u16) & 0x3F00 == 0,
        d < 0x4000 ==> (d & !0x3F00u16) < 0x4000,
        d < 0x4000 && (d & 0x3F00) >> 8u16 < 63 ==> {
            &&& d + 0x100 < 0x4000
            &&& (((d + 0x100) as u16) & 0x3F00) >> 8u16 == ((d & 0x3F00) >> 8u16) + 1
            &&& ((d + 0x100) as u16) & 0xFF == d & 0xFF
        },
        ((d & 0x3F00) == 0x3200) == ((d & 0x3F00) >> 8u16 == 50),
{
}

impl HistState {
    /// Whether the packing is in range: only the low 14 bits are used.
    pub open(crate) spec fn wf(self) -> bool {
        self.data < 0x4000
    }

    pub open(crate) spec fn ksc(self, turn: u8) -> bool {
        self.data & right_bit(turn as u16, true) != 0
    }

    pub open(crate) spec fn qsc(self, turn: u8) -> bool {
        self.data & right_bit(turn as u16, false) != 0
    }

    pub open(crate) spec fn enp(self) -> bool {
        self.data & 0x10 != 0
    }

    /// The en-passant column, or the captured piece: the two share their bits.
    pub open(crate) spec fn slot(self) -> u16 {
        (self.data & 0xE0) >> 5u16
    }

    pub open(crate) spec fn clock(self) -> u16 {
        (self.data & 0x3F00) >> 8u16
    }

    pub open(crate) spec fn from_data_spec(data: u16) -> HistState {
        HistState { data }
    }

    pub open(crate) spec fn raw(self) -> u16 {
        self.data
    }

    /// The castling rights, the en-passant flag and the shared column or piece bits.
    pub open(crate) spec fn low_byte(self) -> u16 {
        self.data & 0xFF
    }

    /// Everything but the castling rights.
    pub open(crate) spec fn rest(self) -> u16 {
        self.data & 0x3FF0
    }

    /// The castling rights and the halfmove clock.
    pub open(crate) spec fn rights_and_clock(self) -> u16 {
        self.data & 0x3F0F
    }

    /// Returns true if the player still has the right to king side castle.
    pub fn has_ksc_right(&self, turn: u8) -> (r: bool)
        requires
            turn <= 1,
        ensures
            r == self.ksc(turn),
    {
        self.data & (8u16 >> (turn as u16 * 2)) != 0
    }

    /// Returns true if the player still has the right to queen side castle.
    pub fn has_qsc_right(&self, turn: u8) -> (r: bool)
        requires
            turn <= 1,
        ensures
            r == self.qsc(turn),
    {
        self.data & (4u16 >> (turn as u16 * 2)) != 0
    }

    /// Removes the right for a player to king side castle.
    pub fn remove_ksc_right(&mut self, turn: u8)
        requires
            turn <= 1,
        ensures
            forall|c: u8|
                c <= 1 ==> #[trigger] final(self).ksc(c) == (old(self).ksc(c) && c != turn),
            forall|c: u8| c <= 1 ==> #[trigger] final(self).qsc(c) == old(self).qsc(c),
            final(self).rest() == old(self).rest(),
            old(self).wf() ==> final(self).wf(),
    {
        proof {
            lemma_right_all(self.data, turn as u16, true);
        }
        self.data = self.data & !(8u16 >> (turn as u16 * 2));
    }

    /// Removes the right for a player to queen side castle.
    pub fn remove_qsc_right(&mut self, turn: u8)
        requires
            turn <= 1,
        ensures
            forall|c: u8| c <= 1 ==> #[trigger] final(self).ksc(c) == old(self).ksc(c),
            forall|c: u8|
                c <= 1 ==> #[trigger] final(self).qsc(c) == (old(self).qsc(c) && c != turn),
            final(self).rest() == old(self).rest(),
            old(self).wf() ==> final(self).wf(),
    {
        proof {
            lemma_right_all(self.data, turn as u16, false);
        }
        self.data = self.data & !(4u16 >> (turn as u16 * 2));
    }

    /// Removes all rights for a player to castle.
    pub fn remove_castle_rights(&mut self, turn: u8)
        requires
            turn <= 1,
        ensures
            forall|c: u8|
                c <= 1 ==> #[trigger] final(self).ksc(c) == (old(self).ksc(c) && c != turn),
            forall|c: u8|
                c <= 1 ==> #[trigger] final(self).qsc(c) == (old(self).qsc(c) && c != turn),
            final(self).rest() == old(self).rest(),
            old(self).wf() ==> final(self).wf(),
    {
        self.remove_ksc_right(turn);
        self.remove_qsc_right(turn);
    }

    /// Grants a player the right to king side castle.
    pub fn add_ksc_right(&mut self, turn: u8)
        requires
            turn <= 1,
        ensures
            forall|c: u8|
                c <= 1 ==> #[trigger] final(self).ksc(c) == (old(self).ksc(c) || c == turn),
            forall|c: u8| c <= 1 ==> #[trigger] final(self).qsc(c) == old(self).qsc(c),
            final(self).rest() == old(self).rest(),
            old(self).wf() ==> final(self).wf(),
    {
        proof {
            lemma_right_all(self.data, turn as u16, true);
        }
        self.data = self.data | (8u16 >> (turn as u16 * 2));
    }

    /// Grants a player the right to queen side castle.
    pub fn add_qsc_right(&mut self, turn: u8)
        requires
            turn <= 1,
        ensures
            forall|c: u8| c <= 1 ==> #[trigger] final(self).ksc(c) == old(self).ksc(c),
            forall|c: u8|
                c <= 1 ==> #[trigger] final(self).qsc(c) == (old(self).qsc(c) || c == turn),
            final(self).rest() == old(self).rest(),
            old(self).wf() ==> final(self).wf(),
    {
        proof {
            lemma_right_all(self.data, turn as u16, false);
        }
        self.data = self.data | (4u16 >> (turn as u16 * 2));
    }

    /// Grants a player all rights to castle.
    pub fn add_castle_rights(&mut self, turn: u8)
        requires
            turn <= 1,
        ensures
            forall|c: u8|
                c <= 1 ==> #[trigger] final(self).ksc(c) == (old(self).ksc(c) || c == turn),
            forall|c: u8|
                c <= 1 ==> #[trigger] final(self).qsc(c) == (old(self).qsc(c) || c == turn),
            final(self).rest() == old(self).rest(),
            old(self).wf() ==> final(self).wf(),
    {
        self.add_ksc_right(turn);
        self.add_qsc_right(turn);
    }

    /// Checks the availability of an en-passant capture.
    pub fn enp_avaliable(&self) -> (r: bool)
        ensures
            r == self.enp(),
    {
        self.data & ENP_AVAILABLE != 0
    }

    /// Gets the column of an en-passant capture.
    pub fn get_enp_col(&self) -> (r: u8)
        ensures
            r as u16 == self.slot(),
            r < 8,
    {
        proof {
            lemma_slot_ops(self.data, 0);
        }
        ((self.data & ENP_COL) >> 5) as u8
    }

    /// Gets the kind of the captured piece.
    pub fn get_captured_piece(&self) -> (r: u8)
        ensures
            r as u16 == self.slot(),
            r < 8,
    {
        proof {
            lemma_slot_ops(self.data, 0);
        }
        ((self.data & PID_COL) >> 5) as u8
    }

    /// Records an en-passant capture on the given column.
    pub fn set_enp(&mut self, enp_col: u8)
        requires
            enp_col < 8,
        ensures
            final(self).enp(),
            final(self).slot() == enp_col as u16,
            final(self).rights_and_clock() == old(self).rights_and_clock(),
            old(self).wf() ==> final(self).wf(),
    {
        proof {
            lemma_slot_ops(self.data, enp_col as u16);
        }
        self.data = ((self.data & !ENP_ALL) | ((enp_col as u16) << 5)) | ENP_AVAILABLE;
    }

    /// Ends the availability of an en-passant capture.
    pub fn decay_enp(&mut self)
        ensures
            !final(self).enp(),
            final(self).slot() == 0,
            final(self).rights_and_clock() == old(self).rights_and_clock(),
            old(self).wf() ==> final(self).wf(),
    {
        proof {
            lemma_slot_ops(self.data, 0);
        }
        self.data = self.data & !ENP_ALL;
    }

    /// Records the kind of the captured piece; an en-passant capture is no longer available.
    pub fn set_captured_piece(&mut self, piece: u8)
        requires
            piece < 8,
        ensures
            !final(self).enp(),
            final(self).slot() == piece as u16,
            final(self).rights_and_clock() == old(self).rights_and_clock(),
            old(self).wf() ==> final(self).wf(),
    {
        proof {
            lemma_slot_ops(self.data, piece as u16);
        }
        self.data = (self.data & !ENP_ALL) | ((piece as u16) << 5);
    }

    /// Returns true if the fifty-move rule has been met.
    pub fn halfmove_clock_done(&self) -> (r: bool)
        ensures
            r == (self.clock() == 50),
    {
        proof {
            lemma_clock_ops(self.data);
        }
        (self.data & HALFMOVE_CLOCK) == HALFMOVE_FIFTY
    }

    /// Resets the halfmove clock.
    pub fn reset_halfmove_clock(&mut self)
        ensures
            final(self).clock() == 0,
            final(self).low_byte() == old(self).low_byte(),
            old(self).wf() ==> final(self).wf(),
    {
        proof {
            lemma_clock_ops(self.data);
            let d = self.data & !0x3F00u16;
            assert((d & 0x3F00) == 0 ==> (d & 0x3F00) >> 8u16 == 0) by (bit_vector);
        }
        self.data = self.data & !HALFMOVE_CLOCK;
    }

    /// Increments the halfmove clock.
    pub fn increment_halfmove_clock(&mut self)
        requires
            old(self).wf(),
            old(self).clock() < 63,
        ensures
            final(self).clock() == old(self).clock() + 1,
            final(self).low_byte() == old(self).low_byte(),
            final(self).wf(),
    {
        proof {
            lemma_clock_ops(self.data);
        }
        self.data = self.data + 0x100;
    }

    /// Removes the castling rights that a move from `from` to `to` by the side `turn` ends:
    /// the mover's when its king or a rook leaves its starting square, the opponent's when a
    /// rook of theirs is captured on its starting square.
    pub fn decay_castle_rights(&mut self, turn: u8, to: u8, from: u8)
        requires
            turn <= 1,
        ensures
            forall|c: u8|
                c <= 1 ==> #[trigger] final(self).ksc(c) == (old(self).ksc(c) && !loses_ksc(
                    c,
                    turn,
                    to,
                    from,
                )),
            forall|c: u8|
                c <= 1 ==> #[trigger] final(self).qsc(c) == (old(self).qsc(c) && !loses_qsc(
                    c,
                    turn,
                    to,
                    from,
                )),
            final(self).rest() == old(self).rest(),
            old(self).wf() ==> final(self).wf(),
    {
        let enemy: u8 = 1 - turn;
        let (king_start, ks_rook, qs_rook, enemy_ks_rook, enemy_qs_rook) = if turn == 1 {
            (
                mailbox::WHITE_KING_START,
                mailbox::WHITE_KING_SIDE_ROOK_START,
                mailbox::WHITE_QUEEN_SIDE_ROOK_START,
                mailbox::BLACK_KING_SIDE_ROOK_START,
                mailbox::BLACK_QUEEN_SIDE_ROOK_START,
            )
        } else {
            (
                mailbox::BLACK_KING_START,
                mailbox::BLACK_KING_SIDE_ROOK_START,
                mailbox::BLACK_QUEEN_SIDE_ROOK_START,
                mailbox::WHITE_KING_SIDE_ROOK_START,
                mailbox::WHITE_QUEEN_SIDE_ROOK_START,
            )
        };
        // Moving the king or a rook off its starting square.
        if from == king_start {
            self.remove_castle_rights(turn);
        } else if from == ks_rook {
            self.remove_ksc_right(turn);
        } else if from == qs_rook {
            self.remove_qsc_right(turn);
        }
        // Capturing a rook on its starting square.

        if to == enemy_ks_rook {
            self.remove_ksc_right(enemy);
        } else if to == enemy_qs_rook {
            self.remove_qsc_right(enemy);
        }
    }

    pub fn from_data(data: u16) -> (r: HistState)
        ensures
            r.raw() == data,
            r == HistState::from_data_spec(data),
    {
        HistState { data }
    }
}

proof fn lemma_part_bits(a: u16, b: u16, t: u16)
    by (bit_vector)
    requires
        t <= 1,
    ensures
        a & 0x3F0F == b & 0x3F0F ==> {
            &&& (a & 0x3F00) >> 8u16 == (b & 0x3F00) >> 8u16
            &&& (a & right_bit(t, true) != 0) == (b & right_bit(t, true) != 0)
            &&& (a & right_bit(t, false) != 0) == (b & right_bit(t, false) != 0)
        },
        a & 0x3FF0 == b & 0x3FF0 ==> {
            &&& (a & 0x3F00) >> 8u16 == (b & 0x3F00) >> 8u16
            &&& (a & 0x10 != 0) == (b & 0x10 != 0)
            &&& (a & 0xE0) >> 5u16 == (b & 0xE0) >> 5u16
        },
{
}

/// The state with no rights, no en passant and a zero clock.
pub proof fn lemma_zero_state()
    ensures
        HistState::from_data_spec(0).wf(),
        HistState::from_data_spec(0).clock() == 0,
        !HistState::from_data_spec(0).enp(),
        forall|c: u8| c <= 1 ==> !#[trigger] HistState::from_data_spec(0).ksc(c),
        forall|c: u8| c <= 1 ==> !#[trigger] HistState::from_data_spec(0).qsc(c),
{
    lemma_part_bits(0, 0, 0);
    assert forall|c: u8| c <= 1 implies !#[trigger] HistState::from_data_spec(0).ksc(c) by {
        lemma_zero_bits(c as u16);
    }
    assert forall|c: u8| c <= 1 implies !#[trigger] HistState::from_data_spec(0).qsc(c) by {
        lemma_zero_bits(c as u16);
    }
    lemma_zero_bits(0);
}

proof fn lemma_zero_bits(t: u16)
    by (bit_vector)
    requires
        t <= 1,
    ensures
        0u16 & right_bit(t, true) == 0,
        0u16 & right_bit(t, false) == 0,
        (0u16 & 0x3F00) >> 8u16 == 0,
        0u16 & 0x10 == 0,
{
}

/// What equal parts of two states say of their fields.
pub proof fn lemma_state_parts(a: HistState, b: HistState)
    ensures
        a.rights_and_clock() == b.rights_and_clock() ==> {
            &&& a.clock() == b.clock()
            &&& forall|c: u8| c <= 1 ==> #[trigger] a.ksc(c) == b.ksc(c)
            &&& forall|c: u8| c <= 1 ==> #[trigger] a.qsc(c) == b.qsc(c)
        },
        a.rest() == b.rest() ==> {
            &&& a.clock() == b.clock()
            &&& a.enp() == b.enp()
            &&& a.slot() == b.slot()
        },
{
    lemma_part_bits(a.data, b.data, 0);
    lemma_part_bits(a.data, b.data, 1);
    assert forall|c: u8| c <= 1 implies (#[trigger] a.ksc(c) == b.ksc(c) && a.qsc(c) == b.qsc(c))
        || a.rights_and_clock() != b.rights_and_clock() by {
        lemma_part_bits(a.data, b.data, c as u16);
    }
}

/// The king's starting square of a side.
pub open spec fn king_start(c: u8) -> u8 {
    if c == 1 {
        mailbox::WHITE_KING_START
    } else {
        mailbox::BLACK_KING_START
    }
}

pub open spec fn ks_rook_start(c: u8) -> u8 {
    if c == 1 {
        mailbox::WHITE_KING_SIDE_ROOK_START
    } else {
        mailbox::BLACK_KING_SIDE_ROOK_START
    }
}

pub open spec fn qs_rook_start(c: u8) -> u8 {
    if c == 1 {
        mailbox::WHITE_QUEEN_SIDE_ROOK_START
    } else {
        mailbox::BLACK_QUEEN_SIDE_ROOK_START
    }
}

/// Whether side `c` loses its king side right when side `turn` moves from `from` to `to`.
pub open spec fn loses_ksc(c: u8, turn: u8, to: u8, from: u8) -> bool {
    if c == turn {
        from == king_start(c) || from == ks_rook_start(c)
    } else {
        to == ks_rook_start(c)
    }
}

/// Whether side `c` loses its queen side right when side `turn` moves from `from` to `to`.
pub open spec fn loses_qsc(c: u8, turn: u8, to: u8, from: u8) -> bool {
    if c == turn {
        from == king_start(c) || from == qs_rook_start(c)
    } else {
        to == qs_rook_start(c)
    }
}

} // verus!
