use vstd::prelude::*;
use crate::magical::{self, MagicalTable, slider_attack};
use crate::normal::{self, offset_entry, pawn_offsets, knight_offsets, king_offsets, connecting_ray};

verus! {

/// The attack tables: per-square tables of the pawns, knights and kings, magic tables of the
/// bishops and rooks, and the connecting rays of all pairs of squares.
pub struct MoveTables {
    pawn_attacks: [[u64; 64]; 2],
    knight_attacks: [u64; 64],
    bishop_attacks: Vec<MagicalTable>,
    rook_attacks: Vec<MagicalTable>,
    king_attacks: [u64; 64],
    to_from_table: [[u64; 64]; 64],
}

impl MoveTables {
    /// Every table holds what its definition says.
    pub closed spec fn wf(&self) -> bool {
        &&& forall|c: int, i: int|
            0 <= c < 2 && 0 <= i < 64 ==> #[trigger] self.pawn_attacks[c][i] == offset_entry(
                i,
                pawn_offsets(c),
            )
        &&& forall|i: int|
            0 <= i < 64 ==> #[trigger] self.knight_attacks[i] == offset_entry(i, knight_offsets())
        &&& forall|i: int|
            0 <= i < 64 ==> #[trigger] self.king_attacks[i] == offset_entry(i, king_offsets())
        &&& forall|i: int, j: int|
            0 <= i < 64 && 0 <= j < 64 ==> #[trigger] self.to_from_table[i][j] == connecting_ray(
                i,
                j,
            )
        &&& self.bishop_attacks@.len() == 64
        &&& self.rook_attacks@.len() == 64
        &&& forall|i: int| 0 <= i < 64 ==> #[trigger] self.bishop_attacks@[i].exact_for(i, true)
        &&& forall|i: int| 0 <= i < 64 ==> #[trigger] self.rook_attacks@[i].exact_for(i, false)
    }

    /// The magic table of a square for bishops (`is_bishop`) or rooks.
    pub closed spec fn slider_table(&self, sq: int, is_bishop: bool) -> MagicalTable {
        if is_bishop {
            self.bishop_attacks@[sq]
        } else {
            self.rook_attacks@[sq]
        }
    }

    pub open spec fn pawn_spec(&self, sq: int, turn: int) -> u64 {
        offset_entry(sq, pawn_offsets(turn))
    }

    pub open spec fn knight_spec(&self, sq: int) -> u64 {
        offset_entry(sq, knight_offsets())
    }

    pub open spec fn king_spec(&self, sq: int) -> u64 {
        offset_entry(sq, king_offsets())
    }

    /// What a bishop (`is_bishop`) or rook on `sq` attacks on occupancy `occ`: the squares that
    /// ray tracing finds, which a lookup in its table gives.
    pub open spec fn slider_spec(&self, sq: int, occ: u64, is_bishop: bool) -> u64 {
        slider_attack(sq, occ, is_bishop)
    }

    /// Builds the tables; `None` exactly when the constants of some square do not make a sound
    /// magic table.
    pub fn get_instance() -> (r: Option<MoveTables>)
        ensures
            r is Some <==> magical::magic_constants_sound(true) && magical::magic_constants_sound(
                false,
            ),
            r matches Some(t) ==> t.wf(),
    {
        let bishop_attacks = match magical::gen_bishop_attack_table() {
            Some(t) => t,
            None => {
                return None;
            },
        };
        let rook_attacks = match magical::gen_rook_attack_table() {
            Some(t) => t,
            None => {
                return None;
            },
        };
        Some(
            MoveTables {
                pawn_attacks: normal::gen_pawn_attack_table(),
                knight_attacks: normal::gen_knight_attack_table(),
                bishop_attacks,
                rook_attacks,
                king_attacks: normal::gen_king_attack_table(),
                to_from_table: normal::gen_to_from_table(),
            },
        )
    }

    /// The squares that a pawn of side `turn` on `sq` attacks.
    pub fn read_pawn_attacks(&self, sq: u8, turn: u8) -> (r: u64)
        requires
            self.wf(),
            sq < 64,
            turn < 2,
        ensures
            r == self.pawn_spec(sq as int, turn as int),
    {
        self.pawn_attacks[turn as usize][sq as usize]
    }

    /// The squares that a knight on `sq` attacks.
    pub fn read_knight_attacks(&self, sq: u8) -> (r: u64)
        requires
            self.wf(),
            sq < 64,
        ensures
            r == self.knight_spec(sq as int),
    {
        self.knight_attacks[sq as usize]
    }

    /// The squares that a bishop on `sq` attacks on the occupancy `occupancy`.
    pub fn read_bishop_attacks(&self, sq: u8, occupancy: u64) -> (r: u64)
        requires
            self.wf(),
            sq < 64,
        ensures
            r == magical::bishop_attack(sq as int, occupancy),
            r == self.slider_spec(sq as int, occupancy, true),
    {
        proof {
            assert(self.bishop_attacks@[sq as int].exact_for(sq as int, true));
            self.bishop_attacks@[sq as int].lemma_lookup_exact(sq as int, true, occupancy);
        }
        magical::read_magical_table(&self.bishop_attacks[sq as usize], occupancy)
    }

    /// The squares that a rook on `sq` attacks on the occupancy `occupancy`.
    pub fn read_rook_attacks(&self, sq: u8, occupancy: u64) -> (r: u64)
        requires
            self.wf(),
            sq < 64,
        ensures
            r == magical::rook_attack(sq as int, occupancy),
            r == self.slider_spec(sq as int, occupancy, false),
    {
        proof {
            assert(self.rook_attacks@[sq as int].exact_for(sq as int, false));
            self.rook_attacks@[sq as int].lemma_lookup_exact(sq as int, false, occupancy);
        }
        magical::read_magical_table(&self.rook_attacks[sq as usize], occupancy)
    }

    /// The squares that a king on `sq` attacks.
    pub fn read_king_attacks(&self, sq: u8) -> (r: u64)
        requires
            self.wf(),
            sq < 64,
        ensures
            r == self.king_spec(sq as int),
    {
        self.king_attacks[sq as usize]
    }

    /// The squares from `sq1` toward `sq2`, `sq1` excluded and `sq2` included, when they share
    /// a line; zero otherwise.
    pub fn read_to_from_table(&self, sq1: u8, sq2: u8) -> (r: u64)
        requires
            self.wf(),
            sq1 < 64,
            sq2 < 64,
        ensures
            r == connecting_ray(sq1 as int, sq2 as int),
    {
        self.to_from_table[sq1 as usize][sq2 as usize]
    }

    /// For every square and every occupancy, in particular every subset of the square's
    /// relevant squares, a lookup in the bishop or rook table equals the attacks that ray
    /// tracing gives; the table is keyed by exactly the relevant squares.
    pub proof fn lemma_magic_tables_exact(&self, sq: int, occ: u64, is_bishop: bool)
        requires
            self.wf(),
            0 <= sq < 64,
        ensures
            self.slider_table(sq, is_bishop).occupancy_mask == magical::slider_relevant(
                sq,
                is_bishop,
            ),
            self.slider_table(sq, is_bishop).num_bits == magical::table_bits(sq, is_bishop),
            self.slider_table(sq, is_bishop).lookup(occ) == slider_attack(sq, occ, is_bishop),
    {
        let t = self.slider_table(sq, is_bishop);
        if is_bishop {
            assert(self.bishop_attacks@[sq].exact_for(sq, true));
        } else {
            assert(self.rook_attacks@[sq].exact_for(sq, false));
        }
        t.lemma_lookup_exact(sq, is_bishop, occ);
    }
}

} // verus!
