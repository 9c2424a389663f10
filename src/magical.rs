use vstd::prelude::*;
use crate::bitboard::{
    bit, is_set, is_lowest_square, lowest_square, pop_rbit, lemma_or_shift, lemma_has_ops,
    lemma_lowest_exists,
};

verus! {

/// The largest index width of a table.
pub const MAX_BITS_IN_TABLE: u8 = 12;
pub const MAX_TABLE_SIZE: usize = 4096;

/// A magic-bitboard table of one square for one sliding piece kind.
pub struct MagicalTable {
    pub num_bits: u8,
    pub data: Vec<u64>,
    pub occupancy_mask: u64,
    pub magic: u64,
}

pub open spec fn on_board(r: int, f: int) -> bool {
    0 <= r < 8 && 0 <= f < 8
}

pub open spec fn square_of(r: int, f: int) -> u64 {
    (r * 8 + f) as u64
}

pub open spec fn is_step(dr: int, df: int) -> bool {
    -1 <= dr <= 1 && -1 <= df <= 1 && !(dr == 0 && df == 0)
}

/// How many more steps in direction (dr, df) stay on the board from (r, f).
pub open spec fn steps_left(r: int, f: int, dr: int, df: int) -> int {
    if dr == 1 {
        8 - r
    } else if dr == -1 {
        r + 1
    } else if df == 1 {
        8 - f
    } else {
        f + 1
    }
}

/// The squares that a slider reaches stepping by (dr, df) from (r, f) on: each square up to and
/// including the first occupied one.
pub open spec fn ray(r: int, f: int, dr: int, df: int, occ: u64) -> u64
    decreases steps_left(r, f, dr, df),
{
    if !on_board(r, f) || !is_step(dr, df) {
        0
    } else if occ & bit(square_of(r, f)) != 0 {
        bit(square_of(r, f))
    } else {
        bit(square_of(r, f)) | ray(r + dr, f + df, dr, df, occ)
    }
}

/// The squares from (r, f) on in direction (dr, df) that are not the last one on the board.
pub open spec fn inner_ray(r: int, f: int, dr: int, df: int) -> u64
    decreases steps_left(r, f, dr, df),
{
    if !on_board(r, f) || !on_board(r + dr, f + df) || !is_step(dr, df) {
        0
    } else {
        bit(square_of(r, f)) | inner_ray(r + dr, f + df, dr, df)
    }
}

/// The squares that a rook on `sq` attacks on the occupancy `occ`.
pub open spec fn rook_attack(sq: int, occ: u64) -> u64 {
    let r = sq / 8;
    let f = sq % 8;
    ray(r + 1, f, 1, 0, occ) | ray(r - 1, f, -1, 0, occ) | ray(r, f + 1, 0, 1, occ) | ray(
        r,
        f - 1,
        0,
        -1,
        occ,
    )
}

/// The squares that a bishop on `sq` attacks on the occupancy `occ`.
pub open spec fn bishop_attack(sq: int, occ: u64) -> u64 {
    let r = sq / 8;
    let f = sq % 8;
    ray(r + 1, f + 1, 1, 1, occ) | ray(r + 1, f - 1, 1, -1, occ) | ray(r - 1, f + 1, -1, 1, occ)
        | ray(r - 1, f - 1, -1, -1, occ)
}

pub open spec fn slider_attack(sq: int, occ: u64, is_bishop: bool) -> u64 {
    if is_bishop {
        bishop_attack(sq, occ)
    } else {
        rook_attack(sq, occ)
    }
}

/// The squares whose occupancy can change what a rook on `sq` attacks.
pub open spec fn rook_relevant(sq: int) -> u64 {
    let r = sq / 8;
    let f = sq % 8;
    inner_ray(r + 1, f, 1, 0) | inner_ray(r - 1, f, -1, 0) | inner_ray(r, f + 1, 0, 1) | inner_ray(
        r,
        f - 1,
        0,
        -1,
    )
}

/// The squares whose occupancy can change what a bishop on `sq` attacks.
pub open spec fn bishop_relevant(sq: int) -> u64 {
    let r = sq / 8;
    let f = sq % 8;
    inner_ray(r + 1, f + 1, 1, 1) | inner_ray(r + 1, f - 1, 1, -1) | inner_ray(r - 1, f + 1, -1, 1)
        | inner_ray(r - 1, f - 1, -1, -1)
}

pub open spec fn slider_relevant(sq: int, is_bishop: bool) -> u64 {
    if is_bishop {
        bishop_relevant(sq)
    } else {
        rook_relevant(sq)
    }
}

/// The occupancy numbered `index` among the subsets of `mask`: bit `i` of the index says
/// whether the `i`-th lowest square of the mask is occupied, for the lowest `n` squares.
pub open spec fn subset_at(index: u64, mask: u64, n: nat) -> u64
    decreases n,
{
    if n == 0 || mask == 0 {
        0
    } else {
        let j = lowest_square(mask);
        (if index & 1 == 1 {
            bit(j)
        } else {
            0
        }) | subset_at(index >> 1u64, mask ^ bit(j), (n - 1) as nat)
    }
}

/// What is left of `mask` once its `n` lowest squares are taken out.
pub open spec fn strip(mask: u64, n: nat) -> u64
    decreases n,
{
    if n == 0 || mask == 0 {
        mask
    } else {
        strip(mask ^ bit(lowest_square(mask)), (n - 1) as nat)
    }
}

/// The number of the subset `s` of `mask` in the enumeration of `subset_at`.
pub open spec fn index_of(s: u64, mask: u64, n: nat) -> u64
    decreases n,
{
    if n == 0 || mask == 0 {
        0
    } else {
        let l = lowest_square(mask);
        ((if is_set(s, l) {
            1u64
        } else {
            0u64
        }) + 2 * index_of(s & !bit(l), mask ^ bit(l), (n - 1) as nat)) as u64
    }
}

proof fn lemma_index_bits(s: u64, mask: u64, l: u64, k: u64, n: u64, occ: u64)
    by (bit_vector)
    requires
        l < 64,
        n <= 12,
    ensures
        (s & !mask == 0 && mask & (1u64 << l) != 0) ==> (s & !(1u64 << l)) & !(mask ^ (1u64
            << l)) == 0,
        (if s & (1u64 << l) != 0 {
            1u64 << l
        } else {
            0u64
        }) | (s & !(1u64 << l)) == s,
        (1 <= n && k < (1u64 << ((n - 1) as u64))) ==> {
            let j = ((if s & (1u64 << l) != 0 {
                1u64
            } else {
                0u64
            }) + 2 * k) as u64;
            &&& j < (1u64 << n)
            &&& (j & 1 == 1) == (s & (1u64 << l) != 0)
            &&& j >> 1u64 == k
        },
        s & !0u64 == 0 ==> s == 0,
        0 < (1u64 << n),
        (occ & mask) & !mask == 0,
        (occ & mask) & mask == occ & mask,
{
}

/// Every subset of `mask` is enumerated by `subset_at` once the width `n` takes in all of the
/// mask's squares.
pub proof fn lemma_index_of(s: u64, mask: u64, n: nat)
    requires
        n <= MAX_BITS_IN_TABLE,
        strip(mask, n) == 0,
        s & !mask == 0,
    ensures
        index_of(s, mask, n) < (1u64 << n),
        subset_at(index_of(s, mask, n), mask, n) == s,
    decreases n,
{
    lemma_index_bits(s, mask, 0, 0, n as u64, 0);
    if n == 0 || mask == 0 {
    } else {
        lemma_lowest_exists(mask);
        let l = lowest_square(mask);
        let m2 = mask ^ bit(l);
        let s2 = s & !bit(l);
        lemma_index_bits(s, mask, l, 0, n as u64, 0);
        lemma_index_of(s2, m2, (n - 1) as nat);
        let k = index_of(s2, m2, (n - 1) as nat);
        lemma_index_bits(s, mask, l, k, n as u64, 0);
    }
}

/// Whether `mask` has at most `n` squares: taking out its `n` lowest squares leaves nothing.
fn fits_in_width(mask: u64, n: u8) -> (r: bool)
    ensures
        r == (strip(mask, n as nat) == 0),
{
    let mut m = mask;
    let mut i: u8 = 0;
    while i < n && m != 0
        invariant
            i <= n,
            strip(m, (n - i) as nat) == strip(mask, n as nat),
        decreases n - i,
    {
        pop_rbit(&mut m);
        i = i + 1;
    }
    m == 0
}

/// A slider's ray depends on the occupancy of its squares before the last one only.
proof fn lemma_ray_agree(r: int, f: int, dr: int, df: int, o1: u64, o2: u64)
    requires
        forall|t: u64| t < 64 && #[trigger] is_set(inner_ray(r, f, dr, df), t) ==> is_set(o1, t) == is_set(o2, t),
    ensures
        ray(r, f, dr, df, o1) == ray(r, f, dr, df, o2),
    decreases steps_left(r, f, dr, df),
{
    if on_board(r, f) && is_step(dr, df) {
        let s = square_of(r, f);
        assert(s < 64);
        lemma_has_ops();
        if on_board(r + dr, f + df) {
            assert(inner_ray(r, f, dr, df) == bit(s) | inner_ray(r + dr, f + df, dr, df));
            assert(is_set(bit(s), s));
            assert(is_set(inner_ray(r, f, dr, df), s));
            assert(is_set(o1, s) == is_set(o2, s));
            assert forall|t: u64| t < 64 && #[trigger] is_set(inner_ray(r + dr, f + df, dr, df), t) implies is_set(o1, t) == is_set(o2, t) by {
                assert(is_set(inner_ray(r, f, dr, df), t));
            }
            lemma_ray_agree(r + dr, f + df, dr, df, o1, o2);
            assert(ray(r, f, dr, df, o1) == ray(r, f, dr, df, o2));
        } else {
            assert(ray(r + dr, f + df, dr, df, o1) == 0);
            assert(ray(r + dr, f + df, dr, df, o2) == 0);
            lemma_or_shift(bit(s), 0, 0, 0);
        }
    }
}

/// Restricting the occupancy to the squares of `rel` keeps a ray whose inner squares are in
/// `rel`.
proof fn lemma_ray_relevant(r: int, f: int, dr: int, df: int, occ: u64, rel: u64)
    requires
        forall|t: u64| t < 64 && #[trigger] is_set(inner_ray(r, f, dr, df), t) ==> is_set(rel, t),
    ensures
        ray(r, f, dr, df, occ) == ray(r, f, dr, df, occ & rel),
{
    lemma_has_ops();
    lemma_ray_agree(r, f, dr, df, occ, occ & rel);
}

/// What a slider attacks depends on the occupancy of its relevant squares only.
pub proof fn lemma_attack_relevant(sq: int, occ: u64, is_bishop: bool)
    requires
        0 <= sq < 64,
    ensures
        slider_attack(sq, occ, is_bishop) == slider_attack(
            sq,
            occ & slider_relevant(sq, is_bishop),
            is_bishop,
        ),
{
    let r = sq / 8;
    let f = sq % 8;
    let rel = slider_relevant(sq, is_bishop);
    lemma_has_ops();
    if is_bishop {
        lemma_ray_relevant(r + 1, f + 1, 1, 1, occ, rel);
        lemma_ray_relevant(r + 1, f - 1, 1, -1, occ, rel);
        lemma_ray_relevant(r - 1, f + 1, -1, 1, occ, rel);
        lemma_ray_relevant(r - 1, f - 1, -1, -1, occ, rel);
    } else {
        lemma_ray_relevant(r + 1, f, 1, 0, occ, rel);
        lemma_ray_relevant(r - 1, f, -1, 0, occ, rel);
        lemma_ray_relevant(r, f + 1, 0, 1, occ, rel);
        lemma_ray_relevant(r, f - 1, 0, -1, occ, rel);
    }
}

/// The slot of a table that the occupancy `occ` hashes to.
pub open spec fn magic_key(mask: u64, magic: u64, num_bits: u8, occ: u64) -> u64 {
    ((occ & mask).wrapping_mul(magic)) >> ((64 - num_bits) as u64)
}

impl MagicalTable {
    pub open spec fn key(&self, occ: u64) -> u64 {
        magic_key(self.occupancy_mask, self.magic, self.num_bits, occ)
    }

    /// The occupancy numbered `j` among the subsets of the table's relevant squares.
    pub open spec fn subset(&self, j: u64) -> u64 {
        subset_at(j, self.occupancy_mask, self.num_bits as nat)
    }

    pub open spec fn lookup(&self, occ: u64) -> u64 {
        self.data@[self.key(occ) as int]
    }

    /// The table can be read: its size matches its index width.
    pub open spec fn readable(&self) -> bool {
        1 <= self.num_bits <= MAX_BITS_IN_TABLE && self.data@.len() == (1u64 << self.num_bits)
    }

    /// The table answers every enumerated occupancy of square `sq` with the attacks that ray
    /// tracing gives.
    pub open spec fn wf_for(&self, sq: int, is_bishop: bool) -> bool {
        &&& self.readable()
        &&& self.occupancy_mask == slider_relevant(sq, is_bishop)
        &&& forall|j: u64|
            j < (1u64 << self.num_bits) ==> #[trigger] self.lookup(self.subset(j))
                == slider_attack(sq, self.subset(j), is_bishop)
    }
}

impl MagicalTable {
    /// The table of square `sq`: answers every enumerated occupancy with the traced attacks,
    /// has the square's index width, and that width takes in all of its relevant squares.
    pub open spec fn exact_for(&self, sq: int, is_bishop: bool) -> bool {
        &&& self.wf_for(sq, is_bishop)
        &&& self.num_bits == table_bits(sq, is_bishop)
        &&& strip(self.occupancy_mask, self.num_bits as nat) == 0
    }

    /// A lookup in the table of square `sq` gives what a slider on `sq` attacks, for every
    /// occupancy.
    pub proof fn lemma_lookup_exact(&self, sq: int, is_bishop: bool, occ: u64)
        requires
            0 <= sq < 64,
            self.exact_for(sq, is_bishop),
        ensures
            self.lookup(occ) == slider_attack(sq, occ, is_bishop),
    {
        let mask = self.occupancy_mask;
        let s = occ & mask;
        lemma_index_bits(0, mask, 0, 0, 0, occ);
        lemma_index_of(s, mask, self.num_bits as nat);
        let j = index_of(s, mask, self.num_bits as nat);
        assert(self.subset(j) == s);
        assert(self.lookup(self.subset(j)) == slider_attack(sq, self.subset(j), is_bishop));
        assert(self.key(occ) == self.key(s));
        lemma_attack_relevant(sq, occ, is_bishop);
    }
}

proof fn lemma_key_bound(x: u64, n: u8)
    by (bit_vector)
    requires
        1 <= n <= 12,
    ensures
        x >> ((64 - n) as u64) < (1u64 << n),
        (1u64 << n) <= 4096,
{
}

/// Reads a table: the attacks stored for the slot that the occupancy hashes to.
pub fn read_magical_table(table: &MagicalTable, occupancy: u64) -> (r: u64)
    requires
        table.readable(),
    ensures
        r == table.lookup(occupancy),
{
    let key = get_key(table, occupancy);
    table.data[key as usize]
}

fn get_key(table: &MagicalTable, occupancy: u64) -> (r: u16)
    requires
        table.readable(),
    ensures
        r as u64 == table.key(occupancy),
        (r as u64) < (1u64 << table.num_bits),
{
    let masked = occupancy & table.occupancy_mask;
    let hashed = masked.wrapping_mul(table.magic);
    let key = hashed >> ((64 - table.num_bits) as u64);
    proof {
        lemma_key_bound(hashed, table.num_bits);
    }
    key as u16
}

/// The squares a slider reaches from (r, f) on, stepping by (dr, df).
pub(crate) fn slide(r: i8, f: i8, dr: i8, df: i8, occ: u64) -> (res: u64)
    requires
        -1 <= r <= 8,
        -1 <= f <= 8,
        is_step(dr as int, df as int),
    ensures
        res == ray(r as int, f as int, dr as int, df as int, occ),
    decreases steps_left(r as int, f as int, dr as int, df as int),
{
    if r < 0 || r >= 8 || f < 0 || f >= 8 {
        return 0;
    }
    let b: u64 = 1u64 << ((r * 8 + f) as u64);
    if occ & b != 0 {
        b
    } else {
        b | slide(r + dr, f + df, dr, df, occ)
    }
}

/// The squares from (r, f) on in direction (dr, df) that are not the last one on the board.
fn inner_slide(r: i8, f: i8, dr: i8, df: i8) -> (res: u64)
    requires
        -1 <= r <= 8,
        -1 <= f <= 8,
        is_step(dr as int, df as int),
    ensures
        res == inner_ray(r as int, f as int, dr as int, df as int),
    decreases steps_left(r as int, f as int, dr as int, df as int),
{
    if r < 0 || r >= 8 || f < 0 || f >= 8 || r + dr < 0 || r + dr >= 8 || f + df < 0 || f + df
        >= 8 {
        return 0;
    }
    let b: u64 = 1u64 << ((r * 8 + f) as u64);
    b | inner_slide(r + dr, f + df, dr, df)
}

fn get_rook_occ_mask(sq: u8) -> (r: u64)
    requires
        sq < 64,
    ensures
        r == rook_relevant(sq as int),
{
    let rank = (sq / 8) as i8;
    let file = (sq % 8) as i8;
    inner_slide(rank + 1, file, 1, 0) | inner_slide(rank - 1, file, -1, 0) | inner_slide(
        rank,
        file + 1,
        0,
        1,
    ) | inner_slide(rank, file - 1, 0, -1)
}

fn get_bishop_occ_mask(sq: u8) -> (r: u64)
    requires
        sq < 64,
    ensures
        r == bishop_relevant(sq as int),
{
    let rank = (sq / 8) as i8;
    let file = (sq % 8) as i8;
    inner_slide(rank + 1, file + 1, 1, 1) | inner_slide(rank + 1, file - 1, 1, -1) | inner_slide(
        rank - 1,
        file + 1,
        -1,
        1,
    ) | inner_slide(rank - 1, file - 1, -1, -1)
}

/// The squares that a bishop on `sq` attacks, found by stepping along each diagonal up to and
/// including the first occupied square.
pub fn get_bishop_attack_mask(sq: u8, occupied: u64) -> (r: u64)
    requires
        sq < 64,
    ensures
        r == bishop_attack(sq as int, occupied),
{
    let rank = (sq / 8) as i8;
    let file = (sq % 8) as i8;
    slide(rank + 1, file + 1, 1, 1, occupied) | slide(rank + 1, file - 1, 1, -1, occupied) | slide(
        rank - 1,
        file + 1,
        -1,
        1,
        occupied,
    ) | slide(rank - 1, file - 1, -1, -1, occupied)
}

/// The squares that a rook on `sq` attacks, found by stepping along each line up to and
/// including the first occupied square.
pub fn get_rook_attack_mask(sq: u8, occupied: u64) -> (r: u64)
    requires
        sq < 64,
    ensures
        r == rook_attack(sq as int, occupied),
{
    let rank = (sq / 8) as i8;
    let file = (sq % 8) as i8;
    slide(rank + 1, file, 1, 0, occupied) | slide(rank - 1, file, -1, 0, occupied) | slide(
        rank,
        file + 1,
        0,
        1,
        occupied,
    ) | slide(rank, file - 1, 0, -1, occupied)
}

/// The magic multipliers of the rook tables, one per square.
pub const ROOK_MAGICS: [u64; 64] = [
    0xa8002c000108020, 0x6c00049b0002001, 0x100200010090040, 0x2480041000800801,
    0x280028004000800, 0x900410008040022, 0x280020001001080, 0x2880002041000080,
    0xa000800080400034, 0x4808020004000, 0x2290802004801000, 0x411000d00100020,
    0x402800800040080, 0xb000401004208, 0x2409000100040200, 0x1002100004082,
    0x22878001e24000, 0x1090810021004010, 0x801030040200012, 0x500808008001000,
    0xa08018014000880, 0x8000808004000200, 0x201008080010200, 0x801020000441091,
    0x800080204005, 0x1040200040100048, 0x120200402082, 0xd14880480100080,
    0x12040280080080, 0x100040080020080, 0x9020010080800200, 0x813241200148449,
    0x491604001800080, 0x100401000402001, 0x4820010021001040, 0x400402202000812,
    0x209009005000802, 0x810800601800400, 0x4301083214000150, 0x204026458e001401,
    0x40204000808000, 0x8001008040010020, 0x8410820820420010, 0x1003001000090020,
    0x804040008008080, 0x12000810020004, 0x1000100200040208, 0x430000a044020001,
    0x280009023410300, 0xe0100040002240, 0x200100401700, 0x2244100408008080,
    0x8000400801980, 0x2000810040200, 0x8010100228810400, 0x2000009044210200,
    0x4080008040102101, 0x40002080411d01, 0x2005524060000901, 0x502001008400422,
    0x489a000810200402, 0x1004400080a13, 0x4000011008020084, 0x26002114058042,
];

/// The magic multipliers of the bishop tables, one per square.
pub const BISHOP_MAGICS: [u64; 64] = [
    0x89a1121896040240, 0x2004844802002010, 0x2068080051921000, 0x62880a0220200808,
    0x4042004000000, 0x100822020200011, 0xc00444222012000a, 0x28808801216001,
    0x400492088408100, 0x201c401040c0084, 0x840800910a0010, 0x82080240060,
    0x2000840504006000, 0x30010c4108405004, 0x1008005410080802, 0x8144042209100900,
    0x208081020014400, 0x4800201208ca00, 0xf18140408012008, 0x1004002802102001,
    0x841000820080811, 0x40200200a42008, 0x800054042000, 0x88010400410c9000,
    0x520040470104290, 0x1004040051500081, 0x2002081833080021, 0x400c00c010142,
    0x941408200c002000, 0x658810000806011, 0x188071040440a00, 0x4800404002011c00,
    0x104442040404200, 0x511080202091021, 0x4022401120400, 0x80c0040400080120,
    0x8040010040820802, 0x480810700020090, 0x102008e00040242, 0x809005202050100,
    0x8002024220104080, 0x431008804142000, 0x19001802081400, 0x200014208040080,
    0x3308082008200100, 0x41010500040c020, 0x4012020c04210308, 0x208220a202004080,
    0x111040120082000, 0x6803040141280a00, 0x2101004202410000, 0x8200000041108022,
    0x21082088000, 0x2410204010040, 0x40100400809000, 0x822088220820214,
    0x40808090012004, 0x910224040218c9, 0x402814422015008, 0x90014004842410,
    0x1000042304105, 0x10008830412a00, 0x2520081090008908, 0x40102000a0a60140,
];

/// The index width of the bishop table of each square.
pub const NUM_BISHOP_BITS: [u8; 64] = [
    6, 5, 5, 5, 5, 5, 5, 6,
    5, 5, 5, 5, 5, 5, 5, 5,
    5, 5, 7, 7, 7, 7, 5, 5,
    5, 5, 7, 9, 9, 7, 5, 5,
    5, 5, 7, 9, 9, 7, 5, 5,
    5, 5, 7, 7, 7, 7, 5, 5,
    5, 5, 5, 5, 5, 5, 5, 5,
    6, 5, 5, 5, 5, 5, 5, 6,
];

/// The index width of the rook table of each square.
pub const NUM_ROOK_BITS: [u8; 64] = [
    12, 11, 11, 11, 11, 11, 11, 12,
    11, 10, 10, 10, 10, 10, 10, 11,
    11, 10, 10, 10, 10, 10, 10, 11,
    11, 10, 10, 10, 10, 10, 10, 11,
    11, 10, 10, 10, 10, 10, 10, 11,
    11, 10, 10, 10, 10, 10, 10, 11,
    11, 10, 10, 10, 10, 10, 10, 11,
    12, 11, 11, 11, 11, 11, 11, 12,
];

/// The index widths are in range.
proof fn lemma_num_bits()
    ensures
        forall|i: int| 0 <= i < 64 ==> 1 <= #[trigger] NUM_BISHOP_BITS[i] <= MAX_BITS_IN_TABLE,
        forall|i: int| 0 <= i < 64 ==> 1 <= #[trigger] NUM_ROOK_BITS[i] <= MAX_BITS_IN_TABLE,
{
}

/// No two enumerated occupancies of square `sq` with different attacks share a slot of the
/// table with the given width and multiplier.
pub open spec fn collision_free(sq: int, num_bits: u8, magic: u64, is_bishop: bool) -> bool {
    let mask = slider_relevant(sq, is_bishop);
    forall|i: u64, j: u64|
        i < (1u64 << num_bits) && j < (1u64 << num_bits) && #[trigger] magic_key(
            mask,
            magic,
            num_bits,
            subset_at(i, mask, num_bits as nat),
        ) == #[trigger] magic_key(mask, magic, num_bits, subset_at(j, mask, num_bits as nat))
            ==> slider_attack(sq, subset_at(i, mask, num_bits as nat), is_bishop) == slider_attack(
            sq,
            subset_at(j, mask, num_bits as nat),
            is_bishop,
        )
}

/// The index width of the table of square `sq`.
pub open spec fn table_bits(sq: int, is_bishop: bool) -> u8 {
    if is_bishop {
        NUM_BISHOP_BITS[sq]
    } else {
        NUM_ROOK_BITS[sq]
    }
}

/// The magic multiplier of the table of square `sq`.
pub open spec fn table_magic(sq: int, is_bishop: bool) -> u64 {
    if is_bishop {
        BISHOP_MAGICS[sq]
    } else {
        ROOK_MAGICS[sq]
    }
}

/// The constants of square `sq` make a sound table: its width takes in all of its relevant
/// squares, and its multiplier is collision free.
pub open spec fn square_constants_sound(sq: int, is_bishop: bool) -> bool {
    &&& strip(slider_relevant(sq, is_bishop), table_bits(sq, is_bishop) as nat) == 0
    &&& collision_free(sq, table_bits(sq, is_bishop), table_magic(sq, is_bishop), is_bishop)
}

/// The constants of every square make sound tables, for bishops or for rooks.
pub open spec fn magic_constants_sound(is_bishop: bool) -> bool {
    forall|sq: int| 0 <= sq < 64 ==> #[trigger] square_constants_sound(sq, is_bishop)
}

/// The occupancy numbered `index` among the subsets of `occupancy_mask`.
fn map_index_to_occupancy_mask(index: u64, num_bits: u8, occupancy_mask: u64) -> (r: u64)
    requires
        num_bits <= MAX_BITS_IN_TABLE,
    ensures
        r == subset_at(index, occupancy_mask, num_bits as nat),
{
    let mut result: u64 = 0;
    let mut mask: u64 = occupancy_mask;
    let mut i: u8 = 0;
    proof {
        lemma_or_shift(subset_at(index, occupancy_mask, num_bits as nat), 0, 0, 0);
        lemma_or_shift(index, 0, 0, 0);
    }
    while i < num_bits && mask != 0
        invariant
            i <= num_bits <= MAX_BITS_IN_TABLE,
            result | subset_at(index >> (i as u64), mask, (num_bits - i) as nat) == subset_at(
                index,
                occupancy_mask,
                num_bits as nat,
            ),
        decreases num_bits - i,
    {
        let ghost old_mask = mask;
        let ghost rest = subset_at((index >> (i as u64)) >> 1u64, mask ^ bit(lowest_square(mask)), (num_bits - i - 1) as nat);
        let j = pop_rbit(&mut mask);
        proof {
            lemma_or_shift(index, 0, 0, i as u64);
            lemma_or_shift(result, 1u64 << j, rest, i as u64);
            lemma_or_shift(result, 0, rest, i as u64);
        }
        if index & (1u64 << i) != 0 {
            result = result | (1u64 << j);
        }
        i = i + 1;
    }
    proof {
        lemma_or_shift(result, 0, 0, 0);
    }
    result
}

/// Builds the table of square `sq`; `None` when the width does not take in all of the relevant
/// squares, or when two occupancies with different attacks hash to the same slot.
fn gen_square_table(sq: u8, num_bits: u8, magic: u64, is_bishop: bool) -> (r: Option<
    MagicalTable,
>)
    requires
        sq < 64,
        1 <= num_bits <= MAX_BITS_IN_TABLE,
    ensures
        r is Some <==> strip(slider_relevant(sq as int, is_bishop), num_bits as nat) == 0
            && collision_free(sq as int, num_bits, magic, is_bishop),
        r matches Some(t) ==> t.wf_for(sq as int, is_bishop) && t.num_bits == num_bits && t.magic
            == magic && strip(t.occupancy_mask, num_bits as nat) == 0,
{
    let mask = if is_bishop {
        get_bishop_occ_mask(sq)
    } else {
        get_rook_occ_mask(sq)
    };
    if !fits_in_width(mask, num_bits) {
        return None;
    }
    proof {
        lemma_key_bound(0, num_bits);
    }
    let size: u64 = 1u64 << num_bits;
    let mut data: Vec<u64> = Vec::new();
    let mut k: u64 = 0;
    while k < size
        invariant
            k <= size <= 4096,
            data@.len() == k,
        decreases size - k,
    {
        data.push(0);
        k = k + 1;
    }
    let mut table = MagicalTable { num_bits, data, occupancy_mask: mask, magic };
    // Enumerate the occupancies and their attacks.
    let mut occupied: Vec<u64> = Vec::new();
    let mut legal: Vec<u64> = Vec::new();
    let mut j: u64 = 0;
    while j < size
        invariant
            j <= size == (1u64 << num_bits) <= 4096,
            1 <= num_bits <= MAX_BITS_IN_TABLE,
            sq < 64,
            table.num_bits == num_bits,
            table.occupancy_mask == mask,
            occupied@.len() == j,
            legal@.len() == j,
            forall|i: int| 0 <= i < j ==> #[trigger] occupied@[i] == table.subset(i as u64),
            forall|i: int|
                0 <= i < j ==> #[trigger] legal@[i] == slider_attack(
                    sq as int,
                    occupied@[i],
                    is_bishop,
                ),
        decreases size - j,
    {
        let occ = map_index_to_occupancy_mask(j, num_bits, mask);
        let attacks = if is_bishop {
            get_bishop_attack_mask(sq, occ)
        } else {
            get_rook_attack_mask(sq, occ)
        };
        occupied.push(occ);
        legal.push(attacks);
        j = j + 1;
    }
    // Store each attack set in the slot that its occupancy hashes to; `writer` records which
    // occupancy wrote each slot last.
    let ghost mut writer: Seq<int> = Seq::new(size as nat, |s: int| -1int);
    proof {
        assert forall|i: int| 0 <= i < size implies #[trigger] magic_key(mask, magic, num_bits, occupied@[i]) < size by {
            lemma_key_bound(
                (occupied@[i] & table.occupancy_mask).wrapping_mul(table.magic),
                num_bits,
            );
        }
    }
    let mut j: u64 = 0;
    while j < size
        invariant
            j <= size == (1u64 << num_bits) <= 4096,
            1 <= num_bits <= MAX_BITS_IN_TABLE,
            table.readable(),
            table.num_bits == num_bits,
            table.occupancy_mask == mask,
            table.magic == magic,
            occupied@.len() == size,
            legal@.len() == size,
            writer.len() == size,
            forall|i: int| 0 <= i < size ==> #[trigger] magic_key(mask, magic, num_bits, occupied@[i]) < size,
            forall|s: int|
                0 <= s < size && #[trigger] writer[s] != -1 ==> 0 <= writer[s] < j && table.key(
                    occupied@[writer[s]],
                ) == s && table.data@[s] == legal@[writer[s]],
            forall|i: int| 0 <= i < j ==> #[trigger] writer[magic_key(mask, magic, num_bits, occupied@[i]) as int] != -1,
        decreases size - j,
    {
        let key = get_key(&table, occupied[j as usize]);
        table.data.set(key as usize, legal[j as usize]);
        proof {
            writer = writer.update(key as int, j as int);
        }
        j = j + 1;
    }
    // Check that no occupancy was overwritten by one with other attacks.
    let mut j: u64 = 0;
    while j < size
        invariant
            j <= size == (1u64 << num_bits) <= 4096,
            1 <= num_bits <= MAX_BITS_IN_TABLE,
            sq < 64,
            table.readable(),
            table.num_bits == num_bits,
            table.occupancy_mask == mask,
            table.magic == magic,
            mask == slider_relevant(sq as int, is_bishop),
            occupied@.len() == size,
            legal@.len() == size,
            forall|i: int| 0 <= i < size ==> #[trigger] occupied@[i] == table.subset(i as u64),
            forall|i: int|
                0 <= i < size ==> #[trigger] legal@[i] == slider_attack(
                    sq as int,
                    occupied@[i],
                    is_bishop,
                ),
            writer.len() == size,
            forall|i: int| 0 <= i < size ==> #[trigger] magic_key(mask, magic, num_bits, occupied@[i]) < size,
            forall|s: int|
                0 <= s < size && #[trigger] writer[s] != -1 ==> 0 <= writer[s] < size && table.key(
                    occupied@[writer[s]],
                ) == s && table.data@[s] == legal@[writer[s]],
            forall|i: int| 0 <= i < size ==> #[trigger] writer[magic_key(mask, magic, num_bits, occupied@[i]) as int] != -1,
            forall|i: u64|
                i < j ==> #[trigger] table.lookup(table.subset(i)) == slider_attack(
                    sq as int,
                    table.subset(i),
                    is_bishop,
                ),
        decreases size - j,
    {
        let stored = read_magical_table(&table, occupied[j as usize]);
        if stored != legal[j as usize] {
            proof {
                let s = magic_key(mask, magic, num_bits, occupied@[j as int]) as int;
                let w = writer[s];
                assert(writer[magic_key(mask, magic, num_bits, occupied@[j as int]) as int] != -1);
                assert(occupied@[w] == table.subset(w as u64));
                assert(legal@[w] == slider_attack(sq as int, occupied@[w], is_bishop));
                assert(table.key(table.subset(w as u64)) == table.key(table.subset(j)));
                assert(!collision_free(sq as int, num_bits, magic, is_bishop));
            }
            return None;
        }
        proof {
            assert(occupied@[j as int] == table.subset(j));
        }
        j = j + 1;
    }
    proof {
        assert forall|i: u64, k: u64|
            i < (1u64 << num_bits) && k < (1u64 << num_bits) && #[trigger] magic_key(
                mask,
                magic,
                num_bits,
                subset_at(i, mask, num_bits as nat),
            ) == #[trigger] magic_key(mask, magic, num_bits, subset_at(k, mask, num_bits as nat))
                implies slider_attack(sq as int, subset_at(i, mask, num_bits as nat), is_bishop)
                == slider_attack(sq as int, subset_at(k, mask, num_bits as nat), is_bishop) by {
            assert(table.lookup(table.subset(i)) == slider_attack(sq as int, table.subset(i), is_bishop));
            assert(table.lookup(table.subset(k)) == slider_attack(sq as int, table.subset(k), is_bishop));
        }
    }
    Some(table)
}

fn gen_table(is_bishop: bool) -> (r: Option<Vec<MagicalTable>>)
    ensures
        r is Some <==> magic_constants_sound(is_bishop),
        r matches Some(t) ==> t@.len() == 64 && forall|sq: int|
            0 <= sq < 64 ==> #[trigger] t@[sq].exact_for(sq, is_bishop),
{
    proof {
        lemma_num_bits();
    }
    let mut tables: Vec<MagicalTable> = Vec::new();
    let mut sq: u8 = 0;
    while sq < 64
        invariant
            sq <= 64,
            forall|i: int| 0 <= i < 64 ==> 1 <= #[trigger] NUM_BISHOP_BITS[i] <= MAX_BITS_IN_TABLE,
            forall|i: int| 0 <= i < 64 ==> 1 <= #[trigger] NUM_ROOK_BITS[i] <= MAX_BITS_IN_TABLE,
            tables@.len() == sq,
            forall|i: int| 0 <= i < sq ==> #[trigger] tables@[i].exact_for(i, is_bishop),
            forall|i: int| 0 <= i < sq ==> #[trigger] square_constants_sound(i, is_bishop),
        decreases 64 - sq,
    {
        let (num_bits, magic) = if is_bishop {
            (NUM_BISHOP_BITS[sq as usize], BISHOP_MAGICS[sq as usize])
        } else {
            (NUM_ROOK_BITS[sq as usize], ROOK_MAGICS[sq as usize])
        };
        match gen_square_table(sq, num_bits, magic, is_bishop) {
            Some(t) => tables.push(t),
            None => {
                assert(!square_constants_sound(sq as int, is_bishop));
                return None;
            },
        }
        sq = sq + 1;
    }
    Some(tables)
}

/// The bishop tables of all squares; `None` exactly when the constants of some square do not
/// make a sound table.
pub fn gen_bishop_attack_table() -> (r: Option<Vec<MagicalTable>>)
    ensures
        r is Some <==> magic_constants_sound(true),
        r matches Some(t) ==> t@.len() == 64 && forall|sq: int|
            0 <= sq < 64 ==> #[trigger] t@[sq].exact_for(sq, true),
{
    gen_table(true)
}

/// The rook tables of all squares; `None` exactly when the constants of some square do not
/// make a sound table.
pub fn gen_rook_attack_table() -> (r: Option<Vec<MagicalTable>>)
    ensures
        r is Some <==> magic_constants_sound(false),
        r matches Some(t) ==> t@.len() == 64 && forall|sq: int|
            0 <= sq < 64 ==> #[trigger] t@[sq].exact_for(sq, false),
{
    gen_table(false)
}

} // verus!
