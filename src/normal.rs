use vstd::prelude::*;
use crate::bitboard::{self, bit, is_set};
use crate::magical::{ray, slide};

verus! {

/// The union of the squares `i + offs[k]`, for `k < n`, that lie on the board.
pub open spec fn offset_raw(i: int, offs: Seq<i8>, n: nat) -> u64
    decreases n,
{
    if n == 0 || n > offs.len() {
        0
    } else {
        let t = i + offs[n - 1];
        offset_raw(i, offs, (n - 1) as nat) | if 0 <= t < 64 {
            bit(t as u64)
        } else {
            0
        }
    }
}

/// Removes the targets that wrapped around an edge: a source in the two right columns reaches
/// none of the two left columns, and the other way round.
pub open spec fn edge_filter(i: int, raw: u64) -> u64 {
    let r1 = if is_set(bitboard::RIGHT_TWO_COLS, i as u64) {
        raw & !bitboard::LEFT_TWO_COLS
    } else {
        raw
    };
    if is_set(bitboard::LEFT_TWO_COLS, i as u64) {
        r1 & !bitboard::RIGHT_TWO_COLS
    } else {
        r1
    }
}

/// The squares reached from `i` by the offsets `offs`, without wrapping around an edge.
pub open spec fn offset_entry(i: int, offs: Seq<i8>) -> u64 {
    edge_filter(i, offset_raw(i, offs, offs.len()))
}

/// The capture offsets of a pawn of side `c`: black pawns move toward higher squares.
pub open spec fn pawn_offsets(c: int) -> Seq<i8> {
    if c == 0 {
        seq![7i8, 9i8]
    } else {
        seq![-7i8, -9i8]
    }
}

pub open spec fn knight_offsets() -> Seq<i8> {
    seq![-17i8, -15i8, -10i8, -6i8, 6i8, 10i8, 15i8, 17i8]
}

pub open spec fn king_offsets() -> Seq<i8> {
    seq![9i8, 8i8, 7i8, 1i8, -1i8, -7i8, -8i8, -9i8]
}

pub open spec fn sign(x: int) -> int {
    if x > 0 {
        1
    } else if x < 0 {
        -1
    } else {
        0
    }
}

/// The squares from `a` toward `b`, `a` excluded and `b` included, when the two share a row, a
/// column or a diagonal; the empty set otherwise.
pub open spec fn connecting_ray(a: int, b: int) -> u64 {
    let ra = a / 8;
    let fa = a % 8;
    let rb = b / 8;
    let fb = b % 8;
    let dr = sign(rb - ra);
    let df = sign(fb - fa);
    if a == b {
        0
    } else if ra == rb || fa == fb || ra - fa == rb - fb || ra + fa == rb + fb {
        ray(ra + dr, fa + df, dr, df, bit(b as u64))
    } else {
        0
    }
}

fn gen_table_from_offsets(offsets: &Vec<i8>) -> (r: [u64; 64])
    requires
        offsets@.len() <= 8,
        forall|k: int| 0 <= k < offsets@.len() ==> -17 <= #[trigger] offsets@[k] <= 17,
    ensures
        forall|i: int| 0 <= i < 64 ==> #[trigger] r[i] == offset_entry(i, offsets@),
{
    let mut table: [u64; 64] = [0u64; 64];
    let mut i: i8 = 0;
    while i < 64
        invariant
            0 <= i <= 64,
            offsets@.len() <= 8,
            forall|k: int| 0 <= k < offsets@.len() ==> -17 <= #[trigger] offsets@[k] <= 17,
            forall|s: int| 0 <= s < i ==> #[trigger] table[s] == offset_entry(s, offsets@),
        decreases 64 - i,
    {
        let mut entry: u64 = 0;
        let mut j: usize = 0;
        while j < offsets.len()
            invariant
                0 <= i < 64,
                j <= offsets@.len() <= 8,
                forall|k: int| 0 <= k < offsets@.len() ==> -17 <= #[trigger] offsets@[k] <= 17,
                entry == offset_raw(i as int, offsets@, j as nat),
            decreases offsets@.len() - j,
        {
            let sq: i8 = i + offsets[j];
            if 0 <= sq && sq < 64 {
                entry = entry | (1u64 << (sq as u64));
            } else {
                proof {
                    bitboard::lemma_or_shift(entry, 0, 0, 0);
                }
            }
            j = j + 1;
        }
        // Remove the targets that wrapped around an edge.
        if bitboard::RIGHT_TWO_COLS & (1u64 << (i as u64)) != 0 {
            entry = entry & !bitboard::LEFT_TWO_COLS;
        }
        if bitboard::LEFT_TWO_COLS & (1u64 << (i as u64)) != 0 {
            entry = entry & !bitboard::RIGHT_TWO_COLS;
        }
        table[i as usize] = entry;
        i = i + 1;
    }
    table
}

/// The squares that pawns attack, per side (black first) and square.
pub fn gen_pawn_attack_table() -> (r: [[u64; 64]; 2])
    ensures
        forall|c: int, i: int|
            0 <= c < 2 && 0 <= i < 64 ==> #[trigger] r[c][i] == offset_entry(i, pawn_offsets(c)),
{
    let black = vec![7i8, 9i8];
    let white = vec![-7i8, -9i8];
    assert(black@ == pawn_offsets(0));
    assert(white@ == pawn_offsets(1));
    [gen_table_from_offsets(&black), gen_table_from_offsets(&white)]
}

/// The squares that a knight attacks, per square.
pub fn gen_knight_attack_table() -> (r: [u64; 64])
    ensures
        forall|i: int| 0 <= i < 64 ==> #[trigger] r[i] == offset_entry(i, knight_offsets()),
{
    let offsets = vec![-17i8, -15i8, -10i8, -6i8, 6i8, 10i8, 15i8, 17i8];
    assert(offsets@ == knight_offsets());
    gen_table_from_offsets(&offsets)
}

/// The squares that a king attacks, per square.
pub fn gen_king_attack_table() -> (r: [u64; 64])
    ensures
        forall|i: int| 0 <= i < 64 ==> #[trigger] r[i] == offset_entry(i, king_offsets()),
{
    let offsets = vec![9i8, 8i8, 7i8, 1i8, -1i8, -7i8, -8i8, -9i8];
    assert(offsets@ == king_offsets());
    gen_table_from_offsets(&offsets)
}

fn sign_of(x: i8) -> (r: i8)
    ensures
        r == sign(x as int),
{
    if x > 0 {
        1
    } else if x < 0 {
        -1
    } else {
        0
    }
}

/// The squares from `sq1` toward `sq2`, `sq1` excluded and `sq2` included, when they share a
/// line; zero otherwise.
fn get_connecting_ray(sq1: u8, sq2: u8) -> (r: u64)
    requires
        sq1 < 64,
        sq2 < 64,
    ensures
        r == connecting_ray(sq1 as int, sq2 as int),
{
    let r1 = (sq1 / 8) as i8;
    let f1 = (sq1 % 8) as i8;
    let r2 = (sq2 / 8) as i8;
    let f2 = (sq2 % 8) as i8;
    let dr = sign_of(r2 - r1);
    let df = sign_of(f2 - f1);
    if sq1 == sq2 {
        0
    } else if r1 == r2 || f1 == f2 || r1 - f1 == r2 - f2 || r1 + f1 == r2 + f2 {
        slide(r1 + dr, f1 + df, dr, df, 1u64 << sq2)
    } else {
        0
    }
}

/// The connecting rays of all pairs of squares.
pub fn gen_to_from_table() -> (r: [[u64; 64]; 64])
    ensures
        forall|i: int, j: int|
            0 <= i < 64 && 0 <= j < 64 ==> #[trigger] r[i][j] == connecting_ray(i, j),
{
    let mut table: [[u64; 64]; 64] = [[0u64; 64]; 64];
    let mut i: u8 = 0;
    while i < 64
        invariant
            i <= 64,
            forall|a: int, b: int|
                0 <= a < i && 0 <= b < 64 ==> #[trigger] table[a][b] == connecting_ray(a, b),
        decreases 64 - i,
    {
        let mut row: [u64; 64] = [0u64; 64];
        let mut j: u8 = 0;
        while j < 64
            invariant
                i < 64,
                j <= 64,
                forall|b: int| 0 <= b < j ==> #[trigger] row[b] == connecting_ray(i as int, b),
            decreases 64 - j,
        {
            row[j as usize] = get_connecting_ray(i, j);
            j = j + 1;
        }
        table[i as usize] = row;
        i = i + 1;
    }
    table
}

} // verus!
