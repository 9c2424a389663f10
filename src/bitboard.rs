use vstd::prelude::*;

verus! {

/// The rightmost file of the board.
pub const RIGHT_COL: u64 = 0x8080808080808080;
/// The leftmost file of the board.
pub const LEFT_COL: u64 = 0x0101010101010101;
pub const RIGHT_TWO_COLS: u64 = 0xC0C0C0C0C0C0C0C0;
pub const LEFT_TWO_COLS: u64 = 0x0303030303030303;
pub const TOP_ROW: u64 = 0x00000000000000FF;
pub const BOTTOM_ROW: u64 = 0xFF00000000000000;
pub const FULL: u64 = 0xFFFFFFFFFFFFFFFF;
pub const EMPTY: u64 = 0x0000000000000000;
/// The second row from the top.
pub const BLACK_PAWN_HOME: u64 = 0x000000000000FF00;
/// The second row from the bottom.
pub const WHITE_PAWN_HOME: u64 = 0x00FF000000000000;

pub const WHITE_KING_SIDE_CASTLE_OCCUPANCY: u64 = 0x6000000000000000;
pub const WHITE_QUEEN_SIDE_CASTLE_OCCUPANCY: u64 = 0x0E00000000000000;
pub const WHITE_KING_SIDE_CASTLE_CHECK: u64 = 0x7000000000000000;
pub const WHITE_QUEEN_SIDE_CASTLE_CHECK: u64 = 0x1C00000000000000;
pub const BLACK_KING_SIDE_CASTLE_OCCUPANCY: u64 = 0x0000000000000060;
pub const BLACK_QUEEN_SIDE_CASTLE_OCCUPANCY: u64 = 0x000000000000000E;
pub const BLACK_KING_SIDE_CASTLE_CHECK: u64 = 0x0000000000000070;
pub const BLACK_QUEEN_SIDE_CASTLE_CHECK: u64 = 0x000000000000001C;

/// Occupancy per side, per side and piece kind, and of the whole board.
#[derive(Clone, Copy, Debug, PartialEq, Eq)]
pub struct BitBoard {
    pub color: [u64; 2],
    pub piece: [[u64; 6]; 2],
    pub occupancy: u64,
}

impl BitBoard {
    pub fn new_empty() -> (r: Self)
        ensures
            r.occupancy == 0,
            r.color[0] == 0 && r.color[1] == 0,
            forall|c: int, k: int| 0 <= c < 2 && 0 <= k < 6 ==> r.piece[c][k] == 0,
    {
        Self { color: [0u64; 2], piece: [[0u64; 6]; 2], occupancy: 0 }
    }
}

/// The mask with only square `s` set.
pub open spec fn bit(s: u64) -> u64 {
    1u64 << s
}

/// Whether square `s` is set in the bitboard `b`.
pub open spec fn is_set(b: u64, s: u64) -> bool {
    b & (1u64 << s) != 0
}

/// The lowest set square of a non-empty bitboard.
pub open spec fn lowest_square(b: u64) -> u64 {
    choose|r: u64| is_lowest_square(b, r)
}

pub open spec fn is_lowest_square(b: u64, r: u64) -> bool {
    r < 64 && is_set(b, r) && forall|t: u64| t < r ==> !#[trigger] is_set(b, t)
}

/// The number of set bits.
pub open spec fn count_bits(b: u64) -> nat
    decreases b,
{
    if b == 0 {
        0
    } else {
        (b % 2) as nat + count_bits(b / 2)
    }
}

/// Membership of a square in the results of the bitwise operators.
pub proof fn lemma_has_ops()
    by (bit_vector)
    ensures
        forall|a: u64, b: u64, t: u64|
            t < 64 ==> #[trigger] is_set(a | b, t) == (is_set(a, t) || is_set(b, t)),
        forall|a: u64, b: u64, t: u64|
            t < 64 ==> #[trigger] is_set(a & b, t) == (is_set(a, t) && is_set(b, t)),
        forall|a: u64, b: u64, t: u64|
            t < 64 ==> #[trigger] is_set(a ^ b, t) == (is_set(a, t) != is_set(b, t)),
        forall|a: u64, t: u64| t < 64 ==> #[trigger] is_set(!a, t) == !is_set(a, t),
        forall|s: u64, t: u64| s < 64 && t < 64 ==> #[trigger] is_set(1u64 << s, t) == (s == t),
        forall|t: u64| t < 64 ==> !#[trigger] is_set(0u64, t),
        forall|t: u64| t < 64 ==> #[trigger] is_set(0xFFFF_FFFF_FFFF_FFFFu64, t),
{
}

/// Facts of `|` and of shifts that loops over bitboards need.
pub proof fn lemma_or_shift(a: u64, b: u64, c: u64, i: u64)
    by (bit_vector)
    requires
        i < 64,
    ensures
        (a | b) | c == a | (b | c),
        a | 0 == a,
        0 | a == a,
        (a >> i) >> 1u64 == a >> ((i + 1) as u64),
        ((a >> i) & 1 == 1) == (a & (1u64 << i) != 0),
        a >> 0u64 == a,
{
}

/// The union of `f(s)` over the squares `s < n` of `mask`.
pub open spec fn fold_or(mask: u64, n: nat, f: spec_fn(int) -> u64) -> u64
    decreases n,
{
    if n == 0 {
        0
    } else {
        fold_or(mask, (n - 1) as nat, f) | if is_set(mask, (n - 1) as u64) {
            f(n - 1)
        } else {
            0
        }
    }
}

/// The sequence of `f(s)` over the squares `s < n` of `mask`, in increasing order.
pub open spec fn fold_seq<T>(mask: u64, n: nat, f: spec_fn(int) -> T) -> Seq<T>
    decreases n,
{
    if n == 0 {
        seq![]
    } else if is_set(mask, (n - 1) as u64) {
        fold_seq(mask, (n - 1) as nat, f).push(f(n - 1))
    } else {
        fold_seq(mask, (n - 1) as nat, f)
    }
}

/// The concatenation of `f(s)` over the squares `s < n` of `mask`, in increasing order.
pub open spec fn fold_cat<T>(mask: u64, n: nat, f: spec_fn(int) -> Seq<T>) -> Seq<T>
    decreases n,
{
    if n == 0 {
        seq![]
    } else if is_set(mask, (n - 1) as u64) {
        fold_cat(mask, (n - 1) as nat, f) + f(n - 1)
    } else {
        fold_cat(mask, (n - 1) as nat, f)
    }
}

/// Squares outside the mask add nothing to the concatenation.
pub proof fn lemma_fold_cat_skip<T>(mask: u64, lo: nat, hi: nat, f: spec_fn(int) -> Seq<T>)
    requires
        lo <= hi <= 64,
        forall|t: u64| lo <= t < hi ==> !#[trigger] is_set(mask, t),
    ensures
        fold_cat(mask, hi, f) == fold_cat(mask, lo, f),
    decreases hi - lo,
{
    if lo < hi {
        lemma_fold_cat_skip(mask, lo, (hi - 1) as nat, f);
        assert(!is_set(mask, (hi - 1) as u64));
    }
}

/// The concatenation only grows with more squares.
pub proof fn lemma_fold_cat_mono<T>(mask: u64, lo: nat, hi: nat, f: spec_fn(int) -> Seq<T>)
    requires
        lo <= hi,
    ensures
        fold_cat(mask, hi, f).len() >= fold_cat(mask, lo, f).len(),
    decreases hi - lo,
{
    if lo < hi {
        lemma_fold_cat_mono(mask, lo, (hi - 1) as nat, f);
    }
}

/// The concatenation over all squares holds what square `s` of the mask adds after what the
/// squares below it add.
pub proof fn lemma_fold_cat_len<T>(mask: u64, s: nat, f: spec_fn(int) -> Seq<T>)
    requires
        s < 64,
        is_set(mask, s as u64),
    ensures
        fold_cat(mask, 64, f).len() >= fold_cat(mask, s, f).len() + f(s as int).len(),
{
    lemma_fold_cat_mono(mask, s + 1, 64, f);
}

/// The sequence only grows with more squares.
pub proof fn lemma_fold_seq_mono<T>(mask: u64, lo: nat, hi: nat, f: spec_fn(int) -> T)
    requires
        lo <= hi,
    ensures
        fold_seq(mask, hi, f).len() >= fold_seq(mask, lo, f).len(),
    decreases hi - lo,
{
    if lo < hi {
        lemma_fold_seq_mono(mask, lo, (hi - 1) as nat, f);
    }
}

/// The sequence over all squares is longer than its part below a square `s` of the mask.
pub proof fn lemma_fold_seq_len<T>(mask: u64, s: nat, f: spec_fn(int) -> T)
    requires
        s < 64,
        is_set(mask, s as u64),
    ensures
        fold_seq(mask, 64, f).len() >= fold_seq(mask, s, f).len() + 1,
{
    lemma_fold_seq_mono(mask, s + 1, 64, f);
}

/// Squares outside the mask add nothing to the folds.
pub proof fn lemma_fold_skip<T>(mask: u64, lo: nat, hi: nat, f: spec_fn(int) -> u64, g: spec_fn(
    int,
) -> T)
    requires
        lo <= hi <= 64,
        forall|t: u64| lo <= t < hi ==> !#[trigger] is_set(mask, t),
    ensures
        fold_or(mask, hi, f) == fold_or(mask, lo, f),
        fold_seq(mask, hi, g) == fold_seq(mask, lo, g),
    decreases hi - lo,
{
    if lo < hi {
        lemma_fold_skip(mask, lo, (hi - 1) as nat, f, g);
        assert(!is_set(mask, (hi - 1) as u64));
        lemma_or_shift(fold_or(mask, (hi - 1) as nat, f), 0, 0, 0);
    }
}

/// The state of a walk over the squares of `mask` that takes out the lowest one each time: the
/// squares left are those of the mask from `lo` on.
pub open spec fn walk_state(mask: u64, rem: u64, lo: nat) -> bool {
    &&& lo <= 64
    &&& forall|t: u64| t < 64 ==> #[trigger] is_set(rem, t) == (is_set(mask, t) && t >= lo)
}

/// Taking out the lowest square `s` of what is left moves the walk to `s + 1`.
pub proof fn lemma_walk_step(mask: u64, rem: u64, lo: nat, s: u64, rem2: u64)
    requires
        walk_state(mask, rem, lo),
        is_lowest_square(rem, s),
        forall|t: u64| t < 64 ==> #[trigger] is_set(rem2, t) == (is_set(rem, t) && t != s),
    ensures
        walk_state(mask, rem2, (s + 1) as nat),
        lo <= s,
        is_set(mask, s),
        forall|t: u64| lo <= t < s ==> !#[trigger] is_set(mask, t),
{
    assert forall|t: u64| lo <= t < s implies !#[trigger] is_set(mask, t) by {
        assert(!is_set(rem, t));
    }
}

/// A walk with nothing left has seen every square of the mask.
pub proof fn lemma_walk_done(mask: u64, lo: nat)
    requires
        walk_state(mask, 0, lo),
    ensures
        forall|t: u64| lo <= t < 64 ==> !#[trigger] is_set(mask, t),
{
    lemma_has_ops();
    assert forall|t: u64| lo <= t < 64 implies !#[trigger] is_set(mask, t) by {
        assert(!is_set(0u64, t));
    }
}

/// A walk starts with the whole mask.
pub proof fn lemma_walk_start(mask: u64)
    ensures
        walk_state(mask, mask, 0),
{
}

/// Which squares the fixed masks of the board hold.
pub proof fn lemma_board_masks(s: u64)
    by (bit_vector)
    requires
        s < 64,
    ensures
        is_set(WHITE_PAWN_HOME, s) == (48 <= s < 56),
        is_set(BLACK_PAWN_HOME, s) == (8 <= s < 16),
        is_set(WHITE_KING_SIDE_CASTLE_OCCUPANCY, s) == (s == 61 || s == 62),
        is_set(BLACK_KING_SIDE_CASTLE_OCCUPANCY, s) == (s == 5 || s == 6),
        is_set(WHITE_QUEEN_SIDE_CASTLE_OCCUPANCY, s) == (57 <= s <= 59),
        is_set(BLACK_QUEEN_SIDE_CASTLE_OCCUPANCY, s) == (1 <= s <= 3),
{
}

/// Two bitboards that agree on every square are equal.
pub proof fn lemma_bits_ext(a: u64, b: u64)
    requires
        forall|t: u64| t < 64 ==> #[trigger] is_set(a, t) == is_set(b, t),
    ensures
        a == b,
{
    assert(is_set(a, 0) == is_set(b, 0));
    assert(is_set(a, 1) == is_set(b, 1));
    assert(is_set(a, 2) == is_set(b, 2));
    assert(is_set(a, 3) == is_set(b, 3));
    assert(is_set(a, 4) == is_set(b, 4));
    assert(is_set(a, 5) == is_set(b, 5));
    assert(is_set(a, 6) == is_set(b, 6));
    assert(is_set(a, 7) == is_set(b, 7));
    assert(is_set(a, 8) == is_set(b, 8));
    assert(is_set(a, 9) == is_set(b, 9));
    assert(is_set(a, 10) == is_set(b, 10));
    assert(is_set(a, 11) == is_set(b, 11));
    assert(is_set(a, 12) == is_set(b, 12));
    assert(is_set(a, 13) == is_set(b, 13));
    assert(is_set(a, 14) == is_set(b, 14));
    assert(is_set(a, 15) == is_set(b, 15));
    assert(is_set(a, 16) == is_set(b, 16));
    assert(is_set(a, 17) == is_set(b, 17));
    assert(is_set(a, 18) == is_set(b, 18));
    assert(is_set(a, 19) == is_set(b, 19));
    assert(is_set(a, 20) == is_set(b, 20));
    assert(is_set(a, 21) == is_set(b, 21));
    assert(is_set(a, 22) == is_set(b, 22));
    assert(is_set(a, 23) == is_set(b, 23));
    assert(is_set(a, 24) == is_set(b, 24));
    assert(is_set(a, 25) == is_set(b, 25));
    assert(is_set(a, 26) == is_set(b, 26));
    assert(is_set(a, 27) == is_set(b, 27));
    assert(is_set(a, 28) == is_set(b, 28));
    assert(is_set(a, 29) == is_set(b, 29));
    assert(is_set(a, 30) == is_set(b, 30));
    assert(is_set(a, 31) == is_set(b, 31));
    assert(is_set(a, 32) == is_set(b, 32));
    assert(is_set(a, 33) == is_set(b, 33));
    assert(is_set(a, 34) == is_set(b, 34));
    assert(is_set(a, 35) == is_set(b, 35));
    assert(is_set(a, 36) == is_set(b, 36));
    assert(is_set(a, 37) == is_set(b, 37));
    assert(is_set(a, 38) == is_set(b, 38));
    assert(is_set(a, 39) == is_set(b, 39));
    assert(is_set(a, 40) == is_set(b, 40));
    assert(is_set(a, 41) == is_set(b, 41));
    assert(is_set(a, 42) == is_set(b, 42));
    assert(is_set(a, 43) == is_set(b, 43));
    assert(is_set(a, 44) == is_set(b, 44));
    assert(is_set(a, 45) == is_set(b, 45));
    assert(is_set(a, 46) == is_set(b, 46));
    assert(is_set(a, 47) == is_set(b, 47));
    assert(is_set(a, 48) == is_set(b, 48));
    assert(is_set(a, 49) == is_set(b, 49));
    assert(is_set(a, 50) == is_set(b, 50));
    assert(is_set(a, 51) == is_set(b, 51));
    assert(is_set(a, 52) == is_set(b, 52));
    assert(is_set(a, 53) == is_set(b, 53));
    assert(is_set(a, 54) == is_set(b, 54));
    assert(is_set(a, 55) == is_set(b, 55));
    assert(is_set(a, 56) == is_set(b, 56));
    assert(is_set(a, 57) == is_set(b, 57));
    assert(is_set(a, 58) == is_set(b, 58));
    assert(is_set(a, 59) == is_set(b, 59));
    assert(is_set(a, 60) == is_set(b, 60));
    assert(is_set(a, 61) == is_set(b, 61));
    assert(is_set(a, 62) == is_set(b, 62));
    assert(is_set(a, 63) == is_set(b, 63));
    lemma_bits_ext_pointwise(a, b);
}

proof fn lemma_bits_ext_pointwise(a: u64, b: u64)
    by (bit_vector)
    requires
        is_set(a, 0) == is_set(b, 0),
            is_set(a, 1) == is_set(b, 1),
            is_set(a, 2) == is_set(b, 2),
            is_set(a, 3) == is_set(b, 3),
            is_set(a, 4) == is_set(b, 4),
            is_set(a, 5) == is_set(b, 5),
            is_set(a, 6) == is_set(b, 6),
            is_set(a, 7) == is_set(b, 7),
            is_set(a, 8) == is_set(b, 8),
            is_set(a, 9) == is_set(b, 9),
            is_set(a, 10) == is_set(b, 10),
            is_set(a, 11) == is_set(b, 11),
            is_set(a, 12) == is_set(b, 12),
            is_set(a, 13) == is_set(b, 13),
            is_set(a, 14) == is_set(b, 14),
            is_set(a, 15) == is_set(b, 15),
            is_set(a, 16) == is_set(b, 16),
            is_set(a, 17) == is_set(b, 17),
            is_set(a, 18) == is_set(b, 18),
            is_set(a, 19) == is_set(b, 19),
            is_set(a, 20) == is_set(b, 20),
            is_set(a, 21) == is_set(b, 21),
            is_set(a, 22) == is_set(b, 22),
            is_set(a, 23) == is_set(b, 23),
            is_set(a, 24) == is_set(b, 24),
            is_set(a, 25) == is_set(b, 25),
            is_set(a, 26) == is_set(b, 26),
            is_set(a, 27) == is_set(b, 27),
            is_set(a, 28) == is_set(b, 28),
            is_set(a, 29) == is_set(b, 29),
            is_set(a, 30) == is_set(b, 30),
            is_set(a, 31) == is_set(b, 31),
            is_set(a, 32) == is_set(b, 32),
            is_set(a, 33) == is_set(b, 33),
            is_set(a, 34) == is_set(b, 34),
            is_set(a, 35) == is_set(b, 35),
            is_set(a, 36) == is_set(b, 36),
            is_set(a, 37) == is_set(b, 37),
            is_set(a, 38) == is_set(b, 38),
            is_set(a, 39) == is_set(b, 39),
            is_set(a, 40) == is_set(b, 40),
            is_set(a, 41) == is_set(b, 41),
            is_set(a, 42) == is_set(b, 42),
            is_set(a, 43) == is_set(b, 43),
            is_set(a, 44) == is_set(b, 44),
            is_set(a, 45) == is_set(b, 45),
            is_set(a, 46) == is_set(b, 46),
            is_set(a, 47) == is_set(b, 47),
            is_set(a, 48) == is_set(b, 48),
            is_set(a, 49) == is_set(b, 49),
            is_set(a, 50) == is_set(b, 50),
            is_set(a, 51) == is_set(b, 51),
            is_set(a, 52) == is_set(b, 52),
            is_set(a, 53) == is_set(b, 53),
            is_set(a, 54) == is_set(b, 54),
            is_set(a, 55) == is_set(b, 55),
            is_set(a, 56) == is_set(b, 56),
            is_set(a, 57) == is_set(b, 57),
            is_set(a, 58) == is_set(b, 58),
            is_set(a, 59) == is_set(b, 59),
            is_set(a, 60) == is_set(b, 60),
            is_set(a, 61) == is_set(b, 61),
            is_set(a, 62) == is_set(b, 62),
            is_set(a, 63) == is_set(b, 63),
    ensures
        a == b,
{
}

/// A non-empty bitboard has a lowest square.
pub proof fn lemma_lowest_exists(b: u64)
    requires
        b != 0,
    ensures
        is_lowest_square(b, lowest_square(b)),
{
    if forall|t: u64| t < 64 ==> !#[trigger] is_set(b, t) {
        lemma_has_ops();
        assert forall|t: u64| t < 64 implies #[trigger] is_set(b, t) == is_set(0u64, t) by {}
        lemma_bits_ext(b, 0);
    } else {
        let t = choose|t: u64| t < 64 && is_set(b, t);
        lemma_lowest_below(b, t);
    }
}

proof fn lemma_lowest_below(b: u64, r: u64)
    requires
        r < 64,
        is_set(b, r),
    ensures
        is_lowest_square(b, lowest_square(b)),
    decreases r,
{
    if forall|t: u64| t < r ==> !#[trigger] is_set(b, t) {
        assert(is_lowest_square(b, r));
    } else {
        let t = choose|t: u64| t < r && is_set(b, t);
        lemma_lowest_below(b, t);
    }
}

/// There is exactly one lowest square in a non-empty bitboard.
pub proof fn lemma_lowest_square(b: u64, r: u64)
    requires
        is_lowest_square(b, r),
    ensures
        lowest_square(b) == r,
{
    let q = lowest_square(b);
    assert(is_lowest_square(b, q));
    if q < r {
        assert(!is_set(b, q));
    } else if r < q {
        assert(!is_set(b, r));
    }
}

/// Relies on bitintr's `Tzcnt::tzcnt` for `u64`, which counts trailing zero bits
/// (64 for zero).
#[verifier::external_body]
fn trailing_zeros(bb: u64) -> (r: u64)
    ensures
        bb == 0 ==> r == 64,
        bb != 0 ==> is_lowest_square(bb, r),
{
    bitintr::Tzcnt::tzcnt(bb)
}

/// Relies on bitintr's `Popcnt::popcnt` for `u64`, which counts the set bits.
#[verifier::external_body]
fn count_ones(bb: u64) -> (r: u64)
    ensures
        r == count_bits(bb),
        r <= 64,
{
    bitintr::Popcnt::popcnt(bb)
}

/// Returns the lowest occupied square of a non-empty bitboard.
pub fn peek_rbit(bb: &u64) -> (r: u8)
    requires
        *bb != 0,
    ensures
        r < 64,
        r as u64 == lowest_square(*bb),
        is_lowest_square(*bb, r as u64),
{
    let idx = trailing_zeros(*bb);
    proof {
        lemma_lowest_square(*bb, idx);
    }
    idx as u8
}

/// Removes the lowest occupied square of a non-empty bitboard and returns it.
pub fn pop_rbit(bb: &mut u64) -> (r: u8)
    requires
        *old(bb) != 0,
    ensures
        r < 64,
        r as u64 == lowest_square(*old(bb)),
        is_lowest_square(*old(bb), r as u64),
        *final(bb) == *old(bb) ^ (1u64 << r),
        forall|t: u64| t < 64 ==> #[trigger] is_set(*final(bb), t) == (is_set(*old(bb), t) && t != r),
{
    let idx = trailing_zeros(*bb);
    proof {
        lemma_lowest_square(*bb, idx);
        lemma_has_ops();
    }
    *bb = *bb ^ (1u64 << idx);
    idx as u8
}

/// Number of occupied squares of a bitboard.
pub fn popcnt(bb: &u64) -> (r: u8)
    ensures
        r as nat == count_bits(*bb),
{
    let n = count_ones(*bb);
    n as u8
}

/// The squares attacked by a set of pawns: `is_up` for pawns moving toward row zero.
pub open spec fn pawn_smear_spec(pawns: u64, is_up: bool) -> u64 {
    if is_up {
        ((pawns >> 9u64) & !RIGHT_COL) | ((pawns >> 7u64) & !LEFT_COL)
    } else {
        ((pawns << 7u64) & !RIGHT_COL) | ((pawns << 9u64) & !LEFT_COL)
    }
}

/// Generates all attacked squares for pawns by shifting the bitboard in a particular direction.
pub fn pawn_smear(pawns: u64, is_up: bool) -> (r: u64)
    ensures
        r == pawn_smear_spec(pawns, is_up),
{
    if is_up {
        (pawns >> 9u64 & !RIGHT_COL) | (pawns >> 7u64 & !LEFT_COL)
    } else {
        (pawns << 7u64 & !RIGHT_COL) | (pawns << 9u64 & !LEFT_COL)
    }
}

} // verus!
