use chessboard::board::{BLACK, WHITE};
use chessboard::magical::{get_bishop_attack_mask, get_rook_attack_mask};
use chessboard::tables::MoveTables;

fn tables() -> MoveTables {
    MoveTables::get_instance().expect("the magic multipliers are collision free")
}

#[test]
fn test_pawn_attacks() {
    let tables = tables();
    assert_eq!(MoveTables::read_pawn_attacks(&tables, 1, WHITE as u8), 0x0000000000000000u64);
    assert_eq!(MoveTables::read_pawn_attacks(&tables, 9, BLACK as u8), 0x0000000000050000u64);
    assert_eq!(MoveTables::read_pawn_attacks(&tables, 24, BLACK as u8), 0x0000000200000000u64);
    assert_eq!(MoveTables::read_pawn_attacks(&tables, 31, BLACK as u8), 0x0000004000000000u64);
    assert_eq!(MoveTables::read_pawn_attacks(&tables, 47, WHITE as u8), 0x0000004000000000u64);
}

#[test]
fn test_knight_attacks() {
    let tables = tables();
    assert_eq!(MoveTables::read_knight_attacks(&tables, 1), 0x0000000000050800u64);
    assert_eq!(MoveTables::read_knight_attacks(&tables, 28), 0x0000284400442800u64);
    assert_eq!(MoveTables::read_knight_attacks(&tables, 62), 0x0010A00000000000u64);
}

#[test]
fn test_rook_attacks() {
    let tables = tables();
    let tests: [(u8, u64, u64); 7] = [
        (2, 0x0000004000000000u64, 0x04040404040404FBu64),
        (0, 0x0100000000000080u64, 0x01010101010101FEu64),
        (0, 0x0000000000000000u64, 0x01010101010101FEu64),
        (0, 0x0000000001000020u64, 0x000000000101013Eu64),
        (0, 0x0000000001000040u64, 0x000000000101017Eu64),
        (28, 0x1000000022001000u64, 0x101010102E101000u64),
        (63, 0x4080000000000000u64, 0x4080000000000000u64),
    ];
    for (sq, occ, res) in tests {
        assert_eq!(MoveTables::read_rook_attacks(&tables, sq, occ), res, "lookup!");
    }
}

#[test]
fn test_bishop_attacks() {
    let tables = tables();
    let tests: [(u8, u64, u64); 4] = [
        (0, 0x0000000000000000u64, 0x8040201008040200u64),
        (2, 0x0000000020010000u64, 0x0000000020110A00u64),
        (2, 0x0000000000000080u64, 0x0000804020110A00u64),
        (63, 0x0000000008000000u64, 0x0040201008000000u64),
    ];
    for (sq, occ, res) in tests {
        assert_eq!(MoveTables::read_bishop_attacks(&tables, sq, occ), res, "lookup!");
    }
}

#[test]
fn king_attacks_stay_on_the_board() {
    let tables = tables();
    assert_eq!(MoveTables::read_king_attacks(&tables, 0), 0x0000000000000302u64);
    assert_eq!(MoveTables::read_king_attacks(&tables, 63), 0x40C0000000000000u64);
    assert_eq!(MoveTables::read_king_attacks(&tables, 28), 0x0000003828380000u64);
}

#[test]
fn magic_lookup_matches_ray_tracing_everywhere() {
    let tables = tables();
    // A sample of occupancies for every square: each lookup equals the traced attacks.
    let samples: [u64; 5] = [
        0,
        0xFFFF00000000FFFFu64,
        0x0000001008000000u64,
        0x00FF00FF00FF00FFu64,
        0x8142241818244281u64,
    ];
    for sq in 0..64u8 {
        for occ in samples {
            assert_eq!(
                MoveTables::read_rook_attacks(&tables, sq, occ),
                get_rook_attack_mask(sq, occ)
            );
            assert_eq!(
                MoveTables::read_bishop_attacks(&tables, sq, occ),
                get_bishop_attack_mask(sq, occ)
            );
        }
    }
}

#[test]
fn to_from_rays() {
    let tables = tables();
    // e1 to e8: e2 through e8.
    assert_eq!(MoveTables::read_to_from_table(&tables, 60, 4), 0x0010101010101010u64);
    // a8 to h1 along the long diagonal: b7 through h1.
    assert_eq!(MoveTables::read_to_from_table(&tables, 0, 63), 0x8040201008040200u64);
    // Squares on no common line.
    assert_eq!(MoveTables::read_to_from_table(&tables, 0, 10), 0);
    assert_eq!(MoveTables::read_to_from_table(&tables, 5, 5), 0);
}
