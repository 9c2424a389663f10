use chessboard::board::{BLACK, WHITE};
use chessboard::bitboard::{pawn_smear, peek_rbit, pop_rbit, popcnt};
use chessboard::hist_state::HistState;

#[test]
fn castle_rights_are_set_and_removed_per_side() {
    let mut st = HistState::from_data(0);
    st.add_castle_rights(WHITE as u8);
    assert!(st.has_ksc_right(WHITE as u8) && st.has_qsc_right(WHITE as u8));
    assert!(!st.has_ksc_right(BLACK as u8) && !st.has_qsc_right(BLACK as u8));
    st.add_ksc_right(BLACK as u8);
    st.remove_qsc_right(WHITE as u8);
    assert!(st.has_ksc_right(WHITE as u8) && !st.has_qsc_right(WHITE as u8));
    assert!(st.has_ksc_right(BLACK as u8));
    st.remove_castle_rights(WHITE as u8);
    assert!(!st.has_ksc_right(WHITE as u8));
    st.remove_ksc_right(BLACK as u8);
    assert!(!st.has_ksc_right(BLACK as u8));
    st.add_qsc_right(BLACK as u8);
    assert!(st.has_qsc_right(BLACK as u8));
}

#[test]
fn en_passant_and_captured_piece_share_bits() {
    let mut st = HistState::from_data(0b1111);
    st.set_enp(5);
    assert!(st.enp_avaliable());
    assert_eq!(st.get_enp_col(), 5);
    st.set_captured_piece(3);
    assert!(!st.enp_avaliable());
    assert_eq!(st.get_captured_piece(), 3);
    st.decay_enp();
    assert_eq!(st.get_captured_piece(), 0);
    // The castling rights are untouched.
    assert!(st.has_ksc_right(WHITE as u8) && st.has_qsc_right(BLACK as u8));
}

#[test]
fn halfmove_clock_counts_to_fifty() {
    let mut st = HistState::from_data(0);
    for _ in 0..49 {
        st.increment_halfmove_clock();
    }
    assert!(!st.halfmove_clock_done());
    st.increment_halfmove_clock();
    assert!(st.halfmove_clock_done());
    st.reset_halfmove_clock();
    assert!(!st.halfmove_clock_done());
}

#[test]
fn decay_castle_rights_by_square() {
    let mut st = HistState::from_data(0b1111);
    // White moves its king side rook from h1.
    st.decay_castle_rights(WHITE as u8, 55, 63);
    assert!(!st.has_ksc_right(WHITE as u8) && st.has_qsc_right(WHITE as u8));
    // Black captures on a1.
    st.decay_castle_rights(BLACK as u8, 56, 8);
    assert!(!st.has_qsc_right(WHITE as u8));
    assert!(st.has_ksc_right(BLACK as u8) && st.has_qsc_right(BLACK as u8));
    // Black moves its king.
    st.decay_castle_rights(BLACK as u8, 12, 4);
    assert!(!st.has_ksc_right(BLACK as u8) && !st.has_qsc_right(BLACK as u8));
}

#[test]
fn bit_scans() {
    let mut bb: u64 = 0b1010_0000;
    assert_eq!(peek_rbit(&bb), 5);
    assert_eq!(popcnt(&bb), 2);
    assert_eq!(pop_rbit(&mut bb), 5);
    assert_eq!(bb, 0b1000_0000);
    assert_eq!(pop_rbit(&mut bb), 7);
    assert_eq!(bb, 0);
    assert_eq!(popcnt(&0xFFFF_FFFF_FFFF_FFFFu64), 64);
}

#[test]
fn pawn_smear_attacks_both_diagonals() {
    // A white pawn on e2 attacks d3 and f3; one on a2 only b3.
    assert_eq!(pawn_smear(1u64 << 52, true), (1u64 << 43) | (1u64 << 45));
    assert_eq!(pawn_smear(1u64 << 48, true), 1u64 << 41);
    // A black pawn on h7 attacks g6 only.
    assert_eq!(pawn_smear(1u64 << 15, false), 1u64 << 22);
}
