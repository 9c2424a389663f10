use chessboard::board::{Board, FenError, BISHOP, KING, KNIGHT, PAWN, QUEEN, ROOK, BLACK, WHITE, EMPTY};
use chessboard::generator::{BoardTables, MoveGenerator};
use chessboard::moves::{Move, MoveList, CAPTURE, ENPASSANT, QUIET, DOUBLE_PAWN_PUSH, KING_SIDE_CASTLE};

const START: &str = "rnbqkbnr/pppppppp/8/8/8/8/PPPPPPPP/RNBQKBNR w KQkq - 0 1";

fn generator() -> MoveGenerator {
    MoveGenerator::new().expect("the magic multipliers are collision free")
}

fn legal_moves(generator: &MoveGenerator, board: &Board) -> (BoardTables, Vec<Move>) {
    let tables = generator.gen_board_tables(board);
    let mut list = MoveList::new();
    assert!(generator.gen_moves(&mut list, board, &tables));
    let moves = (0..list.size()).map(|i| list.at(i)).collect();
    (tables, moves)
}

fn perft(generator: &MoveGenerator, board: &mut Board, depth: u32) -> u64 {
    let (_, moves) = legal_moves(generator, board);
    if depth == 1 {
        return moves.len() as u64;
    }
    let mut total = 0;
    for m in moves {
        board.make(&m);
        total += perft(generator, board, depth - 1);
        board.unmake();
    }
    total
}

#[test]
fn perft_from_the_starting_position() {
    let generator = generator();
    let mut board = Board::from_fen(START).unwrap();
    assert_eq!(perft(&generator, &mut board, 1), 20);
    assert_eq!(perft(&generator, &mut board, 2), 400);
    assert_eq!(perft(&generator, &mut board, 3), 8902);
}

#[test]
fn perft_of_a_position_with_castles_and_promotions() {
    // A well-known test position, with its published counts.
    let generator = generator();
    let mut board =
        Board::from_fen("r3k2r/p1ppqpb1/bn2pnp1/3PN3/1p2P3/2N2Q1p/PPPBBPPP/R3K2R w KQkq - 0 1")
            .unwrap();
    assert_eq!(perft(&generator, &mut board, 1), 48);
    assert_eq!(perft(&generator, &mut board, 2), 2039);
}

#[test]
fn starting_position_squares() {
    let board = Board::from_fen(START).unwrap();
    assert_eq!(board.type_at(0, 0), ROOK as u8);
    assert_eq!(board.color_at(0, 0), BLACK as u8);
    assert_eq!(board.type_at_sq(60), KING as u8);
    assert_eq!(board.color_at_sq(60), WHITE as u8);
    assert_eq!(board.type_at_sq(59), QUEEN as u8);
    assert_eq!(board.type_at_sq(1), KNIGHT as u8);
    assert_eq!(board.type_at_sq(2), BISHOP as u8);
    assert_eq!(board.type_at_sq(52), PAWN as u8);
    assert_eq!(board.type_at_sq(36), EMPTY as u8);
    assert_eq!(board.get_turn(), WHITE as u8);
    assert_eq!(board.enemy_color(), BLACK as u8);
    let state = board.state();
    assert!(state.has_ksc_right(WHITE as u8) && state.has_qsc_right(WHITE as u8));
    assert!(state.has_ksc_right(BLACK as u8) && state.has_qsc_right(BLACK as u8));
    assert!(!state.enp_avaliable());
}

#[test]
fn fen_missing_fields_is_an_error() {
    let r = Board::from_fen("rnbqkbnr/pppppppp/8/8/8/8/PPPPPPPP/RNBQKBNR w KQkq");
    assert!(matches!(r, Err(FenError::FenTooShort)));
    assert_eq!(FenError::FenTooShort.message(), "fen too short");
    assert_eq!(FenError::FenBadEnPassant.message(), "malformed fen en passant");
}

#[test]
fn fen_errors_name_the_field() {
    let cases: [(&str, FenError); 8] = [
        ("rnbqkbnr/pppppppp/8/8/8/8/PPPPPPPP/RNBQKBNR x KQkq - 0 1", FenError::FenBadTurn),
        ("rnbqkbnr/pppppppp/8/8/8/8/PPPPPPPP/RNBQKBNR wb KQkq - 0 1", FenError::FenBadTurn),
        ("rnbqkbnr/pppppppp/8/8/8/8/PPPPPPPP/RNBQKBNR w KQkqK - 0 1", FenError::FenBadRights),
        ("rnbqkbnr/pppppppp/8/8/8/8/PPPPPPPP/RNBQKBNR w KX - 0 1", FenError::FenBadRights),
        ("rnbqkbnr/pppppppp/8/8/8/8/PPPPPPPP/RNBQKBNR w KQkq z 0 1", FenError::FenBadEnPassant),
        ("rnbqkbnr/pppppppp/8/8/8/8/PPPPPPPP/RNBQKBNR w KQkq e3 0 1", FenError::FenBadEnPassant),
        ("rnbqkbnr/pppppppp/8/8/8/8/PPPPPPPP/RNBQKBNX w KQkq - 0 1", FenError::FenBadPlacement),
        ("rnbqkbnr/pppppppp/9/8/8/8/PPPPPPPP/RNBQKBNR w KQkq - 0 1", FenError::FenBadPlacement),
    ];
    for (fen, err) in cases {
        match Board::from_fen(fen) {
            Err(e) => assert_eq!(e, err, "{}", fen),
            Ok(_) => panic!("accepted {}", fen),
        }
    }
    // An unexpected '/', and too few squares.
    assert!(matches!(
        Board::from_fen("rnbqkbnr/ppppppp/8/8/8/8/PPPPPPPP/RNBQKBNR w KQkq - 0 1"),
        Err(FenError::FenBadPlacement)
    ));
    assert!(matches!(
        Board::from_fen("rnbqkbnr/pppppppp/8/8/8/8/PPPPPPPP w KQkq - 0 1"),
        Err(FenError::FenBadPlacement)
    ));
}

#[test]
fn make_and_unmake_restore_the_position() {
    let generator = generator();
    let mut board =
        Board::from_fen("r3k2r/p1ppqpb1/bn2pnp1/3PN3/1p2P3/2N2Q1p/PPPBBPPP/R3K2R w KQkq - 0 1")
            .unwrap();
    let before = board.bitboards();
    let squares: Vec<(u8, u8)> = (0..64u8).map(|s| (board.type_at_sq(s), board.color_at_sq(s))).collect();
    let (_, moves) = legal_moves(&generator, &board);
    for m in moves {
        board.make(&m);
        assert_eq!(board.get_turn(), BLACK as u8);
        assert_eq!(board.ply_count(), 1);
        board.unmake();
        assert_eq!(board.bitboards(), before);
        let after: Vec<(u8, u8)> = (0..64u8).map(|s| (board.type_at_sq(s), board.color_at_sq(s))).collect();
        assert_eq!(after, squares);
        assert_eq!(board.get_turn(), WHITE as u8);
        assert_eq!(board.ply_count(), 0);
    }
    // Unmaking with no move played changes nothing.
    board.unmake();
    assert_eq!(board.bitboards(), before);
}

#[test]
fn occupancy_is_the_union_of_the_sides() {
    let generator = generator();
    let mut board = Board::from_fen(START).unwrap();
    for _ in 0..6 {
        let (_, moves) = legal_moves(&generator, &board);
        board.make(&moves[moves.len() / 2]);
        let b = board.bitboards();
        assert_eq!(b.occupancy, b.color[0] | b.color[1]);
        let mut seen = 0u64;
        for c in 0..2 {
            for k in 0..6 {
                assert_eq!(seen & b.piece[c][k], 0);
                seen |= b.piece[c][k];
            }
        }
        assert_eq!(seen, b.occupancy);
    }
}

#[test]
fn pinned_rook_moves_along_its_ray() {
    // The white rook on e2 is pinned by the black rook on e7.
    let generator = generator();
    let board = Board::from_fen("4k3/4r3/8/8/8/8/4R3/4K3 w - - 0 1").unwrap();
    let (tables, moves) = legal_moves(&generator, &board);
    assert_eq!(tables.pins.len(), 1);
    assert_eq!(tables.pins[0], 0x0010101010101000u64);
    let rook_moves: Vec<&Move> = moves.iter().filter(|m| m.get_from() == 52).collect();
    assert_eq!(rook_moves.len(), 5);
    for m in rook_moves {
        assert_ne!(tables.pins[0] & (1u64 << m.get_to()), 0);
    }
}

#[test]
fn single_check_is_blocked_or_captured() {
    // The black rook on e8 checks the white king on e1; the white rook on a4 can block on e4.
    let generator = generator();
    let board = Board::from_fen("k3r3/8/8/8/R7/8/8/4K3 w - - 0 1").unwrap();
    let (tables, moves) = legal_moves(&generator, &board);
    assert_eq!(tables.checks, 1u64 << 4);
    assert_eq!(tables.check_blocks, 0x0010101010101010u64);
    for m in &moves {
        if m.get_from() != 60 {
            assert_ne!(tables.check_blocks & (1u64 << m.get_to()), 0);
        }
    }
    let rook_moves: Vec<&Move> = moves.iter().filter(|m| m.get_from() == 32).collect();
    assert_eq!(rook_moves.len(), 1);
    assert_eq!(rook_moves[0].get_to(), 36);
    // The king leaves the file: d1, d2, f1, f2.
    let king_moves = moves.iter().filter(|m| m.get_from() == 60).count();
    assert_eq!(king_moves, 4);
}

#[test]
fn double_check_allows_only_king_moves() {
    let generator = generator();
    let board = Board::from_fen("k3r3/8/8/8/R7/8/6n1/4K3 w - - 0 1").unwrap();
    let (tables, moves) = legal_moves(&generator, &board);
    assert_eq!(tables.check_blocks, 0);
    assert!(moves.iter().all(|m| m.get_from() == 60));
}

#[test]
fn en_passant_exposing_the_king_is_excluded() {
    // Taking on d6 would empty the fifth rank between the king on a5 and the rook on h5.
    let generator = generator();
    let board = Board::from_fen("8/8/8/K2pP2r/8/8/8/4k3 w - d 0 1").unwrap();
    let (_, moves) = legal_moves(&generator, &board);
    assert!(!moves.iter().any(|m| m.get_flags() == ENPASSANT));
    // Without the rook the capture is legal.
    let board = Board::from_fen("8/8/8/K2pP3/8/8/8/4k3 w - d 0 1").unwrap();
    let (_, moves) = legal_moves(&generator, &board);
    let enp: Vec<&Move> = moves.iter().filter(|m| m.get_flags() == ENPASSANT).collect();
    assert_eq!(enp.len(), 1);
    assert_eq!((enp[0].get_from(), enp[0].get_to()), (28, 19));
}

#[test]
fn en_passant_round_trip() {
    let generator = generator();
    let mut board = Board::from_fen("8/8/8/K2pP3/8/8/8/4k3 w - d 0 1").unwrap();
    let before = board.bitboards();
    let (_, moves) = legal_moves(&generator, &board);
    let m = *moves.iter().find(|m| m.get_flags() == ENPASSANT).unwrap();
    board.make(&m);
    assert_eq!(board.type_at_sq(27), EMPTY as u8);
    assert_eq!(board.type_at_sq(19), PAWN as u8);
    assert_eq!(board.state().get_captured_piece(), PAWN as u8);
    board.unmake();
    assert_eq!(board.bitboards(), before);
    assert_eq!(board.type_at_sq(27), PAWN as u8);
    assert_eq!(board.color_at_sq(27), BLACK as u8);
}

#[test]
fn castling_moves_king_and_rook_and_ends_rights() {
    let generator = generator();
    let mut board = Board::from_fen("r3k2r/8/8/8/8/8/8/R3K2R w KQkq - 0 1").unwrap();
    let (tables, moves) = legal_moves(&generator, &board);
    assert!(MoveGenerator::ksc_legal(&board, &tables));
    assert!(MoveGenerator::qsc_legal(&board, &tables));
    let m = *moves.iter().find(|m| m.get_flags() == KING_SIDE_CASTLE).unwrap();
    board.make(&m);
    assert_eq!(board.type_at_sq(62), KING as u8);
    assert_eq!(board.type_at_sq(61), ROOK as u8);
    assert_eq!(board.type_at_sq(60), EMPTY as u8);
    assert_eq!(board.type_at_sq(63), EMPTY as u8);
    let state = board.state();
    assert!(!state.has_ksc_right(WHITE as u8) && !state.has_qsc_right(WHITE as u8));
    assert!(state.has_ksc_right(BLACK as u8) && state.has_qsc_right(BLACK as u8));
    board.unmake();
    assert_eq!(board.type_at_sq(60), KING as u8);
    assert_eq!(board.type_at_sq(63), ROOK as u8);
}

#[test]
fn castling_through_a_threat_is_illegal() {
    // The black rook on f8 attacks f1, which the king would pass.
    let generator = generator();
    let board = Board::from_fen("k4r2/8/8/8/8/8/8/R3K2R w KQ - 0 1").unwrap();
    let tables = generator.gen_board_tables(&board);
    assert!(!MoveGenerator::ksc_legal(&board, &tables));
    assert!(MoveGenerator::qsc_legal(&board, &tables));
}

#[test]
fn capturing_a_rook_ends_the_right() {
    let generator = generator();
    let mut board = Board::from_fen("r3k2r/8/8/8/8/8/8/R3K2R w KQkq - 0 1").unwrap();
    let (_, moves) = legal_moves(&generator, &board);
    let m = *moves.iter().find(|m| m.get_from() == 56 && m.get_to() == 0).unwrap();
    assert_eq!(m.get_flags(), CAPTURE);
    board.make(&m);
    let state = board.state();
    assert!(!state.has_qsc_right(BLACK as u8));
    assert!(state.has_ksc_right(BLACK as u8));
    assert!(!state.has_qsc_right(WHITE as u8));
    assert!(state.has_ksc_right(WHITE as u8));
    assert_eq!(state.get_captured_piece(), ROOK as u8);
}

#[test]
fn double_push_opens_en_passant() {
    let generator = generator();
    let mut board = Board::from_fen(START).unwrap();
    let (_, moves) = legal_moves(&generator, &board);
    let m = *moves.iter().find(|m| m.get_from() == 52 && m.get_to() == 36).unwrap();
    assert_eq!(m.get_flags(), DOUBLE_PAWN_PUSH);
    board.make(&m);
    assert!(board.state().enp_avaliable());
    assert_eq!(board.state().get_enp_col(), 4);
    let (_, replies) = legal_moves(&generator, &board);
    let m2 = replies.iter().find(|m| m.get_flags() == QUIET).unwrap();
    board.make(m2);
    assert!(!board.state().enp_avaliable());
}

#[test]
fn promotions_come_in_fours() {
    let generator = generator();
    let board = Board::from_fen("3r3k/2P5/8/8/8/8/8/K7 w - - 0 1").unwrap();
    let (_, moves) = legal_moves(&generator, &board);
    let pawn_moves: Vec<&Move> = moves.iter().filter(|m| m.get_from() == 10).collect();
    // Four pushes to c8 and four captures on d8.
    assert_eq!(pawn_moves.len(), 8);
    let mut names: Vec<String> = pawn_moves.iter().map(|m| m.to_long_algbr()).collect();
    names.sort();
    assert_eq!(names, vec!["c7c8b", "c7c8n", "c7c8q", "c7c8r", "c7d8b", "c7d8n", "c7d8q", "c7d8r"]);
}

#[test]
fn long_algebraic_of_plain_moves() {
    let m = Move::new(52, 36, DOUBLE_PAWN_PUSH);
    assert_eq!(m.to_long_algbr(), "e2e4");
    assert_eq!((m.get_from(), m.get_to(), m.get_flags()), (52, 36, DOUBLE_PAWN_PUSH));
    let m = Move::new(6, 21, QUIET);
    assert_eq!(m.to_long_algbr(), "g8f6");
}

#[test]
fn move_list_push_pop() {
    let mut list = MoveList::new();
    assert_eq!(list.size(), 0);
    list.push(Move::new(1, 2, QUIET));
    list.push(Move::new(3, 4, CAPTURE));
    assert_eq!(list.size(), 2);
    assert_eq!(list.at(0).get_to(), 2);
    assert_eq!(list.pop().get_from(), 3);
    list.clear();
    assert_eq!(list.size(), 0);
}

#[test]
fn text_diagrams_of_the_start() {
    let board = Board::from_fen(START).unwrap();
    let letters = board.str_rep();
    assert_eq!(letters[0].iter().collect::<String>(), "rnbqkbnr");
    assert_eq!(letters[1].iter().collect::<String>(), "pppppppp");
    assert_eq!(letters[4].iter().collect::<String>(), "        ");
    assert_eq!(letters[7].iter().collect::<String>(), "RNBQKBNR");
    let symbols = board.str_rep_utf8();
    assert_eq!(symbols[0].iter().collect::<String>(), "\u{265C}\u{265E}\u{265D}\u{265B}\u{265A}\u{265D}\u{265E}\u{265C}");
    assert_eq!(symbols[6][0], '\u{2659}');
}

#[test]
fn fen_rights_and_en_passant_are_read() {
    let board = Board::from_fen("4k2r/8/8/3pP3/8/8/8/R3K3 w Qk d 0 1").unwrap();
    let state = board.state();
    assert!(!state.has_ksc_right(WHITE as u8) && state.has_qsc_right(WHITE as u8));
    assert!(state.has_ksc_right(BLACK as u8) && !state.has_qsc_right(BLACK as u8));
    assert!(state.enp_avaliable());
    assert_eq!(state.get_enp_col(), 3);
    let board = Board::from_fen("4k3/8/8/8/8/8/8/4K3 b - e 0 1").unwrap();
    assert_eq!(board.get_turn(), BLACK as u8);
    assert_eq!(board.state().get_enp_col(), 4);
}
