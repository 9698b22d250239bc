use chess_core::board::Board;
use chess_core::pieces::{
    generate_knight_moves, generate_pawn_moves, generate_sliding_moves, generate_step_moves, Piece,
    PieceColor, PieceType, BISHOP_DIRS, KING_DIRS, KNIGHT_DIRS, QUEEN_DIRS, ROOK_DIRS,
};

fn white(piece_type: PieceType) -> Piece {
    Piece { piece_type, color: PieceColor::White }
}

fn black(piece_type: PieceType) -> Piece {
    Piece { piece_type, color: PieceColor::Black }
}

fn contents(board: &Board) -> Vec<Option<Piece>> {
    board.nodes.iter().map(|node| node.piece).collect()
}

fn sorted(mut squares: Vec<(u32, u32)>) -> Vec<(u32, u32)> {
    squares.sort();
    squares
}

#[test]
fn king_in_the_middle_of_an_empty_board() {
    let board = Board::new_empty();
    let moves = white(PieceType::King).generate_legal_moves((3, 3), &board);
    assert_eq!(moves.len(), 8);
    assert_eq!(
        moves,
        vec![(4, 3), (3, 4), (2, 3), (3, 2), (4, 4), (4, 2), (2, 4), (2, 2)]
    );
}

#[test]
fn knight_in_the_middle_of_an_empty_board() {
    let board = Board::new_empty();
    let moves = white(PieceType::Knight).generate_legal_moves((3, 3), &board);
    assert_eq!(moves.len(), 8);
    assert_eq!(
        moves,
        vec![(5, 4), (4, 5), (2, 5), (1, 4), (1, 2), (2, 1), (4, 1), (5, 2)]
    );
}

#[test]
fn king_in_the_corner_of_an_empty_board() {
    let board = Board::new_empty();
    let moves = black(PieceType::King).generate_legal_moves((0, 0), &board);
    assert_eq!(moves.len(), 3);
    assert_eq!(moves, vec![(1, 0), (0, 1), (1, 1)]);
}

#[test]
fn knight_in_the_corner_of_an_empty_board() {
    let board = Board::new_empty();
    let moves = black(PieceType::Knight).generate_legal_moves((0, 0), &board);
    assert_eq!(moves.len(), 2);
    assert_eq!(moves, vec![(2, 1), (1, 2)]);
}

#[test]
fn white_pawn_on_its_start_rank() {
    for file in 0..8u32 {
        let mut board = Board::new_empty();
        let pawn = white(PieceType::Pawn);
        board.set_piece((file, 6), pawn);
        let moves = pawn.generate_legal_moves((file, 6), &board);
        assert_eq!(moves, vec![(file, 5), (file, 4)]);
    }
}

#[test]
fn white_pawn_off_its_start_rank() {
    for file in 0..8u32 {
        let mut board = Board::new_empty();
        let pawn = white(PieceType::Pawn);
        board.set_piece((file, 6), pawn);
        assert!(board.move_piece((file, 6), (file, 5)));
        let moves = pawn.generate_legal_moves((file, 5), &board);
        assert_eq!(moves, vec![(file, 4)]);
    }
}

#[test]
fn black_pawn_advances_towards_higher_ranks() {
    for file in 0..8u32 {
        let mut board = Board::new_empty();
        let pawn = black(PieceType::Pawn);
        board.set_piece((file, 1), pawn);
        assert_eq!(pawn.generate_legal_moves((file, 1), &board), vec![(file, 2), (file, 3)]);
        assert!(board.move_piece((file, 1), (file, 2)));
        assert_eq!(pawn.generate_legal_moves((file, 2), &board), vec![(file, 3)]);
    }
}

#[test]
fn pawn_start_rank_belongs_to_its_colour() {
    let board = Board::new_empty();
    // a white pawn on black's start rank, and the reverse, get no double step
    assert_eq!(white(PieceType::Pawn).generate_legal_moves((2, 1), &board), vec![(2, 0)]);
    assert_eq!(black(PieceType::Pawn).generate_legal_moves((2, 6), &board), vec![(2, 7)]);
}

#[test]
fn pawn_on_the_last_rank_has_no_move() {
    let mut board = Board::new_empty();
    board.set_piece((1, 0), black(PieceType::Rook));
    board.set_piece((6, 7), white(PieceType::Rook));
    assert!(white(PieceType::Pawn).generate_legal_moves((0, 0), &board).is_empty());
    assert!(black(PieceType::Pawn).generate_legal_moves((7, 7), &board).is_empty());
}

#[test]
fn pawn_blocked_straight_ahead() {
    let mut board = Board::new_empty();
    let pawn = white(PieceType::Pawn);
    board.set_piece((3, 6), pawn);
    board.set_piece((3, 5), black(PieceType::Knight));
    assert!(pawn.generate_legal_moves((3, 6), &board).is_empty());
    board.set_piece((3, 5), white(PieceType::Knight));
    assert!(pawn.generate_legal_moves((3, 6), &board).is_empty());
}

#[test]
fn pawn_double_step_blocked_on_the_far_square() {
    let mut board = Board::new_empty();
    let pawn = white(PieceType::Pawn);
    board.set_piece((3, 6), pawn);
    board.set_piece((3, 4), black(PieceType::Knight));
    assert_eq!(pawn.generate_legal_moves((3, 6), &board), vec![(3, 5)]);
}

#[test]
fn pawn_captures_diagonally_only_an_enemy() {
    for file in 1..8u32 {
        let mut board = Board::new_empty();
        let pawn = white(PieceType::Pawn);
        board.set_piece((file, 6), pawn);
        board.set_piece((file - 1, 5), black(PieceType::Bishop));
        assert_eq!(
            pawn.generate_legal_moves((file, 6), &board),
            vec![(file, 5), (file, 4), (file - 1, 5)]
        );
        // a piece of its own colour on the diagonal is no capture
        board.set_piece((file - 1, 5), white(PieceType::Bishop));
        assert_eq!(pawn.generate_legal_moves((file, 6), &board), vec![(file, 5), (file, 4)]);
    }
}

#[test]
fn pawn_capture_does_not_need_a_free_square_ahead() {
    for file in 1..8u32 {
        let mut board = Board::new_empty();
        let pawn = white(PieceType::Pawn);
        board.set_piece((file, 6), pawn);
        board.set_piece((file - 1, 5), black(PieceType::Bishop));
        board.set_piece((file, 5), black(PieceType::Pawn));
        assert_eq!(pawn.generate_legal_moves((file, 6), &board), vec![(file - 1, 5)]);
    }
}

#[test]
fn pawn_captures_on_both_sides() {
    let mut board = Board::new_empty();
    let pawn = black(PieceType::Pawn);
    board.set_piece((4, 3), pawn);
    board.set_piece((3, 4), white(PieceType::Pawn));
    board.set_piece((5, 4), white(PieceType::Queen));
    assert_eq!(pawn.generate_legal_moves((4, 3), &board), vec![(4, 4), (3, 4), (5, 4)]);
}

#[test]
fn pawn_on_an_edge_file_discards_the_square_off_the_board() {
    let mut board = Board::new_empty();
    board.set_piece((1, 5), black(PieceType::Rook));
    board.set_piece((6, 5), black(PieceType::Rook));
    assert_eq!(
        white(PieceType::Pawn).generate_legal_moves((0, 6), &board),
        vec![(0, 5), (0, 4), (1, 5)]
    );
    assert_eq!(
        white(PieceType::Pawn).generate_legal_moves((7, 6), &board),
        vec![(7, 5), (7, 4), (6, 5)]
    );
}

#[test]
fn rook_on_an_empty_board() {
    let board = Board::new_empty();
    let moves = white(PieceType::Rook).generate_legal_moves((3, 3), &board);
    assert_eq!(
        moves,
        vec![
            (4, 3), (5, 3), (6, 3), (7, 3),
            (2, 3), (1, 3), (0, 3),
            (3, 4), (3, 5), (3, 6), (3, 7),
            (3, 2), (3, 1), (3, 0),
        ]
    );
}

#[test]
fn bishop_on_an_empty_board() {
    let board = Board::new_empty();
    let moves = black(PieceType::Bishop).generate_legal_moves((2, 4), &board);
    assert_eq!(
        moves,
        vec![
            (3, 5), (4, 6), (5, 7),
            (3, 3), (4, 2), (5, 1), (6, 0),
            (1, 5), (0, 6),
            (1, 3), (0, 2),
        ]
    );
}

#[test]
fn queen_on_an_empty_board() {
    let board = Board::new_empty();
    let queen = white(PieceType::Queen);
    let moves = queen.generate_legal_moves((3, 3), &board);
    assert_eq!(moves.len(), 27);
    let mut expected = white(PieceType::Rook).generate_legal_moves((3, 3), &board);
    expected.extend(white(PieceType::Bishop).generate_legal_moves((3, 3), &board));
    assert_eq!(moves, expected);
    assert_eq!(queen.generate_legal_moves((0, 0), &board).len(), 21);
}

#[test]
fn sliding_stops_before_a_friend() {
    let mut board = Board::new_empty();
    board.set_piece((3, 3), white(PieceType::Rook));
    board.set_piece((5, 3), white(PieceType::Pawn));
    board.set_piece((3, 1), white(PieceType::Pawn));
    let moves = white(PieceType::Rook).generate_legal_moves((3, 3), &board);
    assert_eq!(
        moves,
        vec![(4, 3), (2, 3), (1, 3), (0, 3), (3, 4), (3, 5), (3, 6), (3, 7), (3, 2)]
    );
}

#[test]
fn sliding_ends_on_an_enemy() {
    let mut board = Board::new_empty();
    board.set_piece((3, 3), white(PieceType::Rook));
    board.set_piece((5, 3), black(PieceType::Pawn));
    // whatever stands behind the blocker is out of reach
    board.set_piece((6, 3), black(PieceType::Queen));
    board.set_piece((3, 1), black(PieceType::Pawn));
    let moves = white(PieceType::Rook).generate_legal_moves((3, 3), &board);
    assert_eq!(
        moves,
        vec![(4, 3), (5, 3), (2, 3), (1, 3), (0, 3), (3, 4), (3, 5), (3, 6), (3, 7), (3, 2), (3, 1)]
    );
    assert!(!moves.contains(&(6, 3)));
    assert!(!moves.contains(&(7, 3)));
    assert!(!moves.contains(&(3, 0)));
}

#[test]
fn nothing_behind_a_blocker_is_reached() {
    let sliders = [PieceType::Rook, PieceType::Bishop, PieceType::Queen];
    for kind in sliders {
        for dir in QUEEN_DIRS {
            for blocker in [white(PieceType::Pawn), black(PieceType::Pawn)] {
                for behind in [None, Some(white(PieceType::Knight)), Some(black(PieceType::Knight))] {
                    let mut board = Board::new_empty();
                    let at = |k: i32| ((4 + k * dir.0) as u32, (4 + k * dir.1) as u32);
                    board.set_piece(at(2), blocker);
                    if let Some(p) = behind {
                        board.set_piece(at(3), p);
                    }
                    let moves = white(kind).generate_legal_moves((4, 4), &board);
                    assert!(!moves.contains(&at(3)));
                    let own_line = match kind {
                        PieceType::Rook => ROOK_DIRS.contains(&dir),
                        PieceType::Bishop => BISHOP_DIRS.contains(&dir),
                        _ => true,
                    };
                    assert_eq!(moves.contains(&at(1)), own_line);
                    assert_eq!(
                        moves.contains(&at(2)),
                        own_line && blocker.color == PieceColor::Black
                    );
                }
            }
        }
    }
}

#[test]
fn knight_jumps_over_pieces() {
    let board = Board::new_standard();
    let moves = white(PieceType::Knight).generate_legal_moves((1, 7), &board);
    assert_eq!(moves, vec![(0, 5), (2, 5)]);
    let moves = black(PieceType::Knight).generate_legal_moves((6, 0), &board);
    assert_eq!(moves, vec![(7, 2), (5, 2)]);
}

#[test]
fn step_moves_capture_enemies_and_respect_friends() {
    let mut board = Board::new_empty();
    board.set_piece((4, 3), black(PieceType::Pawn));
    board.set_piece((3, 4), white(PieceType::Pawn));
    let moves = white(PieceType::King).generate_legal_moves((3, 3), &board);
    assert_eq!(moves, vec![(4, 3), (2, 3), (3, 2), (4, 4), (4, 2), (2, 4), (2, 2)]);
}

#[test]
fn pieces_are_hemmed_in_at_the_start() {
    let board = Board::new_standard();
    for file in 0..8u32 {
        for (rank, color) in [(7u32, PieceColor::White), (0u32, PieceColor::Black)] {
            let piece = board.get_node((file, rank)).and_then(|n| n.piece).expect("back rank");
            assert_eq!(piece.color, color);
            let moves = piece.generate_legal_moves((file, rank), &board);
            if piece.piece_type == PieceType::Knight {
                assert_eq!(moves.len(), 2);
            } else {
                assert!(moves.is_empty());
            }
        }
    }
}

#[test]
fn destinations_lie_on_the_board_and_hold_no_friend() {
    let mut board = Board::new_standard();
    assert!(board.move_piece((4, 6), (4, 4)));
    assert!(board.move_piece((3, 1), (3, 3)));
    assert!(board.move_piece((3, 7), (7, 3)));
    assert!(board.move_piece((2, 0), (6, 4)));
    let kinds = [
        PieceType::Pawn,
        PieceType::Knight,
        PieceType::Bishop,
        PieceType::Rook,
        PieceType::Queen,
        PieceType::King,
    ];
    for rank in 0..8u32 {
        for file in 0..8u32 {
            for kind in kinds {
                for color in [PieceColor::White, PieceColor::Black] {
                    let piece = Piece { piece_type: kind, color };
                    let moves = piece.generate_legal_moves((file, rank), &board);
                    for &(x, y) in &moves {
                        assert!(x < 8 && y < 8);
                        let there = board.get_node((x, y)).and_then(|n| n.piece);
                        assert!(there.map_or(true, |p| p.color != color));
                        assert_ne!((x, y), (file, rank));
                    }
                    let mut unique = sorted(moves.clone());
                    unique.dedup();
                    assert_eq!(unique.len(), moves.len());
                }
            }
        }
    }
}

#[test]
fn generation_is_repeatable_and_reads_only() {
    let mut board = Board::new_standard();
    assert!(board.move_piece((4, 6), (4, 4)));
    let before = contents(&board);
    let queen = white(PieceType::Queen);
    let first = queen.generate_legal_moves((3, 7), &board);
    let second = queen.generate_legal_moves((3, 7), &board);
    assert_eq!(first, vec![(4, 6), (5, 5), (6, 4), (7, 3)]);
    assert_eq!(first, second);
    assert_eq!(contents(&board), before);
}

#[test]
fn origin_off_the_board_yields_only_squares_of_the_board() {
    let board = Board::new_empty();
    let king = white(PieceType::King);
    assert_eq!(king.generate_legal_moves((8, 3), &board), vec![(7, 3), (7, 4), (7, 2)]);
    assert!(king.generate_legal_moves((9, 3), &board).is_empty());
    let rook = white(PieceType::Rook);
    assert_eq!(
        rook.generate_legal_moves((8, 0), &board),
        vec![(7, 0), (6, 0), (5, 0), (4, 0), (3, 0), (2, 0), (1, 0), (0, 0)]
    );
    let kinds = [
        PieceType::Pawn,
        PieceType::Knight,
        PieceType::Bishop,
        PieceType::Rook,
        PieceType::Queen,
        PieceType::King,
    ];
    for kind in kinds {
        for origin in [(u32::MAX, u32::MAX), (u32::MAX, 0), (0, u32::MAX), (0x7fff_ffff, 0x8000_0000)] {
            assert!(white(kind).generate_legal_moves(origin, &board).is_empty());
            assert!(black(kind).generate_legal_moves(origin, &board).is_empty());
        }
    }
}

#[test]
fn primitives_agree_with_the_dispatch() {
    let mut board = Board::new_standard();
    assert!(board.move_piece((4, 6), (4, 4)));
    assert!(board.move_piece((4, 1), (4, 3)));
    let from = (4, 4);
    let c = PieceColor::White;
    assert_eq!(
        generate_step_moves(from, &board, &KING_DIRS, c),
        white(PieceType::King).generate_legal_moves(from, &board)
    );
    assert_eq!(
        generate_step_moves(from, &board, &KNIGHT_DIRS, c),
        white(PieceType::Knight).generate_legal_moves(from, &board)
    );
    assert_eq!(
        generate_knight_moves(c, from, &board),
        white(PieceType::Knight).generate_legal_moves(from, &board)
    );
    assert_eq!(
        generate_sliding_moves(from, &board, &ROOK_DIRS, c),
        white(PieceType::Rook).generate_legal_moves(from, &board)
    );
    assert_eq!(
        generate_sliding_moves(from, &board, &BISHOP_DIRS, c),
        white(PieceType::Bishop).generate_legal_moves(from, &board)
    );
    assert_eq!(
        generate_sliding_moves(from, &board, &QUEEN_DIRS, c),
        white(PieceType::Queen).generate_legal_moves(from, &board)
    );
    assert_eq!(
        generate_pawn_moves(c, from, &board),
        white(PieceType::Pawn).generate_legal_moves(from, &board)
    );
    assert!(generate_pawn_moves(c, from, &board).is_empty());
    assert_eq!(
        generate_sliding_moves(from, &board, &ROOK_DIRS, c),
        vec![(5, 4), (6, 4), (7, 4), (3, 4), (2, 4), (1, 4), (0, 4), (4, 5), (4, 6), (4, 3)]
    );
}

#[test]
fn primitives_take_any_directions() {
    let board = Board::new_empty();
    let c = PieceColor::Black;
    assert!(generate_step_moves((3, 3), &board, &[], c).is_empty());
    assert!(generate_sliding_moves((3, 3), &board, &[], c).is_empty());
    assert_eq!(generate_step_moves((3, 3), &board, &[(0, 0), (3, 0), (5, 0)], c), vec![(3, 3), (6, 3)]);
    assert_eq!(
        generate_sliding_moves((1, 1), &board, &[(2, 3), (i32::MAX, 0), (i32::MIN, i32::MIN)], c),
        vec![(3, 4), (5, 7)]
    );
}

#[test]
fn squares_without_a_node_are_passed_over() {
    let mut board = Board::new_empty();
    board.nodes.truncate(59);
    // squares (3, 7) to (7, 7) have no node
    let rook = white(PieceType::Rook);
    assert_eq!(
        rook.generate_legal_moves((0, 7), &board),
        vec![(1, 7), (2, 7), (0, 6), (0, 5), (0, 4), (0, 3), (0, 2), (0, 1), (0, 0)]
    );
    // a walk goes on behind squares that have no node
    assert_eq!(
        rook.generate_legal_moves((7, 7), &board),
        vec![(2, 7), (1, 7), (0, 7), (7, 6), (7, 5), (7, 4), (7, 3), (7, 2), (7, 1), (7, 0)]
    );
    assert_eq!(
        white(PieceType::King).generate_legal_moves((3, 6), &board),
        vec![(4, 6), (2, 6), (3, 5), (4, 5), (2, 7), (2, 5)]
    );
    assert!(black(PieceType::Pawn).generate_legal_moves((5, 6), &board).is_empty());
    let empty = Board { nodes: Vec::new() };
    assert!(white(PieceType::Queen).generate_legal_moves((3, 3), &empty).is_empty());
    assert!(white(PieceType::Knight).generate_legal_moves((3, 3), &empty).is_empty());
    assert!(white(PieceType::Pawn).generate_legal_moves((3, 6), &empty).is_empty());
}
