use chess_engine::board::{Board, BoardPosition};
use chess_engine::movegen::reach;
use chess_engine::piece::{
    ChessMove, CoordinateSet, Direction, MoveType, Piece, PieceColor, PieceType,
};

const EMPTY: Piece = Piece { color: PieceColor::Black, piece_type: PieceType::Empty };

fn board_with(pieces: &[(i32, i32, PieceColor, PieceType)]) -> Board {
    let mut board = [[EMPTY; 8]; 8];
    for &(x, y, color, piece_type) in pieces {
        board[y as usize][x as usize] = Piece { color, piece_type };
    }
    board
}

fn position_with(pieces: &[(i32, i32, PieceColor, PieceType)]) -> BoardPosition {
    BoardPosition::new(board_with(pieces))
}

fn at(position: &BoardPosition, x: i32, y: i32) -> Piece {
    *position.get_piece(&CoordinateSet::new(x, y))
}

const WHITE: PieceColor = PieceColor::White;
const BLACK: PieceColor = PieceColor::Black;
const ROOK: PieceType = PieceType::Rook { has_moved: false };
const KING: PieceType = PieceType::King { has_moved: false };
const MOVED_ROOK: PieceType = PieceType::Rook { has_moved: true };
const MOVED_KING: PieceType = PieceType::King { has_moved: true };

#[test]
fn reach_gives_squares_of_the_board_only() {
    let from = CoordinateSet::new(3, 3);
    assert_eq!(reach(&from, &Direction { x: 1, y: -1 }, 3), Some(CoordinateSet::new(6, 0)));
    assert_eq!(reach(&from, &Direction { x: 1, y: -1 }, 4), None);
    assert_eq!(reach(&from, &Direction { x: 0, y: 0 }, 1000), Some(from));
    assert_eq!(reach(&from, &Direction { x: i32::MAX, y: i32::MIN }, 1), None);
    assert_eq!(reach(&from, &Direction { x: 1, y: 0 }, i32::MAX), None);
    assert_eq!(reach(&from, &Direction { x: -3, y: 4 }, 1), Some(CoordinateSet::new(0, 7)));
}

#[test]
fn white_has_twenty_moves_in_the_initial_position() {
    let mut position = BoardPosition::default();
    position.eval_moves(WHITE);
    assert_eq!(position.children.len(), 20);
    let double_steps = position.children.iter().filter(|c| c.en_passante.is_some()).count();
    assert_eq!(double_steps, 8);
    for child in &position.children {
        assert_eq!(child.base_white_eval, 0);
        assert!(child.children.is_empty());
        assert_eq!(child.tree_eval, 0);
    }
}

#[test]
fn black_has_twenty_moves_in_the_initial_position() {
    let mut position = BoardPosition::default();
    position.eval_moves(BLACK);
    assert_eq!(position.children.len(), 20);
}

#[test]
fn successors_come_rank_by_rank_and_file_by_file() {
    let mut position = BoardPosition::default();
    position.eval_moves(WHITE);
    // The pawn on file 0 comes first: its single step, then its double step.
    assert_eq!(at(&position.children[0], 0, 5), Piece::new(WHITE, PieceType::Pawn));
    assert_eq!(position.children[0].en_passante, None);
    assert_eq!(at(&position.children[1], 0, 4), Piece::new(WHITE, PieceType::Pawn));
    assert_eq!(position.children[1].en_passante, Some(CoordinateSet::new(0, 4)));
    // The knights come behind the sixteen moves of the pawns.
    assert_eq!(at(&position.children[16], 0, 5), Piece::new(WHITE, PieceType::Knight));
    assert_eq!(at(&position.children[17], 2, 5), Piece::new(WHITE, PieceType::Knight));
    assert_eq!(at(&position.children[18], 5, 5), Piece::new(WHITE, PieceType::Knight));
    assert_eq!(at(&position.children[19], 7, 5), Piece::new(WHITE, PieceType::Knight));
}

#[test]
fn eval_moves_puts_new_successors_behind_the_old() {
    let mut position = BoardPosition::default();
    position.eval_moves(WHITE);
    let first = position.children[0].board;
    position.eval_moves(BLACK);
    assert_eq!(position.children.len(), 40);
    assert_eq!(position.children[0].board, first);
    assert_eq!(at(&position.children[20], 0, 2), Piece::new(BLACK, PieceType::Knight));
}

#[test]
fn every_legal_move_lands_on_the_board() {
    let mut position = BoardPosition::default();
    for y in 0..8 {
        for x in 0..8 {
            let from = CoordinateSet::new(x, y);
            for chess_move in position.get_legal_moves_piece(&from) {
                assert!(!(from + chess_move.1).out_of_bounds());
            }
        }
    }
    let mut open = position_with(&[(0, 0, WHITE, PieceType::Queen), (7, 7, BLACK, PieceType::Queen)]);
    for from in [CoordinateSet::new(0, 0), CoordinateSet::new(7, 7)] {
        let moves = open.get_legal_moves_piece(&from);
        assert_eq!(moves.len(), 21);
        for chess_move in moves {
            assert!(!(from + chess_move.1).out_of_bounds());
        }
    }
}

#[test]
fn move_arbitrary_relocates_and_marks() {
    let position = position_with(&[(0, 7, WHITE, ROOK), (0, 3, BLACK, PieceType::Pawn)]);
    let after = position.move_arbitrary(&CoordinateSet::new(0, 7), &CoordinateSet::new(0, 3));
    assert_eq!(at(&after, 0, 3), Piece::new(WHITE, MOVED_ROOK));
    assert_eq!(at(&after, 0, 7), EMPTY);
    assert_eq!(after.en_passante, None);
    assert!(after.children.is_empty());
    assert_eq!(at(&position, 0, 7), Piece::new(WHITE, ROOK));
}

#[test]
fn slide_on_an_open_file_ends_with_the_capture() {
    let mut position = position_with(&[(0, 7, WHITE, ROOK), (0, 3, BLACK, PieceType::Pawn), (0, 1, BLACK, PieceType::Queen)]);
    position.eval_move(&CoordinateSet::new(0, 7), &ChessMove(MoveType::Repeat, Direction { x: 0, y: -1 }));
    assert_eq!(position.children.len(), 4);
    for (i, child) in position.children.iter().enumerate() {
        let y = 6 - i as i32;
        assert_eq!(at(child, 0, y), Piece::new(WHITE, MOVED_ROOK));
        assert_eq!(at(child, 0, 7), EMPTY);
        assert_eq!(child.en_passante, None);
    }
    // The last is the capture, and nothing lies beyond it.
    assert_eq!(position.children[3].base_white_eval, 5 - 9);
    assert_eq!(position.children[2].base_white_eval, 5 - 9 - 1);
    assert_eq!(at(&position.children[3], 0, 1), Piece::new(BLACK, PieceType::Queen));
}

#[test]
fn slide_stops_before_a_piece_of_its_own_side() {
    let mut position = position_with(&[(0, 7, WHITE, ROOK), (0, 3, WHITE, PieceType::Pawn)]);
    position.eval_move(&CoordinateSet::new(0, 7), &ChessMove(MoveType::Repeat, Direction { x: 0, y: -1 }));
    assert_eq!(position.children.len(), 3);
    for child in &position.children {
        assert_eq!(at(child, 0, 3), Piece::new(WHITE, PieceType::Pawn));
    }
    let mut blocked = position_with(&[(0, 7, WHITE, ROOK), (0, 6, WHITE, PieceType::Pawn)]);
    blocked.eval_move(&CoordinateSet::new(0, 7), &ChessMove(MoveType::Repeat, Direction { x: 0, y: -1 }));
    assert!(blocked.children.is_empty());
}

#[test]
fn slide_runs_to_the_edge_of_an_empty_board() {
    let mut position = position_with(&[(3, 4, BLACK, PieceType::Bishop)]);
    position.move_repeat(&CoordinateSet::new(3, 4), &Direction { x: 1, y: 1 }, 1);
    assert_eq!(position.children.len(), 3);
    position.move_repeat(&CoordinateSet::new(3, 4), &Direction { x: -1, y: -1 }, 2);
    assert_eq!(position.children.len(), 5);
    assert_eq!(at(&position.children[3], 1, 2), Piece::new(BLACK, PieceType::Bishop));
    assert_eq!(at(&position.children[4], 0, 1), Piece::new(BLACK, PieceType::Bishop));
}

#[test]
fn slide_without_direction_finds_nothing() {
    let mut position = position_with(&[(3, 4, BLACK, PieceType::Queen)]);
    position.eval_move(&CoordinateSet::new(3, 4), &ChessMove(MoveType::Repeat, Direction { x: 0, y: 0 }));
    assert!(position.children.is_empty());
}

#[test]
fn capture_only_needs_something_to_capture() {
    let from = CoordinateSet::new(3, 4);
    let capture = ChessMove(MoveType::CaptureOnly, Direction { x: 1, y: -1 });
    let mut nothing = position_with(&[(3, 4, WHITE, PieceType::Pawn)]);
    nothing.eval_move(&from, &capture);
    assert!(nothing.children.is_empty());
    let mut own = position_with(&[(3, 4, WHITE, PieceType::Pawn), (4, 3, WHITE, PieceType::Knight)]);
    own.eval_move(&from, &capture);
    assert!(own.children.is_empty());
    let mut other = position_with(&[(3, 4, WHITE, PieceType::Pawn), (4, 3, BLACK, PieceType::Knight)]);
    other.eval_move(&from, &capture);
    assert_eq!(other.children.len(), 1);
    assert_eq!(at(&other.children[0], 4, 3), Piece::new(WHITE, PieceType::Pawn));
    assert_eq!(at(&other.children[0], 3, 4), EMPTY);
    assert_eq!(other.children[0].base_white_eval, 1);
}

#[test]
fn no_capture_needs_an_empty_square() {
    let from = CoordinateSet::new(3, 4);
    let step = ChessMove(MoveType::NoCapture, Direction { x: 0, y: -1 });
    let mut free = position_with(&[(3, 4, WHITE, PieceType::Pawn)]);
    free.eval_move(&from, &step);
    assert_eq!(free.children.len(), 1);
    let mut taken = position_with(&[(3, 4, WHITE, PieceType::Pawn), (3, 3, BLACK, PieceType::Pawn)]);
    taken.eval_move(&from, &step);
    assert!(taken.children.is_empty());
}

#[test]
fn standard_step_off_the_board_finds_nothing() {
    let mut position = position_with(&[(0, 0, BLACK, PieceType::Knight)]);
    position.eval_move(&CoordinateSet::new(0, 0), &ChessMove(MoveType::Standard, Direction { x: -1, y: 2 }));
    assert!(position.children.is_empty());
    position.eval_move(&CoordinateSet::new(0, 0), &ChessMove(MoveType::Standard, Direction { x: i32::MIN, y: i32::MAX }));
    assert!(position.children.is_empty());
    position.eval_move(&CoordinateSet::new(0, 0), &ChessMove(MoveType::Standard, Direction { x: 1, y: 2 }));
    assert_eq!(position.children.len(), 1);
}

#[test]
fn pawn_first_needs_the_home_rank_and_a_free_way() {
    let double = ChessMove(MoveType::PawnFirst, Direction { x: 0, y: -2 });
    let mut home = position_with(&[(4, 6, WHITE, PieceType::Pawn)]);
    home.eval_move(&CoordinateSet::new(4, 6), &double);
    assert_eq!(home.children.len(), 1);
    assert_eq!(home.children[0].en_passante, Some(CoordinateSet::new(4, 4)));
    assert_eq!(at(&home.children[0], 4, 4), Piece::new(WHITE, PieceType::Pawn));
    assert_eq!(at(&home.children[0], 4, 6), EMPTY);
    let mut away = position_with(&[(4, 5, WHITE, PieceType::Pawn)]);
    away.eval_move(&CoordinateSet::new(4, 5), &double);
    assert!(away.children.is_empty());
    let mut jumped = position_with(&[(4, 6, WHITE, PieceType::Pawn), (4, 5, BLACK, PieceType::Knight)]);
    jumped.eval_move(&CoordinateSet::new(4, 6), &double);
    assert!(jumped.children.is_empty());
    let mut met = position_with(&[(4, 6, WHITE, PieceType::Pawn), (4, 4, BLACK, PieceType::Knight)]);
    met.eval_move(&CoordinateSet::new(4, 6), &double);
    assert!(met.children.is_empty());
    let mut black = position_with(&[(2, 1, BLACK, PieceType::Pawn)]);
    black.eval_move(&CoordinateSet::new(2, 1), &ChessMove(MoveType::PawnFirst, Direction { x: 0, y: 2 }));
    assert_eq!(black.children.len(), 1);
    assert_eq!(black.children[0].en_passante, Some(CoordinateSet::new(2, 3)));
}

#[test]
fn double_step_can_be_captured_in_passing_from_both_sides() {
    let mut start = position_with(&[
        (4, 6, WHITE, PieceType::Pawn),
        (3, 4, BLACK, PieceType::Pawn),
        (5, 4, BLACK, PieceType::Pawn),
    ]);
    let after = start.move_piece(CoordinateSet::new(4, 6), CoordinateSet::new(4, 4)).unwrap();
    assert_eq!(after.en_passante, Some(CoordinateSet::new(4, 4)));
    for (x, side) in [(3, 1), (5, -1)] {
        let mut position = BoardPosition::new(after.board);
        position.en_passante = after.en_passante;
        let moves = position.get_legal_moves_piece(&CoordinateSet::new(x, 4));
        assert!(moves.contains(&ChessMove(MoveType::EnPassante, Direction { x: side, y: 1 })));
        let mut position = BoardPosition::new(after.board);
        position.en_passante = after.en_passante;
        let taken = position.move_piece(CoordinateSet::new(x, 4), CoordinateSet::new(4, 5)).unwrap();
        assert_eq!(at(&taken, 4, 5), Piece::new(BLACK, PieceType::Pawn));
        assert_eq!(at(&taken, 4, 4), EMPTY);
        assert_eq!(at(&taken, x, 4), EMPTY);
        assert_eq!(taken.en_passante, None);
        assert_eq!(taken.base_white_eval, -2);
    }
}

#[test]
fn another_move_clears_the_pawn_to_capture_in_passing() {
    let mut start = position_with(&[(4, 6, WHITE, PieceType::Pawn), (3, 4, BLACK, PieceType::Pawn)]);
    let mut after = start.move_piece(CoordinateSet::new(4, 6), CoordinateSet::new(4, 4)).unwrap();
    assert_eq!(after.en_passante, Some(CoordinateSet::new(4, 4)));
    let next = after.move_piece(CoordinateSet::new(3, 4), CoordinateSet::new(3, 5)).unwrap();
    assert_eq!(next.en_passante, None);
    assert_eq!(at(&next, 3, 5), Piece::new(BLACK, PieceType::Pawn));
    assert_eq!(at(&next, 4, 4), Piece::new(WHITE, PieceType::Pawn));
}

#[test]
fn no_capture_in_passing_without_a_double_step() {
    let mut position = position_with(&[(4, 4, WHITE, PieceType::Pawn), (3, 4, BLACK, PieceType::Pawn)]);
    position.eval_move(&CoordinateSet::new(3, 4), &ChessMove(MoveType::EnPassante, Direction { x: 1, y: 1 }));
    assert!(position.children.is_empty());
    position.en_passante = Some(CoordinateSet::new(0, 0));
    position.eval_move(&CoordinateSet::new(3, 4), &ChessMove(MoveType::EnPassante, Direction { x: 1, y: 1 }));
    assert!(position.children.is_empty());
    position.en_passante = Some(CoordinateSet::new(4, 4));
    position.eval_move(&CoordinateSet::new(3, 4), &ChessMove(MoveType::EnPassante, Direction { x: 1, y: 1 }));
    assert_eq!(position.children.len(), 1);
}

#[test]
fn promotion_gives_four_successors() {
    let mut position = position_with(&[(0, 1, WHITE, PieceType::Pawn)]);
    position.eval_move(&CoordinateSet::new(0, 1), &ChessMove(MoveType::Promotion, Direction { x: 0, y: -1 }));
    assert_eq!(position.children.len(), 4);
    let kinds = [PieceType::Knight, PieceType::Bishop, MOVED_ROOK, PieceType::Queen];
    let values = [3, 3, 5, 9];
    for i in 0..4 {
        let child = &position.children[i];
        assert_eq!(at(child, 0, 0), Piece::new(WHITE, kinds[i]));
        assert_eq!(child.en_passante, None);
        assert_eq!(child.base_white_eval, values[i]);
        for y in 0..8 {
            for x in 0..8 {
                if (x, y) != (0, 0) {
                    assert_eq!(at(child, x, y), EMPTY);
                }
            }
        }
    }
}

#[test]
fn promotion_with_capture_gives_four_successors() {
    let mut position = position_with(&[(3, 6, BLACK, PieceType::Pawn), (4, 7, WHITE, ROOK), (3, 7, WHITE, KING)]);
    let from = CoordinateSet::new(3, 6);
    position.eval_move(&from, &ChessMove(MoveType::PromotionCapture, Direction { x: 1, y: 1 }));
    assert_eq!(position.children.len(), 4);
    assert_eq!(at(&position.children[3], 4, 7), Piece::new(BLACK, PieceType::Queen));
    assert_eq!(at(&position.children[3], 3, 6), EMPTY);
    assert_eq!(position.children[3].base_white_eval, 10000 - 9);
    // Straight ahead stands the king: no promotion there, and nothing to
    // capture on the other side.
    position.eval_move(&from, &ChessMove(MoveType::Promotion, Direction { x: 0, y: 1 }));
    position.eval_move(&from, &ChessMove(MoveType::PromotionCapture, Direction { x: -1, y: 1 }));
    assert_eq!(position.children.len(), 4);
}

#[test]
fn no_promotion_from_another_rank() {
    let mut position = position_with(&[(0, 2, WHITE, PieceType::Pawn)]);
    position.eval_move(&CoordinateSet::new(0, 2), &ChessMove(MoveType::Promotion, Direction { x: 0, y: -1 }));
    assert!(position.children.is_empty());
}

#[test]
fn pawn_before_its_last_rank_has_the_plain_step_and_four_promotions() {
    let mut position = position_with(&[(0, 1, WHITE, PieceType::Pawn)]);
    position.eval_moves(WHITE);
    assert_eq!(position.children.len(), 5);
    assert_eq!(at(&position.children[0], 0, 0), Piece::new(WHITE, PieceType::Pawn));
    assert_eq!(at(&position.children[1], 0, 0), Piece::new(WHITE, PieceType::Knight));
    assert_eq!(at(&position.children[4], 0, 0), Piece::new(WHITE, PieceType::Queen));
}

fn castle(position: &mut BoardPosition, king: (i32, i32), x: i32) -> usize {
    let before = position.children.len();
    position.eval_move(&CoordinateSet::new(king.0, king.1), &ChessMove(MoveType::Castle, Direction { x, y: 0 }));
    position.children.len() - before
}

#[test]
fn castling_on_the_side_of_the_king() {
    let mut position = position_with(&[(4, 7, WHITE, KING), (7, 7, WHITE, ROOK), (0, 7, WHITE, ROOK)]);
    assert_eq!(castle(&mut position, (4, 7), 2), 1);
    let child = &position.children[0];
    assert_eq!(at(child, 6, 7), Piece::new(WHITE, MOVED_KING));
    assert_eq!(at(child, 5, 7), Piece::new(WHITE, MOVED_ROOK));
    assert_eq!(at(child, 4, 7), EMPTY);
    assert_eq!(at(child, 7, 7), EMPTY);
    assert_eq!(at(child, 0, 7), Piece::new(WHITE, ROOK));
    assert_eq!(child.en_passante, None);
    assert_eq!(child.base_white_eval, 10010);
}

#[test]
fn castling_on_the_side_of_the_queen() {
    let mut position = position_with(&[(4, 0, BLACK, KING), (7, 0, BLACK, ROOK), (0, 0, BLACK, ROOK)]);
    assert_eq!(castle(&mut position, (4, 0), -2), 1);
    let child = &position.children[0];
    assert_eq!(at(child, 2, 0), Piece::new(BLACK, MOVED_KING));
    assert_eq!(at(child, 3, 0), Piece::new(BLACK, MOVED_ROOK));
    assert_eq!(at(child, 4, 0), EMPTY);
    assert_eq!(at(child, 0, 0), EMPTY);
    assert_eq!(at(child, 1, 0), EMPTY);
    assert_eq!(at(child, 7, 0), Piece::new(BLACK, ROOK));
}

#[test]
fn no_castling_once_the_king_has_moved() {
    let mut position = position_with(&[(4, 7, WHITE, MOVED_KING), (7, 7, WHITE, ROOK), (0, 7, WHITE, ROOK)]);
    assert_eq!(castle(&mut position, (4, 7), 2), 0);
    assert_eq!(castle(&mut position, (4, 7), -2), 0);
}

#[test]
fn no_castling_once_the_rook_has_moved() {
    let mut position = position_with(&[(4, 7, WHITE, KING), (7, 7, WHITE, MOVED_ROOK), (0, 7, WHITE, ROOK)]);
    assert_eq!(castle(&mut position, (4, 7), 2), 0);
    assert_eq!(castle(&mut position, (4, 7), -2), 1);
}

#[test]
fn no_castling_without_the_rook_or_with_a_rook_of_the_other_side() {
    let mut missing = position_with(&[(4, 7, WHITE, KING)]);
    assert_eq!(castle(&mut missing, (4, 7), 2), 0);
    assert_eq!(castle(&mut missing, (4, 7), -2), 0);
    let mut knight = position_with(&[(4, 7, WHITE, KING), (7, 7, WHITE, PieceType::Knight)]);
    assert_eq!(castle(&mut knight, (4, 7), 2), 0);
    let mut other = position_with(&[(4, 7, WHITE, KING), (7, 7, BLACK, ROOK)]);
    assert_eq!(castle(&mut other, (4, 7), 2), 0);
}

#[test]
fn no_castling_across_a_piece() {
    for x in [5, 6] {
        for color in [WHITE, BLACK] {
            let mut position = position_with(&[(4, 7, WHITE, KING), (7, 7, WHITE, ROOK), (x, 7, color, PieceType::Knight)]);
            assert_eq!(castle(&mut position, (4, 7), 2), 0);
        }
    }
    for x in [1, 2, 3] {
        for color in [WHITE, BLACK] {
            let mut position = position_with(&[(4, 7, WHITE, KING), (0, 7, WHITE, ROOK), (x, 7, color, PieceType::Knight)]);
            assert_eq!(castle(&mut position, (4, 7), -2), 0);
        }
    }
}

#[test]
fn no_castling_through_an_attacked_square() {
    let mut rook = position_with(&[(4, 7, WHITE, KING), (7, 7, WHITE, ROOK), (5, 0, BLACK, MOVED_ROOK)]);
    assert_eq!(castle(&mut rook, (4, 7), 2), 0);
    let mut pawn = position_with(&[(4, 7, WHITE, KING), (7, 7, WHITE, ROOK), (4, 6, BLACK, PieceType::Pawn)]);
    assert_eq!(castle(&mut pawn, (4, 7), 2), 0);
    let mut knight = position_with(&[(4, 7, WHITE, KING), (0, 7, WHITE, ROOK), (2, 5, BLACK, PieceType::Knight)]);
    assert_eq!(castle(&mut knight, (4, 7), -2), 0);
}

#[test]
fn castling_looks_at_the_square_between_only() {
    // The destination is attacked, and so is the king where it stands: the
    // square that the king passes through is not.
    let mut position = position_with(&[
        (4, 7, WHITE, KING),
        (7, 7, WHITE, ROOK),
        (6, 0, BLACK, MOVED_ROOK),
        (4, 0, BLACK, MOVED_ROOK),
    ]);
    assert_eq!(castle(&mut position, (4, 7), 2), 1);
}

#[test]
fn castling_away_from_the_usual_file_finds_no_rook() {
    let mut position = position_with(&[(5, 7, WHITE, KING), (7, 7, WHITE, ROOK), (0, 7, WHITE, ROOK)]);
    assert_eq!(castle(&mut position, (5, 7), 2), 0);
    assert_eq!(castle(&mut position, (5, 7), -2), 0);
}

#[test]
fn castling_test_ends_with_unmoved_kings_on_both_sides() {
    let mut position = position_with(&[
        (4, 7, WHITE, KING),
        (7, 7, WHITE, ROOK),
        (0, 7, WHITE, ROOK),
        (4, 0, BLACK, KING),
        (7, 0, BLACK, ROOK),
        (0, 0, BLACK, ROOK),
    ]);
    position.eval_moves(WHITE);
    // Rooks: 7 up + 3 aside, and 7 up + 2 aside; king: 5 steps and 2
    // castling moves.
    assert_eq!(position.children.len(), 10 + 9 + 7);
    let castled = position
        .children
        .iter()
        .filter(|c| at(c, 4, 7) == EMPTY && (at(c, 6, 7).piece_type == MOVED_KING || at(c, 2, 7).piece_type == MOVED_KING))
        .count();
    assert_eq!(castled, 2);
}

#[test]
fn legal_moves_of_a_rook_are_single_steps() {
    let mut position = position_with(&[(0, 7, WHITE, ROOK), (0, 4, BLACK, PieceType::Pawn), (2, 7, WHITE, PieceType::Bishop)]);
    let moves = position.get_legal_moves_piece(&CoordinateSet::new(0, 7));
    assert_eq!(
        moves,
        vec![
            ChessMove(MoveType::Standard, Direction { x: 1, y: 0 }),
            ChessMove(MoveType::Standard, Direction { x: 0, y: -1 }),
            ChessMove(MoveType::Standard, Direction { x: 0, y: -2 }),
            ChessMove(MoveType::Standard, Direction { x: 0, y: -3 }),
        ]
    );
    assert_eq!(position.children.len(), 4);
}

#[test]
fn legal_moves_of_a_king_keep_the_castling_move() {
    let mut position = position_with(&[(4, 7, WHITE, KING), (7, 7, WHITE, ROOK)]);
    let moves = position.get_legal_moves_piece(&CoordinateSet::new(4, 7));
    assert_eq!(moves.len(), 6);
    assert_eq!(moves[5], ChessMove(MoveType::Castle, Direction { x: 2, y: 0 }));
}

#[test]
fn an_empty_square_has_no_legal_moves() {
    let mut position = BoardPosition::default();
    assert!(position.get_legal_moves_piece(&CoordinateSet::new(4, 4)).is_empty());
    assert!(position.children.is_empty());
}

#[test]
fn move_piece_plays_a_slide() {
    let mut position = position_with(&[(0, 7, WHITE, ROOK), (0, 4, BLACK, PieceType::Pawn)]);
    let after = position.move_piece(CoordinateSet::new(0, 7), CoordinateSet::new(0, 4)).unwrap();
    assert_eq!(at(&after, 0, 4), Piece::new(WHITE, MOVED_ROOK));
    assert_eq!(at(&after, 0, 7), EMPTY);
    assert_eq!(after.base_white_eval, 5);
    assert!(after.children.is_empty());
    assert!(position.children.is_empty());
}

#[test]
fn move_piece_refuses_what_is_not_legal() {
    let mut position = BoardPosition::default();
    position.eval_moves(WHITE);
    let outcome = position.move_piece(CoordinateSet::new(4, 6), CoordinateSet::new(4, 3));
    assert_eq!(outcome.unwrap_err(), "Illegal Move, try again");
    assert_eq!(position.children.len(), 20);
    assert_eq!(position.board, BoardPosition::default().board);
    let outcome = position.move_piece(CoordinateSet::new(4, 4), CoordinateSet::new(4, 3));
    assert_eq!(outcome.unwrap_err(), "Illegal Move, try again");
    let outcome = position.move_piece(CoordinateSet::new(0, 7), CoordinateSet::new(-1, 9));
    assert_eq!(outcome.unwrap_err(), "Illegal Move, try again");
    assert_eq!(position.children.len(), 20);
}

#[test]
fn move_piece_prefers_the_plain_step_to_the_promotion() {
    let mut position = position_with(&[(6, 1, WHITE, PieceType::Pawn), (7, 0, BLACK, PieceType::Bishop)]);
    position.eval_moves(BLACK);
    assert!(!position.children.is_empty());
    // Straight ahead, the step that does not capture comes first.
    let ahead = position.move_piece(CoordinateSet::new(6, 1), CoordinateSet::new(6, 0)).unwrap();
    assert_eq!(at(&ahead, 6, 0), Piece::new(WHITE, PieceType::Pawn));
    assert_eq!(at(&ahead, 6, 1), EMPTY);
    assert!(position.children.is_empty());
    // Aside, the capture comes before the promotion with a capture.
    let taken = position.move_piece(CoordinateSet::new(6, 1), CoordinateSet::new(7, 0)).unwrap();
    assert_eq!(at(&taken, 7, 0), Piece::new(WHITE, PieceType::Pawn));
    assert_eq!(taken.base_white_eval, 1);
    assert!(position.children.is_empty());
}
