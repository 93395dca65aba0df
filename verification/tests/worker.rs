use chess_engine::board::{initial_board, Board, BoardPosition};
use chess_engine::bot::{boards_equal, BotAction, BotEvent, BotState, MessageToBot, MessageToMain};
use chess_engine::piece::{CoordinateSet, Piece, PieceColor, PieceType};

fn after_e4() -> Board {
    let mut start = BoardPosition::default();
    start.move_piece(CoordinateSet::new(4, 6), CoordinateSet::new(4, 4)).unwrap().board
}

fn searched(steps: usize) -> BotState {
    let mut state = BotState::new(initial_board(), PieceColor::Black, PieceColor::White);
    for _ in 0..steps {
        assert!(matches!(state.step(BotEvent::Empty), BotAction::Expanded));
    }
    state
}

#[test]
fn new_worker_waits_at_the_root() {
    let state = BotState::new(initial_board(), PieceColor::Black, PieceColor::White);
    assert_eq!(state.position.board, initial_board());
    assert!(state.position.children.is_empty());
    assert_eq!(state.progress, vec![0]);
    assert_eq!(state.min_depth, 0);
    assert_eq!(state.max_depth, 5);
    assert_eq!(state.bot_color, PieceColor::Black);
    assert_eq!(state.initial_turn, PieceColor::White);
    assert!(!state.stopped);
}

#[test]
fn boards_are_compared_square_by_square() {
    let a = initial_board();
    let mut b = initial_board();
    assert!(boards_equal(&a, &b));
    b[7][4] = Piece::new(PieceColor::White, PieceType::King { has_moved: true });
    assert!(!boards_equal(&a, &b));
    b[7][4] = Piece::new(PieceColor::White, PieceType::King { has_moved: false });
    assert!(boards_equal(&a, &b));
    b[3][3] = Piece::new(PieceColor::White, PieceType::Empty);
    assert!(!boards_equal(&a, &b));
}

#[test]
fn worker_searches_while_nothing_comes() {
    let mut state = BotState::new(initial_board(), PieceColor::Black, PieceColor::White);
    assert!(matches!(state.step(BotEvent::Empty), BotAction::Expanded));
    assert_eq!(state.position.children.len(), 20);
    assert_eq!(state.progress, vec![1]);
    assert!(matches!(state.step(BotEvent::Empty), BotAction::Expanded));
    assert_eq!(state.progress, vec![0, 1]);
}

#[test]
fn worker_is_idle_when_the_search_is_deep_enough() {
    let mut state = BotState::new([[Piece::new(PieceColor::Black, PieceType::Empty); 8]; 8], PieceColor::Black, PieceColor::White);
    assert!(matches!(state.step(BotEvent::Empty), BotAction::Expanded));
    assert!(matches!(state.step(BotEvent::Empty), BotAction::Idle));
    assert_eq!(state.progress.len(), 6);
    assert!(matches!(state.step(BotEvent::Empty), BotAction::Idle));
    assert_eq!(state.progress, vec![0; 6]);
}

#[test]
fn stop_ends_the_worker_for_good() {
    let mut state = searched(3);
    let progress = state.progress.clone();
    assert!(matches!(state.step(BotEvent::Message(MessageToBot::Stop)), BotAction::Terminate));
    assert!(state.stopped);
    assert_eq!(state.progress, progress);
    assert!(matches!(state.step(BotEvent::Empty), BotAction::Terminate));
    assert!(matches!(
        state.step(BotEvent::Message(MessageToBot::Move(after_e4()))),
        BotAction::Terminate
    ));
    assert!(matches!(state.step(BotEvent::Message(MessageToBot::Stop)), BotAction::Terminate));
    assert_eq!(state.progress, progress);
    assert_eq!(state.position.board, initial_board());
    assert_eq!(state.position.children.len(), 20);
}

#[test]
fn a_closed_inbox_ends_the_worker() {
    let mut state = searched(1);
    assert!(matches!(state.step(BotEvent::Disconnected), BotAction::Terminate));
    assert!(state.stopped);
    assert!(matches!(state.step(BotEvent::Empty), BotAction::Terminate));
}

#[test]
fn a_board_that_no_move_leads_to_is_an_error() {
    let mut state = searched(12);
    let progress = state.progress.clone();
    let children = state.position.children.len();
    let mut board = initial_board();
    board[4][4] = Piece::new(PieceColor::White, PieceType::Queen);
    match state.step(BotEvent::Message(MessageToBot::Move(board))) {
        BotAction::Reply(MessageToMain::Error(text)) => assert_eq!(text, "Illegal Move"),
        _ => panic!("an error was due"),
    }
    assert_eq!(state.position.board, initial_board());
    assert_eq!(state.position.children.len(), children);
    assert_eq!(state.progress, progress);
    assert!(!state.stopped);
    // The position itself is no successor of itself either.
    assert!(matches!(
        state.step(BotEvent::Message(MessageToBot::Move(initial_board()))),
        BotAction::Reply(MessageToMain::Error(_))
    ));
    // The worker goes on as before.
    assert!(matches!(state.step(BotEvent::Empty), BotAction::Expanded));
}

#[test]
fn a_move_before_any_search_is_an_error() {
    let mut state = BotState::new(initial_board(), PieceColor::Black, PieceColor::White);
    assert!(matches!(
        state.step(BotEvent::Message(MessageToBot::Move(after_e4()))),
        BotAction::Reply(MessageToMain::Error(_))
    ));
    assert!(state.position.children.is_empty());
}

#[test]
fn a_move_whose_replies_are_not_found_yet_cannot_be_answered() {
    let mut state = searched(1);
    assert_eq!(state.find_played(&after_e4()), Some(9));
    assert!(matches!(
        state.step(BotEvent::Message(MessageToBot::Move(after_e4()))),
        BotAction::Stuck
    ));
    assert_eq!(state.position.board, initial_board());
    assert_eq!(state.position.children.len(), 20);
    assert_eq!(state.progress, vec![1]);
}

#[test]
fn worker_answers_a_move_with_its_first_best_reply() {
    let mut state = searched(25);
    let reply = match state.step(BotEvent::Message(MessageToBot::Move(after_e4()))) {
        BotAction::Reply(MessageToMain::Move(position)) => position,
        _ => panic!("a reply was due"),
    };
    // No reply wins or loses anything, so the first is chosen: the knight
    // on file 1 goes to the edge.
    let mut expected = after_e4();
    expected[0][1] = Piece::new(PieceColor::Black, PieceType::Empty);
    expected[2][0] = Piece::new(PieceColor::Black, PieceType::Knight);
    assert_eq!(reply.board, expected);
    assert!(reply.children.is_empty());
    assert_eq!(reply.en_passante, None);
    assert_eq!(reply.base_white_eval, 0);
    assert_eq!(reply.tree_eval, 0);
    assert_eq!(state.position.board, expected);
    assert_eq!(state.progress, vec![0]);
    assert!(!state.stopped);
    assert!(matches!(state.step(BotEvent::Empty), BotAction::Expanded));
    assert_eq!(state.progress, vec![1]);
}

#[test]
fn worker_takes_what_it_can() {
    // Black has a rook that can take a queen or a pawn; White has moved its
    // king.
    let empty = Piece::new(PieceColor::Black, PieceType::Empty);
    let mut board = [[empty; 8]; 8];
    board[7][4] = Piece::new(PieceColor::White, PieceType::King { has_moved: true });
    board[3][0] = Piece::new(PieceColor::White, PieceType::Pawn);
    board[0][7] = Piece::new(PieceColor::White, PieceType::Queen);
    board[0][0] = Piece::new(PieceColor::Black, PieceType::Rook { has_moved: true });
    let mut state = BotState::new(board, PieceColor::Black, PieceColor::White);
    let mut root = BoardPosition::new(board);
    let played = root.move_piece(CoordinateSet::new(4, 7), CoordinateSet::new(4, 6)).unwrap().board;
    while state
        .find_played(&played)
        .map_or(true, |index| state.position.children[index].children.is_empty())
    {
        assert!(matches!(state.step(BotEvent::Empty), BotAction::Expanded));
    }
    let reply = match state.step(BotEvent::Message(MessageToBot::Move(played))) {
        BotAction::Reply(MessageToMain::Move(position)) => position,
        _ => panic!("a reply was due"),
    };
    assert_eq!(reply.board[0][7], Piece::new(PieceColor::Black, PieceType::Rook { has_moved: true }));
    assert_eq!(reply.board[0][0], empty);
    assert_eq!(reply.base_white_eval, 10000 + 1 - 5);
    assert_eq!(reply.tree_eval, 10000 + 1 - 5);
    assert_eq!(state.position.tree_eval, 10000 + 1 - 5);
    assert_eq!(state.position.board, reply.board);
}
