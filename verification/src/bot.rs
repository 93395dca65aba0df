//! The worker that searches while it waits, and answers the moves of its
//! opponent: its state, the messages it exchanges, and what it does on each
//! turn of its loop.

use crate::board::{lemma_board_ext, piece_at, Board, BoardPosition};
use crate::piece::PieceColor;
use crate::search::{cursor_ok, expand_tree, moved_on, settled, turn_at, zeros};
use core::ops::Not;
use vstd::prelude::*;

verus! {

/// What the opponent's side sends to the worker.
#[derive(Clone, Copy)]
pub enum MessageToBot {
    /// End the search.
    Stop,
    /// The board as it stands after the opponent's move.
    Move(Board),
}

/// What the worker sends back.
#[derive(Debug)]
pub enum MessageToMain {
    /// The board that was sent is no successor of the position.
    Error(String),
    /// The position after the worker's reply, without its successors.
    Move(BoardPosition),
}

/// What a poll of the worker's inbox gives.
pub enum BotEvent {
    /// A message has come.
    Message(MessageToBot),
    /// Nothing has come.
    Empty,
    /// Nobody is left to send anything.
    Disconnected,
}

/// What the worker has done on one turn of its loop, and what its loop is to
/// do with it.
pub enum BotAction {
    /// A message to send back.
    Reply(MessageToMain),
    /// The successors of one more position have been found.
    Expanded,
    /// The search has gone as deep as it may: wait a while.
    Idle,
    /// The opponent's move leads to a position of which no successor has
    /// been found, so no reply can be chosen.
    Stuck,
    /// The worker has stopped: leave the loop.
    Terminate,
}

/// The index of the cursor's entry that tells that a level is finished, in
/// the search of a new worker.
pub const MIN_DEPTH: usize = 0;

/// The greatest length of the cursor at which the search of a new worker
/// still goes on.
pub const MAX_DEPTH: usize = 5;

/// The state of the worker.
pub struct BotState {
    /// The position that the game has come to, with the successors found.
    pub position: BoardPosition,
    /// The cursor of the search below `position`.
    pub progress: Vec<usize>,
    /// The side that the worker plays.
    pub bot_color: PieceColor,
    /// The side that moves in `position`.
    pub initial_turn: PieceColor,
    /// The index of the cursor's entry that tells that a level is finished.
    pub min_depth: usize,
    /// The greatest length of the cursor at which the search still goes on.
    pub max_depth: usize,
    /// Whether the worker has stopped.
    pub stopped: bool,
}

/// The index of the first of `children`, from index `start` on, that has the
/// board `board`; the length of `children` if none has.
pub open spec fn first_with_board(children: Seq<BoardPosition>, board: Board, start: int) -> int
    decreases children.len() - start,
{
    if start < 0 || start >= children.len() {
        children.len() as int
    } else if children[start].board == board {
        start
    } else {
        first_with_board(children, board, start + 1)
    }
}

/// The index of the first among the first `count` of `children` that has the
/// least value for `color`.
pub open spec fn first_least(children: Seq<BoardPosition>, color: PieceColor, count: nat) -> int
    decreases count,
{
    if count <= 1 {
        0
    } else {
        let earlier = first_least(children, color, (count - 1) as nat);
        if children[count - 1].minimax(color) < children[earlier].minimax(color) {
            count - 1
        } else {
            earlier
        }
    }
}

/// `first_least` gives a position of the least value, and the first of them.
pub proof fn lemma_first_least(children: Seq<BoardPosition>, color: PieceColor, count: nat)
    requires
        1 <= count <= children.len(),
    ensures
        0 <= first_least(children, color, count) < count,
        forall|i: int|
            0 <= i < count ==> children[first_least(children, color, count)].minimax(color) <= (
            #[trigger] children[i]).minimax(color),
        forall|i: int|
            0 <= i < first_least(children, color, count) ==> children[first_least(
                children,
                color,
                count,
            )].minimax(color) < (#[trigger] children[i]).minimax(color),
    decreases count,
{
    if count > 1 {
        lemma_first_least(children, color, (count - 1) as nat);
    }
}

/// Whether two boards hold the same piece on every square.
pub fn boards_equal(a: &Board, b: &Board) -> (same: bool)
    ensures
        same == (*a == *b),
{
    let mut y: usize = 0;
    while y < 8
        invariant
            y <= 8,
            forall|x2: int, y2: int|
                0 <= x2 < 8 && 0 <= y2 < y ==> #[trigger] piece_at(*a, x2, y2) == piece_at(
                    *b,
                    x2,
                    y2,
                ),
        decreases 8 - y,
    {
        let mut x: usize = 0;
        while x < 8
            invariant
                y < 8,
                x <= 8,
                forall|x2: int, y2: int|
                    0 <= x2 < 8 && 0 <= y2 < y ==> #[trigger] piece_at(*a, x2, y2) == piece_at(
                        *b,
                        x2,
                        y2,
                    ),
                forall|x2: int|
                    0 <= x2 < x ==> #[trigger] piece_at(*a, x2, y as int) == piece_at(
                        *b,
                        x2,
                        y as int,
                    ),
            decreases 8 - x,
        {
            if a[y][x] != b[y][x] {
                assert(piece_at(*a, x as int, y as int) != piece_at(*b, x as int, y as int));
                return false;
            }
            x += 1;
        }
        y += 1;
    }
    proof {
        lemma_board_ext(*a, *b);
    }
    true
}

impl BotState {
    /// Whether the state is sound: the position is well-formed, and the
    /// cursor is one of a search below it.
    pub open spec fn well_formed(self) -> bool {
        &&& self.position.well_formed()
        &&& cursor_ok(self.position, self.progress@, self.min_depth as int)
    }

    /// The index of the successor that the opponent's move to `board` leads
    /// to; the number of the successors if it leads to none.
    pub open spec fn played(self, board: Board) -> int {
        first_with_board(self.position.children@, board, 0)
    }

    /// Whether the worker can answer the opponent's move to `board`: if the
    /// move leads to a successor, a successor of that one has been found.
    pub open spec fn answerable(self, board: Board) -> bool {
        self.played(board) < self.position.children@.len() ==> self.position.children@[self.played(
            board,
        )].children@.len() > 0
    }

    /// Whether `self` and `reply` are what the opponent's move to `board`
    /// makes of `before`. Where the move leads to no successor, an error and
    /// no change. Else the first reply that is worst for the opponent
    /// becomes the position, with its value recorded; the cursor starts
    /// again; and the reply holds the new position without its successors.
    pub open spec fn after_move(self, before: BotState, board: Board, reply: MessageToMain) -> bool {
        let index = before.played(board);
        if index >= before.position.children@.len() {
            &&& self == before
            &&& reply matches MessageToMain::Error(text)
            &&& text@ == "Illegal Move"@
        } else {
            let replies = before.position.children@[index].children@;
            let opponent = before.bot_color.opponent();
            let best = first_least(replies, opponent, replies.len());
            &&& self.position == (BoardPosition {
                tree_eval: replies[best].minimax(opponent) as i32,
                ..replies[best]
            })
            &&& self.progress@ == zeros((before.min_depth + 1) as nat)
            &&& self.bot_color == before.bot_color
            &&& self.initial_turn == before.initial_turn
            &&& self.min_depth == before.min_depth
            &&& self.max_depth == before.max_depth
            &&& self.stopped == before.stopped
            &&& reply matches MessageToMain::Move(sent)
            &&& sent.board == self.position.board
            &&& sent.en_passante == self.position.en_passante
            &&& sent.children@.len() == 0
            &&& sent.base_white_eval == self.position.base_white_eval
            &&& sent.tree_eval == self.position.tree_eval
        }
    }

    /// Whether `self` is what one step of the search makes of `before`, and
    /// `idle` tells that the search had nothing to do.
    pub open spec fn after_search(self, before: BotState, idle: bool) -> bool {
        let rest = settled(
            before.position,
            before.progress@,
            before.min_depth as int,
            before.max_depth as int,
        );
        &&& self.bot_color == before.bot_color
        &&& self.initial_turn == before.initial_turn
        &&& self.min_depth == before.min_depth
        &&& self.max_depth == before.max_depth
        &&& self.stopped == before.stopped
        &&& idle == (rest.len() > before.max_depth)
        &&& if idle {
            self.progress@ == rest && self.position == before.position
        } else {
            &&& self.progress@ == moved_on(rest)
            &&& self.position.expanded_from(
                before.position,
                rest,
                before.min_depth + 1,
                turn_at(rest.len() as int, before.initial_turn),
            )
        }
    }

    /// The worker at the start of a game: it plays `bot_color` from
    /// `initial_position`, in which `initial_turn` moves, and its search goes
    /// on while its cursor is no longer than `MAX_DEPTH`.
    pub fn new(initial_position: Board, bot_color: PieceColor, initial_turn: PieceColor) -> (state:
        BotState)
        ensures
            state.well_formed(),
            state.position.is_new(initial_position),
            state.progress@ == zeros(1),
            state.bot_color == bot_color,
            state.initial_turn == initial_turn,
            state.min_depth == MIN_DEPTH,
            state.max_depth == MAX_DEPTH,
            !state.stopped,
    {
        let mut progress: Vec<usize> = Vec::new();
        progress.push(0);
        assert(progress@ =~= zeros(1));
        BotState {
            position: BoardPosition::new(initial_position),
            progress,
            bot_color,
            initial_turn,
            min_depth: MIN_DEPTH,
            max_depth: MAX_DEPTH,
            stopped: false,
        }
    }

    /// The index of the first successor of the position that has the board
    /// `board`, if there is one.
    pub fn find_played(&self, board: &Board) -> (found: Option<usize>)
        ensures
            match found {
                Some(index) => index == self.played(*board) && index
                    < self.position.children@.len(),
                None => self.played(*board) == self.position.children@.len(),
            },
    {
        let mut i: usize = 0;
        while i < self.position.children.len()
            invariant
                i <= self.position.children@.len(),
                self.played(*board) == first_with_board(self.position.children@, *board, i as int),
            decreases self.position.children@.len() - i,
        {
            if boards_equal(&self.position.children[i].board, board) {
                return Some(i);
            }
            i += 1;
        }
        None
    }

    /// Takes the opponent's move to `board`, and chooses the reply.
    pub fn apply_move(&mut self, board: &Board) -> (reply: MessageToMain)
        requires
            old(self).well_formed(),
            old(self).answerable(*board),
        ensures
            final(self).after_move(*old(self), *board, reply),
            final(self).well_formed(),
    {
        let index: usize = match self.find_played(board) {
            None => {
                return MessageToMain::Error("Illegal Move".to_owned());
            },
            Some(index) => index,
        };
        let ghost replies = self.position.children@[index as int].children@;
        let opponent: PieceColor = self.bot_color.not();
        assert(self.position.children@[index as int].well_formed());
        let mut played: BoardPosition = self.position.children.remove(index);
        // What is worst for the opponent is best for the worker.
        assert(played.children@[0].well_formed());
        let mut best: usize = 0;
        let mut least: i32 = played.children[0].tree_eval(opponent);
        let mut i: usize = 1;
        while i < played.children.len()
            invariant
                1 <= i <= played.children@.len(),
                played.children@ == replies,
                played.well_formed(),
                best == first_least(replies, opponent, i as nat),
                0 <= best < i,
                least == replies[best as int].minimax(opponent),
            decreases played.children@.len() - i,
        {
            assert(played.children@[i as int].well_formed());
            let value: i32 = played.children[i].tree_eval(opponent);
            if value < least {
                best = i;
                least = value;
            }
            i += 1;
        }
        assert(played.children@[best as int].well_formed());
        let mut chosen: BoardPosition = played.children.swap_remove(best);
        chosen.tree_eval = least;
        let mut progress: Vec<usize> = Vec::new();
        let mut k: usize = 0;
        assert(self.min_depth < self.progress.len());
        while k <= self.min_depth
            invariant
                k <= self.min_depth + 1,
                self.min_depth < usize::MAX,
                progress@ == zeros(k as nat),
            decreases self.min_depth + 1 - k,
        {
            progress.push(0);
            assert(progress@ =~= zeros((k + 1) as nat));
            k += 1;
        }
        let sent = BoardPosition {
            board: chosen.board,
            en_passante: chosen.en_passante,
            children: Vec::new(),
            base_white_eval: chosen.base_white_eval,
            tree_eval: chosen.tree_eval,
        };
        self.position = chosen;
        self.progress = progress;
        MessageToMain::Move(sent)
    }

    /// One turn of the worker's loop: what it does when the poll of its
    /// inbox has given `event`. Once it has stopped it does nothing more. A
    /// message to stop, or an inbox that nobody is left to fill, stops it.
    /// A move of the opponent is answered, where it can be. While nothing
    /// has come, the search goes on by one step.
    pub fn step(&mut self, event: BotEvent) -> (action: BotAction)
        requires
            old(self).well_formed(),
        ensures
            final(self).well_formed(),
            old(self).stopped ==> action is Terminate && *final(self) == *old(self),
            !old(self).stopped ==> match event {
                BotEvent::Message(MessageToBot::Stop) | BotEvent::Disconnected => {
                    &&& action is Terminate
                    &&& *final(self) == (BotState { stopped: true, ..*old(self) })
                },
                BotEvent::Message(MessageToBot::Move(board)) => if old(self).answerable(board) {
                    &&& action matches BotAction::Reply(reply)
                    &&& final(self).after_move(*old(self), board, reply)
                } else {
                    &&& action is Stuck
                    &&& *final(self) == *old(self)
                },
                BotEvent::Empty => {
                    &&& action is Idle || action is Expanded
                    &&& final(self).after_search(*old(self), action is Idle)
                },
            },
    {
        if self.stopped {
            return BotAction::Terminate;
        }
        match event {
            BotEvent::Message(MessageToBot::Stop) | BotEvent::Disconnected => {
                self.stopped = true;
                BotAction::Terminate
            },
            BotEvent::Message(MessageToBot::Move(board)) => {
                let can_answer: bool = match self.find_played(&board) {
                    None => true,
                    Some(index) => self.position.children[index].children.len() > 0,
                };
                if can_answer {
                    BotAction::Reply(self.apply_move(&board))
                } else {
                    BotAction::Stuck
                }
            },
            BotEvent::Empty => {
                let idle: bool = expand_tree(
                    &mut self.position,
                    &mut self.progress,
                    self.min_depth,
                    self.max_depth,
                    self.initial_turn,
                );
                if idle {
                    BotAction::Idle
                } else {
                    BotAction::Expanded
                }
            },
        }
    }
}

} // verus!
