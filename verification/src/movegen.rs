//! The rules of movement: what each candidate move of a piece leads to, and
//! the successor positions of a whole side.

use crate::board::{
    empty_square, lemma_material_bound, lemma_with_piece, piece_at, with_piece, Board,
    BoardPosition,
};
use crate::piece::{
    in_bounds, ChessMove, CoordinateSet, Direction, MoveType, Piece, PieceColor, PieceType,
    BOTTOM_SIDE,
};
use core::ops::Not;
use vstd::prelude::*;

verus! {

/// What a move leads to: the board after it, and the square of the pawn that
/// it advanced by two squares, if it did.
pub struct Successor {
    pub board: Board,
    pub en_passante: Option<CoordinateSet>,
}

/// The square `count` steps of `direction` away from `from`, if it is on the
/// board.
pub open spec fn landing(from: CoordinateSet, direction: Direction, count: int) -> Option<
    CoordinateSet,
> {
    let x = from.x + count * direction.x;
    let y = from.y + count * direction.y;
    if in_bounds(x, y) {
        Some(CoordinateSet { x: x as i32, y: y as i32 })
    } else {
        None
    }
}

/// The board after the piece on `from` has gone to `to`: it stands on `to`,
/// marked as moved, and `from` is empty.
pub open spec fn relocated(board: Board, from: CoordinateSet, to: CoordinateSet) -> Board {
    with_piece(
        with_piece(board, to.x as int, to.y as int, piece_at(board, from.x as int, from.y as int).moved()),
        from.x as int,
        from.y as int,
        empty_square(),
    )
}

/// The successor in which the piece on `from` has gone to `to` and no pawn
/// can be captured in passing.
pub open spec fn plain_move(board: Board, from: CoordinateSet, to: CoordinateSet) -> Successor {
    Successor { board: relocated(board, from, to), en_passante: None }
}

/// Whether a candidate of kind `kind` of the piece `mover` may land on a
/// square that holds `target`: on an empty square unless it only captures, on
/// a piece of the other side unless it never captures, on its own side never.
pub open spec fn admissible(kind: MoveType, mover: Piece, target: Piece) -> bool {
    if target.is_empty() {
        kind != MoveType::CaptureOnly && kind != MoveType::PromotionCapture
    } else {
        &&& kind != MoveType::EnPassante
        &&& kind != MoveType::NoCapture
        &&& kind != MoveType::PawnFirst
        &&& kind != MoveType::Promotion
        &&& target.color != mover.color
    }
}

/// The successors of a slide of the piece on `from` along `direction`, from
/// its step of number `count` on: none where the square `count` steps away
/// is off the board or holds a piece of the slider's side; else the move
/// onto that square, and, where that square is empty, those of the steps
/// that follow.
pub open spec fn slide(board: Board, from: CoordinateSet, direction: Direction, count: nat) -> Seq<
    Successor,
>
    decreases 8 - count,
{
    if count >= 8 {
        Seq::empty()
    } else {
        match landing(from, direction, count as int) {
            None => Seq::empty(),
            Some(to) => {
                let mover = piece_at(board, from.x as int, from.y as int);
                let target = piece_at(board, to.x as int, to.y as int);
                if !target.is_empty() && target.color == mover.color {
                    Seq::empty()
                } else if target.is_empty() {
                    seq![plain_move(board, from, to)] + slide(board, from, direction, count + 1)
                } else {
                    seq![plain_move(board, from, to)]
                }
            },
        }
    }
}

/// The rank on which the pawns of `color` start.
pub open spec fn home_rank(color: PieceColor) -> int {
    if color == BOTTOM_SIDE {
        6
    } else {
        1
    }
}

/// The rank from which a pawn of `color` steps onto its last rank.
pub open spec fn promotion_rank(color: PieceColor) -> int {
    if color == BOTTOM_SIDE {
        1
    } else {
        6
    }
}

/// Whether the pawn on `from` may advance by two squares: it stands on its
/// home rank and the square ahead of it is empty.
pub open spec fn pawn_first_allowed(board: Board, from: CoordinateSet) -> bool {
    let mover = piece_at(board, from.x as int, from.y as int);
    &&& from.y == home_rank(mover.color)
    &&& piece_at(board, from.x as int, from.y + mover.forward()).is_empty()
}

/// Whether `mover` may capture in passing by landing on `to`: the square
/// behind `to` is the one that `en_passante` names.
pub open spec fn en_passant_allowed(
    en_passante: Option<CoordinateSet>,
    mover: Piece,
    to: CoordinateSet,
) -> bool {
    &&& in_bounds(to.x as int, to.y - mover.forward())
    &&& en_passante == Some(CoordinateSet { x: to.x, y: (to.y - mover.forward()) as i32 })
}

/// The successor of a capture in passing: the capturing piece on `to`, the
/// square behind `to` and the square `from` empty.
pub open spec fn en_passant_capture(board: Board, from: CoordinateSet, to: CoordinateSet) -> Successor {
    let mover = piece_at(board, from.x as int, from.y as int);
    Successor {
        board: with_piece(
            relocated(board, from, to),
            to.x as int,
            to.y - mover.forward(),
            empty_square(),
        ),
        en_passante: None,
    }
}

/// The successor in which the pawn that stood on `from` stands on `to` as a
/// piece of kind `kind`.
pub open spec fn promoted(
    board: Board,
    from: CoordinateSet,
    to: CoordinateSet,
    color: PieceColor,
    kind: PieceType,
) -> Successor {
    Successor {
        board: with_piece(
            with_piece(board, from.x as int, from.y as int, empty_square()),
            to.x as int,
            to.y as int,
            Piece { color, piece_type: kind },
        ),
        en_passante: None,
    }
}

/// The first `count` successors of a promotion, one for each kind that a pawn
/// promotes to.
pub open spec fn promotions(
    board: Board,
    from: CoordinateSet,
    to: CoordinateSet,
    color: PieceColor,
    count: nat,
) -> Seq<Successor>
    decreases count,
{
    if count == 0 {
        Seq::empty()
    } else {
        promotions(board, from, to, color, (count - 1) as nat).push(
            promoted(board, from, to, color, PieceType::promotions()[count - 1]),
        )
    }
}

/// Whether `piece` is a king that has not moved.
pub open spec fn unmoved_king(piece: Piece) -> bool {
    piece.piece_type == (PieceType::King { has_moved: false })
}

/// The number of kings that have not moved on the first `files` squares of
/// rank `y`.
pub open spec fn rank_unmoved_kings(board: Board, y: int, files: nat) -> nat
    decreases files,
{
    if files == 0 {
        0
    } else {
        rank_unmoved_kings(board, y, (files - 1) as nat) + (if unmoved_king(
            piece_at(board, files - 1, y),
        ) {
            1nat
        } else {
            0nat
        })
    }
}

/// The number of kings that have not moved on the first `ranks` ranks.
pub open spec fn ranks_unmoved_kings(board: Board, ranks: nat) -> nat
    decreases ranks,
{
    if ranks == 0 {
        0
    } else {
        ranks_unmoved_kings(board, (ranks - 1) as nat) + rank_unmoved_kings(board, ranks - 1, 8)
    }
}

/// The number of kings on the board that have not moved. Every test of a
/// castling move looks at a board with one such king less, which is why the
/// generation of moves ends.
pub open spec fn unmoved_kings(board: Board) -> nat {
    ranks_unmoved_kings(board, 8)
}

/// By how much a square counts more as the seat of an unmoved king when it
/// holds `new` than when it holds `old`.
pub open spec fn unmoved_king_gain(old: Piece, new: Piece) -> int {
    (if unmoved_king(new) { 1int } else { 0int }) - (if unmoved_king(old) { 1int } else { 0int })
}

proof fn lemma_rank_unmoved_kings_with_piece(
    board: Board,
    x: int,
    y: int,
    piece: Piece,
    y2: int,
    files: nat,
)
    requires
        in_bounds(x, y),
        0 <= y2 < 8,
        files <= 8,
    ensures
        rank_unmoved_kings(with_piece(board, x, y, piece), y2, files) == rank_unmoved_kings(
            board,
            y2,
            files,
        ) + (if y2 == y && x < files {
            unmoved_king_gain(piece_at(board, x, y), piece)
        } else {
            0
        }),
    decreases files,
{
    if files > 0 {
        lemma_rank_unmoved_kings_with_piece(board, x, y, piece, y2, (files - 1) as nat);
        lemma_with_piece(board, x, y, piece);
        assert(in_bounds(files - 1, y2));
    }
}

proof fn lemma_ranks_unmoved_kings_with_piece(board: Board, x: int, y: int, piece: Piece, ranks: nat)
    requires
        in_bounds(x, y),
        ranks <= 8,
    ensures
        ranks_unmoved_kings(with_piece(board, x, y, piece), ranks) == ranks_unmoved_kings(
            board,
            ranks,
        ) + (if y < ranks {
            unmoved_king_gain(piece_at(board, x, y), piece)
        } else {
            0
        }),
    decreases ranks,
{
    if ranks > 0 {
        lemma_ranks_unmoved_kings_with_piece(board, x, y, piece, (ranks - 1) as nat);
        lemma_rank_unmoved_kings_with_piece(board, x, y, piece, ranks - 1, 8);
    }
}

/// Putting a piece on a square changes the number of unmoved kings by what
/// that square gains.
pub proof fn lemma_unmoved_kings_with_piece(board: Board, x: int, y: int, piece: Piece)
    requires
        in_bounds(x, y),
    ensures
        unmoved_kings(with_piece(board, x, y, piece)) == unmoved_kings(board) + unmoved_king_gain(
            piece_at(board, x, y),
            piece,
        ),
{
    lemma_ranks_unmoved_kings_with_piece(board, x, y, piece, 8);
}

/// Moving an unmoved king onto an empty square leaves one unmoved king less.
pub proof fn lemma_unmoved_kings_relocated(board: Board, from: CoordinateSet, to: CoordinateSet)
    requires
        in_bounds(from.x as int, from.y as int),
        in_bounds(to.x as int, to.y as int),
        unmoved_king(piece_at(board, from.x as int, from.y as int)),
        piece_at(board, to.x as int, to.y as int).is_empty(),
    ensures
        unmoved_kings(relocated(board, from, to)) + 1 == unmoved_kings(board),
{
    let king = piece_at(board, from.x as int, from.y as int);
    let first = with_piece(board, to.x as int, to.y as int, king.moved());
    lemma_unmoved_kings_with_piece(board, to.x as int, to.y as int, king.moved());
    lemma_with_piece(board, to.x as int, to.y as int, king.moved());
    lemma_unmoved_kings_with_piece(first, from.x as int, from.y as int, empty_square());
    assert(piece_at(first, from.x as int, from.y as int) == king);
}

/// The file on which the rook of a castling move along `direction` stands:
/// three files from the king on the king's side, four on the queen's side.
pub open spec fn castle_rook_file(from: CoordinateSet, direction: Direction) -> int {
    if direction.x > 0 {
        from.x + 3
    } else {
        from.x - 4
    }
}

/// The square that the king passes through, and on which the rook lands.
pub open spec fn castle_transit(from: CoordinateSet, direction: Direction) -> CoordinateSet {
    if direction.x > 0 {
        CoordinateSet { x: (from.x + 1) as i32, y: from.y }
    } else {
        CoordinateSet { x: (from.x - 1) as i32, y: from.y }
    }
}

/// Whether every square strictly between the king on `from` and its rook is
/// empty.
pub open spec fn castle_path_clear(board: Board, from: CoordinateSet, direction: Direction) -> bool {
    if direction.x > 0 {
        &&& piece_at(board, from.x + 1, from.y as int).is_empty()
        &&& piece_at(board, from.x + 2, from.y as int).is_empty()
    } else {
        &&& piece_at(board, from.x - 1, from.y as int).is_empty()
        &&& piece_at(board, from.x - 2, from.y as int).is_empty()
        &&& piece_at(board, from.x - 3, from.y as int).is_empty()
    }
}

/// Whether the king on `from` and its rook are ready to castle along
/// `direction`: both are unmoved, the rook is of the king's colour, and the
/// squares between them are empty.
pub open spec fn castle_ready(board: Board, from: CoordinateSet, direction: Direction) -> bool {
    let king = piece_at(board, from.x as int, from.y as int);
    let rook_file = castle_rook_file(from, direction);
    &&& unmoved_king(king)
    &&& in_bounds(rook_file, from.y as int)
    &&& piece_at(board, rook_file, from.y as int) == (Piece {
        color: king.color,
        piece_type: PieceType::Rook { has_moved: false },
    })
    &&& castle_path_clear(board, from, direction)
}

/// Whether the king of `color` still stands on `transit` after each of
/// `replies`, that is: no reply captures it there.
pub open spec fn transit_safe(replies: Seq<Successor>, transit: CoordinateSet, color: PieceColor) -> bool {
    forall|i: int|
        0 <= i < replies.len() ==> piece_at(
            (#[trigger] replies[i]).board,
            transit.x as int,
            transit.y as int,
        ) == (Piece { color, piece_type: PieceType::King { has_moved: true } })
}

/// The successor of a castling move: the king on `to`, the rook on the square
/// that the king passed through, both marked as moved.
pub open spec fn castled(board: Board, from: CoordinateSet, to: CoordinateSet, direction: Direction) -> Successor {
    let transit = castle_transit(from, direction);
    let rook_file = castle_rook_file(from, direction);
    let rook = piece_at(board, rook_file, from.y as int);
    Successor {
        board: with_piece(
            with_piece(relocated(board, from, to), transit.x as int, transit.y as int, rook.moved()),
            rook_file,
            from.y as int,
            empty_square(),
        ),
        en_passante: None,
    }
}

/// The successors of the castling move along `direction` of the king on
/// `from`, which lands on `to`: one, where king and rook are ready and no
/// reply of the other side to the king's step onto the square between
/// captures the king there; else none.
pub open spec fn castling(board: Board, from: CoordinateSet, to: CoordinateSet, direction: Direction) -> Seq<
    Successor,
>
    decreases unmoved_kings(board), 0nat, 0nat,
{
    if in_bounds(from.x as int, from.y as int) && castle_ready(board, from, direction) {
        let transit = castle_transit(from, direction);
        let king = piece_at(board, from.x as int, from.y as int);
        proof {
            lemma_unmoved_kings_relocated(board, from, transit);
        }
        let replies = all_successors(relocated(board, from, transit), None, king.color.opponent());
        if transit_safe(replies, transit, king.color) {
            seq![castled(board, from, to, direction)]
        } else {
            Seq::empty()
        }
    } else {
        Seq::empty()
    }
}

/// The successors that the candidate `candidate` of the piece on `from`
/// leads to, in the order in which they are found. None where the candidate
/// leaves the board or may not land on what its destination holds; else what
/// the kind of the candidate gives.
pub open spec fn successors(
    board: Board,
    en_passante: Option<CoordinateSet>,
    from: CoordinateSet,
    candidate: ChessMove,
) -> Seq<Successor>
    decreases unmoved_kings(board), 1nat, 0nat,
{
    let mover = piece_at(board, from.x as int, from.y as int);
    match landing(from, candidate.1, 1) {
        None => Seq::empty(),
        Some(to) => {
            if !admissible(candidate.0, mover, piece_at(board, to.x as int, to.y as int)) {
                Seq::empty()
            } else {
                match candidate.0 {
                    MoveType::Standard | MoveType::CaptureOnly | MoveType::NoCapture => seq![
                        plain_move(board, from, to),
                    ],
                    MoveType::Repeat => slide(board, from, candidate.1, 1),
                    MoveType::PawnFirst => if pawn_first_allowed(board, from) {
                        seq![Successor { board: relocated(board, from, to), en_passante: Some(to) }]
                    } else {
                        Seq::empty()
                    },
                    MoveType::EnPassante => if en_passant_allowed(en_passante, mover, to) {
                        seq![en_passant_capture(board, from, to)]
                    } else {
                        Seq::empty()
                    },
                    MoveType::Promotion | MoveType::PromotionCapture => if from.y
                        == promotion_rank(mover.color) {
                        promotions(board, from, to, mover.color, 4)
                    } else {
                        Seq::empty()
                    },
                    MoveType::Castle => castling(board, from, to, candidate.1),
                }
            }
        },
    }
}

/// The successors that the first `count` candidates of the piece on `from`
/// lead to.
pub open spec fn piece_successors(
    board: Board,
    en_passante: Option<CoordinateSet>,
    from: CoordinateSet,
    count: nat,
) -> Seq<Successor>
    decreases unmoved_kings(board), 2nat, count,
{
    if count == 0 {
        Seq::empty()
    } else {
        piece_successors(board, en_passante, from, (count - 1) as nat) + successors(
            board,
            en_passante,
            from,
            piece_at(board, from.x as int, from.y as int).catalogue()[count - 1],
        )
    }
}

/// The successors that the pieces of `color` on the square of file `x` and
/// rank `y` lead to: all those of the piece that stands there, if it is of
/// that colour.
pub open spec fn square_successors(
    board: Board,
    en_passante: Option<CoordinateSet>,
    color: PieceColor,
    x: int,
    y: int,
) -> Seq<Successor>
    decreases unmoved_kings(board), 3nat, 0nat,
{
    let piece = piece_at(board, x, y);
    if piece.color == color && !piece.is_empty() {
        piece_successors(
            board,
            en_passante,
            CoordinateSet { x: x as i32, y: y as i32 },
            piece.catalogue().len(),
        )
    } else {
        Seq::empty()
    }
}

/// The successors that the pieces of `color` on the first `files` squares of
/// rank `y` lead to.
pub open spec fn rank_successors(
    board: Board,
    en_passante: Option<CoordinateSet>,
    color: PieceColor,
    y: int,
    files: nat,
) -> Seq<Successor>
    decreases unmoved_kings(board), 4nat, files,
{
    if files == 0 {
        Seq::empty()
    } else {
        rank_successors(board, en_passante, color, y, (files - 1) as nat) + square_successors(
            board,
            en_passante,
            color,
            files - 1,
            y,
        )
    }
}

/// The successors that the pieces of `color` on the first `ranks` ranks lead
/// to.
pub open spec fn ranks_successors(
    board: Board,
    en_passante: Option<CoordinateSet>,
    color: PieceColor,
    ranks: nat,
) -> Seq<Successor>
    decreases unmoved_kings(board), 5nat, ranks,
{
    if ranks == 0 {
        Seq::empty()
    } else {
        ranks_successors(board, en_passante, color, (ranks - 1) as nat) + rank_successors(
            board,
            en_passante,
            color,
            ranks - 1,
            8,
        )
    }
}

/// Every successor of a position for the side `color`: rank by rank from rank
/// 0, file by file from file 0, candidate by candidate in the order of the
/// catalogue.
pub open spec fn all_successors(
    board: Board,
    en_passante: Option<CoordinateSet>,
    color: PieceColor,
) -> Seq<Successor>
    decreases unmoved_kings(board), 6nat, 0nat,
{
    ranks_successors(board, en_passante, color, 8)
}

/// Whether the candidate `candidate` can be tried for the piece on `from`:
/// a slide needs a direction or a slider, and only a king castles, by two
/// files to either side.
pub open spec fn playable(board: Board, from: CoordinateSet, candidate: ChessMove) -> bool {
    let mover = piece_at(board, from.x as int, from.y as int);
    &&& candidate.0 == MoveType::Repeat ==> (candidate.1.x != 0 || candidate.1.y != 0
        || !mover.is_empty())
    &&& candidate.0 == MoveType::Castle ==> (mover.piece_type is King && (candidate.1.x == 2
        || candidate.1.x == -2))
}

/// Every candidate of the catalogue of a piece can be tried for it.
pub proof fn lemma_catalogue_playable(board: Board, from: CoordinateSet, index: int)
    requires
        0 <= index < piece_at(board, from.x as int, from.y as int).catalogue().len(),
    ensures
        playable(board, from, piece_at(board, from.x as int, from.y as int).catalogue()[index]),
{
}

impl BoardPosition {
    /// Whether the position is a newly found successor that stands for
    /// `successor`: it has its board and its pawn to capture in passing, the
    /// material of White on that board, and neither successors nor a value of
    /// its own yet.
    pub open spec fn is_successor(self, successor: Successor) -> bool {
        &&& self.board == successor.board
        &&& self.en_passante == successor.en_passante
        &&& self.children@.len() == 0
        &&& self.evaluated()
        &&& self.tree_eval == 0
    }

    /// Whether the position is `before` with one new successor for each of
    /// `found`, in that order, behind the successors that `before` has.
    pub open spec fn extends(self, before: BoardPosition, found: Seq<Successor>) -> bool {
        &&& self.board == before.board
        &&& self.en_passante == before.en_passante
        &&& self.base_white_eval == before.base_white_eval
        &&& self.tree_eval == before.tree_eval
        &&& self.children@.len() == before.children@.len() + found.len()
        &&& forall|i: int|
            0 <= i < before.children@.len() ==> #[trigger] self.children@[i] == before.children@[i]
        &&& forall|j: int|
            0 <= j < found.len() ==> self.children@[before.children@.len() + j].is_successor(
                #[trigger] found[j],
            )
    }

    /// What extends an extension extends the first position by both finds.
    pub proof fn lemma_extends_further(
        self,
        before: BoardPosition,
        between: BoardPosition,
        first: Seq<Successor>,
        second: Seq<Successor>,
    )
        requires
            between.extends(before, first),
            self.extends(between, second),
        ensures
            self.extends(before, first + second),
    {
        let n = before.children@.len() as int;
        assert forall|j: int| 0 <= j < (first + second).len() implies self.children@[n
            + j].is_successor(#[trigger] (first + second)[j]) by {
            if j < first.len() {
                assert(between.children@[n + j].is_successor(first[j]));
                assert(self.children@[n + j] == between.children@[n + j]);
            } else {
                let k = j - first.len();
                assert(self.children@[between.children@.len() + k].is_successor(second[k]));
            }
        }
    }

    /// An extension of a well-formed position is well-formed.
    pub proof fn lemma_extends_well_formed(self, before: BoardPosition, found: Seq<Successor>)
        requires
            self.extends(before, found),
            before.well_formed(),
        ensures
            self.well_formed(),
    {
        let n = before.children@.len() as int;
        assert forall|i: int| 0 <= i < self.children@.len() implies {
            &&& (#[trigger] self.children@[i]).evaluated()
            &&& self.children@[i].well_formed()
        } by {
            if i < n {
                assert(self.children@[i] == before.children@[i]);
            } else {
                let j = i - n;
                assert(self.children@[n + j].is_successor(found[j]));
                lemma_material_bound(self.children@[i].board, PieceColor::White);
            }
        }
    }

    /// Puts the new position `child` behind the successors found so far.
    fn attach(&mut self, child: BoardPosition)
        requires
            child.children@.len() == 0,
            child.tree_eval == 0,
        ensures
            final(self).extends(
                *old(self),
                seq![Successor { board: child.board, en_passante: child.en_passante }],
            ),
            old(self).well_formed() ==> final(self).well_formed(),
    {
        self.append_child(child);
        proof {
            if old(self).well_formed() {
                self.lemma_extends_well_formed(
                    *old(self),
                    seq![Successor { board: child.board, en_passante: child.en_passante }],
                );
            }
        }
    }

    /// The position in which the piece on `start` has gone to `end`, marked
    /// as moved.
    pub fn move_arbitrary(&self, start: &CoordinateSet, end: &CoordinateSet) -> (position:
        BoardPosition)
        requires
            !start.out_of_bounds(),
            !end.out_of_bounds(),
        ensures
            position.is_new(relocated(self.board, *start, *end)),
            position.well_formed(),
    {
        let mut new_board = BoardPosition::new(self.board);
        let mut new_piece: Piece = *self.get_piece(start);
        new_piece.set_moved();
        new_board.set_piece(end, new_piece);
        new_board.clear_square(start);
        new_board
    }
}

proof fn lemma_scaled_far(count: int, step: int)
    by (nonlinear_arith)
    requires
        count >= 1,
    ensures
        step > 7 ==> count * step > 7,
        step < -7 ==> count * step < -7,
        step >= 1 ==> count * step >= count,
        step <= -1 ==> count * step <= -count,
        step == 0 ==> count * step == 0,
        -7 <= step <= 7 && count <= 7 ==> -49 <= count * step <= 49,
{
}

/// The square `count` steps of `direction` away from `from`, if it is on the
/// board.
pub fn reach(from: &CoordinateSet, direction: &Direction, count: i32) -> (square: Option<
    CoordinateSet,
>)
    requires
        !from.out_of_bounds(),
        1 <= count,
    ensures
        square == landing(*from, *direction, count as int),
{
    proof {
        lemma_scaled_far(count as int, direction.x as int);
        lemma_scaled_far(count as int, direction.y as int);
    }
    if direction.x == 0 && direction.y == 0 {
        return Some(*from);
    }
    if direction.x < -7 || direction.x > 7 || direction.y < -7 || direction.y > 7 || count > 7 {
        return None;
    }
    let x: i32 = from.x + count * direction.x;
    let y: i32 = from.y + count * direction.y;
    let square = CoordinateSet { x, y };
    if square.out_of_bounds() {
        None
    } else {
        Some(square)
    }
}

impl BoardPosition {
    /// Finds the successors of a slide of the piece on `start` along
    /// `direction`, from its step of number `repeat` on, and puts them behind
    /// the successors found so far.
    pub fn move_repeat(&mut self, start: &CoordinateSet, direction: &Direction, repeat: i32)
        requires
            !start.out_of_bounds(),
            1 <= repeat,
            direction.x != 0 || direction.y != 0 || !piece_at(
                old(self).board,
                start.x as int,
                start.y as int,
            ).is_empty(),
        ensures
            final(self).extends(
                *old(self),
                slide(old(self).board, *start, *direction, repeat as nat),
            ),
            old(self).well_formed() ==> final(self).well_formed(),
        decreases 8 - repeat,
    {
        let piece: Piece = *self.get_piece(start);
        let destination: CoordinateSet = match reach(start, direction, repeat) {
            None => {
                return ;
            },
            Some(square) => square,
        };
        let target: Piece = *self.get_piece(&destination);
        if !target.is_empty() && target.color == piece.color {
            return ;
        }
        proof {
            lemma_scaled_far(repeat as int, direction.x as int);
            lemma_scaled_far(repeat as int, direction.y as int);
            assert(repeat < 8);
        }
        let to_add = self.move_arbitrary(start, &destination);
        self.attach(to_add);
        let ghost between = *self;
        if self.get_piece(&destination).piece_type != PieceType::Empty {
            return ;
        }
        self.move_repeat(start, direction, repeat + 1);
        proof {
            self.lemma_extends_further(
                *old(self),
                between,
                seq![plain_move(old(self).board, *start, destination)],
                slide(old(self).board, *start, *direction, (repeat + 1) as nat),
            );
        }
    }
}

impl BoardPosition {
    /// Whether `piece` stands on `square` in every successor found so far.
    fn holds_in_all_children(&self, square: &CoordinateSet, piece: Piece) -> (all: bool)
        requires
            !square.out_of_bounds(),
        ensures
            all == (forall|i: int|
                0 <= i < self.children@.len() ==> piece_at(
                    (#[trigger] self.children@[i]).board,
                    square.x as int,
                    square.y as int,
                ) == piece),
    {
        let mut i: usize = 0;
        while i < self.children.len()
            invariant
                !square.out_of_bounds(),
                i <= self.children@.len(),
                forall|k: int|
                    0 <= k < i ==> piece_at(
                        (#[trigger] self.children@[k]).board,
                        square.x as int,
                        square.y as int,
                    ) == piece,
            decreases self.children@.len() - i,
        {
            if *self.children[i].get_piece(square) != piece {
                return false;
            }
            i += 1;
        }
        true
    }

    /// Finds the successor of the castling move along `direction` of the king
    /// on `coords`, which lands on `destination`, if the move is legal.
    fn castle(&mut self, coords: &CoordinateSet, destination: &CoordinateSet, direction: &Direction)
        requires
            !coords.out_of_bounds(),
            !destination.out_of_bounds(),
            piece_at(old(self).board, coords.x as int, coords.y as int).piece_type is King,
            direction.x == 2 || direction.x == -2,
        ensures
            final(self).extends(
                *old(self),
                castling(old(self).board, *coords, *destination, *direction),
            ),
            old(self).well_formed() ==> final(self).well_formed(),
        decreases unmoved_kings(old(self).board), 0nat,
    {
        let piece: Piece = *self.get_piece(coords);
        let unmoved: bool = match piece.piece_type {
            PieceType::King { has_moved } => !has_moved,
            _ => false,
        };
        if !unmoved {
            return ;
        }
        let kingside: bool = direction.x > 0;
        let rook_pos = CoordinateSet {
            x: if kingside {
                coords.x + 3
            } else {
                coords.x - 4
            },
            y: coords.y,
        };
        if rook_pos.out_of_bounds() {
            return ;
        }
        let rook: Piece = *self.get_piece(&rook_pos);
        if rook.color != piece.color || rook.piece_type != (PieceType::Rook { has_moved: false }) {
            return ;
        }
        let mid_point = CoordinateSet {
            x: if kingside {
                coords.x + 1
            } else {
                coords.x - 1
            },
            y: coords.y,
        };
        let beyond = CoordinateSet {
            x: if kingside {
                coords.x + 2
            } else {
                coords.x - 2
            },
            y: coords.y,
        };
        if !self.get_piece(&mid_point).is_empty() || !self.get_piece(&beyond).is_empty() {
            return ;
        }
        if !kingside {
            let knight_file = CoordinateSet { x: coords.x - 3, y: coords.y };
            if !self.get_piece(&knight_file).is_empty() {
                return ;
            }
        }
        // The king may not pass through a square on which it could be taken:
        // let it step onto that square, and look at every reply.
        let mut test_board = self.move_arbitrary(coords, &mid_point);
        let ghost stepped = test_board;
        let ghost replies = all_successors(stepped.board, None, piece.color.opponent());
        proof {
            lemma_unmoved_kings_relocated(self.board, *coords, mid_point);
        }
        test_board.eval_moves(piece.color.not());
        let king_there = Piece {
            color: piece.color,
            piece_type: PieceType::King { has_moved: true },
        };
        let safe: bool = test_board.holds_in_all_children(&mid_point, king_there);
        proof {
            if safe {
                assert forall|i: int| 0 <= i < replies.len() implies piece_at(
                    (#[trigger] replies[i]).board,
                    mid_point.x as int,
                    mid_point.y as int,
                ) == king_there by {
                    assert(test_board.children@[stepped.children@.len() + i].is_successor(
                        replies[i],
                    ));
                    assert(test_board.children@[i].board == replies[i].board);
                }
            } else {
                let i = choose|i: int|
                    0 <= i < test_board.children@.len() && piece_at(
                        (#[trigger] test_board.children@[i]).board,
                        mid_point.x as int,
                        mid_point.y as int,
                    ) != king_there;
                assert(test_board.children@[stepped.children@.len() + i].is_successor(replies[i]));
            }
            assert(safe == transit_safe(replies, mid_point, piece.color));
        }
        if !safe {
            return ;
        }
        let mut final_board = self.move_arbitrary(coords, destination);
        let mut moved_rook: Piece = rook;
        moved_rook.set_moved();
        final_board.set_piece(&mid_point, moved_rook);
        final_board.clear_square(&rook_pos);
        self.attach(final_board);
    }

    /// Finds the four successors in which the pawn of `color` on `coords` has
    /// gone to `destination` and stands there as another piece.
    fn promote(&mut self, coords: &CoordinateSet, destination: &CoordinateSet, color: PieceColor)
        requires
            !coords.out_of_bounds(),
            !destination.out_of_bounds(),
        ensures
            final(self).extends(
                *old(self),
                promotions(old(self).board, *coords, *destination, color, 4),
            ),
            old(self).well_formed() ==> final(self).well_formed(),
    {
        let kinds: [PieceType; 4] = PieceType::to_promote();
        let mut i: usize = 0;
        while i < 4
            invariant
                i <= 4,
                !coords.out_of_bounds(),
                !destination.out_of_bounds(),
                kinds@ == PieceType::promotions(),
                old(self).well_formed() ==> self.well_formed(),
                self.extends(
                    *old(self),
                    promotions(old(self).board, *coords, *destination, color, i as nat),
                ),
            decreases 4 - i,
        {
            let ghost between = *self;
            let mut new_board = BoardPosition::new(self.board);
            new_board.clear_square(coords);
            new_board.set_piece(destination, Piece { piece_type: kinds[i], color });
            self.attach(new_board);
            proof {
                self.lemma_extends_further(
                    *old(self),
                    between,
                    promotions(old(self).board, *coords, *destination, color, i as nat),
                    seq![
                        promoted(
                            old(self).board,
                            *coords,
                            *destination,
                            color,
                            PieceType::promotions()[i as int],
                        ),
                    ],
                );
                assert(promotions(old(self).board, *coords, *destination, color, i as nat) + seq![
                    promoted(
                        old(self).board,
                        *coords,
                        *destination,
                        color,
                        PieceType::promotions()[i as int],
                    ),
                ] =~= promotions(old(self).board, *coords, *destination, color, (i + 1) as nat));
            }
            i += 1;
        }
    }

    /// Finds the successors that the candidate `move_to_eval` of the piece on
    /// `coords` leads to, and puts them behind the successors found so far.
    pub fn eval_move(&mut self, coords: &CoordinateSet, move_to_eval: &ChessMove)
        requires
            !coords.out_of_bounds(),
            playable(old(self).board, *coords, *move_to_eval),
        ensures
            final(self).extends(
                *old(self),
                successors(old(self).board, old(self).en_passante, *coords, *move_to_eval),
            ),
            old(self).well_formed() ==> final(self).well_formed(),
        decreases unmoved_kings(old(self).board), 1nat,
    {
        let piece: Piece = *self.get_piece(coords);
        let destination: CoordinateSet = match reach(coords, &move_to_eval.1, 1) {
            None => {
                return ;
            },
            Some(square) => square,
        };
        let target: Piece = *self.get_piece(&destination);
        if target.is_empty() {
            match move_to_eval.0 {
                MoveType::CaptureOnly | MoveType::PromotionCapture => {
                    return ;
                },
                _ => {},
            }
        } else {
            match move_to_eval.0 {
                MoveType::EnPassante
                | MoveType::NoCapture
                | MoveType::PawnFirst
                | MoveType::Promotion => {
                    return ;
                },
                _ => {},
            }
            if target.color == piece.color {
                return ;
            }
        }
        // From here on the destination is on the board and may be landed on.
        match move_to_eval.0 {
            MoveType::EnPassante => {
                match self.en_passante {
                    None => {},
                    Some(enp_coords) => {
                        let target_pawn = CoordinateSet {
                            x: destination.x,
                            y: destination.y - piece.forward(),
                        };
                        if enp_coords != target_pawn || target_pawn.out_of_bounds() {
                            return ;
                        }
                        let mut board = self.move_arbitrary(coords, &destination);
                        board.clear_square(&target_pawn);
                        self.attach(board);
                    },
                }
            },
            MoveType::PawnFirst => {
                let row: i32 = if piece.color == BOTTOM_SIDE {
                    6
                } else {
                    1
                };
                if coords.y != row {
                    return ;
                }
                let ahead = CoordinateSet { x: coords.x, y: coords.y + piece.forward() };
                if !self.get_piece(&ahead).is_empty() {
                    return ;
                }
                let mut board = self.move_arbitrary(coords, &destination);
                board.en_passante = Some(destination);
                self.attach(board);
            },
            MoveType::Standard | MoveType::CaptureOnly | MoveType::NoCapture => {
                let board = self.move_arbitrary(coords, &destination);
                self.attach(board);
            },
            MoveType::Repeat => {
                self.move_repeat(coords, &move_to_eval.1, 1);
            },
            MoveType::Castle => {
                self.castle(coords, &destination, &move_to_eval.1);
            },
            MoveType::Promotion | MoveType::PromotionCapture => {
                let row: i32 = if piece.color == BOTTOM_SIDE {
                    1
                } else {
                    6
                };
                if coords.y != row {
                    return ;
                }
                self.promote(coords, &destination, piece.color);
            },
        }
    }

    /// Finds every successor of the position for the side `player_color`,
    /// and puts them behind the successors found so far.
    pub fn eval_moves(&mut self, player_color: PieceColor)
        ensures
            final(self).extends(
                *old(self),
                all_successors(old(self).board, old(self).en_passante, player_color),
            ),
            old(self).well_formed() ==> final(self).well_formed(),
        decreases unmoved_kings(old(self).board), 2nat,
    {
        let ghost before = *self;
        let mut i: usize = 0;
        while i < 8
            invariant
                i <= 8,
                before == *old(self),
                before.well_formed() ==> self.well_formed(),
                self.extends(
                    before,
                    ranks_successors(before.board, before.en_passante, player_color, i as nat),
                ),
            decreases 8 - i,
        {
            let mut j: usize = 0;
            while j < 8
                invariant
                    i < 8,
                    j <= 8,
                    before == *old(self),
                    before.well_formed() ==> self.well_formed(),
                    self.extends(
                        before,
                        ranks_successors(before.board, before.en_passante, player_color, i as nat)
                            + rank_successors(
                            before.board,
                            before.en_passante,
                            player_color,
                            i as int,
                            j as nat,
                        ),
                    ),
                decreases 8 - j,
            {
                let target = CoordinateSet { x: j as i32, y: i as i32 };
                let piece: Piece = *self.get_piece(&target);
                let ghost done = ranks_successors(
                    before.board,
                    before.en_passante,
                    player_color,
                    i as nat,
                ) + rank_successors(
                    before.board,
                    before.en_passante,
                    player_color,
                    i as int,
                    j as nat,
                );
                if piece.color == player_color && piece.piece_type != PieceType::Empty {
                    let moves: Vec<ChessMove> = piece.get_moves();
                    let mut k: usize = 0;
                    while k < moves.len()
                        invariant
                            k <= moves@.len(),
                            moves@ == piece.catalogue(),
                            !target.out_of_bounds(),
                            before == *old(self),
                            before.well_formed() ==> self.well_formed(),
                            piece == piece_at(before.board, target.x as int, target.y as int),
                            self.extends(
                                before,
                                done + piece_successors(
                                    before.board,
                                    before.en_passante,
                                    target,
                                    k as nat,
                                ),
                            ),
                        decreases moves@.len() - k,
                    {
                        let ghost between = *self;
                        proof {
                            lemma_catalogue_playable(before.board, target, k as int);
                        }
                        self.eval_move(&target, &moves[k]);
                        proof {
                            let found = successors(
                                before.board,
                                before.en_passante,
                                target,
                                moves@[k as int],
                            );
                            let earlier = piece_successors(
                                before.board,
                                before.en_passante,
                                target,
                                k as nat,
                            );
                            self.lemma_extends_further(before, between, done + earlier, found);
                            assert((done + earlier) + found =~= done + piece_successors(
                                before.board,
                                before.en_passante,
                                target,
                                (k + 1) as nat,
                            ));
                        }
                        k += 1;
                    }
                }
                proof {
                    let here = square_successors(
                        before.board,
                        before.en_passante,
                        player_color,
                        j as int,
                        i as int,
                    );
                    assert(done + here =~= ranks_successors(
                        before.board,
                        before.en_passante,
                        player_color,
                        i as nat,
                    ) + rank_successors(
                        before.board,
                        before.en_passante,
                        player_color,
                        i as int,
                        (j + 1) as nat,
                    ));
                    if !(piece.color == player_color && piece.piece_type != PieceType::Empty) {
                        assert(done + here =~= done);
                    }
                }
                j += 1;
            }
            i += 1;
        }
    }
}

/// What the successor of index `index` of a slide from its step of number
/// `start` on is: the square `start + index` steps away is on the board and
/// is empty or holds a piece of the other side; the successor is the move
/// onto that square; and the square is empty if the slide goes on.
pub proof fn lemma_slide_step(
    board: Board,
    from: CoordinateSet,
    direction: Direction,
    start: nat,
    index: int,
)
    requires
        0 <= index < slide(board, from, direction, start).len(),
    ensures
        start + index < 8,
        landing(from, direction, start + index) is Some,
        ({
            let to = landing(from, direction, start + index).unwrap();
            let mover = piece_at(board, from.x as int, from.y as int);
            let target = piece_at(board, to.x as int, to.y as int);
            &&& slide(board, from, direction, start)[index] == plain_move(board, from, to)
            &&& target.is_empty() || target.color != mover.color
            &&& index + 1 < slide(board, from, direction, start).len() ==> target.is_empty()
        }),
    decreases index,
{
    if index > 0 {
        lemma_slide_step(board, from, direction, start + 1, index - 1);
    }
}

} // verus!
