//! What holds of every move that the rules of movement give.

use crate::board::{empty_square, lemma_with_piece, piece_at, with_piece, Board};
use crate::movegen::{
    all_successors, castle_path_clear, castle_ready, castle_rook_file, castle_transit, castled,
    castling, en_passant_capture, landing, lemma_slide_step, plain_move, promoted, promotion_rank,
    promotions, relocated, slide, successors, transit_safe, unmoved_king, Successor,
};
use crate::piece::{
    candidate, in_bounds, ChessMove, CoordinateSet, Direction, MoveType, Piece, PieceColor,
    PieceType,
};
use vstd::prelude::*;

verus! {

/// Whether every square that lies from `start` to less than `end` steps of
/// `direction` away from `from` is on the board and empty.
pub open spec fn open_between(
    board: Board,
    from: CoordinateSet,
    direction: Direction,
    start: int,
    end: int,
) -> bool {
    forall|k: int|
        start <= k < end ==> ((#[trigger] landing(from, direction, k)) matches Some(to)
            && piece_at(board, to.x as int, to.y as int).is_empty())
}

/// Whether a slide ends with a capture at its step of number `stop`: the
/// square `stop` steps away is on the board and holds a piece of the other
/// side.
pub open spec fn captures_at(board: Board, from: CoordinateSet, direction: Direction, stop: int) -> bool {
    &&& stop < 8
    &&& landing(from, direction, stop) matches Some(to)
    &&& !piece_at(board, to.x as int, to.y as int).is_empty()
    &&& piece_at(board, to.x as int, to.y as int).color != piece_at(
        board,
        from.x as int,
        from.y as int,
    ).color
}

/// A slide stops at the first square that is not empty. Let the squares from
/// `start` to less than `stop` steps away be empty, and let the square `stop`
/// steps away be off the board or hold a piece. Then the slide from `start`
/// on has one successor for each of the empty squares, in their order; one
/// more, the capture, if a piece of the other side stands on the square
/// `stop` steps away; and none beyond.
pub proof fn lemma_slide_stops(
    board: Board,
    from: CoordinateSet,
    direction: Direction,
    start: nat,
    stop: nat,
)
    requires
        1 <= start <= stop <= 8,
        open_between(board, from, direction, start as int, stop as int),
        stop == 8 || landing(from, direction, stop as int) is None || !piece_at(
            board,
            landing(from, direction, stop as int).unwrap().x as int,
            landing(from, direction, stop as int).unwrap().y as int,
        ).is_empty(),
    ensures
        slide(board, from, direction, start).len() == stop - start + (if captures_at(
            board,
            from,
            direction,
            stop as int,
        ) {
            1int
        } else {
            0int
        }),
        forall|i: int|
            0 <= i < slide(board, from, direction, start).len() ==> #[trigger] slide(
                board,
                from,
                direction,
                start,
            )[i] == plain_move(board, from, landing(from, direction, start + i).unwrap()),
    decreases stop - start,
{
    if start < stop {
        assert(landing(from, direction, start as int) is Some);
        lemma_slide_stops(board, from, direction, start + 1, stop);
        let here = landing(from, direction, start as int).unwrap();
        let further = slide(board, from, direction, start + 1);
        assert(slide(board, from, direction, start) == seq![plain_move(board, from, here)]
            + further);
        assert forall|i: int| 0 <= i < slide(board, from, direction, start).len() implies #[trigger] slide(
            board,
            from,
            direction,
            start,
        )[i] == plain_move(board, from, landing(from, direction, start + i).unwrap()) by {
            if i > 0 {
                assert(further[i - 1] == plain_move(
                    board,
                    from,
                    landing(from, direction, start + 1 + (i - 1)).unwrap(),
                ));
            }
        }
    }
}

/// Only the advance of a pawn by two squares leaves a pawn to capture in
/// passing, on the square that it lands on; after every other move there is
/// none.
pub proof fn lemma_en_passant_target(
    board: Board,
    en_passante: Option<CoordinateSet>,
    from: CoordinateSet,
    candidate: ChessMove,
    index: int,
)
    requires
        0 <= index < successors(board, en_passante, from, candidate).len(),
    ensures
        successors(board, en_passante, from, candidate)[index].en_passante == (if candidate.0
            == MoveType::PawnFirst {
            landing(from, candidate.1, 1)
        } else {
            None
        }),
{
    match candidate.0 {
        MoveType::Repeat => {
            lemma_slide_step(board, from, candidate.1, 1, index);
        },
        MoveType::Promotion | MoveType::PromotionCapture => {
            reveal_with_fuel(promotions, 5);
        },
        _ => {},
    }
}

/// A promotion gives four successors or none; the four differ in nothing
/// but the kind of the piece that stands on the destination: knight, bishop,
/// moved rook, queen.
pub proof fn lemma_promotion(
    board: Board,
    en_passante: Option<CoordinateSet>,
    from: CoordinateSet,
    candidate: ChessMove,
)
    requires
        candidate.0 == MoveType::Promotion || candidate.0 == MoveType::PromotionCapture,
    ensures
        successors(board, en_passante, from, candidate).len() == 0 || successors(
            board,
            en_passante,
            from,
            candidate,
        ).len() == 4,
        successors(board, en_passante, from, candidate).len() == 4 ==> {
            &&& from.y == promotion_rank(piece_at(board, from.x as int, from.y as int).color)
            &&& landing(from, candidate.1, 1) is Some
            &&& forall|i: int|
                0 <= i < 4 ==> #[trigger] successors(board, en_passante, from, candidate)[i]
                    == promoted(
                    board,
                    from,
                    landing(from, candidate.1, 1).unwrap(),
                    piece_at(board, from.x as int, from.y as int).color,
                    PieceType::promotions()[i],
                )
        },
{
    reveal_with_fuel(promotions, 5);
}

/// The successor of a promotion holds the new piece on the destination, and
/// on every other square but the origin what the board held.
pub proof fn lemma_promoted(
    board: Board,
    from: CoordinateSet,
    to: CoordinateSet,
    color: PieceColor,
    kind: PieceType,
    x: int,
    y: int,
)
    requires
        in_bounds(from.x as int, from.y as int),
        in_bounds(to.x as int, to.y as int),
        in_bounds(x, y),
    ensures
        piece_at(promoted(board, from, to, color, kind).board, x, y) == (if x == to.x && y == to.y {
            Piece { color, piece_type: kind }
        } else if x == from.x && y == from.y {
            empty_square()
        } else {
            piece_at(board, x, y)
        }),
        promoted(board, from, to, color, kind).en_passante == None::<CoordinateSet>,
{
    let cleared = with_piece(board, from.x as int, from.y as int, empty_square());
    lemma_with_piece(board, from.x as int, from.y as int, empty_square());
    lemma_with_piece(cleared, to.x as int, to.y as int, Piece { color, piece_type: kind });
}

/// A castling move gives one successor where the king and the rook that it
/// names have not moved, the rook is of the king's colour, the squares
/// between them are empty and no reply to the king's step onto the square
/// next to it takes the king there; it gives none where one of these fails.
pub proof fn lemma_castling(board: Board, from: CoordinateSet, to: CoordinateSet, direction: Direction)
    ensures
        castling(board, from, to, direction).len() <= 1,
        castling(board, from, to, direction).len() == 1 <==> {
            let king = piece_at(board, from.x as int, from.y as int);
            let rook_file = castle_rook_file(from, direction);
            let transit = castle_transit(from, direction);
            &&& in_bounds(from.x as int, from.y as int)
            &&& unmoved_king(king)
            &&& in_bounds(rook_file, from.y as int)
            &&& piece_at(board, rook_file, from.y as int) == (Piece {
                color: king.color,
                piece_type: PieceType::Rook { has_moved: false },
            })
            &&& castle_path_clear(board, from, direction)
            &&& transit_safe(
                all_successors(relocated(board, from, transit), None, king.color.opponent()),
                transit,
                king.color,
            )
        },
        castling(board, from, to, direction).len() == 1 ==> castling(board, from, to, direction)[0]
            == castled(board, from, to, direction),
{
}

/// After the advance of a pawn by two squares, the square that is named for
/// a capture in passing holds that pawn.
pub proof fn lemma_en_passant_target_holds_pawn(
    board: Board,
    en_passante: Option<CoordinateSet>,
    from: CoordinateSet,
    direction: Direction,
)
    requires
        in_bounds(from.x as int, from.y as int),
        piece_at(board, from.x as int, from.y as int).piece_type == PieceType::Pawn,
        successors(board, en_passante, from, ChessMove(MoveType::PawnFirst, direction)).len() > 0,
        direction.x != 0 || direction.y != 0,
    ensures
        ({
            let after = successors(
                board,
                en_passante,
                from,
                ChessMove(MoveType::PawnFirst, direction),
            )[0];
            &&& after.en_passante matches Some(target)
            &&& in_bounds(target.x as int, target.y as int)
            &&& piece_at(after.board, target.x as int, target.y as int) == piece_at(
                board,
                from.x as int,
                from.y as int,
            )
        }),
{
    let to = landing(from, direction, 1).unwrap();
    lemma_relocated(board, from, to, to.x as int, to.y as int);
}

/// A pawn that has advanced by two squares can be captured in passing by a
/// pawn of the other side that stands next to it: that pawn's capture in
/// passing towards it is legal, lands on the square that the first pawn has
/// passed over, and takes the first pawn off the board.
pub proof fn lemma_double_step_can_be_captured(
    board: Board,
    en_passante: Option<CoordinateSet>,
    from: CoordinateSet,
    side: int,
)
    requires
        in_bounds(from.x as int, from.y as int),
        piece_at(board, from.x as int, from.y as int).piece_type == PieceType::Pawn,
        side == 1 || side == -1,
        successors(
            board,
            en_passante,
            from,
            candidate(
                MoveType::PawnFirst,
                0,
                2 * piece_at(board, from.x as int, from.y as int).forward(),
            ),
        ).len() > 0,
        in_bounds(
            from.x + side,
            from.y + 2 * piece_at(board, from.x as int, from.y as int).forward(),
        ),
        piece_at(
            board,
            from.x + side,
            from.y + 2 * piece_at(board, from.x as int, from.y as int).forward(),
        ) == (Piece {
            color: piece_at(board, from.x as int, from.y as int).color.opponent(),
            piece_type: PieceType::Pawn,
        }),
    ensures
        ({
            let pawn = piece_at(board, from.x as int, from.y as int);
            let forward = pawn.forward() as int;
            let after = successors(
                board,
                en_passante,
                from,
                candidate(MoveType::PawnFirst, 0, 2 * forward),
            )[0];
            let capturer = CoordinateSet { x: (from.x + side) as i32, y: (from.y + 2 * forward) as i32 };
            let passed = CoordinateSet { x: from.x, y: (from.y + forward) as i32 };
            let found = successors(
                after.board,
                after.en_passante,
                capturer,
                candidate(MoveType::EnPassante, -side, -forward),
            );
            &&& found == seq![en_passant_capture(after.board, capturer, passed)]
            &&& piece_at(found[0].board, from.x as int, from.y + 2 * forward) == empty_square()
            &&& piece_at(found[0].board, passed.x as int, passed.y as int) == (Piece {
                color: pawn.color.opponent(),
                piece_type: PieceType::Pawn,
            })
            &&& piece_at(found[0].board, capturer.x as int, capturer.y as int) == empty_square()
        }),
{
    let pawn = piece_at(board, from.x as int, from.y as int);
    let forward = pawn.forward() as int;
    let double = candidate(MoveType::PawnFirst, 0, 2 * forward);
    let to = CoordinateSet { x: from.x, y: (from.y + 2 * forward) as i32 };
    assert(landing(from, double.1, 1) == Some(to));
    let after = successors(board, en_passante, from, double)[0];
    assert(after == Successor { board: relocated(board, from, to), en_passante: Some(to) });
    let capturer = CoordinateSet { x: (from.x + side) as i32, y: (from.y + 2 * forward) as i32 };
    let passed = CoordinateSet { x: from.x, y: (from.y + forward) as i32 };
    let first = with_piece(board, to.x as int, to.y as int, pawn.moved());
    lemma_with_piece(board, to.x as int, to.y as int, pawn.moved());
    lemma_with_piece(first, from.x as int, from.y as int, empty_square());
    let capture = candidate(MoveType::EnPassante, -side, -forward);
    let enemy = piece_at(after.board, capturer.x as int, capturer.y as int);
    assert(enemy == Piece { color: pawn.color.opponent(), piece_type: PieceType::Pawn });
    assert(enemy.forward() == -forward);
    assert(landing(capturer, capture.1, 1) == Some(passed));
    assert(piece_at(after.board, passed.x as int, passed.y as int).is_empty());
    let found = successors(after.board, after.en_passante, capturer, capture);
    assert(found == seq![en_passant_capture(after.board, capturer, passed)]);
    let moved = with_piece(after.board, passed.x as int, passed.y as int, enemy.moved());
    lemma_with_piece(after.board, passed.x as int, passed.y as int, enemy.moved());
    let left = with_piece(moved, capturer.x as int, capturer.y as int, empty_square());
    lemma_with_piece(moved, capturer.x as int, capturer.y as int, empty_square());
    lemma_with_piece(left, passed.x as int, passed.y - enemy.forward(), empty_square());
}

/// Every successor comes from a move onto a square of the board: the square
/// one step of the candidate away, or, for the successor of index `index`
/// of a slide, the square that many steps further.
pub proof fn lemma_destination_on_board(
    board: Board,
    en_passante: Option<CoordinateSet>,
    from: CoordinateSet,
    candidate: ChessMove,
    index: int,
)
    requires
        0 <= index < successors(board, en_passante, from, candidate).len(),
    ensures
        landing(
            from,
            candidate.1,
            if candidate.0 == MoveType::Repeat {
                index + 1
            } else {
                1
            },
        ) is Some,
{
    if candidate.0 == MoveType::Repeat {
        lemma_slide_step(board, from, candidate.1, 1, index);
    }
}

/// After a piece has gone from `from` to `to`, it stands on `to`, marked as
/// moved, `from` is empty, and every other square holds what it held.
pub proof fn lemma_relocated(board: Board, from: CoordinateSet, to: CoordinateSet, x: int, y: int)
    requires
        in_bounds(from.x as int, from.y as int),
        in_bounds(to.x as int, to.y as int),
        in_bounds(x, y),
    ensures
        piece_at(relocated(board, from, to), x, y) == (if x == from.x && y == from.y {
            empty_square()
        } else if x == to.x && y == to.y {
            piece_at(board, from.x as int, from.y as int).moved()
        } else {
            piece_at(board, x, y)
        }),
{
    let mover = piece_at(board, from.x as int, from.y as int).moved();
    let landed = with_piece(board, to.x as int, to.y as int, mover);
    lemma_with_piece(board, to.x as int, to.y as int, mover);
    lemma_with_piece(landed, from.x as int, from.y as int, empty_square());
}

/// After a capture in passing the capturing piece stands on `to`, the
/// square behind `to` and the square `from` are empty, and every other square
/// holds what it held.
pub proof fn lemma_en_passant_capture(
    board: Board,
    from: CoordinateSet,
    to: CoordinateSet,
    x: int,
    y: int,
)
    requires
        in_bounds(from.x as int, from.y as int),
        in_bounds(to.x as int, to.y as int),
        in_bounds(to.x as int, to.y - piece_at(board, from.x as int, from.y as int).forward()),
        in_bounds(x, y),
    ensures
        piece_at(en_passant_capture(board, from, to).board, x, y) == (if x == to.x && y == to.y
            - piece_at(board, from.x as int, from.y as int).forward() {
            empty_square()
        } else if x == from.x && y == from.y {
            empty_square()
        } else if x == to.x && y == to.y {
            piece_at(board, from.x as int, from.y as int).moved()
        } else {
            piece_at(board, x, y)
        }),
        en_passant_capture(board, from, to).en_passante == None::<CoordinateSet>,
{
    let mover = piece_at(board, from.x as int, from.y as int);
    lemma_relocated(board, from, to, x, y);
    lemma_with_piece(
        relocated(board, from, to),
        to.x as int,
        to.y - mover.forward(),
        empty_square(),
    );
}

/// After a castling move of a king that was ready for it, by two files: the
/// king stands two files from where it stood, the rook on the square that
/// the king has passed through, both marked as moved, the squares that they
/// left are empty, and every other square holds what it held.
pub proof fn lemma_castled(board: Board, from: CoordinateSet, direction: Direction, x: int, y: int)
    requires
        in_bounds(from.x as int, from.y as int),
        castle_ready(board, from, direction),
        direction == (Direction { x: 2, y: 0 }) || direction == (Direction { x: -2i32, y: 0 }),
        in_bounds(from.x + direction.x, from.y as int),
        in_bounds(x, y),
    ensures
        ({
            let king = piece_at(board, from.x as int, from.y as int);
            let to = CoordinateSet { x: (from.x + direction.x) as i32, y: from.y };
            let transit = castle_transit(from, direction);
            let after = castled(board, from, to, direction);
            &&& after.en_passante == None::<CoordinateSet>
            &&& in_bounds(transit.x as int, transit.y as int)
            &&& piece_at(after.board, x, y) == (if x == to.x && y == to.y {
                Piece { color: king.color, piece_type: PieceType::King { has_moved: true } }
            } else if x == transit.x && y == transit.y {
                Piece { color: king.color, piece_type: PieceType::Rook { has_moved: true } }
            } else if y == from.y && (x == from.x || x == castle_rook_file(from, direction)) {
                empty_square()
            } else {
                piece_at(board, x, y)
            })
        }),
{
    let to = CoordinateSet { x: (from.x + direction.x) as i32, y: from.y };
    let transit = castle_transit(from, direction);
    let rook_file = castle_rook_file(from, direction);
    let rook = piece_at(board, rook_file, from.y as int);
    lemma_relocated(board, from, to, x, y);
    let stepped = relocated(board, from, to);
    let joined = with_piece(stepped, transit.x as int, transit.y as int, rook.moved());
    lemma_with_piece(stepped, transit.x as int, transit.y as int, rook.moved());
    lemma_with_piece(joined, rook_file, from.y as int, empty_square());
}

} // verus!
