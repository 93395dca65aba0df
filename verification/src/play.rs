//! The moves that a player may choose from for one piece, and playing one.

use crate::board::{lemma_material_bound, piece_at, Board, BoardPosition};
use crate::movegen::{
    landing, lemma_catalogue_playable, lemma_slide_step, piece_successors, playable, successors,
};
use crate::piece::{in_bounds, ChessMove, CoordinateSet, Direction, MoveType, Piece, PieceColor};
use vstd::prelude::*;

verus! {

/// The single step that stands for the step of index `index` of a slide along
/// `direction`.
pub open spec fn slide_step(direction: Direction, index: int) -> ChessMove {
    ChessMove(MoveType::Standard, direction.scaled((index + 1) as i32))
}

/// The moves that the candidate `candidate` of the piece on `from` offers to
/// a player: none where it leads to no successor; one single step for each
/// square that a slide reaches; else the candidate itself.
pub open spec fn offered(
    board: Board,
    en_passante: Option<CoordinateSet>,
    from: CoordinateSet,
    candidate: ChessMove,
) -> Seq<ChessMove> {
    let found = successors(board, en_passante, from, candidate);
    if found.len() == 0 {
        Seq::empty()
    } else if candidate.0 == MoveType::Repeat {
        Seq::new(found.len(), |i: int| slide_step(candidate.1, i))
    } else {
        seq![candidate]
    }
}

/// The moves that the first `count` candidates of the piece on `from` offer.
pub open spec fn legal_moves_among(
    board: Board,
    en_passante: Option<CoordinateSet>,
    from: CoordinateSet,
    count: nat,
) -> Seq<ChessMove>
    decreases count,
{
    if count == 0 {
        Seq::empty()
    } else {
        legal_moves_among(board, en_passante, from, (count - 1) as nat) + offered(
            board,
            en_passante,
            from,
            piece_at(board, from.x as int, from.y as int).catalogue()[count - 1],
        )
    }
}

/// The legal moves of the piece on `from`, in the order of its catalogue.
pub open spec fn legal_moves(board: Board, en_passante: Option<CoordinateSet>, from: CoordinateSet) -> Seq<
    ChessMove,
> {
    legal_moves_among(
        board,
        en_passante,
        from,
        piece_at(board, from.x as int, from.y as int).catalogue().len(),
    )
}

/// Whether the move `chess_move` leads from `from` to `to`.
pub open spec fn leads_to(from: CoordinateSet, chess_move: ChessMove, to: CoordinateSet) -> bool {
    landing(from, chess_move.1, 1) == Some(to)
}

/// The index of the first of `moves`, from index `start` on, that leads from
/// `from` to `to`; the length of `moves` if none does.
pub open spec fn first_leading_to(moves: Seq<ChessMove>, from: CoordinateSet, to: CoordinateSet, start: int) -> int
    decreases moves.len() - start,
{
    if start < 0 || start >= moves.len() {
        moves.len() as int
    } else if leads_to(from, moves[start], to) {
        start
    } else {
        first_leading_to(moves, from, to, start + 1)
    }
}

proof fn lemma_products(count: int, step: int)
    by (nonlinear_arith)
    requires
        1 <= count <= 7,
        -7 <= step <= 7,
    ensures
        -49 <= step * count <= 49,
        step * count == count * step,
{
}

/// A single step that stands for a step of a slide lands where the slide
/// does.
proof fn lemma_slide_step_lands(from: CoordinateSet, direction: Direction, index: int)
    requires
        in_bounds(from.x as int, from.y as int),
        landing(from, direction, 1) is Some,
        0 <= index < 7,
    ensures
        landing(from, slide_step(direction, index).1, 1) == landing(from, direction, index + 1),
{
    lemma_products(index + 1, direction.x as int);
    lemma_products(index + 1, direction.y as int);
}

/// Each move that a candidate offers can be tried, lands on the board and
/// leads to a successor.
pub proof fn lemma_offered_move(
    board: Board,
    en_passante: Option<CoordinateSet>,
    from: CoordinateSet,
    candidate: ChessMove,
    index: int,
)
    requires
        in_bounds(from.x as int, from.y as int),
        playable(board, from, candidate),
        0 <= index < offered(board, en_passante, from, candidate).len(),
    ensures
        playable(board, from, offered(board, en_passante, from, candidate)[index]),
        landing(from, offered(board, en_passante, from, candidate)[index].1, 1) is Some,
        successors(
            board,
            en_passante,
            from,
            offered(board, en_passante, from, candidate)[index],
        ).len() >= 1,
{
    if candidate.0 == MoveType::Repeat {
        lemma_slide_step(board, from, candidate.1, 1, index);
        lemma_slide_step_lands(from, candidate.1, index);
    }
}

/// Each legal move can be tried, lands on the board and leads to a
/// successor.
pub proof fn lemma_legal_move(
    board: Board,
    en_passante: Option<CoordinateSet>,
    from: CoordinateSet,
    count: nat,
    index: int,
)
    requires
        in_bounds(from.x as int, from.y as int),
        count <= piece_at(board, from.x as int, from.y as int).catalogue().len(),
        0 <= index < legal_moves_among(board, en_passante, from, count).len(),
    ensures
        playable(board, from, legal_moves_among(board, en_passante, from, count)[index]),
        landing(from, legal_moves_among(board, en_passante, from, count)[index].1, 1) is Some,
        successors(
            board,
            en_passante,
            from,
            legal_moves_among(board, en_passante, from, count)[index],
        ).len() >= 1,
    decreases count,
{
    let earlier = legal_moves_among(board, en_passante, from, (count - 1) as nat);
    if index < earlier.len() {
        lemma_legal_move(board, en_passante, from, (count - 1) as nat, index);
    } else {
        let candidate = piece_at(board, from.x as int, from.y as int).catalogue()[count - 1];
        lemma_catalogue_playable(board, from, count - 1);
        lemma_offered_move(board, en_passante, from, candidate, index - earlier.len());
    }
}

impl BoardPosition {
    /// The legal moves of the piece on `target`. Every successor that they
    /// lead to is put behind the successors found so far.
    pub fn get_legal_moves_piece(&mut self, target: &CoordinateSet) -> (moves: Vec<ChessMove>)
        requires
            !target.out_of_bounds(),
        ensures
            moves@ == legal_moves(old(self).board, old(self).en_passante, *target),
            forall|i: int|
                0 <= i < moves@.len() ==> landing(*target, (#[trigger] moves@[i]).1, 1) is Some,
            final(self).extends(
                *old(self),
                piece_successors(
                    old(self).board,
                    old(self).en_passante,
                    *target,
                    piece_at(old(self).board, target.x as int, target.y as int).catalogue().len(),
                ),
            ),
            old(self).well_formed() ==> final(self).well_formed(),
    {
        let ghost before = *self;
        let mut moves: Vec<ChessMove> = Vec::new();
        let piece: Piece = *self.get_piece(target);
        let potential_moves: Vec<ChessMove> = piece.get_moves();
        let mut k: usize = 0;
        while k < potential_moves.len()
            invariant
                k <= potential_moves@.len(),
                potential_moves@ == piece.catalogue(),
                !target.out_of_bounds(),
                before == *old(self),
                before.well_formed() ==> self.well_formed(),
                piece == piece_at(before.board, target.x as int, target.y as int),
                moves@ == legal_moves_among(before.board, before.en_passante, *target, k as nat),
                self.extends(
                    before,
                    piece_successors(before.board, before.en_passante, *target, k as nat),
                ),
            decreases potential_moves@.len() - k,
        {
            let potential_move: ChessMove = potential_moves[k];
            let old_length: usize = self.children.len();
            let ghost between = *self;
            let ghost earlier = moves@;
            let ghost found = successors(
                before.board,
                before.en_passante,
                *target,
                potential_move,
            );
            proof {
                lemma_catalogue_playable(before.board, *target, k as int);
            }
            self.eval_move(target, &potential_move);
            proof {
                self.lemma_extends_further(
                    before,
                    between,
                    piece_successors(before.board, before.en_passante, *target, k as nat),
                    found,
                );
            }
            let count: usize = self.children.len() - old_length;
            if count > 0 {
                if potential_move.0 == MoveType::Repeat {
                    proof {
                        lemma_slide_step(before.board, *target, potential_move.1, 1, count - 1);
                        lemma_slide_step(before.board, *target, potential_move.1, 1, 0);
                    }
                    let mut step: usize = 0;
                    while step < count
                        invariant
                            step <= count <= 7,
                            !target.out_of_bounds(),
                            landing(*target, potential_move.1, 1) is Some,
                            moves@ == earlier + Seq::new(
                                step as nat,
                                |i: int| slide_step(potential_move.1, i),
                            ),
                        decreases count - step,
                    {
                        proof {
                            lemma_products(step + 1, potential_move.1.x as int);
                            lemma_products(step + 1, potential_move.1.y as int);
                        }
                        moves.push(
                            ChessMove(MoveType::Standard, potential_move.1 * ((step + 1) as i32)),
                        );
                        proof {
                            assert(moves@ =~= earlier + Seq::new(
                                (step + 1) as nat,
                                |i: int| slide_step(potential_move.1, i),
                            ));
                        }
                        step += 1;
                    }
                } else {
                    moves.push(potential_move);
                    proof {
                        assert(moves@ =~= earlier + seq![potential_move]);
                    }
                }
            } else {
                proof {
                    assert(moves@ =~= earlier + Seq::<ChessMove>::empty());
                }
            }
            k += 1;
        }
        proof {
            assert forall|i: int| 0 <= i < moves@.len() implies landing(
                *target,
                (#[trigger] moves@[i]).1,
                1,
            ) is Some by {
                lemma_legal_move(
                    before.board,
                    before.en_passante,
                    *target,
                    piece.catalogue().len(),
                    i,
                );
            }
        }
        moves
    }

    /// Plays the first legal move of the piece on `from` that lands on `to`,
    /// and gives the position that it leads to. Where the move leads to
    /// several positions, the first is given and the others are left as the
    /// successors of `self`. Where no legal move lands on `to`, nothing
    /// changes.
    pub fn move_piece(&mut self, from: CoordinateSet, to: CoordinateSet) -> (outcome: Result<
        BoardPosition,
        String,
    >)
        requires
            !from.out_of_bounds(),
        ensures
            ({
                let legal = legal_moves(old(self).board, old(self).en_passante, from);
                let index = first_leading_to(legal, from, to, 0);
                if index < legal.len() {
                    let found = successors(
                        old(self).board,
                        old(self).en_passante,
                        from,
                        legal[index],
                    );
                    &&& outcome is Ok
                    &&& found.len() >= 1
                    &&& outcome->Ok_0.is_successor(found[0])
                    &&& final(self).board == old(self).board
                    &&& final(self).en_passante == old(self).en_passante
                    &&& final(self).base_white_eval == old(self).base_white_eval
                    &&& final(self).tree_eval == old(self).tree_eval
                    &&& final(self).children@.len() == found.len() - 1
                    &&& forall|j: int|
                        1 <= j < found.len() ==> final(self).children@[j - 1].is_successor(
                            #[trigger] found[j],
                        )
                } else {
                    &&& outcome is Err
                    &&& outcome->Err_0@ == "Illegal Move, try again"@
                    &&& *final(self) == *old(self)
                }
            }),
            outcome matches Ok(position) ==> position.well_formed(),
            old(self).well_formed() ==> final(self).well_formed(),
    {
        let mut scratch = BoardPosition::new(self.board);
        scratch.en_passante = self.en_passante;
        let moves: Vec<ChessMove> = scratch.get_legal_moves_piece(&from);
        let ghost legal = legal_moves(self.board, self.en_passante, from);
        let mut index: usize = 0;
        while index < moves.len()
            invariant
                index <= moves@.len(),
                moves@ == legal,
                !from.out_of_bounds(),
                forall|i: int|
                    0 <= i < moves@.len() ==> landing(from, (#[trigger] moves@[i]).1, 1) is Some,
                first_leading_to(legal, from, to, 0) == first_leading_to(
                    legal,
                    from,
                    to,
                    index as int,
                ),
            ensures
                index < moves@.len() ==> leads_to(from, legal[index as int], to),
            decreases moves@.len() - index,
        {
            let chess_move: ChessMove = moves[index];
            assert(landing(from, moves@[index as int].1, 1) is Some);
            let coords: CoordinateSet = from + chess_move.1;
            if coords == to {
                break ;
            }
            index += 1;
        }
        if index >= moves.len() {
            return Err("Illegal Move, try again".to_owned());
        }
        let chosen_move: ChessMove = moves[index];
        proof {
            assert(landing(from, moves@[index as int].1, 1) is Some);
            lemma_legal_move(
                self.board,
                self.en_passante,
                from,
                piece_at(self.board, from.x as int, from.y as int).catalogue().len(),
                index as int,
            );
        }
        self.children.clear();
        let ghost cleared = *self;
        self.eval_move(&from, &chosen_move);
        let ghost found = successors(cleared.board, cleared.en_passante, from, chosen_move);
        assert(self.children@[cleared.children@.len() + 0int].is_successor(found[0]));
        let ghost full = self.children@;
        let child = self.children.remove(0);
        proof {
            lemma_material_bound(child.board, PieceColor::White);
            if old(self).well_formed() {
                assert forall|i: int| 0 <= i < self.children@.len() implies {
                    &&& (#[trigger] self.children@[i]).evaluated()
                    &&& self.children@[i].well_formed()
                } by {
                    assert(self.children@[i] == full[i + 1]);
                    assert(full[cleared.children@.len() + (i + 1)].is_successor(found[i + 1]));
                    lemma_material_bound(self.children@[i].board, PieceColor::White);
                }
            }
            assert forall|j: int| 1 <= j < found.len() implies self.children@[j - 1].is_successor(
                #[trigger] found[j],
            ) by {
                assert(full[cleared.children@.len() + j].is_successor(found[j]));
            }
        }
        Ok(child)
    }
}

} // verus!
