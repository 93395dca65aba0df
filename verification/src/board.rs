//! The board, the position that holds it, and the count of material.

use crate::piece::{in_bounds, CoordinateSet, Piece, PieceColor, PieceType};
use vstd::array::spec_array_update;
use vstd::prelude::*;

verus! {

/// Eight ranks of eight squares: the piece on file `x` of rank `y` is
/// `board[y][x]`.
pub type Board = [[Piece; 8]; 8];

/// What stands on an unused square.
pub open spec fn empty_square() -> Piece {
    Piece { color: PieceColor::Black, piece_type: PieceType::Empty }
}

/// The piece on file `x` of rank `y`.
pub open spec fn piece_at(board: Board, x: int, y: int) -> Piece {
    board[y][x]
}

/// The board with `piece` put on file `x` of rank `y`.
pub open spec fn with_piece(board: Board, x: int, y: int, piece: Piece) -> Board {
    spec_array_update(board, y, spec_array_update(board[y], x, piece))
}

/// Putting a piece on a square changes that square and no other.
pub proof fn lemma_with_piece(board: Board, x: int, y: int, piece: Piece)
    requires
        in_bounds(x, y),
    ensures
        forall|x2: int, y2: int|
            in_bounds(x2, y2) ==> #[trigger] piece_at(with_piece(board, x, y, piece), x2, y2) == (
            if x2 == x && y2 == y {
                piece
            } else {
                piece_at(board, x2, y2)
            }),
{
    let row = spec_array_update(board[y], x, piece);
    assert(row@ == board[y]@.update(x, piece));
    assert(with_piece(board, x, y, piece)@ == board@.update(y, row));
}

/// Two boards with the same piece on every square are the same board.
pub proof fn lemma_board_ext(a: Board, b: Board)
    requires
        forall|x: int, y: int| in_bounds(x, y) ==> #[trigger] piece_at(a, x, y) == piece_at(b, x, y),
    ensures
        a == b,
{
    assert forall|y: int| 0 <= y < 8 implies a[y] == b[y] by {
        assert forall|x: int| 0 <= x < 8 implies a[y][x] == b[y][x] by {
            assert(piece_at(a, x, y) == piece_at(b, x, y));
        }
        assert(a[y] =~= b[y]);
    }
    assert(a =~= b);
}

/// Puts `piece` on file `x` of rank `y`.
fn put(board: &mut Board, x: usize, y: usize, piece: Piece)
    requires
        x < 8,
        y < 8,
    ensures
        *final(board) == with_piece(*old(board), x as int, y as int, piece),
{
    board[y][x] = piece;
    proof {
        lemma_with_piece(*old(board), x as int, y as int, piece);
        lemma_board_ext(*board, with_piece(*old(board), x as int, y as int, piece));
    }
}

/// What `piece` adds to the material of `color`: its value if it is of that
/// colour, the opposite of its value if it is not.
pub open spec fn signed_value(piece: Piece, color: PieceColor) -> int {
    if piece.color == color {
        piece.point_value() as int
    } else {
        -(piece.point_value() as int)
    }
}

/// The material of `color` on the first `files` squares of rank `y`.
pub open spec fn rank_material(board: Board, color: PieceColor, y: int, files: nat) -> int
    decreases files,
{
    if files == 0 {
        0
    } else {
        rank_material(board, color, y, (files - 1) as nat) + signed_value(
            piece_at(board, files - 1, y),
            color,
        )
    }
}

/// The material of `color` on the first `ranks` ranks.
pub open spec fn ranks_material(board: Board, color: PieceColor, ranks: nat) -> int
    decreases ranks,
{
    if ranks == 0 {
        0
    } else {
        ranks_material(board, color, (ranks - 1) as nat) + rank_material(
            board,
            color,
            ranks - 1,
            8,
        )
    }
}

/// The material of `color`: the values of its pieces less the values of the
/// other side's.
pub open spec fn material(board: Board, color: PieceColor) -> int {
    ranks_material(board, color, 8)
}

/// No count of material exceeds this.
pub const MATERIAL_BOUND: i32 = 640000;

proof fn lemma_rank_material_bound(board: Board, color: PieceColor, y: int, files: nat)
    ensures
        -10000 * files <= rank_material(board, color, y, files) <= 10000 * files,
    decreases files,
{
    if files > 0 {
        lemma_rank_material_bound(board, color, y, (files - 1) as nat);
    }
}

proof fn lemma_ranks_material_bound(board: Board, color: PieceColor, ranks: nat)
    ensures
        -80000 * ranks <= ranks_material(board, color, ranks) <= 80000 * ranks,
    decreases ranks,
{
    if ranks > 0 {
        lemma_ranks_material_bound(board, color, (ranks - 1) as nat);
        lemma_rank_material_bound(board, color, ranks - 1, 8);
    }
}

/// The material of a side lies between the bounds.
pub proof fn lemma_material_bound(board: Board, color: PieceColor)
    ensures
        -MATERIAL_BOUND <= material(board, color) <= MATERIAL_BOUND,
{
    lemma_ranks_material_bound(board, color, 8);
}

proof fn lemma_rank_material_opposite(board: Board, color: PieceColor, y: int, files: nat)
    ensures
        rank_material(board, color.opponent(), y, files) == -rank_material(board, color, y, files),
    decreases files,
{
    if files > 0 {
        lemma_rank_material_opposite(board, color, y, (files - 1) as nat);
    }
}

proof fn lemma_ranks_material_opposite(board: Board, color: PieceColor, ranks: nat)
    ensures
        ranks_material(board, color.opponent(), ranks) == -ranks_material(board, color, ranks),
    decreases ranks,
{
    if ranks > 0 {
        lemma_ranks_material_opposite(board, color, (ranks - 1) as nat);
        lemma_rank_material_opposite(board, color, ranks - 1, 8);
    }
}

/// What one side counts as its material, the other side counts as its loss.
pub proof fn lemma_material_opposite(board: Board, color: PieceColor)
    ensures
        material(board, color.opponent()) == -material(board, color),
{
    lemma_ranks_material_opposite(board, color, 8);
}

/// A position: the board, the square of a pawn that has just advanced two
/// squares, the successor positions found so far, the material of White when
/// the position was made, and the value the search last gave it.
#[derive(Debug)]
pub struct BoardPosition {
    pub board: Board,
    pub en_passante: Option<CoordinateSet>,
    pub children: Vec<BoardPosition>,
    pub base_white_eval: i32,
    pub tree_eval: i32,
}

/// The piece of the standard initial position on file `x` of rank `y`: Black
/// on ranks 0 and 1, White on ranks 6 and 7.
pub open spec fn initial_piece(x: int, y: int) -> Piece {
    let back = if x == 0 || x == 7 {
        PieceType::Rook { has_moved: false }
    } else if x == 1 || x == 6 {
        PieceType::Knight
    } else if x == 2 || x == 5 {
        PieceType::Bishop
    } else if x == 3 {
        PieceType::Queen
    } else {
        PieceType::King { has_moved: false }
    };
    if y == 0 {
        Piece { color: PieceColor::Black, piece_type: back }
    } else if y == 1 {
        Piece { color: PieceColor::Black, piece_type: PieceType::Pawn }
    } else if y == 6 {
        Piece { color: PieceColor::White, piece_type: PieceType::Pawn }
    } else if y == 7 {
        Piece { color: PieceColor::White, piece_type: back }
    } else {
        empty_square()
    }
}

/// The standard initial position of the pieces.
pub fn initial_board() -> (board: Board)
    ensures
        forall|x: int, y: int| in_bounds(x, y) ==> piece_at(board, x, y) == initial_piece(x, y),
{
    let e: Piece = Piece { color: PieceColor::Black, piece_type: PieceType::Empty };
    let bp: Piece = Piece { color: PieceColor::Black, piece_type: PieceType::Pawn };
    let wp: Piece = Piece { color: PieceColor::White, piece_type: PieceType::Pawn };
    let b: PieceColor = PieceColor::Black;
    let w: PieceColor = PieceColor::White;
    let rook: PieceType = PieceType::Rook { has_moved: false };
    let king: PieceType = PieceType::King { has_moved: false };
    let board: Board = [
        [
            Piece { color: b, piece_type: rook },
            Piece { color: b, piece_type: PieceType::Knight },
            Piece { color: b, piece_type: PieceType::Bishop },
            Piece { color: b, piece_type: PieceType::Queen },
            Piece { color: b, piece_type: king },
            Piece { color: b, piece_type: PieceType::Bishop },
            Piece { color: b, piece_type: PieceType::Knight },
            Piece { color: b, piece_type: rook },
        ],
        [bp, bp, bp, bp, bp, bp, bp, bp],
        [e, e, e, e, e, e, e, e],
        [e, e, e, e, e, e, e, e],
        [e, e, e, e, e, e, e, e],
        [e, e, e, e, e, e, e, e],
        [wp, wp, wp, wp, wp, wp, wp, wp],
        [
            Piece { color: w, piece_type: rook },
            Piece { color: w, piece_type: PieceType::Knight },
            Piece { color: w, piece_type: PieceType::Bishop },
            Piece { color: w, piece_type: PieceType::Queen },
            Piece { color: w, piece_type: king },
            Piece { color: w, piece_type: PieceType::Bishop },
            Piece { color: w, piece_type: PieceType::Knight },
            Piece { color: w, piece_type: rook },
        ],
    ];
    board
}

impl BoardPosition {
    /// Whether the position is as `new` makes it from `board`: nothing to
    /// capture in passing, no successors, no values yet.
    pub open spec fn is_new(self, board: Board) -> bool {
        &&& self.board == board
        &&& self.en_passante == None::<CoordinateSet>
        &&& self.children@.len() == 0
        &&& self.base_white_eval == 0
        &&& self.tree_eval == 0
    }

    /// Whether the recorded material of White is the material of White on the
    /// board.
    pub open spec fn evaluated(self) -> bool {
        self.base_white_eval == material(self.board, PieceColor::White)
    }

    /// Whether the recorded material lies between the bounds, here and in
    /// every position below, and is the material of White on the board in
    /// every position below.
    pub open spec fn well_formed(self) -> bool
        decreases self,
    {
        &&& -MATERIAL_BOUND <= self.base_white_eval <= MATERIAL_BOUND
        &&& forall|i: int|
            0 <= i < self.children@.len() ==> {
                &&& (#[trigger] self.children@[i]).evaluated()
                &&& self.children@[i].well_formed()
            }
    }

    pub fn new(board: Board) -> (position: BoardPosition)
        ensures
            position.is_new(board),
            position.well_formed(),
    {
        BoardPosition {
            board,
            en_passante: None,
            children: Vec::new(),
            base_white_eval: 0,
            tree_eval: 0,
        }
    }

    /// The position that holds on each square the colour and the kind that
    /// `item` gives for it.
    pub fn from(item: [[(PieceColor, PieceType); 8]; 8]) -> (position: BoardPosition)
        ensures
            forall|x: int, y: int|
                in_bounds(x, y) ==> #[trigger] piece_at(position.board, x, y) == (Piece {
                    color: item[y][x].0,
                    piece_type: item[y][x].1,
                }),
            position.is_new(position.board),
            position.well_formed(),
    {
        let e: Piece = Piece { color: PieceColor::Black, piece_type: PieceType::Empty };
        let mut board: Board = [[e; 8]; 8];
        let mut y: usize = 0;
        while y < 8
            invariant
                y <= 8,
                forall|x2: int, y2: int|
                    0 <= x2 < 8 && 0 <= y2 < y ==> #[trigger] piece_at(board, x2, y2) == (Piece {
                        color: item[y2][x2].0,
                        piece_type: item[y2][x2].1,
                    }),
            decreases 8 - y,
        {
            let mut x: usize = 0;
            while x < 8
                invariant
                    y < 8,
                    x <= 8,
                    forall|x2: int, y2: int|
                        0 <= x2 < 8 && 0 <= y2 < y ==> #[trigger] piece_at(board, x2, y2) == (
                        Piece { color: item[y2][x2].0, piece_type: item[y2][x2].1 }),
                    forall|x2: int|
                        0 <= x2 < x ==> #[trigger] piece_at(board, x2, y as int) == (Piece {
                            color: item[y as int][x2].0,
                            piece_type: item[y as int][x2].1,
                        }),
                decreases 8 - x,
            {
                let cell: (PieceColor, PieceType) = item[y][x];
                let piece: Piece = Piece::new(cell.0, cell.1);
                let ghost before = board;
                put(&mut board, x, y, piece);
                proof {
                    lemma_with_piece(before, x as int, y as int, piece);
                }
                x += 1;
            }
            y += 1;
        }
        BoardPosition::new(board)
    }

    pub fn get_piece(&self, square: &CoordinateSet) -> (piece: &Piece)
        requires
            !square.out_of_bounds(),
        ensures
            *piece == piece_at(self.board, square.x as int, square.y as int),
    {
        &self.board[square.y as usize][square.x as usize]
    }

    pub fn set_piece(&mut self, square: &CoordinateSet, piece: Piece)
        requires
            !square.out_of_bounds(),
        ensures
            final(self).board == with_piece(
                old(self).board,
                square.x as int,
                square.y as int,
                piece,
            ),
            final(self).en_passante == old(self).en_passante,
            final(self).children == old(self).children,
            final(self).base_white_eval == old(self).base_white_eval,
            final(self).tree_eval == old(self).tree_eval,
    {
        put(&mut self.board, square.x as usize, square.y as usize, piece);
    }

    pub fn clear_square(&mut self, square: &CoordinateSet)
        requires
            !square.out_of_bounds(),
        ensures
            final(self).board == with_piece(
                old(self).board,
                square.x as int,
                square.y as int,
                empty_square(),
            ),
            final(self).en_passante == old(self).en_passante,
            final(self).children == old(self).children,
            final(self).base_white_eval == old(self).base_white_eval,
            final(self).tree_eval == old(self).tree_eval,
    {
        self.set_piece(square, Piece::new(PieceColor::Black, PieceType::Empty));
    }

    /// The material of `color_moving` on the board.
    pub fn eval(&self, color_moving: PieceColor) -> (value: i32)
        ensures
            value == material(self.board, color_moving),
            -MATERIAL_BOUND <= value <= MATERIAL_BOUND,
    {
        let mut total: i32 = 0;
        let mut y: usize = 0;
        while y < 8
            invariant
                y <= 8,
                total == ranks_material(self.board, color_moving, y as nat),
            decreases 8 - y,
        {
            let mut rank: i32 = 0;
            let mut x: usize = 0;
            while x < 8
                invariant
                    y < 8,
                    x <= 8,
                    rank == rank_material(self.board, color_moving, y as int, x as nat),
                decreases 8 - x,
            {
                proof {
                    lemma_rank_material_bound(self.board, color_moving, y as int, x as nat);
                }
                let piece: Piece = self.board[y][x];
                if piece.color == color_moving {
                    rank = rank + piece.point_value();
                } else {
                    rank = rank - piece.point_value();
                }
                x += 1;
            }
            proof {
                lemma_ranks_material_bound(self.board, color_moving, y as nat);
                lemma_rank_material_bound(self.board, color_moving, y as int, 8);
            }
            total = total + rank;
            y += 1;
        }
        proof {
            lemma_material_bound(self.board, color_moving);
        }
        total
    }

    /// Records the material of White on the board of `new_child`, and puts
    /// the child behind the successors found so far.
    pub fn append_child(&mut self, new_child: BoardPosition)
        ensures
            final(self).children@ == old(self).children@.push(
                BoardPosition {
                    base_white_eval: material(new_child.board, PieceColor::White) as i32,
                    ..new_child
                },
            ),
            final(self).children@.last().evaluated(),
            final(self).board == old(self).board,
            final(self).en_passante == old(self).en_passante,
            final(self).base_white_eval == old(self).base_white_eval,
            final(self).tree_eval == old(self).tree_eval,
    {
        let mut new_child = new_child;
        new_child.base_white_eval = new_child.eval(PieceColor::White);
        self.children.push(new_child);
    }
}

impl Default for BoardPosition {
    /// The standard initial position.
    fn default() -> (position: BoardPosition)
        ensures
            forall|x: int, y: int|
                in_bounds(x, y) ==> piece_at(position.board, x, y) == initial_piece(x, y),
            position.is_new(position.board),
            position.well_formed(),
    {
        BoardPosition::new(initial_board())
    }
}

} // verus!
