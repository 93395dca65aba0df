//! The board as text, for a terminal that knows colours.

use crate::board::{piece_at, Board, BoardPosition};
use crate::movegen::piece_successors;
use crate::piece::{in_bounds, ChessMove, CoordinateSet, Piece, PieceColor, PieceType};
use crate::play::legal_moves;
use vstd::prelude::*;
use vstd::string::StringExecFns;

verus! {

/// The colour of the square of file `x` and rank `y`: green where the square
/// is marked, else black and red in turn.
pub open spec fn tint(marked: bool, x: int, y: int) -> Seq<char> {
    if marked {
        "\x1b[42m"@
    } else if (x + y) % 2 == 0 {
        "\x1b[40m"@
    } else {
        "\x1b[41m"@
    }
}

/// The text of one square: its colour, then the figurine of its piece
/// between two blanks.
pub open spec fn square_text(board: Board, marks: Seq<CoordinateSet>, x: int, y: int) -> Seq<char> {
    tint(marks.contains(CoordinateSet { x: x as i32, y: y as i32 }), x, y) + " "@ + seq![
        piece_at(board, x, y).glyph(),
    ] + " "@
}

/// The text of the first `files` squares of rank `y`.
pub open spec fn squares_text(board: Board, marks: Seq<CoordinateSet>, y: int, files: nat) -> Seq<
    char,
>
    decreases files,
{
    if files == 0 {
        Seq::empty()
    } else {
        squares_text(board, marks, y, (files - 1) as nat) + square_text(board, marks, files - 1, y)
    }
}

/// The digit that names rank `y`.
pub open spec fn rank_digit(y: int) -> char {
    ('0' as int + y) as char
}

/// The text of rank `y`: its digit, a blank, its squares, and the end of the
/// line in black.
pub open spec fn rank_text(board: Board, marks: Seq<CoordinateSet>, y: int) -> Seq<char> {
    seq![rank_digit(y)] + " "@ + squares_text(board, marks, y, 8) + "\x1b[40m\n"@
}

/// The text of the first `ranks` ranks.
pub open spec fn ranks_text(board: Board, marks: Seq<CoordinateSet>, ranks: nat) -> Seq<char>
    decreases ranks,
{
    if ranks == 0 {
        Seq::empty()
    } else {
        ranks_text(board, marks, (ranks - 1) as nat) + rank_text(board, marks, ranks - 1)
    }
}

/// The text of a position: the letters of the files, the ranks from rank 0
/// on with the squares of `marks` in green, and whether a pawn can be
/// captured in passing.
pub open spec fn board_text(
    board: Board,
    en_passante: Option<CoordinateSet>,
    marks: Seq<CoordinateSet>,
) -> Seq<char> {
    "   a  b  c  d  e  f  g  h\n"@ + ranks_text(board, marks, 8) + "En Passante: "@ + (
    if en_passante is None {
        "No Eligible Pawns"@
    } else {
        "Pawn Eligible"@
    })
}

/// The squares that `moves` lead to from `from`.
pub open spec fn destinations(from: CoordinateSet, moves: Seq<ChessMove>) -> Seq<CoordinateSet> {
    Seq::new(moves.len(), |i: int| from.offset(moves[i].1))
}

impl Piece {
    /// The text that shows the piece: its figurine.
    pub fn to_string(&self) -> (text: String)
        ensures
            text@ == seq![self.glyph()],
    {
        let figurine: &str = match (self.color, self.piece_type) {
            (_, PieceType::Empty) => " ",
            (PieceColor::White, PieceType::Pawn) => "\u{265F}",
            (PieceColor::White, PieceType::Knight) => "\u{265E}",
            (PieceColor::White, PieceType::Bishop) => "\u{265D}",
            (PieceColor::White, PieceType::Rook { .. }) => "\u{265C}",
            (PieceColor::White, PieceType::King { .. }) => "\u{265A}",
            (PieceColor::White, PieceType::Queen) => "\u{265B}",
            (PieceColor::Black, PieceType::Pawn) => "\u{2659}",
            (PieceColor::Black, PieceType::Knight) => "\u{2658}",
            (PieceColor::Black, PieceType::Bishop) => "\u{2657}",
            (PieceColor::Black, PieceType::Rook { .. }) => "\u{2656}",
            (PieceColor::Black, PieceType::King { .. }) => "\u{2654}",
            (PieceColor::Black, PieceType::Queen) => "\u{2655}",
        };
        proof {
            reveal_strlit(" ");
            reveal_strlit("\u{265F}");
            reveal_strlit("\u{265E}");
            reveal_strlit("\u{265D}");
            reveal_strlit("\u{265C}");
            reveal_strlit("\u{265A}");
            reveal_strlit("\u{265B}");
            reveal_strlit("\u{2659}");
            reveal_strlit("\u{2658}");
            reveal_strlit("\u{2657}");
            reveal_strlit("\u{2656}");
            reveal_strlit("\u{2654}");
            reveal_strlit("\u{2655}");
            assert(figurine@ =~= seq![self.glyph()]);
        }
        figurine.to_owned()
    }
}

/// The digit that names rank `y`, as a text.
fn digit_text(y: usize) -> (text: &'static str)
    requires
        y < 8,
    ensures
        text@ == seq![rank_digit(y as int)],
{
    let text: &'static str = if y == 0 {
        "0"
    } else if y == 1 {
        "1"
    } else if y == 2 {
        "2"
    } else if y == 3 {
        "3"
    } else if y == 4 {
        "4"
    } else if y == 5 {
        "5"
    } else if y == 6 {
        "6"
    } else {
        "7"
    };
    proof {
        reveal_strlit("0");
        reveal_strlit("1");
        reveal_strlit("2");
        reveal_strlit("3");
        reveal_strlit("4");
        reveal_strlit("5");
        reveal_strlit("6");
        reveal_strlit("7");
        assert(text@ =~= seq![rank_digit(y as int)]);
    }
    text
}

/// The text of a position, with the squares in green that `grid` marks.
fn render(
    board: &Board,
    en_passante: &Option<CoordinateSet>,
    grid: &[[bool; 8]; 8],
    Ghost(marks): Ghost<Seq<CoordinateSet>>,
) -> (text: String)
    requires
        forall|x: int, y: int|
            in_bounds(x, y) ==> #[trigger] grid[y][x] == marks.contains(
                CoordinateSet { x: x as i32, y: y as i32 },
            ),
    ensures
        text@ == board_text(*board, *en_passante, marks),
{
    let mut text: String = "   a  b  c  d  e  f  g  h\n".to_owned();
    let mut y: usize = 0;
    while y < 8
        invariant
            y <= 8,
            forall|x2: int, y2: int|
                in_bounds(x2, y2) ==> #[trigger] grid[y2][x2] == marks.contains(
                    CoordinateSet { x: x2 as i32, y: y2 as i32 },
                ),
            text@ == "   a  b  c  d  e  f  g  h\n"@ + ranks_text(*board, marks, y as nat),
        decreases 8 - y,
    {
        let mut row: String = String::new();
        let mut x: usize = 0;
        while x < 8
            invariant
                y < 8,
                x <= 8,
                forall|x2: int, y2: int|
                    in_bounds(x2, y2) ==> #[trigger] grid[y2][x2] == marks.contains(
                        CoordinateSet { x: x2 as i32, y: y2 as i32 },
                    ),
                row@ == squares_text(*board, marks, y as int, x as nat),
            decreases 8 - x,
        {
            let ghost before = row@;
            assert(grid[y as int][x as int] == marks.contains(
                CoordinateSet { x: x as i32, y: y as i32 },
            ));
            let colour: &str = if grid[y][x] {
                "\x1b[42m"
            } else if (x + y) % 2 == 0 {
                "\x1b[40m"
            } else {
                "\x1b[41m"
            };
            let figurine: String = board[y][x].to_string();
            row.append(colour);
            row.append(" ");
            row.append(figurine.as_str());
            row.append(" ");
            assert(row@ =~= before + square_text(*board, marks, x as int, y as int));
            x += 1;
        }
        let ghost before = text@;
        text.append(digit_text(y));
        text.append(" ");
        text.append(row.as_str());
        text.append("\x1b[40m\n");
        assert(text@ =~= before + rank_text(*board, marks, y as int));
        assert(text@ =~= "   a  b  c  d  e  f  g  h\n"@ + ranks_text(*board, marks, (y + 1) as nat));
        y += 1;
    }
    text.append("En Passante: ");
    if en_passante.is_none() {
        text.append("No Eligible Pawns");
    } else {
        text.append("Pawn Eligible");
    }
    text
}

/// The grid that marks the squares that `moves` lead to from `from`.
pub fn mark_destinations(from: &CoordinateSet, moves: &Vec<ChessMove>) -> (grid: [[bool; 8]; 8])
    requires
        forall|i: int|
            0 <= i < moves@.len() ==> !(#[trigger] destinations(*from, moves@)[i]).out_of_bounds()
                && from.offset_fits(moves@[i].1),
    ensures
        forall|x: int, y: int|
            in_bounds(x, y) ==> #[trigger] grid[y][x] == destinations(*from, moves@).contains(
                CoordinateSet { x: x as i32, y: y as i32 },
            ),
{
    let ghost squares = destinations(*from, moves@);
    let mut grid: [[bool; 8]; 8] = [[false; 8]; 8];
    let mut k: usize = 0;
    while k < moves.len()
        invariant
            k <= moves@.len(),
            squares == destinations(*from, moves@),
            forall|i: int|
                0 <= i < moves@.len() ==> !(#[trigger] squares[i]).out_of_bounds()
                    && from.offset_fits(moves@[i].1),
            forall|x: int, y: int|
                in_bounds(x, y) ==> #[trigger] grid[y][x] == squares.take(k as int).contains(
                    CoordinateSet { x: x as i32, y: y as i32 },
                ),
        decreases moves@.len() - k,
    {
        assert(!squares[k as int].out_of_bounds());
        let coords: CoordinateSet = *from + moves[k].1;
        let ghost before = grid;
        grid[coords.y as usize][coords.x as usize] = true;
        proof {
            let earlier = squares.take(k as int);
            let later = squares.take(k + 1);
            assert(later =~= earlier.push(coords));
            assert forall|x: int, y: int| in_bounds(x, y) implies #[trigger] grid[y][x]
                == later.contains(CoordinateSet { x: x as i32, y: y as i32 }) by {
                let square = CoordinateSet { x: x as i32, y: y as i32 };
                assert(before[y][x] == earlier.contains(square));
                if square == coords {
                    assert(later[k as int] == square);
                } else if earlier.contains(square) {
                    let i = choose|i: int| 0 <= i < earlier.len() && earlier[i] == square;
                    assert(later[i] == square);
                } else if later.contains(square) {
                    let i = choose|i: int| 0 <= i < later.len() && later[i] == square;
                    assert(earlier[i] == square);
                }
            }
        }
        k += 1;
    }
    assert(squares.take(moves@.len() as int) =~= squares);
    grid
}

impl BoardPosition {
    /// The text that shows the position.
    pub fn to_string(&self) -> (text: String)
        ensures
            text@ == board_text(self.board, self.en_passante, Seq::empty()),
    {
        let grid: [[bool; 8]; 8] = [[false; 8]; 8];
        render(&self.board, &self.en_passante, &grid, Ghost(Seq::empty()))
    }

    /// The text that shows the position with the squares in green that the
    /// piece on `piece` can go to. Every successor that its legal moves lead
    /// to is put behind the successors found so far.
    pub fn display_with_moves(&mut self, piece: &CoordinateSet) -> (text: String)
        requires
            !piece.out_of_bounds(),
        ensures
            text@ == board_text(
                old(self).board,
                old(self).en_passante,
                destinations(*piece, legal_moves(old(self).board, old(self).en_passante, *piece)),
            ),
            final(self).extends(
                *old(self),
                piece_successors(
                    old(self).board,
                    old(self).en_passante,
                    *piece,
                    piece_at(old(self).board, piece.x as int, piece.y as int).catalogue().len(),
                ),
            ),
            old(self).well_formed() ==> final(self).well_formed(),
    {
        let moves: Vec<ChessMove> = self.get_legal_moves_piece(piece);
        let grid: [[bool; 8]; 8] = mark_destinations(piece, &moves);
        render(
            &self.board,
            &self.en_passante,
            &grid,
            Ghost(destinations(*piece, moves@)),
        )
    }
}

} // verus!
