//! Colours, piece kinds, coordinates, directions and the catalogue of
//! candidate moves of every piece kind.

use vstd::prelude::*;
use vstd::std_specs::ops::AddSpecImpl;
use vstd::std_specs::ops::MulSpecImpl;
use vstd::std_specs::ops::NotSpecImpl;

verus! {

/// The two sides of the game.
#[derive(Debug, PartialEq, Eq, Clone, Copy, Structural)]
pub enum PieceColor {
    White,
    Black,
}

impl PieceColor {
    /// The other side.
    pub open spec fn opponent(self) -> PieceColor {
        match self {
            PieceColor::White => PieceColor::Black,
            PieceColor::Black => PieceColor::White,
        }
    }
}

impl core::ops::Not for PieceColor {
    type Output = PieceColor;

    fn not(self) -> (other: PieceColor) {
        match self {
            PieceColor::White => PieceColor::Black,
            PieceColor::Black => PieceColor::White,
        }
    }
}

impl NotSpecImpl for PieceColor {
    open spec fn obeys_not_spec() -> bool {
        true
    }

    open spec fn not_req(self) -> bool {
        true
    }

    open spec fn not_spec(self) -> PieceColor {
        self.opponent()
    }
}

/// The side whose pieces start on the high ranks of the board and advance
/// towards rank 0.
pub const BOTTOM_SIDE: PieceColor = PieceColor::White;

/// The kind of a piece. Rooks and kings remember whether they have moved,
/// which castling depends on. `Empty` stands on every unused square.
#[derive(Debug, PartialEq, Eq, Clone, Copy, Structural)]
pub enum PieceType {
    Pawn,
    Knight,
    Bishop,
    Rook { has_moved: bool },
    King { has_moved: bool },
    Queen,
    Empty,
}

impl PieceType {
    /// The kinds a pawn may promote to, in the order in which the successor
    /// positions are produced.
    pub open spec fn promotions() -> Seq<PieceType> {
        seq![
            PieceType::Knight,
            PieceType::Bishop,
            PieceType::Rook { has_moved: true },
            PieceType::Queen,
        ]
    }

    pub fn to_promote() -> (kinds: [PieceType; 4])
        ensures
            kinds@ == PieceType::promotions(),
    {
        let kinds: [PieceType; 4] = [
            PieceType::Knight,
            PieceType::Bishop,
            PieceType::Rook { has_moved: true },
            PieceType::Queen,
        ];
        assert(kinds@ =~= PieceType::promotions());
        kinds
    }
}

/// A square of the board: file `x` and rank `y`, both in `0..=7` for a square
/// that exists.
#[derive(Debug, PartialEq, Eq, Clone, Copy, Structural)]
pub struct CoordinateSet {
    pub x: i32,
    pub y: i32,
}

/// An offset between two squares.
#[derive(Debug, PartialEq, Eq, Clone, Copy, Structural)]
pub struct Direction {
    pub x: i32,
    pub y: i32,
}

/// The lowest and the highest file and rank of the board.
pub const BOUNDS: (i32, i32) = (0, 7);

/// Whether file `x` and rank `y` name a square of the board.
pub open spec fn in_bounds(x: int, y: int) -> bool {
    0 <= x <= 7 && 0 <= y <= 7
}

impl CoordinateSet {
    pub fn new(x: i32, y: i32) -> (square: CoordinateSet)
        ensures
            square == (CoordinateSet { x, y }),
    {
        CoordinateSet { x, y }
    }

    pub open spec fn spec_out_of_bounds(&self) -> bool {
        !in_bounds(self.x as int, self.y as int)
    }

    #[verifier::when_used_as_spec(spec_out_of_bounds)]
    pub fn out_of_bounds(&self) -> (outside: bool)
        ensures
            outside == self.spec_out_of_bounds(),
    {
        self.x < BOUNDS.0 || self.x > BOUNDS.1 || self.y < BOUNDS.0 || self.y > BOUNDS.1
    }

    /// Whether both coordinates of the square that lies `direction` away from
    /// `self` fit in an `i32`.
    pub open spec fn offset_fits(self, direction: Direction) -> bool {
        &&& i32::MIN <= self.x + direction.x <= i32::MAX
        &&& i32::MIN <= self.y + direction.y <= i32::MAX
    }

    /// The square that lies `direction` away from `self`.
    pub open spec fn offset(self, direction: Direction) -> CoordinateSet {
        CoordinateSet { x: (self.x + direction.x) as i32, y: (self.y + direction.y) as i32 }
    }
}

impl core::ops::Add<Direction> for CoordinateSet {
    type Output = CoordinateSet;

    fn add(self, other: Direction) -> (square: CoordinateSet) {
        CoordinateSet { x: self.x + other.x, y: self.y + other.y }
    }
}

impl AddSpecImpl<Direction> for CoordinateSet {
    open spec fn obeys_add_spec() -> bool {
        true
    }

    open spec fn add_req(self, other: Direction) -> bool {
        self.offset_fits(other)
    }

    open spec fn add_spec(self, other: Direction) -> CoordinateSet {
        self.offset(other)
    }
}

impl Direction {
    /// Whether both components of `self` taken `count` times fit in an `i32`.
    pub open spec fn scaling_fits(self, count: i32) -> bool {
        &&& i32::MIN <= self.x * count <= i32::MAX
        &&& i32::MIN <= self.y * count <= i32::MAX
    }

    /// `self` taken `count` times.
    pub open spec fn scaled(self, count: i32) -> Direction {
        Direction { x: (self.x * count) as i32, y: (self.y * count) as i32 }
    }
}

impl core::ops::Mul<i32> for Direction {
    type Output = Direction;

    fn mul(self, rhs: i32) -> (direction: Direction) {
        Direction { x: self.x * rhs, y: self.y * rhs }
    }
}

impl MulSpecImpl<i32> for Direction {
    open spec fn obeys_mul_spec() -> bool {
        true
    }

    open spec fn mul_req(self, rhs: i32) -> bool {
        self.scaling_fits(rhs)
    }

    open spec fn mul_spec(self, rhs: i32) -> Direction {
        self.scaled(rhs)
    }
}

/// How a candidate move may be played.
#[derive(Debug, PartialEq, Eq, Clone, Copy, Structural)]
pub enum MoveType {
    /// One step, onto an empty square or onto an opposing piece.
    Standard,
    /// One step, onto an opposing piece only.
    CaptureOnly,
    /// One step, onto an empty square only.
    NoCapture,
    /// The two-square advance of a pawn that stands on its home rank.
    PawnFirst,
    /// The advance of a pawn onto its last rank.
    Promotion,
    /// The capture by a pawn onto its last rank.
    PromotionCapture,
    /// Any number of steps along the direction, up to the first occupied square.
    Repeat,
    /// The capture of a pawn that has just advanced two squares.
    EnPassante,
    /// The joint move of an unmoved king and an unmoved rook.
    Castle,
}

/// A candidate move: how it may be played, and where it leads.
#[derive(Debug, PartialEq, Eq, Clone, Copy, Structural)]
pub struct ChessMove(pub MoveType, pub Direction);

/// The candidate of kind `kind` that leads `x` files and `y` ranks away.
pub open spec fn candidate(kind: MoveType, x: int, y: int) -> ChessMove {
    ChessMove(kind, Direction { x: x as i32, y: y as i32 })
}

/// The eight directions of a knight's jump.
pub open spec fn knight_catalogue() -> Seq<ChessMove> {
    seq![
        candidate(MoveType::Standard, -1, 2),
        candidate(MoveType::Standard, 1, 2),
        candidate(MoveType::Standard, -1, -2),
        candidate(MoveType::Standard, 1, -2),
        candidate(MoveType::Standard, 2, -1),
        candidate(MoveType::Standard, 2, 1),
        candidate(MoveType::Standard, -2, -1),
        candidate(MoveType::Standard, -2, 1),
    ]
}

/// The four slides along the diagonals.
pub open spec fn bishop_catalogue() -> Seq<ChessMove> {
    seq![
        candidate(MoveType::Repeat, 1, 1),
        candidate(MoveType::Repeat, -1, 1),
        candidate(MoveType::Repeat, 1, -1),
        candidate(MoveType::Repeat, -1, -1),
    ]
}

/// The four slides along the files and ranks.
pub open spec fn rook_catalogue() -> Seq<ChessMove> {
    seq![
        candidate(MoveType::Repeat, 1, 0),
        candidate(MoveType::Repeat, -1, 0),
        candidate(MoveType::Repeat, 0, 1),
        candidate(MoveType::Repeat, 0, -1),
    ]
}

/// The single steps of a king, then its two castling moves: towards file 0
/// on the queen's side, towards file 7 on the king's side.
pub open spec fn king_catalogue() -> Seq<ChessMove> {
    seq![
        candidate(MoveType::Standard, 1, 0),
        candidate(MoveType::Standard, -1, 0),
        candidate(MoveType::Standard, 0, 1),
        candidate(MoveType::Standard, 0, -1),
        candidate(MoveType::Standard, 1, 1),
        candidate(MoveType::Standard, -1, 1),
        candidate(MoveType::Standard, 1, -1),
        candidate(MoveType::Standard, -1, -1),
        candidate(MoveType::Castle, -2, 0),
        candidate(MoveType::Castle, 2, 0),
    ]
}

/// The candidates of a pawn whose forward direction is `forward`.
pub open spec fn pawn_catalogue(forward: int) -> Seq<ChessMove> {
    seq![
        candidate(MoveType::NoCapture, 0, forward),
        candidate(MoveType::PawnFirst, 0, 2 * forward),
        candidate(MoveType::CaptureOnly, 1, forward),
        candidate(MoveType::CaptureOnly, -1, forward),
        candidate(MoveType::EnPassante, 1, forward),
        candidate(MoveType::EnPassante, -1, forward),
        candidate(MoveType::Promotion, 0, forward),
        candidate(MoveType::PromotionCapture, 1, forward),
        candidate(MoveType::PromotionCapture, -1, forward),
    ]
}

/// A colour and a kind. An empty square holds a piece of kind `Empty`.
#[derive(Debug, PartialEq, Eq, Clone, Copy, Structural)]
pub struct Piece {
    pub color: PieceColor,
    pub piece_type: PieceType,
}

impl Piece {
    pub fn new(color: PieceColor, piece_type: PieceType) -> (piece: Piece)
        ensures
            piece == (Piece { color, piece_type }),
    {
        Piece { color, piece_type }
    }

    /// The figurine that stands for the piece in a text rendering of the board.
    pub open spec fn glyph(self) -> char {
        match (self.color, self.piece_type) {
            (_, PieceType::Empty) => ' ',
            (PieceColor::White, PieceType::Pawn) => '\u{265F}',
            (PieceColor::White, PieceType::Knight) => '\u{265E}',
            (PieceColor::White, PieceType::Bishop) => '\u{265D}',
            (PieceColor::White, PieceType::Rook { .. }) => '\u{265C}',
            (PieceColor::White, PieceType::King { .. }) => '\u{265A}',
            (PieceColor::White, PieceType::Queen) => '\u{265B}',
            (PieceColor::Black, PieceType::Pawn) => '\u{2659}',
            (PieceColor::Black, PieceType::Knight) => '\u{2658}',
            (PieceColor::Black, PieceType::Bishop) => '\u{2657}',
            (PieceColor::Black, PieceType::Rook { .. }) => '\u{2656}',
            (PieceColor::Black, PieceType::King { .. }) => '\u{2654}',
            (PieceColor::Black, PieceType::Queen) => '\u{2655}',
        }
    }

    pub fn character(&self) -> (c: char)
        ensures
            c == self.glyph(),
    {
        match (self.color, self.piece_type) {
            (_, PieceType::Empty) => ' ',
            (PieceColor::White, PieceType::Pawn) => '\u{265F}',
            (PieceColor::White, PieceType::Knight) => '\u{265E}',
            (PieceColor::White, PieceType::Bishop) => '\u{265D}',
            (PieceColor::White, PieceType::Rook { .. }) => '\u{265C}',
            (PieceColor::White, PieceType::King { .. }) => '\u{265A}',
            (PieceColor::White, PieceType::Queen) => '\u{265B}',
            (PieceColor::Black, PieceType::Pawn) => '\u{2659}',
            (PieceColor::Black, PieceType::Knight) => '\u{2658}',
            (PieceColor::Black, PieceType::Bishop) => '\u{2657}',
            (PieceColor::Black, PieceType::Rook { .. }) => '\u{2656}',
            (PieceColor::Black, PieceType::King { .. }) => '\u{2654}',
            (PieceColor::Black, PieceType::Queen) => '\u{2655}',
        }
    }

    pub open spec fn spec_is_empty(&self) -> bool {
        self.piece_type == PieceType::Empty
    }

    #[verifier::when_used_as_spec(spec_is_empty)]
    pub fn is_empty(&self) -> (empty: bool)
        ensures
            empty == self.spec_is_empty(),
    {
        self.piece_type == PieceType::Empty
    }

    /// The change of rank of one step forward: towards rank 0 for the bottom
    /// side, away from it for the other.
    pub open spec fn spec_forward(&self) -> i32 {
        if self.color == BOTTOM_SIDE {
            -1i32
        } else {
            1i32
        }
    }

    #[verifier::when_used_as_spec(spec_forward)]
    pub fn forward(&self) -> (step: i32)
        ensures
            step == self.spec_forward(),
    {
        if self.color == BOTTOM_SIDE {
            -1
        } else {
            1
        }
    }

    /// The piece once it has been moved: a rook or a king that had not moved
    /// is marked, every other piece stays as it is.
    pub open spec fn moved(self) -> Piece {
        match self.piece_type {
            PieceType::King { has_moved: false } => Piece {
                color: self.color,
                piece_type: PieceType::King { has_moved: true },
            },
            PieceType::Rook { has_moved: false } => Piece {
                color: self.color,
                piece_type: PieceType::Rook { has_moved: true },
            },
            _ => self,
        }
    }

    pub fn set_moved(&mut self)
        ensures
            *final(self) == old(self).moved(),
    {
        self.piece_type = match self.piece_type {
            PieceType::King { has_moved: false } => PieceType::King { has_moved: true },
            PieceType::Rook { has_moved: false } => PieceType::Rook { has_moved: true },
            _ => self.piece_type,
        }
    }

    /// The candidate moves of the piece, in the order in which they are tried.
    /// A pawn's candidates point forward for its colour; an empty square has
    /// none.
    pub open spec fn catalogue(self) -> Seq<ChessMove> {
        match self.piece_type {
            PieceType::Pawn => pawn_catalogue(self.forward() as int),
            PieceType::Knight => knight_catalogue(),
            PieceType::Bishop => bishop_catalogue(),
            PieceType::Rook { .. } => rook_catalogue(),
            PieceType::Queen => rook_catalogue() + bishop_catalogue(),
            PieceType::King { .. } => king_catalogue(),
            PieceType::Empty => Seq::empty(),
        }
    }

    pub fn get_moves(&self) -> (moves: Vec<ChessMove>)
        ensures
            moves@ == self.catalogue(),
    {
        // Files grow towards the king's side, so -x leads to the queen's side.
        match &self.piece_type {
            PieceType::Pawn => {
                let forward: i32 = self.forward();
                vec![
                    ChessMove(MoveType::NoCapture, Direction { x: 0, y: forward }),
                    ChessMove(MoveType::PawnFirst, Direction { x: 0, y: 2 * forward }),
                    ChessMove(MoveType::CaptureOnly, Direction { x: 1, y: forward }),
                    ChessMove(MoveType::CaptureOnly, Direction { x: -1, y: forward }),
                    ChessMove(MoveType::EnPassante, Direction { x: 1, y: forward }),
                    ChessMove(MoveType::EnPassante, Direction { x: -1, y: forward }),
                    ChessMove(MoveType::Promotion, Direction { x: 0, y: forward }),
                    ChessMove(MoveType::PromotionCapture, Direction { x: 1, y: forward }),
                    ChessMove(MoveType::PromotionCapture, Direction { x: -1, y: forward }),
                ]
            },
            PieceType::Knight => vec![
                ChessMove(MoveType::Standard, Direction { x: -1, y: 2 }),
                ChessMove(MoveType::Standard, Direction { x: 1, y: 2 }),
                ChessMove(MoveType::Standard, Direction { x: -1, y: -2 }),
                ChessMove(MoveType::Standard, Direction { x: 1, y: -2 }),
                ChessMove(MoveType::Standard, Direction { y: -1, x: 2 }),
                ChessMove(MoveType::Standard, Direction { y: 1, x: 2 }),
                ChessMove(MoveType::Standard, Direction { y: -1, x: -2 }),
                ChessMove(MoveType::Standard, Direction { y: 1, x: -2 }),
            ],
            PieceType::Bishop => vec![
                ChessMove(MoveType::Repeat, Direction { x: 1, y: 1 }),
                ChessMove(MoveType::Repeat, Direction { x: -1, y: 1 }),
                ChessMove(MoveType::Repeat, Direction { x: 1, y: -1 }),
                ChessMove(MoveType::Repeat, Direction { x: -1, y: -1 }),
            ],
            PieceType::Rook { .. } => vec![
                ChessMove(MoveType::Repeat, Direction { x: 1, y: 0 }),
                ChessMove(MoveType::Repeat, Direction { x: -1, y: 0 }),
                ChessMove(MoveType::Repeat, Direction { x: 0, y: 1 }),
                ChessMove(MoveType::Repeat, Direction { x: 0, y: -1 }),
            ],
            PieceType::Queen => vec![
                ChessMove(MoveType::Repeat, Direction { x: 1, y: 0 }),
                ChessMove(MoveType::Repeat, Direction { x: -1, y: 0 }),
                ChessMove(MoveType::Repeat, Direction { x: 0, y: 1 }),
                ChessMove(MoveType::Repeat, Direction { x: 0, y: -1 }),
                ChessMove(MoveType::Repeat, Direction { x: 1, y: 1 }),
                ChessMove(MoveType::Repeat, Direction { x: -1, y: 1 }),
                ChessMove(MoveType::Repeat, Direction { x: 1, y: -1 }),
                ChessMove(MoveType::Repeat, Direction { x: -1, y: -1 }),
            ],
            PieceType::King { .. } => vec![
                ChessMove(MoveType::Standard, Direction { x: 1, y: 0 }),
                ChessMove(MoveType::Standard, Direction { x: -1, y: 0 }),
                ChessMove(MoveType::Standard, Direction { x: 0, y: 1 }),
                ChessMove(MoveType::Standard, Direction { x: 0, y: -1 }),
                ChessMove(MoveType::Standard, Direction { x: 1, y: 1 }),
                ChessMove(MoveType::Standard, Direction { x: -1, y: 1 }),
                ChessMove(MoveType::Standard, Direction { x: 1, y: -1 }),
                ChessMove(MoveType::Standard, Direction { x: -1, y: -1 }),
                ChessMove(MoveType::Castle, Direction { x: -2, y: 0 }),
                ChessMove(MoveType::Castle, Direction { x: 2, y: 0 }),
            ],
            PieceType::Empty => vec![],
        }
    }

    /// What the piece is worth in a count of material.
    pub open spec fn spec_point_value(&self) -> i32 {
        match self.piece_type {
            PieceType::Pawn => 1,
            PieceType::Knight => 3,
            PieceType::Bishop => 3,
            PieceType::Rook { .. } => 5,
            PieceType::Queen => 9,
            PieceType::King { .. } => 10000,
            PieceType::Empty => 0,
        }
    }

    #[verifier::when_used_as_spec(spec_point_value)]
    pub fn point_value(&self) -> (value: i32)
        ensures
            value == self.spec_point_value(),
    {
        match &self.piece_type {
            PieceType::Pawn => 1,
            PieceType::Knight => 3,
            PieceType::Bishop => 3,
            PieceType::Rook { .. } => 5,
            PieceType::Queen => 9,
            PieceType::King { .. } => 10000,
            PieceType::Empty => 0,
        }
    }

    /// The name of the picture of the piece; an empty square has none.
    pub open spec fn image_name(self) -> Seq<char> {
        match (self.color, self.piece_type) {
            (_, PieceType::Empty) => ""@,
            (PieceColor::White, PieceType::Pawn) => "wp.png"@,
            (PieceColor::White, PieceType::Knight) => "wn.png"@,
            (PieceColor::White, PieceType::Bishop) => "wb.png"@,
            (PieceColor::White, PieceType::Rook { .. }) => "wr.png"@,
            (PieceColor::White, PieceType::Queen) => "wq.png"@,
            (PieceColor::White, PieceType::King { .. }) => "wk.png"@,
            (PieceColor::Black, PieceType::Pawn) => "bp.png"@,
            (PieceColor::Black, PieceType::Knight) => "bn.png"@,
            (PieceColor::Black, PieceType::Bishop) => "bb.png"@,
            (PieceColor::Black, PieceType::Rook { .. }) => "br.png"@,
            (PieceColor::Black, PieceType::Queen) => "bq.png"@,
            (PieceColor::Black, PieceType::King { .. }) => "bk.png"@,
        }
    }

    pub fn image_file_name(&self) -> (name: String)
        ensures
            name@ == self.image_name(),
    {
        let name: &str = match (self.color, self.piece_type) {
            (_, PieceType::Empty) => "",
            (PieceColor::White, PieceType::Pawn) => "wp.png",
            (PieceColor::White, PieceType::Knight) => "wn.png",
            (PieceColor::White, PieceType::Bishop) => "wb.png",
            (PieceColor::White, PieceType::Rook { .. }) => "wr.png",
            (PieceColor::White, PieceType::Queen) => "wq.png",
            (PieceColor::White, PieceType::King { .. }) => "wk.png",
            (PieceColor::Black, PieceType::Pawn) => "bp.png",
            (PieceColor::Black, PieceType::Knight) => "bn.png",
            (PieceColor::Black, PieceType::Bishop) => "bb.png",
            (PieceColor::Black, PieceType::Rook { .. }) => "br.png",
            (PieceColor::Black, PieceType::Queen) => "bq.png",
            (PieceColor::Black, PieceType::King { .. }) => "bk.png",
        };
        name.to_owned()
    }
}

} // verus!
