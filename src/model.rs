//! Chess values: squares, colors, echelons, moves and transient state.
use vstd::prelude::*;

verus! {

/// A square of the chessboard, numbered a1 = 0, b1 = 1, ..., h8 = 63.
///
/// Files are the low three bits of the number and ranks the next three.
/// Only the low six bits of the stored byte are meaningful; every
/// constructor of the library stores a number below 64.
#[derive(Debug, Clone, Copy, PartialEq, Eq, Structural, Hash)]
pub struct Square(pub u8);

impl Square {
    /// The ordinal of the square, in `0..64`.
    pub open spec fn idx(self) -> int {
        self.0 as int % 64
    }

    /// The single-bit mask of this square.
    pub open spec fn bit_spec(self) -> u64 {
        1u64 << (self.0 % 64)
    }

    /// Use this square as an array index.
    pub fn ix(self) -> (r: usize)
        ensures
            r as int == self.idx(),
            r < 64,
    {
        let b: u8 = self.0;
        let v: u8 = b & 0x3F;
        assert(b & 0x3F == b % 64) by (bit_vector);
        v as usize
    }

    /// Conversion from a byte, keeping only its low six bits.
    pub fn from_u8(ix: u8) -> (r: Square)
        ensures
            r.0 < 64,
            r.0 as int == ix as int % 64,
            r.idx() == ix as int % 64,
    {
        assert(ix & 0x3F == ix % 64) by (bit_vector);
        Square(ix & 0x3F)
    }

    /// The mask with only this square's bit set.
    pub fn bit(self) -> (r: u64)
        ensures
            r == self.bit_spec(),
    {
        let i = self.ix();
        1u64 << (i as u64)
    }

    /// The rank of the square, 0 for the first rank up to 7 for the eighth.
    pub fn rank(self) -> (r: u8)
        ensures
            r as int == self.idx() / 8,
    {
        (self.ix() / 8) as u8
    }

    /// The file of the square, 0 for the a-file up to 7 for the h-file.
    pub fn file(self) -> (r: u8)
        ensures
            r as int == self.idx() % 8,
    {
        (self.ix() % 8) as u8
    }

    /// Mirror the chessboard north to south: the rank is reflected.
    pub fn mirror_ns(self) -> (r: Square)
        ensures
            r.0 < 64,
            r.idx() % 8 == self.idx() % 8,
            r.idx() / 8 == 7 - self.idx() / 8,
    {
        let i = self.ix() as u8;
        let v: u8 = i ^ 0x38;
        assert(i < 64 ==> (i ^ 0x38u8) < 64 && (i ^ 0x38u8) % 8 == i % 8 && (i ^ 0x38u8) / 8 == 7 - i / 8) by (bit_vector);
        Square(v)
    }

    /// Mirror the chessboard east to west: the file is reflected.
    pub fn mirror_ew(self) -> (r: Square)
        ensures
            r.0 < 64,
            r.idx() / 8 == self.idx() / 8,
            r.idx() % 8 == 7 - self.idx() % 8,
    {
        let i = self.ix() as u8;
        let v: u8 = i ^ 0x07;
        assert(i < 64 ==> (i ^ 0x07u8) < 64 && (i ^ 0x07u8) / 8 == i / 8 && (i ^ 0x07u8) % 8 == 7 - i % 8) by (bit_vector);
        Square(v)
    }

    /// Rotate the chessboard by 180 degrees.
    pub fn rotate(self) -> (r: Square)
        ensures
            r.0 < 64,
            r.idx() == 63 - self.idx(),
    {
        let i = self.ix() as u8;
        Square(63 - i)
    }
}

/// The ranks of the board, from the first to the eighth.
#[allow(non_camel_case_types)]
#[derive(Debug, Clone, Copy, PartialEq, Eq, Structural, Hash, PartialOrd, Ord)]
pub enum BoardRank {
    _1,
    _2,
    _3,
    _4,
    _5,
    _6,
    _7,
    _8,
}

impl BoardRank {
    pub open spec fn spec_n(self) -> int {
        match self {
            BoardRank::_1 => 0,
            BoardRank::_2 => 1,
            BoardRank::_3 => 2,
            BoardRank::_4 => 3,
            BoardRank::_5 => 4,
            BoardRank::_6 => 5,
            BoardRank::_7 => 6,
            BoardRank::_8 => 7,
        }
    }

    /// The offset of the rank's first square: eight times its number from 0.
    pub fn ix(self) -> (r: usize)
        ensures
            r == self.spec_n() * 8,
    {
        match self {
            BoardRank::_1 => 0,
            BoardRank::_2 => 8,
            BoardRank::_3 => 16,
            BoardRank::_4 => 24,
            BoardRank::_5 => 32,
            BoardRank::_6 => 40,
            BoardRank::_7 => 48,
            BoardRank::_8 => 56,
        }
    }

    /// Conversion from a byte, keeping only its low three bits.
    pub fn from_u8(ix: u8) -> (r: BoardRank)
        ensures
            r.spec_n() == ix as int % 8,
    {
        let v: u8 = ix % 8;
        if v == 0 {
            BoardRank::_1
        } else if v == 1 {
            BoardRank::_2
        } else if v == 2 {
            BoardRank::_3
        } else if v == 3 {
            BoardRank::_4
        } else if v == 4 {
            BoardRank::_5
        } else if v == 5 {
            BoardRank::_6
        } else if v == 6 {
            BoardRank::_7
        } else {
            BoardRank::_8
        }
    }
}

/// The files of the board, from the a-file to the h-file.
#[allow(non_camel_case_types)]
#[derive(Debug, Clone, Copy, PartialEq, Eq, Structural, Hash, PartialOrd, Ord)]
pub enum BoardFile {
    a_,
    b_,
    c_,
    d_,
    e_,
    f_,
    g_,
    h_,
}

impl BoardFile {
    pub open spec fn spec_n(self) -> int {
        match self {
            BoardFile::a_ => 0,
            BoardFile::b_ => 1,
            BoardFile::c_ => 2,
            BoardFile::d_ => 3,
            BoardFile::e_ => 4,
            BoardFile::f_ => 5,
            BoardFile::g_ => 6,
            BoardFile::h_ => 7,
        }
    }

    /// Use this file as an array index.
    pub fn ix(self) -> (r: usize)
        ensures
            r == self.spec_n() * 1,
    {
        match self {
            BoardFile::a_ => 0,
            BoardFile::b_ => 1,
            BoardFile::c_ => 2,
            BoardFile::d_ => 3,
            BoardFile::e_ => 4,
            BoardFile::f_ => 5,
            BoardFile::g_ => 6,
            BoardFile::h_ => 7,
        }
    }

    /// Conversion from a byte, keeping only its low three bits.
    pub fn from_u8(ix: u8) -> (r: BoardFile)
        ensures
            r.spec_n() == ix as int % 8,
    {
        let v: u8 = ix % 8;
        if v == 0 {
            BoardFile::a_
        } else if v == 1 {
            BoardFile::b_
        } else if v == 2 {
            BoardFile::c_
        } else if v == 3 {
            BoardFile::d_
        } else if v == 4 {
            BoardFile::e_
        } else if v == 5 {
            BoardFile::f_
        } else if v == 6 {
            BoardFile::g_
        } else {
            BoardFile::h_
        }
    }
}

impl Square {
    /// Split a square into file and rank.
    pub fn coords(self) -> (r: (BoardFile, BoardRank))
        ensures
            r.0.spec_n() == self.idx() % 8,
            r.1.spec_n() == self.idx() / 8,
    {
        let i = self.ix() as u8;
        (BoardFile::from_u8(i), BoardRank::from_u8(i / 8))
    }

    /// The square of a file and a rank.
    pub fn from_coords(f: BoardFile, r: BoardRank) -> (s: Square)
        ensures
            s.0 < 64,
            s.idx() == f.spec_n() + 8 * r.spec_n(),
    {
        let v = f.ix() + r.ix();
        Square::from_u8(v as u8)
    }
}

/// The color of a player or a chessman.
#[derive(Debug, Clone, Copy, PartialEq, Eq, Structural, Hash, PartialOrd, Ord)]
pub enum ChessColor {
    WHITE,
    BLACK,
}

impl ChessColor {
    pub open spec fn spec_ix(self) -> usize {
        match self {
            ChessColor::WHITE => 0,
            ChessColor::BLACK => 1,
        }
    }

    pub open spec fn spec_opp(self) -> ChessColor {
        match self {
            ChessColor::WHITE => ChessColor::BLACK,
            ChessColor::BLACK => ChessColor::WHITE,
        }
    }

    /// The opposing color.
    #[verifier::when_used_as_spec(spec_opp)]
    pub fn opp(self) -> (r: ChessColor)
        ensures
            r == self.spec_opp(),
    {
        match self {
            ChessColor::WHITE => ChessColor::BLACK,
            ChessColor::BLACK => ChessColor::WHITE,
        }
    }

    /// Arithmetic sign of the color: 1 for white, -1 for black.
    pub fn sign(self) -> (r: i8)
        ensures
            r == (if self == ChessColor::WHITE { 1i8 } else { -1i8 }),
    {
        match self {
            ChessColor::WHITE => 1,
            ChessColor::BLACK => -1,
        }
    }

    /// Associated array index: 0 for white, 1 for black.
    #[verifier::when_used_as_spec(spec_ix)]
    pub fn ix(self) -> (r: usize)
        ensures
            r == self.spec_ix(),
            r < 2,
    {
        match self {
            ChessColor::WHITE => 0,
            ChessColor::BLACK => 1,
        }
    }

    /// The color with a given index (0 white, 1 black).
    pub open spec fn from_ix(i: int) -> ChessColor {
        if i == 0 { ChessColor::WHITE } else { ChessColor::BLACK }
    }
}

/// The six echelons of chessmen.
#[derive(Debug, Clone, Copy, PartialEq, Eq, Structural, Hash, PartialOrd, Ord)]
pub enum ChessEchelon {
    PAWN,
    KNIGHT,
    BISHOP,
    ROOK,
    QUEEN,
    KING,
}

/// The echelons in index order.
pub const ECHELONS: [ChessEchelon; 6] = [
    ChessEchelon::PAWN,
    ChessEchelon::KNIGHT,
    ChessEchelon::BISHOP,
    ChessEchelon::ROOK,
    ChessEchelon::QUEEN,
    ChessEchelon::KING,
];

impl ChessEchelon {
    pub open spec fn spec_ix(self) -> usize {
        match self {
            ChessEchelon::PAWN => 0,
            ChessEchelon::KNIGHT => 1,
            ChessEchelon::BISHOP => 2,
            ChessEchelon::ROOK => 3,
            ChessEchelon::QUEEN => 4,
            ChessEchelon::KING => 5,
        }
    }

    /// The echelon with a given index in `0..6`.
    pub open spec fn from_ix(i: int) -> ChessEchelon {
        if i == 0 {
            ChessEchelon::PAWN
        } else if i == 1 {
            ChessEchelon::KNIGHT
        } else if i == 2 {
            ChessEchelon::BISHOP
        } else if i == 3 {
            ChessEchelon::ROOK
        } else if i == 4 {
            ChessEchelon::QUEEN
        } else {
            ChessEchelon::KING
        }
    }

    /// Use as an array index: pawn 0 up to king 5.
    #[verifier::when_used_as_spec(spec_ix)]
    pub fn ix(self) -> (r: usize)
        ensures
            r == self.spec_ix(),
            r < 6,
    {
        match self {
            ChessEchelon::PAWN => 0,
            ChessEchelon::KNIGHT => 1,
            ChessEchelon::BISHOP => 2,
            ChessEchelon::ROOK => 3,
            ChessEchelon::QUEEN => 4,
            ChessEchelon::KING => 5,
        }
    }

    /// The echelon at an index in `0..6`.
    pub fn at(i: usize) -> (r: ChessEchelon)
        requires
            i < 6,
        ensures
            r == ChessEchelon::from_ix(i as int),
            r.spec_ix() == i,
    {
        ECHELONS[i]
    }
}

/// A chessman: an echelon together with a color.
#[allow(non_camel_case_types)]
#[derive(Debug, Clone, Copy, PartialEq, Eq, Structural, Hash)]
pub enum ChessMan {
    BLACK_KING,
    BLACK_QUEEN,
    BLACK_ROOK,
    BLACK_BISHOP,
    BLACK_KNIGHT,
    BLACK_PAWN,
    WHITE_PAWN,
    WHITE_KNIGHT,
    WHITE_BISHOP,
    WHITE_ROOK,
    WHITE_QUEEN,
    WHITE_KING,
}

impl ChessMan {
    pub open spec fn spec_ech(self) -> ChessEchelon {
        match self {
            ChessMan::BLACK_KING | ChessMan::WHITE_KING => ChessEchelon::KING,
            ChessMan::BLACK_QUEEN | ChessMan::WHITE_QUEEN => ChessEchelon::QUEEN,
            ChessMan::BLACK_ROOK | ChessMan::WHITE_ROOK => ChessEchelon::ROOK,
            ChessMan::BLACK_BISHOP | ChessMan::WHITE_BISHOP => ChessEchelon::BISHOP,
            ChessMan::BLACK_KNIGHT | ChessMan::WHITE_KNIGHT => ChessEchelon::KNIGHT,
            ChessMan::BLACK_PAWN | ChessMan::WHITE_PAWN => ChessEchelon::PAWN,
        }
    }

    pub open spec fn spec_col(self) -> ChessColor {
        match self {
            ChessMan::BLACK_KING | ChessMan::BLACK_QUEEN | ChessMan::BLACK_ROOK
            | ChessMan::BLACK_BISHOP | ChessMan::BLACK_KNIGHT | ChessMan::BLACK_PAWN => {
                ChessColor::BLACK
            },
            _ => ChessColor::WHITE,
        }
    }

    /// The colorless echelon of the chessman.
    #[verifier::when_used_as_spec(spec_ech)]
    pub fn ech(self) -> (r: ChessEchelon)
        ensures
            r == self.spec_ech(),
    {
        ChessEchelon::from(self)
    }

    /// The color of the chessman.
    #[verifier::when_used_as_spec(spec_col)]
    pub fn col(self) -> (r: ChessColor)
        ensures
            r == self.spec_col(),
    {
        ChessColor::from(self)
    }

    /// The chessman of a given color and echelon.
    pub fn new(color: ChessColor, ech: ChessEchelon) -> (r: ChessMan)
        ensures
            r.spec_col() == color,
            r.spec_ech() == ech,
    {
        match (color, ech) {
            (ChessColor::WHITE, ChessEchelon::PAWN) => ChessMan::WHITE_PAWN,
            (ChessColor::WHITE, ChessEchelon::KNIGHT) => ChessMan::WHITE_KNIGHT,
            (ChessColor::WHITE, ChessEchelon::BISHOP) => ChessMan::WHITE_BISHOP,
            (ChessColor::WHITE, ChessEchelon::ROOK) => ChessMan::WHITE_ROOK,
            (ChessColor::WHITE, ChessEchelon::QUEEN) => ChessMan::WHITE_QUEEN,
            (ChessColor::WHITE, ChessEchelon::KING) => ChessMan::WHITE_KING,
            (ChessColor::BLACK, ChessEchelon::PAWN) => ChessMan::BLACK_PAWN,
            (ChessColor::BLACK, ChessEchelon::KNIGHT) => ChessMan::BLACK_KNIGHT,
            (ChessColor::BLACK, ChessEchelon::BISHOP) => ChessMan::BLACK_BISHOP,
            (ChessColor::BLACK, ChessEchelon::ROOK) => ChessMan::BLACK_ROOK,
            (ChessColor::BLACK, ChessEchelon::QUEEN) => ChessMan::BLACK_QUEEN,
            (ChessColor::BLACK, ChessEchelon::KING) => ChessMan::BLACK_KING,
        }
    }
}

/// Extracting the color of a chessman.
impl From<ChessMan> for ChessColor {
    fn from(value: ChessMan) -> (r: ChessColor) {
        match value {
            ChessMan::BLACK_KING | ChessMan::BLACK_QUEEN | ChessMan::BLACK_ROOK
            | ChessMan::BLACK_BISHOP | ChessMan::BLACK_KNIGHT | ChessMan::BLACK_PAWN => {
                ChessColor::BLACK
            },
            _ => ChessColor::WHITE,
        }
    }
}

impl vstd::std_specs::convert::FromSpecImpl<ChessMan> for ChessColor {
    open spec fn obeys_from_spec() -> bool {
        true
    }

    open spec fn from_spec(v: ChessMan) -> ChessColor {
        v.spec_col()
    }
}

/// Extracting the echelon of a chessman.
impl From<ChessMan> for ChessEchelon {
    fn from(value: ChessMan) -> (r: ChessEchelon) {
        match value {
            ChessMan::BLACK_KING | ChessMan::WHITE_KING => ChessEchelon::KING,
            ChessMan::BLACK_QUEEN | ChessMan::WHITE_QUEEN => ChessEchelon::QUEEN,
            ChessMan::BLACK_ROOK | ChessMan::WHITE_ROOK => ChessEchelon::ROOK,
            ChessMan::BLACK_BISHOP | ChessMan::WHITE_BISHOP => ChessEchelon::BISHOP,
            ChessMan::BLACK_KNIGHT | ChessMan::WHITE_KNIGHT => ChessEchelon::KNIGHT,
            ChessMan::BLACK_PAWN | ChessMan::WHITE_PAWN => ChessEchelon::PAWN,
        }
    }
}

impl vstd::std_specs::convert::FromSpecImpl<ChessMan> for ChessEchelon {
    open spec fn obeys_from_spec() -> bool {
        true
    }

    open spec fn from_spec(v: ChessMan) -> ChessEchelon {
        v.spec_ech()
    }
}

/// The pawn echelon alone.
#[derive(Debug, Clone, Copy, PartialEq, Eq, Structural, Hash, PartialOrd, Ord)]
pub enum ChessPawn {
    PAWN,
}

impl ChessPawn {
    /// See [`ChessEchelon::ix`].
    pub fn ix(self) -> (r: usize)
        ensures
            r == 0,
    {
        0
    }

    /// The pawn, where the special move is the pawn special.
    pub fn from_special(special: Option<SpecialMove>) -> (r: Option<ChessPawn>)
        ensures
            r.is_some() <==> special == Some(SpecialMove::PAWN),
    {
        match special {
            Some(SpecialMove::PAWN) => Some(ChessPawn::PAWN),
            _ => None,
        }
    }
}

/// The piece echelons: every echelon but the pawn.
#[derive(Debug, Clone, Copy, PartialEq, Eq, Structural, Hash, PartialOrd, Ord)]
pub enum ChessPiece {
    KNIGHT,
    BISHOP,
    ROOK,
    QUEEN,
    KING,
}

impl ChessPiece {
    pub open spec fn spec_ech(self) -> ChessEchelon {
        match self {
            ChessPiece::KNIGHT => ChessEchelon::KNIGHT,
            ChessPiece::BISHOP => ChessEchelon::BISHOP,
            ChessPiece::ROOK => ChessEchelon::ROOK,
            ChessPiece::QUEEN => ChessEchelon::QUEEN,
            ChessPiece::KING => ChessEchelon::KING,
        }
    }

    /// See [`ChessEchelon::ix`].
    pub fn ix(self) -> (r: usize)
        ensures
            r == self.spec_ech().spec_ix(),
    {
        match self {
            ChessPiece::KNIGHT => 1,
            ChessPiece::BISHOP => 2,
            ChessPiece::ROOK => 3,
            ChessPiece::QUEEN => 4,
            ChessPiece::KING => 5,
        }
    }
}

/// The commoner echelons: every echelon but the king.
#[derive(Debug, Clone, Copy, PartialEq, Eq, Structural, Hash, PartialOrd, Ord)]
pub enum ChessCommoner {
    PAWN,
    KNIGHT,
    BISHOP,
    ROOK,
    QUEEN,
}

impl ChessCommoner {
    pub open spec fn spec_ech(self) -> ChessEchelon {
        match self {
            ChessCommoner::PAWN => ChessEchelon::PAWN,
            ChessCommoner::KNIGHT => ChessEchelon::KNIGHT,
            ChessCommoner::BISHOP => ChessEchelon::BISHOP,
            ChessCommoner::ROOK => ChessEchelon::ROOK,
            ChessCommoner::QUEEN => ChessEchelon::QUEEN,
        }
    }

    /// See [`ChessEchelon::ix`].
    pub fn ix(self) -> (r: usize)
        ensures
            r == self.spec_ech().spec_ix(),
    {
        match self {
            ChessCommoner::PAWN => 0,
            ChessCommoner::KNIGHT => 1,
            ChessCommoner::BISHOP => 2,
            ChessCommoner::ROOK => 3,
            ChessCommoner::QUEEN => 4,
        }
    }

    /// The commoner of an echelon, or `None` for the king.
    pub fn from_echelon(ech: ChessEchelon) -> (r: Option<ChessCommoner>)
        ensures
            ech == ChessEchelon::KING <==> r.is_none(),
            r.is_some() ==> r.unwrap().spec_ech() == ech,
    {
        match ech {
            ChessEchelon::PAWN => Some(ChessCommoner::PAWN),
            ChessEchelon::KNIGHT => Some(ChessCommoner::KNIGHT),
            ChessEchelon::BISHOP => Some(ChessCommoner::BISHOP),
            ChessEchelon::ROOK => Some(ChessCommoner::ROOK),
            ChessEchelon::QUEEN => Some(ChessCommoner::QUEEN),
            ChessEchelon::KING => None,
        }
    }
}

impl ChessCommoner {
    /// The commoner of a piece echelon, or `None` for the king.
    pub fn from_piece(ech: ChessPiece) -> (r: Option<ChessCommoner>)
        ensures
            ech == ChessPiece::KING <==> r.is_none(),
            r.is_some() ==> r.unwrap().spec_ech() == ech.spec_ech(),
    {
        match ech {
            ChessPiece::KNIGHT => Some(ChessCommoner::KNIGHT),
            ChessPiece::BISHOP => Some(ChessCommoner::BISHOP),
            ChessPiece::ROOK => Some(ChessCommoner::ROOK),
            ChessPiece::QUEEN => Some(ChessCommoner::QUEEN),
            ChessPiece::KING => None,
        }
    }
}

/// A ply: the turn number and the side to move. The turn number starts
/// at 1 and grows after black has moved.
#[derive(Debug, Clone, Copy, PartialEq, Eq, Structural, Hash)]
pub struct Ply(pub u16, pub ChessColor);

impl Ply {
    /// The next ply.
    pub fn next(self) -> (r: Ply)
        ensures
            r.1 == self.1.spec_opp(),
            r.0 == (if self.1 == ChessColor::BLACK { self.0.wrapping_add(1) } else { self.0 }),
    {
        match self.1 {
            ChessColor::BLACK => Ply(self.0.wrapping_add(1), ChessColor::WHITE),
            ChessColor::WHITE => Ply(self.0, ChessColor::BLACK),
        }
    }

    /// The previous ply.
    pub fn prev(self) -> (r: Ply)
        ensures
            r.1 == self.1.spec_opp(),
            r.0 == (if self.1 == ChessColor::WHITE { self.0.wrapping_sub(1) } else { self.0 }),
    {
        match self.1 {
            ChessColor::WHITE => Ply(self.0.wrapping_sub(1), ChessColor::BLACK),
            ChessColor::BLACK => Ply(self.0, ChessColor::WHITE),
        }
    }
}

/// The echelons a pawn may promote to.
#[derive(Debug, Clone, Copy, PartialEq, Eq, Structural, Hash, PartialOrd, Ord)]
pub enum PawnPromotion {
    KNIGHT,
    BISHOP,
    ROOK,
    QUEEN,
}

impl PawnPromotion {
    pub open spec fn spec_ech(self) -> ChessEchelon {
        match self {
            PawnPromotion::KNIGHT => ChessEchelon::KNIGHT,
            PawnPromotion::BISHOP => ChessEchelon::BISHOP,
            PawnPromotion::ROOK => ChessEchelon::ROOK,
            PawnPromotion::QUEEN => ChessEchelon::QUEEN,
        }
    }

    pub open spec fn spec_from_special(special: Option<SpecialMove>) -> Option<PawnPromotion> {
        match special {
            Some(SpecialMove::KNIGHT) => Some(PawnPromotion::KNIGHT),
            Some(SpecialMove::BISHOP) => Some(PawnPromotion::BISHOP),
            Some(SpecialMove::ROOK) => Some(PawnPromotion::ROOK),
            Some(SpecialMove::QUEEN) => Some(PawnPromotion::QUEEN),
            _ => None,
        }
    }

    /// See [`ChessEchelon::ix`].
    pub fn ix(self) -> (r: usize)
        ensures
            r == self.spec_ech().spec_ix(),
    {
        match self {
            PawnPromotion::KNIGHT => 1,
            PawnPromotion::BISHOP => 2,
            PawnPromotion::ROOK => 3,
            PawnPromotion::QUEEN => 4,
        }
    }

    /// The promotion that a special move asks for, if any.
    #[verifier::when_used_as_spec(spec_from_special)]
    pub fn from_special(special: Option<SpecialMove>) -> (r: Option<PawnPromotion>)
        ensures
            r == PawnPromotion::spec_from_special(special),
    {
        match special {
            Some(SpecialMove::KNIGHT) => Some(PawnPromotion::KNIGHT),
            Some(SpecialMove::BISHOP) => Some(PawnPromotion::BISHOP),
            Some(SpecialMove::ROOK) => Some(PawnPromotion::ROOK),
            Some(SpecialMove::QUEEN) => Some(PawnPromotion::QUEEN),
            _ => None,
        }
    }
}

/// Subset inclusion.
impl From<ChessPiece> for ChessEchelon {
    fn from(value: ChessPiece) -> (r: ChessEchelon) {
        match value {
            ChessPiece::KNIGHT => ChessEchelon::KNIGHT,
            ChessPiece::BISHOP => ChessEchelon::BISHOP,
            ChessPiece::ROOK => ChessEchelon::ROOK,
            ChessPiece::QUEEN => ChessEchelon::QUEEN,
            ChessPiece::KING => ChessEchelon::KING,
        }
    }
}

impl vstd::std_specs::convert::FromSpecImpl<ChessPiece> for ChessEchelon {
    open spec fn obeys_from_spec() -> bool {
        true
    }

    open spec fn from_spec(v: ChessPiece) -> ChessEchelon {
        v.spec_ech()
    }
}

/// Subset inclusion.
impl From<ChessPawn> for ChessEchelon {
    fn from(value: ChessPawn) -> (r: ChessEchelon) {
        ChessEchelon::PAWN
    }
}

impl vstd::std_specs::convert::FromSpecImpl<ChessPawn> for ChessEchelon {
    open spec fn obeys_from_spec() -> bool {
        true
    }

    open spec fn from_spec(v: ChessPawn) -> ChessEchelon {
        ChessEchelon::PAWN
    }
}

/// Subset inclusion.
impl From<PawnPromotion> for ChessEchelon {
    fn from(value: PawnPromotion) -> (r: ChessEchelon) {
        match value {
            PawnPromotion::KNIGHT => ChessEchelon::KNIGHT,
            PawnPromotion::BISHOP => ChessEchelon::BISHOP,
            PawnPromotion::ROOK => ChessEchelon::ROOK,
            PawnPromotion::QUEEN => ChessEchelon::QUEEN,
        }
    }
}

impl vstd::std_specs::convert::FromSpecImpl<PawnPromotion> for ChessEchelon {
    open spec fn obeys_from_spec() -> bool {
        true
    }

    open spec fn from_spec(v: PawnPromotion) -> ChessEchelon {
        v.spec_ech()
    }
}

/// Subset inclusion.
impl From<ChessCommoner> for ChessEchelon {
    fn from(value: ChessCommoner) -> (r: ChessEchelon) {
        match value {
            ChessCommoner::PAWN => ChessEchelon::PAWN,
            ChessCommoner::KNIGHT => ChessEchelon::KNIGHT,
            ChessCommoner::BISHOP => ChessEchelon::BISHOP,
            ChessCommoner::ROOK => ChessEchelon::ROOK,
            ChessCommoner::QUEEN => ChessEchelon::QUEEN,
        }
    }
}

impl vstd::std_specs::convert::FromSpecImpl<ChessCommoner> for ChessEchelon {
    open spec fn obeys_from_spec() -> bool {
        true
    }

    open spec fn from_spec(v: ChessCommoner) -> ChessEchelon {
        v.spec_ech()
    }
}

/// The eight directions of the board, as steps of the square number.
///
/// East is toward the a-file and west toward the h-file, as seen from
/// the white side.
#[derive(Debug, Clone, Copy, PartialEq, Eq, Structural, Hash)]
pub enum CompassRose {
    NORTH,
    WEST,
    EAST,
    SOUTH,
    NORTHWEST,
    NORTHEAST,
    SOUTHWEST,
    SOUTHEAST,
}

impl CompassRose {
    pub open spec fn spec_offset(self) -> i8 {
        match self {
            CompassRose::NORTH => 8i8,
            CompassRose::WEST => 1i8,
            CompassRose::EAST => -1i8,
            CompassRose::SOUTH => -8i8,
            CompassRose::NORTHWEST => 9i8,
            CompassRose::NORTHEAST => 7i8,
            CompassRose::SOUTHWEST => -7i8,
            CompassRose::SOUTHEAST => -9i8,
        }
    }

    /// The change of square number of one step in this direction.
    pub fn offset(self) -> (r: i8)
        ensures
            r == self.spec_offset(),
    {
        match self {
            CompassRose::NORTH => 8,
            CompassRose::WEST => 1,
            CompassRose::EAST => -1,
            CompassRose::SOUTH => -8,
            CompassRose::NORTHWEST => 9,
            CompassRose::NORTHEAST => 7,
            CompassRose::SOUTHWEST => -7,
            CompassRose::SOUTHEAST => -9,
        }
    }
}

/// The two directions of castling.
///
/// East is the long castle, toward the queen side; west the short one.
#[derive(Debug, Clone, Copy, PartialEq, Eq, Structural, Hash)]
pub enum CastlingDirection {
    EAST,
    WEST,
}

impl CastlingDirection {
    pub open spec fn spec_ix(self) -> usize {
        match self {
            CastlingDirection::EAST => 0,
            CastlingDirection::WEST => 1,
        }
    }

    pub open spec fn spec_from_special(special: Option<SpecialMove>) -> Option<CastlingDirection> {
        match special {
            Some(SpecialMove::EAST) => Some(CastlingDirection::EAST),
            Some(SpecialMove::WEST) => Some(CastlingDirection::WEST),
            _ => None,
        }
    }

    /// Use as an array index: east 0, west 1.
    #[verifier::when_used_as_spec(spec_ix)]
    pub fn ix(self) -> (r: usize)
        ensures
            r == self.spec_ix(),
            r < 2,
    {
        match self {
            CastlingDirection::EAST => 0,
            CastlingDirection::WEST => 1,
        }
    }

    /// The castling direction that a special move asks for, if any.
    #[verifier::when_used_as_spec(spec_from_special)]
    pub fn from_special(special: Option<SpecialMove>) -> (r: Option<CastlingDirection>)
        ensures
            r == CastlingDirection::spec_from_special(special),
    {
        match special {
            Some(SpecialMove::EAST) => Some(CastlingDirection::EAST),
            Some(SpecialMove::WEST) => Some(CastlingDirection::WEST),
            _ => None,
        }
    }
}

/// Subset inclusion, with mapping.
impl From<CastlingDirection> for CompassRose {
    fn from(value: CastlingDirection) -> (r: CompassRose) {
        match value {
            CastlingDirection::EAST => CompassRose::EAST,
            CastlingDirection::WEST => CompassRose::WEST,
        }
    }
}

impl vstd::std_specs::convert::FromSpecImpl<CastlingDirection> for CompassRose {
    open spec fn obeys_from_spec() -> bool {
        true
    }

    open spec fn from_spec(v: CastlingDirection) -> CompassRose {
        match v {
            CastlingDirection::EAST => CompassRose::EAST,
            CastlingDirection::WEST => CompassRose::WEST,
        }
    }
}

/// The special moves: a pawn's double push or en-passant capture, the
/// four promotions, and the two castlings.
#[derive(Debug, Clone, Copy, PartialEq, Eq, Structural, Hash)]
pub enum SpecialMove {
    PAWN,
    KNIGHT,
    BISHOP,
    ROOK,
    QUEEN,
    EAST,
    WEST,
}

/// Subset inclusion.
impl From<ChessPawn> for SpecialMove {
    fn from(value: ChessPawn) -> (r: SpecialMove) {
        SpecialMove::PAWN
    }
}

impl vstd::std_specs::convert::FromSpecImpl<ChessPawn> for SpecialMove {
    open spec fn obeys_from_spec() -> bool {
        true
    }

    open spec fn from_spec(v: ChessPawn) -> SpecialMove {
        SpecialMove::PAWN
    }
}

/// Subset inclusion.
impl From<PawnPromotion> for SpecialMove {
    fn from(value: PawnPromotion) -> (r: SpecialMove) {
        match value {
            PawnPromotion::KNIGHT => SpecialMove::KNIGHT,
            PawnPromotion::BISHOP => SpecialMove::BISHOP,
            PawnPromotion::ROOK => SpecialMove::ROOK,
            PawnPromotion::QUEEN => SpecialMove::QUEEN,
        }
    }
}

impl vstd::std_specs::convert::FromSpecImpl<PawnPromotion> for SpecialMove {
    open spec fn obeys_from_spec() -> bool {
        true
    }

    open spec fn from_spec(v: PawnPromotion) -> SpecialMove {
        match v {
            PawnPromotion::KNIGHT => SpecialMove::KNIGHT,
            PawnPromotion::BISHOP => SpecialMove::BISHOP,
            PawnPromotion::ROOK => SpecialMove::ROOK,
            PawnPromotion::QUEEN => SpecialMove::QUEEN,
        }
    }
}

/// Subset inclusion, with mapping.
impl From<CastlingDirection> for SpecialMove {
    fn from(value: CastlingDirection) -> (r: SpecialMove) {
        match value {
            CastlingDirection::EAST => SpecialMove::EAST,
            CastlingDirection::WEST => SpecialMove::WEST,
        }
    }
}

impl vstd::std_specs::convert::FromSpecImpl<CastlingDirection> for SpecialMove {
    open spec fn obeys_from_spec() -> bool {
        true
    }

    open spec fn from_spec(v: CastlingDirection) -> SpecialMove {
        match v {
            CastlingDirection::EAST => SpecialMove::EAST,
            CastlingDirection::WEST => SpecialMove::WEST,
        }
    }
}

/// Subset inclusion.
impl From<ChessCommoner> for SpecialMove {
    fn from(value: ChessCommoner) -> (r: SpecialMove) {
        match value {
            ChessCommoner::PAWN => SpecialMove::PAWN,
            ChessCommoner::KNIGHT => SpecialMove::KNIGHT,
            ChessCommoner::BISHOP => SpecialMove::BISHOP,
            ChessCommoner::ROOK => SpecialMove::ROOK,
            ChessCommoner::QUEEN => SpecialMove::QUEEN,
        }
    }
}

impl vstd::std_specs::convert::FromSpecImpl<ChessCommoner> for SpecialMove {
    open spec fn obeys_from_spec() -> bool {
        true
    }

    open spec fn from_spec(v: ChessCommoner) -> SpecialMove {
        match v {
            ChessCommoner::PAWN => SpecialMove::PAWN,
            ChessCommoner::KNIGHT => SpecialMove::KNIGHT,
            ChessCommoner::BISHOP => SpecialMove::BISHOP,
            ChessCommoner::ROOK => SpecialMove::ROOK,
            ChessCommoner::QUEEN => SpecialMove::QUEEN,
        }
    }
}

/// A move that has not been checked to leave the mover's king safe.
#[derive(Debug, Clone, Copy, PartialEq, Eq, Structural, Hash)]
pub struct PseudoLegal(pub BitMove);

/// A move that passed the legality filter for the position it was made for.
#[derive(Debug, Clone, Copy, PartialEq, Eq, Structural, Hash)]
pub struct LegalMove(pub BitMove);

/// A move on the chessboard, in a 'fat' representation.
#[derive(Debug, Clone, Copy, PartialEq, Eq, Structural, Hash)]
pub struct BitMove {
    pub from: Square,
    pub to: Square,
    pub ech: ChessEchelon,
    pub special: Option<SpecialMove>,
    pub capture: Option<ChessCommoner>,
}

impl BitMove {
    /// The shape that every generated move has.
    pub open spec fn is_sane(self) -> bool {
        &&& self.from.idx() != self.to.idx()
        &&& CastlingDirection::spec_from_special(self.special).is_some() ==> {
            &&& self.ech == ChessEchelon::KING
            &&& self.capture.is_none()
            &&& self.from.idx() / 8 == self.to.idx() / 8
        }
        &&& self.special == Some(SpecialMove::PAWN) ==> {
            &&& self.ech == ChessEchelon::PAWN
            &&& self.capture.is_some() ==> self.capture == Some(ChessCommoner::PAWN)
            &&& self.capture.is_none() ==> (self.from.idx() - self.to.idx() == 16
                || self.to.idx() - self.from.idx() == 16)
        }
        &&& PawnPromotion::spec_from_special(self.special).is_some() ==> self.ech
            == ChessEchelon::PAWN
    }

    /// Checks the shape that every generated move has: distinct squares; a
    /// castling is a king move on one rank without capture; a pawn special
    /// is a pawn move that captures a pawn or goes two squares; a
    /// promotion is a pawn move.
    pub fn sanity_check(self) -> (r: bool)
        ensures
            r == self.is_sane(),
    {
        let from = self.from.ix();
        let to = self.to.ix();
        if from == to {
            return false;
        }
        if CastlingDirection::from_special(self.special).is_some() {
            if self.ech != ChessEchelon::KING || self.capture.is_some() || from / 8 != to / 8 {
                return false;
            }
        }
        if ChessPawn::from_special(self.special).is_some() {
            if self.ech != ChessEchelon::PAWN {
                return false;
            }
            match self.capture {
                Some(ChessCommoner::PAWN) => {},
                Some(_) => {
                    return false;
                },
                None => {
                    if from + 16 != to && to + 16 != from {
                        return false;
                    }
                },
            }
        }
        if PawnPromotion::from_special(self.special).is_some() && self.ech != ChessEchelon::PAWN {
            return false;
        }
        true
    }
}

/// The transient state of a position: destroyed by some moves, and not
/// visible from the placement of the chessmen.
#[derive(Debug, Clone, Copy, PartialEq, Eq)]
pub struct Transients {
    /// En-passant capture information.
    pub en_passant: Option<EnPassant>,
    /// Number of half-moves since the last capture or pawn move.
    pub halfmove_clock: u8,
    /// Castling rights, indexed first by color then by direction.
    pub rights: [[bool; 2]; 2],
}

impl Transients {
    /// The transients of the start position: every castling right held.
    pub fn startpos() -> (r: Transients)
        ensures
            r.en_passant.is_none(),
            r.halfmove_clock == 0,
            forall|c: int, d: int| 0 <= c < 2 && 0 <= d < 2 ==> r.rights@[c]@[d],
    {
        Transients { en_passant: None, halfmove_clock: 0, rights: [[true, true], [true, true]] }
    }

    /// The transients of an empty board: no castling right.
    pub fn empty() -> (r: Transients)
        ensures
            r.en_passant.is_none(),
            r.halfmove_clock == 0,
            forall|c: int, d: int| 0 <= c < 2 && 0 <= d < 2 ==> !r.rights@[c]@[d],
    {
        Transients { en_passant: None, halfmove_clock: 0, rights: [[false, false], [false, false]] }
    }
}

/// The en-passant state after a double push.
#[derive(Debug, Clone, Copy, PartialEq, Eq, Structural)]
pub struct EnPassant {
    /// The square passed over, where the capturing pawn lands.
    pub square: Square,
    /// The square of the pawn that may be captured.
    pub capture: Square,
}

impl EnPassant {
    /// The bit and the square of the en-passant target, if there is one.
    pub fn bit_sq(this: Option<EnPassant>) -> (r: (u64, Option<Square>))
        ensures
            this.is_none() ==> r == (0u64, None::<Square>),
            this.is_some() ==> r == (this.unwrap().square.bit_spec(), Some(this.unwrap().square)),
    {
        match this {
            Some(ep) => (ep.square.bit(), Some(ep.square)),
            None => (0, None),
        }
    }
}

} // verus!
