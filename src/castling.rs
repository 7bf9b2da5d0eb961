//! Castling rules as data, so that Chess960-like layouts can be described.
use vstd::prelude::*;
use crate::model::Square;

verus! {

/// The squares and masks of castling, indexed by color and by direction
/// (east, the long castle toward the a-file, is index 0; west is 1).
///
/// The move masks are given on both back ranks; a user masks them with the
/// back rank of the castling side.
#[derive(Debug, Clone, Copy)]
pub struct CastlingRules {
    /// Starting squares of the rooks.
    pub rook_start: [[Square; 2]; 2],
    /// Ending squares of the rooks.
    pub rook_end: [[Square; 2]; 2],
    /// Starting square of each king.
    pub king_start: [Square; 2],
    /// Ending squares of the kings.
    pub king_end: [[Square; 2]; 2],
    /// The rook's from and to squares of each castling, on both back ranks.
    pub rook_move: [u64; 2],
    /// The king's from and to squares of each castling, on both back ranks.
    pub king_move: [u64; 2],
    /// Squares that must not be attacked: the king's start, path and end.
    pub safety: [u64; 2],
    /// Squares that must be empty between king and rook.
    pub space: [u64; 2],
    /// The back rank of each color.
    pub back_rank: [u64; 2],
}

impl CastlingRules {
    /// The move masks agree with the squares: on each color's back rank,
    /// the king's mask holds its start and end squares, and the rook's mask
    /// its start and end squares; the king moves along its rank.
    pub open spec fn wf(&self) -> bool {
        forall|c: int, d: int|
            0 <= c < 2 && 0 <= d < 2 ==> {
                &&& self.king_move@[d] & self.back_rank@[c] == self.king_start@[c].bit_spec()
                    | (#[trigger] self.king_end@[c]@[d]).bit_spec()
                &&& self.rook_move@[d] & self.back_rank@[c] == self.rook_start@[c]@[d].bit_spec()
                    | self.rook_end@[c]@[d].bit_spec()
                &&& self.king_start@[c].idx() / 8 == self.king_end@[c]@[d].idx() / 8
                &&& self.king_start@[c].idx() != self.king_end@[c]@[d].idx()
            }
    }

    /// The rules of classical chess: king on e1/e8, rooks on the a- and h-files.
    pub fn standard() -> (r: CastlingRules)
        ensures
            r.back_rank@ == seq![0x0000_0000_0000_00FFu64, 0xFF00_0000_0000_0000u64],
            r.king_move@ == seq![0x1400_0000_0000_0014u64, 0x5000_0000_0000_0050u64],
            r.rook_move@ == seq![0x0900_0000_0000_0009u64, 0xA000_0000_0000_00A0u64],
            r.safety@ == seq![0x1C00_0000_0000_001Cu64, 0x7000_0000_0000_0070u64],
            r.space@ == seq![0x0E00_0000_0000_000Eu64, 0x6000_0000_0000_0060u64],
            r.king_start@ == seq![Square(4), Square(60)],
            r.rook_start@ == seq![[Square(0), Square(7)], [Square(56), Square(63)]],
            r.wf(),
    {
        let r = CastlingRules {
            rook_start: [[Square(0), Square(7)], [Square(56), Square(63)]],
            rook_end: [[Square(3), Square(5)], [Square(59), Square(61)]],
            king_start: [Square(4), Square(60)],
            king_end: [[Square(2), Square(6)], [Square(58), Square(62)]],
            rook_move: [0x0900_0000_0000_0009, 0xA000_0000_0000_00A0],
            king_move: [0x1400_0000_0000_0014, 0x5000_0000_0000_0050],
            safety: [0x1C00_0000_0000_001C, 0x7000_0000_0000_0070],
            space: [0x0E00_0000_0000_000E, 0x6000_0000_0000_0060],
            back_rank: [0x0000_0000_0000_00FF, 0xFF00_0000_0000_0000],
        };
        assert(r.back_rank@ =~= seq![0x0000_0000_0000_00FFu64, 0xFF00_0000_0000_0000u64]);
        assert(r.king_move@ =~= seq![0x1400_0000_0000_0014u64, 0x5000_0000_0000_0050u64]);
        assert(r.rook_move@ =~= seq![0x0900_0000_0000_0009u64, 0xA000_0000_0000_00A0u64]);
        assert(r.safety@ =~= seq![0x1C00_0000_0000_001Cu64, 0x7000_0000_0000_0070u64]);
        assert(r.space@ =~= seq![0x0E00_0000_0000_000Eu64, 0x6000_0000_0000_0060u64]);
        assert(r.king_start@ =~= seq![Square(4), Square(60)]);
        assert(r.rook_start@ =~= seq![[Square(0), Square(7)], [Square(56), Square(63)]]);
        assert(0x1400_0000_0000_0014u64 & 0xFFu64 == (1u64 << 4u64) | (1u64 << 2u64)
            && 0x5000_0000_0000_0050u64 & 0xFFu64 == (1u64 << 4u64) | (1u64 << 6u64)
            && 0x1400_0000_0000_0014u64 & 0xFF00_0000_0000_0000u64 == (1u64 << 60u64) | (1u64 << 58u64)
            && 0x5000_0000_0000_0050u64 & 0xFF00_0000_0000_0000u64 == (1u64 << 60u64) | (1u64 << 62u64)
            && 0x0900_0000_0000_0009u64 & 0xFFu64 == (1u64 << 0u64) | (1u64 << 3u64)
            && 0xA000_0000_0000_00A0u64 & 0xFFu64 == (1u64 << 7u64) | (1u64 << 5u64)
            && 0x0900_0000_0000_0009u64 & 0xFF00_0000_0000_0000u64 == (1u64 << 56u64) | (1u64 << 59u64)
            && 0xA000_0000_0000_00A0u64 & 0xFF00_0000_0000_0000u64 == (1u64 << 63u64) | (1u64 << 61u64))
            by (bit_vector);
        assert forall|c: int, d: int| 0 <= c < 2 && 0 <= d < 2 implies {
            &&& r.king_move@[d] & r.back_rank@[c] == r.king_start@[c].bit_spec() | (#[trigger] r.king_end@[c]@[d]).bit_spec()
            &&& r.rook_move@[d] & r.back_rank@[c] == r.rook_start@[c]@[d].bit_spec() | r.rook_end@[c]@[d].bit_spec()
            &&& r.king_start@[c].idx() / 8 == r.king_end@[c]@[d].idx() / 8
            &&& r.king_start@[c].idx() != r.king_end@[c]@[d].idx()
        } by {
            assert(r.king_end@[0]@ =~= seq![Square(2), Square(6)]);
            assert(r.king_end@[1]@ =~= seq![Square(58), Square(62)]);
            assert(r.rook_end@[0]@ =~= seq![Square(3), Square(5)]);
            assert(r.rook_end@[1]@ =~= seq![Square(59), Square(61)]);
            assert(r.rook_start@[0]@ =~= seq![Square(0), Square(7)]);
            assert(r.rook_start@[1]@ =~= seq![Square(56), Square(63)]);
        }
        r
    }
}

} // verus!
