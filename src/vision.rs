//! The attack provider: for a given total occupancy, the squares each kind
//! of chessman attacks, from one square or from a whole plane.
//!
//! Attacks include squares of either color; callers mask out their own
//! chessmen. Pawn attacks are capture squares only; pushes are separate.
use vstd::prelude::*;
use crate::binary::{
    bishop_diff_obs_simdx2, bishop_rays, black_pawn_advance_fill, black_pawn_advances,
    black_pawn_attack_fill, black_pawn_attacks, has_bit, king_attacks, king_dumbfill_simdx4,
    knight_attacks, knight_dumbfill_simdx4, queen_diff_obs_simdx4, queen_rays, rook_diff_obs_simdx2,
    rook_rays, slider_attacks, white_pawn_advance_fill, white_pawn_advances, white_pawn_attack_fill,
    white_pawn_attacks,
};
use crate::model::{ChessColor, Square};

verus! {

/// The union of `f(s)` over the squares `s < n` of plane `m`.
pub open spec fn mask_union(f: spec_fn(int) -> u64, m: u64, n: nat) -> u64
    decreases n,
{
    if n == 0 {
        0
    } else {
        mask_union(f, m, (n - 1) as nat) | (if has_bit(m, n - 1) {
            f(n - 1)
        } else {
            0
        })
    }
}

/// OR with the empty plane changes nothing.
pub proof fn lemma_or_zero(x: u64)
    ensures
        x | 0u64 == x,
{
    assert(x | 0u64 == x) by (bit_vector);
}

/// Rook attacks from square `s` given the total occupancy.
pub open spec fn rook_from(total: u64) -> spec_fn(int) -> u64 {
    |s: int| slider_attacks(rook_rays(s), Square(s as u8), total)
}

/// Bishop attacks from square `s` given the total occupancy.
pub open spec fn bishop_from(total: u64) -> spec_fn(int) -> u64 {
    |s: int| slider_attacks(bishop_rays(s), Square(s as u8), total)
}

/// Queen attacks from square `s` given the total occupancy.
pub open spec fn queen_from(total: u64) -> spec_fn(int) -> u64 {
    |s: int| slider_attacks(queen_rays(s), Square(s as u8), total)
}

/// Rook attacks by obstruction difference.
#[derive(Debug, Clone, Copy)]
pub struct FastObsDiffRook(pub u64);

impl FastObsDiffRook {
    /// The provider for a total occupancy.
    pub fn new(total: u64) -> (r: FastObsDiffRook)
        ensures
            r.0 == total,
    {
        FastObsDiffRook(total)
    }

    /// The squares a rook on `sq` attacks.
    pub fn see(self, sq: Square) -> (r: u64)
        ensures
            r == slider_attacks(rook_rays(sq.idx()), sq, self.0),
    {
        rook_diff_obs_simdx2(sq, self.0)
    }

    /// The squares the rooks of a plane attack.
    pub fn surveil(self, mask: u64) -> (r: u64)
        ensures
            r == mask_union(rook_from(self.0), mask, 64),
    {
        let mut res: u64 = 0;
        let mut i: u8 = 0;
        while i < 64
            invariant
                i <= 64,
                res == mask_union(rook_from(self.0), mask, i as nat),
            decreases 64 - i,
        {
            if (mask >> i) & 1 == 1 {
                res = res | self.see(Square(i));
            } else {
                proof {
                    lemma_or_zero(res);
                }
            }
            i = i + 1;
        }
        res
    }

    /// The squares a rook on `sq` can move to: its attacks but its own side's.
    pub fn hits(self, sq: Square, friendly: u64) -> (r: u64)
        ensures
            r == slider_attacks(rook_rays(sq.idx()), sq, self.0) & !friendly,
    {
        self.see(sq) & !friendly
    }
}

/// Bishop attacks by obstruction difference.
#[derive(Debug, Clone, Copy)]
pub struct FastObsDiffBishop(pub u64);

impl FastObsDiffBishop {
    /// The provider for a total occupancy.
    pub fn new(total: u64) -> (r: FastObsDiffBishop)
        ensures
            r.0 == total,
    {
        FastObsDiffBishop(total)
    }

    /// The squares a bishop on `sq` attacks.
    pub fn see(self, sq: Square) -> (r: u64)
        ensures
            r == slider_attacks(bishop_rays(sq.idx()), sq, self.0),
    {
        bishop_diff_obs_simdx2(sq, self.0)
    }

    /// The squares the bishops of a plane attack.
    pub fn surveil(self, mask: u64) -> (r: u64)
        ensures
            r == mask_union(bishop_from(self.0), mask, 64),
    {
        let mut res: u64 = 0;
        let mut i: u8 = 0;
        while i < 64
            invariant
                i <= 64,
                res == mask_union(bishop_from(self.0), mask, i as nat),
            decreases 64 - i,
        {
            if (mask >> i) & 1 == 1 {
                res = res | self.see(Square(i));
            } else {
                proof {
                    lemma_or_zero(res);
                }
            }
            i = i + 1;
        }
        res
    }

    /// The squares a bishop on `sq` can move to.
    pub fn hits(self, sq: Square, friendly: u64) -> (r: u64)
        ensures
            r == slider_attacks(bishop_rays(sq.idx()), sq, self.0) & !friendly,
    {
        self.see(sq) & !friendly
    }
}

/// Queen attacks by obstruction difference on four rays.
#[derive(Debug, Clone, Copy)]
pub struct FastObsDiffQueen(pub u64);

impl FastObsDiffQueen {
    /// The provider for a total occupancy.
    pub fn new(total: u64) -> (r: FastObsDiffQueen)
        ensures
            r.0 == total,
    {
        FastObsDiffQueen(total)
    }

    /// The squares a queen on `sq` attacks.
    pub fn see(self, sq: Square) -> (r: u64)
        ensures
            r == slider_attacks(queen_rays(sq.idx()), sq, self.0),
    {
        queen_diff_obs_simdx4(sq, self.0)
    }

    /// The squares the queens of a plane attack.
    pub fn surveil(self, mask: u64) -> (r: u64)
        ensures
            r == mask_union(queen_from(self.0), mask, 64),
    {
        let mut res: u64 = 0;
        let mut i: u8 = 0;
        while i < 64
            invariant
                i <= 64,
                res == mask_union(queen_from(self.0), mask, i as nat),
            decreases 64 - i,
        {
            if (mask >> i) & 1 == 1 {
                res = res | self.see(Square(i));
            } else {
                proof {
                    lemma_or_zero(res);
                }
            }
            i = i + 1;
        }
        res
    }

    /// The squares a queen on `sq` can move to.
    pub fn hits(self, sq: Square, friendly: u64) -> (r: u64)
        ensures
            r == slider_attacks(queen_rays(sq.idx()), sq, self.0) & !friendly,
    {
        self.see(sq) & !friendly
    }
}

/// Knight attacks by shifting the whole plane.
#[derive(Debug, Clone, Copy)]
pub struct KnightDumbfill;

impl KnightDumbfill {
    /// The provider; knights do not depend on the occupancy.
    pub fn new(total: u64) -> (r: KnightDumbfill) {
        KnightDumbfill
    }

    /// The squares a knight on `sq` attacks.
    pub fn see(self, sq: Square) -> (r: u64)
        ensures
            r == knight_attacks(sq.bit_spec()),
    {
        knight_dumbfill_simdx4(sq.bit())
    }

    /// The squares the knights of a plane attack.
    pub fn surveil(self, mask: u64) -> (r: u64)
        ensures
            r == knight_attacks(mask),
    {
        knight_dumbfill_simdx4(mask)
    }

    /// The squares a knight on `sq` can move to.
    pub fn hits(self, sq: Square, friendly: u64) -> (r: u64)
        ensures
            r == knight_attacks(sq.bit_spec()) & !friendly,
    {
        self.see(sq) & !friendly
    }
}

/// King attacks by shifting the whole plane.
#[derive(Debug, Clone, Copy)]
pub struct KingDumbfill;

impl KingDumbfill {
    /// The provider; kings do not depend on the occupancy.
    pub fn new(total: u64) -> (r: KingDumbfill) {
        KingDumbfill
    }

    /// The squares a king on `sq` attacks.
    pub fn see(self, sq: Square) -> (r: u64)
        ensures
            r == king_attacks(sq.bit_spec()),
    {
        king_dumbfill_simdx4(sq.bit())
    }

    /// The squares the kings of a plane attack.
    pub fn surveil(self, mask: u64) -> (r: u64)
        ensures
            r == king_attacks(mask),
    {
        king_dumbfill_simdx4(mask)
    }

    /// The squares a king on `sq` can move to.
    pub fn hits(self, sq: Square, friendly: u64) -> (r: u64)
        ensures
            r == king_attacks(sq.bit_spec()) & !friendly,
    {
        self.see(sq) & !friendly
    }
}

/// The capture squares of pawns of one color on a plane.
pub open spec fn pawn_attacks(c: ChessColor, m: u64) -> u64 {
    if c == ChessColor::WHITE {
        white_pawn_attacks(m)
    } else {
        black_pawn_attacks(m)
    }
}

/// The push targets of pawns of one color on a plane, onto the empty squares.
pub open spec fn pawn_advances(c: ChessColor, m: u64, empty: u64) -> u64 {
    if c == ChessColor::WHITE {
        white_pawn_advances(m, empty)
    } else {
        black_pawn_advances(m, empty)
    }
}

/// Pawn attacks and pushes of one color by shifting whole planes.
#[derive(Debug, Clone, Copy)]
pub struct PawnsBitBlit {
    pub total: u64,
    pub color: ChessColor,
}

impl PawnsBitBlit {
    /// The provider for one color and a total occupancy.
    pub fn new(total: u64, color: ChessColor) -> (r: PawnsBitBlit)
        ensures
            r.total == total,
            r.color == color,
    {
        PawnsBitBlit { total, color }
    }

    /// The capture squares of a pawn on `sq`.
    pub fn see(self, sq: Square) -> (r: u64)
        ensures
            r == pawn_attacks(self.color, sq.bit_spec()),
    {
        self.surveil(sq.bit())
    }

    /// The capture squares of the pawns of a plane.
    pub fn surveil(self, mask: u64) -> (r: u64)
        ensures
            r == pawn_attacks(self.color, mask),
    {
        match self.color {
            ChessColor::WHITE => white_pawn_attack_fill(mask),
            ChessColor::BLACK => black_pawn_attack_fill(mask),
        }
    }

    /// The captures of a pawn on `sq` onto enemy chessmen or the en-passant square.
    pub fn hits(self, sq: Square, enemy_and_eps: u64) -> (r: u64)
        ensures
            r == pawn_attacks(self.color, sq.bit_spec()) & enemy_and_eps,
    {
        self.see(sq) & enemy_and_eps
    }

    /// The push targets of a pawn on `sq`, single and double.
    pub fn push(self, sq: Square) -> (r: u64)
        ensures
            r == pawn_advances(self.color, sq.bit_spec(), !self.total),
    {
        self.advance(sq.bit())
    }

    /// The push targets of the pawns of a plane.
    pub fn advance(self, mask: u64) -> (r: u64)
        ensures
            r == pawn_advances(self.color, mask, !self.total),
    {
        match self.color {
            ChessColor::WHITE => white_pawn_advance_fill(mask, !self.total),
            ChessColor::BLACK => black_pawn_advance_fill(mask, !self.total),
        }
    }
}

/// A bundle of attack providers, one per kind of chessman, for a total occupancy.
#[derive(Debug, Clone, Copy)]
pub struct SimplePanopticon {
    pub total: u64,
}

impl SimplePanopticon {
    /// The bundle for a total occupancy.
    pub fn new(total: u64) -> (r: SimplePanopticon)
        ensures
            r.total == total,
    {
        SimplePanopticon { total }
    }

    /// White pawn attacks and pushes.
    pub fn white_pawn(&self) -> (r: PawnsBitBlit)
        ensures
            r.total == self.total,
            r.color == ChessColor::WHITE,
    {
        PawnsBitBlit::new(self.total, ChessColor::WHITE)
    }

    /// Black pawn attacks and pushes.
    pub fn black_pawn(&self) -> (r: PawnsBitBlit)
        ensures
            r.total == self.total,
            r.color == ChessColor::BLACK,
    {
        PawnsBitBlit::new(self.total, ChessColor::BLACK)
    }

    /// Knight attacks.
    pub fn knight(&self) -> (r: KnightDumbfill) {
        KnightDumbfill::new(self.total)
    }

    /// Bishop attacks.
    pub fn bishop(&self) -> (r: FastObsDiffBishop)
        ensures
            r.0 == self.total,
    {
        FastObsDiffBishop::new(self.total)
    }

    /// Rook attacks.
    pub fn rook(&self) -> (r: FastObsDiffRook)
        ensures
            r.0 == self.total,
    {
        FastObsDiffRook::new(self.total)
    }

    /// Queen attacks.
    pub fn queen(&self) -> (r: FastObsDiffQueen)
        ensures
            r.0 == self.total,
    {
        FastObsDiffQueen::new(self.total)
    }

    /// King attacks.
    pub fn king(&self) -> (r: KingDumbfill) {
        KingDumbfill::new(self.total)
    }
}

} // verus!
