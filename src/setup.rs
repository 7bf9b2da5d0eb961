//! Setting up positions square by square, and reading boards back.
use vstd::prelude::*;
use crate::binary::has_bit;
use crate::board::{BitBoard, ChessBoard, disjoint, lemma_has_bit_or, position_hash};
use crate::hash::{ZobristTables, pix, zero_planes};
use crate::model::{ChessColor, ChessEchelon, ChessMan, Square, Transients};
use crate::moving::lemma_empty_plane;

verus! {

/// The single-bit plane of square `i` has only bit `i` set.
pub proof fn lemma_single_bit(i: int, s: int)
    requires
        0 <= i < 64,
        0 <= s < 64,
    ensures
        has_bit(1u64 << (i as u64), s) == (s == i),
{
    let iu = i as u64;
    let su = s as u64;
    assert(iu < 64 && su < 64 ==> ((((1u64 << iu) >> su) & 1u64 == 1u64) == (su == iu))) by (bit_vector);
}

/// The chessman of plane index `i`: color index times six plus echelon index.
pub open spec fn man_at(i: int) -> ChessMan {
    if i == 0 {
        ChessMan::WHITE_PAWN
    } else if i == 1 {
        ChessMan::WHITE_KNIGHT
    } else if i == 2 {
        ChessMan::WHITE_BISHOP
    } else if i == 3 {
        ChessMan::WHITE_ROOK
    } else if i == 4 {
        ChessMan::WHITE_QUEEN
    } else if i == 5 {
        ChessMan::WHITE_KING
    } else if i == 6 {
        ChessMan::BLACK_PAWN
    } else if i == 7 {
        ChessMan::BLACK_KNIGHT
    } else if i == 8 {
        ChessMan::BLACK_BISHOP
    } else if i == 9 {
        ChessMan::BLACK_ROOK
    } else if i == 10 {
        ChessMan::BLACK_QUEEN
    } else {
        ChessMan::BLACK_KING
    }
}

/// A board as one optional chessman per square.
#[derive(Debug, Clone, Copy)]
pub struct SimpleBoard(pub [Option<ChessMan>; 64]);

impl SimpleBoard {
    /// The empty board.
    pub fn new() -> (r: SimpleBoard)
        ensures
            forall|s: int| 0 <= s < 64 ==> r.0@[s].is_none(),
    {
        SimpleBoard([None; 64])
    }

    /// Put a chessman, or nothing, on a square.
    pub fn set(&mut self, sq: Square, it: Option<ChessMan>)
        ensures
            final(self).0@ == old(self).0@.update(sq.idx(), it),
    {
        self.0[sq.ix()] = it;
    }

    /// The squares holding a given chessman.
    pub fn mask(&self, man: ChessMan) -> (r: u64)
        ensures
            forall|s: int| 0 <= s < 64 ==> (has_bit(r, s) <==> self.0@[s] == Some(man)),
    {
        let mut res: u64 = 0;
        let mut i: usize = 0;
        proof {
            assert forall|s: int| 0 <= s < 64 implies !has_bit(0u64, s) by {
                lemma_empty_plane(s);
            }
        }
        while i < 64
            invariant
                i <= 64,
                forall|s: int| 0 <= s < i ==> (has_bit(res, s) <==> self.0@[s] == Some(man)),
                forall|s: int| i <= s < 64 ==> !has_bit(res, s),
            decreases 64 - i,
        {
            let here = match self.0[i] {
                Some(m) => m == man,
                None => false,
            };
            if here {
                let bit: u64 = 1u64 << (i as u64);
                let ghost before = res;
                res = res | bit;
                proof {
                    assert forall|s: int| 0 <= s < 64 implies has_bit(res, s) == (has_bit(before, s) || s
                        == i) by {
                        lemma_has_bit_or(before, bit, s);
                        lemma_single_bit(i as int, s);
                    }
                }
            }
            i = i + 1;
        }
        res
    }

    /// Put a chessman on every square of a plane.
    pub fn set_mask(&mut self, mask: u64, man: ChessMan)
        ensures
            forall|s: int|
                0 <= s < 64 ==> final(self).0@[s] == (if has_bit(mask, s) {
                    Some(man)
                } else {
                    old(self).0@[s]
                }),
    {
        let mut i: usize = 0;
        while i < 64
            invariant
                i <= 64,
                forall|s: int|
                    0 <= s < i ==> self.0@[s] == (if has_bit(mask, s) {
                        Some(man)
                    } else {
                        old(self).0@[s]
                    }),
                forall|s: int| i <= s < 64 ==> self.0@[s] == old(self).0@[s],
            decreases 64 - i,
        {
            if (mask >> (i as u64)) & 1 == 1 {
                self.0[i] = Some(man);
            }
            i = i + 1;
        }
    }

    /// Read a board's chessmen, square by square.
    pub fn from_bitboard<BB: BitBoard>(bb: &BB) -> (r: SimpleBoard)
        requires
            bb.wf(),
            bb.planes_view().len() == 12,
        ensures
            disjoint(bb.planes_view()) ==> forall|i: int, s: int|
                0 <= i < 12 && 0 <= s < 64 && #[trigger] has_bit(bb.planes_view()[i], s) ==> r.0@[s] == Some(man_at(i)),
            forall|s: int| 0 <= s < 64 && r.0@[s] is Some ==> exists|i: int| 0 <= i < 12 && r.0@[s] == Some(#[trigger] man_at(i)),
    {
        let mut res = SimpleBoard::new();
        let mut i: usize = 0;
        while i < 12
            invariant
                i <= 12,
                bb.wf(),
                bb.planes_view().len() == 12,
                disjoint(bb.planes_view()) ==> forall|j: int, s: int|
                    0 <= j < i && 0 <= s < 64 && #[trigger] has_bit(bb.planes_view()[j], s) ==> res.0@[s] == Some(man_at(j)),
                forall|s: int| 0 <= s < 64 && res.0@[s] is Some ==> exists|j: int| 0 <= j < 12 && res.0@[s] == Some(#[trigger] man_at(j)),
            decreases 12 - i,
        {
            let color = if i < 6 { ChessColor::WHITE } else { ChessColor::BLACK };
            let ech = ChessEchelon::at(i % 6);
            let man = ChessMan::new(color, ech);
            let plane = bb.men(color, ech);
            let ghost before = res;
            res.set_mask(plane, man);
            proof {
                assert(pix(color, ech) == i as int);
                assert(man == man_at(i as int));
                if disjoint(bb.planes_view()) {
                    assert forall|j: int, s: int|
                        0 <= j < i + 1 && 0 <= s < 64 && #[trigger] has_bit(bb.planes_view()[j], s) implies res.0@[s] == Some(man_at(j)) by {
                        if j < i {
                            crate::board::lemma_squares_of_disjoint(bb.planes_view(), j, i as int, s);
                        }
                    }
                }
                assert forall|s: int| 0 <= s < 64 && res.0@[s] is Some implies exists|j: int| 0 <= j < 12 && res.0@[s] == Some(#[trigger] man_at(j)) by {
                    if has_bit(plane, s) {
                        assert(res.0@[s] == Some(man_at(i as int)));
                    } else {
                        assert(res.0@[s] == before.0@[s]);
                    }
                }
            }
            i = i + 1;
        }
        res
    }

    /// The twelve planes of this board.
    pub fn masks(&self) -> (r: [[u64; 6]; 2])
        ensures
            forall|c: int, k: int, s: int|
                0 <= c < 2 && 0 <= k < 6 && 0 <= s < 64 ==> (#[trigger] has_bit(r@[c]@[k], s) <==> self.0@[s]
                    == Some(man_at(c * 6 + k))),
    {
        let mut white: [u64; 6] = [0; 6];
        let mut black: [u64; 6] = [0; 6];
        let mut k: usize = 0;
        while k < 6
            invariant
                k <= 6,
                forall|j: int, s: int|
                    0 <= j < k && 0 <= s < 64 ==> (#[trigger] has_bit(white@[j], s) <==> self.0@[s] == Some(man_at(j))),
                forall|j: int, s: int|
                    0 <= j < k && 0 <= s < 64 ==> (#[trigger] has_bit(black@[j], s) <==> self.0@[s] == Some(man_at(6 + j))),
            decreases 6 - k,
        {
            let ech = ChessEchelon::at(k);
            let wm = ChessMan::new(ChessColor::WHITE, ech);
            let bm = ChessMan::new(ChessColor::BLACK, ech);
            proof {
                assert(wm == man_at(k as int));
                assert(bm == man_at(6 + k as int));
            }
            white[k] = self.mask(wm);
            black[k] = self.mask(bm);
            k = k + 1;
        }
        let r = [white, black];
        proof {
            assert forall|c: int, k: int, s: int|
                0 <= c < 2 && 0 <= k < 6 && 0 <= s < 64 implies (#[trigger] has_bit(r@[c]@[k], s) <==> self.0@[s]
                    == Some(man_at(c * 6 + k))) by {
                if c == 0 {
                    assert(r@[c] == white);
                } else {
                    assert(r@[c] == black);
                }
            }
        }
        r
    }

    /// A board of the given layout holding these chessmen, white to move
    /// without castling rights or en passant.
    pub fn as_bitboard<BB: ChessBoard, ZT: ZobristTables>(&self, zt: &ZT) -> (r: BB)
        requires
            zt.wf(),
            BB::moves_men(),
            BB::keeps_hash(),
        ensures
            r.wf(),
            forall|c: ChessColor, k: ChessEchelon, s: int|
                0 <= s < 64 ==> (#[trigger] has_bit(r.planes_view()[pix(c, k)], s) <==> self.0@[s]
                    == Some(man_at(pix(c, k)))),
            r.meta_view().player == ChessColor::WHITE,
            r.meta_view().trans.en_passant.is_none(),
            disjoint(r.planes_view()) ==> r.meta_view().hash == position_hash(
                zt,
                r.planes_view(),
                r.meta_view().trans,
                r.meta_view().player,
            ),
    {
        self.position(ChessColor::WHITE, Transients::empty(), zt)
    }

    /// A board of the given layout holding these chessmen, with the given
    /// side to move and transients; its hash is computed from scratch.
    pub fn position<BB: ChessBoard, ZT: ZobristTables>(
        &self,
        player: ChessColor,
        trans: Transients,
        zt: &ZT,
    ) -> (r: BB)
        requires
            zt.wf(),
            BB::moves_men(),
            BB::keeps_hash(),
        ensures
            r.wf(),
            forall|c: ChessColor, k: ChessEchelon, s: int|
                0 <= s < 64 ==> (#[trigger] has_bit(r.planes_view()[pix(c, k)], s) <==> self.0@[s]
                    == Some(man_at(pix(c, k)))),
            r.meta_view().player == player,
            r.meta_view().trans == trans,
            disjoint(r.planes_view()) ==> r.meta_view().hash == position_hash(
                zt,
                r.planes_view(),
                r.meta_view().trans,
                r.meta_view().player,
            ),
    {
        let masks = self.masks();
        let mut bb: BB = BB::empty(zt);
        let mut i: usize = 0;
        assert(bb.planes_view() =~= zero_planes());
        while i < 12
            invariant
                i <= 12,
                bb.wf(),
                BB::moves_men(),
                bb.meta_view().player == ChessColor::WHITE,
                bb.planes_view().len() == 12,
                forall|j: int| 0 <= j < i ==> #[trigger] bb.planes_view()[j] == masks@[j / 6]@[j % 6],
                forall|j: int| i <= j < 12 ==> #[trigger] bb.planes_view()[j] == 0u64,
            decreases 12 - i,
        {
            let color = if i < 6 { ChessColor::WHITE } else { ChessColor::BLACK };
            let ech = ChessEchelon::at(i % 6);
            let row = masks[i / 6];
            let ghost before = bb.planes_view();
            bb.xor(color, ech, row[i % 6]);
            proof {
                let m = row@[i as int % 6];
                crate::hash::lemma_xor(m, 0, 0);
                assert(pix(color, ech) == i as int);
            }
            i = i + 1;
        }
        bb.set_transients(trans);
        assert(bb.meta_view().player == ChessColor::WHITE);
        match player {
            ChessColor::BLACK => bb.next_ply(),
            ChessColor::WHITE => {},
        }
        assert(bb.meta_view().player == player);
        let fresh = bb.rehash(zt);
        let stale = bb.curr_hash();
        bb.hash(stale ^ fresh);
        proof {
            crate::hash::lemma_xor(stale, stale, fresh);
            crate::hash::lemma_xor(fresh, 0, 0);
            assert forall|c: ChessColor, k: ChessEchelon, s: int|
                0 <= s < 64 implies (#[trigger] has_bit(bb.planes_view()[pix(c, k)], s) <==> self.0@[s]
                    == Some(man_at(pix(c, k)))) by {
                let j = pix(c, k);
                assert(bb.planes_view()[j] == masks@[j / 6]@[j % 6]);
                assert(j / 6 == c.spec_ix() && j % 6 == k.spec_ix());
            }
        }
        bb
    }
}

} // verus!
