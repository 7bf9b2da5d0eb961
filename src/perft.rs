//! Performance tests: counting the leaves of the tree of legal moves to a
//! fixed depth, by copying the board for each move or by making and
//! unmaking moves on one board.
use vstd::prelude::*;
use crate::board::{BitBoard, disjoint};
use crate::hash::ZobristTables;
use crate::model::{BitMove, LegalMove};
use crate::movegen::{all_owed_in, ep_tied, generate_moves, is_candidate, legal_in, move_fits};
use crate::moving::{made, move_delta, moved};
use crate::moving::{clone_make_legal_move, lemma_make_unmake, make_legal_move, unmake_legal_move};

verus! {

/// How the tree is walked: a fresh copy of the board for each move, or
/// one board on which moves are made and unmade.
#[derive(Debug, Clone, Copy, PartialEq, Eq, Structural)]
pub enum RecursionStrategy {
    CloneMake,
    MakeUnmake,
}

/// The result of a performance test: the number of leaves below each
/// legal move of the root.
#[derive(Debug, Clone)]
pub struct PerfTestRes {
    pub depth: usize,
    pub breakdown: Vec<(BitMove, u64)>,
}

/// The leaves of the first `n` entries of a breakdown, summed with
/// saturation.
pub open spec fn leaves_upto(b: Seq<(BitMove, u64)>, n: nat) -> u64
    decreases n,
{
    if n == 0 {
        0
    } else {
        leaves_upto(b, (n - 1) as nat).saturating_add(b[n - 1].1)
    }
}

impl PerfTestRes {
    /// The total number of leaves, stopping at the largest `u64`.
    pub fn nodes(&self) -> (r: u64)
        ensures
            r == leaves_upto(self.breakdown@, self.breakdown@.len()),
    {
        let mut res: u64 = 0;
        let mut i: usize = 0;
        while i < self.breakdown.len()
            invariant
                i <= self.breakdown@.len(),
                res == leaves_upto(self.breakdown@, i as nat),
            decreases self.breakdown.len() - i,
        {
            res = res.saturating_add(self.breakdown[i].1);
            i = i + 1;
        }
        res
    }
}

/// The root moves of a breakdown.
pub open spec fn root_moves(b: Seq<(BitMove, u64)>) -> Seq<BitMove> {
    b.map_values(|e: (BitMove, u64)| e.0)
}

/// A sum of counts, stopping at the largest `u64`.
pub open spec fn sat_sum(cs: Seq<u64>) -> u64
    decreases cs.len(),
{
    if cs.len() == 0 {
        0
    } else {
        sat_sum(cs.drop_last()).saturating_add(cs.last())
    }
}

/// The legal moves of a board, each once: what the generator gives.
pub open spec fn root_ok<BB: BitBoard>(b: &BB, s: Seq<BitMove>) -> bool {
    &&& s.no_duplicates()
    &&& forall|i: int|
        0 <= i < s.len() ==> disjoint(b.planes_view()) ==> move_fits(b.planes_view(), b.meta_view().player, #[trigger] s[i])
            && ep_tied(b, s[i]) && is_candidate(b, s[i]) && legal_in(b, s[i])
    &&& disjoint(b.planes_view()) ==> all_owed_in(b, true, s)
}

/// Board `b1` is board `b0` after move `x`.
pub open spec fn after_ok<BB: BitBoard, ZT: ZobristTables>(zt: &ZT, b0: &BB, x: BitMove, b1: &BB) -> bool {
    &&& b1.planes_view() == moved(
        BB::moves_men(),
        b0.planes_view(),
        move_delta(x, b0.meta_view().player, b0.meta_view().trans.en_passant, b0.meta_view().castling),
    )
    &&& made(zt, BB::keeps_hash(), b0.meta_view(), b1.meta_view(), x)
}

/// A breakdown entry: its move leads to a board with that many leaves `d`
/// plies below.
pub open spec fn entry_ok<BB: BitBoard, ZT: ZobristTables>(zt: &ZT, b: &BB, e: (BitMove, u64), d: nat) -> bool {
    exists|b1: BB| #[trigger] after_ok(zt, b, e.0, &b1) && perft_ok(zt, b1, d, e.1)
}

/// Lists of equal length.
pub open spec fn aligned<BB>(s: Seq<BitMove>, bs: Seq<BB>, cs: Seq<u64>) -> bool {
    s.len() == bs.len() && s.len() == cs.len()
}

/// `r` is the number of leaves `d` plies below board `b`: one at depth 0;
/// at depth 1 the number of legal moves; deeper, the sum over the legal
/// moves of the leaves below the boards they lead to.
pub open spec fn perft_ok<BB: BitBoard, ZT: ZobristTables>(zt: &ZT, b: BB, d: nat, r: u64) -> bool
    decreases d,
{
    if d == 0 {
        r == 1
    } else if d == 1 {
        exists|s: Seq<BitMove>| #[trigger] root_ok(&b, s) && r as int == s.len()
    } else {
        exists|s: Seq<BitMove>, bs: Seq<BB>, cs: Seq<u64>|
            #[trigger] aligned(s, bs, cs) && root_ok(&b, s) && r == sat_sum(cs) && forall|i: int|
                0 <= i < s.len() ==> after_ok(zt, &b, s[i], &bs[i]) && perft_ok(zt, #[trigger] bs[i], (d - 1) as nat, cs[i])
    }
}

/// The number of leaves `depth` plies below the board.
pub fn perft_recurse<BB: BitBoard + Copy, ZT: ZobristTables>(
    board: &mut BB,
    depth: usize,
    strategy: RecursionStrategy,
    zt: &ZT,
) -> (r: u64)
    requires
        old(board).wf(),
        old(board).planes_view().len() == 12,
        zt.wf(),
    ensures
        final(board).wf(),
        final(board).planes_view() == old(board).planes_view(),
        final(board).meta_view() == old(board).meta_view(),
        perft_ok(zt, *old(board), depth as nat, r),
    decreases depth,
{
    let ghost b0 = *board;
    if depth == 0 {
        return 1;
    }
    let mut moves: Vec<LegalMove> = Vec::new();
    generate_moves(board, &mut moves);
    let ghost s = crate::movegen::unwrap_legal(moves@);
    proof {
        assert forall|i: int| 0 <= i < s.len() implies disjoint(b0.planes_view()) ==> move_fits(
            b0.planes_view(),
            b0.meta_view().player,
            #[trigger] s[i],
        ) && ep_tied(&b0, s[i]) && is_candidate(&b0, s[i]) && legal_in(&b0, s[i]) by {
            assert(s[i] == moves@[i].0);
        }
    }
    assert(root_ok(&b0, s));
    if depth == 1 {
        assert(moves@.len() == s.len());
        return moves.len() as u64;
    }
    let mut res: u64 = 0;
    let mut i: usize = 0;
    let ghost mut bs: Seq<BB> = Seq::empty();
    let ghost mut cs: Seq<u64> = Seq::empty();
    while i < moves.len()
        invariant
            i <= moves.len(),
            s == crate::movegen::unwrap_legal(moves@),
            s.len() == moves@.len(),
            bs.len() == i,
            cs.len() == i,
            res == sat_sum(cs),
            forall|j: int| 0 <= j < i ==> after_ok(zt, &b0, s[j], &bs[j]) && perft_ok(zt, #[trigger] bs[j], (depth - 1) as nat, cs[j]),
            b0.planes_view() == old(board).planes_view(),
            b0.meta_view() == old(board).meta_view(),
            board.wf(),
            board.planes_view() == old(board).planes_view(),
            board.meta_view() == old(board).meta_view(),
            board.planes_view().len() == 12,
            zt.wf(),
            depth >= 2,
        decreases moves.len() - i,
    {
        let mv = moves[i];
        let n = match strategy {
            RecursionStrategy::CloneMake => {
                let mut next = clone_make_legal_move(board, mv, zt);
                let ghost b1 = next;
                let n = perft_recurse(&mut next, depth - 1, strategy, zt);
                proof {
                    bs = bs.push(b1);
                }
                n
            },
            RecursionStrategy::MakeUnmake => {
                let ghost p0 = board.planes_view();
                let ghost m0 = board.meta_view();
                let trans = make_legal_move(board, mv, zt);
                let ghost m1 = board.meta_view();
                let ghost b1 = *board;
                let n = perft_recurse(board, depth - 1, strategy, zt);
                unmake_legal_move(board, mv, trans, zt);
                proof {
                    lemma_make_unmake(zt, BB::keeps_hash(), BB::moves_men(), p0, m0, m1, mv.0);
                    bs = bs.push(b1);
                }
                n
            },
        };
        proof {
            let cs0 = cs;
            cs = cs.push(n);
            assert(cs.drop_last() =~= cs0);
            assert(moves@[i as int].0 == s[i as int]);
        }
        res = res.saturating_add(n);
        i = i + 1;
    }
    proof {
        assert(aligned(s, bs, cs));
    }
    res
}

/// Count the leaves `depth` plies below the board, move by move of the root.
pub fn perft<BB: BitBoard + Copy, ZT: ZobristTables>(
    board: &BB,
    depth: usize,
    strategy: RecursionStrategy,
    zt: &ZT,
) -> (r: PerfTestRes)
    requires
        board.wf(),
        board.planes_view().len() == 12,
        zt.wf(),
    ensures
        r.depth == depth,
        depth == 0 ==> r.breakdown@.len() == 0,
        depth > 0 ==> forall|i: int|
            0 <= i < r.breakdown@.len() ==> disjoint(board.planes_view()) ==> move_fits(
                board.planes_view(),
                board.meta_view().player,
                (#[trigger] r.breakdown@[i]).0,
            ) && legal_in(board, r.breakdown@[i].0),
        depth > 0 && disjoint(board.planes_view()) ==> all_owed_in(board, true, root_moves(r.breakdown@)),
        root_moves(r.breakdown@).no_duplicates(),
        depth == 1 ==> forall|i: int| 0 <= i < r.breakdown@.len() ==> (#[trigger] r.breakdown@[i]).1 == 1,
        depth > 0 ==> forall|i: int|
            0 <= i < r.breakdown@.len() ==> entry_ok(zt, board, #[trigger] r.breakdown@[i], (depth - 1) as nat),
{
    let mut breakdown: Vec<(BitMove, u64)> = Vec::new();
    if depth == 0 {
        return PerfTestRes { depth, breakdown };
    }
    let mut moves: Vec<LegalMove> = Vec::new();
    generate_moves(board, &mut moves);
    let mut i: usize = 0;
    while i < moves.len()
        invariant
            board.wf(),
            board.planes_view().len() == 12,
            zt.wf(),
            depth >= 1,
            i <= moves.len(),
            breakdown@.len() == i,
            forall|j: int| 0 <= j < i ==> (#[trigger] breakdown@[j]).0 == moves@[j].0,
            depth == 1 ==> forall|j: int| 0 <= j < i ==> (#[trigger] breakdown@[j]).1 == 1,
            forall|j: int| 0 <= j < i ==> entry_ok(zt, board, #[trigger] breakdown@[j], (depth - 1) as nat),
        decreases moves.len() - i,
    {
        let mv = moves[i];
        let mut next = clone_make_legal_move(board, mv, zt);
        let ghost b1 = next;
        let n = perft_recurse(&mut next, depth - 1, strategy, zt);
        let ghost before = breakdown@;
        breakdown.push((mv.0, n));
        proof {
            assert(b1.planes_view() == moved(
                BB::moves_men(),
                board.planes_view(),
                move_delta(mv.0, board.meta_view().player, board.meta_view().trans.en_passant, board.meta_view().castling),
            ));
            assert(made(zt, BB::keeps_hash(), board.meta_view(), b1.meta_view(), mv.0));
            assert(after_ok(zt, board, mv.0, &b1));
            assert(perft_ok(zt, b1, (depth - 1) as nat, n));
            let e = (mv.0, n);
            assert(after_ok(zt, board, e.0, &b1) && perft_ok(zt, b1, (depth - 1) as nat, e.1));
            assert(entry_ok(zt, board, e, (depth - 1) as nat));
            assert forall|j: int| 0 <= j < i + 1 implies entry_ok(zt, board, #[trigger] breakdown@[j], (depth - 1) as nat) by {
                if j < i {
                    assert(breakdown@[j] == before[j]);
                }
            }
        }
        i = i + 1;
    }
    proof {
        assert(root_moves(breakdown@) =~= crate::movegen::unwrap_legal(moves@));
    }
    PerfTestRes { depth, breakdown }
}

} // verus!
