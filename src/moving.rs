//! Making and unmaking moves.
//!
//! A move is applied in four phases, in this order: the simple move
//! ([`simple_move`]), the promotion ([`promotion_move`]), the pawn special
//! ([`pawn_special`]) and the castling ([`castling_move`]); captures
//! ([`capturing_move`]) and the loss of castling rights
//! ([`rook_rights_loss`]) happen inside them. Every change of the planes
//! is an XOR, and every change of the hash is the XOR of the keys that
//! appear and disappear, so the phases run again undo themselves.
//!
//! The phases run on any [`BitBoard`]: a whole board, a view that only
//! moves the chessmen ([`MoveOnly`]) and a view that only hashes
//! ([`HashOnly`]).
use vstd::prelude::*;
use crate::binary::has_bit;
use crate::board::{
    BitBoard, DefaultMetaBoard, color_union, comm_of, disjoint, ech_at_spec, echelon_on,
    lemma_disjoint_by_squares, lemma_ech_at_found, lemma_has_bit_or, lemma_squares_of_disjoint,
    next_ply_spec, position_hash, prev_ply_spec,
};
use crate::castling::CastlingRules;
use crate::hash::{
    NoHashes, ZobristTables, ep_hash, hash_en_passant, hash_move, hash_rights,
    lemma_has_bit_xor, lemma_pieces_hash_unit, lemma_pieces_hash_xor, lemma_pieces_hash_zero, lemma_xor,
    lemma_xor_move, lemma_xor_steps, pieces_hash, pix, rights_hash, seq_xor, unit, zero_planes,
};
use crate::model::{
    BitMove, CastlingDirection, ChessColor, ChessCommoner, ChessEchelon, ChessPawn, EnPassant,
    LegalMove, PawnPromotion, PseudoLegal, SpecialMove, Square, Transients,
};

verus! {

/// The planes after a change `d`, on a view that moves chessmen or not.
pub open spec fn moved(moves_men: bool, p: Seq<u64>, d: Seq<u64>) -> Seq<u64> {
    if moves_men {
        seq_xor(p, d)
    } else {
        p
    }
}

/// The relation of the metadata before (`m0`) and after (`m1`) a step that
/// changes the planes by `pd`, sets the en-passant state to `ep1` and the
/// half-move clock to `clock1`, and clears the castling rights `clears`.
/// The hash changes by the keys of everything that changed.
pub open spec fn stepped<ZT: ZobristTables>(
    zt: &ZT,
    keeps_hash: bool,
    m0: DefaultMetaBoard,
    m1: DefaultMetaBoard,
    pd: Seq<u64>,
    ep1: Option<EnPassant>,
    clock1: u8,
    clears: spec_fn(int, int) -> bool,
) -> bool {
    &&& m1.player == m0.player
    &&& m1.turn == m0.turn
    &&& m1.castling == m0.castling
    &&& m1.trans.en_passant == ep1
    &&& m1.trans.halfmove_clock == clock1
    &&& forall|x: int, d: int|
        0 <= x < 2 && 0 <= d < 2 ==> #[trigger] m1.trans.rights@[x]@[d] == (m0.trans.rights@[x]@[d]
            && !clears(x, d))
    &&& m1.hash == (if keeps_hash {
        (((m0.hash ^ pieces_hash(zt, pd)) ^ rights_hash(zt, m0.trans.rights)) ^ rights_hash(
            zt,
            m1.trans.rights,
        )) ^ (ep_hash(zt, m0.trans.en_passant) ^ ep_hash(zt, ep1))
    } else {
        m0.hash
    })
}

/// No castling right is cleared.
pub open spec fn no_clears() -> spec_fn(int, int) -> bool {
    |x: int, d: int| false
}

/// The rights cleared by either of two steps.
pub open spec fn either(a: spec_fn(int, int) -> bool, b: spec_fn(int, int) -> bool) -> spec_fn(
    int,
    int,
) -> bool {
    |x: int, d: int| a(x, d) || b(x, d)
}

/// Two steps in a row are one step.
pub proof fn lemma_stepped_chain<ZT: ZobristTables>(
    zt: &ZT,
    keeps_hash: bool,
    m0: DefaultMetaBoard,
    m1: DefaultMetaBoard,
    m2: DefaultMetaBoard,
    pd1: Seq<u64>,
    pd2: Seq<u64>,
    ep1: Option<EnPassant>,
    ep2: Option<EnPassant>,
    c1: u8,
    c2: u8,
    cl1: spec_fn(int, int) -> bool,
    cl2: spec_fn(int, int) -> bool,
)
    requires
        pd1.len() == 12,
        pd2.len() == 12,
        stepped(zt, keeps_hash, m0, m1, pd1, ep1, c1, cl1),
        stepped(zt, keeps_hash, m1, m2, pd2, ep2, c2, cl2),
    ensures
        stepped(zt, keeps_hash, m0, m2, seq_xor(pd1, pd2), ep2, c2, either(cl1, cl2)),
{
    assert forall|x: int, d: int| 0 <= x < 2 && 0 <= d < 2 implies #[trigger] m2.trans.rights@[x]@[d]
        == (m0.trans.rights@[x]@[d] && !either(cl1, cl2)(x, d)) by {
        assert(m1.trans.rights@[x]@[d] == (m0.trans.rights@[x]@[d] && !cl1(x, d)));
        assert(m2.trans.rights@[x]@[d] == (m1.trans.rights@[x]@[d] && !cl2(x, d)));
    }
    if keeps_hash {
        lemma_pieces_hash_xor(zt, pd1, pd2, 12);
        let h0 = m0.hash;
        let ha = pieces_hash(zt, pd1);
        let hb = pieces_hash(zt, pd2);
        let r0 = rights_hash(zt, m0.trans.rights);
        let r1 = rights_hash(zt, m1.trans.rights);
        let r2 = rights_hash(zt, m2.trans.rights);
        let e0 = ep_hash(zt, m0.trans.en_passant);
        let e1 = ep_hash(zt, ep1);
        let e2 = ep_hash(zt, ep2);
        assert(m1.trans.en_passant == ep1);
        assert((((((((h0 ^ ha) ^ r0) ^ r1) ^ (e0 ^ e1)) ^ hb) ^ r1) ^ r2) ^ (e1 ^ e2) == (((h0 ^ (ha
            ^ hb)) ^ r0) ^ r2) ^ (e0 ^ e2)) by (bit_vector);
    }
}

/// A step that changes nothing.
pub proof fn lemma_stepped_none<ZT: ZobristTables>(zt: &ZT, keeps_hash: bool, m0: DefaultMetaBoard)
    ensures
        stepped(zt, keeps_hash, m0, m0, zero_planes(), m0.trans.en_passant, m0.trans.halfmove_clock, no_clears()),
{
    lemma_pieces_hash_zero(zt, 12);
    let h0 = m0.hash;
    let r0 = rights_hash(zt, m0.trans.rights);
    let e0 = ep_hash(zt, m0.trans.en_passant);
    lemma_xor_steps(h0, r0, e0, 0);
}

/// Planes changed twice: the changes add up.
pub proof fn lemma_moved_chain(f: bool, p: Seq<u64>, d1: Seq<u64>, d2: Seq<u64>)
    requires
        p.len() == 12,
        d1.len() == 12,
        d2.len() == 12,
    ensures
        moved(f, moved(f, p, d1), d2) =~= moved(f, p, seq_xor(d1, d2)),
        moved(f, p, d1).len() == 12,
{
    if f {
        assert forall|i: int| 0 <= i < 12 implies #[trigger] moved(f, moved(f, p, d1), d2)[i] == moved(
            f,
            p,
            seq_xor(d1, d2),
        )[i] by {
            lemma_xor(p[i], d1[i], d2[i]);
        }
    }
}

/// Planes changed by nothing.
pub proof fn lemma_moved_zero(f: bool, p: Seq<u64>)
    requires
        p.len() == 12,
    ensures
        moved(f, p, zero_planes()) =~= p,
{
    if f {
        assert forall|i: int| 0 <= i < 12 implies #[trigger] moved(f, p, zero_planes())[i] == p[i] by {
            lemma_xor(p[i], 0, 0);
        }
    }
}

/// XOR a plane and hash the change.
fn xor_hashed<BB: BitBoard, ZT: ZobristTables>(
    board: &mut BB,
    color: ChessColor,
    ech: ChessEchelon,
    mask: u64,
    zt: &ZT,
)
    requires
        old(board).wf(),
        old(board).planes_view().len() == 12,
        zt.wf(),
    ensures
        final(board).wf(),
        final(board).planes_view().len() == 12,
        final(board).planes_view() == moved(BB::moves_men(), old(board).planes_view(), unit(pix(color, ech), mask)),
        stepped(
            zt,
            BB::keeps_hash(),
            old(board).meta_view(),
            final(board).meta_view(),
            unit(pix(color, ech), mask),
            old(board).meta_view().trans.en_passant,
            old(board).meta_view().trans.halfmove_clock,
            no_clears(),
        ),
{
    let ghost p0 = board.planes_view();
    board.xor(color, ech, mask);
    let h = hash_move(zt, color, ech, mask);
    board.hash(h);
    proof {
        lemma_pieces_hash_unit(zt, color, ech, mask, 12);
        if BB::moves_men() {
            assert(board.planes_view() =~= seq_xor(p0, unit(pix(color, ech), mask))) by {
                assert forall|i: int| 0 <= i < 12 implies #[trigger] board.planes_view()[i] == seq_xor(
                    p0,
                    unit(pix(color, ech), mask),
                )[i] by {
                    lemma_xor(p0[i], 0, 0);
                }
            }
        }
        let m0 = old(board).meta_view();
        let r0 = rights_hash(zt, m0.trans.rights);
        let e0 = ep_hash(zt, m0.trans.en_passant);
        let h0 = m0.hash;
        lemma_xor_steps(h0, r0, e0, h);
    }
}

/// Replace the castling rights and hash the change.
fn update_rights<BB: BitBoard, ZT: ZobristTables>(
    board: &mut BB,
    rights: [[bool; 2]; 2],
    zt: &ZT,
)
    requires
        old(board).wf(),
        zt.wf(),
    ensures
        final(board).wf(),
        final(board).planes_view() == old(board).planes_view(),
        final(board).meta_view().trans.rights == rights,
        final(board).meta_view().player == old(board).meta_view().player,
        final(board).meta_view().turn == old(board).meta_view().turn,
        final(board).meta_view().castling == old(board).meta_view().castling,
        final(board).meta_view().trans.en_passant == old(board).meta_view().trans.en_passant,
        final(board).meta_view().trans.halfmove_clock == old(board).meta_view().trans.halfmove_clock,
        final(board).meta_view().hash == (if BB::keeps_hash() {
            old(board).meta_view().hash ^ (rights_hash(zt, old(board).meta_view().trans.rights)
                ^ rights_hash(zt, rights))
        } else {
            old(board).meta_view().hash
        }),
{
    let before = board.trans().rights;
    let delta = hash_rights(zt, before) ^ hash_rights(zt, rights);
    board.hash(delta);
    board.set_castling_rights(rights);
}

/// The rights of a color's rook start squares that a rook of `color` on
/// `sq` stands for.
pub open spec fn rook_clears(
    piece: ChessEchelon,
    color: ChessColor,
    sq: Square,
    cr: CastlingRules,
) -> spec_fn(int, int) -> bool {
    |x: int, d: int|
        piece == ChessEchelon::ROOK && x == color.spec_ix() && sq.idx()
            == cr.rook_start@[x]@[d].idx()
}

/// The loss of castling rights when a rook moves from, or is captured on,
/// its start square.
pub fn rook_rights_loss<BB: BitBoard, ZT: ZobristTables>(
    board: &mut BB,
    piece: ChessEchelon,
    color: ChessColor,
    sq: Square,
    zt: &ZT,
)
    requires
        old(board).wf(),
        zt.wf(),
    ensures
        final(board).wf(),
        final(board).planes_view() == old(board).planes_view(),
        stepped(
            zt,
            BB::keeps_hash(),
            old(board).meta_view(),
            final(board).meta_view(),
            zero_planes(),
            old(board).meta_view().trans.en_passant,
            old(board).meta_view().trans.halfmove_clock,
            rook_clears(piece, color, sq, old(board).meta_view().castling),
        ),
{
    let ghost m0 = board.meta_view();
    proof {
        lemma_pieces_hash_zero(zt, 12);
    }
    if piece != ChessEchelon::ROOK {
        proof {
            lemma_stepped_none(zt, BB::keeps_hash(), m0);
        }
        return;
    }
    let castling = board.castling();
    let starts = castling.rook_start[color.ix()];
    let mut rights = board.trans().rights;
    let mut row = rights[color.ix()];
    if sq.ix() == starts[0].ix() {
        row[0] = false;
    }
    if sq.ix() == starts[1].ix() {
        row[1] = false;
    }
    rights[color.ix()] = row;
    update_rights(board, rights, zt);
    proof {
        let h0 = m0.hash;
        let r0 = rights_hash(zt, m0.trans.rights);
        let r1 = rights_hash(zt, rights);
        let e0 = ep_hash(zt, m0.trans.en_passant);
        lemma_xor_steps(h0, r0, e0, r1);
    }
}


/// Empty planes change nothing.
pub proof fn lemma_seq_xor_zero(a: Seq<u64>)
    requires
        a.len() == 12,
    ensures
        seq_xor(zero_planes(), a) == a,
        seq_xor(a, zero_planes()) == a,
{
    assert forall|i: int| 0 <= i < 12 implies #[trigger] seq_xor(zero_planes(), a)[i] == a[i] by {
        lemma_xor(a[i], 0, 0);
    }
    assert forall|i: int| 0 <= i < 12 implies #[trigger] seq_xor(a, zero_planes())[i] == a[i] by {
        lemma_xor(a[i], 0, 0);
    }
    assert(seq_xor(zero_planes(), a) =~= a);
    assert(seq_xor(a, zero_planes()) =~= a);
}

/// A step stated with the same cleared rights in other words.
pub proof fn lemma_stepped_congr<ZT: ZobristTables>(
    zt: &ZT,
    keeps_hash: bool,
    m0: DefaultMetaBoard,
    m1: DefaultMetaBoard,
    pd: Seq<u64>,
    ep1: Option<EnPassant>,
    c1: u8,
    cl: spec_fn(int, int) -> bool,
    cl2: spec_fn(int, int) -> bool,
)
    requires
        stepped(zt, keeps_hash, m0, m1, pd, ep1, c1, cl),
        forall|x: int, d: int| 0 <= x < 2 && 0 <= d < 2 ==> #[trigger] cl(x, d) == cl2(x, d),
    ensures
        stepped(zt, keeps_hash, m0, m1, pd, ep1, c1, cl2),
{
    assert forall|x: int, d: int| 0 <= x < 2 && 0 <= d < 2 implies #[trigger] m1.trans.rights@[x]@[d]
        == (m0.trans.rights@[x]@[d] && !cl2(x, d)) by {
        assert(m1.trans.rights@[x]@[d] == (m0.trans.rights@[x]@[d] && !cl(x, d)));
    }
}

/// A step that only sets the en-passant state and the clock, hashing the
/// en-passant change.
pub proof fn lemma_stepped_meta<ZT: ZobristTables>(
    zt: &ZT,
    keeps_hash: bool,
    m0: DefaultMetaBoard,
    m1: DefaultMetaBoard,
)
    requires
        m1.player == m0.player,
        m1.turn == m0.turn,
        m1.castling == m0.castling,
        m1.trans.rights == m0.trans.rights,
        m1.hash == (if keeps_hash {
            m0.hash ^ (ep_hash(zt, m0.trans.en_passant) ^ ep_hash(zt, m1.trans.en_passant))
        } else {
            m0.hash
        }),
    ensures
        stepped(zt, keeps_hash, m0, m1, zero_planes(), m1.trans.en_passant, m1.trans.halfmove_clock, no_clears()),
{
    lemma_pieces_hash_zero(zt, 12);
    let h0 = m0.hash;
    let r0 = rights_hash(zt, m0.trans.rights);
    let e = ep_hash(zt, m0.trans.en_passant) ^ ep_hash(zt, m1.trans.en_passant);
    lemma_xor_steps(h0, r0, 0, e);
}

/// The half-move clock one ply later, stopping at its largest value.
pub open spec fn clock_inc(h: u8) -> u8 {
    if h < 255 {
        (h + 1) as u8
    } else {
        h
    }
}

/// The two squares of a move as a plane.
pub open spec fn move_bits(mv: BitMove) -> u64 {
    mv.from.bit_spec() | mv.to.bit_spec()
}

/// The planes change of a capture on `sq` of a chessman of color `o`.
pub open spec fn cap_delta(mv: BitMove, o: ChessColor, sq: Square) -> Seq<u64> {
    match mv.capture {
        Some(k) => unit(pix(o, k.spec_ech()), sq.bit_spec()),
        None => zero_planes(),
    }
}

/// The rights a capture on `sq` clears: a rook taken on its start square.
pub open spec fn cap_clears(mv: BitMove, o: ChessColor, sq: Square, cr: CastlingRules) -> spec_fn(
    int,
    int,
) -> bool {
    match mv.capture {
        Some(k) => rook_clears(k.spec_ech(), o, sq, cr),
        None => no_clears(),
    }
}

/// The rights a king move clears: both of the king's color.
pub open spec fn king_clears(piece: ChessEchelon, color: ChessColor) -> spec_fn(int, int) -> bool {
    |x: int, d: int| piece == ChessEchelon::KING && x == color.spec_ix()
}

/// A capturing move: the captured chessman leaves square `sq`, the clock
/// resets, and a rook taken on its start square takes its right along.
pub fn capturing_move<BB: BitBoard, ZT: ZobristTables>(
    board: &mut BB,
    mv: BitMove,
    sq: Square,
    zt: &ZT,
)
    requires
        old(board).wf(),
        old(board).planes_view().len() == 12,
        zt.wf(),
    ensures
        final(board).wf(),
        final(board).planes_view().len() == 12,
        final(board).planes_view() == moved(
            BB::moves_men(),
            old(board).planes_view(),
            cap_delta(mv, old(board).meta_view().player.spec_opp(), sq),
        ),
        stepped(
            zt,
            BB::keeps_hash(),
            old(board).meta_view(),
            final(board).meta_view(),
            cap_delta(mv, old(board).meta_view().player.spec_opp(), sq),
            old(board).meta_view().trans.en_passant,
            if mv.capture.is_some() {
                0u8
            } else {
                old(board).meta_view().trans.halfmove_clock
            },
            cap_clears(mv, old(board).meta_view().player.spec_opp(), sq, old(board).meta_view().castling),
        ),
{
    let ghost m0 = board.meta_view();
    let ghost p0 = board.planes_view();
    let opponent = board.ply().0.opp();
    match mv.capture {
        None => {
            proof {
                lemma_stepped_none(zt, BB::keeps_hash(), m0);
                lemma_moved_zero(BB::moves_men(), p0);
                lemma_stepped_congr(zt, BB::keeps_hash(), m0, m0, zero_planes(), m0.trans.en_passant, m0.trans.halfmove_clock, no_clears(), cap_clears(mv, opponent, sq, m0.castling));
            }
        },
        Some(man) => {
            let man = ChessEchelon::from(man);
            board.set_halfmove_clock(0);
            let ghost m1 = board.meta_view();
            proof {
                lemma_xor(m0.hash, 0, 0);
                lemma_xor(ep_hash(zt, m0.trans.en_passant), 0, 0);
                lemma_stepped_meta(zt, BB::keeps_hash(), m0, m1);
            }
            xor_hashed(board, opponent, man, sq.bit(), zt);
            let ghost m2 = board.meta_view();
            rook_rights_loss(board, man, opponent, sq, zt);
            let ghost m3 = board.meta_view();
            proof {
                let u = unit(pix(opponent, man), sq.bit_spec());
                lemma_stepped_chain(zt, BB::keeps_hash(), m0, m1, m2, zero_planes(), u, m0.trans.en_passant, m0.trans.en_passant, 0, 0, no_clears(), no_clears());
                lemma_seq_xor_zero(u);
                lemma_stepped_chain(zt, BB::keeps_hash(), m0, m2, m3, u, zero_planes(), m0.trans.en_passant, m0.trans.en_passant, 0, 0, either(no_clears(), no_clears()), rook_clears(man, opponent, sq, m0.castling));
                lemma_stepped_congr(zt, BB::keeps_hash(), m0, m3, u, m0.trans.en_passant, 0, either(either(no_clears(), no_clears()), rook_clears(man, opponent, sq, m0.castling)), cap_clears(mv, opponent, sq, m0.castling));
                lemma_moved_chain(BB::moves_men(), p0, zero_planes(), u);
                lemma_moved_zero(BB::moves_men(), p0);
            }
        },
    }
}

/// The loss of both castling rights of a king that moves.
pub fn king_rights_loss<BB: BitBoard, ZT: ZobristTables>(
    board: &mut BB,
    piece: ChessEchelon,
    color: ChessColor,
    zt: &ZT,
)
    requires
        old(board).wf(),
        zt.wf(),
    ensures
        final(board).wf(),
        final(board).planes_view() == old(board).planes_view(),
        stepped(
            zt,
            BB::keeps_hash(),
            old(board).meta_view(),
            final(board).meta_view(),
            zero_planes(),
            old(board).meta_view().trans.en_passant,
            old(board).meta_view().trans.halfmove_clock,
            king_clears(piece, color),
        ),
{
    let ghost m0 = board.meta_view();
    proof {
        lemma_pieces_hash_zero(zt, 12);
    }
    if piece != ChessEchelon::KING {
        proof {
            lemma_stepped_none(zt, BB::keeps_hash(), m0);
        }
        return;
    }
    let mut rights = board.trans().rights;
    rights[color.ix()] = [false, false];
    update_rights(board, rights, zt);
    proof {
        let h0 = m0.hash;
        let r0 = rights_hash(zt, m0.trans.rights);
        let r1 = rights_hash(zt, rights);
        let e0 = ep_hash(zt, m0.trans.en_passant);
        lemma_xor_steps(h0, r0, e0, r1);
    }
}


/// The planes change of the simple phase.
pub open spec fn simple_delta(mv: BitMove, c: ChessColor) -> Seq<u64> {
    if mv.special.is_none() {
        seq_xor(unit(pix(c, mv.ech), move_bits(mv)), cap_delta(mv, c.spec_opp(), mv.to))
    } else {
        zero_planes()
    }
}

/// The half-move clock after the simple phase.
pub open spec fn simple_clock(mv: BitMove, h: u8) -> u8 {
    if CastlingDirection::spec_from_special(mv.special).is_some() {
        h
    } else if mv.special.is_some() {
        clock_inc(h)
    } else if mv.capture.is_some() {
        0
    } else {
        clock_inc(h)
    }
}

/// The rights the simple phase clears.
pub open spec fn simple_clears(mv: BitMove, c: ChessColor, cr: CastlingRules) -> spec_fn(int, int) -> bool {
    |x: int, d: int|
        mv.special.is_none() && (rook_clears(mv.ech, c, mv.from, cr)(x, d) || king_clears(mv.ech, c)(
            x,
            d,
        ) || cap_clears(mv, c.spec_opp(), mv.to, cr)(x, d))
}

/// The simple phase: the clock ticks (but for a castling); a move without
/// special moves the chessman, loses the rights of a king or of a rook
/// leaving its start square, and captures on its destination.
pub fn simple_move<BB: BitBoard, ZT: ZobristTables>(board: &mut BB, mv: BitMove, zt: &ZT)
    requires
        old(board).wf(),
        old(board).planes_view().len() == 12,
        zt.wf(),
    ensures
        final(board).wf(),
        final(board).planes_view().len() == 12,
        final(board).planes_view() == moved(
            BB::moves_men(),
            old(board).planes_view(),
            simple_delta(mv, old(board).meta_view().player),
        ),
        stepped(
            zt,
            BB::keeps_hash(),
            old(board).meta_view(),
            final(board).meta_view(),
            simple_delta(mv, old(board).meta_view().player),
            old(board).meta_view().trans.en_passant,
            simple_clock(mv, old(board).meta_view().trans.halfmove_clock),
            simple_clears(mv, old(board).meta_view().player, old(board).meta_view().castling),
        ),
{
    let ghost m0 = board.meta_view();
    let ghost p0 = board.planes_view();
    let player = board.ply().0;
    proof {
        lemma_moved_zero(BB::moves_men(), p0);
        lemma_xor(m0.hash, 0, 0);
        lemma_xor(ep_hash(zt, m0.trans.en_passant), 0, 0);
    }
    if CastlingDirection::from_special(mv.special).is_some() {
        proof {
            lemma_stepped_none(zt, BB::keeps_hash(), m0);
            lemma_stepped_congr(zt, BB::keeps_hash(), m0, m0, zero_planes(), m0.trans.en_passant, m0.trans.halfmove_clock, no_clears(), simple_clears(mv, player, m0.castling));
        }
        return;
    }
    let h = board.trans().halfmove_clock;
    let next: u8 = if h < 255 { h + 1 } else { h };
    board.set_halfmove_clock(next);
    let ghost m1 = board.meta_view();
    proof {
        lemma_stepped_meta(zt, BB::keeps_hash(), m0, m1);
    }
    if mv.special.is_some() {
        proof {
            lemma_stepped_congr(zt, BB::keeps_hash(), m0, m1, zero_planes(), m0.trans.en_passant, next, no_clears(), simple_clears(mv, player, m0.castling));
        }
        return;
    }
    let bits = mv.from.bit() | mv.to.bit();
    xor_hashed(board, player, mv.ech, bits, zt);
    let ghost m2 = board.meta_view();
    let ghost q2 = board.planes_view();
    rook_rights_loss(board, mv.ech, player, mv.from, zt);
    let ghost m3 = board.meta_view();
    king_rights_loss(board, mv.ech, player, zt);
    let ghost m4 = board.meta_view();
    capturing_move(board, mv, mv.to, zt);
    let ghost m5 = board.meta_view();
    proof {
        let u = unit(pix(player, mv.ech), bits);
        let cd = cap_delta(mv, player.spec_opp(), mv.to);
        let z = zero_planes();
        let ep0 = m0.trans.en_passant;
        let kh = BB::keeps_hash();
        lemma_seq_xor_zero(u);
        lemma_stepped_chain(zt, kh, m0, m1, m2, z, u, ep0, ep0, next, next, no_clears(), no_clears());
        lemma_stepped_chain(zt, kh, m0, m2, m3, u, z, ep0, ep0, next, next, either(no_clears(), no_clears()), rook_clears(mv.ech, player, mv.from, m0.castling));
        let cl3 = either(either(no_clears(), no_clears()), rook_clears(mv.ech, player, mv.from, m0.castling));
        lemma_stepped_chain(zt, kh, m0, m3, m4, u, z, ep0, ep0, next, next, cl3, king_clears(mv.ech, player));
        let cl4 = either(cl3, king_clears(mv.ech, player));
        let c5: u8 = if mv.capture.is_some() { 0 } else { next };
        lemma_stepped_chain(zt, kh, m0, m4, m5, u, cd, ep0, ep0, next, c5, cl4, cap_clears(mv, player.spec_opp(), mv.to, m0.castling));
        lemma_stepped_congr(zt, kh, m0, m5, seq_xor(u, cd), ep0, c5, either(cl4, cap_clears(mv, player.spec_opp(), mv.to, m0.castling)), simple_clears(mv, player, m0.castling));
        lemma_moved_chain(BB::moves_men(), p0, u, cd);
    }
}

/// The planes change of the promotion phase.
pub open spec fn promo_delta(mv: BitMove, c: ChessColor) -> Seq<u64> {
    match PawnPromotion::spec_from_special(mv.special) {
        Some(pr) => seq_xor(
            seq_xor(
                unit(pix(c, ChessEchelon::PAWN), mv.from.bit_spec()),
                unit(pix(c, pr.spec_ech()), mv.to.bit_spec()),
            ),
            cap_delta(mv, c.spec_opp(), mv.to),
        ),
        None => zero_planes(),
    }
}

/// The half-move clock after the promotion phase.
pub open spec fn promo_clock(mv: BitMove, h: u8) -> u8 {
    if PawnPromotion::spec_from_special(mv.special).is_some() && mv.capture.is_some() {
        0
    } else {
        h
    }
}

/// The rights the promotion phase clears.
pub open spec fn promo_clears(mv: BitMove, c: ChessColor, cr: CastlingRules) -> spec_fn(int, int) -> bool {
    |x: int, d: int|
        PawnPromotion::spec_from_special(mv.special).is_some() && cap_clears(mv, c.spec_opp(), mv.to, cr)(
            x,
            d,
        )
}

/// The promotion phase: the pawn leaves its square, the new piece appears
/// on the destination, and a capture happens there.
pub fn promotion_move<BB: BitBoard, ZT: ZobristTables>(board: &mut BB, mv: BitMove, zt: &ZT)
    requires
        old(board).wf(),
        old(board).planes_view().len() == 12,
        zt.wf(),
    ensures
        final(board).wf(),
        final(board).planes_view().len() == 12,
        final(board).planes_view() == moved(
            BB::moves_men(),
            old(board).planes_view(),
            promo_delta(mv, old(board).meta_view().player),
        ),
        stepped(
            zt,
            BB::keeps_hash(),
            old(board).meta_view(),
            final(board).meta_view(),
            promo_delta(mv, old(board).meta_view().player),
            old(board).meta_view().trans.en_passant,
            promo_clock(mv, old(board).meta_view().trans.halfmove_clock),
            promo_clears(mv, old(board).meta_view().player, old(board).meta_view().castling),
        ),
{
    let ghost m0 = board.meta_view();
    let ghost p0 = board.planes_view();
    let player = board.ply().0;
    proof {
        lemma_moved_zero(BB::moves_men(), p0);
    }
    let prom = match PawnPromotion::from_special(mv.special) {
        Some(pr) => pr,
        None => {
            proof {
                lemma_stepped_none(zt, BB::keeps_hash(), m0);
                lemma_stepped_congr(zt, BB::keeps_hash(), m0, m0, zero_planes(), m0.trans.en_passant, m0.trans.halfmove_clock, no_clears(), promo_clears(mv, player, m0.castling));
            }
            return;
        },
    };
    let prom = ChessEchelon::from(prom);
    xor_hashed(board, player, ChessEchelon::PAWN, mv.from.bit(), zt);
    let ghost m1 = board.meta_view();
    xor_hashed(board, player, prom, mv.to.bit(), zt);
    let ghost m2 = board.meta_view();
    capturing_move(board, mv, mv.to, zt);
    let ghost m3 = board.meta_view();
    proof {
        let u1 = unit(pix(player, ChessEchelon::PAWN), mv.from.bit_spec());
        let u2 = unit(pix(player, prom), mv.to.bit_spec());
        let cd = cap_delta(mv, player.spec_opp(), mv.to);
        let ep0 = m0.trans.en_passant;
        let kh = BB::keeps_hash();
        let h0 = m0.trans.halfmove_clock;
        let c3: u8 = if mv.capture.is_some() { 0 } else { h0 };
        lemma_stepped_chain(zt, kh, m0, m1, m2, u1, u2, ep0, ep0, h0, h0, no_clears(), no_clears());
        lemma_stepped_chain(zt, kh, m0, m2, m3, seq_xor(u1, u2), cd, ep0, ep0, h0, c3, either(no_clears(), no_clears()), cap_clears(mv, player.spec_opp(), mv.to, m0.castling));
        lemma_stepped_congr(zt, kh, m0, m3, seq_xor(seq_xor(u1, u2), cd), ep0, c3, either(either(no_clears(), no_clears()), cap_clears(mv, player.spec_opp(), mv.to, m0.castling)), promo_clears(mv, player, m0.castling));
        lemma_moved_chain(BB::moves_men(), p0, u1, u2);
        lemma_moved_chain(BB::moves_men(), p0, seq_xor(u1, u2), cd);
    }
}


/// Whether a move goes two ranks: a double push.
pub open spec fn is_double(mv: BitMove) -> bool {
    mv.from.idx() - mv.to.idx() == 16 || mv.to.idx() - mv.from.idx() == 16
}

/// The en-passant state a move leaves: after a double push, the square
/// passed over and the pushed pawn's square; else none.
pub open spec fn pawn_ep(mv: BitMove) -> Option<EnPassant> {
    if mv.special == Some(SpecialMove::PAWN) && is_double(mv) {
        let low = if mv.from.idx() < mv.to.idx() {
            mv.from.idx()
        } else {
            mv.to.idx()
        };
        Some(EnPassant { capture: mv.to, square: Square(((low + 8) % 64) as u8) })
    } else {
        None
    }
}

/// The planes change of the pawn-special phase.
pub open spec fn pawn_delta(mv: BitMove, c: ChessColor, ep0: Option<EnPassant>) -> Seq<u64> {
    if mv.special == Some(SpecialMove::PAWN) {
        seq_xor(
            unit(pix(c, ChessEchelon::PAWN), move_bits(mv)),
            match ep0 {
                Some(e) => cap_delta(mv, c.spec_opp(), e.capture),
                None => zero_planes(),
            },
        )
    } else {
        zero_planes()
    }
}

/// The half-move clock after the pawn-special phase.
pub open spec fn pawn_clock(mv: BitMove, h: u8, ep0: Option<EnPassant>) -> u8 {
    if mv.ech == ChessEchelon::PAWN || (mv.special == Some(SpecialMove::PAWN) && ep0.is_some()
        && mv.capture.is_some()) {
        0
    } else {
        h
    }
}

/// The rights the pawn-special phase clears.
pub open spec fn pawn_clears(
    mv: BitMove,
    c: ChessColor,
    ep0: Option<EnPassant>,
    cr: CastlingRules,
) -> spec_fn(int, int) -> bool {
    |x: int, d: int|
        mv.special == Some(SpecialMove::PAWN) && match ep0 {
            Some(e) => cap_clears(mv, c.spec_opp(), e.capture, cr)(x, d),
            None => false,
        }
}

/// The pawn-special phase: the en-passant state is cleared by every move
/// and the clock resets on a pawn move; a pawn special moves the pawn,
/// captures en passant when the state allowed it, and after a double push
/// offers en passant on the square passed over.
pub fn pawn_special<BB: BitBoard, ZT: ZobristTables>(board: &mut BB, mv: BitMove, zt: &ZT)
    requires
        old(board).wf(),
        old(board).planes_view().len() == 12,
        zt.wf(),
    ensures
        final(board).wf(),
        final(board).planes_view().len() == 12,
        final(board).planes_view() == moved(
            BB::moves_men(),
            old(board).planes_view(),
            pawn_delta(mv, old(board).meta_view().player, old(board).meta_view().trans.en_passant),
        ),
        stepped(
            zt,
            BB::keeps_hash(),
            old(board).meta_view(),
            final(board).meta_view(),
            pawn_delta(mv, old(board).meta_view().player, old(board).meta_view().trans.en_passant),
            pawn_ep(mv),
            pawn_clock(mv, old(board).meta_view().trans.halfmove_clock, old(board).meta_view().trans.en_passant),
            pawn_clears(mv, old(board).meta_view().player, old(board).meta_view().trans.en_passant, old(board).meta_view().castling),
        ),
{
    let ghost m0 = board.meta_view();
    let ghost p0 = board.planes_view();
    let player = board.ply().0;
    let en_passant = board.trans().en_passant;
    board.set_en_passant(None);
    if mv.ech == ChessEchelon::PAWN {
        board.set_halfmove_clock(0);
    }
    let he = hash_en_passant(zt, en_passant);
    board.hash(he);
    let ghost m1 = board.meta_view();
    let ghost c1 = m1.trans.halfmove_clock;
    proof {
        lemma_moved_zero(BB::moves_men(), p0);
        lemma_xor(he, 0, 0);
        lemma_stepped_meta(zt, BB::keeps_hash(), m0, m1);
    }
    if ChessPawn::from_special(mv.special).is_none() {
        proof {
            lemma_stepped_congr(zt, BB::keeps_hash(), m0, m1, zero_planes(), None, c1, no_clears(), pawn_clears(mv, player, en_passant, m0.castling));
        }
        return;
    }
    let bits = mv.from.bit() | mv.to.bit();
    xor_hashed(board, player, ChessEchelon::PAWN, bits, zt);
    let ghost m2 = board.meta_view();
    let ghost q2 = board.planes_view();
    proof {
        let u = unit(pix(player, ChessEchelon::PAWN), bits);
        lemma_seq_xor_zero(u);
        lemma_stepped_chain(zt, BB::keeps_hash(), m0, m1, m2, zero_planes(), u, None, None, c1, c1, no_clears(), no_clears());
        lemma_moved_chain(BB::moves_men(), p0, zero_planes(), u);
    }
    let ghost cl2 = either(no_clears(), no_clears());
    if let Some(ep) = en_passant {
        capturing_move(board, mv, ep.capture, zt);
    } else {
        proof {
            lemma_stepped_none(zt, BB::keeps_hash(), m2);
            lemma_moved_zero(BB::moves_men(), q2);
        }
    }
    let ghost m3 = board.meta_view();
    let ghost q3 = board.planes_view();
    let ghost cd = match en_passant {
        Some(e) => cap_delta(mv, player.spec_opp(), e.capture),
        None => zero_planes(),
    };
    let ghost cc = match en_passant {
        Some(e) => cap_clears(mv, player.spec_opp(), e.capture, m0.castling),
        None => no_clears(),
    };
    let ghost c3 = m3.trans.halfmove_clock;
    proof {
        let u = unit(pix(player, ChessEchelon::PAWN), bits);
        lemma_stepped_chain(zt, BB::keeps_hash(), m0, m2, m3, u, cd, None, None, c1, c3, cl2, cc);
        lemma_moved_chain(BB::moves_men(), p0, u, cd);
    }
    let from = mv.from.ix();
    let to = mv.to.ix();
    if from + 16 == to || to + 16 == from {
        let low = if from < to { from } else { to };
        let ep_new = Some(EnPassant { capture: mv.to, square: Square::from_u8((low + 8) as u8) });
        board.set_en_passant(ep_new);
        let hn = hash_en_passant(zt, ep_new);
        board.hash(hn);
        proof {
            let m4 = board.meta_view();
            lemma_xor(hn, 0, 0);
            lemma_xor(0, hn, 0);
            lemma_stepped_meta(zt, BB::keeps_hash(), m3, m4);
            lemma_stepped_chain(zt, BB::keeps_hash(), m0, m3, m4, seq_xor(u_of(player, bits), cd), zero_planes(), None, ep_new, c3, c3, either(cl2, cc), no_clears());
            lemma_seq_xor_zero(seq_xor(u_of(player, bits), cd));
            lemma_stepped_congr(zt, BB::keeps_hash(), m0, m4, seq_xor(u_of(player, bits), cd), ep_new, c3, either(either(cl2, cc), no_clears()), pawn_clears(mv, player, en_passant, m0.castling));
        }
    } else {
        proof {
            lemma_stepped_congr(zt, BB::keeps_hash(), m0, m3, seq_xor(u_of(player, bits), cd), None, c3, either(cl2, cc), pawn_clears(mv, player, en_passant, m0.castling));
        }
    }
}

/// The pawn plane change of a pawn special.
pub open spec fn u_of(c: ChessColor, bits: u64) -> Seq<u64> {
    unit(pix(c, ChessEchelon::PAWN), bits)
}

/// The planes change of the castling phase.
pub open spec fn castle_delta(mv: BitMove, c: ChessColor, cr: CastlingRules) -> Seq<u64> {
    match CastlingDirection::spec_from_special(mv.special) {
        Some(d) => seq_xor(
            unit(pix(c, ChessEchelon::KING), cr.king_move@[d.spec_ix() as int] & cr.back_rank@[c.spec_ix() as int]),
            unit(pix(c, ChessEchelon::ROOK), cr.rook_move@[d.spec_ix() as int] & cr.back_rank@[c.spec_ix() as int]),
        ),
        None => zero_planes(),
    }
}

/// The half-move clock after the castling phase.
pub open spec fn castle_clock(mv: BitMove, h: u8) -> u8 {
    if CastlingDirection::spec_from_special(mv.special).is_some() {
        clock_inc(h)
    } else {
        h
    }
}

/// The rights the castling phase clears: both of the castling side.
pub open spec fn castle_clears(mv: BitMove, c: ChessColor) -> spec_fn(int, int) -> bool {
    |x: int, d: int| CastlingDirection::spec_from_special(mv.special).is_some() && x == c.spec_ix()
}

/// The castling phase: king and rook move within the back rank, both
/// rights of the side are spent, and the clock ticks.
pub fn castling_move<BB: BitBoard, ZT: ZobristTables>(board: &mut BB, mv: BitMove, zt: &ZT)
    requires
        old(board).wf(),
        old(board).planes_view().len() == 12,
        zt.wf(),
    ensures
        final(board).wf(),
        final(board).planes_view().len() == 12,
        final(board).planes_view() == moved(
            BB::moves_men(),
            old(board).planes_view(),
            castle_delta(mv, old(board).meta_view().player, old(board).meta_view().castling),
        ),
        stepped(
            zt,
            BB::keeps_hash(),
            old(board).meta_view(),
            final(board).meta_view(),
            castle_delta(mv, old(board).meta_view().player, old(board).meta_view().castling),
            old(board).meta_view().trans.en_passant,
            castle_clock(mv, old(board).meta_view().trans.halfmove_clock),
            castle_clears(mv, old(board).meta_view().player),
        ),
{
    let ghost m0 = board.meta_view();
    let ghost p0 = board.planes_view();
    let player = board.ply().0;
    proof {
        lemma_moved_zero(BB::moves_men(), p0);
    }
    let castle = match CastlingDirection::from_special(mv.special) {
        Some(d) => d,
        None => {
            proof {
                lemma_stepped_none(zt, BB::keeps_hash(), m0);
                lemma_stepped_congr(zt, BB::keeps_hash(), m0, m0, zero_planes(), m0.trans.en_passant, m0.trans.halfmove_clock, no_clears(), castle_clears(mv, player));
            }
            return;
        },
    };
    let castling = board.castling();
    let back_rank = castling.back_rank[player.ix()];
    let king_move = castling.king_move[castle.ix()] & back_rank;
    let rook_move = castling.rook_move[castle.ix()] & back_rank;
    let mut rights = board.trans().rights;
    rights[player.ix()] = [false, false];
    update_rights(board, rights, zt);
    let h = board.trans().halfmove_clock;
    let next: u8 = if h < 255 { h + 1 } else { h };
    board.set_halfmove_clock(next);
    let ghost m1 = board.meta_view();
    proof {
        lemma_pieces_hash_zero(zt, 12);
        let h0 = m0.hash;
        let r0 = rights_hash(zt, m0.trans.rights);
        let r1 = rights_hash(zt, rights);
        let e0 = ep_hash(zt, m0.trans.en_passant);
        lemma_xor_steps(h0, r0, e0, r1);
        assert(stepped(zt, BB::keeps_hash(), m0, m1, zero_planes(), m0.trans.en_passant, next, castle_clears(mv, player)));
    }
    xor_hashed(board, player, ChessEchelon::KING, king_move, zt);
    let ghost m2 = board.meta_view();
    xor_hashed(board, player, ChessEchelon::ROOK, rook_move, zt);
    let ghost m3 = board.meta_view();
    proof {
        let u1 = unit(pix(player, ChessEchelon::KING), king_move);
        let u2 = unit(pix(player, ChessEchelon::ROOK), rook_move);
        let ep0 = m0.trans.en_passant;
        let kh = BB::keeps_hash();
        lemma_seq_xor_zero(u1);
        lemma_stepped_chain(zt, kh, m0, m1, m2, zero_planes(), u1, ep0, ep0, next, next, castle_clears(mv, player), no_clears());
        lemma_stepped_chain(zt, kh, m0, m2, m3, u1, u2, ep0, ep0, next, next, either(castle_clears(mv, player), no_clears()), no_clears());
        lemma_stepped_congr(zt, kh, m0, m3, seq_xor(u1, u2), ep0, next, either(either(castle_clears(mv, player), no_clears()), no_clears()), castle_clears(mv, player));
        lemma_moved_chain(BB::moves_men(), p0, u1, u2);
    }
}


/// The planes change of a whole move, made by `c` with en-passant state `ep0`.
pub open spec fn move_delta(mv: BitMove, c: ChessColor, ep0: Option<EnPassant>, cr: CastlingRules) -> Seq<u64> {
    seq_xor(
        seq_xor(seq_xor(simple_delta(mv, c), promo_delta(mv, c)), pawn_delta(mv, c, ep0)),
        castle_delta(mv, c, cr),
    )
}

/// The half-move clock after a whole move.
pub open spec fn move_clock(mv: BitMove, h: u8, ep0: Option<EnPassant>) -> u8 {
    castle_clock(mv, pawn_clock(mv, promo_clock(mv, simple_clock(mv, h)), ep0))
}

/// The castling rights a whole move clears.
pub open spec fn move_clears(
    mv: BitMove,
    c: ChessColor,
    ep0: Option<EnPassant>,
    cr: CastlingRules,
) -> spec_fn(int, int) -> bool {
    either(
        either(either(simple_clears(mv, c, cr), promo_clears(mv, c, cr)), pawn_clears(mv, c, ep0, cr)),
        castle_clears(mv, c),
    )
}

/// The hash of the rights of `r` that survive `clears`.
pub open spec fn cleared_rights_hash<ZT: ZobristTables>(
    zt: &ZT,
    r: [[bool; 2]; 2],
    clears: spec_fn(int, int) -> bool,
) -> u64 {
    (((if r@[0]@[0] && !clears(0, 0) { zt.rights_key(0, 0) } else { 0u64 }) ^ (if r@[0]@[1]
        && !clears(0, 1) {
        zt.rights_key(0, 1)
    } else {
        0u64
    })) ^ (if r@[1]@[0] && !clears(1, 0) { zt.rights_key(1, 0) } else { 0u64 })) ^ (if r@[1]@[1]
        && !clears(1, 1) {
        zt.rights_key(1, 1)
    } else {
        0u64
    })
}

/// The change of hash of a whole move made by `c` from transients `t`.
pub open spec fn move_hash_delta<ZT: ZobristTables>(
    zt: &ZT,
    mv: BitMove,
    c: ChessColor,
    t: Transients,
    cr: CastlingRules,
) -> u64 {
    (((pieces_hash(zt, move_delta(mv, c, t.en_passant, cr)) ^ rights_hash(zt, t.rights))
        ^ cleared_rights_hash(zt, t.rights, move_clears(mv, c, t.en_passant, cr))) ^ (ep_hash(
        zt,
        t.en_passant,
    ) ^ ep_hash(zt, pawn_ep(mv)))) ^ zt.black_key()
}

/// The metadata `m1` is `m0` after move `mv`.
pub open spec fn made<ZT: ZobristTables>(
    zt: &ZT,
    keeps_hash: bool,
    m0: DefaultMetaBoard,
    m1: DefaultMetaBoard,
    mv: BitMove,
) -> bool {
    &&& m1.player == m0.player.spec_opp()
    &&& m1.turn == next_ply_spec(m0).turn
    &&& m1.castling == m0.castling
    &&& m1.trans.en_passant == pawn_ep(mv)
    &&& m1.trans.halfmove_clock == move_clock(mv, m0.trans.halfmove_clock, m0.trans.en_passant)
    &&& forall|x: int, d: int|
        0 <= x < 2 && 0 <= d < 2 ==> #[trigger] m1.trans.rights@[x]@[d] == (m0.trans.rights@[x]@[d]
            && !move_clears(mv, m0.player, m0.trans.en_passant, m0.castling)(x, d))
    &&& m1.hash == (if keeps_hash {
        m0.hash ^ move_hash_delta(zt, mv, m0.player, m0.trans, m0.castling)
    } else {
        m0.hash
    })
}

/// The four phases together.
fn apply_phases<BB: BitBoard, ZT: ZobristTables>(board: &mut BB, mv: BitMove, zt: &ZT)
    requires
        old(board).wf(),
        old(board).planes_view().len() == 12,
        zt.wf(),
    ensures
        final(board).wf(),
        final(board).planes_view().len() == 12,
        final(board).planes_view() == moved(
            BB::moves_men(),
            old(board).planes_view(),
            move_delta(mv, old(board).meta_view().player, old(board).meta_view().trans.en_passant, old(board).meta_view().castling),
        ),
        stepped(
            zt,
            BB::keeps_hash(),
            old(board).meta_view(),
            final(board).meta_view(),
            move_delta(mv, old(board).meta_view().player, old(board).meta_view().trans.en_passant, old(board).meta_view().castling),
            pawn_ep(mv),
            move_clock(mv, old(board).meta_view().trans.halfmove_clock, old(board).meta_view().trans.en_passant),
            move_clears(mv, old(board).meta_view().player, old(board).meta_view().trans.en_passant, old(board).meta_view().castling),
        ),
{
    let ghost m0 = board.meta_view();
    let ghost p0 = board.planes_view();
    simple_move(board, mv, zt);
    let ghost m1 = board.meta_view();
    promotion_move(board, mv, zt);
    let ghost m2 = board.meta_view();
    pawn_special(board, mv, zt);
    let ghost m3 = board.meta_view();
    castling_move(board, mv, zt);
    let ghost m4 = board.meta_view();
    proof {
        let c = m0.player;
        let cr = m0.castling;
        let ep0 = m0.trans.en_passant;
        let kh = BB::keeps_hash();
        let f = BB::moves_men();
        let d1 = simple_delta(mv, c);
        let d2 = promo_delta(mv, c);
        let d3 = pawn_delta(mv, c, ep0);
        let d4 = castle_delta(mv, c, cr);
        lemma_stepped_chain(zt, kh, m0, m1, m2, d1, d2, ep0, ep0, simple_clock(mv, m0.trans.halfmove_clock), m2.trans.halfmove_clock, simple_clears(mv, c, cr), promo_clears(mv, c, cr));
        lemma_stepped_chain(zt, kh, m0, m2, m3, seq_xor(d1, d2), d3, ep0, pawn_ep(mv), m2.trans.halfmove_clock, m3.trans.halfmove_clock, either(simple_clears(mv, c, cr), promo_clears(mv, c, cr)), pawn_clears(mv, c, ep0, cr));
        lemma_stepped_chain(zt, kh, m0, m3, m4, seq_xor(seq_xor(d1, d2), d3), d4, pawn_ep(mv), pawn_ep(mv), m3.trans.halfmove_clock, m4.trans.halfmove_clock, either(either(simple_clears(mv, c, cr), promo_clears(mv, c, cr)), pawn_clears(mv, c, ep0, cr)), castle_clears(mv, c));
        let q1 = moved(f, p0, d1);
        lemma_moved_chain(f, p0, d1, d2);
        lemma_moved_chain(f, p0, seq_xor(d1, d2), d3);
        lemma_moved_chain(f, p0, seq_xor(seq_xor(d1, d2), d3), d4);
    }
}

/// The hash of the rights after clearing, read from the rights array.
pub proof fn lemma_cleared_rights_hash<ZT: ZobristTables>(
    zt: &ZT,
    r0: [[bool; 2]; 2],
    r1: [[bool; 2]; 2],
    clears: spec_fn(int, int) -> bool,
)
    requires
        forall|x: int, d: int|
            0 <= x < 2 && 0 <= d < 2 ==> #[trigger] r1@[x]@[d] == (r0@[x]@[d] && !clears(x, d)),
    ensures
        rights_hash(zt, r1) == cleared_rights_hash(zt, r0, clears),
{
    assert(r1@[0]@[0] == (r0@[0]@[0] && !clears(0, 0)));
    assert(r1@[0]@[1] == (r0@[0]@[1] && !clears(0, 1)));
    assert(r1@[1]@[0] == (r0@[1]@[0] && !clears(1, 0)));
    assert(r1@[1]@[1] == (r0@[1]@[1] && !clears(1, 1)));
}

/// Make a move on a board: the four phases, then the ply passes and the
/// hash takes black to move in or out. Returns the transients from before
/// the move, for [`unmake_legal_move`].
///
/// The move must be legal in the board's position; on another move the
/// result follows the same rules but is no chess position.
pub fn make_legal_move<BB: BitBoard, ZT: ZobristTables>(board: &mut BB, mv: LegalMove, zt: &ZT) -> (r: Transients)
    requires
        old(board).wf(),
        old(board).planes_view().len() == 12,
        zt.wf(),
    ensures
        r == old(board).meta_view().trans,
        final(board).wf(),
        final(board).planes_view().len() == 12,
        final(board).planes_view() == moved(
            BB::moves_men(),
            old(board).planes_view(),
            move_delta(mv.0, old(board).meta_view().player, old(board).meta_view().trans.en_passant, old(board).meta_view().castling),
        ),
        made(zt, BB::keeps_hash(), old(board).meta_view(), final(board).meta_view(), mv.0),
{
    let res = board.trans();
    apply_phases(board, mv.0, zt);
    let ghost m4 = board.meta_view();
    board.next_ply();
    let b = zt.black();
    board.hash(b);
    proof {
        let m0 = old(board).meta_view();
        let m5 = board.meta_view();
        let cl = move_clears(mv.0, m0.player, m0.trans.en_passant, m0.castling);
        lemma_cleared_rights_hash(zt, m0.trans.rights, m4.trans.rights, cl);
        assert forall|x: int, d: int| 0 <= x < 2 && 0 <= d < 2 implies #[trigger] m5.trans.rights@[x]@[d]
            == (m0.trans.rights@[x]@[d] && !cl(x, d)) by {
            assert(m4.trans.rights@[x]@[d] == (m0.trans.rights@[x]@[d] && !cl(x, d)));
        }
        if BB::keeps_hash() {
            let h0 = m0.hash;
            let pp = pieces_hash(zt, move_delta(mv.0, m0.player, m0.trans.en_passant, m0.castling));
            let r0 = rights_hash(zt, m0.trans.rights);
            let r1 = rights_hash(zt, m4.trans.rights);
            let e = ep_hash(zt, m0.trans.en_passant) ^ ep_hash(zt, pawn_ep(mv.0));
            lemma_xor_move(h0, pp, r0, r1, e, b);
        }
    }
    res
}

/// Unmake a move just made by [`make_legal_move`], given the transients
/// it returned: the ply goes back, the four phases run again with those
/// transients, and the transients are restored.
pub fn unmake_legal_move<BB: BitBoard, ZT: ZobristTables>(
    board: &mut BB,
    mv: LegalMove,
    trans: Transients,
    zt: &ZT,
)
    requires
        old(board).wf(),
        old(board).planes_view().len() == 12,
        zt.wf(),
    ensures
        final(board).wf(),
        final(board).planes_view().len() == 12,
        final(board).planes_view() == moved(
            BB::moves_men(),
            old(board).planes_view(),
            move_delta(mv.0, old(board).meta_view().player.spec_opp(), trans.en_passant, old(board).meta_view().castling),
        ),
        final(board).meta_view() == (DefaultMetaBoard {
            trans,
            hash: if BB::keeps_hash() {
                old(board).meta_view().hash ^ move_hash_delta(
                    zt,
                    mv.0,
                    old(board).meta_view().player.spec_opp(),
                    trans,
                    old(board).meta_view().castling,
                )
            } else {
                old(board).meta_view().hash
            },
            ..prev_ply_spec(old(board).meta_view())
        }),
{
    board.set_transients(trans);
    board.prev_ply();
    let b = zt.black();
    board.hash(b);
    let ghost m1 = board.meta_view();
    apply_phases(board, mv.0, zt);
    let ghost m2 = board.meta_view();
    board.set_transients(trans);
    proof {
        let m0 = old(board).meta_view();
        let c = m1.player;
        let cl = move_clears(mv.0, c, trans.en_passant, m0.castling);
        lemma_cleared_rights_hash(zt, trans.rights, m2.trans.rights, cl);
        if BB::keeps_hash() {
            let h0 = m0.hash;
            let pp = pieces_hash(zt, move_delta(mv.0, c, trans.en_passant, m0.castling));
            let r0 = rights_hash(zt, trans.rights);
            let r1 = rights_hash(zt, m2.trans.rights);
            let e = ep_hash(zt, trans.en_passant) ^ ep_hash(zt, pawn_ep(mv.0));
            lemma_xor_move(h0, pp, r0, r1, e, b);
        }
    }
}


/// Bits of the empty plane.
pub proof fn lemma_empty_plane(s: int)
    ensures
        !has_bit(0u64, s),
        0u64 | 0u64 == 0u64,
{
    let su = s as u64;
    assert((su < 64 ==> (0u64 >> su) & 1u64 != 1u64) && 0u64 | 0u64 == 0u64) by (bit_vector);
}

/// A view of a board that moves the chessmen and keeps the transients,
/// but leaves the hash alone: for looking one move ahead.
#[derive(Clone, Copy)]
pub struct MoveOnly<BB: BitBoard>(pub BB);

impl<BB: BitBoard> BitBoard for MoveOnly<BB> {
    open spec fn wf(&self) -> bool {
        self.0.wf()
    }

    open spec fn planes_view(&self) -> Seq<u64> {
        self.0.planes_view()
    }

    open spec fn meta_view(&self) -> DefaultMetaBoard {
        self.0.meta_view()
    }

    open spec fn moves_men() -> bool {
        BB::moves_men()
    }

    open spec fn keeps_hash() -> bool {
        false
    }

    fn xor(&mut self, color: ChessColor, ech: ChessEchelon, mask: u64) {
        self.0.xor(color, ech, mask);
    }

    fn men(&self, color: ChessColor, ech: ChessEchelon) -> (r: u64) {
        self.0.men(color, ech)
    }

    fn color(&self, color: ChessColor) -> (r: u64) {
        self.0.color(color)
    }

    fn total(&self) -> (r: u64) {
        self.0.total()
    }

    fn ech_at(&self, sq: Square) -> (r: Option<ChessEchelon>) {
        self.0.ech_at(sq)
    }

    fn comm_at(&self, sq: Square) -> (r: Option<ChessCommoner>) {
        self.0.comm_at(sq)
    }

    fn trans(&self) -> (r: Transients) {
        self.0.trans()
    }

    fn set_halfmove_clock(&mut self, val: u8) {
        self.0.set_halfmove_clock(val);
    }

    fn set_castling_rights(&mut self, rights: [[bool; 2]; 2]) {
        self.0.set_castling_rights(rights);
    }

    fn set_en_passant(&mut self, eps: Option<EnPassant>) {
        self.0.set_en_passant(eps);
    }

    fn set_transients(&mut self, trans: Transients) {
        self.0.set_transients(trans);
    }

    fn curr_hash(&self) -> (r: u64) {
        self.0.curr_hash()
    }

    fn ply(&self) -> (r: (ChessColor, u16)) {
        self.0.ply()
    }

    fn next_ply(&mut self) {
        self.0.next_ply();
    }

    fn prev_ply(&mut self) {
        self.0.prev_ply();
    }

    fn castling(&self) -> (r: CastlingRules) {
        self.0.castling()
    }

    fn hash(&mut self, hash: u64) {
    }
}

/// A view that only hashes: it holds the metadata of a position, and its
/// planes stay empty.
#[derive(Clone, Copy)]
pub struct HashOnly(pub DefaultMetaBoard);

impl BitBoard for HashOnly {
    open spec fn wf(&self) -> bool {
        true
    }

    open spec fn planes_view(&self) -> Seq<u64> {
        zero_planes()
    }

    open spec fn meta_view(&self) -> DefaultMetaBoard {
        self.0
    }

    open spec fn moves_men() -> bool {
        false
    }

    open spec fn keeps_hash() -> bool {
        true
    }

    fn xor(&mut self, color: ChessColor, ech: ChessEchelon, mask: u64) {
    }

    fn men(&self, color: ChessColor, ech: ChessEchelon) -> (r: u64) {
        0
    }

    fn color(&self, color: ChessColor) -> (r: u64) {
        proof {
            lemma_empty_plane(0);
        }
        0
    }

    fn total(&self) -> (r: u64) {
        proof {
            lemma_empty_plane(0);
        }
        0
    }

    fn ech_at(&self, sq: Square) -> (r: Option<ChessEchelon>) {
        proof {
            lemma_empty_plane(sq.idx());
            reveal_with_fuel(crate::board::ech_at_from, 7);
        }
        None
    }

    fn comm_at(&self, sq: Square) -> (r: Option<ChessCommoner>) {
        proof {
            lemma_empty_plane(sq.idx());
            reveal_with_fuel(crate::board::ech_at_from, 7);
        }
        None
    }

    fn trans(&self) -> (r: Transients) {
        self.0.trans()
    }

    fn set_halfmove_clock(&mut self, val: u8) {
        self.0.set_halfmove_clock(val);
    }

    fn set_castling_rights(&mut self, rights: [[bool; 2]; 2]) {
        self.0.set_castling_rights(rights);
    }

    fn set_en_passant(&mut self, eps: Option<EnPassant>) {
        self.0.set_en_passant(eps);
    }

    fn set_transients(&mut self, trans: Transients) {
        self.0.set_transients(trans);
    }

    fn curr_hash(&self) -> (r: u64) {
        self.0.curr_hash()
    }

    fn ply(&self) -> (r: (ChessColor, u16)) {
        self.0.ply()
    }

    fn next_ply(&mut self) {
        self.0.next_ply();
    }

    fn prev_ply(&mut self) {
        self.0.prev_ply();
    }

    fn castling(&self) -> (r: CastlingRules) {
        self.0.castling()
    }

    fn hash(&mut self, hash: u64) {
        self.0.hash(hash);
    }
}

/// The metadata of a board, as one value.
pub fn meta_of<BB: BitBoard>(board: &BB) -> (r: DefaultMetaBoard)
    requires
        board.wf(),
    ensures
        r == board.meta_view(),
{
    let (player, turn) = board.ply();
    DefaultMetaBoard {
        castling: board.castling(),
        hash: board.curr_hash(),
        turn,
        player,
        trans: board.trans(),
    }
}

/// Copy the board and make the legal move on the copy.
pub fn clone_make_legal_move<BB: BitBoard + Copy, ZT: ZobristTables>(board: &BB, mv: LegalMove, zt: &ZT) -> (r: BB)
    requires
        board.wf(),
        board.planes_view().len() == 12,
        zt.wf(),
    ensures
        r.wf(),
        r.planes_view() == moved(
            BB::moves_men(),
            board.planes_view(),
            move_delta(mv.0, board.meta_view().player, board.meta_view().trans.en_passant, board.meta_view().castling),
        ),
        made(zt, BB::keeps_hash(), board.meta_view(), r.meta_view(), mv.0),
{
    let mut res = *board;
    make_legal_move(&mut res, mv, zt);
    res
}

/// Copy the board and make the move on the copy's chessmen and
/// transients only, without hashing: for testing whether the move leaves
/// the mover's king attacked.
pub fn clone_make_pseudolegal_move<BB: BitBoard + Copy>(board: &BB, mv: PseudoLegal) -> (r: BB)
    requires
        board.wf(),
        board.planes_view().len() == 12,
    ensures
        r.wf(),
        r.planes_view() == moved(
            BB::moves_men(),
            board.planes_view(),
            move_delta(mv.0, board.meta_view().player, board.meta_view().trans.en_passant, board.meta_view().castling),
        ),
        made(&NoHashes, false, board.meta_view(), r.meta_view(), mv.0),
{
    let mut res = MoveOnly(*board);
    make_legal_move(&mut res, LegalMove(mv.0), &NoHashes);
    res.0
}

/// The hash that making a move would give, without touching the board.
pub fn hash_prospective_move<BB: BitBoard, ZT: ZobristTables>(board: &BB, mv: BitMove, zt: &ZT) -> (r: u64)
    requires
        board.wf(),
        zt.wf(),
    ensures
        r == board.meta_view().hash ^ move_hash_delta(
            zt,
            mv,
            board.meta_view().player,
            board.meta_view().trans,
            board.meta_view().castling,
        ),
{
    let mut res = HashOnly(meta_of(board));
    make_legal_move(&mut res, LegalMove(mv), zt);
    res.0.hash
}

/// Making a move keeps the hash the hash of the position: when the hash
/// before the move is the position's hash computed from scratch, so is the
/// hash after it.
pub proof fn lemma_make_keeps_hash<ZT: ZobristTables>(
    zt: &ZT,
    p0: Seq<u64>,
    m0: DefaultMetaBoard,
    m1: DefaultMetaBoard,
    mv: BitMove,
)
    requires
        p0.len() == 12,
        made(zt, true, m0, m1, mv),
        m0.hash == position_hash(zt, p0, m0.trans, m0.player),
    ensures
        m1.hash == position_hash(
            zt,
            seq_xor(p0, move_delta(mv, m0.player, m0.trans.en_passant, m0.castling)),
            m1.trans,
            m1.player,
        ),
{
    let d = move_delta(mv, m0.player, m0.trans.en_passant, m0.castling);
    let cl = move_clears(mv, m0.player, m0.trans.en_passant, m0.castling);
    lemma_pieces_hash_xor(zt, p0, d, 12);
    lemma_cleared_rights_hash(zt, m0.trans.rights, m1.trans.rights, cl);
    let pp = pieces_hash(zt, p0);
    let pd = pieces_hash(zt, d);
    let r0 = rights_hash(zt, m0.trans.rights);
    let r1 = rights_hash(zt, m1.trans.rights);
    let e0 = ep_hash(zt, m0.trans.en_passant);
    let e1 = ep_hash(zt, m1.trans.en_passant);
    let bk = zt.black_key();
    let b0: u64 = if m0.player == ChessColor::BLACK { bk } else { 0 };
    let b1: u64 = if m1.player == ChessColor::BLACK { bk } else { 0 };
    assert(b0 ^ bk == b1) by {
        lemma_xor(bk, 0, 0);
    }
    assert((((pp ^ r0) ^ e0) ^ b0) ^ ((((pd ^ r0) ^ r1) ^ (e0 ^ e1)) ^ bk) == (((pp ^ pd) ^ r1) ^ e1)
        ^ (b0 ^ bk)) by (bit_vector);
}

/// Unmaking a move with the transients that making it returned restores
/// the board exactly: the planes, the metadata and the hash.
pub proof fn lemma_make_unmake<ZT: ZobristTables>(
    zt: &ZT,
    keeps_hash: bool,
    moves_men: bool,
    p0: Seq<u64>,
    m0: DefaultMetaBoard,
    m1: DefaultMetaBoard,
    mv: BitMove,
)
    requires
        p0.len() == 12,
        made(zt, keeps_hash, m0, m1, mv),
    ensures
        moved(
            moves_men,
            moved(moves_men, p0, move_delta(mv, m0.player, m0.trans.en_passant, m0.castling)),
            move_delta(mv, m1.player.spec_opp(), m0.trans.en_passant, m1.castling),
        ) == p0,
        (DefaultMetaBoard {
            trans: m0.trans,
            hash: if keeps_hash {
                m1.hash ^ move_hash_delta(zt, mv, m1.player.spec_opp(), m0.trans, m1.castling)
            } else {
                m1.hash
            },
            ..prev_ply_spec(m1)
        }) == m0,
{
    let d = move_delta(mv, m0.player, m0.trans.en_passant, m0.castling);
    assert(m1.player.spec_opp() == m0.player);
    if moves_men {
        assert(seq_xor(seq_xor(p0, d), d) =~= p0) by {
            assert forall|i: int| 0 <= i < 12 implies #[trigger] seq_xor(seq_xor(p0, d), d)[i] == p0[i] by {
                lemma_xor(p0[i], d[i], 0);
            }
        }
    }
    lemma_xor(m0.hash, move_hash_delta(zt, mv, m0.player, m0.trans, m0.castling), 0);
    assert(m0.turn == prev_ply_spec(m1).turn) by {
        if m0.player == ChessColor::BLACK {
            assert(m1.turn == m0.turn.wrapping_add(1));
        }
    }
}

/// Unmaking a move keeps the hash the hash of the position: from a board
/// whose hash was the position's hash before the move, unmaking restores
/// planes and metadata whose hash is again the position's hash.
pub proof fn lemma_unmake_keeps_hash<ZT: ZobristTables>(
    zt: &ZT,
    p0: Seq<u64>,
    m0: DefaultMetaBoard,
    m1: DefaultMetaBoard,
    mv: BitMove,
)
    requires
        p0.len() == 12,
        made(zt, true, m0, m1, mv),
        m0.hash == position_hash(zt, p0, m0.trans, m0.player),
    ensures
        m1.hash ^ move_hash_delta(zt, mv, m1.player.spec_opp(), m0.trans, m1.castling) == position_hash(
            zt,
            moved(
                true,
                moved(true, p0, move_delta(mv, m0.player, m0.trans.en_passant, m0.castling)),
                move_delta(mv, m1.player.spec_opp(), m0.trans.en_passant, m1.castling),
            ),
            m0.trans,
            prev_ply_spec(m1).player,
        ),
{
    lemma_make_unmake(zt, true, true, p0, m0, m1, mv);
}

/// The hash previewed for a move is the hash that making it gives.
pub proof fn lemma_preview_is_made_hash<ZT: ZobristTables>(
    zt: &ZT,
    m0: DefaultMetaBoard,
    m1: DefaultMetaBoard,
    mv: BitMove,
)
    requires
        made(zt, true, m0, m1, mv),
    ensures
        m1.hash == m0.hash ^ move_hash_delta(zt, mv, m0.player, m0.trans, m0.castling),
{
}

/// En passant is offered only right after a double push, on the square
/// passed over and against the pushed pawn; every other move clears it.
pub proof fn lemma_en_passant_after_move<ZT: ZobristTables>(
    zt: &ZT,
    keeps_hash: bool,
    m0: DefaultMetaBoard,
    m1: DefaultMetaBoard,
    mv: BitMove,
)
    requires
        made(zt, keeps_hash, m0, m1, mv),
    ensures
        m1.trans.en_passant.is_some() <==> (mv.special == Some(SpecialMove::PAWN) && is_double(mv)),
        m1.trans.en_passant.is_some() ==> m1.trans.en_passant.unwrap().capture == mv.to
            && m1.trans.en_passant.unwrap().square.idx() * 2 == mv.from.idx() + mv.to.idx(),
{
}

/// Castling rights are lost by a king move, by a rook move from its start
/// square, by the capture of a rook on its start square, and by castling.
pub proof fn lemma_rights_lost<ZT: ZobristTables>(
    zt: &ZT,
    keeps_hash: bool,
    m0: DefaultMetaBoard,
    m1: DefaultMetaBoard,
    mv: BitMove,
    d: int,
)
    requires
        made(zt, keeps_hash, m0, m1, mv),
        0 <= d < 2,
    ensures
        mv.special.is_none() && mv.ech == ChessEchelon::KING ==> !m1.trans.rights@[m0.player.spec_ix() as int]@[d],
        mv.special.is_none() && mv.ech == ChessEchelon::ROOK && mv.from.idx()
            == m0.castling.rook_start@[m0.player.spec_ix() as int]@[d].idx()
            ==> !m1.trans.rights@[m0.player.spec_ix() as int]@[d],
        (mv.special.is_none() || PawnPromotion::spec_from_special(mv.special).is_some()) && mv.capture
            == Some(ChessCommoner::ROOK) && mv.to.idx() == m0.castling.rook_start@[m0.player.spec_opp().spec_ix() as int]@[d].idx()
            ==> !m1.trans.rights@[m0.player.spec_opp().spec_ix() as int]@[d],
        CastlingDirection::spec_from_special(mv.special).is_some() ==> !m1.trans.rights@[m0.player.spec_ix() as int]@[d],
{
    let x = m0.player.spec_ix() as int;
    let o = m0.player.spec_opp().spec_ix() as int;
    assert(m1.trans.rights@[x]@[d] == (m0.trans.rights@[x]@[d] && !move_clears(mv, m0.player, m0.trans.en_passant, m0.castling)(x, d)));
    assert(m1.trans.rights@[o]@[d] == (m0.trans.rights@[o]@[d] && !move_clears(mv, m0.player, m0.trans.en_passant, m0.castling)(o, d)));
}

/// The half-move clock resets on a capture and on a pawn move, and ticks
/// otherwise (stopping at its largest value).
pub proof fn lemma_clock_after_move<ZT: ZobristTables>(
    zt: &ZT,
    keeps_hash: bool,
    m0: DefaultMetaBoard,
    m1: DefaultMetaBoard,
    mv: BitMove,
)
    requires
        made(zt, keeps_hash, m0, m1, mv),
        CastlingDirection::spec_from_special(mv.special).is_some() ==> mv.ech == ChessEchelon::KING
            && mv.capture.is_none(),
        PawnPromotion::spec_from_special(mv.special).is_some() ==> mv.ech == ChessEchelon::PAWN,
        mv.special == Some(SpecialMove::PAWN) ==> mv.ech == ChessEchelon::PAWN,
    ensures
        m1.trans.halfmove_clock == (if mv.capture.is_some() || mv.ech == ChessEchelon::PAWN {
            0
        } else {
            clock_inc(m0.trans.halfmove_clock)
        }),
{
}

/// A chessman leaving square `f` of plane `a` and arriving on square `t`
/// of plane `b` (both planes of the mover, `t` free of the mover's
/// chessmen), taking along the chessman of plane `w` on `t` when there is
/// one (`w` is then its plane), keeps every square to at most one chessman.
pub proof fn lemma_transfer_keeps_disjoint(
    p: Seq<u64>,
    d: Seq<u64>,
    c: ChessColor,
    a: int,
    b: int,
    f: int,
    t: int,
    found: Option<ChessEchelon>,
)
    requires
        p.len() == 12,
        d.len() == 12,
        disjoint(p),
        0 <= f < 64,
        0 <= t < 64,
        f != t,
        c.spec_ix() * 6 <= a < c.spec_ix() * 6 + 6,
        c.spec_ix() * 6 <= b < c.spec_ix() * 6 + 6,
        has_bit(p[a], f),
        !has_bit(color_union(p, c.spec_ix() as int), t),
        found == ech_at_spec(p, t),
        forall|x: int, s: int|
            0 <= x < 12 && 0 <= s < 64 ==> #[trigger] has_bit(d[x], s) == (((x == a && s == f) != (x
                == b && s == t)) != (found is Some && x == pix(c.spec_opp(), found->0) && s == t)),
    ensures
        disjoint(seq_xor(p, d)),
{
    let q = seq_xor(p, d);
    let o = c.spec_opp();
    lemma_ech_at_found(p, t, 0);
    crate::movegen::lemma_color_bits(p, c.spec_ix() as int, t);
    assert forall|i: int, j: int, s: int|
        0 <= i < j < 12 && 0 <= s < 64 implies !(#[trigger] has_bit(q[i], s) && #[trigger] has_bit(q[j], s)) by {
        lemma_has_bit_xor(p[i], d[i], s);
        lemma_has_bit_xor(p[j], d[j], s);
        assert(has_bit(d[i], s) == (((i == a && s == f) != (i == b && s == t)) != (found is Some && i
            == pix(o, found->0) && s == t)));
        assert(has_bit(d[j], s) == (((j == a && s == f) != (j == b && s == t)) != (found is Some && j
            == pix(o, found->0) && s == t)));
        lemma_squares_of_disjoint(p, i, j, s);
        if i != a {
            lemma_squares_of_disjoint(p, i, a, f);
        }
        if j != a {
            lemma_squares_of_disjoint(p, j, a, f);
        }
        if found is Some {
            let e = found->0;
            let w = pix(o, e);
            assert(echelon_on(p, e.spec_ix() as int, t));
            assert(!has_bit(p[pix(c, e)], t));
            assert(has_bit(p[w], t));
            if i != w {
                lemma_squares_of_disjoint(p, i, w, t);
            }
            if j != w {
                lemma_squares_of_disjoint(p, j, w, t);
            }
        } else {
            assert(!echelon_on(p, i % 6, t));
            assert(!echelon_on(p, j % 6, t));
        }
    }
    lemma_disjoint_by_squares(q);
}

/// The squares of the single-bit planes of a move.
pub proof fn lemma_move_bits(mv: BitMove, s: int)
    requires
        0 <= s < 64,
    ensures
        has_bit(mv.from.bit_spec(), s) == (s == mv.from.idx()),
        has_bit(mv.to.bit_spec(), s) == (s == mv.to.idx()),
        has_bit(move_bits(mv), s) == (s == mv.from.idx() || s == mv.to.idx()),
        !has_bit(0u64, s),
{
    crate::moving::lemma_empty_plane(s);
    crate::setup::lemma_single_bit(mv.from.idx(), s);
    crate::setup::lemma_single_bit(mv.to.idx(), s);
    lemma_has_bit_or(mv.from.bit_spec(), mv.to.bit_spec(), s);
}

/// A move without special, a promotion that is no en-passant capture, or a
/// double push, of a chessman of the mover onto an empty square or onto an
/// enemy chessman other than the king recorded as its capture, keeps every
/// square to at most one chessman.
pub proof fn lemma_ordinary_move_keeps_disjoint(
    p: Seq<u64>,
    c: ChessColor,
    ep: Option<EnPassant>,
    cr: CastlingRules,
    mv: BitMove,
)
    requires
        p.len() == 12,
        disjoint(p),
        mv.special.is_none() || (PawnPromotion::spec_from_special(mv.special).is_some() && mv.ech
            == ChessEchelon::PAWN) || (mv.special == Some(SpecialMove::PAWN) && mv.capture.is_none()
            && mv.ech == ChessEchelon::PAWN),
        has_bit(p[pix(c, mv.ech)], mv.from.idx()),
        mv.from.idx() != mv.to.idx(),
        !has_bit(color_union(p, c.spec_ix() as int), mv.to.idx()),
        mv.capture == comm_of(ech_at_spec(p, mv.to.idx())),
        ech_at_spec(p, mv.to.idx()) != Some(ChessEchelon::KING),
    ensures
        disjoint(seq_xor(p, move_delta(mv, c, ep, cr))),
{
    let o = c.spec_opp();
    let d = move_delta(mv, c, ep, cr);
    let found = ech_at_spec(p, mv.to.idx());
    let f = mv.from.idx();
    let t = mv.to.idx();
    let cd = cap_delta(mv, o, mv.to);
    if found is Some {
        assert(mv.capture->0.spec_ech() == found->0);
    }
    let b = match PawnPromotion::spec_from_special(mv.special) {
        Some(pr) => pix(c, pr.spec_ech()),
        None => pix(c, mv.ech),
    };
    assert forall|x: int, s: int| 0 <= x < 12 && 0 <= s < 64 implies #[trigger] has_bit(d[x], s) == (((x
        == pix(c, mv.ech) && s == f) != (x == b && s == t)) != (found is Some && x == pix(o, found->0) && s
        == t)) by {
        lemma_move_bits(mv, s);
        lemma_seq_xor_zero(zero_planes());
        if mv.special.is_none() {
            let u = unit(pix(c, mv.ech), move_bits(mv));
            lemma_seq_xor_zero(seq_xor(u, cd));
            assert(d == seq_xor(u, cd));
            lemma_has_bit_xor(u[x], cd[x], s);
        } else if mv.special == Some(SpecialMove::PAWN) {
            let u = unit(pix(c, ChessEchelon::PAWN), move_bits(mv));
            let pd = seq_xor(u, match ep {
                Some(e) => cap_delta(mv, o, e.capture),
                None => zero_planes(),
            });
            lemma_seq_xor_zero(u);
            lemma_seq_xor_zero(pd);
            assert(d == pd);
            assert(pd == u);
        } else {
            let pr = PawnPromotion::spec_from_special(mv.special)->0;
            let u1 = unit(pix(c, ChessEchelon::PAWN), mv.from.bit_spec());
            let u2 = unit(pix(c, pr.spec_ech()), mv.to.bit_spec());
            let pd = seq_xor(seq_xor(u1, u2), cd);
            lemma_seq_xor_zero(pd);
            assert(d == pd);
            lemma_has_bit_xor(seq_xor(u1, u2)[x], cd[x], s);
            lemma_has_bit_xor(u1[x], u2[x], s);
        }
    }
    lemma_transfer_keeps_disjoint(p, d, c, pix(c, mv.ech), b, f, t, found);
}

/// An en-passant capture keeps every square to at most one chessman, when
/// the en-passant state is consistent with the planes: the pawn passed
/// over an empty square, which the capture lands on, and stands on the
/// state's capture square.
pub proof fn lemma_en_passant_keeps_disjoint(
    p: Seq<u64>,
    c: ChessColor,
    e: EnPassant,
    cr: CastlingRules,
    mv: BitMove,
)
    requires
        p.len() == 12,
        disjoint(p),
        mv.special == Some(SpecialMove::PAWN),
        mv.capture == Some(ChessCommoner::PAWN),
        mv.ech == ChessEchelon::PAWN,
        has_bit(p[pix(c, ChessEchelon::PAWN)], mv.from.idx()),
        mv.from.idx() != mv.to.idx(),
        ech_at_spec(p, mv.to.idx()) is None,
        has_bit(p[pix(c.spec_opp(), ChessEchelon::PAWN)], e.capture.idx()),
    ensures
        disjoint(seq_xor(p, move_delta(mv, c, Some(e), cr))),
{
    let o = c.spec_opp();
    let d = move_delta(mv, c, Some(e), cr);
    let f = mv.from.idx();
    let t = mv.to.idx();
    let g = e.capture.idx();
    let a = pix(c, ChessEchelon::PAWN);
    let w = pix(o, ChessEchelon::PAWN);
    let u = unit(a, move_bits(mv));
    let cd = cap_delta(mv, o, e.capture);
    lemma_seq_xor_zero(zero_planes());
    lemma_seq_xor_zero(seq_xor(u, cd));
    assert(d == seq_xor(u, cd));
    lemma_ech_at_found(p, t, 0);
    let q = seq_xor(p, d);
    assert forall|i: int, j: int, s: int|
        0 <= i < j < 12 && 0 <= s < 64 implies !(#[trigger] has_bit(q[i], s) && #[trigger] has_bit(q[j], s)) by {
        lemma_move_bits(mv, s);
        crate::setup::lemma_single_bit(g, s);
        lemma_has_bit_xor(p[i], d[i], s);
        lemma_has_bit_xor(p[j], d[j], s);
        lemma_has_bit_xor(u[i], cd[i], s);
        lemma_has_bit_xor(u[j], cd[j], s);
        lemma_squares_of_disjoint(p, i, j, s);
        if i != a {
            lemma_squares_of_disjoint(p, i, a, f);
        }
        if j != a {
            lemma_squares_of_disjoint(p, j, a, f);
        }
        if i != w {
            lemma_squares_of_disjoint(p, i, w, g);
        }
        if j != w {
            lemma_squares_of_disjoint(p, j, w, g);
        }
        lemma_squares_of_disjoint(p, a, w, g);
        assert(!echelon_on(p, i % 6, t));
        assert(!echelon_on(p, j % 6, t));
    }
    lemma_disjoint_by_squares(q);
}

/// A castling keeps every square to at most one chessman, when its king
/// and rook masks are apart and each of their squares holds that side's
/// king (or rook) or nothing.
pub proof fn lemma_castling_keeps_disjoint(
    p: Seq<u64>,
    c: ChessColor,
    ep: Option<EnPassant>,
    cr: CastlingRules,
    mv: BitMove,
    d: CastlingDirection,
)
    requires
        p.len() == 12,
        disjoint(p),
        CastlingDirection::spec_from_special(mv.special) == Some(d),
        ({
            let back = cr.back_rank@[c.spec_ix() as int];
            let km = cr.king_move@[d.spec_ix() as int] & back;
            let rm = cr.rook_move@[d.spec_ix() as int] & back;
            &&& km & rm == 0u64
            &&& forall|s: int|
                0 <= s < 64 && #[trigger] has_bit(km, s) ==> has_bit(p[pix(c, ChessEchelon::KING)], s)
                    || ech_at_spec(p, s) is None
            &&& forall|s: int|
                0 <= s < 64 && #[trigger] has_bit(rm, s) ==> has_bit(p[pix(c, ChessEchelon::ROOK)], s)
                    || ech_at_spec(p, s) is None
        }),
    ensures
        disjoint(seq_xor(p, move_delta(mv, c, ep, cr))),
{
    let back = cr.back_rank@[c.spec_ix() as int];
    let km = cr.king_move@[d.spec_ix() as int] & back;
    let rm = cr.rook_move@[d.spec_ix() as int] & back;
    let kp = pix(c, ChessEchelon::KING);
    let rp = pix(c, ChessEchelon::ROOK);
    let u1 = unit(kp, km);
    let u2 = unit(rp, rm);
    let dd = move_delta(mv, c, ep, cr);
    lemma_seq_xor_zero(zero_planes());
    lemma_seq_xor_zero(seq_xor(u1, u2));
    assert(dd == seq_xor(u1, u2));
    let q = seq_xor(p, dd);
    assert forall|i: int, j: int, s: int|
        0 <= i < j < 12 && 0 <= s < 64 implies !(#[trigger] has_bit(q[i], s) && #[trigger] has_bit(q[j], s)) by {
        crate::moving::lemma_empty_plane(s);
        lemma_has_bit_xor(p[i], dd[i], s);
        lemma_has_bit_xor(p[j], dd[j], s);
        lemma_has_bit_xor(u1[i], u2[i], s);
        lemma_has_bit_xor(u1[j], u2[j], s);
        lemma_has_bit_or(km, rm, s);
        lemma_squares_of_disjoint(p, i, j, s);
        lemma_ech_at_found(p, s, 0);
        if has_bit(km, s) {
            if has_bit(p[kp], s) {
                if i != kp {
                    lemma_squares_of_disjoint(p, i, kp, s);
                }
                if j != kp {
                    lemma_squares_of_disjoint(p, j, kp, s);
                }
            } else {
                assert(!echelon_on(p, i % 6, s));
                assert(!echelon_on(p, j % 6, s));
            }
        }
        if has_bit(rm, s) {
            if has_bit(p[rp], s) {
                if i != rp {
                    lemma_squares_of_disjoint(p, i, rp, s);
                }
                if j != rp {
                    lemma_squares_of_disjoint(p, j, rp, s);
                }
            } else {
                assert(!echelon_on(p, i % 6, s));
                assert(!echelon_on(p, j % 6, s));
            }
        }
    }
    lemma_disjoint_by_squares(q);
}

/// On a whole board, making a move keeps the hash the hash of the
/// position computed from scratch.
pub proof fn lemma_board_make_keeps_hash<BB: crate::board::ChessBoard, ZT: ZobristTables>(
    zt: &ZT,
    b0: &BB,
    b1: &BB,
    mv: BitMove,
)
    requires
        b0.planes_view().len() == 12,
        b0.meta_view().hash == position_hash(zt, b0.planes_view(), b0.meta_view().trans, b0.meta_view().player),
        b1.planes_view() == moved(
            BB::moves_men(),
            b0.planes_view(),
            move_delta(mv, b0.meta_view().player, b0.meta_view().trans.en_passant, b0.meta_view().castling),
        ),
        made(zt, BB::keeps_hash(), b0.meta_view(), b1.meta_view(), mv),
    ensures
        b1.meta_view().hash == position_hash(zt, b1.planes_view(), b1.meta_view().trans, b1.meta_view().player),
{
    BB::lemma_whole_board();
    lemma_make_keeps_hash(zt, b0.planes_view(), b0.meta_view(), b1.meta_view(), mv);
}

/// On a whole board, the hash previewed for a move is the hash that making
/// it gives.
pub proof fn lemma_board_preview_is_made_hash<BB: crate::board::ChessBoard, ZT: ZobristTables>(
    zt: &ZT,
    b0: &BB,
    b1: &BB,
    mv: BitMove,
)
    requires
        made(zt, BB::keeps_hash(), b0.meta_view(), b1.meta_view(), mv),
    ensures
        b1.meta_view().hash == b0.meta_view().hash ^ move_hash_delta(
            zt,
            mv,
            b0.meta_view().player,
            b0.meta_view().trans,
            b0.meta_view().castling,
        ),
{
    BB::lemma_whole_board();
}

} // verus!
