//! Move generation: pseudo-legal enumeration, and the legality filter that
//! keeps the moves after which the mover's king is not attacked.
//!
//! Moves come in a fixed order: pawns, knights, bishops, rooks, queens,
//! king, castlings; within each kind by ascending from-square, then
//! ascending to-square.
use vstd::prelude::*;
use vstd::std_specs::bits::u64_trailing_zeros;
use crate::binary::{has_bit, king_attacks, knight_attacks};
use crate::board::{BitBoard, color_union, comm_of, disjoint, ech_at_spec, echelon_on, lemma_has_bit_or, total_union};
use crate::hash::pix;
use crate::model::{
    BitMove, CastlingDirection, ChessColor, ChessCommoner, ChessEchelon, EnPassant, LegalMove,
    PawnPromotion, PseudoLegal, SpecialMove, Square,
};
use crate::moving::{clone_make_pseudolegal_move, move_delta, moved};
use crate::vision::{
    PawnsBitBlit, SimplePanopticon, bishop_from, mask_union, pawn_advances, pawn_attacks,
    queen_from, rook_from,
};

verus! {

/// The squares the chessmen of color `c` attack, on planes `p`.
pub open spec fn side_attacks(p: Seq<u64>, c: ChessColor) -> u64 {
    let b = c.spec_ix() * 6;
    let total = total_union(p);
    ((((pawn_attacks(c, p[b]) | knight_attacks(p[b + 1])) | mask_union(bishop_from(total), p[b + 2], 64))
        | mask_union(rook_from(total), p[b + 3], 64)) | mask_union(queen_from(total), p[b + 4], 64))
        | king_attacks(p[b + 5])
}

/// Whether the king of color `c` is attacked on planes `p`.
pub open spec fn king_attacked(p: Seq<u64>, c: ChessColor) -> bool {
    side_attacks(p, c.spec_opp()) & p[pix(c, ChessEchelon::KING)] != 0u64
}

/// The planes of a board after a move of its side to move.
pub open spec fn planes_after<BB: BitBoard>(b: &BB, mv: BitMove) -> Seq<u64> {
    moved(
        BB::moves_men(),
        b.planes_view(),
        move_delta(mv, b.meta_view().player, b.meta_view().trans.en_passant, b.meta_view().castling),
    )
}

/// A move passes the legality filter: after it the mover's king is not
/// attacked, and a castling's king squares are not attacked before it.
pub open spec fn legal_in<BB: BitBoard>(b: &BB, mv: BitMove) -> bool {
    let c = b.meta_view().player;
    let cr = b.meta_view().castling;
    &&& disjoint(planes_after(b, mv)) ==> !king_attacked(planes_after(b, mv), c)
    &&& match CastlingDirection::spec_from_special(mv.special) {
        Some(d) => disjoint(b.planes_view()) ==> side_attacks(b.planes_view(), c.spec_opp()) & (
        cr.safety@[d.spec_ix() as int] & cr.back_rank@[c.spec_ix() as int]) == 0u64,
        None => true,
    }
}

/// The legality test itself: after the move the mover's king is not
/// attacked, and a castling's king squares are not attacked before it.
pub open spec fn legal_exact<BB: BitBoard>(b: &BB, mv: BitMove) -> bool {
    let c = b.meta_view().player;
    let cr = b.meta_view().castling;
    &&& !king_attacked(planes_after(b, mv), c)
    &&& match CastlingDirection::spec_from_special(mv.special) {
        Some(d) => side_attacks(b.planes_view(), c.spec_opp()) & (cr.safety@[d.spec_ix() as int]
            & cr.back_rank@[c.spec_ix() as int]) == 0u64,
        None => true,
    }
}

/// Whether the generator owes a candidate move: always without the filter,
/// and with it when the move is legal on consistent planes.
pub open spec fn owed<BB: BitBoard>(b: &BB, legal: bool, mv: BitMove) -> bool {
    !legal || (disjoint(planes_after(b, mv)) && legal_exact(b, mv))
}

/// Pushing keeps what a sequence contains.
pub proof fn lemma_push_contains(s: Seq<BitMove>, v: BitMove, x: BitMove)
    ensures
        s.contains(x) ==> s.push(v).contains(x),
        s.push(v).contains(v),
{
    if s.contains(x) {
        let i = choose|i: int| 0 <= i < s.len() && s[i] == x;
        assert(s.push(v)[i] == x);
    }
    assert(s.push(v)[s.len() as int] == v);
}

/// Whether a move is an en-passant capture: the pawn special with a capture.
pub open spec fn is_en_passant(mv: BitMove) -> bool {
    mv.special == Some(SpecialMove::PAWN) && mv.capture.is_some()
}

/// The shape of a generated move on planes `p` with `c` to move: a
/// castling is a king move without capture; any other move starts on a
/// chessman of its echelon and color, ends off the mover's chessmen, and
/// records as its capture what stands on its destination (but en passant,
/// which lands on an empty square); a pawn reaching the first or last rank
/// other than en passant promotes, and only pawns promote.
pub open spec fn move_fits(p: Seq<u64>, c: ChessColor, mv: BitMove) -> bool {
    &&& match CastlingDirection::spec_from_special(mv.special) {
        Some(_) => mv.ech == ChessEchelon::KING && mv.capture.is_none(),
        None => has_bit(p[pix(c, mv.ech)], mv.from.idx()) && !has_bit(
            color_union(p, c.spec_ix() as int),
            mv.to.idx(),
        ) && (!is_en_passant(mv) ==> mv.capture == comm_of(ech_at_spec(p, mv.to.idx())))
            && ech_at_spec(p, mv.to.idx()) != Some(ChessEchelon::KING) && mv.is_sane(),
    }
    &&& mv.ech == ChessEchelon::PAWN && (mv.to.idx() < 8 || mv.to.idx() >= 56) && !is_en_passant(mv)
        ==> PawnPromotion::spec_from_special(mv.special).is_some()
    &&& PawnPromotion::spec_from_special(mv.special).is_some() ==> mv.ech == ChessEchelon::PAWN
}

/// An en-passant capture lands on the board's en-passant square.
pub open spec fn ep_tied<BB: BitBoard>(b: &BB, mv: BitMove) -> bool {
    is_en_passant(mv) ==> (b.meta_view().trans.en_passant is Some && mv.to.idx()
        == b.meta_view().trans.en_passant->0.square.idx())
}

/// A move of a piece (not a pawn) of the side to move: from a square of
/// its plane to a square it attacks that holds neither a chessman of the
/// mover nor the enemy king, capturing what stands there.
pub open spec fn piece_base<BB: BitBoard>(b: &BB, x: BitMove) -> bool {
    let p = b.planes_view();
    let c = b.meta_view().player;
    &&& x.ech != ChessEchelon::PAWN
    &&& x.special is None
    &&& x.from.0 < 64
    &&& x.to.0 < 64
    &&& has_bit(p[pix(c, x.ech)], x.from.idx())
    &&& has_bit(piece_sees(x.ech, x.from, total_union(p)) & !color_union(p, c.spec_ix() as int), x.to.idx())
    &&& ech_at_spec(p, x.to.idx()) != Some(ChessEchelon::KING)
    &&& x.capture == comm_of(ech_at_spec(p, x.to.idx()))
}

/// A pawn move of the side to move before promotion: a push onto the
/// empty squares ahead, or a capture onto an enemy chessman other than the
/// king or onto the en-passant square.
pub open spec fn pawn_base<BB: BitBoard>(b: &BB, y: BitMove) -> bool {
    let p = b.planes_view();
    let c = b.meta_view().player;
    let f = y.from.0 as int;
    let t = y.to.0 as int;
    &&& y.from.0 < 64
    &&& y.to.0 < 64
    &&& has_bit(p[pix(c, ChessEchelon::PAWN)], f)
    &&& ((has_bit(pawn_advances(c, y.from.bit_spec(), !total_union(p)), t) && y == pawn_push_at(f, t)) || (has_bit(
        pawn_attacks(c, y.from.bit_spec()) & capture_targets(b),
        t,
    ) && ech_at_spec(p, t) != Some(ChessEchelon::KING) && y == pawn_capture_at(p, f, t)))
}

/// A candidate move of the side to move: a piece move, a pawn move (one
/// per promotion where it promotes), or an open castling.
pub open spec fn is_candidate<BB: BitBoard>(b: &BB, x: BitMove) -> bool {
    ||| piece_base(b, x)
    ||| exists|y: BitMove, j: int| pawn_base(b, y) && 0 <= j < promo_variants(y).len() && x == #[trigger] promo_variants(y)[j]
    ||| castle_open(b, CastlingDirection::EAST) && x == castle_move_at(b, CastlingDirection::EAST)
    ||| castle_open(b, CastlingDirection::WEST) && x == castle_move_at(b, CastlingDirection::WEST)
}

/// Every move of `buf` fits the board, and passes the filter when `legal`.
pub open spec fn all_fit<BB: BitBoard>(b: &BB, legal: bool, buf: Seq<BitMove>) -> bool {
    forall|i: int|
        0 <= i < buf.len() ==> disjoint(b.planes_view()) ==> move_fits(
            b.planes_view(),
            b.meta_view().player,
            #[trigger] buf[i],
        ) && ep_tied(b, buf[i]) && is_candidate(b, buf[i]) && (legal ==> legal_in(b, buf[i]))
}

/// The lowest set bit of a non-empty plane is set.
pub proof fn lemma_lowest_bit(m: u64)
    requires
        m != 0,
    ensures
        0 <= u64_trailing_zeros(m) < 64,
        has_bit(m, u64_trailing_zeros(m) as int),
{
    vstd::std_specs::bits::axiom_u64_trailing_zeros(m);
}

/// Clearing the lowest set bit leaves a smaller plane within the old one.
pub proof fn lemma_clear_lowest(m: u64)
    requires
        m != 0,
    ensures
        m & sub_one(m) < m,
        forall|s: int| #[trigger] has_bit(m & sub_one(m), s) ==> has_bit(m, s),
{
    assert(m != 0 ==> m & ((m - 1) as u64) < m) by (bit_vector);
    assert forall|s: int| #[trigger] has_bit(m & sub_one(m), s) implies has_bit(m, s) by {
        if 0 <= s < 64 {
            lemma_has_bit_or(m, sub_one(m), s);
        }
    }
}

/// One less than a non-zero plane.
pub open spec fn sub_one(m: u64) -> u64 {
    (m - 1) as u64
}

/// A square of a color's union is a square of one of its planes.
pub proof fn lemma_color_bits(p: Seq<u64>, i: int, s: int)
    requires
        p.len() == 12,
        0 <= i < 2,
        0 <= s < 64,
    ensures
        has_bit(color_union(p, i), s) == (has_bit(p[i * 6], s) || has_bit(p[i * 6 + 1], s) || has_bit(p[i * 6 + 2], s)
            || has_bit(p[i * 6 + 3], s) || has_bit(p[i * 6 + 4], s) || has_bit(p[i * 6 + 5], s)),
{
    let b = i * 6;
    lemma_has_bit_or(p[b], p[b + 1], s);
    lemma_has_bit_or(p[b] | p[b + 1], p[b + 2], s);
    lemma_has_bit_or((p[b] | p[b + 1]) | p[b + 2], p[b + 3], s);
    lemma_has_bit_or(((p[b] | p[b + 1]) | p[b + 2]) | p[b + 3], p[b + 4], s);
    lemma_has_bit_or((((p[b] | p[b + 1]) | p[b + 2]) | p[b + 3]) | p[b + 4], p[b + 5], s);
}

/// Under disjointness, the two colors' squares are apart.
pub proof fn lemma_colors_apart(p: Seq<u64>, s: int)
    requires
        p.len() == 12,
        disjoint(p),
        0 <= s < 64,
    ensures
        !(has_bit(color_union(p, 0), s) && has_bit(color_union(p, 1), s)),
        has_bit(total_union(p), s) == (has_bit(color_union(p, 0), s) || has_bit(color_union(p, 1), s)),
{
    lemma_has_bit_or(color_union(p, 0), color_union(p, 1), s);
    lemma_color_bits(p, 0, s);
    lemma_color_bits(p, 1, s);
    assert forall|a: int, b: int| 0 <= a < 6 && 6 <= b < 12 implies !(has_bit(p[a], s) && has_bit(p[b], s)) by {
        lemma_has_bit_or(p[a], p[b], s);
        assert(p[a] & p[b] == 0u64);
        crate::moving::lemma_empty_plane(s);
    }
}

/// Whether the attacks reach the targeted king squares.
#[derive(Debug, Clone, Copy)]
pub struct Attacks {
    pub attack: u64,
    pub targeted_king: u64,
}

impl Attacks {
    /// The targeted squares are attacked.
    pub fn check(self) -> (r: bool)
        ensures
            r == (self.attack & self.targeted_king != 0u64),
    {
        (self.attack & self.targeted_king) != 0
    }
}

/// The squares attacked by the pieces (not the pawns) of one side, given
/// that side's six planes.
pub fn attacks_from_echarray_pieces(pan: SimplePanopticon, echs: &[u64; 6]) -> (r: u64)
    ensures
        r == (((knight_attacks(echs@[1]) | mask_union(bishop_from(pan.total), echs@[2], 64)) | mask_union(
            rook_from(pan.total),
            echs@[3],
            64,
        )) | mask_union(queen_from(pan.total), echs@[4], 64)) | king_attacks(echs@[5]),
{
    let knights = pan.knight().surveil(echs[1]);
    let bishops = pan.bishop().surveil(echs[2]);
    let rooks = pan.rook().surveil(echs[3]);
    let queens = pan.queen().surveil(echs[4]);
    let kings = pan.king().surveil(echs[5]);
    (((knights | bishops) | rooks) | queens) | kings
}

/// The squares attacked by white, given white's six planes.
pub fn attacks_from_echarray_white(pan: SimplePanopticon, echs: &[u64; 6]) -> (r: u64)
    ensures
        r == pawn_attacks(ChessColor::WHITE, echs@[0]) | attacks_from_echarray_pieces_spec(pan.total, echs@),
{
    pan.white_pawn().surveil(echs[0]) | attacks_from_echarray_pieces(pan, echs)
}

/// The squares attacked by black, given black's six planes.
pub fn attacks_from_echarray_black(pan: SimplePanopticon, echs: &[u64; 6]) -> (r: u64)
    ensures
        r == pawn_attacks(ChessColor::BLACK, echs@[0]) | attacks_from_echarray_pieces_spec(pan.total, echs@),
{
    pan.black_pawn().surveil(echs[0]) | attacks_from_echarray_pieces(pan, echs)
}

/// The squares attacked by the pieces of one side with planes `e`.
pub open spec fn attacks_from_echarray_pieces_spec(total: u64, e: Seq<u64>) -> u64 {
    (((knight_attacks(e[1]) | mask_union(bishop_from(total), e[2], 64)) | mask_union(rook_from(total), e[3], 64))
        | mask_union(queen_from(total), e[4], 64)) | king_attacks(e[5])
}

/// Regrouping six attack planes.
pub proof fn lemma_or6(a: u64, b: u64, c: u64, d: u64, e: u64, f: u64)
    ensures
        a | ((((b | c) | d) | e) | f) == ((((a | b) | c) | d) | e) | f,
{
    assert(a | ((((b | c) | d) | e) | f) == ((((a | b) | c) | d) | e) | f) by (bit_vector);
}

/// The squares the chessmen of one color attack.
pub fn attacks_by<BB: BitBoard>(board: &BB, color: ChessColor) -> (r: u64)
    requires
        board.wf(),
        board.planes_view().len() == 12,
    ensures
        disjoint(board.planes_view()) ==> r == side_attacks(board.planes_view(), color),
{
    let total = board.total();
    let pan = SimplePanopticon::new(total);
    let echs: [u64; 6] = [
        board.men(color, ChessEchelon::PAWN),
        board.men(color, ChessEchelon::KNIGHT),
        board.men(color, ChessEchelon::BISHOP),
        board.men(color, ChessEchelon::ROOK),
        board.men(color, ChessEchelon::QUEEN),
        board.men(color, ChessEchelon::KING),
    ];
    let r = match color {
        ChessColor::WHITE => attacks_from_echarray_white(pan, &echs),
        ChessColor::BLACK => attacks_from_echarray_black(pan, &echs),
    };
    proof {
        let p = board.planes_view();
        let b = color.spec_ix() * 6;
        let t = pan.total;
        lemma_or6(
            pawn_attacks(color, echs@[0]),
            knight_attacks(echs@[1]),
            mask_union(bishop_from(t), echs@[2], 64),
            mask_union(rook_from(t), echs@[3], 64),
            mask_union(queen_from(t), echs@[4], 64),
            king_attacks(echs@[5]),
        );
        if disjoint(p) {
            assert(echs@[0] == p[b] && echs@[1] == p[b + 1] && echs@[2] == p[b + 2]);
            assert(echs@[3] == p[b + 3] && echs@[4] == p[b + 4] && echs@[5] == p[b + 5]);
        }
    }
    r
}

/// Whether the side to move's king is attacked.
pub fn is_in_check<BB: BitBoard>(board: &BB) -> (r: bool)
    requires
        board.wf(),
        board.planes_view().len() == 12,
    ensures
        disjoint(board.planes_view()) ==> r == king_attacked(board.planes_view(), board.meta_view().player),
{
    let player = board.ply().0;
    Attacks { attack: attacks_by(board, player.opp()), targeted_king: board.men(player, ChessEchelon::KING) }.check()
}

/// The legality filter. `cached_attack` holds the opponent's attacks on
/// the board as it stands.
pub fn bless<BB: BitBoard + Copy>(board: &BB, cached_attack: u64, mv: BitMove) -> (r: bool)
    requires
        board.wf(),
        board.planes_view().len() == 12,
        disjoint(board.planes_view()) ==> cached_attack == side_attacks(board.planes_view(), board.meta_view().player.spec_opp()),
    ensures
        r ==> legal_in(board, mv),
        disjoint(board.planes_view()) && disjoint(planes_after(board, mv)) ==> (r == legal_exact(board, mv)),
{
    let player = board.ply().0;
    let after = clone_make_pseudolegal_move(board, PseudoLegal(mv));
    let threat = attacks_by(&after, player.opp());
    let king = after.men(player, ChessEchelon::KING);
    if (Attacks { attack: threat, targeted_king: king }).check() {
        return false;
    }
    if let Some(dir) = CastlingDirection::from_special(mv.special) {
        let castling = board.castling();
        let safety = castling.safety[dir.ix()] & castling.back_rank[player.ix()];
        if (Attacks { attack: cached_attack, targeted_king: safety }).check() {
            return false;
        }
    }
    proof {
        assert(after.meta_view().player == player.spec_opp());
    }
    true
}

/// Add a move to the buffer when it passes the filter (or always, when
/// the filter is off).
fn bless_into<BB: BitBoard + Copy>(
    board: &BB,
    legal: bool,
    cached_attack: u64,
    mv: BitMove,
    buffer: &mut Vec<BitMove>,
)
    requires
        board.wf(),
        board.planes_view().len() == 12,
        disjoint(board.planes_view()) ==> cached_attack == side_attacks(board.planes_view(), board.meta_view().player.spec_opp()),
        all_fit(board, legal, old(buffer)@),
        disjoint(board.planes_view()) ==> move_fits(board.planes_view(), board.meta_view().player, mv),
        disjoint(board.planes_view()) ==> ep_tied(board, mv),
        disjoint(board.planes_view()) ==> is_candidate(board, mv),
    ensures
        all_fit(board, legal, final(buffer)@),
        final(buffer)@ == old(buffer)@ || final(buffer)@ == old(buffer)@.push(mv),
        disjoint(board.planes_view()) && owed(board, legal, mv) ==> final(buffer)@ == old(buffer)@.push(mv),
{
    if !legal || bless(board, cached_attack, mv) {
        buffer.push(mv);
        proof {
            assert forall|i: int| 0 <= i < final(buffer)@.len() implies disjoint(board.planes_view()) ==> move_fits(
                board.planes_view(),
                board.meta_view().player,
                #[trigger] final(buffer)@[i],
            ) && (legal ==> legal_in(board, final(buffer)@[i])) by {
                if i < old(buffer)@.len() {
                    assert(final(buffer)@[i] == old(buffer)@[i]);
                }
            }
        }
    }
}

/// The moves a pawn move stands for: on the first or last rank one per
/// promotion, else the move itself.
pub open spec fn promo_variants(mv: BitMove) -> Seq<BitMove> {
    if (mv.to.idx() < 8 || mv.to.idx() >= 56) && !is_en_passant(mv) {
        seq![
            BitMove { special: Some(SpecialMove::KNIGHT), ..mv },
            BitMove { special: Some(SpecialMove::BISHOP), ..mv },
            BitMove { special: Some(SpecialMove::ROOK), ..mv },
            BitMove { special: Some(SpecialMove::QUEEN), ..mv },
        ]
    } else {
        seq![mv]
    }
}

/// Every owed move that pawn move `mv` stands for is in `buf`.
pub open spec fn variants_done<BB: BitBoard>(b: &BB, legal: bool, buf: Seq<BitMove>, mv: BitMove) -> bool {
    forall|j: int|
        0 <= j < promo_variants(mv).len() && owed(b, legal, promo_variants(mv)[j]) ==> #[trigger] buf.contains(
            promo_variants(mv)[j],
        )
}

/// Two moves of the same chessman between the same squares with the same capture.
pub open spec fn same_squares(x: BitMove, mv: BitMove) -> bool {
    x.from == mv.from && x.to == mv.to && x.ech == mv.ech && x.capture == mv.capture
}

/// The place of a promotion in the order knight, bishop, rook, queen.
pub open spec fn promo_rank(sp: Option<SpecialMove>) -> int {
    match sp {
        Some(SpecialMove::KNIGHT) => 0,
        Some(SpecialMove::BISHOP) => 1,
        Some(SpecialMove::ROOK) => 2,
        Some(SpecialMove::QUEEN) => 3,
        _ => 4,
    }
}

/// A pawn move, once per promotion when it reaches the first or last rank.
fn promotions<BB: BitBoard + Copy>(
    board: &BB,
    legal: bool,
    cached_attack: u64,
    mv: BitMove,
    buffer: &mut Vec<BitMove>,
)
    requires
        board.wf(),
        board.planes_view().len() == 12,
        disjoint(board.planes_view()) ==> cached_attack == side_attacks(board.planes_view(), board.meta_view().player.spec_opp()),
        all_fit(board, legal, old(buffer)@),
        mv.ech == ChessEchelon::PAWN,
        CastlingDirection::spec_from_special(mv.special).is_none(),
        PawnPromotion::spec_from_special(mv.special).is_none(),
        disjoint(board.planes_view()) ==> has_bit(board.planes_view()[pix(board.meta_view().player, ChessEchelon::PAWN)], mv.from.idx()),
        disjoint(board.planes_view()) ==> !has_bit(color_union(board.planes_view(), board.meta_view().player.spec_ix() as int), mv.to.idx()),
        disjoint(board.planes_view()) && !is_en_passant(mv) ==> mv.capture == comm_of(ech_at_spec(board.planes_view(), mv.to.idx())),
        disjoint(board.planes_view()) ==> mv.from.idx() != mv.to.idx() && ech_at_spec(board.planes_view(), mv.to.idx())
            != Some(ChessEchelon::KING) && ep_tied(board, mv),
        mv.special == Some(SpecialMove::PAWN) ==> ((mv.capture.is_some() ==> mv.capture == Some(ChessCommoner::PAWN))
            && (mv.capture.is_none() ==> crate::moving::is_double(mv))),
        disjoint(board.planes_view()) ==> pawn_base(board, mv),
    ensures
        all_fit(board, legal, final(buffer)@),
        forall|x: BitMove| old(buffer)@.contains(x) ==> #[trigger] final(buffer)@.contains(x),
        disjoint(board.planes_view()) ==> variants_done(board, legal, final(buffer)@, mv),
        final(buffer)@.len() >= old(buffer)@.len(),
        final(buffer)@.subrange(0, old(buffer)@.len() as int) == old(buffer)@,
        forall|i: int| old(buffer)@.len() <= i < final(buffer)@.len() ==> same_squares(#[trigger] final(buffer)@[i], mv),
        old(buffer)@.no_duplicates() && (forall|i: int| 0 <= i < old(buffer)@.len() ==> !same_squares(#[trigger] old(buffer)@[i], mv))
            ==> final(buffer)@.no_duplicates(),
{
    let ghost start = buffer@;
    let to = mv.to.ix();
    let en_passant = match (mv.special, mv.capture) {
        (Some(SpecialMove::PAWN), Some(_)) => true,
        _ => false,
    };
    if (to < 8 || to >= 56) && !en_passant {
        let specials: [SpecialMove; 4] = [SpecialMove::KNIGHT, SpecialMove::BISHOP, SpecialMove::ROOK, SpecialMove::QUEEN];
        let ghost vs = promo_variants(mv);
        let mut i: usize = 0;
        while i < 4
            invariant
                i <= 4,
                board.wf(),
                board.planes_view().len() == 12,
                disjoint(board.planes_view()) ==> cached_attack == side_attacks(board.planes_view(), board.meta_view().player.spec_opp()),
                all_fit(board, legal, buffer@),
                mv.ech == ChessEchelon::PAWN,
                mv.to.idx() < 8 || mv.to.idx() >= 56,
                !is_en_passant(mv),
                disjoint(board.planes_view()) ==> mv.capture == comm_of(ech_at_spec(board.planes_view(), mv.to.idx())),
                disjoint(board.planes_view()) ==> mv.from.idx() != mv.to.idx() && ech_at_spec(board.planes_view(), mv.to.idx())
                    != Some(ChessEchelon::KING),
                vs == promo_variants(mv),
                disjoint(board.planes_view()) ==> pawn_base(board, mv),
                disjoint(board.planes_view()) ==> has_bit(board.planes_view()[pix(board.meta_view().player, ChessEchelon::PAWN)], mv.from.idx()),
                disjoint(board.planes_view()) ==> !has_bit(color_union(board.planes_view(), board.meta_view().player.spec_ix() as int), mv.to.idx()),
                specials@ == seq![SpecialMove::KNIGHT, SpecialMove::BISHOP, SpecialMove::ROOK, SpecialMove::QUEEN],
                forall|x: BitMove| start.contains(x) ==> #[trigger] buffer@.contains(x),
                disjoint(board.planes_view()) ==> forall|j: int|
                    0 <= j < i && owed(board, legal, vs[j]) ==> #[trigger] buffer@.contains(vs[j]),
                buffer@.len() >= start.len(),
                buffer@.subrange(0, start.len() as int) == start,
                forall|k: int| start.len() <= k < buffer@.len() ==> same_squares(#[trigger] buffer@[k], mv)
                    && promo_rank(buffer@[k].special) < i,
                start.no_duplicates() && (forall|k: int| 0 <= k < start.len() ==> !same_squares(#[trigger] start[k], mv))
                    ==> buffer@.no_duplicates(),
            decreases 4 - i,
        {
            let promoted = BitMove { special: Some(specials[i]), ..mv };
            let ghost before = buffer@;
            proof {
                assert(promoted == vs[i as int]);
                if disjoint(board.planes_view()) {
                    assert(pawn_base(board, mv) && 0 <= i < promo_variants(mv).len() && promoted == promo_variants(mv)[i as int]);
                }
                if start.no_duplicates() && (forall|k: int| 0 <= k < start.len() ==> !same_squares(#[trigger] start[k], mv)) {
                    assert forall|k: int| 0 <= k < buffer@.len() implies buffer@[k] != promoted by {
                        if k < start.len() {
                            assert(buffer@[k] == start[k]);
                            assert(!same_squares(start[k], mv));
                        } else {
                            assert(promo_rank(buffer@[k].special) < i);
                        }
                    }
                    lemma_push_nodup(buffer@, promoted);
                }
            }
            bless_into(board, legal, cached_attack, promoted, buffer);
            proof {
                lemma_push_keeps(before, promoted);
                assert(promoted == vs[i as int]);
            }
            i = i + 1;
        }
    } else {
        proof {
            assert(promo_variants(mv)[0] == mv);
            if disjoint(board.planes_view()) {
                assert(pawn_base(board, mv) && 0 <= 0 < promo_variants(mv).len() && mv == promo_variants(mv)[0]);
            }
            if start.no_duplicates() && (forall|k: int| 0 <= k < start.len() ==> !same_squares(#[trigger] start[k], mv)) {
                assert forall|k: int| 0 <= k < buffer@.len() implies buffer@[k] != mv by {
                    assert(!same_squares(start[k], mv));
                }
                lemma_push_nodup(buffer@, mv);
            }
        }
        bless_into(board, legal, cached_attack, mv, buffer);
        proof {
            lemma_push_keeps(start, mv);
            assert(promo_variants(mv)[0] == mv);
            assert(buffer@.subrange(0, start.len() as int) =~= start);
        }
    }
}

/// The push of a pawn from square `f` to square `t`, marked as the pawn
/// special when it goes two ranks.
pub open spec fn pawn_push_at(f: int, t: int) -> BitMove {
    BitMove {
        from: Square(f as u8),
        to: Square(t as u8),
        ech: ChessEchelon::PAWN,
        special: if f + 16 == t || t + 16 == f {
            Some(SpecialMove::PAWN)
        } else {
            None
        },
        capture: None,
    }
}

/// The capture of a pawn from square `f` onto square `t`: of the chessman
/// there, or en passant when the square is empty.
pub open spec fn pawn_capture_at(p: Seq<u64>, f: int, t: int) -> BitMove {
    match comm_of(ech_at_spec(p, t)) {
        Some(k) => BitMove {
            from: Square(f as u8),
            to: Square(t as u8),
            ech: ChessEchelon::PAWN,
            special: None,
            capture: Some(k),
        },
        None => BitMove {
            from: Square(f as u8),
            to: Square(t as u8),
            ech: ChessEchelon::PAWN,
            special: Some(SpecialMove::PAWN),
            capture: Some(ChessCommoner::PAWN),
        },
    }
}

/// The squares a pawn of the side to move may capture onto: the enemy's,
/// and the en-passant square unless the mover stands there.
pub open spec fn capture_targets<BB: BitBoard>(b: &BB) -> u64 {
    let p = b.planes_view();
    let c = b.meta_view().player;
    let ep: u64 = match b.meta_view().trans.en_passant {
        Some(e) => e.square.bit_spec(),
        None => 0,
    };
    color_union(p, c.spec_opp().spec_ix() as int) | (ep & !color_union(p, c.spec_ix() as int))
}

/// Every owed move of the pawn on square `f` is in `buf`.
pub open spec fn pawn_done<BB: BitBoard>(b: &BB, legal: bool, buf: Seq<BitMove>, f: int) -> bool {
    let p = b.planes_view();
    let c = b.meta_view().player;
    &&& forall|t: int|
        0 <= t < 64 && has_bit(pawn_advances(c, Square(f as u8).bit_spec(), !total_union(p)), t)
            ==> #[trigger] variants_done(b, legal, buf, pawn_push_at(f, t))
    &&& forall|t: int|
        0 <= t < 64 && has_bit(pawn_attacks(c, Square(f as u8).bit_spec()) & capture_targets(b), t)
            && ech_at_spec(p, t) != Some(ChessEchelon::KING) ==> #[trigger] variants_done(b, legal, buf, pawn_capture_at(p, f, t))
}

/// What a sequence has for some moves, a larger one has too.
pub proof fn lemma_variants_grow<BB: BitBoard>(b: &BB, legal: bool, s1: Seq<BitMove>, s2: Seq<BitMove>, mv: BitMove)
    requires
        forall|x: BitMove| s1.contains(x) ==> #[trigger] s2.contains(x),
        variants_done(b, legal, s1, mv),
    ensures
        variants_done(b, legal, s2, mv),
{
    assert forall|j: int| 0 <= j < promo_variants(mv).len() && owed(b, legal, promo_variants(mv)[j]) implies #[trigger] s2.contains(
        promo_variants(mv)[j],
    ) by {
        assert(s1.contains(promo_variants(mv)[j]));
    }
}

/// The pawn moves of the side to move: pushes (a double push marked as
/// the pawn special), captures onto enemy chessmen, and captures onto the
/// en-passant square (marked as the pawn special, capturing a pawn).
pub fn pawn_moves<BB: BitBoard + Copy>(
    board: &BB,
    legal: bool,
    cached_attack: u64,
    pawn_vision: PawnsBitBlit,
    buffer: &mut Vec<BitMove>,
)
    requires
        board.wf(),
        board.planes_view().len() == 12,
        disjoint(board.planes_view()) ==> cached_attack == side_attacks(board.planes_view(), board.meta_view().player.spec_opp()),
        disjoint(board.planes_view()) ==> pawn_vision.total == total_union(board.planes_view()),
        pawn_vision.color == board.meta_view().player,
        all_fit(board, legal, old(buffer)@),
    ensures
        all_fit(board, legal, final(buffer)@),
        forall|x: BitMove| old(buffer)@.contains(x) ==> #[trigger] final(buffer)@.contains(x),
        disjoint(board.planes_view()) ==> forall|f: int|
            0 <= f < 64 && has_bit(board.planes_view()[pix(board.meta_view().player, ChessEchelon::PAWN)], f)
                ==> #[trigger] pawn_done(board, legal, final(buffer)@, f),
        final(buffer)@.len() >= old(buffer)@.len(),
        final(buffer)@.subrange(0, old(buffer)@.len() as int) == old(buffer)@,
        forall|i: int| old(buffer)@.len() <= i < final(buffer)@.len() ==> (#[trigger] final(buffer)@[i]).ech == ChessEchelon::PAWN,
        free_of(old(buffer)@, pawn_pred()) ==> final(buffer)@.no_duplicates(),
{
    let player = board.ply().0;
    let pawns = board.men(player, ChessEchelon::PAWN);
    let friendly = board.color(player);
    let eps = EnPassant::bit_sq(board.trans().en_passant);
    let enemy = board.color(player.opp()) | (eps.0 & !friendly);
    let ghost p = board.planes_view();
    let ghost ci = player.spec_ix() as int;
    let ghost start = buffer@;
    assert(player.spec_opp().spec_ix() as int == 1 - ci);
    let mut rest = pawns;
    while rest != 0
        invariant
            board.wf(),
            p == board.planes_view(),
            p.len() == 12,
            player == board.meta_view().player,
            pawn_vision.color == player,
            ci == player.spec_ix() as int,
            disjoint(p) ==> cached_attack == side_attacks(p, player.spec_opp()),
            disjoint(p) ==> pawns == p[pix(player, ChessEchelon::PAWN)],
            disjoint(p) ==> friendly == color_union(p, ci),
            disjoint(p) ==> pawn_vision.total == total_union(p),
            disjoint(p) ==> enemy == capture_targets(board),
            disjoint(p) ==> enemy == color_union(p, 1 - ci) | (eps.0 & !friendly),
                eps.0 == (match board.meta_view().trans.en_passant {
                    Some(e) => e.square.bit_spec(),
                    None => 0u64,
                }),
            forall|s: int| #[trigger] has_bit(rest, s) ==> has_bit(pawns, s),
            all_fit(board, legal, buffer@),
            forall|x: BitMove| start.contains(x) ==> #[trigger] buffer@.contains(x),
            disjoint(p) ==> forall|f: int|
                0 <= f < 64 && has_bit(pawns, f) && !has_bit(rest, f) ==> #[trigger] pawn_done(board, legal, buffer@, f),
            buffer@.len() >= start.len(),
            buffer@.subrange(0, start.len() as int) == start,
            forall|i: int| start.len() <= i < buffer@.len() ==> (#[trigger] buffer@[i]).ech == ChessEchelon::PAWN
                && !has_bit(rest, buffer@[i].from.idx()),
            free_of(start, pawn_pred()) ==> buffer@.no_duplicates(),
        decreases rest,
    {
        proof {
            lemma_lowest_bit(rest);
        }
        let from = Square(rest.trailing_zeros() as u8);
        let ghost f = from.0 as int;
        let ghost outer = buffer@;
        let pushes = pawn_vision.push(from);
        let mut targets = pushes;
        while targets != 0
            invariant
                board.wf(),
                p == board.planes_view(),
                p.len() == 12,
                player == board.meta_view().player,
                pawn_vision.color == player,
                ci == player.spec_ix() as int,
                disjoint(p) ==> cached_attack == side_attacks(p, player.spec_opp()),
                disjoint(p) ==> pawns == p[pix(player, ChessEchelon::PAWN)],
                disjoint(p) ==> friendly == color_union(p, ci),
                disjoint(p) ==> pawn_vision.total == total_union(p),
                disjoint(p) ==> enemy == color_union(p, 1 - ci) | (eps.0 & !friendly),
                eps.0 == (match board.meta_view().trans.en_passant {
                    Some(e) => e.square.bit_spec(),
                    None => 0u64,
                }),
                from.0 < 64,
                f == from.0 as int,
                has_bit(pawns, from.idx()),
                forall|s: int| #[trigger] has_bit(targets, s) ==> has_bit(pushes, s),
                pushes == pawn_advances(pawn_vision.color, from.bit_spec(), !pawn_vision.total),
                all_fit(board, legal, buffer@),
                forall|x: BitMove| outer.contains(x) ==> #[trigger] buffer@.contains(x),
                has_bit(rest, from.idx()),
                buffer@.len() >= start.len(),
                buffer@.subrange(0, start.len() as int) == start,
                forall|i: int| start.len() <= i < buffer@.len() ==> (#[trigger] buffer@[i]).ech == ChessEchelon::PAWN
                    && (!has_bit(rest, buffer@[i].from.idx()) || (buffer@[i].from == from && buffer@[i].capture is None
                    && !has_bit(targets, buffer@[i].to.idx()))),
                free_of(start, pawn_pred()) ==> buffer@.no_duplicates(),
                disjoint(p) ==> forall|t: int|
                    0 <= t < 64 && has_bit(pushes, t) && !has_bit(targets, t) ==> #[trigger] variants_done(board, legal, buffer@, pawn_push_at(f, t)),
            decreases targets,
        {
            proof {
                lemma_lowest_bit(targets);
            }
            let to = Square(targets.trailing_zeros() as u8);
            let from_ix = from.ix();
            let to_ix = to.ix();
            let special = if from_ix + 16 == to_ix || to_ix + 16 == from_ix {
                Some(SpecialMove::PAWN)
            } else {
                None
            };
            let mv = BitMove { from, to, ech: ChessEchelon::PAWN, special, capture: None };
            proof {
                if disjoint(p) {
                    lemma_advance_empty(pawn_vision.color, from.bit_spec(), !pawn_vision.total, to.idx());
                    lemma_not_bit(pawn_vision.total, to.idx());
                    lemma_colors_apart(p, to.idx());
                    lemma_has_bit_or(color_union(p, 0), color_union(p, 1), to.idx());
                    lemma_color_bits(p, 0, to.idx());
                    lemma_color_bits(p, 1, to.idx());
                    crate::board::lemma_ech_at_none(p, to.idx(), 0);
                }
            }
            let ghost inner = buffer@;
            proof {
                if free_of(start, pawn_pred()) {
                    assert forall|i: int| 0 <= i < buffer@.len() implies !same_squares(#[trigger] buffer@[i], mv) by {
                        if i < start.len() {
                            assert(buffer@[i] == start[i]);
                            assert(!pawn_pred()(start[i]));
                        } else if buffer@[i].from == from {
                            assert(has_bit(targets, to.idx()));
                        }
                    }
                }
            }
            promotions(board, legal, cached_attack, mv, buffer);
            proof {
                lemma_clear_lowest(targets);
                lemma_clear_lowest_exact(targets);
                assert(mv == pawn_push_at(f, to.0 as int));
                assert forall|i: int| start.len() <= i < buffer@.len() implies (#[trigger] buffer@[i]).ech == ChessEchelon::PAWN
                    && (!has_bit(rest, buffer@[i].from.idx()) || (buffer@[i].from == from && buffer@[i].capture is None
                    && !has_bit(targets & sub_one(targets), buffer@[i].to.idx()))) by {
                    if i < inner.len() {
                        assert(buffer@[i] == buffer@.subrange(0, inner.len() as int)[i]);
                    } else {
                        assert(same_squares(buffer@[i], mv));
                    }
                }
                if disjoint(p) {
                    assert forall|t: int|
                        0 <= t < 64 && has_bit(pushes, t) && !has_bit(targets & sub_one(targets), t) implies #[trigger] variants_done(board, legal, buffer@, pawn_push_at(f, t)) by {
                        if t != to.0 as int {
                            lemma_variants_grow(board, legal, inner, buffer@, pawn_push_at(f, t));
                        }
                    }
                }
            }
            targets = targets & (targets - 1);
        }
        let ghost mid = buffer@;
        let hits = pawn_vision.hits(from, enemy);
        let mut targets = hits;
        while targets != 0
            invariant
                board.wf(),
                p == board.planes_view(),
                p.len() == 12,
                player == board.meta_view().player,
                pawn_vision.color == player,
                ci == player.spec_ix() as int,
                disjoint(p) ==> cached_attack == side_attacks(p, player.spec_opp()),
                disjoint(p) ==> pawns == p[pix(player, ChessEchelon::PAWN)],
                disjoint(p) ==> friendly == color_union(p, ci),
                disjoint(p) ==> enemy == color_union(p, 1 - ci) | (eps.0 & !friendly),
                eps.0 == (match board.meta_view().trans.en_passant {
                    Some(e) => e.square.bit_spec(),
                    None => 0u64,
                }),
                from.0 < 64,
                f == from.0 as int,
                has_bit(pawns, from.idx()),
                forall|s: int| #[trigger] has_bit(targets, s) ==> has_bit(hits, s),
                hits == pawn_attacks(pawn_vision.color, from.bit_spec()) & enemy,
                all_fit(board, legal, buffer@),
                forall|x: BitMove| mid.contains(x) ==> #[trigger] buffer@.contains(x),
                has_bit(rest, from.idx()),
                buffer@.len() >= start.len(),
                buffer@.subrange(0, start.len() as int) == start,
                forall|i: int| start.len() <= i < buffer@.len() ==> (#[trigger] buffer@[i]).ech == ChessEchelon::PAWN
                    && (!has_bit(rest, buffer@[i].from.idx()) || (buffer@[i].from == from && (buffer@[i].capture is None
                    || !has_bit(targets, buffer@[i].to.idx())))),
                free_of(start, pawn_pred()) ==> buffer@.no_duplicates(),
                disjoint(p) ==> forall|t: int|
                    0 <= t < 64 && has_bit(hits, t) && !has_bit(targets, t) && ech_at_spec(p, t) != Some(ChessEchelon::KING)
                        ==> #[trigger] variants_done(board, legal, buffer@, pawn_capture_at(p, f, t)),
            decreases targets,
        {
            proof {
                lemma_lowest_bit(targets);
            }
            let to = Square(targets.trailing_zeros() as u8);
            let found = board.ech_at(to);
            let ghost inner = buffer@;
            match found {
                Some(ChessEchelon::KING) => {},
                _ => {
                    let mv = match found {
                        Some(e) => BitMove {
                            from,
                            to,
                            ech: ChessEchelon::PAWN,
                            special: None,
                            capture: ChessCommoner::from_echelon(e),
                        },
                        None => BitMove {
                            from,
                            to,
                            ech: ChessEchelon::PAWN,
                            special: Some(SpecialMove::PAWN),
                            capture: Some(ChessCommoner::PAWN),
                        },
                    };
                    proof {
                        if disjoint(p) {
                            let s = to.idx();
                            lemma_has_bit_or(pawn_attacks(pawn_vision.color, from.bit_spec()), enemy, s);
                            lemma_has_bit_or(color_union(p, 1 - ci), eps.0 & !friendly, s);
                            lemma_has_bit_or(eps.0, !friendly, s);
                            lemma_not_bit(friendly, s);
                            lemma_colors_apart(p, s);
                            lemma_color_bits(p, ci, from.idx());
                            if found is None {
                                crate::board::lemma_ech_at_found(p, s, 0);
                                lemma_color_bits(p, 1 - ci, s);
                                assert(!echelon_on(p, 0, s) && !echelon_on(p, 1, s) && !echelon_on(p, 2, s));
                                assert(!echelon_on(p, 3, s) && !echelon_on(p, 4, s) && !echelon_on(p, 5, s));
                                assert(!has_bit(color_union(p, 1 - ci), s));
                                crate::moving::lemma_empty_plane(s);
                                match board.meta_view().trans.en_passant {
                                    Some(e) => {
                                        crate::setup::lemma_single_bit(e.square.idx(), s);
                                    },
                                    None => {},
                                }
                            }
                            assert(mv == pawn_capture_at(p, f, to.0 as int));
                        }
                    }
                    proof {
                        if free_of(start, pawn_pred()) {
                            assert forall|i: int| 0 <= i < buffer@.len() implies !same_squares(#[trigger] buffer@[i], mv) by {
                                if i < start.len() {
                                    assert(buffer@[i] == start[i]);
                                    assert(!pawn_pred()(start[i]));
                                } else if buffer@[i].from == from {
                                    assert(has_bit(targets, to.idx()));
                                }
                            }
                        }
                    }
                    promotions(board, legal, cached_attack, mv, buffer);
                    proof {
                        lemma_clear_lowest(targets);
                        lemma_clear_lowest_exact(targets);
                        assert forall|i: int| start.len() <= i < buffer@.len() implies (#[trigger] buffer@[i]).ech == ChessEchelon::PAWN
                            && (!has_bit(rest, buffer@[i].from.idx()) || (buffer@[i].from == from && (buffer@[i].capture is None
                            || !has_bit(targets & sub_one(targets), buffer@[i].to.idx())))) by {
                            if i < inner.len() {
                                assert(buffer@[i] == buffer@.subrange(0, inner.len() as int)[i]);
                            } else {
                                assert(same_squares(buffer@[i], mv));
                            }
                        }
                    }
                },
            }
            proof {
                lemma_clear_lowest(targets);
                lemma_clear_lowest_exact(targets);
                if disjoint(p) {
                    assert forall|t: int|
                        0 <= t < 64 && has_bit(hits, t) && !has_bit(targets & sub_one(targets), t) && ech_at_spec(p, t) != Some(ChessEchelon::KING)
                            implies #[trigger] variants_done(board, legal, buffer@, pawn_capture_at(p, f, t)) by {
                        if t != to.0 as int {
                            lemma_variants_grow(board, legal, inner, buffer@, pawn_capture_at(p, f, t));
                        }
                    }
                }
            }
            targets = targets & (targets - 1);
        }
        proof {
            lemma_clear_lowest(rest);
            lemma_clear_lowest_exact(rest);
            if disjoint(p) {
                assert(Square((from.0 as int) as u8) == from);
                assert forall|t: int| 0 <= t < 64 implies !#[trigger] has_bit(targets, t) by {
                    crate::moving::lemma_empty_plane(t);
                }
                assert forall|t: int|
                    0 <= t < 64 && has_bit(pawn_advances(player, Square(f as u8).bit_spec(), !total_union(p)), t)
                        implies #[trigger] variants_done(board, legal, buffer@, pawn_push_at(f, t)) by {
                    lemma_variants_grow(board, legal, mid, buffer@, pawn_push_at(f, t));
                }
                assert(pawn_done(board, legal, buffer@, f));
                assert forall|g: int|
                    0 <= g < 64 && has_bit(pawns, g) && !has_bit(rest & sub_one(rest), g) implies #[trigger] pawn_done(board, legal, buffer@, g) by {
                    if g != f {
                        assert(pawn_done(board, legal, outer, g));
                        assert forall|t: int|
                            0 <= t < 64 && has_bit(pawn_advances(player, Square(g as u8).bit_spec(), !total_union(p)), t)
                                implies #[trigger] variants_done(board, legal, buffer@, pawn_push_at(g, t)) by {
                            lemma_variants_grow(board, legal, outer, buffer@, pawn_push_at(g, t));
                        }
                        assert forall|t: int|
                            0 <= t < 64 && has_bit(pawn_attacks(player, Square(g as u8).bit_spec()) & capture_targets(board), t)
                                && ech_at_spec(p, t) != Some(ChessEchelon::KING) implies #[trigger] variants_done(board, legal, buffer@, pawn_capture_at(p, g, t)) by {
                            lemma_variants_grow(board, legal, outer, buffer@, pawn_capture_at(p, g, t));
                        }
                    }
                }
            }
        }
        rest = rest & (rest - 1);
    }
    proof {
        assert forall|f: int| 0 <= f < 64 implies !#[trigger] has_bit(rest, f) by {
            crate::moving::lemma_empty_plane(f);
        }
    }
}

/// A bit of a complement is set when the bit is not.
pub proof fn lemma_not_bit(x: u64, s: int)
    requires
        0 <= s < 64,
    ensures
        has_bit(!x, s) == !has_bit(x, s),
{
    let su = s as u64;
    assert(su < 64 ==> ((((!x) >> su) & 1u64 == 1u64) == !((x >> su) & 1u64 == 1u64))) by (bit_vector);
}

/// Pawn pushes land on empty squares only.
pub proof fn lemma_advance_empty(c: ChessColor, m: u64, empty: u64, s: int)
    requires
        0 <= s < 64,
        has_bit(pawn_advances(c, m, empty), s),
    ensures
        has_bit(empty, s),
{
    let su = s as u64;
    if c == ChessColor::WHITE {
        let a = m << 8u64;
        let b = ((((m & crate::binary::RANK_2) << 8u64) & empty) << 8u64);
        assert(su < 64 && ((((a & empty) | (b & empty)) >> su) & 1u64 == 1u64) ==> ((empty >> su) & 1u64
            == 1u64)) by (bit_vector);
    } else {
        let a = m >> 8u64;
        let b = ((((m & crate::binary::RANK_7) >> 8u64) & empty) >> 8u64);
        assert(su < 64 && ((((a & empty) | (b & empty)) >> su) & 1u64 == 1u64) ==> ((empty >> su) & 1u64
            == 1u64)) by (bit_vector);
    }
}


/// The squares a piece of echelon `ech` on `from` attacks.
pub open spec fn piece_sees(ech: ChessEchelon, from: Square, total: u64) -> u64 {
    match ech {
        ChessEchelon::KNIGHT => knight_attacks(from.bit_spec()),
        ChessEchelon::BISHOP => bishop_from(total)(from.idx()),
        ChessEchelon::ROOK => rook_from(total)(from.idx()),
        ChessEchelon::QUEEN => queen_from(total)(from.idx()),
        _ => king_attacks(from.bit_spec()),
    }
}

/// The destinations of a piece on `from`: its attacks off its own side.
fn piece_hits(pan: SimplePanopticon, ech: ChessEchelon, from: Square, friendly: u64) -> (r: u64)
    requires
        from.0 < 64,
    ensures
        forall|s: int| 0 <= s < 64 && #[trigger] has_bit(r, s) ==> !has_bit(friendly, s),
        r == piece_sees(ech, from, pan.total) & !friendly,
{
    let r = match ech {
        ChessEchelon::KNIGHT => pan.knight().hits(from, friendly),
        ChessEchelon::BISHOP => pan.bishop().hits(from, friendly),
        ChessEchelon::ROOK => pan.rook().hits(from, friendly),
        ChessEchelon::QUEEN => pan.queen().hits(from, friendly),
        _ => pan.king().hits(from, friendly),
    };
    proof {
        assert forall|s: int| 0 <= s < 64 && #[trigger] has_bit(r, s) implies !has_bit(friendly, s) by {
            let seen = match ech {
                ChessEchelon::KNIGHT => knight_attacks(from.bit_spec()),
                ChessEchelon::BISHOP => crate::binary::slider_attacks(crate::binary::bishop_rays(from.idx()), from, pan.total),
                ChessEchelon::ROOK => crate::binary::slider_attacks(crate::binary::rook_rays(from.idx()), from, pan.total),
                ChessEchelon::QUEEN => crate::binary::slider_attacks(crate::binary::queen_rays(from.idx()), from, pan.total),
                _ => king_attacks(from.bit_spec()),
            };
            assert(r == seen & !friendly);
            lemma_has_bit_or(seen, !friendly, s);
            lemma_not_bit(friendly, s);
        }
    }
    r
}

/// Everything a sequence held, it holds after a push.
pub proof fn lemma_push_keeps(s: Seq<BitMove>, v: BitMove)
    ensures
        forall|x: BitMove| s.contains(x) ==> #[trigger] s.push(v).contains(x),
        s.push(v).contains(v),
{
    assert forall|x: BitMove| s.contains(x) implies #[trigger] s.push(v).contains(x) by {
        lemma_push_contains(s, v, x);
    }
    lemma_push_contains(s, v, v);
}

/// Clearing the lowest set bit clears that bit and no other.
pub proof fn lemma_clear_lowest_exact(m: u64)
    requires
        m != 0,
    ensures
        forall|s: int| 0 <= s < 64 ==> (#[trigger] has_bit(m & sub_one(m), s) <==> (has_bit(m, s) && s != u64_trailing_zeros(m) as int)),
{
    vstd::std_specs::bits::axiom_u64_trailing_zeros(m);
    let t = u64_trailing_zeros(m) as u64;
    assert forall|s: int| 0 <= s < 64 implies (#[trigger] has_bit(m & sub_one(m), s) <==> (has_bit(m, s) && s
        != t as int)) by {
        let su = s as u64;
        assert(su < 64 && t < 64 && m != 0 && (m >> t) & 1u64 == 1u64 && m << ((64 - t) as u64) == 0u64 ==> ((((m & ((m
            - 1) as u64)) >> su) & 1u64 == 1u64) <==> ((m >> su) & 1u64 == 1u64 && su != t))) by (bit_vector);
    }
}

/// Pushing a move that a sequence lacks keeps it free of repetitions.
pub proof fn lemma_push_nodup(s: Seq<BitMove>, v: BitMove)
    requires
        s.no_duplicates(),
        forall|i: int| 0 <= i < s.len() ==> s[i] != v,
    ensures
        s.push(v).no_duplicates(),
{
    assert forall|i: int, j: int| 0 <= i < s.push(v).len() && 0 <= j < s.push(v).len() && i != j implies s.push(v)[i]
        != s.push(v)[j] by {
        if i < s.len() && j < s.len() {
            assert(s.push(v)[i] == s[i] && s.push(v)[j] == s[j]);
        }
    }
}

/// A pawn move.
pub open spec fn pawn_pred() -> spec_fn(BitMove) -> bool {
    |x: BitMove| x.ech == ChessEchelon::PAWN
}

/// A sequence without repetitions that holds no move of `pred`.
pub open spec fn free_of(s: Seq<BitMove>, pred: spec_fn(BitMove) -> bool) -> bool {
    s.no_duplicates() && forall|i: int| 0 <= i < s.len() ==> !pred(#[trigger] s[i])
}

/// A move without special of echelon `k`.
pub open spec fn plain_of(k: ChessEchelon) -> spec_fn(BitMove) -> bool {
    |x: BitMove| x.ech == k && x.special is None
}

/// The move of a piece of echelon `k` from square `f` to square `t`.
pub open spec fn piece_move_at(p: Seq<u64>, k: ChessEchelon, f: int, t: int) -> BitMove {
    BitMove {
        from: Square(f as u8),
        to: Square(t as u8),
        ech: k,
        special: None,
        capture: comm_of(ech_at_spec(p, t)),
    }
}

/// Every owed move of the piece of echelon `k` on square `f` is in `buf`.
pub open spec fn piece_moves_done<BB: BitBoard>(
    b: &BB,
    legal: bool,
    k: ChessEchelon,
    buf: Seq<BitMove>,
    f: int,
) -> bool {
    let p = b.planes_view();
    let c = b.meta_view().player;
    forall|t: int|
        0 <= t < 64 && has_bit(
            piece_sees(k, Square(f as u8), total_union(p)) & !color_union(p, c.spec_ix() as int),
            t,
        ) && ech_at_spec(p, t) != Some(ChessEchelon::KING) && owed(b, legal, piece_move_at(p, k, f, t))
            ==> #[trigger] buf.contains(piece_move_at(p, k, f, t))
}

/// The moves of the pieces of one echelon (not pawns) of the side to move.
pub fn piece_moves<BB: BitBoard + Copy>(
    board: &BB,
    legal: bool,
    cached_attack: u64,
    pan: SimplePanopticon,
    ech: ChessEchelon,
    buffer: &mut Vec<BitMove>,
)
    requires
        board.wf(),
        board.planes_view().len() == 12,
        ech != ChessEchelon::PAWN,
        disjoint(board.planes_view()) ==> cached_attack == side_attacks(board.planes_view(), board.meta_view().player.spec_opp()),
        disjoint(board.planes_view()) ==> pan.total == total_union(board.planes_view()),
        all_fit(board, legal, old(buffer)@),
    ensures
        all_fit(board, legal, final(buffer)@),
        forall|x: BitMove| old(buffer)@.contains(x) ==> #[trigger] final(buffer)@.contains(x),
        disjoint(board.planes_view()) ==> forall|f: int|
            0 <= f < 64 && has_bit(board.planes_view()[pix(board.meta_view().player, ech)], f)
                ==> #[trigger] piece_moves_done(board, legal, ech, final(buffer)@, f),
        final(buffer)@.len() >= old(buffer)@.len(),
        final(buffer)@.subrange(0, old(buffer)@.len() as int) == old(buffer)@,
        forall|i: int| old(buffer)@.len() <= i < final(buffer)@.len() ==> plain_of(ech)(#[trigger] final(buffer)@[i]),
        free_of(old(buffer)@, plain_of(ech)) ==> final(buffer)@.no_duplicates(),
{
    let player = board.ply().0;
    let pieces = board.men(player, ech);
    let friendly = board.color(player);
    let ghost p = board.planes_view();
    let ghost start = buffer@;
    let mut rest = pieces;
    while rest != 0
        invariant
            board.wf(),
            p == board.planes_view(),
            p.len() == 12,
            ech != ChessEchelon::PAWN,
            player == board.meta_view().player,
            disjoint(p) ==> cached_attack == side_attacks(p, player.spec_opp()),
            disjoint(p) ==> pieces == p[pix(player, ech)],
            disjoint(p) ==> friendly == color_union(p, player.spec_ix() as int),
            disjoint(p) ==> pan.total == total_union(p),
            forall|s: int| #[trigger] has_bit(rest, s) ==> has_bit(pieces, s),
            all_fit(board, legal, buffer@),
            forall|x: BitMove| start.contains(x) ==> #[trigger] buffer@.contains(x),
            disjoint(p) ==> forall|f: int|
                0 <= f < 64 && has_bit(pieces, f) && !has_bit(rest, f) ==> #[trigger] piece_moves_done(board, legal, ech, buffer@, f),
            buffer@.len() >= start.len(),
            buffer@.subrange(0, start.len() as int) == start,
            forall|i: int| start.len() <= i < buffer@.len() ==> plain_of(ech)(#[trigger] buffer@[i]) && !has_bit(rest, buffer@[i].from.idx()),
            free_of(start, plain_of(ech)) ==> buffer@.no_duplicates(),
        decreases rest,
    {
        proof {
            lemma_lowest_bit(rest);
        }
        let from = Square(rest.trailing_zeros() as u8);
        let hits = piece_hits(pan, ech, from, friendly);
        let ghost before = buffer@;
        let mut targets = hits;
        while targets != 0
            invariant
                board.wf(),
                p == board.planes_view(),
                p.len() == 12,
                ech != ChessEchelon::PAWN,
                player == board.meta_view().player,
                disjoint(p) ==> cached_attack == side_attacks(p, player.spec_opp()),
                disjoint(p) ==> pieces == p[pix(player, ech)],
                disjoint(p) ==> friendly == color_union(p, player.spec_ix() as int),
                disjoint(p) ==> pan.total == total_union(p),
                disjoint(p) ==> hits == piece_sees(ech, from, total_union(p)) & !color_union(p, player.spec_ix() as int),
                from.0 < 64,
                has_bit(pieces, from.idx()),
                forall|s: int| #[trigger] has_bit(targets, s) ==> has_bit(hits, s),
                forall|s: int| 0 <= s < 64 && #[trigger] has_bit(hits, s) ==> !has_bit(friendly, s),
                all_fit(board, legal, buffer@),
                forall|x: BitMove| before.contains(x) ==> #[trigger] buffer@.contains(x),
                disjoint(p) ==> forall|t: int|
                    0 <= t < 64 && has_bit(hits, t) && !has_bit(targets, t) && ech_at_spec(p, t) != Some(ChessEchelon::KING)
                        && owed(board, legal, piece_move_at(p, ech, from.0 as int, t))
                        ==> #[trigger] buffer@.contains(piece_move_at(p, ech, from.0 as int, t)),
                has_bit(rest, from.idx()),
                buffer@.len() >= start.len(),
                buffer@.subrange(0, start.len() as int) == start,
                forall|i: int| start.len() <= i < buffer@.len() ==> plain_of(ech)(#[trigger] buffer@[i]) && (!has_bit(rest, buffer@[i].from.idx())
                    || (buffer@[i].from == from && !has_bit(targets, buffer@[i].to.idx()))),
                free_of(start, plain_of(ech)) ==> buffer@.no_duplicates(),
            decreases targets,
        {
            proof {
                lemma_lowest_bit(targets);
            }
            let to = Square(targets.trailing_zeros() as u8);
            let found = board.ech_at(to);
            let ghost inner = buffer@;
            match found {
                Some(ChessEchelon::KING) => {},
                _ => {
                    let capture = match found {
                        Some(e) => ChessCommoner::from_echelon(e),
                        None => None,
                    };
                    let mv = BitMove { from, to, ech, special: None, capture };
                    proof {
                        assert(has_bit(hits, to.idx()));
                        if disjoint(p) {
                            lemma_color_bits(p, player.spec_ix() as int, from.idx());
                            assert(mv == piece_move_at(p, ech, from.0 as int, to.0 as int));
                        }
                        if free_of(start, plain_of(ech)) {
                            assert forall|i: int| 0 <= i < buffer@.len() implies buffer@[i] != mv by {
                                if i < start.len() {
                                    assert(buffer@[i] == start[i]);
                                    assert(!plain_of(ech)(start[i]));
                                } else if buffer@[i].from == from {
                                    assert(!has_bit(targets, buffer@[i].to.idx()));
                                    assert(has_bit(targets, to.idx()));
                                }
                            }
                            lemma_push_nodup(buffer@, mv);
                        }
                    }
                    bless_into(board, legal, cached_attack, mv, buffer);
                    proof {
                        lemma_push_keeps(inner, mv);
                    }
                },
            }
            proof {
                lemma_clear_lowest(targets);
                lemma_clear_lowest_exact(targets);
            }
            targets = targets & (targets - 1);
        }
        proof {
            lemma_clear_lowest(rest);
            lemma_clear_lowest_exact(rest);
            if disjoint(p) {
                assert(Square((from.0 as int) as u8) == from);
                assert forall|t: int| 0 <= t < 64 implies !#[trigger] has_bit(targets, t) by {
                    crate::moving::lemma_empty_plane(t);
                }
                assert(piece_moves_done(board, legal, ech, buffer@, from.0 as int));
                assert forall|f: int|
                    0 <= f < 64 && has_bit(pieces, f) && !has_bit(rest & sub_one(rest), f) implies #[trigger] piece_moves_done(board, legal, ech, buffer@, f) by {
                    if f != from.0 as int {
                        assert(piece_moves_done(board, legal, ech, before, f));
                    }
                }
            }
        }
        rest = rest & (rest - 1);
    }
    proof {
        assert forall|f: int| 0 <= f < 64 implies !#[trigger] has_bit(rest, f) by {
            crate::moving::lemma_empty_plane(f);
        }
    }
}

/// The castling move of the side to move in direction `d`.
pub open spec fn castle_move_at<BB: BitBoard>(b: &BB, d: CastlingDirection) -> BitMove {
    let c = b.meta_view().player.spec_ix() as int;
    let cr = b.meta_view().castling;
    BitMove {
        from: cr.king_start@[c],
        to: cr.king_end@[c]@[d.spec_ix() as int],
        ech: ChessEchelon::KING,
        special: Some(
            match d {
                CastlingDirection::EAST => SpecialMove::EAST,
                CastlingDirection::WEST => SpecialMove::WEST,
            },
        ),
        capture: None,
    }
}

/// The side to move holds the right to castle in direction `d`, and the
/// squares between king and rook are empty.
pub open spec fn castle_open<BB: BitBoard>(b: &BB, d: CastlingDirection) -> bool {
    let c = b.meta_view().player.spec_ix() as int;
    let cr = b.meta_view().castling;
    &&& b.meta_view().trans.rights@[c]@[d.spec_ix() as int]
    &&& (cr.space@[d.spec_ix() as int] & cr.back_rank@[c]) & total_union(b.planes_view()) == 0u64
}

/// Every owed castling is in `buf`.
pub open spec fn castles_done<BB: BitBoard>(b: &BB, legal: bool, buf: Seq<BitMove>) -> bool {
    forall|d: CastlingDirection|
        castle_open(b, d) && owed(b, legal, castle_move_at(b, d)) ==> #[trigger] buf.contains(castle_move_at(b, d))
}

/// The castling of the side to move in one direction, when its right is
/// held and the space between king and rook is empty.
fn castle_into<BB: BitBoard + Copy>(
    board: &BB,
    legal: bool,
    cached_attack: u64,
    total: u64,
    dir: CastlingDirection,
    buffer: &mut Vec<BitMove>,
)
    requires
        board.wf(),
        board.planes_view().len() == 12,
        disjoint(board.planes_view()) ==> cached_attack == side_attacks(board.planes_view(), board.meta_view().player.spec_opp()),
        disjoint(board.planes_view()) ==> total == total_union(board.planes_view()),
        all_fit(board, legal, old(buffer)@),
    ensures
        all_fit(board, legal, final(buffer)@),
        forall|x: BitMove| old(buffer)@.contains(x) ==> #[trigger] final(buffer)@.contains(x),
        disjoint(board.planes_view()) && castle_open(board, dir) && owed(board, legal, castle_move_at(board, dir))
            ==> final(buffer)@.contains(castle_move_at(board, dir)),
        final(buffer)@.len() >= old(buffer)@.len(),
        final(buffer)@.subrange(0, old(buffer)@.len() as int) == old(buffer)@,
        forall|i: int| old(buffer)@.len() <= i < final(buffer)@.len() ==> (#[trigger] final(buffer)@[i]).special
            == castle_move_at(board, dir).special && final(buffer)@[i].ech == ChessEchelon::KING,
        old(buffer)@.no_duplicates() && (forall|i: int| 0 <= i < old(buffer)@.len() ==> !((#[trigger] old(buffer)@[i]).special
            == castle_move_at(board, dir).special && old(buffer)@[i].ech == ChessEchelon::KING)) ==> final(buffer)@.no_duplicates(),
{
    let player = board.ply().0;
    let rights = board.trans().rights;
    let castling = board.castling();
    let own = rights[player.ix()];
    let back_rank = castling.back_rank[player.ix()];
    let ends = castling.king_end[player.ix()];
    let ghost before = buffer@;
    if own[dir.ix()] && (castling.space[dir.ix()] & back_rank & total) == 0 {
        let mv = BitMove {
            from: castling.king_start[player.ix()],
            to: ends[dir.ix()],
            ech: ChessEchelon::KING,
            special: Some(SpecialMove::from(dir)),
            capture: None,
        };
        proof {
            assert(mv == castle_move_at(board, dir));
            if before.no_duplicates() && (forall|i: int| 0 <= i < before.len() ==> !((#[trigger] before[i]).special
                == castle_move_at(board, dir).special && before[i].ech == ChessEchelon::KING)) {
                assert forall|i: int| 0 <= i < before.len() implies before[i] != mv by {
                    assert(!(before[i].special == mv.special && before[i].ech == mv.ech));
                }
                lemma_push_nodup(before, mv);
            }
        }
        bless_into(board, legal, cached_attack, mv, buffer);
        proof {
            lemma_push_keeps(before, mv);
            assert(buffer@.subrange(0, before.len() as int) =~= before);
        }
    } else {
        assert(buffer@.subrange(0, before.len() as int) =~= before);
    }
}

/// A castling move of the king.
pub open spec fn castle_pred() -> spec_fn(BitMove) -> bool {
    |x: BitMove| CastlingDirection::spec_from_special(x.special).is_some() && x.ech == ChessEchelon::KING
}

/// The castlings of the side to move: each direction whose right is held
/// and whose space between king and rook is empty.
pub fn castling_moves<BB: BitBoard + Copy>(
    board: &BB,
    legal: bool,
    cached_attack: u64,
    total: u64,
    buffer: &mut Vec<BitMove>,
)
    requires
        board.wf(),
        board.planes_view().len() == 12,
        disjoint(board.planes_view()) ==> cached_attack == side_attacks(board.planes_view(), board.meta_view().player.spec_opp()),
        disjoint(board.planes_view()) ==> total == total_union(board.planes_view()),
        all_fit(board, legal, old(buffer)@),
    ensures
        all_fit(board, legal, final(buffer)@),
        forall|x: BitMove| old(buffer)@.contains(x) ==> #[trigger] final(buffer)@.contains(x),
        disjoint(board.planes_view()) ==> castles_done(board, legal, final(buffer)@),
        final(buffer)@.len() >= old(buffer)@.len(),
        final(buffer)@.subrange(0, old(buffer)@.len() as int) == old(buffer)@,
        forall|i: int| old(buffer)@.len() <= i < final(buffer)@.len() ==> castle_pred()(#[trigger] final(buffer)@[i]),
        free_of(old(buffer)@, castle_pred()) ==> final(buffer)@.no_duplicates(),
{
    let ghost start = buffer@;
    castle_into(board, legal, cached_attack, total, CastlingDirection::EAST, buffer);
    let ghost mid = buffer@;
    proof {
        if free_of(start, castle_pred()) {
            assert forall|i: int| 0 <= i < mid.len() implies !((#[trigger] mid[i]).special == castle_move_at(board, CastlingDirection::WEST).special
                && mid[i].ech == ChessEchelon::KING) by {
                if i < start.len() {
                    assert(mid[i] == mid.subrange(0, start.len() as int)[i]);
                    assert(!castle_pred()(start[i]));
                }
            }
        }
    }
    castle_into(board, legal, cached_attack, total, CastlingDirection::WEST, buffer);
    proof {
        assert(buffer@.subrange(0, start.len() as int) =~= start) by {
            assert forall|i: int| 0 <= i < start.len() implies buffer@.subrange(0, start.len() as int)[i] == start[i] by {
                assert(buffer@[i] == buffer@.subrange(0, mid.len() as int)[i]);
                assert(mid[i] == mid.subrange(0, start.len() as int)[i]);
            }
        }
        assert forall|i: int| start.len() <= i < buffer@.len() implies castle_pred()(#[trigger] buffer@[i]) by {
            if i < mid.len() {
                assert(buffer@[i] == buffer@.subrange(0, mid.len() as int)[i]);
            }
        }
        assert forall|d: CastlingDirection|
            disjoint(board.planes_view()) && castle_open(board, d) && owed(board, legal, castle_move_at(board, d))
                implies #[trigger] buffer@.contains(castle_move_at(board, d)) by {
            if d == CastlingDirection::EAST {
                assert(mid.contains(castle_move_at(board, d)));
            }
        }
    }
}

/// Every owed move of the side to move is in `buf`: each pawn's pushes
/// and captures (once per promotion where it promotes), each piece's
/// moves, and each open castling.
pub open spec fn all_owed_in<BB: BitBoard>(b: &BB, legal: bool, buf: Seq<BitMove>) -> bool {
    let p = b.planes_view();
    let c = b.meta_view().player;
    &&& forall|f: int|
        0 <= f < 64 && has_bit(p[pix(c, ChessEchelon::PAWN)], f) ==> #[trigger] pawn_done(b, legal, buf, f)
    &&& forall|k: ChessEchelon, f: int|
        k != ChessEchelon::PAWN && 0 <= f < 64 && has_bit(p[pix(c, k)], f) ==> #[trigger] piece_moves_done(
            b,
            legal,
            k,
            buf,
            f,
        )
    &&& castles_done(b, legal, buf)
}

/// What a sequence has of the owed moves, a larger one has too.
pub proof fn lemma_done_grow<BB: BitBoard>(b: &BB, legal: bool, s1: Seq<BitMove>, s2: Seq<BitMove>)
    requires
        forall|x: BitMove| s1.contains(x) ==> #[trigger] s2.contains(x),
    ensures
        forall|f: int| #[trigger] pawn_done(b, legal, s1, f) ==> pawn_done(b, legal, s2, f),
        forall|k: ChessEchelon, f: int| #[trigger] piece_moves_done(b, legal, k, s1, f) ==> piece_moves_done(b, legal, k, s2, f),
        castles_done(b, legal, s1) ==> castles_done(b, legal, s2),
{
    let p = b.planes_view();
    let c = b.meta_view().player;
    assert forall|f: int| #[trigger] pawn_done(b, legal, s1, f) implies pawn_done(b, legal, s2, f) by {
        assert forall|t: int|
            0 <= t < 64 && has_bit(pawn_advances(c, Square(f as u8).bit_spec(), !total_union(p)), t)
                implies #[trigger] variants_done(b, legal, s2, pawn_push_at(f, t)) by {
            lemma_variants_grow(b, legal, s1, s2, pawn_push_at(f, t));
        }
        assert forall|t: int|
            0 <= t < 64 && has_bit(pawn_attacks(c, Square(f as u8).bit_spec()) & capture_targets(b), t)
                && ech_at_spec(p, t) != Some(ChessEchelon::KING) implies #[trigger] variants_done(b, legal, s2, pawn_capture_at(p, f, t)) by {
            lemma_variants_grow(b, legal, s1, s2, pawn_capture_at(p, f, t));
        }
    }
}

/// One phase's moves follow the earlier ones.
pub open spec fn grows(a: Seq<BitMove>, b: Seq<BitMove>, pred: spec_fn(BitMove) -> bool) -> bool {
    &&& b.len() >= a.len()
    &&& b.subrange(0, a.len() as int) == a
    &&& forall|i: int| a.len() <= i < b.len() ==> pred(#[trigger] b[i])
}

/// The phases of the generator, each adding moves of its own kind, give no
/// move twice.
pub proof fn lemma_phases_nodup(
    b1: Seq<BitMove>,
    b2: Seq<BitMove>,
    b3: Seq<BitMove>,
    b4: Seq<BitMove>,
    b5: Seq<BitMove>,
    b6: Seq<BitMove>,
    b7: Seq<BitMove>,
)
    requires
        b1.no_duplicates(),
        forall|i: int| 0 <= i < b1.len() ==> pawn_pred()(#[trigger] b1[i]),
        grows(b1, b2, plain_of(ChessEchelon::KNIGHT)),
        grows(b2, b3, plain_of(ChessEchelon::BISHOP)),
        grows(b3, b4, plain_of(ChessEchelon::ROOK)),
        grows(b4, b5, plain_of(ChessEchelon::QUEEN)),
        grows(b5, b6, plain_of(ChessEchelon::KING)),
        grows(b6, b7, castle_pred()),
        free_of(b1, plain_of(ChessEchelon::KNIGHT)) ==> b2.no_duplicates(),
        free_of(b2, plain_of(ChessEchelon::BISHOP)) ==> b3.no_duplicates(),
        free_of(b3, plain_of(ChessEchelon::ROOK)) ==> b4.no_duplicates(),
        free_of(b4, plain_of(ChessEchelon::QUEEN)) ==> b5.no_duplicates(),
        free_of(b5, plain_of(ChessEchelon::KING)) ==> b6.no_duplicates(),
        free_of(b6, castle_pred()) ==> b7.no_duplicates(),
    ensures
        b7.no_duplicates(),
{
    assert forall|i: int| 0 <= i < b2.len() implies (#[trigger] b2[i]).ech == ChessEchelon::PAWN || plain_of(ChessEchelon::KNIGHT)(b2[i]) by {
        if i < b1.len() {
            assert(b2[i] == b2.subrange(0, b1.len() as int)[i]);
        }
    }
    assert forall|i: int| 0 <= i < b3.len() implies (#[trigger] b3[i]).ech == ChessEchelon::PAWN || (b3[i].special is None
        && (b3[i].ech == ChessEchelon::KNIGHT || b3[i].ech == ChessEchelon::BISHOP)) by {
        if i < b2.len() {
            assert(b3[i] == b3.subrange(0, b2.len() as int)[i]);
        }
    }
    assert forall|i: int| 0 <= i < b4.len() implies (#[trigger] b4[i]).ech == ChessEchelon::PAWN || (b4[i].special is None
        && (b4[i].ech == ChessEchelon::KNIGHT || b4[i].ech == ChessEchelon::BISHOP || b4[i].ech == ChessEchelon::ROOK)) by {
        if i < b3.len() {
            assert(b4[i] == b4.subrange(0, b3.len() as int)[i]);
        }
    }
    assert forall|i: int| 0 <= i < b5.len() implies (#[trigger] b5[i]).ech == ChessEchelon::PAWN || (b5[i].special is None
        && b5[i].ech != ChessEchelon::KING && b5[i].ech != ChessEchelon::PAWN) by {
        if i < b4.len() {
            assert(b5[i] == b5.subrange(0, b4.len() as int)[i]);
        }
    }
    assert forall|i: int| 0 <= i < b6.len() implies (#[trigger] b6[i]).ech == ChessEchelon::PAWN || b6[i].special is None by {
        if i < b5.len() {
            assert(b6[i] == b6.subrange(0, b5.len() as int)[i]);
        }
    }
}

/// Enumerate the moves of the side to move into `buffer`, cleared first:
/// every pseudo-legal move, or, when `legal`, those that pass the
/// legality filter.
pub fn enumerate<BB: BitBoard + Copy>(board: &BB, legal: bool, buffer: &mut Vec<BitMove>)
    requires
        board.wf(),
        board.planes_view().len() == 12,
    ensures
        all_fit(board, legal, final(buffer)@),
        disjoint(board.planes_view()) ==> all_owed_in(board, legal, final(buffer)@),
        final(buffer)@.no_duplicates(),
{
    buffer.clear();
    let player = board.ply().0;
    let total = board.total();
    let pan = SimplePanopticon::new(total);
    let cached_attack = attacks_by(board, player.opp());
    let pawn_vision = match player {
        ChessColor::WHITE => pan.white_pawn(),
        ChessColor::BLACK => pan.black_pawn(),
    };
    pawn_moves(board, legal, cached_attack, pawn_vision, buffer);
    let ghost b1 = buffer@;
    piece_moves(board, legal, cached_attack, pan, ChessEchelon::KNIGHT, buffer);
    let ghost b2 = buffer@;
    piece_moves(board, legal, cached_attack, pan, ChessEchelon::BISHOP, buffer);
    let ghost b3 = buffer@;
    piece_moves(board, legal, cached_attack, pan, ChessEchelon::ROOK, buffer);
    let ghost b4 = buffer@;
    piece_moves(board, legal, cached_attack, pan, ChessEchelon::QUEEN, buffer);
    let ghost b5 = buffer@;
    piece_moves(board, legal, cached_attack, pan, ChessEchelon::KING, buffer);
    let ghost b6 = buffer@;
    castling_moves(board, legal, cached_attack, total, buffer);
    proof {
        lemma_phases_nodup(b1, b2, b3, b4, b5, b6, buffer@);
        let fin = buffer@;
        let p = board.planes_view();
        let c = board.meta_view().player;
        if disjoint(p) {
            lemma_done_grow(board, legal, b1, fin);
            lemma_done_grow(board, legal, b2, fin);
            lemma_done_grow(board, legal, b3, fin);
            lemma_done_grow(board, legal, b4, fin);
            lemma_done_grow(board, legal, b5, fin);
            lemma_done_grow(board, legal, b6, fin);
            assert forall|k: ChessEchelon, f: int|
                k != ChessEchelon::PAWN && 0 <= f < 64 && has_bit(p[pix(c, k)], f) implies #[trigger] piece_moves_done(
                    board,
                    legal,
                    k,
                    fin,
                    f,
                ) by {
                match k {
                    ChessEchelon::KNIGHT => assert(piece_moves_done(board, legal, k, b2, f)),
                    ChessEchelon::BISHOP => assert(piece_moves_done(board, legal, k, b3, f)),
                    ChessEchelon::ROOK => assert(piece_moves_done(board, legal, k, b4, f)),
                    ChessEchelon::QUEEN => assert(piece_moves_done(board, legal, k, b5, f)),
                    _ => assert(piece_moves_done(board, legal, k, b6, f)),
                }
            }
            assert forall|f: int|
                0 <= f < 64 && has_bit(p[pix(c, ChessEchelon::PAWN)], f) implies #[trigger] pawn_done(board, legal, fin, f) by {
                assert(pawn_done(board, legal, b1, f));
            }
        }
    }
}

/// The moves inside legal-move wrappers.
pub open spec fn unwrap_legal(s: Seq<LegalMove>) -> Seq<BitMove> {
    s.map_values(|m: LegalMove| m.0)
}

/// The moves inside pseudo-legal wrappers.
pub open spec fn unwrap_pseudo(s: Seq<PseudoLegal>) -> Seq<BitMove> {
    s.map_values(|m: PseudoLegal| m.0)
}

/// The legal moves of the side to move, into `out`, cleared first.
pub fn generate_moves<BB: BitBoard + Copy>(board: &BB, out: &mut Vec<LegalMove>)
    requires
        board.wf(),
        board.planes_view().len() == 12,
    ensures
        forall|i: int|
            0 <= i < final(out)@.len() ==> disjoint(board.planes_view()) ==> move_fits(
                board.planes_view(),
                board.meta_view().player,
                (#[trigger] final(out)@[i]).0,
            ) && ep_tied(board, final(out)@[i].0) && is_candidate(board, final(out)@[i].0) && legal_in(board, final(out)@[i].0),
        disjoint(board.planes_view()) ==> all_owed_in(board, true, unwrap_legal(final(out)@)),
        unwrap_legal(final(out)@).no_duplicates(),
{
    let mut moves: Vec<BitMove> = Vec::new();
    enumerate(board, true, &mut moves);
    out.clear();
    let mut i: usize = 0;
    while i < moves.len()
        invariant
            i <= moves.len(),
            out@.len() == i,
            all_fit(board, true, moves@),
            forall|j: int| 0 <= j < i ==> (#[trigger] out@[j]).0 == moves@[j],
        decreases moves.len() - i,
    {
        out.push(LegalMove(moves[i]));
        i = i + 1;
    }
    proof {
        assert forall|j: int| 0 <= j < out@.len() implies disjoint(board.planes_view()) ==> move_fits(
            board.planes_view(),
            board.meta_view().player,
            (#[trigger] out@[j]).0,
        ) && ep_tied(board, out@[j].0) && is_candidate(board, out@[j].0) && legal_in(board, out@[j].0) by {
            assert(out@[j].0 == moves@[j]);
        }
        assert(unwrap_legal(out@) =~= moves@);
    }
}

/// The pseudo-legal moves of the side to move, into `out`, cleared first.
pub fn generate_pseudo_legal<BB: BitBoard + Copy>(board: &BB, out: &mut Vec<PseudoLegal>)
    requires
        board.wf(),
        board.planes_view().len() == 12,
    ensures
        forall|i: int|
            0 <= i < final(out)@.len() ==> disjoint(board.planes_view()) ==> move_fits(
                board.planes_view(),
                board.meta_view().player,
                (#[trigger] final(out)@[i]).0,
            ) && ep_tied(board, final(out)@[i].0) && is_candidate(board, final(out)@[i].0),
        disjoint(board.planes_view()) ==> all_owed_in(board, false, unwrap_pseudo(final(out)@)),
        unwrap_pseudo(final(out)@).no_duplicates(),
{
    let mut moves: Vec<BitMove> = Vec::new();
    enumerate(board, false, &mut moves);
    out.clear();
    let mut i: usize = 0;
    while i < moves.len()
        invariant
            i <= moves.len(),
            out@.len() == i,
            all_fit(board, false, moves@),
            forall|j: int| 0 <= j < i ==> (#[trigger] out@[j]).0 == moves@[j],
        decreases moves.len() - i,
    {
        out.push(PseudoLegal(moves[i]));
        i = i + 1;
    }
    proof {
        assert forall|j: int| 0 <= j < out@.len() implies disjoint(board.planes_view()) ==> move_fits(
            board.planes_view(),
            board.meta_view().player,
            (#[trigger] out@[j]).0,
        ) && ep_tied(board, out@[j].0) && is_candidate(board, out@[j].0) by {
            assert(out@[j].0 == moves@[j]);
        }
        assert(unwrap_pseudo(out@) =~= moves@);
    }
}

/// A move that passed the legality filter leaves the mover's king
/// unattacked once made, as long as the position after it keeps every
/// square to at most one chessman.
pub proof fn lemma_legal_move_leaves_king_safe<BB: BitBoard>(b0: &BB, b1: &BB, mv: LegalMove)
    requires
        legal_in(b0, mv.0),
        b1.planes_view() == moved(
            BB::moves_men(),
            b0.planes_view(),
            move_delta(mv.0, b0.meta_view().player, b0.meta_view().trans.en_passant, b0.meta_view().castling),
        ),
        b1.meta_view().player == b0.meta_view().player.spec_opp(),
        disjoint(b1.planes_view()),
    ensures
        !king_attacked(b1.planes_view(), b1.meta_view().player.spec_opp()),
{
    assert(b1.meta_view().player.spec_opp() == b0.meta_view().player);
}

/// A generated move other than a castling or an en-passant capture keeps
/// every square to at most one chessman once made; when it passed the
/// legality filter, the mover's king is then not attacked.
pub proof fn lemma_generated_move_is_sound<BB: BitBoard>(b: &BB, mv: BitMove)
    requires
        BB::moves_men(),
        b.planes_view().len() == 12,
        disjoint(b.planes_view()),
        move_fits(b.planes_view(), b.meta_view().player, mv),
        CastlingDirection::spec_from_special(mv.special).is_none(),
        !is_en_passant(mv),
    ensures
        disjoint(planes_after(b, mv)),
        legal_in(b, mv) ==> !king_attacked(planes_after(b, mv), b.meta_view().player),
{
    let p = b.planes_view();
    let c = b.meta_view().player;
    lemma_color_bits(p, c.spec_ix() as int, mv.from.idx());
    assert(mv.from.idx() != mv.to.idx());
    crate::moving::lemma_ordinary_move_keeps_disjoint(
        p,
        c,
        b.meta_view().trans.en_passant,
        b.meta_view().castling,
        mv,
    );
}

} // verus!
