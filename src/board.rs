//! Board representations behind one interface.
//!
//! Every layout is seen as twelve planes, one per color and echelon, at
//! index `color * 6 + echelon` (see [`pix`]), plus a metadata block. The
//! only mutator of the planes is [`BitBoard::xor`], an involution.
//!
//! Three layouts are given: [`CompactBitBoard`] (six echelon planes and two
//! color planes), [`FullBitBoard`] (twelve planes) and [`FullerBitBoard`]
//! (twelve planes and the two color totals).
use vstd::prelude::*;
use crate::binary::has_bit;
use crate::castling::CastlingRules;
use crate::hash::{
    ZobristTables, ep_hash, flat_planes, hash_en_passant, hash_full_bitboard, hash_rights,
    pieces_hash, pix, rights_hash,
};
use crate::model::{ChessColor, ChessCommoner, ChessEchelon, EnPassant, Square, Transients};

verus! {

/// Plane `i` of twelve XORed with `m`.
pub open spec fn planes_xor(p: Seq<u64>, i: int, m: u64) -> Seq<u64> {
    p.update(i, p[i] ^ m)
}

/// No square is on two of the twelve planes.
pub open spec fn disjoint(p: Seq<u64>) -> bool {
    forall|i: int, j: int| 0 <= i < j < 12 ==> #[trigger] (p[i] & p[j]) == 0u64
}

/// The squares of the chessmen of color index `c`.
pub open spec fn color_union(p: Seq<u64>, c: int) -> u64 {
    ((((p[c * 6] | p[c * 6 + 1]) | p[c * 6 + 2]) | p[c * 6 + 3]) | p[c * 6 + 4]) | p[c * 6 + 5]
}

/// The occupied squares.
pub open spec fn total_union(p: Seq<u64>) -> u64 {
    color_union(p, 0) | color_union(p, 1)
}

/// Whether a chessman of echelon index `k`, of either color, stands on square `s`.
pub open spec fn echelon_on(p: Seq<u64>, k: int, s: int) -> bool {
    has_bit(p[k], s) || has_bit(p[6 + k], s)
}

/// The echelon of the chessman on square `s`, searching from index `k` on.
pub open spec fn ech_at_from(p: Seq<u64>, s: int, k: int) -> Option<ChessEchelon>
    decreases 6 - k,
{
    if k >= 6 || k < 0 {
        None
    } else if echelon_on(p, k, s) {
        Some(ChessEchelon::from_ix(k))
    } else {
        ech_at_from(p, s, k + 1)
    }
}

/// The echelon of the chessman on square `s`, if any.
pub open spec fn ech_at_spec(p: Seq<u64>, s: int) -> Option<ChessEchelon> {
    ech_at_from(p, s, 0)
}

/// The commoner on square `s`: its echelon, unless empty or a king.
pub open spec fn comm_of(e: Option<ChessEchelon>) -> Option<ChessCommoner> {
    match e {
        Some(ChessEchelon::PAWN) => Some(ChessCommoner::PAWN),
        Some(ChessEchelon::KNIGHT) => Some(ChessCommoner::KNIGHT),
        Some(ChessEchelon::BISHOP) => Some(ChessCommoner::BISHOP),
        Some(ChessEchelon::ROOK) => Some(ChessCommoner::ROOK),
        Some(ChessEchelon::QUEEN) => Some(ChessCommoner::QUEEN),
        _ => None,
    }
}

/// The color and echelon of the chessman on square `s`, if any.
pub open spec fn piece_at_spec(p: Seq<u64>, s: int) -> Option<(ChessColor, ChessEchelon)> {
    match ech_at_spec(p, s) {
        Some(k) => Some(
            (
                if has_bit(p[pix(ChessColor::WHITE, k)], s) {
                    ChessColor::WHITE
                } else {
                    ChessColor::BLACK
                },
                k,
            ),
        ),
        None => None,
    }
}

/// The chessman on a square, as its color and echelon.
pub fn piece_at<BB: BitBoard>(board: &BB, sq: Square) -> (r: Option<(ChessColor, ChessEchelon)>)
    requires
        board.wf(),
    ensures
        disjoint(board.planes_view()) ==> r == piece_at_spec(board.planes_view(), sq.idx()),
{
    match board.ech_at(sq) {
        Some(k) => {
            let white = board.men(ChessColor::WHITE, k);
            proof {
                lemma_bit_test(white, sq.idx());
            }
            if white & sq.bit() != 0 {
                Some((ChessColor::WHITE, k))
            } else {
                Some((ChessColor::BLACK, k))
            }
        },
        None => None,
    }
}

/// The hash of a whole position: the chessmen, the castling rights, the
/// en-passant file and black to move.
pub open spec fn position_hash<ZT: ZobristTables>(
    zt: &ZT,
    p: Seq<u64>,
    t: Transients,
    player: ChessColor,
) -> u64 {
    ((pieces_hash(zt, p) ^ rights_hash(zt, t.rights)) ^ ep_hash(zt, t.en_passant)) ^ (if player
        == ChessColor::BLACK {
        zt.black_key()
    } else {
        0
    })
}

/// The planes of the start position.
pub open spec fn start_planes() -> Seq<u64> {
    seq![
        0x0000_0000_0000_FF00u64,
        0x0000_0000_0000_0042u64,
        0x0000_0000_0000_0024u64,
        0x0000_0000_0000_0081u64,
        0x0000_0000_0000_0008u64,
        0x0000_0000_0000_0010u64,
        0x00FF_0000_0000_0000u64,
        0x4200_0000_0000_0000u64,
        0x2400_0000_0000_0000u64,
        0x8100_0000_0000_0000u64,
        0x0800_0000_0000_0000u64,
        0x1000_0000_0000_0000u64,
    ]
}

/// No square of the start position holds two chessmen.
pub proof fn lemma_start_disjoint()
    ensures
        disjoint(start_planes()),
{
    let p = start_planes();
    assert(0x0000_0000_0000_FF00u64 & 0x0000_0000_0000_0042u64 == 0u64 && 0x0000_0000_0000_FF00u64 & 0x0000_0000_0000_0024u64 == 0u64 && 0x0000_0000_0000_FF00u64 & 0x0000_0000_0000_0081u64 == 0u64 && 0x0000_0000_0000_FF00u64 & 0x0000_0000_0000_0008u64 == 0u64 && 0x0000_0000_0000_FF00u64 & 0x0000_0000_0000_0010u64 == 0u64 && 0x0000_0000_0000_FF00u64 & 0x00FF_0000_0000_0000u64 == 0u64 && 0x0000_0000_0000_FF00u64 & 0x4200_0000_0000_0000u64 == 0u64 && 0x0000_0000_0000_FF00u64 & 0x2400_0000_0000_0000u64 == 0u64 && 0x0000_0000_0000_FF00u64 & 0x8100_0000_0000_0000u64 == 0u64 && 0x0000_0000_0000_FF00u64 & 0x0800_0000_0000_0000u64 == 0u64 && 0x0000_0000_0000_FF00u64 & 0x1000_0000_0000_0000u64 == 0u64 && 0x0000_0000_0000_0042u64 & 0x0000_0000_0000_0024u64 == 0u64 && 0x0000_0000_0000_0042u64 & 0x0000_0000_0000_0081u64 == 0u64 && 0x0000_0000_0000_0042u64 & 0x0000_0000_0000_0008u64 == 0u64 && 0x0000_0000_0000_0042u64 & 0x0000_0000_0000_0010u64 == 0u64 && 0x0000_0000_0000_0042u64 & 0x00FF_0000_0000_0000u64 == 0u64 && 0x0000_0000_0000_0042u64 & 0x4200_0000_0000_0000u64 == 0u64 && 0x0000_0000_0000_0042u64 & 0x2400_0000_0000_0000u64 == 0u64 && 0x0000_0000_0000_0042u64 & 0x8100_0000_0000_0000u64 == 0u64 && 0x0000_0000_0000_0042u64 & 0x0800_0000_0000_0000u64 == 0u64 && 0x0000_0000_0000_0042u64 & 0x1000_0000_0000_0000u64 == 0u64 && 0x0000_0000_0000_0024u64 & 0x0000_0000_0000_0081u64 == 0u64 && 0x0000_0000_0000_0024u64 & 0x0000_0000_0000_0008u64 == 0u64 && 0x0000_0000_0000_0024u64 & 0x0000_0000_0000_0010u64 == 0u64 && 0x0000_0000_0000_0024u64 & 0x00FF_0000_0000_0000u64 == 0u64 && 0x0000_0000_0000_0024u64 & 0x4200_0000_0000_0000u64 == 0u64 && 0x0000_0000_0000_0024u64 & 0x2400_0000_0000_0000u64 == 0u64 && 0x0000_0000_0000_0024u64 & 0x8100_0000_0000_0000u64 == 0u64 && 0x0000_0000_0000_0024u64 & 0x0800_0000_0000_0000u64 == 0u64 && 0x0000_0000_0000_0024u64 & 0x1000_0000_0000_0000u64 == 0u64 && 0x0000_0000_0000_0081u64 & 0x0000_0000_0000_0008u64 == 0u64 && 0x0000_0000_0000_0081u64 & 0x0000_0000_0000_0010u64 == 0u64 && 0x0000_0000_0000_0081u64 & 0x00FF_0000_0000_0000u64 == 0u64 && 0x0000_0000_0000_0081u64 & 0x4200_0000_0000_0000u64 == 0u64 && 0x0000_0000_0000_0081u64 & 0x2400_0000_0000_0000u64 == 0u64 && 0x0000_0000_0000_0081u64 & 0x8100_0000_0000_0000u64 == 0u64 && 0x0000_0000_0000_0081u64 & 0x0800_0000_0000_0000u64 == 0u64 && 0x0000_0000_0000_0081u64 & 0x1000_0000_0000_0000u64 == 0u64 && 0x0000_0000_0000_0008u64 & 0x0000_0000_0000_0010u64 == 0u64 && 0x0000_0000_0000_0008u64 & 0x00FF_0000_0000_0000u64 == 0u64 && 0x0000_0000_0000_0008u64 & 0x4200_0000_0000_0000u64 == 0u64 && 0x0000_0000_0000_0008u64 & 0x2400_0000_0000_0000u64 == 0u64 && 0x0000_0000_0000_0008u64 & 0x8100_0000_0000_0000u64 == 0u64 && 0x0000_0000_0000_0008u64 & 0x0800_0000_0000_0000u64 == 0u64 && 0x0000_0000_0000_0008u64 & 0x1000_0000_0000_0000u64 == 0u64 && 0x0000_0000_0000_0010u64 & 0x00FF_0000_0000_0000u64 == 0u64 && 0x0000_0000_0000_0010u64 & 0x4200_0000_0000_0000u64 == 0u64 && 0x0000_0000_0000_0010u64 & 0x2400_0000_0000_0000u64 == 0u64 && 0x0000_0000_0000_0010u64 & 0x8100_0000_0000_0000u64 == 0u64 && 0x0000_0000_0000_0010u64 & 0x0800_0000_0000_0000u64 == 0u64 && 0x0000_0000_0000_0010u64 & 0x1000_0000_0000_0000u64 == 0u64 && 0x00FF_0000_0000_0000u64 & 0x4200_0000_0000_0000u64 == 0u64 && 0x00FF_0000_0000_0000u64 & 0x2400_0000_0000_0000u64 == 0u64 && 0x00FF_0000_0000_0000u64 & 0x8100_0000_0000_0000u64 == 0u64 && 0x00FF_0000_0000_0000u64 & 0x0800_0000_0000_0000u64 == 0u64 && 0x00FF_0000_0000_0000u64 & 0x1000_0000_0000_0000u64 == 0u64 && 0x4200_0000_0000_0000u64 & 0x2400_0000_0000_0000u64 == 0u64 && 0x4200_0000_0000_0000u64 & 0x8100_0000_0000_0000u64 == 0u64 && 0x4200_0000_0000_0000u64 & 0x0800_0000_0000_0000u64 == 0u64 && 0x4200_0000_0000_0000u64 & 0x1000_0000_0000_0000u64 == 0u64 && 0x2400_0000_0000_0000u64 & 0x8100_0000_0000_0000u64 == 0u64 && 0x2400_0000_0000_0000u64 & 0x0800_0000_0000_0000u64 == 0u64 && 0x2400_0000_0000_0000u64 & 0x1000_0000_0000_0000u64 == 0u64 && 0x8100_0000_0000_0000u64 & 0x0800_0000_0000_0000u64 == 0u64 && 0x8100_0000_0000_0000u64 & 0x1000_0000_0000_0000u64 == 0u64 && 0x0800_0000_0000_0000u64 & 0x1000_0000_0000_0000u64 == 0u64) by (bit_vector);
    assert forall|i: int, j: int| 0 <= i < j < 12 implies #[trigger] (p[i] & p[j]) == 0u64 by {
        assert(i == 0 || i == 1 || i == 2 || i == 3 || i == 4 || i == 5 || i == 6 || i == 7 || i == 8
            || i == 9 || i == 10);
        assert(j == 1 || j == 2 || j == 3 || j == 4 || j == 5 || j == 6 || j == 7 || j == 8 || j == 9
            || j == 10 || j == 11);
    }
}

/// No square of the empty board holds two chessmen.
pub proof fn lemma_empty_disjoint()
    ensures
        disjoint(crate::hash::zero_planes()),
{
    assert(0u64 & 0u64 == 0u64) by {
        crate::moving::lemma_empty_plane(0);
        lemma_compact_bits(0, 0, 0, 0, 0, 0, 0, 0);
    }
}

/// A plane with no bit set is empty.
pub proof fn lemma_no_bits_empty(x: u64)
    requires
        forall|s: int| 0 <= s < 64 ==> !#[trigger] has_bit(x, s),
    ensures
        x == 0,
{
    assert(!has_bit(x, 0));
    assert(!has_bit(x, 1));
    assert(!has_bit(x, 2));
    assert(!has_bit(x, 3));
    assert(!has_bit(x, 4));
    assert(!has_bit(x, 5));
    assert(!has_bit(x, 6));
    assert(!has_bit(x, 7));
    assert(!has_bit(x, 8));
    assert(!has_bit(x, 9));
    assert(!has_bit(x, 10));
    assert(!has_bit(x, 11));
    assert(!has_bit(x, 12));
    assert(!has_bit(x, 13));
    assert(!has_bit(x, 14));
    assert(!has_bit(x, 15));
    assert(!has_bit(x, 16));
    assert(!has_bit(x, 17));
    assert(!has_bit(x, 18));
    assert(!has_bit(x, 19));
    assert(!has_bit(x, 20));
    assert(!has_bit(x, 21));
    assert(!has_bit(x, 22));
    assert(!has_bit(x, 23));
    assert(!has_bit(x, 24));
    assert(!has_bit(x, 25));
    assert(!has_bit(x, 26));
    assert(!has_bit(x, 27));
    assert(!has_bit(x, 28));
    assert(!has_bit(x, 29));
    assert(!has_bit(x, 30));
    assert(!has_bit(x, 31));
    assert(!has_bit(x, 32));
    assert(!has_bit(x, 33));
    assert(!has_bit(x, 34));
    assert(!has_bit(x, 35));
    assert(!has_bit(x, 36));
    assert(!has_bit(x, 37));
    assert(!has_bit(x, 38));
    assert(!has_bit(x, 39));
    assert(!has_bit(x, 40));
    assert(!has_bit(x, 41));
    assert(!has_bit(x, 42));
    assert(!has_bit(x, 43));
    assert(!has_bit(x, 44));
    assert(!has_bit(x, 45));
    assert(!has_bit(x, 46));
    assert(!has_bit(x, 47));
    assert(!has_bit(x, 48));
    assert(!has_bit(x, 49));
    assert(!has_bit(x, 50));
    assert(!has_bit(x, 51));
    assert(!has_bit(x, 52));
    assert(!has_bit(x, 53));
    assert(!has_bit(x, 54));
    assert(!has_bit(x, 55));
    assert(!has_bit(x, 56));
    assert(!has_bit(x, 57));
    assert(!has_bit(x, 58));
    assert(!has_bit(x, 59));
    assert(!has_bit(x, 60));
    assert(!has_bit(x, 61));
    assert(!has_bit(x, 62));
    assert(!has_bit(x, 63));
    assert((x >> 0u64) & 1u64 != 1u64 && (x >> 1u64) & 1u64 != 1u64 && (x >> 2u64) & 1u64 != 1u64 && (x >> 3u64) & 1u64 != 1u64 && (x >> 4u64) & 1u64 != 1u64 && (x >> 5u64) & 1u64 != 1u64 && (x >> 6u64) & 1u64 != 1u64 && (x >> 7u64) & 1u64 != 1u64 && (x >> 8u64) & 1u64 != 1u64 && (x >> 9u64) & 1u64 != 1u64 && (x >> 10u64) & 1u64 != 1u64 && (x >> 11u64) & 1u64 != 1u64 && (x >> 12u64) & 1u64 != 1u64 && (x >> 13u64) & 1u64 != 1u64 && (x >> 14u64) & 1u64 != 1u64 && (x >> 15u64) & 1u64 != 1u64 && (x >> 16u64) & 1u64 != 1u64 && (x >> 17u64) & 1u64 != 1u64 && (x >> 18u64) & 1u64 != 1u64 && (x >> 19u64) & 1u64 != 1u64 && (x >> 20u64) & 1u64 != 1u64 && (x >> 21u64) & 1u64 != 1u64 && (x >> 22u64) & 1u64 != 1u64 && (x >> 23u64) & 1u64 != 1u64 && (x >> 24u64) & 1u64 != 1u64 && (x >> 25u64) & 1u64 != 1u64 && (x >> 26u64) & 1u64 != 1u64 && (x >> 27u64) & 1u64 != 1u64 && (x >> 28u64) & 1u64 != 1u64 && (x >> 29u64) & 1u64 != 1u64 && (x >> 30u64) & 1u64 != 1u64 && (x >> 31u64) & 1u64 != 1u64 && (x >> 32u64) & 1u64 != 1u64 && (x >> 33u64) & 1u64 != 1u64 && (x >> 34u64) & 1u64 != 1u64 && (x >> 35u64) & 1u64 != 1u64 && (x >> 36u64) & 1u64 != 1u64 && (x >> 37u64) & 1u64 != 1u64 && (x >> 38u64) & 1u64 != 1u64 && (x >> 39u64) & 1u64 != 1u64 && (x >> 40u64) & 1u64 != 1u64 && (x >> 41u64) & 1u64 != 1u64 && (x >> 42u64) & 1u64 != 1u64 && (x >> 43u64) & 1u64 != 1u64 && (x >> 44u64) & 1u64 != 1u64 && (x >> 45u64) & 1u64 != 1u64 && (x >> 46u64) & 1u64 != 1u64 && (x >> 47u64) & 1u64 != 1u64 && (x >> 48u64) & 1u64 != 1u64 && (x >> 49u64) & 1u64 != 1u64 && (x >> 50u64) & 1u64 != 1u64 && (x >> 51u64) & 1u64 != 1u64 && (x >> 52u64) & 1u64 != 1u64 && (x >> 53u64) & 1u64 != 1u64 && (x >> 54u64) & 1u64 != 1u64 && (x >> 55u64) & 1u64 != 1u64 && (x >> 56u64) & 1u64 != 1u64 && (x >> 57u64) & 1u64 != 1u64 && (x >> 58u64) & 1u64 != 1u64 && (x >> 59u64) & 1u64 != 1u64 && (x >> 60u64) & 1u64 != 1u64 && (x >> 61u64) & 1u64 != 1u64 && (x >> 62u64) & 1u64 != 1u64 && (x >> 63u64) & 1u64 != 1u64 ==> x == 0u64) by (bit_vector);
}

/// Twelve planes are disjoint when no square is on two of them.
pub proof fn lemma_disjoint_by_squares(p: Seq<u64>)
    requires
        p.len() == 12,
        forall|i: int, j: int, s: int|
            0 <= i < j < 12 && 0 <= s < 64 ==> !(#[trigger] has_bit(p[i], s) && #[trigger] has_bit(p[j], s)),
    ensures
        disjoint(p),
{
    assert forall|i: int, j: int| 0 <= i < j < 12 implies #[trigger] (p[i] & p[j]) == 0u64 by {
        assert forall|s: int| 0 <= s < 64 implies !#[trigger] has_bit(p[i] & p[j], s) by {
            lemma_has_bit_or(p[i], p[j], s);
        }
        lemma_no_bits_empty(p[i] & p[j]);
    }
}

/// Under disjointness no square is on two planes.
pub proof fn lemma_squares_of_disjoint(p: Seq<u64>, i: int, j: int, s: int)
    requires
        p.len() == 12,
        disjoint(p),
        0 <= i < 12,
        0 <= j < 12,
        i != j,
        0 <= s < 64,
    ensures
        !(has_bit(p[i], s) && has_bit(p[j], s)),
{
    lemma_has_bit_or(p[i], p[j], s);
    crate::moving::lemma_empty_plane(s);
    if i < j {
        assert(p[i] & p[j] == 0u64);
    } else {
        assert(p[j] & p[i] == 0u64);
        lemma_has_bit_or(p[j], p[i], s);
    }
}

/// On a square that no plane holds, no echelon is found.
pub proof fn lemma_ech_at_none(p: Seq<u64>, s: int, k: int)
    requires
        0 <= k <= 6,
        forall|j: int| k <= j < 6 ==> !#[trigger] echelon_on(p, j, s),
    ensures
        ech_at_from(p, s, k) is None,
    decreases 6 - k,
{
    if k < 6 {
        lemma_ech_at_none(p, s, k + 1);
    }
}

/// The echelon found on a square is there; when none is found, the square is empty.
pub proof fn lemma_ech_at_found(p: Seq<u64>, s: int, k: int)
    requires
        p.len() == 12,
        0 <= k <= 6,
    ensures
        ech_at_from(p, s, k) is Some ==> echelon_on(p, ech_at_from(p, s, k)->0.spec_ix() as int, s),
        ech_at_from(p, s, k) is None ==> forall|j: int| k <= j < 6 ==> !#[trigger] echelon_on(p, j, s),
    decreases 6 - k,
{
    if k < 6 {
        lemma_ech_at_found(p, s, k + 1);
        if echelon_on(p, k, s) {
            assert(ChessEchelon::from_ix(k).spec_ix() == k);
        }
    }
}

/// Testing a plane against a square's bit.
pub proof fn lemma_bit_test(x: u64, s: int)
    requires
        0 <= s < 64,
    ensures
        (x & (1u64 << (s as u64)) != 0u64) == has_bit(x, s),
        has_bit(x, s) ==> x != 0u64,
{
    let su = s as u64;
    assert(su < 64 ==> ((x & (1u64 << su) != 0u64) == ((x >> su) & 1u64 == 1u64)) && ((x >> su) & 1u64
        == 1u64 ==> x != 0u64)) by (bit_vector);
}

/// A bit of an OR is set when either bit is.
pub proof fn lemma_has_bit_or(a: u64, b: u64, s: int)
    requires
        0 <= s < 64,
    ensures
        has_bit(a | b, s) == (has_bit(a, s) || has_bit(b, s)),
        has_bit(a & b, s) == (has_bit(a, s) && has_bit(b, s)),
{
    let su = s as u64;
    assert(su < 64 ==> ((((a | b) >> su) & 1u64 == 1u64) == (((a >> su) & 1u64 == 1u64) || ((b
        >> su) & 1u64 == 1u64))) && ((((a & b) >> su) & 1u64 == 1u64) == (((a >> su) & 1u64 == 1u64)
        && ((b >> su) & 1u64 == 1u64)))) by (bit_vector);
}

/// The metadata of a position: castling rules, hash, turn, side to move
/// and transients.
#[derive(Debug, Clone, Copy)]
pub struct DefaultMetaBoard {
    pub castling: CastlingRules,
    pub hash: u64,
    pub turn: u16,
    pub player: ChessColor,
    pub trans: Transients,
}

/// The metadata after the side to move passes the move on.
pub open spec fn next_ply_spec(m: DefaultMetaBoard) -> DefaultMetaBoard {
    DefaultMetaBoard {
        player: m.player.spec_opp(),
        turn: if m.player == ChessColor::BLACK {
            m.turn.wrapping_add(1)
        } else {
            m.turn
        },
        ..m
    }
}

/// The metadata one ply back.
pub open spec fn prev_ply_spec(m: DefaultMetaBoard) -> DefaultMetaBoard {
    DefaultMetaBoard {
        player: m.player.spec_opp(),
        turn: if m.player == ChessColor::WHITE {
            m.turn.wrapping_sub(1)
        } else {
            m.turn
        },
        ..m
    }
}

impl DefaultMetaBoard {
    /// The metadata of the start position, its hash without the chessmen.
    pub fn startpos<ZT: ZobristTables>(zt: &ZT) -> (r: DefaultMetaBoard)
        requires
            zt.wf(),
        ensures
            r.player == ChessColor::WHITE,
            r.turn == 1,
            r.trans.en_passant.is_none(),
            r.trans.halfmove_clock == 0,
            r.castling.wf(),
            forall|c: int, d: int| 0 <= c < 2 && 0 <= d < 2 ==> r.trans.rights@[c]@[d],
            r.hash == rights_hash(zt, r.trans.rights) ^ ep_hash(zt, r.trans.en_passant),
    {
        let trans = Transients::startpos();
        let castling = CastlingRules::standard();
        let hash = hash_rights(zt, trans.rights) ^ hash_en_passant(zt, trans.en_passant);
        DefaultMetaBoard { castling, hash, turn: 1, player: ChessColor::WHITE, trans }
    }

    /// The metadata of an empty board, white to move without castling rights.
    pub fn empty<ZT: ZobristTables>(zt: &ZT) -> (r: DefaultMetaBoard)
        requires
            zt.wf(),
        ensures
            r.player == ChessColor::WHITE,
            r.turn == 1,
            r.trans.en_passant.is_none(),
            r.trans.halfmove_clock == 0,
            r.castling.wf(),
            forall|c: int, d: int| 0 <= c < 2 && 0 <= d < 2 ==> !r.trans.rights@[c]@[d],
            r.hash == rights_hash(zt, r.trans.rights) ^ ep_hash(zt, r.trans.en_passant),
    {
        let trans = Transients::empty();
        let castling = CastlingRules::standard();
        let hash = hash_rights(zt, trans.rights) ^ hash_en_passant(zt, trans.en_passant);
        DefaultMetaBoard { castling, hash, turn: 1, player: ChessColor::WHITE, trans }
    }

    /// The hash of the metadata alone.
    pub fn rehash<ZT: ZobristTables>(&self, zt: &ZT) -> (r: u64)
        requires
            zt.wf(),
        ensures
            r == (rights_hash(zt, self.trans.rights) ^ ep_hash(zt, self.trans.en_passant)) ^ (
            if self.player == ChessColor::BLACK {
                zt.black_key()
            } else {
                0
            }),
    {
        let b = match self.player {
            ChessColor::BLACK => zt.black(),
            ChessColor::WHITE => 0,
        };
        (hash_rights(zt, self.trans.rights) ^ hash_en_passant(zt, self.trans.en_passant)) ^ b
    }

    /// The transients.
    pub fn trans(&self) -> (r: Transients)
        ensures
            r == self.trans,
    {
        self.trans
    }

    /// Set the half-move clock.
    pub fn set_halfmove_clock(&mut self, val: u8)
        ensures
            *final(self) == (DefaultMetaBoard {
                trans: Transients { halfmove_clock: val, ..old(self).trans },
                ..*old(self)
            }),
    {
        self.trans.halfmove_clock = val;
    }

    /// Set the castling rights.
    pub fn set_castling_rights(&mut self, rights: [[bool; 2]; 2])
        ensures
            *final(self) == (DefaultMetaBoard { trans: Transients { rights, ..old(self).trans }, ..*old(self) }),
    {
        self.trans.rights = rights;
    }

    /// Set the en-passant state.
    pub fn set_en_passant(&mut self, eps: Option<EnPassant>)
        ensures
            *final(self) == (DefaultMetaBoard {
                trans: Transients { en_passant: eps, ..old(self).trans },
                ..*old(self)
            }),
    {
        self.trans.en_passant = eps;
    }

    /// Set all the transients.
    pub fn set_transients(&mut self, trans: Transients)
        ensures
            *final(self) == (DefaultMetaBoard { trans, ..*old(self) }),
    {
        self.trans = trans;
    }

    /// The current hash.
    pub fn curr_hash(&self) -> (r: u64)
        ensures
            r == self.hash,
    {
        self.hash
    }

    /// XOR a delta into the hash.
    pub fn hash(&mut self, hash: u64)
        ensures
            *final(self) == (DefaultMetaBoard { hash: old(self).hash ^ hash, ..*old(self) }),
    {
        self.hash = self.hash ^ hash;
    }

    /// The side to move and the turn number.
    pub fn ply(&self) -> (r: (ChessColor, u16))
        ensures
            r == (self.player, self.turn),
    {
        (self.player, self.turn)
    }

    /// Pass the move: the turn number grows after black moves.
    pub fn next_ply(&mut self)
        ensures
            *final(self) == next_ply_spec(*old(self)),
    {
        if self.player == ChessColor::BLACK {
            self.turn = self.turn.wrapping_add(1);
        }
        self.player = self.player.opp();
    }

    /// Take the move back: the turn number shrinks before black moves again.
    pub fn prev_ply(&mut self)
        ensures
            *final(self) == prev_ply_spec(*old(self)),
    {
        if self.player == ChessColor::WHITE {
            self.turn = self.turn.wrapping_sub(1);
        }
        self.player = self.player.opp();
    }

    /// The castling rules of the game.
    pub fn castling(&self) -> (r: CastlingRules)
        ensures
            r == self.castling,
    {
        self.castling
    }
}

/// A board seen as twelve planes and a metadata block.
///
/// A view may leave the planes alone (`moves_men` false) or the hash alone
/// (`keeps_hash` false); the make/unmake engine runs on every view.
pub trait BitBoard: Sized {
    /// The representation is consistent.
    spec fn wf(&self) -> bool;

    /// The twelve planes, by color then echelon.
    spec fn planes_view(&self) -> Seq<u64>;

    /// The metadata.
    spec fn meta_view(&self) -> DefaultMetaBoard;

    /// Whether [`BitBoard::xor`] changes the planes.
    spec fn moves_men() -> bool;

    /// Whether [`BitBoard::hash`] changes the hash.
    spec fn keeps_hash() -> bool;

    /// XOR `mask` into the plane of `color` and `ech`: the sole mutator of the planes.
    fn xor(&mut self, color: ChessColor, ech: ChessEchelon, mask: u64)
        requires
            old(self).wf(),
        ensures
            final(self).wf(),
            final(self).meta_view() == old(self).meta_view(),
            final(self).planes_view() == (if Self::moves_men() {
                planes_xor(old(self).planes_view(), pix(color, ech), mask)
            } else {
                old(self).planes_view()
            }),
    ;

    /// The plane of one color and echelon.
    fn men(&self, color: ChessColor, ech: ChessEchelon) -> (r: u64)
        requires
            self.wf(),
        ensures
            disjoint(self.planes_view()) ==> r == self.planes_view()[pix(color, ech)],
    ;

    /// The squares of one color's chessmen.
    fn color(&self, color: ChessColor) -> (r: u64)
        requires
            self.wf(),
        ensures
            disjoint(self.planes_view()) ==> r == color_union(
                self.planes_view(),
                color.spec_ix() as int,
            ),
    ;

    /// The occupied squares.
    fn total(&self) -> (r: u64)
        requires
            self.wf(),
        ensures
            disjoint(self.planes_view()) ==> r == total_union(self.planes_view()),
    ;

    /// The echelon of the chessman on a square.
    fn ech_at(&self, sq: Square) -> (r: Option<ChessEchelon>)
        requires
            self.wf(),
        ensures
            disjoint(self.planes_view()) ==> r == ech_at_spec(self.planes_view(), sq.idx()),
    ;

    /// The echelon of the chessman on a square, unless it is a king.
    fn comm_at(&self, sq: Square) -> (r: Option<ChessCommoner>)
        requires
            self.wf(),
        ensures
            disjoint(self.planes_view()) ==> r == comm_of(ech_at_spec(self.planes_view(), sq.idx())),
    ;

    /// The transients.
    fn trans(&self) -> (r: Transients)
        requires
            self.wf(),
        ensures
            r == self.meta_view().trans,
    ;

    /// Set the half-move clock.
    fn set_halfmove_clock(&mut self, val: u8)
        requires
            old(self).wf(),
        ensures
            final(self).wf(),
            final(self).planes_view() == old(self).planes_view(),
            final(self).meta_view() == (DefaultMetaBoard {
                trans: Transients { halfmove_clock: val, ..old(self).meta_view().trans },
                ..old(self).meta_view()
            }),
    ;

    /// Set the castling rights.
    fn set_castling_rights(&mut self, rights: [[bool; 2]; 2])
        requires
            old(self).wf(),
        ensures
            final(self).wf(),
            final(self).planes_view() == old(self).planes_view(),
            final(self).meta_view() == (DefaultMetaBoard {
                trans: Transients { rights, ..old(self).meta_view().trans },
                ..old(self).meta_view()
            }),
    ;

    /// Set the en-passant state.
    fn set_en_passant(&mut self, eps: Option<EnPassant>)
        requires
            old(self).wf(),
        ensures
            final(self).wf(),
            final(self).planes_view() == old(self).planes_view(),
            final(self).meta_view() == (DefaultMetaBoard {
                trans: Transients { en_passant: eps, ..old(self).meta_view().trans },
                ..old(self).meta_view()
            }),
    ;

    /// Set all the transients.
    fn set_transients(&mut self, trans: Transients)
        requires
            old(self).wf(),
        ensures
            final(self).wf(),
            final(self).planes_view() == old(self).planes_view(),
            final(self).meta_view() == (DefaultMetaBoard { trans, ..old(self).meta_view() }),
    ;

    /// The current hash.
    fn curr_hash(&self) -> (r: u64)
        requires
            self.wf(),
        ensures
            r == self.meta_view().hash,
    ;

    /// XOR a delta into the hash.
    fn hash(&mut self, hash: u64)
        requires
            old(self).wf(),
        ensures
            final(self).wf(),
            final(self).planes_view() == old(self).planes_view(),
            final(self).meta_view() == (if Self::keeps_hash() {
                DefaultMetaBoard { hash: old(self).meta_view().hash ^ hash, ..old(self).meta_view() }
            } else {
                old(self).meta_view()
            }),
    ;

    /// The side to move and the turn number.
    fn ply(&self) -> (r: (ChessColor, u16))
        requires
            self.wf(),
        ensures
            r == (self.meta_view().player, self.meta_view().turn),
    ;

    /// Pass the move to the other side.
    fn next_ply(&mut self)
        requires
            old(self).wf(),
        ensures
            final(self).wf(),
            final(self).planes_view() == old(self).planes_view(),
            final(self).meta_view() == next_ply_spec(old(self).meta_view()),
    ;

    /// Take the move back.
    fn prev_ply(&mut self)
        requires
            old(self).wf(),
        ensures
            final(self).wf(),
            final(self).planes_view() == old(self).planes_view(),
            final(self).meta_view() == prev_ply_spec(old(self).meta_view()),
    ;

    /// The castling rules of the game.
    fn castling(&self) -> (r: CastlingRules)
        requires
            self.wf(),
        ensures
            r == self.meta_view().castling,
    ;
}

/// A board that stands for a whole position.
pub trait ChessBoard: BitBoard {
    /// A whole board moves its chessmen and keeps its hash.
    proof fn lemma_whole_board()
        ensures
            Self::moves_men(),
            Self::keeps_hash(),
    ;

    /// The start position of classical chess.
    fn startpos<ZT: ZobristTables>(zt: &ZT) -> (r: Self)
        requires
            zt.wf(),
        ensures
            r.wf(),
            r.planes_view() == start_planes(),
            disjoint(r.planes_view()),
            r.meta_view().player == ChessColor::WHITE,
            r.meta_view().turn == 1,
            r.meta_view().trans.en_passant.is_none(),
            r.meta_view().trans.halfmove_clock == 0,
            r.meta_view().castling.wf(),
            forall|c: int, d: int| 0 <= c < 2 && 0 <= d < 2 ==> r.meta_view().trans.rights@[c]@[d],
            r.meta_view().hash == position_hash(
                zt,
                r.planes_view(),
                r.meta_view().trans,
                r.meta_view().player,
            ),
    ;

    /// An empty board, white to move, without castling rights.
    fn empty<ZT: ZobristTables>(zt: &ZT) -> (r: Self)
        requires
            zt.wf(),
        ensures
            r.wf(),
            r.planes_view() == crate::hash::zero_planes(),
            disjoint(r.planes_view()),
            r.meta_view().player == ChessColor::WHITE,
            r.meta_view().turn == 1,
            r.meta_view().trans.en_passant.is_none(),
            r.meta_view().trans.halfmove_clock == 0,
            r.meta_view().castling.wf(),
            forall|c: int, d: int| 0 <= c < 2 && 0 <= d < 2 ==> !r.meta_view().trans.rights@[c]@[d],
            r.meta_view().hash == position_hash(
                zt,
                r.planes_view(),
                r.meta_view().trans,
                r.meta_view().player,
            ),
    ;

    /// The hash of the position, computed from scratch.
    fn rehash<ZT: ZobristTables>(&self, zt: &ZT) -> (r: u64)
        requires
            self.wf(),
            zt.wf(),
        ensures
            disjoint(self.planes_view()) ==> r == position_hash(
                zt,
                self.planes_view(),
                self.meta_view().trans,
                self.meta_view().player,
            ),
    ;

    /// Checks that no square holds two chessmen and that the hash kept
    /// along the moves is the hash computed from scratch.
    /// The layout's own consistency checks on its planes.
    spec fn layout_ok(&self) -> bool;

    /// The twelve planes that the hash computed from scratch covers.
    spec fn hashed_planes(&self) -> Seq<u64>;

    fn sanity_check<ZT: ZobristTables>(&self, zt: &ZT) -> (r: bool)
        requires
            self.wf(),
            zt.wf(),
        ensures
            r == (self.layout_ok() && self.meta_view().hash == position_hash(
                zt,
                self.hashed_planes(),
                self.meta_view().trans,
                self.meta_view().player,
            )),
            disjoint(self.planes_view()) ==> (r == (self.meta_view().hash == position_hash(
                zt,
                self.planes_view(),
                self.meta_view().trans,
                self.meta_view().player,
            ))),
    ;
}


/// Twelve planes with one XOR per plane.
pub proof fn lemma_flat_xor(masks: [[u64; 6]; 2], next: [[u64; 6]; 2], c: int, k: int, m: u64)
    requires
        0 <= c < 2,
        0 <= k < 6,
        next@[c]@ == masks@[c]@.update(k, masks@[c]@[k] ^ m),
        next@[1 - c] == masks@[1 - c],
    ensures
        flat_planes(next) =~= planes_xor(flat_planes(masks), c * 6 + k, m),
{
}

/// The search for the echelon on a square, one echelon at a time.
fn first_echelon(white: [u64; 6], black: [u64; 6], sq: Square) -> (r: Option<ChessEchelon>)
    ensures
        r == ech_at_spec(flat_planes([white, black]), sq.idx()),
{
    let bit = sq.bit();
    let ghost p = flat_planes([white, black]);
    let mut k: usize = 0;
    while k < 6
        invariant
            k <= 6,
            bit == sq.bit_spec(),
            p == flat_planes([white, black]),
            ech_at_spec(p, sq.idx()) == ech_at_from(p, sq.idx(), k as int),
        decreases 6 - k,
    {
        proof {
            lemma_bit_test(white@[k as int], sq.idx());
            lemma_bit_test(black@[k as int], sq.idx());
            assert(p[k as int] == white@[k as int]);
            assert(p[6 + k as int] == black@[k as int]);
        }
        if (white[k] & bit) != 0 || (black[k] & bit) != 0 {
            return Some(ChessEchelon::at(k));
        }
        k = k + 1;
    }
    None
}

/// The twelve-plane layout: one plane per color and echelon.
#[derive(Debug, Clone, Copy)]
pub struct FullBitBoard {
    pub masks: [[u64; 6]; 2],
    pub meta: DefaultMetaBoard,
}

impl FullBitBoard {
    /// A board with the given planes and metadata.
    pub fn from_parts(masks: [[u64; 6]; 2], meta: DefaultMetaBoard) -> (r: FullBitBoard)
        ensures
            r.masks == masks,
            r.meta == meta,
    {
        FullBitBoard { masks, meta }
    }
}

impl BitBoard for FullBitBoard {
    open spec fn wf(&self) -> bool {
        true
    }

    open spec fn planes_view(&self) -> Seq<u64> {
        flat_planes(self.masks)
    }

    open spec fn meta_view(&self) -> DefaultMetaBoard {
        self.meta
    }

    open spec fn moves_men() -> bool {
        true
    }

    open spec fn keeps_hash() -> bool {
        true
    }

    fn xor(&mut self, color: ChessColor, ech: ChessEchelon, mask: u64) {
        let c = color.ix();
        let k = ech.ix();
        let mut row = self.masks[c];
        let v = row[k] ^ mask;
        row[k] = v;
        let ghost before = self.masks;
        self.masks[c] = row;
        proof {
            lemma_flat_xor(before, self.masks, c as int, k as int, mask);
        }
    }

    fn men(&self, color: ChessColor, ech: ChessEchelon) -> (r: u64) {
        let row = self.masks[color.ix()];
        row[ech.ix()]
    }

    fn color(&self, color: ChessColor) -> (r: u64) {
        let row = self.masks[color.ix()];
        ((((row[0] | row[1]) | row[2]) | row[3]) | row[4]) | row[5]
    }

    fn total(&self) -> (r: u64) {
        self.color(ChessColor::WHITE) | self.color(ChessColor::BLACK)
    }

    fn ech_at(&self, sq: Square) -> (r: Option<ChessEchelon>) {
        proof {
            assert(self.masks == [self.masks@[0], self.masks@[1]]);
        }
        first_echelon(self.masks[0], self.masks[1], sq)
    }

    fn comm_at(&self, sq: Square) -> (r: Option<ChessCommoner>) {
        match self.ech_at(sq) {
            Some(e) => ChessCommoner::from_echelon(e),
            None => None,
        }
    }

    fn trans(&self) -> (r: Transients) {
        self.meta.trans()
    }

    fn set_halfmove_clock(&mut self, val: u8) {
        self.meta.set_halfmove_clock(val);
    }

    fn set_castling_rights(&mut self, rights: [[bool; 2]; 2]) {
        self.meta.set_castling_rights(rights);
    }

    fn set_en_passant(&mut self, eps: Option<EnPassant>) {
        self.meta.set_en_passant(eps);
    }

    fn set_transients(&mut self, trans: Transients) {
        self.meta.set_transients(trans);
    }

    fn curr_hash(&self) -> (r: u64) {
        self.meta.curr_hash()
    }

    fn hash(&mut self, hash: u64) {
        self.meta.hash(hash);
    }

    fn ply(&self) -> (r: (ChessColor, u16)) {
        self.meta.ply()
    }

    fn next_ply(&mut self) {
        self.meta.next_ply();
    }

    fn prev_ply(&mut self) {
        self.meta.prev_ply();
    }

    fn castling(&self) -> (r: CastlingRules) {
        self.meta.castling()
    }
}

/// The start position's planes as two rows of six.
fn start_masks() -> (r: [[u64; 6]; 2])
    ensures
        flat_planes(r) == start_planes(),
{
    let white: [u64; 6] = [0xFF00, 0x42, 0x24, 0x81, 0x08, 0x10];
    let black: [u64; 6] = [
        0x00FF_0000_0000_0000,
        0x4200_0000_0000_0000,
        0x2400_0000_0000_0000,
        0x8100_0000_0000_0000,
        0x0800_0000_0000_0000,
        0x1000_0000_0000_0000,
    ];
    let r = [white, black];
    assert(flat_planes(r) =~= start_planes());
    r
}

/// Twelve planes that differ pairwise nowhere, tested pair by pair.
pub fn masks_disjoint(masks: &[[u64; 6]; 2]) -> (r: bool)
    ensures
        r == disjoint(flat_planes(*masks)),
{
    let ghost p = flat_planes(*masks);
    let mut i: usize = 0;
    while i < 12
        invariant
            i <= 12,
            p == flat_planes(*masks),
            forall|a: int, b: int| 0 <= a < i && a < b < 12 ==> #[trigger] (p[a] & p[b]) == 0u64,
        decreases 12 - i,
    {
        let ri = masks[i / 6];
        let x = ri[i % 6];
        let mut j: usize = i + 1;
        while j < 12
            invariant
                i < 12,
                i < j <= 12,
                p == flat_planes(*masks),
                x == p[i as int],
                forall|a: int, b: int| 0 <= a < i && a < b < 12 ==> #[trigger] (p[a] & p[b]) == 0u64,
                forall|b: int| i < b < j ==> #[trigger] (p[i as int] & p[b]) == 0u64,
            decreases 12 - j,
        {
            let rj = masks[j / 6];
            if x & rj[j % 6] != 0 {
                assert(p[i as int] & p[j as int] != 0u64);
                return false;
            }
            j = j + 1;
        }
        assert forall|a: int, b: int| 0 <= a < i + 1 && a < b < 12 implies #[trigger] (p[a] & p[b])
            == 0u64 by {
            if a == i as int {
                assert(p[i as int] & p[b] == 0u64);
            }
        }
        i = i + 1;
    }
    true
}

/// The position hash from the planes and the metadata.
fn rehash_parts<ZT: ZobristTables>(zt: &ZT, masks: &[[u64; 6]; 2], meta: &DefaultMetaBoard) -> (r: u64)
    requires
        zt.wf(),
    ensures
        r == position_hash(zt, flat_planes(*masks), meta.trans, meta.player),
{
    let a = hash_full_bitboard(zt, masks);
    let b = meta.rehash(zt);
    proof {
        crate::hash::lemma_xor(a, rights_hash(zt, meta.trans.rights), ep_hash(zt, meta.trans.en_passant));
        let x = rights_hash(zt, meta.trans.rights);
        let y = ep_hash(zt, meta.trans.en_passant);
        let z: u64 = if meta.player == ChessColor::BLACK { zt.black_key() } else { 0 };
        crate::hash::lemma_xor(a, x ^ y, z);
        crate::hash::lemma_xor(a, x, y);
    }
    a ^ b
}

impl ChessBoard for FullBitBoard {
    proof fn lemma_whole_board() {
    }

    fn startpos<ZT: ZobristTables>(zt: &ZT) -> (r: FullBitBoard) {
        let masks = start_masks();
        proof {
            lemma_start_disjoint();
        }
        let mut meta = DefaultMetaBoard::startpos(zt);
        meta.hash = rehash_parts(zt, &masks, &meta);
        FullBitBoard { masks, meta }
    }

    fn empty<ZT: ZobristTables>(zt: &ZT) -> (r: FullBitBoard) {
        let masks: [[u64; 6]; 2] = [[0, 0, 0, 0, 0, 0], [0, 0, 0, 0, 0, 0]];
        assert(flat_planes(masks) =~= crate::hash::zero_planes());
        proof {
            lemma_empty_disjoint();
        }
        let mut meta = DefaultMetaBoard::empty(zt);
        meta.hash = rehash_parts(zt, &masks, &meta);
        FullBitBoard { masks, meta }
    }

    fn rehash<ZT: ZobristTables>(&self, zt: &ZT) -> (r: u64) {
        rehash_parts(zt, &self.masks, &self.meta)
    }

    /// No square holds two chessmen.
    open spec fn layout_ok(&self) -> bool {
        disjoint(flat_planes(self.masks))
    }

    open spec fn hashed_planes(&self) -> Seq<u64> {
        flat_planes(self.masks)
    }

    fn sanity_check<ZT: ZobristTables>(&self, zt: &ZT) -> (r: bool) {
        masks_disjoint(&self.masks) && self.meta.hash == rehash_parts(zt, &self.masks, &self.meta)
    }
}


/// The XOR of the six planes of color index `c`.
pub open spec fn color_xor(p: Seq<u64>, c: int) -> u64 {
    ((((p[c * 6] ^ p[c * 6 + 1]) ^ p[c * 6 + 2]) ^ p[c * 6 + 3]) ^ p[c * 6 + 4]) ^ p[c * 6 + 5]
}

/// Six pairwise disjoint planes: their XOR is their union, and each lies within it.
pub proof fn lemma_six_disjoint(a0: u64, a1: u64, a2: u64, a3: u64, a4: u64, a5: u64)
    requires
        a0 & a1 == 0u64, a0 & a2 == 0u64, a0 & a3 == 0u64, a0 & a4 == 0u64, a0 & a5 == 0u64,
        a1 & a2 == 0u64, a1 & a3 == 0u64, a1 & a4 == 0u64, a1 & a5 == 0u64,
        a2 & a3 == 0u64, a2 & a4 == 0u64, a2 & a5 == 0u64,
        a3 & a4 == 0u64, a3 & a5 == 0u64,
        a4 & a5 == 0u64,
    ensures
        ((((a0 ^ a1) ^ a2) ^ a3) ^ a4) ^ a5 == ((((a0 | a1) | a2) | a3) | a4) | a5,
{
    assert(((((a0 ^ a1) ^ a2) ^ a3) ^ a4) ^ a5 == ((((a0 | a1) | a2) | a3) | a4) | a5)
        by (bit_vector)
        requires
            a0 & a1 == 0u64, a0 & a2 == 0u64, a0 & a3 == 0u64, a0 & a4 == 0u64, a0 & a5 == 0u64,
            a1 & a2 == 0u64, a1 & a3 == 0u64, a1 & a4 == 0u64, a1 & a5 == 0u64,
            a2 & a3 == 0u64, a2 & a4 == 0u64, a2 & a5 == 0u64,
            a3 & a4 == 0u64, a3 & a5 == 0u64,
            a4 & a5 == 0u64,
    ;
}

/// XORing one of six planes with `m` XORs their XOR with `m`.
pub proof fn lemma_six_xor(a0: u64, a1: u64, a2: u64, a3: u64, a4: u64, a5: u64, m: u64)
    ensures
        ((((a0 ^ m ^ a1) ^ a2) ^ a3) ^ a4) ^ a5 == (((((a0 ^ a1) ^ a2) ^ a3) ^ a4) ^ a5) ^ m,
        ((((a0 ^ (a1 ^ m)) ^ a2) ^ a3) ^ a4) ^ a5 == (((((a0 ^ a1) ^ a2) ^ a3) ^ a4) ^ a5) ^ m,
        ((((a0 ^ a1) ^ (a2 ^ m)) ^ a3) ^ a4) ^ a5 == (((((a0 ^ a1) ^ a2) ^ a3) ^ a4) ^ a5) ^ m,
        ((((a0 ^ a1) ^ a2) ^ (a3 ^ m)) ^ a4) ^ a5 == (((((a0 ^ a1) ^ a2) ^ a3) ^ a4) ^ a5) ^ m,
        ((((a0 ^ a1) ^ a2) ^ a3) ^ (a4 ^ m)) ^ a5 == (((((a0 ^ a1) ^ a2) ^ a3) ^ a4) ^ a5) ^ m,
        ((((a0 ^ a1) ^ a2) ^ a3) ^ a4) ^ (a5 ^ m) == (((((a0 ^ a1) ^ a2) ^ a3) ^ a4) ^ a5) ^ m,
{
    assert(((((a0 ^ m ^ a1) ^ a2) ^ a3) ^ a4) ^ a5 == (((((a0 ^ a1) ^ a2) ^ a3) ^ a4) ^ a5) ^ m
        && ((((a0 ^ (a1 ^ m)) ^ a2) ^ a3) ^ a4) ^ a5 == (((((a0 ^ a1) ^ a2) ^ a3) ^ a4) ^ a5) ^ m
        && ((((a0 ^ a1) ^ (a2 ^ m)) ^ a3) ^ a4) ^ a5 == (((((a0 ^ a1) ^ a2) ^ a3) ^ a4) ^ a5) ^ m
        && ((((a0 ^ a1) ^ a2) ^ (a3 ^ m)) ^ a4) ^ a5 == (((((a0 ^ a1) ^ a2) ^ a3) ^ a4) ^ a5) ^ m
        && ((((a0 ^ a1) ^ a2) ^ a3) ^ (a4 ^ m)) ^ a5 == (((((a0 ^ a1) ^ a2) ^ a3) ^ a4) ^ a5) ^ m
        && ((((a0 ^ a1) ^ a2) ^ a3) ^ a4) ^ (a5 ^ m) == (((((a0 ^ a1) ^ a2) ^ a3) ^ a4) ^ a5)
        ^ m) by (bit_vector);
}

/// The XOR of a color's planes after one plane of it changed by `m`.
pub proof fn lemma_color_xor_update(p: Seq<u64>, i: int, m: u64, c: int)
    requires
        p.len() == 12,
        0 <= i < 12,
        0 <= c < 2,
    ensures
        color_xor(planes_xor(p, i, m), c) == if i / 6 == c {
            color_xor(p, c) ^ m
        } else {
            color_xor(p, c)
        },
{
    let q = planes_xor(p, i, m);
    lemma_six_xor(p[c * 6], p[c * 6 + 1], p[c * 6 + 2], p[c * 6 + 3], p[c * 6 + 4], p[c * 6 + 5], m);
    if i / 6 == c {
        assert(p[c * 6] ^ m ^ p[c * 6 + 1] == (p[c * 6] ^ m) ^ p[c * 6 + 1]);
    }
}

/// Under disjointness, the XOR of a color's planes is their union.
pub proof fn lemma_color_xor_union(p: Seq<u64>, c: int)
    requires
        p.len() == 12,
        disjoint(p),
        0 <= c < 2,
    ensures
        color_xor(p, c) == color_union(p, c),
{
    let b = c * 6;
    assert(p[b] & p[b + 1] == 0u64 && p[b] & p[b + 2] == 0u64 && p[b] & p[b + 3] == 0u64);
    assert(p[b] & p[b + 4] == 0u64 && p[b] & p[b + 5] == 0u64 && p[b + 1] & p[b + 2] == 0u64);
    assert(p[b + 1] & p[b + 3] == 0u64 && p[b + 1] & p[b + 4] == 0u64 && p[b + 1] & p[b + 5] == 0u64);
    assert(p[b + 2] & p[b + 3] == 0u64 && p[b + 2] & p[b + 4] == 0u64 && p[b + 2] & p[b + 5] == 0u64);
    assert(p[b + 3] & p[b + 4] == 0u64 && p[b + 3] & p[b + 5] == 0u64 && p[b + 4] & p[b + 5] == 0u64);
    lemma_six_disjoint(p[b], p[b + 1], p[b + 2], p[b + 3], p[b + 4], p[b + 5]);
}

/// The twelve-plane layout with the two color totals kept alongside.
#[derive(Debug, Clone, Copy)]
pub struct FullerBitBoard {
    pub bitboard: FullBitBoard,
    pub total: [u64; 2],
}

impl BitBoard for FullerBitBoard {
    open spec fn wf(&self) -> bool {
        &&& self.total@[0] == color_xor(self.bitboard.planes_view(), 0)
        &&& self.total@[1] == color_xor(self.bitboard.planes_view(), 1)
    }

    open spec fn planes_view(&self) -> Seq<u64> {
        flat_planes(self.bitboard.masks)
    }

    open spec fn meta_view(&self) -> DefaultMetaBoard {
        self.bitboard.meta
    }

    open spec fn moves_men() -> bool {
        true
    }

    open spec fn keeps_hash() -> bool {
        true
    }

    fn xor(&mut self, color: ChessColor, ech: ChessEchelon, mask: u64) {
        let ghost before = self.planes_view();
        self.bitboard.xor(color, ech, mask);
        let c = color.ix();
        let v = self.total[c] ^ mask;
        self.total[c] = v;
        proof {
            lemma_color_xor_update(before, pix(color, ech), mask, 0);
            lemma_color_xor_update(before, pix(color, ech), mask, 1);
        }
    }

    fn men(&self, color: ChessColor, ech: ChessEchelon) -> (r: u64) {
        self.bitboard.men(color, ech)
    }

    fn color(&self, color: ChessColor) -> (r: u64) {
        proof {
            if disjoint(self.planes_view()) {
                lemma_color_xor_union(self.planes_view(), 0);
                lemma_color_xor_union(self.planes_view(), 1);
            }
        }
        self.total[color.ix()]
    }

    fn total(&self) -> (r: u64) {
        self.color(ChessColor::WHITE) | self.color(ChessColor::BLACK)
    }

    fn ech_at(&self, sq: Square) -> (r: Option<ChessEchelon>) {
        self.bitboard.ech_at(sq)
    }

    fn comm_at(&self, sq: Square) -> (r: Option<ChessCommoner>) {
        self.bitboard.comm_at(sq)
    }

    fn trans(&self) -> (r: Transients) {
        self.bitboard.meta.trans()
    }

    fn set_halfmove_clock(&mut self, val: u8) {
        self.bitboard.meta.set_halfmove_clock(val);
    }

    fn set_castling_rights(&mut self, rights: [[bool; 2]; 2]) {
        self.bitboard.meta.set_castling_rights(rights);
    }

    fn set_en_passant(&mut self, eps: Option<EnPassant>) {
        self.bitboard.meta.set_en_passant(eps);
    }

    fn set_transients(&mut self, trans: Transients) {
        self.bitboard.meta.set_transients(trans);
    }

    fn curr_hash(&self) -> (r: u64) {
        self.bitboard.meta.curr_hash()
    }

    fn hash(&mut self, hash: u64) {
        self.bitboard.meta.hash(hash);
    }

    fn ply(&self) -> (r: (ChessColor, u16)) {
        self.bitboard.meta.ply()
    }

    fn next_ply(&mut self) {
        self.bitboard.meta.next_ply();
    }

    fn prev_ply(&mut self) {
        self.bitboard.meta.prev_ply();
    }

    fn castling(&self) -> (r: CastlingRules) {
        self.bitboard.meta.castling()
    }
}

impl FullerBitBoard {
    /// The totals of a twelve-plane board.
    pub fn from_bitboard(bitboard: FullBitBoard) -> (r: FullerBitBoard)
        ensures
            r.wf(),
            r.bitboard == bitboard,
    {
        let w = bitboard.masks[0];
        let b = bitboard.masks[1];
        let tw = ((((w[0] ^ w[1]) ^ w[2]) ^ w[3]) ^ w[4]) ^ w[5];
        let tb = ((((b[0] ^ b[1]) ^ b[2]) ^ b[3]) ^ b[4]) ^ b[5];
        FullerBitBoard { bitboard, total: [tw, tb] }
    }
}

impl ChessBoard for FullerBitBoard {
    proof fn lemma_whole_board() {
    }

    fn startpos<ZT: ZobristTables>(zt: &ZT) -> (r: FullerBitBoard) {
        FullerBitBoard::from_bitboard(FullBitBoard::startpos(zt))
    }

    fn empty<ZT: ZobristTables>(zt: &ZT) -> (r: FullerBitBoard) {
        FullerBitBoard::from_bitboard(FullBitBoard::empty(zt))
    }

    fn rehash<ZT: ZobristTables>(&self, zt: &ZT) -> (r: u64) {
        self.bitboard.rehash(zt)
    }

    /// The checks of the twelve planes; the color totals always match them.
    open spec fn layout_ok(&self) -> bool {
        self.bitboard.layout_ok()
    }

    open spec fn hashed_planes(&self) -> Seq<u64> {
        self.bitboard.hashed_planes()
    }

    fn sanity_check<ZT: ZobristTables>(&self, zt: &ZT) -> (r: bool) {
        self.bitboard.sanity_check(zt)
    }
}


/// Bit facts behind the compact layout.
pub proof fn lemma_compact_bits(x: u64, y: u64, a0: u64, a1: u64, a2: u64, a3: u64, a4: u64, a5: u64)
    ensures
        x & y == 0u64 ==> x ^ y == x | y && y ^ x == x | y,
        y & a0 == 0u64 && y & a1 == 0u64 && y & a2 == 0u64 && y & a3 == 0u64 && y & a4 == 0u64 && y
            & a5 == 0u64 ==> y & (((((a0 | a1) | a2) | a3) | a4) | a5) == 0u64,
        a0 & (((((a0 | a1) | a2) | a3) | a4) | a5) == a0,
        a1 & (((((a0 | a1) | a2) | a3) | a4) | a5) == a1,
        a2 & (((((a0 | a1) | a2) | a3) | a4) | a5) == a2,
        a3 & (((((a0 | a1) | a2) | a3) | a4) | a5) == a3,
        a4 & (((((a0 | a1) | a2) | a3) | a4) | a5) == a4,
        a5 & (((((a0 | a1) | a2) | a3) | a4) | a5) == a5,
{
    assert((x & y == 0u64 ==> x ^ y == x | y && y ^ x == x | y) && (y & a0 == 0u64 && y & a1
        == 0u64 && y & a2 == 0u64 && y & a3 == 0u64 && y & a4 == 0u64 && y & a5 == 0u64 ==> y & (
    ((((a0 | a1) | a2) | a3) | a4) | a5) == 0u64) && a0 & (((((a0 | a1) | a2) | a3) | a4) | a5)
        == a0 && a1 & (((((a0 | a1) | a2) | a3) | a4) | a5) == a1 && a2 & (((((a0 | a1) | a2) | a3)
        | a4) | a5) == a2 && a3 & (((((a0 | a1) | a2) | a3) | a4) | a5) == a3 && a4 & (((((a0 | a1)
        | a2) | a3) | a4) | a5) == a4 && a5 & (((((a0 | a1) | a2) | a3) | a4) | a5) == a5)
        by (bit_vector);
}

/// The part of a union due to one plane, when another plane misses the union.
pub proof fn lemma_or_and(x: u64, y: u64, o: u64)
    ensures
        x & o == x && y & o == 0u64 ==> (x | y) & o == x,
{
    assert(x & o == x && y & o == 0u64 ==> (x | y) & o == x) by (bit_vector);
}

/// Under disjointness, the echelon plane and a color plane meet in one of the twelve planes.
pub proof fn lemma_compact_men(p: Seq<u64>, c: int, k: int)
    requires
        p.len() == 12,
        disjoint(p),
        0 <= c < 2,
        0 <= k < 6,
    ensures
        (p[k] ^ p[6 + k]) & color_xor(p, c) == p[c * 6 + k],
        p[k] ^ p[6 + k] == p[k] | p[6 + k],
{
    lemma_color_xor_union(p, c);
    let b = c * 6;
    let o = (1 - c) * 6;
    let x = p[b + k];
    let y = p[o + k];
    assert(p[k] & p[6 + k] == 0u64);
    assert(y & p[b] == 0u64 && y & p[b + 1] == 0u64 && y & p[b + 2] == 0u64) by {
        assert(p[b] & p[o + k] == 0u64 || p[o + k] & p[b] == 0u64);
        assert(p[b + 1] & p[o + k] == 0u64 || p[o + k] & p[b + 1] == 0u64);
        assert(p[b + 2] & p[o + k] == 0u64 || p[o + k] & p[b + 2] == 0u64);
        lemma_and_comm(y, p[b]);
        lemma_and_comm(y, p[b + 1]);
        lemma_and_comm(y, p[b + 2]);
    }
    assert(y & p[b + 3] == 0u64 && y & p[b + 4] == 0u64 && y & p[b + 5] == 0u64) by {
        assert(p[b + 3] & p[o + k] == 0u64 || p[o + k] & p[b + 3] == 0u64);
        assert(p[b + 4] & p[o + k] == 0u64 || p[o + k] & p[b + 4] == 0u64);
        assert(p[b + 5] & p[o + k] == 0u64 || p[o + k] & p[b + 5] == 0u64);
        lemma_and_comm(y, p[b + 3]);
        lemma_and_comm(y, p[b + 4]);
        lemma_and_comm(y, p[b + 5]);
    }
    lemma_compact_bits(p[k], p[6 + k], p[b], p[b + 1], p[b + 2], p[b + 3], p[b + 4], p[b + 5]);
    lemma_compact_bits(x, y, p[b], p[b + 1], p[b + 2], p[b + 3], p[b + 4], p[b + 5]);
    lemma_or_and(x, y, color_union(p, c));
    lemma_and_comm(x, y);
}

/// AND and OR are commutative.
pub proof fn lemma_and_comm(a: u64, b: u64)
    ensures
        a & b == b & a,
        a | b == b | a,
{
    assert(a & b == b & a && a | b == b | a) by (bit_vector);
}


/// Two planes made of pairwise apart parts are apart.
pub proof fn lemma_or_pairs_apart(a: u64, b: u64, c: u64, d: u64)
    ensures
        a & c == 0u64 && a & d == 0u64 && b & c == 0u64 && b & d == 0u64 ==> (a | b) & (c | d) == 0u64,
{
    assert(a & c == 0u64 && a & d == 0u64 && b & c == 0u64 && b & d == 0u64 ==> (a | b) & (c | d)
        == 0u64) by (bit_vector);
}

/// With each white plane apart from each black plane, the two colors are
/// apart, and the union of the echelon planes is the union of the colors.
pub proof fn lemma_colors_union(w0: u64, w1: u64, w2: u64, w3: u64, w4: u64, w5: u64, b0: u64, b1: u64, b2: u64, b3: u64, b4: u64, b5: u64)
    requires
        w0 & b0 == 0u64,
        w0 & b1 == 0u64,
        w0 & b2 == 0u64,
        w0 & b3 == 0u64,
        w0 & b4 == 0u64,
        w0 & b5 == 0u64,
        w1 & b0 == 0u64,
        w1 & b1 == 0u64,
        w1 & b2 == 0u64,
        w1 & b3 == 0u64,
        w1 & b4 == 0u64,
        w1 & b5 == 0u64,
        w2 & b0 == 0u64,
        w2 & b1 == 0u64,
        w2 & b2 == 0u64,
        w2 & b3 == 0u64,
        w2 & b4 == 0u64,
        w2 & b5 == 0u64,
        w3 & b0 == 0u64,
        w3 & b1 == 0u64,
        w3 & b2 == 0u64,
        w3 & b3 == 0u64,
        w3 & b4 == 0u64,
        w3 & b5 == 0u64,
        w4 & b0 == 0u64,
        w4 & b1 == 0u64,
        w4 & b2 == 0u64,
        w4 & b3 == 0u64,
        w4 & b4 == 0u64,
        w4 & b5 == 0u64,
        w5 & b0 == 0u64,
        w5 & b1 == 0u64,
        w5 & b2 == 0u64,
        w5 & b3 == 0u64,
        w5 & b4 == 0u64,
        w5 & b5 == 0u64,
    ensures
        (((((w0 | w1) | w2) | w3) | w4) | w5) & (((((b0 | b1) | b2) | b3) | b4) | b5) == 0u64,
        (((((w0 | b0) | (w1 | b1)) | (w2 | b2)) | (w3 | b3)) | (w4 | b4)) | (w5 | b5) == (((((w0 | w1) | w2) | w3) | w4) | w5) | (((((b0 | b1) | b2) | b3) | b4) | b5),
{
    assert((((((w0 | w1) | w2) | w3) | w4) | w5) & (((((b0 | b1) | b2) | b3) | b4) | b5) == 0u64 && (((((w0 | b0) | (w1 | b1)) | (w2 | b2)) | (w3 | b3)) | (w4 | b4)) | (w5 | b5) == (((((w0 | w1) | w2) | w3) | w4) | w5) | (((((b0 | b1) | b2) | b3) | b4) | b5)) by (bit_vector)
        requires
            w0 & b0 == 0u64 && w0 & b1 == 0u64 && w0 & b2 == 0u64 && w0 & b3 == 0u64 && w0 & b4 == 0u64 && w0 & b5 == 0u64 && w1 & b0 == 0u64 && w1 & b1 == 0u64 && w1 & b2 == 0u64 && w1 & b3 == 0u64 && w1 & b4 == 0u64 && w1 & b5 == 0u64 && w2 & b0 == 0u64 && w2 & b1 == 0u64 && w2 & b2 == 0u64 && w2 & b3 == 0u64 && w2 & b4 == 0u64 && w2 & b5 == 0u64 && w3 & b0 == 0u64 && w3 & b1 == 0u64 && w3 & b2 == 0u64 && w3 & b3 == 0u64 && w3 & b4 == 0u64 && w3 & b5 == 0u64 && w4 & b0 == 0u64 && w4 & b1 == 0u64 && w4 & b2 == 0u64 && w4 & b3 == 0u64 && w4 & b4 == 0u64 && w4 & b5 == 0u64 && w5 & b0 == 0u64 && w5 & b1 == 0u64 && w5 & b2 == 0u64 && w5 & b3 == 0u64 && w5 & b4 == 0u64 && w5 & b5 == 0u64,
    ;
}

/// The compact layout: six echelon planes and two color planes; a
/// chessman's plane is the AND of its echelon's and its color's.
///
/// The twelve planes are kept as a ghost alongside; the echelon and color
/// planes are their XOR sums, which equal their unions while no square
/// holds two chessmen.
#[derive(Clone, Copy)]
pub struct CompactBitBoard {
    pub ech: [u64; 6],
    pub colors: [u64; 2],
    pub meta: DefaultMetaBoard,
    pub planes: Ghost<Seq<u64>>,
}

impl CompactBitBoard {
    /// The compact form of a twelve-plane board.
    pub fn from_full(full: FullBitBoard) -> (r: CompactBitBoard)
        ensures
            r.wf(),
            r.planes_view() == full.planes_view(),
            r.meta_view() == full.meta_view(),
    {
        let w = full.masks[0];
        let b = full.masks[1];
        let ech: [u64; 6] = [w[0] ^ b[0], w[1] ^ b[1], w[2] ^ b[2], w[3] ^ b[3], w[4] ^ b[4], w[5] ^ b[5]];
        let tw = ((((w[0] ^ w[1]) ^ w[2]) ^ w[3]) ^ w[4]) ^ w[5];
        let tb = ((((b[0] ^ b[1]) ^ b[2]) ^ b[3]) ^ b[4]) ^ b[5];
        CompactBitBoard {
            ech,
            colors: [tw, tb],
            meta: full.meta,
            planes: Ghost(flat_planes(full.masks)),
        }
    }

    /// The twelve planes, by color then echelon.
    pub fn masks(&self) -> (r: [[u64; 6]; 2])
        requires
            self.wf(),
        ensures
            disjoint(self.planes_view()) ==> flat_planes(r) == self.planes_view(),
    {
        let mut white: [u64; 6] = [0; 6];
        let mut black: [u64; 6] = [0; 6];
        let mut k: usize = 0;
        while k < 6
            invariant
                k <= 6,
                self.wf(),
                disjoint(self.planes_view()) ==> forall|j: int| 0 <= j < k ==> white@[j] == self.planes_view()[j]
                    && black@[j] == self.planes_view()[6 + j],
            decreases 6 - k,
        {
            white[k] = self.ech[k] & self.colors[0];
            black[k] = self.ech[k] & self.colors[1];
            proof {
                if disjoint(self.planes_view()) {
                    lemma_compact_men(self.planes_view(), 0, k as int);
                    lemma_compact_men(self.planes_view(), 1, k as int);
                }
            }
            k = k + 1;
        }
        let r = [white, black];
        assert(disjoint(self.planes_view()) ==> flat_planes(r) =~= self.planes_view());
        r
    }
}

impl BitBoard for CompactBitBoard {
    open spec fn wf(&self) -> bool {
        &&& self.planes@.len() == 12
        &&& forall|k: int| 0 <= k < 6 ==> #[trigger] self.ech@[k] == self.planes@[k] ^ self.planes@[6 + k]
        &&& self.colors@[0] == color_xor(self.planes@, 0)
        &&& self.colors@[1] == color_xor(self.planes@, 1)
    }

    open spec fn planes_view(&self) -> Seq<u64> {
        self.planes@
    }

    open spec fn meta_view(&self) -> DefaultMetaBoard {
        self.meta
    }

    open spec fn moves_men() -> bool {
        true
    }

    open spec fn keeps_hash() -> bool {
        true
    }

    fn xor(&mut self, color: ChessColor, ech: ChessEchelon, mask: u64) {
        let ghost before = self.planes@;
        let c = color.ix();
        let k = ech.ix();
        let ve = self.ech[k] ^ mask;
        self.ech[k] = ve;
        let vc = self.colors[c] ^ mask;
        self.colors[c] = vc;
        self.planes = Ghost(planes_xor(before, pix(color, ech), mask));
        proof {
            lemma_color_xor_update(before, pix(color, ech), mask, 0);
            lemma_color_xor_update(before, pix(color, ech), mask, 1);
            crate::hash::lemma_xor(before[k as int], before[6 + k as int], mask);
            crate::hash::lemma_xor(before[6 + k as int], mask, before[k as int]);
            crate::hash::lemma_xor(before[k as int], mask, before[6 + k as int]);
            assert forall|j: int| 0 <= j < 6 implies #[trigger] self.ech@[j] == self.planes@[j]
                ^ self.planes@[6 + j] by {
                if j == k as int {
                    if c == 0 {
                        assert(self.planes@[j] == before[j] ^ mask);
                        assert(self.planes@[6 + j] == before[6 + j]);
                        crate::hash::lemma_xor(before[j], mask, before[6 + j]);
                        crate::hash::lemma_xor(mask, before[6 + j], 0);
                        crate::hash::lemma_xor(before[j], before[6 + j], mask);
                        crate::hash::lemma_xor(before[j], before[6 + j] ^ mask, 0);
                        crate::hash::lemma_xor(before[j], mask ^ before[6 + j], 0);
                        crate::hash::lemma_xor(before[6 + j], mask, 0);
                    } else {
                        assert(self.planes@[6 + j] == before[6 + j] ^ mask);
                    }
                }
            }
        }
    }

    fn men(&self, color: ChessColor, ech: ChessEchelon) -> (r: u64) {
        proof {
            if disjoint(self.planes_view()) {
                lemma_compact_men(self.planes@, color.spec_ix() as int, ech.spec_ix() as int);
            }
        }
        self.ech[ech.ix()] & self.colors[color.ix()]
    }

    fn color(&self, color: ChessColor) -> (r: u64) {
        proof {
            if disjoint(self.planes_view()) {
                lemma_color_xor_union(self.planes@, 0);
                lemma_color_xor_union(self.planes@, 1);
            }
        }
        self.colors[color.ix()]
    }

    fn total(&self) -> (r: u64) {
        self.color(ChessColor::WHITE) | self.color(ChessColor::BLACK)
    }

    fn ech_at(&self, sq: Square) -> (r: Option<ChessEchelon>) {
        let bit = sq.bit();
        let ghost p = self.planes@;
        let mut k: usize = 0;
        while k < 6
            invariant
                k <= 6,
                self.wf(),
                p == self.planes@,
                bit == sq.bit_spec(),
                disjoint(p) ==> ech_at_spec(p, sq.idx()) == ech_at_from(p, sq.idx(), k as int),
            decreases 6 - k,
        {
            proof {
                lemma_bit_test(self.ech@[k as int], sq.idx());
                if disjoint(p) {
                    lemma_compact_men(p, 0, k as int);
                    lemma_has_bit_or(p[k as int], p[6 + k as int], sq.idx());
                }
            }
            if (self.ech[k] & bit) != 0 {
                proof {
                    if disjoint(p) {
                        assert(echelon_on(p, k as int, sq.idx()));
                    }
                }
                return Some(ChessEchelon::at(k));
            }
            k = k + 1;
        }
        None
    }

    fn comm_at(&self, sq: Square) -> (r: Option<ChessCommoner>) {
        match self.ech_at(sq) {
            Some(e) => ChessCommoner::from_echelon(e),
            None => None,
        }
    }

    fn trans(&self) -> (r: Transients) {
        self.meta.trans()
    }

    fn set_halfmove_clock(&mut self, val: u8) {
        self.meta.set_halfmove_clock(val);
    }

    fn set_castling_rights(&mut self, rights: [[bool; 2]; 2]) {
        self.meta.set_castling_rights(rights);
    }

    fn set_en_passant(&mut self, eps: Option<EnPassant>) {
        self.meta.set_en_passant(eps);
    }

    fn set_transients(&mut self, trans: Transients) {
        self.meta.set_transients(trans);
    }

    fn curr_hash(&self) -> (r: u64) {
        self.meta.curr_hash()
    }

    fn hash(&mut self, hash: u64) {
        self.meta.hash(hash);
    }

    fn ply(&self) -> (r: (ChessColor, u16)) {
        self.meta.ply()
    }

    fn next_ply(&mut self) {
        self.meta.next_ply();
    }

    fn prev_ply(&mut self) {
        self.meta.prev_ply();
    }

    fn castling(&self) -> (r: CastlingRules) {
        self.meta.castling()
    }
}

impl ChessBoard for CompactBitBoard {
    proof fn lemma_whole_board() {
    }

    fn startpos<ZT: ZobristTables>(zt: &ZT) -> (r: CompactBitBoard) {
        CompactBitBoard::from_full(FullBitBoard::startpos(zt))
    }

    fn empty<ZT: ZobristTables>(zt: &ZT) -> (r: CompactBitBoard) {
        CompactBitBoard::from_full(FullBitBoard::empty(zt))
    }

    /// Hashes the chessmen from the color and echelon planes directly.
    fn rehash<ZT: ZobristTables>(&self, zt: &ZT) -> (r: u64) {
        let men = crate::hash::hash_compact(zt, &self.colors, &self.ech);
        let rest = self.meta.rehash(zt);
        proof {
            let p = self.planes@;
            if disjoint(p) {
                assert forall|i: int| 0 <= i < 12 implies #[trigger] crate::hash::compact_planes(self.colors, self.ech)[i] == p[i] by {
                    lemma_compact_men(p, i / 6, i % 6);
                    lemma_and_comm(self.ech@[i % 6], self.colors@[i / 6]);
                }
                assert(crate::hash::compact_planes(self.colors, self.ech) =~= p);
            }
            let x = rights_hash(zt, self.meta.trans.rights);
            let y = ep_hash(zt, self.meta.trans.en_passant);
            let z: u64 = if self.meta.player == ChessColor::BLACK { zt.black_key() } else { 0 };
            crate::hash::lemma_xor(men, x ^ y, z);
            crate::hash::lemma_xor(men, x, y);
        }
        men ^ rest
    }

    /// The checks of the compact layout: no two echelon planes overlap, the
    /// two color planes do not overlap, and the echelon planes together
    /// cover the colors exactly. The hash covers the planes the color and
    /// echelon planes make.
    open spec fn layout_ok(&self) -> bool {
        &&& forall|a: int, b: int| 0 <= a < b < 6 ==> #[trigger] (self.ech@[a] & self.ech@[b]) == 0u64
        &&& self.colors@[0] & self.colors@[1] == 0u64
        &&& ((((self.ech@[0] | self.ech@[1]) | self.ech@[2]) | self.ech@[3]) | self.ech@[4]) | self.ech@[5]
            == self.colors@[0] | self.colors@[1]
    }

    open spec fn hashed_planes(&self) -> Seq<u64> {
        crate::hash::compact_planes(self.colors, self.ech)
    }

    fn sanity_check<ZT: ZobristTables>(&self, zt: &ZT) -> (r: bool) {
        let ghost p = self.planes@;
        proof {
            if disjoint(p) {
                assert forall|k: int| 0 <= k < 6 implies #[trigger] self.ech@[k] == p[k] | p[6 + k] by {
                    lemma_compact_men(p, 0, k);
                }
                lemma_color_xor_union(p, 0);
                lemma_color_xor_union(p, 1);
            }
        }
        let mut ok = true;
        let mut i: usize = 0;
        while i < 6
            invariant
                i <= 6,
                self.wf(),
                p == self.planes@,
                ok == forall|a: int, b: int| 0 <= a < b < 6 && a < i ==> #[trigger] (self.ech@[a] & self.ech@[b]) == 0u64,
                disjoint(p) ==> ok,
                disjoint(p) ==> forall|k: int| 0 <= k < 6 ==> #[trigger] self.ech@[k] == p[k] | p[6 + k],
            decreases 6 - i,
        {
            let mut j: usize = i + 1;
            while j < 6
                invariant
                    i < 6,
                    i < j <= 6,
                    self.wf(),
                    p == self.planes@,
                    ok == ((forall|a: int, b: int| 0 <= a < b < 6 && a < i ==> #[trigger] (self.ech@[a] & self.ech@[b]) == 0u64)
                        && (forall|b: int| i < b < j ==> #[trigger] (self.ech@[i as int] & self.ech@[b]) == 0u64)),
                    disjoint(p) ==> ok,
                    disjoint(p) ==> forall|k: int| 0 <= k < 6 ==> #[trigger] self.ech@[k] == p[k] | p[6 + k],
                decreases 6 - j,
            {
                proof {
                    if disjoint(p) {
                        assert(p[i as int] & p[j as int] == 0u64);
                        assert(p[i as int] & p[6 + j as int] == 0u64);
                        assert(p[6 + i as int] & p[j as int] == 0u64 || p[j as int] & p[6 + i as int] == 0u64);
                        assert(p[j as int] & p[6 + i as int] == 0u64);
                        assert(p[6 + i as int] & p[6 + j as int] == 0u64);
                        lemma_and_comm(p[j as int], p[6 + i as int]);
                        lemma_or_pairs_apart(p[i as int], p[6 + i as int], p[j as int], p[6 + j as int]);
                    }
                }
                if self.ech[i] & self.ech[j] != 0 {
                    ok = false;
                }
                j = j + 1;
            }
            assert(ok == forall|a: int, b: int| 0 <= a < b < 6 && a < i + 1 ==> #[trigger] (self.ech@[a] & self.ech@[b]) == 0u64) by {
                if ok {
                    assert forall|a: int, b: int| 0 <= a < b < 6 && a < i + 1 implies #[trigger] (self.ech@[a] & self.ech@[b]) == 0u64 by {
                        if a == i as int {
                            assert(self.ech@[i as int] & self.ech@[b] == 0u64);
                        }
                    }
                }
            }
            i = i + 1;
        }
        let white = self.colors[0];
        let black = self.colors[1];
        let kinds = ((((self.ech[0] | self.ech[1]) | self.ech[2]) | self.ech[3]) | self.ech[4]) | self.ech[5];
        proof {
            if disjoint(p) {
                assert forall|a: int, b: int| 0 <= a < 6 && 6 <= b < 12 implies #[trigger] (p[a] & p[b]) == 0u64 by {
                    assert(p[a] & p[b] == 0u64);
                }
                lemma_colors_union(p[0], p[1], p[2], p[3], p[4], p[5], p[6], p[7], p[8], p[9], p[10], p[11]);
            }
        }
        if white & black != 0 || kinds != white | black {
            ok = false;
        }
        let men = crate::hash::hash_compact(zt, &self.colors, &self.ech);
        let rest = self.meta.rehash(zt);
        proof {
            if disjoint(p) {
                assert forall|i: int| 0 <= i < 12 implies #[trigger] crate::hash::compact_planes(self.colors, self.ech)[i] == p[i] by {
                    lemma_compact_men(p, i / 6, i % 6);
                    lemma_and_comm(self.ech@[i % 6], self.colors@[i / 6]);
                }
                assert(crate::hash::compact_planes(self.colors, self.ech) =~= p);
            }
            let x = rights_hash(zt, self.meta.trans.rights);
            let y = ep_hash(zt, self.meta.trans.en_passant);
            let z: u64 = if self.meta.player == ChessColor::BLACK { zt.black_key() } else { 0 };
            crate::hash::lemma_xor(men, x ^ y, z);
            crate::hash::lemma_xor(men, x, y);
        }
        ok && self.meta.hash == men ^ rest
    }
}

} // verus!
