//! Bit kernels on 64-bit planes: line masks, sliding attacks by
//! obstruction difference, pawn fills and step fills.
//!
//! The multi-lane kernels compute their lanes one after the other; the
//! result is the same as with vector registers.
use vstd::prelude::*;
use vstd::std_specs::bits::u64_leading_zeros;
use crate::model::Square;

verus! {

/// Whether bit `j` of `m` is set.
pub open spec fn has_bit(m: u64, j: int) -> bool {
    0 <= j < 64 && (m >> (j as u64)) & 1u64 == 1u64
}

/// Every square but those of the h-file.
pub const NOT_H_FILE: u64 = 0x7F7F_7F7F_7F7F_7F7F;

/// Every square but those of the a-file.
pub const NOT_A_FILE: u64 = 0xFEFE_FEFE_FEFE_FEFE;

/// Every square but those of the g- and h-files.
pub const NOT_GH_FILES: u64 = 0x3F3F_3F3F_3F3F_3F3F;

/// Every square but those of the a- and b-files.
pub const NOT_AB_FILES: u64 = 0xFCFC_FCFC_FCFC_FCFC;

/// The second rank.
pub const RANK_2: u64 = 0x0000_0000_0000_FF00;

/// The seventh rank.
pub const RANK_7: u64 = 0x00FF_0000_0000_0000;

/// The a1-h8 diagonal.
pub const MAIN_DIAGONAL: u64 = 0x8040_2010_0804_0201;

/// The h1-a8 antidiagonal.
pub const MAIN_ANTIDIAGONAL: u64 = 0x0102_0408_1020_4080;

/// The rank through square `s`: `0xFF` moved up by whole ranks.
pub open spec fn rank_line(s: int) -> u64 {
    0xFFu64 << ((8 * (s / 8)) as u64)
}

/// The file through square `s`: the a-file moved across by whole files.
pub open spec fn file_line(s: int) -> u64 {
    0x0101_0101_0101_0101u64 << ((s % 8) as u64)
}

/// The rank of a square as a plane: the eight bits of its rank.
pub fn rank_mask(sq: Square) -> (r: u64)
    ensures
        r == rank_line(sq.idx()),
        forall|j: int| 0 <= j < 64 ==> (has_bit(r, j) <==> j / 8 == sq.idx() / 8),
{
    let s: u64 = sq.ix() as u64;
    let r: u64 = 0xFFu64 << (8 * (s / 8));
    assert forall|j: int| 0 <= j < 64 implies (has_bit(r, j) <==> j / 8 == sq.idx() / 8) by {
        let ju: u64 = j as u64;
        assert(s < 64 && ju < 64 ==> ((((0xFFu64 << (8 * (s / 8))) >> ju) & 1u64 == 1u64) <==> ju
            / 8 == s / 8)) by (bit_vector);
    }
    r
}

/// The file of a square as a plane: the eight bits of its file.
pub fn file_mask(sq: Square) -> (r: u64)
    ensures
        r == file_line(sq.idx()),
        forall|j: int| 0 <= j < 64 ==> (has_bit(r, j) <==> j % 8 == sq.idx() % 8),
{
    let s: u64 = sq.ix() as u64;
    let r: u64 = 0x0101_0101_0101_0101u64 << (s % 8);
    assert forall|j: int| 0 <= j < 64 implies (has_bit(r, j) <==> j % 8 == sq.idx() % 8) by {
        let ju: u64 = j as u64;
        assert(s < 64 && ju < 64 ==> ((((0x0101_0101_0101_0101u64 << (s % 8)) >> ju) & 1u64
            == 1u64) <==> ju % 8 == s % 8)) by (bit_vector);
    }
    r
}

/// The diagonal (south-west to north-east) through a square.
pub open spec fn diagonal_spec(s: int) -> u64 {
    if s / 8 >= s % 8 {
        MAIN_DIAGONAL << ((8 * (s / 8 - s % 8)) as u64)
    } else {
        MAIN_DIAGONAL >> ((8 * (s % 8 - s / 8)) as u64)
    }
}

/// The antidiagonal (south-east to north-west) through a square.
pub open spec fn antidiagonal_spec(s: int) -> u64 {
    if s / 8 + s % 8 >= 7 {
        MAIN_ANTIDIAGONAL << ((8 * (s / 8 + s % 8 - 7)) as u64)
    } else {
        MAIN_ANTIDIAGONAL >> ((8 * (7 - s / 8 - s % 8)) as u64)
    }
}

/// The diagonal through a square: the main diagonal moved by whole ranks.
pub fn diag_mask(sq: Square) -> (r: u64)
    ensures
        r == diagonal_spec(sq.idx()),
{
    let s = sq.ix();
    let rank = s / 8;
    let file = s % 8;
    if rank >= file {
        MAIN_DIAGONAL << ((8 * (rank - file)) as u64)
    } else {
        MAIN_DIAGONAL >> ((8 * (file - rank)) as u64)
    }
}

/// The antidiagonal through a square: the main antidiagonal moved by whole ranks.
pub fn antidiag_mask(sq: Square) -> (r: u64)
    ensures
        r == antidiagonal_spec(sq.idx()),
{
    let s = sq.ix();
    let rank = s / 8;
    let file = s % 8;
    if rank + file >= 7 {
        MAIN_ANTIDIAGONAL << ((8 * (rank + file - 7)) as u64)
    } else {
        MAIN_ANTIDIAGONAL >> ((8 * (7 - rank - file)) as u64)
    }
}

/// The bits strictly below square `s`.
pub open spec fn below_spec(s: int) -> u64 {
    (!0u64 >> 1u64) >> ((63 - s) as u64)
}

/// The bits strictly above square `s`.
pub open spec fn above_spec(s: int) -> u64 {
    !1u64 << (s as u64)
}

/// Split a plane into its bits below the square and its bits above it.
pub fn split(sq: Square, mask: u64) -> (r: (u64, u64))
    ensures
        r.0 == mask & below_spec(sq.idx()),
        r.1 == mask & above_spec(sq.idx()),
{
    let s = sq.ix() as u64;
    (mask & ((!0u64 >> 1u64) >> (63 - s)), mask & (!1u64 << s))
}

/// The obstruction-difference result for one ray: `neg_total` and
/// `pos_total` are the occupied squares below and above the slider.
pub open spec fn diff_obs_spec(ray: u64, neg_total: u64, pos_total: u64) -> u64 {
    let neg_hit = ray & neg_total;
    let pos_hit = ray & pos_total;
    let ms1b = 0x8000_0000_0000_0000u64 >> (u64_leading_zeros(neg_hit | 1u64) as u64);
    ray & (pos_hit ^ pos_hit.wrapping_sub(ms1b))
}

/// The obstruction-difference kernel on one ray.
///
/// The most significant blocker below the slider is isolated (the sign
/// bit stands in when there is none), and the borrow of a subtraction
/// fills the ray from the least significant blocker above the slider
/// down to it.
pub fn diff_obs(ray: u64, neg_total: u64, pos_total: u64) -> (r: u64)
    ensures
        r == diff_obs_spec(ray, neg_total, pos_total),
{
    let neg_hit = ray & neg_total;
    let pos_hit = ray & pos_total;
    let lz = (neg_hit | 1u64).leading_zeros();
    proof {
        vstd::std_specs::bits::axiom_u64_leading_zeros(neg_hit | 1u64);
        assert((neg_hit | 1u64) != 0u64) by (bit_vector);
    }
    let ms1b = 0x8000_0000_0000_0000u64 >> (lz as u64);
    let diff = pos_hit ^ pos_hit.wrapping_sub(ms1b);
    ray & diff
}

/// The obstruction-difference kernel on one line given as its two halves.
pub fn obs_diff(neg_ray: u64, pos_ray: u64, total: u64) -> (r: u64)
    ensures
        r == diff_obs_spec(neg_ray | pos_ray, neg_ray & total, pos_ray & total),
{
    let ray = neg_ray | pos_ray;
    let r = diff_obs(ray, neg_ray & total, pos_ray & total);
    assert(ray & (neg_ray & total) == neg_ray & total && ray & (pos_ray & total) == pos_ray
        & total) by (bit_vector)
        requires
            ray == neg_ray | pos_ray,
    ;
    r
}

/// The union of the obstruction-difference results over several rays.
pub open spec fn diff_obs_union(rays: Seq<u64>, neg_total: u64, pos_total: u64) -> u64
    decreases rays.len(),
{
    if rays.len() == 0 {
        0
    } else {
        diff_obs_union(rays.drop_last(), neg_total, pos_total) | diff_obs_spec(
            rays.last(),
            neg_total,
            pos_total,
        )
    }
}

/// The kernel on two rays at once.
pub fn diff_obs_simdx2(rays: [u64; 2], neg_total: u64, pos_total: u64) -> (r: u64)
    ensures
        r == diff_obs_union(rays@, neg_total, pos_total),
{
    let a = diff_obs(rays[0], neg_total, pos_total);
    let b = diff_obs(rays[1], neg_total, pos_total);
    proof {
        reveal_with_fuel(diff_obs_union, 3);
        assert(rays@.drop_last().drop_last().len() == 0);
        assert(rays@.drop_last().last() == rays@[0]);
    }
    (0u64 | a) | b
}

/// The kernel on four rays at once.
pub fn diff_obs_simdx4(rays: [u64; 4], neg_total: u64, pos_total: u64) -> (r: u64)
    ensures
        r == diff_obs_union(rays@, neg_total, pos_total),
{
    let a = diff_obs(rays[0], neg_total, pos_total);
    let b = diff_obs(rays[1], neg_total, pos_total);
    let c = diff_obs(rays[2], neg_total, pos_total);
    let d = diff_obs(rays[3], neg_total, pos_total);
    let ghost s = rays@;
    proof {
        reveal_with_fuel(diff_obs_union, 5);
    }
    assert(s.drop_last().drop_last().drop_last().drop_last().len() == 0);
    assert(s.drop_last().drop_last().drop_last().last() == s[0]);
    assert(s.drop_last().drop_last().last() == s[1]);
    assert(s.drop_last().last() == s[2]);
    (((0u64 | a) | b) | c) | d
}

/// The rays of a rook on square `s`: its rank and its file.
pub open spec fn rook_rays(s: int) -> Seq<u64> {
    seq![rank_line(s), file_line(s)]
}

/// The rays of a bishop on square `s`: its diagonal and antidiagonal.
pub open spec fn bishop_rays(s: int) -> Seq<u64> {
    seq![diagonal_spec(s), antidiagonal_spec(s)]
}

/// The rays of a queen on square `s`: rank, file, diagonal and antidiagonal.
pub open spec fn queen_rays(s: int) -> Seq<u64> {
    seq![rank_line(s), file_line(s), diagonal_spec(s), antidiagonal_spec(s)]
}

/// The squares a slider on `sq` with these rays attacks, given the total
/// occupancy: the obstruction difference of each ray, without `sq`.
pub open spec fn slider_attacks(rays: Seq<u64>, sq: Square, total: u64) -> u64 {
    diff_obs_union(rays, total & below_spec(sq.idx()), total & above_spec(sq.idx()))
        & !sq.bit_spec()
}

/// Rook attacks from a square given the total occupancy.
pub fn rook_diff_obs_simdx2(sq: Square, total: u64) -> (r: u64)
    ensures
        r == slider_attacks(rook_rays(sq.idx()), sq, total),
{
    let (neg_total, pos_total) = split(sq, total);
    let rays = [rank_mask(sq), file_mask(sq)];
    assert(rays@ =~= rook_rays(sq.idx()));
    diff_obs_simdx2(rays, neg_total, pos_total) & !sq.bit()
}

/// Bishop attacks from a square given the total occupancy.
pub fn bishop_diff_obs_simdx2(sq: Square, total: u64) -> (r: u64)
    ensures
        r == slider_attacks(bishop_rays(sq.idx()), sq, total),
{
    let (neg_total, pos_total) = split(sq, total);
    let rays = [diag_mask(sq), antidiag_mask(sq)];
    assert(rays@ =~= bishop_rays(sq.idx()));
    diff_obs_simdx2(rays, neg_total, pos_total) & !sq.bit()
}

/// Queen attacks from a square given the total occupancy.
pub fn queen_diff_obs_simdx4(sq: Square, total: u64) -> (r: u64)
    ensures
        r == slider_attacks(queen_rays(sq.idx()), sq, total),
{
    let (neg_total, pos_total) = split(sq, total);
    let rays = [rank_mask(sq), file_mask(sq), diag_mask(sq), antidiag_mask(sq)];
    assert(rays@ =~= queen_rays(sq.idx()));
    diff_obs_simdx4(rays, neg_total, pos_total) & !sq.bit()
}

/// The capture squares of white pawns on `m`.
pub open spec fn white_pawn_attacks(m: u64) -> u64 {
    (m << 7u64) & NOT_H_FILE | (m << 9u64) & NOT_A_FILE
}

/// The capture squares of black pawns on `m`.
pub open spec fn black_pawn_attacks(m: u64) -> u64 {
    (m >> 7u64) & NOT_A_FILE | (m >> 9u64) & NOT_H_FILE
}

/// The push targets of white pawns on `m`, single and double, onto `empty`.
pub open spec fn white_pawn_advances(m: u64, empty: u64) -> u64 {
    (m << 8u64) & empty | ((((m & RANK_2) << 8u64) & empty) << 8u64) & empty
}

/// The push targets of black pawns on `m`, single and double, onto `empty`.
pub open spec fn black_pawn_advances(m: u64, empty: u64) -> u64 {
    (m >> 8u64) & empty | ((((m & RANK_7) >> 8u64) & empty) >> 8u64) & empty
}

/// The squares attacked by all white pawns of a plane.
pub fn white_pawn_attack_fill(mask: u64) -> (r: u64)
    ensures
        r == white_pawn_attacks(mask),
{
    (mask << 7u64) & NOT_H_FILE | (mask << 9u64) & NOT_A_FILE
}

/// The squares attacked by all white pawns, one lane per capture direction.
pub fn white_pawn_attack_fill_simdx2(mask: u64) -> (r: u64)
    ensures
        r == white_pawn_attacks(mask),
{
    let shifts: [u64; 2] = [7, 9];
    let wraps: [u64; 2] = [NOT_H_FILE, NOT_A_FILE];
    ((mask << shifts[0]) & wraps[0]) | ((mask << shifts[1]) & wraps[1])
}

/// The single and double push targets of all white pawns of a plane.
pub fn white_pawn_advance_fill(mask: u64, empty: u64) -> (r: u64)
    ensures
        r == white_pawn_advances(mask, empty),
{
    (mask << 8u64) & empty | ((((mask & RANK_2) << 8u64) & empty) << 8u64) & empty
}

/// The squares attacked by all black pawns of a plane.
pub fn black_pawn_attack_fill(mask: u64) -> (r: u64)
    ensures
        r == black_pawn_attacks(mask),
{
    (mask >> 7u64) & NOT_A_FILE | (mask >> 9u64) & NOT_H_FILE
}

/// The squares attacked by all black pawns, one lane per capture direction.
pub fn black_pawn_attack_fill_simdx2(mask: u64) -> (r: u64)
    ensures
        r == black_pawn_attacks(mask),
{
    let shifts: [u64; 2] = [7, 9];
    let wraps: [u64; 2] = [NOT_A_FILE, NOT_H_FILE];
    ((mask >> shifts[0]) & wraps[0]) | ((mask >> shifts[1]) & wraps[1])
}

/// The single and double push targets of all black pawns of a plane.
pub fn black_pawn_advance_fill(mask: u64, empty: u64) -> (r: u64)
    ensures
        r == black_pawn_advances(mask, empty),
{
    (mask >> 8u64) & empty | ((((mask & RANK_7) >> 8u64) & empty) >> 8u64) & empty
}

/// The squares a king on any square of `m` attacks: one step in each of
/// the eight directions, without wrapping across the board's edge.
pub open spec fn king_attacks(m: u64) -> u64 {
    (m << 7u64) & NOT_H_FILE | (m << 8u64) | (m << 9u64) & NOT_A_FILE | (m << 1u64) & NOT_A_FILE
        | (m >> 7u64) & NOT_A_FILE | (m >> 8u64) | (m >> 9u64) & NOT_H_FILE | (m >> 1u64)
        & NOT_H_FILE
}

/// The squares a knight on any square of `m` attacks: the eight jumps,
/// without wrapping across the board's edge.
pub open spec fn knight_attacks(m: u64) -> u64 {
    (m << 6u64) & NOT_GH_FILES | (m << 15u64) & NOT_H_FILE | (m << 17u64) & NOT_A_FILE | (m
        << 10u64) & NOT_AB_FILES | (m >> 6u64) & NOT_AB_FILES | (m >> 15u64) & NOT_A_FILE | (m
        >> 17u64) & NOT_H_FILE | (m >> 10u64) & NOT_GH_FILES
}

/// King attacks of a whole plane: four shifts each way, masked against wrapping.
pub fn king_dumbfill_simdx4(mask: u64) -> (r: u64)
    ensures
        r == king_attacks(mask),
{
    (mask << 7u64) & NOT_H_FILE | (mask << 8u64) | (mask << 9u64) & NOT_A_FILE | (mask << 1u64)
        & NOT_A_FILE | (mask >> 7u64) & NOT_A_FILE | (mask >> 8u64) | (mask >> 9u64) & NOT_H_FILE
        | (mask >> 1u64) & NOT_H_FILE
}

/// Knight attacks of a whole plane: four shifts each way, masked against wrapping.
pub fn knight_dumbfill_simdx4(mask: u64) -> (r: u64)
    ensures
        r == knight_attacks(mask),
{
    (mask << 6u64) & NOT_GH_FILES | (mask << 15u64) & NOT_H_FILE | (mask << 17u64) & NOT_A_FILE
        | (mask << 10u64) & NOT_AB_FILES | (mask >> 6u64) & NOT_AB_FILES | (mask >> 15u64)
        & NOT_A_FILE | (mask >> 17u64) & NOT_H_FILE | (mask >> 10u64) & NOT_GH_FILES
}

/// One step of a fill: the generator moved by `sh` squares, kept on `e`.
pub open spec fn fill_step(g: u64, e: u64, sh: u64, left: bool) -> u64 {
    (if left {
        g << sh
    } else {
        g >> sh
    }) & e
}

/// The generator after `i` steps of a fill.
pub open spec fn fill_gen(gen: u64, e: u64, sh: u64, left: bool, i: nat) -> u64
    decreases i,
{
    if i == 0 {
        gen
    } else {
        fill_step(fill_gen(gen, e, sh, left, (i - 1) as nat), e, sh, left)
    }
}

/// The union of the generators of the first `n` steps of a fill.
pub open spec fn fill_flood(gen: u64, e: u64, sh: u64, left: bool, n: nat) -> u64
    decreases n,
{
    if n == 0 {
        gen
    } else {
        fill_flood(gen, e, sh, left, (n - 1) as nat) | fill_gen(gen, e, sh, left, n)
    }
}

/// The squares sliders on `gen` attack in one direction: the flood over
/// the empty squares, moved one more step onto the board.
pub open spec fn dumb7(gen: u64, empty: u64, sh: u64, left: bool, wrap: u64) -> u64 {
    fill_step(fill_flood(gen, empty & wrap, sh, left, 6), wrap, sh, left)
}

/// Slide in one direction over the empty squares, seven steps at most.
pub fn dumb7_direction(gen: u64, empty: u64, sh: u64, left: bool, wrap: u64) -> (r: u64)
    requires
        sh < 64,
    ensures
        r == dumb7(gen, empty, sh, left, wrap),
{
    let e = empty & wrap;
    let mut g = gen;
    let mut flood = gen;
    let mut i: u64 = 0;
    while i < 6
        invariant
            i <= 6,
            sh < 64,
            e == empty & wrap,
            g == fill_gen(gen, e, sh, left, i as nat),
            flood == fill_flood(gen, e, sh, left, i as nat),
        decreases 6 - i,
    {
        g = (if left { g << sh } else { g >> sh }) & e;
        flood = flood | g;
        i = i + 1;
    }
    (if left { flood << sh } else { flood >> sh }) & wrap
}

/// Rook attacks of a whole plane by seven-step fills along ranks and files.
pub open spec fn rook_fill(rooks: u64, empty: u64) -> u64 {
    ((dumb7(rooks, empty, 1, true, NOT_A_FILE) | dumb7(rooks, empty, 8, true, !0u64)) | dumb7(
        rooks,
        empty,
        1,
        false,
        NOT_H_FILE,
    )) | dumb7(rooks, empty, 8, false, !0u64)
}

/// Bishop attacks of a whole plane by seven-step fills along diagonals.
pub open spec fn bishop_fill(bishops: u64, empty: u64) -> u64 {
    ((dumb7(bishops, empty, 7, true, NOT_H_FILE) | dumb7(bishops, empty, 9, true, NOT_A_FILE)) | dumb7(
        bishops,
        empty,
        7,
        false,
        NOT_A_FILE,
    )) | dumb7(bishops, empty, 9, false, NOT_H_FILE)
}

/// The squares the rooks of a plane attack, given the empty squares.
pub fn rook_dumb7fill_simdx2(rooks: u64, empty: u64) -> (r: u64)
    ensures
        r == rook_fill(rooks, empty),
{
    ((dumb7_direction(rooks, empty, 1, true, NOT_A_FILE) | dumb7_direction(rooks, empty, 8, true, !0u64))
        | dumb7_direction(rooks, empty, 1, false, NOT_H_FILE)) | dumb7_direction(rooks, empty, 8, false, !0u64)
}

/// The squares the bishops of a plane attack, given the empty squares.
pub fn bishop_dumb7fill_simdx2(bishops: u64, empty: u64) -> (r: u64)
    ensures
        r == bishop_fill(bishops, empty),
{
    ((dumb7_direction(bishops, empty, 7, true, NOT_H_FILE) | dumb7_direction(bishops, empty, 9, true, NOT_A_FILE))
        | dumb7_direction(bishops, empty, 7, false, NOT_A_FILE)) | dumb7_direction(bishops, empty, 9, false, NOT_H_FILE)
}

/// The squares queens, rooks and bishops attack, given the empty squares.
pub fn queen_dumb7fill_simdx2(queens: u64, rooks: u64, bishops: u64, empty: u64) -> (r: u64)
    ensures
        r == rook_fill(rooks | queens, empty) | bishop_fill(bishops | queens, empty),
{
    rook_dumb7fill_simdx2(rooks | queens, empty) | bishop_dumb7fill_simdx2(bishops | queens, empty)
}

/// The union of the planes of an array.
pub open spec fn or_upto(data: Seq<u64>, n: nat) -> u64
    decreases n,
{
    if n == 0 {
        0
    } else {
        or_upto(data, (n - 1) as nat) | data[n - 1]
    }
}

/// The union of the planes of an array.
pub fn bitor_sum<const N: usize>(data: &[u64; N]) -> (r: u64)
    ensures
        r == or_upto(data@, N as nat),
{
    let mut res: u64 = 0;
    let mut i: usize = 0;
    while i < N
        invariant
            i <= N,
            data@.len() == N,
            res == or_upto(data@, i as nat),
        decreases N - i,
    {
        res = res | data[i];
        i = i + 1;
    }
    res
}

/// Two squares are a knight's jump apart.
pub open spec fn knight_step(s: int, t: int) -> bool {
    let dr = t / 8 - s / 8;
    let df = t % 8 - s % 8;
    ((dr == 1 || dr == -1) && (df == 2 || df == -2)) || ((dr == 2 || dr == -2) && (df == 1 || df == -1))
}

/// Two distinct squares are a king's step apart.
pub open spec fn king_step(s: int, t: int) -> bool {
    let dr = t / 8 - s / 8;
    let df = t % 8 - s % 8;
    s != t && -1 <= dr <= 1 && -1 <= df <= 1
}

/// The knight fill of one square attacks exactly the squares a knight's
/// jump away.
pub proof fn lemma_knight_attacks_geometry(s: int, t: int)
    requires
        0 <= s < 64,
        0 <= t < 64,
    ensures
        has_bit(knight_attacks(1u64 << (s as u64)), t) == knight_step(s, t),
{
    let su = s as u64;
    let tu = t as u64;
    assert(su < 64 && tu < 64 ==> ((((knight_attacks(1u64 << su)) >> tu) & 1u64 == 1u64) == (((tu / 8 == su / 8 + 1
        || su / 8 == tu / 8 + 1) && (tu % 8 == su % 8 + 2 || su % 8 == tu % 8 + 2)) || ((tu / 8 == su / 8 + 2 || su / 8
        == tu / 8 + 2) && (tu % 8 == su % 8 + 1 || su % 8 == tu % 8 + 1))))) by (bit_vector);
}

/// The king fill of one square attacks exactly the squares a king's step away.
pub proof fn lemma_king_attacks_geometry(s: int, t: int)
    requires
        0 <= s < 64,
        0 <= t < 64,
    ensures
        has_bit(king_attacks(1u64 << (s as u64)), t) == king_step(s, t),
{
    let su = s as u64;
    let tu = t as u64;
    assert(su < 64 && tu < 64 ==> ((((king_attacks(1u64 << su)) >> tu) & 1u64 == 1u64) == (su != tu && (tu / 8 == su / 8
        || tu / 8 == su / 8 + 1 || su / 8 == tu / 8 + 1) && (tu % 8 == su % 8 || tu % 8 == su % 8 + 1 || su % 8 == tu % 8
        + 1)))) by (bit_vector);
}

/// A white pawn on `s` captures on `t`: one rank up, one file aside.
pub open spec fn white_pawn_step(s: int, t: int) -> bool {
    t / 8 == s / 8 + 1 && (t % 8 == s % 8 + 1 || s % 8 == t % 8 + 1)
}

/// A black pawn on `s` captures on `t`: one rank down, one file aside.
pub open spec fn black_pawn_step(s: int, t: int) -> bool {
    s / 8 == t / 8 + 1 && (t % 8 == s % 8 + 1 || s % 8 == t % 8 + 1)
}

/// The white pawn fill of one square holds exactly its two capture squares.
pub proof fn lemma_white_pawn_attacks_geometry(s: int, t: int)
    requires
        0 <= s < 64,
        0 <= t < 64,
    ensures
        has_bit(white_pawn_attacks(1u64 << (s as u64)), t) == white_pawn_step(s, t),
{
    let su = s as u64;
    let tu = t as u64;
    assert(su < 64 && tu < 64 ==> ((((white_pawn_attacks(1u64 << su)) >> tu) & 1u64 == 1u64) == (tu / 8 == su / 8 + 1
        && (tu % 8 == su % 8 + 1 || su % 8 == tu % 8 + 1)))) by (bit_vector);
}

/// The black pawn fill of one square holds exactly its two capture squares.
pub proof fn lemma_black_pawn_attacks_geometry(s: int, t: int)
    requires
        0 <= s < 64,
        0 <= t < 64,
    ensures
        has_bit(black_pawn_attacks(1u64 << (s as u64)), t) == black_pawn_step(s, t),
{
    let su = s as u64;
    let tu = t as u64;
    assert(su < 64 && tu < 64 ==> ((((black_pawn_attacks(1u64 << su)) >> tu) & 1u64 == 1u64) == (su / 8 == tu / 8 + 1
        && (tu % 8 == su % 8 + 1 || su % 8 == tu % 8 + 1)))) by (bit_vector);
}

} // verus!
