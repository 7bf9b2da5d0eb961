//! Zobrist hashing of chess positions.
//!
//! A position's hash is the XOR of one random key per feature present:
//! each chessman on its square, each castling right held, the file of
//! the en-passant pawn, and black to move. Since XOR is an involution,
//! every change of the position changes the hash by the XOR of the keys
//! of the features that appeared or disappeared.
//!
//! The keys come from a small deterministic generator seeded with the
//! first 32 characters of pi, so that equal positions hash equally in
//! every run.
use vstd::prelude::*;
use rand::rngs::SmallRng;
use rand::{RngCore, SeedableRng};
use crate::binary::has_bit;
use crate::model::{ChessColor, ChessEchelon, EnPassant, Square};

verus! {

/// rand's `SmallRng`, the generator of the keys, carried as an opaque value.
#[verifier::external_type_specification]
#[verifier::external_body]
pub struct ExSmallRng(SmallRng);

/// Output number `n` (counting from 0) of rand's `SmallRng` seeded with
/// the 32 bytes `seed`.
pub uninterp spec fn small_rng_output(seed: Seq<u8>, n: nat) -> u64;

/// The seed of the keys: the bytes `3.141592653589793238462643383279`.
pub open spec fn pi_seed() -> Seq<u8> {
    seq![0x33u8, 0x2eu8, 0x31u8, 0x34u8, 0x31u8, 0x35u8, 0x39u8, 0x32u8, 0x36u8, 0x35u8, 0x33u8, 0x35u8, 0x38u8, 0x39u8, 0x37u8, 0x39u8, 0x33u8, 0x32u8, 0x33u8, 0x38u8, 0x34u8, 0x36u8, 0x32u8, 0x36u8, 0x34u8, 0x33u8, 0x33u8, 0x38u8, 0x33u8, 0x32u8, 0x37u8, 0x39u8]
}

/// A `SmallRng` together with its seed and the number of outputs drawn
/// from it so far.
pub struct PiRng {
    rng: SmallRng,
    seed: [u8; 32],
    drawn: u64,
}

impl PiRng {
    /// The seed the generator was built from.
    pub closed spec fn seed_view(&self) -> Seq<u8> {
        self.seed@
    }

    /// The number of outputs drawn so far.
    pub closed spec fn drawn_view(&self) -> nat {
        self.drawn as nat
    }

    /// A generator built from a seed, with nothing drawn yet.
    pub fn from_seed(seed: [u8; 32]) -> (r: PiRng)
        ensures
            r.seed_view() == seed@,
            r.drawn_view() == 0,
    {
        PiRng { rng: rng_from_seed(seed), seed, drawn: 0 }
    }

    /// The next output.
    pub fn next(&mut self) -> (r: u64)
        requires
            old(self).drawn_view() < 0xFFFF_FFFF_FFFF_FFFF,
        ensures
            r == small_rng_output(old(self).seed_view(), old(self).drawn_view()),
            final(self).seed_view() == old(self).seed_view(),
            final(self).drawn_view() == old(self).drawn_view() + 1,
    {
        let r = rng_next_u64(self);
        self.drawn = self.drawn + 1;
        r
    }
}

/// Relies on `SeedableRng::from_seed` of rand's `SmallRng`: builds the
/// generator's state from 32 seed bytes.
#[verifier::external_body]
fn rng_from_seed(seed: [u8; 32]) -> (r: SmallRng) {
    SmallRng::from_seed(seed)
}

/// Relies on `RngCore::next_u64` of rand's `SmallRng`: a generator built
/// from `seed` that has given `drawn` outputs gives output number `drawn`.
/// Only this module builds and advances a `PiRng`, and it counts every
/// output in `drawn`.
#[verifier::external_body]
fn rng_next_u64(rng: &mut PiRng) -> (r: u64)
    ensures
        r == small_rng_output(old(rng).seed@, old(rng).drawn as nat),
        final(rng).seed == old(rng).seed,
        final(rng).drawn == old(rng).drawn,
{
    rng.rng.next_u64()
}

/// The generator of every key of this module: seeded with the bytes
/// `3.141592653589793238462643383279`, with its first 1000 outputs
/// discarded.
pub fn pi_rng() -> (r: PiRng)
    ensures
        r.seed_view() == pi_seed(),
        r.drawn_view() == 1000,
{
    let seed: [u8; 32] = [
        0x33, 0x2e, 0x31, 0x34, 0x31, 0x35, 0x39, 0x32, 0x36, 0x35, 0x33, 0x35, 0x38, 0x39, 0x37,
        0x39, 0x33, 0x32, 0x33, 0x38, 0x34, 0x36, 0x32, 0x36, 0x34, 0x33, 0x33, 0x38, 0x33, 0x32,
        0x37, 0x39,
    ];
    assert(seed@ =~= pi_seed());
    let mut res = PiRng::from_seed(seed);
    let mut i: u32 = 0;
    while i < 1000
        invariant
            i <= 1000,
            res.seed_view() == pi_seed(),
            res.drawn_view() == i,
        decreases 1000 - i,
    {
        res.next();
        i = i + 1;
    }
    res
}

/// Draw `n` keys into a new vector: the next `n` outputs in order.
fn draw_keys(rng: &mut PiRng, n: usize) -> (r: Vec<u64>)
    requires
        old(rng).drawn_view() + n < 0xFFFF_FFFF_FFFF_FFFF,
    ensures
        r.len() == n,
        forall|i: int| 0 <= i < n ==> r@[i] == small_rng_output(old(rng).seed_view(), old(rng).drawn_view() + i as nat),
        final(rng).seed_view() == old(rng).seed_view(),
        final(rng).drawn_view() == old(rng).drawn_view() + n,
{
    let mut v: Vec<u64> = Vec::new();
    let mut i: usize = 0;
    while i < n
        invariant
            i <= n,
            v.len() == i,
            old(rng).drawn_view() + n < 0xFFFF_FFFF_FFFF_FFFF,
            rng.seed_view() == old(rng).seed_view(),
            rng.drawn_view() == old(rng).drawn_view() + i,
            forall|j: int| 0 <= j < i ==> v@[j] == small_rng_output(old(rng).seed_view(), old(rng).drawn_view() + j as nat),
        decreases n - i,
    {
        v.push(rng.next());
        i = i + 1;
    }
    v
}

/// XOR facts used throughout the hashing proofs.
pub proof fn lemma_xor(a: u64, b: u64, c: u64)
    ensures
        a ^ 0u64 == a,
        0u64 ^ a == a,
        a ^ a == 0u64,
        a ^ b == b ^ a,
        (a ^ b) ^ c == a ^ (b ^ c),
        (a ^ b) ^ b == a,
{
    assert(a ^ 0u64 == a && 0u64 ^ a == a && a ^ a == 0u64 && a ^ b == b ^ a && (a ^ b) ^ c == a
        ^ (b ^ c) && (a ^ b) ^ b == a) by (bit_vector);
}

/// XOR identities of the hash steps: a key XORed in and out cancels.
pub proof fn lemma_xor_steps(h: u64, a: u64, b: u64, c: u64)
    ensures
        (((h ^ 0u64) ^ a) ^ a) ^ (b ^ b) == h,
        h ^ c == (((h ^ c) ^ a) ^ a) ^ (b ^ b),
        h ^ (a ^ c) == (((h ^ 0u64) ^ a) ^ c) ^ (b ^ b),
        h ^ c == (((h ^ 0u64) ^ a) ^ a) ^ c,
{
    assert((((h ^ 0u64) ^ a) ^ a) ^ (b ^ b) == h && h ^ c == (((h ^ c) ^ a) ^ a) ^ (b ^ b) && h ^ (a
        ^ c) == (((h ^ 0u64) ^ a) ^ c) ^ (b ^ b) && h ^ c == (((h ^ 0u64) ^ a) ^ a) ^ c) by (bit_vector);
}

/// Regrouping the terms of a whole move's hash change.
pub proof fn lemma_xor_move(h: u64, p: u64, r0: u64, r1: u64, e: u64, b: u64)
    ensures
        ((((h ^ p) ^ r0) ^ r1) ^ e) ^ b == h ^ ((((p ^ r0) ^ r1) ^ e) ^ b),
        ((((h ^ b) ^ p) ^ r0) ^ r1) ^ e == h ^ ((((p ^ r0) ^ r1) ^ e) ^ b),
{
    assert(((((h ^ p) ^ r0) ^ r1) ^ e) ^ b == h ^ ((((p ^ r0) ^ r1) ^ e) ^ b) && ((((h ^ b) ^ p) ^ r0)
        ^ r1) ^ e == h ^ ((((p ^ r0) ^ r1) ^ e) ^ b)) by (bit_vector);
}

/// Regrouping four XOR terms.
pub proof fn lemma_xor4(a: u64, b: u64, c: u64, d: u64)
    ensures
        (a ^ b) ^ (c ^ d) == (a ^ c) ^ (b ^ d),
{
    assert((a ^ b) ^ (c ^ d) == (a ^ c) ^ (b ^ d)) by (bit_vector);
}

/// A bit of an XOR is set when exactly one of the two bits is.
pub proof fn lemma_has_bit_xor(a: u64, b: u64, j: int)
    requires
        0 <= j < 64,
    ensures
        has_bit(a ^ b, j) == (has_bit(a, j) != has_bit(b, j)),
{
    let ju = j as u64;
    assert(ju < 64 ==> ((((a ^ b) >> ju) & 1u64 == 1u64) == (((a >> ju) & 1u64 == 1u64) != ((b
        >> ju) & 1u64 == 1u64)))) by (bit_vector);
}

/// The Zobrist keys and their combinations.
pub trait ZobristTables: Sized {
    /// The tables have their full size.
    spec fn wf(&self) -> bool;

    /// The key of a chessman of color `c` and echelon `k` on square `s`.
    spec fn piece_key(&self, c: ChessColor, k: ChessEchelon, s: int) -> u64;

    /// The key of the en-passant file `f`.
    spec fn ep_key(&self, f: int) -> u64;

    /// The key of the castling right of color index `c` and direction index `d`.
    spec fn rights_key(&self, c: int, d: int) -> u64;

    /// The key of black to move.
    spec fn black_key(&self) -> u64;

    /// The key of black to move.
    fn black(&self) -> (r: u64)
        requires
            self.wf(),
        ensures
            r == self.black_key(),
    ;

    /// The key of one chessman on one square.
    fn hash_square(&self, player: ChessColor, man: ChessEchelon, sq: Square) -> (r: u64)
        requires
            self.wf(),
        ensures
            r == self.piece_key(player, man, sq.idx()),
    ;

    /// The key of an en-passant file.
    fn ep_file(&self, f: usize) -> (r: u64)
        requires
            self.wf(),
            f < 8,
        ensures
            r == self.ep_key(f as int),
    ;

    /// The key of one castling right.
    fn right(&self, c: usize, d: usize) -> (r: u64)
        requires
            self.wf(),
            c < 2,
            d < 2,
        ensures
            r == self.rights_key(c as int, d as int),
    ;
}

/// The hash of an en-passant state: the key of the captured pawn's file, or 0.
pub fn hash_en_passant<ZT: ZobristTables>(zt: &ZT, ep: Option<EnPassant>) -> (r: u64)
    requires
        zt.wf(),
    ensures
        r == ep_hash(zt, ep),
{
    match ep {
        Some(e) => zt.ep_file(e.capture.ix() % 8),
        None => 0,
    }
}

/// The hash of the castling rights: the XOR of the keys of the rights held.
pub fn hash_rights<ZT: ZobristTables>(zt: &ZT, rights: [[bool; 2]; 2]) -> (r: u64)
    requires
        zt.wf(),
    ensures
        r == rights_hash(zt, rights),
{
    let white = rights[0];
    let black = rights[1];
    let a = if white[0] { zt.right(0, 0) } else { 0 };
    let b = if white[1] { zt.right(0, 1) } else { 0 };
    let c = if black[0] { zt.right(1, 0) } else { 0 };
    let d = if black[1] { zt.right(1, 1) } else { 0 };
    ((a ^ b) ^ c) ^ d
}

/// The hash of the chessmen of one color and echelon standing on `bits`.
pub fn hash_move<ZT: ZobristTables>(zt: &ZT, player: ChessColor, man: ChessEchelon, bits: u64) -> (r: u64)
    requires
        zt.wf(),
    ensures
        r == mask_hash(zt, player, man, bits),
{
    let mut res: u64 = 0;
    let mut i: u8 = 0;
    while i < 64
        invariant
            i <= 64,
            zt.wf(),
            res == mask_hash_upto(zt, player, man, bits, i as nat),
        decreases 64 - i,
    {
        if (bits >> i) & 1 == 1 {
            res = res ^ zt.hash_square(player, man, Square(i));
        } else {
            proof {
                lemma_xor(res, 0, 0);
            }
        }
        i = i + 1;
    }
    res
}

/// The hash of a castling: the king's and the rook's two squares each.
pub fn hash_castling<ZT: ZobristTables>(zt: &ZT, player: ChessColor, king_bits: u64, rook_bits: u64) -> (r: u64)
    requires
        zt.wf(),
    ensures
        r == mask_hash(zt, player, ChessEchelon::KING, king_bits) ^ mask_hash(
            zt,
            player,
            ChessEchelon::ROOK,
            rook_bits,
        ),
{
    hash_move(zt, player, ChessEchelon::KING, king_bits) ^ hash_move(
        zt,
        player,
        ChessEchelon::ROOK,
        rook_bits,
    )
}

/// The hash of an en-passant state.
pub open spec fn ep_hash<ZT: ZobristTables>(zt: &ZT, ep: Option<EnPassant>) -> u64 {
    match ep {
        Some(e) => zt.ep_key(e.capture.idx() % 8),
        None => 0,
    }
}

/// The term of one castling right in the rights hash.
pub open spec fn right_term<ZT: ZobristTables>(zt: &ZT, rights: [[bool; 2]; 2], c: int, d: int) -> u64 {
    if rights@[c]@[d] {
        zt.rights_key(c, d)
    } else {
        0
    }
}

/// The hash of the castling rights.
pub open spec fn rights_hash<ZT: ZobristTables>(zt: &ZT, rights: [[bool; 2]; 2]) -> u64 {
    ((right_term(zt, rights, 0, 0) ^ right_term(zt, rights, 0, 1)) ^ right_term(zt, rights, 1, 0))
        ^ right_term(zt, rights, 1, 1)
}

/// The XOR of the keys of the squares below `n` set in `m`.
pub open spec fn mask_hash_upto<ZT: ZobristTables>(
    zt: &ZT,
    c: ChessColor,
    k: ChessEchelon,
    m: u64,
    n: nat,
) -> u64
    decreases n,
{
    if n == 0 {
        0
    } else {
        mask_hash_upto(zt, c, k, m, (n - 1) as nat) ^ (if has_bit(m, n - 1) {
            zt.piece_key(c, k, n - 1)
        } else {
            0
        })
    }
}

/// The hash of the chessmen of color `c` and echelon `k` on the squares of `m`.
pub open spec fn mask_hash<ZT: ZobristTables>(zt: &ZT, c: ChessColor, k: ChessEchelon, m: u64) -> u64 {
    mask_hash_upto(zt, c, k, m, 64)
}

/// The index of the plane of color `c` and echelon `k` among twelve.
pub open spec fn pix(c: ChessColor, k: ChessEchelon) -> int {
    c.spec_ix() * 6 + k.spec_ix()
}

/// Twelve planes given as two rows of six, flattened by color then echelon.
pub open spec fn flat_planes(masks: [[u64; 6]; 2]) -> Seq<u64> {
    Seq::new(12, |i: int| masks@[i / 6]@[i % 6])
}

/// The hash of the first `n` of twelve planes.
pub open spec fn pieces_hash_upto<ZT: ZobristTables>(zt: &ZT, p: Seq<u64>, n: nat) -> u64
    decreases n,
{
    if n == 0 {
        0
    } else {
        pieces_hash_upto(zt, p, (n - 1) as nat) ^ mask_hash(
            zt,
            ChessColor::from_ix((n - 1) / 6),
            ChessEchelon::from_ix((n - 1) % 6),
            p[n - 1],
        )
    }
}

/// The hash of the chessmen of twelve planes.
pub open spec fn pieces_hash<ZT: ZobristTables>(zt: &ZT, p: Seq<u64>) -> u64 {
    pieces_hash_upto(zt, p, 12)
}

/// Twelve planes XORed pointwise.
pub open spec fn seq_xor(a: Seq<u64>, b: Seq<u64>) -> Seq<u64> {
    Seq::new(12, |i: int| a[i] ^ b[i])
}

/// Twelve planes, all empty but plane `i`, which holds `m`.
pub open spec fn unit(i: int, m: u64) -> Seq<u64> {
    Seq::new(12, |j: int| if j == i { m } else { 0u64 })
}

/// Twelve empty planes.
pub open spec fn zero_planes() -> Seq<u64> {
    Seq::new(12, |j: int| 0u64)
}

/// The hash of a plane is linear: the hash of an XOR is the XOR of the hashes.
pub proof fn lemma_mask_hash_xor<ZT: ZobristTables>(
    zt: &ZT,
    c: ChessColor,
    k: ChessEchelon,
    a: u64,
    b: u64,
    n: nat,
)
    requires
        n <= 64,
    ensures
        mask_hash_upto(zt, c, k, a ^ b, n) == mask_hash_upto(zt, c, k, a, n) ^ mask_hash_upto(
            zt,
            c,
            k,
            b,
            n,
        ),
    decreases n,
{
    if n > 0 {
        let m = (n - 1) as nat;
        lemma_mask_hash_xor(zt, c, k, a, b, m);
        lemma_has_bit_xor(a, b, m as int);
        let key = zt.piece_key(c, k, m as int);
        let ha = mask_hash_upto(zt, c, k, a, m);
        let hb = mask_hash_upto(zt, c, k, b, m);
        let ta: u64 = if has_bit(a, m as int) { key } else { 0 };
        let tb: u64 = if has_bit(b, m as int) { key } else { 0 };
        lemma_xor4(ha, hb, ta, tb);
        lemma_xor(key, 0, 0);
        lemma_xor(0, 0, 0);
        assert(mask_hash_upto(zt, c, k, a ^ b, n) == (ha ^ hb) ^ (ta ^ tb));
    } else {
        lemma_xor(0, 0, 0);
    }
}

/// The hash of an empty plane is 0.
pub proof fn lemma_mask_hash_zero<ZT: ZobristTables>(zt: &ZT, c: ChessColor, k: ChessEchelon, n: nat)
    requires
        n <= 64,
    ensures
        mask_hash_upto(zt, c, k, 0, n) == 0,
    decreases n,
{
    if n > 0 {
        lemma_mask_hash_zero(zt, c, k, (n - 1) as nat);
        let ju = (n - 1) as u64;
        assert(ju < 64 ==> (0u64 >> ju) & 1u64 != 1u64) by (bit_vector);
        lemma_xor(0, 0, 0);
    }
}

/// The hash of a single square's plane is that square's key.
pub proof fn lemma_mask_hash_bit<ZT: ZobristTables>(
    zt: &ZT,
    c: ChessColor,
    k: ChessEchelon,
    s: int,
    n: nat,
)
    requires
        0 <= s < 64,
        n <= 64,
    ensures
        mask_hash_upto(zt, c, k, 1u64 << (s as u64), n) == (if s < n {
            zt.piece_key(c, k, s)
        } else {
            0
        }),
    decreases n,
{
    if n > 0 {
        lemma_mask_hash_bit(zt, c, k, s, (n - 1) as nat);
        let ju = (n - 1) as u64;
        let su = s as u64;
        assert(ju < 64 && su < 64 ==> ((((1u64 << su) >> ju) & 1u64 == 1u64) == (ju == su))) by (bit_vector);
        lemma_xor(zt.piece_key(c, k, s), 0, 0);
        lemma_xor(0, 0, 0);
    }
}

/// The hash of twelve planes is linear.
pub proof fn lemma_pieces_hash_xor<ZT: ZobristTables>(zt: &ZT, p: Seq<u64>, d: Seq<u64>, n: nat)
    requires
        p.len() == 12,
        d.len() == 12,
        n <= 12,
    ensures
        pieces_hash_upto(zt, seq_xor(p, d), n) == pieces_hash_upto(zt, p, n) ^ pieces_hash_upto(
            zt,
            d,
            n,
        ),
    decreases n,
{
    if n > 0 {
        let m = (n - 1) as nat;
        lemma_pieces_hash_xor(zt, p, d, m);
        let c = ChessColor::from_ix(m as int / 6);
        let k = ChessEchelon::from_ix(m as int % 6);
        lemma_mask_hash_xor(zt, c, k, p[m as int], d[m as int], 64);
        lemma_xor4(
            pieces_hash_upto(zt, p, m),
            pieces_hash_upto(zt, d, m),
            mask_hash(zt, c, k, p[m as int]),
            mask_hash(zt, c, k, d[m as int]),
        );
        assert(seq_xor(p, d)[m as int] == p[m as int] ^ d[m as int]);
    } else {
        lemma_xor(0, 0, 0);
    }
}

/// The hash of twelve planes of which only one is not empty.
pub proof fn lemma_pieces_hash_unit<ZT: ZobristTables>(
    zt: &ZT,
    c: ChessColor,
    k: ChessEchelon,
    m: u64,
    n: nat,
)
    requires
        n <= 12,
    ensures
        pieces_hash_upto(zt, unit(pix(c, k), m), n) == (if pix(c, k) < n {
            mask_hash(zt, c, k, m)
        } else {
            0
        }),
    decreases n,
{
    if n > 0 {
        let j = (n - 1) as nat;
        lemma_pieces_hash_unit(zt, c, k, m, j);
        let cj = ChessColor::from_ix(j as int / 6);
        let kj = ChessEchelon::from_ix(j as int % 6);
        lemma_mask_hash_zero(zt, cj, kj, 64);
        if j as int == pix(c, k) {
            assert(cj == c && kj == k);
        }
        lemma_xor(mask_hash(zt, c, k, m), 0, 0);
        lemma_xor(0, 0, 0);
    }
}

/// The hash of twelve empty planes is 0.
pub proof fn lemma_pieces_hash_zero<ZT: ZobristTables>(zt: &ZT, n: nat)
    requires
        n <= 12,
    ensures
        pieces_hash_upto(zt, zero_planes(), n) == 0,
    decreases n,
{
    if n > 0 {
        let j = (n - 1) as nat;
        lemma_pieces_hash_zero(zt, j);
        lemma_mask_hash_zero(zt, ChessColor::from_ix(j as int / 6), ChessEchelon::from_ix(j as int % 6), 64);
        lemma_xor(0, 0, 0);
    }
}

/// The per-position keys that do not depend on the chessmen.
#[derive(Debug, Clone)]
pub struct DefaultZobristDetails {
    /// The key of each en-passant file.
    pub ep_files: [u64; 8],
    /// The key of each castling right, indexed by color then direction.
    pub rights: [[u64; 2]; 2],
    /// The key of black to move.
    pub black_to_move: u64,
}

impl DefaultZobristDetails {
    /// The keys are the generator's outputs from number `d0` on: the eight
    /// en-passant files, the four rights (white east, white west, black
    /// east, black west), then black to move.
    pub open spec fn keys_from(&self, seed: Seq<u8>, d0: nat) -> bool {
        &&& forall|j: int| 0 <= j < 8 ==> #[trigger] self.ep_files@[j] == small_rng_output(seed, d0 + j as nat)
        &&& self.rights@[0]@[0] == small_rng_output(seed, d0 + 8)
        &&& self.rights@[0]@[1] == small_rng_output(seed, d0 + 9)
        &&& self.rights@[1]@[0] == small_rng_output(seed, d0 + 10)
        &&& self.rights@[1]@[1] == small_rng_output(seed, d0 + 11)
        &&& self.black_to_move == small_rng_output(seed, d0 + 12)
    }

    /// Draw the keys from a generator.
    pub fn new(rng: &mut PiRng) -> (r: DefaultZobristDetails)
        requires
            old(rng).drawn_view() + 13 < 0xFFFF_FFFF_FFFF_FFFF,
        ensures
            r.keys_from(old(rng).seed_view(), old(rng).drawn_view()),
            final(rng).seed_view() == old(rng).seed_view(),
            final(rng).drawn_view() == old(rng).drawn_view() + 13,
    {
        let ghost d0 = rng.drawn_view();
        let mut ep_files: [u64; 8] = [0; 8];
        let mut i: usize = 0;
        while i < 8
            invariant
                i <= 8,
                d0 + 13 < 0xFFFF_FFFF_FFFF_FFFF,
                rng.seed_view() == old(rng).seed_view(),
                rng.drawn_view() == d0 + i,
                forall|j: int| 0 <= j < i ==> ep_files@[j] == small_rng_output(old(rng).seed_view(), d0 + j as nat),
            decreases 8 - i,
        {
            ep_files[i] = rng.next();
            i = i + 1;
        }
        let w0 = rng.next();
        let w1 = rng.next();
        let b0 = rng.next();
        let b1 = rng.next();
        let black_to_move = rng.next();
        DefaultZobristDetails { ep_files, rights: [[w0, w1], [b0, b1]], black_to_move }
    }

    /// The key of the en-passant pawn's file, or 0.
    pub fn hash_en_passant(&self, ep: Option<EnPassant>) -> (r: u64)
        ensures
            r == (match ep {
                Some(e) => self.ep_files@[e.capture.idx() % 8],
                None => 0,
            }),
    {
        match ep {
            Some(e) => self.ep_files[e.capture.ix() % 8],
            None => 0,
        }
    }

    /// The XOR of the keys of the rights held.
    pub fn hash_rights(&self, rights: [[bool; 2]; 2]) -> (r: u64)
        ensures
            r == ((((if rights@[0]@[0] { self.rights@[0]@[0] } else { 0u64 }) ^ (if rights@[0]@[1] {
                self.rights@[0]@[1]
            } else {
                0u64
            })) ^ (if rights@[1]@[0] { self.rights@[1]@[0] } else { 0u64 })) ^ (if rights@[1]@[1] {
                self.rights@[1]@[1]
            } else {
                0u64
            })),
    {
        let mut res: u64 = 0;
        let white = rights[0];
        let black = rights[1];
        let kw = self.rights[0];
        let kb = self.rights[1];
        res = res ^ (if white[0] { kw[0] } else { 0 });
        proof {
            lemma_xor(if rights@[0]@[0] { self.rights@[0]@[0] } else { 0u64 }, 0, 0);
        }
        res = res ^ (if white[1] { kw[1] } else { 0 });
        res = res ^ (if black[0] { kb[0] } else { 0 });
        res = res ^ (if black[1] { kb[1] } else { 0 });
        res
    }

    /// The key of black to move.
    pub fn black(&self) -> (r: u64)
        ensures
            r == self.black_to_move,
    {
        self.black_to_move
    }
}

/// Zobrist tables with one key per color, echelon and square.
#[derive(Debug, Clone)]
pub struct FullZobristTables {
    /// The keys, at index `color * 384 + echelon * 64 + square`.
    pub masks: Vec<u64>,
    pub details: DefaultZobristDetails,
}

impl FullZobristTables {
    /// Draw the keys from the [`pi_rng`] generator.
    pub fn new() -> (r: FullZobristTables)
        ensures
            r.wf(),
            forall|i: int| 0 <= i < 768 ==> #[trigger] r.masks@[i] == small_rng_output(pi_seed(), 1000 + i as nat),
            r.details.keys_from(pi_seed(), 1768),
    {
        let mut pi = pi_rng();
        let masks = draw_keys(&mut pi, 768);
        let details = DefaultZobristDetails::new(&mut pi);
        FullZobristTables { masks, details }
    }

    /// The hash of a plane of chessmen of one color and echelon.
    pub fn hash_mask(&self, color: ChessColor, man: ChessEchelon, mask: u64) -> (r: u64)
        requires
            self.wf(),
        ensures
            r == mask_hash(self, color, man, mask),
    {
        let base = color.ix() * 384 + man.ix() * 64;
        let mut res: u64 = 0;
        let mut i: u64 = 0;
        while i < 64
            invariant
                i <= 64,
                base == color.spec_ix() * 384 + man.spec_ix() * 64,
                self.masks.len() == 768,
                res == mask_hash_upto(self, color, man, mask, i as nat),
            decreases 64 - i,
        {
            if (mask >> i) & 1 == 1 {
                res = res ^ self.masks[base + i as usize];
            } else {
                proof {
                    lemma_xor(res, 0, 0);
                }
            }
            i = i + 1;
        }
        res
    }
}

impl ZobristTables for FullZobristTables {
    open spec fn wf(&self) -> bool {
        self.masks.len() == 768
    }

    open spec fn piece_key(&self, c: ChessColor, k: ChessEchelon, s: int) -> u64 {
        self.masks@[c.spec_ix() * 384 + k.spec_ix() * 64 + s]
    }

    open spec fn ep_key(&self, f: int) -> u64 {
        self.details.ep_files@[f]
    }

    open spec fn rights_key(&self, c: int, d: int) -> u64 {
        self.details.rights@[c]@[d]
    }

    open spec fn black_key(&self) -> u64 {
        self.details.black_to_move
    }

    fn black(&self) -> (r: u64) {
        self.details.black()
    }

    fn hash_square(&self, player: ChessColor, man: ChessEchelon, sq: Square) -> (r: u64) {
        self.masks[player.ix() * 384 + man.ix() * 64 + sq.ix()]
    }

    fn ep_file(&self, f: usize) -> (r: u64) {
        self.details.ep_files[f]
    }

    fn right(&self, c: usize, d: usize) -> (r: u64) {
        let row = self.details.rights[c];
        row[d]
    }
}

/// The hash of twelve planes, indexed by color then echelon.
pub fn hash_full_bitboard<ZT: ZobristTables>(zt: &ZT, masks: &[[u64; 6]; 2]) -> (r: u64)
    requires
        zt.wf(),
    ensures
        r == pieces_hash(zt, flat_planes(*masks)),
{
    let mut res: u64 = 0;
    let mut i: usize = 0;
    while i < 12
        invariant
            i <= 12,
            zt.wf(),
            res == pieces_hash_upto(zt, flat_planes(*masks), i as nat),
        decreases 12 - i,
    {
        let c = if i < 6 { ChessColor::WHITE } else { ChessColor::BLACK };
        let k = ChessEchelon::at(i % 6);
        let row = masks[i / 6];
        res = res ^ hash_move(zt, c, k, row[i % 6]);
        i = i + 1;
    }
    res
}

/// Zobrist tables with one key per color and square and one per echelon
/// and square; a chessman's key is the XOR of its color's and its
/// echelon's keys. Half the size of [`FullZobristTables`].
#[derive(Debug, Clone)]
pub struct CompactZobristTables {
    /// Echelon keys, at index `echelon * 64 + square`.
    pub men: Vec<u64>,
    /// Color keys, at index `color * 64 + square`.
    pub colors: Vec<u64>,
    pub details: DefaultZobristDetails,
}

impl CompactZobristTables {
    /// Draw the keys from the [`pi_rng`] generator.
    pub fn new() -> (r: CompactZobristTables)
        ensures
            r.wf(),
            forall|i: int| 0 <= i < 384 ==> #[trigger] r.men@[i] == small_rng_output(pi_seed(), 1000 + i as nat),
            forall|i: int| 0 <= i < 128 ==> #[trigger] r.colors@[i] == small_rng_output(pi_seed(), 1384 + i as nat),
            r.details.keys_from(pi_seed(), 1512),
    {
        let mut pi = pi_rng();
        let men = draw_keys(&mut pi, 384);
        let colors = draw_keys(&mut pi, 128);
        let details = DefaultZobristDetails::new(&mut pi);
        CompactZobristTables { men, colors, details }
    }

    /// The hash of a plane of chessmen of one color and echelon: the hash
    /// of their color's keys and the hash of their echelon's keys.
    pub fn hash_mask(&self, color: ChessColor, man: ChessEchelon, mask: u64) -> (r: u64)
        requires
            self.wf(),
        ensures
            r == mask_hash(self, color, man, mask),
    {
        let r = self.hash_color_mask(color, mask) ^ self.hash_man_mask(man, mask);
        proof {
            lemma_compact_key_split(self, color, man, mask, 64);
            lemma_xor(key_sum(self.men@, man.spec_ix() * 64, mask, 64), key_sum(self.colors@, color.spec_ix() * 64, mask, 64), 0);
        }
        r
    }
}

/// The XOR of the keys `keys[base + s]` over the squares `s < n` of plane `m`.
pub open spec fn key_sum(keys: Seq<u64>, base: int, m: u64, n: nat) -> u64
    decreases n,
{
    if n == 0 {
        0
    } else {
        key_sum(keys, base, m, (n - 1) as nat) ^ (if has_bit(m, n - 1) {
            keys[base + n - 1]
        } else {
            0
        })
    }
}

impl CompactZobristTables {
    /// The hash of the chessmen of one color on a plane, whatever their echelons.
    pub fn hash_color_mask(&self, color: ChessColor, mask: u64) -> (r: u64)
        requires
            self.wf(),
        ensures
            r == key_sum(self.colors@, color.spec_ix() * 64, mask, 64),
    {
        let base = color.ix() * 64;
        let mut res: u64 = 0;
        let mut i: u64 = 0;
        while i < 64
            invariant
                i <= 64,
                base == color.spec_ix() * 64,
                self.wf(),
                res == key_sum(self.colors@, base as int, mask, i as nat),
            decreases 64 - i,
        {
            if (mask >> i) & 1 == 1 {
                res = res ^ self.colors[base + i as usize];
            } else {
                proof {
                    lemma_xor(res, 0, 0);
                }
            }
            i = i + 1;
        }
        res
    }

    /// The hash of the chessmen of one echelon on a plane, whatever their colors.
    pub fn hash_man_mask(&self, man: ChessEchelon, mask: u64) -> (r: u64)
        requires
            self.wf(),
        ensures
            r == key_sum(self.men@, man.spec_ix() * 64, mask, 64),
    {
        let base = man.ix() * 64;
        let mut res: u64 = 0;
        let mut i: u64 = 0;
        while i < 64
            invariant
                i <= 64,
                base == man.spec_ix() * 64,
                self.wf(),
                res == key_sum(self.men@, base as int, mask, i as nat),
            decreases 64 - i,
        {
            if (mask >> i) & 1 == 1 {
                res = res ^ self.men[base + i as usize];
            } else {
                proof {
                    lemma_xor(res, 0, 0);
                }
            }
            i = i + 1;
        }
        res
    }
}

/// With compact tables, a plane's hash splits into its echelon keys and its color keys.
pub proof fn lemma_compact_key_split(zt: &CompactZobristTables, c: ChessColor, k: ChessEchelon, m: u64, n: nat)
    requires
        n <= 64,
    ensures
        mask_hash_upto(zt, c, k, m, n) == key_sum(zt.men@, k.spec_ix() * 64, m, n) ^ key_sum(
            zt.colors@,
            c.spec_ix() * 64,
            m,
            n,
        ),
    decreases n,
{
    if n > 0 {
        let j = (n - 1) as nat;
        lemma_compact_key_split(zt, c, k, m, j);
        let a = key_sum(zt.men@, k.spec_ix() * 64, m, j);
        let b = key_sum(zt.colors@, c.spec_ix() * 64, m, j);
        let x = zt.men@[k.spec_ix() * 64 + j];
        let y = zt.colors@[c.spec_ix() * 64 + j];
        lemma_xor4(a, b, x, y);
        lemma_xor(a ^ b, 0, 0);
        lemma_xor(0, 0, 0);
        lemma_xor(a, 0, 0);
        lemma_xor(b, 0, 0);
    } else {
        lemma_xor(0, 0, 0);
    }
}

/// The twelve planes of the compact layout: a chessman's plane is the AND
/// of its color's plane and its echelon's plane.
pub open spec fn compact_planes(colors: [u64; 2], men: [u64; 6]) -> Seq<u64> {
    Seq::new(12, |i: int| men@[i % 6] & colors@[i / 6])
}

/// The hash of a board in the compact layout, given its color and echelon planes.
pub fn hash_compact<ZT: ZobristTables>(zt: &ZT, colors: &[u64; 2], men: &[u64; 6]) -> (r: u64)
    requires
        zt.wf(),
    ensures
        r == pieces_hash(zt, compact_planes(*colors, *men)),
{
    let mut white: [u64; 6] = [0; 6];
    let mut black: [u64; 6] = [0; 6];
    let mut k: usize = 0;
    while k < 6
        invariant
            k <= 6,
            forall|j: int| 0 <= j < k ==> white@[j] == men@[j] & colors@[0] && black@[j] == men@[j] & colors@[1],
        decreases 6 - k,
    {
        white[k] = men[k] & colors[0];
        black[k] = men[k] & colors[1];
        k = k + 1;
    }
    let masks = [white, black];
    assert(flat_planes(masks) =~= compact_planes(*colors, *men));
    hash_full_bitboard(zt, &masks)
}

impl ZobristTables for CompactZobristTables {
    open spec fn wf(&self) -> bool {
        self.men.len() == 384 && self.colors.len() == 128
    }

    open spec fn piece_key(&self, c: ChessColor, k: ChessEchelon, s: int) -> u64 {
        self.men@[k.spec_ix() * 64 + s] ^ self.colors@[c.spec_ix() * 64 + s]
    }

    open spec fn ep_key(&self, f: int) -> u64 {
        self.details.ep_files@[f]
    }

    open spec fn rights_key(&self, c: int, d: int) -> u64 {
        self.details.rights@[c]@[d]
    }

    open spec fn black_key(&self) -> u64 {
        self.details.black_to_move
    }

    fn black(&self) -> (r: u64) {
        self.details.black()
    }

    fn hash_square(&self, player: ChessColor, man: ChessEchelon, sq: Square) -> (r: u64) {
        self.men[man.ix() * 64 + sq.ix()] ^ self.colors[player.ix() * 64 + sq.ix()]
    }

    fn ep_file(&self, f: usize) -> (r: u64) {
        self.details.ep_files[f]
    }

    fn right(&self, c: usize, d: usize) -> (r: u64) {
        let row = self.details.rights[c];
        row[d]
    }
}

/// Tables with every key 0: every position hashes to 0.
#[derive(Debug, Clone, Copy, PartialEq, Eq, Structural)]
pub struct NoHashes;

impl ZobristTables for NoHashes {
    open spec fn wf(&self) -> bool {
        true
    }

    open spec fn piece_key(&self, c: ChessColor, k: ChessEchelon, s: int) -> u64 {
        0
    }

    open spec fn ep_key(&self, f: int) -> u64 {
        0
    }

    open spec fn rights_key(&self, c: int, d: int) -> u64 {
        0
    }

    open spec fn black_key(&self) -> u64 {
        0
    }

    fn black(&self) -> (r: u64) {
        0
    }

    fn hash_square(&self, player: ChessColor, man: ChessEchelon, sq: Square) -> (r: u64) {
        0
    }

    fn ep_file(&self, f: usize) -> (r: u64) {
        0
    }

    fn right(&self, c: usize, d: usize) -> (r: u64) {
        0
    }
}

/// A hasher for std's collections keyed by Zobrist hashes: it XORs in
/// every `u64` written and ignores other bytes.
#[derive(Debug, Clone, Copy, Default, PartialEq, Eq, Structural)]
pub struct ZobHasher(pub u64);

impl ZobHasher {
    /// The hash so far.
    pub fn finish(&self) -> (r: u64)
        ensures
            r == self.0,
    {
        self.0
    }

    /// XOR in one value.
    pub fn write_u64(&mut self, i: u64)
        ensures
            final(self).0 == old(self).0 ^ i,
    {
        self.0 = self.0 ^ i;
    }
}

} // verus!
