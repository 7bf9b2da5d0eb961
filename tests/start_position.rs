use catchess::board::{BitBoard, ChessBoard, CompactBitBoard, FullBitBoard, FullerBitBoard};
use catchess::hash::{CompactZobristTables, FullZobristTables, NoHashes, ZobristTables, hash_move, pi_rng};
use catchess::model::{BitMove, ChessColor, ChessEchelon, LegalMove, Square, SpecialMove};
use catchess::movegen::{generate_moves, generate_pseudo_legal, is_in_check};
use catchess::moving::{clone_make_legal_move, hash_prospective_move, make_legal_move, unmake_legal_move};
use catchess::perft::{RecursionStrategy, perft};

fn find(moves: &[LegalMove], from: u8, to: u8) -> LegalMove {
    *moves.iter().find(|m| m.0.from == Square(from) && m.0.to == Square(to)).expect("move present")
}

#[test]
fn startpos_has_twenty_moves() {
    let zt = FullZobristTables::new();
    let b = FullBitBoard::startpos(&zt);
    let mut moves = Vec::new();
    generate_moves(&b, &mut moves);
    assert_eq!(moves.len(), 20);
    assert_eq!(moves.iter().filter(|m| m.0.ech == ChessEchelon::PAWN).count(), 16);
    assert_eq!(moves.iter().filter(|m| m.0.ech == ChessEchelon::KNIGHT).count(), 4);
    let mut pseudo = Vec::new();
    generate_pseudo_legal(&b, &mut pseudo);
    assert_eq!(pseudo.len(), 20);
}

#[test]
fn startpos_perft_full_layout() {
    let zt = FullZobristTables::new();
    assert_eq!(perft(&FullBitBoard::startpos(&zt), 1, RecursionStrategy::CloneMake, &zt).nodes(), 20);
    assert_eq!(perft(&FullBitBoard::startpos(&zt), 2, RecursionStrategy::CloneMake, &zt).nodes(), 400);
    assert_eq!(perft(&FullBitBoard::startpos(&zt), 3, RecursionStrategy::CloneMake, &zt).nodes(), 8902);
}

#[test]
fn startpos_perft_depth_four() {
    let zt = FullZobristTables::new();
    assert_eq!(perft(&FullerBitBoard::startpos(&zt), 4, RecursionStrategy::MakeUnmake, &zt).nodes(), 197281);
}

#[test]
fn startpos_perft_layouts_agree() {
    let zt = CompactZobristTables::new();
    for depth in 0..=3 {
        let a = perft(&CompactBitBoard::startpos(&zt), depth, RecursionStrategy::MakeUnmake, &zt).nodes();
        let b = perft(&FullBitBoard::startpos(&zt), depth, RecursionStrategy::CloneMake, &zt).nodes();
        let c = perft(&FullerBitBoard::startpos(&zt), depth, RecursionStrategy::MakeUnmake, &zt).nodes();
        assert_eq!(a, b);
        assert_eq!(b, c);
    }
    assert_eq!(perft(&CompactBitBoard::startpos(&zt), 3, RecursionStrategy::CloneMake, &zt).nodes(), 8902);
}

#[test]
fn perft_depth_zero_is_empty() {
    let zt = FullZobristTables::new();
    let r = perft(&FullBitBoard::startpos(&zt), 0, RecursionStrategy::CloneMake, &zt);
    assert_eq!(r.depth, 0);
    assert_eq!(r.breakdown.len(), 0);
}

#[test]
fn double_push_offers_en_passant_and_hashes() {
    let zt = FullZobristTables::new();
    let b = FullBitBoard::startpos(&zt);
    let mut moves = Vec::new();
    generate_moves(&b, &mut moves);
    let e2e4 = find(&moves, 12, 28);
    assert_eq!(e2e4.0.special, Some(SpecialMove::PAWN));
    let mut after = b;
    let before = make_legal_move(&mut after, e2e4, &zt);
    let ep = after.meta.trans.en_passant.expect("en passant offered");
    assert_eq!(ep.square, Square(20));
    assert_eq!(ep.capture, Square(28));
    let expected = b.meta.hash
        ^ zt.hash_square(ChessColor::WHITE, ChessEchelon::PAWN, Square(12))
        ^ zt.hash_square(ChessColor::WHITE, ChessEchelon::PAWN, Square(28))
        ^ zt.ep_file(4)
        ^ zt.black();
    assert_eq!(after.meta.hash, expected);
    assert_eq!(after.meta.hash, after.rehash(&zt));
    assert!(before.en_passant.is_none());

    let mut replies = Vec::new();
    generate_moves(&after, &mut replies);
    let d7d5 = find(&replies, 51, 35);
    make_legal_move(&mut after, d7d5, &zt);
    let ep = after.meta.trans.en_passant.expect("new en passant");
    assert_eq!(ep.square, Square(43));
    assert!(after.sanity_check(&zt));

    let mut third = Vec::new();
    generate_moves(&after, &mut third);
    let quiet = find(&third, 6, 21);
    make_legal_move(&mut after, quiet, &zt);
    assert!(after.meta.trans.en_passant.is_none());
}

#[test]
fn make_unmake_restores_every_move() {
    let zt = FullZobristTables::new();
    let b = FullerBitBoard::startpos(&zt);
    let mut moves = Vec::new();
    generate_moves(&b, &mut moves);
    for mv in moves {
        let mut work = b;
        let t = make_legal_move(&mut work, mv, &zt);
        assert!(work.sanity_check(&zt));
        assert!(!{
            let mut back = work;
            back.bitboard.meta.player = back.bitboard.meta.player.opp();
            is_in_check(&back)
        });
        unmake_legal_move(&mut work, mv, t, &zt);
        assert_eq!(work.bitboard.masks, b.bitboard.masks);
        assert_eq!(work.total, b.total);
        assert_eq!(work.bitboard.meta.hash, b.bitboard.meta.hash);
        assert_eq!(work.bitboard.meta.trans, b.bitboard.meta.trans);
        assert_eq!(work.bitboard.meta.player, b.bitboard.meta.player);
        assert_eq!(work.bitboard.meta.turn, b.bitboard.meta.turn);
    }
}

#[test]
fn preview_hash_matches_made_hash() {
    let zt = CompactZobristTables::new();
    let b = CompactBitBoard::startpos(&zt);
    let mut moves = Vec::new();
    generate_moves(&b, &mut moves);
    for mv in moves {
        let preview = hash_prospective_move(&b, mv.0, &zt);
        let made = clone_make_legal_move(&b, mv, &zt);
        assert_eq!(preview, made.meta.hash);
        assert_eq!(made.rehash(&zt), made.meta.hash);
        assert_ne!(preview, b.meta.hash);
    }
}

#[test]
fn halfmove_clock_and_turn_follow_moves() {
    let zt = FullZobristTables::new();
    let mut b = FullBitBoard::startpos(&zt);
    let mut moves = Vec::new();
    generate_moves(&b, &mut moves);
    let knight = find(&moves, 6, 21);
    make_legal_move(&mut b, knight, &zt);
    assert_eq!(b.meta.trans.halfmove_clock, 1);
    assert_eq!(b.meta.turn, 1);
    generate_moves(&b, &mut moves);
    let knight = find(&moves, 62, 45);
    make_legal_move(&mut b, knight, &zt);
    assert_eq!(b.meta.trans.halfmove_clock, 2);
    assert_eq!(b.meta.turn, 2);
    generate_moves(&b, &mut moves);
    let pawn = find(&moves, 12, 20);
    make_legal_move(&mut b, pawn, &zt);
    assert_eq!(b.meta.trans.halfmove_clock, 0);
}

#[test]
fn king_move_loses_both_rights() {
    let zt = FullZobristTables::new();
    let mut b = FullBitBoard::startpos(&zt);
    let mut moves = Vec::new();
    for (from, to) in [(12u8, 28u8), (52, 36), (4, 12)] {
        generate_moves(&b, &mut moves);
        let mv = find(&moves, from, to);
        make_legal_move(&mut b, mv, &zt);
    }
    assert_eq!(b.meta.trans.rights, [[false, false], [true, true]]);
    assert_eq!(b.meta.hash, b.rehash(&zt));
}

#[test]
fn rook_move_loses_one_right() {
    let zt = FullZobristTables::new();
    let mut b = FullBitBoard::startpos(&zt);
    let mut moves = Vec::new();
    for (from, to) in [(15u8, 31u8), (55, 39), (7, 23)] {
        generate_moves(&b, &mut moves);
        let mv = find(&moves, from, to);
        make_legal_move(&mut b, mv, &zt);
    }
    assert_eq!(b.meta.trans.rights, [[true, false], [true, true]]);
    assert_eq!(b.meta.hash, b.rehash(&zt));
}

#[test]
fn zobrist_keys_are_drawn_and_stable() {
    let a = FullZobristTables::new();
    let b = FullZobristTables::new();
    assert_eq!(a.masks, b.masks);
    assert_ne!(a.masks[0], a.masks[1]);
    assert_ne!(a.black(), 0);
    let c = CompactZobristTables::new();
    assert_ne!(c.men[0], c.colors[0]);
    let bits = (1u64 << 3) | (1u64 << 40);
    assert_eq!(
        hash_move(&a, ChessColor::BLACK, ChessEchelon::ROOK, bits),
        a.hash_square(ChessColor::BLACK, ChessEchelon::ROOK, Square(3)) ^ a.hash_square(ChessColor::BLACK, ChessEchelon::ROOK, Square(40))
    );
    let _ = pi_rng();
    let n = NoHashes;
    assert_eq!(hash_move(&n, ChessColor::WHITE, ChessEchelon::PAWN, u64::MAX), 0);
}

#[test]
fn sanity_check_rejects_overlap_and_stale_hash() {
    let zt = FullZobristTables::new();
    let mut b = FullBitBoard::startpos(&zt);
    assert!(b.sanity_check(&zt));
    b.meta.hash ^= 1;
    assert!(!b.sanity_check(&zt));
    b.meta.hash ^= 1;
    b.xor(ChessColor::BLACK, ChessEchelon::QUEEN, 1 << 12);
    assert!(!b.sanity_check(&zt));
}

#[test]
fn move_shape_check() {
    let good = BitMove { from: Square(12), to: Square(28), ech: ChessEchelon::PAWN, special: Some(SpecialMove::PAWN), capture: None };
    assert!(good.sanity_check());
    let bad = BitMove { from: Square(12), to: Square(20), ech: ChessEchelon::PAWN, special: Some(SpecialMove::PAWN), capture: None };
    assert!(!bad.sanity_check());
    let castle = BitMove { from: Square(4), to: Square(6), ech: ChessEchelon::KING, special: Some(SpecialMove::WEST), capture: None };
    assert!(castle.sanity_check());
}

#[test]
fn compact_tables_split_keys() {
    let zt = CompactZobristTables::new();
    let mask = (1u64 << 9) | (1u64 << 50);
    let split = zt.hash_color_mask(ChessColor::WHITE, mask) ^ zt.hash_man_mask(ChessEchelon::KNIGHT, mask);
    assert_eq!(zt.hash_mask(ChessColor::WHITE, ChessEchelon::KNIGHT, mask), split);
    assert_eq!(split, hash_move(&zt, ChessColor::WHITE, ChessEchelon::KNIGHT, mask));
    let b = CompactBitBoard::startpos(&zt);
    let full = FullBitBoard::startpos(&zt);
    assert_eq!(catchess::hash::hash_compact(&zt, &b.colors, &b.ech), catchess::hash::hash_full_bitboard(&zt, &full.masks));
    assert_eq!(b.meta.hash, full.meta.hash);
}
