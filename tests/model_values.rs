use catchess::binary::{
    antidiag_mask, black_pawn_attack_fill, diag_mask, file_mask, king_dumbfill_simdx4, knight_dumbfill_simdx4,
    queen_diff_obs_simdx4, rank_mask, rook_diff_obs_simdx2, bishop_diff_obs_simdx2, white_pawn_advance_fill,
    white_pawn_attack_fill, white_pawn_attack_fill_simdx2, black_pawn_attack_fill_simdx2, black_pawn_advance_fill,
};
use catchess::binary::{bishop_dumb7fill_simdx2, bitor_sum, queen_dumb7fill_simdx2, rook_dumb7fill_simdx2};
use catchess::model::{BoardFile, BoardRank, ChessColor, ChessCommoner, ChessEchelon, ChessMan, Square};

#[test]
fn square_file_rank() {
    let files = ['a', 'b', 'c', 'd', 'e', 'f', 'g', 'h'];
    for i in 0..64u8 {
        let sq = Square::from_u8(i);
        let name = format!("{}{}", files[sq.file() as usize], sq.rank() + 1);
        let expected = format!("{}{}", files[(i % 8) as usize], i / 8 + 1);
        assert_eq!(name, expected);
    }
    assert_eq!(Square::from_u8(64 + 5), Square(5));
    assert_eq!(Square(0).mirror_ns(), Square(56));
    assert_eq!(Square(0).mirror_ew(), Square(7));
    assert_eq!(Square(1).rotate(), Square(62));
}

#[test]
fn chessman_parts() {
    assert_eq!(ChessMan::BLACK_QUEEN.ech(), ChessEchelon::QUEEN);
    assert_eq!(ChessMan::BLACK_QUEEN.col(), ChessColor::BLACK);
    assert_eq!(ChessMan::new(ChessColor::WHITE, ChessEchelon::KING), ChessMan::WHITE_KING);
    assert_eq!(ChessCommoner::from_echelon(ChessEchelon::KING), None);
    assert_eq!(ChessCommoner::from_echelon(ChessEchelon::ROOK), Some(ChessCommoner::ROOK));
    assert_eq!(ChessColor::BLACK.opp(), ChessColor::WHITE);
    assert_eq!(ChessColor::BLACK.sign(), -1);
}

#[test]
fn line_masks() {
    assert_eq!(rank_mask(Square(10)), 0x0000_0000_0000_FF00);
    assert_eq!(file_mask(Square(10)), 0x0404_0404_0404_0404);
    assert_eq!(diag_mask(Square(0)), 0x8040_2010_0804_0201);
    assert_eq!(diag_mask(Square(1)), 0x0080_4020_1008_0402);
    assert_eq!(antidiag_mask(Square(7)), 0x0102_0408_1020_4080);
    assert_eq!(antidiag_mask(Square(63)), 0x8000_0000_0000_0000);
}

#[test]
fn slider_attacks_stop_at_blockers() {
    // Rook on a1 with a blocker on a3 and d1.
    let total = (1u64 << 0) | (1u64 << 16) | (1u64 << 3);
    assert_eq!(rook_diff_obs_simdx2(Square(0), total), (1u64 << 8) | (1u64 << 16) | (1u64 << 1) | (1u64 << 2) | (1u64 << 3));
    // Bishop on d4 on an empty board.
    let b = bishop_diff_obs_simdx2(Square(27), 1u64 << 27);
    assert_eq!(b.count_ones(), 13);
    assert_eq!(queen_diff_obs_simdx4(Square(27), 1u64 << 27).count_ones(), 27);
}

#[test]
fn step_fills() {
    assert_eq!(king_dumbfill_simdx4(1), (1u64 << 1) | (1u64 << 8) | (1u64 << 9));
    assert_eq!(knight_dumbfill_simdx4(1), (1u64 << 10) | (1u64 << 17));
    assert_eq!(white_pawn_attack_fill(1u64 << 8), 1u64 << 17);
    assert_eq!(white_pawn_attack_fill_simdx2(1u64 << 9), (1u64 << 16) | (1u64 << 18));
    assert_eq!(black_pawn_attack_fill(1u64 << 55), 1u64 << 46);
    assert_eq!(black_pawn_attack_fill_simdx2(1u64 << 54), (1u64 << 45) | (1u64 << 47));
    assert_eq!(white_pawn_advance_fill(1u64 << 12, !0), (1u64 << 20) | (1u64 << 28));
    assert_eq!(black_pawn_advance_fill(1u64 << 52, !(1u64 << 36)), 1u64 << 44);
}

#[test]
fn files_ranks_and_coords() {
    let (f, r) = Square(20).coords();
    assert_eq!(f, BoardFile::e_);
    assert_eq!(r, BoardRank::_3);
    assert_eq!(Square::from_coords(BoardFile::h_, BoardRank::_8), Square(63));
    assert_eq!(BoardRank::_2.ix(), 8);
    assert_eq!(BoardFile::from_u8(9), BoardFile::b_);
}

#[test]
fn seven_step_fills() {
    // Rook on a1, blockers on a3 and d1: same squares as obstruction difference.
    let total = (1u64 << 0) | (1u64 << 16) | (1u64 << 3);
    assert_eq!(rook_dumb7fill_simdx2(1, !total), (1u64 << 8) | (1u64 << 16) | (1u64 << 1) | (1u64 << 2) | (1u64 << 3));
    assert_eq!(rook_dumb7fill_simdx2(1, !total), rook_diff_obs_simdx2(Square(0), total));
    let d4 = 1u64 << 27;
    assert_eq!(bishop_dumb7fill_simdx2(d4, !d4), bishop_diff_obs_simdx2(Square(27), d4));
    assert_eq!(queen_dumb7fill_simdx2(d4, 0, 0, !d4), queen_diff_obs_simdx4(Square(27), d4));
    assert_eq!(bitor_sum(&[1u64, 2, 8]), 11);
}

#[test]
fn plies_and_piece_commoners() {
    use_ply();
    assert_eq!(ChessCommoner::from_piece(catchess::model::ChessPiece::KING), None);
    assert_eq!(ChessCommoner::from_piece(catchess::model::ChessPiece::QUEEN), Some(ChessCommoner::QUEEN));
}

fn use_ply() {
    let p = catchess::model::Ply(1, ChessColor::WHITE);
    assert_eq!(p.next(), catchess::model::Ply(1, ChessColor::BLACK));
    assert_eq!(p.next().next(), catchess::model::Ply(2, ChessColor::WHITE));
    assert_eq!(p.next().next().prev(), p.next());
}
