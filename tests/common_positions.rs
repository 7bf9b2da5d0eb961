use catchess::board::{BitBoard, ChessBoard, CompactBitBoard, FullBitBoard, FullerBitBoard};
use catchess::hash::FullZobristTables;
use catchess::model::{ChessColor, ChessMan, EnPassant, Square, Transients};
use catchess::movegen::generate_moves;
use catchess::perft::{RecursionStrategy, perft};
use catchess::setup::SimpleBoard;

fn board_from_rows(rows: &str) -> SimpleBoard {
    let mut sb = SimpleBoard::new();
    for (r, row) in rows.split('/').enumerate() {
        let rank = 7 - r as u8;
        let mut file: u8 = 0;
        for ch in row.chars() {
            if let Some(n) = ch.to_digit(10) {
                file += n as u8;
                continue;
            }
            let man = match ch {
                'P' => ChessMan::WHITE_PAWN,
                'N' => ChessMan::WHITE_KNIGHT,
                'B' => ChessMan::WHITE_BISHOP,
                'R' => ChessMan::WHITE_ROOK,
                'Q' => ChessMan::WHITE_QUEEN,
                'K' => ChessMan::WHITE_KING,
                'p' => ChessMan::BLACK_PAWN,
                'n' => ChessMan::BLACK_KNIGHT,
                'b' => ChessMan::BLACK_BISHOP,
                'r' => ChessMan::BLACK_ROOK,
                'q' => ChessMan::BLACK_QUEEN,
                'k' => ChessMan::BLACK_KING,
                _ => panic!("bad piece {}", ch),
            };
            sb.set(Square(rank * 8 + file), Some(man));
            file += 1;
        }
    }
    sb
}

fn setup<BB: ChessBoard>(rows: &str, player: ChessColor, rights: [[bool; 2]; 2], zt: &FullZobristTables) -> BB {
    let trans = Transients { en_passant: None, halfmove_clock: 0, rights };
    board_from_rows(rows).position::<BB, FullZobristTables>(player, trans, zt)
}

const KIWIPETE: &str = "r3k2r/p1ppqpb1/bn2pnp1/3PN3/1p2P3/2N2Q1p/PPPBBPPP/R3K2R";
const POSITION_3: &str = "8/2p5/3p4/KP5r/1R3p1k/8/4P1P1/8";

#[test]
fn kiwipete_perft_counts() {
    let zt = FullZobristTables::new();
    let b: FullerBitBoard = setup(KIWIPETE, ChessColor::WHITE, [[true, true], [true, true]], &zt);
    assert!(b.sanity_check(&zt));
    assert_eq!(perft(&b, 1, RecursionStrategy::CloneMake, &zt).nodes(), 48);
    assert_eq!(perft(&b, 2, RecursionStrategy::CloneMake, &zt).nodes(), 2039);
    assert_eq!(perft(&b, 3, RecursionStrategy::MakeUnmake, &zt).nodes(), 97862);
}

#[test]
fn position_3_perft_counts() {
    let zt = FullZobristTables::new();
    let b: FullBitBoard = setup(POSITION_3, ChessColor::WHITE, [[false, false], [false, false]], &zt);
    assert_eq!(perft(&b, 1, RecursionStrategy::CloneMake, &zt).nodes(), 14);
    assert_eq!(perft(&b, 2, RecursionStrategy::CloneMake, &zt).nodes(), 191);
    assert_eq!(perft(&b, 3, RecursionStrategy::CloneMake, &zt).nodes(), 2812);
    assert_eq!(perft(&b, 4, RecursionStrategy::MakeUnmake, &zt).nodes(), 43238);
}

#[test]
fn position_3_layouts_agree() {
    let zt = FullZobristTables::new();
    let full: FullBitBoard = setup(POSITION_3, ChessColor::WHITE, [[false, false], [false, false]], &zt);
    let fuller: FullerBitBoard = setup(POSITION_3, ChessColor::WHITE, [[false, false], [false, false]], &zt);
    let compact: CompactBitBoard = setup(POSITION_3, ChessColor::WHITE, [[false, false], [false, false]], &zt);
    for depth in 1..=3 {
        let a = perft(&full, depth, RecursionStrategy::CloneMake, &zt).nodes();
        let b = perft(&fuller, depth, RecursionStrategy::CloneMake, &zt).nodes();
        let c = perft(&compact, depth, RecursionStrategy::MakeUnmake, &zt).nodes();
        assert_eq!(a, b);
        assert_eq!(a, c);
    }
}

#[test]
fn castling_through_attacked_square_is_not_generated() {
    let zt = FullZobristTables::new();
    // A black rook on f8 attacks f1, which the white king crosses castling west.
    let b: FullBitBoard = setup("4kr2/8/8/8/8/8/8/R3K2R", ChessColor::WHITE, [[true, true], [false, false]], &zt);
    let mut moves = Vec::new();
    generate_moves(&b, &mut moves);
    let castles: Vec<_> = moves.iter().filter(|m| m.0.ech == catchess::model::ChessEchelon::KING && m.0.special.is_some()).collect();
    assert_eq!(castles.len(), 1);
    assert_eq!(castles[0].0.to, Square(2));
    assert_eq!(castles[0].0.special, Some(catchess::model::SpecialMove::EAST));
}

#[test]
fn promotion_fans_out_to_eight_moves() {
    let zt = FullZobristTables::new();
    // A white pawn on b7 can push to b8 or capture on a8; the kings stay out of the way.
    let b: FullBitBoard = setup("n7/1P6/8/8/8/8/8/K6k", ChessColor::WHITE, [[false, false], [false, false]], &zt);
    let mut moves = Vec::new();
    generate_moves(&b, &mut moves);
    let pawn_moves: Vec<_> = moves.iter().filter(|m| m.0.ech == catchess::model::ChessEchelon::PAWN).collect();
    assert_eq!(pawn_moves.len(), 8);
    assert!(pawn_moves.iter().all(|m| m.0.special.is_some() && m.0.special != Some(catchess::model::SpecialMove::PAWN)));
}

#[test]
fn en_passant_capture_is_generated_and_made() {
    let zt = FullZobristTables::new();
    let sb = board_from_rows("4k3/8/8/3pP3/8/8/8/4K3");
    let trans = Transients {
        en_passant: Some(EnPassant { square: Square(43), capture: Square(35) }),
        halfmove_clock: 3,
        rights: [[false, false], [false, false]],
    };
    let b: FullBitBoard = sb.position::<FullBitBoard, FullZobristTables>(ChessColor::WHITE, trans, &zt);
    let mut moves = Vec::new();
    generate_moves(&b, &mut moves);
    let ep = moves.iter().find(|m| m.0.to == Square(43)).expect("en passant capture");
    let mut after = b;
    catchess::moving::make_legal_move(&mut after, *ep, &zt);
    assert_eq!(after.men(ChessColor::BLACK, catchess::model::ChessEchelon::PAWN), 0);
    assert_eq!(after.meta.trans.halfmove_clock, 0);
    assert!(after.sanity_check(&zt));
}

#[test]
fn mailbox_round_trip() {
    let zt = FullZobristTables::new();
    let start = FullBitBoard::startpos(&zt);
    let sb = SimpleBoard::from_bitboard(&start);
    assert_eq!(sb.0[4], Some(ChessMan::WHITE_KING));
    assert_eq!(sb.0[59], Some(ChessMan::BLACK_QUEEN));
    assert_eq!(sb.0[30], None);
    assert_eq!(sb.mask(ChessMan::WHITE_PAWN), 0xFF00);
    let back: CompactBitBoard = sb.as_bitboard::<CompactBitBoard, FullZobristTables>(&zt);
    assert_eq!(back.ech, [0x00FF_0000_0000_FF00, 0x4200_0000_0000_0042, 0x2400_0000_0000_0024, 0x8100_0000_0000_0081, 0x0800_0000_0000_0008, 0x1000_0000_0000_0010]);
    assert!(back.sanity_check(&zt));
    let mut m = SimpleBoard::new();
    m.set_mask(0x3, ChessMan::BLACK_ROOK);
    assert_eq!(m.mask(ChessMan::BLACK_ROOK), 3);
}

#[test]
fn check_is_detected_and_answered() {
    let zt = FullZobristTables::new();
    let b: FullBitBoard = setup("r3k3/8/8/8/8/8/8/K7", ChessColor::WHITE, [[false, false], [false, false]], &zt);
    assert!(catchess::movegen::is_in_check(&b));
    let mut moves = Vec::new();
    generate_moves(&b, &mut moves);
    assert_eq!(moves.len(), 2);
    assert!(moves.iter().all(|m| m.0.to == Square(1) || m.0.to == Square(9)));
    let attacked = catchess::movegen::attacks_by(&b, ChessColor::BLACK);
    assert_ne!(attacked & 1, 0);
}

#[test]
fn piece_at_reads_color_and_echelon() {
    let zt = FullZobristTables::new();
    let b = CompactBitBoard::startpos(&zt);
    assert_eq!(catchess::board::piece_at(&b, Square(4)), Some((ChessColor::WHITE, catchess::model::ChessEchelon::KING)));
    assert_eq!(catchess::board::piece_at(&b, Square(59)), Some((ChessColor::BLACK, catchess::model::ChessEchelon::QUEEN)));
    assert_eq!(catchess::board::piece_at(&b, Square(28)), None);
    assert_eq!(b.total(), 0xFFFF_0000_0000_FFFF);
    assert_eq!(b.color(ChessColor::BLACK), 0xFFFF_0000_0000_0000);
}

#[test]
fn rook_capture_on_start_square_loses_rights() {
    let zt = FullZobristTables::new();
    let b: FullBitBoard = setup("r3k2r/8/8/8/8/8/8/R3K2R", ChessColor::WHITE, [[true, true], [true, true]], &zt);
    let mut moves = Vec::new();
    generate_moves(&b, &mut moves);
    let capture = *moves.iter().find(|m| m.0.from == Square(7) && m.0.to == Square(63)).expect("rook takes rook");
    assert_eq!(capture.0.capture, Some(catchess::model::ChessCommoner::ROOK));
    let mut after = b;
    catchess::moving::make_legal_move(&mut after, capture, &zt);
    assert_eq!(after.meta.trans.rights, [[true, false], [true, false]]);
    assert_eq!(after.meta.trans.halfmove_clock, 0);
    assert_eq!(after.meta.hash, after.rehash(&zt));
    assert_eq!(perft(&b, 2, RecursionStrategy::MakeUnmake, &zt).nodes(), perft(&b, 2, RecursionStrategy::CloneMake, &zt).nodes());
}
