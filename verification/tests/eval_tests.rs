use chess_eval::board::{Board, Color};
use chess_eval::eval::{evaluate, evaluate_with_weights_and_trace, game_phase};
use chess_eval::phased::PhasedEval;
use chess_eval::terms::{EvalTerms, EvalTrace, EvalWeights};

fn phased_vec(n: usize, f: impl Fn(usize) -> (i16, i16)) -> Vec<PhasedEval> {
    let mut v = Vec::new();
    for i in 0..n {
        let (mg, eg) = f(i);
        v.push(PhasedEval::new(mg, eg));
    }
    v
}

fn weights_with(
    psqt: impl Fn(usize) -> (i16, i16),
    mob: impl Fn(usize) -> (i16, i16),
    vqm: impl Fn(usize) -> (i16, i16),
    passed: impl Fn(usize) -> (i16, i16),
    bishop_pair: (i16, i16),
    rook_open: (i16, i16),
    rook_semi: (i16, i16),
) -> EvalWeights {
    EvalTerms::from_tables(
        phased_vec(1536, psqt),
        phased_vec(80, mob),
        phased_vec(28, vqm),
        phased_vec(256, passed),
        PhasedEval::new(bishop_pair.0, bishop_pair.1),
        PhasedEval::new(rook_open.0, rook_open.1),
        PhasedEval::new(rook_semi.0, rook_semi.1),
    )
    .expect("table shapes are correct")
}

fn zero_weights() -> EvalWeights {
    weights_with(
        |_| (0, 0),
        |_| (0, 0),
        |_| (0, 0),
        |_| (0, 0),
        (0, 0),
        (0, 0),
        (0, 0),
    )
}

fn start_position() -> Board {
    Board::new(
        0x00FF00000000FF00,
        0x4200000000000042,
        0x2400000000000024,
        0x8100000000000081,
        0x0800000000000008,
        0x000000000000FFFF,
        0xFFFF000000000000,
        4,
        60,
        Color::White,
    )
    .expect("legal start position")
}

fn kings_only(white_king: u8, black_king: u8, stm: Color) -> Board {
    Board::new(
        0,
        0,
        0,
        0,
        0,
        1u64 << white_king,
        1u64 << black_king,
        white_king,
        black_king,
        stm,
    )
    .expect("two bare kings")
}

fn with_pieces(
    pawns_w: u64,
    pawns_b: u64,
    rooks_w: u64,
    knights_w: u64,
    white_king: u8,
    black_king: u8,
    stm: Color,
) -> Board {
    let white = pawns_w | rooks_w | knights_w | (1u64 << white_king);
    let black = pawns_b | (1u64 << black_king);
    Board::new(
        pawns_w | pawns_b,
        knights_w,
        0,
        rooks_w,
        0,
        white,
        black,
        white_king,
        black_king,
        stm,
    )
    .expect("consistent position")
}

#[test]
fn game_phase_is_zero_at_full_material() {
    let b = start_position();
    assert_eq!(game_phase(&b), 0);
}

#[test]
fn game_phase_is_full_with_bare_kings() {
    let b = kings_only(4, 60, Color::White);
    assert_eq!(game_phase(&b), 256);
}

#[test]
fn game_phase_rises_when_a_queen_leaves() {
    let b = start_position();
    let no_wq = Board::new(
        0x00FF00000000FF00,
        0x4200000000000042,
        0x2400000000000024,
        0x8100000000000081,
        0x0800000000000000,
        0x000000000000FFF7,
        0xFFFF000000000000,
        4,
        60,
        Color::White,
    )
    .expect("start without the white queen");
    assert!(game_phase(&no_wq) >= game_phase(&b));
    assert_eq!(game_phase(&no_wq), (4 * 256 + 12) / 24);
}

#[test]
fn game_phase_saturates_under_promotions() {
    // Nine queens outweigh the full-material baseline: the phase clamps at 0.
    let queens: u64 = 0x00000000000001FF << 16;
    let b = Board::new(
        0,
        0,
        0,
        0,
        queens,
        queens | (1u64 << 4),
        1u64 << 60,
        4,
        60,
        Color::White,
    )
    .expect("promotion-heavy position");
    assert_eq!(game_phase(&b), 0);
}

#[test]
fn start_position_evaluates_to_zero() {
    // Every term cancels between the colors in a mirrored position,
    // whatever the weights hold.
    let w = weights_with(
        |i| ((i % 11) as i16 - 5, (i % 7) as i16 - 3),
        |i| ((i % 9) as i16 - 4, (i % 5) as i16 - 2),
        |i| (i as i16 - 14, 3 - i as i16),
        |i| ((i % 13) as i16, (i % 3) as i16),
        (17, -9),
        (12, 4),
        (6, -2),
    );
    let b = start_position();
    assert_eq!(evaluate(&b, &w), 0);
}

#[test]
fn side_to_move_flips_the_sign() {
    let w = weights_with(
        |i| ((i % 11) as i16 - 5, (i % 7) as i16 - 3),
        |i| ((i % 9) as i16 - 4, (i % 5) as i16 - 2),
        |i| (i as i16 - 14, 3 - i as i16),
        |i| ((i % 13) as i16, (i % 3) as i16),
        (17, -9),
        (12, 4),
        (6, -2),
    );
    // A lone white knight makes the position asymmetric.
    let wtm = with_pieces(0, 0, 0, 1u64 << 18, 4, 60, Color::White);
    let btm = with_pieces(0, 0, 0, 1u64 << 18, 4, 60, Color::Black);
    let score = evaluate(&wtm, &w);
    assert_ne!(score, 0);
    assert_eq!(evaluate(&btm, &w), -score);
}

#[test]
fn lone_pawn_is_passed() {
    let mut passed = vec![(0i16, 0i16); 256];
    // White king e1 sits in bucket 2; e5 is square 36.
    passed[2 * 64 + 36] = (0, 20);
    let w = weights_with(
        |_| (0, 0),
        |_| (0, 0),
        |_| (0, 0),
        |i| passed[i],
        (0, 0),
        (0, 0),
        (0, 0),
    );
    let b = with_pieces(1u64 << 36, 0, 0, 0, 4, 60, Color::White);
    assert_eq!(evaluate(&b, &w), 20);
}

#[test]
fn enemy_pawn_ahead_blocks_passed_status() {
    let mut passed = vec![(0i16, 0i16); 256];
    passed[2 * 64 + 36] = (0, 20);
    let w = weights_with(
        |_| (0, 0),
        |_| (0, 0),
        |_| (0, 0),
        |i| passed[i],
        (0, 0),
        (0, 0),
        (0, 0),
    );
    // A black pawn on e7, directly ahead.
    let b = with_pieces(1u64 << 36, 1u64 << 52, 0, 0, 4, 60, Color::White);
    assert_eq!(evaluate(&b, &w), 0);
}

#[test]
fn enemy_pawn_on_diagonal_blocks_passed_status() {
    let mut passed = vec![(0i16, 0i16); 256];
    passed[2 * 64 + 36] = (0, 20);
    let w = weights_with(
        |_| (0, 0),
        |_| (0, 0),
        |_| (0, 0),
        |i| passed[i],
        (0, 0),
        (0, 0),
        (0, 0),
    );
    // A black pawn on f6, covering the pawn's path diagonally.
    let b = with_pieces(1u64 << 36, 1u64 << 45, 0, 0, 4, 60, Color::White);
    assert_eq!(evaluate(&b, &w), 0);
}

#[test]
fn enemy_pawn_behind_keeps_passed_status() {
    let mut passed = vec![(0i16, 0i16); 256];
    passed[2 * 64 + 36] = (0, 20);
    let w = weights_with(
        |_| (0, 0),
        |_| (0, 0),
        |_| (0, 0),
        |i| passed[i],
        (0, 0),
        (0, 0),
        (0, 0),
    );
    // A black pawn on d3, behind the white pawn, changes nothing.
    let b = with_pieces(1u64 << 36, 1u64 << 19, 0, 0, 4, 60, Color::White);
    assert_eq!(evaluate(&b, &w), 20);
}

#[test]
fn rook_scores_the_open_file() {
    let w = weights_with(
        |_| (0, 0),
        |_| (0, 0),
        |_| (0, 0),
        |_| (0, 0),
        (0, 0),
        (5, 5),
        (3, 3),
    );
    let b = with_pieces(0, 0, 1u64 << 0, 0, 4, 60, Color::White);
    assert_eq!(evaluate(&b, &w), 5);
}

#[test]
fn enemy_pawn_makes_the_file_semiopen() {
    let w = weights_with(
        |_| (0, 0),
        |_| (0, 0),
        |_| (0, 0),
        |_| (0, 0),
        (0, 0),
        (5, 5),
        (3, 3),
    );
    // A black pawn on a7.
    let b = with_pieces(0, 1u64 << 48, 1u64 << 0, 0, 4, 60, Color::White);
    assert_eq!(evaluate(&b, &w), 3);
}

#[test]
fn own_pawn_removes_both_file_bonuses() {
    let w = weights_with(
        |_| (0, 0),
        |_| (0, 0),
        |_| (0, 0),
        |_| (0, 0),
        (0, 0),
        (5, 5),
        (3, 3),
    );
    // White pawn a2 alongside the black pawn on a7.
    let b = with_pieces(1u64 << 8, 1u64 << 48, 1u64 << 0, 0, 4, 60, Color::White);
    assert_eq!(evaluate(&b, &w), 0);
}

#[test]
fn rook_mobility_counts_slider_attacks() {
    // Only the rook mobility run carries weight: a rook on a1 with kings
    // on e1 and e8 reaches 10 squares (7 up the file, 3 along the rank).
    let mut mob = vec![(0i16, 0i16); 80];
    for m in 0..15 {
        mob[28 + m] = (m as i16, m as i16);
    }
    let w = weights_with(
        |_| (0, 0),
        |i| mob[i],
        |_| (0, 0),
        |_| (0, 0),
        (0, 0),
        (0, 0),
        (0, 0),
    );
    let b = with_pieces(0, 0, 1u64 << 0, 0, 4, 60, Color::White);
    assert_eq!(evaluate(&b, &w), 10);
}

#[test]
fn trace_records_signed_piece_counts() {
    let w = zero_weights();
    // Kings on e1 and h8: different buckets, different slots, different
    // mobility counts.
    let b = kings_only(4, 63, Color::White);
    let (_, trace) = evaluate_with_weights_and_trace(&b, &w);
    // White king: piece 5, bucket 2 (file e), slot square e1.
    assert_eq!(trace.piece_tables[(5 * 4 + 2) * 64 + 4], 1);
    // Black king: piece 5, bucket 3 (file h), slot square h1 after the flip.
    assert_eq!(trace.piece_tables[(5 * 4 + 3) * 64 + 7], -1);
    // King mobility: e1 reaches 5 squares, h8 reaches 3.
    assert_eq!(trace.mobility[71 + 5], 1);
    assert_eq!(trace.mobility[71 + 3], -1);
    assert_eq!(trace.bishop_pair, 0);
    assert_eq!(trace.rook_on_open_file, 0);
    assert_eq!(trace.rook_on_semiopen_file, 0);
}

#[test]
fn trace_dotted_with_weights_reproduces_the_score() {
    let w = weights_with(
        |i| ((i % 11) as i16 - 5, (i % 7) as i16 - 3),
        |i| ((i % 9) as i16 - 4, (i % 5) as i16 - 2),
        |i| (i as i16 - 14, 3 - i as i16),
        |i| ((i % 13) as i16, (i % 3) as i16),
        (17, -9),
        (12, 4),
        (6, -2),
    );
    // An asymmetric middlegame-ish position.
    let b = with_pieces(
        (1u64 << 36) | (1u64 << 8),
        (1u64 << 52) | (1u64 << 48),
        1u64 << 0,
        1u64 << 18,
        4,
        59,
        Color::White,
    );
    let (score, trace) = evaluate_with_weights_and_trace(&b, &w);
    let mut mg: i64 = 0;
    let mut eg: i64 = 0;
    let mut dot = |count: i16, cell: &PhasedEval| {
        mg += count as i64 * cell.mg as i64;
        eg += count as i64 * cell.eg as i64;
    };
    for i in 0..1536 {
        dot(trace.piece_tables[i], &w.piece_tables[i]);
    }
    for i in 0..80 {
        dot(trace.mobility[i], &w.mobility[i]);
    }
    for i in 0..28 {
        dot(trace.virtual_queen_mobility[i], &w.virtual_queen_mobility[i]);
    }
    for i in 0..256 {
        dot(trace.passed_pawns[i], &w.passed_pawns[i]);
    }
    dot(trace.bishop_pair, &w.bishop_pair);
    dot(trace.rook_on_open_file, &w.rook_on_open_file);
    dot(trace.rook_on_semiopen_file, &w.rook_on_semiopen_file);
    let phase = game_phase(&b) as i64;
    let expected = (mg * (256 - phase) + eg * phase) / 256;
    assert_eq!(score as i64, expected);
    assert_eq!(evaluate(&b, &w), score);
}

#[test]
fn malformed_weight_tables_are_refused() {
    let r = EvalTerms::from_tables(
        phased_vec(100, |_| (0, 0)),
        phased_vec(80, |_| (0, 0)),
        phased_vec(28, |_| (0, 0)),
        phased_vec(256, |_| (0, 0)),
        PhasedEval::new(0, 0),
        PhasedEval::new(0, 0),
        PhasedEval::new(0, 0),
    );
    assert!(r.is_none());
}

#[test]
fn inconsistent_board_is_refused() {
    // The king square does not carry a white piece.
    assert!(Board::new(0, 0, 0, 0, 0, 0, 1u64 << 60, 4, 60, Color::White).is_none());
}

#[test]
fn zeroed_trace_starts_empty() {
    let t: EvalTrace = EvalTrace::zeroed();
    assert!(t.piece_tables.iter().all(|&x| x == 0));
    assert!(t.mobility.iter().all(|&x| x == 0));
    assert!(t.virtual_queen_mobility.iter().all(|&x| x == 0));
    assert!(t.passed_pawns.iter().all(|&x| x == 0));
    assert_eq!(t.bishop_pair, 0);
}
