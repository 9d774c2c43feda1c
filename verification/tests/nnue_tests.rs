use chess_eval::board::{Color, Piece};
use chess_eval::nnue::{feature, Nnue};

fn model_with(
    ft_w: impl Fn(usize) -> i16,
    ft_b: impl Fn(usize) -> i16,
    l1_w: impl Fn(usize) -> i8,
    l1_b: impl Fn(usize) -> i32,
) -> Nnue {
    let ft_weights: Vec<i16> = (0..768 * 32).map(|i| ft_w(i)).collect();
    let ft_bias: Vec<i16> = (0..32).map(|i| ft_b(i)).collect();
    let l1_weights: Vec<i8> = (0..16 * 64).map(|i| l1_w(i)).collect();
    let l1_bias: Vec<i32> = (0..16).map(|i| l1_b(i)).collect();
    Nnue::new(ft_weights, ft_bias, l1_weights, l1_bias).expect("well-shaped model")
}

fn start_pieces() -> Vec<(Color, Piece, u8)> {
    let mut v = Vec::new();
    for f in 0..8u8 {
        v.push((Color::White, Piece::Pawn, 8 + f));
        v.push((Color::Black, Piece::Pawn, 48 + f));
    }
    for &(p, f) in &[
        (Piece::Rook, 0u8),
        (Piece::Knight, 1),
        (Piece::Bishop, 2),
        (Piece::Queen, 3),
        (Piece::King, 4),
        (Piece::Bishop, 5),
        (Piece::Knight, 6),
        (Piece::Rook, 7),
    ] {
        v.push((Color::White, p, f));
        v.push((Color::Black, p, 56 + f));
    }
    v
}

#[test]
fn feature_layout_is_color_piece_square() {
    assert_eq!(feature(Color::White, Color::White, Piece::Pawn, 8), 8);
    assert_eq!(feature(Color::White, Color::Black, Piece::Knight, 0), (6 + 1) * 64);
    assert_eq!(feature(Color::White, Color::White, Piece::King, 4), 5 * 64 + 4);
}

#[test]
fn perspectives_mirror_each_other() {
    // What White sees of a piece, Black sees of the color-swapped piece
    // on the rank-flipped square.
    for &(c, p, sq) in &[
        (Color::White, Piece::Pawn, 12u8),
        (Color::Black, Piece::Queen, 3),
        (Color::White, Piece::King, 60),
        (Color::Black, Piece::Knight, 33),
    ] {
        let flipped = 8 * (7 - sq / 8) + sq % 8;
        let other = match c {
            Color::White => Color::Black,
            Color::Black => Color::White,
        };
        assert_eq!(
            feature(Color::White, c, p, sq),
            feature(Color::Black, other, p, flipped)
        );
    }
}

#[test]
fn malformed_model_is_refused() {
    let r = Nnue::new(vec![0i16; 100], vec![0i16; 32], vec![0i8; 1024], vec![0i32; 16]);
    assert!(r.is_none());
    let r2 = Nnue::new(
        vec![0i16; 768 * 32],
        vec![0i16; 32],
        vec![0i8; 1024],
        vec![2_000_000_000i32; 16],
    );
    assert!(r2.is_none());
}

#[test]
fn fresh_state_starts_from_the_bias() {
    let m = model_with(|i| (i % 101) as i16 - 50, |j| j as i16 * 3, |_| 0, |_| 0);
    let s = m.new_state();
    for j in 0..32 {
        assert_eq!(s.accumulator(Color::White)[j], j as i16 * 3);
        assert_eq!(s.accumulator(Color::Black)[j], j as i16 * 3);
    }
}

#[test]
fn add_sub_roundtrip_restores_the_empty_state() {
    let m = model_with(|i| (i % 251) as i16 - 125, |j| j as i16, |_| 0, |_| 0);
    let fresh = m.new_state();
    let mut s = m.new_state();
    let pieces = start_pieces();
    for &(c, p, sq) in &pieces {
        s.add(c, p, sq);
    }
    for &(c, p, sq) in pieces.iter().rev() {
        s.sub(c, p, sq);
    }
    assert_eq!(s.material, 0);
    for j in 0..32 {
        assert_eq!(
            s.accumulator(Color::White)[j],
            fresh.accumulator(Color::White)[j]
        );
        assert_eq!(
            s.accumulator(Color::Black)[j],
            fresh.accumulator(Color::Black)[j]
        );
    }
}

#[test]
fn interleaved_add_sub_also_cancels() {
    // The accumulator depends on which pieces are in, not on arrival order.
    let m = model_with(|i| (i % 97) as i16 - 48, |j| 2 * j as i16, |_| 0, |_| 0);
    let fresh = m.new_state();
    let mut s = m.new_state();
    s.add(Color::White, Piece::Rook, 0);
    s.add(Color::Black, Piece::Queen, 59);
    s.sub(Color::White, Piece::Rook, 0);
    s.add(Color::White, Piece::Knight, 18);
    s.sub(Color::Black, Piece::Queen, 59);
    s.sub(Color::White, Piece::Knight, 18);
    assert_eq!(s.material, 0);
    for j in 0..32 {
        assert_eq!(
            s.accumulator(Color::White)[j],
            fresh.accumulator(Color::White)[j]
        );
        assert_eq!(
            s.accumulator(Color::Black)[j],
            fresh.accumulator(Color::Black)[j]
        );
    }
}

#[test]
fn material_counts_fixed_piece_values() {
    let m = model_with(|_| 0, |_| 0, |_| 0, |_| 0);
    let mut s = m.new_state();
    s.add(Color::White, Piece::Pawn, 8);
    s.add(Color::White, Piece::Queen, 3);
    s.add(Color::Black, Piece::Rook, 63);
    s.add(Color::Black, Piece::King, 60);
    assert_eq!(s.material, 1 + 8 + 5 + 0);
}

#[test]
fn output_rescales_the_bucket_bias() {
    // Zero accumulators leave only the bias: 8128 network units are
    // exactly 203 score units under the fixed-point scales.
    let m = model_with(|_| 0, |_| 0, |_| 0, |b| if b == 0 { 8128 } else { 0 });
    let s = m.new_state();
    assert_eq!(s.evaluate(Color::White), 203);
    assert_eq!(s.evaluate(Color::Black), 203);
}

#[test]
fn negative_output_truncates_toward_zero() {
    let m = model_with(|_| 0, |_| 0, |_| 0, |b| if b == 0 { -8129 } else { 0 });
    let s = m.new_state();
    assert_eq!(s.evaluate(Color::White), -203);
}

#[test]
fn material_selects_the_output_bucket() {
    // Ten queens drive the material count past every bucket boundary.
    let m = model_with(|_| 0, |_| 0, |_| 0, |b| if b == 15 { 8128 } else { 0 });
    let mut s = m.new_state();
    for i in 0..10 {
        s.add(Color::White, Piece::Queen, i);
    }
    assert_eq!(s.evaluate(Color::White), 203);
}

#[test]
fn clipped_relu_clamps_the_accumulator() {
    // One lane far above the range and one below: they clip to 127 and 0.
    let m = model_with(
        |_| 0,
        |j| if j == 0 { 1000 } else if j == 1 { -1000 } else { 50 },
        |i| if i < 32 { 1 } else { 0 },
        |_| 0,
    );
    let s = m.new_state();
    // Bucket 0, mover half: 127 + 0 + 30 lanes of 50.
    let expected_raw = 127 + 30 * 50;
    assert_eq!(
        s.evaluate(Color::White),
        expected_raw * 203 / 64 / 127
    );
}

#[test]
fn antisymmetric_output_flips_the_sign() {
    // Feature rows of White's own pieces, as White sees them, carry 100;
    // everything else is 0, so the two perspective accumulators differ.
    // With an output layer whose halves negate each other, swapping the
    // mover flips the sign: 32 lanes of 100 give 3200 raw, 79 scaled.
    let m = model_with(
        |i| if i < 384 * 32 { 100 } else { 0 },
        |_| 0,
        |i| if i % 64 < 32 { 1 } else { -1 },
        |_| 0,
    );
    let mut s = m.new_state();
    s.add(Color::White, Piece::Pawn, 9);
    assert_eq!(s.evaluate(Color::White), 3200 * 203 / 64 / 127);
    assert_eq!(s.evaluate(Color::Black), -(3200 * 203 / 64 / 127));
}

#[test]
fn symmetric_position_with_antisymmetric_output_is_zero() {
    // The starting position looks the same from both perspectives, and an
    // output layer whose halves negate each other scores it zero for both.
    let m = model_with(
        |i| (i % 113) as i16 - 56,
        |j| j as i16 - 16,
        |i| {
            let lane = i % 64;
            if lane < 32 {
                (lane as i8) - 15
            } else {
                -((lane as i8 - 32) - 15)
            }
        },
        |_| 0,
    );
    let mut s = m.new_state();
    for &(c, p, sq) in &start_pieces() {
        s.add(c, p, sq);
    }
    assert_eq!(s.evaluate(Color::White), 0);
    assert_eq!(s.evaluate(Color::Black), 0);
}
