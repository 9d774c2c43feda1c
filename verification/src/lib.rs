//! A chess position evaluator: a handcrafted, phase-interpolated evaluator
//! over piece-square, mobility, passed-pawn and structural terms, and a
//! quantized neural evaluator with an incrementally maintained accumulator.

pub mod bits;
pub mod board;
pub mod phased;
pub mod attacks;
pub mod terms;
pub mod eval;
pub mod nnue;
