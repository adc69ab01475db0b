//! Framing and sequencing for a serial link to a block-cipher accelerator.
//!
//! `frame` packs a 64-bit operand into ten 7+1-bit transfers and reads the
//! eight-byte response; `session` decides, step by step, what a driver of the
//! link does next.
pub mod frame;
pub mod session;
