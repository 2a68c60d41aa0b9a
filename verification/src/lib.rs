//! Unsigned integers of any fixed width, built by pairing words.
//!
//! A 32-bit word ([`Uz32`]) is the narrowest value. Pairing two values of one
//! width ([`Uz`]) gives a value of twice that width, so `Uz<Uz32>` has 64 bits,
//! `Uz<Uz<Uz32>>` has 128, and so on. Every width offers the operations of
//! [`Uintz`]: addition with carry, subtraction with borrow, multiplication with
//! carry into a double-width result, and division by a 32-bit divisor.
//! Overflow is never an error: it is the carry or borrow that is returned.

mod arith;
pub mod laws;
pub mod order;
pub mod uintz;
pub mod uz;
pub mod uz32;

pub use uintz::{DivisionByZero, Uintz};
pub use uz::Uz;
pub use uz32::{from_u32, Uz32};
