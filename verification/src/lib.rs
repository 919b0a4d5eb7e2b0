//! Arithmetic in a fixed 254-bit modular ring whose elements are stored as
//! four 64-bit limbs, least significant limb first.
//!
//! The `fp` module holds the element type and its operations (addition,
//! subtraction, multiplication, negation, inversion), each specified against
//! the mathematical value of its limbs.  The `limbs` module holds the raw
//! fixed-width carry/borrow arithmetic those operations are built on, and
//! `laws` states and proves the algebraic identities the operations satisfy.

pub mod fp;
pub mod laws;
pub mod limbs;
