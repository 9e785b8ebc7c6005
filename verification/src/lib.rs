//! An interval abstract domain over fixed-width two's complement bitvectors.

pub mod bitvector;
pub mod interval;
pub mod domain;
pub mod laws;
pub mod ops;
pub mod fold;
pub mod precision;
