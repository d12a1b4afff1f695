//! A peer-to-peer wagering exchange and the motion-voting module that settles
//! its bets.
//!
//! Both halves are written as explicit state aggregates: every operation takes
//! the state by reference together with the plain values that describe the
//! call (who calls, what is attached, what time it is) and hands back either a
//! typed error or the description of the outside call that has to be made
//! next.

pub mod ident;
pub mod digest;
pub mod arith;
pub mod text;
pub mod table;
pub mod sums;
pub mod seqs;
pub mod context;
pub mod bet;
pub mod voting;
