//! A verified interpreter for the "Duet" register machine: a parser that turns
//! text lines into typed instructions, a standalone execution mode that traps
//! on a blocking receive, and the per-instance step logic of the two-program
//! concurrent mode, where each instance exchanges values with its counterpart
//! over a pair of channels driven by the embedding program.

pub mod parse;
pub mod registers;
pub mod standalone;
pub mod duet;
pub mod day8;
