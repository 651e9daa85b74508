//! Legal institutions and provenance-bearing knowledge for a crime-organization simulation.

pub mod base;
pub mod registry;
pub mod text;
pub mod seqs;
pub mod intelligence;
pub mod world;
pub mod legal;
pub mod state;
pub mod invariants;
