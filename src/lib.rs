//! Parallel k-mer counting: a dense 2-bit encoding of k-mers, worker-local
//! tallies built by sliding a window over each record, and their merge into
//! one tally that all workers share.
pub mod cli;
pub mod counter;
pub mod encoding;
pub mod tally;
