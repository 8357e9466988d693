//! Benchmark-run orchestration for a compiler toolchain: which benchmarks make
//! up the catalog, which commits still lack data, how earlier outcomes are
//! carried forward, and the maintenance passes over stored records.
use vstd::prelude::*;

pub mod catalog;
pub mod commits;
pub mod merge;
pub mod pass;
pub mod record;
pub mod text;

verus! {

/// How a benchmark pass is run: a quick smoke test, or a full measurement.
#[derive(Debug, Copy, Clone, PartialEq, Eq, Structural, PartialOrd, Ord, Hash)]
pub enum Mode {
    Test,
    Normal,
}

impl Mode {
    /// How many times each benchmark is run: once for a smoke test, three
    /// times for a measurement.
    pub fn iterations(self) -> (r: usize)
        ensures
            r == match self {
                Mode::Test => 1usize,
                Mode::Normal => 3usize,
            },
    {
        match self {
            Mode::Test => 1,
            Mode::Normal => 3,
        }
    }
}

} // verus!
