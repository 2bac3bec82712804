//! The discrete choices of the genetic algorithm that evolves defence
//! strategies: how parents are selected and the alert level of a strategy.
use vstd::prelude::*;

verus! {

/// How the parents of the next generation are selected.
#[derive(Debug, Clone)]
pub enum SelectionMethod {
    /// Roulette wheel (probability proportional to fitness)
    RouletteWheel,
    /// Tournament among `size` random individuals
    Tournament { size: usize },
    /// Rank selection
    RankSelection,
}

/// Alert level of a defence strategy.
#[derive(Debug, Clone, Copy, PartialEq, Eq, Structural)]
pub enum AlertLevel {
    Low,
    Medium,
    High,
}

} // verus!
