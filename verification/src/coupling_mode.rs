//! Classification of a coupling by the alignment of the two dominant modes.

use vstd::prelude::*;

verus! {

/// Coupling mode between two systems.
#[derive(Debug, Clone, Copy, PartialEq, Eq, Structural)]
pub enum CouplingMode {
    Reinforcing,
    Complementary,
    Competitive,
}

/// Classifies a coupling from the outcome of comparing its alignment with the
/// reinforcing threshold (`alignment > 0.3`) and the competitive threshold
/// (`alignment < -0.3`): above the reinforcing threshold wins, then below the
/// competitive one; anything between them is complementary.
pub fn classify_mode(above_reinforcing: bool, below_competitive: bool) -> (mode: CouplingMode)
    ensures
        (mode == CouplingMode::Reinforcing) <==> above_reinforcing,
        (mode == CouplingMode::Competitive) <==> (!above_reinforcing && below_competitive),
        (mode == CouplingMode::Complementary) <==> (!above_reinforcing && !below_competitive),
{
    if above_reinforcing {
        CouplingMode::Reinforcing
    } else if below_competitive {
        CouplingMode::Competitive
    } else {
        CouplingMode::Complementary
    }
}

/// Outcome of a coupling too small to have a spectrum worth comparing: when
/// the two systems have fewer than two nodes between them, the coupling is
/// complementary and not emergent, whatever the alignment. Returns that mode
/// and emergence flag for such a pair of sizes, and `None` for any other,
/// whose outcome the spectra decide.
pub fn degenerate_coupling(n_a: usize, n_b: usize) -> (outcome: Option<(CouplingMode, bool)>)
    ensures
        outcome is Some <==> n_a + n_b < 2,
        outcome is Some ==> outcome == Some((CouplingMode::Complementary, false)),
{
    if n_a < 2 && n_b < 2 - n_a {
        Some((CouplingMode::Complementary, false))
    } else {
        None
    }
}

} // verus!
