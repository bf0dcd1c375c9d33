use vstd::prelude::*;

verus! {

/// Deployment-wide switches, fixed for the ledger's lifetime.
#[derive(Clone, Copy, Debug)]
pub struct FeatureToggles {
    /// Compute the grower's place on the leaderboard after each growth.
    pub top_unlimited: bool,
}

impl Default for FeatureToggles {
    fn default() -> (r: FeatureToggles)
        ensures
            r.top_unlimited,
    {
        FeatureToggles { top_unlimited: true }
    }
}

} // verus!
