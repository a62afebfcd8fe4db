use vstd::prelude::*;

verus! {

/// The two leagues for which rankings are kept.
#[derive(Debug, Clone, Copy, PartialEq, Eq, Structural)]
pub enum League {
    Great,
    Ultra,
}

impl League {
    /// The combat-power cap of the league, as a mathematical value.
    pub open spec fn spec_cap(self) -> u16 {
        match self {
            League::Great => 1500,
            League::Ultra => 2500,
        }
    }

    /// The combat-power cap of the league: 1500 for the great league, 2500
    /// for the ultra league.
    pub fn get_cap(&self) -> (cap: u16)
        ensures
            cap == self.spec_cap(),
    {
        match self {
            League::Great => 1500,
            League::Ultra => 2500,
        }
    }
}


/// The great league caps combat power at 1500 and the ultra league at 2500.
pub proof fn lemma_league_caps()
    ensures
        League::Great.spec_cap() == 1500,
        League::Ultra.spec_cap() == 2500,
{
}

} // verus!
