use vstd::prelude::*;
use crate::fixed::Fixed;

verus! {

/// The constants of one session. They are fixed when the world is made.
#[derive(Debug, Clone, Copy, PartialEq, Eq, Structural)]
pub struct Rules {
    /// The greatest speed of a growing tip, in cells per second.
    pub root_growth_speed: Fixed,
    /// Half the width of the chamber: tips that stray further from the middle stop.
    pub chamber_width: usize,
    /// Terrain samples up to this value make stone.
    pub stone_frequency: Fixed,
    /// How slowly a tip turns towards its attractor.
    pub root_inertia: Fixed,
    /// Mineral samples up to this value make a deposit.
    pub mineral_frequency: Fixed,
    /// The most that one deposit cell can hold.
    pub mineral_richness: Fixed,
    /// How much a consuming tip drains per second.
    pub mineral_consume_speed: Fixed,
    /// The price of a split.
    pub split_cost: Fixed,
    /// The price of an attractor.
    pub attractor_cost: Fixed,
    /// Terrain is generated when the frontier is less than this many rows ahead.
    pub generation_depth_min: i32,
    /// How many rows one round of generation adds.
    pub generation_depth_max: i32,
    /// How many rows behind the deepest tip are kept.
    pub deletion_depth: i32,
}

impl Rules {
    /// The one constraint on the constants: a deposit can hold at least one whole mineral.
    pub open spec fn wf(&self) -> bool {
        self.mineral_richness.raw >= 1_000_000
    }

    /// The rules of an ordinary session.
    pub open spec fn spec_default() -> Rules {
        Rules {
            root_growth_speed: Fixed { raw: 2_000_000 },
            chamber_width: 51,
            stone_frequency: Fixed { raw: 200_000 },
            root_inertia: Fixed { raw: 1_000_000 },
            mineral_frequency: Fixed { raw: 100_000 },
            mineral_richness: Fixed { raw: 5_000_000 },
            mineral_consume_speed: Fixed { raw: 1_000_000 },
            split_cost: Fixed { raw: 1_000_000 },
            attractor_cost: Fixed { raw: 5_000_000 },
            generation_depth_min: 20,
            generation_depth_max: 10,
            deletion_depth: 20,
        }
    }

    /// Whether the constants meet `wf`.
    pub fn is_valid(&self) -> (r: bool)
        ensures
            r == self.wf(),
    {
        self.mineral_richness.raw >= 1_000_000
    }

    /// Half the chamber's width as a grid coordinate.
    pub open spec fn spec_half_width(&self) -> i32 {
        if self.chamber_width > i32::MAX {
            i32::MAX
        } else {
            self.chamber_width as i32
        }
    }

    /// Half the chamber's width as a grid coordinate.
    #[verifier::when_used_as_spec(spec_half_width)]
    pub fn half_width(&self) -> (r: i32)
        ensures
            r == self.spec_half_width(),
    {
        if self.chamber_width > i32::MAX as usize {
            i32::MAX
        } else {
            self.chamber_width as i32
        }
    }
}

impl Default for Rules {
    /// The rules of an ordinary session.
    fn default() -> (r: Self)
        ensures
            r == Rules::spec_default(),
            r.wf(),
    {
        Rules {
            root_growth_speed: Fixed { raw: 2_000_000 },
            chamber_width: 51,
            stone_frequency: Fixed { raw: 200_000 },
            root_inertia: Fixed { raw: 1_000_000 },
            mineral_frequency: Fixed { raw: 100_000 },
            mineral_richness: Fixed { raw: 5_000_000 },
            mineral_consume_speed: Fixed { raw: 1_000_000 },
            split_cost: Fixed { raw: 1_000_000 },
            attractor_cost: Fixed { raw: 5_000_000 },
            generation_depth_min: 20,
            generation_depth_max: 10,
            deletion_depth: 20,
        }
    }
}

} // verus!
