use vstd::prelude::*;

verus! {

/// Tick count below which a world is an infant.
pub const CHILD_TICKS: u64 = 1_000;
/// Tick count below which a world is a child.
pub const TEEN_TICKS: u64 = 5_000;
/// Tick count below which a world is a teen.
pub const MATURE_TICKS: u64 = 20_000;
/// Tick count below which a world is mature; from here on it is ancient.
pub const ANCIENT_TICKS: u64 = 100_000;

/// Evolutionary age of the world, based on total tick count.
#[derive(Debug, Clone, Copy, PartialEq, Eq, Structural)]
pub enum AgeCategory {
    Infant,
    Child,
    Teen,
    Mature,
    Ancient,
}

/// The category a world of `ticks` ticks belongs to.
pub open spec fn age_category_of(ticks: int) -> AgeCategory {
    if ticks < CHILD_TICKS {
        AgeCategory::Infant
    } else if ticks < TEEN_TICKS {
        AgeCategory::Child
    } else if ticks < MATURE_TICKS {
        AgeCategory::Teen
    } else if ticks < ANCIENT_TICKS {
        AgeCategory::Mature
    } else {
        AgeCategory::Ancient
    }
}

/// The position of a category in the order Infant < Child < Teen < Mature < Ancient.
pub open spec fn age_rank(c: AgeCategory) -> int {
    match c {
        AgeCategory::Infant => 0,
        AgeCategory::Child => 1,
        AgeCategory::Teen => 2,
        AgeCategory::Mature => 3,
        AgeCategory::Ancient => 4,
    }
}

impl AgeCategory {
    /// Classify a tick count into an [`AgeCategory`].
    pub fn from_ticks(ticks: u64) -> (c: AgeCategory)
        ensures
            c == age_category_of(ticks as int),
    {
        if ticks < CHILD_TICKS {
            AgeCategory::Infant
        } else if ticks < TEEN_TICKS {
            AgeCategory::Child
        } else if ticks < MATURE_TICKS {
            AgeCategory::Teen
        } else if ticks < ANCIENT_TICKS {
            AgeCategory::Mature
        } else {
            AgeCategory::Ancient
        }
    }
}

/// A world never grows younger: more ticks give a category at least as old.
pub proof fn lemma_age_monotone(a: int, b: int)
    requires
        a <= b,
    ensures
        age_rank(age_category_of(a)) <= age_rank(age_category_of(b)),
{
}

} // verus!
