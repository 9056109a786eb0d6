//! Cost vectors attached to solutions and insertion blueprints, and the
//! total orders used to compare them.

use vstd::prelude::*;

verus! {

/// Aggregate cost of a (possibly partial) solution or of a proposed change.
///
/// `material_cost` is the summed unit cost of the sheets in use.
/// `part_area_included` is the total area of the parts already placed and
/// `part_area_excluded` the total area of the demanded parts not yet placed.
#[derive(Clone, Copy, Debug)]
pub struct Cost {
    pub material_cost: u64,
    pub part_area_excluded: u64,
    pub part_area_included: u64,
}

/// Result of comparing two costs under a comparator.
#[derive(Clone, Copy, Debug, PartialEq, Eq, Structural)]
pub enum CostOrdering {
    Less,
    Equal,
    Greater,
}

/// The total order injected at startup: either material cost dominates
/// (used for complete solutions) or excluded part area dominates (used
/// for incomplete ones).
#[derive(Clone, Copy, Debug, PartialEq, Eq, Structural)]
pub enum CostComparator {
    MatThenArea,
    AreaThenMat,
}

/// Lexicographic comparison of `(a1, a2)` against `(b1, b2)`.
pub open spec fn lex_cmp_spec(a1: u64, a2: u64, b1: u64, b2: u64) -> CostOrdering {
    if a1 < b1 {
        CostOrdering::Less
    } else if a1 > b1 {
        CostOrdering::Greater
    } else if a2 < b2 {
        CostOrdering::Less
    } else if a2 > b2 {
        CostOrdering::Greater
    } else {
        CostOrdering::Equal
    }
}

/// What `compare` returns for a given comparator and pair of costs.
pub open spec fn compare_spec(c: CostComparator, a: Cost, b: Cost) -> CostOrdering {
    match c {
        CostComparator::MatThenArea => lex_cmp_spec(
            a.material_cost,
            a.part_area_excluded,
            b.material_cost,
            b.part_area_excluded,
        ),
        CostComparator::AreaThenMat => lex_cmp_spec(
            a.part_area_excluded,
            a.material_cost,
            b.part_area_excluded,
            b.material_cost,
        ),
    }
}

impl Cost {
    /// A cost with all components given explicitly.
    pub fn new(material_cost: u64, part_area_excluded: u64, part_area_included: u64) -> (r: Cost)
        ensures
            r.material_cost == material_cost,
            r.part_area_excluded == part_area_excluded,
            r.part_area_included == part_area_included,
    {
        Cost { material_cost, part_area_excluded, part_area_included }
    }

    /// Component-wise sum of two costs.
    pub fn add(&self, other: &Cost) -> (r: Cost)
        requires
            self.material_cost + other.material_cost <= u64::MAX,
            self.part_area_excluded + other.part_area_excluded <= u64::MAX,
            self.part_area_included + other.part_area_included <= u64::MAX,
        ensures
            r.material_cost == self.material_cost + other.material_cost,
            r.part_area_excluded == self.part_area_excluded + other.part_area_excluded,
            r.part_area_included == self.part_area_included + other.part_area_included,
    {
        Cost {
            material_cost: self.material_cost + other.material_cost,
            part_area_excluded: self.part_area_excluded + other.part_area_excluded,
            part_area_included: self.part_area_included + other.part_area_included,
        }
    }

    /// Share of the demanded part area that is included, as a whole
    /// percentage rounded down; 100 when nothing is demanded.
    pub fn part_area_included_pct(&self) -> (r: u64)
        requires
            self.part_area_included + self.part_area_excluded <= u64::MAX,
        ensures
            r == part_area_included_pct_spec(*self),
    {
        let total: u64 = self.part_area_included + self.part_area_excluded;
        if total == 0 {
            100
        } else {
            (((self.part_area_included as u128) * 100) / (total as u128)) as u64
        }
    }
}

/// Included part area over total demanded part area, in whole percent.
pub open spec fn part_area_included_pct_spec(c: Cost) -> u64 {
    if c.part_area_included + c.part_area_excluded == 0 {
        100u64
    } else {
        ((c.part_area_included * 100) / (c.part_area_included + c.part_area_excluded)) as u64
    }
}

/// Compare two costs under the chosen total order.
pub fn compare(c: CostComparator, a: &Cost, b: &Cost) -> (r: CostOrdering)
    ensures
        r == compare_spec(c, *a, *b),
{
    let (a1, a2, b1, b2): (u64, u64, u64, u64) = match c {
        CostComparator::MatThenArea => (
            a.material_cost,
            a.part_area_excluded,
            b.material_cost,
            b.part_area_excluded,
        ),
        CostComparator::AreaThenMat => (
            a.part_area_excluded,
            a.material_cost,
            b.part_area_excluded,
            b.material_cost,
        ),
    };
    if a1 < b1 {
        CostOrdering::Less
    } else if a1 > b1 {
        CostOrdering::Greater
    } else if a2 < b2 {
        CostOrdering::Less
    } else if a2 > b2 {
        CostOrdering::Greater
    } else {
        CostOrdering::Equal
    }
}

} // verus!
