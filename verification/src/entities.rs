//! Part types, sheet types and the immutable problem instance.

use vstd::prelude::*;

verus! {

/// Orientation of the next guillotine cut made inside a node.
///
/// A `Horizontal` cut runs parallel to the width: it stacks the children
/// vertically, so their widths equal the parent's and their heights sum to
/// the parent's. A `Vertical` cut is the orthogonal case.
#[derive(Clone, Copy, Debug, PartialEq, Eq, Structural)]
pub enum Orientation {
    Horizontal,
    Vertical,
}

/// The orientation of the cuts one level deeper in the tree.
pub open spec fn flip(o: Orientation) -> Orientation {
    match o {
        Orientation::Horizontal => Orientation::Vertical,
        Orientation::Vertical => Orientation::Horizontal,
    }
}

impl Orientation {
    /// The orthogonal orientation.
    pub fn flipped(&self) -> (r: Orientation)
        ensures
            r == flip(*self),
    {
        match self {
            Orientation::Horizontal => Orientation::Vertical,
            Orientation::Vertical => Orientation::Horizontal,
        }
    }
}

/// How a part may be placed: in its stated orientation or quarter-turned.
#[derive(Clone, Copy, Debug, PartialEq, Eq, Structural)]
pub enum Rotation {
    Default,
    Rotated,
}

/// A rectangular part type with dense id and dimensions in integral units.
/// `fixed_rotation` is `Some(r)` when only rotation `r` is admissible and
/// `None` when both rotations are.
#[derive(Clone, Copy, Debug)]
pub struct PartType {
    pub id: usize,
    pub width: u64,
    pub height: u64,
    pub fixed_rotation: Option<Rotation>,
}

impl PartType {
    pub fn new(id: usize, width: u64, height: u64, fixed_rotation: Option<Rotation>) -> (r:
        PartType)
        ensures
            r == (PartType { id, width, height, fixed_rotation }),
    {
        PartType { id, width, height, fixed_rotation }
    }

    pub fn id(&self) -> (r: usize)
        ensures
            r == self.id,
    {
        self.id
    }

    pub fn width(&self) -> (r: u64)
        ensures
            r == self.width,
    {
        self.width
    }

    pub fn height(&self) -> (r: u64)
        ensures
            r == self.height,
    {
        self.height
    }

    pub fn fixed_rotation(&self) -> (r: Option<Rotation>)
        ensures
            r == self.fixed_rotation,
    {
        self.fixed_rotation
    }

    /// Whether placing the part with rotation `rot` is admissible.
    pub open spec fn rotation_allowed_spec(self, rot: Rotation) -> bool {
        match self.fixed_rotation {
            Some(f) => f == rot,
            None => true,
        }
    }

    pub fn rotation_allowed(&self, rot: Rotation) -> (r: bool)
        ensures
            r == self.rotation_allowed_spec(rot),
    {
        match self.fixed_rotation {
            Some(f) => f == rot,
            None => true,
        }
    }

    /// The width of the part once rotation `rot` is applied.
    pub open spec fn rotated_width(self, rot: Rotation) -> u64 {
        match rot {
            Rotation::Default => self.width,
            Rotation::Rotated => self.height,
        }
    }

    /// The height of the part once rotation `rot` is applied.
    pub open spec fn rotated_height(self, rot: Rotation) -> u64 {
        match rot {
            Rotation::Default => self.height,
            Rotation::Rotated => self.width,
        }
    }

    /// Area of the part.
    pub open spec fn area_spec(self) -> int {
        self.width * self.height
    }
}

/// A rectangular sheet type: dense id, dimensions, and per-sheet cost.
#[derive(Clone, Copy, Debug)]
pub struct SheetType {
    pub id: usize,
    pub width: u64,
    pub height: u64,
    pub value: u64,
}

impl SheetType {
    pub fn new(width: u64, height: u64, value: u64) -> (r: SheetType)
        ensures
            r == (SheetType { id: 0, width, height, value }),
    {
        SheetType { id: 0, width, height, value }
    }

    pub fn id(&self) -> (r: usize)
        ensures
            r == self.id,
    {
        self.id
    }

    pub fn width(&self) -> (r: u64)
        ensures
            r == self.width,
    {
        self.width
    }

    pub fn height(&self) -> (r: u64)
        ensures
            r == self.height,
    {
        self.height
    }

    pub fn value(&self) -> (r: u64)
        ensures
            r == self.value,
    {
        self.value
    }

    pub fn set_id(&mut self, id: usize)
        ensures
            *final(self) == (SheetType { id, ..*old(self) }),
    {
        self.id = id;
    }
}

/// Area of one part type times its demand.
pub open spec fn demanded_area(entry: (PartType, usize)) -> int {
    entry.0.area_spec() * entry.1
}

/// Sum of `demanded_area` over the first `n` entries.
pub open spec fn total_area_prefix(parts: Seq<(PartType, usize)>, n: int) -> int
    decreases n,
{
    if n <= 0 {
        0
    } else {
        total_area_prefix(parts, n - 1) + demanded_area(parts[n - 1])
    }
}

/// Total demanded part area of an instance's part list.
pub open spec fn total_part_area_spec(parts: Seq<(PartType, usize)>) -> int {
    total_area_prefix(parts, parts.len() as int)
}

/// Prefix sums of demanded areas never decrease.
pub proof fn lemma_total_area_prefix_monotone(parts: Seq<(PartType, usize)>, i: int, j: int)
    requires
        0 <= i <= j,
    ensures
        total_area_prefix(parts, i) <= total_area_prefix(parts, j),
    decreases j - i,
{
    if i < j {
        lemma_total_area_prefix_monotone(parts, i, j - 1);
        assert(demanded_area(parts[j - 1]) >= 0) by (nonlinear_arith);
    }
}

/// The immutable shared description of one solver run: the ordered part
/// types with demands and the ordered sheet types with stocks. A stock of
/// `usize::MAX` stands for unlimited supply.
#[derive(Clone, Debug)]
pub struct Instance {
    pub parts: Vec<(PartType, usize)>,
    pub sheets: Vec<(SheetType, usize)>,
    pub total_part_area: u64,
}

impl Instance {
    /// Ids are dense: entry `i` carries id `i`; the cached total part area
    /// agrees with the part list.
    pub open spec fn wf(self) -> bool {
        &&& forall|i: int| 0 <= i < self.parts@.len() ==> (#[trigger] self.parts@[i]).0.id == i
        &&& forall|i: int| 0 <= i < self.sheets@.len() ==> (#[trigger] self.sheets@[i]).0.id == i
        &&& self.total_part_area == total_part_area_spec(self.parts@)
    }

    pub fn new(parts: Vec<(PartType, usize)>, sheets: Vec<(SheetType, usize)>) -> (r: Instance)
        requires
            total_part_area_spec(parts@) <= u64::MAX,
        ensures
            r.parts@ == parts@,
            r.sheets@ == sheets@,
            r.total_part_area == total_part_area_spec(parts@),
    {
        let ghost all_parts: Seq<(PartType, usize)> = parts@;
        let mut acc: u64 = 0;
        let mut i: usize = 0;
        while i < parts.len()
            invariant
                parts@ == all_parts,
                0 <= i <= all_parts.len(),
                acc == total_area_prefix(all_parts, i as int),
                total_area_prefix(all_parts, all_parts.len() as int) <= u64::MAX,
            decreases all_parts.len() - i,
        {
            let (p, demand) = parts[i];
            proof {
                lemma_total_area_prefix_monotone(all_parts, i + 1, all_parts.len() as int);
                assert(total_area_prefix(all_parts, i + 1) == acc + demanded_area(
                    all_parts[i as int],
                ));
                assert(demanded_area(all_parts[i as int]) == (p.width * p.height)
                    * demand);
                assert((p.width as int) * (p.height as int) <= (u64::MAX as int) * (
                u64::MAX as int)) by (nonlinear_arith)
                    requires
                        p.width <= u64::MAX,
                        p.height <= u64::MAX,
                ;
            }
            let area: u128 = (p.width as u128) * (p.height as u128);
            let term: u128 = area * (demand as u128);
            acc = acc + (term as u64);
            i = i + 1;
        }
        Instance { parts, sheets, total_part_area: acc }
    }

    pub fn parts(&self) -> (r: &Vec<(PartType, usize)>)
        ensures
            r@ == self.parts@,
    {
        &self.parts
    }

    pub fn sheets(&self) -> (r: &Vec<(SheetType, usize)>)
        ensures
            r@ == self.sheets@,
    {
        &self.sheets
    }

    /// Demanded quantity of part type `id`, if such a part type exists.
    pub fn get_parttype_qty(&self, id: usize) -> (r: Option<usize>)
        ensures
            id < self.parts@.len() ==> r == Some(self.parts@[id as int].1),
            id >= self.parts@.len() ==> r is None,
    {
        if id < self.parts.len() {
            Some(self.parts[id].1)
        } else {
            None
        }
    }

    /// Stock of sheet type `id`, if such a sheet type exists.
    pub fn get_sheettype_qty(&self, id: usize) -> (r: Option<usize>)
        ensures
            id < self.sheets@.len() ==> r == Some(self.sheets@[id as int].1),
            id >= self.sheets@.len() ==> r is None,
    {
        if id < self.sheets.len() {
            Some(self.sheets[id].1)
        } else {
            None
        }
    }

    /// Total area of all demanded parts.
    pub fn total_part_area(&self) -> (r: u64)
        ensures
            r == self.total_part_area,
    {
        self.total_part_area
    }
}

} // verus!
