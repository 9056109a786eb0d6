//! Insertion blueprints: immutable proposals to replace one leftover leaf
//! of one layout by a small subtree placing one part.

use vstd::prelude::*;

use crate::cost::Cost;
use crate::entities::{flip, PartType};
use crate::layout::Layout;
use crate::node::{
    along_len, along_sum, count_seq, cross_len, is_item_of, is_item_pred, node_at, valid_path,
    Node, NodeBlueprint,
};

verus! {

/// Which layout of a problem a blueprint targets: an active layout or an
/// empty template, by position in the respective list.
#[derive(Clone, Copy, Debug, PartialEq, Eq, Structural)]
pub enum LayoutRef {
    Active(usize),
    Template(usize),
}

/// A proposal: replace the leftover leaf reached by `original_node` inside
/// the referenced layout with `replacements`, placing one unit of
/// `parttype`. Pure data; the `Problem` executes it.
#[derive(Debug)]
pub struct InsertionBlueprint {
    pub original_node: Vec<usize>,
    pub replacements: Vec<NodeBlueprint>,
    pub parttype: PartType,
    pub cost: Cost,
    pub layout: Option<LayoutRef>,
}

/// The geometric conditions under which `replacements` may replace the
/// leaf at `path` inside `top`: the path reaches a leftover leaf, and the
/// replacements tile exactly the leaf's rectangle one level below its
/// parent's cut.
pub open spec fn replacements_fit(top: Node, path: Seq<usize>, reps: Seq<Node>) -> bool {
    &&& path.len() >= 1
    &&& valid_path(top, path)
    &&& node_at(top, path).is_leftover()
    &&& reps.len() >= 1
    &&& forall|j: int| 0 <= j < reps.len() ==> (#[trigger] reps[j]).wf()
    &&& forall|j: int| 0 <= j < reps.len() ==> (#[trigger] reps[j]).filled()
    &&& forall|j: int|
        0 <= j < reps.len() ==> (#[trigger] reps[j]).next_cut_orient == flip(
            node_at(top, path.drop_last()).next_cut_orient,
        )
    &&& forall|j: int|
        0 <= j < reps.len() ==> cross_len(
            #[trigger] reps[j],
            node_at(top, path.drop_last()).next_cut_orient,
        ) == cross_len(node_at(top, path), node_at(top, path.drop_last()).next_cut_orient)
    &&& along_sum(reps, node_at(top, path.drop_last()).next_cut_orient) == along_len(
        node_at(top, path),
        node_at(top, path.drop_last()).next_cut_orient,
    )
}

impl InsertionBlueprint {
    /// Whether this blueprint may be committed against layout `l`: its
    /// replacements fit the addressed leaf and place exactly one item, of
    /// this blueprint's part type.
    pub open spec fn fits_layout(self, l: Layout) -> bool {
        &&& replacements_fit(l.top_node, self.original_node@, self.replacements@)
        &&& count_seq(self.replacements@, is_item_pred()) == 1
        &&& forall|pt: usize|
            #![trigger is_item_of(pt)]
            count_seq(self.replacements@, is_item_of(pt)) == if pt == self.parttype.id {
                1int
            } else {
                0int
            }
    }

    pub fn new(original_node: Vec<usize>, replacements: Vec<NodeBlueprint>, parttype: PartType, cost: Cost) -> (r:
        InsertionBlueprint)
        ensures
            r.original_node@ == original_node@,
            r.replacements@ == replacements@,
            r.parttype == parttype,
            r.cost == cost,
            r.layout is None,
    {
        InsertionBlueprint { original_node, replacements, parttype, cost, layout: None }
    }

    pub fn set_layout(&mut self, layout: LayoutRef)
        ensures
            *final(self) == (InsertionBlueprint { layout: Some(layout), ..*old(self) }),
    {
        self.layout = Some(layout);
    }

    pub fn replacements(&self) -> (r: &Vec<NodeBlueprint>)
        ensures
            r@ == self.replacements@,
    {
        &self.replacements
    }

    pub fn parttype(&self) -> (r: &PartType)
        ensures
            *r == self.parttype,
    {
        &self.parttype
    }

    pub fn cost(&self) -> (r: &Cost)
        ensures
            *r == self.cost,
    {
        &self.cost
    }

    pub fn layout(&self) -> (r: &Option<LayoutRef>)
        ensures
            *r == self.layout,
    {
        &self.layout
    }

    pub fn original_node(&self) -> (r: &Vec<usize>)
        ensures
            r@ == self.original_node@,
    {
        &self.original_node
    }

    pub fn set_original_node(&mut self, original_node: Vec<usize>)
        ensures
            final(self).original_node@ == original_node@,
            final(self).replacements@ == old(self).replacements@,
            final(self).parttype == old(self).parttype,
            final(self).cost == old(self).cost,
            final(self).layout == old(self).layout,
    {
        self.original_node = original_node;
    }

    pub fn set_replacements(&mut self, replacements: Vec<NodeBlueprint>)
        ensures
            final(self).replacements@ == replacements@,
            final(self).original_node@ == old(self).original_node@,
            final(self).parttype == old(self).parttype,
            final(self).cost == old(self).cost,
            final(self).layout == old(self).layout,
    {
        self.replacements = replacements;
    }

    pub fn set_parttype(&mut self, parttype: PartType)
        ensures
            *final(self) == (InsertionBlueprint { parttype, ..*old(self) }),
    {
        self.parttype = parttype;
    }

    pub fn set_cost(&mut self, cost: Cost)
        ensures
            *final(self) == (InsertionBlueprint { cost, ..*old(self) }),
    {
        self.cost = cost;
    }

    /// The cost delta of committing: the material cost of a fresh sheet
    /// where one would be created, plus the area of the part placed.
    pub fn calculate_cost(material_cost: u64, parttype: &PartType) -> (r: Cost)
        requires
            parttype.area_spec() <= u64::MAX,
        ensures
            r.material_cost == material_cost,
            r.part_area_excluded == 0,
            r.part_area_included == parttype.area_spec(),
    {
        let area: u128 = (parttype.width as u128) * (parttype.height as u128);
        Cost { material_cost, part_area_excluded: 0, part_area_included: area as u64 }
    }
}

} // verus!
