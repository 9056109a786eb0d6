//! The library's global laws, stated and proved over the invariants and
//! contracts of the other modules.

use vstd::prelude::*;

use crate::codec::{leaf_orients_alternate, matches_json, JsonCPNode, JsonCPNodeType};
use crate::entities::{flip, Orientation, PartType, Rotation};
use crate::enumerator::fits;
use crate::layout::Layout;
use crate::node::{
    is_splice, lemma_node_at_dims, lemma_splice_round_trip, node_at, same_tree, spliced_out,
    valid_path, valid_splice, Node,
};
use crate::problem::{
    layouts_item_count, layouts_of_sheettype, lemma_layouts_of_sheettype_nonneg, Problem,
};

verus! {

/// After every commit and removal, every active layout of a well-formed
/// problem satisfies the tiling invariants: its top node is a structure,
/// children tile their parents exactly with alternating cuts, and every
/// structure below the top still holds an item.
pub proof fn law_layouts_satisfy_tiling(p: Problem)
    requires
        p.wf(),
    ensures
        forall|i: int| 0 <= i < p.layouts@.len() ==> (#[trigger] p.layouts@[i]).wf(),
{
}

/// For every part type, the items placed across all active layouts plus
/// the remaining quantity equal the demand.
pub proof fn law_part_conservation(p: Problem, pt: usize)
    requires
        p.wf(),
        pt < p.instance.parts@.len(),
    ensures
        layouts_item_count(p.layouts@, pt) + p.parttype_qtys@[pt as int]
            == p.instance.parts@[pt as int].1,
{
}

/// For every sheet type, the active layouts of that type plus the
/// remaining stock equal the stock, and in particular never exceed it.
pub proof fn law_sheet_stock(p: Problem, st: usize)
    requires
        p.wf(),
        st < p.instance.sheets@.len(),
    ensures
        layouts_of_sheettype(p.layouts@, st) + p.sheettype_qtys@[st as int]
            == p.instance.sheets@[st as int].1,
        layouts_of_sheettype(p.layouts@, st) + p.sheettype_qtys@[st as int]
            <= p.instance.sheets@[st as int].1,
{
}

/// Every active layout holds at least one item.
pub proof fn law_active_layouts_hold_items(p: Problem)
    requires
        p.wf(),
    ensures
        forall|i: int| 0 <= i < p.layouts@.len() ==> (#[trigger] p.layouts@[i]).total_items() > 0,
{
}

/// With no stock of a sheet type, no active layout of that type can ever
/// exist.
pub proof fn law_no_stock_no_layout(p: Problem, st: usize)
    requires
        p.wf(),
        st < p.instance.sheets@.len(),
        p.instance.sheets@[st as int].1 == 0,
    ensures
        layouts_of_sheettype(p.layouts@, st) == 0,
{
    lemma_layouts_of_sheettype_nonneg(p.layouts@, st);
}

/// Committing a blueprint and then splicing the original leftover back
/// over the inserted subtree restores the layout tree, structurally. The
/// part and sheet quantities return with it by the contracts of the commit
/// and removal operations, so the whole problem state is restored; a
/// commit that created a fresh layout additionally leaves the consumed
/// layout id behind, which is never reused.
pub proof fn law_commit_then_undo_restores(
    top: Node,
    path: Seq<usize>,
    reps: Seq<Node>,
    top2: Node,
    top3: Node,
)
    requires
        valid_splice(top, path, 1),
        is_splice(top, path, 1, reps, top2),
        reps.len() >= 1,
        is_splice(top2, path, reps.len() as int, spliced_out(top, path, 1), top3),
    ensures
        same_tree(top3, top),
{
    lemma_splice_round_trip(top, path, reps, top2, top3);
}

/// A part too large for a layout's sheet in some admissible rotation fits
/// no leftover leaf of that layout in that rotation: no insertion
/// blueprint can ever place it there.
pub proof fn law_oversized_part_never_fits(
    layout: Layout,
    part: PartType,
    path: Seq<usize>,
    rot: Rotation,
)
    requires
        layout.wf(),
        valid_path(layout.top_node, path),
        part.rotated_width(rot) > layout.top_node.width || part.rotated_height(rot)
            > layout.top_node.height,
    ensures
        !fits(part, rot, node_at(layout.top_node, path)),
{
    lemma_node_at_dims(layout.top_node, path);
}

/// A part too large for every sheet is infeasible at enumeration time: in
/// no layout of a problem, active or template, does any leftover leaf admit
/// the part in any rotation; since every blueprint the enumerator emits
/// names such a leaf and a fitting rotation, none ever exists for the part.
pub proof fn law_oversized_part_never_enumerated(
    p: Problem,
    part: PartType,
    l: Layout,
    path: Seq<usize>,
)
    requires
        p.wf(),
        forall|st: int, rot: Rotation|
            #![trigger p.instance.sheets@[st], part.rotated_width(rot)]
            0 <= st < p.instance.sheets@.len() ==> part.rotated_width(rot)
                > p.instance.sheets@[st].0.width || part.rotated_height(rot)
                > p.instance.sheets@[st].0.height,
        (exists|i: int| 0 <= i < p.layouts@.len() && p.layouts@[i] == l) || (exists|i: int|
            0 <= i < p.empty_layouts@.len() && p.empty_layouts@[i] == l),
        valid_path(l.top_node, path),
    ensures
        forall|rot: Rotation| !fits(part, rot, node_at(l.top_node, path)),
{
    if exists|i: int| 0 <= i < p.layouts@.len() && p.layouts@[i] == l {
        let i = choose|i: int| 0 <= i < p.layouts@.len() && p.layouts@[i] == l;
        assert(p.layouts@[i].wf());
    } else {
        let i = choose|i: int| 0 <= i < p.empty_layouts@.len() && p.empty_layouts@[i] == l;
        assert(p.empty_layouts@[i].wf());
    }
    assert(l.sheettype_id < p.instance.sheets@.len());
    assert(l.top_node.width == p.instance.sheets@[l.sheettype_id as int].0.width);
    assert(l.top_node.height == p.instance.sheets@[l.sheettype_id as int].0.height);
    lemma_node_at_dims(l.top_node, path);
}

/// Two trees that one solution document describes are structurally equal,
/// provided one of them satisfies the tiling invariants, the other threads
/// leaf orientations as a rebuilt tree does, and their root cuts agree:
/// serializing a solution and rebuilding its layouts yields trees
/// structurally equal to the originals.
pub proof fn law_solution_json_round_trip(a: Node, b: Node, j: JsonCPNode)
    requires
        matches_json(a, j),
        matches_json(b, j),
        b.wf(),
        leaf_orients_alternate(a),
        a.next_cut_orient == b.next_cut_orient,
    ensures
        same_tree(a, b),
    decreases a,
{
    assert forall|i: int| 0 <= i < a.children@.len() implies same_tree(
        #[trigger] a.children@[i],
        b.children@[i],
    ) by {
        let ac = a.children@[i];
        let bc = b.children@[i];
        let jc = j.children@[i];
        assert(matches_json(ac, jc));
        assert(matches_json(bc, jc));
        if ac.parttype_id is None && ac.children@.len() > 0 {
            // a structure records its cut in the document; both trees match it
            assert(jc.orientation == (match ac.next_cut_orient {
                Orientation::Horizontal => Some(crate::codec::JsonOrientation::H),
                Orientation::Vertical => Some(crate::codec::JsonOrientation::V),
            }));
            assert(bc.parttype_id is None && bc.children@.len() > 0);
            assert(ac.next_cut_orient == bc.next_cut_orient);
        } else {
            // a leaf carries no orientation; both sides inherit their
            // parent's flipped cut, one by threading, one by well-formedness
            if !ac.is_leaf() {
                // an item with children matches no coherent document: the
                // other tree would be a structure carrying a part
                assert(jc.children@.len() == ac.children@.len());
                assert(bc.children@.len() == jc.children@.len());
                assert(!bc.is_leaf());
                assert(bc.wf());
                assert(bc.parttype_id is None);
                assert(jc.node_type == JsonCPNodeType::Structure);
                assert(ac.parttype_id is None);
                assert(false);
            }
            assert(ac.is_leaf());
            assert(bc.is_leaf());
            assert(ac.next_cut_orient == flip(a.next_cut_orient));
            assert(bc.next_cut_orient == flip(b.next_cut_orient));
        }
        law_solution_json_round_trip(ac, bc, jc);
    }
}

} // verus!
