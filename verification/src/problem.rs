//! The mutable state of one solver: remaining part and sheet quantities,
//! the active layouts, and the pristine empty templates, with the commit
//! and remove operations that keep the bookkeeping invariants.

use vstd::prelude::*;

use crate::blueprint::{InsertionBlueprint, LayoutRef};
use crate::entities::Instance;
use crate::layout::Layout;
use crate::node::{
    count_node, count_seq, is_item_of, is_item_pred, lemma_count_at_least_one,
    lemma_count_node_nonneg, lemma_item_preds_respect_same_tree, lemma_same_tree_count,
    lemma_same_tree_node_at, lemma_same_tree_sym, lemma_same_tree_wf, node_at, same_tree,
    valid_path,
};

verus! {

/// Number of items of part type `pt` across a sequence of layouts.
pub open spec fn layouts_item_count(s: Seq<Layout>, pt: usize) -> int
    decreases s.len(),
{
    if s.len() == 0 {
        0
    } else {
        s[0].item_count(pt) + layouts_item_count(s.drop_first(), pt)
    }
}

/// Number of layouts of sheet type `st` in a sequence of layouts.
pub open spec fn layouts_of_sheettype(s: Seq<Layout>, st: usize) -> int
    decreases s.len(),
{
    if s.len() == 0 {
        0
    } else {
        (if s[0].sheettype_id == st {
            1int
        } else {
            0int
        }) + layouts_of_sheettype(s.drop_first(), st)
    }
}

pub proof fn lemma_layouts_item_count_nonneg(s: Seq<Layout>, pt: usize)
    ensures
        layouts_item_count(s, pt) >= 0,
    decreases s.len(),
{
    if s.len() > 0 {
        lemma_count_node_nonneg(s[0].top_node, is_item_of(pt));
        lemma_layouts_item_count_nonneg(s.drop_first(), pt);
    }
}

/// Both layout sums split around any single element.
pub proof fn lemma_layouts_sums_split(s: Seq<Layout>, i: int, pt: usize, st: usize)
    requires
        0 <= i < s.len(),
    ensures
        layouts_item_count(s, pt) == layouts_item_count(s.remove(i), pt) + s[i].item_count(pt),
        layouts_of_sheettype(s, st) == layouts_of_sheettype(s.remove(i), st) + (
        if s[i].sheettype_id == st {
            1int
        } else {
            0int
        }),
    decreases s.len(),
{
    if i == 0 {
        assert(s.remove(0) =~= s.drop_first());
    } else {
        lemma_layouts_sums_split(s.drop_first(), i - 1, pt, st);
        assert(s.remove(i).drop_first() =~= s.drop_first().remove(i - 1));
        assert(s.remove(i)[0] == s[0]);
    }
}

/// Appending a layout adds its counts.
pub proof fn lemma_layouts_sums_push(s: Seq<Layout>, l: Layout, pt: usize, st: usize)
    ensures
        layouts_item_count(s.push(l), pt) == layouts_item_count(s, pt) + l.item_count(pt),
        layouts_of_sheettype(s.push(l), st) == layouts_of_sheettype(s, st) + (
        if l.sheettype_id == st {
            1int
        } else {
            0int
        }),
    decreases s.len(),
{
    if s.len() == 0 {
        assert(s.push(l).drop_first() =~= Seq::<Layout>::empty());
        assert(s.push(l)[0] == l);
        assert(layouts_item_count(Seq::<Layout>::empty(), pt) == 0);
        assert(layouts_of_sheettype(Seq::<Layout>::empty(), st) == 0);
    } else {
        lemma_layouts_sums_push(s.drop_first(), l, pt, st);
        assert(s.push(l).drop_first() =~= s.drop_first().push(l));
        assert(s.push(l)[0] == s[0]);
    }
}

/// Updating one layout shifts the sums by the difference at that position.
pub proof fn lemma_layouts_sums_update(s: Seq<Layout>, i: int, l: Layout, pt: usize, st: usize)
    requires
        0 <= i < s.len(),
    ensures
        layouts_item_count(s.update(i, l), pt) == layouts_item_count(s, pt) - s[i].item_count(pt)
            + l.item_count(pt),
        layouts_of_sheettype(s.update(i, l), st) == layouts_of_sheettype(s, st) - (
        if s[i].sheettype_id == st {
            1int
        } else {
            0int
        }) + (if l.sheettype_id == st {
            1int
        } else {
            0int
        }),
    decreases s.len(),
{
    if i == 0 {
        assert(s.update(0, l).drop_first() =~= s.drop_first());
        assert(s.update(0, l)[0] == l);
    } else {
        lemma_layouts_sums_update(s.drop_first(), i - 1, l, pt, st);
        assert(s.update(i, l).drop_first() =~= s.drop_first().update(i - 1, l));
        assert(s.update(i, l)[0] == s[0]);
    }
}

/// One layout's count is at most the sum, and a layout of a sheet type
/// witnesses a positive sheet count.
pub proof fn lemma_layouts_sums_element(s: Seq<Layout>, i: int, pt: usize, st: usize)
    requires
        0 <= i < s.len(),
    ensures
        s[i].item_count(pt) <= layouts_item_count(s, pt),
        s[i].sheettype_id == st ==> layouts_of_sheettype(s, st) >= 1,
        layouts_of_sheettype(s, st) >= 0,
    decreases s.len(),
{
    if s.len() > 0 {
        if i == 0 {
            lemma_layouts_item_count_nonneg(s.drop_first(), pt);
            lemma_layouts_of_sheettype_nonneg(s.drop_first(), st);
        } else {
            lemma_layouts_sums_element(s.drop_first(), i - 1, pt, st);
            lemma_count_node_nonneg(s[0].top_node, is_item_of(pt));
        }
    }
}

pub proof fn lemma_layouts_of_sheettype_nonneg(s: Seq<Layout>, st: usize)
    ensures
        layouts_of_sheettype(s, st) >= 0,
    decreases s.len(),
{
    if s.len() > 0 {
        lemma_layouts_of_sheettype_nonneg(s.drop_first(), st);
    }
}

/// Relies on `rand::rngs::ThreadRng`, the lazily seeded per-thread
/// generator, to carry the randomness a search worker draws from.
#[verifier::external_type_specification]
#[verifier::external_body]
pub struct ExThreadRng(rand::rngs::ThreadRng);

/// Relies on `rand::thread_rng`: a handle to the thread-local generator.
/// Nothing is promised of the values it will produce.
#[verifier::external_body]
fn fresh_rng() -> rand::rngs::ThreadRng {
    rand::thread_rng()
}

/// Leaf positions whose cached insertion options became stale, and fresh
/// leaf positions to index, as paths from a layout's top node.
#[derive(Debug)]
pub struct CacheUpdates {
    pub invalidated: Vec<Vec<usize>>,
    pub new_entries: Vec<Vec<usize>>,
}

/// The per-worker optimization state. See the invariants in `wf`.
pub struct Problem {
    pub instance: Instance,
    pub parttype_qtys: Vec<usize>,
    pub sheettype_qtys: Vec<usize>,
    pub layouts: Vec<Layout>,
    pub empty_layouts: Vec<Layout>,
    pub random: rand::rngs::ThreadRng,
    pub counter_layout_id: usize,
}

impl Problem {
    /// The bookkeeping invariants:
    /// - placed items of each part type plus the remaining quantity equal
    ///   the demand, and no item of an unknown part type is ever placed;
    /// - active layouts of each sheet type plus the remaining stock equal
    ///   the stock;
    /// - every active layout is well-formed, spans its sheet type's
    ///   rectangle and holds at least one item;
    /// - layout ids are unique and bounded by the id counter;
    /// - every empty template is well-formed, spans its sheet, and is empty.
    pub open spec fn wf(self) -> bool {
        &&& self.instance.wf()
        &&& self.parttype_qtys@.len() == self.instance.parts@.len()
        &&& self.sheettype_qtys@.len() == self.instance.sheets@.len()
        &&& forall|pt: usize|
            pt < self.instance.parts@.len() ==> #[trigger] layouts_item_count(self.layouts@, pt)
                + self.parttype_qtys@[pt as int] == self.instance.parts@[pt as int].1
        &&& forall|pt: usize|
            pt >= self.instance.parts@.len() ==> #[trigger] layouts_item_count(self.layouts@, pt)
                == 0
        &&& forall|st: usize|
            st < self.instance.sheets@.len() ==> #[trigger] layouts_of_sheettype(
                self.layouts@,
                st,
            ) + self.sheettype_qtys@[st as int] == self.instance.sheets@[st as int].1
        &&& forall|i: int|
            0 <= i < self.layouts@.len() ==> (#[trigger] self.layouts@[i]).wf()
        &&& forall|i: int|
            0 <= i < self.layouts@.len() ==> (#[trigger] self.layouts@[i]).total_items() > 0
        &&& forall|i: int|
            0 <= i < self.layouts@.len() ==> (#[trigger] self.layouts@[i]).sheettype_id
                < self.instance.sheets@.len()
        &&& forall|i: int|
            0 <= i < self.layouts@.len() ==> (#[trigger] self.layouts@[i]).top_node.width
                == self.instance.sheets@[self.layouts@[i].sheettype_id as int].0.width
                && self.layouts@[i].top_node.height == self.instance.sheets@[self.layouts@[
                i].sheettype_id as int].0.height
        &&& forall|i: int|
            0 <= i < self.layouts@.len() ==> (#[trigger] self.layouts@[i]).id
                <= self.counter_layout_id
        &&& forall|i: int, j: int|
            0 <= i < j < self.layouts@.len() ==> (#[trigger] self.layouts@[i]).id != (
            #[trigger] self.layouts@[j]).id
        &&& forall|k: int|
            0 <= k < self.empty_layouts@.len() ==> (#[trigger] self.empty_layouts@[k]).wf()
        &&& forall|k: int|
            0 <= k < self.empty_layouts@.len() ==> (#[trigger] self.empty_layouts@[k]).total_items()
                == 0
        &&& forall|k: int, pt: usize|
            0 <= k < self.empty_layouts@.len() ==> #[trigger] self.empty_layouts@[k].item_count(
                pt,
            ) == 0
        &&& forall|k: int|
            0 <= k < self.empty_layouts@.len() ==> (#[trigger] self.empty_layouts@[k]).sheettype_id
                < self.instance.sheets@.len()
        &&& forall|k: int|
            0 <= k < self.empty_layouts@.len() ==> (#[trigger] self.empty_layouts@[k]).top_node.width
                == self.instance.sheets@[self.empty_layouts@[k].sheettype_id as int].0.width
                && self.empty_layouts@[k].top_node.height == self.instance.sheets@[
                self.empty_layouts@[k].sheettype_id as int].0.height
    }

    /// A fresh problem over `instance`: full quantities, no active layout,
    /// and one empty template per sheet type with positive stock.
    pub fn new(instance: Instance) -> (r: Problem)
        requires
            instance.wf(),
        ensures
            r.wf(),
            r.instance == instance,
            r.layouts@.len() == 0,
            r.parttype_qtys@.len() == instance.parts@.len(),
            forall|pt: int|
                0 <= pt < instance.parts@.len() ==> r.parttype_qtys@[pt] == instance.parts@[pt].1,
            r.sheettype_qtys@.len() == instance.sheets@.len(),
            forall|st: int|
                0 <= st < instance.sheets@.len() ==> r.sheettype_qtys@[st]
                    == instance.sheets@[st].1,
    {
        let mut parttype_qtys: Vec<usize> = Vec::new();
        let mut i: usize = 0;
        while i < instance.parts().len()
            invariant
                0 <= i <= instance.parts@.len(),
                parttype_qtys@.len() == i,
                forall|k: int| 0 <= k < i ==> parttype_qtys@[k] == instance.parts@[k].1,
            decreases instance.parts@.len() - i,
        {
            let q = instance.parts()[i].1;
            parttype_qtys.push(q);
            i = i + 1;
        }
        let mut sheettype_qtys: Vec<usize> = Vec::new();
        let mut j: usize = 0;
        while j < instance.sheets().len()
            invariant
                0 <= j <= instance.sheets@.len(),
                sheettype_qtys@.len() == j,
                forall|k: int| 0 <= k < j ==> sheettype_qtys@[k] == instance.sheets@[k].1,
            decreases instance.sheets@.len() - j,
        {
            let q = instance.sheets()[j].1;
            sheettype_qtys.push(q);
            j = j + 1;
        }
        let mut empty_layouts: Vec<Layout> = Vec::new();
        let mut counter_layout_id: usize = 0;
        let mut st: usize = 0;
        while st < instance.sheets().len()
            invariant
                instance.wf(),
                0 <= st <= instance.sheets@.len(),
                counter_layout_id <= st,
                forall|k: int|
                    0 <= k < empty_layouts@.len() ==> (#[trigger] empty_layouts@[k]).wf(),
                forall|k: int|
                    0 <= k < empty_layouts@.len() ==> (
                    #[trigger] empty_layouts@[k]).total_items() == 0,
                forall|k: int, pt: usize|
                    0 <= k < empty_layouts@.len() ==> #[trigger] empty_layouts@[k].item_count(pt)
                        == 0,
                forall|k: int|
                    0 <= k < empty_layouts@.len() ==> (#[trigger] empty_layouts@[k]).sheettype_id
                        < instance.sheets@.len(),
                forall|k: int|
                    0 <= k < empty_layouts@.len() ==> (#[trigger] empty_layouts@[k]).top_node.width
                        == instance.sheets@[empty_layouts@[k].sheettype_id as int].0.width
                        && empty_layouts@[k].top_node.height == instance.sheets@[empty_layouts@[
                        k].sheettype_id as int].0.height,
            decreases instance.sheets@.len() - st,
        {
            let entry = &instance.sheets()[st];
            if entry.1 > 0 {
                counter_layout_id = counter_layout_id + 1;
                let l = Layout::new(counter_layout_id, st, entry.0.width(), entry.0.height());
                empty_layouts.push(l);
            }
            st = st + 1;
        }
        let r = Problem {
            instance,
            parttype_qtys,
            sheettype_qtys,
            layouts: Vec::new(),
            empty_layouts,
            random: fresh_rng(),
            counter_layout_id,
        };
        proof {
            assert forall|pt: usize| pt < r.instance.parts@.len() implies #[trigger]
            layouts_item_count(r.layouts@, pt) + r.parttype_qtys@[pt as int]
                == r.instance.parts@[pt as int].1 by {
                assert(layouts_item_count(r.layouts@, pt) == 0);
            }
            assert forall|pt: usize| pt >= r.instance.parts@.len() implies #[trigger]
            layouts_item_count(r.layouts@, pt) == 0 by {
                assert(r.layouts@.len() == 0);
            }
            assert forall|st2: usize| st2 < r.instance.sheets@.len() implies #[trigger]
            layouts_of_sheettype(r.layouts@, st2) + r.sheettype_qtys@[st2 as int]
                == r.instance.sheets@[st2 as int].1 by {
                assert(layouts_of_sheettype(r.layouts@, st2) == 0);
            }
        }
        r
    }

    /// Commit a blueprint. When it targets an empty template, the template
    /// is deep-copied first (copy-on-insert): the copy is registered as a
    /// fresh active layout with a fresh id, the sheet stock is decremented,
    /// and the insertion is carried out on the copy; the template itself is
    /// untouched. Returns the cache updates and whether a layout was
    /// created.
    pub fn implement_insertion_blueprint(&mut self, blueprint: InsertionBlueprint) -> (r: (
        CacheUpdates,
        bool,
    ))
        requires
            old(self).wf(),
            blueprint.parttype.id < old(self).instance.parts@.len(),
            old(self).parttype_qtys@[blueprint.parttype.id as int] > 0,
            match blueprint.layout {
                Some(LayoutRef::Active(li)) => li < old(self).layouts@.len()
                    && blueprint.fits_layout(old(self).layouts@[li as int]),
                Some(LayoutRef::Template(ti)) => ti < old(self).empty_layouts@.len()
                    && blueprint.fits_layout(old(self).empty_layouts@[ti as int]) && old(
                    self,
                ).sheettype_qtys@[old(self).empty_layouts@[ti as int].sheettype_id as int] > 0
                    && old(self).counter_layout_id < usize::MAX,
                None => false,
            },
        ensures
            final(self).wf(),
            final(self).instance == old(self).instance,
            final(self).empty_layouts == old(self).empty_layouts,
            final(self).parttype_qtys@ == old(self).parttype_qtys@.update(
                blueprint.parttype.id as int,
                (old(self).parttype_qtys@[blueprint.parttype.id as int] - 1) as usize,
            ),
            r.1 == (blueprint.layout matches Some(LayoutRef::Template(_))),
            blueprint.layout matches Some(LayoutRef::Active(_)) ==> {
                &&& final(self).layouts@.len() == old(self).layouts@.len()
                &&& final(self).sheettype_qtys@ == old(self).sheettype_qtys@
                &&& final(self).counter_layout_id == old(self).counter_layout_id
            },
            blueprint.layout matches Some(LayoutRef::Template(ti)) ==> {
                &&& final(self).layouts@.len() == old(self).layouts@.len() + 1
                &&& final(self).counter_layout_id == old(self).counter_layout_id + 1
                &&& final(self).sheettype_qtys@ == old(self).sheettype_qtys@.update(
                    old(self).empty_layouts@[ti as int].sheettype_id as int,
                    (old(self).sheettype_qtys@[old(self).empty_layouts@[ti as int].sheettype_id as int] - 1) as usize,
                )
            },
            layouts_item_count(final(self).layouts@, blueprint.parttype.id)
                == layouts_item_count(old(self).layouts@, blueprint.parttype.id) + 1,
    {
        let pt = blueprint.parttype.id();
        let ghost pt_g = blueprint.parttype.id;
        let lref = match blueprint.layout() {
            Some(l) => *l,
            None => LayoutRef::Active(0),
        };
        let InsertionBlueprint { original_node, replacements, parttype, cost, layout: _ } =
            blueprint;
        let updates = CacheUpdates { invalidated: Vec::new(), new_entries: Vec::new() };
        match lref {
            LayoutRef::Active(li) => {
                let ghost s0 = self.layouts@;
                let ghost l0 = self.layouts@[li as int];
                let mut layout = self.layouts.remove(li);
                layout.implement_insertion(&original_node, replacements);
                let ghost l1 = layout;
                self.layouts.insert(li, layout);
                let q = self.parttype_qtys[pt];
                self.parttype_qtys[pt] = q - 1;
                proof {
                    assert(self.layouts@ =~= s0.update(li as int, l1));
                    assert forall|pt2: usize|
                        layouts_item_count(self.layouts@, pt2) == layouts_item_count(s0, pt2) + (
                        if pt2 == pt_g {
                            1int
                        } else {
                            0int
                        }) by {
                        lemma_layouts_sums_update(s0, li as int, l1, pt2, 0);
                    }
                    assert forall|st2: usize|
                        layouts_of_sheettype(self.layouts@, st2) == layouts_of_sheettype(
                            s0,
                            st2,
                        ) by {
                        lemma_layouts_sums_update(s0, li as int, l1, 0, st2);
                    }
                    lemma_layouts_item_count_nonneg(s0, pt_g);
                    assert(l1.total_items() > 0) by {
                        lemma_count_node_nonneg(l0.top_node, is_item_pred());
                    }
                    assert(self.instance.wf());
                    assert(self.parttype_qtys@.len() == self.instance.parts@.len());
                    assert(self.sheettype_qtys@.len() == self.instance.sheets@.len());
                    assert forall|pt2: usize| pt2 < self.instance.parts@.len() implies #[trigger]
                    layouts_item_count(self.layouts@, pt2) + self.parttype_qtys@[pt2 as int]
                        == self.instance.parts@[pt2 as int].1 by {
                        assert(layouts_item_count(s0, pt2) + old(self).parttype_qtys@[pt2 as int]
                            == self.instance.parts@[pt2 as int].1);
                    }
                    assert forall|pt2: usize| pt2 >= self.instance.parts@.len() implies #[trigger]
                    layouts_item_count(self.layouts@, pt2) == 0 by {
                        assert(layouts_item_count(s0, pt2) == 0);
                    }
                    assert forall|st2: usize| st2 < self.instance.sheets@.len() implies #[trigger]
                    layouts_of_sheettype(self.layouts@, st2) + self.sheettype_qtys@[st2 as int]
                        == self.instance.sheets@[st2 as int].1 by {
                        assert(layouts_of_sheettype(s0, st2) + old(self).sheettype_qtys@[
                            st2 as int] == self.instance.sheets@[st2 as int].1);
                    }
                    assert(self.wf());
                }
                (updates, false)
            },
            LayoutRef::Template(ti) => {
                let ghost s0 = self.layouts@;
                let template = &self.empty_layouts[ti];
                let st = template.sheettype_id;
                let new_id = self.counter_layout_id + 1;
                self.counter_layout_id = new_id;
                let top_copy = template.top_node.deep_copy();
                proof {
                    let t0 = self.empty_layouts@[ti as int].top_node;
                    lemma_same_tree_sym(top_copy, t0);
                    lemma_same_tree_wf(t0, top_copy);
                    lemma_item_preds_respect_same_tree();
                    lemma_same_tree_count(t0, top_copy, is_item_pred());
                    assert(count_node(t0, is_item_pred()) == 0);
                    assert forall|pt2: usize|
                        count_node(top_copy, is_item_of(pt2)) == 0 by {
                        crate::node::lemma_no_items_no_part(top_copy, pt2);
                    }
                }
                let mut layout = Layout { id: new_id, sheettype_id: st, top_node: top_copy };
                proof {
                    let t0 = self.empty_layouts@[ti as int].top_node;
                    let tpl = self.empty_layouts@[ti as int];
                    lemma_same_tree_node_at(t0, top_copy, original_node@);
                    crate::layout::lemma_valid_path_prefix(t0, original_node@);
                    lemma_same_tree_node_at(t0, top_copy, original_node@.drop_last());
                    assert(tpl.wf());
                    assert(!t0.is_leaf());
                    assert(count_seq(t0.children@, is_item_pred()) == 0);
                    crate::node::lemma_filled_children_items(t0.children@);
                    assert forall|j: int| 0 <= j < top_copy.children@.len() implies (
                    #[trigger] top_copy.children@[j]).filled() by {
                        assert(same_tree(top_copy.children@[j], t0.children@[j]));
                        assert(t0.children@[j].is_leftover());
                        assert(top_copy.children@[j].is_leaf());
                    }
                    assert(layout.wf());
                    assert(crate::blueprint::replacements_fit(
                        layout.top_node,
                        original_node@,
                        replacements@,
                    ));
                }
                layout.implement_insertion(&original_node, replacements);
                let ghost l1 = layout;
                self.layouts.push(layout);
                let q = self.parttype_qtys[pt];
                self.parttype_qtys[pt] = q - 1;
                let q2 = self.sheettype_qtys[st];
                self.sheettype_qtys[st] = q2 - 1;
                proof {
                    assert(self.layouts@ =~= s0.push(l1));
                    assert forall|pt2: usize|
                        layouts_item_count(self.layouts@, pt2) == layouts_item_count(s0, pt2) + (
                        if pt2 == pt_g {
                            1int
                        } else {
                            0int
                        }) by {
                        lemma_layouts_sums_push(s0, l1, pt2, 0);
                    }
                    assert forall|st2: usize|
                        layouts_of_sheettype(self.layouts@, st2) == layouts_of_sheettype(s0, st2)
                            + (if st2 == st {
                            1int
                        } else {
                            0int
                        }) by {
                        lemma_layouts_sums_push(s0, l1, 0, st2);
                    }
                    lemma_layouts_item_count_nonneg(s0, pt_g);
                    assert(l1.total_items() > 0);
                    assert forall|i: int, j: int|
                        0 <= i < j < self.layouts@.len() implies (#[trigger] self.layouts@[i]).id
                        != (#[trigger] self.layouts@[j]).id by {
                        if j == self.layouts@.len() - 1 {
                            assert(self.layouts@[i].id <= old(self).counter_layout_id);
                        }
                    }
                    assert(self.wf());
                }
                (updates, true)
            },
        }
    }

    /// Remove the item leaf at `path` inside active layout `layout_index`:
    /// the released part quantity returns to the pool, and a layout left
    /// with no item is released, returning its sheet to stock. Returns the
    /// released part type and whether the layout was released.
    pub fn remove_node(&mut self, layout_index: usize, path: &Vec<usize>) -> (r: (usize, bool))
        requires
            old(self).wf(),
            layout_index < old(self).layouts@.len(),
            path@.len() >= 1,
            valid_path(old(self).layouts@[layout_index as int].top_node, path@),
            node_at(old(self).layouts@[layout_index as int].top_node, path@).is_item(),
        ensures
            final(self).wf(),
            final(self).instance == old(self).instance,
            final(self).empty_layouts == old(self).empty_layouts,
            final(self).counter_layout_id == old(self).counter_layout_id,
            node_at(old(self).layouts@[layout_index as int].top_node, path@).parttype_id == Some(
                r.0,
            ),
            r.0 < old(self).instance.parts@.len(),
            final(self).parttype_qtys@ == old(self).parttype_qtys@.update(
                r.0 as int,
                (old(self).parttype_qtys@[r.0 as int] + 1) as usize,
            ),
            r.1 == (final(self).layouts@.len() == old(self).layouts@.len() - 1),
            !r.1 ==> final(self).layouts@.len() == old(self).layouts@.len()
                && final(self).sheettype_qtys@ == old(self).sheettype_qtys@,
            r.1 ==> final(self).sheettype_qtys@ == old(self).sheettype_qtys@.update(
                old(self).layouts@[layout_index as int].sheettype_id as int,
                (old(self).sheettype_qtys@[old(self).layouts@[layout_index as int].sheettype_id as int] + 1) as usize,
            ),
    {
        let ghost s0 = self.layouts@;
        let ghost l0 = self.layouts@[layout_index as int];
        let ghost target = node_at(l0.top_node, path@);
        let mut layout = self.layouts.remove(layout_index);
        let released = layout.remove_node(path);
        let ghost l1 = layout;
        proof {
            // the removed item witnesses a positive count, so the released
            // part type is a known one and its quantity has headroom
            lemma_count_at_least_one(l0.top_node, path@, is_item_of(released));
            lemma_layouts_sums_element(s0, layout_index as int, released, l0.sheettype_id);
            if released >= self.instance.parts@.len() {
                assert(layouts_item_count(s0, released) == 0);
                assert(false);
            }
        }
        let q = self.parttype_qtys[released];
        self.parttype_qtys[released] = q + 1;
        let empty = layout.is_empty();
        if empty {
            let st = layout.sheettype_id;
            let q2 = self.sheettype_qtys[st];
            proof {
                lemma_layouts_of_sheettype_nonneg(s0.remove(layout_index as int), st);
                lemma_layouts_sums_split(s0, layout_index as int, released, st);
            }
            self.sheettype_qtys[st] = q2 + 1;
            proof {
                assert(self.layouts@ =~= s0.remove(layout_index as int));
                assert forall|pt2: usize|
                    layouts_item_count(self.layouts@, pt2) == layouts_item_count(s0, pt2) - (
                    if pt2 == released {
                        1int
                    } else {
                        0int
                    }) by {
                    lemma_layouts_sums_split(s0, layout_index as int, pt2, st);
                    // the layout is empty now, so it held exactly the one
                    // removed item and nothing of any other part type
                    assert(l1.total_items() == 0);
                    crate::node::lemma_no_items_no_part(l1.top_node, pt2);
                    assert(l1.item_count(pt2) == 0);
                    assert(l0.item_count(pt2) == (if pt2 == released {
                        1int
                    } else {
                        0int
                    }));
                }
                assert forall|st2: usize|
                    layouts_of_sheettype(self.layouts@, st2) == layouts_of_sheettype(s0, st2) - (
                    if st2 == st {
                        1int
                    } else {
                        0int
                    }) by {
                    lemma_layouts_sums_split(s0, layout_index as int, released, st2);
                }
                assert forall|pt2: usize| pt2 < self.instance.parts@.len() implies #[trigger]
                layouts_item_count(self.layouts@, pt2) + self.parttype_qtys@[pt2 as int]
                    == self.instance.parts@[pt2 as int].1 by {
                    assert(layouts_item_count(s0, pt2) + old(self).parttype_qtys@[pt2 as int]
                        == self.instance.parts@[pt2 as int].1);
                }
                assert forall|pt2: usize| pt2 >= self.instance.parts@.len() implies #[trigger]
                layouts_item_count(self.layouts@, pt2) == 0 by {
                    assert(layouts_item_count(s0, pt2) == 0);
                }
                assert forall|st2: usize| st2 < self.instance.sheets@.len() implies #[trigger]
                layouts_of_sheettype(self.layouts@, st2) + self.sheettype_qtys@[st2 as int]
                    == self.instance.sheets@[st2 as int].1 by {
                    assert(layouts_of_sheettype(s0, st2) + old(self).sheettype_qtys@[st2 as int]
                        == self.instance.sheets@[st2 as int].1);
                }
                assert(self.wf());
            }
            (released, true)
        } else {
            self.layouts.insert(layout_index, layout);
            proof {
                assert(self.layouts@ =~= s0.update(layout_index as int, l1));
                assert forall|pt2: usize|
                    layouts_item_count(self.layouts@, pt2) == layouts_item_count(s0, pt2) - (
                    if pt2 == released {
                        1int
                    } else {
                        0int
                    }) by {
                    lemma_layouts_sums_update(s0, layout_index as int, l1, pt2, 0);
                }
                assert forall|st2: usize|
                    layouts_of_sheettype(self.layouts@, st2) == layouts_of_sheettype(s0, st2) by {
                    lemma_layouts_sums_update(s0, layout_index as int, l1, 0, st2);
                }
                lemma_count_node_nonneg(l1.top_node, is_item_pred());
                assert(l1.total_items() > 0);
                assert forall|pt2: usize| pt2 < self.instance.parts@.len() implies #[trigger]
                layouts_item_count(self.layouts@, pt2) + self.parttype_qtys@[pt2 as int]
                    == self.instance.parts@[pt2 as int].1 by {
                    assert(layouts_item_count(s0, pt2) + old(self).parttype_qtys@[pt2 as int]
                        == self.instance.parts@[pt2 as int].1);
                }
                assert forall|pt2: usize| pt2 >= self.instance.parts@.len() implies #[trigger]
                layouts_item_count(self.layouts@, pt2) == 0 by {
                    assert(layouts_item_count(s0, pt2) == 0);
                }
                assert forall|st2: usize| st2 < self.instance.sheets@.len() implies #[trigger]
                layouts_of_sheettype(self.layouts@, st2) + self.sheettype_qtys@[st2 as int]
                    == self.instance.sheets@[st2 as int].1 by {
                    assert(layouts_of_sheettype(s0, st2) + old(self).sheettype_qtys@[st2 as int]
                        == self.instance.sheets@[st2 as int].1);
                }
                assert(self.wf());
            }
            (released, false)
        }
    }

    /// An owning snapshot of the current layouts, detached from this
    /// problem, together with the caller's aggregate cost figures.
    pub fn snapshot(&self, cost: crate::cost::Cost, usage_pct: u64) -> (r:
        crate::collector::SendableSolution)
        ensures
            r.cost == cost,
            r.usage_pct == usage_pct,
            r.layouts@.len() == self.layouts@.len(),
            forall|i: int|
                0 <= i < r.layouts@.len() ==> (#[trigger] r.layouts@[i]).id == self.layouts@[i].id
                    && r.layouts@[i].sheettype_id == self.layouts@[i].sheettype_id && same_tree(
                    r.layouts@[i].top_node,
                    self.layouts@[i].top_node,
                ),
    {
        crate::collector::SendableSolution {
            layouts: crate::collector::snapshot_layouts(&self.layouts),
            cost,
            usage_pct,
        }
    }

    pub fn instance(&self) -> (r: &Instance)
        ensures
            *r == self.instance,
    {
        &self.instance
    }

    pub fn parttype_qtys(&self) -> (r: &Vec<usize>)
        ensures
            r@ == self.parttype_qtys@,
    {
        &self.parttype_qtys
    }

    pub fn sheettype_qtys(&self) -> (r: &Vec<usize>)
        ensures
            r@ == self.sheettype_qtys@,
    {
        &self.sheettype_qtys
    }

    /// Relies on `rand::rngs::ThreadRng` (through `rand::RngCore::next_u64`)
    /// for one draw from the worker's generator. Nothing is promised of the
    /// value; only the generator state changes.
    #[verifier::external_body]
    pub fn random(&mut self) -> (r: u64)
        ensures
            final(self).instance == old(self).instance,
            final(self).parttype_qtys == old(self).parttype_qtys,
            final(self).sheettype_qtys == old(self).sheettype_qtys,
            final(self).layouts == old(self).layouts,
            final(self).empty_layouts == old(self).empty_layouts,
            final(self).counter_layout_id == old(self).counter_layout_id,
    {
        rand::RngCore::next_u64(&mut self.random)
    }

    pub fn layouts(&self) -> (r: &Vec<Layout>)
        ensures
            r@ == self.layouts@,
    {
        &self.layouts
    }

    pub fn empty_layouts(&self) -> (r: &Vec<Layout>)
        ensures
            r@ == self.empty_layouts@,
    {
        &self.empty_layouts
    }

    pub fn counter_layout_id(&self) -> (r: usize)
        ensures
            r == self.counter_layout_id,
    {
        self.counter_layout_id
    }
}

} // verus!
