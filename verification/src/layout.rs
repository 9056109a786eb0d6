//! A layout: one sheet and the guillotine tree carved into it, with the
//! operations that place one part and that remove one placed part.

use vstd::prelude::*;

use crate::entities::Orientation;
use crate::node::{
    along_len, along_sum, count_node, count_seq, cross_len, is_item_of, is_item_pred, is_splice,
    lemma_count_node_nonneg, lemma_count_seq_all_leftover, lemma_count_seq_concat,
    lemma_filled_children_items, lemma_node_at_last, lemma_splice_count, lemma_splice_filled,
    lemma_splice_wf, node_at, splice_node, spliced_out, valid_path, valid_splice, Node,
};

verus! {

/// A prefix of a valid path is a valid path.
pub proof fn lemma_valid_path_prefix(n: Node, path: Seq<usize>)
    requires
        path.len() >= 1,
        valid_path(n, path),
    ensures
        valid_path(n, path.drop_last()),
    decreases path.len(),
{
    if path.len() == 1 {
        assert(path.drop_last() =~= Seq::<usize>::empty());
    } else {
        let c = n.children@[path[0] as int];
        lemma_valid_path_prefix(c, path.drop_first());
        assert(path.drop_last()[0] == path[0]);
        assert(path.drop_last().drop_first() =~= path.drop_first().drop_last());
    }
}

/// One layout: the dense id of the sheet type it uses, a unique layout id,
/// and the tree of cuts over the sheet's rectangle.
#[derive(Debug)]
pub struct Layout {
    pub id: usize,
    pub sheettype_id: usize,
    pub top_node: Node,
}

impl Layout {
    /// The tree invariants of a layout: the top node is a structure, it
    /// satisfies the tiling invariants, and every structure strictly below
    /// the top holds at least one item. The top itself is exempt so that an
    /// empty template is representable.
    pub open spec fn wf(self) -> bool {
        &&& !self.top_node.is_leaf()
        &&& self.top_node.wf()
        &&& forall|j: int|
            0 <= j < self.top_node.children@.len() ==> (
            #[trigger] self.top_node.children@[j]).filled()
    }

    /// Number of items of part type `pt` placed in this layout.
    pub open spec fn item_count(self, pt: usize) -> int {
        count_node(self.top_node, is_item_of(pt))
    }

    /// Number of items placed in this layout.
    pub open spec fn total_items(self) -> int {
        count_node(self.top_node, is_item_pred())
    }

    /// A pristine layout over a `width` by `height` sheet: the top
    /// structure holds a single leftover covering the whole sheet.
    pub fn new(id: usize, sheettype_id: usize, width: u64, height: u64) -> (r: Layout)
        ensures
            r.wf(),
            r.id == id,
            r.sheettype_id == sheettype_id,
            r.top_node.width == width,
            r.top_node.height == height,
            r.total_items() == 0,
            forall|pt: usize| r.item_count(pt) == 0,
    {
        let o = Orientation::Horizontal;
        let leftover = Node::new_leftover(width, height, Orientation::Vertical);
        let mut children: Vec<Node> = Vec::new();
        children.push(leftover);
        let top = Node::new_structure(width, height, o, children);
        let r = Layout { id, sheettype_id, top_node: top };
        proof {
            assert(top.children@ =~= seq![leftover]);
            assert(top.children@.drop_first() =~= Seq::<Node>::empty());
            assert(along_sum(Seq::<Node>::empty(), o) == 0);
            assert(along_sum(top.children@, o) == along_len(leftover, o) + along_sum(
                Seq::<Node>::empty(),
                o,
            ));
            assert(leftover.wf());
            assert(leftover.filled());
            assert(top.children@[0] == leftover);
            assert(r.wf());
            assert forall|pt: usize| r.item_count(pt) == 0 by {
                assert(count_seq(Seq::<Node>::empty(), is_item_of(pt)) == 0);
                assert(count_node(leftover, is_item_of(pt)) == 0);
                assert(count_seq(top.children@, is_item_of(pt)) == 0);
            }
            assert(count_seq(Seq::<Node>::empty(), is_item_pred()) == 0);
            assert(count_node(leftover, is_item_pred()) == 0);
            assert(count_seq(top.children@, is_item_pred()) == 0);
        }
        r
    }

    /// Whether no item is placed in this layout.
    pub fn is_empty(&self) -> (r: bool)
        requires
            self.wf(),
        ensures
            r == (self.total_items() == 0),
    {
        let mut j: usize = 0;
        let mut any_item: bool = false;
        while j < self.top_node.children.len()
            invariant
                self.wf(),
                0 <= j <= self.top_node.children@.len(),
                any_item == (count_seq(self.top_node.children@.take(j as int), is_item_pred())
                    > 0),
            decreases self.top_node.children@.len() - j,
        {
            let c = &self.top_node.children[j];
            let c_is_leftover = c.children.len() == 0 && c.parttype_id.is_none();
            proof {
                let s = self.top_node.children@;
                assert(s.take(j + 1).drop_last() =~= s.take(j as int));
                assert(s.take(j + 1).last() == s[j as int]);
                lemma_take_snoc_count(s, j as int, is_item_pred());
                assert(s[j as int].filled());
                lemma_count_node_nonneg(s[j as int], is_item_pred());
                lemma_count_seq_nonneg_take(s, j as int);
                if !c_is_leftover {
                    if s[j as int].is_leaf() {
                        assert(count_node(s[j as int], is_item_pred()) == 1);
                    } else {
                        assert(count_node(s[j as int], is_item_pred()) > 0);
                    }
                } else {
                    assert(count_node(s[j as int], is_item_pred()) == 0);
                }
            }
            if !c_is_leftover {
                any_item = true;
            }
            j = j + 1;
        }
        proof {
            assert(self.top_node.children@.take(self.top_node.children@.len() as int)
                =~= self.top_node.children@);
            assert(count_node(self.top_node, is_item_pred()) == count_seq(
                self.top_node.children@,
                is_item_pred(),
            ));
            crate::node::lemma_count_seq_nonneg(self.top_node.children@, is_item_pred());
        }
        !any_item
    }
}

impl Layout {
    /// Carry out an insertion: the leftover leaf addressed by `path` is
    /// replaced by `replacements`, placing the items they contain.
    pub fn implement_insertion(&mut self, path: &Vec<usize>, replacements: Vec<Node>)
        requires
            old(self).wf(),
            path@.len() >= 1,
            valid_path(old(self).top_node, path@),
            node_at(old(self).top_node, path@).is_leftover(),
            replacements@.len() >= 1,
            forall|j: int| 0 <= j < replacements@.len() ==> (#[trigger] replacements@[j]).wf(),
            forall|j: int|
                0 <= j < replacements@.len() ==> (#[trigger] replacements@[j]).filled(),
            forall|j: int|
                0 <= j < replacements@.len() ==> (#[trigger] replacements@[j]).next_cut_orient
                    == crate::entities::flip(
                    node_at(old(self).top_node, path@.drop_last()).next_cut_orient,
                ),
            forall|j: int|
                0 <= j < replacements@.len() ==> cross_len(
                    #[trigger] replacements@[j],
                    node_at(old(self).top_node, path@.drop_last()).next_cut_orient,
                ) == cross_len(
                    node_at(old(self).top_node, path@),
                    node_at(old(self).top_node, path@.drop_last()).next_cut_orient,
                ),
            along_sum(
                replacements@,
                node_at(old(self).top_node, path@.drop_last()).next_cut_orient,
            ) == along_len(
                node_at(old(self).top_node, path@),
                node_at(old(self).top_node, path@.drop_last()).next_cut_orient,
            ),
        ensures
            final(self).wf(),
            final(self).id == old(self).id,
            final(self).sheettype_id == old(self).sheettype_id,
            final(self).top_node.width == old(self).top_node.width,
            final(self).top_node.height == old(self).top_node.height,
            is_splice(old(self).top_node, path@, 1, replacements@, final(self).top_node),
            forall|pt: usize|
                final(self).item_count(pt) == old(self).item_count(pt) + count_seq(
                    replacements@,
                    is_item_of(pt),
                ),
            final(self).total_items() == old(self).total_items() + count_seq(
                replacements@,
                is_item_pred(),
            ),
    {
        let ghost top0 = self.top_node;
        proof {
            lemma_node_at_last(top0, path@);
            lemma_valid_path_prefix(top0, path@);
            assert(valid_splice(top0, path@, 1));
            crate::node::lemma_wf_at(top0, path@.drop_last());
            let parent = node_at(top0, path@.drop_last());
            let target = node_at(top0, path@);
            assert(target == parent.children@[path@.last() as int]);
            assert(!parent.is_leaf());
            assert(cross_len(target, parent.next_cut_orient) == cross_len(
                parent,
                parent.next_cut_orient,
            ));
        }
        let mut top = Node::new_leftover(0, 0, Orientation::Horizontal);
        core::mem::swap(&mut top, &mut self.top_node);
        let ghost reps = replacements@;
        proof {
            assert(path@.skip(0) =~= path@);
        }
        let new_top = splice_node(top, path, 0, 1, replacements);
        self.top_node = new_top;
        proof {
            let target = node_at(top0, path@);
            assert(spliced_out(top0, path@, 1) =~= seq![target]);
            assert(seq![target].drop_first() =~= Seq::<Node>::empty());
            assert(count_seq(Seq::<Node>::empty(), is_item_pred()) == 0);
            assert(!is_item_pred()(target));
            assert(count_node(target, is_item_pred()) == 0);
            assert(count_seq(seq![target], is_item_pred()) == 0);
            assert(along_sum(seq![target], node_at(top0, path@.drop_last()).next_cut_orient)
                == along_len(target, node_at(top0, path@.drop_last()).next_cut_orient)
                + along_sum(
                Seq::<Node>::empty(),
                node_at(top0, path@.drop_last()).next_cut_orient,
            ));
            lemma_splice_wf(top0, path@, 1, reps, new_top);
            crate::node::lemma_count_seq_nonneg(reps, is_item_pred());
            lemma_splice_filled(top0, path@, 1, reps, new_top);
            assert forall|pt: usize|
                final(self).item_count(pt) == old(self).item_count(pt) + count_seq(
                    reps,
                    is_item_of(pt),
                ) by {
                lemma_splice_count(top0, path@, 1, reps, new_top, is_item_of(pt));
                assert(count_seq(Seq::<Node>::empty(), is_item_of(pt)) == 0);
                assert(!is_item_of(pt)(target));
                assert(count_node(target, is_item_of(pt)) == 0);
                assert(count_seq(seq![target], is_item_of(pt)) == 0);
            }
            lemma_splice_count(top0, path@, 1, reps, new_top, is_item_pred());
        }
    }

    /// Remove the item leaf addressed by `path`: the leaf becomes a
    /// leftover, and any structure on the path left with no item collapses
    /// into a single leftover of its rectangle. The top node never
    /// collapses. Returns the part type id released.
    pub fn remove_node(&mut self, path: &Vec<usize>) -> (released: usize)
        requires
            old(self).wf(),
            path@.len() >= 1,
            valid_path(old(self).top_node, path@),
            node_at(old(self).top_node, path@).is_item(),
        ensures
            final(self).wf(),
            final(self).id == old(self).id,
            final(self).sheettype_id == old(self).sheettype_id,
            final(self).top_node.width == old(self).top_node.width,
            final(self).top_node.height == old(self).top_node.height,
            node_at(old(self).top_node, path@).parttype_id == Some(released),
            forall|pt: usize|
                final(self).item_count(pt) == old(self).item_count(pt) - (
                if node_at(old(self).top_node, path@).parttype_id == Some(pt) {
                    1int
                } else {
                    0int
                }),
            final(self).total_items() == old(self).total_items() - 1,
    {
        let ghost top0 = self.top_node;
        let mut top = Node::new_leftover(0, 0, Orientation::Horizontal);
        core::mem::swap(&mut top, &mut self.top_node);
        let (new_top, released) = remove_rec(top, path, 0);
        proof {
            assert(path@.skip(0) =~= path@);
        }
        self.top_node = new_top;
        released
    }
}

/// Remove the item addressed by `path` from `depth` on, collapsing
/// item-less structures strictly below `node` into leftovers.
fn remove_rec(node: Node, path: &Vec<usize>, depth: usize) -> (r: (Node, usize))
    requires
        depth < path@.len(),
        node.wf(),
        !node.is_leaf(),
        forall|j: int| 0 <= j < node.children@.len() ==> (#[trigger] node.children@[j]).filled(),
        valid_path(node, path@.skip(depth as int)),
        node_at(node, path@.skip(depth as int)).is_item(),
    ensures
        r.0.wf(),
        !r.0.is_leaf(),
        r.0.width == node.width,
        r.0.height == node.height,
        r.0.next_cut_orient == node.next_cut_orient,
        r.0.parttype_id == node.parttype_id,
        forall|j: int| 0 <= j < r.0.children@.len() ==> (#[trigger] r.0.children@[j]).filled(),
        node_at(node, path@.skip(depth as int)).parttype_id == Some(r.1),
        forall|pt: usize|
            count_node(r.0, is_item_of(pt)) == count_node(node, is_item_of(pt)) - (
            if node_at(node, path@.skip(depth as int)).parttype_id == Some(pt) {
                1int
            } else {
                0int
            }),
        count_node(r.0, is_item_pred()) == count_node(node, is_item_pred()) - 1,
    decreases path@.len() - depth,
{
    let ghost sp = path@.skip(depth as int);
    let ghost n0 = node;
    let mut node = node;
    let i = path[depth];
    let ghost target = node_at(n0, sp);
    if depth == path.len() - 1 {
        proof {
            assert(sp.len() == 1);
            assert(sp.drop_last() =~= Seq::<usize>::empty());
            assert(sp.drop_first() =~= Seq::<usize>::empty());
            assert(node_at(n0, Seq::<usize>::empty()) == n0);
            assert(sp[0] == path@[depth as int]);
            let ci = n0.children@[i as int];
            assert(node_at(ci, Seq::<usize>::empty()) == ci);
            assert(target == n0.children@[i as int]);
            assert(valid_splice(n0, sp, 1));
        }
        let t = &node.children[i];
        let released = match t.parttype_id {
            Some(pt) => pt,
            None => 0,
        };
        let lf = Node::new_leftover(t.width, t.height, t.next_cut_orient);
        let ghost lfg = lf;
        let mut reps: Vec<Node> = Vec::new();
        reps.push(lf);
        let ghost repsg = reps@;
        let new_node = splice_node(node, path, depth, 1, reps);
        proof {
            assert(repsg =~= seq![lfg]);
            assert(seq![lfg].drop_first() =~= Seq::<Node>::empty());
            assert(seq![target].drop_first() =~= Seq::<Node>::empty());
            assert(spliced_out(n0, sp, 1) =~= seq![target]);
            let o = n0.next_cut_orient;
            assert(along_sum(Seq::<Node>::empty(), o) == 0);
            assert(along_sum(seq![lfg], o) == along_len(lfg, o));
            assert(along_sum(seq![target], o) == along_len(target, o));
            assert(along_len(lfg, o) == along_len(target, o));
            assert(cross_len(lfg, o) == cross_len(target, o));
            assert(lfg.next_cut_orient == target.next_cut_orient);
            assert(target.next_cut_orient == crate::entities::flip(o));
            assert(lfg.wf());
            assert(lfg.filled());
            lemma_splice_wf(n0, sp, 1, repsg, new_node);
            lemma_splice_filled(n0, sp, 1, repsg, new_node);
            assert forall|pt: usize|
                count_node(new_node, is_item_of(pt)) == count_node(n0, is_item_of(pt)) - (
                if target.parttype_id == Some(pt) {
                    1int
                } else {
                    0int
                }) by {
                lemma_splice_count(n0, sp, 1, repsg, new_node, is_item_of(pt));
                assert(count_seq(Seq::<Node>::empty(), is_item_of(pt)) == 0);
                assert(!is_item_of(pt)(lfg));
                assert(count_node(lfg, is_item_of(pt)) == 0);
                assert(count_seq(seq![lfg], is_item_of(pt)) == 0);
                assert(count_node(target, is_item_of(pt)) == (
                if target.parttype_id == Some(pt) {
                    1int
                } else {
                    0int
                }));
                assert(count_seq(seq![target], is_item_of(pt)) == (
                if target.parttype_id == Some(pt) {
                    1int
                } else {
                    0int
                }));
            }
            lemma_splice_count(n0, sp, 1, repsg, new_node, is_item_pred());
            assert(count_seq(Seq::<Node>::empty(), is_item_pred()) == 0);
            assert(!is_item_pred()(lfg));
            assert(count_node(lfg, is_item_pred()) == 0);
            assert(count_seq(seq![lfg], is_item_pred()) == 0);
            assert(is_item_pred()(target));
            assert(count_node(target, is_item_pred()) == 1);
            assert(count_seq(seq![target], is_item_pred()) == 1);
            assert(target.parttype_id == Some(released));
        }
        (new_node, released)
    } else {
        proof {
            assert(sp[0] == path@[depth as int]);
            assert(i < node.children@.len());
            assert(sp.drop_first() =~= path@.skip(depth + 1));
            assert(n0.children@[i as int].filled());
            assert(!n0.children@[i as int].is_leaf()) by {
                assert(valid_path(n0.children@[i as int], sp.drop_first()));
                assert(sp.drop_first().len() >= 1);
            }
        }
        let child = node.children.remove(i);
        let (child2, released) = remove_rec(child, path, depth + 1);
        let ghost c2 = child2;
        // a structure that lost its last item collapses into a leftover
        let mut all_leftover = true;
        let mut j: usize = 0;
        while j < child2.children.len()
            invariant
                0 <= j <= child2.children@.len(),
                all_leftover == (forall|k: int|
                    0 <= k < j ==> (#[trigger] child2.children@[k]).is_leftover()),
                child2 == c2,
            decreases child2.children@.len() - j,
        {
            let c = &child2.children[j];
            if !(c.children.len() == 0 && c.parttype_id.is_none()) {
                all_leftover = false;
            }
            j = j + 1;
        }
        proof {
            lemma_filled_children_items(c2.children@);
            assert(count_node(c2, is_item_pred()) == count_seq(c2.children@, is_item_pred()));
        }
        let replacement = if all_leftover {
            Node::new_leftover(child2.width, child2.height, child2.next_cut_orient)
        } else {
            child2
        };
        let ghost rep = replacement;
        proof {
            if all_leftover {
                assert forall|pt: usize| count_node(rep, is_item_of(pt)) == count_node(
                    c2,
                    is_item_of(pt),
                ) by {
                    lemma_count_seq_all_leftover(c2.children@, is_item_of(pt));
                    assert(count_node(rep, is_item_of(pt)) == 0);
                }
                assert(count_node(rep, is_item_pred()) == 0);
                assert(count_node(c2, is_item_pred()) == 0);
                assert(rep.filled());
            } else {
                assert(count_node(c2, is_item_pred()) > 0);
                assert(rep.filled());
            }
        }
        node.children.insert(i, replacement);
        proof {
            let s = n0.children@;
            let c = s[i as int];
            assert(node.children@ =~= s.update(i as int, rep));
            // view the update as a single-level splice to reuse the lemmas
            assert(node.children@ =~= s.take(i as int) + seq![rep] + s.skip(i + 1));
            let ghost onepath = seq![i];
            assert(onepath.drop_last() =~= Seq::<usize>::empty());
            assert(node_at(n0, Seq::<usize>::empty()) == n0);
            assert(valid_splice(n0, onepath, 1));
            assert(is_splice(n0, onepath, 1, seq![rep], node));
            assert(spliced_out(n0, onepath, 1) =~= seq![c]);
            assert(seq![rep].drop_first() =~= Seq::<Node>::empty());
            assert(seq![c].drop_first() =~= Seq::<Node>::empty());
            let o = n0.next_cut_orient;
            assert(along_sum(Seq::<Node>::empty(), o) == 0);
            assert(along_sum(seq![rep], o) == along_len(rep, o));
            assert(along_sum(seq![c], o) == along_len(c, o));
            assert(along_len(rep, o) == along_len(c, o));
            assert(cross_len(rep, o) == cross_len(c, o));
            assert(rep.next_cut_orient == c.next_cut_orient);
            assert(rep.wf());
            lemma_splice_wf(n0, onepath, 1, seq![rep], node);
            lemma_splice_filled(n0, onepath, 1, seq![rep], node);
            assert(node_at(n0, sp) == node_at(c, sp.drop_first()));
            assert forall|pt: usize|
                count_node(node, is_item_of(pt)) == count_node(n0, is_item_of(pt)) - (
                if target.parttype_id == Some(pt) {
                    1int
                } else {
                    0int
                }) by {
                lemma_splice_count(n0, onepath, 1, seq![rep], node, is_item_of(pt));
                assert(count_seq(Seq::<Node>::empty(), is_item_of(pt)) == 0);
                assert(count_seq(seq![rep], is_item_of(pt)) == count_node(rep, is_item_of(pt)));
                assert(count_seq(seq![c], is_item_of(pt)) == count_node(c, is_item_of(pt)));
            }
            lemma_splice_count(n0, onepath, 1, seq![rep], node, is_item_pred());
            assert(count_seq(Seq::<Node>::empty(), is_item_pred()) == 0);
            assert(count_seq(seq![rep], is_item_pred()) == count_node(rep, is_item_pred()));
            assert(count_seq(seq![c], is_item_pred()) == count_node(c, is_item_pred()));
        }
        (node, released)
    }
}

/// Appending one element adds its count.
pub proof fn lemma_take_snoc_count(s: Seq<Node>, j: int, p: spec_fn(Node) -> bool)
    requires
        0 <= j < s.len(),
    ensures
        count_seq(s.take(j + 1), p) == count_seq(s.take(j), p) + count_node(s[j], p),
{
    assert(s.take(j + 1) =~= s.take(j) + seq![s[j]]);
    lemma_count_seq_concat(s.take(j), seq![s[j]], p);
    assert(seq![s[j]].drop_first() =~= Seq::<Node>::empty());
    assert(count_seq(Seq::<Node>::empty(), p) == 0);
}

pub proof fn lemma_count_seq_nonneg_take(s: Seq<Node>, j: int)
    requires
        0 <= j <= s.len(),
    ensures
        count_seq(s.take(j), is_item_pred()) >= 0,
{
    crate::node::lemma_count_seq_nonneg(s.take(j), is_item_pred());
}

} // verus!
