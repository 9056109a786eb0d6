//! The recursive layout tree: guillotine nodes, their tiling invariants,
//! leaf counting, and the splice operation that rewrites a leaf in place.

use vstd::prelude::*;

use crate::entities::{flip, Orientation};

verus! {

/// One node of a guillotine tree. A node with children is a structure: its
/// children tile its rectangle along `next_cut_orient`. A node without
/// children is a leaf: an item when `parttype_id` is `Some`, a leftover
/// when it is `None`.
#[derive(Debug)]
#[verifier::ext_equal]
pub struct Node {
    pub width: u64,
    pub height: u64,
    pub next_cut_orient: Orientation,
    pub parttype_id: Option<usize>,
    pub children: Vec<Node>,
}

/// The plain-data tree shipped inside blueprints and sendable layouts has
/// the same shape as a tree node.
pub type NodeBlueprint = Node;

/// Extent of `n` along the axis that an `o` cut subdivides: an `o` cut in a
/// parent stacks children along this axis.
pub open spec fn along_len(n: Node, o: Orientation) -> u64 {
    match o {
        Orientation::Horizontal => n.height,
        Orientation::Vertical => n.width,
    }
}

/// Extent of `n` across that axis; children keep their parent's cross extent.
pub open spec fn cross_len(n: Node, o: Orientation) -> u64 {
    match o {
        Orientation::Horizontal => n.width,
        Orientation::Vertical => n.height,
    }
}

/// Sum of `along_len` over a sequence of children.
pub open spec fn along_sum(s: Seq<Node>, o: Orientation) -> int
    decreases s.len(),
{
    if s.len() == 0 {
        0
    } else {
        along_len(s[0], o) + along_sum(s.drop_first(), o)
    }
}

impl Node {
    pub open spec fn is_leaf(self) -> bool {
        self.children@.len() == 0
    }

    pub open spec fn is_item(self) -> bool {
        self.is_leaf() && self.parttype_id is Some
    }

    pub open spec fn is_leftover(self) -> bool {
        self.is_leaf() && self.parttype_id is None
    }

    /// The tiling invariants: a structure node carries no part, its
    /// children's cuts alternate with its own, the children keep its cross
    /// extent and their along extents sum to its own, and each child
    /// satisfies the same recursively.
    pub open spec fn wf(self) -> bool
        decreases self,
    {
        self.is_leaf() || {
            &&& self.parttype_id is None
            &&& forall|i: int|
                0 <= i < self.children@.len() ==> (#[trigger] self.children@[i]).next_cut_orient
                    == flip(self.next_cut_orient)
            &&& forall|i: int|
                0 <= i < self.children@.len() ==> cross_len(
                    #[trigger] self.children@[i],
                    self.next_cut_orient,
                ) == cross_len(self, self.next_cut_orient)
            &&& along_sum(self.children@, self.next_cut_orient) == along_len(
                self,
                self.next_cut_orient,
            )
            &&& forall|i: int|
                0 <= i < self.children@.len() ==> (#[trigger] self.children@[i]).wf()
        }
    }

    /// Every structure in the subtree, this node included, holds at least
    /// one item leaf. Leaves satisfy it trivially.
    pub open spec fn filled(self) -> bool
        decreases self,
    {
        self.is_leaf() || {
            &&& count_node(self, is_item_pred()) > 0
            &&& forall|i: int|
                0 <= i < self.children@.len() ==> (#[trigger] self.children@[i]).filled()
        }
    }
}

/// Predicate selecting item leaves.
pub open spec fn is_item_pred() -> spec_fn(Node) -> bool {
    |n: Node| n.parttype_id is Some
}

/// Predicate selecting item leaves of one part type.
pub open spec fn is_item_of(pt: usize) -> spec_fn(Node) -> bool {
    |n: Node| n.parttype_id == Some(pt)
}

/// Number of leaves of `n` satisfying `p`.
pub open spec fn count_node(n: Node, p: spec_fn(Node) -> bool) -> int
    decreases n,
{
    if n.is_leaf() {
        if p(n) {
            1
        } else {
            0
        }
    } else {
        count_seq(n.children@, p)
    }
}

/// Number of leaves under a sequence of nodes satisfying `p`.
pub open spec fn count_seq(s: Seq<Node>, p: spec_fn(Node) -> bool) -> int
    decreases s,
{
    if s.len() == 0 {
        0
    } else {
        count_node(s[0], p) + count_seq(s.drop_first(), p)
    }
}

/// Leaf counts are never negative.
pub proof fn lemma_count_node_nonneg(n: Node, p: spec_fn(Node) -> bool)
    ensures
        count_node(n, p) >= 0,
    decreases n,
{
    if !n.is_leaf() {
        lemma_count_seq_nonneg(n.children@, p);
    }
}

pub proof fn lemma_count_seq_nonneg(s: Seq<Node>, p: spec_fn(Node) -> bool)
    ensures
        count_seq(s, p) >= 0,
    decreases s,
{
    if s.len() > 0 {
        lemma_count_node_nonneg(s[0], p);
        lemma_count_seq_nonneg(s.drop_first(), p);
    }
}

/// Leaf counting distributes over concatenation.
pub proof fn lemma_count_seq_concat(a: Seq<Node>, b: Seq<Node>, p: spec_fn(Node) -> bool)
    ensures
        count_seq(a + b, p) == count_seq(a, p) + count_seq(b, p),
    decreases a,
{
    if a.len() == 0 {
        assert(a + b =~= b);
    } else {
        assert((a + b).drop_first() =~= a.drop_first() + b);
        lemma_count_seq_concat(a.drop_first(), b, p);
    }
}

/// Along extents sum distributes over concatenation.
pub proof fn lemma_along_sum_concat(a: Seq<Node>, b: Seq<Node>, o: Orientation)
    ensures
        along_sum(a + b, o) == along_sum(a, o) + along_sum(b, o),
    decreases a,
{
    if a.len() == 0 {
        assert(a + b =~= b);
    } else {
        assert((a + b).drop_first() =~= a.drop_first() + b);
        lemma_along_sum_concat(a.drop_first(), b, o);
    }
}

/// A sequence splits around any of its elements.
pub proof fn lemma_seq_split_at<T>(s: Seq<T>, i: int)
    requires
        0 <= i < s.len(),
    ensures
        s =~= s.take(i) + seq![s[i]] + s.skip(i + 1),
{
}

/// Each element's along extent is at most the sum.
pub proof fn lemma_along_sum_element(s: Seq<Node>, o: Orientation, i: int)
    requires
        0 <= i < s.len(),
    ensures
        along_len(s[i], o) <= along_sum(s, o),
    decreases s,
{
    if i == 0 {
        lemma_along_sum_nonneg(s.drop_first(), o);
    } else {
        lemma_along_sum_element(s.drop_first(), o, i - 1);
    }
}

pub proof fn lemma_along_sum_nonneg(s: Seq<Node>, o: Orientation)
    ensures
        along_sum(s, o) >= 0,
    decreases s,
{
    if s.len() > 0 {
        lemma_along_sum_nonneg(s.drop_first(), o);
    }
}

/// Whether `path` descends through valid child indices of `n`.
pub open spec fn valid_path(n: Node, path: Seq<usize>) -> bool
    decreases path.len(),
{
    path.len() == 0 || {
        &&& path[0] < n.children@.len()
        &&& valid_path(n.children@[path[0] as int], path.drop_first())
    }
}

/// The node reached from `n` along `path`.
pub open spec fn node_at(n: Node, path: Seq<usize>) -> Node
    decreases path.len(),
{
    if path.len() == 0 {
        n
    } else {
        node_at(n.children@[path[0] as int], path.drop_first())
    }
}

/// Whether splicing `count` children out at `path` is meaningful: the path
/// is non-empty, its prefix reaches a node, and the final index plus the
/// count stays within that node's children.
pub open spec fn valid_splice(n: Node, path: Seq<usize>, count: int) -> bool {
    &&& path.len() >= 1
    &&& count >= 1
    &&& valid_path(n, path.drop_last())
    &&& path.last() + count <= node_at(n, path.drop_last()).children@.len()
}

/// Relates a tree `m` to `n` where the `count` children starting at the
/// last index of `path` (inside the node reached by the rest of `path`)
/// were replaced by `reps`; everything else is unchanged.
pub open spec fn is_splice(n: Node, path: Seq<usize>, count: int, reps: Seq<Node>, m: Node) -> bool
    decreases path.len(),
{
    if path.len() < 1 {
        false
    } else if path.len() == 1 {
        let i = path[0] as int;
        &&& m.width == n.width
        &&& m.height == n.height
        &&& m.next_cut_orient == n.next_cut_orient
        &&& m.parttype_id == n.parttype_id
        &&& m.children@ == n.children@.take(i) + reps + n.children@.skip(i + count)
    } else {
        let i = path[0] as int;
        &&& 0 <= i < n.children@.len()
        &&& m.width == n.width
        &&& m.height == n.height
        &&& m.next_cut_orient == n.next_cut_orient
        &&& m.parttype_id == n.parttype_id
        &&& m.children@.len() == n.children@.len()
        &&& m.children@ == n.children@.update(i, m.children@[i])
        &&& is_splice(n.children@[i], path.drop_first(), count, reps, m.children@[i])
    }
}

/// The children spliced out by a splice at `path` with `count`.
pub open spec fn spliced_out(n: Node, path: Seq<usize>, count: int) -> Seq<Node> {
    let parent = node_at(n, path.drop_last());
    parent.children@.subrange(path.last() as int, path.last() + count)
}

/// Counting leaves through a splice: the spliced-out children's leaves are
/// replaced by the replacements' leaves; every other leaf is untouched.
pub proof fn lemma_splice_count(
    n: Node,
    path: Seq<usize>,
    count: int,
    reps: Seq<Node>,
    m: Node,
    p: spec_fn(Node) -> bool,
)
    requires
        valid_splice(n, path, count),
        is_splice(n, path, count, reps, m),
        reps.len() >= 1,
    ensures
        count_node(m, p) == count_node(n, p) - count_seq(spliced_out(n, path, count), p)
            + count_seq(reps, p),
    decreases path.len(),
{
    let i = path[0] as int;
    if path.len() == 1 {
        let s = n.children@;
        assert(s =~= s.take(i) + s.subrange(i, i + count) + s.skip(i + count));
        lemma_count_seq_concat(s.take(i) + s.subrange(i, i + count), s.skip(i + count), p);
        lemma_count_seq_concat(s.take(i), s.subrange(i, i + count), p);
        lemma_count_seq_concat(s.take(i) + reps, s.skip(i + count), p);
        lemma_count_seq_concat(s.take(i), reps, p);
        assert(count_seq(s, p) == count_seq(s.take(i), p) + count_seq(s.subrange(i, i + count), p)
            + count_seq(s.skip(i + count), p));
        assert(!n.is_leaf());
        assert(spliced_out(n, path, count) =~= s.subrange(i, i + count));
        assert(m.children@.len() >= reps.len());
        assert(!m.is_leaf());
        assert(count_node(m, p) == count_seq(m.children@, p));
    } else {
        let c = n.children@[i];
        let c2 = m.children@[i];
        assert(valid_path(n, path.drop_last()));
        assert(path.drop_last().len() > 0);
        assert(path.drop_last()[0] == path[0]);
        assert(path.drop_last().drop_first() =~= path.drop_first().drop_last());
        assert(path.drop_first().last() == path.last());
        assert(node_at(n, path.drop_last()) == node_at(c, path.drop_first().drop_last()));
        assert(valid_path(c, path.drop_first().drop_last()));
        assert(valid_splice(c, path.drop_first(), count));
        lemma_splice_count(c, path.drop_first(), count, reps, c2, p);
        assert(spliced_out(n, path, count) =~= spliced_out(c, path.drop_first(), count));
        // replace child i by c2 in the children sequence
        let s = n.children@;
        let s2 = m.children@;
        assert(s2 =~= s.take(i) + seq![c2] + s.skip(i + 1));
        lemma_seq_split_at(s, i);
        lemma_count_seq_concat(s.take(i) + seq![c], s.skip(i + 1), p);
        lemma_count_seq_concat(s.take(i), seq![c], p);
        lemma_count_seq_concat(s.take(i) + seq![c2], s.skip(i + 1), p);
        lemma_count_seq_concat(s.take(i), seq![c2], p);
        assert(seq![c].drop_first() =~= Seq::<Node>::empty());
        assert(seq![c2].drop_first() =~= Seq::<Node>::empty());
        assert(count_seq(Seq::<Node>::empty(), p) == 0);
        assert(count_seq(seq![c], p) == count_node(c, p));
        assert(count_seq(seq![c2], p) == count_node(c2, p));
        assert(!n.is_leaf() && !m.is_leaf());
    }
}

/// The node a non-empty path reaches is the child indexed by the path's
/// last step inside the node its prefix reaches.
pub proof fn lemma_node_at_last(n: Node, path: Seq<usize>)
    requires
        path.len() >= 1,
        valid_path(n, path),
    ensures
        path.last() < node_at(n, path.drop_last()).children@.len(),
        node_at(n, path) == node_at(n, path.drop_last()).children@[path.last() as int],
    decreases path.len(),
{
    if path.len() == 1 {
        assert(path.drop_last() =~= Seq::<usize>::empty());
        assert(path.drop_first() =~= Seq::<usize>::empty());
        assert(node_at(n, Seq::<usize>::empty()) == n);
        assert(node_at(n.children@[path[0] as int], Seq::<usize>::empty()) == n.children@[path[0] as int]);
    } else {
        let c = n.children@[path[0] as int];
        lemma_node_at_last(c, path.drop_first());
        assert(path.drop_last()[0] == path[0]);
        assert(path.drop_last().drop_first() =~= path.drop_first().drop_last());
        assert(path.drop_first().last() == path.last());
    }
}

/// A valid path whose prefix is valid and whose last index is in range is
/// valid as a whole whenever it reaches a leaf-or-any node; conversely a
/// valid splice position yields a valid path when the count covers one
/// child.
pub proof fn lemma_valid_splice_path(n: Node, path: Seq<usize>)
    requires
        path.len() >= 1,
        valid_path(n, path.drop_last()),
        path.last() < node_at(n, path.drop_last()).children@.len(),
    ensures
        valid_path(n, path),
    decreases path.len(),
{
    if path.len() == 1 {
        assert(path.drop_last() =~= Seq::<usize>::empty());
        assert(path.drop_first() =~= Seq::<usize>::empty());
        assert(node_at(n, Seq::<usize>::empty()) == n);
        assert(valid_path(n.children@[path[0] as int], Seq::<usize>::empty()));
    } else {
        let c = n.children@[path[0] as int];
        assert(path.drop_last()[0] == path[0]);
        assert(path.drop_last().drop_first() =~= path.drop_first().drop_last());
        assert(path.drop_first().last() == path.last());
        assert(node_at(n, path.drop_last()) == node_at(c, path.drop_first().drop_last()));
        lemma_valid_splice_path(c, path.drop_first());
    }
}

/// Splicing preserves the tiling invariants when the replacements are
/// well-formed, carry the orientation one level below the parent, keep the
/// parent's cross extent, and their along extents sum to what was removed.
pub proof fn lemma_splice_wf(n: Node, path: Seq<usize>, count: int, reps: Seq<Node>, m: Node)
    requires
        n.wf(),
        valid_splice(n, path, count),
        is_splice(n, path, count, reps, m),
        reps.len() >= 1,
        forall|j: int| 0 <= j < reps.len() ==> (#[trigger] reps[j]).wf(),
        forall|j: int|
            0 <= j < reps.len() ==> (#[trigger] reps[j]).next_cut_orient == flip(
                node_at(n, path.drop_last()).next_cut_orient,
            ),
        forall|j: int|
            0 <= j < reps.len() ==> cross_len(
                #[trigger] reps[j],
                node_at(n, path.drop_last()).next_cut_orient,
            ) == cross_len(node_at(n, path.drop_last()), node_at(n, path.drop_last()).next_cut_orient),
        along_sum(reps, node_at(n, path.drop_last()).next_cut_orient) == along_sum(
            spliced_out(n, path, count),
            node_at(n, path.drop_last()).next_cut_orient,
        ),
    ensures
        m.wf(),
    decreases path.len(),
{
    let i = path[0] as int;
    let o = n.next_cut_orient;
    if path.len() == 1 {
        assert(path.drop_last() =~= Seq::<usize>::empty());
        assert(node_at(n, Seq::<usize>::empty()) == n);
        let s = n.children@;
        assert(s =~= s.take(i) + s.subrange(i, i + count) + s.skip(i + count));
        lemma_along_sum_concat(s.take(i) + s.subrange(i, i + count), s.skip(i + count), o);
        lemma_along_sum_concat(s.take(i), s.subrange(i, i + count), o);
        lemma_along_sum_concat(s.take(i) + reps, s.skip(i + count), o);
        lemma_along_sum_concat(s.take(i), reps, o);
        assert(spliced_out(n, path, count) =~= s.subrange(i, i + count));
        assert(!n.is_leaf());
        assert(along_sum(m.children@, o) == along_len(m, o));
        assert forall|j: int| 0 <= j < m.children@.len() implies {
            &&& (#[trigger] m.children@[j]).next_cut_orient == flip(m.next_cut_orient)
            &&& cross_len(m.children@[j], m.next_cut_orient) == cross_len(m, m.next_cut_orient)
            &&& m.children@[j].wf()
        } by {
            if j < i {
                assert(m.children@[j] == s[j]);
            } else if j < i + reps.len() {
                assert(m.children@[j] == reps[j - i]);
            } else {
                assert(m.children@[j] == s[j - reps.len() + count]);
            }
        }
        assert(!m.is_leaf());
    } else {
        let c = n.children@[i];
        let c2 = m.children@[i];
        assert(path.drop_last()[0] == path[0]);
        assert(path.drop_last().drop_first() =~= path.drop_first().drop_last());
        assert(path.drop_first().last() == path.last());
        assert(node_at(n, path.drop_last()) == node_at(c, path.drop_first().drop_last()));
        assert(valid_splice(c, path.drop_first(), count));
        assert(spliced_out(n, path, count) =~= spliced_out(c, path.drop_first(), count));
        assert(is_splice(c, path.drop_first(), count, reps, c2));
        assert(c2.width == c.width && c2.height == c.height && c2.next_cut_orient
            == c.next_cut_orient && c2.parttype_id == c.parttype_id);
        lemma_splice_wf(c, path.drop_first(), count, reps, c2);
        let s = n.children@;
        let s2 = m.children@;
        lemma_seq_split_at(s, i);
        assert(s2 =~= s.take(i) + seq![c2] + s.skip(i + 1));
        lemma_along_sum_concat(s.take(i) + seq![c], s.skip(i + 1), o);
        lemma_along_sum_concat(s.take(i), seq![c], o);
        lemma_along_sum_concat(s.take(i) + seq![c2], s.skip(i + 1), o);
        lemma_along_sum_concat(s.take(i), seq![c2], o);
        assert(seq![c].drop_first() =~= Seq::<Node>::empty());
        assert(seq![c2].drop_first() =~= Seq::<Node>::empty());
        assert(along_sum(Seq::<Node>::empty(), o) == 0);
        assert(along_len(c2, o) == along_len(c, o));
        assert(along_sum(m.children@, o) == along_sum(n.children@, o));
        assert forall|j: int| 0 <= j < m.children@.len() implies {
            &&& (#[trigger] m.children@[j]).next_cut_orient == flip(m.next_cut_orient)
            &&& cross_len(m.children@[j], m.next_cut_orient) == cross_len(m, m.next_cut_orient)
            &&& m.children@[j].wf()
        } by {
            if j != i {
                assert(m.children@[j] == s[j]);
            }
        }
        assert(!m.is_leaf());
    }
}

/// Structural equality of trees: same rectangles, orientations and part
/// assignments all the way down.
pub open spec fn same_tree(a: Node, b: Node) -> bool
    decreases a,
{
    &&& a.width == b.width
    &&& a.height == b.height
    &&& a.next_cut_orient == b.next_cut_orient
    &&& a.parttype_id == b.parttype_id
    &&& a.children@.len() == b.children@.len()
    &&& forall|i: int|
        0 <= i < a.children@.len() ==> same_tree(#[trigger] a.children@[i], b.children@[i])
}

pub proof fn lemma_same_tree_refl(n: Node)
    ensures
        same_tree(n, n),
    decreases n,
{
    assert forall|i: int| 0 <= i < n.children@.len() implies same_tree(
        #[trigger] n.children@[i],
        n.children@[i],
    ) by {
        lemma_same_tree_refl(n.children@[i]);
    }
}

/// Splicing leaves the rest of the tree alone: a second splice that puts
/// the original children back restores the original tree, structurally.
pub proof fn lemma_splice_round_trip(
    n: Node,
    path: Seq<usize>,
    reps: Seq<Node>,
    m: Node,
    m2: Node,
)
    requires
        valid_splice(n, path, 1),
        is_splice(n, path, 1, reps, m),
        reps.len() >= 1,
        is_splice(m, path, reps.len() as int, spliced_out(n, path, 1), m2),
    ensures
        same_tree(m2, n),
    decreases path.len(),
{
    let i = path[0] as int;
    if path.len() == 1 {
        assert(path.drop_last() =~= Seq::<usize>::empty());
        assert(node_at(n, Seq::<usize>::empty()) == n);
        assert(node_at(m, Seq::<usize>::empty()) == m);
        let s = n.children@;
        let orig = spliced_out(n, path, 1);
        assert(orig =~= seq![s[i]]);
        assert(m.children@.take(i) =~= s.take(i));
        assert(m.children@.skip(i + reps.len()) =~= s.skip(i + 1));
        assert(m2.children@ =~= s.take(i) + seq![s[i]] + s.skip(i + 1));
        lemma_seq_split_at(s, i);
        assert(m2.children@ =~= s);
        assert(m2.width == n.width && m2.height == n.height && m2.next_cut_orient
            == n.next_cut_orient && m2.parttype_id == n.parttype_id);
        assert forall|j: int| 0 <= j < m2.children@.len() implies same_tree(
            #[trigger] m2.children@[j],
            n.children@[j],
        ) by {
            assert(m2.children@[j] == n.children@[j]);
            lemma_same_tree_refl(n.children@[j]);
        }
    } else {
        let c = n.children@[i];
        let c2 = m.children@[i];
        let c3 = m2.children@[i];
        assert(path.drop_last()[0] == path[0]);
        assert(path.drop_last().drop_first() =~= path.drop_first().drop_last());
        assert(path.drop_first().last() == path.last());
        assert(node_at(n, path.drop_last()) == node_at(c, path.drop_first().drop_last()));
        assert(valid_splice(c, path.drop_first(), 1));
        assert(spliced_out(n, path, 1) =~= spliced_out(c, path.drop_first(), 1));
        assert(is_splice(c, path.drop_first(), 1, reps, c2));
        assert(is_splice(c2, path.drop_first(), reps.len() as int, spliced_out(n, path, 1), c3));
        lemma_splice_round_trip(c, path.drop_first(), reps, c2, c3);
        assert(m.children@ == n.children@.update(i, c2));
        assert(m2.children@ == m.children@.update(i, c3));
        assert(m2.width == n.width && m2.height == n.height && m2.next_cut_orient
            == n.next_cut_orient && m2.parttype_id == n.parttype_id);
        assert(m2.children@.len() == n.children@.len());
        assert forall|j: int| 0 <= j < m2.children@.len() implies same_tree(
            #[trigger] m2.children@[j],
            n.children@[j],
        ) by {
            if j == i {
                assert(m2.children@[j] == c3);
            } else {
                assert(m2.children@[j] == n.children@[j]);
                lemma_same_tree_refl(n.children@[j]);
            }
        }
    }
}

/// Splicing keeps every structure below the root filled, provided the
/// replacements are filled and bring at least as many items as the
/// spliced-out children held.
pub proof fn lemma_splice_filled(n: Node, path: Seq<usize>, count: int, reps: Seq<Node>, m: Node)
    requires
        valid_splice(n, path, count),
        is_splice(n, path, count, reps, m),
        reps.len() >= 1,
        forall|j: int| 0 <= j < n.children@.len() ==> (#[trigger] n.children@[j]).filled(),
        forall|j: int| 0 <= j < reps.len() ==> (#[trigger] reps[j]).filled(),
        path.len() > 1 ==> count_seq(spliced_out(n, path, count), is_item_pred()) <= count_seq(
            reps,
            is_item_pred(),
        ),
    ensures
        forall|j: int| 0 <= j < m.children@.len() ==> (#[trigger] m.children@[j]).filled(),
    decreases path.len(),
{
    let i = path[0] as int;
    if path.len() == 1 {
        let s = n.children@;
        assert forall|j: int| 0 <= j < m.children@.len() implies (
        #[trigger] m.children@[j]).filled() by {
            if j < i {
                assert(m.children@[j] == s[j]);
            } else if j < i + reps.len() {
                assert(m.children@[j] == reps[j - i]);
            } else {
                assert(m.children@[j] == s[j - reps.len() + count]);
            }
        }
    } else {
        let c = n.children@[i];
        let c2 = m.children@[i];
        assert(path.drop_last()[0] == path[0]);
        assert(path.drop_last().drop_first() =~= path.drop_first().drop_last());
        assert(path.drop_first().last() == path.last());
        assert(node_at(n, path.drop_last()) == node_at(c, path.drop_first().drop_last()));
        assert(valid_splice(c, path.drop_first(), count));
        assert(spliced_out(n, path, count) =~= spliced_out(c, path.drop_first(), count));
        assert(is_splice(c, path.drop_first(), count, reps, c2));
        assert(!c.is_leaf());
        assert(c.filled());
        lemma_splice_filled(c, path.drop_first(), count, reps, c2);
        lemma_splice_count(c, path.drop_first(), count, reps, c2, is_item_pred());
        assert(count_node(c2, is_item_pred()) >= count_node(c, is_item_pred()));
        assert(c2.filled());
        assert forall|j: int| 0 <= j < m.children@.len() implies (
        #[trigger] m.children@[j]).filled() by {
            if j != i {
                assert(m.children@[j] == n.children@[j]);
            }
        }
    }
}

/// Structurally equal trees agree on well-formedness.
pub proof fn lemma_same_tree_wf(a: Node, b: Node)
    requires
        same_tree(a, b),
        a.wf(),
    ensures
        b.wf(),
    decreases a,
{
    if !a.is_leaf() {
        assert forall|j: int| 0 <= j < b.children@.len() implies {
            &&& (#[trigger] b.children@[j]).next_cut_orient == flip(b.next_cut_orient)
            &&& cross_len(b.children@[j], b.next_cut_orient) == cross_len(b, b.next_cut_orient)
            &&& b.children@[j].wf()
        } by {
            assert(same_tree(a.children@[j], b.children@[j]));
            lemma_same_tree_wf(a.children@[j], b.children@[j]);
        }
        assert forall|j: int| 0 <= j < a.children@.len() implies along_len(
            #[trigger] a.children@[j],
            a.next_cut_orient,
        ) == along_len(b.children@[j], a.next_cut_orient) by {
            assert(same_tree(a.children@[j], b.children@[j]));
        }
        lemma_along_sum_pointwise(a.children@, b.children@, a.next_cut_orient);
    }
}

/// Along sums agree on sequences of pairwise equal extents.
pub proof fn lemma_along_sum_pointwise(a: Seq<Node>, b: Seq<Node>, o: Orientation)
    requires
        a.len() == b.len(),
        forall|j: int| 0 <= j < a.len() ==> along_len(#[trigger] a[j], o) == along_len(b[j], o),
    ensures
        along_sum(a, o) == along_sum(b, o),
    decreases a,
{
    if a.len() > 0 {
        lemma_along_sum_pointwise(a.drop_first(), b.drop_first(), o);
    }
}

/// Structurally equal trees hold the same leaves, as far as a predicate
/// that respects structural equality can tell.
pub proof fn lemma_same_tree_count(a: Node, b: Node, p: spec_fn(Node) -> bool)
    requires
        same_tree(a, b),
        forall|x: Node, y: Node| #[trigger] same_tree(x, y) ==> p(x) == p(y),
    ensures
        count_node(a, p) == count_node(b, p),
    decreases a,
{
    if a.is_leaf() {
        lemma_same_tree_refl(a);
        assert(same_tree(a, a));
    } else {
        lemma_same_tree_count_seq(a.children@, b.children@, p);
    }
}

pub proof fn lemma_same_tree_count_seq(a: Seq<Node>, b: Seq<Node>, p: spec_fn(Node) -> bool)
    requires
        a.len() == b.len(),
        forall|j: int| 0 <= j < a.len() ==> same_tree(#[trigger] a[j], b[j]),
        forall|x: Node, y: Node| #[trigger] same_tree(x, y) ==> p(x) == p(y),
    ensures
        count_seq(a, p) == count_seq(b, p),
    decreases a,
{
    if a.len() > 0 {
        lemma_same_tree_count(a[0], b[0], p);
        lemma_same_tree_count_seq(a.drop_first(), b.drop_first(), p);
    }
}

/// Structural equality is symmetric.
pub proof fn lemma_same_tree_sym(a: Node, b: Node)
    requires
        same_tree(a, b),
    ensures
        same_tree(b, a),
    decreases a,
{
    assert forall|i: int| 0 <= i < b.children@.len() implies same_tree(
        #[trigger] b.children@[i],
        a.children@[i],
    ) by {
        lemma_same_tree_sym(a.children@[i], b.children@[i]);
    }
}

/// Structurally equal trees have the same paths, reaching structurally
/// equal nodes.
pub proof fn lemma_same_tree_node_at(a: Node, b: Node, path: Seq<usize>)
    requires
        same_tree(a, b),
        valid_path(a, path),
    ensures
        valid_path(b, path),
        same_tree(node_at(a, path), node_at(b, path)),
    decreases path.len(),
{
    if path.len() == 0 {
    } else {
        let i = path[0] as int;
        assert(same_tree(a.children@[i], b.children@[i]));
        lemma_same_tree_node_at(a.children@[i], b.children@[i], path.drop_first());
    }
}

/// A leaf satisfying `p` reached by a valid path witnesses a positive count.
pub proof fn lemma_count_at_least_one(n: Node, path: Seq<usize>, p: spec_fn(Node) -> bool)
    requires
        valid_path(n, path),
        node_at(n, path).is_leaf(),
        p(node_at(n, path)),
    ensures
        count_node(n, p) >= 1,
    decreases path.len(),
{
    if path.len() == 0 {
    } else {
        let i = path[0] as int;
        lemma_count_at_least_one(n.children@[i], path.drop_first(), p);
        lemma_count_seq_element(n.children@, i, p);
        assert(!n.is_leaf());
    }
}

/// A tree with no items at all has no items of any one part type.
pub proof fn lemma_no_items_no_part(n: Node, pt: usize)
    requires
        count_node(n, is_item_pred()) == 0,
    ensures
        count_node(n, is_item_of(pt)) == 0,
    decreases n,
{
    lemma_count_node_nonneg(n, is_item_of(pt));
    if n.is_leaf() {
        assert(is_item_of(pt)(n) ==> is_item_pred()(n));
    } else {
        lemma_no_items_no_part_seq(n.children@, pt);
    }
}

pub proof fn lemma_no_items_no_part_seq(s: Seq<Node>, pt: usize)
    requires
        count_seq(s, is_item_pred()) == 0,
    ensures
        count_seq(s, is_item_of(pt)) == 0,
    decreases s,
{
    if s.len() > 0 {
        lemma_count_node_nonneg(s[0], is_item_pred());
        lemma_count_seq_nonneg(s.drop_first(), is_item_pred());
        lemma_no_items_no_part(s[0], pt);
        lemma_no_items_no_part_seq(s.drop_first(), pt);
    }
}

/// Item-selecting predicates respect structural equality.
pub proof fn lemma_item_preds_respect_same_tree()
    ensures
        forall|x: Node, y: Node| #[trigger] same_tree(x, y) ==> is_item_pred()(x) == is_item_pred()(y),
        forall|pt: usize, x: Node, y: Node|
            #![trigger same_tree(x, y), is_item_of(pt)]
            same_tree(x, y) ==> is_item_of(pt)(x) == is_item_of(pt)(y),
{
}

/// Each element's leaf count is at most the sequence's.
pub proof fn lemma_count_seq_element(s: Seq<Node>, i: int, p: spec_fn(Node) -> bool)
    requires
        0 <= i < s.len(),
    ensures
        count_node(s[i], p) <= count_seq(s, p),
    decreases s,
{
    if i == 0 {
        lemma_count_seq_nonneg(s.drop_first(), p);
    } else {
        lemma_count_node_nonneg(s[0], p);
        lemma_count_seq_element(s.drop_first(), i - 1, p);
    }
}

/// Among filled children, holding no item at all is the same as every
/// child being a leftover leaf.
pub proof fn lemma_filled_children_items(s: Seq<Node>)
    requires
        forall|j: int| 0 <= j < s.len() ==> (#[trigger] s[j]).filled(),
    ensures
        count_seq(s, is_item_pred()) == 0 <==> forall|j: int|
            0 <= j < s.len() ==> (#[trigger] s[j]).is_leftover(),
    decreases s,
{
    lemma_count_seq_nonneg(s, is_item_pred());
    if s.len() > 0 {
        lemma_filled_children_items(s.drop_first());
        lemma_count_node_nonneg(s[0], is_item_pred());
        lemma_count_seq_nonneg(s.drop_first(), is_item_pred());
        if s[0].is_leftover() {
            assert(count_node(s[0], is_item_pred()) == 0);
        } else if s[0].is_leaf() {
            assert(count_node(s[0], is_item_pred()) == 1);
        } else {
            assert(count_node(s[0], is_item_pred()) > 0);
        }
        assert forall|j: int| 0 <= j < s.len() && count_seq(s, is_item_pred()) == 0 implies (
        #[trigger] s[j]).is_leftover() by {
            if j > 0 {
                assert(s.drop_first()[j - 1] == s[j]);
            }
        }
    }
}

/// Leftover leaves carry no items.
pub proof fn lemma_count_seq_all_leftover(s: Seq<Node>, p: spec_fn(Node) -> bool)
    requires
        forall|j: int| 0 <= j < s.len() ==> (#[trigger] s[j]).is_leftover(),
        forall|x: Node| x.is_leftover() ==> !p(x),
    ensures
        count_seq(s, p) == 0,
    decreases s,
{
    if s.len() > 0 {
        assert forall|j: int| 0 <= j < s.drop_first().len() implies (
        #[trigger] s.drop_first()[j]).is_leftover() by {
            assert(s.drop_first()[j] == s[j + 1]);
        }
        lemma_count_seq_all_leftover(s.drop_first(), p);
        assert(s[0].is_leftover());
        assert(!p(s[0]));
        assert(count_node(s[0], p) == 0);
    }
}

impl Node {
    /// A leftover leaf.
    pub fn new_leftover(width: u64, height: u64, next_cut_orient: Orientation) -> (r: Node)
        ensures
            r == (Node {
                width,
                height,
                next_cut_orient,
                parttype_id: None::<usize>,
                children: r.children,
            }),
            r.children@ =~= Seq::<Node>::empty(),
            r.is_leftover(),
    {
        Node { width, height, next_cut_orient, parttype_id: None, children: Vec::new() }
    }

    /// An item leaf holding one unit of part type `pt`.
    pub fn new_item(width: u64, height: u64, next_cut_orient: Orientation, pt: usize) -> (r: Node)
        ensures
            r == (Node {
                width,
                height,
                next_cut_orient,
                parttype_id: Some(pt),
                children: r.children,
            }),
            r.children@ =~= Seq::<Node>::empty(),
            r.is_item(),
    {
        Node { width, height, next_cut_orient, parttype_id: Some(pt), children: Vec::new() }
    }

    /// A structure node over the given children.
    pub fn new_structure(
        width: u64,
        height: u64,
        next_cut_orient: Orientation,
        children: Vec<Node>,
    ) -> (r: Node)
        ensures
            r == (Node {
                width,
                height,
                next_cut_orient,
                parttype_id: None::<usize>,
                children: r.children,
            }),
            r.children@ == children@,
    {
        Node { width, height, next_cut_orient, parttype_id: None, children }
    }

    /// An independent, structurally identical copy of the subtree.
    pub fn deep_copy(&self) -> (r: Node)
        ensures
            same_tree(r, *self),
        decreases *self,
    {
        let mut children: Vec<Node> = Vec::new();
        let mut i: usize = 0;
        while i < self.children.len()
            invariant
                0 <= i <= self.children@.len(),
                children@.len() == i,
                forall|j: int|
                    0 <= j < i ==> same_tree(#[trigger] children@[j], self.children@[j]),
            decreases self.children@.len() - i,
        {
            proof {
                assert(decreases_to!(*self => self.children@[i as int]));
            }
            let c = self.children[i].deep_copy();
            children.push(c);
            i = i + 1;
        }
        Node {
            width: self.width,
            height: self.height,
            next_cut_orient: self.next_cut_orient,
            parttype_id: self.parttype_id,
            children,
        }
    }
}

/// Replace the `count` children addressed by `path` from `depth` on with
/// `reps`, preserving everything else.
pub fn splice_node(node: Node, path: &Vec<usize>, depth: usize, count: usize, reps: Vec<Node>) -> (r:
    Node)
    requires
        depth < path@.len(),
        count >= 1,
        valid_splice(node, path@.skip(depth as int), count as int),
    ensures
        is_splice(node, path@.skip(depth as int), count as int, reps@, r),
    decreases path@.len() - depth,
{
    let ghost sp = path@.skip(depth as int);
    let ghost n0 = node;
    let ghost r0 = reps@;
    let mut node = node;
    let ghost orig = node.children@;
    let i = path[depth];
    if depth == path.len() - 1 {
        proof {
            assert(sp.len() == 1);
            assert(sp.drop_last() =~= Seq::<usize>::empty());
            assert(node_at(node, Seq::<usize>::empty()) == node);
            assert(sp[0] == path@[depth as int]);
            assert(sp.last() == i);
            assert(i + count <= orig.len());
        }
        let mut k: usize = 0;
        while k < count
            invariant
                0 <= k <= count,
                i + count <= orig.len(),
                node.children@ == orig.take(i as int) + orig.skip(i + k),
                node.width == n0.width,
                node.height == n0.height,
                node.next_cut_orient == n0.next_cut_orient,
                node.parttype_id == n0.parttype_id,
            decreases count - k,
        {
            proof {
                assert(node.children@.len() == orig.len() - k);
            }
            node.children.remove(i);
            proof {
                assert(node.children@ =~= orig.take(i as int) + orig.skip(i + k + 1));
            }
            k = k + 1;
        }
        let mut reps = reps;
        let ghost orig_reps = reps@;
        while reps.len() > 0
            invariant
                i + count <= orig.len(),
                reps@.len() <= orig_reps.len(),
                reps@ == orig_reps.take(reps@.len() as int),
                node.children@ == orig.take(i as int) + orig_reps.skip(reps@.len() as int)
                    + orig.skip(i + count),
                node.width == n0.width,
                node.height == n0.height,
                node.next_cut_orient == n0.next_cut_orient,
                node.parttype_id == n0.parttype_id,
            decreases reps@.len(),
        {
            let ghost len0 = reps@.len() as int;
            let x = reps.pop().unwrap();
            proof {
                assert(x == orig_reps[len0 - 1]);
                assert(reps@ =~= orig_reps.take(len0 - 1));
            }
            node.children.insert(i, x);
            proof {
                assert(node.children@ =~= orig.take(i as int) + orig_reps.skip(len0 - 1)
                    + orig.skip(i + count));
            }
        }
        proof {
            assert(orig_reps.skip(0) =~= orig_reps);
            assert(node.children@ == orig.take(i as int) + orig_reps + orig.skip(i + count));
            assert(node.width == n0.width && node.height == n0.height && node.next_cut_orient
                == n0.next_cut_orient && node.parttype_id == n0.parttype_id);
            assert(is_splice(n0, sp, count as int, r0, node));
        }
        node
    } else {
        proof {
            assert(sp[0] == path@[depth as int]);
            assert(sp.drop_last()[0] == sp[0]);
            assert(sp.drop_last().len() >= 1);
            assert(i < node.children@.len());
            assert(sp.drop_last().drop_first() =~= sp.drop_first().drop_last());
            assert(sp.drop_first().last() == sp.last());
            assert(node_at(node, sp.drop_last()) == node_at(
                node.children@[i as int],
                sp.drop_first().drop_last(),
            ));
            assert(valid_splice(node.children@[i as int], sp.drop_first(), count as int));
            assert(sp.drop_first() =~= path@.skip(depth + 1));
        }
        let child = node.children.remove(i);
        let child2 = splice_node(child, path, depth + 1, count, reps);
        node.children.insert(i, child2);
        proof {
            assert(node.children@ =~= orig.update(i as int, child2));
            assert(node.children@[i as int] == child2);
            assert(node.width == n0.width && node.height == n0.height && node.next_cut_orient
                == n0.next_cut_orient && node.parttype_id == n0.parttype_id);
            assert(is_splice(n0, sp, count as int, r0, node));
        }
        node
    }
}

/// Well-formedness descends along valid paths.
pub proof fn lemma_wf_at(n: Node, path: Seq<usize>)
    requires
        n.wf(),
        valid_path(n, path),
    ensures
        node_at(n, path).wf(),
    decreases path.len(),
{
    if path.len() > 0 {
        lemma_wf_at(n.children@[path[0] as int], path.drop_first());
    }
}

/// Any node reached by a valid path fits inside the root's rectangle.
pub proof fn lemma_node_at_dims(n: Node, path: Seq<usize>)
    requires
        n.wf(),
        valid_path(n, path),
    ensures
        node_at(n, path).width <= n.width,
        node_at(n, path).height <= n.height,
    decreases path.len(),
{
    if path.len() > 0 {
        let c = n.children@[path[0] as int];
        lemma_along_sum_element(n.children@, n.next_cut_orient, path[0] as int);
        assert(along_len(c, n.next_cut_orient) <= along_len(n, n.next_cut_orient));
        assert(cross_len(c, n.next_cut_orient) == cross_len(n, n.next_cut_orient));
        assert(c.width <= n.width && c.height <= n.height);
        lemma_node_at_dims(c, path.drop_first());
    }
}

} // verus!
