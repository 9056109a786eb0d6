//! Enumeration of feasible insertion blueprints for one part type over the
//! layouts of a problem.

use vstd::prelude::*;

use crate::blueprint::{InsertionBlueprint, LayoutRef};
use crate::entities::{flip, Orientation, PartType, Rotation};
use crate::layout::Layout;
use crate::node::{
    along_len, along_sum, count_node, count_seq, cross_len, is_item_of, is_item_pred,
    lemma_node_at_last, lemma_wf_at, node_at, valid_path, Node,
};
use crate::problem::Problem;

verus! {

/// Whether one unit of `part`, under rotation `rot`, fits inside `leaf`.
pub open spec fn fits(part: PartType, rot: Rotation, leaf: Node) -> bool {
    part.rotated_width(rot) <= leaf.width && part.rotated_height(rot) <= leaf.height
}

/// Paths (relative to `n`, hence non-empty) of all leftover leaves strictly
/// below `n`: every returned path addresses a leftover leaf, and every
/// leftover leaf's path is returned.
pub fn leftover_paths(n: &Node) -> (r: Vec<Vec<usize>>)
    ensures
        forall|j: int|
            0 <= j < r@.len() ==> (#[trigger] r@[j])@.len() >= 1 && valid_path(*n, r@[j]@)
                && node_at(*n, r@[j]@).is_leftover(),
        forall|path: Seq<usize>|
            path.len() >= 1 && valid_path(*n, path) && (#[trigger] node_at(
                *n,
                path,
            )).is_leftover() ==> exists|j: int| 0 <= j < r@.len() && r@[j]@ == path,
    decreases *n,
{
    let mut out: Vec<Vec<usize>> = Vec::new();
    let mut i: usize = 0;
    while i < n.children.len()
        invariant
            0 <= i <= n.children@.len(),
            forall|j: int|
                0 <= j < out@.len() ==> (#[trigger] out@[j])@.len() >= 1 && valid_path(
                    *n,
                    out@[j]@,
                ) && node_at(*n, out@[j]@).is_leftover(),
            forall|path: Seq<usize>|
                path.len() >= 1 && path[0] < i && valid_path(*n, path) && (#[trigger] node_at(
                    *n,
                    path,
                )).is_leftover() ==> exists|j: int| 0 <= j < out@.len() && out@[j]@ == path,
        decreases n.children@.len() - i,
    {
        let ghost out_before = out@;
        let c = &n.children[i];
        if c.children.len() == 0 {
            if c.parttype_id.is_none() {
                let mut p: Vec<usize> = Vec::new();
                p.push(i);
                proof {
                    assert(p@ =~= seq![i]);
                    assert(p@.drop_first() =~= Seq::<usize>::empty());
                    assert(valid_path(n.children@[i as int], Seq::<usize>::empty()));
                    assert(node_at(n.children@[i as int], Seq::<usize>::empty())
                        == n.children@[i as int]);
                    assert(valid_path(*n, p@));
                    assert(node_at(*n, p@).is_leftover());
                }
                out.push(p);
            }
        } else {
            proof {
                assert(decreases_to!(*n => n.children@[i as int]));
            }
            let sub = leftover_paths(c);
            let mut k: usize = 0;
            while k < sub.len()
                invariant
                    0 <= k <= sub@.len(),
                    0 <= i < n.children@.len(),
                    c == &n.children@[i as int],
                    forall|j: int|
                        0 <= j < sub@.len() ==> (#[trigger] sub@[j])@.len() >= 1 && valid_path(
                            *c,
                            sub@[j]@,
                        ) && node_at(*c, sub@[j]@).is_leftover(),
                    forall|j: int|
                        0 <= j < out@.len() ==> (#[trigger] out@[j])@.len() >= 1 && valid_path(
                            *n,
                            out@[j]@,
                        ) && node_at(*n, out@[j]@).is_leftover(),
                    out_before.len() <= out@.len(),
                    forall|j: int| 0 <= j < out_before.len() ==> out@[j] == out_before[j],
                    forall|jk: int|
                        0 <= jk < k ==> exists|j: int|
                            0 <= j < out@.len() && out@[j]@ == seq![i].add(
                                #[trigger] sub@[jk]@,
                            ),
                decreases sub@.len() - k,
            {
                let mut p: Vec<usize> = Vec::new();
                p.push(i);
                let q = &sub[k];
                let mut t: usize = 0;
                while t < q.len()
                    invariant
                        0 <= t <= q@.len(),
                        p@ == seq![i].add(q@.take(t as int)),
                    decreases q@.len() - t,
                {
                    p.push(q[t]);
                    proof {
                        assert(p@ =~= seq![i].add(q@.take(t + 1)));
                    }
                    t = t + 1;
                }
                proof {
                    assert(q@.take(q@.len() as int) =~= q@);
                    assert(p@ == seq![i].add(q@));
                    assert(p@[0] == i);
                    assert(p@.drop_first() =~= q@);
                    assert(valid_path(*n, p@));
                    assert(node_at(*n, p@) == node_at(n.children@[i as int], q@));
                }
                let ghost out_pre = out@;
                out.push(p);
                proof {
                    assert(out@[out@.len() - 1]@ == seq![i].add(sub@[k as int]@));
                    assert forall|jk: int| 0 <= jk < k + 1 implies exists|j: int|
                        0 <= j < out@.len() && out@[j]@ == seq![i].add(#[trigger] sub@[jk]@) by {
                        if jk < k {
                            let j = choose|j: int|
                                0 <= j < out_pre.len() && (#[trigger] out_pre[j])@ == seq![i].add(
                                    sub@[jk]@,
                                );
                            assert(out@[j] == out_pre[j]);
                        } else {
                            assert(out@[out@.len() - 1]@ == seq![i].add(sub@[jk]@));
                        }
                    }
                }
                k = k + 1;
            }
            proof {
                // every leftover path through child i was collected: its
                // tail is one of the child's paths, all of which were
                // prefixed and pushed
                assert forall|path: Seq<usize>|
                    path.len() >= 1 && path[0] == i && valid_path(*n, path) && (#[trigger] node_at(
                        *n,
                        path,
                    )).is_leftover() implies exists|j: int|
                    0 <= j < out@.len() && out@[j]@ == path by {
                    let cc = n.children@[i as int];
                    assert(valid_path(cc, path.drop_first()));
                    assert(node_at(*n, path) == node_at(cc, path.drop_first()));
                    if path.len() == 1 {
                        // the child itself would be the leftover leaf, but
                        // it has children here
                        assert(path.drop_first() =~= Seq::<usize>::empty());
                        assert(node_at(cc, Seq::<usize>::empty()) == cc);
                        assert(!cc.is_leaf());
                        assert(false);
                    }
                    let jk = choose|jk: int|
                        0 <= jk < sub@.len() && (#[trigger] sub@[jk])@ == path.drop_first();
                    let j = choose|j: int|
                        0 <= j < out@.len() && (#[trigger] out@[j])@ == seq![i].add(sub@[jk]@);
                    assert(seq![i].add(path.drop_first()) =~= path);
                    assert(out@[j]@ == path);
                }
            }
        }
        proof {
            assert forall|path: Seq<usize>|
                path.len() >= 1 && path[0] < i + 1 && valid_path(*n, path) && (#[trigger] node_at(
                    *n,
                    path,
                )).is_leftover() implies exists|j: int|
                0 <= j < out@.len() && out@[j]@ == path by {
                if path[0] < i {
                    let j = choose|j: int|
                        0 <= j < out_before.len() && (#[trigger] out_before[j])@ == path;
                    assert(out@[j]@ == path);
                } else {
                    let cc = n.children@[i as int];
                    if cc.children@.len() == 0 {
                        // the only leftover path through a leaf child is the
                        // one-step path to the child itself
                        assert(valid_path(cc, path.drop_first()));
                        if path.len() > 1 {
                            assert(path.drop_first().len() >= 1);
                            assert(false);
                        }
                        assert(path.drop_first() =~= Seq::<usize>::empty());
                        assert(node_at(cc, Seq::<usize>::empty()) == cc);
                        assert(node_at(*n, path) == cc);
                        assert(cc.is_leftover());
                        assert(path =~= seq![path[0]]);
                        let j = out@.len() - 1;
                        assert(out@[j]@ == path);
                    }
                }
            }
        }
        i = i + 1;
    }
    proof {
        assert forall|path: Seq<usize>|
            path.len() >= 1 && valid_path(*n, path) && (#[trigger] node_at(
                *n,
                path,
            )).is_leftover() implies path[0] < n.children@.len() by {}
    }
    out
}

/// The node reached from `n` along `path`.
pub fn get_node<'a>(n: &'a Node, path: &Vec<usize>) -> (r: &'a Node)
    requires
        valid_path(*n, path@),
    ensures
        *r == node_at(*n, path@),
    decreases path@.len(),
{
    let mut cur: &Node = n;
    let mut d: usize = 0;
    proof {
        assert(path@.skip(0) =~= path@);
        assert(path@.take(0) =~= Seq::<usize>::empty());
        assert(node_at(*n, Seq::<usize>::empty()) == *n);
        assert(valid_path(*n, Seq::<usize>::empty()));
    }
    while d < path.len()
        invariant
            0 <= d <= path@.len(),
            valid_path(*n, path@),
            valid_path(*n, path@.take(d as int)),
            valid_path(*cur, path@.skip(d as int)),
            *cur == node_at(*n, path@.take(d as int)),
            node_at(*cur, path@.skip(d as int)) == node_at(*n, path@),
        decreases path@.len() - d,
    {
        proof {
            let sp = path@.skip(d as int);
            assert(sp[0] == path@[d as int]);
            assert(sp.drop_first() =~= path@.skip(d + 1));
            assert(path@.take(d + 1).drop_last() =~= path@.take(d as int));
            assert(path@.take(d + 1).last() == path@[d as int]);
            lemma_take_step(*n, path@, d as int);
        }
        cur = &cur.children[path[d]];
        d = d + 1;
    }
    proof {
        assert(path@.take(path@.len() as int) =~= path@);
    }
    cur
}

/// Walking one more step of a path is indexing the current node's child.
proof fn lemma_take_step(n: Node, path: Seq<usize>, d: int)
    requires
        0 <= d < path.len(),
        valid_path(n, path.take(d)),
        node_at(n, path.take(d)).children@.len() > path[d],
    ensures
        node_at(n, path.take(d + 1)) == node_at(n, path.take(d)).children@[path[d] as int],
        valid_path(n, path.take(d + 1)),
    decreases d,
{
    assert(path.take(d + 1).drop_last() =~= path.take(d));
    assert(path.take(d + 1).last() == path[d]);
    crate::node::lemma_valid_splice_path(n, path.take(d + 1));
    lemma_node_at_last(n, path.take(d + 1));
}

/// The canonical guillotine replacement for placing one `part_width` by
/// `part_height` item into a leftover leaf of the given dimensions and cut
/// orientation: a first cut along the parent's orientation separates the
/// item's band, a second, orthogonal cut separates the item from the rest
/// of the band; zero-extent leftovers are omitted, so an exact fit yields
/// the single item leaf.
pub fn build_replacements(
    leaf_width: u64,
    leaf_height: u64,
    leaf_orient: Orientation,
    part_width: u64,
    part_height: u64,
    pt: usize,
) -> (r: Vec<Node>)
    requires
        part_width <= leaf_width,
        part_height <= leaf_height,
    ensures
        r@.len() >= 1,
        forall|j: int| 0 <= j < r@.len() ==> (#[trigger] r@[j]).wf(),
        forall|j: int| 0 <= j < r@.len() ==> (#[trigger] r@[j]).filled(),
        forall|j: int| 0 <= j < r@.len() ==> (#[trigger] r@[j]).next_cut_orient == leaf_orient,
        forall|j: int|
            0 <= j < r@.len() ==> cross_len(#[trigger] r@[j], flip(leaf_orient)) == (match flip(
                leaf_orient,
            ) {
                Orientation::Horizontal => leaf_width,
                Orientation::Vertical => leaf_height,
            }),
        along_sum(r@, flip(leaf_orient)) == (match flip(leaf_orient) {
            Orientation::Horizontal => leaf_height,
            Orientation::Vertical => leaf_width,
        }),
        count_seq(r@, is_item_pred()) == 1,
        forall|pt2: usize|
            #![trigger is_item_of(pt2)]
            count_seq(r@, is_item_of(pt2)) == (if pt2 == pt {
                1int
            } else {
                0int
            }),
        part_width == leaf_width && part_height == leaf_height ==> r@.len() == 1
            && r@[0].is_item() && r@[0].width == part_width && r@[0].height == part_height,
{
    let o = match leaf_orient {
        Orientation::Horizontal => Orientation::Vertical,
        Orientation::Vertical => Orientation::Horizontal,
    };
    let (leaf_along, leaf_cross, part_along, part_cross): (u64, u64, u64, u64) = match o {
        Orientation::Horizontal => (leaf_height, leaf_width, part_height, part_width),
        Orientation::Vertical => (leaf_width, leaf_height, part_width, part_height),
    };
    proof {
        assert(o == flip(leaf_orient));
    }
    // the band holding the item: full cross extent, the item's along extent
    let piece = if part_cross == leaf_cross {
        let (w, h): (u64, u64) = match o {
            Orientation::Horizontal => (leaf_cross, part_along),
            Orientation::Vertical => (part_along, leaf_cross),
        };
        let single = Node::new_item(w, h, leaf_orient, pt);
        proof {
            assert(count_node(single, is_item_pred()) == 1);
            assert forall|pt2: usize|
                #![trigger is_item_of(pt2)]
                count_node(single, is_item_of(pt2)) == (if pt2 == pt {
                    1int
                } else {
                    0int
                }) by {
                assert(is_item_of(pt2)(single) <==> pt2 == pt);
            }
        }
        single
    } else {
        let (iw, ih): (u64, u64) = match o {
            Orientation::Horizontal => (part_cross, part_along),
            Orientation::Vertical => (part_along, part_cross),
        };
        let item = Node::new_item(iw, ih, o, pt);
        let (lw, lh): (u64, u64) = match o {
            Orientation::Horizontal => ((leaf_cross - part_cross) as u64, part_along),
            Orientation::Vertical => (part_along, (leaf_cross - part_cross) as u64),
        };
        let rest = Node::new_leftover(lw, lh, o);
        let mut band_children: Vec<Node> = Vec::new();
        band_children.push(item);
        band_children.push(rest);
        let ghost itemg = item;
        let ghost restg = rest;
        let (bw, bh): (u64, u64) = match o {
            Orientation::Horizontal => (leaf_cross, part_along),
            Orientation::Vertical => (part_along, leaf_cross),
        };
        let band = Node::new_structure(bw, bh, leaf_orient, band_children);
        proof {
            assert(band.children@ =~= seq![itemg, restg]);
            assert(band.children@.drop_first() =~= seq![restg]);
            assert(seq![restg].drop_first() =~= Seq::<Node>::empty());
            assert(along_sum(Seq::<Node>::empty(), leaf_orient) == 0);
            assert(along_sum(seq![restg], leaf_orient) == along_len(restg, leaf_orient));
            assert(along_sum(band.children@, leaf_orient) == along_len(itemg, leaf_orient)
                + along_len(restg, leaf_orient));
            assert(along_len(itemg, leaf_orient) + along_len(restg, leaf_orient) == along_len(
                band,
                leaf_orient,
            ));
            assert(itemg.wf() && restg.wf());
            assert(cross_len(itemg, leaf_orient) == cross_len(band, leaf_orient));
            assert(cross_len(restg, leaf_orient) == cross_len(band, leaf_orient));
            assert(band.wf());
            assert(count_seq(Seq::<Node>::empty(), is_item_pred()) == 0);
            assert(count_node(itemg, is_item_pred()) == 1);
            assert(count_node(restg, is_item_pred()) == 0);
            assert(count_seq(seq![restg], is_item_pred()) == count_node(restg, is_item_pred()));
            assert(count_node(band, is_item_pred()) == 1);
            assert(itemg.filled());
            assert(restg.filled());
            assert(band.filled());
            assert forall|pt2: usize|
                #![trigger is_item_of(pt2)]
                count_node(band, is_item_of(pt2)) == (if pt2 == pt {
                    1int
                } else {
                    0int
                }) by {
                assert(count_seq(Seq::<Node>::empty(), is_item_of(pt2)) == 0);
                assert(is_item_of(pt2)(itemg) <==> pt2 == pt);
                assert(count_node(itemg, is_item_of(pt2)) == (if pt2 == pt {
                    1int
                } else {
                    0int
                }));
                assert(count_node(restg, is_item_of(pt2)) == 0);
                assert(count_seq(seq![restg], is_item_of(pt2)) == 0);
            }
        }
        band
    };
    let ghost pieceg = piece;
    let mut r: Vec<Node> = Vec::new();
    if part_along == leaf_along {
        r.push(piece);
        proof {
            assert(r@ =~= seq![pieceg]);
            assert(r@.drop_first() =~= Seq::<Node>::empty());
            assert(along_sum(Seq::<Node>::empty(), o) == 0);
            assert(count_seq(Seq::<Node>::empty(), is_item_pred()) == 0);
            assert(along_sum(r@, o) == along_len(pieceg, o));
            lemma_build_counts(r@, pieceg, None, pt);
        }
    } else {
        let (rw, rh): (u64, u64) = match o {
            Orientation::Horizontal => (leaf_cross, (leaf_along - part_along) as u64),
            Orientation::Vertical => ((leaf_along - part_along) as u64, leaf_cross),
        };
        let rest = Node::new_leftover(rw, rh, leaf_orient);
        let ghost restg = rest;
        r.push(piece);
        r.push(rest);
        proof {
            assert(r@ =~= seq![pieceg, restg]);
            assert(r@.drop_first() =~= seq![restg]);
            assert(seq![restg].drop_first() =~= Seq::<Node>::empty());
            assert(along_sum(Seq::<Node>::empty(), o) == 0);
            assert(along_sum(seq![restg], o) == along_len(restg, o));
            assert(along_sum(r@, o) == along_len(pieceg, o) + along_len(restg, o));
            lemma_build_counts(r@, pieceg, Some(restg), pt);
        }
    }
    proof {
        if part_width == leaf_width && part_height == leaf_height {
            assert(r@[0] == pieceg);
        }
    }
    r
}

/// An owned copy of a path.
fn copy_path(p: &Vec<usize>) -> (r: Vec<usize>)
    ensures
        r@ == p@,
{
    let mut r: Vec<usize> = Vec::new();
    let mut t: usize = 0;
    while t < p.len()
        invariant
            0 <= t <= p@.len(),
            r@ == p@.take(t as int),
        decreases p@.len() - t,
    {
        r.push(p[t]);
        proof {
            assert(r@ =~= p@.take(t + 1));
        }
        t = t + 1;
    }
    proof {
        assert(p@.take(p@.len() as int) =~= p@);
    }
    r
}

/// All blueprints placing one unit of `parttype` into `layout`, over every
/// leftover leaf and every admissible rotation. Every returned blueprint
/// fits the layout and is bound to `lref`.
fn blueprints_for_layout(
    layout: &Layout,
    parttype: &PartType,
    lref: LayoutRef,
    material_cost: u64,
) -> (r: Vec<InsertionBlueprint>)
    requires
        layout.wf(),
        parttype.area_spec() <= u64::MAX,
    ensures
        forall|j: int|
            0 <= j < r@.len() ==> (#[trigger] r@[j]).fits_layout(*layout) && r@[j].layout == Some(
                lref,
            ) && r@[j].parttype == *parttype && exists|rot: Rotation|
                #[trigger] parttype.rotation_allowed_spec(rot) && fits(
                    *parttype,
                    rot,
                    node_at(layout.top_node, r@[j].original_node@),
                ),
        forall|path: Seq<usize>, rot: Rotation|
            #![trigger node_at(layout.top_node, path), parttype.rotation_allowed_spec(rot)]
            path.len() >= 1 && valid_path(layout.top_node, path) && node_at(
                layout.top_node,
                path,
            ).is_leftover() && parttype.rotation_allowed_spec(rot) && fits(
                *parttype,
                rot,
                node_at(layout.top_node, path),
            ) ==> exists|j: int| 0 <= j < r@.len() && (#[trigger] r@[j]).original_node@ == path,
{
    let mut out: Vec<InsertionBlueprint> = Vec::new();
    let paths = leftover_paths(&layout.top_node);
    let mut pi: usize = 0;
    while pi < paths.len()
        invariant
            layout.wf(),
            parttype.area_spec() <= u64::MAX,
            0 <= pi <= paths@.len(),
            forall|j: int|
                0 <= j < paths@.len() ==> (#[trigger] paths@[j])@.len() >= 1 && valid_path(
                    layout.top_node,
                    paths@[j]@,
                ) && node_at(layout.top_node, paths@[j]@).is_leftover(),
            forall|path: Seq<usize>|
                path.len() >= 1 && valid_path(layout.top_node, path) && (#[trigger] node_at(
                    layout.top_node,
                    path,
                )).is_leftover() ==> exists|j: int| 0 <= j < paths@.len() && paths@[j]@ == path,
            forall|j: int|
                0 <= j < out@.len() ==> (#[trigger] out@[j]).fits_layout(*layout) && out@[j].layout
                    == Some(lref) && out@[j].parttype == *parttype && exists|rot: Rotation|
                    #[trigger] parttype.rotation_allowed_spec(rot) && fits(
                        *parttype,
                        rot,
                        node_at(layout.top_node, out@[j].original_node@),
                    ),
            forall|jp: int, rot: Rotation|
                #![trigger paths@[jp], parttype.rotation_allowed_spec(rot)]
                0 <= jp < pi && parttype.rotation_allowed_spec(rot) && fits(
                    *parttype,
                    rot,
                    node_at(layout.top_node, paths@[jp]@),
                ) ==> exists|j: int|
                    0 <= j < out@.len() && (#[trigger] out@[j]).original_node@ == paths@[jp]@,
        decreases paths@.len() - pi,
    {
        let path = &paths[pi];
        let leaf = get_node(&layout.top_node, path);
        proof {
            let top = layout.top_node;
            crate::layout::lemma_valid_path_prefix(top, path@);
            lemma_wf_at(top, path@.drop_last());
            lemma_node_at_last(top, path@);
            let parent = node_at(top, path@.drop_last());
            assert(!parent.is_leaf());
            assert(leaf.next_cut_orient == flip(parent.next_cut_orient));
            assert(flip(flip(parent.next_cut_orient)) == parent.next_cut_orient);
            assert(flip(leaf.next_cut_orient) == parent.next_cut_orient);
            assert(cross_len(*leaf, parent.next_cut_orient) == cross_len(
                parent,
                parent.next_cut_orient,
            ));
        }
        let mut rot_idx: usize = 0;
        while rot_idx < 2
            invariant
                layout.wf(),
                parttype.area_spec() <= u64::MAX,
                0 <= pi < paths@.len(),
                path == &paths@[pi as int],
                path@.len() >= 1,
                valid_path(layout.top_node, path@),
                node_at(layout.top_node, path@).is_leftover(),
                *leaf == node_at(layout.top_node, path@),
                flip(leaf.next_cut_orient) == node_at(
                    layout.top_node,
                    path@.drop_last(),
                ).next_cut_orient,
                forall|j: int|
                    0 <= j < out@.len() ==> (#[trigger] out@[j]).fits_layout(*layout)
                        && out@[j].layout == Some(lref) && out@[j].parttype == *parttype
                        && exists|rot2: Rotation|
                        #[trigger] parttype.rotation_allowed_spec(rot2) && fits(
                            *parttype,
                            rot2,
                            node_at(layout.top_node, out@[j].original_node@),
                        ),
                forall|jp: int, rot2: Rotation|
                    #![trigger paths@[jp], parttype.rotation_allowed_spec(rot2)]
                    0 <= jp < pi && parttype.rotation_allowed_spec(rot2) && fits(
                        *parttype,
                        rot2,
                        node_at(layout.top_node, paths@[jp]@),
                    ) ==> exists|j: int|
                        0 <= j < out@.len() && (#[trigger] out@[j]).original_node@ == paths@[jp]@,
                forall|rot2: Rotation|
                    #![trigger parttype.rotation_allowed_spec(rot2)]
                    ((rot2 == Rotation::Default && rot_idx >= 1) || (rot2 == Rotation::Rotated
                        && rot_idx >= 2)) && parttype.rotation_allowed_spec(rot2) && fits(
                        *parttype,
                        rot2,
                        node_at(layout.top_node, path@),
                    ) ==> exists|j: int|
                        0 <= j < out@.len() && (#[trigger] out@[j]).original_node@ == path@,
            decreases 2 - rot_idx,
        {
            let rot = if rot_idx == 0 {
                Rotation::Default
            } else {
                Rotation::Rotated
            };
            if parttype.rotation_allowed(rot) {
                let pw = match rot {
                    Rotation::Default => parttype.width(),
                    Rotation::Rotated => parttype.height(),
                };
                let ph = match rot {
                    Rotation::Default => parttype.height(),
                    Rotation::Rotated => parttype.width(),
                };
                if pw <= leaf.width && ph <= leaf.height {
                    let reps = build_replacements(
                        leaf.width,
                        leaf.height,
                        leaf.next_cut_orient,
                        pw,
                        ph,
                        parttype.id(),
                    );
                    let cost = InsertionBlueprint::calculate_cost(material_cost, parttype);
                    let p2 = copy_path(path);
                    let mut bp = InsertionBlueprint::new(p2, reps, *parttype, cost);
                    bp.set_layout(lref);
                    proof {
                        let top = layout.top_node;
                        let parent = node_at(top, path@.drop_last());
                        let o = parent.next_cut_orient;
                        assert(o == flip(leaf.next_cut_orient));
                        assert forall|j: int| 0 <= j < bp.replacements@.len() implies cross_len(
                            #[trigger] bp.replacements@[j],
                            o,
                        ) == cross_len(node_at(top, path@), o) by {
                            assert(cross_len(*leaf, o) == (match o {
                                Orientation::Horizontal => leaf.width,
                                Orientation::Vertical => leaf.height,
                            }));
                        }
                        assert(along_sum(bp.replacements@, o) == along_len(
                            node_at(top, path@),
                            o,
                        ));
                        assert(bp.fits_layout(*layout));
                        assert(parttype.rotated_width(rot) == pw && parttype.rotated_height(rot)
                            == ph);
                        assert(parttype.rotation_allowed_spec(rot) && fits(
                            *parttype,
                            rot,
                            node_at(top, bp.original_node@),
                        ));
                    }
                    let ghost out_pre = out@;
                    out.push(bp);
                    proof {
                        assert(out@[out@.len() - 1].original_node@ == path@);
                        assert forall|jp: int, rot2: Rotation|
                            #![trigger paths@[jp], parttype.rotation_allowed_spec(rot2)]
                            0 <= jp < pi && parttype.rotation_allowed_spec(rot2) && fits(
                                *parttype,
                                rot2,
                                node_at(layout.top_node, paths@[jp]@),
                            ) implies exists|j: int|
                            0 <= j < out@.len() && (#[trigger] out@[j]).original_node@ == paths@[
                            jp]@ by {
                            let j = choose|j: int|
                                0 <= j < out_pre.len() && (#[trigger] out_pre[j]).original_node@
                                    == paths@[jp]@;
                            assert(out@[j] == out_pre[j]);
                        }
                    }
                } else {
                    proof {
                        assert(parttype.rotated_width(rot) == pw && parttype.rotated_height(rot)
                            == ph);
                        assert(!fits(*parttype, rot, node_at(layout.top_node, path@)));
                    }
                }
            }
            rot_idx = rot_idx + 1;
        }
        proof {
            assert forall|rot2: Rotation|
                parttype.rotation_allowed_spec(rot2) && fits(
                    *parttype,
                    rot2,
                    node_at(layout.top_node, paths@[pi as int]@),
                ) implies exists|j: int|
                0 <= j < out@.len() && (#[trigger] out@[j]).original_node@ == paths@[
                pi as int]@ by {
                assert(rot2 == Rotation::Default || rot2 == Rotation::Rotated);
            }
        }
        pi = pi + 1;
    }
    out
}

/// Enumerate every feasible blueprint placing one unit of `parttype` into
/// the problem's active layouts or, where stock remains, into a copy of an
/// empty template. The enumeration is sound and complete: every returned
/// blueprint can be committed as it stands, and for every leftover leaf of
/// an active layout or stocked template that admits the part under an
/// allowed rotation, a blueprint for that leaf is returned. In particular a
/// sheet type without remaining stock contributes nothing, and a part that
/// fits nowhere yields the empty vector.
#[verifier::rlimit(80)]
pub fn generate_blueprints(problem: &Problem, parttype: &PartType) -> (r: Vec<InsertionBlueprint>)
    requires
        problem.wf(),
        parttype.area_spec() <= u64::MAX,
    ensures
        forall|j: int|
            0 <= j < r@.len() ==> (#[trigger] r@[j]).parttype == *parttype && match r@[j].layout {
                Some(LayoutRef::Active(li)) => li < problem.layouts@.len() && r@[j].fits_layout(
                    problem.layouts@[li as int],
                ) && exists|rot: Rotation|
                    #[trigger] parttype.rotation_allowed_spec(rot) && fits(
                        *parttype,
                        rot,
                        node_at(problem.layouts@[li as int].top_node, r@[j].original_node@),
                    ),
                Some(LayoutRef::Template(ti)) => ti < problem.empty_layouts@.len()
                    && r@[j].fits_layout(problem.empty_layouts@[ti as int])
                    && problem.sheettype_qtys@[problem.empty_layouts@[
                    ti as int].sheettype_id as int] > 0 && exists|rot: Rotation|
                    #[trigger] parttype.rotation_allowed_spec(rot) && fits(
                        *parttype,
                        rot,
                        node_at(problem.empty_layouts@[ti as int].top_node, r@[j].original_node@),
                    ),
                None => false,
            },
        forall|li: int, path: Seq<usize>, rot: Rotation|
            #![trigger node_at(problem.layouts@[li].top_node, path), parttype.rotation_allowed_spec(rot)]
            0 <= li < problem.layouts@.len() && path.len() >= 1 && valid_path(
                problem.layouts@[li].top_node,
                path,
            ) && node_at(problem.layouts@[li].top_node, path).is_leftover()
                && parttype.rotation_allowed_spec(rot) && fits(
                *parttype,
                rot,
                node_at(problem.layouts@[li].top_node, path),
            ) ==> exists|j: int|
                0 <= j < r@.len() && (#[trigger] r@[j]).layout == Some(
                    LayoutRef::Active(li as usize),
                ) && r@[j].original_node@ == path,
        forall|ti: int, path: Seq<usize>, rot: Rotation|
            #![trigger node_at(problem.empty_layouts@[ti].top_node, path), parttype.rotation_allowed_spec(rot)]
            0 <= ti < problem.empty_layouts@.len() && problem.sheettype_qtys@[
            problem.empty_layouts@[ti].sheettype_id as int] > 0 && path.len() >= 1 && valid_path(
                problem.empty_layouts@[ti].top_node,
                path,
            ) && node_at(problem.empty_layouts@[ti].top_node, path).is_leftover()
                && parttype.rotation_allowed_spec(rot) && fits(
                *parttype,
                rot,
                node_at(problem.empty_layouts@[ti].top_node, path),
            ) ==> exists|j: int|
                0 <= j < r@.len() && (#[trigger] r@[j]).layout == Some(
                    LayoutRef::Template(ti as usize),
                ) && r@[j].original_node@ == path,
{
    let mut out: Vec<InsertionBlueprint> = Vec::new();
    let mut li: usize = 0;
    while li < problem.layouts().len()
        invariant
            problem.wf(),
            parttype.area_spec() <= u64::MAX,
            0 <= li <= problem.layouts@.len(),
            forall|j: int|
                0 <= j < out@.len() ==> (#[trigger] out@[j]).parttype == *parttype && match out@[
                j].layout {
                    Some(LayoutRef::Active(k)) => k < problem.layouts@.len()
                        && out@[j].fits_layout(problem.layouts@[k as int]) && exists|rot: Rotation|
                        #[trigger] parttype.rotation_allowed_spec(rot) && fits(
                            *parttype,
                            rot,
                            node_at(problem.layouts@[k as int].top_node, out@[j].original_node@),
                        ),
                    Some(LayoutRef::Template(k)) => k < problem.empty_layouts@.len()
                        && out@[j].fits_layout(problem.empty_layouts@[k as int])
                        && problem.sheettype_qtys@[problem.empty_layouts@[
                        k as int].sheettype_id as int] > 0 && exists|rot: Rotation|
                        #[trigger] parttype.rotation_allowed_spec(rot) && fits(
                            *parttype,
                            rot,
                            node_at(
                                problem.empty_layouts@[k as int].top_node,
                                out@[j].original_node@,
                            ),
                        ),
                    None => false,
                },
            forall|li2: int, path: Seq<usize>, rot: Rotation|
                #![trigger node_at(problem.layouts@[li2].top_node, path), parttype.rotation_allowed_spec(rot)]
                0 <= li2 < li && path.len() >= 1 && valid_path(
                    problem.layouts@[li2].top_node,
                    path,
                ) && node_at(problem.layouts@[li2].top_node, path).is_leftover()
                    && parttype.rotation_allowed_spec(rot) && fits(
                    *parttype,
                    rot,
                    node_at(problem.layouts@[li2].top_node, path),
                ) ==> exists|j: int|
                    0 <= j < out@.len() && (#[trigger] out@[j]).layout == Some(
                        LayoutRef::Active(li2 as usize),
                    ) && out@[j].original_node@ == path,
        decreases problem.layouts@.len() - li,
    {
        let mut bps = blueprints_for_layout(
            &problem.layouts()[li],
            parttype,
            LayoutRef::Active(li),
            0,
        );
        let ghost bps0 = bps@;
        let ghost out_enter = out@;
        proof {
            assert forall|jj: int| 0 <= jj < bps0.len() implies contains_bp(
                out@,
                #[trigger] bps0[jj],
            ) || contains_bp(bps@, bps0[jj]) by {
                lemma_contains_at(bps@, jj);
            }
            assert(bps@ =~= bps0.skip(0));
        }
        while bps.len() > 0
            invariant
                0 <= li < problem.layouts@.len(),
                forall|j: int|
                    0 <= j < bps0.len() ==> (#[trigger] bps0[j]).fits_layout(
                        problem.layouts@[li as int],
                    ) && bps0[j].layout == Some(LayoutRef::Active(li)) && bps0[j].parttype
                        == *parttype && exists|rot: Rotation|
                        #[trigger] parttype.rotation_allowed_spec(rot) && fits(
                            *parttype,
                            rot,
                            node_at(problem.layouts@[li as int].top_node, bps0[j].original_node@),
                        ),
                forall|jj: int|
                    0 <= jj < bps0.len() ==> contains_bp(out@, #[trigger] bps0[jj]) || contains_bp(
                        bps@,
                        bps0[jj],
                    ),
                out_enter.len() <= out@.len(),
                forall|j: int| 0 <= j < out_enter.len() ==> out@[j] == out_enter[j],
                bps@.len() <= bps0.len(),
                bps@ == bps0.skip(bps0.len() - bps@.len()),
                forall|j: int|
                    out_enter.len() <= j < out@.len() ==> contains_bp(bps0, #[trigger] out@[j]),
            decreases bps@.len(),
        {
            let ghost out_pre = out@;
            let ghost bps_pre = bps@;
            let bp = bps.remove(0);
            out.push(bp);
            proof {
                lemma_transfer_step(out_pre, out@, bps_pre, bps@, bps0);
                assert(bps@ =~= bps0.skip(bps0.len() - bps@.len()));
                assert forall|j: int| out_enter.len() <= j < out@.len() implies contains_bp(
                    bps0,
                    #[trigger] out@[j],
                ) by {
                    if j < out_pre.len() {
                        assert(out@[j] == out_pre[j]);
                    } else {
                        // the element just moved is the old front of bps,
                        // a suffix of the helper's output
                        let jj = bps0.len() - bps_pre.len();
                        assert(bps_pre[0] == bps0.skip(jj)[0]);
                        assert(bps_pre[0] == bps0[jj]);
                        assert(out@[j] == bps_pre[0]);
                        lemma_contains_at(bps0, jj);
                    }
                }
            }
        }
        proof {
            lemma_requote_soundness(out@, out_enter, bps0, *problem, *parttype, LayoutRef::Active(li));
            // everything the helper produced now sits in out, after the
            // entries that were already there
            assert forall|li2: int, path: Seq<usize>, rot: Rotation|
                #![trigger node_at(problem.layouts@[li2].top_node, path), parttype.rotation_allowed_spec(rot)]
                0 <= li2 < li + 1 && path.len() >= 1 && valid_path(
                    problem.layouts@[li2].top_node,
                    path,
                ) && node_at(problem.layouts@[li2].top_node, path).is_leftover()
                    && parttype.rotation_allowed_spec(rot) && fits(
                    *parttype,
                    rot,
                    node_at(problem.layouts@[li2].top_node, path),
                ) implies exists|j: int|
                0 <= j < out@.len() && (#[trigger] out@[j]).layout == Some(
                    LayoutRef::Active(li2 as usize),
                ) && out@[j].original_node@ == path by {
                if li2 < li {
                    let j = choose|j: int|
                        0 <= j < out_enter.len() && (#[trigger] out_enter[j]).layout == Some(
                            LayoutRef::Active(li2 as usize),
                        ) && out_enter[j].original_node@ == path;
                    assert(out@[j] == out_enter[j]);
                } else {
                    let jj = choose|jj: int|
                        0 <= jj < bps0.len() && (#[trigger] bps0[jj]).original_node@ == path;
                    let j = choose|j: int|
                        0 <= j < out@.len() && (#[trigger] out@[j]) == bps0[jj];
                    assert(out@[j].original_node@ == path);
                }
            }
        }
        li = li + 1;
    }
    let mut ti: usize = 0;
    while ti < problem.empty_layouts().len()
        invariant
            problem.wf(),
            parttype.area_spec() <= u64::MAX,
            0 <= ti <= problem.empty_layouts@.len(),
            forall|j: int|
                0 <= j < out@.len() ==> (#[trigger] out@[j]).parttype == *parttype && match out@[
                j].layout {
                    Some(LayoutRef::Active(k)) => k < problem.layouts@.len()
                        && out@[j].fits_layout(problem.layouts@[k as int]) && exists|rot: Rotation|
                        #[trigger] parttype.rotation_allowed_spec(rot) && fits(
                            *parttype,
                            rot,
                            node_at(problem.layouts@[k as int].top_node, out@[j].original_node@),
                        ),
                    Some(LayoutRef::Template(k)) => k < problem.empty_layouts@.len()
                        && out@[j].fits_layout(problem.empty_layouts@[k as int])
                        && problem.sheettype_qtys@[problem.empty_layouts@[
                        k as int].sheettype_id as int] > 0 && exists|rot: Rotation|
                        #[trigger] parttype.rotation_allowed_spec(rot) && fits(
                            *parttype,
                            rot,
                            node_at(
                                problem.empty_layouts@[k as int].top_node,
                                out@[j].original_node@,
                            ),
                        ),
                    None => false,
                },
            forall|li2: int, path: Seq<usize>, rot: Rotation|
                #![trigger node_at(problem.layouts@[li2].top_node, path), parttype.rotation_allowed_spec(rot)]
                0 <= li2 < problem.layouts@.len() && path.len() >= 1 && valid_path(
                    problem.layouts@[li2].top_node,
                    path,
                ) && node_at(problem.layouts@[li2].top_node, path).is_leftover()
                    && parttype.rotation_allowed_spec(rot) && fits(
                    *parttype,
                    rot,
                    node_at(problem.layouts@[li2].top_node, path),
                ) ==> exists|j: int|
                    0 <= j < out@.len() && (#[trigger] out@[j]).layout == Some(
                        LayoutRef::Active(li2 as usize),
                    ) && out@[j].original_node@ == path,
            forall|ti2: int, path: Seq<usize>, rot: Rotation|
                #![trigger node_at(problem.empty_layouts@[ti2].top_node, path), parttype.rotation_allowed_spec(rot)]
                0 <= ti2 < ti && problem.sheettype_qtys@[problem.empty_layouts@[
                ti2].sheettype_id as int] > 0 && path.len() >= 1 && valid_path(
                    problem.empty_layouts@[ti2].top_node,
                    path,
                ) && node_at(problem.empty_layouts@[ti2].top_node, path).is_leftover()
                    && parttype.rotation_allowed_spec(rot) && fits(
                    *parttype,
                    rot,
                    node_at(problem.empty_layouts@[ti2].top_node, path),
                ) ==> exists|j: int|
                    0 <= j < out@.len() && (#[trigger] out@[j]).layout == Some(
                        LayoutRef::Template(ti2 as usize),
                    ) && out@[j].original_node@ == path,
        decreases problem.empty_layouts@.len() - ti,
    {
        let ghost out_enter = out@;
        let st = problem.empty_layouts()[ti].sheettype_id;
        if problem.sheettype_qtys()[st] > 0 {
            let value = problem.instance().sheets()[st].0.value();
            let mut bps = blueprints_for_layout(
                &problem.empty_layouts()[ti],
                parttype,
                LayoutRef::Template(ti),
                value,
            );
            let ghost bps0 = bps@;
            proof {
                assert forall|jj: int| 0 <= jj < bps0.len() implies contains_bp(
                    out@,
                    #[trigger] bps0[jj],
                ) || contains_bp(bps@, bps0[jj]) by {
                    lemma_contains_at(bps@, jj);
                }
                assert(bps@ =~= bps0.skip(0));
            }
            while bps.len() > 0
                invariant
                    0 <= ti < problem.empty_layouts@.len(),
                    forall|j: int|
                        0 <= j < bps0.len() ==> (#[trigger] bps0[j]).fits_layout(
                            problem.empty_layouts@[ti as int],
                        ) && bps0[j].layout == Some(LayoutRef::Template(ti)) && bps0[j].parttype
                            == *parttype && exists|rot: Rotation|
                            #[trigger] parttype.rotation_allowed_spec(rot) && fits(
                                *parttype,
                                rot,
                                node_at(
                                    problem.empty_layouts@[ti as int].top_node,
                                    bps0[j].original_node@,
                                ),
                            ),
                    forall|jj: int|
                        0 <= jj < bps0.len() ==> contains_bp(out@, #[trigger] bps0[jj])
                            || contains_bp(bps@, bps0[jj]),
                    out_enter.len() <= out@.len(),
                    forall|j: int| 0 <= j < out_enter.len() ==> out@[j] == out_enter[j],
                    bps@.len() <= bps0.len(),
                    bps@ == bps0.skip(bps0.len() - bps@.len()),
                    forall|j: int|
                        out_enter.len() <= j < out@.len() ==> contains_bp(
                            bps0,
                            #[trigger] out@[j],
                        ),
                decreases bps@.len(),
            {
                let ghost out_pre = out@;
                let ghost bps_pre = bps@;
                let bp = bps.remove(0);
                out.push(bp);
                proof {
                    lemma_transfer_step(out_pre, out@, bps_pre, bps@, bps0);
                    assert(bps@ =~= bps0.skip(bps0.len() - bps@.len()));
                    assert forall|j: int| out_enter.len() <= j < out@.len() implies contains_bp(
                        bps0,
                        #[trigger] out@[j],
                    ) by {
                        if j < out_pre.len() {
                            assert(out@[j] == out_pre[j]);
                        } else {
                            let jj = bps0.len() - bps_pre.len();
                            assert(bps_pre[0] == bps0.skip(jj)[0]);
                            assert(bps_pre[0] == bps0[jj]);
                            assert(out@[j] == bps_pre[0]);
                            lemma_contains_at(bps0, jj);
                        }
                    }
                }
            }
            proof {
                lemma_requote_soundness(out@, out_enter, bps0, *problem, *parttype, LayoutRef::Template(ti));
                assert forall|ti2: int, path: Seq<usize>, rot: Rotation|
                    #![trigger node_at(problem.empty_layouts@[ti2].top_node, path), parttype.rotation_allowed_spec(rot)]
                    0 <= ti2 < ti + 1 && problem.sheettype_qtys@[problem.empty_layouts@[
                    ti2].sheettype_id as int] > 0 && path.len() >= 1 && valid_path(
                        problem.empty_layouts@[ti2].top_node,
                        path,
                    ) && node_at(problem.empty_layouts@[ti2].top_node, path).is_leftover()
                        && parttype.rotation_allowed_spec(rot) && fits(
                        *parttype,
                        rot,
                        node_at(problem.empty_layouts@[ti2].top_node, path),
                    ) implies exists|j: int|
                    0 <= j < out@.len() && (#[trigger] out@[j]).layout == Some(
                        LayoutRef::Template(ti2 as usize),
                    ) && out@[j].original_node@ == path by {
                    if ti2 < ti {
                        let j = choose|j: int|
                            0 <= j < out_enter.len() && (#[trigger] out_enter[j]).layout == Some(
                                LayoutRef::Template(ti2 as usize),
                            ) && out_enter[j].original_node@ == path;
                        assert(out@[j] == out_enter[j]);
                    } else {
                        let jj = choose|jj: int|
                            0 <= jj < bps0.len() && (#[trigger] bps0[jj]).original_node@ == path;
                        let j = choose|j: int|
                            0 <= j < out@.len() && (#[trigger] out@[j]) == bps0[jj];
                        assert(out@[j].original_node@ == path);
                    }
                }
                assert forall|li2: int, path: Seq<usize>, rot: Rotation|
                    #![trigger node_at(problem.layouts@[li2].top_node, path), parttype.rotation_allowed_spec(rot)]
                    0 <= li2 < problem.layouts@.len() && path.len() >= 1 && valid_path(
                        problem.layouts@[li2].top_node,
                        path,
                    ) && node_at(problem.layouts@[li2].top_node, path).is_leftover()
                        && parttype.rotation_allowed_spec(rot) && fits(
                        *parttype,
                        rot,
                        node_at(problem.layouts@[li2].top_node, path),
                    ) implies exists|j: int|
                    0 <= j < out@.len() && (#[trigger] out@[j]).layout == Some(
                        LayoutRef::Active(li2 as usize),
                    ) && out@[j].original_node@ == path by {
                    let j = choose|j: int|
                        0 <= j < out_enter.len() && (#[trigger] out_enter[j]).layout == Some(
                            LayoutRef::Active(li2 as usize),
                        ) && out_enter[j].original_node@ == path;
                    assert(out@[j] == out_enter[j]);
                }
            }
        }
        ti = ti + 1;
    }
    out
}

/// Whether `x` occurs in `s`.
pub open spec fn contains_bp(s: Seq<InsertionBlueprint>, x: InsertionBlueprint) -> bool {
    exists|j: int| 0 <= j < s.len() && s[j] == x
}

proof fn lemma_contains_at(s: Seq<InsertionBlueprint>, j: int)
    requires
        0 <= j < s.len(),
    ensures
        contains_bp(s, s[j]),
{
    assert(0 <= j < s.len() && s[j] == s[j]);
}

proof fn lemma_contains_push(s: Seq<InsertionBlueprint>, x: InsertionBlueprint, y: InsertionBlueprint)
    requires
        contains_bp(s, y),
    ensures
        contains_bp(s.push(x), y),
{
    let j = choose|j: int| 0 <= j < s.len() && s[j] == y;
    assert(s.push(x)[j] == y);
}

proof fn lemma_contains_push_self(s: Seq<InsertionBlueprint>, x: InsertionBlueprint)
    ensures
        contains_bp(s.push(x), x),
{
    assert(s.push(x)[s.len() as int] == x);
}

proof fn lemma_contains_remove_front(s: Seq<InsertionBlueprint>, y: InsertionBlueprint)
    requires
        s.len() > 0,
        contains_bp(s, y),
        s[0] != y,
    ensures
        contains_bp(s.remove(0), y),
{
    let j = choose|j: int| 0 <= j < s.len() && s[j] == y;
    assert(s.remove(0)[j - 1] == y);
}

proof fn lemma_contains_choose(s: Seq<InsertionBlueprint>, y: InsertionBlueprint) -> (j: int)
    requires
        contains_bp(s, y),
    ensures
        0 <= j < s.len(),
        s[j] == y,
{
    choose|j: int| 0 <= j < s.len() && s[j] == y
}

/// After a transfer, the emitted entries past the mark are all helper
/// output for the referenced layout, so the soundness facts carry over.
proof fn lemma_requote_soundness(
    out: Seq<InsertionBlueprint>,
    out_enter: Seq<InsertionBlueprint>,
    bps0: Seq<InsertionBlueprint>,
    problem: Problem,
    parttype: PartType,
    lref: LayoutRef,
)
    requires
        out_enter.len() <= out.len(),
        forall|j: int| 0 <= j < out_enter.len() ==> out[j] == out_enter[j],
        forall|j: int|
            out_enter.len() <= j < out.len() ==> contains_bp(bps0, #[trigger] out[j]),
        match lref {
            LayoutRef::Active(li) => li < problem.layouts@.len() && forall|j: int|
                0 <= j < bps0.len() ==> (#[trigger] bps0[j]).fits_layout(
                    problem.layouts@[li as int],
                ) && bps0[j].layout == Some(lref) && bps0[j].parttype == parttype && exists|
                    rot: Rotation,
                |
                    #[trigger] parttype.rotation_allowed_spec(rot) && fits(
                        parttype,
                        rot,
                        node_at(problem.layouts@[li as int].top_node, bps0[j].original_node@),
                    ),
            LayoutRef::Template(ti) => ti < problem.empty_layouts@.len()
                && problem.sheettype_qtys@[problem.empty_layouts@[
                ti as int].sheettype_id as int] > 0 && forall|j: int|
                0 <= j < bps0.len() ==> (#[trigger] bps0[j]).fits_layout(
                    problem.empty_layouts@[ti as int],
                ) && bps0[j].layout == Some(lref) && bps0[j].parttype == parttype && exists|
                    rot: Rotation,
                |
                    #[trigger] parttype.rotation_allowed_spec(rot) && fits(
                        parttype,
                        rot,
                        node_at(
                            problem.empty_layouts@[ti as int].top_node,
                            bps0[j].original_node@,
                        ),
                    ),
        },
        forall|j: int|
            0 <= j < out_enter.len() ==> (#[trigger] out_enter[j]).parttype == parttype
                && match out_enter[j].layout {
                Some(LayoutRef::Active(k)) => k < problem.layouts@.len()
                    && out_enter[j].fits_layout(problem.layouts@[k as int]) && exists|rot: Rotation|
                    #[trigger] parttype.rotation_allowed_spec(rot) && fits(
                        parttype,
                        rot,
                        node_at(problem.layouts@[k as int].top_node, out_enter[j].original_node@),
                    ),
                Some(LayoutRef::Template(k)) => k < problem.empty_layouts@.len()
                    && out_enter[j].fits_layout(problem.empty_layouts@[k as int])
                    && problem.sheettype_qtys@[problem.empty_layouts@[
                    k as int].sheettype_id as int] > 0 && exists|rot: Rotation|
                    #[trigger] parttype.rotation_allowed_spec(rot) && fits(
                        parttype,
                        rot,
                        node_at(
                            problem.empty_layouts@[k as int].top_node,
                            out_enter[j].original_node@,
                        ),
                    ),
                None => false,
            },
    ensures
        forall|j: int|
            0 <= j < out.len() ==> (#[trigger] out[j]).parttype == parttype && match out[j].layout {
                Some(LayoutRef::Active(k)) => k < problem.layouts@.len() && out[j].fits_layout(
                    problem.layouts@[k as int],
                ) && exists|rot: Rotation|
                    #[trigger] parttype.rotation_allowed_spec(rot) && fits(
                        parttype,
                        rot,
                        node_at(problem.layouts@[k as int].top_node, out[j].original_node@),
                    ),
                Some(LayoutRef::Template(k)) => k < problem.empty_layouts@.len()
                    && out[j].fits_layout(problem.empty_layouts@[k as int])
                    && problem.sheettype_qtys@[problem.empty_layouts@[
                    k as int].sheettype_id as int] > 0 && exists|rot: Rotation|
                    #[trigger] parttype.rotation_allowed_spec(rot) && fits(
                        parttype,
                        rot,
                        node_at(problem.empty_layouts@[k as int].top_node, out[j].original_node@),
                    ),
                None => false,
            },
{
    assert forall|j: int| 0 <= j < out.len() implies (#[trigger] out[j]).parttype == parttype
        && match out[j].layout {
        Some(LayoutRef::Active(k)) => k < problem.layouts@.len() && out[j].fits_layout(
            problem.layouts@[k as int],
        ) && exists|rot: Rotation|
            #[trigger] parttype.rotation_allowed_spec(rot) && fits(
                parttype,
                rot,
                node_at(problem.layouts@[k as int].top_node, out[j].original_node@),
            ),
        Some(LayoutRef::Template(k)) => k < problem.empty_layouts@.len() && out[j].fits_layout(
            problem.empty_layouts@[k as int],
        ) && problem.sheettype_qtys@[problem.empty_layouts@[k as int].sheettype_id as int] > 0
            && exists|rot: Rotation|
            #[trigger] parttype.rotation_allowed_spec(rot) && fits(
                parttype,
                rot,
                node_at(problem.empty_layouts@[k as int].top_node, out[j].original_node@),
            ),
        None => false,
    } by {
        if j < out_enter.len() {
            assert(out[j] == out_enter[j]);
        } else {
            let jj = choose|jj: int| 0 <= jj < bps0.len() && (#[trigger] out[j]) == bps0[jj];
            match lref {
                LayoutRef::Active(li) => {
                    let rot = choose|rot: Rotation|
                        #[trigger] parttype.rotation_allowed_spec(rot) && fits(
                            parttype,
                            rot,
                            node_at(
                                problem.layouts@[li as int].top_node,
                                bps0[jj].original_node@,
                            ),
                        );
                    assert(parttype.rotation_allowed_spec(rot) && fits(
                        parttype,
                        rot,
                        node_at(problem.layouts@[li as int].top_node, out[j].original_node@),
                    ));
                },
                LayoutRef::Template(ti) => {
                    let rot = choose|rot: Rotation|
                        #[trigger] parttype.rotation_allowed_spec(rot) && fits(
                            parttype,
                            rot,
                            node_at(
                                problem.empty_layouts@[ti as int].top_node,
                                bps0[jj].original_node@,
                            ),
                        );
                    assert(parttype.rotation_allowed_spec(rot) && fits(
                        parttype,
                        rot,
                        node_at(
                            problem.empty_layouts@[ti as int].top_node,
                            out[j].original_node@,
                        ),
                    ));
                },
            }
        }
    }
}

/// Moving the front of `bps_pre` onto the end of `out_pre` keeps every
/// element of `all` either already emitted or still pending.
proof fn lemma_transfer_step(
    out_pre: Seq<InsertionBlueprint>,
    out_now: Seq<InsertionBlueprint>,
    bps_pre: Seq<InsertionBlueprint>,
    bps_now: Seq<InsertionBlueprint>,
    all: Seq<InsertionBlueprint>,
)
    requires
        bps_pre.len() > 0,
        bps_now == bps_pre.remove(0),
        out_now == out_pre.push(bps_pre[0]),
        forall|jj: int|
            0 <= jj < all.len() ==> contains_bp(out_pre, #[trigger] all[jj]) || contains_bp(
                bps_pre,
                all[jj],
            ),
    ensures
        forall|jj: int|
            0 <= jj < all.len() ==> contains_bp(out_now, #[trigger] all[jj]) || contains_bp(
                bps_now,
                all[jj],
            ),
{
    assert forall|jj: int| 0 <= jj < all.len() implies contains_bp(out_now, #[trigger] all[jj])
        || contains_bp(bps_now, all[jj]) by {
        if contains_bp(out_pre, all[jj]) {
            lemma_contains_push(out_pre, bps_pre[0], all[jj]);
        } else {
            if bps_pre[0] == all[jj] {
                lemma_contains_push_self(out_pre, bps_pre[0]);
            } else {
                lemma_contains_remove_front(bps_pre, all[jj]);
            }
        }
    }
}


/// Counting over the one- or two-element replacement lists built above.
proof fn lemma_build_counts(r: Seq<Node>, piece: Node, rest: Option<Node>, pt: usize)
    requires
        count_node(piece, is_item_pred()) == 1,
        forall|pt2: usize|
            #![trigger is_item_of(pt2)]
            count_node(piece, is_item_of(pt2)) == (if pt2 == pt {
                1int
            } else {
                0int
            }),
        match rest {
            Some(x) => r == seq![piece, x] && x.is_leftover(),
            None => r == seq![piece],
        },
    ensures
        count_seq(r, is_item_pred()) == 1,
        forall|pt2: usize|
            #![trigger is_item_of(pt2)]
            count_seq(r, is_item_of(pt2)) == (if pt2 == pt {
                1int
            } else {
                0int
            }),
{
    match rest {
        Some(x) => {
            assert(r.drop_first() =~= seq![x]);
            assert(seq![x].drop_first() =~= Seq::<Node>::empty());
            assert(count_seq(Seq::<Node>::empty(), is_item_pred()) == 0);
            assert(!is_item_pred()(x));
            assert(count_node(x, is_item_pred()) == 0);
            assert(count_seq(seq![x], is_item_pred()) == count_node(x, is_item_pred()));
            assert(r[0] == piece);
            assert forall|pt2: usize|
                #![trigger is_item_of(pt2)]
                count_seq(r, is_item_of(pt2)) == (if pt2 == pt {
                    1int
                } else {
                    0int
                }) by {
                assert(count_seq(Seq::<Node>::empty(), is_item_of(pt2)) == 0);
                assert(!is_item_of(pt2)(x));
                assert(count_node(x, is_item_of(pt2)) == 0);
                assert(count_seq(seq![x], is_item_of(pt2)) == 0);
            }
        },
        None => {
            assert(r.drop_first() =~= Seq::<Node>::empty());
            assert(count_seq(Seq::<Node>::empty(), is_item_pred()) == 0);
            assert forall|pt2: usize|
                #![trigger is_item_of(pt2)]
                count_seq(r, is_item_of(pt2)) == (if pt2 == pt {
                    1int
                } else {
                    0int
                }) by {
                assert(count_seq(Seq::<Node>::empty(), is_item_of(pt2)) == 0);
            }
        },
    }
}

} // verus!
