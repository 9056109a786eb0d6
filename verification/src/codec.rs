//! The document model of the instance and solution files, and the
//! conversions between it and the solver's own types. Reading and writing
//! the actual text is left to the program around the library.

use vstd::prelude::*;

use crate::collector::{Config, SendableLayout, SendableSolution};
use crate::entities::{
    demanded_area, flip, total_area_prefix, Instance, Orientation, PartType, Rotation, SheetType,
};
use crate::node::{Node, NodeBlueprint};

verus! {

/// One part type as it stands in an instance document.
#[derive(Clone, Copy, Debug)]
pub struct JsonPartType {
    pub length: u64,
    pub height: u64,
    pub demand: usize,
    pub reference: Option<usize>,
}

/// One sheet type as it stands in an instance document; an absent stock
/// means unlimited supply.
#[derive(Clone, Copy, Debug)]
pub struct JsonSheetType {
    pub length: u64,
    pub height: u64,
    pub cost: u64,
    pub stock: Option<usize>,
    pub reference: Option<usize>,
}

/// A whole instance document.
#[derive(Debug)]
pub struct JsonInstance {
    pub name: String,
    pub parttypes: Vec<JsonPartType>,
    pub sheettypes: Vec<JsonSheetType>,
}

#[derive(Clone, Copy, Debug, PartialEq, Eq, Structural)]
pub enum JsonCPNodeType {
    Structure,
    Item,
    Leftover,
}

#[derive(Clone, Copy, Debug, PartialEq, Eq, Structural)]
pub enum JsonOrientation {
    H,
    V,
}

/// One node of a cutting pattern in a solution document.
#[derive(Debug)]
pub struct JsonCPNode {
    pub length: u64,
    pub height: u64,
    pub orientation: Option<JsonOrientation>,
    pub node_type: JsonCPNodeType,
    pub item: Option<usize>,
    pub children: Vec<JsonCPNode>,
}

/// One cutting pattern: the sheet type used and the root of its tree.
#[derive(Debug)]
pub struct JsonCP {
    pub object: usize,
    pub root: JsonCPNode,
}

/// Aggregate statistics of a solution document.
#[derive(Debug)]
pub struct JsonSolutionStats {
    pub usage_pct: u64,
    pub part_area_included_pct: u64,
    pub n_objects_used: usize,
    pub material_cost: u64,
    pub run_time_ms: u64,
    pub config_path: String,
}

/// A whole solution document.
#[derive(Debug)]
pub struct JsonSolution {
    pub name: String,
    pub sheettypes: Vec<JsonSheetType>,
    pub parttypes: Vec<JsonPartType>,
    pub cutting_patterns: Vec<JsonCP>,
    pub statistics: JsonSolutionStats,
}

/// Demanded area of one document part type.
pub open spec fn json_demanded_area(p: JsonPartType) -> int {
    p.length * p.height * p.demand
}

/// Sum of demanded areas over the first `n` document part types.
pub open spec fn json_area_prefix(parts: Seq<JsonPartType>, n: int) -> int
    decreases n,
{
    if n <= 0 {
        0
    } else {
        json_area_prefix(parts, n - 1) + json_demanded_area(parts[n - 1])
    }
}

/// Total demanded area of an instance document.
pub open spec fn json_total_part_area(parts: Seq<JsonPartType>) -> int {
    json_area_prefix(parts, parts.len() as int)
}

/// Prefix sums agree when the entries' areas agree pointwise.
proof fn lemma_area_prefix_pointwise(
    built: Seq<(PartType, usize)>,
    parts: Seq<JsonPartType>,
    n: int,
)
    requires
        n <= built.len(),
        n <= parts.len(),
        forall|i: int| 0 <= i < n ==> demanded_area(#[trigger] built[i]) == json_demanded_area(
            parts[i],
        ),
    ensures
        total_area_prefix(built, n) == json_area_prefix(parts, n),
    decreases n,
{
    if n > 0 {
        lemma_area_prefix_pointwise(built, parts, n - 1);
    }
}

/// Build the solver instance from a parsed document: dense ids are
/// assigned in order and written back to the document's `reference`
/// fields, rotation is fixed to the stated orientation when the
/// configuration forbids rotation, and an absent stock becomes unlimited.
pub fn generate_instance(json_instance: &mut JsonInstance, config: &Config) -> (r: Instance)
    requires
        json_total_part_area(old(json_instance).parttypes@) <= u64::MAX,
    ensures
        final(json_instance).name == old(json_instance).name,
        final(json_instance).parttypes@.len() == old(json_instance).parttypes@.len(),
        final(json_instance).sheettypes@.len() == old(json_instance).sheettypes@.len(),
        forall|i: int|
            0 <= i < final(json_instance).parttypes@.len()
                ==> #[trigger] final(json_instance).parttypes@[i] == (JsonPartType {
                reference: Some(i as usize),
                ..old(json_instance).parttypes@[i]
            }),
        forall|i: int|
            0 <= i < final(json_instance).sheettypes@.len()
                ==> #[trigger] final(json_instance).sheettypes@[i] == (JsonSheetType {
                reference: Some(i as usize),
                ..old(json_instance).sheettypes@[i]
            }),
        r.wf(),
        r.parts@.len() == old(json_instance).parttypes@.len(),
        forall|i: int|
            0 <= i < r.parts@.len() ==> #[trigger] r.parts@[i] == (
            (PartType {
                id: i as usize,
                width: old(json_instance).parttypes@[i].length,
                height: old(json_instance).parttypes@[i].height,
                fixed_rotation: if config.rotation_allowed {
                    None
                } else {
                    Some(Rotation::Default)
                },
            }, old(json_instance).parttypes@[i].demand)),
        r.sheets@.len() == old(json_instance).sheettypes@.len(),
        forall|i: int|
            0 <= i < r.sheets@.len() ==> #[trigger] r.sheets@[i] == (
            (SheetType {
                id: i as usize,
                width: old(json_instance).sheettypes@[i].length,
                height: old(json_instance).sheettypes@[i].height,
                value: old(json_instance).sheettypes@[i].cost,
            }, match old(json_instance).sheettypes@[i].stock {
                Some(stock) => stock,
                None => usize::MAX,
            })),
{
    let ghost parts0 = json_instance.parttypes@;
    let ghost sheets0 = json_instance.sheettypes@;
    let mut part_id: usize = 0;
    let mut parts: Vec<(PartType, usize)> = Vec::new();
    while part_id < json_instance.parttypes.len()
        invariant
            0 <= part_id <= parts0.len(),
            json_instance.parttypes@.len() == parts0.len(),
            json_instance.sheettypes@ == sheets0,
            json_instance.name == old(json_instance).name,
            parts@.len() == part_id,
            forall|i: int|
                part_id <= i < parts0.len() ==> #[trigger] json_instance.parttypes@[i]
                    == parts0[i],
            forall|i: int|
                0 <= i < part_id ==> #[trigger] json_instance.parttypes@[i] == (JsonPartType {
                    reference: Some(i as usize),
                    ..parts0[i]
                }),
            forall|i: int|
                0 <= i < part_id ==> #[trigger] parts@[i] == (
                (PartType {
                    id: i as usize,
                    width: parts0[i].length,
                    height: parts0[i].height,
                    fixed_rotation: if config.rotation_allowed {
                        None
                    } else {
                        Some(Rotation::Default)
                    },
                }, parts0[i].demand)),
        decreases parts0.len() - part_id,
    {
        let json_part = &mut json_instance.parttypes[part_id];
        json_part.reference = Some(part_id);
        let parttype = PartType::new(
            part_id,
            json_part.length,
            json_part.height,
            if config.rotation_allowed {
                None
            } else {
                Some(Rotation::Default)
            },
        );
        let demand = json_part.demand;
        parts.push((parttype, demand));
        part_id = part_id + 1;
    }
    let mut sheet_id: usize = 0;
    let mut sheets: Vec<(SheetType, usize)> = Vec::new();
    while sheet_id < json_instance.sheettypes.len()
        invariant
            0 <= sheet_id <= sheets0.len(),
            json_instance.sheettypes@.len() == sheets0.len(),
            json_instance.name == old(json_instance).name,
            json_instance.parttypes@.len() == parts0.len(),
            forall|i: int|
                0 <= i < parts0.len() ==> #[trigger] json_instance.parttypes@[i] == (JsonPartType {
                    reference: Some(i as usize),
                    ..parts0[i]
                }),
            sheets@.len() == sheet_id,
            forall|i: int|
                sheet_id <= i < sheets0.len() ==> #[trigger] json_instance.sheettypes@[i]
                    == sheets0[i],
            forall|i: int|
                0 <= i < sheet_id ==> #[trigger] json_instance.sheettypes@[i] == (JsonSheetType {
                    reference: Some(i as usize),
                    ..sheets0[i]
                }),
            forall|i: int|
                0 <= i < sheet_id ==> #[trigger] sheets@[i] == (
                (SheetType {
                    id: i as usize,
                    width: sheets0[i].length,
                    height: sheets0[i].height,
                    value: sheets0[i].cost,
                }, match sheets0[i].stock {
                    Some(stock) => stock,
                    None => usize::MAX,
                })),
        decreases sheets0.len() - sheet_id,
    {
        let json_sheet = &mut json_instance.sheettypes[sheet_id];
        json_sheet.reference = Some(sheet_id);
        let mut sheettype = SheetType::new(json_sheet.length, json_sheet.height, json_sheet.cost);
        sheettype.set_id(sheet_id);
        let stock = match json_sheet.stock {
            Some(stock) => stock,
            None => usize::MAX,
        };
        sheets.push((sheettype, stock));
        sheet_id = sheet_id + 1;
    }
    proof {
        assert forall|i: int| 0 <= i < parts0.len() implies demanded_area(#[trigger] parts@[i])
            == json_demanded_area(parts0[i]) by {
            assert(parts@[i].0.width * parts@[i].0.height * parts@[i].1 == parts0[i].length
                * parts0[i].height * parts0[i].demand);
        }
        lemma_area_prefix_pointwise(parts@, parts0, parts0.len() as int);
    }
    Instance::new(parts, sheets)
}

/// Whether a solution-document node faithfully describes a tree node: same
/// rectangle, the kind derived from the part assignment and the children,
/// the cut orientation recorded exactly for structures, the part recorded
/// exactly for items, and the children in order.
pub open spec fn matches_json(n: Node, j: JsonCPNode) -> bool
    decreases n,
{
    &&& j.length == n.width
    &&& j.height == n.height
    &&& j.node_type == (if n.parttype_id is Some {
        JsonCPNodeType::Item
    } else if n.children@.len() == 0 {
        JsonCPNodeType::Leftover
    } else {
        JsonCPNodeType::Structure
    })
    &&& j.orientation == (if n.parttype_id is None && n.children@.len() > 0 {
        match n.next_cut_orient {
            Orientation::Horizontal => Some(JsonOrientation::H),
            Orientation::Vertical => Some(JsonOrientation::V),
        }
    } else {
        None::<JsonOrientation>
    })
    &&& j.item == (if n.parttype_id is Some {
        n.parttype_id
    } else {
        None::<usize>
    })
    &&& j.children@.len() == n.children@.len()
    &&& forall|i: int|
        0 <= i < n.children@.len() ==> matches_json(
            #[trigger] n.children@[i],
            j.children@[i],
        )
}

/// Serialize one tree node into a solution-document node.
pub fn convert_node_bp_to_json_cp_node(node: &NodeBlueprint) -> (r: JsonCPNode)
    requires
        node.wf(),
    ensures
        matches_json(*node, r),
    decreases *node,
{
    let mut children: Vec<JsonCPNode> = Vec::new();
    let mut i: usize = 0;
    while i < node.children.len()
        invariant
            node.wf(),
            0 <= i <= node.children@.len(),
            children@.len() == i,
            forall|k: int|
                0 <= k < i ==> matches_json(#[trigger] node.children@[k], children@[k]),
        decreases node.children@.len() - i,
    {
        proof {
            assert(decreases_to!(*node => node.children@[i as int]));
            assert(node.children@[i as int].wf());
        }
        let child = convert_node_bp_to_json_cp_node(&node.children[i]);
        children.push(child);
        i = i + 1;
    }
    let length = node.width;
    let height = node.height;
    let node_type = match (node.parttype_id, node.children.len() == 0) {
        (None, true) => JsonCPNodeType::Leftover,
        (None, false) => JsonCPNodeType::Structure,
        (Some(_), _) => JsonCPNodeType::Item,
    };
    let orientation = match (&node_type, node.next_cut_orient) {
        (JsonCPNodeType::Structure, Orientation::Horizontal) => Some(JsonOrientation::H),
        (JsonCPNodeType::Structure, Orientation::Vertical) => Some(JsonOrientation::V),
        (_, _) => None,
    };
    let item = match &node_type {
        JsonCPNodeType::Item => node.parttype_id,
        _ => None,
    };
    JsonCPNode { length, height, orientation, node_type, item, children }
}

/// Serialize one layout into a cutting pattern.
pub fn convert_layout_to_json_cp(layout: &SendableLayout) -> (r: JsonCP)
    requires
        layout.top_node.wf(),
    ensures
        r.object == layout.sheettype_id,
        matches_json(layout.top_node, r.root),
{
    let object = layout.sheettype_id();
    let root = convert_node_bp_to_json_cp_node(layout.top_node());
    JsonCP { object, root }
}

/// Assemble the solution document: the document's own part and sheet lists
/// are carried over, every layout is serialized in order, and the
/// statistics quote the solution's figures together with the caller's run
/// time and configuration path.
pub fn generate_json_solution(
    json_instance: &JsonInstance,
    solution: &SendableSolution,
    config_path: String,
    run_time_ms: u64,
) -> (r: JsonSolution)
    requires
        forall|i: int|
            0 <= i < solution.layouts@.len() ==> (#[trigger] solution.layouts@[i]).top_node.wf(),
        solution.cost.part_area_included + solution.cost.part_area_excluded <= u64::MAX,
    ensures
        r.name@ == json_instance.name@,
        r.sheettypes@ == json_instance.sheettypes@,
        r.parttypes@ == json_instance.parttypes@,
        r.cutting_patterns@.len() == solution.layouts@.len(),
        forall|i: int|
            0 <= i < r.cutting_patterns@.len() ==> (#[trigger] r.cutting_patterns@[i]).object
                == solution.layouts@[i].sheettype_id && matches_json(
                solution.layouts@[i].top_node,
                r.cutting_patterns@[i].root,
            ),
        r.statistics.usage_pct == solution.usage_pct,
        r.statistics.part_area_included_pct == crate::cost::part_area_included_pct_spec(
            solution.cost,
        ),
        r.statistics.n_objects_used == solution.layouts@.len(),
        r.statistics.material_cost == solution.cost.material_cost,
        r.statistics.run_time_ms == run_time_ms,
        r.statistics.config_path@ == config_path@,
{
    let name = clone_string(&json_instance.name);
    let sheettypes = copy_json_sheettypes(&json_instance.sheettypes);
    let parttypes = copy_json_parttypes(&json_instance.parttypes);
    let mut cutting_patterns: Vec<JsonCP> = Vec::new();
    let mut i: usize = 0;
    while i < solution.layouts().len()
        invariant
            forall|k: int|
                0 <= k < solution.layouts@.len() ==> (
                #[trigger] solution.layouts@[k]).top_node.wf(),
            0 <= i <= solution.layouts@.len(),
            cutting_patterns@.len() == i,
            forall|k: int|
                0 <= k < i ==> (#[trigger] cutting_patterns@[k]).object == solution.layouts@[
                k].sheettype_id && matches_json(
                    solution.layouts@[k].top_node,
                    cutting_patterns@[k].root,
                ),
        decreases solution.layouts@.len() - i,
    {
        let cp = convert_layout_to_json_cp(&solution.layouts()[i]);
        cutting_patterns.push(cp);
        i = i + 1;
    }
    let statistics = JsonSolutionStats {
        usage_pct: solution.usage_pct(),
        part_area_included_pct: solution.cost().part_area_included_pct(),
        n_objects_used: solution.n_layouts(),
        material_cost: solution.cost().material_cost,
        run_time_ms,
        config_path,
    };
    JsonSolution { name, sheettypes, parttypes, cutting_patterns, statistics }
}

/// Relies on `alloc::string::String::clone`: the copy holds the same
/// characters.
#[verifier::external_body]
fn clone_string(s: &String) -> (r: String)
    ensures
        r@ == s@,
{
    s.clone()
}

fn copy_json_parttypes(v: &Vec<JsonPartType>) -> (r: Vec<JsonPartType>)
    ensures
        r@ == v@,
{
    let mut r: Vec<JsonPartType> = Vec::new();
    let mut i: usize = 0;
    while i < v.len()
        invariant
            0 <= i <= v@.len(),
            r@ == v@.take(i as int),
        decreases v@.len() - i,
    {
        r.push(v[i]);
        proof {
            assert(r@ =~= v@.take(i + 1));
        }
        i = i + 1;
    }
    proof {
        assert(v@.take(v@.len() as int) =~= v@);
    }
    r
}

fn copy_json_sheettypes(v: &Vec<JsonSheetType>) -> (r: Vec<JsonSheetType>)
    ensures
        r@ == v@,
{
    let mut r: Vec<JsonSheetType> = Vec::new();
    let mut i: usize = 0;
    while i < v.len()
        invariant
            0 <= i <= v@.len(),
            r@ == v@.take(i as int),
        decreases v@.len() - i,
    {
        r.push(v[i]);
        proof {
            assert(r@ =~= v@.take(i + 1));
        }
        i = i + 1;
    }
    proof {
        assert(v@.take(v@.len() as int) =~= v@);
    }
    r
}

/// A coherent solution-document node: the kind determines which of the
/// optional fields are present, and leaves have no children.
pub open spec fn json_node_wf(j: JsonCPNode) -> bool
    decreases j,
{
    &&& (j.node_type == JsonCPNodeType::Item ==> j.item is Some && j.children@.len() == 0)
    &&& (j.node_type == JsonCPNodeType::Leftover ==> j.item is None && j.children@.len() == 0)
    &&& (j.node_type == JsonCPNodeType::Structure ==> j.item is None && j.children@.len() > 0)
    &&& (j.node_type == JsonCPNodeType::Structure <==> j.orientation is Some)
    &&& forall|i: int| 0 <= i < j.children@.len() ==> json_node_wf(#[trigger] j.children@[i])
}

/// Rebuild a tree node from a solution-document node. A document stores no
/// cut orientation for leaves; `next_cut_orient` supplies it, and children
/// receive the orientation below their parent's, as the tiling invariants
/// prescribe.
pub fn convert_json_cp_node_to_node(j: &JsonCPNode, next_cut_orient: Orientation) -> (r: Node)
    requires
        json_node_wf(*j),
    ensures
        matches_json(r, *j),
        r.next_cut_orient == (if j.node_type == JsonCPNodeType::Structure {
            match j.orientation {
                Some(JsonOrientation::H) => Orientation::Horizontal,
                Some(JsonOrientation::V) => Orientation::Vertical,
                None => next_cut_orient,
            }
        } else {
            next_cut_orient
        }),
        leaf_orients_alternate(r),
    decreases *j,
{
    let my_orient = match (&j.node_type, &j.orientation) {
        (JsonCPNodeType::Structure, Some(JsonOrientation::H)) => Orientation::Horizontal,
        (JsonCPNodeType::Structure, Some(JsonOrientation::V)) => Orientation::Vertical,
        (_, _) => next_cut_orient,
    };
    let child_orient = my_orient.flipped();
    let mut children: Vec<Node> = Vec::new();
    let mut i: usize = 0;
    while i < j.children.len()
        invariant
            json_node_wf(*j),
            0 <= i <= j.children@.len(),
            children@.len() == i,
            forall|k: int|
                0 <= k < i ==> matches_json(#[trigger] children@[k], j.children@[k]) && (
                children@[k].is_leaf() ==> children@[k].next_cut_orient == flip(my_orient))
                    && leaf_orients_alternate(children@[k]),
            child_orient == flip(my_orient),
        decreases j.children@.len() - i,
    {
        proof {
            assert(decreases_to!(*j => j.children@[i as int]));
            assert(json_node_wf(j.children@[i as int]));
        }
        let c = convert_json_cp_node_to_node(&j.children[i], child_orient);
        proof {
            if c.is_leaf() {
                assert(j.children@[i as int].node_type != JsonCPNodeType::Structure);
                assert(c.next_cut_orient == child_orient);
            }
        }
        children.push(c);
        i = i + 1;
    }
    let parttype_id = match (&j.node_type, &j.item) {
        (JsonCPNodeType::Item, Some(pt)) => Some(*pt),
        (_, _) => None,
    };
    let r = Node {
        width: j.length,
        height: j.height,
        next_cut_orient: my_orient,
        parttype_id,
        children,
    };
    r
}

/// Every leaf child's cut orientation is the flip of its parent's, all the
/// way down. The tiling invariants prescribe this; a document records no
/// orientation for leaves, so a rebuilt tree establishes it by threading.
pub open spec fn leaf_orients_alternate(n: Node) -> bool
    decreases n,
{
    forall|i: int|
        0 <= i < n.children@.len() ==> ((#[trigger] n.children@[i]).is_leaf()
            ==> n.children@[i].next_cut_orient == flip(n.next_cut_orient))
            && leaf_orients_alternate(n.children@[i])
}

} // verus!
