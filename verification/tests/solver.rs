use gdcsp::blueprint::LayoutRef;
use gdcsp::codec::{
    convert_json_cp_node_to_node, convert_layout_to_json_cp, generate_instance,
    generate_json_solution, JsonCPNodeType, JsonInstance, JsonOrientation, JsonPartType,
    JsonSheetType,
};
use gdcsp::collector::{
    apply_sync_message, monitor_should_stop, Config, GlobalSolCollector, SendableLayout,
    SendableSolution, SolutionStats, SyncMessage,
};
use gdcsp::cost::{compare, Cost, CostComparator, CostOrdering};
use gdcsp::entities::{Instance, Orientation, PartType, Rotation, SheetType};
use gdcsp::enumerator::generate_blueprints;
use gdcsp::node::Node;
use gdcsp::problem::Problem;

fn config(rotation_allowed: bool) -> Config {
    Config {
        max_run_time: 60,
        n_threads: 2,
        rotation_allowed,
        ruin_fraction_min_pm: 100,
        ruin_fraction_max_pm: 400,
        cost_comparator: CostComparator::MatThenArea,
    }
}

fn instance_one(
    sheet: (u64, u64, u64, usize),
    parts: &[(u64, u64, usize)],
    rotation_allowed: bool,
) -> Instance {
    let mut ps = Vec::new();
    for (i, &(w, h, d)) in parts.iter().enumerate() {
        let rot = if rotation_allowed { None } else { Some(Rotation::Default) };
        ps.push((PartType::new(i, w, h, rot), d));
    }
    let mut st = SheetType::new(sheet.0, sheet.1, sheet.2);
    st.set_id(0);
    Instance::new(ps, vec![(st, sheet.3)])
}

fn trees_equal(a: &Node, b: &Node) -> bool {
    a.width == b.width && a.height == b.height && a.next_cut_orient == b.next_cut_orient
        && a.parttype_id == b.parttype_id && a.children.len() == b.children.len()
        && a.children.iter().zip(b.children.iter()).all(|(x, y)| trees_equal(x, y))
}

#[test]
fn trivial_exact_fit() {
    let instance = instance_one((100, 100, 10, usize::MAX), &[(100, 100, 1)], false);
    let mut problem = Problem::new(instance);
    let part = problem.instance().parts()[0].0;
    let mut bps = generate_blueprints(&problem, &part);
    assert!(!bps.is_empty());
    let bp = bps.remove(0);
    assert_eq!(bp.cost().material_cost, 10);
    assert_eq!(bp.cost().part_area_included, 10000);
    let (_updates, created) = problem.implement_insertion_blueprint(bp);
    assert!(created);
    assert_eq!(problem.layouts().len(), 1);
    assert_eq!(problem.parttype_qtys()[0], 0);
    // the whole sheet is one item: no leftover sibling of positive area
    let top = &problem.layouts()[0].top_node;
    assert_eq!(top.children.len(), 1);
    let item = &top.children[0];
    assert_eq!(item.parttype_id, Some(0));
    assert!(item.children.is_empty());
    assert_eq!(item.width, 100);
    assert_eq!(item.height, 100);
    let cost = Cost::new(10, 0, 10000);
    assert_eq!(cost.part_area_included_pct(), 100);
}

#[test]
fn two_cut_guillotine() {
    let instance = instance_one((100, 100, 10, usize::MAX), &[(60, 100, 1), (40, 100, 1)], false);
    let mut problem = Problem::new(instance);
    let part0 = problem.instance().parts()[0].0;
    let mut bps = generate_blueprints(&problem, &part0);
    assert!(!bps.is_empty());
    let bp = bps.remove(0);
    problem.implement_insertion_blueprint(bp);
    let part1 = problem.instance().parts()[1].0;
    let mut bps1 = generate_blueprints(&problem, &part1);
    // prefer filling the already opened layout over a fresh sheet
    let pos = (0..bps1.len())
        .find(|&k| matches!(bps1[k].layout(), Some(LayoutRef::Active(_))))
        .expect("an insertion into the open layout must exist");
    let bp1 = bps1.remove(pos);
    problem.implement_insertion_blueprint(bp1);
    assert_eq!(problem.layouts().len(), 1);
    assert_eq!(problem.parttype_qtys()[0], 0);
    assert_eq!(problem.parttype_qtys()[1], 0);
    // the first cut band is a structure with two item children side by side
    let top = &problem.layouts()[0].top_node;
    assert_eq!(top.children.len(), 1);
    let band = &top.children[0];
    assert_eq!(band.next_cut_orient, Orientation::Vertical);
    assert_eq!(band.children.len(), 2);
    assert_eq!(band.children[0].parttype_id, Some(0));
    assert_eq!(band.children[1].parttype_id, Some(1));
    assert_eq!(band.children[0].width, 60);
    assert_eq!(band.children[1].width, 40);
}

#[test]
fn stock_limit() {
    let instance = instance_one((100, 100, 10, 1), &[(100, 100, 2)], false);
    let mut problem = Problem::new(instance);
    let part = problem.instance().parts()[0].0;
    let mut bps = generate_blueprints(&problem, &part);
    assert!(!bps.is_empty());
    let bp = bps.remove(0);
    problem.implement_insertion_blueprint(bp);
    assert_eq!(problem.layouts().len(), 1);
    assert_eq!(problem.sheettype_qtys()[0], 0);
    // no second sheet: the demand stays partly unplaced
    let again = generate_blueprints(&problem, &part);
    assert!(again.is_empty());
    assert_eq!(problem.parttype_qtys()[0], 1);
    let part_area_excluded: u64 = 100 * 100 * problem.parttype_qtys()[0] as u64;
    assert_eq!(part_area_excluded, 10000);
}

#[test]
fn rotation_allowed_places_rotated() {
    let instance = instance_one((100, 50, 10, usize::MAX), &[(50, 100, 1)], true);
    let mut problem = Problem::new(instance);
    let part = problem.instance().parts()[0].0;
    let mut bps = generate_blueprints(&problem, &part);
    assert!(!bps.is_empty());
    let bp = bps.remove(0);
    problem.implement_insertion_blueprint(bp);
    assert_eq!(problem.parttype_qtys()[0], 0);
    let top = &problem.layouts()[0].top_node;
    assert_eq!(top.children.len(), 1);
    let item = &top.children[0];
    assert_eq!(item.parttype_id, Some(0));
    // the part appears quarter-turned
    assert_eq!(item.width, 100);
    assert_eq!(item.height, 50);
}

#[test]
fn rotation_disallowed_is_infeasible() {
    let instance = instance_one((100, 50, 10, usize::MAX), &[(50, 100, 1)], false);
    let problem = Problem::new(instance);
    let part = problem.instance().parts()[0].0;
    let bps = generate_blueprints(&problem, &part);
    assert!(bps.is_empty());
}

#[test]
fn oversized_part_has_no_blueprint() {
    let instance = instance_one((100, 100, 10, usize::MAX), &[(150, 150, 1)], true);
    let problem = Problem::new(instance);
    let part = problem.instance().parts()[0].0;
    let bps = generate_blueprints(&problem, &part);
    assert!(bps.is_empty());
}

#[test]
fn zero_stock_creates_no_layout() {
    let instance = instance_one((100, 100, 10, 0), &[(10, 10, 1)], false);
    let problem = Problem::new(instance);
    assert!(problem.empty_layouts().is_empty());
    let part = problem.instance().parts()[0].0;
    let bps = generate_blueprints(&problem, &part);
    assert!(bps.is_empty());
    assert_eq!(problem.layouts().len(), 0);
}

#[test]
fn commit_then_remove_restores_quantities() {
    let instance = instance_one((100, 100, 10, 3), &[(100, 100, 2)], false);
    let mut problem = Problem::new(instance);
    let part = problem.instance().parts()[0].0;
    let mut bps = generate_blueprints(&problem, &part);
    let bp = bps.remove(0);
    let counter_before = problem.counter_layout_id();
    problem.implement_insertion_blueprint(bp);
    assert_eq!(problem.parttype_qtys()[0], 1);
    assert_eq!(problem.sheettype_qtys()[0], 2);
    let (released, layout_gone) = problem.remove_node(0, &vec![0usize]);
    assert_eq!(released, 0);
    assert!(layout_gone);
    assert_eq!(problem.parttype_qtys()[0], 2);
    assert_eq!(problem.sheettype_qtys()[0], 3);
    assert_eq!(problem.layouts().len(), 0);
    // the consumed layout id is not reused
    assert!(problem.counter_layout_id() > counter_before);
}

#[test]
fn removal_collapses_dead_structures() {
    let instance = instance_one((100, 100, 10, usize::MAX), &[(60, 60, 1)], false);
    let mut problem = Problem::new(instance);
    let part = problem.instance().parts()[0].0;
    let mut bps = generate_blueprints(&problem, &part);
    let bp = bps.remove(0);
    problem.implement_insertion_blueprint(bp);
    // the item sits inside a nested band; removing it empties the layout
    let (released, layout_gone) = problem.remove_node(0, &vec![0usize, 0usize]);
    assert_eq!(released, 0);
    assert!(layout_gone);
    assert_eq!(problem.layouts().len(), 0);
}

#[test]
fn instance_document_round_trip() {
    let mut doc = JsonInstance {
        name: "demo".to_string(),
        parttypes: vec![
            JsonPartType { length: 60, height: 100, demand: 1, reference: None },
            JsonPartType { length: 40, height: 100, demand: 2, reference: None },
        ],
        sheettypes: vec![JsonSheetType {
            length: 100,
            height: 100,
            cost: 10,
            stock: None,
            reference: None,
        }],
    };
    let instance = generate_instance(&mut doc, &config(false));
    // dense references were assigned in order
    assert_eq!(doc.parttypes[0].reference, Some(0));
    assert_eq!(doc.parttypes[1].reference, Some(1));
    assert_eq!(doc.sheettypes[0].reference, Some(0));
    // the instance carries the document's fields exactly
    assert_eq!(instance.parts().len(), 2);
    assert_eq!(instance.parts()[0].0.width(), 60);
    assert_eq!(instance.parts()[0].0.height(), 100);
    assert_eq!(instance.parts()[1].1, 2);
    assert_eq!(instance.sheets()[0].0.value(), 10);
    assert_eq!(instance.sheets()[0].1, usize::MAX);
    assert_eq!(instance.total_part_area(), 60 * 100 + 2 * 40 * 100);
}

#[test]
fn solution_document_round_trip() {
    let instance = instance_one((100, 100, 10, usize::MAX), &[(60, 100, 1)], false);
    let mut problem = Problem::new(instance);
    let part = problem.instance().parts()[0].0;
    let mut bps = generate_blueprints(&problem, &part);
    let bp = bps.remove(0);
    problem.implement_insertion_blueprint(bp);
    let layout = &problem.layouts()[0];
    let sendable = SendableLayout {
        id: layout.id,
        sheettype_id: layout.sheettype_id,
        top_node: layout.top_node.deep_copy(),
    };
    let cp = convert_layout_to_json_cp(&sendable);
    assert_eq!(cp.object, 0);
    assert_eq!(cp.root.node_type, JsonCPNodeType::Structure);
    assert_eq!(cp.root.orientation, Some(JsonOrientation::H));
    // rebuilding from the document yields a structurally equal tree
    let rebuilt = convert_json_cp_node_to_node(&cp.root, Orientation::Horizontal);
    assert!(trees_equal(&rebuilt, &layout.top_node));
}

#[test]
fn solution_document_statistics() {
    let instance = instance_one((100, 100, 10, usize::MAX), &[(100, 100, 1)], false);
    let mut problem = Problem::new(instance);
    let part = problem.instance().parts()[0].0;
    let mut bps = generate_blueprints(&problem, &part);
    let bp = bps.remove(0);
    problem.implement_insertion_blueprint(bp);
    let layout = &problem.layouts()[0];
    let solution = SendableSolution {
        layouts: vec![SendableLayout {
            id: layout.id,
            sheettype_id: layout.sheettype_id,
            top_node: layout.top_node.deep_copy(),
        }],
        cost: Cost::new(10, 0, 10000),
        usage_pct: 100,
    };
    let doc = JsonInstance {
        name: "demo".to_string(),
        parttypes: vec![JsonPartType { length: 100, height: 100, demand: 1, reference: Some(0) }],
        sheettypes: vec![JsonSheetType {
            length: 100,
            height: 100,
            cost: 10,
            stock: None,
            reference: Some(0),
        }],
    };
    let out = generate_json_solution(&doc, &solution, "run.json".to_string(), 1234);
    assert_eq!(out.name, "demo");
    assert_eq!(out.cutting_patterns.len(), 1);
    assert_eq!(out.statistics.material_cost, 10);
    assert_eq!(out.statistics.part_area_included_pct, 100);
    assert_eq!(out.statistics.usage_pct, 100);
    assert_eq!(out.statistics.n_objects_used, 1);
    assert_eq!(out.statistics.run_time_ms, 1234);
    assert_eq!(out.statistics.config_path, "run.json");
}

#[test]
fn bound_broadcast() {
    let instance = instance_one((100, 100, 10, usize::MAX), &[(100, 100, 1)], false);
    let cfg = config(false);
    let mut collector = GlobalSolCollector::new(instance, cfg, 100, 2);
    let solution_a = SendableSolution {
        layouts: vec![],
        cost: Cost::new(50, 0, 10000),
        usage_pct: 100,
    };
    let broadcast =
        collector.report_new_complete_solution("worker-a".to_string(), solution_a);
    assert_eq!(broadcast, Some(SyncMessage::SyncMatLimit(50)));
    assert_eq!(collector.material_limit(), 50);
    // worker B, exploring at material 60, receives the bound and discards
    let (new_limit, discard, terminate) =
        apply_sync_message(u64::MAX, 60, &SyncMessage::SyncMatLimit(50));
    assert_eq!(new_limit, 50);
    assert!(discard);
    assert!(!terminate);
    // a worse complete solution changes nothing
    let solution_b = SendableSolution {
        layouts: vec![],
        cost: Cost::new(70, 0, 10000),
        usage_pct: 100,
    };
    let broadcast_b =
        collector.report_new_complete_solution("worker-b".to_string(), solution_b);
    assert_eq!(broadcast_b, None);
    assert_eq!(collector.material_limit(), 50);
}

#[test]
fn incomplete_reports_tracked_until_complete() {
    let instance = instance_one((100, 100, 10, usize::MAX), &[(100, 100, 1)], false);
    let cfg = config(false);
    let mut collector = GlobalSolCollector::new(instance, cfg, u64::MAX, 1);
    let stats = SolutionStats { cost: Cost::new(20, 5000, 5000), usage_pct: 50, n_layouts: 2 };
    collector.report_new_incomplete_cost("w".to_string(), stats);
    assert!(collector.best_incomplete_cost.is_some());
    let complete = SendableSolution {
        layouts: vec![],
        cost: Cost::new(30, 0, 10000),
        usage_pct: 100,
    };
    let broadcast = collector.report_new_complete_solution("w".to_string(), complete);
    assert_eq!(broadcast, Some(SyncMessage::SyncMatLimit(30)));
    assert!(collector.best_incomplete_cost.is_none());
    assert!(collector.best_complete_solution.is_some());
}

#[test]
fn cost_comparators() {
    let a = Cost::new(10, 500, 100);
    let b = Cost::new(10, 300, 100);
    assert_eq!(compare(CostComparator::MatThenArea, &a, &b), CostOrdering::Greater);
    assert_eq!(compare(CostComparator::AreaThenMat, &b, &a), CostOrdering::Less);
    assert_eq!(compare(CostComparator::MatThenArea, &a, &a), CostOrdering::Equal);
    let c = Cost::new(5, 900, 100);
    assert_eq!(compare(CostComparator::MatThenArea, &c, &a), CostOrdering::Less);
    assert_eq!(compare(CostComparator::AreaThenMat, &c, &a), CostOrdering::Greater);
}

#[test]
fn monitor_stop_conditions() {
    assert!(!monitor_should_stop(true, 10, 60, false));
    assert!(monitor_should_stop(false, 10, 60, false));
    assert!(monitor_should_stop(true, 60, 60, false));
    assert!(monitor_should_stop(true, 10, 60, true));
    let (limit, discard, terminate) = apply_sync_message(40, 10, &SyncMessage::Terminate);
    assert_eq!(limit, 40);
    assert!(!discard);
    assert!(terminate);
}

#[test]
fn templates_stay_pristine() {
    let instance = instance_one((100, 100, 10, usize::MAX), &[(60, 100, 2)], false);
    let mut problem = Problem::new(instance);
    assert_eq!(problem.empty_layouts().len(), 1);
    let template_before = problem.empty_layouts()[0].top_node.deep_copy();
    let part = problem.instance().parts()[0].0;
    let mut bps = generate_blueprints(&problem, &part);
    let bp = bps.remove(0);
    problem.implement_insertion_blueprint(bp);
    // the template itself is untouched by the copy-on-insert commit
    assert!(trees_equal(&template_before, &problem.empty_layouts()[0].top_node));
    assert_eq!(problem.empty_layouts().len(), 1);
}

#[test]
fn empty_demand_pct_is_full() {
    let cost = Cost::new(0, 0, 0);
    assert_eq!(cost.part_area_included_pct(), 100);
    let half = Cost::new(0, 5000, 5000);
    assert_eq!(half.part_area_included_pct(), 50);
}
