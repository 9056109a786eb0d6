//! The global solution collector: it aggregates reports from search
//! workers, keeps the best solutions seen, owns the authoritative material
//! cost bound, and decides which synchronization messages to broadcast.
//! The channels, threads and timers that carry these values live outside
//! the library; every decision is made here.

use vstd::prelude::*;

use crate::cost::{compare, compare_spec, Cost, CostComparator, CostOrdering};
use crate::entities::Instance;
use crate::layout::Layout;
use crate::node::{same_tree, Node, NodeBlueprint};

verus! {

/// Run-wide configuration. The ruin fraction bounds are in thousandths.
#[derive(Clone, Copy, Debug)]
pub struct Config {
    pub max_run_time: u64,
    pub n_threads: usize,
    pub rotation_allowed: bool,
    pub ruin_fraction_min_pm: u64,
    pub ruin_fraction_max_pm: u64,
    pub cost_comparator: CostComparator,
}

/// An owning, thread-safe copy of one layout.
#[derive(Debug)]
pub struct SendableLayout {
    pub id: usize,
    pub sheettype_id: usize,
    pub top_node: NodeBlueprint,
}

impl SendableLayout {
    pub fn sheettype_id(&self) -> (r: usize)
        ensures
            r == self.sheettype_id,
    {
        self.sheettype_id
    }

    pub fn top_node(&self) -> (r: &NodeBlueprint)
        ensures
            *r == self.top_node,
    {
        &self.top_node
    }
}

/// An owning snapshot of a solution: detached copies of the layouts and
/// the aggregate cost, plus the sheet usage in whole percent.
#[derive(Debug)]
pub struct SendableSolution {
    pub layouts: Vec<SendableLayout>,
    pub cost: Cost,
    pub usage_pct: u64,
}

impl SendableSolution {
    pub fn layouts(&self) -> (r: &Vec<SendableLayout>)
        ensures
            r@ == self.layouts@,
    {
        &self.layouts
    }

    pub fn cost(&self) -> (r: &Cost)
        ensures
            *r == self.cost,
    {
        &self.cost
    }

    pub fn n_layouts(&self) -> (r: usize)
        ensures
            r == self.layouts@.len(),
    {
        self.layouts.len()
    }

    pub fn usage_pct(&self) -> (r: u64)
        ensures
            r == self.usage_pct,
    {
        self.usage_pct
    }
}

/// Aggregate figures of a solution, shipped without the layouts.
#[derive(Clone, Copy, Debug)]
pub struct SolutionStats {
    pub cost: Cost,
    pub usage_pct: u64,
    pub n_layouts: usize,
}

/// Collector-to-worker synchronization.
#[derive(Clone, Copy, Debug, PartialEq, Eq, Structural)]
pub enum SyncMessage {
    SyncMatLimit(u64),
    Terminate,
}

/// Worker-to-collector reports. The string names the reporting worker.
#[derive(Debug)]
pub enum SolutionReportMessage {
    NewCompleteSolution(String, SendableSolution),
    NewIncompleteStats(String, SolutionStats),
    NewIncompleteSolution(String, SendableSolution),
}

pub struct GlobalSolCollector {
    pub instance: Instance,
    pub config: Config,
    pub best_complete_solution: Option<SendableSolution>,
    pub best_incomplete_solution: Option<SendableSolution>,
    pub best_incomplete_cost: Option<Cost>,
    pub cost_comparator: CostComparator,
    pub material_limit: u64,
    pub n_workers: usize,
}

impl GlobalSolCollector {
    pub fn new(instance: Instance, config: Config, material_limit: u64, n_workers: usize) -> (r:
        GlobalSolCollector)
        ensures
            r.instance == instance,
            r.config == config,
            r.best_complete_solution is None,
            r.best_incomplete_solution is None,
            r.best_incomplete_cost is None,
            r.cost_comparator == config.cost_comparator,
            r.material_limit == material_limit,
            r.n_workers == n_workers,
    {
        GlobalSolCollector {
            instance,
            config,
            best_complete_solution: None,
            best_incomplete_solution: None,
            best_incomplete_cost: None,
            cost_comparator: config.cost_comparator,
            material_limit,
            n_workers,
        }
    }

    /// Whether a complete solution with this material cost must be accepted:
    /// it beats the bound, and the best kept so far if there is one.
    pub open spec fn accepts_complete(self, material_cost: u64) -> bool {
        material_cost < self.material_limit && match self.best_complete_solution {
            Some(best) => material_cost < best.cost.material_cost,
            None => true,
        }
    }

    /// A new complete solution. If accepted it becomes the best, the
    /// incomplete records are cleared, the material bound drops to its
    /// cost, and that bound must be broadcast to every worker; otherwise
    /// nothing changes and nothing is sent.
    pub fn report_new_complete_solution(&mut self, thread_name: String, solution: SendableSolution)
        -> (broadcast: Option<SyncMessage>)
        ensures
            old(self).accepts_complete(solution.cost.material_cost) ==> {
                &&& final(self).best_complete_solution == Some(solution)
                &&& final(self).best_incomplete_solution is None
                &&& final(self).best_incomplete_cost is None
                &&& final(self).material_limit == solution.cost.material_cost
                &&& broadcast == Some(SyncMessage::SyncMatLimit(solution.cost.material_cost))
            },
            !old(self).accepts_complete(solution.cost.material_cost) ==> {
                &&& *final(self) == *old(self)
                &&& broadcast is None
            },
            final(self).instance == old(self).instance,
            final(self).config == old(self).config,
            final(self).cost_comparator == old(self).cost_comparator,
            final(self).n_workers == old(self).n_workers,
    {
        let _ = thread_name;
        let mc = solution.cost.material_cost;
        if mc < self.material_limit {
            let better = match &self.best_complete_solution {
                Some(best) => mc < best.cost.material_cost,
                None => true,
            };
            if better {
                self.best_incomplete_cost = None;
                self.best_incomplete_solution = None;
                self.material_limit = mc;
                self.best_complete_solution = Some(solution);
                return Some(SyncMessage::SyncMatLimit(mc));
            }
        }
        None
    }

    /// Whether an incomplete solution with cost `c` must be kept: no
    /// complete solution exists yet and `c` improves on the best
    /// incomplete solution under the injected comparator.
    pub open spec fn accepts_incomplete(self, c: Cost) -> bool {
        self.best_complete_solution is None && match self.best_incomplete_solution {
            Some(best) => compare_spec(self.cost_comparator, c, best.cost)
                == CostOrdering::Less,
            None => true,
        }
    }

    /// A new incomplete solution: kept only while no complete solution
    /// exists and it improves under the comparator.
    pub fn report_new_incomplete_solution(
        &mut self,
        thread_name: String,
        solution: SendableSolution,
    )
        ensures
            old(self).accepts_incomplete(solution.cost) ==> final(self).best_incomplete_solution
                == Some(solution),
            !old(self).accepts_incomplete(solution.cost) ==> *final(self) == *old(self),
            final(self).best_complete_solution == old(self).best_complete_solution,
            final(self).best_incomplete_cost == old(self).best_incomplete_cost,
            final(self).material_limit == old(self).material_limit,
            final(self).instance == old(self).instance,
            final(self).config == old(self).config,
            final(self).cost_comparator == old(self).cost_comparator,
            final(self).n_workers == old(self).n_workers,
    {
        let _ = thread_name;
        if self.best_complete_solution.is_none() {
            let better = match &self.best_incomplete_solution {
                Some(best) => matches!(
                    compare(self.cost_comparator, &solution.cost, &best.cost),
                    CostOrdering::Less
                ),
                None => true,
            };
            if better {
                self.best_incomplete_solution = Some(solution);
            }
        }
    }

    /// Whether incomplete stats with cost `c` must be kept: under the
    /// material bound and improving on the best incomplete cost.
    pub open spec fn accepts_incomplete_cost(self, c: Cost) -> bool {
        c.material_cost < self.material_limit && match self.best_incomplete_cost {
            Some(best) => compare_spec(self.cost_comparator, c, best) == CostOrdering::Less,
            None => true,
        }
    }

    /// New incomplete statistics: only the best incomplete cost is updated.
    pub fn report_new_incomplete_cost(&mut self, thread_name: String, stats: SolutionStats)
        ensures
            old(self).accepts_incomplete_cost(stats.cost) ==> final(self).best_incomplete_cost
                == Some(stats.cost),
            !old(self).accepts_incomplete_cost(stats.cost) ==> *final(self) == *old(self),
            final(self).best_complete_solution == old(self).best_complete_solution,
            final(self).best_incomplete_solution == old(self).best_incomplete_solution,
            final(self).material_limit == old(self).material_limit,
            final(self).instance == old(self).instance,
            final(self).config == old(self).config,
            final(self).cost_comparator == old(self).cost_comparator,
            final(self).n_workers == old(self).n_workers,
    {
        let _ = thread_name;
        if stats.cost.material_cost < self.material_limit {
            let better = match &self.best_incomplete_cost {
                Some(best) => matches!(
                    compare(self.cost_comparator, &stats.cost, best),
                    CostOrdering::Less
                ),
                None => true,
            };
            if better {
                self.best_incomplete_cost = Some(stats.cost);
            }
        }
    }

    /// One step of the monitor loop's message handling: dispatch a report
    /// and return what, if anything, must be broadcast to every worker.
    pub fn process_solution_report(&mut self, message: SolutionReportMessage) -> (broadcast:
        Option<SyncMessage>)
        ensures
            final(self).instance == old(self).instance,
            final(self).config == old(self).config,
            final(self).cost_comparator == old(self).cost_comparator,
            final(self).n_workers == old(self).n_workers,
            match message {
                SolutionReportMessage::NewCompleteSolution(_, ref s) => broadcast == (
                if old(self).accepts_complete(s.cost.material_cost) {
                    Some(SyncMessage::SyncMatLimit(s.cost.material_cost))
                } else {
                    None::<SyncMessage>
                }),
                _ => broadcast is None,
            },
    {
        match message {
            SolutionReportMessage::NewCompleteSolution(name, solution) => {
                self.report_new_complete_solution(name, solution)
            },
            SolutionReportMessage::NewIncompleteStats(name, stats) => {
                self.report_new_incomplete_cost(name, stats);
                None
            },
            SolutionReportMessage::NewIncompleteSolution(name, solution) => {
                self.report_new_incomplete_solution(name, solution);
                None
            },
        }
    }

    pub fn material_limit(&self) -> (r: u64)
        ensures
            r == self.material_limit,
    {
        self.material_limit
    }
}

/// The monitor keeps running until it is interrupted, the time budget is
/// spent, or every worker has finished.
pub fn monitor_should_stop(
    running: bool,
    elapsed_secs: u64,
    max_run_time: u64,
    all_workers_finished: bool,
) -> (r: bool)
    ensures
        r == (!running || elapsed_secs >= max_run_time || all_workers_finished),
{
    !running || elapsed_secs >= max_run_time || all_workers_finished
}

/// A worker's handling of one synchronization message: the new local
/// material limit, whether the current partial solution must be discarded,
/// and whether the worker must terminate.
pub fn apply_sync_message(local_limit: u64, current_material: u64, message: &SyncMessage) -> (r: (
    u64,
    bool,
    bool,
))
    ensures
        match *message {
            SyncMessage::SyncMatLimit(limit) => r == (
                limit,
                current_material >= limit,
                false,
            ),
            SyncMessage::Terminate => r == (local_limit, false, true),
        },
{
    match message {
        SyncMessage::SyncMatLimit(limit) => (*limit, current_material >= *limit, false),
        SyncMessage::Terminate => (local_limit, false, true),
    }
}

/// An owning snapshot of a problem's layouts: each copy is structurally
/// equal to the corresponding active layout.
pub fn snapshot_layouts(layouts: &Vec<Layout>) -> (r: Vec<SendableLayout>)
    ensures
        r@.len() == layouts@.len(),
        forall|i: int|
            0 <= i < r@.len() ==> (#[trigger] r@[i]).id == layouts@[i].id && r@[i].sheettype_id
                == layouts@[i].sheettype_id && same_tree(r@[i].top_node, layouts@[i].top_node),
{
    let mut r: Vec<SendableLayout> = Vec::new();
    let mut i: usize = 0;
    while i < layouts.len()
        invariant
            0 <= i <= layouts@.len(),
            r@.len() == i,
            forall|k: int|
                0 <= k < r@.len() ==> (#[trigger] r@[k]).id == layouts@[k].id && r@[k].sheettype_id
                    == layouts@[k].sheettype_id && same_tree(r@[k].top_node, layouts@[k].top_node),
        decreases layouts@.len() - i,
    {
        let l = &layouts[i];
        let copy = SendableLayout {
            id: l.id,
            sheettype_id: l.sheettype_id,
            top_node: l.top_node.deep_copy(),
        };
        r.push(copy);
        i = i + 1;
    }
    r
}

} // verus!
