//! Strategies: trees of conditions that end in behaviours, and the rule by
//! which a behaviour that was chosen gives way to another.

pub mod condition;
pub mod priority;

use crate::analyzer::{Analyzer, AnalyzerView};
use crate::behavior::{lemma_model, step, Behavior, BehaviorModel, Noop};
use crate::models::{ClientState, GameCommand};
use crate::strategy::condition::{judged, Condition};
pub use crate::strategy::priority::Priority;
use vstd::prelude::*;

verus! {

/// A behaviour and how much it matters.
#[derive(Debug)]
pub struct PrioritizedBehavior {
    pub priority: Priority,
    pub behavior: Behavior,
}

/// A behaviour and how much it matters, as contracts speak of them.
pub struct PrioritizedModel {
    pub priority: Priority,
    pub behavior: BehaviorModel,
}

impl View for PrioritizedBehavior {
    type V = PrioritizedModel;

    open spec fn view(&self) -> PrioritizedModel {
        PrioritizedModel { priority: self.priority, behavior: self.behavior@ }
    }
}

/// The behaviour that is picked, if one is, as contracts speak of it.
pub open spec fn picked_model(pick: Option<PrioritizedBehavior>) -> Option<PrioritizedModel> {
    match pick {
        Some(p) => Some(p@),
        None => None,
    }
}

impl PrioritizedBehavior {
    /// The behaviour without effect, at the lowest priority.
    pub fn new() -> (p: PrioritizedBehavior)
        ensures
            p@ == (PrioritizedModel { priority: Priority::Low, behavior: BehaviorModel::Noop }),
    {
        let p = PrioritizedBehavior { priority: Priority::Low, behavior: Behavior::Noop(Noop {  }) };
        proof {
            lemma_model(p.behavior);
        }
        p
    }

    /// `behavior` at the lowest priority.
    pub fn with_low(behavior: Behavior) -> (p: PrioritizedBehavior)
        ensures
            p@ == (PrioritizedModel { priority: Priority::Low, behavior: behavior@ }),
    {
        PrioritizedBehavior { priority: Priority::Low, behavior }
    }

    /// `behavior` at the middle priority.
    pub fn with_medium(behavior: Behavior) -> (p: PrioritizedBehavior)
        ensures
            p@ == (PrioritizedModel { priority: Priority::Medium, behavior: behavior@ }),
    {
        PrioritizedBehavior { priority: Priority::Medium, behavior }
    }

    /// `behavior` at the highest priority.
    pub fn with_high(behavior: Behavior) -> (p: PrioritizedBehavior)
        ensures
            p@ == (PrioritizedModel { priority: Priority::High, behavior: behavior@ }),
    {
        PrioritizedBehavior { priority: Priority::High, behavior }
    }

    /// A behaviour of its own that is as this one is now, at the same
    /// priority.
    pub fn duplicate(&self) -> (p: PrioritizedBehavior)
        ensures
            p@ == self@,
    {
        PrioritizedBehavior { priority: self.priority, behavior: self.behavior.duplicate() }
    }
}

/// One branch of a strategy: a condition, and what to go by where it holds.
#[derive(Debug)]
pub struct Branch {
    pub condition: Condition,
    pub node: StrategyNode,
}

/// A strategy, or a part of one: branches to try in their order, or the
/// behaviour to take up.
#[derive(Debug)]
pub enum StrategyNode {
    Branch(Vec<Branch>),
    Leaf(PrioritizedBehavior),
}

/// One branch of a strategy, as contracts speak of it.
pub struct BranchModel {
    pub condition: Condition,
    pub node: NodeModel,
}

/// A strategy, or a part of one, as contracts speak of it.
pub enum NodeModel {
    Branch(Seq<BranchModel>),
    Leaf(PrioritizedModel),
}

/// What going by a strategy comes to: what the strategy is afterwards, and
/// the behaviour that is picked, if any.
pub struct Choice {
    pub tree: NodeModel,
    pub pick: Option<PrioritizedModel>,
}

/// What trying branches in their order comes to.
pub struct Scan {
    pub branches: Seq<BranchModel>,
    pub pick: Option<PrioritizedModel>,
}

/// The strategy `node` as contracts speak of it.
pub open spec fn node_model(node: StrategyNode) -> NodeModel
    decreases node,
{
    match node {
        StrategyNode::Leaf(leaf) => NodeModel::Leaf(leaf@),
        StrategyNode::Branch(branches) => NodeModel::Branch(
            Seq::new(
                branches@.len(),
                |i: int|
                    if 0 <= i < branches@.len() {
                        BranchModel {
                            condition: branches@[i].condition,
                            node: node_model(branches@[i].node),
                        }
                    } else {
                        BranchModel {
                            condition: arbitrary(),
                            node: NodeModel::Branch(Seq::empty()),
                        }
                    },
            ),
        ),
    }
}

/// The branches `branches` as contracts speak of them.
pub open spec fn branch_models(branches: Seq<Branch>) -> Seq<BranchModel> {
    Seq::new(
        branches.len(),
        |i: int| BranchModel { condition: branches[i].condition, node: node_model(branches[i].node) },
    )
}

impl View for StrategyNode {
    type V = NodeModel;

    open spec fn view(&self) -> NodeModel {
        node_model(*self)
    }
}

/// What the view of a strategy is, case by case.
pub proof fn lemma_node_model(node: StrategyNode)
    ensures
        node matches StrategyNode::Branch(branches) ==> node@ == NodeModel::Branch(
            branch_models(branches@),
        ),
        node matches StrategyNode::Leaf(leaf) ==> node@ == NodeModel::Leaf(leaf@),
{
    match node {
        StrategyNode::Branch(branches) => {
            assert(node_model(node)->Branch_0 =~= branch_models(branches@));
        },
        _ => {},
    }
}

/// What going by the strategy `node` comes to in the world `w`: a leaf gives
/// its behaviour; of branches, the first whose condition holds decides, and
/// where none holds, no behaviour is picked.
pub open spec fn chosen(node: NodeModel, w: AnalyzerView) -> Choice
    decreases node, 0nat,
{
    match node {
        NodeModel::Leaf(leaf) => Choice { tree: node, pick: Some(leaf) },
        NodeModel::Branch(branches) => {
            let scan = scanned(branches, w);
            Choice { tree: NodeModel::Branch(scan.branches), pick: scan.pick }
        },
    }
}

/// What trying the branches `branches` in their order comes to in the world
/// `w`. The conditions are asked up to the first that holds, and no
/// further.
pub open spec fn scanned(branches: Seq<BranchModel>, w: AnalyzerView) -> Scan
    decreases branches, 1nat,
{
    if branches.len() == 0 {
        Scan { branches, pick: None }
    } else {
        let verdict = judged(branches[0].condition, w);
        if verdict.holds {
            let inner = chosen(branches[0].node, w);
            Scan {
                branches: branches.update(
                    0,
                    BranchModel { condition: verdict.next, node: inner.tree },
                ),
                pick: inner.pick,
            }
        } else {
            let rest = scanned(branches.subrange(1, branches.len() as int), w);
            Scan {
                branches: seq![BranchModel { condition: verdict.next, node: branches[0].node }]
                    + rest.branches,
                pick: rest.pick,
            }
        }
    }
}

/// Tries the branches in their order.
fn scan(branches: &mut Vec<Branch>, analyzer: &Analyzer) -> (pick: Option<PrioritizedBehavior>)
    ensures
        scanned(branch_models(old(branches)@), analyzer@) == (Scan {
            branches: branch_models(final(branches)@),
            pick: picked_model(pick),
        }),
    decreases *old(branches), 1nat,
{
    let ghost w = analyzer@;
    let ghost before = branch_models(branches@);
    let mut i: usize = 0;
    proof {
        assert(before.subrange(0, before.len() as int) =~= before);
        assert(before.take(0) + scanned(before, w).branches =~= scanned(before, w).branches);
    }
    while i < branches.len()
        invariant
            w == analyzer@,
            before == branch_models(old(branches)@),
            i <= branches@.len(),
            branches@.len() == old(branches)@.len(),
            forall|j: int| i <= j < branches@.len() ==> branches@[j] == old(branches)@[j],
            scanned(before, w) == (Scan {
                branches: branch_models(branches@).take(i as int) + scanned(
                    before.subrange(i as int, before.len() as int),
                    w,
                ).branches,
                pick: scanned(before.subrange(i as int, before.len() as int), w).pick,
            }),
        decreases branches@.len() - i,
    {
        let ghost now = branch_models(branches@);
        let ghost rest = before.subrange(i as int, before.len() as int);
        proof {
            assert(rest[0] == before[i as int]);
            assert(before[i as int] == now[i as int]);
            assert(rest.subrange(1, rest.len() as int) =~= before.subrange(
                i + 1,
                before.len() as int,
            ));
        }
        if branches[i].condition.evaluate(analyzer) {
            let pick = branches[i].node.next_behavior(analyzer);
            proof {
                let after = branch_models(branches@);
                let inner = chosen(rest[0].node, w);
                let verdict = judged(rest[0].condition, w);
                assert(after =~= now.take(i as int) + rest.update(
                    0,
                    BranchModel { condition: verdict.next, node: inner.tree },
                ));
            }
            return pick;
        }
        proof {
            let after = branch_models(branches@);
            let verdict = judged(rest[0].condition, w);
            let tail = scanned(before.subrange(i + 1, before.len() as int), w);
            assert(after.take(i + 1) =~= now.take(i as int) + seq![
                BranchModel { condition: verdict.next, node: rest[0].node },
            ]);
            assert(after.take(i + 1) + tail.branches =~= now.take(i as int) + (seq![
                BranchModel { condition: verdict.next, node: rest[0].node },
            ] + tail.branches));
        }
        i += 1;
    }
    proof {
        let after = branch_models(branches@);
        assert(before.subrange(i as int, before.len() as int) =~= Seq::empty());
        assert(after.take(i as int) + Seq::<BranchModel>::empty() =~= after);
    }
    None
}

impl StrategyNode {
    /// The behaviour to take up in the world of `analyzer`: a copy of the
    /// behaviour of the leaf that the first conditions that hold lead to.
    pub fn next_behavior(&mut self, analyzer: &Analyzer) -> (pick: Option<PrioritizedBehavior>)
        ensures
            chosen(old(self)@, analyzer@) == (Choice {
                tree: final(self)@,
                pick: picked_model(pick),
            }),
        decreases *old(self), 0nat,
    {
        proof {
            lemma_node_model(*self);
        }
        let pick = match self {
            StrategyNode::Leaf(leaf) => Some(leaf.duplicate()),
            StrategyNode::Branch(branches) => scan(branches, analyzer),
        };
        proof {
            lemma_node_model(*self);
        }
        pick
    }
}

/// A tree of conditions that ends in behaviours.
#[derive(Debug)]
pub struct Strategy {
    tree: StrategyNode,
}

impl View for Strategy {
    type V = NodeModel;

    closed spec fn view(&self) -> NodeModel {
        self.tree@
    }
}

impl Strategy {
    /// The strategy that tries `branches` in their order.
    pub fn new(branches: Vec<Branch>) -> (s: Strategy)
        ensures
            s@ == NodeModel::Branch(branch_models(branches@)),
    {
        let s = Strategy { tree: StrategyNode::Branch(branches) };
        proof {
            lemma_node_model(s.tree);
        }
        s
    }

    /// The behaviour to take up in the world of `analyzer`.
    pub fn next_behavior(&mut self, analyzer: &Analyzer) -> (pick: Option<PrioritizedBehavior>)
        ensures
            chosen(old(self)@, analyzer@) == (Choice {
                tree: final(self)@,
                pick: picked_model(pick),
            }),
    {
        self.tree.next_behavior(analyzer)
    }
}

/// Whether the behaviour that is under way gives way to `candidate`: it
/// does where the candidate matters more, or where the behaviour under way
/// had nothing left to do.
pub open spec fn gives_way(
    current: Priority,
    command: Option<GameCommand>,
    candidate: Option<PrioritizedModel>,
) -> bool {
    candidate matches Some(c) && (c.priority.rank() > current.rank() || command is None)
}

/// What a tick comes to for a ship that goes by a strategy.
pub struct Decision {
    pub current: PrioritizedModel,
    pub command: Option<GameCommand>,
}

/// What a tick comes to for a ship that is about `current` when the
/// strategy offers `candidate`, in the world `w`. The behaviour under way
/// is asked first. Where it gives way, the candidate takes its place and is
/// asked in the same tick.
pub open spec fn decided(
    current: PrioritizedModel,
    candidate: Option<PrioritizedModel>,
    w: AnalyzerView,
) -> Decision {
    let under_way = step(current.behavior, w);
    if gives_way(current.priority, under_way.command, candidate) {
        let taken = step(candidate.unwrap().behavior, w);
        Decision {
            current: PrioritizedModel { priority: candidate.unwrap().priority, behavior: taken.next },
            command: taken.command,
        }
    } else {
        Decision {
            current: PrioritizedModel { priority: current.priority, behavior: under_way.next },
            command: under_way.command,
        }
    }
}

/// What decides for a ship in each tick.
pub trait Handler {
    /// The command of the tick in which the snapshot `state` reached the
    /// client at the time `now`.
    fn tick(&mut self, state: &ClientState, now: u64) -> Option<GameCommand>;
}

/// A ship that goes by a strategy.
#[derive(Debug)]
pub struct Pilot {
    analyzer: Analyzer,
    strategy: Strategy,
    current: PrioritizedBehavior,
}

/// A ship that goes by a strategy, as contracts speak of it.
pub struct PilotView {
    pub world: AnalyzerView,
    pub strategy: NodeModel,
    pub current: PrioritizedModel,
}

impl View for Pilot {
    type V = PilotView;

    closed spec fn view(&self) -> PilotView {
        PilotView { world: self.analyzer@, strategy: self.strategy@, current: self.current@ }
    }
}

impl PilotView {
    /// The pilot after the tick in which the snapshot of `state` reached it
    /// at the time `now`.
    pub open spec fn ticked(self, state: ClientState, now: u64) -> PilotView {
        let world = self.world.pushed(
            state.id,
            state.game_state.players@,
            state.game_state.bullets@,
            state.game_state.scoreboard@,
            now,
        );
        let choice = chosen(self.strategy, world);
        PilotView {
            world,
            strategy: choice.tree,
            current: decided(self.current, choice.pick, world).current,
        }
    }

    /// The command of the tick in which the snapshot of `state` reached the
    /// pilot at the time `now`.
    pub open spec fn command(self, state: ClientState, now: u64) -> Option<GameCommand> {
        let world = self.world.pushed(
            state.id,
            state.game_state.players@,
            state.game_state.bullets@,
            state.game_state.scoreboard@,
            now,
        );
        decided(self.current, chosen(self.strategy, world).pick, world).command
    }
}

impl Pilot {
    /// A pilot that goes by `strategy` and has seen nothing yet.
    pub fn new(strategy: Strategy) -> (p: Pilot)
        ensures
            p@.world == AnalyzerView::blank(),
            p@.strategy == strategy@,
            p@.current == (PrioritizedModel {
                priority: Priority::Low,
                behavior: BehaviorModel::Noop,
            }),
    {
        Pilot { analyzer: Analyzer::default(), strategy, current: PrioritizedBehavior::new() }
    }

    /// The world as the pilot knows it.
    pub fn analyzer(&self) -> (a: &Analyzer)
        ensures
            a@ == self@.world,
    {
        &self.analyzer
    }

    /// The command of the tick: takes in the snapshot, asks the behaviour
    /// under way, and lets it give way to what the strategy offers where
    /// that matters more or the behaviour under way had nothing left to do.
    pub fn decide(&mut self, state: &ClientState, now: u64) -> (r: Option<GameCommand>)
        ensures
            final(self)@ == old(self)@.ticked(*state, now),
            r == old(self)@.command(*state, now),
    {
        self.analyzer.push_state(state, now);
        let command = self.current.behavior.next_command(&self.analyzer);
        if let Some(candidate) = self.strategy.next_behavior(&self.analyzer) {
            if candidate.priority > self.current.priority || command.is_none() {
                self.current = candidate;
                return self.current.behavior.next_command(&self.analyzer);
            }
        }
        command
    }
}

impl Handler for Pilot {
    /// The command of the tick, as `decide` gives it: the pilot takes the
    /// snapshot in, and the behaviour under way gives way to what the
    /// strategy offers where that matters more or the behaviour under way
    /// had nothing left to do.
    fn tick(&mut self, state: &ClientState, now: u64) -> (r: Option<GameCommand>)
        ensures
            final(self)@ == old(self)@.ticked(*state, now),
            r == old(self)@.command(*state, now),
    {
        self.decide(state, now)
    }
}

} // verus!
