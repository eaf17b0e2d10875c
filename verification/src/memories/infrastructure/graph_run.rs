//! Making changes to a user's entity graph: all of them, or none.
use super::sqlite_entity_graph::{
    edges_after, entities_after, recorded_entities, recorded_relations, EdgeView, FiledView,
    GraphChange, SqliteEntityGraph,
};
use crate::memories::domain::entity_graph::RelationView;
use crate::memories::domain::memory::EntityView;
use crate::shared::error::{RaError, Result};
use crate::shared::ids::MemoryId;
use crate::shared::time::Timestamp;
use vstd::prelude::*;

verus! {

/// What comes next in making a list of changes.
#[derive(Debug)]
pub enum GraphStep {
    /// Begin a transaction.
    Begin,
    /// Make the change at this place.
    Make(usize),
    /// Commit the transaction.
    Commit,
    /// Undo the transaction.
    RollBack { error: RaError },
    Done(Result<()>),
}

/// The stages of making changes.
pub enum GraphStage {
    Begin,
    Make(nat),
    Commit,
    RollBack,
    Made,
    Failed,
}

impl GraphStep {
    pub open spec fn stage(self) -> GraphStage {
        match self {
            GraphStep::Begin => GraphStage::Begin,
            GraphStep::Make(place) => GraphStage::Make(place as nat),
            GraphStep::Commit => GraphStage::Commit,
            GraphStep::RollBack { .. } => GraphStage::RollBack,
            GraphStep::Done(Ok(_)) => GraphStage::Made,
            GraphStep::Done(Err(_)) => GraphStage::Failed,
        }
    }
}

/// The stage once the first `done` of `total` changes are made.
pub open spec fn change_stage(total: nat, done: nat) -> GraphStage {
    if done < total {
        GraphStage::Make(done)
    } else {
        GraphStage::Commit
    }
}

/// The stage that follows one that went well or did not, with `total` changes.
pub open spec fn next_graph_stage(total: nat, stage: GraphStage, ok: bool) -> GraphStage {
    match stage {
        GraphStage::Begin => if ok {
            change_stage(total, 0)
        } else {
            GraphStage::Failed
        },
        GraphStage::Make(place) => if ok {
            change_stage(total, place + 1)
        } else {
            GraphStage::RollBack
        },
        GraphStage::Commit => if ok {
            GraphStage::Made
        } else {
            GraphStage::RollBack
        },
        GraphStage::RollBack => GraphStage::Failed,
        GraphStage::Made => GraphStage::Made,
        GraphStage::Failed => GraphStage::Failed,
    }
}

impl SqliteEntityGraph {
    /// Nothing is changed outside the transaction that comes first.
    pub fn begin(&self) -> (step: GraphStep)
        ensures
            step is Begin,
    {
        GraphStep::Begin
    }

    /// The changes are made in order.
    pub fn begun(&self, changes: &Vec<GraphChange>, reply: Result<()>) -> (step: GraphStep)
        ensures
            step.stage() == next_graph_stage(changes@.len(), GraphStage::Begin, reply is Ok),
            reply matches Err(error) ==> step == GraphStep::Done(Err(error)),
    {
        match reply {
            Ok(_) => self.next_change(changes, 0),
            Err(error) => GraphStep::Done(Err(error)),
        }
    }

    fn next_change(&self, changes: &Vec<GraphChange>, done: usize) -> (step: GraphStep)
        ensures
            step.stage() == change_stage(changes@.len(), done as nat),
    {
        if done < changes.len() {
            GraphStep::Make(done)
        } else {
            GraphStep::Commit
        }
    }

    /// One change made, the next follows; one that fails undoes them all.
    pub fn made(&self, changes: &Vec<GraphChange>, place: usize, reply: Result<()>) -> (step:
        GraphStep)
        requires
            place < changes@.len(),
        ensures
            step.stage() == next_graph_stage(
                changes@.len(),
                GraphStage::Make(place as nat),
                reply is Ok,
            ),
            reply matches Err(error) ==> step == (GraphStep::RollBack { error }),
    {
        let total: usize = changes.len();
        assert(place < total);
        match reply {
            Ok(_) => self.next_change(changes, place + 1),
            Err(error) => GraphStep::RollBack { error },
        }
    }

    pub fn committed(&self, reply: Result<()>) -> (step: GraphStep)
        ensures
            forall|total: nat|
                step.stage() == #[trigger] next_graph_stage(total, GraphStage::Commit, reply is Ok),
            match reply {
                Ok(_) => step == GraphStep::Done(Ok(())),
                Err(error) => step == (GraphStep::RollBack { error }),
            },
    {
        match reply {
            Ok(_) => GraphStep::Done(Ok(())),
            Err(error) => GraphStep::RollBack { error },
        }
    }

    /// What failed is told, once everything is undone.
    pub fn rolled_back(&self, error: RaError) -> (step: GraphStep)
        ensures
            forall|total: nat, ok: bool|
                step.stage() == #[trigger] next_graph_stage(total, GraphStage::RollBack, ok),
            step == GraphStep::Done(Err(error)),
    {
        GraphStep::Done(Err(error))
    }
}

/// A user's graph.
pub struct GraphView {
    pub entities: Seq<FiledView>,
    pub edges: Seq<EdgeView>,
}

/// Changes under way: the graph as it is committed, and as the transaction sees
/// it.
pub struct GraphRunView {
    pub stage: GraphStage,
    pub kept: GraphView,
    pub open: GraphView,
}

/// A graph after changes.
pub open spec fn graph_after(graph: GraphView, changes: Seq<GraphChange>) -> GraphView {
    GraphView {
        entities: entities_after(graph.entities, changes),
        edges: edges_after(graph.edges, changes),
    }
}

/// Changes under way, one step on.
pub open spec fn graph_advanced(
    changes: Seq<GraphChange>,
    run: GraphRunView,
    ok: bool,
) -> GraphRunView {
    let after = GraphRunView { stage: next_graph_stage(changes.len(), run.stage, ok), ..run };
    match run.stage {
        GraphStage::RollBack => GraphRunView { open: run.kept, ..after },
        GraphStage::Begin => if ok {
            GraphRunView { open: run.kept, ..after }
        } else {
            after
        },
        GraphStage::Make(place) => if ok {
            GraphRunView { open: graph_after(run.open, seq![changes[place as int]]), ..after }
        } else {
            after
        },
        GraphStage::Commit => if ok {
            GraphRunView { kept: run.open, ..after }
        } else {
            after
        },
        _ => after,
    }
}

/// Changes to a graph, after these replies: whether each step went well.
pub open spec fn graph_after_replies(
    changes: Seq<GraphChange>,
    graph: GraphView,
    replies: Seq<bool>,
) -> GraphRunView
    decreases replies.len(),
{
    if replies.len() == 0 {
        GraphRunView { stage: GraphStage::Begin, kept: graph, open: graph }
    } else {
        graph_advanced(
            changes,
            graph_after_replies(changes, graph, replies.drop_last()),
            replies.last(),
        )
    }
}

/// Making one change more.
proof fn lemma_one_more_change(graph: GraphView, changes: Seq<GraphChange>, n: int)
    requires
        0 <= n < changes.len(),
    ensures
        graph_after(graph_after(graph, changes.take(n)), seq![changes[n]]) == graph_after(
            graph,
            changes.take(n + 1),
        ),
{
    let one = seq![changes[n]];
    assert(one.drop_last() =~= Seq::empty());
    assert(one.last() == changes[n]);
    assert(changes.take(n + 1).drop_last() =~= changes.take(n));
    assert(changes.take(n + 1).last() == changes[n]);
    let before = graph_after(graph, changes.take(n));
    assert(entities_after(before.entities, one.drop_last()) == before.entities);
    assert(edges_after(before.edges, one.drop_last()) == before.edges);
}

/// What holds at every stage.
spec fn graph_holds(changes: Seq<GraphChange>, graph: GraphView, run: GraphRunView) -> bool {
    &&& run.stage !is Made ==> run.kept == graph
    &&& match run.stage {
        GraphStage::Make(place) => place < changes.len() && run.open == graph_after(
            graph,
            changes.take(place as int),
        ),
        GraphStage::Commit => run.open == graph_after(graph, changes),
        GraphStage::Made => run.kept == graph_after(graph, changes),
        _ => true,
    }
}

proof fn lemma_graph_holds(changes: Seq<GraphChange>, graph: GraphView, replies: Seq<bool>)
    ensures
        graph_holds(changes, graph, graph_after_replies(changes, graph, replies)),
    decreases replies.len(),
{
    if replies.len() > 0 {
        lemma_graph_holds(changes, graph, replies.drop_last());
        let run = graph_after_replies(changes, graph, replies.drop_last());
        assert(changes.take(0) =~= Seq::empty());
        assert(changes.take(changes.len() as int) =~= changes);
        match run.stage {
            GraphStage::Make(place) => {
                lemma_one_more_change(graph, changes, place as int);
            },
            _ => {},
        }
    }
}

/// Whatever fails, and wherever: until the changes are committed, the graph is
/// as it was. Once they are, all of them are made.
pub proof fn changes_are_all_or_nothing(
    changes: Seq<GraphChange>,
    graph: GraphView,
    replies: Seq<bool>,
)
    ensures
        ({
            let run = graph_after_replies(changes, graph, replies);
            &&& run.stage !is Made ==> run.kept == graph
            &&& run.stage is Made ==> run.kept == graph_after(graph, changes)
        }),
{
    lemma_graph_holds(changes, graph, replies);
}

/// Recording a memory replaces its entities and its open edges together, or
/// changes no row.
pub proof fn recording_is_all_or_nothing(
    changes: Seq<GraphChange>,
    graph: GraphView,
    replies: Seq<bool>,
    id: MemoryId,
    entities: Seq<EntityView>,
    relations: Seq<RelationView>,
    valid_from: Timestamp,
)
    requires
        forall|rows: Seq<FiledView>| #[trigger]
            entities_after(rows, changes) == recorded_entities(rows, id, entities),
        forall|edges: Seq<EdgeView>| #[trigger]
            edges_after(edges, changes) == recorded_relations(edges, id, relations, valid_from),
    ensures
        ({
            let run = graph_after_replies(changes, graph, replies);
            &&& run.stage !is Made ==> run.kept == graph
            &&& run.stage is Made ==> run.kept.entities == recorded_entities(
                graph.entities,
                id,
                entities,
            ) && run.kept.edges == recorded_relations(graph.edges, id, relations, valid_from)
        }),
{
    changes_are_all_or_nothing(changes, graph, replies);
}

/// How a run of changes came where it is: by steps that went well, one for
/// each change and one more on either side.
proof fn lemma_steps(changes: Seq<GraphChange>, graph: GraphView, replies: Seq<bool>)
    ensures
        ({
            let n = changes.len();
            let stage = graph_after_replies(changes, graph, replies).stage;
            let well = forall|i: int| 0 <= i < replies.len() ==> #[trigger] replies[i];
            &&& match stage {
                GraphStage::Begin => replies.len() == 0,
                GraphStage::Make(place) => well && replies.len() == place + 1 && place < n,
                GraphStage::Commit => well && replies.len() == n + 1,
                GraphStage::Made => replies.len() >= n + 2 && forall|i: int|
                    0 <= i < n + 2 ==> #[trigger] replies[i],
                _ => exists|i: int|
                    0 <= i < n + 2 && i < replies.len() && !#[trigger] replies[i],
            }
        }),
    decreases replies.len(),
{
    if replies.len() > 0 {
        let n = changes.len();
        let shorter = replies.drop_last();
        let last = replies.len() - 1;
        lemma_steps(changes, graph, shorter);
        assert forall|i: int| 0 <= i < last implies #[trigger] replies[i] == shorter[i] by {}
        let before = graph_after_replies(changes, graph, shorter).stage;
        assert(replies[last] == replies.last());
        if before is RollBack || before is Failed {
            let i = choose|i: int| 0 <= i < n + 2 && i < shorter.len() && !#[trigger] shorter[i];
            assert(!replies[i]);
        }
    }
}

/// Changes are made where every step goes well, and only there: what fails on
/// the way leaves them unmade.
pub proof fn changes_are_made_where_all_goes_well(
    changes: Seq<GraphChange>,
    graph: GraphView,
    replies: Seq<bool>,
)
    requires
        replies.len() >= changes.len() + 2,
    ensures
        graph_after_replies(changes, graph, replies).stage is Made <==> forall|i: int|
            0 <= i < changes.len() + 2 ==> #[trigger] replies[i],
        graph_after_replies(changes, graph, replies).stage is Made
            || graph_after_replies(changes, graph, replies).stage is Failed
            || graph_after_replies(changes, graph, replies).stage is RollBack,
{
    lemma_steps(changes, graph, replies);
}

} // verus!
