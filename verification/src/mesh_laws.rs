//! What holds of every mesh, proved from the transition functions that the
//! executable mesh is held to.

use crate::agent::{
    response_record, task_record, CallModel, DeliveryModel, EventModel, Origin, OutcomeModel,
};
use crate::mesh::{
    distinct, lemma_flush_touches_only_mail, mail_for, others, MeshModel, NodeModel, Progress,
};
use crate::message::MessageModel;
use vstd::prelude::*;

verus! {

/// A mesh spawned over distinct identities is valid, and its agents bear
/// those identities in the order given.
pub proof fn lemma_spawned_is_valid(ids: Seq<Seq<char>>)
    requires
        distinct(ids),
        ids.len() <= usize::MAX,
    ensures
        MeshModel::spawned(ids).valid(),
        MeshModel::spawned(ids).ids() == ids,
{
}

/// No transition leads out of the valid meshes.
pub proof fn lemma_valid_is_kept(
    mesh: MeshModel,
    i: int,
    message: MessageModel,
    outcome: OutcomeModel,
)
    requires
        mesh.valid(),
    ensures
        mesh.seeded(i, message).valid(),
        mesh.shut_down().valid(),
        mesh.flushed(i).valid(),
        mesh.polled(i).valid(),
        mesh.ticked(i).valid(),
        mesh.completed(i, outcome).valid(),
{
    assert(mesh.seeded(i, message).valid()) by {
        assert(mesh.seeded(i, message).ids() =~= mesh.ids());
    }
    assert(mesh.shut_down().valid()) by {
        assert(mesh.shut_down().ids() =~= mesh.ids());
    }
    assert(mesh.flushed(i).valid()) by {
        lemma_flush_keeps_valid(mesh, i);
    }
    assert(mesh.polled(i).valid()) by {
        lemma_flush_keeps_valid(mesh, i);
        if mesh.has(i) && mesh.nodes[i].ready() && mesh.nodes[i].mailbox.queue.len() > 0 {
            assert(mesh.polled(i).ids() =~= mesh.ids());
        }
    }
    assert(mesh.ticked(i).valid()) by {
        assert(mesh.ticked(i).ids() =~= mesh.ids());
    }
    assert(mesh.completed(i, outcome).valid()) by {
        if mesh.awaits(i) {
            let node = mesh.nodes[i];
            let call = node.call->0;
            let taken = mesh.with_node(
                i,
                NodeModel {
                    agent: node.agent.concluded(call, outcome),
                    mailbox: node.mailbox,
                    call: None,
                    outbox: node.outbox + node.agent.conclusion_deliveries(call, outcome),
                },
            );
            assert(taken.ids() =~= mesh.ids());
            lemma_flush_keeps_valid(taken, i);
        }
    }
}

/// Sending leads from a valid mesh to a valid mesh.
proof fn lemma_flush_keeps_valid(mesh: MeshModel, a: int)
    requires
        mesh.valid(),
    ensures
        mesh.flushed(a).valid(),
{
    lemma_flush_touches_only_mail(mesh, a);
    assert(mesh.flushed(a).ids() =~= mesh.ids());
}

/// Histories only grow, and the mesh keeps its shape. Whatever happens in a
/// mesh, every agent keeps its identity and its links, and what it has
/// recorded stays at the front of its history.
pub proof fn lemma_mesh_histories_only_grow(
    mesh: MeshModel,
    i: int,
    k: int,
    message: MessageModel,
    outcome: OutcomeModel,
)
    requires
        mesh.has(k),
    ensures
        grown(mesh, mesh.seeded(i, message), k),
        grown(mesh, mesh.shut_down(), k),
        grown(mesh, mesh.flushed(i), k),
        grown(mesh, mesh.polled(i), k),
        grown(mesh, mesh.ticked(i), k),
        grown(mesh, mesh.completed(i, outcome), k),
{
    lemma_flush_touches_only_mail(mesh, i);
    if mesh.awaits(i) {
        let node = mesh.nodes[i];
        let taken = mesh.with_node(
            i,
            NodeModel {
                agent: node.agent.concluded(node.call->0, outcome),
                mailbox: node.mailbox,
                call: None,
                outbox: node.outbox + node.agent.conclusion_deliveries(node.call->0, outcome),
            },
        );
        lemma_flush_touches_only_mail(taken, i);
    }
}

/// Agent `k` of `after` is agent `k` of `before` with, at most, more history.
pub open spec fn grown(before: MeshModel, after: MeshModel, k: int) -> bool {
    &&& after.nodes.len() == before.nodes.len()
    &&& after.nodes[k].agent.id == before.nodes[k].agent.id
    &&& after.nodes[k].agent.peers == before.nodes[k].agent.peers
    &&& after.nodes[k].agent.state.task_queue == before.nodes[k].agent.state.task_queue
    &&& before.nodes[k].agent.state.history.is_prefix_of(after.nodes[k].agent.state.history)
    &&& after.nodes[k].mailbox.capacity == before.nodes[k].mailbox.capacity
}

/// A turn dispatches the head of the mailbox and nothing but the head. An
/// agent at the top of its loop with mail takes the oldest message, steps on
/// it, and leaves every younger message queued in the order it had; no other
/// agent is touched.
pub proof fn lemma_turn_dispatches_the_head(mesh: MeshModel, j: int)
    requires
        mesh.has(j),
        mesh.nodes[j].ready(),
        mesh.nodes[j].mailbox.queue.len() > 0,
    ensures
        ({
            let head = EventModel::Message(mesh.nodes[j].mailbox.queue[0]);
            let after = mesh.polled(j);
            &&& after.nodes.len() == mesh.nodes.len()
            &&& after.nodes[j].agent == mesh.nodes[j].agent.stepped(head)
            &&& after.nodes[j].mailbox.queue == mesh.nodes[j].mailbox.queue.drop_first()
            &&& forall|k: int|
                1 <= k < mesh.nodes[j].mailbox.queue.len() ==> after.nodes[j].mailbox.queue[k - 1]
                    == mesh.nodes[j].mailbox.queue[k]
            &&& forall|i: int|
                0 <= i < mesh.nodes.len() && i != j ==> (#[trigger] after.nodes[i])
                    == mesh.nodes[i]
        }),
{
}

/// A terminated agent's turns are empty. Given a turn on its mailbox, on its
/// timer or on an outcome, the mesh stays exactly as it is: what is queued in
/// the agent's mailbox stays queued, undispatched.
pub proof fn lemma_terminated_node_is_inert(mesh: MeshModel, i: int, outcome: OutcomeModel)
    requires
        mesh.valid(),
        mesh.has(i),
        mesh.nodes[i].agent.status is Terminated,
    ensures
        mesh.polled(i) == mesh,
        mesh.poll_progress(i) == Progress::Terminated,
        mesh.ticked(i) == mesh,
        !mesh.tick_issues(i),
        mesh.completed(i, outcome) == mesh,
{
}

/// An agent that finds the shutdown signal at the head of its mailbox ends
/// its loop at once: it is terminated, its memory is as it was, it stops
/// reading its mailbox, and what was queued behind the signal stays there.
/// No other agent is touched.
pub proof fn lemma_shutdown_ends_the_loop(mesh: MeshModel, i: int)
    requires
        mesh.has(i),
        mesh.nodes[i].ready(),
        mesh.nodes[i].mailbox.queue.len() > 0,
        mesh.nodes[i].mailbox.queue[0] == MessageModel::Shutdown,
    ensures
        mesh.poll_progress(i) == Progress::Halted,
        mesh.polled(i).nodes[i].agent == mesh.nodes[i].agent.terminate(),
        mesh.polled(i).nodes[i].mailbox.queue == mesh.nodes[i].mailbox.queue.drop_first(),
        !mesh.polled(i).nodes[i].mailbox.open,
        mesh.polled(i) == mesh.with_node(i, mesh.polled(i).nodes[i]),
{
}

/// An agent that waits for the task processor dispatches nothing, not even
/// the shutdown signal: a turn on its mailbox or on its timer leaves the
/// whole mesh as it is.
pub proof fn lemma_no_dispatch_during_a_call(mesh: MeshModel, i: int)
    requires
        mesh.awaits(i),
    ensures
        mesh.polled(i) == mesh,
        mesh.ticked(i) == mesh,
        mesh.nodes[i].agent.status is Running ==> mesh.poll_progress(i)
            == Progress::AwaitingOutcome,
{
}

/// A failure of the task processor leaves no trace in the mesh: the agent
/// that made the call is back at the top of its loop with its memory as it
/// was, and no mailbox and no other agent has changed.
pub proof fn lemma_failed_call_changes_no_one(mesh: MeshModel, i: int, reason: Seq<char>)
    requires
        mesh.valid(),
        mesh.awaits(i),
    ensures
        mesh.completed(i, Err(reason)) == mesh.with_node(
            i,
            NodeModel { call: None, ..mesh.nodes[i] },
        ),
        mesh.completed(i, Err(reason)).nodes[i].ready(),
{
}

/// An agent that finds a response at the head of its mailbox records it,
/// attributed to the agent that sent it, and passes nothing on: it asks for
/// no call, has nothing to send, and no other agent is touched.
pub proof fn lemma_response_is_recorded_and_goes_no_further(
    mesh: MeshModel,
    j: int,
    from: Seq<char>,
    text: Seq<char>,
)
    requires
        mesh.has(j),
        mesh.nodes[j].ready(),
        mesh.nodes[j].mailbox.queue.len() > 0,
        mesh.nodes[j].mailbox.queue[0] == MessageModel::Response(from, text),
    ensures
        mesh.poll_progress(j) == Progress::Advanced,
        mesh.polled(j) == mesh.with_node(
            j,
            NodeModel {
                agent: mesh.nodes[j].agent.record(response_record(from, text)),
                mailbox: mesh.nodes[j].mailbox.receive(),
                ..mesh.nodes[j]
            },
        ),
        mesh.polled(j).nodes[j].ready(),
{
}

/// An agent that finds a trigger at the head of its mailbox asks for the
/// task processor with the trigger's text; whatever the outcome, nothing is
/// recorded and nothing is sent.
pub proof fn lemma_trigger_leaves_no_trace(
    mesh: MeshModel,
    j: int,
    text: Seq<char>,
    outcome: OutcomeModel,
)
    requires
        mesh.valid(),
        mesh.has(j),
        mesh.nodes[j].ready(),
        mesh.nodes[j].mailbox.queue.len() > 0,
        mesh.nodes[j].mailbox.queue[0] == MessageModel::Trigger(text),
    ensures
        mesh.poll_progress(j) == Progress::Invoked,
        mesh.polled(j).nodes[j].call == Some(CallModel { origin: Origin::Trigger, task: text }),
        mesh.polled(j).completed(j, outcome) == mesh.with_mailbox(
            j,
            mesh.nodes[j].mailbox.receive(),
        ),
{
}

/// Every delivery of `outbox` goes to an agent of the mesh other than `a`,
/// no two go to the same agent, and none would be held up by a full mailbox.
pub open spec fn deliverable(mesh: MeshModel, a: int, outbox: Seq<DeliveryModel>) -> bool {
    &&& forall|k: int|
        0 <= k < outbox.len() ==> {
            let t = (#[trigger] outbox[k]).link.target as int;
            &&& mesh.has(t)
            &&& t != a
            &&& mesh.nodes[t].mailbox.open ==> mesh.nodes[t].mailbox.has_room()
        }
    &&& forall|k: int, l: int|
        0 <= k < l < outbox.len() ==> outbox[k].link.target != outbox[l].link.target
}

/// An agent whose deliveries go to different agents, none of them held up,
/// sends them all: its outbox is empty afterwards, each addressee's mailbox
/// was offered its message, and nothing else has changed.
pub proof fn lemma_flush_delivers(mesh: MeshModel, a: int)
    requires
        mesh.has(a),
        deliverable(mesh, a, mesh.nodes[a].outbox),
    ensures
        mesh.flushed(a).nodes.len() == mesh.nodes.len(),
        mesh.flushed(a).nodes[a] == (NodeModel { outbox: Seq::empty(), ..mesh.nodes[a] }),
        forall|k: int|
            0 <= k < mesh.nodes[a].outbox.len() ==> mesh.flushed(a).nodes[(
            #[trigger] mesh.nodes[a].outbox[k]).link.target as int] == (NodeModel {
                mailbox: mesh.nodes[mesh.nodes[a].outbox[k].link.target as int].mailbox.send(
                    mesh.nodes[a].outbox[k].message,
                ),
                ..mesh.nodes[mesh.nodes[a].outbox[k].link.target as int]
            }),
        forall|j: int|
            mesh.has(j) && j != a && (forall|k: int|
                0 <= k < mesh.nodes[a].outbox.len() ==> (
                #[trigger] mesh.nodes[a].outbox[k]).link.target != j) ==> (
            #[trigger] mesh.flushed(a).nodes[j]) == mesh.nodes[j],
    decreases mesh.nodes[a].outbox.len(),
{
    let outbox = mesh.nodes[a].outbox;
    if outbox.len() > 0 {
        let front = outbox[0];
        let rest = outbox.drop_first();
        let t = front.link.target as int;
        let next = if mesh.nodes[t].mailbox.open {
            mesh.with_outbox(a, rest).with_mailbox(t, mesh.nodes[t].mailbox.send(front.message))
        } else {
            mesh.with_outbox(a, rest)
        };
        lemma_flush_delivers(next, a);
        let after = next.flushed(a);
        assert forall|k: int| 0 <= k < outbox.len() implies after.nodes[(
        #[trigger] outbox[k]).link.target as int] == (NodeModel {
            mailbox: mesh.nodes[outbox[k].link.target as int].mailbox.send(outbox[k].message),
            ..mesh.nodes[outbox[k].link.target as int]
        }) by {
            if k > 0 {
                assert(rest[k - 1] == outbox[k]);
            }
        }
    }
}

/// No other agent's mailbox is open and full: what agent `a` broadcasts is
/// taken at once by every peer that still reads.
pub open spec fn peers_take_mail(mesh: MeshModel, a: int) -> bool {
    forall|j: int|
        0 <= j < mesh.nodes.len() && j != a && (#[trigger] mesh.nodes[j]).mailbox.open
            ==> mesh.nodes[j].mailbox.has_room()
}

/// A completed task reaches every peer and never its author. When an agent
/// of a complete mesh learns that its task succeeded, it records the task
/// with its result, and a response that names it and carries the result is
/// offered to the mailbox of every other agent: it stands at the tail of
/// each mailbox that is still read. The author's own mailbox gains nothing,
/// so no response to itself can ever enter its history from this broadcast.
/// No other agent's memory changes until it takes its turn.
pub proof fn lemma_completed_task_reaches_every_peer(mesh: MeshModel, a: int, result: Seq<char>)
    requires
        mesh.valid(),
        mesh.nodes.len() >= 2,
        mesh.awaits(a),
        mesh.nodes[a].call->0.origin is Task,
        peers_take_mail(mesh, a),
    ensures
        ({
            let after = mesh.completed(a, Ok(result));
            let author = mesh.nodes[a].agent;
            let news = MessageModel::Response(author.id, result);
            &&& after.nodes.len() == mesh.nodes.len()
            &&& after.nodes[a] == (NodeModel {
                agent: author.record(task_record(mesh.nodes[a].call->0.task, result)),
                call: None,
                ..mesh.nodes[a]
            })
            &&& after.nodes[a].ready()
            &&& forall|j: int|
                0 <= j < mesh.nodes.len() && j != a ==> (#[trigger] after.nodes[j]) == (NodeModel {
                    mailbox: mesh.nodes[j].mailbox.send(news),
                    ..mesh.nodes[j]
                })
            &&& forall|j: int|
                0 <= j < mesh.nodes.len() && j != a && mesh.nodes[j].mailbox.open ==> (
                #[trigger] after.nodes[j]).mailbox.queue == mesh.nodes[j].mailbox.queue.push(news)
        }),
{
    let n = mesh.nodes.len();
    let node = mesh.nodes[a];
    let call = node.call->0;
    let author = node.agent;
    let news = MessageModel::Response(author.id, result);
    let outcome: OutcomeModel = Ok(result);
    let deliveries = author.conclusion_deliveries(call, outcome);
    let taken = mesh.with_node(
        a,
        NodeModel {
            agent: author.concluded(call, outcome),
            mailbox: node.mailbox,
            call: None,
            outbox: node.outbox + deliveries,
        },
    );
    lemma_flush_delivers(taken, a);
    let after = taken.flushed(a);
    assert forall|j: int| 0 <= j < n && j != a implies (#[trigger] after.nodes[j]) == (NodeModel {
        mailbox: mesh.nodes[j].mailbox.send(news),
        ..mesh.nodes[j]
    }) by {
        let k = if j < a {
            j
        } else {
            j - 1
        };
        assert(taken.nodes[a].outbox[k] == deliveries[k]);
    }
}

/// From a task's success to its peers' histories. In a valid mesh of two or
/// more agents, let agent `a` learn that its task succeeded with `result`,
/// and let any other agent `j` that is at the top of its loop with an empty
/// mailbox take its next turn. Then the history of `j` has gained exactly one
/// entry: the response attributed to `a`, with the result. The history of `a`
/// has gained the record of the task and no response.
pub proof fn lemma_broadcast_is_heard(mesh: MeshModel, a: int, j: int, result: Seq<char>)
    requires
        mesh.valid(),
        mesh.nodes.len() >= 2,
        mesh.awaits(a),
        mesh.nodes[a].call->0.origin is Task,
        peers_take_mail(mesh, a),
        mesh.has(j),
        j != a,
        mesh.nodes[j].ready(),
        mesh.nodes[j].mailbox.queue.len() == 0,
    ensures
        ({
            let heard = mesh.completed(a, Ok(result)).polled(j);
            let author = mesh.nodes[a].agent;
            &&& heard.nodes[j].agent.state.history == mesh.nodes[j].agent.state.history.push(
                response_record(author.id, result),
            )
            &&& heard.nodes[a].agent.state.history == author.state.history.push(
                task_record(mesh.nodes[a].call->0.task, result),
            )
            &&& heard.nodes[a].mailbox == mesh.nodes[a].mailbox
            &&& heard.nodes[j].ready()
            &&& heard.nodes[j].mailbox.queue.len() == 0
        }),
{
    let author = mesh.nodes[a].agent;
    let after = mesh.completed(a, Ok(result));
    lemma_completed_task_reaches_every_peer(mesh, a, result);
    lemma_response_is_recorded_and_goes_no_further(after, j, author.id, result);
}

/// What one agent sends to another arrives in the order in which it was
/// sent. When agent `a` sends as much of its outbox as it can, it sends a
/// front part of it, in order; every mailbox that is read keeps what it held
/// and gains, behind it and in the order of the outbox, the messages of that
/// front part that were addressed to it. A mailbox that is no longer read
/// gains nothing.
pub proof fn lemma_mail_arrives_in_order(mesh: MeshModel, a: int, j: int)
    requires
        mesh.has(a),
        mesh.has(j),
    ensures
        ({
            let sent = mesh.sent_count(a);
            let after = mesh.flushed(a);
            &&& sent <= mesh.nodes[a].outbox.len()
            &&& after.nodes.len() == mesh.nodes.len()
            &&& after.nodes[a].outbox == mesh.nodes[a].outbox.skip(sent as int)
            &&& after.nodes[j].mailbox.queue == if mesh.nodes[j].mailbox.open {
                mesh.nodes[j].mailbox.queue + mail_for(mesh.nodes[a].outbox.take(sent as int), j)
            } else {
                mesh.nodes[j].mailbox.queue
            }
        }),
    decreases mesh.nodes[a].outbox.len(),
{
    let outbox = mesh.nodes[a].outbox;
    if outbox.len() > 0 {
        let front = outbox[0];
        let rest = outbox.drop_first();
        let t = front.link.target as int;
        let read = mesh.has(t) && mesh.nodes[t].mailbox.open;
        if !read || mesh.nodes[t].mailbox.has_room() {
            let next = if read {
                mesh.with_outbox(a, rest).with_mailbox(
                    t,
                    mesh.nodes[t].mailbox.send(front.message),
                )
            } else {
                mesh.with_outbox(a, rest)
            };
            lemma_mail_arrives_in_order(next, a, j);
            assert(outbox.take(mesh.sent_count(a) as int).drop_first() =~= rest.take(
                next.sent_count(a) as int,
            ));
        }
    }
}

/// `after` is `before` with messages added at the tail and at most one taken
/// from the head: what was queued is still queued in the same order, except
/// perhaps for the message that stood first.
pub open spec fn moved_on(before: Seq<MessageModel>, after: Seq<MessageModel>) -> bool {
    before.is_prefix_of(after) || (before.len() > 0 && before.drop_first().is_prefix_of(after))
}

/// Mailboxes change only at their ends. Whatever happens in a mesh, a mailbox
/// keeps what it holds in the order in which it holds it: messages join at
/// the tail, and only a turn of the mailbox's own agent takes one away, which
/// is the one at the head.
pub proof fn lemma_mailboxes_change_only_at_their_ends(
    mesh: MeshModel,
    i: int,
    j: int,
    message: MessageModel,
    outcome: OutcomeModel,
)
    requires
        mesh.has(j),
    ensures
        mesh.nodes[j].mailbox.queue.is_prefix_of(mesh.seeded(i, message).nodes[j].mailbox.queue),
        mesh.nodes[j].mailbox.queue.is_prefix_of(mesh.shut_down().nodes[j].mailbox.queue),
        mesh.nodes[j].mailbox.queue.is_prefix_of(mesh.flushed(i).nodes[j].mailbox.queue),
        mesh.nodes[j].mailbox.queue.is_prefix_of(mesh.ticked(i).nodes[j].mailbox.queue),
        mesh.nodes[j].mailbox.queue.is_prefix_of(
            mesh.completed(i, outcome).nodes[j].mailbox.queue,
        ),
        moved_on(mesh.nodes[j].mailbox.queue, mesh.polled(i).nodes[j].mailbox.queue),
        i != j ==> mesh.nodes[j].mailbox.queue.is_prefix_of(mesh.polled(i).nodes[j].mailbox.queue),
{
    if mesh.has(i) {
        lemma_mail_arrives_in_order(mesh, i, j);
        if mesh.awaits(i) {
            let node = mesh.nodes[i];
            let taken = mesh.with_node(
                i,
                NodeModel {
                    agent: node.agent.concluded(node.call->0, outcome),
                    mailbox: node.mailbox,
                    call: None,
                    outbox: node.outbox + node.agent.conclusion_deliveries(node.call->0, outcome),
                },
            );
            lemma_mail_arrives_in_order(taken, i, j);
        }
    }
}

} // verus!
