//! What holds of every agent and every mailbox, proved from the transition
//! functions that the executable code is held to.

use crate::agent::{
    ActionModel, AgentModel, CallModel, DeliveryModel, EventModel, Origin, OutcomeModel,
    SELF_SUMMARY_TASK,
};
use crate::mailbox::MailboxModel;
use crate::message::MessageModel;
use vstd::prelude::*;

verus! {

/// On a tick an agent sets itself the self-summary if and only if it runs,
/// has nothing pending and has a history. In particular it never does so
/// while its history is empty. The check itself changes nothing.
pub proof fn lemma_self_check_guard(agent: AgentModel)
    ensures
        agent.step_action(EventModel::Tick) is Invoke <==> agent.status is Running
            && agent.state.task_queue.len() == 0 && agent.state.history.len() > 0,
        agent.step_action(EventModel::Tick) is Invoke ==> agent.step_action(EventModel::Tick)
            == ActionModel::Invoke(
            CallModel { origin: Origin::SelfCheck, task: SELF_SUMMARY_TASK@ },
        ),
        agent.state.history.len() == 0 ==> !(agent.step_action(EventModel::Tick) is Invoke),
        agent.stepped(EventModel::Tick) == agent,
{
}

/// A failure of the task processor leaves no trace: whatever the call was
/// for, the agent is as it was before, its history included, and nothing is
/// sent to any peer.
pub proof fn lemma_failure_leaves_no_trace(agent: AgentModel, call: CallModel, reason: Seq<char>)
    ensures
        agent.concluded(call, Err(reason)) == agent,
        agent.conclusion_deliveries(call, Err(reason)) == Seq::<DeliveryModel>::empty(),
{
}

/// Only a completed task is recorded and broadcast: the outcome of a trigger
/// or of a self-check changes nothing and sends nothing, even on success.
pub proof fn lemma_only_tasks_are_published(agent: AgentModel, call: CallModel, outcome: OutcomeModel)
    requires
        !(call.origin is Task),
    ensures
        agent.concluded(call, outcome) == agent,
        agent.conclusion_deliveries(call, outcome) == Seq::<DeliveryModel>::empty(),
{
}

/// The history only grows: whatever an agent is given, what it has recorded
/// stays where it is.
pub proof fn lemma_history_is_append_only(agent: AgentModel, input: InputModel)
    ensures
        agent.state.history.is_prefix_of(after_input(agent, input).state.history),
        after_input(agent, input).state.task_queue == agent.state.task_queue,
        after_input(agent, input).id == agent.id,
        after_input(agent, input).peers == agent.peers,
{
}

/// Anything that can be handed to an agent: an event of its loop, a message
/// for the general handler, or the outcome of a call of the task processor.
pub enum InputModel {
    Loop(EventModel),
    General(MessageModel),
    Outcome(CallModel, OutcomeModel),
}

/// The agent after it was handed `input`.
pub open spec fn after_input(agent: AgentModel, input: InputModel) -> AgentModel {
    match input {
        InputModel::Loop(event) => agent.stepped(event),
        InputModel::General(message) => agent.handled(message),
        InputModel::Outcome(call, outcome) => agent.concluded(call, outcome),
    }
}

/// The agent after it was handed each of `inputs` in turn.
pub open spec fn after_inputs(agent: AgentModel, inputs: Seq<InputModel>) -> AgentModel
    decreases inputs.len(),
{
    if inputs.len() == 0 {
        agent
    } else {
        after_input(after_inputs(agent, inputs.drop_last()), inputs.last())
    }
}

/// An agent that observes the shutdown signal in its loop is terminated, and
/// nothing else about it changes. Nothing but that signal ends a loop.
pub proof fn lemma_only_shutdown_terminates(agent: AgentModel, input: InputModel)
    requires
        agent.status is Running,
    ensures
        agent.stepped(EventModel::Message(MessageModel::Shutdown)) == agent.terminate(),
        agent.step_action(EventModel::Message(MessageModel::Shutdown)) == ActionModel::Halt,
        after_input(agent, input).status is Terminated <==> input == InputModel::Loop(
            EventModel::Message(MessageModel::Shutdown),
        ),
{
}

/// A terminated agent dispatches nothing: whatever it is handed, it stays
/// exactly as it is, asks for nothing and sends nothing.
pub proof fn lemma_terminated_agent_is_inert(agent: AgentModel, input: InputModel)
    requires
        agent.status is Terminated,
    ensures
        after_input(agent, input) == agent,
        input matches InputModel::Loop(event) ==> agent.step_action(event) == ActionModel::Halt,
        input matches InputModel::General(message) ==> agent.handling_action(message)
            == ActionModel::Halt,
        input matches InputModel::Outcome(call, outcome) ==> agent.conclusion_deliveries(
            call,
            outcome,
        ) == Seq::<DeliveryModel>::empty(),
{
}

/// Shutdown is terminal. Once an agent is terminated after the first `k` of
/// its inputs, it is the same terminated agent after any more of them: no
/// later input is dispatched, and the agent is never running again, so it
/// reaches termination once.
pub proof fn lemma_shutdown_is_terminal(agent: AgentModel, inputs: Seq<InputModel>, k: int)
    requires
        0 <= k <= inputs.len(),
        after_inputs(agent, inputs.take(k)).status is Terminated,
    ensures
        after_inputs(agent, inputs) == after_inputs(agent, inputs.take(k)),
    decreases inputs.len() - k,
{
    if k == inputs.len() {
        assert(inputs.take(k) =~= inputs);
    } else {
        let shorter = inputs.drop_last();
        assert(shorter.take(k) =~= inputs.take(k));
        lemma_shutdown_is_terminal(agent, shorter, k);
        lemma_terminated_agent_is_inert(after_inputs(agent, shorter), inputs.last());
    }
}

/// The mailbox after `k` messages were received from it.
pub open spec fn received(mailbox: MailboxModel, k: nat) -> MailboxModel
    decreases k,
{
    if k == 0 {
        mailbox
    } else {
        received(mailbox, (k - 1) as nat).receive()
    }
}

/// Messages offered to an open mailbox with room for all of them join the
/// queue in the order in which they were offered, behind what is queued.
pub proof fn lemma_sends_queue_in_order(mailbox: MailboxModel, messages: Seq<MessageModel>)
    requires
        mailbox.open,
        mailbox.queue.len() + messages.len() <= mailbox.capacity,
    ensures
        mailbox.send_all(messages).queue == mailbox.queue + messages,
        mailbox.send_all(messages).open,
        mailbox.send_all(messages).capacity == mailbox.capacity,
    decreases messages.len(),
{
    if messages.len() > 0 {
        lemma_sends_queue_in_order(mailbox, messages.drop_last());
    }
}

/// Messages leave a mailbox in the order in which they are queued: after `k`
/// receives the first `k` messages are gone and the rest stands as it stood,
/// so the receive after them takes the message at position `k`.
pub proof fn lemma_receives_take_in_order(mailbox: MailboxModel, k: nat)
    requires
        k <= mailbox.queue.len(),
    ensures
        received(mailbox, k).queue == mailbox.queue.skip(k as int),
        received(mailbox, k).open == mailbox.open,
        received(mailbox, k).capacity == mailbox.capacity,
        k < mailbox.queue.len() ==> received(mailbox, k).queue[0] == mailbox.queue[k as int],
    decreases k,
{
    if k > 0 {
        lemma_receives_take_in_order(mailbox, (k - 1) as nat);
    }
}

/// First in, first out. Of two messages that a mailbox accepted, the one
/// accepted first is received first: with `n` messages queued before them
/// and `b` accepted between them, the first is the `n + 1`-th to leave and the
/// second the `n + b + 2`-th, whatever is sent to the mailbox afterwards.
pub proof fn lemma_first_in_first_out(
    mailbox: MailboxModel,
    first: MessageModel,
    between: Seq<MessageModel>,
    second: MessageModel,
    later: Seq<MessageModel>,
)
    requires
        mailbox.open,
        mailbox.queue.len() + between.len() + later.len() + 2 <= mailbox.capacity,
    ensures
        ({
            let n = mailbox.queue.len();
            let after = mailbox.send(first).send_all(between).send(second).send_all(later);
            &&& received(after, n).queue[0] == first
            &&& received(after, n + between.len() + 1).queue[0] == second
            &&& n < n + between.len() + 1
        }),
{
    let n = mailbox.queue.len();
    let one = mailbox.send(first);
    lemma_sends_queue_in_order(one, between);
    let two = one.send_all(between).send(second);
    lemma_sends_queue_in_order(two, later);
    let after = two.send_all(later);
    lemma_receives_take_in_order(after, n);
    lemma_receives_take_in_order(after, n + between.len() + 1);
}

} // verus!
