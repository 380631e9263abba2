//! One autonomous agent: its memory, its peers, and every decision it takes.
//!
//! An agent never waits here. Each function takes what has happened (a message
//! arrived, the timer fired, the task processor answered) and says what the
//! agent becomes and what has to be done next. Whoever drives the agent does
//! the waiting: it reads the mailbox, calls the task processor, sends the
//! deliveries.

use crate::message::{AgentMessage, MessageModel};
use vstd::prelude::*;
use vstd::string::*;

verus! {

/// Seconds between two ticks of an agent's timer.
pub const TICK_INTERVAL_SECS: u64 = 10;

/// The task an agent sets itself on a tick when it has something to look back on.
pub const SELF_SUMMARY_TASK: &'static str =
    "Summarize what you've accomplished so far in one sentence.";

/// The history entry for a task that was completed with `result`.
pub open spec fn task_record(task: Seq<char>, result: Seq<char>) -> Seq<char> {
    "Task: "@ + task + " | Result: "@ + result
}

/// The history entry for a result that the agent `from` has broadcast.
pub open spec fn response_record(from: Seq<char>, text: Seq<char>) -> Seq<char> {
    "From "@ + from + ": "@ + text
}

/// The standing instruction that the task processor is given for the agent `id`.
pub open spec fn preamble_for(id: Seq<char>) -> Seq<char> {
    "Your name is "@ + id + ". Process tasks autonomously and coordinate with other agents."@
}

/// Whether an agent's loop still runs.
#[derive(Debug, Clone, Copy, PartialEq, Eq, Structural)]
pub enum Status {
    Running,
    Terminated,
}

/// What made an agent call the task processor.
#[derive(Debug, Clone, Copy, PartialEq, Eq, Structural)]
pub enum Origin {
    /// A `Task` message: the result is recorded and broadcast.
    Task,
    /// A `Trigger` message: the result is neither recorded nor broadcast.
    Trigger,
    /// The periodic self-check: the result is neither recorded nor broadcast.
    SelfCheck,
}

/// A write-only handle to the mailbox of the agent with index `target`.
#[derive(Debug, Clone, Copy, PartialEq, Eq, Structural)]
pub struct PeerLink {
    pub target: usize,
}

/// The task processor could not produce a result.
#[derive(Debug, PartialEq, Eq)]
pub struct ProcessorFailure {
    pub reason: String,
}

/// What the task processor answered: the result text, or why there is none.
pub type OutcomeModel = Result<Seq<char>, Seq<char>>;

pub open spec fn outcome_model(outcome: Result<String, ProcessorFailure>) -> OutcomeModel {
    match outcome {
        Ok(text) => Ok(text@),
        Err(failure) => Err(failure.reason@),
    }
}

/// A call of the task processor that an agent has asked for.
pub struct CallModel {
    pub origin: Origin,
    pub task: Seq<char>,
}

/// A call of the task processor that an agent has asked for and whose outcome
/// it has yet to learn. The processor is to be invoked with the agent's
/// identity and `task`.
#[derive(Debug, PartialEq, Eq)]
pub struct ProcessorCall {
    origin: Origin,
    task: String,
}

impl View for ProcessorCall {
    type V = CallModel;

    closed spec fn view(&self) -> CallModel {
        CallModel { origin: self.origin, task: self.task@ }
    }
}

impl ProcessorCall {
    pub fn origin(&self) -> (origin: Origin)
        ensures
            origin == self@.origin,
    {
        self.origin
    }

    pub fn task(&self) -> (task: &String)
        ensures
            task@ == self@.task,
    {
        &self.task
    }
}

/// One message on its way to one peer.
pub struct DeliveryModel {
    pub link: PeerLink,
    pub message: MessageModel,
}

/// One message to be sent over one peer link.
#[derive(Debug, PartialEq, Eq)]
pub struct Delivery {
    pub link: PeerLink,
    pub message: AgentMessage,
}

impl View for Delivery {
    type V = DeliveryModel;

    open spec fn view(&self) -> DeliveryModel {
        DeliveryModel { link: self.link, message: self.message@ }
    }
}

/// The deliveries of a list, each as its model, in order.
pub open spec fn delivery_models(deliveries: Seq<Delivery>) -> Seq<DeliveryModel> {
    deliveries.map_values(|d: Delivery| d@)
}

/// What the driver of an agent has to do after a step.
pub enum ActionModel {
    Continue,
    Invoke(CallModel),
    Unsupported,
    Halt,
}

/// What the driver of an agent has to do after a step.
#[derive(Debug, PartialEq, Eq)]
pub enum Action {
    /// Nothing: wait for the next event.
    Continue,
    /// Call the task processor and pass its outcome to `conclude`.
    Invoke(ProcessorCall),
    /// The message is of a kind the handler does not expect. Nothing changed;
    /// a warning is in order.
    Unsupported,
    /// The agent's loop has ended. No further event is dispatched.
    Halt,
}

impl View for Action {
    type V = ActionModel;

    open spec fn view(&self) -> ActionModel {
        match self {
            Action::Continue => ActionModel::Continue,
            Action::Invoke(call) => ActionModel::Invoke(call@),
            Action::Unsupported => ActionModel::Unsupported,
            Action::Halt => ActionModel::Halt,
        }
    }
}

/// One of the two things an agent's loop waits for.
pub enum EventModel {
    Message(MessageModel),
    Tick,
}

/// One of the two things an agent's loop waits for.
#[derive(Debug, PartialEq, Eq)]
pub enum Event {
    /// The next message from the agent's own mailbox.
    Message(AgentMessage),
    /// The periodic timer fired.
    Tick,
}

impl View for Event {
    type V = EventModel;

    open spec fn view(&self) -> EventModel {
        match self {
            Event::Message(message) => EventModel::Message(message@),
            Event::Tick => EventModel::Tick,
        }
    }
}

/// An agent's memory as a mathematical value.
#[verifier::ext_equal]
pub struct StateModel {
    /// Tasks the agent has queued for itself and not yet started.
    pub task_queue: Seq<Seq<char>>,
    /// The append-only log of what the agent has completed and heard.
    pub history: Seq<Seq<char>>,
}

/// An agent as a mathematical value.
#[verifier::ext_equal]
pub struct AgentModel {
    pub id: Seq<char>,
    pub state: StateModel,
    pub peers: Seq<PeerLink>,
    pub status: Status,
}

impl AgentModel {
    /// A new agent: running, with empty memory and no peers.
    pub open spec fn fresh(id: Seq<char>) -> AgentModel {
        AgentModel {
            id,
            state: StateModel { task_queue: Seq::empty(), history: Seq::empty() },
            peers: Seq::empty(),
            status: Status::Running,
        }
    }

    pub open spec fn register_peer(self, link: PeerLink) -> AgentModel {
        AgentModel { peers: self.peers.push(link), ..self }
    }

    /// The agent with `entry` appended to its history.
    pub open spec fn record(self, entry: Seq<char>) -> AgentModel {
        AgentModel {
            state: StateModel { history: self.state.history.push(entry), ..self.state },
            ..self
        }
    }

    pub open spec fn terminate(self) -> AgentModel {
        AgentModel { status: Status::Terminated, ..self }
    }

    /// One copy of `message` for every registered peer, in the order of registration.
    pub open spec fn broadcast(self, message: MessageModel) -> Seq<DeliveryModel> {
        Seq::new(self.peers.len(), |k: int| DeliveryModel { link: self.peers[k], message })
    }

    /// The guard of the periodic self-check: nothing is pending and there is
    /// something to look back on.
    pub open spec fn needs_self_task(self) -> bool {
        self.state.task_queue.len() == 0 && self.state.history.len() > 0
    }

    /// The agent after the general handler has seen `message`. Only a
    /// `Response` leaves a trace.
    pub open spec fn handled(self, message: MessageModel) -> AgentModel {
        match message {
            MessageModel::Response(from, text) if self.status is Running => self.record(
                response_record(from, text),
            ),
            _ => self,
        }
    }

    /// What the general handler asks for on `message`.
    pub open spec fn handling_action(self, message: MessageModel) -> ActionModel {
        if self.status is Terminated {
            ActionModel::Halt
        } else {
            match message {
                MessageModel::Task(text) => ActionModel::Invoke(
                    CallModel { origin: Origin::Task, task: text },
                ),
                MessageModel::Trigger(text) => ActionModel::Invoke(
                    CallModel { origin: Origin::Trigger, task: text },
                ),
                MessageModel::Response(_, _) => ActionModel::Continue,
                MessageModel::Shutdown => ActionModel::Unsupported,
            }
        }
    }

    /// What the periodic self-check asks for.
    pub open spec fn self_check_action(self) -> ActionModel {
        if self.status is Terminated {
            ActionModel::Halt
        } else if self.needs_self_task() {
            ActionModel::Invoke(CallModel { origin: Origin::SelfCheck, task: SELF_SUMMARY_TASK@ })
        } else {
            ActionModel::Continue
        }
    }

    /// The agent after one turn of its loop on `event`.
    pub open spec fn stepped(self, event: EventModel) -> AgentModel {
        match event {
            EventModel::Message(MessageModel::Shutdown) => self.terminate(),
            EventModel::Message(message) => self.handled(message),
            EventModel::Tick => self,
        }
    }

    /// What one turn of the loop on `event` asks for.
    pub open spec fn step_action(self, event: EventModel) -> ActionModel {
        if self.status is Terminated {
            ActionModel::Halt
        } else {
            match event {
                EventModel::Message(MessageModel::Shutdown) => ActionModel::Halt,
                EventModel::Message(message) => self.handling_action(message),
                EventModel::Tick => self.self_check_action(),
            }
        }
    }

    /// Whether the outcome of `call` is recorded and broadcast: only a
    /// running agent does so, only for a task, and only on success.
    pub open spec fn publishes(self, call: CallModel, outcome: OutcomeModel) -> bool {
        self.status is Running && call.origin is Task && outcome is Ok
    }

    /// The agent after it has learnt the outcome of `call`.
    pub open spec fn concluded(self, call: CallModel, outcome: OutcomeModel) -> AgentModel {
        if self.publishes(call, outcome) {
            self.record(task_record(call.task, outcome->Ok_0))
        } else {
            self
        }
    }

    /// What the agent sends once it has learnt the outcome of `call`.
    pub open spec fn conclusion_deliveries(self, call: CallModel, outcome: OutcomeModel) -> Seq<
        DeliveryModel,
    > {
        if self.publishes(call, outcome) {
            self.broadcast(MessageModel::Response(self.id, outcome->Ok_0))
        } else {
            Seq::empty()
        }
    }
}

/// The memory of one agent.
#[derive(Debug)]
pub struct AgentState {
    task_queue: Vec<String>,
    conversation_history: Vec<String>,
}

impl View for AgentState {
    type V = StateModel;

    closed spec fn view(&self) -> StateModel {
        StateModel {
            task_queue: self.task_queue.deep_view(),
            history: self.conversation_history.deep_view(),
        }
    }
}

/// An agent: an identity, a memory, a set of peer links, and whether its loop
/// still runs.
#[derive(Debug)]
pub struct AutonomousAgent {
    id: String,
    state: AgentState,
    peers: Vec<PeerLink>,
    status: Status,
}

impl View for AutonomousAgent {
    type V = AgentModel;

    closed spec fn view(&self) -> AgentModel {
        AgentModel { id: self.id@, state: self.state@, peers: self.peers@, status: self.status }
    }
}

/// The text of the history entry for a completed task.
fn task_record_text(task: &String, result: &String) -> (entry: String)
    ensures
        entry@ == task_record(task@, result@),
{
    let mut entry = String::from_str("Task: ");
    entry.append(task.as_str());
    entry.append(" | Result: ");
    entry.append(result.as_str());
    entry
}

/// The text of the history entry for a response heard from a peer.
fn response_record_text(from: &String, text: &String) -> (entry: String)
    ensures
        entry@ == response_record(from@, text@),
{
    let mut entry = String::from_str("From ");
    entry.append(from.as_str());
    entry.append(": ");
    entry.append(text.as_str());
    entry
}

impl AutonomousAgent {
    /// A running agent named `id`, with empty memory and no peers.
    pub fn new(id: String) -> (agent: AutonomousAgent)
        ensures
            agent@ == AgentModel::fresh(id@),
    {
        let agent = AutonomousAgent {
            id,
            state: AgentState { task_queue: Vec::new(), conversation_history: Vec::new() },
            peers: Vec::new(),
            status: Status::Running,
        };
        agent
    }

    pub fn id(&self) -> (id: &String)
        ensures
            id@ == self@.id,
    {
        &self.id
    }

    pub fn status(&self) -> (status: Status)
        ensures
            status == self@.status,
    {
        self.status
    }

    /// The standing instruction that the task processor is given for this agent.
    pub fn preamble(&self) -> (text: String)
        ensures
            text@ == preamble_for(self@.id),
    {
        let mut text = String::from_str("Your name is ");
        text.append(self.id.as_str());
        text.append(". Process tasks autonomously and coordinate with other agents.");
        text
    }

    /// The agent's history, oldest entry first.
    pub fn history(&self) -> (history: &Vec<String>)
        ensures
            history.deep_view() == self@.state.history,
    {
        &self.state.conversation_history
    }

    /// The tasks the agent has queued for itself.
    pub fn task_queue(&self) -> (queue: &Vec<String>)
        ensures
            queue.deep_view() == self@.state.task_queue,
    {
        &self.state.task_queue
    }

    /// The agent's peer links, in the order of registration.
    pub fn peers(&self) -> (peers: &Vec<PeerLink>)
        ensures
            peers@ == self@.peers,
    {
        &self.peers
    }

    /// Appends `link` to the agent's peers.
    pub fn register_peer(&mut self, link: PeerLink)
        ensures
            final(self)@ == old(self)@.register_peer(link),
    {
        self.peers.push(link);
    }

    /// One copy of `message` for every registered peer, in the order of
    /// registration. The agent itself is not touched.
    pub fn broadcast_to_peers(&self, message: AgentMessage) -> (deliveries: Vec<Delivery>)
        ensures
            delivery_models(deliveries@) == self@.broadcast(message@),
    {
        let mut deliveries: Vec<Delivery> = Vec::new();
        let mut k: usize = 0;
        while k < self.peers.len()
            invariant
                k <= self.peers.len(),
                deliveries.len() == k,
                forall|j: int|
                    0 <= j < k ==> (#[trigger] deliveries[j])@ == (DeliveryModel {
                        link: self.peers[j],
                        message: message@,
                    }),
            decreases self.peers.len() - k,
        {
            deliveries.push(Delivery { link: self.peers[k], message: message.clone() });
            k += 1;
        }
        deliveries
    }

    /// Whether a tick finds the agent in need of a task of its own.
    pub fn needs_self_task(&self) -> (needed: bool)
        ensures
            needed == self@.needs_self_task(),
    {
        self.state.task_queue.len() == 0 && self.state.conversation_history.len() > 0
    }

    /// Appends `entry` to the history.
    fn record(&mut self, entry: String)
        ensures
            final(self)@ == old(self)@.record(entry@),
    {
        self.state.conversation_history.push(entry);
    }

    /// The general handler. A task or a trigger asks for a call of the task
    /// processor; a response is recorded; the shutdown signal is not expected
    /// here and changes nothing. A terminated agent handles nothing.
    pub fn handle_message(&mut self, message: AgentMessage) -> (action: Action)
        ensures
            final(self)@ == old(self)@.handled(message@),
            action@ == old(self)@.handling_action(message@),
    {
        match self.status {
            Status::Terminated => Action::Halt,
            Status::Running => match message {
                AgentMessage::Task(task) => Action::Invoke(
                    ProcessorCall { origin: Origin::Task, task },
                ),
                AgentMessage::Trigger(task) => Action::Invoke(
                    ProcessorCall { origin: Origin::Trigger, task },
                ),
                AgentMessage::Response(from, text) => {
                    let entry = response_record_text(&from, &text);
                    self.record(entry);
                    Action::Continue
                },
                AgentMessage::Shutdown => Action::Unsupported,
            },
        }
    }

    /// The periodic self-check. It asks for the self-summary exactly when the
    /// agent runs, has nothing pending and has a history. It changes nothing.
    pub fn self_check(&self) -> (action: Action)
        ensures
            action@ == self@.self_check_action(),
            action@ is Invoke <==> self@.status is Running && self@.needs_self_task(),
    {
        match self.status {
            Status::Terminated => Action::Halt,
            Status::Running => {
                if self.needs_self_task() {
                    Action::Invoke(
                        ProcessorCall {
                            origin: Origin::SelfCheck,
                            task: String::from_str(SELF_SUMMARY_TASK),
                        },
                    )
                } else {
                    Action::Continue
                }
            },
        }
    }

    /// One turn of the agent's loop. The shutdown signal ends the loop at
    /// once; every other message goes to the general handler; a tick runs the
    /// self-check. A terminated agent dispatches nothing and stays as it is.
    pub fn step(&mut self, event: Event) -> (action: Action)
        ensures
            final(self)@ == old(self)@.stepped(event@),
            action@ == old(self)@.step_action(event@),
    {
        match self.status {
            Status::Terminated => Action::Halt,
            Status::Running => match event {
                Event::Message(AgentMessage::Shutdown) => {
                    self.status = Status::Terminated;
                    Action::Halt
                },
                Event::Message(message) => self.handle_message(message),
                Event::Tick => self.self_check(),
            },
        }
    }

    /// Takes in the outcome of a call of the task processor. A running agent
    /// that completed a task records it and returns one response for every
    /// peer. In every other case (a failure, a trigger, a self-check, a
    /// terminated agent) nothing is recorded and nothing is to be sent.
    pub fn conclude(&mut self, call: ProcessorCall, outcome: Result<String, ProcessorFailure>) -> (deliveries:
        Vec<Delivery>)
        ensures
            final(self)@ == old(self)@.concluded(call@, outcome_model(outcome)),
            delivery_models(deliveries@) == old(self)@.conclusion_deliveries(
                call@,
                outcome_model(outcome),
            ),
    {
        match (self.status, call.origin, outcome) {
            (Status::Running, Origin::Task, Ok(result)) => {
                let entry = task_record_text(&call.task, &result);
                self.record(entry);
                self.broadcast_to_peers(AgentMessage::Response(self.id.clone(), result))
            },
            _ => Vec::new(),
        }
    }
}

} // verus!
