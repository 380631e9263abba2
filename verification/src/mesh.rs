//! The supervisor's view of a run: every agent with its mailbox, wired into a
//! complete graph, and advanced one turn at a time.
//!
//! The mesh is a sequential rendering of the concurrent system. Where an agent
//! of the running system would be suspended (its mailbox is empty, the task
//! processor has not answered, a peer's mailbox is full) the mesh records the
//! suspension and leaves the agent where it is until the cause is gone.

use crate::agent::{
    delivery_models, outcome_model, Action, ActionModel, AgentModel, AutonomousAgent, CallModel,
    Delivery, DeliveryModel, Event, EventModel, Origin, OutcomeModel, PeerLink, ProcessorCall,
    ProcessorFailure, Status, SELF_SUMMARY_TASK,
};
use crate::mailbox::{Mailbox, MailboxModel, SendError, MAILBOX_CAPACITY};
use crate::message::{AgentMessage, MessageModel};
use vstd::prelude::*;
use vstd::string::*;

verus! {

/// The links that agent `i` of `n` holds in a complete mesh: one to every
/// other agent, by rising index.
pub open spec fn others(n: nat, i: int) -> Seq<PeerLink> {
    Seq::new(
        (n - 1) as nat,
        |k: int|
            PeerLink {
                target: (if k < i {
                    k
                } else {
                    k + 1
                }) as usize,
            },
    )
}

/// No identity occurs twice.
pub open spec fn distinct(ids: Seq<Seq<char>>) -> bool {
    forall|i: int, j: int| 0 <= i < j < ids.len() ==> ids[i] != ids[j]
}

/// The least index at which `id` stands in `ids`, if it stands there at all.
pub open spec fn first_named(ids: Seq<Seq<char>>, id: Seq<char>) -> Option<int>
    decreases ids.len(),
{
    if ids.len() == 0 {
        None
    } else {
        match first_named(ids.drop_last(), id) {
            Some(i) => Some(i),
            None => if ids.last() == id {
                Some(ids.len() - 1)
            } else {
                None
            },
        }
    }
}

/// The messages among `deliveries` that go to agent `j`, in order.
pub open spec fn mail_for(deliveries: Seq<DeliveryModel>, j: int) -> Seq<MessageModel>
    decreases deliveries.len(),
{
    if deliveries.len() == 0 {
        Seq::empty()
    } else if deliveries[0].link.target == j {
        seq![deliveries[0].message] + mail_for(deliveries.drop_first(), j)
    } else {
        mail_for(deliveries.drop_first(), j)
    }
}

/// What a turn of the mesh found an agent doing.
#[derive(Debug, Clone, Copy, PartialEq, Eq, Structural)]
pub enum Progress {
    /// There is no agent of that index.
    Absent,
    /// The agent's loop has ended: nothing was dispatched.
    Terminated,
    /// The agent waits for the task processor: nothing was dispatched.
    AwaitingOutcome,
    /// The agent is suspended in a send, because a peer's mailbox is full.
    Blocked,
    /// The agent's mailbox is empty: it waits for a message.
    Idle,
    /// The agent took a step and is back at the top of its loop.
    Advanced,
    /// The agent received a task or a trigger and asked for the task processor.
    Invoked,
    /// The agent received the shutdown signal and ended its loop.
    Halted,
}

/// One agent of a mesh with all that belongs to it.
#[verifier::ext_equal]
pub struct NodeModel {
    pub agent: AgentModel,
    pub mailbox: MailboxModel,
    /// The call of the task processor that the agent waits for, if any.
    pub call: Option<CallModel>,
    /// What the agent has yet to send, in order. While this is not empty the
    /// agent is suspended in a send.
    pub outbox: Seq<DeliveryModel>,
}

impl NodeModel {
    /// Agent `i` of `n` at the start of a run.
    pub open spec fn fresh(id: Seq<char>, n: nat, i: int) -> NodeModel {
        NodeModel {
            agent: AgentModel { peers: others(n, i), ..AgentModel::fresh(id) },
            mailbox: MailboxModel::empty(MAILBOX_CAPACITY as nat),
            call: None,
            outbox: Seq::empty(),
        }
    }

    /// The agent is at the top of its loop: it runs and is suspended neither
    /// in a call nor in a send.
    pub open spec fn ready(self) -> bool {
        self.agent.status is Running && self.call is None && self.outbox.len() == 0
    }
}

/// A whole mesh as a mathematical value.
#[verifier::ext_equal]
pub struct MeshModel {
    pub nodes: Seq<NodeModel>,
}

impl MeshModel {
    /// The mesh at the start of a run over `ids`.
    pub open spec fn spawned(ids: Seq<Seq<char>>) -> MeshModel {
        MeshModel { nodes: Seq::new(ids.len(), |i: int| NodeModel::fresh(ids[i], ids.len(), i)) }
    }

    pub open spec fn has(self, i: int) -> bool {
        0 <= i < self.nodes.len()
    }

    /// The identities of the agents, by index.
    pub open spec fn ids(self) -> Seq<Seq<char>> {
        Seq::new(self.nodes.len(), |i: int| self.nodes[i].agent.id)
    }

    /// Every agent holds exactly one link to every other agent and none to itself.
    pub open spec fn wired(self) -> bool {
        forall|i: int| 0 <= i < self.nodes.len() ==> (#[trigger] self.nodes[i]).agent.peers == others(
            self.nodes.len(),
            i,
        )
    }

    /// What holds of every mesh that a run can reach: it is a complete graph
    /// over distinct identities; no mailbox holds more than its capacity; a
    /// mailbox is read exactly as long as its agent runs; and an agent that
    /// waits for the task processor runs and has nothing left to send.
    pub open spec fn valid(self) -> bool {
        &&& self.nodes.len() <= usize::MAX
        &&& self.wired()
        &&& distinct(self.ids())
        &&& forall|i: int|
            0 <= i < self.nodes.len() ==> {
                &&& (#[trigger] self.nodes[i]).mailbox.bounded()
                &&& self.nodes[i].mailbox.open == (self.nodes[i].agent.status is Running)
                &&& self.nodes[i].call is Some ==> self.nodes[i].agent.status is Running
                    && self.nodes[i].outbox.len() == 0
            }
    }

    /// The index of the first agent named `id`, if there is one.
    pub open spec fn position(self, id: Seq<char>) -> Option<int> {
        first_named(self.ids(), id)
    }

    pub open spec fn with_node(self, i: int, node: NodeModel) -> MeshModel {
        MeshModel { nodes: self.nodes.update(i, node) }
    }

    pub open spec fn with_mailbox(self, i: int, mailbox: MailboxModel) -> MeshModel {
        self.with_node(i, NodeModel { mailbox, ..self.nodes[i] })
    }

    pub open spec fn with_outbox(self, i: int, outbox: Seq<DeliveryModel>) -> MeshModel {
        self.with_node(i, NodeModel { outbox, ..self.nodes[i] })
    }

    /// The mesh after `message` was offered to the mailbox of agent `i` from
    /// outside the mesh.
    pub open spec fn seeded(self, i: int, message: MessageModel) -> MeshModel {
        if self.has(i) {
            self.with_mailbox(i, self.nodes[i].mailbox.send(message))
        } else {
            self
        }
    }

    /// The mesh after the shutdown signal was offered to every mailbox.
    pub open spec fn shut_down(self) -> MeshModel {
        MeshModel {
            nodes: Seq::new(
                self.nodes.len(),
                |i: int|
                    NodeModel {
                        mailbox: self.nodes[i].mailbox.send(MessageModel::Shutdown),
                        ..self.nodes[i]
                    },
            ),
        }
    }

    /// Every open mailbox has room for one more message.
    pub open spec fn all_open_have_room(self) -> bool {
        forall|i: int|
            0 <= i < self.nodes.len() && (#[trigger] self.nodes[i]).mailbox.open
                ==> self.nodes[i].mailbox.has_room()
    }

    pub open spec fn all_terminated(self) -> bool {
        forall|i: int|
            0 <= i < self.nodes.len() ==> (#[trigger] self.nodes[i]).agent.status is Terminated
    }

    /// The mesh after agent `a` has sent as much of its outbox as it can. It
    /// sends in order. A delivery to a mailbox that is closed, or to an index
    /// where no agent is, is dropped without a trace. At the first delivery
    /// whose mailbox is full the agent stops and stays suspended.
    pub open spec fn flushed(self, a: int) -> MeshModel
        decreases
            (if self.has(a) {
                self.nodes[a].outbox.len()
            } else {
                0
            }),
    {
        if !self.has(a) || self.nodes[a].outbox.len() == 0 {
            self
        } else {
            let front = self.nodes[a].outbox[0];
            let rest = self.nodes[a].outbox.drop_first();
            let t = front.link.target as int;
            if !self.has(t) || !self.nodes[t].mailbox.open {
                self.with_outbox(a, rest).flushed(a)
            } else if !self.nodes[t].mailbox.has_room() {
                self
            } else {
                self.with_outbox(a, rest).with_mailbox(
                    t,
                    self.nodes[t].mailbox.send(front.message),
                ).flushed(a)
            }
        }
    }

    /// The agent `i` after one turn of its loop on the head of its mailbox.
    pub open spec fn dispatched(self, i: int) -> NodeModel {
        let node = self.nodes[i];
        let event = EventModel::Message(node.mailbox.queue[0]);
        let action = node.agent.step_action(event);
        NodeModel {
            agent: node.agent.stepped(event),
            mailbox: if action is Halt {
                node.mailbox.receive().close()
            } else {
                node.mailbox.receive()
            },
            call: match action {
                ActionModel::Invoke(call) => Some(call),
                _ => None,
            },
            outbox: node.outbox,
        }
    }

    /// The mesh after agent `i` was given a turn on its mailbox. An agent that
    /// is terminated or waits for the task processor is left as it is; one
    /// that is suspended in a send tries to send; one whose mailbox is empty
    /// waits; any other receives the head of its mailbox and dispatches it. An
    /// agent that ends its loop stops reading its mailbox.
    pub open spec fn polled(self, i: int) -> MeshModel {
        if !self.has(i) {
            self
        } else if self.nodes[i].agent.status is Terminated || self.nodes[i].call is Some {
            self
        } else if self.nodes[i].outbox.len() > 0 {
            self.flushed(i)
        } else if self.nodes[i].mailbox.queue.len() == 0 {
            self
        } else {
            self.with_node(i, self.dispatched(i))
        }
    }

    /// What a turn of agent `i` on its mailbox finds.
    pub open spec fn poll_progress(self, i: int) -> Progress {
        if !self.has(i) {
            Progress::Absent
        } else if self.nodes[i].agent.status is Terminated {
            Progress::Terminated
        } else if self.nodes[i].call is Some {
            Progress::AwaitingOutcome
        } else if self.nodes[i].outbox.len() > 0 {
            if self.flushed(i).nodes[i].outbox.len() > 0 {
                Progress::Blocked
            } else {
                Progress::Advanced
            }
        } else if self.nodes[i].mailbox.queue.len() == 0 {
            Progress::Idle
        } else {
            match self.nodes[i].agent.step_action(
                EventModel::Message(self.nodes[i].mailbox.queue[0]),
            ) {
                ActionModel::Invoke(_) => Progress::Invoked,
                ActionModel::Halt => Progress::Halted,
                _ => Progress::Advanced,
            }
        }
    }

    /// How many deliveries leave the outbox of agent `a` when it sends as much
    /// as it can: all up to the first whose mailbox is full.
    pub open spec fn sent_count(self, a: int) -> nat
        decreases
            (if self.has(a) {
                self.nodes[a].outbox.len()
            } else {
                0
            }),
    {
        if !self.has(a) || self.nodes[a].outbox.len() == 0 {
            0
        } else {
            let front = self.nodes[a].outbox[0];
            let rest = self.nodes[a].outbox.drop_first();
            let t = front.link.target as int;
            if !self.has(t) || !self.nodes[t].mailbox.open {
                1 + self.with_outbox(a, rest).sent_count(a)
            } else if !self.nodes[t].mailbox.has_room() {
                0
            } else {
                1 + self.with_outbox(a, rest).with_mailbox(
                    t,
                    self.nodes[t].mailbox.send(front.message),
                ).sent_count(a)
            }
        }
    }

    /// Whether a tick makes agent `i` set itself the self-summary: it does so
    /// exactly when it is at the top of its loop, has nothing pending and has
    /// a history.
    pub open spec fn tick_issues(self, i: int) -> bool {
        self.has(i) && self.nodes[i].ready() && self.nodes[i].agent.needs_self_task()
    }

    /// The mesh after the timer of agent `i` fired.
    pub open spec fn ticked(self, i: int) -> MeshModel {
        if self.tick_issues(i) {
            self.with_node(
                i,
                NodeModel {
                    call: Some(CallModel { origin: Origin::SelfCheck, task: SELF_SUMMARY_TASK@ }),
                    ..self.nodes[i]
                },
            )
        } else {
            self
        }
    }

    /// Whether agent `i` waits for the task processor.
    pub open spec fn awaits(self, i: int) -> bool {
        self.has(i) && self.nodes[i].call is Some
    }

    /// The mesh after the task processor answered the call that agent `i`
    /// waits for: the agent takes the outcome in and sends what it has to
    /// send, as far as it can. Where no call is outstanding nothing changes.
    pub open spec fn completed(self, i: int, outcome: OutcomeModel) -> MeshModel {
        if self.awaits(i) {
            let node = self.nodes[i];
            let call = node.call->0;
            self.with_node(
                i,
                NodeModel {
                    agent: node.agent.concluded(call, outcome),
                    mailbox: node.mailbox,
                    call: None,
                    outbox: node.outbox + node.agent.conclusion_deliveries(call, outcome),
                },
            ).flushed(i)
        } else {
            self
        }
    }
}

/// Why no mesh was built.
#[derive(Debug, PartialEq, Eq)]
pub enum SpawnError {
    /// Two agents were given the same identity.
    DuplicateIdentity,
}

/// Whether no text occurs twice in `ids`.
pub fn all_distinct(ids: &Vec<String>) -> (yes: bool)
    ensures
        yes == distinct(ids.deep_view()),
{
    let n = ids.len();
    let mut j: usize = 0;
    while j < n
        invariant
            n == ids.len(),
            j <= n,
            forall|a: int, b: int| 0 <= a < b < j ==> ids[a]@ != ids[b]@,
        decreases n - j,
    {
        let mut i: usize = 0;
        while i < j
            invariant
                n == ids.len(),
                i <= j < n,
                forall|a: int| 0 <= a < i ==> ids[a]@ != ids[j as int]@,
            decreases j - i,
        {
            if ids[i] == ids[j] {
                assert(ids.deep_view()[i as int] == ids.deep_view()[j as int]);
                return false;
            }
            i += 1;
        }
        j += 1;
    }
    true
}

/// The index of the first of `identities` that equals `identity`.
pub fn find_identity(identities: &Vec<String>, identity: &str) -> (found: Option<usize>)
    ensures
        match found {
            Some(i) => first_named(identities.deep_view(), identity@) == Some(i as int),
            None => first_named(identities.deep_view(), identity@) is None,
        },
{
    let ghost ids = identities.deep_view();
    let wanted = String::from_str(identity);
    let mut i: usize = 0;
    while i < identities.len()
        invariant
            i <= identities.len(),
            ids == identities.deep_view(),
            wanted@ == identity@,
            first_named(ids.take(i as int), identity@) is None,
        decreases identities.len() - i,
    {
        proof {
            assert(ids.take(i + 1).drop_last() =~= ids.take(i as int));
        }
        if identities[i] == wanted {
            proof {
                lemma_first_named_prefix(ids, identity@, i + 1);
            }
            return Some(i);
        }
        i += 1;
    }
    assert(ids.take(i as int) =~= ids);
    None
}

/// Agent `i` of `n`, named `id`, with a link to every other agent registered.
fn wired_agent(id: String, n: usize, i: usize) -> (agent: AutonomousAgent)
    requires
        i < n,
    ensures
        agent@ == (AgentModel { peers: others(n as nat, i as int), ..AgentModel::fresh(id@) }),
{
    let mut agent = AutonomousAgent::new(id);
    let mut j: usize = 0;
    while j < n
        invariant
            i < n,
            j <= n,
            agent@.id == id@,
            agent@.state == AgentModel::fresh(id@).state,
            agent@.status == Status::Running,
            agent@.peers == others(n as nat, i as int).take(
                if j <= i {
                    j as int
                } else {
                    j - 1
                },
            ),
        decreases n - j,
    {
        if j != i {
            agent.register_peer(PeerLink { target: j });
        }
        j += 1;
    }
    agent
}

/// The agents of a complete mesh over `identities`: each is running, has an
/// empty memory, and holds a link to every other agent by rising index.
/// Refused when an identity occurs twice.
pub fn spawn_agents(identities: &Vec<String>) -> (spawned: Result<Vec<AutonomousAgent>, SpawnError>)
    ensures
        spawned is Ok <==> distinct(identities.deep_view()),
        spawned matches Ok(agents) ==> agents@.map_values(|a: AutonomousAgent| a@)
            == MeshModel::spawned(identities.deep_view()).nodes.map_values(|n: NodeModel| n.agent),
{
    if !all_distinct(identities) {
        return Err(SpawnError::DuplicateIdentity);
    }
    let n = identities.len();
    let mut agents: Vec<AutonomousAgent> = Vec::new();
    let mut i: usize = 0;
    while i < n
        invariant
            n == identities.len(),
            i <= n,
            agents.len() == i,
            forall|k: int|
                0 <= k < i ==> (#[trigger] agents[k])@ == NodeModel::fresh(
                    identities[k]@,
                    n as nat,
                    k,
                ).agent,
        decreases n - i,
    {
        let agent = wired_agent(identities[i].clone(), n, i);
        agents.push(agent);
        i += 1;
    }
    Ok(agents)
}

/// Why a message from outside did not reach a mailbox. The message comes back.
#[derive(Debug, PartialEq, Eq)]
pub enum SeedError {
    /// No agent of the mesh has that identity.
    UnknownIdentity(AgentMessage),
    /// The agent's mailbox is at capacity: the sender has to wait for room.
    Full(AgentMessage),
    /// The agent no longer reads its mailbox.
    Closed(AgentMessage),
}

/// One agent of a mesh with all that belongs to it.
#[derive(Debug)]
struct Node {
    agent: AutonomousAgent,
    mailbox: Mailbox,
    call: Option<ProcessorCall>,
    outbox: Vec<Delivery>,
}

impl View for Node {
    type V = NodeModel;

    closed spec fn view(&self) -> NodeModel {
        NodeModel {
            agent: self.agent@,
            mailbox: self.mailbox@,
            call: match self.call {
                Some(call) => Some(call@),
                None => None,
            },
            outbox: delivery_models(self.outbox@),
        }
    }
}

impl Node {
    /// Takes the first delivery that is yet to be sent.
    fn pop_delivery(&mut self) -> (delivery: Delivery)
        requires
            old(self)@.outbox.len() > 0,
        ensures
            final(self)@ == (NodeModel { outbox: old(self)@.outbox.drop_first(), ..old(self)@ }),
            delivery@ == old(self)@.outbox[0],
    {
        let delivery = self.outbox.remove(0);
        delivery
    }

    /// Puts `deliveries` behind what is yet to be sent.
    fn queue_deliveries(&mut self, deliveries: Vec<Delivery>)
        ensures
            final(self)@ == (NodeModel {
                outbox: old(self)@.outbox + delivery_models(deliveries@),
                ..old(self)@
            }),
    {
        let mut deliveries = deliveries;
        self.outbox.append(&mut deliveries);
    }

    /// Takes the outstanding call, if there is one.
    fn take_call(&mut self) -> (call: Option<ProcessorCall>)
        ensures
            final(self)@ == (NodeModel { call: None, ..old(self)@ }),
            match call {
                Some(c) => old(self)@.call == Some(c@),
                None => old(self)@.call is None,
            },
    {
        self.call.take()
    }

    /// Notes that the agent waits for the outcome of `call`.
    fn await_call(&mut self, call: ProcessorCall)
        ensures
            final(self)@ == (NodeModel { call: Some(call@), ..old(self)@ }),
    {
        self.call = Some(call);
    }

    /// Offers `message` to the mailbox.
    fn offer(&mut self, message: AgentMessage) -> (sent: Result<(), SendError>)
        ensures
            final(self)@ == (NodeModel {
                mailbox: old(self)@.mailbox.send(message@),
                ..old(self)@
            }),
            match sent {
                Ok(()) => old(self)@.mailbox.accepts(),
                Err(SendError::Closed(back)) => !old(self)@.mailbox.open && back@ == message@,
                Err(SendError::Full(back)) => old(self)@.mailbox.open && !old(
                    self,
                )@.mailbox.has_room() && back@ == message@,
            },
    {
        self.mailbox.send(message)
    }
}

/// A mesh of agents, each with its own mailbox.
#[derive(Debug)]
pub struct Mesh {
    nodes: Vec<Node>,
}

impl View for Mesh {
    type V = MeshModel;

    closed spec fn view(&self) -> MeshModel {
        MeshModel { nodes: self.nodes@.map_values(|n: Node| n@) }
    }
}

impl Mesh {
    /// Builds one agent for each identity, each with an empty mailbox of the
    /// reference capacity, and links every agent to every other before any of
    /// them takes a turn. Refused when an identity occurs twice.
    pub fn spawn(identities: &Vec<String>) -> (spawned: Result<Mesh, SpawnError>)
        ensures
            spawned is Ok <==> distinct(identities.deep_view()),
            spawned matches Ok(mesh) ==> mesh@ == MeshModel::spawned(identities.deep_view()),
    {
        if !all_distinct(identities) {
            return Err(SpawnError::DuplicateIdentity);
        }
        let n = identities.len();
        let mut nodes: Vec<Node> = Vec::new();
        let mut i: usize = 0;
        while i < n
            invariant
                n == identities.len(),
                i <= n,
                nodes.len() == i,
                forall|k: int|
                    0 <= k < i ==> (#[trigger] nodes[k])@ == NodeModel::fresh(
                        identities[k]@,
                        n as nat,
                        k,
                    ),
            decreases n - i,
        {
            let node = Node {
                agent: wired_agent(identities[i].clone(), n, i),
                mailbox: Mailbox::new(MAILBOX_CAPACITY),
                call: None,
                outbox: Vec::new(),
            };
            nodes.push(node);
            i += 1;
        }
        let mesh = Mesh { nodes };
        Ok(mesh)
    }

    /// The number of agents.
    pub fn len(&self) -> (n: usize)
        ensures
            n == self@.nodes.len(),
    {
        self.nodes.len()
    }

    /// The agent of index `i`.
    pub fn agent(&self, i: usize) -> (agent: Option<&AutonomousAgent>)
        ensures
            agent is Some <==> self@.has(i as int),
            agent matches Some(a) ==> a@ == self@.nodes[i as int].agent,
    {
        if i < self.nodes.len() {
            Some(&self.nodes[i].agent)
        } else {
            None
        }
    }

    /// The mailbox of the agent of index `i`.
    pub fn mailbox(&self, i: usize) -> (mailbox: Option<&Mailbox>)
        ensures
            mailbox is Some <==> self@.has(i as int),
            mailbox matches Some(m) ==> m@ == self@.nodes[i as int].mailbox,
    {
        if i < self.nodes.len() {
            Some(&self.nodes[i].mailbox)
        } else {
            None
        }
    }

    /// The call of the task processor that the agent of index `i` waits for.
    /// The processor is to be invoked with the agent's identity and the
    /// call's task.
    pub fn pending_call(&self, i: usize) -> (call: Option<&ProcessorCall>)
        ensures
            call is Some <==> self@.awaits(i as int),
            call matches Some(c) ==> Some(c@) == self@.nodes[i as int].call,
    {
        if i < self.nodes.len() {
            self.nodes[i].call.as_ref()
        } else {
            None
        }
    }

    /// The number of deliveries that the agent of index `i` has yet to send.
    pub fn unsent(&self, i: usize) -> (n: usize)
        ensures
            n == (if self@.has(i as int) {
                self@.nodes[i as int].outbox.len()
            } else {
                0
            }),
    {
        if i < self.nodes.len() {
            self.nodes[i].outbox.len()
        } else {
            0
        }
    }

    /// Whether every agent's loop has ended.
    pub fn all_terminated(&self) -> (yes: bool)
        ensures
            yes == self@.all_terminated(),
    {
        let mut i: usize = 0;
        while i < self.nodes.len()
            invariant
                i <= self.nodes.len(),
                forall|k: int| 0 <= k < i ==> (#[trigger] self@.nodes[k]).agent.status is Terminated,
            decreases self.nodes.len() - i,
        {
            match self.nodes[i].agent.status() {
                Status::Running => {
                    assert(self@.nodes[i as int].agent.status is Running);
                    return false;
                },
                Status::Terminated => {},
            }
            i += 1;
        }
        true
    }

    /// The index of the first agent named `identity`.
    pub fn find(&self, identity: &str) -> (found: Option<usize>)
        ensures
            match found {
                Some(i) => self@.position(identity@) == Some(i as int),
                None => self@.position(identity@) is None,
            },
    {
        let wanted = String::from_str(identity);
        let mut i: usize = 0;
        while i < self.nodes.len()
            invariant
                i <= self.nodes.len(),
                wanted@ == identity@,
                first_named(self@.ids().take(i as int), identity@) is None,
            decreases self.nodes.len() - i,
        {
            proof {
                assert(self@.ids().take(i + 1).drop_last() =~= self@.ids().take(i as int));
            }
            if *self.nodes[i].agent.id() == wanted {
                proof {
                    lemma_first_named_prefix(self@.ids(), identity@, i + 1);
                }
                return Some(i);
            }
            i += 1;
        }
        assert(self@.ids().take(i as int) =~= self@.ids());
        None
    }

    /// Delivers `message` from outside the mesh into the mailbox of the agent
    /// named `identity`. The message comes back when there is no such agent,
    /// when the mailbox is full, or when the agent no longer reads it.
    pub fn seed(&mut self, identity: &str, message: AgentMessage) -> (seeded: Result<(), SeedError>)
        ensures
            match old(self)@.position(identity@) {
                Some(i) => {
                    &&& final(self)@ == old(self)@.seeded(i, message@)
                    &&& match seeded {
                        Ok(()) => old(self)@.nodes[i].mailbox.accepts(),
                        Err(SeedError::Closed(back)) => !old(self)@.nodes[i].mailbox.open && back@
                            == message@,
                        Err(SeedError::Full(back)) => old(self)@.nodes[i].mailbox.open && !old(
                            self,
                        )@.nodes[i].mailbox.has_room() && back@ == message@,
                        Err(SeedError::UnknownIdentity(_)) => false,
                    }
                },
                None => {
                    &&& final(self)@ == old(self)@
                    &&& seeded matches Err(SeedError::UnknownIdentity(back))
                    &&& back@ == message@
                },
            },
    {
        match self.find(identity) {
            None => Err(SeedError::UnknownIdentity(message)),
            Some(i) => {
                proof {
                    lemma_first_named_in_range(self@.ids(), identity@);
                }
                let sent = self.nodes[i].offer(message);
                match sent {
                    Ok(()) => Ok(()),
                    Err(SendError::Full(back)) => Err(SeedError::Full(back)),
                    Err(SendError::Closed(back)) => Err(SeedError::Closed(back)),
                }
            },
        }
    }

    /// Offers the shutdown signal to every mailbox. Says whether every agent
    /// that still reads its mailbox got it; where a mailbox was full, the
    /// signal has to be offered again once there is room.
    pub fn shutdown_all(&mut self) -> (all_signalled: bool)
        ensures
            final(self)@ == old(self)@.shut_down(),
            all_signalled == old(self)@.all_open_have_room(),
    {
        let n = self.nodes.len();
        let mut all_signalled = true;
        let mut i: usize = 0;
        while i < n
            invariant
                i <= n,
                n == self.nodes.len(),
                n == old(self).nodes.len(),
                forall|k: int|
                    0 <= k < i ==> (#[trigger] self@.nodes[k]) == old(self)@.shut_down().nodes[k],
                forall|k: int| i <= k < n ==> (#[trigger] self@.nodes[k]) == old(self)@.nodes[k],
                all_signalled == (forall|k: int|
                    0 <= k < i && (#[trigger] old(self)@.nodes[k]).mailbox.open ==> old(
                        self,
                    )@.nodes[k].mailbox.has_room()),
            decreases n - i,
        {
            let ghost before = self@;
            let sent = self.nodes[i].offer(AgentMessage::Shutdown);
            match sent {
                Err(SendError::Full(_)) => {
                    all_signalled = false;
                },
                _ => {},
            }
            assert(before.nodes[i as int] == old(self)@.nodes[i as int]);
            assert forall|k: int| i < k < n implies (#[trigger] self@.nodes[k]) == old(
                self,
            )@.nodes[k] by {
                assert(self@.nodes[k] == before.nodes[k]);
            }
            assert forall|k: int| 0 <= k < i implies (#[trigger] self@.nodes[k]) == old(
                self,
            )@.shut_down().nodes[k] by {
                assert(self@.nodes[k] == before.nodes[k]);
            }
            i += 1;
        }
        all_signalled
    }

    /// Lets the agent of index `a` send as much of what it has yet to send as
    /// its peers' mailboxes take.
    pub fn flush(&mut self, a: usize)
        ensures
            final(self)@ == old(self)@.flushed(a as int),
    {
        if a >= self.nodes.len() {
            return ;
        }
        while self.nodes[a].outbox.len() > 0
            invariant
                a < self.nodes.len(),
                self@.flushed(a as int) == old(self)@.flushed(a as int),
            decreases self@.nodes[a as int].outbox.len(),
        {
            let ghost before = self@;
            let t = self.nodes[a].outbox[0].link.target;
            if t < self.nodes.len() && self.nodes[t].mailbox.is_open() {
                if self.nodes[t].mailbox.is_full() {
                    return ;
                }
                let delivery = self.nodes[a].pop_delivery();
                let ghost between = self@;
                assert(between.nodes =~= before.with_outbox(
                    a as int,
                    before.nodes[a as int].outbox.drop_first(),
                ).nodes);
                let _ = self.nodes[t].offer(delivery.message);
                assert(self@.nodes =~= between.with_mailbox(
                    t as int,
                    before.nodes[t as int].mailbox.send(before.nodes[a as int].outbox[0].message),
                ).nodes);
            } else {
                let _ = self.nodes[a].pop_delivery();
                assert(self@.nodes =~= before.with_outbox(
                    a as int,
                    before.nodes[a as int].outbox.drop_first(),
                ).nodes);
            }
        }
    }

    /// Gives the agent of index `i` one turn on its mailbox.
    pub fn poll(&mut self, i: usize) -> (progress: Progress)
        ensures
            final(self)@ == old(self)@.polled(i as int),
            progress == old(self)@.poll_progress(i as int),
    {
        if i >= self.nodes.len() {
            return Progress::Absent;
        }
        match self.nodes[i].agent.status() {
            Status::Terminated => {
                return Progress::Terminated;
            },
            Status::Running => {},
        }
        if self.nodes[i].call.is_some() {
            return Progress::AwaitingOutcome;
        }
        if self.nodes[i].outbox.len() > 0 {
            self.flush(i);
            proof {
                lemma_flush_touches_only_mail(old(self)@, i as int);
            }
            if self.nodes[i].outbox.len() > 0 {
                return Progress::Blocked;
            } else {
                return Progress::Advanced;
            }
        }
        match self.nodes[i].mailbox.receive() {
            None => Progress::Idle,
            Some(message) => match self.nodes[i].agent.step(Event::Message(message)) {
                Action::Invoke(call) => {
                    self.nodes[i].await_call(call);
                    Progress::Invoked
                },
                Action::Halt => {
                    self.nodes[i].mailbox.close();
                    Progress::Halted
                },
                _ => Progress::Advanced,
            },
        }
    }

    /// The timer of the agent of index `i` fired. Says whether the agent set
    /// itself the self-summary, which it does exactly when it is at the top of
    /// its loop, has nothing pending and has a history.
    pub fn tick(&mut self, i: usize) -> (issued: bool)
        ensures
            final(self)@ == old(self)@.ticked(i as int),
            issued == old(self)@.tick_issues(i as int),
    {
        if i >= self.nodes.len() {
            return false;
        }
        if self.nodes[i].call.is_some() || self.nodes[i].outbox.len() > 0 {
            return false;
        }
        match self.nodes[i].agent.self_check() {
            Action::Invoke(call) => {
                self.nodes[i].await_call(call);
                true
            },
            _ => false,
        }
    }

    /// Hands the agent of index `i` the outcome of the call it waits for. Says
    /// whether a call was outstanding.
    pub fn complete(&mut self, i: usize, outcome: Result<String, ProcessorFailure>) -> (concluded:
        bool)
        ensures
            final(self)@ == old(self)@.completed(i as int, outcome_model(outcome)),
            concluded == old(self)@.awaits(i as int),
    {
        if i >= self.nodes.len() {
            return false;
        }
        match self.nodes[i].take_call() {
            None => false,
            Some(call) => {
                let deliveries = self.nodes[i].agent.conclude(call, outcome);
                self.nodes[i].queue_deliveries(deliveries);
                assert(self@.nodes =~= old(self)@.with_node(
                    i as int,
                    NodeModel {
                        agent: old(self)@.nodes[i as int].agent.concluded(
                            call@,
                            outcome_model(outcome),
                        ),
                        mailbox: old(self)@.nodes[i as int].mailbox,
                        call: None,
                        outbox: old(self)@.nodes[i as int].outbox + old(
                            self,
                        )@.nodes[i as int].agent.conclusion_deliveries(call@, outcome_model(outcome)),
                    },
                ).nodes);
                self.flush(i);
                true
            },
        }
    }
}

/// Sending touches nothing but mail: after agent `a` has sent what it could,
/// the mesh has the same agents with the same memories and the same
/// outstanding calls, and no other agent's outbox has changed.
pub proof fn lemma_flush_touches_only_mail(mesh: MeshModel, a: int)
    ensures
        mesh.flushed(a).nodes.len() == mesh.nodes.len(),
        forall|i: int|
            0 <= i < mesh.nodes.len() ==> {
                &&& (#[trigger] mesh.flushed(a).nodes[i]).agent == mesh.nodes[i].agent
                &&& mesh.flushed(a).nodes[i].call == mesh.nodes[i].call
                &&& mesh.flushed(a).nodes[i].mailbox.capacity == mesh.nodes[i].mailbox.capacity
                &&& mesh.flushed(a).nodes[i].mailbox.open == mesh.nodes[i].mailbox.open
                &&& mesh.nodes[i].mailbox.bounded() ==> mesh.flushed(a).nodes[i].mailbox.bounded()
                &&& i != a ==> mesh.flushed(a).nodes[i].outbox == mesh.nodes[i].outbox
            },
    decreases
        (if mesh.has(a) {
            mesh.nodes[a].outbox.len()
        } else {
            0
        }),
{
    if mesh.has(a) && mesh.nodes[a].outbox.len() > 0 {
        let front = mesh.nodes[a].outbox[0];
        let rest = mesh.nodes[a].outbox.drop_first();
        let t = front.link.target as int;
        if !mesh.has(t) || !mesh.nodes[t].mailbox.open {
            lemma_flush_touches_only_mail(mesh.with_outbox(a, rest), a);
        } else if mesh.nodes[t].mailbox.has_room() {
            lemma_flush_touches_only_mail(
                mesh.with_outbox(a, rest).with_mailbox(t, mesh.nodes[t].mailbox.send(front.message)),
                a,
            );
        }
    }
}

/// The first occurrence of `id` among the first `n` identities is `n - 1`
/// when `id` stands there and nowhere before, and it stays the first
/// occurrence however the sequence goes on.
proof fn lemma_first_named_prefix(ids: Seq<Seq<char>>, id: Seq<char>, n: int)
    requires
        0 < n <= ids.len(),
        ids[n - 1] == id,
        first_named(ids.take(n - 1), id) is None,
    ensures
        first_named(ids, id) == Some(n - 1),
    decreases ids.len() - n,
{
    if n < ids.len() {
        assert(ids.drop_last().take(n - 1) =~= ids.take(n - 1));
        lemma_first_named_prefix(ids.drop_last(), id, n);
    }
}

/// The first occurrence, where there is one, is an index of the sequence
/// and holds `id`; nothing before it does.
pub proof fn lemma_first_named_in_range(ids: Seq<Seq<char>>, id: Seq<char>)
    ensures
        first_named(ids, id) matches Some(i) ==> 0 <= i < ids.len() && ids[i] == id && forall|
            j: int,
        |
            0 <= j < i ==> ids[j] != id,
        first_named(ids, id) is None ==> forall|j: int| 0 <= j < ids.len() ==> ids[j] != id,
    decreases ids.len(),
{
    if ids.len() > 0 {
        let shorter = ids.drop_last();
        lemma_first_named_in_range(shorter, id);
        assert forall|j: int| 0 <= j < shorter.len() implies shorter[j] == ids[j] by {}
    }
}

} // verus!
