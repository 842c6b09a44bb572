//! What the master does about the events of its in-process workers.

use vstd::prelude::*;
use vstd::slice::slice_to_vec;

verus! {

/// An event of a worker. The engine handle that comes with an activated shard stays with the
/// caller.
#[derive(Clone, Debug, Eq, PartialEq)]
pub enum WorkerToMaster {
    /// A shard frame was finalized: its header is worth a reward.
    ShardFrameFinalized { core_id: u32, filter: Vec<u8>, header_canonical_bytes: Vec<u8> },
    /// A shard frame is proposed.
    FrameProduced { core_id: u32, filter: Vec<u8>, frame_data: Vec<u8> },
    /// A finalized shard frame, header and requests.
    FullFrameProduced { core_id: u32, filter: Vec<u8>, frame_data: Vec<u8> },
    /// A simplex message of a shard.
    CwConsensus { core_id: u32, filter: Vec<u8>, channel: u64, bytes: Vec<u8> },
    VoteProduced { core_id: u32, filter: Vec<u8>, vote_data: Vec<u8> },
    TimeoutProduced { core_id: u32, filter: Vec<u8>, timeout_data: Vec<u8> },
    ShardActivated { core_id: u32, filter: Vec<u8> },
    ShardDeactivated { core_id: u32, filter: Vec<u8> },
    Ready { core_id: u32 },
    ShardHeartbeat { core_id: u32 },
}

/// The gossip topics of a shard.
#[derive(Clone, Copy, Debug, PartialEq, Eq, Structural)]
pub enum ShardTopic {
    /// Finalized frames.
    Frame,
    /// Proposals, votes and timeouts.
    Consensus,
    Prover,
    Dispatch,
    /// Simplex messages.
    Cw,
}

/// What the master does about an event.
#[derive(Clone, Debug, Eq, PartialEq)]
pub enum MasterAction {
    /// Wrap the header in a message bundle and submit it as a reward proof.
    SubmitRewardProof { header_canonical_bytes: Vec<u8> },
    /// Mirror the frame into the master's clock store.
    MirrorFrame { frame_data: Vec<u8> },
    /// Publish the data on a topic of the event's shard.
    Publish { topic: ShardTopic, data: Vec<u8> },
    /// Publish the message on the shard's simplex topic, by way of the outbox.
    PublishCw { channel: u64, bytes: Vec<u8> },
    /// Tell the shard's engine whether the network is halted.
    SetHalted(bool),
    /// Enter the shard's engine in the routing registry.
    RegisterEngine,
    /// Take the shard's engine out of the routing registry.
    DeregisterEngine,
    /// Subscribe to the shard's topics and start its engine once the simplex topic has a peer.
    Subscribe,
    /// Unsubscribe from a topic of the shard.
    Unsubscribe(ShardTopic),
}

/// What the logic sees of an action.
pub enum ActionView {
    SubmitRewardProof { header_canonical_bytes: Seq<u8> },
    MirrorFrame { frame_data: Seq<u8> },
    Publish { topic: ShardTopic, data: Seq<u8> },
    PublishCw { channel: u64, bytes: Seq<u8> },
    SetHalted(bool),
    RegisterEngine,
    DeregisterEngine,
    Subscribe,
    Unsubscribe(ShardTopic),
}

impl MasterAction {
    pub open spec fn view(self) -> ActionView {
        match self {
            MasterAction::SubmitRewardProof { header_canonical_bytes } =>
                ActionView::SubmitRewardProof { header_canonical_bytes: header_canonical_bytes@ },
            MasterAction::MirrorFrame { frame_data } =>
                ActionView::MirrorFrame { frame_data: frame_data@ },
            MasterAction::Publish { topic, data } => ActionView::Publish { topic, data: data@ },
            MasterAction::PublishCw { channel, bytes } =>
                ActionView::PublishCw { channel, bytes: bytes@ },
            MasterAction::SetHalted(halted) => ActionView::SetHalted(halted),
            MasterAction::RegisterEngine => ActionView::RegisterEngine,
            MasterAction::DeregisterEngine => ActionView::DeregisterEngine,
            MasterAction::Subscribe => ActionView::Subscribe,
            MasterAction::Unsubscribe(topic) => ActionView::Unsubscribe(topic),
        }
    }
}

impl ActionView {
    /// The action sends shard work to the network or credits it.
    pub open spec fn publishes(self) -> bool {
        self is SubmitRewardProof || self is MirrorFrame || self is Publish || self is PublishCw
    }
}

pub open spec fn action_views(actions: Seq<MasterAction>) -> Seq<ActionView> {
    actions.map_values(|a: MasterAction| a@)
}

/// What an event is answered with. While coverage is halted no shard work leaves the node, so that
/// none is credited that should not have happened; shards still come and go.
pub open spec fn reaction(event: WorkerToMaster, halted: bool) -> Seq<ActionView> {
    match event {
        WorkerToMaster::ShardFrameFinalized { core_id, filter, header_canonical_bytes } => if halted {
            seq![]
        } else {
            seq![
                ActionView::SubmitRewardProof { header_canonical_bytes: header_canonical_bytes@ },
            ]
        },
        // A proposal goes on the consensus topic, where peers vote on it: the frame topic is for
        // finalized frames only.
        WorkerToMaster::FrameProduced { core_id, filter, frame_data } => if halted {
            seq![]
        } else {
            seq![ActionView::Publish { topic: ShardTopic::Consensus, data: frame_data@ }]
        },
        WorkerToMaster::FullFrameProduced { core_id, filter, frame_data } => if halted {
            seq![]
        } else {
            seq![
                ActionView::MirrorFrame { frame_data: frame_data@ },
                ActionView::Publish { topic: ShardTopic::Frame, data: frame_data@ },
            ]
        },
        WorkerToMaster::CwConsensus { core_id, filter, channel, bytes } => if halted {
            seq![]
        } else {
            seq![ActionView::PublishCw { channel, bytes: bytes@ }]
        },
        WorkerToMaster::VoteProduced { core_id, filter, vote_data } => if halted {
            seq![]
        } else {
            seq![ActionView::Publish { topic: ShardTopic::Consensus, data: vote_data@ }]
        },
        WorkerToMaster::TimeoutProduced { core_id, filter, timeout_data } => if halted {
            seq![]
        } else {
            seq![ActionView::Publish { topic: ShardTopic::Consensus, data: timeout_data@ }]
        },
        WorkerToMaster::ShardActivated { core_id, filter } =>
            seq![ActionView::SetHalted(halted), ActionView::RegisterEngine, ActionView::Subscribe],
        WorkerToMaster::ShardDeactivated { core_id, filter } =>
            seq![
                ActionView::DeregisterEngine,
                ActionView::Unsubscribe(ShardTopic::Frame),
                ActionView::Unsubscribe(ShardTopic::Consensus),
                ActionView::Unsubscribe(ShardTopic::Prover),
                ActionView::Unsubscribe(ShardTopic::Dispatch),
            ],
        WorkerToMaster::Ready { core_id } => seq![],
        WorkerToMaster::ShardHeartbeat { core_id } => seq![],
    }
}

/// Whether a finalized header that the follower reports is submitted as a reward proof.
pub fn coverage_publish_allowed(halted: bool) -> (r: bool)
    ensures
        r == !halted,
{
    !halted
}

/// Decides what the master does about an event, in order. `halted` tells whether coverage is halted.
pub fn on_worker_event(event: &WorkerToMaster, halted: bool) -> (r: Vec<MasterAction>)
    ensures
        action_views(r@) == reaction(*event, halted),
{
    let mut r: Vec<MasterAction> = Vec::new();
    match event {
        WorkerToMaster::ShardFrameFinalized { core_id: _, filter: _, header_canonical_bytes } => {
            if coverage_publish_allowed(halted) {
                r.push(
                    MasterAction::SubmitRewardProof {
                        header_canonical_bytes: slice_to_vec(header_canonical_bytes.as_slice()),
                    },
                );
            }
        },
        WorkerToMaster::FrameProduced { core_id: _, filter: _, frame_data } => {
            if !halted {
                r.push(
                    MasterAction::Publish {
                        topic: ShardTopic::Consensus,
                        data: slice_to_vec(frame_data.as_slice()),
                    },
                );
            }
        },
        WorkerToMaster::FullFrameProduced { core_id: _, filter: _, frame_data } => {
            if !halted {
                r.push(
                    MasterAction::MirrorFrame { frame_data: slice_to_vec(frame_data.as_slice()) },
                );
                r.push(
                    MasterAction::Publish {
                        topic: ShardTopic::Frame,
                        data: slice_to_vec(frame_data.as_slice()),
                    },
                );
            }
        },
        WorkerToMaster::CwConsensus { core_id: _, filter: _, channel, bytes } => {
            if !halted {
                r.push(
                    MasterAction::PublishCw {
                        channel: *channel,
                        bytes: slice_to_vec(bytes.as_slice()),
                    },
                );
            }
        },
        WorkerToMaster::VoteProduced { core_id: _, filter: _, vote_data } => {
            if !halted {
                r.push(
                    MasterAction::Publish {
                        topic: ShardTopic::Consensus,
                        data: slice_to_vec(vote_data.as_slice()),
                    },
                );
            }
        },
        WorkerToMaster::TimeoutProduced { core_id: _, filter: _, timeout_data } => {
            if !halted {
                r.push(
                    MasterAction::Publish {
                        topic: ShardTopic::Consensus,
                        data: slice_to_vec(timeout_data.as_slice()),
                    },
                );
            }
        },
        WorkerToMaster::ShardActivated { core_id: _, filter: _ } => {
            r.push(MasterAction::SetHalted(halted));
            r.push(MasterAction::RegisterEngine);
            r.push(MasterAction::Subscribe);
        },
        WorkerToMaster::ShardDeactivated { core_id: _, filter: _ } => {
            r.push(MasterAction::DeregisterEngine);
            r.push(MasterAction::Unsubscribe(ShardTopic::Frame));
            r.push(MasterAction::Unsubscribe(ShardTopic::Consensus));
            r.push(MasterAction::Unsubscribe(ShardTopic::Prover));
            r.push(MasterAction::Unsubscribe(ShardTopic::Dispatch));
        },
        WorkerToMaster::Ready { core_id: _ } => {},
        WorkerToMaster::ShardHeartbeat { core_id: _ } => {},
    }
    assert(action_views(r@) =~= reaction(*event, halted));
    r
}

/// During a coverage halt nothing of a shard's work is published, credited or mirrored.
pub proof fn law_nothing_is_published_during_a_halt(event: WorkerToMaster)
    ensures
        forall|i: int|
            0 <= i < reaction(event, true).len() ==> !(#[trigger] reaction(event, true)[i]).publishes(),
{
}

/// Only finalized frames go on the frame topic, and each of them is mirrored before it does.
pub proof fn law_frame_topic_carries_finalized_frames_only(
    event: WorkerToMaster,
    halted: bool,
    i: int,
)
    requires
        0 <= i < reaction(event, halted).len(),
        reaction(event, halted)[i] matches ActionView::Publish { topic, data } && topic
            == ShardTopic::Frame,
    ensures
        event is FullFrameProduced,
        i > 0,
        reaction(event, halted)[i - 1] is MirrorFrame,
{
}

/// An engine learns whether the network is halted before it is entered in the registry, so it does
/// not start to work during a halt.
pub proof fn law_halt_reaches_an_engine_before_traffic_does(event: WorkerToMaster, halted: bool)
    requires
        event is ShardActivated,
    ensures
        reaction(event, halted)[0] == ActionView::SetHalted(halted),
        reaction(event, halted)[1] is RegisterEngine,
{
}

/// Outside a halt a simplex message is answered with one action: it is published through the outbox on
/// the channel that it is for, with its bytes unchanged.
pub proof fn law_simplex_messages_keep_channel_and_bytes(
    core: u32,
    shard: Vec<u8>,
    message_channel: u64,
    message: Vec<u8>,
)
    ensures
        ({
            let actions = reaction(
                WorkerToMaster::CwConsensus {
                    core_id: core,
                    filter: shard,
                    channel: message_channel,
                    bytes: message,
                },
                false,
            );
            &&& actions.len() == 1
            &&& actions[0] == (ActionView::PublishCw { channel: message_channel, bytes: message@ })
        }),
{
}

/// Outside a halt a proposal, a vote and a timeout are each answered with one action: the data is
/// published unchanged on the shard's consensus topic, where peers vote on it.
pub proof fn law_consensus_traffic_goes_on_the_consensus_topic(
    core: u32,
    shard: Vec<u8>,
    payload: Vec<u8>,
)
    ensures
        reaction(
            WorkerToMaster::FrameProduced { core_id: core, filter: shard, frame_data: payload },
            false,
        ) == seq![ActionView::Publish { topic: ShardTopic::Consensus, data: payload@ }],
        reaction(
            WorkerToMaster::VoteProduced { core_id: core, filter: shard, vote_data: payload },
            false,
        ) == seq![ActionView::Publish { topic: ShardTopic::Consensus, data: payload@ }],
        reaction(
            WorkerToMaster::TimeoutProduced { core_id: core, filter: shard, timeout_data: payload },
            false,
        ) == seq![ActionView::Publish { topic: ShardTopic::Consensus, data: payload@ }],
{
}

/// Outside a halt a finalized frame is mirrored and then published on the frame topic, and a finalized
/// header is submitted for its reward; neither is changed, and nothing else is done.
pub proof fn law_finalized_work_is_mirrored_published_and_credited(
    core: u32,
    shard: Vec<u8>,
    payload: Vec<u8>,
)
    ensures
        reaction(
            WorkerToMaster::FullFrameProduced { core_id: core, filter: shard, frame_data: payload },
            false,
        ) == seq![
            ActionView::MirrorFrame { frame_data: payload@ },
            ActionView::Publish { topic: ShardTopic::Frame, data: payload@ },
        ],
        reaction(
            WorkerToMaster::ShardFrameFinalized {
                core_id: core,
                filter: shard,
                header_canonical_bytes: payload,
            },
            false,
        ) == seq![ActionView::SubmitRewardProof { header_canonical_bytes: payload@ }],
{
}

/// During a halt shard work is answered with nothing at all.
pub proof fn law_shard_work_is_dropped_during_a_halt(event: WorkerToMaster)
    requires
        event is ShardFrameFinalized || event is FrameProduced || event is FullFrameProduced
            || event is CwConsensus || event is VoteProduced || event is TimeoutProduced,
    ensures
        reaction(event, true).len() == 0,
{
}

/// A shard that comes is told of a halt, registered and subscribed, and one that goes is deregistered
/// and leaves its four shard topics, whether or not there is a halt. The other two events call for
/// nothing.
pub proof fn law_shards_come_and_go(event: WorkerToMaster, halted: bool)
    ensures
        event is ShardActivated ==> reaction(event, halted) == seq![
            ActionView::SetHalted(halted),
            ActionView::RegisterEngine,
            ActionView::Subscribe,
        ],
        event is ShardDeactivated ==> reaction(event, halted) == seq![
            ActionView::DeregisterEngine,
            ActionView::Unsubscribe(ShardTopic::Frame),
            ActionView::Unsubscribe(ShardTopic::Consensus),
            ActionView::Unsubscribe(ShardTopic::Prover),
            ActionView::Unsubscribe(ShardTopic::Dispatch),
        ],
        event is Ready || event is ShardHeartbeat ==> reaction(event, halted).len() == 0,
{
}

/// The actions read as they are written: each carries its own topic, channel and data.
pub proof fn law_actions_read_as_written(
    payload: Vec<u8>,
    shard_topic: ShardTopic,
    number: u64,
    on: bool,
    actions: Seq<MasterAction>,
)
    ensures
        (MasterAction::SubmitRewardProof { header_canonical_bytes: payload })@ == (
        ActionView::SubmitRewardProof { header_canonical_bytes: payload@ }),
        (MasterAction::MirrorFrame { frame_data: payload })@ == (ActionView::MirrorFrame {
            frame_data: payload@,
        }),
        (MasterAction::Publish { topic: shard_topic, data: payload })@ == (ActionView::Publish {
            topic: shard_topic,
            data: payload@,
        }),
        (MasterAction::PublishCw { channel: number, bytes: payload })@ == (ActionView::PublishCw {
            channel: number,
            bytes: payload@,
        }),
        MasterAction::SetHalted(on)@ == ActionView::SetHalted(on),
        MasterAction::RegisterEngine@ == ActionView::RegisterEngine,
        MasterAction::DeregisterEngine@ == ActionView::DeregisterEngine,
        MasterAction::Subscribe@ == ActionView::Subscribe,
        MasterAction::Unsubscribe(shard_topic)@ == ActionView::Unsubscribe(shard_topic),
        action_views(actions).len() == actions.len(),
        forall|i: int|
            0 <= i < actions.len() ==> #[trigger] action_views(actions)[i] == actions[i]@,
{
}

/// What is due while a shard's topics are being subscribed.
#[derive(Clone, Copy, Debug, PartialEq, Eq, Structural)]
pub enum SubscriptionAction {
    /// Subscribe to the topic and wait for the confirmation.
    Subscribe(ShardTopic),
    /// Ask how many peers are subscribed to the simplex topic.
    CountPeers,
    /// Wait a second before the next count, and log that peers are awaited when `announce` is set.
    Wait { announce: bool },
    /// Wait a second before the next count; the count failed.
    WaitAfterFailure,
    /// Tell the engine that its simplex transport is ready.
    StartEngine,
    /// Give up: a topic could not be subscribed.
    GiveUp(ShardTopic),
    /// Nothing more is due.
    Finish,
}

/// How far the subscription of a shard has come.
#[derive(Clone, Copy, Debug, PartialEq, Eq, Structural)]
pub enum SubscriptionState {
    Subscribing(ShardTopic),
    Counting,
    Waiting { announce: bool },
    WaitingAfterFailure,
    Starting,
    Failed(ShardTopic),
    Finished,
}

/// What came of what was due.
#[derive(Clone, Copy, Debug, PartialEq, Eq, Structural)]
pub enum SubscriptionEvent {
    /// The subscription was confirmed, or the wait is over.
    Done,
    /// The subscription or the count failed.
    Failed,
    /// So many peers are subscribed.
    Peers(u64),
}

/// The subscription of a shard's topics: the four shard topics first, then the simplex topic; and
/// the engine starts, once, when the simplex topic has a peer.
#[derive(Clone, Copy, Debug, PartialEq, Eq, Structural)]
pub struct ShardSubscription {
    pub state: SubscriptionState,
    /// That peers are awaited was logged.
    pub announced: bool,
}

/// The topic that is subscribed after another.
pub open spec fn topic_after(topic: ShardTopic) -> Option<ShardTopic> {
    match topic {
        ShardTopic::Frame => Some(ShardTopic::Consensus),
        ShardTopic::Consensus => Some(ShardTopic::Prover),
        ShardTopic::Prover => Some(ShardTopic::Dispatch),
        ShardTopic::Dispatch => Some(ShardTopic::Cw),
        ShardTopic::Cw => None,
    }
}

impl ShardSubscription {
    /// What is due.
    pub open spec fn due(self) -> SubscriptionAction {
        match self.state {
            SubscriptionState::Subscribing(topic) => SubscriptionAction::Subscribe(topic),
            SubscriptionState::Counting => SubscriptionAction::CountPeers,
            SubscriptionState::Waiting { announce } => SubscriptionAction::Wait { announce },
            SubscriptionState::WaitingAfterFailure => SubscriptionAction::WaitAfterFailure,
            SubscriptionState::Starting => SubscriptionAction::StartEngine,
            SubscriptionState::Failed(topic) => SubscriptionAction::GiveUp(topic),
            SubscriptionState::Finished => SubscriptionAction::Finish,
        }
    }

    /// The subscription once it is known what came of what was due.
    pub open spec fn after(self, event: SubscriptionEvent) -> ShardSubscription {
        match self.state {
            SubscriptionState::Subscribing(topic) => if event == SubscriptionEvent::Failed {
                ShardSubscription { state: SubscriptionState::Failed(topic), ..self }
            } else {
                match topic_after(topic) {
                    Some(next) => ShardSubscription {
                        state: SubscriptionState::Subscribing(next),
                        ..self
                    },
                    None => ShardSubscription { state: SubscriptionState::Counting, ..self },
                }
            },
            SubscriptionState::Counting => match event {
                SubscriptionEvent::Peers(peers) => if peers > 0 {
                    ShardSubscription { state: SubscriptionState::Starting, ..self }
                } else {
                    ShardSubscription {
                        state: SubscriptionState::Waiting { announce: !self.announced },
                        announced: true,
                    }
                },
                _ => ShardSubscription { state: SubscriptionState::WaitingAfterFailure, ..self },
            },
            SubscriptionState::Waiting { .. } => ShardSubscription {
                state: SubscriptionState::Counting,
                ..self
            },
            SubscriptionState::WaitingAfterFailure => ShardSubscription {
                state: SubscriptionState::Counting,
                ..self
            },
            SubscriptionState::Starting => ShardSubscription {
                state: SubscriptionState::Finished,
                ..self
            },
            SubscriptionState::Failed(_) => ShardSubscription {
                state: SubscriptionState::Finished,
                ..self
            },
            SubscriptionState::Finished => self,
        }
    }

    /// Starts to subscribe a shard's topics.
    pub fn begin() -> (r: Self)
        ensures
            r.state == SubscriptionState::Subscribing(ShardTopic::Frame),
            !r.announced,
    {
        ShardSubscription {
            state: SubscriptionState::Subscribing(ShardTopic::Frame),
            announced: false,
        }
    }

    /// What is due.
    pub fn action(&self) -> (r: SubscriptionAction)
        ensures
            r == self.due(),
    {
        match self.state {
            SubscriptionState::Subscribing(topic) => SubscriptionAction::Subscribe(topic),
            SubscriptionState::Counting => SubscriptionAction::CountPeers,
            SubscriptionState::Waiting { announce } => SubscriptionAction::Wait { announce },
            SubscriptionState::WaitingAfterFailure => SubscriptionAction::WaitAfterFailure,
            SubscriptionState::Starting => SubscriptionAction::StartEngine,
            SubscriptionState::Failed(topic) => SubscriptionAction::GiveUp(topic),
            SubscriptionState::Finished => SubscriptionAction::Finish,
        }
    }

    /// Takes what came of what was due.
    pub fn next(&mut self, event: SubscriptionEvent)
        ensures
            *final(self) == old(self).after(event),
    {
        match self.state {
            SubscriptionState::Subscribing(topic) => {
                if let SubscriptionEvent::Failed = event {
                    self.state = SubscriptionState::Failed(topic);
                } else {
                    self.state =
                    match topic {
                        ShardTopic::Frame => SubscriptionState::Subscribing(ShardTopic::Consensus),
                        ShardTopic::Consensus => SubscriptionState::Subscribing(ShardTopic::Prover),
                        ShardTopic::Prover => SubscriptionState::Subscribing(ShardTopic::Dispatch),
                        ShardTopic::Dispatch => SubscriptionState::Subscribing(ShardTopic::Cw),
                        ShardTopic::Cw => SubscriptionState::Counting,
                    };
                }
            },
            SubscriptionState::Counting => match event {
                SubscriptionEvent::Peers(peers) => {
                    if peers > 0 {
                        self.state = SubscriptionState::Starting;
                    } else {
                        self.state = SubscriptionState::Waiting { announce: !self.announced };
                        self.announced = true;
                    }
                },
                _ => {
                    self.state = SubscriptionState::WaitingAfterFailure;
                },
            },
            SubscriptionState::Waiting { announce: _ } => {
                self.state = SubscriptionState::Counting;
            },
            SubscriptionState::WaitingAfterFailure => {
                self.state = SubscriptionState::Counting;
            },
            SubscriptionState::Starting => {
                self.state = SubscriptionState::Finished;
            },
            SubscriptionState::Failed(_) => {
                self.state = SubscriptionState::Finished;
            },
            SubscriptionState::Finished => {},
        }
    }
}

/// A subscription after a row of events.
pub open spec fn subscription_after(
    start: ShardSubscription,
    events: Seq<SubscriptionEvent>,
) -> ShardSubscription
    decreases events.len(),
{
    if events.len() == 0 {
        start
    } else {
        subscription_after(start, events.drop_last()).after(events.last())
    }
}

/// The start of every subscription.
pub open spec fn subscription_start() -> ShardSubscription {
    ShardSubscription {
        state: SubscriptionState::Subscribing(ShardTopic::Frame),
        announced: false,
    }
}

/// The topics in the order in which they are subscribed.
pub open spec fn topics_in_order() -> Seq<ShardTopic> {
    seq![
        ShardTopic::Frame,
        ShardTopic::Consensus,
        ShardTopic::Prover,
        ShardTopic::Dispatch,
        ShardTopic::Cw,
    ]
}

/// At least one peer was counted.
pub open spec fn counts_a_peer(event: SubscriptionEvent) -> bool {
    match event {
        SubscriptionEvent::Peers(peers) => peers > 0,
        _ => false,
    }
}

/// The subscription after the first `n` events.
pub open spec fn subscription_at(events: Seq<SubscriptionEvent>, n: int) -> ShardSubscription {
    subscription_after(subscription_start(), events.take(n))
}

/// What is due after the first `n` events.
pub open spec fn due_after(events: Seq<SubscriptionEvent>, n: int) -> SubscriptionAction {
    subscription_at(events, n).due()
}

/// The first `m` topics were due in their order, and each was confirmed.
pub open spec fn topics_confirmed(events: Seq<SubscriptionEvent>, m: int) -> bool {
    forall|k: int|
        #![trigger due_after(events, k)]
        0 <= k < m ==> events[k] != SubscriptionEvent::Failed && due_after(events, k)
            == SubscriptionAction::Subscribe(topics_in_order()[k])
}

proof fn lemma_subscription_step(events: Seq<SubscriptionEvent>, n: int)
    requires
        0 < n <= events.len(),
    ensures
        subscription_at(events, n) == subscription_at(events, n - 1).after(events[n - 1]),
{
    assert(events.take(n).drop_last() =~= events.take(n - 1));
}

/// How far a subscription has come after `n` events: the topics before the one that is being
/// subscribed are confirmed, and once it counts peers all of them are.
spec fn progress(events: Seq<SubscriptionEvent>, n: int) -> bool {
    match subscription_at(events, n).state {
        SubscriptionState::Subscribing(topic) => {
            &&& n < 5
            &&& topic == topics_in_order()[n]
            &&& topics_confirmed(events, n)
        },
        SubscriptionState::Failed(_) => true,
        SubscriptionState::Finished => true,
        SubscriptionState::Starting => {
            &&& n > 5
            &&& topics_confirmed(events, 5)
            &&& counts_a_peer(events[n - 1])
            &&& due_after(events, n - 1) == SubscriptionAction::CountPeers
        },
        _ => n >= 5 && topics_confirmed(events, 5),
    }
}

proof fn lemma_subscription_progress(events: Seq<SubscriptionEvent>, n: int)
    requires
        0 <= n <= events.len(),
    ensures
        progress(events, n),
    decreases n,
{
    if n > 0 {
        lemma_subscription_progress(events, n - 1);
        lemma_subscription_step(events, n);
        let before = subscription_at(events, n - 1);
        if let SubscriptionState::Subscribing(topic) = before.state {
            if events[n - 1] != SubscriptionEvent::Failed {
                assert(topics_confirmed(events, n));
            }
        }
    }
}

/// A shard's engine is started only once all five topics were subscribed and confirmed, in their
/// order, and then a peer was counted on the simplex topic.
pub proof fn law_engine_starts_with_all_topics_and_a_peer(
    events: Seq<SubscriptionEvent>,
    n: int,
)
    requires
        0 <= n <= events.len(),
        due_after(events, n) == SubscriptionAction::StartEngine,
    ensures
        n > 5,
        topics_confirmed(events, 5),
        due_after(events, n - 1) == SubscriptionAction::CountPeers,
        counts_a_peer(events[n - 1]),
{
    lemma_subscription_progress(events, n);
}

/// What is finished stays finished.
proof fn lemma_finished_until(events: Seq<SubscriptionEvent>, i: int, j: int)
    requires
        0 <= i <= j <= events.len(),
        due_after(events, i) == SubscriptionAction::Finish,
    ensures
        due_after(events, j) == SubscriptionAction::Finish,
    decreases j - i,
{
    if i < j {
        lemma_finished_until(events, i, j - 1);
        lemma_subscription_step(events, j);
    }
}

/// Whatever happens, a shard's engine is started at most once, and nothing is due after its start.
pub proof fn law_engine_starts_at_most_once(events: Seq<SubscriptionEvent>, i: int, j: int)
    requires
        0 <= i < j <= events.len(),
        due_after(events, i) == SubscriptionAction::StartEngine,
    ensures
        due_after(events, j) == SubscriptionAction::Finish,
{
    lemma_subscription_step(events, i + 1);
    lemma_finished_until(events, i + 1, j);
}

/// A topic that could not be subscribed ends the subscription: the engine is never started.
pub proof fn law_a_refused_topic_ends_the_subscription(
    events: Seq<SubscriptionEvent>,
    i: int,
    j: int,
)
    requires
        0 <= i < j <= events.len(),
        due_after(events, i) is GiveUp,
    ensures
        due_after(events, j) == SubscriptionAction::Finish,
{
    lemma_subscription_step(events, i + 1);
    lemma_finished_until(events, i + 1, j);
}

/// The subscription after the first `n` events announces that peers are awaited.
pub open spec fn announces_at(events: Seq<SubscriptionEvent>, n: int) -> bool {
    due_after(events, n) == (SubscriptionAction::Wait { announce: true })
}

proof fn lemma_announced_stays(events: Seq<SubscriptionEvent>, n: int)
    requires
        0 < n <= events.len(),
    ensures
        subscription_at(events, n - 1).announced ==> subscription_at(events, n).announced,
        announces_at(events, n) ==> !subscription_at(events, n - 1).announced && subscription_at(
            events,
            n,
        ).announced,
{
    lemma_subscription_step(events, n);
}

proof fn lemma_announced_until(events: Seq<SubscriptionEvent>, i: int, j: int)
    requires
        0 <= i <= j <= events.len(),
        subscription_at(events, i).announced,
    ensures
        subscription_at(events, j).announced,
    decreases j - i,
{
    if i < j {
        lemma_announced_until(events, i, j - 1);
        lemma_announced_stays(events, j);
    }
}

/// Whatever happens, that peers are awaited is logged at most once.
pub proof fn law_waiting_is_announced_once(events: Seq<SubscriptionEvent>, i: int, j: int)
    requires
        0 <= i <= events.len(),
        0 <= j <= events.len(),
        announces_at(events, i),
        announces_at(events, j),
    ensures
        i == j,
{
    if i < j {
        if i > 0 {
            lemma_announced_stays(events, i);
        }
        lemma_announced_until(events, i, j - 1);
        lemma_announced_stays(events, j);
    }
    if j < i {
        if j > 0 {
            lemma_announced_stays(events, j);
        }
        lemma_announced_until(events, j, i - 1);
        lemma_announced_stays(events, i);
    }
}

/// From the start the five topics are subscribed in their order, as long as each is confirmed, and
/// with the fifth confirmed the peers of the simplex topic are counted.
pub proof fn law_confirmed_topics_lead_to_the_count(events: Seq<SubscriptionEvent>)
    ensures
        due_after(events, 0) == SubscriptionAction::Subscribe(ShardTopic::Frame),
        events.len() >= 1 && events[0] != SubscriptionEvent::Failed ==> due_after(events, 1)
            == SubscriptionAction::Subscribe(ShardTopic::Consensus),
        events.len() >= 2 && (forall|k: int|
            0 <= k < 2 ==> #[trigger] events[k] != SubscriptionEvent::Failed) ==> due_after(
            events,
            2,
        ) == SubscriptionAction::Subscribe(ShardTopic::Prover),
        events.len() >= 3 && (forall|k: int|
            0 <= k < 3 ==> #[trigger] events[k] != SubscriptionEvent::Failed) ==> due_after(
            events,
            3,
        ) == SubscriptionAction::Subscribe(ShardTopic::Dispatch),
        events.len() >= 4 && (forall|k: int|
            0 <= k < 4 ==> #[trigger] events[k] != SubscriptionEvent::Failed) ==> due_after(
            events,
            4,
        ) == SubscriptionAction::Subscribe(ShardTopic::Cw),
        events.len() >= 5 && (forall|k: int|
            0 <= k < 5 ==> #[trigger] events[k] != SubscriptionEvent::Failed) ==> due_after(
            events,
            5,
        ) == SubscriptionAction::CountPeers,
{
    assert(events.take(0) =~= Seq::<SubscriptionEvent>::empty());
    assert(subscription_at(events, 0) == subscription_start());
    if events.len() >= 1 && events[0] != SubscriptionEvent::Failed {
        lemma_subscription_step(events, 1);
        if events.len() >= 2 && events[1] != SubscriptionEvent::Failed {
            lemma_subscription_step(events, 2);
            if events.len() >= 3 && events[2] != SubscriptionEvent::Failed {
                lemma_subscription_step(events, 3);
                if events.len() >= 4 && events[3] != SubscriptionEvent::Failed {
                    lemma_subscription_step(events, 4);
                    if events.len() >= 5 && events[4] != SubscriptionEvent::Failed {
                        lemma_subscription_step(events, 5);
                    }
                }
            }
        }
    }
}

/// Whenever peers are counted and there is at least one, the engine is started next. With no peer, or
/// when the count fails, there is a wait, and the peers are counted again after it.
pub proof fn law_a_counted_peer_starts_the_engine(events: Seq<SubscriptionEvent>, n: int)
    requires
        0 <= n < events.len(),
        due_after(events, n) == SubscriptionAction::CountPeers,
    ensures
        events[n] matches SubscriptionEvent::Peers(peers) ==> peers >= 1 ==> due_after(
            events,
            n + 1,
        ) == SubscriptionAction::StartEngine,
        events[n] == SubscriptionEvent::Peers(0) ==> due_after(events, n + 1) is Wait,
        !(events[n] is Peers) ==> due_after(events, n + 1) == SubscriptionAction::WaitAfterFailure,
        due_after(events, n + 1) is StartEngine || due_after(events, n + 1) is Wait || due_after(
            events,
            n + 1,
        ) is WaitAfterFailure,
        n + 1 < events.len() && !(due_after(events, n + 1) is StartEngine) ==> due_after(
            events,
            n + 2,
        ) == SubscriptionAction::CountPeers,
{
    lemma_subscription_step(events, n + 1);
    if n + 1 < events.len() {
        lemma_subscription_step(events, n + 2);
    }
}

/// A topic whose subscription fails is given up at once.
pub proof fn law_a_failed_topic_is_given_up(events: Seq<SubscriptionEvent>, n: int)
    requires
        0 <= n < events.len(),
        due_after(events, n) is Subscribe,
        events[n] == SubscriptionEvent::Failed,
    ensures
        due_after(events, n) matches SubscriptionAction::Subscribe(topic) && due_after(
            events,
            n + 1,
        ) == SubscriptionAction::GiveUp(topic),
{
    lemma_subscription_step(events, n + 1);
}

/// The first wait for a peer announces itself, whenever it comes, and no later one does.
pub proof fn law_the_first_wait_is_announced(events: Seq<SubscriptionEvent>, n: int)
    requires
        0 <= n <= events.len(),
        due_after(events, n) is Wait,
    ensures
        due_after(events, n) == (SubscriptionAction::Wait { announce: true }) <==> forall|k: int|
            0 <= k < n ==> !(#[trigger] due_after(events, k) is Wait),
{
    lemma_wait_announced(events, n);
}

/// What was announced, by the waits before.
proof fn lemma_wait_announced(events: Seq<SubscriptionEvent>, n: int)
    requires
        0 <= n <= events.len(),
    ensures
        subscription_at(events, n).announced <==> exists|k: int|
            0 <= k <= n && #[trigger] due_after(events, k) is Wait,
        due_after(events, n) is Wait ==> (due_after(events, n) == (SubscriptionAction::Wait {
            announce: true,
        }) <==> forall|k: int| 0 <= k < n ==> !(#[trigger] due_after(events, k) is Wait)),
    decreases n,
{
    if n == 0 {
        assert(events.take(0) =~= Seq::<SubscriptionEvent>::empty());
        assert(subscription_at(events, 0) == subscription_start());
        assert(due_after(events, 0) == SubscriptionAction::Subscribe(ShardTopic::Frame));
    } else {
        lemma_wait_announced(events, n - 1);
        lemma_subscription_step(events, n);
        let before = subscription_at(events, n - 1);
        if before.announced {
            let k = choose|k: int| 0 <= k <= n - 1 && #[trigger] due_after(events, k) is Wait;
            assert(due_after(events, k) is Wait);
        }
        if due_after(events, n) is Wait {
            assert(before.state == SubscriptionState::Counting);
            assert(subscription_at(events, n).announced);
        } else {
            assert(subscription_at(events, n).announced == before.announced);
        }
    }
}

/// What follows what, in every subscription, wherever it stands: a counted peer starts the engine, a
/// count without one is followed by a wait that is announced unless one was, every wait by a count,
/// and the start of the engine and a failure by the end.
pub proof fn law_every_outcome_has_its_follow_up(
    at: ShardSubscription,
    event: SubscriptionEvent,
    peers: u64,
)
    ensures
        at.due() == SubscriptionAction::CountPeers && peers >= 1 ==> at.after(
            SubscriptionEvent::Peers(peers),
        ).due() == SubscriptionAction::StartEngine,
        at.due() == SubscriptionAction::CountPeers ==> at.after(SubscriptionEvent::Peers(0)).due()
            == (SubscriptionAction::Wait { announce: !at.announced }) && at.after(
            SubscriptionEvent::Peers(0),
        ).announced,
        at.due() == SubscriptionAction::CountPeers && !(event is Peers) ==> at.after(event).due()
            == SubscriptionAction::WaitAfterFailure,
        at.due() is Wait || at.due() is WaitAfterFailure ==> at.after(event).due()
            == SubscriptionAction::CountPeers,
        at.due() is StartEngine || at.due() is GiveUp || at.due() is Finish ==> at.after(event).due()
            == SubscriptionAction::Finish,
        at.due() matches SubscriptionAction::Subscribe(topic) ==> at.after(
            SubscriptionEvent::Failed,
        ).due() == SubscriptionAction::GiveUp(topic),
        at.due() == SubscriptionAction::Subscribe(ShardTopic::Cw) && event
            != SubscriptionEvent::Failed ==> at.after(event).due() == SubscriptionAction::CountPeers,
        at.announced ==> at.after(event).announced,
        !(at.due() is CountPeers) ==> at.after(event).announced == at.announced,
        event != SubscriptionEvent::Peers(0) ==> at.after(event).announced == at.announced,
{
}

} // verus!
