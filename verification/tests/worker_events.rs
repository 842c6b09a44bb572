use quil_shard::worker_events::{
    coverage_publish_allowed, on_worker_event, MasterAction, ShardSubscription, ShardTopic,
    SubscriptionAction, SubscriptionEvent, WorkerToMaster,
};

fn traffic() -> Vec<WorkerToMaster> {
    let filter = vec![0xaa];
    vec![
        WorkerToMaster::ShardFrameFinalized {
            core_id: 1,
            filter: filter.clone(),
            header_canonical_bytes: vec![1],
        },
        WorkerToMaster::FrameProduced { core_id: 1, filter: filter.clone(), frame_data: vec![2] },
        WorkerToMaster::FullFrameProduced { core_id: 1, filter: filter.clone(), frame_data: vec![3] },
        WorkerToMaster::CwConsensus {
            core_id: 1,
            filter: filter.clone(),
            channel: 2,
            bytes: vec![4],
        },
        WorkerToMaster::VoteProduced { core_id: 1, filter: filter.clone(), vote_data: vec![5] },
        WorkerToMaster::TimeoutProduced { core_id: 1, filter, timeout_data: vec![6] },
    ]
}

#[test]
fn shard_work_goes_on_its_topic() {
    let actions: Vec<Vec<MasterAction>> =
        traffic().iter().map(|event| on_worker_event(event, false)).collect();
    assert_eq!(
        actions,
        vec![
            vec![MasterAction::SubmitRewardProof { header_canonical_bytes: vec![1] }],
            vec![MasterAction::Publish { topic: ShardTopic::Consensus, data: vec![2] }],
            vec![
                MasterAction::MirrorFrame { frame_data: vec![3] },
                MasterAction::Publish { topic: ShardTopic::Frame, data: vec![3] },
            ],
            vec![MasterAction::PublishCw { channel: 2, bytes: vec![4] }],
            vec![MasterAction::Publish { topic: ShardTopic::Consensus, data: vec![5] }],
            vec![MasterAction::Publish { topic: ShardTopic::Consensus, data: vec![6] }],
        ]
    );
}

#[test]
fn nothing_leaves_the_node_during_a_halt() {
    for event in traffic() {
        assert!(on_worker_event(&event, true).is_empty());
    }
    assert!(!coverage_publish_allowed(true));
    assert!(coverage_publish_allowed(false));
}

#[test]
fn shards_come_and_go_during_a_halt_too() {
    for halted in [false, true] {
        let up = WorkerToMaster::ShardActivated { core_id: 1, filter: vec![1] };
        assert_eq!(
            on_worker_event(&up, halted),
            vec![
                MasterAction::SetHalted(halted),
                MasterAction::RegisterEngine,
                MasterAction::Subscribe,
            ]
        );
        let down = WorkerToMaster::ShardDeactivated { core_id: 1, filter: vec![1] };
        assert_eq!(
            on_worker_event(&down, halted),
            vec![
                MasterAction::DeregisterEngine,
                MasterAction::Unsubscribe(ShardTopic::Frame),
                MasterAction::Unsubscribe(ShardTopic::Consensus),
                MasterAction::Unsubscribe(ShardTopic::Prover),
                MasterAction::Unsubscribe(ShardTopic::Dispatch),
            ]
        );
    }
}

#[test]
fn informational_events_are_passed_over() {
    assert!(on_worker_event(&WorkerToMaster::Ready { core_id: 1 }, false).is_empty());
    assert!(on_worker_event(&WorkerToMaster::ShardHeartbeat { core_id: 1 }, false).is_empty());
}

#[test]
fn engine_starts_once_all_topics_are_confirmed_and_a_peer_is_there() {
    let mut subscription = ShardSubscription::begin();
    for topic in [
        ShardTopic::Frame,
        ShardTopic::Consensus,
        ShardTopic::Prover,
        ShardTopic::Dispatch,
        ShardTopic::Cw,
    ] {
        assert_eq!(subscription.action(), SubscriptionAction::Subscribe(topic));
        subscription.next(SubscriptionEvent::Done);
    }
    let mut announced = Vec::new();
    for reply in [
        SubscriptionEvent::Failed,
        SubscriptionEvent::Peers(0),
        SubscriptionEvent::Peers(0),
        SubscriptionEvent::Failed,
        SubscriptionEvent::Peers(2),
    ] {
        assert_eq!(subscription.action(), SubscriptionAction::CountPeers);
        subscription.next(reply);
        if subscription.action() != SubscriptionAction::StartEngine {
            announced.push(subscription.action());
            subscription.next(SubscriptionEvent::Done);
        }
    }
    assert_eq!(
        announced,
        vec![
            SubscriptionAction::WaitAfterFailure,
            SubscriptionAction::Wait { announce: true },
            SubscriptionAction::Wait { announce: false },
            SubscriptionAction::WaitAfterFailure,
        ]
    );
    assert_eq!(subscription.action(), SubscriptionAction::StartEngine);
    for event in
        [SubscriptionEvent::Done, SubscriptionEvent::Peers(1), SubscriptionEvent::Failed]
    {
        subscription.next(event);
        assert_eq!(subscription.action(), SubscriptionAction::Finish);
    }
}

#[test]
fn a_refused_topic_ends_the_subscription() {
    let mut subscription = ShardSubscription::begin();
    subscription.next(SubscriptionEvent::Done);
    subscription.next(SubscriptionEvent::Failed);
    assert_eq!(subscription.action(), SubscriptionAction::GiveUp(ShardTopic::Consensus));
    subscription.next(SubscriptionEvent::Done);
    assert_eq!(subscription.action(), SubscriptionAction::Finish);
}
