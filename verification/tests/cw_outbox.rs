use quil_shard::cw_outbox::{
    after_publish, retry_delay_ms, retryable_cw_publish_failure, OutboxStep, MAX_ATTEMPTS,
};

#[test]
fn cw_publish_retry_is_limited_to_missing_topic_peers() {
    assert!(retryable_cw_publish_failure("blossomsub publish failed: NoPeersSubscribedToTopic", 1));
    assert!(retryable_cw_publish_failure("NoPeersSubscribedToTopic", 7));
    assert!(!retryable_cw_publish_failure("NoPeersSubscribedToTopic", 8));
    assert!(!retryable_cw_publish_failure("p2p command channel closed", 1));
}

#[test]
fn retry_needs_the_whole_error_name() {
    assert!(!retryable_cw_publish_failure("NoPeersSubscribedToTopi", 1));
    assert!(!retryable_cw_publish_failure("", 1));
    assert!(retryable_cw_publish_failure("é NoPeersSubscribedToTopic ü", 1));
}

#[test]
fn retry_delay_doubles_and_saturates() {
    assert_eq!(retry_delay_ms(1), 250);
    assert_eq!(retry_delay_ms(2), 500);
    assert_eq!(retry_delay_ms(7), 16_000);
    assert_eq!(retry_delay_ms(8), 32_000);
    assert_eq!(retry_delay_ms(64), u64::MAX);
}

#[test]
fn outbox_delivers_retries_and_abandons() {
    assert_eq!(after_publish(1, None), OutboxStep::Delivered);
    assert_eq!(
        after_publish(3, Some("NoPeersSubscribedToTopic")),
        OutboxStep::RetryAfter { delay_ms: 1000, attempt: 4 }
    );
    assert_eq!(after_publish(8, Some("NoPeersSubscribedToTopic")), OutboxStep::Abandoned);
    assert_eq!(after_publish(1, Some("p2p command channel closed")), OutboxStep::Abandoned);
}

#[test]
fn outbox_gives_up_after_eight_publishes() {
    let mut attempt = 1;
    let mut publishes = 0;
    let mut waited = 0;
    loop {
        publishes += 1;
        match after_publish(attempt, Some("NoPeersSubscribedToTopic")) {
            OutboxStep::RetryAfter { delay_ms, attempt: next } => {
                waited += delay_ms;
                attempt = next;
            }
            OutboxStep::Abandoned => break,
            OutboxStep::Delivered => panic!("a failed publish is not delivered"),
        }
    }
    assert_eq!(publishes, MAX_ATTEMPTS);
    assert_eq!(waited, 31_750);
}
