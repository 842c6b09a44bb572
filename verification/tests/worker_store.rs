use std::collections::BTreeSet;

use quil_shard::worker_store::{found_prefix, store_has_no_materialized_state, StateKeys};

const KEYS: StateKeys = StateKeys {
    hypergraph_shard: 0x03,
    consensus: 0x0b,
    consensus_materialized_cursor: 0x05,
    consensus_global_materialized_cursor: 0x07,
};

fn seek(store: &BTreeSet<Vec<u8>>, prefix: Vec<u8>) -> Option<Vec<u8>> {
    store.range(prefix..).next().cloned()
}

fn is_fresh(entries: &[&[u8]]) -> bool {
    let store: BTreeSet<Vec<u8>> = entries.iter().map(|e| e.to_vec()).collect();
    let hypergraph = seek(&store, KEYS.hypergraph_prefix());
    let app = seek(&store, KEYS.app_cursor_prefix());
    let global = seek(&store, KEYS.global_cursor_prefix());
    store_has_no_materialized_state(&KEYS, hypergraph.as_deref(), app.as_deref(), global.as_deref())
}

#[test]
fn metadata_alone_leaves_a_store_fresh() {
    assert!(is_fresh(&[]));
    assert!(is_fresh(&[&[0x00, 0x01]]));
    // Consensus state that is no cursor.
    assert!(is_fresh(&[&[0x0b, 0x00, 0x42], &[0x0b, 0x06], &[0x0b], &[0xff]]));
}

#[test]
fn state_and_cursors_make_a_store_stale() {
    assert!(!is_fresh(&[&[0x03]]));
    assert!(!is_fresh(&[&[0x03, 0x99], &[0x00]]));
    assert!(!is_fresh(&[&[0x0b, 0x05, 0x01]]));
    assert!(!is_fresh(&[&[0x0b, 0x07]]));
}

#[test]
fn a_prefix_is_found_at_the_front_only() {
    assert!(found_prefix(Some(&[1, 2, 3]), &[1, 2]));
    assert!(!found_prefix(Some(&[1]), &[1, 2]));
    assert!(!found_prefix(Some(&[0, 1, 2]), &[1, 2]));
    assert!(!found_prefix(None, &[]));
    assert_eq!(KEYS.app_cursor_prefix(), vec![0x0b, 0x05]);
}
