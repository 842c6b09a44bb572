//! Whether a worker's store is fresh.
//!
//! A worker whose store holds no materialized state yet must get a persistent forest before its
//! first materialization, or it loses its commitment nodes on restart. What the store writes before
//! that (a schema marker, liveness and consensus metadata) does not count as state.

use vstd::prelude::*;

use crate::bytes::{law_seek_decides_prefix, seek_result, starts_with};

verus! {

/// The key-space bytes under which a store keeps materialized state and the cursors that go with
/// it.
#[derive(Clone, Copy, Debug, PartialEq, Eq, Structural)]
pub struct StateKeys {
    pub hypergraph_shard: u8,
    pub consensus: u8,
    pub consensus_materialized_cursor: u8,
    pub consensus_global_materialized_cursor: u8,
}

impl StateKeys {
    pub open spec fn hypergraph(self) -> Seq<u8> {
        seq![self.hypergraph_shard]
    }

    pub open spec fn app_cursor(self) -> Seq<u8> {
        seq![self.consensus, self.consensus_materialized_cursor]
    }

    pub open spec fn global_cursor(self) -> Seq<u8> {
        seq![self.consensus, self.consensus_global_materialized_cursor]
    }

    /// A key belongs to materialized state or to one of its cursors.
    pub open spec fn is_state_key(self, key: Seq<u8>) -> bool {
        ||| self.hypergraph().is_prefix_of(key)
        ||| self.app_cursor().is_prefix_of(key)
        ||| self.global_cursor().is_prefix_of(key)
    }

    /// The prefix of hypergraph state.
    pub fn hypergraph_prefix(&self) -> (r: Vec<u8>)
        ensures
            r@ == self.hypergraph(),
    {
        vec![self.hypergraph_shard]
    }

    /// The prefix of the cursor of materialized app-shard frames.
    pub fn app_cursor_prefix(&self) -> (r: Vec<u8>)
        ensures
            r@ == self.app_cursor(),
    {
        vec![self.consensus, self.consensus_materialized_cursor]
    }

    /// The prefix of the cursor of materialized global frames.
    pub fn global_cursor_prefix(&self) -> (r: Vec<u8>)
        ensures
            r@ == self.global_cursor(),
    {
        vec![self.consensus, self.consensus_global_materialized_cursor]
    }
}

/// What a seek to a prefix landed on carries the prefix.
pub open spec fn lands_on(found: Option<Seq<u8>>, prefix: Seq<u8>) -> bool {
    match found {
        Some(key) => prefix.is_prefix_of(key),
        None => false,
    }
}

/// The key that a seek landed on, as a byte string.
pub open spec fn found_key(found: Option<&[u8]>) -> Option<Seq<u8>> {
    match found {
        Some(key) => Some(key@),
        None => None,
    }
}

/// Whether the key that a seek to a prefix landed on carries the prefix.
pub fn found_prefix(found: Option<&[u8]>, prefix: &[u8]) -> (r: bool)
    ensures
        r == lands_on(found_key(found), prefix@),
{
    match found {
        Some(key) => starts_with(key, prefix),
        None => false,
    }
}

/// Whether a store is fresh, told by the keys that a seek to each of the three state prefixes landed
/// on.
pub fn store_has_no_materialized_state(
    keys: &StateKeys,
    at_hypergraph: Option<&[u8]>,
    at_app_cursor: Option<&[u8]>,
    at_global_cursor: Option<&[u8]>,
) -> (r: bool)
    ensures
        r == !(lands_on(found_key(at_hypergraph), keys.hypergraph()) || lands_on(
            found_key(at_app_cursor),
            keys.app_cursor(),
        ) || lands_on(found_key(at_global_cursor), keys.global_cursor())),
{
    let has_hypergraph_state = found_prefix(at_hypergraph, keys.hypergraph_prefix().as_slice());
    let has_app_cursor = found_prefix(at_app_cursor, keys.app_cursor_prefix().as_slice());
    let has_global_cursor = found_prefix(at_global_cursor, keys.global_cursor_prefix().as_slice());
    !(has_hypergraph_state || has_app_cursor || has_global_cursor)
}

/// The three seeks tell exactly whether the store holds a state key: other entries, such as metadata
/// that was written before the first materialized frame, do not make a store stale.
pub proof fn law_store_is_fresh_without_state_keys(
    keys: StateKeys,
    store: Set<Seq<u8>>,
    at_hypergraph: Option<Seq<u8>>,
    at_app_cursor: Option<Seq<u8>>,
    at_global_cursor: Option<Seq<u8>>,
)
    requires
        seek_result(store, keys.hypergraph(), at_hypergraph),
        seek_result(store, keys.app_cursor(), at_app_cursor),
        seek_result(store, keys.global_cursor(), at_global_cursor),
    ensures
        !(lands_on(at_hypergraph, keys.hypergraph()) || lands_on(at_app_cursor, keys.app_cursor())
            || lands_on(at_global_cursor, keys.global_cursor())) <==> forall|key: Seq<u8>| #[trigger]
            store.contains(key) ==> !keys.is_state_key(key),
{
    law_seek_decides_prefix(store, keys.hypergraph(), at_hypergraph);
    law_seek_decides_prefix(store, keys.app_cursor(), at_app_cursor);
    law_seek_decides_prefix(store, keys.global_cursor(), at_global_cursor);
}

/// Which entries make a store stale, key by key: those whose first byte is that of hypergraph state,
/// and those whose first two bytes are those of one of the two cursors. The three seeks find out
/// whether there is one.
pub proof fn law_state_keys_make_a_store_stale(
    keys: StateKeys,
    store: Set<Seq<u8>>,
    at_hypergraph: Option<Seq<u8>>,
    at_app_cursor: Option<Seq<u8>>,
    at_global_cursor: Option<Seq<u8>>,
)
    requires
        seek_result(store, seq![keys.hypergraph_shard], at_hypergraph),
        seek_result(
            store,
            seq![keys.consensus, keys.consensus_materialized_cursor],
            at_app_cursor,
        ),
        seek_result(
            store,
            seq![keys.consensus, keys.consensus_global_materialized_cursor],
            at_global_cursor,
        ),
    ensures
        (lands_on(at_hypergraph, keys.hypergraph()) || lands_on(at_app_cursor, keys.app_cursor())
            || lands_on(at_global_cursor, keys.global_cursor())) <==> exists|key: Seq<u8>| #[trigger]
            store.contains(key) && (key.len() >= 1 && key[0] == keys.hypergraph_shard || key.len()
                >= 2 && key[0] == keys.consensus && (key[1] == keys.consensus_materialized_cursor
                || key[1] == keys.consensus_global_materialized_cursor)),
{
    law_store_is_fresh_without_state_keys(
        keys,
        store,
        at_hypergraph,
        at_app_cursor,
        at_global_cursor,
    );
    assert forall|key: Seq<u8>| #[trigger] keys.is_state_key(key) <==> (key.len() >= 1 && key[0]
        == keys.hypergraph_shard || key.len() >= 2 && key[0] == keys.consensus && (key[1]
        == keys.consensus_materialized_cursor || key[1]
        == keys.consensus_global_materialized_cursor)) by {
        if key.len() >= 1 && key[0] == keys.hypergraph_shard {
            assert(keys.hypergraph() =~= key.subrange(0, 1));
        }
        if key.len() >= 2 && key[0] == keys.consensus && key[1]
            == keys.consensus_materialized_cursor {
            assert(keys.app_cursor() =~= key.subrange(0, 2));
        }
        if key.len() >= 2 && key[0] == keys.consensus && key[1]
            == keys.consensus_global_materialized_cursor {
            assert(keys.global_cursor() =~= key.subrange(0, 2));
        }
        if keys.hypergraph().is_prefix_of(key) {
            assert(key.subrange(0, 1)[0] == key[0]);
        }
        if keys.app_cursor().is_prefix_of(key) {
            assert(key.subrange(0, 2)[0] == key[0] && key.subrange(0, 2)[1] == key[1]);
        }
        if keys.global_cursor().is_prefix_of(key) {
            assert(key.subrange(0, 2)[0] == key[0] && key.subrange(0, 2)[1] == key[1]);
        }
    }
}

/// A seek that landed nowhere finds no prefix, and one that landed on a key finds exactly the prefixes
/// whose bytes the key begins with.
pub proof fn law_a_prefix_is_found_by_its_bytes(key: &[u8], prefix: Seq<u8>)
    ensures
        !lands_on(found_key(None), prefix),
        lands_on(found_key(Some(key)), prefix) <==> prefix.len() <= key@.len() && forall|i: int|
            0 <= i < prefix.len() ==> #[trigger] prefix[i] == key@[i],
{
    if prefix.len() <= key@.len() && (forall|i: int|
        0 <= i < prefix.len() ==> #[trigger] prefix[i] == key@[i]) {
        assert(prefix =~= key@.subrange(0, prefix.len() as int));
    }
    if prefix.is_prefix_of(key@) {
        assert forall|i: int| 0 <= i < prefix.len() implies #[trigger] prefix[i] == key@[i] by {
            assert(key@.subrange(0, prefix.len() as int)[i] == key@[i]);
        }
    }
}

} // verus!
