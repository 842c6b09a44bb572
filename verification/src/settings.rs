//! What a node's configuration says about its workers.

use vstd::prelude::*;
use vstd::string::{StrSliceExecFns, StringExecFns};

use crate::text::{
    decimal, lemma_decimal_is_unique, parse_unsigned, pieces, push_decimal, same_text, split_text,
    text_views, unsigned_value,
};

verus! {

/// The port that the master listens on for its workers when none is configured.
pub const DEFAULT_MASTER_PORT: u16 = 8340;

/// How many workers a machine of unknown size is taken to have room for, the master included.
pub const ASSUMED_PARALLELISM: u32 = 4;

/// Whether the node picks shards for their reward alone.
pub fn reward_greedy(reward_strategy: &str) -> (r: bool)
    ensures
        r == (reward_strategy@ == "reward-greedy"@),
{
    same_text(reward_strategy, "reward-greedy")
}

/// How many active provers a shard needs before its leader produces frames. On the main network, a
/// single prover must not drive consensus alone; on a test network, one prover is a valid setup.
pub open spec fn provers_needed(network: u8) -> u64 {
    if network == 0 {
        3
    } else {
        1
    }
}

/// How many active provers a shard needs before its leader produces frames.
pub fn min_active_provers_for_propose(network: u8) -> (r: u64)
    ensures
        r == provers_needed(network),
{
    if network == 0 {
        3
    } else {
        1
    }
}

/// The position of the first piece that is `tcp` and has a piece after it.
pub open spec fn tcp_position(parts: Seq<Seq<char>>) -> Option<int> {
    if exists|i: int| is_tcp_position(parts, i) {
        Some(
            choose|i: int|
                is_tcp_position(parts, i) && forall|j: int| 0 <= j < i ==> !#[trigger] is_tcp_position(
                    parts,
                    j,
                ),
        )
    } else {
        None
    }
}

pub open spec fn is_tcp_position(parts: Seq<Seq<char>>, i: int) -> bool {
    0 <= i && i + 1 < parts.len() && parts[i] == "tcp"@
}

/// The port that a listen address names: what follows the first `tcp`, where that is a port number,
/// else the default.
pub open spec fn port_of(multiaddr: Seq<char>) -> u16 {
    let parts = pieces(multiaddr, '/');
    match tcp_position(parts) {
        Some(i) => match unsigned_value(parts[i + 1], u16::MAX as u64) {
            Some(port) => port as u16,
            None => DEFAULT_MASTER_PORT,
        },
        None => DEFAULT_MASTER_PORT,
    }
}

/// The port that the master listens on for its workers, off its stream listen address.
pub fn master_port(stream_listen_multiaddr: &str) -> (r: u16)
    ensures
        r == port_of(stream_listen_multiaddr@),
{
    let parts = split_text(stream_listen_multiaddr, '/');
    let ghost views = text_views(parts@);
    let mut i: usize = 0;
    while i < parts.len() && i + 1 < parts.len()
        invariant
            i <= parts@.len(),
            views == text_views(parts@),
            views == pieces(stream_listen_multiaddr@, '/'),
            forall|j: int| 0 <= j < i ==> !#[trigger] is_tcp_position(views, j),
        decreases parts@.len() - i,
    {
        assert(views[i as int] == parts@[i as int]@);
        if same_text(parts[i].as_str(), "tcp") {
            assert(is_tcp_position(views, i as int));
            proof {
                let k = tcp_position(views)->0;
                assert(k == i) by {
                    assert(is_tcp_position(views, k));
                    if k < i {
                        assert(!is_tcp_position(views, k));
                    }
                }
            }
            assert(views[i + 1] == parts@[i + 1]@);
            return match parse_unsigned(parts[i + 1].as_str(), u16::MAX as u64) {
                Some(port) => port as u16,
                None => DEFAULT_MASTER_PORT,
            };
        }
        i += 1;
    }
    assert forall|j: int| !is_tcp_position(views, j) by {
        if is_tcp_position(views, j) {
            assert(j < i);
        }
    }
    DEFAULT_MASTER_PORT
}

/// The endpoint that workers reach the master under.
pub fn master_endpoint(port: u16) -> (r: String)
    ensures
        r@ == "http://0.0.0.0:"@ + decimal(port as nat),
{
    let mut r = String::new();
    r.append("http://0.0.0.0:");
    push_decimal(&mut r, port as u64);
    assert(r@ =~= "http://0.0.0.0:"@ + decimal(port as nat));
    r
}

/// How many workers run on this machine: as many as configured, else one for each core but the one
/// that the master keeps, and at least one.
pub open spec fn workers_wanted(configured: i32, parallelism: Option<u32>) -> u32 {
    if configured > 0 {
        configured as u32
    } else {
        let cores = match parallelism {
            Some(n) => n,
            None => ASSUMED_PARALLELISM,
        };
        if cores > 2 {
            (cores - 1) as u32
        } else {
            1
        }
    }
}

/// How many workers run on this machine. `parallelism` is how many threads the machine runs at a
/// time, where that is known.
pub fn worker_count(configured: i32, parallelism: Option<u32>) -> (r: u32)
    ensures
        r == workers_wanted(configured, parallelism),
{
    if configured > 0 {
        return configured as u32;
    }
    let cores: u32 = match parallelism {
        Some(n) => n,
        None => ASSUMED_PARALLELISM,
    };
    let spare: u32 = cores.saturating_sub(1);
    if spare > 1 {
        spare
    } else {
        1
    }
}

/// Where a worker keeps its store.
#[derive(Clone, Debug, Eq, PartialEq)]
pub enum WorkerStorePath {
    /// At this path.
    At(String),
    /// In the directory `leaf` below `base`.
    Below { base: String, leaf: String },
}

/// What the logic sees of a worker's store path.
pub enum WorkerStorePathView {
    At(Seq<char>),
    Below { base: Seq<char>, leaf: Seq<char> },
}

impl WorkerStorePath {
    pub open spec fn view(self) -> WorkerStorePathView {
        match self {
            WorkerStorePath::At(path) => WorkerStorePathView::At(path@),
            WorkerStorePath::Below { base, leaf } =>
                WorkerStorePathView::Below { base: base@, leaf: leaf@ },
        }
    }
}

/// A path pattern with every `%d` in it replaced by the core number.
pub open spec fn pattern_filled(pattern: Seq<char>, core_id: u32) -> Seq<char>
    decreases pattern.len(),
{
    if pattern.len() == 0 {
        seq![]
    } else if pattern.len() >= 2 && pattern[0] == '%' && pattern[1] == 'd' {
        decimal(core_id as nat) + pattern_filled(pattern.skip(2), core_id)
    } else {
        seq![pattern[0]] + pattern_filled(pattern.skip(1), core_id)
    }
}

/// Replaces every `%d` in a path pattern by the core number.
pub fn fill_pattern(pattern: &str, core_id: u32) -> (r: String)
    ensures
        r@ == pattern_filled(pattern@, core_id),
{
    let n: usize = pattern.unicode_len();
    let mut r = String::new();
    let mut i: usize = 0;
    assert(pattern@.skip(0) =~= pattern@);
    assert(r@ + pattern_filled(pattern@.skip(0), core_id) =~= pattern_filled(pattern@, core_id));
    while i < n
        invariant
            i <= n,
            n == pattern@.len(),
            r@ + pattern_filled(pattern@.skip(i as int), core_id) == pattern_filled(
                pattern@,
                core_id,
            ),
        decreases n - i,
    {
        let ghost rest = pattern@.skip(i as int);
        let ghost before = r@;
        if n - i >= 2 && pattern.get_char(i) == '%' && pattern.get_char(i + 1) == 'd' {
            push_decimal(&mut r, core_id as u64);
            assert(rest.skip(2) =~= pattern@.skip(i + 2));
            i += 2;
        } else {
            r.append(pattern.substring_char(i, i + 1));
            assert(pattern@.subrange(i as int, i + 1) =~= seq![rest[0]]);
            assert(rest.skip(1) =~= pattern@.skip(i + 1));
            i += 1;
        }
        assert(r@ + pattern_filled(pattern@.skip(i as int), core_id) =~= before + pattern_filled(
            rest,
            core_id,
        ));
    }
    assert(pattern@.skip(i as int) =~= Seq::<char>::empty());
    assert(r@ =~= pattern_filled(pattern@, core_id));
    r
}

/// Where a worker keeps its store: at the path configured for its core, where there is one that is
/// not empty; else at the configured pattern, filled with its core number; else in a directory of its
/// own below the node's store.
pub open spec fn store_path_of(
    core_id: u32,
    worker_paths: Seq<Seq<char>>,
    worker_path_prefix: Seq<char>,
    db_path: Seq<char>,
) -> WorkerStorePathView {
    let slot = if core_id == 0 {
        0int
    } else {
        core_id - 1
    };
    if slot < worker_paths.len() && worker_paths[slot].len() > 0 {
        WorkerStorePathView::At(worker_paths[slot])
    } else if worker_path_prefix.len() > 0 {
        WorkerStorePathView::At(pattern_filled(worker_path_prefix, core_id))
    } else {
        WorkerStorePathView::Below {
            base: if db_path.len() == 0 {
                ".config/store"@
            } else {
                db_path
            },
            leaf: "worker-"@ + decimal(core_id as nat),
        }
    }
}

/// Where the worker of a core keeps its store.
pub fn worker_store_path(
    core_id: u32,
    worker_paths: &Vec<String>,
    worker_path_prefix: &str,
    db_path: &str,
) -> (r: WorkerStorePath)
    ensures
        r@ == store_path_of(core_id, text_views(worker_paths@), worker_path_prefix@, db_path@),
{
    let slot: usize = core_id.saturating_sub(1) as usize;
    if slot < worker_paths.len() {
        assert(text_views(worker_paths@)[slot as int] == worker_paths@[slot as int]@);
        if !worker_paths[slot].as_str().is_empty() {
            return WorkerStorePath::At(worker_paths[slot].clone());
        }
    }
    if !worker_path_prefix.is_empty() {
        return WorkerStorePath::At(fill_pattern(worker_path_prefix, core_id));
    }
    let base: String = if db_path.is_empty() {
        ".config/store".to_owned()
    } else {
        db_path.to_owned()
    };
    let mut leaf = String::new();
    leaf.append("worker-");
    push_decimal(&mut leaf, core_id as u64);
    assert(leaf@ =~= "worker-"@ + decimal(core_id as nat));
    WorkerStorePath::Below { base, leaf }
}

/// Where no path is configured for workers, no two of them share a store.
pub proof fn law_default_stores_are_not_shared(a: u32, b: u32, db_path: Seq<char>)
    requires
        a != b,
    ensures
        store_path_of(a, seq![], seq![], db_path) != store_path_of(b, seq![], seq![], db_path),
{
    let x = "worker-"@ + decimal(a as nat);
    let y = "worker-"@ + decimal(b as nat);
    if x == y {
        assert(x.skip("worker-"@.len() as int) =~= decimal(a as nat));
        assert(y.skip("worker-"@.len() as int) =~= decimal(b as nat));
        lemma_decimal_is_unique(a as nat, b as nat);
    }
}

/// The app that a shard filter covers: its first thirty-two bytes, where it has as many.
pub fn covered_app(filter: &[u8]) -> (r: Option<[u8; 32]>)
    ensures
        r is Some <==> filter@.len() >= 32,
        r matches Some(app) ==> app@ == filter@.take(32),
{
    if filter.len() < 32 {
        return None;
    }
    let mut app: [u8; 32] = [0u8; 32];
    let mut i: usize = 0;
    while i < 32
        invariant
            i <= 32 <= filter@.len(),
            forall|k: int| 0 <= k < i ==> app@[k] == filter@[k],
        decreases 32 - i,
    {
        app[i] = filter[i];
        i += 1;
    }
    assert(app@ =~= filter@.take(32));
    Some(app)
}

/// The port is the number behind the first `tcp` of the address, where that is a port number, whatever
/// else the address holds; in every other case it is the default.
pub proof fn law_the_port_follows_the_first_tcp(multiaddr: Seq<char>, i: int)
    ensures
        ({
            let parts = pieces(multiaddr, '/');
            0 <= i && i + 1 < parts.len() && parts[i] == "tcp"@ && (forall|j: int|
                0 <= j < i ==> #[trigger] parts[j] != "tcp"@) ==> port_of(multiaddr) == (
            match unsigned_value(parts[i + 1], 65535) {
                Some(port) => port,
                None => 8340,
            })
        }),
        ({
            let parts = pieces(multiaddr, '/');
            (forall|j: int| 0 <= j && j + 1 < parts.len() ==> #[trigger] parts[j] != "tcp"@)
                ==> port_of(multiaddr) == 8340
        }),
{
    let parts = pieces(multiaddr, '/');
    if 0 <= i && i + 1 < parts.len() && parts[i] == "tcp"@ && (forall|j: int|
        0 <= j < i ==> #[trigger] parts[j] != "tcp"@) {
        assert(is_tcp_position(parts, i));
        assert forall|j: int| 0 <= j < i implies !#[trigger] is_tcp_position(parts, j) by {
            assert(parts[j] != "tcp"@);
        }
        let k = tcp_position(parts)->0;
        assert(is_tcp_position(parts, k));
        assert(k == i) by {
            if k < i {
                assert(!is_tcp_position(parts, k));
            }
            if i < k {
                assert(!is_tcp_position(parts, i));
            }
        }
    }
    if forall|j: int| 0 <= j && j + 1 < parts.len() ==> #[trigger] parts[j] != "tcp"@ {
        assert forall|j: int| !is_tcp_position(parts, j) by {
            if 0 <= j && j + 1 < parts.len() {
                assert(parts[j] != "tcp"@);
            }
        }
    }
}

/// As many workers run as are configured. Else one core is kept for the master and every other runs a
/// worker, and there is always one worker; a machine of unknown size counts as one of four cores.
pub proof fn law_every_core_but_the_masters_runs_a_worker(configured: i32, cores: u32)
    ensures
        configured > 0 ==> workers_wanted(configured, Some(cores)) == configured && workers_wanted(
            configured,
            None,
        ) == configured,
        configured <= 0 && cores >= 2 ==> workers_wanted(configured, Some(cores)) == cores - 1,
        configured <= 0 && cores < 2 ==> workers_wanted(configured, Some(cores)) == 1,
        configured <= 0 ==> workers_wanted(configured, None) == 3,
{
}

/// On the main network no fewer than three provers make a shard propose; on any other one is enough.
pub proof fn law_a_single_prover_proposes_on_test_networks_alone(network: u8)
    ensures
        network == 0 <==> provers_needed(network) > 1,
        network == 0 ==> provers_needed(network) == 3,
        network != 0 ==> provers_needed(network) == 1,
{
}

/// A pattern without a placeholder stays as it is.
pub proof fn law_a_pattern_without_placeholder_is_a_path(pattern: Seq<char>, core_id: u32)
    requires
        forall|i: int|
            0 <= i && i + 1 < pattern.len() && #[trigger] pattern[i] == '%' ==> pattern[i + 1]
                != 'd',
    ensures
        pattern_filled(pattern, core_id) == pattern,
    decreases pattern.len(),
{
    if pattern.len() > 0 {
        let rest = pattern.skip(1);
        assert forall|i: int|
            0 <= i && i + 1 < rest.len() && #[trigger] rest[i] == '%' implies rest[i + 1]
            != 'd' by {
            assert(pattern[i + 1] == rest[i]);
        }
        law_a_pattern_without_placeholder_is_a_path(rest, core_id);
        assert(pattern[0] == '%' && pattern.len() > 1 ==> pattern[1] != 'd');
        assert(pattern =~= seq![pattern[0]] + rest);
    } else {
        assert(pattern_filled(pattern, core_id) =~= pattern);
    }
}

/// A placeholder anywhere in a pattern becomes the core number, and what stands before and behind it
/// is filled as it would be alone.
pub proof fn law_every_placeholder_becomes_the_core_number(
    front: Seq<char>,
    back: Seq<char>,
    core_id: u32,
)
    ensures
        pattern_filled(front + seq!['%', 'd'] + back, core_id) == pattern_filled(front, core_id)
            + decimal(core_id as nat) + pattern_filled(back, core_id),
    decreases front.len(),
{
    let whole = front + seq!['%', 'd'] + back;
    if front.len() == 0 {
        assert(whole[0] == '%' && whole[1] == 'd');
        assert(whole.skip(2) =~= back);
        assert(pattern_filled(whole, core_id) =~= pattern_filled(front, core_id) + decimal(
            core_id as nat,
        ) + pattern_filled(back, core_id));
    } else if front.len() >= 2 && front[0] == '%' && front[1] == 'd' {
        law_every_placeholder_becomes_the_core_number(front.skip(2), back, core_id);
        assert(whole[0] == '%' && whole[1] == 'd');
        assert(whole.skip(2) =~= front.skip(2) + seq!['%', 'd'] + back);
        assert(pattern_filled(whole, core_id) =~= pattern_filled(front, core_id) + decimal(
            core_id as nat,
        ) + pattern_filled(back, core_id));
    } else {
        law_every_placeholder_becomes_the_core_number(front.skip(1), back, core_id);
        assert(whole[0] == front[0]);
        if front.len() >= 2 {
            assert(whole[1] == front[1]);
        } else {
            assert(whole[1] == '%');
        }
        assert(whole.skip(1) =~= front.skip(1) + seq!['%', 'd'] + back);
        assert(pattern_filled(whole, core_id) =~= pattern_filled(front, core_id) + decimal(
            core_id as nat,
        ) + pattern_filled(back, core_id));
    }
}

/// The path that is configured for a worker's core goes before everything else; without one the
/// pattern does, filled; without a pattern the worker's store is a directory of its own in the node's
/// store, or in the default one.
pub proof fn law_the_nearest_path_is_taken(
    core_id: u32,
    paths: Seq<Seq<char>>,
    pattern: Seq<char>,
    db_path: Seq<char>,
)
    ensures
        core_id >= 1 && core_id <= paths.len() && paths[core_id - 1].len() > 0 ==> store_path_of(
            core_id,
            paths,
            pattern,
            db_path,
        ) == WorkerStorePathView::At(paths[core_id - 1]),
        core_id == 0 && paths.len() > 0 && paths[0].len() > 0 ==> store_path_of(
            core_id,
            paths,
            pattern,
            db_path,
        ) == WorkerStorePathView::At(paths[0]),
        core_id >= 1 && (core_id > paths.len() || paths[core_id - 1].len() == 0) && pattern.len() > 0
            ==> store_path_of(core_id, paths, pattern, db_path) == WorkerStorePathView::At(
            pattern_filled(pattern, core_id),
        ),
        core_id == 0 && (paths.len() == 0 || paths[0].len() == 0) && pattern.len() > 0
            ==> store_path_of(core_id, paths, pattern, db_path) == WorkerStorePathView::At(
            pattern_filled(pattern, core_id),
        ),
        pattern.len() == 0 && (core_id >= 1 && (core_id > paths.len() || paths[core_id - 1].len()
            == 0) || core_id == 0 && (paths.len() == 0 || paths[0].len() == 0)) ==> store_path_of(
            core_id,
            paths,
            pattern,
            db_path,
        ) == (WorkerStorePathView::Below {
            base: if db_path.len() > 0 {
                db_path
            } else {
                ".config/store"@
            },
            leaf: "worker-"@ + decimal(core_id as nat),
        }),
{
}

/// A store path reads as it is written.
pub proof fn law_store_paths_read_as_written(a: String, b: String)
    ensures
        WorkerStorePath::At(a)@ == WorkerStorePathView::At(a@),
        (WorkerStorePath::Below { base: a, leaf: b })@ == (WorkerStorePathView::Below {
            base: a@,
            leaf: b@,
        }),
{
}

} // verus!
