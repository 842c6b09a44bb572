//! The pool of local workers at startup: persisted workers are restored, and every configured core
//! that is still absent gets an idle worker.
//!
//! The worker manager acts, this module decides what it is asked to do, and in which order.

use std::collections::HashSet;
use vstd::prelude::*;
use vstd::slice::slice_to_vec;

use crate::worker_manager::{lemma_went_on_joins, listed, Asked, WorkerManager};

verus! {

/// A worker as it was persisted. An empty filter is an idle worker slot, not an absent worker.
#[derive(Clone, Debug, Eq, PartialEq)]
pub struct PersistedWorkerInfo {
    pub core_id: u32,
    pub filter: Vec<u8>,
    pub manually_managed: bool,
    pub allocated: bool,
    pub pending_filter_frame: u64,
}

/// What the worker manager is asked to do.
#[derive(Clone, Debug, Eq, PartialEq)]
pub enum PoolCommand {
    SetWorkerFilter { core_id: u32, filter: Vec<u8>, allocated: bool },
    SetManuallyManaged { core_id: u32, manually_managed: bool },
    SetPendingFilterFrame { core_id: u32, frame: u64 },
    AllocateWorker { core_id: u32, filter: Vec<u8> },
}

/// What the logic sees of a command.
pub enum CommandView {
    SetWorkerFilter { core_id: u32, filter: Seq<u8>, allocated: bool },
    SetManuallyManaged { core_id: u32, manually_managed: bool },
    SetPendingFilterFrame { core_id: u32, frame: u64 },
    AllocateWorker { core_id: u32, filter: Seq<u8> },
}

impl PoolCommand {
    pub open spec fn view(self) -> CommandView {
        match self {
            PoolCommand::SetWorkerFilter { core_id, filter, allocated } =>
                CommandView::SetWorkerFilter { core_id, filter: filter@, allocated },
            PoolCommand::SetManuallyManaged { core_id, manually_managed } =>
                CommandView::SetManuallyManaged { core_id, manually_managed },
            PoolCommand::SetPendingFilterFrame { core_id, frame } =>
                CommandView::SetPendingFilterFrame { core_id, frame },
            PoolCommand::AllocateWorker { core_id, filter } =>
                CommandView::AllocateWorker { core_id, filter: filter@ },
        }
    }
}

pub open spec fn command_views(commands: Seq<PoolCommand>) -> Seq<CommandView> {
    commands.map_values(|c: PoolCommand| c@)
}

/// The commands that restore one persisted worker. Its filter is set even when it is empty: idle
/// workers stay available for later allocations.
pub open spec fn record_commands(record: PersistedWorkerInfo) -> Seq<CommandView> {
    let core_id = record.core_id;
    let filter = seq![
        CommandView::SetWorkerFilter { core_id, filter: record.filter@, allocated: false },
    ];
    let managed = if record.manually_managed {
        seq![CommandView::SetManuallyManaged { core_id, manually_managed: true }]
    } else {
        seq![]
    };
    let pending = if record.pending_filter_frame > 0 {
        seq![CommandView::SetPendingFilterFrame { core_id, frame: record.pending_filter_frame }]
    } else {
        seq![]
    };
    filter + managed + pending
}

/// The commands that restore the persisted workers, in their order.
pub open spec fn restore_commands(persisted: Seq<PersistedWorkerInfo>) -> Seq<CommandView>
    decreases persisted.len(),
{
    if persisted.len() == 0 {
        seq![]
    } else {
        restore_commands(persisted.drop_last()) + record_commands(persisted.last())
    }
}

/// The cores of `1..=expected` that are not connected, in ascending order.
pub open spec fn missing_cores(connected: Seq<u32>, expected: nat) -> Seq<u32>
    decreases expected,
{
    if expected == 0 {
        seq![]
    } else {
        let before = missing_cores(connected, (expected - 1) as nat);
        if connected.contains(expected as u32) {
            before
        } else {
            before.push(expected as u32)
        }
    }
}

/// The commands that give the missing cores an idle worker each.
pub open spec fn allocate_commands(cores: Seq<u32>) -> Seq<CommandView> {
    cores.map_values(
        |core_id: u32| CommandView::AllocateWorker { core_id, filter: Seq::<u8>::empty() },
    )
}

/// The cores of `1..=expected` that are not among the connected ones.
pub fn absent_cores(connected: &Vec<u32>, expected: u32) -> (r: Vec<u32>)
    ensures
        r@ == missing_cores(connected@, expected as nat),
{
    broadcast use vstd::std_specs::hash::group_hash_axioms;

    let mut known: HashSet<u32> = HashSet::new();
    let mut i: usize = 0;
    while i < connected.len()
        invariant
            i <= connected@.len(),
            forall|core: u32| #[trigger]
                known@.contains(core) <==> connected@.take(i as int).contains(core),
        decreases connected@.len() - i,
    {
        broadcast use vstd::std_specs::hash::group_hash_axioms;

        let ghost before = connected@.take(i as int);
        known.insert(connected[i]);
        assert(connected@.take(i + 1) =~= before.push(connected@[i as int]));
        assert forall|core: u32| #[trigger]
            known@.contains(core) <==> connected@.take(i + 1).contains(core) by {
            let now = connected@.take(i + 1);
            if before.contains(core) {
                let k = choose|k: int| 0 <= k < before.len() && before[k] == core;
                assert(now[k] == core);
            }
            if now.contains(core) && core != connected@[i as int] {
                let k = choose|k: int| 0 <= k < now.len() && now[k] == core;
                assert(before[k] == core);
            }
            assert(now[i as int] == connected@[i as int]);
        }
        i += 1;
    }
    assert(connected@.take(i as int) =~= connected@);
    let mut cores: Vec<u32> = Vec::new();
    let mut core_id: u32 = 0;
    while core_id < expected
        invariant
            core_id <= expected,
            forall|core: u32| #[trigger] known@.contains(core) <==> connected@.contains(core),
            cores@ == missing_cores(connected@, core_id as nat),
        decreases expected - core_id,
    {
        broadcast use vstd::std_specs::hash::group_hash_axioms;

        core_id += 1;
        if !known.contains(&core_id) {
            cores.push(core_id);
        }
    }
    cores
}

/// The commands that restore the persisted workers, in their order.
pub fn commands_to_restore(persisted: &[PersistedWorkerInfo]) -> (r: Vec<PoolCommand>)
    ensures
        command_views(r@) == restore_commands(persisted@),
{
    let mut r: Vec<PoolCommand> = Vec::new();
    let mut i: usize = 0;
    while i < persisted.len()
        invariant
            i <= persisted@.len(),
            command_views(r@) == restore_commands(persisted@.take(i as int)),
        decreases persisted@.len() - i,
    {
        let ghost before = command_views(r@);
        let record = &persisted[i];
        let core_id: u32 = record.core_id;
        let filter = slice_to_vec(record.filter.as_slice());
        r.push(PoolCommand::SetWorkerFilter { core_id, filter, allocated: false });
        if record.manually_managed {
            r.push(PoolCommand::SetManuallyManaged { core_id, manually_managed: true });
        }
        if record.pending_filter_frame > 0 {
            let frame: u64 = record.pending_filter_frame;
            r.push(PoolCommand::SetPendingFilterFrame { core_id, frame });
        }
        assert(command_views(r@) =~= before + record_commands(persisted@[i as int]));
        assert(persisted@.take(i + 1).drop_last() =~= persisted@.take(i as int));
        i += 1;
    }
    assert(persisted@.take(i as int) =~= persisted@);
    r
}

/// The commands that give the absent cores an idle worker each, in ascending order.
pub fn commands_to_fill(connected: &Vec<u32>, expected_worker_count: u32) -> (r: Vec<PoolCommand>)
    ensures
        command_views(r@) == allocate_commands(
            missing_cores(connected@, expected_worker_count as nat),
        ),
{
    let cores = absent_cores(connected, expected_worker_count);
    let mut r: Vec<PoolCommand> = Vec::new();
    let mut i: usize = 0;
    while i < cores.len()
        invariant
            i <= cores@.len(),
            command_views(r@) == allocate_commands(cores@.take(i as int)),
        decreases cores@.len() - i,
    {
        let ghost before = command_views(r@);
        let filter: Vec<u8> = Vec::new();
        assert(filter@ =~= Seq::<u8>::empty());
        r.push(PoolCommand::AllocateWorker { core_id: cores[i], filter });
        proof {
            let due = allocate_commands(cores@.take(i + 1));
            assert(due.drop_last() =~= before);
            assert(due.last() == r@.last()@);
            assert(command_views(r@) =~= before.push(r@.last()@));
            assert(due =~= before.push(due.last()));
        }
        i += 1;
    }
    assert(cores@.take(i as int) =~= cores@);
    r
}

/// The record of commands that the manager accepted.
pub open spec fn all_ran<E>(commands: Seq<CommandView>) -> Seq<Asked<E>> {
    commands.map_values(|command: CommandView| Asked::Ran { command, reply: Ok(()) })
}

/// The manager was asked for the commands in order, up to one that it refused with `error`.
pub open spec fn stopped<E>(commands: Seq<CommandView>, log: Seq<Asked<E>>, error: E) -> bool {
    exists|k: int|
        0 <= k < commands.len() && log == all_ran::<E>(commands.take(k)).push(
            Asked::Ran { command: #[trigger] commands[k], reply: Err(error) },
        )
}

/// What the manager is asked when the commands are run, by what comes of it.
pub open spec fn run_log<E>(
    commands: Seq<CommandView>,
    log: Seq<Asked<E>>,
    outcome: Result<(), E>,
) -> bool {
    match outcome {
        Ok(_) => log == all_ran::<E>(commands),
        Err(error) => stopped(commands, log, error),
    }
}

/// Has the manager run the commands, each once and in order, up to the first that it refuses.
pub fn run_commands<
    E,
    F: Fn(&PoolCommand) -> Result<(), E>,
    G: Fn() -> Result<Vec<u32>, E>,
>(manager: &mut WorkerManager<E, F, G>, commands: &Vec<PoolCommand>) -> (r: Result<(), E>)
    ensures
        exists|log: Seq<Asked<E>>| #[trigger]
            old(manager).went_on(*final(manager), log) && run_log(
                command_views(commands@),
                log,
                r,
            ),
{
    let ghost due = command_views(commands@);
    let ghost mut log: Seq<Asked<E>> = seq![];
    let mut i: usize = 0;
    assert(manager.asked() =~= manager.asked() + log);
    assert(log =~= all_ran::<E>(due.take(0)));
    while i < commands.len()
        invariant
            i <= commands@.len(),
            due == command_views(commands@),
            old(manager).went_on(*manager, log),
            log == all_ran::<E>(due.take(i as int)),
        decreases commands@.len() - i,
    {
        let ghost between = *manager;
        let reply = manager.run(&commands[i]);
        proof {
            let entry = Asked::Ran { command: due[i as int], reply };
            lemma_went_on_joins(*old(manager), between, *manager, log, seq![entry]);
            assert(log + seq![entry] =~= log.push(entry));
        }
        match reply {
            Ok(unit) => {
                proof {
                    assert(unit == ());
                    let next = all_ran::<E>(due.take(i + 1));
                    assert(next =~= log.push(Asked::Ran { command: due[i as int], reply: Ok(()) }));
                    log = next;
                }
            },
            Err(error) => {
                proof {
                    let all = log.push(
                        Asked::Ran { command: due[i as int], reply: Err::<(), E>(error) },
                    );
                    assert(stopped(due, all, error));
                    assert(run_log(due, all, Err::<(), E>(error)));
                    assert(old(manager).went_on(*manager, all));
                }
                return Err(error);
            },
        }
        i += 1;
    }
    assert(due.take(i as int) =~= due);
    assert(run_log(due, log, Ok::<(), E>(())));
    Ok(())
}

/// What the manager is asked up to its listing of the cores with a worker.
pub open spec fn restore_log<E>(
    persisted: Seq<PersistedWorkerInfo>,
    reply: Result<Seq<u32>, E>,
) -> Seq<Asked<E>> {
    all_ran::<E>(restore_commands(persisted)).push(Asked::Connected { reply })
}

/// A startup in which the manager listed `connected` and accepted every command.
pub open spec fn startup_log<E>(
    persisted: Seq<PersistedWorkerInfo>,
    expected_worker_count: u32,
    connected: Seq<u32>,
) -> Seq<Asked<E>> {
    restore_log::<E>(persisted, Ok(connected)) + all_ran::<E>(
        allocate_commands(missing_cores(connected, expected_worker_count as nat)),
    )
}

/// A startup that restores and fills the pool: the persisted workers are restored, then the manager
/// is asked for its cores, once, and then every core that is missing from its answer is allocated.
pub open spec fn started<E>(
    persisted: Seq<PersistedWorkerInfo>,
    expected_worker_count: u32,
    log: Seq<Asked<E>>,
    connected: Seq<u32>,
    counts: (usize, usize),
) -> bool {
    &&& log == startup_log::<E>(persisted, expected_worker_count, connected)
    &&& counts.0 == persisted.len()
    &&& counts.1 == missing_cores(connected, expected_worker_count as nat).len()
}

/// A startup that the manager ended with `error`: the request that it refused is the last.
pub open spec fn startup_refused<E>(
    persisted: Seq<PersistedWorkerInfo>,
    expected_worker_count: u32,
    log: Seq<Asked<E>>,
    error: E,
) -> bool {
    ||| stopped(restore_commands(persisted), log, error)
    ||| log == restore_log(persisted, Err::<Seq<u32>, E>(error))
    ||| exists|connected: Seq<u32>, tail: Seq<Asked<E>>| #[trigger]
        stopped(
            allocate_commands(missing_cores(connected, expected_worker_count as nat)),
            tail,
            error,
        ) && log == restore_log::<E>(persisted, Ok(connected)) + tail
}

/// What the manager is asked in a startup, by what comes of it.
pub open spec fn startup_outcome<E>(
    persisted: Seq<PersistedWorkerInfo>,
    expected_worker_count: u32,
    log: Seq<Asked<E>>,
    outcome: Result<(usize, usize), E>,
) -> bool {
    match outcome {
        Ok(counts) => exists|connected: Seq<u32>| #[trigger]
            started(persisted, expected_worker_count, log, connected, counts),
        Err(error) => startup_refused(persisted, expected_worker_count, log, error),
    }
}

/// Restores the persisted workers and recreates every configured core that is then absent from the
/// pool. Records with an empty filter are restored too: they are idle workers that must stay
/// available. The first request that the manager refuses ends it, and nothing is undone.
///
/// Returns how many workers were restored and how many were created.
pub fn restore_and_fill_worker_pool<
    E,
    F: Fn(&PoolCommand) -> Result<(), E>,
    G: Fn() -> Result<Vec<u32>, E>,
>(
    manager: &mut WorkerManager<E, F, G>,
    persisted: &[PersistedWorkerInfo],
    expected_worker_count: u32,
) -> (r: Result<(usize, usize), E>)
    ensures
        exists|log: Seq<Asked<E>>| #[trigger]
            old(manager).went_on(*final(manager), log) && startup_outcome(
                persisted@,
                expected_worker_count,
                log,
                r,
            ),
{
    let restoring = commands_to_restore(persisted);
    let restored = run_commands(manager, &restoring);
    let ghost before = *manager;
    let ghost ran = choose|log: Seq<Asked<E>>| #[trigger]
        old(manager).went_on(*manager, log) && run_log(
            restore_commands(persisted@),
            log,
            restored,
        );
    if let Err(error) = restored {
        assert(startup_outcome(
            persisted@,
            expected_worker_count,
            ran,
            Err::<(usize, usize), E>(error),
        ));
        return Err(error);
    }
    let connected = manager.connected();
    let ghost between = *manager;
    let ghost asked = restore_log(persisted@, listed(connected));
    proof {
        let entry = Asked::Connected { reply: listed(connected) };
        lemma_went_on_joins(*old(manager), before, between, ran, seq![entry]);
        assert(ran + seq![entry] =~= asked);
    }
    let cores = match connected {
        Err(error) => {
            assert(startup_outcome(
                persisted@,
                expected_worker_count,
                asked,
                Err::<(usize, usize), E>(error),
            ));
            return Err(error);
        },
        Ok(cores) => cores,
    };
    let filling = commands_to_fill(&cores, expected_worker_count);
    let filled = run_commands(manager, &filling);
    let ghost due = allocate_commands(missing_cores(cores@, expected_worker_count as nat));
    let ghost tail = choose|log: Seq<Asked<E>>| #[trigger]
        between.went_on(*manager, log) && run_log(due, log, filled);
    proof {
        lemma_went_on_joins(*old(manager), between, *manager, asked, tail);
    }
    match filled {
        Err(error) => {
            assert(stopped(due, tail, error));
            assert(startup_outcome(
                persisted@,
                expected_worker_count,
                asked + tail,
                Err::<(usize, usize), E>(error),
            ));
            Err(error)
        },
        Ok(_) => {
            let count: usize = persisted.len();
            let created: usize = filling.len();
            proof {
                assert(command_views(filling@).len() == created);
                assert(due.len() == created);
                let outcome = Ok::<(usize, usize), E>((count, created));
                assert(started(
                    persisted@,
                    expected_worker_count,
                    asked + tail,
                    cores@,
                    outcome->Ok_0,
                ));
                assert(startup_outcome(persisted@, expected_worker_count, asked + tail, outcome));
            }
            Ok((count, created))
        },
    }
}

/// What a node does about workers at startup.
#[derive(Clone, Copy, Debug, PartialEq, Eq, Structural)]
pub struct StartupPlan {
    /// Workers run on other machines, not in threads of this process.
    pub cluster: bool,
    /// The persisted workers are restored and the pool is filled.
    pub restore: bool,
    /// Idle workers are allocated when no worker is connected.
    pub preallocate: bool,
    /// The filters of the configuration are applied.
    pub apply_filters: bool,
}

/// Decides what a node does about workers at startup. An archive keeps global history and serves
/// it; it runs no app-shard workers. With remote workers configured the node masters a cluster, and
/// persisted local workers are left alone.
pub fn startup_plan(remote_workers: usize, archive_mode: bool) -> (r: StartupPlan)
    ensures
        r.cluster <==> remote_workers > 0,
        r.restore <==> remote_workers == 0 && !archive_mode,
        r.preallocate <==> !archive_mode,
        r.apply_filters <==> !archive_mode,
{
    StartupPlan {
        cluster: remote_workers > 0,
        restore: remote_workers == 0 && !archive_mode,
        preallocate: !archive_mode,
        apply_filters: !archive_mode,
    }
}

/// The cores that get an idle worker at startup: all of `1..=worker_count` when no worker is
/// connected or that cannot be told, else none.
pub fn cores_to_preallocate(connected: Option<&Vec<u32>>, worker_count: u32) -> (r: Vec<u32>)
    ensures
        r@ == (if connected is None || connected->0@.len() == 0 {
            missing_cores(seq![], worker_count as nat)
        } else {
            seq![]
        }),
{
    let idle: bool = match connected {
        Some(cores) => cores.len() == 0,
        None => true,
    };
    if idle {
        let none: Vec<u32> = Vec::new();
        assert(none@ =~= Seq::<u32>::empty());
        absent_cores(&none, worker_count)
    } else {
        Vec::new()
    }
}

/// With no worker connected, every core from one up is missing.
pub proof fn law_an_empty_pool_misses_every_core(expected: u32)
    ensures
        missing_cores(seq![], expected as nat) == Seq::new(
            expected as nat,
            |i: int| (i + 1) as u32,
        ),
{
    lemma_empty_pool(expected as nat);
}

proof fn lemma_empty_pool(expected: nat)
    requires
        expected <= u32::MAX,
    ensures
        missing_cores(seq![], expected) == Seq::new(expected, |i: int| (i + 1) as u32),
    decreases expected,
{
    let all = Seq::new(expected, |i: int| (i + 1) as u32);
    if expected > 0 {
        lemma_empty_pool((expected - 1) as nat);
        assert(all =~= Seq::new((expected - 1) as nat, |i: int| (i + 1) as u32).push(
            expected as u32,
        ));
    } else {
        assert(missing_cores(seq![], expected) =~= all);
    }
}

proof fn lemma_missing_cores(connected: Seq<u32>, expected: nat, core: u32)
    requires
        expected <= u32::MAX,
    ensures
        missing_cores(connected, expected).contains(core) <==> 1 <= core <= expected
            && !connected.contains(core),
    decreases expected,
{
    if expected > 0 {
        let before = missing_cores(connected, (expected - 1) as nat);
        let now = missing_cores(connected, expected);
        lemma_missing_cores(connected, (expected - 1) as nat, core);
        if before.contains(core) {
            let k = choose|k: int| 0 <= k < before.len() && before[k] == core;
            assert(now[k] == core);
        }
        if now.contains(core) && !before.contains(core) {
            let k = choose|k: int| 0 <= k < now.len() && now[k] == core;
            assert(k == before.len()) by {
                if k < before.len() {
                    assert(before[k] == core);
                }
            }
        }
        if core == expected && !connected.contains(core) {
            assert(now[before.len() as int] == core);
        }
    }
}

proof fn lemma_missing_cores_ascend(connected: Seq<u32>, expected: nat)
    requires
        expected <= u32::MAX,
    ensures
        forall|i: int, j: int|
            0 <= i < j < missing_cores(connected, expected).len() ==> #[trigger] missing_cores(
                connected,
                expected,
            )[i] < #[trigger] missing_cores(connected, expected)[j],
    decreases expected,
{
    if expected > 0 {
        let before = missing_cores(connected, (expected - 1) as nat);
        lemma_missing_cores_ascend(connected, (expected - 1) as nat);
        assert forall|i: int| 0 <= i < before.len() implies #[trigger] before[i] < expected by {
            assert(before.contains(before[i]));
            lemma_missing_cores(connected, (expected - 1) as nat, before[i]);
        }
    }
}

/// Once the pool is filled every configured core has one worker: it was connected, or it is created,
/// never both, and none is created twice or beyond the configured cores.
pub proof fn law_every_core_gets_one_worker(connected: Seq<u32>, expected: u32)
    ensures
        forall|core: u32|
            1 <= core <= expected ==> (connected.contains(core) <==> !#[trigger] missing_cores(
                connected,
                expected as nat,
            ).contains(core)),
        forall|core: u32| #[trigger]
            missing_cores(connected, expected as nat).contains(core) ==> 1 <= core <= expected,
        missing_cores(connected, expected as nat).no_duplicates(),
{
    assert forall|core: u32| #[trigger]
        missing_cores(connected, expected as nat).contains(core) <==> 1 <= core <= expected
            && !connected.contains(core) by {
        lemma_missing_cores(connected, expected as nat, core);
    }
    lemma_missing_cores_ascend(connected, expected as nat);
}

/// Filling a filled pool creates nothing.
pub proof fn law_filling_is_idempotent(connected: Seq<u32>, expected: u32)
    ensures
        missing_cores(
            connected + missing_cores(connected, expected as nat),
            expected as nat,
        ).len() == 0,
{
    let created = missing_cores(connected, expected as nat);
    let all = connected + created;
    let again = missing_cores(all, expected as nat);
    if again.len() > 0 {
        let core = again[0];
        assert(again.contains(core));
        lemma_missing_cores(all, expected as nat, core);
        lemma_missing_cores(connected, expected as nat, core);
        if connected.contains(core) {
            let k = choose|k: int| 0 <= k < connected.len() && connected[k] == core;
            assert(all[k] == core);
        } else {
            let k = choose|k: int| 0 <= k < created.len() && created[k] == core;
            assert(all[connected.len() + k] == core);
        }
    }
}

/// What restores one persisted worker: its filter is set first, without marking it allocated; then,
/// where the record has the operator's flag, that is set; then, where it has a pending frame, that is
/// set. Nothing else is asked, and whether the record was allocated does not count.
pub proof fn law_a_record_is_restored_by_its_commands(record: PersistedWorkerInfo)
    ensures
        ({
            let core_id = record.core_id;
            let filter = CommandView::SetWorkerFilter {
                core_id,
                filter: record.filter@,
                allocated: false,
            };
            let managed = CommandView::SetManuallyManaged { core_id, manually_managed: true };
            let pending = CommandView::SetPendingFilterFrame {
                core_id,
                frame: record.pending_filter_frame,
            };
            let commands = restore_commands(seq![record]);
            &&& commands == record_commands(record)
            &&& !record.manually_managed && record.pending_filter_frame == 0 ==> commands
                == seq![filter]
            &&& record.manually_managed && record.pending_filter_frame == 0 ==> commands
                == seq![filter, managed]
            &&& !record.manually_managed && record.pending_filter_frame > 0 ==> commands
                == seq![filter, pending]
            &&& record.manually_managed && record.pending_filter_frame > 0 ==> commands
                == seq![filter, managed, pending]
        }),
{
    lemma_restore_one(record);
    let core_id = record.core_id;
    let filter = CommandView::SetWorkerFilter {
        core_id,
        filter: record.filter@,
        allocated: false,
    };
    let managed = CommandView::SetManuallyManaged { core_id, manually_managed: true };
    let pending = CommandView::SetPendingFilterFrame {
        core_id,
        frame: record.pending_filter_frame,
    };
    let commands = record_commands(record);
    if record.manually_managed {
        if record.pending_filter_frame > 0 {
            assert(commands =~= seq![filter, managed, pending]);
        } else {
            assert(commands =~= seq![filter, managed]);
        }
    } else if record.pending_filter_frame > 0 {
        assert(commands =~= seq![filter, pending]);
    } else {
        assert(commands =~= seq![filter]);
    }
}

/// Records are restored one after the other: what restores two lists is what restores the first, then
/// what restores the second.
pub proof fn law_restoring_goes_record_by_record(
    first: Seq<PersistedWorkerInfo>,
    second: Seq<PersistedWorkerInfo>,
)
    ensures
        restore_commands(first + second) == restore_commands(first) + restore_commands(second),
    decreases second.len(),
{
    if second.len() == 0 {
        assert(first + second =~= first);
        assert(restore_commands(first + second) =~= restore_commands(first) + restore_commands(
            second,
        ));
    } else {
        law_restoring_goes_record_by_record(first, second.drop_last());
        assert((first + second).drop_last() =~= first + second.drop_last());
        assert(restore_commands(first + second) =~= restore_commands(first) + restore_commands(
            second,
        ));
    }
}

/// The missing cores come in ascending order, and each is given an idle worker by one command.
pub proof fn law_missing_cores_are_filled_in_order(connected: Seq<u32>, expected: u32)
    ensures
        forall|i: int, j: int|
            0 <= i < j < missing_cores(connected, expected as nat).len() ==> #[trigger] missing_cores(
                connected,
                expected as nat,
            )[i] < #[trigger] missing_cores(connected, expected as nat)[j],
        allocate_commands(missing_cores(connected, expected as nat)).len() == missing_cores(
            connected,
            expected as nat,
        ).len(),
        forall|i: int|
            0 <= i < missing_cores(connected, expected as nat).len() ==> #[trigger] allocate_commands(
                missing_cores(connected, expected as nat),
            )[i] == (CommandView::AllocateWorker {
                core_id: missing_cores(connected, expected as nat)[i],
                filter: Seq::empty(),
            }),
{
    lemma_missing_cores_ascend(connected, expected as nat);
}

/// In a startup that succeeds the manager is asked for the restore commands first, one after the
/// other; then, once, for its cores; then for an idle worker on each core that is missing from its
/// answer. It granted every request, and was asked nothing else.
pub proof fn law_startup_requests<E>(
    persisted: Seq<PersistedWorkerInfo>,
    expected: u32,
    log: Seq<Asked<E>>,
    counts: (usize, usize),
)
    requires
        startup_outcome(persisted, expected, log, Ok::<(usize, usize), E>(counts)),
    ensures
        ({
            let restoring = restore_commands(persisted);
            let n = restoring.len() as int;
            &&& counts.0 == persisted.len()
            &&& log.len() == n + 1 + counts.1
            &&& forall|i: int|
                0 <= i < n ==> #[trigger] log[i] == (Asked::Ran {
                    command: restoring[i],
                    reply: Ok::<(), E>(()),
                })
            &&& log[n] matches Asked::Connected { reply: Ok(connected) } && {
                let missing = missing_cores(connected, expected as nat);
                &&& missing.len() == counts.1
                &&& forall|i: int|
                    0 <= i < missing.len() ==> #[trigger] log[n + 1 + i] == (Asked::Ran {
                        command: CommandView::AllocateWorker {
                            core_id: missing[i],
                            filter: Seq::empty(),
                        },
                        reply: Ok::<(), E>(()),
                    })
            }
        }),
{
    let connected = choose|connected: Seq<u32>| #[trigger]
        started(persisted, expected, log, connected, counts);
    assert(log == startup_log::<E>(persisted, expected, connected));
}

/// In a startup that the manager ends, it was asked what a startup that succeeds asks, up to the
/// request that it refused with the error that is returned.
pub proof fn law_refused_startup_requests<E>(
    persisted: Seq<PersistedWorkerInfo>,
    expected: u32,
    log: Seq<Asked<E>>,
    error: E,
)
    requires
        startup_outcome(persisted, expected, log, Err::<(usize, usize), E>(error)),
    ensures
        ({
            let restoring = restore_commands(persisted);
            let n = restoring.len() as int;
            &&& log.len() > 0
            &&& forall|i: int|
                0 <= i < n && i < log.len() ==> #[trigger] log[i] == (Asked::Ran {
                    command: restoring[i],
                    reply: if i < log.len() - 1 {
                        Ok::<(), E>(())
                    } else {
                        Err(error)
                    },
                })
            &&& log.len() == n + 1 ==> log[n] == (Asked::Connected {
                reply: Err::<Seq<u32>, E>(error),
            })
            &&& log.len() > n + 1 ==> (log[n] matches Asked::Connected { reply: Ok(connected) } && {
                let missing = missing_cores(connected, expected as nat);
                &&& log.len() <= n + 1 + missing.len()
                &&& forall|i: int|
                    0 <= i && n + 1 + i < log.len() ==> #[trigger] log[n + 1 + i] == (Asked::Ran {
                        command: CommandView::AllocateWorker {
                            core_id: missing[i],
                            filter: Seq::empty(),
                        },
                        reply: if n + 1 + i < log.len() - 1 {
                            Ok::<(), E>(())
                        } else {
                            Err(error)
                        },
                    })
            })
        }),
{
    let restoring = restore_commands(persisted);
    let n = restoring.len() as int;
    if stopped(restoring, log, error) {
        let k = choose|k: int|
            0 <= k < restoring.len() && log == all_ran::<E>(restoring.take(k)).push(
                Asked::Ran { command: #[trigger] restoring[k], reply: Err(error) },
            );
        assert(log.len() == k + 1);
    } else if log == restore_log(persisted, Err::<Seq<u32>, E>(error)) {
    } else {
        let (connected, tail) = choose|connected: Seq<u32>, tail: Seq<Asked<E>>| #[trigger]
            stopped(
                allocate_commands(missing_cores(connected, expected as nat)),
                tail,
                error,
            ) && log == restore_log::<E>(persisted, Ok(connected)) + tail;
        let due = allocate_commands(missing_cores(connected, expected as nat));
        let k = choose|k: int|
            0 <= k < due.len() && tail == all_ran::<E>(due.take(k)).push(
                Asked::Ran { command: #[trigger] due[k], reply: Err(error) },
            );
        assert(tail.len() == k + 1);
        assert(log[n] == (Asked::Connected { reply: Ok::<Seq<u32>, E>(connected) }));
        assert forall|i: int| 0 <= i && n + 1 + i < log.len() implies #[trigger] log[n + 1 + i] == (
        Asked::Ran {
            command: CommandView::AllocateWorker {
                core_id: missing_cores(connected, expected as nat)[i],
                filter: Seq::empty(),
            },
            reply: if n + 1 + i < log.len() - 1 {
                Ok::<(), E>(())
            } else {
                Err(error)
            },
        }) by {
            assert(log[n + 1 + i] == tail[i]);
        }
    }
}

/// Every persisted worker is restored with the filter it had, an idle one included, and its operator
/// flag and pending frame with it.
pub proof fn law_every_record_is_restored(persisted: Seq<PersistedWorkerInfo>, i: int)
    requires
        0 <= i < persisted.len(),
    ensures
        exists|at: int| #[trigger]
            stands_at(restore_commands(persisted), record_commands(persisted[i]), at),
    decreases persisted.len(),
{
    let before = restore_commands(persisted.drop_last());
    let block = record_commands(persisted.last());
    let all = restore_commands(persisted);
    if i == persisted.len() - 1 {
        assert(all.subrange(before.len() as int, all.len() as int) =~= block);
        assert(stands_at(all, block, before.len() as int));
    } else {
        law_every_record_is_restored(persisted.drop_last(), i);
        let mine = record_commands(persisted[i]);
        let at = choose|at: int| #[trigger] stands_at(before, mine, at);
        assert(all.subrange(at, at + mine.len()) =~= before.subrange(at, at + mine.len()));
        assert(stands_at(all, mine, at));
    }
}

/// The commands `block` stand in `commands` from `at` on.
pub open spec fn stands_at(commands: Seq<CommandView>, block: Seq<CommandView>, at: int) -> bool {
    0 <= at && at + block.len() <= commands.len() && commands.subrange(at, at + block.len()) == block
}

/// A worker of a pool: its filter, the operator's flag and the frame of a pending filter.
pub struct PoolWorker {
    pub filter: Seq<u8>,
    pub manually_managed: bool,
    pub pending_filter_frame: u64,
}

/// A worker with the given filter and nothing else set.
pub open spec fn plain_worker(filter: Seq<u8>) -> PoolWorker {
    PoolWorker { filter, manually_managed: false, pending_filter_frame: 0 }
}

/// A pool of workers after one command: the core of every worker, with the worker. Setting a filter
/// spawns the worker where there is none; each of the other two settings changes what it names.
pub open spec fn pool_after(pool: Map<u32, PoolWorker>, command: CommandView) -> Map<
    u32,
    PoolWorker,
> {
    match command {
        CommandView::SetWorkerFilter { core_id, filter, .. } => pool.insert(
            core_id,
            if pool.dom().contains(core_id) {
                PoolWorker { filter, ..pool[core_id] }
            } else {
                plain_worker(filter)
            },
        ),
        CommandView::SetManuallyManaged { core_id, manually_managed } => if pool.dom().contains(
            core_id,
        ) {
            pool.insert(core_id, PoolWorker { manually_managed, ..pool[core_id] })
        } else {
            pool
        },
        CommandView::SetPendingFilterFrame { core_id, frame } => if pool.dom().contains(core_id) {
            pool.insert(core_id, PoolWorker { pending_filter_frame: frame, ..pool[core_id] })
        } else {
            pool
        },
        CommandView::AllocateWorker { core_id, filter } => pool.insert(
            core_id,
            plain_worker(filter),
        ),
    }
}

/// A pool of workers after a row of commands.
pub open spec fn pool_after_all(pool: Map<u32, PoolWorker>, commands: Seq<CommandView>) -> Map<
    u32,
    PoolWorker,
>
    decreases commands.len(),
{
    if commands.len() == 0 {
        pool
    } else {
        pool_after(pool_after_all(pool, commands.drop_last()), commands.last())
    }
}

/// The last record of a core, if it has any.
pub open spec fn last_record(persisted: Seq<PersistedWorkerInfo>, core: u32) -> Option<
    PersistedWorkerInfo,
>
    decreases persisted.len(),
{
    if persisted.len() == 0 {
        None
    } else if persisted.last().core_id == core {
        Some(persisted.last())
    } else {
        last_record(persisted.drop_last(), core)
    }
}

/// The record is the last one of its core.
pub open spec fn is_last_of_core(persisted: Seq<PersistedWorkerInfo>, i: int) -> bool {
    &&& 0 <= i < persisted.len()
    &&& forall|j: int|
        i < j < persisted.len() ==> (#[trigger] persisted[j]).core_id != persisted[i].core_id
}

/// The record is the last one of its core that has a pending frame.
pub open spec fn is_last_pending_of_core(persisted: Seq<PersistedWorkerInfo>, i: int) -> bool {
    &&& 0 <= i < persisted.len()
    &&& persisted[i].pending_filter_frame > 0
    &&& forall|j: int|
        i < j < persisted.len() && (#[trigger] persisted[j]).core_id == persisted[i].core_id
            ==> persisted[j].pending_filter_frame == 0
}

proof fn lemma_last_record(persisted: Seq<PersistedWorkerInfo>, core: u32)
    ensures
        last_record(persisted, core) is None <==> forall|i: int|
            0 <= i < persisted.len() ==> (#[trigger] persisted[i]).core_id != core,
        last_record(persisted, core) matches Some(record) ==> exists|i: int| #[trigger]
            is_last_of_core(persisted, i) && persisted[i] == record && record.core_id == core,
        forall|i: int| #[trigger]
            is_last_of_core(persisted, i) && persisted[i].core_id == core ==> last_record(
                persisted,
                core,
            ) == Some(persisted[i]),
    decreases persisted.len(),
{
    if persisted.len() > 0 {
        let before = persisted.drop_last();
        let n = before.len() as int;
        lemma_last_record(before, core);
        assert forall|i: int| 0 <= i < n implies #[trigger] persisted[i] == before[i] by {}
        assert(persisted[n] == persisted.last());
        if persisted.last().core_id == core {
            assert(is_last_of_core(persisted, n));
        } else {
            if last_record(before, core) is Some {
                let i = choose|i: int| #[trigger]
                    is_last_of_core(before, i) && before[i] == last_record(before, core)->0
                        && before[i].core_id == core;
                assert(is_last_of_core(persisted, i));
            }
        }
        assert forall|i: int| #[trigger]
            is_last_of_core(persisted, i) && persisted[i].core_id == core implies last_record(
            persisted,
            core,
        ) == Some(persisted[i]) by {
            if i < n {
                assert(persisted[n].core_id != core);
                assert(is_last_of_core(before, i)) by {
                    assert forall|j: int| i < j < n implies (#[trigger] before[j]).core_id
                        != before[i].core_id by {
                        assert(persisted[j] == before[j]);
                    }
                }
            }
        }
        if forall|i: int| 0 <= i < persisted.len() ==> (#[trigger] persisted[i]).core_id != core {
            assert(persisted[n].core_id != core);
            assert forall|i: int| 0 <= i < n implies (#[trigger] before[i]).core_id != core by {
                assert(persisted[i] == before[i]);
            }
        }
    }
}

proof fn lemma_pool_after_concat(
    pool: Map<u32, PoolWorker>,
    first: Seq<CommandView>,
    second: Seq<CommandView>,
)
    ensures
        pool_after_all(pool, first + second) == pool_after_all(pool_after_all(pool, first), second),
    decreases second.len(),
{
    if second.len() == 0 {
        assert(first + second =~= first);
    } else {
        lemma_pool_after_concat(pool, first, second.drop_last());
        assert((first + second).drop_last() =~= first + second.drop_last());
    }
}

proof fn lemma_pool_after_one(pool: Map<u32, PoolWorker>, command: CommandView)
    ensures
        pool_after_all(pool, seq![command]) == pool_after(pool, command),
{
    reveal_with_fuel(pool_after_all, 2);
    assert(seq![command].drop_last() =~= Seq::<CommandView>::empty());
}

/// A worker once a record of its core is restored.
spec fn restored_worker(
    pool: Map<u32, PoolWorker>,
    record: PersistedWorkerInfo,
) -> PoolWorker {
    let before = if pool.dom().contains(record.core_id) {
        pool[record.core_id]
    } else {
        plain_worker(Seq::empty())
    };
    PoolWorker {
        filter: record.filter@,
        manually_managed: record.manually_managed || before.manually_managed,
        pending_filter_frame: if record.pending_filter_frame > 0 {
            record.pending_filter_frame
        } else {
            before.pending_filter_frame
        },
    }
}

proof fn lemma_record_restored(pool: Map<u32, PoolWorker>, record: PersistedWorkerInfo)
    ensures
        pool_after_all(pool, record_commands(record)) == pool.insert(
            record.core_id,
            restored_worker(pool, record),
        ),
{
    law_a_record_is_restored_by_its_commands(record);
    let core_id = record.core_id;
    let filter = CommandView::SetWorkerFilter {
        core_id,
        filter: record.filter@,
        allocated: false,
    };
    let managed = CommandView::SetManuallyManaged { core_id, manually_managed: true };
    let pending = CommandView::SetPendingFilterFrame {
        core_id,
        frame: record.pending_filter_frame,
    };
    let after_filter = pool_after(pool, filter);
    let after_managed = pool_after(after_filter, managed);
    lemma_pool_after_one(pool, filter);
    lemma_pool_after_one(after_filter, managed);
    lemma_pool_after_one(after_filter, pending);
    lemma_pool_after_one(after_managed, pending);
    lemma_pool_after_concat(pool, seq![filter], seq![managed]);
    lemma_pool_after_concat(pool, seq![filter], seq![pending]);
    lemma_pool_after_concat(pool, seq![filter] + seq![managed], seq![pending]);
    assert(seq![filter] + seq![managed] =~= seq![filter, managed]);
    assert(seq![filter] + seq![pending] =~= seq![filter, pending]);
    assert(seq![filter] + seq![managed] + seq![pending] =~= seq![filter, managed, pending]);
    assert(pool_after_all(pool, record_commands(record)) =~= pool.insert(
        core_id,
        restored_worker(pool, record),
    ));
}

/// What restoring makes of the worker of a core.
spec fn restored_as(
    pool: Map<u32, PoolWorker>,
    persisted: Seq<PersistedWorkerInfo>,
    core: u32,
    after: Map<u32, PoolWorker>,
) -> bool {
    let before = if pool.dom().contains(core) {
        pool[core]
    } else {
        plain_worker(Seq::empty())
    };
    &&& after.dom().contains(core) <==> pool.dom().contains(core) || last_record(
        persisted,
        core,
    ) is Some
    &&& after.dom().contains(core) ==> {
        &&& after[core].filter == (match last_record(persisted, core) {
            Some(record) => record.filter@,
            None => before.filter,
        })
        &&& after[core].manually_managed <==> before.manually_managed || exists|i: int|
            0 <= i < persisted.len() && (#[trigger] persisted[i]).core_id == core
                && persisted[i].manually_managed
        &&& forall|i: int| #[trigger]
            is_last_pending_of_core(persisted, i) && persisted[i].core_id == core
                ==> after[core].pending_filter_frame == persisted[i].pending_filter_frame
        &&& (forall|i: int|
            0 <= i < persisted.len() && (#[trigger] persisted[i]).core_id == core
                ==> persisted[i].pending_filter_frame == 0) ==> after[core].pending_filter_frame
            == before.pending_filter_frame
    }
}

proof fn lemma_pool_restored(
    pool: Map<u32, PoolWorker>,
    persisted: Seq<PersistedWorkerInfo>,
    core: u32,
)
    ensures
        restored_as(pool, persisted, core, pool_after_all(pool, restore_commands(persisted))),
    decreases persisted.len(),
{
    let after = pool_after_all(pool, restore_commands(persisted));
    if persisted.len() == 0 {
        law_restoring_goes_record_by_record(persisted, persisted);
        assert(persisted + persisted =~= persisted);
        assert(restore_commands(persisted) + restore_commands(persisted) == restore_commands(
            persisted,
        ));
        assert(restore_commands(persisted).len() == 0);
    } else {
        let earlier = persisted.drop_last();
        let record = persisted.last();
        let n = earlier.len() as int;
        let between = pool_after_all(pool, restore_commands(earlier));
        lemma_pool_restored(pool, earlier, core);
        law_restoring_goes_record_by_record(earlier, seq![record]);
        assert(earlier + seq![record] =~= persisted);
        lemma_restore_one(record);
        lemma_pool_after_concat(pool, restore_commands(earlier), record_commands(record));
        lemma_record_restored(between, record);
        assert(after == between.insert(record.core_id, restored_worker(between, record)));
        assert(persisted[n] == record);
        assert forall|i: int| 0 <= i < n implies #[trigger] persisted[i] == earlier[i] by {}
        if after.dom().contains(core) {
            if after[core].manually_managed {
                if record.core_id == core && record.manually_managed {
                    assert(persisted[n].manually_managed);
                } else if !(pool.dom().contains(core) && pool[core].manually_managed) {
                    let i = choose|i: int|
                        0 <= i < earlier.len() && (#[trigger] earlier[i]).core_id == core
                            && earlier[i].manually_managed;
                    assert(persisted[i] == earlier[i]);
                }
            }
            if exists|i: int|
                0 <= i < persisted.len() && (#[trigger] persisted[i]).core_id == core
                    && persisted[i].manually_managed {
                let i = choose|i: int|
                    0 <= i < persisted.len() && (#[trigger] persisted[i]).core_id == core
                        && persisted[i].manually_managed;
                if i < n {
                    assert(earlier[i] == persisted[i]);
                    lemma_last_record(earlier, core);
                }
            }
            assert forall|i: int| #[trigger]
                is_last_pending_of_core(persisted, i) && persisted[i].core_id
                    == core implies after[core].pending_filter_frame
                == persisted[i].pending_filter_frame by {
                if i < n {
                    assert(is_last_pending_of_core(earlier, i)) by {
                        assert forall|j: int|
                            i < j < n && (#[trigger] earlier[j]).core_id
                                == earlier[i].core_id implies earlier[j].pending_filter_frame
                            == 0 by {
                            assert(persisted[j] == earlier[j]);
                        }
                    }
                    assert(earlier[i].core_id == core);
                    lemma_last_record(earlier, core);
                    if record.core_id == core {
                        assert(persisted[n].pending_filter_frame == 0);
                    }
                }
            }
            if forall|i: int|
                0 <= i < persisted.len() && (#[trigger] persisted[i]).core_id == core
                    ==> persisted[i].pending_filter_frame == 0 {
                assert(persisted[n] == record);
                assert forall|i: int|
                    0 <= i < n && (#[trigger] earlier[i]).core_id
                        == core implies earlier[i].pending_filter_frame == 0 by {
                    assert(persisted[i] == earlier[i]);
                }
            }
        }
    }
}

proof fn lemma_restore_one(record: PersistedWorkerInfo)
    ensures
        restore_commands(seq![record]) == record_commands(record),
{
    reveal_with_fuel(restore_commands, 2);
    assert(seq![record].drop_last() =~= Seq::<PersistedWorkerInfo>::empty());
    assert(restore_commands(seq![record]) =~= record_commands(record));
}

proof fn lemma_pool_filled(pool: Map<u32, PoolWorker>, cores: Seq<u32>, core: u32)
    ensures
        pool_after_all(pool, allocate_commands(cores)).dom().contains(core) <==> pool.dom().contains(
            core,
        ) || cores.contains(core),
        cores.contains(core) ==> pool_after_all(pool, allocate_commands(cores))[core]
            == plain_worker(Seq::empty()),
        !cores.contains(core) && pool.dom().contains(core) ==> pool_after_all(
            pool,
            allocate_commands(cores),
        )[core] == pool[core],
    decreases cores.len(),
{
    if cores.len() > 0 {
        let before = cores.drop_last();
        lemma_pool_filled(pool, before, core);
        assert(allocate_commands(cores).drop_last() =~= allocate_commands(before));
        assert(cores =~= before.push(cores.last()));
        if before.contains(core) {
            let k = choose|k: int| 0 <= k < before.len() && before[k] == core;
            assert(cores[k] == core);
        }
        if cores.contains(core) && core != cores.last() {
            let k = choose|k: int| 0 <= k < cores.len() && cores[k] == core;
            assert(before[k] == core);
        }
        assert(cores[cores.len() - 1] == cores.last());
    }
}

/// A pool of workers after what its manager was asked: the commands that it accepted took effect.
pub open spec fn pool_of<E>(pool: Map<u32, PoolWorker>, log: Seq<Asked<E>>) -> Map<u32, PoolWorker>
    decreases log.len(),
{
    if log.len() == 0 {
        pool
    } else {
        let before = pool_of(pool, log.drop_last());
        match log.last() {
            Asked::Ran { command, reply } => if reply is Ok {
                pool_after(before, command)
            } else {
                before
            },
            Asked::Connected { .. } => before,
        }
    }
}

/// Whenever the manager lists cores, it lists those of the pool as it then is.
pub open spec fn reports_its_pool<E>(pool: Map<u32, PoolWorker>, log: Seq<Asked<E>>) -> bool {
    forall|i: int, core: u32|
        #![trigger log[i], pool_of(pool, log.take(i)).dom().contains(core)]
        0 <= i < log.len() && log[i] is Connected && log[i]->Connected_reply is Ok ==> (
        log[i]->Connected_reply->Ok_0.contains(core) <==> pool_of(
            pool,
            log.take(i),
        ).dom().contains(core))
}

proof fn lemma_pool_of_concat<E>(
    pool: Map<u32, PoolWorker>,
    first: Seq<Asked<E>>,
    second: Seq<Asked<E>>,
)
    ensures
        pool_of(pool, first + second) == pool_of(pool_of(pool, first), second),
    decreases second.len(),
{
    if second.len() == 0 {
        assert(first + second =~= first);
    } else {
        lemma_pool_of_concat(pool, first, second.drop_last());
        assert((first + second).drop_last() =~= first + second.drop_last());
    }
}

proof fn lemma_pool_of_all_ran<E>(pool: Map<u32, PoolWorker>, commands: Seq<CommandView>)
    ensures
        pool_of(pool, all_ran::<E>(commands)) == pool_after_all(pool, commands),
    decreases commands.len(),
{
    if commands.len() > 0 {
        lemma_pool_of_all_ran::<E>(pool, commands.drop_last());
        assert(all_ran::<E>(commands).drop_last() =~= all_ran::<E>(commands.drop_last()));
    }
}

/// The pool after a startup, and what its manager listed, in terms of the pool before.
proof fn lemma_startup_pool<E>(
    pool: Map<u32, PoolWorker>,
    persisted: Seq<PersistedWorkerInfo>,
    expected: u32,
    log: Seq<Asked<E>>,
    connected: Seq<u32>,
    counts: (usize, usize),
    core: u32,
)
    requires
        started(persisted, expected, log, connected, counts),
        reports_its_pool(pool, log),
    ensures
        connected.contains(core) <==> pool.dom().contains(core) || last_record(
            persisted,
            core,
        ) is Some,
        pool_of(pool, log).dom().contains(core) <==> connected.contains(core) || 1 <= core
            <= expected,
        connected.contains(core) ==> restored_as(pool, persisted, core, pool_of(pool, log)),
        !connected.contains(core) && 1 <= core <= expected ==> pool_of(pool, log)[core]
            == plain_worker(Seq::empty()),
{
    let ran = all_ran::<E>(restore_commands(persisted));
    let entry = Asked::Connected { reply: Ok::<Seq<u32>, E>(connected) };
    let cores = missing_cores(connected, expected as nat);
    let tail = all_ran::<E>(allocate_commands(cores));
    let restored_pool = pool_after_all(pool, restore_commands(persisted));
    lemma_pool_of_all_ran::<E>(pool, restore_commands(persisted));
    lemma_pool_of_concat(pool, ran, seq![entry]);
    assert(ran + seq![entry] =~= ran.push(entry));
    assert(seq![entry].drop_last() =~= Seq::<Asked<E>>::empty());
    assert(pool_of(restored_pool, seq![entry]) == restored_pool) by {
        reveal_with_fuel(pool_of, 2);
    }
    lemma_pool_of_concat(pool, ran.push(entry), tail);
    lemma_pool_of_all_ran::<E>(restored_pool, allocate_commands(cores));
    let at = ran.len() as int;
    assert(log[at] == entry);
    assert(log.take(at) =~= ran);
    assert(connected.contains(core) <==> pool_of(pool, log.take(at)).dom().contains(core));
    lemma_pool_restored(pool, persisted, core);
    lemma_pool_filled(restored_pool, cores, core);
    lemma_missing_cores(connected, expected as nat, core);
}

/// After a startup the pool has a worker on every core that it had one on, on every core that was
/// persisted and on every configured core, and on no other. A persisted worker has the filter that it
/// was last persisted with, an empty one included; a worker that was there and not persisted keeps its
/// filter; every other worker is idle.
pub proof fn law_startup_restores_and_fills_the_pool<E>(
    pool: Map<u32, PoolWorker>,
    persisted: Seq<PersistedWorkerInfo>,
    expected: u32,
    log: Seq<Asked<E>>,
    counts: (usize, usize),
    core: u32,
)
    requires
        startup_outcome(persisted, expected, log, Ok::<(usize, usize), E>(counts)),
        reports_its_pool(pool, log),
    ensures
        pool_of(pool, log).dom().contains(core) <==> pool.dom().contains(core) || last_record(
            persisted,
            core,
        ) is Some || 1 <= core <= expected,
        pool_of(pool, log).dom().contains(core) ==> pool_of(pool, log)[core].filter == (
        match last_record(persisted, core) {
            Some(record) => record.filter@,
            None => if pool.dom().contains(core) {
                pool[core].filter
            } else {
                Seq::empty()
            },
        }),
{
    let connected = choose|connected: Seq<u32>| #[trigger]
        started(persisted, expected, log, connected, counts);
    lemma_startup_pool(pool, persisted, expected, log, connected, counts, core);
}

/// A record's worker comes back as it was persisted. The last record of a core gives its filter,
/// whatever else it holds. An operator's flag in any record of the core comes back, and none comes
/// that was not there. The last pending frame above zero comes back.
pub proof fn law_startup_restores_what_was_persisted<E>(
    pool: Map<u32, PoolWorker>,
    persisted: Seq<PersistedWorkerInfo>,
    expected: u32,
    log: Seq<Asked<E>>,
    counts: (usize, usize),
    i: int,
)
    requires
        startup_outcome(persisted, expected, log, Ok::<(usize, usize), E>(counts)),
        reports_its_pool(pool, log),
        0 <= i < persisted.len(),
    ensures
        pool_of(pool, log).dom().contains(persisted[i].core_id),
        (forall|j: int|
            i < j < persisted.len() ==> (#[trigger] persisted[j]).core_id != persisted[i].core_id)
            ==> pool_of(pool, log)[persisted[i].core_id].filter == persisted[i].filter@,
        persisted[i].manually_managed ==> pool_of(
            pool,
            log,
        )[persisted[i].core_id].manually_managed,
        pool_of(pool, log)[persisted[i].core_id].manually_managed ==> (pool.dom().contains(
            persisted[i].core_id,
        ) && pool[persisted[i].core_id].manually_managed) || exists|j: int|
            0 <= j < persisted.len() && (#[trigger] persisted[j]).core_id == persisted[i].core_id
                && persisted[j].manually_managed,
        persisted[i].pending_filter_frame > 0 && (forall|j: int|
            i < j < persisted.len() && (#[trigger] persisted[j]).core_id == persisted[i].core_id
                ==> persisted[j].pending_filter_frame == 0) ==> pool_of(
            pool,
            log,
        )[persisted[i].core_id].pending_filter_frame == persisted[i].pending_filter_frame,
        (forall|j: int|
            0 <= j < persisted.len() && (#[trigger] persisted[j]).core_id == persisted[i].core_id
                ==> persisted[j].pending_filter_frame == 0) ==> pool_of(
            pool,
            log,
        )[persisted[i].core_id].pending_filter_frame == (if pool.dom().contains(
            persisted[i].core_id,
        ) {
            pool[persisted[i].core_id].pending_filter_frame
        } else {
            0
        }),
{
    let core = persisted[i].core_id;
    let connected = choose|connected: Seq<u32>| #[trigger]
        started(persisted, expected, log, connected, counts);
    lemma_last_record(persisted, core);
    lemma_startup_pool(pool, persisted, expected, log, connected, counts, core);
    assert(last_record(persisted, core) is Some);
    assert(restored_as(pool, persisted, core, pool_of(pool, log)));
    if forall|j: int|
        i < j < persisted.len() ==> (#[trigger] persisted[j]).core_id != persisted[i].core_id {
        assert(is_last_of_core(persisted, i));
    }
    if persisted[i].pending_filter_frame > 0 && (forall|j: int|
        i < j < persisted.len() && (#[trigger] persisted[j]).core_id == persisted[i].core_id
            ==> persisted[j].pending_filter_frame == 0) {
        assert(is_last_pending_of_core(persisted, i));
    }
}

/// What was not persisted stays as it was, and a worker that is created is idle: it has no filter, no
/// operator's flag and no pending frame.
pub proof fn law_startup_leaves_the_rest_alone<E>(
    pool: Map<u32, PoolWorker>,
    persisted: Seq<PersistedWorkerInfo>,
    expected: u32,
    log: Seq<Asked<E>>,
    counts: (usize, usize),
    core: u32,
)
    requires
        startup_outcome(persisted, expected, log, Ok::<(usize, usize), E>(counts)),
        reports_its_pool(pool, log),
        forall|i: int| 0 <= i < persisted.len() ==> (#[trigger] persisted[i]).core_id != core,
    ensures
        pool.dom().contains(core) ==> pool_of(pool, log).dom().contains(core) && pool_of(
            pool,
            log,
        )[core] == pool[core],
        !pool.dom().contains(core) && 1 <= core <= expected ==> pool_of(pool, log).dom().contains(
            core,
        ) && pool_of(pool, log)[core] == (PoolWorker {
            filter: Seq::empty(),
            manually_managed: false,
            pending_filter_frame: 0,
        }),
        !pool.dom().contains(core) && !(1 <= core <= expected) ==> !pool_of(
            pool,
            log,
        ).dom().contains(core),
{
    let connected = choose|connected: Seq<u32>| #[trigger]
        started(persisted, expected, log, connected, counts);
    lemma_last_record(persisted, core);
    lemma_startup_pool(pool, persisted, expected, log, connected, counts, core);
    if pool.dom().contains(core) {
        assert(restored_as(pool, persisted, core, pool_of(pool, log)));
        assert(pool_of(pool, log)[core].filter == pool[core].filter);
    }
}

/// How many workers a startup creates: one for each configured core that was neither in the pool nor
/// persisted.
pub proof fn law_created_workers_are_counted<E>(
    pool: Map<u32, PoolWorker>,
    persisted: Seq<PersistedWorkerInfo>,
    expected: u32,
    log: Seq<Asked<E>>,
    counts: (usize, usize),
)
    requires
        startup_outcome(persisted, expected, log, Ok::<(usize, usize), E>(counts)),
        reports_its_pool(pool, log),
    ensures
        counts.0 == persisted.len(),
        exists|cores: Seq<u32>|
            cores.len() == counts.1 && #[trigger] cores.no_duplicates() && forall|core: u32| #[trigger]
                cores.contains(core) <==> 1 <= core <= expected && !pool.dom().contains(core)
                    && last_record(persisted, core) is None,
{
    let connected = choose|connected: Seq<u32>| #[trigger]
        started(persisted, expected, log, connected, counts);
    let cores = missing_cores(connected, expected as nat);
    law_every_core_gets_one_worker(connected, expected);
    assert forall|core: u32| #[trigger] cores.contains(core) <==> 1 <= core <= expected
        && !pool.dom().contains(core) && last_record(persisted, core) is None by {
        lemma_missing_cores(connected, expected as nat, core);
        lemma_startup_pool(pool, persisted, expected, log, connected, counts, core);
    }
    assert(cores.no_duplicates());
}

/// A start after a start creates nothing and comes to the same cores and filters, whatever part of
/// the pool is still there, as long as the rest was persisted as it was: with the whole pool there it
/// is a second start, with none of it there it is a restart. Where flags and pending frames were
/// persisted too, it comes to the same pool.
pub proof fn law_a_second_start_creates_nothing<E>(
    pool: Map<u32, PoolWorker>,
    remaining: Map<u32, PoolWorker>,
    persisted: Seq<PersistedWorkerInfo>,
    expected: u32,
    log: Seq<Asked<E>>,
    counts: (usize, usize),
)
    requires
        forall|core: u32| 1 <= core <= expected ==> #[trigger] pool.dom().contains(core),
        forall|core: u32| #[trigger]
            pool.dom().contains(core) <==> remaining.dom().contains(core) || last_record(
                persisted,
                core,
            ) is Some,
        forall|core: u32| #[trigger]
            remaining.dom().contains(core) ==> remaining[core].filter == pool[core].filter,
        forall|core: u32| #[trigger]
            last_record(persisted, core) matches Some(record) ==> record.filter@
                == pool[core].filter,
        startup_outcome(persisted, expected, log, Ok::<(usize, usize), E>(counts)),
        reports_its_pool(remaining, log),
    ensures
        counts.1 == 0,
        pool_of(remaining, log).dom() == pool.dom(),
        forall|core: u32|
            pool.dom().contains(core) ==> (#[trigger] pool_of(remaining, log)[core]).filter
                == pool[core].filter,
        (forall|core: u32| #[trigger]
            remaining.dom().contains(core) ==> remaining[core] == pool[core]) && (forall|i: int|
            0 <= i < persisted.len() ==> (#[trigger] persisted[i]).manually_managed
                == pool[persisted[i].core_id].manually_managed && persisted[i].pending_filter_frame
                == pool[persisted[i].core_id].pending_filter_frame) ==> pool_of(remaining, log)
            == pool,
{
    let connected = choose|connected: Seq<u32>| #[trigger]
        started(persisted, expected, log, connected, counts);
    let after = pool_of(remaining, log);
    assert forall|core: u32| after.dom().contains(core) <==> pool.dom().contains(core) by {
        law_startup_restores_and_fills_the_pool(remaining, persisted, expected, log, counts, core);
    }
    assert(after.dom() =~= pool.dom());
    assert forall|core: u32| pool.dom().contains(core) implies (#[trigger] after[core]).filter
        == pool[core].filter by {
        law_startup_restores_and_fills_the_pool(remaining, persisted, expected, log, counts, core);
        assert(last_record(persisted, core) is Some || remaining.dom().contains(core));
    }
    let cores = missing_cores(connected, expected as nat);
    if cores.len() > 0 {
        let core = cores[0];
        assert(cores.contains(core));
        lemma_missing_cores(connected, expected as nat, core);
        lemma_startup_pool(remaining, persisted, expected, log, connected, counts, core);
        assert(pool.dom().contains(core));
    }
    if (forall|core: u32| #[trigger]
        remaining.dom().contains(core) ==> remaining[core] == pool[core]) && (forall|i: int|
        0 <= i < persisted.len() ==> (#[trigger] persisted[i]).manually_managed
            == pool[persisted[i].core_id].manually_managed && persisted[i].pending_filter_frame
            == pool[persisted[i].core_id].pending_filter_frame) {
        assert forall|core: u32| after.dom().contains(core) implies after[core] == pool[core] by {
            assert(pool.dom().contains(core));
            assert(after[core].filter == pool[core].filter);
            lemma_startup_pool(remaining, persisted, expected, log, connected, counts, core);
            lemma_last_record(persisted, core);
            assert(restored_as(remaining, persisted, core, after));
            if last_record(persisted, core) is Some {
                let i = choose|i: int| #[trigger]
                    is_last_of_core(persisted, i) && persisted[i] == last_record(
                        persisted,
                        core,
                    )->0 && persisted[i].core_id == core;
                assert(persisted[i].manually_managed == pool[core].manually_managed);
                if pool[core].pending_filter_frame > 0 {
                    assert(is_last_pending_of_core(persisted, i));
                }
            }
        }
        assert(after =~= pool);
    }
}

/// A request that the manager refuses is the last one: every request before it was granted.
pub proof fn law_nothing_follows_a_refusal<E>(
    persisted: Seq<PersistedWorkerInfo>,
    expected: u32,
    log: Seq<Asked<E>>,
    error: E,
)
    requires
        startup_outcome(persisted, expected, log, Err::<(usize, usize), E>(error)),
    ensures
        log.len() > 0,
        refuses(log.last(), error),
        forall|i: int| 0 <= i < log.len() - 1 ==> granted(#[trigger] log[i]),
{
    if stopped(restore_commands(persisted), log, error) {
        lemma_stopped_log(restore_commands(persisted), log, error);
    } else if log == restore_log(persisted, Err::<Seq<u32>, E>(error)) {
    } else {
        let (connected, tail) = choose|connected: Seq<u32>, tail: Seq<Asked<E>>| #[trigger]
            stopped(
                allocate_commands(missing_cores(connected, expected as nat)),
                tail,
                error,
            ) && log == restore_log::<E>(persisted, Ok(connected)) + tail;
        lemma_stopped_log(
            allocate_commands(missing_cores(connected, expected as nat)),
            tail,
            error,
        );
        let head = restore_log::<E>(persisted, Ok(connected));
        assert forall|i: int| 0 <= i < log.len() - 1 implies granted(#[trigger] log[i]) by {
            if i >= head.len() {
                assert(log[i] == tail[i - head.len()]);
            }
        }
    }
}

/// The manager granted the request.
pub open spec fn granted<E>(asked: Asked<E>) -> bool {
    match asked {
        Asked::Ran { reply, .. } => reply is Ok,
        Asked::Connected { reply } => reply is Ok,
    }
}

/// The manager refused the request with `error`.
pub open spec fn refuses<E>(asked: Asked<E>, error: E) -> bool {
    match asked {
        Asked::Ran { reply, .. } => reply == Err::<(), E>(error),
        Asked::Connected { reply } => reply == Err::<Seq<u32>, E>(error),
    }
}

proof fn lemma_stopped_log<E>(commands: Seq<CommandView>, log: Seq<Asked<E>>, error: E)
    requires
        stopped(commands, log, error),
    ensures
        log.len() > 0,
        refuses(log.last(), error),
        forall|i: int| 0 <= i < log.len() - 1 ==> granted(#[trigger] log[i]),
{
}

/// What the logic sees of a command is all that the manager is told by it.
pub proof fn law_commands_are_seen_whole(a: PoolCommand, b: PoolCommand)
    requires
        a@ == b@,
    ensures
        match a {
            PoolCommand::SetWorkerFilter { core_id, filter, allocated } => b matches
                PoolCommand::SetWorkerFilter { core_id: c, filter: f, allocated: l } && c == core_id
                && f@ == filter@ && l == allocated,
            PoolCommand::SetManuallyManaged { core_id, manually_managed } => b
                == PoolCommand::SetManuallyManaged { core_id, manually_managed },
            PoolCommand::SetPendingFilterFrame { core_id, frame } => b
                == PoolCommand::SetPendingFilterFrame { core_id, frame },
            PoolCommand::AllocateWorker { core_id, filter } => b matches
                PoolCommand::AllocateWorker { core_id: c, filter: f } && c == core_id && f@
                == filter@,
        },
{
}

/// The commands read as they are written: each names its core and what is set.
pub proof fn law_commands_read_as_written(
    core: u32,
    data: Vec<u8>,
    on: bool,
    number: u64,
    commands: Seq<PoolCommand>,
)
    ensures
        (PoolCommand::SetWorkerFilter { core_id: core, filter: data, allocated: on })@ == (
        CommandView::SetWorkerFilter { core_id: core, filter: data@, allocated: on }),
        (PoolCommand::SetManuallyManaged { core_id: core, manually_managed: on })@ == (
        CommandView::SetManuallyManaged { core_id: core, manually_managed: on }),
        (PoolCommand::SetPendingFilterFrame { core_id: core, frame: number })@ == (
        CommandView::SetPendingFilterFrame { core_id: core, frame: number }),
        (PoolCommand::AllocateWorker { core_id: core, filter: data })@ == (
        CommandView::AllocateWorker { core_id: core, filter: data@ }),
        command_views(commands).len() == commands.len(),
        forall|i: int|
            0 <= i < commands.len() ==> #[trigger] command_views(commands)[i] == commands[i]@,
{
}

/// A run of commands asks for each of them once, in order, up to the first that is refused.
pub proof fn law_a_run_asks_in_order<E>(
    commands: Seq<CommandView>,
    log: Seq<Asked<E>>,
    outcome: Result<(), E>,
)
    requires
        run_log(commands, log, outcome),
    ensures
        outcome is Ok ==> log.len() == commands.len(),
        outcome is Err ==> 0 < log.len() <= commands.len(),
        forall|i: int|
            0 <= i < log.len() ==> #[trigger] log[i] == (Asked::Ran {
                command: commands[i],
                reply: if i == log.len() - 1 {
                    outcome
                } else {
                    Ok::<(), E>(())
                },
            }),
{
    match outcome {
        Ok(unit) => {
            assert(unit == ());
        },
        Err(error) => {
            let k = choose|k: int|
                0 <= k < commands.len() && log == all_ran::<E>(commands.take(k)).push(
                    Asked::Ran { command: #[trigger] commands[k], reply: Err(error) },
                );
            assert(log.len() == k + 1);
        },
    }
}

} // verus!
