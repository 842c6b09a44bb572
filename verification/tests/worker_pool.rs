use std::cell::RefCell;
use std::collections::BTreeMap;

use quil_shard::worker_manager::WorkerManager;
use quil_shard::worker_pool::{
    absent_cores, commands_to_fill, commands_to_restore, cores_to_preallocate,
    restore_and_fill_worker_pool, run_commands, startup_plan, PersistedWorkerInfo, PoolCommand,
    StartupPlan,
};

#[derive(Clone, Debug, Default, PartialEq)]
struct Slot {
    filter: Vec<u8>,
    manually_managed: bool,
    pending: u64,
}

#[derive(Default)]
struct TestWorkerManager {
    slots: RefCell<BTreeMap<u32, Slot>>,
    refused_core: Option<u32>,
    broken: bool,
}

impl TestWorkerManager {
    fn run(&self, command: &PoolCommand) -> Result<(), String> {
        let mut slots = self.slots.borrow_mut();
        match command {
            PoolCommand::SetWorkerFilter { core_id, filter, .. }
            | PoolCommand::AllocateWorker { core_id, filter } => {
                if self.refused_core == Some(*core_id) {
                    return Err(format!("core {core_id} refused"));
                }
                slots.entry(*core_id).or_default().filter = filter.clone();
            }
            PoolCommand::SetManuallyManaged { core_id, manually_managed } => {
                slots.entry(*core_id).or_default().manually_managed = *manually_managed;
            }
            PoolCommand::SetPendingFilterFrame { core_id, frame } => {
                slots.entry(*core_id).or_default().pending = *frame;
            }
        }
        Ok(())
    }

    fn connected(&self) -> Result<Vec<u32>, String> {
        if self.broken {
            return Err("no answer".to_string());
        }
        Ok(self.slots.borrow().keys().copied().collect())
    }

    fn start(
        &self,
        persisted: &[PersistedWorkerInfo],
        expected: u32,
    ) -> Result<(usize, usize), String> {
        let mut manager =
            WorkerManager::new(|command: &PoolCommand| self.run(command), || self.connected());
        restore_and_fill_worker_pool(&mut manager, persisted, expected)
    }
}

fn record(core_id: u32, filter: &[u8]) -> PersistedWorkerInfo {
    PersistedWorkerInfo {
        core_id,
        filter: filter.to_vec(),
        manually_managed: false,
        allocated: !filter.is_empty(),
        pending_filter_frame: 0,
    }
}

#[test]
fn restart_restores_idle_worker_slot_and_fills_missing_cores() {
    // Core 2 was allocated and core 3 was idle. Both are persisted; restarting must retain the idle
    // core.
    let manager = TestWorkerManager::default();
    let persisted = vec![
        PersistedWorkerInfo {
            core_id: 2,
            filter: vec![0xaa],
            manually_managed: false,
            allocated: true,
            pending_filter_frame: 0,
        },
        PersistedWorkerInfo {
            core_id: 3,
            filter: Vec::new(),
            manually_managed: false,
            allocated: false,
            pending_filter_frame: 0,
        },
    ];

    assert_eq!(manager.start(&persisted, 3).unwrap(), (2, 1));
    let slots = manager.slots.borrow();
    assert_eq!(slots.keys().copied().collect::<Vec<_>>(), vec![1, 2, 3]);
    assert!(slots[&3].filter.is_empty());
    assert_eq!(slots[&2].filter, vec![0xaa]);
}

#[test]
fn operator_flag_and_pending_frame_are_restored() {
    let mut managed = record(4, &[1, 2]);
    managed.manually_managed = true;
    managed.pending_filter_frame = 9;
    let commands = commands_to_restore(&[managed.clone(), record(5, &[])]);
    assert_eq!(
        commands,
        vec![
            PoolCommand::SetWorkerFilter { core_id: 4, filter: vec![1, 2], allocated: false },
            PoolCommand::SetManuallyManaged { core_id: 4, manually_managed: true },
            PoolCommand::SetPendingFilterFrame { core_id: 4, frame: 9 },
            PoolCommand::SetWorkerFilter { core_id: 5, filter: vec![], allocated: false },
        ]
    );
    let manager = TestWorkerManager::default();
    assert_eq!(manager.start(&[managed], 0), Ok((1, 0)));
    assert_eq!(
        manager.slots.borrow()[&4],
        Slot { filter: vec![1, 2], manually_managed: true, pending: 9 }
    );
}

#[test]
fn filling_creates_absent_cores_only() {
    assert_eq!(absent_cores(&vec![2, 7, 2], 4), vec![1, 3, 4]);
    assert_eq!(
        commands_to_fill(&vec![1], 2),
        vec![PoolCommand::AllocateWorker { core_id: 2, filter: vec![] }]
    );
    let manager = TestWorkerManager::default();
    assert_eq!(manager.start(&[], 3), Ok((0, 3)));
    assert_eq!(manager.start(&[], 3), Ok((0, 0)));
}

#[test]
fn a_record_beyond_the_configured_cores_is_kept() {
    let manager = TestWorkerManager::default();
    assert_eq!(manager.start(&[record(9, &[7])], 2), Ok((1, 2)));
    assert_eq!(manager.slots.borrow().keys().copied().collect::<Vec<_>>(), vec![1, 2, 9]);
}

#[test]
fn a_refused_command_ends_the_startup() {
    let refusing = TestWorkerManager { refused_core: Some(2), ..Default::default() };
    assert_eq!(refusing.start(&[record(2, &[1])], 3), Err("core 2 refused".to_string()));
    assert!(refusing.slots.borrow().is_empty());
    assert_eq!(refusing.start(&[record(3, &[1])], 3), Err("core 2 refused".to_string()));
    assert_eq!(refusing.slots.borrow().keys().copied().collect::<Vec<_>>(), vec![1, 3]);
    let broken = TestWorkerManager { broken: true, ..Default::default() };
    assert_eq!(broken.start(&[record(3, &[1])], 3), Err("no answer".to_string()));
    assert_eq!(broken.slots.borrow().keys().copied().collect::<Vec<_>>(), vec![3]);
}

#[test]
fn commands_run_in_order_up_to_the_first_refusal() {
    let seen = RefCell::new(Vec::new());
    let run = |command: &PoolCommand| -> Result<(), u8> {
        seen.borrow_mut().push(command.clone());
        if matches!(command, PoolCommand::SetManuallyManaged { .. }) {
            Err(1)
        } else {
            Ok(())
        }
    };
    let commands = vec![
        PoolCommand::AllocateWorker { core_id: 1, filter: vec![] },
        PoolCommand::SetManuallyManaged { core_id: 1, manually_managed: true },
        PoolCommand::AllocateWorker { core_id: 2, filter: vec![] },
    ];
    let mut manager = WorkerManager::new(run, || Ok(vec![]));
    assert_eq!(run_commands(&mut manager, &commands), Err(1));
    assert_eq!(*seen.borrow(), commands[..2].to_vec());
}

#[test]
fn archives_and_clusters_start_differently() {
    assert_eq!(
        startup_plan(0, false),
        StartupPlan { cluster: false, restore: true, preallocate: true, apply_filters: true }
    );
    assert_eq!(
        startup_plan(0, true),
        StartupPlan { cluster: false, restore: false, preallocate: false, apply_filters: false }
    );
    assert_eq!(
        startup_plan(2, false),
        StartupPlan { cluster: true, restore: false, preallocate: true, apply_filters: true }
    );
    assert_eq!(
        startup_plan(2, true),
        StartupPlan { cluster: true, restore: false, preallocate: false, apply_filters: false }
    );
}

#[test]
fn idle_workers_are_preallocated_only_into_an_empty_pool() {
    assert_eq!(cores_to_preallocate(None, 3), vec![1, 2, 3]);
    assert_eq!(cores_to_preallocate(Some(&vec![]), 2), vec![1, 2]);
    assert_eq!(cores_to_preallocate(Some(&vec![5]), 2), Vec::<u32>::new());
    assert_eq!(cores_to_preallocate(None, 0), Vec::<u32>::new());
}

#[test]
fn a_second_restart_finds_the_same_pool() {
    let first = TestWorkerManager::default();
    assert_eq!(first.start(&[record(5, &[9]), record(2, &[]), record(5, &[8])], 3), Ok((3, 2)));
    let slots = first.slots.borrow().clone();
    assert_eq!(slots.keys().copied().collect::<Vec<_>>(), vec![1, 2, 3, 5]);
    assert_eq!(slots[&5].filter, vec![8]);
    let persisted: Vec<PersistedWorkerInfo> =
        slots.iter().map(|(core_id, slot)| record(*core_id, &slot.filter)).collect();
    let second = TestWorkerManager::default();
    assert_eq!(second.start(&persisted, 3), Ok((4, 0)));
    assert_eq!(*second.slots.borrow(), slots);
}

#[test]
fn the_pool_is_listed_once_between_restoring_and_filling() {
    let seen = RefCell::new(Vec::new());
    let mut manager = WorkerManager::new(
        |command: &PoolCommand| -> Result<(), u8> {
            seen.borrow_mut().push(Some(command.clone()));
            Ok(())
        },
        || {
            seen.borrow_mut().push(None);
            Ok(vec![2])
        },
    );
    let counts = restore_and_fill_worker_pool(&mut manager, &[record(2, &[7])], 3);
    assert_eq!(counts, Ok((1, 2)));
    drop(manager);
    assert_eq!(
        seen.into_inner(),
        vec![
            Some(PoolCommand::SetWorkerFilter { core_id: 2, filter: vec![7], allocated: false }),
            None,
            Some(PoolCommand::AllocateWorker { core_id: 1, filter: vec![] }),
            Some(PoolCommand::AllocateWorker { core_id: 3, filter: vec![] }),
        ]
    );
}

#[test]
fn a_core_out_of_range_is_kept_and_an_absent_one_created() {
    let manager = TestWorkerManager::default();
    assert_eq!(manager.start(&[record(5, &[0xaa])], 1), Ok((1, 1)));
    assert_eq!(manager.slots.borrow().keys().copied().collect::<Vec<_>>(), vec![1, 5]);
}

#[test]
fn workers_that_are_there_keep_their_filters() {
    let manager = TestWorkerManager::default();
    manager.run(&PoolCommand::AllocateWorker { core_id: 2, filter: vec![4] }).unwrap();
    assert_eq!(manager.start(&[], 2), Ok((0, 1)));
    assert_eq!(manager.slots.borrow()[&2].filter, vec![4]);
    assert!(manager.slots.borrow()[&1].filter.is_empty());
}
