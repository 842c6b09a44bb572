use std::cell::RefCell;
use std::sync::Mutex;

use quil_shard::prover_tree_syncer::ProverTreeSyncer;

struct GlobalOnly;

impl ProverTreeSyncer for GlobalOnly {
    type Frame = u64;
    type Error = String;

    fn sync_prover_tree(&self, expected_roots: &[Vec<u8>]) -> Result<bool, String> {
        Ok(expected_roots.is_empty())
    }
}

struct WithShards {
    asked: Mutex<RefCell<Vec<(Vec<u8>, usize)>>>,
}

impl ProverTreeSyncer for WithShards {
    type Frame = u64;
    type Error = String;

    fn sync_prover_tree(&self, _expected_roots: &[Vec<u8>]) -> Result<bool, String> {
        Err("unreachable".to_string())
    }

    fn sync_shard_tree(&self, filter: &[u8], expected_roots: &[Vec<u8>]) -> Result<bool, String> {
        self.asked.lock().unwrap().borrow_mut().push((filter.to_vec(), expected_roots.len()));
        Ok(true)
    }

    fn get_app_shard_frame(&self, _filter: &[u8], frame_number: u64) -> Result<Option<u64>, String> {
        if frame_number == 7 {
            Err("no such frame".to_string())
        } else {
            Ok(Some(frame_number + 1))
        }
    }
}

#[test]
fn a_syncer_without_shard_sync_does_nothing_for_shards() {
    let syncer = GlobalOnly;
    assert_eq!(syncer.sync_prover_tree(&[]), Ok(true));
    assert_eq!(syncer.sync_shard_tree(&[1], &[vec![2]]), Ok(false));
    assert_eq!(syncer.sync_shard_tree_at_endpoint(&[1], &[], Some("a:8340")), Ok(false));
    assert_eq!(syncer.get_app_shard_frame(&[1], 0), Ok(None));
    assert_eq!(syncer.get_app_shard_frame_at_endpoint(&[1], 0, None), Ok((None, None)));
}

#[test]
fn endpoint_variants_fall_back_to_the_plain_ones() {
    let syncer = WithShards { asked: Mutex::new(RefCell::new(Vec::new())) };
    assert_eq!(syncer.sync_shard_tree_at_endpoint(&[1, 2], &[vec![]], Some("a:8340")), Ok(true));
    assert_eq!(*syncer.asked.lock().unwrap().borrow(), vec![(vec![1, 2], 1)]);
    assert_eq!(
        syncer.get_app_shard_frame_at_endpoint(&[1], 4, Some("a:8340")),
        Ok((Some(5), None))
    );
    assert_eq!(
        syncer.get_app_shard_frame_at_endpoint(&[1], 7, None),
        Err("no such frame".to_string())
    );
}
