use quil_shard::frame_mirror::{FrameMirror, MirrorAction, MirroredHeader};

fn begin() -> FrameMirror {
    let header = MirroredHeader { frame_number: 12, output: vec![1, 2, 3] };
    FrameMirror::begin(&[0xaa, 0xbb], Some(Some(header))).unwrap()
}

fn run(mut mirror: FrameMirror, hash: Option<[u8; 32]>, outcomes: &[bool]) -> Vec<MirrorAction> {
    let mut seen = Vec::new();
    let mut next = outcomes.iter();
    loop {
        let action = mirror.action();
        if action == MirrorAction::Finish {
            assert!(next.next().is_none());
            return seen;
        }
        seen.push(action);
        if action == MirrorAction::HashOutput {
            mirror.hashed(hash);
        } else {
            mirror.replied(*next.next().unwrap());
        }
    }
}

#[test]
fn frame_is_staged_and_then_made_the_head() {
    assert_eq!(
        run(begin(), Some([9; 32]), &[true, true, true, true, true, true]),
        vec![
            MirrorAction::HashOutput,
            MirrorAction::OpenTransaction,
            MirrorAction::StageFrame,
            MirrorAction::CommitTransaction,
            MirrorAction::OpenTransaction,
            MirrorAction::CommitHead,
            MirrorAction::CommitTransaction,
        ]
    );
}

#[test]
fn head_is_committed_although_staging_failed() {
    assert_eq!(
        run(begin(), None, &[true, false, true, true, true, true]),
        vec![
            MirrorAction::HashOutput,
            MirrorAction::OpenTransaction,
            MirrorAction::StageFrame,
            MirrorAction::WarnStageFailed,
            MirrorAction::OpenTransaction,
            MirrorAction::CommitHead,
            MirrorAction::CommitTransaction,
        ]
    );
    assert_eq!(
        run(begin(), None, &[false, true, false, true]),
        vec![
            MirrorAction::HashOutput,
            MirrorAction::OpenTransaction,
            MirrorAction::OpenTransaction,
            MirrorAction::CommitHead,
            MirrorAction::WarnHeadFailed,
        ]
    );
    assert_eq!(
        run(begin(), None, &[true, true, false, false]),
        vec![
            MirrorAction::HashOutput,
            MirrorAction::OpenTransaction,
            MirrorAction::StageFrame,
            MirrorAction::CommitTransaction,
            MirrorAction::OpenTransaction,
        ]
    );
}

#[test]
fn mirror_hands_out_what_the_store_needs() {
    let mut mirror = begin();
    assert_eq!(mirror.filter(), &[0xaa, 0xbb]);
    assert_eq!(mirror.frame_number(), 12);
    assert_eq!(mirror.output(), &[1, 2, 3]);
    mirror.hashed(Some([7; 32]));
    assert_eq!(mirror.selector(), &[7; 32]);
    let mut unhashed = begin();
    unhashed.hashed(None);
    assert!(unhashed.selector().is_empty());
}

#[test]
fn other_traffic_and_headless_frames_are_ignored() {
    assert!(FrameMirror::begin(&[1], None).is_none());
    assert!(FrameMirror::begin(&[1], Some(None)).is_none());
}

#[test]
fn a_failed_commit_changes_nothing_that_follows() {
    let granted = run(begin(), Some([9; 32]), &[true, true, true, true, true, true]);
    assert_eq!(run(begin(), Some([9; 32]), &[true, true, false, true, true, false]), granted);
}
