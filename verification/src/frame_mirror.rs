//! Mirroring a finalized app-shard frame into the master's clock store.
//!
//! Workers commit frames into their own stores, which a service on the master's store cannot see. So
//! the frame is staged under a selector, which is the hash of the header's output, and the
//! latest-index head is committed on top of it: staging alone would not make the frame the latest
//! one. Both writes are best effort and stand in transactions of their own.
//!
//! The store acts, this module decides: [`FrameMirror::action`] tells what is due, and
//! [`FrameMirror::hashed`] and [`FrameMirror::replied`] take the outcome.

use vstd::prelude::*;
use vstd::slice::slice_to_vec;

verus! {

/// What the mirror reads of a frame's header.
#[derive(Clone, Debug, Eq, PartialEq)]
pub struct MirroredHeader {
    pub frame_number: u64,
    pub output: Vec<u8>,
}

/// What the store is asked to do.
#[derive(Clone, Copy, Debug, PartialEq, Eq, Structural)]
pub enum MirrorAction {
    /// Hash the header's output.
    HashOutput,
    /// Open a transaction.
    OpenTransaction,
    /// Stage the frame under the selector, in the open transaction.
    StageFrame,
    /// Commit the latest-index head for the filter, the frame number and the selector, in the open
    /// transaction.
    CommitHead,
    /// Commit the open transaction.
    CommitTransaction,
    /// Log that the frame could not be staged.
    WarnStageFailed,
    /// Log that the head could not be committed.
    WarnHeadFailed,
    /// Nothing more is due.
    Finish,
}

/// How far a mirroring has come.
#[derive(Clone, Copy, Debug, PartialEq, Eq, Structural)]
pub enum MirrorPhase {
    Hashing,
    OpeningForFrame,
    Staging,
    FrameStaged,
    FrameRefused,
    OpeningForHead,
    CommittingHead,
    HeadCommitted,
    HeadRefused,
    Finished,
}

impl MirrorPhase {
    /// What is due in a phase.
    pub open spec fn due(self) -> MirrorAction {
        match self {
            MirrorPhase::Hashing => MirrorAction::HashOutput,
            MirrorPhase::OpeningForFrame => MirrorAction::OpenTransaction,
            MirrorPhase::Staging => MirrorAction::StageFrame,
            MirrorPhase::FrameStaged => MirrorAction::CommitTransaction,
            MirrorPhase::FrameRefused => MirrorAction::WarnStageFailed,
            MirrorPhase::OpeningForHead => MirrorAction::OpenTransaction,
            MirrorPhase::CommittingHead => MirrorAction::CommitHead,
            MirrorPhase::HeadCommitted => MirrorAction::CommitTransaction,
            MirrorPhase::HeadRefused => MirrorAction::WarnHeadFailed,
            MirrorPhase::Finished => MirrorAction::Finish,
        }
    }

    /// The phase that follows when what was due has succeeded or failed.
    pub open spec fn after(self, ok: bool) -> MirrorPhase {
        match self {
            MirrorPhase::Hashing => MirrorPhase::OpeningForFrame,
            MirrorPhase::OpeningForFrame => if ok {
                MirrorPhase::Staging
            } else {
                MirrorPhase::OpeningForHead
            },
            MirrorPhase::Staging => if ok {
                MirrorPhase::FrameStaged
            } else {
                MirrorPhase::FrameRefused
            },
            MirrorPhase::FrameStaged => MirrorPhase::OpeningForHead,
            MirrorPhase::FrameRefused => MirrorPhase::OpeningForHead,
            MirrorPhase::OpeningForHead => if ok {
                MirrorPhase::CommittingHead
            } else {
                MirrorPhase::Finished
            },
            MirrorPhase::CommittingHead => if ok {
                MirrorPhase::HeadCommitted
            } else {
                MirrorPhase::HeadRefused
            },
            MirrorPhase::HeadCommitted => MirrorPhase::Finished,
            MirrorPhase::HeadRefused => MirrorPhase::Finished,
            MirrorPhase::Finished => MirrorPhase::Finished,
        }
    }
}

/// What the logic sees of a mirroring.
pub struct MirrorView {
    pub filter: Seq<u8>,
    pub frame_number: u64,
    pub output: Seq<u8>,
    pub selector: Seq<u8>,
    pub phase: MirrorPhase,
}

/// A mirroring in progress.
pub struct FrameMirror {
    filter: Vec<u8>,
    frame_number: u64,
    output: Vec<u8>,
    selector: Vec<u8>,
    phase: MirrorPhase,
}

impl FrameMirror {
    pub closed spec fn view(self) -> MirrorView {
        MirrorView {
            filter: self.filter@,
            frame_number: self.frame_number,
            output: self.output@,
            selector: self.selector@,
            phase: self.phase,
        }
    }

    /// Starts to mirror what came in for a filter. `decoded` is the frame that the bytes decode to,
    /// by its header where it has one. Bytes that are no frame are other traffic, and a frame
    /// without a header has no identity: there is nothing to do for either.
    pub fn begin(filter: &[u8], decoded: Option<Option<MirroredHeader>>) -> (r: Option<Self>)
        ensures
            r is Some <==> decoded is Some && decoded->0 is Some,
            r matches Some(mirror) ==> decoded matches Some(Some(header)) && mirror@ == (MirrorView {
                filter: filter@,
                frame_number: header.frame_number,
                output: header.output@,
                selector: Seq::empty(),
                phase: MirrorPhase::Hashing,
            }),
    {
        match decoded {
            Some(Some(header)) => {
                let selector: Vec<u8> = Vec::new();
                assert(selector@ =~= Seq::<u8>::empty());
                Some(
                    FrameMirror {
                        filter: slice_to_vec(filter),
                        frame_number: header.frame_number,
                        output: header.output,
                        selector,
                        phase: MirrorPhase::Hashing,
                    },
                )
            },
            _ => None,
        }
    }

    /// What is due.
    pub fn action(&self) -> (r: MirrorAction)
        ensures
            r == self@.phase.due(),
    {
        match self.phase {
            MirrorPhase::Hashing => MirrorAction::HashOutput,
            MirrorPhase::OpeningForFrame => MirrorAction::OpenTransaction,
            MirrorPhase::Staging => MirrorAction::StageFrame,
            MirrorPhase::FrameStaged => MirrorAction::CommitTransaction,
            MirrorPhase::FrameRefused => MirrorAction::WarnStageFailed,
            MirrorPhase::OpeningForHead => MirrorAction::OpenTransaction,
            MirrorPhase::CommittingHead => MirrorAction::CommitHead,
            MirrorPhase::HeadCommitted => MirrorAction::CommitTransaction,
            MirrorPhase::HeadRefused => MirrorAction::WarnHeadFailed,
            MirrorPhase::Finished => MirrorAction::Finish,
        }
    }

    /// Takes the hash of the header's output as the selector. Where there is no hash the selector is
    /// empty.
    pub fn hashed(&mut self, hash: Option<[u8; 32]>)
        requires
            old(self)@.phase == MirrorPhase::Hashing,
        ensures
            final(self)@ == (MirrorView {
                selector: match hash {
                    Some(hash) => hash@,
                    None => Seq::empty(),
                },
                phase: MirrorPhase::OpeningForFrame,
                ..old(self)@
            }),
    {
        let mut selector: Vec<u8> = Vec::new();
        if let Some(hash) = hash {
            selector.extend_from_slice(&hash);
            assert(selector@ =~= hash@);
        } else {
            assert(selector@ =~= Seq::<u8>::empty());
        }
        self.selector = selector;
        self.phase = MirrorPhase::OpeningForFrame;
    }

    /// Takes the outcome of what was due.
    pub fn replied(&mut self, ok: bool)
        requires
            old(self)@.phase != MirrorPhase::Hashing,
        ensures
            final(self)@ == (MirrorView { phase: old(self)@.phase.after(ok), ..old(self)@ }),
    {
        self.phase =
        match self.phase {
            MirrorPhase::Hashing => MirrorPhase::OpeningForFrame,
            MirrorPhase::OpeningForFrame => if ok {
                MirrorPhase::Staging
            } else {
                MirrorPhase::OpeningForHead
            },
            MirrorPhase::Staging => if ok {
                MirrorPhase::FrameStaged
            } else {
                MirrorPhase::FrameRefused
            },
            MirrorPhase::FrameStaged => MirrorPhase::OpeningForHead,
            MirrorPhase::FrameRefused => MirrorPhase::OpeningForHead,
            MirrorPhase::OpeningForHead => if ok {
                MirrorPhase::CommittingHead
            } else {
                MirrorPhase::Finished
            },
            MirrorPhase::CommittingHead => if ok {
                MirrorPhase::HeadCommitted
            } else {
                MirrorPhase::HeadRefused
            },
            MirrorPhase::HeadCommitted => MirrorPhase::Finished,
            MirrorPhase::HeadRefused => MirrorPhase::Finished,
            MirrorPhase::Finished => MirrorPhase::Finished,
        };
    }

    /// The filter that the head is committed for.
    pub fn filter(&self) -> (r: &[u8])
        ensures
            r@ == self@.filter,
    {
        self.filter.as_slice()
    }

    /// The number of the mirrored frame.
    pub fn frame_number(&self) -> (r: u64)
        ensures
            r == self@.frame_number,
    {
        self.frame_number
    }

    /// The header's output, which is to be hashed.
    pub fn output(&self) -> (r: &[u8])
        ensures
            r@ == self@.output,
    {
        self.output.as_slice()
    }

    /// The selector that the frame is staged under and the head points to.
    pub fn selector(&self) -> (r: &[u8])
        ensures
            r@ == self@.selector,
    {
        self.selector.as_slice()
    }
}

/// What is asked of the store from a phase on, when the outcomes are as `outcomes` says, up to the
/// end.
pub open spec fn actions_from(phase: MirrorPhase, outcomes: Seq<bool>) -> Seq<MirrorAction>
    decreases outcomes.len(),
{
    if phase == MirrorPhase::Finished || outcomes.len() == 0 {
        seq![]
    } else {
        seq![phase.due()] + actions_from(phase.after(outcomes[0]), outcomes.drop_first())
    }
}

/// The requests for one of the two writes, when its transaction opens or not and the write succeeds
/// or not.
pub open spec fn write_actions(
    write: MirrorAction,
    warning: MirrorAction,
    opens: bool,
    written: bool,
) -> Seq<MirrorAction> {
    if !opens {
        seq![MirrorAction::OpenTransaction]
    } else if written {
        seq![MirrorAction::OpenTransaction, write, MirrorAction::CommitTransaction]
    } else {
        seq![MirrorAction::OpenTransaction, write, warning]
    }
}

/// A transaction is committed exactly when the write in it succeeded, and a failure is logged
/// exactly when it did not.
pub proof fn law_only_successful_writes_are_committed(phase: MirrorPhase, ok: bool)
    ensures
        phase.after(ok).due() == MirrorAction::CommitTransaction <==> ok && (phase.due()
            == MirrorAction::StageFrame || phase.due() == MirrorAction::CommitHead),
        phase.after(ok).due() == MirrorAction::WarnStageFailed <==> !ok && phase.due()
            == MirrorAction::StageFrame,
        phase.after(ok).due() == MirrorAction::WarnHeadFailed <==> !ok && phase.due()
            == MirrorAction::CommitHead,
{
}

/// The outcomes of one of the two writes: whether its transaction opens, and, where it does, what
/// comes of the write and of what follows it, the commit or the warning.
pub open spec fn write_outcomes(opens: bool, written: bool, followed: bool) -> Seq<bool> {
    if opens {
        seq![true, written, followed]
    } else {
        seq![false]
    }
}

/// The head is committed whatever became of staging and of the commit of its transaction, and each
/// write is asked for once, in a transaction of its own.
pub proof fn law_head_is_committed_whatever_became_of_staging(
    opens: bool,
    staged: bool,
    committed: bool,
    head_opens: bool,
    head: bool,
    head_committed: bool,
)
    ensures
        actions_from(
            MirrorPhase::OpeningForFrame,
            write_outcomes(opens, staged, committed) + write_outcomes(
                head_opens,
                head,
                head_committed,
            ),
        ) == write_actions(
            MirrorAction::StageFrame,
            MirrorAction::WarnStageFailed,
            opens,
            staged,
        ) + write_actions(MirrorAction::CommitHead, MirrorAction::WarnHeadFailed, head_opens, head),
{
    reveal_with_fuel(actions_from, 8);
    let tail = write_outcomes(head_opens, head, head_committed);
    let outcomes = write_outcomes(opens, staged, committed) + tail;
    let head_actions = write_actions(
        MirrorAction::CommitHead,
        MirrorAction::WarnHeadFailed,
        head_opens,
        head,
    );
    assert(actions_from(MirrorPhase::OpeningForHead, tail) =~= head_actions) by {
        if head_opens {
            assert(tail.drop_first() =~= seq![head, head_committed]);
            assert(tail.drop_first().drop_first() =~= seq![head_committed]);
        }
    }
    if opens {
        assert(outcomes.drop_first() =~= seq![staged, committed] + tail);
        assert(outcomes.drop_first().drop_first() =~= seq![committed] + tail);
        assert(outcomes.drop_first().drop_first().drop_first() =~= tail);
    } else {
        assert(outcomes.drop_first() =~= tail);
    }
}

/// The phase that a mirroring is in after a row of outcomes.
pub open spec fn phase_after_all(phase: MirrorPhase, outcomes: Seq<bool>) -> MirrorPhase
    decreases outcomes.len(),
{
    if outcomes.len() == 0 {
        phase
    } else {
        phase_after_all(phase.after(outcomes[0]), outcomes.drop_first())
    }
}

/// A mirroring starts with the hash of the output and then opens a transaction; with the outcomes of
/// its two writes it is finished, and then nothing more is due, whatever comes.
pub proof fn law_a_mirroring_starts_and_ends(
    opens: bool,
    staged: bool,
    committed: bool,
    head_opens: bool,
    head: bool,
    head_committed: bool,
)
    ensures
        MirrorPhase::Hashing.due() == MirrorAction::HashOutput,
        MirrorPhase::OpeningForFrame.due() == MirrorAction::OpenTransaction,
        phase_after_all(
            MirrorPhase::OpeningForFrame,
            write_outcomes(opens, staged, committed) + write_outcomes(
                head_opens,
                head,
                head_committed,
            ),
        ).due() == MirrorAction::Finish,
        forall|phase: MirrorPhase, ok: bool|
            phase.due() == MirrorAction::Finish ==> #[trigger] phase.after(ok).due()
                == MirrorAction::Finish,
{
    reveal_with_fuel(phase_after_all, 8);
    let tail = write_outcomes(head_opens, head, head_committed);
    let outcomes = write_outcomes(opens, staged, committed) + tail;
    assert(phase_after_all(MirrorPhase::OpeningForHead, tail) == MirrorPhase::Finished) by {
        if head_opens {
            assert(tail.drop_first() =~= seq![head, head_committed]);
            assert(tail.drop_first().drop_first() =~= seq![head_committed]);
            assert(tail.drop_first().drop_first().drop_first() =~= Seq::<bool>::empty());
        } else {
            assert(tail.drop_first() =~= Seq::<bool>::empty());
        }
    }
    if opens {
        assert(outcomes.drop_first() =~= seq![staged, committed] + tail);
        assert(outcomes.drop_first().drop_first() =~= seq![committed] + tail);
        assert(outcomes.drop_first().drop_first().drop_first() =~= tail);
    } else {
        assert(outcomes.drop_first() =~= tail);
    }
}

} // verus!
