//! Syncing prover and shard trees from archives.
//!
//! Workers need the prover tree to resolve leader rotation, to verify frame headers and to attribute
//! shard work. How an archive is reached is up to the implementation.

use vstd::prelude::*;

verus! {

/// Syncs the global prover tree, and shard trees where the implementation supports them, from an
/// archive.
pub trait ProverTreeSyncer: Send + Sync {
    /// An app-shard frame as an archive hands it out.
    type Frame;

    /// Why a sync or a fetch failed.
    type Error;

    /// Syncs the global prover tree and pins each phase to `expected_roots[phase]`: the prover tree
    /// commitment, then the auxiliary roots of the other three phases. An empty slice trusts the
    /// peer. `Ok(true)` when the roots match after the sync, `Ok(false)` when the sync completed and
    /// they still diverge.
    fn sync_prover_tree(&self, expected_roots: &[Vec<u8>]) -> Result<bool, Self::Error>;

    /// Syncs the subtrees of one app shard and pins each of the four phases to
    /// `expected_roots[phase]`. An empty entry trusts the peer for its phase. A syncer without shard
    /// sync does nothing.
    fn sync_shard_tree(&self, filter: &[u8], expected_roots: &[Vec<u8>]) -> (r: Result<
        bool,
        Self::Error,
    >)
        default_ensures
            r == Ok::<bool, Self::Error>(false),
    {
        Ok(false)
    }

    /// As [`Self::sync_shard_tree`], but asks the archive at `endpoint` where the implementation
    /// supports it, so that an anchor frame and its roots come from the same archive.
    fn sync_shard_tree_at_endpoint(
        &self,
        filter: &[u8],
        expected_roots: &[Vec<u8>],
        endpoint: Option<&str>,
    ) -> (r: Result<bool, Self::Error>)
        default_ensures
            call_ensures(Self::sync_shard_tree, (self, filter, expected_roots), r),
    {
        self.sync_shard_tree(filter, expected_roots)
    }

    /// Fetches an app-shard frame. Frame number zero asks for the latest frame. A syncer without
    /// shard sync has none.
    fn get_app_shard_frame(&self, filter: &[u8], frame_number: u64) -> (r: Result<
        Option<Self::Frame>,
        Self::Error,
    >)
        default_ensures
            r == Ok::<Option<Self::Frame>, Self::Error>(None),
    {
        Ok(None)
    }

    /// As [`Self::get_app_shard_frame`], but asks the archive at `endpoint` where the implementation
    /// supports it, and tells which endpoint answered where it knows.
    fn get_app_shard_frame_at_endpoint(
        &self,
        filter: &[u8],
        frame_number: u64,
        endpoint: Option<&str>,
    ) -> (r: Result<(Option<Self::Frame>, Option<String>), Self::Error>)
        default_ensures
            exists|fetched: Result<Option<Self::Frame>, Self::Error>| #[trigger]
                call_ensures(Self::get_app_shard_frame, (self, filter, frame_number), fetched)
                    && match fetched {
                    Ok(frame) => r == Ok::<(Option<Self::Frame>, Option<String>), Self::Error>(
                        (frame, None),
                    ),
                    Err(error) => r == Err::<(Option<Self::Frame>, Option<String>), Self::Error>(
                        error,
                    ),
                },
    {
        match self.get_app_shard_frame(filter, frame_number) {
            Ok(frame) => Ok((frame, None)),
            Err(error) => Err(error),
        }
    }
}

} // verus!
