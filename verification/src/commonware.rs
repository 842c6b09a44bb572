//! What the library takes from the commonware crates: the wire form of a simplex proposal, the
//! ordered participant set with its quorum, and the signer bitmap of a certificate.

use commonware_codec::{Copying, Encode, ReadExt};
use commonware_consensus::simplex::types::Proposal;
use commonware_consensus::types::{Epoch, Round};
use commonware_cryptography::certificate::Signers;
use commonware_cryptography::sha256::Digest;
use commonware_utils::ordered::{self, Quorum};
use commonware_utils::{N3f1, Participant};
use vstd::prelude::*;

use crate::bytes::strictly_ascending;

verus! {

/// A proposal that a simplex committee finalized.
#[derive(Clone, Copy, Debug, Eq, PartialEq)]
pub struct FinalizedProposal {
    /// Epoch of the round in which the proposal was made.
    pub epoch: u64,
    /// View of that round.
    pub view: u64,
    /// View of the parent proposal.
    pub parent: u64,
    /// Digest of the finalized frame.
    pub payload: [u8; 32],
}

/// The variable-length form of an integer: seven bits to a byte, least significant first, the
/// top bit set on every byte but the last.
pub open spec fn varint(n: nat) -> Seq<u8>
    decreases n,
{
    if n < 128 {
        seq![n as u8]
    } else {
        seq![(128 + n % 128) as u8] + varint(n / 128)
    }
}

/// The wire form of a proposal: epoch, view and parent view as varints, then the payload digest.
pub open spec fn proposal_bytes(p: FinalizedProposal) -> Seq<u8> {
    varint(p.epoch as nat) + varint(p.view as nat) + varint(p.parent as nat) + p.payload@
}

/// A varint tells where it ends: two byte strings that begin with varints and are equal begin with
/// the same number and go on alike.
proof fn lemma_varint_self_delimiting(m: nat, n: nat, x: Seq<u8>, y: Seq<u8>)
    requires
        varint(m) + x == varint(n) + y,
    ensures
        m == n,
        x == y,
    decreases m,
{
    let a = varint(m) + x;
    let b = varint(n) + y;
    assert(a[0] == b[0]);
    if m < 128 || n < 128 {
        assert(a.drop_first() =~= x);
        assert(b.drop_first() =~= y);
    } else {
        assert(a.drop_first() =~= varint(m / 128) + x);
        assert(b.drop_first() =~= varint(n / 128) + y);
        lemma_varint_self_delimiting(m / 128, n / 128, x, y);
    }
}

/// The wire form of a proposal tells where it ends: byte strings that begin with the wire forms of
/// two proposals and are equal begin with the same proposal and go on alike.
pub proof fn law_proposal_self_delimiting(
    p: FinalizedProposal,
    q: FinalizedProposal,
    x: Seq<u8>,
    y: Seq<u8>,
)
    requires
        proposal_bytes(p) + x == proposal_bytes(q) + y,
    ensures
        p == q,
        x == y,
{
    let p2 = p.payload@ + x;
    let q2 = q.payload@ + y;
    let p1 = varint(p.parent as nat) + p2;
    let q1 = varint(q.parent as nat) + q2;
    let p0 = varint(p.view as nat) + p1;
    let q0 = varint(q.view as nat) + q1;
    assert(proposal_bytes(p) + x =~= varint(p.epoch as nat) + p0);
    assert(proposal_bytes(q) + y =~= varint(q.epoch as nat) + q0);
    lemma_varint_self_delimiting(p.epoch as nat, q.epoch as nat, p0, q0);
    lemma_varint_self_delimiting(p.view as nat, q.view as nat, p1, q1);
    lemma_varint_self_delimiting(p.parent as nat, q.parent as nat, p2, q2);
    assert(p.payload@ =~= p2.subrange(0, 32));
    assert(q.payload@ =~= q2.subrange(0, 32));
    assert(x =~= p2.subrange(32, p2.len() as int));
    assert(y =~= q2.subrange(32, q2.len() as int));
    assert(p.payload =~= q.payload);
}

/// Reads a proposal off the front of `bytes` with `commonware_consensus`'s
/// `Proposal::<Digest>::read` over a `commonware_codec` `Copying` buffer. The contract claims that
/// it succeeds exactly when the wire form of some proposal stands at the front, and that it then
/// hands out that proposal and leaves in the buffer what follows its wire form.
#[verifier::external_body]
pub(crate) fn read_proposal(bytes: &[u8]) -> (r: Option<(FinalizedProposal, &[u8])>)
    ensures
        match r {
            Some((p, rest)) => bytes@ == proposal_bytes(p) + rest@,
            None => forall|p: FinalizedProposal| !(#[trigger] proposal_bytes(p)).is_prefix_of(bytes@),
        },
{
    let mut cursor = Copying(bytes);
    let p = Proposal::<Digest>::read(&mut cursor).ok()?;
    let proposal = FinalizedProposal {
        epoch: p.round.epoch().get(),
        view: p.round.view().get(),
        parent: p.parent.get(),
        payload: p.payload.0,
    };
    Some((proposal, cursor.0))
}

/// Writes a proposal with `commonware_codec`'s `Encode::encode` on `commonware_consensus`'s
/// `Proposal<Digest>`. The contract claims that the result is the proposal's wire form.
#[verifier::external_body]
pub(crate) fn write_proposal(p: &FinalizedProposal) -> (r: Vec<u8>)
    ensures
        r@ == proposal_bytes(*p),
{
    let round = Round::new(Epoch::new(p.epoch), commonware_consensus::types::View::new(p.view));
    let parent = commonware_consensus::types::View::new(p.parent);
    Proposal::new(round, parent, Digest(p.payload)).encode().to_vec()
}

/// `commonware_utils`'s ordered, deduplicated collection.
#[verifier::external_type_specification]
#[verifier::external_body]
#[verifier::reject_recursive_types(T)]
pub struct ExSet<T>(ordered::Set<T>);

/// The keys that a set holds, in its order.
pub uninterp spec fn set_keys(set: ordered::Set<Vec<u8>>) -> Seq<Seq<u8>>;

/// The byte strings that a list of vectors holds.
pub open spec fn key_views(keys: Seq<Vec<u8>>) -> Seq<Seq<u8>> {
    keys.map_values(|k: Vec<u8>| k@)
}

/// Two entries of `keys` are equal.
pub open spec fn holds_repeat(keys: Seq<Seq<u8>>) -> bool {
    exists|i: int, j: int| 0 <= i < j < keys.len() && #[trigger] keys[i] == #[trigger] keys[j]
}

/// Builds a set with `commonware_utils`'s `Set::try_from(Vec<T>)`. The contract claims that it
/// fails exactly when two of the keys are equal, and that otherwise the set holds the given keys
/// in ascending order.
#[verifier::external_body]
pub(crate) fn set_from_keys(keys: Vec<Vec<u8>>) -> (r: Option<ordered::Set<Vec<u8>>>)
    ensures
        r is None <==> holds_repeat(key_views(keys@)),
        r matches Some(set) ==> strictly_ascending(set_keys(set)) && set_keys(set).to_multiset()
            == key_views(keys@).to_multiset(),
{
    ordered::Set::try_from(keys).ok()
}

/// `commonware_utils`'s `Set::len`. The contract claims that it counts the keys.
#[verifier::external_body]
pub(crate) fn set_len(set: &ordered::Set<Vec<u8>>) -> (r: usize)
    ensures
        r == set_keys(*set).len(),
{
    set.len()
}

/// `commonware_utils`'s `Quorum::key` on a set. The contract claims that it hands out the key at a
/// position of the set's order, and nothing past the end.
#[verifier::external_body]
pub(crate) fn set_key(set: &ordered::Set<Vec<u8>>, index: u32) -> (r: Option<&Vec<u8>>)
    ensures
        r is Some <==> index < set_keys(*set).len(),
        r matches Some(key) ==> key@ == set_keys(*set)[index as int],
{
    set.key(Participant::new(index))
}

/// How many of `n` participants make a quorum: all but the `(n - 1) / 3` that may be faulty.
pub open spec fn quorum_of(n: nat) -> nat {
    (n - (n - 1) / 3) as nat
}

/// `commonware_utils`'s `Quorum::quorum` on a set under the fault model `N3f1`. The contract claims
/// the count that the model documents; the call panics on an empty set and on one whose size does
/// not fit in 32 bits.
#[verifier::external_body]
pub(crate) fn set_quorum(set: &ordered::Set<Vec<u8>>) -> (r: u32)
    requires
        0 < set_keys(*set).len() <= u32::MAX,
    ensures
        r == quorum_of(set_keys(*set).len()),
{
    set.quorum::<N3f1>()
}

/// `commonware_cryptography`'s bitmap of the participants that signed a certificate.
#[verifier::external_type_specification]
#[verifier::external_body]
pub struct ExSigners(Signers);

/// The marked positions of a signer bitmap, in ascending order.
pub uninterp spec fn signer_positions(signers: Signers) -> Seq<int>;

/// How many participants a signer bitmap has a place for.
pub uninterp spec fn signer_width(signers: Signers) -> nat;

/// A list of positions as integers.
pub open spec fn positions_of(list: Seq<usize>) -> Seq<int> {
    list.map_values(|p: usize| p as int)
}

/// The entries of `positions` ascend strictly and stay within `0..width`.
pub open spec fn ascending_below(positions: Seq<int>, width: nat) -> bool {
    &&& forall|i: int| 0 <= i < positions.len() ==> 0 <= #[trigger] positions[i] < width
    &&& forall|i: int, j: int|
        0 <= i < j < positions.len() ==> #[trigger] positions[i] < #[trigger] positions[j]
}

/// Every one of the positions fits in 32 bits.
pub open spec fn fit_in_32_bits(positions: Seq<int>) -> bool {
    forall|i: int| 0 <= i < positions.len() ==> #[trigger] positions[i] <= u32::MAX
}

/// `commonware_cryptography`'s `Signers::len`. The contract claims that it is the bitmap's width, and
/// that the marked positions lie below it.
#[verifier::external_body]
pub(crate) fn signers_width(signers: &Signers) -> (r: usize)
    ensures
        r == signer_width(*signers),
        ascending_below(signer_positions(*signers), r as nat),
{
    signers.len()
}

/// `commonware_cryptography`'s `Signers::count`. The contract claims that it counts the marked
/// positions.
#[verifier::external_body]
pub(crate) fn signers_count(signers: &Signers) -> (r: usize)
    ensures
        r == signer_positions(*signers).len(),
{
    signers.count()
}

/// `commonware_cryptography`'s `Signers::iter`, collected. The contract claims that it hands out
/// the marked positions, in ascending order and below the bitmap's width; the call panics on a
/// position that does not fit in 32 bits.
#[verifier::external_body]
pub(crate) fn signers_positions(signers: &Signers) -> (r: Vec<usize>)
    requires
        fit_in_32_bits(signer_positions(*signers)),
    ensures
        positions_of(r@) == signer_positions(*signers),
        ascending_below(positions_of(r@), signer_width(*signers)),
{
    signers.iter().map(usize::from).collect()
}

} // verus!
