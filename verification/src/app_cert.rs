//! Simplex finalization certificates of app-shard frames, for reward attribution.
//!
//! A frame that a simplex committee finalized carries no aggregate signature in its header: its
//! authenticity is the finalization, that is the finalized proposal together with a Falcon
//! certificate over it. To credit the shard's work the certificate is verified again against the
//! shard committee, bound to the frame's identity digest, and its signers are read off the
//! certificate's bitmap.
//!
//! The Falcon primitives themselves (parsing a key, decoding a certificate, checking its
//! signatures) are handed in by the caller.

use commonware_cryptography::certificate::Signers;
use commonware_utils::ordered;
use vstd::prelude::*;
use vstd::slice::{slice_subrange, slice_to_vec};
use vstd::string::StringExecFns;

use crate::bytes::{
    lemma_ascending_listing_is_unique, same_bytes, starts_with, strictly_ascending,
};
use crate::cert_laws::law_credited_members_are_a_quorum;
use crate::commonware::{
    ascending_below, fit_in_32_bits, holds_repeat, key_views, law_proposal_self_delimiting,
    positions_of, proposal_bytes, quorum_of, read_proposal, set_from_keys, set_key, set_keys,
    set_len, set_quorum, signer_positions, signer_width, signers_count, signers_positions,
    signers_width, write_proposal, FinalizedProposal,
};
use crate::text::{decimal, push_decimal};

verus! {

/// Marks a finalization certificate that rides in the aggregate-signature field of a frame header,
/// to tell it from the aggregate signature that other frames carry there.
pub const CW_CERT_MAGIC: [u8; 4] = [0x43, 0x57, 0x43, 0x54];

/// A finalized proposal and the Falcon certificate over it, in its wire form.
#[derive(Clone, Debug, Eq, PartialEq)]
pub struct AppFinalization {
    pub proposal: FinalizedProposal,
    pub certificate: Vec<u8>,
}

/// What decoding a serialized finalization under a candidate committee size tells. The signer
/// entries are positions in the sorted committee, not public keys.
#[derive(Clone, Debug, Eq, PartialEq)]
pub struct DecodedFinalizationEvidence {
    pub committee_size: usize,
    pub signer_indices: Vec<usize>,
    pub payload_matches_expected_digest: bool,
}

/// Why a serialized finalization did not verify. It holds counts alone, so that it can be logged
/// without exposing a certificate or a committee.
#[derive(Clone, Debug, Eq, PartialEq)]
pub enum FinalizationVerificationError {
    EmptyCommittee,
    InvalidCommitteeKey { members: usize, parsed: usize },
    DuplicateCommitteeKeys { members: usize },
    DecodeFailed { committee_size: usize },
    PayloadMismatch,
    InsufficientSigners { signers: usize, quorum: usize },
    SignatureVerificationFailed { signers: usize, committee_size: usize },
}

impl FinalizationVerificationError {
    /// The sentence that `message` renders.
    pub open spec fn text(self) -> Seq<char> {
        match self {
            Self::EmptyCommittee => "empty reconstructed committee"@,
            Self::InvalidCommitteeKey { members, parsed } =>
                "reconstructed committee contains invalid Falcon keys (parsed "@
                + decimal(parsed as nat) + "/"@ + decimal(members as nat)
                + ")"@,
            Self::DuplicateCommitteeKeys { members } =>
                "reconstructed committee contains duplicate Falcon keys ("@
                + decimal(members as nat) + " entries)"@,
            Self::DecodeFailed { committee_size } =>
                "certificate decode failed under reconstructed committee size "@
                + decimal(committee_size as nat),
            Self::PayloadMismatch =>
                "certificate proposal digest does not bind to frame output"@,
            Self::InsufficientSigners { signers, quorum } => "certificate has "@
                + decimal(signers as nat) + " signers, below quorum "@
                + decimal(quorum as nat),
            Self::SignatureVerificationFailed { signers, committee_size } =>
                "Falcon certificate verification failed ("@ + decimal(signers as nat)
                + " signers, reconstructed committee size "@
                + decimal(committee_size as nat) + ")"@,
        }
    }

    /// The error as a sentence for a log line.
    pub fn message(&self) -> (r: String)
        ensures
            r@ == self.text(),
    {
        let mut r = String::new();
        match self {
            Self::EmptyCommittee => {
                r.append("empty reconstructed committee");
            },
            Self::InvalidCommitteeKey { members, parsed } => {
                r.append("reconstructed committee contains invalid Falcon keys (parsed ");
                push_decimal(&mut r, *parsed as u64);
                r.append("/");
                push_decimal(&mut r, *members as u64);
                r.append(")");
            },
            Self::DuplicateCommitteeKeys { members } => {
                r.append("reconstructed committee contains duplicate Falcon keys (");
                push_decimal(&mut r, *members as u64);
                r.append(" entries)");
            },
            Self::DecodeFailed { committee_size } => {
                r.append("certificate decode failed under reconstructed committee size ");
                push_decimal(&mut r, *committee_size as u64);
            },
            Self::PayloadMismatch => {
                r.append("certificate proposal digest does not bind to frame output");
            },
            Self::InsufficientSigners { signers, quorum } => {
                r.append("certificate has ");
                push_decimal(&mut r, *signers as u64);
                r.append(" signers, below quorum ");
                push_decimal(&mut r, *quorum as u64);
            },
            Self::SignatureVerificationFailed { signers, committee_size } => {
                r.append("Falcon certificate verification failed (");
                push_decimal(&mut r, *signers as u64);
                r.append(" signers, reconstructed committee size ");
                push_decimal(&mut r, *committee_size as u64);
                r.append(")");
            },
        }
        assert(r@ =~= self.text());
        r
    }
}

/// Wraps a serialized finalization for the header's signature field.
pub fn wrap_cert_for_header(cert: &[u8]) -> (r: Vec<u8>)
    ensures
        r@ == CW_CERT_MAGIC@ + cert@,
{
    let mut v: Vec<u8> = Vec::with_capacity(CW_CERT_MAGIC.len());
    v.extend_from_slice(&CW_CERT_MAGIC);
    v.extend_from_slice(cert);
    v
}

/// The serialized finalization that a header's signature field carries, if it carries one.
pub fn unwrap_cert_from_header(sig_field: &[u8]) -> (r: Option<&[u8]>)
    ensures
        r is Some <==> CW_CERT_MAGIC@.is_prefix_of(sig_field@),
        r matches Some(cert) ==> sig_field@ == CW_CERT_MAGIC@ + cert@,
{
    if starts_with(sig_field, &CW_CERT_MAGIC) {
        let r = slice_subrange(sig_field, CW_CERT_MAGIC.len(), sig_field.len());
        assert(sig_field@ =~= CW_CERT_MAGIC@ + r@);
        Some(r)
    } else {
        None
    }
}

/// The wire form of a finalization: that of its proposal, then its certificate.
pub open spec fn finalization_bytes(proposal: FinalizedProposal, certificate: Seq<u8>) -> Seq<u8> {
    proposal_bytes(proposal) + certificate
}

/// Serializes a finalization.
pub fn encode_finalization(f: &AppFinalization) -> (r: Vec<u8>)
    ensures
        r@ == finalization_bytes(f.proposal, f.certificate@),
{
    let mut r = write_proposal(&f.proposal);
    r.extend_from_slice(f.certificate.as_slice());
    r
}

/// The proposal at the front of a serialized finalization and the certificate bytes after it, where
/// a proposal stands there.
pub open spec fn split_of(bytes: Seq<u8>) -> Option<(FinalizedProposal, Seq<u8>)> {
    if exists|p: FinalizedProposal| (#[trigger] proposal_bytes(p)).is_prefix_of(bytes) {
        let p = choose|p: FinalizedProposal| (#[trigger] proposal_bytes(p)).is_prefix_of(bytes);
        Some((p, bytes.skip(proposal_bytes(p).len() as int)))
    } else {
        None
    }
}

/// The certificate bytes of a serialized finalization that splits.
pub open spec fn certificate_part(bytes: Seq<u8>) -> Seq<u8> {
    match split_of(bytes) {
        Some((_, certificate)) => certificate,
        None => seq![],
    }
}

/// A serialized finalization splits into the proposal and the certificate that it was made of.
pub proof fn law_split_inverts_encoding(proposal: FinalizedProposal, certificate: Seq<u8>)
    ensures
        split_of(finalization_bytes(proposal, certificate)) == Some((proposal, certificate)),
{
    let bytes = finalization_bytes(proposal, certificate);
    assert(proposal_bytes(proposal) =~= bytes.subrange(0, proposal_bytes(proposal).len() as int));
    assert(proposal_bytes(proposal).is_prefix_of(bytes));
    let p = choose|p: FinalizedProposal| (#[trigger] proposal_bytes(p)).is_prefix_of(bytes);
    let rest = bytes.skip(proposal_bytes(p).len() as int);
    assert(bytes =~= proposal_bytes(p) + rest);
    law_proposal_self_delimiting(p, proposal, rest, certificate);
}

/// Splits a serialized finalization into its proposal and its certificate bytes.
pub fn split_finalization(bytes: &[u8]) -> (r: Option<(FinalizedProposal, &[u8])>)
    ensures
        match r {
            Some((p, rest)) => split_of(bytes@) == Some((p, rest@)),
            None => split_of(bytes@) is None,
        },
{
    let r = read_proposal(bytes);
    proof {
        if let Some((p, rest)) = r {
            law_split_inverts_encoding(p, rest@);
        }
    }
    r
}

/// A decoded Falcon certificate: the certificate itself, for the signature check, its signer
/// bitmap, and how many input bytes the decoder left unread.
pub struct DecodedCertificate<C> {
    certificate: C,
    signers: Signers,
    unread: usize,
}

/// What the logic sees of a decoded certificate.
pub struct CertificateView {
    /// The positions of the signers in the sorted committee, in ascending order.
    pub positions: Seq<int>,
    /// How many participants the signer bitmap has a place for.
    pub width: nat,
    /// How many input bytes the decoder left unread.
    pub unread: nat,
}

impl<C> DecodedCertificate<C> {
    /// The signer positions ascend, lie inside the bitmap and fit in 32 bits.
    #[verifier::type_invariant]
    closed spec fn wf(self) -> bool {
        &&& ascending_below(signer_positions(self.signers), signer_width(self.signers))
        &&& fit_in_32_bits(signer_positions(self.signers))
    }

    /// The certificate value that the decoder made.
    pub closed spec fn inner(self) -> C {
        self.certificate
    }

    /// The signer bitmap that the decoder made.
    pub closed spec fn bitmap(self) -> Signers {
        self.signers
    }

    pub closed spec fn unread_bytes(self) -> nat {
        self.unread as nat
    }

    pub open spec fn view(self) -> CertificateView {
        CertificateView {
            positions: signer_positions(self.bitmap()),
            width: signer_width(self.bitmap()),
            unread: self.unread_bytes(),
        }
    }

    /// Bundles what a decoder made of its input. Participants are counted in 32 bits: a marked
    /// position beyond cannot be read off a bitmap.
    pub fn new(certificate: C, signers: Signers, unread: usize) -> (r: Self)
        requires
            fit_in_32_bits(signer_positions(signers)),
        ensures
            r.inner() == certificate,
            r.bitmap() == signers,
            r.unread_bytes() == unread,
    {
        let _width: usize = signers_width(&signers);
        DecodedCertificate { certificate, signers, unread }
    }

    /// As [`Self::new`], for a bitmap of which only the width is known: one that is so wide that a
    /// position in it might not fit in 32 bits is refused.
    pub fn try_new(certificate: C, signers: Signers, unread: usize) -> (r: Option<Self>)
        ensures
            r is Some <==> signer_width(signers) <= 0x1_0000_0000,
            r matches Some(d) ==> d.inner() == certificate && d.bitmap() == signers
                && d.unread_bytes() == unread,
    {
        let width: usize = signers_width(&signers);
        if width as u64 > 0x1_0000_0000u64 {
            None
        } else {
            Some(DecodedCertificate::new(certificate, signers, unread))
        }
    }

    /// How many participants the signer bitmap has a place for.
    pub fn width(&self) -> (r: usize)
        ensures
            r == self@.width,
            ascending_below(self@.positions, r as nat),
    {
        signers_width(&self.signers)
    }

    /// The signer positions, in ascending order.
    pub fn signer_indices(&self) -> (r: Vec<usize>)
        ensures
            positions_of(r@) == self@.positions,
            ascending_below(self@.positions, self@.width),
            fit_in_32_bits(self@.positions),
    {
        proof {
            use_type_invariant(self);
        }
        signers_positions(&self.signers)
    }

    /// How many participants signed.
    pub fn signer_count(&self) -> (r: usize)
        ensures
            r == self@.positions.len(),
    {
        signers_count(&self.signers)
    }

    pub fn unread(&self) -> (r: usize)
        ensures
            r == self@.unread,
    {
        self.unread
    }

    pub fn certificate(&self) -> (r: &C)
        ensures
            *r == self.inner(),
    {
        &self.certificate
    }
}

/// What the logic sees of one inspection entry.
pub struct EvidenceView {
    pub committee_size: usize,
    pub signer_indices: Seq<int>,
    pub payload_matches_expected_digest: bool,
}

impl DecodedFinalizationEvidence {
    pub open spec fn view(self) -> EvidenceView {
        EvidenceView {
            committee_size: self.committee_size,
            signer_indices: positions_of(self.signer_indices@),
            payload_matches_expected_digest: self.payload_matches_expected_digest,
        }
    }
}

/// The certificate is one of a committee of the given size: its bitmap is no wider.
pub open spec fn belongs(certificate: CertificateView, committee_size: nat) -> bool {
    certificate.width <= committee_size
}

/// What one candidate committee size tells: an entry when the size is not zero, a proposal stands
/// at the front of the bytes, and a certificate of such a committee decodes after it with no byte to
/// spare.
pub open spec fn evidence_of(
    bytes: Seq<u8>,
    expected_digest: Seq<u8>,
    committee_size: usize,
    reply: Option<CertificateView>,
) -> Option<EvidenceView> {
    match (split_of(bytes), reply) {
        (Some((proposal, _)), Some(certificate)) => if committee_size > 0 && certificate.unread == 0
            && belongs(certificate, committee_size as nat) {
            Some(
                EvidenceView {
                    committee_size,
                    signer_indices: certificate.positions,
                    payload_matches_expected_digest: proposal.payload@ == expected_digest,
                },
            )
        } else {
            None
        },
        _ => None,
    }
}

/// The entries of the candidate sizes that tell something, in the order of the candidates.
pub open spec fn inspection(
    bytes: Seq<u8>,
    expected_digest: Seq<u8>,
    sizes: Seq<usize>,
    replies: Seq<Option<CertificateView>>,
) -> Seq<EvidenceView>
    decreases sizes.len(),
{
    if sizes.len() == 0 {
        seq![]
    } else {
        let before = inspection(bytes, expected_digest, sizes.drop_last(), replies.drop_last());
        match evidence_of(bytes, expected_digest, sizes.last(), replies.last()) {
            Some(entry) => before.push(entry),
            None => before,
        }
    }
}

pub open spec fn evidence_views(list: Seq<DecodedFinalizationEvidence>) -> Seq<EvidenceView> {
    list.map_values(|e: DecodedFinalizationEvidence| e@)
}

/// What the logic sees of a decoder's reply.
pub open spec fn reply_view<C>(reply: Option<DecodedCertificate<C>>) -> Option<CertificateView> {
    match reply {
        Some(decoded) => Some(decoded@),
        None => None,
    }
}

/// `reply` is what `decode_certificate` may answer for the given certificate bytes and committee
/// size.
pub open spec fn may_decode<C, D: Fn(&[u8], usize) -> Option<DecodedCertificate<C>>>(
    decode_certificate: D,
    certificate: Seq<u8>,
    committee_size: usize,
    reply: Option<DecodedCertificate<C>>,
) -> bool {
    exists|input: &[u8]| #[trigger]
        call_ensures(decode_certificate, (input, committee_size), reply) && input@ == certificate
}

/// `seen` is what the logic sees of an answer that `decode_certificate` may give.
pub open spec fn may_show<C, D: Fn(&[u8], usize) -> Option<DecodedCertificate<C>>>(
    decode_certificate: D,
    certificate: Seq<u8>,
    committee_size: usize,
    seen: Option<CertificateView>,
) -> bool {
    exists|reply: Option<DecodedCertificate<C>>| #[trigger]
        may_decode(decode_certificate, certificate, committee_size, reply) && reply_view(reply) == seen
}

/// `replies` are answers that `decode_certificate` may give to the candidate sizes that it is
/// asked about: those that are not zero, where a proposal stands at the front of the bytes.
pub open spec fn may_decode_each<C, D: Fn(&[u8], usize) -> Option<DecodedCertificate<C>>>(
    decode_certificate: D,
    bytes: Seq<u8>,
    sizes: Seq<usize>,
    replies: Seq<Option<CertificateView>>,
) -> bool {
    &&& replies.len() == sizes.len()
    &&& forall|i: int|
        #![trigger replies[i]]
        0 <= i < sizes.len() && sizes[i] > 0 && split_of(bytes) is Some ==> may_show(
            decode_certificate,
            certificate_part(bytes),
            sizes[i],
            replies[i],
        )
}

/// The signer entries are positions in a committee of the reported size, one for each signer: they
/// ascend and lie inside the committee.
pub open spec fn names_positions(entry: EvidenceView) -> bool {
    entry.committee_size > 0 && ascending_below(entry.signer_indices, entry.committee_size as nat)
}

/// What a certificate that decoded under `committee_size` tells.
pub fn evidence_from_certificate<C>(
    proposal: &FinalizedProposal,
    expected_digest: [u8; 32],
    committee_size: usize,
    decoded: &DecodedCertificate<C>,
) -> (r: Option<DecodedFinalizationEvidence>)
    ensures
        r is Some <==> committee_size > 0 && decoded@.unread == 0 && belongs(
            decoded@,
            committee_size as nat,
        ),
        r matches Some(entry) ==> entry@ == (EvidenceView {
            committee_size,
            signer_indices: decoded@.positions,
            payload_matches_expected_digest: proposal.payload@ == expected_digest@,
        }),
        r matches Some(entry) ==> names_positions(entry@),
{
    if committee_size == 0 || decoded.unread() != 0 || decoded.width() > committee_size {
        return None;
    }
    Some(
        DecodedFinalizationEvidence {
            committee_size,
            signer_indices: decoded.signer_indices(),
            payload_matches_expected_digest: same_bytes(&proposal.payload, &expected_digest),
        },
    )
}

/// `entries` is what an inspection may come to, given what `decode_certificate` may answer.
pub open spec fn may_inspect<C, D: Fn(&[u8], usize) -> Option<DecodedCertificate<C>>>(
    decode_certificate: D,
    bytes: Seq<u8>,
    expected_digest: Seq<u8>,
    sizes: Seq<usize>,
    entries: Seq<EvidenceView>,
) -> bool {
    exists|replies: Seq<Option<CertificateView>>|
        #![trigger inspection(bytes, expected_digest, sizes, replies)]
        may_decode_each(decode_certificate, bytes, sizes, replies) && entries == inspection(
            bytes,
            expected_digest,
            sizes,
            replies,
        )
}

/// Decodes a certificate under candidate committee sizes, for diagnosis. No signature is checked:
/// the result only tells which bitmap sizes can parse the whole certificate, and the signer
/// positions they give. A size under which bytes are left over is not reported, nor one that the
/// certificate's bitmap is too wide for.
pub fn inspect_finalization_decodes<C, D: Fn(&[u8], usize) -> Option<DecodedCertificate<C>>>(
    bytes: &[u8],
    expected_digest: [u8; 32],
    candidate_committee_sizes: &[usize],
    decode_certificate: D,
) -> (r: Vec<DecodedFinalizationEvidence>)
    requires
        forall|input: &[u8], size: usize| call_requires(decode_certificate, (input, size)),
    ensures
        may_inspect(
            decode_certificate,
            bytes@,
            expected_digest@,
            candidate_committee_sizes@,
            evidence_views(r@),
        ),
        forall|k: int| 0 <= k < r@.len() ==> names_positions(#[trigger] r@[k]@),
{
    let mut r: Vec<DecodedFinalizationEvidence> = Vec::new();
    let ghost mut replies: Seq<Option<CertificateView>> = seq![];
    let split = split_finalization(bytes);
    let mut i: usize = 0;
    while i < candidate_committee_sizes.len()
        invariant
            i <= candidate_committee_sizes@.len(),
            forall|input: &[u8], size: usize| call_requires(decode_certificate, (input, size)),
            match split {
                Some((p, rest)) => split_of(bytes@) == Some((p, rest@)),
                None => split_of(bytes@) is None,
            },
            may_decode_each(
                decode_certificate,
                bytes@,
                candidate_committee_sizes@.take(i as int),
                replies,
            ),
            evidence_views(r@) == inspection(
                bytes@,
                expected_digest@,
                candidate_committee_sizes@.take(i as int),
                replies,
            ),
            forall|k: int| 0 <= k < r@.len() ==> names_positions(#[trigger] r@[k]@),
        decreases candidate_committee_sizes@.len() - i,
    {
        let size: usize = candidate_committee_sizes[i];
        let ghost before = evidence_views(r@);
        let ghost mut reply: Option<DecodedCertificate<C>> = None;
        if let Some((proposal, rest)) = &split {
            if size > 0 {
                let decoded = decode_certificate(*rest, size);
                proof {
                    reply = decoded;
                    assert(may_decode(decode_certificate, rest@, size, decoded));
                }
                if let Some(decoded) = &decoded {
                    if let Some(entry) = evidence_from_certificate(
                        proposal,
                        expected_digest,
                        size,
                        decoded,
                    ) {
                        r.push(entry);
                        assert(evidence_views(r@) =~= before.push(entry@));
                    }
                }
            }
        }
        proof {
            let sizes = candidate_committee_sizes@;
            let old_replies = replies;
            replies = replies.push(reply_view(reply));
            assert(sizes.take(i + 1).drop_last() =~= sizes.take(i as int));
            assert(replies.drop_last() =~= old_replies);
            assert forall|k: int|
                #![trigger replies[k]]
                0 <= k < i + 1 && sizes.take(i + 1)[k] > 0 && split_of(bytes@) is Some implies may_show(
                decode_certificate,
                certificate_part(bytes@),
                sizes.take(i + 1)[k],
                replies[k],
            ) by {
                if k < i {
                    assert(sizes.take(i as int)[k] == sizes[k]);
                    assert(replies[k] == old_replies[k]);
                } else {
                    assert(may_decode(decode_certificate, certificate_part(bytes@), size, reply));
                }
            }
        }
        i += 1;
    }
    assert(candidate_committee_sizes@.take(i as int) =~= candidate_committee_sizes@);
    r
}

/// The keys that parsed, in the order in which they were listed.
pub open spec fn parsed_keys(parsed: Seq<Option<Seq<u8>>>) -> Seq<Seq<u8>>
    decreases parsed.len(),
{
    if parsed.len() == 0 {
        seq![]
    } else {
        let before = parsed_keys(parsed.drop_last());
        match parsed.last() {
            Some(key) => before.push(key),
            None => before,
        }
    }
}

/// The given keys in ascending order.
pub open spec fn committee_of(keys: Seq<Seq<u8>>) -> Seq<Seq<u8>> {
    choose|committee: Seq<Seq<u8>>| #[trigger]
        strictly_ascending(committee) && committee.to_multiset() == keys.to_multiset()
}

/// Why the listed keys make no committee, if they make none.
pub open spec fn committee_fault(parsed: Seq<Option<Seq<u8>>>) -> Option<
    FinalizationVerificationError,
> {
    let keys = parsed_keys(parsed);
    if keys.len() == 0 {
        Some(FinalizationVerificationError::EmptyCommittee)
    } else if keys.len() != parsed.len() {
        Some(
            FinalizationVerificationError::InvalidCommitteeKey {
                members: parsed.len() as usize,
                parsed: keys.len() as usize,
            },
        )
    } else if holds_repeat(keys) {
        Some(
            FinalizationVerificationError::DuplicateCommitteeKeys { members: parsed.len() as usize },
        )
    } else {
        None
    }
}

/// Why a decoded finalization does not stand for the frame, before its signatures are looked at.
pub open spec fn binding_fault(
    committee_size: nat,
    payload: Seq<u8>,
    expected_digest: Seq<u8>,
    signers: nat,
) -> Option<FinalizationVerificationError> {
    if payload != expected_digest {
        Some(FinalizationVerificationError::PayloadMismatch)
    } else if signers < quorum_of(committee_size) {
        Some(
            FinalizationVerificationError::InsufficientSigners {
                signers: signers as usize,
                quorum: quorum_of(committee_size) as usize,
            },
        )
    } else {
        None
    }
}

/// The committee members at the given positions, in the order of the positions. A position past the
/// end of the committee names nobody.
pub open spec fn members_at(committee: Seq<Seq<u8>>, positions: Seq<int>) -> Seq<Seq<u8>>
    decreases positions.len(),
{
    if positions.len() == 0 {
        seq![]
    } else {
        let before = members_at(committee, positions.drop_last());
        if 0 <= positions.last() < committee.len() {
            before.push(committee[positions.last()])
        } else {
            before
        }
    }
}

/// The decoded certificate, where there is one and it is one of a committee of the given size.
pub open spec fn fitting(certificate: Option<CertificateView>, committee_size: nat) -> Option<
    CertificateView,
> {
    match certificate {
        Some(c) => if belongs(c, committee_size) {
            Some(c)
        } else {
            None
        },
        None => None,
    }
}

/// The keys that a verified finalization credits: a quorum of the committee that the listed keys
/// make, different keys, each of them listed, in the committee's order.
pub open spec fn credits_a_quorum(members: Seq<Seq<u8>>, parsed: Seq<Option<Seq<u8>>>) -> bool {
    &&& quorum_of(parsed.len()) <= members.len() <= parsed.len()
    &&& strictly_ascending(members)
    &&& members.no_duplicates()
    &&& forall|i: int| 0 <= i < members.len() ==> parsed.contains(Some(#[trigger] members[i]))
}

/// The members at the given positions of the committee, one for each position.
pub open spec fn names_each_signer(
    members: Seq<Seq<u8>>,
    committee: Seq<Seq<u8>>,
    certificate: CertificateView,
) -> bool {
    &&& ascending_below(certificate.positions, committee.len())
    &&& members.len() == certificate.positions.len()
    &&& forall|i: int|
        0 <= i < members.len() ==> #[trigger] members[i] == committee[certificate.positions[i]]
}

/// The outcome of verifying a serialized finalization, given how the Falcon primitives answered:
/// which listed keys parsed, what the certificate decoded to, and whether its signatures hold.
pub open spec fn verdict(
    bytes: Seq<u8>,
    expected_digest: Seq<u8>,
    parsed: Seq<Option<Seq<u8>>>,
    certificate: Option<CertificateView>,
    signatures_hold: bool,
) -> Result<Seq<Seq<u8>>, FinalizationVerificationError> {
    match committee_fault(parsed) {
        Some(fault) => Err(fault),
        None => {
            let committee = committee_of(parsed_keys(parsed));
            match (split_of(bytes), fitting(certificate, committee.len())) {
                (Some((proposal, _)), Some(certificate)) => match binding_fault(
                    committee.len(),
                    proposal.payload@,
                    expected_digest,
                    certificate.positions.len(),
                ) {
                    Some(fault) => Err(fault),
                    None => if signatures_hold {
                        Ok(members_at(committee, certificate.positions))
                    } else {
                        Err(
                            FinalizationVerificationError::SignatureVerificationFailed {
                                signers: certificate.positions.len() as usize,
                                committee_size: committee.len() as usize,
                            },
                        )
                    },
                },
                _ => Err(
                    FinalizationVerificationError::DecodeFailed {
                        committee_size: committee.len() as usize,
                    },
                ),
            }
        },
    }
}

/// The byte string behind a parsed key.
pub open spec fn parsed_view(key: Option<Vec<u8>>) -> Option<Seq<u8>> {
    match key {
        Some(key) => Some(key@),
        None => None,
    }
}

/// The byte strings behind a list of parsed keys.
pub open spec fn parsed_views(parsed: Seq<Option<Vec<u8>>>) -> Seq<Option<Seq<u8>>> {
    parsed.map_values(|key: Option<Vec<u8>>| parsed_view(key))
}

/// Builds the committee of the listed keys, each as it parsed.
pub fn build_committee(parsed: &Vec<Option<Vec<u8>>>) -> (r: Result<
    ordered::Set<Vec<u8>>,
    FinalizationVerificationError,
>)
    ensures
        match r {
            Ok(committee) => committee_fault(parsed_views(parsed@)) is None && set_keys(committee)
                == committee_of(parsed_keys(parsed_views(parsed@))) && set_keys(committee).len()
                == parsed@.len() && parsed@.len() > 0,
            Err(fault) => committee_fault(parsed_views(parsed@)) == Some(fault),
        },
{
    let mut keys: Vec<Vec<u8>> = Vec::new();
    let mut i: usize = 0;
    while i < parsed.len()
        invariant
            i <= parsed@.len(),
            keys@.len() <= i,
            key_views(keys@) == parsed_keys(parsed_views(parsed@).take(i as int)),
        decreases parsed@.len() - i,
    {
        let ghost before = key_views(keys@);
        if let Some(key) = &parsed[i] {
            let copy = slice_to_vec(key.as_slice());
            keys.push(copy);
            assert(key_views(keys@) =~= before.push(key@));
        }
        assert(parsed_views(parsed@).take(i + 1).drop_last() =~= parsed_views(parsed@).take(
            i as int,
        ));
        i += 1;
    }
    assert(parsed_views(parsed@).take(i as int) =~= parsed_views(parsed@));
    let ghost views = key_views(keys@);
    if keys.len() == 0 {
        return Err(FinalizationVerificationError::EmptyCommittee);
    }
    if keys.len() != parsed.len() {
        return Err(
            FinalizationVerificationError::InvalidCommitteeKey {
                members: parsed.len(),
                parsed: keys.len(),
            },
        );
    }
    match set_from_keys(keys) {
        Some(committee) => {
            proof {
                let listed = set_keys(committee);
                assert(strictly_ascending(listed));
                lemma_ascending_listing_is_unique(listed, committee_of(views));
                broadcast use vstd::seq_lib::group_to_multiset_ensures;

                assert(listed.to_multiset().len() == listed.len());
                assert(views.to_multiset().len() == views.len());
            }
            Ok(committee)
        },
        None => Err(
            FinalizationVerificationError::DuplicateCommitteeKeys { members: parsed.len() },
        ),
    }
}

/// Binds a decoded finalization to the frame that is to be credited and requires a quorum of
/// signers.
pub fn bind_finalization(
    committee: &ordered::Set<Vec<u8>>,
    proposal: &FinalizedProposal,
    expected_digest: [u8; 32],
    signers: usize,
) -> (r: Result<(), FinalizationVerificationError>)
    requires
        0 < set_keys(*committee).len() <= u32::MAX,
    ensures
        match r {
            Ok(_) => binding_fault(
                set_keys(*committee).len(),
                proposal.payload@,
                expected_digest@,
                signers as nat,
            ) is None,
            Err(fault) => binding_fault(
                set_keys(*committee).len(),
                proposal.payload@,
                expected_digest@,
                signers as nat,
            ) == Some(fault),
        },
{
    if !same_bytes(&proposal.payload, &expected_digest) {
        return Err(FinalizationVerificationError::PayloadMismatch);
    }
    let quorum: usize = set_quorum(committee) as usize;
    if signers < quorum {
        return Err(FinalizationVerificationError::InsufficientSigners { signers, quorum });
    }
    Ok(())
}

/// The public keys of the committee members that a certificate's bitmap names.
pub fn signing_members<C>(
    committee: &ordered::Set<Vec<u8>>,
    decoded: &DecodedCertificate<C>,
) -> (r: Vec<Vec<u8>>)
    ensures
        key_views(r@) == members_at(set_keys(*committee), decoded@.positions),
        ascending_below(decoded@.positions, decoded@.width),
{
    let positions = decoded.signer_indices();
    let mut r: Vec<Vec<u8>> = Vec::new();
    let mut i: usize = 0;
    while i < positions.len()
        invariant
            i <= positions@.len(),
            positions_of(positions@) == decoded@.positions,
            ascending_below(decoded@.positions, decoded@.width),
            fit_in_32_bits(decoded@.positions),
            key_views(r@) == members_at(
                set_keys(*committee),
                decoded@.positions.take(i as int),
            ),
        decreases positions@.len() - i,
    {
        let ghost before = key_views(r@);
        assert(decoded@.positions[i as int] == positions@[i as int]);
        if let Some(key) = set_key(committee, positions[i] as u32) {
            let copy = slice_to_vec(key.as_slice());
            r.push(copy);
            assert(key_views(r@) =~= before.push(key@));
        }
        assert(decoded@.positions.take(i + 1).drop_last() =~= decoded@.positions.take(i as int));
        i += 1;
    }
    assert(decoded@.positions.take(i as int) =~= decoded@.positions);
    r
}

/// How the Falcon primitives answered in one verification, and what they were asked: each listed
/// key is parsed; where the keys make a committee and a proposal stands at the front of the bytes,
/// the bytes after it are decoded under the size of the committee; where the decoded finalization is
/// one of the committee and bound to the frame by a quorum, its certificate is checked under the
/// namespace and the committee.
pub open spec fn answers<
    C,
    K: Fn(&Vec<u8>) -> Option<Vec<u8>>,
    D: Fn(&[u8], usize) -> Option<DecodedCertificate<C>>,
    S: Fn(&[u8], &ordered::Set<Vec<u8>>, &FinalizedProposal, &C) -> bool,
>(
    parse_key: K,
    decode_certificate: D,
    check_signatures: S,
    bytes: Seq<u8>,
    committee_pubkeys: Seq<Vec<u8>>,
    namespace: &[u8],
    expected_digest: Seq<u8>,
    parsed: Seq<Option<Vec<u8>>>,
    decoded: Option<DecodedCertificate<C>>,
    signatures_hold: bool,
) -> bool {
    let keys = parsed_keys(parsed_views(parsed));
    let committee = committee_of(keys);
    &&& parsed.len() == committee_pubkeys.len()
    &&& forall|i: int|
        0 <= i < parsed.len() ==> call_ensures(
            parse_key,
            (&committee_pubkeys[i],),
            #[trigger] parsed[i],
        )
    &&& committee_fault(parsed_views(parsed)) is None ==> match split_of(bytes) {
        Some((proposal, certificate)) => {
            &&& may_decode(decode_certificate, certificate, committee.len() as usize, decoded)
            &&& decoded matches Some(d) ==> belongs(d@, committee.len()) ==> binding_fault(
                committee.len(),
                proposal.payload@,
                expected_digest,
                d@.positions.len(),
            ) is None ==> exists|members: ordered::Set<Vec<u8>>| #[trigger]
                set_keys(members) == committee && call_ensures(
                    check_signatures,
                    (namespace, &members, &proposal, &d.inner()),
                    signatures_hold,
                )
        },
        None => true,
    }
}

/// What the logic sees of a verification result.
pub open spec fn result_view(r: Result<Vec<Vec<u8>>, FinalizationVerificationError>) -> Result<
    Seq<Seq<u8>>,
    FinalizationVerificationError,
> {
    match r {
        Ok(keys) => Ok(key_views(keys@)),
        Err(fault) => Err(fault),
    }
}

/// What the logic sees of an answer without the reason of a failure.
pub open spec fn answer_view(r: Option<Vec<Vec<u8>>>) -> Option<Seq<Seq<u8>>> {
    match r {
        Some(keys) => Some(key_views(keys@)),
        None => None,
    }
}

/// One verification: how the Falcon primitives answered, and the verdict on their answers. The signer
/// positions of a decoded certificate ascend and lie inside its bitmap. Keys that are credited are a
/// quorum of the listed committee, one for each signer.
pub open spec fn verification<
    C,
    K: Fn(&Vec<u8>) -> Option<Vec<u8>>,
    D: Fn(&[u8], usize) -> Option<DecodedCertificate<C>>,
    S: Fn(&[u8], &ordered::Set<Vec<u8>>, &FinalizedProposal, &C) -> bool,
>(
    parse_key: K,
    decode_certificate: D,
    check_signatures: S,
    bytes: Seq<u8>,
    committee_pubkeys: Seq<Vec<u8>>,
    namespace: &[u8],
    expected_digest: Seq<u8>,
    outcome: Result<Seq<Seq<u8>>, FinalizationVerificationError>,
    parsed: Seq<Option<Vec<u8>>>,
    decoded: Option<DecodedCertificate<C>>,
    signatures_hold: bool,
) -> bool {
    &&& answers(
        parse_key,
        decode_certificate,
        check_signatures,
        bytes,
        committee_pubkeys,
        namespace,
        expected_digest,
        parsed,
        decoded,
        signatures_hold,
    )
    &&& outcome == verdict(
        bytes,
        expected_digest,
        parsed_views(parsed),
        reply_view(decoded),
        signatures_hold,
    )
    &&& decoded matches Some(d) ==> ascending_below(d@.positions, d@.width)
    &&& outcome matches Ok(members) ==> {
        &&& credits_a_quorum(members, parsed_views(parsed))
        &&& parsed.len() == committee_pubkeys.len()
        &&& decoded matches Some(d) && names_each_signer(
            members,
            committee_of(parsed_keys(parsed_views(parsed))),
            d@,
        )
    }
}

/// `outcome` is what a verification may come to, given what the Falcon primitives may answer.
pub open spec fn may_verify<
    C,
    K: Fn(&Vec<u8>) -> Option<Vec<u8>>,
    D: Fn(&[u8], usize) -> Option<DecodedCertificate<C>>,
    S: Fn(&[u8], &ordered::Set<Vec<u8>>, &FinalizedProposal, &C) -> bool,
>(
    parse_key: K,
    decode_certificate: D,
    check_signatures: S,
    bytes: Seq<u8>,
    committee_pubkeys: Seq<Vec<u8>>,
    namespace: &[u8],
    expected_digest: Seq<u8>,
    outcome: Result<Seq<Seq<u8>>, FinalizationVerificationError>,
) -> bool {
    exists|
        parsed: Seq<Option<Vec<u8>>>,
        decoded: Option<DecodedCertificate<C>>,
        signatures_hold: bool,
    | #[trigger]
        verification(
            parse_key,
            decode_certificate,
            check_signatures,
            bytes,
            committee_pubkeys,
            namespace,
            expected_digest,
            outcome,
            parsed,
            decoded,
            signatures_hold,
        )
}

/// The answer that goes with an outcome when the reason of a failure is dropped.
pub open spec fn without_reason(
    outcome: Result<Seq<Seq<u8>>, FinalizationVerificationError>,
) -> Option<Seq<Seq<u8>>> {
    match outcome {
        Ok(members) => Some(members),
        Err(_) => None,
    }
}

/// `answer` is what a verification may come to when the reason of a failure is dropped.
pub open spec fn may_accept<
    C,
    K: Fn(&Vec<u8>) -> Option<Vec<u8>>,
    D: Fn(&[u8], usize) -> Option<DecodedCertificate<C>>,
    S: Fn(&[u8], &ordered::Set<Vec<u8>>, &FinalizedProposal, &C) -> bool,
>(
    parse_key: K,
    decode_certificate: D,
    check_signatures: S,
    bytes: Seq<u8>,
    committee_pubkeys: Seq<Vec<u8>>,
    namespace: &[u8],
    expected_digest: Seq<u8>,
    answer: Option<Seq<Seq<u8>>>,
) -> bool {
    exists|outcome: Result<Seq<Seq<u8>>, FinalizationVerificationError>| #[trigger]
        may_verify(
            parse_key,
            decode_certificate,
            check_signatures,
            bytes,
            committee_pubkeys,
            namespace,
            expected_digest,
            outcome,
        ) && answer == without_reason(outcome)
}

/// Verifies a serialized finalization against a shard committee, and keeps the reason of a failure.
///
/// - `committee_pubkeys`: the Falcon public keys of the committee members, in any order. Participants
///   are counted in 32 bits.
/// - `namespace`: the consensus domain.
/// - `expected_digest`: the frame identity that the certificate must bind to.
/// - `parse_key`: parses a listed key into its canonical bytes. The committee is sorted by them, so
///   they must compare as the keys do.
/// - `decode_certificate`: decodes a certificate off the front of its input, for a committee of the
///   given size.
/// - `check_signatures`: checks every signature of a certificate over the finalized proposal, under
///   the namespace and the sorted committee.
///
/// A certificate whose bitmap is wider than the committee does not decode.
///
/// Returns the public keys of the members that signed: a quorum of the committee, one key for each
/// signer, in the committee's order.
pub fn verify_finalization_detailed<
    C,
    K: Fn(&Vec<u8>) -> Option<Vec<u8>>,
    D: Fn(&[u8], usize) -> Option<DecodedCertificate<C>>,
    S: Fn(&[u8], &ordered::Set<Vec<u8>>, &FinalizedProposal, &C) -> bool,
>(
    bytes: &[u8],
    committee_pubkeys: &[Vec<u8>],
    namespace: &[u8],
    expected_digest: [u8; 32],
    parse_key: K,
    decode_certificate: D,
    check_signatures: S,
) -> (r: Result<Vec<Vec<u8>>, FinalizationVerificationError>)
    requires
        committee_pubkeys@.len() <= u32::MAX,
        forall|key: &Vec<u8>| call_requires(parse_key, (key,)),
        forall|input: &[u8], size: usize| call_requires(decode_certificate, (input, size)),
        forall|ns: &[u8], members: &ordered::Set<Vec<u8>>, proposal: &FinalizedProposal, c: &C|
            call_requires(check_signatures, (ns, members, proposal, c)),
    ensures
        may_verify(
            parse_key,
            decode_certificate,
            check_signatures,
            bytes@,
            committee_pubkeys@,
            namespace,
            expected_digest@,
            result_view(r),
        ),
{
    let mut parsed: Vec<Option<Vec<u8>>> = Vec::new();
    let mut i: usize = 0;
    while i < committee_pubkeys.len()
        invariant
            i <= committee_pubkeys@.len(),
            parsed@.len() == i,
            forall|key: &Vec<u8>| call_requires(parse_key, (key,)),
            forall|k: int|
                0 <= k < i ==> call_ensures(
                    parse_key,
                    (&committee_pubkeys@[k],),
                    #[trigger] parsed@[k],
                ),
        decreases committee_pubkeys@.len() - i,
    {
        let key = parse_key(&committee_pubkeys[i]);
        parsed.push(key);
        i += 1;
    }
    let ghost mut reply: Option<DecodedCertificate<C>> = None;
    let ghost mut hold: bool = false;
    let r: Result<Vec<Vec<u8>>, FinalizationVerificationError> = match build_committee(&parsed) {
        Err(fault) => Err(fault),
        Ok(committee) => {
            let committee_size: usize = set_len(&committee);
            match split_finalization(bytes) {
                None => Err(FinalizationVerificationError::DecodeFailed { committee_size }),
                Some((proposal, certificate)) => {
                    let decoded = decode_certificate(certificate, committee_size);
                    proof {
                        reply = decoded;
                        assert(may_decode(
                            decode_certificate,
                            certificate@,
                            committee_size,
                            decoded,
                        ));
                    }
                    match &decoded {
                        None => Err(FinalizationVerificationError::DecodeFailed { committee_size }),
                        Some(decoded) if decoded.width() > committee_size => Err(
                            FinalizationVerificationError::DecodeFailed { committee_size },
                        ),
                        Some(decoded) => {
                            let signers: usize = decoded.signer_count();
                            match bind_finalization(&committee, &proposal, expected_digest, signers) {
                                Err(fault) => Err(fault),
                                Ok(_) => {
                                    let ok = check_signatures(
                                        namespace,
                                        &committee,
                                        &proposal,
                                        decoded.certificate(),
                                    );
                                    proof {
                                        hold = ok;
                                    }
                                    if ok {
                                        Ok(signing_members(&committee, decoded))
                                    } else {
                                        Err(
                                            FinalizationVerificationError::SignatureVerificationFailed {
                                                signers,
                                                committee_size,
                                            },
                                        )
                                    }
                                },
                            }
                        },
                    }
                },
            }
        },
    };
    proof {
        if r is Ok {
            law_credited_members_are_a_quorum(
                bytes@,
                expected_digest@,
                parsed_views(parsed@),
                reply->0@,
                hold,
            );
        }
    }
    assert(verification(
        parse_key,
        decode_certificate,
        check_signatures,
        bytes@,
        committee_pubkeys@,
        namespace,
        expected_digest@,
        result_view(r),
        parsed@,
        reply,
        hold,
    ));
    r
}

/// As [`verify_finalization_detailed`], without the reason of a failure: the public keys of the
/// committee members that signed, or `None` when the certificate is malformed, is below quorum,
/// holds a bad signature or does not bind to `expected_digest`.
pub fn verify_finalization<
    C,
    K: Fn(&Vec<u8>) -> Option<Vec<u8>>,
    D: Fn(&[u8], usize) -> Option<DecodedCertificate<C>>,
    S: Fn(&[u8], &ordered::Set<Vec<u8>>, &FinalizedProposal, &C) -> bool,
>(
    bytes: &[u8],
    committee_pubkeys: &[Vec<u8>],
    namespace: &[u8],
    expected_digest: [u8; 32],
    parse_key: K,
    decode_certificate: D,
    check_signatures: S,
) -> (r: Option<Vec<Vec<u8>>>)
    requires
        committee_pubkeys@.len() <= u32::MAX,
        forall|key: &Vec<u8>| call_requires(parse_key, (key,)),
        forall|input: &[u8], size: usize| call_requires(decode_certificate, (input, size)),
        forall|ns: &[u8], members: &ordered::Set<Vec<u8>>, proposal: &FinalizedProposal, c: &C|
            call_requires(check_signatures, (ns, members, proposal, c)),
    ensures
        may_accept(
            parse_key,
            decode_certificate,
            check_signatures,
            bytes@,
            committee_pubkeys@,
            namespace,
            expected_digest@,
            answer_view(r),
        ),
{
    let outcome = verify_finalization_detailed(
        bytes,
        committee_pubkeys,
        namespace,
        expected_digest,
        parse_key,
        decode_certificate,
        check_signatures,
    );
    let ghost seen = result_view(outcome);
    let r = match outcome {
        Ok(members) => Some(members),
        Err(_) => None,
    };
    assert(answer_view(r) == without_reason(seen));
    r
}

} // verus!
