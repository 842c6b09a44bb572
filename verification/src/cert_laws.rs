//! What holds of finalization certificates as a whole.

use vstd::prelude::*;

use crate::app_cert::{
    belongs, binding_fault, committee_fault, committee_of, credits_a_quorum,
    finalization_bytes, inspection, law_split_inverts_encoding, members_at, names_each_signer,
    parsed_keys, split_of, verdict, CertificateView, EvidenceView, FinalizationVerificationError, CW_CERT_MAGIC,
};
use crate::bytes::{lemma_lex_irreflexive, lemma_lex_transitive, lex_lt, strictly_ascending};
use crate::commonware::{
    ascending_below, holds_repeat, proposal_bytes, quorum_of, FinalizedProposal,
};
use crate::text::{decimal, is_digit, lemma_decimal_delimits};

verus! {

/// A signature field that was wrapped is recognized, and what it carries is the wrapped certificate
/// and nothing else.
pub proof fn law_header_carries_the_wrapped_certificate(cert: Seq<u8>, carried: Seq<u8>)
    ensures
        CW_CERT_MAGIC@.is_prefix_of(CW_CERT_MAGIC@ + cert),
        CW_CERT_MAGIC@ + carried == CW_CERT_MAGIC@ + cert ==> carried == cert,
{
    let field = CW_CERT_MAGIC@ + cert;
    assert(CW_CERT_MAGIC@ =~= field.subrange(0, CW_CERT_MAGIC@.len() as int));
    if CW_CERT_MAGIC@ + carried == field {
        assert(carried =~= field.skip(CW_CERT_MAGIC@.len() as int));
        assert(cert =~= field.skip(CW_CERT_MAGIC@.len() as int));
    }
}

/// A finalization verifies exactly when its keys make a committee, its certificate decodes as one of
/// that committee, it binds to the frame, a quorum signed it and the signatures hold.
pub proof fn law_acceptance(
    bytes: Seq<u8>,
    digest: Seq<u8>,
    parsed: Seq<Option<Seq<u8>>>,
    certificate: Option<CertificateView>,
    signatures_hold: bool,
)
    ensures
        verdict(bytes, digest, parsed, certificate, signatures_hold) is Ok <==> {
            &&& parsed.len() > 0
            &&& parsed_keys(parsed).len() == parsed.len()
            &&& !holds_repeat(parsed_keys(parsed))
            &&& split_of(bytes) matches Some((proposal, _))
            &&& certificate matches Some(c)
            &&& belongs(c, committee_of(parsed_keys(parsed)).len())
            &&& proposal.payload@ == digest
            &&& c.positions.len() >= quorum_of(committee_of(parsed_keys(parsed)).len())
            &&& signatures_hold
        },
{
}

/// The signature check decides alone: whichever way it ends, the verdict is the same, unless it is
/// what stands between the keys and a failed check.
pub proof fn law_signature_check_decides_alone(
    bytes: Seq<u8>,
    digest: Seq<u8>,
    parsed: Seq<Option<Seq<u8>>>,
    certificate: Option<CertificateView>,
)
    ensures
        verdict(bytes, digest, parsed, certificate, true) == verdict(
            bytes,
            digest,
            parsed,
            certificate,
            false,
        ) || (verdict(bytes, digest, parsed, certificate, true) is Ok && is_signature_failure(
            verdict(bytes, digest, parsed, certificate, false),
        )),
{
}

/// The verification failed at the signatures.
pub open spec fn is_signature_failure(
    outcome: Result<Seq<Seq<u8>>, FinalizationVerificationError>,
) -> bool {
    outcome matches Err(fault) && fault is SignatureVerificationFailed
}

/// Of two different byte strings one comes before the other.
proof fn lemma_lex_total(a: Seq<u8>, b: Seq<u8>)
    ensures
        lex_lt(a, b) || lex_lt(b, a) || a == b,
    decreases a.len(),
{
    if a.len() == 0 || b.len() == 0 {
        if a.len() == b.len() {
            assert(a =~= b);
        }
    } else if a[0] == b[0] {
        let ta = a.drop_first();
        let tb = b.drop_first();
        lemma_lex_total(ta, tb);
        if ta == tb {
            assert(a.len() == ta.len() + 1 && b.len() == tb.len() + 1);
            assert forall|i: int| 0 <= i < a.len() implies a[i] == b[i] by {
                if i > 0 {
                    assert(a[i] == ta[i - 1]);
                    assert(b[i] == tb[i - 1]);
                }
            }
            assert(a =~= b);
        }
    }
}

/// Keys without a repeat have an ascending listing: the committee that they make.
pub proof fn law_committee_lists_the_keys(keys: Seq<Seq<u8>>)
    requires
        !holds_repeat(keys),
    ensures
        strictly_ascending(committee_of(keys)),
        committee_of(keys).to_multiset() == keys.to_multiset(),
        committee_of(keys).len() == keys.len(),
{
    broadcast use vstd::seq_lib::group_to_multiset_ensures;

    let leq = |a: Seq<u8>, b: Seq<u8>| a == b || lex_lt(a, b);
    assert forall|a: Seq<u8>, b: Seq<u8>| #[trigger] leq(a, b) && #[trigger] leq(b, a) implies a
        == b by {
        if a != b {
            lemma_lex_transitive(a, b, a);
            lemma_lex_irreflexive(a);
        }
    }
    assert forall|a: Seq<u8>, b: Seq<u8>, c: Seq<u8>| #[trigger] leq(a, b) && #[trigger] leq(b, c) implies leq(
        a,
        c,
    ) by {
        if a != b && b != c {
            lemma_lex_transitive(a, b, c);
        }
    }
    assert forall|a: Seq<u8>, b: Seq<u8>| #[trigger] leq(a, b) || leq(b, a) by {
        lemma_lex_total(a, b);
    }
    assert(vstd::relations::total_ordering(leq));
    keys.lemma_sort_by_ensures(leq);
    let sorted = keys.sort_by(leq);
    assert(keys.no_duplicates()) by {
        assert forall|i: int, j: int| 0 <= i < keys.len() && 0 <= j < keys.len() && i != j implies keys[i]
            != keys[j] by {
            if keys[i] == keys[j] {
                if i < j {
                    assert(holds_repeat(keys));
                } else {
                    assert(keys[j] == keys[i]);
                    assert(holds_repeat(keys));
                }
            }
        }
    }
    keys.lemma_multiset_has_no_duplicates();
    sorted.lemma_multiset_has_no_duplicates_conv();
    assert(strictly_ascending(sorted)) by {
        assert forall|i: int, j: int| 0 <= i < j < sorted.len() implies lex_lt(
            #[trigger] sorted[i],
            #[trigger] sorted[j],
        ) by {
            assert(leq(sorted[i], sorted[j]));
        }
    }
    let committee = committee_of(keys);
    assert(committee.to_multiset().len() == committee.len());
    assert(keys.to_multiset().len() == keys.len());
}

/// A key occurs among the parsed keys as often as it was listed.
pub proof fn lemma_parsed_count(parsed: Seq<Option<Seq<u8>>>, key: Seq<u8>)
    ensures
        parsed_keys(parsed).to_multiset().count(key) == parsed.to_multiset().count(Some(key)),
    decreases parsed.len(),
{
    broadcast use vstd::seq_lib::group_to_multiset_ensures;

    if parsed.len() > 0 {
        lemma_parsed_count(parsed.drop_last(), key);
        assert(parsed =~= parsed.drop_last().push(parsed.last()));
    }
}

proof fn lemma_repeat_is_multiplicity(a: Seq<Seq<u8>>, b: Seq<Seq<u8>>)
    requires
        a.to_multiset() == b.to_multiset(),
        holds_repeat(b),
    ensures
        holds_repeat(a),
{
    if !holds_repeat(a) {
        assert(a.no_duplicates()) by {
            assert forall|i: int, j: int| 0 <= i < a.len() && 0 <= j < a.len() && i != j implies a[i]
                != a[j] by {
                if a[i] == a[j] {
                    if i < j {
                        assert(holds_repeat(a));
                    } else {
                        assert(a[j] == a[i]);
                        assert(holds_repeat(a));
                    }
                }
            }
        }
        a.lemma_multiset_has_no_duplicates();
        b.lemma_multiset_has_no_duplicates_conv();
        assert(false);
    }
}

/// The committee may be listed in any order: every node that lists the same keys makes the same
/// committee of them and comes to the same verdict.
pub proof fn law_listing_order_is_irrelevant(
    bytes: Seq<u8>,
    digest: Seq<u8>,
    parsed: Seq<Option<Seq<u8>>>,
    relisted: Seq<Option<Seq<u8>>>,
    certificate: Option<CertificateView>,
    signatures_hold: bool,
)
    requires
        parsed.to_multiset() == relisted.to_multiset(),
    ensures
        verdict(bytes, digest, parsed, certificate, signatures_hold) == verdict(
            bytes,
            digest,
            relisted,
            certificate,
            signatures_hold,
        ),
        committee_fault(parsed) == committee_fault(relisted),
        committee_fault(parsed) is None ==> committee_of(parsed_keys(parsed)) == committee_of(
            parsed_keys(relisted),
        ),
{
    broadcast use vstd::seq_lib::group_to_multiset_ensures;

    let a = parsed_keys(parsed);
    let b = parsed_keys(relisted);
    assert(a.to_multiset() =~= b.to_multiset()) by {
        assert forall|key: Seq<u8>| a.to_multiset().count(key) == b.to_multiset().count(key) by {
            lemma_parsed_count(parsed, key);
            lemma_parsed_count(relisted, key);
        }
    }
    assert(a.to_multiset().len() == a.len());
    assert(b.to_multiset().len() == b.len());
    assert(parsed.to_multiset().len() == parsed.len());
    assert(relisted.to_multiset().len() == relisted.len());
    if holds_repeat(a) {
        lemma_repeat_is_multiplicity(b, a);
    }
    if holds_repeat(b) {
        lemma_repeat_is_multiplicity(a, b);
    }
    if !holds_repeat(a) {
        law_committee_lists_the_keys(a);
        law_committee_lists_the_keys(b);
        crate::bytes::lemma_ascending_listing_is_unique(committee_of(a), committee_of(b));
    }
}

proof fn lemma_members_at_positions(committee: Seq<Seq<u8>>, positions: Seq<int>)
    requires
        ascending_below(positions, committee.len()),
    ensures
        members_at(committee, positions).len() == positions.len(),
        forall|i: int|
            0 <= i < positions.len() ==> #[trigger] members_at(committee, positions)[i]
                == committee[positions[i]],
    decreases positions.len(),
{
    if positions.len() > 0 {
        let before = positions.drop_last();
        assert(ascending_below(before, committee.len())) by {
            assert forall|i: int| 0 <= i < before.len() implies 0 <= #[trigger] before[i]
                < committee.len() by {
                assert(before[i] == positions[i]);
            }
        }
        lemma_members_at_positions(committee, before);
        assert forall|i: int| 0 <= i < positions.len() implies #[trigger] members_at(
            committee,
            positions,
        )[i] == committee[positions[i]] by {
            if i < before.len() {
                assert(members_at(committee, before)[i] == committee[before[i]]);
            }
        }
    }
}

/// Positions that ascend below a bound are no more than the bound.
pub proof fn lemma_ascending_below_is_short(positions: Seq<int>, bound: nat)
    requires
        ascending_below(positions, bound),
    ensures
        positions.len() <= bound,
    decreases positions.len(),
{
    if positions.len() > 0 {
        let before = positions.drop_last();
        let last = positions.last();
        assert(ascending_below(before, last as nat)) by {
            assert forall|i: int| 0 <= i < before.len() implies 0 <= #[trigger] before[i] < last by {
                assert(before[i] == positions[i]);
                assert(positions[i] < positions[positions.len() - 1]);
            }
        }
        lemma_ascending_below_is_short(before, last as nat);
    }
}

/// The members that a verified finalization credits are a quorum of the committee: different keys,
/// each of them listed, one for each signer, in the committee's order.
pub proof fn law_credited_members_are_a_quorum(
    bytes: Seq<u8>,
    digest: Seq<u8>,
    parsed: Seq<Option<Seq<u8>>>,
    certificate: CertificateView,
    signatures_hold: bool,
)
    requires
        ascending_below(certificate.positions, certificate.width),
    ensures
        verdict(bytes, digest, parsed, Some(certificate), signatures_hold) matches Ok(members)
            ==> credits_a_quorum(members, parsed) && names_each_signer(
            members,
            committee_of(parsed_keys(parsed)),
            certificate,
        ),
{
    broadcast use vstd::seq_lib::group_to_multiset_ensures;

    if let Ok(members) = verdict(bytes, digest, parsed, Some(certificate), signatures_hold) {
        let keys = parsed_keys(parsed);
        let committee = committee_of(keys);
        law_committee_lists_the_keys(keys);
        assert(ascending_below(certificate.positions, committee.len()));
        lemma_members_at_positions(committee, certificate.positions);
        lemma_ascending_below_is_short(certificate.positions, committee.len());
        assert forall|i: int, j: int| 0 <= i < j < members.len() implies lex_lt(
            #[trigger] members[i],
            #[trigger] members[j],
        ) by {
            let p = certificate.positions[i];
            let q = certificate.positions[j];
            assert(members[i] == committee[p] && members[j] == committee[q]);
            assert(lex_lt(committee[p], committee[q]));
        }
        assert forall|i: int, j: int| 0 <= i < members.len() && 0 <= j < members.len() && i
            != j implies members[i] != members[j] by {
            lemma_lex_irreflexive(members[i]);
            if i < j {
                assert(lex_lt(members[i], members[j]));
            } else {
                assert(lex_lt(members[j], members[i]));
            }
        }
        assert forall|i: int| 0 <= i < members.len() implies parsed.contains(
            Some(#[trigger] members[i]),
        ) by {
            let key = members[i];
            assert(members[i] == committee[certificate.positions[i]]);
            assert(committee.contains(key));
            assert(committee.to_multiset().count(key) > 0);
            lemma_parsed_count(parsed, key);
        }
    }
}

/// A quorum is the least number of members that is more than two thirds of all of them.
pub proof fn law_a_quorum_is_more_than_two_thirds(n: nat)
    requires
        n > 0,
    ensures
        3 * quorum_of(n) > 2 * n,
        3 * (quorum_of(n) - 1) <= 2 * n,
        0 < quorum_of(n) <= n,
{
}

/// A serialized finalization is the wire form of its proposal and then its certificate, and bytes
/// split into a proposal and a certificate exactly when they are the two, serialized.
pub proof fn law_bytes_split_exactly_as_they_were_serialized(
    bytes: Seq<u8>,
    proposal: FinalizedProposal,
    certificate: Seq<u8>,
)
    ensures
        finalization_bytes(proposal, certificate) == proposal_bytes(proposal) + certificate,
        split_of(bytes) == Some((proposal, certificate)) <==> bytes == proposal_bytes(proposal)
            + certificate,
        split_of(bytes) is None <==> forall|p: FinalizedProposal, c: Seq<u8>|
            bytes != #[trigger] finalization_bytes(p, c),
{
    law_split_inverts_encoding(proposal, certificate);
    if split_of(bytes) is Some {
        lemma_split_parts(bytes);
        let (p, c) = split_of(bytes)->0;
        assert(bytes == finalization_bytes(p, c));
    } else {
        assert forall|p: FinalizedProposal, c: Seq<u8>| bytes != #[trigger] finalization_bytes(
            p,
            c,
        ) by {
            law_split_inverts_encoding(p, c);
        }
    }
}

/// A finalization that was serialized is judged by the proposal and the certificate that went into
/// it: the bytes neither hide nor change them.
pub proof fn law_encoded_finalization_is_judged_by_its_parts(
    proposal: FinalizedProposal,
    wire_certificate: Seq<u8>,
    digest: Seq<u8>,
    parsed: Seq<Option<Seq<u8>>>,
    certificate: CertificateView,
    signatures_hold: bool,
)
    requires
        committee_fault(parsed) is None,
    ensures
        ({
            let bytes = finalization_bytes(proposal, wire_certificate);
            let committee = committee_of(parsed_keys(parsed));
            &&& split_of(bytes) == Some((proposal, wire_certificate))
            &&& verdict(bytes, digest, parsed, Some(certificate), signatures_hold) == (if !belongs(
                certificate,
                committee.len(),
            ) {
                Err::<Seq<Seq<u8>>, FinalizationVerificationError>(
                    FinalizationVerificationError::DecodeFailed {
                        committee_size: committee.len() as usize,
                    },
                )
            } else {
                match binding_fault(
                    committee.len(),
                    proposal.payload@,
                    digest,
                    certificate.positions.len(),
                ) {
                    Some(fault) => Err(fault),
                    None => if signatures_hold {
                        Ok(members_at(committee, certificate.positions))
                    } else {
                        Err(
                            FinalizationVerificationError::SignatureVerificationFailed {
                                signers: certificate.positions.len() as usize,
                                committee_size: committee.len() as usize,
                            },
                        )
                    },
                }
            })
        }),
{
    law_split_inverts_encoding(proposal, wire_certificate);
}

/// The reply is a certificate of a committee of the given size, with no byte to spare.
pub open spec fn tells(reply: Option<CertificateView>, size: usize) -> bool {
    reply matches Some(c) && c.unread == 0 && belongs(c, size as nat)
}

/// Inspection reports a candidate size exactly when the serialized finalization splits and the size
/// is not zero and its certificate decodes as one of a committee of that size with no byte to spare.
pub proof fn law_inspection_reports_whole_decodes(
    bytes: Seq<u8>,
    digest: Seq<u8>,
    sizes: Seq<usize>,
    replies: Seq<Option<CertificateView>>,
    size: usize,
)
    requires
        sizes.len() == replies.len(),
    ensures
        (exists|k: int|
            0 <= k < inspection(bytes, digest, sizes, replies).len() && (#[trigger] inspection(
                bytes,
                digest,
                sizes,
                replies,
            )[k]).committee_size == size) <==> (exists|i: int|
            0 <= i < sizes.len() && (#[trigger] sizes[i]) == size && size > 0 && split_of(bytes) is Some
                && tells(replies[i], size)),
    decreases sizes.len(),
{
    if sizes.len() > 0 {
        let before_sizes = sizes.drop_last();
        let before_replies = replies.drop_last();
        law_inspection_reports_whole_decodes(bytes, digest, before_sizes, before_replies, size);
        let before = inspection(bytes, digest, before_sizes, before_replies);
        let all = inspection(bytes, digest, sizes, replies);
        let n = sizes.len() - 1;
        if exists|k: int| 0 <= k < all.len() && (#[trigger] all[k]).committee_size == size {
            let k = choose|k: int| 0 <= k < all.len() && (#[trigger] all[k]).committee_size == size;
            if k < before.len() {
                assert(before[k] == all[k]);
                let i = choose|i: int|
                    0 <= i < before_sizes.len() && (#[trigger] before_sizes[i]) == size && size > 0
                        && split_of(bytes) is Some && tells(before_replies[i], size);
                assert(sizes[i] == size && replies[i] == before_replies[i]);
            } else {
                assert(sizes[n] == size);
            }
        }
        if exists|i: int|
            0 <= i < sizes.len() && (#[trigger] sizes[i]) == size && size > 0 && split_of(bytes) is Some
                && tells(replies[i], size) {
            let i = choose|i: int|
                0 <= i < sizes.len() && (#[trigger] sizes[i]) == size && size > 0 && split_of(
                    bytes,
                ) is Some && tells(replies[i], size);
            if i < n {
                assert(before_sizes[i] == size && before_replies[i] == replies[i]);
                let k = choose|k: int|
                    0 <= k < before.len() && (#[trigger] before[k]).committee_size == size;
                assert(all[k] == before[k]);
            } else {
                assert(all[before.len() as int].committee_size == size);
            }
        }
    }
}

/// A finalization that was serialized is reported under every candidate size that its certificate
/// decodes under, with its signers and whether it is bound to the frame.
pub proof fn law_inspection_reports_an_encoded_finalization(
    proposal: FinalizedProposal,
    wire_certificate: Seq<u8>,
    digest: Seq<u8>,
    sizes: Seq<usize>,
    replies: Seq<Option<CertificateView>>,
    i: int,
)
    requires
        sizes.len() == replies.len(),
        0 <= i < sizes.len(),
        sizes[i] > 0,
        tells(replies[i], sizes[i]),
    ensures
        inspection(finalization_bytes(proposal, wire_certificate), digest, sizes, replies).contains(
            EvidenceView {
                committee_size: sizes[i],
                signer_indices: replies[i]->0.positions,
                payload_matches_expected_digest: proposal.payload@ == digest,
            },
        ),
    decreases sizes.len(),
{
    let bytes = finalization_bytes(proposal, wire_certificate);
    let entry = EvidenceView {
        committee_size: sizes[i],
        signer_indices: replies[i]->0.positions,
        payload_matches_expected_digest: proposal.payload@ == digest,
    };
    law_split_inverts_encoding(proposal, wire_certificate);
    let before = inspection(bytes, digest, sizes.drop_last(), replies.drop_last());
    let all = inspection(bytes, digest, sizes, replies);
    if i == sizes.len() - 1 {
        assert(all[before.len() as int] == entry);
    } else {
        law_inspection_reports_an_encoded_finalization(
            proposal,
            wire_certificate,
            digest,
            sizes.drop_last(),
            replies.drop_last(),
            i,
        );
        let k = choose|k: int| 0 <= k < before.len() && before[k] == entry;
        assert(all[k] == entry);
    }
}

/// A serialized finalization that splits is the wire form of its parts.
pub proof fn lemma_split_parts(bytes: Seq<u8>)
    requires
        split_of(bytes) is Some,
    ensures
        split_of(bytes) matches Some((proposal, rest)) && bytes == finalization_bytes(
            proposal,
            rest,
        ),
{
    let p = choose|p: FinalizedProposal| (#[trigger] proposal_bytes(p)).is_prefix_of(bytes);
    assert(bytes =~= proposal_bytes(p) + bytes.skip(proposal_bytes(p).len() as int));
}

/// The words that the sentence of an error starts with.
spec fn lead(error: FinalizationVerificationError) -> Seq<char> {
    match error {
        FinalizationVerificationError::EmptyCommittee => "empty reconstructed committee"@,
        FinalizationVerificationError::InvalidCommitteeKey { .. } =>
            "reconstructed committee contains invalid Falcon keys (parsed "@,
        FinalizationVerificationError::DuplicateCommitteeKeys { .. } =>
            "reconstructed committee contains duplicate Falcon keys ("@,
        FinalizationVerificationError::DecodeFailed { .. } =>
            "certificate decode failed under reconstructed committee size "@,
        FinalizationVerificationError::PayloadMismatch =>
            "certificate proposal digest does not bind to frame output"@,
        FinalizationVerificationError::InsufficientSigners { .. } => "certificate has "@,
        FinalizationVerificationError::SignatureVerificationFailed { .. } =>
            "Falcon certificate verification failed ("@,
    }
}

/// What follows the leading words in the sentence of an error.
spec fn figures(error: FinalizationVerificationError) -> Seq<char> {
    match error {
        FinalizationVerificationError::EmptyCommittee => seq![],
        FinalizationVerificationError::InvalidCommitteeKey { members, parsed } => decimal(
            parsed as nat,
        ) + ("/"@ + (decimal(members as nat) + ")"@)),
        FinalizationVerificationError::DuplicateCommitteeKeys { members } => decimal(
            members as nat,
        ) + " entries)"@,
        FinalizationVerificationError::DecodeFailed { committee_size } => decimal(
            committee_size as nat,
        ) + seq![],
        FinalizationVerificationError::PayloadMismatch => seq![],
        FinalizationVerificationError::InsufficientSigners { signers, quorum } => decimal(
            signers as nat,
        ) + (" signers, below quorum "@ + (decimal(quorum as nat) + seq![])),
        FinalizationVerificationError::SignatureVerificationFailed { signers, committee_size } =>
            decimal(signers as nat) + (" signers, reconstructed committee size "@ + (decimal(
            committee_size as nat,
        ) + ")"@)),
    }
}

/// Characters of the leading words by which errors are told apart.
proof fn lemma_marks(error: FinalizationVerificationError)
    ensures
        lead(error).len() > 12,
        match error {
            FinalizationVerificationError::EmptyCommittee => lead(error)[0] == 'e',
            FinalizationVerificationError::InvalidCommitteeKey { .. } => lead(error).len() > 33
                && lead(error)[0] == 'r' && lead(error)[33] == 'i',
            FinalizationVerificationError::DuplicateCommitteeKeys { .. } => lead(error).len() > 33
                && lead(error)[0] == 'r' && lead(error)[33] == 'd',
            FinalizationVerificationError::DecodeFailed { .. } => lead(error)[0] == 'c' && lead(
                error,
            )[12] == 'd',
            FinalizationVerificationError::PayloadMismatch => lead(error)[0] == 'c' && lead(
                error,
            )[12] == 'p',
            FinalizationVerificationError::InsufficientSigners { .. } => lead(error)[0] == 'c'
                && lead(error)[12] == 'h',
            FinalizationVerificationError::SignatureVerificationFailed { .. } => lead(error)[0]
                == 'F',
        },
{
    match error {
        FinalizationVerificationError::EmptyCommittee => {
            reveal_strlit("empty reconstructed committee");
        },
        FinalizationVerificationError::InvalidCommitteeKey { .. } => {
            reveal_strlit("reconstructed committee contains invalid Falcon keys (parsed ");
        },
        FinalizationVerificationError::DuplicateCommitteeKeys { .. } => {
            reveal_strlit("reconstructed committee contains duplicate Falcon keys (");
        },
        FinalizationVerificationError::DecodeFailed { .. } => {
            reveal_strlit("certificate decode failed under reconstructed committee size ");
        },
        FinalizationVerificationError::PayloadMismatch => {
            reveal_strlit("certificate proposal digest does not bind to frame output");
        },
        FinalizationVerificationError::InsufficientSigners { .. } => {
            reveal_strlit("certificate has ");
        },
        FinalizationVerificationError::SignatureVerificationFailed { .. } => {
            reveal_strlit("Falcon certificate verification failed (");
        },
    }
}

proof fn lemma_sentence_parts(error: FinalizationVerificationError)
    ensures
        error.text() == lead(error) + figures(error),
{
    assert(error.text() =~= lead(error) + figures(error));
}

proof fn lemma_same_sentence(a: FinalizationVerificationError, b: FinalizationVerificationError)
    requires
        a.text() == b.text(),
    ensures
        lead(a) == lead(b),
        figures(a) == figures(b),
{
    lemma_marks(a);
    lemma_marks(b);
    lemma_sentence_parts(a);
    lemma_sentence_parts(b);
    assert(a.text()[0] == lead(a)[0] && b.text()[0] == lead(b)[0]);
    assert(a.text()[12] == lead(a)[12] && b.text()[12] == lead(b)[12]);
    if lead(a).len() > 33 && lead(b).len() > 33 {
        assert(a.text()[33] == lead(a)[33] && b.text()[33] == lead(b)[33]);
    }
    assert(lead(a) == lead(b));
    assert(figures(a) =~= a.text().skip(lead(a).len() as int));
    assert(figures(b) =~= b.text().skip(lead(b).len() as int));
}

/// Different errors are different sentences.
pub proof fn law_sentences_tell_errors_apart(
    a: FinalizationVerificationError,
    b: FinalizationVerificationError,
)
    ensures
        a.text() == b.text() <==> a == b,
{
    if a.text() == b.text() {
        lemma_same_sentence(a, b);
        lemma_marks(a);
        lemma_marks(b);
        reveal_strlit("/");
        reveal_strlit(")");
        reveal_strlit(" entries)");
        reveal_strlit(" signers, below quorum ");
        reveal_strlit(" signers, reconstructed committee size ");
        match (a, b) {
            (
                FinalizationVerificationError::InvalidCommitteeKey { members: m, parsed: p },
                FinalizationVerificationError::InvalidCommitteeKey { members: n, parsed: q },
            ) => {
                lemma_two_figures(p as nat, q as nat, "/"@, m as nat, n as nat, ")"@);
            },
            (
                FinalizationVerificationError::DuplicateCommitteeKeys { members: m },
                FinalizationVerificationError::DuplicateCommitteeKeys { members: n },
            ) => {
                lemma_decimal_delimits(m as nat, n as nat, " entries)"@, " entries)"@);
            },
            (
                FinalizationVerificationError::DecodeFailed { committee_size: m },
                FinalizationVerificationError::DecodeFailed { committee_size: n },
            ) => {
                lemma_decimal_delimits(m as nat, n as nat, seq![], seq![]);
            },
            (
                FinalizationVerificationError::InsufficientSigners { signers: m, quorum: p },
                FinalizationVerificationError::InsufficientSigners { signers: n, quorum: q },
            ) => {
                let words = " signers, below quorum "@;
                lemma_two_figures(m as nat, n as nat, words, p as nat, q as nat, seq![]);
            },
            (
                FinalizationVerificationError::SignatureVerificationFailed {
                    signers: m,
                    committee_size: p,
                },
                FinalizationVerificationError::SignatureVerificationFailed {
                    signers: n,
                    committee_size: q,
                },
            ) => {
                let words = " signers, reconstructed committee size "@;
                lemma_two_figures(m as nat, n as nat, words, p as nat, q as nat, ")"@);
            },
            _ => {},
        }
    }
}

/// Two numbers with words between and behind them can be told from the whole.
proof fn lemma_two_figures(
    m: nat,
    n: nat,
    words: Seq<char>,
    p: nat,
    q: nat,
    end: Seq<char>,
)
    requires
        words.len() > 0 && !is_digit(words[0]),
        end.len() == 0 || !is_digit(end[0]),
        decimal(m) + (words + (decimal(p) + end)) == decimal(n) + (words + (decimal(q) + end)),
    ensures
        m == n,
        p == q,
{
    let x = words + (decimal(p) + end);
    let y = words + (decimal(q) + end);
    lemma_decimal_delimits(m, n, x, y);
    assert(x.skip(words.len() as int) =~= decimal(p) + end);
    assert(y.skip(words.len() as int) =~= decimal(q) + end);
    lemma_decimal_delimits(p, q, end, end);
}

/// The sentence of an error names what went wrong and every count that the error holds, in decimal.
pub proof fn law_sentences_name_their_counts(a: usize, b: usize)
    ensures
        FinalizationVerificationError::EmptyCommittee.text() == "empty reconstructed committee"@,
        (FinalizationVerificationError::InvalidCommitteeKey { members: a, parsed: b }).text()
            == "reconstructed committee contains invalid Falcon keys (parsed "@ + decimal(b as nat)
            + "/"@ + decimal(a as nat) + ")"@,
        (FinalizationVerificationError::DuplicateCommitteeKeys { members: a }).text()
            == "reconstructed committee contains duplicate Falcon keys ("@ + decimal(a as nat)
            + " entries)"@,
        (FinalizationVerificationError::DecodeFailed { committee_size: a }).text()
            == "certificate decode failed under reconstructed committee size "@ + decimal(a as nat),
        FinalizationVerificationError::PayloadMismatch.text()
            == "certificate proposal digest does not bind to frame output"@,
        (FinalizationVerificationError::InsufficientSigners { signers: a, quorum: b }).text()
            == "certificate has "@ + decimal(a as nat) + " signers, below quorum "@ + decimal(
            b as nat,
        ),
        (FinalizationVerificationError::SignatureVerificationFailed {
            signers: a,
            committee_size: b,
        }).text() == "Falcon certificate verification failed ("@ + decimal(a as nat)
            + " signers, reconstructed committee size "@ + decimal(b as nat) + ")"@,
{
}

/// The mark of a certificate in a header's signature field.
pub proof fn law_the_mark_is_four_letters()
    ensures
        CW_CERT_MAGIC@ == seq![0x43u8, 0x57u8, 0x43u8, 0x54u8],
{
    assert(CW_CERT_MAGIC@ =~= seq![0x43u8, 0x57u8, 0x43u8, 0x54u8]);
}

} // verus!
