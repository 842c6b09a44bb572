//! What holds of calls of the certificate functions: what their outcomes rest on, and how the outcomes
//! of several calls go together where the Falcon primitives that they are handed answer the same
//! whenever they are asked the same.

use commonware_utils::ordered;
use vstd::prelude::*;

use crate::app_cert::{
    answer_view, belongs, binding_fault, certificate_part, committee_fault, committee_of,
    credits_a_quorum, evidence_views, finalization_bytes, inspection, law_split_inverts_encoding,
    may_accept, may_decode, may_decode_each, may_inspect, may_show, may_verify, names_positions,
    parsed_keys, parsed_view, parsed_views, reply_view, result_view, split_of, verdict, verification,
    without_reason, CertificateView, DecodedCertificate, DecodedFinalizationEvidence, EvidenceView,
    FinalizationVerificationError,
};
use crate::bytes::lex_lt;
use crate::cert_laws::{
    is_signature_failure, law_a_quorum_is_more_than_two_thirds,
    law_bytes_split_exactly_as_they_were_serialized, law_committee_lists_the_keys,
    law_inspection_reports_whole_decodes, law_listing_order_is_irrelevant,
    law_signature_check_decides_alone, lemma_ascending_below_is_short, lemma_parsed_count,
    lemma_split_parts, tells,
};
use crate::commonware::{
    holds_repeat, key_views, set_keys, signer_positions, signer_width, FinalizedProposal,
};

verus! {

/// `parse_key` may parse a key into `parsed`.
pub open spec fn may_parse<K: Fn(&Vec<u8>) -> Option<Vec<u8>>>(
    parse_key: K,
    key: Seq<u8>,
    parsed: Option<Seq<u8>>,
) -> bool {
    exists|given: &Vec<u8>, reply: Option<Vec<u8>>| #[trigger]
        call_ensures(parse_key, (given,), reply) && given@ == key && parsed_view(reply) == parsed
}

/// A key always parses into the same.
pub open spec fn parses_alike<K: Fn(&Vec<u8>) -> Option<Vec<u8>>>(parse_key: K) -> bool {
    forall|key: Seq<u8>, a: Option<Seq<u8>>, b: Option<Seq<u8>>| #[trigger]
        may_parse(parse_key, key, a) && #[trigger] may_parse(parse_key, key, b) ==> a == b
}

/// The replies of a decoder are the same: the same certificate value, and the same of it for the
/// logic to see.
pub open spec fn same_reply<C>(
    a: Option<DecodedCertificate<C>>,
    b: Option<DecodedCertificate<C>>,
) -> bool {
    &&& reply_view(a) == reply_view(b)
    &&& a is Some ==> a->0.inner() == b->0.inner()
}

/// A certificate always decodes to the same.
pub open spec fn decodes_alike<C, D: Fn(&[u8], usize) -> Option<DecodedCertificate<C>>>(
    decode_certificate: D,
) -> bool {
    forall|
        input: Seq<u8>,
        size: usize,
        a: Option<DecodedCertificate<C>>,
        b: Option<DecodedCertificate<C>>,
    | #[trigger]
        may_decode(decode_certificate, input, size, a) && #[trigger] may_decode(
            decode_certificate,
            input,
            size,
            b,
        ) ==> same_reply(a, b)
}

/// `check_signatures` may answer `hold`.
pub open spec fn may_check<
    C,
    S: Fn(&[u8], &ordered::Set<Vec<u8>>, &FinalizedProposal, &C) -> bool,
>(
    check_signatures: S,
    namespace: Seq<u8>,
    committee: Seq<Seq<u8>>,
    proposal: FinalizedProposal,
    certificate: C,
    hold: bool,
) -> bool {
    exists|ns: &[u8], members: &ordered::Set<Vec<u8>>, p: &FinalizedProposal, c: &C| #[trigger]
        call_ensures(check_signatures, (ns, members, p, c), hold) && ns@ == namespace && set_keys(
            *members,
        ) == committee && *p == proposal && *c == certificate
}

/// The signatures of a certificate always hold, or never, under a namespace and a committee.
pub open spec fn checks_alike<
    C,
    S: Fn(&[u8], &ordered::Set<Vec<u8>>, &FinalizedProposal, &C) -> bool,
>(check_signatures: S) -> bool {
    forall|
        namespace: Seq<u8>,
        committee: Seq<Seq<u8>>,
        proposal: FinalizedProposal,
        certificate: C,
        a: bool,
        b: bool,
    | #[trigger]
        may_check(check_signatures, namespace, committee, proposal, certificate, a)
            && #[trigger] may_check(
            check_signatures,
            namespace,
            committee,
            proposal,
            certificate,
            b,
        ) ==> a == b
}

/// A list that is gone through in another order gives the same values.
proof fn lemma_mapped_multiset<A, B>(a: Seq<A>, b: Seq<A>, f: spec_fn(A) -> B)
    requires
        a.to_multiset() == b.to_multiset(),
    ensures
        a.map_values(f).to_multiset() == b.map_values(f).to_multiset(),
    decreases a.len(),
{
    broadcast use vstd::seq_lib::group_to_multiset_ensures;

    assert(a.to_multiset().len() == a.len() && b.to_multiset().len() == b.len());
    if a.len() == 0 {
        assert(a.map_values(f) =~= b.map_values(f));
    } else {
        let x = a.last();
        let rest = a.drop_last();
        assert(a =~= rest.push(x));
        assert(a.contains(x));
        assert(b.to_multiset().count(x) > 0);
        assert(b.contains(x));
        let j = choose|j: int| 0 <= j < b.len() && b[j] == x;
        let other = b.remove(j);
        assert(rest.to_multiset() =~= a.to_multiset().remove(x));
        assert(other.to_multiset() == b.to_multiset().remove(x));
        lemma_mapped_multiset(rest, other, f);
        assert(a.map_values(f) =~= rest.map_values(f).push(f(x)));
        assert(b.map_values(f).remove(j) =~= other.map_values(f));
        assert(b.map_values(f).contains(b.map_values(f)[j]));
        assert(b.map_values(f).to_multiset() =~= other.map_values(f).to_multiset().insert(f(x)));
    }
}

/// What the listed keys parse into depends on the keys alone.
proof fn lemma_parsed_by_key<K: Fn(&Vec<u8>) -> Option<Vec<u8>>>(
    parse_key: K,
    keys: Seq<Vec<u8>>,
    parsed: Seq<Option<Vec<u8>>>,
)
    requires
        parses_alike(parse_key),
        parsed.len() == keys.len(),
        forall|i: int|
            0 <= i < parsed.len() ==> call_ensures(parse_key, (&keys[i],), #[trigger] parsed[i]),
    ensures
        parsed_views(parsed) == key_views(keys).map_values(
            |key: Seq<u8>| choose|v: Option<Seq<u8>>| may_parse(parse_key, key, v),
        ),
{
    let by_key = |key: Seq<u8>| choose|v: Option<Seq<u8>>| may_parse(parse_key, key, v);
    let mapped = key_views(keys).map_values(by_key);
    assert forall|i: int| 0 <= i < parsed.len() implies parsed_views(parsed)[i] == mapped[i] by {
        let key = keys[i]@;
        assert(call_ensures(parse_key, (&keys[i],), parsed[i]));
        assert(may_parse(parse_key, key, parsed_view(parsed[i])));
        let v = choose|v: Option<Seq<u8>>| may_parse(parse_key, key, v);
        assert(may_parse(parse_key, key, v));
    }
    assert(parsed_views(parsed) =~= mapped);
}

/// Two verifications of the same bytes for the same frame, whose keys are the same up to their order.
proof fn lemma_two_verifications<
    C,
    K: Fn(&Vec<u8>) -> Option<Vec<u8>>,
    D: Fn(&[u8], usize) -> Option<DecodedCertificate<C>>,
    S: Fn(&[u8], &ordered::Set<Vec<u8>>, &FinalizedProposal, &C) -> bool,
>(
    parse_key: K,
    decode_certificate: D,
    check_signatures: S,
    bytes: Seq<u8>,
    keys: Seq<Vec<u8>>,
    relisted: Seq<Vec<u8>>,
    namespace: &[u8],
    other_namespace: &[u8],
    digest: Seq<u8>,
    a: Result<Seq<Seq<u8>>, FinalizationVerificationError>,
    b: Result<Seq<Seq<u8>>, FinalizationVerificationError>,
)
    requires
        parses_alike(parse_key),
        decodes_alike(decode_certificate),
        key_views(keys).to_multiset() == key_views(relisted).to_multiset(),
        may_verify(
            parse_key,
            decode_certificate,
            check_signatures,
            bytes,
            keys,
            namespace,
            digest,
            a,
        ),
        may_verify(
            parse_key,
            decode_certificate,
            check_signatures,
            bytes,
            relisted,
            other_namespace,
            digest,
            b,
        ),
    ensures
        a == b || (a is Ok && is_signature_failure(b)) || (b is Ok && is_signature_failure(a)),
        checks_alike(check_signatures) && namespace@ == other_namespace@ ==> a == b,
{
    let (parsed_a, decoded_a, hold_a) = choose|
        parsed: Seq<Option<Vec<u8>>>,
        decoded: Option<DecodedCertificate<C>>,
        hold: bool,
    | #[trigger]
        verification(
            parse_key,
            decode_certificate,
            check_signatures,
            bytes,
            keys,
            namespace,
            digest,
            a,
            parsed,
            decoded,
            hold,
        );
    let (parsed_b, decoded_b, hold_b) = choose|
        parsed: Seq<Option<Vec<u8>>>,
        decoded: Option<DecodedCertificate<C>>,
        hold: bool,
    | #[trigger]
        verification(
            parse_key,
            decode_certificate,
            check_signatures,
            bytes,
            relisted,
            other_namespace,
            digest,
            b,
            parsed,
            decoded,
            hold,
        );
    let by_key = |key: Seq<u8>| choose|v: Option<Seq<u8>>| may_parse(parse_key, key, v);
    let pa = parsed_views(parsed_a);
    let pb = parsed_views(parsed_b);
    lemma_parsed_by_key(parse_key, keys, parsed_a);
    lemma_parsed_by_key(parse_key, relisted, parsed_b);
    lemma_mapped_multiset(key_views(keys), key_views(relisted), by_key);
    assert(pa.to_multiset() == pb.to_multiset());
    let seen_a = reply_view(decoded_a);
    let seen_b = reply_view(decoded_b);
    law_listing_order_is_irrelevant(bytes, digest, pa, pb, seen_b, hold_b);
    law_signature_check_decides_alone(bytes, digest, pa, seen_a);
    let committee = committee_of(parsed_keys(pa));
    if committee_fault(pa) is None && split_of(bytes) is Some {
        let (proposal, certificate) = split_of(bytes)->0;
        let size = committee.len() as usize;
        assert(may_decode(decode_certificate, certificate, size, decoded_a));
        assert(may_decode(decode_certificate, certificate, size, decoded_b));
        assert(same_reply(decoded_a, decoded_b));
        assert(b == verdict(bytes, digest, pa, seen_a, hold_b));
        if decoded_a is Some {
            let d = decoded_a->0;
            if belongs(d@, committee.len()) && binding_fault(
                committee.len(),
                proposal.payload@,
                digest,
                d@.positions.len(),
            ) is None {
                let ma = choose|members: ordered::Set<Vec<u8>>| #[trigger]
                    set_keys(members) == committee && call_ensures(
                        check_signatures,
                        (namespace, &members, &proposal, &d.inner()),
                        hold_a,
                    );
                assert(call_ensures(
                    check_signatures,
                    (namespace, &ma, &proposal, &d.inner()),
                    hold_a,
                ));
                assert(may_check(
                    check_signatures,
                    namespace@,
                    committee,
                    proposal,
                    d.inner(),
                    hold_a,
                ));
                let e = decoded_b->0;
                let mb = choose|members: ordered::Set<Vec<u8>>| #[trigger]
                    set_keys(members) == committee && call_ensures(
                        check_signatures,
                        (other_namespace, &members, &proposal, &e.inner()),
                        hold_b,
                    );
                assert(call_ensures(
                    check_signatures,
                    (other_namespace, &mb, &proposal, &e.inner()),
                    hold_b,
                ));
                assert(may_check(
                    check_signatures,
                    other_namespace@,
                    committee,
                    proposal,
                    d.inner(),
                    hold_b,
                ));
            }
        }
    }
}

/// The committee may be listed in any order: a call with the same keys in another order ends the same
/// way, with the same keys in the same order. So does a call with the same keys in the same order.
pub proof fn law_verification_ignores_the_listing_order<
    C,
    K: Fn(&Vec<u8>) -> Option<Vec<u8>>,
    D: Fn(&[u8], usize) -> Option<DecodedCertificate<C>>,
    S: Fn(&[u8], &ordered::Set<Vec<u8>>, &FinalizedProposal, &C) -> bool,
>(
    parse_key: K,
    decode_certificate: D,
    check_signatures: S,
    bytes: Seq<u8>,
    keys: Seq<Vec<u8>>,
    relisted: Seq<Vec<u8>>,
    namespace: &[u8],
    digest: Seq<u8>,
    a: Result<Seq<Seq<u8>>, FinalizationVerificationError>,
    b: Result<Seq<Seq<u8>>, FinalizationVerificationError>,
)
    requires
        parses_alike(parse_key),
        decodes_alike(decode_certificate),
        checks_alike(check_signatures),
        key_views(keys).to_multiset() == key_views(relisted).to_multiset(),
        may_verify(
            parse_key,
            decode_certificate,
            check_signatures,
            bytes,
            keys,
            namespace,
            digest,
            a,
        ),
        may_verify(
            parse_key,
            decode_certificate,
            check_signatures,
            bytes,
            relisted,
            namespace,
            digest,
            b,
        ),
    ensures
        a == b,
{
    lemma_two_verifications(
        parse_key,
        decode_certificate,
        check_signatures,
        bytes,
        keys,
        relisted,
        namespace,
        namespace,
        digest,
        a,
        b,
    );
}

/// As [`law_verification_ignores_the_listing_order`], of calls that drop the reason of a failure.
pub proof fn law_acceptance_ignores_the_listing_order<
    C,
    K: Fn(&Vec<u8>) -> Option<Vec<u8>>,
    D: Fn(&[u8], usize) -> Option<DecodedCertificate<C>>,
    S: Fn(&[u8], &ordered::Set<Vec<u8>>, &FinalizedProposal, &C) -> bool,
>(
    parse_key: K,
    decode_certificate: D,
    check_signatures: S,
    bytes: Seq<u8>,
    keys: Seq<Vec<u8>>,
    relisted: Seq<Vec<u8>>,
    namespace: &[u8],
    digest: Seq<u8>,
    a: Option<Seq<Seq<u8>>>,
    b: Option<Seq<Seq<u8>>>,
)
    requires
        parses_alike(parse_key),
        decodes_alike(decode_certificate),
        checks_alike(check_signatures),
        key_views(keys).to_multiset() == key_views(relisted).to_multiset(),
        may_accept(
            parse_key,
            decode_certificate,
            check_signatures,
            bytes,
            keys,
            namespace,
            digest,
            a,
        ),
        may_accept(
            parse_key,
            decode_certificate,
            check_signatures,
            bytes,
            relisted,
            namespace,
            digest,
            b,
        ),
    ensures
        a == b,
{
    let outcome = choose|outcome: Result<Seq<Seq<u8>>, FinalizationVerificationError>| #[trigger]
        may_verify(
            parse_key,
            decode_certificate,
            check_signatures,
            bytes,
            keys,
            namespace,
            digest,
            outcome,
        ) && a == without_reason(outcome);
    let other = choose|outcome: Result<Seq<Seq<u8>>, FinalizationVerificationError>| #[trigger]
        may_verify(
            parse_key,
            decode_certificate,
            check_signatures,
            bytes,
            relisted,
            namespace,
            digest,
            outcome,
        ) && b == without_reason(outcome);
    law_verification_ignores_the_listing_order(
        parse_key,
        decode_certificate,
        check_signatures,
        bytes,
        keys,
        relisted,
        namespace,
        digest,
        outcome,
        other,
    );
}

/// The namespace decides the signature check alone: calls that differ in it end the same way, or one
/// credits keys and the other fails at the signatures.
pub proof fn law_namespace_decides_the_signatures_alone<
    C,
    K: Fn(&Vec<u8>) -> Option<Vec<u8>>,
    D: Fn(&[u8], usize) -> Option<DecodedCertificate<C>>,
    S: Fn(&[u8], &ordered::Set<Vec<u8>>, &FinalizedProposal, &C) -> bool,
>(
    parse_key: K,
    decode_certificate: D,
    check_signatures: S,
    bytes: Seq<u8>,
    keys: Seq<Vec<u8>>,
    namespace: &[u8],
    other_namespace: &[u8],
    digest: Seq<u8>,
    a: Result<Seq<Seq<u8>>, FinalizationVerificationError>,
    b: Result<Seq<Seq<u8>>, FinalizationVerificationError>,
)
    requires
        parses_alike(parse_key),
        decodes_alike(decode_certificate),
        may_verify(
            parse_key,
            decode_certificate,
            check_signatures,
            bytes,
            keys,
            namespace,
            digest,
            a,
        ),
        may_verify(
            parse_key,
            decode_certificate,
            check_signatures,
            bytes,
            keys,
            other_namespace,
            digest,
            b,
        ),
    ensures
        a == b || (a is Ok && is_signature_failure(b)) || (b is Ok && is_signature_failure(a)),
{
    lemma_two_verifications(
        parse_key,
        decode_certificate,
        check_signatures,
        bytes,
        keys,
        keys,
        namespace,
        other_namespace,
        digest,
        a,
        b,
    );
}

/// The two verification functions accept the same certificates and credit the same keys in the same
/// order.
pub proof fn law_both_verifications_agree<
    C,
    K: Fn(&Vec<u8>) -> Option<Vec<u8>>,
    D: Fn(&[u8], usize) -> Option<DecodedCertificate<C>>,
    S: Fn(&[u8], &ordered::Set<Vec<u8>>, &FinalizedProposal, &C) -> bool,
>(
    parse_key: K,
    decode_certificate: D,
    check_signatures: S,
    bytes: Seq<u8>,
    keys: Seq<Vec<u8>>,
    namespace: &[u8],
    digest: Seq<u8>,
    detailed: Result<Seq<Seq<u8>>, FinalizationVerificationError>,
    plain: Option<Seq<Seq<u8>>>,
)
    requires
        parses_alike(parse_key),
        decodes_alike(decode_certificate),
        checks_alike(check_signatures),
        may_verify(
            parse_key,
            decode_certificate,
            check_signatures,
            bytes,
            keys,
            namespace,
            digest,
            detailed,
        ),
        may_accept(
            parse_key,
            decode_certificate,
            check_signatures,
            bytes,
            keys,
            namespace,
            digest,
            plain,
        ),
    ensures
        plain == without_reason(detailed),
        forall|members: Seq<Seq<u8>>|
            plain == Some(members) <==> detailed == Ok::<
                Seq<Seq<u8>>,
                FinalizationVerificationError,
            >(members),
        plain is None <==> detailed is Err,
{
    let outcome = choose|outcome: Result<Seq<Seq<u8>>, FinalizationVerificationError>| #[trigger]
        may_verify(
            parse_key,
            decode_certificate,
            check_signatures,
            bytes,
            keys,
            namespace,
            digest,
            outcome,
        ) && plain == without_reason(outcome);
    law_verification_ignores_the_listing_order(
        parse_key,
        decode_certificate,
        check_signatures,
        bytes,
        keys,
        keys,
        namespace,
        digest,
        detailed,
        outcome,
    );
}

/// The decoder reads a certificate off the front of its input: what stands behind it stays unread and
/// changes nothing else.
pub open spec fn reads_off_the_front<C, D: Fn(&[u8], usize) -> Option<DecodedCertificate<C>>>(
    decode_certificate: D,
) -> bool {
    forall|
        input: Seq<u8>,
        tail: Seq<u8>,
        size: usize,
        seen: CertificateView,
        longer: Option<CertificateView>,
    |
        #![trigger may_show(decode_certificate, input, size, Some(seen)), may_show(
            decode_certificate,
            input + tail,
            size,
            longer,
        )]
        may_show(decode_certificate, input, size, Some(seen)) && may_show(
            decode_certificate,
            input + tail,
            size,
            longer,
        ) ==> longer == Some(CertificateView { unread: seen.unread + tail.len(), ..seen })
}

/// The inspection reports the candidate size.
pub open spec fn reports(entries: Seq<EvidenceView>, size: usize) -> bool {
    exists|k: int| 0 <= k < entries.len() && (#[trigger] entries[k]).committee_size == size
}

/// A candidate size that parses only a proper prefix of the bytes is not reported: where the size was
/// reported for the prefix, the bytes behind it rule it out.
pub proof fn law_trailing_bytes_are_not_reported<
    C,
    D: Fn(&[u8], usize) -> Option<DecodedCertificate<C>>,
>(
    decode_certificate: D,
    bytes: Seq<u8>,
    tail: Seq<u8>,
    digest: Seq<u8>,
    sizes: Seq<usize>,
    entries: Seq<EvidenceView>,
    more_sizes: Seq<usize>,
    more_entries: Seq<EvidenceView>,
    size: usize,
)
    requires
        reads_off_the_front(decode_certificate),
        tail.len() > 0,
        may_inspect(decode_certificate, bytes, digest, sizes, entries),
        may_inspect(decode_certificate, bytes + tail, digest, more_sizes, more_entries),
        reports(entries, size),
    ensures
        !reports(more_entries, size),
{
    let replies = choose|replies: Seq<Option<CertificateView>>|
        #![trigger inspection(bytes, digest, sizes, replies)]
        may_decode_each(decode_certificate, bytes, sizes, replies) && entries == inspection(
            bytes,
            digest,
            sizes,
            replies,
        );
    let more_replies = choose|replies: Seq<Option<CertificateView>>|
        #![trigger inspection(bytes + tail, digest, more_sizes, replies)]
        may_decode_each(decode_certificate, bytes + tail, more_sizes, replies) && more_entries
            == inspection(bytes + tail, digest, more_sizes, replies);
    law_inspection_reports_whole_decodes(bytes, digest, sizes, replies, size);
    law_inspection_reports_whole_decodes(bytes + tail, digest, more_sizes, more_replies, size);
    let i = choose|i: int|
        0 <= i < sizes.len() && (#[trigger] sizes[i]) == size && size > 0 && split_of(bytes) is Some
            && tells(replies[i], size);
    let (proposal, rest) = split_of(bytes)->0;
    lemma_split_parts(bytes);
    law_split_inverts_encoding(proposal, rest + tail);
    assert(bytes + tail =~= finalization_bytes(proposal, rest + tail));
    assert(may_show(decode_certificate, rest, size, replies[i]));
    assert(replies[i] == Some(replies[i]->0));
    if reports(more_entries, size) {
        let j = choose|j: int|
            0 <= j < more_sizes.len() && (#[trigger] more_sizes[j]) == size && size > 0 && split_of(
                bytes + tail,
            ) is Some && tells(more_replies[j], size);
        assert(may_show(decode_certificate, rest + tail, size, more_replies[j]));
        assert(more_replies[j]->0.unread == replies[i]->0.unread + tail.len());
    }
}

/// A finalization that was serialized, inspected under the size that its certificate decodes under, is
/// the one thing reported: with the certificate's signers, and bound to its own payload. Whether its
/// signatures hold is not asked.
pub proof fn law_a_serialized_finalization_is_its_evidence<
    C,
    D: Fn(&[u8], usize) -> Option<DecodedCertificate<C>>,
>(
    decode_certificate: D,
    proposal: FinalizedProposal,
    wire_certificate: Seq<u8>,
    size: usize,
    certificate: CertificateView,
    entries: Seq<EvidenceView>,
)
    requires
        size > 0,
        forall|seen: Option<CertificateView>| #[trigger]
            may_show(decode_certificate, wire_certificate, size, seen) ==> seen == Some(
                certificate,
            ),
        certificate.unread == 0,
        belongs(certificate, size as nat),
        may_inspect(
            decode_certificate,
            finalization_bytes(proposal, wire_certificate),
            proposal.payload@,
            seq![size],
            entries,
        ),
    ensures
        entries == seq![
            EvidenceView {
                committee_size: size,
                signer_indices: certificate.positions,
                payload_matches_expected_digest: true,
            },
        ],
{
    let bytes = finalization_bytes(proposal, wire_certificate);
    let digest = proposal.payload@;
    let sizes = seq![size];
    let replies = choose|replies: Seq<Option<CertificateView>>|
        #![trigger inspection(bytes, digest, sizes, replies)]
        may_decode_each(decode_certificate, bytes, sizes, replies) && entries == inspection(
            bytes,
            digest,
            sizes,
            replies,
        );
    law_split_inverts_encoding(proposal, wire_certificate);
    assert(may_show(decode_certificate, wire_certificate, size, replies[0]));
    assert(sizes.drop_last() =~= Seq::<usize>::empty());
    assert(sizes.last() == size);
    assert(replies.last() == replies[0]);
    assert(inspection(bytes, digest, sizes.drop_last(), replies.drop_last()) =~= Seq::<
        EvidenceView,
    >::empty());
    assert(entries =~= seq![
        EvidenceView {
            committee_size: size,
            signer_indices: certificate.positions,
            payload_matches_expected_digest: true,
        },
    ]);
}

/// Two inspections of the same bytes under the same candidates for two digests: entry by entry they
/// tell the same of the certificate, and each whether the payload is its digest.
pub open spec fn differ_in_the_digest(
    payload: Seq<u8>,
    digest: Seq<u8>,
    entries: Seq<EvidenceView>,
    other_digest: Seq<u8>,
    other_entries: Seq<EvidenceView>,
) -> bool {
    &&& entries.len() == other_entries.len()
    &&& forall|i: int|
        #![trigger entries[i]]
        #![trigger other_entries[i]]
        0 <= i < entries.len() ==> {
            &&& entries[i].committee_size == other_entries[i].committee_size
            &&& entries[i].signer_indices == other_entries[i].signer_indices
            &&& entries[i].payload_matches_expected_digest <==> payload == digest
            &&& other_entries[i].payload_matches_expected_digest <==> payload == other_digest
        }
}

proof fn lemma_digest_changes_the_flag_alone<
    C,
    D: Fn(&[u8], usize) -> Option<DecodedCertificate<C>>,
>(
    decode_certificate: D,
    bytes: Seq<u8>,
    digest: Seq<u8>,
    other_digest: Seq<u8>,
    sizes: Seq<usize>,
    replies: Seq<Option<CertificateView>>,
    other_replies: Seq<Option<CertificateView>>,
)
    requires
        decodes_alike(decode_certificate),
        may_decode_each(decode_certificate, bytes, sizes, replies),
        may_decode_each(decode_certificate, bytes, sizes, other_replies),
    ensures
        split_of(bytes) is None ==> inspection(bytes, digest, sizes, replies).len() == 0
            && inspection(bytes, other_digest, sizes, other_replies).len() == 0,
        split_of(bytes) matches Some((proposal, _)) ==> differ_in_the_digest(
            proposal.payload@,
            digest,
            inspection(bytes, digest, sizes, replies),
            other_digest,
            inspection(bytes, other_digest, sizes, other_replies),
        ),
    decreases sizes.len(),
{
    if sizes.len() > 0 {
        let n = sizes.len() - 1;
        let before = sizes.drop_last();
        lemma_fewer_candidates(decode_certificate, bytes, sizes, replies);
        lemma_fewer_candidates(decode_certificate, bytes, sizes, other_replies);
        lemma_digest_changes_the_flag_alone(
            decode_certificate,
            bytes,
            digest,
            other_digest,
            before,
            replies.drop_last(),
            other_replies.drop_last(),
        );
        if sizes[n] > 0 && split_of(bytes) is Some {
            let rest = certificate_part(bytes);
            assert(may_show(decode_certificate, rest, sizes[n], replies[n]));
            assert(may_show(decode_certificate, rest, sizes[n], other_replies[n]));
            lemma_shows_alike(decode_certificate, rest, sizes[n], replies[n], other_replies[n]);
        }
    }
}

proof fn lemma_fewer_candidates<C, D: Fn(&[u8], usize) -> Option<DecodedCertificate<C>>>(
    decode_certificate: D,
    bytes: Seq<u8>,
    sizes: Seq<usize>,
    replies: Seq<Option<CertificateView>>,
)
    requires
        sizes.len() > 0,
        may_decode_each(decode_certificate, bytes, sizes, replies),
    ensures
        may_decode_each(decode_certificate, bytes, sizes.drop_last(), replies.drop_last()),
{
    let fewer = replies.drop_last();
    assert forall|i: int|
        #![trigger fewer[i]]
        0 <= i < sizes.drop_last().len() && sizes.drop_last()[i] > 0 && split_of(
            bytes,
        ) is Some implies may_show(
        decode_certificate,
        certificate_part(bytes),
        sizes.drop_last()[i],
        fewer[i],
    ) by {
        assert(fewer[i] == replies[i]);
    }
}

proof fn lemma_shows_alike<C, D: Fn(&[u8], usize) -> Option<DecodedCertificate<C>>>(
    decode_certificate: D,
    input: Seq<u8>,
    size: usize,
    a: Option<CertificateView>,
    b: Option<CertificateView>,
)
    requires
        decodes_alike(decode_certificate),
        may_show(decode_certificate, input, size, a),
        may_show(decode_certificate, input, size, b),
    ensures
        a == b,
{
    let x = choose|reply: Option<DecodedCertificate<C>>| #[trigger]
        may_decode(decode_certificate, input, size, reply) && reply_view(reply) == a;
    let y = choose|reply: Option<DecodedCertificate<C>>| #[trigger]
        may_decode(decode_certificate, input, size, reply) && reply_view(reply) == b;
    assert(same_reply(x, y));
}

/// The digest of an inspection changes only whether an entry's payload matches it: no entry comes or
/// goes with it, and two different digests never both match.
pub proof fn law_digest_changes_the_flag_alone<
    C,
    D: Fn(&[u8], usize) -> Option<DecodedCertificate<C>>,
>(
    decode_certificate: D,
    bytes: Seq<u8>,
    digest: Seq<u8>,
    other_digest: Seq<u8>,
    sizes: Seq<usize>,
    entries: Seq<EvidenceView>,
    other_entries: Seq<EvidenceView>,
)
    requires
        decodes_alike(decode_certificate),
        may_inspect(decode_certificate, bytes, digest, sizes, entries),
        may_inspect(decode_certificate, bytes, other_digest, sizes, other_entries),
    ensures
        entries.len() == other_entries.len(),
        split_of(bytes) is None ==> entries.len() == 0,
        split_of(bytes) matches Some((proposal, _)) ==> differ_in_the_digest(
            proposal.payload@,
            digest,
            entries,
            other_digest,
            other_entries,
        ),
        digest != other_digest ==> forall|i: int|
            #![trigger entries[i]]
            #![trigger other_entries[i]]
            0 <= i < entries.len() ==> !(entries[i].payload_matches_expected_digest
                && other_entries[i].payload_matches_expected_digest),
{
    let replies = choose|replies: Seq<Option<CertificateView>>|
        #![trigger inspection(bytes, digest, sizes, replies)]
        may_decode_each(decode_certificate, bytes, sizes, replies) && entries == inspection(
            bytes,
            digest,
            sizes,
            replies,
        );
    let other_replies = choose|replies: Seq<Option<CertificateView>>|
        #![trigger inspection(bytes, other_digest, sizes, replies)]
        may_decode_each(decode_certificate, bytes, sizes, replies) && other_entries == inspection(
            bytes,
            other_digest,
            sizes,
            replies,
        );
    lemma_digest_changes_the_flag_alone(
        decode_certificate,
        bytes,
        digest,
        other_digest,
        sizes,
        replies,
        other_replies,
    );
}

/// The decoder, asked about these bytes and a committee of this size, may give the reply.
pub open spec fn decoder_answers<C, D: Fn(&[u8], usize) -> Option<DecodedCertificate<C>>>(
    decode_certificate: D,
    input: Seq<u8>,
    size: usize,
    reply: Option<DecodedCertificate<C>>,
) -> bool {
    exists|given: &[u8]| #[trigger]
        call_ensures(decode_certificate, (given, size), reply) && given@ == input
}

/// As [`decoder_answers`], by what the logic sees of the reply.
pub open spec fn decoder_shows<C, D: Fn(&[u8], usize) -> Option<DecodedCertificate<C>>>(
    decode_certificate: D,
    input: Seq<u8>,
    size: usize,
    seen: Option<CertificateView>,
) -> bool {
    exists|reply: Option<DecodedCertificate<C>>| #[trigger]
        decoder_answers(decode_certificate, input, size, reply) && match reply {
            Some(d) => seen matches Some(c) && c.positions == signer_positions(d.bitmap())
                && c.width == signer_width(d.bitmap()) && c.unread == d.unread_bytes(),
            None => seen is None,
        }
}

proof fn lemma_decoder_shows<C, D: Fn(&[u8], usize) -> Option<DecodedCertificate<C>>>(
    decode_certificate: D,
    input: Seq<u8>,
    size: usize,
    seen: Option<CertificateView>,
)
    requires
        may_show(decode_certificate, input, size, seen),
    ensures
        decoder_shows(decode_certificate, input, size, seen),
{
    let reply = choose|reply: Option<DecodedCertificate<C>>| #[trigger]
        may_decode(decode_certificate, input, size, reply) && reply_view(reply) == seen;
    assert(decoder_answers(decode_certificate, input, size, reply));
}

/// A committee of the keys that were listed: each of them once, in ascending order.
pub open spec fn lists_in_order(
    committee: Seq<Seq<u8>>,
    parsed: Seq<Option<Seq<u8>>>,
) -> bool {
    &&& committee.len() == parsed.len()
    &&& forall|i: int, j: int|
        0 <= i < j < committee.len() ==> lex_lt(#[trigger] committee[i], #[trigger] committee[j])
    &&& forall|key: Seq<u8>| #[trigger] committee.contains(key) <==> parsed.contains(Some(key))
}

/// An outcome that is reached once the listed keys make a committee of `n` members and the bytes are
/// a finalization whose certificate decodes to `d`, one of such a committee.
pub open spec fn follows_from_the_certificate<
    C,
    S: Fn(&[u8], &ordered::Set<Vec<u8>>, &FinalizedProposal, &C) -> bool,
>(
    check_signatures: S,
    namespace: Seq<u8>,
    digest: Seq<u8>,
    committee: Seq<Seq<u8>>,
    proposal: FinalizedProposal,
    d: DecodedCertificate<C>,
    outcome: Result<Seq<Seq<u8>>, FinalizationVerificationError>,
) -> bool {
    let n = committee.len();
    let signers = d@.positions.len();
    match outcome {
        Err(FinalizationVerificationError::PayloadMismatch) => proposal.payload@ != digest,
        Err(FinalizationVerificationError::InsufficientSigners { signers: had, quorum }) => {
            &&& proposal.payload@ == digest
            &&& had == signers
            &&& 2 * n < 3 * quorum <= 2 * n + 3
            &&& signers < quorum
        },
        Err(
            FinalizationVerificationError::SignatureVerificationFailed {
                signers: had,
                committee_size,
            },
        ) => {
            &&& proposal.payload@ == digest
            &&& had == signers
            &&& committee_size == n
            &&& 3 * signers > 2 * n
            &&& may_check(check_signatures, namespace, committee, proposal, d.inner(), false)
        },
        Ok(members) => {
            &&& proposal.payload@ == digest
            &&& 2 * n < 3 * signers
            &&& may_check(check_signatures, namespace, committee, proposal, d.inner(), true)
            &&& members.len() == signers
            &&& forall|i: int|
                0 <= i < signers ==> 0 <= (#[trigger] d@.positions[i]) < n && members[i]
                    == committee[d@.positions[i]]
            &&& forall|i: int, j: int|
                0 <= i < j < signers ==> #[trigger] d@.positions[i] < #[trigger] d@.positions[j]
            &&& members.len() <= n
            &&& members.no_duplicates()
        },
        _ => false,
    }
}

/// An outcome that is reached with a committee: the bytes are no finalization, or their certificate
/// does not decode as one of the committee, or the outcome follows from the certificate.
pub open spec fn follows_from_the_committee<
    C,
    D: Fn(&[u8], usize) -> Option<DecodedCertificate<C>>,
    S: Fn(&[u8], &ordered::Set<Vec<u8>>, &FinalizedProposal, &C) -> bool,
>(
    decode_certificate: D,
    check_signatures: S,
    bytes: Seq<u8>,
    namespace: Seq<u8>,
    digest: Seq<u8>,
    committee: Seq<Seq<u8>>,
    outcome: Result<Seq<Seq<u8>>, FinalizationVerificationError>,
) -> bool {
    let n = committee.len();
    ||| outcome == Err::<Seq<Seq<u8>>, FinalizationVerificationError>(
        FinalizationVerificationError::DecodeFailed { committee_size: n as usize },
    ) && forall|p: FinalizedProposal, rest: Seq<u8>| bytes != #[trigger] finalization_bytes(p, rest)
    ||| exists|p: FinalizedProposal, rest: Seq<u8>, reply: Option<DecodedCertificate<C>>|
        #![trigger finalization_bytes(p, rest), decoder_answers(
            decode_certificate,
            rest,
            n as usize,
            reply,
        )]
        bytes == finalization_bytes(p, rest) && decoder_answers(
            decode_certificate,
            rest,
            n as usize,
            reply,
        ) && match reply {
            Some(d) => if d@.width <= n {
                follows_from_the_certificate(
                    check_signatures,
                    namespace,
                    digest,
                    committee,
                    p,
                    d,
                    outcome,
                )
            } else {
                outcome == Err::<Seq<Seq<u8>>, FinalizationVerificationError>(
                    FinalizationVerificationError::DecodeFailed { committee_size: n as usize },
                )
            },
            None => outcome == Err::<Seq<Seq<u8>>, FinalizationVerificationError>(
                FinalizationVerificationError::DecodeFailed { committee_size: n as usize },
            ),
        }
}

/// An outcome as the listed keys bring it, by what each of them parsed into.
pub open spec fn follows_from_the_keys<
    C,
    D: Fn(&[u8], usize) -> Option<DecodedCertificate<C>>,
    S: Fn(&[u8], &ordered::Set<Vec<u8>>, &FinalizedProposal, &C) -> bool,
>(
    decode_certificate: D,
    check_signatures: S,
    bytes: Seq<u8>,
    namespace: Seq<u8>,
    digest: Seq<u8>,
    parsed: Seq<Option<Seq<u8>>>,
    outcome: Result<Seq<Seq<u8>>, FinalizationVerificationError>,
) -> bool {
    let good = parsed.filter(|key: Option<Seq<u8>>| key is Some).len();
    if good == 0 {
        outcome == Err::<Seq<Seq<u8>>, FinalizationVerificationError>(
            FinalizationVerificationError::EmptyCommittee,
        )
    } else if good < parsed.len() {
        outcome == Err::<Seq<Seq<u8>>, FinalizationVerificationError>(
            FinalizationVerificationError::InvalidCommitteeKey {
                members: parsed.len() as usize,
                parsed: good as usize,
            },
        )
    } else if !parsed.no_duplicates() {
        outcome == Err::<Seq<Seq<u8>>, FinalizationVerificationError>(
            FinalizationVerificationError::DuplicateCommitteeKeys {
                members: parsed.len() as usize,
            },
        )
    } else {
        exists|committee: Seq<Seq<u8>>| #[trigger]
            lists_in_order(committee, parsed) && follows_from_the_committee(
                decode_certificate,
                check_signatures,
                bytes,
                namespace,
                digest,
                committee,
                outcome,
            )
    }
}

proof fn lemma_good_keys(parsed: Seq<Option<Seq<u8>>>)
    ensures
        parsed_keys(parsed).len() == parsed.filter(|key: Option<Seq<u8>>| key is Some).len(),
        parsed_keys(parsed).len() <= parsed.len(),
        parsed_keys(parsed).len() == parsed.len() ==> forall|i: int|
            0 <= i < parsed.len() ==> #[trigger] parsed[i] == Some(parsed_keys(parsed)[i]),
    decreases parsed.len(),
{
    reveal(Seq::filter);
    if parsed.len() > 0 {
        let before = parsed.drop_last();
        lemma_good_keys(before);
        if parsed_keys(parsed).len() == parsed.len() {
            assert forall|i: int| 0 <= i < parsed.len() implies #[trigger] parsed[i] == Some(
                parsed_keys(parsed)[i],
            ) by {
                if i < before.len() {
                    assert(before[i] == Some(parsed_keys(before)[i]));
                }
            }
        }
    }
}

/// What a verification comes to is what its primitives bring it to, for every committee. Each listed
/// key is parsed. Keys that do not parse, or parse into the same, are refused and counted. With a
/// committee, the bytes behind the proposal are decoded under its size. The payload must be the frame's
/// digest, and more than two thirds must have signed. Keys are credited only where the signature
/// check, asked about the namespace, the sorted committee, the proposal and the certificate, may
/// answer that they hold; where it can only answer otherwise, the verification fails at the
/// signatures.
pub proof fn law_verification_rests_on_its_primitives<
    C,
    K: Fn(&Vec<u8>) -> Option<Vec<u8>>,
    D: Fn(&[u8], usize) -> Option<DecodedCertificate<C>>,
    S: Fn(&[u8], &ordered::Set<Vec<u8>>, &FinalizedProposal, &C) -> bool,
>(
    parse_key: K,
    decode_certificate: D,
    check_signatures: S,
    bytes: Seq<u8>,
    keys: Seq<Vec<u8>>,
    namespace: &[u8],
    digest: Seq<u8>,
    outcome: Result<Seq<Seq<u8>>, FinalizationVerificationError>,
)
    requires
        keys.len() <= u32::MAX,
        may_verify(
            parse_key,
            decode_certificate,
            check_signatures,
            bytes,
            keys,
            namespace,
            digest,
            outcome,
        ),
    ensures
        exists|parsed: Seq<Option<Seq<u8>>>|
            parsed.len() == keys.len() && (forall|i: int|
                0 <= i < keys.len() ==> may_parse(parse_key, keys[i]@, #[trigger] parsed[i]))
                && #[trigger] follows_from_the_keys(
                decode_certificate,
                check_signatures,
                bytes,
                namespace@,
                digest,
                parsed,
                outcome,
            ),
{
    broadcast use vstd::seq_lib::group_to_multiset_ensures;

    let (replies, decoded, hold) = choose|
        parsed: Seq<Option<Vec<u8>>>,
        decoded: Option<DecodedCertificate<C>>,
        hold: bool,
    | #[trigger]
        verification(
            parse_key,
            decode_certificate,
            check_signatures,
            bytes,
            keys,
            namespace,
            digest,
            outcome,
            parsed,
            decoded,
            hold,
        );
    let parsed = parsed_views(replies);
    assert forall|i: int| 0 <= i < keys.len() implies may_parse(
        parse_key,
        keys[i]@,
        #[trigger] parsed[i],
    ) by {
        assert(call_ensures(parse_key, (&keys[i],), replies[i]));
    }
    let listed = parsed_keys(parsed);
    lemma_good_keys(parsed);
    if listed.len() == parsed.len() && listed.len() > 0 {
        if parsed.no_duplicates() {
            assert(!holds_repeat(listed)) by {
                if holds_repeat(listed) {
                    let (i, j) = choose|i: int, j: int|
                        0 <= i < j < listed.len() && #[trigger] listed[i] == #[trigger] listed[j];
                    assert(parsed[i] == parsed[j]);
                }
            }
            let committee = committee_of(listed);
            law_committee_lists_the_keys(listed);
            assert(lists_in_order(committee, parsed)) by {
                assert forall|key: Seq<u8>| #[trigger] committee.contains(key)
                    <==> parsed.contains(Some(key)) by {
                    lemma_parsed_count(parsed, key);
                    assert(committee.contains(key) <==> committee.to_multiset().count(key) > 0);
                    assert(parsed.contains(Some(key)) <==> parsed.to_multiset().count(Some(key))
                        > 0);
                }
            }
            assert(committee_fault(parsed) is None);
            let n = committee.len();
            law_a_quorum_is_more_than_two_thirds(n);
            if split_of(bytes) is Some {
                let (p, rest) = split_of(bytes)->0;
                lemma_split_parts(bytes);
                assert(bytes == finalization_bytes(p, rest));
                assert(may_decode(decode_certificate, rest, n as usize, decoded));
                assert(decoder_answers(decode_certificate, rest, n as usize, decoded));
                if decoded is Some {
                    let d = decoded->0;
                    if d@.width <= n {
                        assert(belongs(d@, n));
                        lemma_ascending_below_is_short(d@.positions, d@.width);
                        if binding_fault(n, p.payload@, digest, d@.positions.len()) is None {
                            let members = choose|members: ordered::Set<Vec<u8>>| #[trigger]
                                set_keys(members) == committee && call_ensures(
                                    check_signatures,
                                    (namespace, &members, &p, &d.inner()),
                                    hold,
                                );
                            assert(call_ensures(
                                check_signatures,
                                (namespace, &members, &p, &d.inner()),
                                hold,
                            ));
                            assert(may_check(
                                check_signatures,
                                namespace@,
                                committee,
                                p,
                                d.inner(),
                                hold,
                            ));
                        }
                        assert(follows_from_the_certificate(
                            check_signatures,
                            namespace@,
                            digest,
                            committee,
                            p,
                            d,
                            outcome,
                        ));
                    }
                }
            } else {
                law_bytes_split_exactly_as_they_were_serialized(
                    bytes,
                    arbitrary(),
                    Seq::empty(),
                );
            }
            assert(follows_from_the_committee(
                decode_certificate,
                check_signatures,
                bytes,
                namespace@,
                digest,
                committee,
                outcome,
            ));
        } else {
            let (i, j) = choose|i: int, j: int|
                0 <= i < parsed.len() && 0 <= j < parsed.len() && i != j && parsed[i] == parsed[j];
            assert(listed[i] == listed[j]);
            if i < j {
                assert(holds_repeat(listed));
            } else {
                assert(listed[j] == listed[i]);
                assert(holds_repeat(listed));
            }
        }
    }
    assert(follows_from_the_keys(
        decode_certificate,
        check_signatures,
        bytes,
        namespace@,
        digest,
        parsed,
        outcome,
    ));
}

/// Where the signature check can only answer that signatures do not hold, no key is credited, whatever
/// the committee.
pub proof fn law_no_key_is_credited_without_valid_signatures<
    C,
    K: Fn(&Vec<u8>) -> Option<Vec<u8>>,
    D: Fn(&[u8], usize) -> Option<DecodedCertificate<C>>,
    S: Fn(&[u8], &ordered::Set<Vec<u8>>, &FinalizedProposal, &C) -> bool,
>(
    parse_key: K,
    decode_certificate: D,
    check_signatures: S,
    bytes: Seq<u8>,
    keys: Seq<Vec<u8>>,
    namespace: &[u8],
    digest: Seq<u8>,
    outcome: Result<Seq<Seq<u8>>, FinalizationVerificationError>,
)
    requires
        keys.len() <= u32::MAX,
        forall|
            ns: &[u8],
            members: &ordered::Set<Vec<u8>>,
            proposal: &FinalizedProposal,
            c: &C,
            hold: bool,
        | #[trigger]
            call_ensures(check_signatures, (ns, members, proposal, c), hold) && ns@ == namespace@
                ==> !hold,
        may_verify(
            parse_key,
            decode_certificate,
            check_signatures,
            bytes,
            keys,
            namespace,
            digest,
            outcome,
        ),
    ensures
        outcome is Err,
{
    law_verification_rests_on_its_primitives(
        parse_key,
        decode_certificate,
        check_signatures,
        bytes,
        keys,
        namespace,
        digest,
        outcome,
    );
}

/// The candidate at `i` tells something: it is not zero, and the certificate decodes under it whole
/// and as one of a committee of that size.
pub open spec fn candidate_tells(
    sizes: Seq<usize>,
    replies: Seq<Option<CertificateView>>,
    i: int,
) -> bool {
    sizes[i] > 0 && (replies[i] matches Some(c) && c.unread == 0 && c.width <= sizes[i])
}

/// The entries are, in the order of the candidates, what those at the places `at` tell, and these are
/// all the candidates that tell something.
pub open spec fn told_by(
    payload: Seq<u8>,
    digest: Seq<u8>,
    sizes: Seq<usize>,
    replies: Seq<Option<CertificateView>>,
    at: Seq<int>,
    entries: Seq<EvidenceView>,
) -> bool {
    &&& at.len() == entries.len()
    &&& forall|k: int|
        0 <= k < at.len() ==> 0 <= (#[trigger] at[k]) < sizes.len() && candidate_tells(
            sizes,
            replies,
            at[k],
        ) && entries[k] == (EvidenceView {
            committee_size: sizes[at[k]],
            signer_indices: replies[at[k]]->0.positions,
            payload_matches_expected_digest: payload == digest,
        })
    &&& forall|k: int, l: int| 0 <= k < l < at.len() ==> #[trigger] at[k] < #[trigger] at[l]
    &&& forall|i: int|
        0 <= i < sizes.len() && #[trigger] candidate_tells(sizes, replies, i) ==> at.contains(i)
}

proof fn lemma_told(
    bytes: Seq<u8>,
    digest: Seq<u8>,
    sizes: Seq<usize>,
    replies: Seq<Option<CertificateView>>,
) -> (at: Seq<int>)
    requires
        split_of(bytes) is Some,
        sizes.len() == replies.len(),
    ensures
        told_by(
            (split_of(bytes)->0).0.payload@,
            digest,
            sizes,
            replies,
            at,
            inspection(bytes, digest, sizes, replies),
        ),
    decreases sizes.len(),
{
    if sizes.len() == 0 {
        Seq::empty()
    } else {
        let n = sizes.len() - 1;
        let s = sizes.drop_last();
        let r = replies.drop_last();
        let before = lemma_told(bytes, digest, s, r);
        let at = if candidate_tells(sizes, replies, n) {
            before.push(n)
        } else {
            before
        };
        let matches = (split_of(bytes)->0).0.payload@ == digest;
        let entries = inspection(bytes, digest, sizes, replies);
        let earlier = inspection(bytes, digest, s, r);
        assert forall|k: int| 0 <= k < at.len() implies 0 <= (#[trigger] at[k]) < sizes.len()
            && candidate_tells(sizes, replies, at[k]) && entries[k] == (EvidenceView {
            committee_size: sizes[at[k]],
            signer_indices: replies[at[k]]->0.positions,
            payload_matches_expected_digest: matches,
        }) by {
            if k < before.len() {
                assert(at[k] == before[k]);
                assert(candidate_tells(s, r, before[k]));
                assert(entries[k] == earlier[k]);
            }
        }
        assert forall|k: int, l: int| 0 <= k < l < at.len() implies #[trigger] at[k]
            < #[trigger] at[l] by {
            assert(at[k] == before[k]);
            if l < before.len() {
                assert(at[l] == before[l]);
            }
        }
        assert forall|i: int|
            0 <= i < sizes.len() && #[trigger] candidate_tells(sizes, replies, i) implies at.contains(
            i,
        ) by {
            if i < n {
                assert(candidate_tells(s, r, i));
                let k = choose|k: int| 0 <= k < before.len() && before[k] == i;
                assert(at[k] == i);
            } else {
                assert(at[before.len() as int] == n);
            }
        }
        at
    }
}

/// What an inspection comes to is what the decoder brings it to: it reports, in the order of the
/// candidates and once for each place, every candidate size under which the certificate behind the
/// proposal decodes whole and as one of a committee of that size, with the signers that it decodes to
/// and whether the payload is the expected digest; and nothing for bytes that are no finalization.
pub proof fn law_inspection_rests_on_the_decoder<
    C,
    D: Fn(&[u8], usize) -> Option<DecodedCertificate<C>>,
>(
    decode_certificate: D,
    bytes: Seq<u8>,
    digest: Seq<u8>,
    sizes: Seq<usize>,
    entries: Seq<EvidenceView>,
)
    requires
        may_inspect(decode_certificate, bytes, digest, sizes, entries),
    ensures
        (forall|p: FinalizedProposal, rest: Seq<u8>|
            bytes != #[trigger] finalization_bytes(p, rest)) ==> entries.len() == 0,
        forall|p: FinalizedProposal, rest: Seq<u8>|
            bytes == #[trigger] finalization_bytes(p, rest) ==> exists|
                replies: Seq<Option<CertificateView>>,
                at: Seq<int>,
            |
                replies.len() == sizes.len() && (forall|i: int|
                    0 <= i < sizes.len() && sizes[i] > 0 ==> decoder_shows(
                        decode_certificate,
                        rest,
                        sizes[i],
                        #[trigger] replies[i],
                    )) && #[trigger] told_by(p.payload@, digest, sizes, replies, at, entries),
{
    let replies = choose|replies: Seq<Option<CertificateView>>|
        #![trigger inspection(bytes, digest, sizes, replies)]
        may_decode_each(decode_certificate, bytes, sizes, replies) && entries == inspection(
            bytes,
            digest,
            sizes,
            replies,
        );
    if split_of(bytes) is None {
        lemma_nothing_to_inspect(bytes, digest, sizes, replies);
    } else {
        lemma_split_parts(bytes);
        let (q, tail) = split_of(bytes)->0;
        assert(bytes == finalization_bytes(q, tail));
    }
    assert forall|p: FinalizedProposal, rest: Seq<u8>|
        bytes == #[trigger] finalization_bytes(p, rest) implies exists|
        replies: Seq<Option<CertificateView>>,
        at: Seq<int>,
    |
        replies.len() == sizes.len() && (forall|i: int|
            0 <= i < sizes.len() && sizes[i] > 0 ==> decoder_shows(
                decode_certificate,
                rest,
                sizes[i],
                #[trigger] replies[i],
            )) && #[trigger] told_by(p.payload@, digest, sizes, replies, at, entries) by {
        law_split_inverts_encoding(p, rest);
        assert(certificate_part(bytes) == rest);
        assert forall|i: int| 0 <= i < sizes.len() && sizes[i] > 0 implies decoder_shows(
            decode_certificate,
            rest,
            sizes[i],
            #[trigger] replies[i],
        ) by {
            assert(may_show(decode_certificate, rest, sizes[i], replies[i]));
            lemma_decoder_shows(decode_certificate, rest, sizes[i], replies[i]);
        }
        let at = lemma_told(bytes, digest, sizes, replies);
        assert(told_by(p.payload@, digest, sizes, replies, at, entries));
    }
}

proof fn lemma_nothing_to_inspect(
    bytes: Seq<u8>,
    digest: Seq<u8>,
    sizes: Seq<usize>,
    replies: Seq<Option<CertificateView>>,
)
    requires
        split_of(bytes) is None,
    ensures
        inspection(bytes, digest, sizes, replies).len() == 0,
    decreases sizes.len(),
{
    if sizes.len() > 0 {
        lemma_nothing_to_inspect(bytes, digest, sizes.drop_last(), replies.drop_last());
    }
}

/// What the logic sees of certificates, keys, results and evidence is what they hold.
pub proof fn law_certificates_and_results_read_as_written<C>(
    d: DecodedCertificate<C>,
    key: Vec<u8>,
    keys: Vec<Vec<u8>>,
    fault: FinalizationVerificationError,
    evidence: DecodedFinalizationEvidence,
    list: Seq<DecodedFinalizationEvidence>,
)
    ensures
        d@.positions == signer_positions(d.bitmap()),
        d@.width == signer_width(d.bitmap()),
        d@.unread == d.unread_bytes(),
        reply_view(Some(d)) == Some(d@),
        reply_view::<C>(None) is None,
        parsed_view(Some(key)) == Some(key@),
        parsed_view(None) is None,
        result_view(Ok(keys)) == Ok::<Seq<Seq<u8>>, FinalizationVerificationError>(
            key_views(keys@),
        ),
        result_view(Err(fault)) == Err::<Seq<Seq<u8>>, FinalizationVerificationError>(fault),
        answer_view(Some(keys)) == Some(key_views(keys@)),
        answer_view(None) is None,
        key_views(keys@).len() == keys@.len(),
        forall|i: int| 0 <= i < keys@.len() ==> #[trigger] key_views(keys@)[i] == keys@[i]@,
        evidence@.committee_size == evidence.committee_size,
        evidence@.payload_matches_expected_digest == evidence.payload_matches_expected_digest,
        evidence@.signer_indices.len() == evidence.signer_indices@.len(),
        forall|i: int|
            0 <= i < evidence.signer_indices@.len() ==> #[trigger] evidence@.signer_indices[i]
                == evidence.signer_indices@[i],
        evidence_views(list).len() == list.len(),
        forall|i: int| 0 <= i < list.len() ==> #[trigger] evidence_views(list)[i] == list[i]@,
{
}

/// The entries of evidence name positions of a committee that is not empty, and the keys that are
/// credited are more than two thirds of the listed ones, ascend, and were listed.
pub proof fn law_evidence_and_credit_stay_in_the_committee(
    entry: EvidenceView,
    members: Seq<Seq<u8>>,
    parsed: Seq<Option<Seq<u8>>>,
)
    ensures
        names_positions(entry) ==> entry.committee_size > 0 && (forall|i: int|
            0 <= i < entry.signer_indices.len() ==> 0 <= #[trigger] entry.signer_indices[i]
                < entry.committee_size) && (forall|i: int, j: int|
            0 <= i < j < entry.signer_indices.len() ==> #[trigger] entry.signer_indices[i]
                < #[trigger] entry.signer_indices[j]),
        credits_a_quorum(members, parsed) && parsed.len() > 0 ==> 3 * members.len() > 2
            * parsed.len() && members.len() <= parsed.len() && (forall|i: int, j: int|
            0 <= i < j < members.len() ==> lex_lt(#[trigger] members[i], #[trigger] members[j])) && (
        forall|i: int| 0 <= i < members.len() ==> parsed.contains(Some(#[trigger] members[i]))),
{
}

} // verus!
