use commonware_codec::Encode;
use commonware_consensus::simplex::types::Proposal;
use commonware_consensus::types::{Epoch, Round, View};
use commonware_cryptography::certificate::Signers;
use commonware_cryptography::sha256::Digest;
use commonware_utils::ordered;
use commonware_utils::Participant;

use quil_shard::app_cert::{
    bind_finalization, build_committee, encode_finalization, evidence_from_certificate,
    inspect_finalization_decodes, signing_members, split_finalization, unwrap_cert_from_header,
    verify_finalization, verify_finalization_detailed, wrap_cert_for_header, AppFinalization,
    DecodedCertificate, DecodedFinalizationEvidence, FinalizationVerificationError, CW_CERT_MAGIC,
};
use quil_shard::commonware::FinalizedProposal;

const DIGEST: [u8; 32] = [0x5a; 32];

/// A certificate of the tests: whether its signatures hold.
#[derive(Clone, Debug, PartialEq)]
struct TestCertificate {
    holds: bool,
}

/// Decodes `[committee size, bitmap, holds]` off the front of the input.
fn decode(input: &[u8], size: usize) -> Option<DecodedCertificate<TestCertificate>> {
    let [width, bitmap, holds, rest @ ..] = input else { return None };
    if *width as usize != size {
        return None;
    }
    let marked = (0..size as u32).filter(|i| bitmap & (1u8 << i) != 0).map(Participant::new);
    let signers = Signers::new(size as u32, marked).ok()?;
    DecodedCertificate::try_new(TestCertificate { holds: *holds == 1 }, signers, rest.len())
}

/// A key of the tests is four bytes long; its last byte is dropped when it is parsed.
fn parse(key: &Vec<u8>) -> Option<Vec<u8>> {
    if key.len() == 4 {
        Some(key[..3].to_vec())
    } else {
        None
    }
}

fn check(
    namespace: &[u8],
    members: &ordered::Set<Vec<u8>>,
    proposal: &FinalizedProposal,
    certificate: &TestCertificate,
) -> bool {
    namespace == b"appshard" && !members.is_empty() && proposal.epoch == 3 && certificate.holds
}

fn proposal() -> FinalizedProposal {
    FinalizedProposal { epoch: 3, view: 300, parent: 299, payload: DIGEST }
}

fn finalization(certificate: &[u8]) -> Vec<u8> {
    encode_finalization(&AppFinalization { proposal: proposal(), certificate: certificate.to_vec() })
}

fn committee(n: u8) -> Vec<Vec<u8>> {
    (0..n).rev().map(|i| vec![i, 7, 7, 0xee]).collect()
}

fn verify(
    bytes: &[u8],
    keys: &[Vec<u8>],
    digest: [u8; 32],
) -> Result<Vec<Vec<u8>>, FinalizationVerificationError> {
    let detailed =
        verify_finalization_detailed(bytes, keys, b"appshard", digest, parse, decode, check);
    let plain = verify_finalization(bytes, keys, b"appshard", digest, parse, decode, check);
    assert_eq!(plain, detailed.clone().ok());
    detailed
}

#[test]
fn inspection_rejects_malformed_and_trailing_certificate_bytes() {
    let sizes: Vec<usize> = (1..=8).collect();
    assert!(inspect_finalization_decodes(&[0xff, 0x00], [0; 32], &sizes, decode).is_empty());
}

#[test]
fn header_field_round_trips() {
    let field = wrap_cert_for_header(&[1, 2, 3]);
    assert_eq!(field, b"CWCT\x01\x02\x03".to_vec());
    assert_eq!(unwrap_cert_from_header(&field), Some(&[1u8, 2, 3][..]));
    assert_eq!(unwrap_cert_from_header(b"CWCT"), Some(&[][..]));
    assert_eq!(CW_CERT_MAGIC.to_vec(), b"CWCT".to_vec());
}

#[test]
fn header_field_without_the_mark_carries_no_certificate() {
    assert_eq!(unwrap_cert_from_header(b"CWC"), None);
    assert_eq!(unwrap_cert_from_header(b"CWCX123"), None);
    assert_eq!(unwrap_cert_from_header(b" CWCT"), None);
    assert_eq!(unwrap_cert_from_header(&[]), None);
}

#[test]
fn finalization_is_the_proposal_and_then_the_certificate() {
    let bytes = finalization(&[9, 8, 7]);
    let mut expected = vec![3, 0xac, 0x02, 0xab, 0x02];
    expected.extend_from_slice(&DIGEST);
    expected.extend_from_slice(&[9, 8, 7]);
    assert_eq!(bytes, expected);
    let wire = Proposal::new(
        Round::new(Epoch::new(3), View::new(300)),
        View::new(299),
        Digest(DIGEST),
    )
    .encode()
    .to_vec();
    assert_eq!(bytes[..wire.len()], wire[..]);
}

#[test]
fn splitting_inverts_encoding() {
    for p in [
        proposal(),
        FinalizedProposal { epoch: 0, view: 0, parent: 0, payload: [0; 32] },
        FinalizedProposal { epoch: u64::MAX, view: 127, parent: 128, payload: [0xff; 32] },
    ] {
        let bytes =
            encode_finalization(&AppFinalization { proposal: p, certificate: vec![1, 2, 3] });
        let (split, rest) = split_finalization(&bytes).unwrap();
        assert_eq!(split, p);
        assert_eq!(rest, &[1, 2, 3]);
    }
}

#[test]
fn bytes_without_a_proposal_do_not_split() {
    assert!(split_finalization(&[]).is_none());
    assert!(split_finalization(&[0xff, 0x00]).is_none());
    assert!(split_finalization(&[1, 2, 3, 4]).is_none());
    // A varint that could be shorter is no varint.
    let mut overlong = vec![0x80, 0x00, 1, 1];
    overlong.extend_from_slice(&[0; 40]);
    assert!(split_finalization(&overlong).is_none());
    let mut shorter = vec![0x00, 1, 1];
    shorter.extend_from_slice(&[0; 32]);
    assert!(split_finalization(&shorter).unwrap().1.is_empty());
}

#[test]
fn quorum_certificate_credits_its_signers_in_committee_order() {
    let bytes = finalization(&[4, 0b1101, 1]);
    let signers = verify(&bytes, &committee(4), DIGEST).unwrap();
    assert_eq!(signers, vec![vec![0, 7, 7], vec![2, 7, 7], vec![3, 7, 7]]);
}

#[test]
fn listing_order_does_not_change_the_verdict() {
    let bytes = finalization(&[4, 0b0111, 1]);
    let mut listed = committee(4);
    let first = verify(&bytes, &listed, DIGEST);
    listed.swap(0, 2);
    listed.reverse();
    assert!(first.is_ok());
    assert_eq!(verify(&bytes, &listed, DIGEST), first);
}

#[test]
fn trailing_bytes_do_not_stop_verification_but_stop_inspection() {
    let bytes = finalization(&[4, 0b0111, 1, 0xaa]);
    assert_eq!(verify(&bytes, &committee(4), DIGEST).unwrap().len(), 3);
    assert!(inspect_finalization_decodes(&bytes, DIGEST, &[4], decode).is_empty());
}

#[test]
fn committee_faults_are_told_apart() {
    let bytes = finalization(&[4, 0b1111, 1]);
    assert_eq!(verify(&bytes, &[], DIGEST), Err(FinalizationVerificationError::EmptyCommittee));
    assert_eq!(
        verify(&bytes, &[vec![1]], DIGEST),
        Err(FinalizationVerificationError::EmptyCommittee)
    );
    let mut keys = committee(4);
    keys.push(vec![1]);
    assert_eq!(
        verify(&bytes, &keys, DIGEST),
        Err(FinalizationVerificationError::InvalidCommitteeKey { members: 5, parsed: 4 })
    );
    let mut twice = committee(4);
    // Another listing of a member: the parsed keys are equal.
    twice.push(vec![2, 7, 7, 0x01]);
    assert_eq!(
        verify(&bytes, &twice, DIGEST),
        Err(FinalizationVerificationError::DuplicateCommitteeKeys { members: 5 })
    );
}

#[test]
fn certificate_faults_are_told_apart() {
    let keys = committee(4);
    assert_eq!(
        verify(&[0xff, 0x00], &keys, DIGEST),
        Err(FinalizationVerificationError::DecodeFailed { committee_size: 4 })
    );
    assert_eq!(
        verify(&finalization(&[5, 0b1111, 1]), &keys, DIGEST),
        Err(FinalizationVerificationError::DecodeFailed { committee_size: 4 })
    );
    assert_eq!(
        verify(&finalization(&[4, 0b0001, 0]), &keys, [1; 32]),
        Err(FinalizationVerificationError::PayloadMismatch)
    );
    assert_eq!(
        verify(&finalization(&[4, 0b0011, 0]), &keys, DIGEST),
        Err(FinalizationVerificationError::InsufficientSigners { signers: 2, quorum: 3 })
    );
    assert_eq!(
        verify(&finalization(&[4, 0b0111, 0]), &keys, DIGEST),
        Err(FinalizationVerificationError::SignatureVerificationFailed {
            signers: 3,
            committee_size: 4
        })
    );
}

#[test]
fn namespace_reaches_the_signature_check() {
    let bytes = finalization(&[4, 0b0111, 1]);
    let keys = committee(4);
    assert!(verify_finalization(&bytes, &keys, b"appshard", DIGEST, parse, decode, check).is_some());
    assert!(verify_finalization(&bytes, &keys, b"other", DIGEST, parse, decode, check).is_none());
}

#[test]
fn quorum_grows_with_the_committee() {
    for (n, quorum) in [(1u8, 1usize), (2, 2), (3, 3), (4, 3), (5, 4), (6, 5), (7, 5), (8, 6)] {
        let keys: Vec<Option<Vec<u8>>> = (0..n).map(|i| Some(vec![i])).collect();
        let set = build_committee(&keys).unwrap();
        assert_eq!(bind_finalization(&set, &proposal(), DIGEST, quorum), Ok(()));
        assert_eq!(
            bind_finalization(&set, &proposal(), DIGEST, quorum - 1),
            Err(FinalizationVerificationError::InsufficientSigners { signers: quorum - 1, quorum })
        );
    }
}

#[test]
fn committee_is_sorted_by_key_bytes() {
    let keys = vec![Some(vec![2, 0]), Some(vec![1, 9]), Some(vec![1])];
    let set = build_committee(&keys).unwrap();
    assert_eq!(set.iter().cloned().collect::<Vec<_>>(), vec![vec![1], vec![1, 9], vec![2, 0]]);
}

#[test]
fn a_position_past_the_committee_names_nobody() {
    let set = build_committee(&vec![Some(vec![1]), Some(vec![2])]).unwrap();
    let signers = Signers::new(5, [0, 1, 4].map(Participant::new)).unwrap();
    let decoded = DecodedCertificate::new((), signers, 0);
    assert_eq!(decoded.signer_indices(), vec![0, 1, 4]);
    assert_eq!(decoded.signer_count(), 3);
    assert_eq!(signing_members(&set, &decoded), vec![vec![1], vec![2]]);
}

#[test]
fn inspection_reports_the_sizes_that_parse_everything() {
    let bytes = finalization(&[4, 0b1010, 1]);
    let expected = DecodedFinalizationEvidence {
        committee_size: 4,
        signer_indices: vec![1, 3],
        payload_matches_expected_digest: true,
    };
    assert_eq!(
        inspect_finalization_decodes(&bytes, DIGEST, &[0, 3, 4, 5, 4], decode),
        vec![expected.clone(), expected.clone()]
    );
    assert_eq!(
        inspect_finalization_decodes(&bytes, [0; 32], &[4], decode),
        vec![DecodedFinalizationEvidence { payload_matches_expected_digest: false, ..expected }]
    );
}

#[test]
fn a_zero_size_or_unread_bytes_tell_nothing() {
    let decoded = |unread: usize| {
        let signers = Signers::new(3, [2].map(Participant::new)).unwrap();
        DecodedCertificate::new((), signers, unread)
    };
    assert!(evidence_from_certificate(&proposal(), DIGEST, 3, &decoded(1)).is_none());
    assert!(evidence_from_certificate(&proposal(), DIGEST, 0, &decoded(0)).is_none());
    let entry = evidence_from_certificate(&proposal(), DIGEST, 3, &decoded(0)).unwrap();
    assert_eq!(entry.signer_indices, vec![2]);
    assert_eq!(decoded(5).unread(), 5);
    assert_eq!(*decoded(0).certificate(), ());
}

#[test]
fn errors_are_sentences() {
    let sentences = [
        (FinalizationVerificationError::EmptyCommittee, "empty reconstructed committee"),
        (
            FinalizationVerificationError::InvalidCommitteeKey { members: 5, parsed: 4 },
            "reconstructed committee contains invalid Falcon keys (parsed 4/5)",
        ),
        (
            FinalizationVerificationError::DuplicateCommitteeKeys { members: 10 },
            "reconstructed committee contains duplicate Falcon keys (10 entries)",
        ),
        (
            FinalizationVerificationError::DecodeFailed { committee_size: 0 },
            "certificate decode failed under reconstructed committee size 0",
        ),
        (
            FinalizationVerificationError::PayloadMismatch,
            "certificate proposal digest does not bind to frame output",
        ),
        (
            FinalizationVerificationError::InsufficientSigners { signers: 2, quorum: 3 },
            "certificate has 2 signers, below quorum 3",
        ),
        (
            FinalizationVerificationError::SignatureVerificationFailed {
                signers: 3,
                committee_size: 4,
            },
            "Falcon certificate verification failed (3 signers, reconstructed committee size 4)",
        ),
    ];
    for (error, sentence) in sentences {
        assert_eq!(error.message(), sentence);
    }
}

/// Decodes a bitmap one place wider than the committee.
fn decode_too_wide(_input: &[u8], size: usize) -> Option<DecodedCertificate<TestCertificate>> {
    let signers = Signers::new(size as u32 + 1, (0..size as u32).map(Participant::new)).ok()?;
    DecodedCertificate::try_new(TestCertificate { holds: true }, signers, 0)
}

#[test]
fn a_bitmap_wider_than_the_committee_does_not_decode() {
    let bytes = finalization(&[]);
    let keys = committee(4);
    assert_eq!(
        verify_finalization_detailed(
            &bytes,
            &keys,
            b"appshard",
            DIGEST,
            parse,
            decode_too_wide,
            check
        ),
        Err(FinalizationVerificationError::DecodeFailed { committee_size: 4 })
    );
    assert!(inspect_finalization_decodes(&bytes, DIGEST, &[4], decode_too_wide).is_empty());
    assert_eq!(decode_too_wide(&[], 4).unwrap().width(), 5);
}

#[test]
fn credited_keys_are_a_quorum_of_different_members() {
    let keys = committee(7);
    let signers = verify(&finalization(&[7, 0b101_1011, 1]), &keys, DIGEST).unwrap();
    assert_eq!(signers.len(), 5);
    let mut sorted = signers.clone();
    sorted.sort();
    sorted.dedup();
    assert_eq!(sorted, signers);
    assert!(signers.iter().all(|key| keys.iter().any(|listed| parse(listed).as_ref() == Some(key))));
}

#[test]
fn trailing_bytes_rule_a_reported_size_out() {
    let sizes = [3, 4, 5];
    let bytes = finalization(&[4, 0b0111, 1]);
    assert_eq!(inspect_finalization_decodes(&bytes, DIGEST, &sizes, decode).len(), 1);
    let mut longer = bytes.clone();
    longer.push(0);
    assert!(inspect_finalization_decodes(&longer, DIGEST, &sizes, decode).is_empty());
}

#[test]
fn different_errors_are_different_sentences() {
    let error = |signers: usize, quorum: usize| {
        FinalizationVerificationError::InsufficientSigners { signers, quorum }.message()
    };
    assert_ne!(error(1, 12), error(11, 2));
    assert_ne!(error(1, 2), error(2, 1));
    let keys = |members: usize, parsed: usize| {
        FinalizationVerificationError::InvalidCommitteeKey { members, parsed }.message()
    };
    assert_ne!(keys(11, 1), keys(1, 11));
}

#[test]
fn namespace_changes_nothing_but_the_signature_check() {
    let keys = committee(4);
    let under = |bytes: &[u8], namespace: &[u8]| {
        verify_finalization_detailed(bytes, &keys, namespace, DIGEST, parse, decode, check)
    };
    let good = finalization(&[4, 0b0111, 1]);
    assert!(under(&good, b"appshard").is_ok());
    assert_eq!(
        under(&good, b"other"),
        Err(FinalizationVerificationError::SignatureVerificationFailed {
            signers: 3,
            committee_size: 4
        })
    );
    for bytes in [finalization(&[4, 0b0011, 1]), finalization(&[5, 0b0111, 1]), vec![0xff]] {
        assert_eq!(under(&bytes, b"appshard"), under(&bytes, b"other"));
    }
}

#[test]
fn digest_changes_nothing_but_the_flag() {
    let bytes = finalization(&[4, 0b1010, 1]);
    let sizes = [3, 4, 4];
    let right = inspect_finalization_decodes(&bytes, DIGEST, &sizes, decode);
    let wrong = inspect_finalization_decodes(&bytes, [1; 32], &sizes, decode);
    assert_eq!(right.len(), 2);
    assert_eq!(right.len(), wrong.len());
    for (a, b) in right.iter().zip(&wrong) {
        assert_eq!((a.committee_size, &a.signer_indices), (b.committee_size, &b.signer_indices));
        assert!(a.payload_matches_expected_digest && !b.payload_matches_expected_digest);
    }
}
