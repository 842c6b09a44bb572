use quil_shard::hex_text::HexFault;
use quil_shard::vertex_probe::{
    address_line, connect_failed_line, describe_vertex, head_line, list_entries, parse_address,
    parse_addresses, parse_versions, peer_line, phase_name, probe_targets, prover_shard_key,
    prover_vertex_id, proving_key_id, queries_for_address, read_record, reply_line, seniority_of,
    sweep_line, sweep_queries,
    DecodedVertex, ProbeArgFault, ProbeQuery, ProbeReply, PROVER_CLASS, PUBLIC_KEY_FIELD,
    SENIORITY_FIELD, STATUS_FIELD, TYPE_HASH_KEY,
};

const A: &str = "000102030405060708090a0b0c0d0e0f101112131415161718191a1b1c1d1e1f";

fn address() -> Vec<u8> {
    (0..32).collect()
}

#[test]
fn lists_are_trimmed_and_blank_entries_dropped() {
    assert_eq!(list_entries(" a:1 ,, b:2,\u{a0}"), vec!["a:1", "b:2"]);
    assert!(list_entries(" , ").is_empty());
    assert!(list_entries("").is_empty());
}

#[test]
fn addresses_are_thirty_two_bytes_in_hexadecimal() {
    assert_eq!(parse_addresses(&format!(" {A} ,,{}", A.to_uppercase())), {
        Ok(vec![address(), address()])
    });
    assert_eq!(parse_addresses(""), Ok(vec![]));
    assert_eq!(
        parse_address("00ff"),
        Err(ProbeArgFault::WrongLength { address: "00ff".to_string() })
    );
    assert_eq!(
        parse_address("00f"),
        Err(ProbeArgFault::BadHex { address: "00f".to_string(), fault: HexFault::OddLength })
    );
    assert_eq!(
        parse_address("0xff"),
        Err(ProbeArgFault::BadHex {
            address: "0xff".to_string(),
            fault: HexFault::InvalidHexCharacter { c: 'x', index: 1 },
        })
    );
}

#[test]
fn the_first_bad_address_is_reported() {
    assert_eq!(
        parse_addresses(&format!("{A},00ff,zz")),
        Err(ProbeArgFault::WrongLength { address: "00ff".to_string() })
    );
}

#[test]
fn targets_need_a_peer_and_an_address() {
    assert_eq!(probe_targets("h:1", A), Ok((vec!["h:1".to_string()], vec![address()])));
    assert_eq!(probe_targets(" ", A), Err(ProbeArgFault::NoPeers));
    assert_eq!(probe_targets(" ", ""), Err(ProbeArgFault::NoPeers));
    assert_eq!(probe_targets("h:1", ","), Err(ProbeArgFault::NoAddresses));
    // A bad address is reported even when there is no peer.
    assert_eq!(
        probe_targets("", "00"),
        Err(ProbeArgFault::WrongLength { address: "00".to_string() })
    );
}

#[test]
fn refusals_are_sentences() {
    assert_eq!(ProbeArgFault::NoPeers.message().unwrap(), "no peers given");
    assert_eq!(ProbeArgFault::NoAddresses.message().unwrap(), "no addresses given");
    assert_eq!(
        ProbeArgFault::WrongLength { address: "00ff".to_string() }.message().unwrap(),
        "address 00ff is not 32 bytes"
    );
    assert!(parse_address("zz").unwrap_err().message().is_none());
}

#[test]
fn versions_are_the_numbers_of_the_list() {
    assert_eq!(parse_versions("1, 20,x,+3,-4,,18446744073709551615"), vec![1, 20, 3, u64::MAX]);
    assert_eq!(parse_versions("18446744073709551616"), Vec::<u64>::new());
}

#[test]
fn proving_key_has_a_default() {
    assert_eq!(proving_key_id(""), "default-proving-key");
    assert_eq!(proving_key_id("mine"), "mine");
}

#[test]
fn shard_key_and_vertex_ids_start_with_the_shard() {
    let key = prover_shard_key();
    assert_eq!(key.len(), 35);
    assert_eq!(key[..3], [0; 3]);
    assert_eq!(key[3..], [0xff; 32]);
    let id = prover_vertex_id(&address());
    assert_eq!(id.len(), 64);
    assert_eq!(id[..32], [0xff; 32]);
    assert_eq!(id[32..], address()[..]);
    assert_ne!(id, prover_vertex_id(&[1; 32]));
}

#[test]
fn questions_are_pinned_to_the_trees_that_there_are() {
    assert_eq!(
        queries_for_address(&[Some(5), None, Some(7), None]),
        vec![
            ProbeQuery::Leaf { phase: 0, version: 5 },
            ProbeQuery::Leaf { phase: 2, version: 7 },
            ProbeQuery::PinnedBlob { version: 5 },
            ProbeQuery::LatestBlob,
        ]
    );
    assert_eq!(
        queries_for_address(&[None, Some(1), None, None]),
        vec![ProbeQuery::Leaf { phase: 1, version: 1 }]
    );
    assert!(queries_for_address(&[None; 4]).is_empty());
    assert_eq!(ProbeQuery::LatestBlob.version(), 0);
    assert_eq!(ProbeQuery::PinnedBlob { version: 5 }.version(), 5);
    assert_eq!(ProbeQuery::Leaf { phase: 2, version: 7 }.version(), 7);
}

#[test]
fn answers_are_reported_in_columns() {
    let leaf = ProbeQuery::Leaf { phase: 3, version: 5 };
    let pinned = ProbeQuery::PinnedBlob { version: 5 };
    assert_eq!(
        reply_line(&leaf, &ProbeReply::Present(vec![0x0a, 0xff])),
        "    leaf hyperedge.removes  PRESENT  value=0aff"
    );
    assert_eq!(reply_line(&leaf, &ProbeReply::Absent), "    leaf hyperedge.removes  absent");
    assert_eq!(
        reply_line(&leaf, &ProbeReply::Failed("gone".to_string())),
        "    leaf hyperedge.removes  error: gone"
    );
    assert_eq!(
        reply_line(&pinned, &ProbeReply::Present(vec![0; 120])),
        "    blob  pinned             PRESENT  len=120"
    );
    assert_eq!(
        reply_line(&ProbeQuery::LatestBlob, &ProbeReply::Absent),
        "    blob  latest             absent"
    );
    let label = "vertex.adds";
    assert_eq!(
        reply_line(&ProbeQuery::Leaf { phase: 0, version: 1 }, &ProbeReply::Absent),
        format!("    leaf {label:<18} absent")
    );
}

#[test]
fn heads_peers_and_addresses_have_a_line() {
    assert_eq!(peer_line("h:1"), "\n=== h:1 ===");
    assert_eq!(connect_failed_line("refused"), "  connect failed: refused");
    assert_eq!(
        head_line(1, Some((12, &[0xab, 0xcd]))),
        "  head vertex.removes     version=12 root=abcd"
    );
    assert_eq!(head_line(0, None), "  head vertex.adds        (absent)");
    assert_eq!(address_line(&[0x00, 0xff]), "  address 00ff");
    assert_eq!(phase_name(2), "hyperedge.adds");
}

#[test]
fn sweeps_have_a_line_for_each_version() {
    assert_eq!(sweep_line(7, true, Some(33)), "    v=7        leaf=PRESENT blob=PRESENT len=33");
    assert_eq!(sweep_line(123456789, false, None), "    v=123456789 leaf=absent  blob=absent");
}

#[test]
fn seniority_is_the_last_eight_bytes() {
    assert_eq!(seniority_of(&[]), 0);
    assert_eq!(seniority_of(&[1, 2]), 0x0102);
    assert_eq!(seniority_of(&[0xff; 8]), u64::MAX);
    assert_eq!(seniority_of(&[9, 9, 0, 0, 0, 0, 0, 0, 1, 0]), 256);
}

#[test]
fn vertices_are_described() {
    assert_eq!(describe_vertex(&DecodedVertex::EmptyTree), vec!["      (empty tree)"]);
    assert_eq!(
        describe_vertex(&DecodedVertex::Undecodable("short".to_string())),
        vec!["      (undecodable: short)"]
    );
    let record = |class: Option<&str>, status: Option<Vec<u8>>| DecodedVertex::Record {
        class: class.map(|c| c.to_string()),
        public_key: Some(vec![0; 897]),
        status,
        seniority: Some(vec![1, 0]),
    };
    assert_eq!(describe_vertex(&record(None, None)), vec!["      class=<unknown class>"]);
    assert_eq!(
        describe_vertex(&record(Some("allocation:ProverAllocation"), None)),
        vec!["      class=allocation:ProverAllocation"]
    );
    assert_eq!(
        describe_vertex(&record(Some("prover:Prover"), Some(vec![1, 2]))),
        vec![
            "      class=prover:Prover",
            "      public_key_len=897 status=Some(Some(1)) seniority=Some(256)",
        ]
    );
    assert_eq!(
        describe_vertex(&record(Some("prover:Prover"), Some(vec![])))[1],
        "      public_key_len=897 status=Some(None) seniority=Some(256)"
    );
    let bare = DecodedVertex::Record {
        class: Some("prover:Prover".to_string()),
        public_key: None,
        status: None,
        seniority: None,
    };
    assert_eq!(
        describe_vertex(&bare)[1],
        "      public_key_len=0 status=None seniority=None"
    );
}

#[test]
fn key_bytes_do_not_change_a_description() {
    let with_key = |key: Vec<u8>| DecodedVertex::Record {
        class: Some("prover:Prover".to_string()),
        public_key: Some(key),
        status: None,
        seniority: None,
    };
    assert_eq!(describe_vertex(&with_key(vec![1; 5])), describe_vertex(&with_key(vec![2; 5])));
}

#[test]
fn records_are_read_under_their_keys() {
    assert_eq!(TYPE_HASH_KEY, [0xff; 32]);
    assert_eq!(PROVER_CLASS, "prover:Prover");
    assert_eq!([PUBLIC_KEY_FIELD, STATUS_FIELD, SENIORITY_FIELD], ["PublicKey", "Status", "Seniority"]);
}

#[test]
fn a_sweep_asks_for_the_first_leaf_and_the_blob() {
    assert_eq!(
        sweep_queries(9),
        (ProbeQuery::Leaf { phase: 0, version: 9 }, ProbeQuery::PinnedBlob { version: 9 })
    );
}

#[test]
fn records_are_read_off_their_leaves() {
    let read = |hash: Option<u8>| {
        read_record(
            move |key: &[u8]| {
                if key == TYPE_HASH_KEY {
                    hash.map(|h| vec![h])
                } else if key == b"key of Status" {
                    None
                } else {
                    Some(key.to_vec())
                }
            },
            |hash: &[u8]| match hash {
                [1] => Some("prover:Prover".to_string()),
                [2] => Some("allocation:ProverAllocation".to_string()),
                _ => None,
            },
            |class: &str, field: &str| {
                if class == "prover:Prover" && field != "Seniority" {
                    Some(format!("key of {field}").into_bytes())
                } else {
                    None
                }
            },
        )
    };
    let bare = |class: Option<&str>| DecodedVertex::Record {
        class: class.map(|c| c.to_string()),
        public_key: None,
        status: None,
        seniority: None,
    };
    assert_eq!(
        read(Some(1)),
        DecodedVertex::Record {
            class: Some("prover:Prover".to_string()),
            public_key: Some(b"key of PublicKey".to_vec()),
            status: None,
            seniority: None,
        }
    );
    assert_eq!(read(Some(2)), bare(Some("allocation:ProverAllocation")));
    assert_eq!(read(Some(3)), bare(None));
    assert_eq!(read(None), bare(None));
}
