//! Probing archives for prover vertices in canonical state: the arguments, the questions and the
//! report lines.
//!
//! The prover shard is a single-shard app. A prover's vertex has a leaf in each of the four phases of
//! the shard's forest, and a blob with its readable data. The archives are asked over the network by
//! the caller.

use vstd::prelude::*;
use vstd::string::StringExecFns;
use vstd::utf8::encode_utf8;

use crate::hex_text::{
    all_hex_digits, decode_hex, encode_hex, hex_digit_value, hex_of, hex_value, is_hex_fault, HexFault,
};
use crate::text::{
    decimal, padded, parse_unsigned, pieces, push_decimal, push_padded, same_text, split_text,
    text_views, trim_text, trimmed, unsigned_value,
};

verus! {

/// The app address of the prover shard, which is also the app half of its vertex ids.
pub const PROVER_SHARD_L2: [u8; 32] = [
    0xff, 0xff, 0xff, 0xff, 0xff, 0xff, 0xff, 0xff,
    0xff, 0xff, 0xff, 0xff, 0xff, 0xff, 0xff, 0xff,
    0xff, 0xff, 0xff, 0xff, 0xff, 0xff, 0xff, 0xff,
    0xff, 0xff, 0xff, 0xff, 0xff, 0xff, 0xff, 0xff,
];

/// The bloom prefix of the prover shard's address.
pub const PROVER_SHARD_L1: [u8; 3] = [0, 0, 0];

/// The key under which a record keeps the hash of its class.
pub const TYPE_HASH_KEY: [u8; 32] = [
    0xff, 0xff, 0xff, 0xff, 0xff, 0xff, 0xff, 0xff,
    0xff, 0xff, 0xff, 0xff, 0xff, 0xff, 0xff, 0xff,
    0xff, 0xff, 0xff, 0xff, 0xff, 0xff, 0xff, 0xff,
    0xff, 0xff, 0xff, 0xff, 0xff, 0xff, 0xff, 0xff,
];

/// The class of a prover's record.
pub const PROVER_CLASS: &'static str = "prover:Prover";

/// The field of a prover's record that holds its public key.
pub const PUBLIC_KEY_FIELD: &'static str = "PublicKey";

/// The field of a prover's record that holds its status.
pub const STATUS_FIELD: &'static str = "Status";

/// The field of a prover's record that holds its seniority.
pub const SENIORITY_FIELD: &'static str = "Seniority";

/// Why the probe's arguments are refused.
#[derive(Clone, Debug, Eq, PartialEq)]
pub enum ProbeArgFault {
    /// An address is not hexadecimal.
    BadHex { address: String, fault: HexFault },
    /// An address is not thirty-two bytes long.
    WrongLength { address: String },
    NoPeers,
    NoAddresses,
}

/// What the logic sees of a refusal.
pub enum ProbeArgFaultView {
    BadHex { address: Seq<char>, fault: HexFault },
    WrongLength { address: Seq<char> },
    NoPeers,
    NoAddresses,
}

impl ProbeArgFault {
    pub open spec fn view(self) -> ProbeArgFaultView {
        match self {
            ProbeArgFault::BadHex { address, fault } =>
                ProbeArgFaultView::BadHex { address: address@, fault },
            ProbeArgFault::WrongLength { address } =>
                ProbeArgFaultView::WrongLength { address: address@ },
            ProbeArgFault::NoPeers => ProbeArgFaultView::NoPeers,
            ProbeArgFault::NoAddresses => ProbeArgFaultView::NoAddresses,
        }
    }

    /// The refusal as a sentence. A wrong character is reported by the hexadecimal decoder itself,
    /// so there is none for it here.
    pub fn message(&self) -> (r: Option<String>)
        ensures
            match self@ {
                ProbeArgFaultView::BadHex { .. } => r is None,
                ProbeArgFaultView::WrongLength { address } => r is Some && r->0@ == "address "@
                    + address + " is not 32 bytes"@,
                ProbeArgFaultView::NoPeers => r is Some && r->0@ == "no peers given"@,
                ProbeArgFaultView::NoAddresses => r is Some && r->0@ == "no addresses given"@,
            },
    {
        match self {
            ProbeArgFault::BadHex { address: _, fault: _ } => None,
            ProbeArgFault::WrongLength { address } => {
                let mut r = String::new();
                r.append("address ");
                r.append(address.as_str());
                r.append(" is not 32 bytes");
                assert(r@ =~= "address "@ + address@ + " is not 32 bytes"@);
                Some(r)
            },
            ProbeArgFault::NoPeers => Some("no peers given".to_owned()),
            ProbeArgFault::NoAddresses => Some("no addresses given".to_owned()),
        }
    }
}

/// The entries of a list that are not blank, without the white space around them.
pub open spec fn entries_of(parts: Seq<Seq<char>>) -> Seq<Seq<char>>
    decreases parts.len(),
{
    if parts.len() == 0 {
        seq![]
    } else {
        let before = entries_of(parts.drop_last());
        if trimmed(parts.last()).len() > 0 {
            before.push(trimmed(parts.last()))
        } else {
            before
        }
    }
}

/// The entries of a comma-separated list that are not blank, without the white space around them.
pub fn list_entries(text: &str) -> (r: Vec<String>)
    ensures
        text_views(r@) == entries_of(pieces(text@, ',')),
{
    let parts = split_text(text, ',');
    let ghost views = text_views(parts@);
    let mut r: Vec<String> = Vec::new();
    let mut i: usize = 0;
    while i < parts.len()
        invariant
            i <= parts@.len(),
            views == text_views(parts@),
            text_views(r@) == entries_of(views.take(i as int)),
        decreases parts@.len() - i,
    {
        let ghost before = text_views(r@);
        let entry = trim_text(parts[i].as_str());
        proof {
            assert(views.take(i + 1).drop_last() =~= views.take(i as int));
            assert(views.take(i + 1).last() == parts@[i as int]@);
        }
        if !entry.is_empty() {
            r.push(entry.to_owned());
            assert(text_views(r@) =~= before.push(entry@));
        }
        i += 1;
    }
    assert(views.take(i as int) =~= views);
    r
}

/// The text is an address: sixty-four hexadecimal digits.
pub open spec fn names_address(entry: Seq<char>) -> bool {
    encode_utf8(entry).len() == 64 && all_hex_digits(encode_utf8(entry))
}

/// What one address entry stands for, or why it is refused.
pub open spec fn is_address(
    entry: Seq<char>,
    outcome: Result<Seq<u8>, ProbeArgFaultView>,
) -> bool {
    let text = encode_utf8(entry);
    match outcome {
        Ok(address) => names_address(entry) && address == hex_value(text),
        Err(ProbeArgFaultView::BadHex { address, fault }) => address == entry && is_hex_fault(
            text,
            fault,
        ),
        Err(ProbeArgFaultView::WrongLength { address }) => {
            &&& address == entry
            &&& text.len() % 2 == 0
            &&& all_hex_digits(text)
            &&& text.len() != 64
        },
        Err(_) => false,
    }
}

/// Reads one address.
pub fn parse_address(entry: &str) -> (r: Result<Vec<u8>, ProbeArgFault>)
    ensures
        is_address(
            entry@,
            match r {
                Ok(address) => Ok(address@),
                Err(fault) => Err(fault@),
            },
        ),
{
    match decode_hex(entry) {
        Err(fault) => Err(ProbeArgFault::BadHex { address: entry.to_owned(), fault }),
        Ok(address) => {
            if address.len() != 32 {
                Err(ProbeArgFault::WrongLength { address: entry.to_owned() })
            } else {
                Ok(address)
            }
        },
    }
}

/// What the logic sees of a list of addresses.
pub open spec fn address_views(addresses: Seq<Vec<u8>>) -> Seq<Seq<u8>> {
    addresses.map_values(|a: Vec<u8>| a@)
}

/// `outcome` is what a list of address entries comes to: all addresses in order, or the refusal of
/// the first entry that is none.
pub open spec fn are_addresses(
    entries: Seq<Seq<char>>,
    outcome: Result<Seq<Seq<u8>>, ProbeArgFaultView>,
) -> bool {
    match outcome {
        Ok(addresses) => {
            &&& addresses.len() == entries.len()
            &&& forall|i: int|
                0 <= i < entries.len() ==> #[trigger] is_address(entries[i], Ok(addresses[i]))
        },
        Err(fault) => exists|k: int|
            0 <= k < entries.len() && #[trigger] is_address(entries[k], Err(fault)) && forall|i: int|
                0 <= i < k ==> names_address(#[trigger] entries[i]),
    }
}

/// Reads a comma-separated list of addresses; blank entries are passed over.
pub fn parse_addresses(text: &str) -> (r: Result<Vec<Vec<u8>>, ProbeArgFault>)
    ensures
        are_addresses(
            entries_of(pieces(text@, ',')),
            match r {
                Ok(addresses) => Ok(address_views(addresses@)),
                Err(fault) => Err(fault@),
            },
        ),
{
    let entries = list_entries(text);
    let ghost views = text_views(entries@);
    let mut addresses: Vec<Vec<u8>> = Vec::new();
    let mut i: usize = 0;
    while i < entries.len()
        invariant
            i <= entries@.len(),
            views == text_views(entries@),
            views == entries_of(pieces(text@, ',')),
            addresses@.len() == i,
            forall|k: int| 0 <= k < i ==> is_address(views[k], Ok((#[trigger] addresses@[k])@)),
        decreases entries@.len() - i,
    {
        assert(views[i as int] == entries@[i as int]@);
        match parse_address(entries[i].as_str()) {
            Ok(address) => {
                addresses.push(address);
            },
            Err(fault) => {
                proof {
                    assert(is_address(views[i as int], Err(fault@)));
                    assert forall|k: int| 0 <= k < i implies names_address(#[trigger] views[k]) by {
                        assert(is_address(views[k], Ok(addresses@[k]@)));
                    }
                }
                return Err(fault);
            },
        }
        i += 1;
    }
    proof {
        let list = address_views(addresses@);
        assert forall|k: int| 0 <= k < views.len() implies #[trigger] is_address(
            views[k],
            Ok(list[k]),
        ) by {
            assert(list[k] == addresses@[k]@);
        }
    }
    Ok(addresses)
}

/// What the probe is to ask: the archives, and the addresses of the provers.
pub fn probe_targets(peers: &str, addresses: &str) -> (r: Result<
    (Vec<String>, Vec<Vec<u8>>),
    ProbeArgFault,
>)
    ensures
        match r {
            Ok((peer_list, address_list)) => {
                &&& text_views(peer_list@) == entries_of(pieces(peers@, ','))
                &&& are_addresses(
                    entries_of(pieces(addresses@, ',')),
                    Ok(address_views(address_list@)),
                )
                &&& peer_list@.len() > 0
                &&& address_list@.len() > 0
            },
            Err(fault) => match fault@ {
                ProbeArgFaultView::NoPeers => {
                    &&& entries_of(pieces(peers@, ',')).len() == 0
                    &&& forall|i: int|
                        0 <= i < entries_of(pieces(addresses@, ',')).len() ==> names_address(
                            #[trigger] entries_of(pieces(addresses@, ','))[i],
                        )
                },
                ProbeArgFaultView::NoAddresses => {
                    &&& entries_of(pieces(peers@, ',')).len() > 0
                    &&& entries_of(pieces(addresses@, ',')).len() == 0
                },
                other => are_addresses(entries_of(pieces(addresses@, ',')), Err(other)),
            },
        },
{
    let peer_list = list_entries(peers);
    let address_list = match parse_addresses(addresses) {
        Ok(list) => list,
        Err(fault) => {
            return Err(fault);
        },
    };
    if peer_list.len() == 0 {
        assert(text_views(peer_list@).len() == 0);
        proof {
            let entries = entries_of(pieces(addresses@, ','));
            assert forall|i: int| 0 <= i < entries.len() implies names_address(
                #[trigger] entries[i],
            ) by {
                assert(is_address(entries[i], Ok(address_views(address_list@)[i])));
            }
        }
        return Err(ProbeArgFault::NoPeers);
    }
    assert(text_views(peer_list@).len() > 0);
    assert(address_views(address_list@).len() == address_list@.len());
    if address_list.len() == 0 {
        return Err(ProbeArgFault::NoAddresses);
    }
    Ok((peer_list, address_list))
}

/// The numbers among the entries of a list, in order; what is no number is passed over.
pub open spec fn numbers_of(parts: Seq<Seq<char>>) -> Seq<u64>
    decreases parts.len(),
{
    if parts.len() == 0 {
        seq![]
    } else {
        let before = numbers_of(parts.drop_last());
        match unsigned_value(trimmed(parts.last()), u64::MAX) {
            Some(n) => before.push(n),
            None => before,
        }
    }
}

/// Reads a comma-separated list of tree versions; what is no number is passed over.
pub fn parse_versions(text: &str) -> (r: Vec<u64>)
    ensures
        r@ == numbers_of(pieces(text@, ',')),
{
    let parts = split_text(text, ',');
    let ghost views = text_views(parts@);
    let mut r: Vec<u64> = Vec::new();
    let mut i: usize = 0;
    while i < parts.len()
        invariant
            i <= parts@.len(),
            views == text_views(parts@),
            r@ == numbers_of(views.take(i as int)),
        decreases parts@.len() - i,
    {
        proof {
            assert(views.take(i + 1).drop_last() =~= views.take(i as int));
            assert(views.take(i + 1).last() == parts@[i as int]@);
        }
        if let Some(n) = parse_unsigned(trim_text(parts[i].as_str()), u64::MAX) {
            r.push(n);
        }
        i += 1;
    }
    assert(views.take(i as int) =~= views);
    r
}

/// The proving key that is used: the configured one, or the default.
pub fn proving_key_id(configured: &str) -> (r: String)
    ensures
        r@ == (if configured@.len() == 0 {
            "default-proving-key"@
        } else {
            configured@
        }),
{
    if configured.is_empty() {
        "default-proving-key".to_owned()
    } else {
        configured.to_owned()
    }
}

/// The key of the prover shard: its bloom prefix, then its address.
pub fn prover_shard_key() -> (r: Vec<u8>)
    ensures
        r@ == PROVER_SHARD_L1@ + PROVER_SHARD_L2@,
{
    let mut r: Vec<u8> = Vec::new();
    r.extend_from_slice(&PROVER_SHARD_L1);
    r.extend_from_slice(&PROVER_SHARD_L2);
    r
}

/// The id of a prover's vertex: the shard's address, then the prover's.
pub fn prover_vertex_id(address: &[u8]) -> (r: Vec<u8>)
    ensures
        r@ == PROVER_SHARD_L2@ + address@,
{
    let mut r: Vec<u8> = Vec::new();
    r.extend_from_slice(&PROVER_SHARD_L2);
    r.extend_from_slice(address);
    r
}

/// The name of a phase of a shard's forest.
pub open spec fn phase_text(phase: int) -> Seq<char> {
    if phase == 0 {
        "vertex.adds"@
    } else if phase == 1 {
        "vertex.removes"@
    } else if phase == 2 {
        "hyperedge.adds"@
    } else {
        "hyperedge.removes"@
    }
}

/// The name of a phase of a shard's forest.
pub fn phase_name(phase: u32) -> (r: &'static str)
    requires
        phase < 4,
    ensures
        r@ == phase_text(phase as int),
{
    match phase {
        0 => "vertex.adds",
        1 => "vertex.removes",
        2 => "hyperedge.adds",
        _ => "hyperedge.removes",
    }
}

/// A question to an archive about one address.
#[derive(Clone, Copy, Debug, PartialEq, Eq)]
pub enum ProbeQuery {
    /// The leaf of the address in the tree of a phase, at a version.
    Leaf { phase: u32, version: u64 },
    /// The blob of the vertex, at a version.
    PinnedBlob { version: u64 },
    /// The blob of the vertex, at whatever version the archive is at.
    LatestBlob,
}

impl ProbeQuery {
    /// The version that the question is asked at; zero asks for the latest.
    pub open spec fn at_version(self) -> u64 {
        match self {
            ProbeQuery::Leaf { version, .. } => version,
            ProbeQuery::PinnedBlob { version } => version,
            ProbeQuery::LatestBlob => 0,
        }
    }

    /// The version that the question is asked at; zero asks for the latest.
    pub fn version(&self) -> (r: u64)
        ensures
            r == self.at_version(),
    {
        match self {
            ProbeQuery::Leaf { phase: _, version } => *version,
            ProbeQuery::PinnedBlob { version } => *version,
            ProbeQuery::LatestBlob => 0,
        }
    }

    /// The question is about a phase that there is.
    pub open spec fn wf(self) -> bool {
        self matches ProbeQuery::Leaf { phase, .. } ==> phase < 4
    }
}

/// The leaf questions in the first `n` phases: one for each phase that has a tree, at the version of
/// that tree.
pub open spec fn leaf_queries(heads: Seq<Option<u64>>, n: nat) -> Seq<ProbeQuery>
    decreases n,
{
    if n == 0 {
        seq![]
    } else {
        let before = leaf_queries(heads, (n - 1) as nat);
        match heads[n - 1] {
            Some(version) => before.push(ProbeQuery::Leaf { phase: (n - 1) as u32, version }),
            None => before,
        }
    }
}

/// The questions about one address: its leaves, and, where the first phase has a tree, its blob at
/// the version of that tree and at the latest.
pub open spec fn queries_of(heads: Seq<Option<u64>>) -> Seq<ProbeQuery> {
    leaf_queries(heads, 4) + match heads[0] {
        Some(version) => seq![ProbeQuery::PinnedBlob { version }, ProbeQuery::LatestBlob],
        None => seq![],
    }
}

/// The questions about one address to an archive whose trees are at these versions.
pub fn queries_for_address(heads: &[Option<u64>; 4]) -> (r: Vec<ProbeQuery>)
    ensures
        r@ == queries_of(heads@),
{
    let mut r: Vec<ProbeQuery> = Vec::new();
    let mut phase: u32 = 0;
    while phase < 4
        invariant
            phase <= 4,
            r@ == leaf_queries(heads@, phase as nat),
        decreases 4 - phase,
    {
        if let Some(version) = heads[phase as usize] {
            r.push(ProbeQuery::Leaf { phase, version });
        }
        phase += 1;
    }
    if let Some(version) = heads[0] {
        r.push(ProbeQuery::PinnedBlob { version });
        r.push(ProbeQuery::LatestBlob);
    }
    assert(r@ =~= queries_of(heads@));
    r
}

/// The questions of a sweep at one version: the leaf of the first phase, and the blob.
pub fn sweep_queries(version: u64) -> (r: (ProbeQuery, ProbeQuery))
    ensures
        r == (ProbeQuery::Leaf { phase: 0, version }, ProbeQuery::PinnedBlob { version }),
{
    (ProbeQuery::Leaf { phase: 0, version }, ProbeQuery::PinnedBlob { version })
}

/// What an archive answers.
#[derive(Clone, Debug, PartialEq, Eq)]
pub enum ProbeReply {
    Present(Vec<u8>),
    Absent,
    Failed(String),
}

/// The line that reports an answer, but for its end.
pub open spec fn reply_head(query: ProbeQuery) -> Seq<char> {
    match query {
        ProbeQuery::Leaf { phase, .. } => "    leaf "@ + padded(phase_text(phase as int), 18),
        ProbeQuery::PinnedBlob { .. } => "    blob  "@ + padded("pinned"@, 18),
        ProbeQuery::LatestBlob => "    blob  "@ + padded("latest"@, 18),
    }
}

/// The line that reports an answer: the value of a leaf, the length of a blob.
pub open spec fn reply_text(query: ProbeQuery, reply: ProbeReply) -> Seq<char> {
    match reply {
        ProbeReply::Present(data) => match query {
            ProbeQuery::Leaf { .. } => reply_head(query) + " PRESENT  value="@ + hex_of(data@),
            _ => reply_head(query) + " PRESENT  len="@ + decimal(data@.len()),
        },
        ProbeReply::Absent => reply_head(query) + " absent"@,
        ProbeReply::Failed(why) => reply_head(query) + " error: "@ + why@,
    }
}

/// The line that reports an answer.
pub fn reply_line(query: &ProbeQuery, reply: &ProbeReply) -> (r: String)
    requires
        query.wf(),
    ensures
        r@ == reply_text(*query, *reply),
{
    let mut r: String;
    match query {
        ProbeQuery::Leaf { phase, version: _ } => {
            r = "    leaf ".to_owned();
            push_padded(&mut r, phase_name(*phase), 18);
        },
        ProbeQuery::PinnedBlob { version: _ } => {
            r = "    blob  ".to_owned();
            push_padded(&mut r, "pinned", 18);
        },
        ProbeQuery::LatestBlob => {
            r = "    blob  ".to_owned();
            push_padded(&mut r, "latest", 18);
        },
    }
    match reply {
        ProbeReply::Present(data) => match query {
            ProbeQuery::Leaf { phase: _, version: _ } => {
                r.append(" PRESENT  value=");
                r.append(encode_hex(data.as_slice()).as_str());
            },
            _ => {
                r.append(" PRESENT  len=");
                push_decimal(&mut r, data.len() as u64);
            },
        },
        ProbeReply::Absent => {
            r.append(" absent");
        },
        ProbeReply::Failed(why) => {
            r.append(" error: ");
            r.append(why.as_str());
        },
    }
    r
}

/// The line that opens an archive's report.
pub fn peer_line(peer: &str) -> (r: String)
    ensures
        r@ == "\n=== "@ + peer@ + " ==="@,
{
    let mut r = "\n=== ".to_owned();
    r.append(peer);
    r.append(" ===");
    r
}

/// The line for an archive that cannot be reached.
pub fn connect_failed_line(why: &str) -> (r: String)
    ensures
        r@ == "  connect failed: "@ + why@,
{
    let mut r = "  connect failed: ".to_owned();
    r.append(why);
    r
}

/// The line that tells the version and the root of a phase's tree, or that there is none.
pub fn head_line(phase: u32, head: Option<(u64, &[u8])>) -> (r: String)
    requires
        phase < 4,
    ensures
        r@ == match head {
            Some((version, root)) => "  head "@ + padded(phase_text(phase as int), 18)
                + " version="@ + decimal(version as nat) + " root="@ + hex_of(root@),
            None => "  head "@ + padded(phase_text(phase as int), 18) + " (absent)"@,
        },
{
    let mut r = "  head ".to_owned();
    push_padded(&mut r, phase_name(phase), 18);
    match head {
        Some((version, root)) => {
            r.append(" version=");
            push_decimal(&mut r, version);
            r.append(" root=");
            r.append(encode_hex(root).as_str());
        },
        None => {
            r.append(" (absent)");
        },
    }
    r
}

/// The line that opens the report on an address.
pub fn address_line(address: &[u8]) -> (r: String)
    ensures
        r@ == "  address "@ + hex_of(address@),
{
    let mut r = "  address ".to_owned();
    r.append(encode_hex(address).as_str());
    r
}

/// The line of a sweep over versions: whether the leaf and the blob are there, and how long the blob
/// is.
pub open spec fn sweep_text(version: u64, leaf: bool, blob: Option<usize>) -> Seq<char> {
    let head = "    v="@ + padded(decimal(version as nat), 8) + " leaf="@ + padded(
        if leaf {
            "PRESENT"@
        } else {
            "absent"@
        },
        7,
    ) + " blob="@;
    match blob {
        Some(len) => head + "PRESENT len="@ + decimal(len as nat),
        None => head + "absent"@,
    }
}

/// The line of a sweep over versions.
pub fn sweep_line(version: u64, leaf: bool, blob: Option<usize>) -> (r: String)
    ensures
        r@ == sweep_text(version, leaf, blob),
{
    let mut number = String::new();
    push_decimal(&mut number, version);
    assert(number@ =~= decimal(version as nat));
    let mut r = "    v=".to_owned();
    push_padded(&mut r, number.as_str(), 8);
    r.append(" leaf=");
    if leaf {
        push_padded(&mut r, "PRESENT", 7);
    } else {
        push_padded(&mut r, "absent", 7);
    }
    r.append(" blob=");
    match blob {
        Some(len) => {
            r.append("PRESENT len=");
            push_decimal(&mut r, len as u64);
        },
        None => {
            r.append("absent");
        },
    }
    r
}

/// What a vertex blob decodes to.
#[derive(Clone, Debug, PartialEq, Eq)]
pub enum DecodedVertex {
    EmptyTree,
    Undecodable(String),
    /// A record: its class where it is known, and the fields that a prover's record has.
    Record {
        class: Option<String>,
        public_key: Option<Vec<u8>>,
        status: Option<Vec<u8>>,
        seniority: Option<Vec<u8>>,
    },
}

/// `find` may answer `value` for the leaf at `key`.
pub open spec fn may_find<F: Fn(&[u8]) -> Option<Vec<u8>>>(
    find: F,
    key: Seq<u8>,
    value: Option<Vec<u8>>,
) -> bool {
    exists|given: &[u8]| #[trigger] call_ensures(find, (given,), value) && given@ == key
}

/// `class` is the class that the leaf at the type-hash key names, where there is such a leaf and its
/// hash is that of a class.
pub open spec fn is_class_of<
    F: Fn(&[u8]) -> Option<Vec<u8>>,
    H: Fn(&[u8]) -> Option<String>,
>(find: F, class_for: H, class: Option<String>) -> bool {
    exists|hash: Option<Vec<u8>>| #[trigger]
        may_find(find, TYPE_HASH_KEY@, hash) && match hash {
            Some(hash) => exists|given: &[u8]| #[trigger]
                call_ensures(class_for, (given,), class) && given@ == hash@,
            None => class is None,
        }
}

/// `value` is what the leaf at the key of a prover's field holds, where the field has a key.
pub open spec fn is_field_of<
    F: Fn(&[u8]) -> Option<Vec<u8>>,
    L: Fn(&str, &str) -> Option<Vec<u8>>,
>(find: F, field_key: L, name: &str, value: Option<Vec<u8>>) -> bool {
    exists|key: Option<Vec<u8>>| #[trigger]
        call_ensures(field_key, (PROVER_CLASS, name), key) && match key {
            Some(key) => may_find(find, key@, value),
            None => value is None,
        }
}

fn find_field<F: Fn(&[u8]) -> Option<Vec<u8>>, L: Fn(&str, &str) -> Option<Vec<u8>>>(
    find: &F,
    field_key: &L,
    name: &str,
) -> (r: Option<Vec<u8>>)
    requires
        forall|key: &[u8]| call_requires(*find, (key,)),
        forall|class: &str, field: &str| call_requires(*field_key, (class, field)),
    ensures
        is_field_of(*find, *field_key, name, r),
{
    match field_key(PROVER_CLASS, name) {
        Some(key) => {
            let value = find(key.as_slice());
            assert(may_find(*find, key@, value));
            value
        },
        None => None,
    }
}

/// Reads a record off the leaves of a vertex's tree: its class, and, of a prover's record, the fields
/// that describe it.
///
/// - `find`: the value of a leaf of the tree.
/// - `class_for`: the class with a type hash.
/// - `field_key`: the key of a field of a class.
pub fn read_record<
    F: Fn(&[u8]) -> Option<Vec<u8>>,
    H: Fn(&[u8]) -> Option<String>,
    L: Fn(&str, &str) -> Option<Vec<u8>>,
>(find: F, class_for: H, field_key: L) -> (r: DecodedVertex)
    requires
        forall|key: &[u8]| call_requires(find, (key,)),
        forall|hash: &[u8]| call_requires(class_for, (hash,)),
        forall|class: &str, field: &str| call_requires(field_key, (class, field)),
    ensures
        r matches DecodedVertex::Record { class, public_key, status, seniority } && {
            &&& is_class_of(find, class_for, class)
            &&& if class_text(class) == PROVER_CLASS@ {
                &&& is_field_of(find, field_key, PUBLIC_KEY_FIELD, public_key)
                &&& is_field_of(find, field_key, STATUS_FIELD, status)
                &&& is_field_of(find, field_key, SENIORITY_FIELD, seniority)
            } else {
                public_key is None && status is None && seniority is None
            }
        },
{
    let hash = find(&TYPE_HASH_KEY);
    assert(may_find(find, TYPE_HASH_KEY@, hash));
    let class: Option<String> = match &hash {
        Some(hash) => {
            let class = class_for(hash.as_slice());
            class
        },
        None => None,
    };
    let is_prover: bool = match &class {
        Some(name) => same_text(name.as_str(), PROVER_CLASS),
        None => false,
    };
    if is_prover {
        DecodedVertex::Record {
            class,
            public_key: find_field(&find, &field_key, PUBLIC_KEY_FIELD),
            status: find_field(&find, &field_key, STATUS_FIELD),
            seniority: find_field(&find, &field_key, SENIORITY_FIELD),
        }
    } else {
        assert(class_text(class) != PROVER_CLASS@) by {
            reveal_strlit("<unknown class>");
            reveal_strlit("prover:Prover");
            assert(PROVER_CLASS@ == "prover:Prover"@);
            assert("<unknown class>"@.len() != "prover:Prover"@.len());
        }
        DecodedVertex::Record { class, public_key: None, status: None, seniority: None }
    }
}

/// The number that bytes stand for, the most significant one first.
pub open spec fn big_endian(data: Seq<u8>) -> nat
    decreases data.len(),
{
    if data.len() == 0 {
        0
    } else {
        256 * big_endian(data.drop_last()) + data.last() as nat
    }
}

/// How many numbers fit in `n` bytes.
spec fn byte_range(n: nat) -> nat
    decreases n,
{
    if n == 0 {
        1
    } else {
        256 * byte_range((n - 1) as nat)
    }
}

proof fn lemma_big_endian_fits(data: Seq<u8>)
    ensures
        big_endian(data) < byte_range(data.len()),
    decreases data.len(),
{
    if data.len() > 0 {
        lemma_big_endian_fits(data.drop_last());
    }
}

/// The last eight bytes of a field, or all of them where there are fewer.
pub open spec fn last_eight(data: Seq<u8>) -> Seq<u8> {
    if data.len() <= 8 {
        data
    } else {
        data.skip(data.len() - 8)
    }
}

/// The seniority that a field holds: its last eight bytes as a number.
pub fn seniority_of(data: &[u8]) -> (r: u64)
    ensures
        r == big_endian(last_eight(data@)),
{
    let from: usize = if data.len() <= 8 {
        0
    } else {
        data.len() - 8
    };
    let ghost tail = last_eight(data@);
    let mut value: u64 = 0;
    let mut i: usize = from;
    while i < data.len()
        invariant
            tail == last_eight(data@),
            from == (if data@.len() <= 8 {
                0
            } else {
                data@.len() - 8
            }),
            from <= i <= data@.len(),
            value == big_endian(tail.take(i - from)),
        decreases data@.len() - i,
    {
        proof {
            let done = tail.take(i - from);
            let next = tail.take(i + 1 - from);
            assert(next.drop_last() =~= done);
            assert(next.last() == data@[i as int]);
            lemma_big_endian_fits(next);
            reveal_with_fuel(byte_range, 9);
            assert(next.len() <= 8);
            assert(byte_range(next.len()) <= u64::MAX + 1);
        }
        value = value * 256 + data[i] as u64;
        i += 1;
    }
    assert(tail.take(i - from) =~= tail);
    value
}

/// A number that may be missing, as it is shown for inspection.
pub open spec fn optional_number(n: Option<nat>) -> Seq<char> {
    match n {
        Some(n) => "Some("@ + decimal(n) + ")"@,
        None => "None"@,
    }
}

fn push_optional_number(line: &mut String, n: Option<u64>)
    ensures
        final(line)@ == old(line)@ + optional_number(
            match n {
                Some(n) => Some(n as nat),
                None => None,
            },
        ),
{
    match n {
        Some(n) => {
            line.append("Some(");
            push_decimal(line, n);
            line.append(")");
            assert(line@ =~= old(line)@ + ("Some("@ + decimal(n as nat) + ")"@));
        },
        None => {
            line.append("None");
        },
    }
}

/// The first byte of a field.
pub open spec fn first_byte(field: Seq<u8>) -> Option<nat> {
    if field.len() > 0 {
        Some(field[0] as nat)
    } else {
        None
    }
}

/// The line on the fields of a prover's record: how long its key is, the first byte of its status,
/// and its seniority. No byte of the key is shown.
pub open spec fn prover_text(
    public_key: Option<Seq<u8>>,
    status: Option<Seq<u8>>,
    seniority: Option<Seq<u8>>,
) -> Seq<char> {
    "      public_key_len="@ + decimal(
        match public_key {
            Some(key) => key.len(),
            None => 0,
        },
    ) + " status="@ + (match status {
        Some(field) => "Some("@ + optional_number(first_byte(field)) + ")"@,
        None => "None"@,
    }) + " seniority="@ + optional_number(
        match seniority {
            Some(field) => Some(big_endian(last_eight(field))),
            None => None,
        },
    )
}

/// What the logic sees of a field.
pub open spec fn field_view(field: Option<Vec<u8>>) -> Option<Seq<u8>> {
    match field {
        Some(data) => Some(data@),
        None => None,
    }
}

fn prover_line(
    public_key: &Option<Vec<u8>>,
    status: &Option<Vec<u8>>,
    seniority: &Option<Vec<u8>>,
) -> (r: String)
    ensures
        r@ == prover_text(field_view(*public_key), field_view(*status), field_view(*seniority)),
{
    let mut r = "      public_key_len=".to_owned();
    let key_len: u64 = match public_key {
        Some(key) => key.len() as u64,
        None => 0,
    };
    push_decimal(&mut r, key_len);
    r.append(" status=");
    let ghost before = r@;
    match status {
        Some(field) => {
            r.append("Some(");
            if field.len() > 0 {
                push_optional_number(&mut r, Some(field[0] as u64));
            } else {
                push_optional_number(&mut r, None);
            }
            r.append(")");
            assert(r@ =~= before + ("Some("@ + optional_number(first_byte(field@)) + ")"@));
        },
        None => {
            r.append("None");
        },
    }
    r.append(" seniority=");
    match seniority {
        Some(field) => {
            push_optional_number(&mut r, Some(seniority_of(field.as_slice())));
        },
        None => {
            push_optional_number(&mut r, None);
        },
    }
    r
}

/// The class of a record as it is shown.
pub open spec fn class_text(class: Option<String>) -> Seq<char> {
    match class {
        Some(name) => name@,
        None => "<unknown class>"@,
    }
}

/// The lines that describe what a vertex blob decodes to: what class of record it is, and, of a
/// prover's record, whether it carries a usable key.
pub open spec fn vertex_text(vertex: DecodedVertex) -> Seq<Seq<char>> {
    match vertex {
        DecodedVertex::EmptyTree => seq!["      (empty tree)"@],
        DecodedVertex::Undecodable(why) => seq!["      (undecodable: "@ + why@ + ")"@],
        DecodedVertex::Record { class, public_key, status, seniority } => {
            let first = "      class="@ + class_text(class);
            if class_text(class) == PROVER_CLASS@ {
                seq![
                    first,
                    prover_text(field_view(public_key), field_view(status), field_view(seniority)),
                ]
            } else {
                seq![first]
            }
        },
    }
}

/// The lines that describe what a vertex blob decodes to.
pub fn describe_vertex(vertex: &DecodedVertex) -> (r: Vec<String>)
    ensures
        text_views(r@) == vertex_text(*vertex),
{
    let mut r: Vec<String> = Vec::new();
    match vertex {
        DecodedVertex::EmptyTree => {
            r.push("      (empty tree)".to_owned());
        },
        DecodedVertex::Undecodable(why) => {
            let mut line = "      (undecodable: ".to_owned();
            line.append(why.as_str());
            line.append(")");
            r.push(line);
        },
        DecodedVertex::Record { class, public_key, status, seniority } => {
            let shown: &str = match class {
                Some(name) => name.as_str(),
                None => "<unknown class>",
            };
            let mut line = "      class=".to_owned();
            line.append(shown);
            r.push(line);
            if same_text(shown, PROVER_CLASS) {
                r.push(prover_line(public_key, status, seniority));
            }
        },
    }
    assert(text_views(r@) =~= vertex_text(*vertex));
    r
}

/// An archive is asked about an address only where it has a tree, and at the version of that tree;
/// the one question that is not pinned is the one for the latest blob.
pub proof fn law_queries_are_pinned_to_known_trees(heads: Seq<Option<u64>>, i: int)
    requires
        heads.len() == 4,
        0 <= i < queries_of(heads).len(),
    ensures
        queries_of(heads)[i].wf(),
        match queries_of(heads)[i] {
            ProbeQuery::Leaf { phase, version } => heads[phase as int] == Some(version),
            ProbeQuery::PinnedBlob { version } => heads[0] == Some(version),
            ProbeQuery::LatestBlob => heads[0] is Some,
        },
{
    reveal_with_fuel(leaf_queries, 5);
}

/// Every tree that an archive has is asked for the leaf.
pub proof fn law_every_tree_is_asked(heads: Seq<Option<u64>>, phase: u32)
    requires
        heads.len() == 4,
        phase < 4,
        heads[phase as int] is Some,
    ensures
        queries_of(heads).contains(
            ProbeQuery::Leaf { phase, version: heads[phase as int]->0 },
        ),
{
    let asked = ProbeQuery::Leaf { phase, version: heads[phase as int]->0 };
    lemma_leaf_asked(heads, phase, 4);
    let leaves = leaf_queries(heads, 4);
    let k = leaves.index_of(asked);
    assert(queries_of(heads)[k] == asked);
}

proof fn lemma_leaf_asked(heads: Seq<Option<u64>>, phase: u32, n: nat)
    requires
        phase < n <= 4,
        heads[phase as int] is Some,
    ensures
        leaf_queries(heads, n).contains(
            ProbeQuery::Leaf { phase, version: heads[phase as int]->0 },
        ),
    decreases n,
{
    let asked = ProbeQuery::Leaf { phase, version: heads[phase as int]->0 };
    let before = leaf_queries(heads, (n - 1) as nat);
    if phase == n - 1 {
        assert(leaf_queries(heads, n)[before.len() as int] == asked);
    } else {
        lemma_leaf_asked(heads, phase, (n - 1) as nat);
        let k = before.index_of(asked);
        assert(leaf_queries(heads, n)[k] == asked);
    }
}

/// A prover's vertex id is sixty-four bytes long, and two addresses never share one.
pub proof fn law_vertex_ids_are_distinct(a: Seq<u8>, b: Seq<u8>)
    requires
        a.len() == 32,
        b.len() == 32,
    ensures
        (PROVER_SHARD_L2@ + a).len() == 64,
        PROVER_SHARD_L2@ + a == PROVER_SHARD_L2@ + b ==> a == b,
{
    if PROVER_SHARD_L2@ + a == PROVER_SHARD_L2@ + b {
        assert((PROVER_SHARD_L2@ + a).skip(32) =~= a);
        assert((PROVER_SHARD_L2@ + b).skip(32) =~= b);
    }
}

/// What stands before the last eight bytes of the field does not count towards the seniority.
pub proof fn law_seniority_ignores_leading_bytes(front: Seq<u8>, data: Seq<u8>)
    requires
        data.len() >= 8,
    ensures
        big_endian(last_eight(front + data)) == big_endian(last_eight(data)),
{
    assert(last_eight(front + data) =~= last_eight(data));
}

/// The line on a prover's record tells nothing of the key but its length.
pub proof fn law_no_key_byte_is_shown(
    key: Seq<u8>,
    other: Seq<u8>,
    status: Option<Seq<u8>>,
    seniority: Option<Seq<u8>>,
)
    requires
        key.len() == other.len(),
    ensures
        prover_text(Some(key), status, seniority) == prover_text(Some(other), status, seniority),
{
}

/// Whenever the first phase has a tree, whatever the other phases have, the questions end with the
/// blob at the version of that tree and, after it, the latest blob; without that tree no blob is asked
/// for.
pub proof fn law_the_first_tree_brings_the_blob_questions(heads: Seq<Option<u64>>, version: u64)
    requires
        heads.len() == 4,
    ensures
        heads[0] == Some(version) ==> {
            let asked = queries_of(heads);
            &&& asked.len() >= 3
            &&& asked[0] == (ProbeQuery::Leaf { phase: 0, version })
            &&& asked[asked.len() - 2] == (ProbeQuery::PinnedBlob { version })
            &&& asked[asked.len() - 1] == ProbeQuery::LatestBlob
        },
        heads[0] is None ==> forall|i: int|
            0 <= i < queries_of(heads).len() ==> (#[trigger] queries_of(heads)[i]) is Leaf,
{
    reveal_with_fuel(leaf_queries, 5);
}

/// The questions about one address, for every choice of trees: the leaves in the order of the phases,
/// one for each tree and none for a missing one, then the two blobs.
pub proof fn law_questions_follow_the_trees(
    vertex_adds: Option<u64>,
    vertex_removes: Option<u64>,
    hyperedge_adds: Option<u64>,
    hyperedge_removes: Option<u64>,
)
    ensures
        queries_of(seq![vertex_adds, vertex_removes, hyperedge_adds, hyperedge_removes]) == (
        match vertex_adds {
            Some(version) => seq![ProbeQuery::Leaf { phase: 0, version }],
            None => seq![],
        }) + (match vertex_removes {
            Some(version) => seq![ProbeQuery::Leaf { phase: 1, version }],
            None => seq![],
        }) + (match hyperedge_adds {
            Some(version) => seq![ProbeQuery::Leaf { phase: 2, version }],
            None => seq![],
        }) + (match hyperedge_removes {
            Some(version) => seq![ProbeQuery::Leaf { phase: 3, version }],
            None => seq![],
        }) + (match vertex_adds {
            Some(version) => seq![ProbeQuery::PinnedBlob { version }, ProbeQuery::LatestBlob],
            None => seq![],
        }),
{
    reveal_with_fuel(leaf_queries, 5);
}

/// A question is asked at the version that it holds, and the one for the latest blob at zero. A leaf
/// is asked for in one of four phases.
pub proof fn law_questions_read_as_written(phase: u32, version: u64)
    ensures
        (ProbeQuery::Leaf { phase, version }).at_version() == version,
        (ProbeQuery::PinnedBlob { version }).at_version() == version,
        ProbeQuery::LatestBlob.at_version() == 0,
        (ProbeQuery::Leaf { phase, version }).wf() <==> phase < 4,
        (ProbeQuery::PinnedBlob { version }).wf(),
        ProbeQuery::LatestBlob.wf(),
{
}

/// The entries of a list are those of its first part and then those of its second, and an entry is
/// what stands between two commas, trimmed, unless nothing is left of it.
pub proof fn law_entries_are_the_parts_that_are_not_blank(
    front: Seq<Seq<char>>,
    back: Seq<Seq<char>>,
    part: Seq<char>,
)
    ensures
        entries_of(front + back) == entries_of(front) + entries_of(back),
        entries_of(seq![part]) == (if trimmed(part).len() > 0 {
            seq![trimmed(part)]
        } else {
            seq![]
        }),
        entries_of(seq![]) == Seq::<Seq<char>>::empty(),
    decreases back.len(),
{
    reveal_with_fuel(entries_of, 2);
    assert(seq![part].drop_last() =~= seq![]);
    if back.len() == 0 {
        assert(front + back =~= front);
        assert(entries_of(front + back) =~= entries_of(front) + entries_of(back));
    } else {
        law_entries_are_the_parts_that_are_not_blank(front, back.drop_last(), part);
        assert((front + back).drop_last() =~= front + back.drop_last());
        assert((front + back).last() == back.last());
        assert(entries_of(front + back) =~= entries_of(front) + entries_of(back));
    }
}

/// The versions of a list are those of its first part and then those of its second, and a part gives
/// its number, trimmed, unless it is none.
pub proof fn law_versions_are_the_parts_that_are_numbers(
    front: Seq<Seq<char>>,
    back: Seq<Seq<char>>,
    part: Seq<char>,
)
    ensures
        numbers_of(front + back) == numbers_of(front) + numbers_of(back),
        numbers_of(seq![part]) == (match unsigned_value(trimmed(part), 0xffff_ffff_ffff_ffff) {
            Some(n) => seq![n],
            None => seq![],
        }),
        numbers_of(seq![]) == Seq::<u64>::empty(),
    decreases back.len(),
{
    reveal_with_fuel(numbers_of, 2);
    assert(seq![part].drop_last() =~= seq![]);
    if back.len() == 0 {
        assert(front + back =~= front);
        assert(numbers_of(front + back) =~= numbers_of(front) + numbers_of(back));
    } else {
        law_versions_are_the_parts_that_are_numbers(front, back.drop_last(), part);
        assert((front + back).drop_last() =~= front + back.drop_last());
        assert((front + back).last() == back.last());
        assert(numbers_of(front + back) =~= numbers_of(front) + numbers_of(back));
    }
}

/// An entry is an address where it is sixty-four hexadecimal digits, and is then the thirty-two bytes
/// that they stand for. Of the others one of odd length is refused for that, one with a wrong character
/// for the first of these, and what is left for its length; each refusal names the entry.
pub proof fn law_an_address_is_sixty_four_digits(
    entry: Seq<char>,
    outcome: Result<Seq<u8>, ProbeArgFaultView>,
    k: usize,
)
    requires
        is_address(entry, outcome),
    ensures
        ({
            let text = encode_utf8(entry);
            let digits = forall|i: int|
                0 <= i < text.len() ==> hex_digit_value(#[trigger] text[i]) is Some;
            &&& outcome is Ok <==> text.len() == 64 && digits
            &&& outcome matches Ok(address) ==> address.len() == 32 && forall|i: int|
                0 <= i < 32 ==> #[trigger] address[i] == 16 * hex_digit_value(text[2 * i])->0
                    + hex_digit_value(text[2 * i + 1])->0
            &&& text.len() % 2 == 1 ==> outcome == Err::<Seq<u8>, _>(
                ProbeArgFaultView::BadHex { address: entry, fault: HexFault::OddLength },
            )
            &&& text.len() % 2 == 0 && k < text.len() && hex_digit_value(text[k as int]) is None && (
            forall|i: int| 0 <= i < k ==> hex_digit_value(#[trigger] text[i]) is Some)
                ==> outcome == Err::<Seq<u8>, _>(
                ProbeArgFaultView::BadHex {
                    address: entry,
                    fault: HexFault::InvalidHexCharacter { c: text[k as int] as char, index: k },
                },
            )
            &&& text.len() % 2 == 0 && text.len() != 64 && digits ==> outcome == Err::<Seq<u8>, _>(
                ProbeArgFaultView::WrongLength { address: entry },
            )
        }),
{
    let text = encode_utf8(entry);
    match outcome {
        Ok(address) => {
            assert forall|i: int| 0 <= i < 32 implies #[trigger] address[i] == 16
                * hex_digit_value(text[2 * i])->0 + hex_digit_value(text[2 * i + 1])->0 by {
                assert(hex_digit_value(text[2 * i]) is Some);
                assert(hex_digit_value(text[2 * i + 1]) is Some);
            }
        },
        Err(ProbeArgFaultView::BadHex { address, fault }) => {
            if let HexFault::InvalidHexCharacter { c, index } = fault {
                assert(hex_digit_value(text[index as int]) is None);
                if k < text.len() && hex_digit_value(text[k as int]) is None && (forall|i: int|
                    0 <= i < k ==> hex_digit_value(#[trigger] text[i]) is Some) {
                    if k < index {
                        assert(text.take(index as int)[k as int] == text[k as int]);
                    }
                    assert(k == index);
                }
            }
        },
        Err(_) => {},
    }
}

/// A list of addresses is read where every entry is sixty-four hexadecimal digits, and gives one
/// address for each entry, in order; else it is refused for the first entry that is not.
pub proof fn law_a_list_of_addresses_is_read_in_order(
    entries: Seq<Seq<char>>,
    outcome: Result<Seq<Seq<u8>>, ProbeArgFaultView>,
    k: int,
)
    requires
        are_addresses(entries, outcome),
    ensures
        (forall|i: int|
            0 <= i < entries.len() ==> encode_utf8(#[trigger] entries[i]).len() == 64
                && all_hex_digits(encode_utf8(entries[i]))) <==> outcome is Ok,
        outcome matches Ok(addresses) ==> addresses.len() == entries.len() && forall|i: int|
            0 <= i < entries.len() ==> #[trigger] addresses[i] == hex_value(
                encode_utf8(entries[i]),
            ),
        0 <= k < entries.len() && !(encode_utf8(entries[k]).len() == 64 && all_hex_digits(
            encode_utf8(entries[k]),
        )) && (forall|i: int|
            0 <= i < k ==> encode_utf8(#[trigger] entries[i]).len() == 64 && all_hex_digits(
                encode_utf8(entries[i]),
            )) ==> (outcome matches Err(fault) && is_address(entries[k], Err(fault))),
{
    match outcome {
        Ok(addresses) => {
            assert forall|i: int| 0 <= i < entries.len() implies #[trigger] addresses[i]
                == hex_value(encode_utf8(entries[i])) && encode_utf8(entries[i]).len() == 64
                && all_hex_digits(encode_utf8(entries[i])) by {
                assert(is_address(entries[i], Ok(addresses[i])));
            }
            assert forall|i: int| 0 <= i < entries.len() implies encode_utf8(
                #[trigger] entries[i],
            ).len() == 64 && all_hex_digits(encode_utf8(entries[i])) by {
                assert(is_address(entries[i], Ok(addresses[i])));
            }
        },
        Err(fault) => {
            let at = choose|j: int|
                0 <= j < entries.len() && #[trigger] is_address(entries[j], Err(fault)) && forall|
                    i: int,
                |
                    0 <= i < j ==> names_address(#[trigger] entries[i]);
            law_an_address_is_sixty_four_digits(entries[at], Err(fault), 0);
            assert(!names_address(entries[at]));
            if k < at && 0 <= k {
                assert(names_address(entries[k]));
            }
        },
    }
}

/// A refusal reads as it is written.
pub proof fn law_refusals_read_as_written(address: String, fault: HexFault)
    ensures
        (ProbeArgFault::BadHex { address, fault })@ == (ProbeArgFaultView::BadHex {
            address: address@,
            fault,
        }),
        (ProbeArgFault::WrongLength { address })@ == (ProbeArgFaultView::WrongLength {
            address: address@,
        }),
        ProbeArgFault::NoPeers@ == ProbeArgFaultView::NoPeers,
        ProbeArgFault::NoAddresses@ == ProbeArgFaultView::NoAddresses,
{
}

/// A list of addresses is seen address by address, and a field as its bytes.
pub proof fn law_addresses_and_fields_are_seen_whole(addresses: Seq<Vec<u8>>, data: Vec<u8>)
    ensures
        address_views(addresses).len() == addresses.len(),
        forall|i: int|
            0 <= i < addresses.len() ==> #[trigger] address_views(addresses)[i] == addresses[i]@,
        field_view(Some(data)) == Some(data@),
        field_view(None) is None,
{
}

/// A number in bytes is worth a place of 256 more with every byte that follows.
pub proof fn law_bytes_are_worth_256_times_the_next(data: Seq<u8>, next: u8)
    ensures
        big_endian(seq![]) == 0,
        big_endian(data.push(next)) == 256 * big_endian(data) + next,
{
    assert(data.push(next).drop_last() =~= data);
}

/// The bytes that count towards the seniority: all of them, up to eight, and else the last eight.
pub proof fn law_eight_bytes_count(front: Seq<u8>, data: Seq<u8>)
    ensures
        data.len() <= 8 ==> last_eight(data) == data,
        data.len() == 8 ==> last_eight(front + data) == data,
{
    if data.len() == 8 {
        assert(last_eight(front + data) =~= data);
    }
}

/// The names of the four phases, and what the two shard constants and the type-hash key hold.
pub proof fn law_names_and_keys_of_the_prover_shard()
    ensures
        phase_text(0) == "vertex.adds"@,
        phase_text(1) == "vertex.removes"@,
        phase_text(2) == "hyperedge.adds"@,
        phase_text(3) == "hyperedge.removes"@,
        PROVER_SHARD_L1@ == seq![0u8, 0u8, 0u8],
        PROVER_SHARD_L2@.len() == 32,
        forall|i: int| 0 <= i < 32 ==> #[trigger] PROVER_SHARD_L2@[i] == 0xff,
        TYPE_HASH_KEY@.len() == 32,
        forall|i: int| 0 <= i < 32 ==> #[trigger] TYPE_HASH_KEY@[i] == 0xff,
        PROVER_CLASS@ == "prover:Prover"@,
        PUBLIC_KEY_FIELD@ == "PublicKey"@,
        STATUS_FIELD@ == "Status"@,
        SENIORITY_FIELD@ == "Seniority"@,
{
    assert(PROVER_SHARD_L1@ =~= seq![0u8, 0u8, 0u8]);
}

/// The line on an answer: what was asked, padded, then the value of a leaf or the length of a blob
/// where the archive has it, and else that it is absent or why the question failed.
pub proof fn law_answers_are_reported_in_full(
    phase: u32,
    version: u64,
    data: Vec<u8>,
    why: String,
)
    ensures
        ({
            let leaf = ProbeQuery::Leaf { phase, version };
            let head = "    leaf "@ + padded(phase_text(phase as int), 18);
            &&& reply_text(leaf, ProbeReply::Present(data)) == head + " PRESENT  value="@ + hex_of(
                data@,
            )
            &&& reply_text(leaf, ProbeReply::Absent) == head + " absent"@
            &&& reply_text(leaf, ProbeReply::Failed(why)) == head + " error: "@ + why@
        }),
        ({
            let blob = ProbeQuery::PinnedBlob { version };
            let head = "    blob  "@ + padded("pinned"@, 18);
            &&& reply_text(blob, ProbeReply::Present(data)) == head + " PRESENT  len="@ + decimal(
                data@.len(),
            )
            &&& reply_text(blob, ProbeReply::Absent) == head + " absent"@
            &&& reply_text(blob, ProbeReply::Failed(why)) == head + " error: "@ + why@
        }),
        ({
            let blob = ProbeQuery::LatestBlob;
            let head = "    blob  "@ + padded("latest"@, 18);
            &&& reply_text(blob, ProbeReply::Present(data)) == head + " PRESENT  len="@ + decimal(
                data@.len(),
            )
            &&& reply_text(blob, ProbeReply::Absent) == head + " absent"@
            &&& reply_text(blob, ProbeReply::Failed(why)) == head + " error: "@ + why@
        }),
{
}

/// The line of a sweep, for each of the four combinations of leaf and blob.
pub proof fn law_sweeps_report_leaf_and_blob(version: u64, len: usize)
    ensures
        ({
            let head = "    v="@ + padded(decimal(version as nat), 8) + " leaf="@;
            &&& sweep_text(version, true, Some(len)) == head + padded("PRESENT"@, 7) + " blob="@
                + "PRESENT len="@ + decimal(len as nat)
            &&& sweep_text(version, true, None) == head + padded("PRESENT"@, 7) + " blob="@
                + "absent"@
            &&& sweep_text(version, false, Some(len)) == head + padded("absent"@, 7) + " blob="@
                + "PRESENT len="@ + decimal(len as nat)
            &&& sweep_text(version, false, None) == head + padded("absent"@, 7) + " blob="@
                + "absent"@
        }),
{
}

/// The line on a prover's record, field by field: a missing key counts as an empty one, a missing
/// status and an empty one are told apart, and the seniority is a number.
pub proof fn law_a_provers_fields_are_shown(
    public_key: Option<Seq<u8>>,
    status: Option<Seq<u8>>,
    seniority: Option<Seq<u8>>,
)
    ensures
        ({
            let key_len = if public_key is Some {
                public_key->0.len()
            } else {
                0
            };
            let shown_status = if status is None {
                "None"@
            } else if status->0.len() == 0 {
                "Some("@ + "None"@ + ")"@
            } else {
                "Some("@ + ("Some("@ + decimal(status->0[0] as nat) + ")"@) + ")"@
            };
            let shown_seniority = if seniority is None {
                "None"@
            } else if seniority->0.len() <= 8 {
                "Some("@ + decimal(big_endian(seniority->0)) + ")"@
            } else {
                "Some("@ + decimal(
                    big_endian(
                        seniority->0.subrange(
                            seniority->0.len() - 8,
                            seniority->0.len() as int,
                        ),
                    ),
                ) + ")"@
            };
            prover_text(public_key, status, seniority) == "      public_key_len="@ + decimal(
                key_len,
            ) + " status="@ + shown_status + " seniority="@ + shown_seniority
        }),
{
    if let Some(field) = seniority {
        if field.len() > 8 {
            assert(last_eight(field) =~= field.subrange(field.len() - 8, field.len() as int));
        }
    }
}

/// The lines on a vertex: one that names the class, or says that there is none or that the blob cannot
/// be read; and a second one for a prover's record, and for no other.
pub proof fn law_vertices_are_described(
    name: String,
    why: String,
    public_key: Option<Vec<u8>>,
    status: Option<Vec<u8>>,
    seniority: Option<Vec<u8>>,
)
    ensures
        vertex_text(DecodedVertex::EmptyTree) == seq!["      (empty tree)"@],
        vertex_text(DecodedVertex::Undecodable(why)) == seq![
            "      (undecodable: "@ + why@ + ")"@,
        ],
        vertex_text(DecodedVertex::Record { class: None, public_key, status, seniority }) == seq![
            "      class="@ + "<unknown class>"@,
        ],
        name@ != "prover:Prover"@ ==> vertex_text(
            DecodedVertex::Record { class: Some(name), public_key, status, seniority },
        ) == seq!["      class="@ + name@],
        name@ == "prover:Prover"@ ==> vertex_text(
            DecodedVertex::Record { class: Some(name), public_key, status, seniority },
        ) == seq![
            "      class="@ + "prover:Prover"@,
            prover_text(field_view(public_key), field_view(status), field_view(seniority)),
        ],
        class_text(Some(name)) == name@,
        class_text(None) == "<unknown class>"@,
{
    reveal_strlit("<unknown class>");
    reveal_strlit("prover:Prover");
    assert("<unknown class>"@.len() != "prover:Prover"@.len());
}

/// A record is read off the leaves of its tree. Where the lookups answer from a tree, from a table of
/// class hashes and from a table of field keys, the class is the one whose hash the leaf under the
/// all-ones key holds, and each field of a prover's record is what the leaf at the field's own key
/// holds.
pub proof fn law_records_are_read_off_their_leaves<
    F: Fn(&[u8]) -> Option<Vec<u8>>,
    H: Fn(&[u8]) -> Option<String>,
    L: Fn(&str, &str) -> Option<Vec<u8>>,
>(
    find: F,
    class_for: H,
    field_key: L,
    leaves: Map<Seq<u8>, Seq<u8>>,
    classes: Map<Seq<u8>, Seq<char>>,
    keys: Map<(Seq<char>, Seq<char>), Seq<u8>>,
    class: Option<String>,
    name: &str,
    value: Option<Vec<u8>>,
)
    requires
        forall|given: &[u8], found: Option<Vec<u8>>| #[trigger]
            call_ensures(find, (given,), found) ==> (match found {
                Some(data) => leaves.contains_key(given@) && leaves[given@] == data@,
                None => !leaves.contains_key(given@),
            }),
        forall|given: &[u8], found: Option<String>| #[trigger]
            call_ensures(class_for, (given,), found) ==> (match found {
                Some(text) => classes.contains_key(given@) && classes[given@] == text@,
                None => !classes.contains_key(given@),
            }),
        forall|of: &str, field: &str, found: Option<Vec<u8>>| #[trigger]
            call_ensures(field_key, (of, field), found) ==> (match found {
                Some(key) => keys.contains_key((of@, field@)) && keys[(of@, field@)] == key@,
                None => !keys.contains_key((of@, field@)),
            }),
        is_class_of(find, class_for, class),
        is_field_of(find, field_key, name, value),
    ensures
        ({
            let top = Seq::new(32, |i: int| 0xffu8);
            let known = leaves.contains_key(top) && classes.contains_key(leaves[top]);
            &&& class is Some <==> known
            &&& class matches Some(text) ==> text@ == classes[leaves[top]]
        }),
        ({
            let at = ("prover:Prover"@, name@);
            let held = keys.contains_key(at) && leaves.contains_key(keys[at]);
            &&& value is Some <==> held
            &&& value matches Some(data) ==> data@ == leaves[keys[at]]
        }),
{
    let top = Seq::new(32, |i: int| 0xffu8);
    assert(TYPE_HASH_KEY@ =~= top);
    let hash = choose|hash: Option<Vec<u8>>| #[trigger]
        may_find(find, TYPE_HASH_KEY@, hash) && match hash {
            Some(hash) => exists|given: &[u8]| #[trigger]
                call_ensures(class_for, (given,), class) && given@ == hash@,
            None => class is None,
        };
    assert(may_find(find, top, hash));
}

} // verus!
