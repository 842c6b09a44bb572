//! Byte strings: prefixes, and the order in which keys are kept.

use vstd::prelude::*;

verus! {

/// `a` comes before `b` in byte-wise lexicographic order.
pub open spec fn lex_lt(a: Seq<u8>, b: Seq<u8>) -> bool
    decreases a.len(),
{
    if b.len() == 0 {
        false
    } else if a.len() == 0 {
        true
    } else {
        a[0] < b[0] || (a[0] == b[0] && lex_lt(a.drop_first(), b.drop_first()))
    }
}

/// The entries of `keys` stand in strictly ascending order, so none occurs twice.
pub open spec fn strictly_ascending(keys: Seq<Seq<u8>>) -> bool {
    forall|i: int, j: int| 0 <= i < j < keys.len() ==> lex_lt(#[trigger] keys[i], #[trigger] keys[j])
}

/// No byte string comes before itself.
pub proof fn lemma_lex_irreflexive(a: Seq<u8>)
    ensures
        !lex_lt(a, a),
    decreases a.len(),
{
    if a.len() > 0 {
        lemma_lex_irreflexive(a.drop_first());
    }
}

/// The order is transitive.
pub proof fn lemma_lex_transitive(a: Seq<u8>, b: Seq<u8>, c: Seq<u8>)
    requires
        lex_lt(a, b),
        lex_lt(b, c),
    ensures
        lex_lt(a, c),
    decreases a.len(),
{
    if a.len() > 0 && a[0] == b[0] && b[0] == c[0] {
        lemma_lex_transitive(a.drop_first(), b.drop_first(), c.drop_first());
    }
}

/// A prefix of a key never comes after the key, and a key that comes after the prefix but does
/// not carry it comes after every key that does.
proof fn lemma_lex_prefix(prefix: Seq<u8>, carrier: Seq<u8>, other: Seq<u8>)
    requires
        prefix.is_prefix_of(carrier),
        !prefix.is_prefix_of(other),
        !lex_lt(other, prefix),
    ensures
        lex_lt(carrier, other),
    decreases prefix.len(),
{
    if prefix.len() == 0 {
        assert(prefix =~= other.take(0));
        assert(prefix.is_prefix_of(other));
    } else {
        assert(prefix[0] == carrier[0]);
        assert(other.len() > 0);
        if other[0] == prefix[0] {
            let p = prefix.drop_first();
            let c = carrier.drop_first();
            let o = other.drop_first();
            assert(p =~= c.subrange(0, p.len() as int));
            if p.is_prefix_of(o) {
                assert forall|i: int| 0 <= i < prefix.len() implies prefix[i] == other[i] by {
                    if i > 0 {
                        assert(p[i - 1] == o[i - 1]);
                    }
                }
                assert(prefix =~= other.subrange(0, prefix.len() as int));
            }
            lemma_lex_prefix(p, c, o);
        }
    }
}

/// `found` is what a forward seek to `target` reports over the key set `keys`: the least key
/// that does not come before `target`, or nothing when every key comes before it.
pub open spec fn seek_result(keys: Set<Seq<u8>>, target: Seq<u8>, found: Option<Seq<u8>>) -> bool {
    match found {
        Some(key) => {
            &&& keys.contains(key)
            &&& !lex_lt(key, target)
            &&& forall|k: Seq<u8>| #[trigger] keys.contains(k) && !lex_lt(k, target) ==> !lex_lt(k, key)
        },
        None => forall|k: Seq<u8>| #[trigger] keys.contains(k) ==> lex_lt(k, target),
    }
}

/// A seek to a prefix lands on a key that carries it exactly when the store holds such a key.
pub proof fn law_seek_decides_prefix(keys: Set<Seq<u8>>, prefix: Seq<u8>, found: Option<Seq<u8>>)
    requires
        seek_result(keys, prefix, found),
    ensures
        (found matches Some(key) && prefix.is_prefix_of(key)) <==> exists|k: Seq<u8>| #[trigger]
            keys.contains(k) && prefix.is_prefix_of(k),
{
    if exists|k: Seq<u8>| #[trigger] keys.contains(k) && prefix.is_prefix_of(k) {
        let k = choose|k: Seq<u8>| #[trigger] keys.contains(k) && prefix.is_prefix_of(k);
        lemma_carrier_not_before(prefix, k);
        let key = found->0;
        if !prefix.is_prefix_of(key) {
            lemma_lex_prefix(prefix, k, key);
            assert(false);
        }
    }
}

proof fn lemma_carrier_not_before(prefix: Seq<u8>, carrier: Seq<u8>)
    requires
        prefix.is_prefix_of(carrier),
    ensures
        !lex_lt(carrier, prefix),
    decreases prefix.len(),
{
    if prefix.len() > 0 {
        assert(prefix[0] == carrier[0]);
        assert(prefix.drop_first() =~= carrier.drop_first().subrange(
            0,
            prefix.drop_first().len() as int,
        ));
        lemma_carrier_not_before(prefix.drop_first(), carrier.drop_first());
    }
}

/// Two strictly ascending listings of the same keys are the same listing.
pub proof fn lemma_ascending_listing_is_unique(a: Seq<Seq<u8>>, b: Seq<Seq<u8>>)
    requires
        strictly_ascending(a),
        strictly_ascending(b),
        a.to_multiset() == b.to_multiset(),
    ensures
        a == b,
    decreases a.len(),
{
    broadcast use vstd::seq_lib::group_to_multiset_ensures;

    assert(a.to_multiset().len() == a.len());
    assert(b.to_multiset().len() == b.len());
    if a.len() == 0 {
        assert(a =~= b);
    } else {
        assert(a.contains(a[0]));
        assert(b.contains(b[0]));
        assert(b.to_multiset().count(a[0]) > 0);
        assert(a.to_multiset().count(b[0]) > 0);
        let i = choose|i: int| 0 <= i < b.len() && b[i] == a[0];
        let j = choose|j: int| 0 <= j < a.len() && a[j] == b[0];
        lemma_lex_irreflexive(a[0]);
        if a[0] != b[0] {
            assert(lex_lt(a[0], a[j]));
            assert(lex_lt(b[0], b[i]));
            lemma_lex_transitive(a[0], b[0], a[0]);
        }
        let ta = a.drop_first();
        let tb = b.drop_first();
        assert(a =~= seq![a[0]] + ta);
        assert(b =~= seq![b[0]] + tb);
        assert(ta =~= a.remove(0));
        assert(tb =~= b.remove(0));
        assert(ta.to_multiset() =~= tb.to_multiset());
        lemma_ascending_listing_is_unique(ta, tb);
    }
}

/// Whether `data` begins with `prefix`.
pub fn starts_with(data: &[u8], prefix: &[u8]) -> (r: bool)
    ensures
        r == prefix@.is_prefix_of(data@),
{
    if data.len() < prefix.len() {
        return false;
    }
    let mut i: usize = 0;
    while i < prefix.len()
        invariant
            i <= prefix@.len() <= data@.len(),
            forall|k: int| 0 <= k < i ==> prefix@[k] == data@[k],
        decreases prefix@.len() - i,
    {
        if data[i] != prefix[i] {
            assert(prefix@[i as int] != data@.subrange(0, prefix@.len() as int)[i as int]);
            return false;
        }
        i += 1;
    }
    assert(prefix@ =~= data@.subrange(0, prefix@.len() as int));
    true
}

/// Whether two byte strings are equal.
pub fn same_bytes(a: &[u8], b: &[u8]) -> (r: bool)
    ensures
        r == (a@ == b@),
{
    if a.len() != b.len() {
        return false;
    }
    let r = starts_with(a, b);
    assert(a@ =~= a@.subrange(0, a@.len() as int));
    r
}

/// Byte strings are ordered by the first byte in which they differ; one that ends where the other goes
/// on comes first.
pub proof fn law_keys_are_ordered_by_their_first_difference(a: Seq<u8>, b: Seq<u8>)
    ensures
        lex_lt(a, b) <==> exists|k: int| #[trigger] differ_first_at(a, b, k),
    decreases a.len(),
{
    if a.len() > 0 && b.len() > 0 {
        let ta = a.drop_first();
        let tb = b.drop_first();
        law_keys_are_ordered_by_their_first_difference(ta, tb);
        if lex_lt(a, b) {
            if a[0] < b[0] {
                assert(differ_first_at(a, b, 0));
            } else {
                let k = choose|k: int| #[trigger] differ_first_at(ta, tb, k);
                assert forall|i: int| 0 <= i < k + 1 implies a[i] == b[i] by {
                    if i > 0 {
                        assert(a[i] == ta[i - 1] && b[i] == tb[i - 1]);
                    }
                }
                assert(differ_first_at(a, b, k + 1));
            }
        }
        if exists|k: int| #[trigger] differ_first_at(a, b, k) {
            let k = choose|k: int| #[trigger] differ_first_at(a, b, k);
            if k > 0 {
                assert(a[0] == b[0]);
                assert forall|i: int| 0 <= i < k - 1 implies ta[i] == tb[i] by {
                    assert(a[i + 1] == b[i + 1]);
                }
                assert(differ_first_at(ta, tb, k - 1));
            }
        }
    } else if a.len() == 0 && b.len() > 0 {
        assert(differ_first_at(a, b, 0));
    }
}

/// Up to `k` the byte strings are equal, and there `a` ends, or has the smaller byte.
pub open spec fn differ_first_at(a: Seq<u8>, b: Seq<u8>, k: int) -> bool {
    &&& 0 <= k <= a.len()
    &&& k < b.len()
    &&& forall|i: int| 0 <= i < k ==> a[i] == b[i]
    &&& k == a.len() || a[k] < b[k]
}

} // verus!
