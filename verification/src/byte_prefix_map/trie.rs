//! The prefix trie of byte-string keys, held in a `qp_trie::Trie`.
use qp_trie::Trie;
use vstd::prelude::*;

use crate::map::bytes::{byte_views, lemma_ordered_unique, lex_lt, starts_with, strictly_ordered};

verus! {

#[verifier::external_type_specification]
#[verifier::external_body]
#[verifier::reject_recursive_types(K)]
#[verifier::reject_recursive_types(V)]
pub struct ExTrie<K, V>(Trie<K, V>);

/// The byte strings a trie of byte-string keys holds.
pub uninterp spec fn trie_keys(t: Trie<Vec<u8>, ()>) -> Set<Seq<u8>>;

/// A byte with its two nybbles swapped: the low nybble becomes the high one.
pub open spec fn nybbles_swapped(b: u8) -> u8 {
    ((b % 16) * 16 + b / 16) as u8
}

/// The key the trie orders a byte string by: each byte with its nybbles swapped, so that comparing
/// these byte-wise compares the nybbles in the trie's order, low nybble first.
pub open spec fn walk_key(k: Seq<u8>) -> Seq<u8> {
    k.map_values(|b: u8| nybbles_swapped(b))
}

/// The order in which the trie walks its keys: nybble by nybble, low nybble of each byte first,
/// and a key that ends comes before every key that goes on.
pub open spec fn walk_before(a: Seq<u8>, b: Seq<u8>) -> bool {
    lex_lt(walk_key(a), walk_key(b))
}

/// Whether each byte string comes strictly before the next in the trie's walk order.
pub open spec fn walk_ordered(s: Seq<Seq<u8>>) -> bool {
    forall|i: int, j: int| 0 <= i < j < s.len() ==> walk_before(s[i], s[j])
}

/// The byte strings starting with `prefix` among `keys`, in the trie's walk order.
pub open spec fn trie_walk(keys: Set<Seq<u8>>, prefix: Seq<u8>) -> Seq<Seq<u8>> {
    choose|s: Seq<Seq<u8>>|
        walk_ordered(s) && s.to_set() == keys.filter(|b: Seq<u8>| starts_with(b, prefix))
}

proof fn lemma_nybbles_swapped_twice(b: u8)
    ensures
        nybbles_swapped(nybbles_swapped(b)) == b,
{
    assert(((((b % 16) * 16 + b / 16) as u8 % 16) * 16 + ((b % 16) * 16 + b / 16) as u8 / 16) as u8
        == b) by (bit_vector);
}

/// Two byte strings with the same walk key are the same.
proof fn lemma_walk_key_injective(a: Seq<u8>, b: Seq<u8>)
    requires
        walk_key(a) == walk_key(b),
    ensures
        a == b,
{
    assert(a.len() == walk_key(a).len());
    assert(b.len() == walk_key(b).len());
    assert forall|i: int| 0 <= i < a.len() implies a[i] == b[i] by {
        assert(walk_key(a)[i] == nybbles_swapped(a[i]));
        assert(walk_key(b)[i] == nybbles_swapped(b[i]));
        lemma_nybbles_swapped_twice(a[i]);
        lemma_nybbles_swapped_twice(b[i]);
    }
    assert(a =~= b);
}

/// A sequence in walk order that lists exactly the keys starting with `prefix` is the trie's
/// walk of them.
pub proof fn lemma_is_trie_walk(s: Seq<Seq<u8>>, keys: Set<Seq<u8>>, prefix: Seq<u8>)
    requires
        walk_ordered(s),
        s.to_set() == keys.filter(|b: Seq<u8>| starts_with(b, prefix)),
    ensures
        trie_walk(keys, prefix) == s,
{
    let c = trie_walk(keys, prefix);
    assert(walk_ordered(c) && c.to_set() == keys.filter(|b: Seq<u8>| starts_with(b, prefix)));
    let sk = s.map_values(|k: Seq<u8>| walk_key(k));
    let ck = c.map_values(|k: Seq<u8>| walk_key(k));
    assert forall|i: int, j: int| 0 <= i < j < sk.len() implies lex_lt(sk[i], sk[j]) by {
        assert(walk_before(s[i], s[j]));
    }
    assert forall|i: int, j: int| 0 <= i < j < ck.len() implies lex_lt(ck[i], ck[j]) by {
        assert(walk_before(c[i], c[j]));
    }
    assert forall|x: Seq<u8>| sk.to_set().contains(x) implies ck.to_set().contains(x) by {
        let i = choose|i: int| 0 <= i < sk.len() && sk[i] == x;
        assert(s.to_set().contains(s[i]));
        assert(c.to_set().contains(s[i]));
        let j = choose|j: int| 0 <= j < c.len() && c[j] == s[i];
        assert(ck[j] == x);
    }
    assert forall|x: Seq<u8>| ck.to_set().contains(x) implies sk.to_set().contains(x) by {
        let j = choose|j: int| 0 <= j < ck.len() && ck[j] == x;
        assert(c.to_set().contains(c[j]));
        assert(s.to_set().contains(c[j]));
        let i = choose|i: int| 0 <= i < s.len() && s[i] == c[j];
        assert(sk[i] == x);
    }
    assert(sk.to_set() =~= ck.to_set());
    lemma_ordered_unique(sk, ck);
    assert forall|i: int| 0 <= i < s.len() implies s[i] == c[i] by {
        assert(sk[i] == ck[i]);
        lemma_walk_key_injective(s[i], c[i]);
    }
    assert(s =~= c);
}

/// `qp_trie::Trie::new`: a trie that holds nothing.
#[verifier::external_body]
pub(crate) fn trie_new() -> (r: Trie<Vec<u8>, ()>)
    ensures
        trie_keys(r) == Set::<Seq<u8>>::empty(),
{
    Trie::new()
}

/// `qp_trie::Trie::insert`: the trie then holds the bytes of `key`; the result is `Some` exactly
/// when it held them before.
#[verifier::external_body]
pub(crate) fn trie_insert(t: &mut Trie<Vec<u8>, ()>, key: Vec<u8>) -> (r: Option<()>)
    ensures
        trie_keys(*final(t)) == trie_keys(*old(t)).insert(key@),
        r is Some <==> trie_keys(*old(t)).contains(key@),
{
    t.insert(key, ())
}

/// `qp_trie::Trie::remove`: the trie then no longer holds `key`; the result is `Some` exactly
/// when it held it before.
#[verifier::external_body]
pub(crate) fn trie_remove(t: &mut Trie<Vec<u8>, ()>, key: &[u8]) -> (r: Option<()>)
    ensures
        trie_keys(*final(t)) == trie_keys(*old(t)).remove(key@),
        r is Some <==> trie_keys(*old(t)).contains(key@),
{
    t.remove(key)
}

/// `qp_trie::Trie::count`: how many keys the trie holds.
#[verifier::external_body]
pub(crate) fn trie_count(t: &Trie<Vec<u8>, ()>) -> (r: usize)
    ensures
        r == trie_keys(*t).len(),
{
    t.count()
}

/// `qp_trie::Trie::iter_prefix`, with each key copied out: the keys the trie holds that start
/// with `prefix`, each once, in the order the trie walks them. Each branch node files its
/// children by the nybble it branches on (low nybble of a byte first), after the key that ends
/// there, and the walk visits them in that order.
#[verifier::external_body]
pub(crate) fn trie_prefix_keys(t: &Trie<Vec<u8>, ()>, prefix: &[u8]) -> (r: Vec<Vec<u8>>)
    ensures
        walk_ordered(byte_views(r@)),
        byte_views(r@).no_duplicates(),
        byte_views(r@).to_set() == trie_keys(*t).filter(|b: Seq<u8>| starts_with(b, prefix@)),
{
    t.iter_prefix(prefix).map(|(key, _)| key.clone()).collect()
}

} // verus!
