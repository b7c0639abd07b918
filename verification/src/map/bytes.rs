//! Byte-string keys: prefix tests, their order, and sorting.
use vstd::prelude::*;

verus! {

/// Whether `key` starts with `prefix`.
pub open spec fn starts_with(key: Seq<u8>, prefix: Seq<u8>) -> bool {
    prefix.len() <= key.len() && key.take(prefix.len() as int) == prefix
}

/// The byte-wise (lexicographic) order of byte strings: `a` comes before `b`.
pub open spec fn lex_lt(a: Seq<u8>, b: Seq<u8>) -> bool
    decreases a.len(),
{
    if a.len() == 0 {
        b.len() > 0
    } else if b.len() == 0 {
        false
    } else if a[0] < b[0] {
        true
    } else if a[0] > b[0] {
        false
    } else {
        lex_lt(a.drop_first(), b.drop_first())
    }
}

/// Nothing comes before itself.
pub proof fn lemma_lex_irreflexive(a: Seq<u8>)
    ensures
        !lex_lt(a, a),
    decreases a.len(),
{
    if a.len() > 0 {
        lemma_lex_irreflexive(a.drop_first());
    }
}

/// The order is transitive.
pub proof fn lemma_lex_transitive(a: Seq<u8>, b: Seq<u8>, c: Seq<u8>)
    requires
        lex_lt(a, b),
        lex_lt(b, c),
    ensures
        lex_lt(a, c),
    decreases a.len(),
{
    if a.len() > 0 && b.len() > 0 && c.len() > 0 {
        if a[0] == b[0] && b[0] == c[0] {
            lemma_lex_transitive(a.drop_first(), b.drop_first(), c.drop_first());
        }
    }
}

/// Of two different byte strings, one comes before the other.
pub proof fn lemma_lex_total(a: Seq<u8>, b: Seq<u8>)
    requires
        a != b,
    ensures
        lex_lt(a, b) || lex_lt(b, a),
    decreases a.len(),
{
    if a.len() == 0 && b.len() == 0 {
        assert(a =~= b);
    } else if a.len() > 0 && b.len() > 0 && a[0] == b[0] {
        if a.drop_first() == b.drop_first() {
            assert(a =~= seq![a[0]] + a.drop_first());
            assert(b =~= seq![b[0]] + b.drop_first());
            assert(a =~= b);
        }
        lemma_lex_total(a.drop_first(), b.drop_first());
    }
}

/// The bytes of each key.
pub open spec fn byte_views(s: Seq<Vec<u8>>) -> Seq<Seq<u8>> {
    s.map_values(|k: Vec<u8>| k@)
}

/// Whether each byte string comes strictly before the next.
pub open spec fn strictly_ordered(s: Seq<Seq<u8>>) -> bool {
    forall|i: int, j: int| 0 <= i < j < s.len() ==> lex_lt(s[i], s[j])
}

/// Whether the keys' bytes come in strictly increasing byte-wise order.
pub open spec fn lex_sorted(s: Seq<Vec<u8>>) -> bool {
    strictly_ordered(byte_views(s))
}

/// The byte strings of a set in increasing byte-wise order.
pub open spec fn ordered_listing(set: Set<Seq<u8>>) -> Seq<Seq<u8>> {
    choose|l: Seq<Seq<u8>>| strictly_ordered(l) && l.to_set() == set
}

/// A strictly ordered sequence lists each byte string once.
pub proof fn lemma_ordered_no_duplicates(s: Seq<Seq<u8>>)
    requires
        strictly_ordered(s),
    ensures
        s.no_duplicates(),
        s.to_set().len() == s.len(),
{
    assert forall|i: int, j: int| 0 <= i < s.len() && 0 <= j < s.len() && i != j implies s[i]
        != s[j] by {
        if i < j {
            lemma_lex_irreflexive(s[i]);
        } else {
            lemma_lex_irreflexive(s[j]);
        }
    }
    s.unique_seq_to_set();
}

/// Two strictly ordered sequences with the same elements are the same sequence.
pub proof fn lemma_ordered_unique(a: Seq<Seq<u8>>, b: Seq<Seq<u8>>)
    requires
        strictly_ordered(a),
        strictly_ordered(b),
        a.to_set() == b.to_set(),
    ensures
        a == b,
    decreases a.len(),
{
    lemma_ordered_no_duplicates(a);
    lemma_ordered_no_duplicates(b);
    if a.len() == 0 {
        if b.len() > 0 {
            assert(b.to_set().contains(b[0]));
        }
        assert(a =~= b);
    } else {
        assert(a.to_set().contains(a[0]));
        assert(b.len() > 0);
        assert(b.to_set().contains(b[0]));
        if a[0] != b[0] {
            let i = choose|i: int| 0 <= i < a.len() && a[i] == b[0];
            let j = choose|j: int| 0 <= j < b.len() && b[j] == a[0];
            assert(i > 0 && j > 0);
            assert(lex_lt(a[0], a[i]));
            assert(lex_lt(b[0], b[j]));
            lemma_lex_transitive(a[0], b[0], a[0]);
            lemma_lex_irreflexive(a[0]);
        }
        let a1 = a.drop_first();
        let b1 = b.drop_first();
        assert forall|x: Seq<u8>| a1.to_set().contains(x) <==> b1.to_set().contains(x) by {
            if a1.to_set().contains(x) {
                let i = choose|i: int| 0 <= i < a1.len() && a1[i] == x;
                assert(a[i + 1] == x);
                assert(a.to_set().contains(x));
                let j = choose|j: int| 0 <= j < b.len() && b[j] == x;
                if j == 0 {
                    lemma_lex_irreflexive(a[0]);
                    assert(lex_lt(a[0], a[i + 1]));
                }
                assert(b1[j - 1] == x);
            }
            if b1.to_set().contains(x) {
                let j = choose|j: int| 0 <= j < b1.len() && b1[j] == x;
                assert(b[j + 1] == x);
                assert(b.to_set().contains(x));
                let i = choose|i: int| 0 <= i < a.len() && a[i] == x;
                if i == 0 {
                    lemma_lex_irreflexive(b[0]);
                    assert(lex_lt(b[0], b[j + 1]));
                }
                assert(a1[i - 1] == x);
            }
        }
        assert(a1.to_set() =~= b1.to_set());
        lemma_ordered_unique(a1, b1);
        assert(a =~= seq![a[0]] + a1);
        assert(b =~= seq![b[0]] + b1);
    }
}

/// A strictly ordered listing of a set is the set's ordered listing.
pub proof fn lemma_is_ordered_listing(l: Seq<Seq<u8>>, set: Set<Seq<u8>>)
    requires
        strictly_ordered(l),
        l.to_set() == set,
    ensures
        ordered_listing(set) == l,
{
    let c = ordered_listing(set);
    assert(strictly_ordered(c) && c.to_set() == set);
    lemma_ordered_unique(c, l);
}

/// Whether `key` starts with `prefix`.
pub fn has_prefix(key: &[u8], prefix: &[u8]) -> (r: bool)
    ensures
        r == starts_with(key@, prefix@),
{
    if prefix.len() > key.len() {
        return false;
    }
    let mut i: usize = 0;
    while i < prefix.len()
        invariant
            prefix@.len() <= key@.len(),
            i <= prefix@.len(),
            forall|j: int| 0 <= j < i ==> key@[j] == prefix@[j],
        decreases prefix@.len() - i,
    {
        if key[i] != prefix[i] {
            assert(key@.take(prefix@.len() as int)[i as int] != prefix@[i as int]);
            return false;
        }
        i += 1;
    }
    assert(key@.take(prefix@.len() as int) =~= prefix@);
    true
}

/// Whether `a` comes before `b` byte-wise.
pub fn lex_less(a: &[u8], b: &[u8]) -> (r: bool)
    ensures
        r == lex_lt(a@, b@),
{
    let mut i: usize = 0;
    proof {
        assert(a@.skip(0) =~= a@);
        assert(b@.skip(0) =~= b@);
    }
    while i < a.len() && i < b.len()
        invariant
            i <= a@.len(),
            i <= b@.len(),
            lex_lt(a@, b@) == lex_lt(a@.skip(i as int), b@.skip(i as int)),
        decreases a@.len() - i,
    {
        if a[i] != b[i] {
            proof {
                assert(a@.skip(i as int)[0] == a@[i as int]);
                assert(b@.skip(i as int)[0] == b@[i as int]);
            }
            return a[i] < b[i];
        }
        proof {
            assert(a@.skip(i as int).drop_first() =~= a@.skip(i + 1));
            assert(b@.skip(i as int).drop_first() =~= b@.skip(i + 1));
        }
        i += 1;
    }
    proof {
        assert(a@.skip(i as int).len() == a@.len() - i);
        assert(b@.skip(i as int).len() == b@.len() - i);
    }
    i < b.len()
}

/// Sorts byte strings into byte-wise order, keeping one key of each byte string.
pub fn sort_unique(keys: Vec<Vec<u8>>) -> (r: Vec<Vec<u8>>)
    ensures
        lex_sorted(r@),
        forall|i: int| 0 <= i < r@.len() ==> keys@.contains(#[trigger] r@[i]),
        byte_views(r@).to_set() == byte_views(keys@).to_set(),
{
    let ghost k0 = keys@;
    let mut keys = keys;
    let mut sorted: Vec<Vec<u8>> = Vec::new();
    proof {
        assert(k0.skip(k0.len() as int) =~= Seq::<Vec<u8>>::empty());
        assert(byte_views(sorted@).to_set() =~= byte_views(k0.skip(k0.len() as int)).to_set());
    }
    while keys.len() > 0
        invariant
            keys@ == k0.take(keys@.len() as int),
            keys@.len() <= k0.len(),
            lex_sorted(sorted@),
            forall|i: int| 0 <= i < sorted@.len() ==> k0.contains(#[trigger] sorted@[i]),
            byte_views(sorted@).to_set() == byte_views(k0.skip(keys@.len() as int)).to_set(),
        decreases keys@.len(),
    {
        let ghost n = keys@.len() as int;
        let key = keys.pop().unwrap();
        proof {
            assert(key == k0[n - 1]);
            assert(keys@ =~= k0.take(n - 1));
            assert(k0.skip(n - 1) =~= seq![key] + k0.skip(n));
            assert(byte_views(k0.skip(n - 1)) =~= seq![key@] + byte_views(k0.skip(n)));
            assert(byte_views(k0.skip(n - 1)).to_set() =~= byte_views(k0.skip(n)).to_set().insert(key@)) by {
                let a = byte_views(k0.skip(n - 1));
                let b = byte_views(k0.skip(n));
                assert forall|x: Seq<u8>| a.to_set().contains(x) <==> b.to_set().insert(key@).contains(x) by {
                    if a.to_set().contains(x) {
                        let i = choose|i: int| 0 <= i < a.len() && a[i] == x;
                        if i > 0 {
                            assert(b[i - 1] == x);
                        }
                    }
                    if b.to_set().contains(x) {
                        let i = choose|i: int| 0 <= i < b.len() && b[i] == x;
                        assert(a[i + 1] == x);
                    }
                    if x == key@ {
                        assert(a[0] == x);
                    }
                }
            }
        }
        let mut pos: usize = 0;
        while pos < sorted.len() && lex_less(sorted[pos].as_slice(), key.as_slice())
            invariant
                pos <= sorted@.len(),
                forall|j: int| 0 <= j < pos ==> lex_lt(sorted@[j]@, key@),
            decreases sorted@.len() - pos,
        {
            pos += 1;
        }
        let ghost s0 = sorted@;
        let ghost v0 = byte_views(s0);
        if pos < sorted.len() && !lex_less(key.as_slice(), sorted[pos].as_slice()) {
            proof {
                assert(!lex_lt(s0[pos as int]@, key@));
                if s0[pos as int]@ != key@ {
                    lemma_lex_total(s0[pos as int]@, key@);
                }
                assert(v0[pos as int] == key@);
                assert(v0.to_set().insert(key@) =~= v0.to_set());
            }
        } else {
            proof {
                assert forall|j: int| pos <= j < s0.len() implies lex_lt(key@, s0[j]@) by {
                    assert(pos < s0.len());
                    assert(lex_lt(key@, s0[pos as int]@));
                    if j > pos {
                        assert(v0[pos as int] == s0[pos as int]@ && v0[j] == s0[j]@);
                        assert(lex_lt(v0[pos as int], v0[j]));
                        lemma_lex_transitive(key@, s0[pos as int]@, s0[j]@);
                    }
                }
            }
            sorted.insert(pos, key);
            proof {
                let v1 = byte_views(sorted@);
                assert(sorted@ =~= s0.subrange(0, pos as int).push(key) + s0.subrange(
                    pos as int,
                    s0.len() as int,
                ));
                assert forall|i: int, j: int| 0 <= i < j < v1.len() implies lex_lt(v1[i], v1[j]) by {
                    assert(v1[i] == sorted@[i]@ && v1[j] == sorted@[j]@);
                    if i < pos && j == pos {
                        assert(sorted@[i] == s0[i]);
                    } else if i < pos && j > pos {
                        assert(sorted@[i] == s0[i]);
                        assert(sorted@[j] == s0[j - 1]);
                        assert(lex_lt(v0[i], v0[j - 1]));
                    } else if i == pos && j > pos {
                        assert(sorted@[j] == s0[j - 1]);
                    } else if i > pos {
                        assert(sorted@[i] == s0[i - 1]);
                        assert(sorted@[j] == s0[j - 1]);
                        assert(lex_lt(v0[i - 1], v0[j - 1]));
                    } else {
                        assert(sorted@[i] == s0[i]);
                        assert(sorted@[j] == s0[j]);
                        assert(lex_lt(v0[i], v0[j]));
                    }
                }
                assert forall|i: int| 0 <= i < sorted@.len() implies k0.contains(#[trigger] sorted@[i]) by {
                    if i < pos {
                        assert(sorted@[i] == s0[i]);
                    } else if i > pos {
                        assert(sorted@[i] == s0[i - 1]);
                    } else {
                        assert(k0[n - 1] == key);
                    }
                }
                assert forall|x: Seq<u8>| v1.to_set().contains(x) <==> v0.to_set().insert(key@).contains(x) by {
                    if v1.to_set().contains(x) {
                        let i = choose|i: int| 0 <= i < v1.len() && v1[i] == x;
                        if i < pos {
                            assert(v0[i] == x);
                        } else if i > pos {
                            assert(v0[i - 1] == x);
                        }
                    }
                    if v0.to_set().contains(x) {
                        let i = choose|i: int| 0 <= i < v0.len() && v0[i] == x;
                        if i < pos {
                            assert(v1[i] == x);
                        } else {
                            assert(v1[i + 1] == x);
                        }
                    }
                    if x == key@ {
                        assert(v1[pos as int] == x);
                    }
                }
                assert(v1.to_set() =~= v0.to_set().insert(key@));
            }
        }
    }
    proof {
        assert(k0.skip(0) =~= k0);
    }
    sorted
}

} // verus!
