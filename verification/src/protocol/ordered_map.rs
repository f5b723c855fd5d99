//! A string-keyed map kept in ascending byte order of its keys, so that
//! iteration order is deterministic (the order a sorted tree map yields).

use vstd::prelude::*;
use vstd::utf8::*;

verus! {

broadcast use vstd::utf8::encode_utf8_decode_utf8;

/// The result of comparing two keys.
#[derive(Clone, Copy, Debug, PartialEq, Eq, Structural)]
pub enum KeyOrder {
    /// The first key sorts before the second.
    Less,
    /// The keys are equal.
    Equal,
    /// The first key sorts after the second.
    Greater,
}

/// Strict lexicographic order on byte strings (a proper prefix sorts first).
pub open spec fn lex_lt(a: Seq<u8>, b: Seq<u8>) -> bool
    decreases a.len(),
{
    if a.len() == 0 {
        b.len() > 0
    } else if b.len() == 0 {
        false
    } else if a[0] < b[0] {
        true
    } else if a[0] > b[0] {
        false
    } else {
        lex_lt(a.drop_first(), b.drop_first())
    }
}

/// The byte order of two keys given as character sequences.
pub open spec fn key_lt(a: Seq<char>, b: Seq<char>) -> bool {
    lex_lt(encode_utf8(a), encode_utf8(b))
}

/// Lexicographic order is irreflexive and asymmetric, and any two distinct
/// byte strings are ordered one way or the other.
pub proof fn lemma_lex_total(a: Seq<u8>, b: Seq<u8>)
    ensures
        !lex_lt(a, a),
        !(lex_lt(a, b) && lex_lt(b, a)),
        a =~= b || lex_lt(a, b) || lex_lt(b, a),
    decreases a.len(),
{
    if a.len() > 0 && b.len() > 0 {
        lemma_lex_total(a.drop_first(), b.drop_first());
        lemma_lex_total(a.drop_first(), a.drop_first());
        if a[0] == b[0] && a.drop_first() =~= b.drop_first() {
            assert(a =~= seq![a[0]] + a.drop_first());
            assert(b =~= seq![b[0]] + b.drop_first());
        }
    } else if a.len() > 0 {
        lemma_lex_total(a.drop_first(), a.drop_first());
    }
}

/// Lexicographic order is transitive.
pub proof fn lemma_lex_transitive(a: Seq<u8>, b: Seq<u8>, c: Seq<u8>)
    requires
        lex_lt(a, b),
        lex_lt(b, c),
    ensures
        lex_lt(a, c),
    decreases a.len(),
{
    if a.len() > 0 && b.len() > 0 && c.len() > 0 && a[0] == b[0] && b[0] == c[0] {
        lemma_lex_transitive(a.drop_first(), b.drop_first(), c.drop_first());
    }
}

proof fn lemma_lex_skip(a: Seq<u8>, b: Seq<u8>, i: int)
    requires
        0 <= i <= a.len(),
        i <= b.len(),
        a.take(i) =~= b.take(i),
    ensures
        lex_lt(a, b) == lex_lt(a.skip(i), b.skip(i)),
    decreases i,
{
    if i == 0 {
        assert(a.skip(0) =~= a);
        assert(b.skip(0) =~= b);
    } else {
        assert(a[0] == a.take(i)[0]);
        assert(b[0] == b.take(i)[0]);
        assert(a.drop_first().take(i - 1) =~= b.drop_first().take(i - 1)) by {
            assert forall|j: int| 0 <= j < i - 1 implies #[trigger] a.drop_first().take(i - 1)[j]
                == b.drop_first().take(i - 1)[j] by {
                assert(a.take(i)[j + 1] == b.take(i)[j + 1]);
            }
        }
        lemma_lex_skip(a.drop_first(), b.drop_first(), i - 1);
        assert(a.drop_first().skip(i - 1) =~= a.skip(i));
        assert(b.drop_first().skip(i - 1) =~= b.skip(i));
    }
}

/// Compares two byte strings lexicographically.
pub fn compare_bytes(a: &[u8], b: &[u8]) -> (r: KeyOrder)
    ensures
        r == KeyOrder::Less <==> lex_lt(a@, b@),
        r == KeyOrder::Equal <==> a@ == b@,
        r == KeyOrder::Greater <==> lex_lt(b@, a@),
{
    proof {
        lemma_lex_total(a@, b@);
    }
    let mut i: usize = 0;
    while i < a.len() && i < b.len()
        invariant
            i <= a.len(),
            i <= b.len(),
            a@.take(i as int) =~= b@.take(i as int),
        decreases a.len() - i,
    {
        if a[i] < b[i] {
            proof {
                lemma_lex_skip(a@, b@, i as int);
                lemma_lex_skip(b@, a@, i as int);
            }
            return KeyOrder::Less;
        }
        if a[i] > b[i] {
            proof {
                lemma_lex_skip(a@, b@, i as int);
                lemma_lex_skip(b@, a@, i as int);
            }
            return KeyOrder::Greater;
        }
        assert(a@.take(i + 1) =~= a@.take(i as int).push(a@[i as int]));
        assert(b@.take(i + 1) =~= b@.take(i as int).push(b@[i as int]));
        i = i + 1;
    }
    proof {
        lemma_lex_skip(a@, b@, i as int);
        lemma_lex_skip(b@, a@, i as int);
    }
    if a.len() < b.len() {
        KeyOrder::Less
    } else if a.len() > b.len() {
        KeyOrder::Greater
    } else {
        assert(a@ =~= a@.take(i as int));
        assert(b@ =~= b@.take(i as int));
        KeyOrder::Equal
    }
}

/// Keys strictly ascending in byte order (hence pairwise distinct).
pub open spec fn sorted_keys<V>(s: Seq<(Seq<char>, V)>) -> bool {
    forall|i: int, j: int| 0 <= i < j < s.len() ==> #[trigger] key_lt(s[i].0, s[j].0)
}

/// The value stored under `k`: the first entry whose key is `k`.
pub open spec fn lookup<V>(s: Seq<(Seq<char>, V)>, k: Seq<char>) -> Option<V>
    decreases s.len(),
{
    if s.len() == 0 {
        None
    } else if s[0].0 == k {
        Some(s[0].1)
    } else {
        lookup(s.drop_first(), k)
    }
}

/// The value under `k` after merging `over` into `base`, last-wins.
pub open spec fn merged<V>(base: Seq<(Seq<char>, V)>, over: Seq<(Seq<char>, V)>, k: Seq<char>) -> Option<V> {
    match lookup(over, k) {
        Some(v) => Some(v),
        None => lookup(base, k),
    }
}

/// In a sorted entry list, the entry at `i` is what a lookup of its key finds.
pub proof fn lemma_lookup_at<V>(s: Seq<(Seq<char>, V)>, i: int)
    requires
        sorted_keys(s),
        0 <= i < s.len(),
    ensures
        lookup(s, s[i].0) == Some(s[i].1),
    decreases i,
{
    if i > 0 {
        assert(key_lt(s[0].0, s[i].0));
        lemma_lex_total(encode_utf8(s[0].0), encode_utf8(s[0].0));
        assert(s[0].0 != s[i].0);
        let t = s.drop_first();
        assert(sorted_keys(t)) by {
            assert forall|a: int, b: int| 0 <= a < b < t.len() implies #[trigger] key_lt(
                t[a].0,
                t[b].0,
            ) by {
                assert(key_lt(s[a + 1].0, s[b + 1].0));
            }
        }
        lemma_lookup_at(t, i - 1);
    }
}

/// A key absent from every entry is not found.
pub proof fn lemma_lookup_absent<V>(s: Seq<(Seq<char>, V)>, k: Seq<char>)
    requires
        forall|i: int| 0 <= i < s.len() ==> s[i].0 != k,
    ensures
        lookup(s, k) is None,
    decreases s.len(),
{
    if s.len() > 0 {
        let t = s.drop_first();
        assert forall|i: int| 0 <= i < t.len() implies t[i].0 != k by {
            assert(t[i] == s[i + 1]);
        }
        lemma_lookup_absent(t, k);
    }
}

/// A lookup finds `Some(v)` exactly when some entry is `(k, v)`.
pub proof fn lemma_lookup_some<V>(s: Seq<(Seq<char>, V)>, k: Seq<char>)
    requires
        sorted_keys(s),
    ensures
        lookup(s, k) is Some ==> exists|i: int|
            0 <= i < s.len() && s[i].0 == k && lookup(s, k) == Some(s[i].1),
        lookup(s, k) is None ==> forall|i: int| 0 <= i < s.len() ==> s[i].0 != k,
{
    if exists|i: int| 0 <= i < s.len() && s[i].0 == k {
        let i = choose|i: int| 0 <= i < s.len() && s[i].0 == k;
        lemma_lookup_at(s, i);
    } else {
        lemma_lookup_absent(s, k);
    }
}

/// Two character sequences with the same UTF-8 encoding are equal.
pub proof fn lemma_encode_injective(a: Seq<char>, b: Seq<char>)
    requires
        encode_utf8(a) == encode_utf8(b),
    ensures
        a == b,
{
    assert(decode_utf8(encode_utf8(a)) == a);
    assert(decode_utf8(encode_utf8(b)) == b);
}

/// A string-keyed map kept sorted by key bytes.
#[derive(Debug, PartialEq, Eq)]
pub struct OrderedMap<V> {
    entries: Vec<(String, V)>,
}

impl<V> OrderedMap<V> {
    /// The entries as (key characters, value) pairs, in ascending key order.
    pub closed spec fn view(&self) -> Seq<(Seq<char>, V)> {
        self.entries@.map_values(|e: (String, V)| (e.0@, e.1))
    }

    /// Keys are strictly ascending.
    pub open spec fn wf(&self) -> bool {
        sorted_keys(self@)
    }

    /// The empty map.
    pub fn new() -> (r: Self)
        ensures
            r.wf(),
            r@ == Seq::<(Seq<char>, V)>::empty(),
    {
        let r = OrderedMap { entries: Vec::new() };
        assert(r@ =~= Seq::<(Seq<char>, V)>::empty());
        r
    }

    /// Number of entries.
    pub fn len(&self) -> (r: usize)
        ensures
            r == self@.len(),
    {
        self.entries.len()
    }

    /// The key stored at position `i`.
    pub fn key_at(&self, i: usize) -> (r: &String)
        requires
            i < self@.len(),
        ensures
            r@ == self@[i as int].0,
    {
        &self.entries[i].0
    }

    /// The value stored at position `i`.
    pub fn value_at(&self, i: usize) -> (r: &V)
        requires
            i < self@.len(),
        ensures
            *r == self@[i as int].1,
    {
        &self.entries[i].1
    }

    /// Looks a key up.
    pub fn get(&self, key: &str) -> (r: Option<&V>)
        ensures
            match r {
                Some(v) => lookup(self@, key@) == Some(*v),
                None => lookup(self@, key@) is None,
            },
    {
        let kb = key.as_bytes();
        let mut i: usize = 0;
        assert(self@.skip(0) =~= self@);
        while i < self.entries.len()
            invariant
                i <= self.entries@.len(),
                self@.len() == self.entries@.len(),
                kb@ == encode_utf8(key@),
                lookup(self@, key@) == lookup(self@.skip(i as int), key@),
            decreases self.entries@.len() - i,
        {
            let ek = self.entries[i].0.as_str().as_bytes();
            assert(self@[i as int].0 == self.entries@[i as int].0@);
            if compare_bytes(ek, kb) == KeyOrder::Equal {
                proof {
                    lemma_encode_injective(self@[i as int].0, key@);
                }
                assert(self@.skip(i as int)[0].0 == key@);
                return Some(&self.entries[i].1);
            }
            assert(self@.skip(i as int).drop_first() =~= self@.skip(i + 1));
            i = i + 1;
        }
        assert(self@.skip(i as int).len() == 0);
        None
    }

    /// Merges `other` into this map, last-wins per key: every key of `other`
    /// takes `other`'s value; every other key keeps its value.
    pub fn merge(&mut self, other: OrderedMap<V>)
        requires
            old(self).wf(),
            other.wf(),
        ensures
            final(self).wf(),
            forall|k: Seq<char>| lookup(final(self)@, k) == merged(old(self)@, other@, k),
    {
        let ghost base = self@;
        let ghost over = other@;
        let mut rest = other.entries;
        assert(rest@.map_values(|e: (String, V)| (e.0@, e.1)) =~= over);
        while rest.len() > 0
            invariant
                self.wf(),
                sorted_keys(over),
                rest@.len() <= over.len(),
                forall|j: int| 0 <= j < rest@.len() ==> (#[trigger] rest@[j]).0@ == over[j].0 && rest@[j].1 == over[j].1,
                forall|k: Seq<char>| lookup(self@, k) == merged(base, over.skip(rest@.len() as int), k),
            decreases rest@.len(),
        {
            let ghost m = (rest@.len() - 1) as int;
            let (k, v) = rest.pop().unwrap();
            assert(k@ == over[m].0 && v == over[m].1);
            self.insert(k, v);
            assert(over.skip(m).drop_first() =~= over.skip(m + 1));
            assert forall|q: Seq<char>| lookup(self@, q) == merged(base, over.skip(m), q) by {
                assert(over.skip(m)[0] == over[m]);
            }
        }
        assert(over.skip(0) =~= over);
    }

    /// Inserts or replaces the value under `key`, keeping keys sorted.
    pub fn insert(&mut self, key: String, value: V)
        requires
            old(self).wf(),
        ensures
            final(self).wf(),
            forall|k: Seq<char>|
                lookup(final(self)@, k) == if k == key@ {
                    Some(value)
                } else {
                    lookup(old(self)@, k)
                },
    {
        let ghost old_view = self@;
        let n = self.entries.len();
        let mut i: usize = 0;
        let mut found = false;
        while i < n
            invariant_except_break
                !found,
            invariant
                n == self.entries@.len(),
                self@ == old_view,
                sorted_keys(old_view),
                i <= n,
                forall|j: int| 0 <= j < i ==> key_lt(#[trigger] old_view[j].0, key@),
            ensures
                (i == n && !found) || (i < n && (found ==> old_view[i as int].0 == key@) && (!found
                    ==> key_lt(key@, old_view[i as int].0))),
            decreases n - i,
        {
            let ord = compare_bytes(self.entries[i].0.as_str().as_bytes(), key.as_str().as_bytes());
            assert(old_view[i as int].0 == self.entries@[i as int].0@);
            if ord != KeyOrder::Less {
                found = ord == KeyOrder::Equal;
                proof {
                    if found {
                        lemma_encode_injective(old_view[i as int].0, key@);
                    }
                }
                break;
            }
            i = i + 1;
        }
        proof {
            lemma_lex_total(encode_utf8(key@), encode_utf8(key@));
        }
        if i < n && found {
            let ghost k0 = old_view[i as int].0;
            self.entries.set(i, (key, value));
            assert(self@ =~= old_view.update(i as int, (k0, value)));
            assert(sorted_keys(self@));
            proof {
                assert forall|k: Seq<char>|
                    lookup(self@, k) == if k == k0 {
                        Some(value)
                    } else {
                        lookup(old_view, k)
                    } by {
                    lemma_lookup_some(old_view, k);
                    lemma_lookup_some(self@, k);
                    if k == k0 {
                        lemma_lookup_at(self@, i as int);
                    } else if lookup(old_view, k) is Some {
                        let m = choose|m: int|
                            0 <= m < old_view.len() && old_view[m].0 == k && lookup(old_view, k)
                                == Some(old_view[m].1);
                        lemma_lookup_at(self@, m);
                    } else {
                        lemma_lookup_absent(self@, k);
                    }
                }
            }
        } else {
            proof {
                if i < n {
                    assert(key_lt(key@, old_view[i as int].0));
                }
            }
            self.entries.insert(i, (key, value));
            let ghost kv = (key@, value);
            assert(self@ =~= old_view.insert(i as int, kv));
            assert(sorted_keys(self@)) by {
                assert forall|a: int, b: int| 0 <= a < b < self@.len() implies #[trigger] key_lt(
                    self@[a].0,
                    self@[b].0,
                ) by {
                    if b < i {
                    } else if a < i && b == i {
                    } else if a < i && b > i {
                        assert(key_lt(old_view[a].0, key@));
                        assert(key_lt(key@, old_view[i as int].0));
                        lemma_lex_transitive(
                            encode_utf8(old_view[a].0),
                            encode_utf8(key@),
                            encode_utf8(old_view[i as int].0),
                        );
                        if b - 1 > i {
                            assert(key_lt(old_view[i as int].0, old_view[b - 1].0));
                            lemma_lex_transitive(
                                encode_utf8(old_view[a].0),
                                encode_utf8(old_view[i as int].0),
                                encode_utf8(old_view[b - 1].0),
                            );
                        }
                    } else if a == i {
                        assert(key_lt(key@, old_view[i as int].0));
                        if b - 1 > i {
                            assert(key_lt(old_view[i as int].0, old_view[b - 1].0));
                            lemma_lex_transitive(
                                encode_utf8(key@),
                                encode_utf8(old_view[i as int].0),
                                encode_utf8(old_view[b - 1].0),
                            );
                        }
                    } else {
                        assert(key_lt(old_view[a - 1].0, old_view[b - 1].0));
                    }
                }
            }
            proof {
                assert forall|k: Seq<char>|
                    lookup(self@, k) == if k == key@ {
                        Some(value)
                    } else {
                        lookup(old_view, k)
                    } by {
                    lemma_lookup_some(old_view, k);
                    lemma_lookup_some(self@, k);
                    if k == key@ {
                        lemma_lookup_at(self@, i as int);
                    } else if lookup(old_view, k) is Some {
                        let m = choose|m: int|
                            0 <= m < old_view.len() && old_view[m].0 == k && lookup(old_view, k)
                                == Some(old_view[m].1);
                        if m < i {
                            lemma_lookup_at(self@, m);
                        } else {
                            assert(self@[m + 1] == old_view[m]);
                            lemma_lookup_at(self@, m + 1);
                        }
                    } else {
                        assert forall|j: int| 0 <= j < self@.len() implies self@[j].0 != k by {
                            if j < i {
                                assert(self@[j] == old_view[j]);
                            } else if j > i {
                                assert(self@[j] == old_view[j - 1]);
                            }
                        }
                        lemma_lookup_absent(self@, k);
                    }
                }
            }
        }
    }
}

impl<V: Clone> Clone for OrderedMap<V> {
    fn clone(&self) -> (res: Self)
        ensures
            res@.len() == self@.len(),
            forall|i: int|
                0 <= i < self@.len() ==> res@[i].0 == self@[i].0 && cloned::<V>(
                    self@[i].1,
                    res@[i].1,
                ),
    {
        let mut entries: Vec<(String, V)> = Vec::new();
        let mut i: usize = 0;
        while i < self.entries.len()
            invariant
                i <= self.entries@.len(),
                entries@.len() == i,
                forall|j: int|
                    0 <= j < i ==> (#[trigger] entries@[j]).0@ == self.entries@[j].0@ && cloned::<V>(
                        self.entries@[j].1,
                        entries@[j].1,
                    ),
            decreases self.entries@.len() - i,
        {
            let k = self.entries[i].0.clone();
            let v = self.entries[i].1.clone();
            entries.push((k, v));
            i = i + 1;
        }
        OrderedMap { entries }
    }
}

} // verus!
