//! Association lists read as maps: the model of every table in the database.

use vstd::prelude::*;
use std::cmp::Ordering;
use vstd::utf8::{encode_utf8, encode_utf8_decode_utf8};

verus! {

/// The map that a list of key/value pairs stands for; a later pair overrides
/// an earlier one with the same key.
pub open spec fn map_of<K, V>(s: Seq<(K, V)>) -> Map<K, V>
    decreases s.len(),
{
    if s.len() == 0 {
        Map::empty()
    } else {
        map_of(s.drop_last()).insert(s.last().0, s.last().1)
    }
}

/// No key occurs twice in the list.
pub open spec fn keys_unique<K, V>(s: Seq<(K, V)>) -> bool {
    forall|i: int, j: int| 0 <= i < j < s.len() ==> s[i].0 != s[j].0
}

/// A key is in the map exactly when some pair carries it.
pub proof fn lemma_map_of_contains<K, V>(s: Seq<(K, V)>, k: K)
    ensures
        map_of(s).contains_key(k) <==> exists|i: int| 0 <= i < s.len() && s[i].0 == k,
    decreases s.len(),
{
    if s.len() > 0 {
        lemma_map_of_contains(s.drop_last(), k);
        if map_of(s).contains_key(k) && s.last().0 != k {
            let i = choose|i: int| 0 <= i < s.len() - 1 && s.drop_last()[i].0 == k;
            assert(s[i].0 == k);
        }
        if exists|i: int| 0 <= i < s.len() && s[i].0 == k {
            let i = choose|i: int| 0 <= i < s.len() && s[i].0 == k;
            if i < s.len() - 1 {
                assert(s.drop_last()[i].0 == k);
            }
        }
    }
}

/// With unique keys, each pair's key maps to that pair's value.
pub proof fn lemma_map_of_index<K, V>(s: Seq<(K, V)>, i: int)
    requires
        keys_unique(s),
        0 <= i < s.len(),
    ensures
        map_of(s).contains_key(s[i].0),
        map_of(s)[s[i].0] == s[i].1,
    decreases s.len(),
{
    if i < s.len() - 1 {
        assert(s.drop_last()[i] == s[i]);
        lemma_map_of_index(s.drop_last(), i);
    }
}

/// Appending a pair inserts it into the map.
pub proof fn lemma_map_of_push<K, V>(s: Seq<(K, V)>, p: (K, V))
    ensures
        map_of(s.push(p)) == map_of(s).insert(p.0, p.1),
        keys_unique(s) && !map_of(s).contains_key(p.0) ==> keys_unique(s.push(p)),
{
    assert(s.push(p).drop_last() =~= s);
    if keys_unique(s) && !map_of(s).contains_key(p.0) {
        lemma_map_of_contains(s, p.0);
        assert forall|i: int, j: int| 0 <= i < j < s.push(p).len() implies s.push(p)[i].0 != s.push(
            p,
        )[j].0 by {
            if j == s.len() {
                assert(s[i].0 != p.0);
            }
        }
    }
}

/// Giving a pair a new value updates the map at its key.
pub proof fn lemma_map_of_update<K, V>(s: Seq<(K, V)>, i: int, v: V)
    requires
        keys_unique(s),
        0 <= i < s.len(),
    ensures
        keys_unique(s.update(i, (s[i].0, v))),
        map_of(s.update(i, (s[i].0, v))) == map_of(s).insert(s[i].0, v),
    decreases s.len(),
{
    let t = s.update(i, (s[i].0, v));
    assert(keys_unique(t)) by {
        assert forall|a: int, b: int| 0 <= a < b < t.len() implies t[a].0 != t[b].0 by {
            assert(t[a].0 == s[a].0 && t[b].0 == s[b].0);
        }
    }
    if i == s.len() - 1 {
        assert(t.drop_last() =~= s.drop_last());
        assert(map_of(t) =~= map_of(s).insert(s[i].0, v));
    } else {
        let d = s.drop_last();
        assert(t.drop_last() =~= d.update(i, (d[i].0, v)));
        lemma_map_of_update(d, i, v);
        assert(s.last().0 != s[i].0);
        assert(map_of(t) =~= map_of(s).insert(s[i].0, v));
    }
}

/// Keeping the pairs whose keys lie in `keep`, one prefix at a time: the pairs
/// kept so far plus the next pair, where its key is kept, stand for the
/// restriction of the longer prefix.
pub proof fn lemma_map_of_restrict_step<K, V>(
    kept: Seq<(K, V)>,
    s: Seq<(K, V)>,
    i: int,
    keep: Set<K>,
)
    requires
        0 <= i < s.len(),
        map_of(kept) == map_of(s.subrange(0, i)).restrict(keep),
    ensures
        keep.contains(s[i].0) ==> map_of(kept.push(s[i])) == map_of(s.subrange(0, i + 1)).restrict(
            keep,
        ),
        !keep.contains(s[i].0) ==> map_of(kept) == map_of(s.subrange(0, i + 1)).restrict(keep),
{
    let pre = s.subrange(0, i);
    assert(s.subrange(0, i + 1).drop_last() =~= pre);
    assert(s.subrange(0, i + 1).last() == s[i]);
    lemma_map_of_push(kept, s[i]);
    assert(map_of(kept.push(s[i])) =~= map_of(kept).insert(s[i].0, s[i].1));
    if keep.contains(s[i].0) {
        assert(map_of(kept.push(s[i])) =~= map_of(s.subrange(0, i + 1)).restrict(keep));
    } else {
        assert(map_of(kept) =~= map_of(s.subrange(0, i + 1)).restrict(keep));
    }
}


/// `a` comes strictly before `b` in lexicographic order of bytes.
pub open spec fn seq_lt(a: Seq<u8>, b: Seq<u8>) -> bool {
    exists|i: int|
        0 <= i <= a.len() && i <= b.len() && (forall|j: int| 0 <= j < i ==> a[j] == b[j])
            && #[trigger] lt_at(a, b, i)
}

/// At position `i`, `a` ends while `b` goes on, or `a` holds the smaller
/// byte.
pub open spec fn lt_at(a: Seq<u8>, b: Seq<u8>, i: int) -> bool {
    (i == a.len() && i < b.len()) || (0 <= i < a.len() && i < b.len() && a[i] < b[i])
}

/// The first position where `a` and `b` differ, or the length of the shorter.
pub open spec fn first_diff(a: Seq<u8>, b: Seq<u8>) -> int
    decreases a.len(),
{
    if a.len() == 0 || b.len() == 0 || a[0] != b[0] {
        0
    } else {
        1 + first_diff(a.subrange(1, a.len() as int), b.subrange(1, b.len() as int))
    }
}

proof fn lemma_first_diff(a: Seq<u8>, b: Seq<u8>)
    ensures
        0 <= first_diff(a, b) <= a.len(),
        first_diff(a, b) <= b.len(),
        forall|j: int| 0 <= j < first_diff(a, b) ==> a[j] == b[j],
        first_diff(a, b) < a.len() && first_diff(a, b) < b.len() ==> a[first_diff(a, b)] != b[first_diff(a, b)],
    decreases a.len(),
{
    if !(a.len() == 0 || b.len() == 0 || a[0] != b[0]) {
        let a1 = a.subrange(1, a.len() as int);
        let b1 = b.subrange(1, b.len() as int);
        lemma_first_diff(a1, b1);
        assert forall|j: int| 0 <= j < first_diff(a, b) implies a[j] == b[j] by {
            if j > 0 {
                assert(a1[j - 1] == b1[j - 1]);
            }
        }
    }
}

/// Lexicographic order is decided at the first difference.
pub proof fn lemma_seq_lt_at_diff(a: Seq<u8>, b: Seq<u8>)
    ensures
        seq_lt(a, b) <==> lt_at(a, b, first_diff(a, b)),
{
    lemma_first_diff(a, b);
    let d = first_diff(a, b);
    if lt_at(a, b, d) {
        assert(0 <= d <= a.len() && d <= b.len() && (forall|j: int| 0 <= j < d ==> a[j] == b[j])
            && lt_at(a, b, d));
    }
    if seq_lt(a, b) {
        let i = choose|i: int|
            0 <= i <= a.len() && i <= b.len() && (forall|j: int| 0 <= j < i ==> a[j] == b[j])
                && lt_at(a, b, i);
        if d < i {
            assert(a[d] == b[d]);
        }
        if i < d {
            assert(a[i] == b[i]);
        }
        assert(i == d);
    }
}

/// Lexicographic order is a strict total order.
pub proof fn lemma_seq_lt_order(a: Seq<u8>, b: Seq<u8>, c: Seq<u8>)
    ensures
        !seq_lt(a, a),
        a != b ==> seq_lt(a, b) || seq_lt(b, a),
        seq_lt(a, b) ==> !seq_lt(b, a),
        seq_lt(a, b) && seq_lt(b, c) ==> seq_lt(a, c),
{
    lemma_seq_lt_at_diff(a, a);
    lemma_seq_lt_at_diff(a, b);
    lemma_seq_lt_at_diff(b, a);
    lemma_seq_lt_at_diff(b, c);
    lemma_seq_lt_at_diff(a, c);
    lemma_first_diff(a, a);
    lemma_first_diff(a, b);
    lemma_first_diff(b, a);
    lemma_first_diff(b, c);
    lemma_first_diff(a, c);
    let dab = first_diff(a, b);
    let dba = first_diff(b, a);
    assert(dab == dba) by {
        if dab < dba {
            assert(b[dab] == a[dab]);
        }
        if dba < dab {
            assert(a[dba] == b[dba]);
        }
    }
    if first_diff(a, a) < a.len() {
        assert(a[first_diff(a, a)] == a[first_diff(a, a)]);
    }
    if a != b {
        if dab == a.len() && dab == b.len() {
            assert(a =~= b);
        }
        if dab < a.len() && dab < b.len() {
            assert(a[dab] != b[dab]);
        }
    }
    if seq_lt(a, b) && seq_lt(b, c) {
        let dbc = first_diff(b, c);
        let dac = first_diff(a, c);
        let m = if dab < dbc {
            dab
        } else {
            dbc
        };
        assert forall|j: int| 0 <= j < m implies a[j] == c[j] by {
            assert(a[j] == b[j]);
            assert(b[j] == c[j]);
        }
        if dac < m {
            assert(a[dac] == c[dac]);
        }
        if dac > m {
            if dab < dbc {
                assert(a[m] == c[m]);
                assert(b[m] == c[m]);
            } else if dbc < dab {
                assert(a[m] == c[m]);
                assert(a[m] == b[m]);
            } else {
                assert(a[m] == c[m]);
            }
        }
    }
}

/// `a` comes strictly before `b` when both are written in UTF-8.
pub open spec fn key_lt(a: Seq<char>, b: Seq<char>) -> bool {
    seq_lt(encode_utf8(a), encode_utf8(b))
}

/// The keys of the list ascend strictly.
pub open spec fn keys_sorted<V>(s: Seq<(Seq<char>, V)>) -> bool {
    forall|i: int, j: int| 0 <= i < j < s.len() ==> key_lt(s[i].0, s[j].0)
}

/// The order on keys is a strict total order.
pub proof fn lemma_key_lt_order(a: Seq<char>, b: Seq<char>, c: Seq<char>)
    ensures
        !key_lt(a, a),
        a != b ==> key_lt(a, b) || key_lt(b, a),
        key_lt(a, b) ==> !key_lt(b, a),
        key_lt(a, b) && key_lt(b, c) ==> key_lt(a, c),
{
    lemma_seq_lt_order(encode_utf8(a), encode_utf8(b), encode_utf8(c));
    encode_utf8_decode_utf8(a);
    encode_utf8_decode_utf8(b);
}

/// Giving a pair a new value keeps the keys ascending.
pub proof fn lemma_sorted_update<V>(s: Seq<(Seq<char>, V)>, i: int, v: V)
    requires
        keys_sorted(s),
        0 <= i < s.len(),
    ensures
        keys_sorted(s.update(i, (s[i].0, v))),
{
    let t = s.update(i, (s[i].0, v));
    assert forall|a: int, b: int| 0 <= a < b < t.len() implies key_lt(t[a].0, t[b].0) by {
        assert(t[a].0 == s[a].0 && t[b].0 == s[b].0);
    }
}

/// Ascending keys are unique.
pub proof fn lemma_sorted_unique<V>(s: Seq<(Seq<char>, V)>)
    requires
        keys_sorted(s),
    ensures
        keys_unique(s),
{
    assert forall|i: int, j: int| 0 <= i < j < s.len() implies s[i].0 != s[j].0 by {
        lemma_key_lt_order(s[i].0, s[j].0, s[j].0);
    }
}

proof fn lemma_sorted_insert_order<V>(s: Seq<(Seq<char>, V)>, lo: int, p: (Seq<char>, V))
    requires
        keys_sorted(s),
        0 <= lo <= s.len(),
        forall|j: int| 0 <= j < lo ==> key_lt(#[trigger] s[j].0, p.0),
        forall|j: int| lo <= j < s.len() ==> key_lt(p.0, #[trigger] s[j].0),
    ensures
        keys_sorted(s.insert(lo, p)),
{
    let t = s.insert(lo, p);
    s.insert_ensures(lo, p);
    assert forall|i: int, j: int| 0 <= i < j < t.len() implies key_lt(t[i].0, t[j].0) by {
        if j < lo {
            assert(t[i] == s[i] && t[j] == s[j]);
        } else if j == lo {
            assert(t[i] == s[i]);
        } else if i < lo {
            assert(t[i] == s[i]);
            assert(t[(j - 1) + 1] == s[j - 1]);
        } else if i == lo {
            assert(t[(j - 1) + 1] == s[j - 1]);
        } else {
            assert(t[(i - 1) + 1] == s[i - 1]);
            assert(t[(j - 1) + 1] == s[j - 1]);
        }
    }
}

/// Inserting a pair at the position where its key belongs keeps the keys
/// ascending and inserts it into the map.
#[verifier::rlimit(40)]
pub proof fn lemma_sorted_insert<V>(s: Seq<(Seq<char>, V)>, lo: int, p: (Seq<char>, V))
    requires
        keys_sorted(s),
        0 <= lo <= s.len(),
        forall|j: int| 0 <= j < lo ==> key_lt(#[trigger] s[j].0, p.0),
        forall|j: int| lo <= j < s.len() ==> key_lt(p.0, #[trigger] s[j].0),
    ensures
        keys_sorted(s.insert(lo, p)),
        map_of(s.insert(lo, p)) == map_of(s).insert(p.0, p.1),
{
    let t = s.insert(lo, p);
    s.insert_ensures(lo, p);
    lemma_sorted_insert_order(s, lo, p);
    lemma_sorted_unique(s);
    lemma_sorted_unique(t);
    lemma_map_of_contains(s, p.0);
    assert(!map_of(s).contains_key(p.0)) by {
        if map_of(s).contains_key(p.0) {
            let i = choose|i: int| 0 <= i < s.len() && s[i].0 == p.0;
            lemma_key_lt_order(p.0, p.0, p.0);
        }
    }
    lemma_map_of_push(s, p);
    assert forall|q: (Seq<char>, V)| t.contains(q) <==> s.push(p).contains(q) by {
        if t.contains(q) {
            let i = choose|i: int| 0 <= i < t.len() && t[i] == q;
            if i < lo {
                assert(s.push(p)[i] == q);
            } else if i == lo {
                assert(s.push(p)[s.len() as int] == q);
            } else {
                assert(t[(i - 1) + 1] == s[i - 1]);
                assert(s.push(p)[i - 1] == q);
            }
        }
        if s.push(p).contains(q) {
            let i = choose|i: int| 0 <= i < s.push(p).len() && s.push(p)[i] == q;
            if i == s.len() {
                assert(t[lo] == q);
            } else if i < lo {
                assert(t[i] == q);
            } else {
                assert(t[i + 1] == s[i]);
                assert(t[i + 1] == q);
            }
        }
    }
    lemma_same_pairs_same_map(t, s.push(p));
}

/// Two lists with unique keys that hold the same pairs, in whatever order,
/// stand for the same map.
pub proof fn lemma_same_pairs_same_map<K, V>(a: Seq<(K, V)>, b: Seq<(K, V)>)
    requires
        keys_unique(a),
        keys_unique(b),
        forall|p: (K, V)| a.contains(p) <==> b.contains(p),
    ensures
        map_of(a) == map_of(b),
{
    assert forall|k: K| map_of(a).contains_key(k) <==> map_of(b).contains_key(k) by {
        lemma_map_of_contains(a, k);
        lemma_map_of_contains(b, k);
        if map_of(a).contains_key(k) {
            let i = choose|i: int| 0 <= i < a.len() && a[i].0 == k;
            assert(a.contains(a[i]));
        }
        if map_of(b).contains_key(k) {
            let i = choose|i: int| 0 <= i < b.len() && b[i].0 == k;
            assert(b.contains(b[i]));
        }
    }
    assert forall|k: K| map_of(a).contains_key(k) implies map_of(a)[k] == map_of(b)[k] by {
        lemma_map_of_contains(a, k);
        let i = choose|i: int| 0 <= i < a.len() && a[i].0 == k;
        assert(a.contains(a[i]));
        let j = choose|j: int| 0 <= j < b.len() && b[j] == a[i];
        lemma_map_of_index(a, i);
        lemma_map_of_index(b, j);
    }
    assert(map_of(a) =~= map_of(b));
}


/// A pair of a list whose first component is a string key.
pub trait KeyedPair {
    /// The key of the pair.
    spec fn key_view(&self) -> Seq<char>;

    /// The key of the pair, as text.
    fn key_str(&self) -> (r: &str)
        ensures
            r@ == self.key_view(),
    ;
}

/// Binary search for `key` in a list whose keys ascend: its position, or
/// the position where it belongs.
pub fn search_sorted<T: KeyedPair>(v: &Vec<T>, key: &str) -> (r: Result<usize, usize>)
    requires
        forall|i: int, j: int|
            0 <= i < j < v@.len() ==> key_lt(#[trigger] v@[i].key_view(), #[trigger] v@[j].key_view()),
    ensures
        match r {
            Ok(i) => i < v@.len() && v@[i as int].key_view() == key@,
            Err(lo) => lo <= v@.len() && (forall|j: int|
                0 <= j < lo ==> key_lt(#[trigger] v@[j].key_view(), key@)) && (forall|j: int|
                lo <= j < v@.len() ==> key_lt(key@, #[trigger] v@[j].key_view())),
        },
{
    let mut lo: usize = 0;
    let mut hi: usize = v.len();
    while lo < hi
        invariant
            lo <= hi <= v@.len(),
            forall|i: int, j: int|
                0 <= i < j < v@.len() ==> key_lt(#[trigger] v@[i].key_view(), #[trigger] v@[j].key_view()),
            forall|j: int| 0 <= j < lo ==> key_lt(#[trigger] v@[j].key_view(), key@),
            forall|j: int| hi <= j < v@.len() ==> key_lt(key@, #[trigger] v@[j].key_view()),
        decreases hi - lo,
    {
        let mid = lo + (hi - lo) / 2;
        let ord = crate::text::compare_str(v[mid].key_str(), key);
        let ghost m = v@[mid as int].key_view();
        match ord {
            Ordering::Equal => {
                return Ok(mid);
            },
            Ordering::Less => {
                proof {
                    assert forall|j: int| 0 <= j < mid + 1 implies key_lt(
                        #[trigger] v@[j].key_view(),
                        key@,
                    ) by {
                        lemma_key_lt_order(v@[j].key_view(), m, key@);
                    }
                }
                lo = mid + 1;
            },
            Ordering::Greater => {
                proof {
                    assert forall|j: int| mid <= j < v@.len() implies key_lt(
                        key@,
                        #[trigger] v@[j].key_view(),
                    ) by {
                        lemma_key_lt_order(key@, m, v@[j].key_view());
                    }
                }
                hi = mid;
            },
        }
    }
    Err(lo)
}

} // verus!
