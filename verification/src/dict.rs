//! A small map from string keys to values, kept as a list of distinct keys in
//! insertion order.

use vstd::prelude::*;
use crate::text::{
    chars_lt, dec, lemma_chars_lt_irreflexive, lemma_chars_lt_total, lemma_dec_injective, push_decimal, push_str,
    str_eq,
};

verus! {

/// A value that can be copied with its view kept.
pub trait Duplicate: View + Sized {
    fn duplicate(&self) -> (r: Self)
        ensures
            r@ == self@,
    ;
}

impl Duplicate for String {
    fn duplicate(&self) -> (r: Self) {
        self.clone()
    }
}

impl Duplicate for i64 {
    fn duplicate(&self) -> (r: Self) {
        *self
    }
}

/// Key/value pairs with pairwise distinct keys.
#[derive(Debug)]
pub struct Dict<V: View> {
    entries: Vec<(String, V)>,
}

pub open spec fn keys_distinct<V>(s: Seq<(Seq<char>, V)>) -> bool {
    forall|i: int, j: int| 0 <= i < s.len() && 0 <= j < s.len() && i != j ==> s[i].0 != s[j].0
}

/// The pairs of a list of entries, keys and values by their views.
pub open spec fn entries_view<V: View>(s: Seq<(String, V)>) -> Seq<(Seq<char>, V::V)> {
    s.map_values(|e: (String, V)| (e.0@, e.1@))
}

pub proof fn lemma_entries_view_push<V: View>(s: Seq<(String, V)>, e: (String, V))
    ensures
        entries_view(s.push(e)) == entries_view(s).push((e.0@, e.1@)),
{
    assert(entries_view(s.push(e)) =~= entries_view(s).push((e.0@, e.1@)));
}

/// The map that a list of pairs with distinct keys denotes.
pub open spec fn pairs_to_map<V>(s: Seq<(Seq<char>, V)>) -> Map<Seq<char>, V>
    decreases s.len(),
{
    if s.len() == 0 {
        Map::empty()
    } else {
        pairs_to_map(s.drop_last()).insert(s.last().0, s.last().1)
    }
}

/// The index of the pair whose key is `k`, if any.
pub open spec fn index_of_key<V>(s: Seq<(Seq<char>, V)>, k: Seq<char>) -> Option<int> {
    if exists|i: int| 0 <= i < s.len() && s[i].0 == k {
        Some(choose|i: int| 0 <= i < s.len() && s[i].0 == k)
    } else {
        None
    }
}

/// `pairs` with the value under `k` replaced, or the pair appended when `k`
/// is new.
pub open spec fn pairs_insert<V>(s: Seq<(Seq<char>, V)>, k: Seq<char>, v: V) -> Seq<(Seq<char>, V)> {
    match index_of_key(s, k) {
        Some(i) => s.update(i, (k, v)),
        None => s.push((k, v)),
    }
}

/// `pairs` without the pair whose key is `k`.
pub open spec fn pairs_remove<V>(s: Seq<(Seq<char>, V)>, k: Seq<char>) -> Seq<(Seq<char>, V)> {
    match index_of_key(s, k) {
        Some(i) => s.remove(i),
        None => s,
    }
}

/// Inserting into the pairs inserts into the map they denote.
pub proof fn lemma_pairs_insert_map<V>(s: Seq<(Seq<char>, V)>, k: Seq<char>, v: V)
    requires
        keys_distinct(s),
    ensures
        keys_distinct(pairs_insert(s, k, v)),
        pairs_to_map(pairs_insert(s, k, v)) == pairs_to_map(s).insert(k, v),
{
    let t = pairs_insert(s, k, v);
    match index_of_key(s, k) {
        Some(i) => {
            assert(s[i].0 == k);
            assert(t =~= s.update(i, (k, v)));
        },
        None => {
            assert(t =~= s.push((k, v)));
        },
    }
    assert(keys_distinct(t));
    let m = pairs_to_map(s).insert(k, v);
    assert forall|key: Seq<char>| pairs_to_map(t).contains_key(key) <==> m.contains_key(key) by {
        lemma_pairs_to_map_dom(t, key);
        lemma_pairs_to_map_dom(s, key);
        if m.contains_key(key) && key != k {
            let j = choose|j: int| 0 <= j < s.len() && s[j].0 == key;
            assert(t[j].0 == key);
        }
        if key == k {
            match index_of_key(s, k) {
                Some(i) => { assert(t[i].0 == k); },
                None => { assert(t[s.len() as int].0 == k); },
            }
        }
        if pairs_to_map(t).contains_key(key) && key != k {
            let j = choose|j: int| 0 <= j < t.len() && t[j].0 == key;
            assert(s[j].0 == key);
        }
    }
    assert forall|key: Seq<char>| #[trigger] pairs_to_map(t).contains_key(key) implies pairs_to_map(t)[key] == m[key] by {
        lemma_pairs_to_map_dom(t, key);
        let j = choose|j: int| 0 <= j < t.len() && t[j].0 == key;
        lemma_pairs_to_map_index(t, j);
        if key != k {
            lemma_pairs_to_map_index(s, j);
        }
    }
    assert(pairs_to_map(t) =~= m);
}

/// Removing from the pairs removes from the map they denote.
pub proof fn lemma_pairs_remove_map<V>(s: Seq<(Seq<char>, V)>, k: Seq<char>)
    requires
        keys_distinct(s),
    ensures
        keys_distinct(pairs_remove(s, k)),
        pairs_to_map(pairs_remove(s, k)) == pairs_to_map(s).remove(k),
{
    let t = pairs_remove(s, k);
    let m = pairs_to_map(s).remove(k);
    match index_of_key(s, k) {
        Some(i) => {
            assert(s[i].0 == k);
            assert forall|a: int, b: int| 0 <= a < t.len() && 0 <= b < t.len() && a != b implies t[a].0 != t[b].0 by {
                let a2 = if a < i { a } else { a + 1 };
                let b2 = if b < i { b } else { b + 1 };
                assert(t[a] == s[a2]);
                assert(t[b] == s[b2]);
            }
            assert forall|key: Seq<char>| pairs_to_map(t).contains_key(key) <==> m.contains_key(key) by {
                lemma_pairs_to_map_dom(t, key);
                lemma_pairs_to_map_dom(s, key);
                if pairs_to_map(t).contains_key(key) {
                    let j = choose|j: int| 0 <= j < t.len() && t[j].0 == key;
                    let j2 = if j < i { j } else { j + 1 };
                    assert(s[j2].0 == key);
                    assert(key != k);
                }
                if m.contains_key(key) {
                    let j = choose|j: int| 0 <= j < s.len() && s[j].0 == key;
                    assert(j != i);
                    let j2 = if j < i { j } else { j - 1 };
                    assert(t[j2].0 == key);
                }
            }
            assert forall|key: Seq<char>| #[trigger] pairs_to_map(t).contains_key(key) implies pairs_to_map(t)[key] == m[key] by {
                lemma_pairs_to_map_dom(t, key);
                let j = choose|j: int| 0 <= j < t.len() && t[j].0 == key;
                let j2 = if j < i { j } else { j + 1 };
                lemma_pairs_to_map_index(t, j);
                lemma_pairs_to_map_index(s, j2);
            }
        },
        None => {
            assert forall|key: Seq<char>| pairs_to_map(t).contains_key(key) <==> m.contains_key(key) by {
                lemma_pairs_to_map_dom(s, key);
            }
        },
    }
    assert(pairs_to_map(t) =~= m);
}

pub proof fn lemma_pairs_to_map_index<V>(s: Seq<(Seq<char>, V)>, i: int)
    requires
        keys_distinct(s),
        0 <= i < s.len(),
    ensures
        pairs_to_map(s).contains_key(s[i].0),
        pairs_to_map(s)[s[i].0] == s[i].1,
    decreases s.len(),
{
    if i < s.len() - 1 {
        lemma_pairs_to_map_index(s.drop_last(), i);
    }
}

pub proof fn lemma_pairs_to_map_dom<V>(s: Seq<(Seq<char>, V)>, k: Seq<char>)
    ensures
        pairs_to_map(s).contains_key(k) <==> exists|i: int| 0 <= i < s.len() && s[i].0 == k,
    decreases s.len(),
{
    if s.len() > 0 {
        lemma_pairs_to_map_dom(s.drop_last(), k);
        if pairs_to_map(s.drop_last()).contains_key(k) {
            let i = choose|i: int| 0 <= i < s.drop_last().len() && s.drop_last()[i].0 == k;
            assert(s[i].0 == k);
        }
        if exists|i: int| 0 <= i < s.len() && s[i].0 == k {
            let i = choose|i: int| 0 <= i < s.len() && s[i].0 == k;
            if i < s.len() - 1 {
                assert(s.drop_last()[i].0 == k);
            }
        }
    }
}


/// Inserting a pair with a new key anywhere in the list adds it to the map.
pub proof fn lemma_pairs_to_map_insert_at<V>(s: Seq<(Seq<char>, V)>, pos: int, k: Seq<char>, v: V)
    requires
        keys_distinct(s),
        0 <= pos <= s.len(),
        forall|i: int| 0 <= i < s.len() ==> s[i].0 != k,
    ensures
        keys_distinct(s.insert(pos, (k, v))),
        pairs_to_map(s.insert(pos, (k, v))) == pairs_to_map(s).insert(k, v),
{
    let t = s.insert(pos, (k, v));
    s.insert_ensures(pos, (k, v));
    assert forall|a: int| 0 <= a < t.len() && a != pos implies #[trigger] t[a] == s[if a < pos {
        a
    } else {
        a - 1
    }] by {}
    assert(keys_distinct(t));
    let m1 = pairs_to_map(t);
    let m2 = pairs_to_map(s).insert(k, v);
    assert forall|key: Seq<char>| m1.contains_key(key) <==> m2.contains_key(key) by {
        lemma_pairs_to_map_dom(t, key);
        lemma_pairs_to_map_dom(s, key);
        if key == k {
            assert(t[pos].0 == key);
        } else if m2.contains_key(key) {
            let i = choose|i: int| 0 <= i < s.len() && s[i].0 == key;
            let a = if i < pos { i } else { i + 1 };
            assert(t[a].0 == key);
        }
        if m1.contains_key(key) && key != k {
            let a = choose|a: int| 0 <= a < t.len() && t[a].0 == key;
            let i = if a < pos { a } else { a - 1 };
            assert(s[i].0 == key);
        }
    }
    assert forall|key: Seq<char>| m1.contains_key(key) implies m1[key] == m2[key] by {
        lemma_pairs_to_map_dom(t, key);
        let a = choose|a: int| 0 <= a < t.len() && t[a].0 == key;
        lemma_pairs_to_map_index(t, a);
        if a != pos {
            let i = if a < pos { a } else { a - 1 };
            lemma_pairs_to_map_index(s, i);
        }
    }
    assert(m1 =~= m2);
}

/// Dropping the first pair removes its key from the map.
pub proof fn lemma_pairs_to_map_drop_first<V>(s: Seq<(Seq<char>, V)>)
    requires
        keys_distinct(s),
        s.len() > 0,
    ensures
        pairs_to_map(s.drop_first()) == pairs_to_map(s).remove(s[0].0),
{
    let t = s.drop_first();
    let m1 = pairs_to_map(t);
    let m2 = pairs_to_map(s).remove(s[0].0);
    assert forall|key: Seq<char>| m1.contains_key(key) <==> m2.contains_key(key) by {
        lemma_pairs_to_map_dom(t, key);
        lemma_pairs_to_map_dom(s, key);
        if m1.contains_key(key) {
            let a = choose|a: int| 0 <= a < t.len() && t[a].0 == key;
            assert(s[a + 1].0 == key);
        }
        if m2.contains_key(key) {
            let i = choose|i: int| 0 <= i < s.len() && s[i].0 == key;
            assert(t[i - 1].0 == key);
        }
    }
    assert forall|key: Seq<char>| m1.contains_key(key) implies m1[key] == m2[key] by {
        lemma_pairs_to_map_dom(t, key);
        let a = choose|a: int| 0 <= a < t.len() && t[a].0 == key;
        lemma_pairs_to_map_index(t, a);
        lemma_pairs_to_map_index(s, a + 1);
    }
    assert(m1 =~= m2);
}

/// The keys come in ascending order of code points.
pub open spec fn keys_ascending<V>(s: Seq<(Seq<char>, V)>) -> bool {
    forall|i: int, j: int| 0 <= i < j < s.len() ==> chars_lt(#[trigger] s[i].0, #[trigger] s[j].0)
}

/// The pairs of a map in ascending order of keys.
pub open spec fn in_key_order<V>(m: Map<Seq<char>, V>) -> Seq<(Seq<char>, V)> {
    choose|s: Seq<(Seq<char>, V)>| keys_ascending(s) && pairs_to_map(s) == m
}

pub proof fn lemma_ascending_distinct<V>(s: Seq<(Seq<char>, V)>)
    requires
        keys_ascending(s),
    ensures
        keys_distinct(s),
{
    assert forall|i: int, j: int| 0 <= i < s.len() && 0 <= j < s.len() && i != j implies s[i].0 != s[j].0 by {
        lemma_chars_lt_irreflexive(s[i].0);
        if i < j {
            assert(chars_lt(s[i].0, s[j].0));
        } else {
            assert(chars_lt(s[j].0, s[i].0));
        }
    }
}

/// Two lists in ascending key order that denote the same map are the same
/// list.
pub proof fn lemma_ascending_unique<V>(a: Seq<(Seq<char>, V)>, b: Seq<(Seq<char>, V)>)
    requires
        keys_ascending(a),
        keys_ascending(b),
        pairs_to_map(a) == pairs_to_map(b),
    ensures
        a == b,
    decreases a.len(),
{
    lemma_ascending_distinct(a);
    lemma_ascending_distinct(b);
    if a.len() == 0 {
        if b.len() > 0 {
            lemma_pairs_to_map_index(b, 0);
            lemma_pairs_to_map_dom(a, b[0].0);
        }
        assert(a =~= b);
    } else if b.len() == 0 {
        lemma_pairs_to_map_index(a, 0);
        lemma_pairs_to_map_dom(b, a[0].0);
    } else {
        lemma_pairs_to_map_index(a, 0);
        lemma_pairs_to_map_index(b, 0);
        lemma_pairs_to_map_dom(b, a[0].0);
        lemma_pairs_to_map_dom(a, b[0].0);
        let j = choose|j: int| 0 <= j < b.len() && b[j].0 == a[0].0;
        let i = choose|i: int| 0 <= i < a.len() && a[i].0 == b[0].0;
        if j > 0 {
            assert(chars_lt(b[0].0, b[j].0));
            lemma_chars_lt_irreflexive(a[0].0);
            if i > 0 {
                assert(chars_lt(a[0].0, a[i].0));
                lemma_chars_lt_total(a[0].0, a[i].0);
            }
        }
        assert(a[0] == b[0]);
        lemma_pairs_to_map_drop_first(a);
        lemma_pairs_to_map_drop_first(b);
        let a1 = a.drop_first();
        let b1 = b.drop_first();
        assert(keys_ascending(a1)) by {
            assert forall|x: int, y: int| 0 <= x < y < a1.len() implies chars_lt(#[trigger] a1[x].0, #[trigger] a1[y].0) by {
                assert(a1[x] == a[x + 1] && a1[y] == a[y + 1]);
            }
        }
        assert(keys_ascending(b1)) by {
            assert forall|x: int, y: int| 0 <= x < y < b1.len() implies chars_lt(#[trigger] b1[x].0, #[trigger] b1[y].0) by {
                assert(b1[x] == b[x + 1] && b1[y] == b[y + 1]);
            }
        }
        lemma_ascending_unique(a1, b1);
        assert(a =~= seq![a[0]] + a1);
        assert(b =~= seq![b[0]] + b1);
    }
}

/// Inserting a key at the place where it belongs keeps the keys ascending.
pub proof fn lemma_ascending_insert<V>(s: Seq<(Seq<char>, V)>, pos: int, k: Seq<char>, v: V)
    requires
        keys_ascending(s),
        0 <= pos <= s.len(),
        forall|a: int| 0 <= a < pos ==> chars_lt(#[trigger] s[a].0, k),
        forall|a: int| pos <= a < s.len() ==> chars_lt(k, #[trigger] s[a].0),
    ensures
        keys_ascending(s.insert(pos, (k, v))),
{
    let t = s.insert(pos, (k, v));
    s.insert_ensures(pos, (k, v));
    assert forall|x: int, y: int| 0 <= x < y < t.len() implies chars_lt(#[trigger] t[x].0, #[trigger] t[y].0) by {
        if y < pos {
            assert(chars_lt(s[x].0, s[y].0));
        } else if y == pos {
            assert(chars_lt(s[x].0, k));
        } else if x < pos {
            assert(t[y] == s[y - 1]);
            assert(chars_lt(s[x].0, s[y - 1].0));
        } else if x == pos {
            assert(t[y] == s[y - 1]);
            assert(chars_lt(k, s[y - 1].0));
        } else {
            assert(t[x] == s[x - 1] && t[y] == s[y - 1]);
            assert(chars_lt(s[x - 1].0, s[y - 1].0));
        }
    }
}

/// A list in ascending key order is the ordered listing of its map.
pub proof fn lemma_in_key_order<V>(s: Seq<(Seq<char>, V)>)
    requires
        keys_ascending(s),
    ensures
        in_key_order(pairs_to_map(s)) == s,
{
    let m = pairs_to_map(s);
    assert(keys_ascending(s) && pairs_to_map(s) == m);
    let t = in_key_order(m);
    lemma_ascending_unique(t, s);
}

/// The pairs whose flag equals `want`, in order.
pub open spec fn select_pairs<V>(s: Seq<(Seq<char>, V)>, flags: Seq<bool>, want: bool) -> Seq<(Seq<char>, V)>
    decreases s.len(),
{
    if s.len() == 0 || flags.len() != s.len() {
        Seq::empty()
    } else {
        let r = select_pairs(s.drop_last(), flags.drop_last(), want);
        if flags.last() == want {
            r.push(s.last())
        } else {
            r
        }
    }
}

/// Every selected pair is a pair of `s`; distinct keys stay distinct.
pub proof fn lemma_select_pairs<V>(s: Seq<(Seq<char>, V)>, flags: Seq<bool>, want: bool)
    requires
        keys_distinct(s),
        flags.len() == s.len(),
    ensures
        keys_distinct(select_pairs(s, flags, want)),
        forall|a: int|
            0 <= a < select_pairs(s, flags, want).len() ==> exists|j: int|
                0 <= j < s.len() && flags[j] == want && #[trigger] select_pairs(s, flags, want)[a] == s[j],
    decreases s.len(),
{
    if s.len() > 0 {
        let s0 = s.drop_last();
        let f0 = flags.drop_last();
        lemma_select_pairs(s0, f0, want);
        let r0 = select_pairs(s0, f0, want);
        let r = select_pairs(s, flags, want);
        assert forall|a: int| 0 <= a < r.len() implies exists|j: int|
            0 <= j < s.len() && flags[j] == want && #[trigger] r[a] == s[j] by {
            if a < r0.len() {
                assert(r[a] == r0[a]);
                let j = choose|j: int| 0 <= j < s0.len() && f0[j] == want && r0[a] == s0[j];
                assert(s[j] == s0[j] && flags[j] == f0[j]);
            } else {
                assert(r[a] == s.last());
                assert(s[s.len() - 1] == s.last());
            }
        }
        if flags.last() == want {
            assert forall|a: int, b: int| 0 <= a < r.len() && 0 <= b < r.len() && a != b implies r[a].0 != r[b].0 by {
                if a < r0.len() && b < r0.len() {
                    assert(r[a] == r0[a] && r[b] == r0[b]);
                } else if a < r0.len() {
                    let j = choose|j: int| 0 <= j < s0.len() && f0[j] == want && r0[a] == s0[j];
                    assert(r[a] == s[j]);
                    assert(r[b] == s[s.len() - 1]);
                } else if b < r0.len() {
                    let j = choose|j: int| 0 <= j < s0.len() && f0[j] == want && r0[b] == s0[j];
                    assert(r[b] == s[j]);
                    assert(r[a] == s[s.len() - 1]);
                }
            }
        }
    }
}

/// A key made of a prefix, the decimal form of an index, and a suffix, such as
/// `Attribute.3.Name`.
pub open spec fn indexed_key(prefix: Seq<char>, n: nat, suffix: Seq<char>) -> Seq<char> {
    prefix + dec(n) + suffix
}

/// The text of an indexed key.
pub fn indexed_key_string(prefix: &str, n: u128, suffix: &str) -> (r: String)
    ensures
        r@ == indexed_key(prefix@, n as nat, suffix@),
{
    let mut r = String::new();
    push_str(&mut r, prefix);
    push_decimal(&mut r, n);
    push_str(&mut r, suffix);
    assert(r@ =~= indexed_key(prefix@, n as nat, suffix@));
    r
}

pub proof fn lemma_indexed_key_injective(prefix: Seq<char>, suffix: Seq<char>, a: nat, b: nat)
    requires
        indexed_key(prefix, a, suffix) == indexed_key(prefix, b, suffix),
    ensures
        a == b,
{
    let x = indexed_key(prefix, a, suffix);
    let y = indexed_key(prefix, b, suffix);
    assert(x.len() == prefix.len() + dec(a).len() + suffix.len());
    assert(y.len() == prefix.len() + dec(b).len() + suffix.len());
    assert(dec(a).len() == dec(b).len());
    assert(x.subrange(prefix.len() as int, (prefix.len() + dec(a).len()) as int) =~= dec(a));
    assert(y.subrange(prefix.len() as int, (prefix.len() + dec(b).len()) as int) =~= dec(b));
    lemma_dec_injective(a, b);
}

pub proof fn lemma_pairs_dom_len<V>(s: Seq<(Seq<char>, V)>)
    ensures
        pairs_to_map(s).dom().finite(),
        pairs_to_map(s).dom().len() <= s.len(),
    decreases s.len(),
{
    if s.len() > 0 {
        lemma_pairs_dom_len(s.drop_last());
        assert(pairs_to_map(s).dom() =~= pairs_to_map(s.drop_last()).dom().insert(s.last().0));
    }
}

/// At most as many indexed keys `prefix<j>suffix`, `j` in `1..=m`, can all be
/// present as there are pairs.
pub proof fn lemma_indexed_keys_bound<V>(s: Seq<(Seq<char>, V)>, prefix: Seq<char>, suffix: Seq<char>, m: nat)
    requires
        forall|j: nat| 1 <= j <= m ==> #[trigger] pairs_to_map(s).contains_key(indexed_key(prefix, j, suffix)),
    ensures
        m <= s.len(),
{
    let f = |j: int| indexed_key(prefix, j as nat, suffix);
    let r = vstd::set_lib::set_int_range(1, (m + 1) as int);
    vstd::set_lib::lemma_int_range(1, (m + 1) as int);
    let k = r.map(f);
    assert(vstd::relations::injective_on(f, r)) by {
        assert forall|a: int, b: int| r.contains(a) && r.contains(b) && #[trigger] f(a) == #[trigger] f(b) implies a == b by {
            lemma_indexed_key_injective(prefix, suffix, a as nat, b as nat);
        }
    }
    vstd::set_lib::lemma_map_size(r, k, f);
    lemma_pairs_dom_len(s);
    assert(k.subset_of(pairs_to_map(s).dom())) by {
        assert forall|key: Seq<char>| k.contains(key) implies pairs_to_map(s).dom().contains(key) by {
            let j = choose|j: int| r.contains(j) && f(j) == key;
            assert(pairs_to_map(s).contains_key(indexed_key(prefix, j as nat, suffix)));
        }
    }
    vstd::set_lib::lemma_len_subset(k, pairs_to_map(s).dom());
}

impl<V: View> View for Dict<V> {
    type V = Map<Seq<char>, V::V>;

    open spec fn view(&self) -> Map<Seq<char>, V::V> {
        pairs_to_map(self.pairs())
    }
}

impl<V: View> Dict<V> {
    /// The pairs in insertion order, keys and values by their views.
    pub closed spec fn pairs(&self) -> Seq<(Seq<char>, V::V)> {
        entries_view(self.entries@)
    }

    #[verifier::type_invariant]
    closed spec fn wf(&self) -> bool {
        keys_distinct(self.pairs())
    }

    /// An empty dictionary.
    pub fn new() -> (d: Self)
        ensures
            d.pairs() == Seq::<(Seq<char>, V::V)>::empty(),
            d@ == Map::<Seq<char>, V::V>::empty(),
    {
        let d = Dict { entries: Vec::new() };
        assert(d.pairs() =~= Seq::<(Seq<char>, V::V)>::empty());
        d
    }

    /// The number of pairs, which is at least the number of keys that are
    /// present.
    pub proof fn lemma_keys_bound(&self, prefix: Seq<char>, suffix: Seq<char>, m: nat)
        requires
            forall|j: nat| 1 <= j <= m ==> #[trigger] self@.contains_key(indexed_key(prefix, j, suffix)),
        ensures
            m <= self.pairs().len(),
    {
        assert forall|j: nat| 1 <= j <= m implies #[trigger] pairs_to_map(self.pairs()).contains_key(
            indexed_key(prefix, j, suffix),
        ) by {
            assert(self@.contains_key(indexed_key(prefix, j, suffix)));
        }
        lemma_indexed_keys_bound(self.pairs(), prefix, suffix, m);
    }

    /// The number of pairs.
    pub fn len(&self) -> (n: usize)
        ensures
            n == self.pairs().len(),
            keys_distinct(self.pairs()),
    {
        proof { use_type_invariant(self); }
        self.entries.len()
    }

    /// Whether there are no pairs.
    pub fn is_empty(&self) -> (b: bool)
        ensures
            b == (self.pairs().len() == 0),
    {
        self.entries.len() == 0
    }

    fn find(&self, key: &str) -> (r: Option<usize>)
        ensures
            match r {
                Some(i) => index_of_key(self.pairs(), key@) == Some(i as int) && i < self.pairs().len()
                    && self.pairs()[i as int].0 == key@,
                None => index_of_key(self.pairs(), key@) is None,
            },
    {
        proof { use_type_invariant(self); }
        let mut i: usize = 0;
        while i < self.entries.len()
            invariant
                i <= self.entries.len(),
                keys_distinct(self.pairs()),
                self.pairs().len() == self.entries.len(),
                forall|j: int| 0 <= j < i ==> #[trigger] self.pairs()[j].0 != key@,
            decreases self.entries.len() - i,
        {
            assert(self.pairs()[i as int].0 == self.entries@[i as int].0@);
            if str_eq(self.entries[i].0.as_str(), key) {
                assert(self.pairs()[i as int].0 == key@);
                let ghost c = choose|j: int| 0 <= j < self.pairs().len() && self.pairs()[j].0 == key@;
                assert(c == i);
                return Some(i);
            }
            i = i + 1;
        }
        None
    }

    /// The value under `key`, if any.
    pub fn get(&self, key: &str) -> (r: Option<&V>)
        ensures
            match r {
                Some(v) => self@.contains_key(key@) && self@[key@] == v@,
                None => !self@.contains_key(key@),
            },
    {
        proof {
            use_type_invariant(self);
            lemma_pairs_to_map_dom(self.pairs(), key@);
        }
        match self.find(key) {
            Some(i) => {
                proof {
                    lemma_pairs_to_map_index(self.pairs(), i as int);
                    assert(self.pairs()[i as int] == (self.entries@[i as int].0@, self.entries@[i as int].1@));
                }
                Some(&self.entries[i].1)
            },
            None => None,
        }
    }

    /// Whether `key` has a value.
    pub fn contains_key(&self, key: &str) -> (b: bool)
        ensures
            b == self@.contains_key(key@),
    {
        proof {
            lemma_pairs_to_map_dom(self.pairs(), key@);
        }
        self.find(key).is_some()
    }

    /// Puts `value` under `key`, replacing the value that was there.
    pub fn insert(&mut self, key: String, value: V)
        ensures
            final(self).pairs() == pairs_insert(old(self).pairs(), key@, value@),
            final(self)@ == old(self)@.insert(key@, value@),
    {
        proof { use_type_invariant(&*self); }
        let ghost old_pairs = self.pairs();
        let found = self.find(key.as_str());
        let ghost k = key@;
        let ghost v = value@;
        match found {
            Some(i) => {
                let mut entries: Vec<(String, V)> = Vec::new();
                std::mem::swap(&mut entries, &mut self.entries);
                let ghost before = entries@;
                entries.set(i, (key, value));
                assert(entries_view(entries@) =~= old_pairs.update(i as int, (k, v)));
                self.entries = entries;
            },
            None => {
                let mut entries: Vec<(String, V)> = Vec::new();
                std::mem::swap(&mut entries, &mut self.entries);
                entries.push((key, value));
                assert(entries_view(entries@) =~= old_pairs.push((k, v)));
                self.entries = entries;
            },
        }
        proof {
            lemma_pairs_insert_map(old_pairs, k, v);
        }
    }

    /// Removes the pair under `key`, if any, and returns whether there was one.
    pub fn remove(&mut self, key: &str) -> (b: bool)
        ensures
            b == old(self)@.contains_key(key@),
            final(self).pairs() == pairs_remove(old(self).pairs(), key@),
            !b ==> final(self).pairs() == old(self).pairs(),
            final(self)@ == old(self)@.remove(key@),
    {
        proof {
            use_type_invariant(&*self);
            lemma_pairs_to_map_dom(self.pairs(), key@);
        }
        let ghost old_pairs = self.pairs();
        let found = self.find(key);
        match found {
            Some(i) => {
                let mut entries: Vec<(String, V)> = Vec::new();
                std::mem::swap(&mut entries, &mut self.entries);
                entries.remove(i);
                assert(entries_view(entries@) =~= old_pairs.remove(i as int));
                proof {
                    lemma_pairs_remove_map(old_pairs, key@);
                    assert(index_of_key(old_pairs, key@) == Some(i as int));
                }
                self.entries = entries;
                true
            },
            None => {
                proof {
                    lemma_pairs_remove_map(old_pairs, key@);
                }
                false
            },
        }
    }

    /// Removes the pair under `key` and returns its value, if any.
    pub fn take(&mut self, key: &str) -> (r: Option<V>)
        ensures
            final(self).pairs() == pairs_remove(old(self).pairs(), key@),
            final(self)@ == old(self)@.remove(key@),
            r is None ==> final(self).pairs() == old(self).pairs(),
            match r {
                Some(v) => old(self)@.contains_key(key@) && old(self)@[key@] == v@,
                None => !old(self)@.contains_key(key@),
            },
    {
        proof {
            use_type_invariant(&*self);
            lemma_pairs_to_map_dom(self.pairs(), key@);
        }
        let ghost old_pairs = self.pairs();
        let found = self.find(key);
        match found {
            Some(i) => {
                let mut entries: Vec<(String, V)> = Vec::new();
                std::mem::swap(&mut entries, &mut self.entries);
                proof {
                    lemma_pairs_to_map_index(old_pairs, i as int);
                    assert(old_pairs[i as int] == (entries@[i as int].0@, entries@[i as int].1@));
                }
                let (_, v) = entries.remove(i);
                assert(entries_view(entries@) =~= old_pairs.remove(i as int));
                proof {
                    lemma_pairs_remove_map(old_pairs, key@);
                    assert(index_of_key(old_pairs, key@) == Some(i as int));
                }
                self.entries = entries;
                Some(v)
            },
            None => {
                proof {
                    lemma_pairs_remove_map(old_pairs, key@);
                }
                None
            },
        }
    }


    /// Splits off the pairs whose flag is set, keeping the others in order,
    /// and returns them in order.
    pub fn split_off_flagged(&mut self, flags: &Vec<bool>) -> (removed: Vec<(String, V)>)
        requires
            flags@.len() == old(self).pairs().len(),
        ensures
            final(self).pairs() == select_pairs(old(self).pairs(), flags@, false),
            entries_view(removed@) == select_pairs(old(self).pairs(), flags@, true),
    {
        proof { use_type_invariant(&*self); }
        let ghost p = self.pairs();
        let mut entries: Vec<(String, V)> = Vec::new();
        std::mem::swap(&mut entries, &mut self.entries);
        let mut kept: Vec<(String, V)> = Vec::new();
        let mut removed: Vec<(String, V)> = Vec::new();
        let mut i: usize = 0;
        let n = flags.len();
        for e in it: entries
            invariant
                n == flags@.len(),
                i == it.index(),
                it.seq().len() == flags@.len(),
                p == entries_view(it.seq()),
                flags@.len() == p.len(),
                keys_distinct(p),
                entries_view(kept@) == select_pairs(p.take(it.index() as int), flags@.take(it.index() as int), false),
                entries_view(removed@) == select_pairs(p.take(it.index() as int), flags@.take(it.index() as int), true),
        {
            let ghost k = i as int;
            let ghost pk = p.take(k + 1);
            let ghost fk = flags@.take(k + 1);
            assert(pk.drop_last() =~= p.take(k));
            assert(fk.drop_last() =~= flags@.take(k));
            assert(pk.last() == (e.0@, e.1@));
            if flags[i] {
                proof { lemma_entries_view_push(removed@, e); }
                removed.push(e);
            } else {
                proof { lemma_entries_view_push(kept@, e); }
                kept.push(e);
            }
            i = i + 1;
        }
        assert(p.take(p.len() as int) =~= p);
        assert(flags@.take(p.len() as int) =~= flags@);
        proof {
            lemma_select_pairs(p, flags@, false);
        }
        self.entries = kept;
        removed
    }

    /// The pair at position `i`.
    pub fn entry(&self, i: usize) -> (r: (&String, &V))
        requires
            i < self.pairs().len(),
        ensures
            r.0@ == self.pairs()[i as int].0,
            r.1@ == self.pairs()[i as int].1,
            self@.contains_key(r.0@),
            self@[r.0@] == r.1@,
    {
        proof {
            use_type_invariant(self);
            lemma_pairs_to_map_index(self.pairs(), i as int);
        }
        (&self.entries[i].0, &self.entries[i].1)
    }
}

impl<V: Duplicate> Dict<V> {
    /// A copy with the same pairs in the same order.
    pub fn duplicate(&self) -> (r: Self)
        ensures
            r.pairs() == self.pairs(),
            r@ == self@,
    {
        proof { use_type_invariant(self); }
        let mut entries: Vec<(String, V)> = Vec::new();
        let mut i: usize = 0;
        while i < self.entries.len()
            invariant
                i <= self.entries.len(),
                self.pairs().len() == self.entries.len(),
                keys_distinct(self.pairs()),
                entries_view(entries@) == self.pairs().take(i as int),
            decreases self.entries.len() - i,
        {
            let k = self.entries[i].0.clone();
            let v = self.entries[i].1.duplicate();
            let ghost before = entries@;
            proof {
                lemma_entries_view_push(before, (k, v));
                assert(self.pairs()[i as int] == (self.entries@[i as int].0@, self.entries@[i as int].1@));
                assert(self.pairs().take(i as int).push(self.pairs()[i as int]) =~= self.pairs().take((i + 1) as int));
            }
            entries.push((k, v));
            i = i + 1;
        }
        assert(self.pairs().take(self.entries.len() as int) =~= self.pairs());
        Dict { entries }
    }
}

impl<V: Duplicate> Clone for Dict<V> {
    fn clone(&self) -> (r: Self)
        ensures
            r.pairs() == self.pairs(),
    {
        self.duplicate()
    }
}

} // verus!
