//! A string-keyed map of attribute values, with no key twice, and the
//! ascending-key listing the writer emits it in.

use vstd::prelude::*;
use crate::text::{str_less, str_lt, lemma_str_lt_strict_total};

verus! {

/// A key and its value, as character sequences.
pub type Pair = (Seq<char>, Seq<char>);

/// The map holding each key of `pairs` with its value; a later pair wins
/// over an earlier one with the same key.
pub open spec fn pairs_to_map(pairs: Seq<Pair>) -> Map<Seq<char>, Seq<char>>
    decreases pairs.len(),
{
    if pairs.len() == 0 {
        Map::empty()
    } else {
        pairs_to_map(pairs.drop_last()).insert(pairs.last().0, pairs.last().1)
    }
}

/// No key occurs twice in `pairs`.
pub open spec fn distinct_keys(pairs: Seq<Pair>) -> bool {
    forall|i: int, j: int| 0 <= i < j < pairs.len() ==> pairs[i].0 != pairs[j].0
}

/// Attribute values keyed by name, such as vendor-specific `#EXTINF`
/// attributes or `#KODIPROP` properties.
#[derive(Debug)]
pub struct AttrMap {
    pairs: Vec<(String, String)>,
}

impl AttrMap {
    /// The stored pairs, in the order they were first inserted.
    pub closed spec fn pairs(self) -> Seq<Pair> {
        self.pairs@.map_values(|p: (String, String)| (p.0@, p.1@))
    }

    #[verifier::type_invariant]
    closed spec fn keys_are_distinct(self) -> bool {
        distinct_keys(self.pairs())
    }

    /// An empty map.
    pub fn new() -> (m: AttrMap)
        ensures
            m@ == Map::<Seq<char>, Seq<char>>::empty(),
            m.pairs() == Seq::<Pair>::empty(),
    {
        let m = AttrMap { pairs: Vec::new() };
        assert(m.pairs() =~= Seq::<Pair>::empty());
        m
    }

    /// The number of keys.
    pub fn len(&self) -> (n: usize)
        ensures
            n == self.pairs().len(),
            n == self@.len(),
    {
        proof {
            use_type_invariant(self);
            lemma_pairs_to_map_len(self.pairs());
        }
        self.pairs.len()
    }

    /// Whether the map has no key.
    pub fn is_empty(&self) -> (empty: bool)
        ensures
            empty == (self@.len() == 0),
            empty == (self.pairs().len() == 0),
    {
        proof {
            use_type_invariant(self);
            lemma_pairs_to_map_len(self.pairs());
        }
        self.pairs.len() == 0
    }

    /// Sets the value of `key`, handing back the value it replaced.
    pub fn insert(&mut self, key: String, value: String) -> (previous: Option<String>)
        ensures
            final(self)@ == old(self)@.insert(key@, value@),
            previous is Some <==> old(self)@.contains_key(key@),
            previous matches Some(v) ==> v@ == old(self)@[key@],
    {
        proof {
            use_type_invariant(&*self);
        }
        let ghost before = self.pairs();
        let mut pairs: Vec<(String, String)> = Vec::new();
        std::mem::swap(&mut pairs, &mut self.pairs);
        assert(before =~= pairs@.map_values(|p: (String, String)| (p.0@, p.1@)));
        let mut i: usize = 0;
        while i < pairs.len()
            invariant
                i <= pairs@.len(),
                before == pairs@.map_values(|p: (String, String)| (p.0@, p.1@)),
                distinct_keys(before),
                old(self)@ == pairs_to_map(before),
                forall|j: int| 0 <= j < i ==> #[trigger] before[j].0 != key@,
            decreases pairs@.len() - i,
        {
            if pairs[i].0 == key {
                let previous = pairs[i].1.clone();
                proof {
                    lemma_pairs_to_map_lookup(before, i as int);
                    lemma_pairs_to_map_update(before, i as int, value@);
                }
                pairs.set(i, (key, value));
                assert(pairs@.map_values(|p: (String, String)| (p.0@, p.1@)) =~= before.update(
                    i as int,
                    (before[i as int].0, value@),
                ));
                self.pairs = pairs;
                return Some(previous);
            }
            i = i + 1;
        }
        proof {
            lemma_pairs_to_map_keys(before);
        }
        pairs.push((key, value));
        let ghost after = pairs@.map_values(|p: (String, String)| (p.0@, p.1@));
        assert(after =~= before.push((key@, value@)));
        assert(after.drop_last() =~= before);
        self.pairs = pairs;
        None
    }
}

impl View for AttrMap {
    type V = Map<Seq<char>, Seq<char>>;

    /// The keys and values held.
    open spec fn view(&self) -> Map<Seq<char>, Seq<char>> {
        pairs_to_map(self.pairs())
    }
}

impl Default for AttrMap {
    fn default() -> (m: AttrMap)
        ensures
            m@ == Map::<Seq<char>, Seq<char>>::empty(),
    {
        AttrMap::new()
    }
}

/// A key is in the map exactly when some pair holds it, and the map is finite.
pub proof fn lemma_pairs_to_map_keys(pairs: Seq<Pair>)
    ensures
        pairs_to_map(pairs).dom().finite(),
        forall|k: Seq<char>|
            #[trigger] pairs_to_map(pairs).contains_key(k) <==> exists|i: int|
                0 <= i < pairs.len() && #[trigger] pairs[i].0 == k,
    decreases pairs.len(),
{
    if pairs.len() > 0 {
        let rest = pairs.drop_last();
        lemma_pairs_to_map_keys(rest);
        assert forall|k: Seq<char>|
            #[trigger] pairs_to_map(pairs).contains_key(k) <==> exists|i: int|
                0 <= i < pairs.len() && #[trigger] pairs[i].0 == k by {
            if pairs_to_map(pairs).contains_key(k) && k != pairs.last().0 {
                let i = choose|i: int| 0 <= i < rest.len() && #[trigger] rest[i].0 == k;
                assert(pairs[i].0 == k);
            }
            if exists|i: int| 0 <= i < pairs.len() && #[trigger] pairs[i].0 == k {
                let i = choose|i: int| 0 <= i < pairs.len() && #[trigger] pairs[i].0 == k;
                if i < pairs.len() - 1 {
                    assert(rest[i].0 == k);
                }
            }
        }
    }
}

/// With distinct keys, the map gives each pair's key that pair's value.
pub proof fn lemma_pairs_to_map_lookup(pairs: Seq<Pair>, i: int)
    requires
        distinct_keys(pairs),
        0 <= i < pairs.len(),
    ensures
        pairs_to_map(pairs).contains_key(pairs[i].0),
        pairs_to_map(pairs)[pairs[i].0] == pairs[i].1,
    decreases pairs.len(),
{
    if i < pairs.len() - 1 {
        let rest = pairs.drop_last();
        assert(rest[i] == pairs[i]);
        lemma_pairs_to_map_lookup(rest, i);
    }
}

/// With distinct keys, the map has as many keys as there are pairs.
pub proof fn lemma_pairs_to_map_len(pairs: Seq<Pair>)
    requires
        distinct_keys(pairs),
    ensures
        pairs_to_map(pairs).len() == pairs.len(),
    decreases pairs.len(),
{
    if pairs.len() > 0 {
        let rest = pairs.drop_last();
        lemma_pairs_to_map_len(rest);
        lemma_pairs_to_map_keys(rest);
        if pairs_to_map(rest).contains_key(pairs.last().0) {
            let i = choose|i: int| 0 <= i < rest.len() && #[trigger] rest[i].0 == pairs.last().0;
            assert(pairs[i].0 == pairs[pairs.len() - 1].0);
        }
    }
}

/// Replacing the value of one pair replaces that key's value in the map.
pub proof fn lemma_pairs_to_map_update(pairs: Seq<Pair>, i: int, v: Seq<char>)
    requires
        distinct_keys(pairs),
        0 <= i < pairs.len(),
    ensures
        distinct_keys(pairs.update(i, (pairs[i].0, v))),
        pairs_to_map(pairs.update(i, (pairs[i].0, v))) == pairs_to_map(pairs).insert(pairs[i].0, v),
    decreases pairs.len(),
{
    let upd = pairs.update(i, (pairs[i].0, v));
    let rest = pairs.drop_last();
    if i < pairs.len() - 1 {
        lemma_pairs_to_map_update(rest, i, v);
        assert(upd.drop_last() =~= rest.update(i, (pairs[i].0, v)));
        lemma_pairs_to_map_keys(rest);
        assert(pairs_to_map(upd) =~= pairs_to_map(pairs).insert(pairs[i].0, v));
    } else {
        assert(upd.drop_last() =~= rest);
        lemma_pairs_to_map_keys(rest);
        assert(pairs_to_map(upd) =~= pairs_to_map(pairs).insert(pairs[i].0, v));
    }
}

/// `listing` holds exactly the keys of `m` with their values, in ascending
/// key order (the order of Rust's `str`).
pub open spec fn lists_in_key_order(listing: Seq<Pair>, m: Map<Seq<char>, Seq<char>>) -> bool {
    &&& forall|i: int, j: int|
        0 <= i < j < listing.len() ==> str_lt(#[trigger] listing[i].0, #[trigger] listing[j].0)
    &&& forall|i: int|
        0 <= i < listing.len() ==> m.contains_key(#[trigger] listing[i].0) && m[listing[i].0]
            == listing[i].1
    &&& forall|k: Seq<char>|
        #[trigger] m.contains_key(k) ==> exists|i: int|
            0 <= i < listing.len() && #[trigger] listing[i].0 == k
}

/// The keys of `m` with their values, in ascending key order.
pub open spec fn sorted_listing(m: Map<Seq<char>, Seq<char>>) -> Seq<Pair> {
    choose|listing: Seq<Pair>| lists_in_key_order(listing, m)
}

/// A map has at most one listing in ascending key order.
pub proof fn lemma_listing_unique(t1: Seq<Pair>, t2: Seq<Pair>, m: Map<Seq<char>, Seq<char>>)
    requires
        lists_in_key_order(t1, m),
        lists_in_key_order(t2, m),
    ensures
        t1 == t2,
    decreases t1.len(),
{
    if t1.len() == 0 {
        if t2.len() > 0 {
            assert(m.contains_key(t2[0].0));
        }
        assert(t1 =~= t2);
    } else if t2.len() == 0 {
        assert(m.contains_key(t1[0].0));
    } else {
        let k1 = t1[0].0;
        let k2 = t2[0].0;
        assert(m.contains_key(k1));
        assert(m.contains_key(k2));
        let j = choose|j: int| 0 <= j < t2.len() && #[trigger] t2[j].0 == k1;
        let i = choose|i: int| 0 <= i < t1.len() && #[trigger] t1[i].0 == k2;
        if k1 != k2 {
            assert(str_lt(t2[0].0, t2[j].0));
            assert(str_lt(t1[0].0, t1[i].0));
            lemma_str_lt_strict_total(k1, k2, k1);
            assert(false);
        }
        let m2 = m.remove(k1);
        let r1 = t1.drop_first();
        let r2 = t2.drop_first();
        assert forall|a: int| 0 <= a < r1.len() implies m2.contains_key(#[trigger] r1[a].0)
            && m2[r1[a].0] == r1[a].1 by {
            assert(str_lt(t1[0].0, t1[a + 1].0));
            lemma_str_lt_strict_total(k1, k1, k1);
        }
        assert forall|a: int| 0 <= a < r2.len() implies m2.contains_key(#[trigger] r2[a].0)
            && m2[r2[a].0] == r2[a].1 by {
            assert(str_lt(t2[0].0, t2[a + 1].0));
            lemma_str_lt_strict_total(k1, k1, k1);
        }
        assert forall|k: Seq<char>| #[trigger] m2.contains_key(k) implies exists|a: int|
            0 <= a < r1.len() && #[trigger] r1[a].0 == k by {
            let a = choose|a: int| 0 <= a < t1.len() && #[trigger] t1[a].0 == k;
            assert(r1[a - 1].0 == k);
        }
        assert forall|k: Seq<char>| #[trigger] m2.contains_key(k) implies exists|a: int|
            0 <= a < r2.len() && #[trigger] r2[a].0 == k by {
            let a = choose|a: int| 0 <= a < t2.len() && #[trigger] t2[a].0 == k;
            assert(r2[a - 1].0 == k);
        }
        assert forall|a: int, b: int| 0 <= a < b < r1.len() implies str_lt(
            #[trigger] r1[a].0,
            #[trigger] r1[b].0,
        ) by {
            assert(str_lt(t1[a + 1].0, t1[b + 1].0));
        }
        assert forall|a: int, b: int| 0 <= a < b < r2.len() implies str_lt(
            #[trigger] r2[a].0,
            #[trigger] r2[b].0,
        ) by {
            assert(str_lt(t2[a + 1].0, t2[b + 1].0));
        }
        lemma_listing_unique(r1, r2, m2);
        assert(t1 =~= t2) by {
            assert(t1 =~= seq![t1[0]] + r1);
            assert(t2 =~= seq![t2[0]] + r2);
        }
    }
}

/// The view of a sequence of string-slice pairs.
pub open spec fn str_pairs(v: Seq<(&str, &str)>) -> Seq<Pair> {
    v.map_values(|p: (&str, &str)| (p.0@, p.1@))
}

/// Keys ascend strictly along `t`.
pub open spec fn keys_ascending(t: Seq<Pair>) -> bool {
    forall|a: int, b: int| 0 <= a < b < t.len() ==> str_lt(#[trigger] t[a].0, #[trigger] t[b].0)
}

/// Every pair of `t` is one of the first `n` pairs of `src`.
#[verifier::opaque]
pub open spec fn drawn_from(t: Seq<Pair>, src: Seq<Pair>, n: int) -> bool {
    forall|a: int| 0 <= a < t.len() ==> exists|j: int| 0 <= j < n && #[trigger] src[j] == #[trigger] t[a]
}

/// Each of the first `n` pairs of `src` is in `t`.
#[verifier::opaque]
pub open spec fn covers(t: Seq<Pair>, src: Seq<Pair>, n: int) -> bool {
    forall|j: int| 0 <= j < n ==> exists|a: int| 0 <= a < t.len() && #[trigger] t[a] == #[trigger] src[j]
}

/// Inserting a pair where its key belongs keeps the keys ascending.
proof fn lemma_insert_sorted(t: Seq<Pair>, x: Pair, p: int)
    requires
        keys_ascending(t),
        0 <= p <= t.len(),
        forall|q: int| 0 <= q < p ==> str_lt(#[trigger] t[q].0, x.0),
        p < t.len() ==> str_lt(x.0, t[p].0),
    ensures
        keys_ascending(t.insert(p, x)),
{
    let u = t.insert(p, x);
    assert forall|a: int, b: int| 0 <= a < b < u.len() implies str_lt(
        #[trigger] u[a].0,
        #[trigger] u[b].0,
    ) by {
        if b < p {
            assert(u[a] == t[a] && u[b] == t[b]);
        } else if b == p {
            assert(u[a] == t[a]);
        } else if a == p {
            assert(u[b] == t[b - 1]);
            if b - 1 > p {
                assert(str_lt(t[p].0, t[b - 1].0));
                lemma_str_lt_strict_total(x.0, t[p].0, t[b - 1].0);
            }
        } else if a < p {
            assert(u[a] == t[a] && u[b] == t[b - 1]);
        } else {
            assert(u[a] == t[a - 1] && u[b] == t[b - 1]);
        }
    }
}

/// Inserting the next source pair anywhere extends the held prefix by one.
proof fn lemma_insert_prefix(t: Seq<Pair>, src: Seq<Pair>, i: int, p: int)
    requires
        drawn_from(t, src, i),
        covers(t, src, i),
        0 <= i < src.len(),
        0 <= p <= t.len(),
    ensures
        drawn_from(t.insert(p, src[i]), src, i + 1),
        covers(t.insert(p, src[i]), src, i + 1),
{
    reveal(drawn_from);
    reveal(covers);
    let u = t.insert(p, src[i]);
    assert forall|a: int| 0 <= a < u.len() implies exists|j: int|
        0 <= j < i + 1 && #[trigger] src[j] == #[trigger] u[a] by {
        if a < p {
            assert(u[a] == t[a]);
        } else if a == p {
            assert(src[i] == u[a]);
        } else {
            assert(u[a] == t[a - 1]);
        }
    }
    assert forall|j: int| 0 <= j < i + 1 implies exists|a: int|
        0 <= a < u.len() && #[trigger] u[a] == #[trigger] src[j] by {
        if j == i {
            assert(u[p] == src[j]);
        } else {
            let a = choose|a: int| 0 <= a < t.len() && #[trigger] t[a] == #[trigger] src[j];
            if a < p {
                assert(u[a] == t[a]);
            } else {
                assert(u[a + 1] == t[a]);
            }
        }
    }
}

/// Where the scan for the next key stops, the key there is greater.
proof fn lemma_stop_is_greater(t: Seq<Pair>, src: Seq<Pair>, i: int, p: int)
    requires
        drawn_from(t, src, i),
        distinct_keys(src),
        0 <= i < src.len(),
        0 <= p < t.len(),
        !str_lt(t[p].0, src[i].0),
    ensures
        str_lt(src[i].0, t[p].0),
{
    reveal(drawn_from);
    let j = choose|j: int| 0 <= j < i && #[trigger] src[j] == #[trigger] t[p];
    assert(src[j].0 != src[i].0);
    lemma_str_lt_strict_total(src[i].0, t[p].0, src[i].0);
}

/// A sequence with ascending keys holding exactly the pairs of a source with
/// distinct keys lists the source's map in key order.
proof fn lemma_full_listing(t: Seq<Pair>, src: Seq<Pair>)
    requires
        keys_ascending(t),
        drawn_from(t, src, src.len() as int),
        covers(t, src, src.len() as int),
        distinct_keys(src),
    ensures
        lists_in_key_order(t, pairs_to_map(src)),
        t == sorted_listing(pairs_to_map(src)),
{
    let m = pairs_to_map(src);
    assert forall|a: int| 0 <= a < t.len() implies m.contains_key(#[trigger] t[a].0) && m[t[a].0]
        == t[a].1 by {
        reveal(drawn_from);
        let j = choose|j: int| 0 <= j < src.len() && #[trigger] src[j] == #[trigger] t[a];
        lemma_pairs_to_map_lookup(src, j);
    }
    assert forall|k: Seq<char>| #[trigger] m.contains_key(k) implies exists|a: int|
        0 <= a < t.len() && #[trigger] t[a].0 == k by {
        reveal(covers);
        lemma_pairs_to_map_keys(src);
        let j = choose|j: int| 0 <= j < src.len() && #[trigger] src[j].0 == k;
        let a = choose|a: int| 0 <= a < t.len() && #[trigger] t[a] == #[trigger] src[j];
        assert(t[a].0 == k);
    }
    assert(lists_in_key_order(t, m));
    lemma_listing_unique(t, sorted_listing(m), m);
}

/// The keys of `map` with their values, in ascending key order.
pub fn sorted_pairs(map: &AttrMap) -> (sorted: Vec<(&str, &str)>)
    ensures
        str_pairs(sorted@) == sorted_listing(map@),
        lists_in_key_order(str_pairs(sorted@), map@),
{
    proof {
        use_type_invariant(map);
    }
    let ghost src = map.pairs();
    let mut res: Vec<(&str, &str)> = Vec::new();
    let mut i: usize = 0;
    assert(str_pairs(res@) =~= Seq::<Pair>::empty());
    proof {
        reveal(drawn_from);
        reveal(covers);
    }
    while i < map.pairs.len()
        invariant
            src == map.pairs(),
            distinct_keys(src),
            i <= src.len(),
            keys_ascending(str_pairs(res@)),
            drawn_from(str_pairs(res@), src, i as int),
            covers(str_pairs(res@), src, i as int),
        decreases src.len() - i,
    {
        let key: &str = map.pairs[i].0.as_str();
        let value: &str = map.pairs[i].1.as_str();
        let ghost t = str_pairs(res@);
        assert(src[i as int] == (key@, value@));
        let mut p: usize = 0;
        while p < res.len() && str_less(res[p].0, key)
            invariant
                p <= res@.len(),
                t == str_pairs(res@),
                forall|q: int| 0 <= q < p ==> str_lt(#[trigger] t[q].0, key@),
            decreases res@.len() - p,
        {
            p = p + 1;
        }
        proof {
            if p < res@.len() {
                lemma_stop_is_greater(t, src, i as int, p as int);
            }
            lemma_insert_sorted(t, src[i as int], p as int);
            lemma_insert_prefix(t, src, i as int, p as int);
        }
        res.insert(p, (key, value));
        assert(str_pairs(res@) =~= t.insert(p as int, src[i as int]));
        i = i + 1;
    }
    proof {
        lemma_full_listing(str_pairs(res@), src);
    }
    res
}

/// Where a key belongs in a listing with ascending keys: after every key
/// that comes before it.
pub open spec fn insert_pos(t: Seq<Pair>, k: Seq<char>) -> int
    decreases t.len(),
{
    if t.len() == 0 {
        0
    } else if str_lt(t[0].0, k) {
        1 + insert_pos(t.drop_first(), k)
    } else {
        0
    }
}

/// The first `n` pairs of `src`, each inserted where its key belongs.
pub open spec fn insertion_listing(src: Seq<Pair>, n: nat) -> Seq<Pair>
    decreases n,
{
    if n == 0 {
        Seq::empty()
    } else {
        let t = insertion_listing(src, (n - 1) as nat);
        t.insert(insert_pos(t, src[n - 1].0), src[n - 1])
    }
}

proof fn lemma_insert_pos(t: Seq<Pair>, k: Seq<char>)
    requires
        keys_ascending(t),
    ensures
        0 <= insert_pos(t, k) <= t.len(),
        forall|q: int| 0 <= q < insert_pos(t, k) ==> str_lt(#[trigger] t[q].0, k),
        insert_pos(t, k) < t.len() ==> !str_lt(t[insert_pos(t, k)].0, k),
    decreases t.len(),
{
    if t.len() > 0 && str_lt(t[0].0, k) {
        let r = t.drop_first();
        assert forall|a: int, b: int| 0 <= a < b < r.len() implies str_lt(
            #[trigger] r[a].0,
            #[trigger] r[b].0,
        ) by {
            assert(str_lt(t[a + 1].0, t[b + 1].0));
        }
        lemma_insert_pos(r, k);
        assert forall|q: int| 0 <= q < insert_pos(t, k) implies str_lt(#[trigger] t[q].0, k) by {
            if q > 0 {
                assert(t[q] == r[q - 1]);
            }
        }
    }
}

proof fn lemma_insertion_listing(src: Seq<Pair>, n: nat)
    requires
        distinct_keys(src),
        n <= src.len(),
    ensures
        keys_ascending(insertion_listing(src, n)),
        drawn_from(insertion_listing(src, n), src, n as int),
        covers(insertion_listing(src, n), src, n as int),
    decreases n,
{
    if n == 0 {
        reveal(drawn_from);
        reveal(covers);
    } else {
        let i = (n - 1) as int;
        lemma_insertion_listing(src, (n - 1) as nat);
        let t = insertion_listing(src, (n - 1) as nat);
        let p = insert_pos(t, src[i].0);
        lemma_insert_pos(t, src[i].0);
        if p < t.len() {
            lemma_stop_is_greater(t, src, i, p);
        }
        lemma_insert_sorted(t, src[i], p);
        lemma_insert_prefix(t, src, i, p);
    }
}

/// Every map of distinct-key pairs has a listing in ascending key order,
/// so `sorted_listing` of it lists exactly its keys and values, in that
/// order; with `lemma_listing_unique` the listing depends only on the map.
pub proof fn lemma_sorted_listing_lists(src: Seq<Pair>)
    requires
        distinct_keys(src),
    ensures
        lists_in_key_order(sorted_listing(pairs_to_map(src)), pairs_to_map(src)),
{
    lemma_insertion_listing(src, src.len());
    lemma_full_listing(insertion_listing(src, src.len()), src);
}

} // verus!
