//! Stable identifiers for playlist entries: a deterministic base identifier
//! taken from the entry's `tvg-id`, URL or name, and its playlist-unique form.

use std::collections::HashSet;
use vstd::prelude::*;
use vstd::utf8::encode_utf8;
use crate::text::{chars_of, hex_text, push_char, push_radix, radix_digits};

verus! {

/// The DJB2 hash of a byte sequence: start from 5381 and, for each byte,
/// multiply by 33 and add the byte, all modulo 2^32.
pub open spec fn djb2(bytes: Seq<u8>) -> u32
    decreases bytes.len(),
{
    if bytes.len() == 0 {
        5381
    } else {
        djb2(bytes.drop_last()).wrapping_mul(33).wrapping_add(bytes.last() as u32)
    }
}

/// DJB2 hash of the UTF-8 bytes of `input`.
pub fn djb2_hash(input: &str) -> (hash: u32)
    ensures
        hash == djb2(encode_utf8(input@)),
{
    let bytes = input.as_bytes();
    let mut hash: u32 = 5381;
    let mut i: usize = 0;
    while i < bytes.len()
        invariant
            i <= bytes@.len(),
            bytes@ == encode_utf8(input@),
            hash == djb2(bytes@.take(i as int)),
        decreases bytes@.len() - i,
    {
        assert(bytes@.take(i + 1).drop_last() =~= bytes@.take(i as int));
        hash = hash.wrapping_mul(33).wrapping_add(bytes[i] as u32);
        i = i + 1;
    }
    assert(bytes@.take(i as int) =~= bytes@);
    hash
}

/// Characters kept as they are in a sanitized `tvg-id`: ASCII letters and
/// digits, `.`, `_` and `-`.
pub open spec fn is_id_char(c: char) -> bool {
    ||| ('a' <= c && c <= 'z')
    ||| ('A' <= c && c <= 'Z')
    ||| ('0' <= c && c <= '9')
    ||| c == '.'
    ||| c == '_'
    ||| c == '-'
}

/// A character of a sanitized `tvg-id`: itself if kept, else `_`.
pub open spec fn sanitize_char(c: char) -> char {
    if is_id_char(c) {
        c
    } else {
        '_'
    }
}

/// The sanitized form of a `tvg-id`: every character replaced by
/// `sanitize_char` of it.
pub open spec fn sanitize(s: Seq<char>) -> Seq<char> {
    s.map_values(|c: char| sanitize_char(c))
}

/// The view of an optional string slice.
pub open spec fn opt_str(o: Option<&str>) -> Option<Seq<char>> {
    match o {
        Some(s) => Some(s@),
        None => None,
    }
}

/// `prefix` followed by the lowercase hex DJB2 hash of the UTF-8 bytes of `s`.
pub open spec fn hashed_id(prefix: Seq<char>, s: Seq<char>) -> Seq<char> {
    prefix + hex_text(djb2(encode_utf8(s)) as nat)
}

/// The deterministic base identifier: the sanitized `tvg-id` when it is
/// present and not empty, else `url_` and the URL's hash, else `name_` and
/// the name's hash, else `unknown`.
pub open spec fn stable_id_base(
    tvg_id: Option<Seq<char>>,
    url: Option<Seq<char>>,
    name: Option<Seq<char>>,
) -> Seq<char> {
    if tvg_id is Some && tvg_id->0.len() > 0 {
        sanitize(tvg_id->0)
    } else if url is Some {
        hashed_id("url_"@, url->0)
    } else if name is Some {
        hashed_id("name_"@, name->0)
    } else {
        "unknown"@
    }
}

fn sanitize_id(tvg_id: &str) -> (s: String)
    ensures
        s@ == sanitize(tvg_id@),
{
    let chars = chars_of(tvg_id);
    let mut out = String::new();
    let mut i: usize = 0;
    while i < chars.len()
        invariant
            i <= chars@.len(),
            chars@ == tvg_id@,
            out@ =~= sanitize(chars@.take(i as int)),
        decreases chars@.len() - i,
    {
        let c = chars[i];
        let keep = ('a' <= c && c <= 'z') || ('A' <= c && c <= 'Z') || ('0' <= c && c <= '9')
            || c == '.' || c == '_' || c == '-';
        if keep {
            push_char(&mut out, c);
        } else {
            push_char(&mut out, '_');
        }
        assert(sanitize(chars@.take(i + 1)) =~= sanitize(chars@.take(i as int)).push(
            sanitize_char(c),
        ));
        i = i + 1;
    }
    assert(chars@.take(i as int) =~= chars@);
    out
}

/// `prefix` followed by the lowercase hex DJB2 hash of `s`.
fn hashed(prefix: &str, s: &str) -> (id: String)
    ensures
        id@ == hashed_id(prefix@, s@),
{
    let mut out = String::from_str(prefix);
    let h = djb2_hash(s);
    push_radix(&mut out, h as u64, 16);
    out
}

/// Generate the deterministic base ID for an M3U entry.
///
/// Priority: `tvg_id` > `url` > `name`. Falls back to `"unknown"` if all
/// are `None`.
pub fn generate_stable_id_base(
    tvg_id: Option<&str>,
    url: Option<&str>,
    name: Option<&str>,
) -> (id: String)
    ensures
        id@ == stable_id_base(opt_str(tvg_id), opt_str(url), opt_str(name)),
{
    if let Some(t) = tvg_id {
        let sanitized = sanitize_id(t);
        if !sanitized.as_str().is_empty() {
            return sanitized;
        }
    }
    if let Some(u) = url {
        return hashed("url_", u);
    }
    if let Some(n) = name {
        return hashed("name_", n);
    }
    String::from_str("unknown")
}

/// The identifiers held by a set of strings, as character sequences.
pub open spec fn ids(seen: &HashSet<String>) -> Set<Seq<char>> {
    seen@.map(|s: String| s@)
}

/// Inserts `id` into `seen`, telling whether it was absent.
/// Wraps `HashSet::insert`, which adds the value when no equal value is in
/// the set and returns whether it did; strings are equal when their
/// characters are.
#[verifier::external_body]
fn seen_insert(seen: &mut HashSet<String>, id: String) -> (inserted: bool)
    ensures
        inserted == !ids(old(seen)).contains(id@),
        ids(final(seen)) == ids(old(seen)).insert(id@),
{
    seen.insert(id)
}

/// Whether `seen` holds a string equal to `id`.
/// Wraps `HashSet::contains`, which tells whether an equal value is in the set.
#[verifier::external_body]
fn seen_contains(seen: &HashSet<String>, id: &String) -> (found: bool)
    ensures
        found == ids(seen).contains(id@),
{
    seen.contains(id)
}

/// The `k`-th collision candidate for `base`: `base`, `_` and `k` in decimal.
pub open spec fn candidate(base: Seq<char>, k: nat) -> Seq<char> {
    base + seq!['_'] + radix_digits(k, 10)
}

/// `k` is the least positive counter whose candidate is not taken.
pub open spec fn is_first_free(seen: Set<Seq<char>>, base: Seq<char>, k: nat) -> bool {
    &&& 1 <= k
    &&& !seen.contains(candidate(base, k))
    &&& forall|j: nat| 1 <= j < k ==> seen.contains(#[trigger] candidate(base, j))
}

/// Some counter from 1 to `u32::MAX` gives a free candidate, so the search
/// for one ends before its 32-bit counter overflows.
pub open spec fn collision_resolvable(seen: Set<Seq<char>>, base: Seq<char>) -> bool {
    exists|k: nat| 1 <= k <= u32::MAX && !seen.contains(#[trigger] candidate(base, k))
}

/// The least positive counter whose candidate is not taken.
pub open spec fn first_free(seen: Set<Seq<char>>, base: Seq<char>) -> nat {
    choose|k: nat| is_first_free(seen, base, k)
}

/// When the candidate of counter `w` is free, a least free counter exists,
/// and it is at most `w`.
pub proof fn lemma_first_free_exists(seen: Set<Seq<char>>, base: Seq<char>, w: nat)
    requires
        1 <= w,
        !seen.contains(candidate(base, w)),
    ensures
        is_first_free(seen, base, first_free(seen, base)),
        first_free(seen, base) <= w,
    decreases w,
{
    if forall|j: nat| 1 <= j < w ==> seen.contains(#[trigger] candidate(base, j)) {
        assert(is_first_free(seen, base, w));
        let f = first_free(seen, base);
        if f != w {
            if f < w {
                assert(seen.contains(candidate(base, f)));
            } else {
                assert(seen.contains(candidate(base, w)));
            }
        }
    } else {
        let j = choose|j: nat| 1 <= j < w && !seen.contains(#[trigger] candidate(base, j));
        lemma_first_free_exists(seen, base, j);
    }
}

/// The base ID when it is free; otherwise, with a URL, the base, `_` and the
/// URL's hash when that is free, or else that seeded ID with the first free
/// counter; without a URL, the base with the first free counter.
pub open spec fn unique_id(
    seen: Set<Seq<char>>,
    base: Seq<char>,
    url_seed: Option<Seq<char>>,
) -> Seq<char> {
    if !seen.contains(base) {
        base
    } else if url_seed is Some {
        let seeded = hashed_id(base + seq!['_'], url_seed->0);
        if !seen.contains(seeded) {
            seeded
        } else {
            candidate(seeded, first_free(seen, seeded))
        }
    } else {
        candidate(base, first_free(seen, base))
    }
}

/// The inputs on which making `base` unique ends without the collision
/// counter overflowing.
pub open spec fn uniquify_ends(
    seen: Set<Seq<char>>,
    base: Seq<char>,
    url_seed: Option<Seq<char>>,
) -> bool {
    if !seen.contains(base) {
        true
    } else if url_seed is Some {
        let seeded = hashed_id(base + seq!['_'], url_seed->0);
        !seen.contains(seeded) || collision_resolvable(seen, seeded)
    } else {
        collision_resolvable(seen, base)
    }
}

/// `base`, `_` and `counter` in decimal.
fn candidate_string(base: &str, counter: u32) -> (s: String)
    ensures
        s@ == candidate(base@, counter as nat),
{
    let mut s = String::from_str(base);
    push_char(&mut s, '_');
    push_radix(&mut s, counter as u64, 10);
    s
}

/// Resolve a collision by appending `_1`, `_2`, etc. suffixes.
fn resolve_collision(base: &str, seen: &mut HashSet<String>) -> (id: String)
    requires
        collision_resolvable(ids(old(seen)), base@),
    ensures
        id@ == candidate(base@, first_free(ids(old(seen)), base@)),
        ids(final(seen)) == ids(old(seen)).insert(id@),
        !ids(old(seen)).contains(id@),
{
    let ghost start = ids(seen);
    let ghost w = choose|k: nat| 1 <= k <= u32::MAX && !start.contains(#[trigger] candidate(base@, k));
    let mut counter: u32 = 1;
    loop
        invariant
            ids(seen) == start,
            start == ids(old(seen)),
            1 <= counter <= w <= u32::MAX,
            !start.contains(candidate(base@, w)),
            forall|j: nat| 1 <= j < counter ==> start.contains(#[trigger] candidate(base@, j)),
        decreases u32::MAX - counter,
    {
        let c = candidate_string(base, counter);
        if !seen_contains(seen, &c) {
            proof {
                assert(is_first_free(start, base@, counter as nat));
                lemma_first_free_exists(start, base@, counter as nat);
                let f = first_free(start, base@);
                if f < counter {
                    assert(start.contains(candidate(base@, f)));
                }
            }
            let _ = seen_insert(seen, c.clone());
            return c;
        }
        counter = counter + 1;
    }
}

/// Resolve a deterministic base ID into a playlist-unique ID, recording it
/// in `seen_ids`.
pub fn uniquify_stable_id(
    base: &str,
    url_seed: Option<&str>,
    seen_ids: &mut HashSet<String>,
) -> (id: String)
    requires
        uniquify_ends(ids(old(seen_ids)), base@, opt_str(url_seed)),
    ensures
        id@ == unique_id(ids(old(seen_ids)), base@, opt_str(url_seed)),
        !ids(old(seen_ids)).contains(id@),
        ids(final(seen_ids)) == ids(old(seen_ids)).insert(id@),
{
    if seen_insert(seen_ids, String::from_str(base)) {
        return String::from_str(base);
    }
    assert(ids(seen_ids) =~= ids(old(seen_ids)));
    if let Some(url) = url_seed {
        let mut prefix = String::from_str(base);
        push_char(&mut prefix, '_');
        assert(prefix@ =~= base@ + seq!['_']);
        let seeded = hashed(prefix.as_str(), url);
        if seen_insert(seen_ids, seeded.clone()) {
            return seeded;
        }
        assert(ids(seen_ids) =~= ids(old(seen_ids)));
        return resolve_collision(seeded.as_str(), seen_ids);
    }
    resolve_collision(base, seen_ids)
}

/// Generate a playlist-unique stable ID for an M3U entry.
pub fn generate_playlist_unique_id(
    tvg_id: Option<&str>,
    url: Option<&str>,
    name: Option<&str>,
    seen_ids: &mut HashSet<String>,
) -> (id: String)
    requires
        uniquify_ends(
            ids(old(seen_ids)),
            stable_id_base(opt_str(tvg_id), opt_str(url), opt_str(name)),
            opt_str(url),
        ),
    ensures
        id@ == unique_id(
            ids(old(seen_ids)),
            stable_id_base(opt_str(tvg_id), opt_str(url), opt_str(name)),
            opt_str(url),
        ),
        !ids(old(seen_ids)).contains(id@),
        ids(final(seen_ids)) == ids(old(seen_ids)).insert(id@),
{
    let base = generate_stable_id_base(tvg_id, url, name);
    uniquify_stable_id(base.as_str(), url, seen_ids)
}

/// Backward-compatible wrapper for the older API name.
pub fn generate_stable_id(
    tvg_id: Option<&str>,
    url: Option<&str>,
    name: Option<&str>,
    seen_ids: &mut HashSet<String>,
) -> (id: String)
    requires
        uniquify_ends(
            ids(old(seen_ids)),
            stable_id_base(opt_str(tvg_id), opt_str(url), opt_str(name)),
            opt_str(url),
        ),
    ensures
        id@ == unique_id(
            ids(old(seen_ids)),
            stable_id_base(opt_str(tvg_id), opt_str(url), opt_str(name)),
            opt_str(url),
        ),
        !ids(old(seen_ids)).contains(id@),
        ids(final(seen_ids)) == ids(old(seen_ids)).insert(id@),
{
    generate_playlist_unique_id(tvg_id, url, name, seen_ids)
}

/// The DJB2 hash starts at 5381 and folds in every byte, however long the
/// input: appending a byte multiplies the hash by 33 and adds the byte,
/// modulo 2^32.
pub proof fn lemma_djb2_folds_every_byte(s: Seq<u8>, b: u8)
    ensures
        djb2(Seq::<u8>::empty()) == 5381,
        djb2(s.push(b)) == djb2(s).wrapping_mul(33).wrapping_add(b as u32),
        djb2(s.push(b)) as int == (djb2(s) as int * 33 + b as int) % 0x1_0000_0000,
{
    assert(s.push(b).drop_last() =~= s);
    assert(s.push(b).last() == b);
    let h = djb2(s);
    let m = h.wrapping_mul(33);
    assert(m as int == (h as int * 33) % 0x1_0000_0000);
    assert(m.wrapping_add(b as u32) as int == (m as int + b as int) % 0x1_0000_0000);
    assert(((h as int * 33) % 0x1_0000_0000 + b as int) % 0x1_0000_0000 == (h as int * 33
        + b as int) % 0x1_0000_0000) by {
        vstd::arithmetic::div_mod::lemma_add_mod_noop(h as int * 33, b as int, 0x1_0000_0000);
        vstd::arithmetic::div_mod::lemma_mod_twice(b as int, 0x1_0000_0000);
        vstd::arithmetic::div_mod::lemma_small_mod(b as nat, 0x1_0000_0000);
    }
}

/// A sanitized `tvg-id` has as many characters as the given one, each an
/// ASCII letter or digit, `.`, `_` or `-`, and keeps those that already were.
pub proof fn lemma_sanitized_id_chars(s: Seq<char>)
    ensures
        sanitize(s).len() == s.len(),
        forall|i: int| 0 <= i < s.len() ==> is_id_char(#[trigger] sanitize(s)[i]),
        forall|i: int| 0 <= i < s.len() && is_id_char(s[i]) ==> #[trigger] sanitize(s)[i] == s[i],
{
}

/// The base identifier is never empty.
pub proof fn lemma_stable_id_base_not_empty(
    tvg_id: Option<Seq<char>>,
    url: Option<Seq<char>>,
    name: Option<Seq<char>>,
)
    ensures
        stable_id_base(tvg_id, url, name).len() > 0,
{
    reveal_strlit("unknown");
    if url is Some {
        crate::text::lemma_radix_digits_value(djb2(encode_utf8(url->0)) as nat, 16);
    }
    if name is Some {
        crate::text::lemma_radix_digits_value(djb2(encode_utf8(name->0)) as nat, 16);
    }
}

/// The identifier handed out was not taken before.
pub proof fn lemma_unique_id_fresh(
    seen: Set<Seq<char>>,
    base: Seq<char>,
    url_seed: Option<Seq<char>>,
)
    requires
        uniquify_ends(seen, base, url_seed),
    ensures
        !seen.contains(unique_id(seen, base, url_seed)),
{
    if seen.contains(base) {
        let x = if url_seed is Some {
            hashed_id(base + seq!['_'], url_seed->0)
        } else {
            base
        };
        if url_seed is None || seen.contains(x) {
            let w = choose|k: nat| 1 <= k <= u32::MAX && !seen.contains(#[trigger] candidate(x, k));
            lemma_first_free_exists(seen, x, w);
        }
    }
}

/// Two identifiers handed out one after the other, the first recorded before
/// the second is made, differ: identifiers are unique within a playlist.
pub proof fn lemma_successive_ids_distinct(
    seen: Set<Seq<char>>,
    base1: Seq<char>,
    url1: Option<Seq<char>>,
    base2: Seq<char>,
    url2: Option<Seq<char>>,
)
    requires
        uniquify_ends(seen, base1, url1),
        uniquify_ends(seen.insert(unique_id(seen, base1, url1)), base2, url2),
    ensures
        unique_id(seen.insert(unique_id(seen, base1, url1)), base2, url2) != unique_id(
            seen,
            base1,
            url1,
        ),
{
    lemma_unique_id_fresh(seen.insert(unique_id(seen, base1, url1)), base2, url2);
}

/// When the base identifier is taken, the identifier handed out is the base
/// followed by `_` and more.
pub proof fn lemma_collision_keeps_base_prefix(
    seen: Set<Seq<char>>,
    base: Seq<char>,
    url_seed: Option<Seq<char>>,
)
    requires
        seen.contains(base),
    ensures
        (base + seq!['_']).is_prefix_of(unique_id(seen, base, url_seed)),
        unique_id(seen, base, url_seed).len() > base.len() + 1,
{
    let id = unique_id(seen, base, url_seed);
    let p = base + seq!['_'];
    if url_seed is Some {
        let seeded = hashed_id(p, url_seed->0);
        crate::text::lemma_radix_digits_value(djb2(encode_utf8(url_seed->0)) as nat, 16);
        assert(p.is_prefix_of(seeded)) by {
            assert(seeded.subrange(0, p.len() as int) =~= p);
        }
        if seen.contains(seeded) {
            let k = first_free(seen, seeded);
            assert(id.subrange(0, p.len() as int) =~= p);
        }
    } else {
        let k = first_free(seen, base);
        crate::text::lemma_radix_digits_value(k, 10);
        assert(id.subrange(0, p.len() as int) =~= p);
    }
}

} // verus!
