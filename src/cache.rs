//! The response cache: a memo table from request fingerprints to responses,
//! held in a moka cache, loaded from and exported to a flat file with one
//! `fingerprint|:|response` entry per line.

use crate::text::{
    chars_of, find, first_occurrence, lemma_text_lt_asymmetric, lemma_text_lt_total,
    lemma_text_lt_transitive, occurs_at, occurs_in, text_less, text_lt, texts,
};
use moka::sync::Cache;
use vstd::prelude::*;
use vstd::string::{StrSliceExecFns, StringExecFns};

verus! {

#[verifier::external_type_specification]
#[verifier::external_body]
#[verifier::reject_recursive_types(K)]
#[verifier::reject_recursive_types(V)]
#[verifier::reject_recursive_types(S)]
pub struct ExCache<K, V, S>(Cache<K, V, S>);

/// What a moka cache of strings holds: each key's text mapped to its value's text.
pub uninterp spec fn cache_entries(c: Cache<String, String>) -> Map<Seq<char>, Seq<char>>;

/// The maximum capacity a moka cache of strings was built with.
pub uninterp spec fn cache_capacity(c: Cache<String, String>) -> nat;

/// Relies on moka's `sync::Cache::new`: a new cache is empty and keeps the
/// capacity it was given.
#[verifier::external_body]
fn new_cache(max_capacity: u64) -> (r: Cache<String, String>)
    ensures
        cache_entries(r).dom().is_empty(),
        cache_capacity(r) == max_capacity as nat,
{
    Cache::new(max_capacity)
}

/// Relies on moka's `sync::Cache::get`: a clone of the value stored under the
/// key, or `None` where there is none.
#[verifier::external_body]
fn cache_get(c: &Cache<String, String>, key: &String) -> (r: Option<String>)
    ensures
        r matches Some(v) ==> cache_entries(*c).contains_key(key@) && cache_entries(*c)[key@] == v@,
        r is None ==> !cache_entries(*c).contains_key(key@),
{
    c.get(key)
}

/// Relies on moka's `sync::Cache::insert`: the value is stored under the key,
/// replacing any earlier one. Entries are evicted only once the cache holds
/// more than its capacity, which the precondition rules out.
#[verifier::external_body]
fn cache_insert(c: &mut Cache<String, String>, key: String, value: String)
    requires
        cache_entries(*old(c)).contains_key(key@) || cache_entries(*old(c)).len() < cache_capacity(
            *old(c),
        ),
    ensures
        cache_entries(*final(c)) == cache_entries(*old(c)).insert(key@, value@),
        cache_capacity(*final(c)) == cache_capacity(*old(c)),
{
    c.insert(key, value)
}

/// Relies on moka's `sync::Cache::iter`: it visits every entry of the cache
/// once, in no particular order, each as a key and a clone of its value.
#[verifier::external_body]
fn cache_snapshot(c: &Cache<String, String>) -> (r: Vec<(String, String)>)
    ensures
        forall|i: int|
            0 <= i < r@.len() ==> cache_entries(*c).contains_key(#[trigger] r@[i].0@)
                && cache_entries(*c)[r@[i].0@] == r@[i].1@,
        forall|i: int, j: int|
            0 <= i < r@.len() && 0 <= j < r@.len() && i != j ==> #[trigger] r@[i].0@ != #[trigger] r@[j].0@,
        forall|k: Seq<char>|
            #[trigger] cache_entries(*c).contains_key(k) ==> exists|i: int|
                0 <= i < r@.len() && #[trigger] r@[i].0@ == k,
{
    c.iter().map(|(k, v)| ((*k).clone(), v)).collect()
}

/// The capacity a run gives its response cache: the largest count a `u64`
/// holds, so that the cache is unbounded in practice and never refuses an entry
/// before memory runs out.
pub const CACHE_CAPACITY: u64 = 18446744073709551615;

/// The token between a fingerprint and its response on a line of the cache file.
pub open spec fn separator() -> Seq<char> {
    seq!['|', ':', '|']
}

/// The line of the cache file for one entry, without its line break.
pub open spec fn entry_line(key: Seq<char>, value: Seq<char>) -> Seq<char> {
    key + separator() + value
}

/// The text of a cache file holding `entries`, in that order.
pub open spec fn cache_file_text(entries: Seq<(Seq<char>, Seq<char>)>) -> Seq<char>
    decreases entries.len(),
{
    if entries.len() == 0 {
        Seq::empty()
    } else {
        let (k, v) = entries.last();
        cache_file_text(entries.drop_last()) + entry_line(k, v).push('\n')
    }
}

/// The entry a line of the cache file holds: the text before the first
/// separator and the text after it. A line without a separator holds none.
pub open spec fn parse_entry_line(line: Seq<char>) -> Option<(Seq<char>, Seq<char>)> {
    match first_occurrence(line, separator()) {
        Some(i) => Some((line.take(i), line.skip(i + 3))),
        None => None,
    }
}

/// What a cache of capacity `capacity` holds after storing `(key, value)`:
/// the entry is stored unless it is new and the cache is full.
pub open spec fn stored(
    m: Map<Seq<char>, Seq<char>>,
    capacity: nat,
    key: Seq<char>,
    value: Seq<char>,
) -> Map<Seq<char>, Seq<char>> {
    if m.contains_key(key) || m.len() < capacity {
        m.insert(key, value)
    } else {
        m
    }
}

/// What a cache of capacity `capacity` holds after loading the lines of a
/// cache file: each entry line stored in turn, a later line for the same
/// fingerprint replacing an earlier one.
pub open spec fn loaded(lines: Seq<Seq<char>>, capacity: nat) -> Map<Seq<char>, Seq<char>>
    decreases lines.len(),
{
    if lines.len() == 0 {
        Map::empty()
    } else {
        let m = loaded(lines.drop_last(), capacity);
        match parse_entry_line(lines.last()) {
            Some((k, v)) => stored(m, capacity, k, v),
            None => m,
        }
    }
}

/// Reads the entry that a line of the cache file holds.
pub fn parse_cache_line(line: &str) -> (r: Option<(String, String)>)
    ensures
        r matches Some((k, v)) ==> parse_entry_line(line@) == Some((k@, v@)),
        r is None ==> parse_entry_line(line@) is None,
{
    let cs = chars_of(line);
    let sep = chars_of("|:|");
    proof {
        reveal_strlit("|:|");
        assert(sep@ =~= separator());
    }
    let found = find(&cs, &sep);
    assert(cs@ == line@);
    match found {
        Some(i) => {
            assert(first_occurrence(line@, separator()) == Some(i as int));
            let n = cs.len();
            assert(i + 3 <= n);
            let key = line.substring_char(0, i).to_owned();
            let value = line.substring_char(i + 3, n).to_owned();
            assert(key@ =~= line@.take(i as int));
            assert(value@ =~= line@.skip(i + 3));
            Some((key, value))
        },
        None => None,
    }
}

/// The line of the cache file for one entry, with its line break.
pub fn render_cache_line(key: &String, value: &String) -> (r: String)
    ensures
        r@ == entry_line(key@, value@).push('\n'),
{
    proof {
        reveal_strlit("|:|");
        reveal_strlit("\n");
    }
    let r = key.clone().concat("|:|").concat(value.as_str()).concat("\n");
    assert(r@ =~= entry_line(key@, value@).push('\n'));
    r
}

/// The text of a cache file holding `entries`, in order.
pub fn render_cache_file(entries: &Vec<(String, String)>) -> (r: String)
    ensures
        r@ == cache_file_text(entry_texts(entries@)),
{
    let mut r = String::new();
    let mut i: usize = 0;
    while i < entries.len()
        invariant
            i <= entries.len(),
            r@ == cache_file_text(entry_texts(entries@).take(i as int)),
        decreases entries.len() - i,
    {
        let line = render_cache_line(&entries[i].0, &entries[i].1);
        let ghost before = entry_texts(entries@).take(i as int);
        r.append(line.as_str());
        assert(entry_texts(entries@).take(i + 1).drop_last() =~= before);
        assert(r@ =~= cache_file_text(entry_texts(entries@).take(i + 1)));
        i = i + 1;
    }
    assert(entry_texts(entries@).take(entries.len() as int) =~= entry_texts(entries@));
    r
}

/// The texts of a list of string pairs.
pub open spec fn entry_texts(v: Seq<(String, String)>) -> Seq<(Seq<char>, Seq<char>)> {
    v.map_values(|e: (String, String)| (e.0@, e.1@))
}

/// No two entries of `s` share a fingerprint.
pub open spec fn keys_distinct(s: Seq<(Seq<char>, Seq<char>)>) -> bool {
    forall|i: int, j: int| 0 <= i < s.len() && 0 <= j < s.len() && i != j ==> #[trigger] s[i].0 != #[trigger] s[j].0
}

/// `s` lists each entry of `m` exactly once.
pub open spec fn enumerates(s: Seq<(Seq<char>, Seq<char>)>, m: Map<Seq<char>, Seq<char>>) -> bool {
    &&& forall|i: int| 0 <= i < s.len() ==> m.contains_key(#[trigger] s[i].0) && m[s[i].0] == s[i].1
    &&& keys_distinct(s)
    &&& forall|k: Seq<char>| #[trigger] m.contains_key(k) ==> exists|i: int| 0 <= i < s.len() && #[trigger] s[i].0 == k
}

/// A list that enumerates a map has as many items as the map has entries.
pub proof fn lemma_enumeration_len(s: Seq<(Seq<char>, Seq<char>)>, m: Map<Seq<char>, Seq<char>>)
    requires
        enumerates(s, m),
    ensures
        m.dom().finite(),
        s.len() == m.len(),
{
    let keys = s.map_values(|e: (Seq<char>, Seq<char>)| e.0);
    assert(keys.no_duplicates()) by {
        assert forall|i: int, j: int| 0 <= i < keys.len() && 0 <= j < keys.len() && i != j implies keys[i] != keys[j] by {
            assert(keys[i] == s[i].0);
            assert(keys[j] == s[j].0);
        }
    }
    keys.unique_seq_to_set();
    assert(keys.to_set() =~= m.dom()) by {
        assert forall|k: Seq<char>| keys.to_set().contains(k) implies m.dom().contains(k) by {
            let i = choose|i: int| 0 <= i < keys.len() && keys[i] == k;
            assert(s[i].0 == k);
        }
        assert forall|k: Seq<char>| m.dom().contains(k) implies keys.to_set().contains(k) by {
            assert(m.contains_key(k));
            let i = choose|i: int| 0 <= i < s.len() && s[i].0 == k;
            assert(keys[i] == k);
            assert(keys.contains(k));
        }
    }
}

/// The number of line breaks in `t`.
pub open spec fn line_breaks(t: Seq<char>) -> nat
    decreases t.len(),
{
    if t.len() == 0 {
        0
    } else {
        line_breaks(t.drop_last()) + if t.last() == '\n' {
            1nat
        } else {
            0nat
        }
    }
}

proof fn lemma_line_breaks_concat(a: Seq<char>, b: Seq<char>)
    ensures
        line_breaks(a + b) == line_breaks(a) + line_breaks(b),
    decreases b.len(),
{
    if b.len() == 0 {
        assert(a + b =~= a);
    } else {
        lemma_line_breaks_concat(a, b.drop_last());
        assert((a + b).drop_last() =~= a + b.drop_last());
    }
}

proof fn lemma_no_line_breaks(t: Seq<char>)
    requires
        !t.contains('\n'),
    ensures
        line_breaks(t) == 0,
    decreases t.len(),
{
    if t.len() > 0 {
        assert(t[t.len() - 1] == t.last());
        assert forall|c: char| t.drop_last().contains(c) implies t.contains(c) by {
            let i = choose|i: int| 0 <= i < t.drop_last().len() && t.drop_last()[i] == c;
            assert(t[i] == c);
        }
        lemma_no_line_breaks(t.drop_last());
    }
}

/// A cache file holds one entry per line: where no fingerprint and no
/// response holds a line break, its text holds exactly one line break per entry.
pub proof fn lemma_one_line_per_entry(entries: Seq<(Seq<char>, Seq<char>)>)
    requires
        forall|i: int|
            0 <= i < entries.len() ==> !(#[trigger] entries[i]).0.contains('\n') && !entries[i].1.contains('\n'),
    ensures
        line_breaks(cache_file_text(entries)) == entries.len(),
    decreases entries.len(),
{
    if entries.len() > 0 {
        let (k, v) = entries.last();
        assert(entries.last() == entries[entries.len() - 1]);
        lemma_one_line_per_entry(entries.drop_last());
        assert(!separator().contains('\n')) by {
            if separator().contains('\n') {
                let i = choose|i: int| 0 <= i < 3 && separator()[i] == '\n';
            }
        }
        let line = entry_line(k, v);
        assert(!line.contains('\n')) by {
            if line.contains('\n') {
                let i = choose|i: int| 0 <= i < line.len() && line[i] == '\n';
                if i < k.len() {
                    assert(k[i] == '\n');
                } else if i < k.len() + 3 {
                    assert(separator()[i - k.len()] == '\n');
                } else {
                    assert(v[i - k.len() - 3] == '\n');
                }
            }
        }
        lemma_no_line_breaks(line);
        lemma_line_breaks_concat(cache_file_text(entries.drop_last()), line.push('\n'));
        assert(line.push('\n').drop_last() =~= line);
    }
}

/// A line of the cache file reads back as the entry it was written from,
/// provided the separator does not already start within the fingerprint
/// (nor straddle its end).
pub proof fn lemma_entry_line_round_trip(key: Seq<char>, value: Seq<char>)
    requires
        !occurs_in(key + seq!['|', ':'], separator()),
    ensures
        parse_entry_line(entry_line(key, value)) == Some((key, value)),
{
    let line = entry_line(key, value);
    let n = key.len() as int;
    assert(line.subrange(n, n + 3) =~= separator());
    assert(occurs_at(line, separator(), n));
    assert forall|j: int| 0 <= j < n implies !occurs_at(line, separator(), j) by {
        if occurs_at(line, separator(), j) {
            let prefix = key + seq!['|', ':'];
            assert(prefix.subrange(j, j + 3) =~= line.subrange(j, j + 3));
            assert(occurs_at(prefix, separator(), j));
        }
    }
    reveal(first_occurrence);
    let c = choose|i: int| occurs_at(line, separator(), i) && forall|j: int| 0 <= j < i ==> !occurs_at(line, separator(), j);
    assert(c == n) by {
        if c < n {
        } else if c > n {
        }
    }
    assert(line.take(n) =~= key);
    assert(line.skip(n + 3) =~= value);
}

/// The map that storing the entries of `s` in turn builds, with no capacity limit.
pub open spec fn map_of(s: Seq<(Seq<char>, Seq<char>)>) -> Map<Seq<char>, Seq<char>>
    decreases s.len(),
{
    if s.len() == 0 {
        Map::empty()
    } else {
        map_of(s.drop_last()).insert(s.last().0, s.last().1)
    }
}

/// The lines of a cache file holding `s`, without their line breaks.
pub open spec fn entry_lines(s: Seq<(Seq<char>, Seq<char>)>) -> Seq<Seq<char>> {
    s.map_values(|e: (Seq<char>, Seq<char>)| entry_line(e.0, e.1))
}

/// No fingerprint of `s` lets the separator start within it.
pub open spec fn keys_readable(s: Seq<(Seq<char>, Seq<char>)>) -> bool {
    forall|i: int| 0 <= i < s.len() ==> !occurs_in(#[trigger] s[i].0 + seq!['|', ':'], separator())
}

proof fn lemma_loaded_map_of(s: Seq<(Seq<char>, Seq<char>)>, capacity: nat)
    requires
        keys_distinct(s),
        keys_readable(s),
        s.len() <= capacity,
    ensures
        loaded(entry_lines(s), capacity) == map_of(s),
        map_of(s).dom().finite(),
        map_of(s).len() == s.len(),
        forall|k: Seq<char>| #[trigger] map_of(s).contains_key(k) <==> exists|i: int| 0 <= i < s.len() && s[i].0 == k,
    decreases s.len(),
{
    if s.len() > 0 {
        let p = s.drop_last();
        let (k, v) = s.last();
        assert(s.last() == s[s.len() - 1]);
        assert forall|i: int, j: int| 0 <= i < p.len() && 0 <= j < p.len() && i != j implies #[trigger] p[i].0
            != #[trigger] p[j].0 by {
            assert(p[i] == s[i] && p[j] == s[j]);
        }
        assert forall|i: int| 0 <= i < p.len() implies !occurs_in(#[trigger] p[i].0 + seq!['|', ':'], separator()) by {
            assert(p[i] == s[i]);
        }
        lemma_loaded_map_of(p, capacity);
        assert(entry_lines(s).drop_last() =~= entry_lines(p));
        assert(entry_lines(s).last() == entry_line(k, v));
        lemma_entry_line_round_trip(k, v);
        assert(!map_of(p).contains_key(k)) by {
            if map_of(p).contains_key(k) {
                let i = choose|i: int| 0 <= i < p.len() && p[i].0 == k;
                assert(s[i].0 == s[s.len() - 1].0);
            }
        }
        assert forall|x: Seq<char>| #[trigger] map_of(s).contains_key(x) <==> exists|i: int| 0 <= i < s.len() && s[i].0 == x by {
            if map_of(s).contains_key(x) && x != k {
                assert(map_of(p).contains_key(x));
                let i = choose|i: int| 0 <= i < p.len() && p[i].0 == x;
                assert(s[i].0 == x);
            }
            if exists|i: int| 0 <= i < s.len() && s[i].0 == x {
                let i = choose|i: int| 0 <= i < s.len() && s[i].0 == x;
                if i < s.len() - 1 {
                    assert(p[i].0 == x);
                    assert(map_of(p).contains_key(x));
                }
            }
        }
    }
}

/// Loading the lines of an exported cache gives back the cache: when the
/// exported list enumerates `m`, fits in the capacity and has no fingerprint
/// that lets the separator start within it, storing its lines in turn
/// rebuilds exactly `m`.
pub proof fn lemma_load_after_export(s: Seq<(Seq<char>, Seq<char>)>, m: Map<Seq<char>, Seq<char>>, capacity: nat)
    requires
        enumerates(s, m),
        keys_readable(s),
        m.len() <= capacity,
    ensures
        loaded(entry_lines(s), capacity) == m,
{
    lemma_enumeration_len(s, m);
    lemma_loaded_map_of(s, capacity);
    lemma_map_of_values(s);
    assert forall|k: Seq<char>| #[trigger] m.contains_key(k) <==> map_of(s).contains_key(k) by {
        if m.contains_key(k) {
            let i = choose|i: int| 0 <= i < s.len() && #[trigger] s[i].0 == k;
        }
        if map_of(s).contains_key(k) {
            let i = choose|i: int| 0 <= i < s.len() && s[i].0 == k;
            assert(m.contains_key(s[i].0));
        }
    }
    assert forall|k: Seq<char>| #[trigger] m.contains_key(k) implies map_of(s)[k] == m[k] by {
        let i = choose|i: int| 0 <= i < s.len() && #[trigger] s[i].0 == k;
        assert(map_of(s)[s[i].0] == s[i].1);
    }
    assert(map_of(s) =~= m);
}

proof fn lemma_map_of_values(s: Seq<(Seq<char>, Seq<char>)>)
    requires
        keys_distinct(s),
    ensures
        forall|i: int| 0 <= i < s.len() ==> map_of(s).contains_key(#[trigger] s[i].0) && map_of(s)[s[i].0] == s[i].1,
    decreases s.len(),
{
    if s.len() > 0 {
        let p = s.drop_last();
        assert forall|i: int, j: int| 0 <= i < p.len() && 0 <= j < p.len() && i != j implies #[trigger] p[i].0
            != #[trigger] p[j].0 by {
            assert(p[i] == s[i] && p[j] == s[j]);
        }
        lemma_map_of_values(p);
        assert forall|i: int| 0 <= i < s.len() implies map_of(s).contains_key(#[trigger] s[i].0) && map_of(s)[s[i].0] == s[i].1 by {
            if i < s.len() - 1 {
                assert(p[i] == s[i]);
                assert(s[i].0 != s[s.len() - 1].0);
            }
        }
    }
}

/// The fingerprint of the entry a cache line holds (empty for a line with none).
pub open spec fn entry_key(line: Seq<char>) -> Seq<char> {
    match parse_entry_line(line) {
        Some((k, _)) => k,
        None => Seq::empty(),
    }
}

/// The response of the entry a cache line holds (empty for a line with none).
pub open spec fn entry_value(line: Seq<char>) -> Seq<char> {
    match parse_entry_line(line) {
        Some((_, v)) => v,
        None => Seq::empty(),
    }
}

proof fn lemma_loaded_size(lines: Seq<Seq<char>>, capacity: nat)
    ensures
        loaded(lines, capacity).dom().finite(),
        loaded(lines, capacity).len() <= lines.len(),
    decreases lines.len(),
{
    if lines.len() > 0 {
        lemma_loaded_size(lines.drop_last(), capacity);
    }
}

/// Loading keeps the last value given for each fingerprint: where line `i` is
/// the last line of the file holding an entry for its fingerprint, and the file
/// has no more lines than the capacity, the loaded cache maps that
/// fingerprint to that line's response.
pub proof fn lemma_load_keeps_last_value(lines: Seq<Seq<char>>, capacity: nat, i: int)
    requires
        0 <= i < lines.len(),
        lines.len() <= capacity,
        parse_entry_line(lines[i]) is Some,
        forall|j: int|
            i < j < lines.len() ==> !(parse_entry_line(#[trigger] lines[j]) matches Some((k, _)) && k
                == entry_key(lines[i])),
    ensures
        loaded(lines, capacity).contains_key(entry_key(lines[i])),
        loaded(lines, capacity)[entry_key(lines[i])] == entry_value(lines[i]),
    decreases lines.len(),
{
    let p = lines.drop_last();
    lemma_loaded_size(p, capacity);
    if i < lines.len() - 1 {
        assert(p[i] == lines[i]);
        assert forall|j: int| i < j < p.len() implies !(parse_entry_line(#[trigger] p[j]) matches Some((k, _))
            && k == entry_key(p[i])) by {
            assert(p[j] == lines[j]);
        }
        lemma_load_keeps_last_value(p, capacity, i);
        assert(lines[lines.len() - 1] == lines.last());
    }
}

/// Entries listed in strictly increasing order of fingerprint.
pub open spec fn sorted_by_key(s: Seq<(Seq<char>, Seq<char>)>) -> bool {
    forall|i: int, j: int| 0 <= i < j < s.len() ==> text_lt(#[trigger] s[i].0, #[trigger] s[j].0)
}

/// A list sorted by fingerprint has no two entries with the same fingerprint.
pub proof fn lemma_sorted_keys_distinct(s: Seq<(Seq<char>, Seq<char>)>)
    requires
        sorted_by_key(s),
    ensures
        keys_distinct(s),
{
    assert forall|i: int, j: int| 0 <= i < s.len() && 0 <= j < s.len() && i != j implies #[trigger] s[i].0
        != #[trigger] s[j].0 by {
        lemma_text_lt_asymmetric(s[i].0, s[i].0);
        if i < j {
            assert(text_lt(s[i].0, s[j].0));
        } else {
            assert(text_lt(s[j].0, s[i].0));
        }
    }
}

/// A map has one listing sorted by fingerprint: two sorted lists that each
/// enumerate the same map are the same list.
pub proof fn lemma_sorted_enumeration_unique(
    s1: Seq<(Seq<char>, Seq<char>)>,
    s2: Seq<(Seq<char>, Seq<char>)>,
    m: Map<Seq<char>, Seq<char>>,
)
    requires
        enumerates(s1, m),
        enumerates(s2, m),
        sorted_by_key(s1),
        sorted_by_key(s2),
    ensures
        s1 == s2,
    decreases s1.len(),
{
    lemma_enumeration_len(s1, m);
    lemma_enumeration_len(s2, m);
    if s1.len() == 0 {
        assert(s1 =~= s2);
    } else {
        let k1 = s1[0].0;
        let k2 = s2[0].0;
        if k1 != k2 {
            assert(m.contains_key(k1));
            let j = choose|j: int| 0 <= j < s2.len() && #[trigger] s2[j].0 == k1;
            assert(m.contains_key(k2));
            let i = choose|i: int| 0 <= i < s1.len() && #[trigger] s1[i].0 == k2;
            assert(text_lt(s2[0].0, s2[j].0));
            assert(text_lt(s1[0].0, s1[i].0));
            lemma_text_lt_asymmetric(k1, k2);
        }
        assert(s1[0] == s2[0]);
        let rest = m.remove(k1);
        let t1 = s1.drop_first();
        let t2 = s2.drop_first();
        assert forall|t: Seq<(Seq<char>, Seq<char>)>, s: Seq<(Seq<char>, Seq<char>)>|
            t == s.drop_first() && enumerates(s, m) && s.len() > 0 && s[0].0 == k1 implies enumerates(t, rest) by {
            assert forall|i: int| 0 <= i < t.len() implies rest.contains_key(#[trigger] t[i].0) && rest[t[i].0]
                == t[i].1 by {
                assert(t[i] == s[i + 1]);
                assert(s[i + 1].0 != s[0].0);
            }
            assert forall|i: int, j: int| 0 <= i < t.len() && 0 <= j < t.len() && i != j implies #[trigger] t[i].0
                != #[trigger] t[j].0 by {
                assert(t[i] == s[i + 1] && t[j] == s[j + 1]);
            }
            assert forall|k: Seq<char>| #[trigger] rest.contains_key(k) implies exists|i: int|
                0 <= i < t.len() && #[trigger] t[i].0 == k by {
                assert(m.contains_key(k));
                let i = choose|i: int| 0 <= i < s.len() && #[trigger] s[i].0 == k;
                assert(i != 0);
                assert(t[i - 1] == s[i]);
            }
        }
        assert forall|i: int, j: int| 0 <= i < j < t1.len() implies text_lt(#[trigger] t1[i].0, #[trigger] t1[j].0) by {
            assert(t1[i] == s1[i + 1] && t1[j] == s1[j + 1]);
        }
        assert forall|i: int, j: int| 0 <= i < j < t2.len() implies text_lt(#[trigger] t2[i].0, #[trigger] t2[j].0) by {
            assert(t2[i] == s2[i + 1] && t2[j] == s2[j + 1]);
        }
        lemma_sorted_enumeration_unique(t1, t2, rest);
        assert(s1 =~= seq![s1[0]] + t1);
        assert(s2 =~= seq![s2[0]] + t2);
    }
}

/// Export is deterministic: caches with the same entries export the same text.
pub proof fn lemma_export_deterministic(
    s1: Seq<(Seq<char>, Seq<char>)>,
    s2: Seq<(Seq<char>, Seq<char>)>,
    m: Map<Seq<char>, Seq<char>>,
)
    requires
        enumerates(s1, m),
        enumerates(s2, m),
        sorted_by_key(s1),
        sorted_by_key(s2),
    ensures
        cache_file_text(s1) == cache_file_text(s2),
{
    lemma_sorted_enumeration_unique(s1, s2, m);
}

/// The entries of `v` in increasing order of fingerprint.
fn sort_by_fingerprint(v: &Vec<(String, String)>) -> (r: Vec<(String, String)>)
    requires
        keys_distinct(entry_texts(v@)),
    ensures
        sorted_by_key(entry_texts(r@)),
        r@.len() == v@.len(),
        forall|e: (Seq<char>, Seq<char>)| entry_texts(r@).contains(e) <==> entry_texts(v@).contains(e),
{
    let mut r: Vec<(String, String)> = Vec::new();
    let mut i: usize = 0;
    while i < v.len()
        invariant
            i <= v.len(),
            keys_distinct(entry_texts(v@)),
            r@.len() == i,
            sorted_by_key(entry_texts(r@)),
            forall|e: (Seq<char>, Seq<char>)| entry_texts(r@).contains(e) <==> entry_texts(v@).take(i as int).contains(e),
        decreases v.len() - i,
    {
        let x = (v[i].0.clone(), v[i].1.clone());
        let ghost xe = (x.0@, x.1@);
        let ghost rs = entry_texts(r@);
        let ghost vs = entry_texts(v@);
        assert(vs[i as int] == xe);
        assert forall|q: int| 0 <= q < rs.len() implies rs[q].0 != xe.0 by {
            assert(rs.contains(rs[q]));
            assert(vs.take(i as int).contains(rs[q]));
            let j = choose|j: int| 0 <= j < i && vs.take(i as int)[j] == rs[q];
            assert(vs[j] == rs[q]);
        }
        let mut p: usize = 0;
        while p < r.len() && !text_less(&x.0, &r[p].0)
            invariant
                p <= r.len(),
                rs == entry_texts(r@),
                xe == (x.0@, x.1@),
                forall|q: int| 0 <= q < rs.len() ==> rs[q].0 != xe.0,
                forall|q: int| 0 <= q < p ==> text_lt(#[trigger] rs[q].0, xe.0),
            decreases r.len() - p,
        {
            proof {
                assert(rs[p as int].0 == r@[p as int].0@);
                lemma_text_lt_total(xe.0, rs[p as int].0);
            }
            p = p + 1;
        }
        proof {
            if p < r.len() {
                assert(rs[p as int].0 == r@[p as int].0@);
            }
        }
        r.insert(p, x);
        proof {
            let ns = entry_texts(r@);
            assert(ns =~= rs.insert(p as int, xe));
            assert forall|a: int, b: int| 0 <= a < b < ns.len() implies text_lt(#[trigger] ns[a].0, #[trigger] ns[b].0) by {
                if b < p {
                } else if b == p {
                } else if a < p {
                    assert(ns[b] == rs[b - 1]);
                } else if a == p {
                    assert(ns[b] == rs[b - 1]);
                    if b - 1 > p {
                        assert(text_lt(rs[p as int].0, rs[b - 1].0));
                        lemma_text_lt_transitive(xe.0, rs[p as int].0, rs[b - 1].0);
                    }
                } else {
                    assert(ns[a] == rs[a - 1]);
                    assert(ns[b] == rs[b - 1]);
                }
            }
            assert(vs.take(i + 1) =~= vs.take(i as int).push(xe));
            assert forall|e: (Seq<char>, Seq<char>)| ns.contains(e) <==> vs.take(i + 1).contains(e) by {
                if ns.contains(e) {
                    let j = choose|j: int| 0 <= j < ns.len() && ns[j] == e;
                    if j < p {
                        assert(rs[j] == e);
                        assert(rs.contains(e));
                    } else if j > p {
                        assert(rs[j - 1] == e);
                        assert(rs.contains(e));
                    }
                    if e != xe {
                        assert(vs.take(i as int).contains(e));
                        let k = choose|k: int| 0 <= k < i && vs.take(i as int)[k] == e;
                        assert(vs.take(i + 1)[k] == e);
                    } else {
                        assert(vs.take(i + 1)[i as int] == e);
                    }
                }
                if vs.take(i + 1).contains(e) {
                    if e == xe {
                        assert(ns[p as int] == e);
                    } else {
                        let t = vs.take(i + 1);
                        let k = choose|k: int| 0 <= k < t.len() && t[k] == e;
                        assert(vs.take(i as int)[k] == e);
                        assert(rs.contains(e));
                        let j = choose|j: int| 0 <= j < rs.len() && rs[j] == e;
                        if j < p {
                            assert(ns[j] == e);
                        } else {
                            assert(ns[j + 1] == e);
                        }
                    }
                }
            }
        }
        i = i + 1;
    }
    assert(entry_texts(v@).take(v.len() as int) =~= entry_texts(v@));
    r
}

/// The cache of responses, keyed by request fingerprint. It never evicts: a
/// new entry is refused once it holds as many as its capacity.
pub struct ResponseCache {
    inner: Cache<String, String>,
    capacity: u64,
    count: u64,
}

impl ResponseCache {
    /// The entries held, fingerprint to response.
    pub closed spec fn entries(&self) -> Map<Seq<char>, Seq<char>> {
        cache_entries(self.inner)
    }

    /// The most entries it holds.
    pub closed spec fn capacity(&self) -> nat {
        self.capacity as nat
    }

    pub closed spec fn wf(&self) -> bool {
        &&& self.entries().dom().finite()
        &&& cache_capacity(self.inner) == self.capacity as nat
        &&& self.count as nat == self.entries().len()
        &&& self.count <= self.capacity
    }

    /// An empty cache that holds at most `capacity` entries.
    pub fn new(capacity: u64) -> (r: ResponseCache)
        ensures
            r.wf(),
            r.entries() == Map::<Seq<char>, Seq<char>>::empty(),
            r.capacity() == capacity as nat,
    {
        ResponseCache { inner: new_cache(capacity), capacity, count: 0 }
    }

    /// The cache that the lines of a cache file describe, with room for
    /// `capacity` entries. Lines without a separator are skipped.
    pub fn load(lines: &Vec<String>, capacity: u64) -> (r: ResponseCache)
        ensures
            r.wf(),
            r.capacity() == capacity as nat,
            r.entries() == loaded(texts(lines@), capacity as nat),
    {
        let mut r = ResponseCache::new(capacity);
        let mut i: usize = 0;
        while i < lines.len()
            invariant
                i <= lines.len(),
                r.wf(),
                r.capacity() == capacity as nat,
                r.entries() == loaded(texts(lines@).take(i as int), capacity as nat),
            decreases lines.len() - i,
        {
            let ghost before = texts(lines@).take(i as int);
            assert(texts(lines@).take(i + 1).drop_last() =~= before);
            assert(texts(lines@).take(i + 1).last() == lines@[i as int]@);
            match parse_cache_line(lines[i].as_str()) {
                Some((k, v)) => {
                    r.put(k, v);
                },
                None => {},
            }
            i = i + 1;
        }
        assert(texts(lines@).take(lines.len() as int) =~= texts(lines@));
        r
    }

    /// The response stored under `fingerprint`, if any.
    pub fn get(&self, fingerprint: &String) -> (r: Option<String>)
        ensures
            r matches Some(v) ==> self.entries().contains_key(fingerprint@) && self.entries()[fingerprint@]
                == v@,
            r is None ==> !self.entries().contains_key(fingerprint@),
    {
        cache_get(&self.inner, fingerprint)
    }

    /// Stores `response` under `fingerprint`, unless the fingerprint is new and
    /// the cache is full. Returns whether it was stored.
    pub fn put(&mut self, fingerprint: String, response: String) -> (r: bool)
        requires
            old(self).wf(),
        ensures
            final(self).wf(),
            final(self).capacity() == old(self).capacity(),
            r == (old(self).entries().contains_key(fingerprint@) || old(self).entries().len() < old(
                self,
            ).capacity()),
            final(self).entries() == stored(
                old(self).entries(),
                old(self).capacity(),
                fingerprint@,
                response@,
            ),
    {
        let present = cache_get(&self.inner, &fingerprint).is_some();
        if present {
            cache_insert(&mut self.inner, fingerprint, response);
            assert(self.entries().dom() =~= old(self).entries().dom());
            true
        } else if self.count < self.capacity {
            cache_insert(&mut self.inner, fingerprint, response);
            self.count = self.count + 1;
            true
        } else {
            false
        }
    }

    /// The number of entries held.
    pub fn len(&self) -> (r: u64)
        requires
            self.wf(),
        ensures
            r as nat == self.entries().len(),
    {
        self.count
    }

    /// Every entry, each once, in no particular order.
    pub fn snapshot(&self) -> (r: Vec<(String, String)>)
        requires
            self.wf(),
        ensures
            enumerates(entry_texts(r@), self.entries()),
            r@.len() == self.entries().len(),
    {
        let r = cache_snapshot(&self.inner);
        proof {
            let s = entry_texts(r@);
            assert forall|k: Seq<char>| #[trigger] self.entries().contains_key(k) implies exists|i: int|
                0 <= i < s.len() && #[trigger] s[i].0 == k by {
                let i = choose|i: int| 0 <= i < r@.len() && #[trigger] r@[i].0@ == k;
                assert(s[i].0 == k);
            }
            assert forall|i: int, j: int| 0 <= i < s.len() && 0 <= j < s.len() && i != j implies #[trigger] s[i].0
                != #[trigger] s[j].0 by {
                assert(s[i].0 == r@[i].0@);
                assert(s[j].0 == r@[j].0@);
            }
            assert forall|i: int| 0 <= i < s.len() implies self.entries().contains_key(#[trigger] s[i].0)
                && self.entries()[s[i].0] == s[i].1 by {
                assert(s[i].0 == r@[i].0@);
            }
            lemma_enumeration_len(s, self.entries());
        }
        r
    }

    /// The text of the cache file that holds every entry, one per line, in
    /// increasing order of fingerprint: caches with the same entries export
    /// the same text.
    pub fn export(&self) -> (r: String)
        requires
            self.wf(),
        ensures
            exists|s: Seq<(Seq<char>, Seq<char>)>|
                enumerates(s, self.entries()) && sorted_by_key(s) && s.len() == self.entries().len()
                    && r@ == cache_file_text(s),
    {
        let snap = self.snapshot();
        let sorted = sort_by_fingerprint(&snap);
        proof {
            let m = self.entries();
            let ss = entry_texts(snap@);
            let ts = entry_texts(sorted@);
            lemma_sorted_keys_distinct(ts);
            assert forall|i: int| 0 <= i < ts.len() implies m.contains_key(#[trigger] ts[i].0) && m[ts[i].0]
                == ts[i].1 by {
                assert(ts.contains(ts[i]));
                let j = choose|j: int| 0 <= j < ss.len() && ss[j] == ts[i];
                assert(m.contains_key(ss[j].0));
            }
            assert forall|k: Seq<char>| #[trigger] m.contains_key(k) implies exists|i: int|
                0 <= i < ts.len() && #[trigger] ts[i].0 == k by {
                let j = choose|j: int| 0 <= j < ss.len() && #[trigger] ss[j].0 == k;
                assert(ss.contains(ss[j]));
                let i = choose|i: int| 0 <= i < ts.len() && ts[i] == ss[j];
                assert(ts[i].0 == k);
            }
            assert(enumerates(ts, m));
        }
        render_cache_file(&sorted)
    }
}

} // verus!
