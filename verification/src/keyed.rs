//! Maps keyed by text, held as lists of `(key, value)` pairs with strictly
//! ascending keys: the shape of the ordered maps in Parcel's files.

use vstd::prelude::*;

use crate::repo::{key_index, lemma_key_index};
use crate::text;

verus! {

/// Keys strictly ascending, so each key occurs once.
pub open spec fn sorted_keys<V>(s: Seq<(String, V)>) -> bool {
    forall|i: int, j: int| 0 <= i < j < s.len() ==> text::lex_chars(s[i].0@, s[j].0@) < 0
}

/// The map a keyed list stands for.
pub open spec fn as_map<V>(s: Seq<(String, V)>) -> Map<Seq<char>, V> {
    Map::new(|k: Seq<char>| key_index(s, k) >= 0, |k: Seq<char>| s[key_index(s, k)].1)
}

/// The value stored under `key`, if any.
pub fn keyed_get<'a, V>(v: &'a Vec<(String, V)>, key: &str) -> (r: Option<&'a V>)
    ensures
        r is Some <==> as_map(v@).contains_key(key@),
        r matches Some(x) ==> *x == as_map(v@)[key@],
{
    let k = text::chars_of(key);
    proof {
        lemma_key_index(v@, key@);
    }
    match crate::repo::find_key(v, &k) {
        Some(i) => Some(&v[i].1),
        None => None,
    }
}

/// Whether `key` has a value.
pub fn keyed_contains<V>(v: &Vec<(String, V)>, key: &str) -> (r: bool)
    ensures
        r == as_map(v@).contains_key(key@),
{
    keyed_get(v, key).is_some()
}

/// Position where `key` is, or where it would go to keep keys ascending.
fn search_position<V>(v: &Vec<(String, V)>, key: &Vec<char>) -> (r: (usize, bool))
    requires
        sorted_keys(v@),
    ensures
        r.0 <= v@.len(),
        forall|i: int| 0 <= i < r.0 ==> text::lex_chars(#[trigger] v@[i].0@, key@) < 0,
        r.1 ==> r.0 < v@.len() && v@[r.0 as int].0@ == key@,
        !r.1 ==> forall|i: int| r.0 <= i < v@.len() ==> text::lex_chars(key@, #[trigger] v@[i].0@) < 0,
{
    let mut i: usize = 0;
    while i < v.len()
        invariant
            i <= v.len(),
            sorted_keys(v@),
            forall|j: int| 0 <= j < i ==> text::lex_chars(#[trigger] v@[j].0@, key@) < 0,
        decreases v.len() - i,
    {
        let k = text::chars_of(v[i].0.as_str());
        let c = text::compare_chars(&k, key);
        if c == 0 {
            proof {
                text::lemma_lex_chars_eq(k@, key@);
            }
            return (i, true);
        }
        if c > 0 {
            proof {
                assert forall|j: int| i <= j < v@.len() implies text::lex_chars(key@, #[trigger] v@[j].0@) < 0 by {
                    text::lemma_lex_chars_antisym(key@, v@[i as int].0@);
                    if j > i {
                        text::lemma_lex_chars_antisym(v@[i as int].0@, key@);
                        lemma_lt_trans(key@, v@[i as int].0@, v@[j].0@);
                    }
                }
            }
            return (i, false);
        }
        i = i + 1;
    }
    (i, false)
}

pub proof fn lemma_lt_trans(a: Seq<char>, b: Seq<char>, c: Seq<char>)
    requires
        text::lex_chars(a, b) < 0,
        text::lex_chars(b, c) < 0,
    ensures
        text::lex_chars(a, c) < 0,
{
    text::lemma_lex_chars_trans(a, b, c);
}

/// In a sorted list, a key below every later key is found nowhere after.
proof fn lemma_sorted_lookup<V>(s: Seq<(String, V)>, k: Seq<char>, p: int)
    requires
        sorted_keys(s),
        0 <= p < s.len(),
        s[p].0@ == k,
    ensures
        key_index(s, k) == p,
{
    lemma_key_index(s, k);
    let q = key_index(s, k);
    if q != p {
        if q >= 0 && q < p {
            assert(text::lex_chars(s[q].0@, s[p].0@) < 0);
            text::lemma_lex_chars_eq(s[q].0@, s[p].0@);
        }
    }
}

proof fn lemma_absent<V>(s: Seq<(String, V)>, k: Seq<char>, p: int)
    requires
        0 <= p <= s.len(),
        forall|i: int| 0 <= i < p ==> text::lex_chars(#[trigger] s[i].0@, k) < 0,
        forall|i: int| p <= i < s.len() ==> text::lex_chars(k, #[trigger] s[i].0@) < 0,
    ensures
        key_index(s, k) == -1,
{
    lemma_key_index(s, k);
    if key_index(s, k) >= 0 {
        let q = key_index(s, k);
        text::lemma_lex_chars_eq(s[q].0@, k);
        text::lemma_lex_chars_eq(k, s[q].0@);
    }
}

/// Sets the value of `key`, keeping keys ascending. Returns the value it
/// replaced, if any.
pub fn keyed_insert<V>(v: &mut Vec<(String, V)>, key: String, value: V) -> (r: Option<V>)
    requires
        sorted_keys(old(v)@),
    ensures
        sorted_keys(final(v)@),
        as_map(final(v)@) == as_map(old(v)@).insert(key@, value),
        r is Some <==> as_map(old(v)@).contains_key(key@),
        r matches Some(x) ==> x == as_map(old(v)@)[key@],
{
    let k = text::chars_of(key.as_str());
    let (pos, found) = search_position(v, &k);
    let ghost s = v@;
    if found {
        let (_, old_value) = v.remove(pos);
        v.insert(pos, (key, value));
        proof {
            lemma_sorted_lookup(s, key@, pos as int);
            assert forall|i: int, j: int| 0 <= i < j < v@.len() implies text::lex_chars(v@[i].0@, v@[j].0@) < 0 by {
                assert(v@[i].0@ == s[i].0@ && v@[j].0@ == s[j].0@);
            }
            assert forall|q: int| #![trigger v@[q]] 0 <= q < v@.len() implies v@[q].0@ == s[q].0@ by {}
            assert forall|kk: Seq<char>| key_index(v@, kk) == key_index(s, kk) by {
                lemma_same_keys(v@, s, kk);
            }
            assert forall|q: int| 0 <= q < v@.len() && q != pos implies v@[q] == s[q] by {}
            assert forall|kk: Seq<char>| #[trigger] as_map(v@).contains_key(kk) == as_map(s).insert(key@, value).contains_key(kk) by {
                lemma_key_index(s, kk);
            }
            assert forall|kk: Seq<char>| as_map(v@).contains_key(kk) implies #[trigger] as_map(v@)[kk] == as_map(s).insert(key@, value)[kk] by {
                lemma_key_index(s, kk);
                if kk != key@ {
                    let q = key_index(s, kk);
                    assert(q != pos);
                }
            }
            assert(as_map(v@) =~= as_map(s).insert(key@, value));
        }
        Some(old_value)
    } else {
        v.insert(pos, (key, value));
        proof {
            lemma_absent(s, key@, pos as int);
            assert forall|i: int, j: int| 0 <= i < j < v@.len() implies text::lex_chars(v@[i].0@, v@[j].0@) < 0 by {
                if j == pos {
                    assert(v@[i] == s[i]);
                } else if i == pos {
                    assert(v@[j] == s[j - 1]);
                } else if j < pos {
                    assert(v@[i] == s[i] && v@[j] == s[j]);
                } else if i < pos {
                    assert(v@[i] == s[i] && v@[j] == s[j - 1]);
                    lemma_lt_trans(s[i].0@, key@, s[j - 1].0@);
                } else {
                    assert(v@[i] == s[i - 1] && v@[j] == s[j - 1]);
                }
            }
            lemma_sorted_lookup(v@, key@, pos as int);
            assert forall|kk: Seq<char>| kk != key@ implies key_index(v@, kk) == (if key_index(s, kk) < 0 {
                -1
            } else if key_index(s, kk) < pos {
                key_index(s, kk)
            } else {
                key_index(s, kk) + 1
            }) by {
                lemma_key_index(s, kk);
                if key_index(s, kk) >= 0 {
                    let q = key_index(s, kk);
                    let q2 = if q < pos { q } else { q + 1 };
                    assert(v@[q2] == s[q]);
                    lemma_sorted_lookup(s, kk, q);
                    lemma_sorted_lookup(v@, kk, q2);
                } else {
                    lemma_key_index(v@, kk);
                    if key_index(v@, kk) >= 0 {
                        let q2 = key_index(v@, kk);
                        let q = if q2 < pos { q2 } else { q2 - 1 };
                        assert(s[q] == v@[q2]);
                    }
                }
            }
            assert forall|kk: Seq<char>| #[trigger] as_map(v@).contains_key(kk) == as_map(s).insert(key@, value).contains_key(kk) by {
                lemma_key_index(s, kk);
            }
            assert forall|kk: Seq<char>| as_map(v@).contains_key(kk) implies #[trigger] as_map(v@)[kk] == as_map(s).insert(key@, value)[kk] by {
                lemma_key_index(s, kk);
                if kk != key@ {
                    let q = key_index(s, kk);
                    let q2 = if q < pos { q } else { q + 1 };
                    assert(v@[q2] == s[q]);
                }
            }
            assert(as_map(v@) =~= as_map(s).insert(key@, value));
        }
        None
    }
}

proof fn lemma_same_keys<V>(a: Seq<(String, V)>, b: Seq<(String, V)>, k: Seq<char>)
    requires
        a.len() == b.len(),
        forall|q: int| #![trigger a[q]] 0 <= q < a.len() ==> a[q].0@ == b[q].0@,
    ensures
        key_index(a, k) == key_index(b, k),
    decreases a.len(),
{
    if a.len() > 0 {
        lemma_same_keys(a.drop_last(), b.drop_last(), k);
    }
}

/// Removes `key` and returns its value, if it had one.
pub fn keyed_remove<V>(v: &mut Vec<(String, V)>, key: &str) -> (r: Option<V>)
    requires
        sorted_keys(old(v)@),
    ensures
        sorted_keys(final(v)@),
        as_map(final(v)@) == as_map(old(v)@).remove(key@),
        r is Some <==> as_map(old(v)@).contains_key(key@),
        r matches Some(x) ==> x == as_map(old(v)@)[key@],
{
    let k = text::chars_of(key);
    let (pos, found) = search_position(v, &k);
    let ghost s = v@;
    if !found {
        proof {
            lemma_absent(s, key@, pos as int);
            assert(as_map(s) =~= as_map(s).remove(key@));
        }
        return None;
    }
    let (_, old_value) = v.remove(pos);
    proof {
        lemma_sorted_lookup(s, key@, pos as int);
        assert forall|i: int, j: int| 0 <= i < j < v@.len() implies text::lex_chars(v@[i].0@, v@[j].0@) < 0 by {
            let i2 = if i < pos { i } else { i + 1 };
            let j2 = if j < pos { j } else { j + 1 };
            assert(v@[i] == s[i2] && v@[j] == s[j2]);
        }
        assert forall|kk: Seq<char>| kk != key@ implies key_index(v@, kk) == (if key_index(s, kk) < 0 {
            -1
        } else if key_index(s, kk) < pos {
            key_index(s, kk)
        } else {
            key_index(s, kk) - 1
        }) by {
            lemma_key_index(s, kk);
            if key_index(s, kk) >= 0 {
                let q = key_index(s, kk);
                assert(q != pos);
                let q2 = if q < pos { q } else { q - 1 };
                assert(v@[q2] == s[q]);
                lemma_sorted_lookup(v@, kk, q2);
            } else {
                lemma_key_index(v@, kk);
                if key_index(v@, kk) >= 0 {
                    let q2 = key_index(v@, kk);
                    let q = if q2 < pos { q2 } else { q2 + 1 };
                    assert(s[q] == v@[q2]);
                }
            }
        }
        lemma_key_index(v@, key@);
        if key_index(v@, key@) >= 0 {
            let q2 = key_index(v@, key@);
            let q = if q2 < pos { q2 } else { q2 + 1 };
            assert(s[q] == v@[q2]);
            assert(s[q].0@ == s[pos as int].0@);
            text::lemma_lex_chars_eq(s[q].0@, s[pos as int].0@);
            if q < pos {
                assert(text::lex_chars(s[q].0@, s[pos as int].0@) < 0);
            } else {
                assert(text::lex_chars(s[pos as int].0@, s[q].0@) < 0);
                text::lemma_lex_chars_eq(s[pos as int].0@, s[q].0@);
            }
        }
        assert forall|kk: Seq<char>| #[trigger] as_map(v@).contains_key(kk) == as_map(s).remove(key@).contains_key(kk) by {
            lemma_key_index(s, kk);
        }
        assert forall|kk: Seq<char>| as_map(v@).contains_key(kk) implies #[trigger] as_map(v@)[kk] == as_map(s).remove(key@)[kk] by {
            lemma_key_index(s, kk);
            let q = key_index(s, kk);
            let q2 = if q < pos { q } else { q - 1 };
            assert(v@[q2] == s[q]);
        }
        assert(as_map(v@) =~= as_map(s).remove(key@));
    }
    Some(old_value)
}

/// Reading a key back after setting it gives the value set, and every
/// other key keeps its value.
pub proof fn law_insert_then_get<V>(s: Seq<(String, V)>, k: Seq<char>, v: V, other: Seq<char>)
    ensures
        as_map(s).insert(k, v)[k] == v,
        other != k ==> (as_map(s).insert(k, v).contains_key(other) == as_map(s).contains_key(other)),
        other != k && as_map(s).contains_key(other) ==> as_map(s).insert(k, v)[other] == as_map(s)[other],
{
}

} // verus!
