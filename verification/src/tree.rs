//! Directory trees as Parcel checksums them: entries ordered as paths,
//! and one BLAKE2b-512 digest over their names, kinds and contents.

use vstd::prelude::*;

use crate::fspath;
use crate::scan::{first_where, lemma_first_where};
use crate::text;
use crate::utils::hash;

verus! {

broadcast use vstd::seq_lib::group_to_multiset_ensures;

/// What a tree entry is, with what the checksum reads of it.
pub enum TreeEntryKind {
    Directory,
    /// A symbolic link and its target.
    Symlink(String),
    /// A regular file and its contents.
    File(Vec<u8>),
}

/// One entry below the tree's root, by its relative path.
pub struct TreeEntry {
    pub path: String,
    pub kind: TreeEntryKind,
}

/// The names a relative path is made of.
pub open spec fn path_names(p: Seq<char>) -> Seq<Seq<char>> {
    fspath::normal_names(fspath::components(p))
}

/// Paths ordered component by component, as `Path` orders them: -1, 0 or 1.
pub open spec fn lex_names(a: Seq<Seq<char>>, b: Seq<Seq<char>>) -> int
    decreases a.len(),
{
    if a.len() == 0 {
        if b.len() == 0 { 0 } else { -1 }
    } else if b.len() == 0 {
        1
    } else if text::lex_chars(a[0], b[0]) != 0 {
        text::lex_chars(a[0], b[0])
    } else {
        lex_names(a.drop_first(), b.drop_first())
    }
}

pub proof fn lemma_lex_names_antisym(a: Seq<Seq<char>>, b: Seq<Seq<char>>)
    ensures
        lex_names(a, b) == -lex_names(b, a),
        -1 <= lex_names(a, b) <= 1,
    decreases a.len(),
{
    if a.len() > 0 && b.len() > 0 {
        text::lemma_lex_chars_antisym(a[0], b[0]);
        if text::lex_chars(a[0], b[0]) == 0 {
            lemma_lex_names_antisym(a.drop_first(), b.drop_first());
        }
    }
}

pub proof fn lemma_lex_names_trans(a: Seq<Seq<char>>, b: Seq<Seq<char>>, c: Seq<Seq<char>>)
    requires
        lex_names(a, b) <= 0,
        lex_names(b, c) <= 0,
    ensures
        lex_names(a, c) <= 0,
        lex_names(a, b) < 0 || lex_names(b, c) < 0 ==> lex_names(a, c) < 0,
    decreases a.len(),
{
    if a.len() > 0 && b.len() > 0 && c.len() > 0 {
        let (x, y, z) = (a[0], b[0], c[0]);
        text::lemma_lex_chars_antisym(x, y);
        text::lemma_lex_chars_antisym(y, z);
        text::lemma_lex_chars_antisym(x, z);
        text::lemma_lex_chars_eq(x, y);
        text::lemma_lex_chars_eq(y, z);
        if text::lex_chars(x, y) <= 0 && text::lex_chars(y, z) <= 0 {
            text::lemma_lex_chars_trans(x, y, z);
        }
        if text::lex_chars(x, y) == 0 && text::lex_chars(y, z) == 0 {
            lemma_lex_names_trans(a.drop_first(), b.drop_first(), c.drop_first());
        }
    }
}

fn compare_names(a: &Vec<Vec<char>>, b: &Vec<Vec<char>>) -> (r: i8)
    ensures
        r == lex_names(a@.map_values(|v: Vec<char>| v@), b@.map_values(|v: Vec<char>| v@)),
{
    let ghost av = a@.map_values(|v: Vec<char>| v@);
    let ghost bv = b@.map_values(|v: Vec<char>| v@);
    let mut i: usize = 0;
    assert(av.skip(0) =~= av && bv.skip(0) =~= bv);
    while i < a.len() && i < b.len()
        invariant
            i <= a.len(),
            i <= b.len(),
            av == a@.map_values(|v: Vec<char>| v@),
            bv == b@.map_values(|v: Vec<char>| v@),
            lex_names(av, bv) == lex_names(av.skip(i as int), bv.skip(i as int)),
        decreases a.len() - i,
    {
        let c = text::compare_chars(&a[i], &b[i]);
        assert(av.skip(i as int)[0] == a@[i as int]@ && bv.skip(i as int)[0] == b@[i as int]@);
        if c != 0 {
            return c;
        }
        assert(av.skip(i as int).drop_first() =~= av.skip(i + 1));
        assert(bv.skip(i as int).drop_first() =~= bv.skip(i + 1));
        i = i + 1;
    }
    if i < a.len() {
        1
    } else if i < b.len() {
        -1
    } else {
        0
    }
}

/// The names of an entry's path.
fn entry_names(e: &TreeEntry) -> (r: Vec<Vec<char>>)
    ensures
        r@.map_values(|v: Vec<char>| v@) == path_names(e.path@),
{
    let parts = fspath::path_components(&text::chars_of(e.path.as_str()));
    let ghost pv = parts@.map_values(|p: fspath::PathPart| p@);
    let mut r: Vec<Vec<char>> = Vec::new();
    let mut i: usize = 0;
    while i < parts.len()
        invariant
            i <= parts.len(),
            pv == parts@.map_values(|p: fspath::PathPart| p@),
            pv == fspath::components(e.path@),
            r@.map_values(|v: Vec<char>| v@) == fspath::normal_names(pv.subrange(0, i as int)),
        decreases parts.len() - i,
    {
        proof {
            assert(pv.subrange(0, i + 1).drop_last() =~= pv.subrange(0, i as int));
            assert(pv.subrange(0, i + 1).last() == parts@[i as int]@);
        }
        match &parts[i] {
            fspath::PathPart::Normal(n) => {
                let ghost before = r@.map_values(|v: Vec<char>| v@);
                r.push(text::copy_chars(n));
                assert(r@.map_values(|v: Vec<char>| v@) =~= before.push(n@));
            },
            _ => {},
        }
        i = i + 1;
    }
    assert(pv.subrange(0, i as int) =~= pv);
    r
}

/// Where a tree entry goes among entries already in order: before the
/// first entry whose path is greater.
pub open spec fn insert_at(r: Seq<TreeEntry>, x: TreeEntry) -> int {
    let k = first_where(r.len() as int, |j: int| lex_names(path_names(x.path@), path_names(r[j].path@)) < 0);
    if k < 0 {
        r.len() as int
    } else {
        k
    }
}

/// The entries in path order, equal paths keeping their order: each entry
/// in turn placed after every entry whose path is not greater.
pub open spec fn sorted_entries(s: Seq<TreeEntry>) -> Seq<TreeEntry>
    decreases s.len(),
{
    if s.len() == 0 {
        Seq::empty()
    } else {
        let r = sorted_entries(s.drop_last());
        r.insert(insert_at(r, s.last()), s.last())
    }
}

/// Entries in path order.
pub open spec fn in_path_order(s: Seq<TreeEntry>) -> bool {
    forall|i: int, j: int|
        0 <= i < j < s.len() ==> lex_names(path_names(#[trigger] s[i].path@), path_names(#[trigger] s[j].path@))
            <= 0
}

/// Placing an entry where `insert_at` says keeps entries in path order.
proof fn lemma_insert_in_order(r: Seq<TreeEntry>, x: TreeEntry)
    requires
        in_path_order(r),
    ensures
        in_path_order(r.insert(insert_at(r, x), x)),
{
    let xi = path_names(x.path@);
    let p = |j: int| lex_names(xi, path_names(r[j].path@)) < 0;
    lemma_first_where(r.len() as int, p);
    let k = insert_at(r, x);
    let t = r.insert(k, x);
    assert forall|i: int, j: int| 0 <= i < j < t.len() implies lex_names(
        path_names(#[trigger] t[i].path@),
        path_names(#[trigger] t[j].path@),
    ) <= 0 by {
        if j < k {
            assert(t[i] == r[i] && t[j] == r[j]);
        } else if j == k {
            assert(t[i] == r[i] && t[j] == x);
            assert(!p(i));
            lemma_lex_names_antisym(xi, path_names(r[i].path@));
        } else if i == k {
            assert(t[j] == r[j - 1] && t[i] == x);
            assert(p(k));
            if j - 1 > k {
                assert(lex_names(path_names(r[k].path@), path_names(r[j - 1].path@)) <= 0);
                lemma_lex_names_trans(xi, path_names(r[k].path@), path_names(r[j - 1].path@));
            }
        } else if i > k {
            assert(t[i] == r[i - 1] && t[j] == r[j - 1]);
        } else {
            assert(t[i] == r[i] && t[j] == r[j - 1]);
        }
    }
}

/// Inserting an entry adds it to the multiset of entries.
proof fn lemma_insert_keeps(r: Seq<TreeEntry>, k: int, x: TreeEntry)
    requires
        0 <= k <= r.len(),
    ensures
        r.insert(k, x).to_multiset() == r.to_multiset().insert(x),
{
    let t = r.insert(k, x);
    assert(t.remove(k) =~= r);
    assert(t[k] == x);
    assert(t.contains(x));
    assert(t.to_multiset() =~= r.to_multiset().insert(x));
}

/// `sorted_entries` puts the entries in path order, and keeps them all.
pub proof fn lemma_sorted_entries(s: Seq<TreeEntry>)
    ensures
        in_path_order(sorted_entries(s)),
        sorted_entries(s).to_multiset() == s.to_multiset(),
    decreases s.len(),
{
    if s.len() > 0 {
        let r = sorted_entries(s.drop_last());
        let x = s.last();
        lemma_sorted_entries(s.drop_last());
        lemma_first_where(r.len() as int, |j: int| lex_names(path_names(x.path@), path_names(r[j].path@)) < 0);
        lemma_insert_in_order(r, x);
        lemma_insert_keeps(r, insert_at(r, x), x);
        assert(s.drop_last().push(x) =~= s);
    }
}

/// The entries in path order, equal paths keeping their order.
pub fn sort_tree_entries(entries: Vec<TreeEntry>) -> (r: Vec<TreeEntry>)
    ensures
        r@ == sorted_entries(entries@),
        in_path_order(r@),
        r@.to_multiset() == entries@.to_multiset(),
{
    let ghost original = entries@;
    let mut rest = entries;
    let mut r: Vec<TreeEntry> = Vec::new();
    let mut taken: usize = 0;
    let total = rest.len();
    while rest.len() > 0
        invariant
            total == original.len(),
            taken + rest@.len() == original.len(),
            rest@ == original.skip(taken as int),
            r@ == sorted_entries(original.take(taken as int)),
        decreases rest@.len(),
    {
        let x = rest.remove(0);
        proof {
            assert(original.take(taken + 1).drop_last() =~= original.take(taken as int));
            assert(original.take(taken + 1).last() == x);
            assert(rest@ =~= original.skip(taken + 1));
        }
        let xn = entry_names(&x);
        let ghost p = |j: int| lex_names(path_names(x.path@), path_names(r@[j].path@)) < 0;
        let mut k: usize = 0;
        let mut found = false;
        while k < r.len() && !found
            invariant
                k <= r@.len(),
                xn@.map_values(|v: Vec<char>| v@) == path_names(x.path@),
                p == (|j: int| lex_names(path_names(x.path@), path_names(r@[j].path@)) < 0),
                first_where(k as int, p) < 0,
                found ==> k < r@.len() && p(k as int),
            decreases r@.len() - k + (if found { 0int } else { 1int }),
        {
            let rn = entry_names(&r[k]);
            if compare_names(&xn, &rn) < 0 {
                found = true;
            } else {
                proof {
                    assert(!p(k as int));
                    assert(first_where(k + 1, p) < 0);
                }
                k = k + 1;
            }
        }
        proof {
            if k < r@.len() {
                crate::scan::lemma_first_where_at(k as int, r@.len() as int, p);
            }
            assert(k == insert_at(r@, x));
        }
        r.insert(k, x);
        taken = taken + 1;
    }
    proof {
        assert(original.take(taken as int) =~= original);
        lemma_sorted_entries(original);
    }
    r
}

/// `dir`.
pub open spec fn dir_tag() -> Seq<u8> {
    seq![100u8, 105u8, 114u8]
}

/// `symlink`.
pub open spec fn symlink_tag() -> Seq<u8> {
    seq![115u8, 121u8, 109u8, 108u8, 105u8, 110u8, 107u8]
}

/// `file`.
pub open spec fn file_tag() -> Seq<u8> {
    seq![102u8, 105u8, 108u8, 101u8]
}

/// What the checksum reads of one entry: its path, then `dir`; `symlink`
/// and the link target; or `file` and the contents.
pub open spec fn entry_bytes(e: TreeEntry) -> Seq<u8> {
    vstd::utf8::encode_utf8(e.path@) + match e.kind {
        TreeEntryKind::Directory => dir_tag(),
        TreeEntryKind::Symlink(t) => symlink_tag() + vstd::utf8::encode_utf8(t@),
        TreeEntryKind::File(c) => file_tag() + c@,
    }
}

/// What the checksum reads of a list of entries, one after the other.
pub open spec fn tree_bytes(s: Seq<TreeEntry>) -> Seq<u8>
    decreases s.len(),
{
    if s.len() == 0 {
        Seq::empty()
    } else {
        tree_bytes(s.drop_last()) + entry_bytes(s.last())
    }
}

fn push_bytes(v: &mut Vec<u8>, b: &[u8])
    ensures
        final(v)@ == old(v)@ + b@,
{
    let mut i: usize = 0;
    let ghost start = v@;
    while i < b.len()
        invariant
            i <= b@.len(),
            v@ == start + b@.subrange(0, i as int),
        decreases b@.len() - i,
    {
        v.push(b[i]);
        assert(b@.subrange(0, i + 1) =~= b@.subrange(0, i as int).push(b@[i as int]));
        i = i + 1;
    }
    assert(b@.subrange(0, i as int) =~= b@);
}

/// The checksum of a directory tree: the lowercase hex BLAKE2b-512 digest
/// of what it reads of each entry, the entries taken in path order.
pub fn directory_checksum(entries: Vec<TreeEntry>) -> (r: String)
    ensures
        r@ == hash::hex_lower(hash::blake2b512(tree_bytes(sorted_entries(entries@)))),
{
    let sorted = sort_tree_entries(entries);
    let mut bytes: Vec<u8> = Vec::new();
    let mut i: usize = 0;
    while i < sorted.len()
        invariant
            i <= sorted@.len(),
            bytes@ == tree_bytes(sorted@.subrange(0, i as int)),
        decreases sorted@.len() - i,
    {
        let e = &sorted[i];
        proof {
            assert(sorted@.subrange(0, i + 1).drop_last() =~= sorted@.subrange(0, i as int));
        }
        let ghost before = bytes@;
        push_bytes(&mut bytes, e.path.as_str().as_bytes());
        match &e.kind {
            TreeEntryKind::Directory => {
                let tag: Vec<u8> = vec![100u8, 105u8, 114u8];
                push_bytes(&mut bytes, tag.as_slice());
            },
            TreeEntryKind::Symlink(t) => {
                let tag: Vec<u8> = vec![115u8, 121u8, 109u8, 108u8, 105u8, 110u8, 107u8];
                push_bytes(&mut bytes, tag.as_slice());
                push_bytes(&mut bytes, t.as_str().as_bytes());
            },
            TreeEntryKind::File(c) => {
                let tag: Vec<u8> = vec![102u8, 105u8, 108u8, 101u8];
                push_bytes(&mut bytes, tag.as_slice());
                push_bytes(&mut bytes, c.as_slice());
            },
        }
        proof {
            assert(bytes@ =~= before + entry_bytes(*e));
        }
        i = i + 1;
    }
    proof {
        assert(sorted@.subrange(0, i as int) =~= sorted@);
    }
    hash::hash_blake2b(bytes.as_slice())
}

} // verus!
