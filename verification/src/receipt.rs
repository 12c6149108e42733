//! Install receipts: what Parcel recorded about an installed package.

use vstd::prelude::*;

use crate::scan::{first_where, lemma_first_where, lemma_first_where_at};
use crate::text;

verus! {

broadcast use vstd::seq_lib::group_to_multiset_ensures;

/// The record of one installed package version.
pub struct Receipt {
    pub name: String,
    pub version: String,
    pub arch: String,
    pub source: InstallSource,
    pub package_checksum: Option<String>,
    /// When it was installed, as RFC 3339 text in UTC.
    pub installed_at: String,
    pub install_dir: String,
    pub opt_link: String,
    pub exposed_paths: Vec<ExposedPath>,
}

/// A file placed outside the install directory, and what it points at.
pub struct ExposedPath {
    pub target: String,
    pub kind: ExposureKind,
    pub source: String,
}

/// How a file was exposed.
#[derive(Debug, Clone, Copy, PartialEq, Eq, Structural)]
pub enum ExposureKind {
    Link,
    Copy,
}

/// Where an installed package came from.
pub enum InstallSource {
    LocalFile { path: String },
    Repository { repo: String, url: String },
}

/// Values that are ordered and listed by a name.
pub trait Named {
    spec fn key(&self) -> Seq<char>;

    fn key_str(&self) -> (r: &str)
        ensures
            r@ == self.key(),
    ;
}

impl Named for Receipt {
    open spec fn key(&self) -> Seq<char> {
        self.name@
    }

    fn key_str(&self) -> (r: &str) {
        self.name.as_str()
    }
}

impl Named for crate::repo::RepoConfig {
    open spec fn key(&self) -> Seq<char> {
        self.name@
    }

    fn key_str(&self) -> (r: &str) {
        self.name.as_str()
    }
}

/// Names in ascending order (equal names allowed).
pub open spec fn sorted_by_name<T: Named>(s: Seq<T>) -> bool {
    forall|i: int, j: int| 0 <= i < j < s.len() ==> text::lex_chars(#[trigger] s[i].key(), #[trigger] s[j].key()) <= 0
}

/// Where an item goes among items already in order: before the first item
/// whose name is greater.
pub open spec fn name_insert_at<T: Named>(r: Seq<T>, x: T) -> int {
    let k = first_where(r.len() as int, |j: int| text::lex_chars(x.key(), r[j].key()) < 0);
    if k < 0 {
        r.len() as int
    } else {
        k
    }
}

/// The items ordered by name, items with equal names keeping their order:
/// each item in turn placed after every item whose name is not greater.
pub open spec fn name_sorted<T: Named>(s: Seq<T>) -> Seq<T>
    decreases s.len(),
{
    if s.len() == 0 {
        Seq::empty()
    } else {
        let r = name_sorted(s.drop_last());
        r.insert(name_insert_at(r, s.last()), s.last())
    }
}

/// Placing an item where `name_insert_at` says keeps the names in order.
proof fn lemma_name_insert_in_order<T: Named>(r: Seq<T>, x: T)
    requires
        sorted_by_name(r),
    ensures
        sorted_by_name(r.insert(name_insert_at(r, x), x)),
{
    let p = |j: int| text::lex_chars(x.key(), r[j].key()) < 0;
    lemma_first_where(r.len() as int, p);
    let k = name_insert_at(r, x);
    let t = r.insert(k, x);
    assert forall|i: int, j: int| 0 <= i < j < t.len() implies text::lex_chars(
        #[trigger] t[i].key(),
        #[trigger] t[j].key(),
    ) <= 0 by {
        if j < k {
            assert(t[i] == r[i] && t[j] == r[j]);
        } else if j == k {
            assert(t[i] == r[i] && t[j] == x);
            assert(!p(i));
            text::lemma_lex_chars_antisym(x.key(), r[i].key());
        } else if i == k {
            assert(t[j] == r[j - 1] && t[i] == x);
            assert(p(k));
            if j - 1 > k {
                assert(text::lex_chars(r[k].key(), r[j - 1].key()) <= 0);
                text::lemma_lex_chars_trans(x.key(), r[k].key(), r[j - 1].key());
            }
        } else if i > k {
            assert(t[i] == r[i - 1] && t[j] == r[j - 1]);
        } else {
            assert(t[i] == r[i] && t[j] == r[j - 1]);
        }
    }
}

proof fn lemma_insert_keeps<T>(r: Seq<T>, k: int, x: T)
    requires
        0 <= k <= r.len(),
    ensures
        r.insert(k, x).to_multiset() == r.to_multiset().insert(x),
{
    let t = r.insert(k, x);
    assert(t.remove(k) =~= r);
    assert(t[k] == x);
    assert(t.contains(x));
    assert(t.to_multiset() =~= r.to_multiset().insert(x));
}

/// `name_sorted` orders the items by name and keeps them all.
pub proof fn lemma_name_sorted<T: Named>(s: Seq<T>)
    ensures
        sorted_by_name(name_sorted(s)),
        name_sorted(s).to_multiset() == s.to_multiset(),
    decreases s.len(),
{
    if s.len() > 0 {
        let r = name_sorted(s.drop_last());
        let x = s.last();
        lemma_name_sorted(s.drop_last());
        lemma_first_where(r.len() as int, |j: int| text::lex_chars(x.key(), r[j].key()) < 0);
        lemma_name_insert_in_order(r, x);
        lemma_insert_keeps(r, name_insert_at(r, x), x);
        assert(s.drop_last().push(x) =~= s);
    }
}

/// Where an item goes in a list: before the first item whose name is
/// greater.
fn insertion_point<T: Named>(r: &Vec<T>, x: &T) -> (p: usize)
    ensures
        p == name_insert_at(r@, *x),
        p <= r@.len(),
{
    let xk = text::chars_of(x.key_str());
    let ghost q = |j: int| text::lex_chars(x.key(), r@[j].key()) < 0;
    let mut p: usize = 0;
    while p < r.len()
        invariant
            p <= r@.len(),
            xk@ == x.key(),
            q == (|j: int| text::lex_chars(x.key(), r@[j].key()) < 0),
            first_where(p as int, q) < 0,
        decreases r.len() - p,
    {
        let rk = text::chars_of(r[p].key_str());
        if text::compare_chars(&xk, &rk) < 0 {
            proof {
                lemma_first_where_at(p as int, r@.len() as int, q);
            }
            return p;
        }
        proof {
            assert(first_where(p + 1, q) < 0);
        }
        p = p + 1;
    }
    p
}

/// The items ordered by name, keeping the order of items with equal names.
pub fn sort_by_name<T: Named>(items: Vec<T>) -> (r: Vec<T>)
    ensures
        r@ == name_sorted(items@),
        sorted_by_name(r@),
        r@.to_multiset() == items@.to_multiset(),
{
    let mut rest = items;
    let ghost given = rest@;
    let mut r: Vec<T> = Vec::new();
    let mut taken: usize = 0;
    let total = rest.len();
    while rest.len() > 0
        invariant
            total == given.len(),
            taken + rest@.len() == given.len(),
            rest@ == given.skip(taken as int),
            r@ == name_sorted(given.take(taken as int)),
        decreases rest@.len(),
    {
        let x = rest.remove(0);
        proof {
            assert(given.take(taken + 1).drop_last() =~= given.take(taken as int));
            assert(given.take(taken + 1).last() == x);
            assert(rest@ =~= given.skip(taken + 1));
        }
        let p = insertion_point(&r, &x);
        r.insert(p, x);
        taken = taken + 1;
    }
    proof {
        assert(given.take(taken as int) =~= given);
        lemma_name_sorted(given);
    }
    r
}

} // verus!
