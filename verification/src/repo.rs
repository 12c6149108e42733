//! Repository configuration and index data, and the pure logic on them.

use vstd::prelude::*;

use crate::fspath;
use crate::text;
use crate::utils::arch::Architecture;

verus! {

/// A configured repository: its name and where its index lives.
pub struct RepoConfig {
    pub name: String,
    pub url: String,
}

/// Checksum and size of one downloadable artifact.
pub struct ArtifactRecord {
    pub checksum: String,
    pub size: u64,
}

impl Clone for ArtifactRecord {
    fn clone(&self) -> (r: Self)
        ensures
            r == *self,
    {
        ArtifactRecord { checksum: self.checksum.clone(), size: self.size }
    }
}

/// Copies a keyed list of artifact records.
pub fn copy_records(v: &Vec<(String, ArtifactRecord)>) -> (r: Vec<(String, ArtifactRecord)>)
    ensures
        r@ == v@,
{
    let mut r: Vec<(String, ArtifactRecord)> = Vec::new();
    let mut i: usize = 0;
    while i < v.len()
        invariant
            i <= v.len(),
            r@ == v@.subrange(0, i as int),
        decreases v.len() - i,
    {
        let (k, rec) = &v[i];
        r.push((k.clone(), rec.clone()));
        i = i + 1;
    }
    assert(v@.subrange(0, i as int) =~= v@);
    r
}

/// Artifacts available for one architecture: full packages keyed by
/// version, and deltas keyed by `from->to`. Keys are unique and in
/// ascending order, as in the index file.
pub struct RepoArchitecture {
    pub versions: Vec<(String, ArtifactRecord)>,
    pub deltas: Vec<(String, ArtifactRecord)>,
}

/// A package entry of an index: its description, homepage and the
/// artifacts per architecture.
pub struct RepoPackage {
    pub description: String,
    pub homepage: Option<String>,
    pub architectures: Vec<(Architecture, RepoArchitecture)>,
}

/// A repository index: schema tag, generation time, download URL
/// templates and the packages keyed by name.
pub struct RepoIndex {
    pub schema: String,
    pub generated_at: String,
    pub download_template: String,
    pub delta_download_template: Option<String>,
    pub packages: Vec<(String, RepoPackage)>,
}

/// A configured repository together with its cached index.
pub struct CachedRepo {
    pub config: RepoConfig,
    pub index: RepoIndex,
}

/// Index of the first entry whose key is `k`, or -1.
pub open spec fn key_index<V>(s: Seq<(String, V)>, k: Seq<char>) -> int
    decreases s.len(),
{
    if s.len() == 0 {
        -1
    } else {
        let j = key_index(s.drop_last(), k);
        if j >= 0 {
            j
        } else if s.last().0@ == k {
            s.len() - 1
        } else {
            -1
        }
    }
}

/// Index of the first entry for architecture `a`, or -1.
pub open spec fn arch_index<V>(s: Seq<(Architecture, V)>, a: Architecture) -> int
    decreases s.len(),
{
    if s.len() == 0 {
        -1
    } else {
        let j = arch_index(s.drop_last(), a);
        if j >= 0 {
            j
        } else if s.last().0 == a {
            s.len() - 1
        } else {
            -1
        }
    }
}

pub proof fn lemma_key_index<V>(s: Seq<(String, V)>, k: Seq<char>)
    ensures
        -1 <= key_index(s, k) < s.len(),
        key_index(s, k) >= 0 ==> s[key_index(s, k)].0@ == k,
        key_index(s, k) >= 0 ==> forall|j: int| 0 <= j < key_index(s, k) ==> s[j].0@ != k,
        key_index(s, k) < 0 ==> forall|j: int| 0 <= j < s.len() ==> s[j].0@ != k,
    decreases s.len(),
{
    if s.len() > 0 {
        lemma_key_index(s.drop_last(), k);
        assert forall|j: int| 0 <= j < s.len() - 1 implies s.drop_last()[j] == s[j] by {}
    }
}

/// Position of the first entry whose key is `key`.
pub fn find_key<V>(v: &Vec<(String, V)>, key: &Vec<char>) -> (r: Option<usize>)
    ensures
        r matches Some(i) ==> i == key_index(v@, key@),
        r is None ==> key_index(v@, key@) == -1,
{
    let mut i: usize = 0;
    while i < v.len()
        invariant
            i <= v.len(),
            key_index(v@.subrange(0, i as int), key@) == -1,
        decreases v.len() - i,
    {
        let k = text::chars_of(v[i].0.as_str());
        proof {
            assert(v@.subrange(0, i + 1).drop_last() =~= v@.subrange(0, i as int));
        }
        if text::chars_eq(&k, key) {
            proof {
                lemma_key_index_prefix(v@, key@, i + 1);
            }
            return Some(i);
        }
        i = i + 1;
    }
    assert(v@.subrange(0, i as int) =~= v@);
    None
}

/// Once the first match lies in a prefix, it is the first match of the whole.
pub proof fn lemma_key_index_prefix<V>(s: Seq<(String, V)>, k: Seq<char>, n: int)
    requires
        0 <= n <= s.len(),
        key_index(s.subrange(0, n), k) >= 0,
    ensures
        key_index(s, k) == key_index(s.subrange(0, n), k),
    decreases s.len() - n,
{
    if n < s.len() {
        assert(s.subrange(0, n + 1).drop_last() =~= s.subrange(0, n));
        lemma_key_index_prefix(s, k, n + 1);
    } else {
        assert(s.subrange(0, n) =~= s);
    }
}

pub proof fn lemma_arch_index<V>(s: Seq<(Architecture, V)>, a: Architecture)
    ensures
        -1 <= arch_index(s, a) < s.len(),
        arch_index(s, a) >= 0 ==> s[arch_index(s, a)].0 == a,
    decreases s.len(),
{
    if s.len() > 0 {
        lemma_arch_index(s.drop_last(), a);
    }
}

/// Position of the first entry for architecture `a`.
pub fn find_arch<V>(v: &Vec<(Architecture, V)>, a: Architecture) -> (r: Option<usize>)
    ensures
        r matches Some(i) ==> i == arch_index(v@, a),
        r is None ==> arch_index(v@, a) == -1,
{
    let mut i: usize = 0;
    while i < v.len()
        invariant
            i <= v.len(),
            arch_index(v@.subrange(0, i as int), a) == -1,
        decreases v.len() - i,
    {
        proof {
            assert(v@.subrange(0, i + 1).drop_last() =~= v@.subrange(0, i as int));
        }
        if v[i].0 == a {
            proof {
                lemma_arch_index_prefix(v@, a, i + 1);
            }
            return Some(i);
        }
        i = i + 1;
    }
    assert(v@.subrange(0, i as int) =~= v@);
    None
}

pub proof fn lemma_arch_index_prefix<V>(s: Seq<(Architecture, V)>, a: Architecture, n: int)
    requires
        0 <= n <= s.len(),
        arch_index(s.subrange(0, n), a) >= 0,
    ensures
        arch_index(s, a) == arch_index(s.subrange(0, n), a),
    decreases s.len() - n,
{
    if n < s.len() {
        assert(s.subrange(0, n + 1).drop_last() =~= s.subrange(0, n));
        lemma_arch_index_prefix(s, a, n + 1);
    } else {
        assert(s.subrange(0, n) =~= s);
    }
}

/// The keys of a keyed list, in order.
pub open spec fn key_views<V>(s: Seq<(String, V)>) -> Seq<Seq<char>> {
    s.map_values(|e: (String, V)| e.0@)
}

/// Copies the keys of a keyed list of artifact records.
pub fn record_keys(v: &Vec<(String, ArtifactRecord)>) -> (r: Vec<String>)
    ensures
        crate::resolver::views_of(r@) == key_views(v@),
{
    let mut r: Vec<String> = Vec::new();
    let mut i: usize = 0;
    while i < v.len()
        invariant
            i <= v.len(),
            crate::resolver::views_of(r@) == key_views(v@.subrange(0, i as int)),
        decreases v.len() - i,
    {
        r.push(v[i].0.clone());
        proof {
            assert(key_views(v@.subrange(0, i + 1)) =~= key_views(v@.subrange(0, i as int)).push(v@[i as int].0@));
            assert(crate::resolver::views_of(r@) =~= crate::resolver::views_of(r@.drop_last()).push(r@.last()@));
        }
        i = i + 1;
    }
    assert(v@.subrange(0, i as int) =~= v@);
    r
}

pub open spec fn name_placeholder() -> Seq<char> {
    seq!['{', 'n', 'a', 'm', 'e', '}']
}

pub open spec fn version_placeholder() -> Seq<char> {
    seq!['{', 'v', 'e', 'r', 's', 'i', 'o', 'n', '}']
}

pub open spec fn from_version_placeholder() -> Seq<char> {
    seq!['{', 'f', 'r', 'o', 'm', '_', 'v', 'e', 'r', 's', 'i', 'o', 'n', '}']
}

pub open spec fn to_version_placeholder() -> Seq<char> {
    seq!['{', 't', 'o', '_', 'v', 'e', 'r', 's', 'i', 'o', 'n', '}']
}

pub open spec fn arch_placeholder() -> Seq<char> {
    seq!['{', 'a', 'r', 'c', 'h', '}']
}

/// A package download URL: `{name}`, `{version}` and `{arch}` replaced in
/// that order.
pub open spec fn download_url(
    template: Seq<char>,
    name: Seq<char>,
    version: Seq<char>,
    arch: Architecture,
) -> Seq<char> {
    text::replace_all(
        text::replace_all(
            text::replace_all(template, name_placeholder(), name),
            version_placeholder(),
            version,
        ),
        arch_placeholder(),
        crate::utils::arch::arch_name(arch),
    )
}

/// A delta download URL: `{name}`, `{from_version}`, `{to_version}` and
/// `{arch}` replaced in that order.
pub open spec fn delta_download_url(
    template: Seq<char>,
    name: Seq<char>,
    from_version: Seq<char>,
    to_version: Seq<char>,
    arch: Architecture,
) -> Seq<char> {
    text::replace_all(
        text::replace_all(
            text::replace_all(
                text::replace_all(template, name_placeholder(), name),
                from_version_placeholder(),
                from_version,
            ),
            to_version_placeholder(),
            to_version,
        ),
        arch_placeholder(),
        crate::utils::arch::arch_name(arch),
    )
}

/// Expands a package download URL template.
pub fn render_download_url(template: &str, name: &str, version: &str, arch: Architecture) -> (r:
    String)
    ensures
        r@ == download_url(template@, name@, version@, arch),
{
    let t = text::chars_of(template);
    let n = text::chars_of(name);
    let v = text::chars_of(version);
    let a = arch.name_chars();
    let p1: Vec<char> = vec!['{', 'n', 'a', 'm', 'e', '}'];
    let p2: Vec<char> = vec!['{', 'v', 'e', 'r', 's', 'i', 'o', 'n', '}'];
    let p3: Vec<char> = vec!['{', 'a', 'r', 'c', 'h', '}'];
    let s1 = text::replace_exec(&t, &p1, &n);
    let s2 = text::replace_exec(&s1, &p2, &v);
    let s3 = text::replace_exec(&s2, &p3, &a);
    text::string_of(&s3)
}

/// Expands a delta download URL template.
pub fn render_delta_download_url(
    template: &str,
    name: &str,
    from_version: &str,
    to_version: &str,
    arch: Architecture,
) -> (r: String)
    ensures
        r@ == delta_download_url(template@, name@, from_version@, to_version@, arch),
{
    let t = text::chars_of(template);
    let n = text::chars_of(name);
    let f = text::chars_of(from_version);
    let to = text::chars_of(to_version);
    let a = arch.name_chars();
    let p1: Vec<char> = vec!['{', 'n', 'a', 'm', 'e', '}'];
    let p2: Vec<char> = vec!['{', 'f', 'r', 'o', 'm', '_', 'v', 'e', 'r', 's', 'i', 'o', 'n', '}'];
    let p3: Vec<char> = vec!['{', 't', 'o', '_', 'v', 'e', 'r', 's', 'i', 'o', 'n', '}'];
    let p4: Vec<char> = vec!['{', 'a', 'r', 'c', 'h', '}'];
    let s1 = text::replace_exec(&t, &p1, &n);
    let s2 = text::replace_exec(&s1, &p2, &f);
    let s3 = text::replace_exec(&s2, &p3, &to);
    let s4 = text::replace_exec(&s3, &p4, &a);
    text::string_of(&s4)
}


/// `file://`.
pub open spec fn file_scheme() -> Seq<char> {
    seq!['f', 'i', 'l', 'e', ':', '/', '/']
}

/// The local path a repository URL names: the text after `file://`, or
/// the URL itself.
pub open spec fn probe_path_of(raw: Seq<char>) -> Seq<char> {
    if text::has_prefix(raw, file_scheme()) {
        raw.skip(7)
    } else {
        raw
    }
}

/// The local path whose being a directory `normalize_repo_url` needs to
/// know.
pub fn repo_url_probe_path(raw: &str) -> (r: String)
    ensures
        r@ == probe_path_of(raw@),
{
    let v = text::chars_of(raw);
    let scheme: Vec<char> = vec!['f', 'i', 'l', 'e', ':', '/', '/'];
    if text::starts_with_exec(&v, &scheme) {
        text::string_from(&v, 7, v.len())
    } else {
        text::string_of(&v)
    }
}

/// Where a repository's index is fetched from, given whether the local
/// path the URL names (see `probe_path_of`) is a directory: URLs ending in
/// `parcel-index.db` as they are; GitHub URLs get the release asset path;
/// a local directory (with or without `file://`) gets `parcel-index.db`
/// joined to it; a URL ending in `/` gets `parcel-index.db` appended.
pub open spec fn repo_url_of(raw: Seq<char>, is_dir: bool) -> Seq<char> {
    let index = crate::repositories::index_file_name();
    if text::has_suffix(raw, index) {
        raw
    } else if text::contains_seq(raw, crate::repositories::github_marker()) {
        text::trim_end_char(raw, '/') + crate::repositories::github_index_suffix()
    } else if text::has_prefix(raw, file_scheme()) {
        if is_dir {
            file_scheme() + crate::fspath::path_join(raw.skip(7), index)
        } else {
            raw
        }
    } else if is_dir {
        crate::fspath::path_join(raw, index)
    } else if raw.len() > 0 && raw.last() == '/' {
        raw + index
    } else {
        raw
    }
}

proof fn lemma_suffix_after(a: Seq<char>, b: Seq<char>)
    ensures
        text::has_suffix(a + b, b),
{
    let ab = a + b;
    assert(ab.subrange(ab.len() - b.len(), ab.len() as int) =~= b);
}

proof fn lemma_join_index_suffix(base: Seq<char>)
    ensures
        text::has_suffix(crate::fspath::path_join(base, crate::repositories::index_file_name()), crate::repositories::index_file_name()),
{
    let index = crate::repositories::index_file_name();
    if base.len() > 0 && base.last() != '/' {
        assert(base + seq!['/'] + index == (base + seq!['/']) + index);
        lemma_suffix_after(base + seq!['/'], index);
    } else {
        lemma_suffix_after(base, index);
    }
}

/// Normalizing a repository URL a second time changes nothing, when the
/// local directory test gives the same answer for the same path (the
/// filesystem does not change between the two calls).
pub proof fn law_repo_url_idempotent(raw: Seq<char>, is_dir: bool, is_dir_again: bool)
    requires
        probe_path_of(repo_url_of(raw, is_dir)) == probe_path_of(raw) ==> is_dir_again == is_dir,
    ensures
        repo_url_of(repo_url_of(raw, is_dir), is_dir_again) == repo_url_of(raw, is_dir),
{
    let index = crate::repositories::index_file_name();
    let u = repo_url_of(raw, is_dir);
    if text::has_suffix(raw, index) {
    } else if text::contains_seq(raw, crate::repositories::github_marker()) {
        let g = crate::repositories::github_index_suffix();
        assert(g == g.subrange(0, g.len() - 15) + index) by {
            assert(g.subrange(0, g.len() - 15) + index =~= g);
        }
        lemma_suffix_after(text::trim_end_char(raw, '/') + g.subrange(0, g.len() - 15), index);
        assert(text::trim_end_char(raw, '/') + g == (text::trim_end_char(raw, '/') + g.subrange(0, g.len() - 15)) + index);
    } else if text::has_prefix(raw, file_scheme()) {
        if is_dir {
            lemma_join_index_suffix(raw.skip(7));
            lemma_suffix_after(file_scheme(), crate::fspath::path_join(raw.skip(7), index));
            let pj = crate::fspath::path_join(raw.skip(7), index);
            assert(text::has_suffix(file_scheme() + pj, index)) by {
                let w = file_scheme() + pj;
                assert(w.subrange(w.len() - index.len(), w.len() as int) =~= pj.subrange(pj.len() - index.len(), pj.len() as int));
            }
        }
    } else if is_dir {
        lemma_join_index_suffix(raw);
    } else if raw.len() > 0 && raw.last() == '/' {
        lemma_suffix_after(raw, index);
    }
}

/// Works out where a repository's index is fetched from. `is_dir` tells
/// whether `repo_url_probe_path(raw)` is a directory.
pub fn normalize_repo_url(raw: &str, is_dir: bool) -> (r: String)
    ensures
        r@ == repo_url_of(raw@, is_dir),
{
    let v = text::chars_of(raw);
    let index: Vec<char> = vec!['p', 'a', 'r', 'c', 'e', 'l', '-', 'i', 'n', 'd', 'e', 'x', '.', 'd', 'b'];
    let github: Vec<char> = vec!['g', 'i', 't', 'h', 'u', 'b', '.', 'c', 'o', 'm', '/'];
    let scheme: Vec<char> = vec!['f', 'i', 'l', 'e', ':', '/', '/'];
    if text::ends_with_exec(&v, &index) {
        return text::string_of(&v);
    }
    if text::contains_exec(&v, &github) {
        let mut r = text::string_of(&text::trim_end_chars(&v, '/'));
        let mut suffix: Vec<char> = vec![
            '/', 'r', 'e', 'l', 'e', 'a', 's', 'e', 's', '/', 'd', 'o', 'w', 'n', 'l', 'o', 'a', 'd',
            '/', 'p', 'a', 'r', 'c', 'e', 'l', '-', 'i', 'n', 'd', 'e', 'x', '/',
        ];
        let mut tail = text::copy_chars(&index);
        suffix.append(&mut tail);
        text::push_chars(&mut r, &suffix);
        return r;
    }
    if text::starts_with_exec(&v, &scheme) {
        if is_dir {
            let path = text::copy_range(&v, 7, v.len());
            let joined = crate::fspath::join_chars(&path, &index);
            let mut r = text::string_of(&scheme);
            text::push_chars(&mut r, &joined);
            return r;
        }
        return text::string_of(&v);
    }
    if is_dir {
        return text::string_of(&crate::fspath::join_chars(&v, &index));
    }
    if v.len() > 0 && v[v.len() - 1] == '/' {
        let mut r = text::string_of(&v);
        text::push_chars(&mut r, &index);
        return r;
    }
    text::string_of(&v)
}

/// A config value: surrounding whitespace, then surrounding quotes, removed.
pub open spec fn trim_quoted_of(v: Seq<char>) -> Seq<char> {
    text::trim_char(text::trim_ws(v), '"')
}

/// Removes surrounding whitespace, then surrounding quotes.
pub fn trim_quoted(input: &str) -> (r: String)
    ensures
        r@ == trim_quoted_of(input@),
{
    let v = text::chars_of(input);
    let t = text::trim_ws_range(&v, 0, v.len());
    assert(v@.subrange(0, v@.len() as int) =~= v@);
    let q = text::trim_char_range(&t, 0, t.len(), '"');
    assert(t@.subrange(0, t@.len() as int) =~= t@);
    text::string_of(&q)
}

/// A line without the `\r` of a `\r\n` ending.
pub open spec fn strip_cr(l: Seq<char>) -> Seq<char> {
    if l.len() > 0 && l.last() == '\r' {
        l.drop_last()
    } else {
        l
    }
}

/// The lines of a text, as `str::lines` yields them: split at `\n`, a
/// `\r` before the `\n` removed, no line after a final `\n`.
pub open spec fn text_lines(s: Seq<char>) -> Seq<Seq<char>> {
    let pieces = text::split_on(s, '\n');
    let n = pieces.len();
    let ended = pieces.subrange(0, n - 1).map_values(|l: Seq<char>| strip_cr(l));
    if s.len() == 0 {
        Seq::empty()
    } else if s.last() == '\n' {
        ended
    } else {
        ended.push(pieces[n - 1])
    }
}

pub open spec fn name_key() -> Seq<char> {
    seq!['n', 'a', 'm', 'e', ' ', '=', ' ']
}

pub open spec fn url_key() -> Seq<char> {
    seq!['u', 'r', 'l', ' ', '=', ' ']
}

/// The `name` and `url` values the lines of a repository config set; a
/// later line wins. Blank lines and `#` comments are skipped.
pub open spec fn config_fields(lines: Seq<Seq<char>>) -> (Option<Seq<char>>, Option<Seq<char>>)
    decreases lines.len(),
{
    if lines.len() == 0 {
        (None, None)
    } else {
        let (n, u) = config_fields(lines.drop_last());
        let line = text::trim_ws(lines.last());
        if line.len() == 0 || line[0] == '#' {
            (n, u)
        } else if text::has_prefix(line, name_key()) {
            (Some(trim_quoted_of(line.skip(7))), u)
        } else if text::has_prefix(line, url_key()) {
            (n, Some(trim_quoted_of(line.skip(6))))
        } else {
            (n, u)
        }
    }
}

/// A repository config that lacks a field.
#[derive(Debug, PartialEq, Eq, Structural)]
pub enum RepoConfigError {
    MissingName,
    MissingUrl,
}

/// What `parse_repo_config` gives for a config text.
pub open spec fn parsed_config(content: Seq<char>) -> Result<(Seq<char>, Seq<char>), RepoConfigError> {
    match config_fields(text_lines(content)) {
        (None, _) => Err(RepoConfigError::MissingName),
        (Some(_), None) => Err(RepoConfigError::MissingUrl),
        (Some(n), Some(u)) => Ok((n, u)),
    }
}

/// Applies one line to the fields read so far.
fn apply_config_line(
    line: &Vec<char>,
    name: &mut Option<String>,
    url: &mut Option<String>,
)
    ensures
        ({
            let (n, u) = (
                match *old(name) { Some(x) => Some(x@), None => None },
                match *old(url) { Some(x) => Some(x@), None => None },
            );
            let t = text::trim_ws(line@);
            let (n2, u2) = if t.len() == 0 || t[0] == '#' {
                (n, u)
            } else if text::has_prefix(t, name_key()) {
                (Some(trim_quoted_of(t.skip(7))), u)
            } else if text::has_prefix(t, url_key()) {
                (n, Some(trim_quoted_of(t.skip(6))))
            } else {
                (n, u)
            };
            &&& n2 == match *final(name) { Some(x) => Some(x@), None => None }
            &&& u2 == match *final(url) { Some(x) => Some(x@), None => None }
        }),
{
    let t = text::trim_ws_range(line, 0, line.len());
    assert(line@.subrange(0, line@.len() as int) =~= line@);
    if t.len() == 0 || t[0] == '#' {
        return;
    }
    let nk: Vec<char> = vec!['n', 'a', 'm', 'e', ' ', '=', ' '];
    let uk: Vec<char> = vec!['u', 'r', 'l', ' ', '=', ' '];
    if text::starts_with_exec(&t, &nk) {
        let w = text::trim_ws_range(&t, 7, t.len());
        let q = text::trim_char_range(&w, 0, w.len(), '"');
        proof {
            assert(t@.subrange(7, t@.len() as int) =~= t@.skip(7));
            assert(w@.subrange(0, w@.len() as int) =~= w@);
        }
        *name = Some(text::string_of(&q));
    } else if text::starts_with_exec(&t, &uk) {
        let w = text::trim_ws_range(&t, 6, t.len());
        let q = text::trim_char_range(&w, 0, w.len(), '"');
        proof {
            assert(t@.subrange(6, t@.len() as int) =~= t@.skip(6));
            assert(w@.subrange(0, w@.len() as int) =~= w@);
        }
        *url = Some(text::string_of(&q));
    }
}

pub open spec fn opt_view(o: Option<String>) -> Option<Seq<char>> {
    match o {
        Some(x) => Some(x@),
        None => None,
    }
}

/// Reads a repository config: `name = "<name>"` and `url = "<url>"`
/// lines. Refuses a config without a name, then one without a URL.
pub fn parse_repo_config(content: &str) -> (r: Result<RepoConfig, RepoConfigError>)
    ensures
        match parsed_config(content@) {
            Ok((n, u)) => r matches Ok(c) && c.name@ == n && c.url@ == u,
            Err(e) => r == Err::<RepoConfig, RepoConfigError>(e),
        },
{
    let v = text::chars_of(content);
    let ghost lines = text_lines(content@);
    let mut name: Option<String> = None;
    let mut url: Option<String> = None;
    if v.len() > 0 {
        let pieces = text::split_chars(&v, '\n');
        let ghost sp = text::split_on(v@, '\n');
        proof {
            crate::fspath::lemma_split_on_nonempty(v@, '\n');
        }
        let n = pieces.len();
        let ghost ended = sp.subrange(0, n - 1).map_values(|l: Seq<char>| strip_cr(l));
        let mut i: usize = 0;
        assert(ended.subrange(0, 0) =~= Seq::<Seq<char>>::empty());
        while i + 1 < n
            invariant
                n == pieces@.len(),
                n == sp.len(),
                n >= 1,
                i + 1 <= n,
                forall|k: int| 0 <= k < n ==> #[trigger] pieces@[k]@ == sp[k],
                ended == sp.subrange(0, n - 1).map_values(|l: Seq<char>| strip_cr(l)),
                config_fields(ended.subrange(0, i as int)) == (opt_view(name), opt_view(url)),
            decreases n - i,
        {
            let piece = &pieces[i];
            let line = if piece.len() > 0 && piece[piece.len() - 1] == '\r' {
                text::copy_range(piece, 0, piece.len() - 1)
            } else {
                text::copy_chars(piece)
            };
            proof {
                assert(line@ == ended[i as int]);
                assert(ended.subrange(0, i + 1).drop_last() =~= ended.subrange(0, i as int));
            }
            apply_config_line(&line, &mut name, &mut url);
            i = i + 1;
        }
        assert(ended.subrange(0, n - 1) =~= ended);
        if v[v.len() - 1] != '\n' {
            let last = &pieces[n - 1];
            proof {
                assert(ended.push(sp[n - 1]).drop_last() =~= ended);
            }
            apply_config_line(last, &mut name, &mut url);
        }
    }
    assert(config_fields(lines) == (opt_view(name), opt_view(url)));
    match name {
        None => Err(RepoConfigError::MissingName),
        Some(n) => match url {
            None => Err(RepoConfigError::MissingUrl),
            Some(u) => Ok(RepoConfig { name: n, url: u }),
        },
    }
}

/// The text a repository config is saved as.
pub open spec fn config_text(name: Seq<char>, url: Seq<char>) -> Seq<char> {
    name_key() + seq!['"'] + name + seq!['"', '\n'] + url_key() + seq!['"'] + url + seq!['"', '\n']
}

/// The text of a repository config file.
pub fn repo_config_text(config: &RepoConfig) -> (r: String)
    ensures
        r@ == config_text(config.name@, config.url@),
{
    let mut r = String::new();
    let a: Vec<char> = vec!['n', 'a', 'm', 'e', ' ', '=', ' ', '"'];
    let b: Vec<char> = vec!['"', '\n', 'u', 'r', 'l', ' ', '=', ' ', '"'];
    let c: Vec<char> = vec!['"', '\n'];
    text::push_chars(&mut r, &a);
    text::push_str(&mut r, config.name.as_str());
    text::push_chars(&mut r, &b);
    text::push_str(&mut r, config.url.as_str());
    text::push_chars(&mut r, &c);
    assert(r@ =~= config_text(config.name@, config.url@));
    r
}

/// Splitting at a separator that ends a separator-free first piece.
proof fn lemma_split_first_piece(a: Seq<char>, b: Seq<char>, c: char)
    requires
        forall|j: int| 0 <= j < a.len() ==> a[j] != c,
    ensures
        text::split_on(a + seq![c] + b, c) == seq![a] + text::split_on(b, c),
{
    let s = a + seq![c] + b;
    text::lemma_first_index_of_at(s, c, a.len() as int);
    assert(s.subrange(0, a.len() as int) =~= a);
    assert(s.subrange(a.len() + 1int, s.len() as int) =~= b);
}

/// A quoted value whose own text neither starts nor ends with a quote
/// loses exactly its quotes.
proof fn lemma_unquote(v: Seq<char>)
    requires
        v.len() > 0 ==> v[0] != '"' && v.last() != '"',
    ensures
        trim_quoted_of(seq!['"'] + v + seq!['"']) == v,
{
    let q = seq!['"'] + v + seq!['"'];
    let w = v + seq!['"'];
    assert(text::trim_ws(q) == q);
    assert(q.drop_first() =~= w);
    assert(text::trim_char(q, '"') == text::trim_char(w, '"'));
    if v.len() == 0 {
        assert(w.drop_first() =~= Seq::<char>::empty());
        assert(text::trim_char(w, '"') == text::trim_char(Seq::<char>::empty(), '"'));
    } else {
        assert(w[0] == v[0]);
        assert(w.drop_last() =~= v);
        assert(text::trim_char(w, '"') == text::trim_char(v, '"'));
        assert(text::trim_char(v, '"') == v);
    }
}

/// Saving a repository config and reading it back gives the same name and
/// URL, for a name and URL that hold no line break and neither start nor
/// end with a quote.
pub proof fn law_config_roundtrip(name: Seq<char>, url: Seq<char>)
    requires
        forall|j: int| 0 <= j < name.len() ==> name[j] != '\n',
        forall|j: int| 0 <= j < url.len() ==> url[j] != '\n',
        name.len() > 0 ==> name[0] != '"' && name.last() != '"',
        url.len() > 0 ==> url[0] != '"' && url.last() != '"',
    ensures
        parsed_config(config_text(name, url)) == Ok::<(Seq<char>, Seq<char>), RepoConfigError>(
            (name, url),
        ),
{
    let l1 = name_key() + seq!['"'] + name + seq!['"'];
    let l2 = url_key() + seq!['"'] + url + seq!['"'];
    let s = config_text(name, url);
    assert(s =~= l1 + seq!['\n'] + (l2 + seq!['\n'] + Seq::<char>::empty()));
    assert forall|j: int| 0 <= j < l1.len() implies l1[j] != '\n' by {
        if j >= 8 && j < 8 + name.len() {
            assert(l1[j] == name[j - 8]);
        }
    }
    assert forall|j: int| 0 <= j < l2.len() implies l2[j] != '\n' by {
        if j >= 7 && j < 7 + url.len() {
            assert(l2[j] == url[j - 7]);
        }
    }
    lemma_split_first_piece(l1, l2 + seq!['\n'] + Seq::<char>::empty(), '\n');
    lemma_split_first_piece(l2, Seq::<char>::empty(), '\n');
    text::lemma_first_index_of_none(Seq::<char>::empty(), '\n');
    let pieces = text::split_on(s, '\n');
    assert(pieces =~= seq![l1, l2, Seq::<char>::empty()]);
    assert(strip_cr(l1) == l1);
    assert(strip_cr(l2) == l2);
    let lines = text_lines(s);
    assert(lines =~= seq![l1, l2]);
    assert(text::trim_ws(l1) == l1);
    assert(text::trim_ws(l2) == l2);
    assert(l1.subrange(0, 7) =~= name_key());
    assert(l2.subrange(0, 6) =~= url_key());
    assert(l1.skip(7) =~= seq!['"'] + name + seq!['"']);
    assert(l2.skip(6) =~= seq!['"'] + url + seq!['"']);
    lemma_unquote(name);
    lemma_unquote(url);
    assert(lines.drop_last() =~= seq![l1]);
    assert(seq![l1].drop_last() =~= Seq::<Seq<char>>::empty());
    assert(!text::has_prefix(l2, name_key())) by {
        assert(l2[0] != name_key()[0]);
    }
    assert(text::has_prefix(l1, name_key()));
    assert(text::has_prefix(l2, url_key()));
    assert(config_fields(Seq::<Seq<char>>::empty()) == (None::<Seq<char>>, None::<Seq<char>>));
    assert(config_fields(seq![l1]) == (Some(name), None::<Seq<char>>));
}

/// One search result: a package's name, its latest version for the host
/// architecture (or `<unavailable>`), and the repository offering it.
pub struct SearchHit {
    pub name: String,
    pub latest: String,
    pub repo: String,
}

/// Whether a package matches a lower-cased query: the query occurs in the
/// lower-cased text `<name>\n<description>`.
pub open spec fn package_hit(query_lower: Seq<char>, name: Seq<char>, p: RepoPackage) -> bool {
    text::contains_seq(text::lowercase(name + seq!['\n'] + p.description@), query_lower)
}

/// The latest version a package offers for `arch`, or `<unavailable>`.
pub open spec fn hit_latest(p: RepoPackage, arch: Architecture) -> Seq<char> {
    let ai = arch_index(p.architectures@, arch);
    if ai < 0 {
        "<unavailable>"@
    } else {
        match crate::resolver::latest_of(key_views(p.architectures@[ai].1.versions@)) {
            Some(v) => v,
            None => "<unavailable>"@,
        }
    }
}

/// The results a list of packages of repository `repo` gives, in order.
pub open spec fn package_hits(
    packages: Seq<(String, RepoPackage)>,
    repo: Seq<char>,
    query_lower: Seq<char>,
    arch: Architecture,
) -> Seq<(Seq<char>, Seq<char>, Seq<char>)>
    decreases packages.len(),
{
    if packages.len() == 0 {
        Seq::empty()
    } else {
        let rest = package_hits(packages.drop_last(), repo, query_lower, arch);
        let (n, p) = packages.last();
        if package_hit(query_lower, n@, p) {
            rest.push((n@, hit_latest(p, arch), repo))
        } else {
            rest
        }
    }
}

/// The results of a search over the cached repositories, repository by
/// repository.
pub open spec fn search_hits(
    repos: Seq<CachedRepo>,
    query_lower: Seq<char>,
    arch: Architecture,
) -> Seq<(Seq<char>, Seq<char>, Seq<char>)>
    decreases repos.len(),
{
    if repos.len() == 0 {
        Seq::empty()
    } else {
        let r = repos.last();
        search_hits(repos.drop_last(), query_lower, arch) + package_hits(
            r.index.packages@,
            r.config.name@,
            query_lower,
            arch,
        )
    }
}

pub open spec fn hit_views(v: Seq<SearchHit>) -> Seq<(Seq<char>, Seq<char>, Seq<char>)> {
    v.map_values(|h: SearchHit| (h.name@, h.latest@, h.repo@))
}

proof fn lemma_package_hits_contains(
    packages: Seq<(String, RepoPackage)>,
    repo: Seq<char>,
    q: Seq<char>,
    arch: Architecture,
    j: int,
)
    requires
        0 <= j < packages.len(),
        package_hit(q, packages[j].0@, packages[j].1),
    ensures
        package_hits(packages, repo, q, arch).contains((packages[j].0@, hit_latest(packages[j].1, arch), repo)),
    decreases packages.len(),
{
    let x = (packages[j].0@, hit_latest(packages[j].1, arch), repo);
    let rest = package_hits(packages.drop_last(), repo, q, arch);
    let all = package_hits(packages, repo, q, arch);
    if j == packages.len() - 1 {
        assert(all == rest.push(x));
        assert(all[all.len() - 1] == x);
    } else {
        assert(packages.drop_last()[j] == packages[j]);
        lemma_package_hits_contains(packages.drop_last(), repo, q, arch, j);
        let k = choose|k: int| 0 <= k < rest.len() && rest[k] == x;
        let (n, p) = packages.last();
        if package_hit(q, n@, p) {
            assert(all == rest.push((n@, hit_latest(p, arch), repo)));
            assert(all[k] == x);
        }
    }
}

proof fn lemma_search_hits_contains(
    repos: Seq<CachedRepo>,
    q: Seq<char>,
    arch: Architecture,
    i: int,
    x: (Seq<char>, Seq<char>, Seq<char>),
)
    requires
        0 <= i < repos.len(),
        package_hits(repos[i].index.packages@, repos[i].config.name@, q, arch).contains(x),
    ensures
        search_hits(repos, q, arch).contains(x),
    decreases repos.len(),
{
    let r = repos.last();
    let front = search_hits(repos.drop_last(), q, arch);
    let back = package_hits(r.index.packages@, r.config.name@, q, arch);
    assert(search_hits(repos, q, arch) == front + back);
    if i == repos.len() - 1 {
        let k = choose|k: int| 0 <= k < back.len() && back[k] == x;
        assert((front + back)[front.len() + k] == x);
    } else {
        assert(repos.drop_last()[i] == repos[i]);
        lemma_search_hits_contains(repos.drop_last(), q, arch, i, x);
        let k = choose|k: int| 0 <= k < front.len() && front[k] == x;
        assert((front + back)[k] == x);
    }
}

/// A package whose lower-cased name contains the lower-cased query is
/// among the results, with its latest version and its repository: a
/// package is found by its own name. The law takes as given that
/// lower-casing `<name>\n<description>` begins with the lower-cased name,
/// as `str::to_lowercase` maps text character by character except for the
/// word-final sigma, whose context a line break ends.
pub proof fn law_search_finds_by_name(repos: Seq<CachedRepo>, query: Seq<char>, arch: Architecture, i: int, j: int)
    requires
        0 <= i < repos.len(),
        0 <= j < repos[i].index.packages@.len(),
        text::contains_seq(text::lowercase(repos[i].index.packages@[j].0@), text::lowercase(query)),
        text::has_prefix(
            text::lowercase(repos[i].index.packages@[j].0@ + seq!['\n'] + repos[i].index.packages@[j].1.description@),
            text::lowercase(repos[i].index.packages@[j].0@),
        ),
    ensures
        search_hits(repos, text::lowercase(query), arch).contains(
            (
                repos[i].index.packages@[j].0@,
                hit_latest(repos[i].index.packages@[j].1, arch),
                repos[i].config.name@,
            ),
        ),
{
    let (n, p) = repos[i].index.packages@[j];
    let ln = text::lowercase(n@);
    let hay = text::lowercase(n@ + seq!['\n'] + p.description@);
    let q = text::lowercase(query);
    let k = choose|k: int| text::occurs_at(ln, q, k);
    assert(hay.subrange(k, k + q.len()) =~= ln.subrange(k, k + q.len())) by {
        assert forall|m: int| 0 <= m < q.len() implies #[trigger] hay.subrange(k, k + q.len())[m] == ln.subrange(k, k + q.len())[m] by {
            assert(hay.subrange(0, ln.len() as int)[k + m] == ln[k + m]);
        }
    }
    assert(text::occurs_at(hay, q, k));
    assert(package_hit(q, n@, p));
    lemma_package_hits_contains(repos[i].index.packages@, repos[i].config.name@, q, arch, j);
    lemma_search_hits_contains(repos, q, arch, i, (n@, hit_latest(p, arch), repos[i].config.name@));
}

/// A package whose lower-cased description contains the lower-cased query
/// is among the results, with its latest version and its repository. The
/// law takes as given that lower-casing `<name>\n<description>` ends with
/// the lower-cased description, as a line break ends the context of the
/// word-final sigma rule of `str::to_lowercase`.
pub proof fn law_search_finds_by_description(
    repos: Seq<CachedRepo>,
    query: Seq<char>,
    arch: Architecture,
    i: int,
    j: int,
)
    requires
        0 <= i < repos.len(),
        0 <= j < repos[i].index.packages@.len(),
        text::contains_seq(text::lowercase(repos[i].index.packages@[j].1.description@), text::lowercase(query)),
        text::has_suffix(
            text::lowercase(repos[i].index.packages@[j].0@ + seq!['\n'] + repos[i].index.packages@[j].1.description@),
            text::lowercase(repos[i].index.packages@[j].1.description@),
        ),
    ensures
        search_hits(repos, text::lowercase(query), arch).contains(
            (
                repos[i].index.packages@[j].0@,
                hit_latest(repos[i].index.packages@[j].1, arch),
                repos[i].config.name@,
            ),
        ),
{
    let (n, p) = repos[i].index.packages@[j];
    let ld = text::lowercase(p.description@);
    let hay = text::lowercase(n@ + seq!['\n'] + p.description@);
    let q = text::lowercase(query);
    let k = choose|k: int| text::occurs_at(ld, q, k);
    let off = hay.len() - ld.len();
    assert(hay.subrange(off + k, off + k + q.len()) =~= ld.subrange(k, k + q.len())) by {
        assert forall|m: int| 0 <= m < q.len() implies #[trigger] hay.subrange(off + k, off + k + q.len())[m]
            == ld.subrange(k, k + q.len())[m] by {
            assert(hay.subrange(off, hay.len() as int)[k + m] == ld[k + m]);
        }
    }
    assert(text::occurs_at(hay, q, off + k));
    assert(package_hit(q, n@, p));
    lemma_package_hits_contains(repos[i].index.packages@, repos[i].config.name@, q, arch, j);
    lemma_search_hits_contains(repos, q, arch, i, (n@, hit_latest(p, arch), repos[i].config.name@));
}

/// The latest version of a package for `arch`, or `<unavailable>`.
fn latest_for_arch(p: &RepoPackage, arch: Architecture) -> (r: String)
    ensures
        r@ == hit_latest(*p, arch),
{
    match find_arch(&p.architectures, arch) {
        None => text::string_of(&text::chars_of("<unavailable>")),
        Some(ai) => {
            proof {
                lemma_arch_index(p.architectures@, arch);
            }
            let keys = record_keys(&p.architectures[ai].1.versions);
            match crate::resolver::latest_version(&keys) {
                Some(v) => v,
                None => {
                    proof {
                        assert(key_views(p.architectures@[ai as int].1.versions@).len() == 0);
                    }
                    text::string_of(&text::chars_of("<unavailable>"))
                },
            }
        },
    }
}

/// Searches the cached repositories for packages whose name or
/// description contains `query`, ignoring case; each result carries the
/// latest version for the host architecture `arch`.
pub fn search_packages(repos: &Vec<CachedRepo>, query: &str, arch: Architecture) -> (r: Vec<SearchHit>)
    ensures
        hit_views(r@) == search_hits(repos@, text::lowercase(query@), arch),
{
    let q = text::chars_of(text::to_lowercase(query).as_str());
    let mut hits: Vec<SearchHit> = Vec::new();
    let mut i: usize = 0;
    while i < repos.len()
        invariant
            i <= repos@.len(),
            q@ == text::lowercase(query@),
            hit_views(hits@) == search_hits(repos@.subrange(0, i as int), q@, arch),
        decreases repos@.len() - i,
    {
        let repo = &repos[i];
        let ghost start = hits@;
        let mut j: usize = 0;
        while j < repo.index.packages.len()
            invariant
                j <= repo.index.packages@.len(),
                q@ == text::lowercase(query@),
                hit_views(hits@) == hit_views(start) + package_hits(
                    repo.index.packages@.subrange(0, j as int),
                    repo.config.name@,
                    q@,
                    arch,
                ),
            decreases repo.index.packages@.len() - j,
        {
            let (name, package) = &repo.index.packages[j];
            proof {
                assert(repo.index.packages@.subrange(0, j + 1).drop_last() =~= repo.index.packages@.subrange(0, j as int));
            }
            let mut hay = String::new();
            text::push_str(&mut hay, name.as_str());
            text::push_char(&mut hay, '\n');
            text::push_str(&mut hay, package.description.as_str());
            assert(hay@ =~= name@ + seq!['\n'] + package.description@);
            let lower = text::chars_of(text::to_lowercase(hay.as_str()).as_str());
            if text::contains_exec(&lower, &q) {
                let hit = SearchHit {
                    name: name.clone(),
                    latest: latest_for_arch(package, arch),
                    repo: repo.config.name.clone(),
                };
                let ghost before = hits@;
                hits.push(hit);
                proof {
                    assert(hit_views(hits@) =~= hit_views(before).push((name@, hit_latest(*package, arch), repo.config.name@)));
                }
            }
            j = j + 1;
        }
        proof {
            assert(repo.index.packages@.subrange(0, j as int) =~= repo.index.packages@);
            assert(repos@.subrange(0, i + 1).drop_last() =~= repos@.subrange(0, i as int));
        }
        i = i + 1;
    }
    assert(repos@.subrange(0, i as int) =~= repos@);
    hits
}

/// The repositories whose index is cached, in configuration order: each
/// configuration paired with its index, those without one left out.
pub open spec fn cached_repos_of(configs: Seq<RepoConfig>, indexes: Seq<Option<RepoIndex>>) -> Seq<CachedRepo>
    decreases configs.len(),
{
    if configs.len() == 0 || indexes.len() == 0 {
        Seq::empty()
    } else {
        let rest = cached_repos_of(configs.drop_last(), indexes.drop_last());
        match indexes.last() {
            Some(index) => rest.push(CachedRepo { config: configs.last(), index }),
            None => rest,
        }
    }
}

/// Pairs each repository configuration with its cached index; `indexes[i]`
/// is the index read for `configs[i]`, `None` when it has not been
/// downloaded.
pub fn load_cached_repos(configs: Vec<RepoConfig>, indexes: Vec<Option<RepoIndex>>) -> (r: Vec<CachedRepo>)
    requires
        configs@.len() == indexes@.len(),
    ensures
        r@ == cached_repos_of(configs@, indexes@),
{
    let ghost all_c = configs@;
    let ghost all_i = indexes@;
    let mut configs = configs;
    let mut indexes = indexes;
    let mut r: Vec<CachedRepo> = Vec::new();
    let mut taken: usize = 0;
    let total = configs.len();
    while configs.len() > 0
        invariant
            total == all_c.len(),
            configs@.len() == indexes@.len(),
            all_c.len() == all_i.len(),
            taken + configs@.len() == all_c.len(),
            configs@ == all_c.skip(taken as int),
            indexes@ == all_i.skip(taken as int),
            r@ == cached_repos_of(all_c.take(taken as int), all_i.take(taken as int)),
        decreases configs@.len(),
    {
        let config = configs.remove(0);
        let index = indexes.remove(0);
        proof {
            assert(all_c.take(taken + 1).drop_last() =~= all_c.take(taken as int));
            assert(all_i.take(taken + 1).drop_last() =~= all_i.take(taken as int));
            assert(all_c.take(taken + 1).last() == config);
            assert(all_i.take(taken + 1).last() == index);
            assert(configs@ =~= all_c.skip(taken + 1));
            assert(indexes@ =~= all_i.skip(taken + 1));
        }
        match index {
            Some(index) => {
                r.push(CachedRepo { config, index });
            },
            None => {},
        }
        taken = taken + 1;
    }
    assert(all_c.take(taken as int) =~= all_c);
    assert(all_i.take(taken as int) =~= all_i);
    r
}

/// The data an architecture list holds for `a`, if any.
pub open spec fn arch_entry(s: Seq<(Architecture, RepoArchitecture)>, a: Architecture) -> Option<RepoArchitecture> {
    let k = arch_index(s, a);
    if k < 0 {
        None
    } else {
        Some(s[k].1)
    }
}

/// Each architecture occurs at most once.
pub open spec fn arches_unique(s: Seq<(Architecture, RepoArchitecture)>) -> bool {
    forall|i: int, j: int| 0 <= i < j < s.len() ==> s[i].0 != s[j].0
}

/// Versions and deltas keyed by distinct keys in ascending order.
pub open spec fn data_wf(d: RepoArchitecture) -> bool {
    crate::keyed::sorted_keys(d.versions@) && crate::keyed::sorted_keys(d.deltas@)
}

/// Every architecture's data is well formed.
pub open spec fn arches_wf(s: Seq<(Architecture, RepoArchitecture)>) -> bool {
    forall|i: int| #![trigger s[i]] 0 <= i < s.len() ==> data_wf(s[i].1)
}

/// A package entry as the index file holds it: each architecture once,
/// versions and deltas keyed by distinct keys in ascending order.
pub open spec fn package_wf(p: RepoPackage) -> bool {
    arches_unique(p.architectures@) && arches_wf(p.architectures@)
}

/// An index's packages as the index file holds them: distinct names in
/// ascending order, each entry well formed.
pub open spec fn index_wf(s: Seq<(String, RepoPackage)>) -> bool {
    &&& crate::keyed::sorted_keys(s)
    &&& forall|k: Seq<char>| #[trigger] crate::keyed::as_map(s).contains_key(k) ==> package_wf(crate::keyed::as_map(s)[k])
}

/// The package entry for `name`, if any.
pub open spec fn package_entry(s: Seq<(String, RepoPackage)>, name: Seq<char>) -> Option<RepoPackage> {
    if crate::keyed::as_map(s).contains_key(name) {
        Some(crate::keyed::as_map(s)[name])
    } else {
        None
    }
}

/// The data a package entry holds for an architecture.
pub open spec fn package_arch(p: Option<RepoPackage>, a: Architecture) -> Option<RepoArchitecture> {
    match p {
        Some(p) => arch_entry(p.architectures@, a),
        None => None,
    }
}

/// The full packages an architecture's data offers, by version.
pub open spec fn versions_of(d: Option<RepoArchitecture>) -> Map<Seq<char>, ArtifactRecord> {
    match d {
        Some(d) => crate::keyed::as_map(d.versions@),
        None => Map::empty(),
    }
}

/// The deltas an architecture's data offers, by `from->to` key.
pub open spec fn deltas_of(d: Option<RepoArchitecture>) -> Map<Seq<char>, ArtifactRecord> {
    match d {
        Some(d) => crate::keyed::as_map(d.deltas@),
        None => Map::empty(),
    }
}

pub proof fn lemma_arch_entry_at(s: Seq<(Architecture, RepoArchitecture)>, a: Architecture, i: int)
    requires
        arches_unique(s),
        0 <= i < s.len(),
        s[i].0 == a,
    ensures
        arch_index(s, a) == i,
    decreases s.len(),
{
    if i < s.len() - 1 {
        lemma_arch_entry_at(s.drop_last(), a, i);
    } else {
        lemma_arch_absent(s.drop_last(), a);
    }
}

pub proof fn lemma_arch_absent(s: Seq<(Architecture, RepoArchitecture)>, a: Architecture)
    requires
        forall|i: int| 0 <= i < s.len() ==> s[i].0 != a,
    ensures
        arch_index(s, a) == -1,
    decreases s.len(),
{
    if s.len() > 0 {
        lemma_arch_absent(s.drop_last(), a);
    }
}

/// Lookups in a list with distinct architectures.
pub proof fn lemma_arch_entry(s: Seq<(Architecture, RepoArchitecture)>, a: Architecture)
    requires
        arches_unique(s),
    ensures
        arch_entry(s, a) is None <==> forall|i: int| 0 <= i < s.len() ==> s[i].0 != a,
        forall|i: int| 0 <= i < s.len() && s[i].0 == a ==> arch_entry(s, a) == Some(s[i].1),
{
    lemma_arch_index(s, a);
    if arch_index(s, a) < 0 {
        if exists|i: int| 0 <= i < s.len() && s[i].0 == a {
            let i = choose|i: int| 0 <= i < s.len() && s[i].0 == a;
            lemma_arch_entry_at(s, a, i);
        }
    }
    assert forall|i: int| 0 <= i < s.len() && s[i].0 == a implies arch_entry(s, a) == Some(s[i].1) by {
        lemma_arch_entry_at(s, a, i);
    }
}

/// Takes the data for `a` out of an architecture list; empty data when it
/// has none.
fn take_arch(arches: &mut Vec<(Architecture, RepoArchitecture)>, a: Architecture) -> (r: RepoArchitecture)
    requires
        arches_unique(old(arches)@),
        arches_wf(old(arches)@),
    ensures
        arches_unique(final(arches)@),
        arches_wf(final(arches)@),
        arch_entry(final(arches)@, a) is None,
        forall|b: Architecture| b != a ==> arch_entry(final(arches)@, b) == arch_entry(old(arches)@, b),
        versions_of(Some(r)) == versions_of(arch_entry(old(arches)@, a)),
        deltas_of(Some(r)) == deltas_of(arch_entry(old(arches)@, a)),
        data_wf(r),
{
    let ghost s = arches@;
    proof {
        lemma_arch_entry(s, a);
    }
    match find_arch(arches, a) {
        Some(k) => {
            proof {
                lemma_arch_index(s, a);
            }
            let (_, d) = arches.remove(k);
            proof {
                let t = arches@;
                assert forall|i: int| 0 <= i < t.len() implies t[i] == s[if i < k { i } else { i + 1 }] by {}
                assert forall|i: int, j: int| 0 <= i < j < t.len() implies t[i].0 != t[j].0 by {
                    assert(t[i] == s[if i < k { i } else { i + 1 }]);
                    assert(t[j] == s[if j < k { j } else { j + 1 }]);
                }
                assert(data_wf(s[k as int].1));
                assert forall|i: int| #![trigger t[i]] 0 <= i < t.len() implies data_wf(t[i].1) by {
                    let j = if i < k { i } else { i + 1 };
                    assert(t[i] == s[j]);
                }
                lemma_arch_entry(t, a);
                assert forall|i: int| 0 <= i < t.len() implies t[i].0 != a by {
                    assert(t[i] == s[if i < k { i } else { i + 1 }]);
                }
                assert forall|b: Architecture| b != a implies arch_entry(t, b) == arch_entry(s, b) by {
                    lemma_arch_entry(t, b);
                    lemma_arch_entry(s, b);
                    if exists|i: int| 0 <= i < s.len() && s[i].0 == b {
                        let i = choose|i: int| 0 <= i < s.len() && s[i].0 == b;
                        assert(i != k);
                        let i2 = if i < k { i } else { i - 1 };
                        assert(t[i2] == s[i]);
                    } else {
                        assert forall|i: int| 0 <= i < t.len() implies t[i].0 != b by {
                            assert(t[i] == s[if i < k { i } else { i + 1 }]);
                        }
                    }
                }
            }
            d
        },
        None => {
            let d = RepoArchitecture { versions: Vec::new(), deltas: Vec::new() };
            proof {
                assert(versions_of(Some(d)) =~= Map::<Seq<char>, ArtifactRecord>::empty());
                assert(deltas_of(Some(d)) =~= Map::<Seq<char>, ArtifactRecord>::empty());
            }
            d
        },
    }
}

/// Puts data for an architecture the list does not hold yet.
fn put_arch(arches: &mut Vec<(Architecture, RepoArchitecture)>, a: Architecture, d: RepoArchitecture)
    requires
        arches_unique(old(arches)@),
        arch_entry(old(arches)@, a) is None,
        arches_wf(old(arches)@),
        data_wf(d),
    ensures
        arches_unique(final(arches)@),
        arches_wf(final(arches)@),
        arch_entry(final(arches)@, a) == Some(d),
        forall|b: Architecture| b != a ==> arch_entry(final(arches)@, b) == arch_entry(old(arches)@, b),
{
    let ghost s = arches@;
    proof {
        lemma_arch_entry(s, a);
    }
    arches.push((a, d));
    proof {
        let t = arches@;
        assert forall|i: int, j: int| 0 <= i < j < t.len() implies t[i].0 != t[j].0 by {
            if j == t.len() - 1 {
                assert(t[i] == s[i]);
            } else {
                assert(t[i] == s[i] && t[j] == s[j]);
            }
        }
        assert forall|i: int| #![trigger t[i]] 0 <= i < t.len() implies data_wf(t[i].1) by {
            if i < s.len() {
                assert(t[i] == s[i]);
            }
        }
        lemma_arch_entry(t, a);
        assert(t[t.len() - 1].0 == a);
        assert forall|b: Architecture| b != a implies arch_entry(t, b) == arch_entry(s, b) by {
            lemma_arch_entry(t, b);
            lemma_arch_entry(s, b);
            if exists|i: int| 0 <= i < s.len() && s[i].0 == b {
                let i = choose|i: int| 0 <= i < s.len() && s[i].0 == b;
                assert(t[i] == s[i]);
            } else {
                assert forall|i: int| 0 <= i < t.len() implies t[i].0 != b by {
                    if i < s.len() {
                        assert(t[i] == s[i]);
                    }
                }
            }
        }
    }
}

/// The key a delta is listed under: `<from>-><to>`.
pub open spec fn delta_key_of(from_version: Seq<char>, to_version: Seq<char>) -> Seq<char> {
    from_version + "->"@ + to_version
}

/// Whether an index's packages changed from `old` to `new` by recording an
/// artifact of package `name` for architecture `a` under `key`: the entry
/// takes the given description and homepage; its data for `a` offers the
/// artifact under `key` among its full packages (`delta` false) or its
/// deltas (`delta` true); all else stays.
pub open spec fn artifact_recorded(
    old: Seq<(String, RepoPackage)>,
    new: Seq<(String, RepoPackage)>,
    name: Seq<char>,
    description: Seq<char>,
    homepage: Option<Seq<char>>,
    a: Architecture,
    key: Seq<char>,
    record: ArtifactRecord,
    delta: bool,
) -> bool {
    let before = package_arch(package_entry(old, name), a);
    let after = package_arch(package_entry(new, name), a);
    &&& forall|n: Seq<char>| n != name ==> #[trigger] package_entry(new, n) == package_entry(old, n)
    &&& package_entry(new, name) matches Some(p) && p.description@ == description && opt_view(p.homepage)
        == homepage
    &&& forall|b: Architecture| b != a ==> #[trigger] package_arch(package_entry(new, name), b) == package_arch(
        package_entry(old, name),
        b,
    )
    &&& after is Some
    &&& if delta {
        &&& deltas_of(after) == deltas_of(before).insert(key, record)
        &&& versions_of(after) == versions_of(before)
    } else {
        &&& versions_of(after) == versions_of(before).insert(key, record)
        &&& deltas_of(after) == deltas_of(before)
    }
}

fn copy_option(o: &Option<String>) -> (r: Option<String>)
    ensures
        opt_view(r) == opt_view(*o),
{
    match o {
        Some(s) => Some(s.clone()),
        None => None,
    }
}

/// Records an artifact of a package in an index's packages.
fn record_artifact(
    packages: &mut Vec<(String, RepoPackage)>,
    manifest: &crate::parcel_manifest::PackageManifest,
    key: String,
    record: ArtifactRecord,
    delta: bool,
)
    requires
        index_wf(old(packages)@),
    ensures
        index_wf(final(packages)@),
        artifact_recorded(
            old(packages)@,
            final(packages)@,
            manifest.name@,
            manifest.description@,
            opt_view(manifest.homepage),
            manifest.arch,
            key@,
            record,
            delta,
        ),
{
    let ghost s = packages@;
    let ghost key_v = key@;
    let ghost rec = record;
    let taken = crate::keyed::keyed_remove(packages, manifest.name.as_str());
    let mut package = match taken {
        Some(p) => p,
        None => RepoPackage { description: String::new(), homepage: None, architectures: Vec::new() },
    };
    proof {
        if package_entry(s, manifest.name@) is None {
            assert(arch_entry(package.architectures@, manifest.arch) is None) by {
                lemma_arch_absent(package.architectures@, manifest.arch);
            }
            assert forall|b: Architecture| #[trigger] arch_entry(package.architectures@, b) is None by {
                lemma_arch_absent(package.architectures@, b);
            }
        }
        assert(package_wf(package));
    }
    let ghost old_arches = package.architectures@;
    package.description = manifest.description.clone();
    package.homepage = copy_option(&manifest.homepage);
    let mut data = take_arch(&mut package.architectures, manifest.arch);
    if delta {
        let _ = crate::keyed::keyed_insert(&mut data.deltas, key, record);
    } else {
        let _ = crate::keyed::keyed_insert(&mut data.versions, key, record);
    }
    put_arch(&mut package.architectures, manifest.arch, data);
    let ghost p = package;
    let _ = crate::keyed::keyed_insert(packages, manifest.name.clone(), package);
    proof {
        let t = packages@;
        assert(crate::keyed::as_map(t) == crate::keyed::as_map(s).remove(manifest.name@).insert(manifest.name@, p));
        assert forall|k: Seq<char>| #[trigger] crate::keyed::as_map(t).contains_key(k) implies package_wf(
            crate::keyed::as_map(t)[k],
        ) by {
            if k != manifest.name@ {
                assert(crate::keyed::as_map(s).contains_key(k));
            }
        }
        assert forall|n: Seq<char>| n != manifest.name@ implies #[trigger] package_entry(t, n) == package_entry(s, n) by {}
        assert(package_entry(t, manifest.name@) == Some(p));
        if package_entry(s, manifest.name@) is Some {
            assert(package_entry(s, manifest.name@) == Some(crate::keyed::as_map(s)[manifest.name@]));
        } else {
            assert forall|b: Architecture| #[trigger] package_arch(package_entry(s, manifest.name@), b) is None by {}
        }
        assert forall|b: Architecture| b != manifest.arch implies #[trigger] package_arch(package_entry(t, manifest.name@), b)
            == package_arch(package_entry(s, manifest.name@), b) by {
            assert(arch_entry(p.architectures@, b) == arch_entry(old_arches, b));
        }
        if delta {
            assert(deltas_of(Some(data)) == deltas_of(arch_entry(old_arches, manifest.arch)).insert(key_v, rec));
        }
    }
}

/// `/{name}-{version}-{arch}.parcel`.
pub open spec fn package_template_tail() -> Seq<char> {
    "/{name}-{version}-{arch}.parcel"@
}

/// `/{name}-{from_version}-{to_version}-{arch}.delta.parcel`.
pub open spec fn delta_template_tail() -> Seq<char> {
    "/{name}-{from_version}-{to_version}-{arch}.delta.parcel"@
}

/// A new, empty index for artifacts served under `base_url`: schema
/// `parcel.v1`, download templates below the URL without its trailing
/// slashes.
pub fn new_repo_index(base_url: &str, generated_at: String) -> (r: RepoIndex)
    ensures
        r.schema@ == "parcel.v1"@,
        r.generated_at == generated_at,
        r.download_template@ == text::trim_end_char(base_url@, '/') + package_template_tail(),
        r.delta_download_template matches Some(t) && t@ == text::trim_end_char(base_url@, '/')
            + delta_template_tail(),
        r.packages@.len() == 0,
        index_wf(r.packages@),
{
    let base = text::string_of(&text::trim_end_chars(&text::chars_of(base_url), '/'));
    let packages: Vec<(String, RepoPackage)> = Vec::new();
    proof {
        assert(crate::keyed::as_map(packages@) =~= Map::<Seq<char>, RepoPackage>::empty());
    }
    RepoIndex {
        schema: text::string_of(&text::chars_of("parcel.v1")),
        generated_at,
        download_template: fspath::concat(base.as_str(), "/{name}-{version}-{arch}.parcel"),
        delta_download_template: Some(
            fspath::concat(base.as_str(), "/{name}-{from_version}-{to_version}-{arch}.delta.parcel"),
        ),
        packages,
    }
}

/// Records a full package archive in an index: the package's entry
/// (created when new) takes the manifest's description and homepage, and
/// offers the archive under its version for its architecture.
pub fn add_package_artifact(
    index: &mut RepoIndex,
    manifest: &crate::parcel_manifest::PackageManifest,
    record: ArtifactRecord,
)
    requires
        index_wf(old(index).packages@),
    ensures
        index_wf(final(index).packages@),
        final(index).schema == old(index).schema,
        final(index).generated_at == old(index).generated_at,
        final(index).download_template == old(index).download_template,
        final(index).delta_download_template == old(index).delta_download_template,
        artifact_recorded(
            old(index).packages@,
            final(index).packages@,
            manifest.name@,
            manifest.description@,
            opt_view(manifest.homepage),
            manifest.arch,
            manifest.version@,
            record,
            false,
        ),
{
    let key = manifest.version.clone();
    record_artifact(&mut index.packages, manifest, key, record, false);
}

/// Records a delta archive in an index under `<from>-><to>`: the target
/// package's entry (created when new) takes its manifest's description
/// and homepage, and offers the delta for its architecture.
pub fn add_delta_artifact(
    index: &mut RepoIndex,
    delta: &crate::delta::DeltaManifest,
    manifest: &crate::parcel_manifest::PackageManifest,
    record: ArtifactRecord,
)
    requires
        index_wf(old(index).packages@),
    ensures
        index_wf(final(index).packages@),
        final(index).schema == old(index).schema,
        final(index).generated_at == old(index).generated_at,
        final(index).download_template == old(index).download_template,
        final(index).delta_download_template == old(index).delta_download_template,
        artifact_recorded(
            old(index).packages@,
            final(index).packages@,
            manifest.name@,
            manifest.description@,
            opt_view(manifest.homepage),
            manifest.arch,
            delta_key_of(delta.from_version@, delta.to_version@),
            record,
            true,
        ),
{
    let mut key = delta.from_version.clone();
    text::push_str(&mut key, "->");
    text::push_str(&mut key, delta.to_version.as_str());
    assert(key@ =~= delta_key_of(delta.from_version@, delta.to_version@));
    record_artifact(&mut index.packages, manifest, key, record, true);
}

/// No `{` in a text.
pub open spec fn no_brace(s: Seq<char>) -> bool {
    forall|i: int| 0 <= i < s.len() ==> s[i] != '{'
}

/// `.parcel`.
pub open spec fn parcel_ext() -> Seq<char> {
    seq!['.', 'p', 'a', 'r', 'c', 'e', 'l']
}

proof fn lemma_brace_free_concat(a: Seq<char>, b: Seq<char>)
    requires
        no_brace(a),
        no_brace(b),
    ensures
        no_brace(a + b),
{
    assert forall|i: int| 0 <= i < (a + b).len() implies (a + b)[i] != '{' by {
        if i >= a.len() {
            assert((a + b)[i] == b[i - a.len()]);
        }
    }
}

proof fn lemma_arch_name_brace_free(a: Architecture)
    ensures
        no_brace(crate::utils::arch::arch_name(a)),
{
}

/// `{name}` replaced in `x{name}-{version}-{arch}.parcel`.
proof fn lemma_fill_name(x: Seq<char>, name: Seq<char>)
    requires
        no_brace(x),
    ensures
        text::replace_all(
            x + (name_placeholder() + (seq!['-'] + (version_placeholder() + (seq!['-'] + (arch_placeholder()
                + parcel_ext()))))),
            name_placeholder(),
            name,
        ) == x + name + (seq!['-'] + (version_placeholder() + (seq!['-'] + (arch_placeholder() + parcel_ext())))),
{
    let np = name_placeholder();
    let vp = version_placeholder();
    let ap = arch_placeholder();
    let dash = seq!['-'];
    text::lemma_replace_skips(x, np + (dash + (vp + (dash + (ap + parcel_ext())))), np, name);
    text::lemma_replace_hit(dash + (vp + (dash + (ap + parcel_ext()))), np, name);
    text::lemma_replace_skips(dash, vp + (dash + (ap + parcel_ext())), np, name);
    assert(vp + (dash + (ap + parcel_ext())) =~= (vp + dash) + (ap + parcel_ext()));
    assert(!text::has_prefix((vp + dash) + (ap + parcel_ext()), np)) by {
        assert(((vp + dash) + (ap + parcel_ext())).subrange(0, 6)[1] != np[1]);
    }
    text::lemma_replace_mismatch(vp + dash, ap + parcel_ext(), np, name);
    assert(!text::has_prefix((ap + parcel_ext()) + Seq::<char>::empty(), np)) by {
        assert(((ap + parcel_ext()) + Seq::<char>::empty()).subrange(0, 6)[1] != np[1]);
    }
    assert(ap + parcel_ext() =~= (ap + parcel_ext()) + Seq::<char>::empty());
    text::lemma_replace_mismatch(ap + parcel_ext(), Seq::<char>::empty(), np, name);
    assert(x + name + (dash + (vp + (dash + (ap + parcel_ext())))) =~= x + (name + (dash + (vp + (dash + (ap
        + parcel_ext()))))));
}

/// `{version}` replaced in `x{version}-{arch}.parcel`.
proof fn lemma_fill_version(x: Seq<char>, version: Seq<char>)
    requires
        no_brace(x),
    ensures
        text::replace_all(
            x + (version_placeholder() + (seq!['-'] + (arch_placeholder() + parcel_ext()))),
            version_placeholder(),
            version,
        ) == x + version + (seq!['-'] + (arch_placeholder() + parcel_ext())),
{
    let vp = version_placeholder();
    let ap = arch_placeholder();
    let dash = seq!['-'];
    text::lemma_replace_skips(x, vp + (dash + (ap + parcel_ext())), vp, version);
    text::lemma_replace_hit(dash + (ap + parcel_ext()), vp, version);
    text::lemma_replace_skips(dash, ap + parcel_ext(), vp, version);
    assert(!text::has_prefix((ap + parcel_ext()) + Seq::<char>::empty(), vp)) by {
        assert(((ap + parcel_ext()) + Seq::<char>::empty()).subrange(0, 9)[1] != vp[1]);
    }
    assert(ap + parcel_ext() =~= (ap + parcel_ext()) + Seq::<char>::empty());
    text::lemma_replace_mismatch(ap + parcel_ext(), Seq::<char>::empty(), vp, version);
    assert(x + version + (dash + (ap + parcel_ext())) =~= x + (version + (dash + (ap + parcel_ext()))));
}

/// `{arch}` replaced in `x{arch}<ext>` when `ext` holds no `{`.
proof fn lemma_fill_arch(x: Seq<char>, arch: Seq<char>, ext: Seq<char>)
    requires
        no_brace(x),
        no_brace(ext),
    ensures
        text::replace_all(x + (arch_placeholder() + ext), arch_placeholder(), arch) == x + arch + ext,
{
    let ap = arch_placeholder();
    text::lemma_replace_skips(x, ap + ext, ap, arch);
    text::lemma_replace_hit(ext, ap, arch);
    text::lemma_replace_none(ext, ap, arch);
    assert(x + (arch + ext) =~= x + arch + ext);
}

/// The index `parcel repo index` makes for `base_url` offers each package
/// at `<base_url>/<package file name>`, the name `parcel build` gives the
/// archive, when neither the base URL nor the name or version holds a `{`.
pub proof fn law_index_url_is_package_file(base_url: Seq<char>, name: Seq<char>, version: Seq<char>, a: Architecture)
    requires
        no_brace(text::trim_end_char(base_url, '/')),
        no_brace(name),
        no_brace(version),
    ensures
        download_url(text::trim_end_char(base_url, '/') + package_template_tail(), name, version, a)
            == text::trim_end_char(base_url, '/') + seq!['/'] + crate::artifact::package_file_name_of(
            name,
            version,
            a,
        ),
{
    let b = text::trim_end_char(base_url, '/');
    let x = b + seq!['/'];
    let dash = seq!['-'];
    let an = crate::utils::arch::arch_name(a);
    assert(b + package_template_tail() =~= x + (name_placeholder() + (dash + (version_placeholder() + (dash + (
    arch_placeholder() + parcel_ext())))))) by {
        reveal_strlit("/{name}-{version}-{arch}.parcel");
    }
    lemma_brace_free_concat(b, seq!['/']);
    lemma_fill_name(x, name);
    lemma_brace_free_concat(x, name);
    lemma_brace_free_concat(x + name, dash);
    assert(x + name + (dash + (version_placeholder() + (dash + (arch_placeholder() + parcel_ext())))) =~= (x
        + name + dash) + (version_placeholder() + (dash + (arch_placeholder() + parcel_ext()))));
    lemma_fill_version(x + name + dash, version);
    lemma_brace_free_concat(x + name + dash, version);
    lemma_brace_free_concat(x + name + dash + version, dash);
    assert(x + name + dash + version + (dash + (arch_placeholder() + parcel_ext())) =~= (x + name + dash + version
        + dash) + (arch_placeholder() + parcel_ext()));
    lemma_arch_name_brace_free(a);
    lemma_fill_arch(x + name + dash + version + dash, an, parcel_ext());
    assert(x + name + dash + version + dash + an + parcel_ext() =~= b + seq!['/']
        + crate::artifact::package_file_name_of(name, version, a));
}

/// `.delta.parcel`.
pub open spec fn delta_ext() -> Seq<char> {
    seq!['.', 'd', 'e', 'l', 't', 'a', '.', 'p', 'a', 'r', 'c', 'e', 'l']
}

/// `{name}` replaced in `x{name}-{from_version}-{to_version}-{arch}.delta.parcel`.
proof fn lemma_fill_delta_name(x: Seq<char>, name: Seq<char>)
    requires
        no_brace(x),
    ensures
        text::replace_all(
            x + (name_placeholder() + (seq!['-'] + (from_version_placeholder() + (seq!['-'] + (
            to_version_placeholder() + (seq!['-'] + (arch_placeholder() + delta_ext()))))))),
            name_placeholder(),
            name,
        ) == x + name + (seq!['-'] + (from_version_placeholder() + (seq!['-'] + (to_version_placeholder() + (
        seq!['-'] + (arch_placeholder() + delta_ext())))))),
{
    let np = name_placeholder();
    let fp = from_version_placeholder();
    let tp = to_version_placeholder();
    let ap = arch_placeholder();
    let dash = seq!['-'];
    let ext = delta_ext();
    let e = Seq::<char>::empty();
    text::lemma_replace_skips(x, np + (dash + (fp + (dash + (tp + (dash + (ap + ext)))))), np, name);
    text::lemma_replace_hit(dash + (fp + (dash + (tp + (dash + (ap + ext))))), np, name);
    text::lemma_replace_skips(dash, fp + (dash + (tp + (dash + (ap + ext)))), np, name);
    assert(fp + (dash + (tp + (dash + (ap + ext)))) =~= (fp + dash) + ((tp + dash) + (ap + ext)));
    assert(!text::has_prefix((fp + dash) + ((tp + dash) + (ap + ext)), np)) by {
        assert(((fp + dash) + ((tp + dash) + (ap + ext))).subrange(0, 6)[1] != np[1]);
    }
    text::lemma_replace_mismatch(fp + dash, (tp + dash) + (ap + ext), np, name);
    assert(!text::has_prefix((tp + dash) + (ap + ext), np)) by {
        assert(((tp + dash) + (ap + ext)).subrange(0, 6)[1] != np[1]);
    }
    text::lemma_replace_mismatch(tp + dash, ap + ext, np, name);
    assert(!text::has_prefix((ap + ext) + e, np)) by {
        assert(((ap + ext) + e).subrange(0, 6)[1] != np[1]);
    }
    assert(ap + ext =~= (ap + ext) + e);
    text::lemma_replace_mismatch(ap + ext, e, np, name);
    assert(x + name + (dash + (fp + (dash + (tp + (dash + (ap + ext)))))) =~= x + (name + (dash + (fp + (dash + (
    tp + (dash + (ap + ext))))))));
}

/// `{from_version}` replaced in `x{from_version}-{to_version}-{arch}.delta.parcel`.
proof fn lemma_fill_from(x: Seq<char>, from_version: Seq<char>)
    requires
        no_brace(x),
    ensures
        text::replace_all(
            x + (from_version_placeholder() + (seq!['-'] + (to_version_placeholder() + (seq!['-'] + (
            arch_placeholder() + delta_ext()))))),
            from_version_placeholder(),
            from_version,
        ) == x + from_version + (seq!['-'] + (to_version_placeholder() + (seq!['-'] + (arch_placeholder()
            + delta_ext())))),
{
    let fp = from_version_placeholder();
    let tp = to_version_placeholder();
    let ap = arch_placeholder();
    let dash = seq!['-'];
    let ext = delta_ext();
    let e = Seq::<char>::empty();
    text::lemma_replace_skips(x, fp + (dash + (tp + (dash + (ap + ext)))), fp, from_version);
    text::lemma_replace_hit(dash + (tp + (dash + (ap + ext))), fp, from_version);
    text::lemma_replace_skips(dash, tp + (dash + (ap + ext)), fp, from_version);
    assert(tp + (dash + (ap + ext)) =~= (tp + dash) + (ap + ext));
    assert(!text::has_prefix((tp + dash) + (ap + ext), fp)) by {
        assert(((tp + dash) + (ap + ext)).subrange(0, 14)[1] != fp[1]);
    }
    text::lemma_replace_mismatch(tp + dash, ap + ext, fp, from_version);
    assert(!text::has_prefix((ap + ext) + e, fp)) by {
        assert(((ap + ext) + e).subrange(0, 14)[1] != fp[1]);
    }
    assert(ap + ext =~= (ap + ext) + e);
    text::lemma_replace_mismatch(ap + ext, e, fp, from_version);
    assert(x + from_version + (dash + (tp + (dash + (ap + ext)))) =~= x + (from_version + (dash + (tp + (dash + (
    ap + ext))))));
}

/// `{to_version}` replaced in `x{to_version}-{arch}.delta.parcel`.
proof fn lemma_fill_to(x: Seq<char>, to_version: Seq<char>)
    requires
        no_brace(x),
    ensures
        text::replace_all(
            x + (to_version_placeholder() + (seq!['-'] + (arch_placeholder() + delta_ext()))),
            to_version_placeholder(),
            to_version,
        ) == x + to_version + (seq!['-'] + (arch_placeholder() + delta_ext())),
{
    let tp = to_version_placeholder();
    let ap = arch_placeholder();
    let dash = seq!['-'];
    let ext = delta_ext();
    let e = Seq::<char>::empty();
    text::lemma_replace_skips(x, tp + (dash + (ap + ext)), tp, to_version);
    text::lemma_replace_hit(dash + (ap + ext), tp, to_version);
    text::lemma_replace_skips(dash, ap + ext, tp, to_version);
    assert(!text::has_prefix((ap + ext) + e, tp)) by {
        assert(((ap + ext) + e).subrange(0, 12)[1] != tp[1]);
    }
    assert(ap + ext =~= (ap + ext) + e);
    text::lemma_replace_mismatch(ap + ext, e, tp, to_version);
    assert(x + to_version + (dash + (ap + ext)) =~= x + (to_version + (dash + (ap + ext))));
}

/// The index `parcel repo index` makes for `base_url` offers each delta at
/// `<base_url>/<delta file name>`, the name `parcel build-delta` gives the
/// archive, when neither the base URL nor the name or versions hold a `{`.
pub proof fn law_index_url_is_delta_file(
    base_url: Seq<char>,
    name: Seq<char>,
    from_version: Seq<char>,
    to_version: Seq<char>,
    a: Architecture,
)
    requires
        no_brace(text::trim_end_char(base_url, '/')),
        no_brace(name),
        no_brace(from_version),
        no_brace(to_version),
    ensures
        delta_download_url(text::trim_end_char(base_url, '/') + delta_template_tail(), name, from_version, to_version, a)
            == text::trim_end_char(base_url, '/') + seq!['/'] + crate::delta::delta_file_name_of(
            name,
            from_version,
            to_version,
            a,
        ),
{
    let b = text::trim_end_char(base_url, '/');
    let x = b + seq!['/'];
    let dash = seq!['-'];
    let fp = from_version_placeholder();
    let tp = to_version_placeholder();
    let ap = arch_placeholder();
    let ext = delta_ext();
    let an = crate::utils::arch::arch_name(a);
    assert(b + delta_template_tail() =~= x + (name_placeholder() + (dash + (fp + (dash + (tp + (dash + (ap
        + ext)))))))) by {
        reveal_strlit("/{name}-{from_version}-{to_version}-{arch}.delta.parcel");
    }
    lemma_brace_free_concat(b, seq!['/']);
    lemma_fill_delta_name(x, name);
    let x1 = x + name + dash;
    lemma_brace_free_concat(x, name);
    lemma_brace_free_concat(x + name, dash);
    assert(x + name + (dash + (fp + (dash + (tp + (dash + (ap + ext)))))) =~= x1 + (fp + (dash + (tp + (dash + (ap
        + ext))))));
    lemma_fill_from(x1, from_version);
    let x2 = x1 + from_version + dash;
    lemma_brace_free_concat(x1, from_version);
    lemma_brace_free_concat(x1 + from_version, dash);
    assert(x1 + from_version + (dash + (tp + (dash + (ap + ext)))) =~= x2 + (tp + (dash + (ap + ext))));
    lemma_fill_to(x2, to_version);
    let x3 = x2 + to_version + dash;
    lemma_brace_free_concat(x2, to_version);
    lemma_brace_free_concat(x2 + to_version, dash);
    assert(x2 + to_version + (dash + (ap + ext)) =~= x3 + (ap + ext));
    lemma_arch_name_brace_free(a);
    lemma_fill_arch(x3, an, ext);
    assert(x3 + an + ext =~= b + seq!['/'] + crate::delta::delta_file_name_of(name, from_version, to_version, a))
        by {
        reveal_strlit(".delta.parcel");
    }
}

/// What a file in an artifacts directory is to the index.
#[derive(Debug, PartialEq, Eq, Structural)]
pub enum ArtifactKind {
    /// A package archive.
    Package,
    /// A delta archive.
    Delta,
}

/// Whether a file is indexed, and as what: files with the extension
/// `parcel` are, as deltas when their name ends in `.delta.parcel`.
pub open spec fn artifact_kind_of(path: Seq<char>) -> Option<ArtifactKind> {
    if fspath::extension_of(path) != Some("parcel"@) {
        None
    } else if text::has_suffix(
        match fspath::file_name_of(path) {
            Some(n) => n,
            None => "artifact"@,
        },
        ".delta.parcel"@,
    ) {
        Some(ArtifactKind::Delta)
    } else {
        Some(ArtifactKind::Package)
    }
}

/// Classifies a file found in an artifacts directory.
pub fn artifact_kind(path: &str) -> (r: Option<ArtifactKind>)
    ensures
        r == artifact_kind_of(path@),
{
    match fspath::path_extension(path) {
        None => return None,
        Some(e) => {
            if !text::str_eq(e.as_str(), "parcel") {
                return None;
            }
        },
    }
    let name = crate::layout::path_file_name(path);
    let n = text::chars_of(name.as_str());
    if text::ends_with_exec(&n, &text::chars_of(".delta.parcel")) {
        Some(ArtifactKind::Delta)
    } else {
        Some(ArtifactKind::Package)
    }
}

/// How a URL is fetched.
#[derive(Debug, PartialEq, Eq)]
pub enum FetchRoute {
    /// Copy the local file at this path.
    CopyFile(String),
    /// Download it over the network.
    Download,
}

/// Decides how to fetch `url`: a `file://` URL is the file after the
/// scheme; otherwise the URL itself when a local file exists there
/// (`is_local`); otherwise a download.
pub fn fetch_route(url: &str, is_local: bool) -> (r: FetchRoute)
    ensures
        text::has_prefix(url@, file_scheme()) ==> (r matches FetchRoute::CopyFile(p) && p@ == url@.skip(7)),
        !text::has_prefix(url@, file_scheme()) && is_local ==> (r matches FetchRoute::CopyFile(p) && p@ == url@),
        !text::has_prefix(url@, file_scheme()) && !is_local ==> r matches FetchRoute::Download,
{
    let v = text::chars_of(url);
    let scheme: Vec<char> = vec!['f', 'i', 'l', 'e', ':', '/', '/'];
    if text::starts_with_exec(&v, &scheme) {
        return FetchRoute::CopyFile(text::string_from(&v, 7, v.len()));
    }
    if is_local {
        return FetchRoute::CopyFile(text::string_of(&v));
    }
    FetchRoute::Download
}

} // verus!
