//! Unix path text: components, joining, file names and prefixes, as
//! `std::path` reads and builds them.

use vstd::prelude::*;

use crate::text;

verus! {

/// One component of a path, as text.
pub enum PathPart {
    RootDir,
    CurDir,
    ParentDir,
    Normal(Vec<char>),
}

/// The mathematical value of a path component.
pub enum PartView {
    RootDir,
    CurDir,
    ParentDir,
    Normal(Seq<char>),
}

impl View for PathPart {
    type V = PartView;

    open spec fn view(&self) -> PartView {
        match self {
            PathPart::RootDir => PartView::RootDir,
            PathPart::CurDir => PartView::CurDir,
            PathPart::ParentDir => PartView::ParentDir,
            PathPart::Normal(n) => PartView::Normal(n@),
        }
    }
}

pub open spec fn dot() -> Seq<char> {
    seq!['.']
}

pub open spec fn dot_dot() -> Seq<char> {
    seq!['.', '.']
}

/// Components of the `/`-separated pieces after the first: empty pieces
/// and `.` vanish, `..` is the parent.
pub open spec fn body_parts(pieces: Seq<Seq<char>>) -> Seq<PartView>
    decreases pieces.len(),
{
    if pieces.len() == 0 {
        Seq::empty()
    } else {
        let rest = body_parts(pieces.drop_last());
        let p = pieces.last();
        if p.len() == 0 || p == dot() {
            rest
        } else if p == dot_dot() {
            rest.push(PartView::ParentDir)
        } else {
            rest.push(PartView::Normal(p))
        }
    }
}

/// Whether the path text starts at the root.
pub open spec fn is_absolute(s: Seq<char>) -> bool {
    s.len() > 0 && s[0] == '/'
}

/// The components of a path, as `Path::components` yields them on Unix: a
/// root first when the path starts with `/`, a `.` only when it leads a
/// relative path, then the other pieces between separators.
pub open spec fn components(s: Seq<char>) -> Seq<PartView> {
    let pieces = text::split_on(s, '/');
    let lead = if is_absolute(s) {
        seq![PartView::RootDir]
    } else if pieces[0] == dot() {
        seq![PartView::CurDir]
    } else {
        Seq::empty()
    };
    lead + body_parts(pieces)
}

pub proof fn lemma_split_on_nonempty(s: Seq<char>, c: char)
    ensures
        text::split_on(s, c).len() >= 1,
        text::split_on(s, c)[0] == s.subrange(0, if text::first_index_of(s, c) < 0 {
            s.len() as int
        } else {
            text::first_index_of(s, c)
        }),
{
    text::lemma_first_index_of(s, c);
    if text::first_index_of(s, c) < 0 {
        assert(s.subrange(0, s.len() as int) =~= s);
    }
}

/// The components of a path.
pub fn path_components(path: &Vec<char>) -> (r: Vec<PathPart>)
    ensures
        r@.map_values(|p: PathPart| p@) == components(path@),
{
    let pieces = text::split_chars(path, '/');
    let ghost sp = text::split_on(path@, '/');
    proof {
        lemma_split_on_nonempty(path@, '/');
    }
    let mut r: Vec<PathPart> = Vec::new();
    let dot_v: Vec<char> = vec!['.'];
    let dotdot_v: Vec<char> = vec!['.', '.'];
    if path.len() > 0 && path[0] == '/' {
        r.push(PathPart::RootDir);
    } else if text::chars_eq(&pieces[0], &dot_v) {
        r.push(PathPart::CurDir);
    }
    let ghost lead = r@.map_values(|p: PathPart| p@);
    let mut i: usize = 0;
    assert(sp.subrange(0, 0) =~= Seq::<Seq<char>>::empty());
    while i < pieces.len()
        invariant
            i <= pieces@.len(),
            pieces@.len() == sp.len(),
            forall|k: int| 0 <= k < pieces@.len() ==> #[trigger] pieces@[k]@ == sp[k],
            dot_v@ == dot(),
            dotdot_v@ == dot_dot(),
            r@.map_values(|p: PathPart| p@) == lead + body_parts(sp.subrange(0, i as int)),
        decreases pieces.len() - i,
    {
        let piece = &pieces[i];
        proof {
            assert(sp.subrange(0, i + 1).drop_last() =~= sp.subrange(0, i as int));
            assert(sp.subrange(0, i + 1).last() == piece@);
        }
        if piece.len() == 0 || text::chars_eq(piece, &dot_v) {
        } else if text::chars_eq(piece, &dotdot_v) {
            r.push(PathPart::ParentDir);
            proof {
                assert(r@.map_values(|p: PathPart| p@) =~= (lead + body_parts(sp.subrange(0, i as int))).push(PartView::ParentDir));
            }
        } else {
            r.push(PathPart::Normal(text::copy_chars(piece)));
            proof {
                assert(r@.map_values(|p: PathPart| p@) =~= (lead + body_parts(sp.subrange(0, i as int))).push(PartView::Normal(piece@)));
            }
        }
        i = i + 1;
    }
    assert(sp.subrange(0, i as int) =~= sp);
    r
}

/// Pieces joined with `/` between them.
pub open spec fn join_slash(ps: Seq<Seq<char>>) -> Seq<char>
    decreases ps.len(),
{
    if ps.len() == 0 {
        Seq::empty()
    } else if ps.len() == 1 {
        ps[0]
    } else {
        join_slash(ps.drop_last()) + seq!['/'] + ps.last()
    }
}

/// `base.join(rel)`: `rel` when it is absolute; otherwise `rel` appended to
/// `base`, with a `/` between them when `base` is non-empty and does not
/// already end with one.
pub open spec fn path_join(base: Seq<char>, rel: Seq<char>) -> Seq<char> {
    if is_absolute(rel) {
        rel
    } else if base.len() > 0 && base.last() != '/' {
        base + seq!['/'] + rel
    } else {
        base + rel
    }
}

/// Joins two paths as `Path::join` does.
pub fn join_chars(base: &Vec<char>, rel: &Vec<char>) -> (r: Vec<char>)
    ensures
        r@ == path_join(base@, rel@),
{
    if rel.len() > 0 && rel[0] == '/' {
        return text::copy_chars(rel);
    }
    let mut r = text::copy_chars(base);
    if base.len() > 0 && base[base.len() - 1] != '/' {
        r.push('/');
    }
    let mut i: usize = 0;
    let ghost start = r@;
    while i < rel.len()
        invariant
            i <= rel.len(),
            r@ == start + rel@.subrange(0, i as int),
        decreases rel.len() - i,
    {
        r.push(rel[i]);
        i = i + 1;
    }
    assert(rel@.subrange(0, i as int) =~= rel@);
    r
}

/// `Path::new(base).join(rel)` as text.
pub fn join(base: &str, rel: &str) -> (r: String)
    ensures
        r@ == path_join(base@, rel@),
{
    let b = text::chars_of(base);
    let x = text::chars_of(rel);
    let j = join_chars(&b, &x);
    text::string_of(&j)
}

/// The final component when it is a normal name (`Path::file_name`).
pub open spec fn file_name_of(s: Seq<char>) -> Option<Seq<char>> {
    let c = components(s);
    if c.len() > 0 && c.last() is Normal {
        Some(c.last()->Normal_0)
    } else {
        None
    }
}

/// The final component of a path when it is a normal name.
pub fn file_name(path: &Vec<char>) -> (r: Option<Vec<char>>)
    ensures
        r is None <==> file_name_of(path@) is None,
        r matches Some(n) ==> file_name_of(path@) == Some(n@),
{
    let parts = path_components(path);
    proof {
        assert(parts@.map_values(|p: PathPart| p@).len() == parts@.len());
    }
    if parts.len() == 0 {
        return None;
    }
    proof {
        assert(parts@.map_values(|p: PathPart| p@).last() == parts@.last()@);
    }
    match &parts[parts.len() - 1] {
        PathPart::Normal(n) => Some(text::copy_chars(n)),
        _ => None,
    }
}

/// Names of the normal components, in order.
pub open spec fn normal_names(c: Seq<PartView>) -> Seq<Seq<char>>
    decreases c.len(),
{
    if c.len() == 0 {
        Seq::empty()
    } else {
        let rest = normal_names(c.drop_last());
        match c.last() {
            PartView::Normal(n) => rest.push(n),
            _ => rest,
        }
    }
}

pub proof fn lemma_normal_names_len(c: Seq<PartView>)
    ensures
        forall|k: int| 0 <= k <= c.len() ==> normal_names(#[trigger] c.subrange(0, k)).len() <= k,
{
    assert forall|k: int| 0 <= k <= c.len() implies normal_names(#[trigger] c.subrange(0, k)).len() <= k by {
        lemma_normal_names_bound(c.subrange(0, k));
    }
}

pub proof fn lemma_normal_names_bound(c: Seq<PartView>)
    ensures
        normal_names(c).len() <= c.len(),
    decreases c.len(),
{
    if c.len() > 0 {
        lemma_normal_names_bound(c.drop_last());
    }
}

/// Whether any component is the root or a parent reference.
pub open spec fn escapes(c: Seq<PartView>) -> bool {
    exists|i: int| 0 <= i < c.len() && (c[i] is RootDir || c[i] is ParentDir)
}

/// Whether `p` is a component-wise prefix of `s`.
pub open spec fn parts_prefix(p: Seq<PartView>, s: Seq<PartView>) -> bool {
    p.len() <= s.len() && s.subrange(0, p.len() as int) == p
}

/// `Path::strip_prefix`: the components of `s` after those of `prefix`,
/// when `prefix` matches component by component.
pub open spec fn strip_prefix_of(s: Seq<char>, prefix: Seq<char>) -> Option<Seq<PartView>> {
    let cs = components(s);
    let cp = components(prefix);
    if parts_prefix(cp, cs) {
        Some(cs.skip(cp.len() as int))
    } else {
        None
    }
}

/// Whether two components are the same.
fn same_part(a: &PathPart, b: &PathPart) -> (r: bool)
    ensures
        r == (a@ == b@),
{
    match (a, b) {
        (PathPart::RootDir, PathPart::RootDir) => true,
        (PathPart::CurDir, PathPart::CurDir) => true,
        (PathPart::ParentDir, PathPart::ParentDir) => true,
        (PathPart::Normal(x), PathPart::Normal(y)) => text::chars_eq(x, y),
        _ => false,
    }
}

/// The components of `path` after `prefix`, when `prefix` is a
/// component-wise prefix of it.
pub fn strip_prefix(path: &Vec<char>, prefix: &Vec<char>) -> (r: Option<Vec<PathPart>>)
    ensures
        r is None <==> strip_prefix_of(path@, prefix@) is None,
        r matches Some(rest) ==> strip_prefix_of(path@, prefix@) == Some(rest@.map_values(|p: PathPart| p@)),
{
    let cs = path_components(path);
    let cp = path_components(prefix);
    let ghost vs = cs@.map_values(|p: PathPart| p@);
    let ghost vp = cp@.map_values(|p: PathPart| p@);
    assert(vs.len() == cs@.len() && vp.len() == cp@.len());
    if cp.len() > cs.len() {
        return None;
    }
    let mut i: usize = 0;
    while i < cp.len()
        invariant
            i <= cp.len() <= cs.len(),
            vs == cs@.map_values(|p: PathPart| p@),
            vp == cp@.map_values(|p: PathPart| p@),
            vs == components(path@),
            vp == components(prefix@),
            forall|k: int| 0 <= k < i ==> vs[k] == vp[k],
        decreases cp.len() - i,
    {
        if !same_part(&cs[i], &cp[i]) {
            proof {
                assert(vs.subrange(0, vp.len() as int)[i as int] != vp[i as int]);
            }
            return None;
        }
        i = i + 1;
    }
    assert(vs.subrange(0, vp.len() as int) =~= vp);
    let mut rest: Vec<PathPart> = Vec::new();
    let mut cs = cs;
    let mut j: usize = cp.len();
    let ghost n = cp@.len();
    while j < cs.len()
        invariant
            n <= j <= cs.len(),
            vs == cs@.map_values(|p: PathPart| p@),
            vs == components(path@),
            rest@.map_values(|p: PathPart| p@) == vs.subrange(n as int, j as int),
        decreases cs.len() - j,
    {
        let part = match &cs[j] {
            PathPart::RootDir => PathPart::RootDir,
            PathPart::CurDir => PathPart::CurDir,
            PathPart::ParentDir => PathPart::ParentDir,
            PathPart::Normal(x) => PathPart::Normal(text::copy_chars(x)),
        };
        proof {
            assert(part@ == cs@[j as int]@);
            assert(vs[j as int] == cs@[j as int]@);
        }
        let ghost old_rest = rest@;
        rest.push(part);
        proof {
            assert(rest@ == old_rest.push(part));
            assert(old_rest.map_values(|p: PathPart| p@) == vs.subrange(n as int, j as int));
            assert(rest@.map_values(|p: PathPart| p@) =~= old_rest.map_values(|p: PathPart| p@).push(part@));
            assert(vs.subrange(n as int, j + 1) =~= vs.subrange(n as int, j as int).push(vs[j as int]));
        }
        j = j + 1;
    }
    assert(vs.subrange(n as int, j as int) =~= vs.skip(n as int));
    Some(rest)
}

/// The names of the normal components, joined with `/`; `Err` when a
/// component is the root or a parent reference.
pub fn join_normal_parts(parts: &Vec<PathPart>) -> (r: Result<Vec<char>, PartView>)
    ensures
        r is Ok <==> !escapes(parts@.map_values(|p: PathPart| p@)),
        r matches Ok(v) ==> v@ == join_slash(normal_names(parts@.map_values(|p: PathPart| p@))),
        r matches Err(e) ==> {
            let c = parts@.map_values(|p: PathPart| p@);
            exists|i: int| 0 <= i < c.len() && c[i] == e && (e is RootDir || e is ParentDir) && !escapes(c.subrange(0, i))
        },
{
    let ghost c = parts@.map_values(|p: PathPart| p@);
    let mut out: Vec<char> = Vec::new();
    let mut count: usize = 0;
    proof {
        lemma_normal_names_len(c);
    }
    let mut i: usize = 0;
    while i < parts.len()
        invariant
            i <= parts.len(),
            c == parts@.map_values(|p: PathPart| p@),
            !escapes(c.subrange(0, i as int)),
            out@ == join_slash(normal_names(c.subrange(0, i as int))),
            count == normal_names(c.subrange(0, i as int)).len(),
            count <= i,
        decreases parts.len() - i,
    {
        proof {
            assert(c.subrange(0, i + 1).drop_last() =~= c.subrange(0, i as int));
        }
        match &parts[i] {
            PathPart::RootDir => {
                proof {
                    assert(c[i as int] == PartView::RootDir);
                    assert(c.subrange(0, i as int) == c.subrange(0, i + 1).drop_last());
                }
                return Err(PartView::RootDir);
            },
            PathPart::ParentDir => {
                proof {
                    assert(c[i as int] == PartView::ParentDir);
                    assert(c.subrange(0, i as int) == c.subrange(0, i + 1).drop_last());
                }
                return Err(PartView::ParentDir);
            },
            PathPart::CurDir => {
                proof {
                    assert(!escapes(c.subrange(0, i + 1))) by {
                        assert forall|k: int| 0 <= k < i + 1 implies !((#[trigger] c.subrange(0, i + 1)[k]) is RootDir
                            || c.subrange(0, i + 1)[k] is ParentDir) by {
                            if k < i {
                                assert(c.subrange(0, i + 1)[k] == c.subrange(0, i as int)[k]);
                            }
                        }
                    }
                }
            },
            PathPart::Normal(name) => {
                let ghost before = out@;
                if count > 0 {
                    out.push('/');
                }
                let mut k: usize = 0;
                let ghost mid = out@;
                while k < name.len()
                    invariant
                        k <= name.len(),
                        out@ == mid + name@.subrange(0, k as int),
                    decreases name.len() - k,
                {
                    out.push(name[k]);
                    k = k + 1;
                }
                proof {
                    assert(name@.subrange(0, k as int) =~= name@);
                    let ns = normal_names(c.subrange(0, i + 1));
                    assert(ns == normal_names(c.subrange(0, i as int)).push(name@));
                    assert(ns.drop_last() =~= normal_names(c.subrange(0, i as int)));
                    assert(!escapes(c.subrange(0, i + 1))) by {
                        assert forall|q: int| 0 <= q < i + 1 implies !((#[trigger] c.subrange(0, i + 1)[q]) is RootDir
                            || c.subrange(0, i + 1)[q] is ParentDir) by {
                            if q < i {
                                assert(c.subrange(0, i + 1)[q] == c.subrange(0, i as int)[q]);
                            }
                        }
                    }
                }
                count = count + 1;
            },
        }
        i = i + 1;
    }
    assert(c.subrange(0, i as int) =~= c);
    Ok(out)
}


/// What `Path::parent` gives for a path: `None` for the root, an empty
/// path, or one that ends in a prefix.
pub uninterp spec fn parent_of(path: Seq<char>) -> Option<Seq<char>>;

/// `Path::new(path).parent()`, as text. Its result is named, not stated:
/// `parent_of` stands for it.
#[verifier::external_body]
pub fn path_parent(path: &str) -> (r: Option<String>)
    ensures
        r is Some <==> parent_of(path@) is Some,
        r matches Some(p) ==> parent_of(path@) == Some(p@),
{
    match std::path::Path::new(path).parent() {
        Some(p) => Some(p.to_string_lossy().into_owned()),
        None => None,
    }
}

/// `<a><b>`: two texts one after the other.
pub fn concat(a: &str, b: &str) -> (r: String)
    ensures
        r@ == a@ + b@,
{
    let mut r = String::new();
    text::push_str(&mut r, a);
    text::push_str(&mut r, b);
    assert(r@ =~= a@ + b@);
    r
}


/// The text of one component.
pub open spec fn part_text(p: PartView) -> Seq<char> {
    match p {
        PartView::RootDir => seq!['/'],
        PartView::CurDir => dot(),
        PartView::ParentDir => dot_dot(),
        PartView::Normal(n) => n,
    }
}

/// Components written out with `/` between them.
pub open spec fn render_parts(c: Seq<PartView>) -> Seq<char> {
    join_slash(c.map_values(|p: PartView| part_text(p)))
}

/// Writes components out with `/` between them.
pub fn render(parts: &Vec<PathPart>) -> (r: Vec<char>)
    ensures
        r@ == render_parts(parts@.map_values(|p: PathPart| p@)),
{
    let ghost ts = parts@.map_values(|p: PathPart| p@).map_values(|p: PartView| part_text(p));
    let mut out: Vec<char> = Vec::new();
    let mut i: usize = 0;
    while i < parts.len()
        invariant
            i <= parts.len(),
            ts == parts@.map_values(|p: PathPart| p@).map_values(|p: PartView| part_text(p)),
            out@ == join_slash(ts.subrange(0, i as int)),
        decreases parts.len() - i,
    {
        let piece: Vec<char> = match &parts[i] {
            PathPart::RootDir => vec!['/'],
            PathPart::CurDir => vec!['.'],
            PathPart::ParentDir => vec!['.', '.'],
            PathPart::Normal(n) => text::copy_chars(n),
        };
        proof {
            assert(piece@ == ts[i as int]);
            assert(ts.subrange(0, i + 1).drop_last() =~= ts.subrange(0, i as int));
        }
        if i > 0 {
            out.push('/');
        }
        let ghost mid = out@;
        let mut k: usize = 0;
        while k < piece.len()
            invariant
                k <= piece.len(),
                out@ == mid + piece@.subrange(0, k as int),
            decreases piece.len() - k,
        {
            out.push(piece[k]);
            k = k + 1;
        }
        proof {
            assert(piece@.subrange(0, k as int) =~= piece@);
            if i == 0 {
                assert(ts.subrange(0, 1) =~= seq![ts[0]]);
            }
        }
        i = i + 1;
    }
    assert(ts.subrange(0, i as int) =~= ts);
    out
}

/// Whether two paths are equal as `Path`s compare: component by
/// component, so `a//b` and `a/./b` equal `a/b`.
pub fn same_path(a: &str, b: &str) -> (r: bool)
    ensures
        r == (components(a@) == components(b@)),
{
    let x = path_components(&text::chars_of(a));
    let y = path_components(&text::chars_of(b));
    let ghost xs = x@.map_values(|p: PathPart| p@);
    let ghost ys = y@.map_values(|p: PathPart| p@);
    if x.len() != y.len() {
        assert(xs.len() != ys.len());
        return false;
    }
    let mut i: usize = 0;
    while i < x.len()
        invariant
            i <= x.len(),
            x.len() == y.len(),
            xs == x@.map_values(|p: PathPart| p@),
            ys == y@.map_values(|p: PathPart| p@),
            xs == components(a@),
            ys == components(b@),
            forall|k: int| 0 <= k < i ==> xs[k] == ys[k],
        decreases x.len() - i,
    {
        if !same_part(&x[i], &y[i]) {
            assert(xs[i as int] == x@[i as int]@ && ys[i as int] == y@[i as int]@);
            assert(xs[i as int] != ys[i as int]);
            return false;
        }
        i = i + 1;
    }
    assert(xs =~= ys);
    true
}

/// What `Path::extension` gives: the text after the last `.` of the file
/// name; none without a file name, without a `.` in it, or when its only
/// `.` starts it.
pub open spec fn extension_of(path: Seq<char>) -> Option<Seq<char>> {
    match file_name_of(path) {
        None => None,
        Some(n) => {
            let k = text::last_index_of(n, '.');
            if k <= 0 {
                None
            } else {
                Some(n.subrange(k + 1, n.len() as int))
            }
        },
    }
}

/// The extension of a path's file name (`Path::extension`).
pub fn path_extension(path: &str) -> (r: Option<String>)
    ensures
        r is None <==> extension_of(path@) is None,
        r matches Some(e) ==> extension_of(path@) == Some(e@),
{
    match file_name(&text::chars_of(path)) {
        None => None,
        Some(n) => {
            proof {
                text::lemma_last_index_of(n@, '.');
            }
            match text::rfind_char(&n, '.') {
                Some(k) => {
                    if k == 0 {
                        None
                    } else {
                        Some(text::string_from(&n, k + 1, n.len()))
                    }
                },
                None => None,
            }
        },
    }
}


/// A component name that a path keeps as it is: non-empty, neither `.`
/// nor `..`, and without `/`.
pub open spec fn plain_name(n: Seq<char>) -> bool {
    n.len() > 0 && n != dot() && n != dot_dot() && forall|j: int| 0 <= j < n.len() ==> n[j] != '/'
}

pub open spec fn plain_names(ns: Seq<Seq<char>>) -> bool {
    forall|k: int| 0 <= k < ns.len() ==> plain_name(#[trigger] ns[k])
}

/// The normal components that pieces without `/` give are plain names.
pub proof fn lemma_body_parts_plain(ps: Seq<Seq<char>>)
    requires
        forall|k: int, j: int| 0 <= k < ps.len() && 0 <= j < ps[k].len() ==> #[trigger] ps[k][j] != '/',
    ensures
        forall|i: int|
            0 <= i < body_parts(ps).len() ==> (#[trigger] body_parts(ps)[i] matches PartView::Normal(n) ==> plain_name(n)),
    decreases ps.len(),
{
    if ps.len() > 0 {
        let init = ps.drop_last();
        assert forall|k: int, j: int| 0 <= k < init.len() && 0 <= j < init[k].len() implies #[trigger] init[k][j] != '/' by {
            assert(init[k] == ps[k]);
        }
        lemma_body_parts_plain(init);
        let p = ps.last();
        assert forall|j: int| 0 <= j < p.len() implies p[j] != '/' by {
            assert(ps[ps.len() - 1][j] != '/');
        }
    }
}

/// The names `normal_names` keeps are those of the normal components.
pub proof fn lemma_normal_names_plain(c: Seq<PartView>)
    requires
        forall|i: int| 0 <= i < c.len() ==> (#[trigger] c[i] matches PartView::Normal(n) ==> plain_name(n)),
    ensures
        plain_names(normal_names(c)),
    decreases c.len(),
{
    if c.len() > 0 {
        let init = c.drop_last();
        assert forall|i: int| 0 <= i < init.len() implies (#[trigger] init[i] matches PartView::Normal(n) ==> plain_name(n)) by {
            assert(init[i] == c[i]);
        }
        lemma_normal_names_plain(init);
        assert(c[c.len() - 1] == c.last());
    }
}

/// The normal names of any path are plain names.
pub proof fn lemma_components_plain(s: Seq<char>)
    ensures
        plain_names(normal_names(components(s))),
{
    let pieces = text::split_on(s, '/');
    text::lemma_split_on_pieces(s, '/');
    lemma_body_parts_plain(pieces);
    let c = components(s);
    let lead = if is_absolute(s) {
        seq![PartView::RootDir]
    } else if pieces[0] == dot() {
        seq![PartView::CurDir]
    } else {
        Seq::empty()
    };
    assert(c == lead + body_parts(pieces));
    assert forall|i: int| 0 <= i < c.len() implies (#[trigger] c[i] matches PartView::Normal(n) ==> plain_name(n)) by {
        if i >= lead.len() {
            assert(c[i] == body_parts(pieces)[i - lead.len()]);
        }
    }
    lemma_normal_names_plain(c);
}

/// Plain names joined with `/` split back into those names.
pub proof fn lemma_join_split(ns: Seq<Seq<char>>)
    requires
        ns.len() > 0,
        plain_names(ns),
    ensures
        text::split_on(join_slash(ns), '/') == ns,
        join_slash(ns).len() > 0,
        join_slash(ns)[0] == ns[0][0],
    decreases ns.len(),
{
    assert(plain_name(ns[0]));
    if ns.len() == 1 {
        text::lemma_split_on_none(ns[0], '/');
        assert(seq![ns[0]] =~= ns);
    } else {
        let init = ns.drop_last();
        assert forall|k: int| 0 <= k < init.len() implies plain_name(#[trigger] init[k]) by {
            assert(init[k] == ns[k]);
        }
        lemma_join_split(init);
        assert(plain_name(ns[ns.len() - 1]));
        text::lemma_split_on_append(join_slash(init), '/', ns.last());
        assert(init.push(ns.last()) =~= ns);
        assert(init[0] == ns[0]);
    }
}

/// The components of plain names are those names, each a normal one.
pub proof fn lemma_body_parts_of_plain(ns: Seq<Seq<char>>)
    requires
        plain_names(ns),
    ensures
        normal_names(body_parts(ns)) == ns,
        !escapes(body_parts(ns)),
    decreases ns.len(),
{
    if ns.len() > 0 {
        let init = ns.drop_last();
        assert forall|k: int| 0 <= k < init.len() implies plain_name(#[trigger] init[k]) by {
            assert(init[k] == ns[k]);
        }
        lemma_body_parts_of_plain(init);
        assert(plain_name(ns[ns.len() - 1]));
        let b = body_parts(ns);
        assert(b == body_parts(init).push(PartView::Normal(ns.last())));
        assert(b.drop_last() =~= body_parts(init));
        assert(init.push(ns.last()) =~= ns);
        assert forall|i: int| 0 <= i < b.len() implies !(b[i] is RootDir || b[i] is ParentDir) by {
            if i < b.len() - 1 {
                assert(b[i] == body_parts(init)[i]);
            }
        }
    }
}

/// Joining the normal names of a path and reading the result again gives
/// the same names, and no component that leaves the root.
pub proof fn lemma_normal_join_stable(path: Seq<char>)
    ensures
        ({
            let q = join_slash(normal_names(components(path)));
            &&& !escapes(components(q))
            &&& normal_names(components(q)) == normal_names(components(path))
        }),
{
    let ns = normal_names(components(path));
    lemma_components_plain(path);
    let q = join_slash(ns);
    if ns.len() == 0 {
        text::lemma_split_on_none(q, '/');
        assert(q =~= Seq::<char>::empty());
        let pieces = text::split_on(q, '/');
        assert(pieces == seq![Seq::<char>::empty()]);
        assert(body_parts(pieces.drop_last()) == Seq::<PartView>::empty());
        assert(components(q) =~= Seq::<PartView>::empty());
    } else {
        lemma_join_split(ns);
        assert(plain_name(ns[0]));
        assert(ns[0][0] != '/');
        assert(!is_absolute(q));
        assert(text::split_on(q, '/')[0] == ns[0]);
        assert(components(q) =~= body_parts(ns));
        lemma_body_parts_of_plain(ns);
    }
}

} // verus!
