//! Unix path text: joining, components, file names and extensions, taken
//! over the characters of a path as `std::path` reads them.
use vstd::prelude::*;
use crate::text::{chars_of, occurs_at, owned, same_text};

verus! {

/// A separator goes between `base` and a relative path joined onto it.
pub open spec fn needs_separator(base: Seq<char>) -> bool {
    base.len() > 0 && base.last() != '/'
}

/// `tail` joined onto `base`, as `PathBuf::push` does on Unix: an absolute
/// `tail` replaces `base`; otherwise a `/` is put between them unless `base`
/// is empty or already ends in one.
pub open spec fn join_seq(base: Seq<char>, tail: Seq<char>) -> Seq<char> {
    if tail.len() > 0 && tail[0] == '/' {
        tail
    } else if needs_separator(base) {
        base + seq!['/'] + tail
    } else {
        base + tail
    }
}

/// Joins `tail` onto `base` (see `join_seq`).
pub fn join(base: &str, tail: &str) -> (r: String)
    ensures
        r@ == join_seq(base@, tail@),
{
    let b = chars_of(base);
    let t = chars_of(tail);
    if t.len() > 0 && t[0] == '/' {
        return owned(tail);
    }
    let mut r = owned(base);
    if b.len() > 0 && b[b.len() - 1] != '/' {
        r.append("/");
        proof {
            reveal_strlit("/");
        }
    }
    r.append(tail);
    r
}

/// A `.` segment starts at `i`: a `.` followed by `/` or the end.
pub open spec fn dot_segment_at(s: Seq<char>, i: int) -> bool {
    0 <= i < s.len() && s[i] == '.' && (i + 1 == s.len() || s[i + 1] == '/')
}

/// A `..` segment starts at `i`.
pub open spec fn dotdot_segment_at(s: Seq<char>, i: int) -> bool {
    0 <= i && i + 1 < s.len() && s[i] == '.' && s[i + 1] == '.' && (i + 2 == s.len() || s[i
        + 2] == '/')
}

/// A non-empty segment other than the first starts at `i`.
pub open spec fn later_segment_at(s: Seq<char>, i: int) -> bool {
    0 < i < s.len() && s[i - 1] == '/' && s[i] != '/'
}

/// `Path::new(s).components()` yields exactly one component, and it is a
/// normal one: `s` is relative, its first segment is neither `.` nor `..`,
/// and every later segment is empty or `.` (which `components` skips).
pub open spec fn single_normal_component(s: Seq<char>) -> bool {
    &&& s.len() > 0
    &&& s[0] != '/'
    &&& !dot_segment_at(s, 0)
    &&& !dotdot_segment_at(s, 0)
    &&& forall|i: int| later_segment_at(s, i) ==> dot_segment_at(s, i)
}

/// Whether `name` is a single normal path component (see
/// `single_normal_component`).
pub fn is_single_normal_component(name: &str) -> (r: bool)
    ensures
        r == single_normal_component(name@),
{
    let v = chars_of(name);
    let n = v.len();
    if n == 0 || v[0] == '/' {
        return false;
    }
    if v[0] == '.' && (n == 1 || v[1] == '/') {
        return false;
    }
    if n >= 2 && v[0] == '.' && v[1] == '.' && (n == 2 || v[2] == '/') {
        return false;
    }
    let mut i: usize = 1;
    while i < n
        invariant
            v@ == name@,
            n == v@.len(),
            1 <= i <= n,
            forall|k: int| 0 < k < i && later_segment_at(v@, k) ==> dot_segment_at(v@, k),
        decreases n - i,
    {
        if v[i - 1] == '/' && v[i] != '/' && !(v[i] == '.' && (i + 1 == n || v[i + 1] == '/')) {
            assert(later_segment_at(v@, i as int));
            return false;
        }
        i = i + 1;
    }
    assert forall|k: int| later_segment_at(v@, k) implies dot_segment_at(v@, k) by {
        assert(0 < k < i);
    }
    true
}

/// The index of the first `/` at or after `i`, or the length of `s`.
pub open spec fn segment_end(s: Seq<char>, i: int) -> int
    decreases s.len() - i,
{
    if i < 0 || i >= s.len() {
        s.len() as int
    } else if s[i] == '/' {
        i
    } else {
        segment_end(s, i + 1)
    }
}

/// The first component of `Path::new(s)` is a normal one.
pub open spec fn first_component_normal(s: Seq<char>) -> bool {
    s.len() > 0 && s[0] != '/' && !dot_segment_at(s, 0) && !dotdot_segment_at(s, 0)
}

/// The text of the first segment of `s`: everything before the first `/`.
pub open spec fn first_segment(s: Seq<char>) -> Seq<char> {
    s.subrange(0, segment_end(s, 0))
}

/// Whether the first component of `path` is a normal one.
pub fn has_normal_first_component(path: &str) -> (r: bool)
    ensures
        r == first_component_normal(path@),
{
    let v = chars_of(path);
    let n = v.len();
    if n == 0 || v[0] == '/' {
        return false;
    }
    if v[0] == '.' && (n == 1 || v[1] == '/') {
        return false;
    }
    !(n >= 2 && v[0] == '.' && v[1] == '.' && (n == 2 || v[2] == '/'))
}

/// The first segment of `path` (see `first_segment`).
pub fn first_segment_of(path: &str) -> (r: String)
    ensures
        r@ == first_segment(path@),
{
    let v = chars_of(path);
    let n = v.len();
    let mut i: usize = 0;
    while i < n && v[i] != '/'
        invariant
            v@ == path@,
            n == v@.len(),
            i <= n,
            segment_end(v@, 0) == segment_end(v@, i as int),
        decreases n - i,
    {
        i = i + 1;
    }
    owned(path.substring_char(0, i))
}

/// The component `w` (a name without `/`) stands at position `i` of `s`.
pub open spec fn component_at(s: Seq<char>, w: Seq<char>, i: int) -> bool {
    &&& occurs_at(s, w, i)
    &&& (i == 0 || s[i - 1] == '/')
    &&& (i + w.len() == s.len() || s[i + w.len()] == '/')
}

/// One of the components of `Path::new(s)` is the normal component `w`.
pub open spec fn has_component_seq(s: Seq<char>, w: Seq<char>) -> bool {
    exists|i: int| component_at(s, w, i)
}

/// Whether one of the components of `path` is `w`.
pub fn has_component(path: &str, w: &str) -> (r: bool)
    ensures
        r == has_component_seq(path@, w@),
{
    let s = chars_of(path);
    let t = chars_of(w);
    let n = s.len();
    let m = t.len();
    if m > n {
        return false;
    }
    let last = n - m;
    let mut i: usize = 0;
    while i <= last
        invariant
            s@ == path@,
            t@ == w@,
            n == s@.len(),
            m == t@.len(),
            last == n - m,
            i <= last,
            forall|k: int| 0 <= k < i ==> !component_at(s@, t@, k),
        ensures
            forall|k: int| 0 <= k <= last ==> !component_at(s@, t@, k),
        decreases last - i,
    {
        let starts = i == 0 || s[i - 1] == '/';
        let ends = i + m == n || s[i + m] == '/';
        if starts && ends {
            let mut j: usize = 0;
            let mut same = true;
            while j < m
                invariant
                    n == s@.len(),
                    m == t@.len(),
                    i + m <= n,
                    j <= m,
                    same == (forall|k: int| 0 <= k < j ==> s@[i + k] == t@[k]),
                decreases m - j,
            {
                if s[i + j] != t[j] {
                    same = false;
                }
                j = j + 1;
            }
            if same {
                assert(s@.subrange(i as int, i + m) =~= t@);
                assert(component_at(s@, t@, i as int));
                return true;
            } else {
                assert(!occurs_at(s@, t@, i as int)) by {
                    if occurs_at(s@, t@, i as int) {
                        assert forall|k: int| 0 <= k < m implies s@[i + k] == t@[k] by {
                            assert(s@.subrange(i as int, i + m)[k] == t@[k]);
                        }
                    }
                }
            }
        }
        if i == last {
            break;
        }
        i = i + 1;
    }
    false
}

/// Position `e - 1` belongs to the run of separators and `.` segments at
/// the end of a path, which `Path::components` skips.
pub open spec fn trivial_before(s: Seq<char>, e: int) -> bool {
    ||| s[e - 1] == '/'
    ||| (s[e - 1] == '.' && e - 1 > 0 && s[e - 2] == '/' && (e == s.len() || s[e] == '/'))
}

/// The end of the last meaningful segment of `s[..e]`.
pub open spec fn meaningful_end(s: Seq<char>, e: int) -> int
    decreases e,
{
    if e <= 0 {
        0
    } else if trivial_before(s, e) {
        meaningful_end(s, e - 1)
    } else {
        e
    }
}

/// The start of the segment that ends at `b`.
pub open spec fn segment_begin(s: Seq<char>, b: int) -> int
    decreases b,
{
    if b <= 0 {
        0
    } else if s[b - 1] == '/' {
        b
    } else {
        segment_begin(s, b - 1)
    }
}

/// What `Path::file_name` returns: the last component if it is a normal one
/// (none for `/`, for a path made of `.`, or one that ends in `..`).
pub open spec fn file_name_seq(s: Seq<char>) -> Option<Seq<char>> {
    let e = meaningful_end(s, s.len() as int);
    let b = segment_begin(s, e);
    let seg = s.subrange(b, e);
    if e == 0 || seg == seq!['.'] || seg == seq!['.', '.'] {
        None
    } else {
        Some(seg)
    }
}

/// The file name of `path` (see `file_name_seq`).
pub fn file_name(path: &str) -> (r: Option<String>)
    ensures
        r matches Some(f) ==> file_name_seq(path@) == Some(f@),
        r is None ==> file_name_seq(path@) is None,
{
    let v = chars_of(path);
    let n = v.len();
    let mut e: usize = n;
    while e > 0 && (v[e - 1] == '/' || (v[e - 1] == '.' && e - 1 > 0 && v[e - 2] == '/' && (e
        == n || v[e] == '/')))
        invariant
            v@ == path@,
            n == v@.len(),
            e <= n,
            meaningful_end(v@, n as int) == meaningful_end(v@, e as int),
        decreases e,
    {
        e = e - 1;
    }
    let mut b: usize = e;
    while b > 0 && v[b - 1] != '/'
        invariant
            v@ == path@,
            n == v@.len(),
            b <= e <= n,
            meaningful_end(v@, n as int) == e,
            segment_begin(v@, e as int) == segment_begin(v@, b as int),
        decreases b,
    {
        b = b - 1;
    }
    let seg = path.substring_char(b, e);
    let k = e - b;
    let dot = k == 1 && v[b] == '.';
    let dotdot = k == 2 && v[b] == '.' && v[b + 1] == '.';
    proof {
        let sg = v@.subrange(b as int, e as int);
        assert(sg == seq!['.'] <==> dot) by {
            if sg == seq!['.'] {
                assert(seq!['.'][0] == '.');
                assert(sg.len() == 1);
                assert(sg[0] == v@[b as int]);
            }
            if dot {
                assert(sg =~= seq!['.']);
            }
        }
        assert(sg == seq!['.', '.'] <==> dotdot) by {
            if sg == seq!['.', '.'] {
                assert(seq!['.', '.'][1] == '.');
                assert(sg.len() == 2);
                assert(sg[0] == v@[b as int]);
                assert(sg[1] == v@[b + 1]);
            }
            if dotdot {
                assert(sg =~= seq!['.', '.']);
            }
        }
    }
    if e == 0 || dot || dotdot {
        None
    } else {
        Some(owned(seg))
    }
}

/// `Path::new(s).extension()` is `rs`: the file name is longer than three
/// characters and ends in `.rs`.
pub open spec fn is_rust_source(s: Seq<char>) -> bool {
    match file_name_seq(s) {
        Some(f) => f.len() > 3 && f.subrange(f.len() - 3, f.len() as int) == seq!['.', 'r', 's'],
        None => false,
    }
}

/// Whether the extension of `path` is `rs`.
pub fn has_rust_extension(path: &str) -> (r: bool)
    ensures
        r == is_rust_source(path@),
{
    match file_name(path) {
        None => false,
        Some(f) => {
            let v = chars_of(f.as_str());
            let k = v.len();
            if k <= 3 {
                return false;
            }
            let yes = v[k - 3] == '.' && v[k - 2] == 'r' && v[k - 1] == 's';
            proof {
                let tl = v@.subrange(k - 3, k as int);
                if yes {
                    assert(tl =~= seq!['.', 'r', 's']);
                }
                if tl == seq!['.', 'r', 's'] {
                    assert(tl[0] == v@[k - 3]);
                    assert(tl[1] == v@[k - 2]);
                    assert(tl[2] == v@[k - 1]);
                }
            }
            yes
        },
    }
}

/// Where the path relative to `root` starts in a path that lies under it.
pub open spec fn relative_start(root: Seq<char>) -> int {
    if needs_separator(root) {
        root.len() + 1int
    } else {
        root.len() as int
    }
}

/// The rest of `p` below `root`, for a path `p` that is `root` itself or is
/// `join_seq(root, rest)` for a relative, non-empty `rest`; none otherwise.
pub open spec fn relative_seq(root: Seq<char>, p: Seq<char>) -> Option<Seq<char>> {
    let k = relative_start(root);
    if p == root {
        Some(Seq::empty())
    } else if p.len() > k && p.subrange(0, root.len() as int) == root && (needs_separator(root)
        ==> p[root.len() as int] == '/') && p[k] != '/' {
        Some(p.subrange(k, p.len() as int))
    } else {
        None
    }
}

/// The part of `path` below `root` (see `relative_seq`).
pub fn relative_path(root: &str, path: &str) -> (r: Option<String>)
    ensures
        r matches Some(x) ==> relative_seq(root@, path@) == Some(x@),
        r is None ==> relative_seq(root@, path@) is None,
{
    let rv = chars_of(root);
    let pv = chars_of(path);
    let rn = rv.len();
    let pn = pv.len();
    if same_text(root, path) {
        return Some(String::new());
    }
    let sep = rn > 0 && rv[rn - 1] != '/';
    if pn <= rn {
        return None;
    }
    let k = if sep {
        rn + 1
    } else {
        rn
    };
    if pn <= k {
        return None;
    }
    let mut i: usize = 0;
    while i < rn
        invariant
            rv@ == root@,
            pv@ == path@,
            rn == rv@.len(),
            pn == pv@.len(),
            rn < pn,
            i <= rn,
            forall|j: int| 0 <= j < i ==> pv@[j] == rv@[j],
        decreases rn - i,
    {
        if pv[i] != rv[i] {
            assert(pv@.subrange(0, rn as int)[i as int] != rv@[i as int]);
            return None;
        }
        i = i + 1;
    }
    assert(pv@.subrange(0, rn as int) =~= rv@);
    if sep && pv[rn] != '/' {
        return None;
    }
    if pv[k] == '/' {
        return None;
    }
    Some(owned(path.substring_char(k, pn)))
}

/// A relative path joined onto a base extends the base: the result starts
/// with the base's characters.
pub proof fn lemma_join_relative_extends(base: Seq<char>, rel: Seq<char>)
    requires
        rel.len() == 0 || rel[0] != '/',
    ensures
        join_seq(base, rel).len() >= base.len(),
        join_seq(base, rel).subrange(0, base.len() as int) == base,
{
    if needs_separator(base) {
        assert((base + seq!['/'] + rel).subrange(0, base.len() as int) =~= base);
    } else {
        assert((base + rel).subrange(0, base.len() as int) =~= base);
    }
}

/// What lies below a root is a relative path.
pub proof fn lemma_relative_is_relative(root: Seq<char>, p: Seq<char>)
    requires
        relative_seq(root, p) is Some,
    ensures
        relative_seq(root, p)->Some_0.len() == 0 || relative_seq(root, p)->Some_0[0] != '/',
{
    if p != root {
        let k = relative_start(root);
        assert(p.subrange(k, p.len() as int)[0] == p[k]);
    }
}

/// The part of a path below a root holds no component that the path itself
/// does not hold.
pub proof fn lemma_relative_keeps_components(root: Seq<char>, p: Seq<char>, w: Seq<char>)
    requires
        relative_seq(root, p) is Some,
        w.len() > 0,
        has_component_seq(relative_seq(root, p)->Some_0, w),
    ensures
        has_component_seq(p, w),
{
    let rel = relative_seq(root, p)->Some_0;
    let i = choose|i: int| component_at(rel, w, i);
    if p != root {
        let k = relative_start(root);
        assert(rel == p.subrange(k, p.len() as int));
        assert(p.subrange(k + i, k + i + w.len()) =~= rel.subrange(i, i + w.len()));
        if i == 0 {
            if needs_separator(root) {
                assert(p[k - 1] == '/');
            } else if root.len() > 0 {
                assert(p.subrange(0, root.len() as int)[k - 1] == p[k - 1]);
            }
        } else {
            assert(rel[i - 1] == p[k + i - 1]);
        }
        if k + i + w.len() < p.len() {
            assert(rel[i + w.len()] == p[k + i + w.len()]);
        }
        assert(component_at(p, w, k + i));
    }
}

/// A text without `/` holds no separator.
pub open spec fn slash_free(s: Seq<char>) -> bool {
    forall|i: int| 0 <= i < s.len() ==> s[i] != '/'
}

/// Which names are one normal path component: any non-empty name without
/// `/` other than `.` and `..`, also with a trailing `/`; never an absolute
/// path, `.`, `..`, a path that starts with `..`, or two names joined by a
/// separator.
pub proof fn lemma_single_component_shapes(name: Seq<char>, other: Seq<char>)
    ensures
        name.len() > 0 && slash_free(name) && name != "."@ && name != ".."@ ==> single_normal_component(name)
            && single_normal_component(name + seq!['/']),
        name.len() > 0 && name[0] == '/' ==> !single_normal_component(name),
        !single_normal_component("."@),
        !single_normal_component(".."@),
        !single_normal_component(".."@ + seq!['/'] + other),
        name.len() > 0 && other.len() > 0 && other[0] != '/' && other[0] != '.'
            ==> !single_normal_component(name + seq!['/'] + other),
{
    reveal_strlit(".");
    reveal_strlit("..");
    if name.len() > 0 && slash_free(name) && name != "."@ && name != ".."@ {
        if name.len() == 1 && name[0] == '.' {
            assert(name =~= "."@);
        }
        if name.len() == 2 && name[0] == '.' && name[1] == '.' {
            assert(name =~= ".."@);
        }
        let t = name + seq!['/'];
        assert forall|i: int| later_segment_at(t, i) implies dot_segment_at(t, i) by {
            assert(t[i - 1] == name[i - 1]);
        }
        assert(t[0] == name[0]);
        if name.len() == 1 {
            assert(t[1] == '/');
        } else {
            assert(t[1] == name[1]);
        }
        if name.len() >= 2 {
            if name.len() == 2 {
                assert(t[2] == '/');
            } else {
                assert(t[2] == name[2]);
            }
        }
    }
    let u = ".."@ + seq!['/'] + other;
    assert(u[0] == '.' && u[1] == '.' && u[2] == '/');
    assert(dotdot_segment_at(u, 0));
    if name.len() > 0 && other.len() > 0 && other[0] != '/' && other[0] != '.' {
        let v = name + seq!['/'] + other;
        let k = name.len() as int + 1;
        assert(v[k - 1] == '/' && v[k] == other[0]);
        assert(later_segment_at(v, k));
        assert(!dot_segment_at(v, k));
    }
}

proof fn lemma_segment_begin_over_name(s: Seq<char>, start: int, b: int)
    requires
        0 < start <= b <= s.len(),
        s[start - 1] == '/',
        forall|k: int| start <= k < b ==> s[k] != '/',
    ensures
        segment_begin(s, b) == start,
    decreases b,
{
    if b > start {
        lemma_segment_begin_over_name(s, start, b - 1);
    }
}

/// The file name of a path that ends in `/` and a name is that name, when
/// the name is neither `.` nor `..`.
pub proof fn lemma_file_name_of_joined(dir: Seq<char>, name: Seq<char>)
    requires
        name.len() > 0,
        slash_free(name),
        name != "."@,
        name != ".."@,
    ensures
        file_name_seq(dir + seq!['/'] + name) == Some(name),
{
    reveal_strlit(".");
    reveal_strlit("..");
    let s = dir + seq!['/'] + name;
    let n = s.len() as int;
    let start = dir.len() + 1int;
    assert(s[n - 1] == name.last());
    if name.last() == '.' {
        if name.len() == 1 {
            assert(name =~= "."@);
        }
        assert(s[n - 2] == name[name.len() - 2]);
    }
    assert(!trivial_before(s, n));
    assert(meaningful_end(s, n) == n);
    assert forall|k: int| start <= k < n implies s[k] != '/' by {
        assert(s[k] == name[k - start]);
    }
    lemma_segment_begin_over_name(s, start, n);
    assert(s.subrange(start, n) =~= name);
    if name =~= seq!['.'] {
        assert(name =~= "."@);
    }
    if name =~= seq!['.', '.'] {
        assert(name =~= ".."@);
    }
}

/// A file named by a non-empty stem and `.rs` has the extension `rs`; a file
/// whose name does not end in `.rs` does not.
pub proof fn lemma_rust_source_names(dir: Seq<char>, stem: Seq<char>, name: Seq<char>)
    ensures
        stem.len() > 0 && slash_free(stem) ==> is_rust_source(dir + seq!['/'] + (stem + ".rs"@)),
        name.len() > 0 && slash_free(name) && name != "."@ && name != ".."@ && !(name.len() > 3
            && name.subrange(name.len() - 3, name.len() as int) == ".rs"@) ==> !is_rust_source(
            dir + seq!['/'] + name,
        ),
{
    reveal_strlit(".rs");
    reveal_strlit(".");
    reveal_strlit("..");
    if stem.len() > 0 && slash_free(stem) {
        let f = stem + ".rs"@;
        assert(slash_free(f)) by {
            assert forall|i: int| 0 <= i < f.len() implies f[i] != '/' by {
                if i >= stem.len() {
                    assert(f[i] == ".rs"@[i - stem.len()]);
                }
            }
        }
        assert(f.len() > 3);
        assert(f != "."@ && f != ".."@) by {
            assert(f.len() != "."@.len() && f.len() != ".."@.len());
        }
        lemma_file_name_of_joined(dir, f);
        assert(f.subrange(f.len() - 3, f.len() as int) =~= seq!['.', 'r', 's']);
    }
    if name.len() > 0 && slash_free(name) && name != "."@ && name != ".."@ {
        lemma_file_name_of_joined(dir, name);
        assert(".rs"@ =~= seq!['.', 'r', 's']);
    }
}

/// Below a root, a path joined onto it is the relative path that was joined.
pub proof fn lemma_relative_of_join(root: Seq<char>, rel: Seq<char>)
    requires
        rel.len() > 0,
        rel[0] != '/',
    ensures
        relative_seq(root, join_seq(root, rel)) == Some(rel),
{
    let p = join_seq(root, rel);
    let k = relative_start(root);
    if needs_separator(root) {
        assert(p.subrange(0, root.len() as int) =~= root);
        assert(p[root.len() as int] == '/');
        assert(p[k] == rel[0]);
        assert(p.subrange(k, p.len() as int) =~= rel);
        assert(p.len() != root.len());
    } else {
        assert(p.subrange(0, root.len() as int) =~= root);
        assert(p[k] == rel[0]);
        assert(p.subrange(k, p.len() as int) =~= rel);
        assert(p.len() != root.len());
    }
}

proof fn lemma_segment_end_over_name(s: Seq<char>, i: int, end: int)
    requires
        0 <= i <= end <= s.len(),
        forall|k: int| i <= k < end ==> s[k] != '/',
        end == s.len() || s[end] == '/',
    ensures
        segment_end(s, i) == end,
    decreases end - i,
{
    if i < end {
        lemma_segment_end_over_name(s, i + 1, end);
    }
}

/// The first segment of a path is the name before its first `/`, or the
/// whole path when it has none.
pub proof fn lemma_first_segment_is_leading_name(name: Seq<char>, rest: Seq<char>)
    requires
        slash_free(name),
    ensures
        first_segment(name + seq!['/'] + rest) == name,
        first_segment(name) == name,
{
    let s = name + seq!['/'] + rest;
    assert forall|k: int| 0 <= k < name.len() implies s[k] != '/' by {
        assert(s[k] == name[k]);
    }
    lemma_segment_end_over_name(s, 0, name.len() as int);
    assert(s.subrange(0, name.len() as int) =~= name);
    lemma_segment_end_over_name(name, 0, name.len() as int);
    assert(name.subrange(0, name.len() as int) =~= name);
}

/// A component is a whole segment: a name standing between separators (or
/// the ends) is a component of the path, and a path without separators has
/// only itself as a component, so `targets` or `my.git` hold no `target` or
/// `.git` component.
pub proof fn lemma_component_is_whole_segment(
    before: Seq<char>,
    w: Seq<char>,
    after: Seq<char>,
    s: Seq<char>,
)
    requires
        w.len() > 0,
    ensures
        has_component_seq(before + seq!['/'] + w + seq!['/'] + after, w),
        has_component_seq(before + seq!['/'] + w, w),
        has_component_seq(w + seq!['/'] + after, w),
        has_component_seq(w, w),
        slash_free(s) && s != w ==> !has_component_seq(s, w),
{
    let p1 = before + seq!['/'] + w + seq!['/'] + after;
    let k = before.len() + 1int;
    assert(p1.subrange(k, k + w.len()) =~= w);
    assert(p1[k + w.len()] == '/');
    assert(component_at(p1, w, k));
    let p2 = before + seq!['/'] + w;
    assert(p2.subrange(k, k + w.len()) =~= w);
    assert(component_at(p2, w, k));
    let p3 = w + seq!['/'] + after;
    assert(p3.subrange(0, w.len() as int) =~= w);
    assert(p3[w.len() as int] == '/');
    assert(component_at(p3, w, 0));
    assert(w.subrange(0, w.len() as int) =~= w);
    assert(component_at(w, w, 0));
    if slash_free(s) && has_component_seq(s, w) {
        let i = choose|i: int| component_at(s, w, i);
        if i > 0 {
            assert(s[i - 1] != '/');
        }
        if i + w.len() < s.len() {
            assert(s[i + w.len()] != '/');
        }
        assert(s =~= s.subrange(i, i + w.len()));
    }
}

} // verus!
