//! Relative paths written as text with `/` between components, as the site
//! files name pages (`guides/start.md`). The operations follow `std::path`:
//! parent, file name, file stem, extension replacement and the ordering of
//! paths by components.
use vstd::prelude::*;
use crate::text::{copy_range, push_chars, push_str};

verus! {

/// Index of the last `c` in `s`, or -1.
pub open spec fn last_index(s: Seq<char>, c: char) -> int
    decreases s.len(),
{
    if s.len() == 0 {
        -1
    } else if s.last() == c {
        s.len() - 1
    } else {
        last_index(s.drop_last(), c)
    }
}

pub proof fn lemma_last_index(s: Seq<char>, c: char)
    ensures
        -1 <= last_index(s, c) < s.len(),
        last_index(s, c) >= 0 ==> s[last_index(s, c)] == c,
        forall|j: int| last_index(s, c) < j < s.len() ==> s[j] != c,
    decreases s.len(),
{
    if s.len() > 0 && s.last() != c {
        lemma_last_index(s.drop_last(), c);
        assert forall|j: int| last_index(s, c) < j < s.len() implies s[j] != c by {
            if j < s.len() - 1 {
                assert(s.drop_last()[j] == s[j]);
            }
        }
    }
}

pub fn last_index_exec(s: &[char], c: char) -> (r: Option<usize>)
    ensures
        match r {
            Some(i) => last_index(s@, c) == i as int,
            None => last_index(s@, c) == -1,
        },
{
    let mut j = s.len();
    assert(s@.take(j as int) =~= s@);
    while j > 0
        invariant
            j <= s.len(),
            last_index(s@, c) == last_index(s@.take(j as int), c),
        decreases j,
    {
        if s[j - 1] == c {
            return Some(j - 1);
        }
        assert(s@.take(j as int).drop_last() =~= s@.take(j - 1));
        j = j - 1;
    }
    None
}

/// The directory part of `p`: what comes before its last `/` (empty for a top-level file).
pub open spec fn parent(p: Seq<char>) -> Seq<char> {
    let k = last_index(p, '/');
    if k < 0 {
        seq![]
    } else {
        p.take(k)
    }
}

/// The last component of `p`.
pub open spec fn file_name(p: Seq<char>) -> Seq<char> {
    p.skip(last_index(p, '/') + 1)
}

/// `Path::file_stem` of a file name: the name without its extension; a name
/// without a dot, whose only dot leads, or that is `..`, is its own stem.
pub open spec fn stem(name: Seq<char>) -> Seq<char> {
    let d = last_index(name, '.');
    if name == ".."@ || d <= 0 {
        name
    } else {
        name.take(d)
    }
}

/// `Path::with_extension`: the file name's extension replaced by (or, when
/// it has none, extended with) `.ext`. A path without a file name is kept.
pub open spec fn with_extension(p: Seq<char>, ext: Seq<char>) -> Seq<char> {
    let name = file_name(p);
    if name.len() == 0 {
        p
    } else {
        p.take(last_index(p, '/') + 1) + stem(name) + seq!['.'] + ext
    }
}

/// The path without trailing `/` and `/.`, which `Path::components` leaves out.
pub open spec fn trim_tail(p: Seq<char>) -> Seq<char>
    decreases p.len(),
{
    if p.len() > 0 && p.last() == '/' {
        trim_tail(p.drop_last())
    } else if p.len() >= 2 && p.last() == '.' && p[p.len() - 2] == '/' {
        trim_tail(p.drop_last())
    } else {
        p
    }
}

/// `Path::file_name` of a relative path written with `/`: its last component
/// after trailing `/` and `.` components, none when that is `..`, `.` or
/// empty.
pub open spec fn path_file_name(p: Seq<char>) -> Option<Seq<char>> {
    let name = file_name(trim_tail(p));
    if name.len() == 0 || name == ".."@ || name == "."@ {
        None
    } else {
        Some(name)
    }
}

/// `Path::file_stem` of a relative path written with `/`: the stem of its
/// file name.
pub open spec fn path_stem(p: Seq<char>) -> Option<Seq<char>> {
    match path_file_name(p) {
        Some(name) => Some(stem(name)),
        None => None,
    }
}

pub fn path_file_name_exec(p: &[char]) -> (r: Option<Vec<char>>)
    ensures
        match r {
            Some(v) => path_file_name(p@) == Some(v@),
            None => path_file_name(p@) is None,
        },
{
    proof {
        reveal_strlit("..");
        reveal_strlit(".");
    }
    let mut j = p.len();
    assert(p@.take(j as int) =~= p@);
    loop
        invariant
            j <= p.len(),
            trim_tail(p@) == trim_tail(p@.take(j as int)),
        ensures
            j <= p.len(),
            trim_tail(p@) == p@.take(j as int),
        decreases j,
    {
        if j > 0 && p[j - 1] == '/' {
            assert(p@.take(j as int).drop_last() =~= p@.take(j - 1));
            j = j - 1;
        } else if j >= 2 && p[j - 1] == '.' && p[j - 2] == '/' {
            assert(p@.take(j as int).drop_last() =~= p@.take(j - 1));
            j = j - 1;
        } else {
            assert(trim_tail(p@.take(j as int)) == p@.take(j as int));
            break;
        }
    }
    let t = copy_range(p, 0, j);
    assert(t@ =~= p@.take(j as int));
    let name = file_name_exec(t.as_slice());
    let dots = vec!['.', '.'];
    assert(dots@ =~= ".."@);
    let dot = vec!['.'];
    assert(dot@ =~= "."@);
    if name.len() == 0 || crate::text::chars_eq(name.as_slice(), dots.as_slice())
        || crate::text::chars_eq(name.as_slice(), dot.as_slice()) {
        None
    } else {
        Some(name)
    }
}

pub fn path_stem_exec(p: &[char]) -> (r: Option<Vec<char>>)
    ensures
        match r {
            Some(v) => path_stem(p@) == Some(v@),
            None => path_stem(p@) is None,
        },
{
    match path_file_name_exec(p) {
        Some(name) => Some(stem_exec(name.as_slice())),
        None => None,
    }
}

pub fn parent_exec(p: &[char]) -> (r: Vec<char>)
    ensures
        r@ == parent(p@),
{
    proof {
        lemma_last_index(p@, '/');
    }
    match last_index_exec(p, '/') {
        Some(k) => copy_range(p, 0, k),
        None => Vec::new(),
    }
}

pub fn file_name_exec(p: &[char]) -> (r: Vec<char>)
    ensures
        r@ == file_name(p@),
{
    proof {
        lemma_last_index(p@, '/');
    }
    let start = match last_index_exec(p, '/') {
        Some(k) => {
            assert(k < p.len());
            k + 1
        },
        None => 0,
    };
    let r = copy_range(p, start, p.len());
    assert(r@ =~= file_name(p@));
    r
}

pub fn stem_exec(name: &[char]) -> (r: Vec<char>)
    ensures
        r@ == stem(name@),
{
    proof {
        lemma_last_index(name@, '.');
        reveal_strlit("..");
    }
    let dots = vec!['.', '.'];
    assert(dots@ =~= ".."@);
    if crate::text::chars_eq(name, dots.as_slice()) {
        return copy_range(name, 0, name.len());
    }
    match last_index_exec(name, '.') {
        Some(d) => if d == 0 {
            let r = copy_range(name, 0, name.len());
            assert(r@ =~= name@);
            r
        } else {
            copy_range(name, 0, d)
        },
        None => {
            let r = copy_range(name, 0, name.len());
            assert(r@ =~= name@);
            r
        },
    }
}

pub fn with_extension_exec(p: &[char], ext: &str) -> (r: Vec<char>)
    ensures
        r@ == with_extension(p@, ext@),
{
    proof {
        lemma_last_index(p@, '/');
    }
    let name = file_name_exec(p);
    if name.len() == 0 {
        let r = copy_range(p, 0, p.len());
        assert(r@ =~= p@);
        return r;
    }
    let start = match last_index_exec(p, '/') {
        Some(k) => {
            assert(k < p.len());
            k + 1
        },
        None => 0,
    };
    let mut r = copy_range(p, 0, start);
    let s = stem_exec(name.as_slice());
    push_chars(&mut r, s.as_slice());
    r.push('.');
    push_str(&mut r, ext);
    assert(r@ =~= with_extension(p@, ext@));
    r
}

/// `/` ends a component, so it comes before every other character; other
/// characters are compared by code point.
pub open spec fn char_before(x: char, y: char) -> bool {
    if x == '/' {
        y != '/'
    } else if y == '/' {
        false
    } else {
        x < y
    }
}

/// `a` comes before `b` in the order of `Path`: component by component,
/// each compared character by character (a component before its extensions).
pub open spec fn path_lt(a: Seq<char>, b: Seq<char>) -> bool
    decreases a.len(),
{
    if a.len() == 0 {
        b.len() > 0
    } else if b.len() == 0 {
        false
    } else if a[0] == b[0] {
        path_lt(a.drop_first(), b.drop_first())
    } else {
        char_before(a[0], b[0])
    }
}

pub proof fn lemma_path_lt_irreflexive(a: Seq<char>)
    ensures
        !path_lt(a, a),
    decreases a.len(),
{
    if a.len() > 0 {
        lemma_path_lt_irreflexive(a.drop_first());
    }
}

pub proof fn lemma_path_lt_transitive(a: Seq<char>, b: Seq<char>, c: Seq<char>)
    requires
        path_lt(a, b),
        path_lt(b, c),
    ensures
        path_lt(a, c),
    decreases a.len(),
{
    if a.len() > 0 && b.len() > 0 && c.len() > 0 && a[0] == b[0] && b[0] == c[0] {
        lemma_path_lt_transitive(a.drop_first(), b.drop_first(), c.drop_first());
    }
}

pub proof fn lemma_path_lt_total(a: Seq<char>, b: Seq<char>)
    ensures
        a == b || path_lt(a, b) || path_lt(b, a),
    decreases a.len(),
{
    if a.len() > 0 && b.len() > 0 && a[0] == b[0] {
        lemma_path_lt_total(a.drop_first(), b.drop_first());
        if a.drop_first() == b.drop_first() {
            assert(a =~= seq![a[0]] + a.drop_first());
            assert(b =~= seq![b[0]] + b.drop_first());
        }
    } else if a.len() == 0 && b.len() == 0 {
        assert(a =~= b);
    } else if a.len() > 0 && b.len() > 0 {
        assert(a[0] != b[0]);
    }
}

pub proof fn lemma_path_lt_asymmetric(a: Seq<char>, b: Seq<char>)
    requires
        path_lt(a, b),
    ensures
        !path_lt(b, a),
{
    if path_lt(b, a) {
        lemma_path_lt_transitive(a, b, a);
        lemma_path_lt_irreflexive(a);
    }
}

pub fn path_lt_exec(a: &[char], b: &[char]) -> (r: bool)
    ensures
        r == path_lt(a@, b@),
{
    let mut i: usize = 0;
    assert(a@.skip(0) =~= a@);
    assert(b@.skip(0) =~= b@);
    while i < a.len() && i < b.len() && a[i] == b[i]
        invariant
            i <= a.len(),
            i <= b.len(),
            path_lt(a@, b@) == path_lt(a@.skip(i as int), b@.skip(i as int)),
        decreases a.len() - i,
    {
        assert(a@.skip(i as int).drop_first() =~= a@.skip(i + 1));
        assert(b@.skip(i as int).drop_first() =~= b@.skip(i + 1));
        i = i + 1;
    }
    if i == a.len() {
        assert(a@.skip(i as int).len() == 0);
        i < b.len()
    } else if i == b.len() {
        assert(b@.skip(i as int).len() == 0);
        false
    } else {
        let x = a[i];
        let y = b[i];
        assert(a@.skip(i as int)[0] == x);
        assert(b@.skip(i as int)[0] == y);
        if x == '/' {
            y != '/'
        } else if y == '/' {
            false
        } else {
            x < y
        }
    }
}

/// Every path of `s` comes before the ones after it: sorted, no duplicates.
pub open spec fn strictly_sorted(s: Seq<Seq<char>>) -> bool {
    forall|i: int, j: int| 0 <= i < j < s.len() ==> path_lt(#[trigger] s[i], #[trigger] s[j])
}

/// The views of a vector of paths.
pub open spec fn views(v: Seq<Vec<char>>) -> Seq<Seq<char>> {
    v.map_values(|p: Vec<char>| p@)
}

/// Adds `x` to the strictly sorted `v` at its place, unless it is there already.
pub fn insert_sorted(v: &mut Vec<Vec<char>>, x: Vec<char>)
    requires
        strictly_sorted(views(old(v)@)),
    ensures
        strictly_sorted(views(final(v)@)),
        forall|y: Seq<char>|
            views(final(v)@).contains(y) <==> (views(old(v)@).contains(y) || y == x@),
{
    let ghost s = views(v@);
    let mut p: usize = 0;
    while p < v.len() && path_lt_exec(v[p].as_slice(), x.as_slice())
        invariant
            p <= v.len(),
            s == views(v@),
            strictly_sorted(s),
            forall|k: int| 0 <= k < p ==> path_lt(#[trigger] s[k], x@),
        decreases v.len() - p,
    {
        assert(s[p as int] == v@[p as int]@);
        p = p + 1;
    }
    if p < v.len() && crate::text::chars_eq(v[p].as_slice(), x.as_slice()) {
        assert(s[p as int] == x@);
        return ;
    }
    proof {
        if p < s.len() {
            assert(s[p as int] == v@[p as int]@);
            lemma_path_lt_total(s[p as int], x@);
            assert forall|k: int| p <= k < s.len() implies path_lt(x@, #[trigger] s[k]) by {
                if k > p {
                    lemma_path_lt_transitive(x@, s[p as int], s[k]);
                }
            }
        }
    }
    let ghost xv = x@;
    v.insert(p, x);
    let ghost t = views(v@);
    assert(t =~= s.insert(p as int, xv));
    assert forall|i: int, j: int| 0 <= i < j < t.len() implies path_lt(
        #[trigger] t[i],
        #[trigger] t[j],
    ) by {
        if j < p {
        } else if i < p && j == p {
        } else if i < p && j > p {
            assert(path_lt(s[i], xv));
            lemma_path_lt_transitive(s[i], xv, s[j - 1]);
        } else if i == p {
        } else {
        }
    }
    assert forall|y: Seq<char>| t.contains(y) <==> (s.contains(y) || y == xv) by {
        if t.contains(y) {
            let k = choose|k: int| 0 <= k < t.len() && t[k] == y;
            if k < p {
                assert(s[k] == y);
            } else if k > p {
                assert(s[k - 1] == y);
            }
        }
        if s.contains(y) {
            let k = choose|k: int| 0 <= k < s.len() && s[k] == y;
            if k < p {
                assert(t[k] == y);
            } else {
                assert(t[k + 1] == y);
            }
        }
        if y == xv {
            assert(t[p as int] == y);
        }
    }
}

/// Two strictly sorted sequences of paths that hold the same paths are equal:
/// the order of `Path` leaves no choice.
pub proof fn lemma_sorted_unique(a: Seq<Seq<char>>, b: Seq<Seq<char>>)
    requires
        strictly_sorted(a),
        strictly_sorted(b),
        forall|y: Seq<char>| a.contains(y) <==> b.contains(y),
    ensures
        a == b,
    decreases a.len() + b.len(),
{
    if a.len() == 0 && b.len() == 0 {
        assert(a =~= b);
    } else if a.len() == 0 {
        assert(b.contains(b[0]));
    } else if b.len() == 0 {
        assert(a.contains(a[0]));
    } else {
        assert(a.contains(a[0]));
        assert(b.contains(b[0]));
        let ia = choose|k: int| 0 <= k < a.len() && a[k] == b[0];
        let ib = choose|k: int| 0 <= k < b.len() && b[k] == a[0];
        if ia > 0 {
            assert(path_lt(a[0], a[ia]));
            if ib > 0 {
                assert(path_lt(b[0], b[ib]));
                lemma_path_lt_asymmetric(a[0], b[0]);
            } else {
                lemma_path_lt_irreflexive(a[0]);
            }
        } else {
            assert(a[0] == b[0]);
        }
        assert(a[0] == b[0]);
        let a1 = a.drop_first();
        let b1 = b.drop_first();
        assert forall|y: Seq<char>| a1.contains(y) <==> b1.contains(y) by {
            if a1.contains(y) {
                let k = choose|k: int| 0 <= k < a1.len() && a1[k] == y;
                assert(path_lt(a[0], a[k + 1]));
                assert(b.contains(y));
                let m = choose|m: int| 0 <= m < b.len() && b[m] == y;
                if m == 0 {
                    lemma_path_lt_irreflexive(a[0]);
                }
                assert(b1[m - 1] == y);
            }
            if b1.contains(y) {
                let k = choose|k: int| 0 <= k < b1.len() && b1[k] == y;
                assert(path_lt(b[0], b[k + 1]));
                assert(a.contains(y));
                let m = choose|m: int| 0 <= m < a.len() && a[m] == y;
                if m == 0 {
                    lemma_path_lt_irreflexive(b[0]);
                }
                assert(a1[m - 1] == y);
            }
        }
        lemma_sorted_unique(a1, b1);
        assert(a =~= seq![a[0]] + a1);
        assert(b =~= seq![b[0]] + b1);
    }
}

proof fn lemma_last_index_at(s: Seq<char>, c: char, k: int)
    requires
        -1 <= k < s.len(),
        k >= 0 ==> s[k] == c,
        forall|j: int| k < j < s.len() ==> s[j] != c,
    ensures
        last_index(s, c) == k,
    decreases s.len(),
{
    if s.len() > 0 && k < s.len() - 1 {
        assert(s.last() != c);
        assert forall|j: int| k < j < s.drop_last().len() implies s.drop_last()[j] != c by {
            assert(s.drop_last()[j] == s[j]);
        }
        lemma_last_index_at(s.drop_last(), c, k);
    }
}

/// Replacing the extension keeps a file in its folder (`ext` naming no folder).
pub proof fn lemma_with_extension_keeps_folder(p: Seq<char>, ext: Seq<char>)
    requires
        file_name(p).len() > 0,
        !ext.contains('/'),
    ensures
        parent(with_extension(p, ext)) == parent(p),
        file_name(with_extension(p, ext)) == stem(file_name(p)) + seq!['.'] + ext,
{
    lemma_last_index(p, '/');
    let k = last_index(p, '/');
    let name = file_name(p);
    let d = last_index(name, '.');
    lemma_last_index(name, '.');
    let st = stem(name);
    assert forall|j: int| 0 <= j < st.len() implies st[j] != '/' by {
        assert(st[j] == name[j]);
        assert(name[j] == p[k + 1 + j]);
    }
    let r = with_extension(p, ext);
    let head = p.take(k + 1);
    let tail = st + seq!['.'] + ext;
    assert(r == head + tail);
    assert forall|j: int| k < j < r.len() implies r[j] != '/' by {
        let m = j - (k + 1);
        assert(r[j] == tail[m]);
        if m < st.len() {
            assert(tail[m] == st[m]);
        } else if m > st.len() {
            assert(tail[m] == ext[m - st.len() - 1]);
            if ext[m - st.len() - 1] == '/' {
                assert(ext.contains('/'));
            }
        }
    }
    if k >= 0 {
        assert(r[k] == p[k]);
    }
    lemma_last_index_at(r, '/', k);
    if k >= 0 {
        assert(r.take(k) =~= p.take(k));
    }
    assert(r.skip(k + 1) =~= tail);
}

} // verus!
