//! Character-level text primitives shared by the renderers.
//!
//! Text is handled as sequences of `char`s. Each operation here mirrors the
//! documented behaviour of the corresponding `str` method of the standard
//! library (`trim`, `lines`, `starts_with`, ...), stated as a spec function
//! and proved for the executable version.
use vstd::prelude::*;

verus! {

/// The characters of `s`, in order (`str::chars`).
#[verifier::external_body]
pub(crate) fn chars_of(s: &str) -> (v: Vec<char>)
    ensures
        v@ == s@,
{
    s.chars().collect()
}

/// The string made of the characters `v`, in order (`FromIterator<&char>` for `String`).
#[verifier::external_body]
pub(crate) fn string_of(v: &[char]) -> (s: String)
    ensures
        s@ == v@,
{
    v.iter().collect()
}

/// Unicode `White_Space`, the property that `char::is_whitespace` and `str::trim` use.
pub open spec fn is_white(c: char) -> bool {
    ||| ('\u{9}' <= c && c <= '\u{d}')
    ||| c == ' '
    ||| c == '\u{85}'
    ||| c == '\u{a0}'
    ||| c == '\u{1680}'
    ||| ('\u{2000}' <= c && c <= '\u{200a}')
    ||| c == '\u{2028}'
    ||| c == '\u{2029}'
    ||| c == '\u{202f}'
    ||| c == '\u{205f}'
    ||| c == '\u{3000}'
}

pub fn is_white_exec(c: char) -> (b: bool)
    ensures
        b == is_white(c),
{
    ('\u{9}' <= c && c <= '\u{d}') || c == ' ' || c == '\u{85}' || c == '\u{a0}' || c == '\u{1680}'
        || ('\u{2000}' <= c && c <= '\u{200a}') || c == '\u{2028}' || c == '\u{2029}' || c
        == '\u{202f}' || c == '\u{205f}' || c == '\u{3000}'
}

pub open spec fn is_ascii_upper(c: char) -> bool {
    'A' <= c && c <= 'Z'
}

/// `char::to_ascii_lowercase`.
pub open spec fn ascii_lower(c: char) -> char {
    if is_ascii_upper(c) {
        ((c as u32) + 32) as char
    } else {
        c
    }
}

pub fn ascii_lower_exec(c: char) -> (r: char)
    ensures
        r == ascii_lower(c),
{
    if 'A' <= c && c <= 'Z' {
        let code: u8 = (c as u8) + 32;
        (code as char)
    } else {
        c
    }
}

/// `char::is_ascii_alphanumeric`.
pub open spec fn is_ascii_alnum(c: char) -> bool {
    ('0' <= c && c <= '9') || ('a' <= c && c <= 'z') || ('A' <= c && c <= 'Z')
}

/// Leading whitespace removed (`str::trim_start`).
pub open spec fn trim_start(s: Seq<char>) -> Seq<char>
    decreases s.len(),
{
    if s.len() > 0 && is_white(s[0]) {
        trim_start(s.drop_first())
    } else {
        s
    }
}

/// Trailing whitespace removed (`str::trim_end`).
pub open spec fn trim_end(s: Seq<char>) -> Seq<char>
    decreases s.len(),
{
    if s.len() > 0 && is_white(s.last()) {
        trim_end(s.drop_last())
    } else {
        s
    }
}

/// Leading and trailing whitespace removed (`str::trim`).
pub open spec fn trim(s: Seq<char>) -> Seq<char> {
    trim_end(trim_start(s))
}

/// `p` is a prefix of `s` (`str::starts_with`).
pub open spec fn starts_with(s: Seq<char>, p: Seq<char>) -> bool {
    p.len() <= s.len() && s.take(p.len() as int) == p
}

/// `p` is a suffix of `s` (`str::ends_with`).
pub open spec fn ends_with(s: Seq<char>, p: Seq<char>) -> bool {
    p.len() <= s.len() && s.skip(s.len() - p.len()) == p
}

/// Every leading occurrence of the non-empty `p` removed (`str::trim_start_matches`).
pub open spec fn strip_all_prefix(s: Seq<char>, p: Seq<char>) -> Seq<char>
    decreases s.len(),
{
    if p.len() > 0 && starts_with(s, p) {
        strip_all_prefix(s.skip(p.len() as int), p)
    } else {
        s
    }
}

/// Equal up to ASCII case (`str::eq_ignore_ascii_case`).
pub open spec fn eq_ignore_ascii_case(a: Seq<char>, b: Seq<char>) -> bool {
    a.len() == b.len() && forall|i: int| 0 <= i < a.len() ==> ascii_lower(#[trigger] a[i]) == ascii_lower(b[i])
}

/// Index of the first `c` at or after `i`, or `s.len()` when there is none.
pub open spec fn find_char(s: Seq<char>, c: char, i: int) -> int
    decreases s.len() - i,
{
    if i < 0 || i >= s.len() {
        s.len() as int
    } else if s[i] == c {
        i
    } else {
        find_char(s, c, i + 1)
    }
}

pub proof fn lemma_find_char(s: Seq<char>, c: char, i: int)
    requires
        0 <= i <= s.len(),
    ensures
        i <= find_char(s, c, i) <= s.len(),
        find_char(s, c, i) < s.len() ==> s[find_char(s, c, i)] == c,
        forall|j: int| i <= j < find_char(s, c, i) ==> s[j] != c,
    decreases s.len() - i,
{
    if i < s.len() && s[i] != c {
        lemma_find_char(s, c, i + 1);
    }
}

/// One trailing `'\r'` removed.
pub open spec fn strip_cr(s: Seq<char>) -> Seq<char> {
    if s.len() > 0 && s.last() == '\r' {
        s.drop_last()
    } else {
        s
    }
}

/// The lines of `s.skip(p)` as `str::lines` yields them: split at `'\n'`, a
/// `'\r'` just before a `'\n'` dropped, and no empty line after a final `'\n'`.
pub open spec fn lines_from(s: Seq<char>, p: int) -> Seq<Seq<char>>
    decreases s.len() - p,
{
    if p < 0 || p >= s.len() {
        seq![]
    } else {
        let k = find_char(s, '\n', p);
        proof {
            lemma_find_char(s, '\n', p);
        }
        if k >= s.len() {
            seq![s.subrange(p, s.len() as int)]
        } else {
            seq![strip_cr(s.subrange(p, k))] + lines_from(s, k + 1)
        }
    }
}

/// `str::lines`.
pub open spec fn lines(s: Seq<char>) -> Seq<Seq<char>> {
    lines_from(s, 0)
}

/// Each line followed by `'\n'`, concatenated.
pub open spec fn unlines(ls: Seq<Seq<char>>) -> Seq<char>
    decreases ls.len(),
{
    if ls.len() == 0 {
        seq![]
    } else {
        unlines(ls.drop_last()) + ls.last() + seq!['\n']
    }
}

/// Decimal digits of `n`, without leading zeros (`usize` as `Display` formats it).
pub open spec fn decimal(n: nat) -> Seq<char>
    decreases n,
{
    if n < 10 {
        seq![digit(n)]
    } else {
        decimal(n / 10) + seq![digit(n % 10)]
    }
}

pub open spec fn digit(d: nat) -> char {
    (('0' as u32) + d) as char
}

pub fn decimal_exec(n: usize) -> (r: Vec<char>)
    ensures
        r@ == decimal(n as nat),
    decreases n,
{
    let d: u8 = (n % 10) as u8;
    let code: u8 = ('0' as u8) + d;
    let c = code as char;
    assert(c == digit((n % 10) as nat));
    if n < 10 {
        let mut r: Vec<char> = Vec::new();
        r.push(c);
        r
    } else {
        let mut r = decimal_exec(n / 10);
        r.push(c);
        r
    }
}

/// The characters of `s.subrange(a, b)`.
pub fn copy_range(s: &[char], a: usize, b: usize) -> (r: Vec<char>)
    requires
        a <= b <= s.len(),
    ensures
        r@ == s@.subrange(a as int, b as int),
{
    let mut r: Vec<char> = Vec::new();
    let mut i = a;
    while i < b
        invariant
            a <= i <= b <= s.len(),
            r@ == s@.subrange(a as int, i as int),
        decreases b - i,
    {
        r.push(s[i]);
        i = i + 1;
        assert(r@ =~= s@.subrange(a as int, i as int));
    }
    r
}

/// Appends the characters of `t` to `out`.
pub fn push_chars(out: &mut Vec<char>, t: &[char])
    ensures
        final(out)@ == old(out)@ + t@,
{
    let mut i: usize = 0;
    while i < t.len()
        invariant
            i <= t.len(),
            out@ == old(out)@ + t@.take(i as int),
        decreases t.len() - i,
    {
        out.push(t[i]);
        i = i + 1;
        assert(out@ =~= old(out)@ + t@.take(i as int));
    }
    assert(t@.take(t.len() as int) =~= t@);
}

/// Appends the characters of the string slice `t` to `out`.
pub fn push_str(out: &mut Vec<char>, t: &str)
    ensures
        final(out)@ == old(out)@ + t@,
{
    let cs = chars_of(t);
    push_chars(out, cs.as_slice());
}

pub fn trim_exec(s: &[char]) -> (r: Vec<char>)
    ensures
        r@ == trim(s@),
{
    let n = s.len();
    let mut i: usize = 0;
    assert(s@.skip(0) =~= s@);
    while i < n && is_white_exec(s[i])
        invariant
            i <= n == s.len(),
            trim_start(s@) == trim_start(s@.skip(i as int)),
        decreases n - i,
    {
        assert(s@.skip(i as int).drop_first() =~= s@.skip(i + 1));
        i = i + 1;
    }
    assert(trim_start(s@.skip(i as int)) == s@.skip(i as int));
    assert(s@.skip(i as int) =~= s@.subrange(i as int, n as int));
    let mut j: usize = n;
    while j > i && is_white_exec(s[j - 1])
        invariant
            i <= j <= n == s.len(),
            trim(s@) == trim_end(s@.subrange(i as int, j as int)),
        decreases j,
    {
        assert(s@.subrange(i as int, j as int).drop_last() =~= s@.subrange(i as int, j - 1));
        j = j - 1;
    }
    copy_range(s, i, j)
}

pub fn starts_with_exec(s: &[char], p: &[char]) -> (b: bool)
    ensures
        b == starts_with(s@, p@),
{
    if p.len() > s.len() {
        return false;
    }
    let mut i: usize = 0;
    while i < p.len()
        invariant
            i <= p.len() <= s.len(),
            forall|j: int| 0 <= j < i ==> s@[j] == p@[j],
        decreases p.len() - i,
    {
        if s[i] != p[i] {
            assert(s@.take(p.len() as int)[i as int] != p@[i as int]);
            return false;
        }
        i = i + 1;
    }
    assert(s@.take(p.len() as int) =~= p@);
    true
}

pub fn ends_with_exec(s: &[char], p: &[char]) -> (b: bool)
    ensures
        b == ends_with(s@, p@),
{
    if p.len() > s.len() {
        return false;
    }
    let off = s.len() - p.len();
    let mut i: usize = 0;
    while i < p.len()
        invariant
            i <= p.len() <= s.len(),
            off == s.len() - p.len(),
            forall|j: int| 0 <= j < i ==> s@[off + j] == p@[j],
        decreases p.len() - i,
    {
        if s[off + i] != p[i] {
            assert(s@.skip(off as int)[i as int] != p@[i as int]);
            return false;
        }
        i = i + 1;
    }
    assert(s@.skip(off as int) =~= p@);
    true
}

/// `s` with every leading occurrence of the non-empty `p` removed.
pub fn strip_all_prefix_exec(s: &[char], p: &[char]) -> (r: Vec<char>)
    requires
        p.len() > 0,
    ensures
        r@ == strip_all_prefix(s@, p@),
{
    let mut i: usize = 0;
    let mut rest = copy_range(s, 0, s.len());
    assert(s@.subrange(0, s.len() as int) =~= s@);
    while starts_with_exec(rest.as_slice(), p)
        invariant
            p.len() > 0,
            i <= s.len(),
            rest@ == s@.skip(i as int),
            strip_all_prefix(s@, p@) == strip_all_prefix(rest@, p@),
        decreases rest.len(),
    {
        assert(rest@.skip(p.len() as int) =~= s@.skip(i + p.len()));
        i = i + p.len();
        rest = copy_range(s, i, s.len());
        assert(s@.subrange(i as int, s.len() as int) =~= s@.skip(i as int));
    }
    rest
}

pub fn eq_ignore_ascii_case_exec(a: &[char], b: &[char]) -> (r: bool)
    ensures
        r == eq_ignore_ascii_case(a@, b@),
{
    if a.len() != b.len() {
        return false;
    }
    let mut i: usize = 0;
    while i < a.len()
        invariant
            i <= a.len() == b.len(),
            forall|j: int| 0 <= j < i ==> ascii_lower(#[trigger] a@[j]) == ascii_lower(b@[j]),
        decreases a.len() - i,
    {
        if ascii_lower_exec(a[i]) != ascii_lower_exec(b[i]) {
            return false;
        }
        i = i + 1;
    }
    true
}

/// The lines of `s` (`str::lines`).
pub fn split_lines(s: &[char]) -> (r: Vec<Vec<char>>)
    ensures
        r@.map_values(|l: Vec<char>| l@) == lines(s@),
{
    let n = s.len();
    let mut r: Vec<Vec<char>> = Vec::new();
    let mut p: usize = 0;
    while p < n
        invariant
            p <= n == s.len(),
            r@.map_values(|l: Vec<char>| l@) + lines_from(s@, p as int) == lines(s@),
        decreases n - p,
    {
        let ghost before = r@.map_values(|l: Vec<char>| l@);
        proof {
            lemma_find_char(s@, '\n', p as int);
        }
        let mut k = p;
        while k < n && s[k] != '\n'
            invariant
                p <= k <= n == s.len(),
                find_char(s@, '\n', p as int) == find_char(s@, '\n', k as int),
            decreases n - k,
        {
            k = k + 1;
        }
        if k >= n {
            let line = copy_range(s, p, n);
            r.push(line);
            assert(r@.map_values(|l: Vec<char>| l@) =~= before.push(s@.subrange(p as int, n as int)));
            p = n;
        } else {
            let mut e = k;
            if e > p && s[e - 1] == '\r' {
                e = e - 1;
            }
            let line = copy_range(s, p, e);
            assert(line@ == strip_cr(s@.subrange(p as int, k as int))) by {
                if k > p && s@[k - 1] == '\r' {
                    assert(s@.subrange(p as int, k as int).drop_last() =~= s@.subrange(
                        p as int,
                        k - 1,
                    ));
                }
            }
            r.push(line);
            assert(r@.map_values(|l: Vec<char>| l@) =~= before.push(line@));
            assert(seq![strip_cr(s@.subrange(p as int, k as int))] + lines_from(s@, k + 1)
                == lines_from(s@, p as int));
            assert(before + lines_from(s@, p as int) =~= before.push(line@) + lines_from(
                s@,
                k + 1,
            ));
            p = k + 1;
        }
    }
    assert(r@.map_values(|l: Vec<char>| l@) + lines_from(s@, p as int) =~= r@.map_values(
        |l: Vec<char>| l@,
    ));
    r
}

/// The HTML entity that stands for `c`, or `c` itself: `&`, `<`, `>` always,
/// `"` when `quotes` is set.
pub open spec fn escape_char(c: char, quotes: bool) -> Seq<char> {
    if c == '&' {
        "&amp;"@
    } else if c == '<' {
        "&lt;"@
    } else if c == '>' {
        "&gt;"@
    } else if quotes && c == '"' {
        "&quot;"@
    } else {
        seq![c]
    }
}

/// `s` with each character replaced by `escape_char`.
pub open spec fn escape(s: Seq<char>, quotes: bool) -> Seq<char>
    decreases s.len(),
{
    if s.len() == 0 {
        seq![]
    } else {
        escape(s.drop_last(), quotes) + escape_char(s.last(), quotes)
    }
}

/// Appends `escape(t, quotes)` to `out`.
pub fn push_escaped(out: &mut Vec<char>, t: &[char], quotes: bool)
    ensures
        final(out)@ == old(out)@ + escape(t@, quotes),
{
    let mut i: usize = 0;
    assert(t@.take(0) =~= Seq::<char>::empty());
    while i < t.len()
        invariant
            i <= t.len(),
            out@ == old(out)@ + escape(t@.take(i as int), quotes),
        decreases t.len() - i,
    {
        let c = t[i];
        let ghost before = out@;
        if c == '&' {
            push_str(out, "&amp;");
        } else if c == '<' {
            push_str(out, "&lt;");
        } else if c == '>' {
            push_str(out, "&gt;");
        } else if quotes && c == '"' {
            push_str(out, "&quot;");
        } else {
            out.push(c);
        }
        assert(out@ =~= before + escape_char(c, quotes));
        assert(t@.take(i + 1).drop_last() =~= t@.take(i as int));
        i = i + 1;
    }
    assert(t@.take(t.len() as int) =~= t@);
}

/// `escape(s, quotes)` as a string.
pub fn escape_str(s: &str, quotes: bool) -> (r: String)
    ensures
        r@ == escape(s@, quotes),
{
    let cs = chars_of(s);
    let mut out: Vec<char> = Vec::new();
    push_escaped(&mut out, cs.as_slice(), quotes);
    assert(out@ =~= escape(s@, quotes));
    string_of(out.as_slice())
}

/// Escaped text holds no markup character: no `<` or `>`, and no `"` when quotes are escaped.
pub proof fn lemma_escape_has_no_markup(s: Seq<char>, quotes: bool)
    ensures
        forall|i: int|
            0 <= i < escape(s, quotes).len() ==> {
                let c = #[trigger] escape(s, quotes)[i];
                &&& c != '<'
                &&& c != '>'
                &&& quotes ==> c != '"'
            },
    decreases s.len(),
{
    reveal_strlit("&amp;");
    reveal_strlit("&lt;");
    reveal_strlit("&gt;");
    reveal_strlit("&quot;");
    if s.len() > 0 {
        lemma_escape_has_no_markup(s.drop_last(), quotes);
        let e = escape(s, quotes);
        let p = escape(s.drop_last(), quotes);
        assert forall|i: int| 0 <= i < e.len() implies {
            let c = #[trigger] e[i];
            &&& c != '<'
            &&& c != '>'
            &&& quotes ==> c != '"'
        } by {
            if i < p.len() {
                assert(e[i] == p[i]);
            }
        }
    }
}

/// Leading characters that belong to `set` removed.
pub open spec fn trim_start_set(s: Seq<char>, set: Seq<char>) -> Seq<char>
    decreases s.len(),
{
    if s.len() > 0 && set.contains(s[0]) {
        trim_start_set(s.drop_first(), set)
    } else {
        s
    }
}

/// Trailing characters that belong to `set` removed.
pub open spec fn trim_end_set(s: Seq<char>, set: Seq<char>) -> Seq<char>
    decreases s.len(),
{
    if s.len() > 0 && set.contains(s.last()) {
        trim_end_set(s.drop_last(), set)
    } else {
        s
    }
}

/// Leading and trailing characters that belong to `set` removed (`str::trim_matches`).
pub open spec fn trim_set(s: Seq<char>, set: Seq<char>) -> Seq<char> {
    trim_end_set(trim_start_set(s, set), set)
}

pub fn contains_char(set: &[char], c: char) -> (b: bool)
    ensures
        b == set@.contains(c),
{
    let mut i: usize = 0;
    while i < set.len()
        invariant
            i <= set.len(),
            forall|j: int| 0 <= j < i ==> set@[j] != c,
        decreases set.len() - i,
    {
        if set[i] == c {
            assert(set@[i as int] == c);
            return true;
        }
        i = i + 1;
    }
    false
}

pub fn trim_set_exec(s: &[char], set: &[char]) -> (r: Vec<char>)
    ensures
        r@ == trim_set(s@, set@),
{
    let n = s.len();
    let mut i: usize = 0;
    assert(s@.skip(0) =~= s@);
    while i < n && contains_char(set, s[i])
        invariant
            i <= n == s.len(),
            trim_start_set(s@, set@) == trim_start_set(s@.skip(i as int), set@),
        decreases n - i,
    {
        assert(s@.skip(i as int).drop_first() =~= s@.skip(i + 1));
        i = i + 1;
    }
    assert(trim_start_set(s@.skip(i as int), set@) == s@.skip(i as int));
    assert(s@.skip(i as int) =~= s@.subrange(i as int, n as int));
    let mut j: usize = n;
    while j > i && contains_char(set, s[j - 1])
        invariant
            i <= j <= n == s.len(),
            trim_set(s@, set@) == trim_end_set(s@.subrange(i as int, j as int), set@),
        decreases j,
    {
        assert(s@.subrange(i as int, j as int).drop_last() =~= s@.subrange(i as int, j - 1));
        j = j - 1;
    }
    copy_range(s, i, j)
}

/// `pat` occurs in `s` at `j`.
pub open spec fn occurs_at(s: Seq<char>, pat: Seq<char>, j: int) -> bool {
    0 <= j && j + pat.len() <= s.len() && s.subrange(j, j + pat.len()) == pat
}

/// Index of the first occurrence of `pat` in `s` at or after `i`, or `s.len()` (`str::find`).
pub open spec fn find_seq(s: Seq<char>, pat: Seq<char>, i: int) -> int
    decreases s.len() - i,
{
    if i < 0 || i >= s.len() {
        s.len() as int
    } else if occurs_at(s, pat, i) {
        i
    } else {
        find_seq(s, pat, i + 1)
    }
}

pub proof fn lemma_find_seq(s: Seq<char>, pat: Seq<char>, i: int)
    requires
        0 <= i <= s.len(),
    ensures
        i <= find_seq(s, pat, i) <= s.len(),
        find_seq(s, pat, i) < s.len() ==> occurs_at(s, pat, find_seq(s, pat, i)),
        forall|j: int| i <= j < find_seq(s, pat, i) ==> !occurs_at(s, pat, j),
    decreases s.len() - i,
{
    if i < s.len() && !occurs_at(s, pat, i) {
        lemma_find_seq(s, pat, i + 1);
    }
}

pub fn occurs_at_exec(s: &[char], pat: &[char], j: usize) -> (b: bool)
    ensures
        b == occurs_at(s@, pat@, j as int),
{
    if j > s.len() || pat.len() > s.len() - j {
        return false;
    }
    let mut k: usize = 0;
    while k < pat.len()
        invariant
            k <= pat.len(),
            j + pat.len() <= s.len(),
            forall|m: int| 0 <= m < k ==> s@[j + m] == pat@[m],
        decreases pat.len() - k,
    {
        if s[j + k] != pat[k] {
            assert(s@.subrange(j as int, j + pat.len())[k as int] != pat@[k as int]);
            return false;
        }
        k = k + 1;
    }
    assert(s@.subrange(j as int, j + pat.len()) =~= pat@);
    true
}

/// `find_seq(s, pat, 0)`.
pub fn find_seq_exec(s: &[char], pat: &[char]) -> (r: usize)
    ensures
        r == find_seq(s@, pat@, 0),
{
    let mut i: usize = 0;
    while i < s.len() && !occurs_at_exec(s, pat, i)
        invariant
            i <= s.len(),
            find_seq(s@, pat@, 0) == find_seq(s@, pat@, i as int),
        decreases s.len() - i,
    {
        i = i + 1;
    }
    i
}

pub fn chars_eq(a: &[char], b: &[char]) -> (r: bool)
    ensures
        r == (a@ == b@),
{
    if a.len() != b.len() {
        return false;
    }
    let mut i: usize = 0;
    while i < a.len()
        invariant
            i <= a.len() == b.len(),
            forall|j: int| 0 <= j < i ==> a@[j] == b@[j],
        decreases a.len() - i,
    {
        if a[i] != b[i] {
            return false;
        }
        i = i + 1;
    }
    assert(a@ =~= b@);
    true
}

/// `unlines` of a line followed by more lines.
pub proof fn lemma_unlines_cons(x: Seq<char>, rest: Seq<Seq<char>>)
    ensures
        unlines(seq![x] + rest) == x + seq!['\n'] + unlines(rest),
    decreases rest.len(),
{
    if rest.len() == 0 {
        assert(seq![x] + rest =~= seq![x]);
        assert(seq![x].drop_last() =~= Seq::<Seq<char>>::empty());
        assert(unlines(Seq::<Seq<char>>::empty()) =~= Seq::<char>::empty());
        assert(unlines(seq![x]) =~= x + seq!['\n']);
    } else {
        lemma_unlines_cons(x, rest.drop_last());
        assert((seq![x] + rest).drop_last() =~= seq![x] + rest.drop_last());
        assert(unlines(seq![x] + rest) =~= x + seq!['\n'] + unlines(rest));
    }
}

/// `pat` found in `b` is found in `a + b`, shifted by `a`.
pub proof fn lemma_occurs_in_suffix(a: Seq<char>, b: Seq<char>, pat: Seq<char>, p: int)
    requires
        occurs_at(b, pat, p),
    ensures
        occurs_at(a + b, pat, a.len() + p),
{
    assert((a + b).subrange(a.len() + p, a.len() + p + pat.len()) =~= b.subrange(p, p + pat.len()));
}

/// `pat` found in `a` is found in `a + b`.
pub proof fn lemma_occurs_in_prefix(a: Seq<char>, b: Seq<char>, pat: Seq<char>, p: int)
    requires
        occurs_at(a, pat, p),
    ensures
        occurs_at(a + b, pat, p),
{
    assert((a + b).subrange(p, p + pat.len()) =~= a.subrange(p, p + pat.len()));
}

/// What `trim_set` leaves is a part of the text: it holds only characters of it.
pub proof fn lemma_trim_set_within(s: Seq<char>, set: Seq<char>)
    ensures
        forall|i: int|
            0 <= i < trim_set(s, set).len() ==> exists|j: int|
                0 <= j < s.len() && s[j] == #[trigger] trim_set(s, set)[i],
{
    let a = lemma_trim_start_set_suffix(s, set);
    let t = trim_start_set(s, set);
    let b = lemma_trim_end_set_prefix(t, set);
    assert forall|i: int| 0 <= i < trim_set(s, set).len() implies exists|j: int|
        0 <= j < s.len() && s[j] == #[trigger] trim_set(s, set)[i] by {
        assert(trim_set(s, set)[i] == t[i]);
        assert(t[i] == s[a + i]);
    }
}

proof fn lemma_trim_start_set_suffix(s: Seq<char>, set: Seq<char>) -> (k: int)
    ensures
        0 <= k <= s.len(),
        trim_start_set(s, set) == s.skip(k),
    decreases s.len(),
{
    if s.len() > 0 && set.contains(s[0]) {
        let k = lemma_trim_start_set_suffix(s.drop_first(), set);
        assert(s.drop_first().skip(k) =~= s.skip(k + 1));
        k + 1
    } else {
        assert(s.skip(0) =~= s);
        0
    }
}

proof fn lemma_trim_end_set_prefix(s: Seq<char>, set: Seq<char>) -> (k: int)
    ensures
        0 <= k <= s.len(),
        trim_end_set(s, set) == s.take(k),
    decreases s.len(),
{
    if s.len() > 0 && set.contains(s.last()) {
        let k = lemma_trim_end_set_prefix(s.drop_last(), set);
        assert(s.drop_last().take(k) =~= s.take(k));
        k
    } else {
        assert(s.take(s.len() as int) =~= s);
        s.len() as int
    }
}

} // verus!
