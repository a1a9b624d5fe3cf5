//! Character-level text operations with specifications: whitespace
//! trimming, prefix and suffix tests and stripping, splitting, line
//! splitting, joining and replacement.

use vstd::prelude::*;

verus! {

/// Unicode `White_Space` characters, as `char::is_whitespace` accepts them.
pub open spec fn is_ws(c: char) -> bool {
    ||| ('\u{9}' <= c && c <= '\u{d}')
    ||| c == ' '
    ||| c == '\u{85}'
    ||| c == '\u{a0}'
    ||| c == '\u{1680}'
    ||| ('\u{2000}' <= c && c <= '\u{200a}')
    ||| c == '\u{2028}'
    ||| c == '\u{2029}'
    ||| c == '\u{202f}'
    ||| c == '\u{205f}'
    ||| c == '\u{3000}'
}

/// Whether `c` is a Unicode whitespace character.
pub fn is_whitespace(c: char) -> (r: bool)
    ensures
        r == is_ws(c),
{
    ('\u{9}' <= c && c <= '\u{d}') || c == ' ' || c == '\u{85}' || c == '\u{a0}' || c
        == '\u{1680}' || ('\u{2000}' <= c && c <= '\u{200a}') || c == '\u{2028}' || c
        == '\u{2029}' || c == '\u{202f}' || c == '\u{205f}' || c == '\u{3000}'
}

/// `s` without its leading whitespace.
pub open spec fn trim_start(s: Seq<char>) -> Seq<char>
    decreases s.len(),
{
    if s.len() > 0 && is_ws(s[0]) {
        trim_start(s.drop_first())
    } else {
        s
    }
}

/// `s` without its trailing whitespace.
pub open spec fn trim_end(s: Seq<char>) -> Seq<char>
    decreases s.len(),
{
    if s.len() > 0 && is_ws(s.last()) {
        trim_end(s.drop_last())
    } else {
        s
    }
}

/// `s` without leading and trailing whitespace (`str::trim`).
pub open spec fn trim(s: Seq<char>) -> Seq<char> {
    trim_end(trim_start(s))
}

/// The characters of `s`, in order.
pub fn chars_of(s: &str) -> (r: Vec<char>)
    ensures
        r@ == s@,
{
    broadcast use vstd::string::group_string_axioms;

    let mut r: Vec<char> = Vec::new();
    for c in it: s.chars()
        invariant
            it.seq() == s@,
            r@ == it.seq().take(it.index() as int),
    {
        r.push(c);
    }
    r
}


/// `String::push`: appends `c` to the end of `s`.
#[verifier::external_body]
fn string_push(s: &mut String, c: char)
    ensures
        final(s)@ == old(s)@.push(c),
{
    s.push(c);
}

/// A `String` holding the characters `v`.
pub fn string_of(v: &[char]) -> (r: String)
    ensures
        r@ == v@,
{
    let mut r = String::new();
    let n = v.len();
    for i in 0..n
        invariant
            n == v@.len(),
            r@ == v@.take(i as int),
    {
        string_push(&mut r, v[i]);
        assert(v@.take(i + 1) =~= v@.take(i as int).push(v@[i as int]));
    }
    assert(v@.take(n as int) =~= v@);
    r
}

/// The characters of `v` from `start` up to `end`.
pub fn copy_range(v: &[char], start: usize, end: usize) -> (r: Vec<char>)
    requires
        start <= end <= v@.len(),
    ensures
        r@ == v@.subrange(start as int, end as int),
{
    let mut r: Vec<char> = Vec::new();
    let mut i = start;
    while i < end
        invariant
            start <= i <= end <= v@.len(),
            r@ == v@.subrange(start as int, i as int),
        decreases end - i,
    {
        r.push(v[i]);
        assert(v@.subrange(start as int, i + 1) =~= v@.subrange(start as int, i as int).push(
            v@[i as int],
        ));
        i = i + 1;
    }
    r
}

proof fn lemma_trim_start_skip(s: Seq<char>, i: int)
    requires
        0 <= i < s.len(),
        is_ws(s[i]),
    ensures
        trim_start(s.skip(i)) == trim_start(s.skip(i + 1)),
{
    assert(s.skip(i).drop_first() =~= s.skip(i + 1));
}

proof fn lemma_trim_end_sub(s: Seq<char>, i: int, j: int)
    requires
        0 <= i < j <= s.len(),
        is_ws(s[j - 1]),
    ensures
        trim_end(s.subrange(i, j)) == trim_end(s.subrange(i, j - 1)),
{
    assert(s.subrange(i, j).drop_last() =~= s.subrange(i, j - 1));
}

/// The characters of `v` without leading and trailing whitespace.
pub fn trim_chars(v: &[char]) -> (r: Vec<char>)
    ensures
        r@ == trim(v@),
{
    let n = v.len();
    let mut i: usize = 0;
    assert(v@.skip(0) =~= v@);
    while i < n && is_whitespace(v[i])
        invariant
            i <= n == v@.len(),
            trim_start(v@) == trim_start(v@.skip(i as int)),
        decreases n - i,
    {
        proof {
            lemma_trim_start_skip(v@, i as int);
        }
        i = i + 1;
    }
    let mut j: usize = n;
    assert(v@.subrange(i as int, n as int) =~= v@.skip(i as int));
    while j > i && is_whitespace(v[j - 1])
        invariant
            i <= j <= n == v@.len(),
            trim_start(v@) == v@.skip(i as int),
            trim(v@) == trim_end(v@.subrange(i as int, j as int)),
        decreases j,
    {
        proof {
            lemma_trim_end_sub(v@, i as int, j as int);
        }
        j = j - 1;
    }
    copy_range(v, i, j)
}


/// Whether `p` occurs in `v` starting at position `i`.
pub fn matches_at(v: &[char], i: usize, p: &[char]) -> (r: bool)
    requires
        i <= v@.len(),
    ensures
        r == p@.is_prefix_of(v@.skip(i as int)),
{
    if p.len() > v.len() - i {
        return false;
    }
    let m = p.len();
    let n = v.len();
    for k in 0..m
        invariant
            m == p@.len(),
            n == v@.len(),
            i + m <= n,
            forall|j: int| 0 <= j < k ==> p@[j] == v@[i + j],
    {
        if p[k] != v[i + k] {
            return false;
        }
    }
    assert(p@ =~= v@.skip(i as int).subrange(0, m as int));
    true
}

/// `s` after removing `p` from its front as many times as it stands there
/// (`str::trim_start_matches` with a string pattern).
pub open spec fn strip_prefixes(s: Seq<char>, p: Seq<char>) -> Seq<char>
    decreases s.len(),
{
    if p.len() > 0 && p.is_prefix_of(s) {
        strip_prefixes(s.skip(p.len() as int), p)
    } else {
        s
    }
}

/// `s` after removing `p` from its end as many times as it stands there
/// (`str::trim_end_matches` with a string pattern).
pub open spec fn strip_suffixes(s: Seq<char>, p: Seq<char>) -> Seq<char>
    decreases s.len(),
{
    if p.len() > 0 && p.is_suffix_of(s) {
        strip_suffixes(s.take(s.len() - p.len()), p)
    } else {
        s
    }
}

/// Exec form of `strip_prefixes`.
pub fn strip_prefixes_chars(v: &[char], p: &[char]) -> (r: Vec<char>)
    ensures
        r@ == strip_prefixes(v@, p@),
{
    let n = v.len();
    let m = p.len();
    let mut i: usize = 0;
    assert(v@.skip(0) =~= v@);
    if m > 0 {
        while matches_at(v, i, p)
            invariant
                i <= n == v@.len(),
                m == p@.len(),
                m > 0,
                strip_prefixes(v@, p@) == strip_prefixes(v@.skip(i as int), p@),
            decreases n - i,
        {
            assert(v@.skip(i as int).skip(m as int) =~= v@.skip(i + m));
            i = i + m;
        }
    }
    copy_range(v, i, n)
}

/// Exec form of `strip_suffixes`.
pub fn strip_suffixes_chars(v: &[char], p: &[char]) -> (r: Vec<char>)
    ensures
        r@ == strip_suffixes(v@, p@),
{
    let n = v.len();
    let m = p.len();
    let mut j: usize = n;
    assert(v@.take(n as int) =~= v@);
    if m > 0 {
        while j >= m && matches_at(v, j - m, p)
            invariant
                j <= n == v@.len(),
                m == p@.len(),
                m > 0,
                strip_suffixes(v@, p@) == strip_suffixes(v@.take(j as int), p@),
            decreases j,
        {
            assert(p@.is_suffix_of(v@.take(j as int))) by {
                assert(v@.skip(j - m).subrange(0, m as int) =~= v@.take(j as int).subrange(
                    j - m,
                    j as int,
                ));
            }
            assert(v@.take(j as int).take(j - m) =~= v@.take(j - m));
            j = j - m;
        }
        proof {
            if j < m {
            } else {
                if p@.is_suffix_of(v@.take(j as int)) {
                    assert(v@.skip(j - m).subrange(0, m as int) =~= v@.take(j as int).subrange(
                        j - m,
                        j as int,
                    ));
                }
            }
        }
    }
    copy_range(v, 0, j)
}


/// The pieces of `s` between occurrences of `sep` (`str::split` with a
/// character): always at least one piece, empty pieces included.
pub open spec fn split_on(s: Seq<char>, sep: char) -> Seq<Seq<char>>
    decreases s.len(),
{
    if s.len() == 0 {
        seq![Seq::empty()]
    } else {
        let p = split_on(s.drop_last(), sep);
        if s.last() == sep {
            p.push(Seq::empty())
        } else {
            p.update(p.len() - 1, p.last().push(s.last()))
        }
    }
}

/// `split_on` never yields an empty list of pieces.
pub proof fn lemma_split_on_nonempty(s: Seq<char>, sep: char)
    ensures
        split_on(s, sep).len() >= 1,
    decreases s.len(),
{
    if s.len() > 0 {
        lemma_split_on_nonempty(s.drop_last(), sep);
    }
}

/// The deep view of a character vector is its view.
pub proof fn lemma_chars_deep_view(v: Vec<char>)
    ensures
        v.deep_view() == v@,
{
    assert(v.deep_view() =~= v@);
}

/// Exec form of `split_on`.
pub fn split_chars(v: &[char], sep: char) -> (r: Vec<Vec<char>>)
    ensures
        r.deep_view() == split_on(v@, sep),
{
    let n = v.len();
    let mut parts: Vec<Vec<char>> = Vec::new();
    let mut cur: Vec<char> = Vec::new();
    assert(v@.take(0) =~= Seq::<char>::empty());
    for i in 0..n
        invariant
            n == v@.len(),
            split_on(v@.take(i as int), sep) == parts.deep_view().push(cur@),
    {
        let c = v[i];
        proof {
            assert(v@.take(i + 1).drop_last() =~= v@.take(i as int));
            lemma_split_on_nonempty(v@.take(i as int), sep);
        }
        if c == sep {
            let ghost before = parts.deep_view();
            let done = cur;
            proof {
                lemma_chars_deep_view(done);
            }
            parts.push(done);
            cur = Vec::new();
            assert(parts.deep_view() =~= before.push(done@));
            assert(split_on(v@.take(i + 1), sep) =~= parts.deep_view().push(cur@));
        } else {
            let ghost before_cur = cur@;
            cur.push(c);
            assert(split_on(v@.take(i + 1), sep) =~= parts.deep_view().push(cur@));
        }
    }
    assert(v@.take(n as int) =~= v@);
    let ghost before = parts.deep_view();
    proof {
        lemma_chars_deep_view(cur);
    }
    parts.push(cur);
    assert(parts.deep_view() =~= before.push(cur@));
    parts
}

/// `l` without one trailing carriage return.
pub open spec fn strip_cr(l: Seq<char>) -> Seq<char> {
    if l.len() > 0 && l.last() == '\r' {
        l.drop_last()
    } else {
        l
    }
}

/// The lines of `s` as `str::lines` gives them: split at `'\n'`, a `'\r'`
/// right before a `'\n'` dropped, and no empty last line after a final
/// line ending.
pub open spec fn lines_of(s: Seq<char>) -> Seq<Seq<char>> {
    let p = split_on(s, '\n');
    let head = p.drop_last().map_values(|l: Seq<char>| strip_cr(l));
    if p.last().len() == 0 {
        head
    } else {
        head.push(p.last())
    }
}

/// Exec form of `lines_of`.
pub fn lines_chars(v: &[char]) -> (r: Vec<Vec<char>>)
    ensures
        r.deep_view() == lines_of(v@),
{
    let pieces = split_chars(v, '\n');
    proof {
        lemma_split_on_nonempty(v@, '\n');
    }
    let ghost p = pieces.deep_view();
    let k = pieces.len() - 1;
    let mut r: Vec<Vec<char>> = Vec::new();
    for i in 0..k
        invariant
            k + 1 == pieces@.len(),
            p == pieces.deep_view(),
            r.deep_view() =~= p.take(i as int).map_values(|l: Seq<char>| strip_cr(l)),
    {
        let piece = &pieces[i];
        let m = piece.len();
        let line = if m > 0 && piece[m - 1] == '\r' {
            copy_range(piece.as_slice(), 0, m - 1)
        } else {
            copy_range(piece.as_slice(), 0, m)
        };
        let ghost before = r.deep_view();
        proof {
            lemma_chars_deep_view(*piece);
            lemma_chars_deep_view(line);
            assert(piece@ == p[i as int]);
            assert(piece@.subrange(0, m as int) =~= piece@);
        }
        r.push(line);
        assert(r.deep_view() =~= before.push(line@));
        assert(p.take(i + 1) =~= p.take(i as int).push(p[i as int]));
    }
    assert(p.take(k as int) =~= p.drop_last());
    let last = &pieces[k];
    if last.len() > 0 {
        let l = copy_range(last.as_slice(), 0, last.len());
        let ghost before = r.deep_view();
        proof {
            lemma_chars_deep_view(*last);
            lemma_chars_deep_view(l);
        }
        assert(last@.subrange(0, last@.len() as int) =~= last@);
        r.push(l);
        assert(r.deep_view() =~= before.push(l@));
    }
    r
}


/// Appends the characters `v` to `out`.
pub fn push_all(out: &mut Vec<char>, v: &[char])
    ensures
        final(out)@ == old(out)@ + v@,
{
    let n = v.len();
    for i in 0..n
        invariant
            n == v@.len(),
            out@ == old(out)@ + v@.take(i as int),
    {
        out.push(v[i]);
        assert(v@.take(i + 1) =~= v@.take(i as int).push(v@[i as int]));
    }
    assert(v@.take(n as int) =~= v@);
}

/// The pieces `list` with `sep` between each two of them (`slice::join`).
pub open spec fn join(list: Seq<Seq<char>>, sep: Seq<char>) -> Seq<char>
    decreases list.len(),
{
    if list.len() == 0 {
        Seq::empty()
    } else if list.len() == 1 {
        list[0]
    } else {
        join(list.drop_last(), sep) + sep + list.last()
    }
}

/// Exec form of `join`.
pub fn join_chars(list: &Vec<Vec<char>>, sep: &[char]) -> (r: Vec<char>)
    ensures
        r@ == join(list.deep_view(), sep@),
{
    let ghost l = list.deep_view();
    let n = list.len();
    let mut r: Vec<char> = Vec::new();
    for i in 0..n
        invariant
            n == list@.len(),
            l == list.deep_view(),
            r@ == join(l.take(i as int), sep@),
    {
        proof {
            lemma_chars_deep_view(list@[i as int]);
            assert(l.take(i + 1).drop_last() =~= l.take(i as int));
        }
        if i > 0 {
            push_all(&mut r, sep);
        }
        push_all(&mut r, list[i].as_slice());
        proof {
            if i == 0 {
                assert(r@ =~= l.take(1)[0]);
            }
        }
    }
    assert(l.take(n as int) =~= l);
    r
}

/// `s` with every occurrence of the non-empty pattern `f`, taken from left
/// to right without overlap, replaced by `t` (`str::replace`).
pub open spec fn replace(s: Seq<char>, f: Seq<char>, t: Seq<char>) -> Seq<char>
    recommends
        f.len() > 0,
    decreases s.len(),
{
    if s.len() == 0 || f.len() == 0 {
        s
    } else if f.is_prefix_of(s) {
        t + replace(s.skip(f.len() as int), f, t)
    } else {
        seq![s[0]] + replace(s.drop_first(), f, t)
    }
}

/// Exec form of `replace`.
pub fn replace_chars(v: &[char], f: &[char], t: &[char]) -> (r: Vec<char>)
    requires
        f@.len() > 0,
    ensures
        r@ == replace(v@, f@, t@),
{
    let n = v.len();
    let m = f.len();
    let mut out: Vec<char> = Vec::new();
    let mut i: usize = 0;
    assert(v@.skip(0) =~= v@);
    while i < n
        invariant
            i <= n == v@.len(),
            m == f@.len() > 0,
            replace(v@, f@, t@) == out@ + replace(v@.skip(i as int), f@, t@),
        decreases n - i,
    {
        if matches_at(v, i, f) {
            assert(v@.skip(i as int).skip(m as int) =~= v@.skip(i + m));
            let ghost before = out@;
            push_all(&mut out, t);
            assert(before + (t@ + replace(v@.skip(i + m), f@, t@)) =~= out@ + replace(
                v@.skip(i + m),
                f@,
                t@,
            ));
            i = i + m;
        } else {
            assert(v@.skip(i as int).drop_first() =~= v@.skip(i + 1));
            let ghost before = out@;
            out.push(v[i]);
            assert(before + (seq![v@[i as int]] + replace(v@.skip(i + 1), f@, t@)) =~= out@
                + replace(v@.skip(i + 1), f@, t@));
            i = i + 1;
        }
    }
    assert(replace(v@.skip(n as int), f@, t@) == Seq::<char>::empty());
    assert(out@ + Seq::<char>::empty() =~= out@);
    out
}


/// Whether `a` and `b` hold the same characters.
pub fn eq_chars(a: &[char], b: &[char]) -> (r: bool)
    ensures
        r == (a@ == b@),
{
    if a.len() != b.len() {
        return false;
    }
    let r = matches_at(a, 0, b);
    assert(a@.skip(0) =~= a@);
    proof {
        if r {
            assert(b@ =~= a@);
        }
    }
    r
}

/// Whether `p` is a prefix of `v` (`str::starts_with`).
pub fn starts_with_chars(v: &[char], p: &[char]) -> (r: bool)
    ensures
        r == p@.is_prefix_of(v@),
{
    assert(v@.skip(0) =~= v@);
    matches_at(v, 0, p)
}

/// Whether `p` is a suffix of `v` (`str::ends_with`).
pub fn ends_with_chars(v: &[char], p: &[char]) -> (r: bool)
    ensures
        r == p@.is_suffix_of(v@),
{
    if p.len() > v.len() {
        return false;
    }
    let k = v.len() - p.len();
    let r = matches_at(v, k, p);
    assert(v@.skip(k as int).subrange(0, p@.len() as int) =~= v@.subrange(k as int, v@.len() as int));
    r
}


/// The value after the key `key` in `line`: every leading repetition of the
/// key removed, then the surrounding whitespace.
pub fn key_value_chars(line: &[char], key: &[char]) -> (r: Vec<char>)
    ensures
        r@ == trim(strip_prefixes(line@, key@)),
{
    let rest = strip_prefixes_chars(line, key);
    trim_chars(rest.as_slice())
}


/// `p` occurs in `s`, at some position.
pub open spec fn occurs_in(p: Seq<char>, s: Seq<char>) -> bool {
    exists|i: int| 0 <= i <= s.len() && #[trigger] p.is_prefix_of(s.skip(i))
}

/// The first character of a replacement result.
proof fn lemma_replace_first(s: Seq<char>, f: Seq<char>, t: Seq<char>)
    requires
        s.len() > 0,
        f.len() > 0,
        t.len() > 0,
    ensures
        replace(s, f, t).len() > 0,
        replace(s, f, t)[0] == if f.is_prefix_of(s) {
            t[0]
        } else {
            s[0]
        },
{
}

/// Replacing a two-character pattern by a two-character text that can
/// start no new occurrence leaves no occurrence of the pattern.
pub proof fn lemma_replace_leaves_no_pattern(s: Seq<char>, f: Seq<char>, t: Seq<char>)
    requires
        f.len() == 2,
        t.len() == 2,
        t[0] != f[0],
        t[1] != f[0],
        t[0] != f[1],
    ensures
        !occurs_in(f, replace(s, f, t)),
    decreases s.len(),
{
    let r = replace(s, f, t);
    if s.len() == 0 {
        assert forall|i: int| 0 <= i <= r.len() implies !#[trigger] f.is_prefix_of(r.skip(i)) by {}
    } else if f.is_prefix_of(s) {
        let rest = replace(s.skip(2), f, t);
        lemma_replace_leaves_no_pattern(s.skip(2), f, t);
        assert(r == t + rest);
        assert forall|i: int| 0 <= i <= r.len() implies !#[trigger] f.is_prefix_of(r.skip(i)) by {
            if f.is_prefix_of(r.skip(i)) {
                if i == 0 {
                    assert(r.skip(0)[0] == t[0]);
                } else if i == 1 {
                    assert(r.skip(1)[0] == t[1]);
                } else {
                    assert(r.skip(i) =~= rest.skip(i - 2));
                    assert(f.is_prefix_of(rest.skip(i - 2)));
                }
            }
        }
    } else {
        let rest = replace(s.drop_first(), f, t);
        lemma_replace_leaves_no_pattern(s.drop_first(), f, t);
        assert(r == seq![s[0]] + rest);
        assert forall|i: int| 0 <= i <= r.len() implies !#[trigger] f.is_prefix_of(r.skip(i)) by {
            if f.is_prefix_of(r.skip(i)) {
                if i == 0 {
                    assert(r[0] == f[0] && r[1] == f[1]);
                    assert(rest.len() > 0);
                    assert(s.len() >= 2);
                    lemma_replace_first(s.drop_first(), f, t);
                    if f.is_prefix_of(s.drop_first()) {
                        assert(rest[0] == t[0]);
                    } else {
                        assert(rest[0] == s[1]);
                        assert(f =~= s.subrange(0, 2));
                    }
                } else {
                    assert(r.skip(i) =~= rest.skip(i - 1));
                    assert(f.is_prefix_of(rest.skip(i - 1)));
                }
            }
        }
    }
}


/// What remains after trimming the end of `s` is a prefix of `s`.
pub proof fn lemma_trim_end_prefix(s: Seq<char>)
    ensures
        trim_end(s).is_prefix_of(s),
    decreases s.len(),
{
    if s.len() > 0 && is_ws(s.last()) {
        lemma_trim_end_prefix(s.drop_last());
        assert(trim_end(s).is_prefix_of(s)) by {
            assert(s.drop_last().subrange(0, trim_end(s).len() as int) =~= s.subrange(
                0,
                trim_end(s).len() as int,
            ));
        }
    } else {
        assert(s.subrange(0, s.len() as int) =~= s);
    }
}

/// A line that trims to a non-empty text starts with whitespace or with
/// the first character of that text.
pub proof fn lemma_trim_first_char(s: Seq<char>)
    requires
        trim(s).len() > 0,
    ensures
        is_ws(s[0]) || s[0] == trim(s)[0],
{
    if s.len() > 0 && is_ws(s[0]) {
    } else {
        assert(trim_start(s) == s);
        lemma_trim_end_prefix(s);
    }
}


/// Joining a list is joining its first `n` pieces and its remaining pieces,
/// with the separator between the two parts.
pub proof fn lemma_join_split(list: Seq<Seq<char>>, sep: Seq<char>, n: int)
    requires
        0 < n < list.len(),
    ensures
        join(list, sep) == join(list.take(n), sep) + sep + join(list.skip(n), sep),
    decreases list.len(),
{
    let p = list.drop_last();
    if n == list.len() - 1 {
        assert(list.take(n) =~= p);
        assert(list.skip(n) =~= seq![list.last()]);
    } else {
        lemma_join_split(p, sep, n);
        assert(p.take(n) =~= list.take(n));
        assert(list.skip(n).drop_last() =~= p.skip(n));
        assert(list.skip(n).last() == list.last());
        assert(join(list, sep) =~= join(list.take(n), sep) + sep + join(list.skip(n), sep));
    }
}


/// Joining the pieces of `s` split at `sep` with `sep` gives `s` back, and
/// no piece holds `sep`: the pieces are exactly the runs between the
/// separators.
pub proof fn lemma_join_split_on(s: Seq<char>, sep: char)
    ensures
        join(split_on(s, sep), seq![sep]) == s,
        forall|i: int|
            0 <= i < split_on(s, sep).len() ==> !(#[trigger] split_on(s, sep)[i]).contains(sep),
    decreases s.len(),
{
    if s.len() == 0 {
        assert(join(split_on(s, sep), seq![sep]) =~= s);
        assert forall|i: int|
            0 <= i < split_on(s, sep).len() implies !(#[trigger] split_on(s, sep)[i]).contains(sep) by {
            assert(split_on(s, sep)[i].len() == 0);
        }
    } else {
        let d = s.drop_last();
        let x = s.last();
        let p = split_on(d, sep);
        lemma_join_split_on(d, sep);
        lemma_split_on_nonempty(d, sep);
        let q = split_on(s, sep);
        if x == sep {
            assert(q == p.push(Seq::empty()));
            assert(q.drop_last() =~= p);
            assert(join(q, seq![sep]) =~= s);
            assert forall|i: int| 0 <= i < q.len() implies !(#[trigger] q[i]).contains(sep) by {
                if i < p.len() {
                    assert(q[i] == p[i]);
                } else {
                    assert(q[i].len() == 0);
                }
            }
        } else {
            let l = p.last().push(x);
            assert(q == p.update(p.len() - 1, l));
            if p.len() == 1 {
                assert(join(q, seq![sep]) == q[0]);
                assert(join(p, seq![sep]) == p[0]);
                assert(join(q, seq![sep]) =~= s);
            } else {
                let sp = seq![sep];
                assert(q.drop_last() =~= p.drop_last());
                assert(q.last() == l);
                assert(join(q, sp) == join(q.drop_last(), sp) + sp + q.last());
                assert(join(p, sp) == join(p.drop_last(), sp) + sp + p.last());
                assert(s =~= join(p, sp).push(x));
                assert(join(q, sp) =~= join(p, sp).push(x));
                assert(join(q, seq![sep]) =~= s);
            }
            assert forall|i: int| 0 <= i < q.len() implies !(#[trigger] q[i]).contains(sep) by {
                if i < p.len() - 1 {
                    assert(q[i] == p[i]);
                } else {
                    assert(q[i] == l);
                    assert(!p[i].contains(sep));
                    if l.contains(sep) {
                        let k = choose|k: int| 0 <= k < l.len() && l[k] == sep;
                        if k < p[i].len() {
                            assert(p[i][k] == sep);
                        }
                    }
                }
            }
        }
    }
}

} // verus!
