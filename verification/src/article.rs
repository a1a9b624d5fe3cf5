//! The article header (`ArticleConfig`), its parser, and the splitting of a
//! post into its header block and its body.

use vstd::prelude::*;
use crate::text::{
    chars_of, join, join_chars, key_value_chars, lines_chars, lines_of, split_chars, split_on,
    starts_with_chars, string_of, strip_prefixes, trim, trim_chars, eq_chars,
    lemma_chars_deep_view, copy_range, lemma_trim_first_char, lemma_join_split,
    lemma_join_split_on,
};
use crate::timestamp::{Timestamp, utc_datetime_from_str, parse_utc_datetime, current_time};

verus! {

/// The format of the `date:` value of a header.
pub const DATE_FORMAT: &'static str = "%Y-%m-%d %H:%M:%S";

/// Header key of the title.
pub const TITLE_KEY: &'static str = "title:";

/// Header key of the MathJax switch.
pub const MATHJAX_KEY: &'static str = "mathjax:";

/// Header key of the date.
pub const DATE_KEY: &'static str = "date:";

/// Header key of the comma-separated tags.
pub const TAGS_KEY: &'static str = "tags:";

/// Header key of the visibility switch.
pub const VISIBLE_KEY: &'static str = "visible:";

/// The only value that switches `mathjax` or `visible` on.
pub const TRUE_WORD: &'static str = "true";

/// The settings that a post declares in its header block.
#[derive(Debug, Clone, PartialEq, Eq, PartialOrd, Ord)]
pub struct ArticleConfig {
    pub title: String,
    pub mathjax: bool,
    pub date: Timestamp,
    pub tags: Vec<String>,
    pub visible: bool,
}

/// The mathematical value of an `ArticleConfig`.
pub struct ArticleConfigView {
    pub title: Seq<char>,
    pub mathjax: bool,
    pub date: Timestamp,
    pub tags: Seq<Seq<char>>,
    pub visible: bool,
}

impl View for ArticleConfig {
    type V = ArticleConfigView;

    open spec fn view(&self) -> ArticleConfigView {
        ArticleConfigView {
            title: self.title@,
            mathjax: self.mathjax,
            date: self.date,
            tags: self.tags.deep_view(),
            visible: self.visible,
        }
    }
}

/// The settings before any header line is read: no title, no MathJax, the
/// given date, no tags, visible.
pub open spec fn initial_config(now: Timestamp) -> ArticleConfigView {
    ArticleConfigView {
        title: Seq::empty(),
        mathjax: false,
        date: now,
        tags: Seq::empty(),
        visible: true,
    }
}

/// The value of a header line after its key: every leading repetition of
/// the key removed, then the whitespace around it.
pub open spec fn key_value(line: Seq<char>, key: Seq<char>) -> Seq<char> {
    trim(strip_prefixes(line, key))
}

/// A line that sets the title.
pub open spec fn is_title_line(line: Seq<char>) -> bool {
    TITLE_KEY@.is_prefix_of(line)
}

/// A line that sets the MathJax switch.
pub open spec fn is_mathjax_line(line: Seq<char>) -> bool {
    !is_title_line(line) && MATHJAX_KEY@.is_prefix_of(line)
}

/// A line that sets the date.
pub open spec fn is_date_line(line: Seq<char>) -> bool {
    !is_title_line(line) && !MATHJAX_KEY@.is_prefix_of(line) && DATE_KEY@.is_prefix_of(line)
}

/// A line that sets the tags.
pub open spec fn is_tags_line(line: Seq<char>) -> bool {
    !is_title_line(line) && !MATHJAX_KEY@.is_prefix_of(line) && !DATE_KEY@.is_prefix_of(line)
        && TAGS_KEY@.is_prefix_of(line)
}

/// A line that sets the visibility.
pub open spec fn is_visible_line(line: Seq<char>) -> bool {
    !is_title_line(line) && !MATHJAX_KEY@.is_prefix_of(line) && !DATE_KEY@.is_prefix_of(line)
        && !TAGS_KEY@.is_prefix_of(line) && VISIBLE_KEY@.is_prefix_of(line)
}

/// The instant that the value of a date line denotes, if chrono accepts it.
pub open spec fn date_value(line: Seq<char>) -> Option<(i64, u32)> {
    utc_datetime_from_str(key_value(line, DATE_KEY@), DATE_FORMAT@)
}

/// The tags of a tags line: its value split at commas, each piece trimmed.
pub open spec fn tags_value(line: Seq<char>) -> Seq<Seq<char>> {
    split_on(key_value(line, TAGS_KEY@), ',').map_values(|t: Seq<char>| trim(t))
}

/// The settings after reading one more header line.
pub open spec fn apply_header_line(c: ArticleConfigView, line: Seq<char>) -> ArticleConfigView {
    if is_title_line(line) {
        ArticleConfigView { title: key_value(line, TITLE_KEY@), ..c }
    } else if is_mathjax_line(line) {
        ArticleConfigView { mathjax: key_value(line, MATHJAX_KEY@) == TRUE_WORD@, ..c }
    } else if is_date_line(line) {
        ArticleConfigView {
            date: match date_value(line) {
                Some((s, n)) => Timestamp { secs: s, nanos: n },
                None => c.date,
            },
            ..c
        }
    } else if is_tags_line(line) {
        ArticleConfigView { tags: tags_value(line), ..c }
    } else if is_visible_line(line) {
        ArticleConfigView { visible: key_value(line, VISIBLE_KEY@) == TRUE_WORD@, ..c }
    } else {
        c
    }
}

/// The settings after reading `lines` in order, starting from `init`.
pub open spec fn config_of(lines: Seq<Seq<char>>, init: ArticleConfigView) -> ArticleConfigView
    decreases lines.len(),
{
    if lines.len() == 0 {
        init
    } else {
        apply_header_line(config_of(lines.drop_last(), init), lines.last())
    }
}

/// Every date line of `lines` holds a value that chrono accepts.
pub open spec fn header_dates_valid(lines: Seq<Seq<char>>) -> bool {
    forall|i: int| 0 <= i < lines.len() && is_date_line(#[trigger] lines[i]) ==> date_value(
        lines[i],
    ) is Some
}

/// The character sequences of a list of string slices.
pub open spec fn strs_view(lines: Seq<&str>) -> Seq<Seq<char>> {
    lines.map_values(|l: &str| l@)
}

/// The header settings in exec form, before their conversion to strings.
struct HeaderState {
    title: Vec<char>,
    mathjax: bool,
    date: Timestamp,
    tags: Vec<Vec<char>>,
    visible: bool,
}

impl HeaderState {
    spec fn model(&self) -> ArticleConfigView {
        ArticleConfigView {
            title: self.title@,
            mathjax: self.mathjax,
            date: self.date,
            tags: self.tags.deep_view(),
            visible: self.visible,
        }
    }
}

/// Each piece of `parts` without its surrounding whitespace.
fn trim_each(parts: &Vec<Vec<char>>) -> (r: Vec<Vec<char>>)
    ensures
        r.deep_view() == parts.deep_view().map_values(|t: Seq<char>| trim(t)),
{
    let n = parts.len();
    let mut r: Vec<Vec<char>> = Vec::new();
    for i in 0..n
        invariant
            n == parts@.len(),
            r.deep_view() =~= parts.deep_view().take(i as int).map_values(
                |t: Seq<char>| trim(t),
            ),
    {
        let t = trim_chars(parts[i].as_slice());
        let ghost before = r.deep_view();
        proof {
            lemma_chars_deep_view(parts@[i as int]);
            lemma_chars_deep_view(t);
        }
        r.push(t);
        assert(r.deep_view() =~= before.push(t@));
    }
    assert(parts.deep_view().take(n as int) =~= parts.deep_view());
    r
}

/// Strings holding the character vectors `parts`.
fn strings_of(parts: &Vec<Vec<char>>) -> (r: Vec<String>)
    ensures
        r.deep_view() == parts.deep_view(),
{
    let n = parts.len();
    let mut r: Vec<String> = Vec::new();
    for i in 0..n
        invariant
            n == parts@.len(),
            r.deep_view() =~= parts.deep_view().take(i as int),
    {
        let s = string_of(parts[i].as_slice());
        let ghost before = r.deep_view();
        proof {
            lemma_chars_deep_view(parts@[i as int]);
        }
        r.push(s);
        assert(r.deep_view() =~= before.push(s@));
    }
    assert(parts.deep_view().take(n as int) =~= parts.deep_view());
    r
}

/// Reads the header lines `lines` starting from the settings of
/// `initial_config(now)`.
pub(crate) fn config_of_char_lines(lines: &Vec<Vec<char>>, now: Timestamp) -> (r: ArticleConfig)
    requires
        header_dates_valid(lines.deep_view()),
    ensures
        r@ == config_of(lines.deep_view(), initial_config(now)),
{
    let ghost ls = lines.deep_view();
    let title_key = chars_of(TITLE_KEY);
    let mathjax_key = chars_of(MATHJAX_KEY);
    let date_key = chars_of(DATE_KEY);
    let tags_key = chars_of(TAGS_KEY);
    let visible_key = chars_of(VISIBLE_KEY);
    let true_word = chars_of(TRUE_WORD);
    let mut st = HeaderState {
        title: Vec::new(),
        mathjax: false,
        date: now,
        tags: Vec::new(),
        visible: true,
    };
    assert(st.model().tags =~= Seq::<Seq<char>>::empty());
    assert(st.model().title =~= Seq::<char>::empty());
    let n = lines.len();
    assert(ls.take(0) =~= Seq::<Seq<char>>::empty());
    for i in 0..n
        invariant
            n == lines@.len(),
            ls == lines.deep_view(),
            title_key@ == TITLE_KEY@,
            mathjax_key@ == MATHJAX_KEY@,
            date_key@ == DATE_KEY@,
            tags_key@ == TAGS_KEY@,
            visible_key@ == VISIBLE_KEY@,
            true_word@ == TRUE_WORD@,
            st.model() == config_of(ls.take(i as int), initial_config(now)),
            header_dates_valid(ls),
    {
        let line = lines[i].as_slice();
        proof {
            lemma_chars_deep_view(lines@[i as int]);
            assert(ls.take(i + 1).drop_last() =~= ls.take(i as int));
        }
        assert(line@ == ls[i as int]);
        if starts_with_chars(line, title_key.as_slice()) {
            st.title = key_value_chars(line, title_key.as_slice());
        } else if starts_with_chars(line, mathjax_key.as_slice()) {
            let v = key_value_chars(line, mathjax_key.as_slice());
            st.mathjax = eq_chars(v.as_slice(), true_word.as_slice());
        } else if starts_with_chars(line, date_key.as_slice()) {
            let v = string_of(key_value_chars(line, date_key.as_slice()).as_slice());
            match parse_utc_datetime(v.as_str(), DATE_FORMAT) {
                Some(t) => {
                    st.date = t;
                },
                None => {
                    assert(is_date_line(ls[i as int]));
                    assert(false);
                },
            }
        } else if starts_with_chars(line, tags_key.as_slice()) {
            let v = key_value_chars(line, tags_key.as_slice());
            let pieces = split_chars(v.as_slice(), ',');
            st.tags = trim_each(&pieces);
        } else if starts_with_chars(line, visible_key.as_slice()) {
            let v = key_value_chars(line, visible_key.as_slice());
            st.visible = eq_chars(v.as_slice(), true_word.as_slice());
        }
        assert(st.model() =~~= config_of(ls.take(i + 1), initial_config(now)));
    }
    assert(ls.take(n as int) =~= ls);
    let title = string_of(st.title.as_slice());
    let tags = strings_of(&st.tags);
    let c = ArticleConfig {
        title,
        mathjax: st.mathjax,
        date: st.date,
        tags,
        visible: st.visible,
    };
    assert(c@ =~~= st.model());
    c
}

/// Whether every date line of `lines` holds a value that chrono accepts.
pub(crate) fn header_dates_ok(lines: &Vec<Vec<char>>) -> (r: bool)
    ensures
        r == header_dates_valid(lines.deep_view()),
{
    let ghost ls = lines.deep_view();
    let title_key = chars_of(TITLE_KEY);
    let mathjax_key = chars_of(MATHJAX_KEY);
    let date_key = chars_of(DATE_KEY);
    let n = lines.len();
    for i in 0..n
        invariant
            n == lines@.len(),
            ls == lines.deep_view(),
            title_key@ == TITLE_KEY@,
            mathjax_key@ == MATHJAX_KEY@,
            date_key@ == DATE_KEY@,
            forall|j: int| 0 <= j < i && is_date_line(#[trigger] ls[j]) ==> date_value(ls[j]) is Some,
    {
        let line = lines[i].as_slice();
        proof {
            lemma_chars_deep_view(lines@[i as int]);
        }
        assert(line@ == ls[i as int]);
        if !starts_with_chars(line, title_key.as_slice()) && !starts_with_chars(
            line,
            mathjax_key.as_slice(),
        ) && starts_with_chars(line, date_key.as_slice()) {
            let v = string_of(key_value_chars(line, date_key.as_slice()).as_slice());
            if parse_utc_datetime(v.as_str(), DATE_FORMAT).is_none() {
                assert(is_date_line(ls[i as int]));
                return false;
            }
        }
    }
    true
}


/// Lines of text as character vectors.
pub fn char_lines_of_strs(lines: &[&str]) -> (r: Vec<Vec<char>>)
    ensures
        r.deep_view() == strs_view(lines@),
{
    let n = lines.len();
    let mut r: Vec<Vec<char>> = Vec::new();
    for i in 0..n
        invariant
            n == lines@.len(),
            r.deep_view() =~= strs_view(lines@).take(i as int),
    {
        let l = chars_of(lines[i]);
        let ghost before = r.deep_view();
        proof {
            lemma_chars_deep_view(l);
        }
        r.push(l);
        assert(r.deep_view() =~= before.push(l@));
    }
    assert(strs_view(lines@).take(n as int) =~= strs_view(lines@));
    r
}

impl ArticleConfig {
    /// The settings of a post without a header line, dated `now`.
    pub fn new_at(now: Timestamp) -> (r: ArticleConfig)
        ensures
            r@ == initial_config(now),
    {
        let r = ArticleConfig {
            title: String::new(),
            mathjax: false,
            date: now,
            tags: Vec::new(),
            visible: true,
        };
        assert(r.tags.deep_view() =~= Seq::<Seq<char>>::empty());
        assert(r@ =~~= initial_config(now));
        r
    }

    /// The settings of a post without a header line, dated at the current
    /// time.
    pub fn new() -> (r: ArticleConfig)
        ensures
            r@ == initial_config(r.date),
            r.date.nanos < 1_000_000_000,
    {
        ArticleConfig::new_at(current_time())
    }

    /// Reads the header lines `lines` in order, starting from
    /// `initial_config(now)`; `None` exactly when a date line holds a value
    /// that chrono rejects.
    pub fn try_from_lines_at(lines: &[&str], now: Timestamp) -> (r: Option<ArticleConfig>)
        ensures
            r is Some <==> header_dates_valid(strs_view(lines@)),
            r matches Some(c) ==> c@ == config_of(strs_view(lines@), initial_config(now)),
    {
        let ls = char_lines_of_strs(lines);
        if header_dates_ok(&ls) {
            Some(ArticleConfig::from_lines_at(lines, now))
        } else {
            None
        }
    }

    /// Reads the header lines `lines` in order, starting from
    /// `initial_config(now)`.
    pub fn from_lines_at(lines: &[&str], now: Timestamp) -> (r: ArticleConfig)
        requires
            header_dates_valid(strs_view(lines@)),
        ensures
            r@ == config_of(strs_view(lines@), initial_config(now)),
    {
        let ls = char_lines_of_strs(lines);
        config_of_char_lines(&ls, now)
    }

    /// Reads the header lines `lines` in order; the date is the current
    /// time unless a date line sets it. `None` exactly when a date line
    /// holds a value that chrono rejects.
    pub fn try_from_lines(lines: &[&str]) -> (r: Option<ArticleConfig>)
        ensures
            r is Some <==> header_dates_valid(strs_view(lines@)),
            r matches Some(c) ==> exists|t: Timestamp|
                t.nanos < 1_000_000_000 && c@ == config_of(strs_view(lines@), initial_config(t)),
    {
        let ls = char_lines_of_strs(lines);
        if header_dates_ok(&ls) {
            Some(ArticleConfig::from_lines(lines))
        } else {
            None
        }
    }

    /// Reads the header lines `lines` in order; the date is the current
    /// time unless a date line sets it.
    pub fn from_lines(lines: &[&str]) -> (r: ArticleConfig)
        requires
            header_dates_valid(strs_view(lines@)),
        ensures
            exists|t: Timestamp|
                t.nanos < 1_000_000_000 && r@ == config_of(strs_view(lines@), initial_config(t)),
    {
        let now = current_time();
        ArticleConfig::from_lines_at(lines, now)
    }
}

impl Default for ArticleConfig {
    /// The settings of `ArticleConfig::new`.
    fn default() -> (r: ArticleConfig)
        ensures
            r@ == initial_config(r.date),
            r.date.nanos < 1_000_000_000,
    {
        ArticleConfig::new()
    }
}


/// A line that opens or closes the header block.
pub const SEPARATOR: &'static str = "---";

/// Why a post could not be read or rendered.
#[derive(Debug, Clone, Copy, PartialEq, Eq, Structural)]
pub enum ArticleError {
    /// The post has fewer than two separator lines.
    InvalidMarkdown,
    /// A date line of the header holds a value that chrono rejects.
    InvalidDate,
    /// The pattern of the image shorthand does not compile.
    InvalidPattern,
    /// The page template does not render.
    InvalidTemplate,
}

/// A line that opens or closes the header block: `---` with any whitespace
/// around it.
pub open spec fn is_separator(line: Seq<char>) -> bool {
    trim(line) == SEPARATOR@
}

/// Reading a header in two parts is reading it whole: the settings after
/// `a + b` are those after `b`, starting from the settings after `a`. So a
/// later line for a key overrides an earlier one.
pub proof fn lemma_config_of_concat(
    a: Seq<Seq<char>>,
    b: Seq<Seq<char>>,
    init: ArticleConfigView,
)
    ensures
        config_of(a + b, init) == config_of(b, config_of(a, init)),
    decreases b.len(),
{
    if b.len() == 0 {
        assert(a + b =~= a);
    } else {
        assert((a + b).drop_last() =~= a + b.drop_last());
        lemma_config_of_concat(a, b.drop_last(), init);
    }
}

/// A line that one of the header keys starts.
pub open spec fn is_keyed_line(line: Seq<char>) -> bool {
    ||| TITLE_KEY@.is_prefix_of(line)
    ||| MATHJAX_KEY@.is_prefix_of(line)
    ||| DATE_KEY@.is_prefix_of(line)
    ||| TAGS_KEY@.is_prefix_of(line)
    ||| VISIBLE_KEY@.is_prefix_of(line)
}

/// The lines of `ls` that a header key starts, in order.
pub open spec fn keyed_lines(ls: Seq<Seq<char>>) -> Seq<Seq<char>>
    decreases ls.len(),
{
    if ls.len() == 0 {
        ls
    } else if is_keyed_line(ls.last()) {
        keyed_lines(ls.drop_last()).push(ls.last())
    } else {
        keyed_lines(ls.drop_last())
    }
}

/// The dates of a header are valid exactly when those of its shorter part
/// and of its last line are.
proof fn lemma_header_dates_valid_push(ls: Seq<Seq<char>>, line: Seq<char>)
    ensures
        header_dates_valid(ls.push(line)) == (header_dates_valid(ls) && (is_date_line(line)
            ==> date_value(line) is Some)),
{
    let p = ls.push(line);
    if header_dates_valid(p) {
        assert forall|i: int| 0 <= i < ls.len() && is_date_line(#[trigger] ls[i]) implies date_value(
            ls[i],
        ) is Some by {
            assert(p[i] == ls[i]);
        }
        assert(p[ls.len() as int] == line);
    }
    if header_dates_valid(ls) && (is_date_line(line) ==> date_value(line) is Some) {
        assert forall|i: int| 0 <= i < p.len() && is_date_line(#[trigger] p[i]) implies date_value(
            p[i],
        ) is Some by {
            if i < ls.len() {
                assert(p[i] == ls[i]);
            }
        }
    }
}

/// Only the lines that a header key starts decide the settings and whether
/// the dates are valid: reading `ls` is reading its keyed lines alone.
pub proof fn lemma_config_of_keyed_lines(ls: Seq<Seq<char>>, init: ArticleConfigView)
    ensures
        config_of(ls, init) == config_of(keyed_lines(ls), init),
        header_dates_valid(ls) == header_dates_valid(keyed_lines(ls)),
    decreases ls.len(),
{
    if ls.len() > 0 {
        let p = ls.drop_last();
        lemma_config_of_keyed_lines(p, init);
        assert(ls =~= p.push(ls.last()));
        lemma_header_dates_valid_push(p, ls.last());
        if is_keyed_line(ls.last()) {
            let k = keyed_lines(p).push(ls.last());
            assert(k.drop_last() =~= keyed_lines(p));
            lemma_header_dates_valid_push(keyed_lines(p), ls.last());
        } else {
            lemma_unkeyed_line_ignored(config_of(p, init), ls.last());
        }
    }
}

/// Lines that no header key starts never change the result: two headers
/// with the same keyed lines, in the same order, give the same settings,
/// and their dates are valid alike. Inserting or deleting such lines (a
/// separator, `author: a`, a key after leading spaces) changes nothing.
pub proof fn lemma_unkeyed_lines_ignored(
    l1: Seq<Seq<char>>,
    l2: Seq<Seq<char>>,
    init: ArticleConfigView,
)
    requires
        keyed_lines(l1) == keyed_lines(l2),
    ensures
        config_of(l1, init) == config_of(l2, init),
        header_dates_valid(l1) == header_dates_valid(l2),
{
    lemma_config_of_keyed_lines(l1, init);
    lemma_config_of_keyed_lines(l2, init);
}

/// A line that none of the header keys starts leaves the settings as they
/// are.
pub proof fn lemma_unkeyed_line_ignored(c: ArticleConfigView, line: Seq<char>)
    requires
        !TITLE_KEY@.is_prefix_of(line),
        !MATHJAX_KEY@.is_prefix_of(line),
        !DATE_KEY@.is_prefix_of(line),
        !TAGS_KEY@.is_prefix_of(line),
        !VISIBLE_KEY@.is_prefix_of(line),
    ensures
        apply_header_line(c, line) == c,
{
}

/// The separator lines that open and close a header block leave the
/// settings as they are: reading a header with them gives the settings of
/// its other lines.
pub proof fn lemma_separator_line_ignored(c: ArticleConfigView, line: Seq<char>)
    requires
        is_separator(line),
    ensures
        apply_header_line(c, line) == c,
{
    reveal_strlit("---");
    reveal_strlit("title:");
    reveal_strlit("mathjax:");
    reveal_strlit("date:");
    reveal_strlit("tags:");
    reveal_strlit("visible:");
    lemma_trim_first_char(line);
    assert(trim(line)[0] == '-');
    if TITLE_KEY@.is_prefix_of(line) {
        assert(line[0] == TITLE_KEY@[0]);
    }
    if MATHJAX_KEY@.is_prefix_of(line) {
        assert(line[0] == MATHJAX_KEY@[0]);
    }
    if DATE_KEY@.is_prefix_of(line) {
        assert(line[0] == DATE_KEY@[0]);
    }
    if TAGS_KEY@.is_prefix_of(line) {
        assert(line[0] == TAGS_KEY@[0]);
    }
    if VISIBLE_KEY@.is_prefix_of(line) {
        assert(line[0] == VISIBLE_KEY@[0]);
    }
    lemma_unkeyed_line_ignored(c, line);
}

/// Removing a key that stands in front removes it once from the front.
proof fn lemma_strip_once(k: Seq<char>, v: Seq<char>)
    requires
        k.len() > 0,
    ensures
        strip_prefixes(k + v, k) == strip_prefixes(v, k),
{
    assert((k + v).subrange(0, k.len() as int) =~= k);
    assert((k + v).skip(k.len() as int) =~= v);
}

/// A key stands in front of itself followed by anything.
proof fn lemma_key_prefix(k: Seq<char>, w: Seq<char>)
    ensures
        k.is_prefix_of(k + w),
{
    assert((k + w).subrange(0, k.len() as int) =~= k);
}

/// `a` does not stand in front of `b + w` where `a` and `b` differ at `j`.
proof fn lemma_not_prefix_at(a: Seq<char>, b: Seq<char>, w: Seq<char>, j: int)
    requires
        0 <= j < a.len(),
        j < b.len(),
        a[j] != b[j],
    ensures
        !a.is_prefix_of(b + w),
{
    if a.is_prefix_of(b + w) {
        assert(a[j] == (b + w).subrange(0, a.len() as int)[j]);
    }
}

/// No header key starts a line that another key starts.
proof fn lemma_keys_distinct(w: Seq<char>)
    ensures
        !MATHJAX_KEY@.is_prefix_of(TITLE_KEY@ + w),
        !DATE_KEY@.is_prefix_of(TITLE_KEY@ + w),
        !TAGS_KEY@.is_prefix_of(TITLE_KEY@ + w),
        !VISIBLE_KEY@.is_prefix_of(TITLE_KEY@ + w),
        !TITLE_KEY@.is_prefix_of(MATHJAX_KEY@ + w),
        !DATE_KEY@.is_prefix_of(MATHJAX_KEY@ + w),
        !TAGS_KEY@.is_prefix_of(MATHJAX_KEY@ + w),
        !VISIBLE_KEY@.is_prefix_of(MATHJAX_KEY@ + w),
        !TITLE_KEY@.is_prefix_of(DATE_KEY@ + w),
        !MATHJAX_KEY@.is_prefix_of(DATE_KEY@ + w),
        !TAGS_KEY@.is_prefix_of(DATE_KEY@ + w),
        !VISIBLE_KEY@.is_prefix_of(DATE_KEY@ + w),
        !TITLE_KEY@.is_prefix_of(TAGS_KEY@ + w),
        !MATHJAX_KEY@.is_prefix_of(TAGS_KEY@ + w),
        !DATE_KEY@.is_prefix_of(TAGS_KEY@ + w),
        !VISIBLE_KEY@.is_prefix_of(TAGS_KEY@ + w),
        !TITLE_KEY@.is_prefix_of(VISIBLE_KEY@ + w),
        !MATHJAX_KEY@.is_prefix_of(VISIBLE_KEY@ + w),
        !DATE_KEY@.is_prefix_of(VISIBLE_KEY@ + w),
        !TAGS_KEY@.is_prefix_of(VISIBLE_KEY@ + w),
{
    reveal_strlit("title:");
    reveal_strlit("mathjax:");
    reveal_strlit("date:");
    reveal_strlit("tags:");
    reveal_strlit("visible:");
    let t = TITLE_KEY@;
    let m = MATHJAX_KEY@;
    let d = DATE_KEY@;
    let g = TAGS_KEY@;
    let v = VISIBLE_KEY@;
    lemma_not_prefix_at(m, t, w, 0);
    lemma_not_prefix_at(d, t, w, 0);
    lemma_not_prefix_at(g, t, w, 1);
    lemma_not_prefix_at(v, t, w, 0);
    lemma_not_prefix_at(t, m, w, 0);
    lemma_not_prefix_at(d, m, w, 0);
    lemma_not_prefix_at(g, m, w, 0);
    lemma_not_prefix_at(v, m, w, 0);
    lemma_not_prefix_at(t, d, w, 0);
    lemma_not_prefix_at(m, d, w, 0);
    lemma_not_prefix_at(g, d, w, 0);
    lemma_not_prefix_at(v, d, w, 0);
    lemma_not_prefix_at(t, g, w, 1);
    lemma_not_prefix_at(m, g, w, 0);
    lemma_not_prefix_at(d, g, w, 0);
    lemma_not_prefix_at(v, g, w, 0);
    lemma_not_prefix_at(t, v, w, 0);
    lemma_not_prefix_at(m, v, w, 0);
    lemma_not_prefix_at(d, v, w, 0);
    lemma_not_prefix_at(g, v, w, 0);
}

/// The value of a keyed line is all of the text after the key, trimmed:
/// colons and other text in it are kept.
proof fn lemma_key_value_of(k: Seq<char>, v: Seq<char>)
    requires
        k.len() > 0,
        !k.is_prefix_of(v),
    ensures
        key_value(k + v, k) == trim(v),
{
    lemma_strip_once(k, v);
}

/// A title line `title:` + `v` sets the title to `v` trimmed, all of it
/// (colons included), and changes nothing else.
pub proof fn lemma_title_line(c: ArticleConfigView, v: Seq<char>)
    requires
        !TITLE_KEY@.is_prefix_of(v),
    ensures
        apply_header_line(c, TITLE_KEY@ + v) == (ArticleConfigView { title: trim(v), ..c }),
{
    reveal_strlit("title:");
    lemma_key_prefix(TITLE_KEY@, v);
    lemma_key_value_of(TITLE_KEY@, v);
}

/// A header block that holds one title line `title:` + `v` between its
/// separators gives the starting settings with the title set to all of
/// `v`, trimmed.
pub proof fn lemma_title_header(
    open_line: Seq<char>,
    v: Seq<char>,
    close_line: Seq<char>,
    init: ArticleConfigView,
)
    requires
        is_separator(open_line),
        is_separator(close_line),
        !TITLE_KEY@.is_prefix_of(v),
    ensures
        config_of(seq![open_line, TITLE_KEY@ + v, close_line], init) == (ArticleConfigView {
            title: trim(v),
            ..init
        }),
{
    let ls = seq![open_line, TITLE_KEY@ + v, close_line];
    lemma_separator_line_ignored(init, open_line);
    lemma_title_line(init, v);
    lemma_separator_line_ignored(ArticleConfigView { title: trim(v), ..init }, close_line);
    let l1 = seq![open_line];
    let l2 = seq![open_line, TITLE_KEY@ + v];
    assert(l1.drop_last() =~= Seq::<Seq<char>>::empty());
    assert(l1.last() == open_line);
    assert(config_of(l1.drop_last(), init) == init);
    assert(config_of(l1, init) == apply_header_line(init, open_line));
    assert(config_of(l1, init) == init);
    assert(l2.drop_last() =~= l1);
    assert(l2.last() == TITLE_KEY@ + v);
    assert(config_of(l2, init) == (ArticleConfigView { title: trim(v), ..init }));
    assert(ls.drop_last() =~= l2);
    assert(ls.last() == close_line);
}

/// A line `mathjax:` + `v` switches MathJax on exactly when `v` trimmed is
/// `true`, and changes nothing else.
pub proof fn lemma_mathjax_line(c: ArticleConfigView, v: Seq<char>)
    requires
        !MATHJAX_KEY@.is_prefix_of(v),
    ensures
        apply_header_line(c, MATHJAX_KEY@ + v) == (ArticleConfigView {
            mathjax: trim(v) == TRUE_WORD@,
            ..c
        }),
{
    reveal_strlit("mathjax:");
    lemma_keys_distinct(v);
    lemma_key_prefix(MATHJAX_KEY@, v);
    lemma_key_value_of(MATHJAX_KEY@, v);
}

/// A line `date:` + `v` sets the date to the instant chrono reads from `v`
/// trimmed in `DATE_FORMAT`, and changes nothing else; its date is valid
/// exactly when chrono accepts it.
pub proof fn lemma_date_line(c: ArticleConfigView, v: Seq<char>)
    requires
        !DATE_KEY@.is_prefix_of(v),
    ensures
        header_dates_valid(seq![DATE_KEY@ + v]) <==> utc_datetime_from_str(trim(v), DATE_FORMAT@)
            is Some,
        utc_datetime_from_str(trim(v), DATE_FORMAT@) matches Some((s, n)) ==> apply_header_line(
            c,
            DATE_KEY@ + v,
        ) == (ArticleConfigView { date: Timestamp { secs: s, nanos: n }, ..c }),
{
    reveal_strlit("date:");
    lemma_keys_distinct(v);
    lemma_key_prefix(DATE_KEY@, v);
    lemma_key_value_of(DATE_KEY@, v);
    let ls = seq![DATE_KEY@ + v];
    assert(ls[0] == DATE_KEY@ + v);
    assert(is_date_line(ls[0]));
}

/// A line `tags:` + `v` sets the tags to the pieces of `v` trimmed between
/// its commas, each trimmed: pieces that hold no comma and, joined by
/// commas, give back `v` trimmed. Nothing else changes.
pub proof fn lemma_tags_line(c: ArticleConfigView, v: Seq<char>)
    requires
        !TAGS_KEY@.is_prefix_of(v),
    ensures
        exists|p: Seq<Seq<char>>|
            join(p, seq![',']) == trim(v) && (forall|i: int|
                0 <= i < p.len() ==> !(#[trigger] p[i]).contains(',')) && apply_header_line(
                c,
                TAGS_KEY@ + v,
            ) == (ArticleConfigView { tags: p.map_values(|t: Seq<char>| trim(t)), ..c }),
{
    reveal_strlit("tags:");
    lemma_keys_distinct(v);
    lemma_key_prefix(TAGS_KEY@, v);
    lemma_key_value_of(TAGS_KEY@, v);
    let p = split_on(trim(v), ',');
    lemma_join_split_on(trim(v), ',');
    assert(apply_header_line(c, TAGS_KEY@ + v) == (ArticleConfigView {
        tags: p.map_values(|t: Seq<char>| trim(t)),
        ..c
    }));
}

/// A line `visible:` + `v` shows the post exactly when `v` trimmed is
/// `true`, and changes nothing else.
pub proof fn lemma_visible_line(c: ArticleConfigView, v: Seq<char>)
    requires
        !VISIBLE_KEY@.is_prefix_of(v),
    ensures
        apply_header_line(c, VISIBLE_KEY@ + v) == (ArticleConfigView {
            visible: trim(v) == TRUE_WORD@,
            ..c
        }),
{
    reveal_strlit("visible:");
    lemma_keys_distinct(v);
    lemma_key_prefix(VISIBLE_KEY@, v);
    lemma_key_value_of(VISIBLE_KEY@, v);
}

/// A key written twice in front of a value counts once: the line `k` + `k`
/// + `v` reads as `k` + `v`, for each header key `k`.
pub proof fn lemma_repeated_key(c: ArticleConfigView, k: Seq<char>, v: Seq<char>)
    requires
        k == TITLE_KEY@ || k == MATHJAX_KEY@ || k == DATE_KEY@ || k == TAGS_KEY@ || k
            == VISIBLE_KEY@,
    ensures
        apply_header_line(c, k + (k + v)) == apply_header_line(c, k + v),
{
    reveal_strlit("title:");
    reveal_strlit("mathjax:");
    reveal_strlit("date:");
    reveal_strlit("tags:");
    reveal_strlit("visible:");
    lemma_keys_distinct(v);
    lemma_keys_distinct(k + v);
    lemma_key_prefix(k, v);
    lemma_key_prefix(k, k + v);
    lemma_strip_once(k, k + v);
}

/// The number of separator lines in `ls`.
pub open spec fn separator_count(ls: Seq<Seq<char>>) -> nat
    decreases ls.len(),
{
    if ls.len() == 0 {
        0
    } else {
        separator_count(ls.drop_last()) + if is_separator(ls.last()) {
            1nat
        } else {
            0nat
        }
    }
}

/// The number of lines up to and including the second separator line, if
/// there is one.
pub open spec fn header_len(ls: Seq<Seq<char>>) -> Option<int>
    decreases ls.len(),
{
    if ls.len() == 0 {
        None
    } else {
        match header_len(ls.drop_last()) {
            Some(n) => Some(n),
            None => if is_separator(ls.last()) && separator_count(ls.drop_last()) == 1 {
                Some(ls.len() as int)
            } else {
                None
            },
        }
    }
}

/// Once the lines so far hold two separators, later lines do not move the
/// end of the header.
proof fn lemma_header_len_prefix(ls: Seq<Seq<char>>, k: int)
    requires
        0 <= k <= ls.len(),
        header_len(ls.take(k)) is Some,
    ensures
        header_len(ls) == header_len(ls.take(k)),
    decreases ls.len() - k,
{
    if k < ls.len() {
        assert(ls.take(k + 1).drop_last() =~= ls.take(k));
        lemma_header_len_prefix(ls, k + 1);
    } else {
        assert(ls.take(k) =~= ls);
    }
}

/// The header ends right after the second separator line: `header_len(ls)`
/// is `Some(n)` exactly when line `n - 1` is a separator preceded by one
/// other, and it is `None` exactly when `ls` holds fewer than two
/// separators.
pub proof fn lemma_header_len_characterized(ls: Seq<Seq<char>>)
    ensures
        forall|n: int|
            header_len(ls) == Some(n) <==> (1 <= n <= ls.len() && is_separator(ls[n - 1])
                && separator_count(ls.take(n - 1)) == 1),
        header_len(ls) is None <==> separator_count(ls) < 2,
    decreases ls.len(),
{
    if ls.len() > 0 {
        let p = ls.drop_last();
        lemma_header_len_characterized(p);
        assert forall|n: int|
            header_len(ls) == Some(n) <==> (1 <= n <= ls.len() && is_separator(ls[n - 1])
                && separator_count(ls.take(n - 1)) == 1) by {
            if 1 <= n < ls.len() {
                assert(p.take(n - 1) =~= ls.take(n - 1));
                assert(p[n - 1] == ls[n - 1]);
            }
            if n == ls.len() {
                assert(ls.take(n - 1) =~= p);
                if header_len(p) is Some {
                    let m = header_len(p)->0;
                    assert(p.take(m - 1) =~= ls.take(m - 1));
                    lemma_separator_count_prefix(p, m);
                }
            }
        }
    } else {
        assert forall|n: int|
            header_len(ls) == Some(n) <==> (1 <= n <= ls.len() && is_separator(ls[n - 1])
                && separator_count(ls.take(n - 1)) == 1) by {}
    }
}

/// Counting separators over a prefix never gives more than over the whole.
proof fn lemma_separator_count_prefix(ls: Seq<Seq<char>>, k: int)
    requires
        1 <= k <= ls.len(),
        is_separator(ls[k - 1]),
        separator_count(ls.take(k - 1)) == 1,
    ensures
        separator_count(ls) >= 2,
    decreases ls.len() - k,
{
    if k < ls.len() {
        assert(ls.drop_last().take(k - 1) =~= ls.take(k - 1));
        lemma_separator_count_prefix(ls.drop_last(), k);
    } else {
        assert(ls.take(k - 1) =~= ls.drop_last());
    }
}

/// The number of lines that the header block takes in the lines `lines`,
/// up to and including its second separator line, if there is one.
fn header_len_of_lines(lines: &Vec<Vec<char>>) -> (r: Option<usize>)
    ensures
        match r {
            Some(n) => header_len(lines.deep_view()) == Some(n as int),
            None => header_len(lines.deep_view()) is None,
        },
{
    let ghost ls = lines.deep_view();
    let separator = chars_of(SEPARATOR);
    let n = lines.len();
    let mut cnt: usize = 0;
    assert(ls.take(0) =~= Seq::<Seq<char>>::empty());
    for idx in 0..n
        invariant
            n == lines@.len(),
            ls == lines.deep_view(),
            separator@ == SEPARATOR@,
            cnt < 2,
            cnt == separator_count(ls.take(idx as int)),
            header_len(ls.take(idx as int)) is None,
    {
        proof {
            lemma_chars_deep_view(lines@[idx as int]);
            assert(ls.take(idx + 1).drop_last() =~= ls.take(idx as int));
        }
        let line = trim_chars(lines[idx].as_slice());
        if eq_chars(line.as_slice(), separator.as_slice()) {
            cnt = cnt + 1;
            if cnt == 2 {
                proof {
                    assert(ls.take(idx + 1).last() == ls[idx as int]);
                    assert(is_separator(ls[idx as int]));
                    assert(header_len(ls.take(idx + 1)) == Some(idx + 1));
                    lemma_header_len_prefix(ls, idx + 1);
                }
                return Some(idx + 1);
            }
        }
    }
    assert(ls.take(n as int) =~= ls);
    None
}

/// The number of lines that the header block of `read_content` takes, up
/// to and including its second separator line; `InvalidMarkdown` when
/// there are fewer than two separator lines.
pub fn split_config_from_markdown(read_content: &str) -> (r: Result<usize, ArticleError>)
    ensures
        match r {
            Ok(n) => header_len(lines_of(read_content@)) == Some(n as int),
            Err(e) => e == ArticleError::InvalidMarkdown && header_len(lines_of(read_content@))
                is None,
        },
{
    let content = chars_of(read_content);
    let lines = lines_chars(content.as_slice());
    match header_len_of_lines(&lines) {
        Some(n) => Ok(n),
        None => Err(ArticleError::InvalidMarkdown),
    }
}

/// The line break that joins the body lines back together.
pub const LINE_BREAK: &'static str = "\n";

/// The image shorthand of older posts, `{% qnimg path/to %}`.
pub const QNIMG_PATTERN: &'static str = r#"\{%\s*qnimg\s*(?P<path>.*?)\s*%\}"#;

/// What the image shorthand becomes: an image under `/static/img/`.
pub const QNIMG_REPLACEMENT: &'static str = r#"<img src="/static/img/$path" />"#;

/// Whether `regex::Regex::new(pattern)` succeeds.
pub uninterp spec fn regex_is_valid(pattern: Seq<char>) -> bool;

/// What `Regex::replace_all(text, rep)` gives for the regex that
/// `regex::Regex::new(pattern)` compiles.
pub uninterp spec fn regex_replace_all_result(
    pattern: Seq<char>,
    text: Seq<char>,
    rep: Seq<char>,
) -> Seq<char>;

/// Calls `regex::Regex::new(pattern)` and tells whether it returned `Ok`.
/// The contract claims only that the result is the named value
/// `regex_is_valid(pattern)`; nothing is said of which patterns compile.
#[verifier::external_body]
fn regex_compiles(pattern: &str) -> (r: bool)
    ensures
        r == regex_is_valid(pattern@),
{
    regex::Regex::new(pattern).is_ok()
}

/// Compiles `pattern` with `regex::Regex::new`, which succeeds where
/// `regex_is_valid(pattern)` holds, and replaces the matches in `text` with
/// `Regex::replace_all(text, rep)`. The contract claims only that the
/// result is the named value `regex_replace_all_result(pattern, text,
/// rep)`; nothing is said of which texts match.
#[verifier::external_body]
fn regex_replace_all(pattern: &str, text: &str, rep: &str) -> (r: String)
    requires
        regex_is_valid(pattern@),
    ensures
        r@ == regex_replace_all_result(pattern@, text@, rep@),
{
    regex::Regex::new(pattern).unwrap().replace_all(text, rep).into_owned()
}

/// `text` with each image shorthand rewritten into an image tag.
pub open spec fn qnimg_rewrite(text: Seq<char>) -> Seq<char> {
    regex_replace_all_result(QNIMG_PATTERN@, text, QNIMG_REPLACEMENT@)
}

/// Rewrites the image shorthand `{% qnimg path/to %}` of older posts into
/// `<img src="/static/img/path/to" />`.
pub fn replace_qiniu_to_link(text: &str) -> (r: String)
    requires
        regex_is_valid(QNIMG_PATTERN@),
    ensures
        r@ == qnimg_rewrite(text@),
{
    regex_replace_all(QNIMG_PATTERN, text, QNIMG_REPLACEMENT)
}

/// Rewrites the image shorthand as `replace_qiniu_to_link` does, after
/// checking that its pattern compiles; `None` where it does not.
pub fn try_replace_qiniu_to_link(text: &str) -> (r: Option<String>)
    ensures
        r is Some <==> regex_is_valid(QNIMG_PATTERN@),
        r matches Some(s) ==> s@ == qnimg_rewrite(text@),
{
    if regex_compiles(QNIMG_PATTERN) {
        Some(replace_qiniu_to_link(text))
    } else {
        None
    }
}

/// The body of a post whose lines are `ls` and whose header takes `n`
/// lines: the remaining lines joined by line breaks.
pub open spec fn body_of(ls: Seq<Seq<char>>, n: int) -> Seq<char> {
    join(ls.skip(n), LINE_BREAK@)
}

/// Whether reading the post `content` succeeds, or its first failure among
/// a missing header, a rejected date and a pattern that does not compile.
pub open spec fn article_check(content: Seq<char>) -> Result<(), ArticleError> {
    let ls = lines_of(content);
    match header_len(ls) {
        None => Err(ArticleError::InvalidMarkdown),
        Some(n) => if !header_dates_valid(ls.take(n)) {
            Err(ArticleError::InvalidDate)
        } else if !regex_is_valid(QNIMG_PATTERN@) {
            Err(ArticleError::InvalidPattern)
        } else {
            Ok(())
        },
    }
}

/// The outcome of reading a post `content` dated `now` unless its header
/// sets a date: its settings and its body with the image shorthand
/// rewritten, or the failure that `article_check` gives.
pub open spec fn article_spec(content: Seq<char>, now: Timestamp) -> Result<
    (ArticleConfigView, Seq<char>),
    ArticleError,
> {
    match article_check(content) {
        Err(e) => Err(e),
        Ok(()) => {
            let ls = lines_of(content);
            let n = header_len(ls)->0;
            Ok((config_of(ls.take(n), initial_config(now)), qnimg_rewrite(body_of(ls, n))))
        },
    }
}

/// The named results that reading `content` relies on succeed: the dates
/// of its header and the compiling of the shorthand's pattern.
pub open spec fn article_outside_ok(content: Seq<char>) -> bool {
    article_check(content) != Err::<(), ArticleError>(ArticleError::InvalidDate)
        && article_check(content) != Err::<(), ArticleError>(ArticleError::InvalidPattern)
}

/// The mathematical value of the outcome of reading a post.
pub open spec fn article_view(r: Result<(ArticleConfig, String), ArticleError>) -> Result<
    (ArticleConfigView, Seq<char>),
    ArticleError,
> {
    match r {
        Ok((c, b)) => Ok((c@, b@)),
        Err(e) => Err(e),
    }
}

/// The lines of `v` from `start` up to `end`.
fn copy_lines(v: &Vec<Vec<char>>, start: usize, end: usize) -> (r: Vec<Vec<char>>)
    requires
        start <= end <= v@.len(),
    ensures
        r.deep_view() == v.deep_view().subrange(start as int, end as int),
{
    let mut r: Vec<Vec<char>> = Vec::new();
    let mut i = start;
    while i < end
        invariant
            start <= i <= end <= v@.len(),
            r.deep_view() =~= v.deep_view().subrange(start as int, i as int),
        decreases end - i,
    {
        let l = copy_range(v[i].as_slice(), 0, v[i].len());
        let ghost before = r.deep_view();
        proof {
            lemma_chars_deep_view(v@[i as int]);
            lemma_chars_deep_view(l);
            assert(v@[i as int]@.subrange(0, v@[i as int]@.len() as int) =~= v@[i as int]@);
        }
        r.push(l);
        assert(r.deep_view() =~= before.push(l@));
        i = i + 1;
    }
    r
}

/// Tells whether reading the post `read_content` succeeds, or its first
/// failure: `InvalidMarkdown` without a header block, `InvalidDate` where a
/// header date is rejected, `InvalidPattern` where the shorthand's pattern
/// does not compile.
pub fn check_article(read_content: &str) -> (r: Result<(), ArticleError>)
    ensures
        r == article_check(read_content@),
{
    let content = chars_of(read_content);
    let lines = lines_chars(content.as_slice());
    let ghost ls = lines.deep_view();
    let n = match header_len_of_lines(&lines) {
        Some(n) => n,
        None => {
            return Err(ArticleError::InvalidMarkdown);
        },
    };
    proof {
        lemma_header_len_characterized(ls);
    }
    let header = copy_lines(&lines, 0, n);
    assert(ls.subrange(0, n as int) =~= ls.take(n as int));
    if !header_dates_ok(&header) {
        Err(ArticleError::InvalidDate)
    } else if !regex_compiles(QNIMG_PATTERN) {
        Err(ArticleError::InvalidPattern)
    } else {
        Ok(())
    }
}

/// Reads a post: the header block up to its second separator line gives
/// the settings (dated `now` unless a date line sets the date), the
/// remaining lines joined by line breaks give the body, in which the image
/// shorthand is rewritten.
pub fn read_article_at(read_content: &str, now: Timestamp) -> (r: Result<
    (ArticleConfig, String),
    ArticleError,
>)
    requires
        article_outside_ok(read_content@),
    ensures
        article_view(r) == article_spec(read_content@, now),
        r is Err ==> r == Err::<(ArticleConfig, String), ArticleError>(
            ArticleError::InvalidMarkdown,
        ),
{
    let content = chars_of(read_content);
    let lines = lines_chars(content.as_slice());
    let ghost ls = lines.deep_view();
    let n = match header_len_of_lines(&lines) {
        Some(n) => n,
        None => {
            return Err(ArticleError::InvalidMarkdown);
        },
    };
    proof {
        lemma_header_len_characterized(ls);
    }
    let header = copy_lines(&lines, 0, n);
    let body_lines = copy_lines(&lines, n, lines.len());
    assert(ls.subrange(0, n as int) =~= ls.take(n as int));
    assert(ls.subrange(n as int, ls.len() as int) =~= ls.skip(n as int));
    let line_break = chars_of(LINE_BREAK);
    let body = join_chars(&body_lines, line_break.as_slice());
    let body_str = string_of(body.as_slice());
    let config = config_of_char_lines(&header, now);
    let b = replace_qiniu_to_link(body_str.as_str());
    Ok((config, b))
}

/// Reads a post as `read_article_at` does, after `check_article`; the
/// failure that `check_article` finds where there is one.
pub fn try_read_article_at(read_content: &str, now: Timestamp) -> (r: Result<
    (ArticleConfig, String),
    ArticleError,
>)
    ensures
        article_view(r) == article_spec(read_content@, now),
{
    match check_article(read_content) {
        Err(e) => Err(e),
        Ok(()) => read_article_at(read_content, now),
    }
}

/// Nothing of a post is lost between its header and its body: where a
/// header of `n` lines is followed by more lines, the header lines joined
/// by line breaks, a line break, and the body before the image rewriting
/// give back all lines of the post joined by line breaks.
pub proof fn lemma_header_and_body_cover_post(content: Seq<char>)
    requires
        header_len(lines_of(content)) is Some,
        header_len(lines_of(content))->0 < lines_of(content).len(),
    ensures
        ({
            let ls = lines_of(content);
            let n = header_len(ls)->0;
            join(ls, LINE_BREAK@) == join(ls.take(n), LINE_BREAK@) + LINE_BREAK@ + body_of(ls, n)
        }),
{
    let ls = lines_of(content);
    lemma_header_len_characterized(ls);
    lemma_join_split(ls, LINE_BREAK@, header_len(ls)->0);
}

/// Reads a post as `read_article_at` does, dated at the current time
/// unless its header sets a date.
pub fn read_article(read_content: &str) -> (r: Result<(ArticleConfig, String), ArticleError>)
    requires
        article_outside_ok(read_content@),
    ensures
        exists|t: Timestamp|
            t.nanos < 1_000_000_000 && article_view(r) == article_spec(read_content@, t),
        r is Err ==> r == Err::<(ArticleConfig, String), ArticleError>(
            ArticleError::InvalidMarkdown,
        ),
{
    let now = current_time();
    read_article_at(read_content, now)
}

/// Reads a post as `read_article` does, after `check_article`; the failure
/// that `check_article` finds where there is one.
pub fn try_read_article(read_content: &str) -> (r: Result<(ArticleConfig, String), ArticleError>)
    ensures
        exists|t: Timestamp|
            t.nanos < 1_000_000_000 && article_view(r) == article_spec(read_content@, t),
{
    match check_article(read_content) {
        Err(e) => {
            let ghost t0 = Timestamp { secs: 0, nanos: 0 };
            assert(article_view(Err(e)) == article_spec(read_content@, t0));
            Err(e)
        },
        Ok(()) => read_article(read_content),
    }
}

} // verus!
