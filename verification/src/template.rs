//! Page assembly: markdown to HTML, the table of contents, the archive
//! listing, and the page template.

use vstd::prelude::*;
use crate::article::ArticleConfig;
use crate::text::{
    chars_of, join, join_chars, push_all, replace, replace_chars, string_of, lemma_chars_deep_view,
    occurs_in, lemma_replace_leaves_no_pattern, matches_at,
};

verus! {

/// What `pulldown_cmark::html::push_html` writes into an empty string for
/// the events of `pulldown_cmark::Parser::new_ext(md, options)`, where the
/// options hold strikethrough exactly when `strikethrough` is set.
pub uninterp spec fn markdown_to_html(md: Seq<char>, strikethrough: bool) -> Seq<char>;

/// Renders `md` as HTML with `pulldown_cmark`: `Parser::new_ext` with the
/// strikethrough extension set as `strikethrough` says, written out by
/// `html::push_html` into a new string. The contract claims only that the
/// result is the named value `markdown_to_html(md, strikethrough)`.
#[verifier::external_body]
fn push_markdown_html(md: &str, strikethrough: bool) -> (r: String)
    ensures
        r@ == markdown_to_html(md@, strikethrough),
{
    let mut options = pulldown_cmark::Options::empty();
    options.set(pulldown_cmark::Options::ENABLE_STRIKETHROUGH, strikethrough);
    let parser = pulldown_cmark::Parser::new_ext(md, options);
    let mut html = String::new();
    pulldown_cmark::html::push_html(&mut html, parser);
    html
}

/// What `pulldown_cmark_toc::TableOfContents::new(md).to_cmark()` gives:
/// the table of contents of `md`, itself in markdown.
pub uninterp spec fn toc_cmark(md: Seq<char>) -> Seq<char>;

/// Calls `pulldown_cmark_toc::TableOfContents::new(md)` and
/// `TableOfContents::to_cmark`. The contract claims only that the result
/// is the named value `toc_cmark(md)`.
#[verifier::external_body]
fn table_of_contents(md: &str) -> (r: String)
    ensures
        r@ == toc_cmark(md@),
{
    pulldown_cmark_toc::TableOfContents::new(md).to_cmark()
}

/// What `handlebars::Handlebars::new().render_template(template, data)`
/// gives for the data object `{ "title": title, "main_html_content": main,
/// "comments": comments, "toc": toc }`, or `None` where it reports an
/// error.
pub uninterp spec fn handlebars_render(
    template: Seq<char>,
    title: Seq<char>,
    main: Seq<char>,
    comments: bool,
    toc: Seq<char>,
) -> Option<Seq<char>>;

/// The whitespace of the handlebars grammar.
pub open spec fn is_hbs_ws(c: char) -> bool {
    c == ' ' || c == '\t' || c == '\n' || c == '\r'
}

/// Characters that the handlebars grammar lets stand between the `{{` of a
/// tag and the `>` of a partial or the `*` of a decorator: whitespace, the
/// `~` that trims it, the `#` of a block.
pub open spec fn is_tag_gap(c: char) -> bool {
    is_hbs_ws(c) || c == '~' || c == '#'
}

/// The `{{` at position `i` is escaped: one backslash stands right before
/// it (two or more backslashes escape each other, not the braces).
pub open spec fn escaped_at(t: Seq<char>, i: int) -> bool {
    i >= 1 && t[i - 1] == '\\' && !(i >= 2 && t[i - 2] == '\\')
}

/// A tag may open at position `i`: an `{{` that is not escaped.
pub open spec fn tag_opens_at(t: Seq<char>, i: int) -> bool {
    0 <= i && i + 2 <= t.len() && t[i] == '{' && t[i + 1] == '{' && !escaped_at(t, i)
}

/// The first position from `k` on that holds no gap character, or the end.
pub open spec fn skip_gaps(t: Seq<char>, k: int) -> int
    decreases t.len() - k,
{
    if 0 <= k < t.len() && is_tag_gap(t[k]) {
        skip_gaps(t, k + 1)
    } else {
        k
    }
}

/// The first position from `k` on that holds no whitespace, or the end.
pub open spec fn skip_ws(t: Seq<char>, k: int) -> int
    decreases t.len() - k,
{
    if 0 <= k < t.len() && is_hbs_ws(t[k]) {
        skip_ws(t, k + 1)
    } else {
        k
    }
}

/// The name of the decorator that defines inline partials.
pub const INLINE_DECORATOR: &'static str = "inline";

/// A partial may be included at position `i`: a tag opens there and its
/// first character past the gap is `>`. Every partial and partial block of
/// the handlebars grammar opens so; the shape also takes in some inert text
/// (inside comments and raw blocks).
pub open spec fn partial_at(t: Seq<char>, i: int) -> bool {
    tag_opens_at(t, i) && skip_gaps(t, i + 2) < t.len() && t[skip_gaps(t, i + 2)] == '>'
}

/// An inline partial may be defined at position `i`: a tag opens there,
/// its first character past the gap is `*`, and `inline` follows after
/// whitespace. Every `inline` decorator and decorator block of the
/// handlebars grammar opens so; the shape also takes in some inert text.
pub open spec fn inline_at(t: Seq<char>, i: int) -> bool {
    &&& tag_opens_at(t, i)
    &&& skip_gaps(t, i + 2) < t.len()
    &&& t[skip_gaps(t, i + 2)] == '*'
    &&& INLINE_DECORATOR@.is_prefix_of(t.skip(skip_ws(t, skip_gaps(t, i + 2) + 1)))
}

/// The template may follow partials without end. Handlebars finds a
/// partial in a fresh registry only where an inline partial defines it,
/// and it does not bound how deep inline partials include each other (one
/// that includes itself never returns). So a template that both defines
/// an inline partial and includes a partial is not rendered; every other
/// template is.
pub open spec fn may_recurse(t: Seq<char>) -> bool {
    (exists|i: int| #[trigger] partial_at(t, i)) && (exists|i: int| #[trigger] inline_at(t, i))
}

/// Whether `c` is handlebars whitespace.
fn is_hbs_ws_char(c: char) -> (r: bool)
    ensures
        r == is_hbs_ws(c),
{
    c == ' ' || c == '\t' || c == '\n' || c == '\r'
}

/// Whether `c` may stand between `{{` and `>` or `*`.
fn is_tag_gap_char(c: char) -> (r: bool)
    ensures
        r == is_tag_gap(c),
{
    is_hbs_ws_char(c) || c == '~' || c == '#'
}

/// Exec form of `skip_gaps`.
fn skip_gaps_from(t: &[char], k: usize) -> (r: usize)
    requires
        k <= t@.len(),
    ensures
        r == skip_gaps(t@, k as int),
        k <= r <= t@.len(),
{
    let n = t.len();
    let mut j = k;
    while j < n && is_tag_gap_char(t[j])
        invariant
            k <= j <= n == t@.len(),
            skip_gaps(t@, k as int) == skip_gaps(t@, j as int),
        decreases n - j,
    {
        j = j + 1;
    }
    j
}

/// Exec form of `skip_ws`.
fn skip_ws_from(t: &[char], k: usize) -> (r: usize)
    requires
        k <= t@.len(),
    ensures
        r == skip_ws(t@, k as int),
        k <= r <= t@.len(),
{
    let n = t.len();
    let mut j = k;
    while j < n && is_hbs_ws_char(t[j])
        invariant
            k <= j <= n == t@.len(),
            skip_ws(t@, k as int) == skip_ws(t@, j as int),
        decreases n - j,
    {
        j = j + 1;
    }
    j
}

/// Whether the template `template` may follow partials without end: it
/// includes a partial and defines an inline partial.
pub fn template_may_recurse(template: &str) -> (r: bool)
    ensures
        r == may_recurse(template@),
{
    let t = chars_of(template);
    let inline_name = chars_of(INLINE_DECORATOR);
    let n = t.len();
    let mut found_partial = false;
    let mut found_inline = false;
    for i in 0..n
        invariant
            n == t@.len(),
            t@ == template@,
            inline_name@ == INLINE_DECORATOR@,
            found_partial == exists|i0: int| 0 <= i0 < i && #[trigger] partial_at(t@, i0),
            found_inline == exists|i0: int| 0 <= i0 < i && #[trigger] inline_at(t@, i0),
    {
        let opens = i + 1 < n && t[i] == '{' && t[i + 1] == '{' && !(i >= 1 && t[i - 1] == '\\'
            && !(i >= 2 && t[i - 2] == '\\'));
        assert(opens == tag_opens_at(t@, i as int));
        if opens {
            let j = skip_gaps_from(t.as_slice(), i + 2);
            if j < n && t[j] == '>' {
                assert(partial_at(t@, i as int));
                found_partial = true;
            } else {
                assert(!partial_at(t@, i as int));
            }
            if j < n && t[j] == '*' {
                let m = skip_ws_from(t.as_slice(), j + 1);
                if matches_at(t.as_slice(), m, inline_name.as_slice()) {
                    assert(inline_at(t@, i as int));
                    found_inline = true;
                } else {
                    assert(!inline_at(t@, i as int));
                }
            } else {
                assert(!inline_at(t@, i as int));
            }
        } else {
            assert(!partial_at(t@, i as int));
            assert(!inline_at(t@, i as int));
        }
    }
    proof {
        if exists|i0: int| #[trigger] partial_at(t@, i0) {
            let i0 = choose|i0: int| #[trigger] partial_at(t@, i0);
            assert(0 <= i0 < n);
        }
        if exists|i0: int| #[trigger] inline_at(t@, i0) {
            let i0 = choose|i0: int| #[trigger] inline_at(t@, i0);
            assert(0 <= i0 < n);
        }
    }
    found_partial && found_inline
}

/// Builds the data object `{ "title", "main_html_content", "comments",
/// "toc" }` as a `serde_json::Value` and calls
/// `handlebars::Handlebars::render_template` on a new registry. Templates
/// that may follow partials without end (`may_recurse`) are left out. The contract claims only that the result is the named
/// value `handlebars_render(template, title, main, comments, toc)`, with
/// `Err` read as `None`.
#[verifier::external_body]
fn render_template(template: &str, title: &str, main: &str, comments: bool, toc: &str) -> (r:
    Option<String>)
    requires
        !may_recurse(template@),
    ensures
        match r {
            Some(s) => handlebars_render(template@, title@, main@, comments, toc@) == Some(s@),
            None => handlebars_render(template@, title@, main@, comments, toc@) is None,
        },
{
    let mut data = serde_json::Map::new();
    data.insert("title".to_string(), serde_json::Value::String(title.to_string()));
    data.insert("main_html_content".to_string(), serde_json::Value::String(main.to_string()));
    data.insert("comments".to_string(), serde_json::Value::Bool(comments));
    data.insert("toc".to_string(), serde_json::Value::String(toc.to_string()));
    let data = serde_json::Value::Object(data);
    handlebars::Handlebars::new().render_template(template, &data).ok()
}

/// The list tag of the table of contents as markdown renders it.
pub const UNORDERED_LIST: &'static str = "ul";

/// The list tag that the table of contents is shown with.
pub const ORDERED_LIST: &'static str = "ol";

/// The body HTML of a post: its markdown with strikethrough enabled.
pub open spec fn article_html(md: Seq<char>) -> Seq<char> {
    markdown_to_html(md, true)
}

/// The table of contents of a post as HTML, every `ul` turned into `ol`.
pub open spec fn toc_html(md: Seq<char>) -> Seq<char> {
    replace(markdown_to_html(toc_cmark(md), true), UNORDERED_LIST@, ORDERED_LIST@)
}

/// The table of contents as shown holds no `ul` anywhere: each unordered
/// list tag of the rendered contents became an ordered one, and the
/// replacement creates none.
pub proof fn lemma_toc_html_has_no_unordered_list(md: Seq<char>)
    ensures
        !occurs_in(UNORDERED_LIST@, toc_html(md)),
{
    reveal_strlit("ul");
    reveal_strlit("ol");
    lemma_replace_leaves_no_pattern(
        markdown_to_html(toc_cmark(md), true),
        UNORDERED_LIST@,
        ORDERED_LIST@,
    );
}

/// Renders markdown as HTML, with strikethrough enabled.
pub fn render_html_from_markdown(real_content: &str) -> (r: String)
    ensures
        r@ == article_html(real_content@),
{
    push_markdown_html(real_content, true)
}

/// Renders the table of contents of a post as an ordered list in HTML.
pub fn render_toc_html_from_markdown(real_content: &str) -> (r: String)
    ensures
        r@ == toc_html(real_content@),
{
    let toc = table_of_contents(real_content);
    let html = render_html_from_markdown(toc.as_str());
    let v = chars_of(html.as_str());
    let from = chars_of(UNORDERED_LIST);
    let to = chars_of(ORDERED_LIST);
    proof {
        reveal_strlit("ul");
    }
    let r = replace_chars(v.as_slice(), from.as_slice(), to.as_slice());
    string_of(r.as_slice())
}

/// The page that the template gives for a title, the main HTML, the
/// comments switch and the table of contents; `None` where the template
/// may follow partials without end or does not render.
pub open spec fn page_render(
    template: Seq<char>,
    title: Seq<char>,
    main: Seq<char>,
    comments: bool,
    toc: Seq<char>,
) -> Option<Seq<char>> {
    if !may_recurse(template) {
        handlebars_render(template, title, main, comments, toc)
    } else {
        None
    }
}

/// Whether the template renders these values: it cannot follow partials
/// without end, and handlebars renders it.
fn page_renders(template: &str, title: &str, main: &str, comments: bool, toc: &str) -> (r: bool)
    ensures
        r == page_render(template@, title@, main@, comments, toc@) is Some,
{
    if template_may_recurse(template) {
        return false;
    }
    render_template(template, title, main, comments, toc).is_some()
}

/// Fills the page template with a title, the main HTML, the comments
/// switch and the table of contents.
pub fn render_final_html_content(
    template: &str,
    title: &str,
    main_html_content: &str,
    comments: bool,
    toc: &str,
) -> (r: String)
    requires
        page_render(template@, title@, main_html_content@, comments, toc@) is Some,
    ensures
        page_render(template@, title@, main_html_content@, comments, toc@) == Some(r@),
{
    match render_template(template, title, main_html_content, comments, toc) {
        Some(s) => s,
        None => String::new(),
    }
}

/// Fills the page template as `render_final_html_content` does, after
/// checking that it renders; `None` where it does not.
pub fn try_render_final_html_content(
    template: &str,
    title: &str,
    main_html_content: &str,
    comments: bool,
    toc: &str,
) -> (r: Option<String>)
    ensures
        match r {
            Some(s) => page_render(template@, title@, main_html_content@, comments, toc@) == Some(
                s@,
            ),
            None => page_render(template@, title@, main_html_content@, comments, toc@) is None,
        },
{
    if page_renders(template, title, main_html_content, comments, toc) {
        Some(render_final_html_content(template, title, main_html_content, comments, toc))
    } else {
        None
    }
}

/// The page of a post: the template filled with its title, its body HTML,
/// comments on, and its table of contents.
pub open spec fn article_page(template: Seq<char>, title: Seq<char>, md: Seq<char>) -> Option<
    Seq<char>,
> {
    page_render(template, title, article_html(md), true, toc_html(md))
}

/// Renders the page of a post from its settings and its markdown body.
pub fn render_article_from_markdown(
    article_config: ArticleConfig,
    real_content: &str,
    template: &str,
) -> (r: String)
    requires
        article_page(template@, article_config.title@, real_content@) is Some,
    ensures
        article_page(template@, article_config.title@, real_content@) == Some(r@),
{
    let html = render_html_from_markdown(real_content);
    let toc = render_toc_html_from_markdown(real_content);
    render_final_html_content(
        template,
        article_config.title.as_str(),
        html.as_str(),
        true,
        toc.as_str(),
    )
}

/// Renders the page of a post as `render_article_from_markdown` does,
/// after checking that the template renders it; `None` where it does not.
pub fn try_render_article_from_markdown(
    article_config: ArticleConfig,
    real_content: &str,
    template: &str,
) -> (r: Option<String>)
    ensures
        match r {
            Some(s) => article_page(template@, article_config.title@, real_content@) == Some(
                s@,
            ),
            None => article_page(template@, article_config.title@, real_content@) is None,
        },
{
    let html = render_html_from_markdown(real_content);
    let toc = render_toc_html_from_markdown(real_content);
    if page_renders(template, article_config.title.as_str(), html.as_str(), true, toc.as_str()) {
        Some(render_article_from_markdown(article_config, real_content, template))
    } else {
        None
    }
}

/// Opening of a link of the archive listing, up to the file name.
pub const ARCHIVE_LINK_OPEN: &'static str = "<a href=/blog/";

/// Between the file name and the title of an archive link.
pub const ARCHIVE_LINK_MIDDLE: &'static str = ">";

/// Closing of an archive link.
pub const ARCHIVE_LINK_CLOSE: &'static str = "</a>";

/// Between two links of the archive listing.
pub const ARCHIVE_SEPARATOR: &'static str = "<br> \n";

/// The table of contents of a page that has none.
pub const NO_TOC: &'static str = "";

/// The link of the archive listing to the post `filename` with `title`.
pub open spec fn archive_link(filename: Seq<char>, title: Seq<char>) -> Seq<char> {
    ARCHIVE_LINK_OPEN@ + filename + ARCHIVE_LINK_MIDDLE@ + title + ARCHIVE_LINK_CLOSE@
}

/// The links of the archive listing, one per entry, in order.
pub open spec fn archive_links(entries: Seq<(String, ArticleConfig)>) -> Seq<Seq<char>> {
    entries.map_values(|e: (String, ArticleConfig)| archive_link(e.0@, e.1.title@))
}

/// The main HTML of the archive page: its links separated by line breaks.
pub open spec fn archives_html(entries: Seq<(String, ArticleConfig)>) -> Seq<char> {
    join(archive_links(entries), ARCHIVE_SEPARATOR@)
}

/// The archive page: the template filled with `title`, the links, comments
/// off and no table of contents.
pub open spec fn archives_page(
    template: Seq<char>,
    title: Seq<char>,
    entries: Seq<(String, ArticleConfig)>,
) -> Option<Seq<char>> {
    page_render(template, title, archives_html(entries), false, NO_TOC@)
}

/// The HTML link to the post `filename` titled `title`.
fn archive_link_chars(filename: &str, title: &str) -> (r: Vec<char>)
    ensures
        r@ == archive_link(filename@, title@),
{
    let mut r = chars_of(ARCHIVE_LINK_OPEN);
    push_all(&mut r, chars_of(filename).as_slice());
    push_all(&mut r, chars_of(ARCHIVE_LINK_MIDDLE).as_slice());
    push_all(&mut r, chars_of(title).as_slice());
    push_all(&mut r, chars_of(ARCHIVE_LINK_CLOSE).as_slice());
    r
}

/// The main HTML of the archive page for the posts `filenames`.
fn archives_body(filenames: &Vec<(String, ArticleConfig)>) -> (r: String)
    ensures
        r@ == archives_html(filenames@),
{
    let n = filenames.len();
    let mut links: Vec<Vec<char>> = Vec::new();
    for i in 0..n
        invariant
            n == filenames@.len(),
            links.deep_view() =~= archive_links(filenames@).take(i as int),
    {
        let entry = &filenames[i];
        let link = archive_link_chars(entry.0.as_str(), entry.1.title.as_str());
        let ghost before = links.deep_view();
        proof {
            lemma_chars_deep_view(link);
        }
        links.push(link);
        assert(links.deep_view() =~= before.push(link@));
    }
    assert(archive_links(filenames@).take(n as int) =~= archive_links(filenames@));
    let body = join_chars(&links, chars_of(ARCHIVE_SEPARATOR).as_slice());
    string_of(body.as_slice())
}

/// Renders the archive page titled `title` that links to each post of
/// `filenames` by its file name and title.
pub fn render_archives(title: &str, filenames: Vec<(String, ArticleConfig)>, template: &str) -> (r:
    String)
    requires
        archives_page(template@, title@, filenames@) is Some,
    ensures
        archives_page(template@, title@, filenames@) == Some(r@),
{
    let body = archives_body(&filenames);
    render_final_html_content(template, title, body.as_str(), false, NO_TOC)
}

/// Renders the archive page as `render_archives` does, after checking that
/// the template renders it; `None` where it does not.
pub fn try_render_archives(
    title: &str,
    filenames: Vec<(String, ArticleConfig)>,
    template: &str,
) -> (r: Option<String>)
    ensures
        match r {
            Some(s) => archives_page(template@, title@, filenames@) == Some(s@),
            None => archives_page(template@, title@, filenames@) is None,
        },
{
    let body = archives_body(&filenames);
    if page_renders(template, title, body.as_str(), false, NO_TOC) {
        Some(render_archives(title, filenames, template))
    } else {
        None
    }
}

/// An entry of the blog's index: a post's file name without `.md`, its
/// title and the opening of its body.
#[derive(Debug, Clone, PartialEq, Eq)]
pub struct IndexItem {
    pub filename: String,
    pub title: String,
    pub heading: String,
}

impl IndexItem {
    /// The index entry with these fields.
    pub fn new(filename: String, title: String, heading: String) -> (r: IndexItem)
        ensures
            r.filename == filename,
            r.title == title,
            r.heading == heading,
    {
        IndexItem { filename, title, heading }
    }
}

} // verus!
