//! What the site generator decides for each post file: whether it is a
//! post at all, its index entry, its archive entry and its page.

use vstd::prelude::*;
use vstd::math::min;
use crate::article::{
    ArticleConfig, ArticleConfigView, ArticleError, article_spec, config_of, header_len,
    initial_config, try_read_article, try_read_article_at,
};
use crate::template::{IndexItem, article_page, try_render_article_from_markdown};
use crate::text::{
    chars_of, copy_range, ends_with_chars, lines_of, push_all, string_of, strip_suffixes,
    strip_suffixes_chars,
};
use crate::timestamp::Timestamp;

verus! {

/// The extension of post files.
pub const MARKDOWN_EXTENSION: &'static str = ".md";

/// The number of characters of a post's body that its index entry shows.
pub const HEADING_CHARS: usize = 100;

/// Where the pages of posts are written, up to the post's name.
pub const ARTICLES_DIR: &'static str = "./public/articles/";

/// The extension of pages.
pub const HTML_EXTENSION: &'static str = ".html";

/// The title of the archive page.
pub const ARCHIVES_TITLE: &'static str = "Garen Wang's Archives";

/// The first `HEADING_CHARS` characters of `s`, or all of `s` where it is
/// shorter.
pub open spec fn heading_of(s: Seq<char>) -> Seq<char> {
    if s.len() <= HEADING_CHARS {
        s
    } else {
        s.take(HEADING_CHARS as int)
    }
}

/// The opening of a post's body that its index entry shows.
pub fn generate_heading_of_index_item(real_content: &str) -> (r: String)
    ensures
        r@ == heading_of(real_content@),
        r@.is_prefix_of(real_content@),
        r@.len() == min(HEADING_CHARS as int, real_content@.len() as int),
{
    let v = chars_of(real_content);
    let end = if v.len() <= HEADING_CHARS {
        v.len()
    } else {
        HEADING_CHARS
    };
    let h = copy_range(v.as_slice(), 0, end);
    assert(v@.subrange(0, v@.len() as int) =~= v@);
    assert(h@ =~= v@.subrange(0, end as int));
    string_of(h.as_slice())
}

/// Whether `path` names a post file: it ends with `.md`.
pub fn is_markdown_path(path: &str) -> (r: bool)
    ensures
        r == MARKDOWN_EXTENSION@.is_suffix_of(path@),
{
    ends_with_chars(chars_of(path).as_slice(), chars_of(MARKDOWN_EXTENSION).as_slice())
}

/// The name of a post: its file name without the `.md` at its end,
/// repeated as often as it stands there.
pub open spec fn post_name(file_name: Seq<char>) -> Seq<char> {
    strip_suffixes(file_name, MARKDOWN_EXTENSION@)
}

/// `s` written `k` times in a row.
pub open spec fn repeated(s: Seq<char>, k: nat) -> Seq<char>
    decreases k,
{
    if k == 0 {
        Seq::empty()
    } else {
        repeated(s, (k - 1) as nat) + s
    }
}

/// A post's name is its file name with whole `.md` extensions taken off
/// its end and nothing else: the file name is the name followed by some
/// number of `.md`, and the name itself does not end with `.md`.
pub proof fn lemma_post_name_strips_whole_extensions(file_name: Seq<char>)
    ensures
        exists|k: nat| file_name == post_name(file_name) + #[trigger] repeated(MARKDOWN_EXTENSION@, k),
        !MARKDOWN_EXTENSION@.is_suffix_of(post_name(file_name)),
    decreases file_name.len(),
{
    reveal_strlit(".md");
    let p = MARKDOWN_EXTENSION@;
    if p.is_suffix_of(file_name) {
        let g = file_name.take(file_name.len() - p.len());
        lemma_post_name_strips_whole_extensions(g);
        let n = post_name(g);
        let k = choose|k: nat| g == n + #[trigger] repeated(p, k);
        assert(file_name =~= g + p);
        assert(repeated(p, k + 1) == repeated(p, k) + p);
        assert(file_name =~= n + repeated(p, k + 1));
        assert(post_name(file_name) == n);
    } else {
        assert(file_name =~= post_name(file_name) + repeated(p, 0));
    }
}

/// Adding `.md` to a file name does not change the post's name.
pub proof fn lemma_post_name_add_extension(s: Seq<char>)
    ensures
        post_name(s + MARKDOWN_EXTENSION@) == post_name(s),
{
    reveal_strlit(".md");
    let p = MARKDOWN_EXTENSION@;
    let f = s + p;
    assert(f.subrange(f.len() - p.len(), f.len() as int) =~= p);
    assert(f.take(f.len() - p.len()) =~= s);
}

/// A file name that does not end with `.md` is its own post name, and
/// with one `.md` added it names the same post.
pub proof fn lemma_post_name_one_extension(s: Seq<char>)
    requires
        !MARKDOWN_EXTENSION@.is_suffix_of(s),
    ensures
        post_name(s) == s,
        post_name(s + MARKDOWN_EXTENSION@) == s,
{
    lemma_post_name_add_extension(s);
}

/// The name of the post in the file `file_name`.
pub fn post_name_of(file_name: &str) -> (r: String)
    ensures
        r@ == post_name(file_name@),
{
    let v = strip_suffixes_chars(chars_of(file_name).as_slice(), chars_of(MARKDOWN_EXTENSION).as_slice());
    string_of(v.as_slice())
}

/// Where the page of the post in `file_name` is written.
pub open spec fn article_page_path(file_name: Seq<char>) -> Seq<char> {
    ARTICLES_DIR@ + post_name(file_name) + HTML_EXTENSION@
}

/// The path of the page of the post in `file_name`.
pub fn article_page_path_of(file_name: &str) -> (r: String)
    ensures
        r@ == article_page_path(file_name@),
{
    let mut v = chars_of(ARTICLES_DIR);
    push_all(&mut v, chars_of(post_name_of(file_name).as_str()).as_slice());
    push_all(&mut v, chars_of(HTML_EXTENSION).as_slice());
    string_of(v.as_slice())
}

/// Reading a post gives the same title, switches, tags and body whatever
/// date it starts from: only the date depends on it.
pub proof fn lemma_config_of_date_only(ls: Seq<Seq<char>>, t1: Timestamp, t2: Timestamp)
    ensures
        config_of(ls, initial_config(t1)).title == config_of(ls, initial_config(t2)).title,
        config_of(ls, initial_config(t1)).mathjax == config_of(ls, initial_config(t2)).mathjax,
        config_of(ls, initial_config(t1)).tags == config_of(ls, initial_config(t2)).tags,
        config_of(ls, initial_config(t1)).visible == config_of(ls, initial_config(t2)).visible,
    decreases ls.len(),
{
    if ls.len() > 0 {
        lemma_config_of_date_only(ls.drop_last(), t1, t2);
    }
}

/// Reading a post succeeds or fails alike whatever date it starts from, and
/// gives the same body and the same settings but for the date.
pub proof fn lemma_article_spec_date_only(content: Seq<char>, t1: Timestamp, t2: Timestamp)
    ensures
        article_spec(content, t1) is Ok <==> article_spec(content, t2) is Ok,
        article_spec(content, t1) is Err ==> article_spec(content, t1) == article_spec(
            content,
            t2,
        ),
        article_spec(content, t1) is Ok ==> {
            let (c1, b1) = article_spec(content, t1)->Ok_0;
            let (c2, b2) = article_spec(content, t2)->Ok_0;
            &&& b1 == b2
            &&& c1.title == c2.title
            &&& c1.mathjax == c2.mathjax
            &&& c1.tags == c2.tags
            &&& c1.visible == c2.visible
        },
{
    let ls = lines_of(content);
    if let Some(n) = header_len(ls) {
        lemma_config_of_date_only(ls.take(n), t1, t2);
    }
}

/// The index entry of a post as file name, title and heading, from the
/// outcome of reading it: none for a hidden post.
pub open spec fn index_entry(
    file_name: Seq<char>,
    read: Result<(ArticleConfigView, Seq<char>), ArticleError>,
) -> Result<Option<(Seq<char>, Seq<char>, Seq<char>)>, ArticleError> {
    match read {
        Err(e) => Err(e),
        Ok((c, body)) => if !c.visible {
            Ok(None)
        } else {
            Ok(Some((post_name(file_name), c.title, heading_of(body))))
        },
    }
}

/// The mathematical value of an index entry outcome.
pub open spec fn index_item_view(r: Result<Option<IndexItem>, ArticleError>) -> Result<
    Option<(Seq<char>, Seq<char>, Seq<char>)>,
    ArticleError,
> {
    match r {
        Err(e) => Err(e),
        Ok(None) => Ok(None),
        Ok(Some(i)) => Ok(Some((i.filename@, i.title@, i.heading@))),
    }
}

/// The index entry of the post in the file `file_name` that reads
/// `read_content`: none where the post is hidden, the error where the post
/// cannot be read.
pub fn index_item_of(file_name: &str, read_content: &str) -> (r: Result<
    Option<IndexItem>,
    ArticleError,
>)
    ensures
        forall|t: Timestamp|
            index_item_view(r) == #[trigger] index_entry(
                file_name@,
                article_spec(read_content@, t),
            ),
{
    // The outcome does not depend on the date, so the post is read at the
    // Unix epoch rather than at the clock's time.
    let t0 = Timestamp { secs: 0, nanos: 0 };
    let read = try_read_article_at(read_content, t0);
    assert forall|t: Timestamp|
        index_entry(file_name@, article_spec(read_content@, t)) == index_entry(
            file_name@,
            article_spec(read_content@, t0),
        ) by {
        lemma_article_spec_date_only(read_content@, t0, t);
    }
    match read {
        Err(e) => Err(e),
        Ok((config, body)) => {
            if !config.visible {
                Ok(None)
            } else {
                let filename = post_name_of(file_name);
                let heading = generate_heading_of_index_item(body.as_str());
                Ok(Some(IndexItem::new(filename, config.title, heading)))
            }
        },
    }
}


/// The archive entry of a post as its name and settings, from the outcome
/// of reading it: none for a hidden post.
pub open spec fn archive_entry(
    file_name: Seq<char>,
    read: Result<(ArticleConfigView, Seq<char>), ArticleError>,
) -> Result<Option<(Seq<char>, ArticleConfigView)>, ArticleError> {
    match read {
        Err(e) => Err(e),
        Ok((c, _body)) => if !c.visible {
            Ok(None)
        } else {
            Ok(Some((post_name(file_name), c)))
        },
    }
}

/// The mathematical value of an archive entry outcome.
pub open spec fn archive_entry_view(r: Result<Option<(String, ArticleConfig)>, ArticleError>) -> Result<
    Option<(Seq<char>, ArticleConfigView)>,
    ArticleError,
> {
    match r {
        Err(e) => Err(e),
        Ok(None) => Ok(None),
        Ok(Some((n, c))) => Ok(Some((n@, c@))),
    }
}

/// The archive entry of the post in the file `file_name` that reads
/// `read_content`: its name and settings, none where the post is hidden,
/// the error where the post cannot be read. The date is the current time
/// where the header sets none.
pub fn archive_entry_of(file_name: &str, read_content: &str) -> (r: Result<
    Option<(String, ArticleConfig)>,
    ArticleError,
>)
    ensures
        exists|t: Timestamp|
            t.nanos < 1_000_000_000 && archive_entry_view(r) == archive_entry(
                file_name@,
                article_spec(read_content@, t),
            ),
{
    let read = try_read_article(read_content);
    match read {
        Err(e) => Err(e),
        Ok((config, _body)) => {
            if !config.visible {
                Ok(None)
            } else {
                Ok(Some((post_name_of(file_name), config)))
            }
        },
    }
}

/// The page of a post as its path and HTML, from the outcome of reading
/// it: none for a hidden post, `InvalidTemplate` where the template does
/// not render.
pub open spec fn article_output(
    file_name: Seq<char>,
    template: Seq<char>,
    read: Result<(ArticleConfigView, Seq<char>), ArticleError>,
) -> Result<Option<(Seq<char>, Seq<char>)>, ArticleError> {
    match read {
        Err(e) => Err(e),
        Ok((c, body)) => if !c.visible {
            Ok(None)
        } else {
            match article_page(template, c.title, body) {
                None => Err(ArticleError::InvalidTemplate),
                Some(page) => Ok(Some((article_page_path(file_name), page))),
            }
        },
    }
}

/// The mathematical value of a page outcome.
pub open spec fn article_output_view(r: Result<Option<(String, String)>, ArticleError>) -> Result<
    Option<(Seq<char>, Seq<char>)>,
    ArticleError,
> {
    match r {
        Err(e) => Err(e),
        Ok(None) => Ok(None),
        Ok(Some((p, h))) => Ok(Some((p@, h@))),
    }
}

/// The page of the post in the file `file_name` that reads `read_content`,
/// rendered with `template`, and the path it is written to: none where the
/// post is hidden, the error where the post cannot be read or the template
/// does not render.
pub fn article_page_of(file_name: &str, read_content: &str, template: &str) -> (r: Result<
    Option<(String, String)>,
    ArticleError,
>)
    ensures
        forall|t: Timestamp|
            article_output_view(r) == #[trigger] article_output(
                file_name@,
                template@,
                article_spec(read_content@, t),
            ),
{
    // The outcome does not depend on the date, so the post is read at the
    // Unix epoch rather than at the clock's time.
    let t0 = Timestamp { secs: 0, nanos: 0 };
    let read = try_read_article_at(read_content, t0);
    assert forall|t: Timestamp|
        article_output(file_name@, template@, article_spec(read_content@, t)) == article_output(
            file_name@,
            template@,
            article_spec(read_content@, t0),
        ) by {
        lemma_article_spec_date_only(read_content@, t0, t);
    }
    match read {
        Err(e) => Err(e),
        Ok((config, body)) => {
            if !config.visible {
                Ok(None)
            } else {
                let path = article_page_path_of(file_name);
                match try_render_article_from_markdown(config, body.as_str(), template) {
                    Some(page) => Ok(Some((path, page))),
                    None => Err(ArticleError::InvalidTemplate),
                }
            }
        },
    }
}


/// The index and the archive pick the same posts: for each post file the
/// index entry and the archive entry are both missing (hidden post), both
/// present with the same name and title, or the same error.
pub proof fn lemma_index_and_archive_agree(file_name: Seq<char>, content: Seq<char>, t: Timestamp)
    ensures
        match (
            index_entry(file_name, article_spec(content, t)),
            archive_entry(file_name, article_spec(content, t)),
        ) {
            (Err(e1), Err(e2)) => e1 == e2,
            (Ok(None), Ok(None)) => true,
            (Ok(Some((n1, title, _h))), Ok(Some((n2, c)))) => n1 == n2 && title == c.title,
            _ => false,
        },
{
}

/// A post's index entry is there exactly where the post reads and is
/// visible; it then holds the post's name, the title from its header, and
/// as heading the first `HEADING_CHARS` characters of its body (all of the
/// body where it is shorter).
pub proof fn lemma_index_entry_of_visible_post(file_name: Seq<char>, content: Seq<char>, t: Timestamp)
    ensures
        index_entry(file_name, article_spec(content, t)) is Ok <==> article_spec(content, t) is Ok,
        index_entry(file_name, article_spec(content, t)) matches Ok(Some(_)) <==> (article_spec(
            content,
            t,
        ) matches Ok((c, _b)) && c.visible),
        article_spec(content, t) matches Ok((c, b)) ==> (c.visible ==> ({
            let (n, title, h) = index_entry(file_name, article_spec(content, t))->Ok_0->Some_0;
            &&& n == post_name(file_name)
            &&& title == c.title
            &&& h.is_prefix_of(b)
            &&& h.len() == min(HEADING_CHARS as int, b.len() as int)
        })),
{
    if let Ok((c, b)) = article_spec(content, t) {
        if b.len() > HEADING_CHARS {
            assert(b.take(HEADING_CHARS as int).len() == HEADING_CHARS as int);
        } else {
            assert(b.subrange(0, b.len() as int) =~= b);
        }
    }
}

/// The page of a visible post is the page template filled with the title
/// that its header sets and with its body, written under the post's name;
/// the page fails to render exactly where the template does not render
/// for that title and body.
pub proof fn lemma_article_page_from_header(
    file_name: Seq<char>,
    template: Seq<char>,
    content: Seq<char>,
    t: Timestamp,
)
    requires
        article_spec(content, t) matches Ok((c, _b)) && c.visible,
    ensures
        ({
            let (c, b) = article_spec(content, t)->Ok_0;
            let ls = lines_of(content);
            &&& c.title == config_of(ls.take(header_len(ls)->0), initial_config(t)).title
            &&& match article_page(template, c.title, b) {
                Some(page) => article_output(file_name, template, article_spec(content, t)) == Ok::<
                    Option<(Seq<char>, Seq<char>)>,
                    ArticleError,
                >(Some((ARTICLES_DIR@ + post_name(file_name) + HTML_EXTENSION@, page))),
                None => article_output(file_name, template, article_spec(content, t)) == Err::<
                    Option<(Seq<char>, Seq<char>)>,
                    ArticleError,
                >(ArticleError::InvalidTemplate),
            }
        }),
{
}

/// The HTML of a post's page does not depend on the name of its file: two
/// files with the same content give the same page, or both no page, or
/// the same error.
pub proof fn lemma_article_page_independent_of_file_name(
    f1: Seq<char>,
    f2: Seq<char>,
    template: Seq<char>,
    content: Seq<char>,
    t: Timestamp,
)
    ensures
        match (
            article_output(f1, template, article_spec(content, t)),
            article_output(f2, template, article_spec(content, t)),
        ) {
            (Ok(Some((_p1, h1))), Ok(Some((_p2, h2)))) => h1 == h2,
            (Ok(None), Ok(None)) => true,
            (Err(e1), Err(e2)) => e1 == e2,
            _ => false,
        },
{
}

/// Post files as their file names and contents.
pub open spec fn files_view(files: Seq<(String, String)>) -> Seq<(Seq<char>, Seq<char>)> {
    files.map_values(|f: (String, String)| (f.0@, f.1@))
}

/// The index of the posts `files`, in order: the entries of the visible
/// posts, or the first error.
pub open spec fn index_list(files: Seq<(Seq<char>, Seq<char>)>) -> Result<
    Seq<(Seq<char>, Seq<char>, Seq<char>)>,
    ArticleError,
>
    decreases files.len(),
{
    if files.len() == 0 {
        Ok(Seq::empty())
    } else {
        match index_list(files.drop_last()) {
            Err(e) => Err(e),
            Ok(acc) => match index_entry(
                files.last().0,
                article_spec(files.last().1, Timestamp { secs: 0, nanos: 0 }),
            ) {
                Err(e) => Err(e),
                Ok(None) => Ok(acc),
                Ok(Some(x)) => Ok(acc.push(x)),
            },
        }
    }
}

/// The archive of the posts `files`, in order, where post `i` is dated
/// `ts[i]` unless its header sets a date: the entries of the visible posts,
/// or the first error.
pub open spec fn archive_list(files: Seq<(Seq<char>, Seq<char>)>, ts: Seq<Timestamp>) -> Result<
    Seq<(Seq<char>, ArticleConfigView)>,
    ArticleError,
>
    decreases files.len(),
{
    if files.len() == 0 {
        Ok(Seq::empty())
    } else {
        match archive_list(files.drop_last(), ts.drop_last()) {
            Err(e) => Err(e),
            Ok(acc) => match archive_entry(files.last().0, article_spec(files.last().1, ts.last())) {
                Err(e) => Err(e),
                Ok(None) => Ok(acc),
                Ok(Some(x)) => Ok(acc.push(x)),
            },
        }
    }
}

/// The mathematical value of an index outcome.
pub open spec fn index_items_view(r: Result<Vec<IndexItem>, ArticleError>) -> Result<
    Seq<(Seq<char>, Seq<char>, Seq<char>)>,
    ArticleError,
> {
    match r {
        Err(e) => Err(e),
        Ok(v) => Ok(v@.map_values(|i: IndexItem| (i.filename@, i.title@, i.heading@))),
    }
}

/// The mathematical value of an archive outcome.
pub open spec fn archive_entries_view(r: Result<Vec<(String, ArticleConfig)>, ArticleError>) -> Result<
    Seq<(Seq<char>, ArticleConfigView)>,
    ArticleError,
> {
    match r {
        Err(e) => Err(e),
        Ok(v) => Ok(v@.map_values(|x: (String, ArticleConfig)| (x.0@, x.1@))),
    }
}

/// An error in a prefix of the posts is the error of all of them.
proof fn lemma_index_list_prefix_err(files: Seq<(Seq<char>, Seq<char>)>, k: int)
    requires
        0 <= k <= files.len(),
        index_list(files.take(k)) is Err,
    ensures
        index_list(files) == index_list(files.take(k)),
    decreases files.len() - k,
{
    if k < files.len() {
        assert(files.take(k + 1).drop_last() =~= files.take(k));
        lemma_index_list_prefix_err(files, k + 1);
    } else {
        assert(files.take(k) =~= files);
    }
}

/// An error in a prefix of the posts is the error of all of them.
proof fn lemma_archive_list_prefix_err(
    files: Seq<(Seq<char>, Seq<char>)>,
    ts: Seq<Timestamp>,
    k: int,
)
    requires
        0 <= k <= files.len(),
        ts.len() == files.len(),
        archive_list(files.take(k), ts.take(k)) is Err,
    ensures
        archive_list(files, ts) == archive_list(files.take(k), ts.take(k)),
    decreases files.len() - k,
{
    if k < files.len() {
        assert(files.take(k + 1).drop_last() =~= files.take(k));
        assert(ts.take(k + 1).drop_last() =~= ts.take(k));
        lemma_archive_list_prefix_err(files, ts, k + 1);
    } else {
        assert(files.take(k) =~= files);
        assert(ts.take(k) =~= ts);
    }
}

/// The index of the post files `files` (file name and contents, in the
/// order they are walked): an entry per visible post, or the first error.
pub fn index_items_of(files: &Vec<(String, String)>) -> (r: Result<Vec<IndexItem>, ArticleError>)
    ensures
        index_items_view(r) == index_list(files_view(files@)),
{
    let ghost fv = files_view(files@);
    let n = files.len();
    let mut acc: Vec<IndexItem> = Vec::new();
    assert(fv.take(0) =~= Seq::<(Seq<char>, Seq<char>)>::empty());
    assert(acc@.map_values(|i: IndexItem| (i.filename@, i.title@, i.heading@)) =~= Seq::<
        (Seq<char>, Seq<char>, Seq<char>),
    >::empty());
    for i in 0..n
        invariant
            n == files@.len(),
            fv == files_view(files@),
            index_list(fv.take(i as int)) == Ok::<_, ArticleError>(
                acc@.map_values(|x: IndexItem| (x.filename@, x.title@, x.heading@)),
            ),
    {
        let f = &files[i];
        assert(fv.take(i + 1).drop_last() =~= fv.take(i as int));
        assert(fv.take(i + 1).last() == (f.0@, f.1@));
        let item = index_item_of(f.0.as_str(), f.1.as_str());
        let ghost before = acc@;
        match item {
            Err(e) => {
                proof {
                    lemma_index_list_prefix_err(fv, i + 1);
                }
                return Err(e);
            },
            Ok(None) => {},
            Ok(Some(x)) => {
                acc.push(x);
                assert(acc@.map_values(|x: IndexItem| (x.filename@, x.title@, x.heading@))
                    =~= before.map_values(|x: IndexItem| (x.filename@, x.title@, x.heading@)).push(
                    (x.filename@, x.title@, x.heading@),
                ));
            },
        }
    }
    assert(fv.take(n as int) =~= fv);
    Ok(acc)
}

/// The archive of the post files `files` (file name and contents, in the
/// order they are walked): an entry per visible post, or the first error.
/// Each post is dated at the current time unless its header sets a date.
pub fn archive_entries_of(files: &Vec<(String, String)>) -> (r: Result<
    Vec<(String, ArticleConfig)>,
    ArticleError,
>)
    ensures
        exists|ts: Seq<Timestamp>|
            ts.len() == files@.len() && (forall|i: int|
                0 <= i < ts.len() ==> (#[trigger] ts[i]).nanos < 1_000_000_000)
                && archive_entries_view(r) == archive_list(files_view(files@), ts),
{
    let ghost fv = files_view(files@);
    let n = files.len();
    let mut acc: Vec<(String, ArticleConfig)> = Vec::new();
    let ghost mut ts: Seq<Timestamp> = Seq::empty();
    assert(fv.take(0) =~= Seq::<(Seq<char>, Seq<char>)>::empty());
    assert(acc@.map_values(|x: (String, ArticleConfig)| (x.0@, x.1@)) =~= Seq::<
        (Seq<char>, ArticleConfigView),
    >::empty());
    for i in 0..n
        invariant
            n == files@.len(),
            fv == files_view(files@),
            ts.len() == i,
            forall|j: int| 0 <= j < ts.len() ==> (#[trigger] ts[j]).nanos < 1_000_000_000,
            archive_list(fv.take(i as int), ts) == Ok::<_, ArticleError>(
                acc@.map_values(|x: (String, ArticleConfig)| (x.0@, x.1@)),
            ),
    {
        let f = &files[i];
        assert(fv.take(i + 1).drop_last() =~= fv.take(i as int));
        assert(fv.take(i + 1).last() == (f.0@, f.1@));
        let entry = archive_entry_of(f.0.as_str(), f.1.as_str());
        let ghost t = choose|t: Timestamp|
            t.nanos < 1_000_000_000 && archive_entry_view(entry) == archive_entry(
                f.0@,
                article_spec(f.1@, t),
            );
        let ghost ts1 = ts.push(t);
        assert(ts1.drop_last() =~= ts);
        let ghost before = acc@;
        match entry {
            Err(e) => {
                let ghost pad = Seq::new((n - i - 1) as nat, |j: int| t);
                let ghost full = ts1 + pad;
                proof {
                    assert(full.take(i + 1) =~= ts1);
                    lemma_archive_list_prefix_err(fv, full, i + 1);
                    assert forall|j: int| 0 <= j < full.len() implies (
                    #[trigger] full[j]).nanos < 1_000_000_000 by {
                        if j < ts.len() {
                            assert(full[j] == ts[j]);
                        }
                    }
                }
                return Err(e);
            },
            Ok(None) => {},
            Ok(Some(x)) => {
                acc.push(x);
                assert(acc@.map_values(|x: (String, ArticleConfig)| (x.0@, x.1@))
                    =~= before.map_values(|x: (String, ArticleConfig)| (x.0@, x.1@)).push(
                    (x.0@, x.1@),
                ));
            },
        }
        proof {
            ts = ts1;
        }
    }
    assert(fv.take(n as int) =~= fv);
    Ok(acc)
}

/// The index entry of a post does not depend on the date it is read at.
proof fn lemma_index_entry_date_only(file_name: Seq<char>, content: Seq<char>, t1: Timestamp, t2: Timestamp)
    ensures
        index_entry(file_name, article_spec(content, t1)) == index_entry(
            file_name,
            article_spec(content, t2),
        ),
{
    lemma_article_spec_date_only(content, t1, t2);
}

/// The index and the archive of the same post files pick the same posts,
/// in the same order: both fail with the same error, or both list as many
/// entries, the `i`-th of each with the same name and title, whatever the
/// dates the archive reads the posts at.
pub proof fn lemma_index_and_archive_lists_agree(
    files: Seq<(Seq<char>, Seq<char>)>,
    ts: Seq<Timestamp>,
)
    requires
        ts.len() == files.len(),
    ensures
        match (index_list(files), archive_list(files, ts)) {
            (Err(e1), Err(e2)) => e1 == e2,
            (Ok(x), Ok(y)) => x.len() == y.len() && forall|i: int|
                0 <= i < x.len() ==> (#[trigger] x[i]).0 == y[i].0 && x[i].1 == y[i].1.title,
            _ => false,
        },
    decreases files.len(),
{
    if files.len() > 0 {
        lemma_index_and_archive_lists_agree(files.drop_last(), ts.drop_last());
        let last = files.last();
        lemma_index_entry_date_only(last.0, last.1, Timestamp { secs: 0, nanos: 0 }, ts.last());
        lemma_index_and_archive_agree(last.0, last.1, ts.last());
    }
}

} // verus!
