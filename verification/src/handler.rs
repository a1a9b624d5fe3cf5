//! What the web handlers read and how they answer.

use vstd::prelude::*;
use crate::generator::{ARTICLES_DIR, HTML_EXTENSION};
use crate::text::{chars_of, push_all, string_of};

verus! {

/// Where the images of posts are served from, up to the post's name.
pub const IMAGES_DIR: &'static str = "./public/images/";

/// Where style sheets are served from.
pub const CSS_DIR: &'static str = "./public/css/";

/// Where scripts are served from.
pub const JS_DIR: &'static str = "./public/js/";

/// Between a directory and the name of the file in it.
pub const PATH_SEPARATOR: &'static str = "/";

/// The home page.
pub const INDEX_PAGE: &'static str = "./public/index.html";

/// The archive page.
pub const ARCHIVES_PAGE: &'static str = "./public/archives.html";

/// The page shown for what is not found.
pub const NOT_FOUND_PAGE: &'static str = "./public/404.html";

/// The site's icon.
pub const FAVICON: &'static str = "./public/favicon.ico";

/// The content type of images of posts.
pub const IMAGE_CONTENT_TYPE: &'static str = "image/jpeg";

/// The content type of the site's icon.
pub const ICON_CONTENT_TYPE: &'static str = "image/x-icon";

/// The content type of style sheets.
pub const CSS_CONTENT_TYPE: &'static str = "text/css";

/// The content type of scripts.
pub const JS_CONTENT_TYPE: &'static str = "text/javascript";

/// The status of a reply.
#[derive(Debug, Clone, Copy, PartialEq, Eq, Structural)]
pub enum Status {
    Found,
    NotFound,
}

/// A reply of a handler: its status, its content type where it sets one,
/// and its body.
pub struct Reply {
    pub status: Status,
    pub content_type: Option<String>,
    pub body: Vec<u8>,
}

/// The file that holds the image `image_filename` of the post
/// `article_title`.
pub open spec fn image_path(article_title: Seq<char>, image_filename: Seq<char>) -> Seq<char> {
    IMAGES_DIR@ + article_title + PATH_SEPARATOR@ + image_filename
}

/// The path of the image `image_filename` of the post `article_title`.
pub fn image_path_of(article_title: &str, image_filename: &str) -> (r: String)
    ensures
        r@ == image_path(article_title@, image_filename@),
{
    let mut v = chars_of(IMAGES_DIR);
    push_all(&mut v, chars_of(article_title).as_slice());
    push_all(&mut v, chars_of(PATH_SEPARATOR).as_slice());
    push_all(&mut v, chars_of(image_filename).as_slice());
    string_of(v.as_slice())
}

/// The path of the file `name` in the directory `dir`, which ends with a
/// separator.
pub fn path_in(dir: &str, name: &str) -> (r: String)
    ensures
        r@ == dir@ + name@,
{
    let mut v = chars_of(dir);
    push_all(&mut v, chars_of(name).as_slice());
    string_of(v.as_slice())
}

/// The file that holds the page of the post `title`.
pub open spec fn article_path(title: Seq<char>) -> Seq<char> {
    ARTICLES_DIR@ + title + HTML_EXTENSION@
}

/// The path of the page of the post `title` (`find_article_by_name`).
pub fn article_path_of(title: &str) -> (r: String)
    ensures
        r@ == article_path(title@),
{
    let mut v = chars_of(ARTICLES_DIR);
    push_all(&mut v, chars_of(title).as_slice());
    push_all(&mut v, chars_of(HTML_EXTENSION).as_slice());
    string_of(v.as_slice())
}

/// The reply for a file that was looked up: the file with its content type
/// where it was found, else `NotFound` with the not-found page.
pub fn file_reply(found: Option<Vec<u8>>, content_type: Option<&str>, not_found_page: Vec<u8>) -> (r:
    Reply)
    ensures
        match found {
            Some(body) => r.status == Status::Found && r.body@ == body@ && match content_type {
                Some(t) => r.content_type matches Some(c) && c@ == t@,
                None => r.content_type is None,
            },
            None => r.status == Status::NotFound && r.content_type is None && r.body@
                == not_found_page@,
        },
{
    match found {
        Some(body) => {
            let content_type = match content_type {
                Some(t) => Some(string_of(chars_of(t).as_slice())),
                None => None,
            };
            Reply { status: Status::Found, content_type, body }
        },
        None => Reply { status: Status::NotFound, content_type: None, body: not_found_page },
    }
}

/// The reply of `get_static_image`: the image as `image/jpeg`, or the
/// not-found page.
pub fn static_image_reply(found: Option<Vec<u8>>, not_found_page: Vec<u8>) -> (r: Reply)
    ensures
        match found {
            Some(body) => {
                &&& r.status == Status::Found
                &&& r.body@ == body@
                &&& r.content_type matches Some(c) && c@ == IMAGE_CONTENT_TYPE@
            },
            None => r.status == Status::NotFound && r.content_type is None && r.body@
                == not_found_page@,
        },
{
    file_reply(found, Some(IMAGE_CONTENT_TYPE), not_found_page)
}

/// The reply of `get_favicon`: the icon as `image/x-icon`, or the
/// not-found page.
pub fn favicon_reply(found: Option<Vec<u8>>, not_found_page: Vec<u8>) -> (r: Reply)
    ensures
        match found {
            Some(body) => {
                &&& r.status == Status::Found
                &&& r.body@ == body@
                &&& r.content_type matches Some(c) && c@ == ICON_CONTENT_TYPE@
            },
            None => r.status == Status::NotFound && r.content_type is None && r.body@
                == not_found_page@,
        },
{
    file_reply(found, Some(ICON_CONTENT_TYPE), not_found_page)
}

/// The reply of `get_blog_article_by_name`: the page, or the not-found
/// page.
pub fn article_reply(found: Option<Vec<u8>>, not_found_page: Vec<u8>) -> (r: Reply)
    ensures
        match found {
            Some(body) => r.status == Status::Found && r.body@ == body@ && r.content_type is None,
            None => r.status == Status::NotFound && r.content_type is None && r.body@
                == not_found_page@,
        },
{
    file_reply(found, None, not_found_page)
}

/// The reply for a page that is always there: `Ok` with the page, of the
/// given content type where one is given.
pub fn page_reply(body: Vec<u8>, content_type: Option<&str>) -> (r: Reply)
    ensures
        r.status == Status::Found,
        r.body@ == body@,
        match content_type {
            Some(t) => r.content_type matches Some(c) && c@ == t@,
            None => r.content_type is None,
        },
{
    file_reply(Some(body), content_type, Vec::new())
}

/// The reply for what is not there: `NotFound` with the not-found page.
pub fn not_found_reply(not_found_page: Vec<u8>) -> (r: Reply)
    ensures
        r.status == Status::NotFound,
        r.content_type is None,
        r.body@ == not_found_page@,
{
    file_reply(None, None, not_found_page)
}

} // verus!
