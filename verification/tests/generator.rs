use blog_service::article::{check_article, try_replace_qiniu_to_link};
use blog_service::article::{
    read_article_at, replace_qiniu_to_link, split_config_from_markdown, try_read_article,
    try_read_article_at, ArticleConfig, ArticleError,
};
use blog_service::generator::{
    archive_entry_of, article_page_of, generate_heading_of_index_item, index_item_of,
    is_markdown_path, post_name_of, article_page_path_of,
};
use blog_service::timestamp::Timestamp;
use chrono::TimeZone;

const TEST_POST: &str = "---\ntitle: test\nmathjax: true\ndate: 2022-01-17 11:45:32\ntags: CSAPP\n---\n\nbody line one\n{% qnimg CSAPP-Attack-Lab-Writeup/success1.png %}\n";

#[allow(deprecated)]
fn utc(s: &str) -> Timestamp {
    let d = chrono::Utc.datetime_from_str(s, "%Y-%m-%d %H:%M:%S").unwrap();
    Timestamp { secs: d.timestamp(), nanos: d.timestamp_subsec_nanos() }
}

#[test]
fn test_article_config_from_trait() {
    // title: test
    // mathjax: true
    // date: 2022-01-17 11:45:32
    // tags: CSAPP
    let header_content: Vec<&str> = TEST_POST.lines().take(6).collect();
    let article_config = ArticleConfig::from_lines(&header_content);
    assert_eq!(
        article_config,
        ArticleConfig {
            title: "test".into(),
            mathjax: true,
            date: utc("2022-01-17 11:45:32"),
            tags: vec!["CSAPP".to_string()],
            visible: true,
        }
    );
}

#[test]
fn test_regex_convert_qnimg_to_link() {
    // {% qnimg CSAPP-Attack-Lab-Writeup/success1.png %}
    let re = regex::Regex::new(r#"\{%\s*qnimg\s*(.*?)\s*%\}"#).unwrap();
    let text = r#"{% qnimg CSAPP-Attack-Lab-Writeup/success1.png %}"#;
    for cap in re.captures_iter(text) {
        assert_eq!("{% qnimg CSAPP-Attack-Lab-Writeup/success1.png %}", &cap[0]);
        assert_eq!("CSAPP-Attack-Lab-Writeup/success1.png", &cap[1]);
    }
    assert_eq!(
        replace_qiniu_to_link(text),
        r#"<img src="/static/img/CSAPP-Attack-Lab-Writeup/success1.png" />"#
    );
}

#[test]
fn test_read_config_from_markdown() {
    let read_content = TEST_POST;
    let lines = read_content.lines();
    let mut cnt = 0;
    for (idx, line) in lines.enumerate() {
        if line.trim() == "---" {
            cnt += 1;
            if cnt == 2 {
                assert_eq!(idx, 5);
            } else if cnt == 1 {
                assert_eq!(idx, 0);
            }
        }
    }
    assert_eq!(split_config_from_markdown(read_content), Ok(6));
}

#[test]
fn split_config_needs_two_separators() {
    assert_eq!(split_config_from_markdown("---\ntitle: x\n"), Err(ArticleError::InvalidMarkdown));
    assert_eq!(split_config_from_markdown(""), Err(ArticleError::InvalidMarkdown));
    assert_eq!(split_config_from_markdown("  ---  \r\n---"), Ok(2));
    assert_eq!(split_config_from_markdown("a\n---\nb\n---\n---\n"), Ok(4));
}

#[test]
fn header_keys_and_values() {
    let now = Timestamp { secs: 7, nanos: 9 };
    let c = ArticleConfig::from_lines_at(
        &[
            "---",
            "title:title:  Hello World  ",
            "mathjax: yes",
            "tags: a, b ,,c",
            "visible: false",
            " title: ignored",
            "---",
        ],
        now,
    );
    assert_eq!(c.title, "Hello World");
    assert!(!c.mathjax);
    assert_eq!(c.date, now);
    assert_eq!(c.tags, vec!["a", "b", "", "c"]);
    assert!(!c.visible);

    let d = ArticleConfig::from_lines_at(&["tags:", "visible: true", "mathjax:true"], now);
    assert_eq!(d.tags, vec![""]);
    assert!(d.visible);
    assert!(d.mathjax);
}

#[test]
fn later_lines_override_earlier() {
    let now = Timestamp { secs: 0, nanos: 0 };
    let c = ArticleConfig::from_lines_at(
        &["title: one", "title: two", "date: 2020-01-01 00:00:00", "date: 2021-06-30 12:00:01"],
        now,
    );
    assert_eq!(c.title, "two");
    assert_eq!(c.date, utc("2021-06-30 12:00:01"));
    assert_eq!(c.date.secs, 1625054401);
}

#[test]
fn bad_date_is_reported() {
    let now = Timestamp { secs: 0, nanos: 0 };
    assert_eq!(ArticleConfig::try_from_lines_at(&["date: yesterday"], now), None);
    assert!(ArticleConfig::try_from_lines(&["date: 2022-13-01 00:00:00"]).is_none());
    assert_eq!(
        try_read_article_at("---\ndate: soon\n---\nbody", now),
        Err(ArticleError::InvalidDate)
    );
}

#[test]
fn new_config_defaults() {
    let now = Timestamp { secs: 5, nanos: 1 };
    let c = ArticleConfig::new_at(now);
    assert_eq!(c.title, "");
    assert!(!c.mathjax && c.visible);
    assert!(c.tags.is_empty());
    assert_eq!(c.date, now);
    let d = ArticleConfig::default();
    assert!(d.visible && d.title.is_empty());
    assert!(d.date.nanos < 1_000_000_000);
    let e = ArticleConfig::new();
    assert!(e.date.secs > 1_600_000_000);
}

#[test]
fn read_article_splits_header_and_body() {
    let now = Timestamp { secs: 1, nanos: 2 };
    let (config, body) = read_article_at(TEST_POST, now).unwrap();
    assert_eq!(config.title, "test");
    assert_eq!(config.date, utc("2022-01-17 11:45:32"));
    assert_eq!(
        body,
        "\nbody line one\n<img src=\"/static/img/CSAPP-Attack-Lab-Writeup/success1.png\" />"
    );
    assert_eq!(try_read_article("no header"), Err(ArticleError::InvalidMarkdown));
    let (c2, b2) = try_read_article("---\n---\r\nx\r\ny\r\n").unwrap();
    assert_eq!(b2, "x\ny");
    assert!(c2.visible);
}

#[test]
fn heading_takes_first_hundred_chars() {
    let long: String = "é".repeat(150);
    assert_eq!(generate_heading_of_index_item(&long).chars().count(), 100);
    assert_eq!(generate_heading_of_index_item("short"), "short");
    assert_eq!(generate_heading_of_index_item(""), "");
}

#[test]
fn markdown_paths_and_names() {
    assert!(is_markdown_path("./posts/a.md"));
    assert!(!is_markdown_path("./posts/a.md.txt"));
    assert!(!is_markdown_path("md"));
    assert_eq!(post_name_of("a.md.md"), "a");
    assert_eq!(post_name_of("notes.txt"), "notes.txt");
    assert_eq!(article_page_path_of("hello.md"), "./public/articles/hello.html");
}

#[test]
fn hidden_posts_have_no_entries() {
    let hidden = "---\ntitle: secret\nvisible: false\n---\nbody";
    assert_eq!(index_item_of("secret.md", hidden), Ok(None));
    assert_eq!(archive_entry_of("secret.md", hidden), Ok(None));
    assert_eq!(article_page_of("secret.md", hidden, "{{title}}"), Ok(None));
    assert_eq!(index_item_of("x.md", "no header"), Err(ArticleError::InvalidMarkdown));
}

#[test]
fn visible_posts_have_entries() {
    let item = index_item_of("test.md", TEST_POST).unwrap().unwrap();
    assert_eq!(item.filename, "test");
    assert_eq!(item.title, "test");
    assert_eq!(item.heading, "\nbody line one\n<img src=\"/static/img/CSAPP-Attack-Lab-Writeup/success1.png\" />");
    let (name, config) = archive_entry_of("test.md", TEST_POST).unwrap().unwrap();
    assert_eq!(name, "test");
    assert_eq!(config.tags, vec!["CSAPP"]);
    let (path, page) = article_page_of("test.md", TEST_POST, "<h1>{{title}}</h1>").unwrap().unwrap();
    assert_eq!(path, "./public/articles/test.html");
    assert_eq!(page, "<h1>test</h1>");
    assert_eq!(
        article_page_of("test.md", TEST_POST, "{{#if}}"),
        Err(ArticleError::InvalidTemplate)
    );
}

#[test]
fn check_article_names_the_first_failure() {
    assert_eq!(check_article(TEST_POST), Ok(()));
    assert_eq!(check_article("nothing"), Err(ArticleError::InvalidMarkdown));
    assert_eq!(check_article("---\ndate: never\n---\n"), Err(ArticleError::InvalidDate));
    assert_eq!(try_replace_qiniu_to_link("plain").as_deref(), Some("plain"));
    assert_eq!(
        article_page_of("t.md", TEST_POST, "{{> p}}"),
        Err(ArticleError::InvalidTemplate)
    );
}
