use blog_service::generator::{archive_entries_of, archive_entry_of, index_item_of, index_items_of};
use blog_service::article::{read_article_at, split_config_from_markdown, ArticleConfig};
use blog_service::template::render_toc_html_from_markdown;
use blog_service::timestamp::Timestamp;

const POST: &str = "---\ntitle: Laws\ntags: x, y\n---\nfirst\n\nsecond\n";

#[test]
fn separator_and_unkeyed_lines_change_nothing() {
    let now = Timestamp { secs: 3, nanos: 4 };
    let plain = ArticleConfig::from_lines_at(&["title: T", "visible: false"], now);
    let framed = ArticleConfig::from_lines_at(
        &["  ---", "title: T", "random text", "Title: no", "visible: false", "--- \t"],
        now,
    );
    assert_eq!(plain, framed);
    assert_eq!(ArticleConfig::from_lines_at(&["---", "---"], now), ArticleConfig::new_at(now));
}

#[test]
fn reading_depends_on_the_clock_only_for_the_date() {
    let a = Timestamp { secs: 10, nanos: 0 };
    let b = Timestamp { secs: 20, nanos: 5 };
    let (ca, ba) = read_article_at(POST, a).unwrap();
    let (cb, bb) = read_article_at(POST, b).unwrap();
    assert_eq!(ba, bb);
    assert_eq!((ca.title, ca.tags, ca.visible, ca.mathjax), (cb.title, cb.tags, cb.visible, cb.mathjax));
    assert_eq!((ca.date, cb.date), (a, b));
}

#[test]
fn header_and_body_cover_the_post() {
    let n = split_config_from_markdown(POST).unwrap();
    let lines: Vec<&str> = POST.lines().collect();
    let (_, body) = read_article_at(POST, Timestamp { secs: 0, nanos: 0 }).unwrap();
    assert_eq!(format!("{}\n{}", lines[..n].join("\n"), body), lines.join("\n"));
}

#[test]
fn table_of_contents_has_no_unordered_list() {
    let html = render_toc_html_from_markdown("# a\n## b\n### c\n## ul\n");
    assert!(!html.contains("ul"));
    assert!(html.contains("<ol>"));
}

#[test]
fn inserting_unkeyed_lines_changes_nothing() {
    let now = Timestamp { secs: 1, nanos: 1 };
    let base = ["title: A", "date: 2022-01-17 11:45:32", "tags: t"];
    let padded = [
        "---", "author: a", "title: A", "  title: x", "date: 2022-01-17 11:45:32", "", "tags: t",
        "---",
    ];
    assert_eq!(
        ArticleConfig::from_lines_at(&base, now),
        ArticleConfig::from_lines_at(&padded, now)
    );
    assert_eq!(ArticleConfig::from_lines_at(&base[..1], now), ArticleConfig::from_lines_at(&padded[..4], now));
}

#[test]
fn index_and_archive_pick_the_same_posts() {
    let posts = [
        ("a.md", "---\ntitle: A\n---\nx"),
        ("b.md", "---\ntitle: B\nvisible: false\n---\ny"),
        ("c.md", "no header"),
    ];
    for (name, content) in posts {
        match (index_item_of(name, content), archive_entry_of(name, content)) {
            (Ok(Some(i)), Ok(Some((n, c)))) => {
                assert_eq!(i.filename, n);
                assert_eq!(i.title, c.title);
            }
            (Ok(None), Ok(None)) => {}
            (Err(e1), Err(e2)) => assert_eq!(e1, e2),
            _ => panic!("index and archive disagree on {}", name),
        }
    }
}

#[test]
fn index_and_archive_lists_agree() {
    let files: Vec<(String, String)> = vec![
        ("a.md".into(), "---\ntitle: A\n---\nx".into()),
        ("b.md".into(), "---\ntitle: B\nvisible: false\n---\ny".into()),
        ("c.md".into(), "---\ntitle: C\n---\nz".into()),
    ];
    let items = index_items_of(&files).unwrap();
    let entries = archive_entries_of(&files).unwrap();
    assert_eq!(items.len(), 2);
    assert_eq!(entries.len(), 2);
    for (i, e) in items.iter().zip(entries.iter()) {
        assert_eq!(i.filename, e.0);
        assert_eq!(i.title, e.1.title);
    }
    let mut bad = files.clone();
    bad.insert(1, ("d.md".into(), "no header".into()));
    assert!(index_items_of(&bad).is_err());
    assert!(archive_entries_of(&bad).is_err());
}
