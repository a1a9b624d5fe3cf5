use blog_service::template::template_may_recurse;
use blog_service::article::ArticleConfig;
use blog_service::template::{
    render_archives, render_article_from_markdown, render_final_html_content,
    render_html_from_markdown, render_toc_html_from_markdown, try_render_archives,
    try_render_final_html_content, IndexItem,
};
use blog_service::timestamp::Timestamp;

const TEMPLATE: &str = "<title>{{title}}</title>{{{main_html_content}}}{{#if comments}}[c]{{/if}}<nav>{{{toc}}}</nav>";

fn config(title: &str) -> ArticleConfig {
    let mut c = ArticleConfig::new_at(Timestamp { secs: 0, nanos: 0 });
    c.title = title.to_string();
    c
}

#[test]
fn test_pulldown_cmark_toc() {
    let real_content = "# Intro\n\ntext\n\n## Part 1\n\n### Level 1\n";
    let toc = pulldown_cmark_toc::TableOfContents::new(real_content);
    let res = toc.to_cmark();
    println!("{}", res);
    let html = render_toc_html_from_markdown(real_content);
    assert!(html.contains("<ol>"));
    assert!(!html.contains("ul"));
    assert!(html.contains("href=\"#part-1\""));
}

#[test]
fn markdown_with_strikethrough() {
    assert_eq!(render_html_from_markdown("~~gone~~"), "<p><del>gone</del></p>\n");
    assert_eq!(render_html_from_markdown("# T"), "<h1>T</h1>\n");
}

#[test]
fn final_page_fills_template() {
    assert_eq!(
        render_final_html_content(TEMPLATE, "A", "<p>m</p>", true, "t"),
        "<title>A</title><p>m</p>[c]<nav>t</nav>"
    );
    assert_eq!(try_render_final_html_content("{{#each}}", "A", "", false, ""), None);
}

#[test]
fn article_page_renders_body_and_toc() {
    let page = render_article_from_markdown(config("Post"), "# Head\n\nsome *text*", TEMPLATE);
    assert!(page.starts_with("<title>Post</title><h1>Head</h1>\n<p>some <em>text</em></p>\n[c]<nav><ol>"));
}

#[test]
fn archives_link_each_post() {
    let entries = vec![("a".to_string(), config("First")), ("b".to_string(), config("Second"))];
    assert_eq!(
        render_archives("Arch", entries, "{{title}}|{{{main_html_content}}}|{{comments}}|{{toc}}"),
        "Arch|<a href=/blog/a>First</a><br> \n<a href=/blog/b>Second</a>|false|"
    );
    assert_eq!(try_render_archives("Arch", vec![], "{{{main_html_content}}}"), Some(String::new()));
}

#[test]
fn index_item_holds_its_fields() {
    let i = IndexItem::new("f".into(), "t".into(), "h".into());
    assert_eq!((i.filename.as_str(), i.title.as_str(), i.heading.as_str()), ("f", "t", "h"));
}

#[test]
fn only_templates_that_may_recurse_are_refused() {
    let recursive = "{{#*inline \"p\"}}{{> p}}{{/inline}}{{> p}}";
    assert!(template_may_recurse(recursive));
    assert!(template_may_recurse("{{~ # * inline \"q\"}}x{{/inline}}{{~ >q}}"));
    assert!(!template_may_recurse("{{!-- {{> header}} --}}{{title}}"));
    assert!(!template_may_recurse("{{#> p}}fallback{{/p}}"));
    assert!(!template_may_recurse("\\{{*inline \"p\"}}{{> p}}"));
    assert!(template_may_recurse("\\\\{{*inline \"p\"}}{{> p}}"));
    assert!(!template_may_recurse("\\{{*inline \"p\"}}x\\{{> p}}"));
    assert!(!template_may_recurse("{{#*inline \"p\"}}x{{/inline}}{{title}}"));
    assert_eq!(try_render_final_html_content(recursive, "A", "", false, ""), None);
    assert_eq!(
        try_render_final_html_content("{{!-- {{> header}} --}}{{title}}", "A", "", false, ""),
        Some("A".to_string())
    );
    assert_eq!(
        try_render_final_html_content("{{#> p}}fallback {{title}}{{/p}}", "A", "", false, ""),
        Some("fallback A".to_string())
    );
    assert_eq!(
        try_render_final_html_content(
            "{{#*inline \"p\"}}[{{title}}]{{/inline}}{{title}}",
            "A",
            "",
            false,
            ""
        ),
        Some("A".to_string())
    );
    assert_eq!(try_render_final_html_content("{{> missing}}", "A", "", false, ""), None);
    assert_eq!(try_render_archives("A", vec![], recursive), None);
    assert_eq!(
        blog_service::template::try_render_article_from_markdown(config("t"), "x", recursive),
        None
    );
}
