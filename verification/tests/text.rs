use blog_service::text::{
    chars_of, ends_with_chars, is_whitespace, join_chars, lines_chars, replace_chars,
    split_chars, starts_with_chars, string_of, strip_prefixes_chars, strip_suffixes_chars,
    trim_chars,
};

fn s(v: &[char]) -> String {
    string_of(v)
}

fn cs(x: &str) -> Vec<char> {
    chars_of(x)
}

const SAMPLES: [&str; 12] = [
    "", "a", "a\n", "a\r", "a\r\n", "\r\n", "\n\n", "a\nb\r\nc", " x \u{3000}", "\r\r\n",
    "\u{85}y\u{2028}", "a\n\r",
];

#[test]
fn lines_match_std() {
    for sample in SAMPLES {
        let ours: Vec<String> = lines_chars(&cs(sample)).iter().map(|l| s(l)).collect();
        let std: Vec<String> = sample.lines().map(|l| l.to_string()).collect();
        assert_eq!(ours, std, "lines of {:?}", sample);
    }
}

#[test]
fn trim_matches_std() {
    for sample in SAMPLES {
        assert_eq!(s(&trim_chars(&cs(sample))), sample.trim(), "trim of {:?}", sample);
    }
    for c in ['\t', '\u{b}', ' ', '\u{a0}', '\u{1680}', '\u{200a}', '\u{205f}', 'a', '\u{200b}', '\u{feff}'] {
        assert_eq!(is_whitespace(c), c.is_whitespace(), "{:?}", c);
    }
}

#[test]
fn split_and_join_match_std() {
    for sample in ["", ",", "a,b", ",a,,b,", "abc"] {
        let ours: Vec<String> = split_chars(&cs(sample), ',').iter().map(|p| s(p)).collect();
        let std: Vec<String> = sample.split(',').map(|p| p.to_string()).collect();
        assert_eq!(ours, std);
        let joined = join_chars(&split_chars(&cs(sample), ','), &cs("<>"));
        assert_eq!(s(&joined), std.join("<>"));
    }
}

#[test]
fn prefixes_suffixes_and_replace_match_std() {
    for (text, pat) in [("title:title: x", "title:"), ("x", ""), ("a.md.md", ".md"), ("", "ab")] {
        assert_eq!(s(&strip_prefixes_chars(&cs(text), &cs(pat))), text.trim_start_matches(pat));
        assert_eq!(s(&strip_suffixes_chars(&cs(text), &cs(pat))), text.trim_end_matches(pat));
        assert_eq!(starts_with_chars(&cs(text), &cs(pat)), text.starts_with(pat));
        assert_eq!(ends_with_chars(&cs(text), &cs(pat)), text.ends_with(pat));
    }
    for text in ["<ul><li>ul</li></ul>", "uul", "ulul", "u", ""] {
        assert_eq!(s(&replace_chars(&cs(text), &cs("ul"), &cs("ol"))), text.replace("ul", "ol"));
    }
    assert_eq!(s(&replace_chars(&cs("aaa"), &cs("aa"), &cs("b"))), "aaa".replace("aa", "b"));
}
