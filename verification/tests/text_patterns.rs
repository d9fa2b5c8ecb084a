use haberlendir::markup::{find_src_link, remove_lazy_tags, remove_markup, remove_simple_tags};
use haberlendir::parse::{parse_bool, parse_i64, parse_u64};
use haberlendir::text::{
    chars_of, collapse_whitespace, is_whitespace, replace_chars, split_lines, string_of, trim_chars,
    trim_matches_char,
};
use regex::Regex;

struct Lcg(u64);

impl Lcg {
    fn next(&mut self) -> u64 {
        self.0 = self.0.wrapping_mul(6364136223846793005).wrapping_add(1442695040888963407);
        self.0 >> 33
    }
    fn text(&mut self, alphabet: &[char], max_len: u64) -> String {
        let n = self.next() % (max_len + 1);
        (0..n).map(|_| alphabet[(self.next() % alphabet.len() as u64) as usize]).collect()
    }
}

const MARKUP_CHARS: &[char] = &['<', '>', '"', '\'', 'a', 'b', ' ', '\n', '\t', '\u{a0}', 's', 'r', 'c', '='];

fn via(f: fn(&Vec<char>) -> Vec<char>, s: &str) -> String {
    let v = chars_of(s);
    string_of(&f(&v))
}

#[test]
fn whitespace_agrees_with_std() {
    for u in 0..=0x10FFFFu32 {
        if let Some(c) = char::from_u32(u) {
            assert_eq!(is_whitespace(c), c.is_whitespace(), "{:x}", u);
        }
    }
}

#[test]
fn trim_agrees_with_std() {
    let mut g = Lcg(1);
    for _ in 0..3000 {
        let s = g.text(MARKUP_CHARS, 12);
        assert_eq!(via(trim_chars, &s), s.trim());
    }
    assert_eq!(via(trim_chars, "  \u{3000}x y\n\t"), "x y");
    assert_eq!(via(trim_chars, " \n "), "");
}

#[test]
fn collapse_agrees_with_regex() {
    let re = Regex::new(r"\s+").unwrap();
    let mut g = Lcg(2);
    for _ in 0..3000 {
        let s = g.text(MARKUP_CHARS, 14);
        assert_eq!(via(collapse_whitespace, &s), re.replace_all(&s, " "), "{:?}", s);
    }
    assert_eq!(via(collapse_whitespace, "a \n\t b\u{a0}c"), "a b c");
}

#[test]
fn simple_tags_agree_with_regex() {
    let re = Regex::new(r"<[^>]+>").unwrap();
    let mut g = Lcg(3);
    for _ in 0..5000 {
        let s = g.text(MARKUP_CHARS, 16);
        assert_eq!(via(remove_simple_tags, &s), re.replace_all(&s, ""), "{:?}", s);
    }
    assert_eq!(via(remove_simple_tags, "<p>Hi <b>there</b></p><>x<"), "Hi there<>x<");
}

#[test]
fn lazy_tags_agree_with_regex() {
    let re = Regex::new(r"<.*?>").unwrap();
    let mut g = Lcg(4);
    for _ in 0..5000 {
        let s = g.text(MARKUP_CHARS, 16);
        assert_eq!(via(remove_lazy_tags, &s), re.replace_all(&s, ""), "{:?}", s);
    }
    assert_eq!(via(remove_lazy_tags, "a<b>c<>d<\n>e"), "acd<\n>e");
}

#[test]
fn markup_agrees_with_regex() {
    let re = Regex::new(r#"<(?:"[^"]*"['"]*|'[^']*'['"]*|[^'">])+>"#).unwrap();
    let mut g = Lcg(5);
    for _ in 0..20000 {
        let s = g.text(MARKUP_CHARS, 18);
        assert_eq!(via(remove_markup, &s), re.replace_all(&s, ""), "{:?}", s);
    }
    assert_eq!(via(remove_markup, r#"x<a href="b>c">y</a>z"#), "xyz");
    assert_eq!(via(remove_markup, r#"<a title='it"s'>k"#), "k");
    assert_eq!(via(remove_markup, "<>"), "<>");
}

#[test]
fn src_link_agrees_with_regex() {
    let re = Regex::new(r#"src="(?<link>.+)""#).unwrap();
    let mut g = Lcg(6);
    for _ in 0..5000 {
        let mut s = g.text(MARKUP_CHARS, 10);
        if g.next() % 2 == 0 {
            s.push_str("src=\"");
            s.push_str(&g.text(MARKUP_CHARS, 10));
        }
        let expected = re.captures(&s).map(|c| c.name("link").unwrap().as_str().to_string());
        let got = find_src_link(&chars_of(&s)).map(|l| string_of(&l));
        assert_eq!(got, expected, "{:?}", s);
    }
    let got = find_src_link(&chars_of(r#"<img src="https://x/y.jpg" alt="z">"#)).map(|l| string_of(&l));
    assert_eq!(got, Some(r#"https://x/y.jpg" alt="z"#.to_string()));
}

#[test]
fn replace_agrees_with_std() {
    let mut g = Lcg(7);
    for _ in 0..3000 {
        let s = g.text(&['a', 'b', '\n'], 14);
        let pat = g.text(&['a', 'b', '\n'], 3);
        if pat.is_empty() {
            continue;
        }
        let rep = g.text(&['a', 'c'], 2);
        let got = string_of(&replace_chars(&chars_of(&s), &chars_of(&pat), &chars_of(&rep)));
        assert_eq!(got, s.replace(&pat, &rep));
    }
    let got = string_of(&replace_chars(&chars_of("\n\n\n"), &chars_of("\n\n"), &chars_of("\n")));
    assert_eq!(got, "\n\n");
}

#[test]
fn lines_agree_with_std() {
    let mut g = Lcg(8);
    for _ in 0..3000 {
        let s = g.text(&['a', '\r', '\n'], 10);
        let expected: Vec<String> = s.lines().map(|l| l.to_string()).collect();
        assert_eq!(split_lines(&s), expected, "{:?}", s);
    }
    assert_eq!(split_lines("https://a/rss\r\nhttps://b/rss\n"), vec!["https://a/rss", "https://b/rss"]);
    assert!(split_lines("").is_empty());
}

#[test]
fn lines_never_hold_a_line_feed() {
    for line in split_lines("a\nb\r\n\nc\r") {
        assert!(!line.contains('\n'));
    }
}

#[test]
fn numbers_agree_with_std() {
    let mut g = Lcg(9);
    for _ in 0..5000 {
        let s = g.text(&['0', '1', '9', '+', '-', ' ', 'x'], 6);
        assert_eq!(parse_i64(&s), s.parse::<i64>().ok(), "{:?}", s);
        assert_eq!(parse_u64(&s), s.parse::<u64>().ok(), "{:?}", s);
    }
    for s in [
        "9223372036854775807",
        "9223372036854775808",
        "-9223372036854775808",
        "-9223372036854775809",
        "18446744073709551615",
        "18446744073709551616",
        "+0",
        "-0",
        "+",
        "-",
        "",
        "007",
        "99999999999999999999999",
    ] {
        assert_eq!(parse_i64(s), s.parse::<i64>().ok(), "{:?}", s);
        assert_eq!(parse_u64(s), s.parse::<u64>().ok(), "{:?}", s);
    }
    assert_eq!(parse_i64("-42"), Some(-42));
    assert_eq!(parse_u64("-42"), None);
}

#[test]
fn booleans_agree_with_std() {
    for s in ["true", "false", "True", "", "1", "truee", " true"] {
        assert_eq!(parse_bool(s), s.parse::<bool>().ok());
    }
}

#[test]
fn trim_matches_agrees_with_std() {
    let mut g = Lcg(10);
    for _ in 0..2000 {
        let s = g.text(&['"', 'a', ' '], 8);
        assert_eq!(trim_matches_char(&s, '"'), s.trim_matches('"'));
    }
    assert_eq!(trim_matches_char("\"Haber\"", '"'), "Haber");
}
