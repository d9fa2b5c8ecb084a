use haberlendir::channel::{is_parse_safe, read_channel, ChannelError, RawChannel, RawEntry, Timestamp};
use haberlendir::news::feed::{Feed, Source};
use haberlendir::news::parser::{clean_html, Parser};

const RSS: &str = r#"<?xml version="1.0" encoding="UTF-8"?>
<rss version="2.0" xmlns:media="http://search.yahoo.com/mrss/" xmlns:content="http://purl.org/rss/1.0/modules/content/">
<channel>
<title>Haber Kaynağı</title>
<link>https://example.com</link>
<description>news</description>
<item>
<title>First &amp; best</title>
<link>https://example.com/1</link>
<guid>id-1</guid>
<description><![CDATA[<p>Hello   <b>world</b> &amp; more</p>]]></description>
<pubDate>Tue, 02 Jan 2024 03:04:05 GMT</pubDate>
<media:content url="https://example.com/img.jpg" medium="image"/>
</item>
<item>
<guid>id-2</guid>
<description>no title here</description>
</item>
<item>
<title>Third</title>
<guid>id-3</guid>
<content:encoded><![CDATA[<div> Body  (adsbygoogle = window.adsbygoogle || []).push({}); &quot;quoted&quot; </div>]]></content:encoded>
</item>
</channel>
</rss>"#;

const UNTITLED: &str = r#"<?xml version="1.0"?>
<rss version="2.0"><channel><link>https://x</link><description>d</description>
<item><title>T</title><guid>g</guid></item></channel></rss>"#;

fn entry(id: &str, title: Option<&str>) -> RawEntry {
    RawEntry {
        id: id.to_string(),
        title: title.map(|t| t.to_string()),
        links: vec![],
        summary: None,
        content: None,
        published: None,
        published_text: None,
        media: vec![],
    }
}

#[test]
fn clean_html_removes_tags_and_spacing() {
    assert_eq!(clean_html("<p>  Hello \n\n <b>world</b>\t</p> "), "Hello world");
    assert_eq!(clean_html("a<br/>b"), "ab");
    assert_eq!(clean_html("x < y > z"), "x z");
    assert_eq!(clean_html(""), "");
}

#[test]
fn clean_html_is_idempotent_and_tag_free() {
    for s in ["<p> a  <i>b</i> </p>", " <<x>> y ", "1 < 2 and 3 > 2", "\u{a0}a\u{2003}\u{2003}b "] {
        let once = clean_html(s);
        assert_eq!(clean_html(&once), once);
        assert!(!once.contains("  "));
        assert_eq!(once.trim(), once);
        let re = regex::Regex::new(r"<[^>]+>").unwrap();
        assert!(!re.is_match(&once), "{:?}", once);
    }
}

#[test]
fn description_decodes_references() {
    let p = Parser { urls: vec![] };
    assert_eq!(p.description("<p>Tom &amp; Jerry &#8217;s</p>"), "Tom & Jerry \u{2019}s");
    assert_eq!(p.description("plain"), "plain");
}

#[test]
fn content_drops_the_ad_snippet() {
    let p = Parser { urls: vec![] };
    let body = "<div>A (adsbygoogle = window.adsbygoogle || []).push({}); B &lt;x&gt;</div>";
    assert_eq!(p.content(body), "A  B <x>");
    assert_eq!(p.content("  <b>only</b>  "), "only");
}

#[test]
fn build_reads_one_url_per_line() {
    let p = Parser::build("https://a/rss\nhttps://b/rss\n");
    assert_eq!(p.urls, vec!["https://a/rss".to_string(), "https://b/rss".to_string()]);
    assert!(Parser::build("").urls.is_empty());
}

#[test]
fn read_channel_refuses_non_feeds() {
    assert_eq!(read_channel(b"hello world").err(), Some(ChannelError::Unparsable));
    assert_eq!(read_channel(b"").err(), Some(ChannelError::Unparsable));
    assert_eq!(read_channel(b"<html><body>x</body></html>").err(), Some(ChannelError::Unparsable));
}

#[test]
fn read_channel_reads_entries() {
    let c = read_channel(RSS.as_bytes()).unwrap();
    assert_eq!(c.title.as_deref(), Some("Haber Kaynağı"));
    assert_eq!(c.entries.len(), 3);
    let e = &c.entries[0];
    assert_eq!(e.id, "id-1");
    assert_eq!(e.title.as_deref(), Some("First & best"));
    assert_eq!(e.links, vec!["https://example.com/1".to_string()]);
    assert_eq!(e.published, Some(Timestamp { secs: 1704164645, nanos: 0 }));
    assert_eq!(e.published_text.as_deref(), Some("2024-01-02 03:04:05 UTC"));
    assert_eq!(e.media[0][0].as_deref(), Some("https://example.com/img.jpg"));
    assert!(c.entries[1].title.is_none());
}

#[test]
fn get_rss_makes_items_of_titled_entries() {
    let p = Parser { urls: vec![] };
    let items = p.get_rss("https://example.com/rss", RSS.as_bytes()).unwrap();
    assert_eq!(items.len(), 2);
    let a = &items[0];
    assert_eq!(a.id, "id-1");
    assert_eq!(a.title, "First & best");
    assert_eq!(a.link, "https://example.com/1");
    assert_eq!(a.description.as_deref(), Some("Hello world & more"));
    assert_eq!(a.content, None);
    assert_eq!(a.author, vec!["Haber Kaynağı".to_string()]);
    assert_eq!(
        a.source,
        Source { name: "Haber Kaynağı".to_string(), url: vec![], image: None, rss: "https://example.com/rss".to_string() }
    );
    assert_eq!(a.images.as_deref(), Some("https://example.com/img.jpg"));
    assert_eq!(a.published, Some(Timestamp { secs: 1704164645, nanos: 0 }));
    assert!(a.created_at.secs > 1_600_000_000);
    assert!(a.created_at.nanos < 2_000_000_000);
    let b = &items[1];
    assert_eq!(b.title, "Third");
    assert_eq!(b.link, "");
    assert_eq!(b.content.as_deref(), Some("Body  \"quoted\""));
    assert_eq!(b.description(), &None);
}

#[test]
fn get_rss_of_untitled_feed_is_empty() {
    let p = Parser { urls: vec![] };
    assert_eq!(p.get_rss("u", UNTITLED.as_bytes()).unwrap().len(), 0);
    assert_eq!(p.get_rss("u", b"not a feed").err(), Some(ChannelError::Unparsable));
}

#[test]
fn feeds_from_channel_skips_untitled_entries() {
    let p = Parser { urls: vec![] };
    let c = RawChannel {
        title: Some("S".to_string()),
        entries: vec![entry("1", None), entry("2", Some("two")), entry("3", None), entry("4", Some("four"))],
    };
    let items = p.feeds_from_channel("u", &c);
    let ids: Vec<&str> = items.iter().map(|f| f.id.as_str()).collect();
    assert_eq!(ids, vec!["2", "4"]);
    let empty_title = RawChannel { title: Some(String::new()), entries: vec![entry("1", Some("x"))] };
    assert!(p.feeds_from_channel("u", &empty_title).is_empty());
    let no_title = RawChannel { title: None, entries: vec![entry("1", Some("x"))] };
    assert!(p.feeds_from_channel("u", &no_title).is_empty());
}

#[test]
fn get_all_rss_joins_pages_in_order() {
    let p = Parser { urls: vec!["a".to_string(), "b".to_string(), "c".to_string()] };
    let pages = vec![Some(RSS.as_bytes().to_vec()), None, Some(b"junk".to_vec())];
    let items: Vec<Feed> = p.get_all_rss(&pages);
    assert_eq!(items.len(), 2);
    assert_eq!(items[0].source.rss, "a");
    let pages = vec![Some(RSS.as_bytes().to_vec()), None, Some(RSS.as_bytes().to_vec())];
    let items = p.get_all_rss(&pages);
    let rss: Vec<&str> = items.iter().map(|f| f.source.rss.as_str()).collect();
    assert_eq!(rss, vec!["a", "a", "c", "c"]);
}

#[test]
fn parse_safety_check() {
    assert!(is_parse_safe(RSS.as_bytes()));
    assert!(is_parse_safe(UNTITLED.as_bytes()));
    assert!(is_parse_safe(b"weekend plans: start early, end late, the duration is 5"));
    assert!(is_parse_safe(b""));
    assert!(is_parse_safe(br#"<a href="https://x/?start=10&amp;end=20">v</a>"#));
    assert!(is_parse_safe(br#"&lt;ol start="2"&gt;"#));
    assert!(is_parse_safe(br#"<media:thumbnail url="u" time="12:05:35.123"/>"#));
    assert!(is_parse_safe(b"<itunes:duration>12:34</itunes:duration>"));
    assert!(is_parse_safe(b"<itunes:duration/>"));
    assert!(is_parse_safe(b"a\0b"));
    assert!(!is_parse_safe(br#"<media:thumbnail url="u" time="99999999999999999999"/>"#));
    assert!(!is_parse_safe(br#"<media:text start = "1234567890123456" >x</media:text>"#));
    assert!(!is_parse_safe("<media:text end='\u{663}'>x</media:text>".as_bytes()));
    assert!(!is_parse_safe(br#"<media:text end="&#1635;">x</media:text>"#));
    assert!(!is_parse_safe(br#"<media:text end="1>x</media:text>"#));
    assert!(!is_parse_safe(b"<itunes:duration>99999999999999999999</itunes:duration>"));
    assert!(!is_parse_safe(b"<itunes:duration><![CDATA[1]]></itunes:duration>"));
    assert!(!is_parse_safe(b"<duration>1&#48;</duration>"));
    assert!(!is_parse_safe(b"\x1b$B"));
    assert!(!is_parse_safe(b"t\0i\0m\0e\0=\0"));
    assert!(!is_parse_safe(b"\0d\0u\0r\0a\0t\0i\0o\0n"));
}

#[test]
fn podcast_feed_is_read() {
    let page = r#"<?xml version="1.0"?>
<rss version="2.0" xmlns:itunes="http://www.itunes.com/dtds/podcast-1.0.dtd" xmlns:media="http://search.yahoo.com/mrss/">
<channel><title>Pod</title>
<item><title>Ep</title><guid>e1</guid><itunes:duration>12:34</itunes:duration>
<media:thumbnail url="https://x/t.jpg" time="12:05:35.5"/></item>
</channel></rss>"#;
    assert!(is_parse_safe(page.as_bytes()));
    let p = Parser { urls: vec![] };
    let items = p.get_rss("u", page.as_bytes()).unwrap();
    assert_eq!(items.len(), 1);
    assert_eq!(items[0].title, "Ep");
}

#[test]
fn utf16_feed_passes_the_check() {
    let text = "<?xml version=\"1.0\" encoding=\"UTF-16\"?><rss version=\"2.0\"><channel><title>S</title></channel></rss>";
    let mut bytes = vec![0xFFu8, 0xFE];
    for u in text.encode_utf16() {
        bytes.extend_from_slice(&u.to_le_bytes());
    }
    assert!(is_parse_safe(&bytes));
}

#[test]
fn content_equals_description_without_ads() {
    let p = Parser { urls: vec![] };
    for s in ["<p>  Tom &amp;\n\n Jerry </p>", "plain", "", " a\t\tb "] {
        assert_eq!(p.content(s), p.description(s));
    }
    assert_ne!(p.content("a (adsbygoogle = window.adsbygoogle || []).push({}); b"), p.description("a (adsbygoogle = window.adsbygoogle || []).push({}); b"));
}

#[test]
fn same_bytes_same_channel() {
    let page = r#"<?xml version="1.0"?>
<rss version="2.0"><channel><title>S</title>
<item><title>Linked</title><link>https://x/a</link></item>
<item><title>Guid</title><guid>g</guid></item>
</channel></rss>"#;
    let a = read_channel(page.as_bytes()).unwrap();
    let b = read_channel(page.as_bytes()).unwrap();
    assert_eq!(a.title, b.title);
    assert_eq!(a.entries.len(), 2);
    for (x, y) in a.entries.iter().zip(b.entries.iter()) {
        assert_eq!(x.id, y.id);
        assert_eq!(x.title, y.title);
        assert_eq!(x.links, y.links);
    }
    assert_eq!(a.entries[1].id, "g");
    let p = Parser { urls: vec![] };
    let i1 = p.get_rss("u", page.as_bytes()).unwrap();
    let i2 = p.get_rss("u", page.as_bytes()).unwrap();
    let ids1: Vec<&str> = i1.iter().map(|f| f.id.as_str()).collect();
    let ids2: Vec<&str> = i2.iter().map(|f| f.id.as_str()).collect();
    assert_eq!(ids1, ids2);
}

#[test]
fn description_without_references_is_cleaned_text() {
    let p = Parser { urls: vec![] };
    assert_eq!(p.description("<i>a</i>   b"), clean_html("<i>a</i>   b"));
    assert_eq!(p.content("<i>a</i>   b"), "a b");
}
