use haberlendir::channel::ChannelError;
use haberlendir::feed::{Feed, UI};
use haberlendir::parser::Parser;

const RSS: &str = r#"<?xml version="1.0"?>
<rss version="2.0" xmlns:content="http://purl.org/rss/1.0/modules/content/">
<channel><title>Ajans</title><link>https://x</link><description>d</description>
<item><title>One</title><link>https://x/1</link><guid>g1</guid>
<description><![CDATA[a <b>bold</b> &amp; <i
>x</i> move]]></description>
<pubDate>Tue, 02 Jan 2024 03:04:05 GMT</pubDate>
<content:encoded><![CDATA[<p class="c">Hi</p>

(adsbygoogle = window.adsbygoogle || []).push({});

end]]></content:encoded>
</item>
<item><guid>g2</guid></item>
</channel></rss>"#;

fn feed(description: Option<&str>, content: Option<&str>) -> Feed {
    Feed {
        title: "Başlık x".to_string(),
        link: String::new(),
        description: description.map(|s| s.to_string()),
        author: "Ajans".to_string(),
        guid: "g".to_string(),
        images: None,
        published: None,
        content: content.map(|s| s.to_string()),
    }
}

#[test]
fn description_fixes_references() {
    let f = feed(Some("<p title='a>b'>It&#039;s &amp; &quot;ok&quot;</p>\n\nx"), None);
    assert_eq!(f.description().as_deref(), Some("It's & \"ok\"\nx"));
    assert_eq!(feed(None, None).description(), None);
}

#[test]
fn content_fixes_references() {
    let f = feed(None, Some("<div>&#8220;A&#8217;s&#46;</div>(adsbygoogle = window.adsbygoogle || []).push({});"));
    assert_eq!(f.content().as_deref(), Some("\u{201c}A's.".replace('\u{201c}', "\"").as_str()));
}

#[test]
fn image_from_source_prefers_description() {
    let f = feed(Some("photo src=\"https://i/1.png\" here"), Some("src=\"https://i/2.png\""));
    assert_eq!(f.image_from_source(), "https://i/1.png");
    let f = feed(None, Some("see src=\"https://i/2.png\""));
    assert_eq!(f.image_from_source(), "https://i/2.png");
    let f = feed(Some("no image"), Some("src=\"https://i/2.png\""));
    assert_eq!(f.image_from_source(), "");
    assert_eq!(feed(None, None).image_from_source(), "");
}

#[test]
fn write_shows_title_description_author() {
    let f = feed(Some("<b>Kısa</b> özet"), None);
    assert_eq!(f.write(), "BAŞLIK X\n\nKısa özet\n@Ajans\n");
    assert_eq!(feed(None, None).write(), "BAŞLIK X\n\n\n@Ajans\n");
}

#[test]
fn terminal_parser_reads_titled_entries() {
    let p = Parser::build("https://x/rss\n");
    assert_eq!(p.urls, vec!["https://x/rss".to_string()]);
    let items = p.get_rss(RSS.as_bytes()).unwrap();
    assert_eq!(items.len(), 1);
    let a = &items[0];
    assert_eq!(a.title, "One");
    assert_eq!(a.author, "Ajans");
    assert_eq!(a.guid, "g1");
    assert_eq!(a.link, "https://x/1");
    assert_eq!(a.description.as_deref(), Some("a bold & <i\n>x move"));
    assert_eq!(a.content.as_deref(), Some("Hi\n\nend"));
    assert_eq!(a.published.as_deref(), Some("2024-01-02 03:04:05 UTC"));
}

#[test]
fn terminal_parser_errors() {
    let p = Parser { urls: vec![] };
    assert_eq!(p.get_rss(b"plain").err(), Some(ChannelError::Unparsable));
    let untitled = r#"<?xml version="1.0"?><rss version="2.0"><channel><link>l</link><item><title>T</title></item></channel></rss>"#;
    assert_eq!(p.get_rss(untitled.as_bytes()).err(), Some(ChannelError::Untitled));
    let pages = vec![Some(RSS.as_bytes().to_vec()), Some(untitled.as_bytes().to_vec()), None];
    let p3 = Parser { urls: vec!["a".into(), "b".into(), "c".into()] };
    assert_eq!(p3.get_all_rss(&pages).len(), 1);
}

#[test]
fn terminal_texts_without_references() {
    let p = Parser { urls: vec![] };
    assert_eq!(p.description("<b>x</b> y".to_string()), "x y");
    assert_eq!(p.content("<p>a</p>\n\nb".to_string()), "a\nb");
}

#[test]
fn terminal_reading_is_repeatable() {
    let p = Parser { urls: vec![] };
    assert_eq!(p.get_rss(RSS.as_bytes()).unwrap(), p.get_rss(RSS.as_bytes()).unwrap());
}
