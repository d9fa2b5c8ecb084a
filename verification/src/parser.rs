//! The terminal feed reader: items keep the feed's title as author, and
//! their texts are cleaned with the markup patterns.
use vstd::prelude::*;

use crate::channel::{
    channel_matches, entry_matches, feed_parses, parse_safe, parsed_entry_count, parsed_title, read_channel, ChannelError, RawChannel, RawEntry,
};
use crate::entities::{decode_html_entities, html_entities_decoded};
use crate::feed::Feed;
use crate::markup::{
    ads_chars, ads_snippet, lemma_no_tag_start_strips_nothing, remove_lazy_tags, remove_markup, strip_lazy_tags, strip_markup,
};
use crate::news::parser::{
    body_text, copy_opt, entries_agree, first_link, first_media_url, lemma_entry_parts_agree,
    lemma_titled_agree, lemma_titled_ids, pages_safe, titled, titled_ids,
};
use crate::text::{
    chars_of, lemma_replace_absent, lines, occurs_at, replace, replace_chars, split_lines, string_of,
};

verus! {

/// The feed reader: the addresses of the feeds it reads.
#[derive(Debug, PartialEq)]
pub struct Parser {
    pub urls: Vec<String>,
}

/// A description made from a summary: tags `<.*?>` removed, references
/// decoded.
pub open spec fn summary_text(s: Seq<char>) -> Seq<char> {
    html_entities_decoded(strip_lazy_tags(s))
}

/// A content made from a body: markup removed, the advertising snippet
/// removed, double line feeds made single, references decoded.
pub open spec fn body_content(s: Seq<char>) -> Seq<char> {
    html_entities_decoded(body_plain(s))
}

/// The content before references are decoded.
pub open spec fn body_plain(s: Seq<char>) -> Seq<char> {
    replace(replace(strip_markup(s), ads_snippet(), Seq::empty()), seq!['\n', '\n'], seq!['\n'])
}

/// `f` is the item that entry `e` of the feed titled `source` gives.
pub open spec fn item_of_entry(f: Feed, e: RawEntry, source: Seq<char>) -> bool {
    &&& e.title matches Some(t) && f.title@ == t@
    &&& f.author@ == source
    &&& f.link@ == first_link(e)
    &&& f.description.deep_view() == (match e.summary {
        Some(s) => Some(summary_text(s@)),
        None => None,
    })
    &&& f.content.deep_view() == (match e.content {
        Some(b) => Some(body_content(body_text(b))),
        None => None,
    })
    &&& f.published.deep_view() == e.published_text.deep_view()
    &&& f.images.deep_view() == first_media_url(e)
    &&& f.guid@ == e.id@
}

/// `items` are the items of the titled feed `c`: one per entry with a title,
/// in order.
pub open spec fn items_of_channel(items: Seq<Feed>, c: RawChannel) -> bool {
    let es = titled(c.entries@);
    &&& c.title is Some
    &&& items.len() == es.len()
    &&& forall|k: int|
        0 <= k < items.len() ==> item_of_entry(#[trigger] items[k], es[k], c.title->0@)
}

/// `items` are the items of the titled feed that `feed_rs` reads from
/// `bytes` (the identifiers that `feed_rs` makes up at random aside).
pub open spec fn is_feed_outcome(items: Seq<Feed>, bytes: Seq<u8>) -> bool {
    exists|c: RawChannel| #[trigger] channel_matches(c, bytes) && items_of_channel(items, c)
}

/// `items` are what the fetched `pages` give: for each page in order, nothing
/// when it could not be fetched or holds no titled feed, else its items.
pub open spec fn all_feeds_outcome(items: Seq<Feed>, pages: Seq<Option<Seq<u8>>>) -> bool {
    exists|parts: Seq<Seq<Feed>>|
        {
            &&& parts.len() == pages.len()
            &&& items == parts.flatten()
            &&& forall|i: int| 0 <= i < parts.len() ==> page_outcome(#[trigger] parts[i], pages[i])
        }
}

/// `part` is what one fetched page gives: the items of its feed when
/// `feed_rs` reads one with a title from it, else nothing.
pub open spec fn page_outcome(part: Seq<Feed>, page: Option<Seq<u8>>) -> bool {
    match page {
        None => part.len() == 0,
        Some(bytes) => if feed_parses(bytes) && parsed_title(bytes) is Some {
            is_feed_outcome(part, bytes)
        } else {
            part.len() == 0
        },
    }
}

/// Two items agree in every field but their identifiers.
pub open spec fn same_item_but_id(a: Feed, b: Feed) -> bool {
    &&& a.title@ == b.title@
    &&& a.link@ == b.link@
    &&& a.description.deep_view() == b.description.deep_view()
    &&& a.author@ == b.author@
    &&& a.images.deep_view() == b.images.deep_view()
    &&& a.published.deep_view() == b.published.deep_view()
    &&& a.content.deep_view() == b.content.deep_view()
}

/// Reading the same bytes twice gives the same items, in the same order; an
/// item's identifier is the one the bytes give its entry wherever they give
/// one (where the entry has an identifier or a link), so that there the two
/// reads agree on it too.
pub proof fn reading_is_repeatable(a: Seq<Feed>, b: Seq<Feed>, bytes: Seq<u8>)
    requires
        is_feed_outcome(a, bytes),
        is_feed_outcome(b, bytes),
    ensures
        a.len() == b.len(),
        forall|k: int| 0 <= k < a.len() ==> same_item_but_id(#[trigger] a[k], b[k]),
        forall|k: int|
            0 <= k < a.len() ==> (#[trigger] titled_ids(bytes, parsed_entry_count(bytes) as int)[k] matches Some(
                x,
            ) ==> a[k].guid@ == x && b[k].guid@ == x),
{
    let c = choose|c: RawChannel| #[trigger] channel_matches(c, bytes) && items_of_channel(a, c);
    let d = choose|d: RawChannel| #[trigger] channel_matches(d, bytes) && items_of_channel(b, d);
    assert forall|i: int| 0 <= i < c.entries@.len() implies entries_agree(
        #[trigger] c.entries@[i],
        d.entries@[i],
    ) by {
        assert(entry_matches(c.entries@[i], bytes, i));
        assert(entry_matches(d.entries@[i], bytes, i));
    }
    lemma_titled_agree(c.entries@, d.entries@);
    lemma_titled_ids(c.entries@, bytes);
    lemma_titled_ids(d.entries@, bytes);
    assert(c.title.deep_view() == d.title.deep_view());
    let source = c.title->0@;
    assert(source == d.title->0@);
    assert forall|k: int| 0 <= k < a.len() implies same_item_but_id(#[trigger] a[k], b[k]) by {
        let e = titled(c.entries@)[k];
        let f = titled(d.entries@)[k];
        assert(entries_agree(e, f));
        lemma_entry_parts_agree(e, f);
        assert(item_of_entry(a[k], e, source));
        assert(item_of_entry(b[k], f, source));
        if e.summary is Some {
            assert(summary_text(e.summary->0@) == summary_text(f.summary->0@));
        }
        if e.content is Some {
            assert(body_content(body_text(e.content->0)) == body_content(body_text(f.content->0)));
        }
        assert(a[k].description.deep_view() == b[k].description.deep_view());
        assert(a[k].content.deep_view() == b[k].content.deep_view());
    }
    assert forall|k: int|
        0 <= k < a.len() implies (#[trigger] titled_ids(bytes, parsed_entry_count(bytes) as int)[k] matches Some(
            x,
        ) ==> a[k].guid@ == x && b[k].guid@ == x) by {
        assert(item_of_entry(a[k], titled(c.entries@)[k], source));
        assert(item_of_entry(b[k], titled(d.entries@)[k], source));
    }
}

/// The link of an item is the target of its entry's first link, and empty
/// only for an entry without links.
pub proof fn item_link_is_first_link(f: Feed, e: RawEntry, source: Seq<char>)
    requires
        item_of_entry(f, e, source),
    ensures
        e.links@.len() > 0 ==> f.link@ == e.links@[0]@,
        e.links@.len() == 0 ==> f.link@ == Seq::<char>::empty(),
{
}

/// An item carries its entry's identifier, title, publication text and first
/// media URL as they are, with the feed's title as author.
pub proof fn item_holds_its_entry(f: Feed, e: RawEntry, source: Seq<char>)
    requires
        item_of_entry(f, e, source),
    ensures
        f.guid@ == e.id@,
        e.title is Some && f.title@ == e.title->0@,
        f.author@ == source,
        f.published.deep_view() == e.published_text.deep_view(),
        e.media@.len() > 0 && e.media@[0]@.len() > 0 ==> f.images.deep_view() == e.media@[0]@[0].deep_view(),
        e.media@.len() == 0 ==> f.images is None,
        e.summary is None ==> f.description is None,
        e.content is None ==> f.content is None,
{
}

/// The content of a body without tags, advertising snippet or blank lines
/// is that body with its character references decoded, and so the same as
/// the description of that text.
pub proof fn content_decodes_references(s: Seq<char>)
    requires
        forall|i: int| 0 <= i < s.len() ==> s[i] != '<',
        forall|j: int| 0 <= j < s.len() ==> !#[trigger] occurs_at(s, ads_snippet(), j),
        forall|j: int| 0 <= j < s.len() - 1 ==> !(#[trigger] s[j] == '\n' && s[j + 1] == '\n'),
    ensures
        body_content(s) == html_entities_decoded(s),
        body_content(s) == summary_text(s),
{
    lemma_no_tag_start_strips_nothing(s);
    reveal_strlit("(adsbygoogle = window.adsbygoogle || []).push({});");
    lemma_replace_absent(s, ads_snippet(), Seq::empty(), 0);
    assert(s.subrange(0, s.len() as int) == s);
    let nl: Seq<char> = seq!['\n', '\n'];
    assert forall|j: int| 0 <= j < s.len() implies !#[trigger] occurs_at(s, nl, j) by {
        if occurs_at(s, nl, j) {
            assert(s.subrange(j, j + 2)[0] == s[j]);
            assert(s.subrange(j, j + 2)[1] == s[j + 1]);
        }
    }
    lemma_replace_absent(s, nl, seq!['\n'], 0);
}

impl Parser {
    /// The reader for the feeds listed one per line in `text`.
    pub fn build(text: &str) -> (r: Parser)
        ensures
            r.urls.deep_view() == lines(text@),
    {
        Parser { urls: split_lines(text) }
    }

    /// A description from the text of a summary.
    pub fn description(&self, content: String) -> (r: String)
        ensures
            r@ == summary_text(content@),
            !strip_lazy_tags(content@).contains('&') ==> r@ == strip_lazy_tags(content@),
    {
        let v = chars_of(content.as_str());
        let bare = remove_lazy_tags(&v);
        let text = string_of(bare.as_slice());
        decode_html_entities(text.as_str())
    }

    /// A content from the body of a content element.
    pub fn content(&self, content: String) -> (r: String)
        ensures
            r@ == body_content(content@),
            !body_plain(content@).contains('&') ==> r@ == body_plain(content@),
    {
        let v = chars_of(content.as_str());
        let bare = remove_markup(&v);
        let ads = ads_chars();
        let nothing: Vec<char> = Vec::new();
        let no_ads = replace_chars(&bare, &ads, &nothing);
        let two: Vec<char> = vec!['\n', '\n'];
        let one: Vec<char> = vec!['\n'];
        assert(nothing@ == Seq::<char>::empty());
        assert(two@ == seq!['\n', '\n']);
        assert(one@ == seq!['\n']);
        let single = replace_chars(&no_ads, &two, &one);
        let text = string_of(single.as_slice());
        decode_html_entities(text.as_str())
    }

    /// The item of one titled entry of the feed titled `source`.
    fn item_of(&self, e: &RawEntry, source: &String) -> (r: Feed)
        requires
            e.title is Some,
        ensures
            item_of_entry(r, *e, source@),
            e.links@.len() > 0 ==> r.link@ == e.links@[0]@,
    {
        let title = match &e.title {
            Some(t) => t.clone(),
            None => String::new(),
        };
        let link = if e.links.len() > 0 {
            e.links[0].clone()
        } else {
            String::new()
        };
        let description = match &e.summary {
            Some(s) => Some(self.description(s.clone())),
            None => None,
        };
        let content = match &e.content {
            Some(b) => {
                let body = match b {
                    Some(x) => x.clone(),
                    None => String::new(),
                };
                Some(self.content(body))
            },
            None => None,
        };
        let images = if e.media.len() > 0 && e.media[0].len() > 0 {
            copy_opt(&e.media[0][0])
        } else {
            None
        };
        Feed {
            title,
            link,
            description,
            author: source.clone(),
            guid: e.id.clone(),
            images,
            published: copy_opt(&e.published_text),
            content,
        }
    }

    /// The items of a titled feed: one per entry with a title, in order, each
    /// with the feed's title as author.
    pub fn feeds_from_channel(&self, channel: &RawChannel) -> (r: Vec<Feed>)
        requires
            channel.title is Some,
        ensures
            items_of_channel(r@, *channel),
    {
        let source = match &channel.title {
            Some(t) => t.clone(),
            None => String::new(),
        };
        let mut items: Vec<Feed> = Vec::new();
        let n = channel.entries.len();
        let mut i: usize = 0;
        while i < n
            invariant
                n == channel.entries@.len(),
                i <= n,
                channel.title is Some,
                source@ == channel.title->0@,
                items@.len() == titled(channel.entries@.subrange(0, i as int)).len(),
                forall|k: int|
                    0 <= k < items@.len() ==> item_of_entry(
                        #[trigger] items@[k],
                        titled(channel.entries@.subrange(0, i as int))[k],
                        source@,
                    ),
            decreases n - i,
        {
            let e = &channel.entries[i];
            let ghost pre = channel.entries@.subrange(0, i as int);
            assert(channel.entries@.subrange(0, i + 1).drop_last() == pre);
            assert(channel.entries@.subrange(0, i + 1).last() == *e);
            if e.title.is_some() {
                let item = self.item_of(e, &source);
                items.push(item);
            }
            i = i + 1;
        }
        assert(channel.entries@.subrange(0, n as int) == channel.entries@);
        items
    }

    /// The items of the feed in the fetched bytes `body`: an error when
    /// `feed_rs` cannot read them (as bytes with neither `<` nor `{`), another
    /// when the feed it reads has no title, else the items of that feed.
    pub fn get_rss(&self, body: &[u8]) -> (r: Result<Vec<Feed>, ChannelError>)
        requires
            parse_safe(body@),
        ensures
            (r == Err::<Vec<Feed>, ChannelError>(ChannelError::Unparsable)) <==> !feed_parses(body@),
            (r == Err::<Vec<Feed>, ChannelError>(ChannelError::Untitled)) <==> (feed_parses(body@)
                && parsed_title(body@) is None),
            r is Ok <==> (feed_parses(body@) && parsed_title(body@) is Some),
            r matches Ok(items) ==> is_feed_outcome(items@, body@),
            crate::channel::no_feed_start(body@) ==> r == Err::<Vec<Feed>, ChannelError>(
                ChannelError::Unparsable,
            ),
    {
        match read_channel(body) {
            Ok(channel) => {
                if channel.title.is_none() {
                    return Err(ChannelError::Untitled);
                }
                let items = self.feeds_from_channel(&channel);
                assert(channel_matches(channel, body@) && items_of_channel(items@, channel));
                Ok(items)
            },
            Err(e) => Err(e),
        }
    }

    /// The items of all feeds, from the pages fetched at their addresses
    /// (`pages[i]` from `urls[i]`, `None` where the fetch failed), page after
    /// page.
    pub fn get_all_rss(&self, pages: &Vec<Option<Vec<u8>>>) -> (r: Vec<Feed>)
        requires
            pages@.len() == self.urls@.len(),
            pages_safe(pages.deep_view()),
        ensures
            all_feeds_outcome(r@, pages.deep_view()),
    {
        let n = pages.len();
        let mut rss: Vec<Feed> = Vec::new();
        let ghost mut parts: Seq<Seq<Feed>> = Seq::empty();
        let mut i: usize = 0;
        while i < n
            invariant
                n == pages@.len(),
                pages_safe(pages.deep_view()),
                i <= n,
                parts.len() == i,
                rss@ == parts.flatten(),
                forall|k: int|
                    0 <= k < i ==> page_outcome(#[trigger] parts[k], pages.deep_view()[k]),
            decreases n - i,
        {
            proof {
                parts.lemma_flatten_push(Seq::<Feed>::empty());
            }
            let ghost mut part: Seq<Feed> = Seq::empty();
            assert(pages.deep_view()[i as int] == pages@[i as int].deep_view());
            match &pages[i] {
                Some(bytes) => {
                    assert(pages.deep_view()[i as int] == Some(bytes@));
                    assert(parse_safe(bytes@));
                    match self.get_rss(bytes.as_slice()) {
                        Ok(news) => {
                            proof {
                                part = news@;
                                parts.lemma_flatten_push(part);
                            }
                            let mut news = news;
                            rss.append(&mut news);
                        },
                        Err(_) => {},
                    }
                },
                None => {},
            }
            proof {
                parts = parts.push(part);
            }
            assert(page_outcome(parts[i as int], pages.deep_view()[i as int]));
            i = i + 1;
        }
        rss
    }
}

} // verus!
