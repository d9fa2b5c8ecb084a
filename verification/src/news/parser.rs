//! Reading feeds into news items: the text of summaries and contents is
//! cleaned of markup, each titled entry becomes one item.
use vstd::prelude::*;

use crate::channel::{
    channel_matches, entry_matches, feed_parses, parse_safe, parsed_entry_count, parsed_entry_id,
    parsed_entry_title, read_channel, utc_now, ChannelError, RawChannel, RawEntry, Timestamp,
};
use crate::entities::{decode_html_entities, html_entities_decoded};
use crate::markup::{
    ads_chars, ads_snippet, lemma_collapse_tag_free, lemma_no_tag_start_strips_nothing,
    lemma_strip_simple_tag_free, lemma_tag_free_strip, lemma_tag_free_subrange, remove_simple_tags,
    simple_tag_end, strip_simple_tags, tag_free,
};
use crate::news::feed::{Feed, Source};
use crate::text::{
    chars_of, collapse_whitespace, collapse_ws, collapse_ws_from, ends_trimmed, is_ws,
    lemma_collapse_shape, lemma_collapse_single, lemma_non_ws_collapse, lemma_non_ws_trim,
    lemma_replace_absent, lemma_spaces_single_subrange, lemma_trim_shape, lemma_trim_trimmed, lines,
    non_ws, occurs_at, replace, replace_chars, spaces_single, split_lines, string_of, trim, trim_chars,
};

verus! {

/// A person or outlet that writes news.
#[derive(Debug, PartialEq)]
pub struct Author {
    name: String,
    url: Vec<String>,
    image: Option<String>,
}

/// The feed reader: the addresses of the feeds it reads.
#[derive(Debug, PartialEq)]
pub struct Parser {
    pub urls: Vec<String>,
}

/// `s` without tags (`<[^>]+>`), each run of white space made one space, and
/// trimmed.
pub open spec fn cleaned_html(s: Seq<char>) -> Seq<char> {
    trim(collapse_ws(strip_simple_tags(s)))
}

/// The description text made from a summary.
pub open spec fn description_text(s: Seq<char>) -> Seq<char> {
    html_entities_decoded(cleaned_html(s))
}

/// The content text made from a content body: cleaned, the advertising
/// snippet removed, double line feeds made single, trimmed, references
/// decoded.
pub open spec fn content_text(s: Seq<char>) -> Seq<char> {
    html_entities_decoded(content_plain(s))
}

/// The content text before references are decoded.
pub open spec fn content_plain(s: Seq<char>) -> Seq<char> {
    trim(replace(replace(cleaned_html(s), ads_snippet(), Seq::empty()), seq!['\n', '\n'], seq!['\n']))
}

/// The first link of an entry, or nothing.
pub open spec fn first_link(e: RawEntry) -> Seq<char> {
    if e.links@.len() > 0 {
        e.links@[0]@
    } else {
        Seq::empty()
    }
}

/// The URL of the first content of the first media object of an entry.
pub open spec fn first_media_url(e: RawEntry) -> Option<Seq<char>> {
    if e.media@.len() > 0 && e.media@[0]@.len() > 0 {
        e.media@[0]@[0].deep_view()
    } else {
        None
    }
}

/// The body of a content element, or nothing.
pub open spec fn body_text(b: Option<String>) -> Seq<char> {
    match b {
        Some(x) => x@,
        None => Seq::empty(),
    }
}

/// The title of a feed, or nothing.
pub open spec fn channel_source(c: RawChannel) -> Seq<char> {
    match c.title {
        Some(t) => t@,
        None => Seq::empty(),
    }
}

/// The entries that have a title, in order.
pub open spec fn titled(entries: Seq<RawEntry>) -> Seq<RawEntry>
    decreases entries.len(),
{
    if entries.len() == 0 {
        Seq::empty()
    } else if entries.last().title is Some {
        titled(entries.drop_last()).push(entries.last())
    } else {
        titled(entries.drop_last())
    }
}

/// `f` is the news item that entry `e` of the feed titled `source`, read from
/// `url`, gives (its creation time aside).
pub open spec fn item_of_entry(f: Feed, e: RawEntry, source: Seq<char>, url: Seq<char>) -> bool {
    &&& f.id@ == e.id@
    &&& e.title matches Some(t) && f.title@ == t@
    &&& f.link@ == first_link(e)
    &&& f.description.deep_view() == (match e.summary {
        Some(s) => Some(description_text(s@)),
        None => None,
    })
    &&& f.content.deep_view() == (match e.content {
        Some(b) => Some(content_text(body_text(b))),
        None => None,
    })
    &&& f.categories@.len() == 0
    &&& f.author.deep_view() == seq![source]
    &&& f.source.name@ == source
    &&& f.source.url@.len() == 0
    &&& f.source.image is None
    &&& f.source.rss@ == url
    &&& f.images.deep_view() == first_media_url(e)
    &&& f.published == e.published
    &&& f.created_at.nanos < 2_000_000_000
}

/// `items` are the news items of feed `c` read from `url`: none when the feed
/// has no title (or an empty one), else one per titled entry, in order.
pub open spec fn items_of_channel(items: Seq<Feed>, c: RawChannel, url: Seq<char>) -> bool {
    let source = channel_source(c);
    if source.len() == 0 {
        items.len() == 0
    } else {
        let es = titled(c.entries@);
        &&& items.len() == es.len()
        &&& forall|k: int| 0 <= k < items.len() ==> item_of_entry(#[trigger] items[k], es[k], source, url)
    }
}

/// `items` are the news items of the feed that `feed_rs` reads from `bytes`,
/// fetched from `url` (the identifiers that `feed_rs` makes up at random, and
/// the creation times, aside).
pub open spec fn is_feed_outcome(items: Seq<Feed>, url: Seq<char>, bytes: Seq<u8>) -> bool {
    exists|c: RawChannel| #[trigger] channel_matches(c, bytes) && items_of_channel(items, c, url)
}

/// `items` are what reading the fetched `pages` of the feeds at `urls` gives:
/// for each page in order, nothing when it could not be fetched or is no feed,
/// else the news items of that feed.
pub open spec fn all_feeds_outcome(
    items: Seq<Feed>,
    urls: Seq<Seq<char>>,
    pages: Seq<Option<Seq<u8>>>,
) -> bool {
    exists|parts: Seq<Seq<Feed>>|
        {
            &&& parts.len() == pages.len()
            &&& items == parts.flatten()
            &&& forall|i: int|
                0 <= i < parts.len() ==> page_outcome(#[trigger] parts[i], urls[i], pages[i])
        }
}

/// `part` is what one fetched page gives: nothing for a failed fetch or bytes
/// that are no feed, else the news items of the feed.
pub open spec fn page_outcome(part: Seq<Feed>, url: Seq<char>, page: Option<Seq<u8>>) -> bool {
    match page {
        None => part.len() == 0,
        Some(bytes) => if feed_parses(bytes) {
            is_feed_outcome(part, url, bytes)
        } else {
            part.len() == 0
        },
    }
}

/// Every fetched page is one that `feed_rs` reads without panicking.
pub open spec fn pages_safe(pages: Seq<Option<Seq<u8>>>) -> bool {
    forall|i: int| 0 <= i < pages.len() ==> (#[trigger] pages[i] matches Some(b) ==> parse_safe(b))
}

/// Text cleaned of HTML holds no tag: no `<` has a `>` after it with other
/// characters between, so `<[^>]+>` matches nowhere in it.
pub proof fn clean_html_leaves_no_tags(s: Seq<char>)
    ensures
        tag_free(cleaned_html(s)),
        forall|i: int| 0 <= i < cleaned_html(s).len() ==> #[trigger] simple_tag_end(cleaned_html(s), i) is None,
{
    let t1 = strip_simple_tags(s);
    lemma_strip_simple_tag_free(s, 0);
    lemma_collapse_tag_free(t1, 0, false);
    let t2 = collapse_ws(t1);
    lemma_trim_shape(t2);
    let (a, b) = choose|a: int, b: int| 0 <= a <= b <= t2.len() && trim(t2) == #[trigger] t2.subrange(a, b);
    lemma_tag_free_subrange(t2, a, b);
    lemma_tag_free_strip(cleaned_html(s));
}

/// Cleaning HTML loses no text: every character outside tags that is not
/// white space stays, in order; text without `<` keeps all of its
/// characters but white space, and text without `<` that is already single
/// spaced and trimmed (as text without white space is) comes back as it is.
pub proof fn clean_html_keeps_text(s: Seq<char>)
    ensures
        non_ws(cleaned_html(s)) == non_ws(strip_simple_tags(s)),
        (forall|i: int| 0 <= i < s.len() ==> s[i] != '<') ==> non_ws(cleaned_html(s)) == non_ws(s),
        (forall|i: int| 0 <= i < s.len() ==> s[i] != '<' && !is_ws(s[i])) ==> cleaned_html(s) == s,
        (forall|i: int| 0 <= i < s.len() ==> s[i] != '<') && spaces_single(s) && ends_trimmed(s)
            ==> cleaned_html(s) == s,
{
    let t = strip_simple_tags(s);
    lemma_non_ws_collapse(t, 0, false);
    assert(t.subrange(0, t.len() as int) == t);
    lemma_non_ws_trim(collapse_ws(t));
    if forall|i: int| 0 <= i < s.len() ==> s[i] != '<' {
        lemma_no_tag_start_strips_nothing(s);
    }
    if forall|i: int| 0 <= i < s.len() ==> s[i] != '<' && !is_ws(s[i]) {
        lemma_no_tag_start_strips_nothing(s);
        lemma_collapse_keeps_plain(s, 0);
        assert(s.subrange(0, s.len() as int) == s);
        lemma_trim_trimmed(s);
    }
    if (forall|i: int| 0 <= i < s.len() ==> s[i] != '<') && spaces_single(s) && ends_trimmed(s) {
        lemma_no_tag_start_strips_nothing(s);
        lemma_collapse_single(s, 0, false);
        assert(s.subrange(0, s.len() as int) == s);
        lemma_trim_trimmed(s);
    }
}

/// Text without white space is left as it is by collapsing.
proof fn lemma_collapse_keeps_plain(s: Seq<char>, i: int)
    requires
        0 <= i <= s.len(),
        forall|k: int| 0 <= k < s.len() ==> !is_ws(#[trigger] s[k]),
    ensures
        collapse_ws_from(s, i, false) == s.subrange(i, s.len() as int),
    decreases s.len() - i,
{
    if i < s.len() {
        lemma_collapse_keeps_plain(s, i + 1);
        assert(s.subrange(i, s.len() as int) == seq![s[i]] + s.subrange(i + 1, s.len() as int));
    } else {
        assert(s.subrange(i, s.len() as int) =~= Seq::<char>::empty());
    }
}

/// Text cleaned of HTML is single spaced: its only white space is plain
/// spaces, never two side by side, and none at either end.
pub proof fn clean_html_spacing(s: Seq<char>)
    ensures
        spaces_single(cleaned_html(s)),
        ends_trimmed(cleaned_html(s)),
{
    let t1 = strip_simple_tags(s);
    lemma_collapse_shape(t1, 0, false);
    let t2 = collapse_ws(t1);
    lemma_trim_shape(t2);
    let (a, b) = choose|a: int, b: int| 0 <= a <= b <= t2.len() && trim(t2) == #[trigger] t2.subrange(a, b);
    lemma_spaces_single_subrange(t2, a, b);
}

/// Cleaning HTML twice gives what cleaning once gives.
pub proof fn clean_html_idempotent(s: Seq<char>)
    ensures
        cleaned_html(cleaned_html(s)) == cleaned_html(s),
{
    let t = cleaned_html(s);
    clean_html_leaves_no_tags(s);
    clean_html_spacing(s);
    lemma_tag_free_strip(t);
    lemma_collapse_single(t, 0, false);
    assert(t.subrange(0, t.len() as int) == t);
    lemma_trim_trimmed(t);
}

/// Where the cleaned content holds no advertising snippet, the content of an
/// item is its description: the line-feed replacement and the second trim
/// change nothing in cleaned text.
pub proof fn content_is_description_without_ads(c: Seq<char>)
    requires
        forall|j: int| 0 <= j < cleaned_html(c).len() ==> !#[trigger] occurs_at(cleaned_html(c), ads_snippet(), j),
    ensures
        content_text(c) == description_text(c),
{
    let t = cleaned_html(c);
    clean_html_spacing(c);
    reveal_strlit("(adsbygoogle = window.adsbygoogle || []).push({});");
    lemma_replace_absent(t, ads_snippet(), Seq::empty(), 0);
    assert(t.subrange(0, t.len() as int) == t);
    let nl: Seq<char> = seq!['\n', '\n'];
    assert forall|j: int| 0 <= j < t.len() implies !#[trigger] occurs_at(t, nl, j) by {
        if occurs_at(t, nl, j) {
            assert(t.subrange(j, j + 2)[0] == t[j]);
            assert(is_ws(t[j]));
        }
    }
    lemma_replace_absent(t, nl, seq!['\n'], 0);
    lemma_trim_trimmed(t);
}

/// Two entries hold the same values, their identifiers aside.
pub open spec fn entries_agree(a: RawEntry, b: RawEntry) -> bool {
    &&& a.title.deep_view() == b.title.deep_view()
    &&& a.links.deep_view() == b.links.deep_view()
    &&& a.summary.deep_view() == b.summary.deep_view()
    &&& a.content.deep_view() == b.content.deep_view()
    &&& a.published == b.published
    &&& a.published_text.deep_view() == b.published_text.deep_view()
    &&& a.media.deep_view() == b.media.deep_view()
}

/// The identifiers that the bytes give the titled entries among the first
/// `n` entries of their feed, in order (`None` where `feed_rs` makes one up).
pub open spec fn titled_ids(bytes: Seq<u8>, n: int) -> Seq<Option<Seq<char>>>
    decreases n,
{
    if n <= 0 {
        Seq::empty()
    } else if parsed_entry_title(bytes, n - 1) is Some {
        titled_ids(bytes, n - 1).push(parsed_entry_id(bytes, n - 1))
    } else {
        titled_ids(bytes, n - 1)
    }
}

/// Two news items agree in everything but their identifiers and creation
/// times.
pub open spec fn same_item_but_id_and_time(a: Feed, b: Feed) -> bool {
    &&& a.title@ == b.title@
    &&& a.link@ == b.link@
    &&& a.description.deep_view() == b.description.deep_view()
    &&& a.categories.deep_view() == b.categories.deep_view()
    &&& a.content.deep_view() == b.content.deep_view()
    &&& a.author.deep_view() == b.author.deep_view()
    &&& a.source.name@ == b.source.name@
    &&& a.source.url.deep_view() == b.source.url.deep_view()
    &&& a.source.image.deep_view() == b.source.image.deep_view()
    &&& a.source.rss@ == b.source.rss@
    &&& a.images.deep_view() == b.images.deep_view()
    &&& a.published == b.published
}

/// Entries that agree one by one keep agreeing once the untitled ones are
/// left out.
pub(crate) proof fn lemma_titled_agree(a: Seq<RawEntry>, b: Seq<RawEntry>)
    requires
        a.len() == b.len(),
        forall|i: int| 0 <= i < a.len() ==> entries_agree(#[trigger] a[i], b[i]),
    ensures
        titled(a).len() == titled(b).len(),
        forall|k: int| 0 <= k < titled(a).len() ==> entries_agree(#[trigger] titled(a)[k], titled(b)[k]),
    decreases a.len(),
{
    if a.len() > 0 {
        assert forall|i: int| 0 <= i < a.drop_last().len() implies entries_agree(
            #[trigger] a.drop_last()[i],
            b.drop_last()[i],
        ) by {
            assert(entries_agree(a[i], b[i]));
        }
        lemma_titled_agree(a.drop_last(), b.drop_last());
        assert(entries_agree(a[a.len() - 1], b[b.len() - 1]));
        assert(a.last().title.deep_view() == b.last().title.deep_view());
        assert(a.last().title is Some <==> b.last().title is Some);
        let ta = titled(a.drop_last());
        let tb = titled(b.drop_last());
        if a.last().title is Some {
            assert forall|k: int| 0 <= k < titled(a).len() implies entries_agree(
                #[trigger] titled(a)[k],
                titled(b)[k],
            ) by {
                if k < ta.len() {
                    assert(titled(a)[k] == ta[k]);
                    assert(titled(b)[k] == tb[k]);
                }
            }
        }
    }
}

/// The titled entries of a feed read from `bytes` carry the identifiers that
/// the bytes give them.
pub(crate) proof fn lemma_titled_ids(es: Seq<RawEntry>, bytes: Seq<u8>)
    requires
        forall|i: int| 0 <= i < es.len() ==> #[trigger] entry_matches(es[i], bytes, i),
    ensures
        titled(es).len() == titled_ids(bytes, es.len() as int).len(),
        forall|k: int|
            0 <= k < titled(es).len() ==> (#[trigger] titled_ids(bytes, es.len() as int)[k] matches Some(x)
                ==> titled(es)[k].id@ == x),
    decreases es.len(),
{
    if es.len() > 0 {
        let n = es.len() as int;
        let pre = es.drop_last();
        assert forall|i: int| 0 <= i < pre.len() implies #[trigger] entry_matches(pre[i], bytes, i) by {
            assert(entry_matches(es[i], bytes, i));
        }
        lemma_titled_ids(pre, bytes);
        assert(entry_matches(es[n - 1], bytes, n - 1));
        assert(es.last().title is Some <==> parsed_entry_title(bytes, n - 1) is Some);
        if es.last().title is Some {
            assert forall|k: int|
                0 <= k < titled(es).len() implies (#[trigger] titled_ids(bytes, n)[k] matches Some(x)
                ==> titled(es)[k].id@ == x) by {
                if k < titled(pre).len() {
                    assert(titled(es)[k] == titled(pre)[k]);
                    assert(titled_ids(bytes, n)[k] == titled_ids(bytes, n - 1)[k]);
                }
            }
        }
    }
}

/// Entries that agree give the same parts to the items made of them.
pub(crate) proof fn lemma_entry_parts_agree(e: RawEntry, d: RawEntry)
    requires
        entries_agree(e, d),
    ensures
        first_link(e) == first_link(d),
        first_media_url(e) == first_media_url(d),
        e.summary is Some <==> d.summary is Some,
        e.summary is Some ==> e.summary->0@ == d.summary->0@,
        e.content is Some <==> d.content is Some,
        e.content is Some ==> body_text(e.content->0) == body_text(d.content->0),
{
    assert(e.links.deep_view().len() == e.links@.len());
    assert(d.links.deep_view().len() == d.links@.len());
    if e.links@.len() > 0 {
        assert(e.links.deep_view()[0] == e.links@[0]@);
        assert(d.links.deep_view()[0] == d.links@[0]@);
    }
    assert(e.media.deep_view().len() == e.media@.len());
    assert(d.media.deep_view().len() == d.media@.len());
    if e.media@.len() > 0 {
        assert(e.media.deep_view()[0] == e.media@[0].deep_view());
        assert(d.media.deep_view()[0] == d.media@[0].deep_view());
        assert(e.media@[0].deep_view().len() == e.media@[0]@.len());
        assert(d.media@[0].deep_view().len() == d.media@[0]@.len());
        if e.media@[0]@.len() > 0 {
            assert(e.media@[0].deep_view()[0] == e.media@[0]@[0].deep_view());
            assert(d.media@[0].deep_view()[0] == d.media@[0]@[0].deep_view());
        }
    }
    match (e.content, d.content) {
        (Some(x), Some(y)) => assert(x.deep_view() == y.deep_view()),
        _ => {},
    }
}

/// Reading the same bytes twice gives the same news items, in the same order,
/// but for their creation times; an item's identifier is the one the bytes
/// give its entry wherever they give one (where the entry has an identifier
/// or a link), so that there the two reads agree on it too.
pub proof fn reading_is_repeatable(a: Seq<Feed>, b: Seq<Feed>, url: Seq<char>, bytes: Seq<u8>)
    requires
        is_feed_outcome(a, url, bytes),
        is_feed_outcome(b, url, bytes),
    ensures
        a.len() == b.len(),
        forall|k: int| 0 <= k < a.len() ==> same_item_but_id_and_time(#[trigger] a[k], b[k]),
        forall|k: int|
            0 <= k < a.len() ==> (#[trigger] titled_ids(bytes, parsed_entry_count(bytes) as int)[k] matches Some(
                x,
            ) ==> a[k].id@ == x && b[k].id@ == x),
{
    let c = choose|c: RawChannel| #[trigger] channel_matches(c, bytes) && items_of_channel(a, c, url);
    let d = choose|d: RawChannel| #[trigger] channel_matches(d, bytes) && items_of_channel(b, d, url);
    assert forall|i: int| 0 <= i < c.entries@.len() implies entries_agree(
        #[trigger] c.entries@[i],
        d.entries@[i],
    ) by {
        assert(entry_matches(c.entries@[i], bytes, i));
        assert(entry_matches(d.entries@[i], bytes, i));
    }
    assert(channel_source(c) == channel_source(d));
    if channel_source(c).len() > 0 {
        lemma_titled_agree(c.entries@, d.entries@);
        lemma_titled_ids(c.entries@, bytes);
        lemma_titled_ids(d.entries@, bytes);
        let source = channel_source(c);
        assert forall|k: int| 0 <= k < a.len() implies same_item_but_id_and_time(#[trigger] a[k], b[k]) by {
            let e = titled(c.entries@)[k];
            let f = titled(d.entries@)[k];
            assert(entries_agree(e, f));
            lemma_entry_parts_agree(e, f);
            assert(item_of_entry(a[k], e, source, url));
            assert(item_of_entry(b[k], f, source, url));
            if e.summary is Some {
                assert(description_text(e.summary->0@) == description_text(f.summary->0@));
            }
            if e.content is Some {
                assert(content_text(body_text(e.content->0)) == content_text(body_text(f.content->0)));
            }
            assert(a[k].description.deep_view() == b[k].description.deep_view());
            assert(a[k].content.deep_view() == b[k].content.deep_view());
            assert(a[k].categories.deep_view() =~= b[k].categories.deep_view());
            assert(a[k].source.url.deep_view() =~= b[k].source.url.deep_view());
        }
        assert forall|k: int|
            0 <= k < a.len() implies (#[trigger] titled_ids(bytes, parsed_entry_count(bytes) as int)[k] matches Some(
                x,
            ) ==> a[k].id@ == x && b[k].id@ == x) by {
            assert(item_of_entry(a[k], titled(c.entries@)[k], source, url));
            assert(item_of_entry(b[k], titled(d.entries@)[k], source, url));
        }
    }
}

/// The link of a news item is the target of its entry's first link, and
/// empty only for an entry without links.
pub proof fn item_link_is_first_link(f: Feed, e: RawEntry, source: Seq<char>, url: Seq<char>)
    requires
        item_of_entry(f, e, source, url),
    ensures
        e.links@.len() > 0 ==> f.link@ == e.links@[0]@,
        e.links@.len() == 0 ==> f.link@ == Seq::<char>::empty(),
{
}

/// A news item carries its entry's identifier, title, publication time and
/// first media URL as they are, has the feed's title as its only author and
/// source name, and records the address it was read from.
pub proof fn item_holds_its_entry(f: Feed, e: RawEntry, source: Seq<char>, url: Seq<char>)
    requires
        item_of_entry(f, e, source, url),
    ensures
        f.id@ == e.id@,
        e.title is Some && f.title@ == e.title->0@,
        f.published == e.published,
        f.author.deep_view() == seq![source],
        f.source.name@ == source,
        f.source.rss@ == url,
        e.media@.len() > 0 && e.media@[0]@.len() > 0 ==> f.images.deep_view() == e.media@[0]@[0].deep_view(),
        e.media@.len() == 0 ==> f.images is None,
        e.summary is None ==> f.description is None,
        e.content is None ==> f.content is None,
{
}

/// A description is its summary cleaned and then decoded: a summary already
/// free of tags, single spaced and trimmed is only decoded.
pub proof fn description_decodes_clean_text(s: Seq<char>)
    requires
        forall|i: int| 0 <= i < s.len() ==> s[i] != '<',
        spaces_single(s),
        ends_trimmed(s),
    ensures
        description_text(s) == html_entities_decoded(s),
{
    clean_html_keeps_text(s);
}

/// A copy of an optional string.
pub(crate) fn copy_opt(o: &Option<String>) -> (r: Option<String>)
    ensures
        r.deep_view() == o.deep_view(),
{
    match o {
        Some(s) => Some(s.clone()),
        None => None,
    }
}

/// Cleans HTML: removes tags (`<[^>]+>`), makes each run of white space one
/// space, and trims.
pub fn clean_html(input: &str) -> (r: String)
    ensures
        r@ == cleaned_html(input@),
{
    let v = chars_of(input);
    let no_tags = remove_simple_tags(&v);
    let single = collapse_whitespace(&no_tags);
    let t = trim_chars(&single);
    string_of(t.as_slice())
}

impl Parser {
    /// The reader for the feeds listed one per line in `text` (the contents of
    /// the sources file).
    pub fn build(text: &str) -> (r: Parser)
        ensures
            r.urls.deep_view() == lines(text@),
    {
        Parser { urls: split_lines(text) }
    }

    /// The description of an item, from the text of an entry's summary.
    pub fn description(&self, content: &str) -> (r: String)
        ensures
            r@ == description_text(content@),
            !cleaned_html(content@).contains('&') ==> r@ == cleaned_html(content@),
    {
        let cleaned = clean_html(content);
        decode_html_entities(cleaned.as_str())
    }

    /// The content of an item, from the body of an entry's content.
    pub fn content(&self, content: &str) -> (r: String)
        ensures
            r@ == content_text(content@),
            !content_plain(content@).contains('&') ==> r@ == content_plain(content@),
    {
        let cleaned_text = clean_html(content);
        let cleaned = chars_of(cleaned_text.as_str());
        let ads = ads_chars();
        let nothing: Vec<char> = Vec::new();
        let no_ads = replace_chars(&cleaned, &ads, &nothing);
        let two: Vec<char> = vec!['\n', '\n'];
        let one: Vec<char> = vec!['\n'];
        assert(nothing@ == Seq::<char>::empty());
        assert(two@ == seq!['\n', '\n']);
        assert(one@ == seq!['\n']);
        let single_breaks = replace_chars(&no_ads, &two, &one);
        let trimmed = trim_chars(&single_breaks);
        let text = string_of(trimmed.as_slice());
        decode_html_entities(text.as_str())
    }

    /// The news item of one titled entry of the feed titled `source`, read from
    /// `url`, created at `created_at`.
    fn item_of(&self, e: &RawEntry, source: &String, url: &str, created_at: Timestamp) -> (r: Feed)
        requires
            e.title is Some,
            created_at.nanos < 2_000_000_000,
        ensures
            item_of_entry(r, *e, source@, url@),
            r.created_at == created_at,
            e.links@.len() > 0 ==> r.link@ == e.links@[0]@,
    {
        let title = match &e.title {
            Some(t) => t.clone(),
            None => String::new(),
        };
        let link = if e.links.len() > 0 {
            e.links[0].clone()
        } else {
            String::new()
        };
        let description = match &e.summary {
            Some(s) => Some(self.description(s.as_str())),
            None => None,
        };
        let content = match &e.content {
            Some(b) => {
                let body = match b {
                    Some(x) => x.clone(),
                    None => String::new(),
                };
                Some(self.content(body.as_str()))
            },
            None => None,
        };
        let images = if e.media.len() > 0 && e.media[0].len() > 0 {
            copy_opt(&e.media[0][0])
        } else {
            None
        };
        let mut author: Vec<String> = Vec::new();
        author.push(source.clone());
        assert(author.deep_view() == seq![source@]);
        let categories: Vec<String> = Vec::new();
        let urls: Vec<String> = Vec::new();
        let rss = string_of(chars_of(url).as_slice());
        Feed {
            id: e.id.clone(),
            title,
            link,
            description,
            categories,
            content,
            author,
            source: Source { name: source.clone(), url: urls, image: None, rss },
            images,
            published: e.published,
            created_at,
        }
    }

    /// The news items of a feed read from `url`: nothing when the feed has no
    /// title or an empty one; otherwise, for each entry with a title, in
    /// order, one item whose author and source are the feed's title. Each
    /// item records when it was made.
    pub fn feeds_from_channel(&self, url: &str, channel: &RawChannel) -> (r: Vec<Feed>)
        ensures
            items_of_channel(r@, *channel, url@),
    {
        let source = match &channel.title {
            Some(t) => t.clone(),
            None => String::new(),
        };
        let mut items: Vec<Feed> = Vec::new();
        if source.as_str().is_empty() {
            assert(source@.len() == 0);
            return items;
        }
        assert(source@ == channel_source(*channel));
        let n = channel.entries.len();
        let mut i: usize = 0;
        while i < n
            invariant
                n == channel.entries@.len(),
                i <= n,
                source@ == channel_source(*channel),
                items@.len() == titled(channel.entries@.subrange(0, i as int)).len(),
                forall|k: int|
                    0 <= k < items@.len() ==> item_of_entry(
                        #[trigger] items@[k],
                        titled(channel.entries@.subrange(0, i as int))[k],
                        source@,
                        url@,
                    ),
            decreases n - i,
        {
            let e = &channel.entries[i];
            let ghost pre = channel.entries@.subrange(0, i as int);
            assert(channel.entries@.subrange(0, i + 1).drop_last() == pre);
            assert(channel.entries@.subrange(0, i + 1).last() == *e);
            if e.title.is_some() {
                let now = utc_now();
                let item = self.item_of(e, &source, url, now);
                items.push(item);
            }
            i = i + 1;
        }
        assert(channel.entries@.subrange(0, n as int) == channel.entries@);
        items
    }

    /// The news items of the feed at `url`, from the bytes fetched there: those
    /// of the feed that `feed_rs` reads from them, or an error exactly when it
    /// cannot (bytes with neither `<` nor `{` among them).
    pub fn get_rss(&self, url: &str, body: &[u8]) -> (r: Result<Vec<Feed>, ChannelError>)
        requires
            parse_safe(body@),
        ensures
            r is Ok <==> feed_parses(body@),
            r matches Ok(items) ==> is_feed_outcome(items@, url@, body@),
            r matches Err(e) ==> e == ChannelError::Unparsable,
            crate::channel::no_feed_start(body@) ==> r == Err::<Vec<Feed>, ChannelError>(
                ChannelError::Unparsable,
            ),
    {
        match read_channel(body) {
            Ok(channel) => {
                let items = self.feeds_from_channel(url, &channel);
                assert(channel_matches(channel, body@) && items_of_channel(items@, channel, url@));
                Ok(items)
            },
            Err(e) => Err(e),
        }
    }

    /// The news items of all feeds, from the pages fetched at their addresses
    /// (`pages[i]` from `urls[i]`, `None` where the fetch failed): the items of
    /// each page that holds a feed, page after page.
    pub fn get_all_rss(&self, pages: &Vec<Option<Vec<u8>>>) -> (r: Vec<Feed>)
        requires
            pages@.len() == self.urls@.len(),
            pages_safe(pages.deep_view()),
        ensures
            all_feeds_outcome(r@, self.urls.deep_view(), pages.deep_view()),
    {
        let n = pages.len();
        let mut rss: Vec<Feed> = Vec::new();
        let ghost mut parts: Seq<Seq<Feed>> = Seq::empty();
        let mut i: usize = 0;
        while i < n
            invariant
                n == pages@.len(),
                n == self.urls@.len(),
                pages_safe(pages.deep_view()),
                i <= n,
                parts.len() == i,
                rss@ == parts.flatten(),
                forall|k: int|
                    0 <= k < i ==> page_outcome(
                        #[trigger] parts[k],
                        self.urls.deep_view()[k],
                        pages.deep_view()[k],
                    ),
            decreases n - i,
        {
            let ghost before = rss@;
            proof {
                parts.lemma_flatten_push(Seq::<Feed>::empty());
            }
            let ghost mut part: Seq<Feed> = Seq::empty();
            assert(self.urls.deep_view()[i as int] == self.urls@[i as int]@);
            assert(pages.deep_view()[i as int] == pages@[i as int].deep_view());
            match &pages[i] {
                Some(bytes) => {
                    assert(pages.deep_view()[i as int] == Some(bytes@));
                    assert(parse_safe(bytes@));
                    match self.get_rss(self.urls[i].as_str(), bytes.as_slice()) {
                        Ok(news) => {
                            proof {
                                part = news@;
                                parts.lemma_flatten_push(part);
                            }
                            let mut news = news;
                            rss.append(&mut news);
                        },
                        Err(_) => {},
                    }
                },
                None => {},
            }
            proof {
                parts = parts.push(part);
            }
            assert(page_outcome(parts[i as int], self.urls.deep_view()[i as int], pages.deep_view()[i as int]));
            i = i + 1;
        }
        rss
    }
}

} // verus!
