//! A syndication feed as read from its bytes: the plain values that the feed
//! parsers use, taken from the model of `feed_rs`.
use vstd::prelude::*;

use feed_rs::model::Feed as ModelFeed;
use feed_rs::parser::ParseFeedError;

verus! {

#[verifier::external_type_specification]
#[verifier::external_body]
pub struct ExModelFeed(ModelFeed);

#[verifier::external_type_specification]
#[verifier::external_body]
pub struct ExParseFeedError(ParseFeedError);

/// A point in time: seconds since the Unix epoch, and nanoseconds into the
/// second (above a billion only for a leap second).
#[derive(Clone, Copy, Debug, PartialEq, Eq, Structural)]
pub struct Timestamp {
    pub secs: i64,
    pub nanos: u32,
}

/// One entry of a feed, as the parsers read it.
#[derive(Debug)]
pub struct RawEntry {
    /// The entry's identifier.
    pub id: String,
    /// The text of its title, if it has one.
    pub title: Option<String>,
    /// The targets of its links, in order.
    pub links: Vec<String>,
    /// The text of its summary, if it has one.
    pub summary: Option<String>,
    /// Its content element, if it has one, with that element's body.
    pub content: Option<Option<String>>,
    /// When it was published, if known.
    pub published: Option<Timestamp>,
    /// The same time as `chrono` displays it (`2024-01-02 03:04:05 UTC`).
    pub published_text: Option<String>,
    /// For each media object, the URL of each of its contents, if given.
    pub media: Vec<Vec<Option<String>>>,
}

/// A feed as the parsers read it: its title and its entries.
#[derive(Debug)]
pub struct RawChannel {
    pub title: Option<String>,
    pub entries: Vec<RawEntry>,
}

/// Why bytes could not be read as a feed.
#[derive(Debug, Clone, Copy, PartialEq, Eq, Structural)]
pub enum ChannelError {
    /// `feed_rs` could not parse them (no feed root, bad XML or JSON, ...).
    Unparsable,
    /// They are a feed without a title, which a reader needs.
    Untitled,
}

/// No byte is `<` or `{`: no feed can start anywhere.
pub open spec fn no_feed_start(bytes: Seq<u8>) -> bool {
    forall|i: int| 0 <= i < bytes.len() ==> bytes[i] != 60u8 && bytes[i] != 123u8
}

/// XML white space: space, tab, line feed, carriage return.
pub open spec fn is_xml_space(b: u8) -> bool {
    b == 32u8 || b == 9u8 || b == 10u8 || b == 13u8
}

/// An ASCII digit.
pub open spec fn is_ascii_digit(b: u8) -> bool {
    48u8 <= b <= 57u8
}

/// The first index from `j` on that holds no white space (the length where
/// there is none).
pub open spec fn skip_space(bytes: Seq<u8>, j: int) -> int
    decreases bytes.len() - j,
{
    if 0 <= j < bytes.len() && is_xml_space(bytes[j]) {
        skip_space(bytes, j + 1)
    } else {
        j
    }
}

/// The first index from `j` on that holds neither white space nor a NUL byte.
pub open spec fn skip_space_nul(bytes: Seq<u8>, j: int) -> int
    decreases bytes.len() - j,
{
    if 0 <= j < bytes.len() && (is_xml_space(bytes[j]) || bytes[j] == 0u8) {
        skip_space_nul(bytes, j + 1)
    } else {
        j
    }
}

/// The first index from `from` on that holds `b`.
pub open spec fn next_byte(bytes: Seq<u8>, b: u8, from: int) -> Option<int>
    decreases bytes.len() - from,
{
    if from < 0 || from >= bytes.len() {
        None
    } else if bytes[from] == b {
        Some(from)
    } else {
        next_byte(bytes, b, from + 1)
    }
}

/// `bytes` hold `word` at `i`.
pub open spec fn word_at(bytes: Seq<u8>, i: int, word: Seq<u8>) -> bool {
    0 <= i && i + word.len() <= bytes.len() && bytes.subrange(i, i + word.len()) == word
}

/// `bytes` hold `word` at `i` as UTF-16 would in either byte order: its bytes
/// at every other place, with NUL bytes between them.
pub open spec fn wide_word_at(bytes: Seq<u8>, i: int, word: Seq<u8>) -> bool {
    &&& word.len() > 0
    &&& 0 <= i
    &&& i + 2 * word.len() - 1 <= bytes.len()
    &&& forall|k: int| 0 <= k < word.len() ==> bytes[i + 2 * k] == #[trigger] word[k]
    &&& forall|k: int| 0 <= k < word.len() - 1 ==> #[trigger] bytes[i + 2 * k + 1] == 0u8
}

/// `time`
pub open spec fn time_word() -> Seq<u8> {
    seq![116u8, 105u8, 109u8, 101u8]
}

/// `start`
pub open spec fn start_word() -> Seq<u8> {
    seq![115u8, 116u8, 97u8, 114u8, 116u8]
}

/// `end`
pub open spec fn end_word() -> Seq<u8> {
    seq![101u8, 110u8, 100u8]
}

/// `duration`
pub open spec fn duration_word() -> Seq<u8> {
    seq![100u8, 117u8, 114u8, 97u8, 116u8, 105u8, 111u8, 110u8]
}

/// A byte that a play time may hold: printable ASCII other than `&` (which
/// starts a reference), or white space.
pub open spec fn plain_byte(b: u8) -> bool {
    (32u8 <= b <= 126u8 && b != 38u8) || b == 9u8 || b == 10u8 || b == 13u8
}

/// How many digits stand right before `m`, from `a` on.
pub open spec fn digits_before(bytes: Seq<u8>, a: int, m: int) -> nat
    decreases m - a,
{
    if m <= a || !is_ascii_digit(bytes[m - 1]) {
        0
    } else {
        1 + digits_before(bytes, a, m - 1)
    }
}

/// `bytes[a..b]` is a play time that `feed_rs` reads without panicking: plain
/// bytes, and no run of more than fifteen digits (so that hours times 3600
/// still fit in a `u64`).
pub open spec fn plain_value(bytes: Seq<u8>, a: int, b: int) -> bool {
    &&& 0 <= a <= b <= bytes.len()
    &&& forall|m: int| a <= m < b ==> plain_byte(#[trigger] bytes[m])
    &&& forall|m: int| a <= m <= b ==> #[trigger] digits_before(bytes, a, m) <= 15
}

/// An attribute named `word` set at `i` has a plain value, or is no attribute
/// that can be read: not followed by `=`, or by a value without quotes.
pub open spec fn setting_safe(bytes: Seq<u8>, i: int, word: Seq<u8>) -> bool {
    if !word_at(bytes, i, word) {
        true
    } else {
        let e = skip_space(bytes, i + word.len());
        if !(e < bytes.len() && bytes[e] == 61u8) {
            true
        } else {
            let v = skip_space(bytes, e + 1);
            if v < bytes.len() && (bytes[v] == 34u8 || bytes[v] == 39u8) {
                match next_byte(bytes, bytes[v], v + 1) {
                    Some(c) => plain_value(bytes, v + 1, c),
                    None => false,
                }
            } else {
                true
            }
        }
    }
}

/// No quote among `bytes[a..b]`.
pub open spec fn no_quote(bytes: Seq<u8>, a: int, b: int) -> bool {
    forall|m: int| a <= m < b ==> #[trigger] bytes[m] != 34u8 && bytes[m] != 39u8
}

/// The text from `s` up to the next tag is a plain play time, and that tag is
/// no comment, CDATA section or processing instruction (whose text would be
/// read on).
pub open spec fn text_safe(bytes: Seq<u8>, s: int) -> bool {
    match next_byte(bytes, 60u8, s) {
        None => plain_value(bytes, s, bytes.len() as int),
        Some(l) => plain_value(bytes, s, l) && l + 1 < bytes.len() && bytes[l + 1] != 33u8 && bytes[l
            + 1] != 63u8,
    }
}

/// An element named `duration` (with or without a prefix) starting at `i` has
/// a plain text, or is empty.
pub open spec fn duration_safe(bytes: Seq<u8>, i: int) -> bool {
    if !(word_at(bytes, i, duration_word()) && i > 0 && (bytes[i - 1] == 60u8 || bytes[i - 1] == 58u8)) {
        true
    } else {
        match next_byte(bytes, 62u8, i + 8) {
            None => false,
            Some(g) => no_quote(bytes, i + 8, g) && (bytes[g - 1] == 47u8 || text_safe(bytes, g + 1)),
        }
    }
}

/// No UTF-16 attribute named `word` is set at `i`.
pub open spec fn wide_setting_safe(bytes: Seq<u8>, i: int, word: Seq<u8>) -> bool {
    wide_word_at(bytes, i, word) ==> {
        let e = skip_space_nul(bytes, i + 2 * word.len() - 1);
        !(e < bytes.len() && bytes[e] == 61u8)
    }
}

/// Nothing at `i` gives `feed_rs` a play time it cannot read: no escape byte
/// (with which ISO-2022-JP turns other bytes into letters or digits); a
/// `time`, `start` or `end` attribute and a `duration` element hold plain
/// play times; and in UTF-16 no such attribute is set and no `duration`
/// stands.
pub open spec fn no_play_time_at(bytes: Seq<u8>, i: int) -> bool {
    &&& bytes[i] != 27u8
    &&& setting_safe(bytes, i, time_word())
    &&& setting_safe(bytes, i, start_word())
    &&& setting_safe(bytes, i, end_word())
    &&& duration_safe(bytes, i)
    &&& wide_setting_safe(bytes, i, time_word())
    &&& wide_setting_safe(bytes, i, start_word())
    &&& wide_setting_safe(bytes, i, end_word())
    &&& !wide_word_at(bytes, i, duration_word())
}

/// Bytes that `feed_rs` reads without panicking. It reads "normal play time"
/// values (the `time` of a media thumbnail, the `start` and `end` of a media
/// text, an iTunes `duration`) with unwraps that fail on a digit run too long
/// for a `u64` (or whose hours overflow one) and on digits outside ASCII;
/// in these bytes every such value is plain ASCII without references and
/// without a run of more than fifteen digits.
pub open spec fn parse_safe(bytes: Seq<u8>) -> bool {
    forall|i: int| 0 <= i < bytes.len() ==> #[trigger] no_play_time_at(bytes, i)
}

/// `bytes` hold `word` at `i`.
fn has_word_at(bytes: &[u8], i: usize, word: &Vec<u8>) -> (r: bool)
    ensures
        r == word_at(bytes@, i as int, word@),
{
    if i > bytes.len() || word.len() > bytes.len() - i {
        return false;
    }
    let mut k: usize = 0;
    while k < word.len()
        invariant
            i + word@.len() <= bytes@.len(),
            bytes@.len() == bytes.len(),
            k <= word@.len(),
            forall|m: int| 0 <= m < k ==> bytes@[i + m] == word@[m],
        decreases word@.len() - k,
    {
        if bytes[i + k] != word[k] {
            assert(bytes@.subrange(i as int, i + word@.len())[k as int] != word@[k as int]);
            return false;
        }
        k = k + 1;
    }
    assert(bytes@.subrange(i as int, i + word@.len()) == word@);
    true
}

/// `bytes` hold `word` at `i` as UTF-16 would.
fn has_wide_word_at(bytes: &[u8], i: usize, word: &Vec<u8>) -> (r: bool)
    ensures
        r == wide_word_at(bytes@, i as int, word@),
{
    let n = word.len();
    if n == 0 || i >= bytes.len() {
        return false;
    }
    let room = bytes.len() - i;
    if n - 1 > (room - 1) / 2 {
        return false;
    }
    let mut k: usize = 0;
    while k < n
        invariant
            n == word@.len(),
            n > 0,
            i + 2 * n - 1 <= bytes@.len(),
            bytes@.len() == bytes.len(),
            k <= n,
            forall|m: int| 0 <= m < k ==> bytes@[i + 2 * m] == #[trigger] word@[m],
            forall|m: int| 0 <= m < k && m < n - 1 ==> #[trigger] bytes@[i + 2 * m + 1] == 0u8,
        decreases n - k,
    {
        if bytes[i + 2 * k] != word[k] {
            return false;
        }
        if k + 1 < n && bytes[i + 2 * k + 1] != 0u8 {
            return false;
        }
        k = k + 1;
    }
    true
}

/// The first index from `j` on that holds no white space.
fn skip_spaces(bytes: &[u8], j: usize) -> (r: usize)
    requires
        j <= bytes@.len(),
    ensures
        r == skip_space(bytes@, j as int),
        j <= r <= bytes@.len(),
{
    let mut k = j;
    while k < bytes.len() && (bytes[k] == 32u8 || bytes[k] == 9u8 || bytes[k] == 10u8 || bytes[k] == 13u8)
        invariant
            j <= k <= bytes@.len(),
            skip_space(bytes@, j as int) == skip_space(bytes@, k as int),
        decreases bytes@.len() - k,
    {
        k = k + 1;
    }
    k
}

/// The first index from `j` on that holds neither white space nor NUL.
fn skip_spaces_nul(bytes: &[u8], j: usize) -> (r: usize)
    requires
        j <= bytes@.len(),
    ensures
        r == skip_space_nul(bytes@, j as int),
{
    let mut k = j;
    while k < bytes.len() && (bytes[k] == 32u8 || bytes[k] == 9u8 || bytes[k] == 10u8 || bytes[k] == 13u8
        || bytes[k] == 0u8)
        invariant
            j <= k <= bytes@.len(),
            skip_space_nul(bytes@, j as int) == skip_space_nul(bytes@, k as int),
        decreases bytes@.len() - k,
    {
        k = k + 1;
    }
    k
}

/// The first index from `from` on that holds `b`.
fn find_byte(bytes: &[u8], b: u8, from: usize) -> (r: Option<usize>)
    ensures
        match r {
            Some(c) => next_byte(bytes@, b, from as int) == Some(c as int),
            None => next_byte(bytes@, b, from as int) is None,
        },
        r matches Some(c) ==> from <= c < bytes@.len() && bytes@[c as int] == b,
{
    let mut k = from;
    while k < bytes.len()
        invariant
            from <= k,
            next_byte(bytes@, b, from as int) == next_byte(bytes@, b, k as int),
        decreases bytes@.len() - k,
    {
        if bytes[k] == b {
            return Some(k);
        }
        k = k + 1;
    }
    None
}

/// Whether `bytes[a..b]` is a plain play time.
fn is_plain_value(bytes: &[u8], a: usize, b: usize) -> (r: bool)
    ensures
        r == plain_value(bytes@, a as int, b as int),
{
    if !(a <= b && b <= bytes.len()) {
        return false;
    }
    let mut run: usize = 0;
    let mut k = a;
    while k < b
        invariant
            a <= k <= b <= bytes@.len(),
            run == digits_before(bytes@, a as int, k as int),
            run <= 15,
            forall|m: int| a <= m < k ==> plain_byte(#[trigger] bytes@[m]),
            forall|m: int| a <= m <= k ==> #[trigger] digits_before(bytes@, a as int, m) <= 15,
        decreases b - k,
    {
        let c = bytes[k];
        if !((32u8 <= c && c <= 126u8 && c != 38u8) || c == 9u8 || c == 10u8 || c == 13u8) {
            return false;
        }
        if 48u8 <= c && c <= 57u8 {
            if run == 15 {
                assert(digits_before(bytes@, a as int, k + 1) == 16);
                return false;
            }
            run = run + 1;
        } else {
            run = 0;
        }
        k = k + 1;
    }
    true
}

/// Whether an attribute named `word` set at `i` is safe, by `setting_safe`.
fn is_setting_safe(bytes: &[u8], i: usize, word: &Vec<u8>) -> (r: bool)
    requires
        i < bytes@.len(),
    ensures
        r == setting_safe(bytes@, i as int, word@),
{
    if !has_word_at(bytes, i, word) {
        return true;
    }
    let len = bytes.len();
    assert(i + word@.len() <= len);
    let e = skip_spaces(bytes, i + word.len());
    if !(e < bytes.len() && bytes[e] == 61u8) {
        return true;
    }
    let v = skip_spaces(bytes, e + 1);
    if v < bytes.len() && (bytes[v] == 34u8 || bytes[v] == 39u8) {
        match find_byte(bytes, bytes[v], v + 1) {
            Some(c) => is_plain_value(bytes, v + 1, c),
            None => false,
        }
    } else {
        true
    }
}

/// Whether a `duration` element at `i` is safe, by `duration_safe`.
fn is_duration_safe(bytes: &[u8], i: usize, duration: &Vec<u8>) -> (r: bool)
    requires
        i < bytes@.len(),
        duration@ == duration_word(),
    ensures
        r == duration_safe(bytes@, i as int),
{
    if !(has_word_at(bytes, i, duration) && i > 0 && (bytes[i - 1] == 60u8 || bytes[i - 1] == 58u8)) {
        return true;
    }
    assert(i + 8 <= bytes@.len());
    let g = match find_byte(bytes, 62u8, i + 8) {
        Some(g) => g,
        None => return false,
    };
    let mut m = i + 8;
    while m < g
        invariant
            i + 8 <= m <= g < bytes@.len(),
            no_quote(bytes@, i + 8, m as int),
            word_at(bytes@, i as int, duration_word()),
            i > 0 && (bytes@[i - 1] == 60u8 || bytes@[i - 1] == 58u8),
            next_byte(bytes@, 62u8, i + 8) == Some(g as int),
        decreases g - m,
    {
        if bytes[m] == 34u8 || bytes[m] == 39u8 {
            assert(!no_quote(bytes@, i + 8, g as int));
            return false;
        }
        m = m + 1;
    }
    if bytes[g - 1] == 47u8 {
        return true;
    }
    match find_byte(bytes, 60u8, g + 1) {
        None => is_plain_value(bytes, g + 1, bytes.len()),
        Some(l) => is_plain_value(bytes, g + 1, l) && l + 1 < bytes.len() && bytes[l + 1] != 33u8
            && bytes[l + 1] != 63u8,
    }
}

/// Whether no UTF-16 attribute named `word` is set at `i`.
fn is_wide_setting_safe(bytes: &[u8], i: usize, word: &Vec<u8>) -> (r: bool)
    ensures
        r == wide_setting_safe(bytes@, i as int, word@),
{
    if !has_wide_word_at(bytes, i, word) {
        return true;
    }
    let len = bytes.len();
    assert(i + 2 * word@.len() - 1 <= len);
    let e = skip_spaces_nul(bytes, i + 2 * (word.len() - 1) + 1);
    !(e < bytes.len() && bytes[e] == 61u8)
}

/// Whether `feed_rs` can read `bytes` without panicking, by `parse_safe`.
pub fn is_parse_safe(bytes: &[u8]) -> (r: bool)
    ensures
        r == parse_safe(bytes@),
{
    let mut time: Vec<u8> = Vec::new();
    time.push(116u8);
    time.push(105u8);
    time.push(109u8);
    time.push(101u8);
    let mut start: Vec<u8> = Vec::new();
    start.push(115u8);
    start.push(116u8);
    start.push(97u8);
    start.push(114u8);
    start.push(116u8);
    let mut end: Vec<u8> = Vec::new();
    end.push(101u8);
    end.push(110u8);
    end.push(100u8);
    let mut duration: Vec<u8> = Vec::new();
    duration.push(100u8);
    duration.push(117u8);
    duration.push(114u8);
    duration.push(97u8);
    duration.push(116u8);
    duration.push(105u8);
    duration.push(111u8);
    duration.push(110u8);
    assert(time@ == time_word());
    assert(start@ == start_word());
    assert(end@ == end_word());
    assert(duration@ == duration_word());
    let mut i: usize = 0;
    while i < bytes.len()
        invariant
            i <= bytes@.len(),
            time@ == time_word(),
            start@ == start_word(),
            end@ == end_word(),
            duration@ == duration_word(),
            forall|m: int| 0 <= m < i ==> #[trigger] no_play_time_at(bytes@, m),
        decreases bytes@.len() - i,
    {
        let ok = bytes[i] != 27u8 && is_setting_safe(bytes, i, &time) && is_setting_safe(bytes, i, &start)
            && is_setting_safe(bytes, i, &end) && is_duration_safe(bytes, i, &duration)
            && is_wide_setting_safe(bytes, i, &time) && is_wide_setting_safe(bytes, i, &start)
            && is_wide_setting_safe(bytes, i, &end) && !has_wide_word_at(bytes, i, &duration);
        if !ok {
            assert(!no_play_time_at(bytes@, i as int));
            return false;
        }
        assert(no_play_time_at(bytes@, i as int));
        i = i + 1;
    }
    true
}

/// Whether `feed_rs` reads `bytes` as a feed.
pub uninterp spec fn feed_parses(bytes: Seq<u8>) -> bool;

/// The text of the title of the feed that `feed_rs` reads from `bytes`.
pub uninterp spec fn parsed_title(bytes: Seq<u8>) -> Option<Seq<char>>;

/// How many entries that feed has.
pub uninterp spec fn parsed_entry_count(bytes: Seq<u8>) -> nat;

/// The identifier of its entry `i`: `None` where `feed_rs` made a random one
/// (for an entry with neither an identifier nor a link).
pub uninterp spec fn parsed_entry_id(bytes: Seq<u8>, i: int) -> Option<Seq<char>>;

/// The text of the title of its entry `i`.
pub uninterp spec fn parsed_entry_title(bytes: Seq<u8>, i: int) -> Option<Seq<char>>;

/// The targets of the links of its entry `i`.
pub uninterp spec fn parsed_entry_links(bytes: Seq<u8>, i: int) -> Seq<Seq<char>>;

/// The text of the summary of its entry `i`.
pub uninterp spec fn parsed_entry_summary(bytes: Seq<u8>, i: int) -> Option<Seq<char>>;

/// The content element of its entry `i`, with that element's body.
pub uninterp spec fn parsed_entry_content(bytes: Seq<u8>, i: int) -> Option<Option<Seq<char>>>;

/// The publication time of its entry `i`: seconds and nanoseconds.
pub uninterp spec fn parsed_entry_published(bytes: Seq<u8>, i: int) -> Option<(i64, u32)>;

/// That time as `chrono` displays it.
pub uninterp spec fn parsed_entry_published_text(bytes: Seq<u8>, i: int) -> Option<Seq<char>>;

/// The URL of each content of each media object of its entry `i`.
pub uninterp spec fn parsed_entry_media(bytes: Seq<u8>, i: int) -> Seq<Seq<Option<Seq<char>>>>;

/// A time given as seconds and nanoseconds.
pub open spec fn timestamp_of(t: Option<(i64, u32)>) -> Option<Timestamp> {
    match t {
        Some((secs, nanos)) => Some(Timestamp { secs, nanos }),
        None => None,
    }
}

/// A feed that `feed_rs` read, with the bytes it was read from.
pub struct ParsedFeed {
    feed: ModelFeed,
    source: Ghost<Seq<u8>>,
}

impl View for ParsedFeed {
    type V = Seq<u8>;

    /// The bytes the feed was read from.
    closed spec fn view(&self) -> Seq<u8> {
        self.source@
    }
}

/// `feed_rs::parser::parse`: reads an Atom, RSS or JSON feed. Claimed: it
/// succeeds on the bytes on which `feed_parses` holds, which bytes without `<`
/// or `{` are not (the parser looks for the first of those two bytes and
/// reports a missing feed root without one); a feed it returns is kept with
/// those bytes, which the other wrappers here read it by. It panics on some
/// play times, which `parse_safe` leaves out.
#[verifier::external_body]
fn parse_feed(bytes: &[u8]) -> (r: Result<ParsedFeed, ParseFeedError>)
    requires
        parse_safe(bytes@),
    ensures
        r is Ok == feed_parses(bytes@),
        no_feed_start(bytes@) ==> r is Err,
        r matches Ok(p) ==> p@ == bytes@,
{
    feed_rs::parser::parse(bytes).map(|feed| ParsedFeed { feed, source: Ghost(bytes@) })
}

/// Field `title` of a `feed_rs` feed, as its text.
#[verifier::external_body]
fn feed_title(p: &ParsedFeed) -> (r: Option<String>)
    ensures
        r.deep_view() == parsed_title(p@),
{
    p.feed.title.as_ref().map(|t| t.content.clone())
}

/// The number of entries of a `feed_rs` feed.
#[verifier::external_body]
fn entry_count(p: &ParsedFeed) -> (r: usize)
    ensures
        r == parsed_entry_count(p@),
{
    p.feed.entries.len()
}

/// Field `id` of entry `i` of a `feed_rs` feed. Claimed: it is the identifier
/// the bytes give, where they give one; not stated otherwise (a random UUID).
#[verifier::external_body]
fn entry_id(p: &ParsedFeed, i: usize) -> (r: String)
    requires
        i < parsed_entry_count(p@),
    ensures
        parsed_entry_id(p@, i as int) matches Some(x) ==> r@ == x,
{
    p.feed.entries[i].id.clone()
}

/// Field `title` of entry `i` of a `feed_rs` feed, as its text.
#[verifier::external_body]
fn entry_title(p: &ParsedFeed, i: usize) -> (r: Option<String>)
    requires
        i < parsed_entry_count(p@),
    ensures
        r.deep_view() == parsed_entry_title(p@, i as int),
{
    p.feed.entries[i].title.as_ref().map(|t| t.content.clone())
}

/// Field `links` of entry `i` of a `feed_rs` feed, as their targets.
#[verifier::external_body]
fn entry_links(p: &ParsedFeed, i: usize) -> (r: Vec<String>)
    requires
        i < parsed_entry_count(p@),
    ensures
        r.deep_view() == parsed_entry_links(p@, i as int),
{
    p.feed.entries[i].links.iter().map(|l| l.href.clone()).collect()
}

/// Field `summary` of entry `i` of a `feed_rs` feed, as its text.
#[verifier::external_body]
fn entry_summary(p: &ParsedFeed, i: usize) -> (r: Option<String>)
    requires
        i < parsed_entry_count(p@),
    ensures
        r.deep_view() == parsed_entry_summary(p@, i as int),
{
    p.feed.entries[i].summary.as_ref().map(|t| t.content.clone())
}

/// Field `content` of entry `i` of a `feed_rs` feed, as its body.
#[verifier::external_body]
fn entry_content(p: &ParsedFeed, i: usize) -> (r: Option<Option<String>>)
    requires
        i < parsed_entry_count(p@),
    ensures
        r.deep_view() == parsed_entry_content(p@, i as int),
{
    p.feed.entries[i].content.as_ref().map(|c| c.body.clone())
}

/// Field `published` of entry `i` of a `feed_rs` feed, through
/// `DateTime::timestamp` and `DateTime::timestamp_subsec_nanos`. Claimed also:
/// the nanoseconds stay below two billion, as `chrono` documents.
#[verifier::external_body]
fn entry_published(p: &ParsedFeed, i: usize) -> (r: Option<Timestamp>)
    requires
        i < parsed_entry_count(p@),
    ensures
        r == timestamp_of(parsed_entry_published(p@, i as int)),
        r matches Some(t) ==> t.nanos < 2_000_000_000,
{
    p.feed.entries[i].published.map(|t| Timestamp { secs: t.timestamp(), nanos: t.timestamp_subsec_nanos() })
}

/// Field `published` of entry `i` of a `feed_rs` feed, as `chrono` displays it.
#[verifier::external_body]
fn entry_published_text(p: &ParsedFeed, i: usize) -> (r: Option<String>)
    requires
        i < parsed_entry_count(p@),
    ensures
        r.deep_view() == parsed_entry_published_text(p@, i as int),
{
    p.feed.entries[i].published.map(|t| t.to_string())
}

/// Field `media` of entry `i` of a `feed_rs` feed: for each object, the URL of
/// each content, as `url::Url` displays it.
#[verifier::external_body]
fn entry_media(p: &ParsedFeed, i: usize) -> (r: Vec<Vec<Option<String>>>)
    requires
        i < parsed_entry_count(p@),
    ensures
        r.deep_view() == parsed_entry_media(p@, i as int),
{
    p.feed.entries[i].media.iter().map(|m| m.content.iter().map(|c| c.url.as_ref().map(|u| u.to_string())).collect()).collect()
}

/// `chrono::Utc::now`, as a `Timestamp`. Claimed: the nanoseconds stay below
/// two billion. Not stated: which time it is.
#[verifier::external_body]
pub(crate) fn utc_now() -> (r: Timestamp)
    ensures
        r.nanos < 2_000_000_000,
{
    let now = chrono::Utc::now();
    Timestamp { secs: now.timestamp(), nanos: now.timestamp_subsec_nanos() }
}

/// `e` holds what entry `i` of the feed in `bytes` holds (its identifier where
/// the bytes determine it).
pub open spec fn entry_matches(e: RawEntry, bytes: Seq<u8>, i: int) -> bool {
    &&& (parsed_entry_id(bytes, i) matches Some(x) ==> e.id@ == x)
    &&& e.title.deep_view() == parsed_entry_title(bytes, i)
    &&& e.links.deep_view() == parsed_entry_links(bytes, i)
    &&& e.summary.deep_view() == parsed_entry_summary(bytes, i)
    &&& e.content.deep_view() == parsed_entry_content(bytes, i)
    &&& e.published == timestamp_of(parsed_entry_published(bytes, i))
    &&& e.published_text.deep_view() == parsed_entry_published_text(bytes, i)
    &&& e.media.deep_view() == parsed_entry_media(bytes, i)
}

/// `c` holds what the feed in `bytes` holds: its title, and its entries in
/// order.
pub open spec fn channel_matches(c: RawChannel, bytes: Seq<u8>) -> bool {
    &&& c.title.deep_view() == parsed_title(bytes)
    &&& c.entries@.len() == parsed_entry_count(bytes)
    &&& forall|i: int| 0 <= i < c.entries@.len() ==> #[trigger] entry_matches(c.entries@[i], bytes, i)
}

/// The plain values of entry `i` of a feed that `feed_rs` read.
fn raw_entry(p: &ParsedFeed, i: usize) -> (r: RawEntry)
    requires
        i < parsed_entry_count(p@),
    ensures
        entry_matches(r, p@, i as int),
        r.published matches Some(t) ==> t.nanos < 2_000_000_000,
{
    RawEntry {
        id: entry_id(p, i),
        title: entry_title(p, i),
        links: entry_links(p, i),
        summary: entry_summary(p, i),
        content: entry_content(p, i),
        published: entry_published(p, i),
        published_text: entry_published_text(p, i),
        media: entry_media(p, i),
    }
}

/// Reads feed bytes (Atom, RSS or JSON) with `feed_rs`: its title and its
/// entries in document order. An error exactly when `feed_rs` cannot read
/// them, as for bytes with neither `<` nor `{`.
pub fn read_channel(bytes: &[u8]) -> (r: Result<RawChannel, ChannelError>)
    requires
        parse_safe(bytes@),
    ensures
        r is Ok <==> feed_parses(bytes@),
        r matches Ok(c) ==> channel_matches(c, bytes@),
        r matches Err(e) ==> e == ChannelError::Unparsable,
        no_feed_start(bytes@) ==> r == Err::<RawChannel, ChannelError>(ChannelError::Unparsable),
{
    match parse_feed(bytes) {
        Ok(p) => {
            let title = feed_title(&p);
            let n = entry_count(&p);
            let mut entries: Vec<RawEntry> = Vec::new();
            let mut i: usize = 0;
            while i < n
                invariant
                    n == parsed_entry_count(p@),
                    p@ == bytes@,
                    i <= n,
                    entries@.len() == i,
                    forall|k: int| 0 <= k < i ==> #[trigger] entry_matches(entries@[k], bytes@, k),
                decreases n - i,
            {
                let e = raw_entry(&p, i);
                entries.push(e);
                i = i + 1;
            }
            Ok(RawChannel { title, entries })
        },
        Err(_) => Err(ChannelError::Unparsable),
    }
}

} // verus!
