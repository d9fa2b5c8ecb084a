//! The decisions of the news store: which items a search selects, which
//! items a removal targets, which fetched items are new.
use vstd::prelude::*;

use crate::news::feed::Feed;

verus! {

/// A field of a stored item that a search looks in.
#[derive(Debug, Clone, Copy, PartialEq, Eq, Structural)]
pub enum SearchField {
    Title,
    Content,
    Description,
    Author,
}

/// Which items a search selects.
#[derive(Debug, PartialEq)]
pub enum SearchFilter {
    /// Every item.
    Everything,
    /// The items where at least one of `fields` matches the regular expression
    /// `pattern`, letter case ignored.
    AnyFieldMatches { pattern: String, fields: Vec<SearchField> },
}

/// The order in which a search returns items.
#[derive(Debug, Clone, Copy, PartialEq, Eq, Structural)]
pub enum SortOrder {
    /// By creation time, the newest first.
    NewestFirst,
}

/// A search: the items that `filter` selects, in the order `sort`, at most
/// `limit` of them after skipping `skip`.
#[derive(Debug, PartialEq)]
pub struct FindQuery {
    pub filter: SearchFilter,
    pub sort: SortOrder,
    pub limit: Option<i64>,
    pub skip: Option<u64>,
}

/// Which stored items a removal targets.
#[derive(Debug, PartialEq)]
pub enum DeleteFilter {
    /// All items.
    All,
    /// The items with one of these identifiers.
    Ids(Vec<String>),
}

/// The fields searched for a text: the author alone when `author` is
/// `Some(true)`, else title, content and description.
pub open spec fn search_fields(author: Option<bool>) -> Seq<SearchField> {
    if author == Some(true) {
        seq![SearchField::Author]
    } else {
        seq![SearchField::Title, SearchField::Content, SearchField::Description]
    }
}

/// `q` is the search for `regex` (in the fields that `author` picks), newest
/// first, with `limit` and `skip`.
pub open spec fn is_find_query(
    q: FindQuery,
    regex: Option<Seq<char>>,
    limit: Option<i64>,
    author: Option<bool>,
    skip: Option<u64>,
) -> bool {
    &&& q.sort == SortOrder::NewestFirst
    &&& q.limit == limit
    &&& q.skip == skip
    &&& match regex {
        None => q.filter is Everything,
        Some(re) => q.filter matches SearchFilter::AnyFieldMatches { pattern, fields } && pattern@
            == re && fields@ == search_fields(author),
    }
}

/// The search that `find` sends: without a text, everything; with one, the
/// items whose author matches it (`author == Some(true)`) or whose title,
/// content or description does (otherwise); newest first, limited and
/// skipped as asked.
pub fn find_query(regex: Option<&String>, limit: Option<i64>, author: Option<bool>, skip: Option<u64>) -> (r: FindQuery)
    ensures
        is_find_query(
            r,
            match regex {
                Some(re) => Some(re@),
                None => None,
            },
            limit,
            author,
            skip,
        ),
{
    let filter = match regex {
        Some(re) => {
            let mut fields: Vec<SearchField> = Vec::new();
            let by_author = match author {
                Some(a) => a,
                None => false,
            };
            if by_author {
                fields.push(SearchField::Author);
            } else {
                fields.push(SearchField::Title);
                fields.push(SearchField::Content);
                fields.push(SearchField::Description);
            }
            assert(fields@ == search_fields(author));
            SearchFilter::AnyFieldMatches { pattern: re.clone(), fields }
        },
        None => SearchFilter::Everything,
    };
    FindQuery { filter, sort: SortOrder::NewestFirst, limit, skip }
}

/// The identifiers of a list of strings, copied.
fn copy_strings(v: &[String]) -> (r: Vec<String>)
    ensures
        r.deep_view() == v@.map_values(|s: String| s@),
{
    let mut r: Vec<String> = Vec::new();
    let n = v.len();
    let mut i: usize = 0;
    while i < n
        invariant
            n == v@.len(),
            i <= n,
            r.deep_view() == v@.subrange(0, i as int).map_values(|s: String| s@),
        decreases n - i,
    {
        r.push(v[i].clone());
        assert(v@.subrange(0, i + 1).map_values(|s: String| s@) == v@.subrange(0, i as int).map_values(
            |s: String| s@,
        ).push(v@[i as int]@));
        i = i + 1;
    }
    assert(v@.subrange(0, n as int) == v@);
    r
}

/// What `delete_many` removes: nothing when neither identifiers nor `all`
/// are given, everything when `all` is set, else the items with those
/// identifiers.
pub fn delete_filter(docs: Option<&[String]>, all: bool) -> (r: Option<DeleteFilter>)
    ensures
        docs is None && !all ==> r is None,
        all ==> r == Some(DeleteFilter::All),
        !all && docs is Some ==> (r matches Some(DeleteFilter::Ids(ids)) && ids.deep_view()
            == docs->0@.map_values(|s: String| s@)),
{
    if all {
        Some(DeleteFilter::All)
    } else {
        match docs {
            Some(ids) => Some(DeleteFilter::Ids(copy_strings(ids))),
            None => None,
        }
    }
}

/// The identifiers of `docs`, in order.
pub fn feed_ids(docs: &Vec<Feed>) -> (r: Vec<String>)
    ensures
        r.deep_view() == docs@.map_values(|d: Feed| d.id@),
{
    let mut r: Vec<String> = Vec::new();
    let n = docs.len();
    let mut i: usize = 0;
    while i < n
        invariant
            n == docs@.len(),
            i <= n,
            r.deep_view() == docs@.subrange(0, i as int).map_values(|d: Feed| d.id@),
        decreases n - i,
    {
        r.push(docs[i].id.clone());
        assert(docs@.subrange(0, i + 1).map_values(|d: Feed| d.id@) == docs@.subrange(
            0,
            i as int,
        ).map_values(|d: Feed| d.id@).push(docs@[i as int].id@));
        i = i + 1;
    }
    assert(docs@.subrange(0, n as int) == docs@);
    r
}

/// The items of `docs` whose identifier is none of `existing`, in order.
pub open spec fn new_items(docs: Seq<Feed>, existing: Seq<Seq<char>>) -> Seq<Feed>
    decreases docs.len(),
{
    if docs.len() == 0 {
        Seq::empty()
    } else if existing.contains(docs.last().id@) {
        new_items(docs.drop_last(), existing)
    } else {
        new_items(docs.drop_last(), existing).push(docs.last())
    }
}

/// Whether `id` is one of `ids`.
fn contains_id(ids: &Vec<String>, id: &String) -> (r: bool)
    ensures
        r == ids.deep_view().contains(id@),
{
    let n = ids.len();
    let mut j: usize = 0;
    while j < n
        invariant
            n == ids@.len(),
            j <= n,
            forall|k: int| 0 <= k < j ==> ids@[k]@ != id@,
        decreases n - j,
    {
        if ids[j] == *id {
            assert(ids.deep_view()[j as int] == id@);
            return true;
        }
        j = j + 1;
    }
    assert forall|k: int| 0 <= k < ids.deep_view().len() implies ids.deep_view()[k] != id@ by {
        assert(ids.deep_view()[k] == ids@[k]@);
    }
    false
}

/// The items of `docs` not yet stored: those whose identifier is none of
/// `existing_ids` (the identifiers the store already holds), in order.
pub fn check_many(docs: Vec<Feed>, existing_ids: &Vec<String>) -> (r: Vec<Feed>)
    ensures
        r@ == new_items(docs@, existing_ids.deep_view()),
{
    let ghost all = docs@;
    let mut r: Vec<Feed> = Vec::new();
    let mut rest = docs;
    let mut kept: Vec<Feed> = Vec::new();
    // take the items from the back, then put the kept ones back in order
    let ghost mut k: int = all.len() as int;
    while rest.len() > 0
        invariant
            0 <= k <= all.len(),
            rest@ == all.subrange(0, k),
            new_items(all, existing_ids.deep_view()) == new_items(rest@, existing_ids.deep_view())
                + kept@.reverse(),
        decreases rest.len(),
    {
        let d = rest.pop().unwrap();
        proof {
            assert(all.subrange(0, k - 1) == all.subrange(0, k).drop_last());
            k = k - 1;
        }
        if !contains_id(existing_ids, &d.id) {
            let ghost before = kept@;
            kept.push(d);
            assert(kept@.reverse() == seq![kept@.last()] + before.reverse());
            assert(new_items(all, existing_ids.deep_view()) == new_items(rest@, existing_ids.deep_view())
                + kept@.reverse());
        }
    }
    assert(new_items(rest@, existing_ids.deep_view()) == Seq::<Feed>::empty());
    while kept.len() > 0
        invariant
            new_items(all, existing_ids.deep_view()) == r@ + kept@.reverse(),
        decreases kept.len(),
    {
        let ghost before = kept@;
        let d = kept.pop().unwrap();
        assert(before.reverse() == seq![d] + kept@.reverse());
        r.push(d);
        assert(r@ + kept@.reverse() == (r@.drop_last() + seq![d]) + kept@.reverse());
    }
    assert(kept@.reverse() == Seq::<Feed>::empty());
    r
}

/// What `check` answers for a lookup of an item's identifier: whether it was
/// found, and `true` when the lookup failed (`None`), so that the item counts
/// as present.
pub fn check(found: Option<bool>) -> (r: bool)
    ensures
        r == match found {
            Some(f) => f,
            None => true,
        },
{
    match found {
        Some(f) => f,
        None => true,
    }
}

} // verus!

verus! {

/// The names of the sources, from the texts of the distinct author values
/// that the store reports (a text value shows in quotes): each without the
/// `"` at its ends, in order.
pub fn resourcer_names(raw: &Vec<String>) -> (r: Vec<String>)
    ensures
        r.deep_view() == raw@.map_values(|s: String| crate::text::trim_matches(s@, '"')),
{
    let mut r: Vec<String> = Vec::new();
    let n = raw.len();
    let mut i: usize = 0;
    while i < n
        invariant
            n == raw@.len(),
            i <= n,
            r.deep_view() == raw@.subrange(0, i as int).map_values(
                |s: String| crate::text::trim_matches(s@, '"'),
            ),
        decreases n - i,
    {
        r.push(crate::text::trim_matches_char(raw[i].as_str(), '"'));
        assert(raw@.subrange(0, i + 1).map_values(|s: String| crate::text::trim_matches(s@, '"'))
            == raw@.subrange(0, i as int).map_values(
            |s: String| crate::text::trim_matches(s@, '"'),
        ).push(crate::text::trim_matches(raw@[i as int]@, '"')));
        i = i + 1;
    }
    assert(raw@.subrange(0, n as int) == raw@);
    r
}

} // verus!

verus! {

/// The items that `check_many` keeps are exactly the new ones: none has an
/// identifier the store holds, and checking them again keeps them all.
pub proof fn check_many_keeps_only_new(docs: Seq<Feed>, existing: Seq<Seq<char>>)
    ensures
        forall|k: int|
            0 <= k < new_items(docs, existing).len() ==> !existing.contains(
                (#[trigger] new_items(docs, existing)[k]).id@,
            ),
        new_items(new_items(docs, existing), existing) == new_items(docs, existing),
        new_items(docs, existing).len() <= docs.len(),
    decreases docs.len(),
{
    if docs.len() > 0 {
        check_many_keeps_only_new(docs.drop_last(), existing);
        let pre = new_items(docs.drop_last(), existing);
        if !existing.contains(docs.last().id@) {
            let r = pre.push(docs.last());
            assert(r.drop_last() == pre);
            assert forall|k: int| 0 <= k < r.len() implies !existing.contains(
                (#[trigger] r[k]).id@,
            ) by {
                if k < pre.len() {
                    assert(r[k] == pre[k]);
                }
            }
        }
    }
}


/// The identifiers of `docs`, in order.
pub open spec fn ids_of(docs: Seq<Feed>) -> Seq<Seq<char>> {
    docs.map_values(|d: Feed| d.id@)
}

/// An item whose identifier is not stored is among the new items.
proof fn lemma_new_items_keep(docs: Seq<Feed>, existing: Seq<Seq<char>>, j: int)
    requires
        0 <= j < docs.len(),
        !existing.contains(docs[j].id@),
    ensures
        ids_of(new_items(docs, existing)).contains(docs[j].id@),
    decreases docs.len(),
{
    let pre = new_items(docs.drop_last(), existing);
    if j == docs.len() - 1 {
        let r = pre.push(docs.last());
        assert(ids_of(r)[pre.len() as int] == docs[j].id@);
    } else {
        lemma_new_items_keep(docs.drop_last(), existing, j);
        let k = choose|k: int| 0 <= k < ids_of(pre).len() && ids_of(pre)[k] == docs[j].id@;
        if !existing.contains(docs.last().id@) {
            let r = pre.push(docs.last());
            assert(ids_of(r)[k] == ids_of(pre)[k]);
        }
    }
}

/// Items whose identifiers are all stored are none of them new.
proof fn lemma_new_items_none(docs: Seq<Feed>, existing: Seq<Seq<char>>)
    requires
        forall|k: int| 0 <= k < docs.len() ==> existing.contains(#[trigger] docs[k].id@),
    ensures
        new_items(docs, existing) == Seq::<Feed>::empty(),
    decreases docs.len(),
{
    if docs.len() > 0 {
        assert(existing.contains(docs[docs.len() - 1].id@));
        lemma_new_items_none(docs.drop_last(), existing);
    }
}

/// Storing the new items of `docs` and then checking `again`, whose items
/// each have the identifier of an item of `docs` or of a stored one, keeps
/// nothing: inserting the same items twice stores them once.
pub proof fn inserting_again_adds_nothing(docs: Seq<Feed>, again: Seq<Feed>, existing: Seq<Seq<char>>)
    requires
        forall|k: int|
            0 <= k < again.len() ==> existing.contains(#[trigger] again[k].id@) || ids_of(docs).contains(
                again[k].id@,
            ),
    ensures
        new_items(again, existing + ids_of(new_items(docs, existing))) == Seq::<Feed>::empty(),
{
    let stored = existing + ids_of(new_items(docs, existing));
    assert forall|k: int| 0 <= k < again.len() implies stored.contains(#[trigger] again[k].id@) by {
        let id = again[k].id@;
        if existing.contains(id) {
            let i = choose|i: int| 0 <= i < existing.len() && existing[i] == id;
            assert(stored[i] == id);
        } else {
            let j = choose|j: int| 0 <= j < ids_of(docs).len() && ids_of(docs)[j] == id;
            assert(docs[j].id@ == id);
            lemma_new_items_keep(docs, existing, j);
            let m = choose|m: int|
                0 <= m < ids_of(new_items(docs, existing)).len() && ids_of(new_items(docs, existing))[m] == id;
            assert(stored[existing.len() + m] == id);
        }
    }
    lemma_new_items_none(again, stored);
}

} // verus!
