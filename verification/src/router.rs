//! The API's answers, apart from the store's work: the endpoint list, the
//! search that a query asks for, and what a removal request does.
use vstd::prelude::*;

use crate::database::{delete_filter, find_query, is_find_query, DeleteFilter, FindQuery};
use crate::parse::{bool_of, i64_of, parse_bool, parse_i64, parse_u64, u64_of};
use crate::text::{chars_of, string_of};

verus! {

/// A removal request: the identifiers to remove, or all items.
#[derive(Debug, PartialEq)]
pub struct Delete {
    pub ids: Option<Vec<String>>,
    pub all: bool,
}

/// One endpoint of the API: its path, an example of use, and its query
/// parameters with their meaning.
#[derive(Debug, PartialEq)]
pub struct HPath {
    pub endpoint: String,
    pub usage: String,
    pub parameters: Option<Vec<(String, String)>>,
}

/// What a removal request does: the store removes what `filter` targets (if
/// anything), and the answer is `status` with `body`.
#[derive(Debug, PartialEq)]
pub struct DeleteOutcome {
    pub status: u16,
    pub body: Option<Vec<String>>,
    pub filter: Option<DeleteFilter>,
}

/// The status of a successful answer (200 OK).
pub const OK: u16 = 200;

/// A string with the characters of `s`.
fn text(s: &str) -> (r: String)
    ensures
        r@ == s@,
{
    string_of(chars_of(s).as_slice())
}

/// The parameters of `/find` and their meaning, as texts.
pub open spec fn find_parameters() -> Seq<(Seq<char>, Seq<char>)> {
    seq![
        ("q"@, "query"@),
        ("limit"@, "limit default value is 10"@),
        ("skip"@, "skip default value is 0"@),
        ("author"@, "for searching authors false or true"@),
    ]
}

/// The texts of a list of parameter pairs.
pub open spec fn pairs_text(v: Seq<(String, String)>) -> Seq<(Seq<char>, Seq<char>)> {
    v.map_values(|p: (String, String)| (p.0@, p.1@))
}

/// The endpoint list: `/api`, `/find` (with its parameters) and `/resourcers`.
pub fn root() -> (r: Vec<HPath>)
    ensures
        r@.len() == 3,
        r@[0].endpoint@ == "/api"@,
        r@[0].usage@ == "/api"@,
        r@[0].parameters is None,
        r@[1].endpoint@ == "/find"@,
        r@[1].usage@ == "/api/find?q=bugün&limit=10&skip=20&author=false"@,
        r@[1].parameters matches Some(ps) && pairs_text(ps@) == find_parameters(),
        r@[2].endpoint@ == "/resourcers"@,
        r@[2].usage@ == "/api/resourcers"@,
        r@[2].parameters is None,
{
    let mut params: Vec<(String, String)> = Vec::new();
    params.push((text("q"), text("query")));
    params.push((text("limit"), text("limit default value is 10")));
    params.push((text("skip"), text("skip default value is 0")));
    params.push((text("author"), text("for searching authors false or true")));
    assert(pairs_text(params@) =~~= find_parameters());
    let mut path: Vec<HPath> = Vec::new();
    path.push(HPath { endpoint: text("/api"), usage: text("/api"), parameters: None });
    path.push(
        HPath {
            endpoint: text("/find"),
            usage: text("/api/find?q=bugün&limit=10&skip=20&author=false"),
            parameters: Some(params),
        },
    );
    path.push(
        HPath { endpoint: text("/resourcers"), usage: text("/api/resourcers"), parameters: None },
    );
    path
}

/// The value of `key` in the query `q`: that of its last pair with that key.
pub open spec fn query_value(q: Seq<(String, String)>, key: Seq<char>) -> Option<Seq<char>>
    decreases q.len(),
{
    if q.len() == 0 {
        None
    } else if q.last().0@ == key {
        Some(q.last().1@)
    } else {
        query_value(q.drop_last(), key)
    }
}

/// The value of `key` in the query `q`, if it has one.
fn query_get(q: &Vec<(String, String)>, key: &str) -> (r: Option<String>)
    ensures
        r.deep_view() == query_value(q@, key@),
{
    let k = text(key);
    let mut i = q.len();
    assert(q@.subrange(0, i as int) == q@);
    while i > 0
        invariant
            i <= q@.len(),
            k@ == key@,
            query_value(q@, key@) == query_value(q@.subrange(0, i as int), key@),
        decreases i,
    {
        assert(q@.subrange(0, i as int).drop_last() == q@.subrange(0, i - 1));
        if q[i - 1].0 == k {
            return Some(q[i - 1].1.clone());
        }
        i = i - 1;
    }
    None
}

/// The limit that a query asks for: its `limit` read as an `i64`, or 10 when
/// absent or unreadable.
pub open spec fn query_limit(q: Seq<(String, String)>) -> i64 {
    match query_value(q, "limit"@) {
        Some(v) => match i64_of(v) {
            Some(x) => x,
            None => 10,
        },
        None => 10,
    }
}

/// The number of items that a query skips: its `skip` read as a `u64`, or 0
/// when absent or unreadable.
pub open spec fn query_skip(q: Seq<(String, String)>) -> u64 {
    match query_value(q, "skip"@) {
        Some(v) => match u64_of(v) {
            Some(x) => x,
            None => 0,
        },
        None => 0,
    }
}

/// Whether a query searches authors: its `author` read as a `bool`, if given.
pub open spec fn query_author(q: Seq<(String, String)>) -> Option<bool> {
    match query_value(q, "author"@) {
        Some(v) => bool_of(v),
        None => None,
    }
}

/// A limit or skip that the query gives, readable as a number, is the one
/// the search uses; neither is cut or changed. Absent or unreadable, the
/// limit is 10 and the skip 0.
pub proof fn query_numbers_are_read(q: Seq<(String, String)>)
    ensures
        query_value(q, "limit"@) matches Some(v) ==> (i64_of(v) matches Some(n) ==> query_limit(q) == n),
        query_value(q, "skip"@) matches Some(v) ==> (u64_of(v) matches Some(n) ==> query_skip(q) == n),
        (query_value(q, "limit"@) matches Some(v) ==> i64_of(v) is None) ==> query_limit(q) == 10,
        (query_value(q, "skip"@) matches Some(v) ==> u64_of(v) is None) ==> query_skip(q) == 0,
{
}

/// The search that a `/find` query (its parameters as pairs) asks for: the
/// text `q` if given, the limit (10 by default), the authors or the other
/// fields, and the skip (0 by default).
pub fn get_news_with_query(query: &Vec<(String, String)>) -> (r: FindQuery)
    requires
        query_value(query@, "author"@) matches Some(v) ==> bool_of(v) is Some,
    ensures
        is_find_query(
            r,
            query_value(query@, "q"@),
            Some(query_limit(query@)),
            query_author(query@),
            Some(query_skip(query@)),
        ),
        query_value(query@, "limit"@) matches Some(v) ==> (i64_of(v) matches Some(n) ==> r.limit == Some(n)),
        query_value(query@, "skip"@) matches Some(v) ==> (u64_of(v) matches Some(n) ==> r.skip == Some(n)),
        (query_value(query@, "limit"@) matches Some(v) ==> i64_of(v) is None) ==> r.limit == Some(10i64),
        (query_value(query@, "skip"@) matches Some(v) ==> u64_of(v) is None) ==> r.skip == Some(0u64),
        query_value(query@, "q"@) is None ==> r.filter is Everything,
{
    let limit: i64 = match query_get(query, "limit") {
        Some(v) => match parse_i64(v.as_str()) {
            Some(x) => x,
            None => 10,
        },
        None => 10,
    };
    let skip: u64 = match query_get(query, "skip") {
        Some(v) => match parse_u64(v.as_str()) {
            Some(x) => x,
            None => 0,
        },
        None => 0,
    };
    let q = query_get(query, "q");
    let author: Option<bool> = match query_get(query, "author") {
        Some(v) => parse_bool(v.as_str()),
        None => None,
    };
    let r = match &q {
        Some(s) => find_query(Some(s), Some(limit), author, Some(skip)),
        None => find_query(None, Some(limit), author, Some(skip)),
    };
    r
}

/// What a removal request does: with identifiers, those items go (all of
/// them when `all` is set) and the answer lists the identifiers; without,
/// everything goes when `all` is set, nothing otherwise, and the answer is
/// empty. The status is 200 either way.
pub fn delete_feeds(payload: Delete) -> (r: DeleteOutcome)
    ensures
        r.status == OK,
        r.body == payload.ids,
        payload.ids is None && !payload.all ==> r.filter is None,
        payload.all ==> r.filter == Some(DeleteFilter::All),
        !payload.all && payload.ids is Some ==> (r.filter matches Some(DeleteFilter::Ids(ids))
            && ids.deep_view() == payload.ids->0.deep_view()),
{
    let Delete { ids, all } = payload;
    let filter = match &ids {
        Some(v) => delete_filter(Some(v.as_slice()), all),
        None => delete_filter(None, all),
    };
    proof {
        if !all && ids is Some {
            assert(ids->0@.map_values(|s: String| s@) =~= ids->0.deep_view());
        }
    }
    DeleteOutcome { status: OK, body: ids, filter }
}

} // verus!
