//! Removal of HTML markup from text, with the tag patterns of the feed parsers.
//!
//! Each pattern is described by a spec function that tells, for a position,
//! where a match starting there ends (if one does). A replacement of all
//! matches by nothing scans left to right: at each position it removes the
//! match that starts there, or keeps the character and moves on, as the regex
//! engine's leftmost-first, non-overlapping search does.
use vstd::prelude::*;

use crate::text::{collapse_ws_from, find_char, find_char_from, is_ws, lemma_collapse_shape, lemma_find_char};

verus! {

/// `s[i..]` with every match of `m` removed: at each position, a match that
/// starts there (and ends after it) is dropped whole; otherwise the character
/// is kept and the scan moves on by one.
pub open spec fn strip_from(s: Seq<char>, i: int, m: spec_fn(Seq<char>, int) -> Option<int>) -> Seq<
    char,
>
    decreases s.len() - i,
{
    if i < 0 || i >= s.len() {
        Seq::empty()
    } else {
        match m(s, i) {
            Some(e) if i < e <= s.len() => strip_from(s, e, m),
            _ => seq![s[i]] + strip_from(s, i + 1, m),
        }
    }
}

/// A match of `m` starts at `i`.
pub open spec fn matches_at(s: Seq<char>, i: int, m: spec_fn(Seq<char>, int) -> Option<int>) -> bool {
    m(s, i) matches Some(e) && i < e <= s.len()
}

/// Where no match starts in `s[i..k]`, those characters stay as they are.
pub proof fn lemma_strip_keeps(
    s: Seq<char>,
    i: int,
    k: int,
    m: spec_fn(Seq<char>, int) -> Option<int>,
)
    requires
        0 <= i <= k <= s.len(),
        forall|j: int| i <= j < k ==> !matches_at(s, j, m),
    ensures
        strip_from(s, i, m) == s.subrange(i, k) + strip_from(s, k, m),
    decreases k - i,
{
    if i < k {
        assert(!matches_at(s, i, m));
        lemma_strip_keeps(s, i + 1, k, m);
        assert(s.subrange(i, k) == seq![s[i]] + s.subrange(i + 1, k));
    } else {
        assert(s.subrange(i, k) == Seq::<char>::empty());
    }
}

/// Where a match starts at `i` and ends at `e`, it is removed.
pub proof fn lemma_strip_skips(
    s: Seq<char>,
    i: int,
    e: int,
    m: spec_fn(Seq<char>, int) -> Option<int>,
)
    requires
        0 <= i < s.len(),
        m(s, i) == Some(e),
        i < e <= s.len(),
    ensures
        strip_from(s, i, m) == strip_from(s, e, m),
{
}

/// End of the match of `<[^>]+>` that starts at `i`: a `<`, at least one
/// character other than `>`, and the first `>` after them.
pub open spec fn simple_tag_end(s: Seq<char>, i: int) -> Option<int> {
    if 0 <= i < s.len() && s[i] == '<' {
        match find_char(s, '>', i + 1) {
            Some(q) => if q > i + 1 {
                Some(q + 1)
            } else {
                None
            },
            None => None,
        }
    } else {
        None
    }
}

/// `Regex::new(r"<[^>]+>").replace_all(s, "")`.
pub open spec fn strip_simple_tags(s: Seq<char>) -> Seq<char> {
    strip_from(s, 0, |t: Seq<char>, i: int| simple_tag_end(t, i))
}

/// End of the match of `<.*?>` that starts at `i`: a `<`, then the fewest
/// characters up to a `>`, none of them a line feed.
pub open spec fn lazy_tag_end(s: Seq<char>, i: int) -> Option<int> {
    if 0 <= i < s.len() && s[i] == '<' {
        match find_char(s, '>', i + 1) {
            Some(q) => match find_char(s, '\n', i + 1) {
                Some(l) => if l < q {
                    None
                } else {
                    Some(q + 1)
                },
                None => Some(q + 1),
            },
            None => None,
        }
    } else {
        None
    }
}

/// `Regex::new(r"<.*?>").replace_all(s, "")`.
pub open spec fn strip_lazy_tags(s: Seq<char>) -> Seq<char> {
    strip_from(s, 0, |t: Seq<char>, i: int| lazy_tag_end(t, i))
}

/// Removes every match of `<[^>]+>`.
pub fn remove_simple_tags(v: &Vec<char>) -> (r: Vec<char>)
    ensures
        r@ == strip_simple_tags(v@),
{
    let ghost m = |t: Seq<char>, i: int| simple_tag_end(t, i);
    let n = v.len();
    let mut r: Vec<char> = Vec::new();
    let mut i: usize = 0;
    while i < n
        invariant
            n == v@.len(),
            i <= n,
            m == (|t: Seq<char>, i: int| simple_tag_end(t, i)),
            r@ + strip_from(v@, i as int, m) == strip_simple_tags(v@),
        decreases n - i,
    {
        let ghost before = r@;
        if v[i] == '<' {
            proof {
                lemma_find_char(v@, '>', i + 1);
            }
            match find_char_from(v, '>', i + 1) {
                Some(q) => {
                    if q > i + 1 {
                        proof {
                            lemma_strip_skips(v@, i as int, q + 1, m);
                        }
                        i = q + 1;
                    } else {
                        assert(!matches_at(v@, i as int, m));
                        assert(before.push('<') + strip_from(v@, i + 1, m) == before + (seq!['<']
                            + strip_from(v@, i + 1, m)));
                        r.push('<');
                        i = i + 1;
                    }
                },
                None => {
                    // no `>` from here on, so no match starts anywhere in the rest
                    assert forall|j: int| i <= j < n implies !matches_at(v@, j, m) by {
                        if v@[j] == '<' {
                            lemma_find_char(v@, '>', j + 1);
                        }
                    }
                    proof {
                        lemma_strip_keeps(v@, i as int, n as int, m);
                    }
                    let rest = crate::text::sub_vec(v, i, n);
                    crate::text::append_chars(&mut r, &rest);
                    assert(strip_from(v@, n as int, m) == Seq::<char>::empty());
                    assert(before + (rest@ + Seq::<char>::empty()) == r@ + Seq::<char>::empty());
                    i = n;
                },
            }
        } else {
            let c = v[i];
            assert(!matches_at(v@, i as int, m));
            assert(before.push(c) + strip_from(v@, i + 1, m) == before + (seq![c] + strip_from(
                v@,
                i + 1,
                m,
            )));
            r.push(c);
            i = i + 1;
        }
    }
    assert(r@ + Seq::<char>::empty() == r@);
    r
}

} // verus!

verus! {

/// Index of the first `>` or line feed at or after `from`, if any.
fn find_tag_stop(v: &Vec<char>, from: usize) -> (r: Option<usize>)
    ensures
        forall|j: int| from <= j < (if r is Some { r->0 as int } else { v@.len() as int }) ==> v@[j]
            != '>' && v@[j] != '\n',
        r matches Some(k) ==> from <= k < v@.len() && (v@[k as int] == '>' || v@[k as int] == '\n'),
{
    let n = v.len();
    let mut j = from;
    while j < n
        invariant
            n == v@.len(),
            from <= j,
            forall|t: int| from <= t < j ==> v@[t] != '>' && v@[t] != '\n',
        decreases n - j,
    {
        if v[j] == '>' || v[j] == '\n' {
            return Some(j);
        }
        j = j + 1;
    }
    None
}

/// Removes every match of `<.*?>`.
pub fn remove_lazy_tags(v: &Vec<char>) -> (r: Vec<char>)
    ensures
        r@ == strip_lazy_tags(v@),
{
    let ghost m = |t: Seq<char>, i: int| lazy_tag_end(t, i);
    let n = v.len();
    let mut r: Vec<char> = Vec::new();
    let mut i: usize = 0;
    while i < n
        invariant
            n == v@.len(),
            i <= n,
            m == (|t: Seq<char>, i: int| lazy_tag_end(t, i)),
            r@ + strip_from(v@, i as int, m) == strip_lazy_tags(v@),
        decreases n - i,
    {
        let ghost before = r@;
        if v[i] == '<' {
            match find_tag_stop(v, i + 1) {
                Some(q) => {
                    proof {
                        lemma_find_char(v@, '>', i + 1);
                        lemma_find_char(v@, '\n', i + 1);
                    }
                    if v[q] == '>' {
                        assert(find_char(v@, '>', i + 1) == Some(q as int));
                        proof {
                            lemma_strip_skips(v@, i as int, q + 1, m);
                        }
                        i = q + 1;
                    } else {
                        assert(find_char(v@, '\n', i + 1) == Some(q as int));
                        assert forall|j: int| i <= j < q implies !matches_at(v@, j, m) by {
                            if v@[j] == '<' {
                                lemma_find_char(v@, '>', j + 1);
                                lemma_find_char(v@, '\n', j + 1);
                                assert(find_char(v@, '\n', j + 1) == Some(q as int));
                            }
                        }
                        proof {
                            lemma_strip_keeps(v@, i as int, q as int, m);
                        }
                        let kept = crate::text::sub_vec(v, i, q);
                        crate::text::append_chars(&mut r, &kept);
                        assert(before + (kept@ + strip_from(v@, q as int, m)) == r@ + strip_from(
                            v@,
                            q as int,
                            m,
                        ));
                        i = q;
                    }
                },
                None => {
                    assert forall|j: int| i <= j < n implies !matches_at(v@, j, m) by {
                        if v@[j] == '<' {
                            lemma_find_char(v@, '>', j + 1);
                        }
                    }
                    proof {
                        lemma_strip_keeps(v@, i as int, n as int, m);
                    }
                    let rest = crate::text::sub_vec(v, i, n);
                    crate::text::append_chars(&mut r, &rest);
                    assert(strip_from(v@, n as int, m) == Seq::<char>::empty());
                    assert(before + (rest@ + Seq::<char>::empty()) == r@ + Seq::<char>::empty());
                    i = n;
                },
            }
        } else {
            let c = v[i];
            assert(!matches_at(v@, i as int, m));
            assert(before.push(c) + strip_from(v@, i + 1, m) == before + (seq![c] + strip_from(
                v@,
                i + 1,
                m,
            )));
            r.push(c);
            i = i + 1;
        }
    }
    assert(r@ + Seq::<char>::empty() == r@);
    r
}

} // verus!

verus! {

/// `c` is a quotation mark, `"` or `'`.
pub open spec fn is_quote(c: char) -> bool {
    c == '"' || c == '\''
}

/// How many quotation marks follow one another from `p` on.
pub open spec fn quote_run(s: Seq<char>, p: int) -> int
    decreases s.len() - p,
{
    if 0 <= p < s.len() && is_quote(s[p]) {
        1 + quote_run(s, p + 1)
    } else {
        0
    }
}

/// End of a match of the rest of `(?:"[^"]*"['"]*|'[^']*'['"]*|[^'">])+>`,
/// resumed at position `i` after at least one repetition, as a backtracking
/// engine finds it first. At `>` the match ends. At a quotation mark the
/// quoted part runs to the next mark of the same kind; the marks that follow
/// are taken greedily, and given back one by one while the rest fails
/// (`markup_retry`). Any other character is one repetition by itself.
pub open spec fn markup_rest(s: Seq<char>, i: int) -> Option<int>
    decreases s.len() - i, 0int,
{
    if i < 0 || i >= s.len() {
        None
    } else if s[i] == '>' {
        Some(i + 1)
    } else if is_quote(s[i]) {
        match find_char(s, s[i], i + 1) {
            Some(j) => {
                proof {
                    lemma_find_char(s, s[i], i + 1);
                    lemma_quote_run_bound(s, j + 1);
                }
                markup_retry(s, j + 1, quote_run(s, j + 1))
            },
            None => None,
        }
    } else {
        markup_rest(s, i + 1)
    }
}

/// After a quoted part that ends before `p`, the first success of the rest of
/// the match when `k`, `k - 1`, ..., `0` of the marks from `p` on are taken.
pub open spec fn markup_retry(s: Seq<char>, p: int, k: int) -> Option<int>
    decreases s.len() - p, k + 1,
{
    if p < 0 || k < 0 || p + k > s.len() {
        None
    } else {
        match markup_rest(s, p + k) {
            Some(e) => Some(e),
            None => if k == 0 {
                None
            } else {
                markup_retry(s, p, k - 1)
            },
        }
    }
}

/// A run of marks stays inside the text.
pub proof fn lemma_quote_run_bound(s: Seq<char>, p: int)
    requires
        0 <= p <= s.len(),
    ensures
        0 <= quote_run(s, p) <= s.len() - p,
        forall|t: int| p <= t < p + quote_run(s, p) ==> is_quote(#[trigger] s[t]),
        p + quote_run(s, p) < s.len() ==> !is_quote(s[p + quote_run(s, p)]),
    decreases s.len() - p,
{
    if p < s.len() && is_quote(s[p]) {
        lemma_quote_run_bound(s, p + 1);
    }
}

/// End of the match of `<(?:"[^"]*"['"]*|'[^']*'['"]*|[^'">])+>` that starts
/// at `i`: a `<`, then at least one repetition (so not a `>` at once).
pub open spec fn markup_tag_end(s: Seq<char>, i: int) -> Option<int> {
    if 0 <= i && i + 1 < s.len() && s[i] == '<' && s[i + 1] != '>' {
        markup_rest(s, i + 1)
    } else {
        None
    }
}

/// `Regex::new(r#"<(?:"[^"]*"['"]*|'[^']*'['"]*|[^'">])+>"#).replace_all(s, "")`.
pub open spec fn strip_markup(s: Seq<char>) -> Seq<char> {
    strip_from(s, 0, |t: Seq<char>, i: int| markup_tag_end(t, i))
}

/// A match of the rest of the pattern ends after where it resumed.
pub proof fn lemma_markup_rest_progress(s: Seq<char>, i: int)
    ensures
        markup_rest(s, i) matches Some(e) ==> i < e <= s.len(),
    decreases s.len() - i, 0int,
{
    if 0 <= i < s.len() && s[i] != '>' {
        if is_quote(s[i]) {
            lemma_find_char(s, s[i], i + 1);
            if let Some(j) = find_char(s, s[i], i + 1) {
                lemma_quote_run_bound(s, j + 1);
                lemma_markup_retry_progress(s, j + 1, quote_run(s, j + 1));
            }
        } else {
            lemma_markup_rest_progress(s, i + 1);
        }
    }
}

/// A retried match ends after where the quotation marks began.
pub proof fn lemma_markup_retry_progress(s: Seq<char>, p: int, k: int)
    ensures
        markup_retry(s, p, k) matches Some(e) ==> p < e <= s.len(),
    decreases s.len() - p, k + 1,
{
    if 0 <= p && 0 <= k && p + k <= s.len() {
        lemma_markup_rest_progress(s, p + k);
        if markup_rest(s, p + k) is None && k > 0 {
            lemma_markup_retry_progress(s, p, k - 1);
        }
    }
}

/// The stored answer for a position: `Some(e)` as an integer.
pub open spec fn as_int_option(o: Option<usize>) -> Option<int> {
    match o {
        Some(e) => Some(e as int),
        None => None,
    }
}

/// For every position of `v`, where the rest of a markup match resumed there
/// ends: entry `i` is `markup_rest(v, i)`. Computed from the end backwards, so
/// that each position looks only at answers already known.
fn markup_table(v: &Vec<char>) -> (t: Vec<Option<usize>>)
    ensures
        t@.len() == v@.len(),
        forall|i: int| 0 <= i < v@.len() ==> as_int_option(#[trigger] t@[i]) == markup_rest(v@, i),
{
    let n = v.len();
    let mut t: Vec<Option<usize>> = Vec::new();
    let mut run: Vec<usize> = Vec::new();
    let mut z: usize = 0;
    while z < n
        invariant
            z <= n,
            t@.len() == z,
            run@.len() == z,
        decreases n - z,
    {
        t.push(None);
        run.push(0);
        z = z + 1;
    }
    // nearest `"` and `'` after the position being filled
    let mut next_dq: Option<usize> = None;
    let mut next_sq: Option<usize> = None;
    let mut i = n;
    while i > 0
        invariant
            n == v@.len(),
            i <= n,
            t@.len() == n,
            run@.len() == n,
            forall|k: int| i <= k < n ==> as_int_option(#[trigger] t@[k]) == markup_rest(v@, k),
            forall|k: int| i <= k < n ==> #[trigger] run@[k] == quote_run(v@, k),
            as_int_option(next_dq) == find_char(v@, '"', i as int),
            as_int_option(next_sq) == find_char(v@, '\'', i as int),
        decreases i,
    {
        i = i - 1;
        let c = v[i];
        proof {
            lemma_quote_run_bound(v@, i + 1);
        }
        let ghost qr_next = quote_run(v@, i + 1);
        let run_next: usize = if i + 1 < n {
            run[i + 1]
        } else {
            0
        };
        assert(run_next == qr_next);
        let value: Option<usize> = if c == '>' {
            Some(i + 1)
        } else if c == '"' || c == '\'' {
            let close = if c == '"' {
                next_dq
            } else {
                next_sq
            };
            assert(as_int_option(close) == find_char(v@, c, i + 1));
            match close {
                Some(j) => {
                    proof {
                        lemma_find_char(v@, c, i + 1);
                        lemma_quote_run_bound(v@, j + 1);
                    }
                    let p = j + 1;
                    let kk: usize = if p < n {
                        run[p]
                    } else {
                        0
                    };
                    assert(kk == quote_run(v@, p as int));
                    let mut k = kk;
                    let mut found: Option<usize> = None;
                    loop
                        invariant_except_break
                            n == v@.len(),
                            t@.len() == n,
                            i < p <= n,
                            p + k <= n,
                            k <= kk,
                            found is None,
                            kk == quote_run(v@, p as int),
                            forall|x: int| i < x < n ==> as_int_option(#[trigger] t@[x])
                                == markup_rest(v@, x),
                            markup_retry(v@, p as int, kk as int) == markup_retry(
                                v@,
                                p as int,
                                k as int,
                            ),
                        ensures
                            as_int_option(found) == markup_retry(v@, p as int, kk as int),
                        decreases k,
                    {
                        let here: Option<usize> = if p + k < n {
                            t[p + k]
                        } else {
                            None
                        };
                        assert(as_int_option(here) == markup_rest(v@, p + k));
                        if here.is_some() {
                            assert(markup_retry(v@, p as int, k as int) == as_int_option(here));
                            found = here;
                            break;
                        }
                        if k == 0 {
                            assert(markup_retry(v@, p as int, k as int) == as_int_option(here));
                            break;
                        }
                        k = k - 1;
                    }
                    assert(as_int_option(found) == markup_rest(v@, i as int));
                    found
                },
                None => {
                    proof {
                        lemma_find_char(v@, c, i + 1);
                    }
                    None
                },
            }
        } else if i + 1 < n {
            assert(as_int_option(t@[i + 1]) == markup_rest(v@, i + 1));
            t[i + 1]
        } else {
            None
        };
        assert(as_int_option(value) == markup_rest(v@, i as int));
        t.set(i, value);
        let r: usize = if c == '"' || c == '\'' {
            run_next + 1
        } else {
            0
        };
        run.set(i, r);
        if c == '"' {
            next_dq = Some(i);
        }
        if c == '\'' {
            next_sq = Some(i);
        }
    }
    t
}

} // verus!

verus! {

/// Removes every match of `<(?:"[^"]*"['"]*|'[^']*'['"]*|[^'">])+>`.
pub fn remove_markup(v: &Vec<char>) -> (r: Vec<char>)
    ensures
        r@ == strip_markup(v@),
{
    let ghost m = |t: Seq<char>, i: int| markup_tag_end(t, i);
    let table = markup_table(v);
    let n = v.len();
    let mut r: Vec<char> = Vec::new();
    let mut i: usize = 0;
    while i < n
        invariant
            n == v@.len(),
            i <= n,
            table@.len() == n,
            forall|k: int| 0 <= k < n ==> as_int_option(#[trigger] table@[k]) == markup_rest(v@, k),
            m == (|t: Seq<char>, i: int| markup_tag_end(t, i)),
            r@ + strip_from(v@, i as int, m) == strip_markup(v@),
        decreases n - i,
    {
        let ghost before = r@;
        let end: Option<usize> = if v[i] == '<' && i + 1 < n && v[i + 1] != '>' {
            assert(as_int_option(table@[i + 1]) == markup_rest(v@, i + 1));
            table[i + 1]
        } else {
            None
        };
        assert(as_int_option(end) == markup_tag_end(v@, i as int));
        proof {
            lemma_markup_rest_progress(v@, i + 1);
        }
        match end {
            Some(e) => {
                proof {
                    lemma_strip_skips(v@, i as int, e as int, m);
                }
                i = e;
            },
            None => {
                let c = v[i];
                assert(!matches_at(v@, i as int, m));
                assert(before.push(c) + strip_from(v@, i + 1, m) == before + (seq![c] + strip_from(
                    v@,
                    i + 1,
                    m,
                )));
                r.push(c);
                i = i + 1;
            },
        }
    }
    assert(r@ + Seq::<char>::empty() == r@);
    r
}

} // verus!

verus! {

/// The text `src="`.
pub open spec fn src_prefix() -> Seq<char> {
    seq!['s', 'r', 'c', '=', '"']
}

/// The last position `q` with `lo <= q < hi` and `s[q] == c`, if any.
pub open spec fn last_char_in(s: Seq<char>, c: char, lo: int, hi: int) -> Option<int>
    decreases hi - lo,
{
    if hi <= lo || hi > s.len() || lo < 0 {
        None
    } else if s[hi - 1] == c {
        Some(hi - 1)
    } else {
        last_char_in(s, c, lo, hi - 1)
    }
}

/// Where the line that holds position `from` ends: its line feed, or the end.
pub open spec fn line_end(s: Seq<char>, from: int) -> int {
    match find_char(s, '\n', from) {
        Some(l) => l,
        None => s.len() as int,
    }
}

/// The capture `link` of `src="(?<link>.+)"` for a match that starts at
/// `p`, as `(start, end)`: after `src="`, the greedy `.+` takes the rest of
/// the line and gives back characters until a `"` follows, keeping at least
/// one.
pub open spec fn src_link_at(s: Seq<char>, p: int) -> Option<(int, int)> {
    if crate::text::occurs_at(s, src_prefix(), p) {
        match last_char_in(s, '"', p + 6, line_end(s, p + 5)) {
            Some(q) => Some((p + 5, q)),
            None => None,
        }
    } else {
        None
    }
}

/// The capture `link` of the leftmost match of `src="(?<link>.+)"` that
/// starts at or after `p`.
pub open spec fn first_src_link(s: Seq<char>, p: int) -> Option<(int, int)>
    decreases s.len() - p,
{
    if p < 0 || p >= s.len() {
        None
    } else {
        match src_link_at(s, p) {
            Some(x) => Some(x),
            None => first_src_link(s, p + 1),
        }
    }
}

/// The text of the `link` capture of `src="(?<link>.+)"` in `s`, if it matches.
pub open spec fn src_link(s: Seq<char>) -> Option<Seq<char>> {
    match first_src_link(s, 0) {
        Some((a, q)) => Some(s.subrange(a, q)),
        None => None,
    }
}

/// What `last_char_in` finds lies in range and holds `c`.
pub proof fn lemma_last_char_in(s: Seq<char>, c: char, lo: int, hi: int)
    ensures
        last_char_in(s, c, lo, hi) matches Some(q) ==> lo <= q < hi && s[q] == c,
    decreases hi - lo,
{
    if lo < hi && hi <= s.len() && 0 <= lo && s[hi - 1] != c {
        lemma_last_char_in(s, c, lo, hi - 1);
    }
}

/// The capture `link` of `src="(?<link>.+)"` in `v`, if the pattern matches.
pub fn find_src_link(v: &Vec<char>) -> (r: Option<Vec<char>>)
    ensures
        match r {
            Some(l) => src_link(v@) == Some(l@),
            None => src_link(v@) is None,
        },
{
    let prefix: Vec<char> = vec!['s', 'r', 'c', '=', '"'];
    assert(prefix@ == src_prefix());
    let n = v.len();
    let mut p: usize = 0;
    while p < n
        invariant
            n == v@.len(),
            p <= n,
            prefix@ == src_prefix(),
            first_src_link(v@, 0) == first_src_link(v@, p as int),
        decreases n - p,
    {
        if crate::text::occurs_at_index(v, &prefix, p) {
            let a = p + 5;
            proof {
                lemma_find_char(v@, '\n', a as int);
            }
            let le: usize = match find_char_from(v, '\n', a) {
                Some(l) => l,
                None => n,
            };
            assert(le == line_end(v@, a as int));
            let mut hi = le;
            let mut found: Option<usize> = None;
            while hi > a && hi - a >= 2
                invariant_except_break
                    n == v@.len(),
                    a <= n,
                    hi <= le <= n,
                    found is None,
                    last_char_in(v@, '"', a + 1, le as int) == last_char_in(
                        v@,
                        '"',
                        a + 1,
                        hi as int,
                    ),
                ensures
                    as_int_option(found) == last_char_in(v@, '"', a + 1, le as int),
                decreases hi,
            {
                if v[hi - 1] == '"' {
                    found = Some(hi - 1);
                    break;
                }
                hi = hi - 1;
            }
            match found {
                Some(q) => {
                    proof {
                        lemma_last_char_in(v@, '"', a + 1, le as int);
                    }
                    return Some(crate::text::sub_vec(v, a, q));
                },
                None => {},
            }
        }
        p = p + 1;
    }
    None
}

} // verus!

verus! {

/// The advertising snippet that feeds leave in their contents.
pub open spec fn ads_snippet() -> Seq<char> {
    "(adsbygoogle = window.adsbygoogle || []).push({});"@
}

/// The advertising snippet, as characters.
pub fn ads_chars() -> (r: Vec<char>)
    ensures
        r@ == ads_snippet(),
        r@.len() > 0,
{
    let r = crate::text::chars_of("(adsbygoogle = window.adsbygoogle || []).push({});");
    proof {
        reveal_strlit("(adsbygoogle = window.adsbygoogle || []).push({});");
    }
    r
}

} // verus!

verus! {

/// No `<` of `t` has a `>` after it, unless a `>` follows it at once: so no
/// match of `<[^>]+>` is left in `t`.
pub open spec fn tag_free(t: Seq<char>) -> bool {
    forall|i: int, j: int|
        0 <= i < j < t.len() && #[trigger] t[i] == '<' && #[trigger] t[j] == '>' ==> t[i + 1]
            == '>'
}

/// `c` is a character of `s` at or after `i`.
pub open spec fn occurs_from(s: Seq<char>, i: int, c: char) -> bool {
    exists|j: int| i <= j < s.len() && s[j] == c
}

/// Each character that `strip_from` keeps is one of `s` from `i` on, and
/// where no match starts at `i`, the first one is `s[i]`.
pub proof fn lemma_strip_origin(s: Seq<char>, i: int, m: spec_fn(Seq<char>, int) -> Option<int>)
    requires
        0 <= i,
    ensures
        forall|k: int|
            0 <= k < strip_from(s, i, m).len() ==> occurs_from(s, i, #[trigger] strip_from(s, i, m)[k]),
        i < s.len() && !matches_at(s, i, m) ==> strip_from(s, i, m).len() > 0 && strip_from(
            s,
            i,
            m,
        )[0] == s[i],
    decreases s.len() - i,
{
    if i < s.len() {
        if matches_at(s, i, m) {
            let e = m(s, i)->0;
            lemma_strip_origin(s, e, m);
            assert(strip_from(s, i, m) == strip_from(s, e, m));
            assert forall|k: int| 0 <= k < strip_from(s, i, m).len() implies occurs_from(
                s,
                i,
                #[trigger] strip_from(s, i, m)[k],
            ) by {
                assert(occurs_from(s, e, strip_from(s, e, m)[k]));
                let j = choose|j: int| e <= j < s.len() && s[j] == strip_from(s, e, m)[k];
                assert(i <= j < s.len() && s[j] == strip_from(s, i, m)[k]);
            }
        } else {
            lemma_strip_origin(s, i + 1, m);
            let rest = strip_from(s, i + 1, m);
            assert(strip_from(s, i, m) == seq![s[i]] + rest);
            assert forall|k: int| 0 <= k < strip_from(s, i, m).len() implies occurs_from(
                s,
                i,
                #[trigger] strip_from(s, i, m)[k],
            ) by {
                if k > 0 {
                    assert(strip_from(s, i, m)[k] == rest[k - 1]);
                    assert(occurs_from(s, i + 1, rest[k - 1]));
                    let j = choose|j: int| i + 1 <= j < s.len() && s[j] == rest[k - 1];
                    assert(i <= j < s.len() && s[j] == strip_from(s, i, m)[k]);
                } else {
                    assert(s[i] == strip_from(s, i, m)[0]);
                }
            }
        }
    }
}

/// What remains after removing `<[^>]+>` holds no such tag.
pub proof fn lemma_strip_simple_tag_free(s: Seq<char>, i: int)
    requires
        0 <= i,
    ensures
        tag_free(strip_from(s, i, |t: Seq<char>, i: int| simple_tag_end(t, i))),
    decreases s.len() - i,
{
    let m = |t: Seq<char>, i: int| simple_tag_end(t, i);
    if i < s.len() {
        if matches_at(s, i, m) {
            let e = m(s, i)->0;
            lemma_find_char(s, '>', i + 1);
            lemma_strip_simple_tag_free(s, e);
        } else {
            lemma_strip_simple_tag_free(s, i + 1);
            lemma_strip_origin(s, i + 1, m);
            let rest = strip_from(s, i + 1, m);
            let r = strip_from(s, i, m);
            assert(r == seq![s[i]] + rest);
            assert forall|a: int, b: int|
                0 <= a < b < r.len() && #[trigger] r[a] == '<' && #[trigger] r[b] == '>' implies r[a
                + 1] == '>' by {
                if a > 0 {
                    assert(r[a] == rest[a - 1] && r[b] == rest[b - 1] && r[a + 1] == rest[a]);
                } else {
                    // `s[i]` is a `<` where no match starts: the next `>` is right after it
                    assert(r[b] == rest[b - 1]);
                    assert(occurs_from(s, i + 1, rest[b - 1]));
                    let j = choose|j: int| i + 1 <= j < s.len() && s[j] == rest[b - 1];
                    lemma_find_char(s, '>', i + 1);
                    assert(s[i + 1] == '>');
                    assert(!matches_at(s, i + 1, m));
                    assert(r[1] == rest[0]);
                }
            }
        }
    }
}

/// A contiguous part of a tag-free text is tag free.
pub proof fn lemma_tag_free_subrange(t: Seq<char>, a: int, b: int)
    requires
        tag_free(t),
        0 <= a <= b <= t.len(),
    ensures
        tag_free(t.subrange(a, b)),
{
    let u = t.subrange(a, b);
    assert forall|i: int, j: int|
        0 <= i < j < u.len() && #[trigger] u[i] == '<' && #[trigger] u[j] == '>' implies u[i + 1]
        == '>' by {
        assert(u[i] == t[a + i] && u[j] == t[a + j] && u[i + 1] == t[a + i + 1]);
    }
}

/// Collapsing white space keeps a text tag free.
pub proof fn lemma_collapse_tag_free(s: Seq<char>, i: int, in_run: bool)
    requires
        tag_free(s),
        0 <= i,
    ensures
        tag_free(collapse_ws_from(s, i, in_run)),
    decreases s.len() - i,
{
    if i < s.len() {
        let rest_run = is_ws(s[i]);
        lemma_collapse_tag_free(s, i + 1, rest_run);
        lemma_collapse_shape(s, i + 1, rest_run);
        let rest = collapse_ws_from(s, i + 1, rest_run);
        let r = collapse_ws_from(s, i, in_run);
        if !(is_ws(s[i]) && in_run) {
            let head = if is_ws(s[i]) {
                ' '
            } else {
                s[i]
            };
            assert(r == seq![head] + rest);
            assert forall|a: int, b: int|
                0 <= a < b < r.len() && #[trigger] r[a] == '<' && #[trigger] r[b] == '>' implies r[a
                + 1] == '>' by {
                if a > 0 {
                    assert(r[a] == rest[a - 1] && r[b] == rest[b - 1] && r[a + 1] == rest[a]);
                } else {
                    assert(r[b] == rest[b - 1]);
                    let j = choose|j: int| i + 1 <= j < s.len() && s[j] == #[trigger] rest[b - 1];
                    assert(s[i] == '<' && s[j] == '>');
                    assert(s[i + 1] == '>');
                    assert(r[1] == rest[0]);
                }
            }
        } else {
            assert(r == rest);
        }
    }
}

/// A tag-free text has no match of `<[^>]+>`, so removing them changes
/// nothing.
pub proof fn lemma_tag_free_strip(t: Seq<char>)
    requires
        tag_free(t),
    ensures
        forall|i: int| 0 <= i < t.len() ==> #[trigger] simple_tag_end(t, i) is None,
        strip_simple_tags(t) == t,
{
    let m = |u: Seq<char>, i: int| simple_tag_end(u, i);
    assert forall|i: int| 0 <= i < t.len() implies #[trigger] simple_tag_end(t, i) is None by {
        lemma_find_char(t, '>', i + 1);
        if t[i] == '<' {
            if let Some(q) = find_char(t, '>', i + 1) {
                if q > i + 1 {
                    assert(t[i + 1] == '>');
                }
            }
        }
    }
    assert forall|j: int| 0 <= j < t.len() implies !matches_at(t, j, m) by {
        assert(simple_tag_end(t, j) is None);
    }
    lemma_strip_keeps(t, 0, t.len() as int, m);
    assert(t.subrange(0, t.len() as int) == t);
    assert(t + Seq::<char>::empty() == t);
}

/// Text without `<` holds no tag of any of the patterns, so stripping tags
/// leaves it as it is.
pub proof fn lemma_no_tag_start_strips_nothing(t: Seq<char>)
    requires
        forall|i: int| 0 <= i < t.len() ==> t[i] != '<',
    ensures
        strip_simple_tags(t) == t,
        strip_lazy_tags(t) == t,
        strip_markup(t) == t,
{
    let ms = |u: Seq<char>, i: int| simple_tag_end(u, i);
    let ml = |u: Seq<char>, i: int| lazy_tag_end(u, i);
    let mm = |u: Seq<char>, i: int| markup_tag_end(u, i);
    assert forall|j: int| 0 <= j < t.len() implies !matches_at(t, j, ms) && !matches_at(t, j, ml)
        && !matches_at(t, j, mm) by {
        assert(t[j] != '<');
    }
    lemma_strip_keeps(t, 0, t.len() as int, ms);
    lemma_strip_keeps(t, 0, t.len() as int, ml);
    lemma_strip_keeps(t, 0, t.len() as int, mm);
    assert(t.subrange(0, t.len() as int) == t);
    assert(t + Seq::<char>::empty() == t);
}

} // verus!
