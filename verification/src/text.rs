use vstd::prelude::*;

verus! {

/// Appends one character to a string (`String::push`); the contract states
/// that the new content is the old content followed by `c`.
#[verifier::external_body]
fn push_char(s: &mut String, c: char)
    ensures
        final(s)@ == old(s)@.push(c),
{
    s.push(c);
}

/// The characters of `s`, in order.
pub fn chars_of(s: &str) -> (v: Vec<char>)
    ensures
        v@ == s@,
{
    let mut v: Vec<char> = Vec::new();
    for c in it: s.chars()
        invariant
            v.len() == it.index(),
            forall|j: int| 0 <= j < v.len() ==> v@[j] == it.seq()[j],
    {
        v.push(c);
    }
    assert(v@ == s@);
    v
}

/// The string whose characters are those of `v`.
pub fn string_of(v: &[char]) -> (s: String)
    ensures
        s@ == v@,
{
    let mut s = String::new();
    let n = v.len();
    let mut i: usize = 0;
    while i < n
        invariant
            n == v@.len(),
            i <= n,
            s@ == v@.subrange(0, i as int),
        decreases n - i,
    {
        push_char(&mut s, v[i]);
        assert(v@.subrange(0, i + 1) == v@.subrange(0, i as int).push(v@[i as int]));
        i = i + 1;
    }
    assert(v@.subrange(0, n as int) == v@);
    s
}

} // verus!

verus! {

/// Unicode `White_Space` characters: exactly those that `char::is_whitespace`,
/// `str::trim` and the regex class `\s` accept.
pub open spec fn is_ws(c: char) -> bool {
    let u = c as u32;
    ||| 0x9 <= u && u <= 0xd
    ||| u == 0x20
    ||| u == 0x85
    ||| u == 0xa0
    ||| u == 0x1680
    ||| 0x2000 <= u && u <= 0x200a
    ||| u == 0x2028
    ||| u == 0x2029
    ||| u == 0x202f
    ||| u == 0x205f
    ||| u == 0x3000
}

/// Whether `c` is Unicode white space.
pub fn is_whitespace(c: char) -> (r: bool)
    ensures
        r == is_ws(c),
{
    let u = c as u32;
    (0x9 <= u && u <= 0xd) || u == 0x20 || u == 0x85 || u == 0xa0 || u == 0x1680 || (0x2000 <= u
        && u <= 0x200a) || u == 0x2028 || u == 0x2029 || u == 0x202f || u == 0x205f || u == 0x3000
}

/// `s` without its leading white space.
pub open spec fn trim_start(s: Seq<char>) -> Seq<char>
    decreases s.len(),
{
    if s.len() > 0 && is_ws(s[0]) {
        trim_start(s.drop_first())
    } else {
        s
    }
}

/// `s` without its trailing white space.
pub open spec fn trim_end(s: Seq<char>) -> Seq<char>
    decreases s.len(),
{
    if s.len() > 0 && is_ws(s.last()) {
        trim_end(s.drop_last())
    } else {
        s
    }
}

/// `s` without leading and trailing white space (`str::trim`).
pub open spec fn trim(s: Seq<char>) -> Seq<char> {
    trim_end(trim_start(s))
}

/// The characters of `s` from `i` on, where each maximal run of white space
/// becomes one `' '`; `in_run` tells whether `s[i - 1]` was white space of a run
/// already replaced.
pub open spec fn collapse_ws_from(s: Seq<char>, i: int, in_run: bool) -> Seq<char>
    decreases s.len() - i,
{
    if i < 0 || i >= s.len() {
        Seq::empty()
    } else if is_ws(s[i]) {
        if in_run {
            collapse_ws_from(s, i + 1, true)
        } else {
            seq![' '] + collapse_ws_from(s, i + 1, true)
        }
    } else {
        seq![s[i]] + collapse_ws_from(s, i + 1, false)
    }
}

/// Every maximal run of white space in `s` replaced by a single space
/// (`Regex::new(r"\s+").replace_all(s, " ")`).
pub open spec fn collapse_ws(s: Seq<char>) -> Seq<char> {
    collapse_ws_from(s, 0, false)
}

/// A copy of `v[from..to]`.
pub fn sub_vec(v: &Vec<char>, from: usize, to: usize) -> (r: Vec<char>)
    requires
        from <= to <= v.len(),
    ensures
        r@ == v@.subrange(from as int, to as int),
{
    let mut r: Vec<char> = Vec::new();
    let mut i = from;
    while i < to
        invariant
            from <= i <= to <= v.len(),
            r@ == v@.subrange(from as int, i as int),
        decreases to - i,
    {
        r.push(v[i]);
        assert(v@.subrange(from as int, i + 1) == v@.subrange(from as int, i as int).push(
            v@[i as int],
        ));
        i = i + 1;
    }
    r
}

/// `str::trim` on a character sequence.
pub fn trim_chars(v: &Vec<char>) -> (r: Vec<char>)
    ensures
        r@ == trim(v@),
{
    let n = v.len();
    let mut a: usize = 0;
    assert(v@.subrange(0, n as int) == v@);
    while a < n && is_whitespace(v[a])
        invariant
            n == v@.len(),
            a <= n,
            trim_start(v@) == trim_start(v@.subrange(a as int, n as int)),
        decreases n - a,
    {
        assert(v@.subrange(a as int, n as int).drop_first() == v@.subrange(a + 1, n as int));
        a = a + 1;
    }
    assert(trim_start(v@) == v@.subrange(a as int, n as int));
    let mut b: usize = n;
    while b > a && is_whitespace(v[b - 1])
        invariant
            n == v@.len(),
            a <= b <= n,
            trim(v@) == trim_end(v@.subrange(a as int, b as int)),
        decreases b,
    {
        assert(v@.subrange(a as int, b as int).drop_last() == v@.subrange(a as int, b - 1));
        b = b - 1;
    }
    sub_vec(v, a, b)
}

/// Replaces every maximal run of white space by one space.
pub fn collapse_whitespace(v: &Vec<char>) -> (r: Vec<char>)
    ensures
        r@ == collapse_ws(v@),
{
    let n = v.len();
    let mut r: Vec<char> = Vec::new();
    let mut i: usize = 0;
    let mut in_run = false;
    while i < n
        invariant
            n == v@.len(),
            i <= n,
            r@ + collapse_ws_from(v@, i as int, in_run) == collapse_ws(v@),
        decreases n - i,
    {
        let c = v[i];
        if is_whitespace(c) {
            if !in_run {
                assert(r@.push(' ') + collapse_ws_from(v@, i + 1, true) == r@ + (seq![' ']
                    + collapse_ws_from(v@, i + 1, true)));
                r.push(' ');
            }
            in_run = true;
        } else {
            assert(r@.push(c) + collapse_ws_from(v@, i + 1, false) == r@ + (seq![c]
                + collapse_ws_from(v@, i + 1, false)));
            r.push(c);
            in_run = false;
        }
        i = i + 1;
    }
    assert(collapse_ws_from(v@, n as int, in_run) == Seq::<char>::empty());
    assert(r@ + Seq::<char>::empty() == r@);
    r
}

} // verus!

verus! {

/// Position of the first `c` in `s` at or after `from`, if any.
pub open spec fn find_char(s: Seq<char>, c: char, from: int) -> Option<int>
    decreases s.len() - from,
{
    if from < 0 || from >= s.len() {
        None
    } else if s[from] == c {
        Some(from)
    } else {
        find_char(s, c, from + 1)
    }
}

/// What `find_char` finds is the first `c` from `from` on.
pub proof fn lemma_find_char(s: Seq<char>, c: char, from: int)
    requires
        0 <= from,
    ensures
        find_char(s, c, from) matches Some(k) ==> from <= k < s.len() && s[k] == c && forall|
            j: int,
        | from <= j < k ==> s[j] != c,
        find_char(s, c, from) is None ==> forall|j: int| from <= j < s.len() ==> s[j] != c,
    decreases s.len() - from,
{
    if from < s.len() && s[from] != c {
        lemma_find_char(s, c, from + 1);
    }
}

/// Index of the first `c` in `v` at or after `from`, as `find_char` gives it.
pub fn find_char_from(v: &Vec<char>, c: char, from: usize) -> (r: Option<usize>)
    ensures
        match r {
            Some(k) => find_char(v@, c, from as int) == Some(k as int),
            None => find_char(v@, c, from as int) is None,
        },
{
    let n = v.len();
    let mut i = from;
    while i < n
        invariant
            n == v@.len(),
            from <= i,
            find_char(v@, c, from as int) == find_char(v@, c, i as int),
        decreases n - i,
    {
        if v[i] == c {
            return Some(i);
        }
        i = i + 1;
    }
    None
}

/// `pat` occurs in `s` at index `i`.
pub open spec fn occurs_at(s: Seq<char>, pat: Seq<char>, i: int) -> bool {
    0 <= i && i + pat.len() <= s.len() && s.subrange(i, i + pat.len()) == pat
}

/// `s[i..]` with every occurrence of the non-empty `pat`, found left to right
/// without overlap, replaced by `rep`.
pub open spec fn replace_from(s: Seq<char>, pat: Seq<char>, rep: Seq<char>, i: int) -> Seq<char>
    decreases s.len() - i,
{
    if i < 0 || i >= s.len() || pat.len() == 0 {
        Seq::empty()
    } else if occurs_at(s, pat, i) {
        rep + replace_from(s, pat, rep, i + pat.len())
    } else {
        seq![s[i]] + replace_from(s, pat, rep, i + 1)
    }
}

/// Where the non-empty `pat` occurs nowhere from `i` on, replacing it leaves
/// `s[i..]` as it is.
pub proof fn lemma_replace_absent(s: Seq<char>, pat: Seq<char>, rep: Seq<char>, i: int)
    requires
        0 <= i <= s.len(),
        pat.len() > 0,
        forall|j: int| i <= j < s.len() ==> !#[trigger] occurs_at(s, pat, j),
    ensures
        replace_from(s, pat, rep, i) == s.subrange(i, s.len() as int),
    decreases s.len() - i,
{
    if i < s.len() {
        lemma_replace_absent(s, pat, rep, i + 1);
        assert(!occurs_at(s, pat, i));
        assert(seq![s[i]] + s.subrange(i + 1, s.len() as int) == s.subrange(i, s.len() as int));
    }
}

/// Where the replacement shares no character with the non-empty pattern,
/// every start of the result that spells the end of the pattern (`pat[k..]`)
/// is spelled by the input from `i` on too.
proof fn lemma_replace_pattern_tail(s: Seq<char>, pat: Seq<char>, rep: Seq<char>, i: int, k: int)
    requires
        0 <= i,
        pat.len() > 0,
        rep.len() > 0,
        forall|a: int, b: int| 0 <= a < rep.len() && 0 <= b < pat.len() ==> rep[a] != pat[b],
        0 <= k < pat.len(),
        occurs_at(replace_from(s, pat, rep, i), pat.subrange(k, pat.len() as int), 0),
    ensures
        occurs_at(s, pat.subrange(k, pat.len() as int), i),
    decreases s.len() - i,
{
    let r = replace_from(s, pat, rep, i);
    let t = pat.subrange(k, pat.len() as int);
    assert(r.subrange(0, t.len() as int)[0] == t[0]);
    if i < s.len() {
        if occurs_at(s, pat, i) {
            assert(r[0] == rep[0]);
            assert(t[0] == pat[k]);
        } else {
            let rest = replace_from(s, pat, rep, i + 1);
            assert(r == seq![s[i]] + rest);
            if k + 1 < pat.len() {
                let t1 = pat.subrange(k + 1, pat.len() as int);
                assert forall|m: int| 0 <= m < t1.len() implies rest.subrange(0, t1.len() as int)[m] == t1[m] by {
                    assert(r.subrange(0, t.len() as int)[m + 1] == t[m + 1]);
                }
                assert(rest.subrange(0, t1.len() as int) =~= t1);
                lemma_replace_pattern_tail(s, pat, rep, i + 1, k + 1);
                assert(s.subrange(i + 1, i + 1 + t1.len()) == t1);
                assert forall|m: int| 0 <= m < t.len() implies s.subrange(i, i + t.len())[m] == t[m] by {
                    if m > 0 {
                        assert(s.subrange(i + 1, i + 1 + t1.len())[m - 1] == t1[m - 1]);
                    }
                }
                assert(s.subrange(i, i + t.len()) =~= t);
            } else {
                assert(s.subrange(i, i + t.len()) =~= t);
            }
        }
    }
}

/// Replacing a pattern whose first character occurs nowhere else in it by a
/// non-empty replacement sharing no character with it leaves no occurrence
/// of the pattern.
pub proof fn replace_leaves_no_pattern(s: Seq<char>, pat: Seq<char>, rep: Seq<char>, i: int, j: int)
    requires
        0 <= i,
        pat.len() > 0,
        rep.len() > 0,
        forall|a: int, b: int| 0 <= a < rep.len() && 0 <= b < pat.len() ==> rep[a] != pat[b],
    ensures
        !occurs_at(replace_from(s, pat, rep, i), pat, j),
    decreases s.len() - i,
{
    let r = replace_from(s, pat, rep, i);
    if i < s.len() && occurs_at(r, pat, j) {
        assert(r.subrange(j, j + pat.len())[0] == pat[0]);
        if occurs_at(s, pat, i) {
            let rest = replace_from(s, pat, rep, i + pat.len());
            assert(r == rep + rest);
            if j < rep.len() {
                assert(r[j] == rep[j]);
            } else {
                assert(rest.subrange(j - rep.len(), j - rep.len() + pat.len()) =~= r.subrange(j, j + pat.len()));
                replace_leaves_no_pattern(s, pat, rep, i + pat.len(), j - rep.len());
            }
        } else {
            let rest = replace_from(s, pat, rep, i + 1);
            assert(r == seq![s[i]] + rest);
            if j == 0 {
                assert(pat.subrange(0, pat.len() as int) == pat);
                lemma_replace_pattern_tail(s, pat, rep, i, 0);
            } else {
                assert(rest.subrange(j - 1, j - 1 + pat.len()) =~= r.subrange(j, j + pat.len()));
                replace_leaves_no_pattern(s, pat, rep, i + 1, j - 1);
            }
        }
    }
}

/// `str::replace(s, pat, rep)` for a non-empty pattern.
pub open spec fn replace(s: Seq<char>, pat: Seq<char>, rep: Seq<char>) -> Seq<char> {
    replace_from(s, pat, rep, 0)
}

/// Whether `pat` occurs in `v` at index `i`.
pub fn occurs_at_index(v: &Vec<char>, pat: &Vec<char>, i: usize) -> (r: bool)
    ensures
        r == occurs_at(v@, pat@, i as int),
{
    if i > v.len() || pat.len() > v.len() - i {
        return false;
    }
    let m = pat.len();
    let mut k: usize = 0;
    while k < m
        invariant
            m == pat@.len(),
            i + m <= v.len(),
            k <= m,
            forall|j: int| 0 <= j < k ==> v@[i + j] == pat@[j],
        decreases m - k,
    {
        if v[i + k] != pat[k] {
            assert(v@.subrange(i as int, i + m)[k as int] != pat@[k as int]);
            return false;
        }
        k = k + 1;
    }
    assert(v@.subrange(i as int, i + m) == pat@);
    true
}

/// Appends all of `w` to `r`.
pub fn append_chars(r: &mut Vec<char>, w: &Vec<char>)
    ensures
        final(r)@ == old(r)@ + w@,
{
    let m = w.len();
    let mut k: usize = 0;
    while k < m
        invariant
            m == w@.len(),
            k <= m,
            r@ == old(r)@ + w@.subrange(0, k as int),
        decreases m - k,
    {
        r.push(w[k]);
        assert(w@.subrange(0, k + 1) == w@.subrange(0, k as int).push(w@[k as int]));
        k = k + 1;
    }
    assert(w@.subrange(0, m as int) == w@);
}

/// `str::replace` on character sequences: every occurrence of `pat`, found
/// left to right without overlap, becomes `rep`.
pub fn replace_chars(v: &Vec<char>, pat: &Vec<char>, rep: &Vec<char>) -> (r: Vec<char>)
    requires
        pat@.len() > 0,
    ensures
        r@ == replace(v@, pat@, rep@),
{
    let n = v.len();
    let mut r: Vec<char> = Vec::new();
    let mut i: usize = 0;
    while i < n
        invariant
            n == v@.len(),
            pat@.len() > 0,
            i <= n,
            r@ + replace_from(v@, pat@, rep@, i as int) == replace(v@, pat@, rep@),
        decreases n - i,
    {
        if occurs_at_index(v, pat, i) {
            let ghost before = r@;
            append_chars(&mut r, rep);
            assert(before + (rep@ + replace_from(v@, pat@, rep@, i + pat@.len())) == (before
                + rep@) + replace_from(v@, pat@, rep@, i + pat@.len()));
            i = i + pat.len();
        } else {
            let c = v[i];
            assert(r@.push(c) + replace_from(v@, pat@, rep@, i + 1) == r@ + (seq![c]
                + replace_from(v@, pat@, rep@, i + 1)));
            r.push(c);
            i = i + 1;
        }
    }
    assert(r@ + Seq::<char>::empty() == r@);
    r
}

/// A line as `str::lines` yields it: without its `\n`, and without a `\r`
/// just before that `\n`.
pub open spec fn strip_cr(l: Seq<char>) -> Seq<char> {
    if l.len() > 0 && l.last() == '\r' {
        l.drop_last()
    } else {
        l
    }
}

/// The lines of `s` from index `i` on, as `str::lines` yields them: split at
/// each `\n`, a `\r` before the `\n` dropped, and no empty line after a final
/// `\n`.
pub open spec fn lines_from(s: Seq<char>, i: int) -> Seq<Seq<char>>
    decreases s.len() - i,
{
    if i < 0 || i >= s.len() {
        Seq::empty()
    } else {
        match find_char(s, '\n', i) {
            Some(j) => {
                proof {
                    lemma_find_char(s, '\n', i);
                }
                seq![strip_cr(s.subrange(i, j))] + lines_from(s, j + 1)
            },
            None => seq![s.subrange(i, s.len() as int)],
        }
    }
}

/// `str::lines(s)`.
pub open spec fn lines(s: Seq<char>) -> Seq<Seq<char>> {
    lines_from(s, 0)
}

/// The lines of `text` (`str::lines`), each as a `String`.
pub fn split_lines(text: &str) -> (r: Vec<String>)
    ensures
        r.deep_view() == lines(text@),
{
    let v = chars_of(text);
    let n = v.len();
    let mut r: Vec<String> = Vec::new();
    let mut i: usize = 0;
    while i < n
        invariant
            n == v@.len(),
            v@ == text@,
            i <= n,
            r.deep_view() + lines_from(v@, i as int) == lines(v@),
        decreases n - i,
    {
        let ghost before = r.deep_view();
        match find_char_from(&v, '\n', i) {
            Some(j) => {
                proof {
                    lemma_find_char(v@, '\n', i as int);
                }
                let line = if j > i && v[j - 1] == '\r' {
                    sub_vec(&v, i, j - 1)
                } else {
                    sub_vec(&v, i, j)
                };
                assert(line@ == strip_cr(v@.subrange(i as int, j as int)));
                r.push(string_of(line.as_slice()));
                assert(r.deep_view() == before.push(line@));
                assert(before.push(line@) + lines_from(v@, j + 1) == before + (seq![line@]
                    + lines_from(v@, j + 1)));
                i = j + 1;
            },
            None => {
                let line = sub_vec(&v, i, n);
                r.push(string_of(line.as_slice()));
                assert(r.deep_view() == before.push(line@));
                assert(lines_from(v@, n as int) == Seq::<Seq<char>>::empty());
                assert(before.push(line@) + Seq::<Seq<char>>::empty() == before + seq![line@]);
                i = n;
            },
        }
    }
    assert(r.deep_view() + Seq::<Seq<char>>::empty() == r.deep_view());
    r
}

} // verus!

verus! {

/// Whether two character sequences are equal.
pub fn chars_eq(a: &Vec<char>, b: &Vec<char>) -> (r: bool)
    ensures
        r == (a@ == b@),
{
    if a.len() != b.len() {
        return false;
    }
    let n = a.len();
    let mut i: usize = 0;
    while i < n
        invariant
            n == a@.len(),
            n == b@.len(),
            i <= n,
            forall|j: int| 0 <= j < i ==> a@[j] == b@[j],
        decreases n - i,
    {
        if a[i] != b[i] {
            return false;
        }
        i = i + 1;
    }
    assert(a@ == b@);
    true
}

/// Whether two strings are equal.
pub fn str_eq(a: &str, b: &str) -> (r: bool)
    ensures
        r == (a@ == b@),
{
    let x = chars_of(a);
    let y = chars_of(b);
    chars_eq(&x, &y)
}

} // verus!

verus! {

/// `s` after replacing, in turn, each pattern of `pairs` by its replacement.
pub open spec fn replace_each(s: Seq<char>, pairs: Seq<(Seq<char>, Seq<char>)>) -> Seq<char>
    decreases pairs.len(),
{
    if pairs.len() == 0 {
        s
    } else {
        replace_each(replace(s, pairs[0].0, pairs[0].1), pairs.drop_first())
    }
}

/// The last pair is replaced last.
pub proof fn lemma_replace_each_last(s: Seq<char>, pairs: Seq<(Seq<char>, Seq<char>)>)
    requires
        pairs.len() > 0,
    ensures
        replace_each(s, pairs) == replace(
            replace_each(s, pairs.drop_last()),
            pairs.last().0,
            pairs.last().1,
        ),
    decreases pairs.len(),
{
    let t = replace(s, pairs[0].0, pairs[0].1);
    assert(replace_each(s, pairs) == replace_each(t, pairs.drop_first()));
    if pairs.len() == 1 {
        assert(pairs.drop_first().len() == 0);
        assert(replace_each(t, pairs.drop_first()) == t);
        assert(pairs.drop_last().len() == 0);
        assert(replace_each(s, pairs.drop_last()) == s);
        assert(pairs.last() == pairs[0]);
    } else {
        lemma_replace_each_last(t, pairs.drop_first());
        assert(pairs.drop_first().drop_last() =~= pairs.drop_last().drop_first());
        assert(pairs.drop_first().last() == pairs.last());
        assert(pairs.drop_last()[0] == pairs[0]);
        assert(replace_each(s, pairs.drop_last()) == replace_each(t, pairs.drop_last().drop_first()));
    }
}

/// Replaces, in turn, each pattern of `pairs` by its replacement.
pub fn replace_each_chars(v: &Vec<char>, pairs: &Vec<(Vec<char>, Vec<char>)>) -> (r: Vec<char>)
    requires
        forall|k: int| 0 <= k < pairs@.len() ==> (#[trigger] pairs@[k]).0@.len() > 0,
    ensures
        r@ == replace_each(v@, pairs_view(pairs@)),
{
    let n = pairs.len();
    let mut cur = sub_vec(v, 0, v.len());
    assert(v@.subrange(0, v@.len() as int) == v@);
    assert(pairs_view(pairs@).subrange(0, n as int) == pairs_view(pairs@));
    let mut k: usize = 0;
    while k < n
        invariant
            n == pairs@.len(),
            k <= n,
            forall|j: int| 0 <= j < pairs@.len() ==> (#[trigger] pairs@[j]).0@.len() > 0,
            replace_each(v@, pairs_view(pairs@)) == replace_each(
                cur@,
                pairs_view(pairs@).subrange(k as int, n as int),
            ),
        decreases n - k,
    {
        let ghost rest = pairs_view(pairs@).subrange(k as int, n as int);
        assert(rest.drop_first() == pairs_view(pairs@).subrange(k + 1, n as int));
        let next = replace_chars(&cur, &pairs[k].0, &pairs[k].1);
        cur = next;
        k = k + 1;
    }
    assert(pairs_view(pairs@).subrange(n as int, n as int).len() == 0);
    cur
}

/// The pairs of character sequences that `pairs` holds.
pub open spec fn pairs_view(pairs: Seq<(Vec<char>, Vec<char>)>) -> Seq<(Seq<char>, Seq<char>)> {
    Seq::new(pairs.len(), |k: int| (pairs[k].0@, pairs[k].1@))
}

/// A pair of a pattern and its replacement, from two texts.
pub fn text_pair(pat: &str, rep: &str) -> (r: (Vec<char>, Vec<char>))
    ensures
        r.0@ == pat@,
        r.1@ == rep@,
{
    (chars_of(pat), chars_of(rep))
}

} // verus!

verus! {

/// `s` without the copies of `c` at its start.
pub open spec fn trim_char_start(s: Seq<char>, c: char) -> Seq<char>
    decreases s.len(),
{
    if s.len() > 0 && s[0] == c {
        trim_char_start(s.drop_first(), c)
    } else {
        s
    }
}

/// `s` without the copies of `c` at its end.
pub open spec fn trim_char_end(s: Seq<char>, c: char) -> Seq<char>
    decreases s.len(),
{
    if s.len() > 0 && s.last() == c {
        trim_char_end(s.drop_last(), c)
    } else {
        s
    }
}

/// `str::trim_matches(s, c)`: `s` without the copies of `c` at either end.
pub open spec fn trim_matches(s: Seq<char>, c: char) -> Seq<char> {
    trim_char_end(trim_char_start(s, c), c)
}

/// `str::trim_matches` with a character.
pub fn trim_matches_char(s: &str, c: char) -> (r: String)
    ensures
        r@ == trim_matches(s@, c),
{
    let v = chars_of(s);
    let n = v.len();
    let mut a: usize = 0;
    assert(v@.subrange(0, n as int) == v@);
    while a < n && v[a] == c
        invariant
            n == v@.len(),
            a <= n,
            trim_char_start(v@, c) == trim_char_start(v@.subrange(a as int, n as int), c),
        decreases n - a,
    {
        assert(v@.subrange(a as int, n as int).drop_first() == v@.subrange(a + 1, n as int));
        a = a + 1;
    }
    assert(trim_char_start(v@, c) == v@.subrange(a as int, n as int));
    let mut b: usize = n;
    while b > a && v[b - 1] == c
        invariant
            n == v@.len(),
            a <= b <= n,
            trim_matches(v@, c) == trim_char_end(v@.subrange(a as int, b as int), c),
        decreases b,
    {
        assert(v@.subrange(a as int, b as int).drop_last() == v@.subrange(a as int, b - 1));
        b = b - 1;
    }
    let t = sub_vec(&v, a, b);
    string_of(t.as_slice())
}

} // verus!

verus! {

/// Every white-space character of `t` is a plain space, and no two of them
/// stand side by side.
pub open spec fn spaces_single(t: Seq<char>) -> bool {
    &&& forall|i: int| 0 <= i < t.len() && is_ws(#[trigger] t[i]) ==> t[i] == ' '
    &&& forall|i: int|
        0 <= i < t.len() - 1 ==> !(is_ws(#[trigger] t[i]) && is_ws(t[i + 1]))
}

/// `t` neither starts nor ends with white space.
pub open spec fn ends_trimmed(t: Seq<char>) -> bool {
    t.len() > 0 ==> !is_ws(t[0]) && !is_ws(t[t.len() - 1])
}

/// The characters of `t` that are not white space, in order.
pub open spec fn non_ws(t: Seq<char>) -> Seq<char>
    decreases t.len(),
{
    if t.len() == 0 {
        Seq::empty()
    } else if is_ws(t[0]) {
        non_ws(t.drop_first())
    } else {
        seq![t[0]] + non_ws(t.drop_first())
    }
}

/// Non-white-space characters of a concatenation.
pub proof fn lemma_non_ws_add(a: Seq<char>, b: Seq<char>)
    ensures
        non_ws(a + b) == non_ws(a) + non_ws(b),
    decreases a.len(),
{
    if a.len() > 0 {
        assert((a + b).drop_first() == a.drop_first() + b);
        lemma_non_ws_add(a.drop_first(), b);
    } else {
        assert(a + b == b);
    }
}

/// A single character keeps itself unless it is white space.
proof fn lemma_non_ws_one(c: char)
    ensures
        non_ws(seq![c]) == (if is_ws(c) {
            Seq::<char>::empty()
        } else {
            seq![c]
        }),
{
    let e = Seq::<char>::empty();
    assert(seq![c].drop_first() =~= e);
    assert(seq![c][0] == c);
    assert(non_ws(e) == e);
    assert(seq![c] + e =~= seq![c]);
}

/// Collapsing white space keeps every other character, in order.
pub proof fn lemma_non_ws_collapse(t: Seq<char>, i: int, in_run: bool)
    requires
        0 <= i <= t.len(),
    ensures
        non_ws(collapse_ws_from(t, i, in_run)) == non_ws(t.subrange(i, t.len() as int)),
    decreases t.len() - i,
{
    if i < t.len() {
        lemma_non_ws_collapse(t, i + 1, true);
        lemma_non_ws_collapse(t, i + 1, false);
        let rest = t.subrange(i + 1, t.len() as int);
        assert(t.subrange(i, t.len() as int) == seq![t[i]] + rest);
        lemma_non_ws_add(seq![t[i]], rest);
        lemma_non_ws_one(t[i]);
        if is_ws(t[i]) {
            if !in_run {
                assert((' ' as u32) == 0x20);
                lemma_non_ws_one(' ');
                lemma_non_ws_add(seq![' '], collapse_ws_from(t, i + 1, true));
            }
        } else {
            lemma_non_ws_add(seq![t[i]], collapse_ws_from(t, i + 1, false));
        }
    } else {
        assert(t.subrange(i, t.len() as int) =~= Seq::<char>::empty());
    }
}

/// Trimming the start keeps every character that is not white space.
pub proof fn lemma_non_ws_trim_start(t: Seq<char>)
    ensures
        non_ws(trim_start(t)) == non_ws(t),
    decreases t.len(),
{
    if t.len() > 0 && is_ws(t[0]) {
        lemma_non_ws_trim_start(t.drop_first());
    }
}

/// Trimming the end keeps every character that is not white space.
pub proof fn lemma_non_ws_trim_end(t: Seq<char>)
    ensures
        non_ws(trim_end(t)) == non_ws(t),
    decreases t.len(),
{
    if t.len() > 0 && is_ws(t.last()) {
        lemma_non_ws_trim_end(t.drop_last());
        assert(t == t.drop_last() + seq![t.last()]);
        lemma_non_ws_add(t.drop_last(), seq![t.last()]);
        lemma_non_ws_one(t.last());
        assert(non_ws(t.drop_last()) + Seq::<char>::empty() == non_ws(t.drop_last()));
    }
}

/// Trimming keeps every character that is not white space, in order.
pub proof fn lemma_non_ws_trim(t: Seq<char>)
    ensures
        non_ws(trim(t)) == non_ws(t),
{
    lemma_non_ws_trim_start(t);
    lemma_non_ws_trim_end(trim_start(t));
}

/// Each character that `collapse_ws_from` gives is a space or a character of
/// `s` from `i` on; a run in progress gives no white space first.
pub proof fn lemma_collapse_shape(s: Seq<char>, i: int, in_run: bool)
    requires
        0 <= i,
    ensures
        spaces_single(collapse_ws_from(s, i, in_run)),
        in_run && collapse_ws_from(s, i, in_run).len() > 0 ==> !is_ws(
            collapse_ws_from(s, i, in_run)[0],
        ),
        forall|k: int|
            0 <= k < collapse_ws_from(s, i, in_run).len() ==> #[trigger] collapse_ws_from(
                s,
                i,
                in_run,
            )[k] == ' ' || exists|j: int| i <= j < s.len() && s[j] == collapse_ws_from(s, i, in_run)[k],
        i < s.len() && !is_ws(s[i]) ==> collapse_ws_from(s, i, in_run).len() > 0
            && collapse_ws_from(s, i, in_run)[0] == s[i],
    decreases s.len() - i,
{
    if i < s.len() {
        let rest_run = is_ws(s[i]);
        lemma_collapse_shape(s, i + 1, rest_run);
        let rest = collapse_ws_from(s, i + 1, rest_run);
        let r = collapse_ws_from(s, i, in_run);
        if is_ws(s[i]) && in_run {
            assert(r == rest);
        } else {
            let head = if is_ws(s[i]) {
                ' '
            } else {
                s[i]
            };
            assert(r == seq![head] + rest);
            assert forall|k: int| 0 <= k < r.len() implies #[trigger] r[k] == ' ' || exists|j: int|
                i <= j < s.len() && s[j] == r[k] by {
                if k > 0 {
                    assert(r[k] == rest[k - 1]);
                }
            }
            assert forall|k: int| 0 <= k < r.len() - 1 implies !(is_ws(#[trigger] r[k]) && is_ws(
                r[k + 1],
            )) by {
                if k > 0 {
                    assert(r[k] == rest[k - 1]);
                    assert(r[k + 1] == rest[k]);
                } else {
                    assert(r[1] == rest[0]);
                }
            }
            assert forall|k: int| 0 <= k < r.len() && is_ws(#[trigger] r[k]) implies r[k] == ' ' by {
                if k > 0 {
                    assert(r[k] == rest[k - 1]);
                }
            }
        }
    }
}

/// `trim_start` keeps a suffix, which is empty or starts with no white space.
pub proof fn lemma_trim_start_shape(s: Seq<char>)
    ensures
        exists|a: int| 0 <= a <= s.len() && trim_start(s) == #[trigger] s.subrange(a, s.len() as int),
        trim_start(s).len() > 0 ==> !is_ws(trim_start(s)[0]),
    decreases s.len(),
{
    if s.len() > 0 && is_ws(s[0]) {
        lemma_trim_start_shape(s.drop_first());
        let a = choose|a: int|
            0 <= a <= s.drop_first().len() && trim_start(s.drop_first()) == #[trigger] s.drop_first().subrange(
                a,
                s.drop_first().len() as int,
            );
        assert(s.drop_first().subrange(a, s.drop_first().len() as int) == s.subrange(
            a + 1,
            s.len() as int,
        ));
    } else {
        assert(s.subrange(0, s.len() as int) == s);
    }
}

/// `trim_end` keeps a prefix, which is empty or ends with no white space.
pub proof fn lemma_trim_end_shape(s: Seq<char>)
    ensures
        exists|b: int| 0 <= b <= s.len() && trim_end(s) == #[trigger] s.subrange(0, b),
        trim_end(s).len() > 0 ==> !is_ws(trim_end(s)[trim_end(s).len() - 1]),
    decreases s.len(),
{
    if s.len() > 0 && is_ws(s.last()) {
        lemma_trim_end_shape(s.drop_last());
        let b = choose|b: int|
            0 <= b <= s.drop_last().len() && trim_end(s.drop_last()) == #[trigger] s.drop_last().subrange(
                0,
                b,
            );
        assert(s.drop_last().subrange(0, b) == s.subrange(0, b));
    } else {
        assert(s.subrange(0, s.len() as int) == s);
    }
}

/// `trim` keeps a contiguous part, which neither starts nor ends with white
/// space.
pub proof fn lemma_trim_shape(s: Seq<char>)
    ensures
        exists|a: int, b: int| 0 <= a <= b <= s.len() && trim(s) == #[trigger] s.subrange(a, b),
        ends_trimmed(trim(s)),
{
    lemma_trim_start_shape(s);
    let t = trim_start(s);
    let a = choose|a: int| 0 <= a <= s.len() && trim_start(s) == #[trigger] s.subrange(a, s.len() as int);
    lemma_trim_end_shape(t);
    let b = choose|b: int| 0 <= b <= t.len() && trim_end(t) == #[trigger] t.subrange(0, b);
    assert(t.subrange(0, b) == s.subrange(a, a + b));
    if trim(s).len() > 0 {
        assert(trim(s)[0] == t[0]);
    }
}

/// Single spacing holds in any contiguous part.
pub proof fn lemma_spaces_single_subrange(t: Seq<char>, a: int, b: int)
    requires
        spaces_single(t),
        0 <= a <= b <= t.len(),
    ensures
        spaces_single(t.subrange(a, b)),
{
    let u = t.subrange(a, b);
    assert forall|i: int| 0 <= i < u.len() - 1 implies !(is_ws(#[trigger] u[i]) && is_ws(u[i + 1])) by {
        assert(u[i] == t[a + i] && u[i + 1] == t[a + i + 1]);
    }
    assert forall|i: int| 0 <= i < u.len() && is_ws(#[trigger] u[i]) implies u[i] == ' ' by {
        assert(u[i] == t[a + i]);
    }
}

/// Collapsing changes nothing in single-spaced text (from a position that
/// does not continue a run).
pub proof fn lemma_collapse_single(t: Seq<char>, i: int, in_run: bool)
    requires
        spaces_single(t),
        0 <= i <= t.len(),
        in_run && i < t.len() ==> !is_ws(t[i]),
    ensures
        collapse_ws_from(t, i, in_run) == t.subrange(i, t.len() as int),
    decreases t.len() - i,
{
    if i < t.len() {
        if i + 1 < t.len() {
            assert(!(is_ws(t[i]) && is_ws(t[i + 1])));
        }
        lemma_collapse_single(t, i + 1, is_ws(t[i]));
        assert(t.subrange(i, t.len() as int) == seq![t[i]] + t.subrange(i + 1, t.len() as int));
    } else {
        assert(t.subrange(i, t.len() as int) == Seq::<char>::empty());
    }
}

/// Trimming changes nothing in text that neither starts nor ends with white
/// space.
pub proof fn lemma_trim_trimmed(t: Seq<char>)
    requires
        ends_trimmed(t),
    ensures
        trim(t) == t,
{
}

} // verus!

verus! {

/// No line that `str::lines` yields holds a line feed.
pub proof fn lines_hold_no_line_feed(s: Seq<char>, i: int)
    requires
        0 <= i,
    ensures
        forall|k: int| 0 <= k < lines_from(s, i).len() ==> !(#[trigger] lines_from(s, i)[k]).contains('\n'),
    decreases s.len() - i,
{
    if i < s.len() {
        lemma_find_char(s, '\n', i);
        match find_char(s, '\n', i) {
            Some(j) => {
                lines_hold_no_line_feed(s, j + 1);
                let l = strip_cr(s.subrange(i, j));
                assert(!s.subrange(i, j).contains('\n'));
                assert(!l.contains('\n')) by {
                    if l.contains('\n') {
                        let x = choose|x: int| 0 <= x < l.len() && l[x] == '\n';
                        assert(s.subrange(i, j)[x] == '\n');
                    }
                }
                let ls = lines_from(s, i);
                assert(ls == seq![l] + lines_from(s, j + 1));
                assert forall|k: int| 0 <= k < ls.len() implies !(#[trigger] ls[k]).contains('\n') by {
                    if k > 0 {
                        assert(ls[k] == lines_from(s, j + 1)[k - 1]);
                    }
                }
            },
            None => {
                assert(!s.subrange(i, s.len() as int).contains('\n'));
            },
        }
    }
}

} // verus!
