//! The terminal news item: its text cleaned on demand, and shown on a terminal.
use vstd::prelude::*;

use crate::entities::{to_uppercase, uppercased};
use crate::markup::{ads_chars, ads_snippet, find_src_link, remove_markup, src_link, strip_markup};
use crate::text::{
    chars_of, lemma_replace_each_last, occurs_at, pairs_view, replace_each, replace_each_chars,
    replace_leaves_no_pattern, string_of, text_pair,
};

verus! {

/// Something that can be shown on a terminal.
pub trait UI {
    /// The text to show.
    fn write(&self) -> String;
}

/// A news item with its raw HTML description and content.
#[derive(Debug, PartialEq)]
pub struct Feed {
    pub title: String,
    pub link: String,
    pub description: Option<String>,
    pub author: String,
    pub guid: String,
    pub images: Option<String>,
    pub published: Option<String>,
    pub content: Option<String>,
}

/// The character references and leftovers fixed in a description, in order.
pub open spec fn description_fixes() -> Seq<(Seq<char>, Seq<char>)> {
    seq![
        ("&#039;"@, "'"@),
        ("&#8216;"@, "'"@),
        ("&#8217;"@, "'"@),
        ("&#46;"@, "."@),
        ("&amp;"@, "&"@),
        ("&quot;"@, "\""@),
        ("\n\n"@, "\n"@),
        (ads_snippet(), ""@),
        ("&#8220;"@, "\""@),
    ]
}

/// The character references and leftovers fixed in a content, in order.
pub open spec fn content_fixes() -> Seq<(Seq<char>, Seq<char>)> {
    seq![
        ("&#039;"@, "'"@),
        ("&#8216;"@, "'"@),
        ("&#8217;"@, "'"@),
        ("&#46;"@, "."@),
        ("&amp;"@, "&"@),
        ("&quot;"@, "\""@),
        ("&#8220;"@, "\""@),
        ("\n\n"@, "\n"@),
        (ads_snippet(), ""@),
    ]
}

/// A description as shown: markup removed, then the fixes applied.
pub open spec fn shown_description(s: Seq<char>) -> Seq<char> {
    replace_each(strip_markup(s), description_fixes())
}

/// A content as shown: markup removed, then the fixes applied.
pub open spec fn shown_content(s: Seq<char>) -> Seq<char> {
    replace_each(strip_markup(s), content_fixes())
}

/// An optional text as shown by `shown`.
pub open spec fn shown_option(o: Option<String>, description: bool) -> Option<Seq<char>> {
    match o {
        Some(s) => Some(
            if description {
                shown_description(s@)
            } else {
                shown_content(s@)
            },
        ),
        None => None,
    }
}

/// The image that the shown description names in `src="..."`, or else (when
/// there is no description) the one the shown content names; nothing if none.
pub open spec fn source_image(f: Feed) -> Seq<char> {
    match shown_option(f.description, true) {
        Some(d) => match src_link(d) {
            Some(l) => l,
            None => Seq::empty(),
        },
        None => match shown_option(f.content, false) {
            Some(c) => match src_link(c) {
                Some(l) => l,
                None => Seq::empty(),
            },
            None => Seq::empty(),
        },
    }
}

/// A shown description holds no `&#8220;`: every left double quotation mark
/// reference is fixed to `"`, and nothing fixed after it makes a new one.
pub proof fn shown_description_fixes_left_quotes(s: Seq<char>, j: int)
    ensures
        !occurs_at(shown_description(s), "&#8220;"@, j),
{
    reveal_strlit("&#8220;");
    reveal_strlit("\"");
    let pairs = description_fixes();
    lemma_replace_each_last(strip_markup(s), pairs);
    assert(pairs.last() == ("&#8220;"@, "\""@));
    let pat = "&#8220;"@;
    let rep = "\""@;
    assert forall|a: int, b: int| 0 <= a < rep.len() && 0 <= b < pat.len() implies rep[a] != pat[b] by {
        assert(rep[a] == '"');
    }
    replace_leaves_no_pattern(replace_each(strip_markup(s), pairs.drop_last()), pat, rep, 0, j);
}

/// The pairs of `description_fixes` or `content_fixes`, as characters.
fn fixes(description: bool) -> (r: Vec<(Vec<char>, Vec<char>)>)
    ensures
        pairs_view(r@) == (if description {
            description_fixes()
        } else {
            content_fixes()
        }),
        forall|k: int| 0 <= k < r@.len() ==> (#[trigger] r@[k]).0@.len() > 0,
{
    let mut r: Vec<(Vec<char>, Vec<char>)> = Vec::new();
    r.push(text_pair("&#039;", "'"));
    r.push(text_pair("&#8216;", "'"));
    r.push(text_pair("&#8217;", "'"));
    r.push(text_pair("&#46;", "."));
    r.push(text_pair("&amp;", "&"));
    r.push(text_pair("&quot;", "\""));
    if description {
        r.push(text_pair("\n\n", "\n"));
        r.push((ads_chars(), Vec::new()));
        r.push(text_pair("&#8220;", "\""));
    } else {
        r.push(text_pair("&#8220;", "\""));
        r.push(text_pair("\n\n", "\n"));
        r.push((ads_chars(), Vec::new()));
    }
    proof {
        reveal_strlit("&#039;");
        reveal_strlit("&#8216;");
        reveal_strlit("&#8217;");
        reveal_strlit("&#46;");
        reveal_strlit("&amp;");
        reveal_strlit("&quot;");
        reveal_strlit("\n\n");
        reveal_strlit("&#8220;");
        reveal_strlit("");
    }
    assert(pairs_view(r@) =~~= (if description {
        description_fixes()
    } else {
        content_fixes()
    }));
    r
}

/// Markup removed from `s`, then the fixes applied.
fn shown(s: &String, description: bool) -> (r: String)
    ensures
        r@ == (if description {
            shown_description(s@)
        } else {
            shown_content(s@)
        }),
{
    let v = chars_of(s.as_str());
    let bare = remove_markup(&v);
    let pairs = fixes(description);
    let fixed = replace_each_chars(&bare, &pairs);
    string_of(fixed.as_slice())
}

impl Feed {
    /// The description without markup, its common character references and
    /// the advertising snippet fixed.
    pub fn description(&self) -> (r: Option<String>)
        ensures
            r.deep_view() == shown_option(self.description, true),
    {
        match &self.description {
            Some(d) => Some(shown(d, true)),
            None => None,
        }
    }

    /// The content without markup, its common character references and the
    /// advertising snippet fixed.
    pub fn content(&self) -> (r: Option<String>)
        ensures
            r.deep_view() == shown_option(self.content, false),
    {
        match &self.content {
            Some(c) => Some(shown(c, false)),
            None => None,
        }
    }

    /// The address in the first `src="..."` of the shown description, or of the
    /// shown content when there is no description; empty if there is none.
    pub fn image_from_source(&self) -> (r: String)
        ensures
            r@ == source_image(*self),
    {
        let found = match self.description() {
            Some(desc) => find_src_link(&chars_of(desc.as_str())),
            None => match self.content() {
                Some(text) => find_src_link(&chars_of(text.as_str())),
                None => None,
            },
        };
        match found {
            Some(l) => string_of(l.as_slice()),
            None => String::new(),
        }
    }
}

/// The text that `UI::write` shows for an item: its title in upper case, a
/// blank line, its shown description (or nothing), then `@` and its author.
pub open spec fn written(f: Feed) -> Seq<char> {
    let d = match shown_option(f.description, true) {
        Some(x) => x,
        None => Seq::empty(),
    };
    uppercased(f.title@) + seq!['\n', '\n'] + d + seq!['\n', '@'] + f.author@ + seq!['\n']
}

impl UI for Feed {
    fn write(&self) -> (r: String)
        ensures
            r@ == written(*self),
    {
        let mut out = chars_of(to_uppercase(self.title.as_str()).as_str());
        out.push('\n');
        out.push('\n');
        match self.description() {
            Some(d) => {
                let dv = chars_of(d.as_str());
                crate::text::append_chars(&mut out, &dv);
            },
            None => {},
        }
        out.push('\n');
        out.push('@');
        let av = chars_of(self.author.as_str());
        crate::text::append_chars(&mut out, &av);
        out.push('\n');
        assert(out@ =~= written(*self));
        string_of(out.as_slice())
    }
}

} // verus!
