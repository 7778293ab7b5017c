//! The reply that lists a conversation's notes, as Telegram HTML.

use vstd::prelude::*;
use crate::resolver::opt_view;
use crate::notes::string_views;

verus! {

/// One character as it must appear inside Telegram HTML.
pub open spec fn escape_char(c: char) -> Seq<char> {
    if c == '&' {
        "&amp;"@
    } else if c == '<' {
        "&lt;"@
    } else if c == '>' {
        "&gt;"@
    } else {
        seq![c]
    }
}

/// `&`, `<` and `>` replaced by their entities, every other character kept.
pub open spec fn escape_html(s: Seq<char>) -> Seq<char>
    decreases s.len(),
{
    if s.len() == 0 {
        Seq::empty()
    } else {
        escape_html(s.drop_last()) + escape_char(s.last())
    }
}

/// A text shown as inline code.
pub open spec fn code_inline_spec(s: Seq<char>) -> Seq<char> {
    "<code>"@ + escape_html(s) + "</code>"@
}

/// One bullet line per name, each ending in a line break.
pub open spec fn bullet_lines(names: Seq<Seq<char>>) -> Seq<char>
    decreases names.len(),
{
    if names.len() == 0 {
        Seq::empty()
    } else {
        bullet_lines(names.drop_last()) + "- "@ + code_inline_spec(names.last()) + "\n"@
    }
}

/// The conversation's title, or a generic label when it has none.
pub open spec fn title_or_default(title: Option<Seq<char>>) -> Seq<char> {
    match title {
        Some(t) => t,
        None => "current chat"@,
    }
}

pub open spec fn listing_spec(title: Option<Seq<char>>, names: Seq<Seq<char>>) -> Seq<char> {
    "Following are all the notes in "@ + title_or_default(title) + ":\n"@ + bullet_lines(names)
}

/// Escapes `&`, `<` and `>` for Telegram HTML.
pub fn escape(s: &str) -> (r: String)
    ensures
        r@ == escape_html(s@),
{
    let n = s.unicode_len();
    let mut out = String::new();
    let mut i: usize = 0;
    while i < n
        invariant
            n == s@.len(),
            i <= n,
            out@ == escape_html(s@.subrange(0, i as int)),
        decreases n - i,
    {
        let c = s.get_char(i);
        if c == '&' {
            out.append("&amp;");
        } else if c == '<' {
            out.append("&lt;");
        } else if c == '>' {
            out.append("&gt;");
        } else {
            out.append(s.substring_char(i, i + 1));
            assert(s@.subrange(i as int, i + 1) =~= seq![c]);
        }
        assert(s@.subrange(0, i + 1).drop_last() =~= s@.subrange(0, i as int));
        i = i + 1;
    }
    assert(s@.subrange(0, n as int) =~= s@);
    out
}

/// `s` escaped and wrapped in a `<code>` element.
pub fn code_inline(s: &str) -> (r: String)
    ensures
        r@ == code_inline_spec(s@),
{
    let mut out = String::from_str("<code>");
    let e = escape(s);
    out.append(e.as_str());
    out.append("</code>");
    out
}

/// The reply listing the notes `names` of a conversation titled `title`.
pub fn render_note_listing(title: &Option<String>, names: &Vec<String>) -> (r: String)
    ensures
        r@ == listing_spec(opt_view(*title), string_views(names@)),
{
    let mut out = String::from_str("Following are all the notes in ");
    match title {
        Some(t) => out.append(t.as_str()),
        None => out.append("current chat"),
    }
    out.append(":\n");
    let ghost head = out@;
    let mut i: usize = 0;
    while i < names.len()
        invariant
            i <= names@.len(),
            out@ == head + bullet_lines(string_views(names@.subrange(0, i as int))),
        decreases names@.len() - i,
    {
        let ghost pre = string_views(names@.subrange(0, i as int));
        let ghost next = string_views(names@.subrange(0, i + 1));
        assert(next.drop_last() =~= pre);
        assert(next.last() == names@[i as int]@);
        out.append("- ");
        let code = code_inline(names[i].as_str());
        out.append(code.as_str());
        out.append("\n");
        assert(out@ =~= head + bullet_lines(next));
        i = i + 1;
    }
    assert(names@.subrange(0, names@.len() as int) =~= names@);
    out
}

} // verus!
