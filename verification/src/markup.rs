//! Text made safe for a notification server that reads its body as markup.

use vstd::prelude::*;

verus! {

/// What stands for `c` in markup: the five characters that markup gives a
/// meaning to are written as entities, every other character as itself.
pub open spec fn escaped_char(c: char) -> Seq<char> {
    if c == '<' {
        "&lt;"@
    } else if c == '>' {
        "&gt;"@
    } else if c == '&' {
        "&amp;"@
    } else if c == '"' {
        "&quot;"@
    } else if c == '\'' {
        "&#x27;"@
    } else {
        seq![c]
    }
}

/// `text` with each character replaced by what stands for it in markup.
pub open spec fn escaped(text: Seq<char>) -> Seq<char>
    decreases text.len(),
{
    if text.len() == 0 {
        Seq::empty()
    } else {
        escaped(text.drop_last()) + escaped_char(text.last())
    }
}

/// Escapes `text` with `askama_escape::escape` and its `Html` escaper, which
/// writes `<`, `>`, `&`, `"` and `'` as `&lt;`, `&gt;`, `&amp;`, `&quot;` and
/// `&#x27;` and copies everything else.
#[verifier::external_body]
fn escape_html(text: &str) -> (markup: String)
    ensures
        markup@ == escaped(text@),
{
    format!("{}", askama_escape::escape(text, askama_escape::Html))
}

/// `text` as markup that shows as `text`.
pub fn to_markup(text: &str) -> (markup: String)
    ensures
        markup@ == escaped(text@),
{
    escape_html(text)
}

} // verus!
