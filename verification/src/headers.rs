//! Message headers: the fields of a raw header block, and the subject and
//! date a notification shows for the message.

use vstd::prelude::*;
use vstd::string::*;

verus! {

/// One header field, decoded to text.
#[derive(Debug)]
pub struct Header {
    pub name: String,
    pub value: String,
}

/// Header fields as pairs of name and value.
pub open spec fn fields(headers: Seq<Header>) -> Seq<(Seq<char>, Seq<char>)> {
    Seq::new(headers.len(), |i: int| (headers[i].name@, headers[i].value@))
}

/// The error of `mailparse`, `MailParseError`: carried, never looked into.
#[verifier::external_type_specification]
#[verifier::external_body]
pub struct ExMailParseError(mailparse::MailParseError);

/// The header fields that `mailparse` reads from a raw header block, each as
/// its decoded name and value in the order they stand; `None` where it
/// rejects the block.
pub uninterp spec fn parsed_headers(raw: Seq<u8>) -> Option<Seq<(Seq<char>, Seq<char>)>>;

/// Parses a raw header block with `mailparse::parse_headers` and decodes each
/// field with `MailHeader::get_key` and `MailHeader::get_value`. The contract
/// only names the outcome: the same bytes give the same fields or the same
/// refusal.
#[verifier::external_body]
pub(crate) fn parse_headers(raw: &[u8]) -> (parsed: Result<Vec<Header>, mailparse::MailParseError>)
    ensures
        match parsed {
            Ok(headers) => parsed_headers(raw@) == Some(fields(headers@)),
            Err(_) => parsed_headers(raw@) is None,
        },
{
    let (headers, _) = mailparse::parse_headers(raw)?;
    Ok(headers.iter().map(|h| Header { name: h.get_key(), value: h.get_value() }).collect())
}

/// `c` with an ASCII capital letter turned into its small letter.
pub open spec fn ascii_lower(c: char) -> char {
    if 'A' <= c <= 'Z' {
        ((c as u32) + 32) as char
    } else {
        c
    }
}

/// Whether two texts are equal up to the case of ASCII letters.
pub open spec fn same_ignoring_case(a: Seq<char>, b: Seq<char>) -> bool {
    &&& a.len() == b.len()
    &&& forall|i: int| 0 <= i < a.len() ==> ascii_lower(a[i]) == ascii_lower(b[i])
}

/// The value of the first field named `key`, names compared without regard
/// to the case of ASCII letters.
pub open spec fn first_value(fields: Seq<(Seq<char>, Seq<char>)>, key: Seq<char>) -> Option<
    Seq<char>,
>
    decreases fields.len(),
{
    if fields.len() == 0 {
        None
    } else if same_ignoring_case(fields.first().0, key) {
        Some(fields.first().1)
    } else {
        first_value(fields.drop_first(), key)
    }
}

fn lower(c: char) -> (code: u32)
    ensures
        code == ascii_lower(c) as u32,
{
    let code: u32 = c as u32;
    if 65 <= code && code <= 90 {
        code + 32
    } else {
        code
    }
}

/// Whether `a` and `b` are equal up to the case of ASCII letters.
pub fn eq_ignoring_case(a: &str, b: &str) -> (same: bool)
    ensures
        same == same_ignoring_case(a@, b@),
{
    let len: usize = a.unicode_len();
    if len != b.unicode_len() {
        return false;
    }
    let mut i: usize = 0;
    while i < len
        invariant
            i <= len,
            len == a@.len(),
            len == b@.len(),
            forall|j: int| 0 <= j < i ==> ascii_lower(a@[j]) == ascii_lower(b@[j]),
        decreases len - i,
    {
        if lower(a.get_char(i)) != lower(b.get_char(i)) {
            return false;
        }
        i += 1;
    }
    true
}

/// The value of the first header named `key`.
pub fn get_first_value(headers: &Vec<Header>, key: &str) -> (value: Option<String>)
    ensures
        match value {
            Some(text) => first_value(fields(headers@), key@) == Some(text@),
            None => first_value(fields(headers@), key@) is None,
        },
{
    let mut i: usize = 0;
    proof {
        assert(fields(headers@).skip(0) =~= fields(headers@));
    }
    while i < headers.len()
        invariant
            i <= headers@.len(),
            first_value(fields(headers@), key@) == first_value(
                fields(headers@).skip(i as int),
                key@,
            ),
        decreases headers@.len() - i,
    {
        proof {
            let rest = fields(headers@).skip(i as int);
            assert(rest.first() == (headers@[i as int].name@, headers@[i as int].value@));
            assert(rest.drop_first() == fields(headers@).skip(i + 1));
        }
        if eq_ignoring_case(headers[i].name.as_str(), key) {
            return Some(headers[i].value.clone());
        }
        i += 1;
    }
    None
}

} // verus!
