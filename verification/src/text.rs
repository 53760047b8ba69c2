//! Text building blocks: decimal numbers, white space and trimming.

use vstd::prelude::*;
use vstd::string::*;

verus! {

/// `String::push` appends one character and leaves the rest as it was.
pub assume_specification[ String::push ](text: &mut String, c: char)
    ensures
        final(text)@ == old(text)@.push(c),
;

/// The character that writes the digit `d`.
pub open spec fn digit(d: int) -> char
    recommends
        0 <= d < 10,
{
    (d + 48) as char
}

/// `n` written in decimal, without sign or leading zeros.
pub open spec fn decimal(n: nat) -> Seq<char>
    decreases n,
{
    if n < 10 {
        seq![digit(n as int)]
    } else {
        decimal(n / 10).push(digit((n % 10) as int))
    }
}

/// The digits are written `0` to `9`.
pub proof fn lemma_digits()
    ensures
        digit(0) == '0',
        digit(1) == '1',
        digit(2) == '2',
        digit(3) == '3',
        digit(4) == '4',
        digit(5) == '5',
        digit(6) == '6',
        digit(7) == '7',
        digit(8) == '8',
        digit(9) == '9',
{
}

/// Appends `n` in decimal to `out`.
pub fn push_decimal(out: &mut String, n: u64)
    ensures
        final(out)@ == old(out)@ + decimal(n as nat),
    decreases n,
{
    if n >= 10 {
        push_decimal(out, n / 10);
    }
    let d: u8 = (n % 10) as u8;
    out.push((48u8 + d) as char);
    proof {
        assert(((48u8 + d) as u8) as char == digit((n % 10) as int));
        if n >= 10 {
            assert(final(out)@ == (old(out)@ + decimal((n / 10) as nat)).push(digit((n % 10) as int)));
            assert(final(out)@ =~= old(out)@ + decimal(n as nat));
        } else {
            assert(final(out)@ =~= old(out)@ + decimal(n as nat));
        }
    }
}

/// Whether `c` is white space as Unicode defines it (`White_Space`).
pub open spec fn is_white_space(c: char) -> bool {
    let n = c as u32;
    ||| 0x09 <= n <= 0x0D
    ||| n == 0x20
    ||| n == 0x85
    ||| n == 0xA0
    ||| n == 0x1680
    ||| 0x2000 <= n <= 0x200A
    ||| n == 0x2028
    ||| n == 0x2029
    ||| n == 0x202F
    ||| n == 0x205F
    ||| n == 0x3000
}

/// Whether `c` is white space.
pub fn white_space(c: char) -> (yes: bool)
    ensures
        yes == is_white_space(c),
{
    let n: u32 = c as u32;
    (0x09 <= n && n <= 0x0D) || n == 0x20 || n == 0x85 || n == 0xA0 || n == 0x1680 || (0x2000 <= n
        && n <= 0x200A) || n == 0x2028 || n == 0x2029 || n == 0x202F || n == 0x205F || n == 0x3000
}

/// How many characters of `text` are left once the white space at its end
/// is cut off.
pub open spec fn kept_len(text: Seq<char>) -> nat
    decreases text.len(),
{
    if text.len() == 0 || !is_white_space(text.last()) {
        text.len()
    } else {
        kept_len(text.drop_last())
    }
}

/// How many characters of white space `text` starts with.
pub open spec fn lead_len(text: Seq<char>) -> nat
    decreases text.len(),
{
    if text.len() == 0 || !is_white_space(text.first()) {
        0
    } else {
        1 + lead_len(text.drop_first())
    }
}

/// `text` without the white space at its end.
pub open spec fn trimmed_end(text: Seq<char>) -> Seq<char> {
    text.take(kept_len(text) as int)
}

/// `text` without the white space at either end.
pub open spec fn trimmed(text: Seq<char>) -> Seq<char> {
    trimmed_end(text.skip(lead_len(text) as int))
}

/// What is cut from the end is white space, and what is kept does not end in
/// white space.
pub proof fn lemma_kept_len(text: Seq<char>)
    ensures
        kept_len(text) <= text.len(),
        forall|i: int| kept_len(text) <= i < text.len() ==> is_white_space(text[i]),
        kept_len(text) > 0 ==> !is_white_space(text[kept_len(text) - 1]),
    decreases text.len(),
{
    if text.len() != 0 && is_white_space(text.last()) {
        let rest = text.drop_last();
        lemma_kept_len(rest);
        assert forall|i: int| kept_len(text) <= i < text.len() implies is_white_space(
            text[i],
        ) by {
            if i < rest.len() {
                assert(rest[i] == text[i]);
            }
        }
        if kept_len(text) > 0 {
            assert(rest[kept_len(rest) - 1] == text[kept_len(text) - 1]);
        }
    }
}

/// What is cut from the start is white space, and what follows does not start
/// with white space.
pub proof fn lemma_lead_len(text: Seq<char>)
    ensures
        lead_len(text) <= text.len(),
        forall|i: int| 0 <= i < lead_len(text) ==> is_white_space(text[i]),
        lead_len(text) < text.len() ==> !is_white_space(text[lead_len(text) as int]),
    decreases text.len(),
{
    if text.len() != 0 && is_white_space(text.first()) {
        let rest = text.drop_first();
        lemma_lead_len(rest);
        assert forall|i: int| 0 <= i < lead_len(text) implies is_white_space(text[i]) by {
            if i > 0 {
                assert(rest[i - 1] == text[i]);
            }
        }
        if lead_len(text) < text.len() {
            assert(rest[lead_len(rest) as int] == text[lead_len(text) as int]);
        }
    }
}

/// `text` without the white space at its end.
pub fn trim_end(text: &str) -> (cut: &str)
    ensures
        cut@ == trimmed_end(text@),
{
    let mut k: usize = text.unicode_len();
    proof {
        assert(text@.take(k as int) =~= text@);
    }
    loop
        invariant
            k <= text@.len(),
            kept_len(text@) == kept_len(text@.take(k as int)),
        ensures
            k <= text@.len(),
            k as nat == kept_len(text@),
        decreases k,
    {
        if k == 0 {
            break ;
        }
        let last = text.get_char(k - 1);
        proof {
            assert(text@.take(k as int).last() == last);
            assert(text@.take(k as int).drop_last() == text@.take(k - 1));
        }
        if !white_space(last) {
            break ;
        }
        k -= 1;
    }
    proof {
        assert(text@.take(0) =~= Seq::<char>::empty());
    }
    text.substring_char(0, k)
}

/// `text` without the white space at either end.
pub fn trim(text: &str) -> (cut: &str)
    ensures
        cut@ == trimmed(text@),
{
    let len: usize = text.unicode_len();
    let mut k: usize = 0;
    proof {
        assert(text@.skip(0) =~= text@);
    }
    loop
        invariant
            k <= len,
            len == text@.len(),
            lead_len(text@) == k + lead_len(text@.skip(k as int)),
        ensures
            k <= len,
            k as nat == lead_len(text@),
        decreases len - k,
    {
        if k == len {
            break ;
        }
        let first = text.get_char(k);
        proof {
            assert(text@.skip(k as int).first() == first);
            assert(text@.skip(k as int).drop_first() == text@.skip(k + 1));
        }
        if !white_space(first) {
            break ;
        }
        k += 1;
    }
    proof {
        assert(text@.skip(0) =~= text@);
        assert(text@.subrange(k as int, len as int) =~= text@.skip(k as int));
    }
    trim_end(text.substring_char(k, len))
}

/// The texts of a list of strings.
pub open spec fn texts(strings: Seq<String>) -> Seq<Seq<char>> {
    Seq::new(strings.len(), |i: int| strings[i]@)
}

/// The text of a string that may be missing.
pub open spec fn opt_text(string: Option<String>) -> Option<Seq<char>> {
    match string {
        Some(s) => Some(s@),
        None => None,
    }
}

} // verus!
