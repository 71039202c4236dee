//! Texts: their characters, and the writing of numbers and labelled values.

use crate::lexer::{decimal_text, digit_char};
use vstd::prelude::*;
use vstd::std_specs::iter::IteratorSpec;
use vstd::string::StringExecFns;

verus! {

/// `String::push` appends one character.
pub assume_specification[ String::push ](text: &mut String, ch: char)
    ensures
        final(text)@ == old(text)@.push(ch),
;

/// What `{:?}` writes for a character: the character between single quotes,
/// escaped where it is not written as itself.
pub uninterp spec fn quoted(c: char) -> Seq<char>;

/// The character as std's `Debug` writes it, by `format!` with `{:?}`. The
/// result is named, not described: it depends on the character alone.
#[verifier::external_body]
fn quote(c: char) -> (text: String)
    ensures
        text@ == quoted(c),
{
    format!("{:?}", c)
}

/// `label`, then `inner` in round brackets.
pub open spec fn labelled_text(label: Seq<char>, inner: Seq<char>) -> Seq<char> {
    label + seq!['('] + inner + seq![')']
}

/// Writes `label(inner)`.
pub fn labelled(label: &str, inner: &str) -> (text: String)
    ensures
        text@ == labelled_text(label@, inner@),
{
    let mut text = label.to_owned();
    text.push('(');
    text.append(inner);
    text.push(')');
    text
}

/// Writes `label('c')`, the character as `{:?}` shows it.
pub fn labelled_char(label: &str, c: char) -> (text: String)
    ensures
        text@ == labelled_text(label@, quoted(c)),
{
    let inner = quote(c);
    labelled(label, inner.as_str())
}

/// Appends the decimal text of `n` to `out`.
pub fn push_decimal(out: &mut String, n: u32)
    ensures
        final(out)@ == old(out)@ + decimal_text(n as nat),
    decreases n,
{
    if n >= 10 {
        push_decimal(out, n / 10);
    }
    let digit: u8 = (n % 10) as u8;
    out.push((digit + 48) as char);
    proof {
        assert((digit + 48) as char == digit_char((n % 10) as nat));
        if n >= 10 {
            assert(old(out)@ + decimal_text(n as nat / 10).push(digit_char((n % 10) as nat))
                =~= (old(out)@ + decimal_text(n as nat / 10)).push(digit_char((n % 10) as nat)));
        } else {
            assert(old(out)@ + seq![digit_char(n as nat)] =~= old(out)@.push(digit_char(n as nat)));
        }
    }
}

/// The decimal text of `n`.
pub fn decimal_string(n: u32) -> (text: String)
    ensures
        text@ == decimal_text(n as nat),
{
    let mut text = String::new();
    push_decimal(&mut text, n);
    assert(Seq::<char>::empty() + decimal_text(n as nat) =~= decimal_text(n as nat));
    text
}

/// The characters of `text`, in order.
pub fn to_chars(text: &str) -> (chars: Vec<char>)
    ensures
        chars@ == text@,
{
    broadcast use vstd::string::group_string_axioms;

    let mut chars: Vec<char> = Vec::new();
    let mut rest = text.chars();
    loop
        invariant
            chars@ + rest.remaining() == text@,
            rest.decrease() is Some,
        ensures
            chars@ == text@,
        decreases rest.decrease()->0,
    {
        match rest.next() {
            Some(c) => {
                chars.push(c);
            },
            None => {
                assert(chars@ + rest.remaining() =~= chars@);
                break ;
            },
        }
    }
    chars
}

} // verus!
