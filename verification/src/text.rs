//! Building text: single characters onto a `String`, and decimal numbers.
use vstd::prelude::*;

verus! {

/// `String::push`: appends one character.
#[verifier::external_body]
pub(crate) fn push_char(text: &mut String, c: char)
    ensures
        final(text)@ == old(text)@.push(c),
{
    text.push(c)
}

/// The ASCII code of the decimal digit `d`.
pub open spec fn digit_code(d: nat) -> u8 {
    (48 + d) as u8
}

/// The decimal notation of `n` as ASCII bytes, with no leading zero.
pub open spec fn decimal_ascii(n: nat) -> Seq<u8>
    decreases n,
{
    if n < 10 {
        seq![digit_code(n)]
    } else {
        decimal_ascii(n / 10).push(digit_code(n % 10))
    }
}

/// The decimal notation of `n` as characters.
pub open spec fn decimal_chars(n: nat) -> Seq<char> {
    decimal_ascii(n).map_values(|b: u8| b as char)
}

/// Every byte of a decimal notation is a digit code, and there is at least one.
pub proof fn lemma_decimal_ascii_digits(n: nat)
    ensures
        decimal_ascii(n).len() >= 1,
        forall|i: int|
            0 <= i < decimal_ascii(n).len() ==> 48 <= #[trigger] decimal_ascii(n)[i] <= 57,
    decreases n,
{
    if n >= 10 {
        lemma_decimal_ascii_digits(n / 10);
    }
}

/// The decimal notation of `n` as ASCII bytes.
pub fn decimal_bytes(n: u32) -> (digits: Vec<u8>)
    ensures
        digits@ == decimal_ascii(n as nat),
    decreases n,
{
    if n < 10 {
        let d: u8 = (48 + n) as u8;
        vec![d]
    } else {
        let mut digits = decimal_bytes(n / 10);
        let d: u8 = (48 + n % 10) as u8;
        digits.push(d);
        digits
    }
}

/// Appends the decimal notation of `n` to `text`.
pub fn push_decimal(text: &mut String, n: u8)
    ensures
        final(text)@ == old(text)@ + decimal_chars(n as nat),
{
    let digits = decimal_bytes(n as u32);
    let ghost start = text@;
    let mut i: usize = 0;
    while i < digits.len()
        invariant
            i <= digits@.len(),
            digits@ == decimal_ascii(n as nat),
            text@ == start + decimal_chars(n as nat).take(i as int),
        decreases digits@.len() - i,
    {
        let c: char = digits[i] as char;
        push_char(text, c);
        i = i + 1;
        assert(decimal_chars(n as nat).take(i as int) =~= decimal_chars(n as nat).take(
            (i - 1) as int,
        ).push(c));
    }
    assert(decimal_chars(n as nat).take(i as int) =~= decimal_chars(n as nat));
}

} // verus!
