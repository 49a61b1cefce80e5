//! Numbers and strings as text.

use vstd::prelude::*;
use vstd::string::*;

verus! {

/// The character of the decimal digit `d`.
pub open spec fn digit_char(d: nat) -> char {
    if d == 0 {
        '0'
    } else if d == 1 {
        '1'
    } else if d == 2 {
        '2'
    } else if d == 3 {
        '3'
    } else if d == 4 {
        '4'
    } else if d == 5 {
        '5'
    } else if d == 6 {
        '6'
    } else if d == 7 {
        '7'
    } else if d == 8 {
        '8'
    } else {
        '9'
    }
}

/// The decimal numeral of `n`, without leading zeros.
pub open spec fn decimal(n: nat) -> Seq<char>
    decreases n,
{
    if n < 10 {
        seq![digit_char(n)]
    } else {
        decimal(n / 10).push(digit_char(n % 10))
    }
}

/// One less than `width`, and zero for zero.
pub open spec fn one_less(width: nat) -> nat {
    if width > 0 {
        (width - 1) as nat
    } else {
        0
    }
}

/// The decimal numeral of `n` with zeros before it, as many as it takes to
/// make `width` digits; the numeral itself where it has that many.
pub open spec fn padded(n: nat, width: nat) -> Seq<char>
    decreases n,
{
    if n < 10 {
        Seq::new(one_less(width), |i: int| '0').push(digit_char(n))
    } else {
        padded(n / 10, one_less(width)).push(digit_char(n % 10))
    }
}

/// Whether `c` is a decimal digit.
pub open spec fn is_digit(c: char) -> bool {
    '0' as u32 <= c as u32 <= '9' as u32
}

/// The number that a decimal numeral stands for.
pub open spec fn numeral_value(text: Seq<char>) -> nat
    decreases text.len(),
{
    if text.len() == 0 {
        0
    } else {
        numeral_value(text.drop_last()) * 10 + (text.last() as u32 - '0' as u32) as nat
    }
}

/// A decimal numeral has at least one character, all of them digits, and
/// stands for its number: so different numbers have different numerals.
pub proof fn lemma_decimal(n: nat)
    ensures
        decimal(n).len() >= 1,
        forall|i: int| 0 <= i < decimal(n).len() ==> is_digit(#[trigger] decimal(n)[i]),
        numeral_value(decimal(n)) == n,
    decreases n,
{
    if n < 10 {
        assert(decimal(n).drop_last() =~= Seq::<char>::empty());
        assert(numeral_value(decimal(n).drop_last()) == 0);
    } else {
        lemma_decimal(n / 10);
        assert(decimal(n).drop_last() =~= decimal(n / 10));
    }
}

/// Two texts that each begin with characters of one kind and go on, if at
/// all, with a character of another kind, are the same text only if they
/// have the same beginning and go on in the same way.
pub proof fn lemma_same_beginning(
    kind: spec_fn(char) -> bool,
    first: Seq<char>,
    first_rest: Seq<char>,
    second: Seq<char>,
    second_rest: Seq<char>,
)
    requires
        forall|i: int| 0 <= i < first.len() ==> kind(#[trigger] first[i]),
        forall|i: int| 0 <= i < second.len() ==> kind(#[trigger] second[i]),
        first_rest.len() > 0 ==> !kind(first_rest[0]),
        second_rest.len() > 0 ==> !kind(second_rest[0]),
        first + first_rest == second + second_rest,
    ensures
        first == second,
        first_rest == second_rest,
{
    let a = first + first_rest;
    let b = second + second_rest;
    if first.len() < second.len() {
        assert(a.len() == b.len());
        assert(a[first.len() as int] == first_rest[0]);
        assert(b[first.len() as int] == second[first.len() as int]);
    } else if second.len() < first.len() {
        assert(a.len() == b.len());
        assert(b[second.len() as int] == second_rest[0]);
        assert(a[second.len() as int] == first[second.len() as int]);
    }
    assert(first.len() == second.len());
    assert(a.len() == first.len() + first_rest.len());
    assert(b.len() == second.len() + second_rest.len());
    assert forall|i: int| 0 <= i < first.len() implies first[i] == second[i] by {
        assert(a[i] == first[i]);
        assert(b[i] == second[i]);
    }
    assert(first =~= second);
    assert forall|i: int| 0 <= i < first_rest.len() implies first_rest[i] == second_rest[i] by {
        assert(a[first.len() + i] == first_rest[i]);
        assert(b[second.len() + i] == second_rest[i]);
    }
    assert(first_rest =~= second_rest);
}

fn digit_str(d: u64) -> (s: &'static str)
    requires
        d < 10,
    ensures
        s@ == seq![digit_char(d as nat)],
{
    proof {
        reveal_strlit("0");
        reveal_strlit("1");
        reveal_strlit("2");
        reveal_strlit("3");
        reveal_strlit("4");
        reveal_strlit("5");
        reveal_strlit("6");
        reveal_strlit("7");
        reveal_strlit("8");
        reveal_strlit("9");
    }
    let s = if d == 0 {
        "0"
    } else if d == 1 {
        "1"
    } else if d == 2 {
        "2"
    } else if d == 3 {
        "3"
    } else if d == 4 {
        "4"
    } else if d == 5 {
        "5"
    } else if d == 6 {
        "6"
    } else if d == 7 {
        "7"
    } else if d == 8 {
        "8"
    } else {
        "9"
    };
    assert(s@ =~= seq![digit_char(d as nat)]);
    s
}

/// Appends the decimal numeral of `n` to `out`.
pub fn push_decimal(out: &mut String, n: u64)
    ensures
        final(out)@ == old(out)@ + decimal(n as nat),
    decreases n,
{
    if n < 10 {
        out.append(digit_str(n));
    } else {
        push_decimal(out, n / 10);
        out.append(digit_str(n % 10));
        assert(out@ =~= old(out)@ + decimal(n as nat));
    }
}

/// Appends the decimal numeral of `n` to `out`, with zeros before it to
/// make `width` digits.
pub fn push_padded(out: &mut String, n: u64, width: usize)
    ensures
        final(out)@ == old(out)@ + padded(n as nat, width as nat),
    decreases n,
{
    if n < 10 {
        let mut k: usize = 1;
        while k < width
            invariant
                1 <= k,
                k <= width || (width == 0 && k == 1),
                out@ == old(out)@ + Seq::new((k - 1) as nat, |i: int| '0'),
            decreases width - k,
        {
            out.append("0");
            proof {
                reveal_strlit("0");
                assert(out@ =~= old(out)@ + Seq::new(k as nat, |i: int| '0'));
            }
            k = k + 1;
        }
        out.append(digit_str(n));
        assert(out@ =~= old(out)@ + padded(n as nat, width as nat));
    } else {
        push_padded(out, n / 10, if width > 0 { width - 1 } else { 0 });
        out.append(digit_str(n % 10));
        assert(out@ =~= old(out)@ + padded(n as nat, width as nat));
    }
}

/// What `{:?}` prints for a string: the string between double quotes, with
/// the characters escaped that Rust escapes.
pub uninterp spec fn debug_text(text: Seq<char>) -> Seq<char>;

/// Formats a string with `{:?}`, which is std's `Debug` for `str`. Trusted:
/// the result depends on the characters of the string alone, and
/// `debug_text` is the name of it.
#[verifier::external_body]
pub(crate) fn debug_string(text: &str) -> (out: String)
    ensures
        out@ == debug_text(text@),
{
    format!("{:?}", text)
}

} // verus!
