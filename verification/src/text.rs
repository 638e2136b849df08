//! Small verified helpers on text.

use vstd::prelude::*;

verus! {


/// Appends one character at the end of `s`: std's `String::push`.
/// Trusted to do exactly that: the new text is the old text followed by `c`.
#[verifier::external_body]
pub(crate) fn push_char(s: &mut String, c: char)
    ensures
        final(s)@ == old(s)@.push(c),
{
    s.push(c)
}

/// The characters of `s`, in order.
pub fn chars_of(s: &str) -> (v: Vec<char>)
    ensures
        v@ == s@,
{
    let mut v: Vec<char> = Vec::new();
    let mut it = s.chars();
    loop
        invariant_except_break
            v@ + vstd::std_specs::iter::IteratorSpec::remaining(&it) == s@,
            vstd::std_specs::iter::IteratorSpec::obeys_prophetic_iter_laws(&it),
            vstd::std_specs::iter::IteratorSpec::decrease(&it) is Some,
        ensures
            v@ == s@,
        decreases vstd::std_specs::iter::IteratorSpec::decrease(&it)->0,
    {
        match it.next() {
            Some(c) => {
                v.push(c);
            },
            None => {
                break;
            },
        }
    }
    v
}

/// The digit character of a number below ten.
pub open spec fn digit_char(d: nat) -> char {
    (48 + d) as char
}

/// The decimal notation of `n`, without leading zeros.
pub open spec fn decimal(n: nat) -> Seq<char>
    decreases n,
{
    if n < 10 {
        seq![digit_char(n)]
    } else {
        decimal(n / 10).push(digit_char(n % 10))
    }
}

/// Appends the decimal notation of `n` to `s`.
pub fn push_decimal(s: &mut String, n: usize)
    ensures
        final(s)@ == old(s)@ + decimal(n as nat),
    decreases n,
{
    if n >= 10 {
        push_decimal(s, n / 10);
    }
    let d: u8 = (n % 10) as u8;
    let c: char = (48u8 + d) as char;
    push_char(s, c);
    assert(final(s)@ =~= old(s)@ + decimal(n as nat));
}

/// The digit characters of distinct digits differ.
pub proof fn lemma_digit_char_injective(a: nat, b: nat)
    requires
        a < 10,
        b < 10,
        digit_char(a) == digit_char(b),
    ensures
        a == b,
{
    assert((48 + a) as char as int == 48 + a);
    assert((48 + b) as char as int == 48 + b);
}

/// Numbers of two or more digits have two or more characters.
pub proof fn lemma_decimal_len(n: nat)
    ensures
        n < 10 ==> decimal(n).len() == 1,
        n >= 10 ==> decimal(n).len() >= 2,
    decreases n,
{
    if n >= 10 {
        lemma_decimal_len(n / 10);
    }
}

/// Distinct numbers have distinct decimal notations.
pub proof fn lemma_decimal_injective(a: nat, b: nat)
    requires
        decimal(a) == decimal(b),
    ensures
        a == b,
    decreases a,
{
    lemma_decimal_len(a);
    lemma_decimal_len(b);
    if a < 10 {
        if b < 10 {
            assert(decimal(a) == seq![digit_char(a)]);
            assert(decimal(b) == seq![digit_char(b)]);
            assert(decimal(a)[0] == decimal(b)[0]);
            assert(seq![digit_char(a)][0] == digit_char(a));
            assert(seq![digit_char(b)][0] == digit_char(b));
            lemma_digit_char_injective(a, b);
        }
    } else {
        if b >= 10 {
            let da = decimal(a);
            let db = decimal(b);
            assert(da.last() == db.last());
            lemma_digit_char_injective(a % 10, b % 10);
            assert(da.drop_last() =~= decimal(a / 10));
            assert(db.drop_last() =~= decimal(b / 10));
            lemma_decimal_injective(a / 10, b / 10);
        }
    }
}

/// The decimal notation of a number holds only the digits `0` to `9`.
pub proof fn lemma_decimal_digits(n: nat)
    ensures
        forall|i: int| 0 <= i < decimal(n).len() ==> '0' <= #[trigger] decimal(n)[i] <= '9',
    decreases n,
{
    assert((48 + n % 10) as char as int == 48 + n % 10);
    if n < 10 {
        assert((48 + n) as char as int == 48 + n);
        assert(decimal(n) == seq![digit_char(n)]);
    } else {
        lemma_decimal_digits(n / 10);
        assert(decimal(n) == decimal(n / 10).push(digit_char(n % 10)));
    }
}

} // verus!
