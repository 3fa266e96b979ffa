//! Numbers written in decimal.

use vstd::prelude::*;

verus! {

/// `c` is one of the ten decimal digits.
pub open spec fn is_digit(c: char) -> bool {
    '0' <= c <= '9'
}

/// The number that a digit stands for.
pub open spec fn digit(c: char) -> nat {
    (c as int - '0' as int) as nat
}

/// The number that a row of digits stands for.
pub open spec fn value(s: Seq<char>) -> nat
    decreases s.len(),
{
    if s.len() == 0 {
        0
    } else {
        value(s.drop_last()) * 10 + digit(s.last())
    }
}

/// How many digits `s` begins with.
pub open spec fn leading_digits(s: Seq<char>) -> nat
    decreases s.len(),
{
    if s.len() > 0 && is_digit(s[0]) {
        1 + leading_digits(s.drop_first())
    } else {
        0
    }
}

/// The digits that `s` begins with.
pub open spec fn digit_prefix(s: Seq<char>) -> Seq<char> {
    s.take(leading_digits(s) as int)
}

/// The digit for a number below ten.
pub open spec fn digit_char(d: nat) -> char {
    ('0' as int + d) as char
}

/// A number written in decimal, without leading zeroes.
pub open spec fn decimal(n: nat) -> Seq<char>
    decreases n,
{
    if n < 10 {
        seq![digit_char(n)]
    } else {
        decimal(n / 10).push(digit_char(n % 10))
    }
}

/// ASCII text as bytes.
pub open spec fn ascii(s: Seq<char>) -> Seq<u8> {
    Seq::new(s.len(), |i: int| s[i] as u8)
}

/// Bytes as the characters with those numbers.
pub open spec fn latin(s: Seq<u8>) -> Seq<char> {
    Seq::new(s.len(), |i: int| s[i] as char)
}

/// The digits at the front of `s` end at the first place that holds none.
pub proof fn lemma_leading_digits(s: Seq<char>, n: nat)
    requires
        n <= s.len(),
        forall|i: int| 0 <= i < n ==> is_digit(#[trigger] s[i]),
    ensures
        leading_digits(s) >= n,
        leading_digits(s) <= s.len(),
        n < s.len() && !is_digit(s[n as int]) ==> leading_digits(s) == n,
        n == s.len() ==> leading_digits(s) == n,
    decreases s.len(),
{
    if n == 0 {
        lemma_leading_digits_bound(s);
    } else {
        let tail = s.drop_first();
        assert forall|i: int| 0 <= i < n - 1 implies is_digit(#[trigger] tail[i]) by {
            assert(tail[i] == s[i + 1]);
        }
        lemma_leading_digits(tail, (n - 1) as nat);
    }
}

proof fn lemma_leading_digits_bound(s: Seq<char>)
    ensures
        leading_digits(s) <= s.len(),
    decreases s.len(),
{
    if s.len() > 0 {
        lemma_leading_digits_bound(s.drop_first());
    }
}

/// More digits do not make a smaller number.
pub proof fn lemma_value_grows(s: Seq<char>, i: int, j: int)
    requires
        0 <= i <= j <= s.len(),
    ensures
        value(s.take(i)) <= value(s.take(j)),
    decreases j - i,
{
    if i < j {
        lemma_value_grows(s, i, j - 1);
        assert(s.take(j).drop_last() =~= s.take(j - 1));
    }
}

/// A number written in decimal is a row of digits that stands for it.
pub proof fn lemma_decimal(n: nat)
    ensures
        decimal(n).len() > 0,
        forall|i: int| 0 <= i < decimal(n).len() ==> is_digit(#[trigger] decimal(n)[i]),
        value(decimal(n)) == n,
    decreases n,
{
    let last = digit_char(n % 10);
    assert(is_digit(last) && digit(last) == n % 10);
    if n < 10 {
        assert(decimal(n) == seq![last]);
        assert(seq![last].drop_last() =~= Seq::<char>::empty());
        assert(value(Seq::<char>::empty()) == 0);
    } else {
        lemma_decimal(n / 10);
        let head = decimal(n / 10);
        assert(head.push(last).drop_last() =~= head);
    }
}

/// The digits are the ten characters from 0 to 9, and one more digit makes a number ten times as
/// large, and adds itself.
pub proof fn digits_stand_for_numbers(s: Seq<char>, c: char)
    ensures
        is_digit(c) <==> 48 <= c as int <= 57,
        is_digit(c) ==> value(s.push(c)) == value(s) * 10 + (c as int - 48),
        value(Seq::<char>::empty()) == 0,
{
    assert(s.push(c).drop_last() =~= s);
    assert('0' as int == 48 && '9' as int == 57);
}

/// A number in decimal is made of digits, stands for that number, and has no zero in front.
pub proof fn decimal_is_exact(n: nat)
    ensures
        decimal(n).len() > 0,
        value(decimal(n)) == n,
        forall|i: int| 0 <= i < decimal(n).len() ==> 48 <= (#[trigger] decimal(n)[i]) as int <= 57,
        n > 0 ==> decimal(n)[0] as int != 48,
        n == 0 ==> decimal(n).len() == 1,
    decreases n,
{
    lemma_decimal(n);
    if n >= 10 {
        decimal_is_exact(n / 10);
        assert(decimal(n)[0] == decimal(n / 10)[0]);
    } else {
        assert(decimal(n) == seq![digit_char(n)]);
        assert(digit_char(n) as int == 48 + n);
    }
}

/// The digits that a text begins with reach as far as there are digits.
pub proof fn digit_prefix_is_longest(s: Seq<char>)
    ensures
        digit_prefix(s).len() <= s.len(),
        digit_prefix(s) == s.take(digit_prefix(s).len() as int),
        forall|i: int|
            0 <= i < digit_prefix(s).len() ==> 48 <= (#[trigger] digit_prefix(s)[i]) as int <= 57,
        digit_prefix(s).len() < s.len() ==> !(48 <= s[digit_prefix(s).len() as int] as int <= 57),
    decreases s.len(),
{
    lemma_leading_digits_bound(s);
    if s.len() > 0 && is_digit(s[0]) {
        let tail = s.drop_first();
        digit_prefix_is_longest(tail);
        assert forall|i: int| 0 <= i < digit_prefix(s).len() implies 48 <= (
        #[trigger] digit_prefix(s)[i]) as int <= 57 by {
            if i > 0 {
                assert(digit_prefix(s)[i] == digit_prefix(tail)[i - 1]);
            }
        }
        if digit_prefix(s).len() < s.len() {
            assert(s[digit_prefix(s).len() as int] == tail[digit_prefix(tail).len() as int]);
        }
    }
}

/// Bytes and the characters with the same numbers go over into each other.
pub proof fn bytes_are_characters(bytes: Seq<u8>, text: Seq<char>)
    ensures
        latin(bytes).len() == bytes.len(),
        forall|i: int| 0 <= i < bytes.len() ==> (#[trigger] latin(bytes)[i]) as int == bytes[i],
        ascii(text).len() == text.len(),
        forall|i: int|
            0 <= i < text.len() && 0 <= text[i] as int <= 127 ==> #[trigger] ascii(text)[i]
                == text[i] as int,
{
}

} // verus!
