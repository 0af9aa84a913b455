//! Numbers in decimal: writing them, and reading the first one in a text.
use vstd::prelude::*;

verus! {

/// Whether `c` is a decimal digit of ASCII.
pub open spec fn is_digit(c: char) -> bool {
    '0' <= c <= '9'
}

/// The number that the digit `c` stands for.
pub open spec fn digit_value(c: char) -> nat {
    (c as u32 - '0' as u32) as nat
}

/// The digit that stands for `n`.
pub open spec fn digit(n: nat) -> char {
    ('0' as u32 + n) as char
}

/// `n` written in decimal, without leading zeros.
pub open spec fn decimal(n: nat) -> Seq<char>
    decreases n,
{
    if n < 10 {
        seq![digit(n)]
    } else {
        decimal(n / 10).push(digit(n % 10))
    }
}

/// The number that the digits `s` write.
pub open spec fn decimal_value(s: Seq<char>) -> nat
    decreases s.len(),
{
    if s.len() == 0 {
        0
    } else {
        decimal_value(s.drop_last()) * 10 + digit_value(s.last())
    }
}

/// `s` from its first digit on.
pub open spec fn from_first_digit(s: Seq<char>) -> Seq<char>
    decreases s.len(),
{
    if s.len() > 0 && !is_digit(s.first()) {
        from_first_digit(s.drop_first())
    } else {
        s
    }
}

/// The digits that `s` begins with.
pub open spec fn leading_digits(s: Seq<char>) -> Seq<char>
    decreases s.len(),
{
    if s.len() > 0 && is_digit(s.first()) {
        seq![s.first()] + leading_digits(s.drop_first())
    } else {
        Seq::empty()
    }
}

/// The first run of digits in `s`, read as a number that fits into 64 bits.
pub open spec fn first_u64(s: Seq<char>) -> Option<u64> {
    let digits = leading_digits(from_first_digit(s));
    if digits.len() > 0 && decimal_value(digits) <= u64::MAX {
        Some(decimal_value(digits) as u64)
    } else {
        None
    }
}

/// What is written in decimal reads back as the same number.
pub proof fn decimal_reads_back(n: nat)
    ensures
        decimal_value(decimal(n)) == n,
        forall|i: int| 0 <= i < decimal(n).len() ==> is_digit(#[trigger] decimal(n)[i]),
    decreases n,
{
    if n < 10 {
        let s = seq![digit(n)];
        assert(s.drop_last() =~= Seq::empty());
        assert(decimal_value(s.drop_last()) == 0);
    } else {
        decimal_reads_back(n / 10);
        let s = decimal(n);
        assert(s.drop_last() =~= decimal(n / 10));
    }
}

/// A number that fits into 64 bits is found in a text whose first digits write
/// it.
pub proof fn first_u64_finds_a_written_number(before: Seq<char>, n: u64, after: Seq<char>)
    requires
        forall|i: int| 0 <= i < before.len() ==> !is_digit(#[trigger] before[i]),
        after.len() > 0 ==> !is_digit(after.first()),
    ensures
        first_u64(before + decimal(n as nat) + after) == Some(n),
    decreases before.len(),
{
    let s = before + decimal(n as nat) + after;
    decimal_reads_back(n as nat);
    if before.len() > 0 {
        assert(s.first() == before[0]);
        assert(s.drop_first() =~= before.drop_first() + decimal(n as nat) + after);
        first_u64_finds_a_written_number(before.drop_first(), n, after);
    } else {
        assert(s =~= decimal(n as nat) + after);
        lemma_leading_digits_of(decimal(n as nat), after);
        assert(s.first() == decimal(n as nat)[0]);
    }
}

proof fn lemma_leading_digits_of(digits: Seq<char>, after: Seq<char>)
    requires
        forall|i: int| 0 <= i < digits.len() ==> is_digit(#[trigger] digits[i]),
        after.len() > 0 ==> !is_digit(after.first()),
    ensures
        leading_digits(digits + after) == digits,
    decreases digits.len(),
{
    if digits.len() > 0 {
        let s = digits + after;
        assert(s.first() == digits[0]);
        assert(s.drop_first() =~= digits.drop_first() + after);
        lemma_leading_digits_of(digits.drop_first(), after);
        assert(seq![digits[0]] + digits.drop_first() =~= digits);
    } else {
        assert(digits + after =~= after);
        assert(leading_digits(after) =~= digits);
    }
}

proof fn lemma_prefix_value(s: Seq<char>, k: int)
    requires
        0 <= k <= s.len(),
    ensures
        decimal_value(s.take(k)) <= decimal_value(s),
    decreases s.len(),
{
    if k < s.len() {
        lemma_prefix_value(s.drop_last(), k);
        assert(s.drop_last().take(k) =~= s.take(k));
    } else {
        assert(s.take(k) =~= s);
    }
}

/// Whether `c` is a decimal digit of ASCII.
pub fn ascii_digit(c: char) -> (yes: bool)
    ensures
        yes == is_digit(c),
{
    let n: u32 = c as u32;
    48 <= n && n <= 57
}

/// Puts `n`, in decimal, behind the text in `out`.
pub fn push_decimal(out: &mut String, n: u128)
    ensures
        final(out)@ == old(out)@ + decimal(n as nat),
    decreases n,
{
    if n >= 10 {
        push_decimal(out, n / 10);
    }
    let d: u8 = (n % 10) as u8;
    let c: char = (48 + d) as char;
    out.push(c);
    proof {
        if n < 10 {
            assert(out@ =~= old(out)@ + decimal(n as nat));
        } else {
            assert(out@ =~= old(out)@ + decimal(n as nat / 10).push(digit(n as nat % 10)));
        }
    }
}

/// `n` in decimal.
pub fn decimal_string(n: u128) -> (s: String)
    ensures
        s@ == decimal(n as nat),
{
    let mut s = String::new();
    push_decimal(&mut s, n);
    assert(Seq::<char>::empty() + decimal(n as nat) =~= decimal(n as nat));
    s
}

/// The first run of digits in `chars`, where the number that it writes fits into
/// 64 bits.
pub fn first_u64_of(chars: &[char]) -> (number: Option<u64>)
    ensures
        number == first_u64(chars@),
{
    let mut i: usize = 0;
    assert(chars@.skip(0) =~= chars@);
    while i < chars.len() && !ascii_digit(chars[i])
        invariant
            i <= chars@.len(),
            from_first_digit(chars@) == from_first_digit(chars@.skip(i as int)),
        decreases chars@.len() - i,
    {
        assert(chars@.skip(i as int).drop_first() =~= chars@.skip(i + 1));
        i += 1;
    }
    let ghost digits = leading_digits(chars@.skip(i as int));
    if i == chars.len() {
        assert(chars@.skip(i as int).len() == 0);
        return None;
    }
    assert(chars@.skip(i as int).first() == chars@[i as int]);
    let start: usize = i;
    let mut value: u64 = 0;
    assert(digits.take(0) =~= Seq::empty());
    assert(digits =~= digits.take(0) + digits);
    while i < chars.len() && ascii_digit(chars[i])
        invariant
            start <= i <= chars@.len(),
            digits.len() > 0,
            digits == leading_digits(from_first_digit(chars@)),
            digits.len() >= i - start,
            digits == digits.take(i - start) + leading_digits(chars@.skip(i as int)),
            value == decimal_value(digits.take(i - start)),
        decreases chars@.len() - i,
    {
        let d: u64 = (chars[i] as u32 - 48) as u64;
        proof {
            let rest = chars@.skip(i as int);
            assert(rest.first() == chars@[i as int]);
            assert(rest.drop_first() =~= chars@.skip(i + 1));
            assert(digits.len() >= i + 1 - start);
            assert(digits[i - start] == chars@[i as int]);
            let next = digits.take(i + 1 - start);
            assert(next.drop_last() =~= digits.take(i - start));
            assert(next.last() == chars@[i as int]);
            assert(decimal_value(next) == value * 10 + d);
            lemma_prefix_value(digits, i + 1 - start);
            assert(digits =~= next + leading_digits(chars@.skip(i + 1)));
        }
        match value.checked_mul(10) {
            Some(tens) => match tens.checked_add(d) {
                Some(sum) => {
                    value = sum;
                },
                None => {
                    return None;
                },
            },
            None => {
                return None;
            },
        }
        i += 1;
    }
    proof {
        let rest = chars@.skip(i as int);
        if i < chars@.len() {
            assert(rest.first() == chars@[i as int]);
        }
        assert(digits =~= digits.take(i - start));
    }
    Some(value)
}

/// A number below ten is written by its digit; a larger one by what its tens are
/// written by, and the digit of its ones behind that. So no number but zero
/// begins with a zero.
pub proof fn decimal_is_tens_and_ones(n: nat)
    ensures
        n < 10 ==> decimal(n) == seq!["0123456789"@[n as int]],
        n >= 10 ==> decimal(n) == decimal(n / 10) + decimal(n % 10),
        n > 0 ==> decimal(n)[0] != '0',
        decimal(n).len() > 0,
    decreases n,
{
    reveal_strlit("0123456789");
    if n >= 10 {
        decimal_is_tens_and_ones(n / 10);
        assert(decimal(n % 10) =~= seq![digit(n % 10)]);
        assert(decimal(n) =~= decimal(n / 10) + decimal(n % 10));
    }
}

/// The digits are `0` to `9`, and a text of digits writes ten times the number
/// that the digits before its last one write, and the number of the last one.
pub proof fn digits_write_tens_and_ones(digits: Seq<char>, c: char)
    ensures
        is_digit(c) <==> "0123456789"@.contains(c),
        decimal_value(Seq::empty()) == 0,
        forall|d: int|
            0 <= d < 10 ==> decimal_value(digits.push(#[trigger] "0123456789"@[d])) == 10
                * decimal_value(digits) + d,
{
    reveal_strlit("0123456789");
    let all = "0123456789"@;
    if is_digit(c) {
        assert(all[c as u32 as int - 48] == c);
    }
    assert forall|d: int| 0 <= d < 10 implies decimal_value(digits.push(#[trigger] all[d])) == 10
        * decimal_value(digits) + d by {
        assert(digits.push(all[d]).drop_last() =~= digits);
    }
}

/// The first number in a text is written by the first run of digits in it, all of
/// the run, with zeros before it or not. There is none where there is no digit, or
/// where the number does not fit.
pub proof fn the_first_run_of_digits_is_read(
    before: Seq<char>,
    digits: Seq<char>,
    after: Seq<char>,
)
    requires
        forall|i: int| 0 <= i < before.len() ==> !is_digit(#[trigger] before[i]),
        forall|i: int| 0 <= i < digits.len() ==> is_digit(#[trigger] digits[i]),
        after.len() > 0 ==> digits.len() > 0 && !is_digit(after.first()),
    ensures
        first_u64(before + digits + after) == (if digits.len() > 0 && decimal_value(digits)
            <= 0xffff_ffff_ffff_ffff {
            Some(decimal_value(digits) as u64)
        } else {
            None
        }),
    decreases before.len(),
{
    let s = before + digits + after;
    if before.len() > 0 {
        assert(s.first() == before[0]);
        assert(s.drop_first() =~= before.drop_first() + digits + after);
        the_first_run_of_digits_is_read(before.drop_first(), digits, after);
    } else {
        assert(s =~= digits + after);
        lemma_leading_digits_of(digits, after);
        if digits.len() > 0 {
            assert(s.first() == digits[0]);
        }
    }
}

} // verus!
