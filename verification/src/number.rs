//! Whole numbers as text: writing them in a radix, and reading them back.

use vstd::prelude::*;

use crate::text::{ascii_lower, chars, is_space, is_word, lemma_lowered, lowered};

verus! {

/// The digit that stands for `d`: `0` to `9`, then `a` to `z`.
pub open spec fn digit_char(d: nat) -> char {
    if d < 10 {
        ('0' as nat + d) as char
    } else {
        ('a' as nat + d - 10) as char
    }
}

/// `n` written in a radix, without leading zeros.
pub open spec fn numeral(n: nat, radix: nat) -> Seq<char>
    decreases n,
{
    if n < radix || radix < 2 {
        seq![digit_char(n)]
    } else {
        proof {
            assert(n / radix < n) by (nonlinear_arith)
                requires
                    n >= radix >= 2,
            ;
        }
        numeral(n / radix, radix).push(digit_char(n % radix))
    }
}

/// `n` in decimal.
pub open spec fn decimal(n: nat) -> Seq<char> {
    numeral(n, 10)
}

/// An integer in decimal, with a minus sign if it is negative.
pub open spec fn signed_decimal(n: int) -> Seq<char> {
    if n < 0 {
        seq!['-'] + decimal((-n) as nat)
    } else {
        decimal(n as nat)
    }
}

/// What a digit is worth, letters counting from ten in either case.
pub open spec fn digit_worth(c: char) -> nat {
    if '0' <= c <= '9' {
        (c as nat - '0' as nat) as nat
    } else if 'a' <= c <= 'z' {
        (c as nat - 'a' as nat + 10) as nat
    } else if 'A' <= c <= 'Z' {
        (c as nat - 'A' as nat + 10) as nat
    } else {
        36
    }
}

/// Whether every character is a digit of the radix.
pub open spec fn all_digits(s: Seq<char>, radix: nat) -> bool {
    forall|i: int| 0 <= i < s.len() ==> digit_worth(#[trigger] s[i]) < radix
}

/// The number that a sequence of digits denotes.
pub open spec fn digits_value(s: Seq<char>, radix: nat) -> nat
    decreases s.len(),
{
    if s.len() == 0 {
        0
    } else {
        digits_value(s.drop_last(), radix) * radix + digit_worth(s.last())
    }
}

/// The number that a text denotes: one or more digits, possibly after a plus sign,
/// that come to `max` at most.
pub open spec fn number_of(s: Seq<char>, radix: nat, max: nat) -> Option<nat> {
    let digits = if s.len() > 0 && s[0] == '+' {
        s.skip(1)
    } else {
        s
    };
    if digits.len() > 0 && all_digits(digits, radix) && digits_value(digits, radix) <= max {
        Some(digits_value(digits, radix))
    } else {
        None
    }
}

fn digit(d: u64) -> (c: char)
    requires
        d < 36,
    ensures
        c == digit_char(d as nat),
{
    if d < 10 {
        (48 + d as u8) as char
    } else {
        (87 + d as u8) as char
    }
}

/// Appends `n`, written in the radix.
pub fn push_numeral(out: &mut String, n: u64, radix: u64)
    requires
        2 <= radix <= 36,
    ensures
        final(out)@ == old(out)@ + numeral(n as nat, radix as nat),
    decreases n,
{
    if n >= radix {
        assert(n / radix < n) by (nonlinear_arith)
            requires
                n >= radix >= 2,
        ;
        push_numeral(out, n / radix, radix);
    }
    assert(n % radix < radix) by (nonlinear_arith)
        requires
            radix >= 2,
    ;
    let ghost before = out@;
    if n >= radix {
        out.push(digit(n % radix));
        assert(out@ =~= old(out)@ + numeral(n as nat, radix as nat));
    } else {
        out.push(digit(n));
        assert(out@ =~= old(out)@ + numeral(n as nat, radix as nat));
    }
}

/// Appends `n` in decimal.
pub fn push_decimal(out: &mut String, n: u64)
    ensures
        final(out)@ == old(out)@ + decimal(n as nat),
{
    push_numeral(out, n, 10);
}

/// Appends `n` in decimal, with a minus sign if it is negative.
pub fn push_signed(out: &mut String, n: i64)
    ensures
        final(out)@ == old(out)@ + signed_decimal(n as int),
{
    if n < 0 {
        out.push('-');
        let m: u64 = if n == i64::MIN {
            0x8000_0000_0000_0000
        } else {
            (-n) as u64
        };
        push_decimal(out, m);
        assert(out@ =~= old(out)@ + signed_decimal(n as int));
    } else {
        push_decimal(out, n as u64);
    }
}

/// `n` in decimal.
pub fn decimal_text(n: u64) -> (out: String)
    ensures
        out@ == decimal(n as nat),
{
    let mut out: String = String::new();
    push_decimal(&mut out, n);
    assert(out@ =~= decimal(n as nat));
    out
}

fn worth(c: char) -> (w: u64)
    ensures
        w == digit_worth(c),
{
    if '0' <= c && c <= '9' {
        (c as u64) - 48
    } else if 'a' <= c && c <= 'z' {
        (c as u64) - 87
    } else if 'A' <= c && c <= 'Z' {
        (c as u64) - 55
    } else {
        36
    }
}

proof fn lemma_value_grows(s: Seq<char>, radix: nat, k: int)
    requires
        0 <= k <= s.len(),
        radix >= 1,
    ensures
        digits_value(s.take(k), radix) <= digits_value(s, radix),
    decreases s.len() - k,
{
    if k < s.len() {
        assert(s.take(k + 1).drop_last() =~= s.take(k));
        let v = digits_value(s.take(k), radix);
        assert(v * radix >= v) by (nonlinear_arith)
            requires
                radix >= 1,
        ;
        lemma_value_grows(s, radix, k + 1);
    } else {
        assert(s.take(k) =~= s);
    }
}

/// Reads a number of at most `max` in the radix.
pub fn parse_number(s: &str, radix: u64, max: u64) -> (n: Option<u64>)
    requires
        2 <= radix <= 36,
    ensures
        match n {
            Some(n) => number_of(s@, radix as nat, max as nat) == Some(n as nat),
            None => number_of(s@, radix as nat, max as nat) is None,
        },
{
    let v = chars(s);
    let from: usize = if v.len() > 0 && v[0] == '+' {
        1
    } else {
        0
    };
    let ghost body = v@.skip(from as int);
    assert(from == 0 ==> body =~= v@);
    if from == v.len() {
        return None;
    }
    let mut acc: u64 = 0;
    let mut i: usize = from;
    assert(body.take(0) =~= Seq::empty());
    while i < v.len()
        invariant
            from <= i <= v.len(),
            from < v.len(),
            2 <= radix <= 36,
            v@ == s@,
            body == v@.skip(from as int),
            body == (if s@.len() > 0 && s@[0] == '+' {
                s@.skip(1)
            } else {
                s@
            }),
            acc == digits_value(body.take(i - from), radix as nat),
            acc <= max,
            forall|k: int| 0 <= k < i - from ==> digit_worth(#[trigger] body[k]) < radix,
        decreases v.len() - i,
    {
        let w: u64 = worth(v[i]);
        assert(body[i - from] == v@[i as int]);
        if w >= radix {
            return None;
        }
        assert(body.take(i + 1 - from).drop_last() =~= body.take(i - from));
        assert((acc as int) * (radix as int) <= 0xffff_ffff_ffff_ffff * 36) by (nonlinear_arith)
            requires
                acc <= 0xffff_ffff_ffff_ffff,
                radix <= 36,
                0 <= acc,
                0 <= radix,
        ;
        let next: u128 = (acc as u128) * (radix as u128) + (w as u128);
        assert(next == digits_value(body.take(i + 1 - from), radix as nat));
        if next > max as u128 {
            proof {
                lemma_value_grows(body, radix as nat, i + 1 - from);
            }
            return None;
        }
        acc = next as u64;
        i = i + 1;
    }
    assert(body.take(i - from) =~= body);
    Some(acc)
}

/// Reads a `u64` in decimal.
pub fn parse_u64(s: &str) -> (n: Option<u64>)
    ensures
        match n {
            Some(n) => number_of(s@, 10, u64::MAX as nat) == Some(n as nat),
            None => number_of(s@, 10, u64::MAX as nat) is None,
        },
{
    parse_number(s, 10, u64::MAX)
}

/// Reads a `u32` in decimal.
pub fn parse_u32(s: &str) -> (n: Option<u32>)
    ensures
        match n {
            Some(n) => number_of(s@, 10, u32::MAX as nat) == Some(n as nat),
            None => number_of(s@, 10, u32::MAX as nat) is None,
        },
{
    match parse_number(s, 10, u32::MAX as u64) {
        Some(n) => Some(n as u32),
        None => None,
    }
}

/// Every character of a numeral is a digit of its radix, and the digits denote the number.
pub proof fn lemma_numeral_value(n: nat, radix: nat)
    requires
        2 <= radix <= 36,
    ensures
        numeral(n, radix).len() > 0,
        all_digits(numeral(n, radix), radix),
        digits_value(numeral(n, radix), radix) == n,
    decreases n,
{
    let s = numeral(n, radix);
    if n < radix {
        assert(digit_worth(digit_char(n)) == n);
        assert(s.drop_last() =~= Seq::empty());
        assert(digits_value(s.drop_last(), radix) == 0);
        assert(0 * radix == 0) by (nonlinear_arith);
    } else {
        assert(n / radix < n && n % radix < radix && (n / radix) * radix + n % radix == n)
            by (nonlinear_arith)
            requires
                n >= radix >= 2,
        ;
        lemma_numeral_value(n / radix, radix);
        assert(digit_worth(digit_char(n % radix)) == n % radix);
        assert(s.drop_last() =~= numeral(n / radix, radix));
        assert forall|i: int| 0 <= i < s.len() implies digit_worth(#[trigger] s[i]) < radix by {
            if i < s.len() - 1 {
                assert(s[i] == numeral(n / radix, radix)[i]);
            }
        }
    }
}

/// A number written in decimal reads back as that number.
pub proof fn lemma_decimal_reads_back(n: nat, max: nat)
    requires
        n <= max,
    ensures
        number_of(decimal(n), 10, max) == Some(n),
{
    lemma_numeral_value(n, 10);
    assert(digit_worth(decimal(n)[0]) < 10);
}

/// A number written in decimal is one word.
pub proof fn lemma_decimal_is_word(n: nat)
    ensures
        is_word(decimal(n)),
{
    lemma_numeral_value(n, 10);
    assert forall|i: int| 0 <= i < decimal(n).len() implies !is_space(
        #[trigger] decimal(n)[i],
    ) by {
        assert(digit_worth(decimal(n)[i]) < 10);
    }
}

/// Whether a number can be read does not depend on the case of its digits.
pub proof fn lemma_number_ignores_case(s: Seq<char>, radix: nat, max: nat)
    ensures
        number_of(lowered(s), radix, max) == number_of(s, radix, max),
{
    let digits = if s.len() > 0 && s[0] == '+' {
        s.skip(1)
    } else {
        s
    };
    lemma_lowered(s);
    lemma_digits_lowered(digits, radix);
    if s.len() > 0 {
        if s[0] == '+' {
            assert(lowered(s)[0] == '+');
            assert(lowered(s).skip(1) =~= lowered(s.skip(1)));
        } else {
            assert(lowered(s)[0] == ascii_lower(s[0]));
            assert(lowered(s)[0] != '+');
        }
    }
}

proof fn lemma_digits_lowered(s: Seq<char>, radix: nat)
    ensures
        all_digits(lowered(s), radix) == all_digits(s, radix),
        digits_value(lowered(s), radix) == digits_value(s, radix),
        lowered(s).len() == s.len(),
    decreases s.len(),
{
    assert forall|i: int| 0 <= i < s.len() implies digit_worth(#[trigger] lowered(s)[i])
        == digit_worth(s[i]) by {
        assert(lowered(s)[i] == ascii_lower(s[i]));
    }
    if all_digits(lowered(s), radix) {
        assert forall|i: int| 0 <= i < s.len() implies digit_worth(#[trigger] s[i]) < radix by {
            assert(digit_worth(lowered(s)[i]) < radix);
        }
    }
    if s.len() > 0 {
        lemma_digits_lowered(s.drop_last(), radix);
        assert(lowered(s).drop_last() =~= lowered(s.drop_last()));
        assert(digit_worth(lowered(s)[s.len() - 1]) == digit_worth(s[s.len() - 1]));
    }
}

/// A number that is written in a radix is read exactly if it is not too large, also behind
/// a plus sign or a zero.
pub proof fn lemma_numeral_is_read(n: nat, radix: nat, max: nat)
    requires
        2 <= radix <= 36,
    ensures
        number_of(numeral(n, radix), radix, max) == if n <= max {
            Some(n)
        } else {
            None
        },
        number_of(seq!['+'] + numeral(n, radix), radix, max) == number_of(
            numeral(n, radix),
            radix,
            max,
        ),
        number_of(seq!['0'] + numeral(n, radix), radix, max) == number_of(
            numeral(n, radix),
            radix,
            max,
        ),
{
    let s = numeral(n, radix);
    lemma_numeral_value(n, radix);
    assert(digit_worth(s[0]) < radix);
    let signed = seq!['+'] + s;
    assert(signed.skip(1) =~= s);
    let padded = seq!['0'] + s;
    lemma_leading_zero(s, radix);
    assert forall|i: int| 0 <= i < padded.len() implies digit_worth(#[trigger] padded[i])
        < radix by {
        if i > 0 {
            assert(padded[i] == s[i - 1]);
        }
    }
}

proof fn lemma_leading_zero(s: Seq<char>, radix: nat)
    ensures
        digits_value(seq!['0'] + s, radix) == digits_value(s, radix),
    decreases s.len(),
{
    let padded = seq!['0'] + s;
    if s.len() == 0 {
        assert(padded.drop_last() =~= Seq::empty());
        assert(padded.last() == '0');
        assert(digits_value(Seq::<char>::empty(), radix) == 0);
        assert(0 * radix == 0) by (nonlinear_arith);
    } else {
        assert(padded.drop_last() =~= seq!['0'] + s.drop_last());
        assert(padded.last() == s.last());
        lemma_leading_zero(s.drop_last(), radix);
    }
}

/// What holds anything but digits behind an optional plus sign is no number, nor is an
/// empty text; every number that is read is within the bound.
pub proof fn lemma_only_digits_are_a_number(s: Seq<char>, radix: nat, max: nat, i: int)
    requires
        radix <= 36,
    ensures
        number_of(s, radix, max) matches Some(n) ==> n <= max,
        s.len() == 0 ==> number_of(s, radix, max) is None,
        0 <= i < s.len() && digit_worth(s[i]) >= radix && !(i == 0 && s[i] == '+') ==> number_of(
            s,
            radix,
            max,
        ) is None,
{
    if 0 <= i < s.len() && s[0] == '+' && i > 0 {
        assert(s.skip(1)[i - 1] == s[i]);
    }
}

/// The digits up to nine are worth what they say, and the letters from `a` on go on from
/// ten, in either case; nothing else is a digit.
pub proof fn lemma_digits_are_worth(c: char)
    ensures
        digit_worth('0') == 0 && digit_worth('1') == 1 && digit_worth('9') == 9,
        digit_worth('a') == 10 && digit_worth('f') == 15 && digit_worth('F') == 15,
        digit_worth(ascii_lower(c)) == digit_worth(c),
        digit_worth(c) < 36 <==> '0' <= c <= '9' || 'a' <= c <= 'z' || 'A' <= c <= 'Z',
{
}

/// A numeral has small letters as digits, and no zero at its front but that of zero itself.
pub proof fn lemma_numeral_is_canonical(n: nat, radix: nat)
    requires
        2 <= radix <= 36,
    ensures
        numeral(n, radix).len() > 0,
        n > 0 ==> numeral(n, radix)[0] != '0',
        numeral(0, radix) == seq!['0'],
        forall|i: int|
            0 <= i < numeral(n, radix).len() ==> {
                let c = #[trigger] numeral(n, radix)[i];
                '0' <= c <= '9' || 'a' <= c <= 'z'
            },
    decreases n,
{
    let s = numeral(n, radix);
    assert(numeral(0, radix) == seq!['0']);
    if n >= radix {
        assert(0 < n / radix < n && n % radix < radix) by (nonlinear_arith)
            requires
                n >= radix >= 2,
        ;
        lemma_numeral_is_canonical(n / radix, radix);
        assert(s == numeral(n / radix, radix).push(digit_char(n % radix)));
        assert(s[0] == numeral(n / radix, radix)[0]);
        assert forall|i: int| 0 <= i < s.len() implies {
            let c = #[trigger] s[i];
            '0' <= c <= '9' || 'a' <= c <= 'z'
        } by {
            if i < s.len() - 1 {
                assert(s[i] == numeral(n / radix, radix)[i]);
            }
        }
    }
}

} // verus!
