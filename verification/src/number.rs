//! Unsigned numbers as text: reading them in a radix, with a bound, and writing
//! them in decimal.

use vstd::prelude::*;

verus! {

/// The value of `c` as a digit in `radix`: `0`-`9` count from zero, letters of
/// either case from ten. `None` where `c` is no digit or is too large for the
/// radix.
pub open spec fn digit_of(c: char, radix: nat) -> Option<nat> {
    let value: int = if '0' <= c <= '9' {
        c as int - '0' as int
    } else if 'a' <= c <= 'z' {
        c as int - 'a' as int + 10
    } else if 'A' <= c <= 'Z' {
        c as int - 'A' as int + 10
    } else {
        -1
    };
    if 0 <= value < radix {
        Some(value as nat)
    } else {
        None
    }
}

/// Whether every character of `s` is a digit in `radix`.
pub open spec fn all_digits(s: Seq<char>, radix: nat) -> bool {
    forall|i: int| 0 <= i < s.len() ==> (#[trigger] digit_of(s[i], radix)) is Some
}

/// The number that the digits `s` write in `radix`, most significant first.
pub open spec fn digits_value(s: Seq<char>, radix: nat) -> nat
    decreases s.len(),
{
    if s.len() == 0 {
        0
    } else {
        digits_value(s.drop_last(), radix) * radix + digit_of(s.last(), radix).unwrap()
    }
}

/// The digits of `s` once an optional leading `+` is taken off.
pub open spec fn unsigned_digits(s: Seq<char>) -> Seq<char> {
    if s.len() > 0 && s[0] == '+' {
        s.drop_first()
    } else {
        s
    }
}

/// What `s` reads as: an optional `+`, then one digit or more in `radix`,
/// writing a number of at most `max`. Anything else reads as `None`.
pub open spec fn parse_unsigned(s: Seq<char>, radix: nat, max: nat) -> Option<nat> {
    let digits = unsigned_digits(s);
    if digits.len() > 0 && all_digits(digits, radix) && digits_value(digits, radix) <= max {
        Some(digits_value(digits, radix))
    } else {
        None
    }
}

/// The decimal digit for `d`.
pub open spec fn decimal_digit(d: nat) -> char
    recommends
        d < 10,
{
    ('0' as int + d) as char
}

/// `n` written in decimal, without leading zeros.
pub open spec fn decimal(n: nat) -> Seq<char>
    decreases n,
{
    if n < 10 {
        seq![decimal_digit(n)]
    } else {
        decimal(n / 10).push(decimal_digit(n % 10))
    }
}

/// `n` in decimal, with zeros in front where it has fewer than `width` digits.
pub open spec fn zero_padded(n: nat, width: nat) -> Seq<char> {
    let digits = decimal(n);
    if digits.len() < width {
        Seq::new((width - digits.len()) as nat, |i: int| '0') + digits
    } else {
        digits
    }
}

/// Further digits never make a number smaller.
pub proof fn lemma_digits_value_grows(s: Seq<char>, radix: nat, k: int)
    requires
        radix >= 1,
        0 <= k <= s.len(),
    ensures
        digits_value(s.take(k), radix) <= digits_value(s, radix),
    decreases s.len() - k,
{
    if k == s.len() {
        assert(s.take(k) =~= s);
    } else {
        let front = s.drop_last();
        assert(front.take(k) =~= s.take(k));
        lemma_digits_value_grows(front, radix, k);
        let v = digits_value(front, radix);
        assert(v <= v * radix) by (nonlinear_arith)
            requires
                radix >= 1,
                v >= 0,
        ;
    }
}

/// A number written in decimal reads back as itself.
pub proof fn lemma_decimal_reads_back(n: nat)
    ensures
        decimal(n).len() > 0,
        all_digits(decimal(n), 10),
        digits_value(decimal(n), 10) == n,
    decreases n,
{
    if n < 10 {
        let s = decimal(n);
        assert(s.drop_last() =~= Seq::<char>::empty());
        assert(digit_of(s[0], 10) == Some(n));
        assert(digits_value(s.drop_last(), 10) == 0);
    } else {
        let front = decimal(n / 10);
        let s = decimal(n);
        lemma_decimal_reads_back(n / 10);
        assert(s.drop_last() =~= front);
        assert(digit_of(s.last(), 10) == Some(n % 10));
        assert forall|i: int| 0 <= i < s.len() implies (#[trigger] digit_of(s[i], 10)) is Some by {
            if i < front.len() {
                assert(s[i] == front[i]);
            }
        }
    }
}

/// The value of `c` as a digit in `radix`.
pub fn digit_value(c: char, radix: u32) -> (d: Option<u32>)
    requires
        radix <= 36,
    ensures
        d is Some == digit_of(c, radix as nat) is Some,
        d is Some ==> d.unwrap() == digit_of(c, radix as nat).unwrap(),
{
    let code = c as u32;
    let value: u32 = if '0' <= c && c <= '9' {
        code - 48
    } else if 'a' <= c && c <= 'z' {
        code - 97 + 10
    } else if 'A' <= c && c <= 'Z' {
        code - 65 + 10
    } else {
        return None;
    };
    if value < radix {
        Some(value)
    } else {
        None
    }
}

/// Reads the window `from..to` of `chars` as [`parse_unsigned`] does.
pub fn parse_radix(chars: &[char], from: usize, to: usize, radix: u32, max: u64) -> (parsed:
    Option<u64>)
    requires
        from <= to <= chars@.len(),
        2 <= radix <= 36,
    ensures
        parsed is Some == parse_unsigned(
            chars@.subrange(from as int, to as int),
            radix as nat,
            max as nat,
        ) is Some,
        parsed is Some ==> parsed.unwrap() == parse_unsigned(
            chars@.subrange(from as int, to as int),
            radix as nat,
            max as nat,
        ).unwrap(),
{
    let ghost window = chars@.subrange(from as int, to as int);
    let start = if from < to && chars[from] == '+' {
        from + 1
    } else {
        from
    };
    let ghost digits = unsigned_digits(window);
    assert(digits =~= chars@.subrange(start as int, to as int));
    if start == to {
        return None;
    }
    let mut value: u64 = 0;
    let mut at = start;
    while at < to
        invariant
            start <= at <= to <= chars@.len(),
            2 <= radix <= 36,
            from <= start,
            window == chars@.subrange(from as int, to as int),
            digits == unsigned_digits(window),
            digits == chars@.subrange(start as int, to as int),
            all_digits(digits.take(at - start), radix as nat),
            value == digits_value(digits.take(at - start), radix as nat),
            value <= max,
        decreases to - at,
    {
        let ghost seen = digits.take(at - start);
        let ghost next = digits.take(at - start + 1);
        proof {
            assert(next.drop_last() =~= seen);
            assert(next.last() == chars@[at as int]);
        }
        match digit_value(chars[at], radix) {
            None => {
                assert(digit_of(digits[at - start], radix as nat) is None);
                return None;
            },
            Some(d) => {
                assert(value as int * radix as int <= u64::MAX as int * 36) by (nonlinear_arith)
                    requires
                        0 <= value <= u64::MAX,
                        0 <= radix <= 36,
                ;
                let wide: u128 = value as u128 * radix as u128 + d as u128;
                assert(wide == digits_value(next, radix as nat));
                if wide > max as u128 {
                    proof {
                        if all_digits(digits, radix as nat) {
                            lemma_digits_value_grows(digits, radix as nat, at - start + 1);
                        }
                    }
                    return None;
                }
                proof {
                    assert forall|i: int| 0 <= i < next.len() implies (#[trigger] digit_of(
                        next[i],
                        radix as nat,
                    )) is Some by {
                        if i < seen.len() {
                            assert(next[i] == seen[i]);
                        }
                    }
                }
                value = wide as u64;
                at += 1;
            },
        }
    }
    assert(digits.take(at - start) =~= digits);
    Some(value)
}

/// The decimal digit for `d`.
pub fn decimal_digit_char(d: u8) -> (c: char)
    requires
        d < 10,
    ensures
        c == decimal_digit(d as nat),
{
    (48u8 + d) as char
}

/// Appends `n` in decimal to `out`.
pub fn push_decimal(out: &mut String, n: u64)
    ensures
        final(out)@ == old(out)@ + decimal(n as nat),
    decreases n,
{
    if n >= 10 {
        push_decimal(out, n / 10);
    }
    out.push(decimal_digit_char((n % 10) as u8));
    assert(out@ =~= old(out)@ + decimal(n as nat));
}

/// Appends `n` in decimal to `out`, with zeros in front up to `width` digits.
pub fn push_decimal_padded(out: &mut String, n: u64, width: usize)
    ensures
        final(out)@ == old(out)@ + zero_padded(n as nat, width as nat),
{
    let mut digits = String::new();
    push_decimal(&mut digits, n);
    let len = digits.as_str().unicode_len();
    let mut filled: usize = len;
    let ghost start = out@;
    while filled < width
        invariant
            len <= filled,
            len == decimal(n as nat).len(),
            filled <= width || filled == len,
            out@ == start + Seq::new((filled - len) as nat, |i: int| '0'),
        decreases width - filled,
    {
        out.push('0');
        filled += 1;
        assert(out@ =~= start + Seq::new((filled - len) as nat, |i: int| '0'));
    }
    out.append(digits.as_str());
    assert(out@ =~= start + zero_padded(n as nat, width as nat));
}

} // verus!
