//! Whole numbers in decimal notation, as the keys of the stored thread map
//! are written: digits without leading zeros, after a minus sign where the
//! number is negative.
use crate::chars::{chars_to_string, str_chars};
use vstd::prelude::*;

verus! {

/// The character of the digit `d`.
pub open spec fn digit_char(d: int) -> char {
    (('0' as u8) + d) as u8 as char
}

/// `c` is one of `0` to `9`.
pub open spec fn is_digit(c: char) -> bool {
    '0' <= c <= '9'
}

/// The digit that `c` stands for.
pub open spec fn digit_of(c: char) -> int {
    c as u8 - '0' as u8
}

/// The digits of `n`, most significant first.
pub open spec fn decimal_digits(n: nat) -> Seq<char>
    decreases n,
{
    if n < 10 {
        seq![digit_char(n as int)]
    } else {
        decimal_digits(n / 10).push(digit_char((n % 10) as int))
    }
}

/// The decimal notation of `i`.
pub open spec fn decimal(i: int) -> Seq<char> {
    if i < 0 {
        seq!['-'] + decimal_digits((-i) as nat)
    } else {
        decimal_digits(i as nat)
    }
}

/// The number that a run of digits stands for.
pub open spec fn digits_value(s: Seq<char>) -> nat
    decreases s.len(),
{
    if s.len() == 0 {
        0
    } else {
        digits_value(s.drop_last()) * 10 + digit_of(s.last()) as nat
    }
}

/// Every character of `s` is a digit.
pub open spec fn all_digits(s: Seq<char>) -> bool {
    forall|i: int| 0 <= i < s.len() ==> is_digit(#[trigger] s[i])
}

/// The whole number whose decimal notation is `s`, if there is one that
/// fits in 64 bits.
pub open spec fn decimal_value(s: Seq<char>) -> Option<i64> {
    if exists|i: i64| decimal(i as int) == s {
        Some(choose|i: i64| decimal(i as int) == s)
    } else {
        None
    }
}

/// The character of a digit is a digit, stands for that digit, and is no minus sign.
pub proof fn lemma_digit_round_trip(d: int)
    requires
        0 <= d < 10,
    ensures
        is_digit(digit_char(d)),
        digit_of(digit_char(d)) == d,
        digit_char(d) != '-',
{
}

/// The digits of a number are digits, there is at least one, and they stand
/// for the number.
pub proof fn lemma_decimal_digits(n: nat)
    ensures
        decimal_digits(n).len() >= 1,
        all_digits(decimal_digits(n)),
        digits_value(decimal_digits(n)) == n,
    decreases n,
{
    if n < 10 {
        lemma_digit_round_trip(n as int);
        let s = decimal_digits(n);
        assert(s.drop_last() =~= Seq::<char>::empty());
        assert(digits_value(s.drop_last()) == 0);
    } else {
        lemma_decimal_digits(n / 10);
        lemma_digit_round_trip((n % 10) as int);
        let front = decimal_digits(n / 10);
        let s = decimal_digits(n);
        assert(s.drop_last() =~= front);
        assert forall|i: int| 0 <= i < s.len() implies is_digit(#[trigger] s[i]) by {
            if i < front.len() {
                assert(is_digit(front[i]));
            }
        }
    }
}

/// Two numbers with the same decimal notation are the same number.
pub proof fn lemma_decimal_injective(i: int, j: int)
    requires
        decimal(i) == decimal(j),
    ensures
        i == j,
{
    lemma_decimal_digits((if i < 0 { -i } else { i }) as nat);
    lemma_decimal_digits((if j < 0 { -j } else { j }) as nat);
    let a = decimal(i);
    let b = decimal(j);
    if i < 0 {
        assert(a[0] == '-');
        if j >= 0 {
            assert(is_digit(decimal_digits(j as nat)[0]));
        } else {
            assert(decimal_digits((-i) as nat) =~= a.subrange(1, a.len() as int));
            assert(decimal_digits((-j) as nat) =~= b.subrange(1, b.len() as int));
        }
    } else {
        if j < 0 {
            assert(b[0] == '-');
            assert(is_digit(decimal_digits(i as nat)[0]));
        }
    }
}

/// Reading back what was written: the decimal notation of a number stands
/// for that number.
pub proof fn law_decimal_round_trip(i: i64)
    ensures
        decimal_value(decimal(i as int)) == Some(i),
{
    let s = decimal(i as int);
    assert(exists|k: i64| decimal(k as int) == s) by {
        assert(decimal(i as int) == s);
    }
    let k = choose|k: i64| decimal(k as int) == s;
    lemma_decimal_injective(k as int, i as int);
}

/// The value of a run of digits does not shrink as digits are added.
pub proof fn lemma_digits_value_grows(s: Seq<char>, k: int)
    requires
        0 <= k <= s.len(),
        all_digits(s),
    ensures
        digits_value(s.take(k)) <= digits_value(s),
    decreases s.len() - k,
{
    if k < s.len() {
        let longer = s.take(k + 1);
        assert(longer.drop_last() =~= s.take(k));
        assert(is_digit(s[k]));
        assert(longer.last() == s[k]);
        assert(digits_value(longer) >= digits_value(s.take(k))) by (nonlinear_arith)
            requires
                digits_value(longer) == digits_value(s.take(k)) * 10 + digit_of(s[k]) as nat,
                digit_of(s[k]) >= 0,
        ;
        lemma_digits_value_grows(s, k + 1);
    } else {
        assert(s.take(k) =~= s);
    }
}

fn digit(d: u8) -> (c: char)
    requires
        d < 10,
    ensures
        c == digit_char(d as int),
{
    (48u8 + d) as char
}

fn push_digits(out: &mut Vec<char>, m: u64)
    ensures
        final(out)@ == old(out)@ + decimal_digits(m as nat),
    decreases m,
{
    if m >= 10 {
        push_digits(out, m / 10);
        out.push(digit((m % 10) as u8));
        assert(final(out)@ =~= old(out)@ + decimal_digits(m as nat));
    } else {
        out.push(digit(m as u8));
        assert(final(out)@ =~= old(out)@ + decimal_digits(m as nat));
    }
}

/// The decimal notation of `n`.
pub fn i64_to_decimal(n: i64) -> (r: String)
    ensures
        r@ == decimal(n as int),
{
    let mut out: Vec<char> = Vec::new();
    if n < 0 {
        out.push('-');
        let m: u64 = if n == i64::MIN {
            9223372036854775808u64
        } else {
            (-n) as u64
        };
        push_digits(&mut out, m);
        assert(out@ =~= decimal(n as int));
    } else {
        push_digits(&mut out, n as u64);
        assert(out@ =~= decimal(n as int));
    }
    assert(out@.subrange(0, out.len() as int) =~= out@);
    chars_to_string(&out, 0, out.len())
}

/// The whole number whose decimal notation is `s`.
pub fn parse_decimal_i64(s: &str) -> (r: Option<i64>)
    ensures
        r == decimal_value(s@),
{
    let v = str_chars(s);
    let ghost text = v@;
    if v.len() == 0 {
        proof {
            assert forall|j: i64| decimal(j as int) != text by {
                lemma_decimal_digits((if j < 0 { -j } else { j as int }) as nat);
            }
        }
        return None;
    }
    let negative = v[0] == '-';
    let start: usize = if negative {
        1
    } else {
        0
    };
    let ghost digits = text.subrange(start as int, text.len() as int);
    let limit: u64 = 9223372036854775808u64;
    let mut acc: u64 = 0;
    let mut i: usize = start;
    assert(digits.take(0) =~= Seq::<char>::empty());
    while i < v.len()
        invariant
            start <= i <= v.len(),
            text == v@,
            text == s@,
            text.len() > 0,
            negative == (text[0] == '-'),
            start == if negative {
                1int
            } else {
                0int
            },
            digits == text.subrange(start as int, text.len() as int),
            acc == digits_value(digits.take(i - start)),
            acc <= limit,
            limit == 9223372036854775808u64,
            all_digits(digits.take(i - start)),
        decreases v.len() - i,
    {
        let c = v[i];
        let ghost shorter = digits.take(i - start);
        let ghost longer = digits.take(i - start + 1);
        proof {
            assert(longer.drop_last() =~= shorter);
            assert(longer.last() == c);
        }
        if !('0' <= c && c <= '9') {
            proof {
                assert forall|j: i64| decimal(j as int) != text by {
                    lemma_not_decimal_with_stray(text, negative, start as int, i as int, j);
                }
            }
            return None;
        }
        let d: u64 = (c as u8 - 48u8) as u64;
        if acc > (limit - d) / 10 {
            proof {
                assert(digits_value(longer) > limit) by (nonlinear_arith)
                    requires
                        digits_value(longer) == acc * 10 + d,
                        acc > (limit - d) / 10,
                        0 <= d < 10,
                        limit == 9223372036854775808u64,
                ;
                assert forall|j: i64| decimal(j as int) != text by {
                    lemma_not_decimal_too_large(text, negative, start as int, i + 1, j);
                }
            }
            return None;
        }
        assert(acc * 10 + d <= limit) by (nonlinear_arith)
            requires
                acc <= (limit - d) / 10,
                0 <= d < 10,
                limit == 9223372036854775808u64,
        ;
        acc = acc * 10 + d;
        proof {
            assert forall|t: int| 0 <= t < longer.len() implies is_digit(#[trigger] longer[t]) by {
                if t < shorter.len() {
                    assert(is_digit(shorter[t]));
                }
            }
        }
        i += 1;
    }
    proof {
        assert(digits.take(v.len() - start) =~= digits);
    }
    if !negative && acc == limit {
        proof {
            assert forall|j: i64| decimal(j as int) != text by {
                lemma_value_of_decimal(text, negative, start as int, j);
            }
        }
        return None;
    }
    let candidate: i64 = if negative {
        if acc == limit {
            i64::MIN
        } else {
            -(acc as i64)
        }
    } else {
        acc as i64
    };
    let written = i64_to_decimal(candidate);
    if crate::chars::str_same(written.as_str(), s) {
        proof {
            law_decimal_round_trip(candidate);
        }
        Some(candidate)
    } else {
        proof {
            assert forall|j: i64| decimal(j as int) != text by {
                lemma_value_of_decimal(text, negative, start as int, j);
            }
        }
        None
    }
}

/// The digits of the decimal notation of `j`, and where they start.
proof fn lemma_shape_of_decimal(j: i64)
    ensures
        ({
            let s = decimal(j as int);
            let start: int = if j < 0 {
                1
            } else {
                0
            };
            let magnitude = (if j < 0 {
                -(j as int)
            } else {
                j as int
            }) as nat;
            &&& s.len() > start
            &&& (s[0] == '-') == (j < 0)
            &&& s.subrange(start, s.len() as int) == decimal_digits(magnitude)
            &&& all_digits(decimal_digits(magnitude))
            &&& digits_value(decimal_digits(magnitude)) == magnitude
        }),
{
    let magnitude = (if j < 0 {
        -(j as int)
    } else {
        j as int
    }) as nat;
    lemma_decimal_digits(magnitude);
    let s = decimal(j as int);
    if j < 0 {
        assert(s.subrange(1, s.len() as int) =~= decimal_digits(magnitude));
    } else {
        assert(s.subrange(0, s.len() as int) =~= decimal_digits(magnitude));
        assert(is_digit(decimal_digits(magnitude)[0]));
    }
}

/// A text with a character that is no digit after its sign is no decimal
/// notation.
proof fn lemma_not_decimal_with_stray(text: Seq<char>, negative: bool, start: int, i: int, j: i64)
    requires
        text.len() > 0,
        negative == (text[0] == '-'),
        start == if negative {
            1int
        } else {
            0int
        },
        start <= i < text.len(),
        !is_digit(text[i]),
    ensures
        decimal(j as int) != text,
{
    lemma_shape_of_decimal(j);
    if decimal(j as int) == text {
        let digits = text.subrange(start, text.len() as int);
        assert(is_digit(digits[i - start]));
    }
}

/// A text whose digits stand for more than 2^63 is no decimal notation of a
/// number of 64 bits.
proof fn lemma_not_decimal_too_large(text: Seq<char>, negative: bool, start: int, k: int, j: i64)
    requires
        text.len() > 0,
        negative == (text[0] == '-'),
        start == if negative {
            1int
        } else {
            0int
        },
        start <= k <= text.len(),
        digits_value(text.subrange(start, text.len() as int).take(k - start))
            > 9223372036854775808,
    ensures
        decimal(j as int) != text,
{
    lemma_shape_of_decimal(j);
    if decimal(j as int) == text {
        let digits = text.subrange(start, text.len() as int);
        lemma_digits_value_grows(digits, k - start);
    }
}

/// If `text` is the decimal notation of `j`, its digits stand for the
/// magnitude of `j` and its sign is that of `j`.
proof fn lemma_value_of_decimal(text: Seq<char>, negative: bool, start: int, j: i64)
    requires
        text.len() > 0,
        negative == (text[0] == '-'),
        start == if negative {
            1int
        } else {
            0int
        },
    ensures
        decimal(j as int) == text ==> {
            &&& negative == (j < 0)
            &&& digits_value(text.subrange(start, text.len() as int)) == if j < 0 {
                -(j as int)
            } else {
                j as int
            }
        },
{
    lemma_shape_of_decimal(j);
}

} // verus!
