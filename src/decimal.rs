//! Decimal text of integers: writing an integer, and reading an `i32` the way
//! `str::parse::<i32>` does.

use vstd::prelude::*;

verus! {

pub open spec fn digit_char(d: nat) -> char {
    if d == 0 {
        '0'
    } else if d == 1 {
        '1'
    } else if d == 2 {
        '2'
    } else if d == 3 {
        '3'
    } else if d == 4 {
        '4'
    } else if d == 5 {
        '5'
    } else if d == 6 {
        '6'
    } else if d == 7 {
        '7'
    } else if d == 8 {
        '8'
    } else {
        '9'
    }
}

pub open spec fn is_digit(c: char) -> bool {
    48 <= c as u32 <= 57
}

pub open spec fn digit_value(c: char) -> nat {
    (c as u32 - 48) as nat
}

/// The decimal digits of a natural number, without leading zeros.
pub open spec fn digits(n: nat) -> Seq<char>
    decreases n,
{
    if n < 10 {
        seq![digit_char(n)]
    } else {
        digits(n / 10).push(digit_char(n % 10))
    }
}

/// The decimal text of an integer: a minus sign for a negative one.
pub open spec fn decimal(n: int) -> Seq<char> {
    if n < 0 {
        seq!['-'] + digits((-n) as nat)
    } else {
        digits(n as nat)
    }
}

/// The value of a string of decimal digits.
pub open spec fn digits_value(s: Seq<char>) -> nat
    decreases s.len(),
{
    if s.len() == 0 {
        0
    } else {
        digits_value(s.drop_last()) * 10 + digit_value(s.last())
    }
}

pub open spec fn all_digits(s: Seq<char>) -> bool {
    forall|i: int| 0 <= i < s.len() ==> is_digit(#[trigger] s[i])
}

/// What `str::parse::<i32>` reads from a string: an optional sign, then one
/// or more decimal digits, whose value lies within `i32`.
pub open spec fn parse_i32(s: Seq<char>) -> Option<i32> {
    let negative = s.len() > 0 && s[0] == '-';
    let body = if s.len() > 0 && (s[0] == '-' || s[0] == '+') {
        s.drop_first()
    } else {
        s
    };
    let value: int = if negative {
        -digits_value(body)
    } else {
        digits_value(body) as int
    };
    if body.len() > 0 && all_digits(body) && i32::MIN <= value <= i32::MAX {
        Some(value as i32)
    } else {
        None
    }
}

fn digit_str(d: u64) -> (r: &'static str)
    requires
        d < 10,
    ensures
        r@ == seq![digit_char(d as nat)],
{
    proof {
        reveal_strlit("0");
        reveal_strlit("1");
        reveal_strlit("2");
        reveal_strlit("3");
        reveal_strlit("4");
        reveal_strlit("5");
        reveal_strlit("6");
        reveal_strlit("7");
        reveal_strlit("8");
        reveal_strlit("9");
    }
    let r = if d == 0 {
        "0"
    } else if d == 1 {
        "1"
    } else if d == 2 {
        "2"
    } else if d == 3 {
        "3"
    } else if d == 4 {
        "4"
    } else if d == 5 {
        "5"
    } else if d == 6 {
        "6"
    } else if d == 7 {
        "7"
    } else if d == 8 {
        "8"
    } else {
        "9"
    };
    assert(r@ =~= seq![digit_char(d as nat)]);
    r
}

fn push_digits(m: u64, out: &mut String)
    ensures
        final(out)@ == old(out)@ + digits(m as nat),
    decreases m,
{
    if m >= 10 {
        push_digits(m / 10, out);
    }
    out.append(digit_str(m % 10));
    proof {
        if m >= 10 {
            assert(old(out)@ + digits((m / 10) as nat) + seq![digit_char((m % 10) as nat)] =~= old(
                out,
            )@ + digits(m as nat));
        } else {
            assert(old(out)@ + seq![digit_char((m % 10) as nat)] =~= old(out)@ + digits(m as nat));
        }
    }
}

/// The decimal text of a non-negative integer.
pub fn decimal_u64(n: u64) -> (r: String)
    ensures
        r@ == decimal(n as int),
{
    let mut out = String::new();
    push_digits(n, &mut out);
    proof {
        assert(out@ =~= decimal(n as int));
    }
    out
}

/// The decimal text of an integer.
pub fn decimal_string(n: i64) -> (r: String)
    ensures
        r@ == decimal(n as int),
{
    let mut out = String::new();
    if n < 0 {
        out.append("-");
        let m: u64 = (-(n as i128)) as u64;
        push_digits(m, &mut out);
        proof {
            reveal_strlit("-");
            assert(out@ =~= decimal(n as int));
        }
    } else {
        push_digits(n as u64, &mut out);
        proof {
            assert(out@ =~= decimal(n as int));
        }
    }
    out
}

/// The value of a string of digits is at least that of any prefix.
proof fn lemma_digits_value_grows(s: Seq<char>, k: int)
    requires
        0 <= k <= s.len(),
    ensures
        digits_value(s) >= digits_value(s.subrange(0, k)),
    decreases s.len() - k,
{
    if k < s.len() {
        lemma_digits_value_grows(s, k + 1);
        assert(s.subrange(0, k + 1).drop_last() =~= s.subrange(0, k));
        assert(digits_value(s.subrange(0, k + 1)) >= digits_value(s.subrange(0, k)));
    } else {
        assert(s.subrange(0, k) =~= s);
    }
}

/// Reads an `i32` from its decimal text, as `str::parse::<i32>` does.
pub fn parse_i32_text(s: &str) -> (r: Option<i32>)
    ensures
        r == parse_i32(s@),
{
    let n = s.unicode_len();
    if n == 0 {
        return None;
    }
    let first = s.get_char(0);
    let negative = first == '-';
    let start: usize = if first == '-' || first == '+' {
        1
    } else {
        0
    };
    let ghost body = if start == 1 {
        s@.drop_first()
    } else {
        s@
    };
    proof {
        assert(body =~= s@.subrange(start as int, n as int));
    }
    if start >= n {
        return None;
    }
    let mut acc: u64 = 0;
    let mut i: usize = start;
    proof {
        assert(s@.subrange(start as int, start as int) =~= Seq::<char>::empty());
    }
    while i < n
        invariant
            start <= i <= n,
            n == s@.len(),
            n > 0,
            first == s@[0],
            negative == (first == '-'),
            start == (if first == '-' || first == '+' {
                1usize
            } else {
                0usize
            }),
            body == s@.subrange(start as int, n as int),
            all_digits(s@.subrange(start as int, i as int)),
            acc == digits_value(s@.subrange(start as int, i as int)),
            acc <= 2147483648,
        decreases n - i,
    {
        let c = s.get_char(i);
        let code = c as u32;
        if code < 48 || code > 57 {
            proof {
                assert(body[i - start] == c);
                assert(!is_digit(body[i - start]));
                assert(!all_digits(body));
            }
            return None;
        }
        let ghost prefix = s@.subrange(start as int, i as int + 1);
        proof {
            assert(prefix.drop_last() =~= s@.subrange(start as int, i as int));
            assert(prefix.last() == c);
        }
        acc = acc * 10 + (code - 48) as u64;
        if acc > 2147483648 {
            proof {
                assert(acc == digits_value(prefix));
                assert(body.subrange(0, i - start + 1) =~= prefix);
                lemma_digits_value_grows(body, i - start + 1);
                assert(digits_value(body) > 2147483648);
                let v: int = if negative {
                    -digits_value(body)
                } else {
                    digits_value(body) as int
                };
                assert(!(i32::MIN <= v <= i32::MAX));
                let b2 = if s@.len() > 0 && (s@[0] == '-' || s@[0] == '+') {
                    s@.drop_first()
                } else {
                    s@
                };
                assert(b2 =~= body);
                assert(parse_i32(s@) is None);
            }
            return None;
        }
        i = i + 1;
    }
    proof {
        assert(s@.subrange(start as int, n as int) =~= body);
    }
    if negative {
        Some((-(acc as i64)) as i32)
    } else if acc <= 2147483647 {
        Some(acc as i32)
    } else {
        None
    }
}

/// The digits of a number are decimal digits, at least one, and their value
/// is the number.
pub proof fn lemma_digits(m: nat)
    ensures
        digits(m).len() > 0,
        all_digits(digits(m)),
        digits_value(digits(m)) == m,
    decreases m,
{
    if m >= 10 {
        lemma_digits(m / 10);
        let d = digits(m);
        assert(d.drop_last() =~= digits(m / 10));
        assert(digit_value(digit_char(m % 10)) == m % 10);
        assert((m / 10) * 10 + m % 10 == m) by (nonlinear_arith);
        assert(d.last() == digit_char(m % 10));
        assert(digits_value(d) == digits_value(d.drop_last()) * 10 + digit_value(d.last()));
        assert(digits_value(d) == m);
        assert forall|i: int| 0 <= i < d.len() implies is_digit(#[trigger] d[i]) by {
            if i < d.len() - 1 {
                assert(d[i] == digits(m / 10)[i]);
            }
        }
    } else {
        assert(digit_value(digit_char(m)) == m);
        assert(digits(m).drop_last() =~= Seq::<char>::empty());
        assert(digits_value(digits(m)) == digits_value(Seq::<char>::empty()) * 10 + digit_value(digit_char(m)));
        assert(digits_value(digits(m)) == m);
    }
}

/// The decimal text of an `i32` reads back as that `i32`.
pub proof fn lemma_parse_decimal(n: i32)
    ensures
        parse_i32(decimal(n as int)) == Some(n),
{
    let s = decimal(n as int);
    if n < 0 {
        lemma_digits((-n) as nat);
        assert(s[0] == '-');
        assert(s.drop_first() =~= digits((-n) as nat));
    } else {
        lemma_digits(n as nat);
        assert(is_digit(s[0]));
    }
}

} // verus!
