//! Decimal digits: reading an unsigned 64-bit counter out of a token and
//! writing a number back out as decimal text.

use vstd::prelude::*;
use vstd::string::*;

verus! {

/// Whether `c` is a decimal digit.
pub open spec fn spec_is_digit(c: char) -> bool {
    48 <= c as u32 <= 57
}

/// The numeric value of the digit `c`.
pub open spec fn digit_val(c: char) -> int {
    c as u32 - 48
}

/// Whether every character of `s` is a decimal digit.
pub open spec fn all_digits(s: Seq<char>) -> bool {
    forall|k: int| 0 <= k < s.len() ==> spec_is_digit(s[k])
}

/// The value of `s` read as a decimal numeral, most significant digit first.
pub open spec fn digits_val(s: Seq<char>) -> int
    decreases s.len(),
{
    if s.len() == 0 {
        0
    } else {
        digits_val(s.drop_last()) * 10 + digit_val(s.last())
    }
}

/// What `str::parse::<u64>` yields on `s`: an optional leading `+`, then at
/// least one digit, and a value that fits in 64 bits; anything else fails.
pub open spec fn spec_parse_u64(s: Seq<char>) -> Option<u64> {
    let body = if s.len() > 0 && s[0] == '+' {
        s.subrange(1, s.len() as int)
    } else {
        s
    };
    if body.len() == 0 || !all_digits(body) || digits_val(body) > u64::MAX {
        None
    } else {
        Some(digits_val(body) as u64)
    }
}

/// Extending a numeral by one digit multiplies its value by ten and adds
/// that digit.
pub proof fn lemma_digits_val_take_succ(s: Seq<char>, j: int)
    requires
        0 <= j < s.len(),
    ensures
        digits_val(s.take(j + 1)) == digits_val(s.take(j)) * 10 + digit_val(s[j]),
{
    assert(s.take(j + 1).drop_last() =~= s.take(j));
    assert(s.take(j + 1).last() == s[j]);
}

/// A prefix of a digit numeral never exceeds the whole numeral's value.
pub proof fn lemma_digits_val_take_le(s: Seq<char>, j: int)
    requires
        all_digits(s),
        0 <= j <= s.len(),
    ensures
        0 <= digits_val(s.take(j)) <= digits_val(s),
    decreases s.len() - j,
{
    lemma_digits_val_nonneg(s.take(j));
    if j < s.len() {
        lemma_digits_val_take_succ(s, j);
        lemma_digits_val_take_le(s, j + 1);
    } else {
        assert(s.take(j) =~= s);
    }
}

pub proof fn lemma_digits_val_nonneg(s: Seq<char>)
    requires
        all_digits(s),
    ensures
        digits_val(s) >= 0,
    decreases s.len(),
{
    if s.len() > 0 {
        assert(all_digits(s.drop_last()));
        lemma_digits_val_nonneg(s.drop_last());
    }
}

/// Reads `s[a..b]` as `str::parse::<u64>` would.
pub fn parse_u64_str(s: &str, a: usize, b: usize) -> (r: Option<u64>)
    requires
        a <= b <= s@.len(),
    ensures
        r == spec_parse_u64(s@.subrange(a as int, b as int)),
{
    let ghost t = s@.subrange(a as int, b as int);
    if a == b {
        return None;
    }
    let first = s.get_char(a);
    proof {
        assert(t.len() == b - a);
        assert(t[0] == s@[a as int]);
        assert(t[0] == first);
    }
    let start: usize = if first == '+' {
        a + 1
    } else {
        a
    };
    let ghost body = s@.subrange(start as int, b as int);
    proof {
        if first == '+' {
            assert(body =~= t.subrange(1, t.len() as int));
        } else {
            assert(body =~= t);
        }
    }
    if start == b {
        return None;
    }
    let mut acc: u64 = 0;
    let mut k: usize = start;
    while k < b
        invariant
            a <= start <= k <= b <= s@.len(),
            body == s@.subrange(start as int, b as int),
            start < b,
            t == s@.subrange(a as int, b as int),
            t.len() > 0,
            t[0] == first,
            body == (if first == '+' {
                t.subrange(1, t.len() as int)
            } else {
                t
            }),
            acc as int == digits_val(body.take(k - start)),
            forall|j: int| 0 <= j < k - start ==> spec_is_digit(body[j]),
        decreases b - k,
    {
        let c = s.get_char(k);
        let cv = c as u32;
        assert(c == body[k - start]);
        if cv < 48 || cv > 57 {
            return None;
        }
        let d = (cv - 48) as u64;
        proof {
            lemma_digits_val_take_succ(body, k - start);
        }
        let m = acc.checked_mul(10);
        let v = if let Some(m0) = m {
            m0.checked_add(d)
        } else {
            None
        };
        if let Some(v0) = v {
            acc = v0;
        } else {
            proof {
                let j = k - start;
                assert(digit_val(body[j]) == d as int);
                assert(acc * 10 + d > u64::MAX);
                assert(digits_val(body.take(j + 1)) > u64::MAX);
                if all_digits(body) {
                    lemma_digits_val_take_le(body, j + 1);
                    assert(digits_val(body) > u64::MAX);
                }
                assert(t.len() > 0 && t[0] == first);
                assert(spec_parse_u64(t) is None);
            }
            return None;
        }
        k = k + 1;
    }
    proof {
        assert(body.take(b - start) =~= body);
    }
    Some(acc)
}

/// The character for the digit value `d`.
pub open spec fn digit_char(d: int) -> char {
    if d == 0 {
        '0'
    } else if d == 1 {
        '1'
    } else if d == 2 {
        '2'
    } else if d == 3 {
        '3'
    } else if d == 4 {
        '4'
    } else if d == 5 {
        '5'
    } else if d == 6 {
        '6'
    } else if d == 7 {
        '7'
    } else if d == 8 {
        '8'
    } else {
        '9'
    }
}

/// The decimal numeral of `n`, most significant digit first, no sign and no
/// leading zeros.
pub open spec fn spec_u64_dec(n: int) -> Seq<char>
    decreases n,
{
    if n < 10 {
        seq![digit_char(n)]
    } else {
        spec_u64_dec(n / 10).push(digit_char(n % 10))
    }
}

/// How many characters a decimal numeral takes: at least one, and at most
/// one per power of ten above the value.
pub proof fn lemma_dec_len(x: int)
    requires
        0 <= x,
    ensures
        spec_u64_dec(x).len() >= 1,
        x < 10 ==> spec_u64_dec(x).len() == 1,
        x < 100 ==> spec_u64_dec(x).len() <= 2,
        x < 1000 ==> spec_u64_dec(x).len() <= 3,
        x < 10000 ==> spec_u64_dec(x).len() <= 4,
        x < 100000 ==> spec_u64_dec(x).len() <= 5,
    decreases x,
{
    if x >= 10 {
        lemma_dec_len(x / 10);
    }
}

/// The one-character string for the digit value `d`.
pub fn digit_str(d: u64) -> (r: &'static str)
    requires
        d < 10,
    ensures
        r@ == seq![digit_char(d as int)],
{
    if d == 0 {
        proof {
            reveal_strlit("0");
            assert("0"@ =~= seq![digit_char(0)]);
        }
        "0"
    } else if d == 1 {
        proof {
            reveal_strlit("1");
            assert("1"@ =~= seq![digit_char(1)]);
        }
        "1"
    } else if d == 2 {
        proof {
            reveal_strlit("2");
            assert("2"@ =~= seq![digit_char(2)]);
        }
        "2"
    } else if d == 3 {
        proof {
            reveal_strlit("3");
            assert("3"@ =~= seq![digit_char(3)]);
        }
        "3"
    } else if d == 4 {
        proof {
            reveal_strlit("4");
            assert("4"@ =~= seq![digit_char(4)]);
        }
        "4"
    } else if d == 5 {
        proof {
            reveal_strlit("5");
            assert("5"@ =~= seq![digit_char(5)]);
        }
        "5"
    } else if d == 6 {
        proof {
            reveal_strlit("6");
            assert("6"@ =~= seq![digit_char(6)]);
        }
        "6"
    } else if d == 7 {
        proof {
            reveal_strlit("7");
            assert("7"@ =~= seq![digit_char(7)]);
        }
        "7"
    } else if d == 8 {
        proof {
            reveal_strlit("8");
            assert("8"@ =~= seq![digit_char(8)]);
        }
        "8"
    } else {
        proof {
            reveal_strlit("9");
            assert("9"@ =~= seq![digit_char(9)]);
        }
        "9"
    }
}

/// Writes `n` in decimal.
pub fn u64_to_dec(n: u64) -> (s: String)
    ensures
        s@ == spec_u64_dec(n as int),
    decreases n,
{
    if n < 10 {
        String::from_str(digit_str(n))
    } else {
        let mut s = u64_to_dec(n / 10);
        s.append(digit_str(n % 10));
        proof {
            assert(s@ =~= spec_u64_dec(n as int));
        }
        s
    }
}

} // verus!
