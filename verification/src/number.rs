//! Decimal numerals.

use vstd::prelude::*;

use crate::text::{cat, char_is_digit, chars_of, is_digit};

verus! {

pub open spec fn digit_char(d: nat) -> char
    recommends
        d < 10,
{
    ('0' as u32 + d) as char
}

pub open spec fn digit_value(c: char) -> nat
    recommends
        is_digit(c),
{
    (c as u32 - '0' as u32) as nat
}

/// The decimal numeral of a number, without leading zeros.
pub open spec fn numeral(n: nat) -> Seq<char>
    decreases n,
{
    if n < 10 {
        seq![digit_char(n)]
    } else {
        numeral(n / 10).push(digit_char(n % 10))
    }
}

/// The decimal numeral of an integer, with `-` in front of a negative one.
pub open spec fn signed_numeral(n: int) -> Seq<char> {
    if n < 0 {
        seq!['-'] + numeral((-n) as nat)
    } else {
        numeral(n as nat)
    }
}

/// One or more decimal digits and nothing else.
pub open spec fn all_digits(s: Seq<char>) -> bool {
    s.len() > 0 && forall|i: int| 0 <= i < s.len() ==> is_digit(#[trigger] s[i])
}

/// The number that a row of digits stands for.
pub open spec fn number_of(s: Seq<char>) -> nat
    decreases s.len(),
{
    if s.len() == 0 {
        0
    } else {
        number_of(s.drop_last()) * 10 + digit_value(s.last())
    }
}

/// The integer that a numeral with an optional sign stands for.
pub open spec fn integer_of(s: Seq<char>) -> Option<int> {
    if s.len() > 0 && (s[0] == '-' || s[0] == '+') {
        let rest = s.skip(1);
        if all_digits(rest) {
            Some(
                if s[0] == '-' {
                    -(number_of(rest) as int)
                } else {
                    number_of(rest) as int
                },
            )
        } else {
            None
        }
    } else if all_digits(s) {
        Some(number_of(s) as int)
    } else {
        None
    }
}

/// Reading a numeral gives the number back.
pub proof fn numeral_reads_back(n: nat)
    ensures
        all_digits(numeral(n)),
        number_of(numeral(n)) == n,
    decreases n,
{
    if n < 10 {
        let s = numeral(n);
        assert(s.drop_last() =~= Seq::<char>::empty());
        assert(number_of(s.drop_last()) == 0);
    } else {
        numeral_reads_back(n / 10);
        let s = numeral(n);
        assert(s.drop_last() =~= numeral(n / 10));
    }
}

/// Reading a signed numeral gives the integer back.
pub proof fn signed_numeral_reads_back(n: int)
    ensures
        integer_of(signed_numeral(n)) == Some(n),
{
    let s = signed_numeral(n);
    if n < 0 {
        numeral_reads_back((-n) as nat);
        assert(s.skip(1) =~= numeral((-n) as nat));
    } else {
        numeral_reads_back(n as nat);
        assert(is_digit(s[0]));
    }
}

proof fn lemma_number_of_grows(s: Seq<char>, i: int)
    requires
        0 <= i <= s.len(),
    ensures
        number_of(s.take(i)) <= number_of(s),
    decreases s.len() - i,
{
    if i < s.len() {
        lemma_number_of_grows(s, i + 1);
        assert(s.take(i + 1).drop_last() == s.take(i));
    } else {
        assert(s.take(i) == s);
    }
}

pub fn decimal(n: u64) -> (r: String)
    ensures
        r@ == numeral(n as nat),
    decreases n,
{
    if n < 10 {
        let mut r = String::new();
        r.push((48u8 + n as u8) as char);
        r
    } else {
        let mut r = decimal(n / 10);
        r.push((48u8 + (n % 10) as u8) as char);
        r
    }
}

pub fn decimal_usize(n: usize) -> (r: String)
    ensures
        r@ == numeral(n as nat),
{
    decimal(n as u64)
}

pub fn decimal_i64(n: i64) -> (r: String)
    ensures
        r@ == signed_numeral(n as int),
{
    if n < 0 {
        let m: u64 = if n == i64::MIN {
            0x8000_0000_0000_0000u64
        } else {
            (-n) as u64
        };
        proof {
            reveal_strlit("-");
            assert("-"@ =~= seq!['-']);
        }
        cat("-", decimal(m).as_str())
    } else {
        decimal(n as u64)
    }
}

/// The value of a row of digits, where it is one and fits.
pub fn parse_digits(v: &Vec<char>, from: usize) -> (r: Option<u64>)
    requires
        from <= v@.len(),
    ensures
        match r {
            Some(n) => all_digits(v@.skip(from as int)) && n == number_of(v@.skip(from as int)),
            None => !all_digits(v@.skip(from as int)) || number_of(v@.skip(from as int))
                > u64::MAX,
        },
{
    let ghost s = v@.skip(from as int);
    if from == v.len() {
        return None;
    }
    let mut n: u64 = 0;
    let mut i: usize = from;
    assert(s.take(0) == Seq::<char>::empty());
    while i < v.len()
        invariant
            from <= i <= v@.len(),
            s == v@.skip(from as int),
            n == number_of(s.take(i - from)),
            forall|j: int| 0 <= j < i - from ==> is_digit(#[trigger] s[j]),
        decreases v@.len() - i,
    {
        let c = v[i];
        let ghost k = i - from;
        assert(s[k] == c);
        if !char_is_digit(c) {
            return None;
        }
        let d: u64 = (c as u8 - 48u8) as u64;
        proof {
            assert(s.take(k + 1).drop_last() == s.take(k));
            assert(s.take(k + 1).last() == c);
            lemma_number_of_grows(s, k + 1);
        }
        if n > (u64::MAX - d) / 10 {
            return None;
        }
        n = n * 10 + d;
        i += 1;
    }
    assert(s.take(s.len() as int) == s);
    Some(n)
}

pub fn parse_u64(t: &str) -> (r: Option<u64>)
    ensures
        match r {
            Some(n) => all_digits(t@) && n == number_of(t@),
            None => !all_digits(t@) || number_of(t@) > u64::MAX,
        },
{
    let v = chars_of(t);
    assert(v@.skip(0) == v@);
    parse_digits(&v, 0)
}

/// The integer that a numeral stands for, where it fits in an `i64`.
pub fn parse_i64(t: &str) -> (r: Option<i64>)
    ensures
        match integer_of(t@) {
            Some(n) => if i64::MIN <= n <= i64::MAX {
                r == Some(n as i64)
            } else {
                r is None
            },
            None => r is None,
        },
{
    let v = chars_of(t);
    if v.len() > 0 && (v[0] == '-' || v[0] == '+') {
        match parse_digits(&v, 1) {
            None => None,
            Some(n) => {
                if v[0] == '-' {
                    if n < 0x8000_0000_0000_0000u64 {
                        Some(-(n as i64))
                    } else if n == 0x8000_0000_0000_0000u64 {
                        Some(i64::MIN)
                    } else {
                        None
                    }
                } else if n <= i64::MAX as u64 {
                    Some(n as i64)
                } else {
                    None
                }
            },
        }
    } else {
        assert(v@.skip(0) == v@);
        match parse_digits(&v, 0) {
            Some(n) => if n <= i64::MAX as u64 {
                Some(n as i64)
            } else {
                None
            },
            None => None,
        }
    }
}

/// Whether the text is one or more digits.
pub fn is_all_digits(t: &str) -> (r: bool)
    ensures
        r == all_digits(t@),
{
    let v = chars_of(t);
    if v.len() == 0 {
        return false;
    }
    let mut i: usize = 0;
    while i < v.len()
        invariant
            v@ == t@,
            i <= v@.len(),
            forall|j: int| 0 <= j < i ==> is_digit(#[trigger] v@[j]),
        decreases v@.len() - i,
    {
        if !char_is_digit(v[i]) {
            return false;
        }
        i += 1;
    }
    true
}

/// A numeral with at least two digits: `7` becomes `07`.
pub open spec fn two_digits(n: nat) -> Seq<char> {
    if n < 10 {
        seq!['0'] + numeral(n)
    } else {
        numeral(n)
    }
}

pub fn decimal_two(n: u64) -> (r: String)
    ensures
        r@ == two_digits(n as nat),
{
    if n < 10 {
        proof {
            reveal_strlit("0");
            assert("0"@ =~= seq!['0']);
        }
        cat("0", decimal(n).as_str())
    } else {
        decimal(n)
    }
}

} // verus!
