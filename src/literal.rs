//! Recognition of numeric literals in Rust's own syntax: unsigned and
//! signed integers, and 64-bit floats as `f64::from_str` accepts them.

use vstd::prelude::*;

verus! {

pub open spec fn is_digit(c: char) -> bool {
    0x30 <= (c as u32) <= 0x39
}

pub open spec fn is_sign(c: char) -> bool {
    c == '+' || c == '-'
}

pub open spec fn digit_of(c: char) -> nat {
    ((c as u32) - 0x30) as nat
}

pub open spec fn all_digits(s: Seq<char>) -> bool {
    forall|i: int| 0 <= i < s.len() ==> is_digit(#[trigger] s[i])
}

/// The number that a run of decimal digits writes.
pub open spec fn digits_value(s: Seq<char>) -> nat
    decreases s.len(),
{
    if s.len() == 0 {
        0
    } else {
        digits_value(s.drop_last()) * 10 + digit_of(s.last())
    }
}

/// Unsigned integer syntax: an optional `+`, then one or more digits.
pub open spec fn unsigned_literal(s: Seq<char>) -> Option<nat> {
    let d = if s.len() > 0 && s[0] == '+' {
        s.drop_first()
    } else {
        s
    };
    if d.len() > 0 && all_digits(d) {
        Some(digits_value(d))
    } else {
        None
    }
}

/// Signed integer syntax: an optional `+` or `-`, then one or more digits.
pub open spec fn signed_literal(s: Seq<char>) -> Option<int> {
    if s.len() > 0 && s[0] == '-' {
        let d = s.drop_first();
        if d.len() > 0 && all_digits(d) {
            Some(-(digits_value(d) as int))
        } else {
            None
        }
    } else {
        match unsigned_literal(s) {
            Some(n) => Some(n as int),
            None => None,
        }
    }
}

/// The `i64` that `s` writes, if it is a signed literal in range.
pub open spec fn i64_literal(s: Seq<char>) -> Option<i64> {
    match signed_literal(s) {
        Some(v) => if i64::MIN <= v <= i64::MAX {
            Some(v as i64)
        } else {
            None
        },
        None => None,
    }
}

proof fn lemma_digits_value_grows(s: Seq<char>, k: int)
    requires
        0 <= k <= s.len(),
    ensures
        digits_value(s.subrange(0, k)) <= digits_value(s),
    decreases s.len() - k,
{
    if k < s.len() {
        lemma_digits_value_grows(s, k + 1);
        assert(s.subrange(0, k + 1).drop_last() == s.subrange(0, k));
    } else {
        assert(s.subrange(0, k) == s);
    }
}

/// The value of the digits `cs[from..]`, or `None` where one is not a digit,
/// there is none, or the value exceeds `cap`.
pub fn digits_up_to(cs: &Vec<char>, from: usize, cap: u64) -> (r: Option<u64>)
    requires
        from <= cs.len(),
    ensures
        ({
            let d = cs@.subrange(from as int, cs.len() as int);
            match r {
                Some(v) => d.len() > 0 && all_digits(d) && v == digits_value(d) && v <= cap,
                None => !(d.len() > 0 && all_digits(d) && digits_value(d) <= cap),
            }
        }),
{
    let ghost d = cs@.subrange(from as int, cs.len() as int);
    if from == cs.len() {
        return None;
    }
    let mut acc: u64 = 0;
    let mut over = false;
    let mut i: usize = from;
    while i < cs.len()
        invariant
            from <= i <= cs.len(),
            d == cs@.subrange(from as int, cs.len() as int),
            all_digits(cs@.subrange(from as int, i as int)),
            !over ==> acc == digits_value(cs@.subrange(from as int, i as int)) && acc <= cap,
            over ==> digits_value(cs@.subrange(from as int, i as int)) > cap,
        decreases cs.len() - i,
    {
        let c = cs[i];
        let u = c as u32;
        if u < 0x30 || u > 0x39 {
            assert(d[i - from] == c);
            return None;
        }
        let ghost pre = cs@.subrange(from as int, i as int);
        let ghost next = cs@.subrange(from as int, i + 1);
        assert(next.drop_last() == pre);
        assert(next.last() == c);
        assert(all_digits(next)) by {
            assert forall|k: int| 0 <= k < next.len() implies is_digit(#[trigger] next[k]) by {
                if k < pre.len() {
                    assert(next[k] == pre[k]);
                }
            }
        }
        if !over {
            let v: u128 = acc as u128 * 10 + (u - 0x30) as u128;
            if v > cap as u128 {
                over = true;
            } else {
                acc = v as u64;
            }
        } else {
            assert(digits_value(next) >= digits_value(pre));
        }
        i = i + 1;
    }
    proof {
        assert(cs@.subrange(from as int, i as int) == d);
    }
    if over {
        None
    } else {
        Some(acc)
    }
}

/// The `i64` written by `cs`, as `str::parse::<i64>` reads it.
pub fn parse_i64(cs: &Vec<char>) -> (r: Option<i64>)
    ensures
        r == i64_literal(cs@),
{
    let n = cs.len();
    let neg = n > 0 && cs[0] == '-';
    let from: usize = if n > 0 && (cs[0] == '-' || cs[0] == '+') {
        1
    } else {
        0
    };
    let ghost d = cs@.subrange(from as int, n as int);
    proof {
        if from == 1 {
            assert(d == cs@.drop_first());
        } else {
            assert(d == cs@);
        }
    }
    match digits_up_to(cs, from, 0x8000_0000_0000_0000u64) {
        Some(v) => {
            if neg {
                if v == 0x8000_0000_0000_0000u64 {
                    Some(i64::MIN)
                } else {
                    Some(-(v as i64))
                }
            } else if v == 0x8000_0000_0000_0000u64 {
                None
            } else {
                Some(v as i64)
            }
        },
        None => None,
    }
}


/// The first position at or after `i` that does not hold a digit.
pub open spec fn digit_run(s: Seq<char>, i: int) -> int
    decreases s.len() - i,
{
    if 0 <= i < s.len() && is_digit(s[i]) {
        digit_run(s, i + 1)
    } else {
        i
    }
}

/// `s[i..]` is an exponent: `e` or `E`, an optional sign, one or more digits.
pub open spec fn exponent_at(s: Seq<char>, i: int) -> bool {
    0 <= i < s.len() && (s[i] == 'e' || s[i] == 'E') && {
        let j = if i + 1 < s.len() && is_sign(s[i + 1]) {
            i + 2
        } else {
            i + 1
        };
        digit_run(s, j) > j && digit_run(s, j) == s.len()
    }
}

/// Where the digits and point of a decimal number end.
pub open spec fn mantissa_end(s: Seq<char>) -> int {
    let a = digit_run(s, 0);
    if a < s.len() && s[a] == '.' {
        digit_run(s, a + 1)
    } else {
        a
    }
}

/// A decimal number without sign: `d+`, `d+.d*` or `d*.d+`, then an
/// optional exponent.
pub open spec fn decimal_number(s: Seq<char>) -> bool {
    let a = digit_run(s, 0);
    let m = mantissa_end(s);
    (a > 0 || m > a + 1) && (m == s.len() || exponent_at(s, m))
}

pub open spec fn ascii_lower(c: char) -> char {
    if 0x41 <= (c as u32) <= 0x5a {
        ((c as u32) + 0x20) as char
    } else {
        c
    }
}

/// `s` equals the lower-case word `w`, ignoring ASCII case.
pub open spec fn word_ignoring_case(s: Seq<char>, w: Seq<char>) -> bool {
    s.len() == w.len() && forall|i: int| 0 <= i < s.len() ==> ascii_lower(#[trigger] s[i]) == w[i]
}

pub open spec fn special_float(s: Seq<char>) -> bool {
    word_ignoring_case(s, seq!['i', 'n', 'f']) || word_ignoring_case(
        s,
        seq!['i', 'n', 'f', 'i', 'n', 'i', 't', 'y'],
    ) || word_ignoring_case(s, seq!['n', 'a', 'n'])
}

/// `s` without one leading sign.
pub open spec fn unsigned_part(s: Seq<char>) -> Seq<char> {
    if s.len() > 0 && is_sign(s[0]) {
        s.drop_first()
    } else {
        s
    }
}

/// The syntax that `f64::from_str` accepts: an optional sign, then `inf`,
/// `infinity` or `nan` in any case, or a decimal number.
pub open spec fn float_literal(s: Seq<char>) -> bool {
    special_float(unsigned_part(s)) || decimal_number(unsigned_part(s))
}

/// A float literal whose digits are all zero: it writes 0.0 or -0.0.
pub open spec fn zero_float_literal(s: Seq<char>) -> bool {
    let t = unsigned_part(s);
    decimal_number(t) && forall|i: int| 0 <= i < mantissa_end(t) ==> #[trigger] t[i] == '0' || t[i] == '.'
}

fn run_of_digits(cs: &Vec<char>, i: usize) -> (r: usize)
    requires
        i <= cs.len(),
    ensures
        r == digit_run(cs@, i as int),
        i <= r <= cs.len(),
    decreases cs.len() - i,
{
    if i < cs.len() && (cs[i] as u32) >= 0x30 && (cs[i] as u32) <= 0x39 {
        run_of_digits(cs, i + 1)
    } else {
        i
    }
}

fn matches_word(cs: &Vec<char>, from: usize, w: &Vec<char>) -> (r: bool)
    requires
        from <= cs.len(),
    ensures
        r == word_ignoring_case(cs@.subrange(from as int, cs.len() as int), w@),
{
    let ghost t = cs@.subrange(from as int, cs.len() as int);
    if cs.len() - from != w.len() {
        return false;
    }
    let mut i: usize = 0;
    while i < w.len()
        invariant
            i <= w.len() == cs.len() - from,
            t == cs@.subrange(from as int, cs.len() as int),
            forall|k: int| 0 <= k < i ==> ascii_lower(#[trigger] t[k]) == w@[k],
        decreases w.len() - i,
    {
        let c = cs[from + i];
        let u = c as u32;
        let l = if 0x41 <= u && u <= 0x5a {
            (u + 0x20) as u8 as char
        } else {
            c
        };
        assert(t[i as int] == c);
        if l != w[i] {
            return false;
        }
        i = i + 1;
    }
    true
}

/// Whether `cs` is a float literal, and whether it writes zero.
pub fn float_syntax(cs: &Vec<char>) -> (r: (bool, bool))
    ensures
        r.0 == float_literal(cs@),
        r.1 == zero_float_literal(cs@),
{
    let n = cs.len();
    let from: usize = if n > 0 && (cs[0] == '-' || cs[0] == '+') {
        1
    } else {
        0
    };
    let ghost t = cs@.subrange(from as int, n as int);
    proof {
        if from == 1 {
            assert(t == cs@.drop_first());
        } else {
            assert(t == cs@);
        }
        assert(unsigned_part(cs@) == t);
    }
    let t_vec = slice_from(cs, from);
    let special = matches_word(cs, from, &vec!['i', 'n', 'f']) || matches_word(
        cs,
        from,
        &vec!['i', 'n', 'f', 'i', 'n', 'i', 't', 'y'],
    ) || matches_word(cs, from, &vec!['n', 'a', 'n']);
    let a = run_of_digits(&t_vec, 0);
    let m = if a < t_vec.len() && t_vec[a] == '.' {
        run_of_digits(&t_vec, a + 1)
    } else {
        a
    };
    let mut exp_ok = false;
    if m < t_vec.len() && (t_vec[m] == 'e' || t_vec[m] == 'E') {
        let j = if m + 1 < t_vec.len() && (t_vec[m + 1] == '+' || t_vec[m + 1] == '-') {
            m + 2
        } else {
            m + 1
        };
        let k = run_of_digits(&t_vec, j);
        exp_ok = k > j && k == t_vec.len();
    }
    let number = (a > 0 || m > a + 1) && (m == t_vec.len() || exp_ok);
    let mut zero = number;
    let mut i: usize = 0;
    while i < m
        invariant
            i <= m <= t_vec.len(),
            t_vec@ == t,
            m == mantissa_end(t),
            number == decimal_number(t),
            zero ==> number,
            zero == (number && forall|k: int| 0 <= k < i ==> #[trigger] t[k] == '0' || t[k] == '.'),
        decreases m - i,
    {
        if t_vec[i] != '0' && t_vec[i] != '.' {
            zero = false;
        }
        i = i + 1;
    }
    (special || number, zero)
}

/// `cs[from..]` as a vector.
pub fn slice_from(cs: &Vec<char>, from: usize) -> (r: Vec<char>)
    requires
        from <= cs.len(),
    ensures
        r@ == cs@.subrange(from as int, cs.len() as int),
{
    let mut r: Vec<char> = Vec::new();
    let mut i: usize = from;
    while i < cs.len()
        invariant
            from <= i <= cs.len(),
            r@ == cs@.subrange(from as int, i as int),
        decreases cs.len() - i,
    {
        r.push(cs[i]);
        assert(cs@.subrange(from as int, i + 1) == cs@.subrange(from as int, i as int).push(cs@[i as int]));
        i = i + 1;
    }
    r
}

} // verus!
