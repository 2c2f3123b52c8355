//! Integer values of JSON numbers, read from the numbers' text.
use vstd::prelude::*;
use crate::json::{Json, JsonValue};
use crate::text::{chars_of, decimal, digit_char, i64_decimal, signed_decimal};

verus! {

/// Whether a character is an ASCII decimal digit.
pub open spec fn is_digit(c: char) -> bool {
    '0' <= c && c <= '9'
}

/// Whether a text is one or more decimal digits.
pub open spec fn all_digits(s: Seq<char>) -> bool {
    s.len() > 0 && forall|i: int| 0 <= i < s.len() ==> is_digit(#[trigger] s[i])
}

/// The value of a text of decimal digits.
pub open spec fn digits_value(s: Seq<char>) -> nat
    decreases s.len(),
{
    if s.len() == 0 {
        0
    } else {
        digits_value(s.drop_last()) * 10 + ((s.last() as int - 48) as nat)
    }
}

/// The decimal notation of a number is digits, and reads back as the number.
pub proof fn lemma_decimal_value(n: nat)
    ensures
        all_digits(decimal(n)),
        digits_value(decimal(n)) == n,
    decreases n,
{
    let c = digit_char(n % 10);
    assert(c as int == n % 10 + 48);
    if n >= 10 {
        lemma_decimal_value(n / 10);
        let s = decimal(n / 10);
        let t = s.push(c);
        assert(t.drop_last() =~= s);
        assert(t.last() == c);
        assert forall|i: int| 0 <= i < t.len() implies is_digit(#[trigger] t[i]) by {
            if i < s.len() {
                assert(t[i] == s[i]);
            }
        }
        assert(n == (n / 10) * 10 + n % 10);
        assert(digits_value(t) == digits_value(s) * 10 + ((c as int - 48) as nat));
    } else {
        let t = seq![c];
        assert(t.drop_last() =~= Seq::<char>::empty());
        assert(digits_value(t) == digits_value(t.drop_last()) * 10 + ((c as int - 48) as nat));
        assert(n % 10 == n);
    }
}

/// The value of an integer number's text: digits, with a leading `-` for a
/// negative value; none for a text that is not such an integer (a negative
/// zero is written as a fraction, so `-0` is none).
pub open spec fn integer_text_value(t: Seq<char>) -> Option<int> {
    if all_digits(t) {
        Some(digits_value(t) as int)
    } else if t.len() > 1 && t[0] == '-' && all_digits(t.drop_first()) && digits_value(t.drop_first()) > 0 {
        Some(-(digits_value(t.drop_first()) as int))
    } else {
        None
    }
}

impl Json {
    /// The value of an integer number that fits in an `i64`.
    pub open spec fn as_i64(self) -> Option<i64> {
        match self {
            Json::Number(t) => match integer_text_value(t) {
                Some(v) => if i64::MIN <= v && v <= i64::MAX {
                    Some(v as i64)
                } else {
                    None
                },
                None => None,
            },
            _ => None,
        }
    }

    /// The value of an integer number that fits in a `u64`.
    pub open spec fn as_u64(self) -> Option<u64> {
        match self {
            Json::Number(t) => match integer_text_value(t) {
                Some(v) => if 0 <= v && v <= u64::MAX {
                    Some(v as u64)
                } else {
                    None
                },
                None => None,
            },
            _ => None,
        }
    }
}

/// The `i64` value of an optional document.
pub open spec fn opt_i64(v: Option<Json>) -> Option<i64> {
    match v {
        Some(j) => j.as_i64(),
        None => None,
    }
}

/// The `u64` value of an optional document.
pub open spec fn opt_u64(v: Option<Json>) -> Option<u64> {
    match v {
        Some(j) => j.as_u64(),
        None => None,
    }
}

proof fn lemma_digits_prefix(s: Seq<char>, k: int)
    requires
        0 <= k <= s.len(),
    ensures
        digits_value(s.take(k)) <= digits_value(s),
    decreases s.len(),
{
    if k < s.len() {
        assert(s.drop_last().take(k) =~= s.take(k));
        lemma_digits_prefix(s.drop_last(), k);
    } else {
        assert(s.take(k) =~= s);
    }
}

/// The value of the digits from `from` on, when they are one or more digits
/// whose value fits in a `u64`.
fn digits_from(chars: &Vec<char>, from: usize) -> (r: Option<u64>)
    requires
        from <= chars.len(),
    ensures
        match r {
            Some(v) => all_digits(chars@.skip(from as int)) && v == digits_value(chars@.skip(from as int)),
            None => !all_digits(chars@.skip(from as int)) || digits_value(chars@.skip(from as int)) > u64::MAX,
        },
{
    let ghost s = chars@.skip(from as int);
    if from == chars.len() {
        return None;
    }
    let mut acc: u64 = 0;
    let mut i: usize = from;
    assert(s.take(0) =~= Seq::<char>::empty());
    while i < chars.len()
        invariant
            from <= i <= chars.len(),
            s == chars@.skip(from as int),
            forall|j: int| 0 <= j < i - from ==> is_digit(#[trigger] s[j]),
            acc == digits_value(s.take(i - from)),
        decreases chars.len() - i,
    {
        let c = chars[i];
        if !('0' <= c && c <= '9') {
            assert(!is_digit(s[i - from]));
            return None;
        }
        let d: u64 = (c as u32 - 48) as u64;
        assert(s.take(i - from + 1).drop_last() =~= s.take(i - from));
        assert(s.take(i - from + 1).last() == c);
        match acc.checked_mul(10) {
            Some(t) => match t.checked_add(d) {
                Some(v) => {
                    acc = v;
                },
                None => {
                    proof {
                        if all_digits(s) {
                            lemma_digits_prefix(s, i - from + 1);
                        }
                    }
                    return None;
                },
            },
            None => {
                proof {
                    if all_digits(s) {
                        lemma_digits_prefix(s, i - from + 1);
                    }
                }
                return None;
            },
        }
        i = i + 1;
    }
    assert(s.take(i - from) =~= s);
    Some(acc)
}

impl JsonValue {
    /// The value of an integer number that fits in an `i64`.
    pub fn as_i64(&self) -> (r: Option<i64>)
        ensures
            r == self@.as_i64(),
    {
        match self {
            JsonValue::Number(t) => {
                let cs = chars_of(t.as_str());
                if cs.len() > 1 && cs[0] == '-' {
                    assert(cs@.skip(1) =~= cs@.drop_first());
                    assert(!all_digits(cs@)) by {
                        assert(!is_digit(cs@[0]));
                    }
                    match digits_from(&cs, 1) {
                        Some(m) => if 0 < m && m <= 9223372036854775808u64 {
                            if m == 9223372036854775808u64 {
                                Some(i64::MIN)
                            } else {
                                Some(-(m as i64))
                            }
                        } else {
                            None
                        },
                        None => None,
                    }
                } else {
                    assert(cs@.skip(0) =~= cs@);
                    match digits_from(&cs, 0) {
                        Some(m) => if m <= 9223372036854775807u64 {
                            Some(m as i64)
                        } else {
                            None
                        },
                        None => {
                            proof {
                                if cs.len() > 1 {
                                    assert(cs@[0] != '-');
                                }
                            }
                            None
                        },
                    }
                }
            },
            _ => None,
        }
    }

    /// The value of an integer number that fits in a `u64`.
    pub fn as_u64(&self) -> (r: Option<u64>)
        ensures
            r == self@.as_u64(),
    {
        match self {
            JsonValue::Number(t) => {
                let cs = chars_of(t.as_str());
                assert(cs@.skip(0) =~= cs@);
                match digits_from(&cs, 0) {
                    Some(m) => Some(m),
                    None => {
                        proof {
                            if cs.len() > 1 && cs@[0] == '-' && all_digits(cs@.drop_first()) {
                                assert(digits_value(cs@.drop_first()) > 0 || digits_value(cs@.drop_first()) == 0);
                            }
                        }
                        None
                    },
                }
            },
            _ => None,
        }
    }

    /// A number document holding an `i64`.
    pub fn from_i64(n: i64) -> (r: JsonValue)
        ensures
            r@ == Json::Number(signed_decimal(n as int)),
    {
        JsonValue::Number(i64_decimal(n))
    }
}

} // verus!
