//! Verified base-10 integer parsing, mirroring the standard library's
//! `FromStr` grammar for integers: an optional sign, then one or more ASCII
//! digits, and the value must fit the target range.

use vstd::prelude::*;

verus! {

pub open spec fn is_digit_char(c: char) -> bool {
    48 <= c as u32 && c as u32 <= 57
}

pub open spec fn digit_val(c: char) -> int {
    c as u32 - 48
}

pub open spec fn is_digit_seq(s: Seq<char>) -> bool {
    s.len() >= 1 && forall|i: int| 0 <= i < s.len() ==> is_digit_char(#[trigger] s[i])
}

/// Value of a sequence of ASCII digits read left to right.
pub open spec fn digits_val(s: Seq<char>) -> int
    decreases s.len(),
{
    if s.len() == 0 {
        0
    } else {
        digits_val(s.drop_last()) * 10 + digit_val(s.last())
    }
}

/// What `str::parse` yields for an unsigned integer type whose maximum is
/// `max`: `None` unless the text is `+`-or-nothing followed by digits whose
/// value is within range.
pub open spec fn parse_uint_spec(s: Seq<char>, max: int) -> Option<int> {
    let body = if s.len() >= 1 && s[0] == '+' {
        s.drop_first()
    } else {
        s
    };
    if is_digit_seq(body) && digits_val(body) <= max {
        Some(digits_val(body))
    } else {
        None
    }
}

/// What `str::parse` yields for a signed integer type with range
/// `[min, max]`.
pub open spec fn parse_int_spec(s: Seq<char>, min: int, max: int) -> Option<int> {
    if s.len() >= 1 && s[0] == '-' {
        let body = s.drop_first();
        if is_digit_seq(body) && -digits_val(body) >= min {
            Some(-digits_val(body))
        } else {
            None
        }
    } else {
        parse_uint_spec(s, max)
    }
}

pub proof fn lemma_digits_val_nonneg(s: Seq<char>)
    requires
        forall|i: int| 0 <= i < s.len() ==> is_digit_char(#[trigger] s[i]),
    ensures
        digits_val(s) >= 0,
    decreases s.len(),
{
    if s.len() > 0 {
        lemma_digits_val_nonneg(s.drop_last());
    }
}

/// Extending a digit string on the right never lowers its value.
pub proof fn lemma_digits_val_prefix(s: Seq<char>, k: int)
    requires
        forall|i: int| 0 <= i < s.len() ==> is_digit_char(#[trigger] s[i]),
        0 <= k <= s.len(),
    ensures
        digits_val(s.take(k)) <= digits_val(s),
    decreases s.len() - k,
{
    if k == s.len() {
        assert(s.take(k) =~= s);
    } else {
        lemma_digits_val_prefix(s, k + 1);
        let t = s.take(k + 1);
        assert(t.drop_last() =~= s.take(k));
        lemma_digits_val_nonneg(s.take(k));
        assert(digits_val(t) == digits_val(s.take(k)) * 10 + digit_val(s[k]));
    }
}

/// Digits of `v` from position `from` on, as a value capped at `cap`.
pub(crate) fn parse_digits(v: &Vec<char>, from: usize, cap: u128) -> (r: Option<u128>)
    requires
        from <= v@.len(),
        cap <= 0xffff_ffff_ffff_ffff,
    ensures
        ({
            let body = v@.skip(from as int);
            if is_digit_seq(body) && digits_val(body) <= cap {
                r == Some(digits_val(body) as u128)
            } else {
                r is None
            }
        }),
{
    let ghost body = v@.skip(from as int);
    let n = v.len();
    if from == n {
        return None;
    }
    let mut acc: u128 = 0;
    let mut i: usize = from;
    while i < n
        invariant
            from <= i <= n,
            n == v@.len(),
            from < n,
            cap <= 0xffff_ffff_ffff_ffff,
            body == v@.skip(from as int),
            forall|k: int| 0 <= k < i - from ==> is_digit_char(#[trigger] body[k]),
            acc == digits_val(body.take(i - from)),
            acc <= cap,
        decreases n - i,
    {
        let c = v[i];
        let u = c as u32;
        if !(48 <= u && u <= 57) {
            proof {
                assert(body[i - from] == v@[i as int]);
                assert(!is_digit_seq(body));
            }
            return None;
        }
        let d: u128 = (u - 48) as u128;
        proof {
            assert(body.take(i + 1 - from).drop_last() =~= body.take(i - from));
            assert(body.take(i + 1 - from).last() == v@[i as int]);
        }
        let next: u128 = acc * 10 + d;
        if next > cap {
            proof {
                if is_digit_seq(body) {
                    lemma_digits_val_prefix(body, i + 1 - from);
                }
            }
            return None;
        }
        acc = next;
        i = i + 1;
    }
    proof {
        assert(body.take(n - from) =~= body);
    }
    Some(acc)
}

pub fn parse_u8(v: &Vec<char>) -> (r: Option<u8>)
    ensures
        ({
            match parse_uint_spec(v@, u8::MAX as int) {
                Some(x) => r == Some(x as u8),
                None => r is None,
            }
        }),
{
    let from: usize = if v.len() >= 1 && v[0] == '+' {
        1
    } else {
        0
    };
    proof {
        if from == 1 {
            assert(v@.skip(1) =~= v@.drop_first());
        } else {
            assert(v@.skip(0) =~= v@);
        }
    }
    match parse_digits(v, from, 255) {
        Some(x) => {
            proof {
                lemma_digits_val_nonneg(v@.skip(from as int));
            }
            Some(x as u8)
        },
        None => None,
    }
}

pub fn parse_usize(v: &Vec<char>) -> (r: Option<usize>)
    ensures
        ({
            match parse_uint_spec(v@, usize::MAX as int) {
                Some(x) => r == Some(x as usize),
                None => r is None,
            }
        }),
{
    let from: usize = if v.len() >= 1 && v[0] == '+' {
        1
    } else {
        0
    };
    proof {
        if from == 1 {
            assert(v@.skip(1) =~= v@.drop_first());
        } else {
            assert(v@.skip(0) =~= v@);
        }
    }
    match parse_digits(v, from, usize::MAX as u128) {
        Some(x) => {
            proof {
                lemma_digits_val_nonneg(v@.skip(from as int));
            }
            Some(x as usize)
        },
        None => None,
    }
}

pub fn parse_i16(v: &Vec<char>) -> (r: Option<i16>)
    ensures
        ({
            match parse_int_spec(v@, i16::MIN as int, i16::MAX as int) {
                Some(x) => r == Some(x as i16),
                None => r is None,
            }
        }),
{
    if v.len() >= 1 && v[0] == '-' {
        proof {
            assert(v@.skip(1) =~= v@.drop_first());
        }
        match parse_digits(v, 1, 32768) {
            Some(x) => {
                proof {
                    lemma_digits_val_nonneg(v@.drop_first());
                }
                Some((-(x as i32)) as i16)
            },
            None => None,
        }
    } else {
        let from: usize = if v.len() >= 1 && v[0] == '+' {
            1
        } else {
            0
        };
        proof {
            if from == 1 {
                assert(v@.skip(1) =~= v@.drop_first());
            } else {
                assert(v@.skip(0) =~= v@);
            }
        }
        match parse_digits(v, from, 32767) {
            Some(x) => {
                proof {
                    lemma_digits_val_nonneg(v@.skip(from as int));
                }
                Some(x as i16)
            },
            None => None,
        }
    }
}

pub fn parse_i32(v: &Vec<char>) -> (r: Option<i32>)
    ensures
        ({
            match parse_int_spec(v@, i32::MIN as int, i32::MAX as int) {
                Some(x) => r == Some(x as i32),
                None => r is None,
            }
        }),
{
    if v.len() >= 1 && v[0] == '-' {
        proof {
            assert(v@.skip(1) =~= v@.drop_first());
        }
        match parse_digits(v, 1, 2147483648) {
            Some(x) => {
                proof {
                    lemma_digits_val_nonneg(v@.drop_first());
                }
                Some((-(x as i64)) as i32)
            },
            None => None,
        }
    } else {
        let from: usize = if v.len() >= 1 && v[0] == '+' {
            1
        } else {
            0
        };
        proof {
            if from == 1 {
                assert(v@.skip(1) =~= v@.drop_first());
            } else {
                assert(v@.skip(0) =~= v@);
            }
        }
        match parse_digits(v, from, 2147483647) {
            Some(x) => {
                proof {
                    lemma_digits_val_nonneg(v@.skip(from as int));
                }
                Some(x as i32)
            },
            None => None,
        }
    }
}

} // verus!
