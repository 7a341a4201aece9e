//! Exact decimal fixed-point numbers.
//!
//! Fractional attribute values (sizes, paddings, scroll offsets, font
//! metrics) are carried as a signed count of millionths, so every parse,
//! comparison and rendering step is plain integer arithmetic. The grammar is
//! an optional sign, then digits with at most one decimal point and at most
//! six fraction digits; the rendering is the shortest decimal form, which
//! parses back to the same value.

use vstd::prelude::*;
use crate::numbers::{digit_val, digits_val, is_digit_char};
use crate::text::subvec;

verus! {

/// One unit in the last place of the fixed-point scale.
pub const SCALE: i64 = 1000000;

/// A decimal number held as a count of millionths.
#[derive(Clone, Copy, PartialEq, Eq, Structural, Debug, Hash)]
pub struct Fixed {
    pub micros: i64,
}

/// Every representable number; the most negative count is left out so that
/// magnitudes always fit.
pub open spec fn fixed_ok(n: Fixed) -> bool {
    -0x7fff_ffff_ffff_ffff <= n.micros
}

impl Fixed {
    /// The number `whole`, exactly.
    pub fn from_int(whole: i32) -> (r: Fixed)
        ensures
            r.micros == whole * 1000000,
            fixed_ok(r),
    {
        Fixed { micros: (whole as i64) * 1000000 }
    }

    pub open spec fn spec_zero() -> Fixed {
        Fixed { micros: 0 }
    }

    pub fn zero() -> (r: Fixed)
        ensures
            r == Fixed::spec_zero(),
    {
        Fixed { micros: 0 }
    }

    /// Half of this number, exact except that an odd count of millionths
    /// loses its last half-millionth toward zero.
    pub fn half(self) -> (r: Fixed)
        requires
            fixed_ok(self),
        ensures
            r == spec_half(self),
            fixed_ok(r),
    {
        if self.micros >= 0 {
            Fixed { micros: self.micros / 2 }
        } else {
            Fixed { micros: -((-self.micros) / 2) }
        }
    }
}

pub open spec fn spec_half(n: Fixed) -> Fixed {
    if n.micros >= 0 {
        Fixed { micros: (n.micros / 2) as i64 }
    } else {
        Fixed { micros: (-((-n.micros) / 2)) as i64 }
    }
}

pub open spec fn pow10(k: nat) -> int
    decreases k,
{
    if k == 0 {
        1
    } else {
        10 * pow10((k - 1) as nat)
    }
}

pub open spec fn all_digits(s: Seq<char>) -> bool {
    forall|i: int| 0 <= i < s.len() ==> is_digit_char(#[trigger] s[i])
}

pub proof fn lemma_digits_val_bound(s: Seq<char>)
    requires
        all_digits(s),
    ensures
        0 <= digits_val(s) < pow10(s.len()),
    decreases s.len(),
{
    if s.len() == 0 {
    } else {
        let t = s.drop_last();
        assert(all_digits(t));
        lemma_digits_val_bound(t);
        assert(digits_val(s) == digits_val(t) * 10 + digit_val(s.last()));
        assert(digits_val(t) * 10 + digit_val(s.last()) < pow10(s.len())) by {
            assert(digits_val(t) <= pow10(t.len()) - 1);
            assert(digits_val(t) * 10 <= (pow10(t.len()) - 1) * 10) by (nonlinear_arith)
                requires
                    digits_val(t) <= pow10(t.len()) - 1,
            ;
            assert(pow10(s.len()) == 10 * pow10(t.len()));
            assert(digit_val(s.last()) <= 9);
        }
    }
}

/// Index of the first `.` in `s`, or `-1` if there is none.
pub open spec fn first_dot(s: Seq<char>) -> int
    decreases s.len(),
{
    if s.len() == 0 {
        -1
    } else if s[0] == '.' {
        0
    } else {
        let r = first_dot(s.drop_first());
        if r < 0 {
            -1
        } else {
            r + 1
        }
    }
}

pub proof fn lemma_first_dot_at(s: Seq<char>, d: int)
    requires
        0 <= d < s.len(),
        s[d] == '.',
        forall|k: int| 0 <= k < d ==> s[k] != '.',
    ensures
        first_dot(s) == d,
    decreases d,
{
    if d == 0 {
    } else {
        let t = s.drop_first();
        assert(forall|k: int| 0 <= k < t.len() ==> #[trigger] t[k] == s[k + 1]);
        lemma_first_dot_at(t, d - 1);
    }
}

pub proof fn lemma_first_dot_none(s: Seq<char>)
    requires
        forall|k: int| 0 <= k < s.len() ==> s[k] != '.',
    ensures
        first_dot(s) == -1,
    decreases s.len(),
{
    if s.len() > 0 {
        let t = s.drop_first();
        assert(forall|k: int| 0 <= k < t.len() ==> #[trigger] t[k] == s[k + 1]);
        lemma_first_dot_none(t);
    }
}

/// The count of millionths that an unsigned decimal body denotes, if it is
/// well formed: digits with at most one point, at most six fraction digits,
/// at least one digit in all, and a value whose count fits.
pub open spec fn parse_fixed_mag(s: Seq<char>) -> Option<int> {
    let d = first_dot(s);
    if d < 0 {
        if s.len() >= 1 && all_digits(s) && digits_val(s) * 1000000 <= 0x7fff_ffff_ffff_ffff {
            Some(digits_val(s) * 1000000)
        } else {
            None
        }
    } else {
        let ip = s.take(d);
        let fp = s.skip(d + 1);
        if ip.len() + fp.len() >= 1 && all_digits(ip) && all_digits(fp) && fp.len() <= 6
            && digits_val(ip) * 1000000 + digits_val(fp) * pow10((6 - fp.len()) as nat)
            <= 0x7fff_ffff_ffff_ffff {
            Some(
                digits_val(ip) * 1000000 + digits_val(fp) * pow10((6 - fp.len()) as nat),
            )
        } else {
            None
        }
    }
}

/// What `parse_fixed` yields: an optional sign, then a well-formed body.
pub open spec fn parse_fixed_spec(s: Seq<char>) -> Option<Fixed> {
    if s.len() >= 1 && (s[0] == '-' || s[0] == '+') {
        match parse_fixed_mag(s.drop_first()) {
            Some(m) => if s[0] == '-' {
                Some(Fixed { micros: (-m) as i64 })
            } else {
                Some(Fixed { micros: m as i64 })
            },
            None => None,
        }
    } else {
        match parse_fixed_mag(s) {
            Some(m) => Some(Fixed { micros: m as i64 }),
            None => None,
        }
    }
}

pub open spec fn digit_char(d: int) -> char {
    if d == 0 {
        '0'
    } else if d == 1 {
        '1'
    } else if d == 2 {
        '2'
    } else if d == 3 {
        '3'
    } else if d == 4 {
        '4'
    } else if d == 5 {
        '5'
    } else if d == 6 {
        '6'
    } else if d == 7 {
        '7'
    } else if d == 8 {
        '8'
    } else {
        '9'
    }
}

/// Decimal digits of a non-negative integer, most significant first.
pub open spec fn u64_text(v: int) -> Seq<char>
    decreases v,
    when v >= 0 via u64_text_decreases
{
    if v < 10 {
        seq![digit_char(v)]
    } else {
        u64_text(v / 10).push(digit_char(v % 10))
    }
}

#[via_fn]
proof fn u64_text_decreases(v: int) {
    if v >= 10 {
        assert(v / 10 < v) by (nonlinear_arith)
            requires
                v >= 10,
        ;
    }
}

pub proof fn lemma_u64_text(v: int)
    requires
        v >= 0,
    ensures
        u64_text(v).len() >= 1,
        all_digits(u64_text(v)),
        digits_val(u64_text(v)) == v,
    decreases v,
{
    if v < 10 {
        let s = u64_text(v);
        assert(s == seq![digit_char(v)]);
        assert(s.drop_last() =~= Seq::<char>::empty());
        assert(digits_val(Seq::<char>::empty()) == 0);
        assert(s.last() == digit_char(v));
        assert(digit_val(digit_char(v)) == v);
        assert(digits_val(s) == digits_val(s.drop_last()) * 10 + digit_val(s.last()));
    } else {
        assert(v / 10 < v) by (nonlinear_arith)
            requires
                v >= 10,
        ;
        lemma_u64_text(v / 10);
        let s = u64_text(v);
        assert(s.drop_last() =~= u64_text(v / 10));
        assert(s.last() == digit_char(v % 10));
        assert(digit_val(digit_char(v % 10)) == v % 10);
        assert(digits_val(s) == (v / 10) * 10 + v % 10);
    }
}

/// Exactly `k` decimal digits of `v`, with leading zeros.
pub open spec fn pad_text(v: int, k: nat) -> Seq<char>
    decreases k,
{
    if k == 0 {
        Seq::empty()
    } else {
        pad_text(v / 10, (k - 1) as nat).push(digit_char(v % 10))
    }
}

pub proof fn lemma_pad_text(v: int, k: nat)
    requires
        0 <= v < pow10(k),
    ensures
        pad_text(v, k).len() == k,
        all_digits(pad_text(v, k)),
        digits_val(pad_text(v, k)) == v,
    decreases k,
{
    if k == 0 {
    } else {
        assert(pow10(k) == 10 * pow10((k - 1) as nat));
        assert(0 <= v / 10 < pow10((k - 1) as nat)) by (nonlinear_arith)
            requires
                0 <= v < 10 * pow10((k - 1) as nat),
        ;
        lemma_pad_text(v / 10, (k - 1) as nat);
        let s = pad_text(v, k);
        assert(s.drop_last() =~= pad_text(v / 10, (k - 1) as nat));
        assert(digit_val(digit_char(v % 10)) == v % 10);
        assert(digits_val(s) == (v / 10) * 10 + v % 10);
    }
}

/// `s` without its trailing zero digits.
pub open spec fn strip_zeros(s: Seq<char>) -> Seq<char>
    decreases s.len(),
{
    if s.len() > 0 && s.last() == '0' {
        strip_zeros(s.drop_last())
    } else {
        s
    }
}

pub proof fn lemma_strip_zeros(s: Seq<char>)
    requires
        all_digits(s),
    ensures
        strip_zeros(s).len() <= s.len(),
        all_digits(strip_zeros(s)),
        digits_val(s) == digits_val(strip_zeros(s)) * pow10((s.len() - strip_zeros(s).len()) as nat),
        strip_zeros(s).len() > 0 ==> strip_zeros(s).last() != '0',
        digits_val(s) != 0 ==> strip_zeros(s).len() > 0,
    decreases s.len(),
{
    let r = strip_zeros(s);
    if s.len() > 0 && s.last() == '0' {
        let t = s.drop_last();
        assert(all_digits(t));
        lemma_strip_zeros(t);
        assert(digit_val(s.last()) == 0);
        assert(digits_val(s) == digits_val(t) * 10);
        let e = (t.len() - strip_zeros(t).len()) as nat;
        assert(digits_val(t) == digits_val(r) * pow10(e));
        assert(pow10((e + 1) as nat) == 10 * pow10(e));
        assert(digits_val(r) * pow10(e) * 10 == digits_val(r) * (10 * pow10(e))) by (
        nonlinear_arith);
        assert((s.len() - r.len()) as nat == e + 1);
    } else {
        assert(digits_val(s) * pow10(0) == digits_val(s));
    }
}

/// The fraction suffix: nothing for zero, otherwise a point and the
/// six-digit fraction with trailing zeros removed.
pub open spec fn frac_text(f: int) -> Seq<char> {
    if f == 0 {
        Seq::empty()
    } else {
        seq!['.'] + strip_zeros(pad_text(f, 6))
    }
}

pub open spec fn mag_text(u: int) -> Seq<char> {
    u64_text(u / 1000000) + frac_text(u % 1000000)
}

/// The shortest decimal rendering of the number.
pub open spec fn fixed_text_s(n: Fixed) -> Seq<char> {
    if n.micros < 0 {
        seq!['-'] + mag_text(-n.micros)
    } else {
        mag_text(n.micros as int)
    }
}

fn digit_of(d: u64) -> (c: char)
    requires
        d < 10,
    ensures
        c == digit_char(d as int),
{
    if d == 0 {
        '0'
    } else if d == 1 {
        '1'
    } else if d == 2 {
        '2'
    } else if d == 3 {
        '3'
    } else if d == 4 {
        '4'
    } else if d == 5 {
        '5'
    } else if d == 6 {
        '6'
    } else if d == 7 {
        '7'
    } else if d == 8 {
        '8'
    } else {
        '9'
    }
}

fn fmt_digits(v: u64) -> (r: Vec<char>)
    ensures
        r@ == u64_text(v as int),
    decreases v,
{
    if v < 10 {
        let mut r: Vec<char> = Vec::new();
        r.push(digit_of(v));
        proof {
            assert(r@ =~= seq![digit_char(v as int)]);
        }
        r
    } else {
        proof {
            assert(v as int / 10 == (v / 10) as int);
        }
        let mut r = fmt_digits(v / 10);
        r.push(digit_of(v % 10));
        r
    }
}

fn fmt_pad(v: u64, k: usize) -> (r: Vec<char>)
    ensures
        r@ == pad_text(v as int, k as nat),
    decreases k,
{
    if k == 0 {
        let r: Vec<char> = Vec::new();
        proof {
            assert(r@ =~= pad_text(v as int, 0));
        }
        r
    } else {
        let mut r = fmt_pad(v / 10, k - 1);
        r.push(digit_of(v % 10));
        r
    }
}

fn strip_zeros_vec(v: Vec<char>) -> (r: Vec<char>)
    ensures
        r@ == strip_zeros(v@),
{
    let mut v = v;
    let ghost orig = v@;
    while v.len() > 0 && v[v.len() - 1] == '0'
        invariant
            strip_zeros(v@) == strip_zeros(orig),
        decreases v@.len(),
    {
        let ghost before = v@;
        v.pop();
        proof {
            assert(v@ =~= before.drop_last());
        }
    }
    v
}

/// The shortest decimal rendering, as characters.
pub fn fixed_to_chars(n: Fixed) -> (r: Vec<char>)
    requires
        fixed_ok(n),
    ensures
        r@ == fixed_text_s(n),
{
    let neg = n.micros < 0;
    let mag: u64 = if neg {
        (-n.micros) as u64
    } else {
        n.micros as u64
    };
    let q: u64 = mag / 1000000;
    let f: u64 = mag % 1000000;
    let mut out: Vec<char> = Vec::new();
    if neg {
        out.push('-');
    }
    let mut d = fmt_digits(q);
    out.append(&mut d);
    if f != 0 {
        out.push('.');
        let mut fr = strip_zeros_vec(fmt_pad(f, 6));
        out.append(&mut fr);
    }
    proof {
        let u = mag as int;
        assert(u / 1000000 == q as int);
        assert(u % 1000000 == f as int);
        if f != 0 {
            assert(out@ =~= (if neg {
                seq!['-']
            } else {
                Seq::<char>::empty()
            }) + u64_text(q as int) + (seq!['.'] + strip_zeros(pad_text(f as int, 6))));
        } else {
            assert(out@ =~= (if neg {
                seq!['-']
            } else {
                Seq::<char>::empty()
            }) + u64_text(q as int));
        }
        assert(mag_text(u) == u64_text(q as int) + frac_text(f as int));
        if neg {
            assert(out@ =~= seq!['-'] + mag_text(u));
        } else {
            assert(out@ =~= mag_text(u));
        }
    }
    out
}

fn find_dot(v: &Vec<char>) -> (r: Option<usize>)
    ensures
        match r {
            Some(i) => i < v@.len() && first_dot(v@) == i,
            None => first_dot(v@) == -1,
        },
{
    let mut i: usize = 0;
    while i < v.len()
        invariant
            i <= v@.len(),
            forall|k: int| 0 <= k < i ==> v@[k] != '.',
        decreases v@.len() - i,
    {
        if v[i] == '.' {
            proof {
                lemma_first_dot_at(v@, i as int);
            }
            return Some(i);
        }
        i = i + 1;
    }
    proof {
        lemma_first_dot_none(v@);
    }
    None
}

fn check_digits(v: &Vec<char>) -> (r: bool)
    ensures
        r == all_digits(v@),
{
    let mut i: usize = 0;
    while i < v.len()
        invariant
            i <= v@.len(),
            forall|k: int| 0 <= k < i ==> is_digit_char(#[trigger] v@[k]),
        decreases v@.len() - i,
    {
        let u = v[i] as u32;
        if !(48 <= u && u <= 57) {
            return false;
        }
        i = i + 1;
    }
    true
}

fn pow10_exec(k: usize) -> (r: u64)
    requires
        k <= 6,
    ensures
        r as int == pow10(k as nat),
        1 <= r <= 1000000,
{
    proof {
        reveal_with_fuel(pow10, 8);
    }
    if k == 0 {
        1
    } else if k == 1 {
        10
    } else if k == 2 {
        100
    } else if k == 3 {
        1000
    } else if k == 4 {
        10000
    } else if k == 5 {
        100000
    } else {
        1000000
    }
}

/// The magnitude body of a decimal, as a count of millionths.
fn parse_mag(v: &Vec<char>) -> (r: Option<u64>)
    ensures
        ({
            match parse_fixed_mag(v@) {
                Some(m) => 0 <= m <= 0x7fff_ffff_ffff_ffff && r == Some(m as u64),
                None => r is None,
            }
        }),
{
    let n = v.len();
    proof {
        assert(v@.skip(0) =~= v@);
    }
    match find_dot(v) {
        None => {
            if n == 0 {
                return None;
            }
            match crate::numbers::parse_digits(v, 0, 9223372036854) {
                Some(x) => {
                    proof {
                        crate::numbers::lemma_digits_val_nonneg(v@);
                    }
                    Some((x as u64) * 1000000)
                },
                None => {
                    proof {
                        if v@.len() >= 1 && all_digits(v@) {
                            crate::numbers::lemma_digits_val_nonneg(v@);
                            assert(digits_val(v@) > 9223372036854);
                        }
                    }
                    None
                },
            }
        },
        Some(d) => {
            let ip = subvec(v, 0, d);
            let fp = subvec(v, d + 1, n);
            let ghost sip = v@.take(first_dot(v@));
            let ghost sfp = v@.skip(first_dot(v@) + 1);
            proof {
                assert(ip@ =~= sip);
                assert(fp@ =~= sfp);
            }
            if ip.len() == 0 && fp.len() == 0 {
                return None;
            }
            if fp.len() > 6 {
                return None;
            }
            if !check_digits(&ip) {
                return None;
            }
            if !check_digits(&fp) {
                return None;
            }
            proof {
                assert(ip@.skip(0) =~= ip@);
                assert(fp@.skip(0) =~= fp@);
                crate::numbers::lemma_digits_val_nonneg(ip@);
                crate::numbers::lemma_digits_val_nonneg(fp@);
                lemma_digits_val_bound(fp@);
                reveal_with_fuel(pow10, 8);
                assert(pow10(fp@.len()) <= 1000000) by {
                    if fp@.len() == 0 {
                    } else if fp@.len() == 1 {
                    } else if fp@.len() == 2 {
                    } else if fp@.len() == 3 {
                    } else if fp@.len() == 4 {
                    } else if fp@.len() == 5 {
                    } else {
                        assert(fp@.len() == 6);
                    }
                }
            }
            let iv: u64;
            if ip.len() == 0 {
                iv = 0;
            } else {
                match crate::numbers::parse_digits(&ip, 0, 9223372036854) {
                    Some(x) => {
                        iv = x as u64;
                    },
                    None => {
                        proof {
                            assert(digits_val(ip@) > 9223372036854);
                            assert(digits_val(ip@) * 1000000 >= 9223372036855 * 1000000) by (
                            nonlinear_arith)
                                requires
                                    digits_val(ip@) >= 9223372036855,
                            ;
                            assert(digits_val(fp@) * pow10((6 - fp@.len()) as nat) >= 0) by (
                            nonlinear_arith)
                                requires
                                    digits_val(fp@) >= 0,
                                    pow10((6 - fp@.len()) as nat) >= 1,
                            ;
                            assert(pow10((6 - fp@.len()) as nat) >= 1) by {
                                reveal_with_fuel(pow10, 8);
                            }
                        }
                        return None;
                    },
                }
            }
            let fv: u64;
            if fp.len() == 0 {
                fv = 0;
            } else {
                match crate::numbers::parse_digits(&fp, 0, 999999) {
                    Some(x) => {
                        fv = x as u64;
                    },
                    None => {
                        proof {
                            assert(digits_val(fp@) < pow10(fp@.len()));
                            assert(false);
                        }
                        return None;
                    },
                }
            }
            let p = pow10_exec(6 - fp.len());
            proof {
                assert(iv <= 9223372036854);
                assert(fv <= 999999);
                assert((fv as int) * (p as int) <= 999999 * 1000000) by (nonlinear_arith)
                    requires
                        0 <= fv <= 999999,
                        0 <= p <= 1000000,
                ;
            }
            let total: u128 = (iv as u128) * 1000000 + (fv as u128) * (p as u128);
            proof {
                assert(total == digits_val(ip@) * 1000000 + digits_val(fp@) * pow10(
                    (6 - fp@.len()) as nat,
                ));
            }
            if total <= 0x7fff_ffff_ffff_ffff {
                Some(total as u64)
            } else {
                None
            }
        },
    }
}

/// Reads a decimal number: optional sign, digits, at most one point, at most
/// six fraction digits.
pub fn parse_fixed(v: &Vec<char>) -> (r: Option<Fixed>)
    ensures
        r == parse_fixed_spec(v@),
        r is Some ==> fixed_ok(r->0),
{
    let n = v.len();
    let neg: bool;
    let start: usize;
    if n >= 1 && (v[0] == '-' || v[0] == '+') {
        neg = v[0] == '-';
        start = 1;
    } else {
        neg = false;
        start = 0;
    }
    let body = subvec(v, start, n);
    proof {
        if start == 1 {
            assert(body@ =~= v@.drop_first());
        } else {
            assert(body@ =~= v@);
        }
    }
    match parse_mag(&body) {
        Some(m) => {
            let micros: i64 = if neg {
                -(m as i64)
            } else {
                m as i64
            };
            Some(Fixed { micros })
        },
        None => None,
    }
}

/// The characters a decimal rendering can contain.
pub open spec fn is_fixed_char(c: char) -> bool {
    is_digit_char(c) || c == '-' || c == '.'
}

pub proof fn lemma_fixed_text_chars(n: Fixed)
    requires
        fixed_ok(n),
    ensures
        fixed_text_s(n).len() >= 1,
        forall|i: int| 0 <= i < fixed_text_s(n).len() ==> is_fixed_char(#[trigger] fixed_text_s(n)[i]),
{
    let u: int = if n.micros < 0 {
        -n.micros
    } else {
        n.micros as int
    };
    let q = u / 1000000;
    let f = u % 1000000;
    let it = u64_text(q);
    lemma_u64_text(q);
    let m = mag_text(u);
    if f == 0 {
        assert(m =~= it);
    } else {
        proof_frac_facts(f);
        let fr = strip_zeros(pad_text(f, 6));
        assert(m == it + (seq!['.'] + fr));
        assert forall|i: int| 0 <= i < m.len() implies is_fixed_char(#[trigger] m[i]) by {
            if i < it.len() {
                assert(m[i] == it[i]);
            } else if i == it.len() {
                assert(m[i] == '.');
            } else {
                assert(m[i] == fr[i - it.len() - 1]);
            }
        }
    }
    if n.micros < 0 {
        let s = fixed_text_s(n);
        assert(s == seq!['-'] + m);
        assert forall|i: int| 0 <= i < s.len() implies is_fixed_char(#[trigger] s[i]) by {
            if i == 0 {
                assert(s[i] == '-');
            } else {
                assert(s[i] == m[i - 1]);
            }
        }
    }
}

proof fn proof_frac_facts(f: int)
    requires
        0 < f < 1000000,
    ensures
        pad_text(f, 6).len() == 6,
        all_digits(pad_text(f, 6)),
        digits_val(pad_text(f, 6)) == f,
        all_digits(strip_zeros(pad_text(f, 6))),
        1 <= strip_zeros(pad_text(f, 6)).len() <= 6,
        digits_val(strip_zeros(pad_text(f, 6))) * pow10(
            (6 - strip_zeros(pad_text(f, 6)).len()) as nat,
        ) == f,
{
    assert(pow10(6) == 1000000) by {
        reveal_with_fuel(pow10, 8);
    }
    lemma_pad_text(f, 6);
    lemma_strip_zeros(pad_text(f, 6));
}

/// Rendering a number and reading it back recovers it exactly.
pub proof fn lemma_parse_fixed_text(n: Fixed)
    requires
        fixed_ok(n),
    ensures
        parse_fixed_spec(fixed_text_s(n)) == Some(n),
{
    let s = fixed_text_s(n);
    let u: int = if n.micros < 0 {
        -n.micros
    } else {
        n.micros as int
    };
    let q = u / 1000000;
    let f = u % 1000000;
    let it = u64_text(q);
    lemma_u64_text(q);
    let m = mag_text(u);
    assert(u == 1000000 * q + f);
    assert(u <= 0x7fff_ffff_ffff_ffff);
    if f == 0 {
        assert(m =~= it);
        assert forall|k: int| 0 <= k < m.len() implies m[k] != '.' by {
            assert(is_digit_char(m[k]));
        }
        lemma_first_dot_none(m);
        assert(parse_fixed_mag(m) == Some(q * 1000000));
        assert(q * 1000000 == u);
    } else {
        proof_frac_facts(f);
        let fr = strip_zeros(pad_text(f, 6));
        assert(m == it + (seq!['.'] + fr));
        let d = it.len() as int;
        assert(m[d] == '.');
        assert forall|k: int| 0 <= k < d implies m[k] != '.' by {
            assert(m[k] == it[k]);
            assert(is_digit_char(it[k]));
        }
        lemma_first_dot_at(m, d);
        assert(m.take(d) =~= it);
        assert(m.skip(d + 1) =~= fr);
        assert(digits_val(it) * 1000000 + digits_val(fr) * pow10((6 - fr.len()) as nat) == u);
        assert(parse_fixed_mag(m) == Some(u));
    }
    if n.micros < 0 {
        assert(s == seq!['-'] + m);
        assert(s[0] == '-');
        assert(s.drop_first() =~= m);
        assert(parse_fixed_spec(s) == Some(Fixed { micros: (-u) as i64 }));
        assert((-u) as i64 == n.micros);
    } else {
        assert(s == m);
        assert(s.len() >= 1);
        assert(s[0] == it[0]);
        assert(is_digit_char(s[0]));
        assert(s[0] != '-' && s[0] != '+');
        assert(parse_fixed_spec(s) == Some(Fixed { micros: u as i64 }));
        assert(u as i64 == n.micros);
    }
}

} // verus!
