//! Character-sequence utilities shared by the attribute parsers.
//!
//! All parsing logic works over `Vec<char>` so that every step is plain,
//! verifiable data manipulation; `chars_of` bridges from `&str`.

use vstd::prelude::*;
use vstd::string::StrSliceExecFns;

verus! {

/// The view of each element of a sequence of character vectors.
pub open spec fn views_of(s: Seq<Vec<char>>) -> Seq<Seq<char>> {
    s.map_values(|v: Vec<char>| v@)
}

/// ASCII whitespace, the token separator of the attribute mini-language.
pub open spec fn is_space_char(c: char) -> bool {
    c == ' ' || c == '\t' || c == '\n' || c == '\r' || c == '\x0c'
}

pub fn is_space(c: char) -> (r: bool)
    ensures
        r == is_space_char(c),
{
    c == ' ' || c == '\t' || c == '\n' || c == '\r' || c == '\x0c'
}

pub fn chars_of(s: &str) -> (v: Vec<char>)
    ensures
        v@ == s@,
{
    let n = s.unicode_len();
    let mut v: Vec<char> = Vec::new();
    let mut i: usize = 0;
    while i < n
        invariant
            i <= n,
            n == s@.len(),
            v@ == s@.subrange(0, i as int),
        decreases n - i,
    {
        v.push(s.get_char(i));
        proof {
            assert(v@ =~= s@.subrange(0, i + 1 as int));
        }
        i = i + 1;
    }
    proof {
        assert(v@ =~= s@);
    }
    v
}

/// Equality of a character vector against a string slice (used with literals).
pub fn chars_eq_str(v: &Vec<char>, s: &str) -> (r: bool)
    ensures
        r == (v@ == s@),
{
    let w = chars_of(s);
    chars_eq(v, &w)
}

pub fn chars_eq(a: &Vec<char>, b: &Vec<char>) -> (r: bool)
    ensures
        r == (a@ == b@),
{
    if a.len() != b.len() {
        return false;
    }
    let mut i: usize = 0;
    while i < a.len()
        invariant
            i <= a.len(),
            a.len() == b.len(),
            forall|k: int| 0 <= k < i ==> a@[k] == b@[k],
        decreases a.len() - i,
    {
        if a[i] != b[i] {
            return false;
        }
        i = i + 1;
    }
    proof {
        assert(a@ =~= b@);
    }
    true
}

pub fn str_eq(a: &str, b: &str) -> (r: bool)
    ensures
        r == (a@ == b@),
{
    let v = chars_of(a);
    chars_eq_str(&v, b)
}

/// Copy of the characters in positions `[from, to)`.
pub fn subvec(v: &Vec<char>, from: usize, to: usize) -> (r: Vec<char>)
    requires
        from <= to <= v@.len(),
    ensures
        r@ == v@.subrange(from as int, to as int),
{
    let mut r: Vec<char> = Vec::new();
    let mut i: usize = from;
    while i < to
        invariant
            from <= i <= to <= v@.len(),
            r@ == v@.subrange(from as int, i as int),
        decreases to - i,
    {
        r.push(v[i]);
        proof {
            assert(r@ =~= v@.subrange(from as int, i + 1 as int));
        }
        i = i + 1;
    }
    r
}

pub open spec fn has_char(s: Seq<char>, c: char) -> bool {
    exists|i: int| 0 <= i < s.len() && s[i] == c
}

pub fn contains_char(v: &Vec<char>, c: char) -> (r: bool)
    ensures
        r == has_char(v@, c),
{
    let mut i: usize = 0;
    while i < v.len()
        invariant
            i <= v@.len(),
            forall|k: int| 0 <= k < i ==> v@[k] != c,
        decreases v@.len() - i,
    {
        if v[i] == c {
            return true;
        }
        i = i + 1;
    }
    false
}

pub open spec fn has_sub(s: Seq<char>, p: Seq<char>) -> bool {
    exists|i: int| 0 <= i <= s.len() - p.len() && #[trigger] s.subrange(i, i + p.len()) == p
}

fn matches_at(v: &Vec<char>, p: &Vec<char>, at: usize) -> (r: bool)
    requires
        at + p@.len() <= v@.len(),
    ensures
        r == (v@.subrange(at as int, at + p@.len()) == p@),
{
    let n = v.len();
    let m = p.len();
    let mut i: usize = 0;
    while i < m
        invariant
            i <= m,
            m == p@.len(),
            n == v@.len(),
            at + m <= n,
            forall|k: int| 0 <= k < i ==> v@[at + k] == p@[k],
        decreases m - i,
    {
        if v[at + i] != p[i] {
            proof {
                assert(v@.subrange(at as int, at + p@.len())[i as int] != p@[i as int]);
            }
            return false;
        }
        i = i + 1;
    }
    proof {
        assert(v@.subrange(at as int, at + p@.len()) =~= p@);
    }
    true
}

pub fn contains_sub(v: &Vec<char>, p: &Vec<char>) -> (r: bool)
    ensures
        r == has_sub(v@, p@),
{
    if p.len() == 0 {
        proof {
            assert(v@.subrange(0, 0 + p@.len() as int) =~= p@);
        }
        return true;
    }
    if p.len() > v.len() {
        proof {
            assert(!has_sub(v@, p@));
        }
        return false;
    }
    let n = v.len();
    let last = n - p.len();
    let mut i: usize = 0;
    while i <= last
        invariant
            i <= last + 1,
            n == v@.len(),
            last == v@.len() - p@.len(),
            1 <= p@.len() <= v@.len(),
            forall|k: int| 0 <= k < i ==> #[trigger] v@.subrange(k, k + p@.len()) != p@,
        decreases last + 1 - i,
    {
        if matches_at(v, p, i) {
            return true;
        }
        i = i + 1;
    }
    false
}

/// `s` with every occurrence of the character `c` removed.
pub open spec fn sans_char(s: Seq<char>, c: char) -> Seq<char>
    decreases s.len(),
{
    if s.len() == 0 {
        Seq::empty()
    } else if s[0] == c {
        sans_char(s.drop_first(), c)
    } else {
        seq![s[0]] + sans_char(s.drop_first(), c)
    }
}

pub fn remove_char(v: &Vec<char>, c: char) -> (r: Vec<char>)
    ensures
        r@ == sans_char(v@, c),
{
    let mut r: Vec<char> = Vec::new();
    let mut i: usize = 0;
    proof {
        assert(v@.skip(0) =~= v@);
        assert(Seq::<char>::empty() + sans_char(v@, c) =~= sans_char(v@, c));
    }
    while i < v.len()
        invariant
            i <= v@.len(),
            r@ + sans_char(v@.skip(i as int), c) == sans_char(v@, c),
        decreases v@.len() - i,
    {
        proof {
            assert(v@.skip(i as int).len() > 0);
            assert(v@.skip(i as int)[0] == v@[i as int]);
            assert(v@.skip(i as int).drop_first() =~= v@.skip(i + 1 as int));
        }
        if v[i] != c {
            let ghost prev = r@;
            r.push(v[i]);
            proof {
                assert(r@ =~= prev + seq![v@[i as int]]);
                assert((prev + seq![v@[i as int]]) + sans_char(v@.skip(i + 1 as int), c) =~= prev
                    + (seq![v@[i as int]] + sans_char(v@.skip(i + 1 as int), c)));
            }
        }
        i = i + 1;
    }
    proof {
        assert(v@.skip(v@.len() as int) =~= Seq::<char>::empty());
        assert(r@ =~= r@ + Seq::<char>::empty());
    }
    r
}

/// Removing a character that does not occur leaves the sequence unchanged.
pub proof fn lemma_sans_char_absent(s: Seq<char>, c: char)
    requires
        !has_char(s, c),
    ensures
        sans_char(s, c) == s,
    decreases s.len(),
{
    if s.len() > 0 {
        assert(s[0] != c);
        let t = s.drop_first();
        assert(forall|k: int| 0 <= k < t.len() ==> #[trigger] t[k] == s[k + 1]);
        lemma_sans_char_absent(t, c);
        assert(seq![s[0]] + t =~= s);
    }
}

pub proof fn lemma_sans_char_concat(a: Seq<char>, b: Seq<char>, c: char)
    ensures
        sans_char(a + b, c) == sans_char(a, c) + sans_char(b, c),
    decreases a.len(),
{
    if a.len() == 0 {
        assert(a + b =~= b);
        assert(sans_char(a, c) =~= Seq::<char>::empty());
        assert(Seq::<char>::empty() + sans_char(b, c) =~= sans_char(b, c));
    } else {
        let s = a + b;
        assert(s.len() > 0);
        assert(s[0] == a[0]);
        assert(s.drop_first() =~= a.drop_first() + b);
        lemma_sans_char_concat(a.drop_first(), b, c);
        if a[0] == c {
        } else {
            assert(seq![s[0]] + (sans_char(a.drop_first(), c) + sans_char(b, c)) =~= (seq![a[0]]
                + sans_char(a.drop_first(), c)) + sans_char(b, c));
        }
    }
}

/// Index of the first occurrence of `c` in `s`, or `-1`.
pub open spec fn first_at(s: Seq<char>, c: char) -> int
    decreases s.len(),
{
    if s.len() == 0 {
        -1
    } else if s[0] == c {
        0
    } else {
        let r = first_at(s.drop_first(), c);
        if r < 0 {
            -1
        } else {
            r + 1
        }
    }
}

pub proof fn lemma_first_at_is(s: Seq<char>, c: char, d: int)
    requires
        0 <= d < s.len(),
        s[d] == c,
        forall|k: int| 0 <= k < d ==> s[k] != c,
    ensures
        first_at(s, c) == d,
    decreases d,
{
    if d > 0 {
        let t = s.drop_first();
        assert(forall|k: int| 0 <= k < t.len() ==> #[trigger] t[k] == s[k + 1]);
        lemma_first_at_is(t, c, d - 1);
    }
}

pub proof fn lemma_first_at_none(s: Seq<char>, c: char)
    requires
        forall|k: int| 0 <= k < s.len() ==> s[k] != c,
    ensures
        first_at(s, c) == -1,
    decreases s.len(),
{
    if s.len() > 0 {
        let t = s.drop_first();
        assert(forall|k: int| 0 <= k < t.len() ==> #[trigger] t[k] == s[k + 1]);
        lemma_first_at_none(t, c);
    }
}

/// Position of the first occurrence of `c`, if any.
pub fn find_at(v: &Vec<char>, c: char) -> (r: Option<usize>)
    ensures
        match r {
            Some(i) => i < v@.len() && first_at(v@, c) == i,
            None => first_at(v@, c) == -1,
        },
{
    let mut i: usize = 0;
    while i < v.len()
        invariant
            i <= v@.len(),
            forall|k: int| 0 <= k < i ==> v@[k] != c,
        decreases v@.len() - i,
    {
        if v[i] == c {
            proof {
                lemma_first_at_is(v@, c, i as int);
            }
            return Some(i);
        }
        i = i + 1;
    }
    proof {
        lemma_first_at_none(v@, c);
    }
    None
}

/// `s` with every left-to-right occurrence of the pattern `p` removed.
pub open spec fn sans_sub(s: Seq<char>, p: Seq<char>) -> Seq<char>
    decreases s.len(),
    when p.len() >= 1
{
    if s.len() == 0 {
        Seq::empty()
    } else if s.len() >= p.len() && s.subrange(0, p.len() as int) == p {
        sans_sub(s.skip(p.len() as int), p)
    } else {
        seq![s[0]] + sans_sub(s.drop_first(), p)
    }
}

pub fn remove_sub(v: &Vec<char>, p: &Vec<char>) -> (r: Vec<char>)
    requires
        p@.len() >= 1,
    ensures
        r@ == sans_sub(v@, p@),
{
    let mut r: Vec<char> = Vec::new();
    let mut i: usize = 0;
    proof {
        assert(v@.skip(0) =~= v@);
        assert(Seq::<char>::empty() + sans_sub(v@, p@) =~= sans_sub(v@, p@));
    }
    while i < v.len()
        invariant
            i <= v@.len(),
            p@.len() >= 1,
            r@ + sans_sub(v@.skip(i as int), p@) == sans_sub(v@, p@),
        decreases v@.len() - i,
    {
        proof {
            assert(v@.skip(i as int).len() > 0);
            assert(v@.skip(i as int)[0] == v@[i as int]);
            assert(v@.skip(i as int).drop_first() =~= v@.skip(i + 1 as int));
        }
        if v.len() - i >= p.len() && matches_at(v, p, i) {
            proof {
                assert(v@.skip(i as int).subrange(0, p@.len() as int) =~= v@.subrange(
                    i as int,
                    i + p@.len(),
                ));
                assert(v@.skip(i as int).skip(p@.len() as int) =~= v@.skip(i + p@.len()));
            }
            i = i + p.len();
        } else {
            proof {
                if v@.skip(i as int).len() >= p@.len() {
                    assert(v@.skip(i as int).subrange(0, p@.len() as int) =~= v@.subrange(
                        i as int,
                        i + p@.len(),
                    ));
                }
            }
            let ghost prev = r@;
            r.push(v[i]);
            proof {
                assert(r@ =~= prev + seq![v@[i as int]]);
                assert((prev + seq![v@[i as int]]) + sans_sub(v@.skip(i + 1 as int), p@) =~= prev
                    + (seq![v@[i as int]] + sans_sub(v@.skip(i + 1 as int), p@)));
            }
            i = i + 1;
        }
    }
    proof {
        assert(v@.skip(v@.len() as int) =~= Seq::<char>::empty());
        assert(r@ =~= r@ + Seq::<char>::empty());
    }
    r
}

/// Length of the leading run of non-whitespace characters.
pub open spec fn word_len(s: Seq<char>) -> nat
    decreases s.len(),
{
    if s.len() == 0 || is_space_char(s[0]) {
        0
    } else {
        1 + word_len(s.drop_first())
    }
}

pub proof fn lemma_word_len_le(s: Seq<char>)
    ensures
        word_len(s) <= s.len(),
    decreases s.len(),
{
    if s.len() > 0 && !is_space_char(s[0]) {
        lemma_word_len_le(s.drop_first());
    }
}

/// If the first `m` characters are non-whitespace and position `m` is the end
/// or whitespace, the leading word is exactly `m` characters long.
pub proof fn lemma_word_len_exact(s: Seq<char>, m: nat)
    requires
        m <= s.len(),
        forall|k: int| 0 <= k < m ==> !is_space_char(#[trigger] s[k]),
        m == s.len() || is_space_char(s[m as int]),
    ensures
        word_len(s) == m,
    decreases m,
{
    if m == 0 {
    } else {
        let t = s.drop_first();
        assert(forall|k: int| 0 <= k < m - 1 ==> #[trigger] t[k] == s[k + 1]);
        lemma_word_len_exact(t, (m - 1) as nat);
    }
}

/// Whitespace-separated tokens of `s`, in order, without the separators.
pub open spec fn tokens(s: Seq<char>) -> Seq<Seq<char>>
    decreases s.len(),
    via tokens_decreases
{
    if s.len() == 0 {
        Seq::empty()
    } else if is_space_char(s[0]) {
        tokens(s.drop_first())
    } else {
        seq![s.take(word_len(s) as int)] + tokens(s.skip(word_len(s) as int))
    }
}

#[via_fn]
proof fn tokens_decreases(s: Seq<char>) {
    if s.len() > 0 && !is_space_char(s[0]) {
        lemma_word_len_le(s);
    }
}

pub fn tokenize(v: &Vec<char>) -> (r: Vec<Vec<char>>)
    ensures
        views_of(r@) == tokens(v@),
{
    let n = v.len();
    let mut out: Vec<Vec<char>> = Vec::new();
    let mut i: usize = 0;
    proof {
        assert(v@.skip(0) =~= v@);
        assert(views_of(out@) =~= Seq::<Seq<char>>::empty());
        assert(Seq::<Seq<char>>::empty() + tokens(v@) =~= tokens(v@));
    }
    while i < n
        invariant
            i <= n,
            n == v@.len(),
            views_of(out@) + tokens(v@.skip(i as int)) == tokens(v@),
        decreases n - i,
    {
        proof {
            assert(v@.skip(i as int).len() > 0);
            assert(v@.skip(i as int)[0] == v@[i as int]);
            assert(v@.skip(i as int).drop_first() =~= v@.skip(i + 1 as int));
        }
        if is_space(v[i]) {
            i = i + 1;
        } else {
            let mut j: usize = i + 1;
            while j < n && !is_space(v[j])
                invariant
                    i < j <= n,
                    n == v@.len(),
                    forall|k: int| i <= k < j ==> !is_space_char(#[trigger] v@[k]),
                decreases n - j,
            {
                j = j + 1;
            }
            let ghost s_i = v@.skip(i as int);
            proof {
                assert(forall|k: int| 0 <= k < j - i ==> #[trigger] s_i[k] == v@[k + i]);
                if j < n {
                    assert(s_i[j - i] == v@[j as int]);
                }
                lemma_word_len_exact(s_i, (j - i) as nat);
                assert(s_i.take(j - i) =~= v@.subrange(i as int, j as int));
                assert(s_i.skip(j - i) =~= v@.skip(j as int));
            }
            let w = subvec(v, i, j);
            let ghost prev = out@;
            out.push(w);
            proof {
                assert(views_of(out@) =~= views_of(prev).push(w@));
                assert(views_of(prev).push(w@) =~= views_of(prev) + seq![w@]);
                assert((views_of(prev) + seq![w@]) + tokens(v@.skip(j as int)) =~= views_of(prev)
                    + (seq![w@] + tokens(v@.skip(j as int))));
            }
            i = j;
        }
    }
    proof {
        assert(v@.skip(n as int) =~= Seq::<char>::empty());
        assert(views_of(out@) =~= views_of(out@) + Seq::<Seq<char>>::empty());
    }
    out
}

/// The parts joined with the separator between each adjacent pair.
pub open spec fn joined(parts: Seq<Seq<char>>, sep: Seq<char>) -> Seq<char>
    decreases parts.len(),
{
    if parts.len() == 0 {
        Seq::empty()
    } else if parts.len() == 1 {
        parts[0]
    } else {
        parts[0] + sep + joined(parts.drop_first(), sep)
    }
}

pub proof fn lemma_joined_push(parts: Seq<Seq<char>>, t: Seq<char>, sep: Seq<char>)
    ensures
        joined(parts.push(t), sep) == if parts.len() == 0 {
            t
        } else {
            joined(parts, sep) + sep + t
        },
    decreases parts.len(),
{
    let whole = parts.push(t);
    if parts.len() == 0 {
        assert(whole.len() == 1);
        assert(whole[0] == t);
    } else if parts.len() == 1 {
        assert(whole.len() == 2);
        assert(whole[0] == parts[0]);
        assert(whole.drop_first() =~= seq![t]);
        assert(joined(seq![t], sep) == t);
        assert(joined(whole, sep) == parts[0] + sep + t);
        assert(joined(parts, sep) == parts[0]);
    } else {
        assert(whole.drop_first() =~= parts.drop_first().push(t));
        lemma_joined_push(parts.drop_first(), t, sep);
        assert(whole[0] == parts[0]);
        assert(joined(whole, sep) == parts[0] + sep + (joined(parts.drop_first(), sep) + sep + t));
        assert(parts[0] + sep + (joined(parts.drop_first(), sep) + sep + t) =~= (parts[0] + sep
            + joined(parts.drop_first(), sep)) + sep + t);
    }
}

/// A token: non-empty and free of whitespace.
pub open spec fn is_word(w: Seq<char>) -> bool {
    w.len() >= 1 && forall|k: int| 0 <= k < w.len() ==> !is_space_char(#[trigger] w[k])
}

/// Tokenizing undoes joining with a single space, for genuine tokens.
pub proof fn lemma_tokens_of_joined(parts: Seq<Seq<char>>)
    requires
        forall|i: int| 0 <= i < parts.len() ==> is_word(#[trigger] parts[i]),
    ensures
        tokens(joined(parts, seq![' '])) == parts,
    decreases parts.len(),
{
    let sep = seq![' '];
    let s = joined(parts, sep);
    if parts.len() == 0 {
        assert(tokens(s) =~= parts);
    } else if parts.len() == 1 {
        assert(s == parts[0]);
        assert(is_word(parts[0]));
        lemma_word_len_exact(s, s.len());
        assert(s.take(s.len() as int) =~= s);
        assert(s.skip(s.len() as int) =~= Seq::<char>::empty());
        assert(tokens(Seq::<char>::empty()) =~= Seq::<Seq<char>>::empty());
        assert(tokens(s) == seq![s] + Seq::<Seq<char>>::empty());
        assert(seq![s] + Seq::<Seq<char>>::empty() =~= parts);
    } else {
        let head = parts[0];
        let rest = parts.drop_first();
        let tail = joined(rest, sep);
        assert(s == head + sep + tail);
        let m = head.len();
        assert(forall|k: int| 0 <= k < m ==> #[trigger] s[k] == head[k]);
        assert(s[m as int] == ' ');
        lemma_word_len_exact(s, m);
        assert(s.take(m as int) =~= head);
        let after = s.skip(m as int);
        assert(after.len() > 0);
        assert(after[0] == ' ');
        assert(after.drop_first() =~= tail);
        assert(forall|i: int| 0 <= i < rest.len() ==> #[trigger] rest[i] == parts[i + 1]);
        lemma_tokens_of_joined(rest);
        assert(tokens(after) == tokens(tail));
        assert(tokens(s) == seq![s.take(m as int)] + tokens(after));
        assert(tokens(s) == seq![head] + rest);
        assert(seq![head] + rest =~= parts);
    }
}

/// Relies on `String::from_iter` over `char`: the collected string holds
/// exactly the given characters in order.
#[verifier::external_body]
pub(crate) fn chars_to_string(v: &Vec<char>) -> (r: String)
    ensures
        r@ == v@,
{
    v.iter().collect()
}

pub open spec fn trim_front_s(s: Seq<char>) -> Seq<char>
    decreases s.len(),
{
    if s.len() > 0 && is_space_char(s[0]) {
        trim_front_s(s.drop_first())
    } else {
        s
    }
}

pub open spec fn trim_back_s(s: Seq<char>) -> Seq<char>
    decreases s.len(),
{
    if s.len() > 0 && is_space_char(s.last()) {
        trim_back_s(s.drop_last())
    } else {
        s
    }
}

/// `s` without leading and trailing whitespace.
pub open spec fn trimmed(s: Seq<char>) -> Seq<char> {
    trim_back_s(trim_front_s(s))
}

pub fn trim(v: &Vec<char>) -> (r: Vec<char>)
    ensures
        r@ == trimmed(v@),
{
    let n = v.len();
    let mut a: usize = 0;
    proof {
        assert(v@.skip(0) =~= v@);
    }
    while a < n && is_space(v[a])
        invariant
            a <= n,
            n == v@.len(),
            trim_front_s(v@.skip(a as int)) == trim_front_s(v@),
        decreases n - a,
    {
        proof {
            assert(v@.skip(a as int).len() > 0);
            assert(v@.skip(a as int)[0] == v@[a as int]);
            assert(v@.skip(a as int).drop_first() =~= v@.skip(a + 1 as int));
        }
        a = a + 1;
    }
    let ghost s1 = v@.skip(a as int);
    proof {
        if a < n {
            assert(s1[0] == v@[a as int]);
        } else {
            assert(s1 =~= Seq::<char>::empty());
        }
        assert(trim_front_s(s1) == s1);
        assert(s1.take((n - a) as int) =~= s1);
    }
    let mut b: usize = n;
    while b > a && is_space(v[b - 1])
        invariant
            a <= b <= n,
            n == v@.len(),
            s1 == v@.skip(a as int),
            trim_back_s(s1.take((b - a) as int)) == trim_back_s(s1),
        decreases b,
    {
        proof {
            let t = s1.take((b - a) as int);
            assert(t.len() > 0);
            assert(t.last() == v@[b - 1]);
            assert(t.drop_last() =~= s1.take((b - 1 - a) as int));
        }
        b = b - 1;
    }
    proof {
        let t = s1.take((b - a) as int);
        if b > a {
            assert(t.last() == v@[b - 1]);
            assert(!is_space_char(t.last()));
        } else {
            assert(t =~= Seq::<char>::empty());
        }
        assert(trim_back_s(t) == t);
        assert(s1.take((b - a) as int) =~= v@.subrange(a as int, b as int));
    }
    subvec(v, a, b)
}

} // verus!
