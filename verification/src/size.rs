//! The size attribute grammar: `auto`, `stretch`, `N%`, a bare number, or a
//! whitespace-separated `calc(...)` expression, together with the inverse
//! rendering and its round-trip law.

use vstd::prelude::*;
use crate::fixed::{
    Fixed, fixed_ok, fixed_text_s, fixed_to_chars, is_fixed_char, lemma_fixed_text_chars,
    lemma_parse_fixed_text, parse_fixed, parse_fixed_spec,
};
use crate::node::{attr_text, Attribute, DirtyNodes, NodeView, StateError};
use crate::numbers::is_digit_char;
use crate::text::{
    str_eq,
    chars_eq_str, chars_of, chars_to_string, contains_char, contains_sub, has_char, has_sub,
    is_space_char, is_word, joined, lemma_joined_push, lemma_sans_char_absent,
    lemma_sans_char_concat, lemma_tokens_of_joined, remove_char, sans_char, subvec, tokenize,
    tokens, views_of,
};
use vstd::string::StrSliceExecFns;

verus! {

/// One token of a calculation: an operator or an operand.
#[derive(Clone, Copy, PartialEq, Eq, Structural, Debug)]
pub enum CalcType {
    Sub,
    Mul,
    Div,
    Add,
    Percentage(Fixed),
    Manual(Fixed),
}

/// How one axis's length is derived.
#[derive(Clone, PartialEq, Eq, Debug)]
pub enum SizeMode {
    Auto,
    Calculation(Vec<CalcType>),
    Percentage(Fixed),
    Manual(Fixed),
}

/// The mathematical value of a `SizeMode`.
pub enum SizeModeV {
    Auto,
    Calculation(Seq<CalcType>),
    Percentage(Fixed),
    Manual(Fixed),
}

impl View for SizeMode {
    type V = SizeModeV;

    open spec fn view(&self) -> SizeModeV {
        match self {
            SizeMode::Auto => SizeModeV::Auto,
            SizeMode::Calculation(c) => SizeModeV::Calculation(c@),
            SizeMode::Percentage(p) => SizeModeV::Percentage(*p),
            SizeMode::Manual(m) => SizeModeV::Manual(*m),
        }
    }
}

pub open spec fn calc_type_ok(t: CalcType) -> bool {
    match t {
        CalcType::Percentage(p) => fixed_ok(p),
        CalcType::Manual(m) => fixed_ok(m),
        _ => true,
    }
}

pub open spec fn calc_seq_ok(c: Seq<CalcType>) -> bool {
    forall|i: int| 0 <= i < c.len() ==> calc_type_ok(#[trigger] c[i])
}

pub open spec fn size_mode_v_ok(m: SizeModeV) -> bool {
    match m {
        SizeModeV::Auto => true,
        SizeModeV::Calculation(c) => calc_seq_ok(c),
        SizeModeV::Percentage(p) => fixed_ok(p),
        SizeModeV::Manual(x) => fixed_ok(x),
    }
}

/// One hundred, the percentage that `stretch` denotes.
pub open spec fn spec_hundred() -> Fixed {
    Fixed { micros: 100000000 }
}

/// What one whitespace token of a calculation denotes.
pub open spec fn calc_token_spec(w: Seq<char>) -> Option<CalcType> {
    if has_char(w, '%') {
        match parse_fixed_spec(sans_char(w, '%')) {
            Some(f) => Some(CalcType::Percentage(f)),
            None => None,
        }
    } else if w == "+"@ {
        Some(CalcType::Add)
    } else if w == "-"@ {
        Some(CalcType::Sub)
    } else if w == "/"@ {
        Some(CalcType::Div)
    } else if w == "*"@ {
        Some(CalcType::Mul)
    } else {
        match parse_fixed_spec(w) {
            Some(f) => Some(CalcType::Manual(f)),
            None => None,
        }
    }
}

pub open spec fn calc_tokens_spec(ts: Seq<Seq<char>>) -> Option<Seq<CalcType>>
    decreases ts.len(),
{
    if ts.len() == 0 {
        Some(Seq::empty())
    } else {
        match calc_token_spec(ts[0]) {
            None => None,
            Some(t) => match calc_tokens_spec(ts.drop_first()) {
                None => None,
                Some(r) => Some(seq![t] + r),
            },
        }
    }
}

/// What `parse_calc` yields: the exact `calc( ... )` wrapper around
/// whitespace-separated tokens, all of which must be meaningful.
pub open spec fn parse_calc_spec(s: Seq<char>) -> Option<Seq<CalcType>> {
    if s.len() >= 6 && s.take(5) == "calc("@ && s.last() == ')' {
        calc_tokens_spec(tokens(s.subrange(5, s.len() - 1)))
    } else {
        None
    }
}

/// What `parse_size` yields.
pub open spec fn parse_size_spec(s: Seq<char>) -> Option<SizeModeV> {
    if s == "stretch"@ {
        Some(SizeModeV::Percentage(spec_hundred()))
    } else if s == "auto"@ {
        Some(SizeModeV::Auto)
    } else if has_sub(s, "calc"@) {
        match parse_calc_spec(s) {
            Some(c) => Some(SizeModeV::Calculation(c)),
            None => None,
        }
    } else if has_char(s, '%') {
        match parse_fixed_spec(sans_char(s, '%')) {
            Some(f) => Some(SizeModeV::Percentage(f)),
            None => None,
        }
    } else {
        match parse_fixed_spec(s) {
            Some(f) => Some(SizeModeV::Manual(f)),
            None => None,
        }
    }
}

fn parse_calc_token(w: &Vec<char>) -> (r: Option<CalcType>)
    ensures
        r == calc_token_spec(w@),
{
    if contains_char(w, '%') {
        match parse_fixed(&remove_char(w, '%')) {
            Some(f) => Some(CalcType::Percentage(f)),
            None => None,
        }
    } else if chars_eq_str(w, "+") {
        Some(CalcType::Add)
    } else if chars_eq_str(w, "-") {
        Some(CalcType::Sub)
    } else if chars_eq_str(w, "/") {
        Some(CalcType::Div)
    } else if chars_eq_str(w, "*") {
        Some(CalcType::Mul)
    } else {
        match parse_fixed(w) {
            Some(f) => Some(CalcType::Manual(f)),
            None => None,
        }
    }
}

/// Reads a whitespace-separated calculation wrapped in `calc( ... )`; any
/// token that is not an operator or a number fails the whole parse.
pub fn parse_calc(size: &str) -> (r: Option<Vec<CalcType>>)
    ensures
        match parse_calc_spec(size@) {
            Some(c) => r is Some && r->0@ == c,
            None => r is None,
        },
{
    let cs = chars_of(size);
    let n = cs.len();
    if n < 6 {
        return None;
    }
    let head = subvec(&cs, 0, 5);
    proof {
        assert(head@ =~= cs@.take(5));
    }
    if !chars_eq_str(&head, "calc(") {
        return None;
    }
    if cs[n - 1] != ')' {
        return None;
    }
    let inner = subvec(&cs, 5, n - 1);
    proof {
        assert(inner@ =~= cs@.subrange(5, cs@.len() - 1));
    }
    let toks = tokenize(&inner);
    let ghost tvs = tokens(inner@);
    let mut out: Vec<CalcType> = Vec::new();
    let mut i: usize = 0;
    proof {
        assert(views_of(toks@).skip(0) =~= views_of(toks@));
        assert(out@ =~= Seq::<CalcType>::empty());
    }
    while i < toks.len()
        invariant
            i <= toks@.len(),
            views_of(toks@) == tvs,
            size@.len() >= 6,
            size@.take(5) == "calc("@,
            size@.last() == ')',
            tvs == tokens(size@.subrange(5, size@.len() - 1)),
            calc_tokens_spec(tvs) == match calc_tokens_spec(views_of(toks@).skip(i as int)) {
                Some(r) => Some(out@ + r),
                None => None::<Seq<CalcType>>,
            },
        decreases toks@.len() - i,
    {
        let ghost rem = views_of(toks@).skip(i as int);
        proof {
            assert(rem.len() > 0);
            assert(rem[0] == toks@[i as int]@);
            assert(rem.drop_first() =~= views_of(toks@).skip(i + 1 as int));
        }
        match parse_calc_token(&toks[i]) {
            Some(t) => {
                let ghost prev = out@;
                out.push(t);
                proof {
                    assert(out@ =~= prev + seq![t]);
                    if calc_tokens_spec(rem.drop_first()) is Some {
                        let r2 = calc_tokens_spec(rem.drop_first())->0;
                        assert((prev + seq![t]) + r2 =~= prev + (seq![t] + r2));
                    }
                }
            },
            None => {
                proof {
                    assert(calc_tokens_spec(rem) is None);
                    assert(calc_tokens_spec(tvs) is None);
                }
                return None;
            },
        }
        i = i + 1;
    }
    proof {
        assert(views_of(toks@).skip(toks@.len() as int) =~= Seq::<Seq<char>>::empty());
        assert(out@ + Seq::<CalcType>::empty() =~= out@);
    }
    Some(out)
}

/// Reads one axis size: `auto`, `stretch`, a `calc(...)` expression, a
/// percentage, or a bare number.
pub fn parse_size(size: &str) -> (r: Option<SizeMode>)
    ensures
        match parse_size_spec(size@) {
            Some(m) => r is Some && r->0@ == m,
            None => r is None,
        },
{
    let cs = chars_of(size);
    if chars_eq_str(&cs, "stretch") {
        Some(SizeMode::Percentage(Fixed { micros: 100000000 }))
    } else if chars_eq_str(&cs, "auto") {
        Some(SizeMode::Auto)
    } else {
        let pat = chars_of("calc");
        if contains_sub(&cs, &pat) {
            match parse_calc(size) {
                Some(c) => Some(SizeMode::Calculation(c)),
                None => None,
            }
        } else if contains_char(&cs, '%') {
            match parse_fixed(&remove_char(&cs, '%')) {
                Some(f) => Some(SizeMode::Percentage(f)),
                None => None,
            }
        } else {
            match parse_fixed(&cs) {
                Some(f) => Some(SizeMode::Manual(f)),
                None => None,
            }
        }
    }
}

impl CalcType {
    /// The rendering of one calculation token.
    pub open spec fn text_s(self) -> Seq<char> {
        match self {
            CalcType::Sub => "-"@,
            CalcType::Mul => "*"@,
            CalcType::Div => "/"@,
            CalcType::Add => "+"@,
            CalcType::Percentage(p) => fixed_text_s(p) + "%"@,
            CalcType::Manual(m) => fixed_text_s(m),
        }
    }

    pub fn to_text(&self) -> (r: String)
        requires
            calc_type_ok(*self),
        ensures
            r@ == self.text_s(),
    {
        match self {
            CalcType::Sub => "-".to_owned(),
            CalcType::Mul => "*".to_owned(),
            CalcType::Div => "/".to_owned(),
            CalcType::Add => "+".to_owned(),
            CalcType::Percentage(p) => chars_to_string(&fixed_to_chars(*p)).concat("%"),
            CalcType::Manual(m) => chars_to_string(&fixed_to_chars(*m)),
        }
    }
}

pub open spec fn calc_texts(c: Seq<CalcType>) -> Seq<Seq<char>> {
    c.map_values(|t: CalcType| t.text_s())
}

/// The rendering of a size mode; `parse_size` reads it back.
pub open spec fn size_mode_text(m: SizeModeV) -> Seq<char> {
    match m {
        SizeModeV::Auto => "auto"@,
        SizeModeV::Manual(x) => fixed_text_s(x),
        SizeModeV::Percentage(p) => fixed_text_s(p) + "%"@,
        SizeModeV::Calculation(c) => "calc("@ + joined(calc_texts(c), " "@) + ")"@,
    }
}

impl SizeMode {
    /// The textual rendering of this size, the inverse of `parse_size`.
    pub fn to_text(&self) -> (r: String)
        requires
            size_mode_v_ok(self@),
        ensures
            r@ == size_mode_text(self@),
    {
        match self {
            SizeMode::Auto => "auto".to_owned(),
            SizeMode::Manual(m) => chars_to_string(&fixed_to_chars(*m)),
            SizeMode::Percentage(p) => chars_to_string(&fixed_to_chars(*p)).concat("%"),
            SizeMode::Calculation(c) => {
                let ghost parts = calc_texts(c@);
                let mut s = "calc(".to_owned();
                let mut i: usize = 0;
                proof {
                    assert(self@ == SizeModeV::Calculation(c@));
                    assert(calc_seq_ok(c@));
                    assert(parts.take(0) =~= Seq::<Seq<char>>::empty());
                    assert(s@ + joined(parts.take(0), " "@) =~= s@);
                }
                while i < c.len()
                    invariant
                        i <= c@.len(),
                        parts == calc_texts(c@),
                        calc_seq_ok(c@),
                        s@ == "calc("@ + joined(parts.take(i as int), " "@),
                    decreases c@.len() - i,
                {
                    if i > 0 {
                        s.append(" ");
                    }
                    proof {
                        assert(calc_type_ok(c@[i as int]));
                    }
                    let t = c[i].to_text();
                    s.append(t.as_str());
                    proof {
                        assert(parts.take(i + 1 as int) =~= parts.take(i as int).push(
                            parts[i as int],
                        ));
                        lemma_joined_push(parts.take(i as int), parts[i as int], " "@);
                        assert(parts[i as int] == c@[i as int].text_s());
                    }
                    i = i + 1;
                }
                proof {
                    assert(parts.take(c@.len() as int) =~= parts);
                }
                s.append(")");
                s
            },
        }
    }
}

proof fn lemma_fixed_char_classes(c: char)
    ensures
        is_fixed_char(c) ==> !is_space_char(c) && c != '%' && c != '+' && c != '/' && c != '*'
            && c != 'a' && c != 's' && c != 'c',
        is_digit_char(c) ==> c != '-',
{
    if is_fixed_char(c) {
        assert(c as u32 != 37 && c as u32 != 43 && c as u32 != 47 && c as u32 != 42 && c as u32
            != 97 && c as u32 != 115 && c as u32 != 99 && c as u32 != 32 && c as u32 != 9 && c
            as u32 != 10 && c as u32 != 13 && c as u32 != 12) by {
            assert(is_digit_char(c) || c == '-' || c == '.');
        }
    }
}

proof fn lemma_calc_text_is_word(t: CalcType)
    requires
        calc_type_ok(t),
    ensures
        is_word(t.text_s()),
        !has_char(t.text_s(), '%') || t is Percentage,
{
    reveal_strlit("+");
    reveal_strlit("-");
    reveal_strlit("*");
    reveal_strlit("/");
    reveal_strlit("%");
    match t {
        CalcType::Percentage(p) => {
            lemma_fixed_text_chars(p);
            let w = t.text_s();
            assert forall|k: int| 0 <= k < w.len() implies !is_space_char(#[trigger] w[k]) by {
                if k < fixed_text_s(p).len() {
                    assert(w[k] == fixed_text_s(p)[k]);
                    lemma_fixed_char_classes(w[k]);
                } else {
                    assert(w[k] == '%');
                }
            }
        },
        CalcType::Manual(m) => {
            lemma_fixed_text_chars(m);
            let w = t.text_s();
            assert forall|k: int| 0 <= k < w.len() implies !is_space_char(#[trigger] w[k]) by {
                lemma_fixed_char_classes(w[k]);
            }
            assert forall|k: int| 0 <= k < w.len() implies w[k] != '%' by {
                lemma_fixed_char_classes(w[k]);
            }
        },
        _ => {
        },
    }
}

/// Rendering one token and reading it back recovers it.
proof fn lemma_calc_token_round_trip(t: CalcType)
    requires
        calc_type_ok(t),
    ensures
        calc_token_spec(t.text_s()) == Some(t),
{
    reveal_strlit("+");
    reveal_strlit("-");
    reveal_strlit("*");
    reveal_strlit("/");
    reveal_strlit("%");
    let w = t.text_s();
    match t {
        CalcType::Add | CalcType::Sub | CalcType::Div | CalcType::Mul => {
            assert(!has_char(w, '%'));
        },
        CalcType::Percentage(p) => {
            lemma_fixed_text_chars(p);
            let ft = fixed_text_s(p);
            assert(w[ft.len() as int] == '%');
            assert(has_char(w, '%'));
            assert(!has_char(ft, '%')) by {
                assert forall|k: int| 0 <= k < ft.len() implies ft[k] != '%' by {
                    lemma_fixed_char_classes(ft[k]);
                }
            }
            lemma_sans_char_concat(ft, "%"@, '%');
            lemma_sans_char_absent(ft, '%');
            assert(sans_char("%"@, '%') =~= Seq::<char>::empty()) by {
                assert("%"@.len() == 1 && "%"@[0] == '%');
                assert("%"@.drop_first() =~= Seq::<char>::empty());
                assert(sans_char(Seq::<char>::empty(), '%') =~= Seq::<char>::empty());
            }
            assert(ft + Seq::<char>::empty() =~= ft);
            assert(sans_char(w, '%') == ft);
            lemma_parse_fixed_text(p);
        },
        CalcType::Manual(m) => {
            lemma_fixed_text_chars(m);
            assert(!has_char(w, '%')) by {
                assert forall|k: int| 0 <= k < w.len() implies w[k] != '%' by {
                    lemma_fixed_char_classes(w[k]);
                }
            }
            assert(w != "+"@) by {
                lemma_fixed_char_classes(w[0]);
            }
            assert(w != "/"@) by {
                lemma_fixed_char_classes(w[0]);
            }
            assert(w != "*"@) by {
                lemma_fixed_char_classes(w[0]);
            }
            assert(w != "-"@) by {
                if m.micros < 0 {
                    crate::fixed::lemma_u64_text((-m.micros) / 1000000);
                    assert(w.len() >= 2);
                } else {
                    crate::fixed::lemma_u64_text(m.micros as int / 1000000);
                    assert(w[0] == crate::fixed::u64_text(m.micros as int / 1000000)[0]);
                    assert(is_digit_char(w[0]));
                    lemma_fixed_char_classes(w[0]);
                }
            }
            lemma_parse_fixed_text(m);
        },
    }
}

proof fn lemma_calc_tokens_round_trip(c: Seq<CalcType>)
    requires
        calc_seq_ok(c),
    ensures
        calc_tokens_spec(calc_texts(c)) == Some(c),
    decreases c.len(),
{
    let ts = calc_texts(c);
    if c.len() == 0 {
        assert(ts.len() == 0);
        assert(Seq::<CalcType>::empty() =~= c);
    } else {
        assert(ts[0] == c[0].text_s());
        lemma_calc_token_round_trip(c[0]);
        assert(ts.drop_first() =~= calc_texts(c.drop_first()));
        assert(calc_seq_ok(c.drop_first())) by {
            assert(forall|k: int|
                0 <= k < c.drop_first().len() ==> #[trigger] c.drop_first()[k] == c[k + 1]);
        }
        lemma_calc_tokens_round_trip(c.drop_first());
        assert(seq![c[0]] + c.drop_first() =~= c);
    }
}

/// Law: rendering any well-formed size mode with `to_text` and parsing it
/// again yields the same mode.
pub proof fn lemma_size_round_trip(m: SizeModeV)
    requires
        size_mode_v_ok(m),
    ensures
        parse_size_spec(size_mode_text(m)) == Some(m),
{
    reveal_strlit("auto");
    reveal_strlit("stretch");
    reveal_strlit("calc");
    reveal_strlit("calc(");
    reveal_strlit(")");
    reveal_strlit(" ");
    reveal_strlit("%");
    let s = size_mode_text(m);
    match m {
        SizeModeV::Auto => {
            assert(s == "auto"@);
            assert(s != "stretch"@);
        },
        SizeModeV::Manual(x) => {
            lemma_fixed_text_chars(x);
            assert forall|k: int| 0 <= k < s.len() implies is_fixed_char(#[trigger] s[k]) by {}
            assert(s != "stretch"@) by {
                lemma_fixed_char_classes(s[0]);
            }
            assert(s != "auto"@) by {
                lemma_fixed_char_classes(s[0]);
            }
            assert(!has_sub(s, "calc"@)) by {
                if has_sub(s, "calc"@) {
                    let i = choose|i: int|
                        0 <= i <= s.len() - 4 && #[trigger] s.subrange(i, i + 4) == "calc"@;
                    assert(s.subrange(i, i + 4)[0] == s[i]);
                    assert(s[i] == 'c');
                    lemma_fixed_char_classes(s[i]);
                }
            }
            assert(!has_char(s, '%')) by {
                assert forall|k: int| 0 <= k < s.len() implies s[k] != '%' by {
                    lemma_fixed_char_classes(s[k]);
                }
            }
            lemma_parse_fixed_text(x);
        },
        SizeModeV::Percentage(p) => {
            lemma_fixed_text_chars(p);
            let ft = fixed_text_s(p);
            assert(s[0] == ft[0]);
            assert(s != "stretch"@) by {
                lemma_fixed_char_classes(s[0]);
            }
            assert(s != "auto"@) by {
                lemma_fixed_char_classes(s[0]);
            }
            assert(!has_sub(s, "calc"@)) by {
                if has_sub(s, "calc"@) {
                    let i = choose|i: int|
                        0 <= i <= s.len() - 4 && #[trigger] s.subrange(i, i + 4) == "calc"@;
                    assert(s.subrange(i, i + 4)[0] == s[i]);
                    assert(s[i] == 'c');
                    if i < ft.len() {
                        assert(s[i] == ft[i]);
                        lemma_fixed_char_classes(s[i]);
                    } else {
                        assert(s[i] == '%');
                    }
                }
            }
            assert(s[ft.len() as int] == '%');
            assert(has_char(s, '%'));
            assert(!has_char(ft, '%')) by {
                assert forall|k: int| 0 <= k < ft.len() implies ft[k] != '%' by {
                    lemma_fixed_char_classes(ft[k]);
                }
            }
            lemma_sans_char_concat(ft, "%"@, '%');
            lemma_sans_char_absent(ft, '%');
            assert(sans_char("%"@, '%') =~= Seq::<char>::empty()) by {
                assert("%"@.len() == 1 && "%"@[0] == '%');
                assert("%"@.drop_first() =~= Seq::<char>::empty());
                assert(sans_char(Seq::<char>::empty(), '%') =~= Seq::<char>::empty());
            }
            assert(ft + Seq::<char>::empty() =~= ft);
            assert(sans_char(s, '%') == ft);
            lemma_parse_fixed_text(p);
        },
        SizeModeV::Calculation(c) => {
            let parts = calc_texts(c);
            let inner = joined(parts, " "@);
            assert(s == "calc("@ + inner + ")"@);
            assert(s.len() == 6 + inner.len());
            assert(s[0] == 'c');
            assert(s != "stretch"@);
            assert(s != "auto"@);
            assert(s.subrange(0, 4) =~= "calc"@);
            assert(has_sub(s, "calc"@)) by {
                assert(0 <= 0 <= s.len() - 4 && s.subrange(0, 0 + 4int) == "calc"@);
            }
            assert(s.take(5) =~= "calc("@);
            assert(s.last() == ')');
            assert(s.subrange(5, s.len() - 1) =~= inner);
            assert forall|i: int| 0 <= i < parts.len() implies is_word(#[trigger] parts[i]) by {
                assert(parts[i] == c[i].text_s());
                lemma_calc_text_is_word(c[i]);
            }
            lemma_tokens_of_joined(parts);
            assert(" "@ =~= seq![' ']);
            assert(tokens(inner) == parts);
            lemma_calc_tokens_round_trip(c);
            assert(parse_calc_spec(s) == Some(c));
        },
    }
}

/// The axis along which children are stacked.
#[derive(Clone, Copy, PartialEq, Eq, Structural, Debug)]
pub enum DirectionMode {
    Vertical,
    Horizontal,
    Both,
}

impl Default for DirectionMode {
    fn default() -> (r: DirectionMode)
        ensures
            r == DirectionMode::Vertical,
    {
        DirectionMode::Vertical
    }
}

impl Default for SizeMode {
    fn default() -> (r: SizeMode)
        ensures
            r@ == SizeModeV::Auto,
    {
        SizeMode::Auto
    }
}

/// The resolved box sizing of one node.
#[derive(Debug)]
pub struct Size {
    pub width: SizeMode,
    pub height: SizeMode,
    pub min_height: SizeMode,
    pub min_width: SizeMode,
    pub padding: (Fixed, Fixed, Fixed, Fixed),
    pub direction: DirectionMode,
    pub id: usize,
}

#[verifier::ext_equal]
pub struct SizeV {
    pub width: SizeModeV,
    pub height: SizeModeV,
    pub min_height: SizeModeV,
    pub min_width: SizeModeV,
    pub padding: (Fixed, Fixed, Fixed, Fixed),
    pub direction: DirectionMode,
    pub id: usize,
}

impl View for Size {
    type V = SizeV;

    open spec fn view(&self) -> SizeV {
        SizeV {
            width: self.width@,
            height: self.height@,
            min_height: self.min_height@,
            min_width: self.min_width@,
            padding: self.padding,
            direction: self.direction,
            id: self.id,
        }
    }
}

impl Default for Size {
    fn default() -> (r: Size)
        ensures
            r@.width == SizeModeV::Auto,
            r@.height == SizeModeV::Auto,
            r@.min_height == SizeModeV::Auto,
            r@.min_width == SizeModeV::Auto,
            r@.padding == (
                Fixed::spec_zero(),
                Fixed::spec_zero(),
                Fixed::spec_zero(),
                Fixed::spec_zero(),
            ),
            r@.direction == DirectionMode::Vertical,
            r@.id == 0,
    {
        Size {
            width: SizeMode::Auto,
            height: SizeMode::Auto,
            min_height: SizeMode::Auto,
            min_width: SizeMode::Auto,
            padding: (
                Fixed { micros: 0 },
                Fixed { micros: 0 },
                Fixed { micros: 0 },
                Fixed { micros: 0 },
            ),
            direction: DirectionMode::Vertical,
            id: 0,
        }
    }
}

impl Size {
    /// A size that fills its parent on both axes.
    pub fn expanded() -> (r: Size)
        ensures
            r@.width == SizeModeV::Percentage(spec_hundred()),
            r@.height == SizeModeV::Percentage(spec_hundred()),
            r@.min_height == SizeModeV::Manual(Fixed::spec_zero()),
            r@.min_width == SizeModeV::Manual(Fixed::spec_zero()),
            r@.padding == (
                Fixed::spec_zero(),
                Fixed::spec_zero(),
                Fixed::spec_zero(),
                Fixed::spec_zero(),
            ),
            r@.direction == DirectionMode::Both,
            r@.id == 0,
    {
        Size {
            width: SizeMode::Percentage(Fixed { micros: 100000000 }),
            height: SizeMode::Percentage(Fixed { micros: 100000000 }),
            min_height: SizeMode::Manual(Fixed { micros: 0 }),
            min_width: SizeMode::Manual(Fixed { micros: 0 }),
            padding: (
                Fixed { micros: 0 },
                Fixed { micros: 0 },
                Fixed { micros: 0 },
                Fixed { micros: 0 },
            ),
            direction: DirectionMode::Both,
            id: 0,
        }
    }
}

/// The direction a node starts from: text-bearing kinds stack both ways.
pub open spec fn default_direction(node: NodeView) -> DirectionMode {
    match node.tag {
        Some(t) => if t@ == "label"@ || t@ == "paragraph"@ || t@ == "text"@ {
            DirectionMode::Both
        } else if node.text is Some {
            DirectionMode::Both
        } else {
            DirectionMode::Vertical
        },
        None => if node.text is Some {
            DirectionMode::Both
        } else {
            DirectionMode::Vertical
        },
    }
}

/// A padding value must be text holding a number: its parse is unguarded.
pub open spec fn padding_attr_ok(a: Attribute) -> bool {
    a.name@ == "padding"@ ==> match attr_text(a.value) {
        Some(s) => parse_fixed_spec(s) is Some,
        None => false,
    }
}

pub open spec fn size_attrs_ok(attrs: Seq<Attribute>) -> bool {
    forall|i: int| 0 <= i < attrs.len() ==> padding_attr_ok(#[trigger] attrs[i])
}

/// How one raw attribute changes the resolved sizing; a malformed size is
/// ignored, a single padding total is halved onto each of the four sides.
pub open spec fn apply_size_attr(st: SizeV, a: Attribute) -> SizeV {
    let n = a.name@;
    if n == "width"@ || n == "height"@ || n == "min_height"@ || n == "min_width"@ {
        match attr_text(a.value) {
            Some(s) => match parse_size_spec(s) {
                Some(m) => if n == "width"@ {
                    SizeV { width: m, ..st }
                } else if n == "height"@ {
                    SizeV { height: m, ..st }
                } else if n == "min_height"@ {
                    SizeV { min_height: m, ..st }
                } else {
                    SizeV { min_width: m, ..st }
                },
                None => st,
            },
            None => st,
        }
    } else if n == "padding"@ {
        match attr_text(a.value) {
            Some(s) => match parse_fixed_spec(s) {
                Some(total) => {
                    let side = crate::fixed::spec_half(total);
                    SizeV { padding: (side, side, side, side), ..st }
                },
                None => st,
            },
            None => st,
        }
    } else if n == "direction"@ {
        match attr_text(a.value) {
            Some(s) => SizeV {
                direction: if s == "horizontal"@ {
                    DirectionMode::Horizontal
                } else if s == "both"@ {
                    DirectionMode::Both
                } else {
                    DirectionMode::Vertical
                },
                ..st
            },
            None => SizeV { direction: DirectionMode::Vertical, ..st },
        }
    } else {
        st
    }
}

pub open spec fn resolve_size_from(attrs: Seq<Attribute>, st: SizeV) -> SizeV
    decreases attrs.len(),
{
    if attrs.len() == 0 {
        st
    } else {
        resolve_size_from(attrs.drop_first(), apply_size_attr(st, attrs[0]))
    }
}

/// The sizing a node resolves to: defaults, then its attributes in order.
pub open spec fn resolve_size(node: NodeView) -> SizeV {
    resolve_size_from(
        node.attributes@,
        SizeV {
            width: SizeModeV::Auto,
            height: SizeModeV::Auto,
            min_height: SizeModeV::Auto,
            min_width: SizeModeV::Auto,
            padding: (
                Fixed::spec_zero(),
                Fixed::spec_zero(),
                Fixed::spec_zero(),
                Fixed::spec_zero(),
            ),
            direction: default_direction(node),
            id: node.id,
        },
    )
}

/// The comparison behind the change flag: every field except the identity.
pub open spec fn size_like(a: SizeV, b: SizeV) -> bool {
    a.width == b.width && a.height == b.height && a.min_height == b.min_height && a.min_width
        == b.min_width && a.padding == b.padding && a.direction == b.direction
}

/// Law: re-resolving a node whose previous resolution is unchanged compares
/// equal, so the reducer publishes no change and marks nothing dirty.
pub proof fn lemma_rerun_unchanged(node: NodeView, prev: SizeV)
    requires
        prev == resolve_size(node),
    ensures
        size_like(resolve_size(node), prev),
{
}

fn size_mode_eq(a: &SizeMode, b: &SizeMode) -> (r: bool)
    ensures
        r == (a@ == b@),
{
    match (a, b) {
        (SizeMode::Auto, SizeMode::Auto) => true,
        (SizeMode::Percentage(x), SizeMode::Percentage(y)) => x == y,
        (SizeMode::Manual(x), SizeMode::Manual(y)) => x == y,
        (SizeMode::Calculation(x), SizeMode::Calculation(y)) => {
            proof {
                assert(a@ == SizeModeV::Calculation(x@));
                assert(b@ == SizeModeV::Calculation(y@));
            }
            if x.len() != y.len() {
                proof {
                    assert(a@ != b@);
                }
                return false;
            }
            let mut i: usize = 0;
            while i < x.len()
                invariant
                    i <= x@.len(),
                    x@.len() == y@.len(),
                    a@ == SizeModeV::Calculation(x@),
                    b@ == SizeModeV::Calculation(y@),
                    forall|k: int| 0 <= k < i ==> x@[k] == y@[k],
                decreases x@.len() - i,
            {
                if !(x[i] == y[i]) {
                    proof {
                        assert(x@[i as int] != y@[i as int]);
                    }
                    return false;
                }
                i = i + 1;
            }
            proof {
                assert(x@ =~= y@);
            }
            true
        },
        _ => {
            proof {
                assert(a@ != b@);
            }
            false
        },
    }
}

impl Size {
    /// Resolves this node's sizing from its raw attributes; requires the
    /// padding value to parse, as its failure is a hard failure. Marks the
    /// node dirty in the shared sink exactly when a compared field changed.
    pub fn reduce(
        &mut self,
        node: &NodeView,
        _parent: Option<&Size>,
        ctx: &mut DirtyNodes,
    ) -> (changed: bool)
        requires
            size_attrs_ok(node.attributes@),
        ensures
            final(self)@ == resolve_size(*node),
            changed == !size_like(final(self)@, old(self)@),
            final(ctx).entries@ == if changed {
                old(ctx).entries@.push(node.id)
            } else {
                old(ctx).entries@
            },
    {
        let mut direction = DirectionMode::Vertical;
        let mut text_kind = false;
        match &node.tag {
            Option::Some(t) => {
                if str_eq(t.as_str(), "label") || str_eq(t.as_str(), "paragraph") || str_eq(
                    t.as_str(),
                    "text",
                ) {
                    text_kind = true;
                }
            },
            Option::None => {
            },
        }
        if text_kind || node.text.is_some() {
            direction = DirectionMode::Both;
        }
        let mut cur = Size {
            width: SizeMode::Auto,
            height: SizeMode::Auto,
            min_height: SizeMode::Auto,
            min_width: SizeMode::Auto,
            padding: (
                Fixed { micros: 0 },
                Fixed { micros: 0 },
                Fixed { micros: 0 },
                Fixed { micros: 0 },
            ),
            direction,
            id: node.id,
        };
        proof {
            assert(cur@.direction == default_direction(*node));
            assert(node.attributes@.skip(0) =~= node.attributes@);
        }
        let attrs = &node.attributes;
        let mut i: usize = 0;
        while i < attrs.len()
            invariant
                i <= attrs@.len(),
                attrs@ == node.attributes@,
                resolve_size(*node) == resolve_size_from(attrs@.skip(i as int), cur@),
            decreases attrs@.len() - i,
        {
            proof {
                assert(attrs@.skip(i as int).len() > 0);
                assert(attrs@.skip(i as int)[0] == attrs@[i as int]);
                assert(attrs@.skip(i as int).drop_first() =~= attrs@.skip(i + 1 as int));
            }
            let a = &attrs[i];
            let ghost before = cur@;
            let is_width = str_eq(a.name.as_str(), "width");
            let is_height = str_eq(a.name.as_str(), "height");
            let is_min_height = str_eq(a.name.as_str(), "min_height");
            let is_min_width = str_eq(a.name.as_str(), "min_width");
            if is_width || is_height || is_min_height || is_min_width {
                match a.value.as_text() {
                    Option::Some(t) => {
                        match parse_size(t.as_str()) {
                            Option::Some(m) => {
                                if is_width {
                                    cur.width = m;
                                } else if is_height {
                                    cur.height = m;
                                } else if is_min_height {
                                    cur.min_height = m;
                                } else {
                                    cur.min_width = m;
                                }
                            },
                            Option::None => {
                            },
                        }
                    },
                    Option::None => {
                    },
                }
            } else if str_eq(a.name.as_str(), "padding") {
                match a.value.as_text() {
                    Option::Some(t) => {
                        let cs = chars_of(t.as_str());
                        match parse_fixed(&cs) {
                            Option::Some(total) => {
                                let side = total.half();
                                cur.padding = (side, side, side, side);
                            },
                            Option::None => {
                            },
                        }
                    },
                    Option::None => {
                    },
                }
            } else if str_eq(a.name.as_str(), "direction") {
                match a.value.as_text() {
                    Option::Some(t) => {
                        if str_eq(t.as_str(), "horizontal") {
                            cur.direction = DirectionMode::Horizontal;
                        } else if str_eq(t.as_str(), "both") {
                            cur.direction = DirectionMode::Both;
                        } else {
                            cur.direction = DirectionMode::Vertical;
                        }
                    },
                    Option::None => {
                        cur.direction = DirectionMode::Vertical;
                    },
                }
            }
            proof {
                assert(cur@ =~= apply_size_attr(before, attrs@[i as int]));
            }
            i = i + 1;
        }
        proof {
            assert(attrs@.skip(attrs@.len() as int) =~= Seq::<Attribute>::empty());
        }
        let changed = !(size_mode_eq(&cur.width, &self.width) && size_mode_eq(
            &cur.height,
            &self.height,
        ) && size_mode_eq(&cur.min_height, &self.min_height) && size_mode_eq(
            &cur.min_width,
            &self.min_width,
        ) && cur.padding.0 == self.padding.0 && cur.padding.1 == self.padding.1 && cur.padding.2
            == self.padding.2 && cur.padding.3 == self.padding.3 && cur.direction
            == self.direction);
        if changed {
            ctx.mark_as_dirty(node.id);
        }
        *self = cur;
        changed
    }

    /// Like `reduce`, but checks the padding value first and reports the
    /// hard failure instead of requiring its absence; on failure nothing is
    /// changed and nothing is marked dirty.
    pub fn checked_reduce(
        &mut self,
        node: &NodeView,
        parent: Option<&Size>,
        ctx: &mut DirtyNodes,
    ) -> (r: Result<bool, StateError>)
        ensures
            size_attrs_ok(node.attributes@) ==> {
                &&& r is Ok
                &&& final(self)@ == resolve_size(*node)
                &&& r->Ok_0 == !size_like(final(self)@, old(self)@)
                &&& final(ctx).entries@ == if r->Ok_0 {
                    old(ctx).entries@.push(node.id)
                } else {
                    old(ctx).entries@
                }
            },
            !size_attrs_ok(node.attributes@) ==> r == Err::<bool, StateError>(
                StateError::BadPadding,
            ) && *final(self) == *old(self) && final(ctx).entries@ == old(ctx).entries@,
    {
        let attrs = &node.attributes;
        let mut i: usize = 0;
        while i < attrs.len()
            invariant
                i <= attrs@.len(),
                attrs@ == node.attributes@,
                forall|k: int| 0 <= k < i ==> padding_attr_ok(#[trigger] attrs@[k]),
            decreases attrs@.len() - i,
        {
            let a = &attrs[i];
            if str_eq(a.name.as_str(), "padding") {
                match a.value.as_text() {
                    Option::None => {
                        proof {
                            assert(!padding_attr_ok(attrs@[i as int]));
                        }
                        return Err(StateError::BadPadding);
                    },
                    Option::Some(t) => {
                        let cs = chars_of(t.as_str());
                        match parse_fixed(&cs) {
                            Option::Some(_) => {
                            },
                            Option::None => {
                                proof {
                                    assert(!padding_attr_ok(attrs@[i as int]));
                                }
                                return Err(StateError::BadPadding);
                            },
                        }
                    },
                }
            }
            i = i + 1;
        }
        Ok(self.reduce(node, parent, ctx))
    }
}

} // verus!
