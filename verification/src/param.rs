//! Typed route parameters: the kinds a path segment can be read as, the
//! values read, and the decimal syntax that decides whether a segment reads.
use vstd::prelude::*;
use vstd::string::*;

verus! {

/// The type a parameter segment of a route is read as.
#[derive(Clone, Copy, Debug, PartialEq, Eq)]
pub enum ParamKind {
    I8,
    I16,
    I32,
    I64,
    I128,
    Isize,
    U8,
    U16,
    U32,
    U64,
    U128,
    Usize,
    Bool,
    Char,
    /// A floating-point number; the segment is kept as its text.
    Float,
    /// Any text at all.
    Text,
}

/// A parameter read from a path segment.
#[derive(Clone, Debug, PartialEq, Eq)]
pub enum ParamValue {
    I8(i8),
    I16(i16),
    I32(i32),
    I64(i64),
    I128(i128),
    Isize(isize),
    U8(u8),
    U16(u16),
    U32(u32),
    U64(u64),
    U128(u128),
    Usize(usize),
    Bool(bool),
    Char(char),
    /// The text of a segment that has the syntax of a floating-point number.
    Float(String),
    Text(String),
}

/// The mathematical value of a [`ParamValue`].
pub enum ParamVal {
    I8(i8),
    I16(i16),
    I32(i32),
    I64(i64),
    I128(i128),
    Isize(isize),
    U8(u8),
    U16(u16),
    U32(u32),
    U64(u64),
    U128(u128),
    Usize(usize),
    Bool(bool),
    Char(char),
    Float(Seq<char>),
    Text(Seq<char>),
}

impl DeepView for ParamValue {
    type V = ParamVal;

    open spec fn deep_view(&self) -> ParamVal {
        match self {
            ParamValue::I8(v) => ParamVal::I8(*v),
            ParamValue::I16(v) => ParamVal::I16(*v),
            ParamValue::I32(v) => ParamVal::I32(*v),
            ParamValue::I64(v) => ParamVal::I64(*v),
            ParamValue::I128(v) => ParamVal::I128(*v),
            ParamValue::Isize(v) => ParamVal::Isize(*v),
            ParamValue::U8(v) => ParamVal::U8(*v),
            ParamValue::U16(v) => ParamVal::U16(*v),
            ParamValue::U32(v) => ParamVal::U32(*v),
            ParamValue::U64(v) => ParamVal::U64(*v),
            ParamValue::U128(v) => ParamVal::U128(*v),
            ParamValue::Usize(v) => ParamVal::Usize(*v),
            ParamValue::Bool(v) => ParamVal::Bool(*v),
            ParamValue::Char(v) => ParamVal::Char(*v),
            ParamValue::Float(s) => ParamVal::Float(s@),
            ParamValue::Text(s) => ParamVal::Text(s@),
        }
    }
}

/// The kind of a parameter value.
pub open spec fn kind_of(v: ParamVal) -> ParamKind {
    match v {
        ParamVal::I8(_) => ParamKind::I8,
        ParamVal::I16(_) => ParamKind::I16,
        ParamVal::I32(_) => ParamKind::I32,
        ParamVal::I64(_) => ParamKind::I64,
        ParamVal::I128(_) => ParamKind::I128,
        ParamVal::Isize(_) => ParamKind::Isize,
        ParamVal::U8(_) => ParamKind::U8,
        ParamVal::U16(_) => ParamKind::U16,
        ParamVal::U32(_) => ParamKind::U32,
        ParamVal::U64(_) => ParamKind::U64,
        ParamVal::U128(_) => ParamKind::U128,
        ParamVal::Usize(_) => ParamKind::Usize,
        ParamVal::Bool(_) => ParamKind::Bool,
        ParamVal::Char(_) => ParamKind::Char,
        ParamVal::Float(_) => ParamKind::Float,
        ParamVal::Text(_) => ParamKind::Text,
    }
}

pub open spec fn is_digit(c: char) -> bool {
    '0' <= c && c <= '9'
}

pub open spec fn digit_value(c: char) -> int {
    (c as int) - ('0' as int)
}

pub open spec fn all_digits(s: Seq<char>) -> bool {
    forall|i: int| 0 <= i < s.len() ==> is_digit(#[trigger] s[i])
}

/// The number that a string of decimal digits denotes.
pub open spec fn digits_value(s: Seq<char>) -> int
    decreases s.len(),
{
    if s.len() == 0 {
        0
    } else {
        10 * digits_value(s.drop_last()) + digit_value(s.last())
    }
}

/// The integer that `s` denotes in the decimal syntax of Rust's `FromStr` for
/// integer types: an optional sign (`-` only where `signed`) and one or more
/// digits. `None` where `s` has another form.
pub open spec fn integer_value(s: Seq<char>, signed: bool) -> Option<int> {
    if s.len() == 0 {
        None
    } else if s[0] == '+' || (signed && s[0] == '-') {
        let d = s.drop_first();
        if d.len() > 0 && all_digits(d) {
            Some(if s[0] == '-' { -digits_value(d) } else { digits_value(d) })
        } else {
            None
        }
    } else if all_digits(s) {
        Some(digits_value(s))
    } else {
        None
    }
}

pub open spec fn lower_ascii(c: char) -> char {
    if 'A' <= c && c <= 'Z' {
        ((c as int) + 32) as char
    } else {
        c
    }
}

/// `s` equals the lower-case word `w`, letters compared without case.
pub open spec fn equals_ignoring_case(s: Seq<char>, w: Seq<char>) -> bool {
    &&& s.len() == w.len()
    &&& forall|i: int| 0 <= i < s.len() ==> lower_ascii(#[trigger] s[i]) == w[i]
}

/// `Digit+ | Digit+ '.' Digit* | Digit* '.' Digit+`
pub open spec fn is_mantissa(s: Seq<char>) -> bool {
    ||| (s.len() > 0 && all_digits(s))
    ||| exists|p: int|
        #![trigger s[p]]
        0 <= p < s.len() && s[p] == '.' && all_digits(s.take(p)) && all_digits(s.skip(p + 1))
            && s.len() > 1
}

pub open spec fn is_exponent_mark(c: char) -> bool {
    c == 'e' || c == 'E'
}

/// What follows the exponent mark: `Sign? Digit+`
pub open spec fn is_exponent_digits(s: Seq<char>) -> bool {
    if s.len() > 0 && (s[0] == '+' || s[0] == '-') {
        s.len() > 1 && all_digits(s.drop_first())
    } else {
        s.len() > 0 && all_digits(s)
    }
}

/// `Mantissa Exp?` where `Exp ::= ('e' | 'E') Sign? Digit+`
pub open spec fn is_decimal_number(s: Seq<char>) -> bool {
    ||| is_mantissa(s)
    ||| exists|k: int|
        #![trigger s[k]]
        0 < k < s.len() && is_exponent_mark(s[k]) && is_mantissa(s.take(k))
            && is_exponent_digits(s.skip(k + 1))
}

pub open spec fn is_unsigned_float(s: Seq<char>) -> bool {
    ||| equals_ignoring_case(s, seq!['i', 'n', 'f'])
    ||| equals_ignoring_case(s, seq!['i', 'n', 'f', 'i', 'n', 'i', 't', 'y'])
    ||| equals_ignoring_case(s, seq!['n', 'a', 'n'])
    ||| is_decimal_number(s)
}

/// `s` has the syntax that Rust's `FromStr` for floating-point types accepts:
/// `Sign? ('inf' | 'infinity' | 'nan' | Number)`, letters in any case.
pub open spec fn is_float_text(s: Seq<char>) -> bool {
    if s.len() > 0 && (s[0] == '+' || s[0] == '-') {
        is_unsigned_float(s.drop_first())
    } else {
        is_unsigned_float(s)
    }
}

/// The integer `text` denotes, where it lies in `lo..=hi`.
pub open spec fn integer_in(text: Seq<char>, signed: bool, lo: int, hi: int) -> Option<int> {
    match integer_value(text, signed) {
        Some(v) => if lo <= v <= hi {
            Some(v)
        } else {
            None
        },
        None => None,
    }
}

/// What a segment `text` reads as, for a parameter of kind `kind`: `None`
/// where Rust's `FromStr` for the kind's type refuses the text. A `bool` is
/// exactly `true` or `false`; a `char` is a text of exactly one char.
pub open spec fn param_value(kind: ParamKind, text: Seq<char>) -> Option<ParamVal> {
    match kind {
        ParamKind::I8 => match integer_in(text, true, i8::MIN as int, i8::MAX as int) {
            Some(v) => Some(ParamVal::I8(v as i8)),
            None => None,
        },
        ParamKind::I16 => match integer_in(text, true, i16::MIN as int, i16::MAX as int) {
            Some(v) => Some(ParamVal::I16(v as i16)),
            None => None,
        },
        ParamKind::I32 => match integer_in(text, true, i32::MIN as int, i32::MAX as int) {
            Some(v) => Some(ParamVal::I32(v as i32)),
            None => None,
        },
        ParamKind::I64 => match integer_in(text, true, i64::MIN as int, i64::MAX as int) {
            Some(v) => Some(ParamVal::I64(v as i64)),
            None => None,
        },
        ParamKind::I128 => match integer_in(text, true, i128::MIN as int, i128::MAX as int) {
            Some(v) => Some(ParamVal::I128(v as i128)),
            None => None,
        },
        ParamKind::Isize => match integer_in(text, true, isize::MIN as int, isize::MAX as int) {
            Some(v) => Some(ParamVal::Isize(v as isize)),
            None => None,
        },
        ParamKind::U8 => match integer_in(text, false, 0, u8::MAX as int) {
            Some(v) => Some(ParamVal::U8(v as u8)),
            None => None,
        },
        ParamKind::U16 => match integer_in(text, false, 0, u16::MAX as int) {
            Some(v) => Some(ParamVal::U16(v as u16)),
            None => None,
        },
        ParamKind::U32 => match integer_in(text, false, 0, u32::MAX as int) {
            Some(v) => Some(ParamVal::U32(v as u32)),
            None => None,
        },
        ParamKind::U64 => match integer_in(text, false, 0, u64::MAX as int) {
            Some(v) => Some(ParamVal::U64(v as u64)),
            None => None,
        },
        ParamKind::U128 => match integer_in(text, false, 0, u128::MAX as int) {
            Some(v) => Some(ParamVal::U128(v as u128)),
            None => None,
        },
        ParamKind::Usize => match integer_in(text, false, 0, usize::MAX as int) {
            Some(v) => Some(ParamVal::Usize(v as usize)),
            None => None,
        },
        ParamKind::Bool => if text == seq!['t', 'r', 'u', 'e'] {
            Some(ParamVal::Bool(true))
        } else if text == seq!['f', 'a', 'l', 's', 'e'] {
            Some(ParamVal::Bool(false))
        } else {
            None
        },
        ParamKind::Char => if text.len() == 1 {
            Some(ParamVal::Char(text[0]))
        } else {
            None
        },
        ParamKind::Float => if is_float_text(text) {
            Some(ParamVal::Float(text))
        } else {
            None
        },
        ParamKind::Text => Some(ParamVal::Text(text)),
    }
}

proof fn lemma_digits_value_nonneg(s: Seq<char>)
    requires
        all_digits(s),
    ensures
        digits_value(s) >= 0,
    decreases s.len(),
{
    if s.len() > 0 {
        lemma_digits_value_nonneg(s.drop_last());
    }
}

fn char_is_digit(c: char) -> (r: bool)
    ensures
        r == is_digit(c),
{
    '0' <= c && c <= '9'
}

/// Reads the digits `s[start..end]`: `None` where one of them is no digit;
/// otherwise their value where it is at most `u128::MAX`, and whether it is
/// above.
fn digits_magnitude(s: &str, start: usize, end: usize) -> (r: Option<(u128, bool)>)
    requires
        start <= end <= s@.len(),
    ensures
        r is Some <==> all_digits(s@.subrange(start as int, end as int)),
        r matches Some((m, over)) ==> {
            let v = digits_value(s@.subrange(start as int, end as int));
            &&& over <==> v > u128::MAX
            &&& !over ==> m == v
            &&& v >= 0
        },
{
    let mut m: u128 = 0;
    let mut over = false;
    let mut i = start;
    while i < end
        invariant
            start <= i <= end <= s@.len(),
            all_digits(s@.subrange(start as int, i as int)),
            over <==> digits_value(s@.subrange(start as int, i as int)) > u128::MAX,
            !over ==> m == digits_value(s@.subrange(start as int, i as int)),
        decreases end - i,
    {
        let c = s.get_char(i);
        let ghost pre = s@.subrange(start as int, i as int);
        let ghost next = s@.subrange(start as int, i + 1);
        assert(next.drop_last() =~= pre);
        if !char_is_digit(c) {
            assert(!is_digit(s@.subrange(start as int, end as int)[i - start]));
            return None;
        }
        let d = (c as u32 - '0' as u32) as u128;
        proof {
            lemma_digits_value_nonneg(pre);
            assert(digits_value(next) == 10 * digits_value(pre) + d);
        }
        if !over {
            if m > (u128::MAX - d) / 10 {
                over = true;
            } else {
                m = m * 10 + d;
            }
        }
        i = i + 1;
    }
    proof {
        lemma_digits_value_nonneg(s@.subrange(start as int, end as int));
    }
    Some((m, over))
}

/// Reads `s` as an integer in the syntax of Rust's `FromStr`: whether it is
/// negative, its magnitude where that is at most `u128::MAX`, and whether
/// the magnitude is above.
fn read_integer(s: &str, signed: bool) -> (r: Option<(bool, u128, bool)>)
    ensures
        r is Some <==> integer_value(s@, signed) is Some,
        r matches Some((neg, m, over)) ==> {
            let v = integer_value(s@, signed)->0;
            &&& neg && over ==> v < -(u128::MAX as int)
            &&& neg && !over ==> v == -(m as int)
            &&& !neg && over ==> v > u128::MAX
            &&& !neg && !over ==> v == m
        },
{
    let n = s.unicode_len();
    if n == 0 {
        return None;
    }
    let c = s.get_char(0);
    if c == '+' || (signed && c == '-') {
        if n == 1 {
            return None;
        }
        proof {
            assert(s@.subrange(1, n as int) =~= s@.drop_first());
        }
        match digits_magnitude(s, 1, n) {
            Some((m, over)) => Some((c == '-', m, over)),
            None => None,
        }
    } else {
        proof {
            assert(s@.subrange(0, n as int) =~= s@);
        }
        match digits_magnitude(s, 0, n) {
            Some((m, over)) => Some((false, m, over)),
            None => None,
        }
    }
}

/// Whether `c` matches the lower-case letter `l` when case is ignored.
pub open spec fn same_letter(c: char, l: char) -> bool {
    c == l || ('a' <= l && l <= 'z' && (c as int) + 32 == (l as int))
}

/// The first index in `start..end` whose char is no digit, or `end`.
fn first_non_digit(s: &str, start: usize, end: usize) -> (i: usize)
    requires
        start <= end <= s@.len(),
    ensures
        start <= i <= end,
        all_digits(s@.subrange(start as int, i as int)),
        i < end ==> !is_digit(s@[i as int]),
{
    let mut i = start;
    while i < end
        invariant
            start <= i <= end <= s@.len(),
            all_digits(s@.subrange(start as int, i as int)),
        decreases end - i,
    {
        if !char_is_digit(s.get_char(i)) {
            return i;
        }
        assert(all_digits(s@.subrange(start as int, i + 1))) by {
            assert forall|k: int| 0 <= k < i + 1 - start implies is_digit(
                #[trigger] s@.subrange(start as int, i + 1)[k],
            ) by {
                if k < i - start {
                    assert(s@.subrange(start as int, i as int)[k] == s@[start + k]);
                }
            }
        }
        i = i + 1;
    }
    i
}

proof fn lemma_digits_prefix(t: Seq<char>, i: int)
    requires
        0 <= i <= t.len(),
        all_digits(t.take(i)),
    ensures
        forall|k: int| 0 <= k < i ==> is_digit(#[trigger] t[k]),
{
    assert forall|k: int| 0 <= k < i implies is_digit(#[trigger] t[k]) by {
        assert(t.take(i)[k] == t[k]);
    }
}

/// Every char of a mantissa is a digit or a point.
proof fn lemma_mantissa_chars(m: Seq<char>)
    requires
        is_mantissa(m),
    ensures
        forall|i: int| 0 <= i < m.len() ==> is_digit(#[trigger] m[i]) || m[i] == '.',
{
    if !(m.len() > 0 && all_digits(m)) {
        let p = choose|p: int|
            #![trigger m[p]]
            0 <= p < m.len() && m[p] == '.' && all_digits(m.take(p)) && all_digits(m.skip(p + 1))
                && m.len() > 1;
        assert forall|i: int| 0 <= i < m.len() implies is_digit(#[trigger] m[i]) || m[i] == '.' by {
            if i < p {
                assert(m.take(p)[i] == m[i]);
            } else if i > p {
                assert(m.skip(p + 1)[i - p - 1] == m[i]);
            }
        }
    }
}

/// Whether `s[start..end]` is a mantissa.
fn mantissa_at(s: &str, start: usize, end: usize) -> (r: bool)
    requires
        start <= end <= s@.len(),
    ensures
        r == is_mantissa(s@.subrange(start as int, end as int)),
{
    let ghost t = s@.subrange(start as int, end as int);
    let i = first_non_digit(s, start, end);
    let ghost a = i - start;
    assert(s@.subrange(start as int, i as int) =~= t.take(a));
    if i == end {
        assert(t.take(a) =~= t);
        return end > start;
    }
    assert(t[a] == s@[i as int]);
    let c = s.get_char(i);
    if c != '.' {
        assert(!is_mantissa(t)) by {
            assert(!all_digits(t));
            assert forall|p: int|
                #![trigger t[p]]
                0 <= p < t.len() && t[p] == '.' && all_digits(t.take(p)) implies !all_digits(
                t.skip(p + 1),
            ) by {
                lemma_digits_prefix(t, a);
                if p > a {
                    assert(t.take(p)[a] == t[a]);
                }
            }
        }
        return false;
    }
    let j = first_non_digit(s, i + 1, end);
    assert(s@.subrange(i + 1, end as int) =~= t.skip(a + 1));
    if j == end && end - start > 1 {
        assert(s@.subrange(i + 1, j as int) =~= t.skip(a + 1));
        assert(t[a] == '.' && all_digits(t.take(a)) && all_digits(t.skip(a + 1)));
        return true;
    }
    assert(!is_mantissa(t)) by {
        assert(!all_digits(t));
        if j < end {
            assert(s@.subrange(i + 1, end as int)[j - i - 1] == s@[j as int]);
            assert(!all_digits(t.skip(a + 1)));
        }
        assert forall|p: int|
            #![trigger t[p]]
            0 <= p < t.len() && t[p] == '.' && all_digits(t.take(p)) && t.len() > 1 implies !all_digits(
            t.skip(p + 1),
        ) by {
            lemma_digits_prefix(t, a);
            if p > a {
                assert(t.take(p)[a] == t[a]);
            }
        }
    }
    false
}

/// Whether `s[start..end]` is what follows an exponent mark.
fn exponent_digits_at(s: &str, start: usize, end: usize) -> (r: bool)
    requires
        start <= end <= s@.len(),
    ensures
        r == is_exponent_digits(s@.subrange(start as int, end as int)),
{
    let ghost t = s@.subrange(start as int, end as int);
    if start == end {
        return false;
    }
    assert(t[0] == s@[start as int]);
    let c = s.get_char(start);
    if c == '+' || c == '-' {
        let i = first_non_digit(s, start + 1, end);
        assert(s@.subrange(start + 1, end as int) =~= t.drop_first());
        if i < end {
            assert(s@.subrange(start + 1, end as int)[i - start - 1] == s@[i as int]);
        } else {
            assert(s@.subrange(start + 1, i as int) =~= t.drop_first());
        }
        end - start > 1 && i == end
    } else {
        let i = first_non_digit(s, start, end);
        if i < end {
            assert(t[i - start] == s@[i as int]);
        } else {
            assert(s@.subrange(start as int, i as int) =~= t);
        }
        i == end
    }
}

/// The first index in `start..end` holding an exponent mark, or `end`.
fn first_exponent_mark(s: &str, start: usize, end: usize) -> (k: usize)
    requires
        start <= end <= s@.len(),
    ensures
        start <= k <= end,
        forall|i: int| start <= i < k ==> !is_exponent_mark(#[trigger] s@[i]),
        k < end ==> is_exponent_mark(s@[k as int]),
{
    let mut k = start;
    while k < end
        invariant
            start <= k <= end <= s@.len(),
            forall|i: int| start <= i < k ==> !is_exponent_mark(#[trigger] s@[i]),
        decreases end - k,
    {
        let c = s.get_char(k);
        if c == 'e' || c == 'E' {
            return k;
        }
        k = k + 1;
    }
    k
}

/// Whether `s[start..end]` is a decimal number with an optional exponent.
fn decimal_number_at(s: &str, start: usize, end: usize) -> (r: bool)
    requires
        start <= end <= s@.len(),
    ensures
        r == is_decimal_number(s@.subrange(start as int, end as int)),
{
    let ghost t = s@.subrange(start as int, end as int);
    let k = first_exponent_mark(s, start, end);
    let ghost a = k - start;
    if k == end {
        let r = mantissa_at(s, start, end);
        assert forall|kk: int| 0 < kk < t.len() implies !is_exponent_mark(#[trigger] t[kk]) by {
            assert(t[kk] == s@[start + kk]);
        }
        return r;
    }
    assert(t[a] == s@[k as int]);
    let m = mantissa_at(s, start, k);
    let e = exponent_digits_at(s, k + 1, end);
    assert(s@.subrange(start as int, k as int) =~= t.take(a));
    assert(s@.subrange(k + 1, end as int) =~= t.skip(a + 1));
    let r = k > start && m && e;
    proof {
        if !r {
            if is_mantissa(t) {
                lemma_mantissa_chars(t);
                assert(false);
            }
            assert forall|kk: int|
                #![trigger t[kk]]
                0 < kk < t.len() && is_exponent_mark(t[kk]) && is_mantissa(t.take(kk)) implies !is_exponent_digits(
                t.skip(kk + 1),
            ) by {
                if kk < a {
                    assert(t[kk] == s@[start + kk]);
                } else if kk > a {
                    lemma_mantissa_chars(t.take(kk));
                    assert(t.take(kk)[a] == t[a]);
                }
            }
        }
    }
    r
}

/// Whether `s[start..end]` equals the lower-case word `w` when case is ignored.
fn equals_word_at(s: &str, start: usize, end: usize, w: &[char]) -> (r: bool)
    requires
        start <= end <= s@.len(),
        forall|i: int| 0 <= i < w@.len() ==> 'a' <= #[trigger] w@[i] <= 'z',
    ensures
        r == equals_ignoring_case(s@.subrange(start as int, end as int), w@),
{
    let ghost t = s@.subrange(start as int, end as int);
    if end - start != w.len() {
        return false;
    }
    let mut i: usize = 0;
    while i < w.len()
        invariant
            start <= end <= s@.len(),
            end - start == w@.len(),
            t == s@.subrange(start as int, end as int),
            0 <= i <= w@.len(),
            forall|k: int| 0 <= k < w@.len() ==> 'a' <= #[trigger] w@[k] <= 'z',
            forall|k: int| 0 <= k < i ==> same_letter(#[trigger] t[k], w@[k]),
        decreases w@.len() - i,
    {
        let c = s.get_char(start + i);
        let l = w[i];
        assert(t[i as int] == c);
        if !(c == l || (c as u32) + 32 == (l as u32)) {
            return false;
        }
        i = i + 1;
    }
    true
}

/// Whether `s[start..end]` is an unsigned floating-point text.
fn unsigned_float_at(s: &str, start: usize, end: usize) -> (r: bool)
    requires
        start <= end <= s@.len(),
    ensures
        r == is_unsigned_float(s@.subrange(start as int, end as int)),
{
    let inf = ['i', 'n', 'f'];
    let infinity = ['i', 'n', 'f', 'i', 'n', 'i', 't', 'y'];
    let nan = ['n', 'a', 'n'];
    assert(inf@ =~= seq!['i', 'n', 'f']);
    assert(infinity@ =~= seq!['i', 'n', 'f', 'i', 'n', 'i', 't', 'y']);
    assert(nan@ =~= seq!['n', 'a', 'n']);
    equals_word_at(s, start, end, &inf) || equals_word_at(s, start, end, &infinity)
        || equals_word_at(s, start, end, &nan) || decimal_number_at(s, start, end)
}

/// Whether `s` has the syntax of a floating-point number in Rust's `FromStr`.
pub fn float_text(s: &str) -> (r: bool)
    ensures
        r == is_float_text(s@),
{
    let n = s.unicode_len();
    assert(s@.subrange(0, n as int) =~= s@);
    if n > 0 {
        let c = s.get_char(0);
        if c == '+' || c == '-' {
            assert(s@.subrange(1, n as int) =~= s@.drop_first());
            return unsigned_float_at(s, 1, n);
        }
    }
    unsigned_float_at(s, 0, n)
}


/// Reads `text` as an integer in `-neg_bound..=pos_bound` (negative only
/// where `signed`).
fn read_bounded(text: &str, signed: bool, neg_bound: u128, pos_bound: u128) -> (r: Option<(bool, u128)>)
    ensures
        r is Some <==> integer_in(text@, signed, -(neg_bound as int), pos_bound as int) is Some,
        r matches Some((neg, m)) ==> integer_in(text@, signed, -(neg_bound as int), pos_bound as int)
            == Some(if neg { -(m as int) } else { m as int }),
        r matches Some((neg, m)) ==> if neg { m <= neg_bound } else { m <= pos_bound },
{
    match read_integer(text, signed) {
        Some((neg, m, over)) => {
            if over {
                None
            } else if neg && m <= neg_bound {
                Some((true, m))
            } else if !neg && m <= pos_bound {
                Some((false, m))
            } else {
                None
            }
        },
        None => None,
    }
}

/// Reads `text` as a signed integer in `lo..=hi`.
fn read_signed(text: &str, lo: i128, hi: i128) -> (r: Option<i128>)
    requires
        lo <= 0 <= hi,
    ensures
        r is Some <==> integer_in(text@, true, lo as int, hi as int) is Some,
        r matches Some(v) ==> integer_in(text@, true, lo as int, hi as int) == Some(v as int),
{
    let neg_bound: u128 = if lo == i128::MIN {
        0x8000_0000_0000_0000_0000_0000_0000_0000
    } else {
        (0i128 - lo) as u128
    };
    match read_bounded(text, true, neg_bound, hi as u128) {
        Some((neg, m)) => {
            if neg {
                if m == 0x8000_0000_0000_0000_0000_0000_0000_0000 {
                    Some(i128::MIN)
                } else {
                    Some(0i128 - m as i128)
                }
            } else {
                Some(m as i128)
            }
        },
        None => None,
    }
}

/// Reads `text` as an unsigned integer in `0..=hi`.
fn read_unsigned(text: &str, hi: u128) -> (r: Option<u128>)
    ensures
        r is Some <==> integer_in(text@, false, 0, hi as int) is Some,
        r matches Some(v) ==> integer_in(text@, false, 0, hi as int) == Some(v as int),
{
    match read_bounded(text, false, 0, hi) {
        Some((_, m)) => Some(m),
        None => None,
    }
}

/// Reads `text` as a parameter of kind `kind`, as Rust's `FromStr` for the
/// kind's type does; `None` where that refuses the text.
pub fn convert_param(kind: ParamKind, text: &str) -> (r: Option<ParamValue>)
    ensures
        r.deep_view() == param_value(kind, text@),
{
    proof {
        reveal_strlit("true");
        reveal_strlit("false");
        assert("true"@ =~= seq!['t', 'r', 'u', 'e']);
        assert("false"@ =~= seq!['f', 'a', 'l', 's', 'e']);
    }
    match kind {
        ParamKind::I8 => match read_signed(text, i8::MIN as i128, i8::MAX as i128) {
            Some(v) => Some(ParamValue::I8(v as i8)),
            None => None,
        },
        ParamKind::I16 => match read_signed(text, i16::MIN as i128, i16::MAX as i128) {
            Some(v) => Some(ParamValue::I16(v as i16)),
            None => None,
        },
        ParamKind::I32 => match read_signed(text, i32::MIN as i128, i32::MAX as i128) {
            Some(v) => Some(ParamValue::I32(v as i32)),
            None => None,
        },
        ParamKind::I64 => match read_signed(text, i64::MIN as i128, i64::MAX as i128) {
            Some(v) => Some(ParamValue::I64(v as i64)),
            None => None,
        },
        ParamKind::I128 => match read_signed(text, i128::MIN as i128, i128::MAX as i128) {
            Some(v) => Some(ParamValue::I128(v as i128)),
            None => None,
        },
        ParamKind::Isize => match read_signed(text, isize::MIN as i128, isize::MAX as i128) {
            Some(v) => Some(ParamValue::Isize(v as isize)),
            None => None,
        },
        ParamKind::U8 => match read_unsigned(text, u8::MAX as u128) {
            Some(v) => Some(ParamValue::U8(v as u8)),
            None => None,
        },
        ParamKind::U16 => match read_unsigned(text, u16::MAX as u128) {
            Some(v) => Some(ParamValue::U16(v as u16)),
            None => None,
        },
        ParamKind::U32 => match read_unsigned(text, u32::MAX as u128) {
            Some(v) => Some(ParamValue::U32(v as u32)),
            None => None,
        },
        ParamKind::U64 => match read_unsigned(text, u64::MAX as u128) {
            Some(v) => Some(ParamValue::U64(v as u64)),
            None => None,
        },
        ParamKind::U128 => match read_unsigned(text, u128::MAX as u128) {
            Some(v) => Some(ParamValue::U128(v as u128)),
            None => None,
        },
        ParamKind::Usize => match read_unsigned(text, usize::MAX as u128) {
            Some(v) => Some(ParamValue::Usize(v as usize)),
            None => None,
        },
        ParamKind::Bool => {
            if crate::paths::same_text(text, "true") {
                Some(ParamValue::Bool(true))
            } else if crate::paths::same_text(text, "false") {
                Some(ParamValue::Bool(false))
            } else {
                None
            }
        },
        ParamKind::Char => {
            if text.unicode_len() == 1 {
                Some(ParamValue::Char(text.get_char(0)))
            } else {
                None
            }
        },
        ParamKind::Float => {
            if float_text(text) {
                Some(ParamValue::Float(text.to_owned()))
            } else {
                None
            }
        },
        ParamKind::Text => Some(ParamValue::Text(text.to_owned())),
    }
}

/// A float parameter reads as the very text of its segment, where that
/// has float syntax, and a text parameter reads as its segment whatever it
/// is: nothing of the segment is dropped or changed.
pub proof fn law_float_and_text_params_keep_their_segment(t: Seq<char>)
    ensures
        is_float_text(t) ==> param_value(ParamKind::Float, t) == Some(ParamVal::Float(t)),
        !is_float_text(t) ==> param_value(ParamKind::Float, t) is None,
        param_value(ParamKind::Text, t) == Some(ParamVal::Text(t)),
        param_value(ParamKind::Float, t) matches Some(ParamVal::Float(s)) ==> s.len() == t.len()
            && forall|i: int| 0 <= i < t.len() ==> s[i] == t[i],
{
}

/// Reading decimal digits. A single digit reads as its value. One more
/// digit at the end of a text that reads as `v` reads as `10 * v` plus that
/// digit, where that fits, and as nothing where it does not. A leading `+`
/// changes nothing, and a leading `-` negates for a signed kind. A text
/// reads only if it is digits, after at most one leading sign.
pub proof fn law_decimal_digits_read_as_their_value(s: Seq<char>, c: char)
    requires
        '0' <= c <= '9',
    ensures
        param_value(ParamKind::U128, seq![c]) == Some(
            ParamVal::U128(((c as int) - ('0' as int)) as u128),
        ),
        param_value(ParamKind::U128, s) matches Some(ParamVal::U128(v)) ==> {
            let w = 10 * v + ((c as int) - ('0' as int));
            &&& w <= u128::MAX ==> param_value(ParamKind::U128, s.push(c)) == Some(
                ParamVal::U128(w as u128),
            )
            &&& w > u128::MAX ==> param_value(ParamKind::U128, s.push(c)) is None
        },
        s.len() > 0 && '0' <= s[0] <= '9' ==> param_value(ParamKind::U128, seq!['+'] + s)
            == param_value(ParamKind::U128, s),
        s.len() > 0 && '0' <= s[0] <= '9' ==> (param_value(ParamKind::U128, s) matches Some(
            ParamVal::U128(v),
        ) ==> (v <= 0x8000_0000_0000_0000_0000_0000_0000_0000 ==> param_value(
            ParamKind::I128,
            seq!['-'] + s,
        ) == Some(ParamVal::I128((-(v as int)) as i128)))),
        param_value(ParamKind::U128, s) is Some ==> s.len() > 0 && ('0' <= s[0] <= '9' || s[0]
            == '+') && forall|i: int| 1 <= i < s.len() ==> '0' <= #[trigger] s[i] <= '9',
{
    let one = seq![c];
    assert(one.drop_last() =~= Seq::<char>::empty());
    assert(all_digits(one));
    assert(digits_value(one.drop_last()) == 0);
    assert(one.last() == c);
    assert(digits_value(one) == digit_value(c));
    let t = s.push(c);
    if integer_value(s, false) is Some {
        if s[0] == '+' {
            let d = s.drop_first();
            assert(t.drop_first() =~= d.push(c));
            assert(d.push(c).drop_last() =~= d);
            assert(all_digits(d.push(c)));
        } else {
            assert(t.drop_last() =~= s);
            assert(all_digits(t));
        }
        assert(t[0] == s[0]);
    }
    if s.len() > 0 && '0' <= s[0] <= '9' {
        let p = seq!['+'] + s;
        assert(p.drop_first() =~= s);
        let m = seq!['-'] + s;
        assert(m.drop_first() =~= s);
    }
    if integer_value(s, false) is Some {
        if s[0] == '+' {
            assert forall|i: int| 1 <= i < s.len() implies '0' <= #[trigger] s[i] <= '9' by {
                assert(s.drop_first()[i - 1] == s[i]);
            }
        } else {
            assert(is_digit(s[0]));
        }
    }
}

/// A narrower integer kind reads a text as the widest kind of its
/// signedness does, where that value fits it, and as nothing elsewhere.
pub proof fn law_narrow_integers_read_as_wide_ones(s: Seq<char>)
    ensures
        param_value(ParamKind::I8, s) is Some <==> (param_value(ParamKind::I128, s) matches Some(
            ParamVal::I128(v),
        ) && i8::MIN <= v <= i8::MAX),
        param_value(ParamKind::I128, s) matches Some(ParamVal::I128(v)) ==> (i8::MIN <= v
            <= i8::MAX ==> param_value(ParamKind::I8, s) == Some(ParamVal::I8(v as i8))),
        param_value(ParamKind::I16, s) is Some <==> (param_value(ParamKind::I128, s) matches Some(
            ParamVal::I128(v),
        ) && i16::MIN <= v <= i16::MAX),
        param_value(ParamKind::I128, s) matches Some(ParamVal::I128(v)) ==> (i16::MIN <= v
            <= i16::MAX ==> param_value(ParamKind::I16, s) == Some(ParamVal::I16(v as i16))),
        param_value(ParamKind::I32, s) is Some <==> (param_value(ParamKind::I128, s) matches Some(
            ParamVal::I128(v),
        ) && i32::MIN <= v <= i32::MAX),
        param_value(ParamKind::I128, s) matches Some(ParamVal::I128(v)) ==> (i32::MIN <= v
            <= i32::MAX ==> param_value(ParamKind::I32, s) == Some(ParamVal::I32(v as i32))),
        param_value(ParamKind::I64, s) is Some <==> (param_value(ParamKind::I128, s) matches Some(
            ParamVal::I128(v),
        ) && i64::MIN <= v <= i64::MAX),
        param_value(ParamKind::I128, s) matches Some(ParamVal::I128(v)) ==> (i64::MIN <= v
            <= i64::MAX ==> param_value(ParamKind::I64, s) == Some(ParamVal::I64(v as i64))),
        param_value(ParamKind::Isize, s) is Some <==> (param_value(ParamKind::I128, s) matches Some(
            ParamVal::I128(v),
        ) && isize::MIN <= v <= isize::MAX),
        param_value(ParamKind::I128, s) matches Some(ParamVal::I128(v)) ==> (isize::MIN <= v
            <= isize::MAX ==> param_value(ParamKind::Isize, s) == Some(ParamVal::Isize(v as isize))),
        param_value(ParamKind::U8, s) is Some <==> (param_value(ParamKind::U128, s) matches Some(
            ParamVal::U128(v),
        ) && v <= u8::MAX),
        param_value(ParamKind::U128, s) matches Some(ParamVal::U128(v)) ==> (v <= u8::MAX
            ==> param_value(ParamKind::U8, s) == Some(ParamVal::U8(v as u8))),
        param_value(ParamKind::U16, s) is Some <==> (param_value(ParamKind::U128, s) matches Some(
            ParamVal::U128(v),
        ) && v <= u16::MAX),
        param_value(ParamKind::U128, s) matches Some(ParamVal::U128(v)) ==> (v <= u16::MAX
            ==> param_value(ParamKind::U16, s) == Some(ParamVal::U16(v as u16))),
        param_value(ParamKind::U32, s) is Some <==> (param_value(ParamKind::U128, s) matches Some(
            ParamVal::U128(v),
        ) && v <= u32::MAX),
        param_value(ParamKind::U128, s) matches Some(ParamVal::U128(v)) ==> (v <= u32::MAX
            ==> param_value(ParamKind::U32, s) == Some(ParamVal::U32(v as u32))),
        param_value(ParamKind::U64, s) is Some <==> (param_value(ParamKind::U128, s) matches Some(
            ParamVal::U128(v),
        ) && v <= u64::MAX),
        param_value(ParamKind::U128, s) matches Some(ParamVal::U128(v)) ==> (v <= u64::MAX
            ==> param_value(ParamKind::U64, s) == Some(ParamVal::U64(v as u64))),
        param_value(ParamKind::Usize, s) is Some <==> (param_value(ParamKind::U128, s) matches Some(
            ParamVal::U128(v),
        ) && v <= usize::MAX),
        param_value(ParamKind::U128, s) matches Some(ParamVal::U128(v)) ==> (v <= usize::MAX
            ==> param_value(ParamKind::Usize, s) == Some(ParamVal::Usize(v as usize))),
{
}

/// Decimal numbers are floating-point texts: one or more digits, or digits
/// around a point with at least one digit, optionally signed, read as a
/// float parameter.
pub proof fn law_decimal_numbers_are_floats(a: Seq<char>, b: Seq<char>)
    requires
        forall|i: int| 0 <= i < a.len() ==> '0' <= #[trigger] a[i] <= '9',
        forall|i: int| 0 <= i < b.len() ==> '0' <= #[trigger] b[i] <= '9',
    ensures
        a.len() > 0 ==> param_value(ParamKind::Float, a) is Some,
        a.len() > 0 ==> param_value(ParamKind::Float, seq!['-'] + a) is Some,
        a.len() + b.len() > 0 ==> param_value(ParamKind::Float, a + seq!['.'] + b) is Some,
{
    assert(all_digits(a));
    if a.len() > 0 {
        assert(is_mantissa(a));
        let m = seq!['-'] + a;
        assert(m.drop_first() =~= a);
        assert(m[0] == '-');
    }
    if a.len() > 0 {
        assert(a[0] != '+' && a[0] != '-');
    }
    if a.len() + b.len() > 0 {
        let t = a + seq!['.'] + b;
        let p = a.len() as int;
        assert(t[p] == '.');
        assert(t.take(p) =~= a);
        assert(t.skip(p + 1) =~= b);
        assert(all_digits(b));
        assert(is_mantissa(t));
        assert(is_decimal_number(t));
        if a.len() > 0 {
            assert(t[0] == a[0]);
        } else {
            assert(t[0] == '.');
        }
    }
}

} // verus!
