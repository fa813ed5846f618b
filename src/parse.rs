//! The grammar of the modem's replies: values, information responses,
//! result codes and lines.
use vstd::prelude::*;
use crate::at::{AtResponse, AtResultCode, AtValue, CodeModel, ResponseModel, ValueModel, decimal_text, models_of, response_models, value_text};
use crate::error_codes::CmsError;
use crate::errors::{HuaweiError, HuaweiResult};
use crate::text::push_char;

verus! {

use vstd::slice::slice_subrange;

pub open spec fn is_digit(b: u8) -> bool {
    0x30 <= b <= 0x39
}

/// A byte read as ASCII; other bytes become the replacement character.
pub open spec fn ascii_char(b: u8) -> char {
    if b < 128 { b as char } else { '\u{FFFD}' }
}

pub open spec fn ascii_chars(s: Seq<u8>) -> Seq<char> {
    Seq::new(s.len(), |i: int| ascii_char(s[i]))
}

/// Bytes read one character each (ISO 8859-1).
pub open spec fn latin1_chars(s: Seq<u8>) -> Seq<char> {
    Seq::new(s.len(), |i: int| s[i] as char)
}

/// The first place at or after `i` where `s` holds `b`.
pub open spec fn find_from(s: Seq<u8>, i: int, b: u8) -> Option<int>
    decreases s.len() - i,
{
    if i < 0 || i >= s.len() {
        None
    } else if s[i] == b {
        Some(i)
    } else {
        find_from(s, i + 1, b)
    }
}

/// How many digits `s` starts with.
pub open spec fn digits_run(s: Seq<u8>) -> int
    decreases s.len(),
{
    if s.len() > 0 && is_digit(s[0]) {
        1 + digits_run(s.drop_first())
    } else {
        0
    }
}

/// How many bytes `s` starts with before its first comma.
pub open spec fn non_comma_run(s: Seq<u8>) -> int
    decreases s.len(),
{
    if s.len() > 0 && s[0] != 0x2C {
        1 + non_comma_run(s.drop_first())
    } else {
        0
    }
}

/// The number written by the decimal digits `s`.
pub open spec fn decimal_value(s: Seq<u8>) -> int
    decreases s.len(),
{
    if s.len() == 0 {
        0
    } else {
        decimal_value(s.drop_last()) * 10 + (s.last() - 0x30)
    }
}

/// `"text"`: the text up to the next quotation mark, read as ASCII.
pub open spec fn spec_parse_string(s: Seq<u8>) -> Option<(Seq<char>, int)> {
    if s.len() >= 1 && s[0] == 0x22 {
        match find_from(s, 1, 0x22) {
            Some(j) => Some((ascii_chars(s.subrange(1, j)), j + 1)),
            None => None,
        }
    } else {
        None
    }
}

/// One or more digits whose value fits a `u32`.
pub open spec fn spec_parse_integer(s: Seq<u8>) -> Option<(u32, int)> {
    let k = digits_run(s);
    if k >= 1 && decimal_value(s.subrange(0, k)) <= u32::MAX {
        Some((decimal_value(s.subrange(0, k)) as u32, k))
    } else {
        None
    }
}

/// `a-b`, two integers.
pub open spec fn spec_parse_range(s: Seq<u8>) -> Option<(u32, u32, int)> {
    match spec_parse_integer(s) {
        Some((a, k)) => if k < s.len() && s[k] == 0x2D {
            match spec_parse_integer(s.subrange(k + 1, s.len() as int)) {
                Some((b, m)) => Some((a, b, k + 1 + m)),
                None => None,
            }
        } else {
            None
        },
        None => None,
    }
}

/// A bareword: one or more bytes up to the next comma.
pub open spec fn spec_parse_unknown(s: Seq<u8>) -> Option<(Seq<char>, int)> {
    let k = non_comma_run(s);
    if k >= 1 {
        Some((latin1_chars(s.subrange(0, k)), k))
    } else {
        None
    }
}

/// `(values)`: what stands up to the next closing parenthesis, read as a value.
pub open spec fn spec_parse_bracketed(s: Seq<u8>) -> Option<(ValueModel, int)>
    decreases s.len(), 0int,
{
    if s.len() >= 1 && s[0] == 0x28 {
        match find_from(s, 1, 0x29) {
            // `find_from` gives a place inside `s`; the test states that the
            // inner text is shorter, so that the recursion visibly ends.
            Some(j) => if 1 <= j < s.len() {
                let v = spec_parse_value(s.subrange(1, j)).0;
                Some(
                    (
                        match v {
                            ValueModel::Array(items) => ValueModel::BracketedArray(items),
                            ValueModel::Empty => ValueModel::BracketedArray(Seq::empty()),
                            x => ValueModel::BracketedArray(seq![x]),
                        },
                        j + 1,
                    ),
                )
            } else {
                None
            },
            None => None,
        }
    } else {
        None
    }
}

/// One value: the first of a bracketed list, a string, a range, an integer
/// or a bareword that `s` starts with; else nothing at all.
pub open spec fn spec_parse_single(s: Seq<u8>) -> (ValueModel, int)
    decreases s.len(), 1int,
{
    if let Some((v, n)) = spec_parse_bracketed(s) {
        (v, n)
    } else if let Some((t, n)) = spec_parse_string(s) {
        (ValueModel::Str(t), n)
    } else if let Some((a, b, n)) = spec_parse_range(s) {
        (ValueModel::Range(a, b), n)
    } else if let Some((i, n)) = spec_parse_integer(s) {
        (ValueModel::Integer(i), n)
    } else if let Some((t, n)) = spec_parse_unknown(s) {
        (ValueModel::Unknown(t), n)
    } else {
        (ValueModel::Empty, 0)
    }
}

/// The values that follow commas at the start of `s`.
pub open spec fn spec_parse_more(s: Seq<u8>) -> (Seq<ValueModel>, int)
    decreases s.len(), 1int,
{
    if s.len() > 0 && s[0] == 0x2C {
        let t = s.subrange(1, s.len() as int);
        let (v, n) = spec_parse_single(t);
        // A single value never reads past its input; the test states it, so
        // that the recursion visibly ends.
        if 0 <= n <= t.len() {
            let (rest, m) = spec_parse_more(t.subrange(n, t.len() as int));
            (seq![v] + rest, 1 + n + m)
        } else {
            (seq![v], 1)
        }
    } else {
        (Seq::empty(), 0)
    }
}

/// A value: one value, or a list of values separated by commas.
pub open spec fn spec_parse_value(s: Seq<u8>) -> (ValueModel, int)
    decreases s.len(), 2int,
{
    let (first, n) = spec_parse_single(s);
    // As in `spec_parse_more`, the test always holds.
    if 0 <= n <= s.len() {
        let (others, m) = spec_parse_more(s.subrange(n, s.len() as int));
        if others.len() == 0 {
            (first, n)
        } else {
            (ValueModel::Array(seq![first] + others), n + m)
        }
    } else {
        (first, n)
    }
}

/// The models of values are the values' models, place by place.
pub proof fn lemma_models_of(s: Seq<AtValue>)
    ensures
        models_of(s).len() == s.len(),
        forall|i: int| 0 <= i < s.len() ==> #[trigger] models_of(s)[i] == s[i].model(),
    decreases s.len(),
{
    if s.len() > 0 {
        lemma_models_of(s.subrange(0, s.len() - 1));
    }
}

fn find_byte(s: &[u8], start: usize, b: u8) -> (r: Option<usize>)
    ensures
        match r {
            Some(j) => find_from(s@, start as int, b) == Some(j as int) && start <= j < s@.len(),
            None => find_from(s@, start as int, b) is None,
        },
{
    let mut i = start;
    while i < s.len()
        invariant
            start <= i,
            find_from(s@, start as int, b) == find_from(s@, i as int, b),
        decreases s@.len() - i,
    {
        if s[i] == b {
            return Some(i);
        }
        i += 1;
    }
    None
}

fn bytes_to_string(s: &[u8], ascii: bool) -> (r: String)
    ensures
        r@ == (if ascii { ascii_chars(s@) } else { latin1_chars(s@) }),
{
    let mut r = String::new();
    let mut i: usize = 0;
    while i < s.len()
        invariant
            i <= s@.len(),
            r@ == (if ascii { ascii_chars(s@.subrange(0, i as int)) } else { latin1_chars(s@.subrange(0, i as int)) }),
        decreases s@.len() - i,
    {
        let b = s[i];
        let c = if ascii && b >= 128 { '\u{FFFD}' } else { b as char };
        push_char(&mut r, c);
        i += 1;
        assert(r@ =~= (if ascii { ascii_chars(s@.subrange(0, i as int)) } else { latin1_chars(s@.subrange(0, i as int)) }));
    }
    assert(s@.subrange(0, s@.len() as int) == s@);
    r
}

fn string_at(s: &[u8]) -> (r: Option<(String, usize)>)
    ensures
        match r {
            Some((t, n)) => spec_parse_string(s@) == Some((t@, n as int)) && n <= s@.len(),
            None => spec_parse_string(s@) is None,
        },
{
    if s.len() >= 1 && s[0] == 0x22 {
        match find_byte(s, 1, 0x22) {
            Some(j) => Some((bytes_to_string(slice_subrange(s, 1, j), true), j + 1)),
            None => None,
        }
    } else {
        None
    }
}

proof fn lemma_run_step(s: Seq<u8>, k: int)
    requires
        0 <= k < s.len(),
    ensures
        s.subrange(k, s.len() as int).drop_first() == s.subrange(k + 1, s.len() as int),
        s.subrange(k, s.len() as int)[0] == s[k],
{
    assert(s.subrange(k, s.len() as int).drop_first() =~= s.subrange(k + 1, s.len() as int));
}

fn digits_len(s: &[u8]) -> (r: usize)
    ensures
        r == digits_run(s@),
        r <= s@.len(),
        forall|i: int| 0 <= i < r ==> is_digit(#[trigger] s@[i]),
{
    let mut k: usize = 0;
    assert(s@.subrange(0, s@.len() as int) == s@);
    while k < s.len() && 0x30 <= s[k] && s[k] <= 0x39
        invariant
            k <= s@.len(),
            digits_run(s@) == k + digits_run(s@.subrange(k as int, s@.len() as int)),
            forall|i: int| 0 <= i < k ==> is_digit(#[trigger] s@[i]),
        decreases s@.len() - k,
    {
        proof {
            lemma_run_step(s@, k as int);
        }
        k += 1;
    }
    proof {
        if k < s@.len() {
            lemma_run_step(s@, k as int);
        }
    }
    k
}

fn non_comma_len(s: &[u8]) -> (r: usize)
    ensures
        r == non_comma_run(s@),
        r <= s@.len(),
{
    let mut k: usize = 0;
    assert(s@.subrange(0, s@.len() as int) == s@);
    while k < s.len() && s[k] != 0x2C
        invariant
            k <= s@.len(),
            non_comma_run(s@) == k + non_comma_run(s@.subrange(k as int, s@.len() as int)),
        decreases s@.len() - k,
    {
        proof {
            lemma_run_step(s@, k as int);
        }
        k += 1;
    }
    proof {
        if k < s@.len() {
            lemma_run_step(s@, k as int);
        }
    }
    k
}

proof fn lemma_decimal_grows(s: Seq<u8>, i: int)
    requires
        0 <= i <= s.len(),
        forall|j: int| 0 <= j < s.len() ==> is_digit(#[trigger] s[j]),
    ensures
        decimal_value(s.subrange(0, i)) <= decimal_value(s),
        decimal_value(s.subrange(0, i)) >= 0,
    decreases s.len() - i,
{
    if i < s.len() {
        lemma_decimal_grows(s, i + 1);
        assert(s.subrange(0, i + 1).drop_last() == s.subrange(0, i));
    } else {
        assert(s.subrange(0, i) == s);
    }
    lemma_decimal_nonneg(s.subrange(0, i));
}

proof fn lemma_decimal_nonneg(s: Seq<u8>)
    requires
        forall|j: int| 0 <= j < s.len() ==> is_digit(#[trigger] s[j]),
    ensures
        decimal_value(s) >= 0,
    decreases s.len(),
{
    if s.len() > 0 {
        lemma_decimal_nonneg(s.drop_last());
    }
}

fn integer_at(s: &[u8]) -> (r: Option<(u32, usize)>)
    ensures
        match r {
            Some((v, n)) => spec_parse_integer(s@) == Some((v, n as int)) && 1 <= n <= s@.len(),
            None => spec_parse_integer(s@) is None,
        },
{
    let k = digits_len(s);
    if k == 0 {
        return None;
    }
    let ghost d = s@.subrange(0, k as int);
    let mut v: u32 = 0;
    let mut i: usize = 0;
    while i < k
        invariant
            k <= s@.len(),
            k == digits_run(s@),
            d == s@.subrange(0, k as int),
            forall|j: int| 0 <= j < k ==> is_digit(#[trigger] s@[j]),
            i <= k,
            v as int == decimal_value(d.subrange(0, i as int)),
        decreases k - i,
    {
        assert(d.subrange(0, i + 1).drop_last() == d.subrange(0, i as int));
        let digit = (s[i] - 0x30) as u32;
        if v > (u32::MAX - digit) / 10 {
            proof {
                assert(d.subrange(0, i + 1).last() == s@[i as int]);
                assert(decimal_value(d.subrange(0, i + 1)) == v * 10 + digit);
                assert(decimal_value(d.subrange(0, i + 1)) > u32::MAX) by (nonlinear_arith)
                    requires
                        decimal_value(d.subrange(0, i + 1)) == v * 10 + digit,
                        v > (u32::MAX - digit) / 10,
                        digit <= 9,
                ;
                assert forall|j: int| 0 <= j < d.len() implies is_digit(#[trigger] d[j]) by {
                    assert(d[j] == s@[j]);
                }
                lemma_decimal_grows(d, i + 1);
                assert(decimal_value(s@.subrange(0, k as int)) > u32::MAX);
                assert(digits_run(s@) == k);
                assert(spec_parse_integer(s@) is None);
            }
            return None;
        }
        v = v * 10 + digit;
        i += 1;
    }
    assert(d.subrange(0, k as int) == d);
    Some((v, k))
}

fn range_at(s: &[u8]) -> (r: Option<(u32, u32, usize)>)
    ensures
        match r {
            Some((a, b, n)) => spec_parse_range(s@) == Some((a, b, n as int)) && n <= s@.len(),
            None => spec_parse_range(s@) is None,
        },
{
    match integer_at(s) {
        Some((a, k)) => {
            if k < s.len() && s[k] == 0x2D {
                match integer_at(slice_subrange(s, k + 1, s.len())) {
                    Some((b, m)) => Some((a, b, k + 1 + m)),
                    None => None,
                }
            } else {
                None
            }
        },
        None => None,
    }
}

fn unknown_at(s: &[u8]) -> (r: Option<(String, usize)>)
    ensures
        match r {
            Some((t, n)) => spec_parse_unknown(s@) == Some((t@, n as int)) && n <= s@.len(),
            None => spec_parse_unknown(s@) is None,
        },
{
    let k = non_comma_len(s);
    if k >= 1 {
        Some((bytes_to_string(slice_subrange(s, 0, k), false), k))
    } else {
        None
    }
}

fn bracketed_at(s: &[u8]) -> (r: Option<(AtValue, usize)>)
    ensures
        match r {
            Some((v, n)) => spec_parse_bracketed(s@) == Some((v.model(), n as int)) && n <= s@.len(),
            None => spec_parse_bracketed(s@) is None,
        },
    decreases s@.len(), 0int,
{
    if s.len() >= 1 && s[0] == 0x28 {
        match find_byte(s, 1, 0x29) {
            Some(j) => {
                let (v, _) = value_at(slice_subrange(s, 1, j));
                let b = match v {
                    AtValue::Array(items) => AtValue::BracketedArray(items),
                    AtValue::Empty => AtValue::BracketedArray(Vec::new()),
                    x => {
                        let ghost xm = x.model();
                        let items = vec![x];
                        proof {
                            lemma_models_of(items@);
                            assert(models_of(items@) =~= seq![xm]);
                        }
                        AtValue::BracketedArray(items)
                    },
                };
                proof {
                    lemma_models_of(Seq::<AtValue>::empty());
                    assert(models_of(Seq::<AtValue>::empty()) =~= Seq::<ValueModel>::empty());
                }
                Some((b, j + 1))
            },
            None => None,
        }
    } else {
        None
    }
}

fn single_at(s: &[u8]) -> (r: (AtValue, usize))
    ensures
        spec_parse_single(s@) == (r.0.model(), r.1 as int),
        r.1 <= s@.len(),
    decreases s@.len(), 1int,
{
    if let Some((v, n)) = bracketed_at(s) {
        return (v, n);
    }
    if let Some((t, n)) = string_at(s) {
        return (AtValue::String(t), n);
    }
    if let Some((a, b, n)) = range_at(s) {
        return (AtValue::Range(a, b), n);
    }
    if let Some((i, n)) = integer_at(s) {
        return (AtValue::Integer(i), n);
    }
    if let Some((t, n)) = unknown_at(s) {
        return (AtValue::Unknown(t), n);
    }
    (AtValue::Empty, 0)
}

fn more_at(s: &[u8]) -> (r: (Vec<AtValue>, usize))
    ensures
        spec_parse_more(s@) == (models_of(r.0@), r.1 as int),
        r.1 <= s@.len(),
    decreases s@.len(), 1int,
{
    if s.len() > 0 && s[0] == 0x2C {
        let t = slice_subrange(s, 1, s.len());
        let (v, n) = single_at(t);
        let (mut rest, m) = more_at(slice_subrange(t, n, t.len()));
        let ghost vm = v.model();
        let ghost rest_models = models_of(rest@);
        let ghost old_rest = rest@;
        rest.insert(0, v);
        proof {
            lemma_models_of(rest@);
            lemma_models_of(old_rest);
            assert(models_of(rest@) =~= seq![vm] + rest_models);
        }
        (rest, 1 + n + m)
    } else {
        proof {
            lemma_models_of(Seq::<AtValue>::empty());
            assert(models_of(Seq::<AtValue>::empty()) =~= Seq::<ValueModel>::empty());
        }
        (Vec::new(), 0)
    }
}

fn value_at(s: &[u8]) -> (r: (AtValue, usize))
    ensures
        spec_parse_value(s@) == (r.0.model(), r.1 as int),
        r.1 <= s@.len(),
    decreases s@.len(), 2int,
{
    let (first, n) = single_at(s);
    let (mut others, m) = more_at(slice_subrange(s, n, s.len()));
    proof {
        lemma_models_of(others@);
    }
    if others.len() == 0 {
        (first, n)
    } else {
        let ghost fm = first.model();
        let ghost om = models_of(others@);
        let ghost old_others = others@;
        others.insert(0, first);
        proof {
            lemma_models_of(others@);
            lemma_models_of(old_others);
            assert(models_of(others@) =~= seq![fm] + om);
        }
        (AtValue::Array(others), n + m)
    }
}

/// `s` starts with `t`.
pub open spec fn starts_with(s: Seq<u8>, t: Seq<u8>) -> bool {
    t.len() <= s.len() && s.subrange(0, t.len() as int) == t
}

/// The result code keywords, in the order they are tried.
pub open spec fn keyword(i: int) -> Seq<u8> {
    if i == 0 {
        seq![0x4F, 0x4B]
    } else if i == 1 {
        seq![0x43, 0x4F, 0x4E, 0x4E, 0x45, 0x43, 0x54]
    } else if i == 2 {
        seq![0x52, 0x49, 0x4E, 0x47]
    } else if i == 3 {
        seq![0x4E, 0x4F, 0x20, 0x43, 0x41, 0x52, 0x52, 0x49, 0x45, 0x52]
    } else if i == 4 {
        seq![0x45, 0x52, 0x52, 0x4F, 0x52]
    } else if i == 5 {
        seq![0x4E, 0x4F, 0x20, 0x44, 0x49, 0x41, 0x4C, 0x54, 0x4F, 0x4E, 0x45]
    } else if i == 6 {
        seq![0x42, 0x55, 0x53, 0x59]
    } else if i == 7 {
        seq![0x4E, 0x4F, 0x20, 0x41, 0x4E, 0x53, 0x57, 0x45, 0x52]
    } else if i == 8 {
        seq![0x43, 0x4F, 0x4D, 0x4D, 0x41, 0x4E, 0x44, 0x20, 0x4E, 0x4F, 0x54, 0x20, 0x53, 0x55, 0x50, 0x50, 0x4F, 0x52, 0x54]
    } else if i == 9 {
        seq![0x54, 0x4F, 0x4F, 0x20, 0x4D, 0x41, 0x4E, 0x59, 0x20, 0x50, 0x41, 0x52, 0x41, 0x4D, 0x45, 0x54, 0x45, 0x52, 0x53]
    } else {
        Seq::empty()
    }
}

pub open spec fn keyword_code(i: int) -> CodeModel {
    if i == 0 {
        CodeModel::Okay
    } else if i == 1 {
        CodeModel::Connect
    } else if i == 2 {
        CodeModel::Ring
    } else if i == 3 {
        CodeModel::NoCarrier
    } else if i == 4 {
        CodeModel::Error
    } else if i == 5 {
        CodeModel::NoDialtone
    } else if i == 6 {
        CodeModel::Busy
    } else if i == 7 {
        CodeModel::NoAnswer
    } else if i == 8 {
        CodeModel::CommandNotSupported
    } else if i == 9 {
        CodeModel::TooManyParameters
    } else {
        CodeModel::Okay
    }
}

/// Number of result code keywords.
pub const KEYWORDS: usize = 10;

fn keyword_bytes(i: usize) -> (r: Vec<u8>)
    requires
        i < KEYWORDS,
    ensures
        r@ == keyword(i as int),
{
    let r = match i {
        0 => vec![0x4F, 0x4B],
        1 => vec![0x43, 0x4F, 0x4E, 0x4E, 0x45, 0x43, 0x54],
        2 => vec![0x52, 0x49, 0x4E, 0x47],
        3 => vec![0x4E, 0x4F, 0x20, 0x43, 0x41, 0x52, 0x52, 0x49, 0x45, 0x52],
        4 => vec![0x45, 0x52, 0x52, 0x4F, 0x52],
        5 => vec![0x4E, 0x4F, 0x20, 0x44, 0x49, 0x41, 0x4C, 0x54, 0x4F, 0x4E, 0x45],
        6 => vec![0x42, 0x55, 0x53, 0x59],
        7 => vec![0x4E, 0x4F, 0x20, 0x41, 0x4E, 0x53, 0x57, 0x45, 0x52],
        8 => vec![0x43, 0x4F, 0x4D, 0x4D, 0x41, 0x4E, 0x44, 0x20, 0x4E, 0x4F, 0x54, 0x20, 0x53, 0x55, 0x50, 0x50, 0x4F, 0x52, 0x54],
        _ => vec![0x54, 0x4F, 0x4F, 0x20, 0x4D, 0x41, 0x4E, 0x59, 0x20, 0x50, 0x41, 0x52, 0x41, 0x4D, 0x45, 0x54, 0x45, 0x52, 0x53],
    };
    assert(r@ =~= keyword(i as int));
    r
}

fn keyword_result(i: usize) -> (r: AtResultCode)
    requires
        i < KEYWORDS,
    ensures
        r.model() == keyword_code(i as int),
{
    match i {
        0 => AtResultCode::Okay,
        1 => AtResultCode::Connect,
        2 => AtResultCode::Ring,
        3 => AtResultCode::NoCarrier,
        4 => AtResultCode::Error,
        5 => AtResultCode::NoDialtone,
        6 => AtResultCode::Busy,
        7 => AtResultCode::NoAnswer,
        8 => AtResultCode::CommandNotSupported,
        _ => AtResultCode::TooManyParameters,
    }
}

/// The name of a `+CME ERROR` line.
pub open spec fn cme_tag() -> Seq<u8> {
    seq![0x2B, 0x43, 0x4D, 0x45, 0x20, 0x45, 0x52, 0x52, 0x4F, 0x52]
}

/// The name of a `+CMS ERROR` line.
pub open spec fn cms_tag() -> Seq<u8> {
    seq![0x2B, 0x43, 0x4D, 0x53, 0x20, 0x45, 0x52, 0x52, 0x4F, 0x52]
}

/// `<param>: <value>`: the name up to the first colon, an optional space,
/// then a value; the name, the value and how much was read.
pub open spec fn spec_parse_info(s: Seq<u8>) -> Option<(Seq<u8>, ValueModel, int)> {
    match find_from(s, 0, 0x3A) {
        Some(j) => {
            let k = if j < s.len() - 1 && s[j + 1] == 0x20 { j + 2 } else { j + 1 };
            let (v, n) = spec_parse_value(s.subrange(k, s.len() as int));
            Some((s.subrange(0, j), v, k + n))
        },
        None => None,
    }
}

/// The result code `s` starts with, trying keywords from `i` on, then the
/// `+CME ERROR` and `+CMS ERROR` lines.
pub open spec fn spec_code_from(s: Seq<u8>, i: int) -> Option<CodeModel>
    decreases KEYWORDS - i,
{
    if 0 <= i < KEYWORDS {
        if starts_with(s, keyword(i)) {
            Some(keyword_code(i))
        } else {
            spec_code_from(s, i + 1)
        }
    } else {
        match spec_parse_info(s) {
            Some((p, v, _)) => if p == cme_tag() {
                match v {
                    ValueModel::Integer(n) => Some(CodeModel::CmeError(n)),
                    _ => None,
                }
            } else if p == cms_tag() {
                match v {
                    ValueModel::Integer(n) => match CmsError::spec_from_code(n) {
                        Some(e) => Some(CodeModel::CmsError(e)),
                        None => Some(CodeModel::CmsErrorUnknown(n)),
                    },
                    ValueModel::Unknown(t) => Some(CodeModel::CmsErrorString(t)),
                    _ => None,
                }
            } else {
                None
            },
            None => None,
        }
    }
}

pub open spec fn spec_parse_code(s: Seq<u8>) -> Option<CodeModel> {
    spec_code_from(s, 0)
}

pub open spec fn is_space(b: u8) -> bool {
    b == 0x20 || b == 0x09 || b == 0x0A || b == 0x0B || b == 0x0C || b == 0x0D
}

/// `s` without leading white space.
pub open spec fn trim_start(s: Seq<u8>) -> Seq<u8>
    decreases s.len(),
{
    if s.len() > 0 && is_space(s[0]) {
        trim_start(s.drop_first())
    } else {
        s
    }
}

/// `s` without trailing white space.
pub open spec fn trim_end(s: Seq<u8>) -> Seq<u8>
    decreases s.len(),
{
    if s.len() > 0 && is_space(s.last()) {
        trim_end(s.drop_last())
    } else {
        s
    }
}

/// One line: a result code, else an information response, else the line's
/// trimmed text if it is not empty.
pub open spec fn spec_parse_line(s: Seq<u8>) -> Option<ResponseModel> {
    if let Some(c) = spec_parse_code(s) {
        Some(ResponseModel::ResultCode(c))
    } else if let Some((p, v, _)) = spec_parse_info(s) {
        Some(ResponseModel::InformationResponse(latin1_chars(p), v))
    } else if trim_end(trim_start(s)).len() > 0 {
        Some(ResponseModel::Unknown(latin1_chars(trim_end(trim_start(s)))))
    } else {
        None
    }
}

/// A line without its carriage return, if it ends with one.
pub open spec fn strip_cr(s: Seq<u8>) -> Seq<u8> {
    if s.len() > 0 && s.last() == 0x0D {
        s.drop_last()
    } else {
        s
    }
}

/// The responses of the lines of `s`, each ended by a line feed; a last line
/// without one is left out.
pub open spec fn spec_responses(s: Seq<u8>) -> Seq<ResponseModel>
    decreases s.len(),
{
    match find_from(s, 0, 0x0A) {
        Some(j) => if 0 <= j < s.len() {
            let line = strip_cr(s.subrange(0, j));
            let rest = spec_responses(s.subrange(j + 1, s.len() as int));
            match spec_parse_line(line) {
                Some(r) => seq![r] + rest,
                None => rest,
            }
        } else {
            Seq::empty()
        },
        None => Seq::empty(),
    }
}

fn starts_with_bytes(s: &[u8], t: &[u8]) -> (r: bool)
    ensures
        r == starts_with(s@, t@),
{
    if t.len() > s.len() {
        return false;
    }
    let mut i: usize = 0;
    while i < t.len()
        invariant
            t@.len() <= s@.len(),
            i <= t@.len(),
            s@.subrange(0, i as int) == t@.subrange(0, i as int),
        decreases t@.len() - i,
    {
        if s[i] != t[i] {
            assert(s@.subrange(0, t@.len() as int)[i as int] != t@[i as int]);
            return false;
        }
        assert(s@.subrange(0, i + 1) =~= t@.subrange(0, i + 1));
        i += 1;
    }
    assert(t@.subrange(0, t@.len() as int) == t@);
    true
}

fn info_at(s: &[u8]) -> (r: Option<(String, AtValue, usize)>)
    ensures
        match r {
            Some((p, v, n)) => spec_parse_info(s@) matches Some((q, w, m)) && p@ == latin1_chars(q) && v.model()
                == w && n == m && n <= s@.len(),
            None => spec_parse_info(s@) is None,
        },
{
    match find_byte(s, 0, 0x3A) {
        Some(j) => {
            let k = if j < s.len() - 1 && s[j + 1] == 0x20 { j + 2 } else { j + 1 };
            let (v, n) = value_at(slice_subrange(s, k, s.len()));
            Some((bytes_to_string(slice_subrange(s, 0, j), false), v, k + n))
        },
        None => None,
    }
}

fn is_tag(p: &[u8], cms: bool) -> (r: bool)
    ensures
        r == (p@ == (if cms { cms_tag() } else { cme_tag() })),
{
    let t: Vec<u8> = if cms {
        vec![0x2B, 0x43, 0x4D, 0x53, 0x20, 0x45, 0x52, 0x52, 0x4F, 0x52]
    } else {
        vec![0x2B, 0x43, 0x4D, 0x45, 0x20, 0x45, 0x52, 0x52, 0x4F, 0x52]
    };
    assert(t@ =~= (if cms { cms_tag() } else { cme_tag() }));
    if p.len() != t.len() {
        return false;
    }
    let r = starts_with_bytes(p, t.as_slice());
    assert(p@.subrange(0, p@.len() as int) == p@);
    r
}

fn code_at(s: &[u8]) -> (r: Option<AtResultCode>)
    ensures
        match r {
            Some(c) => spec_parse_code(s@) == Some(c.model()),
            None => spec_parse_code(s@) is None,
        },
{
    let mut i: usize = 0;
    while i < KEYWORDS
        invariant
            i <= KEYWORDS,
            spec_code_from(s@, 0) == spec_code_from(s@, i as int),
        decreases KEYWORDS - i,
    {
        let k = keyword_bytes(i);
        if starts_with_bytes(s, k.as_slice()) {
            return Some(keyword_result(i));
        }
        i += 1;
    }
    match find_byte(s, 0, 0x3A) {
        Some(j) => {
            let k = if j < s.len() - 1 && s[j + 1] == 0x20 { j + 2 } else { j + 1 };
            let (v, _) = value_at(slice_subrange(s, k, s.len()));
            let p = slice_subrange(s, 0, j);
            if is_tag(p, false) {
                match v {
                    AtValue::Integer(n) => Some(AtResultCode::CmeError(n)),
                    _ => None,
                }
            } else if is_tag(p, true) {
                match v {
                    AtValue::Integer(n) => match CmsError::from_u32(n) {
                        Some(e) => Some(AtResultCode::CmsError(e)),
                        None => Some(AtResultCode::CmsErrorUnknown(n)),
                    },
                    AtValue::Unknown(t) => Some(AtResultCode::CmsErrorString(t)),
                    _ => None,
                }
            } else {
                None
            }
        },
        None => None,
    }
}

fn trimmed(s: &[u8]) -> (r: &[u8])
    ensures
        r@ == trim_end(trim_start(s@)),
{
    let mut a: usize = 0;
    assert(s@.subrange(0, s@.len() as int) == s@);
    while a < s.len() && (s[a] == 0x20 || s[a] == 0x09 || s[a] == 0x0A || s[a] == 0x0B || s[a] == 0x0C || s[a]
        == 0x0D)
        invariant
            a <= s@.len(),
            trim_start(s@) == trim_start(s@.subrange(a as int, s@.len() as int)),
        decreases s@.len() - a,
    {
        proof {
            lemma_run_step(s@, a as int);
        }
        a += 1;
    }
    proof {
        if a < s@.len() {
            lemma_run_step(s@, a as int);
        }
        assert(trim_start(s@) == s@.subrange(a as int, s@.len() as int));
    }
    let mut e: usize = s.len();
    while e > a && (s[e - 1] == 0x20 || s[e - 1] == 0x09 || s[e - 1] == 0x0A || s[e - 1] == 0x0B || s[e - 1]
        == 0x0C || s[e - 1] == 0x0D)
        invariant
            a <= e <= s@.len(),
            trim_start(s@) == s@.subrange(a as int, s@.len() as int),
            trim_end(trim_start(s@)) == trim_end(s@.subrange(a as int, e as int)),
        decreases e,
    {
        assert(s@.subrange(a as int, e as int).drop_last() == s@.subrange(a as int, e - 1));
        e -= 1;
    }
    slice_subrange(s, a, e)
}

fn line_at(s: &[u8]) -> (r: Option<AtResponse>)
    ensures
        match r {
            Some(x) => spec_parse_line(s@) == Some(x.model()),
            None => spec_parse_line(s@) is None,
        },
{
    if let Some(c) = code_at(s) {
        return Some(AtResponse::ResultCode(c));
    }
    if let Some((param, response, _)) = info_at(s) {
        return Some(AtResponse::InformationResponse { param, response });
    }
    let t = trimmed(s);
    if t.len() > 0 {
        Some(AtResponse::Unknown(bytes_to_string(t, false)))
    } else {
        None
    }
}

/// `"text"`; the rest of the input and the text.
pub fn parse_string(input: &[u8]) -> (r: HuaweiResult<(&[u8], String)>)
    ensures
        r is Ok <==> spec_parse_string(input@) is Some,
        r matches Ok((rest, t)) ==> spec_parse_string(input@) matches Some((u, n)) && t@ == u && rest@
            == input@.subrange(n, input@.len() as int),
        r matches Err(e) ==> e == HuaweiError::ParseError,
{
    match string_at(input) {
        Some((t, n)) => Ok((slice_subrange(input, n, input.len()), t)),
        None => Err(HuaweiError::ParseError),
    }
}

/// One or more digits that fit a `u32`; the rest of the input and the number.
pub fn parse_integer(input: &[u8]) -> (r: HuaweiResult<(&[u8], u32)>)
    ensures
        r is Ok <==> spec_parse_integer(input@) is Some,
        r matches Ok((rest, v)) ==> spec_parse_integer(input@) matches Some((w, n)) && v == w && rest@
            == input@.subrange(n, input@.len() as int),
        r matches Err(e) ==> e == HuaweiError::ParseError,
{
    match integer_at(input) {
        Some((v, n)) => Ok((slice_subrange(input, n, input.len()), v)),
        None => Err(HuaweiError::ParseError),
    }
}

/// `a-b`; the rest of the input and the two ends.
pub fn parse_range(input: &[u8]) -> (r: HuaweiResult<(&[u8], (u32, u32))>)
    ensures
        r is Ok <==> spec_parse_range(input@) is Some,
        r matches Ok((rest, (a, b))) ==> spec_parse_range(input@) matches Some((x, y, n)) && a == x && b == y
            && rest@ == input@.subrange(n, input@.len() as int),
        r matches Err(e) ==> e == HuaweiError::ParseError,
{
    match range_at(input) {
        Some((a, b, n)) => Ok((slice_subrange(input, n, input.len()), (a, b))),
        None => Err(HuaweiError::ParseError),
    }
}

/// A bareword up to the next comma; the rest of the input and the word.
pub fn parse_unknown(input: &[u8]) -> (r: HuaweiResult<(&[u8], String)>)
    ensures
        r is Ok <==> spec_parse_unknown(input@) is Some,
        r matches Ok((rest, t)) ==> spec_parse_unknown(input@) matches Some((u, n)) && t@ == u && rest@
            == input@.subrange(n, input@.len() as int),
        r matches Err(e) ==> e == HuaweiError::ParseError,
{
    match unknown_at(input) {
        Some((t, n)) => Ok((slice_subrange(input, n, input.len()), t)),
        None => Err(HuaweiError::ParseError),
    }
}

/// Nothing at all: reads no input.
pub fn parse_empty(input: &[u8]) -> (r: HuaweiResult<(&[u8], ())>)
    ensures
        r matches Ok((rest, _)) && rest@ == input@,
{
    Ok((input, ()))
}

/// A list in parentheses; the rest of the input and the list.
pub fn parse_bracketed_array(input: &[u8]) -> (r: HuaweiResult<(&[u8], AtValue)>)
    ensures
        r is Ok <==> spec_parse_bracketed(input@) is Some,
        r matches Ok((rest, v)) ==> spec_parse_bracketed(input@) matches Some((w, n)) && v.model() == w
            && rest@ == input@.subrange(n, input@.len() as int),
        r matches Err(e) ==> e == HuaweiError::ParseError,
{
    match bracketed_at(input) {
        Some((v, n)) => Ok((slice_subrange(input, n, input.len()), v)),
        None => Err(HuaweiError::ParseError),
    }
}

/// One value (never fails: at worst it is `Empty`, reading nothing).
pub fn parse_single_value(input: &[u8]) -> (r: HuaweiResult<(&[u8], AtValue)>)
    ensures
        r matches Ok((rest, v)) && v.model() == spec_parse_single(input@).0 && rest@ == input@.subrange(
            spec_parse_single(input@).1,
            input@.len() as int,
        ),
{
    let (v, n) = single_at(input);
    Ok((slice_subrange(input, n, input.len()), v))
}

/// A value: one value, or a comma-separated list of them (never fails).
pub fn parse_value(input: &[u8]) -> (r: HuaweiResult<(&[u8], AtValue)>)
    ensures
        r matches Ok((rest, v)) && v.model() == spec_parse_value(input@).0 && rest@ == input@.subrange(
            spec_parse_value(input@).1,
            input@.len() as int,
        ),
{
    let (v, n) = value_at(input);
    Ok((slice_subrange(input, n, input.len()), v))
}

/// `<param>: <value>`; the rest of the input, the name and the value.
pub fn parse_information_response(input: &[u8]) -> (r: HuaweiResult<(&[u8], (String, AtValue))>)
    ensures
        r is Ok <==> spec_parse_info(input@) is Some,
        r matches Ok((rest, (p, v))) ==> spec_parse_info(input@) matches Some((q, w, n)) && p@ == latin1_chars(q)
            && v.model() == w && rest@ == input@.subrange(n, input@.len() as int),
        r matches Err(e) ==> e == HuaweiError::ParseError,
{
    match info_at(input) {
        Some((p, v, n)) => Ok((slice_subrange(input, n, input.len()), (p, v))),
        None => Err(HuaweiError::ParseError),
    }
}

/// The result code a line starts with.
pub fn parse_response_code(input: &[u8]) -> (r: HuaweiResult<AtResultCode>)
    ensures
        r is Ok <==> spec_parse_code(input@) is Some,
        r matches Ok(c) ==> spec_parse_code(input@) == Some(c.model()),
        r matches Err(e) ==> e == HuaweiError::ParseError,
{
    match code_at(input) {
        Some(c) => Ok(c),
        None => Err(HuaweiError::ParseError),
    }
}

/// The response that one line (without its line ending) holds; an empty
/// line holds none.
pub fn parse_response_line(input: &[u8]) -> (r: HuaweiResult<AtResponse>)
    ensures
        r is Ok <==> spec_parse_line(input@) is Some,
        r matches Ok(x) ==> spec_parse_line(input@) == Some(x.model()),
        r matches Err(e) ==> e == HuaweiError::ParseError,
{
    match line_at(input) {
        Some(x) => Ok(x),
        None => Err(HuaweiError::ParseError),
    }
}

/// The responses of the complete lines of `input`. `None` (incomplete) when
/// the input is empty or its last line has no line feed yet.
pub fn responses(input: &[u8]) -> (r: Option<Vec<AtResponse>>)
    ensures
        r is None <==> (input@.len() == 0 || input@.last() != 0x0A),
        r matches Some(v) ==> response_models(v@) == spec_responses(input@),
{
    if input.len() == 0 || input[input.len() - 1] != 0x0A {
        return None;
    }
    let mut out: Vec<AtResponse> = Vec::new();
    let mut start: usize = 0;
    assert(input@.subrange(0, input@.len() as int) == input@);
    while start < input.len()
        invariant
            start <= input@.len(),
            spec_responses(input@) == response_models(out@) + spec_responses(
                input@.subrange(start as int, input@.len() as int),
            ),
        decreases input@.len() - start,
    {
        let rest = slice_subrange(input, start, input.len());
        match find_byte(rest, 0, 0x0A) {
            Some(j) => {
                let line0 = slice_subrange(rest, 0, j);
                let line = if j > 0 && rest[j - 1] == 0x0D {
                    slice_subrange(rest, 0, j - 1)
                } else {
                    line0
                };
                assert(line@ == strip_cr(rest@.subrange(0, j as int)));
                assert(rest@.subrange(j + 1, rest@.len() as int) == input@.subrange(start + j + 1, input@.len() as int));
                let ghost before = out@;
                match line_at(line) {
                    Some(x) => {
                        out.push(x);
                        assert(response_models(out@) =~= response_models(before) + seq![x.model()]);
                    },
                    None => {},
                }
                start = start + j + 1;
            },
            None => {
                assert(spec_responses(rest@) == Seq::<ResponseModel>::empty());
                start = input.len();
            },
        }
    }
    proof {
        assert(input@.subrange(input@.len() as int, input@.len() as int) =~= Seq::<u8>::empty());
        assert(find_from(Seq::<u8>::empty(), 0, 0x0A) is None);
        assert(response_models(out@) + Seq::<ResponseModel>::empty() =~= response_models(out@));
    }
    Some(out)
}

/// The octets that send the ASCII text `t`, one each.
pub open spec fn ascii_bytes(t: Seq<char>) -> Seq<u8> {
    Seq::new(t.len(), |i: int| t[i] as u8)
}

proof fn lemma_decimal_bytes(n: nat)
    ensures
        ascii_bytes(decimal_text(n)).len() >= 1,
        forall|i: int| 0 <= i < ascii_bytes(decimal_text(n)).len() ==> is_digit(#[trigger] ascii_bytes(decimal_text(n))[i]),
        decimal_value(ascii_bytes(decimal_text(n))) == n,
    decreases n,
{
    let d = ascii_bytes(decimal_text(n));
    if n < 10 {
        assert(d.len() == 1);
        assert(d[0] == (n + 0x30) as u8);
        assert(d[0] as int == n + 0x30);
        assert(decimal_value(d.drop_last()) == 0);
        assert(is_digit(d[0]));
    } else {
        lemma_decimal_bytes(n / 10);
        let e = ascii_bytes(decimal_text(n / 10));
        assert(d.drop_last() =~= e);
        assert(d.last() == (n % 10 + 0x30) as u8);
        assert(d.last() as int == n % 10 + 0x30);
        assert forall|i: int| 0 <= i < d.len() implies is_digit(#[trigger] d[i]) by {
            if i < e.len() {
                assert(d[i] == e[i]);
            }
        }
        assert(decimal_value(d) == decimal_value(e) * 10 + (d.last() - 0x30));
        assert((n / 10) * 10 + n % 10 == n);
    }
}

proof fn lemma_digits_run_exact(s: Seq<u8>, k: int)
    requires
        0 <= k <= s.len(),
        forall|i: int| 0 <= i < k ==> is_digit(#[trigger] s[i]),
        k < s.len() ==> !is_digit(s[k]),
    ensures
        digits_run(s) == k,
    decreases k,
{
    if k > 0 {
        let t = s.drop_first();
        assert forall|i: int| 0 <= i < k - 1 implies is_digit(#[trigger] t[i]) by {
            assert(t[i] == s[i + 1]);
        }
        lemma_digits_run_exact(t, k - 1);
    }
}

proof fn lemma_integer_prefix(a: Seq<u8>, rest: Seq<u8>, n: nat)
    requires
        a == ascii_bytes(decimal_text(n)),
        n <= u32::MAX,
        rest.len() > 0 ==> !is_digit(rest[0]),
    ensures
        spec_parse_integer(a + rest) == Some((n as u32, a.len() as int)),
{
    lemma_decimal_bytes(n);
    let s = a + rest;
    assert forall|i: int| 0 <= i < a.len() implies is_digit(#[trigger] s[i]) by {
        assert(s[i] == a[i]);
    }
    lemma_digits_run_exact(s, a.len() as int);
    assert(s.subrange(0, a.len() as int) =~= a);
}

/// A value whose written form reads back as itself: an integer, a range, or
/// a string whose characters are sent as one octet each and read back as
/// themselves (ASCII), with no quotation mark. (A bareword of
/// digits would read back as an integer, a string with a quotation mark or
/// a list with one element as something else.)
pub open spec fn reads_back(m: ValueModel) -> bool {
    match m {
        ValueModel::Integer(_) => true,
        ValueModel::Range(_, _) => true,
        ValueModel::Str(t) => ascii_chars(ascii_bytes(t)) == t && forall|i: int|
            0 <= i < t.len() ==> #[trigger] ascii_bytes(t)[i] != 0x22,
        _ => false,
    }
}

proof fn lemma_find_quote(s: Seq<u8>, i: int, j: int)
    requires
        0 <= i <= j < s.len(),
        s[j] == 0x22,
        forall|k: int| i <= k < j ==> #[trigger] s[k] != 0x22,
    ensures
        find_from(s, i, 0x22) == Some(j),
    decreases j - i,
{
    if i < j {
        lemma_find_quote(s, i + 1, j);
    }
}

proof fn lemma_ascii_concat(a: Seq<char>, b: Seq<char>)
    ensures
        ascii_bytes(a + b) == ascii_bytes(a) + ascii_bytes(b),
{
    assert(ascii_bytes(a + b) =~= ascii_bytes(a) + ascii_bytes(b));
}

#[verifier::rlimit(80)]
proof fn lemma_single_prefix(m: ValueModel, rest: Seq<u8>)
    requires
        reads_back(m),
        rest.len() == 0 || rest[0] == 0x2C,
    ensures
        spec_parse_single(ascii_bytes(value_text(m)) + rest) == (m, ascii_bytes(value_text(m)).len() as int),
{
    let w = ascii_bytes(value_text(m));
    let s = w + rest;
    match m {
        ValueModel::Integer(n) => {
            lemma_integer_prefix(w, rest, n as nat);
            lemma_decimal_bytes(n as nat);
            assert(s[0] == w[0]);
            assert(is_digit(s[0]));
            assert(spec_parse_bracketed(s) is None);
            assert(spec_parse_string(s) is None);
            assert(spec_parse_range(s) is None);
        },
        ValueModel::Range(a, b) => {
            let x = ascii_bytes(decimal_text(a as nat));
            let y = ascii_bytes(decimal_text(b as nat));
            assert(w =~= x + (seq![0x2Du8] + y));
            assert(s =~= x + (seq![0x2Du8] + y + rest));
            lemma_integer_prefix(x, seq![0x2Du8] + y + rest, a as nat);
            lemma_integer_prefix(y, rest, b as nat);
            assert(s.subrange(x.len() + 1int, s.len() as int) =~= y + rest);
            lemma_decimal_bytes(a as nat);
            assert(s[0] == x[0]);
            assert(is_digit(s[0]));
            assert(spec_parse_bracketed(s) is None);
            assert(spec_parse_string(s) is None);
            assert(spec_parse_range(s) == Some((a, b, w.len() as int)));
        },
        ValueModel::Str(t) => {
            let q = seq!['"'];
            assert(value_text(m) == q + t + q);
            let n = t.len() as int;
            assert(w.len() == n + 2);
            assert(s[0] == 0x22);
            assert(s[n + 1] == 0x22);
            assert forall|k: int| 1 <= k < n + 1 implies #[trigger] s[k] != 0x22 by {
                assert(s[k] == ascii_bytes(t)[k - 1]);
            }
            lemma_find_quote(s, 1, n + 1);
            assert forall|k: int| 0 <= k < n implies #[trigger] ascii_chars(s.subrange(1, n + 1))[k] == t[k] by {
                assert(s.subrange(1, n + 1)[k] == ascii_bytes(t)[k]);
                assert(ascii_chars(ascii_bytes(t))[k] == t[k]);
            }
            assert(ascii_chars(s.subrange(1, n + 1)) =~= t);
            assert(spec_parse_bracketed(s) is None);
            assert(spec_parse_string(s) == Some((t, n + 2)));
        },
        _ => {},
    }
}

/// The texts of `items`, each after a comma.
pub open spec fn tail_text(items: Seq<ValueModel>) -> Seq<char>
    decreases items.len(),
{
    if items.len() == 0 {
        Seq::empty()
    } else {
        seq![','] + value_text(items[0]) + tail_text(items.drop_first())
    }
}

proof fn lemma_tail_push(s: Seq<ValueModel>, x: ValueModel)
    ensures
        tail_text(s.push(x)) == tail_text(s) + seq![','] + value_text(x),
    decreases s.len(),
{
    if s.len() == 0 {
        assert(s.push(x).drop_first() =~= Seq::<ValueModel>::empty());
        assert(tail_text(Seq::<ValueModel>::empty()) == Seq::<char>::empty());
        assert(tail_text(s) == Seq::<char>::empty());
        assert(s.push(x)[0] == x);
        assert(tail_text(s.push(x)) == seq![','] + value_text(x) + Seq::<char>::empty());
        assert(tail_text(s.push(x)) =~= tail_text(s) + seq![','] + value_text(x));
    } else {
        lemma_tail_push(s.drop_first(), x);
        assert(s.push(x).drop_first() =~= s.drop_first().push(x));
        assert(s.push(x)[0] == s[0]);
        assert(tail_text(s.push(x)) == seq![','] + value_text(s[0]) + tail_text(s.drop_first().push(x)));
        assert(tail_text(s.push(x)) =~= tail_text(s) + seq![','] + value_text(x));
    }
}

proof fn lemma_list_text_first(items: Seq<ValueModel>)
    requires
        items.len() >= 1,
    ensures
        crate::at::list_text(items) == value_text(items[0]) + tail_text(items.drop_first()),
    decreases items.len(),
{
    if items.len() == 1 {
        assert(items.drop_first() =~= Seq::<ValueModel>::empty());
        assert(value_text(items[0]) + Seq::<char>::empty() =~= value_text(items[0]));
    } else {
        let init = items.subrange(0, items.len() - 1);
        let last = items[items.len() - 1];
        lemma_list_text_first(init);
        lemma_tail_push(init.drop_first(), last);
        assert(init.drop_first().push(last) =~= items.drop_first());
        assert(init[0] == items[0]);
        assert(crate::at::list_text(items) =~= value_text(items[0]) + tail_text(items.drop_first()));
    }
}

#[verifier::rlimit(80)]
proof fn lemma_more_round_trip(items: Seq<ValueModel>)
    requires
        forall|i: int| 0 <= i < items.len() ==> reads_back(#[trigger] items[i]),
    ensures
        spec_parse_more(ascii_bytes(tail_text(items))) == (items, ascii_bytes(tail_text(items)).len() as int),
    decreases items.len(),
{
    let s = ascii_bytes(tail_text(items));
    if items.len() == 0 {
        assert(s.len() == 0);
    } else {
        let v = items[0];
        let r = items.drop_first();
        assert(forall|i: int| 0 <= i < r.len() ==> reads_back(#[trigger] r[i]) ) by {
            assert forall|i: int| 0 <= i < r.len() implies reads_back(#[trigger] r[i]) by {
                assert(r[i] == items[i + 1]);
            }
        }
        lemma_more_round_trip(r);
        let w = ascii_bytes(value_text(v));
        let rb = ascii_bytes(tail_text(r));
        lemma_ascii_concat(seq![','] + value_text(v), tail_text(r));
        lemma_ascii_concat(seq![','], value_text(v));
        assert(ascii_bytes(seq![',']) =~= seq![0x2Cu8]);
        assert(s =~= seq![0x2Cu8] + (w + rb));
        let t = s.subrange(1, s.len() as int);
        assert(t =~= w + rb);
        if r.len() > 0 {
            assert(tail_text(r)[0] == ',');
        }
        lemma_single_prefix(v, rb);
        assert(t.subrange(w.len() as int, t.len() as int) =~= rb);
        assert(seq![v] + r =~= items);
    }
}

/// Reading the written form of a list of two or more values that read back,
/// without parentheses, gives the list, all of the text being read.
#[verifier::rlimit(80)]
pub proof fn lemma_list_round_trip(items: Seq<ValueModel>)
    requires
        items.len() >= 2,
        forall|i: int| 0 <= i < items.len() ==> reads_back(#[trigger] items[i]),
    ensures
        spec_parse_value(ascii_bytes(value_text(ValueModel::Array(items)))) == (
            ValueModel::Array(items),
            ascii_bytes(value_text(ValueModel::Array(items))).len() as int,
        ),
{
    let s = ascii_bytes(value_text(ValueModel::Array(items)));
    lemma_list_text_first(items);
    let r = items.drop_first();
    assert forall|i: int| 0 <= i < r.len() implies reads_back(#[trigger] r[i]) by {
        assert(r[i] == items[i + 1]);
    }
    lemma_more_round_trip(r);
    let w = ascii_bytes(value_text(items[0]));
    let rb = ascii_bytes(tail_text(r));
    lemma_ascii_concat(value_text(items[0]), tail_text(r));
    assert(s =~= w + rb);
    assert(tail_text(r)[0] == ',');
    lemma_single_prefix(items[0], rb);
    assert(s.subrange(w.len() as int, s.len() as int) =~= rb);
    assert(seq![items[0]] + r =~= items);
}

/// Reading the written form of a value that reads back (an integer, a range,
/// an ASCII string without a quotation mark) gives it, all of the text being
/// read.
pub proof fn lemma_value_round_trip(m: ValueModel)
    requires
        reads_back(m),
    ensures
        spec_parse_value(ascii_bytes(value_text(m))) == (m, ascii_bytes(value_text(m)).len() as int),
{
    let s = ascii_bytes(value_text(m));
    lemma_single_prefix(m, Seq::empty());
    assert(s + Seq::<u8>::empty() =~= s);
    assert(s.subrange(s.len() as int, s.len() as int) =~= Seq::<u8>::empty());
}

/// A value readable back (see `reads_back`) whose written form holds no
/// closing parenthesis.
pub open spec fn reads_back_in_brackets(m: ValueModel) -> bool {
    &&& reads_back(m)
    &&& forall|i: int| 0 <= i < ascii_bytes(value_text(m)).len() ==> #[trigger] ascii_bytes(value_text(m))[i] != 0x29
}

proof fn lemma_tail_no_close(items: Seq<ValueModel>)
    requires
        forall|i: int| 0 <= i < items.len() ==> reads_back_in_brackets(#[trigger] items[i]),
    ensures
        forall|k: int| 0 <= k < ascii_bytes(tail_text(items)).len() ==> #[trigger] ascii_bytes(tail_text(items))[k] != 0x29,
    decreases items.len(),
{
    if items.len() > 0 {
        let r = items.drop_first();
        assert forall|i: int| 0 <= i < r.len() implies reads_back_in_brackets(#[trigger] r[i]) by {
            assert(r[i] == items[i + 1]);
        }
        lemma_tail_no_close(r);
        let w = ascii_bytes(value_text(items[0]));
        let rb = ascii_bytes(tail_text(r));
        lemma_ascii_concat(seq![','] + value_text(items[0]), tail_text(r));
        lemma_ascii_concat(seq![','], value_text(items[0]));
        assert(ascii_bytes(seq![',']) =~= seq![0x2Cu8]);
        let s = ascii_bytes(tail_text(items));
        assert(s =~= seq![0x2Cu8] + w + rb);
        assert(reads_back_in_brackets(items[0]));
        assert forall|k: int| 0 <= k < s.len() implies #[trigger] s[k] != 0x29 by {
            if k == 0 {
            } else if k < 1 + w.len() {
                assert(s[k] == w[k - 1]);
            } else {
                assert(s[k] == rb[k - 1 - w.len()]);
            }
        }
    }
}

proof fn lemma_find_close(s: Seq<u8>, i: int, j: int)
    requires
        0 <= i <= j < s.len(),
        s[j] == 0x29,
        forall|k: int| i <= k < j ==> #[trigger] s[k] != 0x29,
    ensures
        find_from(s, i, 0x29) == Some(j),
    decreases j - i,
{
    if i < j {
        lemma_find_close(s, i + 1, j);
    }
}

/// Reading the written form of a bracketed list of such values, none of
/// whose texts holds a closing parenthesis, gives the list back.
#[verifier::rlimit(80)]
pub proof fn lemma_bracketed_round_trip(items: Seq<ValueModel>)
    requires
        forall|i: int| 0 <= i < items.len() ==> reads_back_in_brackets(#[trigger] items[i]),
    ensures
        spec_parse_value(ascii_bytes(value_text(ValueModel::BracketedArray(items)))) == (
            ValueModel::BracketedArray(items),
            ascii_bytes(value_text(ValueModel::BracketedArray(items))).len() as int,
        ),
{
    let l = crate::at::list_text(items);
    let inner = ascii_bytes(l);
    let s = ascii_bytes(value_text(ValueModel::BracketedArray(items)));
    lemma_ascii_concat(seq!['('] + l, seq![')']);
    lemma_ascii_concat(seq!['('], l);
    assert(ascii_bytes(seq!['(']) =~= seq![0x28u8]);
    assert(ascii_bytes(seq![')']) =~= seq![0x29u8]);
    assert(s =~= seq![0x28u8] + inner + seq![0x29u8]);
    let n = inner.len() as int;
    if items.len() >= 1 {
        lemma_list_text_first(items);
        let r = items.drop_first();
        assert forall|i: int| 0 <= i < r.len() implies reads_back_in_brackets(#[trigger] r[i]) by {
            assert(r[i] == items[i + 1]);
        }
        lemma_tail_no_close(r);
        let w = ascii_bytes(value_text(items[0]));
        let rb = ascii_bytes(tail_text(r));
        lemma_ascii_concat(value_text(items[0]), tail_text(r));
        assert(inner =~= w + rb);
        assert(reads_back_in_brackets(items[0]));
        assert forall|k: int| 1 <= k < n + 1 implies #[trigger] s[k] != 0x29 by {
            assert(s[k] == inner[k - 1]);
            if k - 1 < w.len() {
                assert(inner[k - 1] == w[k - 1]);
            } else {
                assert(inner[k - 1] == rb[k - 1 - w.len()]);
            }
        }
    }
    lemma_find_close(s, 1, n + 1);
    assert(s.subrange(1, n + 1) =~= inner);
    if items.len() >= 2 {
        assert forall|i: int| 0 <= i < items.len() implies reads_back(#[trigger] items[i]) by {
            assert(reads_back_in_brackets(items[i]));
        }
        lemma_list_round_trip(items);
    } else if items.len() == 1 {
        assert(l == value_text(items[0]));
        assert(reads_back_in_brackets(items[0]));
        lemma_single_prefix(items[0], Seq::empty());
        assert(inner + Seq::<u8>::empty() =~= inner);
        assert(inner.subrange(n, n) =~= Seq::<u8>::empty());
        assert(seq![items[0]] =~= items);
    } else {
        assert(inner.len() == 0);
        assert(spec_parse_single(inner) == (ValueModel::Empty, 0int));
        assert(inner.subrange(0, 0) =~= Seq::<u8>::empty());
        assert(items =~= Seq::<ValueModel>::empty());
    }
    assert(spec_parse_bracketed(s) == Some((ValueModel::BracketedArray(items), n + 2)));
    assert(s.subrange(n + 2, s.len() as int) =~= Seq::<u8>::empty());
}

} // verus!
