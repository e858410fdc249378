//! Conversion of raw parameter values into typed values, in placeholder order.

use crate::query::{entries_view, EntryModel};
use crate::text::{all_digits, is_digit, key_index, lemma_key_index, str_eq, chars_of};
use vstd::prelude::*;

verus! {

/// The scalar type a field's raw value is bound as.
#[derive(Debug, Clone, Copy, PartialEq, Eq, Structural)]
pub enum ScalarType {
    I64,
    I32,
    Uuid,
    Text,
    Timestamp,
}

/// A typed value ready to be bound to a placeholder. A UUID is held as its
/// 128-bit big-endian value.
#[derive(Debug, PartialEq)]
pub enum BoundValue {
    I64(i64),
    I32(i32),
    Uuid(u128),
    Text(String),
    Timestamp(String),
}

/// A bound value, with text as a character sequence.
pub enum BoundModel {
    I64(i64),
    I32(i32),
    Uuid(u128),
    Text(Seq<char>),
    Timestamp(Seq<char>),
}

impl View for BoundValue {
    type V = BoundModel;

    open spec fn view(&self) -> BoundModel {
        match self {
            BoundValue::I64(v) => BoundModel::I64(*v),
            BoundValue::I32(v) => BoundModel::I32(*v),
            BoundValue::Uuid(v) => BoundModel::Uuid(*v),
            BoundValue::Text(s) => BoundModel::Text(s@),
            BoundValue::Timestamp(s) => BoundModel::Timestamp(s@),
        }
    }
}

/// Why a parameter could not be bound.
#[derive(Debug, Clone, Copy, PartialEq, Eq, Structural)]
pub enum BindErrorKind {
    /// The raw value does not parse as the field's type: a client error.
    InvalidValue,
    /// The field has no entry in the type map: the compiler and the type map
    /// disagree, an integrity error.
    Unbound,
}

/// The parameter, by its position, that could not be bound, and why.
#[derive(Debug, Clone, Copy, PartialEq, Eq, Structural)]
pub struct BindError {
    pub index: usize,
    pub kind: BindErrorKind,
}

/// The 128-bit value of the UUID that `s` spells, as the uuid crate reads it.
pub uninterp spec fn uuid_of(s: Seq<char>) -> Option<u128>;

/// Relies on uuid's `Uuid::parse_str`, read out with `Uuid::as_u128`: whether
/// `s` parses, and to what, depends on the characters of `s` alone.
#[verifier::external_body]
fn parse_uuid(s: &str) -> (r: Option<u128>)
    ensures
        r == uuid_of(s@),
{
    uuid::Uuid::parse_str(s).ok().map(|u| u.as_u128())
}

pub open spec fn digit_value(c: char) -> nat {
    if c == '1' {
        1
    } else if c == '2' {
        2
    } else if c == '3' {
        3
    } else if c == '4' {
        4
    } else if c == '5' {
        5
    } else if c == '6' {
        6
    } else if c == '7' {
        7
    } else if c == '8' {
        8
    } else if c == '9' {
        9
    } else {
        0
    }
}

/// The number that a run of decimal digits spells.
pub open spec fn digits_value(s: Seq<char>) -> nat
    decreases s.len(),
{
    if s.len() == 0 {
        0
    } else {
        digits_value(s.drop_last()) * 10 + digit_value(s.last())
    }
}

/// The integer that `s` spells in the notation `str::parse` accepts for signed
/// integers: an optional `+` or `-`, then one or more ASCII digits.
pub open spec fn int_of(s: Seq<char>) -> Option<int> {
    if s.len() > 0 && s[0] == '-' && all_digits(s.drop_first()) {
        Some(-(digits_value(s.drop_first()) as int))
    } else if s.len() > 0 && s[0] == '+' && all_digits(s.drop_first()) {
        Some(digits_value(s.drop_first()) as int)
    } else if all_digits(s) {
        Some(digits_value(s) as int)
    } else {
        None
    }
}

pub open spec fn i64_of(s: Seq<char>) -> Option<i64> {
    match int_of(s) {
        Some(v) => if i64::MIN <= v <= i64::MAX {
            Some(v as i64)
        } else {
            None
        },
        None => None,
    }
}

pub open spec fn i32_of(s: Seq<char>) -> Option<i32> {
    match int_of(s) {
        Some(v) => if i32::MIN <= v <= i32::MAX {
            Some(v as i32)
        } else {
            None
        },
        None => None,
    }
}

/// The value a raw string binds to as type `t`.
pub open spec fn value_of(t: ScalarType, raw: Seq<char>) -> Option<BoundModel> {
    match t {
        ScalarType::I64 => match i64_of(raw) {
            Some(v) => Some(BoundModel::I64(v)),
            None => None,
        },
        ScalarType::I32 => match i32_of(raw) {
            Some(v) => Some(BoundModel::I32(v)),
            None => None,
        },
        ScalarType::Uuid => match uuid_of(raw) {
            Some(v) => Some(BoundModel::Uuid(v)),
            None => None,
        },
        ScalarType::Text => Some(BoundModel::Text(raw)),
        ScalarType::Timestamp => Some(BoundModel::Timestamp(raw)),
    }
}

/// Binding the parameters in order; the first that fails stops it.
pub open spec fn bind_of(params: Seq<EntryModel>, types: Seq<(Seq<char>, ScalarType)>) -> Result<
    Seq<BoundModel>,
    BindError,
>
    decreases params.len(),
{
    if params.len() == 0 {
        Ok(Seq::empty())
    } else {
        match bind_of(params.drop_last(), types) {
            Err(e) => Err(e),
            Ok(vs) => {
                let i = params.len() - 1;
                let k = key_index(types, params.last().0);
                if k < 0 {
                    Err(BindError { index: i as usize, kind: BindErrorKind::Unbound })
                } else {
                    match value_of(types[k].1, params.last().1) {
                        Some(v) => Ok(vs.push(v)),
                        None => Err(BindError { index: i as usize, kind: BindErrorKind::InvalidValue }),
                    }
                }
            },
        }
    }
}

pub open spec fn type_views(v: Seq<(&str, ScalarType)>) -> Seq<(Seq<char>, ScalarType)> {
    v.map_values(|p: (&str, ScalarType)| (p.0@, p.1))
}

pub open spec fn values_view(v: Seq<BoundValue>) -> Seq<BoundModel> {
    v.map_values(|b: BoundValue| b@)
}

proof fn lemma_digits_value_grows(s: Seq<char>, k: int)
    requires
        0 <= k <= s.len(),
    ensures
        digits_value(s.take(k)) <= digits_value(s),
    decreases s.len() - k,
{
    if k < s.len() {
        lemma_digits_value_grows(s, k + 1);
        assert(s.take(k + 1).drop_last() =~= s.take(k));
    } else {
        assert(s.take(k) =~= s);
    }
}

/// The value of the digit run `cs[start..]`, when it is at most `limit`.
fn digits_up_to(cs: &Vec<char>, start: usize, limit: u64) -> (r: Option<u64>)
    requires
        start <= cs@.len(),
        all_digits(cs@.skip(start as int)),
    ensures
        match r {
            Some(v) => v == digits_value(cs@.skip(start as int)) && v <= limit,
            None => digits_value(cs@.skip(start as int)) > limit,
        },
{
    let ghost s = cs@.skip(start as int);
    let mut acc: u64 = 0;
    let mut i: usize = start;
    assert(s.take(0) =~= Seq::<char>::empty());
    while i < cs.len()
        invariant
            s == cs@.skip(start as int),
            all_digits(s),
            start <= i <= cs@.len(),
            acc == digits_value(s.take(i - start)),
            acc <= limit,
        decreases cs.len() - i,
    {
        let c = cs[i];
        assert(s[i - start] == c);
        assert(is_digit(c));
        let d: u64 = if c == '1' {
            1
        } else if c == '2' {
            2
        } else if c == '3' {
            3
        } else if c == '4' {
            4
        } else if c == '5' {
            5
        } else if c == '6' {
            6
        } else if c == '7' {
            7
        } else if c == '8' {
            8
        } else if c == '9' {
            9
        } else {
            0
        };
        assert(d == digit_value(c));
        assert(s.take(i - start + 1).drop_last() =~= s.take(i - start));
        assert(s.take(i - start + 1).last() == c);
        if d > limit || acc > (limit - d) / 10 {
            proof {
                assert(acc * 10 + d > limit) by (nonlinear_arith)
                    requires
                        d > limit || acc > (limit - d) / 10,
                        d <= 9,
                ;
                lemma_digits_value_grows(s, i - start + 1);
            }
            return None;
        }
        assert(acc * 10 + d <= limit) by (nonlinear_arith)
            requires
                acc <= (limit - d) / 10,
                d <= limit,
        ;
        acc = acc * 10 + d;
        i = i + 1;
    }
    assert(s.take(cs@.len() - start) =~= s);
    Some(acc)
}

/// Reads `s` as a 64-bit signed integer, in the notation `str::parse` accepts.
pub fn parse_i64(s: &str) -> (r: Option<i64>)
    ensures
        r == i64_of(s@),
{
    let cs = chars_of(s);
    if cs.len() == 0 {
        return None;
    }
    let negative = cs[0] == '-';
    let start: usize = if cs[0] == '-' || cs[0] == '+' {
        1
    } else {
        0
    };
    assert(cs@.skip(1) =~= s@.drop_first());
    assert(cs@.skip(0) =~= s@);
    let mut i: usize = start;
    while i < cs.len()
        invariant
            cs@ == s@,
            cs@.len() > 0,
            start == (if s@[0] == '-' || s@[0] == '+' {
                1usize
            } else {
                0usize
            }),
            start <= i <= cs@.len(),
            forall|j: int| start <= j < i ==> is_digit(#[trigger] cs@[j]),
        decreases cs.len() - i,
    {
        if !('0' <= cs[i] && cs[i] <= '9') {
            proof {
                assert(!is_digit(cs@.skip(start as int)[i - start]));
                assert(!is_digit(s@[i as int]));
                if start == 1 {
                    assert(s@.drop_first()[i - 1] == s@[i as int]);
                }
            }
            return None;
        }
        i = i + 1;
    }
    if start == cs.len() {
        return None;
    }
    assert(all_digits(cs@.skip(start as int)));
    if negative {
        match digits_up_to(&cs, start, 9223372036854775808u64) {
            Some(v) => {
                if v == 9223372036854775808u64 {
                    Some(i64::MIN)
                } else {
                    Some(-(v as i64))
                }
            },
            None => None,
        }
    } else {
        match digits_up_to(&cs, start, 9223372036854775807u64) {
            Some(v) => Some(v as i64),
            None => None,
        }
    }
}

/// Reads `s` as a 32-bit signed integer, in the notation `str::parse` accepts.
pub fn parse_i32(s: &str) -> (r: Option<i32>)
    ensures
        r == i32_of(s@),
{
    match parse_i64(s) {
        Some(v) => {
            if i32::MIN as i64 <= v && v <= i32::MAX as i64 {
                Some(v as i32)
            } else {
                None
            }
        },
        None => {
            proof {
                if int_of(s@) is Some {
                    let v = int_of(s@)->0;
                    assert(!(i64::MIN <= v <= i64::MAX));
                }
            }
            None
        },
    }
}

/// The value `raw` binds to as type `t`, if it parses as that type.
pub fn bind_value(t: ScalarType, raw: &str) -> (r: Option<BoundValue>)
    ensures
        match r {
            Some(b) => value_of(t, raw@) == Some(b@),
            None => value_of(t, raw@) is None,
        },
{
    match t {
        ScalarType::I64 => match parse_i64(raw) {
            Some(v) => Some(BoundValue::I64(v)),
            None => None,
        },
        ScalarType::I32 => match parse_i32(raw) {
            Some(v) => Some(BoundValue::I32(v)),
            None => None,
        },
        ScalarType::Uuid => match parse_uuid(raw) {
            Some(v) => Some(BoundValue::Uuid(v)),
            None => None,
        },
        ScalarType::Text => Some(BoundValue::Text(String::from_str(raw))),
        ScalarType::Timestamp => Some(BoundValue::Timestamp(String::from_str(raw))),
    }
}

/// Binds each `(field, raw value)` parameter, in order, as the type `types`
/// gives its field (the first entry for it). A field without an entry, or a
/// value that does not parse, stops binding with an error at that position.
pub fn bind_params(params: &Vec<(String, String)>, types: &[(&str, ScalarType)]) -> (r: Result<
    Vec<BoundValue>,
    BindError,
>)
    ensures
        match r {
            Ok(vs) => bind_of(entries_view(params@), type_views(types@)) == Ok::<
                Seq<BoundModel>,
                BindError,
            >(values_view(vs@)),
            Err(e) => bind_of(entries_view(params@), type_views(types@)) == Err::<
                Seq<BoundModel>,
                BindError,
            >(e),
        },
{
    let ghost ps = entries_view(params@);
    let ghost ts = type_views(types@);
    let mut values: Vec<BoundValue> = Vec::new();
    let mut i: usize = 0;
    assert(ps.take(0) =~= Seq::<EntryModel>::empty());
    assert(values_view(values@) =~= Seq::<BoundModel>::empty());
    while i < params.len()
        invariant
            ps == entries_view(params@),
            ts == type_views(types@),
            i <= params@.len(),
            bind_of(ps.take(i as int), ts) == Ok::<Seq<BoundModel>, BindError>(
                values_view(values@),
            ),
        decreases params.len() - i,
    {
        let field = params[i].0.as_str();
        let raw = params[i].1.as_str();
        assert(ps.take(i + 1).drop_last() =~= ps.take(i as int));
        assert(ps.take(i + 1).last() == (field@, raw@));
        proof {
            lemma_key_index(ts, field@);
        }
        let mut k: usize = 0;
        while k < types.len() && !str_eq(types[k].0, field)
            invariant
                ts == type_views(types@),
                k <= types@.len(),
                forall|j: int| 0 <= j < k ==> (#[trigger] ts[j]).0 != field@,
            decreases types.len() - k,
        {
            k = k + 1;
        }
        proof {
            lemma_key_index(ts, field@);
            let x = key_index(ts, field@);
            if 0 <= x < k {
                assert(ts[x].0 != field@);
            }
            if k < types@.len() {
                assert(ts[k as int].0 == field@);
            }
        }
        if k == types.len() {
            proof {
                let x = key_index(ts, field@);
                if x >= 0 {
                    assert(ts[x].0 == field@);
                }
                lemma_bind_error_persists(ps, i + 1, ts);
            }
            return Err(BindError { index: i, kind: BindErrorKind::Unbound });
        }
        assert(key_index(ts, field@) == k);
        match bind_value(types[k].1, raw) {
            Some(v) => {
                let ghost old_values = values@;
                values.push(v);
                assert(values_view(values@) =~= values_view(old_values).push(v@));
            },
            None => {
                proof {
                    lemma_bind_error_persists(ps, i + 1, ts);
                }
                return Err(BindError { index: i, kind: BindErrorKind::InvalidValue });
            },
        }
        i = i + 1;
    }
    assert(ps.take(params@.len() as int) =~= ps);
    Ok(values)
}

proof fn lemma_bind_error_persists(
    params: Seq<EntryModel>,
    n: int,
    types: Seq<(Seq<char>, ScalarType)>,
)
    requires
        0 <= n <= params.len(),
        bind_of(params.take(n), types) is Err,
    ensures
        bind_of(params, types) == bind_of(params.take(n), types),
    decreases params.len() - n,
{
    if n < params.len() {
        assert(params.take(n + 1).drop_last() =~= params.take(n));
        lemma_bind_error_persists(params, n + 1, types);
    } else {
        assert(params.take(n) =~= params);
    }
}

} // verus!
