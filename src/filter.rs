//! Comparison conditions and filter tokens (`field-condition-value`).

use crate::case::{snake_of, to_snake};
use crate::error::{viewed, ParseError};
use crate::text::{
    contains_str, count_of, decimal, decimal_string, lemma_count_concat, lemma_count_positive,
    lemma_split_len, lemma_split_prefix, split_on, split_str, views,
};
use vstd::prelude::*;

verus! {

/// A comparison between a column and a bound value.
#[derive(Debug, Clone, Copy, PartialEq, Eq, Structural)]
pub enum Condition {
    EQ,
    NE,
    GT,
    GE,
    LT,
    LE,
}

/// The condition named by a two-letter code.
pub open spec fn condition_of(code: Seq<char>) -> Result<Condition, ParseError> {
    if code == seq!['e', 'q'] {
        Ok(Condition::EQ)
    } else if code == seq!['n', 'e'] {
        Ok(Condition::NE)
    } else if code == seq!['g', 't'] {
        Ok(Condition::GT)
    } else if code == seq!['g', 'e'] {
        Ok(Condition::GE)
    } else if code == seq!['l', 't'] {
        Ok(Condition::LT)
    } else if code == seq!['l', 'e'] {
        Ok(Condition::LE)
    } else {
        Err(ParseError::InvalidCondition)
    }
}

/// The SQL operator of a condition.
pub open spec fn operator_of(c: Condition) -> Seq<char> {
    match c {
        Condition::EQ => seq!['='],
        Condition::NE => seq!['!', '='],
        Condition::GT => seq!['>'],
        Condition::GE => seq!['>', '='],
        Condition::LT => seq!['<'],
        Condition::LE => seq!['<', '='],
    }
}

impl Condition {
    /// Parses a two-letter condition code.
    pub fn from_code(s: &str) -> (r: Result<Condition, ParseError>)
        ensures
            r == condition_of(s@),
    {
        proof {
            reveal_strlit("eq");
            reveal_strlit("ne");
            reveal_strlit("gt");
            reveal_strlit("ge");
            reveal_strlit("lt");
            reveal_strlit("le");
            assert("eq"@ =~= seq!['e', 'q']);
            assert("ne"@ =~= seq!['n', 'e']);
            assert("gt"@ =~= seq!['g', 't']);
            assert("ge"@ =~= seq!['g', 'e']);
            assert("lt"@ =~= seq!['l', 't']);
            assert("le"@ =~= seq!['l', 'e']);
        }
        if crate::text::str_eq(s, "eq") {
            Ok(Condition::EQ)
        } else if crate::text::str_eq(s, "ne") {
            Ok(Condition::NE)
        } else if crate::text::str_eq(s, "gt") {
            Ok(Condition::GT)
        } else if crate::text::str_eq(s, "ge") {
            Ok(Condition::GE)
        } else if crate::text::str_eq(s, "lt") {
            Ok(Condition::LT)
        } else if crate::text::str_eq(s, "le") {
            Ok(Condition::LE)
        } else {
            Err(ParseError::InvalidCondition)
        }
    }

    /// The SQL operator symbol of this condition.
    pub fn as_str(&self) -> (r: &str)
        ensures
            r@ == operator_of(*self),
    {
        proof {
            reveal_strlit("=");
            reveal_strlit("!=");
            reveal_strlit(">");
            reveal_strlit(">=");
            reveal_strlit("<");
            reveal_strlit("<=");
        }
        match self {
            Condition::EQ => "=",
            Condition::NE => "!=",
            Condition::GT => ">",
            Condition::GE => ">=",
            Condition::LT => "<",
            Condition::LE => "<=",
        }
    }
}

/// A comparison `field condition value` taken from a `filter[]` token.
#[derive(Debug, PartialEq)]
pub struct Filter {
    pub field: String,
    pub condition: Condition,
    pub value: String,
}

impl View for Filter {
    type V = (Seq<char>, Condition, Seq<char>);

    open spec fn view(&self) -> Self::V {
        (self.field@, self.condition, self.value@)
    }
}

/// The filter that `token` denotes under the allowlist `allowed`.
pub open spec fn filter_of(token: Seq<char>, allowed: Seq<Seq<char>>) -> Result<
    (Seq<char>, Condition, Seq<char>),
    ParseError,
> {
    let parts = split_on(token, '-');
    if parts.len() != 3 {
        Err(ParseError::InvalidFilter)
    } else if !allowed.contains(parts[0]) {
        Err(ParseError::InvalidField)
    } else {
        match condition_of(parts[1]) {
            Ok(c) => Ok((parts[0], c, parts[2])),
            Err(e) => Err(e),
        }
    }
}

/// `field`, `condition`, `value` joined by hyphens into one filter token.
pub open spec fn filter_token(field: Seq<char>, code: Seq<char>, value: Seq<char>) -> Seq<char> {
    field + seq!['-'] + code + seq!['-'] + value
}

/// The separator between the parts of a rendered filter or sort.
pub open spec fn space() -> Seq<char> {
    seq![' ']
}

impl Filter {
    /// Parses a filter token `field-condition-value` against the allowlist `fields`.
    pub fn new(str: &str, fields: &[&str]) -> (r: Result<Self, ParseError>)
        ensures
            viewed(r) == filter_of(str@, views(fields@)),
    {
        let split = split_str(str, '-');
        if split.len() != 3 {
            return Err(ParseError::InvalidFilter);
        }
        if !contains_str(fields, split[0]) {
            return Err(ParseError::InvalidField);
        }
        let condition = match Condition::from_code(split[1]) {
            Ok(c) => c,
            Err(e) => {
                return Err(e);
            },
        };
        Ok(Filter { field: String::from_str(split[0]), condition, value: String::from_str(split[2]) })
    }

    /// The filter as `field op value`.
    pub fn to_string(&self) -> (r: String)
        ensures
            r@ == self.field@ + space() + operator_of(self.condition) + space() + self.value@,
    {
        proof {
            reveal_strlit(" ");
        }
        let mut res = String::new();
        res.append(self.field.as_str());
        res.append(" ");
        res.append(self.condition.as_str());
        res.append(" ");
        res.append(self.value.as_str());
        res
    }

    /// The filter as `column op value`, with the field in snake_case.
    pub fn to_camel_string(&self) -> (r: String)
        ensures
            r@ == snake_of(self.field@) + space() + operator_of(self.condition) + space()
                + self.value@,
    {
        proof {
            reveal_strlit(" ");
        }
        let column = to_snake(self.field.as_str());
        let mut res = String::new();
        res.append(column.as_str());
        res.append(" ");
        res.append(self.condition.as_str());
        res.append(" ");
        res.append(self.value.as_str());
        res
    }

    /// The filter as `column op $idx`, with the field in snake_case.
    pub fn to_camel_psql_string(&self, idx: usize) -> (r: String)
        ensures
            r@ == snake_of(self.field@) + space() + operator_of(self.condition) + space()
                + seq!['$'] + decimal(idx as nat),
    {
        proof {
            reveal_strlit(" ");
            reveal_strlit("$");
        }
        let column = to_snake(self.field.as_str());
        let number = decimal_string(idx as u64);
        let mut res = String::new();
        res.append(column.as_str());
        res.append(" ");
        res.append(self.condition.as_str());
        res.append(" ");
        res.append("$");
        res.append(number.as_str());
        res
    }
}

/// A token `f-c-v`, with `f` free of hyphens, `c` a valid condition code and `v`
/// free of hyphens, parses into the filter `(f, c, v)` when `f` is allowlisted, and
/// fails with `InvalidField` when it is not.
pub proof fn lemma_filter_token(
    f: Seq<char>,
    c: Seq<char>,
    v: Seq<char>,
    allowed: Seq<Seq<char>>,
)
    requires
        !f.contains('-'),
        !v.contains('-'),
        condition_of(c) is Ok,
    ensures
        allowed.contains(f) ==> filter_of(filter_token(f, c, v), allowed) == Ok::<
            (Seq<char>, Condition, Seq<char>),
            ParseError,
        >((f, condition_of(c)->Ok_0, v)),
        !allowed.contains(f) ==> filter_of(filter_token(f, c, v), allowed) == Err::<
            (Seq<char>, Condition, Seq<char>),
            ParseError,
        >(ParseError::InvalidField),
{
    assert(!c.contains('-')) by {
        if c.contains('-') {
            let k = choose|k: int| 0 <= k < c.len() && c[k] == '-';
            assert(c.len() == 2);
        }
    }
    let rest = c + seq!['-'] + v;
    assert(filter_token(f, c, v) =~= f + seq!['-'] + rest);
    lemma_split_prefix(f, rest, '-');
    lemma_split_prefix(c, v, '-');
    crate::text::lemma_split_without_sep(v, '-');
    let parts = split_on(filter_token(f, c, v), '-');
    assert(parts =~= seq![f, c, v]);
}

/// A token `f-c-v` whose value `v` holds a hyphen splits into more than three
/// parts, so it fails with `InvalidFilter`, whatever the allowlist.
pub proof fn lemma_hyphen_in_value(
    f: Seq<char>,
    c: Seq<char>,
    v: Seq<char>,
    allowed: Seq<Seq<char>>,
)
    requires
        v.contains('-'),
    ensures
        filter_of(filter_token(f, c, v), allowed) == Err::<
            (Seq<char>, Condition, Seq<char>),
            ParseError,
        >(ParseError::InvalidFilter),
{
    let t = filter_token(f, c, v);
    lemma_count_concat(f + seq!['-'] + c + seq!['-'], v, '-');
    lemma_count_concat(f + seq!['-'] + c, seq!['-'], '-');
    lemma_count_concat(f + seq!['-'], c, '-');
    lemma_count_concat(f, seq!['-'], '-');
    assert(count_of(seq!['-'], '-') == 1) by {
        assert(seq!['-'].drop_last() =~= Seq::<char>::empty());
        assert(seq!['-'].last() == '-');
        assert(count_of(Seq::<char>::empty(), '-') == 0);
    }
    lemma_count_positive(v, '-');
    lemma_split_len(t, '-');
}

} // verus!
