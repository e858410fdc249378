//! Sort tokens (`field-direction`).

use crate::case::{snake_of, to_snake};
use crate::error::{viewed, ParseError};
use crate::filter::space;
use crate::text::{contains_str, split_once, split_once_str, str_eq, views};
use vstd::prelude::*;

verus! {

/// Direction of a sort.
#[derive(Debug, Clone, Copy, PartialEq, Eq, Structural)]
pub enum SortBy {
    ASC,
    DESC,
}

/// The direction named by `asc` or `desc`.
pub open spec fn direction_of(s: Seq<char>) -> Result<SortBy, ParseError> {
    if s == seq!['a', 's', 'c'] {
        Ok(SortBy::ASC)
    } else if s == seq!['d', 'e', 's', 'c'] {
        Ok(SortBy::DESC)
    } else {
        Err(ParseError::InvalidSortBy)
    }
}

/// The SQL keyword of a direction.
pub open spec fn keyword_of(d: SortBy) -> Seq<char> {
    match d {
        SortBy::ASC => seq!['A', 'S', 'C'],
        SortBy::DESC => seq!['D', 'E', 'S', 'C'],
    }
}

impl SortBy {
    /// Parses `asc` or `desc`.
    pub fn from_code(s: &str) -> (r: Result<SortBy, ParseError>)
        ensures
            r == direction_of(s@),
    {
        proof {
            reveal_strlit("asc");
            reveal_strlit("desc");
            assert("asc"@ =~= seq!['a', 's', 'c']);
            assert("desc"@ =~= seq!['d', 'e', 's', 'c']);
        }
        if str_eq(s, "asc") {
            Ok(SortBy::ASC)
        } else if str_eq(s, "desc") {
            Ok(SortBy::DESC)
        } else {
            Err(ParseError::InvalidSortBy)
        }
    }

    /// The SQL keyword of this direction.
    pub fn as_str(&self) -> (r: &str)
        ensures
            r@ == keyword_of(*self),
    {
        proof {
            reveal_strlit("ASC");
            reveal_strlit("DESC");
        }
        match self {
            SortBy::ASC => "ASC",
            SortBy::DESC => "DESC",
        }
    }
}

/// An ordering of the result rows by one field.
#[derive(Debug, PartialEq)]
pub struct Sort {
    pub field: String,
    pub sort_by: SortBy,
}

impl View for Sort {
    type V = (Seq<char>, SortBy);

    open spec fn view(&self) -> Self::V {
        (self.field@, self.sort_by)
    }
}

/// The sort that `token` denotes under the allowlist `allowed`: the token is cut at
/// its first hyphen into field and direction.
pub open spec fn sort_of(token: Seq<char>, allowed: Seq<Seq<char>>) -> Result<
    (Seq<char>, SortBy),
    ParseError,
> {
    match split_once(token, '-') {
        None => Err(ParseError::InvalidSort),
        Some((field, direction)) => if !allowed.contains(field) {
            Err(ParseError::InvalidField)
        } else {
            match direction_of(direction) {
                Ok(d) => Ok((field, d)),
                Err(e) => Err(e),
            }
        },
    }
}

impl Sort {
    /// Parses a sort token `field-direction` against the allowlist `fields`.
    pub fn new(str: &str, fields: &[&str]) -> (r: Result<Self, ParseError>)
        ensures
            viewed(r) == sort_of(str@, views(fields@)),
    {
        let (field, sort_by) = match split_once_str(str, '-') {
            Some(pair) => pair,
            None => {
                return Err(ParseError::InvalidSort);
            },
        };
        if !contains_str(fields, field) {
            return Err(ParseError::InvalidField);
        }
        let sort_by = match SortBy::from_code(sort_by) {
            Ok(d) => d,
            Err(e) => {
                return Err(e);
            },
        };
        Ok(Sort { field: String::from_str(field), sort_by })
    }

    /// The sort as `field DIRECTION`.
    pub fn to_string(&self) -> (r: String)
        ensures
            r@ == self.field@ + space() + keyword_of(self.sort_by),
    {
        proof {
            reveal_strlit(" ");
        }
        let mut sort = String::new();
        sort.append(self.field.as_str());
        sort.append(" ");
        sort.append(self.sort_by.as_str());
        sort
    }

    /// The sort as `column DIRECTION`, with the field in snake_case.
    pub fn to_camel_string(&self) -> (r: String)
        ensures
            r@ == snake_of(self.field@) + space() + keyword_of(self.sort_by),
    {
        proof {
            reveal_strlit(" ");
        }
        let column = to_snake(self.field.as_str());
        let mut sort = String::new();
        sort.append(column.as_str());
        sort.append(" ");
        sort.append(self.sort_by.as_str());
        sort
    }
}

} // verus!
