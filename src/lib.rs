//! Compiles untrusted URL query strings into parameterized SQL.
//!
//! A query string is parsed against an endpoint's allowlist into a [`Query`]
//! (equality constraints, filters, an optional sort and pagination), checked,
//! compiled into SQL text with `$n` placeholders and an ordered parameter
//! list, and the parameters are converted into typed values for binding.

pub mod binder;
pub mod case;
pub mod endpoint;
pub mod error;
pub mod filter;
pub mod params;
pub mod query;
pub mod session;
pub mod sort;
pub mod sql;
pub mod text;
pub mod token;

pub use binder::{bind_params, BindError, BindErrorKind, BoundValue, ScalarType};
pub use error::ParseError;
pub use filter::{Condition, Filter};
pub use params::parse_query;
pub use query::Query;
pub use session::{cart_key, gen_session};
pub use sort::{Sort, SortBy};
pub use sql::{compile, gen_psql};
