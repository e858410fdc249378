//! The per-endpoint pipeline: validate a parsed query, compile it, bind its
//! parameters; and the endpoints of the storefront.

use crate::binder::{
    bind_of, bind_params, type_views, values_view, BindError, BoundModel, BoundValue, ScalarType,
};
use crate::error::ParseError;
use crate::query::{first_missing, has_key, limit_offset_check, Query, QueryModel};
use crate::sql::{compile, sql_of};
use crate::text::{key_index, lemma_key_index, pair_views, str_eq, views};
use vstd::prelude::*;

verus! {

/// What an endpoint accepts, and how its statement is built and bound.
pub struct Endpoint {
    /// The statement prefix: `SELECT ... FROM ...` with any joins.
    pub base: &'static str,
    /// Fields that filters and sorts may name.
    pub allowed: Vec<&'static str>,
    /// Keys that the equality map must hold.
    pub required: Vec<&'static str>,
    /// Whether `limit` and `offset` must both be given.
    pub paged: bool,
    /// Fields whose column must be qualified by a table, with that table.
    pub columns: Vec<(&'static str, &'static str)>,
    /// The type each field's raw value is bound as.
    pub types: Vec<(&'static str, ScalarType)>,
}

/// Why a request's query was refused.
#[derive(Debug, PartialEq)]
pub enum RequestError {
    /// The query string broke the grammar, or its pagination was not numeric.
    Query(ParseError),
    /// A required key, `limit` or `offset` was missing; the message says which.
    Rejected(String),
    /// A parameter could not be bound.
    Bind(BindError),
    /// The query held no equality constraint where one is needed.
    Unconstrained,
}

/// A request error, with its message as a character sequence.
pub enum RequestFailure {
    Query(ParseError),
    Rejected(Seq<char>),
    Bind(BindError),
    Unconstrained,
}

impl View for RequestError {
    type V = RequestFailure;

    open spec fn view(&self) -> RequestFailure {
        match self {
            RequestError::Query(e) => RequestFailure::Query(*e),
            RequestError::Rejected(m) => RequestFailure::Rejected(m@),
            RequestError::Bind(e) => RequestFailure::Bind(*e),
            RequestError::Unconstrained => RequestFailure::Unconstrained,
        }
    }
}

/// The SQL text and typed values that endpoint `e` makes of the query `q`, or
/// the first check that refuses it: required keys, then pagination, then
/// compiling, then binding.
pub open spec fn prepared_of(e: Endpoint, q: QueryModel) -> Result<
    (Seq<char>, Seq<BoundModel>),
    RequestFailure,
> {
    let required = views(e.required@);
    let m = first_missing(required, q.query);
    if m >= 0 {
        Err(RequestFailure::Rejected(required[m] + " is required"@))
    } else if e.paged && limit_offset_check(q.limit, q.offset) is Err {
        Err(RequestFailure::Rejected(limit_offset_check(q.limit, q.offset)->Err_0))
    } else {
        match sql_of(e.base@, q, pair_views(e.columns@)) {
            Err(x) => Err(RequestFailure::Query(x)),
            Ok((sql, params)) => match bind_of(params, type_views(e.types@)) {
                Err(x) => Err(RequestFailure::Bind(x)),
                Ok(vs) => Ok((sql, vs)),
            },
        }
    }
}

pub open spec fn prepared_view(r: Result<(String, Vec<BoundValue>), RequestError>) -> Result<
    (Seq<char>, Seq<BoundModel>),
    RequestFailure,
> {
    match r {
        Ok((sql, vs)) => Ok((sql@, values_view(vs@))),
        Err(e) => Err(e@),
    }
}

/// Index of the first allowlisted field without a type, or -1.
pub open spec fn first_untyped(allowed: Seq<Seq<char>>, types: Seq<(Seq<char>, ScalarType)>) -> int
    decreases allowed.len(),
{
    if allowed.len() == 0 {
        -1
    } else {
        let r = first_untyped(allowed.drop_last(), types);
        if r >= 0 {
            r
        } else if key_index(types, allowed.last()) < 0 {
            allowed.len() - 1
        } else {
            -1
        }
    }
}

pub proof fn lemma_first_untyped(allowed: Seq<Seq<char>>, types: Seq<(Seq<char>, ScalarType)>)
    ensures
        -1 <= first_untyped(allowed, types) < allowed.len(),
        first_untyped(allowed, types) >= 0 ==> key_index(
            types,
            allowed[first_untyped(allowed, types)],
        ) < 0,
        forall|j: int|
            0 <= j < allowed.len() && (first_untyped(allowed, types) < 0 || j < first_untyped(
                allowed,
                types,
            )) ==> key_index(types, #[trigger] allowed[j]) >= 0,
    decreases allowed.len(),
{
    if allowed.len() > 0 {
        lemma_first_untyped(allowed.drop_last(), types);
        assert forall|j: int| 0 <= j < allowed.len() - 1 implies #[trigger] allowed[j]
            == allowed.drop_last()[j] by {}
    }
}

impl Endpoint {
    /// Validates, compiles and binds a query parsed against this endpoint's
    /// allowlist.
    pub fn prepare(&self, query: &Query) -> (r: Result<(String, Vec<BoundValue>), RequestError>)
        ensures
            prepared_view(r) == prepared_of(*self, query@),
    {
        let mut required: Vec<&str> = Vec::new();
        let mut i: usize = 0;
        while i < self.required.len()
            invariant
                i <= self.required@.len(),
                required@ == self.required@.take(i as int),
            decreases self.required.len() - i,
        {
            required.push(self.required[i]);
            assert(required@ =~= self.required@.take(i + 1));
            i = i + 1;
        }
        assert(required@ =~= self.required@);
        let ghost req = views(self.required@);
        if let Err(msg) = query.check_valid(required) {
            proof {
                crate::query::lemma_first_missing(req, query@.query);
                let m = first_missing(req, query@.query);
                assert(req[m] == self.required@[m]@);
            }
            return Err(RequestError::Rejected(msg));
        }
        if self.paged {
            if let Err(msg) = query.check_limit_and_offset() {
                return Err(RequestError::Rejected(msg));
            }
        }
        let (sql, params) = match compile(self.base, query, self.columns.as_slice()) {
            Ok(compiled) => compiled,
            Err(e) => {
                return Err(RequestError::Query(e));
            },
        };
        let values = match bind_params(&params, self.types.as_slice()) {
            Ok(values) => values,
            Err(e) => {
                return Err(RequestError::Bind(e));
            },
        };
        Ok((sql, values))
    }

    /// The first allowlisted field that has no type to bind it as, if any: a
    /// filter on it would compile to a placeholder that nothing binds.
    pub fn untyped_field(&self) -> (r: Option<usize>)
        ensures
            match r {
                Some(i) => i == first_untyped(views(self.allowed@), type_views(self.types@)),
                None => first_untyped(views(self.allowed@), type_views(self.types@)) < 0,
            },
    {
        let ghost allowed = views(self.allowed@);
        let ghost ts = type_views(self.types@);
        let mut i: usize = 0;
        while i < self.allowed.len()
            invariant
                allowed == views(self.allowed@),
                ts == type_views(self.types@),
                i <= self.allowed@.len(),
                forall|j: int| 0 <= j < i ==> key_index(ts, #[trigger] allowed[j]) >= 0,
            decreases self.allowed.len() - i,
        {
            let field = self.allowed[i];
            let mut k: usize = 0;
            while k < self.types.len() && !str_eq(self.types[k].0, field)
                invariant
                    ts == type_views(self.types@),
                    k <= self.types@.len(),
                    forall|j: int| 0 <= j < k ==> (#[trigger] ts[j]).0 != field@,
                decreases self.types.len() - k,
            {
                k = k + 1;
            }
            proof {
                lemma_key_index(ts, field@);
                let x = key_index(ts, field@);
                if 0 <= x < k {
                    assert(ts[x].0 != field@);
                }
                if k < self.types@.len() {
                    assert(ts[k as int].0 == field@);
                } else if x >= 0 {
                    assert(ts[x].0 == field@);
                }
            }
            if k == self.types.len() {
                proof {
                    lemma_first_untyped(allowed, ts);
                    let f = first_untyped(allowed, ts);
                    assert(key_index(ts, allowed[i as int]) < 0);
                    if 0 <= f < i {
                        assert(key_index(ts, allowed[f]) >= 0);
                    }
                }
                return Some(i);
            }
            i = i + 1;
        }
        proof {
            lemma_first_untyped(allowed, ts);
            let f = first_untyped(allowed, ts);
            if f >= 0 {
                assert(key_index(ts, allowed[f]) >= 0);
            }
        }
        None
    }
}

/// Sets up a parsed orders query: one with no equality constraint is refused;
/// one that names an order `id` asks for that order's lines, ungrouped (returns
/// `true`); any other lists orders grouped by `id` (returns `false`).
pub fn plan_orders(query: &mut Query) -> (r: Result<bool, RequestError>)
    ensures
        old(query)@.query.len() == 0 ==> r == Err::<bool, RequestError>(
            RequestError::Unconstrained,
        ) && final(query)@ == old(query)@,
        old(query)@.query.len() > 0 ==> ({
            let detail = has_key(old(query)@.query, "id"@);
            &&& r == Ok::<bool, RequestError>(detail)
            &&& final(query)@ == QueryModel {
                group_by: if detail {
                    None
                } else {
                    Some("id"@)
                },
                ..old(query)@
            }
        }),
{
    if query.query.len() == 0 {
        return Err(RequestError::Unconstrained);
    }
    if query.has_key("id") {
        query.group_by = None;
        Ok(true)
    } else {
        query.group_by = Some(String::from_str("id"));
        Ok(false)
    }
}

/// Addresses of one user: `userId` is required, and pagination.
pub fn address_endpoint() -> (r: Endpoint)
    ensures
        r.base@ == "SELECT * FROM address"@,
        views(r.allowed@) == seq!["userId"@],
        views(r.required@) == seq!["userId"@],
        r.paged,
        r.columns@.len() == 0,
        type_views(r.types@) == seq![("userId"@, ScalarType::I64)],
{
    let r = Endpoint {
        base: "SELECT * FROM address",
        allowed: vec!["userId"],
        required: vec!["userId"],
        paged: true,
        columns: Vec::new(),
        types: vec![("userId", ScalarType::I64)],
    };
    assert(views(r.allowed@) =~= seq!["userId"@]);
    assert(views(r.required@) =~= seq!["userId"@]);
    assert(type_views(r.types@) =~= seq![("userId"@, ScalarType::I64)]);
    r
}

/// Inventory items, filtered and sorted on stock fields, with pagination.
pub fn inventory_endpoint() -> (r: Endpoint)
    ensures
        r.base@ == "SELECT * FROM inventory"@,
        views(r.allowed@) == seq!["quantity"@, "id"@, "price"@, "createdAt"@],
        r.required@.len() == 0,
        r.paged,
        r.columns@.len() == 0,
        type_views(r.types@) == seq![
            ("id"@, ScalarType::I64),
            ("quantity"@, ScalarType::I32),
            ("price"@, ScalarType::I32),
            ("createdAt"@, ScalarType::Timestamp),
        ],
{
    let r = Endpoint {
        base: "SELECT * FROM inventory",
        allowed: vec!["quantity", "id", "price", "createdAt"],
        required: Vec::new(),
        paged: true,
        columns: Vec::new(),
        types: vec![
            ("id", ScalarType::I64),
            ("quantity", ScalarType::I32),
            ("price", ScalarType::I32),
            ("createdAt", ScalarType::Timestamp),
        ],
    };
    assert(views(r.allowed@) =~= seq!["quantity"@, "id"@, "price"@, "createdAt"@]);
    assert(type_views(r.types@) =~= seq![
        ("id"@, ScalarType::I64),
        ("quantity"@, ScalarType::I32),
        ("price"@, ScalarType::I32),
        ("createdAt"@, ScalarType::Timestamp),
    ]);
    r
}

/// Orders with their totals, over the joined order lines and inventory; `id`
/// names the orders table.
pub fn orders_endpoint() -> (r: Endpoint)
    ensures
        r.base@ == ("SELECT orders.id, user_id, status, address_id, orders.created_at, "@
            + "SUM(order_items.quantity * price) AS total FROM orders "@
            + "JOIN order_items ON orders.id = order_items.order_id "@
            + "JOIN inventory ON order_items.inventory_id = inventory.id"@),
        views(r.allowed@) == seq!["userId"@, "id"@, "createdAt"@],
        r.required@.len() == 0,
        r.paged,
        pair_views(r.columns@) == seq![("id"@, "orders"@)],
        type_views(r.types@) == seq![
            ("id"@, ScalarType::Uuid),
            ("userId"@, ScalarType::I64),
            ("createdAt"@, ScalarType::Timestamp),
        ],
{
    proof {
        reveal_strlit("SELECT orders.id, user_id, status, address_id, orders.created_at, ");
        reveal_strlit("SUM(order_items.quantity * price) AS total FROM orders ");
        reveal_strlit("JOIN order_items ON orders.id = order_items.order_id ");
        reveal_strlit("JOIN inventory ON order_items.inventory_id = inventory.id");
        reveal_strlit(
            "SELECT orders.id, user_id, status, address_id, orders.created_at, SUM(order_items.quantity * price) AS total FROM orders JOIN order_items ON orders.id = order_items.order_id JOIN inventory ON order_items.inventory_id = inventory.id",
        );
    }
    let r = Endpoint {
        base: "SELECT orders.id, user_id, status, address_id, orders.created_at, SUM(order_items.quantity * price) AS total FROM orders JOIN order_items ON orders.id = order_items.order_id JOIN inventory ON order_items.inventory_id = inventory.id",
        allowed: vec!["userId", "id", "createdAt"],
        required: Vec::new(),
        paged: true,
        columns: vec![("id", "orders")],
        types: vec![
            ("id", ScalarType::Uuid),
            ("userId", ScalarType::I64),
            ("createdAt", ScalarType::Timestamp),
        ],
    };
    assert(r.base@ =~= "SELECT orders.id, user_id, status, address_id, orders.created_at, "@
        + "SUM(order_items.quantity * price) AS total FROM orders "@
        + "JOIN order_items ON orders.id = order_items.order_id "@
        + "JOIN inventory ON order_items.inventory_id = inventory.id"@);
    assert(views(r.allowed@) =~= seq!["userId"@, "id"@, "createdAt"@]);
    assert(pair_views(r.columns@) =~= seq![("id"@, "orders"@)]);
    assert(type_views(r.types@) =~= seq![
        ("id"@, ScalarType::Uuid),
        ("userId"@, ScalarType::I64),
        ("createdAt"@, ScalarType::Timestamp),
    ]);
    r
}

/// The lines of one order, over the joined order lines and inventory; `id` and
/// `createdAt` name the orders table.
pub fn order_details_endpoint() -> (r: Endpoint)
    ensures
        r.base@ == ("SELECT orders.id, name, image_url, status, order_items.quantity, "@
            + "price, order_items.quantity * price AS total FROM orders "@
            + "JOIN order_items ON orders.id = order_items.order_id "@
            + "JOIN inventory ON order_items.inventory_id = inventory.id"@),
        views(r.allowed@) == seq!["userId"@, "id"@, "createdAt"@],
        r.required@.len() == 0,
        r.paged,
        pair_views(r.columns@) == seq![("id"@, "orders"@), ("createdAt"@, "orders"@)],
        type_views(r.types@) == seq![
            ("id"@, ScalarType::Uuid),
            ("userId"@, ScalarType::I64),
            ("createdAt"@, ScalarType::Timestamp),
        ],
{
    proof {
        reveal_strlit("SELECT orders.id, name, image_url, status, order_items.quantity, ");
        reveal_strlit("price, order_items.quantity * price AS total FROM orders ");
        reveal_strlit("JOIN order_items ON orders.id = order_items.order_id ");
        reveal_strlit("JOIN inventory ON order_items.inventory_id = inventory.id");
        reveal_strlit(
            "SELECT orders.id, name, image_url, status, order_items.quantity, price, order_items.quantity * price AS total FROM orders JOIN order_items ON orders.id = order_items.order_id JOIN inventory ON order_items.inventory_id = inventory.id",
        );
    }
    let r = Endpoint {
        base: "SELECT orders.id, name, image_url, status, order_items.quantity, price, order_items.quantity * price AS total FROM orders JOIN order_items ON orders.id = order_items.order_id JOIN inventory ON order_items.inventory_id = inventory.id",
        allowed: vec!["userId", "id", "createdAt"],
        required: Vec::new(),
        paged: true,
        columns: vec![("id", "orders"), ("createdAt", "orders")],
        types: vec![
            ("id", ScalarType::Uuid),
            ("userId", ScalarType::I64),
            ("createdAt", ScalarType::Timestamp),
        ],
    };
    assert(r.base@ =~= "SELECT orders.id, name, image_url, status, order_items.quantity, "@
        + "price, order_items.quantity * price AS total FROM orders "@
        + "JOIN order_items ON orders.id = order_items.order_id "@
        + "JOIN inventory ON order_items.inventory_id = inventory.id"@);
    assert(views(r.allowed@) =~= seq!["userId"@, "id"@, "createdAt"@]);
    assert(pair_views(r.columns@) =~= seq![("id"@, "orders"@), ("createdAt"@, "orders"@)]);
    assert(type_views(r.types@) =~= seq![
        ("id"@, ScalarType::Uuid),
        ("userId"@, ScalarType::I64),
        ("createdAt"@, ScalarType::Timestamp),
    ]);
    r
}

} // verus!
