use storefront::endpoint::{
    address_endpoint, inventory_endpoint, order_details_endpoint, orders_endpoint, plan_orders,
    Endpoint, RequestError,
};
use storefront::{BindError, BindErrorKind, BoundValue, ParseError, Query, ScalarType};

fn parse(endpoint: &Endpoint, raw: &str) -> Query {
    Query::new(raw, &endpoint.allowed).unwrap()
}

#[test]
fn address_request_compiles_and_binds() {
    let e = address_endpoint();
    let q = parse(&e, "userId=5&limit=10&offset=0");
    assert_eq!(
        e.prepare(&q),
        Ok((
            "SELECT * FROM address WHERE user_id = $1 LIMIT 10 OFFSET 0".to_string(),
            vec![BoundValue::I64(5)]
        ))
    );
}

#[test]
fn address_request_needs_user() {
    let e = address_endpoint();
    let q = parse(&e, "limit=10&offset=0");
    assert_eq!(
        e.prepare(&q),
        Err(RequestError::Rejected("userId is required".to_string()))
    );
}

#[test]
fn address_request_needs_pagination() {
    let e = address_endpoint();
    let q = parse(&e, "userId=5&limit=10");
    assert_eq!(
        e.prepare(&q),
        Err(RequestError::Rejected("offset is required".to_string()))
    );
}

#[test]
fn inventory_request_with_bad_number_is_a_bind_error() {
    let e = inventory_endpoint();
    let q = parse(&e, "filter[]=price-lt-cheap&limit=10&offset=0");
    assert_eq!(
        e.prepare(&q),
        Err(RequestError::Bind(BindError { index: 0, kind: BindErrorKind::InvalidValue }))
    );
}

#[test]
fn inventory_request_with_unknown_equality_key_is_unbound() {
    let e = inventory_endpoint();
    let q = parse(&e, "colour=red&limit=10&offset=0");
    assert_eq!(
        e.prepare(&q),
        Err(RequestError::Bind(BindError { index: 0, kind: BindErrorKind::Unbound }))
    );
}

#[test]
fn inventory_request_with_filters_and_sort() {
    let e = inventory_endpoint();
    let q = parse(&e, "filter[]=quantity-gt-0&sort=price-asc&limit=5&offset=10");
    assert_eq!(
        e.prepare(&q),
        Ok((
            "SELECT * FROM inventory WHERE quantity > $1 ORDER BY price ASC LIMIT 5 OFFSET 10"
                .to_string(),
            vec![BoundValue::I32(0)]
        ))
    );
}

#[test]
fn hyphenated_timestamp_filter_is_rejected_by_the_grammar() {
    let e = inventory_endpoint();
    assert_eq!(
        Query::new("filter[]=createdAt-ge-2024-01-01", &e.allowed),
        Err(ParseError::InvalidFilter)
    );
}

#[test]
fn orders_listing_is_grouped_by_order() {
    let e = orders_endpoint();
    let mut q = parse(&e, "userId=3&limit=10&offset=0");
    assert_eq!(plan_orders(&mut q), Ok(false));
    let (sql, values) = e.prepare(&q).unwrap();
    assert!(sql.ends_with(" WHERE user_id = $1 GROUP BY orders.id LIMIT 10 OFFSET 0"));
    assert_eq!(values, vec![BoundValue::I64(3)]);
}

#[test]
fn order_detail_is_not_grouped() {
    let e = order_details_endpoint();
    let mut q = parse(&e, "id=550e8400-e29b-41d4-a716-446655440000&limit=10&offset=0");
    q.group_by = Some("userId".to_string());
    assert_eq!(plan_orders(&mut q), Ok(true));
    assert_eq!(q.group_by, None);
    let (sql, values) = e.prepare(&q).unwrap();
    assert!(sql.ends_with(" WHERE orders.id = $1 LIMIT 10 OFFSET 0"));
    assert_eq!(values, vec![BoundValue::Uuid(0x550e8400e29b41d4a716446655440000)]);
}

#[test]
fn orders_need_an_equality_constraint() {
    let e = orders_endpoint();
    let mut q = parse(&e, "limit=10&offset=0");
    assert_eq!(plan_orders(&mut q), Err(RequestError::Unconstrained));
}

#[test]
fn catalog_binds_every_allowlisted_field() {
    for e in [address_endpoint(), inventory_endpoint(), orders_endpoint(), order_details_endpoint()] {
        assert_eq!(e.untyped_field(), None, "{}", e.base);
    }
}

#[test]
fn untyped_allowlisted_field_is_found() {
    let e = Endpoint {
        base: "SELECT * FROM t",
        allowed: vec!["a", "b", "c"],
        required: vec![],
        paged: false,
        columns: vec![],
        types: vec![("a", ScalarType::Text), ("c", ScalarType::I64)],
    };
    assert_eq!(e.untyped_field(), Some(1));
}

