use storefront::{compile, gen_psql, ParseError, Query};

const ALLOWED: [&str; 4] = ["userId", "userName", "orderId", "price"];

fn pairs(items: &[(&str, &str)]) -> Vec<(String, String)> {
    items.iter().map(|(k, v)| (k.to_string(), v.to_string())).collect()
}

#[test]
fn test_gen_sql_no_filters_or_sort() {
    let query = "userId=123&userName=bob";

    let parsed = Query::new(query, &ALLOWED).unwrap();

    let (sql, params) = gen_psql(&parsed, "orders", vec!["id", "status"], vec![]).unwrap();

    let expected = "SELECT id, status FROM orders WHERE user_id = $1 AND user_name = $2";

    assert_eq!(sql, expected);
    assert_eq!(params.len(), 2);
}

#[test]
fn test_gen_sql_no_sort() {
    let query = "userId=123&userName=bob&filter[]=orderId-eq-1";

    let parsed = Query::new(query, &ALLOWED).unwrap();

    let (sql, params) = gen_psql(&parsed, "orders", vec!["id", "status"], vec![]).unwrap();

    let expected =
        "SELECT id, status FROM orders WHERE user_id = $1 AND user_name = $2 AND order_id = $3";

    assert_eq!(sql, expected);
    assert_eq!(params.len(), 3);
}

#[test]
fn test_gen_sql() {
    let query =
        "userId=123&userName=bob&filter[]=orderId-eq-1&filter[]=price-ge-200&sort=price-desc";

    let parsed = Query::new(query, &ALLOWED).unwrap();

    let (sql, params) = gen_psql(&parsed, "orders", vec!["id", "status"], vec![]).unwrap();

    let expected = "SELECT id, status FROM orders WHERE user_id = $1 AND user_name = $2 AND order_id = $3 AND price >= $4 ORDER BY price DESC";

    assert_eq!(sql, expected);
    assert_eq!(params.len(), 4);
}

#[test]
fn test_gen_sql_limit_offset() {
    let query = "userId=123&userName=bob&filter[]=orderId-eq-1&limit=10&offset=0";

    let parsed = Query::new(query, &ALLOWED).unwrap();

    let (sql, params) = gen_psql(&parsed, "orders", vec!["id", "status"], vec![]).unwrap();

    let expected = "SELECT id, status FROM orders WHERE user_id = $1 AND user_name = $2 AND order_id = $3 LIMIT 10 OFFSET 0";

    assert_eq!(sql, expected);
    assert_eq!(params.len(), 3);
}

#[test]
fn test_gen_sql_with_join() {
    let query =
        "userId=123&userName=bob&filter[]=orderId-eq-1&filter[]=price-ge-200&sort=price-desc";

    let parsed = Query::new(query, &ALLOWED).unwrap();

    let (sql, params) = gen_psql(
        &parsed,
        "orders",
        vec!["id", "status"],
        vec!["JOIN users ON users.id = order.user_id"],
    )
    .unwrap();

    let expected = "SELECT id, status FROM orders JOIN users ON users.id = order.user_id WHERE user_id = $1 AND user_name = $2 AND order_id = $3 AND price >= $4 ORDER BY price DESC";

    assert_eq!(sql, expected);
    assert_eq!(params.len(), 4);
}

#[test]
fn empty_query_compiles_to_bare_select() {
    let parsed = Query::new("", &ALLOWED).unwrap();
    let (sql, params) = gen_psql(&parsed, "orders", vec!["id", "status"], vec![]).unwrap();
    assert_eq!(sql, "SELECT id, status FROM orders");
    assert!(params.is_empty());
}

#[test]
fn equality_entries_number_in_key_order() {
    let parsed = Query::new("userName=bob&userId=123", &ALLOWED).unwrap();
    let (sql, params) = gen_psql(&parsed, "orders", vec!["id", "status"], vec![]).unwrap();
    assert_eq!(
        sql,
        "SELECT id, status FROM orders WHERE user_id = $1 AND user_name = $2"
    );
    assert_eq!(params, pairs(&[("userId", "123"), ("userName", "bob")]));
}

#[test]
fn filter_appends_third_placeholder_and_parameter() {
    let parsed = Query::new("userId=123&userName=bob&filter[]=orderId-eq-1", &ALLOWED).unwrap();
    let (sql, params) = gen_psql(&parsed, "orders", vec!["id", "status"], vec![]).unwrap();
    assert!(sql.ends_with(" AND order_id = $3"));
    assert_eq!(
        params,
        pairs(&[("userId", "123"), ("userName", "bob"), ("orderId", "1")])
    );
}

#[test]
fn sort_appends_order_by_without_parameter() {
    let parsed = Query::new(
        "userId=123&userName=bob&filter[]=orderId-eq-1&sort=price-desc",
        &ALLOWED,
    )
    .unwrap();
    let (sql, params) = gen_psql(&parsed, "orders", vec!["id", "status"], vec![]).unwrap();
    assert_eq!(
        sql,
        "SELECT id, status FROM orders WHERE user_id = $1 AND user_name = $2 AND order_id = $3 ORDER BY price DESC"
    );
    assert_eq!(params.len(), 3);
}

#[test]
fn limit_offset_append_literals_without_parameters() {
    let parsed = Query::new("limit=10&offset=0", &ALLOWED).unwrap();
    let (sql, params) = gen_psql(&parsed, "orders", vec!["id", "status"], vec![]).unwrap();
    assert_eq!(sql, "SELECT id, status FROM orders LIMIT 10 OFFSET 0");
    assert!(params.is_empty());
}

#[test]
fn non_digit_limit_or_offset_is_rejected() {
    let parsed = Query::new("limit=1;DROP TABLE orders&offset=0", &ALLOWED).unwrap();
    assert_eq!(
        gen_psql(&parsed, "orders", vec!["id"], vec![]),
        Err(ParseError::InvalidLimit)
    );
    let parsed = Query::new("limit=10&offset=-1", &ALLOWED).unwrap();
    assert_eq!(
        gen_psql(&parsed, "orders", vec!["id"], vec![]),
        Err(ParseError::InvalidOffset)
    );
}

#[test]
fn limit_without_offset_adds_nothing() {
    let parsed = Query::new("limit=10", &ALLOWED).unwrap();
    let (sql, _) = gen_psql(&parsed, "orders", vec!["id"], vec![]).unwrap();
    assert_eq!(sql, "SELECT id FROM orders");
}

#[test]
fn filters_alone_get_a_where_clause() {
    let parsed = Query::new("filter[]=price-lt-5&filter[]=orderId-ne-2", &ALLOWED).unwrap();
    let (sql, params) = gen_psql(&parsed, "orders", vec!["id"], vec![]).unwrap();
    assert_eq!(sql, "SELECT id FROM orders WHERE price < $1 AND order_id != $2");
    assert_eq!(params, pairs(&[("price", "5"), ("orderId", "2")]));
}

#[test]
fn compiling_twice_gives_identical_output() {
    let parsed = Query::new(
        "userId=123&userName=bob&filter[]=orderId-eq-1&sort=price-desc&limit=10&offset=0",
        &ALLOWED,
    )
    .unwrap();
    let first = gen_psql(&parsed, "orders", vec!["id", "status"], vec![]);
    let second = gen_psql(&parsed, "orders", vec!["id", "status"], vec![]);
    assert_eq!(first, second);
}

#[test]
fn qualified_columns_and_group_by() {
    let mut parsed = Query::new(
        "id=abc&userId=7&filter[]=createdAt-gt-2024&sort=createdAt-desc",
        &["id", "userId", "createdAt"],
    )
    .unwrap();
    parsed.group_by = Some("id".to_string());
    let (sql, params) = compile(
        "SELECT orders.id FROM orders JOIN order_items ON orders.id = order_items.order_id",
        &parsed,
        &[("id", "orders"), ("createdAt", "orders")],
    )
    .unwrap();
    assert_eq!(
        sql,
        "SELECT orders.id FROM orders JOIN order_items ON orders.id = order_items.order_id \
         WHERE orders.id = $1 AND user_id = $2 AND orders.created_at > $3 \
         GROUP BY orders.id ORDER BY orders.created_at DESC"
    );
    assert_eq!(
        params,
        pairs(&[("id", "abc"), ("userId", "7"), ("createdAt", "2024")])
    );
}
