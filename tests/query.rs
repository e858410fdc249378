use storefront::{Condition, Filter, ParseError, Query, Sort, SortBy};

#[test]
fn test_parse_query() {
    let query = "userId=bob&filter[]=orderId-eq-1&filter[]=price-ge-200&sort=price-desc";

    let parsed = Query::new(query, &["userId", "orderId", "price"]).unwrap();

    let expected = Query {
        query: vec![("userId".into(), "bob".into())],
        filters: vec![
            Filter {
                field: "orderId".into(),
                condition: Condition::EQ,
                value: "1".into(),
            },
            Filter {
                field: "price".into(),
                condition: Condition::GE,
                value: "200".into(),
            },
        ],
        sort: Some(Sort {
            field: String::from("price"),
            sort_by: SortBy::DESC,
        }),
        limit_offset: (None, None),
        group_by: None,
    };

    assert_eq!(parsed, expected);
}

#[test]
fn test_parse_query_empty() {
    let query = "";

    let parsed = Query::new(query, &[]).unwrap();

    let expected = Query {
        query: vec![],
        filters: vec![],
        sort: None,
        limit_offset: (None, None),
        group_by: None,
    };

    assert_eq!(parsed, expected);
}

#[test]
fn test_parse_query_limit_offset() {
    let query = "limit=10&offset=0";

    let parsed = Query::new(query, &[]).unwrap();

    let expected = Query {
        query: vec![],
        filters: vec![],
        sort: None,
        limit_offset: (Some("10".into()), Some("0".into())),
        group_by: None,
    };

    assert_eq!(parsed, expected);
    assert!(parsed.check_limit_and_offset().is_ok());
}

#[test]
fn test_is_valid() {
    let query = "userId=bob&filter[]=orderId-eq-1&filter[]=price-ge-200&sort=price-desc";

    let parsed = Query::new(query, &["userId", "orderId", "price"]).unwrap();

    let v1 = parsed.check_valid(vec!["userId"]);
    assert!(v1.is_ok());

    let v1 = parsed.check_valid(vec!["userId", "limit", "offset"]);
    assert!(v1.is_err());
}

#[test]
fn test_invalid_field() {
    let query = "userId=bob&filter[]=orderId-eq-1";

    let result = Query::new(query, &["userId"]);

    assert_eq!(result, Err(ParseError::InvalidField))
}

#[test]
fn check_valid_names_first_missing_key() {
    let parsed = Query::new("userId=bob", &[]).unwrap();
    assert_eq!(
        parsed.check_valid(vec!["userId", "limit", "offset"]),
        Err("limit is required".to_string())
    );
    assert_eq!(parsed.check_valid(vec![]), Ok(()));
}

#[test]
fn equality_map_is_sorted_and_last_value_wins() {
    let parsed = Query::new("userName=bob&status=open&userId=1&userName=ann", &[]).unwrap();
    assert_eq!(
        parsed.query,
        vec![
            ("status".to_string(), "open".to_string()),
            ("userId".to_string(), "1".to_string()),
            ("userName".to_string(), "ann".to_string()),
        ]
    );
}

#[test]
fn pieces_without_equals_are_dropped() {
    let parsed = Query::new("userId=1&&garbage&", &[]).unwrap();
    assert_eq!(parsed.query, vec![("userId".to_string(), "1".to_string())]);
    assert!(parsed.filters.is_empty());
}

#[test]
fn later_sort_overwrites_earlier() {
    let parsed = Query::new("sort=price-asc&sort=id-desc", &["price", "id"]).unwrap();
    assert_eq!(
        parsed.sort,
        Some(Sort { field: "id".to_string(), sort_by: SortBy::DESC })
    );
}

#[test]
fn later_limit_overwrites_earlier() {
    let parsed = Query::new("limit=5&limit=7&offset=1", &[]).unwrap();
    assert_eq!(parsed.limit_offset, (Some("7".to_string()), Some("1".to_string())));
}

#[test]
fn first_error_stops_parsing() {
    let result = Query::new("filter[]=a-xx-1&sort=b-up", &["a", "b"]);
    assert_eq!(result, Err(ParseError::InvalidCondition));
    let result = Query::new("sort=b-up&filter[]=a-xx-1", &["a", "b"]);
    assert_eq!(result, Err(ParseError::InvalidSortBy));
}

#[test]
fn filter_with_extra_hyphen_in_query_is_rejected() {
    let result = Query::new("filter[]=field-eq-a-b", &["field"]);
    assert_eq!(result, Err(ParseError::InvalidFilter));
}

#[test]
fn limit_and_offset_are_required() {
    let parsed = Query::new("offset=0", &[]).unwrap();
    assert_eq!(
        parsed.check_limit_and_offset(),
        Err("limit is required".to_string())
    );
    let parsed = Query::new("limit=10", &[]).unwrap();
    assert_eq!(
        parsed.check_limit_and_offset(),
        Err("offset is required".to_string())
    );
}

#[test]
fn limit_and_offset_must_be_digits() {
    let parsed = Query::new("limit=10;DROP&offset=0", &[]).unwrap();
    assert_eq!(
        parsed.check_limit_and_offset(),
        Err("limit must be a non-negative integer".to_string())
    );
    let parsed = Query::new("limit=10&offset=", &[]).unwrap();
    assert_eq!(
        parsed.check_limit_and_offset(),
        Err("offset must be a non-negative integer".to_string())
    );
    let parsed = Query::new("limit=10&offset=20", &[]).unwrap();
    assert_eq!(parsed.check_limit_and_offset(), Ok(("10", "20")));
}
