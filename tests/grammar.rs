use storefront::{Condition, Filter, ParseError, Sort, SortBy};

#[test]
fn filter_token_parses_into_its_parts() {
    let f = Filter::new("orderId-le-42", &["orderId"]).unwrap();
    assert_eq!(
        f,
        Filter { field: "orderId".to_string(), condition: Condition::LE, value: "42".to_string() }
    );
}

#[test]
fn filter_field_outside_allowlist_is_rejected() {
    assert_eq!(Filter::new("orderId-eq-1", &["price"]), Err(ParseError::InvalidField));
}

#[test]
fn filter_value_with_hyphen_is_rejected() {
    assert_eq!(Filter::new("field-eq-a-b", &["field"]), Err(ParseError::InvalidFilter));
}

#[test]
fn filter_with_two_parts_is_rejected() {
    assert_eq!(Filter::new("field-eq", &["field"]), Err(ParseError::InvalidFilter));
}

#[test]
fn filter_with_unknown_condition_is_rejected() {
    assert_eq!(Filter::new("field-gr-0", &["field"]), Err(ParseError::InvalidCondition));
}

#[test]
fn every_condition_code_parses() {
    let codes = [
        ("eq", Condition::EQ, "="),
        ("ne", Condition::NE, "!="),
        ("gt", Condition::GT, ">"),
        ("ge", Condition::GE, ">="),
        ("lt", Condition::LT, "<"),
        ("le", Condition::LE, "<="),
    ];
    for (code, condition, op) in codes {
        assert_eq!(Condition::from_code(code), Ok(condition));
        assert_eq!(condition.as_str(), op);
    }
    assert_eq!(Condition::from_code("EQ"), Err(ParseError::InvalidCondition));
    assert_eq!(Condition::from_code(""), Err(ParseError::InvalidCondition));
}

#[test]
fn filter_renders() {
    let f = Filter::new("orderId-ge-7", &["orderId"]).unwrap();
    assert_eq!(f.to_string(), "orderId >= 7");
    assert_eq!(f.to_camel_string(), "order_id >= 7");
    assert_eq!(f.to_camel_psql_string(12), "order_id >= $12");
}

#[test]
fn sort_token_parses() {
    assert_eq!(
        Sort::new("price-asc", &["price"]),
        Ok(Sort { field: "price".to_string(), sort_by: SortBy::ASC })
    );
    assert_eq!(
        Sort::new("createdAt-desc", &["createdAt"]),
        Ok(Sort { field: "createdAt".to_string(), sort_by: SortBy::DESC })
    );
}

#[test]
fn sort_token_errors() {
    assert_eq!(Sort::new("price", &["price"]), Err(ParseError::InvalidSort));
    assert_eq!(Sort::new("price-up", &["price"]), Err(ParseError::InvalidSortBy));
    assert_eq!(Sort::new("price-desc-x", &["price"]), Err(ParseError::InvalidSortBy));
    assert_eq!(Sort::new("cost-desc", &["price"]), Err(ParseError::InvalidField));
}

#[test]
fn sort_renders() {
    let s = Sort::new("createdAt-desc", &["createdAt"]).unwrap();
    assert_eq!(s.to_string(), "createdAt DESC");
    assert_eq!(s.to_camel_string(), "created_at DESC");
    assert_eq!(SortBy::ASC.as_str(), "ASC");
}
