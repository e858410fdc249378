use storefront::binder::{bind_value, parse_i32, parse_i64};
use storefront::{bind_params, BindError, BindErrorKind, BoundValue, ScalarType};

fn pairs(items: &[(&str, &str)]) -> Vec<(String, String)> {
    items.iter().map(|(k, v)| (k.to_string(), v.to_string())).collect()
}

#[test]
fn binds_in_parameter_order() {
    let params = pairs(&[
        ("id", "a1a2a3a4-b1b2-c1c2-d1d2-d3d4d5d6d7d8"),
        ("userId", "42"),
        ("quantity", "-3"),
        ("name", "lamp"),
        ("createdAt", "2024-01-01"),
    ]);
    let types = [
        ("id", ScalarType::Uuid),
        ("userId", ScalarType::I64),
        ("quantity", ScalarType::I32),
        ("name", ScalarType::Text),
        ("createdAt", ScalarType::Timestamp),
    ];
    assert_eq!(
        bind_params(&params, &types),
        Ok(vec![
            BoundValue::Uuid(0xa1a2a3a4b1b2c1c2d1d2d3d4d5d6d7d8),
            BoundValue::I64(42),
            BoundValue::I32(-3),
            BoundValue::Text("lamp".to_string()),
            BoundValue::Timestamp("2024-01-01".to_string()),
        ])
    );
}

#[test]
fn invalid_value_is_reported_at_its_position() {
    let params = pairs(&[("userId", "42"), ("price", "cheap")]);
    let types = [("userId", ScalarType::I64), ("price", ScalarType::I32)];
    assert_eq!(
        bind_params(&params, &types),
        Err(BindError { index: 1, kind: BindErrorKind::InvalidValue })
    );
}

#[test]
fn unbound_field_is_reported() {
    let params = pairs(&[("userId", "42"), ("status", "open")]);
    let types = [("userId", ScalarType::I64)];
    assert_eq!(
        bind_params(&params, &types),
        Err(BindError { index: 1, kind: BindErrorKind::Unbound })
    );
}

#[test]
fn integer_parsing_follows_str_parse() {
    for s in ["0", "42", "+7", "-7", "-0", "9223372036854775807", "-9223372036854775808",
              "9223372036854775808", "-9223372036854775809", "", "-", "+", "1a", " 1", "1_000",
              "00012"] {
        assert_eq!(parse_i64(s), s.parse::<i64>().ok(), "i64 {:?}", s);
        assert_eq!(parse_i32(s), s.parse::<i32>().ok(), "i32 {:?}", s);
    }
    assert_eq!(parse_i32("2147483648"), None);
    assert_eq!(parse_i32("-2147483648"), Some(i32::MIN));
}

#[test]
fn uuid_values_parse_through_the_uuid_crate() {
    assert_eq!(
        bind_value(ScalarType::Uuid, "550e8400-e29b-41d4-a716-446655440000"),
        Some(BoundValue::Uuid(0x550e8400e29b41d4a716446655440000))
    );
    assert_eq!(bind_value(ScalarType::Uuid, "not-a-uuid"), None);
}
