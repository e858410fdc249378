use storefront::{cart_key, gen_session, parse_query};

#[test]
fn parse_query_keeps_last_value_per_key() {
    assert_eq!(
        parse_query(Some("a=1&b=2&a=3&junk&c=")),
        vec![("a", "3"), ("b", "2"), ("c", "")]
    );
}

#[test]
fn parse_query_of_nothing_is_empty() {
    assert!(parse_query(None).is_empty());
    assert!(parse_query(Some("")).is_empty());
}

#[test]
fn cart_key_prefixes_session() {
    assert_eq!(cart_key("123"), "cart:123");
}

#[test]
fn session_is_a_small_decimal_number() {
    for _ in 0..50 {
        let s = gen_session();
        let n: u32 = s.parse().unwrap();
        assert!(n < 100_000);
        assert_eq!(n.to_string(), s);
    }
}
