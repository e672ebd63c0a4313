use roughql::GraphPrimitiveType;
use roughql::Query;

#[test]
fn serialized_query_reparses_identically() {
    let q = Query::try_new("query {\n  foo {\n    value\n    name\n  }\n  bar\n}").unwrap();
    let text = q.to_query_string();
    assert_eq!(text, "query { foo { value name } bar }");
    let again = Query::try_new(&text).unwrap();
    assert_eq!(again, q);
}

#[test]
fn serialized_empty_query_reparses_identically() {
    let q = Query::try_new("query { }").unwrap();
    let text = q.to_query_string();
    assert_eq!(text, "query { }");
    assert_eq!(Query::try_new(&text).unwrap(), q);
}

#[test]
fn serialized_empty_node_reparses_identically() {
    let q = Query::try_new("query { foo { } }").unwrap();
    let text = q.to_query_string();
    assert_eq!(text, "query { foo { } }");
    assert_eq!(Query::try_new(&text).unwrap(), q);
}

#[test]
fn int_scalars_encode_as_decimal_digits() {
    assert_eq!(GraphPrimitiveType::Int(42).to_string(), "42");
    assert_eq!(GraphPrimitiveType::Int(0).to_string(), "0");
    assert_eq!(GraphPrimitiveType::Int(-7).to_string(), "-7");
    assert_eq!(GraphPrimitiveType::Int(1000).to_string(), "1000");
    assert_eq!(
        GraphPrimitiveType::Int(i64::MAX).to_string(),
        "9223372036854775807"
    );
    assert_eq!(
        GraphPrimitiveType::Int(i64::MIN).to_string(),
        "-9223372036854775808"
    );
}

#[test]
fn str_scalars_encode_quoted_verbatim() {
    assert_eq!(
        GraphPrimitiveType::Str("Steve".to_string()).to_string(),
        "\"Steve\""
    );
    assert_eq!(GraphPrimitiveType::Str(String::new()).to_string(), "\"\"");
}
