use roughql::Graph;
use roughql::GraphNode;
use roughql::GraphNodeType;
use roughql::GraphPrimitiveType;
use roughql::ParseError;
use roughql::Query;
use roughql::QueryField;
use roughql::ResolutionError;
use roughql::ValueKind;

/// A graph with one root node resolving `value` to `Int(42)`.
fn single_value_graph() -> Graph {
    let mut g = Graph::new();
    let mut root = GraphNode::new("Root".to_string());
    root.register(
        "value".to_string(),
        GraphNodeType::Primitive(GraphPrimitiveType::Int(42)),
    );
    let id = g.add_node(root);
    assert_eq!(id, Some(0));
    g
}

/// The example graph: `Root { foo: Foo { value: 7, bar: 1 } }` with `bar`
/// also registered on the root.
fn nested_graph() -> Graph {
    let mut g = Graph::new();
    let mut foo = GraphNode::new("Foo".to_string());
    foo.register(
        "value".to_string(),
        GraphNodeType::Primitive(GraphPrimitiveType::Int(7)),
    );
    let foo_id = g.add_node(foo).unwrap();
    let mut root = GraphNode::new("Root".to_string());
    root.register("foo".to_string(), GraphNodeType::Compound(foo_id));
    root.register(
        "bar".to_string(),
        GraphNodeType::Primitive(GraphPrimitiveType::Int(1)),
    );
    let root_id = g.add_node(root).unwrap();
    assert_eq!(root_id, 1);
    g
}

#[test]
fn scalar_field_resolves_to_int() {
    let g = single_value_graph();
    let q = Query::try_new("query { value }").unwrap();
    let out = q.execute(&g.nodes, 0).unwrap();
    assert_eq!(out, "{\"data\": { \"value\": 42 } }");
}

#[test]
fn nested_field_resolves_through_child() {
    let g = nested_graph();
    let q = Query::try_new("query { foo { value } }").unwrap();
    let out = q.execute(&g.nodes, 1).unwrap();
    assert_eq!(out, "{\"data\": { \"foo\": { \"value\": 7 } } }");
}

#[test]
fn sibling_order_is_preserved() {
    let g = nested_graph();
    let q = Query::try_new("query { foo { value } bar }").unwrap();
    let out = q.execute(&g.nodes, 1).unwrap();
    assert_eq!(out, "{\"data\": { \"foo\": { \"value\": 7 }, \"bar\": 1 } }");
}

#[test]
fn duplicate_fields_appear_twice_in_order() {
    let g = single_value_graph();
    let q = Query::try_new("query { value value }").unwrap();
    let out = q.execute(&g.nodes, 0).unwrap();
    assert_eq!(out, "{\"data\": { \"value\": 42, \"value\": 42 } }");
}

#[test]
fn missing_braces_abort_the_parse() {
    let r = Query::try_new("query { value");
    assert_eq!(r, Err(ParseError::UnterminatedList));
}

#[test]
fn unclosed_nested_selection_names_the_selection() {
    let r = Query::try_new("query { foo { value");
    assert_eq!(r, Err(ParseError::MissingClosingBrace("foo".to_string())));
}

#[test]
fn unknown_field_names_node_type_and_field() {
    let g = single_value_graph();
    let q = Query::try_new("query { ghost }").unwrap();
    let r = q.execute(&g.nodes, 0);
    assert_eq!(
        r,
        Err(ResolutionError::UnknownField(
            "Root".to_string(),
            "ghost".to_string()
        ))
    );
}

#[test]
fn nested_selection_of_scalar_is_kind_mismatch() {
    let g = single_value_graph();
    let q = Query::try_new("query { value { nested } }").unwrap();
    let r = q.execute(&g.nodes, 0);
    assert_eq!(
        r,
        Err(ResolutionError::KindMismatch(
            "value".to_string(),
            ValueKind::Compound,
            ValueKind::Scalar
        ))
    );
}

#[test]
fn leaf_selection_of_compound_is_kind_mismatch() {
    let g = nested_graph();
    let q = Query::try_new("query { foo }").unwrap();
    let r = q.execute(&g.nodes, 1);
    assert_eq!(
        r,
        Err(ResolutionError::KindMismatch(
            "foo".to_string(),
            ValueKind::Scalar,
            ValueKind::Compound
        ))
    );
}

#[test]
fn first_error_aborts_whole_execution() {
    let g = nested_graph();
    let q = Query::try_new("query { ghost bar }").unwrap();
    let r = q.execute(&g.nodes, 1);
    assert_eq!(
        r,
        Err(ResolutionError::UnknownField(
            "Root".to_string(),
            "ghost".to_string()
        ))
    );
}

#[test]
fn document_must_begin_with_query_keyword() {
    assert_eq!(
        Query::try_new("mutation { value }"),
        Err(ParseError::UnexpectedToken(0))
    );
    assert_eq!(Query::try_new(""), Err(ParseError::UnexpectedToken(0)));
}

#[test]
fn document_must_open_with_a_brace() {
    assert_eq!(
        Query::try_new("query value }"),
        Err(ParseError::UnexpectedToken(1))
    );
    assert_eq!(Query::try_new("query"), Err(ParseError::UnexpectedToken(1)));
}

#[test]
fn trailing_tokens_are_rejected() {
    assert_eq!(
        Query::try_new("query { value } }"),
        Err(ParseError::InvalidEnding)
    );
    assert_eq!(
        Query::try_new("query { value } extra"),
        Err(ParseError::InvalidEnding)
    );
}

#[test]
fn empty_selection_set_renders_empty_object() {
    let g = single_value_graph();
    let q = Query::try_new("query { }").unwrap();
    assert_eq!(q, Query(vec![]));
    let out = q.execute(&g.nodes, 0).unwrap();
    assert_eq!(out, "{\"data\": {  } }");
}

#[test]
fn empty_node_selection_renders_empty_object() {
    let g = nested_graph();
    let q = Query::try_new("query { foo { } }").unwrap();
    assert_eq!(
        q,
        Query(vec![QueryField::Node(("foo".to_string(), vec![]))])
    );
    let out = q.execute(&g.nodes, 1).unwrap();
    assert_eq!(out, "{\"data\": { \"foo\": {  } } }");
}

#[test]
fn whitespace_variations_tokenize_alike() {
    let a = Query::try_new("query {\n\tfoo {\r\n  value }\n}").unwrap();
    let b = Query::try_new("query { foo { value } }").unwrap();
    assert_eq!(a, b);
}

#[test]
fn parse_builds_the_selection_tree() {
    let q = Query::try_new("query { foo { value name } bar }").unwrap();
    assert_eq!(
        q,
        Query(vec![
            QueryField::Node((
                "foo".to_string(),
                vec![
                    QueryField::Leaf("value".to_string()),
                    QueryField::Leaf("name".to_string()),
                ]
            )),
            QueryField::Leaf("bar".to_string()),
        ])
    );
}
