use roughql::Graph;
use roughql::GraphNode;
use roughql::GraphNodeType;
use roughql::GraphPrimitiveType;
use roughql::Schema;
use roughql::SchemaPrimitiveType;
use roughql::SchemaProvider;

/// The example graph of the crate: `Root { foo: Foo }`,
/// `Foo { value: Int, bar: Bar, name: Str }`, `Bar { value: Int }`.
fn example_graph() -> (Graph, usize) {
    let mut g = Graph::new();
    let mut bar = GraphNode::new("Bar".to_string());
    bar.register(
        "value".to_string(),
        GraphNodeType::Primitive(GraphPrimitiveType::Int(12)),
    );
    let bar_id = g.add_node(bar).unwrap();
    let mut foo = GraphNode::new("Foo".to_string());
    foo.register(
        "value".to_string(),
        GraphNodeType::Primitive(GraphPrimitiveType::Int(-43)),
    );
    foo.register("bar".to_string(), GraphNodeType::Compound(bar_id));
    foo.register(
        "name".to_string(),
        GraphNodeType::Primitive(GraphPrimitiveType::Str("Steve".to_string())),
    );
    let foo_id = g.add_node(foo).unwrap();
    let mut root = GraphNode::new("Root".to_string());
    root.register("foo".to_string(), GraphNodeType::Compound(foo_id));
    let root_id = g.add_node(root).unwrap();
    (g, root_id)
}

#[test]
fn schema_mirrors_registered_fields() {
    let (g, root_id) = example_graph();
    let described = g.schema_of(root_id);
    let expected = Schema::Node(vec![(
        "foo".to_string(),
        Schema::Node(vec![
            ("value".to_string(), Schema::Leaf(SchemaPrimitiveType::Int)),
            (
                "bar".to_string(),
                Schema::Node(vec![(
                    "value".to_string(),
                    Schema::Leaf(SchemaPrimitiveType::Int),
                )]),
            ),
            ("name".to_string(), Schema::Leaf(SchemaPrimitiveType::Str)),
        ]),
    )]);
    assert_eq!(described, expected);
}

#[test]
fn example_query_resolves_against_example_graph() {
    let (g, root_id) = example_graph();
    let input = "query {
        foo {
            value
            name
            bar {
                value
            }
        }
    }";
    let q = roughql::Query::try_new(input).unwrap();
    let out = q.execute(&g.nodes, root_id).unwrap();
    assert_eq!(
        out,
        "{\"data\": { \"foo\": { \"value\": -43, \"name\": \"Steve\", \"bar\": { \"value\": 12 } } } }"
    );
}

#[test]
fn add_node_refuses_dangling_compound_fields() {
    let mut g = Graph::new();
    let mut node = GraphNode::new("Root".to_string());
    node.register("child".to_string(), GraphNodeType::Compound(5));
    assert_eq!(g.add_node(node), None);
}

struct FixedPoint;

impl SchemaProvider for FixedPoint {
    fn schema() -> Schema {
        Schema::Leaf(SchemaPrimitiveType::Int)
    }
}

#[test]
fn schema_provider_describes_external_types() {
    assert_eq!(
        <FixedPoint as SchemaProvider>::schema(),
        Schema::Leaf(SchemaPrimitiveType::Int)
    );
}
