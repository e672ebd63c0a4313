//! The schema descriptor: a static tree describing a node type's field
//! names and declared kinds.  It is derived from the same registered field
//! tables that drive resolution — one source of truth, two projections —
//! and is meant for introspection, not consulted during execution.

use vstd::prelude::*;

use crate::graph::Graph;
use crate::graph::GraphNode;
use crate::graph::GraphNodeType;
use crate::graph::GraphPrimitiveType;
use crate::graph::lemma_field_lookup_first;
use crate::graph::node_closed_below;
use crate::graph::GraphNodeProvider;
use crate::graph::NodeValue;
use crate::graph::ResolutionFault;
use crate::graph::ValueKind;
use crate::executor::spec_render_field;
use crate::parser::SelShape;

verus! {

/// The primitive kinds a leaf field can be declared with.
#[derive(Debug, Clone, Copy, PartialEq, Eq, Structural)]
pub enum SchemaPrimitiveType {
    Int,
    Str,
}

/// The static description of a field: a primitive leaf, or a compound node
/// listing its own fields' descriptions, in registration order.
#[derive(Debug, PartialEq, Eq)]
pub enum Schema {
    Leaf(SchemaPrimitiveType),
    Node(Vec<(String, Schema)>),
}

/// The static counterpart of the resolution capability: a node type
/// describes its own schema, independent of any query.  External node types
/// implement this beside `GraphNodeProvider`.
pub trait SchemaProvider {
    /// The schema of this node type, not of an instance.
    fn schema() -> Schema;
}

/// Spec-level value of a `Schema`.
pub enum SchemaShape {
    Leaf(SchemaPrimitiveType),
    Node(Seq<(Seq<char>, SchemaShape)>),
}

/// The spec values of the entries of `s` from index `i` on.
pub open spec fn schema_entries_from(s: Seq<(String, Schema)>, i: int) -> Seq<
    (Seq<char>, SchemaShape),
>
    decreases s, 1int, s.len() - i,
{
    if 0 <= i < s.len() {
        seq![(s[i].0@, s[i].1@)] + schema_entries_from(s, i + 1)
    } else {
        Seq::empty()
    }
}

impl View for Schema {
    type V = SchemaShape;

    open spec fn view(&self) -> SchemaShape
        decreases self, 0int,
    {
        match self {
            Schema::Leaf(p) => SchemaShape::Leaf(*p),
            Schema::Node(entries) => SchemaShape::Node(schema_entries_from(entries@, 0)),
        }
    }
}

/// `schema_entries_from` turns a pushed entry into a pushed spec entry.
pub proof fn lemma_schema_entries_push(s: Seq<(String, Schema)>, x: (String, Schema))
    ensures
        schema_entries_from(s.push(x), 0) =~= schema_entries_from(s, 0) + seq![(x.0@, x.1@)],
    decreases s.len(),
{
    lemma_schema_entries_parts(s.push(x), s, x, 0);
}

proof fn lemma_schema_entries_parts(
    w: Seq<(String, Schema)>,
    s: Seq<(String, Schema)>,
    x: (String, Schema),
    k: int,
)
    requires
        w == s.push(x),
        0 <= k <= s.len(),
    ensures
        schema_entries_from(w, k) =~= schema_entries_from(s, k) + seq![(x.0@, x.1@)],
    decreases s.len() - k,
{
    if k < s.len() {
        lemma_schema_entries_parts(w, s, x, k + 1);
        assert(w[k] == s[k]);
        assert(schema_entries_from(w, k) == seq![(w[k].0@, w[k].1@)] + schema_entries_from(
            w,
            k + 1,
        ));
        assert(schema_entries_from(s, k) == seq![(s[k].0@, s[k].1@)] + schema_entries_from(
            s,
            k + 1,
        ));
        assert(schema_entries_from(w, k + 1) == schema_entries_from(s, k + 1) + seq![
            (x.0@, x.1@),
        ]);
        assert(seq![(s[k].0@, s[k].1@)] + (schema_entries_from(s, k + 1) + seq![(x.0@, x.1@)])
            =~= (seq![(s[k].0@, s[k].1@)] + schema_entries_from(s, k + 1)) + seq![
            (x.0@, x.1@),
        ]);
    } else {
        assert(w[k] == x);
        assert(schema_entries_from(w, k + 1) =~= Seq::<(Seq<char>, SchemaShape)>::empty());
        assert(schema_entries_from(w, k) == seq![(w[k].0@, w[k].1@)] + schema_entries_from(
            w,
            k + 1,
        ));
    }
}

/// The declared schema of node `id` of the graph `g`: one entry per
/// registered field, in order; a compound field carries the schema of the
/// node it points to.  (A compound field not below `bound` — which a
/// well-formed graph never holds — is described as an empty node.)
pub open spec fn spec_schema_of(g: Seq<GraphNode>, id: int) -> SchemaShape
    decreases id, 1int, 0int,
{
    SchemaShape::Node(spec_schema_fields(g, g[id].fields@, 0, id))
}

/// The schema entries for the registered fields `fs` from index `i` on,
/// where compound fields point strictly below `bound`.
pub open spec fn spec_schema_fields(
    g: Seq<GraphNode>,
    fs: Seq<(String, GraphNodeType)>,
    i: int,
    bound: int,
) -> Seq<(Seq<char>, SchemaShape)>
    decreases bound, 0int, fs.len() - i,
{
    if 0 <= i < fs.len() {
        let entry = match fs[i].1 {
            GraphNodeType::Primitive(GraphPrimitiveType::Int(_)) => SchemaShape::Leaf(
                SchemaPrimitiveType::Int,
            ),
            GraphNodeType::Primitive(GraphPrimitiveType::Str(_)) => SchemaShape::Leaf(
                SchemaPrimitiveType::Str,
            ),
            GraphNodeType::Compound(j) => if (j as int) < bound {
                spec_schema_of(g, j as int)
            } else {
                SchemaShape::Node(Seq::empty())
            },
        };
        seq![(fs[i].0@, entry)] + spec_schema_fields(g, fs, i + 1, bound)
    } else {
        Seq::empty()
    }
}

impl Graph {
    /// The schema of node `id`: the static projection of the same field
    /// table that `node_for` resolves from.
    pub fn schema_of(&self, id: usize) -> (r: Schema)
        requires
            self.wf(),
            id < self.nodes@.len(),
        ensures
            r@ == spec_schema_of(self.nodes@, id as int),
        decreases id,
    {
        let ghost g = self.nodes@;
        let node = &self.nodes[id];
        let m = node.fields.len();
        let mut entries: Vec<(String, Schema)> = Vec::new();
        let mut k: usize = 0;
        proof {
            assert(node_closed_below(g[id as int], id as int));
        }
        while k < m
            invariant
                self.wf(),
                id < g.len(),
                g == self.nodes@,
                *node == g[id as int],
                m == node.fields@.len(),
                k <= m,
                node_closed_below(g[id as int], id as int),
                spec_schema_fields(g, node.fields@, 0, id as int) =~= schema_entries_from(
                    entries@,
                    0,
                ) + spec_schema_fields(g, node.fields@, k as int, id as int),
            decreases m - k,
        {
            let name = node.fields[k].0.clone();
            let ghost pre = entries@;
            let described: Schema = match &node.fields[k].1 {
                GraphNodeType::Primitive(GraphPrimitiveType::Int(_)) => Schema::Leaf(
                    SchemaPrimitiveType::Int,
                ),
                GraphNodeType::Primitive(GraphPrimitiveType::Str(_)) => Schema::Leaf(
                    SchemaPrimitiveType::Str,
                ),
                GraphNodeType::Compound(j) => {
                    proof {
                        assert(match g[id as int].fields@[k as int].1 {
                            GraphNodeType::Compound(j2) => (j2 as int) < id as int,
                            _ => true,
                        });
                    }
                    self.schema_of(*j)
                },
            };
            let pair = (name, described);
            let ghost gpair = pair;
            entries.push(pair);
            proof {
                lemma_schema_entries_push(pre, gpair);
                assert(spec_schema_fields(g, node.fields@, 0, id as int) =~= schema_entries_from(
                    entries@,
                    0,
                ) + spec_schema_fields(g, node.fields@, k + 1, id as int));
            }
            k = k + 1;
        }
        proof {
            assert(spec_schema_fields(g, node.fields@, m as int, id as int) =~= Seq::<
                (Seq<char>, SchemaShape),
            >::empty());
            assert(schema_entries_from(entries@, 0) =~= spec_schema_fields(
                g,
                node.fields@,
                0,
                id as int,
            ));
        }
        Schema::Node(entries)
    }
}


/// The schema declares exactly the registered fields: one entry per field,
/// with the same name, in registration order, and a leaf entry exactly
/// where the field holds a scalar.
pub proof fn lemma_schema_mirrors_fields(
    g: Seq<GraphNode>,
    fs: Seq<(String, GraphNodeType)>,
    i: int,
    bound: int,
)
    requires
        0 <= i <= fs.len(),
    ensures
        spec_schema_fields(g, fs, i, bound).len() == fs.len() - i,
        forall|k: int|
            i <= k < fs.len() ==> (#[trigger] spec_schema_fields(g, fs, i, bound)[k - i]).0
                == fs[k].0@ && (spec_schema_fields(g, fs, i, bound)[k - i].1 is Leaf <==> fs[k].1
                is Primitive),
    decreases fs.len() - i,
{
    if i < fs.len() {
        lemma_schema_mirrors_fields(g, fs, i + 1, bound);
        let head = spec_schema_fields(g, fs, i, bound)[0];
        assert forall|k: int| i <= k < fs.len() implies (#[trigger] spec_schema_fields(
            g,
            fs,
            i,
            bound,
        )[k - i]).0 == fs[k].0@ && (spec_schema_fields(g, fs, i, bound)[k - i].1 is Leaf <==> fs[k].1
            is Primitive) by {
            if k > i {
                assert(spec_schema_fields(g, fs, i, bound)[k - i] == spec_schema_fields(
                    g,
                    fs,
                    i + 1,
                    bound,
                )[k - (i + 1)]);
            } else {
                match fs[i].1 {
                    GraphNodeType::Primitive(GraphPrimitiveType::Int(_)) => {
                        assert(spec_schema_fields(g, fs, i, bound)[0] == (
                            fs[i].0@,
                            SchemaShape::Leaf(SchemaPrimitiveType::Int),
                        ));
                    },
                    GraphNodeType::Primitive(GraphPrimitiveType::Str(_)) => {
                        assert(spec_schema_fields(g, fs, i, bound)[0] == (
                            fs[i].0@,
                            SchemaShape::Leaf(SchemaPrimitiveType::Str),
                        ));
                    },
                    GraphNodeType::Compound(j) => {
                        if (j as int) < bound {
                            assert(spec_schema_fields(g, fs, i, bound)[0] == (
                                fs[i].0@,
                                spec_schema_of(g, j as int),
                            ));
                            assert(spec_schema_of(g, j as int) is Node);
                        } else {
                            assert(spec_schema_fields(g, fs, i, bound)[0] == (
                                fs[i].0@,
                                SchemaShape::Node(Seq::<(Seq<char>, SchemaShape)>::empty()),
                            ));
                        }
                    },
                }
            }
        }
    }
}

/// Kind contract, statically: the first registered field of a name resolves
/// to a scalar exactly when the schema declares it a leaf — the executable
/// capability and the schema projection of one node never disagree on a
/// field's kind.
pub proof fn lemma_declared_kind_agrees(g: Seq<GraphNode>, id: int, k: int)
    requires
        0 <= id < g.len(),
        0 <= k < g[id].fields@.len(),
        forall|t: int| 0 <= t < k ==> (#[trigger] g[id].fields@[t]).0@ != g[id].fields@[k].0@,
    ensures
        spec_schema_of(g, id) matches SchemaShape::Node(entries) && entries.len()
            == g[id].fields@.len() && entries[k].0 == g[id].fields@[k].0@,
        (spec_schema_of(g, id)->Node_0[k].1 is Leaf) <==> (g[id].resolve_spec(
            g[id].fields@[k].0@,
        ) matches Some(NodeValue::Scalar(p))),
{
    lemma_field_lookup_first(g[id].fields@, 0, k);
    lemma_schema_mirrors_fields(g, g[id].fields@, 0, id);
    let fs = g[id].fields@;
    let entries = spec_schema_fields(g, fs, 0, id);
    assert(spec_schema_of(g, id) == SchemaShape::Node(entries));
    assert(entries[k - 0].0 == fs[k].0@);
    assert(entries[k - 0].1 is Leaf <==> fs[k].1 is Primitive);
    assert(entries[k] == entries[k - 0]);
    match g[id].fields@[k].1 {
        GraphNodeType::Primitive(p) => {
            assert(g[id].fields@[k].1@ is Scalar);
        },
        GraphNodeType::Compound(j) => {
            assert(g[id].fields@[k].1@ is Compound);
        },
    }
}

/// A `Leaf` selection of a field the schema declares compound — the first
/// registered field of its name — always fails with the scalar-expected
/// `KindMismatch`; a `Node` selection of one declared a leaf fails with the
/// symmetric fault.
pub proof fn lemma_declared_kind_enforced(
    g: Seq<GraphNode>,
    id: int,
    k: int,
    cs: Seq<SelShape>,
)
    requires
        0 <= id < g.len(),
        0 <= k < g[id].fields@.len(),
        forall|t: int| 0 <= t < k ==> (#[trigger] g[id].fields@[t]).0@ != g[id].fields@[k].0@,
    ensures
        !(spec_schema_of(g, id)->Node_0[k].1 is Leaf) ==> spec_render_field(
            SelShape::Leaf(g[id].fields@[k].0@),
            g,
            id,
        ) == Err::<Seq<char>, _>(
            ResolutionFault::KindMismatch(
                g[id].fields@[k].0@,
                ValueKind::Scalar,
                ValueKind::Compound,
            ),
        ),
        spec_schema_of(g, id)->Node_0[k].1 is Leaf ==> spec_render_field(
            SelShape::Node(g[id].fields@[k].0@, cs),
            g,
            id,
        ) == Err::<Seq<char>, _>(
            ResolutionFault::KindMismatch(
                g[id].fields@[k].0@,
                ValueKind::Compound,
                ValueKind::Scalar,
            ),
        ),
{
    lemma_declared_kind_agrees(g, id, k);
    lemma_field_lookup_first(g[id].fields@, 0, k);
    assert(g[id].resolve_spec(g[id].fields@[k].0@) == Some(g[id].fields@[k].1@));
    match g[id].fields@[k].1 {
        GraphNodeType::Primitive(p) => {
            assert(g[id].fields@[k].1@ is Scalar);
        },
        GraphNodeType::Compound(j) => {
            assert(g[id].fields@[k].1@ is Compound);
        },
    }
    crate::executor::lemma_kind_contract(g[id].fields@[k].0@, cs, g, id);
}

} // verus!
