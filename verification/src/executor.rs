//! The executor: walks a selection tree against the object graph, resolving
//! each selection in order and serializing the results into one document.
//!
//! A `Leaf` selection must resolve to a scalar and a `Node` selection to a
//! compound node; anything else is a `KindMismatch`, an unregistered name is
//! an `UnknownField`, and the first error aborts the whole execution.  The
//! output lists the resolved fields in selection order, duplicates included.

use vstd::prelude::*;

use crate::graph::prim_text;
use crate::graph::GraphNodeProvider;
use crate::graph::GraphNodeType;
use crate::graph::NodeValue;
use crate::graph::ResolutionError;
use crate::graph::ResolutionFault;
use crate::graph::ValueKind;
use crate::graph::providers_closed;
use crate::parser::shapes_from;
use crate::parser::Query;
use crate::parser::QueryField;
use crate::parser::SelShape;

verus! {

/// The key part of one output entry: the field name, double-quoted, followed
/// by a colon and a space.
pub open spec fn quoted_key(n: Seq<char>) -> Seq<char> {
    seq!['"'] + n + seq!['"', ':', ' ']
}

/// The separator between sibling entries of the document.
pub open spec fn comma_sep() -> Seq<char> {
    ", "@
}

/// The text that opens a nested object.
pub open spec fn obj_open() -> Seq<char> {
    "{ "@
}

/// The text that closes a nested object.
pub open spec fn obj_close() -> Seq<char> {
    " }"@
}

/// The fixed envelope around a document body.
pub open spec fn doc_open() -> Seq<char> {
    "{\"data\": { "@
}

/// See `doc_open`.
pub open spec fn doc_close() -> Seq<char> {
    " } }"@
}

/// The rendering of one selection against node `id` of the graph `g`: the
/// quoted field name, then the encoded scalar for a `Leaf`, or the rendered
/// children between braces for a `Node`.  A field the node does not hold is
/// an `UnknownField` fault; a field of the other kind than the selection is
/// a `KindMismatch` fault naming the field, the expected kind and the actual
/// kind.
pub open spec fn spec_render_field<P: GraphNodeProvider>(f: SelShape, g: Seq<P>, id: int) -> Result<
    Seq<char>,
    ResolutionFault,
>
    decreases f, 0int,
{
    match f {
        SelShape::Leaf(n) => match g[id].resolve_spec(n) {
            None => Err(ResolutionFault::UnknownField(g[id].label_spec(), n)),
            Some(NodeValue::Scalar(p)) => Ok(quoted_key(n) + prim_text(p)),
            Some(NodeValue::Compound(_)) => Err(
                ResolutionFault::KindMismatch(n, ValueKind::Scalar, ValueKind::Compound),
            ),
        },
        SelShape::Node(n, cs) => match g[id].resolve_spec(n) {
            None => Err(ResolutionFault::UnknownField(g[id].label_spec(), n)),
            Some(NodeValue::Scalar(_)) => Err(
                ResolutionFault::KindMismatch(n, ValueKind::Compound, ValueKind::Scalar),
            ),
            Some(NodeValue::Compound(j)) => match spec_render_from(cs, 0, g, j) {
                Err(e) => Err(e),
                Ok(body) => Ok(quoted_key(n) + obj_open() + body + obj_close()),
            },
        },
    }
}

/// The rendering of the selections of `cs` from index `i` on, against node
/// `id`: each selection's rendering in order, joined by `, `, stopped at the
/// first fault.
pub open spec fn spec_render_from<P: GraphNodeProvider>(
    cs: Seq<SelShape>,
    i: int,
    g: Seq<P>,
    id: int,
) -> Result<Seq<char>, ResolutionFault>
    decreases cs, 1int, cs.len() - i,
{
    if 0 <= i < cs.len() {
        match spec_render_field(cs[i], g, id) {
            Err(e) => Err(e),
            Ok(s) => match spec_render_from(cs, i + 1, g, id) {
                Err(e) => Err(e),
                Ok(t) => Ok(
                    if i + 1 < cs.len() {
                        s + comma_sep() + t
                    } else {
                        s
                    },
                ),
            },
        }
    } else {
        Ok(Seq::empty())
    }
}

/// The full document for a query: the rendering of its top-level selections,
/// in order, inside the fixed `{"data": { ... } }` envelope; or the first
/// fault met.
pub open spec fn spec_execute<P: GraphNodeProvider>(q: Seq<SelShape>, g: Seq<P>, root: int) -> Result<
    Seq<char>,
    ResolutionFault,
> {
    match spec_render_from(q, 0, g, root) {
        Err(e) => Err(e),
        Ok(body) => Ok(doc_open() + body + doc_close()),
    }
}

/// Renders one selection against node `source`, exactly as
/// `spec_render_field` describes.
pub fn build_query_result<P: GraphNodeProvider>(
    query_field: &QueryField,
    nodes: &Vec<P>,
    source: usize,
) -> (r: Result<String, ResolutionError>)
    requires
        providers_closed(nodes@),
        source < nodes@.len(),
    ensures
        (match r {
            Ok(s) => spec_render_field(query_field@, nodes@, source as int) == Ok::<
                _,
                ResolutionFault,
            >(s@),
            Err(e) => spec_render_field(query_field@, nodes@, source as int) == Err::<
                Seq<char>,
                _,
            >(e@),
        }),
    decreases *query_field, 0int,
{
    match query_field {
        QueryField::Leaf(name) => {
            match nodes[source].node_for(name.as_str()) {
                Err(e) => Err(e),
                Ok(GraphNodeType::Primitive(val)) => {
                    proof {
                        reveal_strlit("\"");
                        reveal_strlit("\": ");
                    }
                    let mut out = String::new();
                    out.append("\"");
                    out.append(name.as_str());
                    out.append("\": ");
                    let text = val.to_string();
                    out.append(text.as_str());
                    proof {
                        assert(out@ =~= quoted_key(name@) + prim_text(val@));
                    }
                    Ok(out)
                },
                Ok(GraphNodeType::Compound(_)) => Err(
                    ResolutionError::KindMismatch(
                        name.clone(),
                        ValueKind::Scalar,
                        ValueKind::Compound,
                    ),
                ),
            }
        },
        QueryField::Node((name, children)) => {
            let ghost f = query_field@;
            let ghost cs = shapes_from(children@, 0);
            match nodes[source].node_for(name.as_str()) {
                Err(e) => Err(e),
                Ok(GraphNodeType::Primitive(_)) => Err(
                    ResolutionError::KindMismatch(
                        name.clone(),
                        ValueKind::Compound,
                        ValueKind::Scalar,
                    ),
                ),
                Ok(GraphNodeType::Compound(target)) => {
                    proof {
                        assert(nodes@[source as int].resolve_spec(name@) matches Some(
                            NodeValue::Compound(j),
                        ) && j == target as int);
                    }
                    match render_list(children, nodes, target) {
                        Err(e) => Err(e),
                        Ok(body) => {
                            proof {
                                reveal_strlit("\"");
                                reveal_strlit("\": ");
                            }
                            let mut out = String::new();
                            out.append("\"");
                            out.append(name.as_str());
                            out.append("\": ");
                            out.append("{ ");
                            out.append(body.as_str());
                            out.append(" }");
                            proof {
                                assert(out@ =~= quoted_key(name@) + obj_open() + body@
                                    + obj_close());
                            }
                            Ok(out)
                        },
                    }
                },
            }
        },
    }
}

/// Renders a sibling list against node `id`, in order, joined by `, `,
/// exactly as `spec_render_from` describes.
pub fn render_list<P: GraphNodeProvider>(fields: &Vec<QueryField>, nodes: &Vec<P>, id: usize) -> (r:
    Result<String, ResolutionError>)
    requires
        providers_closed(nodes@),
        id < nodes@.len(),
    ensures
        (match r {
            Ok(s) => spec_render_from(shapes_from(fields@, 0), 0, nodes@, id as int) == Ok::<
                _,
                ResolutionFault,
            >(s@),
            Err(e) => spec_render_from(shapes_from(fields@, 0), 0, nodes@, id as int) == Err::<
                Seq<char>,
                _,
            >(e@),
        }),
    decreases *fields, 1int,
{
    let ghost cs = shapes_from(fields@, 0);
    proof {
        crate::parser::lemma_shapes_from(fields@, 0);
    }
    let n = fields.len();
    let mut out = String::new();
    let mut i: usize = 0;
    while i < n
        invariant
            providers_closed(nodes@),
            id < nodes@.len(),
            cs == shapes_from(fields@, 0),
            cs.len() == n,
            n == fields@.len(),
            forall|t: int| 0 <= t < n ==> cs[t] == #[trigger] fields@[t]@,
            i <= n,
            i == 0 ==> out@ == Seq::<char>::empty(),
            (match spec_render_from(cs, i as int, nodes@, id as int) {
                Err(e) => spec_render_from(cs, 0, nodes@, id as int) == Err::<Seq<char>, _>(e),
                Ok(t) => spec_render_from(cs, 0, nodes@, id as int) == Ok::<_, ResolutionFault>(
                    if i == 0 {
                        t
                    } else if i < n {
                        out@ + comma_sep() + t
                    } else {
                        out@
                    },
                ),
            }),
        decreases n - i,
    {
        let ghost head = out@;
        if i > 0 {
            out.append(", ");
        }
        match build_query_result(&fields[i], nodes, id) {
            Err(e) => {
                return Err(e);
            },
            Ok(piece) => {
                out.append(piece.as_str());
                proof {
                    match spec_render_from(cs, i as int, nodes@, id as int) {
                        Err(e) => {
                            // the fault lies past the piece just rendered
                            assert(spec_render_from(cs, i + 1, nodes@, id as int) == Err::<
                                Seq<char>,
                                _,
                            >(e));
                        },
                        Ok(t) => {
                            if i + 1 < n {
                                if let Ok(t2) = spec_render_from(cs, i + 1, nodes@, id as int) {
                                    assert(t == piece@ + comma_sep() + t2);
                                    if i == 0 {
                                        assert(t2 + Seq::<char>::empty() =~= t2);
                                        assert(out@ =~= piece@);
                                        assert(t =~= out@ + comma_sep() + t2);
                                    } else {
                                        assert(head + comma_sep() + t =~= out@ + comma_sep()
                                            + t2);
                                    }
                                }
                            } else {
                                assert(t == piece@);
                                if i == 0 {
                                    assert(out@ =~= t);
                                } else {
                                    assert(head + comma_sep() + t =~= out@);
                                }
                            }
                        },
                    }
                }
            },
        }
        i = i + 1;
    }
    Ok(out)
}

impl Query {
    /// Executes this query against node `root` of the graph: resolves every
    /// top-level selection in order and returns the document
    /// `{"data": { ... } }`, exactly as `spec_execute` describes; the first
    /// resolution fault aborts the execution and is returned instead.
    pub fn execute<P: GraphNodeProvider>(&self, nodes: &Vec<P>, root: usize) -> (r: Result<
        String,
        ResolutionError,
    >)
        requires
            providers_closed(nodes@),
            root < nodes@.len(),
        ensures
            (match r {
                Ok(s) => spec_execute(self@, nodes@, root as int) == Ok::<_, ResolutionFault>(s@),
                Err(e) => spec_execute(self@, nodes@, root as int) == Err::<Seq<char>, _>(e@),
            }),
    {
        match render_list(&self.0, nodes, root) {
            Err(e) => Err(e),
            Ok(body) => {
                let mut out = String::new();
                out.append("{\"data\": { ");
                out.append(body.as_str());
                out.append(" } }");
                proof {
                    assert(out@ =~= doc_open() + body@ + doc_close());
                }
                Ok(out)
            },
        }
    }
}


/// The rendered text of each selection of `q` against node `id`, in order;
/// a selection whose rendering fails contributes an empty placeholder.
pub open spec fn entry_texts<P: GraphNodeProvider>(q: Seq<SelShape>, g: Seq<P>, id: int) -> Seq<
    Seq<char>,
> {
    Seq::new(
        q.len(),
        |i: int|
            match spec_render_field(q[i], g, id) {
                Ok(s) => s,
                Err(_) => Seq::empty(),
            },
    )
}

/// The entries joined by `, `, from index `i` on.
pub open spec fn join_entries_from(ss: Seq<Seq<char>>, i: int) -> Seq<char>
    decreases ss.len() - i,
{
    if 0 <= i < ss.len() {
        if i + 1 < ss.len() {
            ss[i] + comma_sep() + join_entries_from(ss, i + 1)
        } else {
            ss[i]
        }
    } else {
        Seq::empty()
    }
}

/// A successful rendering of the selections from `i` on renders each of
/// them, and is their entries joined in order.
proof fn lemma_render_join<P: GraphNodeProvider>(q: Seq<SelShape>, g: Seq<P>, id: int, i: int)
    requires
        0 <= i <= q.len(),
        spec_render_from(q, i, g, id) is Ok,
    ensures
        forall|t: int| i <= t < q.len() ==> spec_render_field(#[trigger] q[t], g, id) is Ok,
        spec_render_from(q, i, g, id) == Ok::<_, ResolutionFault>(
            join_entries_from(entry_texts(q, g, id), i),
        ),
    decreases q.len() - i,
{
    if i < q.len() {
        lemma_render_join(q, g, id, i + 1);
        assert(entry_texts(q, g, id)[i] == spec_render_field(q[i], g, id)->Ok_0);
    }
}

/// Order preservation: a successful execution renders every selection, and
/// the document body is exactly those renderings in selection order —
/// duplicates included — joined by `, `; each rendering begins with its own
/// selection's quoted name.
pub proof fn lemma_order_preservation<P: GraphNodeProvider>(
    q: Seq<SelShape>,
    g: Seq<P>,
    root: int,
    body: Seq<char>,
)
    requires
        spec_render_from(q, 0, g, root) == Ok::<_, ResolutionFault>(body),
    ensures
        forall|i: int| 0 <= i < q.len() ==> spec_render_field(#[trigger] q[i], g, root) is Ok,
        body == join_entries_from(entry_texts(q, g, root), 0),
        forall|i: int|
            0 <= i < q.len() ==> begins_with(#[trigger] entry_texts(q, g, root)[i], quoted_key(
                q[i].name(),
            )),
{
    lemma_render_join(q, g, root, 0);
    assert forall|i: int| 0 <= i < q.len() implies begins_with(
        #[trigger] entry_texts(q, g, root)[i],
        quoted_key(q[i].name()),
    ) by {
        lemma_field_render_key(q[i], g, root);
        assert(entry_texts(q, g, root)[i] == spec_render_field(q[i], g, root)->Ok_0);
    }
}

/// `s` starts with the prefix `p`.
pub open spec fn begins_with(s: Seq<char>, p: Seq<char>) -> bool {
    s.len() >= p.len() && s.subrange(0, p.len() as int) == p
}

/// Each successfully rendered selection's text begins with its own quoted
/// name.
pub proof fn lemma_field_render_key<P: GraphNodeProvider>(f: SelShape, g: Seq<P>, id: int)
    ensures
        spec_render_field(f, g, id) matches Ok(s) ==> begins_with(s, quoted_key(f.name())),
{
    if let Ok(s) = spec_render_field(f, g, id) {
        match f {
            SelShape::Leaf(n) => {
                if let Some(NodeValue::Scalar(p)) = g[id].resolve_spec(n) {
                    assert(s == quoted_key(f.name()) + prim_text(p));
                    assert(s.subrange(0, quoted_key(f.name()).len() as int) =~= quoted_key(
                        f.name(),
                    ));
                }
            },
            SelShape::Node(n, cs) => {
                if let Some(NodeValue::Compound(j)) = g[id].resolve_spec(n) {
                    if let Ok(body) = spec_render_from(cs, 0, g, j) {
                        assert(s == quoted_key(f.name()) + obj_open() + body + obj_close());
                        assert(s.subrange(0, quoted_key(f.name()).len() as int) =~= quoted_key(
                            f.name(),
                        ));
                    }
                }
            },
        }
    }
}

/// Kind contract: a `Leaf` selection on a field that resolves to a compound
/// value always fails with `KindMismatch` — expected scalar, found compound
/// — and a `Node` selection on a field that resolves to a scalar fails with
/// the symmetric `KindMismatch`; never a silent coercion.
pub proof fn lemma_kind_contract<P: GraphNodeProvider>(
    name: Seq<char>,
    cs: Seq<SelShape>,
    g: Seq<P>,
    id: int,
)
    ensures
        g[id].resolve_spec(name) matches Some(NodeValue::Compound(j)) ==> spec_render_field(
            SelShape::Leaf(name),
            g,
            id,
        ) == Err::<Seq<char>, _>(
            ResolutionFault::KindMismatch(name, ValueKind::Scalar, ValueKind::Compound),
        ),
        g[id].resolve_spec(name) matches Some(NodeValue::Scalar(p)) ==> spec_render_field(
            SelShape::Node(name, cs),
            g,
            id,
        ) == Err::<Seq<char>, _>(
            ResolutionFault::KindMismatch(name, ValueKind::Compound, ValueKind::Scalar),
        ),
{
}

/// Unknown field: a selection whose name the node's capability does not
/// hold always fails with `UnknownField`, naming the node type and that
/// field.
pub proof fn lemma_unknown_field<P: GraphNodeProvider>(f: SelShape, g: Seq<P>, id: int)
    requires
        g[id].resolve_spec(f.name()) is None,
    ensures
        spec_render_field(f, g, id) == Err::<Seq<char>, _>(
            ResolutionFault::UnknownField(g[id].label_spec(), f.name()),
        ),
{
}

} // verus!
