//! Primitive scalar values of the object graph, and their canonical text
//! encoding: integers as decimal digits, strings double-quoted verbatim.

use vstd::prelude::*;

verus! {

/// A scalar value held by the object graph.
#[derive(Debug)]
pub enum GraphPrimitiveType {
    Int(i64),
    Str(String),
}

/// Spec-level counterpart of a scalar value.
pub enum PrimValue {
    Int(int),
    Str(Seq<char>),
}

impl View for GraphPrimitiveType {
    type V = PrimValue;

    open spec fn view(&self) -> PrimValue {
        match self {
            GraphPrimitiveType::Int(v) => PrimValue::Int(*v as int),
            GraphPrimitiveType::Str(s) => PrimValue::Str(s@),
        }
    }
}

/// The character for one decimal digit.
pub open spec fn digit_char(d: int) -> char {
    if d == 0 {
        '0'
    } else if d == 1 {
        '1'
    } else if d == 2 {
        '2'
    } else if d == 3 {
        '3'
    } else if d == 4 {
        '4'
    } else if d == 5 {
        '5'
    } else if d == 6 {
        '6'
    } else if d == 7 {
        '7'
    } else if d == 8 {
        '8'
    } else {
        '9'
    }
}

/// Decimal digits of a non-negative integer, most significant first.
pub open spec fn dec_digits(n: nat) -> Seq<char>
    decreases n,
{
    if n < 10 {
        seq![digit_char(n as int)]
    } else {
        dec_digits(n / 10).push(digit_char((n % 10) as int))
    }
}

/// Decimal encoding of an integer, with a leading minus sign when negative.
pub open spec fn int_dec(v: int) -> Seq<char> {
    if v < 0 {
        seq!['-'] + dec_digits((-v) as nat)
    } else {
        dec_digits(v as nat)
    }
}

/// Canonical text of a scalar: decimal digits for an integer, the characters
/// between double quotes for a string.
pub open spec fn prim_text(p: PrimValue) -> Seq<char> {
    match p {
        PrimValue::Int(v) => int_dec(v),
        PrimValue::Str(s) => seq!['"'] + s + seq!['"'],
    }
}

/// The decimal digits of a value, least significant first, as pushed by the
/// extraction loop below.
pub open spec fn rev_digit_chars(d: Seq<u8>) -> Seq<char> {
    Seq::new(d.len(), |i: int| digit_char(d[d.len() - 1 - i] as int))
}

fn digit_str(d: u8) -> (r: &'static str)
    requires
        d < 10,
    ensures
        r@ == seq![digit_char(d as int)],
{
    proof {
        reveal_strlit("0");
        reveal_strlit("1");
        reveal_strlit("2");
        reveal_strlit("3");
        reveal_strlit("4");
        reveal_strlit("5");
        reveal_strlit("6");
        reveal_strlit("7");
        reveal_strlit("8");
        reveal_strlit("9");
    }
    match d {
        0 => "0",
        1 => "1",
        2 => "2",
        3 => "3",
        4 => "4",
        5 => "5",
        6 => "6",
        7 => "7",
        8 => "8",
        _ => "9",
    }
}

/// Appends the decimal digits of `m` to `out`.
fn append_dec_u64(out: &mut String, m: u64)
    ensures
        final(out)@ == old(out)@ + dec_digits(m as nat),
{
    let mut digits: Vec<u8> = Vec::new();
    let mut n: u64 = m;
    loop
        invariant_except_break
            digits@.len() == 0 ==> n == m,
            digits@.len() > 0 ==> n > 0,
            digits@.len() > 0 ==> dec_digits(m as nat) == dec_digits(n as nat) + rev_digit_chars(
                digits@,
            ),
        invariant
            forall|i: int| 0 <= i < digits@.len() ==> digits@[i] < 10,
        ensures
            dec_digits(m as nat) == rev_digit_chars(digits@),
            forall|i: int| 0 <= i < digits@.len() ==> digits@[i] < 10,
        decreases n,
    {
        let ghost pre = digits@;
        let d: u8 = (n % 10) as u8;
        digits.push(d);
        proof {
            assert(rev_digit_chars(digits@) =~= seq![digit_char(d as int)] + rev_digit_chars(
                pre,
            ));
        }
        let next: u64 = n / 10;
        if next == 0 {
            proof {
                if pre.len() == 0 {
                    assert(dec_digits(m as nat) =~= rev_digit_chars(digits@));
                } else {
                    assert(dec_digits(n as nat) =~= seq![digit_char(d as int)]);
                    assert(dec_digits(m as nat) =~= rev_digit_chars(digits@));
                }
            }
            break ;
        }
        proof {
            if pre.len() == 0 {
                assert(dec_digits(m as nat) == dec_digits(next as nat) + rev_digit_chars(
                    digits@,
                ));
            } else {
                assert(dec_digits(n as nat) == dec_digits(next as nat).push(
                    digit_char(d as int),
                ));
                assert(dec_digits(next as nat).push(digit_char(d as int)) + rev_digit_chars(pre)
                    =~= dec_digits(next as nat) + rev_digit_chars(digits@));
            }
        }
        n = next;
    }
    let k = digits.len();
    let mut i: usize = 0;
    while i < k
        invariant
            k == digits@.len(),
            i <= k,
            forall|j: int| 0 <= j < digits@.len() ==> digits@[j] < 10,
            dec_digits(m as nat) == rev_digit_chars(digits@),
            out@ == old(out)@ + rev_digit_chars(digits@).take(i as int),
        decreases k - i,
    {
        let d = digits[k - 1 - i];
        out.append(digit_str(d));
        proof {
            assert(rev_digit_chars(digits@).take(i + 1) =~= rev_digit_chars(digits@).take(i as int)
                + seq![digit_char(digits@[k - 1 - i] as int)]);
        }
        i = i + 1;
    }
    proof {
        assert(rev_digit_chars(digits@).take(k as int) =~= rev_digit_chars(digits@));
    }
}

/// Appends the decimal encoding of `v`, sign included, to `out`.
pub fn append_dec_i64(out: &mut String, v: i64)
    ensures
        final(out)@ == old(out)@ + int_dec(v as int),
{
    if v < 0 {
        proof {
            reveal_strlit("-");
        }
        out.append("-");
        let wide: i128 = -(v as i128);
        assert(0 <= wide <= u64::MAX);
        let mag: u64 = wide as u64;
        append_dec_u64(out, mag);
        assert(out@ =~= old(out)@ + int_dec(v as int));
    } else {
        let mag: u64 = v as u64;
        append_dec_u64(out, mag);
    }
}

impl GraphPrimitiveType {
    /// Canonical text of this scalar: `Int` as decimal digits, `Str` quoted
    /// verbatim.
    pub fn to_string(&self) -> (r: String)
        ensures
            r@ == prim_text(self@),
    {
        let mut out = String::new();
        match self {
            GraphPrimitiveType::Int(v) => {
                append_dec_i64(&mut out, *v);
            },
            GraphPrimitiveType::Str(s) => {
                proof {
                    reveal_strlit("\"");
                }
                out.append("\"");
                out.append(s.as_str());
                out.append("\"");
                assert(out@ =~= prim_text(self@));
            },
        }
        out
    }
}


/// The two kinds a resolved field value can have; used to report a mismatch
/// between the selection kind and the value kind.
#[derive(Debug, Clone, Copy, PartialEq, Eq, Structural)]
pub enum ValueKind {
    Scalar,
    Compound,
}

/// A failure while resolving a selection against the object graph; the whole
/// execution stops at the first one.
#[derive(Debug, PartialEq, Eq)]
pub enum ResolutionError {
    /// The named node type has no field of the named name.
    UnknownField(String, String),
    /// The named field was requested as one kind but resolved to the other:
    /// the expected kind first, the actual kind second.
    KindMismatch(String, ValueKind, ValueKind),
}

/// Spec-level value of a `ResolutionError`.
pub enum ResolutionFault {
    UnknownField(Seq<char>, Seq<char>),
    KindMismatch(Seq<char>, ValueKind, ValueKind),
}

impl View for ResolutionError {
    type V = ResolutionFault;

    open spec fn view(&self) -> ResolutionFault {
        match self {
            ResolutionError::UnknownField(t, n) => ResolutionFault::UnknownField(t@, n@),
            ResolutionError::KindMismatch(n, exp, act) => ResolutionFault::KindMismatch(
                n@,
                *exp,
                *act,
            ),
        }
    }
}

/// What resolving one field yields: a scalar value, or a reference to
/// another node of the graph, named by its index.
#[derive(Debug)]
pub enum GraphNodeType {
    Primitive(GraphPrimitiveType),
    Compound(usize),
}

/// Spec-level value of a resolved field.
pub enum NodeValue {
    Scalar(PrimValue),
    Compound(int),
}

impl View for GraphNodeType {
    type V = NodeValue;

    open spec fn view(&self) -> NodeValue {
        match self {
            GraphNodeType::Primitive(p) => NodeValue::Scalar(p@),
            GraphNodeType::Compound(id) => NodeValue::Compound(*id as int),
        }
    }
}

impl GraphNodeType {
    /// A copy of this value, same in every observable way.
    pub fn duplicate(&self) -> (r: GraphNodeType)
        ensures
            r@ == self@,
    {
        match self {
            GraphNodeType::Primitive(GraphPrimitiveType::Int(v)) => GraphNodeType::Primitive(
                GraphPrimitiveType::Int(*v),
            ),
            GraphNodeType::Primitive(GraphPrimitiveType::Str(s)) => GraphNodeType::Primitive(
                GraphPrimitiveType::Str(s.clone()),
            ),
            GraphNodeType::Compound(id) => GraphNodeType::Compound(*id),
        }
    }
}

/// The sole capability the executor depends on: resolving a field name to a
/// value.  `resolve_spec` is the field table the implementation answers
/// from, and `label_spec` names the node type in errors.
pub trait GraphNodeProvider {
    /// The name of the node's type, used to report an unknown field.
    spec fn label_spec(&self) -> Seq<char>;

    /// What resolving each field name yields, if anything.
    spec fn resolve_spec(&self, name: Seq<char>) -> Option<NodeValue>;

    /// Resolves one field: the value the field table holds for `name`, or an
    /// `UnknownField` error naming this node type and the field.
    fn node_for(&self, name: &str) -> (r: Result<GraphNodeType, ResolutionError>)
        ensures
            (match self.resolve_spec(name@) {
                Some(v) => r matches Ok(g) && g@ == v,
                None => r matches Err(e) && e@ == ResolutionFault::UnknownField(
                    self.label_spec(),
                    name@,
                ),
            }),
    ;
}

/// First-match lookup of `name` among the registered fields from index `i`
/// on.
pub open spec fn field_lookup_from(
    fields: Seq<(String, GraphNodeType)>,
    i: int,
    name: Seq<char>,
) -> Option<NodeValue>
    decreases fields.len() - i,
{
    if 0 <= i < fields.len() {
        if fields[i].0@ == name {
            Some(fields[i].1@)
        } else {
            field_lookup_from(fields, i + 1, name)
        }
    } else {
        None
    }
}

/// A looked-up value always comes from one of the registered entries.
pub proof fn lemma_field_lookup_in_entries(
    fields: Seq<(String, GraphNodeType)>,
    i: int,
    name: Seq<char>,
)
    ensures
        field_lookup_from(fields, i, name) matches Some(v) ==> exists|k: int|
            i <= k < fields.len() && #[trigger] fields[k].1@ == v,
    decreases fields.len() - i,
{
    if 0 <= i < fields.len() && fields[i].0@ != name {
        lemma_field_lookup_in_entries(fields, i + 1, name);
    }
}

/// One node of the object graph: its type name and its registered fields,
/// each a name paired with what resolving it yields.  The same table drives
/// both execution (`node_for`) and the schema projection.
#[derive(Debug)]
pub struct GraphNode {
    /// The name of the node type, reported in errors.
    pub label: String,
    /// The registered `(field name, value)` pairs, in registration order;
    /// when a name is registered twice, the first entry answers.
    pub fields: Vec<(String, GraphNodeType)>,
}

impl GraphNode {
    /// A node of the named type with no fields registered yet.
    pub fn new(label: String) -> (r: GraphNode)
        ensures
            r.label@ == label@,
            r.fields@.len() == 0,
    {
        GraphNode { label, fields: Vec::new() }
    }

    /// Registers one field: `name` will resolve to `value`, after any fields
    /// registered earlier.
    pub fn register(&mut self, name: String, value: GraphNodeType)
        ensures
            final(self).label@ == old(self).label@,
            final(self).fields@ == old(self).fields@.push((name, value)),
    {
        self.fields.push((name, value));
    }
}

impl GraphNodeProvider for GraphNode {
    open spec fn label_spec(&self) -> Seq<char> {
        self.label@
    }

    open spec fn resolve_spec(&self, name: Seq<char>) -> Option<NodeValue> {
        field_lookup_from(self.fields@, 0, name)
    }

    fn node_for(&self, name: &str) -> (r: Result<GraphNodeType, ResolutionError>) {
        let nm = String::from_str(name);
        let n = self.fields.len();
        let mut i: usize = 0;
        while i < n
            invariant
                n == self.fields@.len(),
                i <= n,
                nm@ == name@,
                field_lookup_from(self.fields@, 0, name@) == field_lookup_from(
                    self.fields@,
                    i as int,
                    name@,
                ),
            decreases n - i,
        {
            if self.fields[i].0 == nm {
                return Ok(self.fields[i].1.duplicate());
            }
            i = i + 1;
        }
        Err(ResolutionError::UnknownField(self.label.clone(), nm))
    }
}

/// Every compound field of `node` points below `bound`.
pub open spec fn node_closed_below(node: GraphNode, bound: int) -> bool {
    forall|k: int|
        0 <= k < node.fields@.len() ==> match (#[trigger] node.fields@[k]).1 {
            GraphNodeType::Compound(j) => (j as int) < bound,
            _ => true,
        }
}

/// Every provider's compound fields point into the sequence.
pub open spec fn providers_closed<P: GraphNodeProvider>(g: Seq<P>) -> bool {
    forall|i: int, n: Seq<char>|
        0 <= i < g.len() ==> match #[trigger] g[i].resolve_spec(n) {
            Some(NodeValue::Compound(j)) => 0 <= j < g.len(),
            _ => true,
        }
}

/// The object graph: an arena of nodes referenced by index.  Nodes are added
/// bottom-up, so every compound field points to an earlier node; the graph
/// stays closed and the schema projection terminates.
#[derive(Debug)]
pub struct Graph {
    /// The nodes, in insertion order; a `Compound(i)` field of any node
    /// refers to `nodes[i]`.
    pub nodes: Vec<GraphNode>,
}

impl Graph {
    /// Every node's compound fields point strictly before it.
    pub open spec fn wf(&self) -> bool {
        forall|i: int|
            0 <= i < self.nodes@.len() ==> node_closed_below(#[trigger] self.nodes@[i], i)
    }

    /// An empty graph.
    pub fn new() -> (r: Graph)
        ensures
            r.nodes@.len() == 0,
            r.wf(),
    {
        Graph { nodes: Vec::new() }
    }

    /// Adds a node whose compound fields all point to nodes already present,
    /// and returns its index; refuses the node (and leaves the graph
    /// unchanged) otherwise.
    pub fn add_node(&mut self, node: GraphNode) -> (r: Option<usize>)
        ensures
            r is Some <==> node_closed_below(node, old(self).nodes@.len() as int),
            (match r {
                Some(id) => id == old(self).nodes@.len() && final(self).nodes@ == old(
                    self,
                ).nodes@.push(node),
                None => final(self).nodes@ == old(self).nodes@,
            }),
            old(self).wf() && r is Some ==> final(self).wf(),
    {
        let n = self.nodes.len();
        let m = node.fields.len();
        let mut k: usize = 0;
        while k < m
            invariant
                m == node.fields@.len(),
                k <= m,
                forall|t: int|
                    0 <= t < k ==> match (#[trigger] node.fields@[t]).1 {
                        GraphNodeType::Compound(j) => (j as int) < n,
                        _ => true,
                    },
                n == self.nodes@.len(),
                self == old(self),
            decreases m - k,
        {
            match &node.fields[k].1 {
                GraphNodeType::Compound(j) => {
                    if *j >= n {
                        return None;
                    }
                },
                GraphNodeType::Primitive(_) => {},
            }
            k = k + 1;
        }
        self.nodes.push(node);
        proof {
            if old(self).wf() {
                assert forall|i: int|
                    0 <= i < self.nodes@.len() implies node_closed_below(
                    #[trigger] self.nodes@[i],
                    i,
                ) by {
                    if i < old(self).nodes@.len() {
                        assert(self.nodes@[i] == old(self).nodes@[i]);
                    } else {
                        assert(self.nodes@[i] == node);
                    }
                }
            }
        }
        Some(n)
    }
}

/// A well-formed graph's nodes, taken as a sequence of providers, are
/// closed: every compound field points into the sequence.
pub proof fn lemma_wf_graph_closed(g: Graph)
    requires
        g.wf(),
    ensures
        providers_closed(g.nodes@),
{
    assert forall|i: int, n: Seq<char>|
        0 <= i < g.nodes@.len() implies match #[trigger] g.nodes@[i].resolve_spec(n) {
        Some(NodeValue::Compound(j)) => 0 <= j < g.nodes@.len(),
        _ => true,
    } by {
        lemma_field_lookup_in_entries(g.nodes@[i].fields@, 0, n);
        if let Some(NodeValue::Compound(j)) = g.nodes@[i].resolve_spec(n) {
            let k = choose|k: int|
                0 <= k < g.nodes@[i].fields@.len() && #[trigger] g.nodes@[i].fields@[k].1@
                    == NodeValue::Compound(j);
            assert(node_closed_below(g.nodes@[i], i));
        }
    }
}


/// Looking a name up from `i` on, when the entry at `k` is the first from
/// `i` with that name, yields that entry's value.
pub proof fn lemma_field_lookup_first(
    fields: Seq<(String, GraphNodeType)>,
    i: int,
    k: int,
)
    requires
        0 <= i <= k < fields.len(),
        forall|t: int| i <= t < k ==> (#[trigger] fields[t]).0@ != fields[k].0@,
    ensures
        field_lookup_from(fields, i, fields[k].0@) == Some(fields[k].1@),
    decreases k - i,
{
    if i < k {
        lemma_field_lookup_first(fields, i + 1, k);
    }
}

} // verus!
