//! The selection tree and its parser.
//!
//! A query document is the token sequence `query { selection* }`, where each
//! selection is a name, optionally followed by `{ selection* }` of its own.
//! Tokens are whitespace-delimited words; the structural tokens are exactly
//! the literals `query`, `{` and `}`, and every other word is a field name.
//!
//! The parser is specified by a spec-level recursive-descent parser over a
//! sequence of tokens; the executable parser is proved to return exactly what
//! the spec parser describes, for every input.

use vstd::prelude::*;

verus! {

/// One requested field: a scalar request, or a compound request carrying the
/// ordered selections of its children.
#[derive(Debug, PartialEq, Eq)]
pub enum QueryField {
    Leaf(String),
    Node((String, Vec<QueryField>)),
}

/// One parsed query: the ordered sequence of its top-level selections.
#[derive(Debug, PartialEq, Eq)]
pub struct Query(pub Vec<QueryField>);

/// Spec-level shape of one selection: the mathematical value of a
/// `QueryField`, with names as character sequences.
pub enum SelShape {
    Leaf(Seq<char>),
    Node(Seq<char>, Seq<SelShape>),
}

impl SelShape {
    /// The requested field name, whichever kind the selection is.
    pub open spec fn name(self) -> Seq<char> {
        match self {
            SelShape::Leaf(n) => n,
            SelShape::Node(n, _) => n,
        }
    }
}

/// The shapes of the fields of `s` from index `i` on.
pub open spec fn shapes_from(s: Seq<QueryField>, i: int) -> Seq<SelShape>
    decreases s, 1int, s.len() - i,
{
    if 0 <= i < s.len() {
        seq![s[i]@] + shapes_from(s, i + 1)
    } else {
        Seq::empty()
    }
}

impl View for QueryField {
    type V = SelShape;

    open spec fn view(&self) -> SelShape
        decreases self, 0int,
    {
        match self {
            QueryField::Leaf(n) => SelShape::Leaf(n@),
            QueryField::Node((n, cs)) => SelShape::Node(n@, shapes_from(cs@, 0)),
        }
    }
}

impl View for Query {
    type V = Seq<SelShape>;

    open spec fn view(&self) -> Seq<SelShape> {
        shapes_from(self.0@, 0)
    }
}

/// `shapes_from(s, k)` lists the views of the fields of `s` from `k` on,
/// element by element.
pub proof fn lemma_shapes_from(s: Seq<QueryField>, k: int)
    requires
        0 <= k <= s.len(),
    ensures
        shapes_from(s, k).len() == s.len() - k,
        forall|i: int| k <= i < s.len() ==> shapes_from(s, k)[i - k] == #[trigger] s[i]@,
    decreases s.len() - k,
{
    if k < s.len() {
        lemma_shapes_from(s, k + 1);
        assert forall|i: int| k <= i < s.len() implies shapes_from(s, k)[i - k] == s[i]@ by {
            if i > k {
                let head = seq![s[k]@];
                assert(shapes_from(s, k) == head + shapes_from(s, k + 1));
                assert(head.len() == 1);
                assert((head + shapes_from(s, k + 1))[i - k] == shapes_from(s, k + 1)[i - k
                    - 1]);
            }
        }
    }
}

/// A structural fault found while parsing; no selection tree is produced.
#[derive(Debug, PartialEq, Eq)]
pub enum ParseError {
    /// The document does not begin with `query {`; the position of the
    /// offending token is carried.
    UnexpectedToken(usize),
    /// The token stream ended before a selection list reached its closing
    /// brace.
    UnterminatedList,
    /// A nested selection, named here, was never closed.
    MissingClosingBrace(String),
    /// Tokens remain after the outermost closing brace.
    InvalidEnding,
}

/// Spec-level value of a `ParseError`.
pub enum ParseFault {
    UnexpectedToken(int),
    UnterminatedList,
    MissingClosingBrace(Seq<char>),
    InvalidEnding,
}

impl View for ParseError {
    type V = ParseFault;

    open spec fn view(&self) -> ParseFault {
        match self {
            ParseError::UnexpectedToken(i) => ParseFault::UnexpectedToken(*i as int),
            ParseError::UnterminatedList => ParseFault::UnterminatedList,
            ParseError::MissingClosingBrace(n) => ParseFault::MissingClosingBrace(n@),
            ParseError::InvalidEnding => ParseFault::InvalidEnding,
        }
    }
}

/// The keyword that opens a query document.
pub open spec fn kw_query() -> Seq<char> {
    "query"@
}

/// The token that opens a selection list.
pub open spec fn lbrace() -> Seq<char> {
    "{"@
}

/// The token that closes a selection list.
pub open spec fn rbrace() -> Seq<char> {
    "}"@
}

/// Fuel-bounded spec parser for a selection list starting at `pos`: stops
/// before a closing brace, fails when the stream is exhausted first.  The
/// fuel only bounds the number of sibling selections; `sp_list_fuel` shows
/// that any fuel of at least `toks.len() - pos` gives the same answer.
pub open spec fn sp_list(toks: Seq<Seq<char>>, pos: int, fuel: nat) -> Result<
    (Seq<SelShape>, int),
    ParseFault,
>
    decreases fuel, toks.len() - pos, 1int,
{
    if pos >= toks.len() {
        Err(ParseFault::UnterminatedList)
    } else if toks[pos] == rbrace() {
        Ok((Seq::empty(), pos))
    } else if fuel == 0 {
        Err(ParseFault::UnterminatedList)
    } else {
        match sp_elem(toks, pos, fuel) {
            Err(e) => Err(e),
            Ok((f, pos2)) => match sp_list(toks, pos2, (fuel - 1) as nat) {
                Err(e) => Err(e),
                Ok((fs, pos3)) => Ok((seq![f] + fs, pos3)),
            },
        }
    }
}

/// Fuel-bounded spec parser for one selection at `pos`: a name, made a `Node`
/// when immediately followed by `{`, and a `Leaf` otherwise.  A child list
/// that runs off the end of the stream reports the unclosed selection by
/// name.
pub open spec fn sp_elem(toks: Seq<Seq<char>>, pos: int, fuel: nat) -> Result<
    (SelShape, int),
    ParseFault,
>
    decreases fuel, toks.len() - pos, 0int,
{
    if pos >= toks.len() {
        Err(ParseFault::UnterminatedList)
    } else {
        let name = toks[pos];
        if pos + 1 < toks.len() && toks[pos + 1] == lbrace() {
            match sp_list(toks, pos + 2, fuel) {
                Err(ParseFault::UnterminatedList) => Err(ParseFault::MissingClosingBrace(name)),
                Err(e) => Err(e),
                Ok((cs, pos2)) => {
                    if pos2 < toks.len() && toks[pos2] == rbrace() {
                        Ok((SelShape::Node(name, cs), pos2 + 1))
                    } else {
                        Err(ParseFault::MissingClosingBrace(name))
                    }
                },
            }
        } else {
            Ok((SelShape::Leaf(name), pos + 1))
        }
    }
}

/// On success the spec parsers stay within the stream and advance: a list
/// stops at a closing brace at or after `pos`, one selection consumes at
/// least its name.
pub proof fn sp_list_bounds(toks: Seq<Seq<char>>, pos: int, fuel: nat)
    ensures
        sp_list(toks, pos, fuel) matches Ok((fs, p2)) ==> pos <= p2 < toks.len() && toks[p2]
            == rbrace(),
    decreases fuel, toks.len() - pos, 1int,
{
    if pos >= toks.len() || toks[pos] == rbrace() || fuel == 0 {
    } else {
        sp_elem_bounds(toks, pos, fuel);
        if let Ok((f, pos2)) = sp_elem(toks, pos, fuel) {
            sp_list_bounds(toks, pos2, (fuel - 1) as nat);
        }
    }
}

/// See `sp_list_bounds`.
pub proof fn sp_elem_bounds(toks: Seq<Seq<char>>, pos: int, fuel: nat)
    ensures
        sp_elem(toks, pos, fuel) matches Ok((f, p2)) ==> pos < p2 <= toks.len(),
    decreases fuel, toks.len() - pos, 0int,
{
    if pos < toks.len() && pos + 1 < toks.len() && toks[pos + 1] == lbrace() {
        sp_list_bounds(toks, pos + 2, fuel);
    }
}

/// Any fuel of at least `toks.len() - pos` gives the same parse of a list.
pub proof fn sp_list_fuel(toks: Seq<Seq<char>>, pos: int, f1: nat, f2: nat)
    requires
        0 <= pos,
        f1 >= toks.len() - pos,
        f2 >= toks.len() - pos,
    ensures
        sp_list(toks, pos, f1) == sp_list(toks, pos, f2),
    decreases f1 + f2, toks.len() - pos, 1int,
{
    if pos >= toks.len() || toks[pos] == rbrace() {
    } else {
        sp_elem_fuel(toks, pos, f1, f2);
        sp_elem_bounds(toks, pos, f1);
        if let Ok((f, pos2)) = sp_elem(toks, pos, f1) {
            sp_list_fuel(toks, pos2, (f1 - 1) as nat, (f2 - 1) as nat);
        }
    }
}

/// Any fuel of at least `toks.len() - pos` gives the same parse of one
/// selection.
pub proof fn sp_elem_fuel(toks: Seq<Seq<char>>, pos: int, f1: nat, f2: nat)
    requires
        0 <= pos,
        f1 >= toks.len() - pos,
        f2 >= toks.len() - pos,
    ensures
        sp_elem(toks, pos, f1) == sp_elem(toks, pos, f2),
    decreases f1 + f2, toks.len() - pos, 0int,
{
    if pos < toks.len() && pos + 1 < toks.len() && toks[pos + 1] == lbrace() {
        sp_list_fuel(toks, pos + 2, f1, f2);
    }
}

/// The spec parse of a selection list starting at `pos`: enough fuel for any
/// input.
pub open spec fn spec_parse_list(toks: Seq<Seq<char>>, pos: int) -> Result<
    (Seq<SelShape>, int),
    ParseFault,
> {
    sp_list(toks, pos, (toks.len() + 1) as nat)
}

/// The spec parse of one selection starting at `pos`.
pub open spec fn spec_parse_elem(toks: Seq<Seq<char>>, pos: int) -> Result<
    (SelShape, int),
    ParseFault,
> {
    sp_elem(toks, pos, (toks.len() + 1) as nat)
}

/// `spec_parse_list` satisfies the natural recurrence of the grammar, with
/// the fuel hidden.
pub proof fn lemma_parse_list_unfold(toks: Seq<Seq<char>>, pos: int)
    requires
        0 <= pos,
    ensures
        spec_parse_list(toks, pos) == if pos >= toks.len() {
            Err::<(Seq<SelShape>, int), ParseFault>(ParseFault::UnterminatedList)
        } else if toks[pos] == rbrace() {
            Ok::<(Seq<SelShape>, int), ParseFault>((Seq::empty(), pos))
        } else {
            match spec_parse_elem(toks, pos) {
                Err(e) => Err(e),
                Ok((f, pos2)) => match spec_parse_list(toks, pos2) {
                    Err(e) => Err(e),
                    Ok((fs, pos3)) => Ok((seq![f] + fs, pos3)),
                },
            }
        },
{
    let fuel = (toks.len() + 1) as nat;
    if pos >= toks.len() || toks[pos] == rbrace() {
    } else {
        sp_elem_bounds(toks, pos, fuel);
        if let Ok((f, pos2)) = sp_elem(toks, pos, fuel) {
            sp_list_fuel(toks, pos2, (fuel - 1) as nat, fuel);
        }
    }
}

/// `spec_parse_elem` satisfies the natural recurrence of the grammar, with
/// the fuel hidden.
pub proof fn lemma_parse_elem_unfold(toks: Seq<Seq<char>>, pos: int)
    requires
        0 <= pos,
    ensures
        spec_parse_elem(toks, pos) == if pos >= toks.len() {
            Err::<(SelShape, int), ParseFault>(ParseFault::UnterminatedList)
        } else {
            let name = toks[pos];
            if pos + 1 < toks.len() && toks[pos + 1] == lbrace() {
                match spec_parse_list(toks, pos + 2) {
                    Err(ParseFault::UnterminatedList) => Err(
                        ParseFault::MissingClosingBrace(name),
                    ),
                    Err(e) => Err(e),
                    Ok((cs, pos2)) => {
                        if pos2 < toks.len() && toks[pos2] == rbrace() {
                            Ok((SelShape::Node(name, cs), pos2 + 1))
                        } else {
                            Err(ParseFault::MissingClosingBrace(name))
                        }
                    },
                }
            } else {
                Ok((SelShape::Leaf(name), pos + 1))
            }
        },
{
    let fuel = (toks.len() + 1) as nat;
    if pos < toks.len() && pos + 1 < toks.len() && toks[pos + 1] == lbrace() {
        sp_list_fuel(toks, pos + 2, fuel, fuel);
    }
}

/// The spec parse of a whole document: `query`, `{`, the selection list, the
/// closing `}`, and nothing after it.
pub open spec fn spec_parse_doc(toks: Seq<Seq<char>>) -> Result<Seq<SelShape>, ParseFault> {
    if toks.len() == 0 || toks[0] != kw_query() {
        Err(ParseFault::UnexpectedToken(0))
    } else if toks.len() < 2 || toks[1] != lbrace() {
        Err(ParseFault::UnexpectedToken(1))
    } else {
        match spec_parse_list(toks, 2) {
            Err(e) => Err(e),
            Ok((fs, pos)) => {
                if pos + 1 == toks.len() {
                    Ok(fs)
                } else {
                    Err(ParseFault::InvalidEnding)
                }
            },
        }
    }
}


/// The whitespace characters that delimit tokens.
pub open spec fn is_space(c: char) -> bool {
    c == ' ' || c == '\n' || c == '\t' || c == '\r'
}

/// The position just past the word starting at `i`: the first position at or
/// after `i` holding a space, or the end of the text.
pub open spec fn word_end(s: Seq<char>, i: int) -> int
    decreases s.len() - i,
{
    if 0 <= i < s.len() && !is_space(s[i]) {
        word_end(s, i + 1)
    } else {
        i
    }
}

/// `word_end` stays within the text, and everything before it is non-space
/// while the character at it, if any, is a space.
pub proof fn lemma_word_end(s: Seq<char>, i: int)
    requires
        0 <= i <= s.len(),
    ensures
        i <= word_end(s, i) <= s.len(),
        forall|t: int| i <= t < word_end(s, i) ==> !is_space(#[trigger] s[t]),
        word_end(s, i) < s.len() ==> is_space(s[word_end(s, i)]),
    decreases s.len() - i,
{
    if i < s.len() && !is_space(s[i]) {
        lemma_word_end(s, i + 1);
    }
}

/// A position `j` with only non-spaces between `i` and `j`, and a space or
/// the end of the text at `j`, is exactly `word_end(s, i)`.
pub proof fn lemma_word_end_agrees(s: Seq<char>, i: int, j: int)
    requires
        0 <= i <= j <= s.len(),
        forall|t: int| i <= t < j ==> !is_space(#[trigger] s[t]),
        j < s.len() ==> is_space(s[j]),
    ensures
        word_end(s, i) == j,
    decreases s.len() - i,
{
    if i < j {
        lemma_word_end_agrees(s, i + 1, j);
    }
}

/// The tokens of the text from position `i` on: maximal runs of non-space
/// characters, in order.
pub open spec fn spec_tokenize_from(s: Seq<char>, i: int) -> Seq<Seq<char>>
    decreases s.len() - i,
    via spec_tokenize_from_dec
{
    if !(0 <= i < s.len()) {
        Seq::empty()
    } else if is_space(s[i]) {
        spec_tokenize_from(s, i + 1)
    } else {
        seq![s.subrange(i, word_end(s, i))] + spec_tokenize_from(s, word_end(s, i))
    }
}

#[via_fn]
proof fn spec_tokenize_from_dec(s: Seq<char>, i: int) {
    if 0 <= i < s.len() && !is_space(s[i]) {
        lemma_word_end(s, i);
    }
}

/// The whitespace-delimited tokens of a query text.
pub open spec fn spec_tokenize(s: Seq<char>) -> Seq<Seq<char>> {
    spec_tokenize_from(s, 0)
}

/// Whether `c` delimits tokens.
pub fn space_char(c: char) -> (r: bool)
    ensures
        r == is_space(c),
{
    c == ' ' || c == '\n' || c == '\t' || c == '\r'
}

/// Splits a query text into its whitespace-delimited tokens.
pub fn tokenize(s: &str) -> (r: Vec<String>)
    ensures
        r.deep_view() == spec_tokenize(s@),
{
    let n = s.unicode_len();
    let mut toks: Vec<String> = Vec::new();
    let mut i: usize = 0;
    while i < n
        invariant
            n == s@.len(),
            i <= n,
            spec_tokenize(s@) == toks.deep_view() + spec_tokenize_from(s@, i as int),
        decreases n - i,
    {
        let ghost pre = toks.deep_view();
        let c = s.get_char(i);
        if space_char(c) {
            i = i + 1;
        } else {
            let mut j: usize = i + 1;
            while j < n
                invariant
                    n == s@.len(),
                    i < j <= n,
                    forall|t: int| i <= t < j ==> !is_space(#[trigger] s@[t]),
                ensures
                    i < j <= n,
                    forall|t: int| i <= t < j ==> !is_space(#[trigger] s@[t]),
                    j == n || is_space(s@[j as int]),
                decreases n - j,
            {
                let cj = s.get_char(j);
                if space_char(cj) {
                    break ;
                }
                j = j + 1;
            }
            proof {
                lemma_word_end_agrees(s@, i as int, j as int);
            }
            let word = s.substring_char(i, j);
            let tok = String::from_str(word);
            toks.push(tok);
            proof {
                assert(toks.deep_view() =~= pre + seq![s@.subrange(i as int, j as int)]);
                assert(pre + (seq![s@.subrange(i as int, j as int)] + spec_tokenize_from(
                    s@,
                    j as int,
                )) =~= toks.deep_view() + spec_tokenize_from(s@, j as int));
            }
            i = j;
        }
    }
    toks
}

/// Parses the selection list that starts at token `pos`, stopping before a
/// closing brace; returns the parsed fields and the position of that brace,
/// exactly as the spec parser describes.
pub fn parse_list(toks: &Vec<String>, pos: usize) -> (r: Result<
    (Vec<QueryField>, usize),
    ParseError,
>)
    ensures
        (match r {
            Ok((fields, p2)) => spec_parse_list(toks.deep_view(), pos as int) == Ok::<
                _,
                ParseFault,
            >((shapes_from(fields@, 0), p2 as int)) && p2 < toks@.len(),
            Err(e) => spec_parse_list(toks.deep_view(), pos as int) == Err::<
                (Seq<SelShape>, int),
                _,
            >(e@),
        }),
    decreases toks@.len() - pos, 1int,
{
    let ghost tv = toks.deep_view();
    let n = toks.len();
    let mut fields: Vec<QueryField> = Vec::new();
    let mut cur: usize = pos;
    if pos >= n {
        proof {
            lemma_parse_list_unfold(tv, pos as int);
        }
        return Err(ParseError::UnterminatedList);
    }
    proof {
        if let Ok((cs, p)) = spec_parse_list(tv, pos as int) {
            assert(shapes_from(fields@, 0) + cs =~= cs);
        }
    }
    loop
        invariant
            n == toks@.len(),
            tv == toks.deep_view(),
            pos <= cur <= n,
            (match spec_parse_list(tv, cur as int) {
                Ok((cs, p)) => spec_parse_list(tv, pos as int) == Ok::<_, ParseFault>((
                    shapes_from(fields@, 0) + cs,
                    p,
                )),
                Err(e) => spec_parse_list(tv, pos as int) == Err::<(Seq<SelShape>, int), _>(e),
            }),
        decreases n - cur,
    {
        proof {
            lemma_parse_list_unfold(tv, cur as int);
        }
        if cur >= n {
            return Err(ParseError::UnterminatedList);
        }
        let rb = String::from_str("}");
        if toks[cur] == rb {
            proof {
                assert(spec_parse_list(tv, cur as int) == Ok::<_, ParseFault>((
                    Seq::<SelShape>::empty(),
                    cur as int,
                )));
                assert(shapes_from(fields@, 0) + Seq::<SelShape>::empty() =~= shapes_from(
                    fields@,
                    0,
                ));
            }
            return Ok((fields, cur));
        }
        match parse_elem(toks, cur) {
            Err(e) => {
                return Err(e);
            },
            Ok((f, p2)) => {
                proof {
                    sp_elem_bounds(tv, cur as int, (tv.len() + 1) as nat);
                    lemma_shapes_push(fields@, f);
                    if let Ok((cs, p)) = spec_parse_list(tv, p2 as int) {
                        assert(shapes_from(fields@, 0) + (seq![f@] + cs) =~= shapes_from(
                            fields@.push(f),
                            0,
                        ) + cs);
                    }
                }
                fields.push(f);
                cur = p2;
            },
        }
    }
}

/// `shapes_from` turns a pushed field into a pushed shape.
pub proof fn lemma_shapes_push(s: Seq<QueryField>, x: QueryField)
    ensures
        shapes_from(s.push(x), 0) =~= shapes_from(s, 0) + seq![x@],
{
    lemma_shapes_from(s, 0);
    lemma_shapes_from(s.push(x), 0);
    assert forall|i: int| 0 <= i < s.len() + 1 implies shapes_from(s.push(x), 0)[i] == (
    shapes_from(s, 0) + seq![x@])[i] by {
        assert(shapes_from(s.push(x), 0)[i] == s.push(x)[i]@);
        if i < s.len() {
            assert(s.push(x)[i] == s[i]);
            assert(shapes_from(s, 0)[i] == s[i]@);
        } else {
            assert(s.push(x)[i] == x);
        }
    }
}

/// Parses one selection at token `pos`: its name, then a brace-enclosed child
/// list if an opening brace follows, exactly as the spec parser describes.
pub fn parse_elem(toks: &Vec<String>, pos: usize) -> (r: Result<(QueryField, usize), ParseError>)
    ensures
        (match r {
            Ok((f, p2)) => spec_parse_elem(toks.deep_view(), pos as int) == Ok::<_, ParseFault>((
                f@,
                p2 as int,
            )) && p2 <= toks@.len(),
            Err(e) => spec_parse_elem(toks.deep_view(), pos as int) == Err::<(SelShape, int), _>(
                e@,
            ),
        }),
    decreases toks@.len() - pos, 0int,
{
    let ghost tv = toks.deep_view();
    let n = toks.len();
    if pos >= n {
        return Err(ParseError::UnterminatedList);
    }
    let name = toks[pos].clone();
    let lb = String::from_str("{");
    if pos + 1 < n && toks[pos + 1] == lb {
        proof {
            lemma_parse_elem_unfold(tv, pos as int);
        }
        match parse_list(toks, pos + 2) {
            Err(e) => {
                match e {
                    ParseError::UnterminatedList => Err(ParseError::MissingClosingBrace(name)),
                    other => Err(other),
                }
            },
            Ok((cfields, p2)) => {
                let rb = String::from_str("}");
                if p2 < n && toks[p2] == rb {
                    Ok((QueryField::Node((name, cfields)), p2 + 1))
                } else {
                    Err(ParseError::MissingClosingBrace(name))
                }
            },
        }
    } else {
        proof {
            lemma_parse_elem_unfold(tv, pos as int);
        }
        Ok((QueryField::Leaf(name), pos + 1))
    }
}

impl Query {
    /// Parses a query text: tokenizes it on whitespace and parses the token
    /// stream as `query { selection* }`, rejecting anything after the final
    /// closing brace.  Returns exactly what the spec parser of the tokenized
    /// text describes, for every input.
    pub fn try_new(query: &str) -> (r: Result<Query, ParseError>)
        ensures
            (match r {
                Ok(q) => spec_parse_doc(spec_tokenize(query@)) == Ok::<_, ParseFault>(q@),
                Err(e) => spec_parse_doc(spec_tokenize(query@)) == Err::<Seq<SelShape>, _>(e@),
            }),
    {
        let toks = tokenize(query);
        let ghost tv = toks.deep_view();
        let n = toks.len();
        let kw = String::from_str("query");
        if n == 0 || !(toks[0] == kw) {
            return Err(ParseError::UnexpectedToken(0));
        }
        let lb = String::from_str("{");
        if n < 2 || !(toks[1] == lb) {
            return Err(ParseError::UnexpectedToken(1));
        }
        match parse_list(&toks, 2) {
            Err(e) => Err(e),
            Ok((fields, pos)) => {
                if pos == n - 1 {
                    Ok(Query(fields))
                } else {
                    Err(ParseError::InvalidEnding)
                }
            },
        }
    }
}

} // verus!
