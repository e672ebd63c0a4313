//! Serializing a selection tree back into query text, and the round-trip
//! guarantee: any selection set the parser accepts is parsed back,
//! structurally identical, from its own serialized text.

use vstd::prelude::*;

use crate::parser::is_space;
use crate::parser::kw_query;
use crate::parser::lemma_word_end;
use crate::parser::lemma_word_end_agrees;
use crate::parser::spec_tokenize;
use crate::parser::spec_tokenize_from;
use crate::parser::word_end;
use crate::parser::ParseFault;
use crate::parser::lbrace;
use crate::parser::rbrace;
use crate::parser::shapes_from;
use crate::parser::Query;
use crate::parser::QueryField;
use crate::parser::SelShape;

verus! {

/// The canonical tokens of one selection: its name for a leaf; its name,
/// `{`, its children's tokens and `}` for a node.
pub open spec fn sel_tokens(s: SelShape) -> Seq<Seq<char>>
    decreases s, 0int,
{
    match s {
        SelShape::Leaf(n) => seq![n],
        SelShape::Node(n, cs) => seq![n, lbrace()] + list_tokens_from(cs, 0) + seq![rbrace()],
    }
}

/// The canonical tokens of the selections of `cs` from index `i` on.
pub open spec fn list_tokens_from(cs: Seq<SelShape>, i: int) -> Seq<Seq<char>>
    decreases cs, 1int, cs.len() - i,
{
    if 0 <= i < cs.len() {
        sel_tokens(cs[i]) + list_tokens_from(cs, i + 1)
    } else {
        Seq::empty()
    }
}

/// The canonical tokens of a whole query document.
pub open spec fn doc_tokens(q: Seq<SelShape>) -> Seq<Seq<char>> {
    seq![kw_query(), lbrace()] + list_tokens_from(q, 0) + seq![rbrace()]
}

/// The sibling condition that makes serialization unambiguous: a leaf is
/// never followed by a sibling named `{`, which would read as the leaf's
/// opening brace.
pub open spec fn wf_adj(cs: Seq<SelShape>) -> bool {
    forall|i: int|
        0 <= i < cs.len() - 1 ==> ((#[trigger] cs[i]) is Leaf ==> cs[i + 1].name() != lbrace())
}

/// A selection the parser can produce: its name is not `}`, and its
/// children, recursively, form a parser-producible list.
pub open spec fn wf_sel(s: SelShape) -> bool
    decreases s,
{
    match s {
        SelShape::Leaf(n) => n != rbrace(),
        SelShape::Node(n, cs) => n != rbrace() && wf_adj(cs) && (forall|i: int|
            0 <= i < cs.len() ==> wf_sel(#[trigger] cs[i])),
    }
}

/// A selection list the parser can produce.
pub open spec fn wf_list(cs: Seq<SelShape>) -> bool {
    wf_adj(cs) && (forall|i: int| 0 <= i < cs.len() ==> wf_sel(#[trigger] cs[i]))
}

/// A word the tokenizer can produce: non-empty, with no whitespace in it.
pub open spec fn token_shaped(n: Seq<char>) -> bool {
    n.len() > 0 && (forall|k: int| 0 <= k < n.len() ==> !crate::parser::is_space(#[trigger] n[k]))
}

/// All names of the selection are tokenizer words.
pub open spec fn shaped_sel(s: SelShape) -> bool
    decreases s,
{
    match s {
        SelShape::Leaf(n) => token_shaped(n),
        SelShape::Node(n, cs) => token_shaped(n) && (forall|i: int|
            0 <= i < cs.len() ==> shaped_sel(#[trigger] cs[i])),
    }
}

/// All names of the list are tokenizer words.
pub open spec fn shaped_list(cs: Seq<SelShape>) -> bool {
    forall|i: int| 0 <= i < cs.len() ==> shaped_sel(#[trigger] cs[i])
}

/// A selection's tokens start with its name, and a list's tokens with its
/// first selection's name.
pub proof fn lemma_sel_tokens_head(s: SelShape)
    ensures
        sel_tokens(s).len() >= 1,
        sel_tokens(s)[0] == s.name(),
{
    match s {
        SelShape::Leaf(n) => {},
        SelShape::Node(n, cs) => {
            assert(sel_tokens(s)[0] == (seq![n, lbrace()] + list_tokens_from(cs, 0))[0]);
        },
    }
}

/// The two brace tokens differ.
pub proof fn lemma_brace_literals()
    ensures
        lbrace() != rbrace(),
        lbrace().len() == 1,
        rbrace().len() == 1,
{
    reveal_strlit("{");
    reveal_strlit("}");
    assert(lbrace()[0] != rbrace()[0]);
}

/// Parsing the canonical tokens of one well-formed selection, laid out in
/// `toks` at `pos` with at least one more token after them, yields that
/// selection back.  For a leaf the token after it must not be `{`, which
/// would read as the leaf's opening brace.
pub proof fn lemma_parse_canon_elem(s: SelShape, toks: Seq<Seq<char>>, pos: int)
    requires
        wf_sel(s),
        0 <= pos,
        pos + sel_tokens(s).len() < toks.len(),
        forall|d: int| 0 <= d < sel_tokens(s).len() ==> toks[pos + d] == #[trigger] sel_tokens(
            s,
        )[d],
        s is Leaf ==> toks[pos + 1] != lbrace(),
    ensures
        crate::parser::spec_parse_elem(toks, pos) == Ok::<_, crate::parser::ParseFault>((
            s,
            pos + sel_tokens(s).len(),
        )),
    decreases sel_tokens(s).len(), 0int,
{
    crate::parser::lemma_parse_elem_unfold(toks, pos);
    match s {
        SelShape::Leaf(n) => {
            assert(toks[pos] == sel_tokens(s)[0]);
            assert(toks[pos] == n);
        },
        SelShape::Node(n, cs) => {
            let body = list_tokens_from(cs, 0);
            let el = sel_tokens(s).len() as int;
            assert(sel_tokens(s) == seq![n, lbrace()] + body + seq![rbrace()]);
            assert(el == 3 + body.len());
            assert(sel_tokens(s)[0] == n);
            assert(sel_tokens(s)[1] == lbrace());
            assert(sel_tokens(s)[2 + body.len() as int] == rbrace());
            assert(toks[pos] == n);
            assert(toks[pos + 1] == lbrace());
            assert(toks[pos + 2 + body.len() as int] == rbrace());
            assert forall|d: int| 0 <= d < body.len() implies toks[pos + 2 + d] == #[trigger] body[d] by {
                assert(sel_tokens(s)[2 + d] == body[d]);
                assert(toks[pos + (2 + d)] == sel_tokens(s)[2 + d]);
            }
            lemma_parse_canon_list(cs, 0, toks, pos + 2);
            assert(cs.subrange(0, cs.len() as int) =~= cs);
            assert(crate::parser::spec_parse_list(toks, pos + 2) == Ok::<
                _,
                crate::parser::ParseFault,
            >((cs, pos + 2 + body.len())));
        },
    }
}

/// Parsing the canonical tokens of a well-formed selection list, laid out in
/// `toks` at `pos` and followed by a `}` token, yields the list back and
/// stops at that brace.
pub proof fn lemma_parse_canon_list(cs: Seq<SelShape>, k: int, toks: Seq<Seq<char>>, pos: int)
    requires
        wf_list(cs),
        0 <= k <= cs.len(),
        0 <= pos,
        pos + list_tokens_from(cs, k).len() < toks.len(),
        forall|d: int|
            0 <= d < list_tokens_from(cs, k).len() ==> toks[pos + d] == #[trigger] list_tokens_from(
                cs,
                k,
            )[d],
        toks[pos + list_tokens_from(cs, k).len()] == rbrace(),
    ensures
        crate::parser::spec_parse_list(toks, pos) == Ok::<_, crate::parser::ParseFault>((
            cs.subrange(k, cs.len() as int),
            pos + list_tokens_from(cs, k).len(),
        )),
    decreases list_tokens_from(cs, k).len(), 1int,
{
    crate::parser::lemma_parse_list_unfold(toks, pos);
    lemma_brace_literals();
    let ll = list_tokens_from(cs, k).len() as int;
    if k == cs.len() {
        assert(toks[pos] == rbrace());
        assert(cs.subrange(k, cs.len() as int) =~= Seq::<SelShape>::empty());
    } else {
        let f = cs[k];
        lemma_sel_tokens_head(f);
        let sl = sel_tokens(f).len() as int;
        assert(list_tokens_from(cs, k) == sel_tokens(f) + list_tokens_from(cs, k + 1));
        let rest = list_tokens_from(cs, k + 1);
        assert forall|d: int| 0 <= d < sl implies toks[pos + d] == #[trigger] sel_tokens(f)[d] by {
            assert(list_tokens_from(cs, k)[d] == sel_tokens(f)[d]);
        }
        assert(toks[pos] == f.name());
        assert(wf_sel(f));
        assert(f.name() != rbrace());
        // the token after f's tokens
        if k + 1 < cs.len() {
            lemma_sel_tokens_head(cs[k + 1]);
            assert(list_tokens_from(cs, k + 1)[0] == sel_tokens(cs[k + 1])[0]);
            assert(list_tokens_from(cs, k)[sl] == rest[0]);
            assert(toks[pos + sl] == cs[k + 1].name());
            if f is Leaf {
                assert(cs[k + 1].name() != lbrace());
            }
        } else {
            assert(rest.len() == 0);
            assert(sl == ll);
            assert(toks[pos + sl] == rbrace());
        }
        lemma_parse_canon_elem(f, toks, pos);
        // the rest of the list
        assert forall|d: int| 0 <= d < rest.len() implies toks[pos + sl + d] == #[trigger] rest[d] by {
            assert(list_tokens_from(cs, k)[sl + d] == rest[d]);
            assert(toks[pos + (sl + d)] == list_tokens_from(cs, k)[sl + d]);
        }
        lemma_parse_canon_list(cs, k + 1, toks, pos + sl);
        assert(seq![f] + cs.subrange(k + 1, cs.len() as int) =~= cs.subrange(k, cs.len() as int));
    }
}

/// Parsing the canonical token serialization of a well-formed selection set
/// yields it back exactly.
pub proof fn lemma_parse_canon_doc(q: Seq<SelShape>)
    requires
        wf_list(q),
    ensures
        crate::parser::spec_parse_doc(doc_tokens(q)) == Ok::<_, crate::parser::ParseFault>(q),
{
    let toks = doc_tokens(q);
    let body = list_tokens_from(q, 0);
    assert(toks == seq![kw_query(), lbrace()] + body + seq![rbrace()]);
    assert(toks.len() == 3 + body.len());
    assert(toks[0] == kw_query());
    assert(toks[1] == lbrace());
    assert(toks[2 + body.len() as int] == rbrace());
    assert forall|d: int| 0 <= d < body.len() implies toks[2 + d] == #[trigger] body[d] by {
        assert(toks[2 + d] == (seq![kw_query(), lbrace()] + body)[2 + d]);
    }
    lemma_parse_canon_list(q, 0, toks, 2);
    assert(q.subrange(0, q.len() as int) =~= q);
}


/// A parsed selection is well formed: it is named by the token at its start,
/// a leaf stops before any `{`, and every name is a token of the input.
pub proof fn sp_elem_wf(toks: Seq<Seq<char>>, pos: int, fuel: nat)
    requires
        0 <= pos,
    ensures
        crate::parser::sp_elem(toks, pos, fuel) matches Ok((f, p2)) ==> {
            &&& f.name() == toks[pos]
            &&& (toks[pos] != rbrace() ==> wf_sel(f))
            &&& (f is Leaf ==> p2 == pos + 1 && (p2 >= toks.len() || toks[p2] != lbrace()))
            &&& ((forall|j: int| 0 <= j < toks.len() ==> token_shaped(#[trigger] toks[j]))
                ==> shaped_sel(f))
        },
    decreases fuel, toks.len() - pos, 0int,
{
    if pos < toks.len() && pos + 1 < toks.len() && toks[pos + 1] == lbrace() {
        sp_list_wf(toks, pos + 2, fuel);
    }
}

/// A parsed selection list is well formed, and its first selection is named
/// by the token at its start.
pub proof fn sp_list_wf(toks: Seq<Seq<char>>, pos: int, fuel: nat)
    requires
        0 <= pos,
    ensures
        crate::parser::sp_list(toks, pos, fuel) matches Ok((cs, p2)) ==> {
            &&& wf_list(cs)
            &&& (cs.len() > 0 ==> cs[0].name() == toks[pos])
            &&& ((forall|j: int| 0 <= j < toks.len() ==> token_shaped(#[trigger] toks[j]))
                ==> shaped_list(cs))
        },
    decreases fuel, toks.len() - pos, 1int,
{
    if pos >= toks.len() || toks[pos] == rbrace() || fuel == 0 {
    } else {
        sp_elem_wf(toks, pos, fuel);
        crate::parser::sp_elem_bounds(toks, pos, fuel);
        if let Ok((f, pos2)) = crate::parser::sp_elem(toks, pos, fuel) {
            sp_list_wf(toks, pos2, (fuel - 1) as nat);
            if let Ok((cs2, p3)) = crate::parser::sp_list(toks, pos2, (fuel - 1) as nat) {
                let combined = seq![f] + cs2;
                if cs2.len() > 0 {
                    assert(pos2 < toks.len() && toks[pos2] != rbrace());
                    assert(cs2[0].name() == toks[pos2]);
                }
                assert forall|i: int|
                    0 <= i < combined.len() - 1 implies ((#[trigger] combined[i]) is Leaf
                    ==> combined[i + 1].name() != lbrace()) by {
                    if i == 0 {
                        assert(combined[0] == f);
                        assert(combined[1] == cs2[0]);
                    } else {
                        assert(combined[i] == cs2[i - 1]);
                        assert(combined[i + 1] == cs2[i]);
                    }
                }
                assert forall|i: int| 0 <= i < combined.len() implies wf_sel(
                    #[trigger] combined[i],
                ) by {
                    if i == 0 {
                        assert(combined[0] == f);
                    } else {
                        assert(combined[i] == cs2[i - 1]);
                    }
                }
                if forall|j: int| 0 <= j < toks.len() ==> token_shaped(#[trigger] toks[j]) {
                    assert forall|i: int| 0 <= i < combined.len() implies shaped_sel(
                        #[trigger] combined[i],
                    ) by {
                        if i == 0 {
                            assert(combined[0] == f);
                        } else {
                            assert(combined[i] == cs2[i - 1]);
                        }
                    }
                }
            }
        }
    }
}

/// What the parser accepts is well formed, and its names are tokens of the
/// input.
pub proof fn lemma_parse_list_wf(toks: Seq<Seq<char>>, pos: int)
    requires
        0 <= pos,
    ensures
        crate::parser::spec_parse_list(toks, pos) matches Ok((cs, p2)) ==> wf_list(cs) && ((
        forall|j: int| 0 <= j < toks.len() ==> token_shaped(#[trigger] toks[j])) ==> shaped_list(
            cs,
        )),
{
    sp_list_wf(toks, pos, (toks.len() + 1) as nat);
}


/// The text of the tokens from index `i` on, separated by single spaces.
pub open spec fn join_from(ts: Seq<Seq<char>>, i: int) -> Seq<char>
    decreases ts.len() - i,
{
    if 0 <= i < ts.len() {
        if i + 1 < ts.len() {
            ts[i] + seq![' '] + join_from(ts, i + 1)
        } else {
            ts[i]
        }
    } else {
        Seq::empty()
    }
}

/// The serialized text of a whole query: its canonical tokens joined by
/// single spaces.
pub open spec fn spec_query_text(q: Seq<SelShape>) -> Seq<char> {
    join_from(doc_tokens(q), 0)
}

/// Tokenizing depends only on the characters from the position on.
proof fn lemma_tokenize_suffix(s: Seq<char>, i: int, t: Seq<char>, j: int)
    requires
        0 <= i <= s.len(),
        0 <= j <= t.len(),
        s.len() - i == t.len() - j,
        forall|d: int| 0 <= d < s.len() - i ==> s[i + d] == #[trigger] t[j + d],
    ensures
        spec_tokenize_from(s, i) == spec_tokenize_from(t, j),
    decreases s.len() - i,
{
    if i < s.len() {
        assert(t[j + 0] == s[i + 0]);
        assert(s[i] == t[j]);
        if is_space(s[i]) {
            assert forall|d: int| 0 <= d < s.len() - (i + 1) implies s[i + 1 + d] == #[trigger] t[j + 1 + d] by {
                assert(t[j + (d + 1)] == s[i + (d + 1)]);
            }
            lemma_tokenize_suffix(s, i + 1, t, j + 1);
        } else {
            lemma_word_end(s, i);
            lemma_word_end(s, i + 1);
            let we = word_end(s, i);
            assert(we == word_end(s, i + 1));
            assert(i + 1 <= we);
            assert forall|u: int| j <= u < j + (we - i) implies !is_space(#[trigger] t[u]) by {
                assert(t[j + (u - j)] == s[i + (u - j)]);
                assert(t[u] == t[j + (u - j)]);
                assert(!is_space(s[i + (u - j)]));
            }
            if we < s.len() {
                assert(t[j + (we - i)] == s[i + (we - i)]);
                assert(t[j + (we - i)] == s[we]);
            }
            lemma_word_end_agrees(t, j, j + (we - i));
            assert forall|u: int| 0 <= u < we - i implies s.subrange(i, we)[u] == t.subrange(
                j,
                j + (we - i),
            )[u] by {
                assert(t[j + u] == s[i + u]);
            }
            assert(s.subrange(i, we) =~= t.subrange(j, j + (we - i)));
            assert forall|d: int| 0 <= d < s.len() - we implies s[we + d] == #[trigger] t[j + (we
                - i) + d] by {
                assert(t[j + ((we - i) + d)] == s[i + ((we - i) + d)]);
            }
            lemma_tokenize_suffix(s, we, t, j + (we - i));
        }
    }
}

/// Tokenizing a word followed by text that is empty or starts with a space
/// yields the word, then the tokens of the rest.
proof fn lemma_tokenize_word(w: Seq<char>, rest: Seq<char>)
    requires
        token_shaped(w),
        rest.len() == 0 || rest[0] == ' ',
    ensures
        spec_tokenize(w + rest) == seq![w] + spec_tokenize(rest),
{
    let s = w + rest;
    assert(s[0] == w[0]);
    assert(!is_space(s[0]));
    assert forall|u: int| 0 <= u < w.len() implies !is_space(#[trigger] s[u]) by {
        assert(s[u] == w[u]);
    }
    if w.len() < s.len() {
        assert(s[w.len() as int] == rest[0]);
    }
    lemma_word_end_agrees(s, 0, w.len() as int);
    assert(s.subrange(0, w.len() as int) =~= w);
    lemma_tokenize_suffix(s, w.len() as int, rest, 0);
}

/// Tokenizing the space-joined text of token-shaped words yields exactly
/// those words.
pub proof fn lemma_tokenize_join(ts: Seq<Seq<char>>, k: int)
    requires
        0 <= k <= ts.len(),
        forall|j: int| 0 <= j < ts.len() ==> token_shaped(#[trigger] ts[j]),
    ensures
        spec_tokenize(join_from(ts, k)) == ts.subrange(k, ts.len() as int),
    decreases ts.len() - k,
{
    if k < ts.len() {
        lemma_tokenize_join(ts, k + 1);
        if k + 1 < ts.len() {
            let rest = seq![' '] + join_from(ts, k + 1);
            assert(join_from(ts, k) =~= ts[k] + rest);
            assert(rest[0] == ' ');
            lemma_tokenize_word(ts[k], rest);
            assert(is_space(rest[0]));
            assert(spec_tokenize(rest) == spec_tokenize_from(rest, 1));
            lemma_tokenize_suffix(rest, 1, join_from(ts, k + 1), 0);
            assert(seq![ts[k]] + ts.subrange(k + 1, ts.len() as int) =~= ts.subrange(
                k,
                ts.len() as int,
            ));
        } else {
            lemma_tokenize_word(ts[k], Seq::empty());
            assert(ts[k] + Seq::<char>::empty() =~= ts[k]);
            assert(join_from(ts, k) == ts[k]);
            assert(seq![ts[k]] + Seq::<Seq<char>>::empty() =~= ts.subrange(k, ts.len() as int));
            assert(spec_tokenize(Seq::<char>::empty()) == Seq::<Seq<char>>::empty());
        }
    } else {
        assert(ts.subrange(k, ts.len() as int) =~= Seq::<Seq<char>>::empty());
    }
}

/// Every token the tokenizer produces is a non-empty word with no space in
/// it.
pub proof fn lemma_tokenize_shaped(s: Seq<char>, i: int)
    requires
        0 <= i <= s.len(),
    ensures
        forall|j: int|
            0 <= j < spec_tokenize_from(s, i).len() ==> token_shaped(
                #[trigger] spec_tokenize_from(s, i)[j],
            ),
    decreases s.len() - i,
{
    if i < s.len() {
        if is_space(s[i]) {
            lemma_tokenize_shaped(s, i + 1);
            assert(spec_tokenize_from(s, i) == spec_tokenize_from(s, i + 1));
            assert forall|j: int| 0 <= j < spec_tokenize_from(s, i).len() implies token_shaped(
                #[trigger] spec_tokenize_from(s, i)[j],
            ) by {
                assert(spec_tokenize_from(s, i)[j] == spec_tokenize_from(s, i + 1)[j]);
            }
        } else {
            lemma_word_end(s, i);
            lemma_word_end(s, i + 1);
            let we = word_end(s, i);
            assert(i + 1 <= we);
            lemma_tokenize_shaped(s, we);
            let w = s.subrange(i, we);
            assert forall|u: int| 0 <= u < w.len() implies !is_space(#[trigger] w[u]) by {
                assert(w[u] == s[i + u]);
            }
            assert(token_shaped(w));
            assert forall|j: int| 0 <= j < spec_tokenize_from(s, i).len() implies token_shaped(
                #[trigger] spec_tokenize_from(s, i)[j],
            ) by {
                if j == 0 {
                    assert(spec_tokenize_from(s, i)[0] == w);
                } else {
                    assert(spec_tokenize_from(s, i)[j] == spec_tokenize_from(s, we)[j - 1]);
                }
            }
        }
    }
}

/// The literal tokens of a document are words the tokenizer preserves.
proof fn lemma_literals_shaped()
    ensures
        token_shaped(kw_query()),
        token_shaped(lbrace()),
        token_shaped(rbrace()),
{
    reveal_strlit("query");
    reveal_strlit("{");
    reveal_strlit("}");
}

/// Every canonical token of a selection with tokenizer-word names is a
/// tokenizer word.
proof fn lemma_sel_tokens_shaped(s: SelShape)
    requires
        shaped_sel(s),
    ensures
        forall|j: int|
            0 <= j < sel_tokens(s).len() ==> token_shaped(#[trigger] sel_tokens(s)[j]),
    decreases s, 0int,
{
    lemma_literals_shaped();
    match s {
        SelShape::Leaf(n) => {},
        SelShape::Node(n, cs) => {
            lemma_list_tokens_shaped(cs, 0);
            let body = list_tokens_from(cs, 0);
            assert forall|j: int| 0 <= j < sel_tokens(s).len() implies token_shaped(
                #[trigger] sel_tokens(s)[j],
            ) by {
                if j == 0 {
                    assert(sel_tokens(s)[0] == n);
                } else if j == 1 {
                    assert(sel_tokens(s)[1] == lbrace());
                } else if j < 2 + body.len() {
                    assert(sel_tokens(s)[j] == body[j - 2]);
                } else {
                    assert(sel_tokens(s)[j] == rbrace());
                }
            }
        },
    }
}

/// See `lemma_sel_tokens_shaped`.
proof fn lemma_list_tokens_shaped(cs: Seq<SelShape>, i: int)
    requires
        forall|t: int| 0 <= t < cs.len() ==> shaped_sel(#[trigger] cs[t]),
    ensures
        forall|j: int|
            0 <= j < list_tokens_from(cs, i).len() ==> token_shaped(
                #[trigger] list_tokens_from(cs, i)[j],
            ),
    decreases cs, 1int, cs.len() - i,
{
    if 0 <= i < cs.len() {
        lemma_sel_tokens_shaped(cs[i]);
        lemma_list_tokens_shaped(cs, i + 1);
        let head = sel_tokens(cs[i]);
        assert forall|j: int| 0 <= j < list_tokens_from(cs, i).len() implies token_shaped(
            #[trigger] list_tokens_from(cs, i)[j],
        ) by {
            if j < head.len() {
                assert(list_tokens_from(cs, i)[j] == head[j]);
            } else {
                assert(list_tokens_from(cs, i)[j] == list_tokens_from(cs, i + 1)[j - head.len()]);
            }
        }
    }
}

/// Every canonical token of a document over tokenizer-word names is a
/// tokenizer word.
pub proof fn lemma_doc_tokens_shaped(q: Seq<SelShape>)
    requires
        shaped_list(q),
    ensures
        forall|j: int|
            0 <= j < doc_tokens(q).len() ==> token_shaped(#[trigger] doc_tokens(q)[j]),
{
    lemma_literals_shaped();
    lemma_list_tokens_shaped(q, 0);
    let body = list_tokens_from(q, 0);
    assert forall|j: int| 0 <= j < doc_tokens(q).len() implies token_shaped(
        #[trigger] doc_tokens(q)[j],
    ) by {
        if j == 0 {
            assert(doc_tokens(q)[0] == kw_query());
        } else if j == 1 {
            assert(doc_tokens(q)[1] == lbrace());
        } else if j < 2 + body.len() {
            assert(doc_tokens(q)[j] == body[j - 2]);
        } else {
            assert(doc_tokens(q)[j] == rbrace());
        }
    }
}

/// Round trip: any selection set the parser accepts from some query text is
/// parsed back, structurally identical, from its own serialized query text.
pub proof fn lemma_round_trip(s: Seq<char>, q: Seq<SelShape>)
    requires
        crate::parser::spec_parse_doc(spec_tokenize(s)) == Ok::<_, ParseFault>(q),
    ensures
        crate::parser::spec_parse_doc(spec_tokenize(spec_query_text(q))) == Ok::<_, ParseFault>(
            q,
        ),
{
    let toks = spec_tokenize(s);
    lemma_parse_list_wf(toks, 2);
    lemma_tokenize_shaped(s, 0);
    assert(wf_list(q));
    assert(shaped_list(q));
    lemma_doc_tokens_shaped(q);
    lemma_tokenize_join(doc_tokens(q), 0);
    assert(doc_tokens(q).subrange(0, doc_tokens(q).len() as int) =~= doc_tokens(q));
    lemma_parse_canon_doc(q);
}


/// Appends the canonical tokens of one selection to `out`.
fn push_sel_tokens(f: &QueryField, out: &mut Vec<String>)
    ensures
        final(out).deep_view() == old(out).deep_view() + sel_tokens(f@),
    decreases *f, 0int,
{
    let ghost base = out.deep_view();
    match f {
        QueryField::Leaf(n) => {
            out.push(n.clone());
            proof {
                assert(out.deep_view() =~= base + sel_tokens(f@));
            }
        },
        QueryField::Node((n, cs)) => {
            let ghost csv = shapes_from(cs@, 0);
            out.push(n.clone());
            out.push(String::from_str("{"));
            proof {
                assert(out.deep_view() =~= base + seq![n@, lbrace()]);
            }
            push_list_tokens(cs, out);
            out.push(String::from_str("}"));
            proof {
                assert(out.deep_view() =~= (base + seq![n@, lbrace()] + list_tokens_from(csv, 0))
                    + seq![rbrace()]);
                assert(sel_tokens(f@) == seq![n@, lbrace()] + list_tokens_from(csv, 0) + seq![
                    rbrace(),
                ]);
                assert(out.deep_view() =~= base + sel_tokens(f@));
            }
        },
    }
}

/// Appends the canonical tokens of every selection of `fields`, in order.
fn push_list_tokens(fields: &Vec<QueryField>, out: &mut Vec<String>)
    ensures
        final(out).deep_view() == old(out).deep_view() + list_tokens_from(
            shapes_from(fields@, 0),
            0,
        ),
    decreases *fields, 1int,
{
    let ghost base = out.deep_view();
    let ghost csv = shapes_from(fields@, 0);
    proof {
        crate::parser::lemma_shapes_from(fields@, 0);
    }
    let m = fields.len();
    let mut k: usize = 0;
    while k < m
        invariant
            m == fields@.len(),
            k <= m,
            csv == shapes_from(fields@, 0),
            csv.len() == m,
            forall|t: int| 0 <= t < m ==> csv[t] == #[trigger] fields@[t]@,
            out.deep_view() + list_tokens_from(csv, k as int) == base + list_tokens_from(csv, 0),
        decreases m - k,
    {
        let ghost pre = out.deep_view();
        push_sel_tokens(&fields[k], out);
        proof {
            assert(list_tokens_from(csv, k as int) == sel_tokens(csv[k as int])
                + list_tokens_from(csv, k + 1));
            assert(pre + (sel_tokens(csv[k as int]) + list_tokens_from(csv, k + 1)) =~= (pre
                + sel_tokens(csv[k as int])) + list_tokens_from(csv, k + 1));
        }
        k = k + 1;
    }
    proof {
        assert(out.deep_view() + Seq::<Seq<char>>::empty() =~= out.deep_view());
    }
}

/// The tokens joined by single spaces.
fn join_tokens(toks: &Vec<String>) -> (r: String)
    ensures
        r@ == join_from(toks.deep_view(), 0),
{
    let ghost tv = toks.deep_view();
    let n = toks.len();
    let mut out = String::new();
    let mut k: usize = 0;
    proof {
        if n > 0 {
            assert(Seq::<char>::empty() + join_from(tv, 0) =~= join_from(tv, 0));
        }
    }
    while k < n
        invariant
            n == toks@.len(),
            tv == toks.deep_view(),
            tv.len() == n,
            k <= n,
            k < n ==> join_from(tv, 0) == out@ + join_from(tv, k as int),
            k == n ==> out@ == join_from(tv, 0),
        decreases n - k,
    {
        let ghost head = out@;
        out.append(toks[k].as_str());
        proof {
            assert(toks@[k as int]@ == tv[k as int]);
        }
        if k + 1 < n {
            proof {
                reveal_strlit(" ");
            }
            out.append(" ");
            proof {
                assert(" "@ =~= seq![' ']);
                assert(join_from(tv, k as int) == tv[k as int] + seq![' '] + join_from(
                    tv,
                    k + 1,
                ));
                assert(head + (tv[k as int] + seq![' '] + join_from(tv, k + 1)) =~= out@
                    + join_from(tv, k + 1));
            }
        } else {
            proof {
                assert(join_from(tv, k as int) == tv[k as int]);
            }
        }
        k = k + 1;
    }
    out
}

impl Query {
    /// The canonical whitespace tokens of this query: `query`, `{`, the
    /// tokens of its selections in order, and the closing `}`.
    pub fn to_query_tokens(&self) -> (r: Vec<String>)
        ensures
            r.deep_view() == doc_tokens(self@),
    {
        let mut out: Vec<String> = Vec::new();
        out.push(String::from_str("query"));
        out.push(String::from_str("{"));
        proof {
            assert(out.deep_view() =~= Seq::<Seq<char>>::empty() + seq![kw_query(), lbrace()]);
            assert(Seq::<Seq<char>>::empty() + seq![kw_query(), lbrace()] =~= seq![
                kw_query(),
                lbrace(),
            ]);
        }
        push_list_tokens(&self.0, &mut out);
        out.push(String::from_str("}"));
        proof {
            assert(out.deep_view() =~= (seq![kw_query(), lbrace()] + list_tokens_from(
                shapes_from(self.0@, 0),
                0,
            )) + seq![rbrace()]);
            assert(out.deep_view() =~= doc_tokens(self@));
        }
        out
    }

    /// Serializes this query back to query text: its canonical tokens joined
    /// by single spaces.  Parsing this text again yields a structurally
    /// identical query (`lemma_round_trip`).
    pub fn to_query_string(&self) -> (r: String)
        ensures
            r@ == spec_query_text(self@),
    {
        let toks = self.to_query_tokens();
        join_tokens(&toks)
    }
}

} // verus!
