//! The parser: a recursive descent over the token list with a forward cursor
//! and a set of terminator tags that end the current construct without being
//! consumed.
//!
//! A presumed closing tag (`endblock`, `endif`, `endfor`) is skipped only
//! while the cursor is inside the token list: at end of input the skip is a
//! no-op, so a missing closer simply ends the construct there.
use vstd::prelude::*;
use crate::template::node::{lemma_nodes_view_push, node_view, nodes_view, Node, NodeView};
use crate::template::text::{
    is_prefix_of, spec_split_ws, spec_trim, spec_trim_char, split_ws_str, skip_chars,
    starts_with_str, str_eq, trim_char, trim_str,
};
use crate::template::token::{token_view, Token, TokenView};

verus! {

/// Whether some terminator equals the trimmed tag content.
pub open spec fn seq_contains_str(ends: Seq<Seq<char>>, t: Seq<char>) -> bool {
    exists|k: int| 0 <= k < ends.len() && ends[k] == t
}

fn contains_str(ends: &Vec<&str>, t: &str) -> (r: bool)
    ensures
        r == seq_contains_str(ends.deep_view(), t@),
{
    let n = ends.len();
    let mut k: usize = 0;
    while k < n
        invariant
            n == ends@.len(),
            0 <= k <= n,
            forall|m: int| 0 <= m < k ==> ends.deep_view()[m] != t@,
        decreases n - k,
    {
        if str_eq(ends[k], t) {
            assert(ends.deep_view()[k as int] == t@);
            return true;
        }
        k = k + 1;
    }
    false
}

/// How many tokens remain before the cursor leaves the list.
pub open spec fn toks_left(len: int, i: int) -> int {
    if i <= len {
        len - i
    } else {
        0
    }
}

/// The cursor after skipping the presumed closing tag: one step inside the
/// list, unchanged at or past its end.
pub open spec fn skip_closer(len: int, j: int) -> int {
    if 0 <= j < len {
        j + 1
    } else {
        j
    }
}

/// A next cursor that is sure to lie past `i`.
pub open spec fn adv(i: int, k: int) -> int {
    if k > i {
        k
    } else {
        i + 1
    }
}

/// A node put in front of a partial parse.
pub open spec fn step_cons(n: NodeView, rest: (Seq<NodeView>, int)) -> (Seq<NodeView>, int) {
    (seq![n] + rest.0, rest.1)
}

/// A well-formed loop header: after `for `, exactly three
/// whitespace-separated words with `in` in the middle.
pub open spec fn for_parts_ok(t: Seq<char>) -> bool {
    let parts = spec_split_ws(t.skip("for "@.len() as int));
    parts.len() == 3 && parts[1] == "in"@
}

/// The nodes parsed from the cursor `i` until end of input or a terminator,
/// paired with the cursor where parsing stopped. Text and variable tokens map
/// one to one onto leaves; tag tokens follow the rules of `parse_tag_sp`.
pub open spec fn parse_sp(toks: Seq<TokenView>, i: int, ends: Seq<Seq<char>>) -> (
    Seq<NodeView>,
    int,
)
    decreases toks_left(toks.len() as int, i), 1int,
{
    if i < 0 || i >= toks.len() {
        (Seq::empty(), i)
    } else {
        match toks[i] {
            TokenView::Text(t) => step_cons(NodeView::Text(t), parse_sp(toks, i + 1, ends)),
            TokenView::Variable(v) => step_cons(NodeView::Variable(v), parse_sp(toks, i + 1, ends)),
            TokenView::Tag(tag) => parse_tag_sp(toks, i, ends, spec_trim(tag)),
        }
    }
}

/// The tag rules of the parser; `t` is the trimmed content of the tag token
/// at the cursor `i`. Matched in order: a terminator stops without consuming;
/// `extends`, `block`, `if`/`else`/`endif`, a well-formed `for` and
/// `tailwind` build their nodes; any other tag is dropped silently.
pub open spec fn parse_tag_sp(toks: Seq<TokenView>, i: int, ends: Seq<Seq<char>>, t: Seq<char>) -> (
    Seq<NodeView>,
    int,
)
    decreases toks_left(toks.len() as int, i), 0int,
{
    if i < 0 || i >= toks.len() {
        (Seq::empty(), i)
    } else if seq_contains_str(ends, t) {
        (Seq::empty(), i)
    } else if is_prefix_of("extends "@, t) {
        let name = spec_trim_char(t.skip("extends "@.len() as int), '"');
        step_cons(NodeView::Extends(name), parse_sp(toks, i + 1, ends))
    } else if is_prefix_of("block "@, t) {
        let name = t.skip("block "@.len() as int);
        let body = parse_sp(toks, i + 1, seq!["endblock"@]);
        let k = skip_closer(toks.len() as int, body.1);
        step_cons(NodeView::Block { name, body: body.0 }, parse_sp(toks, adv(i, k), ends))
    } else if is_prefix_of("if "@, t) {
        let cond = t.skip("if "@.len() as int);
        let tb = parse_sp(toks, i + 1, seq!["else"@, "endif"@]);
        let j = tb.1;
        if 0 <= j < toks.len() && (toks[j] matches TokenView::Tag(tt) && spec_trim(tt) == "else"@) {
            let eb = parse_sp(toks, adv(i, j + 1), seq!["endif"@]);
            let k = skip_closer(toks.len() as int, eb.1);
            step_cons(
                NodeView::If { condition: cond, then_body: tb.0, else_body: eb.0 },
                parse_sp(toks, adv(i, k), ends),
            )
        } else {
            let k = skip_closer(toks.len() as int, j);
            step_cons(
                NodeView::If { condition: cond, then_body: tb.0, else_body: Seq::empty() },
                parse_sp(toks, adv(i, k), ends),
            )
        }
    } else if is_prefix_of("for "@, t) && for_parts_ok(t) {
        let parts = spec_split_ws(t.skip("for "@.len() as int));
        let body = parse_sp(toks, i + 1, seq!["endfor"@]);
        let k = skip_closer(toks.len() as int, body.1);
        step_cons(
            NodeView::For { var_name: parts[0], list_name: parts[2], body: body.0 },
            parse_sp(toks, adv(i, k), ends),
        )
    } else if t == "tailwind"@ {
        step_cons(NodeView::Tailwind, parse_sp(toks, i + 1, ends))
    } else {
        parse_sp(toks, i + 1, ends)
    }
}

/// One accumulator step of the parsing loop: consuming the next construct
/// moves its node from the pending part into the finished part.
proof fn lemma_push_step(
    toks: Seq<TokenView>,
    i0: int,
    i: int,
    ends: Seq<Seq<char>>,
    ns0: Seq<Node>,
    after: Seq<Node>,
    nv: NodeView,
    k: int,
)
    requires
        after.len() == ns0.len() + 1,
        after.drop_last() == ns0,
        node_view(after.last()) == nv,
        parse_sp(toks, i0, ends).0 == nodes_view(ns0) + parse_sp(toks, i, ends).0,
        parse_sp(toks, i0, ends).1 == parse_sp(toks, i, ends).1,
        parse_sp(toks, i, ends) == step_cons(nv, parse_sp(toks, k, ends)),
    ensures
        parse_sp(toks, i0, ends).0 == nodes_view(after) + parse_sp(toks, k, ends).0,
        parse_sp(toks, i0, ends).1 == parse_sp(toks, k, ends).1,
{
    assert(after =~= ns0.push(after.last()));
    lemma_nodes_view_push(ns0, after.last());
    assert(nodes_view(ns0) + (seq![nv] + parse_sp(toks, k, ends).0) =~= nodes_view(ns0).push(nv)
        + parse_sp(toks, k, ends).0);
}

/// Parses a sequence of tokens into an AST of nodes.
pub fn parse_tokens(tokens: &Vec<Token>) -> (nodes: Vec<Node>)
    ensures
        nodes_view(nodes@) == parse_sp(tokens.deep_view(), 0, Seq::empty()).0,
{
    let mut idx: usize = 0;
    let ends: Vec<&str> = Vec::new();
    proof {
        assert(ends.deep_view() =~= Seq::<Seq<char>>::empty());
    }
    parse_nodes(tokens, &mut idx, &ends)
}

/// Recursive parser: consumes tokens until end of input or a terminator tag.
fn parse_nodes(tokens: &Vec<Token>, idx: &mut usize, end_tags: &Vec<&str>) -> (nodes: Vec<Node>)
    requires
        *old(idx) <= tokens@.len(),
    ensures
        nodes_view(nodes@) == parse_sp(tokens.deep_view(), *old(idx) as int, end_tags.deep_view()).0,
        *final(idx) as int == parse_sp(
            tokens.deep_view(),
            *old(idx) as int,
            end_tags.deep_view(),
        ).1,
        *old(idx) <= *final(idx) <= tokens@.len(),
    decreases tokens@.len() - *old(idx),
{
    let ghost toks = tokens.deep_view();
    let ghost ends = end_tags.deep_view();
    let ghost i0 = *idx as int;
    let mut nodes: Vec<Node> = Vec::new();
    proof {
        assert(nodes_view(nodes@) =~= Seq::<NodeView>::empty());
        assert(Seq::<NodeView>::empty() + parse_sp(toks, i0, ends).0 =~= parse_sp(toks, i0, ends).0);
    }
    loop
        invariant_except_break
            i0 <= *idx as int <= tokens@.len(),
            parse_sp(toks, i0, ends).0 == nodes_view(nodes@) + parse_sp(toks, *idx as int, ends).0,
            parse_sp(toks, i0, ends).1 == parse_sp(toks, *idx as int, ends).1,
        invariant
            toks == tokens.deep_view(),
            ends == end_tags.deep_view(),
            *old(idx) <= *idx,
        ensures
            i0 <= *idx as int <= tokens@.len(),
            nodes_view(nodes@) == parse_sp(toks, i0, ends).0,
            *idx as int == parse_sp(toks, i0, ends).1,
        decreases tokens@.len() - *idx,
    {
        let ghost i = *idx as int;
        if *idx >= tokens.len() {
            proof {
                assert(parse_sp(toks, i, ends) == (Seq::<NodeView>::empty(), i));
                assert(nodes_view(nodes@) + Seq::<NodeView>::empty() =~= nodes_view(nodes@));
            }
            break ;
        }
        proof {
            assert(toks[i] == token_view(tokens@[i]));
        }
        let cur = *idx;
        match &tokens[cur] {
            Token::Text(txt) => {
                let ghost nv = NodeView::Text(txt@);
                let ghost ns0 = nodes@;
                nodes.push(Node::Text(txt.clone()));
                *idx = *idx + 1;
                proof {
                    assert(nodes@.drop_last() =~= ns0);
                    lemma_push_step(toks, i0, i, ends, ns0, nodes@, nv, i + 1);
                }
            },
            Token::Variable(v) => {
                let ghost nv = NodeView::Variable(v@);
                let ghost ns0 = nodes@;
                nodes.push(Node::Variable(v.clone()));
                *idx = *idx + 1;
                proof {
                    assert(nodes@.drop_last() =~= ns0);
                    lemma_push_step(toks, i0, i, ends, ns0, nodes@, nv, i + 1);
                }
            },
            Token::Tag(tag) => {
                let t = trim_str(tag.as_str());
                let ghost tv = t@;
                proof {
                    assert(tokens@[i] matches Token::Tag(tg) && tg@ == tag@);
                    assert(toks[i] == TokenView::Tag(tag@));
                    assert(parse_sp(toks, i, ends) == parse_tag_sp(toks, i, ends, tv));
                }
                if contains_str(end_tags, t) {
                    proof {
                        assert(parse_sp(toks, i, ends) == (Seq::<NodeView>::empty(), i));
                        assert(nodes_view(nodes@) + Seq::<NodeView>::empty() =~= nodes_view(
                            nodes@,
                        ));
                    }
                    break ;
                }
                if starts_with_str(t, "extends ") {
                    let rest = skip_chars(t, "extends ".unicode_len());
                    let name = trim_char(rest, '"');
                    let ghost nv = NodeView::Extends(name@);
                    let ghost ns0 = nodes@;
                    nodes.push(Node::Extends(name.to_owned()));
                    *idx = *idx + 1;
                    proof {
                        assert(nodes@.drop_last() =~= ns0);
                        lemma_push_step(toks, i0, i, ends, ns0, nodes@, nv, i + 1);
                    }
                } else if starts_with_str(t, "block ") {
                    let name = skip_chars(t, "block ".unicode_len()).to_owned();
                    *idx = *idx + 1;
                    let mut inner: Vec<&str> = Vec::new();
                    inner.push("endblock");
                    proof {
                        assert(inner.deep_view() =~= seq!["endblock"@]);
                    }
                    let body = parse_nodes(tokens, idx, &inner);
                    let ghost j = *idx as int;
                    if *idx < tokens.len() {
                        *idx = *idx + 1;
                    }
                    let ghost k = *idx as int;
                    let ghost nv = NodeView::Block { name: name@, body: nodes_view(body@) };
                    let ghost ns0 = nodes@;
                    nodes.push(Node::Block { name, body });
                    proof {
                        assert(k == skip_closer(toks.len() as int, j));
                        assert(adv(i, k) == k);
                        assert(nodes@.drop_last() =~= ns0);
                        lemma_push_step(toks, i0, i, ends, ns0, nodes@, nv, k);
                    }
                } else if starts_with_str(t, "if ") {
                    let cond = skip_chars(t, "if ".unicode_len()).to_owned();
                    *idx = *idx + 1;
                    let mut inner: Vec<&str> = Vec::new();
                    inner.push("else");
                    inner.push("endif");
                    proof {
                        assert(inner.deep_view() =~= seq!["else"@, "endif"@]);
                    }
                    let then_body = parse_nodes(tokens, idx, &inner);
                    let ghost j = *idx as int;
                    let mut has_else = false;
                    if *idx < tokens.len() {
                        proof {
                            assert(toks[j] == token_view(tokens@[j]));
                        }
                        match &tokens[*idx] {
                            Token::Tag(tt) => {
                                if str_eq(trim_str(tt.as_str()), "else") {
                                    has_else = true;
                                }
                            },
                            _ => {},
                        }
                    }
                    proof {
                        assert(has_else == (0 <= j < toks.len() && (toks[j]
                            matches TokenView::Tag(tt) && spec_trim(tt) == "else"@)));
                    }
                    let mut else_body: Vec<Node> = Vec::new();
                    if has_else {
                        *idx = *idx + 1;
                        let mut inner2: Vec<&str> = Vec::new();
                        inner2.push("endif");
                        proof {
                            assert(inner2.deep_view() =~= seq!["endif"@]);
                            assert(adv(i, j + 1) == j + 1);
                        }
                        else_body = parse_nodes(tokens, idx, &inner2);
                    } else {
                        proof {
                            assert(nodes_view(else_body@) =~= Seq::<NodeView>::empty());
                        }
                    }
                    let ghost j2 = *idx as int;
                    if *idx < tokens.len() {
                        *idx = *idx + 1;
                    }
                    let ghost k = *idx as int;
                    let ghost nv = NodeView::If {
                        condition: cond@,
                        then_body: nodes_view(then_body@),
                        else_body: nodes_view(else_body@),
                    };
                    let ghost ns0 = nodes@;
                    nodes.push(Node::If { condition: cond, then_body, else_body });
                    proof {
                        assert(k == skip_closer(toks.len() as int, j2));
                        assert(adv(i, k) == k);
                        assert(nodes@.drop_last() =~= ns0);
                        lemma_push_step(toks, i0, i, ends, ns0, nodes@, nv, k);
                    }
                } else if starts_with_str(t, "for ") {
                    let rest = skip_chars(t, "for ".unicode_len());
                    let parts = split_ws_str(rest);
                    if parts.len() == 3 && str_eq(parts[1].as_str(), "in") {
                        proof {
                            assert(parts.deep_view()[1] == parts@[1]@);
                            assert(for_parts_ok(tv));
                        }
                        let var_name = parts[0].clone();
                        let list_name = parts[2].clone();
                        *idx = *idx + 1;
                        let mut inner: Vec<&str> = Vec::new();
                        inner.push("endfor");
                        proof {
                            assert(inner.deep_view() =~= seq!["endfor"@]);
                        }
                        let body = parse_nodes(tokens, idx, &inner);
                        let ghost j = *idx as int;
                        if *idx < tokens.len() {
                            *idx = *idx + 1;
                        }
                        let ghost k = *idx as int;
                        let ghost nv = NodeView::For {
                            var_name: var_name@,
                            list_name: list_name@,
                            body: nodes_view(body@),
                        };
                        let ghost ns0 = nodes@;
                        proof {
                            assert(parts.deep_view()[0] == parts@[0]@);
                            assert(parts.deep_view()[2] == parts@[2]@);
                        }
                        nodes.push(Node::For { var_name, list_name, body });
                        proof {
                            assert(k == skip_closer(toks.len() as int, j));
                            assert(adv(i, k) == k);
                            assert(nodes@.drop_last() =~= ns0);
                            lemma_push_step(toks, i0, i, ends, ns0, nodes@, nv, k);
                        }
                    } else {
                        proof {
                            assert(parts.deep_view().len() == parts@.len());
                            if parts.len() == 3 {
                                assert(parts.deep_view()[1] == parts@[1]@);
                            }
                            assert(!for_parts_ok(tv));
                            reveal_strlit("for ");
                            reveal_strlit("tailwind");
                            assert(tv.subrange(0, 4)[0] == tv[0]);
                            assert(tv != "tailwind"@);
                        }
                        *idx = *idx + 1;
                    }
                } else if str_eq(t, "tailwind") {
                    let ghost nv = NodeView::Tailwind;
                    let ghost ns0 = nodes@;
                    nodes.push(Node::Tailwind);
                    *idx = *idx + 1;
                    proof {
                        assert(nodes@.drop_last() =~= ns0);
                        lemma_push_step(toks, i0, i, ends, ns0, nodes@, nv, i + 1);
                    }
                } else {
                    // Unknown tag: dropped without a node.
                    *idx = *idx + 1;
                }
            },
        }
    }
    nodes
}

} // verus!
