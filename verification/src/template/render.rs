//! The renderer: a pure walk of a (possibly merged) tree against a runtime
//! context, concatenating the rendering of each node in document order.
use vstd::prelude::*;
use crate::template::blocks::{collect_blocks_sp, lemma_self_merge_is_identity, merge_sp};
use crate::template::node::{lemma_nodes_view_len, node_view, nodes_view, Node, NodeView};
use crate::template::text::{lemma_split_acc_nonempty, spec_split, split_str};
use crate::template::value::{
    copy_context, copy_value, lemma_values_view_len, val_text, value_view, Context, TemplateValue,
    Val,
};

verus! {

/// The value reached from `cur` by the remaining path segments: each further
/// segment requires the value at hand to be an object binding that segment;
/// anything else resolves to nothing.
pub open spec fn descend_sp(cur: Option<Val>, segs: Seq<Seq<char>>) -> Option<Val>
    decreases segs.len(),
{
    if segs.len() == 0 {
        cur
    } else {
        match cur {
            Some(v) => match v {
                Val::ObjV(m) => descend_sp(
                    if m.contains_key(segs[0]) {
                        Some(m[segs[0]])
                    } else {
                        None
                    },
                    segs.drop_first(),
                ),
                _ => None,
            },
            None => None,
        }
    }
}

/// The value of a dotted path in the context: the first segment is looked up
/// in the context, each further segment in the object at hand.
pub open spec fn resolve_sp(ctx: Map<Seq<char>, Val>, path: Seq<char>) -> Option<Val> {
    let segs = spec_split(path, '.');
    descend_sp(
        if ctx.contains_key(segs[0]) {
            Some(ctx[segs[0]])
        } else {
            None
        },
        segs.drop_first(),
    )
}

/// The view of an optional borrowed value.
pub open spec fn opt_value_view(r: Option<&TemplateValue>) -> Option<Val> {
    match r {
        Some(v) => Some(value_view(*v)),
        None => None,
    }
}

/// Resolves a dotted variable path such as `a.b.c` within the context.
pub fn resolve_variable<'a>(name: &str, context: &'a Context) -> (r: Option<&'a TemplateValue>)
    ensures
        opt_value_view(r) == resolve_sp(context@, name@),
{
    let ghost segs = spec_split(name@, '.');
    proof {
        lemma_split_acc_nonempty(Seq::empty(), name@, '.');
    }
    let parts = split_str(name, '.');
    proof {
        assert(parts.deep_view() == segs);
        assert(parts@.len() == segs.len());
        assert(parts.deep_view()[0] == parts@[0]@);
    }
    let n = parts.len();
    let mut cur: Option<&TemplateValue> = context.get(parts[0].as_str());
    let mut k: usize = 1;
    while k < n
        invariant
            1 <= k <= n,
            n == parts@.len(),
            n == segs.len(),
            parts.deep_view() == segs,
            resolve_sp(context@, name@) == descend_sp(opt_value_view(cur), segs.skip(k as int)),
        decreases n - k,
    {
        proof {
            assert(segs.skip(k as int)[0] == segs[k as int]);
            assert(segs.skip(k as int).drop_first() =~= segs.skip(k + 1));
            assert(parts.deep_view()[k as int] == parts@[k as int]@);
        }
        match cur {
            Some(v) => {
                match v {
                    TemplateValue::Object(map) => {
                        cur = map.get(parts[k].as_str());
                    },
                    _ => {
                        return None;
                    },
                }
            },
            None => {
                return None;
            },
        }
        k = k + 1;
    }
    proof {
        assert(segs.skip(n as int) =~= Seq::<Seq<char>>::empty());
    }
    cur
}

/// The fixed script tag that a `tailwind` directive emits.
pub open spec fn tailwind_text() -> Seq<char> {
    "<script src=\"https://cdn.tailwindcss.com\"></script>"@
}

/// The rendering of a node sequence: the concatenation of its nodes'
/// renderings in order.
pub open spec fn render_sp(ns: Seq<NodeView>, ctx: Map<Seq<char>, Val>) -> Seq<char>
    decreases ns, 0int, 0int,
{
    if ns.len() == 0 {
        Seq::empty()
    } else {
        render_node_sp(ns[0], ctx) + render_sp(ns.drop_first(), ctx)
    }
}

/// The rendering of one node: text verbatim; a variable's resolved textual
/// form, or nothing; an `If` renders its then-body exactly when the condition
/// resolves to the boolean true, its else-body otherwise; a `For` over a
/// resolved list renders its body once per element with the loop variable
/// bound to it, and nothing for a non-list; a block renders its body against
/// the unchanged context; `Extends` renders to nothing; `tailwind` emits its
/// fixed script tag whatever the context holds.
pub open spec fn render_node_sp(n: NodeView, ctx: Map<Seq<char>, Val>) -> Seq<char>
    decreases n, 1int, 0int,
{
    match n {
        NodeView::Text(t) => t,
        NodeView::Variable(p) => match resolve_sp(ctx, p) {
            Some(v) => val_text(v),
            None => Seq::empty(),
        },
        NodeView::If { condition, then_body, else_body } => if resolve_sp(ctx, condition) == Some(
            Val::BoolV(true),
        ) {
            render_sp(then_body, ctx)
        } else {
            render_sp(else_body, ctx)
        },
        NodeView::For { var_name, list_name, body } => match resolve_sp(ctx, list_name) {
            Some(v) => match v {
                Val::ListV(items) => render_items_sp(body, var_name, items, ctx),
                _ => Seq::empty(),
            },
            None => Seq::empty(),
        },
        NodeView::Block { name, body } => render_sp(body, ctx),
        NodeView::Extends(_) => Seq::empty(),
        NodeView::Tailwind => tailwind_text(),
    }
}

/// The rendering of a loop body once per element, each time against the
/// context extended with the loop variable bound to that element.
pub open spec fn render_items_sp(
    body: Seq<NodeView>,
    var: Seq<char>,
    items: Seq<Val>,
    ctx: Map<Seq<char>, Val>,
) -> Seq<char>
    decreases body, 2int, items.len(),
{
    if items.len() == 0 {
        Seq::empty()
    } else {
        render_sp(body, ctx.insert(var, items[0])) + render_items_sp(
            body,
            var,
            items.drop_first(),
            ctx,
        )
    }
}

/// Renders the AST into an output string using the context.
#[verifier::loop_isolation(false)]
pub fn render_nodes(nodes: &Vec<Node>, context: &Context) -> (r: String)
    ensures
        r@ == render_sp(nodes_view(nodes@), context@),
    decreases nodes@,
{
    broadcast use lemma_nodes_view_len;

    let ghost nsv = nodes_view(nodes@);
    let ghost ctx = context@;
    let mut out = String::new();
    let n = nodes.len();
    proof {
        assert(nsv.skip(0) =~= nsv);
        assert(out@ + render_sp(nsv, ctx) =~= render_sp(nsv, ctx));
    }
    let mut i: usize = 0;
    while i < n
        invariant
            0 <= i <= n,
            out@ + render_sp(nsv.skip(i as int), ctx) == render_sp(nsv, ctx),
        decreases n - i,
    {
        let ghost o0 = out@;
        proof {
            assert(decreases_to!(nodes@ => nodes@[i as int]));
            assert(nsv.skip(i as int)[0] == nsv[i as int]);
            assert(nsv.skip(i as int).drop_first() =~= nsv.skip(i + 1));
            assert(nsv[i as int] == node_view(nodes@[i as int]));
        }
        match &nodes[i] {
            Node::Text(t) => {
                out.append(t.as_str());
            },
            Node::Variable(name) => {
                match resolve_variable(name.as_str(), context) {
                    Some(v) => {
                        let s = v.as_string();
                        out.append(s.as_str());
                    },
                    None => {},
                }
            },
            Node::If { condition, then_body, else_body } => {
                let mut take_then = false;
                match resolve_variable(condition.as_str(), context) {
                    Some(v) => {
                        match v {
                            TemplateValue::Bool(b) => {
                                take_then = *b;
                            },
                            _ => {},
                        }
                    },
                    None => {},
                }
                proof {
                    assert(take_then == (resolve_sp(ctx, condition@) == Some(Val::BoolV(true))));
                }
                if take_then {
                    let piece = render_nodes(then_body, context);
                    out.append(piece.as_str());
                } else {
                    let piece = render_nodes(else_body, context);
                    out.append(piece.as_str());
                }
            },
            Node::For { var_name, list_name, body } => {
                match resolve_variable(list_name.as_str(), context) {
                    Some(v) => {
                        match v {
                            TemplateValue::List(items) => {
                                let ghost bv = nodes_view(body@);
                                let ghost varv = var_name@;
                                let ghost itemsv = crate::template::value::values_view(items@);
                                proof {
                                    lemma_values_view_len(items@);
                                    assert(itemsv.skip(0) =~= itemsv);
                                    assert(o0 + (render_items_sp(bv, varv, itemsv, ctx)
                                        + render_sp(nsv.skip(i + 1), ctx)) =~= (o0
                                        + render_items_sp(bv, varv, itemsv, ctx)) + render_sp(
                                        nsv.skip(i + 1),
                                        ctx,
                                    ));
                                }
                                let m = items.len();
                                let mut k: usize = 0;
                                while k < m
                                    invariant
                                        0 <= k <= m,
                                        o0 + render_items_sp(bv, varv, itemsv, ctx) == out@
                                            + render_items_sp(bv, varv, itemsv.skip(k as int), ctx),
                                    decreases m - k,
                                {
                                    proof {
                                        assert(itemsv.skip(k as int)[0] == itemsv[k as int]);
                                        assert(itemsv.skip(k as int).drop_first() =~= itemsv.skip(
                                            k + 1,
                                        ));
                                        assert(itemsv[k as int] == value_view(items@[k as int]));
                                    }
                                    let mut local = copy_context(context);
                                    local.insert(var_name.clone(), copy_value(&items[k]));
                                    let piece = render_nodes(body, &local);
                                    out.append(piece.as_str());
                                    k = k + 1;
                                }
                                proof {
                                    assert(itemsv.skip(m as int) =~= Seq::<Val>::empty());
                                    assert(render_items_sp(bv, varv, Seq::<Val>::empty(), ctx)
                                        == Seq::<char>::empty());
                                    assert(out@ + Seq::<char>::empty() =~= out@);
                                }
                            },
                            _ => {},
                        }
                    },
                    None => {},
                }
            },
            Node::Block { name, body } => {
                let piece = render_nodes(body, context);
                out.append(piece.as_str());
            },
            Node::Extends(_) => {},
            Node::Tailwind => {
                out.append("<script src=\"https://cdn.tailwindcss.com\"></script>");
            },
        }
        proof {
            assert(out@ == o0 + render_node_sp(nsv[i as int], ctx));
            assert(o0 + (render_node_sp(nsv[i as int], ctx) + render_sp(nsv.skip(i + 1), ctx)) =~= (
            o0 + render_node_sp(nsv[i as int], ctx)) + render_sp(nsv.skip(i + 1), ctx));
        }
        i = i + 1;
    }
    proof {
        assert(nsv.skip(n as int) =~= Seq::<NodeView>::empty());
        assert(render_sp(Seq::<NodeView>::empty(), ctx) == Seq::<char>::empty());
        assert(out@ + Seq::<char>::empty() =~= out@);
    }
    out
}

/// A `tailwind` directive always emits the fixed script tag, whatever the
/// context holds.
pub proof fn lemma_tailwind_always_fixed(ctx: Map<Seq<char>, Val>)
    ensures
        render_sp(seq![NodeView::Tailwind], ctx) == tailwind_text(),
{
    let ns = seq![NodeView::Tailwind];
    assert(ns[0] == NodeView::Tailwind);
    assert(render_node_sp(ns[0], ctx) == tailwind_text());
    assert(ns.drop_first() =~= Seq::<NodeView>::empty());
    assert(render_sp(Seq::<NodeView>::empty(), ctx) == Seq::<char>::empty());
    assert(tailwind_text() + Seq::<char>::empty() =~= tailwind_text());
}

/// Self-merge is a no-op: a child tree with no `Extends` and no top-level
/// `Block` renders identically whether or not the merge against its own
/// collected block mapping runs.
pub proof fn lemma_self_merge_renders_identically(ns: Seq<NodeView>, ctx: Map<Seq<char>, Val>)
    requires
        forall|i: int|
            0 <= i < ns.len() ==> !((#[trigger] ns[i]) is Block) && !(ns[i] is Extends),
    ensures
        render_sp(merge_sp(ns, collect_blocks_sp(ns)), ctx) == render_sp(ns, ctx),
{
    lemma_self_merge_is_identity(ns);
}

} // verus!
