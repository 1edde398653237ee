//! AST node types for the template engine, with their mathematical views.
use vstd::prelude::*;

verus! {

/// AST node types for the template engine.
#[derive(Debug)]
pub enum Node {
    Text(String),
    Variable(String),
    If { condition: String, then_body: Vec<Node>, else_body: Vec<Node> },
    For { var_name: String, list_name: String, body: Vec<Node> },
    Block { name: String, body: Vec<Node> },
    Extends(String),
    Tailwind,
}

/// Mathematical view of a node: the same tree over character sequences.
pub enum NodeView {
    Text(Seq<char>),
    Variable(Seq<char>),
    If { condition: Seq<char>, then_body: Seq<NodeView>, else_body: Seq<NodeView> },
    For { var_name: Seq<char>, list_name: Seq<char>, body: Seq<NodeView> },
    Block { name: Seq<char>, body: Seq<NodeView> },
    Extends(Seq<char>),
    Tailwind,
}

pub open spec fn node_view(n: Node) -> NodeView
    decreases n, 1int,
{
    match n {
        Node::Text(t) => NodeView::Text(t@),
        Node::Variable(v) => NodeView::Variable(v@),
        Node::If { condition, then_body, else_body } => NodeView::If {
            condition: condition@,
            then_body: nodes_view(then_body@),
            else_body: nodes_view(else_body@),
        },
        Node::For { var_name, list_name, body } => NodeView::For {
            var_name: var_name@,
            list_name: list_name@,
            body: nodes_view(body@),
        },
        Node::Block { name, body } => NodeView::Block { name: name@, body: nodes_view(body@) },
        Node::Extends(b) => NodeView::Extends(b@),
        Node::Tailwind => NodeView::Tailwind,
    }
}

pub open spec fn nodes_view(ns: Seq<Node>) -> Seq<NodeView>
    decreases ns, 0int,
{
    if ns.len() == 0 {
        Seq::empty()
    } else {
        seq![node_view(ns[0])] + nodes_view(ns.drop_first())
    }
}

impl View for Node {
    type V = NodeView;

    open spec fn view(&self) -> NodeView {
        node_view(*self)
    }
}

pub broadcast proof fn lemma_nodes_view_len(ns: Seq<Node>)
    ensures
        (#[trigger] nodes_view(ns)).len() == ns.len(),
        forall|i: int| 0 <= i < ns.len() ==> nodes_view(ns)[i] == node_view(ns[i]),
    decreases ns,
{
    if ns.len() > 0 {
        lemma_nodes_view_len(ns.drop_first());
    }
}

pub proof fn lemma_nodes_view_push(ns: Seq<Node>, n: Node)
    ensures
        nodes_view(ns.push(n)) == nodes_view(ns).push(node_view(n)),
{
    broadcast use lemma_nodes_view_len;

    assert(nodes_view(ns.push(n)) =~= nodes_view(ns).push(node_view(n)));
}

/// Sequences of nodes equal element by element up to views have the same
/// sequence view.
pub proof fn lemma_nodes_view_congruent(a: Seq<Node>, b: Seq<Node>)
    requires
        a.len() == b.len(),
        forall|j: int| 0 <= j < a.len() ==> node_view(#[trigger] a[j]) == node_view(b[j]),
    ensures
        nodes_view(a) == nodes_view(b),
{
    broadcast use lemma_nodes_view_len;

    assert(nodes_view(a) =~= nodes_view(b));
}

/// A deep copy of a node, equal under the view.
#[verifier::loop_isolation(false)]
pub fn copy_node(n: &Node) -> (r: Node)
    ensures
        r@ == n@,
    decreases n, 1int,
{
    match n {
        Node::Text(t) => Node::Text(t.clone()),
        Node::Variable(v) => Node::Variable(v.clone()),
        Node::If { condition, then_body, else_body } => Node::If {
            condition: condition.clone(),
            then_body: copy_nodes(then_body),
            else_body: copy_nodes(else_body),
        },
        Node::For { var_name, list_name, body } => Node::For {
            var_name: var_name.clone(),
            list_name: list_name.clone(),
            body: copy_nodes(body),
        },
        Node::Block { name, body } => Node::Block { name: name.clone(), body: copy_nodes(body) },
        Node::Extends(b) => Node::Extends(b.clone()),
        Node::Tailwind => Node::Tailwind,
    }
}

/// A deep copy of a node list, equal under the view.
#[verifier::loop_isolation(false)]
pub fn copy_nodes(ns: &Vec<Node>) -> (r: Vec<Node>)
    ensures
        nodes_view(r@) == nodes_view(ns@),
        r@.len() == ns@.len(),
    decreases ns@, 0int,
{
    let n = ns.len();
    let mut out: Vec<Node> = Vec::new();
    let mut i: usize = 0;
    while i < n
        invariant
            0 <= i <= n,
            out@.len() == i,
            forall|j: int| 0 <= j < i ==> node_view(#[trigger] out@[j]) == node_view(ns@[j]),
        decreases n - i,
    {
        proof {
            assert(decreases_to!(ns@ => ns@[i as int]));
        }
        let c = copy_node(&ns[i]);
        out.push(c);
        i = i + 1;
    }
    proof {
        lemma_nodes_view_congruent(out@, ns@);
    }
    out
}

} // verus!
