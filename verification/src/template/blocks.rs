//! The inheritance resolver: collecting a child template's top-level blocks
//! and extends target, and merging block bodies into a tree by name.
use vstd::prelude::*;
use crate::template::node::{
    copy_nodes, lemma_nodes_view_len, node_view, nodes_view, Node, NodeView,
};
use crate::template::text::str_eq;

verus! {

/// A name-to-body mapping collected from a child template's top-level
/// blocks. Entries nearer the front shadow later entries with the same name,
/// so its view is a plain map.
pub struct Blocks {
    pub entries: Vec<(String, Vec<Node>)>,
}

/// The mapping described by the entries from index `i` on; an entry binds its
/// name only where no earlier entry does.
pub open spec fn blocks_map(s: Seq<(String, Vec<Node>)>, i: int) -> Map<Seq<char>, Seq<NodeView>>
    decreases s.len() - i,
{
    if i < 0 || i >= s.len() {
        Map::empty()
    } else {
        blocks_map(s, i + 1).insert(s[i].0@, nodes_view(s[i].1@))
    }
}

impl View for Blocks {
    type V = Map<Seq<char>, Seq<NodeView>>;

    open spec fn view(&self) -> Map<Seq<char>, Seq<NodeView>> {
        blocks_map(self.entries@, 0)
    }
}

/// Prepending an entry shifts the rest of the sequence without changing the
/// mapping it describes.
proof fn lemma_blocks_map_shift(x: (String, Vec<Node>), s: Seq<(String, Vec<Node>)>, i: int)
    requires
        0 <= i <= s.len(),
    ensures
        blocks_map(seq![x] + s, i + 1) == blocks_map(s, i),
    decreases s.len() - i,
{
    let t = seq![x] + s;
    if i < s.len() {
        lemma_blocks_map_shift(x, s, i + 1);
        assert(t[i + 1] == s[i]);
    }
}

impl Blocks {
    pub fn new() -> (r: Self)
        ensures
            r@ == Map::<Seq<char>, Seq<NodeView>>::empty(),
    {
        Blocks { entries: Vec::new() }
    }

    /// Look a block name up; the first entry with that name decides.
    pub fn get<'a>(&'a self, key: &str) -> (r: Option<&'a Vec<Node>>)
        ensures
            match r {
                Some(v) => self@.contains_key(key@) && nodes_view(v@) == self@[key@],
                None => !self@.contains_key(key@),
            },
    {
        let n = self.entries.len();
        let mut i: usize = 0;
        while i < n
            invariant
                n == self.entries@.len(),
                0 <= i <= n,
                self@.contains_key(key@) == blocks_map(self.entries@, i as int).contains_key(key@),
                self@.contains_key(key@) ==> self@[key@] == blocks_map(self.entries@, i as int)[key@],
            decreases n - i,
        {
            if str_eq(self.entries[i].0.as_str(), key) {
                return Some(&self.entries[i].1);
            }
            i = i + 1;
        }
        None
    }

    /// Bind a block name, shadowing any existing binding.
    pub fn insert(&mut self, key: String, body: Vec<Node>)
        ensures
            final(self)@ == old(self)@.insert(key@, nodes_view(body@)),
    {
        let ghost s0 = self.entries@;
        let ghost bv = nodes_view(body@);
        self.entries.insert(0, (key, body));
        proof {
            assert(self.entries@ =~= seq![(key, self.entries@[0].1)] + s0);
            lemma_blocks_map_shift(self.entries@[0], s0, 0);
            assert(nodes_view(self.entries@[0].1@) == bv);
        }
    }
}

/// The block mapping of a tree's top level: each `Block` leaf binds its name
/// to its body, a later block overwriting an earlier one of the same name.
/// Nothing is scanned recursively.
pub open spec fn collect_blocks_sp(ns: Seq<NodeView>) -> Map<Seq<char>, Seq<NodeView>>
    decreases ns.len(),
{
    if ns.len() == 0 {
        Map::empty()
    } else {
        let m = collect_blocks_sp(ns.drop_last());
        match ns.last() {
            NodeView::Block { name, body } => m.insert(name, body),
            _ => m,
        }
    }
}

/// The base template named by the last top-level `Extends` leaf, if any.
pub open spec fn find_extends_sp(ns: Seq<NodeView>) -> Option<Seq<char>>
    decreases ns.len(),
{
    if ns.len() == 0 {
        None
    } else {
        match ns.last() {
            NodeView::Extends(b) => Some(b),
            _ => find_extends_sp(ns.drop_last()),
        }
    }
}

/// Scans a tree's top level once, collecting its block mapping and its
/// extends target.
pub fn collect_top_level(nodes: &Vec<Node>) -> (r: (Blocks, Option<String>))
    ensures
        r.0@ == collect_blocks_sp(nodes_view(nodes@)),
        match r.1 {
            Some(b) => find_extends_sp(nodes_view(nodes@)) == Some(b@),
            None => find_extends_sp(nodes_view(nodes@)) is None,
        },
{
    broadcast use lemma_nodes_view_len;

    let ghost nsv = nodes_view(nodes@);
    let n = nodes.len();
    let mut blocks = Blocks::new();
    let mut base: Option<String> = None;
    proof {
        assert(nsv.take(0) =~= Seq::<NodeView>::empty());
    }
    let mut i: usize = 0;
    while i < n
        invariant
            n == nodes@.len(),
            0 <= i <= n,
            nsv == nodes_view(nodes@),
            nsv.len() == n,
            blocks@ == collect_blocks_sp(nsv.take(i as int)),
            match base {
                Some(b) => find_extends_sp(nsv.take(i as int)) == Some(b@),
                None => find_extends_sp(nsv.take(i as int)) is None,
            },
        decreases n - i,
    {
        proof {
            lemma_nodes_view_len(nodes@);
            assert(nsv.take(i + 1).drop_last() =~= nsv.take(i as int));
            assert(nsv.take(i + 1).last() == nsv[i as int]);
            assert(nsv[i as int] == node_view(nodes@[i as int]));
        }
        match &nodes[i] {
            Node::Block { name, body } => {
                blocks.insert(name.clone(), copy_nodes(body));
            },
            Node::Extends(b) => {
                base = Some(b.clone());
            },
            _ => {},
        }
        i = i + 1;
    }
    proof {
        assert(nsv.take(n as int) =~= nsv);
    }
    (blocks, base)
}

/// The tree with every block body substituted where the mapping binds its
/// name: a bound block's body is replaced wholesale and not rescanned; an
/// unbound block keeps its body but is merged within; `If` and `For` bodies
/// are merged within; the other leaves pass through unchanged.
pub open spec fn merge_node_sp(n: NodeView, b: Map<Seq<char>, Seq<NodeView>>) -> NodeView
    decreases n, 1int,
{
    match n {
        NodeView::Block { name, body } => if b.contains_key(name) {
            NodeView::Block { name, body: b[name] }
        } else {
            NodeView::Block { name, body: merge_sp(body, b) }
        },
        NodeView::If { condition, then_body, else_body } => NodeView::If {
            condition,
            then_body: merge_sp(then_body, b),
            else_body: merge_sp(else_body, b),
        },
        NodeView::For { var_name, list_name, body } => NodeView::For {
            var_name,
            list_name,
            body: merge_sp(body, b),
        },
        _ => n,
    }
}

pub open spec fn merge_sp(ns: Seq<NodeView>, b: Map<Seq<char>, Seq<NodeView>>) -> Seq<NodeView>
    decreases ns, 0int,
{
    if ns.len() == 0 {
        Seq::empty()
    } else {
        seq![merge_node_sp(ns[0], b)] + merge_sp(ns.drop_first(), b)
    }
}

pub broadcast proof fn lemma_merge_sp_len(ns: Seq<NodeView>, b: Map<Seq<char>, Seq<NodeView>>)
    ensures
        (#[trigger] merge_sp(ns, b)).len() == ns.len(),
        forall|i: int| 0 <= i < ns.len() ==> merge_sp(ns, b)[i] == merge_node_sp(ns[i], b),
    decreases ns,
{
    if ns.len() > 0 {
        lemma_merge_sp_len(ns.drop_first(), b);
    }
}

/// Merges child blocks into a node by matching block names.
#[verifier::loop_isolation(false)]
fn merge_node(n: &Node, blocks: &Blocks) -> (r: Node)
    ensures
        node_view(r) == merge_node_sp(node_view(*n), blocks@),
    decreases n, 1int,
{
    match n {
        Node::Block { name, body } => {
            match blocks.get(name.as_str()) {
                Some(child) => Node::Block { name: name.clone(), body: copy_nodes(child) },
                None => Node::Block { name: name.clone(), body: merge_blocks(body, blocks) },
            }
        },
        Node::If { condition, then_body, else_body } => Node::If {
            condition: condition.clone(),
            then_body: merge_blocks(then_body, blocks),
            else_body: merge_blocks(else_body, blocks),
        },
        Node::For { var_name, list_name, body } => Node::For {
            var_name: var_name.clone(),
            list_name: list_name.clone(),
            body: merge_blocks(body, blocks),
        },
        Node::Text(t) => Node::Text(t.clone()),
        Node::Variable(v) => Node::Variable(v.clone()),
        Node::Extends(b) => Node::Extends(b.clone()),
        Node::Tailwind => Node::Tailwind,
    }
}

/// Merges child blocks into a tree by matching block names, producing a new
/// tree.
#[verifier::loop_isolation(false)]
pub fn merge_blocks(nodes: &Vec<Node>, blocks: &Blocks) -> (r: Vec<Node>)
    ensures
        nodes_view(r@) == merge_sp(nodes_view(nodes@), blocks@),
    decreases nodes@, 0int,
{
    broadcast use lemma_nodes_view_len, lemma_merge_sp_len;

    let n = nodes.len();
    let mut out: Vec<Node> = Vec::new();
    let mut i: usize = 0;
    while i < n
        invariant
            0 <= i <= n,
            out@.len() == i,
            forall|j: int|
                0 <= j < i ==> node_view(#[trigger] out@[j]) == merge_node_sp(
                    node_view(nodes@[j]),
                    blocks@,
                ),
        decreases n - i,
    {
        proof {
            assert(decreases_to!(nodes@ => nodes@[i as int]));
        }
        let m = merge_node(&nodes[i], blocks);
        out.push(m);
        i = i + 1;
    }
    proof {
        assert(nodes_view(out@) =~= merge_sp(nodes_view(nodes@), blocks@));
    }
    out
}

proof fn lemma_merge_empty_node(n: NodeView)
    ensures
        merge_node_sp(n, Map::empty()) == n,
    decreases n, 1int,
{
    match n {
        NodeView::Block { name, body } => {
            lemma_merge_empty(body);
        },
        NodeView::If { condition, then_body, else_body } => {
            lemma_merge_empty(then_body);
            lemma_merge_empty(else_body);
        },
        NodeView::For { var_name, list_name, body } => {
            lemma_merge_empty(body);
        },
        _ => {},
    }
}

proof fn lemma_merge_empty(ns: Seq<NodeView>)
    ensures
        merge_sp(ns, Map::empty()) == ns,
    decreases ns, 0int,
{
    if ns.len() > 0 {
        lemma_merge_empty_node(ns[0]);
        lemma_merge_empty(ns.drop_first());
        assert(merge_sp(ns, Map::empty()) =~= ns);
    } else {
        assert(merge_sp(ns, Map::empty()) =~= ns);
    }
}

proof fn lemma_collect_no_blocks(ns: Seq<NodeView>)
    requires
        forall|i: int| 0 <= i < ns.len() ==> !((#[trigger] ns[i]) is Block),
    ensures
        collect_blocks_sp(ns) == Map::<Seq<char>, Seq<NodeView>>::empty(),
    decreases ns.len(),
{
    if ns.len() > 0 {
        assert(forall|i: int|
            0 <= i < ns.drop_last().len() ==> !((#[trigger] ns.drop_last()[i]) is Block));
        lemma_collect_no_blocks(ns.drop_last());
        assert(ns.last() == ns[ns.len() - 1]);
    }
}

/// Self-merge changes nothing: a tree with no top-level `Block` (and so in
/// particular a child template with no `Extends` and no top-level `Block`)
/// comes out of the merge against its own collected block mapping unchanged,
/// and so renders identically whether or not the merge step runs.
pub proof fn lemma_self_merge_is_identity(ns: Seq<NodeView>)
    requires
        forall|i: int|
            0 <= i < ns.len() ==> !((#[trigger] ns[i]) is Block) && !(ns[i] is Extends),
    ensures
        merge_sp(ns, collect_blocks_sp(ns)) == ns,
{
    lemma_collect_no_blocks(ns);
    lemma_merge_empty(ns);
}

} // verus!
