//! The in-memory graph model built by the parser: nodes, edges, and
//! string-to-string attribute mappings.

use vstd::prelude::*;
use vstd::string::*;

verus! {

/// Character-by-character string equality.
pub fn str_eq(a: &str, b: &str) -> (r: bool)
    ensures
        r == (a@ == b@),
{
    let n = a.unicode_len();
    if n != b.unicode_len() {
        return false;
    }
    let mut i: usize = 0;
    while i < n
        invariant
            i <= n,
            n == a@.len(),
            n == b@.len(),
            forall|k: int| 0 <= k < i ==> a@[k] == b@[k],
        decreases n - i,
    {
        if a.get_char(i) != b.get_char(i) {
            return false;
        }
        i += 1;
    }
    proof {
        assert(a@ =~= b@);
    }
    true
}

/// The finite map described by a sequence of insertions: a later entry for a
/// key overrides an earlier one.
pub open spec fn map_of(entries: Seq<(String, String)>) -> Map<Seq<char>, Seq<char>>
    decreases entries.len(),
{
    if entries.len() == 0 {
        Map::empty()
    } else {
        map_of(entries.drop_last()).insert(entries.last().0@, entries.last().1@)
    }
}

/// A key→value attribute mapping with string keys and values, stored as the
/// sequence of its insertions. Its abstract value is a finite map.
pub struct AttrMap {
    pub entries: Vec<(String, String)>,
}

impl View for AttrMap {
    type V = Map<Seq<char>, Seq<char>>;

    open spec fn view(&self) -> Map<Seq<char>, Seq<char>> {
        map_of(self.entries@)
    }
}

proof fn lemma_map_of_skip(entries: Seq<(String, String)>, key: Seq<char>, i: int)
    requires
        0 <= i <= entries.len(),
        forall|j: int| i <= j < entries.len() ==> entries[j].0@ != key,
    ensures
        map_of(entries).contains_key(key) == map_of(entries.subrange(0, i)).contains_key(key),
        map_of(entries).contains_key(key) ==> map_of(entries)[key] == map_of(
            entries.subrange(0, i),
        )[key],
    decreases entries.len() - i,
{
    if i < entries.len() {
        let shorter = entries.drop_last();
        assert(entries[entries.len() - 1].0@ != key);
        lemma_map_of_skip(shorter, key, i);
        assert(shorter.subrange(0, i) =~= entries.subrange(0, i));
    } else {
        assert(entries.subrange(0, i) =~= entries);
    }
}

impl Clone for AttrMap {
    fn clone(&self) -> (r: Self)
        ensures
            r.entries@ == self.entries@,
            r@ == self@,
    {
        let mut entries: Vec<(String, String)> = Vec::new();
        let mut i: usize = 0;
        while i < self.entries.len()
            invariant
                i <= self.entries.len(),
                entries@ =~= self.entries@.subrange(0, i as int),
            decreases self.entries.len() - i,
        {
            let pair = (self.entries[i].0.clone(), self.entries[i].1.clone());
            entries.push(pair);
            i += 1;
        }
        proof {
            assert(entries@ =~= self.entries@);
        }
        AttrMap { entries }
    }
}

impl AttrMap {
    /// An empty attribute mapping.
    pub fn new() -> (m: AttrMap)
        ensures
            m@ == Map::<Seq<char>, Seq<char>>::empty(),
            m.entries@.len() == 0,
    {
        AttrMap { entries: Vec::new() }
    }

    /// Bind `key` to `value`, overriding any earlier binding of `key`.
    pub fn insert(&mut self, key: String, value: String)
        ensures
            final(self)@ == old(self)@.insert(key@, value@),
    {
        let ghost before = self.entries@;
        self.entries.push((key, value));
        proof {
            assert(self.entries@.drop_last() =~= before);
        }
    }

    /// Look the key up: the value of its latest insertion, if any.
    pub fn get(&self, key: &str) -> (r: Option<String>)
        ensures
            match r {
                Some(v) => self@.contains_key(key@) && v@ == self@[key@],
                None => !self@.contains_key(key@),
            },
    {
        let mut i: usize = self.entries.len();
        while i > 0
            invariant
                i <= self.entries.len(),
                forall|j: int| i <= j < self.entries@.len() ==> self.entries@[j].0@ != key@,
            decreases i,
        {
            i = i - 1;
            if str_eq(self.entries[i].0.as_str(), key) {
                proof {
                    let prefix = self.entries@.subrange(0, i as int + 1);
                    assert(prefix.drop_last() =~= self.entries@.subrange(0, i as int));
                    assert(prefix.last() == self.entries@[i as int]);
                    lemma_map_of_skip(self.entries@, key@, i as int + 1);
                }
                return Some(self.entries[i].1.clone());
            }
        }
        proof {
            lemma_map_of_skip(self.entries@, key@, 0);
            assert(self.entries@.subrange(0, 0) =~= Seq::<(String, String)>::empty());
        }
        None
    }
}

/// The abstract value of a node: its label and its attribute map.
#[verifier::ext_equal]
pub struct NodeModel {
    pub label: Seq<char>,
    pub attrs: Map<Seq<char>, Seq<char>>,
}

/// The model of a freshly made node: empty label, no attributes.
pub open spec fn empty_node_model() -> NodeModel {
    NodeModel { label: Seq::empty(), attrs: Map::empty() }
}

/// A graph node: a label that identifies it within one parse, and its
/// attributes.
pub struct Node {
    pub label: String,
    pub attrs: AttrMap,
}

impl View for Node {
    type V = NodeModel;

    open spec fn view(&self) -> NodeModel {
        NodeModel { label: self.label@, attrs: self.attrs@ }
    }
}

impl Clone for Node {
    fn clone(&self) -> (r: Self)
        ensures
            r@ == self@,
    {
        Node { label: self.label.clone(), attrs: self.attrs.clone() }
    }
}

impl Node {
    /// A node with an empty label and no attributes.
    pub fn new() -> (n: Node)
        ensures
            n@ == empty_node_model(),
    {
        let n = Node { label: String::new(), attrs: AttrMap::new() };
        proof {
            assert(n@ =~= empty_node_model());
        }
        n
    }

    /// A node with the given label and no attributes.
    pub fn with_label(label: String) -> (n: Node)
        ensures
            n@.label == label@,
            n@.attrs == Map::<Seq<char>, Seq<char>>::empty(),
    {
        Node { label, attrs: AttrMap::new() }
    }
}

/// The abstract value of an edge: by-value copies of its two endpoints as
/// they stood when the edge was declared, and the edge's own attributes.
#[verifier::ext_equal]
pub struct EdgeModel {
    pub left_node: NodeModel,
    pub right_node: NodeModel,
    pub attrs: Map<Seq<char>, Seq<char>>,
}

/// The model of a freshly made edge: two empty endpoints, no attributes.
pub open spec fn empty_edge_model() -> EdgeModel {
    EdgeModel { left_node: empty_node_model(), right_node: empty_node_model(), attrs: Map::empty() }
}

/// An undirected edge between two declared nodes. The endpoints are copies
/// of the nodes' state at edge-declaration time, not live references.
pub struct Edge {
    pub left_node: Node,
    pub right_node: Node,
    pub attrs: AttrMap,
}

impl View for Edge {
    type V = EdgeModel;

    open spec fn view(&self) -> EdgeModel {
        EdgeModel {
            left_node: self.left_node@,
            right_node: self.right_node@,
            attrs: self.attrs@,
        }
    }
}

impl Edge {
    /// An edge with two empty endpoints and no attributes.
    pub fn default() -> (e: Edge)
        ensures
            e@ == empty_edge_model(),
    {
        let e = Edge { left_node: Node::new(), right_node: Node::new(), attrs: AttrMap::new() };
        proof {
            assert(e@ =~= empty_edge_model());
        }
        e
    }

    /// An edge between the two given endpoint copies, with no attributes
    /// yet.
    pub fn with_nodes(left_node: Node, right_node: Node) -> (e: Edge)
        ensures
            e@.left_node == left_node@,
            e@.right_node == right_node@,
            e@.attrs == Map::<Seq<char>, Seq<char>>::empty(),
    {
        Edge { left_node, right_node, attrs: AttrMap::new() }
    }
}

/// The abstract value of a sequence of nodes.
pub open spec fn view_nodes(ns: Seq<Node>) -> Seq<NodeModel> {
    Seq::new(ns.len(), |k: int| ns[k]@)
}

/// The abstract value of a sequence of edges.
pub open spec fn view_edges(es: Seq<Edge>) -> Seq<EdgeModel> {
    Seq::new(es.len(), |k: int| es[k]@)
}

pub proof fn lemma_view_nodes_push(ns: Seq<Node>, n: Node)
    ensures
        view_nodes(ns.push(n)) == view_nodes(ns).push(n@),
{
    assert(view_nodes(ns.push(n)) =~= view_nodes(ns).push(n@));
}

pub proof fn lemma_view_edges_push(es: Seq<Edge>, e: Edge)
    ensures
        view_edges(es.push(e)) == view_edges(es).push(e@),
{
    assert(view_edges(es.push(e)) =~= view_edges(es).push(e@));
}

/// The abstract value of a graph: its node sequence, edge sequence, and
/// graph-level attributes.
#[verifier::ext_equal]
pub struct GraphModel {
    pub nodes: Seq<NodeModel>,
    pub edges: Seq<EdgeModel>,
    pub attrs: Map<Seq<char>, Seq<char>>,
}

/// The model of a freshly made graph: no nodes, no edges, no attributes.
pub open spec fn empty_graph_model() -> GraphModel {
    GraphModel { nodes: Seq::empty(), edges: Seq::empty(), attrs: Map::empty() }
}

/// The graph built by one parse: an ordered node sequence, an ordered edge
/// sequence, and the graph-level attribute mapping.
pub struct Graph {
    pub nodes: Vec<Node>,
    pub edges: Vec<Edge>,
    pub attrs: AttrMap,
}

impl View for Graph {
    type V = GraphModel;

    open spec fn view(&self) -> GraphModel {
        GraphModel {
            nodes: view_nodes(self.nodes@),
            edges: view_edges(self.edges@),
            attrs: self.attrs@,
        }
    }
}

impl Graph {
    /// An empty graph.
    pub fn new() -> (g: Graph)
        ensures
            g@ == empty_graph_model(),
    {
        let g = Graph { nodes: Vec::new(), edges: Vec::new(), attrs: AttrMap::new() };
        proof {
            assert(view_nodes(g.nodes@) =~= Seq::<NodeModel>::empty());
            assert(view_edges(g.edges@) =~= Seq::<EdgeModel>::empty());
            assert(g@ =~= empty_graph_model());
        }
        g
    }
}

} // verus!
