//! A bidirectional index between constant-occurrence nodes and the dense
//! integer ids a usage graph is built over.

use vstd::prelude::*;

verus! {

broadcast use crate::seqview::group_dvs;

/// A byte-offset span inside a source file.
#[derive(Clone, Copy, Debug, Hash, PartialEq, Eq, Structural)]
pub struct Loc {
    pub begin: usize,
    pub end: usize,
}

/// Whether a node stands for a definition or for a reference.
#[derive(Clone, Copy, Debug, Hash, PartialEq, Eq, Structural)]
pub enum NodeType {
    Definition,
    Reference,
}

/// One constant occurrence as a graph node.
#[derive(Clone, Debug)]
pub struct Node {
    pub node_type: NodeType,
    pub path: String,
    pub name: String,
    pub loc: Loc,
}

/// The mathematical value of a `Node`.
pub ghost struct NodeView {
    pub node_type: NodeType,
    pub path: Seq<char>,
    pub name: Seq<char>,
    pub loc: Loc,
}

impl DeepView for Node {
    type V = NodeView;

    open spec fn deep_view(&self) -> NodeView {
        NodeView {
            node_type: self.node_type,
            path: self.path@,
            name: self.name@,
            loc: self.loc,
        }
    }
}

/// An exact copy of a node.
pub fn clone_node(n: &Node) -> (r: Node)
    ensures
        r.deep_view() == n.deep_view(),
{
    Node { node_type: n.node_type, path: n.path.clone(), name: n.name.clone(), loc: n.loc }
}

/// Whether two nodes carry the same value.
pub fn node_eq(a: &Node, b: &Node) -> (r: bool)
    ensures
        r == (a.deep_view() == b.deep_view()),
{
    let tys = match (a.node_type, b.node_type) {
        (NodeType::Definition, NodeType::Definition) => true,
        (NodeType::Reference, NodeType::Reference) => true,
        _ => false,
    };
    tys && a.loc.begin == b.loc.begin && a.loc.end == b.loc.end && crate::strutil::str_eq(
        a.path.as_str(),
        b.path.as_str(),
    ) && crate::strutil::str_eq(a.name.as_str(), b.name.as_str())
}

/// Assigns dense ids to nodes in insertion order: the id of a node is
/// its position in the insertion sequence, each distinct node counted
/// once.
pub struct NodeIndex {
    nodes: Vec<Node>,
}

impl NodeIndex {
    /// The id-to-node table, in id order.
    pub closed spec fn nodes_seq(&self) -> Seq<NodeView> {
        self.nodes.deep_view()
    }

    /// No node value is indexed twice.
    pub open spec fn wf(&self) -> bool {
        forall|i: int, j: int|
            0 <= i < j < self.nodes_seq().len() ==> #[trigger] self.nodes_seq()[i]
                != #[trigger] self.nodes_seq()[j]
    }

    /// An empty index.
    pub fn new() -> (r: NodeIndex)
        ensures
            r.wf(),
            r.nodes_seq() =~= Seq::<NodeView>::empty(),
    {
        NodeIndex { nodes: Vec::new() }
    }

    /// The id of a node already indexed, if any.
    pub fn get_id_for_node(&self, node: &Node) -> (r: Option<usize>)
        ensures
            match r {
                Some(i) => i < self.nodes_seq().len() && self.nodes_seq()[i as int]
                    == node.deep_view(),
                None => !self.nodes_seq().contains(node.deep_view()),
            },
    {
        let ghost ns = self.nodes_seq();
        let mut i: usize = 0;
        while i < self.nodes.len()
            invariant
                ns == self.nodes_seq(),
                ns == self.nodes.deep_view(),
                i <= self.nodes.len(),
                forall|k: int| 0 <= k < i ==> ns[k] != node.deep_view(),
            decreases self.nodes.len() - i,
        {
            if node_eq(&self.nodes[i], node) {
                return Some(i);
            }
            i = i + 1;
        }
        proof {
            if ns.contains(node.deep_view()) {
                let k = choose|k: int| 0 <= k < ns.len() && ns[k] == node.deep_view();
                assert(ns[k] != node.deep_view());
            }
        }
        None
    }

    /// The node an id was assigned to, if the id is in range.
    pub fn get_node_for_id(&self, id: usize) -> (r: Option<&Node>)
        ensures
            match r {
                Some(n) => id < self.nodes_seq().len() && n.deep_view()
                    == self.nodes_seq()[id as int],
                None => id >= self.nodes_seq().len(),
            },
    {
        if id < self.nodes.len() {
            Some(&self.nodes[id])
        } else {
            None
        }
    }

    /// The id of `node`, assigning the next free id when the node is new.
    pub fn index(&mut self, node: &Node) -> (r: usize)
        requires
            old(self).wf(),
        ensures
            final(self).wf(),
            r < final(self).nodes_seq().len(),
            final(self).nodes_seq()[r as int] == node.deep_view(),
            old(self).nodes_seq().contains(node.deep_view()) ==> final(self).nodes_seq() == old(
                self,
            ).nodes_seq(),
            !old(self).nodes_seq().contains(node.deep_view()) ==> final(self).nodes_seq() == old(
                self,
            ).nodes_seq().push(node.deep_view()) && r == old(self).nodes_seq().len(),
    {
        match self.get_id_for_node(node) {
            Some(i) => {
                proof {
                    assert(self.nodes_seq().contains(node.deep_view()));
                }
                i
            },
            None => {
                let r = self.nodes.len();
                self.nodes.push(clone_node(node));
                proof {
                    let pre = old(self).nodes_seq();
                    assert(self.nodes_seq() =~= pre.push(node.deep_view()));
                    assert forall|i: int, j: int|
                        0 <= i < j < self.nodes_seq().len() implies #[trigger] self.nodes_seq()[i]
                        != #[trigger] self.nodes_seq()[j] by {
                        if j == pre.len() {
                            assert(pre.contains(pre[i]));
                        }
                    }
                }
                r
            },
        }
    }
}

} // verus!
