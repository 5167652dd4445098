use vstd::prelude::*;

use crate::types::DataValue;
use crate::types::names::{first_index_of, is_first_of, lemma_first_index, names_contain, text_eq};

verus! {

/// One node of a workflow document, as far as the engine reads it.
#[derive(Debug, PartialEq, Eq)]
pub struct NodeData {
    pub id: String,
    /// The tag that selects the node's handler.
    pub node_type: String,
    /// The label of the node's data, where it has one.
    pub label: Option<String>,
    /// Values for input ports that no edge feeds.
    pub default_inputs: Vec<(String, DataValue)>,
}

/// One edge of a workflow document: the output of `source` feeds `target`.
#[derive(Debug, PartialEq, Eq)]
pub struct EdgeData {
    pub id: String,
    pub source: String,
    pub target: String,
    pub animated: bool,
}

/// A workflow document.
#[derive(Debug, PartialEq, Eq)]
pub struct WorkflowData {
    pub version: String,
    pub nodes: Vec<NodeData>,
    pub edges: Vec<EdgeData>,
}

impl WorkflowData {
    /// The ids of the nodes, in document order.
    pub open spec fn node_ids(&self) -> Seq<Seq<char>> {
        Seq::new(self.nodes@.len(), |i: int| self.nodes@[i].id@)
    }

    /// The type tags of the nodes, in document order.
    pub open spec fn node_types(&self) -> Seq<Seq<char>> {
        Seq::new(self.nodes@.len(), |i: int| self.nodes@[i].node_type@)
    }

    /// The edges as pairs of node ids, in document order.
    pub open spec fn edge_names(&self) -> Seq<(Seq<char>, Seq<char>)> {
        Seq::new(self.edges@.len(), |k: int| (self.edges@[k].source@, self.edges@[k].target@))
    }

    /// The place of the first node with the id `node_id`.
    pub fn find_node(&self, node_id: &str) -> (r: Option<usize>)
        ensures
            match r {
                Some(i) => is_first_of(self.node_ids(), node_id@, i as int),
                None => !names_contain(self.node_ids(), node_id@),
            },
    {
        let mut i: usize = 0;
        while i < self.nodes.len()
            invariant
                i <= self.nodes.len(),
                forall|j: int| 0 <= j < i ==> self.node_ids()[j] != node_id@,
            decreases self.nodes.len() - i,
        {
            if text_eq(self.nodes[i].id.as_str(), node_id) {
                assert(self.node_ids()[i as int] == node_id@);
                return Some(i);
            }
            i = i + 1;
        }
        None
    }

    /// The first node with the id `node_id`.
    pub fn get_node(&self, node_id: &str) -> (r: Option<&NodeData>)
        ensures
            match r {
                Some(node) => is_first_of(self.node_ids(), node_id@, first_index_of(
                    self.node_ids(),
                    node_id@,
                )) && *node == self.nodes@[first_index_of(self.node_ids(), node_id@)],
                None => !names_contain(self.node_ids(), node_id@),
            },
    {
        match self.find_node(node_id) {
            Some(i) => {
                proof {
                    lemma_first_index(self.node_ids(), node_id@, i as int);
                }
                Some(&self.nodes[i])
            },
            None => None,
        }
    }
}

} // verus!
