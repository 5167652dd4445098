use vstd::prelude::*;

use crate::types::names::text_eq;

verus! {

pub type NodeId = String;

pub type PortId = String;

/// A connection from an output port of one node to an input port of another.
#[derive(Debug, PartialEq, Eq)]
pub struct Connection {
    pub from_node: NodeId,
    pub from_port: PortId,
    pub to_node: NodeId,
    pub to_port: PortId,
}

/// Mathematical model of a [`Connection`].
pub struct ConnectionView {
    pub from_node: Seq<char>,
    pub from_port: Seq<char>,
    pub to_node: Seq<char>,
    pub to_port: Seq<char>,
}

impl View for Connection {
    type V = ConnectionView;

    open spec fn view(&self) -> ConnectionView {
        ConnectionView {
            from_node: self.from_node@,
            from_port: self.from_port@,
            to_node: self.to_node@,
            to_port: self.to_port@,
        }
    }
}

impl Clone for Connection {
    fn clone(&self) -> (r: Self)
        ensures
            r@ == self@,
    {
        Connection {
            from_node: self.from_node.clone(),
            from_port: self.from_port.clone(),
            to_node: self.to_node.clone(),
            to_port: self.to_port.clone(),
        }
    }
}

/// The last of the first `upto` connections that leads into the port `port`
/// of the node `node`.
pub open spec fn last_into(
    connections: Seq<ConnectionView>,
    node: Seq<char>,
    port: Seq<char>,
    upto: int,
) -> Option<int>
    decreases upto,
{
    if upto <= 0 {
        None
    } else if connections[upto - 1].to_node == node && connections[upto - 1].to_port == port {
        Some(upto - 1)
    } else {
        last_into(connections, node, port, upto - 1)
    }
}

/// The connections between the ports of a workflow. An input port has one
/// source: the connection made last.
pub struct ConnectionGraph {
    connections: Vec<Connection>,
}

impl View for ConnectionGraph {
    type V = Seq<ConnectionView>;

    closed spec fn view(&self) -> Seq<ConnectionView> {
        Seq::new(self.connections@.len(), |i: int| self.connections@[i]@)
    }
}

impl ConnectionGraph {
    /// A graph without connections.
    pub fn new() -> (r: Self)
        ensures
            r@ == Seq::<ConnectionView>::empty(),
    {
        let r = Self { connections: Vec::new() };
        assert(r@ =~= Seq::<ConnectionView>::empty());
        r
    }

    /// Adds a connection.
    pub fn connect(&mut self, conn: Connection)
        ensures
            final(self)@ == old(self)@.push(conn@),
    {
        self.connections.push(conn);
        assert(self@ =~= old(self)@.push(conn@));
    }

    /// The node and the port that feed the port `port` of the node `node`:
    /// the source of the last connection made into it.
    pub fn get_source(&self, node: &NodeId, port: &PortId) -> (r: Option<(&NodeId, &PortId)>)
        ensures
            match r {
                Some(source) => last_into(self@, node@, port@, self@.len() as int) is Some
                    && source.0@ == self@[last_into(
                    self@,
                    node@,
                    port@,
                    self@.len() as int,
                )->0].from_node && source.1@ == self@[last_into(
                    self@,
                    node@,
                    port@,
                    self@.len() as int,
                )->0].from_port,
                None => last_into(self@, node@, port@, self@.len() as int) is None,
            },
    {
        let mut found: Option<usize> = None;
        let mut i: usize = 0;
        while i < self.connections.len()
            invariant
                i <= self.connections.len(),
                match found {
                    Some(at) => last_into(self@, node@, port@, i as int) == Some(at as int) && at
                        < i,
                    None => last_into(self@, node@, port@, i as int) is None,
                },
            decreases self.connections.len() - i,
        {
            let c = &self.connections[i];
            assert(self@[i as int] == c@);
            if text_eq(c.to_node.as_str(), node.as_str()) && text_eq(
                c.to_port.as_str(),
                port.as_str(),
            ) {
                found = Some(i);
            }
            i = i + 1;
        }
        match found {
            Some(at) => {
                let c = &self.connections[at];
                assert(self@[at as int] == c@);
                Some((&c.from_node, &c.from_port))
            },
            None => None,
        }
    }
}

} // verus!
