use vstd::prelude::*;

use crate::types::{DataType, DataTypeView};
use crate::types::names::{
    is_first_of, keys_of, lemma_first_index, lookup, names_contain, put, text_eq,
};

verus! {

/// A port of a node.
#[derive(Debug, PartialEq, Eq)]
pub struct Port {
    pub id: String,
    pub data_type: DataType,
    /// Whether the port takes more than one connection.
    pub multiple: bool,
}

/// Mathematical model of a [`Port`].
pub struct PortView {
    pub id: Seq<char>,
    pub data_type: DataTypeView,
    pub multiple: bool,
}

impl View for Port {
    type V = PortView;

    open spec fn view(&self) -> PortView {
        PortView { id: self.id@, data_type: self.data_type@, multiple: self.multiple }
    }
}

impl Clone for Port {
    fn clone(&self) -> (r: Self)
        ensures
            r@ == self@,
    {
        Port { id: self.id.clone(), data_type: self.data_type.clone(), multiple: self.multiple }
    }
}

/// A list of ports as contracts speak of it: each port under its id.
pub open spec fn ports_by_id(ports: Seq<Port>) -> Seq<(Seq<char>, PortView)> {
    Seq::new(ports.len(), |i: int| (ports[i].id@, ports[i]@))
}

/// The input and the output ports of a node, by id.
pub struct DynamicPorts {
    inputs: Vec<Port>,
    outputs: Vec<Port>,
}

fn find_by_id(ports: &Vec<Port>, id: &str) -> (r: Option<usize>)
    ensures
        match r {
            Some(i) => is_first_of(keys_of(ports_by_id(ports@)), id@, i as int),
            None => !names_contain(keys_of(ports_by_id(ports@)), id@),
        },
{
    let mut i: usize = 0;
    while i < ports.len()
        invariant
            i <= ports.len(),
            forall|j: int| 0 <= j < i ==> keys_of(ports_by_id(ports@))[j] != id@,
        decreases ports.len() - i,
    {
        if text_eq(ports[i].id.as_str(), id) {
            assert(keys_of(ports_by_id(ports@))[i as int] == id@);
            return Some(i);
        }
        i = i + 1;
    }
    None
}

fn put_by_id(ports: &mut Vec<Port>, port: Port)
    ensures
        ports_by_id(final(ports)@) == put(ports_by_id(old(ports)@), port.id@, port@),
{
    match find_by_id(ports, port.id.as_str()) {
        Some(i) => {
            proof {
                lemma_first_index(keys_of(ports_by_id(ports@)), port.id@, i as int);
            }
            ports.set(i, port);
        },
        None => {
            ports.push(port);
        },
    }
    assert(ports_by_id(ports@) =~= put(ports_by_id(old(ports)@), port.id@, port@));
}

fn get_by_id<'a>(ports: &'a Vec<Port>, id: &str) -> (r: Option<&'a Port>)
    ensures
        match r {
            Some(port) => lookup(ports_by_id(ports@), id@) == Some(port@),
            None => lookup(ports_by_id(ports@), id@) is None,
        },
{
    match find_by_id(ports, id) {
        Some(i) => {
            proof {
                lemma_first_index(keys_of(ports_by_id(ports@)), id@, i as int);
            }
            Some(&ports[i])
        },
        None => None,
    }
}

impl DynamicPorts {
    /// The input ports, each under its id.
    pub closed spec fn inputs(&self) -> Seq<(Seq<char>, PortView)> {
        ports_by_id(self.inputs@)
    }

    /// The output ports, each under its id.
    pub closed spec fn outputs(&self) -> Seq<(Seq<char>, PortView)> {
        ports_by_id(self.outputs@)
    }

    /// No ports.
    pub fn new() -> (r: Self)
        ensures
            r.inputs() == Seq::<(Seq<char>, PortView)>::empty(),
            r.outputs() == Seq::<(Seq<char>, PortView)>::empty(),
    {
        let r = Self { inputs: Vec::new(), outputs: Vec::new() };
        assert(r.inputs() =~= Seq::<(Seq<char>, PortView)>::empty());
        assert(r.outputs() =~= Seq::<(Seq<char>, PortView)>::empty());
        r
    }

    /// Adds an input port, in the place of the one with the same id if
    /// there is one.
    pub fn add_input(&mut self, port: Port)
        ensures
            final(self).inputs() == put(old(self).inputs(), port.id@, port@),
            final(self).outputs() == old(self).outputs(),
    {
        put_by_id(&mut self.inputs, port);
    }

    /// Adds an output port, in the place of the one with the same id if
    /// there is one.
    pub fn add_output(&mut self, port: Port)
        ensures
            final(self).outputs() == put(old(self).outputs(), port.id@, port@),
            final(self).inputs() == old(self).inputs(),
    {
        put_by_id(&mut self.outputs, port);
    }

    /// The input port with the id `id`.
    pub fn get_input(&self, id: &str) -> (r: Option<&Port>)
        ensures
            match r {
                Some(port) => lookup(self.inputs(), id@) == Some(port@),
                None => lookup(self.inputs(), id@) is None,
            },
    {
        get_by_id(&self.inputs, id)
    }

    /// The output port with the id `id`.
    pub fn get_output(&self, id: &str) -> (r: Option<&Port>)
        ensures
            match r {
                Some(port) => lookup(self.outputs(), id@) == Some(port@),
                None => lookup(self.outputs(), id@) is None,
            },
    {
        get_by_id(&self.outputs, id)
    }
}

} // verus!
