use std::sync::Arc;
use vstd::prelude::*;

use crate::types::{DataValue, DataValueView, ModelId};
use crate::types::names::{
    is_first_of, keys_of, lemma_first_index, lemma_put_then_lookup, lookup, names_contain, put,
    text_eq,
};
use crate::vram::pool::{Model, VramPool};

verus! {

/// The values on the ports of one node, by port name, in the order in which
/// the ports were first written.
pub type PortValues = Vec<(String, DataValue)>;

/// Mathematical model of [`PortValues`].
pub type PortsView = Seq<(Seq<char>, DataValueView)>;

/// The values of a list of ports as contracts speak of them.
pub open spec fn ports_view(ports: Seq<(String, DataValue)>) -> PortsView {
    Seq::new(ports.len(), |i: int| (ports[i].0@, ports[i].1@))
}

/// The place of the first entry under `key`.
pub fn find_port(ports: &PortValues, key: &str) -> (r: Option<usize>)
    ensures
        match r {
            Some(i) => is_first_of(keys_of(ports_view(ports@)), key@, i as int),
            None => !names_contain(keys_of(ports_view(ports@)), key@),
        },
{
    let mut i: usize = 0;
    while i < ports.len()
        invariant
            i <= ports.len(),
            forall|j: int| 0 <= j < i ==> keys_of(ports_view(ports@))[j] != key@,
        decreases ports.len() - i,
    {
        if text_eq(ports[i].0.as_str(), key) {
            assert(keys_of(ports_view(ports@))[i as int] == key@);
            return Some(i);
        }
        i = i + 1;
    }
    None
}

/// The value on the port `key`.
pub fn get_port<'a>(ports: &'a PortValues, key: &str) -> (r: Option<&'a DataValue>)
    ensures
        match r {
            Some(value) => lookup(ports_view(ports@), key@) == Some(value@),
            None => lookup(ports_view(ports@), key@) is None,
        },
{
    match find_port(ports, key) {
        Some(i) => {
            proof {
                lemma_first_index(keys_of(ports_view(ports@)), key@, i as int);
            }
            Some(&ports[i].1)
        },
        None => None,
    }
}

/// Writes `value` on the port `key`.
pub fn put_port(ports: &mut PortValues, key: String, value: DataValue)
    ensures
        ports_view(final(ports)@) == put(ports_view(old(ports)@), key@, value@),
{
    match find_port(ports, key.as_str()) {
        Some(i) => {
            proof {
                lemma_first_index(keys_of(ports_view(ports@)), key@, i as int);
            }
            ports.set(i, (key, value));
            assert(ports_view(ports@) =~= put(ports_view(old(ports)@), key@, value@));
        },
        None => {
            ports.push((key, value));
            assert(ports_view(ports@) =~= put(ports_view(old(ports)@), key@, value@));
        },
    }
}

/// A copy of a list of ports.
pub fn copy_ports(ports: &PortValues) -> (r: PortValues)
    ensures
        ports_view(r@) == ports_view(ports@),
{
    let mut copy: PortValues = Vec::new();
    let mut i: usize = 0;
    while i < ports.len()
        invariant
            i <= ports.len(),
            copy@.len() == i,
            forall|j: int| 0 <= j < i ==> ports_view(copy@)[j] == ports_view(ports@)[j],
        decreases ports.len() - i,
    {
        let key = ports[i].0.clone();
        let value = ports[i].1.duplicate();
        copy.push((key, value));
        i = i + 1;
    }
    assert(ports_view(copy@) =~= ports_view(ports@));
    copy
}

/// The ports `base` after the first `upto` entries of `more` were written
/// on them, in order.
pub open spec fn put_all(base: PortsView, more: PortsView, upto: int) -> PortsView
    decreases upto,
{
    if upto <= 0 {
        base
    } else {
        put(put_all(base, more, upto - 1), more[upto - 1].0, more[upto - 1].1)
    }
}

/// The value that the last of the first `upto` entries under `key` holds.
pub open spec fn last_written(ports: PortsView, key: Seq<char>, upto: int) -> Option<
    DataValueView,
>
    decreases upto,
{
    if upto <= 0 {
        None
    } else if ports[upto - 1].0 == key {
        Some(ports[upto - 1].1)
    } else {
        last_written(ports, key, upto - 1)
    }
}

/// After entries were written on ports, a port holds what was written on
/// it last, or else what it held before.
pub proof fn lemma_put_all_lookup(base: PortsView, more: PortsView, upto: int, key: Seq<char>)
    requires
        0 <= upto <= more.len(),
    ensures
        lookup(put_all(base, more, upto), key) == match last_written(more, key, upto) {
            Some(v) => Some(v),
            None => lookup(base, key),
        },
    decreases upto,
{
    if upto > 0 {
        lemma_put_all_lookup(base, more, upto - 1, key);
        lemma_put_then_lookup(
            put_all(base, more, upto - 1),
            more[upto - 1].0,
            more[upto - 1].1,
            key,
        );
    }
}

/// Writes every entry of `more` on `ports`, in order.
pub fn put_ports(ports: &mut PortValues, more: &PortValues)
    ensures
        ports_view(final(ports)@) == put_all(
            ports_view(old(ports)@),
            ports_view(more@),
            more@.len() as int,
        ),
{
    let mut i: usize = 0;
    while i < more.len()
        invariant
            i <= more.len(),
            ports_view(ports@) == put_all(ports_view(old(ports)@), ports_view(more@), i as int),
        decreases more.len() - i,
    {
        let key = more[i].0.clone();
        let value = more[i].1.duplicate();
        put_port(ports, key, value);
        i = i + 1;
    }
}

/// Mathematical model of the outputs of a run: for each node that has
/// stored outputs, its id and the values on its ports.
pub type OutputsView = Seq<(Seq<char>, PortsView)>;

/// The outputs of the first `upto` nodes merged into one list of ports,
/// node after node in the order in which they were first stored.
/// Where two nodes write the same port, the value of the later node stands.
pub open spec fn merged(outputs: OutputsView, upto: int) -> PortsView
    decreases upto,
{
    if upto <= 0 {
        Seq::empty()
    } else {
        put_all(merged(outputs, upto - 1), outputs[upto - 1].1, outputs[upto - 1].1.len() as int)
    }
}

/// The value on the port `key` that the last of the first `upto` nodes
/// to write that port has written.
pub open spec fn last_output(outputs: OutputsView, key: Seq<char>, upto: int) -> Option<
    DataValueView,
>
    decreases upto,
{
    if upto <= 0 {
        None
    } else {
        match last_written(outputs[upto - 1].1, key, outputs[upto - 1].1.len() as int) {
            Some(v) => Some(v),
            None => last_output(outputs, key, upto - 1),
        }
    }
}

/// In the merged outputs a port holds the value of the last node that has
/// written it.
pub proof fn lemma_merged_lookup(outputs: OutputsView, upto: int, key: Seq<char>)
    requires
        0 <= upto <= outputs.len(),
    ensures
        lookup(merged(outputs, upto), key) == last_output(outputs, key, upto),
    decreases upto,
{
    if upto > 0 {
        lemma_merged_lookup(outputs, upto - 1, key);
        lemma_put_all_lookup(
            merged(outputs, upto - 1),
            outputs[upto - 1].1,
            outputs[upto - 1].1.len() as int,
            key,
        );
    } else {
        assert(keys_of(merged(outputs, upto)) =~= Seq::<Seq<char>>::empty());
        assert(!names_contain(keys_of(merged(outputs, upto)), key));
    }
}

/// What a run keeps: the pool of models, and the outputs of the nodes that
/// have run.
pub struct ExecutionContext {
    pub vram_pool: VramPool,
    pub outputs: Vec<(String, PortValues)>,
}

impl ExecutionContext {
    /// The outputs stored so far.
    pub open spec fn outputs(&self) -> OutputsView {
        Seq::new(
            self.outputs@.len(),
            |i: int| (self.outputs@[i].0@, ports_view(self.outputs@[i].1@)),
        )
    }

    /// A context with a pool of two slots and no outputs.
    pub fn new() -> (r: Self)
        ensures
            r.outputs() == Seq::<(Seq<char>, PortsView)>::empty(),
            r.vram_pool@.wf(),
            r.vram_pool@.capacity == 2,
            r.vram_pool@.cache.entries.len() == 0,
    {
        let r = Self { vram_pool: VramPool::new(2), outputs: Vec::new() };
        assert(r.outputs() =~= Seq::<(Seq<char>, PortsView)>::empty());
        r
    }

    /// The handle of a resident model, which then counts as used.
    pub fn get_model(&mut self, model_id: &ModelId) -> (r: Option<Arc<Model>>)
        requires
            old(self).vram_pool@.wf(),
        ensures
            final(self).vram_pool@.wf(),
            final(self).outputs() == old(self).outputs(),
            old(self).vram_pool@.resident(model_id@) ==> r == Some(
                old(self).vram_pool@.model_of(model_id@),
            ) && final(self).vram_pool@ == old(self).vram_pool@.touched(model_id@),
            !old(self).vram_pool@.resident(model_id@) ==> r is None && final(self).vram_pool@
                == old(self).vram_pool@,
    {
        self.vram_pool.get(model_id)
    }

    fn find(&self, node_id: &str) -> (r: Option<usize>)
        ensures
            match r {
                Some(i) => is_first_of(keys_of(self.outputs()), node_id@, i as int),
                None => !names_contain(keys_of(self.outputs()), node_id@),
            },
    {
        let mut i: usize = 0;
        while i < self.outputs.len()
            invariant
                i <= self.outputs.len(),
                forall|j: int| 0 <= j < i ==> keys_of(self.outputs())[j] != node_id@,
            decreases self.outputs.len() - i,
        {
            if text_eq(self.outputs[i].0.as_str(), node_id) {
                assert(keys_of(self.outputs())[i as int] == node_id@);
                return Some(i);
            }
            i = i + 1;
        }
        None
    }

    /// Stores the outputs of the node `node_id`, in the place of those it
    /// had stored before, if any.
    pub fn set_outputs(&mut self, node_id: String, outputs: PortValues)
        ensures
            final(self).outputs() == put(old(self).outputs(), node_id@, ports_view(outputs@)),
            final(self).vram_pool == old(self).vram_pool,
    {
        match self.find(node_id.as_str()) {
            Some(i) => {
                proof {
                    lemma_first_index(keys_of(self.outputs()), node_id@, i as int);
                }
                self.outputs.set(i, (node_id, outputs));
            },
            None => {
                self.outputs.push((node_id, outputs));
            },
        }
        assert(self.outputs() =~= put(old(self).outputs(), node_id@, ports_view(outputs@)));
    }

    /// Stores the outputs of the node `node_id`, as [`Self::set_outputs`]
    /// does.
    pub fn set_node_outputs(&mut self, node_id: String, outputs: PortValues)
        ensures
            final(self).outputs() == put(old(self).outputs(), node_id@, ports_view(outputs@)),
            final(self).vram_pool == old(self).vram_pool,
    {
        self.set_outputs(node_id, outputs);
    }

    /// The outputs that the node `node_id` has stored.
    pub fn get_outputs(&self, node_id: &str) -> (r: Option<&PortValues>)
        ensures
            match r {
                Some(ports) => lookup(self.outputs(), node_id@) == Some(ports_view(ports@)),
                None => lookup(self.outputs(), node_id@) is None,
            },
    {
        match self.find(node_id) {
            Some(i) => {
                proof {
                    lemma_first_index(keys_of(self.outputs()), node_id@, i as int);
                }
                Some(&self.outputs[i].1)
            },
            None => None,
        }
    }

    /// The outputs that the node `node_id` has stored, as
    /// [`Self::get_outputs`] gives them.
    pub fn get_node_outputs(&self, node_id: &str) -> (r: Option<&PortValues>)
        ensures
            match r {
                Some(ports) => lookup(self.outputs(), node_id@) == Some(ports_view(ports@)),
                None => lookup(self.outputs(), node_id@) is None,
            },
    {
        self.get_outputs(node_id)
    }

    /// The outputs of all nodes merged into one list of ports. Where two
    /// nodes write the same port, the value of the node that stored its
    /// outputs later stands.
    pub fn get_final_outputs(&self) -> (r: PortValues)
        ensures
            ports_view(r@) == merged(self.outputs(), self.outputs().len() as int),
    {
        let mut all: PortValues = Vec::new();
        assert(ports_view(all@) =~= merged(self.outputs(), 0));
        let mut i: usize = 0;
        while i < self.outputs.len()
            invariant
                i <= self.outputs.len(),
                ports_view(all@) == merged(self.outputs(), i as int),
            decreases self.outputs.len() - i,
        {
            put_ports(&mut all, &self.outputs[i].1);
            i = i + 1;
        }
        all
    }
}

} // verus!
