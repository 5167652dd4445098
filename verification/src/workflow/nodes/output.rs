use vstd::prelude::*;

use crate::parameter::dynamic_port::{DynamicPorts, Port};
use crate::types::{DataType, DataTypeView};
use crate::types::names::put;
use crate::workflow::nodes::input::{no_ports, single_port};

verus! {

/// A node that keeps the text that the workflow ends with.
pub struct TextOutputNode {
    pub ports: DynamicPorts,
    pub result: Option<String>,
}

impl Default for TextOutputNode {
    fn default() -> Self {
        Self::new()
    }
}

impl TextOutputNode {
    /// A node that has kept nothing yet, with the one input port `text`.
    pub fn new() -> (r: Self)
        ensures
            r.result is None,
            r.ports.outputs() == no_ports(),
            r.ports.inputs() == put(no_ports(), "text"@, single_port("text"@, DataTypeView::Text)),
    {
        let mut ports = DynamicPorts::new();
        ports.add_input(Port { id: "text".to_owned(), data_type: DataType::Text, multiple: false });
        Self { ports, result: None }
    }

    /// Keeps `input` as the result.
    pub fn execute(&mut self, input: &str)
        ensures
            final(self).result is Some,
            final(self).result->0@ == input@,
            final(self).ports == old(self).ports,
    {
        self.result = Some(input.to_owned());
    }
}

} // verus!
