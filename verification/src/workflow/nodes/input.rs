use vstd::prelude::*;

use crate::parameter::dynamic_port::{DynamicPorts, Port, PortView};
use crate::types::{DataType, DataTypeView};
use crate::types::names::put;

verus! {

/// A port for one text.
pub open spec fn single_port(id: Seq<char>, data_type: DataTypeView) -> PortView {
    PortView { id, data_type, multiple: false }
}

/// No ports.
pub open spec fn no_ports() -> Seq<(Seq<char>, PortView)> {
    Seq::empty()
}

/// A node that feeds a text into the workflow.
pub struct TextInputNode {
    pub text: String,
    pub ports: DynamicPorts,
}

impl TextInputNode {
    /// A node that feeds `text`, with the one output port `text`.
    pub fn new(text: &str) -> (r: Self)
        ensures
            r.text@ == text@,
            r.ports.inputs() == no_ports(),
            r.ports.outputs() == put(
                no_ports(),
                "text"@,
                single_port("text"@, DataTypeView::Text),
            ),
    {
        let mut ports = DynamicPorts::new();
        ports.add_output(
            Port { id: "text".to_owned(), data_type: DataType::Text, multiple: false },
        );
        Self { text: text.to_owned(), ports }
    }

    /// The text that the node feeds.
    pub fn execute(&self) -> (r: String)
        ensures
            r@ == self.text@,
    {
        self.text.clone()
    }
}

} // verus!
