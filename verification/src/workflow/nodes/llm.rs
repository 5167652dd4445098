use vstd::prelude::*;
use vstd::string::StringExecFns;

use crate::parameter::dynamic_port::{DynamicPorts, Port};
use crate::types::{DataType, DataTypeView};
use crate::types::names::put;
use crate::workflow::context::ExecutionContext;
use crate::workflow::nodes::input::{no_ports, single_port};

verus! {

/// What the model `model_id` answers to `prompt`.
pub open spec fn model_reply(model_id: Seq<char>, prompt: Seq<char>) -> Seq<char> {
    "[模型"@ + model_id + "响应] 你输入了: "@ + prompt
}

/// A node that puts a prompt to a model.
pub struct LLMNode {
    pub model_id: String,
    pub ports: DynamicPorts,
}

impl LLMNode {
    /// A node for the model `model_id`, with the input port `prompt` and
    /// the output port `response`.
    pub fn new(model_id: &str) -> (r: Self)
        ensures
            r.model_id@ == model_id@,
            r.ports.inputs() == put(
                no_ports(),
                "prompt"@,
                single_port("prompt"@, DataTypeView::Text),
            ),
            r.ports.outputs() == put(
                no_ports(),
                "response"@,
                single_port("response"@, DataTypeView::Text),
            ),
    {
        let mut ports = DynamicPorts::new();
        ports.add_input(
            Port { id: "prompt".to_owned(), data_type: DataType::Text, multiple: false },
        );
        ports.add_output(
            Port { id: "response".to_owned(), data_type: DataType::Text, multiple: false },
        );
        Self { model_id: model_id.to_owned(), ports }
    }

    /// The model's answer to `prompt`.
    pub fn execute(&self, prompt: &str, _ctx: &ExecutionContext) -> (r: String)
        ensures
            r@ == model_reply(self.model_id@, prompt@),
    {
        let mut reply = String::from_str("[模型");
        reply.append(self.model_id.as_str());
        reply.append("响应] 你输入了: ");
        reply.append(prompt);
        reply
    }
}

} // verus!
