//! The nodes that a workflow is made of.

pub mod input;
pub mod llm;
pub mod lora_switch;
pub mod output;

pub use input::TextInputNode;
pub use llm::LLMNode;
pub use lora_switch::LoRASwitchNode;
pub use output::TextOutputNode;
