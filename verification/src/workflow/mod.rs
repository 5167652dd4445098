//! Workflows: their graphs, their validation and their execution.

pub mod context;
pub mod executor;
pub mod nodes;
pub mod order;
pub mod serialization;
pub mod validator;

pub use context::{ExecutionContext, PortValues};
pub use executor::{ExecutionResult, WorkflowError, WorkflowErrorView, WorkflowExecutor};
pub use serialization::{EdgeData, NodeData, WorkflowData};
pub use validator::{detect_cycles, has_cycle, validate_type_match};
