//! Script workers: the pool of worker processes and the protocol spoken
//! with them.

pub mod executor;
pub mod manager;
pub mod protocol;

pub use executor::{CallEvent, CallPlan, PythonError, PythonExecutor, ScriptOutputs, Settlement};
pub use manager::{Lease, ManagerView, PythonManager, PythonManagerError, PythonProcess};
pub use protocol::{
    ExecuteParams, ExecuteRequest, ExecuteResponse, ExecutionResult, JsonRpcError, JsonRpcRequest,
    JsonRpcResponse,
};
