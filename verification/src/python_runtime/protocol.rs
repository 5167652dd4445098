use std::collections::HashMap;
use vstd::prelude::*;

verus! {

/// `Value` of serde_json: any JSON value. The library hands such values on
/// and never looks into them.
#[verifier::external_type_specification]
#[verifier::external_body]
pub struct ExJsonValue(serde_json::Value);

/// A request to run the code of one node.
#[derive(Debug, PartialEq)]
pub struct ExecuteRequest {
    pub node_id: String,
    pub code: String,
    pub inputs: HashMap<String, serde_json::Value>,
}

/// The answer to an [`ExecuteRequest`].
#[derive(Debug, Clone, PartialEq)]
pub struct ExecuteResponse {
    pub success: bool,
    pub outputs: HashMap<String, serde_json::Value>,
    pub error: Option<String>,
}

/// The parameters of the one method that workers offer.
#[derive(Debug, PartialEq)]
pub struct ExecuteParams {
    pub code: String,
    pub inputs: HashMap<String, serde_json::Value>,
}

/// A request as it goes to a worker, one to a line.
#[derive(Debug, PartialEq)]
pub struct JsonRpcRequest {
    /// The version of the protocol, `2.0`.
    pub jsonrpc: String,
    /// The method, `execute_python`.
    pub method: String,
    pub params: ExecuteParams,
    pub id: u64,
}

/// A response as it comes from a worker, one to a line.
#[derive(Debug, PartialEq)]
pub struct JsonRpcResponse {
    pub jsonrpc: String,
    pub result: Option<serde_json::Value>,
    pub error: Option<JsonRpcError>,
    pub id: u64,
}

/// The error of a response.
#[derive(Debug, PartialEq)]
pub struct JsonRpcError {
    pub code: i32,
    pub message: String,
    pub data: Option<serde_json::Value>,
}

/// What a script has computed.
#[derive(Debug, Clone, PartialEq)]
pub struct ExecutionResult {
    pub outputs: HashMap<String, serde_json::Value>,
    pub success: bool,
    pub error: Option<String>,
}

} // verus!
