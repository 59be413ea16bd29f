//! A JSON-RPC 2.0 wire layer: a JSON value model with a verified text codec,
//! the message data model (requests, responses, errors), a typed method-result
//! envelope, and the state machines behind a bidirectional endpoint.

pub mod codec_laws;
pub mod endpoint;
pub mod output_agent;
pub mod json_parse;
pub mod json_text;
pub mod jsonrpc_common;
pub mod jsonrpc_message;
pub mod jsonrpc_request;
pub mod jsonrpc_response;
pub mod method_types;
pub mod rpc_laws;
pub mod sample_types;
pub mod service_util;
pub mod json_value;
