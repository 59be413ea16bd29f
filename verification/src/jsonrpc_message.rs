//! The JSON-RPC 2.0 message union, and the text codec for whole messages.
//!
//! An incoming object holding a `method` key is read as a request, any other
//! object as a response.

use vstd::prelude::*;

use crate::json_parse::{parse_json, parse_json_spec};
use crate::json_text::{json_text, json_to_text};
use crate::json_value::{Json, JsonValue};
use crate::jsonrpc_common::{
    error_JSON_RPC_InvalidRequest, error_JSON_RPC_ParseError, msg_not, msg_not_x, obj_lookup,
    RequestError,
};
use crate::jsonrpc_request::{request_of_obj, request_to_json, Request, RequestV};
use crate::jsonrpc_response::{response_of_obj, response_to_json, Response, ResponseV};

verus! {

/// A message on the wire: a request or a response.
#[derive(Debug, Clone, PartialEq)]
pub enum Message {
    Request(Request),
    Response(Response),
}

/// Mathematical model of a `Message`.
pub enum MessageV {
    Request(RequestV),
    Response(ResponseV),
}

impl View for Message {
    type V = MessageV;

    open spec fn view(&self) -> MessageV {
        match self {
            Message::Request(r) => MessageV::Request(r@),
            Message::Response(r) => MessageV::Response(r@),
        }
    }
}

/// How a message stands in JSON.
pub open spec fn message_to_json(m: MessageV) -> Json {
    match m {
        MessageV::Request(r) => request_to_json(r),
        MessageV::Response(r) => response_to_json(r),
    }
}

/// Which JSON values denote a message: an object with a `method` key is a
/// request, any other object a response.
pub open spec fn message_of_json(j: Json) -> Result<MessageV, Seq<char>> {
    match j {
        Json::Object(m) => if obj_lookup(m, "method"@) is Some {
            match request_of_obj(m) {
                Ok(r) => Ok(MessageV::Request(r)),
                Err(e) => Err(e),
            }
        } else {
            match response_of_obj(m) {
                Ok(r) => Ok(MessageV::Response(r)),
                Err(e) => Err(e),
            }
        },
        _ => Err(msg_not(json_text(j), "an Object"@)),
    }
}

impl Message {
    /// The JSON value this message is written as.
    pub fn to_json(&self) -> (r: JsonValue)
        ensures
            r@ == message_to_json(self@),
    {
        match self {
            Message::Request(req) => req.to_json(),
            Message::Response(resp) => resp.to_json(),
        }
    }

    /// Reads a message back from a JSON value.
    pub fn from_json(v: &JsonValue) -> (r: Result<Message, String>)
        ensures
            match r {
                Ok(m) => message_of_json(v@) == Ok::<MessageV, Seq<char>>(m@),
                Err(e) => message_of_json(v@) == Err::<MessageV, Seq<char>>(e@),
            },
    {
        let m = match v {
            JsonValue::Object(m) => m,
            _ => {
                return Err(msg_not_x(v, "an Object"));
            },
        };
        let method_key = "method".to_owned();
        match crate::jsonrpc_common::obj_get(m, &method_key) {
            Some(_) => {
                match Request::from_json(v) {
                    Ok(r) => Ok(Message::Request(r)),
                    Err(e) => Err(e),
                }
            },
            None => {
                match Response::from_json(v) {
                    Ok(r) => Ok(Message::Response(r)),
                    Err(e) => Err(e),
                }
            },
        }
    }

    /// The wire text of this message.
    pub fn to_json_text(&self) -> (r: String)
        ensures
            r@ == json_text(message_to_json(self@)),
    {
        let v = self.to_json();
        json_to_text(&v)
    }

    /// Reads a message from wire text; the message says what was wrong with
    /// texts that denote no message.
    pub fn from_json_text(s: &str) -> (r: Result<Message, String>)
        ensures
            match r {
                Ok(m) => parse_json_spec(s@) matches Some(j) && message_of_json(j) == Ok::<
                    MessageV,
                    Seq<char>,
                >(m@),
                Err(e) => match parse_json_spec(s@) {
                    None => crate::json_parse::parse_json_error(s@, e@),
                    Some(j) => message_of_json(j) == Err::<MessageV, Seq<char>>(e@),
                },
            },
            r is Ok <==> (parse_json_spec(s@) matches Some(j) && message_of_json(j) is Ok),
    {
        match parse_json(s) {
            Err(e) => Err(e),
            Ok(v) => Message::from_json(&v),
        }
    }
}

/// Encodes one message for the wire.
pub fn encode_message(m: &Message) -> (r: String)
    ensures
        r@ == json_text(message_to_json(m@)),
{
    m.to_json_text()
}

/// Decodes one framed payload. Text that is not JSON yields the parse error;
/// JSON of the wrong shape yields the invalid-request error.
pub fn decode_message(s: &str) -> (r: Result<Message, RequestError>)
    ensures
        match parse_json_spec(s@) {
            None => r matches Err(e) && e@.code == -32700 && (exists|pm: Seq<char>|
                crate::json_parse::parse_json_error(s@, pm) && e@.message
                    == "Invalid JSON was received by the server: "@ + pm),
            Some(j) => match message_of_json(j) {
                Ok(mv) => r matches Ok(m) && m@ == mv,
                Err(msg) => r matches Err(e) && e@.code == -32600 && e@.message
                    == "The JSON sent is not a valid Request object: "@ + msg,
            },
        },
{
    match parse_json(s) {
        Err(e) => {
            let re = error_JSON_RPC_ParseError(e.as_str());
            proof {
                assert(re@.message == "Invalid JSON was received by the server: "@ + e@);
            }
            Err(re)
        },
        Ok(v) => {
            match Message::from_json(&v) {
                Ok(m) => Ok(m),
                Err(msg) => Err(error_JSON_RPC_InvalidRequest(msg.as_str())),
            }
        },
    }
}

} // verus!
