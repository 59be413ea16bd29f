//! JSON-RPC 2.0 responses: the `Response` data model, its result-or-error
//! union, and the translation between responses and JSON values.

use vstd::prelude::*;

use crate::json_text::json_text;
use crate::json_value::{clone_json, view_members, Json, JsonValue};
use crate::jsonrpc_common::{
    error_of_json, error_to_json, id_of_json, id_to_json, msg_missing, msg_missing_x, msg_not,
    msg_not_x, obj_get, obj_lookup, Id, IdV, RequestError, RequestErrorV,
};
use crate::jsonrpc_request::{check_jsonrpc_field, check_jsonrpc_obj};

verus! {

/// The result-or-error part of a response: exactly one of the two stands on
/// the wire.
#[derive(Debug, Clone, PartialEq)]
pub enum ResponseResult {
    Value(JsonValue),
    Error(RequestError),
}

/// Mathematical model of a `ResponseResult`.
pub enum ResponseResultV {
    Value(Json),
    Error(RequestErrorV),
}

impl View for ResponseResult {
    type V = ResponseResultV;

    open spec fn view(&self) -> ResponseResultV {
        match self {
            ResponseResult::Value(v) => ResponseResultV::Value(v@),
            ResponseResult::Error(e) => ResponseResultV::Error(e@),
        }
    }
}

/// A JSON-RPC 2.0 response: an identifier, and a result or an error.
#[derive(Debug, Clone, PartialEq)]
pub struct Response {
    pub id: Id,
    pub result_or_error: ResponseResult,
}

/// Mathematical model of a `Response`.
pub struct ResponseV {
    pub id: IdV,
    pub result_or_error: ResponseResultV,
}

impl View for Response {
    type V = ResponseV;

    open spec fn view(&self) -> ResponseV {
        ResponseV { id: self.id@, result_or_error: self.result_or_error@ }
    }
}

/// How a response stands in JSON: the keys `jsonrpc`, `id`, and exactly one
/// of `result` or `error`, in that order.
pub open spec fn response_to_json(r: ResponseV) -> Json {
    Json::Object(
        seq![("jsonrpc"@, Json::Text("2.0"@)), ("id"@, id_to_json(r.id))]
            + match r.result_or_error {
            ResponseResultV::Value(v) => seq![("result"@, v)],
            ResponseResultV::Error(e) => seq![("error"@, error_to_json(e))],
        },
    )
}

/// Which objects denote a response, and the message when one does not.
/// Exactly one of `result` and `error` may be present: an object holding
/// both, or neither, is a decode failure.
pub open spec fn response_of_obj(m: Seq<(Seq<char>, Json)>) -> Result<ResponseV, Seq<char>> {
    match check_jsonrpc_obj(m) {
        Err(e) => Err(e),
        Ok(_) => match obj_lookup(m, "id"@) {
            None => Err(msg_missing("id"@)),
            Some(jid) => match id_of_json(jid) {
                None => Err(msg_not(json_text(jid), "an ID"@)),
                Some(id) => if obj_lookup(m, "result"@) is Some && obj_lookup(m, "error"@)
                    is Some {
                    Err("Both properties `result` and `error` are present"@)
                } else {
                    match obj_lookup(m, "result"@) {
                        Some(v) => Ok(
                            ResponseV { id, result_or_error: ResponseResultV::Value(v) },
                        ),
                        None => match obj_lookup(m, "error"@) {
                            Some(ej) => match error_of_json(ej) {
                                Ok(e) => Ok(
                                    ResponseV { id, result_or_error: ResponseResultV::Error(e) },
                                ),
                                Err(msg) => Err(msg),
                            },
                            None => Err("Missing property `result` or `error`"@),
                        },
                    }
                },
            },
        },
    }
}

/// Which JSON values denote a response.
pub open spec fn response_of_json(j: Json) -> Result<ResponseV, Seq<char>> {
    match j {
        Json::Object(m) => response_of_obj(m),
        _ => Err(msg_not(json_text(j), "an Object"@)),
    }
}

impl Response {
    /// A response carrying a result value.
    pub fn new_result(id: Id, result: JsonValue) -> (r: Response)
        ensures
            r@.id == id@,
            r@.result_or_error == ResponseResultV::Value(result@),
    {
        Response { id, result_or_error: ResponseResult::Value(result) }
    }

    /// A response carrying an error.
    pub fn new_error(id: Id, error: RequestError) -> (r: Response)
        ensures
            r@.id == id@,
            r@.result_or_error == ResponseResultV::Error(error@),
    {
        Response { id, result_or_error: ResponseResult::Error(error) }
    }

    /// The JSON value this response is written as.
    pub fn to_json(&self) -> (r: JsonValue)
        ensures
            r@ == response_to_json(self@),
    {
        let mut m: Vec<(String, JsonValue)> = Vec::new();
        m.push(("jsonrpc".to_owned(), JsonValue::Text("2.0".to_owned())));
        m.push(("id".to_owned(), self.id.to_json()));
        match &self.result_or_error {
            ResponseResult::Value(v) => {
                m.push(("result".to_owned(), clone_json(v)));
            },
            ResponseResult::Error(e) => {
                m.push(("error".to_owned(), e.to_json()));
            },
        }
        proof {
            let ms = m@;
            crate::json_value::lemma_view_members_len(ms);
            assert forall|k: int| 0 <= k < ms.len() implies view_members(ms)[k] == (
            ms[k].0@,
            ms[k].1@,
            ) by {
                crate::json_value::lemma_view_members_index(ms, k);
            }
            assert(view_members(ms) =~= response_to_json(self@)->Object_0);
        }
        JsonValue::Object(m)
    }

    /// Reads a response back from a JSON value; the message names the first
    /// property that is missing or of the wrong type.
    pub fn from_json(v: &JsonValue) -> (r: Result<Response, String>)
        ensures
            match r {
                Ok(resp) => response_of_json(v@) == Ok::<ResponseV, Seq<char>>(resp@),
                Err(m) => response_of_json(v@) == Err::<ResponseV, Seq<char>>(m@),
            },
    {
        let m = match v {
            JsonValue::Object(m) => m,
            _ => {
                return Err(msg_not_x(v, "an Object"));
            },
        };
        match check_jsonrpc_field(m) {
            Err(e) => {
                return Err(e);
            },
            Ok(_) => {},
        }
        let id_key = "id".to_owned();
        let id: Id = match obj_get(m, &id_key) {
            None => {
                return Err(msg_missing_x("id"));
            },
            Some(jid) => {
                match Id::from_json(jid) {
                    Ok(parsed) => parsed,
                    Err(e) => {
                        return Err(e);
                    },
                }
            },
        };
        let result_key = "result".to_owned();
        let error_key = "error".to_owned();
        let found_result = obj_get(m, &result_key);
        let found_error = obj_get(m, &error_key);
        if found_result.is_some() && found_error.is_some() {
            return Err("Both properties `result` and `error` are present".to_owned());
        }
        match found_result {
            Some(rv) => Ok(Response { id, result_or_error: ResponseResult::Value(clone_json(rv)) }),
            None => {
                match found_error {
                    Some(ej) => {
                        match RequestError::from_json(ej) {
                            Ok(e) => Ok(
                                Response { id, result_or_error: ResponseResult::Error(e) },
                            ),
                            Err(msg) => Err(msg),
                        }
                    },
                    None => Err("Missing property `result` or `error`".to_owned()),
                }
            },
        }
    }
}

impl Response {
    /// The JSON text this response is written as.
    pub fn to_json_text(&self) -> (r: String)
        ensures
            r@ == json_text(response_to_json(self@)),
    {
        let v = self.to_json();
        crate::json_text::json_to_text(&v)
    }

    /// Reads a response from JSON text.
    pub fn from_json_text(s: &str) -> (r: Result<Response, String>)
        ensures
            match r {
                Ok(resp) => crate::json_parse::parse_json_spec(s@) matches Some(j)
                    && response_of_json(j) == Ok::<ResponseV, Seq<char>>(resp@),
                Err(m) => match crate::json_parse::parse_json_spec(s@) {
                    None => crate::json_parse::parse_json_error(s@, m@),
                    Some(j) => response_of_json(j) == Err::<ResponseV, Seq<char>>(m@),
                },
            },
    {
        match crate::json_parse::parse_json(s) {
            Err(e) => Err(e),
            Ok(v) => Response::from_json(&v),
        }
    }
}

impl ResponseResult {
    /// The result value; the caller owes a result, not an error.
    pub fn unwrap_result(self) -> (r: JsonValue)
        requires
            self is Value,
        ensures
            self@ == ResponseResultV::Value(r@),
    {
        match self {
            ResponseResult::Value(v) => v,
            ResponseResult::Error(_) => {
                proof {
                    assert(false);
                }
                unreached()
            },
        }
    }

    /// A response carrying an error.
    pub fn new_error(id: Id, error: RequestError) -> (r: Response)
        ensures
            r@.id == id@,
            r@.result_or_error == ResponseResultV::Error(error@),
    {
        Response { id, result_or_error: ResponseResult::Error(error) }
    }
}

} // verus!
