//! The typed method envelope: handler results as typed values, and their
//! conversion to and from the wire-level result-or-error union.

use vstd::prelude::*;

use crate::json_value::{Json, JsonValue};
use crate::jsonrpc_common::{error_JSON_RPC_InvalidResponse, RequestError};
use crate::jsonrpc_response::{ResponseResult, ResponseResultV};

verus! {

/// A type that has a JSON form.
pub trait ToJson: View {
    /// The JSON form of a value, in the model.
    spec fn json_of(v: Self::V) -> Json;

    /// Writes this value as JSON.
    fn to_json(&self) -> (r: JsonValue)
        ensures
            r@ == Self::json_of(self@),
    ;
}

/// A type that can be read back from JSON.
pub trait FromJson: View + Sized {
    /// Which JSON values denote a value of this type, in the model.
    spec fn of_json(j: Json) -> Option<Self::V>;

    /// Reads a value of this type from JSON; the message says why a value
    /// cannot be read.
    fn from_json(v: &JsonValue) -> (r: Result<Self, String>)
        ensures
            match r {
                Ok(x) => Self::of_json(v@) == Some(x@),
                Err(_) => Self::of_json(v@) is None,
            },
    ;
}

impl ToJson for String {
    open spec fn json_of(v: Seq<char>) -> Json {
        Json::Text(v)
    }

    fn to_json(&self) -> (r: JsonValue) {
        JsonValue::Text(self.clone())
    }
}

/// The exact text a failed string decode carries: the unexpected JSON type
/// is named, a map among them — the shape a handler's structured value
/// arrives in.
pub open spec fn string_decode_error(j: Json) -> Seq<char> {
    match j {
        Json::Null => "invalid type: null, expected a string"@,
        Json::Bool(_) => "invalid type: boolean, expected a string"@,
        Json::Int(_) => "invalid type: integer, expected a string"@,
        Json::Array(_) => "invalid type: sequence, expected a string"@,
        Json::Object(_) => "invalid type: map, expected a string"@,
        Json::Text(_) => Seq::empty(),
    }
}

impl FromJson for String {
    open spec fn of_json(j: Json) -> Option<Seq<char>> {
        match j {
            Json::Text(t) => Some(t),
            _ => None,
        }
    }

    fn from_json(v: &JsonValue) -> (r: Result<String, String>)
        ensures
            r matches Err(m) ==> m@ == string_decode_error(v@),
    {
        match v {
            JsonValue::Text(t) => Ok(t.clone()),
            JsonValue::Null => Err("invalid type: null, expected a string".to_owned()),
            JsonValue::Bool(_) => Err("invalid type: boolean, expected a string".to_owned()),
            JsonValue::Int(_) => Err("invalid type: integer, expected a string".to_owned()),
            JsonValue::Array(_) => Err("invalid type: sequence, expected a string".to_owned()),
            JsonValue::Object(_) => Err("invalid type: map, expected a string".to_owned()),
        }
    }
}

impl ToJson for () {
    open spec fn json_of(v: ()) -> Json {
        Json::Null
    }

    fn to_json(&self) -> (r: JsonValue) {
        JsonValue::Null
    }
}

impl FromJson for () {
    open spec fn of_json(j: Json) -> Option<()> {
        match j {
            Json::Null => Some(()),
            _ => None,
        }
    }

    fn from_json(v: &JsonValue) -> (r: Result<(), String>) {
        match v {
            JsonValue::Null => Ok(()),
            _ => Err("invalid type: expected null".to_owned()),
        }
    }
}

/// A typed handler error: a non-negative code, a message, and typed data.
#[derive(Debug, PartialEq)]
pub struct MethodError<DATA> {
    pub code: u32,
    pub message: String,
    pub data: DATA,
}

impl<DATA> MethodError<DATA> {
    /// A handler error from its parts.
    pub fn new(code: u32, msg: String, data: DATA) -> (r: Self)
        ensures
            r.code == code,
            r.message == msg,
            r.data == data,
    {
        MethodError { code, message: msg, data }
    }
}

/// What a typed handler returns: a value, or a typed error.
pub type MethodResult<RET, ERR> = Result<RET, MethodError<ERR>>;

impl ResponseResult {
    /// The wire form of a typed handler result: a value is serialized under
    /// `result`, an error keeps its code, message, and serialized data.
    pub fn from_method_result<RET: ToJson, ERR: ToJson>(mr: MethodResult<RET, ERR>) -> (r:
        ResponseResult)
        ensures
            match mr {
                Ok(ret) => r@ == ResponseResultV::Value(RET::json_of(ret@)),
                Err(e) => r@ matches ResponseResultV::Error(re) && re.code == e.code as int
                    && re.message == e.message@ && re.data == Some(ERR::json_of(e.data@)),
            },
    {
        match mr {
            Ok(ret) => ResponseResult::Value(ret.to_json()),
            Err(e) => {
                let request_error = RequestError {
                    code: e.code as i64,
                    message: e.message,
                    data: Some(e.data.to_json()),
                };
                ResponseResult::Error(request_error)
            },
        }
    }
}

/// What the client sees a response as: a typed method result, or the
/// request-level error that stands in its way.
#[derive(Debug, PartialEq)]
pub enum RequestResult<RET, RET_ERROR> {
    MethodResult(MethodResult<RET, RET_ERROR>),
    RequestError(RequestError),
}

impl<RET, RET_ERROR> RequestResult<RET, RET_ERROR> {
    /// The typed method result; the caller owes one.
    pub fn unwrap_result(self) -> (r: MethodResult<RET, RET_ERROR>)
        requires
            self is MethodResult,
        ensures
            self == RequestResult::<RET, RET_ERROR>::MethodResult(r),
    {
        match self {
            RequestResult::MethodResult(method_result) => method_result,
            RequestResult::RequestError(_) => {
                proof {
                    assert(false);
                }
                unreached()
            },
        }
    }

    /// The request-level error; the caller owes one.
    pub fn unwrap_error(self) -> (r: RequestError)
        requires
            self is RequestError,
        ensures
            self == RequestResult::<RET, RET_ERROR>::RequestError(r),
    {
        match self {
            RequestResult::RequestError(request_error) => request_error,
            RequestResult::MethodResult(_) => {
                proof {
                    assert(false);
                }
                unreached()
            },
        }
    }
}

impl<RET: FromJson, RET_ERROR> RequestResult<RET, RET_ERROR> {
    /// Reads a wire result as a typed one: a `result` value is decoded as
    /// `RET`, a decode failure becomes the synthetic invalid-response error,
    /// and a wire error passes through untouched.
    pub fn from_response_result(rr: ResponseResult) -> (r: RequestResult<RET, RET_ERROR>)
        ensures
            match rr@ {
                ResponseResultV::Value(v) => match RET::of_json(v) {
                    Some(xv) => r matches RequestResult::MethodResult(Ok(x)) && x@ == xv,
                    None => r matches RequestResult::RequestError(e) && e@.code == -32000
                        && e@.data is None && (exists|m: Seq<char>|
                        e@.message == "Invalid method response: "@ + m),
                },
                ResponseResultV::Error(e) => r matches RequestResult::RequestError(re) && re@ == e,
            },
    {
        match rr {
            ResponseResult::Value(result_value) => {
                match RET::from_json(&result_value) {
                    Ok(ok) => RequestResult::MethodResult(Ok(ok)),
                    Err(msg) => {
                        let e = error_JSON_RPC_InvalidResponse(msg.as_str());
                        proof {
                            assert(e@.message == "Invalid method response: "@ + msg@);
                        }
                        RequestResult::RequestError(e)
                    },
                }
            },
            ResponseResult::Error(error) => RequestResult::RequestError(error),
        }
    }
}

} // verus!
