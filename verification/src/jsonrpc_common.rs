//! Common JSON-RPC 2.0 pieces: the correlation `Id`, the `RequestError`
//! taxonomy, and helpers for reading JSON objects field by field.

use vstd::prelude::*;
use vstd::string::StringExecFns;

use crate::json_text::{json_text, json_to_text};
use crate::json_value::{Json, JsonValue, view_members};

verus! {

/// Looks a key up in an object's members. The last occurrence wins, as in a
/// map built by inserting the members in order.
pub open spec fn obj_lookup(m: Seq<(Seq<char>, Json)>, key: Seq<char>) -> Option<Json>
    decreases m,
{
    if m.len() == 0 {
        None
    } else if m.last().0 == key {
        Some(m.last().1)
    } else {
        obj_lookup(m.drop_last(), key)
    }
}

/// Looks a key up in an object's members; the last occurrence wins.
pub fn obj_get<'a>(m: &'a Vec<(String, JsonValue)>, key: &String) -> (r: Option<&'a JsonValue>)
    ensures
        match r {
            Some(v) => obj_lookup(view_members(m@), key@) == Some(v@),
            None => obj_lookup(view_members(m@), key@) is None,
        },
{
    proof {
        assert(view_members(m@.take(0)) =~= Seq::<(Seq<char>, Json)>::empty());
    }
    let mut found: Option<usize> = None;
    let mut i: usize = 0;
    while i < m.len()
        invariant
            i <= m@.len(),
            match found {
                Some(k) => k < i && m@[k as int].0@ == key@ && obj_lookup(
                    view_members(m@.take(i as int)),
                    key@,
                ) == Some(m@[k as int].1@),
                None => obj_lookup(view_members(m@.take(i as int)), key@) is None,
            },
        decreases m@.len() - i,
    {
        proof {
            crate::json_value::lemma_view_members_push(
                m@.take(i as int),
                m@[i as int].0,
                m@[i as int].1,
            );
            assert(m@.take(i as int + 1) =~= m@.take(i as int).push(m@[i as int]));
            assert(view_members(m@.take(i as int + 1)).drop_last() =~= view_members(
                m@.take(i as int),
            ));
        }
        if m[i].0 == *key {
            found = Some(i);
        }
        i = i + 1;
    }
    proof {
        assert(m@.take(m@.len() as int) =~= m@);
    }
    match found {
        Some(k) => Some(&m[k].1),
        None => None,
    }
}

/// The message for a property that an object does not hold.
pub open spec fn msg_missing(prop: Seq<char>) -> Seq<char> {
    "Property `"@ + prop + "` is missing."@
}

/// The message for a value of the wrong JSON type; `what` names the expected
/// type with its article, as in `a String`.
pub open spec fn msg_not(vtext: Seq<char>, what: Seq<char>) -> Seq<char> {
    "Value `"@ + vtext + "` is not "@ + what + "."@
}

pub fn msg_missing_x(prop: &str) -> (r: String)
    ensures
        r@ == msg_missing(prop@),
{
    let mut s = "Property `".to_owned();
    s.append(prop);
    s.append("` is missing.");
    s
}

pub fn msg_not_x(v: &JsonValue, what: &str) -> (r: String)
    ensures
        r@ == msg_not(json_text(v@), what@),
{
    let mut s = "Value `".to_owned();
    let vt = json_to_text(v);
    s.append(vt.as_str());
    s.append("` is not ");
    s.append(what);
    s.append(".");
    s
}

/// A JSON-RPC correlation identifier: a number, a string, or null.
/// Only unsigned 64-bit numeric identifiers are supported.
#[derive(Debug, Clone, PartialEq, Eq, Hash)]
pub enum Id {
    Number(u64),
    Text(String),
    Null,
}

/// Mathematical model of an `Id`.
pub enum IdV {
    Number(u64),
    Text(Seq<char>),
    Null,
}

impl View for Id {
    type V = IdV;

    open spec fn view(&self) -> IdV {
        match self {
            Id::Number(n) => IdV::Number(*n),
            Id::Text(s) => IdV::Text(s@),
            Id::Null => IdV::Null,
        }
    }
}

/// How an `Id` stands in JSON: a number, a string, or null.
pub open spec fn id_to_json(id: IdV) -> Json {
    match id {
        IdV::Number(n) => Json::Int(n as int),
        IdV::Text(t) => Json::Text(t),
        IdV::Null => Json::Null,
    }
}

/// Which JSON values denote an `Id`.
pub open spec fn id_of_json(j: Json) -> Option<IdV> {
    match j {
        Json::Int(n) => if 0 <= n <= u64::MAX {
            Some(IdV::Number(n as u64))
        } else {
            None
        },
        Json::Text(t) => Some(IdV::Text(t)),
        Json::Null => Some(IdV::Null),
        _ => None,
    }
}

impl Id {
    /// The JSON value this identifier is written as.
    pub fn to_json(&self) -> (r: JsonValue)
        ensures
            r@ == id_to_json(self@),
    {
        match self {
            Id::Number(n) => JsonValue::Int(*n as i128),
            Id::Text(s) => JsonValue::Text(s.clone()),
            Id::Null => JsonValue::Null,
        }
    }

    /// Reads an identifier back from a JSON value.
    pub fn from_json(v: &JsonValue) -> (r: Result<Id, String>)
        ensures
            match r {
                Ok(id) => id_of_json(v@) == Some(id@),
                Err(m) => id_of_json(v@) is None && m@ == msg_not(json_text(v@), "an ID"@),
            },
    {
        match v {
            JsonValue::Int(n) => {
                if 0 <= *n && *n <= 0xffff_ffff_ffff_ffffi128 {
                    Ok(Id::Number(*n as u64))
                } else {
                    Err(msg_not_x(v, "an ID"))
                }
            },
            JsonValue::Text(s) => Ok(Id::Text(s.clone())),
            JsonValue::Null => Ok(Id::Null),
            _ => Err(msg_not_x(v, "an ID")),
        }
    }
}

impl Id {
    /// The JSON text this identifier is written as.
    pub fn to_json_text(&self) -> (r: String)
        ensures
            r@ == json_text(id_to_json(self@)),
    {
        let v = self.to_json();
        json_to_text(&v)
    }

    /// Reads an identifier from JSON text.
    pub fn from_json_text(s: &str) -> (r: Result<Id, String>)
        ensures
            match r {
                Ok(id) => crate::json_parse::parse_json_spec(s@) matches Some(j) && id_of_json(j)
                    == Some(id@),
                Err(m) => match crate::json_parse::parse_json_spec(s@) {
                    None => crate::json_parse::parse_json_error(s@, m@),
                    Some(j) => id_of_json(j) is None && m@ == msg_not(json_text(j), "an ID"@),
                },
            },
            r is Ok <==> (crate::json_parse::parse_json_spec(s@) matches Some(j) && id_of_json(j)
                is Some),
    {
        match crate::json_parse::parse_json(s) {
            Err(e) => Err(e),
            Ok(v) => Id::from_json(&v),
        }
    }
}

/// A JSON-RPC error object: a code, a message, and optional data.
#[derive(Debug, Clone, PartialEq)]
pub struct RequestError {
    pub code: i64,
    pub message: String,
    pub data: Option<JsonValue>,
}

/// Mathematical model of a `RequestError`.
pub struct RequestErrorV {
    pub code: int,
    pub message: Seq<char>,
    pub data: Option<Json>,
}

impl View for RequestError {
    type V = RequestErrorV;

    open spec fn view(&self) -> RequestErrorV {
        RequestErrorV {
            code: self.code as int,
            message: self.message@,
            data: match self.data {
                Some(d) => Some(d@),
                None => None,
            },
        }
    }
}

impl RequestError {
    /// An error with a code and a message, and no data.
    pub fn new(code: i64, message: String) -> (r: RequestError)
        ensures
            r@.code == code as int,
            r@.message == message@,
            r@.data is None,
    {
        RequestError { code, message, data: None }
    }
}

/// The result of reading a JSON-RPC value: the value, or the error to report.
pub type JsonRpcParseResult<T> = Result<T, RequestError>;

/// Error `-32700`: the peer sent text that is not JSON.
#[allow(non_snake_case)]
pub fn error_JSON_RPC_ParseError(error: &str) -> (r: RequestError)
    ensures
        r@.code == -32700,
        r@.message == "Invalid JSON was received by the server: "@ + error@,
        r@.data is None,
{
    RequestError::new(-32700, "Invalid JSON was received by the server: ".to_owned().concat(error))
}

/// Error `-32600`: the JSON sent is not a valid request object.
#[allow(non_snake_case)]
pub fn error_JSON_RPC_InvalidRequest(error: &str) -> (r: RequestError)
    ensures
        r@.code == -32600,
        r@.message == "The JSON sent is not a valid Request object: "@ + error@,
        r@.data is None,
{
    RequestError::new(
        -32600,
        "The JSON sent is not a valid Request object: ".to_owned().concat(error),
    )
}

/// Error `-32601`: the requested method does not exist.
#[allow(non_snake_case)]
pub fn error_JSON_RPC_MethodNotFound() -> (r: RequestError)
    ensures
        r@.code == -32601,
        r@.message == "The method does not exist / is not available."@,
        r@.data is None,
{
    RequestError::new(-32601, "The method does not exist / is not available.".to_owned())
}

/// Error `-32602`: the method parameters are invalid.
#[allow(non_snake_case)]
pub fn error_JSON_RPC_InvalidParams(error: &str) -> (r: RequestError)
    ensures
        r@.code == -32602,
        r@.message == "Invalid method parameter(s): "@ + error@,
        r@.data is None,
{
    RequestError::new(-32602, "Invalid method parameter(s): ".to_owned().concat(error))
}

/// Error `-32603`: an internal JSON-RPC error.
#[allow(non_snake_case)]
pub fn error_JSON_RPC_InternalError() -> (r: RequestError)
    ensures
        r@.code == -32603,
        r@.message == "Internal JSON-RPC error."@,
        r@.data is None,
{
    RequestError::new(-32603, "Internal JSON-RPC error.".to_owned())
}

/// Error `-32000`: the response to one of our requests cannot be read.
/// This error is synthesized on the client side and never sent on the wire.
#[allow(non_snake_case)]
pub fn error_JSON_RPC_InvalidResponse(error: &str) -> (r: RequestError)
    ensures
        r@.code == -32000,
        r@.message == "Invalid method response: "@ + error@,
        r@.data is None,
{
    RequestError::new(-32000, "Invalid method response: ".to_owned().concat(error))
}

/// How an error stands in JSON: the keys `code`, `message`, and `data` only
/// when present, in that order.
pub open spec fn error_to_json(e: RequestErrorV) -> Json {
    Json::Object(
        seq![("code"@, Json::Int(e.code)), ("message"@, Json::Text(e.message))] + match e.data {
            Some(d) => seq![("data"@, d)],
            None => Seq::empty(),
        },
    )
}

/// Which JSON values denote an error object.
pub open spec fn error_of_json(j: Json) -> Result<RequestErrorV, Seq<char>> {
    match j {
        Json::Object(m) => match obj_lookup(m, "code"@) {
            None => Err(msg_missing("code"@)),
            Some(Json::Int(c)) => if i64::MIN <= c <= i64::MAX {
                match obj_lookup(m, "message"@) {
                    None => Err(msg_missing("message"@)),
                    Some(Json::Text(t)) => Ok(
                        RequestErrorV { code: c, message: t, data: obj_lookup(m, "data"@) },
                    ),
                    Some(other) => Err(msg_not(json_text(other), "a String"@)),
                }
            } else {
                Err(msg_not(json_text(Json::Int(c)), "an Int64"@))
            },
            Some(other) => Err(msg_not(json_text(other), "an Int64"@)),
        },
        _ => Err(msg_not(json_text(j), "an Object"@)),
    }
}

impl RequestError {
    /// The JSON value this error is written as.
    pub fn to_json(&self) -> (r: JsonValue)
        ensures
            r@ == error_to_json(self@),
    {
        let mut m: Vec<(String, JsonValue)> = Vec::new();
        m.push(("code".to_owned(), JsonValue::Int(self.code as i128)));
        m.push(("message".to_owned(), JsonValue::Text(self.message.clone())));
        match &self.data {
            Some(d) => {
                m.push(("data".to_owned(), crate::json_value::clone_json(d)));
            },
            None => {},
        }
        proof {
            let ms = m@;
            crate::json_value::lemma_view_members_len(ms);
            assert forall|k: int| 0 <= k < ms.len() implies view_members(ms)[k] == (
            ms[k].0@,
            ms[k].1@,
            ) by {
                crate::json_value::lemma_view_members_index(ms, k);
            }
            assert(view_members(ms) =~= error_to_json(self@)->Object_0);
        }
        JsonValue::Object(m)
    }

    /// Reads an error object back from a JSON value.
    pub fn from_json(v: &JsonValue) -> (r: Result<RequestError, String>)
        ensures
            match r {
                Ok(e) => error_of_json(v@) == Ok::<RequestErrorV, Seq<char>>(e@),
                Err(m) => error_of_json(v@) == Err::<RequestErrorV, Seq<char>>(m@),
            },
    {
        let m = match v {
            JsonValue::Object(m) => m,
            _ => {
                return Err(msg_not_x(v, "an Object"));
            },
        };
        let code_key = "code".to_owned();
        let code: i64 = match obj_get(m, &code_key) {
            None => {
                return Err(msg_missing_x("code"));
            },
            Some(cj) => {
                match cj {
                    JsonValue::Int(c) => {
                        if -0x8000_0000_0000_0000i128 <= *c && *c <= 0x7fff_ffff_ffff_ffffi128 {
                            *c as i64
                        } else {
                            return Err(msg_not_x(cj, "an Int64"));
                        }
                    },
                    _ => {
                        return Err(msg_not_x(cj, "an Int64"));
                    },
                }
            },
        };
        let message_key = "message".to_owned();
        let message: String = match obj_get(m, &message_key) {
            None => {
                return Err(msg_missing_x("message"));
            },
            Some(mj) => {
                match mj {
                    JsonValue::Text(t) => t.clone(),
                    _ => {
                        return Err(msg_not_x(mj, "a String"));
                    },
                }
            },
        };
        let data_key = "data".to_owned();
        let data: Option<JsonValue> = match obj_get(m, &data_key) {
            None => None,
            Some(d) => Some(crate::json_value::clone_json(d)),
        };
        Ok(RequestError { code, message, data })
    }
}

impl RequestError {
    /// The JSON text this error is written as.
    pub fn to_json_text(&self) -> (r: String)
        ensures
            r@ == json_text(error_to_json(self@)),
    {
        let v = self.to_json();
        json_to_text(&v)
    }

    /// Reads an error object from JSON text.
    pub fn from_json_text(s: &str) -> (r: Result<RequestError, String>)
        ensures
            match r {
                Ok(e) => crate::json_parse::parse_json_spec(s@) matches Some(j) && error_of_json(j)
                    == Ok::<RequestErrorV, Seq<char>>(e@),
                Err(m) => match crate::json_parse::parse_json_spec(s@) {
                    None => crate::json_parse::parse_json_error(s@, m@),
                    Some(j) => error_of_json(j) == Err::<RequestErrorV, Seq<char>>(m@),
                },
            },
    {
        match crate::json_parse::parse_json(s) {
            Err(e) => Err(e),
            Ok(v) => RequestError::from_json(&v),
        }
    }
}

/// Which JSON values denote an optional `Id` as carried by a request: null
/// stands for no identifier at all.
pub open spec fn opt_id_of_json(j: Json) -> Option<Option<IdV>> {
    match j {
        Json::Null => Some(None),
        _ => match id_of_json(j) {
            Some(id) => Some(Some(id)),
            None => None,
        },
    }
}

/// The view of an optional identifier.
pub open spec fn view_opt_id(o: Option<Id>) -> Option<IdV> {
    match o {
        Some(id) => Some(id@),
        None => None,
    }
}

/// Reads a request identifier from a JSON value; null denotes the absence of
/// an identifier.
pub fn parse_jsonrpc_id(id: JsonValue) -> (r: JsonRpcParseResult<Option<Id>>)
    ensures
        match r {
            Ok(oid) => opt_id_of_json(id@) == Some(view_opt_id(oid)),
            Err(e) => opt_id_of_json(id@) is None && e@.code == -32600 && e@.message
                == "The JSON sent is not a valid Request object: "@ + ("Invalid id: "@ + msg_not(
                json_text(id@),
                "an ID"@,
            )),
        },
{
    match id {
        JsonValue::Null => Ok(None),
        _ => {
            match Id::from_json(&id) {
                Ok(parsed) => Ok(Some(parsed)),
                Err(m) => {
                    let mut s = "Invalid id: ".to_owned();
                    s.append(m.as_str());
                    let e = error_JSON_RPC_InvalidRequest(s.as_str());
                    proof {
                        assert(s@ == "Invalid id: "@ + msg_not(json_text(id@), "an ID"@));
                    }
                    Err(e)
                },
            }
        },
    }
}

} // verus!
