//! JSON-RPC 2.0 requests: the `Request` data model, its parameters, and the
//! translation between requests and JSON values.

use vstd::prelude::*;

use crate::json_text::json_text;
use crate::json_value::{
    clone_json, view_members, view_seq, Json, JsonValue,
};
use crate::jsonrpc_common::{
    id_to_json, msg_missing, msg_missing_x, msg_not, msg_not_x, obj_get, obj_lookup,
    opt_id_of_json, view_opt_id, Id, IdV,
};

verus! {

/// The parameters of a request: a JSON object, a JSON array, or nothing.
/// Nothing is written as JSON null.
#[derive(Debug, Clone, PartialEq)]
pub enum RequestParams {
    Object(Vec<(String, JsonValue)>),
    Array(Vec<JsonValue>),
    Null,
}

/// Mathematical model of `RequestParams`.
pub enum ParamsV {
    Object(Seq<(Seq<char>, Json)>),
    Array(Seq<Json>),
    Null,
}

impl View for RequestParams {
    type V = ParamsV;

    open spec fn view(&self) -> ParamsV {
        match self {
            RequestParams::Object(m) => ParamsV::Object(view_members(m@)),
            RequestParams::Array(a) => ParamsV::Array(view_seq(a@)),
            RequestParams::Null => ParamsV::Null,
        }
    }
}

/// How parameters stand in JSON.
pub open spec fn params_to_json(p: ParamsV) -> Json {
    match p {
        ParamsV::Object(m) => Json::Object(m),
        ParamsV::Array(a) => Json::Array(a),
        ParamsV::Null => Json::Null,
    }
}

/// Which JSON values denote parameters.
pub open spec fn params_of_json(j: Json) -> Result<ParamsV, Seq<char>> {
    match j {
        Json::Object(m) => Ok(ParamsV::Object(m)),
        Json::Array(a) => Ok(ParamsV::Array(a)),
        Json::Null => Ok(ParamsV::Null),
        _ => Err("Property `params` not an Object, Array, or null."@),
    }
}

/// A copy of an object's members, equal to the original in the model.
pub fn clone_members(m: &Vec<(String, JsonValue)>) -> (r: Vec<(String, JsonValue)>)
    ensures
        view_members(r@) == view_members(m@),
{
    let mut out: Vec<(String, JsonValue)> = Vec::new();
    let mut i: usize = 0;
    while i < m.len()
        invariant
            i <= m@.len(),
            view_members(out@) == view_members(m@.take(i as int)),
        decreases m@.len() - i,
    {
        proof {
            crate::json_value::lemma_view_members_index(m@, i as int);
        }
        let ck = m[i].0.clone();
        let cv = clone_json(&m[i].1);
        let ghost pre = out@;
        out.push((ck, cv));
        proof {
            assert(out@ =~= pre.push((ck, cv)));
            crate::json_value::lemma_view_members_push(pre, ck, cv);
            assert(m@.take(i as int + 1) =~= m@.take(i as int).push(m@[i as int]));
            crate::json_value::lemma_view_members_push(m@.take(i as int), m@[i as int].0, m@[i as int].1);
        }
        i = i + 1;
    }
    proof {
        assert(m@.take(m@.len() as int) =~= m@);
    }
    out
}

/// A copy of a list of values, equal to the original in the model.
pub fn clone_elems(a: &Vec<JsonValue>) -> (r: Vec<JsonValue>)
    ensures
        view_seq(r@) == view_seq(a@),
{
    let mut out: Vec<JsonValue> = Vec::new();
    let mut i: usize = 0;
    while i < a.len()
        invariant
            i <= a@.len(),
            view_seq(out@) == view_seq(a@.take(i as int)),
        decreases a@.len() - i,
    {
        proof {
            crate::json_value::lemma_view_seq_index(a@, i as int);
        }
        let c = clone_json(&a[i]);
        let ghost pre = out@;
        out.push(c);
        proof {
            assert(out@ =~= pre.push(c));
            crate::json_value::lemma_view_seq_push(pre, c);
            assert(a@.take(i as int + 1) =~= a@.take(i as int).push(a@[i as int]));
            crate::json_value::lemma_view_seq_push(a@.take(i as int), a@[i as int]);
        }
        i = i + 1;
    }
    proof {
        assert(a@.take(a@.len() as int) =~= a@);
    }
    out
}

impl RequestParams {
    /// The JSON value these parameters are written as, consuming them.
    pub fn into_value(self) -> (r: JsonValue)
        ensures
            r@ == params_to_json(self@),
    {
        match self {
            RequestParams::Object(m) => JsonValue::Object(m),
            RequestParams::Array(a) => JsonValue::Array(a),
            RequestParams::Null => JsonValue::Null,
        }
    }

    /// The JSON value these parameters are written as.
    pub fn to_json(&self) -> (r: JsonValue)
        ensures
            r@ == params_to_json(self@),
    {
        match self {
            RequestParams::Object(m) => JsonValue::Object(clone_members(m)),
            RequestParams::Array(a) => JsonValue::Array(clone_elems(a)),
            RequestParams::Null => JsonValue::Null,
        }
    }
}

/// Reads parameters from a JSON value: an object, an array, or null.
pub fn to_jsonrpc_params(params: JsonValue) -> (r: Result<RequestParams, String>)
    ensures
        match r {
            Ok(p) => params_of_json(params@) == Ok::<ParamsV, Seq<char>>(p@),
            Err(m) => params_of_json(params@) == Err::<ParamsV, Seq<char>>(m@),
        },
{
    match params {
        JsonValue::Object(m) => Ok(RequestParams::Object(m)),
        JsonValue::Array(a) => Ok(RequestParams::Array(a)),
        JsonValue::Null => Ok(RequestParams::Null),
        _ => Err("Property `params` not an Object, Array, or null.".to_owned()),
    }
}

/// What a `jsonrpc` version field must hold.
pub open spec fn check_jsonrpc_obj(m: Seq<(Seq<char>, Json)>) -> Result<(), Seq<char>> {
    match obj_lookup(m, "jsonrpc"@) {
        None => Err(msg_missing("jsonrpc"@)),
        Some(Json::Text(t)) => if t == "2.0"@ {
            Ok(())
        } else {
            Err("Property `jsonrpc` is not \"2.0\". "@)
        },
        Some(other) => Err(msg_not(json_text(other), "a String"@)),
    }
}

/// Checks that an object carries `jsonrpc` equal to the string `2.0`.
pub fn check_jsonrpc_field(m: &Vec<(String, JsonValue)>) -> (r: Result<(), String>)
    ensures
        match r {
            Ok(_) => check_jsonrpc_obj(view_members(m@)) is Ok,
            Err(e) => check_jsonrpc_obj(view_members(m@)) == Err::<(), Seq<char>>(e@),
        },
{
    let key = "jsonrpc".to_owned();
    match obj_get(m, &key) {
        None => Err(msg_missing_x("jsonrpc")),
        Some(v) => {
            match v {
                JsonValue::Text(t) => {
                    if *t == "2.0".to_owned() {
                        Ok(())
                    } else {
                        Err("Property `jsonrpc` is not \"2.0\". ".to_owned())
                    }
                },
                _ => Err(msg_not_x(v, "a String")),
            }
        },
    }
}

/// A JSON-RPC 2.0 request. An absent `id` marks a notification, which gets
/// no response.
#[derive(Debug, Clone, PartialEq)]
pub struct Request {
    pub id: Option<Id>,
    pub method: String,
    pub params: RequestParams,
}

/// Mathematical model of a `Request`.
pub struct RequestV {
    pub id: Option<IdV>,
    pub method: Seq<char>,
    pub params: ParamsV,
}

impl View for Request {
    type V = RequestV;

    open spec fn view(&self) -> RequestV {
        RequestV { id: view_opt_id(self.id), method: self.method@, params: self.params@ }
    }
}

/// How a request stands in JSON: the keys `jsonrpc`, `id` (only when
/// present), `method` and `params`, in that order.
pub open spec fn request_to_json(r: RequestV) -> Json {
    Json::Object(
        seq![("jsonrpc"@, Json::Text("2.0"@))] + (match r.id {
            Some(id) => seq![("id"@, id_to_json(id))],
            None => Seq::empty(),
        }) + seq![("method"@, Json::Text(r.method)), ("params"@, params_to_json(r.params))],
    )
}

/// Which objects denote a request, and the message when one does not.
pub open spec fn request_of_obj(m: Seq<(Seq<char>, Json)>) -> Result<RequestV, Seq<char>> {
    match check_jsonrpc_obj(m) {
        Err(e) => Err(e),
        Ok(_) => {
            let idr = match obj_lookup(m, "id"@) {
                None => Ok(None),
                Some(jid) => match opt_id_of_json(jid) {
                    Some(oid) => Ok(oid),
                    None => Err(msg_not(json_text(jid), "an ID"@)),
                },
            };
            match idr {
                Err(e) => Err(e),
                Ok(oid) => match obj_lookup(m, "method"@) {
                    None => Err(msg_missing("method"@)),
                    Some(Json::Text(meth)) => match obj_lookup(m, "params"@) {
                        None => Err(msg_missing("params"@)),
                        Some(pj) => match params_of_json(pj) {
                            Ok(p) => Ok(RequestV { id: oid, method: meth, params: p }),
                            Err(e) => Err(e),
                        },
                    },
                    Some(other) => Err(msg_not(json_text(other), "a String"@)),
                },
            }
        },
    }
}

/// Which JSON values denote a request.
pub open spec fn request_of_json(j: Json) -> Result<RequestV, Seq<char>> {
    match j {
        Json::Object(m) => request_of_obj(m),
        _ => Err(msg_not(json_text(j), "an Object"@)),
    }
}

impl Request {
    /// A request with a numeric identifier and object parameters.
    pub fn new(id_number: u64, method: String, params: Vec<(String, JsonValue)>) -> (r: Request)
        ensures
            r@.id == Some(IdV::Number(id_number)),
            r@.method == method@,
            r@.params == ParamsV::Object(view_members(params@)),
    {
        Request {
            id: Some(Id::Number(id_number)),
            method,
            params: RequestParams::Object(params),
        }
    }

    /// The JSON value this request is written as.
    pub fn to_json(&self) -> (r: JsonValue)
        ensures
            r@ == request_to_json(self@),
    {
        let mut m: Vec<(String, JsonValue)> = Vec::new();
        m.push(("jsonrpc".to_owned(), JsonValue::Text("2.0".to_owned())));
        match &self.id {
            Some(id) => {
                m.push(("id".to_owned(), id.to_json()));
            },
            None => {},
        }
        m.push(("method".to_owned(), JsonValue::Text(self.method.clone())));
        m.push(("params".to_owned(), self.params.to_json()));
        proof {
            let ms = m@;
            let n = ms.len() as int;
            crate::json_value::lemma_view_members_len(ms);
            assert forall|k: int| 0 <= k < n implies view_members(ms)[k] == (
            ms[k].0@,
            ms[k].1@,
            ) by {
                crate::json_value::lemma_view_members_index(ms, k);
            }
            assert(view_members(ms) =~= request_to_json(self@)->Object_0);
        }
        JsonValue::Object(m)
    }

    /// Reads a request back from a JSON value; the message names the first
    /// property that is missing or of the wrong type.
    pub fn from_json(v: &JsonValue) -> (r: Result<Request, String>)
        ensures
            match r {
                Ok(req) => request_of_json(v@) == Ok::<RequestV, Seq<char>>(req@),
                Err(m) => request_of_json(v@) == Err::<RequestV, Seq<char>>(m@),
            },
    {
        let m = match v {
            JsonValue::Object(m) => m,
            _ => {
                return Err(msg_not_x(v, "an Object"));
            },
        };
        match check_jsonrpc_field(m) {
            Err(e) => {
                return Err(e);
            },
            Ok(_) => {},
        }
        let id_key = "id".to_owned();
        let id: Option<Id> = match obj_get(m, &id_key) {
            None => None,
            Some(jid) => {
                match jid {
                    JsonValue::Null => None,
                    _ => {
                        match Id::from_json(jid) {
                            Ok(parsed) => Some(parsed),
                            Err(e) => {
                                return Err(e);
                            },
                        }
                    },
                }
            },
        };
        let method_key = "method".to_owned();
        let method: String = match obj_get(m, &method_key) {
            None => {
                return Err(msg_missing_x("method"));
            },
            Some(jm) => {
                match jm {
                    JsonValue::Text(t) => t.clone(),
                    _ => {
                        return Err(msg_not_x(jm, "a String"));
                    },
                }
            },
        };
        let params_key = "params".to_owned();
        let params: RequestParams = match obj_get(m, &params_key) {
            None => {
                return Err(msg_missing_x("params"));
            },
            Some(pj) => {
                match to_jsonrpc_params(clone_json(pj)) {
                    Ok(p) => p,
                    Err(e) => {
                        return Err(e);
                    },
                }
            },
        };
        Ok(Request { id, method, params })
    }

    /// The JSON text this request is written as.
    pub fn to_json_text(&self) -> (r: String)
        ensures
            r@ == json_text(request_to_json(self@)),
    {
        let v = self.to_json();
        crate::json_text::json_to_text(&v)
    }

    /// Reads a request from JSON text.
    pub fn from_json_text(s: &str) -> (r: Result<Request, String>)
        ensures
            match r {
                Ok(req) => crate::json_parse::parse_json_spec(s@) matches Some(j)
                    && request_of_json(j) == Ok::<RequestV, Seq<char>>(req@),
                Err(m) => match crate::json_parse::parse_json_spec(s@) {
                    None => crate::json_parse::parse_json_error(s@, m@),
                    Some(j) => request_of_json(j) == Err::<RequestV, Seq<char>>(m@),
                },
            },
    {
        match crate::json_parse::parse_json(s) {
            Err(e) => Err(e),
            Ok(v) => Request::from_json(&v),
        }
    }
}

} // verus!
