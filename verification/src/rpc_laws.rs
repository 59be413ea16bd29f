//! The codec round-trip laws for the JSON-RPC data model: every identifier,
//! parameter set, error, request, response and message reads back from its
//! own wire form unchanged.

use vstd::prelude::*;

use crate::codec_laws::lemma_json_round_trip;
use crate::json_parse::parse_json_spec;
use crate::json_text::{json_text, wf_json};
use crate::json_value::Json;
use crate::jsonrpc_common::{
    error_of_json, error_to_json, id_of_json, id_to_json, obj_lookup, opt_id_of_json, IdV,
    RequestErrorV,
};
use crate::jsonrpc_message::{message_of_json, message_to_json, MessageV};
use crate::jsonrpc_request::{
    check_jsonrpc_obj, params_of_json, params_to_json, request_of_json, request_to_json, ParamsV,
    RequestV,
};
use crate::jsonrpc_response::{response_of_json, response_to_json, ResponseResultV, ResponseV};

verus! {

proof fn lemma_lookup_hit(rest: Seq<(Seq<char>, Json)>, last: (Seq<char>, Json), key: Seq<char>)
    requires
        last.0 == key,
    ensures
        obj_lookup(rest.push(last), key) == Some(last.1),
{
    assert(rest.push(last).last() == last);
}

proof fn lemma_lookup_skip(rest: Seq<(Seq<char>, Json)>, last: (Seq<char>, Json), key: Seq<char>)
    requires
        last.0 != key,
    ensures
        obj_lookup(rest.push(last), key) == obj_lookup(rest, key),
{
    assert(rest.push(last).last() == last);
    assert(rest.push(last).drop_last() =~= rest);
}

proof fn lemma_key_facts()
    ensures
        "jsonrpc"@.len() == 7,
        "id"@.len() == 2,
        "method"@.len() == 6,
        "params"@.len() == 6,
        "result"@.len() == 6,
        "error"@.len() == 5,
        "code"@.len() == 4,
        "message"@.len() == 7,
        "data"@.len() == 4,
        "method"@[0] == 'm',
        "params"@[0] == 'p',
        "result"@[0] == 'r',
        "code"@[0] == 'c',
        "data"@[0] == 'd',
        "jsonrpc"@[0] == 'j',
        "message"@[0] == 'm',
        "message"@[1] == 'e',
        "jsonrpc"@[1] == 's',
{
    reveal_strlit("jsonrpc");
    reveal_strlit("id");
    reveal_strlit("method");
    reveal_strlit("params");
    reveal_strlit("result");
    reveal_strlit("error");
    reveal_strlit("code");
    reveal_strlit("message");
    reveal_strlit("data");
}

/// An identifier reads back from its JSON form unchanged.
pub proof fn lemma_id_round_trip(id: IdV)
    ensures
        id_of_json(id_to_json(id)) == Some(id),
{
}

/// Parameters read back from their JSON form unchanged.
pub proof fn lemma_params_round_trip(p: ParamsV)
    ensures
        params_of_json(params_to_json(p)) == Ok::<ParamsV, Seq<char>>(p),
{
}

/// An error object whose code fits a 64-bit signed integer reads back from
/// its JSON form unchanged.
pub proof fn lemma_error_round_trip(e: RequestErrorV)
    requires
        i64::MIN <= e.code <= i64::MAX,
    ensures
        error_of_json(error_to_json(e)) == Ok::<RequestErrorV, Seq<char>>(e),
{
    lemma_key_facts();
    let ec = ("code"@, Json::Int(e.code));
    let em = ("message"@, Json::Text(e.message));
    let p1 = Seq::<(Seq<char>, Json)>::empty().push(ec);
    let p2 = p1.push(em);
    match e.data {
        Some(d) => {
            let ed = ("data"@, d);
            let m = error_to_json(e)->Object_0;
            let p3 = p2.push(ed);
            assert(m =~= p3);
            lemma_lookup_skip(p2, ed, "code"@);
            lemma_lookup_skip(p1, em, "code"@);
            lemma_lookup_hit(Seq::empty(), ec, "code"@);
            lemma_lookup_skip(p2, ed, "message"@);
            lemma_lookup_hit(p1, em, "message"@);
            lemma_lookup_hit(p2, ed, "data"@);
        },
        None => {
            let m = error_to_json(e)->Object_0;
            assert(m =~= p2);
            lemma_lookup_skip(p1, em, "code"@);
            lemma_lookup_hit(Seq::empty(), ec, "code"@);
            lemma_lookup_hit(p1, em, "message"@);
            lemma_lookup_skip(p1, em, "data"@);
            lemma_lookup_skip(Seq::empty(), ec, "data"@);
            assert(obj_lookup(Seq::<(Seq<char>, Json)>::empty(), "data"@) is None);
        },
    }
}

/// A request whose identifier is not `Id::Null` reads back from its JSON
/// form unchanged. (A request carrying the null identifier is read back as a
/// notification: null stands for the absence of an identifier there.)
pub proof fn lemma_request_round_trip(r: RequestV)
    requires
        r.id != Some(IdV::Null),
    ensures
        request_of_json(request_to_json(r)) == Ok::<RequestV, Seq<char>>(r),
{
    lemma_key_facts();
    let ej = ("jsonrpc"@, Json::Text("2.0"@));
    let em = ("method"@, Json::Text(r.method));
    let ep = ("params"@, params_to_json(r.params));
    let m = request_to_json(r)->Object_0;
    let p1 = Seq::<(Seq<char>, Json)>::empty().push(ej);
    match r.id {
        Some(id) => {
            let ei = ("id"@, id_to_json(id));
            let p2 = p1.push(ei);
            let p3 = p2.push(em);
            let p4 = p3.push(ep);
            assert(m =~= p4);
            lemma_lookup_skip(p3, ep, "jsonrpc"@);
            lemma_lookup_skip(p2, em, "jsonrpc"@);
            lemma_lookup_skip(p1, ei, "jsonrpc"@);
            lemma_lookup_hit(Seq::empty(), ej, "jsonrpc"@);
            assert(check_jsonrpc_obj(m) is Ok);
            lemma_lookup_skip(p3, ep, "id"@);
            lemma_lookup_skip(p2, em, "id"@);
            lemma_lookup_hit(p1, ei, "id"@);
            assert(obj_lookup(m, "id"@) == Some(id_to_json(id)));
            assert(opt_id_of_json(id_to_json(id)) == Some(Some(id)));
            lemma_lookup_skip(p3, ep, "method"@);
            lemma_lookup_hit(p2, em, "method"@);
            lemma_lookup_hit(p3, ep, "params"@);
        },
        None => {
            let p2 = p1.push(em);
            let p3 = p2.push(ep);
            assert(m =~= p3);
            lemma_lookup_skip(p2, ep, "jsonrpc"@);
            lemma_lookup_skip(p1, em, "jsonrpc"@);
            lemma_lookup_hit(Seq::empty(), ej, "jsonrpc"@);
            assert(check_jsonrpc_obj(m) is Ok);
            lemma_lookup_skip(p2, ep, "id"@);
            lemma_lookup_skip(p1, em, "id"@);
            lemma_lookup_skip(Seq::empty(), ej, "id"@);
            assert(obj_lookup(m, "id"@) is None);
            lemma_lookup_skip(p2, ep, "method"@);
            lemma_lookup_hit(p1, em, "method"@);
            lemma_lookup_hit(p2, ep, "params"@);
        },
    }
}

/// A response whose error code, if any, fits a 64-bit signed integer reads
/// back from its JSON form unchanged.
pub proof fn lemma_response_round_trip(r: ResponseV)
    requires
        match r.result_or_error {
            ResponseResultV::Error(e) => i64::MIN <= e.code <= i64::MAX,
            ResponseResultV::Value(_) => true,
        },
    ensures
        response_of_json(response_to_json(r)) == Ok::<ResponseV, Seq<char>>(r),
{
    lemma_key_facts();
    let ej = ("jsonrpc"@, Json::Text("2.0"@));
    let ei = ("id"@, id_to_json(r.id));
    let m = response_to_json(r)->Object_0;
    let p1 = Seq::<(Seq<char>, Json)>::empty().push(ej);
    let p2 = p1.push(ei);
    match r.result_or_error {
        ResponseResultV::Value(v) => {
            let er = ("result"@, v);
            let p3 = p2.push(er);
            assert(m =~= p3);
            lemma_lookup_skip(p2, er, "jsonrpc"@);
            lemma_lookup_skip(p1, ei, "jsonrpc"@);
            lemma_lookup_hit(Seq::empty(), ej, "jsonrpc"@);
            assert(check_jsonrpc_obj(m) is Ok);
            lemma_lookup_skip(p2, er, "id"@);
            lemma_lookup_hit(p1, ei, "id"@);
            lemma_id_round_trip(r.id);
            lemma_lookup_hit(p2, er, "result"@);
            lemma_lookup_skip(p2, er, "error"@);
            lemma_lookup_skip(p1, ei, "error"@);
            lemma_lookup_skip(Seq::empty(), ej, "error"@);
            assert(obj_lookup(m, "error"@) is None);
        },
        ResponseResultV::Error(e) => {
            let ee = ("error"@, error_to_json(e));
            let p3 = p2.push(ee);
            assert(m =~= p3);
            lemma_lookup_skip(p2, ee, "jsonrpc"@);
            lemma_lookup_skip(p1, ei, "jsonrpc"@);
            lemma_lookup_hit(Seq::empty(), ej, "jsonrpc"@);
            assert(check_jsonrpc_obj(m) is Ok);
            lemma_lookup_skip(p2, ee, "id"@);
            lemma_lookup_hit(p1, ei, "id"@);
            lemma_id_round_trip(r.id);
            lemma_lookup_skip(p2, ee, "result"@);
            lemma_lookup_skip(p1, ei, "result"@);
            lemma_lookup_skip(Seq::empty(), ej, "result"@);
            assert(obj_lookup(m, "result"@) is None);
            lemma_lookup_hit(p2, ee, "error"@);
            lemma_error_round_trip(e);
        },
    }
}

/// The side conditions under which a message survives the round trip: a
/// request does not carry the null identifier, and an error code fits a
/// 64-bit signed integer.
pub open spec fn wf_message(m: MessageV) -> bool {
    match m {
        MessageV::Request(r) => r.id != Some(IdV::Null),
        MessageV::Response(r) => match r.result_or_error {
            ResponseResultV::Error(e) => i64::MIN <= e.code <= i64::MAX,
            ResponseResultV::Value(_) => true,
        },
    }
}

/// A message reads back from its JSON form unchanged. An incoming request is
/// told apart from a response by its `method` key.
pub proof fn lemma_message_round_trip(m: MessageV)
    requires
        wf_message(m),
    ensures
        message_of_json(message_to_json(m)) == Ok::<MessageV, Seq<char>>(m),
{
    lemma_key_facts();
    match m {
        MessageV::Request(r) => {
            let ej = ("jsonrpc"@, Json::Text("2.0"@));
            let em = ("method"@, Json::Text(r.method));
            let ep = ("params"@, params_to_json(r.params));
            let mm = request_to_json(r)->Object_0;
            let p1 = Seq::<(Seq<char>, Json)>::empty().push(ej);
            match r.id {
                Some(id) => {
                    let ei = ("id"@, id_to_json(id));
                    let p2 = p1.push(ei);
                    let p3 = p2.push(em);
                    let p4 = p3.push(ep);
                    assert(mm =~= p4);
                    lemma_lookup_skip(p3, ep, "method"@);
                    lemma_lookup_hit(p2, em, "method"@);
                },
                None => {
                    let p2 = p1.push(em);
                    let p3 = p2.push(ep);
                    assert(mm =~= p3);
                    lemma_lookup_skip(p2, ep, "method"@);
                    lemma_lookup_hit(p1, em, "method"@);
                },
            }
            assert(obj_lookup(mm, "method"@) is Some);
            lemma_request_round_trip(r);
        },
        MessageV::Response(r) => {
            let ej = ("jsonrpc"@, Json::Text("2.0"@));
            let ei = ("id"@, id_to_json(r.id));
            let mm = response_to_json(r)->Object_0;
            let p1 = Seq::<(Seq<char>, Json)>::empty().push(ej);
            let p2 = p1.push(ei);
            match r.result_or_error {
                ResponseResultV::Value(v) => {
                    let er = ("result"@, v);
                    let p3 = p2.push(er);
                    assert(mm =~= p3);
                    lemma_lookup_skip(p2, er, "method"@);
                    lemma_lookup_skip(p1, ei, "method"@);
                    lemma_lookup_skip(Seq::empty(), ej, "method"@);
                },
                ResponseResultV::Error(e) => {
                    let ee = ("error"@, error_to_json(e));
                    let p3 = p2.push(ee);
                    assert(mm =~= p3);
                    lemma_lookup_skip(p2, ee, "method"@);
                    lemma_lookup_skip(p1, ei, "method"@);
                    lemma_lookup_skip(Seq::empty(), ej, "method"@);
                },
            }
            assert(obj_lookup(mm, "method"@) is None);
            lemma_response_round_trip(r);
        },
    }
}

/// The round trip on the wire for an identifier.
pub proof fn lemma_id_text_round_trip(id: IdV)
    ensures
        parse_json_spec(json_text(id_to_json(id))) == Some(id_to_json(id)),
        id_of_json(id_to_json(id)) == Some(id),
{
    assert(wf_json(id_to_json(id)));
    lemma_json_round_trip(id_to_json(id));
}

/// The round trip on the wire for a parameter set.
pub proof fn lemma_params_text_round_trip(p: ParamsV)
    requires
        wf_json(params_to_json(p)),
    ensures
        parse_json_spec(json_text(params_to_json(p))) == Some(params_to_json(p)),
        params_of_json(params_to_json(p)) == Ok::<ParamsV, Seq<char>>(p),
{
    lemma_json_round_trip(params_to_json(p));
}

/// The round trip on the wire for an error object.
pub proof fn lemma_error_text_round_trip(e: RequestErrorV)
    requires
        i64::MIN <= e.code <= i64::MAX,
        wf_json(error_to_json(e)),
    ensures
        parse_json_spec(json_text(error_to_json(e))) == Some(error_to_json(e)),
        error_of_json(error_to_json(e)) == Ok::<RequestErrorV, Seq<char>>(e),
{
    lemma_json_round_trip(error_to_json(e));
    lemma_error_round_trip(e);
}

/// The round trip on the wire for a request.
pub proof fn lemma_request_text_round_trip(r: RequestV)
    requires
        r.id != Some(IdV::Null),
        wf_json(request_to_json(r)),
    ensures
        parse_json_spec(json_text(request_to_json(r))) == Some(request_to_json(r)),
        request_of_json(request_to_json(r)) == Ok::<RequestV, Seq<char>>(r),
{
    lemma_json_round_trip(request_to_json(r));
    lemma_request_round_trip(r);
}

/// The round trip on the wire for a response.
pub proof fn lemma_response_text_round_trip(r: ResponseV)
    requires
        match r.result_or_error {
            ResponseResultV::Error(e) => i64::MIN <= e.code <= i64::MAX,
            ResponseResultV::Value(_) => true,
        },
        wf_json(response_to_json(r)),
    ensures
        parse_json_spec(json_text(response_to_json(r))) == Some(response_to_json(r)),
        response_of_json(response_to_json(r)) == Ok::<ResponseV, Seq<char>>(r),
{
    lemma_json_round_trip(response_to_json(r));
    lemma_response_round_trip(r);
}

/// The codec round trip on the wire: the encoded text of a well-formed
/// message decodes back to exactly that message.
pub proof fn lemma_message_text_round_trip(m: MessageV)
    requires
        wf_message(m),
        wf_json(message_to_json(m)),
    ensures
        parse_json_spec(json_text(message_to_json(m))) == Some(message_to_json(m)),
        message_of_json(message_to_json(m)) == Ok::<MessageV, Seq<char>>(m),
{
    lemma_json_round_trip(message_to_json(m));
    lemma_message_round_trip(m);
}

} // verus!
