//! End-to-end scenarios over the endpoint core and output agent, and edge
//! cases of the JSON text codec.

use jsonrpc::endpoint::{EndpointCore, InboundAction};
use jsonrpc::json_parse::parse_json;
use jsonrpc::json_text::json_to_text;
use jsonrpc::json_value::JsonValue;
use jsonrpc::jsonrpc_common::{error_JSON_RPC_MethodNotFound, Id};
use jsonrpc::jsonrpc_message::{decode_message, encode_message, Message};
use jsonrpc::jsonrpc_request::{Request, RequestParams};
use jsonrpc::jsonrpc_response::{Response, ResponseResult};
use jsonrpc::method_types::{FromJson, MethodError, RequestResult, ToJson};
use jsonrpc::output_agent::OutputAgent;
use jsonrpc::sample_types::Point;

/// The sample server method: greets a point.
fn my_method(p: Point) -> Result<String, MethodError<()>> {
    Ok(format!("Got params: x: {}, y: {}.", p.x, p.y))
}

/// A one-method server: decodes one payload, dispatches it, and produces
/// the response payload.
fn serve_one(server: &mut EndpointCore, payload: &str) -> String {
    let action = server.handle_incoming(payload);
    let req = match action {
        InboundAction::DispatchRequest(req) => req,
        other => panic!("expected a request dispatch, got {:?}", other),
    };
    let id = req.id.clone().unwrap();
    let result_or_error = if req.method == "my_method" {
        let raw = req.params.into_value();
        match Point::from_json(&raw) {
            Ok(p) => ResponseResult::from_method_result(my_method(p)),
            Err(_) => panic!("sample params should decode"),
        }
    } else {
        ResponseResult::Error(error_JSON_RPC_MethodNotFound())
    };
    encode_message(&Message::Response(Response { id, result_or_error }))
}

fn sample_point_params() -> RequestParams {
    RequestParams::Object(vec![
        ("x".to_string(), JsonValue::Int(10)),
        ("y".to_string(), JsonValue::Int(20)),
    ])
}

#[test]
fn test_bidirectional_call() {
    let mut client = EndpointCore::new();
    let mut server = EndpointCore::new();

    let (id, payload) = client
        .prepare_request("my_method".to_string(), sample_point_params())
        .unwrap();

    let response_payload = serve_one(&mut server, &payload);

    match client.handle_incoming(&response_payload) {
        InboundAction::ResolvePending(rid, rr) => {
            assert_eq!(rid, id);
            let typed = RequestResult::<String, ()>::from_response_result(rr);
            assert_eq!(typed.unwrap_result(), Ok("Got params: x: 10, y: 20.".to_string()));
        },
        other => panic!("expected a resolution, got {:?}", other),
    }
}

#[test]
fn test_method_not_found() {
    let mut client = EndpointCore::new();
    let mut server = EndpointCore::new();

    let (id, payload) = client
        .prepare_request("absent".to_string(), RequestParams::Null)
        .unwrap();

    let response_payload = serve_one(&mut server, &payload);

    match client.handle_incoming(&response_payload) {
        InboundAction::ResolvePending(rid, rr) => {
            assert_eq!(rid, id);
            let typed = RequestResult::<String, ()>::from_response_result(rr);
            let err = typed.unwrap_error();
            assert_eq!(err.code, -32601);
        },
        other => panic!("expected a resolution, got {:?}", other),
    }
}

#[test]
fn test_invalid_client_side_decode() {
    // The handler answers with a map where the client expects a string.
    let rr = ResponseResult::Value(Point { x: 1, y: 2 }.to_json());
    let typed = RequestResult::<String, ()>::from_response_result(rr);
    let err = typed.unwrap_error();
    assert_eq!(err.code, -32000);
    assert_eq!(
        err.message,
        "Invalid method response: invalid type: map, expected a string"
    );
}

#[test]
fn test_correlation_and_at_most_once() {
    let mut client = EndpointCore::new();
    let (id_a, _) = client
        .prepare_request("a".to_string(), RequestParams::Null)
        .unwrap();
    let (id_b, _) = client
        .prepare_request("b".to_string(), RequestParams::Null)
        .unwrap();
    assert_ne!(id_a, id_b);

    // The response for b resolves exactly b's slot; a stays pending.
    assert!(client.resolve_response(id_b));
    assert!(!client.resolve_response(id_b));
    assert!(client.resolve_response(id_a));
    assert!(!client.resolve_response(id_a));
}

#[test]
fn test_notifications_register_nothing() {
    let mut client = EndpointCore::new();
    let payload = client.prepare_notification("note".to_string(), RequestParams::Null);
    let decoded = decode_message(&payload).unwrap();
    match decoded {
        Message::Request(req) => {
            assert_eq!(req.id, None);
            assert_eq!(req.method, "note");
        },
        Message::Response(_) => panic!("expected a request"),
    }
    // No identifier was registered for the notification.
    assert!(!client.resolve_response(0));
}

#[test]
fn test_idempotent_shutdown() {
    let mut client = EndpointCore::new();
    let (id, _) = client
        .prepare_request("a".to_string(), RequestParams::Null)
        .unwrap();

    let drained = client.shutdown_and_join();
    assert_eq!(drained, vec![id]);

    // The second shutdown is a no-op and drains nothing.
    let drained_again = client.shutdown_and_join();
    assert!(drained_again.is_empty());

    // No further sends are accepted.
    assert!(client
        .prepare_request("b".to_string(), RequestParams::Null)
        .is_err());
}

#[test]
fn test_wire_order() {
    let mut agent = OutputAgent::new();
    agent.submit("first".to_string()).unwrap();
    agent.submit("second".to_string()).unwrap();
    agent.begin_shutdown();
    assert!(agent.submit("late".to_string()).is_err());

    // The worker drains in submission order.
    assert_eq!(agent.take_next(), Some("first".to_string()));
    assert_eq!(agent.take_next(), Some("second".to_string()));
    assert_eq!(agent.take_next(), None);
}

#[test]
fn test_decode_error_kinds() {
    // Not JSON at all: the parse error.
    let err = decode_message("{").unwrap_err();
    assert_eq!(err.code, -32700);
    assert!(err.message.starts_with("Invalid JSON was received by the server: "));

    // JSON of the wrong shape: the invalid-request error.
    let err = decode_message("[1]").unwrap_err();
    assert_eq!(err.code, -32600);
    assert!(err.message.starts_with("The JSON sent is not a valid Request object: "));
}

#[test]
fn test_unknown_and_invalid_inbound() {
    let mut client = EndpointCore::new();

    // A response with an unknown identifier is dropped.
    let stray = encode_message(&Message::Response(Response::new_result(
        Id::Number(99),
        JsonValue::Null,
    )));
    match client.handle_incoming(&stray) {
        InboundAction::DropUnknown(id) => assert_eq!(id, Id::Number(99)),
        other => panic!("expected a drop, got {:?}", other),
    }

    // Garbage is classified, not dispatched.
    match client.handle_incoming("not json") {
        InboundAction::DropInvalid(e) => assert_eq!(e.code, -32700),
        other => panic!("expected an invalid drop, got {:?}", other),
    }
    match client.handle_incoming(r#"{"jsonrpc":"2.0","method":"m"}"#) {
        InboundAction::RespondError(e) => assert_eq!(e.code, -32600),
        other => panic!("expected an error response, got {:?}", other),
    }
}

#[test]
fn test_json_number_edges() {
    assert_eq!(parse_json("-42").unwrap(), JsonValue::Int(-42));
    assert_eq!(
        parse_json("18446744073709551615").unwrap(),
        JsonValue::Int(18446744073709551615)
    );
    assert!(parse_json("3.14").is_err());
    assert!(parse_json("1e5").is_err());
    assert!(parse_json("01").is_err());
    assert!(parse_json("123456789012345678901234567890123456789").is_err());
    assert_eq!(json_to_text(&JsonValue::Int(-7)), "-7");
    assert_eq!(json_to_text(&JsonValue::Int(0)), "0");
}

#[test]
fn test_json_string_escapes() {
    let original = JsonValue::Text("a\"b\\c\nd\u{1}e\u{e9}".to_string());
    let text = json_to_text(&original);
    assert_eq!(text, "\"a\\\"b\\\\c\\u000ad\\u0001e\u{e9}\"");
    assert_eq!(parse_json(&text).unwrap(), original);
    // The reader also accepts the short escapes and ASCII unicode escapes.
    assert_eq!(
        parse_json("\"a\\n\\t\\r\\b\\f\\/\\u0041\"").unwrap(),
        JsonValue::Text("a\n\t\r\u{8}\u{c}/A".to_string())
    );
}

#[test]
fn test_json_whitespace_and_nesting() {
    let parsed = parse_json(" { \"a\" : [ 1 , { \"b\" : null } , true ] } ").unwrap();
    let expected = JsonValue::Object(vec![(
        "a".to_string(),
        JsonValue::Array(vec![
            JsonValue::Int(1),
            JsonValue::Object(vec![("b".to_string(), JsonValue::Null)]),
            JsonValue::Bool(true),
        ]),
    )]);
    assert_eq!(parsed, expected);

    assert!(parse_json("[1] trailing").is_err());
    assert!(parse_json("").is_err());
    assert_eq!(parse_json("[]").unwrap(), JsonValue::Array(vec![]));
    assert_eq!(parse_json("{}").unwrap(), JsonValue::Object(vec![]));
}
