//! Wire-level tests for the message data model: value round trips and the
//! exact decode error messages.

use jsonrpc::json_value::JsonValue;
use jsonrpc::jsonrpc_common::{Id, RequestError};
use jsonrpc::jsonrpc_message::Message;
use jsonrpc::jsonrpc_request::{to_jsonrpc_params, Request, RequestParams};
use jsonrpc::jsonrpc_response::{Response, ResponseResult};
use jsonrpc::json_text::json_to_text;
use jsonrpc::json_parse::parse_json;

fn check_id_round_trip(id: &Id) {
    let text = id.to_json_text();
    let back = Id::from_json_text(&text).unwrap();
    assert_eq!(&back, id);
}

fn check_error_round_trip(e: &RequestError) {
    let text = e.to_json_text();
    let back = RequestError::from_json_text(&text).unwrap();
    assert_eq!(&back, e);
}

fn check_request_round_trip(r: &Request) {
    let text = r.to_json_text();
    let back = Request::from_json_text(&text).unwrap();
    assert_eq!(&back, r);
}

fn check_message_round_trip(m: &Message) {
    let text = m.to_json_text();
    let back = Message::from_json_text(&text).unwrap();
    assert_eq!(&back, m);
}

fn sample_json_obj(foo: i128) -> JsonValue {
    JsonValue::Object(vec![("foo".to_string(), JsonValue::Int(foo))])
}

#[test]
#[allow(non_snake_case)]
fn test_Id() {
    check_id_round_trip(&Id::Null);
    check_id_round_trip(&Id::Number(123));
    check_id_round_trip(&Id::Text("123".into()));
    check_id_round_trip(&Id::Text("".into()));
    check_id_round_trip(&Id::Text("foo".into()));
    check_id_round_trip(&Id::Number(u64::MAX));

    // A number beyond the unsigned 64-bit range is not an identifier.
    assert!(Id::from_json_text("18446744073709551616").is_err());
    // Neither is a negative number.
    assert!(Id::from_json_text("-1").is_err());
}

#[test]
#[allow(non_snake_case)]
fn test_RequestError() {
    check_error_round_trip(&RequestError::new(12, "asd".into()));
    check_error_round_trip(&RequestError { code: -123, message: "abc".into(), data: None });
    check_error_round_trip(&RequestError {
        code: 1,
        message: "xxx".into(),
        data: Some(JsonValue::Null),
    });
    check_error_round_trip(&RequestError {
        code: 1,
        message: "xxx".into(),
        data: Some(JsonValue::Text("asdf".into())),
    });

    let err = RequestError::from_json_text("{}").unwrap_err();
    assert!(err.starts_with("Property `code` is missing"));
}

#[test]
#[allow(non_snake_case)]
fn test_Message() {
    // An object with a method is read as a request.
    let err = Message::from_json_text(r#"{ "jsonrpc": "2.0", "method":"foo" }"#).unwrap_err();
    assert!(err.starts_with("Property `params` is missing"));

    // An object without a method is read as a response.
    let err = Message::from_json_text(r#"{ "jsonrpc": "2.0"}"#).unwrap_err();
    assert!(err.starts_with("Property `id` is missing"));

    check_message_round_trip(&Message::Response(Response::new_result(
        Id::Null,
        sample_json_obj(100),
    )));

    let sample_params = match sample_json_obj(123) {
        JsonValue::Object(m) => m,
        _ => unreachable!(),
    };
    check_message_round_trip(&Message::Request(Request::new(
        1,
        "myMethod".to_string(),
        sample_params,
    )));
}

fn check_params_round_trip(params: &RequestParams) {
    let value = params.to_json();
    let text = json_to_text(&value);
    let back_value = parse_json(&text).unwrap();
    let back = to_jsonrpc_params(back_value).unwrap();
    assert_eq!(&back, params);
}

#[test]
#[allow(non_snake_case)]
fn test__RequestParams() {
    let sample_obj = vec![("xxx".to_string(), JsonValue::Int(123))];
    let sample_string = JsonValue::Text("blah".into());

    check_params_round_trip(&RequestParams::Object(sample_obj));
    check_params_round_trip(&RequestParams::Array(vec![
        sample_string.clone(),
        sample_string,
    ]));
    check_params_round_trip(&RequestParams::Null);
}

fn check_error_de_request(input: &str, expected_prefix: &str) {
    let err = Request::from_json_text(input).unwrap_err();
    assert!(
        err.starts_with(expected_prefix),
        "expected `{}` to start with `{}`",
        err,
        expected_prefix
    );
}

#[test]
#[allow(non_snake_case)]
fn test_Request() {
    // Invalid JSON.
    check_error_de_request("{", "EOF while");

    check_error_de_request("{ }", "Property `jsonrpc` is missing.");

    check_error_de_request(r#"{ "jsonrpc": "1.0" }"#, r#"Property `jsonrpc` is not "2.0". "#);

    check_error_de_request(r#"{ "jsonrpc": "2.0" }"#, "Property `method` is missing.");
    check_error_de_request(
        r#"{ "jsonrpc": "2.0", "method":null }"#,
        "Value `null` is not a String.",
    );

    check_error_de_request(
        r#"{ "jsonrpc": "2.0", "method":"xxx" }"#,
        "Property `params` is missing.",
    );

    // A valid request with null params.
    let parsed = Request::from_json_text(r#"{ "jsonrpc": "2.0", "method":"xxx", "params":null }"#)
        .unwrap();
    assert_eq!(
        parsed,
        Request { id: None, method: "xxx".into(), params: RequestParams::Null }
    );

    // A basic request.
    let sample_params = vec![
        ("param".to_string(), JsonValue::Text("2.0".into())),
        ("foo".to_string(), JsonValue::Int(123)),
    ];
    let request = Request::new(1, "myMethod".to_string(), sample_params);
    check_request_round_trip(&request);

    // A basic request with no params.
    let request = Request {
        id: None,
        method: "myMethod".to_string(),
        params: RequestParams::Null,
    };
    check_request_round_trip(&request);

    // A notification omits the id key entirely and writes its params as null.
    let request = Request {
        id: None,
        method: "xxx".to_string(),
        params: RequestParams::Null,
    };
    assert_eq!(
        request.to_json_text(),
        r#"{"jsonrpc":"2.0","method":"xxx","params":null}"#
    );
    check_request_round_trip(&request);

    // A request with no id and array params.
    let request = Request {
        id: None,
        method: "myMethod".to_string(),
        params: RequestParams::Array(vec![]),
    };
    check_request_round_trip(&request);
}

#[test]
fn test_duplicate_keys_last_wins() {
    // The last occurrence of a duplicated key wins, as in a map built by
    // inserting members in order: the version check reads "1.0" here.
    let err = Response::from_json_text(
        r#"{ "jsonrpc":"2.0", "jsonrpc":"1.0", "id":1, "result":null }"#,
    )
    .unwrap_err();
    assert!(err.starts_with(r#"Property `jsonrpc` is not "2.0". "#));

    // So does the identifier.
    let resp = Response::from_json_text(r#"{ "jsonrpc":"2.0", "id":1, "id":2, "result":null }"#)
        .unwrap();
    assert_eq!(resp.id, Id::Number(2));
}

fn check_response_expecting(response: &Response, expected: &JsonValue) {
    assert_eq!(&response.to_json(), expected);
    let text = response.to_json_text();
    let back = Response::from_json_text(&text).unwrap();
    assert_eq!(&back, response);
}

#[test]
#[allow(non_snake_case)]
fn test_Response() {
    let err = Response::from_json_text(r#"{ "id":123, "result":null }"#).unwrap_err();
    assert!(err.starts_with("Property `jsonrpc` is missing."));

    let err = Response::from_json_text(r#"{ "jsonrpc":"1", "id":123, "result":null }"#)
        .unwrap_err();
    assert!(err.starts_with(r#"Property `jsonrpc` is not "2.0". "#));

    let err = Response::from_json_text(r#"{ "jsonrpc":"2.0" }"#).unwrap_err();
    assert!(err.starts_with("Property `id` is missing"));

    let err = Response::from_json_text(r#"{ "jsonrpc":"2.0", "id":123 }"#).unwrap_err();
    assert!(err.starts_with("Missing property `result` or `error`"));

    // Exactly one of `result` and `error` may be present.
    let err = Response::from_json_text(
        r#"{ "jsonrpc":"2.0", "id":123, "result":null, "error":null }"#,
    )
    .unwrap_err();
    assert!(err.starts_with("Both properties `result` and `error` are present"));

    let response = Response::new_result(Id::Null, sample_json_obj(100));
    check_response_expecting(
        &response,
        &JsonValue::Object(vec![
            ("jsonrpc".to_string(), JsonValue::Text("2.0".into())),
            ("id".to_string(), JsonValue::Null),
            ("result".to_string(), sample_json_obj(100)),
        ]),
    );

    let response = Response::new_result(Id::Number(123), sample_json_obj(200));
    check_response_expecting(
        &response,
        &JsonValue::Object(vec![
            ("jsonrpc".to_string(), JsonValue::Text("2.0".into())),
            ("id".to_string(), JsonValue::Int(123)),
            ("result".to_string(), sample_json_obj(200)),
        ]),
    );

    // The wire text itself, for the numbered-identifier case.
    assert_eq!(
        response.to_json_text(),
        r#"{"jsonrpc":"2.0","id":123,"result":{"foo":200}}"#
    );

    let response = Response::new_result(Id::Null, sample_json_obj(200));
    check_response_expecting(
        &response,
        &JsonValue::Object(vec![
            ("jsonrpc".to_string(), JsonValue::Text("2.0".into())),
            ("id".to_string(), JsonValue::Null),
            ("result".to_string(), sample_json_obj(200)),
        ]),
    );

    let response = Response::new_error(
        Id::Text("321".to_string()),
        RequestError { code: 5, message: "msg".to_string(), data: Some(sample_json_obj(300)) },
    );
    check_response_expecting(
        &response,
        &JsonValue::Object(vec![
            ("jsonrpc".to_string(), JsonValue::Text("2.0".into())),
            ("id".to_string(), JsonValue::Text("321".into())),
            (
                "error".to_string(),
                JsonValue::Object(vec![
                    ("code".to_string(), JsonValue::Int(5)),
                    ("message".to_string(), JsonValue::Text("msg".into())),
                    ("data".to_string(), sample_json_obj(300)),
                ]),
            ),
        ]),
    );

    let unwrapped = Response::new_result(Id::Null, JsonValue::Int(7))
        .result_or_error
        .unwrap_result();
    assert_eq!(unwrapped, JsonValue::Int(7));

    let built = ResponseResult::new_error(Id::Number(1), RequestError::new(5, "m".into()));
    assert_eq!(built.id, Id::Number(1));
}
