//! Tests for the typed method envelope and the sample parameter type.

use jsonrpc::jsonrpc_common::{
    error_JSON_RPC_InternalError, error_JSON_RPC_InvalidParams, error_JSON_RPC_InvalidRequest,
    error_JSON_RPC_InvalidResponse, error_JSON_RPC_MethodNotFound, error_JSON_RPC_ParseError,
};
use jsonrpc::json_value::JsonValue;
use jsonrpc::jsonrpc_response::ResponseResult;
use jsonrpc::method_types::{FromJson, MethodError, RequestResult, ToJson};
use jsonrpc::sample_types::{new_sample_params, Point, PointField};

#[test]
#[allow(non_snake_case)]
fn test_Point() {
    let point = Point { x: 12, y: 34 };
    let value = point.to_json();
    let back = Point::from_json(&value).unwrap();
    assert_eq!(back, point);
}

#[test]
#[allow(non_snake_case)]
fn test__RequestResult_from() {
    // A wire error passes through untouched.
    let error = error_JSON_RPC_InvalidParams("RPC_ERROR");
    let response_result = ResponseResult::Error(error.clone());
    assert_eq!(
        RequestResult::<Point, ()>::from_response_result(response_result),
        RequestResult::RequestError(error)
    );

    // A result value decodes as the expected type.
    let params = new_sample_params(10, 20);
    let response_result = ResponseResult::Value(params.to_json());
    assert_eq!(
        RequestResult::<Point, ()>::from_response_result(response_result),
        RequestResult::MethodResult(Ok(params.clone()))
    );

    // A result value of the wrong shape becomes the invalid-response error.
    let response_result = ResponseResult::Value(new_sample_params(10, 20).to_json());
    assert_eq!(
        RequestResult::<String, ()>::from_response_result(response_result),
        RequestResult::RequestError(error_JSON_RPC_InvalidResponse(
            "invalid type: map, expected a string"
        ))
    );
}

#[test]
fn test_method_error_new() {
    let e = MethodError::new(7, "bad".to_string(), 42u64);
    assert_eq!(e.code, 7);
    assert_eq!(e.message, "bad");
    assert_eq!(e.data, 42);
}

#[test]
fn test_method_result_conversion() {
    // A typed success is serialized under `result`.
    let mr: Result<String, MethodError<()>> = Ok("done".to_string());
    let rr = ResponseResult::from_method_result(mr);
    match rr {
        ResponseResult::Value(v) => {
            assert_eq!(String::from_json(&v).unwrap(), "done");
        },
        ResponseResult::Error(_) => panic!("expected a result value"),
    }

    // A typed error keeps its code and message and carries its data.
    let mr: Result<String, MethodError<()>> = Err(MethodError::new(9, "oops".to_string(), ()));
    let rr = ResponseResult::from_method_result(mr);
    match rr {
        ResponseResult::Error(e) => {
            assert_eq!(e.code, 9);
            assert_eq!(e.message, "oops");
            assert!(e.data.is_some());
        },
        ResponseResult::Value(_) => panic!("expected an error"),
    }
}

#[test]
fn test_point_key_policy() {
    // The value last bound to a duplicated field wins, as in a map.
    let v = JsonValue::Object(vec![
        ("x".to_string(), JsonValue::Int(1)),
        ("x".to_string(), JsonValue::Int(2)),
        ("y".to_string(), JsonValue::Int(3)),
    ]);
    assert_eq!(Point::from_json(&v).unwrap(), Point { x: 2, y: 3 });

    // Any key that names no point field makes the whole decode fail.
    let v = JsonValue::Object(vec![
        ("x".to_string(), JsonValue::Int(1)),
        ("y".to_string(), JsonValue::Int(2)),
        ("z".to_string(), JsonValue::Int(3)),
    ]);
    assert_eq!(Point::from_json(&v).unwrap_err(), "expected x or y");
}

#[test]
fn test_point_field_names() {
    assert!(matches!(PointField::from_name(&"x".to_string()), Ok(PointField::X)));
    assert!(matches!(PointField::from_name(&"y".to_string()), Ok(PointField::Y)));
    assert!(PointField::from_name(&"z".to_string()).is_err());
}

#[test]
fn test_error_constructors() {
    let e = error_JSON_RPC_ParseError("boom");
    assert_eq!(e.code, -32700);
    assert_eq!(e.message, "Invalid JSON was received by the server: boom");

    let e = error_JSON_RPC_InvalidRequest("bad shape");
    assert_eq!(e.code, -32600);
    assert_eq!(e.message, "The JSON sent is not a valid Request object: bad shape");

    let e = error_JSON_RPC_MethodNotFound();
    assert_eq!(e.code, -32601);
    assert_eq!(e.message, "The method does not exist / is not available.");

    let e = error_JSON_RPC_InvalidParams("nope");
    assert_eq!(e.code, -32602);
    assert_eq!(e.message, "Invalid method parameter(s): nope");

    let e = error_JSON_RPC_InternalError();
    assert_eq!(e.code, -32603);
    assert_eq!(e.message, "Internal JSON-RPC error.");

    let e = error_JSON_RPC_InvalidResponse("why");
    assert_eq!(e.code, -32000);
    assert_eq!(e.message, "Invalid method response: why");
}

#[test]
fn test_unwrap_accessors() {
    let error = error_JSON_RPC_InvalidParams("nope");
    let rr: RequestResult<Point, ()> = RequestResult::RequestError(error.clone());
    assert_eq!(rr.unwrap_error(), error);

    let ok: RequestResult<Point, ()> = RequestResult::MethodResult(Ok(new_sample_params(1, 2)));
    assert_eq!(ok.unwrap_result(), Ok(new_sample_params(1, 2)));
}
