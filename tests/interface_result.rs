use cedar_interface::interface_result::InterfaceResult;
use std::collections::HashMap;

#[test]
fn succeed_42_wire_form() {
    let r = InterfaceResult::from_serialized(serde_json::to_string(&42));
    assert_eq!(r.to_json(), r#"{"success":true,"result":"42"}"#);
}

#[test]
fn succeed_round_trips_value() {
    let value = vec!["a".to_string(), "b\"c".to_string()];
    match InterfaceResult::from_serialized(serde_json::to_string(&value)) {
        InterfaceResult::Success { result } => {
            let back: Vec<String> = serde_json::from_str(&result).unwrap();
            assert_eq!(back, value);
        }
        other => panic!("unexpected {other:?}"),
    }
}

#[test]
fn serialization_failure_is_internal() {
    let mut m: HashMap<Vec<u8>, u8> = HashMap::new();
    m.insert(vec![1], 1);
    let serialized = serde_json::to_string(&m);
    assert!(serialized.is_err());
    match InterfaceResult::from_serialized(serialized) {
        InterfaceResult::Failure { is_internal, errors } => {
            assert!(is_internal);
            assert_eq!(errors.len(), 1);
            assert!(errors[0].starts_with("error serializing result: "));
            assert!(errors[0].contains("key must be a string"));
        }
        other => panic!("unexpected {other:?}"),
    }
}

#[test]
fn fail_internally_has_one_error() {
    match InterfaceResult::fail_internally("engine fault".to_string()) {
        InterfaceResult::Failure { is_internal, errors } => {
            assert!(is_internal);
            assert_eq!(errors, vec!["engine fault".to_string()]);
        }
        other => panic!("unexpected {other:?}"),
    }
}

#[test]
fn fail_bad_request_keeps_order() {
    let errs = vec!["first".to_string(), "second".to_string(), "third".to_string()];
    match InterfaceResult::fail_bad_request(errs.clone()) {
        InterfaceResult::Failure { is_internal, errors } => {
            assert!(!is_internal);
            assert_eq!(errors, errs);
        }
        other => panic!("unexpected {other:?}"),
    }
}

#[test]
fn fail_bad_request_wire_form() {
    let r = InterfaceResult::fail_bad_request(vec!["syntax error at line 3".to_string()]);
    assert_eq!(
        r.to_json(),
        r#"{"success":false,"isInternal":false,"errors":["syntax error at line 3"]}"#
    );
}

#[test]
fn fail_bad_request_empty_wire_form() {
    let r = InterfaceResult::fail_bad_request(Vec::new());
    assert_eq!(r.to_json(), r#"{"success":false,"isInternal":false,"errors":[]}"#);
}

#[test]
fn fail_internally_wire_form_escapes() {
    let r = InterfaceResult::fail_internally("bad \"op\"".to_string());
    assert_eq!(
        r.to_json(),
        r#"{"success":false,"isInternal":true,"errors":["bad \"op\""]}"#
    );
}

#[test]
fn several_errors_wire_form() {
    let r = InterfaceResult::fail_bad_request(vec!["a".to_string(), "b".to_string()]);
    assert_eq!(
        r.to_json(),
        r#"{"success":false,"isInternal":false,"errors":["a","b"]}"#
    );
}

#[test]
fn success_wire_form_quotes_result() {
    let r = InterfaceResult::from_serialized(serde_json::to_string("hi"));
    assert_eq!(r.to_json(), r#"{"success":true,"result":"\"hi\""}"#);
}
