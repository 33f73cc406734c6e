use cedar_interface::policy_spec::{DecodeError, PolicySpecification, RawPolicyInput};

fn member(key: &str, value: &str) -> (String, Option<String>) {
    (key.to_string(), Some(value.to_string()))
}

#[test]
fn bare_string_decodes_to_concatenated() {
    let input = RawPolicyInput::Text("permit(principal,action,resource);".to_string());
    match PolicySpecification::decode(input) {
        Ok(PolicySpecification::Concatenated(s)) => {
            assert_eq!(s, "permit(principal,action,resource);")
        }
        other => panic!("unexpected {other:?}"),
    }
}

#[test]
fn empty_string_decodes_to_concatenated() {
    let input = RawPolicyInput::Text(String::new());
    assert!(matches!(
        PolicySpecification::decode(input),
        Ok(PolicySpecification::Concatenated(s)) if s.is_empty()
    ));
}

#[test]
fn unique_ids_decode_to_map_in_order() {
    let input = RawPolicyInput::Object(vec![
        member("p0", "permit(principal,action,resource);"),
        member("p1", "forbid(principal,action,resource);"),
    ]);
    match PolicySpecification::decode(input) {
        Ok(PolicySpecification::IdMap(entries)) => assert_eq!(
            entries,
            vec![
                ("p0".to_string(), "permit(principal,action,resource);".to_string()),
                ("p1".to_string(), "forbid(principal,action,resource);".to_string()),
            ]
        ),
        other => panic!("unexpected {other:?}"),
    }
}

#[test]
fn empty_object_decodes_to_empty_map() {
    let input = RawPolicyInput::Object(Vec::new());
    assert!(matches!(
        PolicySpecification::decode(input),
        Ok(PolicySpecification::IdMap(entries)) if entries.is_empty()
    ));
}

#[test]
fn duplicate_id_is_rejected() {
    let input = RawPolicyInput::Object(vec![
        member("p0", "permit(principal,action,resource);"),
        member("p0", "forbid(principal,action,resource);"),
    ]);
    let err = PolicySpecification::decode(input).unwrap_err();
    assert_eq!(err, DecodeError::DuplicateId("p0".to_string()));
    assert!(err.message().contains("p0"));
    assert!(err.message().contains("duplicate"));
}

#[test]
fn duplicate_id_far_apart_is_rejected() {
    let input = RawPolicyInput::Object(vec![
        member("a", "x"),
        member("b", "y"),
        member("c", "z"),
        member("a", "w"),
    ]);
    assert_eq!(
        PolicySpecification::decode(input).unwrap_err(),
        DecodeError::DuplicateId("a".to_string())
    );
}

#[test]
fn non_string_member_is_invalid_shape() {
    let input = RawPolicyInput::Object(vec![member("p0", "x"), ("p1".to_string(), None)]);
    assert_eq!(
        PolicySpecification::decode(input).unwrap_err(),
        DecodeError::InvalidShape
    );
}

#[test]
fn first_fault_decides_the_error() {
    let input = RawPolicyInput::Object(vec![
        member("p0", "x"),
        member("p0", "y"),
        ("p1".to_string(), None),
    ]);
    assert_eq!(
        PolicySpecification::decode(input).unwrap_err(),
        DecodeError::DuplicateId("p0".to_string())
    );
}

#[test]
fn other_shape_is_invalid() {
    let err = PolicySpecification::decode(RawPolicyInput::Other).unwrap_err();
    assert_eq!(err, DecodeError::InvalidShape);
    assert_eq!(
        err.message(),
        "policies as a concatenated string or multiple policies as a hashmap where the policy Id is the key with no duplicate IDs"
    );
}

#[test]
fn duplicate_id_message() {
    assert_eq!(
        DecodeError::DuplicateId("p7".to_string()).message(),
        "found duplicate policy id: p7"
    );
}
