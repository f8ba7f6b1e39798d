use newrelic_apikeys::client::NewRelicClient;
use newrelic_apikeys::encode::encode_request;
use newrelic_apikeys::envelope::{decode_envelope, decode_response, envelope_to_result, ClientError, Envelope};
use newrelic_apikeys::json::Json;
use newrelic_apikeys::ops::{create_api_key, delete_api_key, extract_key_details, query_api_keys, update_api_key};
use newrelic_apikeys::parse::parse_document;
use newrelic_apikeys::vars::Scalar;

#[test]
fn test_new_relic_client_creation() {
    let client = NewRelicClient::new(
        "test-api-key".to_string(),
        "https://api.newrelic.com/graphql".to_string(),
    );

    assert_eq!(client.api_key, "test-api-key");
    assert_eq!(client.endpoint, "https://api.newrelic.com/graphql");
}

#[test]
fn test_graphql_error_deserialization() {
    let error_json = r#"
    {
        "errors": [
            {
                "message": "Invalid API key",
                "locations": [{"line": 1, "column": 1}],
                "path": ["actor"]
            }
        ]
    }
    "#;

    let response: Envelope = decode_envelope(error_json).unwrap();
    assert!(response.errors.is_some());
    assert_eq!(response.errors.unwrap()[0].message, "Invalid API key");
}

#[test]
fn test_graphql_success_deserialization() {
    let success_json = r#"
    {
        "data": {
            "actor": {
                "account": {
                    "apiAccess": {
                        "keys": [
                            {
                                "id": "key-123",
                                "name": "Test Key",
                                "type": "USER",
                                "notes": "Test notes"
                            }
                        ]
                    }
                }
            }
        }
    }
    "#;

    let response: Envelope = decode_envelope(success_json).unwrap();
    assert!(response.data.is_some());
    assert!(response.errors.is_none());

    let data = response.data.unwrap();
    let keys = match data
        .get("actor")
        .and_then(|a| a.get("account"))
        .and_then(|a| a.get("apiAccess"))
        .and_then(|a| a.get("keys"))
    {
        Some(Json::Arr(items)) => items,
        other => panic!("keys not found: {:?}", other),
    };
    assert_eq!(keys.len(), 1);
    assert_eq!(keys[0].get("name"), Some(&Json::Str("Test Key".to_string())));
    assert_eq!(keys[0].get("type"), Some(&Json::Str("USER".to_string())));
}

#[test]
fn test_key_id_filtering() {
    let test_data = parse_document(
        r#"{
        "actor": {
            "apiAccess": {
                "keys": [
                    {
                        "id": "key-123",
                        "name": "First Key",
                        "type": "USER",
                        "notes": "First key notes"
                    },
                    {
                        "id": "key-456",
                        "name": "Second Key",
                        "type": "INGEST",
                        "notes": "Second key notes"
                    }
                ]
            }
        }
    }"#,
    )
    .unwrap();

    let keys = match test_data
        .get("actor")
        .and_then(|a| a.get("apiAccess"))
        .and_then(|a| a.get("keys"))
    {
        Some(Json::Arr(items)) => items,
        other => panic!("keys not found: {:?}", other),
    };

    let key_id_filter = "key-123";
    let filtered_keys: Vec<&Json> = keys
        .iter()
        .filter(|key| match key.get("id") {
            Some(Json::Str(id)) => id == key_id_filter,
            _ => false,
        })
        .collect();

    assert_eq!(filtered_keys.len(), 1);
    assert_eq!(filtered_keys[0].get("id"), Some(&Json::Str("key-123".to_string())));
    assert_eq!(filtered_keys[0].get("name"), Some(&Json::Str("First Key".to_string())));
}

// A response with non-empty errors fails with the ", "-joined messages,
// in their original order.
#[test]
fn errors_join_in_order() {
    let body = r#"{"data": {"x": 1}, "errors": [
        {"message": "first"},
        {"message": "second"},
        {"message": "third"}
    ]}"#;
    match decode_response(body) {
        Err(ClientError::Api(m)) => assert_eq!(m, "first, second, third"),
        other => panic!("expected an API error, got {:?}", other),
    }
}

// Empty or absent errors with absent data is a success carrying null.
#[test]
fn no_errors_no_data_is_null_success() {
    assert_eq!(decode_response("{}"), Ok(Json::Null));
    assert_eq!(decode_response(r#"{"errors": []}"#), Ok(Json::Null));
    assert_eq!(decode_response(r#"{"data": null, "errors": null}"#), Ok(Json::Null));
}

#[test]
fn envelope_classification() {
    let env = decode_envelope(r#"{"errors": []}"#).unwrap();
    assert_eq!(envelope_to_result(env), Ok(Json::Null));
    let env = decode_envelope(r#"{"errors": [{"message": "boom"}]}"#).unwrap();
    assert_eq!(envelope_to_result(env), Err(ClientError::Api("boom".to_string())));
}

// Round trip: the encoded variables parse back out of the body verbatim.
#[test]
fn request_body_round_trip() {
    let op = create_api_key(
        "12345".to_string(),
        "INGEST".to_string(),
        "svc \"quoted\"\nname".to_string(),
        Some("notes, with\ttabs".to_string()),
    );
    let body = encode_request(op.document.as_str(), Some(&op.variables));
    let parsed = parse_document(body.as_str()).unwrap();
    match parsed.get("query") {
        Some(Json::Str(q)) => assert_eq!(q, &op.document),
        other => panic!("query missing: {:?}", other),
    }
    let vars = match parsed.get("variables") {
        Some(Json::Obj(pairs)) => pairs,
        other => panic!("variables missing: {:?}", other),
    };
    assert_eq!(vars.len(), 4);
    assert_eq!(vars[0], ("accountId".to_string(), Json::Str("12345".to_string())));
    assert_eq!(vars[1], ("keyType".to_string(), Json::Str("INGEST".to_string())));
    assert_eq!(vars[2], ("name".to_string(), Json::Str("svc \"quoted\"\nname".to_string())));
    assert_eq!(vars[3], ("notes".to_string(), Json::Str("notes, with\ttabs".to_string())));
}

#[test]
fn scalar_kinds_round_trip() {
    let mut op = delete_api_key("k".to_string());
    op.variables.push("count".to_string(), Scalar::Num(-42));
    op.variables.push("flag".to_string(), Scalar::Bool(true));
    op.variables.push("empty".to_string(), Scalar::Null);
    let body = encode_request(op.document.as_str(), Some(&op.variables));
    let parsed = parse_document(body.as_str()).unwrap();
    let vars = match parsed.get("variables") {
        Some(Json::Obj(pairs)) => pairs,
        other => panic!("variables missing: {:?}", other),
    };
    assert_eq!(vars[1], ("count".to_string(), Json::Num("-42".to_string())));
    assert_eq!(vars[2], ("flag".to_string(), Json::Bool(true)));
    assert_eq!(vars[3], ("empty".to_string(), Json::Null));
}

// Query path: a found key reports absent fields as "N/A" and the rest
// verbatim.
#[test]
fn query_extraction_substitutes_missing_fields() {
    let data = parse_document(
        r#"{"actor": {"apiAccess": {"key": {"key": "abc", "name": "n", "type": "USER"}}}}"#,
    )
    .unwrap();
    let details = extract_key_details(&data).unwrap();
    assert_eq!(details.key, "abc");
    assert_eq!(details.name, "n");
    assert_eq!(details.key_type, "USER");
    assert_eq!(details.notes, "N/A");
}

// Query path: an absent key path is the not-found outcome, not an error.
#[test]
fn query_extraction_not_found() {
    let data = parse_document(r#"{"actor": {"apiAccess": {}}}"#).unwrap();
    assert!(extract_key_details(&data).is_none());
    let empty = parse_document("{}").unwrap();
    assert!(extract_key_details(&empty).is_none());
}

// Create path: without notes, exactly accountId, keyType and name are bound.
#[test]
fn create_variables_omit_absent_notes() {
    let op = create_api_key("12345".to_string(), "INGEST".to_string(), "svc-key".to_string(), None);
    let names: Vec<&str> = op.variables.pairs.iter().map(|p| p.0.as_str()).collect();
    assert_eq!(names, vec!["accountId", "keyType", "name"]);
    assert_eq!(op.variables.pairs[0].1, Scalar::Str("12345".to_string()));
    assert_eq!(op.variables.pairs[1].1, Scalar::Str("INGEST".to_string()));
    assert_eq!(op.variables.pairs[2].1, Scalar::Str("svc-key".to_string()));
}

// Update path: with only a new name, exactly keyId and name are bound.
#[test]
fn update_variables_omit_absent_fields() {
    let op = update_api_key("abc-1".to_string(), Some("new-name".to_string()), None);
    let names: Vec<&str> = op.variables.pairs.iter().map(|p| p.0.as_str()).collect();
    assert_eq!(names, vec!["keyId", "name"]);
    assert_eq!(op.variables.pairs[0].1, Scalar::Str("abc-1".to_string()));
    assert_eq!(op.variables.pairs[1].1, Scalar::Str("new-name".to_string()));
}

#[test]
fn query_variables_bound_only_together() {
    let op = query_api_keys(Some("USER".to_string()), Some("key-1".to_string()));
    let names: Vec<&str> = op.variables.pairs.iter().map(|p| p.0.as_str()).collect();
    assert_eq!(names, vec!["id", "keyType"]);
    let partial = query_api_keys(Some("USER".to_string()), None);
    assert_eq!(partial.variables.pairs.len(), 0);
    let neither = query_api_keys(None, None);
    assert_eq!(neither.variables.pairs.len(), 0);
}

// End to end: the POST body for a delete, and the pass-through success of
// its mocked response.
#[test]
fn delete_end_to_end() {
    let op = delete_api_key("key-999".to_string());
    let body = encode_request(op.document.as_str(), Some(&op.variables));
    // the delete document holds no character that needs escaping
    let expected = format!(
        "{{\"query\":\"{}\",\"variables\":{{\"keyId\":\"key-999\"}}}}",
        op.document
    );
    assert_eq!(body, expected);

    let mocked = r#"{"data": {"apiAccessDeleteKeys": {"deletedKeys": [{"id": "key-999"}], "errors": null}}}"#;
    let result = decode_response(mocked).unwrap();
    let deleted = match result
        .get("apiAccessDeleteKeys")
        .and_then(|d| d.get("deletedKeys"))
    {
        Some(Json::Arr(items)) => items,
        other => panic!("deletedKeys missing: {:?}", other),
    };
    assert_eq!(deleted[0].get("id"), Some(&Json::Str("key-999".to_string())));
}

// Malformed bodies and envelope-shaped mismatches are decode errors.
#[test]
fn decode_errors() {
    assert!(matches!(decode_response("{"), Err(ClientError::Decode(_))));
    assert!(matches!(decode_response("not json"), Err(ClientError::Decode(_))));
    assert!(matches!(decode_response("[1, 2]"), Err(ClientError::Decode(_))));
    assert!(matches!(
        decode_response(r#"{"errors": "nope"}"#),
        Err(ClientError::Decode(_))
    ));
    assert!(matches!(
        decode_response(r#"{"errors": [{"message": 7}]}"#),
        Err(ClientError::Decode(_))
    ));
}

#[test]
fn error_locations_and_path_decode() {
    let env = decode_envelope(
        r#"{"errors": [{"message": "m", "locations": [{"line": 3, "column": 14}], "path": ["a", "b"]}]}"#,
    )
    .unwrap();
    let errs = env.errors.unwrap();
    let locs = errs[0].locations.as_ref().unwrap();
    assert_eq!((locs[0].line, locs[0].column), (3, 14));
    assert_eq!(errs[0].path.as_ref().unwrap(), &vec!["a".to_string(), "b".to_string()]);
}

#[test]
fn string_escapes_decode() {
    let parsed = parse_document(r#""a\"b\\c\n\tA😀""#).unwrap();
    assert_eq!(parsed, Json::Str("a\"b\\c\n\tA\u{1F600}".to_string()));
    // a lone surrogate is malformed
    assert!(parse_document(r#""\uD83D""#).is_none());
}

#[test]
fn number_literals_keep_their_text() {
    assert_eq!(parse_document("-3.5e2"), Some(Json::Num("-3.5e2".to_string())));
    assert_eq!(parse_document(" 12 "), Some(Json::Num("12".to_string())));
    // leading zeros and trailing garbage are malformed
    assert!(parse_document("012").is_none());
    assert!(parse_document("1x").is_none());
}

#[test]
fn control_characters_are_escaped() {
    let body = encode_request("a\u{1}b", None);
    assert_eq!(body, "{\"query\":\"a\\u0001b\"}");
    assert_eq!(parse_document(&body).unwrap().get("query"), Some(&Json::Str("a\u{1}b".to_string())));
}
