use cfn_custom_resource::event::decode_event;
use cfn_custom_resource::event::CustomResourceEvent;
use cfn_custom_resource::event::DecodeError;
use cfn_custom_resource::event::Field;
use cfn_custom_resource::json::encode_json;
use cfn_custom_resource::json::JsonValue;
use cfn_custom_resource::parse::parse_json;

fn delete_event_json() -> String {
    "{\"RequestType\":\"Create\",\
     \"RequestId\":\"unique id for this delete request\",\
     \"ResponseURL\":\"pre-signed-url-for-delete-response\",\
     \"ResourceType\":\"Custom::MyCustomResourceType\",\
     \"LogicalResourceId\":\"name of resource in template\",\
     \"StackId\":\"arn:aws:cloudformation:us-east-2:namespace:stack/stack-name/guid\",\
     \"ResourceProperties\":{\"a\":\"string\",\"b\":[\"list\"]}}"
        .to_string()
}

#[test]
fn test_serialize() {
    let data = delete_event_json();
    let actual = decode_event(data.as_bytes()).unwrap();
    match actual {
        CustomResourceEvent::Create(p) => {
            assert_eq!(p.request_id, b"unique id for this delete request".to_vec());
            assert_eq!(p.response_url, b"pre-signed-url-for-delete-response".to_vec());
            assert_eq!(p.resource_type, b"Custom::MyCustomResourceType".to_vec());
            assert_eq!(p.logical_resource_id, b"name of resource in template".to_vec());
            assert_eq!(
                p.stack_id,
                b"arn:aws:cloudformation:us-east-2:namespace:stack/stack-name/guid".to_vec()
            );
            assert!(p.physical_resource_id.is_none());
            let props = encode_json(&p.resource_properties);
            assert_eq!(props, b"{\"a\":\"string\",\"b\":[\"list\"]}".to_vec());
        }
        _ => panic!("expected a Create event"),
    }
}

fn event_json(request_type: &str, physical_id: Option<&str>) -> String {
    let pid = match physical_id {
        Some(p) => format!("\"PhysicalResourceId\":\"{}\",", p),
        None => String::new(),
    };
    format!(
        "{{\"RequestType\":\"{}\",{}\"RequestId\":\"id-1\",\
         \"ResponseURL\":\"https://bucket.example/presigned\",\
         \"ResourceType\":\"Custom::X\",\"LogicalResourceId\":\"Name\",\
         \"StackId\":\"arn:aws:cloudformation:us-east-2:ns:stack/s/guid\",\
         \"ResourceProperties\":{{\"a\":\"string\",\"b\":[\"list\"]}}}}",
        request_type, pid
    )
}

#[test]
fn variant_follows_request_type() {
    let c = decode_event(event_json("Create", None).as_bytes()).unwrap();
    assert!(matches!(c, CustomResourceEvent::Create(_)));
    let u = decode_event(
        event_json("Update", Some("550e8400-e29b-41d4-a716-446655440000")).as_bytes(),
    )
    .unwrap();
    assert!(matches!(u, CustomResourceEvent::Update(_)));
    let d = decode_event(
        event_json("Delete", Some("550e8400-e29b-41d4-a716-446655440000")).as_bytes(),
    )
    .unwrap();
    assert!(matches!(d, CustomResourceEvent::Delete(_)));
}

#[test]
fn unknown_request_type_fails() {
    let r = decode_event(event_json("Destroy", None).as_bytes());
    assert_eq!(r.unwrap_err(), DecodeError::BadRequestType);
}

#[test]
fn malformed_json_fails() {
    assert_eq!(
        decode_event(b"{\"RequestType\":").unwrap_err(),
        DecodeError::MalformedJson
    );
}

#[test]
fn non_object_fails() {
    assert_eq!(decode_event(b"[1,2]").unwrap_err(), DecodeError::NotAnObject);
}

#[test]
fn missing_field_fails() {
    let doc = "{\"RequestType\":\"Create\",\"ResponseURL\":\"u\",\
               \"ResourceType\":\"t\",\"LogicalResourceId\":\"l\",\
               \"StackId\":\"s\",\"ResourceProperties\":{}}";
    assert_eq!(
        decode_event(doc.as_bytes()).unwrap_err(),
        DecodeError::MissingField(Field::RequestId)
    );
}

#[test]
fn duplicate_field_fails() {
    let doc = "{\"RequestType\":\"Create\",\"RequestType\":\"Delete\"}";
    assert_eq!(
        decode_event(doc.as_bytes()).unwrap_err(),
        DecodeError::DuplicateField(Field::RequestType)
    );
}

#[test]
fn non_string_field_fails() {
    let doc = "{\"RequestType\":\"Create\",\"RequestId\":5}";
    assert_eq!(
        decode_event(doc.as_bytes()).unwrap_err(),
        DecodeError::NotAString(Field::RequestId)
    );
}

#[test]
fn bad_physical_id_fails() {
    let r = decode_event(event_json("Delete", Some("not-a-uuid")).as_bytes());
    assert_eq!(r.unwrap_err(), DecodeError::BadPhysicalResourceId);
}

#[test]
fn missing_properties_fails() {
    let doc = "{\"RequestType\":\"Create\",\"RequestId\":\"i\",\"ResponseURL\":\"u\",\
               \"ResourceType\":\"t\",\"LogicalResourceId\":\"l\",\"StackId\":\"s\"}";
    assert_eq!(
        decode_event(doc.as_bytes()).unwrap_err(),
        DecodeError::MissingField(Field::ResourceProperties)
    );
}

fn body_of(resp: cfn_custom_resource::response::CustomResourceResponse) -> serde_json::Value {
    let bytes = resp.serialized_body();
    serde_json::from_slice(&bytes).unwrap()
}

fn update_payload(
) -> cfn_custom_resource::event::CloudformationPayload<cfn_custom_resource::json::JsonValue> {
    let ev = decode_event(
        event_json("Update", Some("550e8400-e29b-41d4-a716-446655440000")).as_bytes(),
    )
    .unwrap();
    match ev {
        CustomResourceEvent::Update(p) => p,
        _ => panic!("expected an Update event"),
    }
}

fn create_payload(
) -> cfn_custom_resource::event::CloudformationPayload<cfn_custom_resource::json::JsonValue> {
    let ev = decode_event(event_json("Create", None).as_bytes()).unwrap();
    match ev {
        CustomResourceEvent::Create(p) => p,
        _ => panic!("expected a Create event"),
    }
}

#[test]
fn success_echoes_physical_id() {
    let body = body_of(update_payload().respond_with_success(b"ok"));
    assert_eq!(body["Status"], "SUCCESS");
    assert_eq!(body["Reason"], "ok");
    assert_eq!(body["PhysicalResourceId"], "550e8400-e29b-41d4-a716-446655440000");
    assert_eq!(body["StackId"], "arn:aws:cloudformation:us-east-2:ns:stack/s/guid");
    assert_eq!(body["RequestId"], "id-1");
    assert_eq!(body["LogicalResourceId"], "Name");
}

#[test]
fn failure_on_create_gets_fresh_uuid() {
    let body = body_of(create_payload().respond_with_failure(b"bad"));
    assert_eq!(body["Status"], "FAILED");
    assert_eq!(body["Reason"], "bad");
    let pid = body["PhysicalResourceId"].as_str().unwrap();
    let parsed = uuid::Uuid::parse_str(pid).unwrap();
    assert_eq!(parsed.get_version_num(), 4);
    assert_ne!(pid, "550e8400-e29b-41d4-a716-446655440000");
    assert_ne!(pid, "id-1");
}

#[test]
fn respond_with_maps_results() {
    let ok: Result<u32, Vec<u8>> = Ok(7);
    let body = body_of(update_payload().respond_with(ok));
    assert_eq!(body["Status"], "SUCCESS");
    assert_eq!(body["Reason"], "Success");

    let err: Result<u32, Vec<u8>> = Err(b"boom".to_vec());
    let body = body_of(update_payload().respond_with(err));
    assert_eq!(body["Status"], "FAILED");
    assert_eq!(body["Reason"], "boom");
}

#[test]
fn data_last_write_wins() {
    let resp = update_payload()
        .respond_with_success(b"ok")
        .add_data(b"k1", b"v1")
        .add_data(b"k1", b"v2")
        .add_data(b"k2", b"v3");
    let body = body_of(resp);
    let data = body["Data"].as_object().unwrap();
    assert_eq!(data.len(), 2);
    assert_eq!(data["k1"], "v2");
    assert_eq!(data["k2"], "v3");
}

#[test]
fn data_omitted_until_inserted() {
    let body = body_of(update_payload().respond_with_success(b"ok"));
    assert!(body.get("Data").is_none());
    let body = body_of(update_payload().respond_with_success(b"ok").add_data(b"k", b"v"));
    assert!(body.get("Data").is_some());
}

#[test]
fn no_echo_last_write_wins() {
    let body = body_of(update_payload().respond_with_success(b"ok"));
    assert!(body.get("NoEcho").is_none());
    let resp = update_payload()
        .respond_with_success(b"ok")
        .set_no_echo(true)
        .set_no_echo(false);
    let body = body_of(resp);
    assert_eq!(body["NoEcho"], false);
}

#[test]
fn response_url_not_in_body() {
    let resp = update_payload().respond_with_success(b"ok");
    assert_eq!(resp.response_url(), b"https://bucket.example/presigned".to_vec());
    let bytes = resp.serialized_body();
    let text = String::from_utf8(bytes).unwrap();
    assert!(!text.contains("ResponseURL"));
    assert!(!text.contains("https://bucket.example/presigned"));
    let body: serde_json::Value = serde_json::from_str(&text).unwrap();
    let keys: Vec<String> = body.as_object().unwrap().keys().cloned().collect();
    let mut expected: Vec<String> =
        ["Status", "Reason", "PhysicalResourceId", "StackId", "RequestId", "LogicalResourceId"]
            .iter()
            .map(|s| s.to_string())
            .collect();
    expected.sort();
    assert_eq!(keys, expected);
}

#[test]
fn json_round_trip_concrete() {
    let doc = "{\"a\":[1,-2.5e3,true,false,null],\"b\":\"x\\n\\\"y\\\\z\\u0001\",\"c\":{}}";
    let v = parse_json(doc.as_bytes()).unwrap();
    let out = encode_json(&v);
    let v2 = parse_json(&out).unwrap();
    let out2 = encode_json(&v2);
    assert_eq!(out, out2);
    let sv: serde_json::Value = serde_json::from_slice(&out).unwrap();
    assert_eq!(sv["b"], "x\n\"y\\z\u{1}");
}

#[test]
fn unicode_escapes_decode_to_utf8() {
    let v = parse_json(b"\"caf\\u00e9 \\uD83D\\uDE00\"").unwrap();
    match v {
        JsonValue::Str(bytes) => {
            assert_eq!(String::from_utf8(bytes).unwrap(), "caf\u{e9} \u{1F600}");
        }
        _ => panic!("expected a string"),
    }
    assert!(parse_json(b"\"\\uD83D\"").is_none());
}

#[test]
fn uppercase_uuid_is_normalized() {
    let ev = decode_event(
        event_json("Update", Some("550E8400-E29B-41D4-A716-446655440000")).as_bytes(),
    )
    .unwrap();
    let body = body_of(match ev {
        CustomResourceEvent::Update(p) => p.respond_with_success(b"ok"),
        _ => panic!("expected an Update event"),
    });
    assert_eq!(body["PhysicalResourceId"], "550e8400-e29b-41d4-a716-446655440000");
}

#[test]
fn reason_with_specials_is_escaped() {
    let body = body_of(update_payload().respond_with_failure(b"line1\nline2 \"q\" \\slash"));
    assert_eq!(body["Reason"], "line1\nline2 \"q\" \\slash");
}
