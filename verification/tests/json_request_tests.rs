use lclq::sqs::json::{JsonNumber, JsonValue};
use lclq::sqs::request::SqsRequest;
use lclq::sqs::types::SqsAction;

/// Reads a JSON text the way the server does before it hands the document to
/// the request parser.
fn to_value(v: &serde_json::Value) -> JsonValue {
    match v {
        serde_json::Value::Null => JsonValue::Null,
        serde_json::Value::Bool(b) => JsonValue::Bool(*b),
        serde_json::Value::Number(n) => JsonValue::Number(JsonNumber {
            text: n.to_string(),
            unsigned: n.as_u64(),
        }),
        serde_json::Value::String(s) => JsonValue::Str(s.clone()),
        serde_json::Value::Array(items) => JsonValue::Array(items.iter().map(to_value).collect()),
        serde_json::Value::Object(members) => JsonValue::Object(
            members.iter().map(|(k, v)| (k.clone(), to_value(v))).collect(),
        ),
    }
}

fn read(text: &str) -> Result<JsonValue, String> {
    serde_json::from_str::<serde_json::Value>(text)
        .map(|v| to_value(&v))
        .map_err(|e| e.to_string())
}

fn parse_request(body: &str, target: Option<&str>) -> Result<SqsRequest, String> {
    let reading = read(body);
    let attributes = match &reading {
        Ok(v) => SqsRequest::embedded_attributes_text(v).and_then(|t| read(t).ok()),
        Err(_) => None,
    };
    SqsRequest::parse_with_headers(body, target, reading, attributes.as_ref())
}

fn entries_of(req: &SqsRequest) -> Option<JsonValue> {
    req.get_param("Entries").and_then(|t| read(t).ok())
}

#[test]
fn test_parse_json_create_queue() {
    let json_body = r#"{"QueueName": "test-queue"}"#;
    let req = parse_request(json_body, Some("AmazonSQS.CreateQueue")).unwrap();

    assert_eq!(req.action, SqsAction::CreateQueue);
    assert_eq!(req.get_param("QueueName"), Some("test-queue"));
    assert!(req.is_json);
}

#[test]
fn test_parse_json_send_message() {
    let json_body = r#"{
            "QueueUrl": "http://localhost:9324/queue/test",
            "MessageBody": "Hello JSON World"
        }"#;
    let req = parse_request(json_body, Some("AmazonSQS.SendMessage")).unwrap();

    assert_eq!(req.action, SqsAction::SendMessage);
    assert_eq!(req.get_param("QueueUrl"), Some("http://localhost:9324/queue/test"));
    assert_eq!(req.get_param("MessageBody"), Some("Hello JSON World"));
}

#[test]
fn test_parse_json_with_message_attributes() {
    let json_body = r#"{
            "QueueUrl": "http://localhost:9324/queue/test",
            "MessageBody": "Test",
            "MessageAttributes": {
                "attr1": {
                    "DataType": "String",
                    "StringValue": "value1"
                },
                "attr2": {
                    "DataType": "Number",
                    "StringValue": "123"
                }
            }
        }"#;
    let req = parse_request(json_body, Some("AmazonSQS.SendMessage")).unwrap();

    let attrs = req.parse_message_attributes();
    assert_eq!(attrs.len(), 2);
    assert_eq!(attrs.get("attr1").unwrap().data_type, "String");
    assert_eq!(attrs.get("attr1").unwrap().string_value, Some("value1".to_string()));
    assert_eq!(attrs.get("attr2").unwrap().data_type, "Number");
    assert_eq!(attrs.get("attr2").unwrap().string_value, Some("123".to_string()));
}

#[test]
fn test_parse_json_with_queue_attributes() {
    let json_body = r#"{
            "QueueName": "test-queue",
            "Attributes": {
                "VisibilityTimeout": "60",
                "MessageRetentionPeriod": "86400"
            }
        }"#;
    let req = parse_request(json_body, Some("AmazonSQS.CreateQueue")).unwrap();

    let attrs = req.parse_queue_attributes();
    assert_eq!(attrs.get("VisibilityTimeout"), Some(&"60".to_string()));
    assert_eq!(attrs.get("MessageRetentionPeriod"), Some(&"86400".to_string()));
}

#[test]
fn test_parse_json_send_message_batch() {
    let json_body = r#"{
            "QueueUrl": "http://localhost:9324/queue/test",
            "Entries": [
                {
                    "Id": "msg1",
                    "MessageBody": "First message"
                },
                {
                    "Id": "msg2",
                    "MessageBody": "Second message",
                    "DelaySeconds": 5
                }
            ]
        }"#;
    let req = parse_request(json_body, Some("AmazonSQS.SendMessageBatch")).unwrap();

    let entries_json = entries_of(&req);
    let entries = req.parse_send_message_batch_entries(entries_json.as_ref());
    assert_eq!(entries.len(), 2);
    assert_eq!(entries[0].id, "msg1");
    assert_eq!(entries[0].message_body, "First message");
    assert_eq!(entries[0].delay_seconds, None);
    assert_eq!(entries[1].id, "msg2");
    assert_eq!(entries[1].message_body, "Second message");
    assert_eq!(entries[1].delay_seconds, Some(5));
}

#[test]
fn test_parse_json_delete_message_batch() {
    let json_body = r#"{
            "QueueUrl": "http://localhost:9324/queue/test",
            "Entries": [
                {
                    "Id": "msg1",
                    "ReceiptHandle": "handle1"
                },
                {
                    "Id": "msg2",
                    "ReceiptHandle": "handle2"
                }
            ]
        }"#;
    let req = parse_request(json_body, Some("AmazonSQS.DeleteMessageBatch")).unwrap();

    let entries_json = entries_of(&req);
    let entries = req.parse_delete_message_batch_entries(entries_json.as_ref());
    assert_eq!(entries.len(), 2);
    assert_eq!(entries[0].id, "msg1");
    assert_eq!(entries[0].receipt_handle, "handle1");
    assert_eq!(entries[1].id, "msg2");
    assert_eq!(entries[1].receipt_handle, "handle2");
}

#[test]
fn test_parse_json_change_visibility_batch() {
    let json_body = r#"{
            "QueueUrl": "http://localhost:9324/queue/test",
            "Entries": [
                {
                    "Id": "msg1",
                    "ReceiptHandle": "handle1",
                    "VisibilityTimeout": 30
                },
                {
                    "Id": "msg2",
                    "ReceiptHandle": "handle2",
                    "VisibilityTimeout": 60
                }
            ]
        }"#;
    let req = parse_request(json_body, Some("AmazonSQS.ChangeMessageVisibilityBatch")).unwrap();

    let entries_json = entries_of(&req);
    let entries = req.parse_change_visibility_batch_entries(entries_json.as_ref());
    assert_eq!(entries.len(), 2);
    assert_eq!(entries[0].id, "msg1");
    assert_eq!(entries[0].receipt_handle, "handle1");
    assert_eq!(entries[0].visibility_timeout, 30);
    assert_eq!(entries[1].id, "msg2");
    assert_eq!(entries[1].receipt_handle, "handle2");
    assert_eq!(entries[1].visibility_timeout, 60);
}

#[test]
fn test_parse_json_get_queue_attributes_with_attribute_names() {
    let json_body = r#"{
            "QueueUrl": "http://localhost:9324/queue/test",
            "AttributeNames": ["VisibilityTimeout", "MessageRetentionPeriod", "QueueArn"]
        }"#;
    let req = parse_request(json_body, Some("AmazonSQS.GetQueueAttributes")).unwrap();

    let names_json = req.get_param("AttributeNames").and_then(|t| read(t).ok());
    let attr_names = req.parse_attribute_names(names_json.as_ref());
    assert_eq!(attr_names.len(), 3);
    assert!(attr_names.contains(&"VisibilityTimeout".to_string()));
    assert!(attr_names.contains(&"MessageRetentionPeriod".to_string()));
    assert!(attr_names.contains(&"QueueArn".to_string()));
}

#[test]
fn test_parse_json_missing_x_amz_target() {
    let json_body = r#"{"QueueName": "test-queue"}"#;
    let result = parse_request(json_body, None);
    assert!(result.is_err());
}

#[test]
fn test_parse_json_invalid_action() {
    let json_body = r#"{"QueueName": "test-queue"}"#;
    let result = parse_request(json_body, Some("AmazonSQS.InvalidAction"));
    assert!(result.is_err());
}

#[test]
fn test_parse_json_malformed_json() {
    let json_body = r#"{"QueueName": "test-queue"#;
    let result = parse_request(json_body, Some("CreateQueue"));
    assert!(result.is_err());
    let result = parse_request(json_body, Some("AmazonSQS.CreateQueue"));
    assert!(result.is_err());
}

#[test]
fn test_parse_json_error_messages() {
    let json_body = r#"{"QueueName": "q"}"#;
    assert_eq!(
        parse_request(json_body, None).err(),
        Some("Missing X-Amz-Target header for JSON request".to_string())
    );
    assert_eq!(
        parse_request(json_body, Some("Other.CreateQueue")).err(),
        Some("Invalid X-Amz-Target format: Other.CreateQueue".to_string())
    );
    assert_eq!(
        parse_request(json_body, Some("AmazonSQS.Nope")).err(),
        Some("Unknown action: Unknown SQS action: Nope".to_string())
    );
}

#[test]
fn test_parse_json_scalar_members() {
    let json_body = r#"{"QueueUrl": "u", "MaxNumberOfMessages": 10, "Flag": true, "Gone": null}"#;
    let req = parse_request(json_body, Some("AmazonSQS.ReceiveMessage")).unwrap();
    assert_eq!(req.get_param("MaxNumberOfMessages"), Some("10"));
    assert_eq!(req.get_param("Flag"), Some("true"));
    assert_eq!(req.get_param("Gone"), None);
}

#[test]
fn test_parse_form_body_not_json() {
    let req = parse_request("Action=ListQueues", None).unwrap();
    assert_eq!(req.action, SqsAction::ListQueues);
    assert!(!req.is_json);
}
