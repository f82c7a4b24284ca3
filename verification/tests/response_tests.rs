use lclq::sqs::response::{
    build_create_queue_response, build_error_response, build_list_queues_response,
    build_send_message_response,
};
use lclq::sqs::json_response::xml_to_json_response;
use lclq::sqs::xml::escape_xml;
use lclq::sqs::types::SqsErrorCode;

#[test]
fn test_xml_escape() {
    assert_eq!(escape_xml("Hello <World>"), "Hello &lt;World&gt;");
    assert_eq!(escape_xml("A&B"), "A&amp;B");
}

#[test]
fn test_create_queue_response() {
    let response = build_create_queue_response("http://localhost:9324/queue/test");
    assert!(response.contains("CreateQueueResponse"));
    assert!(response.contains("http://localhost:9324/queue/test"));
    assert!(response.contains("RequestId"));
}

#[test]
fn test_error_response() {
    let response = build_error_response(SqsErrorCode::QueueDoesNotExist, "Queue does not exist");
    assert!(response.contains("ErrorResponse"));
    assert!(response.contains("AWS.SimpleQueueService.NonExistentQueue"));
    assert!(response.contains("Queue does not exist"));
}

#[test]
fn test_send_message_response() {
    let response = build_send_message_response("msg-123", "abc123", Some("def456"));
    assert!(response.contains("SendMessageResponse"));
    assert!(response.contains("msg-123"));
    assert!(response.contains("abc123"));
    assert!(response.contains("def456"));
}

#[test]
fn test_list_queues_response() {
    let urls = vec![
        "http://localhost:9324/queue/q1".to_string(),
        "http://localhost:9324/queue/q2".to_string(),
    ];
    let response = build_list_queues_response(&urls);
    assert!(response.contains("ListQueuesResponse"));
    assert!(response.contains("queue/q1"));
    assert!(response.contains("queue/q2"));
}

#[test]
fn test_list_queues_json_round_trip_special_chars() {
    let urls = vec![
        "http://localhost:9324/queue/a".to_string(),
        "http://localhost:9324/queue/q?x=1&y=<2>".to_string(),
    ];
    let json = xml_to_json_response(&build_list_queues_response(&urls));
    let v: serde_json::Value = serde_json::from_str(&json).unwrap();
    let got: Vec<String> = v["QueueUrls"].as_array().unwrap().iter().map(|u| u.as_str().unwrap().to_string()).collect();
    assert_eq!(got, urls);
}

#[test]
fn test_list_queues_json_empty() {
    let json = xml_to_json_response(&build_list_queues_response(&[]));
    let v: serde_json::Value = serde_json::from_str(&json).unwrap();
    assert_eq!(v["QueueUrls"].as_array().unwrap().len(), 0);
}
