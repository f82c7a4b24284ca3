use lclq::dict::Dict;
use lclq::sqs::actions::{
    add_tags, build_list_queue_tags_response, finish_id_batch, finish_response, finish_send_message_batch,
    plan_change_message_visibility, plan_change_visibility_batch, plan_delete_message, plan_delete_message_batch,
    plan_get_queue_url, plan_list_queues, plan_receive_message, plan_send_message, plan_send_message_batch,
    queue_name_from_request, refusal_response, remove_tags, respond_create_queue, respond_delete_queue,
    respond_get_queue_attributes, respond_get_queue_url, respond_list_queues, respond_missing_queue,
    respond_purge_queue, respond_receipt_action, respond_receive_message, respond_send_message,
    respond_set_queue_attributes, respond_tags_updated, BatchOutcome, BatchStep,
};
use lclq::sqs::handler::{apply_queue_attributes, create_queue_config};
use lclq::sqs::json::{JsonNumber, JsonValue};
use lclq::sqs::request::SqsRequest;
use lclq::sqs::response::{
    build_change_visibility_batch_response, build_delete_message_batch_response, build_send_message_batch_response,
};
use lclq::sqs::types::{SqsAction, SqsErrorCode};
use lclq::storage::memory::InMemoryBackend;
use lclq::types::MessageId;

const NOW: i64 = 1_700_000_000_000;
const BASE: &str = "http://127.0.0.1:9324";

fn to_value(v: &serde_json::Value) -> JsonValue {
    match v {
        serde_json::Value::Null => JsonValue::Null,
        serde_json::Value::Bool(b) => JsonValue::Bool(*b),
        serde_json::Value::Number(n) => JsonValue::Number(JsonNumber { text: n.to_string(), unsigned: n.as_u64() }),
        serde_json::Value::String(s) => JsonValue::Str(s.clone()),
        serde_json::Value::Array(items) => JsonValue::Array(items.iter().map(to_value).collect()),
        serde_json::Value::Object(m) => JsonValue::Object(m.iter().map(|(k, v)| (k.clone(), to_value(v))).collect()),
    }
}

fn reading(text: Option<&str>) -> Option<JsonValue> {
    text.and_then(|t| serde_json::from_str::<serde_json::Value>(t).ok()).map(|v| to_value(&v))
}

/// Runs one request against an in-memory backend at a fixed time, as the
/// server does.
fn handle(backend: &mut InMemoryBackend, request: SqsRequest) -> (String, String) {
    let is_json = request.is_json;
    let r = &request;
    let xml = match r.action {
        SqsAction::CreateQueue => {
            let attributes = r.parse_queue_attributes();
            let redrive = reading(attributes.get("RedrivePolicy").map(|s| s.as_str()));
            let allow = reading(attributes.get("RedriveAllowPolicy").map(|s| s.as_str()));
            match create_queue_config(r, &attributes, redrive.as_ref(), allow.as_ref()) {
                Err(refusal) => refusal_response(&refusal),
                Ok(c) => respond_create_queue(BASE, backend.create_queue(c, NOW).as_ref()),
            }
        },
        SqsAction::GetQueueUrl => match plan_get_queue_url(r) {
            Err(refusal) => refusal_response(&refusal),
            Ok(name) => {
                let found = backend.get_queue(&name).is_ok();
                respond_get_queue_url(BASE, &name, found)
            },
        },
        SqsAction::DeleteQueue => match queue_name_from_request(r) {
            Err(refusal) => refusal_response(&refusal),
            Ok(name) => {
                let deleted = backend.delete_queue(&name).is_ok();
                respond_delete_queue(&name, deleted)
            },
        },
        SqsAction::ListQueues => {
            let listed = backend.list_queues(plan_list_queues(r));
            respond_list_queues(BASE, Ok(&listed))
        },
        SqsAction::SendMessage => match plan_send_message(r, MessageId::new(), NOW) {
            Err(refusal) => refusal_response(&refusal),
            Ok(plan) => respond_send_message(backend.send_message(&plan.queue_name, plan.message, NOW).as_ref(), &plan.attributes),
        },
        SqsAction::SendMessageBatch => {
            let json = reading(r.get_param("Entries"));
            let entries = r.parse_send_message_batch_entries(json.as_ref());
            match plan_send_message_batch(r, &entries, NOW) {
                Err(refusal) => refusal_response(&refusal),
                Ok((queue, steps)) => {
                    let outcomes: Vec<_> = steps
                        .into_iter()
                        .map(|s| match s {
                            BatchStep::Run(id, m) => BatchOutcome::Done(id, backend.send_message(&queue, m, NOW)),
                            BatchStep::Reject(e) => BatchOutcome::Refused(e),
                        })
                        .collect();
                    let (ok, failed) = finish_send_message_batch(&outcomes);
                    build_send_message_batch_response(&ok, &failed)
                },
            }
        },
        SqsAction::ReceiveMessage => match plan_receive_message(r) {
            Err(refusal) => refusal_response(&refusal),
            Ok((queue, options)) => respond_receive_message(backend.receive_messages(&queue, options, NOW).as_ref(), NOW),
        },
        SqsAction::DeleteMessage => match plan_delete_message(r) {
            Err(refusal) => refusal_response(&refusal),
            Ok((queue, handle)) => respond_receipt_action(true, backend.delete_message(&queue, &handle).is_ok()),
        },
        SqsAction::DeleteMessageBatch => {
            let json = reading(r.get_param("Entries"));
            let entries = r.parse_delete_message_batch_entries(json.as_ref());
            match plan_delete_message_batch(r, &entries) {
                Err(refusal) => refusal_response(&refusal),
                Ok((queue, steps)) => {
                    let outcomes: Vec<_> = steps
                        .into_iter()
                        .map(|s| match s {
                            BatchStep::Run(id, h) => BatchOutcome::Done(id, backend.delete_message(&queue, &h)),
                            BatchStep::Reject(e) => BatchOutcome::Refused(e),
                        })
                        .collect();
                    let (ok, failed) = finish_id_batch(&outcomes);
                    build_delete_message_batch_response(&ok, &failed)
                },
            }
        },
        SqsAction::ChangeMessageVisibility => match plan_change_message_visibility(r) {
            Err(refusal) => refusal_response(&refusal),
            Ok((queue, handle, t)) => {
                respond_receipt_action(false, backend.change_visibility(&queue, &handle, t, NOW).is_ok())
            },
        },
        SqsAction::ChangeMessageVisibilityBatch => {
            let json = reading(r.get_param("Entries"));
            let entries = r.parse_change_visibility_batch_entries(json.as_ref());
            match plan_change_visibility_batch(r, &entries) {
                Err(refusal) => refusal_response(&refusal),
                Ok((queue, steps)) => {
                    let outcomes: Vec<_> = steps
                        .into_iter()
                        .map(|s| match s {
                            BatchStep::Run(id, (h, t)) => BatchOutcome::Done(id, backend.change_visibility(&queue, &h, t, NOW)),
                            BatchStep::Reject(e) => BatchOutcome::Refused(e),
                        })
                        .collect();
                    let (ok, failed) = finish_id_batch(&outcomes);
                    build_change_visibility_batch_response(&ok, &failed)
                },
            }
        },
        SqsAction::PurgeQueue => match queue_name_from_request(r) {
            Err(refusal) => refusal_response(&refusal),
            Ok(name) => respond_purge_queue(backend.purge_queue(&name).as_ref().map(|_| ())),
        },
        SqsAction::GetQueueAttributes => match queue_name_from_request(r) {
            Err(refusal) => refusal_response(&refusal),
            Ok(name) => {
                let names = r.parse_attribute_names(reading(r.get_param("AttributeNames")).as_ref());
                match backend.get_queue(&name) {
                    Err(_) => respond_missing_queue(),
                    Ok(c) => respond_get_queue_attributes(&names, &c, backend.get_stats(&name).as_ref(), NOW / 1000),
                }
            },
        },
        SqsAction::SetQueueAttributes => match queue_name_from_request(r) {
            Err(refusal) => refusal_response(&refusal),
            Ok(name) => match backend.get_queue(&name) {
                Err(_) => respond_missing_queue(),
                Ok(c) => {
                    let attributes = r.parse_queue_attributes();
                    let redrive = reading(attributes.get("RedrivePolicy").map(|s| s.as_str()));
                    let allow = reading(attributes.get("RedriveAllowPolicy").map(|s| s.as_str()));
                    match apply_queue_attributes(c, &attributes, redrive.as_ref(), allow.as_ref()) {
                        Err(m) => refusal_response(&(SqsErrorCode::InvalidParameterValue, m)),
                        Ok(u) => respond_set_queue_attributes(backend.update_queue(u).as_ref().map(|_| ())),
                    }
                },
            },
        },
        SqsAction::TagQueue | SqsAction::UntagQueue => match queue_name_from_request(r) {
            Err(refusal) => refusal_response(&refusal),
            Ok(name) => match backend.get_queue(&name) {
                Err(_) => respond_missing_queue(),
                Ok(mut c) => {
                    let tagging = r.action == SqsAction::TagQueue;
                    if tagging {
                        add_tags(&mut c, r);
                    } else {
                        remove_tags(&mut c, r);
                    }
                    respond_tags_updated(tagging, backend.update_queue(c).as_ref().map(|_| ()))
                },
            },
        },
        SqsAction::ListQueueTags => match queue_name_from_request(r) {
            Err(refusal) => refusal_response(&refusal),
            Ok(name) => match backend.get_queue(&name) {
                Err(_) => respond_missing_queue(),
                Ok(c) => build_list_queue_tags_response(&c.tags),
            },
        },
    };
    finish_response(xml, is_json)
}

fn request(action: SqsAction, params: &[(&str, &str)], is_json: bool) -> SqsRequest {
    let mut p = Dict::new();
    for (k, v) in params {
        p.insert(k.to_string(), v.to_string());
    }
    SqsRequest { action, params: p, is_json }
}

fn create_test_queue(backend: &mut InMemoryBackend, name: &str) {
    handle(backend, request(SqsAction::CreateQueue, &[("QueueName", name)], false));
}

fn url(name: &str) -> String {
    format!("{}/queue/{}", BASE, name)
}

fn receipt_of(xml: &str) -> String {
    let start = xml.find("<ReceiptHandle>").unwrap() + 15;
    let end = xml.find("</ReceiptHandle>").unwrap();
    xml[start..end].to_string()
}

#[test]
fn test_create_queue_standard() {
    let mut b = InMemoryBackend::new();
    let (response, content_type) = handle(&mut b, request(SqsAction::CreateQueue, &[("QueueName", "test-standard-queue")], false));
    assert_eq!(content_type, "application/xml");
    assert!(response.contains("CreateQueueResponse"));
    assert!(response.contains("QueueUrl"));
    assert!(response.contains("test-standard-queue"));
    assert!(!response.contains("<Error>"));
}

#[test]
fn test_create_queue_fifo() {
    let mut b = InMemoryBackend::new();
    let (response, _) = handle(
        &mut b,
        request(SqsAction::CreateQueue, &[("QueueName", "test-fifo-queue.fifo"), ("Attribute.FifoQueue", "true")], false),
    );
    assert!(response.contains("test-fifo-queue.fifo"));
    assert!(!response.contains("<Error>"));
    assert_eq!(b.get_queue("test-fifo-queue.fifo").unwrap().queue_type, lclq::types::QueueType::SqsFifo);
}

#[test]
fn test_create_queue_missing_name() {
    let mut b = InMemoryBackend::new();
    let (response, _) = handle(&mut b, request(SqsAction::CreateQueue, &[], false));
    assert!(response.contains("<Error>"));
    assert!(response.contains("MissingParameter"));
}

#[test]
fn test_get_queue_url_success() {
    let mut b = InMemoryBackend::new();
    create_test_queue(&mut b, "test-geturl-queue");
    let (response, _) = handle(&mut b, request(SqsAction::GetQueueUrl, &[("QueueName", "test-geturl-queue")], false));
    assert!(response.contains("GetQueueUrlResponse"));
    assert!(response.contains("http://127.0.0.1:9324/queue/test-geturl-queue"));
}

#[test]
fn test_get_queue_url_not_found() {
    let mut b = InMemoryBackend::new();
    let (response, _) = handle(&mut b, request(SqsAction::GetQueueUrl, &[("QueueName", "nonexistent-queue")], false));
    assert!(response.contains("<Error>"));
    assert!(response.contains("NonExistentQueue"));
    assert!(response.contains("Queue &apos;nonexistent-queue&apos; does not exist"));
}

#[test]
fn test_delete_queue_success() {
    let mut b = InMemoryBackend::new();
    create_test_queue(&mut b, "test-delete-queue");
    let (response, _) = handle(&mut b, request(SqsAction::DeleteQueue, &[("QueueUrl", &url("test-delete-queue"))], false));
    assert!(!response.contains("<Error>"));
    assert!(b.get_queue("test-delete-queue").is_err());
}

#[test]
fn test_list_queues_success() {
    let mut b = InMemoryBackend::new();
    create_test_queue(&mut b, "test-list-queue-1");
    create_test_queue(&mut b, "test-list-queue-2");
    let (response, _) = handle(&mut b, request(SqsAction::ListQueues, &[], false));
    assert!(response.contains("ListQueuesResponse"));
    assert!(response.contains("test-list-queue-1"));
    assert!(response.contains("test-list-queue-2"));
}

#[test]
fn test_send_message_success() {
    let mut b = InMemoryBackend::new();
    create_test_queue(&mut b, "test-send-queue");
    let (response, _) = handle(
        &mut b,
        request(SqsAction::SendMessage, &[("QueueUrl", &url("test-send-queue")), ("MessageBody", "Hello, SQS!")], false),
    );
    assert!(response.contains("SendMessageResponse"));
    assert!(response.contains("MessageId"));
    assert!(response.contains("MD5OfMessageBody"));
    assert!(!response.contains("<Error>"));
}

#[test]
fn test_send_message_missing_body() {
    let mut b = InMemoryBackend::new();
    create_test_queue(&mut b, "q");
    let (response, _) = handle(&mut b, request(SqsAction::SendMessage, &[("QueueUrl", &url("q"))], false));
    assert!(response.contains("MissingParameter"));
}

#[test]
fn test_send_message_batch_empty() {
    let mut b = InMemoryBackend::new();
    create_test_queue(&mut b, "q");
    let (response, _) = handle(&mut b, request(SqsAction::SendMessageBatch, &[("QueueUrl", &url("q"))], false));
    assert!(response.contains("No batch entries provided"));
}

#[test]
fn test_send_message_batch_success() {
    let mut b = InMemoryBackend::new();
    create_test_queue(&mut b, "q");
    let (response, _) = handle(
        &mut b,
        request(
            SqsAction::SendMessageBatch,
            &[
                ("QueueUrl", &url("q")),
                ("SendMessageBatchRequestEntry.1.Id", "msg1"),
                ("SendMessageBatchRequestEntry.1.MessageBody", "Hello"),
                ("SendMessageBatchRequestEntry.2.Id", "msg2"),
                ("SendMessageBatchRequestEntry.2.MessageBody", "World"),
            ],
            false,
        ),
    );
    assert!(response.contains("SendMessageBatchResponse"));
    assert!(response.contains("<Id>msg1</Id>"));
    assert!(response.contains("<Id>msg2</Id>"));
    assert_eq!(b.get_stats("q").unwrap().available_messages, 2);
}

#[test]
fn test_send_message_batch_message_too_large() {
    let mut b = InMemoryBackend::new();
    create_test_queue(&mut b, "q");
    let big = "x".repeat(262_145);
    let (response, _) = handle(
        &mut b,
        request(
            SqsAction::SendMessageBatch,
            &[
                ("QueueUrl", &url("q")),
                ("SendMessageBatchRequestEntry.1.Id", "big"),
                ("SendMessageBatchRequestEntry.1.MessageBody", &big),
            ],
            false,
        ),
    );
    assert!(response.contains("MessageTooLong"));
    assert_eq!(b.get_stats("q").unwrap().available_messages, 0);
}

#[test]
fn test_receive_and_delete_message() {
    let mut b = InMemoryBackend::new();
    create_test_queue(&mut b, "q");
    handle(&mut b, request(SqsAction::SendMessage, &[("QueueUrl", &url("q")), ("MessageBody", "Delete me")], false));
    let (received, _) = handle(&mut b, request(SqsAction::ReceiveMessage, &[("QueueUrl", &url("q"))], false));
    assert!(received.contains("<Body>Delete me</Body>"));
    let handle_text = receipt_of(&received);
    let (response, content_type) = handle(
        &mut b,
        request(SqsAction::DeleteMessage, &[("QueueUrl", &url("q")), ("ReceiptHandle", &handle_text)], true),
    );
    assert_eq!(content_type, "application/x-amz-json-1.0");
    assert_eq!(response, "{}");
    let (again, _) = handle(
        &mut b,
        request(SqsAction::DeleteMessage, &[("QueueUrl", &url("q")), ("ReceiptHandle", &handle_text)], false),
    );
    assert!(again.contains("ReceiptHandleIsInvalid"));
}

#[test]
fn test_delete_message_batch_and_visibility() {
    let mut b = InMemoryBackend::new();
    create_test_queue(&mut b, "q");
    handle(&mut b, request(SqsAction::SendMessage, &[("QueueUrl", &url("q")), ("MessageBody", "m")], false));
    let (received, _) = handle(&mut b, request(SqsAction::ReceiveMessage, &[("QueueUrl", &url("q"))], false));
    let h = receipt_of(&received);
    let (cv, _) = handle(
        &mut b,
        request(
            SqsAction::ChangeMessageVisibilityBatch,
            &[
                ("QueueUrl", &url("q")),
                ("ChangeMessageVisibilityBatchRequestEntry.1.Id", "c1"),
                ("ChangeMessageVisibilityBatchRequestEntry.1.ReceiptHandle", &h),
                ("ChangeMessageVisibilityBatchRequestEntry.1.VisibilityTimeout", "60"),
            ],
            false,
        ),
    );
    assert!(cv.contains("<Id>c1</Id>"));
    assert!(!cv.contains("BatchResultErrorEntry"));
    let (deleted, _) = handle(
        &mut b,
        request(
            SqsAction::DeleteMessageBatch,
            &[
                ("QueueUrl", &url("q")),
                ("DeleteMessageBatchRequestEntry.1.Id", "d1"),
                ("DeleteMessageBatchRequestEntry.1.ReceiptHandle", &h),
                ("DeleteMessageBatchRequestEntry.2.Id", "d2"),
                ("DeleteMessageBatchRequestEntry.2.ReceiptHandle", "bogus"),
            ],
            false,
        ),
    );
    assert!(deleted.contains("<Id>d1</Id>"));
    assert!(deleted.contains("<Id>d2</Id>"));
    assert!(deleted.contains("ReceiptHandleIsInvalid"));
}

#[test]
fn test_change_visibility_missing_timeout() {
    let mut b = InMemoryBackend::new();
    create_test_queue(&mut b, "q");
    let (response, _) = handle(
        &mut b,
        request(SqsAction::ChangeMessageVisibility, &[("QueueUrl", &url("q")), ("ReceiptHandle", "x")], false),
    );
    assert!(response.contains("MissingParameter"));
}

#[test]
fn test_purge_queue_success() {
    let mut b = InMemoryBackend::new();
    create_test_queue(&mut b, "q");
    handle(&mut b, request(SqsAction::SendMessage, &[("QueueUrl", &url("q")), ("MessageBody", "m")], false));
    let (response, _) = handle(&mut b, request(SqsAction::PurgeQueue, &[("QueueUrl", &url("q"))], false));
    assert!(!response.contains("<Error>"));
    assert_eq!(b.get_stats("q").unwrap().available_messages, 0);
}

#[test]
fn test_get_and_set_queue_attributes() {
    let mut b = InMemoryBackend::new();
    create_test_queue(&mut b, "q");
    let (set, _) = handle(
        &mut b,
        request(
            SqsAction::SetQueueAttributes,
            &[("QueueUrl", &url("q")), ("Attribute.1.Name", "VisibilityTimeout"), ("Attribute.1.Value", "60")],
            false,
        ),
    );
    assert!(!set.contains("<Error>"));
    let (got, _) = handle(
        &mut b,
        request(SqsAction::GetQueueAttributes, &[("QueueUrl", &url("q")), ("AttributeName.1", "VisibilityTimeout")], false),
    );
    assert!(got.contains("<Value>60</Value>"));

    let (bad, _) = handle(
        &mut b,
        request(
            SqsAction::SetQueueAttributes,
            &[("QueueUrl", &url("q")), ("Attribute.1.Name", "VisibilityTimeout"), ("Attribute.1.Value", "99999")],
            false,
        ),
    );
    assert!(bad.contains("VisibilityTimeout must be between 0 and 43200 seconds"));
    let (missing, _) = handle(&mut b, request(SqsAction::GetQueueAttributes, &[("QueueUrl", &url("none"))], false));
    assert!(missing.contains("The specified queue does not exist"));
}

#[test]
fn test_tags_flow() {
    let mut b = InMemoryBackend::new();
    create_test_queue(&mut b, "q");
    let (tagged, _) = handle(
        &mut b,
        request(SqsAction::TagQueue, &[("QueueUrl", &url("q")), ("Tag.1.Key", "Owner"), ("Tag.1.Value", "Alice")], false),
    );
    assert!(tagged.contains("TagQueueResponse"));
    let (listed, _) = handle(&mut b, request(SqsAction::ListQueueTags, &[("QueueUrl", &url("q"))], false));
    assert!(listed.contains("<Tag><Key>Owner</Key><Value>Alice</Value></Tag>"));
    handle(&mut b, request(SqsAction::UntagQueue, &[("QueueUrl", &url("q")), ("TagKey.1", "Owner")], false));
    let (listed, _) = handle(&mut b, request(SqsAction::ListQueueTags, &[("QueueUrl", &url("q"))], false));
    assert!(!listed.contains("<Tag>"));
}

#[test]
fn test_create_queue_json_response() {
    let mut b = InMemoryBackend::new();
    let (response, content_type) = handle(&mut b, request(SqsAction::CreateQueue, &[("QueueName", "test-json-queue")], true));
    assert_eq!(content_type, "application/x-amz-json-1.0");
    assert!(response.contains("QueueUrl"));
}

#[test]
fn test_receive_message_json_response() {
    let mut b = InMemoryBackend::new();
    create_test_queue(&mut b, "q");
    handle(&mut b, request(SqsAction::SendMessage, &[("QueueUrl", &url("q")), ("MessageBody", "JSON receive test")], false));
    let (response, content_type) = handle(&mut b, request(SqsAction::ReceiveMessage, &[("QueueUrl", &url("q"))], true));
    assert_eq!(content_type, "application/x-amz-json-1.0");
    assert!(response.contains("Messages"));
    assert!(response.contains("JSON receive test"));
}

#[test]
fn test_list_queues_json_response() {
    let mut b = InMemoryBackend::new();
    create_test_queue(&mut b, "test-json-list-1");
    let (response, _) = handle(&mut b, request(SqsAction::ListQueues, &[], true));
    assert!(response.contains("QueueUrls"));
}

#[test]
fn test_get_queue_attributes_json_response() {
    let mut b = InMemoryBackend::new();
    create_test_queue(&mut b, "q");
    let (response, _) = handle(
        &mut b,
        request(SqsAction::GetQueueAttributes, &[("QueueUrl", &url("q")), ("AttributeName.1", "All")], true),
    );
    assert!(response.contains("Attributes"));
}

#[test]
fn test_set_redrive_policy_with_string_count() {
    let mut b = InMemoryBackend::new();
    create_test_queue(&mut b, "q");
    create_test_queue(&mut b, "dlq-queue");
    let policy = r#"{"deadLetterTargetArn":"arn:aws:sqs:us-east-1:000000000000:dlq-queue","maxReceiveCount":"5"}"#;
    let (set, _) = handle(
        &mut b,
        request(
            SqsAction::SetQueueAttributes,
            &[("QueueUrl", &url("q")), ("Attribute.1.Name", "RedrivePolicy"), ("Attribute.1.Value", policy)],
            false,
        ),
    );
    assert!(!set.contains("<Error>"));
    let dlq = b.get_queue("q").unwrap().dlq_config.unwrap();
    assert_eq!(dlq.target_queue_id, "dlq-queue");
    assert_eq!(dlq.max_receive_count, 5);
}

#[test]
fn test_create_queue_redrive_policy_with_string_count() {
    let mut b = InMemoryBackend::new();
    create_test_queue(&mut b, "dlq-queue");
    let policy = r#"{"deadLetterTargetArn":"arn:aws:sqs:us-east-1:000000000000:dlq-queue","maxReceiveCount":"3"}"#;
    let (created, _) = handle(
        &mut b,
        request(
            SqsAction::CreateQueue,
            &[("QueueName", "q"), ("Attribute.1.Name", "RedrivePolicy"), ("Attribute.1.Value", policy)],
            false,
        ),
    );
    assert!(!created.contains("<Error>"));
    let dlq = b.get_queue("q").unwrap().dlq_config.unwrap();
    assert_eq!(dlq.target_queue_id, "dlq-queue");
    assert_eq!(dlq.max_receive_count, 3);
}

#[test]
fn test_receive_message_json_body_unescaped() {
    let mut b = InMemoryBackend::new();
    create_test_queue(&mut b, "q");
    handle(&mut b, request(SqsAction::SendMessage, &[("QueueUrl", &url("q")), ("MessageBody", "a<b & c")], false));
    let (response, _) = handle(&mut b, request(SqsAction::ReceiveMessage, &[("QueueUrl", &url("q"))], true));
    let v: serde_json::Value = serde_json::from_str(&response).unwrap();
    assert_eq!(v["Messages"][0]["Body"], serde_json::Value::String("a<b & c".to_string()));
}

#[test]
fn test_list_queues_json_urls() {
    let mut b = InMemoryBackend::new();
    create_test_queue(&mut b, "alpha");
    create_test_queue(&mut b, "beta");
    let (response, _) = handle(&mut b, request(SqsAction::ListQueues, &[], true));
    let v: serde_json::Value = serde_json::from_str(&response).unwrap();
    let urls: Vec<String> =
        v["QueueUrls"].as_array().unwrap().iter().map(|u| u.as_str().unwrap().to_string()).collect();
    assert!(urls.contains(&url("alpha")));
    assert!(urls.contains(&url("beta")));
    assert_eq!(urls.len(), 2);
}

#[test]
fn test_set_queue_attributes_refused_applies_none() {
    let mut b = InMemoryBackend::new();
    create_test_queue(&mut b, "q");
    let (set, _) = handle(
        &mut b,
        request(
            SqsAction::SetQueueAttributes,
            &[
                ("QueueUrl", &url("q")),
                ("Attribute.1.Name", "VisibilityTimeout"),
                ("Attribute.1.Value", "60"),
                ("Attribute.2.Name", "DelaySeconds"),
                ("Attribute.2.Value", "99999"),
            ],
            false,
        ),
    );
    assert!(set.contains("<Error>"));
    let c = b.get_queue("q").unwrap();
    assert_eq!(c.visibility_timeout, 30);
    assert_eq!(c.delay_seconds, 0);
}

#[test]
fn test_receive_message_json_round_trip_fields() {
    let mut b = InMemoryBackend::new();
    create_test_queue(&mut b, "q");
    handle(&mut b, request(SqsAction::SendMessage, &[("QueueUrl", &url("q")), ("MessageBody", "x\"y'z&<>")], false));
    let (response, _) = handle(&mut b, request(SqsAction::ReceiveMessage, &[("QueueUrl", &url("q"))], true));
    let v: serde_json::Value = serde_json::from_str(&response).unwrap();
    let m = &v["Messages"][0];
    assert_eq!(m["Body"], serde_json::Value::String("x\"y'z&<>".to_string()));
    assert_eq!(m["MessageId"].as_str().unwrap().len(), 36);
    assert!(!m["ReceiptHandle"].as_str().unwrap().is_empty());
}
