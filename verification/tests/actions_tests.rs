use lclq::dict::Dict;
use lclq::error::Error;
use lclq::sqs::actions::{
    base_url, finish_id_batch, finish_response, finish_send_message_batch, plan_change_message_visibility,
    plan_change_visibility_batch, plan_delete_message, plan_delete_message_batch, plan_get_queue_url,
    plan_list_queues, plan_receive_message, plan_send_message, plan_send_message_batch, queue_name_from_request,
    queue_url, received_message_info, render_list_queue_tags_response, respond_get_queue_attributes,
    respond_list_queues, respond_receipt_action, respond_send_message, stored_message_attributes, add_tags,
    remove_tags, BatchOutcome, BatchStep,
};
use lclq::sqs::request::{ChangeVisibilityBatchEntry, DeleteMessageBatchEntry, SendMessageBatchEntry, SqsRequest};
use lclq::sqs::types::{SqsErrorCode, SqsMessageAttributeValue, SqsMessageAttributes};
use lclq::storage::ReceivedMessage;
use lclq::types::{Message, MessageId, QueueConfig, QueueStats, QueueType};

fn request(body: &str) -> SqsRequest {
    SqsRequest::parse(body).unwrap()
}

fn queue(name: &str) -> QueueConfig {
    QueueConfig {
        id: name.to_string(),
        name: name.to_string(),
        queue_type: QueueType::SqsStandard,
        visibility_timeout: 30,
        message_retention_period: 345600,
        max_message_size: 262144,
        delay_seconds: 0,
        dlq_config: None,
        content_based_deduplication: false,
        tags: Dict::new(),
        redrive_allow_policy: None,
    }
}

fn message(id: &str, body: &str) -> Message {
    Message {
        id: MessageId::from_string(id.to_string()),
        body: body.to_string(),
        attributes: Dict::new(),
        queue_id: "q".to_string(),
        sent_timestamp: 1000,
        receive_count: 2,
        message_group_id: None,
        deduplication_id: None,
        sequence_number: None,
        delay_seconds: None,
    }
}

#[test]
fn test_urls() {
    assert_eq!(base_url("127.0.0.1", 9324), "http://127.0.0.1:9324");
    assert_eq!(queue_url("http://localhost:9324", "orders"), "http://localhost:9324/queue/orders");
}

#[test]
fn test_queue_name_from_request() {
    let r = request("Action=PurgeQueue&QueueUrl=http%3A%2F%2Flocalhost%3A9324%2Fqueue%2Fjobs");
    assert_eq!(queue_name_from_request(&r).unwrap(), "jobs");

    let missing = request("Action=PurgeQueue");
    let (code, message) = queue_name_from_request(&missing).unwrap_err();
    assert_eq!(code, SqsErrorCode::MissingParameter);
    assert_eq!(message, "Missing required parameter: QueueUrl");

    let bad = request("Action=PurgeQueue&QueueUrl=http%3A%2F%2Flocalhost%3A9324%2F");
    let (code, message) = queue_name_from_request(&bad).unwrap_err();
    assert_eq!(code, SqsErrorCode::InvalidParameterValue);
    assert_eq!(message, "Invalid QueueUrl");
}

#[test]
fn test_plan_send_message() {
    let r = request(
        "Action=SendMessage&QueueUrl=http%3A%2F%2Fh%2Fqueue%2Fq1&MessageBody=hi&DelaySeconds=7&MessageGroupId=g\
         &MessageAttribute.1.Name=a&MessageAttribute.1.Value.DataType=Binary&MessageAttribute.1.Value.BinaryValue=SGVsbG8%3D",
    );
    let plan = plan_send_message(&r, MessageId::from_string("id-1".to_string()), 42).unwrap();
    assert_eq!(plan.queue_name, "q1");
    assert_eq!(plan.message.id.0, "id-1");
    assert_eq!(plan.message.body, "hi");
    assert_eq!(plan.message.sent_timestamp, 42);
    assert_eq!(plan.message.receive_count, 0);
    assert_eq!(plan.message.delay_seconds, Some(7));
    assert_eq!(plan.message.message_group_id, Some("g".to_string()));
    assert_eq!(plan.message.deduplication_id, None);
    let stored = plan.message.attributes.get("a").unwrap();
    assert_eq!(stored.binary_value, Some(b"Hello".to_vec()));
    assert_eq!(plan.attributes.len(), 1);
}

#[test]
fn test_plan_send_message_refusals() {
    let no_body = request("Action=SendMessage&QueueUrl=http%3A%2F%2Fh%2Fqueue%2Fq1");
    let (code, m) = plan_send_message(&no_body, MessageId::new(), 0).err().unwrap();
    assert_eq!(code, SqsErrorCode::MissingParameter);
    assert_eq!(m, "Missing required parameter: MessageBody");

    let no_url = request("Action=SendMessage&MessageBody=x");
    let (_, m) = plan_send_message(&no_url, MessageId::new(), 0).err().unwrap();
    assert_eq!(m, "Missing required parameter: QueueUrl");
}

#[test]
fn test_stored_attributes_drop_invalid_base64() {
    let mut attrs = SqsMessageAttributes::new();
    attrs.insert(
        "bin".to_string(),
        SqsMessageAttributeValue {
            data_type: "Binary".to_string(),
            string_value: None,
            binary_value: Some("!!!".to_string()),
        },
    );
    let stored = stored_message_attributes(&attrs);
    assert_eq!(stored.get("bin").unwrap().binary_value, None);
    assert_eq!(stored.get("bin").unwrap().data_type, "Binary");
}

#[test]
fn test_respond_send_message() {
    let m = message("mid", "Hello, World!");
    let attrs = SqsMessageAttributes::new();
    let xml = respond_send_message(Ok(&m), &attrs);
    assert!(xml.contains("<MessageId>mid</MessageId>"));
    assert!(xml.contains("<MD5OfMessageBody>65a8e27d8879283831b664bd8b7f0ad4</MD5OfMessageBody>"));
    assert!(!xml.contains("MD5OfMessageAttributes"));

    let err = Error::QueueNotFound("q".to_string());
    let xml = respond_send_message(Err(&err), &attrs);
    assert!(xml.contains("<Code>InternalError</Code>"));
    assert!(xml.contains("<Message>Queue not found: q</Message>"));
}

fn send_entry(id: &str, body: String) -> SendMessageBatchEntry {
    SendMessageBatchEntry {
        id: id.to_string(),
        message_body: body,
        delay_seconds: None,
        message_deduplication_id: None,
        message_group_id: None,
    }
}

#[test]
fn test_plan_send_message_batch() {
    let r = request("Action=SendMessageBatch&QueueUrl=http%3A%2F%2Fh%2Fqueue%2Fq1");
    let entries = vec![send_entry("a", "small".to_string()), send_entry("b", "x".repeat(262_145))];
    let (queue, steps) = plan_send_message_batch(&r, &entries, 5).unwrap();
    assert_eq!(queue, "q1");
    match &steps[0] {
        BatchStep::Run(id, m) => {
            assert_eq!(id, "a");
            assert_eq!(m.body, "small");
            assert_eq!(m.id.0.len(), 36);
            assert_eq!(m.sent_timestamp, 5);
        },
        BatchStep::Reject(_) => panic!("expected a message"),
    }
    match &steps[1] {
        BatchStep::Reject(e) => {
            assert_eq!(e.id, "b");
            assert_eq!(e.code, "MessageTooLong");
            assert_eq!(e.message, "Message body size 262145 exceeds maximum 262144");
            assert!(e.sender_fault);
        },
        BatchStep::Run(..) => panic!("expected a refusal"),
    }

    let none: Vec<SendMessageBatchEntry> = vec![];
    let (_, m) = plan_send_message_batch(&r, &none, 5).err().unwrap();
    assert_eq!(m, "No batch entries provided");
    let many: Vec<SendMessageBatchEntry> = (0..11).map(|i| send_entry(&i.to_string(), "b".to_string())).collect();
    let (_, m) = plan_send_message_batch(&r, &many, 5).err().unwrap();
    assert_eq!(m, "Maximum 10 batch entries allowed");
}

#[test]
fn test_finish_send_message_batch() {
    let outcomes = vec![
        BatchOutcome::Done("a".to_string(), Ok(message("m1", "test"))),
        BatchOutcome::Done("b".to_string(), Err(Error::StorageError("disk".to_string()))),
    ];
    let (ok, failed) = finish_send_message_batch(&outcomes);
    assert_eq!(ok.len(), 1);
    assert_eq!(ok[0].id, "a");
    assert_eq!(ok[0].message_id, "m1");
    assert_eq!(ok[0].md5_of_body, "098f6bcd4621d373cade4e832627b4f6");
    assert_eq!(failed.len(), 1);
    assert_eq!(failed[0].code, "InternalError");
    assert_eq!(failed[0].message, "Storage error: disk");
    assert!(!failed[0].sender_fault);
}

#[test]
fn test_delete_and_visibility_batches() {
    let r = request("Action=DeleteMessageBatch&QueueUrl=http%3A%2F%2Fh%2Fqueue%2Fq1");
    let entries = vec![DeleteMessageBatchEntry { id: "d1".to_string(), receipt_handle: "h1".to_string() }];
    let (_, steps) = plan_delete_message_batch(&r, &entries).unwrap();
    assert!(matches!(&steps[0], BatchStep::Run(id, h) if id == "d1" && h == "h1"));

    let cv = vec![
        ChangeVisibilityBatchEntry { id: "c1".to_string(), receipt_handle: "h".to_string(), visibility_timeout: 60 },
        ChangeVisibilityBatchEntry { id: "c2".to_string(), receipt_handle: "h".to_string(), visibility_timeout: 43201 },
    ];
    let (_, steps) = plan_change_visibility_batch(&r, &cv).unwrap();
    assert!(matches!(&steps[0], BatchStep::Run(id, (h, 60)) if id == "c1" && h == "h"));
    match &steps[1] {
        BatchStep::Reject(e) => {
            assert_eq!(e.code, "InvalidParameterValue");
            assert_eq!(e.message, "VisibilityTimeout must be between 0 and 43200 seconds");
        },
        BatchStep::Run(..) => panic!("expected a refusal"),
    }

    let outcomes = vec![
        BatchOutcome::Done("x".to_string(), Ok(())),
        BatchOutcome::Done("y".to_string(), Err(Error::InvalidReceiptHandle)),
    ];
    let (ok, failed) = finish_id_batch(&outcomes);
    assert_eq!(ok, vec!["x".to_string()]);
    assert_eq!(failed[0].id, "y");
    assert_eq!(failed[0].code, "ReceiptHandleIsInvalid");
    assert_eq!(failed[0].message, "Invalid receipt handle");
    assert!(failed[0].sender_fault);
}

#[test]
fn test_plan_receive_message() {
    let r = request("Action=ReceiveMessage&QueueUrl=http%3A%2F%2Fh%2Fqueue%2Fq1&MaxNumberOfMessages=25&VisibilityTimeout=9");
    let (queue, o) = plan_receive_message(&r).unwrap();
    assert_eq!(queue, "q1");
    assert_eq!(o.max_messages, 10);
    assert_eq!(o.visibility_timeout, Some(9));
    assert_eq!(o.wait_time_seconds, 0);

    let r = request("Action=ReceiveMessage&QueueUrl=http%3A%2F%2Fh%2Fqueue%2Fq1&MaxNumberOfMessages=abc");
    let (_, o) = plan_receive_message(&r).unwrap();
    assert_eq!(o.max_messages, 1);
    assert_eq!(o.visibility_timeout, None);
}

#[test]
fn test_received_message_info() {
    let r = ReceivedMessage { message: message("m9", "test"), receipt_handle: "q:m9:3".to_string() };
    let info = received_message_info(&r, 5000);
    assert_eq!(info.message_id, "m9");
    assert_eq!(info.receipt_handle, "q:m9:3");
    assert_eq!(info.md5_of_body, "098f6bcd4621d373cade4e832627b4f6");
    assert_eq!(
        info.attributes,
        vec![
            ("SenderId".to_string(), "AIDAIT2UOQQY3AUEKVGXU".to_string()),
            ("SentTimestamp".to_string(), "1000".to_string()),
            ("ApproximateReceiveCount".to_string(), "2".to_string()),
            ("ApproximateFirstReceiveTimestamp".to_string(), "5000".to_string()),
        ]
    );
}

#[test]
fn test_plan_delete_and_change_visibility() {
    let r = request("Action=DeleteMessage&QueueUrl=http%3A%2F%2Fh%2Fqueue%2Fq1&ReceiptHandle=abc");
    assert_eq!(plan_delete_message(&r).unwrap(), ("q1".to_string(), "abc".to_string()));
    let r = request("Action=DeleteMessage&QueueUrl=http%3A%2F%2Fh%2Fqueue%2Fq1");
    assert_eq!(plan_delete_message(&r).err().unwrap().1, "Missing required parameter: ReceiptHandle");

    let r = request("Action=ChangeMessageVisibility&QueueUrl=http%3A%2F%2Fh%2Fqueue%2Fq1&ReceiptHandle=abc&VisibilityTimeout=60");
    assert_eq!(plan_change_message_visibility(&r).unwrap(), ("q1".to_string(), "abc".to_string(), 60));
    let r = request("Action=ChangeMessageVisibility&QueueUrl=http%3A%2F%2Fh%2Fqueue%2Fq1&ReceiptHandle=abc&VisibilityTimeout=50000");
    let (code, m) = plan_change_message_visibility(&r).err().unwrap();
    assert_eq!(code, SqsErrorCode::InvalidParameterValue);
    assert_eq!(m, "VisibilityTimeout must be between 0 and 43200 seconds");
    let r = request("Action=ChangeMessageVisibility&QueueUrl=http%3A%2F%2Fh%2Fqueue%2Fq1&ReceiptHandle=abc");
    assert_eq!(plan_change_message_visibility(&r).err().unwrap().1, "Missing required parameter: VisibilityTimeout");

    assert!(respond_receipt_action(true, false).contains("<Code>ReceiptHandleIsInvalid</Code>"));
    assert!(respond_receipt_action(false, true).contains("ChangeMessageVisibilityResponse"));
}

#[test]
fn test_get_queue_url_and_list() {
    let r = request("Action=GetQueueUrl&QueueName=orders");
    assert_eq!(plan_get_queue_url(&r).unwrap(), "orders");
    let r = request("Action=ListQueues&QueueNamePrefix=ord");
    assert_eq!(plan_list_queues(&r).unwrap().name_prefix, Some("ord".to_string()));
    assert!(plan_list_queues(&request("Action=ListQueues")).is_none());

    let queues = vec![queue("a"), queue("b")];
    let xml = respond_list_queues("http://h", Ok(&queues));
    assert!(xml.contains("<QueueUrl>http://h/queue/a</QueueUrl>"));
    assert!(xml.contains("<QueueUrl>http://h/queue/b</QueueUrl>"));
}

#[test]
fn test_respond_get_queue_attributes() {
    let config = queue("q1");
    let stats = QueueStats { available_messages: 3, in_flight_messages: 1, dlq_messages: 0, oldest_message_timestamp: None };
    let names = vec!["VisibilityTimeout".to_string(), "Bogus".to_string()];
    let xml = respond_get_queue_attributes(&names, &config, Ok(&stats), 0);
    assert!(xml.contains("<Name>VisibilityTimeout</Name>"));
    assert!(xml.contains("<Value>30</Value>"));
    assert!(!xml.contains("Bogus"));

    let all = respond_get_queue_attributes(&vec![], &config, Ok(&stats), 0);
    assert!(all.contains("<Name>ApproximateNumberOfMessages</Name>"));
    assert!(all.contains("<Value>3</Value>"));
}

#[test]
fn test_tags() {
    let mut config = queue("q1");
    let r = request("Action=TagQueue&Tag.1.Key=env&Tag.1.Value=prod&Tag.2.Key=team&Tag.2.Value=core&Tag.4.Key=x&Tag.4.Value=y");
    add_tags(&mut config, &r);
    assert_eq!(config.tags.len(), 2);
    assert_eq!(config.tags.get("env"), Some(&"prod".to_string()));

    let r = request("Action=UntagQueue&TagKey.1=env");
    remove_tags(&mut config, &r);
    assert_eq!(config.tags.len(), 1);
    assert_eq!(config.tags.get("env"), None);

    let xml = render_list_queue_tags_response(&config.tags, "rid");
    assert_eq!(
        xml,
        "<?xml version=\"1.0\"?><ListQueueTagsResponse xmlns=\"http://queue.amazonaws.com/doc/2012-11-05/\"><ListQueueTagsResult><Tag><Key>team</Key><Value>core</Value></Tag></ListQueueTagsResult><ResponseMetadata><RequestId>rid</RequestId></ResponseMetadata></ListQueueTagsResponse>"
    );
}

#[test]
fn test_finish_response() {
    let (body, ct) = finish_response("<x/>".to_string(), false);
    assert_eq!(body, "<x/>");
    assert_eq!(ct, "application/xml");
    let (_, ct) = finish_response("<x/>".to_string(), true);
    assert_eq!(ct, "application/x-amz-json-1.0");
}

