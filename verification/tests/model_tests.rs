use lclq::receipt::{generate_receipt_handle, parse_receipt_handle};
use lclq::sqs::request::decode_or_empty;
use lclq::types::validation::{is_queue_name_char, validate_sqs_queue_name};
use lclq::sqs::xml::{escape_xml, unescape_xml};
use lclq::types::{MessageId, PushConfig, ReceiveOptions, RetryPolicy, SubscriptionConfig};

#[test]
fn test_message_id_new() {
    let id1 = MessageId::new();
    let id2 = MessageId::new();

    assert_ne!(id1, id2);
    assert_eq!(id1.0.len(), 36);
}

#[test]
fn test_message_id_from_string() {
    let id_str = "test-message-id".to_string();
    let id = MessageId::from_string(id_str.clone());

    assert_eq!(id.0, id_str);
}

#[test]
fn test_message_id_default() {
    let id = MessageId::default();

    assert_eq!(id.0.len(), 36);
}

#[test]
fn test_message_id_display() {
    let id_str = "test-display-id".to_string();
    let id = MessageId::from_string(id_str.clone());

    assert_eq!(id.to_string(), id_str);
}

#[test]
fn test_message_id_clone_and_eq() {
    let id = MessageId::from_string("test-id".to_string());
    let cloned = id.clone();

    assert_eq!(id, cloned);
}

#[test]
fn test_receive_options_default() {
    let opts = ReceiveOptions::default();

    assert_eq!(opts.max_messages, 1);
    assert_eq!(opts.visibility_timeout, None);
    assert_eq!(opts.wait_time_seconds, 0);
    assert_eq!(opts.attribute_names.len(), 0);
    assert_eq!(opts.message_attribute_names.len(), 0);
}

#[test]
fn test_push_config_validation() {
    let push_config = PushConfig {
        endpoint: "https://example.com/webhook".to_string(),
        retry_policy: Some(RetryPolicy::default()),
        timeout_seconds: Some(30),
    };

    assert_eq!(push_config.endpoint, "https://example.com/webhook");
    assert!(push_config.retry_policy.is_some());
    assert_eq!(push_config.timeout_seconds, Some(30));
}

#[test]
fn test_retry_policy_defaults() {
    let policy = RetryPolicy::default();
    assert_eq!(policy.min_backoff_seconds, 10);
    assert_eq!(policy.max_backoff_seconds, 600);
    assert_eq!(policy.max_attempts, 5);
}

#[test]
fn test_subscription_config_with_push() {
    let config = SubscriptionConfig {
        id: "test-sub".to_string(),
        name: "test-sub".to_string(),
        topic_id: "test-topic".to_string(),
        ack_deadline_seconds: 30,
        message_retention_duration: 604800,
        enable_message_ordering: false,
        filter: None,
        dead_letter_policy: None,
        push_config: Some(PushConfig {
            endpoint: "https://example.com/hook".to_string(),
            retry_policy: None,
            timeout_seconds: None,
        }),
    };

    assert!(config.push_config.is_some());
    assert_eq!(config.push_config.unwrap().endpoint, "https://example.com/hook");
}

#[test]
fn test_receipt_handle_round_trip() {
    let id = MessageId::from_string("msg-1".to_string());
    let handle = generate_receipt_handle("orders", &id, 42);
    assert_eq!(handle, "orders:msg-1:42");
    let data = parse_receipt_handle(&handle).unwrap();
    assert_eq!(data.queue_id, "orders");
    assert_eq!(data.message_id.0, "msg-1");
    assert!(parse_receipt_handle("orders:msg-1").is_err());
    assert!(parse_receipt_handle("orders:msg-1:x").is_err());
    assert!(parse_receipt_handle(":msg-1:1").is_err());
}

#[test]
fn test_xml_escape_round_trip() {
    let text = "<a href=\"x\">Tom & 'Jerry'</a>";
    let escaped = escape_xml(text);
    assert_eq!(escaped, "&lt;a href=&quot;x&quot;&gt;Tom &amp; &apos;Jerry&apos;&lt;/a&gt;");
    assert_eq!(unescape_xml(&escaped), text);
}

#[test]
fn test_message_id_is_uuid_v4_text() {
    let id = lclq::types::MessageId::new();
    let chars: Vec<char> = id.0.chars().collect();
    assert_eq!(chars.len(), 36);
    for (i, c) in chars.iter().enumerate() {
        if i == 8 || i == 13 || i == 18 || i == 23 {
            assert_eq!(*c, '-');
        } else {
            assert!(c.is_ascii_digit() || ('a'..='f').contains(c));
        }
    }
    assert_eq!(chars[14], '4');
    assert!(matches!(chars[19], '8' | '9' | 'a' | 'b'));
}

#[test]
fn test_queue_name_chars() {
    assert!(is_queue_name_char('a'));
    assert!(is_queue_name_char('-'));
    assert!(is_queue_name_char('_'));
    assert!(!is_queue_name_char('.'));
    assert!(is_queue_name_char('é'));
    assert!(validate_sqs_queue_name("my-queue").is_ok());
}

#[test]
fn test_decode_or_empty() {
    assert_eq!(decode_or_empty("SendMessage"), "SendMessage");
    assert_eq!(decode_or_empty("a%20b"), "a b");
    assert_eq!(decode_or_empty("%FF"), "");
    assert_eq!(decode_or_empty("%zz"), "%zz");
    assert_eq!(decode_or_empty("%4"), "%4");
    assert_eq!(decode_or_empty("%%41"), "%A");
    assert_eq!(decode_or_empty("%C3%A9"), "é");
}
