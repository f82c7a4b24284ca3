use lclq::config::EvictionPolicy;
use lclq::dict::Dict;
use lclq::error::Error;
use lclq::receipt::generate_receipt_handle;
use lclq::storage::memory::{InMemoryBackend, InMemoryConfig};
use lclq::storage::QueueFilter;
use lclq::types::{DlqConfig, Message, MessageId, QueueConfig, QueueType, ReceiveOptions};

const T0: i64 = 1_700_000_000_000;

fn create_test_message(body: &str) -> Message {
    Message {
        id: MessageId::new(),
        body: body.to_string(),
        attributes: Dict::new(),
        queue_id: "test-queue".to_string(),
        sent_timestamp: T0,
        receive_count: 0,
        message_group_id: None,
        deduplication_id: None,
        sequence_number: None,
        delay_seconds: None,
    }
}

fn create_test_queue_config(queue_type: QueueType) -> QueueConfig {
    QueueConfig {
        id: "test-queue".to_string(),
        name: "test-queue".to_string(),
        queue_type,
        visibility_timeout: 30,
        message_retention_period: 3600,
        max_message_size: 262144,
        delay_seconds: 0,
        dlq_config: None,
        content_based_deduplication: false,
        tags: Dict::new(),
        redrive_allow_policy: None,
    }
}

fn fifo_config() -> QueueConfig {
    let mut c = create_test_queue_config(QueueType::SqsFifo);
    c.name = "test-fifo.fifo".to_string();
    c.id = "test-fifo.fifo".to_string();
    c
}

fn fifo_message(body: &str) -> Message {
    let mut m = create_test_message(body);
    m.queue_id = "test-fifo.fifo".to_string();
    m.message_group_id = Some("group1".to_string());
    m
}

fn options(max: u32, vt: Option<u32>) -> ReceiveOptions {
    ReceiveOptions {
        max_messages: max,
        visibility_timeout: vt,
        wait_time_seconds: 0,
        attribute_names: vec![],
        message_attribute_names: vec![],
    }
}

#[test]
fn test_eviction_policy_reject_new() {
    let config = InMemoryConfig { max_messages: 2, eviction_policy: EvictionPolicy::RejectNew };
    let mut backend = InMemoryBackend::with_config(config);
    backend.create_queue(create_test_queue_config(QueueType::SqsStandard), T0).unwrap();

    backend.send_message("test-queue", create_test_message("msg1"), T0).unwrap();
    backend.send_message("test-queue", create_test_message("msg2"), T0).unwrap();

    let result = backend.send_message("test-queue", create_test_message("msg3"), T0);
    match result {
        Err(Error::StorageError(msg)) => assert!(msg.contains("storage is full")),
        _ => panic!("Expected StorageError"),
    }
}

#[test]
fn test_eviction_policy_lru() {
    let config = InMemoryConfig { max_messages: 2, eviction_policy: EvictionPolicy::Lru };
    let mut backend = InMemoryBackend::with_config(config);
    backend.create_queue(create_test_queue_config(QueueType::SqsStandard), T0).unwrap();

    backend.send_message("test-queue", create_test_message("msg1"), T0).unwrap();
    backend.send_message("test-queue", create_test_message("msg2"), T0).unwrap();
    backend.send_message("test-queue", create_test_message("msg3"), T0).unwrap();

    let stats = backend.get_stats("test-queue").unwrap();
    assert_eq!(stats.available_messages, 2);
}

#[test]
fn test_eviction_policy_fifo() {
    let config = InMemoryConfig { max_messages: 2, eviction_policy: EvictionPolicy::Fifo };
    let mut backend = InMemoryBackend::with_config(config);
    backend.create_queue(create_test_queue_config(QueueType::SqsStandard), T0).unwrap();

    backend.send_message("test-queue", create_test_message("msg1"), T0).unwrap();
    backend.send_message("test-queue", create_test_message("msg2"), T0 + 10).unwrap();
    backend.send_message("test-queue", create_test_message("msg3"), T0 + 20).unwrap();

    let stats = backend.get_stats("test-queue").unwrap();
    assert_eq!(stats.available_messages, 2);
    let received = backend.receive_messages("test-queue", options(10, None), T0 + 30).unwrap();
    let bodies: Vec<&str> = received.iter().map(|r| r.message.body.as_str()).collect();
    assert_eq!(bodies, vec!["msg2", "msg3"]);
}

fn named_queue(name: &str) -> QueueConfig {
    let mut c = create_test_queue_config(QueueType::SqsStandard);
    c.id = name.to_string();
    c.name = name.to_string();
    c
}

fn message_sent_at(queue: &str, body: &str, sent: i64) -> Message {
    let mut m = create_test_message(body);
    m.queue_id = queue.to_string();
    m.sent_timestamp = sent;
    m
}

#[test]
fn test_eviction_fifo_drops_oldest_across_queues() {
    let config = InMemoryConfig { max_messages: 3, eviction_policy: EvictionPolicy::Fifo };
    let mut backend = InMemoryBackend::with_config(config);
    backend.create_queue(named_queue("q1"), T0).unwrap();
    backend.create_queue(named_queue("q2"), T0).unwrap();

    backend.send_message("q1", message_sent_at("q1", "five", T0 + 5), T0).unwrap();
    backend.send_message("q1", message_sent_at("q1", "one", T0 + 1), T0).unwrap();
    backend.send_message("q2", message_sent_at("q2", "three", T0 + 3), T0).unwrap();
    backend.send_message("q2", message_sent_at("q2", "ten", T0 + 10), T0).unwrap();

    let q1: Vec<String> =
        backend.receive_messages("q1", options(10, None), T0).unwrap().into_iter().map(|r| r.message.body).collect();
    let q2: Vec<String> =
        backend.receive_messages("q2", options(10, None), T0).unwrap().into_iter().map(|r| r.message.body).collect();
    assert_eq!(q1, vec!["five".to_string()]);
    assert_eq!(q2, vec!["three".to_string(), "ten".to_string()]);
}

#[test]
fn test_fifo_content_based_deduplication() {
    let mut backend = InMemoryBackend::new();
    let mut config = fifo_config();
    config.content_based_deduplication = true;
    backend.create_queue(config, T0).unwrap();

    backend.send_message("test-fifo.fifo", fifo_message("test content"), T0).unwrap();
    backend.send_message("test-fifo.fifo", fifo_message("test content"), T0 + 1000).unwrap();

    let stats = backend.get_stats("test-fifo.fifo").unwrap();
    assert_eq!(stats.available_messages, 1);
}

#[test]
fn test_fifo_missing_dedup_id() {
    let mut backend = InMemoryBackend::new();
    backend.create_queue(fifo_config(), T0).unwrap();

    let result = backend.send_message("test-fifo.fifo", fifo_message("test content"), T0);
    assert!(matches!(result, Err(Error::Validation(_))));
}

#[test]
fn test_fifo_with_dedup_id() {
    let mut backend = InMemoryBackend::new();
    backend.create_queue(fifo_config(), T0).unwrap();

    let mut msg1 = fifo_message("test content 1");
    msg1.deduplication_id = Some("dedup1".to_string());
    backend.send_message("test-fifo.fifo", msg1, T0).unwrap();

    let mut msg2 = fifo_message("test content 2");
    msg2.deduplication_id = Some("dedup1".to_string());
    backend.send_message("test-fifo.fifo", msg2, T0 + 1000).unwrap();

    let stats = backend.get_stats("test-fifo.fifo").unwrap();
    assert_eq!(stats.available_messages, 1);
}

#[test]
fn test_fifo_dedup_window_expires() {
    let mut backend = InMemoryBackend::new();
    backend.create_queue(fifo_config(), T0).unwrap();

    let mut msg1 = fifo_message("first");
    msg1.deduplication_id = Some("dedup1".to_string());
    backend.send_message("test-fifo.fifo", msg1, T0).unwrap();

    let mut msg2 = fifo_message("second");
    msg2.deduplication_id = Some("dedup1".to_string());
    backend.send_message("test-fifo.fifo", msg2, T0 + 300_000).unwrap();

    let stats = backend.get_stats("test-fifo.fifo").unwrap();
    assert_eq!(stats.available_messages, 2);
}

#[test]
fn test_deduplication_cache_cleanup() {
    let mut backend = InMemoryBackend::new();
    let mut config = fifo_config();
    config.content_based_deduplication = true;
    backend.create_queue(config, T0).unwrap();

    for i in 0..10 {
        backend.send_message("test-fifo.fifo", fifo_message(&format!("message-{}", i)), T0).unwrap();
    }

    let stats = backend.get_stats("test-fifo.fifo").unwrap();
    assert_eq!(stats.available_messages, 10);
}

#[test]
fn test_fifo_sequence_numbers() {
    let mut backend = InMemoryBackend::new();
    let mut config = fifo_config();
    config.content_based_deduplication = true;
    backend.create_queue(config, T0).unwrap();

    let a = backend.send_message("test-fifo.fifo", fifo_message("a"), T0).unwrap();
    let b = backend.send_message("test-fifo.fifo", fifo_message("b"), T0).unwrap();
    assert_eq!(a.sequence_number, Some(0));
    assert_eq!(b.sequence_number, Some(1));
}

#[test]
fn test_invalid_receipt_handle_queue_mismatch() {
    let mut backend = InMemoryBackend::new();
    backend.create_queue(create_test_queue_config(QueueType::SqsStandard), T0).unwrap();

    let fake_msg_id = MessageId::new();
    let fake_handle = generate_receipt_handle("other-queue", &fake_msg_id, 0);
    let result = backend.delete_message("test-queue", &fake_handle);
    assert!(matches!(result, Err(Error::InvalidReceiptHandle)));
}

#[test]
fn test_change_visibility_invalid_receipt() {
    let mut backend = InMemoryBackend::new();
    backend.create_queue(create_test_queue_config(QueueType::SqsStandard), T0).unwrap();

    let result = backend.change_visibility("test-queue", "invalid-handle", 60, T0);
    assert!(result.is_err());
}

#[test]
fn test_dlq_max_receive_count() {
    let mut backend = InMemoryBackend::new();
    let mut config = create_test_queue_config(QueueType::SqsStandard);
    config.dlq_config = Some(DlqConfig { target_queue_id: "dlq-queue".to_string(), max_receive_count: 2 });
    backend.create_queue(config, T0).unwrap();

    backend.send_message("test-queue", create_test_message("test"), T0).unwrap();

    let mut now = T0;
    for _ in 0..3 {
        let messages = backend.receive_messages("test-queue", options(1, Some(1)), now).unwrap();
        if !messages.is_empty() {
            now += 2000;
        }
    }

    let stats = backend.get_stats("test-queue").unwrap();
    assert_eq!(stats.available_messages + stats.in_flight_messages, 0);
}

fn dlq_setup(max_receive_count: u32) -> InMemoryBackend {
    let mut backend = InMemoryBackend::new();
    let mut dlq = create_test_queue_config(QueueType::SqsStandard);
    dlq.id = "dlq-queue".to_string();
    dlq.name = "dlq-queue".to_string();
    backend.create_queue(dlq, T0).unwrap();
    let mut config = create_test_queue_config(QueueType::SqsStandard);
    config.dlq_config = Some(DlqConfig { target_queue_id: "dlq-queue".to_string(), max_receive_count });
    backend.create_queue(config, T0).unwrap();
    backend.send_message("test-queue", create_test_message("test"), T0).unwrap();
    backend
}

#[test]
fn test_dlq_moves_message_after_max_receives() {
    let mut backend = dlq_setup(2);
    let first = backend.receive_messages("test-queue", options(1, Some(1)), T0).unwrap();
    assert_eq!(first.len(), 1);
    assert_eq!(first[0].message.receive_count, 1);
    let second = backend.receive_messages("test-queue", options(1, Some(1)), T0 + 2000).unwrap();
    assert_eq!(second.len(), 1);
    assert_eq!(second[0].message.receive_count, 2);
    let third = backend.receive_messages("test-queue", options(1, Some(1)), T0 + 4000).unwrap();
    assert!(third.is_empty());

    let stats = backend.get_stats("test-queue").unwrap();
    assert_eq!(stats.available_messages + stats.in_flight_messages, 0);
    let dlq_stats = backend.get_stats("dlq-queue").unwrap();
    assert_eq!(dlq_stats.available_messages, 1);

    let dead = backend.receive_messages("dlq-queue", options(1, None), T0 + 4000).unwrap();
    assert_eq!(dead.len(), 1);
    assert_eq!(dead[0].message.body, "test");
    assert_eq!(dead[0].message.receive_count, 1);
    assert_eq!(dead[0].message.queue_id, "dlq-queue");
    assert_eq!(dead[0].message.sent_timestamp, T0 + 4000);
}

#[test]
fn test_dlq_max_receive_count_one() {
    let mut backend = dlq_setup(1);
    let first = backend.receive_messages("test-queue", options(1, Some(1)), T0).unwrap();
    assert_eq!(first.len(), 1);
    let second = backend.receive_messages("test-queue", options(1, Some(1)), T0 + 2000).unwrap();
    assert!(second.is_empty());
    assert_eq!(backend.get_stats("dlq-queue").unwrap().available_messages, 1);
}

#[test]
fn test_dlq_missing_target_drops_message() {
    let mut backend = InMemoryBackend::new();
    let mut config = create_test_queue_config(QueueType::SqsStandard);
    config.dlq_config = Some(DlqConfig { target_queue_id: "missing".to_string(), max_receive_count: 1 });
    backend.create_queue(config, T0).unwrap();
    backend.send_message("test-queue", create_test_message("test"), T0).unwrap();
    assert_eq!(backend.receive_messages("test-queue", options(1, Some(1)), T0).unwrap().len(), 1);
    assert!(backend.receive_messages("test-queue", options(1, Some(1)), T0 + 2000).unwrap().is_empty());
    let stats = backend.get_stats("test-queue").unwrap();
    assert_eq!(stats.available_messages + stats.in_flight_messages, 0);
}

#[test]
fn test_basic_queue_operations() {
    let mut backend = InMemoryBackend::new();
    let created = backend.create_queue(create_test_queue_config(QueueType::SqsStandard), T0).unwrap();
    assert_eq!(created.name, "test-queue");
    assert_eq!(backend.get_queue("test-queue").unwrap().name, "test-queue");
    assert!(matches!(
        backend.create_queue(create_test_queue_config(QueueType::SqsStandard), T0),
        Err(Error::QueueAlreadyExists(_))
    ));

    backend.send_message("test-queue", create_test_message("hello"), T0).unwrap();
    let received = backend.receive_messages("test-queue", options(1, None), T0).unwrap();
    assert_eq!(received.len(), 1);
    assert_eq!(received[0].message.body, "hello");
    assert_eq!(received[0].message.receive_count, 1);

    backend.delete_message("test-queue", &received[0].receipt_handle).unwrap();
    let stats = backend.get_stats("test-queue").unwrap();
    assert_eq!(stats.available_messages, 0);
    assert_eq!(stats.in_flight_messages, 0);

    backend.delete_queue("test-queue").unwrap();
    assert!(matches!(backend.get_queue("test-queue"), Err(Error::QueueNotFound(_))));
}

#[test]
fn test_memory_message_order() {
    let mut backend = InMemoryBackend::new();
    backend.create_queue(create_test_queue_config(QueueType::SqsStandard), T0).unwrap();
    for body in ["one", "two", "three"] {
        backend.send_message("test-queue", create_test_message(body), T0).unwrap();
    }
    let received = backend.receive_messages("test-queue", options(2, None), T0).unwrap();
    let bodies: Vec<&str> = received.iter().map(|r| r.message.body.as_str()).collect();
    assert_eq!(bodies, vec!["one", "two"]);
    let rest = backend.receive_messages("test-queue", options(10, None), T0).unwrap();
    assert_eq!(rest.len(), 1);
    assert_eq!(rest[0].message.body, "three");
}

#[test]
fn test_receive_max_messages_capped_at_ten() {
    let mut backend = InMemoryBackend::new();
    backend.create_queue(create_test_queue_config(QueueType::SqsStandard), T0).unwrap();
    for i in 0..15 {
        backend.send_message("test-queue", create_test_message(&format!("m{}", i)), T0).unwrap();
    }
    let received = backend.receive_messages("test-queue", options(50, None), T0).unwrap();
    assert_eq!(received.len(), 10);
}

#[test]
fn test_delay_queue() {
    let mut backend = InMemoryBackend::new();
    let mut config = create_test_queue_config(QueueType::SqsStandard);
    config.delay_seconds = 5;
    backend.create_queue(config, T0).unwrap();
    backend.send_message("test-queue", create_test_message("later"), T0).unwrap();

    assert!(backend.receive_messages("test-queue", options(1, None), T0 + 4_999).unwrap().is_empty());
    let received = backend.receive_messages("test-queue", options(1, None), T0 + 5_000).unwrap();
    assert_eq!(received.len(), 1);
}

#[test]
fn test_change_message_visibility() {
    let mut backend = InMemoryBackend::new();
    backend.create_queue(create_test_queue_config(QueueType::SqsStandard), T0).unwrap();
    backend.send_message("test-queue", create_test_message("m"), T0).unwrap();
    let received = backend.receive_messages("test-queue", options(1, Some(30)), T0).unwrap();
    let handle = received[0].receipt_handle.clone();

    assert!(backend.receive_messages("test-queue", options(1, None), T0 + 1_000).unwrap().is_empty());
    backend.change_visibility("test-queue", &handle, 0, T0 + 1_000).unwrap();
    let again = backend.receive_messages("test-queue", options(1, None), T0 + 1_000).unwrap();
    assert_eq!(again.len(), 1);
    assert_eq!(again[0].message.receive_count, 2);
}

#[test]
fn test_visibility_timeout_expires() {
    let mut backend = InMemoryBackend::new();
    backend.create_queue(create_test_queue_config(QueueType::SqsStandard), T0).unwrap();
    backend.send_message("test-queue", create_test_message("m"), T0).unwrap();
    backend.receive_messages("test-queue", options(1, Some(10)), T0).unwrap();

    assert!(backend.receive_messages("test-queue", options(1, None), T0 + 9_999).unwrap().is_empty());
    assert_eq!(backend.receive_messages("test-queue", options(1, None), T0 + 10_000).unwrap().len(), 1);
}

#[test]
fn test_memory_purge_queue() {
    let mut backend = InMemoryBackend::new();
    backend.create_queue(create_test_queue_config(QueueType::SqsStandard), T0).unwrap();
    for i in 0..3 {
        backend.send_message("test-queue", create_test_message(&format!("m{}", i)), T0).unwrap();
    }
    backend.receive_messages("test-queue", options(1, None), T0).unwrap();
    backend.purge_queue("test-queue").unwrap();
    let stats = backend.get_stats("test-queue").unwrap();
    assert_eq!(stats.available_messages, 0);
    assert_eq!(stats.in_flight_messages, 0);
    assert!(matches!(backend.purge_queue("missing"), Err(Error::QueueNotFound(_))));
}

#[test]
fn test_memory_batch_operations() {
    let mut backend = InMemoryBackend::new();
    backend.create_queue(create_test_queue_config(QueueType::SqsStandard), T0).unwrap();
    let messages = vec![create_test_message("a"), create_test_message("b"), create_test_message("c")];
    let sent = backend.send_messages("test-queue", messages, T0).unwrap();
    assert_eq!(sent.len(), 3);
    assert_eq!(backend.get_stats("test-queue").unwrap().available_messages, 3);
}

#[test]
fn test_memory_queue_operations() {
    let mut backend = InMemoryBackend::new();
    let mut a = create_test_queue_config(QueueType::SqsStandard);
    a.id = "alpha".to_string();
    a.name = "alpha".to_string();
    let mut b = create_test_queue_config(QueueType::SqsStandard);
    b.id = "beta".to_string();
    b.name = "beta".to_string();
    backend.create_queue(a, T0).unwrap();
    backend.create_queue(b, T0).unwrap();

    assert_eq!(backend.list_queues(None).len(), 2);
    let filtered = backend.list_queues(Some(QueueFilter { name_prefix: Some("al".to_string()) }));
    assert_eq!(filtered.len(), 1);
    assert_eq!(filtered[0].name, "alpha");

    let mut updated = backend.get_queue("beta").unwrap();
    updated.visibility_timeout = 99;
    backend.update_queue(updated).unwrap();
    assert_eq!(backend.get_queue("beta").unwrap().visibility_timeout, 99);
    assert!(matches!(backend.get_queue("gamma"), Err(Error::QueueNotFound(_))));
}

#[test]
fn test_memory_health_check() {
    let backend = InMemoryBackend::new();
    assert!(matches!(backend.health_check(), lclq::storage::HealthStatus::Healthy));
}

#[test]
fn test_send_to_missing_queue() {
    let mut backend = InMemoryBackend::new();
    let result = backend.send_message("nope", create_test_message("m"), T0);
    assert!(matches!(result, Err(Error::QueueNotFound(id)) if id == "nope"));
}

#[test]
fn test_receive_zero_messages_takes_none() {
    let mut backend = InMemoryBackend::new();
    backend.create_queue(create_test_queue_config(QueueType::SqsStandard), T0).unwrap();
    backend.send_message("test-queue", create_test_message("hello"), T0).unwrap();
    assert!(backend.receive_messages("test-queue", options(0, None), T0).unwrap().is_empty());
    assert_eq!(backend.get_stats("test-queue").unwrap().available_messages, 1);
}
