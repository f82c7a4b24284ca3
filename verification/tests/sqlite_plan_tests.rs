use lclq::dict::Dict;
use lclq::error::{Error, ValidationError};
use lclq::storage::sqlite::{
    dead_letter_policy_of, dedup_key, fifo_receive_query, message_of_handle, plan_row, push_config_of,
    dedup_window, queue_type_to_string, receive_limit, receive_visibility, retention_cutoff, stored_delay,
    string_to_queue_type, visibility_update, visible_at,
    RowAction, SqliteConfig, VisibilityUpdate,
};
use lclq::types::{DlqConfig, Message, MessageId, QueueConfig, QueueType};

fn queue(queue_type: QueueType) -> QueueConfig {
    QueueConfig {
        id: "q".to_string(),
        name: "q".to_string(),
        queue_type,
        visibility_timeout: 30,
        message_retention_period: 345600,
        max_message_size: 262144,
        delay_seconds: 3,
        dlq_config: None,
        content_based_deduplication: false,
        tags: Dict::new(),
        redrive_allow_policy: None,
    }
}

fn message(receive_count: u32) -> Message {
    Message {
        id: MessageId::from_string("m1".to_string()),
        body: "test".to_string(),
        attributes: Dict::new(),
        queue_id: "q".to_string(),
        sent_timestamp: 10,
        receive_count,
        message_group_id: None,
        deduplication_id: None,
        sequence_number: None,
        delay_seconds: None,
    }
}

#[test]
fn test_sqlite_config_default() {
    let c = SqliteConfig::default();
    assert_eq!(c.database_path, "lclq.db");
    assert_eq!(c.max_connections, 10);
}

#[test]
fn test_queue_type_names() {
    for t in [QueueType::SqsStandard, QueueType::SqsFifo, QueueType::PubSubTopic] {
        assert_eq!(string_to_queue_type(queue_type_to_string(&t)).unwrap(), t);
    }
    assert_eq!(queue_type_to_string(&QueueType::SqsFifo), "sqs_fifo");
    match string_to_queue_type("weird") {
        Err(Error::StorageError(m)) => assert_eq!(m, "Unknown queue type: weird"),
        _ => panic!("expected a storage error"),
    }
}

#[test]
fn test_dedup_key() {
    assert_eq!(dedup_key(&queue(QueueType::SqsStandard), &message(0)).unwrap(), None);

    let fifo = queue(QueueType::SqsFifo);
    let mut m = message(0);
    m.deduplication_id = Some("d1".to_string());
    assert_eq!(dedup_key(&fifo, &m).unwrap(), Some("d1".to_string()));

    match dedup_key(&fifo, &message(0)) {
        Err(Error::Validation(ValidationError::InvalidParameter { name, reason })) => {
            assert_eq!(name, "MessageDeduplicationId");
            assert_eq!(reason, "Required for FIFO queues without content-based deduplication");
        },
        _ => panic!("expected a validation error"),
    }

    let mut content = queue(QueueType::SqsFifo);
    content.content_based_deduplication = true;
    assert_eq!(
        dedup_key(&content, &message(0)).unwrap(),
        Some("9f86d081884c7d659a2feaa0c55ad015a3bf4f1b2b0b822cd15d6c15b0f00a08".to_string())
    );
}

#[test]
fn test_visible_at() {
    let q = queue(QueueType::SqsStandard);
    assert_eq!(visible_at(&q, &message(0), 1_000), 4_000);
    let mut m = message(0);
    m.delay_seconds = Some(0);
    assert_eq!(visible_at(&q, &m, 1_000), 1_000);
}

#[test]
fn test_plan_row_deliver() {
    let q = queue(QueueType::SqsStandard);
    match plan_row("q", &q, message(0), 1_000, 30, 7) {
        RowAction::Deliver { message, receipt_handle, visibility_expires_at } => {
            assert_eq!(message.receive_count, 1);
            assert_eq!(receipt_handle, "q:m1:7");
            assert_eq!(visibility_expires_at, 31_000);
        },
        RowAction::MoveToDeadLetter { .. } => panic!("expected delivery"),
    }
}

#[test]
fn test_plan_row_dead_letter() {
    let mut q = queue(QueueType::SqsStandard);
    q.dlq_config = Some(DlqConfig { target_queue_id: "dlq".to_string(), max_receive_count: 2 });
    assert!(matches!(plan_row("q", &q, message(1), 1_000, 30, 0), RowAction::Deliver { .. }));
    match plan_row("q", &q, message(2), 1_000, 30, 0) {
        RowAction::MoveToDeadLetter { target_queue_id, message } => {
            assert_eq!(target_queue_id, "dlq");
            assert_eq!(message.queue_id, "dlq");
            assert_eq!(message.receive_count, 0);
            assert_eq!(message.sent_timestamp, 1_000);
            assert_eq!(message.body, "test");
        },
        RowAction::Deliver { .. } => panic!("expected the dead-letter queue"),
    }
}

#[test]
fn test_fifo_receive_query() {
    assert_eq!(
        fifo_receive_query(0, 10),
        "SELECT * FROM messages WHERE queue_id = ? AND state = 'available' AND visible_at <= ? ORDER BY sequence_number LIMIT 10"
    );
    assert_eq!(
        fifo_receive_query(3, 5),
        "SELECT * FROM messages WHERE queue_id = ? AND state = 'available' AND visible_at <= ? AND (message_group_id IS NULL OR message_group_id NOT IN (?3, ?4, ?5)) ORDER BY sequence_number LIMIT 5"
    );
    assert_eq!(receive_limit(3), 3);
    assert_eq!(receive_limit(30), 10);
}

#[test]
fn test_message_of_handle() {
    assert_eq!(message_of_handle("q", "q:m1:7").unwrap(), "m1");
    assert!(matches!(message_of_handle("other", "q:m1:7"), Err(Error::InvalidReceiptHandle)));
    assert!(matches!(message_of_handle("q", "garbage"), Err(Error::InvalidReceiptHandle)));
}

#[test]
fn test_visibility_update() {
    assert!(matches!(visibility_update(0, 5_000), VisibilityUpdate::ReturnAt(5_000)));
    assert!(matches!(visibility_update(30, 5_000), VisibilityUpdate::HideUntil(35_000)));
    assert_eq!(retention_cutoff(100_000, 60), 40_000);
}

#[test]
fn test_subscription_columns() {
    assert!(dead_letter_policy_of(None, Some(3)).is_none());
    let p = dead_letter_policy_of(Some("dead".to_string()), None).unwrap();
    assert_eq!(p.dead_letter_topic, "dead");
    assert_eq!(p.max_delivery_attempts, 5);

    assert!(push_config_of(None, Some(1), None, None, None).is_none());
    let c = push_config_of(Some("http://e".to_string()), Some(20), None, Some(7), Some(9)).unwrap();
    assert_eq!(c.endpoint, "http://e");
    assert_eq!(c.timeout_seconds, Some(9));
    let r = c.retry_policy.unwrap();
    assert_eq!((r.min_backoff_seconds, r.max_backoff_seconds, r.max_attempts), (20, 600, 7));
    let c = push_config_of(Some("http://e".to_string()), None, Some(1), Some(1), None).unwrap();
    assert!(c.retry_policy.is_none());
    assert_eq!(c.timeout_seconds, None);
}

#[test]
fn test_sqlite_small_rules() {
    let q = queue(QueueType::SqsStandard);
    assert_eq!(stored_delay(&q, &message(0)), 3);
    let mut m = message(0);
    m.delay_seconds = Some(8);
    assert_eq!(stored_delay(&q, &m), 8);
    assert_eq!(dedup_window(1_000), (1_000, 1_300));
    assert_eq!(receive_visibility(None, &q), 30);
    assert_eq!(receive_visibility(Some(5), &q), 5);
}
