use lclq::types::validation::{
    validate_message_size, validate_pubsub_subscription_id, validate_pubsub_topic_id,
    validate_sqs_queue_name, PUBSUB_MAX_MESSAGE_SIZE, SQS_MAX_MESSAGE_SIZE,
};

#[test]
fn test_sqs_queue_name_validation() {
    assert!(validate_sqs_queue_name("my-queue").is_ok());
    assert!(validate_sqs_queue_name("my_queue_123").is_ok());
    assert!(validate_sqs_queue_name("a").is_ok());
    assert!(validate_sqs_queue_name("my-queue.fifo").is_ok());

    assert!(validate_sqs_queue_name("").is_err());
    assert!(validate_sqs_queue_name(&"a".repeat(81)).is_err());
    assert!(validate_sqs_queue_name("my queue").is_err());
    assert!(validate_sqs_queue_name("my@queue").is_err());
    assert!(validate_sqs_queue_name(&format!("{}.fifo", "a".repeat(76))).is_err());
}

#[test]
fn test_pubsub_topic_id_validation() {
    assert!(validate_pubsub_topic_id("abc").is_ok());
    assert!(validate_pubsub_topic_id("my-topic").is_ok());
    assert!(validate_pubsub_topic_id("my_topic_123").is_ok());

    assert!(validate_pubsub_topic_id("ab").is_err());
    assert!(validate_pubsub_topic_id(&"a".repeat(256)).is_err());
    assert!(validate_pubsub_topic_id("123topic").is_err());
    assert!(validate_pubsub_topic_id("_topic").is_err());
}

#[test]
fn test_message_size_validation() {
    assert!(validate_message_size(1024, SQS_MAX_MESSAGE_SIZE).is_ok());
    assert!(validate_message_size(SQS_MAX_MESSAGE_SIZE, SQS_MAX_MESSAGE_SIZE).is_ok());
    assert!(validate_message_size(SQS_MAX_MESSAGE_SIZE + 1, SQS_MAX_MESSAGE_SIZE).is_err());
}

#[test]
fn test_sqs_queue_name_edge_cases() {
    assert!(validate_sqs_queue_name(&"a".repeat(80)).is_ok());
    assert!(validate_sqs_queue_name(&format!("{}.fifo", "a".repeat(75))).is_ok());
    assert!(validate_sqs_queue_name(".fifo").is_err());
    assert!(validate_sqs_queue_name("Queue-Name_123").is_ok());
    assert!(validate_sqs_queue_name("queue.name").is_err());
    assert!(validate_sqs_queue_name("queue#name").is_err());
    assert!(validate_sqs_queue_name("queue!name").is_err());
}

#[test]
fn test_sqs_fifo_queue_validation() {
    assert!(validate_sqs_queue_name("my-queue.fifo").is_ok());
    assert!(validate_sqs_queue_name("a.fifo").is_ok());
    assert!(validate_sqs_queue_name(&format!("{}.fifo", "a".repeat(76))).is_err());
    assert!(validate_sqs_queue_name(&format!("{}.fifo", "a".repeat(75))).is_ok());
}

#[test]
fn test_pubsub_topic_id_special_characters() {
    assert!(validate_pubsub_topic_id("topic-name").is_ok());
    assert!(validate_pubsub_topic_id("topic_name").is_ok());
    assert!(validate_pubsub_topic_id("topic.name").is_ok());
    assert!(validate_pubsub_topic_id("topic~name").is_ok());
    assert!(validate_pubsub_topic_id("topic+name").is_ok());
    assert!(validate_pubsub_topic_id("topic%name").is_ok());

    assert!(validate_pubsub_topic_id("topic@name").is_err());
    assert!(validate_pubsub_topic_id("topic#name").is_err());
    assert!(validate_pubsub_topic_id("topic$name").is_err());
    assert!(validate_pubsub_topic_id("topic name").is_err());
}

#[test]
fn test_pubsub_topic_id_length_boundaries() {
    assert!(validate_pubsub_topic_id("abc").is_ok());
    let max_valid = format!("a{}", "b".repeat(254));
    assert!(validate_pubsub_topic_id(&max_valid).is_ok());
    assert!(validate_pubsub_topic_id("ab").is_err());
    let too_long = format!("a{}", "b".repeat(255));
    assert!(validate_pubsub_topic_id(&too_long).is_err());
}

#[test]
fn test_pubsub_subscription_id_validation() {
    assert!(validate_pubsub_subscription_id("abc").is_ok());
    assert!(validate_pubsub_subscription_id("my-subscription").is_ok());
    assert!(validate_pubsub_subscription_id("my_subscription_123").is_ok());
    assert!(validate_pubsub_subscription_id("subscription-name").is_ok());

    assert!(validate_pubsub_subscription_id("").is_err());
    assert!(validate_pubsub_subscription_id("a").is_err());
    assert!(validate_pubsub_subscription_id("ab").is_err());

    assert!(validate_pubsub_subscription_id(&"a".repeat(256)).is_err());
    assert!(validate_pubsub_subscription_id(&"a".repeat(300)).is_err());

    assert!(validate_pubsub_subscription_id("123sub").is_err());
    assert!(validate_pubsub_subscription_id("_subscription").is_err());
    assert!(validate_pubsub_subscription_id("-subscription").is_err());
    assert!(validate_pubsub_subscription_id("9sub").is_err());
}

#[test]
fn test_pubsub_subscription_id_special_characters() {
    assert!(validate_pubsub_subscription_id("sub-name").is_ok());
    assert!(validate_pubsub_subscription_id("sub_name").is_ok());
    assert!(validate_pubsub_subscription_id("sub.name").is_ok());
    assert!(validate_pubsub_subscription_id("sub~name").is_ok());
    assert!(validate_pubsub_subscription_id("sub+name").is_ok());
    assert!(validate_pubsub_subscription_id("sub%name").is_ok());

    assert!(validate_pubsub_subscription_id("my-sub_123.test~v1+beta%20").is_ok());

    assert!(validate_pubsub_subscription_id("sub@name").is_err());
    assert!(validate_pubsub_subscription_id("sub#name").is_err());
    assert!(validate_pubsub_subscription_id("sub$name").is_err());
    assert!(validate_pubsub_subscription_id("sub name").is_err());
    assert!(validate_pubsub_subscription_id("sub!name").is_err());
    assert!(validate_pubsub_subscription_id("sub&name").is_err());
}

#[test]
fn test_pubsub_subscription_id_length_boundaries() {
    assert!(validate_pubsub_subscription_id("abc").is_ok());
    assert!(validate_pubsub_subscription_id("xyz").is_ok());
    let max_valid = format!("s{}", "u".repeat(254));
    assert!(validate_pubsub_subscription_id(&max_valid).is_ok());
    let too_long = format!("s{}", "u".repeat(255));
    assert!(validate_pubsub_subscription_id(&too_long).is_err());
}

#[test]
fn test_pubsub_subscription_id_alphanumeric() {
    assert!(validate_pubsub_subscription_id("sub123").is_ok());
    assert!(validate_pubsub_subscription_id("subscription456").is_ok());
    assert!(validate_pubsub_subscription_id("mySubscription789").is_ok());

    assert!(validate_pubsub_subscription_id("1subscription").is_err());
    assert!(validate_pubsub_subscription_id("0sub").is_err());
}

#[test]
fn test_message_size_edge_cases() {
    assert!(validate_message_size(0, SQS_MAX_MESSAGE_SIZE).is_ok());
    assert!(validate_message_size(SQS_MAX_MESSAGE_SIZE, SQS_MAX_MESSAGE_SIZE).is_ok());
    assert!(validate_message_size(SQS_MAX_MESSAGE_SIZE + 1, SQS_MAX_MESSAGE_SIZE).is_err());
    assert!(validate_message_size(PUBSUB_MAX_MESSAGE_SIZE, PUBSUB_MAX_MESSAGE_SIZE).is_ok());
    assert!(validate_message_size(PUBSUB_MAX_MESSAGE_SIZE + 1, PUBSUB_MAX_MESSAGE_SIZE).is_err());
    assert!(validate_message_size(100_000_000, PUBSUB_MAX_MESSAGE_SIZE).is_err());
}

#[test]
fn test_message_size_constants() {
    assert_eq!(SQS_MAX_MESSAGE_SIZE, 262_144);
    assert_eq!(PUBSUB_MAX_MESSAGE_SIZE, 10_485_760);
}
