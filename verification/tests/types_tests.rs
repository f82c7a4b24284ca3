use base64::Engine;
use lclq::sqs::types::{
    calculate_md5_of_attributes, calculate_md5_of_body, QueueAttribute, SqsAction, SqsErrorCode,
    SqsMessageAttributeValue, SqsMessageAttributes,
};

#[test]
fn test_sqs_action_parsing() {
    assert_eq!("CreateQueue".parse::<SqsAction>(), Ok(SqsAction::CreateQueue));
    assert_eq!("SendMessage".parse::<SqsAction>(), Ok(SqsAction::SendMessage));
    assert!("InvalidAction".parse::<SqsAction>().is_err());
}

#[test]
fn test_queue_attribute_parsing() {
    assert_eq!(
        "VisibilityTimeout".parse::<QueueAttribute>(),
        Ok(QueueAttribute::VisibilityTimeout)
    );
    assert_eq!("All".parse::<QueueAttribute>(), Ok(QueueAttribute::All));
    assert!("InvalidAttr".parse::<QueueAttribute>().is_err());
}

#[test]
fn test_sqs_action_as_str_all_variants() {
    assert_eq!(SqsAction::CreateQueue.as_str(), "CreateQueue");
    assert_eq!(SqsAction::DeleteQueue.as_str(), "DeleteQueue");
    assert_eq!(SqsAction::GetQueueUrl.as_str(), "GetQueueUrl");
    assert_eq!(SqsAction::GetQueueAttributes.as_str(), "GetQueueAttributes");
    assert_eq!(SqsAction::SetQueueAttributes.as_str(), "SetQueueAttributes");
    assert_eq!(SqsAction::ListQueues.as_str(), "ListQueues");
    assert_eq!(SqsAction::PurgeQueue.as_str(), "PurgeQueue");
    assert_eq!(SqsAction::TagQueue.as_str(), "TagQueue");
    assert_eq!(SqsAction::UntagQueue.as_str(), "UntagQueue");
    assert_eq!(SqsAction::ListQueueTags.as_str(), "ListQueueTags");
    assert_eq!(SqsAction::SendMessage.as_str(), "SendMessage");
    assert_eq!(SqsAction::SendMessageBatch.as_str(), "SendMessageBatch");
    assert_eq!(SqsAction::ReceiveMessage.as_str(), "ReceiveMessage");
    assert_eq!(SqsAction::DeleteMessage.as_str(), "DeleteMessage");
    assert_eq!(SqsAction::DeleteMessageBatch.as_str(), "DeleteMessageBatch");
    assert_eq!(SqsAction::ChangeMessageVisibility.as_str(), "ChangeMessageVisibility");
    assert_eq!(SqsAction::ChangeMessageVisibilityBatch.as_str(), "ChangeMessageVisibilityBatch");
}

#[test]
fn test_sqs_action_from_str_all_variants() {
    assert_eq!("CreateQueue".parse::<SqsAction>().unwrap(), SqsAction::CreateQueue);
    assert_eq!("DeleteQueue".parse::<SqsAction>().unwrap(), SqsAction::DeleteQueue);
    assert_eq!("GetQueueUrl".parse::<SqsAction>().unwrap(), SqsAction::GetQueueUrl);
    assert_eq!("GetQueueAttributes".parse::<SqsAction>().unwrap(), SqsAction::GetQueueAttributes);
    assert_eq!("SetQueueAttributes".parse::<SqsAction>().unwrap(), SqsAction::SetQueueAttributes);
    assert_eq!("ListQueues".parse::<SqsAction>().unwrap(), SqsAction::ListQueues);
    assert_eq!("PurgeQueue".parse::<SqsAction>().unwrap(), SqsAction::PurgeQueue);
    assert_eq!("TagQueue".parse::<SqsAction>().unwrap(), SqsAction::TagQueue);
    assert_eq!("UntagQueue".parse::<SqsAction>().unwrap(), SqsAction::UntagQueue);
    assert_eq!("ListQueueTags".parse::<SqsAction>().unwrap(), SqsAction::ListQueueTags);
    assert_eq!("SendMessage".parse::<SqsAction>().unwrap(), SqsAction::SendMessage);
    assert_eq!("SendMessageBatch".parse::<SqsAction>().unwrap(), SqsAction::SendMessageBatch);
    assert_eq!("ReceiveMessage".parse::<SqsAction>().unwrap(), SqsAction::ReceiveMessage);
    assert_eq!("DeleteMessage".parse::<SqsAction>().unwrap(), SqsAction::DeleteMessage);
    assert_eq!("DeleteMessageBatch".parse::<SqsAction>().unwrap(), SqsAction::DeleteMessageBatch);
    assert_eq!(
        "ChangeMessageVisibility".parse::<SqsAction>().unwrap(),
        SqsAction::ChangeMessageVisibility
    );
    assert_eq!(
        "ChangeMessageVisibilityBatch".parse::<SqsAction>().unwrap(),
        SqsAction::ChangeMessageVisibilityBatch
    );
}

#[test]
fn test_sqs_action_from_str_error() {
    let result = "UnknownAction".parse::<SqsAction>();
    assert!(result.is_err());
    assert!(result.unwrap_err().contains("Unknown SQS action"));
}

#[test]
fn test_queue_attribute_as_str_all_variants() {
    assert_eq!(QueueAttribute::All.as_str(), "All");
    assert_eq!(QueueAttribute::ApproximateNumberOfMessages.as_str(), "ApproximateNumberOfMessages");
    assert_eq!(
        QueueAttribute::ApproximateNumberOfMessagesNotVisible.as_str(),
        "ApproximateNumberOfMessagesNotVisible"
    );
    assert_eq!(
        QueueAttribute::ApproximateNumberOfMessagesDelayed.as_str(),
        "ApproximateNumberOfMessagesDelayed"
    );
    assert_eq!(QueueAttribute::CreatedTimestamp.as_str(), "CreatedTimestamp");
    assert_eq!(QueueAttribute::LastModifiedTimestamp.as_str(), "LastModifiedTimestamp");
    assert_eq!(QueueAttribute::VisibilityTimeout.as_str(), "VisibilityTimeout");
    assert_eq!(QueueAttribute::MaximumMessageSize.as_str(), "MaximumMessageSize");
    assert_eq!(QueueAttribute::MessageRetentionPeriod.as_str(), "MessageRetentionPeriod");
    assert_eq!(QueueAttribute::DelaySeconds.as_str(), "DelaySeconds");
    assert_eq!(QueueAttribute::RedrivePolicy.as_str(), "RedrivePolicy");
    assert_eq!(QueueAttribute::RedriveAllowPolicy.as_str(), "RedriveAllowPolicy");
    assert_eq!(QueueAttribute::FifoQueue.as_str(), "FifoQueue");
    assert_eq!(QueueAttribute::ContentBasedDeduplication.as_str(), "ContentBasedDeduplication");
    assert_eq!(QueueAttribute::QueueArn.as_str(), "QueueArn");
}

#[test]
fn test_queue_attribute_from_str_all_variants() {
    assert_eq!("All".parse::<QueueAttribute>().unwrap(), QueueAttribute::All);
    assert_eq!(
        "ApproximateNumberOfMessages".parse::<QueueAttribute>().unwrap(),
        QueueAttribute::ApproximateNumberOfMessages
    );
    assert_eq!(
        "ApproximateNumberOfMessagesNotVisible".parse::<QueueAttribute>().unwrap(),
        QueueAttribute::ApproximateNumberOfMessagesNotVisible
    );
    assert_eq!(
        "ApproximateNumberOfMessagesDelayed".parse::<QueueAttribute>().unwrap(),
        QueueAttribute::ApproximateNumberOfMessagesDelayed
    );
    assert_eq!("CreatedTimestamp".parse::<QueueAttribute>().unwrap(), QueueAttribute::CreatedTimestamp);
    assert_eq!(
        "LastModifiedTimestamp".parse::<QueueAttribute>().unwrap(),
        QueueAttribute::LastModifiedTimestamp
    );
    assert_eq!("VisibilityTimeout".parse::<QueueAttribute>().unwrap(), QueueAttribute::VisibilityTimeout);
    assert_eq!("MaximumMessageSize".parse::<QueueAttribute>().unwrap(), QueueAttribute::MaximumMessageSize);
    assert_eq!(
        "MessageRetentionPeriod".parse::<QueueAttribute>().unwrap(),
        QueueAttribute::MessageRetentionPeriod
    );
    assert_eq!("DelaySeconds".parse::<QueueAttribute>().unwrap(), QueueAttribute::DelaySeconds);
    assert_eq!("RedrivePolicy".parse::<QueueAttribute>().unwrap(), QueueAttribute::RedrivePolicy);
    assert_eq!("RedriveAllowPolicy".parse::<QueueAttribute>().unwrap(), QueueAttribute::RedriveAllowPolicy);
    assert_eq!("FifoQueue".parse::<QueueAttribute>().unwrap(), QueueAttribute::FifoQueue);
    assert_eq!(
        "ContentBasedDeduplication".parse::<QueueAttribute>().unwrap(),
        QueueAttribute::ContentBasedDeduplication
    );
    assert_eq!("QueueArn".parse::<QueueAttribute>().unwrap(), QueueAttribute::QueueArn);
}

#[test]
fn test_queue_attribute_from_str_error() {
    let result = "UnknownAttribute".parse::<QueueAttribute>();
    assert!(result.is_err());
    assert!(result.unwrap_err().contains("Unknown queue attribute"));
}

#[test]
fn test_sqs_error_code_as_str_all_variants() {
    assert_eq!(SqsErrorCode::QueueDoesNotExist.as_str(), "AWS.SimpleQueueService.NonExistentQueue");
    assert_eq!(SqsErrorCode::QueueAlreadyExists.as_str(), "QueueAlreadyExists");
    assert_eq!(SqsErrorCode::InvalidParameterValue.as_str(), "InvalidParameterValue");
    assert_eq!(SqsErrorCode::MissingParameter.as_str(), "MissingParameter");
    assert_eq!(SqsErrorCode::InvalidAttributeName.as_str(), "InvalidAttributeName");
    assert_eq!(SqsErrorCode::ReceiptHandleIsInvalid.as_str(), "ReceiptHandleIsInvalid");
    assert_eq!(
        SqsErrorCode::BatchRequestTooLong.as_str(),
        "AWS.SimpleQueueService.BatchRequestTooLong"
    );
    assert_eq!(SqsErrorCode::InternalError.as_str(), "InternalError");
}

#[test]
fn test_md5_of_body_various_inputs() {
    assert_eq!(calculate_md5_of_body(""), "d41d8cd98f00b204e9800998ecf8427e");
    assert_eq!(calculate_md5_of_body("Hello, World!"), "65a8e27d8879283831b664bd8b7f0ad4");
    assert_eq!(calculate_md5_of_body("test"), "098f6bcd4621d373cade4e832627b4f6");
}

#[test]
fn test_md5_calculation() {
    let body = "Hello, World!";
    let md5 = calculate_md5_of_body(body);
    assert_eq!(md5, "65a8e27d8879283831b664bd8b7f0ad4");
}

fn string_attr(value: &str) -> SqsMessageAttributeValue {
    SqsMessageAttributeValue {
        data_type: "String".to_string(),
        string_value: Some(value.to_string()),
        binary_value: None,
    }
}

#[test]
fn test_md5_of_attributes() {
    let mut attrs = SqsMessageAttributes::new();
    attrs.insert("test".to_string(), string_attr("value"));

    let md5 = calculate_md5_of_attributes(&attrs);
    assert!(!md5.is_empty());
    assert_eq!(md5.len(), 32);
    assert_eq!(md5, "9c35d992dee4528f7d20c274d61e16f5");
}

#[test]
fn test_md5_of_attributes_with_binary_value() {
    let mut attrs = SqsMessageAttributes::new();
    let binary_data = base64::engine::general_purpose::STANDARD.encode(b"Hello");
    attrs.insert(
        "binary_attr".to_string(),
        SqsMessageAttributeValue {
            data_type: "Binary".to_string(),
            string_value: None,
            binary_value: Some(binary_data),
        },
    );

    let md5 = calculate_md5_of_attributes(&attrs);
    assert!(!md5.is_empty());
    assert_eq!(md5.len(), 32);
    assert_eq!(md5, "3795d1bdb7c403f22a329227976957a5");
}

#[test]
fn test_md5_of_attributes_with_invalid_base64() {
    let mut attrs = SqsMessageAttributes::new();
    attrs.insert(
        "invalid_binary".to_string(),
        SqsMessageAttributeValue {
            data_type: "Binary".to_string(),
            string_value: None,
            binary_value: Some("!!!invalid-base64!!!".to_string()),
        },
    );

    let md5 = calculate_md5_of_attributes(&attrs);
    assert!(!md5.is_empty());
    assert_eq!(md5.len(), 32);
    assert_eq!(md5, "2a6063c31d1307be1b7bc238db934be5");
}

#[test]
fn test_md5_of_attributes_sorting() {
    let mut attrs1 = SqsMessageAttributes::new();
    attrs1.insert("zebra".to_string(), string_attr("value1"));
    attrs1.insert("alpha".to_string(), string_attr("value2"));

    let mut attrs2 = SqsMessageAttributes::new();
    attrs2.insert("alpha".to_string(), string_attr("value2"));
    attrs2.insert("zebra".to_string(), string_attr("value1"));

    assert_eq!(calculate_md5_of_attributes(&attrs1), calculate_md5_of_attributes(&attrs2));
    assert_eq!(calculate_md5_of_attributes(&attrs1), "b33fc27bd946e34f0c00df322d93dbe3");
}

#[test]
fn test_md5_of_attributes_empty() {
    let attrs = SqsMessageAttributes::new();
    let md5 = calculate_md5_of_attributes(&attrs);
    assert!(!md5.is_empty());
    assert_eq!(md5.len(), 32);
    assert_eq!(md5, "d41d8cd98f00b204e9800998ecf8427e");
}

#[test]
fn test_md5_of_attributes_multiple_types() {
    let mut attrs = SqsMessageAttributes::new();
    attrs.insert("string_attr".to_string(), string_attr("test_value"));
    attrs.insert(
        "number_attr".to_string(),
        SqsMessageAttributeValue {
            data_type: "Number".to_string(),
            string_value: Some("123".to_string()),
            binary_value: None,
        },
    );
    let binary_data = base64::engine::general_purpose::STANDARD.encode(b"binary_data");
    attrs.insert(
        "binary_attr".to_string(),
        SqsMessageAttributeValue {
            data_type: "Binary".to_string(),
            string_value: None,
            binary_value: Some(binary_data),
        },
    );

    let md5 = calculate_md5_of_attributes(&attrs);
    assert!(!md5.is_empty());
    assert_eq!(md5.len(), 32);
}
