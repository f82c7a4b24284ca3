//! AWS SQS-specific data types.

use vstd::prelude::*;
use crate::dict::{
    in_key_order, keys_ascending, keys_distinct, lemma_ascending_insert, lemma_in_key_order,
    lemma_pairs_to_map_insert_at, pairs_to_map, Dict, Duplicate,
};
use crate::text::{
    chars_lt, lemma_chars_lt_total, lemma_chars_lt_transitive, push_char, push_str,
    str_eq, string_lt,
};
use crate::types::{copy_opt_string, opt_str_view};

verus! {

/// SQS action types.
#[derive(Debug, Clone, Copy, PartialEq, Eq, Structural)]
pub enum SqsAction {
    /// Create a new queue.
    CreateQueue,
    /// Delete a queue.
    DeleteQueue,
    /// Get queue URL from name.
    GetQueueUrl,
    /// Get queue attributes.
    GetQueueAttributes,
    /// Set queue attributes.
    SetQueueAttributes,
    /// List queues.
    ListQueues,
    /// Purge queue.
    PurgeQueue,
    /// Tag queue.
    TagQueue,
    /// Untag queue.
    UntagQueue,
    /// List queue tags.
    ListQueueTags,
    /// Send a message.
    SendMessage,
    /// Send multiple messages.
    SendMessageBatch,
    /// Receive messages.
    ReceiveMessage,
    /// Delete a message.
    DeleteMessage,
    /// Delete multiple messages.
    DeleteMessageBatch,
    /// Change message visibility.
    ChangeMessageVisibility,
    /// Change message visibility for multiple messages.
    ChangeMessageVisibilityBatch,
}

/// The wire name of an action.
pub open spec fn action_name(a: SqsAction) -> Seq<char> {
    match a {
        SqsAction::CreateQueue => "CreateQueue"@,
        SqsAction::DeleteQueue => "DeleteQueue"@,
        SqsAction::GetQueueUrl => "GetQueueUrl"@,
        SqsAction::GetQueueAttributes => "GetQueueAttributes"@,
        SqsAction::SetQueueAttributes => "SetQueueAttributes"@,
        SqsAction::ListQueues => "ListQueues"@,
        SqsAction::PurgeQueue => "PurgeQueue"@,
        SqsAction::TagQueue => "TagQueue"@,
        SqsAction::UntagQueue => "UntagQueue"@,
        SqsAction::ListQueueTags => "ListQueueTags"@,
        SqsAction::SendMessage => "SendMessage"@,
        SqsAction::SendMessageBatch => "SendMessageBatch"@,
        SqsAction::ReceiveMessage => "ReceiveMessage"@,
        SqsAction::DeleteMessage => "DeleteMessage"@,
        SqsAction::DeleteMessageBatch => "DeleteMessageBatch"@,
        SqsAction::ChangeMessageVisibility => "ChangeMessageVisibility"@,
        SqsAction::ChangeMessageVisibilityBatch => "ChangeMessageVisibilityBatch"@,
    }
}

/// Whether some action has this wire name.
pub open spec fn is_action_name(s: Seq<char>) -> bool {
    exists|a: SqsAction| action_name(a) == s
}

/// Distinct actions have distinct wire names.
pub proof fn lemma_action_name_injective(a: SqsAction, b: SqsAction)
    requires
        action_name(a) == action_name(b),
    ensures
        a == b,
{
    reveal_strlit("CreateQueue");
    reveal_strlit("DeleteQueue");
    reveal_strlit("GetQueueUrl");
    reveal_strlit("GetQueueAttributes");
    reveal_strlit("SetQueueAttributes");
    reveal_strlit("ListQueues");
    reveal_strlit("PurgeQueue");
    reveal_strlit("TagQueue");
    reveal_strlit("UntagQueue");
    reveal_strlit("ListQueueTags");
    reveal_strlit("SendMessage");
    reveal_strlit("SendMessageBatch");
    reveal_strlit("ReceiveMessage");
    reveal_strlit("DeleteMessage");
    reveal_strlit("DeleteMessageBatch");
    reveal_strlit("ChangeMessageVisibility");
    reveal_strlit("ChangeMessageVisibilityBatch");
    if a != b {
        let x = action_name(a);
        let y = action_name(b);
        assert(x.len() != y.len() || x[0] != y[0] || x[1] != y[1] || x[2] != y[2] || x[3] != y[3]
            || x[6] != y[6] || x[7] != y[7] || x[8] != y[8] || x[13] != y[13] || x[16] != y[16]
            || x[x.len() - 1] != y[y.len() - 1] || x[x.len() - 2] != y[y.len() - 2]);
    }
}

impl SqsAction {
    /// The wire name of the action.
    pub fn as_str(&self) -> (s: &'static str)
        ensures
            s@ == action_name(*self),
    {
        match self {
            SqsAction::CreateQueue => "CreateQueue",
            SqsAction::DeleteQueue => "DeleteQueue",
            SqsAction::GetQueueUrl => "GetQueueUrl",
            SqsAction::GetQueueAttributes => "GetQueueAttributes",
            SqsAction::SetQueueAttributes => "SetQueueAttributes",
            SqsAction::ListQueues => "ListQueues",
            SqsAction::PurgeQueue => "PurgeQueue",
            SqsAction::TagQueue => "TagQueue",
            SqsAction::UntagQueue => "UntagQueue",
            SqsAction::ListQueueTags => "ListQueueTags",
            SqsAction::SendMessage => "SendMessage",
            SqsAction::SendMessageBatch => "SendMessageBatch",
            SqsAction::ReceiveMessage => "ReceiveMessage",
            SqsAction::DeleteMessage => "DeleteMessage",
            SqsAction::DeleteMessageBatch => "DeleteMessageBatch",
            SqsAction::ChangeMessageVisibility => "ChangeMessageVisibility",
            SqsAction::ChangeMessageVisibilityBatch => "ChangeMessageVisibilityBatch",
        }
    }

    /// The action with this wire name, or the message
    /// `Unknown SQS action: <name>`.
    pub fn from_name(s: &str) -> (r: Result<SqsAction, String>)
        ensures
            match r {
                Ok(a) => action_name(a) == s@,
                Err(m) => !is_action_name(s@) && m@ == "Unknown SQS action: "@ + s@,
            },
    {
        let all = [
            SqsAction::CreateQueue,
            SqsAction::DeleteQueue,
            SqsAction::GetQueueUrl,
            SqsAction::GetQueueAttributes,
            SqsAction::SetQueueAttributes,
            SqsAction::ListQueues,
            SqsAction::PurgeQueue,
            SqsAction::TagQueue,
            SqsAction::UntagQueue,
            SqsAction::ListQueueTags,
            SqsAction::SendMessage,
            SqsAction::SendMessageBatch,
            SqsAction::ReceiveMessage,
            SqsAction::DeleteMessage,
            SqsAction::DeleteMessageBatch,
            SqsAction::ChangeMessageVisibility,
            SqsAction::ChangeMessageVisibilityBatch,
        ];
        let mut i: usize = 0;
        while i < 17
            invariant
                i <= 17,
                all@ == seq![
                    SqsAction::CreateQueue,
                    SqsAction::DeleteQueue,
                    SqsAction::GetQueueUrl,
                    SqsAction::GetQueueAttributes,
                    SqsAction::SetQueueAttributes,
                    SqsAction::ListQueues,
                    SqsAction::PurgeQueue,
                    SqsAction::TagQueue,
                    SqsAction::UntagQueue,
                    SqsAction::ListQueueTags,
                    SqsAction::SendMessage,
                    SqsAction::SendMessageBatch,
                    SqsAction::ReceiveMessage,
                    SqsAction::DeleteMessage,
                    SqsAction::DeleteMessageBatch,
                    SqsAction::ChangeMessageVisibility,
                    SqsAction::ChangeMessageVisibilityBatch,
                ],
                forall|j: int| 0 <= j < i ==> action_name(#[trigger] all@[j]) != s@,
            decreases 17 - i,
        {
            let a = all[i];
            if str_eq(a.as_str(), s) {
                return Ok(a);
            }
            i = i + 1;
        }
        proof {
            assert forall|a: SqsAction| action_name(a) != s@ by {
                match a {
                    SqsAction::CreateQueue => assert(all@[0] == a),
                    SqsAction::DeleteQueue => assert(all@[1] == a),
                    SqsAction::GetQueueUrl => assert(all@[2] == a),
                    SqsAction::GetQueueAttributes => assert(all@[3] == a),
                    SqsAction::SetQueueAttributes => assert(all@[4] == a),
                    SqsAction::ListQueues => assert(all@[5] == a),
                    SqsAction::PurgeQueue => assert(all@[6] == a),
                    SqsAction::TagQueue => assert(all@[7] == a),
                    SqsAction::UntagQueue => assert(all@[8] == a),
                    SqsAction::ListQueueTags => assert(all@[9] == a),
                    SqsAction::SendMessage => assert(all@[10] == a),
                    SqsAction::SendMessageBatch => assert(all@[11] == a),
                    SqsAction::ReceiveMessage => assert(all@[12] == a),
                    SqsAction::DeleteMessage => assert(all@[13] == a),
                    SqsAction::DeleteMessageBatch => assert(all@[14] == a),
                    SqsAction::ChangeMessageVisibility => assert(all@[15] == a),
                    SqsAction::ChangeMessageVisibilityBatch => assert(all@[16] == a),
                }
            }
        }
        let mut m = String::new();
        push_str(&mut m, "Unknown SQS action: ");
        push_str(&mut m, s);
        Err(m)
    }
}

impl std::str::FromStr for SqsAction {
    type Err = String;

    fn from_str(s: &str) -> (r: Result<Self, Self::Err>)
        ensures
            match r {
                Ok(a) => action_name(a) == s@,
                Err(m) => !is_action_name(s@) && m@ == "Unknown SQS action: "@ + s@,
            },
    {
        SqsAction::from_name(s)
    }
}

/// SQS queue attribute names.
#[derive(Debug, Clone, Copy, PartialEq, Eq, Structural)]
pub enum QueueAttribute {
    /// All attributes.
    All,
    /// Approximate number of messages.
    ApproximateNumberOfMessages,
    /// Approximate number of messages not visible.
    ApproximateNumberOfMessagesNotVisible,
    /// Approximate number of messages delayed.
    ApproximateNumberOfMessagesDelayed,
    /// Created timestamp.
    CreatedTimestamp,
    /// Last modified timestamp.
    LastModifiedTimestamp,
    /// Visibility timeout.
    VisibilityTimeout,
    /// Maximum message size.
    MaximumMessageSize,
    /// Message retention period.
    MessageRetentionPeriod,
    /// Delay seconds.
    DelaySeconds,
    /// Redrive policy.
    RedrivePolicy,
    /// Redrive allow policy.
    RedriveAllowPolicy,
    /// FIFO queue flag.
    FifoQueue,
    /// Content-based deduplication.
    ContentBasedDeduplication,
    /// Queue ARN.
    QueueArn,
}

/// The wire name of a queue attribute.
pub open spec fn attribute_name(a: QueueAttribute) -> Seq<char> {
    match a {
        QueueAttribute::All => "All"@,
        QueueAttribute::ApproximateNumberOfMessages => "ApproximateNumberOfMessages"@,
        QueueAttribute::ApproximateNumberOfMessagesNotVisible => "ApproximateNumberOfMessagesNotVisible"@,
        QueueAttribute::ApproximateNumberOfMessagesDelayed => "ApproximateNumberOfMessagesDelayed"@,
        QueueAttribute::CreatedTimestamp => "CreatedTimestamp"@,
        QueueAttribute::LastModifiedTimestamp => "LastModifiedTimestamp"@,
        QueueAttribute::VisibilityTimeout => "VisibilityTimeout"@,
        QueueAttribute::MaximumMessageSize => "MaximumMessageSize"@,
        QueueAttribute::MessageRetentionPeriod => "MessageRetentionPeriod"@,
        QueueAttribute::DelaySeconds => "DelaySeconds"@,
        QueueAttribute::RedrivePolicy => "RedrivePolicy"@,
        QueueAttribute::RedriveAllowPolicy => "RedriveAllowPolicy"@,
        QueueAttribute::FifoQueue => "FifoQueue"@,
        QueueAttribute::ContentBasedDeduplication => "ContentBasedDeduplication"@,
        QueueAttribute::QueueArn => "QueueArn"@,
    }
}

/// Whether some queue attribute has this wire name.
pub open spec fn is_attribute_name(s: Seq<char>) -> bool {
    exists|a: QueueAttribute| attribute_name(a) == s
}

/// Distinct queue attributes have distinct wire names.
pub proof fn lemma_attribute_name_injective(a: QueueAttribute, b: QueueAttribute)
    requires
        attribute_name(a) == attribute_name(b),
    ensures
        a == b,
{
    reveal_strlit("All");
    reveal_strlit("ApproximateNumberOfMessages");
    reveal_strlit("ApproximateNumberOfMessagesNotVisible");
    reveal_strlit("ApproximateNumberOfMessagesDelayed");
    reveal_strlit("CreatedTimestamp");
    reveal_strlit("LastModifiedTimestamp");
    reveal_strlit("VisibilityTimeout");
    reveal_strlit("MaximumMessageSize");
    reveal_strlit("MessageRetentionPeriod");
    reveal_strlit("DelaySeconds");
    reveal_strlit("RedrivePolicy");
    reveal_strlit("RedriveAllowPolicy");
    reveal_strlit("FifoQueue");
    reveal_strlit("ContentBasedDeduplication");
    reveal_strlit("QueueArn");
    if a != b {
        let x = attribute_name(a);
        let y = attribute_name(b);
        assert(x.len() != y.len() || x[0] != y[0] || x[1] != y[1] || x[2] != y[2] || x[3] != y[3]
            || x[6] != y[6] || x[7] != y[7] || x[8] != y[8] || x[13] != y[13] || x[16] != y[16]
            || x[x.len() - 1] != y[y.len() - 1] || x[x.len() - 2] != y[y.len() - 2]
            || x[x.len() - 3] != y[y.len() - 3]);
    }
}

impl QueueAttribute {
    /// The wire name of the attribute.
    pub fn as_str(&self) -> (s: &'static str)
        ensures
            s@ == attribute_name(*self),
    {
        match self {
            QueueAttribute::All => "All",
            QueueAttribute::ApproximateNumberOfMessages => "ApproximateNumberOfMessages",
            QueueAttribute::ApproximateNumberOfMessagesNotVisible => "ApproximateNumberOfMessagesNotVisible",
            QueueAttribute::ApproximateNumberOfMessagesDelayed => "ApproximateNumberOfMessagesDelayed",
            QueueAttribute::CreatedTimestamp => "CreatedTimestamp",
            QueueAttribute::LastModifiedTimestamp => "LastModifiedTimestamp",
            QueueAttribute::VisibilityTimeout => "VisibilityTimeout",
            QueueAttribute::MaximumMessageSize => "MaximumMessageSize",
            QueueAttribute::MessageRetentionPeriod => "MessageRetentionPeriod",
            QueueAttribute::DelaySeconds => "DelaySeconds",
            QueueAttribute::RedrivePolicy => "RedrivePolicy",
            QueueAttribute::RedriveAllowPolicy => "RedriveAllowPolicy",
            QueueAttribute::FifoQueue => "FifoQueue",
            QueueAttribute::ContentBasedDeduplication => "ContentBasedDeduplication",
            QueueAttribute::QueueArn => "QueueArn",
        }
    }

    /// The attribute with this wire name, or the message
    /// `Unknown queue attribute: <name>`.
    pub fn from_name(s: &str) -> (r: Result<QueueAttribute, String>)
        ensures
            match r {
                Ok(a) => attribute_name(a) == s@,
                Err(m) => !is_attribute_name(s@) && m@ == "Unknown queue attribute: "@ + s@,
            },
    {
        let all = [
            QueueAttribute::All,
            QueueAttribute::ApproximateNumberOfMessages,
            QueueAttribute::ApproximateNumberOfMessagesNotVisible,
            QueueAttribute::ApproximateNumberOfMessagesDelayed,
            QueueAttribute::CreatedTimestamp,
            QueueAttribute::LastModifiedTimestamp,
            QueueAttribute::VisibilityTimeout,
            QueueAttribute::MaximumMessageSize,
            QueueAttribute::MessageRetentionPeriod,
            QueueAttribute::DelaySeconds,
            QueueAttribute::RedrivePolicy,
            QueueAttribute::RedriveAllowPolicy,
            QueueAttribute::FifoQueue,
            QueueAttribute::ContentBasedDeduplication,
            QueueAttribute::QueueArn,
        ];
        let mut i: usize = 0;
        while i < 15
            invariant
                i <= 15,
                all@ == seq![
                    QueueAttribute::All,
                    QueueAttribute::ApproximateNumberOfMessages,
                    QueueAttribute::ApproximateNumberOfMessagesNotVisible,
                    QueueAttribute::ApproximateNumberOfMessagesDelayed,
                    QueueAttribute::CreatedTimestamp,
                    QueueAttribute::LastModifiedTimestamp,
                    QueueAttribute::VisibilityTimeout,
                    QueueAttribute::MaximumMessageSize,
                    QueueAttribute::MessageRetentionPeriod,
                    QueueAttribute::DelaySeconds,
                    QueueAttribute::RedrivePolicy,
                    QueueAttribute::RedriveAllowPolicy,
                    QueueAttribute::FifoQueue,
                    QueueAttribute::ContentBasedDeduplication,
                    QueueAttribute::QueueArn,
                ],
                forall|j: int| 0 <= j < i ==> attribute_name(#[trigger] all@[j]) != s@,
            decreases 15 - i,
        {
            let a = all[i];
            if str_eq(a.as_str(), s) {
                return Ok(a);
            }
            i = i + 1;
        }
        proof {
            assert forall|a: QueueAttribute| attribute_name(a) != s@ by {
                match a {
                    QueueAttribute::All => assert(all@[0] == a),
                    QueueAttribute::ApproximateNumberOfMessages => assert(all@[1] == a),
                    QueueAttribute::ApproximateNumberOfMessagesNotVisible => assert(all@[2] == a),
                    QueueAttribute::ApproximateNumberOfMessagesDelayed => assert(all@[3] == a),
                    QueueAttribute::CreatedTimestamp => assert(all@[4] == a),
                    QueueAttribute::LastModifiedTimestamp => assert(all@[5] == a),
                    QueueAttribute::VisibilityTimeout => assert(all@[6] == a),
                    QueueAttribute::MaximumMessageSize => assert(all@[7] == a),
                    QueueAttribute::MessageRetentionPeriod => assert(all@[8] == a),
                    QueueAttribute::DelaySeconds => assert(all@[9] == a),
                    QueueAttribute::RedrivePolicy => assert(all@[10] == a),
                    QueueAttribute::RedriveAllowPolicy => assert(all@[11] == a),
                    QueueAttribute::FifoQueue => assert(all@[12] == a),
                    QueueAttribute::ContentBasedDeduplication => assert(all@[13] == a),
                    QueueAttribute::QueueArn => assert(all@[14] == a),
                }
            }
        }
        let mut m = String::new();
        push_str(&mut m, "Unknown queue attribute: ");
        push_str(&mut m, s);
        Err(m)
    }
}

impl std::str::FromStr for QueueAttribute {
    type Err = String;

    fn from_str(s: &str) -> (r: Result<Self, Self::Err>)
        ensures
            match r {
                Ok(a) => attribute_name(a) == s@,
                Err(m) => !is_attribute_name(s@) && m@ == "Unknown queue attribute: "@ + s@,
            },
    {
        QueueAttribute::from_name(s)
    }
}

/// SQS error codes.
#[derive(Debug, Clone, Copy, PartialEq, Eq, Structural)]
pub enum SqsErrorCode {
    /// Queue does not exist.
    QueueDoesNotExist,
    /// Queue already exists.
    QueueAlreadyExists,
    /// Invalid parameter value.
    InvalidParameterValue,
    /// Missing parameter.
    MissingParameter,
    /// Invalid attribute name.
    InvalidAttributeName,
    /// Message not found.
    ReceiptHandleIsInvalid,
    /// Batch request too long.
    BatchRequestTooLong,
    /// Internal error.
    InternalError,
}

/// The wire name of an error code.
pub open spec fn error_code_name(c: SqsErrorCode) -> Seq<char> {
    match c {
        SqsErrorCode::QueueDoesNotExist => "AWS.SimpleQueueService.NonExistentQueue"@,
        SqsErrorCode::QueueAlreadyExists => "QueueAlreadyExists"@,
        SqsErrorCode::InvalidParameterValue => "InvalidParameterValue"@,
        SqsErrorCode::MissingParameter => "MissingParameter"@,
        SqsErrorCode::InvalidAttributeName => "InvalidAttributeName"@,
        SqsErrorCode::ReceiptHandleIsInvalid => "ReceiptHandleIsInvalid"@,
        SqsErrorCode::BatchRequestTooLong => "AWS.SimpleQueueService.BatchRequestTooLong"@,
        SqsErrorCode::InternalError => "InternalError"@,
    }
}

impl SqsErrorCode {
    /// The wire name of the error code.
    pub fn as_str(&self) -> (s: &'static str)
        ensures
            s@ == error_code_name(*self),
    {
        match self {
            SqsErrorCode::QueueDoesNotExist => "AWS.SimpleQueueService.NonExistentQueue",
            SqsErrorCode::QueueAlreadyExists => "QueueAlreadyExists",
            SqsErrorCode::InvalidParameterValue => "InvalidParameterValue",
            SqsErrorCode::MissingParameter => "MissingParameter",
            SqsErrorCode::InvalidAttributeName => "InvalidAttributeName",
            SqsErrorCode::ReceiptHandleIsInvalid => "ReceiptHandleIsInvalid",
            SqsErrorCode::BatchRequestTooLong => "AWS.SimpleQueueService.BatchRequestTooLong",
            SqsErrorCode::InternalError => "InternalError",
        }
    }
}

/// SQS message attribute value.
#[derive(Debug, Clone)]
pub struct SqsMessageAttributeValue {
    /// Data type (String, Number, Binary).
    pub data_type: String,
    /// String value.
    pub string_value: Option<String>,
    /// Binary value (base64 encoded).
    pub binary_value: Option<String>,
}

pub struct SqsMessageAttributeValueView {
    pub data_type: Seq<char>,
    pub string_value: Option<Seq<char>>,
    pub binary_value: Option<Seq<char>>,
}

impl View for SqsMessageAttributeValue {
    type V = SqsMessageAttributeValueView;

    open spec fn view(&self) -> SqsMessageAttributeValueView {
        SqsMessageAttributeValueView {
            data_type: self.data_type@,
            string_value: opt_str_view(self.string_value),
            binary_value: opt_str_view(self.binary_value),
        }
    }
}

impl Duplicate for SqsMessageAttributeValue {
    fn duplicate(&self) -> (r: Self) {
        SqsMessageAttributeValue {
            data_type: self.data_type.clone(),
            string_value: copy_opt_string(&self.string_value),
            binary_value: copy_opt_string(&self.binary_value),
        }
    }
}

/// SQS message attributes by name.
pub type SqsMessageAttributes = Dict<SqsMessageAttributeValue>;

// ---------------------------------------------------------------------------
// Digests
// ---------------------------------------------------------------------------

/// The MD5 digest of some bytes.
pub uninterp spec fn md5_digest(data: Seq<u8>) -> Seq<u8>;

/// Calls `md5::Md5::digest` (the `Digest` trait of the `md-5` crate) and
/// returns the 16 bytes of the digest, which the result names.
#[verifier::external_body]
pub(crate) fn md5_of_bytes(data: &[u8]) -> (r: Vec<u8>)
    ensures
        r@ == md5_digest(data@),
        r@.len() == 16,
{
    <md5::Md5 as md5::Digest>::digest(data).to_vec()
}

/// The lower-case hexadecimal digit for a value below 16.
pub open spec fn hex_digit(v: nat) -> char {
    if v < 10 {
        ((v + 48) as u32) as char
    } else {
        ((v + 87) as u32) as char
    }
}

/// Two lower-case hexadecimal digits per byte, as `format!("{:x}", ..)`
/// writes a digest.
pub open spec fn hex_lower(b: Seq<u8>) -> Seq<char>
    decreases b.len(),
{
    if b.len() == 0 {
        Seq::empty()
    } else {
        hex_lower(b.drop_last()) + seq![
            hex_digit((b.last() / 16) as nat),
            hex_digit((b.last() % 16) as nat),
        ]
    }
}

fn hex_digit_exec(v: u8) -> (c: char)
    requires
        v < 16,
    ensures
        c == hex_digit(v as nat),
{
    if v < 10 {
        (v + 48) as char
    } else {
        (v + 87) as char
    }
}

/// The lower-case hexadecimal form of some bytes.
pub fn to_hex_lower(b: &[u8]) -> (s: String)
    ensures
        s@ == hex_lower(b@),
{
    let mut s = String::new();
    let mut i: usize = 0;
    while i < b.len()
        invariant
            i <= b.len(),
            s@ == hex_lower(b@.take(i as int)),
        decreases b.len() - i,
    {
        let x = b[i];
        let hi = hex_digit_exec(x / 16);
        let lo = hex_digit_exec(x % 16);
        push_char(&mut s, hi);
        push_char(&mut s, lo);
        proof {
            let t = b@.take((i + 1) as int);
            assert(t.drop_last() =~= b@.take(i as int));
            assert(t.last() == x);
        }
        i = i + 1;
    }
    assert(b@.take(b.len() as int) =~= b@);
    s
}

/// The MD5 digest of the UTF-8 bytes of a message body, in lower-case hex.
pub fn calculate_md5_of_body(body: &str) -> (s: String)
    ensures
        s@ == hex_lower(md5_digest(vstd::utf8::encode_utf8(body@))),
{
    let bytes = body.as_bytes();
    let d = md5_of_bytes(bytes);
    to_hex_lower(d.as_slice())
}


/// The four bytes, most significant first, of the low 32 bits of `n`.
pub open spec fn be32(n: nat) -> Seq<u8> {
    seq![((n / 0x100_0000) % 256) as u8, ((n / 0x1_0000) % 256) as u8, ((n / 0x100) % 256) as u8, (n % 256) as u8]
}

/// Bytes preceded by their length.
pub open spec fn sized(b: Seq<u8>) -> Seq<u8> {
    be32(b.len()) + b
}

/// What the standard base64 alphabet, with padding, decodes a text to, if
/// it is valid base64.
pub uninterp spec fn base64_decoded(text: Seq<char>) -> Option<Seq<u8>>;

/// Calls `decode` of the `Engine` trait of the `base64` crate with the
/// standard engine; the result is named by `base64_decoded`, `None` where the
/// crate reports an error.
#[verifier::external_body]
pub(crate) fn decode_base64(text: &str) -> (r: Option<Vec<u8>>)
    ensures
        match r {
            Some(d) => base64_decoded(text@) == Some(d@),
            None => base64_decoded(text@) is None,
        },
{
    base64::Engine::decode(&base64::engine::general_purpose::STANDARD, text).ok()
}

/// The value part of an attribute's record: the transport type (1 for a
/// string value, 2 for a binary one) and the string value, else the decoded
/// binary value, with its length; nothing when neither is there or the
/// binary value is not valid base64.
pub open spec fn attribute_value_bytes(v: SqsMessageAttributeValueView) -> Seq<u8> {
    match v.string_value {
        Some(s) => seq![1u8] + sized(vstd::utf8::encode_utf8(s)),
        None => match v.binary_value {
            Some(b) => match base64_decoded(b) {
                Some(d) => seq![2u8] + sized(d),
                None => Seq::empty(),
            },
            None => Seq::empty(),
        },
    }
}

/// The bytes that one attribute contributes to the digest.
pub open spec fn attribute_record(name: Seq<char>, v: SqsMessageAttributeValueView) -> Seq<u8> {
    sized(vstd::utf8::encode_utf8(name)) + sized(vstd::utf8::encode_utf8(v.data_type)) + attribute_value_bytes(v)
}

/// The records of a list of attributes, one after the other.
pub open spec fn attribute_records(s: Seq<(Seq<char>, SqsMessageAttributeValueView)>) -> Seq<u8>
    decreases s.len(),
{
    if s.len() == 0 {
        Seq::empty()
    } else {
        attribute_records(s.drop_last()) + attribute_record(s.last().0, s.last().1)
    }
}

fn push_sized(buf: &mut Vec<u8>, bytes: &[u8])
    ensures
        final(buf)@ == old(buf)@ + sized(bytes@),
{
    let n = bytes.len() as u64;
    buf.push(((n / 0x100_0000) % 256) as u8);
    buf.push(((n / 0x1_0000) % 256) as u8);
    buf.push(((n / 0x100) % 256) as u8);
    buf.push((n % 256) as u8);
    let ghost head = buf@;
    assert(head =~= old(buf)@ + be32(bytes@.len()));
    let mut i: usize = 0;
    while i < bytes.len()
        invariant
            i <= bytes.len(),
            buf@ == head + bytes@.take(i as int),
        decreases bytes.len() - i,
    {
        buf.push(bytes[i]);
        assert(bytes@.take(i as int).push(bytes[i as int]) =~= bytes@.take(i + 1));
        i = i + 1;
    }
    assert(bytes@.take(bytes.len() as int) =~= bytes@);
}

fn push_attribute_record(buf: &mut Vec<u8>, name: &String, v: &SqsMessageAttributeValue)
    ensures
        final(buf)@ == old(buf)@ + attribute_record(name@, v@),
{
    let ghost start = buf@;
    push_sized(buf, name.as_str().as_bytes());
    push_sized(buf, v.data_type.as_str().as_bytes());
    let ghost mid = buf@;
    match &v.string_value {
        Some(s) => {
            buf.push(1u8);
            push_sized(buf, s.as_str().as_bytes());
        },
        None => match &v.binary_value {
            Some(b) => match decode_base64(b.as_str()) {
                Some(d) => {
                    buf.push(2u8);
                    push_sized(buf, d.as_slice());
                },
                None => {},
            },
            None => {},
        },
    }
    assert(buf@ =~= mid + attribute_value_bytes(v@));
    assert(buf@ =~= start + attribute_record(name@, v@));
}

/// The pairs of `p` at the positions that `order` lists.
pub open spec fn at_positions<V>(p: Seq<(Seq<char>, V)>, order: Seq<usize>) -> Seq<(Seq<char>, V)> {
    order.map_values(|j: usize| p[j as int])
}

/// The MD5 digest, in lower-case hex, of the message attributes: for each
/// attribute in ascending order of names, its name and its data type, each
/// preceded by its length in four bytes, then the transport type of its
/// value (1 for a string, 2 for binary) and the value with its length.
pub fn calculate_md5_of_attributes(attributes: &SqsMessageAttributes) -> (s: String)
    ensures
        s@ == hex_lower(md5_digest(attribute_records(in_key_order(attributes@)))),
{
    let n = attributes.len();
    let ghost p = attributes.pairs();
    let mut order: Vec<usize> = Vec::new();
    let mut i: usize = 0;
    assert(p.take(0) =~= Seq::<(Seq<char>, SqsMessageAttributeValueView)>::empty());
    assert(at_positions(p, order@) =~= Seq::<(Seq<char>, SqsMessageAttributeValueView)>::empty());
    while i < n
        invariant
            n == p.len(),
            p == attributes.pairs(),
            keys_distinct(p),
            i <= n,
            order@.len() == i,
            forall|a: int| 0 <= a < order@.len() ==> order@[a] < i,
            keys_ascending(at_positions(p, order@)),
            keys_distinct(at_positions(p, order@)),
            pairs_to_map(at_positions(p, order@)) == pairs_to_map(p.take(i as int)),
        decreases n - i,
    {
        let name = attributes.entry(i).0;
        let ghost s = at_positions(p, order@);
        let mut pos: usize = 0;
        while pos < order.len() && string_lt(attributes.entry(order[pos]).0.as_str(), name.as_str())
            invariant
                pos <= order@.len(),
                order@.len() == i,
                i < n,
                n == p.len(),
                p == attributes.pairs(),
                s == at_positions(p, order@),
                forall|a: int| 0 <= a < order@.len() ==> order@[a] < i,
                name@ == p[i as int].0,
                forall|a: int| 0 <= a < pos ==> chars_lt(#[trigger] s[a].0, p[i as int].0),
            decreases order@.len() - pos,
        {
            assert(s[pos as int] == p[order@[pos as int] as int]);
            pos = pos + 1;
        }
        proof {
            assert forall|a: int| pos <= a < s.len() implies chars_lt(p[i as int].0, #[trigger] s[a].0) by {
                let ka = s[pos as int].0;
                assert(s[pos as int] == p[order@[pos as int] as int]);
                assert(s[a] == p[order@[a] as int]);
                lemma_chars_lt_total(ka, p[i as int].0);
                assert(ka != p[i as int].0);
                if a > pos {
                    assert(chars_lt(s[pos as int].0, s[a].0));
                    lemma_chars_lt_transitive(p[i as int].0, ka, s[a].0);
                }
            }
            assert forall|a: int| 0 <= a < s.len() implies #[trigger] s[a].0 != p[i as int].0 by {
                assert(s[a] == p[order@[a] as int]);
            }
            lemma_ascending_insert(s, pos as int, p[i as int].0, p[i as int].1);
            lemma_pairs_to_map_insert_at(s, pos as int, p[i as int].0, p[i as int].1);
            s.insert_ensures(pos as int, p[i as int]);
            order@.insert_ensures(pos as int, i);
            assert(p.take(i + 1).drop_last() =~= p.take(i as int));
        }
        order.insert(pos, i);
        assert(at_positions(p, order@) =~= s.insert(pos as int, p[i as int]));
        i = i + 1;
    }
    assert(p.take(n as int) =~= p);
    let ghost sorted = at_positions(p, order@);
    proof {
        lemma_in_key_order(sorted);
    }
    let mut buf: Vec<u8> = Vec::new();
    let mut a: usize = 0;
    assert(sorted.take(0) =~= Seq::<(Seq<char>, SqsMessageAttributeValueView)>::empty());
    while a < n
        invariant
            a <= n,
            n == p.len(),
            p == attributes.pairs(),
            order@.len() == n,
            forall|x: int| 0 <= x < order@.len() ==> order@[x] < n,
            sorted == at_positions(p, order@),
            buf@ == attribute_records(sorted.take(a as int)),
        decreases n - a,
    {
        let (name, value) = attributes.entry(order[a]);
        push_attribute_record(&mut buf, name, value);
        assert(sorted.take(a + 1).drop_last() =~= sorted.take(a as int));
        a = a + 1;
    }
    assert(sorted.take(n as int) =~= sorted);
    let d = md5_of_bytes(buf.as_slice());
    to_hex_lower(d.as_slice())
}

} // verus!
