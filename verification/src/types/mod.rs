//! Common data types.

pub mod validation;

use vstd::prelude::*;
use crate::dict::{Dict, Duplicate};

verus! {

/// A lower-case hexadecimal digit.
pub open spec fn is_lower_hex(c: char) -> bool {
    ('0' <= c && c <= '9') || ('a' <= c && c <= 'f')
}

/// The hyphenated lower-case text of a version 4 UUID: 36 characters, with
/// hyphens at 8, 13, 18 and 23 and hexadecimal digits elsewhere, the version
/// digit `4` at 14 and the variant digit, one of `8`, `9`, `a`, `b`, at 19.
pub open spec fn uuid_v4_text(s: Seq<char>) -> bool {
    &&& s.len() == 36
    &&& forall|i: int|
        0 <= i < 36 ==> if i == 8 || i == 13 || i == 18 || i == 23 {
            #[trigger] s[i] == '-'
        } else {
            is_lower_hex(s[i])
        }
    &&& s[14] == '4'
    &&& (s[19] == '8' || s[19] == '9' || s[19] == 'a' || s[19] == 'b')
}

/// Calls `uuid::Uuid::new_v4` and formats the identifier, hyphenated, with its
/// `Display` impl, which writes lower-case hexadecimal digits. The value is
/// random: only the format of a version 4 UUID of the RFC 4122 variant is
/// stated of it.
#[verifier::external_body]
pub(crate) fn new_uuid_string() -> (s: String)
    ensures
        uuid_v4_text(s@),
{
    uuid::Uuid::new_v4().to_string()
}

/// Unique message identifier.
#[derive(Debug, PartialEq, Eq, Hash)]
pub struct MessageId(pub String);

impl MessageId {
    /// Creates a new random message ID.
    pub fn new() -> (id: MessageId)
        ensures
            uuid_v4_text(id.0@),
    {
        MessageId(new_uuid_string())
    }

    /// Creates a message ID from a string.
    pub fn from_string(s: String) -> (id: MessageId)
        ensures
            id.0 == s,
    {
        MessageId(s)
    }

    /// The identifier as text.
    pub fn to_string(&self) -> (s: String)
        ensures
            s@ == self.0@,
    {
        self.0.clone()
    }
}

impl Clone for MessageId {
    fn clone(&self) -> (r: Self)
        ensures
            r.0@ == self.0@,
    {
        MessageId(self.0.clone())
    }
}

impl Default for MessageId {
    fn default() -> (id: Self)
        ensures
            uuid_v4_text(id.0@),
    {
        Self::new()
    }
}

impl View for MessageId {
    type V = Seq<char>;

    open spec fn view(&self) -> Seq<char> {
        self.0@
    }
}

impl Duplicate for MessageId {
    fn duplicate(&self) -> (r: Self) {
        MessageId(self.0.clone())
    }
}

pub open spec fn opt_str_view(o: Option<String>) -> Option<Seq<char>> {
    match o {
        Some(s) => Some(s@),
        None => None,
    }
}

pub fn copy_opt_string(o: &Option<String>) -> (r: Option<String>)
    ensures
        opt_str_view(r) == opt_str_view(*o),
{
    match o {
        Some(s) => Some(s.clone()),
        None => None,
    }
}

/// Message attribute value.
#[derive(Debug, Clone)]
pub struct MessageAttributeValue {
    /// Data type (String, Number, Binary).
    pub data_type: String,
    /// String value.
    pub string_value: Option<String>,
    /// Binary value.
    pub binary_value: Option<Vec<u8>>,
}

pub struct MessageAttributeValueView {
    pub data_type: Seq<char>,
    pub string_value: Option<Seq<char>>,
    pub binary_value: Option<Seq<u8>>,
}

impl View for MessageAttributeValue {
    type V = MessageAttributeValueView;

    open spec fn view(&self) -> MessageAttributeValueView {
        MessageAttributeValueView {
            data_type: self.data_type@,
            string_value: opt_str_view(self.string_value),
            binary_value: match self.binary_value {
                Some(b) => Some(b@),
                None => None,
            },
        }
    }
}

impl Duplicate for MessageAttributeValue {
    fn duplicate(&self) -> (r: Self) {
        let binary_value = match &self.binary_value {
            Some(b) => {
                let mut c: Vec<u8> = Vec::new();
                let mut i: usize = 0;
                while i < b.len()
                    invariant
                        i <= b.len(),
                        c@ == b@.take(i as int),
                    decreases b.len() - i,
                {
                    c.push(b[i]);
                    assert(b@.take(i as int).push(b@[i as int]) =~= b@.take((i + 1) as int));
                    i = i + 1;
                }
                assert(b@.take(b.len() as int) =~= b@);
                Some(c)
            },
            None => None,
        };
        MessageAttributeValue {
            data_type: self.data_type.clone(),
            string_value: copy_opt_string(&self.string_value),
            binary_value,
        }
    }
}

/// Message attributes by name.
pub type MessageAttributes = Dict<MessageAttributeValue>;

/// A message in the queue system.
#[derive(Debug)]
pub struct Message {
    /// Unique message ID.
    pub id: MessageId,
    /// Message body.
    pub body: String,
    /// Message attributes.
    pub attributes: MessageAttributes,
    /// Queue ID this message belongs to.
    pub queue_id: String,
    /// When the message was sent, in milliseconds since the Unix epoch.
    pub sent_timestamp: i64,
    /// Number of times this message has been received.
    pub receive_count: u32,
    /// FIFO: Message group ID.
    pub message_group_id: Option<String>,
    /// FIFO: Message deduplication ID.
    pub deduplication_id: Option<String>,
    /// FIFO: Sequence number.
    pub sequence_number: Option<u64>,
    /// Delay seconds (0-900).
    pub delay_seconds: Option<u32>,
}

pub struct MessageView {
    pub id: Seq<char>,
    pub body: Seq<char>,
    pub attributes: Seq<(Seq<char>, MessageAttributeValueView)>,
    pub queue_id: Seq<char>,
    pub sent_timestamp: i64,
    pub receive_count: u32,
    pub message_group_id: Option<Seq<char>>,
    pub deduplication_id: Option<Seq<char>>,
    pub sequence_number: Option<u64>,
    pub delay_seconds: Option<u32>,
}

impl View for Message {
    type V = MessageView;

    open spec fn view(&self) -> MessageView {
        MessageView {
            id: self.id@,
            body: self.body@,
            attributes: self.attributes.pairs(),
            queue_id: self.queue_id@,
            sent_timestamp: self.sent_timestamp,
            receive_count: self.receive_count,
            message_group_id: opt_str_view(self.message_group_id),
            deduplication_id: opt_str_view(self.deduplication_id),
            sequence_number: self.sequence_number,
            delay_seconds: self.delay_seconds,
        }
    }
}

impl Duplicate for Message {
    fn duplicate(&self) -> (r: Self) {
        Message {
            id: self.id.duplicate(),
            body: self.body.clone(),
            attributes: self.attributes.duplicate(),
            queue_id: self.queue_id.clone(),
            sent_timestamp: self.sent_timestamp,
            receive_count: self.receive_count,
            message_group_id: copy_opt_string(&self.message_group_id),
            deduplication_id: copy_opt_string(&self.deduplication_id),
            sequence_number: self.sequence_number,
            delay_seconds: self.delay_seconds,
        }
    }
}

impl Clone for Message {
    fn clone(&self) -> (r: Self)
        ensures
            r@ == self@,
    {
        self.duplicate()
    }
}

/// Queue type.
#[derive(Debug, Clone, Copy, PartialEq, Eq, Structural)]
pub enum QueueType {
    /// AWS SQS Standard queue.
    SqsStandard,
    /// AWS SQS FIFO queue.
    SqsFifo,
    /// GCP Pub/Sub topic.
    PubSubTopic,
}

/// Dead letter queue configuration.
#[derive(Debug, Clone)]
pub struct DlqConfig {
    /// Target DLQ ID.
    pub target_queue_id: String,
    /// Maximum receive count before moving to DLQ.
    pub max_receive_count: u32,
}

/// Redrive permission type for a dead letter queue.
#[derive(Debug, Clone)]
pub enum RedrivePermission {
    /// Allow all source queues to use this queue as DLQ.
    AllowAll,
    /// Deny all source queues from using this queue as DLQ.
    DenyAll,
    /// Allow only specified source queues to use this queue as DLQ.
    ByQueue {
        /// List of source queue ARNs allowed to use this as DLQ.
        source_queue_arns: Vec<String>,
    },
}

/// Redrive allow policy: which source queues can use this queue as a DLQ.
#[derive(Debug, Clone)]
pub struct RedriveAllowPolicy {
    /// The permission type.
    pub permission: RedrivePermission,
}

pub enum RedrivePermissionView {
    AllowAll,
    DenyAll,
    ByQueue(Seq<Seq<char>>),
}

pub open spec fn strings_view(v: Vec<String>) -> Seq<Seq<char>> {
    v@.map_values(|s: String| s@)
}

pub open spec fn redrive_view(p: Option<RedriveAllowPolicy>) -> Option<RedrivePermissionView> {
    match p {
        Some(p) => Some(
            match p.permission {
                RedrivePermission::AllowAll => RedrivePermissionView::AllowAll,
                RedrivePermission::DenyAll => RedrivePermissionView::DenyAll,
                RedrivePermission::ByQueue { source_queue_arns } => RedrivePermissionView::ByQueue(
                    strings_view(source_queue_arns),
                ),
            },
        ),
        None => None,
    }
}

pub open spec fn dlq_view(d: Option<DlqConfig>) -> Option<(Seq<char>, u32)> {
    match d {
        Some(d) => Some((d.target_queue_id@, d.max_receive_count)),
        None => None,
    }
}

pub fn copy_strings(v: &Vec<String>) -> (r: Vec<String>)
    ensures
        strings_view(r) == strings_view(*v),
{
    let mut r: Vec<String> = Vec::new();
    let mut i: usize = 0;
    while i < v.len()
        invariant
            i <= v.len(),
            strings_view(r) == strings_view(*v).take(i as int),
        decreases v.len() - i,
    {
        let ghost before = r@;
        let c = v[i].clone();
        proof {
            assert(strings_view(*v)[i as int] == v@[i as int]@);
            assert(before.push(c).map_values(|s: String| s@) =~= before.map_values(|s: String| s@).push(c@));
            assert(strings_view(*v).take(i as int).push(strings_view(*v)[i as int]) =~= strings_view(*v).take((i + 1) as int));
        }
        r.push(c);
        i = i + 1;
    }
    assert(strings_view(*v).take(v.len() as int) =~= strings_view(*v));
    r
}

pub fn copy_redrive(p: &Option<RedriveAllowPolicy>) -> (r: Option<RedriveAllowPolicy>)
    ensures
        redrive_view(r) == redrive_view(*p),
{
    match p {
        Some(p) => {
            let permission = match &p.permission {
                RedrivePermission::AllowAll => RedrivePermission::AllowAll,
                RedrivePermission::DenyAll => RedrivePermission::DenyAll,
                RedrivePermission::ByQueue { source_queue_arns } => RedrivePermission::ByQueue {
                    source_queue_arns: copy_strings(source_queue_arns),
                },
            };
            Some(RedriveAllowPolicy { permission })
        },
        None => None,
    }
}

pub fn copy_dlq(d: &Option<DlqConfig>) -> (r: Option<DlqConfig>)
    ensures
        dlq_view(r) == dlq_view(*d),
{
    match d {
        Some(d) => Some(
            DlqConfig { target_queue_id: d.target_queue_id.clone(), max_receive_count: d.max_receive_count },
        ),
        None => None,
    }
}

/// Queue configuration.
#[derive(Debug)]
pub struct QueueConfig {
    /// Queue ID.
    pub id: String,
    /// Queue name.
    pub name: String,
    /// Queue type.
    pub queue_type: QueueType,
    /// Visibility timeout in seconds (default: 30).
    pub visibility_timeout: u32,
    /// Message retention period in seconds (default: 345600 = 4 days).
    pub message_retention_period: u32,
    /// Maximum message size in bytes (default: 262144 = 256KB).
    pub max_message_size: usize,
    /// Delay seconds (0-900).
    pub delay_seconds: u32,
    /// Dead letter queue configuration.
    pub dlq_config: Option<DlqConfig>,
    /// FIFO: Content-based deduplication enabled.
    pub content_based_deduplication: bool,
    /// Tags.
    pub tags: Dict<String>,
    /// Redrive allow policy - controls which queues can use this as a DLQ.
    pub redrive_allow_policy: Option<RedriveAllowPolicy>,
}

pub struct QueueConfigView {
    pub id: Seq<char>,
    pub name: Seq<char>,
    pub queue_type: QueueType,
    pub visibility_timeout: u32,
    pub message_retention_period: u32,
    pub max_message_size: usize,
    pub delay_seconds: u32,
    pub dlq_config: Option<(Seq<char>, u32)>,
    pub content_based_deduplication: bool,
    pub tags: Seq<(Seq<char>, Seq<char>)>,
    pub redrive_allow_policy: Option<RedrivePermissionView>,
}

impl View for QueueConfig {
    type V = QueueConfigView;

    open spec fn view(&self) -> QueueConfigView {
        QueueConfigView {
            id: self.id@,
            name: self.name@,
            queue_type: self.queue_type,
            visibility_timeout: self.visibility_timeout,
            message_retention_period: self.message_retention_period,
            max_message_size: self.max_message_size,
            delay_seconds: self.delay_seconds,
            dlq_config: dlq_view(self.dlq_config),
            content_based_deduplication: self.content_based_deduplication,
            tags: self.tags.pairs(),
            redrive_allow_policy: redrive_view(self.redrive_allow_policy),
        }
    }
}

impl Duplicate for QueueConfig {
    fn duplicate(&self) -> (r: Self) {
        QueueConfig {
            id: self.id.clone(),
            name: self.name.clone(),
            queue_type: self.queue_type,
            visibility_timeout: self.visibility_timeout,
            message_retention_period: self.message_retention_period,
            max_message_size: self.max_message_size,
            delay_seconds: self.delay_seconds,
            dlq_config: copy_dlq(&self.dlq_config),
            content_based_deduplication: self.content_based_deduplication,
            tags: self.tags.duplicate(),
            redrive_allow_policy: copy_redrive(&self.redrive_allow_policy),
        }
    }
}

impl Clone for QueueConfig {
    fn clone(&self) -> (r: Self)
        ensures
            r@ == self@,
    {
        self.duplicate()
    }
}

/// Options for receiving messages.
#[derive(Debug, Clone)]
pub struct ReceiveOptions {
    /// Maximum number of messages to receive (1-10).
    pub max_messages: u32,
    /// Visibility timeout in seconds.
    pub visibility_timeout: Option<u32>,
    /// Wait time for long polling in seconds (0-20).
    pub wait_time_seconds: u32,
    /// Attribute names to return.
    pub attribute_names: Vec<String>,
    /// Message attribute names to return.
    pub message_attribute_names: Vec<String>,
}

impl Default for ReceiveOptions {
    fn default() -> (o: Self)
        ensures
            o.max_messages == 1,
            o.visibility_timeout is None,
            o.wait_time_seconds == 0,
            o.attribute_names@.len() == 0,
            o.message_attribute_names@.len() == 0,
    {
        ReceiveOptions {
            max_messages: 1,
            visibility_timeout: None,
            wait_time_seconds: 0,
            attribute_names: Vec::new(),
            message_attribute_names: Vec::new(),
        }
    }
}

/// Queue statistics.
#[derive(Debug, Clone, Copy, PartialEq, Eq, Structural)]
pub struct QueueStats {
    /// Number of messages available.
    pub available_messages: u64,
    /// Number of messages in flight.
    pub in_flight_messages: u64,
    /// Number of messages in DLQ.
    pub dlq_messages: u64,
    /// Send time of the oldest available message, in milliseconds since the
    /// Unix epoch.
    pub oldest_message_timestamp: Option<i64>,
}

/// Dead letter policy for Pub/Sub.
#[derive(Debug, Clone)]
pub struct DeadLetterPolicy {
    /// Dead letter topic ID.
    pub dead_letter_topic: String,
    /// Max delivery attempts.
    pub max_delivery_attempts: u32,
}

/// Retry policy for push deliveries.
#[derive(Debug, Clone, Copy, PartialEq, Eq, Structural)]
pub struct RetryPolicy {
    /// Minimum backoff delay in seconds (default: 10).
    pub min_backoff_seconds: u32,
    /// Maximum backoff delay in seconds (default: 600).
    pub max_backoff_seconds: u32,
    /// Maximum delivery attempts (default: 5).
    pub max_attempts: u32,
}

impl Default for RetryPolicy {
    fn default() -> (p: Self)
        ensures
            p.min_backoff_seconds == 10,
            p.max_backoff_seconds == 600,
            p.max_attempts == 5,
    {
        RetryPolicy { min_backoff_seconds: 10, max_backoff_seconds: 600, max_attempts: 5 }
    }
}

/// Push configuration for push subscriptions.
#[derive(Debug, Clone)]
pub struct PushConfig {
    /// Push endpoint URL (HTTP or HTTPS).
    pub endpoint: String,
    /// Retry policy for failed deliveries.
    pub retry_policy: Option<RetryPolicy>,
    /// HTTP request timeout in seconds.
    pub timeout_seconds: Option<u32>,
}

/// Subscription configuration (for Pub/Sub).
#[derive(Debug)]
pub struct SubscriptionConfig {
    /// Subscription ID.
    pub id: String,
    /// Subscription name.
    pub name: String,
    /// Topic ID.
    pub topic_id: String,
    /// Ack deadline in seconds (10-600).
    pub ack_deadline_seconds: u32,
    /// Message retention duration in seconds.
    pub message_retention_duration: u32,
    /// Enable message ordering.
    pub enable_message_ordering: bool,
    /// Filter expression.
    pub filter: Option<String>,
    /// Dead letter policy.
    pub dead_letter_policy: Option<DeadLetterPolicy>,
    /// Push configuration (None = pull subscription).
    pub push_config: Option<PushConfig>,
}

pub struct SubscriptionConfigView {
    pub id: Seq<char>,
    pub name: Seq<char>,
    pub topic_id: Seq<char>,
    pub ack_deadline_seconds: u32,
    pub message_retention_duration: u32,
    pub enable_message_ordering: bool,
    pub filter: Option<Seq<char>>,
    pub dead_letter_policy: Option<(Seq<char>, u32)>,
    pub push_config: Option<(Seq<char>, Option<RetryPolicy>, Option<u32>)>,
}

impl View for SubscriptionConfig {
    type V = SubscriptionConfigView;

    open spec fn view(&self) -> SubscriptionConfigView {
        SubscriptionConfigView {
            id: self.id@,
            name: self.name@,
            topic_id: self.topic_id@,
            ack_deadline_seconds: self.ack_deadline_seconds,
            message_retention_duration: self.message_retention_duration,
            enable_message_ordering: self.enable_message_ordering,
            filter: opt_str_view(self.filter),
            dead_letter_policy: match self.dead_letter_policy {
                Some(d) => Some((d.dead_letter_topic@, d.max_delivery_attempts)),
                None => None,
            },
            push_config: match self.push_config {
                Some(p) => Some((p.endpoint@, p.retry_policy, p.timeout_seconds)),
                None => None,
            },
        }
    }
}

impl Duplicate for SubscriptionConfig {
    fn duplicate(&self) -> (r: Self) {
        let dead_letter_policy = match &self.dead_letter_policy {
            Some(d) => Some(
                DeadLetterPolicy {
                    dead_letter_topic: d.dead_letter_topic.clone(),
                    max_delivery_attempts: d.max_delivery_attempts,
                },
            ),
            None => None,
        };
        let push_config = match &self.push_config {
            Some(p) => Some(
                PushConfig {
                    endpoint: p.endpoint.clone(),
                    retry_policy: p.retry_policy,
                    timeout_seconds: p.timeout_seconds,
                },
            ),
            None => None,
        };
        SubscriptionConfig {
            id: self.id.clone(),
            name: self.name.clone(),
            topic_id: self.topic_id.clone(),
            ack_deadline_seconds: self.ack_deadline_seconds,
            message_retention_duration: self.message_retention_duration,
            enable_message_ordering: self.enable_message_ordering,
            filter: copy_opt_string(&self.filter),
            dead_letter_policy,
            push_config,
        }
    }
}

impl Clone for SubscriptionConfig {
    fn clone(&self) -> (r: Self)
        ensures
            r@ == self@,
    {
        self.duplicate()
    }
}

} // verus!
