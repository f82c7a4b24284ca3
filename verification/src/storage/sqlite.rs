//! The decisions of the SQLite backend: its configuration, how it names
//! queue types in the database, when a FIFO message is a duplicate, and what
//! becomes of each row that a receive reads. The backend runs the queries.

use vstd::prelude::*;
use crate::error::{Error, ValidationError};
use crate::receipt::{generate_receipt_handle, parse_receipt_handle, receipt_parts, receipt_text};
use crate::storage::memory::{after_seconds, content_dedup_id, generate_content_dedup_id, time_in_range, TIME_LIMIT_MS};
use crate::text::{dec, push_decimal, push_str, str_eq, to_owned_string};
use crate::types::{DeadLetterPolicy, Message, MessageView, PushConfig, QueueConfig, QueueConfigView, QueueType, RetryPolicy};

verus! {

broadcast use vstd::string::group_string_axioms;

/// SQLite backend configuration.
#[derive(Debug)]
pub struct SqliteConfig {
    /// Database file path (":memory:" for an in-memory database).
    pub database_path: String,
    /// Maximum number of connections in the pool.
    pub max_connections: u32,
}

impl Default for SqliteConfig {
    fn default() -> (c: Self)
        ensures
            c.database_path@ == "lclq.db"@,
            c.max_connections == 10,
    {
        SqliteConfig { database_path: to_owned_string("lclq.db"), max_connections: 10 }
    }
}

/// How the database names a queue type.
pub open spec fn queue_type_name(t: QueueType) -> Seq<char> {
    match t {
        QueueType::SqsStandard => "sqs_standard"@,
        QueueType::SqsFifo => "sqs_fifo"@,
        QueueType::PubSubTopic => "pubsub_topic"@,
    }
}

/// The database name of a queue type.
pub fn queue_type_to_string(queue_type: &QueueType) -> (s: &'static str)
    ensures
        s@ == queue_type_name(*queue_type),
{
    match queue_type {
        QueueType::SqsStandard => "sqs_standard",
        QueueType::SqsFifo => "sqs_fifo",
        QueueType::PubSubTopic => "pubsub_topic",
    }
}

/// The queue type that the database names, or a storage error.
pub fn string_to_queue_type(s: &str) -> (r: Result<QueueType, Error>)
    ensures
        match r {
            Ok(t) => queue_type_name(t) == s@,
            Err(e) => (forall|t: QueueType| queue_type_name(t) != s@) && (e matches Error::StorageError(m) && m@
                == "Unknown queue type: "@ + s@),
        },
{
    proof {
        reveal_strlit("sqs_standard");
        reveal_strlit("sqs_fifo");
        reveal_strlit("pubsub_topic");
    }
    if str_eq(s, "sqs_standard") {
        Ok(QueueType::SqsStandard)
    } else if str_eq(s, "sqs_fifo") {
        Ok(QueueType::SqsFifo)
    } else if str_eq(s, "pubsub_topic") {
        Ok(QueueType::PubSubTopic)
    } else {
        let mut m = to_owned_string("Unknown queue type: ");
        push_str(&mut m, s);
        Err(Error::StorageError(m))
    }
}

/// The error for a FIFO message without a deduplication ID, on a queue
/// without content-based deduplication.
pub open spec fn dedup_required(e: Error) -> bool {
    e matches Error::Validation(ValidationError::InvalidParameter { name, reason }) && name@
        == "MessageDeduplicationId"@ && reason@ == "Required for FIFO queues without content-based deduplication"@
}

/// The key under which the database remembers a message against
/// duplicates: none on a standard queue; on a FIFO queue the message's own
/// deduplication ID, or the content-based one, or an error when neither is
/// there.
pub fn dedup_key(queue: &QueueConfig, message: &Message) -> (r: Result<Option<String>, Error>)
    ensures
        queue.queue_type != QueueType::SqsFifo ==> r matches Ok(None),
        queue.queue_type == QueueType::SqsFifo ==> match message@.deduplication_id {
            Some(d) => r matches Ok(Some(k)) && k@ == d,
            None => if queue.content_based_deduplication {
                r matches Ok(Some(k)) && k@ == content_dedup_id(message@.body)
            } else {
                r matches Err(e) && dedup_required(e)
            },
        },
{
    if queue.queue_type != QueueType::SqsFifo {
        return Ok(None);
    }
    match &message.deduplication_id {
        Some(d) => Ok(Some(d.clone())),
        None => if queue.content_based_deduplication {
            Ok(Some(generate_content_dedup_id(message)))
        } else {
            Err(
                Error::Validation(
                    ValidationError::InvalidParameter {
                        name: to_owned_string("MessageDeduplicationId"),
                        reason: to_owned_string("Required for FIFO queues without content-based deduplication"),
                    },
                ),
            )
        },
    }
}

/// The delay a stored message gets: its own, or the queue's.
pub fn stored_delay(queue: &QueueConfig, message: &Message) -> (d: u32)
    ensures
        d == match message.delay_seconds {
            Some(x) => x,
            None => queue.delay_seconds,
        },
{
    match message.delay_seconds {
        Some(d) => d,
        None => queue.delay_seconds,
    }
}

/// How long the database remembers a deduplication ID, in seconds: five
/// minutes.
pub const DEDUP_WINDOW_SECS: i64 = 300;

/// The deduplication window at `now_secs`: a key accepted at time `t` is
/// stored to expire at `t` plus five minutes, so the entries still
/// remembered are those that expire after the first time (accepted less than
/// five minutes ago), and a new entry expires at the second.
pub fn dedup_window(now_secs: i64) -> (w: (i64, i64))
    requires
        -TIME_LIMIT_MS <= now_secs <= TIME_LIMIT_MS,
    ensures
        w.0 == now_secs,
        w.1 == now_secs + DEDUP_WINDOW_SECS,
{
    (now_secs, now_secs + DEDUP_WINDOW_SECS)
}

/// When a stored message becomes visible: after its own delay, or the
/// queue's.
pub fn visible_at(queue: &QueueConfig, message: &Message, now_millis: i64) -> (t: i64)
    requires
        time_in_range(now_millis),
    ensures
        t == after_seconds(
            now_millis,
            match message.delay_seconds {
                Some(d) => d,
                None => queue.delay_seconds,
            },
        ),
{
    let delay = match message.delay_seconds {
        Some(d) => d,
        None => queue.delay_seconds,
    };
    now_millis + (delay as i64) * 1000
}

/// What a receive does with a row it read.
pub enum RowAction {
    /// Move the message to the dead-letter queue: store this copy there and
    /// delete the row.
    MoveToDeadLetter { target_queue_id: String, message: Message },
    /// Hand the message out: mark the row in flight with this receive count,
    /// receipt handle and visibility deadline.
    Deliver { message: Message, receipt_handle: String, visibility_expires_at: i64 },
}

/// What a receive does with a message read from a queue: the receive count
/// goes up by one; past the queue's maximum receive count the message moves
/// to the dead-letter queue as a fresh message (sent now, received never),
/// otherwise it is handed out with a receipt handle and stays invisible for
/// `visibility_timeout` seconds.
pub open spec fn row_action_of(
    a: RowAction,
    queue_id: Seq<char>,
    queue: QueueConfigView,
    m: MessageView,
    now_millis: i64,
    visibility_timeout: u32,
    serial: u64,
) -> bool {
    let count = m.receive_count.wrapping_add(1);
    let dead = match queue.dlq_config {
        Some(d) => count > d.1,
        None => false,
    };
    if dead {
        a matches RowAction::MoveToDeadLetter { target_queue_id, message } && target_queue_id@
            == queue.dlq_config.unwrap().0 && message@ == (MessageView {
            sent_timestamp: now_millis,
            receive_count: 0,
            queue_id: target_queue_id@,
            ..m
        })
    } else {
        a matches RowAction::Deliver { message, receipt_handle, visibility_expires_at } && message@ == (
        MessageView { receive_count: count, ..m }) && receipt_handle@ == receipt_text(queue_id, m.id, serial as nat)
            && visibility_expires_at == after_seconds(now_millis, visibility_timeout)
    }
}

/// Decides what becomes of a message that a receive read from `queue_id`.
pub fn plan_row(
    queue_id: &str,
    queue: &QueueConfig,
    message: Message,
    now_millis: i64,
    visibility_timeout: u32,
    serial: u64,
) -> (a: RowAction)
    requires
        time_in_range(now_millis),
    ensures
        row_action_of(a, queue_id@, queue@, message@, now_millis, visibility_timeout, serial),
{
    let mut message = message;
    let count = message.receive_count.wrapping_add(1);
    let dead = match &queue.dlq_config {
        Some(d) => count > d.max_receive_count,
        None => false,
    };
    if dead {
        let target = match &queue.dlq_config {
            Some(d) => d.target_queue_id.clone(),
            None => to_owned_string(""),
        };
        message.sent_timestamp = now_millis;
        message.receive_count = 0;
        message.queue_id = target.clone();
        RowAction::MoveToDeadLetter { target_queue_id: target, message }
    } else {
        message.receive_count = count;
        let receipt_handle = generate_receipt_handle(queue_id, &message.id, serial);
        RowAction::Deliver {
            message,
            receipt_handle,
            visibility_expires_at: now_millis + (visibility_timeout as i64) * 1000,
        }
    }
}

/// The placeholders `?3, ?4, ...` for `n` message groups.
pub open spec fn group_placeholders(n: nat) -> Seq<char>
    decreases n,
{
    if n == 0 {
        Seq::empty()
    } else if n == 1 {
        "?3"@
    } else {
        group_placeholders((n - 1) as nat) + ", ?"@ + dec(n + 2)
    }
}

/// The query that reads the next visible messages of a FIFO queue in
/// sequence order, leaving out the message groups that have a message in
/// flight (bound from the third parameter on).
pub open spec fn fifo_receive_sql(groups: nat, limit: nat) -> Seq<char> {
    if groups == 0 {
        "SELECT * FROM messages WHERE queue_id = ? AND state = 'available' AND visible_at <= ? ORDER BY sequence_number LIMIT "@
            + dec(limit)
    } else {
        "SELECT * FROM messages WHERE queue_id = ? AND state = 'available' AND visible_at <= ? AND (message_group_id IS NULL OR message_group_id NOT IN ("@
            + group_placeholders(groups) + ")) ORDER BY sequence_number LIMIT "@ + dec(limit)
    }
}

/// Builds `fifo_receive_sql`.
pub fn fifo_receive_query(groups: usize, limit: u32) -> (q: String)
    ensures
        q@ == fifo_receive_sql(groups as nat, limit as nat),
{
    if groups == 0 {
        let mut q = to_owned_string(
            "SELECT * FROM messages WHERE queue_id = ? AND state = 'available' AND visible_at <= ? ORDER BY sequence_number LIMIT ",
        );
        push_decimal(&mut q, limit as u128);
        return q;
    }
    let mut q = to_owned_string(
        "SELECT * FROM messages WHERE queue_id = ? AND state = 'available' AND visible_at <= ? AND (message_group_id IS NULL OR message_group_id NOT IN (",
    );
    let ghost head = q@;
    push_str(&mut q, "?3");
    proof {
        reveal_strlit("?3");
        assert(group_placeholders(1) == "?3"@);
    }
    let mut i: usize = 1;
    while i < groups
        invariant
            1 <= i <= groups,
            q@ == head + group_placeholders(i as nat),
        decreases groups - i,
    {
        push_str(&mut q, ", ?");
        push_decimal(&mut q, (i as u128) + 3);
        assert(group_placeholders((i + 1) as nat) == group_placeholders(i as nat) + ", ?"@ + dec((i + 3) as nat));
        i = i + 1;
    }
    push_str(&mut q, ")) ORDER BY sequence_number LIMIT ");
    push_decimal(&mut q, limit as u128);
    q
}

/// How long a receive hides what it hands out: the timeout it asks for, or
/// the queue's.
pub fn receive_visibility(requested: Option<u32>, queue: &QueueConfig) -> (t: u32)
    ensures
        t == match requested {
            Some(x) => x,
            None => queue.visibility_timeout,
        },
{
    match requested {
        Some(x) => x,
        None => queue.visibility_timeout,
    }
}

/// How many messages a receive reads at most: what it asks for, but no more
/// than 10.
pub fn receive_limit(max_messages: u32) -> (n: u32)
    ensures
        n == if max_messages < 10 { max_messages } else { 10 },
{
    if max_messages < 10 {
        max_messages
    } else {
        10
    }
}


/// The message that a receipt handle names, when the handle is well formed
/// and made for `queue_id`; else the handle is invalid.
pub fn message_of_handle(queue_id: &str, receipt_handle: &str) -> (r: Result<String, Error>)
    ensures
        match receipt_parts(receipt_handle@) {
            Some(parts) if parts.0 == queue_id@ => r matches Ok(m) && m@ == parts.1,
            _ => r matches Err(e) && e == Error::InvalidReceiptHandle,
        },
{
    let data = parse_receipt_handle(receipt_handle)?;
    if !str_eq(data.queue_id.as_str(), queue_id) {
        return Err(Error::InvalidReceiptHandle);
    }
    Ok(data.message_id.0)
}

/// What changing the visibility of an in-flight message does.
pub enum VisibilityUpdate {
    /// Make the message available again, visible at this time.
    ReturnAt(i64),
    /// Keep it in flight until this time.
    HideUntil(i64),
}

/// A timeout of zero returns the message at once; any other hides it for
/// that many seconds from now.
pub fn visibility_update(visibility_timeout: u32, now_millis: i64) -> (u: VisibilityUpdate)
    requires
        time_in_range(now_millis),
    ensures
        visibility_timeout == 0 ==> (u matches VisibilityUpdate::ReturnAt(t) && t == now_millis),
        visibility_timeout > 0 ==> (u matches VisibilityUpdate::HideUntil(t) && t == after_seconds(
            now_millis,
            visibility_timeout,
        )),
{
    if visibility_timeout == 0 {
        VisibilityUpdate::ReturnAt(now_millis)
    } else {
        VisibilityUpdate::HideUntil(now_millis + (visibility_timeout as i64) * 1000)
    }
}

/// The send time before which a queue's messages have outlived its
/// retention period.
pub fn retention_cutoff(now_millis: i64, retention_period_secs: u32) -> (t: i64)
    requires
        time_in_range(now_millis),
    ensures
        t == now_millis - retention_period_secs * 1000,
{
    now_millis - (retention_period_secs as i64) * 1000
}

/// The low 32 bits of a stored number, as the database hands it back.
pub open spec fn low_bits(v: i64) -> u32 {
    v as u32
}

fn column_u32(v: Option<i64>, default: u32) -> (r: u32)
    ensures
        r == match v {
            Some(x) => low_bits(x),
            None => default,
        },
{
    match v {
        Some(x) => {
            proof {
                assert(low_bits(x) == x as u32);
            }
            #[verifier::truncate]
            (x as u32)
        },
        None => default,
    }
}

/// The dead-letter policy of a stored subscription: present when it names
/// a topic, with at most 5 delivery attempts unless it says otherwise.
pub fn dead_letter_policy_of(topic: Option<String>, max_delivery_attempts: Option<i64>) -> (r: Option<DeadLetterPolicy>)
    ensures
        match topic {
            None => r is None,
            Some(t) => r matches Some(p) && p.dead_letter_topic@ == t@ && p.max_delivery_attempts == match
                max_delivery_attempts {
                Some(a) => low_bits(a),
                None => 5,
            },
        },
{
    match topic {
        None => None,
        Some(t) => Some(
            DeadLetterPolicy {
                dead_letter_topic: t,
                max_delivery_attempts: column_u32(max_delivery_attempts, 5),
            },
        ),
    }
}

/// The push configuration of a stored subscription: present when it has an
/// endpoint; it has a retry policy when the minimum backoff is stored, with
/// 10 s, 600 s and 5 attempts for what is not.
pub fn push_config_of(
    endpoint: Option<String>,
    min_backoff: Option<i64>,
    max_backoff: Option<i64>,
    max_attempts: Option<i64>,
    timeout: Option<i64>,
) -> (r: Option<PushConfig>)
    ensures
        match endpoint {
            None => r is None,
            Some(e) => r matches Some(c) && c.endpoint@ == e@ && c.timeout_seconds == match timeout {
                Some(t) => Some(low_bits(t)),
                None => None::<u32>,
            } && match min_backoff {
                None => c.retry_policy is None,
                Some(m) => c.retry_policy == Some(
                    RetryPolicy {
                        min_backoff_seconds: low_bits(m),
                        max_backoff_seconds: match max_backoff {
                            Some(x) => low_bits(x),
                            None => 600,
                        },
                        max_attempts: match max_attempts {
                            Some(x) => low_bits(x),
                            None => 5,
                        },
                    },
                ),
            },
        },
{
    match endpoint {
        None => None,
        Some(e) => {
            let retry_policy = match min_backoff {
                Some(m) => Some(
                    RetryPolicy {
                        min_backoff_seconds: column_u32(Some(m), 10),
                        max_backoff_seconds: column_u32(max_backoff, 600),
                        max_attempts: column_u32(max_attempts, 5),
                    },
                ),
                None => None,
            };
            let timeout_seconds = match timeout {
                Some(t) => Some(column_u32(Some(t), 0)),
                None => None,
            };
            Some(PushConfig { endpoint: e, retry_policy, timeout_seconds })
        },
    }
}
} // verus!
