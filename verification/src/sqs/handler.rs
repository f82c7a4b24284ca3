//! The decisions of the SQS action handlers: what each action reads from a
//! request, what it asks of the storage backend, and what it answers. The
//! server runs them around the backend calls.

use vstd::prelude::*;
use crate::sqs::response::bool_text;
use crate::sqs::types::{QueueAttribute, attribute_name};
use crate::text::{dec, dec_signed, i64_to_decimal, push_char, push_decimal, push_str, to_owned_string};
use crate::dict::Dict;
use crate::sqs::json::{JsonValue, as_text, as_unsigned, field, field_text, field_unsigned};
use crate::sqs::request::{
    SqsRequest, json_strings, last_piece, param, split_on, string_items, string_views, u32_reading,
};
use crate::sqs::types::SqsErrorCode;
use crate::text::{parse_unsigned, parse_unsigned_exec, seq_ends_with, str_eq};
use crate::types::{
    DlqConfig, QueueConfig, QueueConfigView, QueueStats, QueueType, RedriveAllowPolicy, RedrivePermission,
    RedrivePermissionView,
};
use crate::types::validation::{SQS_MAX_MESSAGE_SIZE, sqs_queue_name_problem, validate_sqs_queue_name};

verus! {

broadcast use vstd::string::group_string_axioms;

pub open spec fn text_pairs(v: Seq<(String, String)>) -> Seq<(Seq<char>, Seq<char>)> {
    v.map_values(|p: (String, String)| (p.0@, p.1@))
}

/// Appends one name and value.
fn push_pair(attributes: &mut Vec<(String, String)>, name: &str, value: String)
    ensures
        text_pairs(final(attributes)@) == text_pairs(old(attributes)@).push((name@, value@)),
{
    let ghost before = attributes@;
    attributes.push((to_owned_string(name), value));
    assert(text_pairs(attributes@) =~= text_pairs(before).push((name@, value@)));
}

/// The ARN that the service gives a queue.
pub open spec fn queue_arn(name: Seq<char>) -> Seq<char> {
    "arn:aws:sqs:us-east-1:000000000000:"@ + name
}

/// The strings between double quotes, separated by commas.
pub open spec fn quoted_list(s: Seq<Seq<char>>) -> Seq<char>
    decreases s.len(),
{
    if s.len() == 0 {
        Seq::empty()
    } else if s.len() == 1 {
        seq!['"'] + s[0] + seq!['"']
    } else {
        quoted_list(s.drop_last()) + seq![','] + seq!['"'] + s.last() + seq!['"']
    }
}

/// The JSON text of a redrive policy.
pub open spec fn redrive_policy_text(target: Seq<char>, max_receive_count: u32) -> Seq<char> {
    "{\"deadLetterTargetArn\":\""@ + queue_arn(target) + "\",\"maxReceiveCount\":"@ + dec(
        max_receive_count as nat,
    ) + "}"@
}

/// The JSON text of a redrive allow policy.
pub open spec fn redrive_allow_policy_text(p: RedrivePermissionView) -> Seq<char> {
    match p {
        RedrivePermissionView::AllowAll => "{\"redrivePermission\":\"allowAll\"}"@,
        RedrivePermissionView::DenyAll => "{\"redrivePermission\":\"denyAll\"}"@,
        RedrivePermissionView::ByQueue(arns) => "{\"redrivePermission\":\"byQueue\",\"sourceQueueArns\":["@
            + quoted_list(arns) + "]}"@,
    }
}

/// The names and values that one attribute other than `All` contributes.
pub open spec fn single_attribute_entries(
    attr: QueueAttribute,
    c: QueueConfigView,
    stats: QueueStats,
    now_secs: i64,
) -> Seq<(Seq<char>, Seq<char>)> {
    match attr {
        QueueAttribute::All => Seq::empty(),
        QueueAttribute::VisibilityTimeout => seq![("VisibilityTimeout"@, dec(c.visibility_timeout as nat))],
        QueueAttribute::DelaySeconds => seq![("DelaySeconds"@, dec(c.delay_seconds as nat))],
        QueueAttribute::MaximumMessageSize => seq![("MaximumMessageSize"@, dec(c.max_message_size as nat))],
        QueueAttribute::MessageRetentionPeriod => seq![
            ("MessageRetentionPeriod"@, dec(c.message_retention_period as nat)),
        ],
        QueueAttribute::ApproximateNumberOfMessages => seq![
            ("ApproximateNumberOfMessages"@, dec(stats.available_messages as nat)),
        ],
        QueueAttribute::ApproximateNumberOfMessagesNotVisible => seq![
            ("ApproximateNumberOfMessagesNotVisible"@, dec(stats.in_flight_messages as nat)),
        ],
        QueueAttribute::ApproximateNumberOfMessagesDelayed => seq![
            ("ApproximateNumberOfMessagesDelayed"@, dec(0)),
        ],
        QueueAttribute::QueueArn => seq![("QueueArn"@, queue_arn(c.name))],
        QueueAttribute::FifoQueue => seq![("FifoQueue"@, bool_text(c.queue_type == QueueType::SqsFifo))],
        QueueAttribute::ContentBasedDeduplication => seq![
            ("ContentBasedDeduplication"@, bool_text(c.content_based_deduplication)),
        ],
        QueueAttribute::RedrivePolicy => match c.dlq_config {
            Some(d) => seq![("RedrivePolicy"@, redrive_policy_text(d.0, d.1))],
            None => Seq::empty(),
        },
        QueueAttribute::RedriveAllowPolicy => match c.redrive_allow_policy {
            Some(p) => seq![("RedriveAllowPolicy"@, redrive_allow_policy_text(p))],
            None => Seq::empty(),
        },
        QueueAttribute::CreatedTimestamp => seq![(attribute_name(attr), dec_signed(now_secs as int))],
        QueueAttribute::LastModifiedTimestamp => seq![(attribute_name(attr), dec_signed(now_secs as int))],
    }
}

/// The names and values that an attribute contributes: for `All`, those of
/// the visibility timeout, delay, maximum size, retention period, message
/// counts and ARN, then the FIFO ones of a FIFO queue and the redrive
/// policies that the queue has.
pub open spec fn attribute_entries(
    attr: QueueAttribute,
    c: QueueConfigView,
    stats: QueueStats,
    now_secs: i64,
) -> Seq<(Seq<char>, Seq<char>)> {
    if attr == QueueAttribute::All {
        let e = |a: QueueAttribute| single_attribute_entries(a, c, stats, now_secs);
        e(QueueAttribute::VisibilityTimeout) + e(QueueAttribute::DelaySeconds) + e(
            QueueAttribute::MaximumMessageSize,
        ) + e(QueueAttribute::MessageRetentionPeriod) + e(QueueAttribute::ApproximateNumberOfMessages) + e(
            QueueAttribute::ApproximateNumberOfMessagesNotVisible,
        ) + e(QueueAttribute::QueueArn) + (if c.queue_type == QueueType::SqsFifo {
            e(QueueAttribute::FifoQueue) + e(QueueAttribute::ContentBasedDeduplication)
        } else {
            Seq::empty()
        }) + e(QueueAttribute::RedrivePolicy) + e(QueueAttribute::RedriveAllowPolicy)
    } else {
        single_attribute_entries(attr, c, stats, now_secs)
    }
}

fn decimal(n: u128) -> (s: String)
    ensures
        s@ == dec(n as nat),
{
    let mut s = String::new();
    push_decimal(&mut s, n);
    assert(s@ =~= dec(n as nat));
    s
}

fn arn_text(name: &str) -> (s: String)
    ensures
        s@ == queue_arn(name@),
{
    let mut s = to_owned_string("arn:aws:sqs:us-east-1:000000000000:");
    push_str(&mut s, name);
    s
}

fn redrive_allow_text(p: &RedrivePermission) -> (s: String)
    ensures
        s@ == redrive_allow_policy_text(match *p {
            RedrivePermission::AllowAll => RedrivePermissionView::AllowAll,
            RedrivePermission::DenyAll => RedrivePermissionView::DenyAll,
            RedrivePermission::ByQueue { source_queue_arns } => RedrivePermissionView::ByQueue(
                crate::types::strings_view(source_queue_arns),
            ),
        }),
{
    match p {
        RedrivePermission::AllowAll => to_owned_string("{\"redrivePermission\":\"allowAll\"}"),
        RedrivePermission::DenyAll => to_owned_string("{\"redrivePermission\":\"denyAll\"}"),
        RedrivePermission::ByQueue { source_queue_arns } => {
            let ghost arns = crate::types::strings_view(*source_queue_arns);
            let mut s = to_owned_string("{\"redrivePermission\":\"byQueue\",\"sourceQueueArns\":[");
            let ghost start = s@;
            let mut i: usize = 0;
            while i < source_queue_arns.len()
                invariant
                    i <= source_queue_arns.len(),
                    arns == crate::types::strings_view(*source_queue_arns),
                    s@ == start + quoted_list(arns.take(i as int)),
                decreases source_queue_arns.len() - i,
            {
                let ghost before = s@;
                if i > 0 {
                    push_char(&mut s, ',');
                }
                push_char(&mut s, '"');
                push_str(&mut s, source_queue_arns[i].as_str());
                push_char(&mut s, '"');
                let ghost t = arns.take(i + 1);
                assert(t.drop_last() =~= arns.take(i as int));
                assert(t.last() == source_queue_arns@[i as int]@);
                if i == 0 {
                    assert(s@ =~= start + quoted_list(t));
                } else {
                    assert(s@ =~= start + quoted_list(t));
                }
                i = i + 1;
            }
            assert(arns.take(source_queue_arns.len() as int) =~= arns);
            push_str(&mut s, "]}");
            s
        },
    }
}

/// Appends what one attribute other than `All` contributes.
fn add_single_attribute(
    attributes: &mut Vec<(String, String)>,
    attr: QueueAttribute,
    queue_config: &QueueConfig,
    stats: &QueueStats,
    now_secs: i64,
)
    requires
        attr != QueueAttribute::All,
    ensures
        text_pairs(final(attributes)@) == text_pairs(old(attributes)@) + single_attribute_entries(
            attr,
            queue_config@,
            *stats,
            now_secs,
        ),
{
    let ghost before = text_pairs(attributes@);
    match attr {
        QueueAttribute::All => {},
        QueueAttribute::VisibilityTimeout => {
            push_pair(attributes, "VisibilityTimeout", decimal(queue_config.visibility_timeout as u128));
            assert(text_pairs(attributes@) =~= before + single_attribute_entries(attr, queue_config@, *stats, now_secs));
        },
        QueueAttribute::DelaySeconds => {
            push_pair(attributes, "DelaySeconds", decimal(queue_config.delay_seconds as u128));
            assert(text_pairs(attributes@) =~= before + single_attribute_entries(attr, queue_config@, *stats, now_secs));
        },
        QueueAttribute::MaximumMessageSize => {
            push_pair(attributes, "MaximumMessageSize", decimal(queue_config.max_message_size as u128));
            assert(text_pairs(attributes@) =~= before + single_attribute_entries(attr, queue_config@, *stats, now_secs));
        },
        QueueAttribute::MessageRetentionPeriod => {
            push_pair(attributes, "MessageRetentionPeriod", decimal(queue_config.message_retention_period as u128));
            assert(text_pairs(attributes@) =~= before + single_attribute_entries(attr, queue_config@, *stats, now_secs));
        },
        QueueAttribute::ApproximateNumberOfMessages => {
            push_pair(attributes, "ApproximateNumberOfMessages", decimal(stats.available_messages as u128));
            assert(text_pairs(attributes@) =~= before + single_attribute_entries(attr, queue_config@, *stats, now_secs));
        },
        QueueAttribute::ApproximateNumberOfMessagesNotVisible => {
            push_pair(
                attributes,
                "ApproximateNumberOfMessagesNotVisible",
                decimal(stats.in_flight_messages as u128),
            );
            assert(text_pairs(attributes@) =~= before + single_attribute_entries(attr, queue_config@, *stats, now_secs));
        },
        QueueAttribute::ApproximateNumberOfMessagesDelayed => {
            push_pair(attributes, "ApproximateNumberOfMessagesDelayed", decimal(0));
            assert(text_pairs(attributes@) =~= before + single_attribute_entries(attr, queue_config@, *stats, now_secs));
        },
        QueueAttribute::QueueArn => {
            push_pair(attributes, "QueueArn", arn_text(queue_config.name.as_str()));
            assert(text_pairs(attributes@) =~= before + single_attribute_entries(attr, queue_config@, *stats, now_secs));
        },
        QueueAttribute::FifoQueue => {
            let is_fifo = queue_config.queue_type == QueueType::SqsFifo;
            push_pair(attributes, "FifoQueue", to_owned_string(crate::sqs::response::bool_to_str(is_fifo)));
            assert(text_pairs(attributes@) =~= before + single_attribute_entries(attr, queue_config@, *stats, now_secs));
        },
        QueueAttribute::ContentBasedDeduplication => {
            push_pair(
                attributes,
                "ContentBasedDeduplication",
                to_owned_string(crate::sqs::response::bool_to_str(queue_config.content_based_deduplication)),
            );
            assert(text_pairs(attributes@) =~= before + single_attribute_entries(attr, queue_config@, *stats, now_secs));
        },
        QueueAttribute::RedrivePolicy => {
            match &queue_config.dlq_config {
                Some(dlq) => {
                    let mut policy = to_owned_string("{\"deadLetterTargetArn\":\"");
                    push_str(&mut policy, arn_text(dlq.target_queue_id.as_str()).as_str());
                    push_str(&mut policy, "\",\"maxReceiveCount\":");
                    push_decimal(&mut policy, dlq.max_receive_count as u128);
                    push_str(&mut policy, "}");
                    push_pair(attributes, "RedrivePolicy", policy);
            assert(text_pairs(attributes@) =~= before + single_attribute_entries(attr, queue_config@, *stats, now_secs));
                },
                None => {},
            }
        },
        QueueAttribute::RedriveAllowPolicy => {
            match &queue_config.redrive_allow_policy {
                Some(policy) => {
                    push_pair(attributes, "RedriveAllowPolicy", redrive_allow_text(&policy.permission));
            assert(text_pairs(attributes@) =~= before + single_attribute_entries(attr, queue_config@, *stats, now_secs));
                },
                None => {},
            }
        },
        QueueAttribute::CreatedTimestamp => {
            push_pair(attributes, attr.as_str(), i64_to_decimal(now_secs));
            assert(text_pairs(attributes@) =~= before + single_attribute_entries(attr, queue_config@, *stats, now_secs));
        },
        QueueAttribute::LastModifiedTimestamp => {
            push_pair(attributes, attr.as_str(), i64_to_decimal(now_secs));
            assert(text_pairs(attributes@) =~= before + single_attribute_entries(attr, queue_config@, *stats, now_secs));
        },
    }
}

/// Appends the names and values that `attr` contributes to a
/// GetQueueAttributes answer (see `attribute_entries`). `now_secs` is the
/// time, in seconds since the Unix epoch, given for the timestamps that the
/// service does not keep.
pub fn add_queue_attribute(
    attributes: &mut Vec<(String, String)>,
    attr: &QueueAttribute,
    queue_config: &QueueConfig,
    stats: &QueueStats,
    _include_all: bool,
    now_secs: i64,
)
    ensures
        text_pairs(final(attributes)@) == text_pairs(old(attributes)@) + attribute_entries(
            *attr,
            queue_config@,
            *stats,
            now_secs,
        ),
{
    let ghost before = text_pairs(attributes@);
    let ghost c = queue_config@;
    match attr {
        QueueAttribute::All => {
            add_single_attribute(attributes, QueueAttribute::VisibilityTimeout, queue_config, stats, now_secs);
            add_single_attribute(attributes, QueueAttribute::DelaySeconds, queue_config, stats, now_secs);
            add_single_attribute(attributes, QueueAttribute::MaximumMessageSize, queue_config, stats, now_secs);
            add_single_attribute(attributes, QueueAttribute::MessageRetentionPeriod, queue_config, stats, now_secs);
            add_single_attribute(
                attributes,
                QueueAttribute::ApproximateNumberOfMessages,
                queue_config,
                stats,
                now_secs,
            );
            add_single_attribute(
                attributes,
                QueueAttribute::ApproximateNumberOfMessagesNotVisible,
                queue_config,
                stats,
                now_secs,
            );
            add_single_attribute(attributes, QueueAttribute::QueueArn, queue_config, stats, now_secs);
            let ghost mid = text_pairs(attributes@);
            if queue_config.queue_type == QueueType::SqsFifo {
                add_single_attribute(attributes, QueueAttribute::FifoQueue, queue_config, stats, now_secs);
                add_single_attribute(
                    attributes,
                    QueueAttribute::ContentBasedDeduplication,
                    queue_config,
                    stats,
                    now_secs,
                );
            }
            let ghost mid2 = text_pairs(attributes@);
            add_single_attribute(attributes, QueueAttribute::RedrivePolicy, queue_config, stats, now_secs);
            add_single_attribute(attributes, QueueAttribute::RedriveAllowPolicy, queue_config, stats, now_secs);
            let ghost e = |a: QueueAttribute| single_attribute_entries(a, c, *stats, now_secs);
            assert(mid2 =~= mid + (if c.queue_type == QueueType::SqsFifo {
                e(QueueAttribute::FifoQueue) + e(QueueAttribute::ContentBasedDeduplication)
            } else {
                Seq::empty()
            }));
            assert(text_pairs(attributes@) =~= before + attribute_entries(*attr, c, *stats, now_secs));
        },
        _ => {
            add_single_attribute(attributes, *attr, queue_config, stats, now_secs);
        },
    }
}

// ---------------------------------------------------------------------------
// Queue configuration from attributes
// ---------------------------------------------------------------------------

/// The redrive permission that a redrive allow policy document names, if it
/// names a known one.
pub open spec fn permission_of(policy: JsonValue) -> Option<RedrivePermissionView> {
    match as_text(field(policy, "redrivePermission"@)) {
        Some(t) => if t == "allowAll"@ {
            Some(RedrivePermissionView::AllowAll)
        } else if t == "denyAll"@ {
            Some(RedrivePermissionView::DenyAll)
        } else if t == "byQueue"@ {
            Some(
                RedrivePermissionView::ByQueue(
                    match field(policy, "sourceQueueArns"@) {
                        JsonValue::Array(a) => json_strings(a@),
                        _ => Seq::empty(),
                    },
                ),
            )
        } else {
            None
        },
        None => None,
    }
}

pub open spec fn permission_view(p: RedrivePermission) -> RedrivePermissionView {
    match p {
        RedrivePermission::AllowAll => RedrivePermissionView::AllowAll,
        RedrivePermission::DenyAll => RedrivePermissionView::DenyAll,
        RedrivePermission::ByQueue { source_queue_arns } => RedrivePermissionView::ByQueue(
            crate::types::strings_view(source_queue_arns),
        ),
    }
}

/// Reads the redrive permission of a policy document.
fn read_permission(policy: &JsonValue) -> (r: Option<RedrivePermission>)
    ensures
        match permission_of(*policy) {
            Some(p) => r is Some && permission_view(r.unwrap()) == p,
            None => r is None,
        },
{
    match field_text(policy, "redrivePermission") {
        Some(t) => {
            if str_eq(t.as_str(), "allowAll") {
                Some(RedrivePermission::AllowAll)
            } else if str_eq(t.as_str(), "denyAll") {
                Some(RedrivePermission::DenyAll)
            } else if str_eq(t.as_str(), "byQueue") {
                let arns = match policy {
                    JsonValue::Object(members) => match crate::sqs::json::find_member(members, "sourceQueueArns") {
                        Some(JsonValue::Array(a)) => string_items(a),
                        _ => Vec::new(),
                    },
                    _ => Vec::new(),
                };
                assert(crate::types::strings_view(arns) == string_views(arns@));
                proof {
                    if !(field(*policy, "sourceQueueArns"@) is Array) {
                        assert(string_views(arns@) =~= Seq::<Seq<char>>::empty());
                    }
                }
                Some(RedrivePermission::ByQueue { source_queue_arns: arns })
            } else {
                None
            }
        },
        None => None,
    }
}

/// A `u32` parameter, or a default when it is missing or no number.
pub open spec fn u32_or(t: Option<Seq<char>>, d: u32) -> u32 {
    match t {
        Some(x) => match u32_reading(x) {
            Some(v) => v,
            None => d,
        },
        None => d,
    }
}

fn read_u32_or(t: Option<&String>, d: u32) -> (r: u32)
    ensures
        r == u32_or(match t {
            Some(x) => Some(x@),
            None => None,
        }, d),
{
    match t {
        Some(x) => match parse_unsigned_exec(x.as_str(), 0xffff_ffff) {
            Some(v) => v as u32,
            None => d,
        },
        None => d,
    }
}

/// The `maxReceiveCount` of a `RedrivePolicy`: a JSON number (its low 32
/// bits) or a decimal string, as `str::parse::<u32>` reads it.
pub open spec fn receive_count_field(p: JsonValue) -> Option<u32> {
    match as_unsigned(field(p, "maxReceiveCount"@)) {
        Some(n) => Some(n as u32),
        None => match as_text(field(p, "maxReceiveCount"@)) {
            Some(t) => u32_reading(t),
            None => None,
        },
    }
}

fn read_receive_count(policy: &JsonValue) -> (r: Option<u32>)
    ensures
        r == receive_count_field(*policy),
{
    match field_unsigned(policy, "maxReceiveCount") {
        Some(n) => Some(n as u32),
        None => match field_text(policy, "maxReceiveCount") {
            Some(t) => crate::sqs::request::read_u32(t.as_str()),
            None => None,
        },
    }
}

/// The dead-letter configuration of a CreateQueue `RedrivePolicy`, given the
/// JSON reading of its text (`None` when the text is no JSON).
pub open spec fn created_dlq(reading: Option<JsonValue>) -> Option<(Seq<char>, u32)> {
    match reading {
        Some(p) => Some(
            (
                split_on(
                    match as_text(field(p, "deadLetterTargetArn"@)) {
                        Some(t) => t,
                        None => Seq::empty(),
                    },
                    ':',
                ).last(),
                u32_or(as_text(field(p, "maxReceiveCount"@)), 5),
            ),
        ),
        None => None,
    }
}

/// The configuration that CreateQueue asks for, from the queue name, the
/// queue attributes, and the JSON readings of the `RedrivePolicy` and
/// `RedriveAllowPolicy` attributes.
pub open spec fn created_config(
    name: Seq<char>,
    attrs: Map<Seq<char>, Seq<char>>,
    redrive_reading: Option<JsonValue>,
    allow_reading: Option<JsonValue>,
) -> QueueConfigView {
    QueueConfigView {
        id: name,
        name,
        queue_type: if seq_ends_with(name, ".fifo"@) || param(attrs, "FifoQueue"@) == Some("true"@) {
            QueueType::SqsFifo
        } else {
            QueueType::SqsStandard
        },
        visibility_timeout: u32_or(param(attrs, "VisibilityTimeout"@), 30),
        message_retention_period: u32_or(param(attrs, "MessageRetentionPeriod"@), 345600),
        max_message_size: SQS_MAX_MESSAGE_SIZE,
        delay_seconds: u32_or(param(attrs, "DelaySeconds"@), 0),
        dlq_config: if attrs.contains_key("RedrivePolicy"@) {
            created_dlq(redrive_reading)
        } else {
            None
        },
        content_based_deduplication: param(attrs, "ContentBasedDeduplication"@) == Some("true"@),
        tags: Seq::empty(),
        redrive_allow_policy: if attrs.contains_key("RedriveAllowPolicy"@) {
            match allow_reading {
                Some(p) => permission_of(p),
                None => None,
            }
        } else {
            None
        },
    }
}

/// The configuration that a CreateQueue request asks for. `attributes` are
/// the request's queue attributes; `redrive_reading` and `allow_reading` are
/// the JSON readings of its `RedrivePolicy` and `RedriveAllowPolicy`
/// attributes (`None` when missing or no JSON). Fails, with the error code
/// and message to answer, when the name is missing or invalid.
pub fn create_queue_config(
    request: &SqsRequest,
    attributes: &Dict<String>,
    redrive_reading: Option<&JsonValue>,
    allow_reading: Option<&JsonValue>,
) -> (r: Result<QueueConfig, (SqsErrorCode, String)>)
    ensures
        match param(request.params@, "QueueName"@) {
            None => r matches Err(e) && e.0 == SqsErrorCode::MissingParameter && e.1@
                == "Missing required parameter: "@ + "QueueName"@,
            Some(name) => match sqs_queue_name_problem(name) {
                Some(m) => r matches Err(e) && e.0 == SqsErrorCode::InvalidParameterValue && e.1@
                    == "Validation error: "@ + "Invalid queue name: "@ + m,
                None => r matches Ok(c) && c@ == created_config(
                    name,
                    attributes@,
                    match redrive_reading {
                        Some(v) => Some(*v),
                        None => None,
                    },
                    match allow_reading {
                        Some(v) => Some(*v),
                        None => None,
                    },
                ),
            },
        },
{
    let queue_name = match request.get_required_param("QueueName") {
        Ok(n) => n,
        Err(e) => {
            return Err((SqsErrorCode::MissingParameter, e));
        },
    };
    match validate_sqs_queue_name(queue_name) {
        Err(e) => {
            return Err((SqsErrorCode::InvalidParameterValue, e.to_string()));
        },
        Ok(()) => {},
    }
    let is_fifo = crate::text::ends_with(queue_name, ".fifo") || match attributes.get("FifoQueue") {
        Some(v) => str_eq(v.as_str(), "true"),
        None => false,
    };
    let queue_type = if is_fifo { QueueType::SqsFifo } else { QueueType::SqsStandard };
    let visibility_timeout = read_u32_or(attributes.get("VisibilityTimeout"), 30);
    let message_retention_period = read_u32_or(attributes.get("MessageRetentionPeriod"), 345600);
    let delay_seconds = read_u32_or(attributes.get("DelaySeconds"), 0);
    let content_based_deduplication = match attributes.get("ContentBasedDeduplication") {
        Some(v) => str_eq(v.as_str(), "true"),
        None => false,
    };
    let dlq_config = if attributes.contains_key("RedrivePolicy") {
        match redrive_reading {
            Some(policy) => {
                let max_receive_count = read_u32_or(field_text(policy, "maxReceiveCount"), 5);
                let target_arn = match field_text(policy, "deadLetterTargetArn") {
                    Some(t) => t.clone(),
                    None => String::new(),
                };
                Some(DlqConfig { target_queue_id: last_piece(target_arn.as_str(), ':'), max_receive_count })
            },
            None => None,
        }
    } else {
        None
    };
    let redrive_allow_policy = if attributes.contains_key("RedriveAllowPolicy") {
        match allow_reading {
            Some(policy) => match read_permission(policy) {
                Some(p) => Some(RedriveAllowPolicy { permission: p }),
                None => None,
            },
            None => None,
        }
    } else {
        None
    };
    let config = QueueConfig {
        id: to_owned_string(queue_name),
        name: to_owned_string(queue_name),
        queue_type,
        visibility_timeout,
        message_retention_period,
        max_message_size: SQS_MAX_MESSAGE_SIZE,
        delay_seconds,
        dlq_config,
        content_based_deduplication,
        tags: Dict::new(),
        redrive_allow_policy,
    };
    Ok(config)
}

// ---------------------------------------------------------------------------
// SetQueueAttributes
// ---------------------------------------------------------------------------

/// A `usize` number, as `str::parse::<usize>` reads it.
pub open spec fn usize_reading(t: Seq<char>) -> Option<usize> {
    match parse_unsigned(t, usize::MAX as nat) {
        Some(v) => Some(v as usize),
        None => None,
    }
}

/// `value` equals `word` in lower case.
pub open spec fn lower_is(value: Seq<char>, word: Seq<char>) -> bool {
    crate::text::unicode_lowercase(value) == word
}

/// Setting one attribute: the new configuration, or the message of the
/// error. `reading` is the JSON reading of `value` (`None` when it is no
/// JSON); names that cannot be set are ignored.
pub open spec fn set_attribute(
    c: QueueConfigView,
    key: Seq<char>,
    value: Seq<char>,
    reading: Option<JsonValue>,
) -> Result<QueueConfigView, Seq<char>> {
    if key == "VisibilityTimeout"@ {
        match u32_reading(value) {
            Some(t) if t <= 43200 => Ok(QueueConfigView { visibility_timeout: t, ..c }),
            _ => Err("VisibilityTimeout must be between 0 and 43200 seconds"@),
        }
    } else if key == "MessageRetentionPeriod"@ {
        match u32_reading(value) {
            Some(t) if 60 <= t <= 1209600 => Ok(QueueConfigView { message_retention_period: t, ..c }),
            _ => Err("MessageRetentionPeriod must be between 60 and 1209600 seconds"@),
        }
    } else if key == "MaximumMessageSize"@ {
        match usize_reading(value) {
            Some(t) if 1024 <= t <= 262144 => Ok(QueueConfigView { max_message_size: t, ..c }),
            _ => Err("MaximumMessageSize must be between 1024 and 262144 bytes"@),
        }
    } else if key == "DelaySeconds"@ {
        match u32_reading(value) {
            Some(t) if t <= 900 => Ok(QueueConfigView { delay_seconds: t, ..c }),
            _ => Err("DelaySeconds must be between 0 and 900 seconds"@),
        }
    } else if key == "ContentBasedDeduplication"@ {
        if c.queue_type != QueueType::SqsFifo {
            Err("ContentBasedDeduplication is only valid for FIFO queues"@)
        } else if lower_is(value, "true"@) {
            Ok(QueueConfigView { content_based_deduplication: true, ..c })
        } else if lower_is(value, "false"@) {
            Ok(QueueConfigView { content_based_deduplication: false, ..c })
        } else {
            Err("ContentBasedDeduplication must be 'true' or 'false'"@)
        }
    } else if key == "RedrivePolicy"@ {
        match reading {
            Some(p) => match (as_text(field(p, "deadLetterTargetArn"@)), receive_count_field(p)) {
                (Some(arn), Some(n)) => Ok(QueueConfigView { dlq_config: Some((split_on(arn, ':').last(), n)), ..c }),
                _ => Err("Invalid RedrivePolicy format"@),
            },
            None => Err("Invalid RedrivePolicy JSON"@),
        }
    } else if key == "RedriveAllowPolicy"@ {
        match reading {
            Some(p) => match as_text(field(p, "redrivePermission"@)) {
                Some(_) => match permission_of(p) {
                    Some(perm) => Ok(QueueConfigView { redrive_allow_policy: Some(perm), ..c }),
                    None => Err(
                        "Invalid redrivePermission value (must be allowAll, denyAll, or byQueue)"@,
                    ),
                },
                None => Err("Missing redrivePermission in RedriveAllowPolicy"@),
            },
            None => Err("Invalid RedriveAllowPolicy JSON"@),
        }
    } else if key == "FifoQueue"@ {
        Err("FifoQueue attribute cannot be modified"@)
    } else {
        Ok(c)
    }
}

/// The JSON reading of the attribute `key`, when it is one whose value is a
/// JSON document.
pub open spec fn reading_for(
    key: Seq<char>,
    redrive_reading: Option<JsonValue>,
    allow_reading: Option<JsonValue>,
) -> Option<JsonValue> {
    if key == "RedrivePolicy"@ {
        redrive_reading
    } else if key == "RedriveAllowPolicy"@ {
        allow_reading
    } else {
        None
    }
}

/// Setting the attributes in order, stopping at the first error.
pub open spec fn set_attributes(
    c: QueueConfigView,
    s: Seq<(Seq<char>, Seq<char>)>,
    redrive_reading: Option<JsonValue>,
    allow_reading: Option<JsonValue>,
) -> Result<QueueConfigView, Seq<char>>
    decreases s.len(),
{
    if s.len() == 0 {
        Ok(c)
    } else {
        match set_attributes(c, s.drop_last(), redrive_reading, allow_reading) {
            Ok(c1) => set_attribute(c1, s.last().0, s.last().1, reading_for(s.last().0, redrive_reading, allow_reading)),
            Err(e) => Err(e),
        }
    }
}

/// When one attribute of a SetQueueAttributes request is refused, applied to
/// the configuration that the attributes before it give, the whole request is
/// refused with that attribute's error: no configuration comes out, so none
/// of the request's attributes is applied, not even those before it.
pub proof fn law_refused_attribute_refuses_all(
    c: QueueConfigView,
    s: Seq<(Seq<char>, Seq<char>)>,
    redrive_reading: Option<JsonValue>,
    allow_reading: Option<JsonValue>,
    i: int,
)
    requires
        0 <= i < s.len(),
        set_attributes(c, s.take(i), redrive_reading, allow_reading) is Ok,
        set_attribute(
            set_attributes(c, s.take(i), redrive_reading, allow_reading)->Ok_0,
            s[i].0,
            s[i].1,
            reading_for(s[i].0, redrive_reading, allow_reading),
        ) is Err,
    ensures
        set_attributes(c, s, redrive_reading, allow_reading) == set_attribute(
            set_attributes(c, s.take(i), redrive_reading, allow_reading)->Ok_0,
            s[i].0,
            s[i].1,
            reading_for(s[i].0, redrive_reading, allow_reading),
        ),
    decreases s.len(),
{
    if s.len() == i + 1 {
        assert(s.drop_last() =~= s.take(i));
    } else {
        let t = s.drop_last();
        assert(t.take(i) =~= s.take(i));
        assert(t[i] == s[i]);
        law_refused_attribute_refuses_all(c, t, redrive_reading, allow_reading, i);
    }
}

/// GetQueueAttributes reports the number of in-flight messages under
/// `ApproximateNumberOfMessagesNotVisible` and the number of available ones
/// under `ApproximateNumberOfMessages`, each asked for alone and among `All`;
/// for a queue of the in-memory store, whose statistics count its messages,
/// these are its in-flight and available messages.
pub proof fn law_message_counts_reported(
    c: QueueConfigView,
    stats: QueueStats,
    now_secs: i64,
    q: crate::storage::memory::QueueDataView,
)
    ensures
        attribute_entries(QueueAttribute::ApproximateNumberOfMessagesNotVisible, c, stats, now_secs) == seq![
            ("ApproximateNumberOfMessagesNotVisible"@, crate::text::dec(stats.in_flight_messages as nat)),
        ],
        attribute_entries(QueueAttribute::ApproximateNumberOfMessages, c, stats, now_secs) == seq![
            ("ApproximateNumberOfMessages"@, crate::text::dec(stats.available_messages as nat)),
        ],
        attribute_entries(QueueAttribute::All, c, stats, now_secs).contains(
            ("ApproximateNumberOfMessagesNotVisible"@, crate::text::dec(stats.in_flight_messages as nat)),
        ),
        attribute_entries(QueueAttribute::All, c, stats, now_secs).contains(
            ("ApproximateNumberOfMessages"@, crate::text::dec(stats.available_messages as nat)),
        ),
        stats.in_flight_messages == q.in_flight.len() && stats.available_messages == q.available.len() ==> {
            &&& attribute_entries(QueueAttribute::ApproximateNumberOfMessagesNotVisible, c, stats, now_secs)[0].1
                == dec(q.in_flight.len())
            &&& attribute_entries(QueueAttribute::ApproximateNumberOfMessages, c, stats, now_secs)[0].1 == dec(
                q.available.len(),
            )
        },
{
    let e = |a: QueueAttribute| single_attribute_entries(a, c, stats, now_secs);
    let all = attribute_entries(QueueAttribute::All, c, stats, now_secs);
    let front = e(QueueAttribute::VisibilityTimeout) + e(QueueAttribute::DelaySeconds) + e(
        QueueAttribute::MaximumMessageSize,
    ) + e(QueueAttribute::MessageRetentionPeriod);
    assert(front.len() == 4);
    let rest = all.skip(4);
    assert(all[4] == ("ApproximateNumberOfMessages"@, crate::text::dec(stats.available_messages as nat)));
    assert(all[5] == ("ApproximateNumberOfMessagesNotVisible"@, crate::text::dec(stats.in_flight_messages as nat)));
}

/// GetQueueAttributes reports each numeric setting of the queue as the
/// decimal of the configured value, and whether it is a FIFO queue.
pub proof fn law_configuration_reported(c: QueueConfigView, stats: QueueStats, now_secs: i64)
    ensures
        attribute_entries(QueueAttribute::VisibilityTimeout, c, stats, now_secs)[0].1 == crate::text::dec(
            c.visibility_timeout as nat,
        ),
        attribute_entries(QueueAttribute::DelaySeconds, c, stats, now_secs)[0].1 == crate::text::dec(
            c.delay_seconds as nat,
        ),
        attribute_entries(QueueAttribute::MaximumMessageSize, c, stats, now_secs)[0].1 == crate::text::dec(
            c.max_message_size as nat,
        ),
        attribute_entries(QueueAttribute::MessageRetentionPeriod, c, stats, now_secs)[0].1 == crate::text::dec(
            c.message_retention_period as nat,
        ),
        attribute_entries(QueueAttribute::FifoQueue, c, stats, now_secs)[0].1 == (if c.queue_type
            == QueueType::SqsFifo {
            "true"@
        } else {
            "false"@
        }),
{
}

/// Content-based deduplication can be switched on and off on a FIFO queue
/// only, with `true` or `false` in any case; the queue's type can never be
/// changed; and an attribute of another name leaves the queue as it is.
pub proof fn law_set_other_attributes(c: QueueConfigView, value: Seq<char>, reading: Option<JsonValue>)
    ensures
        c.queue_type == QueueType::SqsFifo && crate::text::unicode_lowercase(value) == "true"@ ==> set_attribute(
            c,
            "ContentBasedDeduplication"@,
            value,
            reading,
        ) == Ok::<QueueConfigView, Seq<char>>(QueueConfigView { content_based_deduplication: true, ..c }),
        c.queue_type == QueueType::SqsFifo && crate::text::unicode_lowercase(value) == "false"@ ==> set_attribute(
            c,
            "ContentBasedDeduplication"@,
            value,
            reading,
        ) == Ok::<QueueConfigView, Seq<char>>(QueueConfigView { content_based_deduplication: false, ..c }),
        c.queue_type != QueueType::SqsFifo ==> set_attribute(c, "ContentBasedDeduplication"@, value, reading) is Err,
        set_attribute(c, "FifoQueue"@, value, reading) is Err,
        set_attribute(c, "Policy"@, value, reading) == Ok::<QueueConfigView, Seq<char>>(c),
{
    reveal_strlit("true");
    reveal_strlit("false");
    reveal_strlit("ContentBasedDeduplication");
    reveal_strlit("FifoQueue");
    reveal_strlit("Policy");
    reveal_strlit("VisibilityTimeout");
    reveal_strlit("MessageRetentionPeriod");
    reveal_strlit("MaximumMessageSize");
    reveal_strlit("DelaySeconds");
    reveal_strlit("RedrivePolicy");
    reveal_strlit("RedriveAllowPolicy");
    assert("true"@.len() != "false"@.len());
    assert("ContentBasedDeduplication"@.len() != "FifoQueue"@.len());
    assert("ContentBasedDeduplication"@.len() != "Policy"@.len());
    assert("ContentBasedDeduplication"@.len() != "VisibilityTimeout"@.len());
    assert("ContentBasedDeduplication"@.len() != "MessageRetentionPeriod"@.len());
    assert("ContentBasedDeduplication"@.len() != "MaximumMessageSize"@.len());
    assert("ContentBasedDeduplication"@.len() != "DelaySeconds"@.len());
    assert("ContentBasedDeduplication"@.len() != "RedrivePolicy"@.len());
    assert("ContentBasedDeduplication"@.len() != "RedriveAllowPolicy"@.len());
    assert("FifoQueue"@.len() != "ContentBasedDeduplication"@.len());
    assert("FifoQueue"@.len() != "Policy"@.len());
    assert("FifoQueue"@.len() != "VisibilityTimeout"@.len());
    assert("FifoQueue"@.len() != "MessageRetentionPeriod"@.len());
    assert("FifoQueue"@.len() != "MaximumMessageSize"@.len());
    assert("FifoQueue"@.len() != "DelaySeconds"@.len());
    assert("FifoQueue"@.len() != "RedrivePolicy"@.len());
    assert("FifoQueue"@.len() != "RedriveAllowPolicy"@.len());
    assert("Policy"@.len() != "ContentBasedDeduplication"@.len());
    assert("Policy"@.len() != "FifoQueue"@.len());
    assert("Policy"@.len() != "VisibilityTimeout"@.len());
    assert("Policy"@.len() != "MessageRetentionPeriod"@.len());
    assert("Policy"@.len() != "MaximumMessageSize"@.len());
    assert("Policy"@.len() != "DelaySeconds"@.len());
    assert("Policy"@.len() != "RedrivePolicy"@.len());
    assert("Policy"@.len() != "RedriveAllowPolicy"@.len());
}

/// A CreateQueue request's `VisibilityTimeout`, `DelaySeconds` and
/// `MessageRetentionPeriod` attributes set those of the new queue when they
/// read as numbers; absent, the queue gets 30 seconds, no delay and four
/// days. The queue is named as the request says, and is a FIFO queue when
/// its name ends in `.fifo`.
pub proof fn law_created_config_takes_attributes(
    name: Seq<char>,
    attrs: Map<Seq<char>, Seq<char>>,
    redrive_reading: Option<JsonValue>,
    allow_reading: Option<JsonValue>,
)
    ensures
        ({
            let c = created_config(name, attrs, redrive_reading, allow_reading);
            &&& attrs.contains_key("VisibilityTimeout"@) && u32_reading(attrs["VisibilityTimeout"@]) is Some
                ==> c.visibility_timeout == u32_reading(attrs["VisibilityTimeout"@])->Some_0
            &&& !attrs.contains_key("VisibilityTimeout"@) ==> c.visibility_timeout == 30
            &&& attrs.contains_key("DelaySeconds"@) && u32_reading(attrs["DelaySeconds"@]) is Some ==> c.delay_seconds
                == u32_reading(attrs["DelaySeconds"@])->Some_0
            &&& !attrs.contains_key("DelaySeconds"@) ==> c.delay_seconds == 0
            &&& attrs.contains_key("MessageRetentionPeriod"@) && u32_reading(attrs["MessageRetentionPeriod"@]) is Some
                ==> c.message_retention_period == u32_reading(attrs["MessageRetentionPeriod"@])->Some_0
            &&& !attrs.contains_key("MessageRetentionPeriod"@) ==> c.message_retention_period == 345600
            &&& c.name == name && c.id == name
            &&& seq_ends_with(name, ".fifo"@) ==> c.queue_type == QueueType::SqsFifo
        }),
{
}

/// Setting one of the numeric attributes to a number in its range succeeds,
/// changes that attribute alone, and GetQueueAttributes then reports the
/// number set; a value out of range or no number is refused.
pub proof fn law_set_numeric_attribute(
    c: QueueConfigView,
    key: Seq<char>,
    value: Seq<char>,
    reading: Option<JsonValue>,
    stats: QueueStats,
    now_secs: i64,
)
    ensures
        key == "DelaySeconds"@ ==> match u32_reading(value) {
            Some(t) if t <= 900 => set_attribute(c, key, value, reading) matches Ok(c2) && c2.delay_seconds == t
                && c2 == (QueueConfigView { delay_seconds: c2.delay_seconds, ..c }) && attribute_entries(
                QueueAttribute::DelaySeconds,
                c2,
                stats,
                now_secs,
            ) == seq![("DelaySeconds"@, dec(t as nat))],
            _ => set_attribute(c, key, value, reading) is Err,
        },
        key == "VisibilityTimeout"@ ==> match u32_reading(value) {
            Some(t) if t <= 43200 => set_attribute(c, key, value, reading) matches Ok(c2) && c2.visibility_timeout
                == t && c2 == (QueueConfigView { visibility_timeout: c2.visibility_timeout, ..c })
                && attribute_entries(QueueAttribute::VisibilityTimeout, c2, stats, now_secs) == seq![
                ("VisibilityTimeout"@, dec(t as nat)),
            ],
            _ => set_attribute(c, key, value, reading) is Err,
        },
        key == "MessageRetentionPeriod"@ ==> match u32_reading(value) {
            Some(t) if 60 <= t <= 1209600 => set_attribute(c, key, value, reading) matches Ok(c2)
                && c2.message_retention_period == t && c2 == (QueueConfigView {
                message_retention_period: c2.message_retention_period,
                ..c
            }) && attribute_entries(QueueAttribute::MessageRetentionPeriod, c2, stats, now_secs) == seq![
                ("MessageRetentionPeriod"@, dec(t as nat)),
            ],
            _ => set_attribute(c, key, value, reading) is Err,
        },
        key == "MaximumMessageSize"@ ==> match usize_reading(value) {
            Some(t) if 1024 <= t <= 262144 => set_attribute(c, key, value, reading) matches Ok(c2)
                && c2.max_message_size == t && c2 == (QueueConfigView { max_message_size: c2.max_message_size, ..c })
                && attribute_entries(QueueAttribute::MaximumMessageSize, c2, stats, now_secs) == seq![
                ("MaximumMessageSize"@, dec(t as nat)),
            ],
            _ => set_attribute(c, key, value, reading) is Err,
        },
{
    reveal_strlit("DelaySeconds");
    reveal_strlit("VisibilityTimeout");
    reveal_strlit("MessageRetentionPeriod");
    reveal_strlit("MaximumMessageSize");
    assert("DelaySeconds"@.len() != "VisibilityTimeout"@.len());
    assert("DelaySeconds"@.len() != "MessageRetentionPeriod"@.len());
    assert("DelaySeconds"@.len() != "MaximumMessageSize"@.len());
    assert("MessageRetentionPeriod"@.len() != "VisibilityTimeout"@.len());
    assert("MaximumMessageSize"@.len() != "VisibilityTimeout"@.len());
    assert("MaximumMessageSize"@.len() != "MessageRetentionPeriod"@.len());
}

pub open spec fn opt_value(o: Option<&JsonValue>) -> Option<JsonValue> {
    match o {
        Some(v) => Some(*v),
        None => None,
    }
}

fn set_one_attribute(
    config: &mut QueueConfig,
    key: &str,
    value: &str,
    reading: Option<&JsonValue>,
) -> (r: Result<(), String>)
    ensures
        match set_attribute(old(config)@, key@, value@, opt_value(reading)) {
            Ok(c) => r is Ok && final(config)@ == c,
            Err(m) => r matches Err(x) && x@ == m,
        },
{
    if str_eq(key, "VisibilityTimeout") {
        match parse_unsigned_exec(value, 0xffff_ffff) {
            Some(t) if t <= 43200 => {
                config.visibility_timeout = t as u32;
                Ok(())
            },
            _ => Err(to_owned_string("VisibilityTimeout must be between 0 and 43200 seconds")),
        }
    } else if str_eq(key, "MessageRetentionPeriod") {
        match parse_unsigned_exec(value, 0xffff_ffff) {
            Some(t) if 60 <= t && t <= 1209600 => {
                config.message_retention_period = t as u32;
                Ok(())
            },
            _ => Err(to_owned_string("MessageRetentionPeriod must be between 60 and 1209600 seconds")),
        }
    } else if str_eq(key, "MaximumMessageSize") {
        match parse_unsigned_exec(value, usize::MAX as u64) {
            Some(t) if 1024 <= t && t <= 262144 => {
                config.max_message_size = t as usize;
                Ok(())
            },
            _ => Err(to_owned_string("MaximumMessageSize must be between 1024 and 262144 bytes")),
        }
    } else if str_eq(key, "DelaySeconds") {
        match parse_unsigned_exec(value, 0xffff_ffff) {
            Some(t) if t <= 900 => {
                config.delay_seconds = t as u32;
                Ok(())
            },
            _ => Err(to_owned_string("DelaySeconds must be between 0 and 900 seconds")),
        }
    } else if str_eq(key, "ContentBasedDeduplication") {
        if config.queue_type != QueueType::SqsFifo {
            return Err(to_owned_string("ContentBasedDeduplication is only valid for FIFO queues"));
        }
        let lower = crate::text::to_lowercase(value);
        if str_eq(lower.as_str(), "true") {
            config.content_based_deduplication = true;
            Ok(())
        } else if str_eq(lower.as_str(), "false") {
            config.content_based_deduplication = false;
            Ok(())
        } else {
            Err(to_owned_string("ContentBasedDeduplication must be 'true' or 'false'"))
        }
    } else if str_eq(key, "RedrivePolicy") {
        match reading {
            Some(policy) => match (field_text(policy, "deadLetterTargetArn"), read_receive_count(policy)) {
                (Some(arn), Some(n)) => {
                    config.dlq_config = Some(
                        DlqConfig { target_queue_id: last_piece(arn.as_str(), ':'), max_receive_count: n },
                    );
                    Ok(())
                },
                _ => Err(to_owned_string("Invalid RedrivePolicy format")),
            },
            None => Err(to_owned_string("Invalid RedrivePolicy JSON")),
        }
    } else if str_eq(key, "RedriveAllowPolicy") {
        match reading {
            Some(policy) => match field_text(policy, "redrivePermission") {
                Some(_) => match read_permission(policy) {
                    Some(p) => {
                        config.redrive_allow_policy = Some(RedriveAllowPolicy { permission: p });
                        Ok(())
                    },
                    None => Err(
                        to_owned_string("Invalid redrivePermission value (must be allowAll, denyAll, or byQueue)"),
                    ),
                },
                None => Err(to_owned_string("Missing redrivePermission in RedriveAllowPolicy")),
            },
            None => Err(to_owned_string("Invalid RedriveAllowPolicy JSON")),
        }
    } else if str_eq(key, "FifoQueue") {
        Err(to_owned_string("FifoQueue attribute cannot be modified"))
    } else {
        Ok(())
    }
}

/// Applies the attributes of a SetQueueAttributes request to `config`, in
/// order; the first invalid one stops it with the message to answer.
/// `redrive_reading` and `allow_reading` are the JSON readings of the
/// `RedrivePolicy` and `RedriveAllowPolicy` values (`None` when missing or no
/// JSON).
pub fn apply_queue_attributes(
    config: QueueConfig,
    attributes: &Dict<String>,
    redrive_reading: Option<&JsonValue>,
    allow_reading: Option<&JsonValue>,
) -> (r: Result<QueueConfig, String>)
    ensures
        match set_attributes(config@, attributes.pairs(), opt_value(redrive_reading), opt_value(allow_reading)) {
            Ok(c) => r matches Ok(x) && x@ == c,
            Err(m) => r matches Err(x) && x@ == m,
        },
{
    let ghost c0 = config@;
    let mut cfg = config;
    let ghost rr = opt_value(redrive_reading);
    let ghost ar = opt_value(allow_reading);
    let n = attributes.len();
    let mut i: usize = 0;
    while i < n
        invariant
            n == attributes.pairs().len(),
            i <= n,
            rr == opt_value(redrive_reading),
            ar == opt_value(allow_reading),
            c0 == config@,
            set_attributes(c0, attributes.pairs().take(i as int), rr, ar) == Ok::<QueueConfigView, Seq<char>>(cfg@),
        decreases n - i,
    {
        let (k, v) = attributes.entry(i);
        let ghost t = attributes.pairs().take(i + 1);
        assert(t.drop_last() =~= attributes.pairs().take(i as int));
        let reading = if str_eq(k.as_str(), "RedrivePolicy") {
            redrive_reading
        } else if str_eq(k.as_str(), "RedriveAllowPolicy") {
            allow_reading
        } else {
            None
        };
        assert(opt_value(reading) == reading_for(k@, rr, ar));
        let ghost cur = cfg@;
        assert(t.last() == (k@, v@));
        match set_one_attribute(&mut cfg, k.as_str(), v.as_str(), reading) {
            Ok(()) => {},
            Err(m) => {
                assert(set_attributes(c0, t, rr, ar) == set_attribute(cur, k@, v@, reading_for(k@, rr, ar)));
                assert(set_attributes(c0, t, rr, ar) == Err::<QueueConfigView, Seq<char>>(m@));
                proof {
                    lemma_set_attributes_stops(c0, attributes.pairs(), i as int + 1, rr, ar);
                }
                assert(set_attributes(c0, attributes.pairs(), rr, ar) == Err::<QueueConfigView, Seq<char>>(m@));
                return Err(m);
            },
        }
        i = i + 1;
    }
    assert(attributes.pairs().take(n as int) =~= attributes.pairs());
    Ok(cfg)
}

proof fn lemma_set_attributes_stops(
    c: QueueConfigView,
    s: Seq<(Seq<char>, Seq<char>)>,
    k: int,
    rr: Option<JsonValue>,
    ar: Option<JsonValue>,
)
    requires
        0 < k <= s.len(),
        set_attributes(c, s.take(k), rr, ar) is Err,
    ensures
        set_attributes(c, s, rr, ar) == set_attributes(c, s.take(k), rr, ar),
    decreases s.len() - k,
{
    if k < s.len() {
        assert(s.take(k + 1).drop_last() =~= s.take(k));
        lemma_set_attributes_stops(c, s, k + 1, rr, ar);
    } else {
        assert(s.take(k) =~= s);
    }
}

} // verus!
