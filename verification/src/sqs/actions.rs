//! What each SQS action reads from a request, what it hands to the storage
//! backend, and how it answers what the backend gave back. The server makes
//! the backend calls between these steps.

use vstd::prelude::*;
use crate::dict::{
    in_key_order, index_of_key, indexed_key, indexed_key_string, keys_distinct, pairs_insert, pairs_remove,
    Dict,
};
use crate::error::{error_text, Error};
use crate::sqs::request::{
    extract_queue_name_from_url, message_attribute_present, message_attributes_upto, param, queue_name_of_url,
    read_u32, run_of, string_views, u32_reading, ChangeVisibilityBatchEntry, ChangeVisibilityBatchEntryView,
    DeleteMessageBatchEntry, SendMessageBatchEntry, SendMessageBatchEntryView, SqsRequest,
};
use crate::sqs::response::{
    batch_xml, build_change_message_visibility_response, build_create_queue_response, build_delete_message_response,
    build_error_response, build_get_queue_url_response, build_list_queues_response, build_receive_message_response,
    build_get_queue_attributes_response, build_send_message_response, attribute_entries_xml, error_xml,
    queue_urls_xml, received_messages_xml, response_xml, push_escaped,
    send_message_elements, BatchErrorEntry, BatchResultEntry, MessageAttributeInfo, ReceivedMessageInfo,
};
use crate::storage::{QueueFilter, ReceivedMessage};
use crate::sqs::types::{
    attribute_records, base64_decoded, calculate_md5_of_attributes, calculate_md5_of_body, decode_base64,
    hex_lower, md5_digest, attribute_name, is_attribute_name, lemma_attribute_name_injective, QueueAttribute,
    SqsErrorCode, SqsMessageAttributeValue, SqsMessageAttributeValueView,
    SqsMessageAttributes,
};
use crate::text::{dec, dec_signed, i64_to_decimal, push_decimal, push_str, to_owned_string, u32_to_decimal};
use crate::types::{
    copy_opt_string, opt_str_view, Message, MessageAttributeValue, MessageAttributeValueView, MessageAttributes,
    MessageId, MessageView, QueueConfig, QueueConfigView, QueueStats, ReceiveOptions, new_uuid_string, uuid_v4_text,
};
use crate::sqs::handler::{add_queue_attribute, attribute_entries, text_pairs};
use crate::sqs::json_response::{xml_json, xml_to_json_response};
use crate::sqs::xml::xml_escaped;

verus! {

broadcast use vstd::string::group_string_axioms;

// ---------------------------------------------------------------------------
// Parameters every action reads
// ---------------------------------------------------------------------------

/// The refusal for a missing required parameter.
pub open spec fn missing(key: Seq<char>) -> (SqsErrorCode, Seq<char>) {
    (SqsErrorCode::MissingParameter, "Missing required parameter: "@ + key)
}

/// The refusal for a queue URL that names no queue.
pub open spec fn invalid_queue_url() -> (SqsErrorCode, Seq<char>) {
    (SqsErrorCode::InvalidParameterValue, "Invalid QueueUrl"@)
}

/// A refusal as the action returns it.
pub open spec fn refusal_view(r: (SqsErrorCode, String)) -> (SqsErrorCode, Seq<char>) {
    (r.0, r.1@)
}

/// The queue that the `QueueUrl` of a URL names, or the refusal.
pub open spec fn queue_of_url(url: Seq<char>) -> Result<Seq<char>, (SqsErrorCode, Seq<char>)> {
    match queue_name_of_url(url) {
        Some(n) => Ok(n),
        None => Err(invalid_queue_url()),
    }
}

/// The queue that a request addresses through its `QueueUrl`, or the refusal.
pub open spec fn target_queue(p: Map<Seq<char>, Seq<char>>) -> Result<Seq<char>, (SqsErrorCode, Seq<char>)> {
    match param(p, "QueueUrl"@) {
        None => Err(missing("QueueUrl"@)),
        Some(u) => queue_of_url(u),
    }
}

fn required<'a>(request: &'a SqsRequest, key: &str) -> (r: Result<&'a str, (SqsErrorCode, String)>)
    ensures
        match param(request.params@, key@) {
            Some(v) => r is Ok && r->Ok_0@ == v,
            None => r is Err && refusal_view(r->Err_0) == missing(key@),
        },
{
    match request.get_required_param(key) {
        Ok(v) => Ok(v),
        Err(m) => Err((SqsErrorCode::MissingParameter, m)),
    }
}

fn queue_from_url(url: &str) -> (r: Result<String, (SqsErrorCode, String)>)
    ensures
        match queue_of_url(url@) {
            Ok(n) => r is Ok && r->Ok_0@ == n,
            Err(e) => r is Err && refusal_view(r->Err_0) == e,
        },
{
    match extract_queue_name_from_url(url) {
        Some(n) => Ok(n),
        None => Err((SqsErrorCode::InvalidParameterValue, to_owned_string("Invalid QueueUrl"))),
    }
}

/// The queue that a request addresses through its `QueueUrl`: the first
/// step of every action but `CreateQueue`, `GetQueueUrl` and `ListQueues`.
pub fn queue_name_from_request(request: &SqsRequest) -> (r: Result<String, (SqsErrorCode, String)>)
    ensures
        match target_queue(request.params@) {
            Ok(n) => r is Ok && r->Ok_0@ == n,
            Err(e) => r is Err && refusal_view(r->Err_0) == e,
        },
{
    let url = required(request, "QueueUrl")?;
    queue_from_url(url)
}

/// The URL of the server at an address and port: `http://address:port`.
pub fn base_url(bind_address: &str, port: u16) -> (s: String)
    ensures
        s@ == "http://"@ + bind_address@ + ":"@ + crate::text::dec(port as nat),
{
    let mut s = to_owned_string("http://");
    push_str(&mut s, bind_address);
    push_str(&mut s, ":");
    crate::text::push_decimal(&mut s, port as u128);
    s
}

/// The URL of a queue: the server's URL, `/queue/` and the queue's name.
pub fn queue_url(base_url: &str, queue_name: &str) -> (s: String)
    ensures
        s@ == base_url@ + "/queue/"@ + queue_name@,
{
    let mut s = to_owned_string(base_url);
    push_str(&mut s, "/queue/");
    push_str(&mut s, queue_name);
    s
}

/// The error response for a refusal.
pub fn refusal_response(refusal: &(SqsErrorCode, String)) -> (xml: String)
    ensures
        exists|rid: Seq<char>| uuid_v4_text(rid) && xml@ == error_xml(refusal.0, refusal.1@, rid),
{
    build_error_response(refusal.0, refusal.1.as_str())
}

// ---------------------------------------------------------------------------
// SendMessage
// ---------------------------------------------------------------------------

/// How a message keeps an attribute: the binary value, which the request
/// carries in base64, decoded (and dropped where it is not valid base64).
pub open spec fn stored_attribute(v: SqsMessageAttributeValueView) -> MessageAttributeValueView {
    MessageAttributeValueView {
        data_type: v.data_type,
        string_value: v.string_value,
        binary_value: match v.binary_value {
            Some(b) => base64_decoded(b),
            None => None,
        },
    }
}

pub open spec fn stored_attributes(s: Seq<(Seq<char>, SqsMessageAttributeValueView)>) -> Seq<
    (Seq<char>, MessageAttributeValueView),
> {
    s.map_values(|e: (Seq<char>, SqsMessageAttributeValueView)| (e.0, stored_attribute(e.1)))
}

fn stored_value(v: &SqsMessageAttributeValue) -> (r: MessageAttributeValue)
    ensures
        r@ == stored_attribute(v@),
{
    MessageAttributeValue {
        data_type: v.data_type.clone(),
        string_value: copy_opt_string(&v.string_value),
        binary_value: match &v.binary_value {
            Some(b) => decode_base64(b.as_str()),
            None => None,
        },
    }
}

/// The attributes of a request as the message keeps them, in the same
/// order.
pub fn stored_message_attributes(attributes: &SqsMessageAttributes) -> (r: MessageAttributes)
    ensures
        r.pairs() == stored_attributes(attributes.pairs()),
{
    let n = attributes.len();
    let ghost p = attributes.pairs();
    let mut r: MessageAttributes = Dict::new();
    let mut i: usize = 0;
    while i < n
        invariant
            n == p.len(),
            p == attributes.pairs(),
            keys_distinct(p),
            i <= n,
            r.pairs() == stored_attributes(p.take(i as int)),
        decreases n - i,
    {
        let (k, v) = attributes.entry(i);
        let ghost before = r.pairs();
        proof {
            assert forall|j: int| 0 <= j < before.len() implies before[j].0 != k@ by {
                assert(before[j].0 == p[j].0);
            }
            assert(index_of_key(before, k@) is None);
        }
        r.insert(k.clone(), stored_value(v));
        assert(stored_attributes(p.take(i + 1)) =~= stored_attributes(p.take(i as int)).push(
            (p[i as int].0, stored_attribute(p[i as int].1)),
        ));
        i = i + 1;
    }
    assert(p.take(n as int) =~= p);
    r
}

/// The refusal of a SendMessage request, checked in the order the action
/// checks: the queue URL is there, the body is there, the URL names a queue.
pub open spec fn send_message_refusal(p: Map<Seq<char>, Seq<char>>) -> Option<(SqsErrorCode, Seq<char>)> {
    match param(p, "QueueUrl"@) {
        None => Some(missing("QueueUrl"@)),
        Some(u) => match param(p, "MessageBody"@) {
            None => Some(missing("MessageBody"@)),
            Some(_) => match queue_of_url(u) {
                Err(e) => Some(e),
                Ok(_) => None,
            },
        },
    }
}

/// An optional number parameter as `str::parse::<u32>` reads it; absent or
/// unreadable is `None`.
pub open spec fn u32_param(p: Map<Seq<char>, Seq<char>>, key: Seq<char>) -> Option<u32> {
    match param(p, key) {
        Some(t) => u32_reading(t),
        None => None,
    }
}

fn read_u32_param(request: &SqsRequest, key: &str) -> (r: Option<u32>)
    ensures
        r == u32_param(request.params@, key@),
{
    match request.get_param(key) {
        Some(t) => read_u32(t),
        None => None,
    }
}

fn owned_param(request: &SqsRequest, key: &str) -> (r: Option<String>)
    ensures
        opt_str_view(r) == param(request.params@, key@),
{
    match request.get_param(key) {
        Some(t) => Some(to_owned_string(t)),
        None => None,
    }
}

/// What a SendMessage request asks the backend to store.
pub struct SendMessagePlan {
    /// The queue to send to.
    pub queue_name: String,
    /// The message to store.
    pub message: Message,
    /// The message attributes as the request carries them.
    pub attributes: SqsMessageAttributes,
}

/// The message that a SendMessage request describes, with the given ID and
/// send time, or the refusal.
pub fn plan_send_message(request: &SqsRequest, id: MessageId, now_millis: i64) -> (r: Result<
    SendMessagePlan,
    (SqsErrorCode, String),
>)
    ensures
        match send_message_refusal(request.params@) {
            Some(e) => r is Err && refusal_view(r->Err_0) == e,
            None => r is Ok && {
                let plan = r->Ok_0;
                let p = request.params@;
                &&& target_queue(p) == Ok::<Seq<char>, (SqsErrorCode, Seq<char>)>(plan.queue_name@)
                &&& exists|k: nat|
                    run_of(|j: nat| message_attribute_present(p, j), k) && plan.attributes@
                        == message_attributes_upto(p, k)
                &&& plan.message@ == (MessageView {
                    id: id@,
                    body: param(p, "MessageBody"@).unwrap(),
                    attributes: stored_attributes(plan.attributes.pairs()),
                    queue_id: plan.queue_name@,
                    sent_timestamp: now_millis,
                    receive_count: 0,
                    message_group_id: param(p, "MessageGroupId"@),
                    deduplication_id: param(p, "MessageDeduplicationId"@),
                    sequence_number: None,
                    delay_seconds: u32_param(p, "DelaySeconds"@),
                })
            },
        },
{
    let url = required(request, "QueueUrl")?;
    let body = required(request, "MessageBody")?;
    let queue_name = queue_from_url(url)?;
    let attributes = request.parse_message_attributes();
    let stored = stored_message_attributes(&attributes);
    let message = Message {
        id,
        body: to_owned_string(body),
        attributes: stored,
        queue_id: queue_name.clone(),
        sent_timestamp: now_millis,
        receive_count: 0,
        message_group_id: owned_param(request, "MessageGroupId"),
        deduplication_id: owned_param(request, "MessageDeduplicationId"),
        sequence_number: None,
        delay_seconds: read_u32_param(request, "DelaySeconds"),
    };
    Ok(SendMessagePlan { queue_name, message, attributes })
}

/// The digest of the attributes that a SendMessage response reports: none
/// when there are no attributes.
pub open spec fn attributes_digest(a: SqsMessageAttributes) -> Option<Seq<char>> {
    if a.pairs().len() == 0 {
        None
    } else {
        Some(hex_lower(md5_digest(attribute_records(in_key_order(a@)))))
    }
}

/// The answer to SendMessage once the backend has stored the message (or
/// failed, which is an internal error with the backend's message).
pub fn respond_send_message(stored: Result<&Message, &Error>, attributes: &SqsMessageAttributes) -> (xml: String)
    ensures
        match stored {
            Ok(m) => exists|rid: Seq<char>|
                uuid_v4_text(rid) && xml@ == response_xml(
                    "SendMessage"@,
                    rid,
                    send_message_elements(
                        m.id@,
                        hex_lower(md5_digest(vstd::utf8::encode_utf8(m.body@))),
                        attributes_digest(*attributes),
                    ),
                ),
            Err(e) => exists|rid: Seq<char>|
                uuid_v4_text(rid) && xml@ == error_xml(SqsErrorCode::InternalError, error_text(*e), rid),
        },
{
    match stored {
        Ok(m) => {
            let md5_of_body = calculate_md5_of_body(m.body.as_str());
            if attributes.is_empty() {
                build_send_message_response(m.id.0.as_str(), md5_of_body.as_str(), None)
            } else {
                let md5_of_attrs = calculate_md5_of_attributes(attributes);
                build_send_message_response(m.id.0.as_str(), md5_of_body.as_str(), Some(md5_of_attrs.as_str()))
            }
        },
        Err(e) => {
            let text = e.to_string();
            build_error_response(SqsErrorCode::InternalError, text.as_str())
        },
    }
}


// ---------------------------------------------------------------------------
// Batches
// ---------------------------------------------------------------------------

/// One entry of a batch as planned: handed to the backend with what the
/// backend needs, or refused on the spot.
pub enum BatchStep<T> {
    Run(String, T),
    Reject(BatchErrorEntry),
}

/// One entry of a batch once done: what the backend answered, or the refusal
/// that the plan made.
pub enum BatchOutcome<T> {
    Done(String, Result<T, Error>),
    Refused(BatchErrorEntry),
}

/// An error entry by its parts: ID, code, message, sender fault.
pub open spec fn error_entry_view(e: BatchErrorEntry) -> (Seq<char>, Seq<char>, Seq<char>, bool) {
    (e.id@, e.code@, e.message@, e.sender_fault)
}

/// A SendMessageBatch result entry by its parts: ID, message ID, body
/// digest, attributes digest.
pub open spec fn result_entry_view(e: BatchResultEntry) -> (Seq<char>, Seq<char>, Seq<char>, Option<Seq<char>>) {
    (e.id@, e.message_id@, e.md5_of_body@, opt_str_view(e.md5_of_attrs))
}

fn error_entry(id: &str, code: &str, message: String, sender_fault: bool) -> (e: BatchErrorEntry)
    ensures
        error_entry_view(e) == (id@, code@, message@, sender_fault),
{
    BatchErrorEntry { id: to_owned_string(id), code: to_owned_string(code), message, sender_fault }
}

/// The refusal of a batch by its number of entries.
pub open spec fn batch_size_refusal(n: nat) -> Option<(SqsErrorCode, Seq<char>)> {
    if n == 0 {
        Some((SqsErrorCode::InvalidParameterValue, "No batch entries provided"@))
    } else if n > 10 {
        Some((SqsErrorCode::InvalidParameterValue, "Maximum 10 batch entries allowed"@))
    } else {
        None
    }
}

fn check_batch_size(n: usize) -> (r: Result<(), (SqsErrorCode, String)>)
    ensures
        match batch_size_refusal(n as nat) {
            Some(e) => r is Err && refusal_view(r->Err_0) == e,
            None => r is Ok,
        },
{
    if n == 0 {
        Err((SqsErrorCode::InvalidParameterValue, to_owned_string("No batch entries provided")))
    } else if n > 10 {
        Err((SqsErrorCode::InvalidParameterValue, to_owned_string("Maximum 10 batch entries allowed")))
    } else {
        Ok(())
    }
}

/// The refusal of a batch entry whose body is too long.
pub open spec fn too_long_entry(e: SendMessageBatchEntryView) -> (Seq<char>, Seq<char>, Seq<char>, bool) {
    (
        e.id,
        "MessageTooLong"@,
        "Message body size "@ + dec(vstd::utf8::encode_utf8(e.message_body).len()) + " exceeds maximum "@ + dec(
            262144,
        ),
        true,
    )
}

/// How a SendMessageBatch entry is planned: refused when its body is longer
/// than 262144 bytes, else a message with a fresh 36-character ID, no
/// attributes, and the entry's body, group, deduplication ID and delay.
pub open spec fn send_step_planned(
    step: BatchStep<Message>,
    e: SendMessageBatchEntryView,
    queue: Seq<char>,
    now_millis: i64,
) -> bool {
    if vstd::utf8::encode_utf8(e.message_body).len() > 262144 {
        step matches BatchStep::Reject(x) && error_entry_view(x) == too_long_entry(e)
    } else {
        step matches BatchStep::Run(id, m) && id@ == e.id && uuid_v4_text(m@.id) && m@ == (MessageView {
            id: m@.id,
            body: e.message_body,
            attributes: Seq::empty(),
            queue_id: queue,
            sent_timestamp: now_millis,
            receive_count: 0,
            message_group_id: e.message_group_id,
            deduplication_id: e.message_deduplication_id,
            sequence_number: None,
            delay_seconds: e.delay_seconds,
        })
    }
}

/// A SendMessageBatch entry is refused exactly when its body is longer than
/// 262144 bytes; otherwise it becomes a message with a fresh UUID, the
/// entry's body, message group, deduplication ID and delay, in the queue it
/// is sent to, sent at the given time and never received.
pub proof fn law_batch_message_keeps_entry(
    step: BatchStep<Message>,
    e: SendMessageBatchEntryView,
    queue: Seq<char>,
    now_millis: i64,
)
    requires
        send_step_planned(step, e, queue, now_millis),
    ensures
        step is Reject <==> vstd::utf8::encode_utf8(e.message_body).len() > 262144,
        step matches BatchStep::Run(id, m) ==> {
            &&& id@ == e.id
            &&& m@.body == e.message_body
            &&& m@.message_group_id == e.message_group_id
            &&& m@.deduplication_id == e.message_deduplication_id
            &&& m@.delay_seconds == e.delay_seconds
            &&& m@.queue_id == queue
            &&& m@.sent_timestamp == now_millis
            &&& m@.receive_count == 0
            &&& m@.sequence_number is None
            &&& uuid_v4_text(m@.id)
        },
{
}

fn send_step(e: &SendMessageBatchEntry, queue: &str, now_millis: i64) -> (step: BatchStep<Message>)
    ensures
        send_step_planned(step, e@, queue@, now_millis),
{
    let size = e.message_body.as_str().as_bytes().len();
    assert(size == vstd::utf8::encode_utf8(e.message_body@).len());
    if size > 262144 {
        let mut m = to_owned_string("Message body size ");
        push_decimal(&mut m, size as u128);
        push_str(&mut m, " exceeds maximum ");
        push_decimal(&mut m, 262144);
        let x = error_entry(e.id.as_str(), "MessageTooLong", m, true);
        assert(error_entry_view(x) == too_long_entry(e@));
        BatchStep::Reject(x)
    } else {
        let attributes: MessageAttributes = Dict::new();
        let message = Message {
            id: MessageId::new(),
            body: e.message_body.clone(),
            attributes,
            queue_id: to_owned_string(queue),
            sent_timestamp: now_millis,
            receive_count: 0,
            message_group_id: copy_opt_string(&e.message_group_id),
            deduplication_id: copy_opt_string(&e.message_deduplication_id),
            sequence_number: None,
            delay_seconds: e.delay_seconds,
        };
        BatchStep::Run(e.id.clone(), message)
    }
}

/// The plan of a SendMessageBatch request with its parsed entries: the queue
/// and one step per entry, or the refusal.
pub fn plan_send_message_batch(request: &SqsRequest, entries: &Vec<SendMessageBatchEntry>, now_millis: i64) -> (r:
    Result<(String, Vec<BatchStep<Message>>), (SqsErrorCode, String)>)
    ensures
        match target_queue(request.params@) {
            Err(e) => r is Err && refusal_view(r->Err_0) == e,
            Ok(n) => match batch_size_refusal(entries@.len()) {
                Some(e) => r is Err && refusal_view(r->Err_0) == e,
                None => r is Ok && r->Ok_0.0@ == n && r->Ok_0.1@.len() == entries@.len() && forall|i: int|
                    0 <= i < entries@.len() ==> send_step_planned(
                        #[trigger] r->Ok_0.1@[i],
                        entries@[i]@,
                        n,
                        now_millis,
                    ),
            },
        },
{
    let queue = queue_name_from_request(request)?;
    check_batch_size(entries.len())?;
    let mut steps: Vec<BatchStep<Message>> = Vec::new();
    let mut i: usize = 0;
    while i < entries.len()
        invariant
            i <= entries@.len(),
            steps@.len() == i,
            forall|j: int| 0 <= j < i ==> send_step_planned(#[trigger] steps@[j], entries@[j]@, queue@, now_millis),
        decreases entries@.len() - i,
    {
        let step = send_step(&entries[i], queue.as_str(), now_millis);
        steps.push(step);
        i = i + 1;
    }
    Ok((queue, steps))
}

/// The result entries of a SendMessageBatch: an entry for each message that
/// the backend stored, in order.
pub open spec fn sent_entries(o: Seq<BatchOutcome<Message>>) -> Seq<(Seq<char>, Seq<char>, Seq<char>, Option<Seq<char>>)>
    decreases o.len(),
{
    if o.len() == 0 {
        Seq::empty()
    } else {
        let r = sent_entries(o.drop_last());
        match o.last() {
            BatchOutcome::Done(id, Ok(m)) => r.push(
                (id@, m.id@, hex_lower(md5_digest(vstd::utf8::encode_utf8(m.body@))), None),
            ),
            _ => r,
        }
    }
}

/// The error entries of a batch, in order: the refusals of the plan, and for
/// each entry that the backend failed, `code` with the backend's message.
pub open spec fn failed_entries<T>(o: Seq<BatchOutcome<T>>, code: Seq<char>, sender_fault: bool) -> Seq<
    (Seq<char>, Seq<char>, Seq<char>, bool),
>
    decreases o.len(),
{
    if o.len() == 0 {
        Seq::empty()
    } else {
        let r = failed_entries(o.drop_last(), code, sender_fault);
        match o.last() {
            BatchOutcome::Refused(e) => r.push(error_entry_view(e)),
            BatchOutcome::Done(id, Err(e)) => r.push((id@, code, error_text(e), sender_fault)),
            _ => r,
        }
    }
}

/// The IDs of the entries that the backend carried out, in order.
pub open spec fn done_ids<T>(o: Seq<BatchOutcome<T>>) -> Seq<Seq<char>>
    decreases o.len(),
{
    if o.len() == 0 {
        Seq::empty()
    } else {
        let r = done_ids(o.drop_last());
        match o.last() {
            BatchOutcome::Done(id, Ok(_)) => r.push(id@),
            _ => r,
        }
    }
}

fn copy_error_entry(e: &BatchErrorEntry) -> (r: BatchErrorEntry)
    ensures
        error_entry_view(r) == error_entry_view(*e),
{
    BatchErrorEntry { id: e.id.clone(), code: e.code.clone(), message: e.message.clone(), sender_fault: e.sender_fault }
}

/// The result and error entries of a SendMessageBatch once each entry is
/// done: backend failures are internal errors, not the sender's fault.
pub fn finish_send_message_batch(outcomes: &Vec<BatchOutcome<Message>>) -> (r: (Vec<BatchResultEntry>, Vec<BatchErrorEntry>))
    ensures
        r.0@.map_values(|e: BatchResultEntry| result_entry_view(e)) == sent_entries(outcomes@),
        r.1@.map_values(|e: BatchErrorEntry| error_entry_view(e)) == failed_entries(outcomes@, "InternalError"@, false),
{
    let mut ok: Vec<BatchResultEntry> = Vec::new();
    let mut failed: Vec<BatchErrorEntry> = Vec::new();
    let mut i: usize = 0;
    while i < outcomes.len()
        invariant
            i <= outcomes@.len(),
            ok@.map_values(|e: BatchResultEntry| result_entry_view(e)) == sent_entries(outcomes@.take(i as int)),
            failed@.map_values(|e: BatchErrorEntry| error_entry_view(e)) == failed_entries(
                outcomes@.take(i as int),
                "InternalError"@,
                false,
            ),
        decreases outcomes@.len() - i,
    {
        let ghost t = outcomes@.take(i + 1);
        assert(t.drop_last() =~= outcomes@.take(i as int));
        let ghost ok0 = ok@;
        let ghost failed0 = failed@;
        match &outcomes[i] {
            BatchOutcome::Done(id, Ok(m)) => {
                let entry = BatchResultEntry {
                    id: id.clone(),
                    message_id: m.id.0.clone(),
                    md5_of_body: calculate_md5_of_body(m.body.as_str()),
                    md5_of_attrs: None,
                };
                ok.push(entry);
                assert(ok@.map_values(|e: BatchResultEntry| result_entry_view(e)) =~= ok0.map_values(
                    |e: BatchResultEntry| result_entry_view(e),
                ).push(result_entry_view(entry)));
            },
            BatchOutcome::Done(id, Err(e)) => {
                let entry = error_entry(id.as_str(), "InternalError", e.to_string(), false);
                failed.push(entry);
                assert(failed@.map_values(|e: BatchErrorEntry| error_entry_view(e)) =~= failed0.map_values(
                    |e: BatchErrorEntry| error_entry_view(e),
                ).push(error_entry_view(entry)));
            },
            BatchOutcome::Refused(e) => {
                let entry = copy_error_entry(e);
                failed.push(entry);
                assert(failed@.map_values(|e: BatchErrorEntry| error_entry_view(e)) =~= failed0.map_values(
                    |e: BatchErrorEntry| error_entry_view(e),
                ).push(error_entry_view(entry)));
            },
        }
        i = i + 1;
    }
    assert(outcomes@.take(outcomes@.len() as int) =~= outcomes@);
    (ok, failed)
}

/// The IDs of the done entries and the error entries of a DeleteMessageBatch
/// or ChangeMessageVisibilityBatch: each backend failure is an invalid
/// receipt handle, the sender's fault, with the backend's message.
pub fn finish_id_batch(outcomes: &Vec<BatchOutcome<()>>) -> (r: (Vec<String>, Vec<BatchErrorEntry>))
    ensures
        r.0@.map_values(|s: String| s@) == done_ids(outcomes@),
        r.1@.map_values(|e: BatchErrorEntry| error_entry_view(e)) == failed_entries(
            outcomes@,
            "ReceiptHandleIsInvalid"@,
            true,
        ),
{
    let mut ok: Vec<String> = Vec::new();
    let mut failed: Vec<BatchErrorEntry> = Vec::new();
    let mut i: usize = 0;
    while i < outcomes.len()
        invariant
            i <= outcomes@.len(),
            ok@.map_values(|s: String| s@) == done_ids(outcomes@.take(i as int)),
            failed@.map_values(|e: BatchErrorEntry| error_entry_view(e)) == failed_entries(
                outcomes@.take(i as int),
                "ReceiptHandleIsInvalid"@,
                true,
            ),
        decreases outcomes@.len() - i,
    {
        let ghost t = outcomes@.take(i + 1);
        assert(t.drop_last() =~= outcomes@.take(i as int));
        let ghost ok0 = ok@;
        let ghost failed0 = failed@;
        match &outcomes[i] {
            BatchOutcome::Done(id, Ok(_)) => {
                let c = id.clone();
                ok.push(c);
                assert(ok@.map_values(|s: String| s@) =~= ok0.map_values(|s: String| s@).push(c@));
            },
            BatchOutcome::Done(id, Err(e)) => {
                let entry = error_entry(id.as_str(), "ReceiptHandleIsInvalid", e.to_string(), true);
                failed.push(entry);
                assert(failed@.map_values(|e: BatchErrorEntry| error_entry_view(e)) =~= failed0.map_values(
                    |e: BatchErrorEntry| error_entry_view(e),
                ).push(error_entry_view(entry)));
            },
            BatchOutcome::Refused(e) => {
                let entry = copy_error_entry(e);
                failed.push(entry);
                assert(failed@.map_values(|e: BatchErrorEntry| error_entry_view(e)) =~= failed0.map_values(
                    |e: BatchErrorEntry| error_entry_view(e),
                ).push(error_entry_view(entry)));
            },
        }
        i = i + 1;
    }
    assert(outcomes@.take(outcomes@.len() as int) =~= outcomes@);
    (ok, failed)
}

/// The plan of a DeleteMessageBatch request with its parsed entries: the
/// queue and, for each entry, its receipt handle to delete.
pub fn plan_delete_message_batch(request: &SqsRequest, entries: &Vec<DeleteMessageBatchEntry>) -> (r: Result<
    (String, Vec<BatchStep<String>>),
    (SqsErrorCode, String),
>)
    ensures
        match target_queue(request.params@) {
            Err(e) => r is Err && refusal_view(r->Err_0) == e,
            Ok(n) => match batch_size_refusal(entries@.len()) {
                Some(e) => r is Err && refusal_view(r->Err_0) == e,
                None => r is Ok && r->Ok_0.0@ == n && r->Ok_0.1@.len() == entries@.len() && forall|i: int|
                    0 <= i < entries@.len() ==> (#[trigger] r->Ok_0.1@[i] matches BatchStep::Run(id, h) && id@
                        == entries@[i].id@ && h@ == entries@[i].receipt_handle@),
            },
        },
{
    let queue = queue_name_from_request(request)?;
    check_batch_size(entries.len())?;
    let mut steps: Vec<BatchStep<String>> = Vec::new();
    let mut i: usize = 0;
    while i < entries.len()
        invariant
            i <= entries@.len(),
            steps@.len() == i,
            forall|j: int|
                0 <= j < i ==> (#[trigger] steps@[j] matches BatchStep::Run(id, h) && id@ == entries@[j].id@ && h@
                    == entries@[j].receipt_handle@),
        decreases entries@.len() - i,
    {
        steps.push(BatchStep::Run(entries[i].id.clone(), entries[i].receipt_handle.clone()));
        i = i + 1;
    }
    Ok((queue, steps))
}

/// How a ChangeMessageVisibilityBatch entry is planned: refused when its
/// timeout is over 43200 seconds, else its receipt handle and timeout.
pub open spec fn visibility_step_planned(step: BatchStep<(String, u32)>, e: ChangeVisibilityBatchEntryView) -> bool {
    if e.visibility_timeout > 43200 {
        step matches BatchStep::Reject(x) && error_entry_view(x) == (
            e.id,
            "InvalidParameterValue"@,
            "VisibilityTimeout must be between 0 and 43200 seconds"@,
            true,
        )
    } else {
        step matches BatchStep::Run(id, w) && id@ == e.id && w.0@ == e.receipt_handle && w.1 == e.visibility_timeout
    }
}

/// The plan of a ChangeMessageVisibilityBatch request with its parsed
/// entries.
pub fn plan_change_visibility_batch(request: &SqsRequest, entries: &Vec<ChangeVisibilityBatchEntry>) -> (r: Result<
    (String, Vec<BatchStep<(String, u32)>>),
    (SqsErrorCode, String),
>)
    ensures
        match target_queue(request.params@) {
            Err(e) => r is Err && refusal_view(r->Err_0) == e,
            Ok(n) => match batch_size_refusal(entries@.len()) {
                Some(e) => r is Err && refusal_view(r->Err_0) == e,
                None => r is Ok && r->Ok_0.0@ == n && r->Ok_0.1@.len() == entries@.len() && forall|i: int|
                    0 <= i < entries@.len() ==> visibility_step_planned(#[trigger] r->Ok_0.1@[i], entries@[i]@),
            },
        },
{
    let queue = queue_name_from_request(request)?;
    check_batch_size(entries.len())?;
    let mut steps: Vec<BatchStep<(String, u32)>> = Vec::new();
    let mut i: usize = 0;
    while i < entries.len()
        invariant
            i <= entries@.len(),
            steps@.len() == i,
            forall|j: int| 0 <= j < i ==> visibility_step_planned(#[trigger] steps@[j], entries@[j]@),
        decreases entries@.len() - i,
    {
        let e = &entries[i];
        if e.visibility_timeout > 43200 {
            let m = to_owned_string("VisibilityTimeout must be between 0 and 43200 seconds");
            steps.push(BatchStep::Reject(error_entry(e.id.as_str(), "InvalidParameterValue", m, true)));
        } else {
            steps.push(BatchStep::Run(e.id.clone(), (e.receipt_handle.clone(), e.visibility_timeout)));
        }
        i = i + 1;
    }
    Ok((queue, steps))
}

// ---------------------------------------------------------------------------
// Answers
// ---------------------------------------------------------------------------

/// `xml` is an error response with `code` and `message` and some request ID.
pub open spec fn error_answer(xml: Seq<char>, code: SqsErrorCode, message: Seq<char>) -> bool {
    exists|rid: Seq<char>| uuid_v4_text(rid) && xml == error_xml(code, message, rid)
}

/// `xml` is the response of `action` with `elements` and some request ID.
pub open spec fn plain_answer(xml: Seq<char>, action: Seq<char>, elements: Seq<(Seq<char>, Seq<char>)>) -> bool {
    exists|rid: Seq<char>| uuid_v4_text(rid) && xml == response_xml(action, rid, elements)
}

fn internal_error(e: &Error) -> (xml: String)
    ensures
        error_answer(xml@, SqsErrorCode::InternalError, error_text(*e)),
{
    let text = e.to_string();
    build_error_response(SqsErrorCode::InternalError, text.as_str())
}

/// The answer to CreateQueue once the backend has created the queue: its
/// URL; a backend failure is an internal error.
pub fn respond_create_queue(base_url: &str, created: Result<&QueueConfig, &Error>) -> (xml: String)
    ensures
        match created {
            Ok(c) => plain_answer(xml@, "CreateQueue"@, seq![("QueueUrl"@, base_url@ + "/queue/"@ + c.name@)]),
            Err(e) => error_answer(xml@, SqsErrorCode::InternalError, error_text(*e)),
        },
{
    match created {
        Ok(c) => {
            let url = queue_url(base_url, c.name.as_str());
            build_create_queue_response(url.as_str())
        },
        Err(e) => internal_error(e),
    }
}

/// The queue that a GetQueueUrl request names, or the refusal.
pub fn plan_get_queue_url(request: &SqsRequest) -> (r: Result<String, (SqsErrorCode, String)>)
    ensures
        match param(request.params@, "QueueName"@) {
            Some(n) => r is Ok && r->Ok_0@ == n,
            None => r is Err && refusal_view(r->Err_0) == missing("QueueName"@),
        },
{
    let name = required(request, "QueueName")?;
    Ok(to_owned_string(name))
}

/// The refusal for a queue that the backend does not know, by name.
pub open spec fn unknown_queue_message(name: Seq<char>) -> Seq<char> {
    "Queue '"@ + name + "' does not exist"@
}

fn unknown_queue(name: &str) -> (xml: String)
    ensures
        error_answer(xml@, SqsErrorCode::QueueDoesNotExist, unknown_queue_message(name@)),
{
    let mut m = to_owned_string("Queue '");
    push_str(&mut m, name);
    push_str(&mut m, "' does not exist");
    build_error_response(SqsErrorCode::QueueDoesNotExist, m.as_str())
}

/// The answer to GetQueueUrl: the queue's URL when the backend knows the
/// queue, else that it does not exist.
pub fn respond_get_queue_url(base_url: &str, queue_name: &str, found: bool) -> (xml: String)
    ensures
        found ==> plain_answer(xml@, "GetQueueUrl"@, seq![("QueueUrl"@, base_url@ + "/queue/"@ + queue_name@)]),
        !found ==> error_answer(xml@, SqsErrorCode::QueueDoesNotExist, unknown_queue_message(queue_name@)),
{
    if found {
        let url = queue_url(base_url, queue_name);
        build_get_queue_url_response(url.as_str())
    } else {
        unknown_queue(queue_name)
    }
}

/// The answer to DeleteQueue: empty when the backend deleted the queue, else
/// that it does not exist.
pub fn respond_delete_queue(queue_name: &str, deleted: bool) -> (xml: String)
    ensures
        deleted ==> plain_answer(xml@, "DeleteMessage"@, Seq::empty()),
        !deleted ==> error_answer(xml@, SqsErrorCode::QueueDoesNotExist, unknown_queue_message(queue_name@)),
{
    if deleted {
        build_delete_message_response()
    } else {
        unknown_queue(queue_name)
    }
}

/// The filter of a ListQueues request: its `QueueNamePrefix`, if any.
pub fn plan_list_queues(request: &SqsRequest) -> (r: Option<QueueFilter>)
    ensures
        match param(request.params@, "QueueNamePrefix"@) {
            Some(p) => r matches Some(f) && f.name_prefix matches Some(x) && x@ == p,
            None => r is None,
        },
{
    match request.get_param("QueueNamePrefix") {
        Some(p) => Some(QueueFilter { name_prefix: Some(to_owned_string(p)) }),
        None => None,
    }
}

/// The URLs of a list of queues, in order.
pub open spec fn queue_urls(base_url: Seq<char>, queues: Seq<QueueConfig>) -> Seq<Seq<char>> {
    queues.map_values(|q: QueueConfig| base_url + "/queue/"@ + q.name@)
}

/// The answer to ListQueues: the URLs of the queues the backend listed.
pub fn respond_list_queues(base_url: &str, listed: Result<&Vec<QueueConfig>, &Error>) -> (xml: String)
    ensures
        match listed {
            Ok(qs) => exists|urls: Seq<String>, rid: Seq<char>|
                uuid_v4_text(rid) && urls.map_values(|u: String| u@) == queue_urls(base_url@, qs@) && xml@
                    == batch_xml("ListQueues"@, queue_urls_xml(urls), Seq::empty(), rid),
            Err(e) => error_answer(xml@, SqsErrorCode::InternalError, error_text(*e)),
        },
{
    match listed {
        Ok(qs) => {
            let mut urls: Vec<String> = Vec::new();
            let mut i: usize = 0;
            while i < qs.len()
                invariant
                    i <= qs@.len(),
                    urls@.map_values(|u: String| u@) == queue_urls(base_url@, qs@.take(i as int)),
                decreases qs@.len() - i,
            {
                let ghost before = urls@;
                let u = queue_url(base_url, qs[i].name.as_str());
                let ghost uv = u@;
                urls.push(u);
                proof {
                    assert(qs@.take(i + 1) =~= qs@.take(i as int).push(qs@[i as int]));
                    assert(urls@.map_values(|u: String| u@) =~= before.map_values(|u: String| u@).push(uv));
                    assert(queue_urls(base_url@, qs@.take(i + 1)) =~= queue_urls(base_url@, qs@.take(i as int)).push(
                        uv,
                    ));
                }
                i = i + 1;
            }
            assert(qs@.take(qs@.len() as int) =~= qs@);
            build_list_queues_response(urls.as_slice())
        },
        Err(e) => internal_error(e),
    }
}

// ---------------------------------------------------------------------------
// ReceiveMessage
// ---------------------------------------------------------------------------

/// What a ReceiveMessage request asks for: `MaxNumberOfMessages` (1 when
/// missing or unreadable, at most 10), `VisibilityTimeout`, and
/// `WaitTimeSeconds` (0 when missing or unreadable).
pub open spec fn receive_options_of(p: Map<Seq<char>, Seq<char>>, o: ReceiveOptions) -> bool {
    &&& o.max_messages == (match u32_param(p, "MaxNumberOfMessages"@) {
        Some(m) => if m < 10 { m } else { 10 },
        None => 1,
    })
    &&& o.visibility_timeout == u32_param(p, "VisibilityTimeout"@)
    &&& o.wait_time_seconds == (match u32_param(p, "WaitTimeSeconds"@) {
        Some(w) => w,
        None => 0,
    })
    &&& o.attribute_names@.len() == 0
    &&& o.message_attribute_names@.len() == 0
}

/// The queue and options of a ReceiveMessage request, or the refusal.
pub fn plan_receive_message(request: &SqsRequest) -> (r: Result<(String, ReceiveOptions), (SqsErrorCode, String)>)
    ensures
        match target_queue(request.params@) {
            Err(e) => r is Err && refusal_view(r->Err_0) == e,
            Ok(n) => r is Ok && r->Ok_0.0@ == n && receive_options_of(request.params@, r->Ok_0.1),
        },
{
    let queue = queue_name_from_request(request)?;
    let max_messages = match read_u32_param(request, "MaxNumberOfMessages") {
        Some(m) => if m < 10 { m } else { 10 },
        None => 1,
    };
    let wait_time_seconds = match read_u32_param(request, "WaitTimeSeconds") {
        Some(w) => w,
        None => 0,
    };
    let options = ReceiveOptions {
        max_messages,
        visibility_timeout: read_u32_param(request, "VisibilityTimeout"),
        wait_time_seconds,
        attribute_names: Vec::new(),
        message_attribute_names: Vec::new(),
    };
    Ok((queue, options))
}

/// A message attribute as a ReceiveMessage response shows it: its data type
/// and string value.
pub open spec fn shown_attributes(s: Seq<(Seq<char>, MessageAttributeValueView)>) -> Seq<
    (Seq<char>, (Seq<char>, Option<Seq<char>>)),
> {
    s.map_values(|e: (Seq<char>, MessageAttributeValueView)| (e.0, (e.1.data_type, e.1.string_value)))
}

pub open spec fn info_attributes_view(s: Seq<(String, MessageAttributeInfo)>) -> Seq<
    (Seq<char>, (Seq<char>, Option<Seq<char>>)),
> {
    s.map_values(|e: (String, MessageAttributeInfo)| (e.0@, (e.1.data_type@, opt_str_view(e.1.string_value))))
}

/// The system attributes that a received message shows: a fixed sender ID,
/// the send time, the receive count, and `now_millis` as the first receive
/// time.
pub open spec fn system_attributes(m: MessageView, now_millis: i64) -> Seq<(Seq<char>, Seq<char>)> {
    seq![
        ("SenderId"@, "AIDAIT2UOQQY3AUEKVGXU"@),
        ("SentTimestamp"@, dec_signed(m.sent_timestamp as int)),
        ("ApproximateReceiveCount"@, dec(m.receive_count as nat)),
        ("ApproximateFirstReceiveTimestamp"@, dec_signed(now_millis as int)),
    ]
}

/// How a received message is shown.
pub open spec fn shows_message(info: ReceivedMessageInfo, r: (MessageView, Seq<char>), now_millis: i64) -> bool {
    &&& info.message_id@ == r.0.id
    &&& info.receipt_handle@ == r.1
    &&& info.md5_of_body@ == hex_lower(md5_digest(vstd::utf8::encode_utf8(r.0.body)))
    &&& info.body@ == r.0.body
    &&& info.attributes@.map_values(|p: (String, String)| (p.0@, p.1@)) == system_attributes(r.0, now_millis)
    &&& info_attributes_view(info.message_attributes@) == shown_attributes(r.0.attributes)
}

fn pair(a: &str, b: String) -> (r: (String, String))
    ensures
        r.0@ == a@,
        r.1@ == b@,
{
    (to_owned_string(a), b)
}

/// How a received message is shown in a ReceiveMessage response.
pub fn received_message_info(r: &ReceivedMessage, now_millis: i64) -> (info: ReceivedMessageInfo)
    ensures
        shows_message(info, r@, now_millis),
{
    let m = &r.message;
    let mut attributes: Vec<(String, String)> = Vec::new();
    attributes.push(pair("SenderId", to_owned_string("AIDAIT2UOQQY3AUEKVGXU")));
    attributes.push(pair("SentTimestamp", i64_to_decimal(m.sent_timestamp)));
    attributes.push(pair("ApproximateReceiveCount", u32_to_decimal(m.receive_count)));
    attributes.push(pair("ApproximateFirstReceiveTimestamp", i64_to_decimal(now_millis)));
    assert(attributes@.map_values(|p: (String, String)| (p.0@, p.1@)) =~= system_attributes(m@, now_millis));
    let n = m.attributes.len();
    let ghost p = m.attributes.pairs();
    let mut shown: Vec<(String, MessageAttributeInfo)> = Vec::new();
    let mut i: usize = 0;
    while i < n
        invariant
            n == p.len(),
            p == m.attributes.pairs(),
            i <= n,
            info_attributes_view(shown@) == shown_attributes(p.take(i as int)),
        decreases n - i,
    {
        let (k, v) = m.attributes.entry(i);
        let a = MessageAttributeInfo { data_type: v.data_type.clone(), string_value: copy_opt_string(&v.string_value) };
        let ghost before = shown@;
        let e = (k.clone(), a);
        let ghost ev = (e.0@, (e.1.data_type@, opt_str_view(e.1.string_value)));
        shown.push(e);
        proof {
            assert(ev == (p[i as int].0, (p[i as int].1.data_type, p[i as int].1.string_value)));
            assert(p.take(i + 1) =~= p.take(i as int).push(p[i as int]));
            assert(info_attributes_view(shown@) =~= info_attributes_view(before).push(ev));
            assert(shown_attributes(p.take(i + 1)) =~= shown_attributes(p.take(i as int)).push(ev));
        }
        i = i + 1;
    }
    assert(p.take(n as int) =~= p);
    ReceivedMessageInfo {
        message_id: m.id.0.clone(),
        receipt_handle: r.receipt_handle.clone(),
        md5_of_body: calculate_md5_of_body(m.body.as_str()),
        body: m.body.clone(),
        attributes,
        message_attributes: shown,
    }
}

/// The answer to ReceiveMessage with what the backend delivered, shown with
/// `now_millis` as the first receive time; a backend failure is an internal
/// error.
pub fn respond_receive_message(received: Result<&Vec<ReceivedMessage>, &Error>, now_millis: i64) -> (xml: String)
    ensures
        match received {
            Ok(ms) => exists|infos: Seq<ReceivedMessageInfo>, rid: Seq<char>|
                uuid_v4_text(rid) && infos.len() == ms@.len() && (forall|i: int|
                    0 <= i < ms@.len() ==> shows_message(#[trigger] infos[i], ms@[i]@, now_millis)) && xml@
                    == batch_xml("ReceiveMessage"@, received_messages_xml(infos), Seq::empty(), rid),
            Err(e) => error_answer(xml@, SqsErrorCode::InternalError, error_text(*e)),
        },
{
    match received {
        Ok(ms) => {
            let mut infos: Vec<ReceivedMessageInfo> = Vec::new();
            let mut i: usize = 0;
            while i < ms.len()
                invariant
                    i <= ms@.len(),
                    infos@.len() == i,
                    forall|j: int| 0 <= j < i ==> shows_message(#[trigger] infos@[j], ms@[j]@, now_millis),
                decreases ms@.len() - i,
            {
                infos.push(received_message_info(&ms[i], now_millis));
                i = i + 1;
            }
            build_receive_message_response(infos.as_slice())
        },
        Err(e) => internal_error(e),
    }
}

// ---------------------------------------------------------------------------
// DeleteMessage, ChangeMessageVisibility, PurgeQueue
// ---------------------------------------------------------------------------

/// The refusal of a DeleteMessage request, in the order the action checks.
pub open spec fn delete_message_refusal(p: Map<Seq<char>, Seq<char>>) -> Option<(SqsErrorCode, Seq<char>)> {
    match param(p, "QueueUrl"@) {
        None => Some(missing("QueueUrl"@)),
        Some(u) => match param(p, "ReceiptHandle"@) {
            None => Some(missing("ReceiptHandle"@)),
            Some(_) => match queue_of_url(u) {
                Err(e) => Some(e),
                Ok(_) => None,
            },
        },
    }
}

/// The queue and receipt handle of a DeleteMessage request, or the refusal.
pub fn plan_delete_message(request: &SqsRequest) -> (r: Result<(String, String), (SqsErrorCode, String)>)
    ensures
        match delete_message_refusal(request.params@) {
            Some(e) => r is Err && refusal_view(r->Err_0) == e,
            None => r is Ok && target_queue(request.params@) == Ok::<Seq<char>, (SqsErrorCode, Seq<char>)>(
                r->Ok_0.0@,
            ) && param(request.params@, "ReceiptHandle"@) == Some(r->Ok_0.1@),
        },
{
    let url = required(request, "QueueUrl")?;
    let handle = required(request, "ReceiptHandle")?;
    let queue = queue_from_url(url)?;
    Ok((queue, to_owned_string(handle)))
}

/// The answer to a DeleteMessage or ChangeMessageVisibility: empty when the
/// backend did it, else that the receipt handle is invalid.
pub fn respond_receipt_action(action_is_delete: bool, done: bool) -> (xml: String)
    ensures
        done && action_is_delete ==> plain_answer(xml@, "DeleteMessage"@, Seq::empty()),
        done && !action_is_delete ==> plain_answer(xml@, "ChangeMessageVisibility"@, Seq::empty()),
        !done ==> error_answer(xml@, SqsErrorCode::ReceiptHandleIsInvalid, "Receipt handle is invalid"@),
{
    if !done {
        build_error_response(SqsErrorCode::ReceiptHandleIsInvalid, "Receipt handle is invalid")
    } else if action_is_delete {
        build_delete_message_response()
    } else {
        build_change_message_visibility_response()
    }
}

/// The refusal of a ChangeMessageVisibility request, in the order the
/// action checks: queue URL, receipt handle, a timeout of at most 43200
/// seconds, a URL that names a queue.
pub open spec fn change_visibility_refusal(p: Map<Seq<char>, Seq<char>>) -> Option<(SqsErrorCode, Seq<char>)> {
    match param(p, "QueueUrl"@) {
        None => Some(missing("QueueUrl"@)),
        Some(u) => match param(p, "ReceiptHandle"@) {
            None => Some(missing("ReceiptHandle"@)),
            Some(_) => match param(p, "VisibilityTimeout"@) {
                None => Some(missing("VisibilityTimeout"@)),
                Some(t) => match u32_reading(t) {
                    Some(v) if v <= 43200 => match queue_of_url(u) {
                        Err(e) => Some(e),
                        Ok(_) => None,
                    },
                    _ => Some(
                        (
                            SqsErrorCode::InvalidParameterValue,
                            "VisibilityTimeout must be between 0 and 43200 seconds"@,
                        ),
                    ),
                },
            },
        },
    }
}

/// The queue, receipt handle and timeout of a ChangeMessageVisibility
/// request, or the refusal.
pub fn plan_change_message_visibility(request: &SqsRequest) -> (r: Result<(String, String, u32), (SqsErrorCode, String)>)
    ensures
        match change_visibility_refusal(request.params@) {
            Some(e) => r is Err && refusal_view(r->Err_0) == e,
            None => r is Ok && target_queue(request.params@) == Ok::<Seq<char>, (SqsErrorCode, Seq<char>)>(
                r->Ok_0.0@,
            ) && param(request.params@, "ReceiptHandle"@) == Some(r->Ok_0.1@) && u32_param(
                request.params@,
                "VisibilityTimeout"@,
            ) == Some(r->Ok_0.2),
        },
{
    let url = required(request, "QueueUrl")?;
    let handle = required(request, "ReceiptHandle")?;
    let text = required(request, "VisibilityTimeout")?;
    let timeout = match read_u32(text) {
        Some(v) if v <= 43200 => v,
        _ => {
            return Err(
                (
                    SqsErrorCode::InvalidParameterValue,
                    to_owned_string("VisibilityTimeout must be between 0 and 43200 seconds"),
                ),
            );
        },
    };
    let queue = queue_from_url(url)?;
    Ok((queue, to_owned_string(handle), timeout))
}

/// The answer to PurgeQueue: empty when the backend purged the queue, else
/// an internal error.
pub fn respond_purge_queue(purged: Result<(), &Error>) -> (xml: String)
    ensures
        match purged {
            Ok(_) => plain_answer(xml@, "DeleteMessage"@, Seq::empty()),
            Err(e) => error_answer(xml@, SqsErrorCode::InternalError, error_text(*e)),
        },
{
    match purged {
        Ok(_) => build_delete_message_response(),
        Err(e) => internal_error(e),
    }
}

// ---------------------------------------------------------------------------
// Queue attributes and tags
// ---------------------------------------------------------------------------

/// The answer for a queue that the backend does not know, when the action
/// does not name it.
pub fn respond_missing_queue() -> (xml: String)
    ensures
        error_answer(xml@, SqsErrorCode::QueueDoesNotExist, "The specified queue does not exist"@),
{
    build_error_response(SqsErrorCode::QueueDoesNotExist, "The specified queue does not exist")
}

/// The attribute with a wire name, if any.
pub open spec fn attribute_named(s: Seq<char>) -> Option<QueueAttribute> {
    if is_attribute_name(s) {
        Some(choose|a: QueueAttribute| attribute_name(a) == s)
    } else {
        None
    }
}

/// The names a GetQueueAttributes request asks for: `All` when it names
/// none.
pub open spec fn asked_names(names: Seq<Seq<char>>) -> Seq<Seq<char>> {
    if names.len() == 0 {
        seq!["All"@]
    } else {
        names
    }
}

/// The names and values of the asked attributes, in the order asked; names
/// that are no attribute are passed over.
pub open spec fn requested_entries(
    names: Seq<Seq<char>>,
    c: QueueConfigView,
    stats: QueueStats,
    now_secs: i64,
) -> Seq<(Seq<char>, Seq<char>)>
    decreases names.len(),
{
    if names.len() == 0 {
        Seq::empty()
    } else {
        requested_entries(names.drop_last(), c, stats, now_secs) + match attribute_named(names.last()) {
            Some(a) => attribute_entries(a, c, stats, now_secs),
            None => Seq::empty(),
        }
    }
}

/// The answer to GetQueueAttributes for a queue the backend knows, with
/// the attribute names the request lists and the queue's statistics (a
/// backend failure there is an internal error). `now_secs` stands for the
/// timestamps the service does not keep.
pub fn respond_get_queue_attributes(
    names: &Vec<String>,
    config: &QueueConfig,
    stats: Result<&QueueStats, &Error>,
    now_secs: i64,
) -> (xml: String)
    ensures
        match stats {
            Ok(st) => exists|attrs: Seq<(String, String)>, rid: Seq<char>|
                uuid_v4_text(rid) && text_pairs(attrs) == requested_entries(
                    asked_names(string_views(names@)),
                    config@,
                    *st,
                    now_secs,
                ) && xml@ == batch_xml("GetQueueAttributes"@, attribute_entries_xml(attrs), Seq::empty(), rid),
            Err(e) => error_answer(xml@, SqsErrorCode::InternalError, error_text(*e)),
        },
{
    let st = match stats {
        Ok(st) => st,
        Err(e) => {
            return internal_error(e);
        },
    };
    let mut asked: Vec<String> = Vec::new();
    if names.len() == 0 {
        asked.push(to_owned_string("All"));
    } else {
        let mut j: usize = 0;
        while j < names.len()
            invariant
                j <= names@.len(),
                string_views(asked@) == string_views(names@).take(j as int),
            decreases names@.len() - j,
        {
            let c = names[j].clone();
            let ghost before = asked@;
            asked.push(c);
            assert(string_views(asked@) =~= string_views(before).push(names@[j as int]@));
            assert(string_views(names@).take(j + 1) =~= string_views(names@).take(j as int).push(names@[j as int]@));
            j = j + 1;
        }
        assert(string_views(names@).take(names@.len() as int) =~= string_views(names@));
    }
    let ghost wanted = asked_names(string_views(names@));
    assert(string_views(asked@) =~= wanted);
    let mut request_all = false;
    let mut k: usize = 0;
    while k < asked.len()
        invariant
            k <= asked@.len(),
        decreases asked@.len() - k,
    {
        if crate::text::str_eq(asked[k].as_str(), "All") {
            request_all = true;
        }
        k = k + 1;
    }
    let mut attributes: Vec<(String, String)> = Vec::new();
    let mut i: usize = 0;
    while i < asked.len()
        invariant
            i <= asked@.len(),
            string_views(asked@) == wanted,
            text_pairs(attributes@) == requested_entries(wanted.take(i as int), config@, *st, now_secs),
        decreases asked@.len() - i,
    {
        let ghost before = text_pairs(attributes@);
        assert(wanted.take(i + 1).drop_last() =~= wanted.take(i as int));
        assert(wanted.take(i + 1).last() == asked@[i as int]@);
        match QueueAttribute::from_name(asked[i].as_str()) {
            Ok(attr) => {
                proof {
                    let a = choose|a: QueueAttribute| attribute_name(a) == asked@[i as int]@;
                    lemma_attribute_name_injective(a, attr);
                }
                add_queue_attribute(&mut attributes, &attr, config, st, request_all, now_secs);
            },
            Err(_) => {
                assert(text_pairs(attributes@) =~= before + Seq::<(Seq<char>, Seq<char>)>::empty());
            },
        }
        i = i + 1;
    }
    assert(wanted.take(asked@.len() as int) =~= wanted);
    build_get_queue_attributes_response(attributes.as_slice())
}

/// The answer to SetQueueAttributes once the backend has stored the new
/// configuration; a backend failure is an internal error.
pub fn respond_set_queue_attributes(updated: Result<(), &Error>) -> (xml: String)
    ensures
        match updated {
            Ok(_) => plain_answer(xml@, "DeleteMessage"@, Seq::empty()),
            Err(e) => error_answer(xml@, SqsErrorCode::InternalError, error_text(*e)),
        },
{
    match updated {
        Ok(_) => build_delete_message_response(),
        Err(e) => internal_error(e),
    }
}

/// `Tag.N.Key` and `Tag.N.Value` are both in the request.
pub open spec fn tag_present(p: Map<Seq<char>, Seq<char>>, n: nat) -> bool {
    p.contains_key(indexed_key("Tag."@, n, ".Key"@)) && p.contains_key(indexed_key("Tag."@, n, ".Value"@))
}

/// The tags with the first `n` tags of a TagQueue request set, in order.
pub open spec fn tags_added(tags: Seq<(Seq<char>, Seq<char>)>, p: Map<Seq<char>, Seq<char>>, n: nat) -> Seq<
    (Seq<char>, Seq<char>),
>
    decreases n,
{
    if n == 0 {
        tags
    } else {
        pairs_insert(
            tags_added(tags, p, (n - 1) as nat),
            p[indexed_key("Tag."@, n, ".Key"@)],
            p[indexed_key("Tag."@, n, ".Value"@)],
        )
    }
}

/// Sets the tags `Tag.N.Key` = `Tag.N.Value` of a TagQueue request, for `N`
/// from 1 up to the first index that lacks one of the two; the rest of the
/// configuration stays.
pub fn add_tags(config: &mut QueueConfig, request: &SqsRequest)
    ensures
        exists|k: nat|
            run_of(|j: nat| tag_present(request.params@, j), k) && final(config).tags.pairs() == tags_added(
                old(config).tags.pairs(),
                request.params@,
                k,
            ),
        final(config)@ == (QueueConfigView { tags: final(config).tags.pairs(), ..old(config)@ }),
{
    let ghost p = request.params@;
    let ghost t0 = config.tags.pairs();
    let mut index: u128 = 1;
    loop
        invariant_except_break
            1 <= index,
            index - 1 <= request.params.pairs().len(),
            p == request.params@,
            forall|j: nat| 1 <= j < index ==> #[trigger] tag_present(p, j),
            config.tags.pairs() == tags_added(t0, p, (index - 1) as nat),
            config@ == (QueueConfigView { tags: config.tags.pairs(), ..old(config)@ }),
        ensures
            1 <= index,
            forall|j: nat| 1 <= j < index ==> #[trigger] tag_present(p, j),
            !tag_present(p, index as nat),
            config.tags.pairs() == tags_added(t0, p, (index - 1) as nat),
            config@ == (QueueConfigView { tags: config.tags.pairs(), ..old(config)@ }),
        decreases request.params.pairs().len() + 1 - index,
    {
        let key_param = indexed_key_string("Tag.", index, ".Key");
        let value_param = indexed_key_string("Tag.", index, ".Value");
        match (request.get_param(key_param.as_str()), request.get_param(value_param.as_str())) {
            (Some(key), Some(value)) => {
                config.tags.insert(to_owned_string(key), to_owned_string(value));
                proof {
                    assert(tag_present(p, index as nat));
                    assert forall|j: nat| 1 <= j <= index implies #[trigger] request.params@.contains_key(
                        indexed_key("Tag."@, j, ".Key"@),
                    ) by {
                        assert(tag_present(p, j));
                    }
                    request.params.lemma_keys_bound("Tag."@, ".Key"@, index as nat);
                }
                let _count = request.params.len();
                index = index + 1;
            },
            _ => {
                break;
            },
        }
    }
    assert(run_of(|j: nat| tag_present(p, j), (index - 1) as nat));
}

/// The tags without the first `n` keys `TagKey.N` of an UntagQueue request.
pub open spec fn tags_removed(tags: Seq<(Seq<char>, Seq<char>)>, p: Map<Seq<char>, Seq<char>>, n: nat) -> Seq<
    (Seq<char>, Seq<char>),
>
    decreases n,
{
    if n == 0 {
        tags
    } else {
        pairs_remove(tags_removed(tags, p, (n - 1) as nat), p[indexed_key("TagKey."@, n, ""@)])
    }
}

/// Removes the tags `TagKey.N` of an UntagQueue request, for `N` from 1 up
/// to the first index that is missing; the rest of the configuration stays.
pub fn remove_tags(config: &mut QueueConfig, request: &SqsRequest)
    ensures
        exists|k: nat|
            run_of(|j: nat| request.params@.contains_key(indexed_key("TagKey."@, j, ""@)), k)
                && final(config).tags.pairs() == tags_removed(old(config).tags.pairs(), request.params@, k),
        final(config)@ == (QueueConfigView { tags: final(config).tags.pairs(), ..old(config)@ }),
{
    let ghost p = request.params@;
    let ghost t0 = config.tags.pairs();
    let mut index: u128 = 1;
    loop
        invariant_except_break
            1 <= index,
            index - 1 <= request.params.pairs().len(),
            p == request.params@,
            forall|j: nat| 1 <= j < index ==> #[trigger] p.contains_key(indexed_key("TagKey."@, j, ""@)),
            config.tags.pairs() == tags_removed(t0, p, (index - 1) as nat),
            config@ == (QueueConfigView { tags: config.tags.pairs(), ..old(config)@ }),
        ensures
            1 <= index,
            forall|j: nat| 1 <= j < index ==> #[trigger] p.contains_key(indexed_key("TagKey."@, j, ""@)),
            !p.contains_key(indexed_key("TagKey."@, index as nat, ""@)),
            config.tags.pairs() == tags_removed(t0, p, (index - 1) as nat),
            config@ == (QueueConfigView { tags: config.tags.pairs(), ..old(config)@ }),
        decreases request.params.pairs().len() + 1 - index,
    {
        let key_param = indexed_key_string("TagKey.", index, "");
        match request.get_param(key_param.as_str()) {
            Some(key) => {
                let _ = config.tags.remove(key);
                proof {
                    assert forall|j: nat| 1 <= j <= index implies #[trigger] request.params@.contains_key(
                        indexed_key("TagKey."@, j, ""@),
                    ) by {
                        if j < index {
                            assert(p.contains_key(indexed_key("TagKey."@, j, ""@)));
                        }
                    }
                    request.params.lemma_keys_bound("TagKey."@, ""@, index as nat);
                }
                let _count = request.params.len();
                index = index + 1;
            },
            None => {
                break;
            },
        }
    }
    assert(run_of(|j: nat| p.contains_key(indexed_key("TagKey."@, j, ""@)), (index - 1) as nat));
}

/// The answer to TagQueue or UntagQueue once the backend has stored the
/// configuration; a backend failure is an internal error.
pub fn respond_tags_updated(tagging: bool, updated: Result<(), &Error>) -> (xml: String)
    ensures
        match updated {
            Ok(_) => plain_answer(xml@, if tagging { "TagQueue"@ } else { "UntagQueue"@ }, Seq::empty()),
            Err(e) => error_answer(xml@, SqsErrorCode::InternalError, error_text(*e)),
        },
{
    match updated {
        Ok(_) => if tagging {
            crate::sqs::response::build_tag_queue_response()
        } else {
            crate::sqs::response::build_untag_queue_response()
        },
        Err(e) => internal_error(e),
    }
}

pub open spec fn tag_xml(t: (Seq<char>, Seq<char>)) -> Seq<char> {
    "<Tag><Key>"@ + xml_escaped(t.0) + "</Key><Value>"@ + xml_escaped(t.1) + "</Value></Tag>"@
}

pub open spec fn tags_xml(s: Seq<(Seq<char>, Seq<char>)>) -> Seq<char>
    decreases s.len(),
{
    if s.len() == 0 {
        Seq::empty()
    } else {
        tags_xml(s.drop_last()) + tag_xml(s.last())
    }
}

/// The text of a ListQueueTags response, on one line.
pub open spec fn list_queue_tags_xml(tags: Seq<(Seq<char>, Seq<char>)>, request_id: Seq<char>) -> Seq<char> {
    "<?xml version=\"1.0\"?><ListQueueTagsResponse xmlns=\"http://queue.amazonaws.com/doc/2012-11-05/\"><ListQueueTagsResult>"@
        + tags_xml(tags)
        + "</ListQueueTagsResult><ResponseMetadata><RequestId>"@ + request_id
        + "</RequestId></ResponseMetadata></ListQueueTagsResponse>"@
}

/// Renders a ListQueueTags response with the given request ID.
pub fn render_list_queue_tags_response(tags: &Dict<String>, request_id: &str) -> (xml: String)
    ensures
        xml@ == list_queue_tags_xml(tags.pairs(), request_id@),
{
    let mut xml = to_owned_string(
        "<?xml version=\"1.0\"?><ListQueueTagsResponse xmlns=\"http://queue.amazonaws.com/doc/2012-11-05/\"><ListQueueTagsResult>",
    );
    let ghost head = xml@;
    let n = tags.len();
    let ghost p = tags.pairs();
    let mut i: usize = 0;
    while i < n
        invariant
            n == p.len(),
            p == tags.pairs(),
            i <= n,
            xml@ == head + tags_xml(p.take(i as int)),
        decreases n - i,
    {
        let (k, v) = tags.entry(i);
        let ghost before = xml@;
        push_str(&mut xml, "<Tag><Key>");
        push_escaped(&mut xml, k.as_str());
        push_str(&mut xml, "</Key><Value>");
        push_escaped(&mut xml, v.as_str());
        push_str(&mut xml, "</Value></Tag>");
        assert(p.take(i + 1).drop_last() =~= p.take(i as int));
        assert(xml@ =~= before + tag_xml(p[i as int]));
        i = i + 1;
    }
    assert(p.take(n as int) =~= p);
    push_str(&mut xml, "</ListQueueTagsResult><ResponseMetadata><RequestId>");
    push_str(&mut xml, request_id);
    push_str(&mut xml, "</RequestId></ResponseMetadata></ListQueueTagsResponse>");
    assert(xml@ =~= list_queue_tags_xml(p, request_id@));
    xml
}

/// Builds a ListQueueTags response with a new random request ID.
pub fn build_list_queue_tags_response(tags: &Dict<String>) -> (xml: String)
    ensures
        exists|rid: Seq<char>| uuid_v4_text(rid) && xml@ == list_queue_tags_xml(tags.pairs(), rid),
{
    let rid = new_uuid_string();
    render_list_queue_tags_response(tags, rid.as_str())
}

// ---------------------------------------------------------------------------
// The response
// ---------------------------------------------------------------------------

/// The body and content type of a response: the XML as it is, or its JSON
/// form for a request in the JSON protocol.
pub fn finish_response(xml: String, is_json: bool) -> (r: (String, String))
    ensures
        !is_json ==> r.0@ == xml@ && r.1@ == "application/xml"@,
        is_json ==> r.0@ == xml_json(xml@) && r.1@ == "application/x-amz-json-1.0"@,
{
    if is_json {
        (xml_to_json_response(xml.as_str()), to_owned_string("application/x-amz-json-1.0"))
    } else {
        (xml, to_owned_string("application/xml"))
    }
}
} // verus!
