//! The in-memory storage backend: queues of messages, the messages in flight,
//! FIFO deduplication, and eviction when the store is full.
//!
//! Time is handed in by the caller as `now`, in milliseconds since the Unix
//! epoch, so that every operation is a function of the store and its
//! arguments.

use std::collections::VecDeque;
use vstd::prelude::*;
use crate::config::EvictionPolicy;
use crate::dict::{Dict, Duplicate, pairs_insert, pairs_remove, pairs_to_map, select_pairs};
use crate::error::{Error, ValidationError};
use crate::receipt::{generate_receipt_handle, parse_receipt_handle, receipt_parts, receipt_text};
use crate::storage::{HealthStatus, QueueFilter, ReceivedMessage};
use crate::text::{seq_starts_with, starts_with, to_owned_string};
use crate::types::{
    Message, MessageView, QueueConfig, QueueConfigView, QueueStats, QueueType, ReceiveOptions,
    SubscriptionConfig, SubscriptionConfigView,
};

verus! {

/// The largest magnitude of a time that the backend accepts, in milliseconds
/// since the Unix epoch: about 253,000 years, inside the range of dates that
/// chrono represents.
pub const TIME_LIMIT_MS: i64 = 8_000_000_000_000_000;

/// A time that the backend can add any delay or timeout to.
pub open spec fn time_in_range(now: i64) -> bool {
    -TIME_LIMIT_MS <= now <= TIME_LIMIT_MS
}

/// `seconds` after `now`, in milliseconds.
pub open spec fn after_seconds(now: i64, seconds: u32) -> i64 {
    (now + seconds * 1000) as i64
}

/// How long a FIFO deduplication ID is remembered: five minutes.
pub const DEDUP_WINDOW_MS: i64 = 300_000;

/// The size above which the deduplication cache is cleaned.
pub const DEDUP_CLEANUP_THRESHOLD: usize = 1000;

/// Configuration for the in-memory backend.
#[derive(Debug, Clone, Copy)]
pub struct InMemoryConfig {
    /// Maximum number of messages across all queues.
    pub max_messages: usize,
    /// Eviction policy when full.
    pub eviction_policy: EvictionPolicy,
}

impl Default for InMemoryConfig {
    fn default() -> (r: Self)
        ensures
            r.max_messages == 100_000,
            r.eviction_policy == EvictionPolicy::Lru,
    {
        InMemoryConfig { max_messages: 100_000, eviction_policy: EvictionPolicy::Lru }
    }
}

/// A message waiting for delivery.
#[derive(Debug)]
pub struct StoredMessage {
    /// The message.
    pub message: Message,
    /// When this message becomes visible.
    pub visible_at: i64,
}

impl View for StoredMessage {
    type V = (MessageView, i64);

    open spec fn view(&self) -> (MessageView, i64) {
        (self.message@, self.visible_at)
    }
}

/// A message handed out and not yet deleted.
#[derive(Debug)]
pub struct InFlightMessage {
    /// The message.
    pub message: Message,
    /// When visibility expires.
    pub visibility_expires_at: i64,
}

impl View for InFlightMessage {
    type V = (MessageView, i64);

    open spec fn view(&self) -> (MessageView, i64) {
        (self.message@, self.visibility_expires_at)
    }
}

/// The state of one queue.
#[derive(Debug)]
pub struct QueueData {
    /// Queue configuration.
    pub config: QueueConfig,
    /// Messages available for delivery, oldest first.
    pub available_messages: VecDeque<StoredMessage>,
    /// Messages in flight, by receipt handle.
    pub in_flight_messages: Dict<InFlightMessage>,
    /// FIFO deduplication IDs and when they were last accepted.
    pub deduplication_cache: Dict<i64>,
    /// Next sequence number for FIFO queues.
    pub next_sequence_number: u64,
    /// Last access time (for LRU eviction).
    pub last_access: i64,
}

pub struct QueueDataView {
    pub config: QueueConfigView,
    pub available: Seq<(MessageView, i64)>,
    pub in_flight: Seq<(Seq<char>, (MessageView, i64))>,
    pub dedup: Seq<(Seq<char>, i64)>,
    pub next_sequence_number: u64,
    pub last_access: i64,
}

pub open spec fn stored_views(v: Seq<StoredMessage>) -> Seq<(MessageView, i64)> {
    v.map_values(|m: StoredMessage| m@)
}

impl View for QueueData {
    type V = QueueDataView;

    open spec fn view(&self) -> QueueDataView {
        QueueDataView {
            config: self.config@,
            available: stored_views(self.available_messages@),
            in_flight: self.in_flight_messages.pairs(),
            dedup: self.deduplication_cache.pairs(),
            next_sequence_number: self.next_sequence_number,
            last_access: self.last_access,
        }
    }
}

/// A queue with no messages, created at `now`.
pub open spec fn fresh_queue(config: QueueConfigView, now: i64) -> QueueDataView {
    QueueDataView {
        config,
        available: Seq::empty(),
        in_flight: Seq::empty(),
        dedup: Seq::empty(),
        next_sequence_number: 0,
        last_access: now,
    }
}

/// The abstract state of the backend.
pub struct BackendView {
    /// The queues by ID, in the order the backend keeps them.
    pub queues: Seq<(Seq<char>, QueueDataView)>,
    /// The subscriptions by ID, in the order the backend keeps them.
    pub subscriptions: Seq<(Seq<char>, SubscriptionConfigView)>,
    pub max_messages: usize,
    pub eviction_policy: EvictionPolicy,
    /// The number of the next receipt handle.
    pub receipt_serial: u64,
}

/// `s` with the queue under `k` replaced by `q`.
pub open spec fn put_queue(s: Seq<(Seq<char>, QueueDataView)>, k: Seq<char>, q: QueueDataView) -> Seq<
    (Seq<char>, QueueDataView),
> {
    pairs_insert(pairs_remove(s, k), k, q)
}

/// The queue under `k`.
pub open spec fn queue_at(s: Seq<(Seq<char>, QueueDataView)>, k: Seq<char>) -> Option<QueueDataView> {
    if pairs_to_map(s).contains_key(k) {
        Some(pairs_to_map(s)[k])
    } else {
        None
    }
}

/// The number of messages a queue holds, available and in flight.
pub open spec fn queue_message_count(q: QueueDataView) -> nat {
    q.available.len() + q.in_flight.len()
}

/// The number of messages over all queues.
pub open spec fn total_messages(s: Seq<(Seq<char>, QueueDataView)>) -> nat
    decreases s.len(),
{
    if s.len() == 0 {
        0
    } else {
        total_messages(s.drop_last()) + queue_message_count(s.last().1)
    }
}

/// The in-memory storage backend.
#[derive(Debug)]
pub struct InMemoryBackend {
    queues: Dict<QueueData>,
    subscriptions: Dict<SubscriptionConfig>,
    config: InMemoryConfig,
    receipt_serial: u64,
}

impl View for InMemoryBackend {
    type V = BackendView;

    closed spec fn view(&self) -> BackendView {
        BackendView {
            queues: self.queues.pairs(),
            subscriptions: self.subscriptions.pairs(),
            max_messages: self.config.max_messages,
            eviction_policy: self.config.eviction_policy,
            receipt_serial: self.receipt_serial,
        }
    }
}

impl InMemoryBackend {
    /// A backend with no queues and the default configuration.
    pub fn new() -> (b: Self)
        ensures
            b@.queues.len() == 0,
            b@.subscriptions.len() == 0,
            b@.max_messages == 100_000,
            b@.eviction_policy == EvictionPolicy::Lru,
            b@.receipt_serial == 0,
    {
        Self::with_config(InMemoryConfig::default())
    }

    /// A backend with no queues.
    pub fn with_config(config: InMemoryConfig) -> (b: Self)
        ensures
            b@.queues.len() == 0,
            b@.subscriptions.len() == 0,
            b@.max_messages == config.max_messages,
            b@.eviction_policy == config.eviction_policy,
            b@.receipt_serial == 0,
    {
        InMemoryBackend { queues: Dict::new(), subscriptions: Dict::new(), config, receipt_serial: 0 }
    }

    /// Creates a queue under `config.id`.
    pub fn create_queue(&mut self, config: QueueConfig, now: i64) -> (r: Result<QueueConfig, Error>)
        ensures
            match queue_at(old(self)@.queues, config@.id) {
                Some(_) => r matches Err(Error::QueueAlreadyExists(id)) && id@ == config@.id && final(self)@
                    == old(self)@,
                None => r matches Ok(c) && c@ == config@ && final(self)@ == (BackendView {
                    queues: pairs_insert(old(self)@.queues, config@.id, fresh_queue(config@, now)),
                    ..old(self)@
                }),
            },
    {
        if self.queues.contains_key(config.id.as_str()) {
            return Err(Error::QueueAlreadyExists(config.id.clone()));
        }
        let data = QueueData {
            config: config.clone(),
            available_messages: VecDeque::new(),
            in_flight_messages: Dict::new(),
            deduplication_cache: Dict::new(),
            next_sequence_number: 0,
            last_access: now,
        };
        assert(data@ == fresh_queue(config@, now)) by {
            assert(stored_views(data.available_messages@) =~= Seq::<(MessageView, i64)>::empty());
        }
        self.queues.insert(config.id.clone(), data);
        Ok(config)
    }

    /// The configuration of queue `queue_id`.
    pub fn get_queue(&self, queue_id: &str) -> (r: Result<QueueConfig, Error>)
        ensures
            match queue_at(self@.queues, queue_id@) {
                Some(q) => r matches Ok(c) && c@ == q.config,
                None => r matches Err(Error::QueueNotFound(id)) && id@ == queue_id@,
            },
    {
        match self.queues.get(queue_id) {
            Some(q) => Ok(q.config.clone()),
            None => Err(Error::QueueNotFound(to_owned_string(queue_id))),
        }
    }

    /// Replaces the configuration of queue `config.id`.
    pub fn update_queue(&mut self, config: QueueConfig) -> (r: Result<QueueConfig, Error>)
        ensures
            match queue_at(old(self)@.queues, config@.id) {
                Some(q) => r matches Ok(c) && c@ == config@ && final(self)@ == (BackendView {
                    queues: put_queue(old(self)@.queues, config@.id, QueueDataView { config: config@, ..q }),
                    ..old(self)@
                }),
                None => r matches Err(Error::QueueNotFound(id)) && id@ == config@.id && final(self)@
                    == old(self)@,
            },
    {
        match self.queues.take(config.id.as_str()) {
            Some(q) => {
                let mut q = q;
                q.config = config.clone();
                self.queues.insert(config.id.clone(), q);
                Ok(config)
            },
            None => Err(Error::QueueNotFound(config.id.clone())),
        }
    }

    /// Deletes queue `queue_id` with its messages.
    pub fn delete_queue(&mut self, queue_id: &str) -> (r: Result<(), Error>)
        ensures
            match queue_at(old(self)@.queues, queue_id@) {
                Some(_) => r is Ok && final(self)@ == (BackendView {
                    queues: pairs_remove(old(self)@.queues, queue_id@),
                    ..old(self)@
                }),
                None => r matches Err(Error::QueueNotFound(id)) && id@ == queue_id@ && final(self)@
                    == old(self)@,
            },
    {
        if self.queues.remove(queue_id) {
            Ok(())
        } else {
            Err(Error::QueueNotFound(to_owned_string(queue_id)))
        }
    }

    /// The configurations of the queues, in the order the backend keeps them,
    /// of those whose name starts with the filter's prefix when it has one.
    pub fn list_queues(&self, filter: Option<QueueFilter>) -> (r: Vec<QueueConfig>)
        ensures
            config_views(r@) == listed_queues(self@.queues, match filter {
                Some(f) => crate::types::opt_str_view(f.name_prefix),
                None => None,
            }),
    {
        let prefix: Option<String> = match filter {
            Some(f) => f.name_prefix,
            None => None,
        };
        let mut r: Vec<QueueConfig> = Vec::new();
        let n = self.queues.len();
        let mut i: usize = 0;
        while i < n
            invariant
                n == self@.queues.len(),
                i <= n,
                config_views(r@) == listed_queues(self@.queues.take(i as int), crate::types::opt_str_view(prefix)),
            decreases n - i,
        {
            let (_, q) = self.queues.entry(i);
            assert(self@.queues.take(i + 1).drop_last() =~= self@.queues.take(i as int));
            let keep = match &prefix {
                Some(p) => starts_with(q.config.name.as_str(), p.as_str()),
                None => true,
            };
            if keep {
                let ghost before = r@;
                r.push(q.config.clone());
                assert(config_views(r@) =~= config_views(before).push(q.config@));
            }
            i = i + 1;
        }
        assert(self@.queues.take(n as int) =~= self@.queues);
        r
    }

    /// Message counts of queue `queue_id`.
    pub fn get_stats(&self, queue_id: &str) -> (r: Result<QueueStats, Error>)
        ensures
            match queue_at(self@.queues, queue_id@) {
                Some(q) => r matches Ok(s) && s.available_messages == q.available.len()
                    && s.in_flight_messages == q.in_flight.len() && s.dlq_messages == 0
                    && s.oldest_message_timestamp == if q.available.len() > 0 {
                    Some(q.available[0].0.sent_timestamp)
                } else {
                    None::<i64>
                },
                None => r matches Err(Error::QueueNotFound(id)) && id@ == queue_id@,
            },
    {
        match self.queues.get(queue_id) {
            Some(q) => {
                let oldest = if q.available_messages.len() > 0 {
                    Some(q.available_messages[0].message.sent_timestamp)
                } else {
                    None
                };
                Ok(QueueStats {
                    available_messages: q.available_messages.len() as u64,
                    in_flight_messages: q.in_flight_messages.len() as u64,
                    dlq_messages: 0,
                    oldest_message_timestamp: oldest,
                })
            },
            None => Err(Error::QueueNotFound(to_owned_string(queue_id))),
        }
    }

    /// Removes every message of queue `queue_id`, available and in flight.
    pub fn purge_queue(&mut self, queue_id: &str) -> (r: Result<(), Error>)
        ensures
            match queue_at(old(self)@.queues, queue_id@) {
                Some(q) => r is Ok && final(self)@ == (BackendView {
                    queues: put_queue(
                        old(self)@.queues,
                        queue_id@,
                        QueueDataView { available: Seq::empty(), in_flight: Seq::empty(), ..q },
                    ),
                    ..old(self)@
                }),
                None => r matches Err(Error::QueueNotFound(id)) && id@ == queue_id@ && final(self)@
                    == old(self)@,
            },
    {
        match self.queues.take(queue_id) {
            Some(q) => {
                let mut q = q;
                q.available_messages = VecDeque::new();
                q.in_flight_messages = Dict::new();
                assert(stored_views(q.available_messages@) =~= Seq::<(MessageView, i64)>::empty());
                self.queues.insert(to_owned_string(queue_id), q);
                Ok(())
            },
            None => Err(Error::QueueNotFound(to_owned_string(queue_id))),
        }
    }

    /// Creates a subscription under `config.id`.
    pub fn create_subscription(&mut self, config: SubscriptionConfig) -> (r: Result<SubscriptionConfig, Error>)
        ensures
            pairs_to_map(old(self)@.subscriptions).contains_key(config@.id) ==> (r matches Err(
                Error::StorageError(m),
            ) && m@ == "Subscription "@ + config@.id + " already exists"@ && final(self)@ == old(self)@),
            !pairs_to_map(old(self)@.subscriptions).contains_key(config@.id) ==> (r matches Ok(c) && c@
                == config@ && final(self)@ == (BackendView {
                subscriptions: pairs_insert(old(self)@.subscriptions, config@.id, config@),
                ..old(self)@
            })),
    {
        if self.subscriptions.contains_key(config.id.as_str()) {
            let mut m = to_owned_string("Subscription ");
            crate::text::push_str(&mut m, config.id.as_str());
            crate::text::push_str(&mut m, " already exists");
            return Err(Error::StorageError(m));
        }
        self.subscriptions.insert(config.id.clone(), config.clone());
        Ok(config)
    }

    /// The subscription `id`.
    pub fn get_subscription(&self, id: &str) -> (r: Result<SubscriptionConfig, Error>)
        ensures
            pairs_to_map(self@.subscriptions).contains_key(id@) ==> (r matches Ok(c) && c@ == pairs_to_map(
                self@.subscriptions,
            )[id@]),
            !pairs_to_map(self@.subscriptions).contains_key(id@) ==> (r matches Err(
                Error::SubscriptionNotFound(x),
            ) && x@ == id@),
    {
        match self.subscriptions.get(id) {
            Some(c) => Ok(c.clone()),
            None => Err(Error::SubscriptionNotFound(to_owned_string(id))),
        }
    }

    /// Deletes the subscription `id`.
    pub fn delete_subscription(&mut self, id: &str) -> (r: Result<(), Error>)
        ensures
            pairs_to_map(old(self)@.subscriptions).contains_key(id@) ==> r is Ok && final(self)@ == (BackendView {
                subscriptions: pairs_remove(old(self)@.subscriptions, id@),
                ..old(self)@
            }),
            !pairs_to_map(old(self)@.subscriptions).contains_key(id@) ==> (r matches Err(
                Error::SubscriptionNotFound(x),
            ) && x@ == id@ && final(self)@ == old(self)@),
    {
        if self.subscriptions.remove(id) {
            Ok(())
        } else {
            Err(Error::SubscriptionNotFound(to_owned_string(id)))
        }
    }

    /// All subscriptions.
    pub fn list_subscriptions(&self) -> (r: Vec<SubscriptionConfig>)
        ensures
            r@.len() == self@.subscriptions.len(),
            forall|i: int| 0 <= i < r@.len() ==> #[trigger] r@[i]@ == self@.subscriptions[i].1,
    {
        let n = self.subscriptions.len();
        let mut r: Vec<SubscriptionConfig> = Vec::new();
        let mut i: usize = 0;
        while i < n
            invariant
                n == self@.subscriptions.len(),
                i <= n,
                r@.len() == i,
                forall|j: int| 0 <= j < i ==> #[trigger] r@[j]@ == self@.subscriptions[j].1,
            decreases n - i,
        {
            let (_, c) = self.subscriptions.entry(i);
            r.push(c.clone());
            i = i + 1;
        }
        r
    }

    /// The backend is always healthy.
    pub fn health_check(&self) -> (r: HealthStatus)
        ensures
            r is Healthy,
    {
        HealthStatus::Healthy
    }
}

impl Default for InMemoryBackend {
    fn default() -> (b: Self)
        ensures
            b@.queues.len() == 0,
            b@.subscriptions.len() == 0,
            b@.max_messages == 100_000,
            b@.eviction_policy == EvictionPolicy::Lru,
            b@.receipt_serial == 0,
    {
        Self::new()
    }
}

pub open spec fn config_views(v: Seq<QueueConfig>) -> Seq<QueueConfigView> {
    v.map_values(|c: QueueConfig| c@)
}

/// The configurations of the queues whose name starts with `prefix`, or of
/// all queues without one.
pub open spec fn listed_queues(s: Seq<(Seq<char>, QueueDataView)>, prefix: Option<Seq<char>>) -> Seq<
    QueueConfigView,
>
    decreases s.len(),
{
    if s.len() == 0 {
        Seq::empty()
    } else {
        let r = listed_queues(s.drop_last(), prefix);
        let c = s.last().1.config;
        match prefix {
            Some(p) => if seq_starts_with(c.name, p) {
                r.push(c)
            } else {
                r
            },
            None => r.push(c),
        }
    }
}

// ---------------------------------------------------------------------------
// Sending
// ---------------------------------------------------------------------------

/// The SHA-256 digest of `data`.
pub uninterp spec fn sha256_digest(data: Seq<u8>) -> Seq<u8>;

/// Calls `sha2::Sha256::digest` (the `Digest` trait of the `sha2` crate).
/// The contract names the digest and states its length, 32 bytes.
#[verifier::external_body]
fn sha256_of_bytes(data: &[u8]) -> (r: Vec<u8>)
    ensures
        r@ == sha256_digest(data@),
        r@.len() == 32,
{
    <sha2::Sha256 as sha2::Digest>::digest(data).to_vec()
}

/// The deduplication ID that content-based deduplication gives a body: the
/// SHA-256 digest of its UTF-8 bytes in lower-case hex.
pub open spec fn content_dedup_id(body: Seq<char>) -> Seq<char> {
    crate::sqs::types::hex_lower(sha256_digest(vstd::utf8::encode_utf8(body)))
}

/// Computes `content_dedup_id` of a message body.
pub fn generate_content_dedup_id(message: &Message) -> (r: String)
    ensures
        r@ == content_dedup_id(message@.body),
{
    let bytes = message.body.as_str().as_bytes();
    let d = sha256_of_bytes(bytes);
    crate::sqs::types::to_hex_lower(d.as_slice())
}

/// The deduplication ID of a message sent to a FIFO queue: its own, or the
/// content-based one when the queue uses content-based deduplication.
pub open spec fn dedup_id_of(c: QueueConfigView, m: MessageView) -> Option<Seq<char>> {
    match m.deduplication_id {
        Some(d) => Some(d),
        None => if c.content_based_deduplication {
            Some(content_dedup_id(m.body))
        } else {
            None
        },
    }
}

/// `d` was accepted less than five minutes before `now`.
pub open spec fn is_duplicate(q: QueueDataView, d: Seq<char>, now: i64) -> bool {
    pairs_to_map(q.dedup).contains_key(d) && pairs_to_map(q.dedup)[d] > now - DEDUP_WINDOW_MS
}

/// Which cache entries are older than five minutes.
pub open spec fn stale_flags(dedup: Seq<(Seq<char>, i64)>, now: i64) -> Seq<bool> {
    dedup.map_values(|e: (Seq<char>, i64)| !(e.1 > now - DEDUP_WINDOW_MS))
}

/// The cache after its cleanup: once it holds more than the threshold, the
/// entries older than five minutes go.
pub open spec fn cleaned_dedup(dedup: Seq<(Seq<char>, i64)>, now: i64) -> Seq<(Seq<char>, i64)> {
    if dedup.len() > DEDUP_CLEANUP_THRESHOLD {
        select_pairs(dedup, stale_flags(dedup, now), false)
    } else {
        dedup
    }
}

/// The delay of a message: its own, else the queue's.
pub open spec fn delay_of(q: QueueDataView, m: MessageView) -> u32 {
    match m.delay_seconds {
        Some(d) => d,
        None => q.config.delay_seconds,
    }
}

/// `q` with `m` appended to the available messages, visible after its delay.
pub open spec fn enqueue(q: QueueDataView, m: MessageView, now: i64) -> QueueDataView {
    QueueDataView { available: q.available.push((m, after_seconds(now, delay_of(q, m)))), ..q }
}

/// `q` as accessed at `now`.
pub open spec fn touched(q: QueueDataView, now: i64) -> QueueDataView {
    QueueDataView { last_access: now, ..q }
}

/// Sending `m` to `q` at `now`: the queue and the message as stored, or
/// `None` when a FIFO queue gets no deduplication ID (the queue is then only
/// touched). A duplicate within five minutes is answered but not stored.
pub open spec fn send_to_queue(q0: QueueDataView, m: MessageView, now: i64) -> Option<(QueueDataView, MessageView)> {
    let q = touched(q0, now);
    if q.config.queue_type == QueueType::SqsFifo {
        match dedup_id_of(q.config, m) {
            None => None,
            Some(d) => if is_duplicate(q, d, now) {
                Some((q, m))
            } else {
                let m2 = MessageView { sequence_number: Some(q.next_sequence_number), ..m };
                let q2 = QueueDataView {
                    dedup: cleaned_dedup(pairs_insert(q.dedup, d, now), now),
                    next_sequence_number: q.next_sequence_number.wrapping_add(1),
                    ..q
                };
                Some((enqueue(q2, m2, now), m2))
            },
        }
    } else {
        Some((enqueue(q, m, now), m))
    }
}

/// The error a FIFO queue answers to a message without a deduplication ID.
pub open spec fn missing_dedup_error(e: Error) -> bool {
    e matches Error::Validation(ValidationError::InvalidParameter { name, reason }) && name@
        == "MessageDeduplicationId"@ && reason@
        == "FIFO queues require either MessageDeduplicationId or ContentBasedDeduplication"@
}

/// Drops the stale entries of the deduplication cache once it is large.
fn cleanup_deduplication_cache(queue: &mut QueueData, now: i64)
    requires
        time_in_range(now),
    ensures
        final(queue)@ == (QueueDataView { dedup: cleaned_dedup(old(queue)@.dedup, now), ..old(queue)@ }),
{
    if queue.deduplication_cache.len() > DEDUP_CLEANUP_THRESHOLD {
        let cutoff = now - DEDUP_WINDOW_MS;
        let n = queue.deduplication_cache.len();
        let mut flags: Vec<bool> = Vec::new();
        let mut i: usize = 0;
        while i < n
            invariant
                n == queue.deduplication_cache.pairs().len(),
                cutoff == now - DEDUP_WINDOW_MS,
                i <= n,
                flags@ == stale_flags(queue.deduplication_cache.pairs(), now).take(i as int),
            decreases n - i,
        {
            let (_, t) = queue.deduplication_cache.entry(i);
            flags.push(!(*t > cutoff));
            assert(flags@ =~= stale_flags(queue.deduplication_cache.pairs(), now).take(i + 1));
            i = i + 1;
        }
        assert(flags@ =~= stale_flags(queue.deduplication_cache.pairs(), now));
        let _stale = queue.deduplication_cache.split_off_flagged(&flags);
    }
}

impl InMemoryBackend {
    /// Stores `message` in `queue` (see `send_to_queue`).
    fn send_message_locked(queue: &mut QueueData, message: Message, now: i64) -> (r: Result<Message, Error>)
        requires
            time_in_range(now),
        ensures
            match send_to_queue(old(queue)@, message@, now) {
                Some((q, m)) => final(queue)@ == q && (r matches Ok(x) && x@ == m),
                None => final(queue)@ == touched(old(queue)@, now) && (r matches Err(e) && missing_dedup_error(e)),
            },
    {
        let mut message = message;
        queue.last_access = now;
        if queue.config.queue_type == QueueType::SqsFifo {
            let dedup_id = match &message.deduplication_id {
                Some(id) => id.clone(),
                None => {
                    if queue.config.content_based_deduplication {
                        generate_content_dedup_id(&message)
                    } else {
                        return Err(
                            Error::Validation(
                                ValidationError::InvalidParameter {
                                    name: to_owned_string("MessageDeduplicationId"),
                                    reason: to_owned_string(
                                        "FIFO queues require either MessageDeduplicationId or ContentBasedDeduplication",
                                    ),
                                },
                            ),
                        );
                    }
                },
            };
            let cutoff = now - DEDUP_WINDOW_MS;
            match queue.deduplication_cache.get(dedup_id.as_str()) {
                Some(t) => {
                    if *t > cutoff {
                        return Ok(message);
                    }
                },
                None => {},
            }
            queue.deduplication_cache.insert(dedup_id, now);
            message.sequence_number = Some(queue.next_sequence_number);
            queue.next_sequence_number = queue.next_sequence_number.wrapping_add(1);
            cleanup_deduplication_cache(queue, now);
        }
        let delay = match message.delay_seconds {
            Some(d) => d,
            None => queue.config.delay_seconds,
        };
        let visible_at = now + (delay as i64) * 1000;
        let ghost before = queue.available_messages@;
        let stored = StoredMessage { message: message.clone(), visible_at };
        queue.available_messages.push_back(stored);
        assert(stored_views(queue.available_messages@) =~= stored_views(before).push((message@, visible_at)));
        Ok(message)
    }
}

// ---------------------------------------------------------------------------
// Eviction
// ---------------------------------------------------------------------------

/// Queue `i` is the one LRU eviction takes from: the first of the queues with
/// available messages whose last access is the earliest.
pub open spec fn lru_victim(s: Seq<(Seq<char>, QueueDataView)>, i: int) -> bool {
    &&& 0 <= i < s.len()
    &&& s[i].1.available.len() > 0
    &&& forall|j: int|
        0 <= j < s.len() && s[j].1.available.len() > 0 ==> s[i].1.last_access <= #[trigger] s[j].1.last_access
    &&& forall|j: int|
        0 <= j < i && s[j].1.available.len() > 0 ==> s[i].1.last_access < #[trigger] s[j].1.last_access
}

/// The send time of available message `l` of queue `j`.
pub open spec fn sent_at(s: Seq<(Seq<char>, QueueDataView)>, j: int, l: int) -> i64 {
    s[j].1.available[l].0.sent_timestamp
}

/// Message `c` is the first of the messages of `a` before `m` sent the
/// earliest.
pub open spec fn first_oldest(a: Seq<(MessageView, i64)>, m: int, c: int) -> bool {
    &&& 0 <= c < m <= a.len()
    &&& forall|l: int| 0 <= l < m ==> a[c].0.sent_timestamp <= #[trigger] a[l].0.sent_timestamp
    &&& forall|l: int| 0 <= l < c ==> a[c].0.sent_timestamp < #[trigger] a[l].0.sent_timestamp
}

/// Available message `k` of queue `i` is, among the first `n` queues, the
/// one sent the earliest: the first such in the order of the queues and,
/// within its queue, in the order of the available messages.
pub open spec fn oldest_within(s: Seq<(Seq<char>, QueueDataView)>, n: int, i: int, k: int) -> bool {
    &&& 0 <= i < n <= s.len()
    &&& 0 <= k < s[i].1.available.len()
    &&& forall|j: int, l: int|
        0 <= j < n && 0 <= l < s[j].1.available.len() ==> sent_at(s, i, k) <= #[trigger] sent_at(s, j, l)
    &&& forall|j: int, l: int|
        0 <= j < n && 0 <= l < s[j].1.available.len() && (j < i || (j == i && l < k)) ==> sent_at(s, i, k)
            < #[trigger] sent_at(s, j, l)
}

/// Available message `k` of queue `i` is the one FIFO eviction drops: the
/// oldest message over all queues.
pub open spec fn fifo_victim(s: Seq<(Seq<char>, QueueDataView)>, i: int, k: int) -> bool {
    oldest_within(s, s.len() as int, i, k)
}

/// The queues after available message `k` of queue `i` is dropped.
pub open spec fn drop_at(s: Seq<(Seq<char>, QueueDataView)>, i: int, k: int) -> Seq<(Seq<char>, QueueDataView)> {
    put_queue(s, s[i].0, QueueDataView { available: s[i].1.available.remove(k), ..s[i].1 })
}

/// The queues after one eviction under `policy`: LRU drops the oldest
/// message of its queue, FIFO the oldest message of all; when no queue has
/// an available message nothing is dropped.
pub open spec fn evicted(s: Seq<(Seq<char>, QueueDataView)>, policy: EvictionPolicy) -> Seq<(Seq<char>, QueueDataView)> {
    match policy {
        EvictionPolicy::Lru => if exists|i: int| lru_victim(s, i) {
            drop_at(s, choose|i: int| lru_victim(s, i), 0)
        } else {
            s
        },
        EvictionPolicy::Fifo => if exists|i: int, k: int| fifo_victim(s, i, k) {
            let (i, k) = choose|i: int, k: int| fifo_victim(s, i, k);
            drop_at(s, i, k)
        } else {
            s
        },
        EvictionPolicy::RejectNew => s,
    }
}

/// The counts of a prefix of the queues never exceed those of a longer one.
proof fn lemma_total_messages_mono(s: Seq<(Seq<char>, QueueDataView)>, i: int, j: int)
    requires
        0 <= i <= j <= s.len(),
    ensures
        total_messages(s.take(i)) <= total_messages(s.take(j)),
    decreases j - i,
{
    if i < j {
        lemma_total_messages_mono(s, i, j - 1);
        assert(s.take(j).drop_last() =~= s.take(j - 1));
    }
}

/// Adding queue `i`, whose first oldest message is `c`, to the first `i`
/// queues: the oldest message of them all is that of the new queue when it
/// was sent strictly before the oldest so far (or there was none), else it
/// stays.
pub(crate) proof fn lemma_oldest_within_step(
    s: Seq<(Seq<char>, QueueDataView)>,
    i: int,
    best: Option<(int, int)>,
    c: int,
    better: bool,
)
    requires
        0 <= i < s.len(),
        first_oldest(s[i].1.available, s[i].1.available.len() as int, c),
        match best {
            Some((b, d)) => oldest_within(s, i, b, d),
            None => forall|j: int| 0 <= j < i ==> #[trigger] s[j].1.available.len() == 0,
        },
        better == match best {
            Some((b, d)) => sent_at(s, i, c) < sent_at(s, b, d),
            None => true,
        },
    ensures
        better ==> oldest_within(s, i + 1, i, c),
        !better ==> (best matches Some((b, d)) && oldest_within(s, i + 1, b, d)),
{
    let a = s[i].1.available;
    if better {
        assert forall|j: int, l: int| 0 <= j < i + 1 && 0 <= l < s[j].1.available.len() implies sent_at(s, i, c)
            <= #[trigger] sent_at(s, j, l) by {
            if j == i {
                assert(a[c].0.sent_timestamp <= a[l].0.sent_timestamp);
            } else {
                match best {
                    Some((b, d)) => {
                        assert(sent_at(s, b, d) <= sent_at(s, j, l));
                    },
                    None => {
                        assert(s[j].1.available.len() == 0);
                    },
                }
            }
        }
        assert forall|j: int, l: int|
            0 <= j < i + 1 && 0 <= l < s[j].1.available.len() && (j < i || (j == i && l < c)) implies sent_at(s, i, c)
            < #[trigger] sent_at(s, j, l) by {
            if j == i {
                assert(a[c].0.sent_timestamp < a[l].0.sent_timestamp);
            } else {
                match best {
                    Some((b, d)) => {
                        assert(sent_at(s, b, d) <= sent_at(s, j, l));
                    },
                    None => {
                        assert(s[j].1.available.len() == 0);
                    },
                }
            }
        }
    } else {
        let (b, d) = best.unwrap();
        assert forall|j: int, l: int| 0 <= j < i + 1 && 0 <= l < s[j].1.available.len() implies sent_at(s, b, d)
            <= #[trigger] sent_at(s, j, l) by {
            if j == i {
                assert(a[c].0.sent_timestamp <= a[l].0.sent_timestamp);
            }
        }
    }
}

/// A queue with no available message leaves the oldest message as it was.
pub(crate) proof fn lemma_oldest_within_skip(s: Seq<(Seq<char>, QueueDataView)>, i: int, best: Option<(int, int)>)
    requires
        0 <= i < s.len(),
        s[i].1.available.len() == 0,
        match best {
            Some((b, d)) => oldest_within(s, i, b, d),
            None => forall|j: int| 0 <= j < i ==> #[trigger] s[j].1.available.len() == 0,
        },
    ensures
        match best {
            Some((b, d)) => oldest_within(s, i + 1, b, d),
            None => forall|j: int| 0 <= j < i + 1 ==> #[trigger] s[j].1.available.len() == 0,
        },
{
}

/// Some message of the first `m` of `a` is the first oldest of them.
pub(crate) proof fn lemma_first_oldest_exists(a: Seq<(MessageView, i64)>, m: int)
    requires
        0 < m <= a.len(),
    ensures
        exists|c: int| first_oldest(a, m, c),
    decreases m,
{
    if m == 1 {
        assert(first_oldest(a, 1, 0));
    } else {
        let m1 = m - 1;
        lemma_first_oldest_exists(a, m1);
        let c = choose|c: int| first_oldest(a, m1, c);
        if a[m - 1].0.sent_timestamp < a[c].0.sent_timestamp {
            assert(first_oldest(a, m, m - 1));
        } else {
            assert(first_oldest(a, m, c));
        }
    }
}

/// When one of the first `n` queues has an available message, one message
/// is the oldest of them.
pub(crate) proof fn lemma_oldest_within_exists(s: Seq<(Seq<char>, QueueDataView)>, n: int)
    requires
        0 <= n <= s.len(),
        exists|j: int| 0 <= j < n && s[j].1.available.len() > 0,
    ensures
        exists|i: int, k: int| oldest_within(s, n, i, k),
    decreases n,
{
    let i = n - 1;
    let best: Option<(int, int)> = if exists|j: int| 0 <= j < i && s[j].1.available.len() > 0 {
        lemma_oldest_within_exists(s, i);
        let (b, d) = choose|b: int, d: int| oldest_within(s, i, b, d);
        Some((b, d))
    } else {
        None
    };
    let a = s[i].1.available;
    if a.len() > 0 {
        let len = a.len() as int;
        lemma_first_oldest_exists(a, len);
        let c = choose|c: int| first_oldest(a, len, c);
        let better = match best {
            Some((b, d)) => sent_at(s, i, c) < sent_at(s, b, d),
            None => true,
        };
        lemma_oldest_within_step(s, i, best, c, better);
        if better {
            assert(oldest_within(s, n, i, c));
        } else {
            let (b, d) = best.unwrap();
            assert(oldest_within(s, n, b, d));
        }
    } else {
        lemma_oldest_within_skip(s, i, best);
        let (b, d) = best.unwrap();
        assert(oldest_within(s, n, b, d));
    }
}

/// There is one FIFO victim at most.
pub(crate) proof fn lemma_fifo_victim_unique(s: Seq<(Seq<char>, QueueDataView)>, i: int, k: int, x: int, y: int)
    requires
        fifo_victim(s, i, k),
        fifo_victim(s, x, y),
    ensures
        i == x && k == y,
{
    assert(sent_at(s, i, k) <= sent_at(s, x, y));
    assert(sent_at(s, x, y) <= sent_at(s, i, k));
}

/// The storage error of a full store that refuses new messages.
pub open spec fn storage_full_error(e: Error) -> bool {
    e matches Error::StorageError(m) && m@ == "Message storage is full, rejecting new messages"@
}

impl InMemoryBackend {
    /// Whether the queues hold at least `max_messages` messages.
    fn is_full(&self) -> (r: bool)
        ensures
            r == (total_messages(self@.queues) >= self@.max_messages),
    {
        let max = self.config.max_messages as u128;
        if max == 0 {
            return true;
        }
        let n = self.queues.len();
        let mut total: u128 = 0;
        let mut i: usize = 0;
        while i < n
            invariant
                n == self@.queues.len(),
                max == self@.max_messages,
                i <= n,
                total == total_messages(self@.queues.take(i as int)),
                total < max,
            decreases n - i,
        {
            let (_, q) = self.queues.entry(i);
            assert(self@.queues.take(i + 1).drop_last() =~= self@.queues.take(i as int));
            let count = q.available_messages.len() as u128 + q.in_flight_messages.len() as u128;
            total = total + count;
            if total >= max {
                proof {
                    lemma_total_messages_mono(self@.queues, i + 1, n as int);
                    assert(self@.queues.take(n as int) =~= self@.queues);
                }
                return true;
            }
            i = i + 1;
        }
        assert(self@.queues.take(n as int) =~= self@.queues);
        false
    }

    /// Drops available message `k` of queue `i`.
    fn drop_at(&mut self, i: usize, k: usize)
        requires
            i < old(self)@.queues.len(),
            k < old(self)@.queues[i as int].1.available.len(),
        ensures
            final(self)@ == (BackendView { queues: drop_at(old(self)@.queues, i as int, k as int), ..old(self)@ }),
    {
        let (key, _) = self.queues.entry(i);
        let key = key.clone();
        match self.queues.take(key.as_str()) {
            Some(q) => {
                let mut q = q;
                let ghost before = q.available_messages@;
                let _ = q.available_messages.remove(k);
                assert(stored_views(q.available_messages@) =~= stored_views(before).remove(k as int));
                self.queues.insert(key, q);
            },
            None => {},
        }
    }

    /// Evicts one message under the LRU policy.
    fn evict_lru(&mut self)
        ensures
            final(self)@ == (BackendView { queues: evicted(old(self)@.queues, EvictionPolicy::Lru), ..old(self)@ }),
    {
        let ghost s = self@.queues;
        let n = self.queues.len();
        let mut best: Option<usize> = None;
        let mut i: usize = 0;
        while i < n
            invariant
                n == s.len(),
                s == self@.queues,
                i <= n,
                match best {
                    Some(b) => lru_victim(s.take(i as int), b as int),
                    None => forall|j: int| 0 <= j < i ==> #[trigger] s[j].1.available.len() == 0,
                },
            decreases n - i,
        {
            let (_, q) = self.queues.entry(i);
            let ghost t = s.take(i + 1);
            if q.available_messages.len() > 0 {
                let better = match best {
                    Some(b) => {
                        let (_, qb) = self.queues.entry(b);
                        q.last_access < qb.last_access
                    },
                    None => true,
                };
                if better {
                    best = Some(i);
                }
            }
            proof {
                match best {
                    Some(b) => {
                        assert forall|j: int| 0 <= j < t.len() && t[j].1.available.len() > 0 implies t[b as int].1.last_access
                            <= #[trigger] t[j].1.last_access by {
                            assert(t[j] == s[j]);
                            if j < i {
                                assert(s.take(i as int)[j] == s[j]);
                            }
                        }
                        assert forall|j: int| 0 <= j < b && t[j].1.available.len() > 0 implies t[b as int].1.last_access
                            < #[trigger] t[j].1.last_access by {
                            assert(t[j] == s[j]);
                            assert(s.take(i as int)[j] == s[j]);
                        }
                    },
                    None => {},
                }
            }
            i = i + 1;
        }
        assert(s.take(n as int) =~= s);
        match best {
            Some(b) => {
                proof {
                    assert(lru_victim(s, b as int));
                    let c = choose|c: int| lru_victim(s, c);
                    if c < b {
                        assert(s[b as int].1.last_access < s[c].1.last_access);
                    }
                    if b < c {
                        assert(s[c].1.last_access < s[b as int].1.last_access);
                    }
                    assert(c == b);
                }
                self.drop_at(b, 0);
            },
            None => {},
        }
    }

    /// Evicts one message under the FIFO policy.
    fn evict_fifo(&mut self)
        ensures
            final(self)@ == (BackendView { queues: evicted(old(self)@.queues, EvictionPolicy::Fifo), ..old(self)@ }),
    {
        let ghost s = self@.queues;
        let n = self.queues.len();
        let mut best: Option<(usize, usize)> = None;
        let mut best_sent: i64 = 0;
        let mut i: usize = 0;
        while i < n
            invariant
                n == s.len(),
                s == self@.queues,
                i <= n,
                match best {
                    Some((b, c)) => oldest_within(s, i as int, b as int, c as int) && best_sent == sent_at(
                        s,
                        b as int,
                        c as int,
                    ),
                    None => forall|j: int| 0 <= j < i ==> #[trigger] s[j].1.available.len() == 0,
                },
            decreases n - i,
        {
            let (_, q) = self.queues.entry(i);
            let ghost a = s[i as int].1.available;
            assert(stored_views(q.available_messages@) == a);
            let m = q.available_messages.len();
            if m > 0 {
                let mut c: usize = 0;
                let mut l: usize = 1;
                while l < m
                    invariant
                        1 <= l <= m,
                        m == a.len(),
                        stored_views(q.available_messages@) == a,
                        first_oldest(a, l as int, c as int),
                    decreases m - l,
                {
                    assert(a[l as int].0 == q.available_messages@[l as int].message@);
                    assert(a[c as int].0 == q.available_messages@[c as int].message@);
                    if q.available_messages[l].message.sent_timestamp < q.available_messages[c].message.sent_timestamp {
                        c = l;
                    }
                    l = l + 1;
                }
                assert(a[c as int].0 == q.available_messages@[c as int].message@);
                let t = q.available_messages[c].message.sent_timestamp;
                assert(t == sent_at(s, i as int, c as int));
                let better = match best {
                    Some(_) => t < best_sent,
                    None => true,
                };
                proof {
                    let g: Option<(int, int)> = match best {
                        Some((b, d)) => Some((b as int, d as int)),
                        None => None,
                    };
                    lemma_oldest_within_step(s, i as int, g, c as int, better);
                }
                if better {
                    best = Some((i, c));
                    best_sent = t;
                }
            } else {
                proof {
                    let g: Option<(int, int)> = match best {
                        Some((b, d)) => Some((b as int, d as int)),
                        None => None,
                    };
                    lemma_oldest_within_skip(s, i as int, g);
                }
            }
            i = i + 1;
        }
        match best {
            Some((b, c)) => {
                proof {
                    assert(fifo_victim(s, b as int, c as int));
                    let (x, y) = choose|x: int, y: int| fifo_victim(s, x, y);
                    lemma_fifo_victim_unique(s, b as int, c as int, x, y);
                }
                self.drop_at(b, c);
            },
            None => {
                assert forall|x: int, y: int| !fifo_victim(s, x, y) by {
                    if 0 <= x < s.len() {
                        assert(s[x].1.available.len() == 0);
                    }
                }
            },
        }
    }

    /// Makes room before a send: nothing while the store holds fewer than
    /// `max_messages` messages; else one eviction, or the refusal of the
    /// message under `RejectNew`.
    fn maybe_evict(&mut self) -> (r: Result<(), Error>)
        ensures
            total_messages(old(self)@.queues) < old(self)@.max_messages ==> r is Ok && final(self)@ == old(self)@,
            total_messages(old(self)@.queues) >= old(self)@.max_messages ==> if old(self)@.eviction_policy
                == EvictionPolicy::RejectNew {
                (r matches Err(e) && storage_full_error(e)) && final(self)@ == old(self)@
            } else {
                r is Ok && final(self)@ == (BackendView {
                    queues: evicted(old(self)@.queues, old(self)@.eviction_policy),
                    ..old(self)@
                })
            },
    {
        if !self.is_full() {
            return Ok(());
        }
        match self.config.eviction_policy {
            EvictionPolicy::RejectNew => Err(
                Error::StorageError(to_owned_string("Message storage is full, rejecting new messages")),
            ),
            EvictionPolicy::Lru => {
                self.evict_lru();
                Ok(())
            },
            EvictionPolicy::Fifo => {
                self.evict_fifo();
                Ok(())
            },
        }
    }
}

// ---------------------------------------------------------------------------
// The operations on messages
// ---------------------------------------------------------------------------

/// The queues once a send has made room: `None` when the store is full and
/// refuses new messages.
pub open spec fn admitted(v: BackendView) -> Option<Seq<(Seq<char>, QueueDataView)>> {
    if total_messages(v.queues) < v.max_messages {
        Some(v.queues)
    } else if v.eviction_policy == EvictionPolicy::RejectNew {
        None
    } else {
        Some(evicted(v.queues, v.eviction_policy))
    }
}

/// Sending the messages `ms` to `q` one after the other, stopping at the
/// first that fails: the queue, and the stored messages when none failed.
pub open spec fn send_all(q: QueueDataView, ms: Seq<MessageView>, now: i64) -> (QueueDataView, Option<Seq<MessageView>>)
    decreases ms.len(),
{
    if ms.len() == 0 {
        (q, Some(Seq::empty()))
    } else {
        let (q1, r1) = send_all(q, ms.drop_last(), now);
        match r1 {
            None => (q1, None),
            Some(out) => match send_to_queue(q1, ms.last(), now) {
                Some((q2, m2)) => (q2, Some(out.push(m2))),
                None => (touched(q1, now), None),
            },
        }
    }
}

pub open spec fn message_views(v: Seq<Message>) -> Seq<MessageView> {
    v.map_values(|m: Message| m@)
}

/// Which in-flight messages have become visible again.
pub open spec fn expired_flags(s: Seq<(Seq<char>, (MessageView, i64))>, now: i64) -> Seq<bool> {
    s.map_values(|e: (Seq<char>, (MessageView, i64))| e.1.1 <= now)
}

/// `q` with the in-flight messages whose visibility ended at `now` put back
/// at the end of the available ones, visible at once.
pub open spec fn requeue_expired(q: QueueDataView, now: i64) -> QueueDataView {
    let flags = expired_flags(q.in_flight, now);
    let back = select_pairs(q.in_flight, flags, true);
    QueueDataView {
        available: q.available + back.map_values(|e: (Seq<char>, (MessageView, i64))| (e.1.0, now)),
        in_flight: select_pairs(q.in_flight, flags, false),
        ..q
    }
}

/// Taking the visible messages from the front of `avail`, at most `left` of
/// them (none when `left` is zero): gives the messages that stay and those
/// taken, both in order.
pub open spec fn take_visible(avail: Seq<(MessageView, i64)>, now: i64, left: int) -> (Seq<(MessageView, i64)>, Seq<MessageView>)
    decreases avail.len(),
{
    if avail.len() == 0 || left <= 0 {
        (avail, Seq::empty())
    } else if avail[0].1 <= now {
        let (r, t) = take_visible(avail.drop_first(), now, left - 1);
        (r, seq![avail[0].0] + t)
    } else {
        let (r, t) = take_visible(avail.drop_first(), now, left);
        (seq![avail[0]] + r, t)
    }
}

/// A message as a receive hands it out: received once more.
pub open spec fn bumped(m: MessageView) -> MessageView {
    MessageView { receive_count: m.receive_count.wrapping_add(1), ..m }
}

/// A received message whose count has passed the queue's maximum receive
/// count is moved to the dead-letter queue instead of handed out.
pub open spec fn goes_to_dlq(c: QueueConfigView, m: MessageView) -> bool {
    match c.dlq_config {
        Some(d) => m.receive_count > d.1,
        None => false,
    }
}

/// The dead-letter queue of a queue's configuration.
pub open spec fn dlq_target(c: QueueConfigView) -> Seq<char> {
    match c.dlq_config {
        Some(d) => d.0,
        None => Seq::empty(),
    }
}

/// A message as the dead-letter queue `target` gets it at `now`: sent
/// afresh, never received.
pub open spec fn dead_letter(m: MessageView, target: Seq<char>, now: i64) -> MessageView {
    MessageView { sent_timestamp: now, receive_count: 0, queue_id: target, ..m }
}

/// Sending each of `ms` to `q` in turn at `now`; a message that the queue
/// refuses (a FIFO queue without a deduplication ID for it) is left out.
pub open spec fn send_each(q: QueueDataView, ms: Seq<MessageView>, now: i64) -> QueueDataView
    decreases ms.len(),
{
    if ms.len() == 0 {
        q
    } else {
        let q1 = send_each(q, ms.drop_last(), now);
        match send_to_queue(q1, ms.last(), now) {
            Some((q2, _)) => q2,
            None => touched(q1, now),
        }
    }
}

/// The queues after the dead letters of a receive were sent to `target`;
/// when no queue is named `target`, they are lost.
pub open spec fn with_dead_letters(
    s: Seq<(Seq<char>, QueueDataView)>,
    target: Seq<char>,
    dead: Seq<MessageView>,
    now: i64,
) -> Seq<(Seq<char>, QueueDataView)> {
    if dead.len() == 0 {
        s
    } else {
        match queue_at(s, target) {
            Some(t) => put_queue(s, target, send_each(t, dead, now)),
            None => s,
        }
    }
}

/// Handing out the taken messages in order: the in-flight pairs, the
/// received messages with their receipt handles, the next serial, and the
/// messages for the dead-letter queue.
pub open spec fn deliver(
    q: QueueDataView,
    queue_id: Seq<char>,
    taken: Seq<MessageView>,
    serial: u64,
    now: i64,
    vt: u32,
) -> (Seq<(Seq<char>, (MessageView, i64))>, Seq<(MessageView, Seq<char>)>, u64, Seq<MessageView>)
    decreases taken.len(),
{
    if taken.len() == 0 {
        (q.in_flight, Seq::empty(), serial, Seq::empty())
    } else {
        let (inf, rec, s, dead) = deliver(q, queue_id, taken.drop_last(), serial, now, vt);
        let m = bumped(taken.last());
        if goes_to_dlq(q.config, m) {
            (inf, rec, s, dead.push(dead_letter(m, dlq_target(q.config), now)))
        } else {
            let h = receipt_text(queue_id, m.id, s as nat);
            (pairs_insert(inf, h, (m, after_seconds(now, vt))), rec.push((m, h)), s.wrapping_add(1), dead)
        }
    }
}

/// The smaller of a count and ten.
pub open spec fn capped(n: u32) -> u32 {
    if n < 10 {
        n
    } else {
        10
    }
}

/// A receive from `q0` at `now`: the queue after it, the received messages
/// with their handles, the next receipt serial, and the messages for the
/// dead-letter queue.
pub open spec fn receive_from(
    q0: QueueDataView,
    queue_id: Seq<char>,
    max_messages: u32,
    visibility_timeout: Option<u32>,
    serial: u64,
    now: i64,
) -> (QueueDataView, Seq<(MessageView, Seq<char>)>, u64, Seq<MessageView>) {
    let q1 = requeue_expired(touched(q0, now), now);
    let vt = match visibility_timeout {
        Some(t) => t,
        None => q1.config.visibility_timeout,
    };
    let (rem, taken) = take_visible(q1.available, now, capped(max_messages) as int);
    let (inf, rec, s, dead) = deliver(q1, queue_id, taken, serial, now, vt);
    (QueueDataView { available: rem, in_flight: inf, ..q1 }, rec, s, dead)
}

pub open spec fn received_views(v: Seq<ReceivedMessage>) -> Seq<(MessageView, Seq<char>)> {
    v.map_values(|r: ReceivedMessage| r@)
}

/// Puts the expired in-flight messages of `q` back; gives how many.
fn requeue_expired_exec(q: &mut QueueData, now: i64) -> (count: u64)
    ensures
        final(q)@ == requeue_expired(old(q)@, now),
        count == select_pairs(old(q)@.in_flight, expired_flags(old(q)@.in_flight, now), true).len(),
{
    let ghost q0 = q@;
    let n = q.in_flight_messages.len();
    let mut flags: Vec<bool> = Vec::new();
    let mut i: usize = 0;
    while i < n
        invariant
            n == q.in_flight_messages.pairs().len(),
            q@ == q0,
            i <= n,
            flags@ == expired_flags(q0.in_flight, now).take(i as int),
        decreases n - i,
    {
        let (_, m) = q.in_flight_messages.entry(i);
        flags.push(m.visibility_expires_at <= now);
        assert(flags@ =~= expired_flags(q0.in_flight, now).take(i + 1));
        i = i + 1;
    }
    assert(flags@ =~= expired_flags(q0.in_flight, now));
    let back = q.in_flight_messages.split_off_flagged(&flags);
    let ghost back_view = crate::dict::entries_view(back@);
    let ghost base = stored_views(q.available_messages@);
    let mut count: u64 = 0;
    let m = back.len();
    for e in it: back
        invariant
            m == back_view.len(),
            back_view == crate::dict::entries_view(it.seq()),
            count == it.index(),
            stored_views(q.available_messages@) == base + back_view.take(it.index() as int).map_values(
                |e: (Seq<char>, (MessageView, i64))| (e.1.0, now),
            ),
            q.in_flight_messages.pairs() == select_pairs(q0.in_flight, flags@, false),
            q.config@ == q0.config,
            q.deduplication_cache.pairs() == q0.dedup,
            q.next_sequence_number == q0.next_sequence_number,
            q.last_access == q0.last_access,
    {
        let ghost k = it.index();
        let ghost before = stored_views(q.available_messages@);
        assert(back_view[k] == (e.0@, e.1@));
        let (_, f) = e;
        let ghost fm = f.message@;
        q.available_messages.push_back(StoredMessage { message: f.message, visible_at: now });
        assert(stored_views(q.available_messages@) =~= before.push((fm, now)));
        assert(back_view.take(k + 1) =~= back_view.take(k).push(back_view[k]));
        assert(back_view.take(k + 1).map_values(|e: (Seq<char>, (MessageView, i64))| (e.1.0, now)) =~= back_view.take(
            k,
        ).map_values(|e: (Seq<char>, (MessageView, i64))| (e.1.0, now)).push((fm, now)));
        assert(stored_views(q.available_messages@) =~= base + back_view.take(k + 1).map_values(
            |e: (Seq<char>, (MessageView, i64))| (e.1.0, now),
        ));
        count = count + 1;
    }
    assert(back_view.take(m as int) =~= back_view);
    count
}



/// `deliver` reads of the queue only its configuration and in-flight pairs.
proof fn lemma_deliver_config(
    a: QueueDataView,
    b: QueueDataView,
    queue_id: Seq<char>,
    taken: Seq<MessageView>,
    serial: u64,
    now: i64,
    vt: u32,
)
    requires
        a.config == b.config,
        a.in_flight == b.in_flight,
    ensures
        deliver(a, queue_id, taken, serial, now, vt) == deliver(b, queue_id, taken, serial, now, vt),
    decreases taken.len(),
{
    if taken.len() > 0 {
        lemma_deliver_config(a, b, queue_id, taken.drop_last(), serial, now, vt);
    }
}

/// Takes the visible messages from the front of `avail` (see `take_visible`).
fn take_visible_exec(avail_v: VecDeque<StoredMessage>, now: i64, max: u32) -> (r: (VecDeque<StoredMessage>, Vec<Message>))
    requires
        max <= 10,
    ensures
        take_visible(stored_views(avail_v@), now, max as int) == (stored_views(r.0@), message_views(r.1@)),
{
    let ghost avail = stored_views(avail_v@);
    let mut rest_v = avail_v;
    let mut kept: VecDeque<StoredMessage> = VecDeque::new();
    let mut left: i64 = max as i64;
    let mut done = max == 0;
    let mut taken: Vec<Message> = Vec::new();
    let ghost mut k: int = 0;
    assert(avail.skip(0) =~= avail);
    assert(stored_views(kept@) =~= Seq::<(MessageView, i64)>::empty());
    assert(message_views(taken@) =~= Seq::<MessageView>::empty());
    while rest_v.len() > 0
        invariant
            0 <= k <= avail.len(),
            stored_views(rest_v@) == avail.skip(k),
            left <= 10,
            0 <= left,
            done || left > 0,
            take_visible(avail, now, max as int) == (
                stored_views(kept@) + if done {
                    avail.skip(k)
                } else {
                    take_visible(avail.skip(k), now, left as int).0
                },
                message_views(taken@) + if done {
                    Seq::<MessageView>::empty()
                } else {
                    take_visible(avail.skip(k), now, left as int).1
                },
            ),
        decreases rest_v@.len(),
    {
        let ghost rest = avail.skip(k);
        let ghost before = rest_v@;
        let sm = match rest_v.pop_front() {
            Some(sm) => sm,
            None => {
                return (kept, taken);
            },
        };
        assert(stored_views(rest_v@) =~= stored_views(before).drop_first());
        assert(rest.drop_first() =~= avail.skip(k + 1));
        assert(rest[0] == sm@);
        let ghost kv = stored_views(kept@);
        let ghost tk = message_views(taken@);
        if done {
            kept.push_back(sm);
            assert(stored_views(kept@) =~= kv.push(rest[0]));
            assert(stored_views(kept@) + avail.skip(k + 1) =~= kv + rest);
        } else if sm.visible_at <= now {
            let ghost t = take_visible(avail.skip(k + 1), now, left - 1);
            taken.push(sm.message);
            assert(message_views(taken@) =~= tk.push(rest[0].0));
            left = left - 1;
            if left <= 0 {
                done = true;
                assert(message_views(taken@) + Seq::<MessageView>::empty() =~= tk + seq![rest[0].0]);
            } else {
                assert(message_views(taken@) + t.1 =~= tk + (seq![rest[0].0] + t.1));
            }
        } else {
            let ghost t = take_visible(avail.skip(k + 1), now, left as int);
            kept.push_back(sm);
            assert(stored_views(kept@) =~= kv.push(rest[0]));
            assert(stored_views(kept@) + t.0 =~= kv + (seq![rest[0]] + t.0));
        }
        proof {
            k = k + 1;
        }
    }
    proof {
        assert(avail.skip(k).len() == 0);
        assert(avail.skip(k) =~= Seq::<(MessageView, i64)>::empty());
        assert(stored_views(kept@) + Seq::<(MessageView, i64)>::empty() =~= stored_views(kept@));
        assert(message_views(taken@) + Seq::<MessageView>::empty() =~= message_views(taken@));
    }
    (kept, taken)
}

impl InMemoryBackend {
    /// Hands out the taken messages of queue `queue_id` (see `deliver`);
    /// gives the received messages and those for the dead-letter queue.
    fn deliver_exec(&mut self, q: &mut QueueData, queue_id: &str, taken: Vec<Message>, now: i64, vt: u32) -> (r: (
        Vec<ReceivedMessage>,
        Vec<Message>,
    ))
        requires
            time_in_range(now),
        ensures
            (final(q)@.in_flight, received_views(r.0@), final(self)@.receipt_serial, message_views(r.1@)) == deliver(
                old(q)@,
                queue_id@,
                message_views(taken@),
                old(self)@.receipt_serial,
                now,
                vt,
            ),
            final(q)@ == (QueueDataView { in_flight: final(q)@.in_flight, ..old(q)@ }),
            final(self)@ == (BackendView { receipt_serial: final(self)@.receipt_serial, ..old(self)@ }),
    {
        let ghost q1 = q@;
        let ghost taken_view = message_views(taken@);
        let ghost serial0 = self.receipt_serial;
        let mut received: Vec<ReceivedMessage> = Vec::new();
        let mut dead: Vec<Message> = Vec::new();
        assert(taken_view.take(0) =~= Seq::<MessageView>::empty());
        assert(received_views(received@) =~= Seq::<(MessageView, Seq<char>)>::empty());
        assert(message_views(dead@) =~= Seq::<MessageView>::empty());
        for message in it: taken
            invariant
                taken_view == message_views(it.seq()),
                q@ == (QueueDataView { in_flight: q@.in_flight, ..q1 }),
                self@ == (BackendView { receipt_serial: self@.receipt_serial, ..old(self)@ }),
                (q@.in_flight, received_views(received@), self@.receipt_serial, message_views(dead@)) == deliver(
                    q1,
                    queue_id@,
                    taken_view.take(it.index() as int),
                    serial0,
                    now,
                    vt,
                ),
                time_in_range(now),
        {
            let ghost k = it.index();
            assert(taken_view.take(k + 1).drop_last() =~= taken_view.take(k));
            assert(taken_view.take(k + 1).last() == message@);
            let mut message = message;
            message.receive_count = message.receive_count.wrapping_add(1);
            let target = match &q.config.dlq_config {
                Some(d) => if message.receive_count > d.max_receive_count {
                    Some(d.target_queue_id.clone())
                } else {
                    None
                },
                None => None,
            };
            match target {
                Some(t) => {
                    let ghost before = dead@;
                    message.sent_timestamp = now;
                    message.receive_count = 0;
                    message.queue_id = t;
                    dead.push(message);
                    assert(message_views(dead@) =~= message_views(before).push(dead@.last()@));
                },
                None => {
                    let handle = generate_receipt_handle(queue_id, &message.id, self.receipt_serial);
                    let expires = now + (vt as i64) * 1000;
                    let ghost before = received@;
                    q.in_flight_messages.insert(
                        handle.clone(),
                        InFlightMessage { message: message.clone(), visibility_expires_at: expires },
                    );
                    received.push(ReceivedMessage { message, receipt_handle: handle });
                    assert(received_views(received@) =~= received_views(before).push(received@.last()@));
                    self.receipt_serial = self.receipt_serial.wrapping_add(1);
                },
            }
        }
        assert(taken_view.take(taken_view.len() as int) =~= taken_view);
        (received, dead)
    }

    /// Sends the dead letters of a receive to queue `target` (see
    /// `with_dead_letters`).
    fn send_dead_letters(&mut self, target: &str, dead: Vec<Message>, now: i64)
        requires
            time_in_range(now),
        ensures
            final(self)@ == (BackendView {
                queues: with_dead_letters(old(self)@.queues, target@, message_views(dead@), now),
                ..old(self)@
            }),
    {
        if dead.len() == 0 {
            return;
        }
        let t = match self.queues.take(target) {
            Some(t) => t,
            None => {
                return;
            },
        };
        let ghost t0 = t@;
        let ghost dv = message_views(dead@);
        let mut t = t;
        assert(dv.take(0) =~= Seq::<MessageView>::empty());
        for m in it: dead
            invariant
                dv == message_views(it.seq()),
                t@ == send_each(t0, dv.take(it.index() as int), now),
                time_in_range(now),
        {
            let ghost k = it.index();
            assert(dv.take(k + 1).drop_last() =~= dv.take(k));
            assert(dv.take(k + 1).last() == m@);
            let _ = Self::send_message_locked(&mut t, m, now);
        }
        assert(dv.take(dv.len() as int) =~= dv);
        self.queues.insert(to_owned_string(target), t);
    }
}

impl InMemoryBackend {
    /// Sends `message` to queue `queue_id` at `now`, after making room.
    pub fn send_message(&mut self, queue_id: &str, message: Message, now: i64) -> (r: Result<Message, Error>)
        requires
            time_in_range(now),
        ensures
            match admitted(old(self)@) {
                None => (r matches Err(e) && storage_full_error(e)) && final(self)@ == old(self)@,
                Some(s1) => match queue_at(s1, queue_id@) {
                    None => (r matches Err(Error::QueueNotFound(id)) && id@ == queue_id@) && final(self)@
                        == (BackendView { queues: s1, ..old(self)@ }),
                    Some(q) => match send_to_queue(q, message@, now) {
                        Some((q2, m)) => (r matches Ok(x) && x@ == m) && final(self)@ == (BackendView {
                            queues: put_queue(s1, queue_id@, q2),
                            ..old(self)@
                        }),
                        None => (r matches Err(e) && missing_dedup_error(e)) && final(self)@ == (BackendView {
                            queues: put_queue(s1, queue_id@, touched(q, now)),
                            ..old(self)@
                        }),
                    },
                },
            },
    {
        self.maybe_evict()?;
        let q = self.queues.take(queue_id);
        match q {
            Some(q) => {
                let mut q = q;
                let r = Self::send_message_locked(&mut q, message, now);
                self.queues.insert(to_owned_string(queue_id), q);
                r
            },
            None => Err(Error::QueueNotFound(to_owned_string(queue_id))),
        }
    }

    /// Sends `messages` to queue `queue_id` at `now`, after making room once;
    /// stops at the first message that fails.
    pub fn send_messages(&mut self, queue_id: &str, messages: Vec<Message>, now: i64) -> (r: Result<Vec<Message>, Error>)
        requires
            time_in_range(now),
        ensures
            match admitted(old(self)@) {
                None => (r matches Err(e) && storage_full_error(e)) && final(self)@ == old(self)@,
                Some(s1) => match queue_at(s1, queue_id@) {
                    None => (r matches Err(Error::QueueNotFound(id)) && id@ == queue_id@) && final(self)@
                        == (BackendView { queues: s1, ..old(self)@ }),
                    Some(q) => {
                        let (q2, out) = send_all(q, message_views(messages@), now);
                        &&& final(self)@ == (BackendView { queues: put_queue(s1, queue_id@, q2), ..old(self)@ })
                        &&& match out {
                            Some(ms) => r matches Ok(v) && message_views(v@) == ms,
                            None => r matches Err(e) && missing_dedup_error(e),
                        }
                    },
                },
            },
    {
        self.maybe_evict()?;
        let q = self.queues.take(queue_id);
        match q {
            Some(q) => {
                let mut q = q;
                let ghost q0 = q@;
                let ghost ms = message_views(messages@);
                let mut sent: Vec<Message> = Vec::new();
                let mut failure: Option<Error> = None;
                assert(ms.take(0) =~= Seq::<MessageView>::empty());
                assert(message_views(sent@) =~= Seq::<MessageView>::empty());
                for message in it: messages
                    invariant
                        ms == message_views(it.seq()),
                        time_in_range(now),
                        match failure {
                            None => send_all(q0, ms.take(it.index() as int), now) == (q@, Some(message_views(sent@))),
                            Some(e) => send_all(q0, ms.take(it.index() as int), now).0 == q@ && send_all(
                                q0,
                                ms.take(it.index() as int),
                                now,
                            ).1 is None && missing_dedup_error(e),
                        },
                {
                    let ghost k = it.index();
                    let ghost before = sent@;
                    assert(ms.take(k + 1).drop_last() =~= ms.take(k));
                    assert(ms.take(k + 1).last() == message@);
                    if failure.is_none() {
                        match Self::send_message_locked(&mut q, message, now) {
                            Ok(m) => {
                                sent.push(m);
                                assert(message_views(sent@) =~= message_views(before).push(m@));
                            },
                            Err(e) => {
                                failure = Some(e);
                            },
                        }
                    }
                }
                assert(ms.take(ms.len() as int) =~= ms);
                self.queues.insert(to_owned_string(queue_id), q);
                match failure {
                    None => Ok(sent),
                    Some(e) => Err(e),
                }
            },
            None => Err(Error::QueueNotFound(to_owned_string(queue_id))),
        }
    }

    /// Receives messages from queue `queue_id` at `now` (see `receive_from`).
    #[verifier::rlimit(50)]
    pub fn receive_messages(&mut self, queue_id: &str, options: ReceiveOptions, now: i64) -> (r: Result<Vec<ReceivedMessage>, Error>)
        requires
            time_in_range(now),
        ensures
            match queue_at(old(self)@.queues, queue_id@) {
                None => (r matches Err(Error::QueueNotFound(id)) && id@ == queue_id@) && final(self)@ == old(self)@,
                Some(q0) => {
                    let (q, rec, s, dead) = receive_from(
                        q0,
                        queue_id@,
                        options.max_messages,
                        options.visibility_timeout,
                        old(self)@.receipt_serial,
                        now,
                    );
                    &&& r matches Ok(v) && received_views(v@) == rec
                    &&& final(self)@ == (BackendView {
                        queues: with_dead_letters(
                            put_queue(old(self)@.queues, queue_id@, q),
                            dlq_target(q0.config),
                            dead,
                            now,
                        ),
                        receipt_serial: s,
                        ..old(self)@
                    })
                },
            },
    {
        let q = match self.queues.take(queue_id) {
            Some(q) => q,
            None => {
                return Err(Error::QueueNotFound(to_owned_string(queue_id)));
            },
        };
        let ghost s0 = old(self)@;
        let ghost q0 = q@;
        assert(queue_at(s0.queues, queue_id@) == Some(q0));
        let mut q = q;
        q.last_access = now;
        assert(q@ == touched(q0, now));
        let vt = match options.visibility_timeout {
            Some(t) => t,
            None => q.config.visibility_timeout,
        };
        let _count = requeue_expired_exec(&mut q, now);
        let ghost q1 = q@;
        assert(q1 == requeue_expired(touched(q0, now), now));
        let max: u32 = if options.max_messages < 10 { options.max_messages } else { 10 };
        assert(max == capped(options.max_messages));
        let mut old_available: VecDeque<StoredMessage> = VecDeque::new();
        std::mem::swap(&mut old_available, &mut q.available_messages);
        assert(stored_views(old_available@) == q1.available);
        let (remaining, taken) = take_visible_exec(old_available, now, max);
        q.available_messages = remaining;
        let ghost q2 = q@;
        assert(q2 == (QueueDataView { available: stored_views(remaining@), ..q1 }));
        let ghost spec = receive_from(q0, queue_id@, options.max_messages, options.visibility_timeout, s0.receipt_serial, now);
        let (received, dead) = self.deliver_exec(&mut q, queue_id, taken, now, vt);
        assert(deliver(q2, queue_id@, message_views(taken@), s0.receipt_serial, now, vt) == deliver(q1, queue_id@, message_views(taken@), s0.receipt_serial, now, vt)) by {
            lemma_deliver_config(q1, q2, queue_id@, message_views(taken@), s0.receipt_serial, now, vt);
        }
        assert(q@ == spec.0);
        let target = match &q.config.dlq_config {
            Some(d) => d.target_queue_id.clone(),
            None => String::new(),
        };
        assert(target@ == dlq_target(q0.config));
        self.queues.insert(to_owned_string(queue_id), q);
        self.send_dead_letters(target.as_str(), dead, now);
        Ok(received)
    }

    /// Checks a receipt handle against the queue it is used with.
    fn check_receipt(queue_id: &str, receipt_handle: &str) -> (r: Result<(), Error>)
        ensures
            match receipt_parts(receipt_handle@) {
                Some(parts) => if parts.0 == queue_id@ {
                    r is Ok
                } else {
                    r matches Err(e) && e == Error::InvalidReceiptHandle
                },
                None => r matches Err(e) && e == Error::InvalidReceiptHandle,
            },
    {
        let data = parse_receipt_handle(receipt_handle)?;
        if !crate::text::str_eq(data.queue_id.as_str(), queue_id) {
            return Err(Error::InvalidReceiptHandle);
        }
        Ok(())
    }

    /// Deletes the in-flight message with `receipt_handle` from queue
    /// `queue_id`.
    pub fn delete_message(&mut self, queue_id: &str, receipt_handle: &str) -> (r: Result<(), Error>)
        ensures
            final(self)@ == old(self)@ || r is Ok,
            match receipt_parts(receipt_handle@) {
                Some(parts) if parts.0 == queue_id@ => match queue_at(old(self)@.queues, queue_id@) {
                    None => r matches Err(Error::QueueNotFound(id)) && id@ == queue_id@,
                    Some(q) => if pairs_to_map(q.in_flight).contains_key(receipt_handle@) {
                        r is Ok && final(self)@ == (BackendView {
                            queues: put_queue(
                                old(self)@.queues,
                                queue_id@,
                                QueueDataView { in_flight: pairs_remove(q.in_flight, receipt_handle@), ..q },
                            ),
                            ..old(self)@
                        })
                    } else {
                        r matches Err(e) && e == Error::InvalidReceiptHandle
                    },
                },
                _ => r matches Err(e) && e == Error::InvalidReceiptHandle,
            },
    {
        Self::check_receipt(queue_id, receipt_handle)?;
        match self.queues.get(queue_id) {
            Some(q) => {
                if !q.in_flight_messages.contains_key(receipt_handle) {
                    return Err(Error::InvalidReceiptHandle);
                }
            },
            None => {
                return Err(Error::QueueNotFound(to_owned_string(queue_id)));
            },
        }
        let mut q = self.queues.take(queue_id).unwrap();
        q.in_flight_messages.remove(receipt_handle);
        self.queues.insert(to_owned_string(queue_id), q);
        Ok(())
    }

    /// Makes the in-flight message with `receipt_handle` invisible until
    /// `visibility_timeout` seconds after `now`.
    pub fn change_visibility(&mut self, queue_id: &str, receipt_handle: &str, visibility_timeout: u32, now: i64) -> (r: Result<(), Error>)
        requires
            time_in_range(now),
        ensures
            final(self)@ == old(self)@ || r is Ok,
            match receipt_parts(receipt_handle@) {
                Some(parts) if parts.0 == queue_id@ => match queue_at(old(self)@.queues, queue_id@) {
                    None => r matches Err(Error::QueueNotFound(id)) && id@ == queue_id@,
                    Some(q) => if pairs_to_map(q.in_flight).contains_key(receipt_handle@) {
                        r is Ok && final(self)@ == (BackendView {
                            queues: put_queue(
                                old(self)@.queues,
                                queue_id@,
                                QueueDataView {
                                    in_flight: pairs_insert(
                                        pairs_remove(q.in_flight, receipt_handle@),
                                        receipt_handle@,
                                        (
                                            pairs_to_map(q.in_flight)[receipt_handle@].0,
                                            after_seconds(now, visibility_timeout),
                                        ),
                                    ),
                                    ..q
                                },
                            ),
                            ..old(self)@
                        })
                    } else {
                        r matches Err(e) && e == Error::InvalidReceiptHandle
                    },
                },
                _ => r matches Err(e) && e == Error::InvalidReceiptHandle,
            },
    {
        Self::check_receipt(queue_id, receipt_handle)?;
        match self.queues.get(queue_id) {
            Some(q) => {
                if !q.in_flight_messages.contains_key(receipt_handle) {
                    return Err(Error::InvalidReceiptHandle);
                }
            },
            None => {
                return Err(Error::QueueNotFound(to_owned_string(queue_id)));
            },
        }
        let mut q = self.queues.take(queue_id).unwrap();
        let f = q.in_flight_messages.take(receipt_handle).unwrap();
        let mut f = f;
        f.visibility_expires_at = now + (visibility_timeout as i64) * 1000;
        q.in_flight_messages.insert(to_owned_string(receipt_handle), f);
        self.queues.insert(to_owned_string(queue_id), q);
        Ok(())
    }

    /// Puts the in-flight messages of queue `queue_id` whose visibility ended
    /// back among the available ones; gives how many.
    pub fn process_expired_visibility(&mut self, queue_id: &str, now: i64) -> (r: Result<u64, Error>)
        ensures
            match queue_at(old(self)@.queues, queue_id@) {
                None => (r matches Err(Error::QueueNotFound(id)) && id@ == queue_id@) && final(self)@ == old(self)@,
                Some(q) => (r matches Ok(n) && n == select_pairs(q.in_flight, expired_flags(q.in_flight, now), true).len())
                    && final(self)@ == (BackendView {
                    queues: put_queue(old(self)@.queues, queue_id@, requeue_expired(q, now)),
                    ..old(self)@
                }),
            },
    {
        match self.queues.take(queue_id) {
            Some(q) => {
                let mut q = q;
                let count = requeue_expired_exec(&mut q, now);
                self.queues.insert(to_owned_string(queue_id), q);
                Ok(count)
            },
            None => Err(Error::QueueNotFound(to_owned_string(queue_id))),
        }
    }
}

} // verus!
