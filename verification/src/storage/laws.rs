//! What holds of the in-memory backend over several operations: queues are
//! found where they were put, messages come out in the order they went in,
//! a received message can be deleted with its handle, a message received
//! more often than its queue allows goes to the dead-letter queue, a FIFO
//! queue keeps one copy of a message sent twice within five minutes, and an
//! eviction drops exactly one message.

use vstd::prelude::*;
use crate::dict::{
    index_of_key, keys_distinct, lemma_pairs_insert_map, lemma_pairs_remove_map, lemma_pairs_to_map_dom, lemma_pairs_to_map_index,
    lemma_select_pairs, pairs_insert, pairs_remove, pairs_to_map, select_pairs,
};
use crate::receipt::{law_receipt_round_trip, receipt_parts, receipt_text};
use crate::config::EvictionPolicy;
use crate::storage::memory::{
    drop_at, evicted, fifo_victim, lemma_oldest_within_exists, lemma_fifo_victim_unique, oldest_within, lru_victim, queue_message_count, total_messages, after_seconds, bumped, capped, cleaned_dedup, dedup_id_of, deliver, expired_flags, fresh_queue, goes_to_dlq,
    is_duplicate, put_queue, queue_at, receive_from, dead_letter, enqueue, send_each, with_dead_letters, requeue_expired, send_to_queue, stale_flags, take_visible,
    time_in_range, touched, QueueDataView, DEDUP_WINDOW_MS,
};
use crate::types::{MessageView, QueueConfigView, QueueType};

verus! {

/// A queue that was created is found under its ID, with no messages.
pub proof fn law_created_queue_is_found(s: Seq<(Seq<char>, QueueDataView)>, config: QueueConfigView, now: i64)
    requires
        keys_distinct(s),
        queue_at(s, config.id) is None,
    ensures
        queue_at(pairs_insert(s, config.id, fresh_queue(config, now)), config.id) == Some(fresh_queue(config, now)),
        fresh_queue(config, now).available.len() == 0,
        fresh_queue(config, now).in_flight.len() == 0,
{
    lemma_pairs_insert_map(s, config.id, fresh_queue(config, now));
}

/// A queue put under an ID is found there, and every other queue stays as
/// it was.
pub proof fn law_put_queue(s: Seq<(Seq<char>, QueueDataView)>, k: Seq<char>, q: QueueDataView, other: Seq<char>)
    requires
        keys_distinct(s),
    ensures
        keys_distinct(put_queue(s, k, q)),
        queue_at(put_queue(s, k, q), k) == Some(q),
        other != k ==> queue_at(put_queue(s, k, q), other) == queue_at(s, other),
{
    lemma_pairs_remove_map(s, k);
    lemma_pairs_insert_map(pairs_remove(s, k), k, q);
}

/// A deleted queue is gone, and every other queue stays as it was.
pub proof fn law_deleted_queue_is_gone(s: Seq<(Seq<char>, QueueDataView)>, k: Seq<char>, other: Seq<char>)
    requires
        keys_distinct(s),
    ensures
        queue_at(pairs_remove(s, k), k) is None,
        other != k ==> queue_at(pairs_remove(s, k), other) == queue_at(s, other),
{
    lemma_pairs_remove_map(s, k);
}

/// A purged queue holds no messages and keeps its configuration.
pub proof fn law_purged_queue_is_empty(s: Seq<(Seq<char>, QueueDataView)>, k: Seq<char>, q: QueueDataView)
    requires
        keys_distinct(s),
        queue_at(s, k) == Some(q),
    ensures
        queue_at(
            put_queue(s, k, QueueDataView { available: Seq::empty(), in_flight: Seq::empty(), ..q }),
            k,
        ) matches Some(p) && p.available.len() == 0 && p.in_flight.len() == 0 && p.config == q.config,
{
    law_put_queue(s, k, QueueDataView { available: Seq::empty(), in_flight: Seq::empty(), ..q }, k);
}

/// When every available message is visible, a receive of up to `k`
/// messages takes the first of them in the order they were stored and
/// leaves the rest in order.
pub proof fn law_visible_messages_leave_in_order(avail: Seq<(MessageView, i64)>, now: i64, k: int)
    requires
        forall|i: int| 0 <= i < avail.len() ==> #[trigger] avail[i].1 <= now,
        k >= 1,
    ensures
        take_visible(avail, now, k).1 == avail.take(if k < avail.len() { k } else { avail.len() as int }).map_values(
            |e: (MessageView, i64)| e.0,
        ),
        take_visible(avail, now, k).0 == avail.skip(if k < avail.len() { k } else { avail.len() as int }),
    decreases avail.len(),
{
    let n = if k < avail.len() { k } else { avail.len() as int };
    if avail.len() == 0 {
        assert(avail.take(0).map_values(|e: (MessageView, i64)| e.0) =~= Seq::<MessageView>::empty());
        assert(avail.skip(0) =~= Seq::<(MessageView, i64)>::empty());
    } else {
        assert(avail[0].1 <= now);
        if k - 1 <= 0 {
            assert(avail.take(1).map_values(|e: (MessageView, i64)| e.0) =~= seq![avail[0].0]);
            assert(avail.skip(1) =~= avail.drop_first());
        } else {
            let rest = avail.drop_first();
            assert forall|i: int| 0 <= i < rest.len() implies #[trigger] rest[i].1 <= now by {
                assert(rest[i] == avail[i + 1]);
            }
            law_visible_messages_leave_in_order(rest, now, k - 1);
            let m = if k - 1 < rest.len() { k - 1 } else { rest.len() as int };
            assert(m + 1 == n);
            assert(seq![avail[0].0] + rest.take(m).map_values(|e: (MessageView, i64)| e.0) =~= avail.take(n).map_values(
                |e: (MessageView, i64)| e.0,
            ));
            assert(rest.skip(m) =~= avail.skip(n));
        }
    }
}

/// A message sent to an empty standard queue without a dead-letter queue,
/// with no delay, is received by the next receive that asks for at least
/// one message: received once, with a handle naming the queue, the message
/// and the receipt serial, and held in flight for the visibility timeout.
pub proof fn law_sent_message_is_received(
    q: QueueDataView,
    queue_id: Seq<char>,
    m: MessageView,
    now: i64,
    max_messages: u32,
    visibility_timeout: Option<u32>,
    serial: u64,
)
    requires
        time_in_range(now),
        q.config.queue_type == QueueType::SqsStandard,
        q.config.dlq_config is None,
        q.available.len() == 0,
        q.in_flight.len() == 0,
        match m.delay_seconds {
            Some(d) => d == 0,
            None => q.config.delay_seconds == 0,
        },
        max_messages >= 1,
    ensures
        send_to_queue(q, m, now) matches Some((q2, stored)) && stored == m && {
            let (q3, received, next, dead) = receive_from(q2, queue_id, max_messages, visibility_timeout, serial, now);
            let h = receipt_text(queue_id, m.id, serial as nat);
            let vt = match visibility_timeout {
                Some(t) => t,
                None => q.config.visibility_timeout,
            };
            &&& received == seq![(bumped(m), h)]
            &&& q3.available.len() == 0
            &&& q3.in_flight == seq![(h, (bumped(m), after_seconds(now, vt)))]
            &&& next == serial.wrapping_add(1)
            &&& dead.len() == 0
        },
{
    let q2 = QueueDataView { available: seq![(m, now)], ..touched(q, now) };
    assert(send_to_queue(q, m, now) == Some((q2, m))) by {
        assert(after_seconds(now, 0) == now);
        assert(touched(q, now).available.push((m, now)) =~= seq![(m, now)]);
    }
    let t = touched(q2, now);
    let flags = expired_flags(t.in_flight, now);
    assert(select_pairs(t.in_flight, flags, true) =~= Seq::<(Seq<char>, (MessageView, i64))>::empty());
    assert(select_pairs(t.in_flight, flags, false) =~= Seq::<(Seq<char>, (MessageView, i64))>::empty());
    let q1 = requeue_expired(t, now);
    assert(q1.available =~= seq![(m, now)]);
    assert(q1.in_flight =~= Seq::<(Seq<char>, (MessageView, i64))>::empty());
    let k = capped(max_messages) as int;
    assert(take_visible(q1.available, now, k) == (Seq::<(MessageView, i64)>::empty(), seq![m])) by {
        reveal_with_fuel(take_visible, 2);
        assert(q1.available[0] == (m, now));
        assert(q1.available.drop_first() =~= Seq::<(MessageView, i64)>::empty());
        let e = Seq::<(MessageView, i64)>::empty();
        assert(take_visible(e, now, k - 1) == (e, Seq::<MessageView>::empty()));
        if k - 1 > 0 {
            assert(seq![m] + Seq::<MessageView>::empty() =~= seq![m]);
        }
    }
    let vt = match visibility_timeout {
        Some(t) => t,
        None => q1.config.visibility_timeout,
    };
    assert(seq![m].drop_last() =~= Seq::<MessageView>::empty());
    let h = receipt_text(queue_id, m.id, serial as nat);
    assert(pairs_insert(q1.in_flight, h, (bumped(m), after_seconds(now, vt))) =~= seq![
        (h, (bumped(m), after_seconds(now, vt))),
    ]);
    assert(Seq::<(MessageView, Seq<char>)>::empty().push((bumped(m), h)) =~= seq![(bumped(m), h)]);
    let taken = seq![m];
    assert(taken.last() == m);
    assert(deliver(q1, queue_id, taken.drop_last(), serial, now, vt) == (
        q1.in_flight,
        Seq::<(MessageView, Seq<char>)>::empty(),
        serial,
        Seq::<MessageView>::empty(),
    ));
    assert(!goes_to_dlq(q1.config, bumped(m)));
    assert(deliver(q1, queue_id, taken, serial, now, vt) == (
        seq![(h, (bumped(m), after_seconds(now, vt)))],
        seq![(bumped(m), h)],
        serial.wrapping_add(1),
        Seq::<MessageView>::empty(),
    ));
    let r = receive_from(q2, queue_id, max_messages, visibility_timeout, serial, now);
    assert(r.0.available =~= Seq::<(MessageView, i64)>::empty());
    assert(r.1 == seq![(bumped(m), h)]);
}

/// Under a dead-letter queue with maximum receive count `k`, a message that
/// a receive takes is handed out while its receive count, this receive
/// included, is at most `k`; past that it is not handed out but goes to the
/// dead-letter queue afresh: sent at `now`, never received.
pub proof fn law_dead_letter_after_max_receives(
    q: QueueDataView,
    queue_id: Seq<char>,
    m: MessageView,
    serial: u64,
    now: i64,
    vt: u32,
)
    requires
        q.config.dlq_config is Some,
        m.receive_count < u32::MAX,
    ensures
        ({
            let (inf, rec, next, dead) = deliver(q, queue_id, seq![m], serial, now, vt);
            let (target, k) = q.config.dlq_config.unwrap();
            if m.receive_count + 1 <= k {
                &&& rec == seq![(bumped(m), receipt_text(queue_id, m.id, serial as nat))]
                &&& dead.len() == 0
            } else {
                &&& rec.len() == 0
                &&& dead == seq![dead_letter(m, target, now)]
                &&& inf == q.in_flight
                &&& next == serial
            }
        }),
{
    let taken = seq![m];
    assert(taken.drop_last() =~= Seq::<MessageView>::empty());
    assert(bumped(m).receive_count == m.receive_count + 1);
    let e = Seq::<MessageView>::empty();
    assert(deliver(q, queue_id, e, serial, now, vt) == (
        q.in_flight,
        Seq::<(MessageView, Seq<char>)>::empty(),
        serial,
        e,
    ));
    let (target, k) = q.config.dlq_config.unwrap();
    assert(dead_letter(bumped(m), target, now) == dead_letter(m, target, now));
    assert(Seq::<(MessageView, Seq<char>)>::empty().push((bumped(m), receipt_text(queue_id, m.id, serial as nat)))
        =~= seq![(bumped(m), receipt_text(queue_id, m.id, serial as nat))]);
    assert(e.push(dead_letter(m, target, now)) =~= seq![dead_letter(m, target, now)]);
}

/// A message moved to an existing standard dead-letter queue is appended
/// to its available messages, visible after that queue's delay; every other
/// queue stays as it was.
pub proof fn law_dead_letter_reaches_target(
    s: Seq<(Seq<char>, QueueDataView)>,
    target: Seq<char>,
    m: MessageView,
    now: i64,
    other: Seq<char>,
)
    requires
        keys_distinct(s),
        queue_at(s, target) matches Some(t) && t.config.queue_type == QueueType::SqsStandard,
    ensures
        queue_at(with_dead_letters(s, target, seq![m], now), target) == Some(
            enqueue(touched(queue_at(s, target).unwrap(), now), m, now),
        ),
        other != target ==> queue_at(with_dead_letters(s, target, seq![m], now), other) == queue_at(s, other),
{
    let t = queue_at(s, target).unwrap();
    let ms = seq![m];
    assert(ms.drop_last() =~= Seq::<MessageView>::empty());
    assert(send_each(t, Seq::<MessageView>::empty(), now) == t);
    assert(ms.last() == m);
    assert(send_to_queue(t, m, now) == Some((enqueue(touched(t, now), m, now), m)));
    assert(send_each(t, ms, now) == enqueue(touched(t, now), m, now));
    law_put_queue(s, target, send_each(t, ms, now), other);
}

/// Each message that delivery hands out stays in flight under its handle,
/// and the handle names the queue, the message and a serial.
proof fn lemma_delivered_in_flight(
    q: QueueDataView,
    queue_id: Seq<char>,
    taken: Seq<MessageView>,
    serial: u64,
    now: i64,
    vt: u32,
)
    requires
        keys_distinct(q.in_flight),
    ensures
        keys_distinct(deliver(q, queue_id, taken, serial, now, vt).0),
        forall|i: int|
            0 <= i < deliver(q, queue_id, taken, serial, now, vt).1.len() ==> {
                let r = #[trigger] deliver(q, queue_id, taken, serial, now, vt).1[i];
                &&& pairs_to_map(deliver(q, queue_id, taken, serial, now, vt).0).contains_key(r.1)
                &&& exists|n: nat| r.1 == receipt_text(queue_id, r.0.id, n)
            },
    decreases taken.len(),
{
    if taken.len() > 0 {
        lemma_delivered_in_flight(q, queue_id, taken.drop_last(), serial, now, vt);
        let (inf, rec, s, dead) = deliver(q, queue_id, taken.drop_last(), serial, now, vt);
        let m = bumped(taken.last());
        if !goes_to_dlq(q.config, m) {
            let h = receipt_text(queue_id, m.id, s as nat);
            lemma_pairs_insert_map(inf, h, (m, after_seconds(now, vt)));
            let rec2 = rec.push((m, h));
            assert forall|i: int| 0 <= i < rec2.len() implies {
                let r = #[trigger] rec2[i];
                &&& pairs_to_map(pairs_insert(inf, h, (m, after_seconds(now, vt)))).contains_key(r.1)
                &&& exists|n: nat| r.1 == receipt_text(queue_id, r.0.id, n)
            } by {
                if i < rec.len() {
                    assert(rec2[i] == rec[i]);
                } else {
                    assert(rec2[i] == (m, h));
                    assert(h == receipt_text(queue_id, m.id, s as nat));
                }
            }
        }
    }
}

/// Every message that a receive hands out is in flight under its receipt
/// handle, so deleting it with that handle succeeds; the handle names the
/// queue and the message when neither name is empty or holds `:`.
pub proof fn law_received_message_can_be_deleted(
    q0: QueueDataView,
    queue_id: Seq<char>,
    max_messages: u32,
    visibility_timeout: Option<u32>,
    serial: u64,
    now: i64,
)
    requires
        keys_distinct(q0.in_flight),
    ensures
        forall|i: int|
            0 <= i < receive_from(q0, queue_id, max_messages, visibility_timeout, serial, now).1.len() ==> {
                let q3 = receive_from(q0, queue_id, max_messages, visibility_timeout, serial, now).0;
                let r = #[trigger] receive_from(q0, queue_id, max_messages, visibility_timeout, serial, now).1[i];
                &&& pairs_to_map(q3.in_flight).contains_key(r.1)
                &&& (queue_id.len() > 0 && !queue_id.contains(':') && r.0.id.len() > 0 && !r.0.id.contains(':'))
                    ==> receipt_parts(r.1) == Some((queue_id, r.0.id))
            },
{
    let t = touched(q0, now);
    let flags = expired_flags(t.in_flight, now);
    lemma_select_pairs(t.in_flight, flags, false);
    let q1 = requeue_expired(t, now);
    let vt = match visibility_timeout {
        Some(x) => x,
        None => q1.config.visibility_timeout,
    };
    let (rem, taken) = take_visible(q1.available, now, capped(max_messages) as int);
    lemma_delivered_in_flight(q1, queue_id, taken, serial, now, vt);
    let rec = deliver(q1, queue_id, taken, serial, now, vt).1;
    assert forall|i: int| 0 <= i < rec.len() implies (queue_id.len() > 0 && !queue_id.contains(':')
        && #[trigger] rec[i].0.id.len() > 0 && !rec[i].0.id.contains(':')) ==> receipt_parts(rec[i].1) == Some(
        (queue_id, rec[i].0.id),
    ) by {
        let n = choose|n: nat| rec[i].1 == receipt_text(queue_id, rec[i].0.id, n);
        if queue_id.len() > 0 && !queue_id.contains(':') && rec[i].0.id.len() > 0 && !rec[i].0.id.contains(':') {
            law_receipt_round_trip(queue_id, rec[i].0.id, n);
        }
    }
}


/// A pair whose flag is `want` is among the selected pairs.
proof fn lemma_select_keeps<V>(s: Seq<(Seq<char>, V)>, flags: Seq<bool>, want: bool, j: int)
    requires
        flags.len() == s.len(),
        0 <= j < s.len(),
        flags[j] == want,
    ensures
        exists|a: int| 0 <= a < select_pairs(s, flags, want).len() && select_pairs(s, flags, want)[a] == s[j],
    decreases s.len(),
{
    let r0 = select_pairs(s.drop_last(), flags.drop_last(), want);
    if j == s.len() - 1 {
        assert(select_pairs(s, flags, want)[r0.len() as int] == s[j]);
    } else {
        lemma_select_keeps(s.drop_last(), flags.drop_last(), want, j);
        let a = choose|a: int| 0 <= a < r0.len() && r0[a] == s.drop_last()[j];
        assert(select_pairs(s, flags, want)[a] == s[j]);
    }
}

/// A FIFO queue that accepts a message keeps its deduplication ID for five
/// minutes: a message with the same ID sent within that time is answered
/// but not stored (the queue is only touched).
pub proof fn law_duplicate_is_not_stored(q: QueueDataView, m1: MessageView, m2: MessageView, now1: i64, now2: i64)
    requires
        q.config.queue_type == QueueType::SqsFifo,
        keys_distinct(q.dedup),
        dedup_id_of(q.config, m1) is Some,
        dedup_id_of(q.config, m2) == dedup_id_of(q.config, m1),
        !is_duplicate(q, dedup_id_of(q.config, m1).unwrap(), now1),
        now1 <= now2 < now1 + DEDUP_WINDOW_MS,
    ensures
        send_to_queue(q, m1, now1) matches Some((q2, stored)) && stored.body == m1.body && send_to_queue(q2, m2, now2)
            == Some((touched(q2, now2), m2)),
{
    let d = dedup_id_of(q.config, m1).unwrap();
    let ins = pairs_insert(q.dedup, d, now1);
    lemma_pairs_insert_map(q.dedup, d, now1);
    let cleaned = cleaned_dedup(ins, now1);
    assert(pairs_to_map(cleaned).contains_key(d) && pairs_to_map(cleaned)[d] == now1) by {
        if ins.len() > 1000 {
            lemma_pairs_to_map_dom(ins, d);
            let j = choose|j: int| 0 <= j < ins.len() && ins[j].0 == d;
            lemma_pairs_to_map_index(ins, j);
            let flags = stale_flags(ins, now1);
            assert(flags[j] == false);
            lemma_select_keeps(ins, flags, false, j);
            lemma_select_pairs(ins, flags, false);
            let a = choose|a: int| 0 <= a < select_pairs(ins, flags, false).len() && select_pairs(ins, flags, false)[a]
                == ins[j];
            lemma_pairs_to_map_index(select_pairs(ins, flags, false), a);
        }
    }
    let q2 = send_to_queue(q, m1, now1).unwrap().0;
    assert(q2.dedup == cleaned);
    assert(q2.config == q.config);
    assert(is_duplicate(touched(q2, now2), d, now2));
}

/// A message sent with a delay is not received before its delay is over: a
/// receive at the time of sending takes nothing from an otherwise empty
/// standard queue and leaves the message stored.
pub proof fn law_delayed_message_is_hidden(
    q: QueueDataView,
    queue_id: Seq<char>,
    m: MessageView,
    now: i64,
    max_messages: u32,
    visibility_timeout: Option<u32>,
    serial: u64,
)
    requires
        time_in_range(now),
        q.config.queue_type == QueueType::SqsStandard,
        q.available.len() == 0,
        q.in_flight.len() == 0,
        match m.delay_seconds {
            Some(d) => d > 0,
            None => q.config.delay_seconds > 0,
        },
    ensures
        send_to_queue(q, m, now) matches Some((q2, stored)) && stored == m && {
            let (q3, received, next, dead) = receive_from(q2, queue_id, max_messages, visibility_timeout, serial, now);
            &&& received.len() == 0
            &&& q3.available == q2.available
            &&& q3.available.len() == 1
            &&& next == serial
        },
{
    let d = match m.delay_seconds {
        Some(d) => d,
        None => q.config.delay_seconds,
    };
    let at = after_seconds(now, d);
    assert(at > now);
    let q2 = QueueDataView { available: seq![(m, at)], ..touched(q, now) };
    assert(send_to_queue(q, m, now) == Some((q2, m))) by {
        assert(touched(q, now).available.push((m, at)) =~= seq![(m, at)]);
    }
    let t = touched(q2, now);
    let flags = expired_flags(t.in_flight, now);
    assert(select_pairs(t.in_flight, flags, true) =~= Seq::<(Seq<char>, (MessageView, i64))>::empty());
    assert(select_pairs(t.in_flight, flags, false) =~= Seq::<(Seq<char>, (MessageView, i64))>::empty());
    let q1 = requeue_expired(t, now);
    assert(q1.available =~= seq![(m, at)]);
    let k = capped(max_messages) as int;
    assert(take_visible(q1.available, now, k) == (seq![(m, at)], Seq::<MessageView>::empty())) by {
        reveal_with_fuel(take_visible, 2);
        assert(q1.available[0] == (m, at));
        assert(q1.available.drop_first() =~= Seq::<(MessageView, i64)>::empty());
        let e = Seq::<(MessageView, i64)>::empty();
        assert(take_visible(e, now, k) == (e, Seq::<MessageView>::empty()));
        assert(seq![(m, at)] + e =~= seq![(m, at)]);
    }
}

/// An in-flight message whose visibility timeout has run out is available
/// again at the next receive, and no longer in flight under its handle.
pub proof fn law_expired_message_is_available_again(q: QueueDataView, now: i64, i: int)
    requires
        keys_distinct(q.in_flight),
        0 <= i < q.in_flight.len(),
        q.in_flight[i].1.1 <= now,
    ensures
        requeue_expired(q, now).available.contains((q.in_flight[i].1.0, now)),
        !pairs_to_map(requeue_expired(q, now).in_flight).contains_key(q.in_flight[i].0),
{
    let flags = expired_flags(q.in_flight, now);
    assert(flags[i] == true);
    lemma_select_keeps(q.in_flight, flags, true, i);
    let back = select_pairs(q.in_flight, flags, true);
    let a = choose|a: int| 0 <= a < back.len() && back[a] == q.in_flight[i];
    let r = requeue_expired(q, now);
    assert(r.available[q.available.len() + a] == (q.in_flight[i].1.0, now));
    let kept = select_pairs(q.in_flight, flags, false);
    lemma_select_pairs(q.in_flight, flags, false);
    lemma_pairs_to_map_dom(kept, q.in_flight[i].0);
    if pairs_to_map(kept).contains_key(q.in_flight[i].0) {
        let b = choose|b: int| 0 <= b < kept.len() && kept[b].0 == q.in_flight[i].0;
        let j = choose|j: int| 0 <= j < q.in_flight.len() && flags[j] == false && kept[b] == q.in_flight[j];
        assert(j != i);
    }
}

proof fn lemma_total_remove(s: Seq<(Seq<char>, QueueDataView)>, i: int)
    requires
        0 <= i < s.len(),
    ensures
        total_messages(s.remove(i)) + queue_message_count(s[i].1) == total_messages(s),
    decreases s.len(),
{
    if i == s.len() - 1 {
        assert(s.remove(i) =~= s.drop_last());
    } else {
        lemma_total_remove(s.drop_last(), i);
        assert(s.remove(i).drop_last() =~= s.drop_last().remove(i));
        assert(s.remove(i).last() == s.last());
    }
}

/// Replacing the queue at position `i` changes the total by the difference
/// of the two queues' counts.
proof fn lemma_total_put(s: Seq<(Seq<char>, QueueDataView)>, i: int, q: QueueDataView)
    requires
        keys_distinct(s),
        0 <= i < s.len(),
    ensures
        total_messages(put_queue(s, s[i].0, q)) + queue_message_count(s[i].1) == total_messages(s)
            + queue_message_count(q),
{
    let k = s[i].0;
    assert(index_of_key(s, k) is Some);
    let j = index_of_key(s, k).unwrap();
    assert(j == i);
    let t = s.remove(i);
    lemma_total_remove(s, i);
    lemma_pairs_remove_map(s, k);
    assert forall|a: int| 0 <= a < t.len() implies t[a].0 != k by {
        if a < i {
            assert(t[a] == s[a]);
        } else {
            assert(t[a] == s[a + 1]);
        }
    }
    assert(index_of_key(t, k) is None);
    assert(put_queue(s, k, q) == t.push((k, q)));
    assert(t.push((k, q)).drop_last() =~= t);
}

proof fn lemma_lru_victim_exists(s: Seq<(Seq<char>, QueueDataView)>)
    requires
        exists|j: int| 0 <= j < s.len() && s[j].1.available.len() > 0,
    ensures
        exists|i: int| lru_victim(s, i),
    decreases s.len(),
{
    let n = s.len() - 1;
    let t = s.drop_last();
    if exists|j: int| 0 <= j < t.len() && t[j].1.available.len() > 0 {
        lemma_lru_victim_exists(t);
        let i = choose|i: int| lru_victim(t, i);
        if s[n].1.available.len() > 0 && s[n].1.last_access < t[i].1.last_access {
            assert forall|j: int| 0 <= j < s.len() && s[j].1.available.len() > 0 implies s[n].1.last_access
                <= #[trigger] s[j].1.last_access by {
                if j < n {
                    assert(t[j] == s[j]);
                    assert(t[i].1.last_access <= t[j].1.last_access);
                }
            }
            assert forall|j: int| 0 <= j < n && s[j].1.available.len() > 0 implies s[n].1.last_access
                < #[trigger] s[j].1.last_access by {
                assert(t[j] == s[j]);
                assert(t[i].1.last_access <= t[j].1.last_access);
            }
            assert(lru_victim(s, n));
        } else {
            assert(t[i] == s[i]);
            assert forall|j: int| 0 <= j < s.len() && s[j].1.available.len() > 0 implies s[i].1.last_access
                <= #[trigger] s[j].1.last_access by {
                if j < n {
                    assert(t[j] == s[j]);
                    assert(t[i].1.last_access <= t[j].1.last_access);
                }
            }
            assert forall|j: int| 0 <= j < i && s[j].1.available.len() > 0 implies s[i].1.last_access
                < #[trigger] s[j].1.last_access by {
                assert(t[j] == s[j]);
                assert(t[i].1.last_access < t[j].1.last_access);
            }
            assert(lru_victim(s, i));
        }
    } else {
        assert forall|j: int| 0 <= j < n implies #[trigger] s[j].1.available.len() == 0 by {
            assert(t[j] == s[j]);
        }
        assert(lru_victim(s, n));
    }
}

/// Under the LRU and FIFO policies, an eviction drops exactly one message
/// when some queue has an available message.
pub proof fn law_eviction_makes_room(s: Seq<(Seq<char>, QueueDataView)>, policy: EvictionPolicy)
    requires
        keys_distinct(s),
        policy != EvictionPolicy::RejectNew,
        exists|j: int| 0 <= j < s.len() && s[j].1.available.len() > 0,
    ensures
        total_messages(evicted(s, policy)) + 1 == total_messages(s),
{
    if policy == EvictionPolicy::Lru {
        lemma_lru_victim_exists(s);
        let i = choose|i: int| lru_victim(s, i);
        assert(evicted(s, policy) == drop_at(s, i, 0));
        let q = QueueDataView { available: s[i].1.available.remove(0), ..s[i].1 };
        lemma_total_put(s, i, q);
    } else {
        let n = s.len() as int;
        lemma_oldest_within_exists(s, n);
        let (i, k) = choose|i: int, k: int| oldest_within(s, n, i, k);
        assert(fifo_victim(s, i, k));
        let (x, y) = choose|x: int, y: int| fifo_victim(s, x, y);
        lemma_fifo_victim_unique(s, i, k, x, y);
        assert(evicted(s, policy) == drop_at(s, i, k));
        let q = QueueDataView { available: s[i].1.available.remove(k), ..s[i].1 };
        lemma_total_put(s, i, q);
    }
}
} // verus!
