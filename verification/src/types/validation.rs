//! Rules for queue names, topic and subscription IDs, and message sizes.

use vstd::prelude::*;
use crate::error::{Error, ValidationError};
use crate::text::{alphanumeric, is_alphanumeric, char_is_ascii_alphabetic, chars_of, char_utf8_width, dec, ends_with, is_ascii_alpha, push_char, push_decimal, push_str, seq_ends_with, utf8_len, utf8_len_prefix};

verus! {

/// SQS maximum message size (256 KB).
pub const SQS_MAX_MESSAGE_SIZE: usize = 262_144;

/// Pub/Sub maximum message size (10 MB).
pub const PUBSUB_MAX_MESSAGE_SIZE: usize = 10_485_760;

/// A character allowed in an SQS queue name.
pub open spec fn queue_name_char_ok(c: char) -> bool {
    alphanumeric(c) || c == '-' || c == '_'
}

/// Whether `c` may stand in an SQS queue name.
pub fn is_queue_name_char(c: char) -> (r: bool)
    ensures
        r == queue_name_char_ok(c),
{
    is_alphanumeric(c) || c == '-' || c == '_'
}

/// A character allowed in a Pub/Sub topic or subscription ID.
pub open spec fn pubsub_char_ok(c: char) -> bool {
    alphanumeric(c) || c == '-' || c == '_' || c == '.' || c == '~' || c == '+' || c == '%'
}

/// A character allowed in a Pub/Sub ID when `pubsub`, else in a queue name.
pub open spec fn char_allowed(pubsub: bool, c: char) -> bool {
    if pubsub {
        pubsub_char_ok(c)
    } else {
        queue_name_char_ok(c)
    }
}

/// The first position whose character `char_allowed(pubsub, _)` refuses, if any.
pub open spec fn first_failing(s: Seq<char>, pubsub: bool) -> Option<int>
    decreases s.len(),
{
    if s.len() == 0 {
        None
    } else if !char_allowed(pubsub, s[0]) {
        Some(0)
    } else {
        match first_failing(s.drop_first(), pubsub) {
            Some(i) => Some(i + 1),
            None => None,
        }
    }
}

pub open spec fn invalid_char_message(subject: Seq<char>, c: char) -> Seq<char> {
    subject + " contains invalid character: '"@ + seq![c] + "'"@
}

/// `None` when `name` is a valid SQS queue name, else the reason.
pub open spec fn sqs_queue_name_problem(name: Seq<char>) -> Option<Seq<char>> {
    let n = utf8_len(name);
    if n == 0 || n > 80 {
        Some("Queue name must be 1-80 characters, got "@ + dec(n))
    } else {
        let checked = if seq_ends_with(name, ".fifo"@) {
            name.take(name.len() - 5)
        } else {
            name
        };
        let bn = utf8_len(checked);
        if seq_ends_with(name, ".fifo"@) && (bn == 0 || bn > 75) {
            Some("FIFO queue base name must be 1-75 characters, got "@ + dec(bn))
        } else {
            match first_failing(checked, false) {
                Some(i) => Some(invalid_char_message("Queue name"@, checked[i])),
                None => None,
            }
        }
    }
}

/// `None` when `id` is a valid Pub/Sub ID, else the reason; `subject` names
/// the kind of ID in the reason.
pub open spec fn pubsub_id_problem(id: Seq<char>, subject: Seq<char>) -> Option<Seq<char>> {
    let n = utf8_len(id);
    if n < 3 || n > 255 {
        Some(subject + " must be 3-255 characters, got "@ + dec(n))
    } else if !is_ascii_alpha(id[0]) {
        Some(subject + " must start with a letter"@)
    } else {
        match first_failing(id, true) {
            Some(i) => Some(invalid_char_message(subject, id[i])),
            None => None,
        }
    }
}

proof fn lemma_first_failing_step(s: Seq<char>, ok: bool, i: int)
    requires
        0 <= i < s.len(),
        forall|j: int| 0 <= j < i ==> char_allowed(ok, #[trigger] s[j]),
    ensures
        !char_allowed(ok, s[i]) ==> first_failing(s, ok) == Some(i),
        i == s.len() - 1 && char_allowed(ok, s[i]) ==> first_failing(s, ok) is None,
    decreases i,
{
    if i > 0 {
        assert forall|j: int| 0 <= j < i - 1 implies char_allowed(ok, #[trigger] s.drop_first()[j]) by {
            assert(s.drop_first()[j] == s[j + 1]);
        }
        lemma_first_failing_step(s.drop_first(), ok, i - 1);
        assert(char_allowed(ok, s[0]));
    } else if s.len() == 1 {
        assert(s.drop_first().len() == 0);
        assert(first_failing(s.drop_first(), ok) is None);
    }
}

proof fn lemma_first_failing_empty(s: Seq<char>, ok: bool)
    requires
        s.len() == 0,
    ensures
        first_failing(s, ok) is None,
{
}

proof fn lemma_utf8_len_empty(s: Seq<char>)
    ensures
        (utf8_len(s) == 0) <==> (s.len() == 0),
{
    if s.len() > 0 {
        assert(char_utf8_width(s[0]) >= 1);
    }
}

/// Scans `v[..to]`; returns the first position whose character is not
/// allowed.
fn scan_chars(v: &Vec<char>, to: usize, pubsub: bool) -> (r: Option<usize>)
    requires
        to <= v.len(),
    ensures
        match r {
            Some(i) => first_failing(v@.take(to as int), pubsub) == Some(i as int) && i < to,
            None => first_failing(v@.take(to as int), pubsub) is None,
        },
{
    let ghost s = v@.take(to as int);
    if to == 0 {
        proof {
            lemma_first_failing_empty(s, pubsub);
        }
        return None;
    }
    let mut i: usize = 0;
    while i < to
        invariant
            0 < to <= v.len(),
            i <= to,
            s == v@.take(to as int),
            forall|j: int| 0 <= j < i ==> char_allowed(pubsub, #[trigger] s[j]),
        decreases to - i,
    {
        let c = v[i];
        assert(s[i as int] == c);
        let a = is_alphanumeric(c);
        let good = if pubsub {
            a || c == '-' || c == '_' || c == '.' || c == '~' || c == '+' || c == '%'
        } else {
            a || c == '-' || c == '_'
        };
        proof {
            lemma_first_failing_step(s, pubsub, i as int);
        }
        if !good {
            return Some(i);
        }
        i = i + 1;
    }
    proof {
        lemma_first_failing_step(s, pubsub, to - 1);
    }
    None
}

fn invalid_char_text(subject: &str, c: char) -> (m: String)
    ensures
        m@ == invalid_char_message(subject@, c),
{
    let mut m = String::new();
    push_str(&mut m, subject);
    push_str(&mut m, " contains invalid character: '");
    push_char(&mut m, c);
    push_str(&mut m, "'");
    assert(m@ =~= invalid_char_message(subject@, c));
    m
}

fn length_text(prefix: &str, n: u128) -> (m: String)
    ensures
        m@ == prefix@ + dec(n as nat),
{
    let mut m = String::new();
    push_str(&mut m, prefix);
    push_decimal(&mut m, n);
    assert(m@ =~= prefix@ + dec(n as nat));
    m
}

/// Checks an SQS queue name: 1-80 bytes of letters, digits, `-` and `_`; a
/// FIFO queue name is a base of 1-75 such bytes followed by `.fifo`.
pub fn validate_sqs_queue_name(name: &str) -> (r: Result<(), Error>)
    ensures
        match sqs_queue_name_problem(name@) {
            None => r is Ok,
            Some(m) => r matches Err(Error::Validation(ValidationError::InvalidQueueName(x))) && x@ == m,
        },
{
    let v = chars_of(name);
    let n = utf8_len_prefix(&v, v.len());
    assert(v@.take(v.len() as int) =~= name@);
    proof {
        lemma_utf8_len_empty(name@);
    }
    if n == 0 || n > 80 {
        let m = length_text("Queue name must be 1-80 characters, got ", n);
        return Err(Error::Validation(ValidationError::InvalidQueueName(m)));
    }
    let fifo = ends_with(name, ".fifo");
    proof {
        reveal_strlit(".fifo");
    }
    let end: usize = if fifo { v.len() - 5 } else { v.len() };
    let bn = utf8_len_prefix(&v, end);
    proof {
        lemma_utf8_len_empty(v@.take(end as int));
    }
    if fifo && (bn == 0 || bn > 75) {
        let m = length_text("FIFO queue base name must be 1-75 characters, got ", bn);
        return Err(Error::Validation(ValidationError::InvalidQueueName(m)));
    }
    proof {
        if !fifo {
            assert(v@.take(end as int) =~= name@);
        }
    }
    match scan_chars(&v, end, false) {
        Some(i) => {
            let m = invalid_char_text("Queue name", v[i]);
            Err(Error::Validation(ValidationError::InvalidQueueName(m)))
        },
        None => Ok(()),
    }
}

fn validate_pubsub_id(id: &str, subject: &str) -> (r: Result<(), String>)
    ensures
        match pubsub_id_problem(id@, subject@) {
            None => r is Ok,
            Some(m) => r matches Err(x) && x@ == m,
        },
{
    let v = chars_of(id);
    let n = utf8_len_prefix(&v, v.len());
    assert(v@.take(v.len() as int) =~= id@);
    proof {
        lemma_utf8_len_empty(id@);
    }
    if n < 3 || n > 255 {
        let mut m = String::new();
        push_str(&mut m, subject);
        push_str(&mut m, " must be 3-255 characters, got ");
        push_decimal(&mut m, n);
        assert(m@ =~= subject@ + " must be 3-255 characters, got "@ + dec(n as nat));
        return Err(m);
    }
    if !char_is_ascii_alphabetic(v[0]) {
        let mut m = String::new();
        push_str(&mut m, subject);
        push_str(&mut m, " must start with a letter");
        return Err(m);
    }
    match scan_chars(&v, v.len(), true) {
        Some(i) => Err(invalid_char_text(subject, v[i])),
        None => Ok(()),
    }
}

/// Checks a Pub/Sub topic ID: 3-255 bytes, starting with an ASCII letter, of
/// letters, digits and `-_.~+%`.
pub fn validate_pubsub_topic_id(topic_id: &str) -> (r: Result<(), Error>)
    ensures
        match pubsub_id_problem(topic_id@, "Topic ID"@) {
            None => r is Ok,
            Some(m) => r matches Err(Error::Validation(ValidationError::InvalidTopicId(x))) && x@ == m,
        },
{
    match validate_pubsub_id(topic_id, "Topic ID") {
        Ok(()) => Ok(()),
        Err(m) => Err(Error::Validation(ValidationError::InvalidTopicId(m))),
    }
}

/// Checks a Pub/Sub subscription ID by the same rules as a topic ID.
pub fn validate_pubsub_subscription_id(subscription_id: &str) -> (r: Result<(), Error>)
    ensures
        match pubsub_id_problem(subscription_id@, "Subscription ID"@) {
            None => r is Ok,
            Some(m) => r matches Err(Error::Validation(ValidationError::InvalidSubscriptionId(x)))
                && x@ == m,
        },
{
    match validate_pubsub_id(subscription_id, "Subscription ID") {
        Ok(()) => Ok(()),
        Err(m) => Err(Error::Validation(ValidationError::InvalidSubscriptionId(m))),
    }
}

/// Checks that a message of `size` bytes fits in `max_size`.
pub fn validate_message_size(size: usize, max_size: usize) -> (r: Result<(), Error>)
    ensures
        size <= max_size ==> r is Ok,
        size > max_size ==> (r matches Err(Error::Validation(ValidationError::MessageTooLarge { size: s, max: m }))
            && s == size && m == max_size),
{
    if size > max_size {
        return Err(Error::Validation(ValidationError::MessageTooLarge { size, max: max_size }));
    }
    Ok(())
}

} // verus!
