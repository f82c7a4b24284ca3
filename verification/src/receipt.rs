//! Receipt handles: the token that a receive hands out for each message and
//! that a delete or a visibility change gives back.

use vstd::prelude::*;
use crate::error::Error;
use crate::sqs::request::{lemma_split_state_append, lemma_split_state_cut, split_on, split_state};
use crate::text::{all_digits, char_is_ascii_digit, chars_of, dec, lemma_dec_digits, push_char, push_decimal, push_str, string_from_chars};
use crate::types::MessageId;

verus! {

/// What a receipt handle names: the queue and the message.
#[derive(Debug)]
pub struct ReceiptHandleData {
    /// The queue the message was received from.
    pub queue_id: String,
    /// The message.
    pub message_id: MessageId,
}

/// The text of the receipt handle that a receive numbered `serial` hands
/// out: `queue:message:serial`.
pub open spec fn receipt_text(queue_id: Seq<char>, message_id: Seq<char>, serial: nat) -> Seq<char> {
    queue_id + seq![':'] + message_id + seq![':'] + dec(serial)
}

/// The queue and message that a receipt handle names: it must be three
/// non-empty pieces separated by `:`, the last of them decimal digits.
pub open spec fn receipt_parts(handle: Seq<char>) -> Option<(Seq<char>, Seq<char>)> {
    let ps = split_on(handle, ':');
    if ps.len() == 3 && ps[0].len() > 0 && ps[1].len() > 0 && ps[2].len() > 0 && all_digits(ps[2]) {
        Some((ps[0], ps[1]))
    } else {
        None
    }
}


/// A receipt handle names the queue and message it was made for, when
/// neither name is empty or holds `:`.
pub proof fn law_receipt_round_trip(queue_id: Seq<char>, message_id: Seq<char>, serial: nat)
    requires
        queue_id.len() > 0,
        message_id.len() > 0,
        !queue_id.contains(':'),
        !message_id.contains(':'),
    ensures
        receipt_parts(receipt_text(queue_id, message_id, serial)) == Some((queue_id, message_id)),
{
    let d = dec(serial);
    lemma_dec_digits(serial);
    assert(!d.contains(':')) by {
        if d.contains(':') {
            let k = choose|k: int| 0 <= k < d.len() && d[k] == ':';
            assert(crate::text::is_digit(d[k]));
        }
    }
    let e = Seq::<char>::empty();
    lemma_split_state_append(e, queue_id, ':');
    assert(e + queue_id =~= queue_id);
    let a = queue_id + seq![':'];
    lemma_split_state_cut(queue_id, ':');
    let b = a + message_id;
    lemma_split_state_append(a, message_id, ':');
    let c = b + seq![':'];
    lemma_split_state_cut(b, ':');
    let t = c + d;
    lemma_split_state_append(c, d, ':');
    assert(t =~= receipt_text(queue_id, message_id, serial));
    assert(split_state(e, ':') == (Seq::<Seq<char>>::empty(), e));
    let ps = split_on(t, ':');
    assert(ps =~= seq![queue_id, message_id, d]);
}

/// Makes the receipt handle for a message received from `queue_id`; `serial`
/// tells apart the receives of one store.
pub fn generate_receipt_handle(queue_id: &str, message_id: &MessageId, serial: u64) -> (r: String)
    ensures
        r@ == receipt_text(queue_id@, message_id@, serial as nat),
{
    let mut r = String::new();
    push_str(&mut r, queue_id);
    push_char(&mut r, ':');
    push_str(&mut r, message_id.0.as_str());
    push_char(&mut r, ':');
    push_decimal(&mut r, serial as u128);
    assert(r@ =~= receipt_text(queue_id@, message_id@, serial as nat));
    r
}

pub open spec fn piece_views(v: Seq<Vec<char>>) -> Seq<Seq<char>> {
    v.map_values(|p: Vec<char>| p@)
}

/// Reads a receipt handle.
pub fn parse_receipt_handle(handle: &str) -> (r: Result<ReceiptHandleData, Error>)
    ensures
        match receipt_parts(handle@) {
            Some(parts) => r is Ok && r->Ok_0.queue_id@ == parts.0 && r->Ok_0.message_id@ == parts.1,
            None => r is Err && r->Err_0 == Error::InvalidReceiptHandle,
        },
{
    let chars = chars_of(handle);
    let mut pieces: Vec<Vec<char>> = Vec::new();
    let mut cur: Vec<char> = Vec::new();
    let mut i: usize = 0;
    while i < chars.len()
        invariant
            i <= chars.len(),
            chars@ == handle@,
            piece_views(pieces@) == split_state(chars@.take(i as int), ':').0,
            cur@ == split_state(chars@.take(i as int), ':').1,
        decreases chars.len() - i,
    {
        let c = chars[i];
        assert(chars@.take(i + 1).drop_last() =~= chars@.take(i as int));
        if c == ':' {
            let ghost before = pieces@;
            pieces.push(cur);
            assert(piece_views(pieces@) =~= piece_views(before).push(pieces@.last()@));
            cur = Vec::new();
            assert(cur@ =~= Seq::<char>::empty());
        } else {
            cur.push(c);
        }
        i = i + 1;
    }
    assert(chars@.take(chars.len() as int) =~= chars@);
    let ghost before = pieces@;
    pieces.push(cur);
    assert(piece_views(pieces@) =~= piece_views(before).push(pieces@.last()@));
    assert(piece_views(pieces@) == split_on(handle@, ':'));
    if pieces.len() != 3 || pieces[0].len() == 0 || pieces[1].len() == 0 || pieces[2].len() == 0 {
        return Err(Error::InvalidReceiptHandle);
    }
    let mut j: usize = 0;
    while j < pieces[2].len()
        invariant
            pieces.len() == 3,
            piece_views(pieces@) == split_on(handle@, ':'),
            pieces@[0]@.len() > 0 && pieces@[1]@.len() > 0 && pieces@[2]@.len() > 0,
            j <= pieces[2].len(),
            forall|k: int| 0 <= k < j ==> crate::text::is_digit(#[trigger] pieces@[2]@[k]),
        decreases pieces[2].len() - j,
    {
        if !char_is_ascii_digit(pieces[2][j]) {
            assert(!all_digits(pieces@[2]@));
            assert(split_on(handle@, ':')[2] == pieces@[2]@);
            return Err(Error::InvalidReceiptHandle);
        }
        j = j + 1;
    }
    assert(all_digits(pieces@[2]@));
    Ok(ReceiptHandleData {
        queue_id: string_from_chars(pieces[0].as_slice()),
        message_id: MessageId(string_from_chars(pieces[1].as_slice())),
    })
}

} // verus!
