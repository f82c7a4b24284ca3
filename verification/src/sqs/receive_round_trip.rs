//! What a JSON-protocol client reads back from a ReceiveMessage answer: the
//! messages as they were written, bodies included, whatever characters they
//! hold.

use vstd::prelude::*;
use crate::sqs::json_response::{
    array_text, attribute_members, element_text, find_from, has_text, inner, lemma_first_occurrence, lemma_marker_outside,
    lemma_no_match_at, message_attribute_members, message_json, object_text, occurs_at, response_markers, segments,
    with_text, xml_json,
};
use crate::sqs::response::{batch_xml, error_entries_xml, received_message_xml, received_messages_xml, ReceivedMessageInfo};
use crate::types::{is_lower_hex, uuid_v4_text};
use crate::sqs::xml::{law_unescape_escape, lemma_escaped_has_no_lt, xml_escaped};

verus! {

/// `s` differs from `pat` at offset `k` of a match starting at `j`, within `s`.
pub open spec fn unlike_at(s: Seq<char>, pat: Seq<char>, j: int, k: int) -> bool {
    0 <= k < pat.len() && j + k < s.len() && s[j + k] != pat[k]
}

/// Each `<` of `s` differs, within `s`, from `pat` at one of the offsets `k`,
/// so that no match of `pat` starts in `s`, whatever follows it.
pub open spec fn guarded(s: Seq<char>, pat: Seq<char>, k: (int, int, int, int)) -> bool {
    forall|j: int|
        0 <= j < s.len() && #[trigger] s[j] == '<' ==> unlike_at(s, pat, j, k.0) || unlike_at(s, pat, j, k.1)
            || unlike_at(s, pat, j, k.2) || unlike_at(s, pat, j, k.3)
}

/// The pieces joined in order.
pub open spec fn concat_all(ps: Seq<Seq<char>>) -> Seq<char>
    decreases ps.len(),
{
    if ps.len() == 0 {
        Seq::empty()
    } else {
        concat_all(ps.drop_last()) + ps.last()
    }
}

pub(crate) proof fn lemma_guarded_concat(a: Seq<char>, b: Seq<char>, pat: Seq<char>, k: (int, int, int, int))
    requires
        guarded(a, pat, k),
        guarded(b, pat, k),
    ensures
        guarded(a + b, pat, k),
{
    let s = a + b;
    assert forall|j: int| 0 <= j < s.len() && #[trigger] s[j] == '<' implies unlike_at(s, pat, j, k.0) || unlike_at(
        s,
        pat,
        j,
        k.1,
    ) || unlike_at(s, pat, j, k.2) || unlike_at(s, pat, j, k.3) by {
        if j < a.len() {
            assert(a[j] == s[j]);
            if unlike_at(a, pat, j, k.0) {
                assert(s[j + k.0] == a[j + k.0]);
            } else if unlike_at(a, pat, j, k.1) {
                assert(s[j + k.1] == a[j + k.1]);
            } else if unlike_at(a, pat, j, k.2) {
                assert(s[j + k.2] == a[j + k.2]);
            } else {
                assert(s[j + k.3] == a[j + k.3]);
            }
        } else {
            let i = j - a.len();
            assert(b[i] == s[j]);
            if unlike_at(b, pat, i, k.0) {
                assert(s[j + k.0] == b[i + k.0]);
            } else if unlike_at(b, pat, i, k.1) {
                assert(s[j + k.1] == b[i + k.1]);
            } else if unlike_at(b, pat, i, k.2) {
                assert(s[j + k.2] == b[i + k.2]);
            } else {
                assert(s[j + k.3] == b[i + k.3]);
            }
        }
    }
}

/// No match of a tag starts in a guarded `p`, whatever follows it.
pub(crate) proof fn lemma_guarded_no_match(p: Seq<char>, r: Seq<char>, pat: Seq<char>, k: (int, int, int, int))
    requires
        pat.len() > 0,
        pat[0] == '<',
        guarded(p, pat, k),
    ensures
        forall|j: int| 0 <= j < p.len() ==> !occurs_at(p + r, pat, j),
{
    let s = p + r;
    assert forall|j: int| 0 <= j < p.len() implies !occurs_at(s, pat, j) by {
        if occurs_at(s, pat, j) {
            let w = s.subrange(j, j + pat.len());
            assert(w[0] == s[j]);
            assert(p[j] == s[j]);
            assert(p[j] == '<');
            if unlike_at(p, pat, j, k.0) {
                assert(w[k.0] == s[j + k.0]);
                assert(s[j + k.0] == p[j + k.0]);
            } else if unlike_at(p, pat, j, k.1) {
                assert(w[k.1] == s[j + k.1]);
                assert(s[j + k.1] == p[j + k.1]);
            } else if unlike_at(p, pat, j, k.2) {
                assert(w[k.2] == s[j + k.2]);
                assert(s[j + k.2] == p[j + k.2]);
            } else {
                assert(w[k.3] == s[j + k.3]);
                assert(s[j + k.3] == p[j + k.3]);
            }
        }
    }
}

/// Escaped text is guarded against every tag.
pub(crate) proof fn lemma_escaped_guarded(v: Seq<char>, pat: Seq<char>, k: (int, int, int, int))
    ensures
        guarded(xml_escaped(v), pat, k),
{
    lemma_escaped_has_no_lt(v);
}

/// The first pieces of a list, joined, guarded when each of them is.
pub(crate) proof fn lemma_prefix_guarded(ps: Seq<Seq<char>>, n: int, pat: Seq<char>, k: (int, int, int, int))
    requires
        0 <= n <= ps.len(),
        forall|i: int| 0 <= i < n ==> guarded(#[trigger] ps[i], pat, k),
    ensures
        guarded(concat_all(ps.take(n)), pat, k),
    decreases n,
{
    if n == 0 {
        assert(concat_all(ps.take(0)) =~= Seq::<char>::empty());
    } else {
        lemma_prefix_guarded(ps, n - 1, pat, k);
        assert(ps.take(n).drop_last() =~= ps.take(n - 1));
        assert(ps.take(n).last() == ps[n - 1]);
        lemma_guarded_concat(concat_all(ps.take(n - 1)), ps[n - 1], pat, k);
    }
}

/// Joining splits at any point.
pub(crate) proof fn lemma_concat_split(ps: Seq<Seq<char>>, n: int)
    requires
        0 <= n <= ps.len(),
    ensures
        concat_all(ps) == concat_all(ps.take(n)) + concat_all(ps.skip(n)),
    decreases ps.len(),
{
    if ps.len() == n {
        assert(ps.take(n) =~= ps);
        assert(ps.skip(n) =~= Seq::<Seq<char>>::empty());
        assert(concat_all(ps) + Seq::<char>::empty() =~= concat_all(ps));
    } else {
        lemma_concat_split(ps.drop_last(), n);
        assert(ps.drop_last().take(n) =~= ps.take(n));
        assert(ps.skip(n).drop_last() =~= ps.drop_last().skip(n));
        assert(ps.skip(n).last() == ps.last());
        assert(concat_all(ps.take(n)) + concat_all(ps.drop_last().skip(n)) + ps.last() =~= concat_all(ps.take(n))
            + (concat_all(ps.drop_last().skip(n)) + ps.last()));
    }
}

/// The pieces from `n` on, the first three taken out.
pub(crate) proof fn lemma_concat_three(ps: Seq<Seq<char>>, n: int)
    requires
        0 <= n,
        n + 3 <= ps.len(),
    ensures
        concat_all(ps) == concat_all(ps.take(n)) + ps[n] + ps[n + 1] + ps[n + 2] + concat_all(ps.skip(n + 3)),
{
    lemma_concat_split(ps, n + 3);
    assert(ps.take(n + 3).drop_last() =~= ps.take(n + 2));
    assert(ps.take(n + 2).drop_last() =~= ps.take(n + 1));
    assert(ps.take(n + 1).drop_last() =~= ps.take(n));
    assert(ps.take(n + 3).last() == ps[n + 2]);
    assert(ps.take(n + 2).last() == ps[n + 1]);
    assert(ps.take(n + 1).last() == ps[n]);
    assert(concat_all(ps.take(n + 1)) == concat_all(ps.take(n)) + ps[n]);
    assert(concat_all(ps.take(n + 2)) == concat_all(ps.take(n + 1)) + ps[n + 1]);
    assert(concat_all(ps.take(n + 3)) == concat_all(ps.take(n + 2)) + ps[n + 2]);
}

/// An element whose opening tag, escaped text and closing tag are pieces
/// `n` to `n + 2` reads back as the text, when no match of either tag starts
/// before it.
pub(crate) proof fn lemma_field(
    ps: Seq<Seq<char>>,
    n: int,
    v: Seq<char>,
    ko: (int, int, int, int),
    kc: (int, int, int, int),
)
    requires
        0 <= n,
        n + 3 <= ps.len(),
        ps[n].len() > 0,
        ps[n][0] == '<',
        ps[n + 2].len() > 0,
        ps[n + 2][0] == '<',
        ps[n + 1] == xml_escaped(v),
        guarded(concat_all(ps.take(n)), ps[n], ko),
        guarded(concat_all(ps.take(n)) + ps[n], ps[n + 2], kc),
    ensures
        inner(concat_all(ps), ps[n], ps[n + 2]) == Some(ps[n + 1]),
        element_text(concat_all(ps), ps[n], ps[n + 2]) == Some(v),
{
    let pre = concat_all(ps.take(n));
    let open = ps[n];
    let e = ps[n + 1];
    let close = ps[n + 2];
    let post = concat_all(ps.skip(n + 3));
    lemma_concat_three(ps, n);
    let s = concat_all(ps);
    assert(s == pre + open + e + close + post);
    lemma_escaped_has_no_lt(v);
    let a = pre.len() as int;
    let b = (pre.len() + open.len() + e.len()) as int;
    lemma_guarded_no_match(pre, open + e + close + post, open, ko);
    assert(pre + (open + e + close + post) =~= s);
    assert(s.subrange(a, a + open.len()) =~= open);
    lemma_first_occurrence(s, open, 0, a);
    lemma_guarded_no_match(pre + open, e + close + post, close, kc);
    assert(pre + open + (e + close + post) =~= s);
    assert forall|j: int| 0 <= j < b implies !occurs_at(s, close, j) by {
        if j >= a + open.len() {
            assert(s[j] == e[j - a - open.len()]);
            lemma_no_match_at(s, close, j);
        }
    }
    assert(s.subrange(b, b + close.len()) =~= close);
    lemma_first_occurrence(s, close, 0, b);
    assert(s.subrange(a + open.len(), b) =~= e);
    law_unescape_escape(v);
}

/// No match of a tag anywhere in a guarded text.
pub(crate) proof fn lemma_guarded_absent(s: Seq<char>, pat: Seq<char>, k: (int, int, int, int))
    requires
        pat.len() > 0,
        pat[0] == '<',
        guarded(s, pat, k),
    ensures
        find_from(s, pat, 0) is None,
{
    lemma_guarded_no_match(s, Seq::empty(), pat, k);
    assert(s + Seq::<char>::empty() =~= s);
    reveal(find_from);
    assert forall|j: int| 0 <= j implies !occurs_at(s, pat, j) by {
        if j >= s.len() && occurs_at(s, pat, j) {
        }
    }
}

/// The pieces of a received message's element, from its opening tag to its
/// closing one, as the ReceiveMessage response writes it.
pub open spec fn message_pieces(m: ReceivedMessageInfo) -> Seq<Seq<char>> {
    seq![
        "<Message>\n      "@,
        "<MessageId>"@,
        xml_escaped(m.message_id@),
        "</MessageId>"@,
        "\n      "@,
        "<ReceiptHandle>"@,
        xml_escaped(m.receipt_handle@),
        "</ReceiptHandle>"@,
        "\n      "@,
        "<MD5OfBody>"@,
        xml_escaped(m.md5_of_body@),
        "</MD5OfBody>"@,
        "\n      "@,
        "<Body>"@,
        xml_escaped(m.body@),
        "</Body>"@,
        "\n    "@,
        "</Message>"@,
    ]
}

/// The JSON object of a received message without attributes: its ID,
/// receipt handle, body and body digest, each as it was written.
pub open spec fn received_message_json(m: ReceivedMessageInfo) -> Seq<char> {
    let o1 = with_text(Seq::empty(), "MessageId"@, Some(m.message_id@));
    let o2 = with_text(o1, "ReceiptHandle"@, Some(m.receipt_handle@));
    let o3 = with_text(o2, "Body"@, Some(m.body@));
    object_text(with_text(o3, "MD5OfBody"@, Some(m.md5_of_body@)))
}

/// A received message's element reads back as the message.
#[verifier::spinoff_prover]
#[verifier::rlimit(60)]
proof fn lemma_message_segment(m: ReceivedMessageInfo)
    ensures
        message_json(concat_all(message_pieces(m))) == received_message_json(m),
{
    reveal_strlit("<Message>\n      ");
    reveal_strlit("<MessageId>");
    reveal_strlit("</MessageId>");
    reveal_strlit("\n      ");
    reveal_strlit("<ReceiptHandle>");
    reveal_strlit("</ReceiptHandle>");
    reveal_strlit("<MD5OfBody>");
    reveal_strlit("</MD5OfBody>");
    reveal_strlit("<Body>");
    reveal_strlit("</Body>");
    reveal_strlit("\n    ");
    reveal_strlit("</Message>");
    reveal_strlit("<Attribute>");
    reveal_strlit("</Attribute>");
    reveal_strlit("<MessageAttribute>");
    reveal_strlit("</MessageAttribute>");
    let ps = message_pieces(m);
    let s = concat_all(ps);
    let a = ps[0];
    let o1 = ps[1];
    let c1 = ps[3];
    let sp = ps[4];
    let o2 = ps[5];
    let c2 = ps[7];
    let o3 = ps[9];
    let c3 = ps[11];
    let o4 = ps[13];
    let c4 = ps[15];
    let t = ps[16];
    let z = ps[17];
    // MessageId
    assert(guarded(a, o1, (8, 8, 8, 8)));
    lemma_prefix_guarded(ps, 1, o1, (8, 8, 8, 8));
    assert(guarded(a, c1, (1, 1, 1, 1)));
    assert(guarded(o1, c1, (1, 1, 1, 1)));
    lemma_prefix_guarded(ps, 1, c1, (1, 1, 1, 1));
    lemma_guarded_concat(concat_all(ps.take(1)), o1, c1, (1, 1, 1, 1));
    lemma_field(ps, 1, m.message_id@, (8, 8, 8, 8), (1, 1, 1, 1));
    // ReceiptHandle
    let k2 = (1, 2, 2, 2);
    assert(guarded(a, o2, k2));
    assert(guarded(o1, o2, k2));
    lemma_escaped_guarded(m.message_id@, o2, k2);
    assert(guarded(c1, o2, k2));
    assert(guarded(sp, o2, k2));
    lemma_prefix_guarded(ps, 5, o2, k2);
    assert(guarded(a, c2, k2));
    assert(guarded(o1, c2, k2));
    lemma_escaped_guarded(m.message_id@, c2, k2);
    assert(guarded(c1, c2, k2));
    assert(guarded(sp, c2, k2));
    assert(guarded(o2, c2, k2));
    lemma_prefix_guarded(ps, 5, c2, k2);
    lemma_guarded_concat(concat_all(ps.take(5)), o2, c2, k2);
    lemma_field(ps, 5, m.receipt_handle@, k2, k2);
    // MD5OfBody
    let k3 = (1, 2, 3, 3);
    assert(guarded(a, o3, k3));
    assert(guarded(o1, o3, k3));
    lemma_escaped_guarded(m.message_id@, o3, k3);
    assert(guarded(c1, o3, k3));
    assert(guarded(sp, o3, k3));
    assert(guarded(o2, o3, k3));
    lemma_escaped_guarded(m.receipt_handle@, o3, k3);
    assert(guarded(c2, o3, k3));
    lemma_prefix_guarded(ps, 9, o3, k3);
    assert(guarded(a, c3, k3));
    assert(guarded(o1, c3, k3));
    lemma_escaped_guarded(m.message_id@, c3, k3);
    assert(guarded(c1, c3, k3));
    assert(guarded(sp, c3, k3));
    assert(guarded(o2, c3, k3));
    lemma_escaped_guarded(m.receipt_handle@, c3, k3);
    assert(guarded(c2, c3, k3));
    assert(guarded(o3, c3, k3));
    lemma_prefix_guarded(ps, 9, c3, k3);
    lemma_guarded_concat(concat_all(ps.take(9)), o3, c3, k3);
    lemma_field(ps, 9, m.md5_of_body@, k3, k3);
    // Body
    assert(guarded(a, o4, k2));
    assert(guarded(o1, o4, k2));
    lemma_escaped_guarded(m.message_id@, o4, k2);
    assert(guarded(c1, o4, k2));
    assert(guarded(sp, o4, k2));
    assert(guarded(o2, o4, k2));
    lemma_escaped_guarded(m.receipt_handle@, o4, k2);
    assert(guarded(c2, o4, k2));
    assert(guarded(o3, o4, k2));
    lemma_escaped_guarded(m.md5_of_body@, o4, k2);
    assert(guarded(c3, o4, k2));
    lemma_prefix_guarded(ps, 13, o4, k2);
    assert(guarded(a, c4, k2));
    assert(guarded(o1, c4, k2));
    lemma_escaped_guarded(m.message_id@, c4, k2);
    assert(guarded(c1, c4, k2));
    assert(guarded(sp, c4, k2));
    assert(guarded(o2, c4, k2));
    lemma_escaped_guarded(m.receipt_handle@, c4, k2);
    assert(guarded(c2, c4, k2));
    assert(guarded(o3, c4, k2));
    lemma_escaped_guarded(m.md5_of_body@, c4, k2);
    assert(guarded(c3, c4, k2));
    assert(guarded(o4, c4, k2));
    lemma_prefix_guarded(ps, 13, c4, k2);
    lemma_guarded_concat(concat_all(ps.take(13)), o4, c4, k2);
    lemma_field(ps, 13, m.body@, k2, k2);
    // no attributes
    let at = "<Attribute>"@;
    let ka = (1, 1, 1, 1);
    assert(guarded(a, at, ka));
    assert(guarded(o1, at, ka));
    lemma_escaped_guarded(m.message_id@, at, ka);
    assert(guarded(c1, at, ka));
    assert(guarded(sp, at, ka));
    assert(guarded(o2, at, ka));
    lemma_escaped_guarded(m.receipt_handle@, at, ka);
    assert(guarded(c2, at, ka));
    assert(guarded(o3, at, ka));
    lemma_escaped_guarded(m.md5_of_body@, at, ka);
    assert(guarded(c3, at, ka));
    assert(guarded(o4, at, ka));
    lemma_escaped_guarded(m.body@, at, ka);
    assert(guarded(c4, at, ka));
    assert(guarded(t, at, ka));
    assert(guarded(z, at, ka));
    lemma_prefix_guarded(ps, 18, at, ka);
    assert(ps.take(18) =~= ps);
    lemma_guarded_absent(s, at, ka);
    let ma = "<MessageAttribute>"@;
    let km = (1, 2, 8, 8);
    assert(guarded(a, ma, km));
    assert(guarded(o1, ma, km));
    lemma_escaped_guarded(m.message_id@, ma, km);
    assert(guarded(c1, ma, km));
    assert(guarded(sp, ma, km));
    assert(guarded(o2, ma, km));
    lemma_escaped_guarded(m.receipt_handle@, ma, km);
    assert(guarded(c2, ma, km));
    assert(guarded(o3, ma, km));
    lemma_escaped_guarded(m.md5_of_body@, ma, km);
    assert(guarded(c3, ma, km));
    assert(guarded(o4, ma, km));
    lemma_escaped_guarded(m.body@, ma, km);
    assert(guarded(c4, ma, km));
    assert(guarded(t, ma, km));
    assert(guarded(z, ma, km));
    lemma_prefix_guarded(ps, 18, ma, km);
    lemma_guarded_absent(s, ma, km);
    assert(segments(s, at, "</Attribute>"@, 0) =~= Seq::<Seq<char>>::empty());
    assert(segments(s, ma, "</MessageAttribute>"@, 0) =~= Seq::<Seq<char>>::empty());
    assert(attribute_members(Seq::<Seq<char>>::empty(), true) == Seq::<(Seq<char>, Seq<char>)>::empty());
    assert(message_attribute_members(Seq::<Seq<char>>::empty()) == Seq::<(Seq<char>, Seq<char>)>::empty());
}


/// The message holds no attributes of either kind.
pub open spec fn plain_message(m: ReceivedMessageInfo) -> bool {
    m.attributes@.len() == 0 && m.message_attributes@.len() == 0
}

/// One more piece joined.
pub(crate) proof fn lemma_concat_take_step(ps: Seq<Seq<char>>, i: int)
    requires
        0 <= i < ps.len(),
    ensures
        concat_all(ps.take(i + 1)) == concat_all(ps.take(i)) + ps[i],
{
    assert(ps.take(i + 1).drop_last() =~= ps.take(i));
    assert(ps.take(i + 1).last() == ps[i]);
}

/// The element of a received message, its pieces written out.
proof fn lemma_message_pieces_joined(m: ReceivedMessageInfo)
    ensures
        concat_all(message_pieces(m)) == message_pieces(m)[0] + message_pieces(m)[1] + message_pieces(m)[2]
            + message_pieces(m)[3] + message_pieces(m)[4] + message_pieces(m)[5] + message_pieces(m)[6]
            + message_pieces(m)[7] + message_pieces(m)[8] + message_pieces(m)[9] + message_pieces(m)[10]
            + message_pieces(m)[11] + message_pieces(m)[12] + message_pieces(m)[13] + message_pieces(m)[14]
            + message_pieces(m)[15] + message_pieces(m)[16] + message_pieces(m)[17],
{
    let ps = message_pieces(m);
    assert(ps.take(0) =~= Seq::<Seq<char>>::empty());
    assert(concat_all(ps.take(0)) == Seq::<char>::empty());
    lemma_concat_take_step(ps, 0);
    lemma_concat_take_step(ps, 1);
    lemma_concat_take_step(ps, 2);
    lemma_concat_take_step(ps, 3);
    lemma_concat_take_step(ps, 4);
    lemma_concat_take_step(ps, 5);
    lemma_concat_take_step(ps, 6);
    lemma_concat_take_step(ps, 7);
    lemma_concat_take_step(ps, 8);
    lemma_concat_take_step(ps, 9);
    lemma_concat_take_step(ps, 10);
    lemma_concat_take_step(ps, 11);
    lemma_concat_take_step(ps, 12);
    lemma_concat_take_step(ps, 13);
    lemma_concat_take_step(ps, 14);
    lemma_concat_take_step(ps, 15);
    lemma_concat_take_step(ps, 16);
    lemma_concat_take_step(ps, 17);
    assert(ps.take(18) =~= ps);
    assert(Seq::<char>::empty() + ps[0] =~= ps[0]);
}

/// A received message without attributes is written as its element,
/// indented and followed by a line break.
#[verifier::spinoff_prover]
#[verifier::rlimit(40)]
proof fn lemma_message_xml_shape(m: ReceivedMessageInfo)
    requires
        plain_message(m),
    ensures
        received_message_xml(m) == "    "@ + concat_all(message_pieces(m)) + "\n"@,
{
    reveal_strlit("<Message>\n      ");
    reveal_strlit("\n      ");
    reveal_strlit("\n    ");
    reveal_strlit("    ");
    reveal_strlit("\n");
    reveal_strlit("    <Message>\n");
    reveal_strlit("      <MessageId>");
    reveal_strlit("</MessageId>\n");
    reveal_strlit("      <ReceiptHandle>");
    reveal_strlit("</ReceiptHandle>\n");
    reveal_strlit("      <MD5OfBody>");
    reveal_strlit("</MD5OfBody>\n");
    reveal_strlit("      <Body>");
    reveal_strlit("</Body>\n");
    reveal_strlit("    </Message>\n");
    reveal_strlit("<MessageId>");
    reveal_strlit("</MessageId>");
    reveal_strlit("<ReceiptHandle>");
    reveal_strlit("</ReceiptHandle>");
    reveal_strlit("<MD5OfBody>");
    reveal_strlit("</MD5OfBody>");
    reveal_strlit("<Body>");
    reveal_strlit("</Body>");
    reveal_strlit("</Message>");
    lemma_message_pieces_joined(m);
    assert(m.attributes@ =~= Seq::<(String, String)>::empty());
    assert(m.message_attributes@ =~= Seq::<(String, crate::sqs::response::MessageAttributeInfo)>::empty());
    let ps = message_pieces(m);
    assert(received_message_xml(m) =~= "    "@ + ps[0] + ps[1] + ps[2] + ps[3] + ps[4] + ps[5] + ps[6] + ps[7] + ps[8]
        + ps[9] + ps[10] + ps[11] + ps[12] + ps[13] + ps[14] + ps[15] + ps[16] + ps[17] + "\n"@);
}

/// `received_messages_xml` written from the front.
proof fn lemma_messages_xml_front(ms: Seq<ReceivedMessageInfo>)
    requires
        ms.len() > 0,
    ensures
        received_messages_xml(ms) == received_message_xml(ms[0]) + received_messages_xml(ms.drop_first()),
    decreases ms.len(),
{
    if ms.len() == 1 {
        assert(ms.drop_first() =~= Seq::<ReceivedMessageInfo>::empty());
        assert(received_messages_xml(ms.drop_last()) == Seq::<char>::empty());
        assert(ms.last() == ms[0]);
        assert(received_messages_xml(ms) =~= received_message_xml(ms[0]) + Seq::<char>::empty());
    } else {
        lemma_messages_xml_front(ms.drop_last());
        assert(ms.drop_last().drop_first() =~= ms.drop_first().drop_last());
        assert(ms.drop_first().last() == ms.last());
        assert(ms.drop_last()[0] == ms[0]);
        assert(received_messages_xml(ms) =~= received_message_xml(ms[0]) + received_messages_xml(ms.drop_first()));
    }
}

/// Each `<` of `s` from `f` on is followed by a character other than `M`,
/// so that no `Message` tag starts there.
pub open spec fn no_message_tag(s: Seq<char>, f: int) -> bool {
    forall|j: int| f <= j < s.len() && s[j] == '<' ==> j + 1 < s.len() && #[trigger] s[j + 1] != 'M'
}

/// Matches in `b` are those in `a + b`, shifted.
pub(crate) proof fn lemma_occurs_shift(a: Seq<char>, b: Seq<char>, pat: Seq<char>, j: int)
    requires
        0 <= j,
    ensures
        occurs_at(a + b, pat, a.len() + j) == occurs_at(b, pat, j),
{
    if j + pat.len() <= b.len() {
        assert((a + b).subrange(a.len() + j, a.len() + j + pat.len()) =~= b.subrange(j, j + pat.len()));
    }
}

/// One step of the scan over the messages: the next element is that of
/// `m`, and the scan goes on at the line break that ends it.
#[verifier::spinoff_prover]
#[verifier::rlimit(60)]
proof fn lemma_message_step(p: Seq<char>, f: int, m: ReceivedMessageInfo, rest: Seq<char>)
    requires
        0 <= f <= p.len(),
        no_message_tag(p, f),
        plain_message(m),
    ensures
        ({
            let x = p + received_message_xml(m) + rest;
            let f2 = p.len() + received_message_xml(m).len() - 1;
            &&& received_message_xml(m).len() > 0
            &&& (p + received_message_xml(m))[f2] == '\n'
            &&& segments(x, "<Message>"@, "</Message>"@, f) == seq![concat_all(message_pieces(m))] + segments(
                x,
                "<Message>"@,
                "</Message>"@,
                f2,
            )
        }),
{
    reveal_strlit("<Message>");
    reveal_strlit("</Message>");
    reveal_strlit("<Message>\n      ");
    reveal_strlit("<MessageId>");
    reveal_strlit("</MessageId>");
    reveal_strlit("\n      ");
    reveal_strlit("<ReceiptHandle>");
    reveal_strlit("</ReceiptHandle>");
    reveal_strlit("<MD5OfBody>");
    reveal_strlit("</MD5OfBody>");
    reveal_strlit("<Body>");
    reveal_strlit("</Body>");
    reveal_strlit("\n    ");
    reveal_strlit("    ");
    reveal_strlit("\n");
    let open = "<Message>"@;
    let close = "</Message>"@;
    lemma_message_xml_shape(m);
    let ps = message_pieces(m);
    let seg = concat_all(ps);
    let entry = received_message_xml(m);
    let x = p + entry + rest;
    let q = p.len() as int;
    // the element starts with its opening tag and ends with its closing one
    lemma_concat_split(ps, 1);
    assert(ps.take(1) =~= seq![ps[0]]);
    assert(ps.take(1).drop_last() =~= Seq::<Seq<char>>::empty());
    assert(concat_all(Seq::<Seq<char>>::empty()) == Seq::<char>::empty());
    assert(concat_all(ps.take(1)) == Seq::<char>::empty() + ps[0]);
    assert(concat_all(ps.take(1)) =~= ps[0]);
    assert(ps.take(17).len() == 17);
    assert(ps.drop_last() =~= ps.take(17));
    assert(seg == concat_all(ps.take(17)) + ps[17]);
    let pre = concat_all(ps.take(17));
    // no closing tag before the end of the element
    let kz = (1, 2, 3, 9);
    assert(guarded(ps[0], close, kz));
    assert(guarded(ps[1], close, kz));
    lemma_escaped_guarded(m.message_id@, close, kz);
    assert(guarded(ps[3], close, kz));
    assert(guarded(ps[4], close, kz));
    assert(guarded(ps[5], close, kz));
    lemma_escaped_guarded(m.receipt_handle@, close, kz);
    assert(guarded(ps[7], close, kz));
    assert(guarded(ps[8], close, kz));
    assert(guarded(ps[9], close, kz));
    lemma_escaped_guarded(m.md5_of_body@, close, kz);
    assert(guarded(ps[11], close, kz));
    assert(guarded(ps[12], close, kz));
    assert(guarded(ps[13], close, kz));
    lemma_escaped_guarded(m.body@, close, kz);
    assert(guarded(ps[15], close, kz));
    assert(guarded(ps[16], close, kz));
    lemma_prefix_guarded(ps, 17, close, kz);
    let tail = ps[17] + "\n"@ + rest;
    lemma_guarded_no_match(pre, tail, close, kz);
    let head = p + "    "@;
    assert(x =~= head + (pre + tail));
    assert(entry.len() == seg.len() + 5);
    // the opening tag
    assert(seg.subrange(0, 9) =~= open) by {
        assert(seg == ps[0] + concat_all(ps.skip(1)));
    }
    assert(x.subrange(q + 4, q + 13) =~= seg.subrange(0, 9));
    assert forall|j: int| f <= j < q + 4 implies !occurs_at(x, open, j) by {
        if j >= q {
            assert(x[j] == ' ');
            lemma_no_match_at(x, open, j);
        } else if p[j] == '<' {
            assert(x[j + 1] == p[j + 1]);
            if occurs_at(x, open, j) {
                assert(x.subrange(j, j + 9)[1] == x[j + 1]);
            }
        } else {
            assert(x[j] == p[j]);
            lemma_no_match_at(x, open, j);
        }
    }
    lemma_first_occurrence(x, open, f, q + 4);
    // the closing tag
    let b = q + 4 + pre.len();
    assert forall|j: int| q + 4 <= j < b implies !occurs_at(x, close, j) by {
        lemma_occurs_shift(head, pre + tail, close, j - (q + 4));
    }
    assert(x.subrange(b, b + 10) =~= ps[17]);
    lemma_first_occurrence(x, close, q + 4, b);
    assert(x.subrange(q + 4, b + 10) =~= seg);
    let f2 = q + entry.len() - 1;
    assert((p + entry)[f2] == '\n');
}

/// Scanning `p`, then the elements written for `ms`, then `t`, from a
/// position of `p` after which no `Message` tag starts in `p`, when none
/// occurs in `t`.
proof fn lemma_scan_messages(p: Seq<char>, f: int, ms: Seq<ReceivedMessageInfo>, t: Seq<char>)
    requires
        0 <= f <= p.len(),
        no_message_tag(p, f),
        forall|j: int| 0 <= j ==> !occurs_at(t, "<Message>"@, j),
        forall|i: int| 0 <= i < ms.len() ==> plain_message(#[trigger] ms[i]),
    ensures
        segments(p + received_messages_xml(ms) + t, "<Message>"@, "</Message>"@, f) == ms.map_values(
            |m: ReceivedMessageInfo| concat_all(message_pieces(m)),
        ),
    decreases ms.len(),
{
    let open = "<Message>"@;
    let close = "</Message>"@;
    let x = p + received_messages_xml(ms) + t;
    if ms.len() == 0 {
        reveal_strlit("<Message>");
        assert(x =~= p + t);
        assert forall|j: int| f <= j implies !occurs_at(x, open, j) by {
            if j < p.len() {
                if p[j] == '<' {
                    assert(x[j + 1] == p[j + 1]);
                    if occurs_at(x, open, j) {
                        assert(x.subrange(j, j + 9)[1] == x[j + 1]);
                    }
                } else {
                    assert(x[j] == p[j]);
                    lemma_no_match_at(x, open, j);
                }
            } else {
                lemma_occurs_shift(p, t, open, j - p.len());
            }
        }
        reveal(find_from);
        assert(segments(x, open, close, f) =~= Seq::<Seq<char>>::empty());
        assert(ms.map_values(|m: ReceivedMessageInfo| concat_all(message_pieces(m))) =~= Seq::<Seq<char>>::empty());
    } else {
        lemma_messages_xml_front(ms);
        let m = ms[0];
        let entry = received_message_xml(m);
        let rest = received_messages_xml(ms.drop_first());
        assert(x =~= p + entry + (rest + t));
        lemma_message_step(p, f, m, rest + t);
        let p2 = p + entry;
        let f2 = p.len() + entry.len() - 1;
        assert(x =~= p2 + rest + t);
        assert forall|j: int| f2 <= j < p2.len() implies #[trigger] p2[j] != '<' by {
            assert(j == f2);
        }
        assert forall|i: int| 0 <= i < ms.drop_first().len() implies plain_message(#[trigger] ms.drop_first()[i]) by {
            assert(ms.drop_first()[i] == ms[i + 1]);
        }
        lemma_scan_messages(p2, f2, ms.drop_first(), t);
        let g = ms.map_values(|m: ReceivedMessageInfo| concat_all(message_pieces(m)));
        assert(g =~= seq![concat_all(message_pieces(m))] + ms.drop_first().map_values(
            |m: ReceivedMessageInfo| concat_all(message_pieces(m)),
        ));
    }
}


/// No `Message` tag starts anywhere in a text whose every `<` is followed by
/// another character than `M`.
proof fn lemma_no_message_tag_absent(s: Seq<char>)
    requires
        no_message_tag(s, 0),
    ensures
        forall|j: int| 0 <= j ==> !occurs_at(s, "<Message>"@, j),
{
    reveal_strlit("<Message>");
    assert forall|j: int| 0 <= j implies !occurs_at(s, "<Message>"@, j) by {
        if occurs_at(s, "<Message>"@, j) {
            let w = s.subrange(j, j + 9);
            assert(w[0] == s[j]);
            assert(w[1] == s[j + 1]);
        }
    }
}

/// The text of a ReceiveMessage response before its messages.
spec fn receive_head() -> Seq<char> {
    crate::sqs::response::xml_header() + "<"@ + "ReceiveMessage"@ + "Response"@ + crate::sqs::response::namespace_attr()
        + "\n"@ + "  <"@ + "ReceiveMessage"@ + "Result>\n"@
}

/// The text of a ReceiveMessage response after its messages.
spec fn receive_tail(rid: Seq<char>) -> Seq<char> {
    "  </"@ + "ReceiveMessage"@ + "Result>\n"@ + "  <ResponseMetadata>\n"@ + "    <RequestId>"@ + rid + "</RequestId>\n"@
        + "  </ResponseMetadata>\n"@ + "</"@ + "ReceiveMessage"@ + "Response>"@
}

/// What the fixed text of a ReceiveMessage response holds: no `Message` tag
/// but for the response's own name, and no `D` or `P`.
#[verifier::spinoff_prover]
#[verifier::rlimit(40)]
proof fn lemma_receive_frame(ms: Seq<ReceivedMessageInfo>, rid: Seq<char>)
    requires
        uuid_v4_text(rid),
    ensures
        batch_xml("ReceiveMessage"@, received_messages_xml(ms), Seq::empty(), rid) == receive_head()
            + received_messages_xml(ms) + receive_tail(rid),
        no_message_tag(receive_head(), 0),
        no_message_tag(receive_tail(rid), 0),
        forall|j: int| 0 <= j < receive_head().len() ==> #[trigger] receive_head()[j] != 'D' && receive_head()[j] != 'P',
        forall|j: int|
            0 <= j < receive_tail(rid).len() ==> #[trigger] receive_tail(rid)[j] != 'D' && receive_tail(rid)[j] != 'P',
        receive_head().subrange(23, 45) == "ReceiveMessageResponse"@,
        receive_head().len() >= 45,
{
    reveal_strlit("<?xml version=\"1.0\"?>");
    reveal_strlit("\n");
    reveal_strlit("<");
    reveal_strlit("ReceiveMessage");
    reveal_strlit("Response");
    reveal_strlit(" xmlns=\"http://queue.amazonaws.com/doc/2012-11-05/\">");
    reveal_strlit("  <");
    reveal_strlit("Result>\n");
    reveal_strlit("  </");
    reveal_strlit("  <ResponseMetadata>\n");
    reveal_strlit("    <RequestId>");
    reveal_strlit("</RequestId>\n");
    reveal_strlit("  </ResponseMetadata>\n");
    reveal_strlit("</");
    reveal_strlit("Response>");
    reveal_strlit("ReceiveMessageResponse");
    let h = receive_head();
    let a = "  </"@ + "ReceiveMessage"@ + "Result>\n"@ + "  <ResponseMetadata>\n"@ + "    <RequestId>"@;
    let b = "</RequestId>\n"@ + "  </ResponseMetadata>\n"@ + "</"@ + "ReceiveMessage"@ + "Response>"@;
    let t = receive_tail(rid);
    assert(t =~= a + rid + b);
    assert(error_entries_xml(Seq::empty()) == Seq::<char>::empty());
    assert(batch_xml("ReceiveMessage"@, received_messages_xml(ms), Seq::empty(), rid) =~= h + received_messages_xml(ms)
        + t);
    assert forall|j: int| 0 <= j < rid.len() implies #[trigger] rid[j] != '<' && rid[j] != 'D' && rid[j] != 'P' by {
        if j == 8 || j == 13 || j == 18 || j == 23 {
        } else {
            assert(is_lower_hex(rid[j]));
        }
    }
    assert(no_message_tag(h, 0));
    assert(no_message_tag(a, 0));
    assert(no_message_tag(b, 0));
    assert forall|j: int| 0 <= j < t.len() && t[j] == '<' implies j + 1 < t.len() && #[trigger] t[j + 1] != 'M' by {
        if j < a.len() {
            assert(t[j] == a[j]);
            assert(t[j + 1] == a[j + 1]);
        } else if j < a.len() + rid.len() {
            assert(t[j] == rid[j - a.len()]);
        } else {
            assert(t[j] == b[j - a.len() - rid.len()]);
            assert(t[j + 1] == b[j + 1 - a.len() - rid.len()]);
        }
    }
    assert(forall|j: int| 0 <= j < h.len() ==> #[trigger] h[j] != 'D' && h[j] != 'P');
    assert forall|j: int| 0 <= j < t.len() implies #[trigger] t[j] != 'D' && t[j] != 'P' by {
        if j < a.len() {
            assert(t[j] == a[j]);
        } else if j < a.len() + rid.len() {
            assert(t[j] == rid[j - a.len()]);
        } else {
            assert(t[j] == b[j - a.len() - rid.len()]);
        }
    }
    assert(h.subrange(23, 45) =~= "ReceiveMessageResponse"@);
}

/// The element texts that a ReceiveMessage response writes, read back in
/// order.
#[verifier::spinoff_prover]
proof fn lemma_receive_messages(ms: Seq<ReceivedMessageInfo>, rid: Seq<char>)
    requires
        forall|i: int| 0 <= i < ms.len() ==> plain_message(#[trigger] ms[i]),
        uuid_v4_text(rid),
    ensures
        segments(receive_head() + received_messages_xml(ms) + receive_tail(rid), "<Message>"@, "</Message>"@, 0)
            .map_values(|e: Seq<char>| message_json(e)) == ms.map_values(
            |m: ReceivedMessageInfo| received_message_json(m),
        ),
{
    lemma_receive_frame(ms, rid);
    lemma_no_message_tag_absent(receive_tail(rid));
    lemma_scan_messages(receive_head(), 0, ms, receive_tail(rid));
    let segs = segments(receive_head() + received_messages_xml(ms) + receive_tail(rid), "<Message>"@, "</Message>"@, 0);
    assert forall|i: int| 0 <= i < ms.len() implies message_json(#[trigger] segs[i]) == received_message_json(ms[i]) by {
        lemma_message_segment(ms[i]);
    }
    assert(segs.map_values(|e: Seq<char>| message_json(e)) =~= ms.map_values(
        |m: ReceivedMessageInfo| received_message_json(m),
    ));
}

/// The first message's element starts with its opening tag.
proof fn lemma_first_message_tag(ms: Seq<ReceivedMessageInfo>, h: Seq<char>, t: Seq<char>)
    requires
        ms.len() > 0,
        plain_message(ms[0]),
    ensures
        occurs_at(h + received_messages_xml(ms) + t, "<Message>"@, (h.len() + 4) as int),
{
    reveal_strlit("<Message>");
    reveal_strlit("<Message>\n      ");
    reveal_strlit("    ");
    lemma_messages_xml_front(ms);
    lemma_message_xml_shape(ms[0]);
    let ps = message_pieces(ms[0]);
    lemma_concat_split(ps, 1);
    lemma_concat_take_step(ps, 0);
    assert(ps.take(0) =~= Seq::<Seq<char>>::empty());
    assert(concat_all(ps.take(0)) == Seq::<char>::empty());
    assert(concat_all(ps.take(1)) =~= ps[0]);
    let e0 = concat_all(ps);
    let x = h + received_messages_xml(ms) + t;
    assert(x =~= h + ("    "@ + (ps[0] + concat_all(ps.skip(1))) + "\n"@ + received_messages_xml(ms.drop_first())) + t);
    let k = (h.len() + 4) as int;
    assert(x.subrange(k, k + 9) =~= "<Message>"@);
}

/// The written response ends its messages with a line break.
proof fn lemma_messages_end(ms: Seq<ReceivedMessageInfo>)
    requires
        ms.len() > 0,
        plain_message(ms.last()),
    ensures
        received_messages_xml(ms).len() > 0,
        received_messages_xml(ms).last() == '\n',
{
    reveal_strlit("\n");
    lemma_message_xml_shape(ms.last());
}

/// The JSON answer to ReceiveMessage, read off a ReceiveMessage response as
/// `build_receive_message_response` writes it with a version 4 UUID for
/// request ID, lists the messages when there is at least one, each with its
/// ID, receipt handle, body and body digest exactly as they were written,
/// whatever characters they hold; unless the text of their elements holds
/// the name of one of the two responses that the conversion looks for first.
#[verifier::spinoff_prover]
#[verifier::rlimit(40)]
pub proof fn law_receive_json_round_trip(ms: Seq<ReceivedMessageInfo>, rid: Seq<char>)
    requires
        ms.len() > 0,
        forall|i: int| 0 <= i < ms.len() ==> plain_message(#[trigger] ms[i]),
        uuid_v4_text(rid),
        forall|i: int| 0 <= i < 2 ==> !has_text(received_messages_xml(ms), #[trigger] response_markers()[i]),
    ensures
        xml_json(batch_xml("ReceiveMessage"@, received_messages_xml(ms), Seq::empty(), rid)) == object_text(
            seq![("Messages"@, array_text(ms.map_values(|m: ReceivedMessageInfo| received_message_json(m))))],
        ),
{
    reveal_strlit("DeleteMessageResponse");
    reveal_strlit("PurgeQueueResponse");
    let h = receive_head();
    let q = received_messages_xml(ms);
    let t = receive_tail(rid);
    let x = batch_xml("ReceiveMessage"@, q, Seq::empty(), rid);
    lemma_receive_frame(ms, rid);
    assert(x == h + q + t);
    lemma_receive_messages(ms, rid);
    lemma_messages_end(ms);
    let mk = response_markers();
    assert(!has_text(q, mk[0]));
    assert(!has_text(q, mk[1]));
    lemma_marker_outside(h, q, t, "DeleteMessageResponse"@);
    lemma_marker_outside(h, q, t, "PurgeQueueResponse"@);
    assert(has_text(x, "<Message>"@)) by {
        reveal(find_from);
        lemma_first_message_tag(ms, h, t);
    }
    assert(has_text(x, "ReceiveMessageResponse"@)) by {
        reveal(find_from);
        assert(x.subrange(23, 45) =~= h.subrange(23, 45));
        assert(occurs_at(x, "ReceiveMessageResponse"@, 23));
    }
}

} // verus!
