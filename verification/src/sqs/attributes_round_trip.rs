//! What a JSON-protocol client reads back from a GetQueueAttributes answer:
//! each attribute under its name, with the value as it was written.

use vstd::prelude::*;
use crate::sqs::json::json_quoted;
use crate::sqs::json_response::{
    attribute_members, find_from, has_text, inner, lemma_first_occurrence, lemma_marker_outside, lemma_no_match_at,
    object_text, occurs_at, segments, sorted_insert, xml_json,
};
use crate::sqs::receive_round_trip::{
    concat_all, guarded, lemma_concat_split, lemma_concat_take_step, lemma_escaped_guarded, lemma_field,
    lemma_guarded_concat, lemma_guarded_no_match, lemma_occurs_shift, lemma_prefix_guarded,
};
use crate::sqs::response::{attribute_entries_xml, attribute_entry_xml, batch_xml, error_entries_xml};
use crate::sqs::xml::{law_unescape_escape, lemma_escaped_has_no_lt, lemma_escaped_plain, special_chars, xml_escaped};
use crate::types::{is_lower_hex, uuid_v4_text};

verus! {

/// The members of a JSON object that holds each value of `s`, as a string,
/// under its name; a later pair wins over an earlier one with the same name.
pub open spec fn quoted_members(s: Seq<(String, String)>) -> Seq<(Seq<char>, Seq<char>)>
    decreases s.len(),
{
    if s.len() == 0 {
        Seq::empty()
    } else {
        sorted_insert(quoted_members(s.drop_last()), s.last().0@, json_quoted(s.last().1@))
    }
}

/// The response names that the JSON conversion looks for before the
/// GetQueueAttributes one, and that start with a capital letter.
pub open spec fn markers_before_attributes() -> Seq<Seq<char>> {
    seq![
        "DeleteMessageResponse"@,
        "PurgeQueueResponse"@,
        "SendMessageBatchResponse"@,
        "SendMessageBatchResult"@,
        "ListQueuesResponse"@,
        "ListQueuesResult"@,
    ]
}

/// Each `<` of `s` from `f` on is followed by a character other than `c`.
pub open spec fn no_tag_start(s: Seq<char>, f: int, c: char) -> bool {
    forall|j: int| f <= j < s.len() && #[trigger] s[j] == '<' ==> j + 1 < s.len() && s[j + 1] != c
}

proof fn lemma_no_tag_concat(a: Seq<char>, b: Seq<char>, c: char)
    requires
        no_tag_start(a, 0, c),
        no_tag_start(b, 0, c),
    ensures
        no_tag_start(a + b, 0, c),
{
    let s = a + b;
    assert forall|j: int| 0 <= j < s.len() && #[trigger] s[j] == '<' implies j + 1 < s.len() && s[j + 1] != c by {
        if j < a.len() {
            assert(s[j] == a[j]);
            assert(j + 1 < a.len() && a[j + 1] != c);
            assert(s[j + 1] == a[j + 1]);
        } else {
            let k = j - a.len();
            assert(s[j] == b[k]);
            assert(k + 1 < b.len() && b[k + 1] != c);
            assert(s[j + 1] == b[k + 1]);
        }
    }
}

/// No tag that starts with `<` and `c` occurs in a text whose every `<` is
/// followed by another character.
proof fn lemma_no_tag_absent(s: Seq<char>, pat: Seq<char>)
    requires
        pat.len() >= 2,
        pat[0] == '<',
        no_tag_start(s, 0, pat[1]),
    ensures
        forall|j: int| 0 <= j ==> !occurs_at(s, pat, j),
{
    assert forall|j: int| 0 <= j implies !occurs_at(s, pat, j) by {
        if occurs_at(s, pat, j) {
            let w = s.subrange(j, j + pat.len());
            assert(w[0] == s[j]);
            assert(w[1] == s[j + 1]);
        }
    }
}

/// The pieces of an attribute's element, from its opening tag to its
/// closing one, as the GetQueueAttributes response writes it.
pub open spec fn attribute_pieces(a: (String, String)) -> Seq<Seq<char>> {
    seq![
        "<Attribute>\n      "@,
        "<Name>"@,
        xml_escaped(a.0@),
        "</Name>"@,
        "\n      "@,
        "<Value>"@,
        xml_escaped(a.1@),
        "</Value>"@,
        "\n    "@,
        "</Attribute>"@,
    ]
}

/// A name without any of the five characters that XML escapes.
pub open spec fn plain_name(n: Seq<char>) -> bool {
    forall|j: int| 0 <= j < n.len() ==> !special_chars().contains(#[trigger] n[j])
}

/// An attribute is written as its element, indented and followed by a line
/// break.
proof fn lemma_attribute_xml_shape(a: (String, String))
    ensures
        attribute_entry_xml(a) == "    "@ + concat_all(attribute_pieces(a)) + "\n"@,
{
    reveal_strlit("<Attribute>\n      ");
    reveal_strlit("<Name>");
    reveal_strlit("</Name>");
    reveal_strlit("\n      ");
    reveal_strlit("<Value>");
    reveal_strlit("</Value>");
    reveal_strlit("\n    ");
    reveal_strlit("</Attribute>");
    reveal_strlit("    ");
    reveal_strlit("\n");
    reveal_strlit("    <Attribute>\n");
    reveal_strlit("      <Name>");
    reveal_strlit("</Name>\n");
    reveal_strlit("      <Value>");
    reveal_strlit("</Value>\n");
    reveal_strlit("    </Attribute>\n");
    let ps = attribute_pieces(a);
    assert(ps.take(0) =~= Seq::<Seq<char>>::empty());
    assert(concat_all(ps.take(0)) == Seq::<char>::empty());
    lemma_concat_take_step(ps, 0);
    lemma_concat_take_step(ps, 1);
    lemma_concat_take_step(ps, 2);
    lemma_concat_take_step(ps, 3);
    lemma_concat_take_step(ps, 4);
    lemma_concat_take_step(ps, 5);
    lemma_concat_take_step(ps, 6);
    lemma_concat_take_step(ps, 7);
    lemma_concat_take_step(ps, 8);
    lemma_concat_take_step(ps, 9);
    assert(ps.take(10) =~= ps);
    assert(Seq::<char>::empty() + ps[0] =~= ps[0]);
    assert(attribute_entry_xml(a) =~= "    "@ + ps[0] + ps[1] + ps[2] + ps[3] + ps[4] + ps[5] + ps[6] + ps[7] + ps[8]
        + ps[9] + "\n"@);
}

/// An attribute's element reads back as its name and its value.
#[verifier::spinoff_prover]
#[verifier::rlimit(40)]
proof fn lemma_attribute_segment(a: (String, String))
    requires
        plain_name(a.0@),
    ensures
        inner(concat_all(attribute_pieces(a)), "<Name>"@, "</Name>"@) == Some(a.0@),
        inner(concat_all(attribute_pieces(a)), "<Value>"@, "</Value>"@) == Some(xml_escaped(a.1@)),
{
    reveal_strlit("<Attribute>\n      ");
    reveal_strlit("<Name>");
    reveal_strlit("</Name>");
    reveal_strlit("\n      ");
    reveal_strlit("<Value>");
    reveal_strlit("</Value>");
    let ps = attribute_pieces(a);
    let k1 = (1, 1, 1, 1);
    assert(guarded(ps[0], ps[1], k1));
    lemma_prefix_guarded(ps, 1, ps[1], k1);
    assert(guarded(ps[0], ps[3], k1));
    assert(guarded(ps[1], ps[3], k1));
    lemma_prefix_guarded(ps, 1, ps[3], k1);
    lemma_guarded_concat(concat_all(ps.take(1)), ps[1], ps[3], k1);
    lemma_field(ps, 1, a.0@, k1, k1);
    lemma_escaped_plain(a.0@);
    let k2 = (1, 2, 2, 2);
    assert(guarded(ps[0], ps[5], k2));
    assert(guarded(ps[1], ps[5], k2));
    lemma_escaped_guarded(a.0@, ps[5], k2);
    assert(guarded(ps[3], ps[5], k2));
    assert(guarded(ps[4], ps[5], k2));
    lemma_prefix_guarded(ps, 5, ps[5], k2);
    assert(guarded(ps[0], ps[7], k2));
    assert(guarded(ps[1], ps[7], k2));
    lemma_escaped_guarded(a.0@, ps[7], k2);
    assert(guarded(ps[3], ps[7], k2));
    assert(guarded(ps[4], ps[7], k2));
    assert(guarded(ps[5], ps[7], k2));
    lemma_prefix_guarded(ps, 5, ps[7], k2);
    lemma_guarded_concat(concat_all(ps.take(5)), ps[5], ps[7], k2);
    lemma_field(ps, 5, a.1@, k2, k2);
}

/// One step of the scan over the attributes: the next element is that of
/// `a`, and the scan goes on at the line break that ends it.
#[verifier::spinoff_prover]
#[verifier::rlimit(60)]
proof fn lemma_attribute_step(p: Seq<char>, f: int, a: (String, String), rest: Seq<char>)
    requires
        0 <= f <= p.len(),
        no_tag_start(p, f, 'A'),
    ensures
        ({
            let x = p + attribute_entry_xml(a) + rest;
            let f2 = p.len() + attribute_entry_xml(a).len() - 1;
            &&& attribute_entry_xml(a).len() > 0
            &&& (p + attribute_entry_xml(a))[f2] == '\n'
            &&& segments(x, "<Attribute>"@, "</Attribute>"@, f) == seq![concat_all(attribute_pieces(a))]
                + segments(x, "<Attribute>"@, "</Attribute>"@, f2)
        }),
{
    reveal_strlit("<Attribute>");
    reveal_strlit("</Attribute>");
    reveal_strlit("<Attribute>\n      ");
    reveal_strlit("<Name>");
    reveal_strlit("</Name>");
    reveal_strlit("\n      ");
    reveal_strlit("<Value>");
    reveal_strlit("</Value>");
    reveal_strlit("\n    ");
    reveal_strlit("    ");
    reveal_strlit("\n");
    let open = "<Attribute>"@;
    let close = "</Attribute>"@;
    lemma_attribute_xml_shape(a);
    let ps = attribute_pieces(a);
    let seg = concat_all(ps);
    let entry = attribute_entry_xml(a);
    let x = p + entry + rest;
    let q = p.len() as int;
    lemma_concat_split(ps, 1);
    assert(ps.take(1).drop_last() =~= Seq::<Seq<char>>::empty());
    assert(concat_all(Seq::<Seq<char>>::empty()) == Seq::<char>::empty());
    assert(concat_all(ps.take(1)) == Seq::<char>::empty() + ps[0]);
    assert(concat_all(ps.take(1)) =~= ps[0]);
    assert(ps.drop_last() =~= ps.take(9));
    assert(seg == concat_all(ps.take(9)) + ps[9]);
    let pre = concat_all(ps.take(9));
    let kz = (1, 2, 2, 2);
    assert(guarded(ps[0], close, kz));
    assert(guarded(ps[1], close, kz));
    lemma_escaped_guarded(a.0@, close, kz);
    assert(guarded(ps[3], close, kz));
    assert(guarded(ps[4], close, kz));
    assert(guarded(ps[5], close, kz));
    lemma_escaped_guarded(a.1@, close, kz);
    assert(guarded(ps[7], close, kz));
    assert(guarded(ps[8], close, kz));
    lemma_prefix_guarded(ps, 9, close, kz);
    let tail = ps[9] + "\n"@ + rest;
    lemma_guarded_no_match(pre, tail, close, kz);
    let head = p + "    "@;
    assert(x =~= head + (pre + tail));
    assert(entry.len() == seg.len() + 5);
    assert(seg.subrange(0, 11) =~= open) by {
        assert(seg == ps[0] + concat_all(ps.skip(1)));
    }
    assert(x.subrange(q + 4, q + 15) =~= seg.subrange(0, 11));
    assert forall|j: int| f <= j < q + 4 implies !occurs_at(x, open, j) by {
        if j >= q {
            assert(x[j] == ' ');
            lemma_no_match_at(x, open, j);
        } else if p[j] == '<' {
            assert(x[j + 1] == p[j + 1]);
            if occurs_at(x, open, j) {
                assert(x.subrange(j, j + 11)[1] == x[j + 1]);
            }
        } else {
            assert(x[j] == p[j]);
            lemma_no_match_at(x, open, j);
        }
    }
    lemma_first_occurrence(x, open, f, q + 4);
    let b = q + 4 + pre.len();
    assert forall|j: int| q + 4 <= j < b implies !occurs_at(x, close, j) by {
        lemma_occurs_shift(head, pre + tail, close, j - (q + 4));
    }
    assert(x.subrange(b, b + 12) =~= ps[9]);
    lemma_first_occurrence(x, close, q + 4, b);
    assert(x.subrange(q + 4, b + 12) =~= seg);
    let f2 = q + entry.len() - 1;
    assert((p + entry)[f2] == '\n');
}

/// `attribute_entries_xml` written from the front.
proof fn lemma_entries_xml_front(s: Seq<(String, String)>)
    requires
        s.len() > 0,
    ensures
        attribute_entries_xml(s) == attribute_entry_xml(s[0]) + attribute_entries_xml(s.drop_first()),
    decreases s.len(),
{
    if s.len() == 1 {
        assert(s.drop_first() =~= Seq::<(String, String)>::empty());
        assert(attribute_entries_xml(s.drop_last()) == Seq::<char>::empty());
        assert(s.last() == s[0]);
        assert(attribute_entries_xml(s) =~= attribute_entry_xml(s[0]) + Seq::<char>::empty());
    } else {
        lemma_entries_xml_front(s.drop_last());
        assert(s.drop_last().drop_first() =~= s.drop_first().drop_last());
        assert(s.drop_first().last() == s.last());
        assert(s.drop_last()[0] == s[0]);
        assert(attribute_entries_xml(s) =~= attribute_entry_xml(s[0]) + attribute_entries_xml(s.drop_first()));
    }
}

/// Scanning `p`, then the elements written for `s`, then `t`.
proof fn lemma_scan_attributes(p: Seq<char>, f: int, s: Seq<(String, String)>, t: Seq<char>)
    requires
        0 <= f <= p.len(),
        no_tag_start(p, f, 'A'),
        forall|j: int| 0 <= j ==> !occurs_at(t, "<Attribute>"@, j),
    ensures
        segments(p + attribute_entries_xml(s) + t, "<Attribute>"@, "</Attribute>"@, f) == s.map_values(
            |a: (String, String)| concat_all(attribute_pieces(a)),
        ),
    decreases s.len(),
{
    let open = "<Attribute>"@;
    let close = "</Attribute>"@;
    let x = p + attribute_entries_xml(s) + t;
    if s.len() == 0 {
        reveal_strlit("<Attribute>");
        assert(x =~= p + t);
        assert forall|j: int| f <= j implies !occurs_at(x, open, j) by {
            if j < p.len() {
                if p[j] == '<' {
                    assert(x[j + 1] == p[j + 1]);
                    if occurs_at(x, open, j) {
                        assert(x.subrange(j, j + 11)[1] == x[j + 1]);
                    }
                } else {
                    assert(x[j] == p[j]);
                    lemma_no_match_at(x, open, j);
                }
            } else {
                lemma_occurs_shift(p, t, open, j - p.len());
            }
        }
        reveal(find_from);
        assert(segments(x, open, close, f) =~= Seq::<Seq<char>>::empty());
        assert(s.map_values(|a: (String, String)| concat_all(attribute_pieces(a))) =~= Seq::<Seq<char>>::empty());
    } else {
        lemma_entries_xml_front(s);
        let a = s[0];
        let entry = attribute_entry_xml(a);
        let rest = attribute_entries_xml(s.drop_first());
        assert(x =~= p + entry + (rest + t));
        lemma_attribute_step(p, f, a, rest + t);
        let p2 = p + entry;
        let f2 = p.len() + entry.len() - 1;
        assert(x =~= p2 + rest + t);
        assert forall|j: int| f2 <= j < p2.len() && #[trigger] p2[j] == '<' implies j + 1 < p2.len() && p2[j + 1]
            != 'A' by {
            assert(j == f2);
        }
        lemma_scan_attributes(p2, f2, s.drop_first(), t);
        let g = s.map_values(|a: (String, String)| concat_all(attribute_pieces(a)));
        assert(g =~= seq![concat_all(attribute_pieces(a))] + s.drop_first().map_values(
            |a: (String, String)| concat_all(attribute_pieces(a)),
        ));
    }
}

/// The members read off the attributes' elements are those of the
/// attributes, values unescaped.
proof fn lemma_attribute_members(s: Seq<(String, String)>)
    requires
        forall|i: int| 0 <= i < s.len() ==> plain_name(#[trigger] s[i].0@),
    ensures
        attribute_members(s.map_values(|a: (String, String)| concat_all(attribute_pieces(a))), true)
            == quoted_members(s),
    decreases s.len(),
{
    let segs = s.map_values(|a: (String, String)| concat_all(attribute_pieces(a)));
    if s.len() > 0 {
        assert forall|i: int| 0 <= i < s.drop_last().len() implies plain_name(#[trigger] s.drop_last()[i].0@) by {
            assert(s.drop_last()[i] == s[i]);
        }
        lemma_attribute_members(s.drop_last());
        assert(segs.drop_last() =~= s.drop_last().map_values(|a: (String, String)| concat_all(attribute_pieces(a))));
        let l = s.last();
        assert(plain_name(s[s.len() - 1].0@));
        assert(segs.last() == concat_all(attribute_pieces(l)));
        lemma_attribute_segment(l);
        law_unescape_escape(l.1@);
    }
}

/// The text of a GetQueueAttributes response before its attributes.
spec fn attributes_head() -> Seq<char> {
    crate::sqs::response::xml_header() + "<"@ + "GetQueueAttributes"@ + "Response"@
        + crate::sqs::response::namespace_attr() + "\n"@ + "  <"@ + "GetQueueAttributes"@ + "Result>\n"@
}

/// The text of a GetQueueAttributes response after its attributes.
spec fn attributes_tail(rid: Seq<char>) -> Seq<char> {
    "  </"@ + "GetQueueAttributes"@ + "Result>\n"@ + "  <ResponseMetadata>\n"@ + "    <RequestId>"@ + rid
        + "</RequestId>\n"@ + "  </ResponseMetadata>\n"@ + "</"@ + "GetQueueAttributes"@ + "Response>"@
}

/// What the fixed text of a GetQueueAttributes response holds.
#[verifier::spinoff_prover]
#[verifier::rlimit(40)]
proof fn lemma_attributes_frame(s: Seq<(String, String)>, rid: Seq<char>)
    requires
        uuid_v4_text(rid),
    ensures
        batch_xml("GetQueueAttributes"@, attribute_entries_xml(s), Seq::empty(), rid) == attributes_head()
            + attribute_entries_xml(s) + attributes_tail(rid),
        no_tag_start(attributes_head(), 0, 'A'),
        no_tag_start(attributes_tail(rid), 0, 'A'),
        no_tag_start(attributes_head(), 0, 'M'),
        no_tag_start(attributes_tail(rid), 0, 'M'),
        forall|j: int|
            0 <= j < attributes_head().len() ==> {
                let c = #[trigger] attributes_head()[j];
                c != 'D' && c != 'P' && c != 'S' && c != 'L'
            },
        forall|j: int|
            0 <= j < attributes_tail(rid).len() ==> {
                let c = #[trigger] attributes_tail(rid)[j];
                c != 'D' && c != 'P' && c != 'S' && c != 'L'
            },
        attributes_head().len() >= 49,
        attributes_head().subrange(23, 49) == "GetQueueAttributesResponse"@,
{
    reveal_strlit("<?xml version=\"1.0\"?>");
    reveal_strlit("\n");
    reveal_strlit("<");
    reveal_strlit("GetQueueAttributes");
    reveal_strlit("Response");
    reveal_strlit(" xmlns=\"http://queue.amazonaws.com/doc/2012-11-05/\">");
    reveal_strlit("  <");
    reveal_strlit("Result>\n");
    reveal_strlit("  </");
    reveal_strlit("  <ResponseMetadata>\n");
    reveal_strlit("    <RequestId>");
    reveal_strlit("</RequestId>\n");
    reveal_strlit("  </ResponseMetadata>\n");
    reveal_strlit("</");
    reveal_strlit("Response>");
    reveal_strlit("GetQueueAttributesResponse");
    let h = attributes_head();
    let a = "  </"@ + "GetQueueAttributes"@ + "Result>\n"@ + "  <ResponseMetadata>\n"@ + "    <RequestId>"@;
    let b = "</RequestId>\n"@ + "  </ResponseMetadata>\n"@ + "</"@ + "GetQueueAttributes"@ + "Response>"@;
    let t = attributes_tail(rid);
    assert(t =~= a + rid + b);
    assert(error_entries_xml(Seq::empty()) == Seq::<char>::empty());
    assert(batch_xml("GetQueueAttributes"@, attribute_entries_xml(s), Seq::empty(), rid) =~= h
        + attribute_entries_xml(s) + t);
    assert forall|j: int| 0 <= j < rid.len() implies {
        let c = #[trigger] rid[j];
        c != '<' && c != 'D' && c != 'P' && c != 'S' && c != 'L'
    } by {
        if j == 8 || j == 13 || j == 18 || j == 23 {
        } else {
            assert(is_lower_hex(rid[j]));
        }
    }
    assert(no_tag_start(h, 0, 'A'));
    assert(no_tag_start(h, 0, 'M'));
    assert(no_tag_start(a, 0, 'A'));
    assert(no_tag_start(a, 0, 'M'));
    assert(no_tag_start(b, 0, 'A'));
    assert(no_tag_start(b, 0, 'M'));
    assert(no_tag_start(rid, 0, 'A'));
    assert(no_tag_start(rid, 0, 'M'));
    lemma_no_tag_concat(a, rid, 'A');
    lemma_no_tag_concat(a + rid, b, 'A');
    lemma_no_tag_concat(a, rid, 'M');
    lemma_no_tag_concat(a + rid, b, 'M');
    assert(forall|j: int| 0 <= j < h.len() ==> {
        let c = #[trigger] h[j];
        c != 'D' && c != 'P' && c != 'S' && c != 'L'
    });
    assert forall|j: int| 0 <= j < t.len() implies {
        let c = #[trigger] t[j];
        c != 'D' && c != 'P' && c != 'S' && c != 'L'
    } by {
        if j < a.len() {
            assert(t[j] == a[j]);
        } else if j < a.len() + rid.len() {
            assert(t[j] == rid[j - a.len()]);
        } else {
            assert(t[j] == b[j - a.len() - rid.len()]);
        }
    }
    assert(h.subrange(23, 49) =~= "GetQueueAttributesResponse"@);
}

/// The attributes' elements hold no `<` followed by `M`, and end with a
/// line break.
proof fn lemma_entries_no_message_tag(s: Seq<(String, String)>)
    ensures
        no_tag_start(attribute_entries_xml(s), 0, 'M'),
        attribute_entries_xml(s).len() > 0 ==> attribute_entries_xml(s).last() == '\n',
    decreases s.len(),
{
    if s.len() > 0 {
        lemma_entries_no_message_tag(s.drop_last());
        let a = s.last();
        lemma_attribute_xml_shape(a);
        let ps = attribute_pieces(a);
        reveal_strlit("<Attribute>\n      ");
        reveal_strlit("<Name>");
        reveal_strlit("</Name>");
        reveal_strlit("\n      ");
        reveal_strlit("<Value>");
        reveal_strlit("</Value>");
        reveal_strlit("\n    ");
        reveal_strlit("</Attribute>");
        reveal_strlit("    ");
        reveal_strlit("\n");
        lemma_escaped_has_no_lt(a.0@);
        lemma_escaped_has_no_lt(a.1@);
        assert(no_tag_start("    "@, 0, 'M'));
        assert(no_tag_start("\n"@, 0, 'M'));
        assert(no_tag_start(ps[0], 0, 'M'));
        assert(no_tag_start(ps[1], 0, 'M'));
        assert(no_tag_start(ps[2], 0, 'M'));
        assert(no_tag_start(ps[3], 0, 'M'));
        assert(no_tag_start(ps[4], 0, 'M'));
        assert(no_tag_start(ps[5], 0, 'M'));
        assert(no_tag_start(ps[6], 0, 'M'));
        assert(no_tag_start(ps[7], 0, 'M'));
        assert(no_tag_start(ps[8], 0, 'M'));
        assert(no_tag_start(ps[9], 0, 'M'));
        assert(ps.take(0) =~= Seq::<Seq<char>>::empty());
        assert(concat_all(ps.take(0)) == Seq::<char>::empty());
        lemma_concat_take_step(ps, 0);
        lemma_concat_take_step(ps, 1);
        lemma_concat_take_step(ps, 2);
        lemma_concat_take_step(ps, 3);
        lemma_concat_take_step(ps, 4);
        lemma_concat_take_step(ps, 5);
        lemma_concat_take_step(ps, 6);
        lemma_concat_take_step(ps, 7);
        lemma_concat_take_step(ps, 8);
        lemma_concat_take_step(ps, 9);
        assert(ps.take(10) =~= ps);
        assert(no_tag_start(Seq::<char>::empty(), 0, 'M'));
        lemma_no_tag_concat(concat_all(ps.take(0)), ps[0], 'M');
        lemma_no_tag_concat(concat_all(ps.take(1)), ps[1], 'M');
        lemma_no_tag_concat(concat_all(ps.take(2)), ps[2], 'M');
        lemma_no_tag_concat(concat_all(ps.take(3)), ps[3], 'M');
        lemma_no_tag_concat(concat_all(ps.take(4)), ps[4], 'M');
        lemma_no_tag_concat(concat_all(ps.take(5)), ps[5], 'M');
        lemma_no_tag_concat(concat_all(ps.take(6)), ps[6], 'M');
        lemma_no_tag_concat(concat_all(ps.take(7)), ps[7], 'M');
        lemma_no_tag_concat(concat_all(ps.take(8)), ps[8], 'M');
        lemma_no_tag_concat(concat_all(ps.take(9)), ps[9], 'M');
        lemma_no_tag_concat("    "@, concat_all(ps), 'M');
        lemma_no_tag_concat("    "@ + concat_all(ps), "\n"@, 'M');
        lemma_no_tag_concat(attribute_entries_xml(s.drop_last()), attribute_entry_xml(a), 'M');
    }
}

/// The JSON answer to GetQueueAttributes, read off a GetQueueAttributes
/// response as `build_get_queue_attributes_response` writes it with a
/// version 4 UUID for request ID, holds each attribute under its name with
/// the value as it was given, whatever characters the value holds (a later
/// attribute wins over an earlier one of the same name); when no name holds
/// a character that XML escapes and the text of the elements holds no name
/// of a response that the conversion looks for first.
#[verifier::spinoff_prover]
#[verifier::rlimit(60)]
pub proof fn law_queue_attributes_json_round_trip(s: Seq<(String, String)>, rid: Seq<char>)
    requires
        uuid_v4_text(rid),
        forall|i: int| 0 <= i < s.len() ==> plain_name(#[trigger] s[i].0@),
        forall|i: int| 0 <= i < 6 ==> !has_text(attribute_entries_xml(s), #[trigger] markers_before_attributes()[i]),
    ensures
        xml_json(batch_xml("GetQueueAttributes"@, attribute_entries_xml(s), Seq::empty(), rid)) == object_text(
            seq![("Attributes"@, object_text(quoted_members(s)))],
        ),
{
    reveal_strlit("DeleteMessageResponse");
    reveal_strlit("PurgeQueueResponse");
    reveal_strlit("SendMessageBatchResponse");
    reveal_strlit("SendMessageBatchResult");
    reveal_strlit("ListQueuesResponse");
    reveal_strlit("ListQueuesResult");
    reveal_strlit("<Message>");
    reveal_strlit("<Attribute>");
    let h = attributes_head();
    let q = attribute_entries_xml(s);
    let t = attributes_tail(rid);
    let x = batch_xml("GetQueueAttributes"@, q, Seq::empty(), rid);
    lemma_attributes_frame(s, rid);
    assert(x == h + q + t);
    // the attributes
    lemma_no_tag_absent(t, "<Attribute>"@);
    lemma_scan_attributes(h, 0, s, t);
    lemma_attribute_members(s);
    // the dispatch
    lemma_entries_no_message_tag(s);
    let mk = markers_before_attributes();
    assert(!has_text(q, mk[0]));
    assert(!has_text(q, mk[1]));
    assert(!has_text(q, mk[2]));
    assert(!has_text(q, mk[3]));
    assert(!has_text(q, mk[4]));
    assert(!has_text(q, mk[5]));
    lemma_marker_outside(h, q, t, "DeleteMessageResponse"@);
    lemma_marker_outside(h, q, t, "PurgeQueueResponse"@);
    lemma_marker_outside(h, q, t, "SendMessageBatchResponse"@);
    lemma_marker_outside(h, q, t, "SendMessageBatchResult"@);
    lemma_marker_outside(h, q, t, "ListQueuesResponse"@);
    lemma_marker_outside(h, q, t, "ListQueuesResult"@);
    assert(!has_text(x, "<Message>"@)) by {
        lemma_no_tag_concat(h, q, 'M');
        lemma_no_tag_concat(h + q, t, 'M');
        lemma_no_tag_absent(x, "<Message>"@);
        reveal(find_from);
    }
    assert(has_text(x, "GetQueueAttributesResponse"@)) by {
        reveal(find_from);
        assert(x.subrange(23, 49) =~= h.subrange(23, 49));
        assert(occurs_at(x, "GetQueueAttributesResponse"@, 23));
    }
}

} // verus!
