//! The AWS JSON 1.0 form of a response: the JSON document that answers a JSON
//! request, read off the XML response of the same action.

use vstd::prelude::*;
use crate::sqs::json::{json_quote, json_quoted};
use crate::sqs::xml::{lemma_escaped_has_no_lt, lemma_escaped_no_new_capital, law_unescape_escape, unescape_xml, xml_escaped, xml_unescaped};
use crate::sqs::response::{batch_xml, metadata_xml, namespace_attr, queue_url_entry_xml, queue_urls_xml, xml_header};
use crate::text::{chars_lt, chars_of, push_char, push_str, str_eq, string_from_chars, string_lt, to_owned_string};

verus! {

broadcast use vstd::string::group_string_axioms;

// ---------------------------------------------------------------------------
// JSON text
// ---------------------------------------------------------------------------

pub open spec fn text_pairs(v: Seq<(String, String)>) -> Seq<(Seq<char>, Seq<char>)> {
    v.map_values(|p: (String, String)| (p.0@, p.1@))
}

pub open spec fn texts(v: Seq<String>) -> Seq<Seq<char>> {
    v.map_values(|s: String| s@)
}

/// The members of an object, each a key and the JSON text of its value,
/// separated by commas.
pub open spec fn members_body(m: Seq<(Seq<char>, Seq<char>)>) -> Seq<char>
    decreases m.len(),
{
    if m.len() == 0 {
        Seq::empty()
    } else if m.len() == 1 {
        json_quoted(m[0].0) + seq![':'] + m[0].1
    } else {
        members_body(m.drop_last()) + seq![','] + json_quoted(m.last().0) + seq![':'] + m.last().1
    }
}

/// The JSON text of an object with the given members, in order.
pub open spec fn object_text(m: Seq<(Seq<char>, Seq<char>)>) -> Seq<char> {
    seq!['{'] + members_body(m) + seq!['}']
}

pub open spec fn items_body(items: Seq<Seq<char>>) -> Seq<char>
    decreases items.len(),
{
    if items.len() == 0 {
        Seq::empty()
    } else if items.len() == 1 {
        items[0]
    } else {
        items_body(items.drop_last()) + seq![','] + items.last()
    }
}

/// The JSON text of an array of values given by their JSON texts.
pub open spec fn array_text(items: Seq<Seq<char>>) -> Seq<char> {
    seq!['['] + items_body(items) + seq![']']
}

/// Writes an object.
pub fn write_object(members: &Vec<(String, String)>) -> (r: String)
    ensures
        r@ == object_text(text_pairs(members@)),
{
    let ghost m = text_pairs(members@);
    let mut r = String::new();
    push_char(&mut r, '{');
    let mut i: usize = 0;
    while i < members.len()
        invariant
            i <= members.len(),
            m == text_pairs(members@),
            r@ == seq!['{'] + members_body(m.take(i as int)),
        decreases members.len() - i,
    {
        if i > 0 {
            push_char(&mut r, ',');
        }
        let q = json_quote(members[i].0.as_str());
        push_str(&mut r, q.as_str());
        push_char(&mut r, ':');
        push_str(&mut r, members[i].1.as_str());
        let ghost t = m.take(i + 1);
        assert(t.drop_last() =~= m.take(i as int));
        assert(r@ =~= seq!['{'] + members_body(t));
        i = i + 1;
    }
    push_char(&mut r, '}');
    assert(m.take(members.len() as int) =~= m);
    r
}

/// Writes an array.
pub fn write_array(items: &Vec<String>) -> (r: String)
    ensures
        r@ == array_text(texts(items@)),
{
    let ghost t = texts(items@);
    let mut r = String::new();
    push_char(&mut r, '[');
    let mut i: usize = 0;
    while i < items.len()
        invariant
            i <= items.len(),
            t == texts(items@),
            r@ == seq!['['] + items_body(t.take(i as int)),
        decreases items.len() - i,
    {
        if i > 0 {
            push_char(&mut r, ',');
        }
        push_str(&mut r, items[i].as_str());
        let ghost u = t.take(i + 1);
        assert(u.drop_last() =~= t.take(i as int));
        assert(r@ =~= seq!['['] + items_body(u));
        i = i + 1;
    }
    push_char(&mut r, ']');
    assert(t.take(items.len() as int) =~= t);
    r
}

// ---------------------------------------------------------------------------
// Objects whose keys are kept in order, as serde_json's map keeps them
// ---------------------------------------------------------------------------

/// Inserting a member into an object whose keys are in order: the value of
/// an existing key is replaced, a new key goes before the first greater one.
pub open spec fn sorted_insert(s: Seq<(Seq<char>, Seq<char>)>, k: Seq<char>, v: Seq<char>) -> Seq<
    (Seq<char>, Seq<char>),
>
    decreases s.len(),
{
    if s.len() == 0 {
        seq![(k, v)]
    } else if s[0].0 == k {
        s.update(0, (k, v))
    } else if chars_lt(k, s[0].0) {
        seq![(k, v)] + s
    } else {
        seq![s[0]] + sorted_insert(s.drop_first(), k, v)
    }
}

proof fn lemma_sorted_insert_skip(s: Seq<(Seq<char>, Seq<char>)>, k: Seq<char>, v: Seq<char>, i: int)
    requires
        0 <= i <= s.len(),
        forall|j: int| 0 <= j < i ==> #[trigger] s[j].0 != k && !chars_lt(k, s[j].0),
    ensures
        sorted_insert(s, k, v) == s.take(i) + sorted_insert(s.skip(i), k, v),
    decreases i,
{
    if i == 0 {
        assert(s.skip(0) =~= s);
        assert(s.take(0) + sorted_insert(s, k, v) =~= sorted_insert(s, k, v));
    } else {
        let t = s.drop_first();
        assert forall|j: int| 0 <= j < i - 1 implies #[trigger] t[j].0 != k && !chars_lt(k, t[j].0) by {
            assert(t[j] == s[j + 1]);
        }
        lemma_sorted_insert_skip(t, k, v, i - 1);
        assert(t.skip(i - 1) =~= s.skip(i));
        assert(s.take(i) =~= seq![s[0]] + t.take(i - 1));
        assert(s[0].0 != k && !chars_lt(k, s[0].0));
        assert(sorted_insert(s, k, v) == seq![s[0]] + sorted_insert(t, k, v));
        assert(seq![s[0]] + (t.take(i - 1) + sorted_insert(s.skip(i), k, v)) =~= s.take(i) + sorted_insert(
            s.skip(i),
            k,
            v,
        ));
    }
}

/// Inserts a member into an object whose keys are in order.
pub fn object_insert(members: &mut Vec<(String, String)>, key: String, value: String)
    ensures
        text_pairs(final(members)@) == sorted_insert(text_pairs(old(members)@), key@, value@),
{
    let ghost s = text_pairs(members@);
    let mut i: usize = 0;
    while i < members.len()
        invariant
            i <= members.len(),
            s == text_pairs(members@),
            s == text_pairs(old(members)@),
            forall|j: int| 0 <= j < i ==> #[trigger] s[j].0 != key@ && !chars_lt(key@, s[j].0),
        decreases members.len() - i,
    {
        if str_eq(members[i].0.as_str(), key.as_str()) {
            proof {
                lemma_sorted_insert_skip(s, key@, value@, i as int);
                assert(s.skip(i as int)[0] == s[i as int]);
                assert(sorted_insert(s.skip(i as int), key@, value@) =~= s.skip(i as int).update(0, (key@, value@)));
            }
            let ghost before = members@;
            let ghost k = key@;
            let ghost v = value@;
            members.set(i, (key, value));
            assert(text_pairs(members@) =~= s.take(i as int) + s.skip(i as int).update(0, (k, v)));
            assert(text_pairs(members@) == sorted_insert(s, k, v));
            return;
        }
        if string_lt(key.as_str(), members[i].0.as_str()) {
            proof {
                lemma_sorted_insert_skip(s, key@, value@, i as int);
                assert(s.skip(i as int)[0] == s[i as int]);
            }
            let ghost k = key@;
            let ghost v = value@;
            members.insert(i, (key, value));
            assert(text_pairs(members@) =~= s.take(i as int) + (seq![(k, v)] + s.skip(i as int)));
            assert(text_pairs(members@) == sorted_insert(s, k, v));
            return;
        }
        i = i + 1;
    }
    proof {
        lemma_sorted_insert_skip(s, key@, value@, i as int);
        assert(s.skip(i as int) =~= Seq::<(Seq<char>, Seq<char>)>::empty());
    }
    let ghost k = key@;
    let ghost v = value@;
    members.push((key, value));
    assert(text_pairs(members@) =~= s.take(i as int) + seq![(k, v)]);
}

// ---------------------------------------------------------------------------
// Finding tags
// ---------------------------------------------------------------------------

/// `pat` occurs in `s` at `i`.
pub open spec fn occurs_at(s: Seq<char>, pat: Seq<char>, i: int) -> bool {
    0 <= i && i + pat.len() <= s.len() && s.subrange(i, i + pat.len()) == pat
}

/// `str::find` from position `from`: the first position at or after `from`
/// where `pat` occurs.
#[verifier::opaque]
pub open spec fn find_from(s: Seq<char>, pat: Seq<char>, from: int) -> Option<int> {
    if exists|i: int| from <= i && occurs_at(s, pat, i) {
        Some(choose|i: int| from <= i && occurs_at(s, pat, i) && forall|j: int| from <= j < i ==> !occurs_at(s, pat, j))
    } else {
        None
    }
}

pub open spec fn has_text(s: Seq<char>, pat: Seq<char>) -> bool {
    find_from(s, pat, 0) is Some
}

fn matches_at(v: &Vec<char>, pat: &Vec<char>, i: usize) -> (r: bool)
    ensures
        r == occurs_at(v@, pat@, i as int),
{
    if i > v.len() || pat.len() > v.len() - i {
        return false;
    }
    let mut k: usize = 0;
    while k < pat.len()
        invariant
            i + pat.len() <= v.len(),
            k <= pat.len(),
            forall|j: int| 0 <= j < k ==> v@[i + j] == pat@[j],
        decreases pat.len() - k,
    {
        if v[i + k] != pat[k] {
            assert(v@.subrange(i as int, i + pat.len())[k as int] != pat@[k as int]);
            return false;
        }
        k = k + 1;
    }
    assert(v@.subrange(i as int, i + pat.len()) =~= pat@);
    true
}

/// Finds `pat` in `v` at or after `from`.
pub fn find_text(v: &Vec<char>, pat: &Vec<char>, from: usize) -> (r: Option<usize>)
    ensures
        match r {
            Some(i) => find_from(v@, pat@, from as int) == Some(i as int) && from <= i && i + pat@.len() <= v@.len(),
            None => find_from(v@, pat@, from as int) is None,
        },
{
    if from > v.len() {
        assert(!exists|j: int| from <= j && occurs_at(v@, pat@, j));
        proof {
            reveal(find_from);
        }
        return None;
    }
    let mut i: usize = from;
    loop
        invariant_except_break
            from <= i <= v.len(),
            forall|j: int| from <= j < i ==> !occurs_at(v@, pat@, j),
        ensures
            forall|j: int| from <= j < i ==> !occurs_at(v@, pat@, j),
            i == v.len() || occurs_at(v@, pat@, i as int),
            from <= i <= v.len(),
        decreases v.len() - i,
    {
        if i == v.len() || matches_at(v, pat, i) {
            break;
        }
        i = i + 1;
    }
    if matches_at(v, pat, i) {
        proof {
            lemma_first_occurrence(v@, pat@, from as int, i as int);
        }
        return Some(i);
    }
    assert(!exists|j: int| from <= j && occurs_at(v@, pat@, j)) by {
        if exists|j: int| from <= j && occurs_at(v@, pat@, j) {
            let j = choose|j: int| from <= j && occurs_at(v@, pat@, j);
            assert(j + pat@.len() <= v@.len());
        }
    }
    proof {
        reveal(find_from);
    }
    None
}

pub(crate) proof fn lemma_first_occurrence(s: Seq<char>, pat: Seq<char>, from: int, i: int)
    requires
        from <= i,
        occurs_at(s, pat, i),
        forall|j: int| from <= j < i ==> !occurs_at(s, pat, j),
    ensures
        find_from(s, pat, from) == Some(i),
{
    reveal(find_from);
    let c = choose|c: int| from <= c && occurs_at(s, pat, c) && forall|j: int| from <= j < c ==> !occurs_at(s, pat, j);
    assert(c == i) by {
        if c < i {
            assert(!occurs_at(s, pat, c));
        }
        if c > i {
            assert(!occurs_at(s, pat, i));
        }
    }
}

/// The characters `v[lo..hi]`.
fn copy_range(v: &Vec<char>, lo: usize, hi: usize) -> (r: Vec<char>)
    requires
        lo <= hi <= v.len(),
    ensures
        r@ == v@.subrange(lo as int, hi as int),
{
    let mut r: Vec<char> = Vec::new();
    let mut k: usize = lo;
    while k < hi
        invariant
            lo <= k <= hi <= v.len(),
            r@ == v@.subrange(lo as int, k as int),
        decreases hi - k,
    {
        r.push(v[k]);
        assert(v@.subrange(lo as int, k as int).push(v@[k as int]) =~= v@.subrange(lo as int, k + 1));
        k = k + 1;
    }
    r
}

/// The text between the first `open` and the first `close` of `seg`, when
/// both occur in that order.
pub open spec fn inner(seg: Seq<char>, open: Seq<char>, close: Seq<char>) -> Option<Seq<char>> {
    match (find_from(seg, open, 0), find_from(seg, close, 0)) {
        (Some(i), Some(j)) => if i + open.len() <= j {
            Some(seg.subrange(i + open.len(), j))
        } else {
            None
        },
        _ => None,
    }
}

fn inner_text(seg: &Vec<char>, open: &str, close: &str) -> (r: Option<String>)
    ensures
        match inner(seg@, open@, close@) {
            Some(t) => r is Some && r.unwrap()@ == t,
            None => r is None,
        },
{
    let o = chars_of(open);
    let c = chars_of(close);
    match (find_text(seg, &o, 0), find_text(seg, &c, 0)) {
        (Some(i), Some(j)) => {
            if o.len() <= j && i <= j - o.len() {
                let t = copy_range(seg, i + o.len(), j);
                Some(string_from_chars(t.as_slice()))
            } else {
                None
            }
        },
        _ => None,
    }
}

/// The text of the first `open` .. `close` element of `seg` as an XML
/// reader gives it: with the entities replaced by their characters.
pub open spec fn element_text(seg: Seq<char>, open: Seq<char>, close: Seq<char>) -> Option<Seq<char>> {
    match inner(seg, open, close) {
        Some(t) => Some(xml_unescaped(t)),
        None => None,
    }
}

fn element_text_of(seg: &Vec<char>, open: &str, close: &str) -> (r: Option<String>)
    ensures
        match element_text(seg@, open@, close@) {
            Some(t) => r is Some && r.unwrap()@ == t,
            None => r is None,
        },
{
    match inner_text(seg, open, close) {
        Some(t) => Some(unescape_xml(t.as_str())),
        None => None,
    }
}

/// A `QueueUrl` element as a ListQueues response writes it reads back as
/// its URL, whatever characters the URL holds.
pub proof fn law_queue_url_element_round_trip(url: String)
    ensures
        element_text(queue_url_entry_xml(url), "<QueueUrl>"@, "</QueueUrl>"@) == Some(url@),
{
    reveal_strlit("    <QueueUrl>");
    reveal_strlit("<QueueUrl>");
    reveal_strlit("</QueueUrl>");
    reveal_strlit("</QueueUrl>\n");
    let a = "    <QueueUrl>"@;
    let e = xml_escaped(url@);
    let b = "</QueueUrl>\n"@;
    let seg = queue_url_entry_xml(url);
    let open = "<QueueUrl>"@;
    let close = "</QueueUrl>"@;
    assert(seg == a + e + b);
    lemma_escaped_has_no_lt(url@);
    let n = (e.len() + 14) as int;
    assert(seg.subrange(4, 14) =~= open);
    assert forall|j: int| 0 <= j < 4 implies !occurs_at(seg, open, j) by {
        assert(seg.subrange(j, j + 10)[0] == seg[j]);
    }
    lemma_first_occurrence(seg, open, 0, 4);
    assert(seg.subrange(n, n + 11) =~= close);
    assert forall|j: int| 0 <= j < n implies !occurs_at(seg, close, j) by {
        if j + 11 <= seg.len() {
            assert(seg.subrange(j, j + 11)[0] == seg[j]);
            assert(seg.subrange(j, j + 11)[1] == seg[j + 1]);
            if j >= 14 {
                assert(seg[j] == e[j - 14]);
            }
        }
    }
    lemma_first_occurrence(seg, close, 0, n);
    assert(seg.subrange(14, n) =~= e);
    law_unescape_escape(url@);
}

/// Each `<` of `s` from `f` on is followed by a character other than `Q`,
/// so that no `QueueUrl` tag starts there.
pub open spec fn no_queue_url_tag(s: Seq<char>, f: int) -> bool {
    forall|j: int| f <= j < s.len() && s[j] == '<' ==> j + 1 < s.len() && #[trigger] s[j + 1] != 'Q'
}

/// No match of `pat` starts at a character other than its first.
pub(crate) proof fn lemma_no_match_at(s: Seq<char>, pat: Seq<char>, j: int)
    requires
        pat.len() > 0,
        0 <= j,
        j < s.len() ==> s[j] != pat[0],
    ensures
        !occurs_at(s, pat, j),
{
    if occurs_at(s, pat, j) {
        assert(s.subrange(j, j + pat.len())[0] == s[j]);
    }
}

/// No match of `pat` starts at or after `from` when none fits there and
/// the text from `from` on does not hold its first character.
proof fn lemma_no_match_from(s: Seq<char>, pat: Seq<char>, from: int)
    requires
        pat.len() > 0,
        0 <= from,
        forall|j: int| from <= j < s.len() ==> s[j] != pat[0],
    ensures
        find_from(s, pat, from) is None,
{
    assert forall|j: int| from <= j implies !occurs_at(s, pat, j) by {
        lemma_no_match_at(s, pat, j);
    }
    reveal(find_from);
}

/// The text of a ListQueues response's `QueueUrl` element, from its opening
/// tag to its closing one, reads back as the URL.
proof fn lemma_url_segment(url: String)
    ensures
        element_text("<QueueUrl>"@ + xml_escaped(url@) + "</QueueUrl>"@, "<QueueUrl>"@, "</QueueUrl>"@) == Some(url@),
{
    reveal_strlit("<QueueUrl>");
    reveal_strlit("</QueueUrl>");
    let open = "<QueueUrl>"@;
    let close = "</QueueUrl>"@;
    let e = xml_escaped(url@);
    let seg = open + e + close;
    lemma_escaped_has_no_lt(url@);
    let n = (e.len() + 10) as int;
    assert(seg.subrange(0, 10) =~= open);
    lemma_first_occurrence(seg, open, 0, 0);
    assert(seg.subrange(n, n + 11) =~= close);
    assert forall|j: int| 0 <= j < n implies !occurs_at(seg, close, j) by {
        if j + 11 <= seg.len() {
            assert(seg.subrange(j, j + 11)[0] == seg[j]);
            assert(seg.subrange(j, j + 11)[1] == seg[j + 1]);
            if j >= 10 {
                assert(seg[j] == e[j - 10]);
            }
        }
    }
    lemma_first_occurrence(seg, close, 0, n);
    assert(seg.subrange(10, n) =~= e);
    law_unescape_escape(url@);
}

/// `queue_url_items` read from the front.
proof fn lemma_url_items_front(a: Seq<char>, rest: Seq<Seq<char>>)
    ensures
        queue_url_items(seq![a] + rest) == (match element_text(a, "<QueueUrl>"@, "</QueueUrl>"@) {
            Some(u) => seq![json_quoted(u)],
            None => Seq::<Seq<char>>::empty(),
        }) + queue_url_items(rest),
    decreases rest.len(),
{
    let first = match element_text(a, "<QueueUrl>"@, "</QueueUrl>"@) {
        Some(u) => seq![json_quoted(u)],
        None => Seq::<Seq<char>>::empty(),
    };
    let all = seq![a] + rest;
    if rest.len() == 0 {
        assert(all =~= seq![a]);
        assert(all.drop_last() =~= Seq::<Seq<char>>::empty());
        assert(queue_url_items(Seq::<Seq<char>>::empty()) == Seq::<Seq<char>>::empty());
        assert(queue_url_items(rest) == Seq::<Seq<char>>::empty());
        match element_text(a, "<QueueUrl>"@, "</QueueUrl>"@) {
            Some(u) => {
                assert(queue_url_items(all) == Seq::<Seq<char>>::empty().push(json_quoted(u)));
                assert(Seq::<Seq<char>>::empty().push(json_quoted(u)) =~= first + Seq::<Seq<char>>::empty());
            },
            None => {
                assert(queue_url_items(all) == Seq::<Seq<char>>::empty());
                assert(first + Seq::<Seq<char>>::empty() =~= Seq::<Seq<char>>::empty());
            },
        }
    } else {
        lemma_url_items_front(a, rest.drop_last());
        assert(all.drop_last() =~= seq![a] + rest.drop_last());
        assert(all.last() == rest.last());
        let x = queue_url_items(rest.drop_last());
        match element_text(rest.last(), "<QueueUrl>"@, "</QueueUrl>"@) {
            Some(u) => {
                assert(queue_url_items(all) == (first + x).push(json_quoted(u)));
                assert(queue_url_items(rest) == x.push(json_quoted(u)));
                assert((first + x).push(json_quoted(u)) =~= first + x.push(json_quoted(u)));
            },
            None => {
                assert(queue_url_items(all) == first + x);
                assert(queue_url_items(rest) == x);
            },
        }
    }
}

/// `queue_urls_xml` written from the front.
proof fn lemma_urls_xml_front(urls: Seq<String>)
    requires
        urls.len() > 0,
    ensures
        queue_urls_xml(urls) == queue_url_entry_xml(urls[0]) + queue_urls_xml(urls.drop_first()),
    decreases urls.len(),
{
    if urls.len() == 1 {
        assert(urls.drop_last() =~= Seq::<String>::empty());
        assert(urls.drop_first() =~= Seq::<String>::empty());
        assert(queue_urls_xml(urls.drop_last()) == Seq::<char>::empty());
        assert(urls.last() == urls[0]);
        assert(queue_urls_xml(urls) =~= queue_url_entry_xml(urls[0]));
        assert(queue_url_entry_xml(urls[0]) + Seq::<char>::empty() =~= queue_url_entry_xml(urls[0]));
    } else {
        lemma_urls_xml_front(urls.drop_last());
        assert(urls.drop_last().drop_first() =~= urls.drop_first().drop_last());
        assert(urls.drop_first().last() == urls.last());
        assert(urls.drop_last()[0] == urls[0]);
        assert(queue_urls_xml(urls) =~= queue_url_entry_xml(urls[0]) + queue_urls_xml(urls.drop_first()));
    }
}

/// One step of the scan: from a position of `p` after which `p` holds no
/// `<`, the next element is the one written for `u`, and the scan goes on at
/// the line break that ends it.
#[verifier::spinoff_prover]
#[verifier::rlimit(40)]
proof fn lemma_scan_step(p: Seq<char>, f: int, u: String, rest: Seq<char>)
    requires
        0 <= f <= p.len(),
        no_queue_url_tag(p, f),
    ensures
        ({
            let x = p + queue_url_entry_xml(u) + rest;
            let f2 = p.len() + queue_url_entry_xml(u).len() - 1;
            &&& queue_url_entry_xml(u).len() >= 12
            &&& (p + queue_url_entry_xml(u))[f2] == '\n'
            &&& segments(x, "<QueueUrl>"@, "</QueueUrl>"@, f) == seq![
                "<QueueUrl>"@ + xml_escaped(u@) + "</QueueUrl>"@,
            ] + segments(x, "<QueueUrl>"@, "</QueueUrl>"@, f2)
        }),
{
    reveal_strlit("<QueueUrl>");
    reveal_strlit("</QueueUrl>");
    reveal_strlit("    <QueueUrl>");
    reveal_strlit("</QueueUrl>\n");
    reveal_strlit("    ");
    reveal_strlit("\n");
    let open = "<QueueUrl>"@;
    let close = "</QueueUrl>"@;
    let entry = queue_url_entry_xml(u);
    let x = p + entry + rest;
    let e = xml_escaped(u@);
    lemma_escaped_has_no_lt(u@);
    let q = p.len() as int;
    let n = (e.len() + 14) as int;
    assert("    <QueueUrl>"@ =~= "    "@ + open);
    assert("</QueueUrl>\n"@ =~= close + "\n"@);
    assert(entry =~= "    "@ + open + e + close + "\n"@);
    assert(entry.len() == n + 12);
    assert forall|j: int| 0 <= j < entry.len() implies #[trigger] x[q + j] == entry[j] by {}
    assert forall|j: int| 0 <= j < e.len() implies #[trigger] entry[14 + j] == e[j] by {}
    assert(x.subrange(q + 4, q + 14) =~= open);
    assert forall|j: int| f <= j < q + 4 implies !occurs_at(x, open, j) by {
        if j >= q {
            assert(x[q + (j - q)] == entry[j - q]);
            lemma_no_match_at(x, open, j);
        } else if p[j] == '<' {
            assert(x[j + 1] == p[j + 1]);
            if occurs_at(x, open, j) {
                assert(x.subrange(j, j + 10)[1] == x[j + 1]);
            }
        } else {
            lemma_no_match_at(x, open, j);
        }
    }
    lemma_first_occurrence(x, open, f, q + 4);
    assert(x.subrange(q + n, q + n + 11) =~= close);
    assert forall|j: int| q + 4 <= j < q + n implies !occurs_at(x, close, j) by {
        if j == q + 4 {
            assert(x[q + 5] == entry[5]);
            if occurs_at(x, close, j) {
                assert(x.subrange(j, j + 11)[1] == x[j + 1]);
            }
        } else {
            assert(x[q + (j - q)] == entry[j - q]);
            if j >= q + 14 {
                assert(entry[14 + (j - q - 14)] == e[j - q - 14]);
            }
            lemma_no_match_at(x, close, j);
        }
    }
    lemma_first_occurrence(x, close, q + 4, q + n);
    assert(x.subrange(q + 4, q + n + 11) =~= open + e + close);
    let f2 = q + n + 11;
    assert((p + entry)[f2] == entry[n + 11]);
}

/// Scanning `p`, then the elements written for `urls`, then `t`, from a
/// position of `p` after which no `QueueUrl` tag starts in `p`, when none
/// occurs in `t`.
proof fn lemma_scan_urls(p: Seq<char>, f: int, urls: Seq<String>, t: Seq<char>)
    requires
        0 <= f <= p.len(),
        no_queue_url_tag(p, f),
        forall|j: int| 0 <= j ==> !occurs_at(t, "<QueueUrl>"@, j),
    ensures
        queue_url_items(segments(p + queue_urls_xml(urls) + t, "<QueueUrl>"@, "</QueueUrl>"@, f)) == urls.map_values(
            |u: String| json_quoted(u@),
        ),
    decreases urls.len(),
{
    let open = "<QueueUrl>"@;
    let close = "</QueueUrl>"@;
    let x = p + queue_urls_xml(urls) + t;
    if urls.len() == 0 {
        reveal_strlit("<QueueUrl>");
        assert(x =~= p + t);
        assert forall|j: int| f <= j implies !occurs_at(x, open, j) by {
            if j < p.len() {
                if p[j] == '<' {
                    assert(x[j + 1] == p[j + 1]);
                    if occurs_at(x, open, j) {
                        assert(x.subrange(j, j + 10)[1] == x[j + 1]);
                    }
                } else {
                    assert(x[j] == p[j]);
                    lemma_no_match_at(x, open, j);
                }
            } else {
                let k = j - p.len();
                assert(!occurs_at(t, open, k));
                if occurs_at(x, open, j) {
                    assert(x.subrange(j, j + 10) =~= t.subrange(k, k + 10));
                }
            }
        }
        reveal(find_from);
        assert(segments(x, open, close, f) =~= Seq::<Seq<char>>::empty());
        assert(urls.map_values(|u: String| json_quoted(u@)) =~= Seq::<Seq<char>>::empty());
    } else {
        lemma_urls_xml_front(urls);
        let u = urls[0];
        let entry = queue_url_entry_xml(u);
        let rest = queue_urls_xml(urls.drop_first());
        assert(x =~= p + entry + (rest + t));
        lemma_scan_step(p, f, u, rest + t);
        let p2 = p + entry;
        let f2 = p.len() + entry.len() - 1;
        assert(x =~= p2 + rest + t);
        lemma_scan_urls(p2, f2, urls.drop_first(), t);
        let seg = open + xml_escaped(u@) + close;
        lemma_url_segment(u);
        lemma_url_items_front(seg, segments(x, open, close, f2));
        let m = urls.map_values(|v: String| json_quoted(v@));
        assert(m =~= seq![json_quoted(u@)] + urls.drop_first().map_values(|v: String| json_quoted(v@)));
    }
}

/// The `QueueUrl` elements that a ListQueues response writes read back, in
/// order, as the URLs it was given, whatever characters they hold.
pub proof fn law_queue_url_elements_round_trip(urls: Seq<String>)
    ensures
        queue_url_items(segments(queue_urls_xml(urls), "<QueueUrl>"@, "</QueueUrl>"@, 0)) == urls.map_values(
            |u: String| json_quoted(u@),
        ),
{
    reveal_strlit("<QueueUrl>");
    lemma_scan_urls(Seq::empty(), 0, urls, Seq::empty());
    assert(Seq::<char>::empty() + queue_urls_xml(urls) + Seq::<char>::empty() =~= queue_urls_xml(urls));
}

/// The JSON answer to ListQueues read off a ListQueues response lists the
/// URLs the response was written for, in order and whatever characters they
/// hold, when its request ID holds no `QueueUrl` tag.
#[verifier::spinoff_prover]
#[verifier::rlimit(60)]
pub proof fn law_list_queues_json_urls(urls: Seq<String>, rid: Seq<char>)
    requires
        !has_text(rid, "<QueueUrl>"@),
    ensures
        list_queues_json(batch_xml("ListQueues"@, queue_urls_xml(urls), Seq::empty(), rid)) == object_text(
            seq![("QueueUrls"@, array_text(urls.map_values(|u: String| json_quoted(u@))))],
        ),
{
    reveal_strlit("<QueueUrl>");
    reveal_strlit("<?xml version=\"1.0\"?>");
    reveal_strlit("\n");
    reveal_strlit("<");
    reveal_strlit("ListQueues");
    reveal_strlit("Response");
    reveal_strlit(" xmlns=\"http://queue.amazonaws.com/doc/2012-11-05/\">");
    reveal_strlit("  <");
    reveal_strlit("Result>\n");
    reveal_strlit("  </");
    reveal_strlit("  <ResponseMetadata>\n");
    reveal_strlit("    <RequestId>");
    reveal_strlit("</RequestId>\n");
    reveal_strlit("  </ResponseMetadata>\n");
    reveal_strlit("</");
    reveal_strlit("Response>");
    let open = "<QueueUrl>"@;
    let h = xml_header() + "<"@ + "ListQueues"@ + "Response"@ + namespace_attr() + "\n"@ + "  <"@ + "ListQueues"@
        + "Result>\n"@;
    let a = "  </"@ + "ListQueues"@ + "Result>\n"@ + "  <ResponseMetadata>\n"@ + "    <RequestId>"@;
    let b = "</RequestId>\n"@ + "  </ResponseMetadata>\n"@ + "</"@ + "ListQueues"@ + "Response>"@;
    let t = a + rid + b;
    let x = batch_xml("ListQueues"@, queue_urls_xml(urls), Seq::empty(), rid);
    assert(crate::sqs::response::error_entries_xml(Seq::empty()) == Seq::<char>::empty());
    assert(x =~= h + queue_urls_xml(urls) + t);
    assert(no_queue_url_tag(h, 0));
    assert(no_queue_url_tag(a, 0));
    assert(no_queue_url_tag(b, 0));
    assert(a.last() == '>');
    assert(b[0] == '<');
    reveal(find_from);
    assert forall|j: int| 0 <= j implies !occurs_at(t, open, j) by {
        if occurs_at(t, open, j) {
            let w = t.subrange(j, j + 10);
            assert(w == open);
            assert(w[0] == t[j]);
            assert(w[1] == t[j + 1]);
            let r0 = a.len() as int;
            let r1 = (a.len() + rid.len()) as int;
            if j < r0 {
                assert(t[j] == a[j]);
                assert(j + 1 < r0);
                assert(t[j + 1] == a[j + 1]);
            } else if j < r1 {
                if j + 10 <= r1 {
                    assert(rid.subrange(j - r0, j - r0 + 10) =~= w);
                    assert(occurs_at(rid, open, j - r0));
                } else {
                    let m = r1 - j;
                    assert(w[m] == t[r1]);
                    assert(t[r1] == b[0]);
                }
            } else {
                assert(t[j] == b[j - r1]);
                assert(j + 1 - r1 < b.len());
                assert(t[j + 1] == b[j + 1 - r1]);
            }
        }
    }
    lemma_scan_urls(h, 0, urls, t);
}

/// The four response names that the JSON conversion looks for before the
/// ListQueues one and that start with a capital letter.
pub open spec fn response_markers() -> Seq<Seq<char>> {
    seq![
        "DeleteMessageResponse"@,
        "PurgeQueueResponse"@,
        "SendMessageBatchResponse"@,
        "SendMessageBatchResult"@,
    ]
}

/// Each `<` of the `QueueUrl` elements written for `urls` opens or closes
/// such an element.
proof fn lemma_urls_xml_tags(urls: Seq<String>)
    ensures
        forall|j: int|
            0 <= j < queue_urls_xml(urls).len() && queue_urls_xml(urls)[j] == '<' ==> j + 1 < queue_urls_xml(urls).len()
                && (#[trigger] queue_urls_xml(urls)[j + 1] == 'Q' || queue_urls_xml(urls)[j + 1] == '/'),
        queue_urls_xml(urls).len() > 0 ==> queue_urls_xml(urls).last() == '\n',
    decreases urls.len(),
{
    reveal_strlit("    <QueueUrl>");
    reveal_strlit("</QueueUrl>\n");
    if urls.len() > 0 {
        lemma_urls_xml_tags(urls.drop_last());
        let q0 = queue_urls_xml(urls.drop_last());
        let u = urls.last();
        let e = xml_escaped(u@);
        lemma_escaped_has_no_lt(u@);
        let entry = queue_url_entry_xml(u);
        let q = queue_urls_xml(urls);
        assert(q == q0 + entry);
        let n0 = q0.len() as int;
        assert forall|j: int| 0 <= j < q.len() && q[j] == '<' implies j + 1 < q.len() && (#[trigger] q[j + 1] == 'Q'
            || q[j + 1] == '/') by {
            if j < n0 {
                assert(q[j] == q0[j]);
                assert(q[j + 1] == q0[j + 1]);
            } else {
                let k = j - n0;
                assert(q[j] == entry[k]);
                if k >= 14 && k < 14 + e.len() {
                    assert(entry[k] == e[k - 14]);
                }
                assert(q[j + 1] == entry[k + 1]);
            }
        }
    }
}

/// A marker whose first character `s` lacks, and which holds no line break,
/// occurs in `h + q + s` only where it occurs in `q`, when `h` ends with a
/// line break or is empty and `q` ends with one or is empty.
#[verifier::spinoff_prover]
#[verifier::rlimit(50)]
pub(crate) proof fn lemma_marker_outside(h: Seq<char>, q: Seq<char>, s: Seq<char>, pat: Seq<char>)
    requires
        pat.len() > 0,
        forall|k: int| 0 <= k < pat.len() ==> #[trigger] pat[k] != '\n',
        forall|j: int| 0 <= j < h.len() ==> #[trigger] h[j] != pat[0],
        forall|j: int| 0 <= j < s.len() ==> #[trigger] s[j] != pat[0],
        q.len() > 0 ==> q.last() == '\n',
        !has_text(q, pat),
    ensures
        !has_text(h + q + s, pat),
{
    reveal(find_from);
    let x = h + q + s;
    let r0 = h.len() as int;
    let r1 = (h.len() + q.len()) as int;
    assert forall|j: int| 0 <= j implies !occurs_at(x, pat, j) by {
        if occurs_at(x, pat, j) {
            let w = x.subrange(j, j + pat.len());
            assert(w[0] == x[j]);
            if j < r0 {
                assert(x[j] == h[j]);
            } else if j < r1 {
                if j + pat.len() <= r1 {
                    assert(q.subrange(j - r0, j - r0 + pat.len()) =~= w);
                    assert(occurs_at(q, pat, j - r0));
                } else {
                    assert(w[r1 - 1 - j] == x[r1 - 1]);
                    assert(x[r1 - 1] == q[q.len() - 1]);
                }
            } else {
                assert(x[j] == s[j - r1]);
            }
        }
    }
}

/// The `QueueUrl` elements written for URLs without the capital letter `c`
/// hold no `c`.
proof fn lemma_urls_xml_no_capital(urls: Seq<String>, c: char)
    requires
        c == 'D' || c == 'P' || c == 'S',
        forall|i: int| 0 <= i < urls.len() ==> !(#[trigger] urls[i]@).contains(c),
    ensures
        forall|j: int| 0 <= j < queue_urls_xml(urls).len() ==> #[trigger] queue_urls_xml(urls)[j] != c,
    decreases urls.len(),
{
    reveal_strlit("    <QueueUrl>");
    reveal_strlit("</QueueUrl>\n");
    if urls.len() > 0 {
        let u = urls.last();
        assert(urls[urls.len() - 1] == u);
        assert forall|i: int| 0 <= i < urls.drop_last().len() implies !(#[trigger] urls.drop_last()[i]@).contains(c) by {
            assert(urls.drop_last()[i] == urls[i]);
        }
        lemma_urls_xml_no_capital(urls.drop_last(), c);
        lemma_escaped_no_new_capital(u@, c);
        let q0 = queue_urls_xml(urls.drop_last());
        let e = xml_escaped(u@);
        let entry = queue_url_entry_xml(u);
        let q = queue_urls_xml(urls);
        assert(q == q0 + entry);
        assert forall|j: int| 0 <= j < q.len() implies #[trigger] q[j] != c by {
            if j < q0.len() {
                assert(q[j] == q0[j]);
            } else {
                let k = j - q0.len();
                assert(q[j] == entry[k]);
                if 14 <= k < 14 + e.len() {
                    assert(entry[k] == e[k - 14]);
                    assert(!e.contains(c));
                }
            }
        }
    }
}

/// URLs without capital letters, such as those of the queues this service
/// names, meet the condition of `law_list_queues_json_round_trip`.
pub proof fn law_lower_case_urls_round_trip(urls: Seq<String>)
    requires
        forall|i: int, j: int| 0 <= i < urls.len() && 0 <= j < urls[i]@.len() ==> !('A' <= #[trigger] urls[i]@[j] <= 'Z'),
    ensures
        forall|i: int| 0 <= i < 4 ==> !has_text(queue_urls_xml(urls), #[trigger] response_markers()[i]),
{
    reveal_strlit("DeleteMessageResponse");
    reveal_strlit("PurgeQueueResponse");
    reveal_strlit("SendMessageBatchResponse");
    reveal_strlit("SendMessageBatchResult");
    let q = queue_urls_xml(urls);
    assert forall|i: int| 0 <= i < 4 implies !has_text(q, #[trigger] response_markers()[i]) by {
        let pat = response_markers()[i];
        let c = pat[0];
        assert(c == 'D' || c == 'P' || c == 'S');
        assert forall|k: int| 0 <= k < urls.len() implies !(#[trigger] urls[k]@).contains(c) by {
            if urls[k]@.contains(c) {
                let j = choose|j: int| 0 <= j < urls[k]@.len() && urls[k]@[j] == c;
                assert(!('A' <= urls[k]@[j] <= 'Z'));
            }
        }
        lemma_urls_xml_no_capital(urls, c);
        reveal(find_from);
        assert forall|j: int| 0 <= j implies !occurs_at(q, pat, j) by {
            if occurs_at(q, pat, j) {
                assert(q.subrange(j, j + pat.len())[0] == q[j]);
            }
        }
    }
}

/// The JSON conversion of a ListQueues response, as `build_list_queues_response`
/// writes it with a version 4 UUID for request ID, lists the URLs the
/// response was written for, in order, unless the text of their `QueueUrl`
/// elements holds the name of another response that the conversion looks
/// for first.
#[verifier::spinoff_prover]
#[verifier::rlimit(80)]
pub proof fn law_list_queues_json_round_trip(urls: Seq<String>, rid: Seq<char>)
    requires
        crate::types::uuid_v4_text(rid),
        forall|i: int| 0 <= i < 4 ==> !has_text(queue_urls_xml(urls), #[trigger] response_markers()[i]),
    ensures
        xml_json(batch_xml("ListQueues"@, queue_urls_xml(urls), Seq::empty(), rid)) == object_text(
            seq![("QueueUrls"@, array_text(urls.map_values(|u: String| json_quoted(u@))))],
        ),
{
    reveal_strlit("<QueueUrl>");
    reveal_strlit("<?xml version=\"1.0\"?>");
    reveal_strlit("\n");
    reveal_strlit("<");
    reveal_strlit("ListQueues");
    reveal_strlit("Response");
    reveal_strlit(" xmlns=\"http://queue.amazonaws.com/doc/2012-11-05/\">");
    reveal_strlit("  <");
    reveal_strlit("Result>\n");
    reveal_strlit("  </");
    reveal_strlit("  <ResponseMetadata>\n");
    reveal_strlit("    <RequestId>");
    reveal_strlit("</RequestId>\n");
    reveal_strlit("  </ResponseMetadata>\n");
    reveal_strlit("</");
    reveal_strlit("Response>");
    reveal_strlit("DeleteMessageResponse");
    reveal_strlit("PurgeQueueResponse");
    reveal_strlit("SendMessageBatchResponse");
    reveal_strlit("SendMessageBatchResult");
    reveal_strlit("<Message>");
    reveal_strlit("ListQueuesResponse");
    let h = xml_header() + "<"@ + "ListQueues"@ + "Response"@ + namespace_attr() + "\n"@ + "  <"@ + "ListQueues"@
        + "Result>\n"@;
    let a = "  </"@ + "ListQueues"@ + "Result>\n"@ + "  <ResponseMetadata>\n"@ + "    <RequestId>"@;
    let b = "</RequestId>\n"@ + "  </ResponseMetadata>\n"@ + "</"@ + "ListQueues"@ + "Response>"@;
    let q = queue_urls_xml(urls);
    let t = a + rid + b;
    let x = batch_xml("ListQueues"@, q, Seq::empty(), rid);
    assert(crate::sqs::response::error_entries_xml(Seq::empty()) == Seq::<char>::empty());
    assert(x =~= h + q + t);
    assert(!has_text(rid, "<QueueUrl>"@)) by {
        reveal(find_from);
        assert forall|j: int| 0 <= j implies !occurs_at(rid, "<QueueUrl>"@, j) by {
            if occurs_at(rid, "<QueueUrl>"@, j) {
                assert(rid.subrange(j, j + 10)[0] == rid[j]);
                assert(rid[j] == '<');
                if j == 8 || j == 13 || j == 18 || j == 23 {
                } else {
                    assert(crate::types::is_lower_hex(rid[j]));
                }
            }
        }
    }
    law_list_queues_json_urls(urls, rid);
    lemma_urls_xml_tags(urls);
    assert forall|j: int| 0 <= j < rid.len() implies #[trigger] rid[j] != '<' && rid[j] != 'D' && rid[j] != 'P'
        && rid[j] != 'S' by {
        if j == 8 || j == 13 || j == 18 || j == 23 {
        } else {
            assert(crate::types::is_lower_hex(rid[j]));
        }
    }
    assert forall|j: int| 0 <= j < t.len() implies #[trigger] t[j] != 'D' && t[j] != 'P' && t[j] != 'S' by {
        if j < a.len() {
            assert(t[j] == a[j]);
        } else if j < a.len() + rid.len() {
            assert(t[j] == rid[j - a.len()]);
        } else {
            assert(t[j] == b[j - a.len() - rid.len()]);
        }
    }
    assert(forall|j: int| 0 <= j < h.len() ==> #[trigger] h[j] != 'D' && h[j] != 'P' && h[j] != 'S');
    let m = response_markers();
    assert(!has_text(q, m[0]));
    assert(!has_text(q, m[1]));
    assert(!has_text(q, m[2]));
    assert(!has_text(q, m[3]));
    lemma_marker_outside(h, q, t, "DeleteMessageResponse"@);
    lemma_marker_outside(h, q, t, "PurgeQueueResponse"@);
    lemma_marker_outside(h, q, t, "SendMessageBatchResponse"@);
    lemma_marker_outside(h, q, t, "SendMessageBatchResult"@);
    assert(forall|k: int| 0 <= k < h.len() && h[k] == '<' ==> k + 1 < h.len() && #[trigger] h[k + 1] != 'M');
    assert(forall|k: int| 0 <= k < a.len() && a[k] == '<' ==> k + 1 < a.len() && #[trigger] a[k + 1] != 'M');
    assert(forall|k: int| 0 <= k < b.len() && b[k] == '<' ==> k + 1 < b.len() && #[trigger] b[k + 1] != 'M');
    assert(!has_text(x, "<Message>"@)) by {
        reveal(find_from);
        let r0 = h.len() as int;
        let r1 = (h.len() + q.len()) as int;
        let r2 = r1 + a.len();
        let r3 = r2 + rid.len();
        assert forall|j: int| 0 <= j implies !occurs_at(x, "<Message>"@, j) by {
            if occurs_at(x, "<Message>"@, j) {
                let w = x.subrange(j, j + 9);
                assert(w[0] == x[j]);
                assert(w[1] == x[j + 1]);
                if j < r0 {
                    assert(x[j] == h[j]);
                    assert(h[j + 1] != 'M');
                    assert(x[j + 1] == h[j + 1]);
                } else if j < r1 {
                    let k = j - r0;
                    assert(x[j] == q[k]);
                    assert(q[k + 1] == 'Q' || q[k + 1] == '/');
                    assert(x[j + 1] == q[k + 1]);
                } else if j < r2 {
                    let k = j - r1;
                    assert(x[j] == a[k]);
                    assert(a[k + 1] != 'M');
                    assert(x[j + 1] == a[k + 1]);
                } else if j < r3 {
                    assert(x[j] == rid[j - r2]);
                } else {
                    let k = j - r3;
                    assert(x[j] == b[k]);
                    assert(b[k + 1] != 'M');
                    assert(x[j + 1] == b[k + 1]);
                }
            }
        }
    }
    assert(has_text(x, "ListQueuesResponse"@)) by {
        reveal(find_from);
        assert(x.subrange(23, 41) =~= "ListQueuesResponse"@);
        assert(occurs_at(x, "ListQueuesResponse"@, 23));
    }
}

/// The pieces of `s` that run from an `open` to the next `close`, one after
/// the other from `from` on; the scan stops where either is missing.
pub open spec fn segments(s: Seq<char>, open: Seq<char>, close: Seq<char>, from: int) -> Seq<Seq<char>>
    decreases s.len() + 1 - from,
{
    if close.len() == 0 || from < 0 || from > s.len() {
        Seq::empty()
    } else {
        match find_from(s, open, from) {
            None => Seq::empty(),
            Some(a) => match find_from(s, close, a) {
                None => Seq::empty(),
                Some(b) => {
                    if b + close.len() > s.len() || b < from {
                        Seq::empty()
                    } else {
                        seq![s.subrange(a, b + close.len())] + segments(s, open, close, b + close.len())
                    }
                },
            },
        }
    }
}

pub open spec fn char_texts(v: Seq<Vec<char>>) -> Seq<Seq<char>> {
    v.map_values(|x: Vec<char>| x@)
}

/// Cuts out the `segments` of `v`.
fn segments_of(v: &Vec<char>, open: &str, close: &str) -> (r: Vec<Vec<char>>)
    ensures
        char_texts(r@) == segments(v@, open@, close@, 0),
{
    let o = chars_of(open);
    let c = chars_of(close);
    let mut r: Vec<Vec<char>> = Vec::new();
    if c.len() == 0 {
        assert(char_texts(r@) =~= Seq::<Seq<char>>::empty());
        return r;
    }
    let mut from: usize = 0;
    let ghost total = segments(v@, open@, close@, 0);
    loop
        invariant_except_break
            from <= v.len(),
            o@ == open@,
            c@ == close@,
            c@.len() > 0,
            total == segments(v@, open@, close@, 0),
            total == char_texts(r@) + segments(v@, open@, close@, from as int),
        ensures
            total == char_texts(r@),
        decreases v.len() - from,
    {
        match find_text(v, &o, from) {
            None => {
                assert(char_texts(r@) + Seq::<Seq<char>>::empty() =~= char_texts(r@));
                break;
            },
            Some(a) => match find_text(v, &c, a) {
                None => {
                    assert(char_texts(r@) + Seq::<Seq<char>>::empty() =~= char_texts(r@));
                    break;
                },
                Some(b) => {
                    let end = b + c.len();
                    let seg = copy_range(v, a, end);
                    let ghost before = char_texts(r@);
                    r.push(seg);
                    assert(char_texts(r@) =~= before.push(v@.subrange(a as int, end as int)));
                    assert(char_texts(r@) + segments(v@, open@, close@, end as int) =~= before + (seq![
                        v@.subrange(a as int, end as int),
                    ] + segments(v@, open@, close@, end as int)));
                    from = end;
                },
            },
        }
    }
    r
}

// ---------------------------------------------------------------------------
// The JSON form of each response
// ---------------------------------------------------------------------------

/// `m` with the string `t` under `key`, when there is one.
pub open spec fn with_text(m: Seq<(Seq<char>, Seq<char>)>, key: Seq<char>, t: Option<Seq<char>>) -> Seq<
    (Seq<char>, Seq<char>),
> {
    match t {
        Some(x) => sorted_insert(m, key, json_quoted(x)),
        None => m,
    }
}

/// `m` with the object `members` under `key`, when it has any member.
pub open spec fn with_object(m: Seq<(Seq<char>, Seq<char>)>, key: Seq<char>, members: Seq<(Seq<char>, Seq<char>)>) -> Seq<
    (Seq<char>, Seq<char>),
> {
    if members.len() > 0 {
        sorted_insert(m, key, object_text(members))
    } else {
        m
    }
}

/// `m` with the array `items` under `key`, when `always` or it has any item.
pub open spec fn with_array(m: Seq<(Seq<char>, Seq<char>)>, key: Seq<char>, items: Seq<Seq<char>>, always: bool) -> Seq<
    (Seq<char>, Seq<char>),
> {
    if always || items.len() > 0 {
        sorted_insert(m, key, array_text(items))
    } else {
        m
    }
}

/// The `Name` and `Value` of each attribute element, the value unescaped
/// when `unescape` is set.
pub open spec fn attribute_members(segs: Seq<Seq<char>>, unescape: bool) -> Seq<(Seq<char>, Seq<char>)>
    decreases segs.len(),
{
    if segs.len() == 0 {
        Seq::empty()
    } else {
        let m = attribute_members(segs.drop_last(), unescape);
        let a = segs.last();
        match (inner(a, "<Name>"@, "</Name>"@), inner(a, "<Value>"@, "</Value>"@)) {
            (Some(n), Some(v)) => sorted_insert(m, n, json_quoted(if unescape { xml_unescaped(v) } else { v })),
            _ => m,
        }
    }
}

/// The value object of a message attribute element.
pub open spec fn attribute_value_object(a: Seq<char>) -> Seq<char> {
    let o1 = with_text(Seq::empty(), "DataType"@, element_text(a, "<DataType>"@, "</DataType>"@));
    let o2 = with_text(o1, "StringValue"@, element_text(a, "<StringValue>"@, "</StringValue>"@));
    object_text(with_text(o2, "BinaryValue"@, element_text(a, "<BinaryValue>"@, "</BinaryValue>"@)))
}

pub open spec fn message_attribute_members(segs: Seq<Seq<char>>) -> Seq<(Seq<char>, Seq<char>)>
    decreases segs.len(),
{
    if segs.len() == 0 {
        Seq::empty()
    } else {
        let m = message_attribute_members(segs.drop_last());
        let a = segs.last();
        match inner(a, "<Name>"@, "</Name>"@) {
            Some(n) => sorted_insert(m, n, attribute_value_object(a)),
            None => m,
        }
    }
}

/// The JSON object of one received message element.
pub open spec fn message_json(msg: Seq<char>) -> Seq<char> {
    let o1 = with_text(Seq::empty(), "MessageId"@, element_text(msg, "<MessageId>"@, "</MessageId>"@));
    let o2 = with_text(o1, "ReceiptHandle"@, element_text(msg, "<ReceiptHandle>"@, "</ReceiptHandle>"@));
    let o3 = with_text(o2, "Body"@, element_text(msg, "<Body>"@, "</Body>"@));
    let o4 = with_text(o3, "MD5OfBody"@, element_text(msg, "<MD5OfBody>"@, "</MD5OfBody>"@));
    let o5 = with_object(o4, "Attributes"@, attribute_members(segments(msg, "<Attribute>"@, "</Attribute>"@, 0), true));
    let o6 = with_object(
        o5,
        "MessageAttributes"@,
        message_attribute_members(segments(msg, "<MessageAttribute>"@, "</MessageAttribute>"@, 0)),
    );
    object_text(o6)
}

/// The JSON object of a successful SendMessageBatch entry.
pub open spec fn send_entry_json(e: Seq<char>) -> Seq<char> {
    let o1 = with_text(Seq::empty(), "Id"@, element_text(e, "<Id>"@, "</Id>"@));
    let o2 = with_text(o1, "MessageId"@, element_text(e, "<MessageId>"@, "</MessageId>"@));
    object_text(with_text(o2, "MD5OfMessageBody"@, element_text(e, "<MD5OfMessageBody>"@, "</MD5OfMessageBody>"@)))
}

/// The JSON object of a failed batch entry.
pub open spec fn error_entry_json(e: Seq<char>) -> Seq<char> {
    let o1 = with_text(Seq::empty(), "Id"@, element_text(e, "<Id>"@, "</Id>"@));
    let o2 = with_text(o1, "Code"@, element_text(e, "<Code>"@, "</Code>"@));
    let o3 = with_text(o2, "Message"@, element_text(e, "<Message>"@, "</Message>"@));
    object_text(
        match inner(e, "<SenderFault>"@, "</SenderFault>"@) {
            Some(t) => sorted_insert(o3, "SenderFault"@, crate::sqs::response::bool_text(t == "true"@)),
            None => o3,
        },
    )
}

/// The JSON object of a successful delete or visibility change entry.
pub open spec fn id_entry_json(e: Seq<char>) -> Seq<char> {
    object_text(with_text(Seq::empty(), "Id"@, element_text(e, "<Id>"@, "</Id>"@)))
}

/// The quoted queue URLs of `QueueUrl` elements.
pub open spec fn queue_url_items(segs: Seq<Seq<char>>) -> Seq<Seq<char>>
    decreases segs.len(),
{
    if segs.len() == 0 {
        Seq::empty()
    } else {
        let r = queue_url_items(segs.drop_last());
        match element_text(segs.last(), "<QueueUrl>"@, "</QueueUrl>"@) {
            Some(u) => r.push(json_quoted(u)),
            None => r,
        }
    }
}

pub open spec fn receive_json(x: Seq<char>) -> Seq<char> {
    object_text(
        seq![
            ("Messages"@, array_text(
                segments(x, "<Message>"@, "</Message>"@, 0).map_values(|m: Seq<char>| message_json(m)),
            )),
        ],
    )
}

pub open spec fn send_batch_json(x: Seq<char>) -> Seq<char> {
    let succ = segments(x, "<SendMessageBatchResultEntry>"@, "</SendMessageBatchResultEntry>"@, 0).map_values(
        |e: Seq<char>| send_entry_json(e),
    );
    let fail = segments(x, "<BatchResultErrorEntry>"@, "</BatchResultErrorEntry>"@, 0).map_values(
        |e: Seq<char>| error_entry_json(e),
    );
    object_text(with_array(with_array(Seq::empty(), "Successful"@, succ, false), "Failed"@, fail, false))
}

pub open spec fn list_queues_json(x: Seq<char>) -> Seq<char> {
    object_text(
        seq![("QueueUrls"@, array_text(queue_url_items(segments(x, "<QueueUrl>"@, "</QueueUrl>"@, 0))))],
    )
}

pub open spec fn queue_attributes_json(x: Seq<char>) -> Seq<char> {
    object_text(
        seq![("Attributes"@, object_text(attribute_members(segments(x, "<Attribute>"@, "</Attribute>"@, 0), true)))],
    )
}

pub open spec fn id_batch_json(x: Seq<char>, entry_open: Seq<char>, entry_close: Seq<char>) -> Seq<char> {
    let succ = segments(x, entry_open, entry_close, 0).map_values(|e: Seq<char>| id_entry_json(e));
    let fail = segments(x, "<BatchResultErrorEntry>"@, "</BatchResultErrorEntry>"@, 0).map_values(
        |e: Seq<char>| error_entry_json(e),
    );
    object_text(with_array(with_array(Seq::empty(), "Successful"@, succ, true), "Failed"@, fail, true))
}

/// The JSON response to a JSON request, read off the XML response: the
/// messages of a ReceiveMessage, the entries of a batch, the queue URLs, the
/// attributes, the queue URL or the message ID, or an empty object.
pub open spec fn xml_json(x: Seq<char>) -> Seq<char> {
    if has_text(x, "DeleteMessageResponse"@) || has_text(x, "PurgeQueueResponse"@) {
        object_text(Seq::empty())
    } else if has_text(x, "<Message>"@) && has_text(x, "ReceiveMessageResponse"@) {
        receive_json(x)
    } else if has_text(x, "SendMessageBatchResponse"@) || has_text(x, "SendMessageBatchResult"@) {
        send_batch_json(x)
    } else if has_text(x, "ListQueuesResponse"@) || has_text(x, "ListQueuesResult"@) {
        list_queues_json(x)
    } else if has_text(x, "GetQueueAttributesResponse"@) || has_text(x, "GetQueueAttributesResult"@) {
        queue_attributes_json(x)
    } else if has_text(x, "DeleteMessageBatchResponse"@) || has_text(x, "DeleteMessageBatchResult"@) || has_text(
        x,
        "ChangeMessageVisibilityBatchResponse"@,
    ) || has_text(x, "ChangeMessageVisibilityBatchResult"@) {
        if has_text(x, "DeleteMessageBatch"@) {
            id_batch_json(x, "<DeleteMessageBatchResultEntry>"@, "</DeleteMessageBatchResultEntry>"@)
        } else {
            id_batch_json(
                x,
                "<ChangeMessageVisibilityBatchResultEntry>"@,
                "</ChangeMessageVisibilityBatchResultEntry>"@,
            )
        }
    } else {
        match element_text(x, "<QueueUrl>"@, "</QueueUrl>"@) {
            Some(u) => object_text(seq![("QueueUrl"@, json_quoted(u))]),
            None => match element_text(x, "<MessageId>"@, "</MessageId>"@) {
                Some(id) => object_text(
                    with_text(
                        sorted_insert(Seq::empty(), "MessageId"@, json_quoted(id)),
                        "MD5OfMessageBody"@,
                        element_text(x, "<MD5OfMessageBody>"@, "</MD5OfMessageBody>"@),
                    ),
                ),
                None => object_text(Seq::empty()),
            },
        }
    }
}

fn add_text(members: &mut Vec<(String, String)>, key: &str, t: Option<String>)
    ensures
        text_pairs(final(members)@) == with_text(text_pairs(old(members)@), key@, match t {
            Some(x) => Some(x@),
            None => None,
        }),
{
    match t {
        Some(x) => object_insert(members, to_owned_string(key), json_quote(x.as_str())),
        None => {},
    }
}

fn has(v: &Vec<char>, pat: &str) -> (r: bool)
    ensures
        r == has_text(v@, pat@),
{
    let p = chars_of(pat);
    find_text(v, &p, 0).is_some()
}

fn attribute_members_exec(segs: &Vec<Vec<char>>, unescape: bool) -> (r: Vec<(String, String)>)
    ensures
        text_pairs(r@) == attribute_members(char_texts(segs@), unescape),
{
    let ghost t = char_texts(segs@);
    let mut r: Vec<(String, String)> = Vec::new();
    let mut i: usize = 0;
    assert(text_pairs(r@) =~= Seq::<(Seq<char>, Seq<char>)>::empty());
    while i < segs.len()
        invariant
            i <= segs.len(),
            t == char_texts(segs@),
            text_pairs(r@) == attribute_members(t.take(i as int), unescape),
        decreases segs.len() - i,
    {
        let ghost u = t.take(i + 1);
        assert(u.drop_last() =~= t.take(i as int));
        assert(u.last() == segs@[i as int]@);
        let a = &segs[i];
        match (inner_text(a, "<Name>", "</Name>"), inner_text(a, "<Value>", "</Value>")) {
            (Some(n), Some(v)) => {
                let val = if unescape {
                    unescape_xml(v.as_str())
                } else {
                    v
                };
                object_insert(&mut r, n, json_quote(val.as_str()));
            },
            _ => {},
        }
        i = i + 1;
    }
    assert(t.take(segs.len() as int) =~= t);
    r
}

fn attribute_value_object_exec(a: &Vec<char>) -> (r: String)
    ensures
        r@ == attribute_value_object(a@),
{
    let mut o: Vec<(String, String)> = Vec::new();
    assert(text_pairs(o@) =~= Seq::<(Seq<char>, Seq<char>)>::empty());
    add_text(&mut o, "DataType", element_text_of(a, "<DataType>", "</DataType>"));
    add_text(&mut o, "StringValue", element_text_of(a, "<StringValue>", "</StringValue>"));
    add_text(&mut o, "BinaryValue", element_text_of(a, "<BinaryValue>", "</BinaryValue>"));
    write_object(&o)
}

fn message_attribute_members_exec(segs: &Vec<Vec<char>>) -> (r: Vec<(String, String)>)
    ensures
        text_pairs(r@) == message_attribute_members(char_texts(segs@)),
{
    let ghost t = char_texts(segs@);
    let mut r: Vec<(String, String)> = Vec::new();
    let mut i: usize = 0;
    assert(text_pairs(r@) =~= Seq::<(Seq<char>, Seq<char>)>::empty());
    while i < segs.len()
        invariant
            i <= segs.len(),
            t == char_texts(segs@),
            text_pairs(r@) == message_attribute_members(t.take(i as int)),
        decreases segs.len() - i,
    {
        let ghost u = t.take(i + 1);
        assert(u.drop_last() =~= t.take(i as int));
        assert(u.last() == segs@[i as int]@);
        let a = &segs[i];
        match inner_text(a, "<Name>", "</Name>") {
            Some(n) => {
                let value = attribute_value_object_exec(a);
                object_insert(&mut r, n, value);
            },
            None => {},
        }
        i = i + 1;
    }
    assert(t.take(segs.len() as int) =~= t);
    r
}

fn add_object(m: &mut Vec<(String, String)>, key: &str, members: &Vec<(String, String)>)
    ensures
        text_pairs(final(m)@) == with_object(text_pairs(old(m)@), key@, text_pairs(members@)),
{
    if members.len() > 0 {
        object_insert(m, to_owned_string(key), write_object(members));
    }
}

fn add_array(m: &mut Vec<(String, String)>, key: &str, items: &Vec<String>, always: bool)
    ensures
        text_pairs(final(m)@) == with_array(text_pairs(old(m)@), key@, texts(items@), always),
{
    if always || items.len() > 0 {
        object_insert(m, to_owned_string(key), write_array(items));
    }
}

fn message_json_exec(msg: &Vec<char>) -> (r: String)
    ensures
        r@ == message_json(msg@),
{
    let mut o: Vec<(String, String)> = Vec::new();
    assert(text_pairs(o@) =~= Seq::<(Seq<char>, Seq<char>)>::empty());
    add_text(&mut o, "MessageId", element_text_of(msg, "<MessageId>", "</MessageId>"));
    add_text(&mut o, "ReceiptHandle", element_text_of(msg, "<ReceiptHandle>", "</ReceiptHandle>"));
    add_text(&mut o, "Body", element_text_of(msg, "<Body>", "</Body>"));
    add_text(&mut o, "MD5OfBody", element_text_of(msg, "<MD5OfBody>", "</MD5OfBody>"));
    let attrs = attribute_members_exec(&segments_of(msg, "<Attribute>", "</Attribute>"), true);
    add_object(&mut o, "Attributes", &attrs);
    let mattrs = message_attribute_members_exec(&segments_of(msg, "<MessageAttribute>", "</MessageAttribute>"));
    add_object(&mut o, "MessageAttributes", &mattrs);
    write_object(&o)
}

fn send_entry_json_exec(e: &Vec<char>) -> (r: String)
    ensures
        r@ == send_entry_json(e@),
{
    let mut o: Vec<(String, String)> = Vec::new();
    assert(text_pairs(o@) =~= Seq::<(Seq<char>, Seq<char>)>::empty());
    add_text(&mut o, "Id", element_text_of(e, "<Id>", "</Id>"));
    add_text(&mut o, "MessageId", element_text_of(e, "<MessageId>", "</MessageId>"));
    add_text(&mut o, "MD5OfMessageBody", element_text_of(e, "<MD5OfMessageBody>", "</MD5OfMessageBody>"));
    write_object(&o)
}

fn error_entry_json_exec(e: &Vec<char>) -> (r: String)
    ensures
        r@ == error_entry_json(e@),
{
    let mut o: Vec<(String, String)> = Vec::new();
    assert(text_pairs(o@) =~= Seq::<(Seq<char>, Seq<char>)>::empty());
    add_text(&mut o, "Id", element_text_of(e, "<Id>", "</Id>"));
    add_text(&mut o, "Code", element_text_of(e, "<Code>", "</Code>"));
    add_text(&mut o, "Message", element_text_of(e, "<Message>", "</Message>"));
    match inner_text(e, "<SenderFault>", "</SenderFault>") {
        Some(t) => {
            let b = str_eq(t.as_str(), "true");
            object_insert(&mut o, to_owned_string("SenderFault"), to_owned_string(crate::sqs::response::bool_to_str(b)));
        },
        None => {},
    }
    write_object(&o)
}

fn id_entry_json_exec(e: &Vec<char>) -> (r: String)
    ensures
        r@ == id_entry_json(e@),
{
    let mut o: Vec<(String, String)> = Vec::new();
    assert(text_pairs(o@) =~= Seq::<(Seq<char>, Seq<char>)>::empty());
    add_text(&mut o, "Id", element_text_of(e, "<Id>", "</Id>"));
    write_object(&o)
}

/// The JSON object of an element of one of four kinds: a received message,
/// a successful send entry, a failed entry, a successful delete or
/// visibility entry.
pub open spec fn element_json(kind: u8, e: Seq<char>) -> Seq<char> {
    if kind == 0 {
        message_json(e)
    } else if kind == 1 {
        send_entry_json(e)
    } else if kind == 2 {
        error_entry_json(e)
    } else {
        id_entry_json(e)
    }
}

fn elements_json(segs: &Vec<Vec<char>>, kind: u8) -> (r: Vec<String>)
    ensures
        texts(r@) == char_texts(segs@).map_values(|e: Seq<char>| element_json(kind, e)),
{
    let ghost t = char_texts(segs@);
    let mut r: Vec<String> = Vec::new();
    let mut i: usize = 0;
    while i < segs.len()
        invariant
            i <= segs.len(),
            t == char_texts(segs@),
            texts(r@) == t.take(i as int).map_values(|e: Seq<char>| element_json(kind, e)),
        decreases segs.len() - i,
    {
        let e = &segs[i];
        let x = if kind == 0 {
            message_json_exec(e)
        } else if kind == 1 {
            send_entry_json_exec(e)
        } else if kind == 2 {
            error_entry_json_exec(e)
        } else {
            id_entry_json_exec(e)
        };
        assert(x@ == element_json(kind, e@));
        let ghost before = r@;
        let ghost xv = x@;
        r.push(x);
        assert(t[i as int] == e@);
        assert(texts(r@) =~= texts(before).push(xv));
        assert(t.take(i + 1) =~= t.take(i as int).push(t[i as int]));
        assert(t.take(i + 1).map_values(|e: Seq<char>| element_json(kind, e)) =~= t.take(i as int).map_values(
            |e: Seq<char>| element_json(kind, e),
        ).push(element_json(kind, t[i as int])));
        assert(texts(r@) =~= t.take(i + 1).map_values(|e: Seq<char>| element_json(kind, e)));
        i = i + 1;
    }
    assert(t.take(segs.len() as int) =~= t);
    r
}

fn queue_url_items_exec(segs: &Vec<Vec<char>>) -> (r: Vec<String>)
    ensures
        texts(r@) == queue_url_items(char_texts(segs@)),
{
    let ghost t = char_texts(segs@);
    let mut r: Vec<String> = Vec::new();
    let mut i: usize = 0;
    assert(texts(r@) =~= Seq::<Seq<char>>::empty());
    while i < segs.len()
        invariant
            i <= segs.len(),
            t == char_texts(segs@),
            texts(r@) == queue_url_items(t.take(i as int)),
        decreases segs.len() - i,
    {
        let ghost u = t.take(i + 1);
        assert(u.drop_last() =~= t.take(i as int));
        assert(u.last() == segs@[i as int]@);
        match element_text_of(&segs[i], "<QueueUrl>", "</QueueUrl>") {
            Some(url) => {
                let ghost before = r@;
                r.push(json_quote(url.as_str()));
                assert(texts(r@) =~= texts(before).push(r@.last()@));
            },
            None => {},
        }
        i = i + 1;
    }
    assert(t.take(segs.len() as int) =~= t);
    r
}

fn single_member(key: &str, value: String) -> (r: String)
    ensures
        r@ == object_text(seq![(key@, value@)]),
{
    let mut o: Vec<(String, String)> = Vec::new();
    o.push((to_owned_string(key), value));
    assert(text_pairs(o@) =~= seq![(key@, value@)]);
    write_object(&o)
}

fn id_batch_json_exec(x: &Vec<char>, entry_open: &str, entry_close: &str) -> (r: String)
    ensures
        r@ == id_batch_json(x@, entry_open@, entry_close@),
{
    let s1 = segments_of(x, entry_open, entry_close);
    let s2 = segments_of(x, "<BatchResultErrorEntry>", "</BatchResultErrorEntry>");
    let succ = elements_json(&s1, 3);
    let fail = elements_json(&s2, 2);
    assert(char_texts(s1@).map_values(|e: Seq<char>| element_json(3, e)) =~= char_texts(s1@).map_values(
        |e: Seq<char>| id_entry_json(e),
    ));
    assert(char_texts(s2@).map_values(|e: Seq<char>| element_json(2, e)) =~= char_texts(s2@).map_values(
        |e: Seq<char>| error_entry_json(e),
    ));
    let mut o: Vec<(String, String)> = Vec::new();
    assert(text_pairs(o@) =~= Seq::<(Seq<char>, Seq<char>)>::empty());
    add_array(&mut o, "Successful", &succ, true);
    add_array(&mut o, "Failed", &fail, true);
    write_object(&o)
}

/// Converts an XML response to the JSON response of the AWS JSON 1.0
/// protocol (see `xml_json`).
pub fn xml_to_json_response(xml: &str) -> (r: String)
    ensures
        r@ == xml_json(xml@),
{
    let x = chars_of(xml);
    let empty: Vec<(String, String)> = Vec::new();
    assert(text_pairs(empty@) =~= Seq::<(Seq<char>, Seq<char>)>::empty());
    if has(&x, "DeleteMessageResponse") || has(&x, "PurgeQueueResponse") {
        return write_object(&empty);
    }
    if has(&x, "<Message>") && has(&x, "ReceiveMessageResponse") {
        return receive_json_exec(&x);
    }
    if has(&x, "SendMessageBatchResponse") || has(&x, "SendMessageBatchResult") {
        return send_batch_json_exec(&x);
    }
    if has(&x, "ListQueuesResponse") || has(&x, "ListQueuesResult") {
        let items = queue_url_items_exec(&segments_of(&x, "<QueueUrl>", "</QueueUrl>"));
        return single_member("QueueUrls", write_array(&items));
    }
    if has(&x, "GetQueueAttributesResponse") || has(&x, "GetQueueAttributesResult") {
        let attrs = attribute_members_exec(&segments_of(&x, "<Attribute>", "</Attribute>"), true);
        return single_member("Attributes", write_object(&attrs));
    }
    if has(&x, "DeleteMessageBatchResponse") || has(&x, "DeleteMessageBatchResult") || has(
        &x,
        "ChangeMessageVisibilityBatchResponse",
    ) || has(&x, "ChangeMessageVisibilityBatchResult") {
        if has(&x, "DeleteMessageBatch") {
            return id_batch_json_exec(&x, "<DeleteMessageBatchResultEntry>", "</DeleteMessageBatchResultEntry>");
        } else {
            return id_batch_json_exec(
                &x,
                "<ChangeMessageVisibilityBatchResultEntry>",
                "</ChangeMessageVisibilityBatchResultEntry>",
            );
        }
    }
    simple_json_exec(&x)
}

fn simple_json_exec(x: &Vec<char>) -> (r: String)
    ensures
        r@ == match element_text(x@, "<QueueUrl>"@, "</QueueUrl>"@) {
            Some(u) => object_text(seq![("QueueUrl"@, json_quoted(u))]),
            None => match element_text(x@, "<MessageId>"@, "</MessageId>"@) {
                Some(id) => object_text(
                    with_text(
                        sorted_insert(Seq::empty(), "MessageId"@, json_quoted(id)),
                        "MD5OfMessageBody"@,
                        element_text(x@, "<MD5OfMessageBody>"@, "</MD5OfMessageBody>"@),
                    ),
                ),
                None => object_text(Seq::empty()),
            },
        },
{
    match element_text_of(x, "<QueueUrl>", "</QueueUrl>") {
        Some(u) => {
            return single_member("QueueUrl", json_quote(u.as_str()));
        },
        None => {},
    }
    let mut o: Vec<(String, String)> = Vec::new();
    assert(text_pairs(o@) =~= Seq::<(Seq<char>, Seq<char>)>::empty());
    match element_text_of(x, "<MessageId>", "</MessageId>") {
        Some(id) => {
            object_insert(&mut o, to_owned_string("MessageId"), json_quote(id.as_str()));
            add_text(&mut o, "MD5OfMessageBody", element_text_of(x, "<MD5OfMessageBody>", "</MD5OfMessageBody>"));
            write_object(&o)
        },
        None => write_object(&o),
    }
}

fn receive_json_exec(x: &Vec<char>) -> (r: String)
    ensures
        r@ == receive_json(x@),
{
    let segs = segments_of(x, "<Message>", "</Message>");
    let items = elements_json(&segs, 0);
    assert(char_texts(segs@).map_values(|e: Seq<char>| element_json(0, e)) =~= char_texts(segs@).map_values(
        |m: Seq<char>| message_json(m),
    ));
    single_member("Messages", write_array(&items))
}

fn send_batch_json_exec(x: &Vec<char>) -> (r: String)
    ensures
        r@ == send_batch_json(x@),
{
    let s1 = segments_of(x, "<SendMessageBatchResultEntry>", "</SendMessageBatchResultEntry>");
    let s2 = segments_of(x, "<BatchResultErrorEntry>", "</BatchResultErrorEntry>");
    let succ = elements_json(&s1, 1);
    let fail = elements_json(&s2, 2);
    assert(char_texts(s1@).map_values(|e: Seq<char>| element_json(1, e)) =~= char_texts(s1@).map_values(
        |e: Seq<char>| send_entry_json(e),
    ));
    assert(char_texts(s2@).map_values(|e: Seq<char>| element_json(2, e)) =~= char_texts(s2@).map_values(
        |e: Seq<char>| error_entry_json(e),
    ));
    let mut o: Vec<(String, String)> = Vec::new();
    assert(text_pairs(o@) =~= Seq::<(Seq<char>, Seq<char>)>::empty());
    add_array(&mut o, "Successful", &succ, false);
    add_array(&mut o, "Failed", &fail, false);
    write_object(&o)
}

} // verus!
