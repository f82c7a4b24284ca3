//! SQS requests: the parameters of a form-encoded body or of a JSON document,
//! and the structured values (message attributes, queue attributes, batch
//! entries) that the actions read from them.

use vstd::prelude::*;
use crate::dict::{Dict, indexed_key, indexed_key_string};
use crate::sqs::json::{
    JsonValue, as_text, as_unsigned, field, field_text, field_unsigned, json_text, to_json_text,
};
use crate::sqs::types::{
    SqsAction, SqsMessageAttributeValue, SqsMessageAttributeValueView, SqsMessageAttributes,
    action_name, is_action_name,
};
use crate::text::{
    chars_of, parse_unsigned, parse_unsigned_exec, push_char, push_str, str_eq, string_from_chars,
    to_owned_string,
};

verus! {

broadcast use vstd::string::group_string_axioms;

// ---------------------------------------------------------------------------
// Splitting text
// ---------------------------------------------------------------------------

/// Reading `s` from the left and cutting at each `c`: the pieces already cut
/// and the piece being read.
pub open spec fn split_state(s: Seq<char>, c: char) -> (Seq<Seq<char>>, Seq<char>)
    decreases s.len(),
{
    if s.len() == 0 {
        (Seq::empty(), Seq::empty())
    } else {
        let st = split_state(s.drop_last(), c);
        if s.last() == c {
            (st.0.push(st.1), Seq::empty())
        } else {
            (st.0, st.1.push(s.last()))
        }
    }
}

/// The pieces of `s` between the occurrences of `c`, as `str::split` gives
/// them: one more piece than there are occurrences.
pub open spec fn split_on(s: Seq<char>, c: char) -> Seq<Seq<char>> {
    split_state(s, c).0.push(split_state(s, c).1)
}

/// The position of the first `c` in `s`.
pub open spec fn first_index_of(s: Seq<char>, c: char) -> Option<int> {
    if exists|i: int| 0 <= i < s.len() && s[i] == c {
        Some(choose|i: int| 0 <= i < s.len() && s[i] == c && forall|j: int| 0 <= j < i ==> s[j] != c)
    } else {
        None
    }
}


/// Appending text without `c` extends the piece being read.
pub proof fn lemma_split_state_append(x: Seq<char>, y: Seq<char>, c: char)
    requires
        !y.contains(c),
    ensures
        split_state(x + y, c) == (split_state(x, c).0, split_state(x, c).1 + y),
    decreases y.len(),
{
    if y.len() == 0 {
        assert(x + y =~= x);
        assert(split_state(x, c).1 + y =~= split_state(x, c).1);
    } else {
        let y0 = y.drop_last();
        assert(!y0.contains(c)) by {
            if y0.contains(c) {
                let k = choose|k: int| 0 <= k < y0.len() && y0[k] == c;
                assert(y[k] == c);
            }
        }
        lemma_split_state_append(x, y0, c);
        assert((x + y).drop_last() =~= x + y0);
        assert((x + y).last() == y.last());
        assert(y.last() != c) by {
            assert(y[y.len() - 1] == y.last());
        }
        assert(split_state(x, c).1 + y =~= (split_state(x, c).1 + y0).push(y.last()));
    }
}

/// Appending `c` closes the piece being read.
pub proof fn lemma_split_state_cut(x: Seq<char>, c: char)
    ensures
        split_state(x + seq![c], c) == (split_state(x, c).0.push(split_state(x, c).1), Seq::<char>::empty()),
{
    assert((x + seq![c]).drop_last() =~= x);
}

/// `str::split_once`: the text before and after the first `c`.
pub open spec fn split_once(s: Seq<char>, c: char) -> Option<(Seq<char>, Seq<char>)> {
    match first_index_of(s, c) {
        Some(i) => Some((s.take(i), s.skip(i + 1))),
        None => None,
    }
}

/// Finds the first `c` in `v`.
fn find_char(v: &Vec<char>, c: char) -> (r: Option<usize>)
    ensures
        match r {
            Some(j) => j < v.len() && v@[j as int] == c && first_index_of(v@, c) == Some(j as int),
            None => first_index_of(v@, c) is None,
        },
{
    let mut i: usize = 0;
    while i < v.len()
        invariant
            i <= v.len(),
            forall|j: int| 0 <= j < i ==> v@[j] != c,
        decreases v.len() - i,
    {
        if v[i] == c {
            assert(0 <= i < v@.len() && v@[i as int] == c);
            let ghost k = choose|k: int| 0 <= k < v@.len() && v@[k] == c && forall|j: int| 0 <= j < k ==> v@[j] != c;
            assert(k == i) by {
                if k < i {
                    assert(v@[k] != c);
                }
                if k > i {
                    assert(v@[i as int] != c);
                }
            }
            return Some(i);
        }
        i = i + 1;
    }
    None
}

/// The characters `v[lo..hi]` as a string.
fn string_of_range(v: &Vec<char>, lo: usize, hi: usize) -> (s: String)
    requires
        lo <= hi <= v.len(),
    ensures
        s@ == v@.subrange(lo as int, hi as int),
{
    let mut s = String::new();
    let mut i: usize = lo;
    while i < hi
        invariant
            lo <= i <= hi <= v.len(),
            s@ == v@.subrange(lo as int, i as int),
        decreases hi - i,
    {
        push_char(&mut s, v[i]);
        assert(v@.subrange(lo as int, i as int).push(v@[i as int]) =~= v@.subrange(lo as int, i + 1));
        i = i + 1;
    }
    s
}

// ---------------------------------------------------------------------------
// Form-encoded bodies
// ---------------------------------------------------------------------------

/// The value of a hexadecimal digit byte, of either case.
pub open spec fn hex_value(b: u8) -> Option<u8> {
    if 0x30 <= b <= 0x39 {
        Some((b - 0x30) as u8)
    } else if 0x41 <= b <= 0x46 {
        Some((b - 0x41 + 10) as u8)
    } else if 0x61 <= b <= 0x66 {
        Some((b - 0x61 + 10) as u8)
    } else {
        None
    }
}

/// The bytes `b` with each `%` that two hexadecimal digits follow replaced,
/// with the digits, by the byte they denote; any other `%` stays as it is.
pub open spec fn percent_decoded_bytes(b: Seq<u8>) -> Seq<u8>
    decreases b.len(),
{
    if b.len() == 0 {
        Seq::empty()
    } else if b[0] == 0x25 && b.len() >= 3 && hex_value(b[1]) is Some && hex_value(b[2]) is Some {
        seq![(hex_value(b[1]).unwrap() * 16 + hex_value(b[2]).unwrap()) as u8] + percent_decoded_bytes(b.skip(3))
    } else {
        seq![b[0]] + percent_decoded_bytes(b.drop_first())
    }
}

/// What `urlencoding::decode` gives back for `s`: text without `%` as it
/// is; else the percent-decoded UTF-8 bytes of `s`, read as UTF-8, or
/// nothing when they are not UTF-8.
pub open spec fn url_decoded(s: Seq<char>) -> Option<Seq<char>> {
    if !s.contains('%') {
        Some(s)
    } else {
        let b = percent_decoded_bytes(vstd::utf8::encode_utf8(s));
        if vstd::utf8::valid_utf8(b) {
            Some(vstd::utf8::decode_utf8(b))
        } else {
            None
        }
    }
}

/// Calls `urlencoding::decode`. Its source returns text without `%`
/// unchanged; otherwise it replaces each `%` and two hexadecimal digits of
/// the text's bytes by the byte they denote, keeps any other `%`, and reads
/// the bytes with `String::from_utf8`, failing when they are not UTF-8. The
/// contract states that result (`url_decoded`).
#[verifier::external_body]
fn url_decode(s: &str) -> (r: Option<String>)
    ensures
        match r {
            Some(d) => url_decoded(s@) == Some(d@),
            None => url_decoded(s@) is None,
        },
{
    match urlencoding::decode(s) {
        Ok(d) => Some(d.into_owned()),
        Err(_) => None,
    }
}

/// The decoded text, or the empty text when decoding fails.
pub open spec fn decoded_or_empty(s: Seq<char>) -> Seq<char> {
    match url_decoded(s) {
        Some(d) => d,
        None => Seq::empty(),
    }
}

/// A form value with each `+` read as a space.
pub open spec fn plus_as_space(s: Seq<char>) -> Seq<char> {
    s.map_values(|ch: char| if ch == '+' { ' ' } else { ch })
}

/// One `key=value` piece applied to the parameters; a piece without `=` is
/// skipped.
pub open spec fn form_apply(m: Map<Seq<char>, Seq<char>>, piece: Seq<char>) -> Map<Seq<char>, Seq<char>> {
    match split_once(piece, '=') {
        Some(kv) => m.insert(decoded_or_empty(kv.0), decoded_or_empty(plus_as_space(kv.1))),
        None => m,
    }
}

pub open spec fn form_fold(pieces: Seq<Seq<char>>) -> Map<Seq<char>, Seq<char>>
    decreases pieces.len(),
{
    if pieces.len() == 0 {
        Map::empty()
    } else {
        form_apply(form_fold(pieces.drop_last()), pieces.last())
    }
}

/// The parameters of a form-encoded body: its `&`-separated pieces applied
/// in order, so that a later piece wins over an earlier one with the same
/// key.
pub open spec fn form_params(body: Seq<char>) -> Map<Seq<char>, Seq<char>> {
    form_fold(split_on(body, '&'))
}

/// Percent-decodes a form key or value; the empty text when it does not
/// decode.
pub fn decode_or_empty(s: &str) -> (r: String)
    ensures
        r@ == decoded_or_empty(s@),
{
    match url_decode(s) {
        Some(d) => d,
        None => String::new(),
    }
}

/// Applies one piece of a form body.
fn apply_form_piece(params: &mut Dict<String>, piece: &Vec<char>)
    ensures
        final(params)@ == form_apply(old(params)@, piece@),
{
    match find_char(piece, '=') {
        Some(j) => {
            let key = string_of_range(piece, 0, j);
            let mut value = String::new();
            let mut i: usize = j + 1;
            while i < piece.len()
                invariant
                    j + 1 <= i <= piece.len(),
                    value@ == plus_as_space(piece@.subrange(j + 1, i as int)),
                    j < piece.len(),
                decreases piece.len() - i,
            {
                let ch = piece[i];
                push_char(&mut value, if ch == '+' { ' ' } else { ch });
                assert(plus_as_space(piece@.subrange(j + 1, i + 1)) =~= plus_as_space(
                    piece@.subrange(j + 1, i as int),
                ).push(if ch == '+' { ' ' } else { ch }));
                i = i + 1;
            }
            assert(key@ =~= piece@.take(j as int));
            assert(piece@.subrange(j + 1, piece.len() as int) =~= piece@.skip(j + 1));
            let k = decode_or_empty(key.as_str());
            let v = decode_or_empty(value.as_str());
            assert(first_index_of(piece@, '=') == Some(j as int));
            assert(split_once(piece@, '=') == Some((key@, piece@.skip(j + 1))));
            assert(value@ == plus_as_space(piece@.skip(j + 1)));
            params.insert(k, v);
        },
        None => {},
    }
}

/// The parameters of a form-encoded body.
pub fn parse_form_data(body: &str) -> (params: Dict<String>)
    ensures
        params@ == form_params(body@),
{
    let chars = chars_of(body);
    let mut params: Dict<String> = Dict::new();
    let mut piece: Vec<char> = Vec::new();
    let mut i: usize = 0;
    while i < chars.len()
        invariant
            i <= chars.len(),
            chars@ == body@,
            piece@ == split_state(chars@.take(i as int), '&').1,
            params@ == form_fold(split_state(chars@.take(i as int), '&').0),
        decreases chars.len() - i,
    {
        let c = chars[i];
        assert(chars@.take(i + 1).drop_last() =~= chars@.take(i as int));
        if c == '&' {
            apply_form_piece(&mut params, &piece);
            let ghost st = split_state(chars@.take(i as int), '&');
            assert(st.0.push(st.1).drop_last() =~= st.0);
            piece = Vec::new();
            assert(piece@ =~= Seq::<char>::empty());
        } else {
            piece.push(c);
        }
        i = i + 1;
    }
    apply_form_piece(&mut params, &piece);
    assert(chars@.take(chars.len() as int) =~= chars@);
    let ghost st = split_state(body@, '&');
    assert(st.0.push(st.1).drop_last() =~= st.0);
    params
}

/// The queue name at the end of a queue URL: the text after the last `/`,
/// when there is any.
pub open spec fn queue_name_of_url(url: Seq<char>) -> Option<Seq<char>> {
    let last = split_on(url, '/').last();
    if last.len() > 0 {
        Some(last)
    } else {
        None
    }
}

/// Extracts the queue name from a queue URL such as
/// `http://localhost:9324/queue/my-queue`.
pub fn extract_queue_name_from_url(queue_url: &str) -> (r: Option<String>)
    ensures
        match queue_name_of_url(queue_url@) {
            Some(n) => r is Some && r.unwrap()@ == n,
            None => r is None,
        },
{
    let chars = chars_of(queue_url);
    let mut piece: Vec<char> = Vec::new();
    let mut i: usize = 0;
    while i < chars.len()
        invariant
            i <= chars.len(),
            chars@ == queue_url@,
            piece@ == split_state(chars@.take(i as int), '/').1,
        decreases chars.len() - i,
    {
        let c = chars[i];
        assert(chars@.take(i + 1).drop_last() =~= chars@.take(i as int));
        if c == '/' {
            piece = Vec::new();
            assert(piece@ =~= Seq::<char>::empty());
        } else {
            piece.push(c);
        }
        i = i + 1;
    }
    assert(chars@.take(chars.len() as int) =~= chars@);
    if piece.len() > 0 {
        Some(string_from_chars(piece.as_slice()))
    } else {
        None
    }
}

// ---------------------------------------------------------------------------
// Requests
// ---------------------------------------------------------------------------

/// A parsed SQS request.
#[derive(Debug)]
pub struct SqsRequest {
    /// The SQS action.
    pub action: SqsAction,
    /// Request parameters.
    pub params: Dict<String>,
    /// Whether the request came as an AWS JSON 1.0 document.
    pub is_json: bool,
}

impl Clone for SqsRequest {
    fn clone(&self) -> (r: Self)
        ensures
            r.action == self.action,
            r.params@ == self.params@,
            r.is_json == self.is_json,
    {
        SqsRequest { action: self.action, params: self.params.duplicate(), is_json: self.is_json }
    }
}

/// The value of parameter `k`, if any.
pub open spec fn param(p: Map<Seq<char>, Seq<char>>, k: Seq<char>) -> Option<Seq<char>> {
    if p.contains_key(k) {
        Some(p[k])
    } else {
        None
    }
}

/// The action that a form body names, when it names a known one.
pub open spec fn form_action(p: Map<Seq<char>, Seq<char>>) -> Option<SqsAction> {
    if p.contains_key("Action"@) && is_action_name(p["Action"@]) {
        Some(choose|a: SqsAction| action_name(a) == p["Action"@])
    } else {
        None
    }
}

/// Indices `1..=k` all satisfy `present`, and `k + 1` does not: the run of
/// numbered entries `Prefix.1`, `Prefix.2`, ... that a request lists.
pub open spec fn run_of(present: spec_fn(nat) -> bool, k: nat) -> bool {
    &&& forall|j: nat| 1 <= j <= k ==> #[trigger] present(j)
    &&& !present(k + 1)
}

/// The JSON reading of parameter `key` when it is an array.
pub open spec fn array_reading(
    p: Map<Seq<char>, Seq<char>>,
    key: Seq<char>,
    reading: Option<&JsonValue>,
) -> Option<Seq<JsonValue>> {
    if p.contains_key(key) {
        match reading {
            Some(JsonValue::Array(a)) => Some(a@),
            _ => None,
        }
    } else {
        None
    }
}

/// A copy of an optional string slice.
fn owned_opt(o: Option<&str>) -> (r: Option<String>)
    ensures
        match o {
            Some(s) => r is Some && r.unwrap()@ == s@,
            None => r is None,
        },
{
    match o {
        Some(s) => Some(to_owned_string(s)),
        None => None,
    }
}

// -- message attributes -----------------------------------------------------

pub open spec fn message_attribute_key(n: nat, suffix: Seq<char>) -> Seq<char> {
    indexed_key("MessageAttribute."@, n, suffix)
}

pub open spec fn message_attribute_present(p: Map<Seq<char>, Seq<char>>, n: nat) -> bool {
    p.contains_key(message_attribute_key(n, ".Name"@)) && p.contains_key(
        message_attribute_key(n, ".Value.DataType"@),
    )
}

pub open spec fn message_attribute_at(p: Map<Seq<char>, Seq<char>>, n: nat) -> SqsMessageAttributeValueView {
    SqsMessageAttributeValueView {
        data_type: p[message_attribute_key(n, ".Value.DataType"@)],
        string_value: param(p, message_attribute_key(n, ".Value.StringValue"@)),
        binary_value: param(p, message_attribute_key(n, ".Value.BinaryValue"@)),
    }
}

/// The message attributes numbered `1..=n`, a later one winning over an
/// earlier one of the same name.
pub open spec fn message_attributes_upto(p: Map<Seq<char>, Seq<char>>, n: nat) -> Map<
    Seq<char>,
    SqsMessageAttributeValueView,
>
    decreases n,
{
    if n == 0 {
        Map::empty()
    } else {
        message_attributes_upto(p, (n - 1) as nat).insert(
            p[message_attribute_key(n, ".Name"@)],
            message_attribute_at(p, n),
        )
    }
}

// -- queue attributes -------------------------------------------------------

/// `m` with parameter `k` copied into it, when the request has it.
pub open spec fn with_param(
    m: Map<Seq<char>, Seq<char>>,
    p: Map<Seq<char>, Seq<char>>,
    k: Seq<char>,
) -> Map<Seq<char>, Seq<char>> {
    if p.contains_key(k) {
        m.insert(k, p[k])
    } else {
        m
    }
}

/// The queue attributes that a JSON request carries as plain parameters.
pub open spec fn known_queue_attributes(p: Map<Seq<char>, Seq<char>>) -> Map<Seq<char>, Seq<char>> {
    let m0 = Map::<Seq<char>, Seq<char>>::empty();
    let m1 = with_param(m0, p, "FifoQueue"@);
    let m2 = with_param(m1, p, "ContentBasedDeduplication"@);
    let m3 = with_param(m2, p, "VisibilityTimeout"@);
    let m4 = with_param(m3, p, "MessageRetentionPeriod"@);
    let m5 = with_param(m4, p, "DelaySeconds"@);
    let m6 = with_param(m5, p, "MaximumMessageSize"@);
    let m7 = with_param(m6, p, "ReceiveMessageWaitTimeSeconds"@);
    let m8 = with_param(m7, p, "RedrivePolicy"@);
    with_param(m8, p, "RedriveAllowPolicy"@)
}

pub open spec fn queue_attribute_key(n: nat, suffix: Seq<char>) -> Seq<char> {
    indexed_key("Attribute."@, n, suffix)
}

pub open spec fn queue_attribute_present(p: Map<Seq<char>, Seq<char>>, n: nat) -> bool {
    p.contains_key(queue_attribute_key(n, ".Name"@)) && p.contains_key(queue_attribute_key(n, ".Value"@))
}

/// `base` with the numbered attributes `1..=n` put into it in order.
pub open spec fn queue_attributes_upto(
    p: Map<Seq<char>, Seq<char>>,
    base: Map<Seq<char>, Seq<char>>,
    n: nat,
) -> Map<Seq<char>, Seq<char>>
    decreases n,
{
    if n == 0 {
        base
    } else {
        queue_attributes_upto(p, base, (n - 1) as nat).insert(
            p[queue_attribute_key(n, ".Name"@)],
            p[queue_attribute_key(n, ".Value"@)],
        )
    }
}

// -- attribute names ----------------------------------------------------------

pub open spec fn attribute_name_key(n: nat) -> Seq<char> {
    indexed_key("AttributeName."@, n, Seq::empty())
}

pub open spec fn attribute_names_upto(p: Map<Seq<char>, Seq<char>>, n: nat) -> Seq<Seq<char>>
    decreases n,
{
    if n == 0 {
        Seq::empty()
    } else {
        attribute_names_upto(p, (n - 1) as nat).push(p[attribute_name_key(n)])
    }
}

/// The strings among JSON values, in order.
pub open spec fn json_strings(s: Seq<JsonValue>) -> Seq<Seq<char>>
    decreases s.len(),
{
    if s.len() == 0 {
        Seq::empty()
    } else {
        let r = json_strings(s.drop_last());
        match s.last() {
            JsonValue::Str(t) => r.push(t@),
            _ => r,
        }
    }
}

pub open spec fn string_views(v: Seq<String>) -> Seq<Seq<char>> {
    v.map_values(|s: String| s@)
}


/// The strings among JSON values, in order.
pub fn string_items(arr: &Vec<JsonValue>) -> (names: Vec<String>)
    ensures
        string_views(names@) == json_strings(arr@),
{
    let mut names: Vec<String> = Vec::new();
    let mut i: usize = 0;
    while i < arr.len()
        invariant
            i <= arr.len(),
            string_views(names@) == json_strings(arr@.take(i as int)),
        decreases arr.len() - i,
    {
        assert(arr@.take(i + 1).drop_last() =~= arr@.take(i as int));
        match &arr[i] {
            JsonValue::Str(s) => {
                names.push(s.clone());
                assert(string_views(names@) =~= json_strings(arr@.take(i + 1)));
            },
            _ => {
                assert(string_views(names@) =~= json_strings(arr@.take(i + 1)));
            },
        }
        i = i + 1;
    }
    assert(arr@.take(arr.len() as int) =~= arr@);
    names
}

/// The last piece of `s` cut at each `c`.
pub fn last_piece(s: &str, c: char) -> (r: String)
    ensures
        r@ == split_on(s@, c).last(),
{
    let chars = chars_of(s);
    let mut piece: Vec<char> = Vec::new();
    let mut i: usize = 0;
    while i < chars.len()
        invariant
            i <= chars.len(),
            chars@ == s@,
            piece@ == split_state(chars@.take(i as int), c).1,
        decreases chars.len() - i,
    {
        let d = chars[i];
        assert(chars@.take(i + 1).drop_last() =~= chars@.take(i as int));
        if d == c {
            piece = Vec::new();
            assert(piece@ =~= Seq::<char>::empty());
        } else {
            piece.push(d);
        }
        i = i + 1;
    }
    assert(chars@.take(chars.len() as int) =~= chars@);
    string_from_chars(piece.as_slice())
}

impl SqsRequest {
    /// Parses a form-encoded request body.
    pub fn parse(body: &str) -> (r: Result<SqsRequest, String>)
        ensures
            match r {
                Ok(req) => {
                    &&& form_action(form_params(body@)) == Some(req.action)
                    &&& req.params@ == form_params(body@)
                    &&& !req.is_json
                },
                Err(m) => form_action(form_params(body@)) is None && m@
                    == "Missing or invalid Action parameter"@,
            },
    {
        let params = parse_form_data(body);
        let action = match params.get("Action") {
            Some(a) => match SqsAction::from_name(a.as_str()) {
                Ok(x) => {
                    proof {
                        let p = form_params(body@);
                        assert(is_action_name(p["Action"@]));
                        let c = choose|a: SqsAction| action_name(a) == p["Action"@];
                        crate::sqs::types::lemma_action_name_injective(x, c);
                    }
                    Some(x)
                },
                Err(_) => None,
            },
            None => None,
        };
        match action {
            Some(a) => Ok(SqsRequest { action: a, params, is_json: false }),
            None => Err(to_owned_string("Missing or invalid Action parameter")),
        }
    }

    /// The value of parameter `key`.
    pub fn get_param(&self, key: &str) -> (r: Option<&str>)
        ensures
            match r {
                Some(v) => param(self.params@, key@) == Some(v@),
                None => param(self.params@, key@) is None,
            },
    {
        match self.params.get(key) {
            Some(v) => Some(v.as_str()),
            None => None,
        }
    }

    /// The value of a parameter that the action needs.
    pub fn get_required_param(&self, key: &str) -> (r: Result<&str, String>)
        ensures
            match r {
                Ok(v) => param(self.params@, key@) == Some(v@),
                Err(m) => param(self.params@, key@) is None && m@ == "Missing required parameter: "@
                    + key@,
            },
    {
        match self.get_param(key) {
            Some(v) => Ok(v),
            None => {
                let mut m = to_owned_string("Missing required parameter: ");
                push_str(&mut m, key);
                Err(m)
            },
        }
    }

    /// The message attributes `MessageAttribute.N.Name`,
    /// `MessageAttribute.N.Value.DataType` and the optional
    /// `.Value.StringValue` and `.Value.BinaryValue`, for `N` from 1 up to
    /// the first index that lacks a name or a data type.
    pub fn parse_message_attributes(&self) -> (r: SqsMessageAttributes)
        ensures
            exists|k: nat|
                run_of(|j: nat| message_attribute_present(self.params@, j), k) && r@
                    == message_attributes_upto(self.params@, k),
    {
        let ghost p = self.params@;
        let mut attributes: SqsMessageAttributes = Dict::new();
        let mut index: u128 = 1;
        loop
            invariant_except_break
                1 <= index,
                index - 1 <= self.params.pairs().len(),
                p == self.params@,
                forall|j: nat| 1 <= j < index ==> #[trigger] message_attribute_present(p, j),
                attributes@ == message_attributes_upto(p, (index - 1) as nat),
            ensures
                1 <= index,
                forall|j: nat| 1 <= j < index ==> #[trigger] message_attribute_present(p, j),
                !message_attribute_present(p, index as nat),
                attributes@ == message_attributes_upto(p, (index - 1) as nat),
            decreases self.params.pairs().len() + 1 - index,
        {
            let name_key = indexed_key_string("MessageAttribute.", index, ".Name");
            let type_key = indexed_key_string("MessageAttribute.", index, ".Value.DataType");
            let name = self.get_param(name_key.as_str());
            let data_type = self.get_param(type_key.as_str());
            if name.is_some() && data_type.is_some() {
                let sv_key = indexed_key_string("MessageAttribute.", index, ".Value.StringValue");
                let bv_key = indexed_key_string("MessageAttribute.", index, ".Value.BinaryValue");
                let value = SqsMessageAttributeValue {
                    data_type: to_owned_string(data_type.unwrap()),
                    string_value: owned_opt(self.get_param(sv_key.as_str())),
                    binary_value: owned_opt(self.get_param(bv_key.as_str())),
                };
                attributes.insert(to_owned_string(name.unwrap()), value);
                proof {
                    assert(message_attribute_present(p, index as nat));
                    assert forall|j: nat| 1 <= j <= index implies #[trigger] self.params@.contains_key(
                        indexed_key("MessageAttribute."@, j, ".Name"@),
                    ) by {
                        assert(message_attribute_present(p, j));
                    }
                    self.params.lemma_keys_bound("MessageAttribute."@, ".Name"@, index as nat);
                }
                let _count = self.params.len();
                index = index + 1;
            } else {
                break;
            }
        }
        assert(run_of(|j: nat| message_attribute_present(p, j), (index - 1) as nat));
        attributes
    }

    /// The queue attributes: those of the known names that the request
    /// carries as plain parameters, then `Attribute.N.Name` and
    /// `Attribute.N.Value` for `N` from 1 up to the first incomplete index.
    pub fn parse_queue_attributes(&self) -> (r: Dict<String>)
        ensures
            exists|k: nat|
                run_of(|j: nat| queue_attribute_present(self.params@, j), k) && r@
                    == queue_attributes_upto(self.params@, known_queue_attributes(self.params@), k),
    {
        let ghost p = self.params@;
        let mut attributes: Dict<String> = Dict::new();
        self.copy_param(&mut attributes, "FifoQueue");
        self.copy_param(&mut attributes, "ContentBasedDeduplication");
        self.copy_param(&mut attributes, "VisibilityTimeout");
        self.copy_param(&mut attributes, "MessageRetentionPeriod");
        self.copy_param(&mut attributes, "DelaySeconds");
        self.copy_param(&mut attributes, "MaximumMessageSize");
        self.copy_param(&mut attributes, "ReceiveMessageWaitTimeSeconds");
        self.copy_param(&mut attributes, "RedrivePolicy");
        self.copy_param(&mut attributes, "RedriveAllowPolicy");
        let ghost base = known_queue_attributes(p);
        assert(attributes@ == base);
        let mut index: u128 = 1;
        loop
            invariant_except_break
                1 <= index,
                index - 1 <= self.params.pairs().len(),
                p == self.params@,
                base == known_queue_attributes(p),
                forall|j: nat| 1 <= j < index ==> #[trigger] queue_attribute_present(p, j),
                attributes@ == queue_attributes_upto(p, base, (index - 1) as nat),
            ensures
                1 <= index,
                forall|j: nat| 1 <= j < index ==> #[trigger] queue_attribute_present(p, j),
                !queue_attribute_present(p, index as nat),
                attributes@ == queue_attributes_upto(p, base, (index - 1) as nat),
            decreases self.params.pairs().len() + 1 - index,
        {
            let name_key = indexed_key_string("Attribute.", index, ".Name");
            let value_key = indexed_key_string("Attribute.", index, ".Value");
            let name = self.get_param(name_key.as_str());
            let value = self.get_param(value_key.as_str());
            if name.is_some() && value.is_some() {
                attributes.insert(to_owned_string(name.unwrap()), to_owned_string(value.unwrap()));
                proof {
                    assert(queue_attribute_present(p, index as nat));
                    assert forall|j: nat| 1 <= j <= index implies #[trigger] self.params@.contains_key(
                        indexed_key("Attribute."@, j, ".Name"@),
                    ) by {
                        assert(queue_attribute_present(p, j));
                    }
                    self.params.lemma_keys_bound("Attribute."@, ".Name"@, index as nat);
                }
                let _count = self.params.len();
                index = index + 1;
            } else {
                break;
            }
        }
        assert(run_of(|j: nat| queue_attribute_present(p, j), (index - 1) as nat));
        attributes
    }

    /// Copies parameter `key` into `attributes`, when the request has it.
    fn copy_param(&self, attributes: &mut Dict<String>, key: &str)
        ensures
            final(attributes)@ == with_param(old(attributes)@, self.params@, key@),
    {
        match self.get_param(key) {
            Some(v) => attributes.insert(to_owned_string(key), to_owned_string(v)),
            None => {},
        }
    }

    /// The attribute names that GetQueueAttributes asks for: the strings of
    /// the `AttributeNames` parameter when it reads as a JSON array
    /// (`names_json` is that reading), else `AttributeName.N` for `N` from 1
    /// up to the first missing index.
    pub fn parse_attribute_names(&self, names_json: Option<&JsonValue>) -> (r: Vec<String>)
        ensures
            match array_reading(self.params@, "AttributeNames"@, names_json) {
                Some(a) => string_views(r@) == json_strings(a),
                None => exists|k: nat|
                    run_of(|j: nat| self.params@.contains_key(attribute_name_key(j)), k)
                        && string_views(r@) == attribute_names_upto(self.params@, k),
            },
    {
        let ghost p = self.params@;
        let mut names: Vec<String> = Vec::new();
        if self.params.contains_key("AttributeNames") {
            match names_json {
                Some(JsonValue::Array(arr)) => {
                    let mut i: usize = 0;
                    while i < arr.len()
                        invariant
                            i <= arr.len(),
                            string_views(names@) == json_strings(arr@.take(i as int)),
                        decreases arr.len() - i,
                    {
                        assert(arr@.take(i + 1).drop_last() =~= arr@.take(i as int));
                        match &arr[i] {
                            JsonValue::Str(s) => {
                                names.push(s.clone());
                                assert(string_views(names@) =~= json_strings(arr@.take(i + 1)));
                            },
                            _ => {
                                assert(string_views(names@) =~= json_strings(arr@.take(i + 1)));
                            },
                        }
                        i = i + 1;
                    }
                    assert(arr@.take(arr.len() as int) =~= arr@);
                    return names;
                },
                _ => {},
            }
        }
        proof {
            reveal_strlit("");
        }
        let mut index: u128 = 1;
        assert(string_views(names@) =~= attribute_names_upto(p, 0));
        loop
            invariant_except_break
                1 <= index,
                index - 1 <= self.params.pairs().len(),
                p == self.params@,
                ""@ == Seq::<char>::empty(),
                forall|j: nat| 1 <= j < index ==> #[trigger] p.contains_key(attribute_name_key(j)),
                string_views(names@) == attribute_names_upto(p, (index - 1) as nat),
            ensures
                1 <= index,
                forall|j: nat| 1 <= j < index ==> #[trigger] p.contains_key(attribute_name_key(j)),
                !p.contains_key(attribute_name_key(index as nat)),
                string_views(names@) == attribute_names_upto(p, (index - 1) as nat),
            decreases self.params.pairs().len() + 1 - index,
        {
            let key = indexed_key_string("AttributeName.", index, "");
            match self.get_param(key.as_str()) {
                Some(name) => {
                    let ghost before = names@;
                    names.push(to_owned_string(name));
                    assert(string_views(names@) =~= string_views(before).push(name@));
                    proof {
                        assert forall|j: nat| 1 <= j <= index implies #[trigger] self.params@.contains_key(
                            indexed_key("AttributeName."@, j, Seq::empty()),
                        ) by {
                            assert(p.contains_key(attribute_name_key(j)));
                        }
                        self.params.lemma_keys_bound("AttributeName."@, Seq::empty(), index as nat);
                    }
                    let _count = self.params.len();
                    index = index + 1;
                },
                None => {
                    break;
                },
            }
        }
        assert(run_of(|j: nat| p.contains_key(attribute_name_key(j)), (index - 1) as nat));
        names
    }
}

// ---------------------------------------------------------------------------
// Batch entries
// ---------------------------------------------------------------------------

/// Batch entry for SendMessageBatch.
#[derive(Debug)]
pub struct SendMessageBatchEntry {
    /// Entry ID.
    pub id: String,
    /// Message body.
    pub message_body: String,
    /// Delay seconds.
    pub delay_seconds: Option<u32>,
    /// Message deduplication ID (FIFO).
    pub message_deduplication_id: Option<String>,
    /// Message group ID (FIFO).
    pub message_group_id: Option<String>,
}

pub struct SendMessageBatchEntryView {
    pub id: Seq<char>,
    pub message_body: Seq<char>,
    pub delay_seconds: Option<u32>,
    pub message_deduplication_id: Option<Seq<char>>,
    pub message_group_id: Option<Seq<char>>,
}

impl View for SendMessageBatchEntry {
    type V = SendMessageBatchEntryView;

    open spec fn view(&self) -> SendMessageBatchEntryView {
        SendMessageBatchEntryView {
            id: self.id@,
            message_body: self.message_body@,
            delay_seconds: self.delay_seconds,
            message_deduplication_id: crate::types::opt_str_view(self.message_deduplication_id),
            message_group_id: crate::types::opt_str_view(self.message_group_id),
        }
    }
}

/// Batch entry for DeleteMessageBatch.
#[derive(Debug)]
pub struct DeleteMessageBatchEntry {
    /// Entry ID.
    pub id: String,
    /// Receipt handle.
    pub receipt_handle: String,
}

pub struct DeleteMessageBatchEntryView {
    pub id: Seq<char>,
    pub receipt_handle: Seq<char>,
}

impl View for DeleteMessageBatchEntry {
    type V = DeleteMessageBatchEntryView;

    open spec fn view(&self) -> DeleteMessageBatchEntryView {
        DeleteMessageBatchEntryView { id: self.id@, receipt_handle: self.receipt_handle@ }
    }
}

/// Batch entry for ChangeMessageVisibilityBatch.
#[derive(Debug)]
pub struct ChangeVisibilityBatchEntry {
    /// Entry ID.
    pub id: String,
    /// Receipt handle.
    pub receipt_handle: String,
    /// Visibility timeout in seconds.
    pub visibility_timeout: u32,
}

pub struct ChangeVisibilityBatchEntryView {
    pub id: Seq<char>,
    pub receipt_handle: Seq<char>,
    pub visibility_timeout: u32,
}

impl View for ChangeVisibilityBatchEntry {
    type V = ChangeVisibilityBatchEntryView;

    open spec fn view(&self) -> ChangeVisibilityBatchEntryView {
        ChangeVisibilityBatchEntryView {
            id: self.id@,
            receipt_handle: self.receipt_handle@,
            visibility_timeout: self.visibility_timeout,
        }
    }
}

pub open spec fn entry_views<T: View>(v: Seq<T>) -> Seq<T::V> {
    v.map_values(|e: T| e@)
}

/// A `u32` number, as `str::parse::<u32>` reads it.
pub open spec fn u32_reading(t: Seq<char>) -> Option<u32> {
    match parse_unsigned(t, u32::MAX as nat) {
        Some(v) => Some(v as u32),
        None => None,
    }
}

/// The low 32 bits of an optional number.
pub open spec fn low_u32(o: Option<u64>) -> Option<u32> {
    match o {
        Some(d) => Some(d as u32),
        None => None,
    }
}

pub(crate) fn read_u32(t: &str) -> (r: Option<u32>)
    ensures
        r == u32_reading(t@),
{
    match parse_unsigned_exec(t, 0xffff_ffff) {
        Some(v) => Some(v as u32),
        None => None,
    }
}

// -- SendMessageBatch -----------------------------------------------------------

pub open spec fn send_entry_key(n: nat, suffix: Seq<char>) -> Seq<char> {
    indexed_key("SendMessageBatchRequestEntry."@, n, suffix)
}

pub open spec fn send_entry_present(p: Map<Seq<char>, Seq<char>>, n: nat) -> bool {
    p.contains_key(send_entry_key(n, ".Id"@)) && p.contains_key(send_entry_key(n, ".MessageBody"@))
}

pub open spec fn send_entry_at(p: Map<Seq<char>, Seq<char>>, n: nat) -> SendMessageBatchEntryView {
    SendMessageBatchEntryView {
        id: p[send_entry_key(n, ".Id"@)],
        message_body: p[send_entry_key(n, ".MessageBody"@)],
        delay_seconds: match param(p, send_entry_key(n, ".DelaySeconds"@)) {
            Some(t) => u32_reading(t),
            None => None,
        },
        message_deduplication_id: param(p, send_entry_key(n, ".MessageDeduplicationId"@)),
        message_group_id: param(p, send_entry_key(n, ".MessageGroupId"@)),
    }
}

pub open spec fn send_entries_upto(p: Map<Seq<char>, Seq<char>>, n: nat) -> Seq<SendMessageBatchEntryView>
    decreases n,
{
    if n == 0 {
        Seq::empty()
    } else {
        send_entries_upto(p, (n - 1) as nat).push(send_entry_at(p, n))
    }
}

/// The entries of a JSON `Entries` array: each object with a string `Id` and
/// a string `MessageBody`; the others are skipped.
pub open spec fn send_entries_json(s: Seq<JsonValue>) -> Seq<SendMessageBatchEntryView>
    decreases s.len(),
{
    if s.len() == 0 {
        Seq::empty()
    } else {
        let r = send_entries_json(s.drop_last());
        let e = s.last();
        match (as_text(field(e, "Id"@)), as_text(field(e, "MessageBody"@))) {
            (Some(id), Some(body)) => r.push(
                SendMessageBatchEntryView {
                    id,
                    message_body: body,
                    delay_seconds: low_u32(as_unsigned(field(e, "DelaySeconds"@))),
                    message_deduplication_id: as_text(field(e, "MessageDeduplicationId"@)),
                    message_group_id: as_text(field(e, "MessageGroupId"@)),
                },
            ),
            _ => r,
        }
    }
}

// -- DeleteMessageBatch ---------------------------------------------------------

pub open spec fn delete_entry_key(n: nat, suffix: Seq<char>) -> Seq<char> {
    indexed_key("DeleteMessageBatchRequestEntry."@, n, suffix)
}

pub open spec fn delete_entry_present(p: Map<Seq<char>, Seq<char>>, n: nat) -> bool {
    p.contains_key(delete_entry_key(n, ".Id"@)) && p.contains_key(delete_entry_key(n, ".ReceiptHandle"@))
}

pub open spec fn delete_entries_upto(p: Map<Seq<char>, Seq<char>>, n: nat) -> Seq<DeleteMessageBatchEntryView>
    decreases n,
{
    if n == 0 {
        Seq::empty()
    } else {
        delete_entries_upto(p, (n - 1) as nat).push(
            DeleteMessageBatchEntryView {
                id: p[delete_entry_key(n, ".Id"@)],
                receipt_handle: p[delete_entry_key(n, ".ReceiptHandle"@)],
            },
        )
    }
}

pub open spec fn delete_entries_json(s: Seq<JsonValue>) -> Seq<DeleteMessageBatchEntryView>
    decreases s.len(),
{
    if s.len() == 0 {
        Seq::empty()
    } else {
        let r = delete_entries_json(s.drop_last());
        let e = s.last();
        match (as_text(field(e, "Id"@)), as_text(field(e, "ReceiptHandle"@))) {
            (Some(id), Some(h)) => r.push(DeleteMessageBatchEntryView { id, receipt_handle: h }),
            _ => r,
        }
    }
}

// -- ChangeMessageVisibilityBatch -----------------------------------------------

pub open spec fn visibility_entry_key(n: nat, suffix: Seq<char>) -> Seq<char> {
    indexed_key("ChangeMessageVisibilityBatchRequestEntry."@, n, suffix)
}

pub open spec fn visibility_entry_present(p: Map<Seq<char>, Seq<char>>, n: nat) -> bool {
    &&& p.contains_key(visibility_entry_key(n, ".Id"@))
    &&& p.contains_key(visibility_entry_key(n, ".ReceiptHandle"@))
    &&& p.contains_key(visibility_entry_key(n, ".VisibilityTimeout"@))
}

/// The entries numbered `1..=n`; one whose timeout is no `u32` is left out.
pub open spec fn visibility_entries_upto(p: Map<Seq<char>, Seq<char>>, n: nat) -> Seq<ChangeVisibilityBatchEntryView>
    decreases n,
{
    if n == 0 {
        Seq::empty()
    } else {
        let r = visibility_entries_upto(p, (n - 1) as nat);
        match u32_reading(p[visibility_entry_key(n, ".VisibilityTimeout"@)]) {
            Some(t) => r.push(
                ChangeVisibilityBatchEntryView {
                    id: p[visibility_entry_key(n, ".Id"@)],
                    receipt_handle: p[visibility_entry_key(n, ".ReceiptHandle"@)],
                    visibility_timeout: t,
                },
            ),
            None => r,
        }
    }
}

pub open spec fn visibility_entries_json(s: Seq<JsonValue>) -> Seq<ChangeVisibilityBatchEntryView>
    decreases s.len(),
{
    if s.len() == 0 {
        Seq::empty()
    } else {
        let r = visibility_entries_json(s.drop_last());
        let e = s.last();
        match (
            as_text(field(e, "Id"@)),
            as_text(field(e, "ReceiptHandle"@)),
            as_unsigned(field(e, "VisibilityTimeout"@)),
        ) {
            (Some(id), Some(h), Some(t)) => r.push(
                ChangeVisibilityBatchEntryView { id, receipt_handle: h, visibility_timeout: t as u32 },
            ),
            _ => r,
        }
    }
}

impl SqsRequest {
    /// The `Entries` array of a JSON request, when the request has that
    /// parameter and `entries_json`, its JSON reading, is an array.
    fn entries_array<'a>(&self, entries_json: Option<&'a JsonValue>) -> (r: Option<&'a Vec<JsonValue>>)
        ensures
            match array_reading(self.params@, "Entries"@, entries_json) {
                Some(a) => r is Some && r.unwrap()@ == a,
                None => r is None,
            },
    {
        if self.params.contains_key("Entries") {
            match entries_json {
                Some(JsonValue::Array(arr)) => Some(arr),
                _ => None,
            }
        } else {
            None
        }
    }

    /// The entries of a SendMessageBatch request: those of the `Entries`
    /// parameter when it reads as a JSON array (`entries_json` is that
    /// reading), else `SendMessageBatchRequestEntry.N.Id` and `.MessageBody`
    /// with the optional `.DelaySeconds`, `.MessageDeduplicationId` and
    /// `.MessageGroupId`, for `N` from 1 up to the first incomplete index.
    pub fn parse_send_message_batch_entries(&self, entries_json: Option<&JsonValue>) -> (r: Vec<SendMessageBatchEntry>)
        ensures
            match array_reading(self.params@, "Entries"@, entries_json) {
                Some(a) => entry_views(r@) == send_entries_json(a),
                None => exists|k: nat|
                    run_of(|j: nat| send_entry_present(self.params@, j), k) && entry_views(r@)
                        == send_entries_upto(self.params@, k),
            },
    {
        let ghost p = self.params@;
        let mut entries: Vec<SendMessageBatchEntry> = Vec::new();
        match self.entries_array(entries_json) {
            Some(arr) => {
                let mut i: usize = 0;
                while i < arr.len()
                    invariant
                        i <= arr.len(),
                        entry_views(entries@) == send_entries_json(arr@.take(i as int)),
                    decreases arr.len() - i,
                {
                    let e = &arr[i];
                    assert(arr@.take(i + 1).drop_last() =~= arr@.take(i as int));
                    let ghost before = entries@;
                    match (field_text(e, "Id"), field_text(e, "MessageBody")) {
                        (Some(id), Some(body)) => {
                            let delay_seconds = match field_unsigned(e, "DelaySeconds") {
                                Some(d) => Some(d as u32),
                                None => None,
                            };
                            let dedup = match field_text(e, "MessageDeduplicationId") {
                                Some(t) => Some(t.clone()),
                                None => None,
                            };
                            let group = match field_text(e, "MessageGroupId") {
                                Some(t) => Some(t.clone()),
                                None => None,
                            };
                            entries.push(
                                SendMessageBatchEntry {
                                    id: id.clone(),
                                    message_body: body.clone(),
                                    delay_seconds,
                                    message_deduplication_id: dedup,
                                    message_group_id: group,
                                },
                            );
                            assert(entry_views(entries@) =~= entry_views(before).push(entries@.last()@));
                        },
                        _ => {},
                    }
                    i = i + 1;
                }
                assert(arr@.take(arr.len() as int) =~= arr@);
                return entries;
            },
            None => {},
        }
        let mut index: u128 = 1;
        assert(entry_views(entries@) =~= send_entries_upto(p, 0));
        loop
            invariant_except_break
                1 <= index,
                index - 1 <= self.params.pairs().len(),
                p == self.params@,
                forall|j: nat| 1 <= j < index ==> #[trigger] send_entry_present(p, j),
                entry_views(entries@) == send_entries_upto(p, (index - 1) as nat),
            ensures
                1 <= index,
                forall|j: nat| 1 <= j < index ==> #[trigger] send_entry_present(p, j),
                !send_entry_present(p, index as nat),
                entry_views(entries@) == send_entries_upto(p, (index - 1) as nat),
            decreases self.params.pairs().len() + 1 - index,
        {
            let id_key = indexed_key_string("SendMessageBatchRequestEntry.", index, ".Id");
            let body_key = indexed_key_string("SendMessageBatchRequestEntry.", index, ".MessageBody");
            let id = self.get_param(id_key.as_str());
            let body = self.get_param(body_key.as_str());
            if id.is_some() && body.is_some() {
                let delay_key = indexed_key_string("SendMessageBatchRequestEntry.", index, ".DelaySeconds");
                let delay_seconds = match self.get_param(delay_key.as_str()) {
                    Some(t) => read_u32(t),
                    None => None,
                };
                let dedup_key = indexed_key_string(
                    "SendMessageBatchRequestEntry.",
                    index,
                    ".MessageDeduplicationId",
                );
                let group_key = indexed_key_string("SendMessageBatchRequestEntry.", index, ".MessageGroupId");
                let ghost before = entries@;
                entries.push(
                    SendMessageBatchEntry {
                        id: to_owned_string(id.unwrap()),
                        message_body: to_owned_string(body.unwrap()),
                        delay_seconds,
                        message_deduplication_id: owned_opt(self.get_param(dedup_key.as_str())),
                        message_group_id: owned_opt(self.get_param(group_key.as_str())),
                    },
                );
                assert(entry_views(entries@) =~= entry_views(before).push(entries@.last()@));
                proof {
                    assert(send_entry_present(p, index as nat));
                    assert forall|j: nat| 1 <= j <= index implies #[trigger] self.params@.contains_key(
                        indexed_key("SendMessageBatchRequestEntry."@, j, ".Id"@),
                    ) by {
                        assert(send_entry_present(p, j));
                    }
                    self.params.lemma_keys_bound("SendMessageBatchRequestEntry."@, ".Id"@, index as nat);
                }
                let _count = self.params.len();
                index = index + 1;
            } else {
                break;
            }
        }
        assert(run_of(|j: nat| send_entry_present(p, j), (index - 1) as nat));
        entries
    }

    /// The entries of a DeleteMessageBatch request: those of the `Entries`
    /// parameter when it reads as a JSON array (`entries_json` is that
    /// reading), else `DeleteMessageBatchRequestEntry.N.Id` and
    /// `.ReceiptHandle` for `N` from 1 up to the first incomplete index.
    pub fn parse_delete_message_batch_entries(&self, entries_json: Option<&JsonValue>) -> (r: Vec<DeleteMessageBatchEntry>)
        ensures
            match array_reading(self.params@, "Entries"@, entries_json) {
                Some(a) => entry_views(r@) == delete_entries_json(a),
                None => exists|k: nat|
                    run_of(|j: nat| delete_entry_present(self.params@, j), k) && entry_views(r@)
                        == delete_entries_upto(self.params@, k),
            },
    {
        let ghost p = self.params@;
        let mut entries: Vec<DeleteMessageBatchEntry> = Vec::new();
        match self.entries_array(entries_json) {
            Some(arr) => {
                let mut i: usize = 0;
                while i < arr.len()
                    invariant
                        i <= arr.len(),
                        entry_views(entries@) == delete_entries_json(arr@.take(i as int)),
                    decreases arr.len() - i,
                {
                    let e = &arr[i];
                    assert(arr@.take(i + 1).drop_last() =~= arr@.take(i as int));
                    let ghost before = entries@;
                    match (field_text(e, "Id"), field_text(e, "ReceiptHandle")) {
                        (Some(id), Some(h)) => {
                            entries.push(DeleteMessageBatchEntry { id: id.clone(), receipt_handle: h.clone() });
                            assert(entry_views(entries@) =~= entry_views(before).push(entries@.last()@));
                        },
                        _ => {},
                    }
                    i = i + 1;
                }
                assert(arr@.take(arr.len() as int) =~= arr@);
                return entries;
            },
            None => {},
        }
        let mut index: u128 = 1;
        assert(entry_views(entries@) =~= delete_entries_upto(p, 0));
        loop
            invariant_except_break
                1 <= index,
                index - 1 <= self.params.pairs().len(),
                p == self.params@,
                forall|j: nat| 1 <= j < index ==> #[trigger] delete_entry_present(p, j),
                entry_views(entries@) == delete_entries_upto(p, (index - 1) as nat),
            ensures
                1 <= index,
                forall|j: nat| 1 <= j < index ==> #[trigger] delete_entry_present(p, j),
                !delete_entry_present(p, index as nat),
                entry_views(entries@) == delete_entries_upto(p, (index - 1) as nat),
            decreases self.params.pairs().len() + 1 - index,
        {
            let id_key = indexed_key_string("DeleteMessageBatchRequestEntry.", index, ".Id");
            let handle_key = indexed_key_string("DeleteMessageBatchRequestEntry.", index, ".ReceiptHandle");
            let id = self.get_param(id_key.as_str());
            let handle = self.get_param(handle_key.as_str());
            if id.is_some() && handle.is_some() {
                let ghost before = entries@;
                entries.push(
                    DeleteMessageBatchEntry {
                        id: to_owned_string(id.unwrap()),
                        receipt_handle: to_owned_string(handle.unwrap()),
                    },
                );
                assert(entry_views(entries@) =~= entry_views(before).push(entries@.last()@));
                proof {
                    assert(delete_entry_present(p, index as nat));
                    assert forall|j: nat| 1 <= j <= index implies #[trigger] self.params@.contains_key(
                        indexed_key("DeleteMessageBatchRequestEntry."@, j, ".Id"@),
                    ) by {
                        assert(delete_entry_present(p, j));
                    }
                    self.params.lemma_keys_bound("DeleteMessageBatchRequestEntry."@, ".Id"@, index as nat);
                }
                let _count = self.params.len();
                index = index + 1;
            } else {
                break;
            }
        }
        assert(run_of(|j: nat| delete_entry_present(p, j), (index - 1) as nat));
        entries
    }

    /// The entries of a ChangeMessageVisibilityBatch request: those of the
    /// `Entries` parameter when it reads as a JSON array (`entries_json` is
    /// that reading), else
    /// `ChangeMessageVisibilityBatchRequestEntry.N.Id`, `.ReceiptHandle` and
    /// `.VisibilityTimeout` for `N` from 1 up to the first incomplete index,
    /// leaving out an entry whose timeout is not a `u32`.
    pub fn parse_change_visibility_batch_entries(&self, entries_json: Option<&JsonValue>) -> (r: Vec<
        ChangeVisibilityBatchEntry,
    >)
        ensures
            match array_reading(self.params@, "Entries"@, entries_json) {
                Some(a) => entry_views(r@) == visibility_entries_json(a),
                None => exists|k: nat|
                    run_of(|j: nat| visibility_entry_present(self.params@, j), k) && entry_views(r@)
                        == visibility_entries_upto(self.params@, k),
            },
    {
        let ghost p = self.params@;
        let mut entries: Vec<ChangeVisibilityBatchEntry> = Vec::new();
        match self.entries_array(entries_json) {
            Some(arr) => {
                let mut i: usize = 0;
                while i < arr.len()
                    invariant
                        i <= arr.len(),
                        entry_views(entries@) == visibility_entries_json(arr@.take(i as int)),
                    decreases arr.len() - i,
                {
                    let e = &arr[i];
                    assert(arr@.take(i + 1).drop_last() =~= arr@.take(i as int));
                    let ghost before = entries@;
                    match (field_text(e, "Id"), field_text(e, "ReceiptHandle"), field_unsigned(e, "VisibilityTimeout")) {
                        (Some(id), Some(h), Some(t)) => {
                            entries.push(
                                ChangeVisibilityBatchEntry {
                                    id: id.clone(),
                                    receipt_handle: h.clone(),
                                    visibility_timeout: t as u32,
                                },
                            );
                            assert(entry_views(entries@) =~= entry_views(before).push(entries@.last()@));
                        },
                        _ => {},
                    }
                    i = i + 1;
                }
                assert(arr@.take(arr.len() as int) =~= arr@);
                return entries;
            },
            None => {},
        }
        let mut index: u128 = 1;
        assert(entry_views(entries@) =~= visibility_entries_upto(p, 0));
        loop
            invariant_except_break
                1 <= index,
                index - 1 <= self.params.pairs().len(),
                p == self.params@,
                forall|j: nat| 1 <= j < index ==> #[trigger] visibility_entry_present(p, j),
                entry_views(entries@) == visibility_entries_upto(p, (index - 1) as nat),
            ensures
                1 <= index,
                forall|j: nat| 1 <= j < index ==> #[trigger] visibility_entry_present(p, j),
                !visibility_entry_present(p, index as nat),
                entry_views(entries@) == visibility_entries_upto(p, (index - 1) as nat),
            decreases self.params.pairs().len() + 1 - index,
        {
            let id_key = indexed_key_string("ChangeMessageVisibilityBatchRequestEntry.", index, ".Id");
            let handle_key = indexed_key_string(
                "ChangeMessageVisibilityBatchRequestEntry.",
                index,
                ".ReceiptHandle",
            );
            let timeout_key = indexed_key_string(
                "ChangeMessageVisibilityBatchRequestEntry.",
                index,
                ".VisibilityTimeout",
            );
            let id = self.get_param(id_key.as_str());
            let handle = self.get_param(handle_key.as_str());
            let timeout = self.get_param(timeout_key.as_str());
            if id.is_some() && handle.is_some() && timeout.is_some() {
                let ghost before = entries@;
                match read_u32(timeout.unwrap()) {
                    Some(t) => {
                        entries.push(
                            ChangeVisibilityBatchEntry {
                                id: to_owned_string(id.unwrap()),
                                receipt_handle: to_owned_string(handle.unwrap()),
                                visibility_timeout: t,
                            },
                        );
                        assert(entry_views(entries@) =~= entry_views(before).push(entries@.last()@));
                    },
                    None => {},
                }
                proof {
                    assert(visibility_entry_present(p, index as nat));
                    assert forall|j: nat| 1 <= j <= index implies #[trigger] self.params@.contains_key(
                        indexed_key("ChangeMessageVisibilityBatchRequestEntry."@, j, ".Id"@),
                    ) by {
                        assert(visibility_entry_present(p, j));
                    }
                    self.params.lemma_keys_bound(
                        "ChangeMessageVisibilityBatchRequestEntry."@,
                        ".Id"@,
                        index as nat,
                    );
                }
                let _count = self.params.len();
                index = index + 1;
            } else {
                break;
            }
        }
        assert(run_of(|j: nat| visibility_entry_present(p, j), (index - 1) as nat));
        entries
    }
}

// ---------------------------------------------------------------------------
// JSON requests
// ---------------------------------------------------------------------------

/// `str::trim(s).starts_with('{')`: the first character that is not white
/// space is `{`.
pub open spec fn opens_object(s: Seq<char>) -> bool {
    exists|i: int|
        0 <= i < s.len() && s[i] == '{' && forall|j: int| 0 <= j < i ==> crate::text::unicode_white_space(
            #[trigger] s[j],
        )
}

/// Decides `opens_object`.
pub fn text_opens_object(s: &str) -> (r: bool)
    ensures
        r == opens_object(s@),
{
    let v = chars_of(s);
    let brace_is_space = crate::text::char_is_whitespace('{');
    assert(!brace_is_space) by {
        assert(('{' as u32) < 128);
    }
    let mut i: usize = 0;
    while i < v.len()
        invariant
            i <= v.len(),
            v@ == s@,
            !crate::text::unicode_white_space('{'),
            forall|j: int| 0 <= j < i ==> crate::text::unicode_white_space(#[trigger] v@[j]),
        decreases v.len() - i,
    {
        if !crate::text::char_is_whitespace(v[i]) {
            let r = v[i] == '{';
            proof {
                if !r && opens_object(s@) {
                    let k = choose|k: int|
                        0 <= k < s@.len() && s@[k] == '{' && forall|j: int| 0 <= j < k ==> crate::text::unicode_white_space(#[trigger] s@[j]);
                    if k < i {
                        assert(crate::text::unicode_white_space(v@[k]));
                    }
                    if k > i {
                        assert(crate::text::unicode_white_space(s@[i as int]));
                    }
                }
            }
            return r;
        }
        i = i + 1;
    }
    proof {
        if opens_object(s@) {
            let k = choose|k: int|
                0 <= k < s@.len() && s@[k] == '{' && forall|j: int| 0 <= j < k ==> crate::text::unicode_white_space(#[trigger] s@[j]);
            assert(crate::text::unicode_white_space(v@[k]));
        }
    }
    false
}

/// A parameter value: the text of a string, the JSON text of anything else.
pub open spec fn text_or_json(v: JsonValue) -> Seq<char> {
    match v {
        JsonValue::Str(s) => s@,
        _ => json_text(v),
    }
}

/// The members of an object put into the parameters in order.
pub open spec fn insert_members(m: Map<Seq<char>, Seq<char>>, s: Seq<(String, JsonValue)>) -> Map<Seq<char>, Seq<char>>
    decreases s.len(),
{
    if s.len() == 0 {
        m
    } else {
        insert_members(m, s.drop_last()).insert(s.last().0@, text_or_json(s.last().1))
    }
}

/// `m` with `k` set to the string member `name` of `o`, when it has one.
pub open spec fn with_string_member(
    m: Map<Seq<char>, Seq<char>>,
    o: Seq<(String, JsonValue)>,
    name: Seq<char>,
    k: Seq<char>,
) -> Map<Seq<char>, Seq<char>> {
    match crate::sqs::json::member_value(o, name) {
        Some(JsonValue::Str(t)) => m.insert(k, t@),
        _ => m,
    }
}

/// The `MessageAttributes` object spelled out as the numbered parameters of
/// the query protocol: the `n`-th attribute gives `MessageAttribute.n.Name`
/// and, from its `DataType`, `StringValue` and `BinaryValue` strings,
/// `MessageAttribute.n.Value.DataType` and so on.
pub open spec fn insert_message_attributes(m: Map<Seq<char>, Seq<char>>, s: Seq<(String, JsonValue)>) -> Map<
    Seq<char>,
    Seq<char>,
>
    decreases s.len(),
{
    if s.len() == 0 {
        m
    } else {
        let n = s.len();
        let m1 = insert_message_attributes(m, s.drop_last()).insert(
            message_attribute_key(n, ".Name"@),
            s.last().0@,
        );
        match s.last().1 {
            JsonValue::Object(o) => {
                let m2 = with_string_member(m1, o@, "DataType"@, message_attribute_key(n, ".Value.DataType"@));
                let m3 = with_string_member(m2, o@, "StringValue"@, message_attribute_key(n, ".Value.StringValue"@));
                with_string_member(m3, o@, "BinaryValue"@, message_attribute_key(n, ".Value.BinaryValue"@))
            },
            _ => m1,
        }
    }
}

/// A plural key without its final `s`: `AttributeNames` gives
/// `AttributeName`.
pub open spec fn singular(k: Seq<char>) -> Seq<char> {
    if k.len() > 0 && k.last() == 's' {
        k.drop_last()
    } else {
        k
    }
}

/// The items of an array as the numbered parameters `base.1`, `base.2`, ...
pub open spec fn insert_items(m: Map<Seq<char>, Seq<char>>, base: Seq<char>, s: Seq<JsonValue>) -> Map<
    Seq<char>,
    Seq<char>,
>
    decreases s.len(),
{
    if s.len() == 0 {
        m
    } else {
        insert_items(m, base, s.drop_last()).insert(
            indexed_key(base + seq!['.'], s.len(), Seq::empty()),
            text_or_json(s.last()),
        )
    }
}

/// One member of a JSON request applied to the parameters.
/// `attributes_reading` is the JSON reading of an `Attributes` member that
/// is itself a string holding an object.
pub open spec fn apply_json_member(
    m: Map<Seq<char>, Seq<char>>,
    key: Seq<char>,
    value: JsonValue,
    attributes_reading: Option<&JsonValue>,
) -> Map<Seq<char>, Seq<char>> {
    if key == "Attributes"@ && value is Object {
        insert_members(m, value->Object_0@)
    } else if key == "Attributes"@ && value is Str && opens_object(value->Str_0@) {
        match attributes_reading {
            Some(JsonValue::Object(o)) => insert_members(m, o@),
            _ => m,
        }
    } else if key == "MessageAttributes"@ && value is Object {
        insert_message_attributes(m, value->Object_0@)
    } else {
        match value {
            JsonValue::Str(t) => m.insert(key, t@),
            JsonValue::Number(n) => m.insert(key, n.text@),
            JsonValue::Bool(b) => m.insert(key, crate::sqs::response::bool_text(b)),
            JsonValue::Array(a) => if key == "Entries"@ {
                m.insert(key, json_text(value))
            } else {
                insert_items(m, singular(key), a@)
            },
            JsonValue::Object(_) => m.insert(key, json_text(value)),
            JsonValue::Null => m,
        }
    }
}

/// The parameters of a JSON request whose body is an object with `members`.
pub open spec fn json_params(s: Seq<(String, JsonValue)>, attributes_reading: Option<&JsonValue>) -> Map<
    Seq<char>,
    Seq<char>,
>
    decreases s.len(),
{
    if s.len() == 0 {
        Map::empty()
    } else {
        apply_json_member(json_params(s.drop_last(), attributes_reading), s.last().0@, s.last().1, attributes_reading)
    }
}

/// The parameters of a JSON request body.
pub open spec fn json_body_params(body: JsonValue, attributes_reading: Option<&JsonValue>) -> Map<
    Seq<char>,
    Seq<char>,
> {
    match body {
        JsonValue::Object(members) => json_params(members@, attributes_reading),
        _ => Map::empty(),
    }
}

fn insert_members_exec(params: &mut Dict<String>, members: &Vec<(String, JsonValue)>)
    ensures
        final(params)@ == insert_members(old(params)@, members@),
{
    let ghost start = params@;
    let mut i: usize = 0;
    while i < members.len()
        invariant
            i <= members.len(),
            params@ == insert_members(start, members@.take(i as int)),
        decreases members.len() - i,
    {
        assert(members@.take(i + 1).drop_last() =~= members@.take(i as int));
        let text = value_text(&members[i].1);
        params.insert(members[i].0.clone(), text);
        i = i + 1;
    }
    assert(members@.take(members.len() as int) =~= members@);
}

/// `text_or_json` of a value.
fn value_text(v: &JsonValue) -> (r: String)
    ensures
        r@ == text_or_json(*v),
{
    match v {
        JsonValue::Str(t) => t.clone(),
        _ => to_json_text(v),
    }
}

fn copy_string_member(params: &mut Dict<String>, o: &Vec<(String, JsonValue)>, name: &str, key: String)
    ensures
        final(params)@ == with_string_member(old(params)@, o@, name@, key@),
{
    match crate::sqs::json::find_member(o, name) {
        Some(JsonValue::Str(t)) => params.insert(key, t.clone()),
        _ => {},
    }
}

fn insert_message_attributes_exec(params: &mut Dict<String>, members: &Vec<(String, JsonValue)>)
    ensures
        final(params)@ == insert_message_attributes(old(params)@, members@),
{
    let ghost start = params@;
    let mut i: usize = 0;
    while i < members.len()
        invariant
            i <= members.len(),
            params@ == insert_message_attributes(start, members@.take(i as int)),
        decreases members.len() - i,
    {
        assert(members@.take(i + 1).drop_last() =~= members@.take(i as int));
        let n: u128 = i as u128 + 1;
        params.insert(indexed_key_string("MessageAttribute.", n, ".Name"), members[i].0.clone());
        match &members[i].1 {
            JsonValue::Object(o) => {
                copy_string_member(params, o, "DataType", indexed_key_string("MessageAttribute.", n, ".Value.DataType"));
                copy_string_member(
                    params,
                    o,
                    "StringValue",
                    indexed_key_string("MessageAttribute.", n, ".Value.StringValue"),
                );
                copy_string_member(
                    params,
                    o,
                    "BinaryValue",
                    indexed_key_string("MessageAttribute.", n, ".Value.BinaryValue"),
                );
            },
            _ => {},
        }
        i = i + 1;
    }
    assert(members@.take(members.len() as int) =~= members@);
}

fn insert_items_exec(params: &mut Dict<String>, base: &str, items: &Vec<JsonValue>)
    ensures
        final(params)@ == insert_items(old(params)@, base@, items@),
{
    let ghost start = params@;
    let mut prefix = to_owned_string(base);
    push_char(&mut prefix, '.');
    proof {
        reveal_strlit("");
    }
    let mut i: usize = 0;
    while i < items.len()
        invariant
            i <= items.len(),
            prefix@ == base@ + seq!['.'],
            ""@ == Seq::<char>::empty(),
            params@ == insert_items(start, base@, items@.take(i as int)),
        decreases items.len() - i,
    {
        assert(items@.take(i + 1).drop_last() =~= items@.take(i as int));
        let key = indexed_key_string(prefix.as_str(), i as u128 + 1, "");
        let text = value_text(&items[i]);
        params.insert(key, text);
        i = i + 1;
    }
    assert(items@.take(items.len() as int) =~= items@);
}

/// `singular` of a key.
fn singular_of(k: &str) -> (r: String)
    ensures
        r@ == singular(k@),
{
    let v = chars_of(k);
    if v.len() > 0 && v[v.len() - 1] == 's' {
        string_of_range(&v, 0, v.len() - 1)
    } else {
        to_owned_string(k)
    }
}

fn apply_json_member_exec(
    params: &mut Dict<String>,
    key: &String,
    value: &JsonValue,
    attributes_reading: Option<&JsonValue>,
)
    ensures
        final(params)@ == apply_json_member(old(params)@, key@, *value, attributes_reading),
{
    let is_attributes = str_eq(key.as_str(), "Attributes");
    let is_message_attributes = str_eq(key.as_str(), "MessageAttributes");
    match value {
        JsonValue::Object(members) => {
            if is_attributes {
                insert_members_exec(params, members);
            } else if is_message_attributes {
                insert_message_attributes_exec(params, members);
            } else {
                params.insert(key.clone(), to_json_text(value));
            }
        },
        JsonValue::Str(t) => {
            if is_attributes && text_opens_object(t.as_str()) {
                match attributes_reading {
                    Some(JsonValue::Object(o)) => insert_members_exec(params, o),
                    _ => {},
                }
            } else {
                params.insert(key.clone(), t.clone());
            }
        },
        JsonValue::Number(n) => {
            params.insert(key.clone(), n.text.clone());
        },
        JsonValue::Bool(b) => {
            params.insert(key.clone(), to_owned_string(crate::sqs::response::bool_to_str(*b)));
        },
        JsonValue::Array(items) => {
            if str_eq(key.as_str(), "Entries") {
                params.insert(key.clone(), to_json_text(value));
            } else {
                let base = singular_of(key.as_str());
                insert_items_exec(params, base.as_str(), items);
            }
        },
        JsonValue::Null => {},
    }
}

impl SqsRequest {
    /// The text of the `Attributes` member of a JSON body when it is a string
    /// that holds an object: what the caller reads as JSON and hands to
    /// `parse_json` as `attributes_reading`.
    pub fn embedded_attributes_text(body: &JsonValue) -> (r: Option<&String>)
        ensures
            match r {
                Some(t) => body is Object && crate::sqs::json::member_value(body->Object_0@, "Attributes"@)
                    == Some(JsonValue::Str(*t)) && opens_object(t@),
                None => !(body is Object && exists|t: String|
                    crate::sqs::json::member_value(body->Object_0@, "Attributes"@) == Some(JsonValue::Str(t))
                        && opens_object(t@)),
            },
    {
        match body {
            JsonValue::Object(members) => match crate::sqs::json::find_member(members, "Attributes") {
                Some(JsonValue::Str(t)) => {
                    if text_opens_object(t.as_str()) {
                        Some(t)
                    } else {
                        None
                    }
                },
                _ => None,
            },
            _ => None,
        }
    }

    /// Parses an AWS JSON 1.0 request. `target` is the `X-Amz-Target`
    /// header, `body` the JSON reading of the body (or the reader's error),
    /// and `attributes_reading` the JSON reading of `embedded_attributes_text`.
    pub fn parse_json(
        target: Option<&str>,
        body: Result<JsonValue, String>,
        attributes_reading: Option<&JsonValue>,
    ) -> (r: Result<SqsRequest, String>)
        ensures
            match target {
                None => r is Err && r->Err_0@ == "Missing X-Amz-Target header for JSON request"@,
                Some(t) => if !crate::text::seq_starts_with(t@, "AmazonSQS."@) {
                    r is Err && r->Err_0@ == "Invalid X-Amz-Target format: "@ + t@
                } else if !is_action_name(t@.skip(10)) {
                    r is Err && r->Err_0@ == "Unknown action: "@ + "Unknown SQS action: "@ + t@.skip(10)
                } else {
                    match body {
                        Err(e) => r is Err && r->Err_0@ == "Failed to parse JSON body: "@ + e@,
                        Ok(v) => r is Ok && action_name(r->Ok_0.action) == t@.skip(10) && r->Ok_0.is_json
                            && r->Ok_0.params@ == json_body_params(v, attributes_reading),
                    }
                },
            },
    {
        let t = match target {
            Some(t) => t,
            None => {
                return Err(to_owned_string("Missing X-Amz-Target header for JSON request"));
            },
        };
        if !crate::text::starts_with(t, "AmazonSQS.") {
            let mut m = to_owned_string("Invalid X-Amz-Target format: ");
            push_str(&mut m, t);
            return Err(m);
        }
        proof {
            reveal_strlit("AmazonSQS.");
        }
        let chars = chars_of(t);
        let name = string_of_range(&chars, 10, chars.len());
        assert(name@ =~= t@.skip(10));
        let action = match SqsAction::from_name(name.as_str()) {
            Ok(a) => a,
            Err(e) => {
                let mut m = to_owned_string("Unknown action: ");
                push_str(&mut m, e.as_str());
                assert(m@ =~= "Unknown action: "@ + "Unknown SQS action: "@ + t@.skip(10));
                return Err(m);
            },
        };
        let v = match body {
            Ok(v) => v,
            Err(e) => {
                let mut m = to_owned_string("Failed to parse JSON body: ");
                push_str(&mut m, e.as_str());
                return Err(m);
            },
        };
        let mut params: Dict<String> = Dict::new();
        match &v {
            JsonValue::Object(members) => {
                let mut i: usize = 0;
                while i < members.len()
                    invariant
                        i <= members.len(),
                        params@ == json_params(members@.take(i as int), attributes_reading),
                    decreases members.len() - i,
                {
                    assert(members@.take(i + 1).drop_last() =~= members@.take(i as int));
                    apply_json_member_exec(&mut params, &members[i].0, &members[i].1, attributes_reading);
                    i = i + 1;
                }
                assert(members@.take(members.len() as int) =~= members@);
            },
            _ => {},
        }
        Ok(SqsRequest { action, params, is_json: true })
    }

    /// Parses a request: a JSON document when the body, past white space,
    /// opens an object, a form-encoded body otherwise. The JSON arguments are
    /// as for `parse_json`.
    pub fn parse_with_headers(
        body: &str,
        target: Option<&str>,
        body_reading: Result<JsonValue, String>,
        attributes_reading: Option<&JsonValue>,
    ) -> (r: Result<SqsRequest, String>)
        ensures
            !opens_object(body@) ==> match r {
                Ok(req) => form_action(form_params(body@)) == Some(req.action) && req.params@ == form_params(body@)
                    && !req.is_json,
                Err(m) => form_action(form_params(body@)) is None && m@ == "Missing or invalid Action parameter"@,
            },
            opens_object(body@) ==> match r {
                Ok(req) => req.is_json && target is Some && crate::text::seq_starts_with(target.unwrap()@, "AmazonSQS."@)
                    && action_name(req.action) == target.unwrap()@.skip(10) && body_reading is Ok
                    && req.params@ == json_body_params(body_reading->Ok_0, attributes_reading),
                Err(_) => target is None || !crate::text::seq_starts_with(target.unwrap()@, "AmazonSQS."@)
                    || !is_action_name(target.unwrap()@.skip(10)) || body_reading is Err,
            },
    {
        if text_opens_object(body) {
            Self::parse_json(target, body_reading, attributes_reading)
        } else {
            Self::parse(body)
        }
    }
}

} // verus!
