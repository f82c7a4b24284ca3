//! SQS XML response generation.

use vstd::prelude::*;
use crate::sqs::types::{error_code_name, SqsErrorCode};
use crate::sqs::xml::{escape_xml, xml_escaped};
use crate::text::push_str;
use crate::types::{new_uuid_string, uuid_v4_text};

verus! {

/// Appends the XML-escaped form of `s`.
pub fn push_escaped(out: &mut String, s: &str)
    ensures
        final(out)@ == old(out)@ + xml_escaped(s@),
{
    let e = escape_xml(s);
    push_str(out, e.as_str());
}

pub open spec fn bool_text(b: bool) -> Seq<char> {
    if b {
        "true"@
    } else {
        "false"@
    }
}

/// `true` or `false`, as `bool`'s `Display` writes it.
pub fn bool_to_str(b: bool) -> (s: &'static str)
    ensures
        s@ == bool_text(b),
{
    if b {
        "true"
    } else {
        "false"
    }
}

pub open spec fn xml_header() -> Seq<char> {
    "<?xml version=\"1.0\"?>"@ + "\n"@
}

pub open spec fn namespace_attr() -> Seq<char> {
    " xmlns=\"http://queue.amazonaws.com/doc/2012-11-05/\">"@
}

/// The metadata block that closes every response.
pub open spec fn metadata_xml(request_id: Seq<char>) -> Seq<char> {
    "  <ResponseMetadata>\n"@ + "    <RequestId>"@ + request_id + "</RequestId>\n"@
        + "  </ResponseMetadata>\n"@
}

/// One simple element of a result: `<name>escaped value</name>`.
pub open spec fn element_xml(e: (Seq<char>, Seq<char>)) -> Seq<char> {
    "    <"@ + e.0 + ">"@ + xml_escaped(e.1) + "</"@ + e.0 + ">\n"@
}

pub open spec fn elements_xml(es: Seq<(Seq<char>, Seq<char>)>) -> Seq<char>
    decreases es.len(),
{
    if es.len() == 0 {
        Seq::empty()
    } else {
        elements_xml(es.drop_last()) + element_xml(es.last())
    }
}

/// A response whose result is a list of simple elements.
pub open spec fn response_xml(
    action: Seq<char>,
    request_id: Seq<char>,
    elements: Seq<(Seq<char>, Seq<char>)>,
) -> Seq<char> {
    xml_header() + "<"@ + action + "Response"@ + namespace_attr() + "\n"@ + "  <"@ + action
        + "Result>\n"@ + elements_xml(elements) + "  </"@ + action + "Result>\n"@ + metadata_xml(
        request_id,
    ) + "</"@ + action + "Response>"@
}

/// XML response builder for SQS.
pub struct XmlResponseBuilder {
    action: String,
    request_id: String,
    elements: Vec<(String, String)>,
}

impl XmlResponseBuilder {
    pub closed spec fn action(&self) -> Seq<char> {
        self.action@
    }

    pub closed spec fn request_id(&self) -> Seq<char> {
        self.request_id@
    }

    pub closed spec fn elements(&self) -> Seq<(Seq<char>, Seq<char>)> {
        self.elements@.map_values(|e: (String, String)| (e.0@, e.1@))
    }

    /// A builder for `action` whose request ID is `request_id`.
    pub fn with_request_id(action: &str, request_id: String) -> (b: Self)
        ensures
            b.action() == action@,
            b.request_id() == request_id@,
            b.elements() == Seq::<(Seq<char>, Seq<char>)>::empty(),
    {
        let b = XmlResponseBuilder {
            action: crate::text::to_owned_string(action),
            request_id,
            elements: Vec::new(),
        };
        assert(b.elements() =~= Seq::<(Seq<char>, Seq<char>)>::empty());
        b
    }

    /// A builder for `action` with a new random request ID.
    pub fn new(action: &str) -> (b: Self)
        ensures
            b.action() == action@,
            uuid_v4_text(b.request_id()),
            b.elements() == Seq::<(Seq<char>, Seq<char>)>::empty(),
    {
        Self::with_request_id(action, new_uuid_string())
    }

    /// Adds an element to the response.
    pub fn add_element(self, name: &str, value: &str) -> (b: Self)
        ensures
            b.action() == self.action(),
            b.request_id() == self.request_id(),
            b.elements() == self.elements().push((name@, value@)),
    {
        let mut s = self;
        let ghost old_el = s.elements();
        s.elements.push((crate::text::to_owned_string(name), crate::text::to_owned_string(value)));
        assert(s.elements() =~= old_el.push((name@, value@)));
        s
    }

    /// Builds the XML response.
    pub fn build(self) -> (xml: String)
        ensures
            xml@ == response_xml(self.action(), self.request_id(), self.elements()),
    {
        let a = self.action.as_str();
        let mut xml = String::new();
        push_str(&mut xml, "<?xml version=\"1.0\"?>");
        push_str(&mut xml, "\n");
        push_str(&mut xml, "<");
        push_str(&mut xml, a);
        push_str(&mut xml, "Response");
        push_str(&mut xml, " xmlns=\"http://queue.amazonaws.com/doc/2012-11-05/\">");
        push_str(&mut xml, "\n");
        push_str(&mut xml, "  <");
        push_str(&mut xml, a);
        push_str(&mut xml, "Result>\n");
        let ghost prefix = xml@;
        let mut i: usize = 0;
        while i < self.elements.len()
            invariant
                i <= self.elements.len(),
                self.elements().len() == self.elements.len(),
                xml@ == prefix + elements_xml(self.elements().take(i as int)),
            decreases self.elements.len() - i,
        {
            let name = self.elements[i].0.as_str();
            let value = self.elements[i].1.as_str();
            let ghost before = xml@;
            push_str(&mut xml, "    <");
            push_str(&mut xml, name);
            push_str(&mut xml, ">");
            push_escaped(&mut xml, value);
            push_str(&mut xml, "</");
            push_str(&mut xml, name);
            push_str(&mut xml, ">\n");
            proof {
                let t = self.elements().take((i + 1) as int);
                assert(t.drop_last() =~= self.elements().take(i as int));
                assert(t.last() == (name@, value@));
                assert(xml@ =~= before + element_xml((name@, value@)));
            }
            i = i + 1;
        }
        assert(self.elements().take(self.elements.len() as int) =~= self.elements());
        push_str(&mut xml, "  </");
        push_str(&mut xml, a);
        push_str(&mut xml, "Result>\n");
        push_str(&mut xml, "  <ResponseMetadata>\n");
        push_str(&mut xml, "    <RequestId>");
        push_str(&mut xml, self.request_id.as_str());
        push_str(&mut xml, "</RequestId>\n");
        push_str(&mut xml, "  </ResponseMetadata>\n");
        push_str(&mut xml, "</");
        push_str(&mut xml, a);
        push_str(&mut xml, "Response>");
        assert(xml@ =~= response_xml(self.action(), self.request_id(), self.elements()));
        xml
    }
}

/// The text of an error response.
pub open spec fn error_xml(code: SqsErrorCode, message: Seq<char>, request_id: Seq<char>) -> Seq<char> {
    xml_header() + "<ErrorResponse"@ + namespace_attr() + "\n"@ + "  <Error>\n"@
        + "    <Type>Sender</Type>\n"@ + "    <Code>"@ + error_code_name(code) + "</Code>\n"@
        + "    <Message>"@ + xml_escaped(message) + "</Message>\n"@ + "  </Error>\n"@
        + "  <RequestId>"@ + request_id + "</RequestId>\n"@ + "</ErrorResponse>"@
}

/// An error response with the given request ID.
pub fn build_error_response_with_id(code: SqsErrorCode, message: &str, request_id: &str) -> (xml:
    String)
    ensures
        xml@ == error_xml(code, message@, request_id@),
{
    let mut xml = String::new();
    push_str(&mut xml, "<?xml version=\"1.0\"?>");
    push_str(&mut xml, "\n");
    push_str(&mut xml, "<ErrorResponse");
    push_str(&mut xml, " xmlns=\"http://queue.amazonaws.com/doc/2012-11-05/\">");
    push_str(&mut xml, "\n");
    push_str(&mut xml, "  <Error>\n");
    push_str(&mut xml, "    <Type>Sender</Type>\n");
    push_str(&mut xml, "    <Code>");
    push_str(&mut xml, code.as_str());
    push_str(&mut xml, "</Code>\n");
    push_str(&mut xml, "    <Message>");
    push_escaped(&mut xml, message);
    push_str(&mut xml, "</Message>\n");
    push_str(&mut xml, "  </Error>\n");
    push_str(&mut xml, "  <RequestId>");
    push_str(&mut xml, request_id);
    push_str(&mut xml, "</RequestId>\n");
    push_str(&mut xml, "</ErrorResponse>");
    assert(xml@ =~= error_xml(code, message@, request_id@));
    xml
}

/// Builds an error response with a new random request ID.
pub fn build_error_response(code: SqsErrorCode, message: &str) -> (xml: String)
    ensures
        exists|rid: Seq<char>| uuid_v4_text(rid) && xml@ == error_xml(code, message@, rid),
{
    let rid = new_uuid_string();
    build_error_response_with_id(code, message, rid.as_str())
}

pub open spec fn send_message_elements(
    message_id: Seq<char>,
    md5_of_body: Seq<char>,
    md5_of_attrs: Option<Seq<char>>,
) -> Seq<(Seq<char>, Seq<char>)> {
    let base = seq![("MessageId"@, message_id), ("MD5OfMessageBody"@, md5_of_body)];
    match md5_of_attrs {
        Some(m) => base.push(("MD5OfMessageAttributes"@, m)),
        None => base,
    }
}

/// Builds a SendMessage response.
pub fn build_send_message_response(
    message_id: &str,
    md5_of_body: &str,
    md5_of_attrs: Option<&str>,
) -> (xml: String)
    ensures
        exists|rid: Seq<char>|
            uuid_v4_text(rid) && xml@ == response_xml(
                "SendMessage"@,
                rid,
                send_message_elements(
                    message_id@,
                    md5_of_body@,
                    match md5_of_attrs {
                        Some(m) => Some(m@),
                        None => None,
                    },
                ),
            ),
{
    let builder = XmlResponseBuilder::new("SendMessage").add_element("MessageId", message_id).add_element(
        "MD5OfMessageBody",
        md5_of_body,
    );
    let ghost rid = builder.request_id();
    assert(builder.elements() =~= seq![("MessageId"@, message_id@), ("MD5OfMessageBody"@, md5_of_body@)]);
    let xml = match md5_of_attrs {
        Some(md5) => builder.add_element("MD5OfMessageAttributes", md5).build(),
        None => builder.build(),
    };
    proof {
        let m = match md5_of_attrs {
            Some(m) => Some(m@),
            None => None,
        };
        assert(xml@ == response_xml("SendMessage"@, rid, send_message_elements(message_id@, md5_of_body@, m)));
    }
    xml
}

/// A response with one element for `action`.
fn single_element_response(action: &str, name: &str, value: &str) -> (xml: String)
    ensures
        exists|rid: Seq<char>|
            uuid_v4_text(rid) && xml@ == response_xml(action@, rid, seq![(name@, value@)]),
{
    let b = XmlResponseBuilder::new(action).add_element(name, value);
    let ghost rid = b.request_id();
    let xml = b.build();
    assert(Seq::<(Seq<char>, Seq<char>)>::empty().push((name@, value@)) =~= seq![(name@, value@)]);
    xml
}

/// A response with an empty result for `action`.
fn empty_response(action: &str) -> (xml: String)
    ensures
        exists|rid: Seq<char>|
            uuid_v4_text(rid) && xml@ == response_xml(action@, rid, Seq::<(Seq<char>, Seq<char>)>::empty()),
{
    XmlResponseBuilder::new(action).build()
}

/// Builds a CreateQueue response.
pub fn build_create_queue_response(queue_url: &str) -> (xml: String)
    ensures
        exists|rid: Seq<char>|
            uuid_v4_text(rid) && xml@ == response_xml("CreateQueue"@, rid, seq![("QueueUrl"@, queue_url@)]),
{
    single_element_response("CreateQueue", "QueueUrl", queue_url)
}

/// Builds a GetQueueUrl response.
pub fn build_get_queue_url_response(queue_url: &str) -> (xml: String)
    ensures
        exists|rid: Seq<char>|
            uuid_v4_text(rid) && xml@ == response_xml("GetQueueUrl"@, rid, seq![("QueueUrl"@, queue_url@)]),
{
    single_element_response("GetQueueUrl", "QueueUrl", queue_url)
}

/// Builds a DeleteMessage response (empty result).
pub fn build_delete_message_response() -> (xml: String)
    ensures
        exists|rid: Seq<char>|
            uuid_v4_text(rid) && xml@ == response_xml("DeleteMessage"@, rid, Seq::<(Seq<char>, Seq<char>)>::empty()),
{
    empty_response("DeleteMessage")
}

/// Builds a TagQueue response (empty result).
pub fn build_tag_queue_response() -> (xml: String)
    ensures
        exists|rid: Seq<char>|
            uuid_v4_text(rid) && xml@ == response_xml("TagQueue"@, rid, Seq::<(Seq<char>, Seq<char>)>::empty()),
{
    empty_response("TagQueue")
}

/// Builds an UntagQueue response (empty result).
pub fn build_untag_queue_response() -> (xml: String)
    ensures
        exists|rid: Seq<char>|
            uuid_v4_text(rid) && xml@ == response_xml("UntagQueue"@, rid, Seq::<(Seq<char>, Seq<char>)>::empty()),
{
    empty_response("UntagQueue")
}

/// Builds a ChangeMessageVisibility response (empty result).
pub fn build_change_message_visibility_response() -> (xml: String)
    ensures
        exists|rid: Seq<char>|
            uuid_v4_text(rid) && xml@ == response_xml(
                "ChangeMessageVisibility"@,
                rid,
                Seq::<(Seq<char>, Seq<char>)>::empty(),
            ),
{
    empty_response("ChangeMessageVisibility")
}

/// Batch result entry for SendMessageBatch.
pub struct BatchResultEntry {
    /// Entry ID.
    pub id: String,
    /// Message ID.
    pub message_id: String,
    /// MD5 of message body.
    pub md5_of_body: String,
    /// MD5 of message attributes (optional).
    pub md5_of_attrs: Option<String>,
}

/// Batch error entry for the batch actions.
pub struct BatchErrorEntry {
    /// Entry ID.
    pub id: String,
    /// Error code.
    pub code: String,
    /// Error message.
    pub message: String,
    /// Sender fault flag.
    pub sender_fault: bool,
}

pub open spec fn result_entry_xml(e: BatchResultEntry) -> Seq<char> {
    "    <SendMessageBatchResultEntry>\n"@ + "      <Id>"@ + xml_escaped(e.id@) + "</Id>\n"@
        + "      <MessageId>"@ + xml_escaped(e.message_id@) + "</MessageId>\n"@
        + "      <MD5OfMessageBody>"@ + xml_escaped(e.md5_of_body@) + "</MD5OfMessageBody>\n"@
        + (match e.md5_of_attrs {
        Some(a) => "      <MD5OfMessageAttributes>"@ + xml_escaped(a@) + "</MD5OfMessageAttributes>\n"@,
        None => Seq::empty(),
    }) + "    </SendMessageBatchResultEntry>\n"@
}

pub open spec fn result_entries_xml(es: Seq<BatchResultEntry>) -> Seq<char>
    decreases es.len(),
{
    if es.len() == 0 {
        Seq::empty()
    } else {
        result_entries_xml(es.drop_last()) + result_entry_xml(es.last())
    }
}

pub open spec fn error_entry_xml(e: BatchErrorEntry) -> Seq<char> {
    "    <BatchResultErrorEntry>\n"@ + "      <Id>"@ + xml_escaped(e.id@) + "</Id>\n"@ + "      <Code>"@
        + xml_escaped(e.code@) + "</Code>\n"@ + "      <Message>"@ + xml_escaped(e.message@)
        + "</Message>\n"@ + "      <SenderFault>"@ + bool_text(e.sender_fault) + "</SenderFault>\n"@
        + "    </BatchResultErrorEntry>\n"@
}

pub open spec fn error_entries_xml(es: Seq<BatchErrorEntry>) -> Seq<char>
    decreases es.len(),
{
    if es.len() == 0 {
        Seq::empty()
    } else {
        error_entries_xml(es.drop_last()) + error_entry_xml(es.last())
    }
}

pub open spec fn id_entry_xml(tag: Seq<char>, id: String) -> Seq<char> {
    "    <"@ + tag + ">\n"@ + "      <Id>"@ + xml_escaped(id@) + "</Id>\n"@ + "    </"@ + tag + ">\n"@
}

pub open spec fn id_entries_xml(tag: Seq<char>, ids: Seq<String>) -> Seq<char>
    decreases ids.len(),
{
    if ids.len() == 0 {
        Seq::empty()
    } else {
        id_entries_xml(tag, ids.drop_last()) + id_entry_xml(tag, ids.last())
    }
}

/// A batch response: header, the result entries, the error entries, footer.
pub open spec fn batch_xml(action: Seq<char>, entries: Seq<char>, errors: Seq<BatchErrorEntry>, request_id: Seq<char>) -> Seq<char> {
    xml_header() + "<"@ + action + "Response"@ + namespace_attr() + "\n"@ + "  <"@ + action + "Result>\n"@
        + entries + error_entries_xml(errors) + "  </"@ + action + "Result>\n"@ + metadata_xml(request_id)
        + "</"@ + action + "Response>"@
}

fn push_error_entries(xml: &mut String, failed: &[BatchErrorEntry])
    ensures
        final(xml)@ == old(xml)@ + error_entries_xml(failed@),
{
    let mut i: usize = 0;
    let ghost start = xml@;
    while i < failed.len()
        invariant
            i <= failed.len(),
            xml@ == start + error_entries_xml(failed@.take(i as int)),
        decreases failed.len() - i,
    {
        let e = &failed[i];
        let ghost before = xml@;
        push_str(xml, "    <BatchResultErrorEntry>\n");
        push_str(xml, "      <Id>");
        push_escaped(xml, e.id.as_str());
        push_str(xml, "</Id>\n");
        push_str(xml, "      <Code>");
        push_escaped(xml, e.code.as_str());
        push_str(xml, "</Code>\n");
        push_str(xml, "      <Message>");
        push_escaped(xml, e.message.as_str());
        push_str(xml, "</Message>\n");
        push_str(xml, "      <SenderFault>");
        push_str(xml, bool_to_str(e.sender_fault));
        push_str(xml, "</SenderFault>\n");
        push_str(xml, "    </BatchResultErrorEntry>\n");
        proof {
            let t = failed@.take((i + 1) as int);
            assert(t.drop_last() =~= failed@.take(i as int));
            assert(xml@ =~= before + error_entry_xml(*e));
        }
        i = i + 1;
    }
    assert(failed@.take(failed.len() as int) =~= failed@);
}

fn push_id_entries(xml: &mut String, tag: &str, ids: &[String])
    ensures
        final(xml)@ == old(xml)@ + id_entries_xml(tag@, ids@),
{
    let mut i: usize = 0;
    let ghost start = xml@;
    while i < ids.len()
        invariant
            i <= ids.len(),
            xml@ == start + id_entries_xml(tag@, ids@.take(i as int)),
        decreases ids.len() - i,
    {
        let ghost before = xml@;
        push_str(xml, "    <");
        push_str(xml, tag);
        push_str(xml, ">\n");
        push_str(xml, "      <Id>");
        push_escaped(xml, ids[i].as_str());
        push_str(xml, "</Id>\n");
        push_str(xml, "    </");
        push_str(xml, tag);
        push_str(xml, ">\n");
        proof {
            let t = ids@.take((i + 1) as int);
            assert(t.drop_last() =~= ids@.take(i as int));
            assert(xml@ =~= before + id_entry_xml(tag@, ids@[i as int]));
        }
        i = i + 1;
    }
    assert(ids@.take(ids.len() as int) =~= ids@);
}

fn push_batch_head(xml: &mut String, action: &str)
    ensures
        final(xml)@ == old(xml)@ + xml_header() + "<"@ + action@ + "Response"@ + namespace_attr() + "\n"@ + "  <"@
            + action@ + "Result>\n"@,
{
    let ghost o = xml@;
    push_str(xml, "<?xml version=\"1.0\"?>");
    push_str(xml, "\n");
    push_str(xml, "<");
    push_str(xml, action);
    push_str(xml, "Response");
    push_str(xml, " xmlns=\"http://queue.amazonaws.com/doc/2012-11-05/\">");
    push_str(xml, "\n");
    push_str(xml, "  <");
    push_str(xml, action);
    push_str(xml, "Result>\n");
    assert(xml@ =~= o + xml_header() + "<"@ + action@ + "Response"@ + namespace_attr() + "\n"@ + "  <"@ + action@
        + "Result>\n"@);
}

fn push_batch_tail(xml: &mut String, action: &str, request_id: &str)
    ensures
        final(xml)@ == old(xml)@ + "  </"@ + action@ + "Result>\n"@ + metadata_xml(request_id@) + "</"@ + action@
            + "Response>"@,
{
    let ghost o = xml@;
    push_str(xml, "  </");
    push_str(xml, action);
    push_str(xml, "Result>\n");
    push_str(xml, "  <ResponseMetadata>\n");
    push_str(xml, "    <RequestId>");
    push_str(xml, request_id);
    push_str(xml, "</RequestId>\n");
    push_str(xml, "  </ResponseMetadata>\n");
    push_str(xml, "</");
    push_str(xml, action);
    push_str(xml, "Response>");
    assert(xml@ =~= o + "  </"@ + action@ + "Result>\n"@ + metadata_xml(request_id@) + "</"@ + action@
        + "Response>"@);
}

/// Renders a SendMessageBatch response with the given request ID.
pub fn render_send_message_batch_response(
    successful: &[BatchResultEntry],
    failed: &[BatchErrorEntry],
    request_id: &str,
) -> (xml: String)
    ensures
        xml@ == batch_xml("SendMessageBatch"@, result_entries_xml(successful@), failed@, request_id@),
{
    let mut xml = String::new();
    push_batch_head(&mut xml, "SendMessageBatch");
    let ghost head = xml@;
    let mut i: usize = 0;
    while i < successful.len()
        invariant
            i <= successful.len(),
            xml@ == head + result_entries_xml(successful@.take(i as int)),
        decreases successful.len() - i,
    {
        let e = &successful[i];
        let ghost before = xml@;
        push_str(&mut xml, "    <SendMessageBatchResultEntry>\n");
        push_str(&mut xml, "      <Id>");
        push_escaped(&mut xml, e.id.as_str());
        push_str(&mut xml, "</Id>\n");
        push_str(&mut xml, "      <MessageId>");
        push_escaped(&mut xml, e.message_id.as_str());
        push_str(&mut xml, "</MessageId>\n");
        push_str(&mut xml, "      <MD5OfMessageBody>");
        push_escaped(&mut xml, e.md5_of_body.as_str());
        push_str(&mut xml, "</MD5OfMessageBody>\n");
        let ghost mid = xml@;
        if let Some(md5_attrs) = &e.md5_of_attrs {
            push_str(&mut xml, "      <MD5OfMessageAttributes>");
            push_escaped(&mut xml, md5_attrs.as_str());
            push_str(&mut xml, "</MD5OfMessageAttributes>\n");
        }
        push_str(&mut xml, "    </SendMessageBatchResultEntry>\n");
        proof {
            let t = successful@.take((i + 1) as int);
            assert(t.drop_last() =~= successful@.take(i as int));
            assert(xml@ =~= before + result_entry_xml(*e));
        }
        i = i + 1;
    }
    assert(successful@.take(successful.len() as int) =~= successful@);
    push_error_entries(&mut xml, failed);
    push_batch_tail(&mut xml, "SendMessageBatch", request_id);
    assert(xml@ =~= batch_xml("SendMessageBatch"@, result_entries_xml(successful@), failed@, request_id@));
    xml
}

/// Builds a SendMessageBatch response with a new random request ID.
pub fn build_send_message_batch_response(successful: &[BatchResultEntry], failed: &[BatchErrorEntry]) -> (xml: String)
    ensures
        exists|rid: Seq<char>|
            uuid_v4_text(rid) && xml@ == batch_xml(
                "SendMessageBatch"@,
                result_entries_xml(successful@),
                failed@,
                rid,
            ),
{
    let rid = new_uuid_string();
    render_send_message_batch_response(successful, failed, rid.as_str())
}

/// Renders a batch response whose result entries carry only an ID, with the
/// given request ID.
pub fn render_id_batch_response(
    action: &str,
    entry_tag: &str,
    successful: &[String],
    failed: &[BatchErrorEntry],
    request_id: &str,
) -> (xml: String)
    ensures
        xml@ == batch_xml(action@, id_entries_xml(entry_tag@, successful@), failed@, request_id@),
{
    let mut xml = String::new();
    push_batch_head(&mut xml, action);
    push_id_entries(&mut xml, entry_tag, successful);
    push_error_entries(&mut xml, failed);
    push_batch_tail(&mut xml, action, request_id);
    assert(xml@ =~= batch_xml(action@, id_entries_xml(entry_tag@, successful@), failed@, request_id@));
    xml
}

/// Builds a DeleteMessageBatch response with a new random request ID.
pub fn build_delete_message_batch_response(successful: &[String], failed: &[BatchErrorEntry]) -> (xml: String)
    ensures
        exists|rid: Seq<char>|
            uuid_v4_text(rid) && xml@ == batch_xml(
                "DeleteMessageBatch"@,
                id_entries_xml("DeleteMessageBatchResultEntry"@, successful@),
                failed@,
                rid,
            ),
{
    let rid = new_uuid_string();
    render_id_batch_response("DeleteMessageBatch", "DeleteMessageBatchResultEntry", successful, failed, rid.as_str())
}

/// Builds a ChangeMessageVisibilityBatch response with a new random request ID.
pub fn build_change_visibility_batch_response(successful: &[String], failed: &[BatchErrorEntry]) -> (xml: String)
    ensures
        exists|rid: Seq<char>|
            uuid_v4_text(rid) && xml@ == batch_xml(
                "ChangeMessageVisibilityBatch"@,
                id_entries_xml("ChangeMessageVisibilityBatchResultEntry"@, successful@),
                failed@,
                rid,
            ),
{
    let rid = new_uuid_string();
    render_id_batch_response(
        "ChangeMessageVisibilityBatch",
        "ChangeMessageVisibilityBatchResultEntry",
        successful,
        failed,
        rid.as_str(),
    )
}

pub open spec fn queue_url_entry_xml(url: String) -> Seq<char> {
    "    <QueueUrl>"@ + xml_escaped(url@) + "</QueueUrl>\n"@
}

pub open spec fn queue_urls_xml(urls: Seq<String>) -> Seq<char>
    decreases urls.len(),
{
    if urls.len() == 0 {
        Seq::empty()
    } else {
        queue_urls_xml(urls.drop_last()) + queue_url_entry_xml(urls.last())
    }
}

/// Renders a ListQueues response with the given request ID.
pub fn render_list_queues_response(queue_urls: &[String], request_id: &str) -> (xml: String)
    ensures
        xml@ == batch_xml("ListQueues"@, queue_urls_xml(queue_urls@), Seq::empty(), request_id@),
{
    let mut xml = String::new();
    push_batch_head(&mut xml, "ListQueues");
    let ghost head = xml@;
    let mut i: usize = 0;
    while i < queue_urls.len()
        invariant
            i <= queue_urls.len(),
            xml@ == head + queue_urls_xml(queue_urls@.take(i as int)),
        decreases queue_urls.len() - i,
    {
        let ghost before = xml@;
        push_str(&mut xml, "    <QueueUrl>");
        push_escaped(&mut xml, queue_urls[i].as_str());
        push_str(&mut xml, "</QueueUrl>\n");
        proof {
            let t = queue_urls@.take((i + 1) as int);
            assert(t.drop_last() =~= queue_urls@.take(i as int));
            assert(xml@ =~= before + queue_url_entry_xml(queue_urls@[i as int]));
        }
        i = i + 1;
    }
    assert(queue_urls@.take(queue_urls.len() as int) =~= queue_urls@);
    push_batch_tail(&mut xml, "ListQueues", request_id);
    assert(error_entries_xml(Seq::<BatchErrorEntry>::empty()) == Seq::<char>::empty());
    assert(xml@ =~= batch_xml("ListQueues"@, queue_urls_xml(queue_urls@), Seq::empty(), request_id@));
    xml
}

/// Builds a ListQueues response with a new random request ID.
pub fn build_list_queues_response(queue_urls: &[String]) -> (xml: String)
    ensures
        exists|rid: Seq<char>|
            uuid_v4_text(rid) && xml@ == batch_xml("ListQueues"@, queue_urls_xml(queue_urls@), Seq::empty(), rid),
{
    let rid = new_uuid_string();
    render_list_queues_response(queue_urls, rid.as_str())
}

pub open spec fn attribute_entry_xml(a: (String, String)) -> Seq<char> {
    "    <Attribute>\n"@ + "      <Name>"@ + xml_escaped(a.0@) + "</Name>\n"@ + "      <Value>"@
        + xml_escaped(a.1@) + "</Value>\n"@ + "    </Attribute>\n"@
}

pub open spec fn attribute_entries_xml(s: Seq<(String, String)>) -> Seq<char>
    decreases s.len(),
{
    if s.len() == 0 {
        Seq::empty()
    } else {
        attribute_entries_xml(s.drop_last()) + attribute_entry_xml(s.last())
    }
}

/// Renders a GetQueueAttributes response with the given request ID.
pub fn render_get_queue_attributes_response(attributes: &[(String, String)], request_id: &str) -> (xml: String)
    ensures
        xml@ == batch_xml("GetQueueAttributes"@, attribute_entries_xml(attributes@), Seq::empty(), request_id@),
{
    let mut xml = String::new();
    push_batch_head(&mut xml, "GetQueueAttributes");
    let ghost head = xml@;
    let mut i: usize = 0;
    while i < attributes.len()
        invariant
            i <= attributes.len(),
            xml@ == head + attribute_entries_xml(attributes@.take(i as int)),
        decreases attributes.len() - i,
    {
        let ghost before = xml@;
        push_str(&mut xml, "    <Attribute>\n");
        push_str(&mut xml, "      <Name>");
        push_escaped(&mut xml, attributes[i].0.as_str());
        push_str(&mut xml, "</Name>\n");
        push_str(&mut xml, "      <Value>");
        push_escaped(&mut xml, attributes[i].1.as_str());
        push_str(&mut xml, "</Value>\n");
        push_str(&mut xml, "    </Attribute>\n");
        proof {
            let t = attributes@.take((i + 1) as int);
            assert(t.drop_last() =~= attributes@.take(i as int));
            assert(xml@ =~= before + attribute_entry_xml(attributes@[i as int]));
        }
        i = i + 1;
    }
    assert(attributes@.take(attributes.len() as int) =~= attributes@);
    push_batch_tail(&mut xml, "GetQueueAttributes", request_id);
    assert(error_entries_xml(Seq::<BatchErrorEntry>::empty()) == Seq::<char>::empty());
    assert(xml@ =~= batch_xml("GetQueueAttributes"@, attribute_entries_xml(attributes@), Seq::empty(), request_id@));
    xml
}

/// Builds a GetQueueAttributes response with a new random request ID.
pub fn build_get_queue_attributes_response(attributes: &[(String, String)]) -> (xml: String)
    ensures
        exists|rid: Seq<char>|
            uuid_v4_text(rid) && xml@ == batch_xml(
                "GetQueueAttributes"@,
                attribute_entries_xml(attributes@),
                Seq::empty(),
                rid,
            ),
{
    let rid = new_uuid_string();
    render_get_queue_attributes_response(attributes, rid.as_str())
}

/// Information about a received message for the XML response.
pub struct ReceivedMessageInfo {
    /// Message ID.
    pub message_id: String,
    /// Receipt handle.
    pub receipt_handle: String,
    /// MD5 of body.
    pub md5_of_body: String,
    /// Message body.
    pub body: String,
    /// System attributes.
    pub attributes: Vec<(String, String)>,
    /// Message attributes.
    pub message_attributes: Vec<(String, MessageAttributeInfo)>,
}

/// Message attribute information for the XML response.
pub struct MessageAttributeInfo {
    /// Data type.
    pub data_type: String,
    /// String value.
    pub string_value: Option<String>,
}

pub open spec fn system_attribute_xml(a: (String, String)) -> Seq<char> {
    "      <Attribute>\n"@ + "        <Name>"@ + a.0@ + "</Name>\n"@ + "        <Value>"@ + xml_escaped(a.1@)
        + "</Value>\n"@ + "      </Attribute>\n"@
}

pub open spec fn system_attributes_xml(s: Seq<(String, String)>) -> Seq<char>
    decreases s.len(),
{
    if s.len() == 0 {
        Seq::empty()
    } else {
        system_attributes_xml(s.drop_last()) + system_attribute_xml(s.last())
    }
}

pub open spec fn message_attribute_xml(a: (String, MessageAttributeInfo)) -> Seq<char> {
    "      <MessageAttribute>\n"@ + "        <Name>"@ + a.0@ + "</Name>\n"@ + "        <Value>\n"@
        + "          <DataType>"@ + a.1.data_type@ + "</DataType>\n"@ + (match a.1.string_value {
        Some(v) => "          <StringValue>"@ + xml_escaped(v@) + "</StringValue>\n"@,
        None => Seq::empty(),
    }) + "        </Value>\n"@ + "      </MessageAttribute>\n"@
}

pub open spec fn message_attributes_xml(s: Seq<(String, MessageAttributeInfo)>) -> Seq<char>
    decreases s.len(),
{
    if s.len() == 0 {
        Seq::empty()
    } else {
        message_attributes_xml(s.drop_last()) + message_attribute_xml(s.last())
    }
}

pub open spec fn received_message_xml(m: ReceivedMessageInfo) -> Seq<char> {
    "    <Message>\n"@ + "      <MessageId>"@ + xml_escaped(m.message_id@) + "</MessageId>\n"@ + "      <ReceiptHandle>"@
        + xml_escaped(m.receipt_handle@) + "</ReceiptHandle>\n"@ + "      <MD5OfBody>"@ + xml_escaped(m.md5_of_body@)
        + "</MD5OfBody>\n"@
        + "      <Body>"@ + xml_escaped(m.body@) + "</Body>\n"@ + system_attributes_xml(m.attributes@)
        + message_attributes_xml(m.message_attributes@) + "    </Message>\n"@
}

pub open spec fn received_messages_xml(s: Seq<ReceivedMessageInfo>) -> Seq<char>
    decreases s.len(),
{
    if s.len() == 0 {
        Seq::empty()
    } else {
        received_messages_xml(s.drop_last()) + received_message_xml(s.last())
    }
}


fn push_message_attribute(xml: &mut String, a: &(String, MessageAttributeInfo))
    ensures
        final(xml)@ == old(xml)@ + message_attribute_xml(*a),
{
    let ghost before = xml@;
    push_str(xml, "      <MessageAttribute>\n");
    push_str(xml, "        <Name>");
    push_str(xml, a.0.as_str());
    push_str(xml, "</Name>\n");
    push_str(xml, "        <Value>\n");
    push_str(xml, "          <DataType>");
    push_str(xml, a.1.data_type.as_str());
    push_str(xml, "</DataType>\n");
    if let Some(sv) = &a.1.string_value {
        push_str(xml, "          <StringValue>");
        push_escaped(xml, sv.as_str());
        push_str(xml, "</StringValue>\n");
    }
    push_str(xml, "        </Value>\n");
    push_str(xml, "      </MessageAttribute>\n");
    assert(xml@ =~= before + message_attribute_xml(*a));
}

fn push_system_attributes(xml: &mut String, attributes: &Vec<(String, String)>)
    ensures
        final(xml)@ == old(xml)@ + system_attributes_xml(attributes@),
{
    let ghost a0 = xml@;
    let mut i: usize = 0;
    while i < attributes.len()
        invariant
            i <= attributes.len(),
            xml@ == a0 + system_attributes_xml(attributes@.take(i as int)),
        decreases attributes.len() - i,
    {
        let ghost before = xml@;
        push_str(xml, "      <Attribute>\n");
        push_str(xml, "        <Name>");
        push_str(xml, attributes[i].0.as_str());
        push_str(xml, "</Name>\n");
        push_str(xml, "        <Value>");
        push_escaped(xml, attributes[i].1.as_str());
        push_str(xml, "</Value>\n");
        push_str(xml, "      </Attribute>\n");
        proof {
            let t = attributes@.take((i + 1) as int);
            assert(t.drop_last() =~= attributes@.take(i as int));
            assert(xml@ =~= before + system_attribute_xml(attributes@[i as int]));
        }
        i = i + 1;
    }
    assert(attributes@.take(attributes.len() as int) =~= attributes@);
}

fn push_message_attributes(xml: &mut String, attributes: &Vec<(String, MessageAttributeInfo)>)
    ensures
        final(xml)@ == old(xml)@ + message_attributes_xml(attributes@),
{
    let ghost b0 = xml@;
    let mut j: usize = 0;
    while j < attributes.len()
        invariant
            j <= attributes.len(),
            xml@ == b0 + message_attributes_xml(attributes@.take(j as int)),
        decreases attributes.len() - j,
    {
        let a = &attributes[j];
        push_message_attribute(xml, a);
        proof {
            let t = attributes@.take((j + 1) as int);
            assert(t.drop_last() =~= attributes@.take(j as int));
        }
        j = j + 1;
    }
    assert(attributes@.take(attributes.len() as int) =~= attributes@);
}

fn push_received_message(xml: &mut String, m: &ReceivedMessageInfo)
    ensures
        final(xml)@ == old(xml)@ + received_message_xml(*m),
{
    let ghost o = xml@;
    push_str(xml, "    <Message>\n");
    push_str(xml, "      <MessageId>");
    push_escaped(xml, m.message_id.as_str());
    push_str(xml, "</MessageId>\n");
    push_str(xml, "      <ReceiptHandle>");
    push_escaped(xml, m.receipt_handle.as_str());
    push_str(xml, "</ReceiptHandle>\n");
    push_str(xml, "      <MD5OfBody>");
    push_escaped(xml, m.md5_of_body.as_str());
    push_str(xml, "</MD5OfBody>\n");
    push_str(xml, "      <Body>");
    push_escaped(xml, m.body.as_str());
    push_str(xml, "</Body>\n");
    push_system_attributes(xml, &m.attributes);
    push_message_attributes(xml, &m.message_attributes);
    push_str(xml, "    </Message>\n");
    assert(xml@ =~= o + received_message_xml(*m));
}

/// Renders a ReceiveMessage response with the given request ID.
pub fn render_receive_message_response(messages: &[ReceivedMessageInfo], request_id: &str) -> (xml: String)
    ensures
        xml@ == batch_xml("ReceiveMessage"@, received_messages_xml(messages@), Seq::empty(), request_id@),
{
    let mut xml = String::new();
    push_batch_head(&mut xml, "ReceiveMessage");
    let ghost head = xml@;
    let mut i: usize = 0;
    while i < messages.len()
        invariant
            i <= messages.len(),
            xml@ == head + received_messages_xml(messages@.take(i as int)),
        decreases messages.len() - i,
    {
        push_received_message(&mut xml, &messages[i]);
        proof {
            let t = messages@.take((i + 1) as int);
            assert(t.drop_last() =~= messages@.take(i as int));
        }
        i = i + 1;
    }
    assert(messages@.take(messages.len() as int) =~= messages@);
    push_batch_tail(&mut xml, "ReceiveMessage", request_id);
    assert(error_entries_xml(Seq::<BatchErrorEntry>::empty()) == Seq::<char>::empty());
    assert(xml@ =~= batch_xml("ReceiveMessage"@, received_messages_xml(messages@), Seq::empty(), request_id@));
    xml
}

/// Builds a ReceiveMessage response with a new random request ID.
pub fn build_receive_message_response(messages: &[ReceivedMessageInfo]) -> (xml: String)
    ensures
        exists|rid: Seq<char>|
            uuid_v4_text(rid) && xml@ == batch_xml(
                "ReceiveMessage"@,
                received_messages_xml(messages@),
                Seq::empty(),
                rid,
            ),
{
    let rid = new_uuid_string();
    render_receive_message_response(messages, rid.as_str())
}

} // verus!
