//! Work queue: the envelope around each task, its wire text, and the reading
//! of the store's pop replies.
use vstd::prelude::*;
use crate::cache::content_name;
use crate::error::{IpcError, IpcErrorKind};
use crate::json::{
    escape_text, escaped, last_token, lemma_string_round_trip, read_string, skip_ws, skip_ws_at,
    string_at, trim_end, trim_end_of, value_end, value_end_at,
};
use crate::text::{matches_at, occurs_at};

verus! {

/// Text of a version-4 uuid in its hyphenated form: 36 characters, lowercase
/// hex digits in groups of 8, 4, 4, 4 and 12 joined by `-`, with the version
/// digit `4` at position 14 and one of `8`, `9`, `a`, `b` at position 19.
pub open spec fn is_uuid_v4_text(s: Seq<char>) -> bool {
    &&& s.len() == 36
    &&& forall|i: int|
        0 <= i < 36 ==> if i == 8 || i == 13 || i == 18 || i == 23 {
            s[i] == '-'
        } else {
            ('0' <= #[trigger] s[i] <= '9') || ('a' <= s[i] <= 'f')
        }
    &&& s[14] == '4'
    &&& s[19] == '8' || s[19] == '9' || s[19] == 'a' || s[19] == 'b'
}

/// Relies on `uuid::Uuid::new_v4` and uuid's `Display` for `Uuid`: a random
/// version-4 uuid, whose version and variant bits `new_v4` sets, written in
/// the hyphenated lowercase form.
#[verifier::external_body]
fn new_v4_text() -> (r: String)
    ensures
        is_uuid_v4_text(r@),
{
    uuid::Uuid::new_v4().to_string()
}

/// A task on its way into a queue: its id and content.
#[derive(Debug)]
pub struct WriteQueueMessage<MessageContent> {
    uuid: String,
    content: MessageContent,
}

impl<MessageContent> WriteQueueMessage<MessageContent> {
    /// Id, for contracts.
    pub closed spec fn spec_uuid(&self) -> Seq<char> {
        self.uuid@
    }

    /// Content, for contracts.
    pub closed spec fn spec_content(&self) -> MessageContent {
        self.content
    }

    /// Builds a message from an id and a content.
    pub fn new(uuid: String, content: MessageContent) -> (r: WriteQueueMessage<MessageContent>)
        ensures
            r.spec_uuid() == uuid@,
            r.spec_content() == content,
    {
        WriteQueueMessage { uuid, content }
    }

    /// Builds a message under a fresh random uuid.
    pub fn with_fresh_id(content: MessageContent) -> (r: WriteQueueMessage<MessageContent>)
        ensures
            is_uuid_v4_text(r.spec_uuid()),
            r.spec_uuid().len() > 0,
            r.spec_content() == content,
    {
        let uuid = new_v4_text();
        WriteQueueMessage { uuid, content }
    }

    /// Id of the message.
    pub fn get_uuid(&self) -> (r: &str)
        ensures
            r@ == self.spec_uuid(),
    {
        self.uuid.as_str()
    }

    /// Content of the message.
    pub fn get_content(&self) -> (r: &MessageContent)
        ensures
            *r == self.spec_content(),
    {
        &self.content
    }
}

/// A task taken from a queue: its id and content.
#[derive(Debug)]
pub struct ReadQueueMessage<MessageContent> {
    uuid: String,
    content: MessageContent,
}

impl<MessageContent> ReadQueueMessage<MessageContent> {
    /// Id, for contracts.
    pub closed spec fn spec_uuid(&self) -> Seq<char> {
        self.uuid@
    }

    /// Content, for contracts.
    pub closed spec fn spec_content(&self) -> MessageContent {
        self.content
    }

    /// Builds a message from an id and a content.
    pub fn new(uuid: String, content: MessageContent) -> (r: ReadQueueMessage<MessageContent>)
        ensures
            r.spec_uuid() == uuid@,
            r.spec_content() == content,
    {
        ReadQueueMessage { uuid, content }
    }

    /// Id of the message.
    pub fn get_uuid(&self) -> (r: &str)
        ensures
            r@ == self.spec_uuid(),
    {
        self.uuid.as_str()
    }

    /// Content of the message.
    pub fn get_content(&self) -> (r: &MessageContent)
        ensures
            *r == self.spec_content(),
    {
        &self.content
    }

    /// Splits the message into its id and content.
    pub fn into_parts(self) -> (r: (String, MessageContent))
        ensures
            r.0@ == self.spec_uuid(),
            r.1 == self.spec_content(),
    {
        (self.uuid, self.content)
    }
}

/// `"uuid"`, the key of a queue message's id.
pub open spec fn uuid_key() -> Seq<char> {
    seq!['"', 'u', 'u', 'i', 'd', '"']
}

/// Wire text of a queue message whose content has the JSON text `content`,
/// as serde_json writes it: `{"uuid":"<escaped uuid>","content":<content>}`.
pub open spec fn queue_text(uuid: Seq<char>, content: Seq<char>) -> Seq<char> {
    seq!['{'] + uuid_key() + seq![':', '"'] + escaped(uuid) + seq!['"', ','] + content_name()
        + seq![':'] + content + seq!['}']
}

/// A queue envelope with the id first: `{`, `"uuid"`, `:`, a JSON string,
/// `,`, `"content"`, `:`, and the content up to the last `}`. The id is what
/// the string stands for, its escapes read; the content is all that stands
/// between that `:` and the closing `}`.
pub open spec fn queue_in_order(s: Seq<char>) -> Option<(Seq<char>, Seq<char>)> {
    let a = skip_ws(s, 0);
    let b = skip_ws(s, a + 1);
    let c = skip_ws(s, b + uuid_key().len());
    let d = skip_ws(s, c + 1);
    let z = last_token(s);
    match string_at(s, d as int + 1) {
        Some((id, e)) => {
            let f = skip_ws(s, e as nat);
            let g = skip_ws(s, f + 1);
            let h = skip_ws(s, g + content_name().len());
            if occurs_at(s, a as int, seq!['{']) && occurs_at(s, b as int, uuid_key())
                && occurs_at(s, c as int, seq![':']) && occurs_at(s, d as int, seq!['"'])
                && occurs_at(s, f as int, seq![',']) && occurs_at(s, g as int, content_name())
                && occurs_at(s, h as int, seq![':']) && h < z && s[z] == '}' {
                Some((id, s.subrange(h as int + 1, z)))
            } else {
                None
            }
        },
        None => None,
    }
}

/// A queue envelope with the content first: `{`, `"content"`, `:`, one
/// JSON value, `,`, `"uuid"`, `:`, a JSON string, and `}` last. The content
/// is the text from after that `:` to the end of the value.
pub open spec fn queue_content_first(s: Seq<char>) -> Option<(Seq<char>, Seq<char>)> {
    let a = skip_ws(s, 0);
    let b = skip_ws(s, a + 1);
    let c = skip_ws(s, b + content_name().len());
    let d = skip_ws(s, c + 1);
    let z = last_token(s);
    match value_end(s, d as int) {
        Some(v) => {
            let f = skip_ws(s, v as nat);
            let g = skip_ws(s, f + 1);
            let h = skip_ws(s, g + uuid_key().len());
            let k = skip_ws(s, h + 1);
            match string_at(s, k as int + 1) {
                Some((id, e)) => if occurs_at(s, a as int, seq!['{']) && occurs_at(
                    s,
                    b as int,
                    content_name(),
                ) && occurs_at(s, c as int, seq![':']) && occurs_at(s, f as int, seq![','])
                    && occurs_at(s, g as int, uuid_key()) && occurs_at(s, h as int, seq![':'])
                    && occurs_at(s, k as int, seq!['"']) && skip_ws(s, e as nat) == z && s[z]
                    == '}' && c + 1 <= v <= s.len() {
                    Some((id, s.subrange(c as int + 1, v)))
                } else {
                    None
                },
                None => None,
            }
        },
        None => None,
    }
}

/// What a queue envelope holds: its id and the JSON text of its content,
/// with the two members in either order and any JSON whitespace between the
/// tokens and around the whole. `None` for any other text.
pub open spec fn queue_wire(s: Seq<char>) -> Option<(Seq<char>, Seq<char>)> {
    match queue_in_order(s) {
        Some(r) => Some(r),
        None => queue_content_first(s),
    }
}

/// A queue envelope read back gives the id and content it was written with,
/// for every id.
pub proof fn lemma_queue_round_trip(uuid: Seq<char>, content: Seq<char>)
    ensures
        queue_wire(queue_text(uuid, content)) == Some((uuid, content)),
{
    let s = queue_text(uuid, content);
    let pre = seq!['{'] + uuid_key() + seq![':', '"'];
    let post = seq![','] + content_name() + seq![':'] + content + seq!['}'];
    assert(s =~= pre + escaped(uuid) + seq!['"'] + post);
    lemma_string_round_trip(uuid, pre, post);
    let e = (pre.len() + escaped(uuid).len() + 1) as int;
    assert(s[0] == '{');
    assert(s.subrange(0, 1) =~= seq!['{']);
    assert(s.subrange(1, 7) =~= uuid_key());
    assert(s[1] == '"');
    assert(s[7] == ':');
    assert(s.subrange(7, 8) =~= seq![':']);
    assert(s[8] == '"');
    assert(s.subrange(8, 9) =~= seq!['"']);
    assert(skip_ws(s, 0) == 0);
    assert(skip_ws(s, 1) == 1);
    assert(skip_ws(s, 7) == 7);
    assert(skip_ws(s, 8) == 8);
    assert(s[e] == ',');
    assert(s.subrange(e, e + 1) =~= seq![',']);
    assert(skip_ws(s, e as nat) == e);
    assert(s.subrange(e + 1, e + 10) =~= content_name());
    assert(s[e + 1] == '"');
    assert(skip_ws(s, (e + 1) as nat) == e + 1);
    assert(s[e + 10] == ':');
    assert(s.subrange(e + 10, e + 11) =~= seq![':']);
    assert(skip_ws(s, (e + 10) as nat) == e + 10);
    assert(s[s.len() - 1] == '}');
    assert(trim_end(s, s.len()) == s.len());
    assert(s.subrange(e + 11, s.len() - 1) =~= content);
    assert(queue_in_order(s) == Some((uuid, content)));
}

/// A task published under a fresh uuid is read back with that same,
/// non-empty id and with the content it was published with.
pub proof fn lemma_published_task_read_back(uuid: Seq<char>, content: Seq<char>)
    requires
        is_uuid_v4_text(uuid),
    ensures
        uuid.len() > 0,
        queue_wire(queue_text(uuid, content)) == Some((uuid, content)),
{
    lemma_queue_round_trip(uuid, content);
}

/// Writes the wire text of a message whose content is JSON text, escaping
/// its id as serde_json does.
pub fn encode_queue_message(message: &WriteQueueMessage<String>) -> (r: String)
    ensures
        r@ == queue_text(message.spec_uuid(), message.spec_content()@),
{
    proof {
        reveal_strlit("{\"uuid\":\"");
        reveal_strlit("\",\"content\":");
        reveal_strlit("}");
    }
    let mut s = String::from_str("{\"uuid\":\"");
    let id = escape_text(message.uuid.as_str());
    s.append(id.as_str());
    s.append("\",\"content\":");
    s.append(message.content.as_str());
    s.append("}");
    assert(s@ =~= queue_text(message.spec_uuid(), message.spec_content()@));
    s
}

fn decode_in_order(text: &str) -> (r: Option<(String, String)>)
    ensures
        match r {
            Some((id, c)) => queue_in_order(text@) == Some((id@, c@)),
            None => queue_in_order(text@) is None,
        },
{
    let open = "{";
    let key = "\"uuid\"";
    let colon = ":";
    let quote = "\"";
    let comma = ",";
    let content_key = "\"content\"";
    proof {
        reveal_strlit("{");
        reveal_strlit("\"uuid\"");
        reveal_strlit(":");
        reveal_strlit("\"");
        reveal_strlit(",");
        reveal_strlit("\"content\"");
    }
    assert(open@ =~= seq!['{']);
    assert(key@ =~= uuid_key());
    assert(colon@ =~= seq![':']);
    assert(quote@ =~= seq!['"']);
    assert(comma@ =~= seq![',']);
    assert(content_key@ =~= content_name());
    let n = text.unicode_len();
    let a = skip_ws_at(text, 0);
    if !matches_at(text, a, open) {
        return None;
    }
    let b = skip_ws_at(text, a + 1);
    if !matches_at(text, b, key) {
        return None;
    }
    let c = skip_ws_at(text, b + 6);
    if !matches_at(text, c, colon) {
        return None;
    }
    let d = skip_ws_at(text, c + 1);
    if !matches_at(text, d, quote) {
        return None;
    }
    let (id, e) = match read_string(text, d + 1) {
        Some(r) => r,
        None => return None,
    };
    let f = skip_ws_at(text, e);
    if !matches_at(text, f, comma) {
        return None;
    }
    let g = skip_ws_at(text, f + 1);
    if !matches_at(text, g, content_key) {
        return None;
    }
    let h = skip_ws_at(text, g + 9);
    if !matches_at(text, h, colon) {
        return None;
    }
    let end = trim_end_of(text);
    if end == 0 {
        return None;
    }
    let z = end - 1;
    if !(h < z && text.get_char(z) == '}') {
        return None;
    }
    Some((id, text.substring_char(h + 1, z).to_owned()))
}

fn decode_content_first(text: &str) -> (r: Option<(String, String)>)
    ensures
        match r {
            Some((id, c)) => queue_content_first(text@) == Some((id@, c@)),
            None => queue_content_first(text@) is None,
        },
{
    let open = "{";
    let key = "\"uuid\"";
    let colon = ":";
    let quote = "\"";
    let comma = ",";
    let content_key = "\"content\"";
    proof {
        reveal_strlit("{");
        reveal_strlit("\"uuid\"");
        reveal_strlit(":");
        reveal_strlit("\"");
        reveal_strlit(",");
        reveal_strlit("\"content\"");
    }
    assert(open@ =~= seq!['{']);
    assert(key@ =~= uuid_key());
    assert(colon@ =~= seq![':']);
    assert(quote@ =~= seq!['"']);
    assert(comma@ =~= seq![',']);
    assert(content_key@ =~= content_name());
    let n = text.unicode_len();
    let a = skip_ws_at(text, 0);
    if !matches_at(text, a, open) {
        return None;
    }
    let b = skip_ws_at(text, a + 1);
    if !matches_at(text, b, content_key) {
        return None;
    }
    let c = skip_ws_at(text, b + 9);
    if !matches_at(text, c, colon) {
        return None;
    }
    let d = skip_ws_at(text, c + 1);
    let v = match value_end_at(text, d) {
        Some(v) => v,
        None => return None,
    };
    let f = skip_ws_at(text, v);
    if !matches_at(text, f, comma) {
        return None;
    }
    let g = skip_ws_at(text, f + 1);
    if !matches_at(text, g, key) {
        return None;
    }
    let h = skip_ws_at(text, g + 6);
    if !matches_at(text, h, colon) {
        return None;
    }
    let k = skip_ws_at(text, h + 1);
    if !matches_at(text, k, quote) {
        return None;
    }
    let (id, e) = match read_string(text, k + 1) {
        Some(r) => r,
        None => return None,
    };
    let end = trim_end_of(text);
    if end == 0 {
        return None;
    }
    let z = end - 1;
    if !(skip_ws_at(text, e) == z && text.get_char(z) == '}') {
        return None;
    }
    if !(c + 1 <= v && v <= n) {
        return None;
    }
    Some((id, text.substring_char(c + 1, v).to_owned()))
}

impl ReadQueueMessage<String> {
    /// Reads a queue envelope into a message whose content is the JSON text
    /// of the task. Text of any other shape is `InvalidData`.
    pub fn from_str(message: String) -> (r: Result<ReadQueueMessage<String>, IpcError>)
        ensures
            match r {
                Ok(m) => queue_wire(message@) == Some((m.spec_uuid(), m.spec_content()@)),
                Err(e) => queue_wire(message@) is None && e.spec_kind() == IpcErrorKind::InvalidData,
            },
    {
        let text = message.as_str();
        let found = match decode_in_order(text) {
            Some(r) => Some(r),
            None => decode_content_first(text),
        };
        match found {
            Some((id, content)) => Ok(ReadQueueMessage::new(id, content)),
            None => Err(IpcError::new(IpcErrorKind::InvalidData, "queue message is not a valid envelope")),
        }
    }
}

/// Reads the store's reply to a pop of one element: no reply is an empty
/// queue, `None`; otherwise the reply's first element, and a reply without
/// any is `InvalidData`.
pub fn pop_reply(reply: Option<Vec<String>>) -> (r: Result<Option<String>, IpcError>)
    ensures
        match reply {
            None => r matches Ok(None),
            Some(v) => if v@.len() > 0 {
                r matches Ok(Some(t)) && t == v@[0]
            } else {
                r matches Err(e) && e.spec_kind() == IpcErrorKind::InvalidData
            },
        },
{
    match reply {
        None => Ok(None),
        Some(v) => {
            if v.len() > 0 {
                Ok(Some(v[0].clone()))
            } else {
                Err(IpcError::new(IpcErrorKind::InvalidData, "pop reply holds no element"))
            }
        },
    }
}

/// Reads the store's reply to a blocking pop, which names the queue and then
/// the element: no reply means that the wait ran out, `Timeout`; a reply
/// without an element is `InvalidData`.
pub fn blocking_pop_reply(reply: Option<Vec<String>>) -> (r: Result<String, IpcError>)
    ensures
        match reply {
            None => r matches Err(e) && e.spec_kind() == IpcErrorKind::Timeout,
            Some(v) => if v@.len() == 0 {
                r matches Err(e) && e.spec_kind() == IpcErrorKind::Timeout
            } else if v@.len() == 1 {
                r matches Err(e) && e.spec_kind() == IpcErrorKind::InvalidData
            } else {
                r matches Ok(t) && t == v@[1]
            },
        },
{
    match reply {
        None => Err(IpcError::new(IpcErrorKind::Timeout, "no queue element arrived in time")),
        Some(v) => {
            if v.len() == 0 {
                Err(IpcError::new(IpcErrorKind::Timeout, "no queue element arrived in time"))
            } else if v.len() == 1 {
                Err(IpcError::new(IpcErrorKind::InvalidData, "blocking pop reply holds no element"))
            } else {
                Ok(v[1].clone())
            }
        },
    }
}

/// Whether an endless reader of a queue waits on after a blocking read that
/// failed with an error of this kind. A read that timed out or lost its
/// connection is tried again; so is one that took a malformed element, which
/// the store has already removed. Any other failure ends the reading.
pub fn keeps_waiting(kind: IpcErrorKind) -> (r: bool)
    ensures
        r == (kind == IpcErrorKind::Timeout || kind == IpcErrorKind::ConnectionFailure || kind
            == IpcErrorKind::InvalidData),
{
    match kind {
        IpcErrorKind::Timeout | IpcErrorKind::ConnectionFailure | IpcErrorKind::InvalidData => true,
        _ => false,
    }
}

} // verus!
