//! Append-only stream: message ids, their text form, the reader's cursor and
//! the reading of the store's stream replies.
use vstd::prelude::*;
use crate::decimal::{decimal, decimal_text, digits_value, is_decimal, is_digit, lemma_decimal, parse_decimal};
use crate::error::{IpcError, IpcErrorKind};

verus! {

/// Name of the one field of a stream entry that holds the message's text.
pub const CONTENT_FIELD: &'static str = "content";

/// Id of a stream entry, as the store assigns it: a millisecond timestamp and
/// a sequence number within that millisecond.
pub type StreamId = (u64, u64);

/// The order of ids in a stream: by timestamp, then by sequence number.
pub open spec fn id_before(a: StreamId, b: StreamId) -> bool {
    a.0 < b.0 || (a.0 == b.0 && a.1 < b.1)
}

/// Canonical text of an id: `<ms>-<seq>`.
pub open spec fn id_text(id: StreamId) -> Seq<char> {
    decimal(id.0 as nat) + seq!['-'] + decimal(id.1 as nat)
}

/// Position of the first `-` at or after `i`, or the length of `s` if there is none.
pub open spec fn dash_from(s: Seq<char>, i: nat) -> nat
    decreases s.len() - i,
{
    if i >= s.len() {
        s.len()
    } else if s[i as int] == '-' {
        i
    } else {
        dash_from(s, i + 1)
    }
}

/// The number that a part of an id stands for, read as `u64::from_str`
/// reads it: an optional `+`, then a run of digits whose value fits in a
/// `u64`.
pub open spec fn part_value(p: Seq<char>) -> Option<u64> {
    let digits = if p.len() > 0 && p[0] == '+' { p.drop_first() } else { p };
    if is_decimal(digits) && digits_value(digits) <= u64::MAX {
        Some(digits_value(digits) as u64)
    } else {
        None
    }
}

/// The id that a text stands for: two parts around one `-`, each a number
/// that fits in a `u64`. `None` for any other text.
pub open spec fn parsed_id(s: Seq<char>) -> Option<StreamId> {
    let d = dash_from(s, 0) as int;
    if d < s.len() {
        match (part_value(s.subrange(0, d)), part_value(s.subrange(d + 1, s.len() as int))) {
            (Some(x), Some(y)) => Some((x, y)),
            _ => None,
        }
    } else {
        None
    }
}

proof fn lemma_dash_from(s: Seq<char>, i: nat, k: nat)
    requires
        i <= k < s.len(),
        s[k as int] == '-',
        forall|j: int| i <= j < k ==> s[j] != '-',
    ensures
        dash_from(s, i) == k,
    decreases k - i,
{
    if i < k {
        lemma_dash_from(s, i + 1, k);
    }
}

/// Writing an id and reading the text back gives the same id.
pub proof fn lemma_id_round_trip(id: StreamId)
    ensures
        parsed_id(id_text(id)) == Some(id),
{
    let a = decimal(id.0 as nat);
    let b = decimal(id.1 as nat);
    let s = id_text(id);
    lemma_decimal(id.0 as nat);
    lemma_decimal(id.1 as nat);
    assert forall|j: int| 0 <= j < a.len() implies s[j] != '-' by {
        assert(s[j] == a[j]);
        assert(is_digit(a[j]));
    }
    lemma_dash_from(s, 0, a.len());
    assert(s.subrange(0, a.len() as int) =~= a);
    assert(s.subrange(a.len() as int + 1, s.len() as int) =~= b);
    assert(is_digit(a[0]) && is_digit(b[0]));
}

/// Writes an id in its canonical text form `<ms>-<seq>`.
pub fn stringify_id(id: &StreamId) -> (r: String)
    ensures
        r@ == id_text(*id),
{
    let mut s = decimal_text(id.0 as u128);
    proof { reveal_strlit("-"); }
    s.append("-");
    let b = decimal_text(id.1 as u128);
    s.append(b.as_str());
    assert(s@ =~= id_text(*id));
    s
}

/// Reads one part of an id as `u64::from_str` reads it.
fn parse_part(p: &str) -> (r: Option<u64>)
    ensures
        r == part_value(p@),
{
    let n = p.unicode_len();
    let digits = if n > 0 && p.get_char(0) == '+' {
        p.substring_char(1, n)
    } else {
        p
    };
    assert(n > 0 && p@[0] == '+' ==> digits@ =~= p@.drop_first());
    match parse_decimal(digits) {
        Some(v) => {
            if v <= u64::MAX as u128 {
                Some(v as u64)
            } else {
                None
            }
        },
        None => None,
    }
}

/// Reads an id from its text form `<ms>-<seq>`, each part as
/// `u64::from_str` reads it. A text of any other shape, or with a part that
/// does not fit in a `u64`, is `InvalidData`.
pub fn parse_id(id_str: &str) -> (r: Result<StreamId, IpcError>)
    ensures
        match r {
            Ok(id) => parsed_id(id_str@) == Some(id),
            Err(e) => parsed_id(id_str@) is None && e.spec_kind() == IpcErrorKind::InvalidData,
        },
{
    let n = id_str.unicode_len();
    let mut d: usize = 0;
    while d < n && id_str.get_char(d) != '-'
        invariant
            n == id_str@.len(),
            d <= n,
            dash_from(id_str@, 0) == dash_from(id_str@, d as nat),
        decreases n - d,
    {
        d = d + 1;
    }
    if d < n {
        let a = id_str.substring_char(0, d);
        let b = id_str.substring_char(d + 1, n);
        match (parse_part(a), parse_part(b)) {
            (Some(x), Some(y)) => {
                return Ok((x, y));
            },
            _ => {},
        }
    }
    Err(IpcError::new(IpcErrorKind::InvalidData, "stream id is not <millisecondsTime>-<sequenceNumber>"))
}

/// A message read from a stream: the id the store gave it and its content.
#[derive(Debug)]
pub struct StreamMessage<MessageContent> {
    id: StreamId,
    content: MessageContent,
}

impl<MessageContent> StreamMessage<MessageContent> {
    /// Id of the message, for contracts.
    pub closed spec fn spec_id(&self) -> StreamId {
        self.id
    }

    /// Content of the message, for contracts.
    pub closed spec fn spec_content(&self) -> MessageContent {
        self.content
    }

    /// Builds a message from its id and content.
    pub fn new(id: StreamId, content: MessageContent) -> (r: Self)
        ensures
            r.spec_id() == id,
            r.spec_content() == content,
    {
        StreamMessage { id, content }
    }

    /// Content of the message.
    pub fn get_content(&self) -> (r: &MessageContent)
        ensures
            *r == self.spec_content(),
    {
        &self.content
    }

    /// Id of the message.
    pub fn get_id(&self) -> (r: StreamId)
        ensures
            r == self.spec_id(),
    {
        self.id
    }

    /// Splits the message into its id and content.
    pub fn into_parts(self) -> (r: (StreamId, MessageContent))
        ensures
            r.0 == self.spec_id(),
            r.1 == self.spec_content(),
    {
        (self.id, self.content)
    }
}

/// A stream entry as the store hands it out: its id text and the text held
/// under the entry's content field, if the entry has that field.
#[derive(Debug)]
pub struct StreamEntry {
    pub id: String,
    pub content: Option<String>,
}

/// The id and the content text of an entry, when its id is well formed and it
/// has a content field.
pub open spec fn entry_message(e: StreamEntry) -> Option<(StreamId, Seq<char>)> {
    match (parsed_id(e.id@), e.content) {
        (Some(id), Some(c)) => Some((id, c@)),
        _ => None,
    }
}

/// Turns a store entry into a message whose content is the entry's text.
/// A malformed id or a missing content field is `InvalidData`.
pub fn message_from_entry(entry: &StreamEntry) -> (r: Result<StreamMessage<String>, IpcError>)
    ensures
        match r {
            Ok(m) => entry_message(*entry) == Some((m.spec_id(), m.spec_content()@)),
            Err(e) => entry_message(*entry) is None && e.spec_kind() == IpcErrorKind::InvalidData,
        },
{
    let id = parse_id(entry.id.as_str())?;
    match &entry.content {
        Some(c) => Ok(StreamMessage::new(id, c.clone())),
        None => Err(IpcError::new(IpcErrorKind::InvalidData, "stream entry has no content field")),
    }
}

/// Reads the reply to a query for the newest entry: `None` when the stream is
/// empty, else the first entry of the reply as a message.
pub fn latest_message(entries: &Vec<StreamEntry>) -> (r: Result<Option<StreamMessage<String>>, IpcError>)
    ensures
        entries@.len() == 0 ==> r matches Ok(None),
        entries@.len() > 0 ==> match r {
            Ok(Some(m)) => entry_message(entries@[0]) == Some((m.spec_id(), m.spec_content()@)),
            Ok(None) => false,
            Err(e) => entry_message(entries@[0]) is None && e.spec_kind()
                == IpcErrorKind::InvalidData,
        },
{
    if entries.len() == 0 {
        Ok(None)
    } else {
        let m = message_from_entry(&entries[0])?;
        Ok(Some(m))
    }
}

/// Whether a blocking read's reply holds no entry, which is how the store
/// says that the wait ran out.
pub open spec fn reply_is_empty(reply: Seq<Vec<StreamEntry>>) -> bool {
    reply.len() == 0 || reply[0]@.len() == 0
}

/// Whether an entry is well formed and comes after `last`.
pub open spec fn entry_follows(last: StreamId, e: StreamEntry) -> bool {
    match entry_message(e) {
        Some((id, _)) => id_before(last, id),
        None => false,
    }
}

/// Reader's position in a stream: the id of the last entry it consumed, or
/// `(0, 0)` before the first. Ids of a stream are above `(0, 0)`.
#[derive(Debug, Clone, Copy)]
pub struct StreamCursor {
    last_id: StreamId,
}

impl StreamCursor {
    /// Id of the last entry consumed, `(0, 0)` before any.
    pub closed spec fn spec_last(&self) -> StreamId {
        self.last_id
    }

    /// A cursor placed before anything.
    pub fn new() -> (r: StreamCursor)
        ensures
            r.spec_last() == (0u64, 0u64),
    {
        StreamCursor { last_id: (0, 0) }
    }

    /// Id of the last entry consumed, `(0, 0)` before any.
    pub fn last_id(&self) -> (r: StreamId)
        ensures
            r == self.spec_last(),
    {
        self.last_id
    }

    /// Where the next blocking read starts: `$`, the store's name for "only
    /// entries appended from now on", while nothing has been consumed; else
    /// the text of the last id consumed, after which the store reads.
    pub fn read_position(&self) -> (r: String)
        ensures
            self.spec_last() == (0u64, 0u64) ==> r@ == seq!['$'],
            self.spec_last() != (0u64, 0u64) ==> r@ == id_text(self.spec_last()),
    {
        if self.last_id.0 == 0 && self.last_id.1 == 0 {
            proof { reveal_strlit("$"); }
            String::from_str("$")
        } else {
            stringify_id(&self.last_id)
        }
    }

    /// Takes the reply of a blocking read made from [`Self::read_position`].
    /// An empty reply is `Timeout`. Otherwise the first entry is the message,
    /// and the cursor moves to its id; an entry that is malformed or does not
    /// come after the cursor is `InvalidData`, and leaves the cursor where it
    /// was.
    pub fn accept_reply(&mut self, reply: &Vec<Vec<StreamEntry>>) -> (r: Result<
        StreamMessage<String>,
        IpcError,
    >)
        ensures
            reply_is_empty(reply@) ==> (r matches Err(e) && e.spec_kind() == IpcErrorKind::Timeout),
            !reply_is_empty(reply@) ==> match r {
                Ok(m) => {
                    &&& entry_message(reply@[0]@[0]) == Some((m.spec_id(), m.spec_content()@))
                    &&& id_before(old(self).spec_last(), m.spec_id())
                },
                Err(e) => e.spec_kind() == IpcErrorKind::InvalidData && !entry_follows(
                    old(self).spec_last(),
                    reply@[0]@[0],
                ),
            },
            match r {
                Ok(m) => final(self).spec_last() == m.spec_id(),
                Err(_) => final(self).spec_last() == old(self).spec_last(),
            },
    {
        if reply.len() == 0 || reply[0].len() == 0 {
            return Err(IpcError::new(IpcErrorKind::Timeout, "no stream entry arrived in time"));
        }
        let m = message_from_entry(&reply[0][0])?;
        let id = m.get_id();
        if id.0 > self.last_id.0 || (id.0 == self.last_id.0 && id.1 > self.last_id.1) {
            self.last_id = id;
            Ok(m)
        } else {
            Err(IpcError::new(IpcErrorKind::InvalidData, "stream entry does not follow the cursor"))
        }
    }
}

/// Each id of `ids` comes after the one before it, the first after `start`:
/// the ids that a cursor placed at `start` accepts, read after read.
pub open spec fn accepted_in_turn(start: StreamId, ids: Seq<StreamId>) -> bool {
    forall|i: int| 0 <= i < ids.len() ==> #[trigger] follows_previous(start, ids, i)
}

/// Entry `i` of `ids` comes after the one before it, entry `0` after `start`.
pub open spec fn follows_previous(start: StreamId, ids: Seq<StreamId>, i: int) -> bool {
    id_before(if i == 0 { start } else { ids[i - 1] }, ids[i])
}

proof fn lemma_chain(start: StreamId, ids: Seq<StreamId>, i: int, j: int)
    requires
        accepted_in_turn(start, ids),
        -1 <= i < j < ids.len(),
    ensures
        id_before(if i < 0 { start } else { ids[i] }, ids[j]),
    decreases j - i,
{
    assert(follows_previous(start, ids, j));
    if i + 1 < j {
        lemma_chain(start, ids, i, j - 1);
    }
}

/// The entries that a reader consumes come in strictly increasing id order,
/// all after where the reader started, and after consuming entry `k` the
/// cursor never falls back below `ids[k]`.
pub proof fn lemma_reads_in_order(start: StreamId, ids: Seq<StreamId>)
    requires
        accepted_in_turn(start, ids),
    ensures
        forall|i: int, j: int| 0 <= i < j < ids.len() ==> id_before(ids[i], ids[j]),
        forall|i: int| 0 <= i < ids.len() ==> id_before(start, #[trigger] ids[i]),
{
    assert forall|i: int, j: int| 0 <= i < j < ids.len() implies id_before(ids[i], ids[j]) by {
        lemma_chain(start, ids, i, j);
    }
    assert forall|i: int| 0 <= i < ids.len() implies id_before(start, #[trigger] ids[i]) by {
        lemma_chain(start, ids, -1, i);
    }
}

} // verus!
