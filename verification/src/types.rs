//! The chat-log data model: media types, the two message variants, the root
//! aggregate, the decoding entry points and the two queries.

use vstd::prelude::*;
use crate::error::DecodeError;
use crate::json::{Json, obj_get, obj_lookup, parse_json, json_of};
use crate::timestamp;
use crate::timestamp::Timestamp;

verus! {

/// The closed set of media-type tags a message can carry on the wire.
#[derive(Debug, Copy, Clone, PartialEq, Eq, Structural, Hash)]
pub enum MediaType {
    /// Wire tag `TEXT`: a plain text message.
    Text,
    /// Wire tag `MEDIA`: an image or video.
    Media,
    /// Wire tag `STICKER`.
    Sticker,
    /// Wire tag `SHARE`.
    Share,
    /// Wire tag `NOTE`.
    Note,
    /// Wire tag `LOCATION`: a shared location.
    Location,
}

/// The media type a wire tag denotes: exactly the six tags, case-sensitive,
/// map to a variant; every other string is rejected.
pub open spec fn spec_media_type(tag: Seq<char>) -> Option<MediaType> {
    if tag == "TEXT"@ {
        Some(MediaType::Text)
    } else if tag == "MEDIA"@ {
        Some(MediaType::Media)
    } else if tag == "STICKER"@ {
        Some(MediaType::Sticker)
    } else if tag == "SHARE"@ {
        Some(MediaType::Share)
    } else if tag == "NOTE"@ {
        Some(MediaType::Note)
    } else if tag == "LOCATION"@ {
        Some(MediaType::Location)
    } else {
        None
    }
}

/// Decode a wire media-type tag; fails with `UnrecognizedMediaType` exactly
/// when the tag is not one of the six recognized ones.
pub fn decode_media_type(tag: &String) -> (r: Result<MediaType, DecodeError>)
    ensures
        match r {
            Ok(mt) => spec_media_type(tag@) == Some(mt),
            Err(e) => spec_media_type(tag@) is None && e == DecodeError::UnrecognizedMediaType,
        },
{
    if *tag == "TEXT".to_owned() {
        Ok(MediaType::Text)
    } else if *tag == "MEDIA".to_owned() {
        Ok(MediaType::Media)
    } else if *tag == "STICKER".to_owned() {
        Ok(MediaType::Sticker)
    } else if *tag == "SHARE".to_owned() {
        Ok(MediaType::Share)
    } else if *tag == "NOTE".to_owned() {
        Ok(MediaType::Note)
    } else if *tag == "LOCATION".to_owned() {
        Ok(MediaType::Location)
    } else {
        Err(DecodeError::UnrecognizedMediaType)
    }
}

/// The mathematical value of a message: the view of `Message`.
pub enum MessageV {
    Sent {
        to: Seq<char>,
        media_type: MediaType,
        created_at: Timestamp,
        text: Option<Seq<char>>,
    },
    Received {
        from: Seq<char>,
        media_type: MediaType,
        created_at: Timestamp,
        text: Option<Seq<char>>,
    },
}

impl MessageV {
    /// The other party of the conversation: the wire recipient of a sent
    /// message, the wire sender of a received one.
    pub open spec fn recipient(self) -> Seq<char> {
        match self {
            MessageV::Sent { to, .. } => to,
            MessageV::Received { from, .. } => from,
        }
    }

    pub open spec fn media_type(self) -> MediaType {
        match self {
            MessageV::Sent { media_type, .. } => media_type,
            MessageV::Received { media_type, .. } => media_type,
        }
    }

    pub open spec fn created_at(self) -> Timestamp {
        match self {
            MessageV::Sent { created_at, .. } => created_at,
            MessageV::Received { created_at, .. } => created_at,
        }
    }

    pub open spec fn text(self) -> Option<Seq<char>> {
        match self {
            MessageV::Sent { text, .. } => text,
            MessageV::Received { text, .. } => text,
        }
    }
}

/// A single saved chat message. Exactly one of the two counterpart fields
/// (`to` of `Sent`, `from` of `Received`) exists, fixed by the variant at
/// construction.
#[derive(Debug, PartialEq)]
pub enum Message {
    /// A message this account sent; `to` names the wire recipient.
    Sent { to: String, media_type: MediaType, created_at: Timestamp, text: Option<String> },
    /// A message this account received; `from` names the wire sender.
    Received { from: String, media_type: MediaType, created_at: Timestamp, text: Option<String> },
}

/// View of an optional text body.
pub open spec fn opt_str_view(o: Option<String>) -> Option<Seq<char>> {
    match o {
        Option::None => None,
        Option::Some(s) => Some(s@),
    }
}

impl View for Message {
    type V = MessageV;

    open spec fn view(&self) -> MessageV {
        match self {
            Message::Sent { to, media_type, created_at, text } => MessageV::Sent {
                to: to@,
                media_type: *media_type,
                created_at: *created_at,
                text: opt_str_view(*text),
            },
            Message::Received { from, media_type, created_at, text } => MessageV::Received {
                from: from@,
                media_type: *media_type,
                created_at: *created_at,
                text: opt_str_view(*text),
            },
        }
    }
}

fn clone_opt_string(o: &Option<String>) -> (r: Option<String>)
    ensures
        r == *o,
{
    match o {
        Option::None => None,
        Option::Some(s) => Some(s.clone()),
    }
}

impl Message {
    /// The other party of the conversation this message belongs to: the
    /// recipient of a sent message, the sender of a received one.
    pub fn recipient(&self) -> (r: String)
        ensures
            r@ == self@.recipient(),
    {
        match self {
            Message::Received { from, .. } => from.clone(),
            Message::Sent { to, .. } => to.clone(),
        }
    }

    /// The media type of the message.
    pub fn media_type(&self) -> (r: MediaType)
        ensures
            r == self@.media_type(),
    {
        match self {
            Message::Received { media_type, .. } => *media_type,
            Message::Sent { media_type, .. } => *media_type,
        }
    }

    /// The creation instant of the message.
    pub fn created_at(&self) -> (r: Timestamp)
        ensures
            r == self@.created_at(),
    {
        match self {
            Message::Received { created_at, .. } => *created_at,
            Message::Sent { created_at, .. } => *created_at,
        }
    }

    /// The text body, whatever the media type: `None` stands for a body that
    /// was empty (or absent) on the wire.
    pub fn text(&self) -> (r: Option<String>)
        ensures
            opt_str_view(r) == self@.text(),
    {
        match self {
            Message::Received { text, .. } => clone_opt_string(text),
            Message::Sent { text, .. } => clone_opt_string(text),
        }
    }

    fn duplicate(&self) -> (r: Message)
        ensures
            r == *self,
    {
        match self {
            Message::Sent { to, media_type, created_at, text } => Message::Sent {
                to: to.clone(),
                media_type: *media_type,
                created_at: *created_at,
                text: clone_opt_string(text),
            },
            Message::Received { from, media_type, created_at, text } => Message::Received {
                from: from.clone(),
                media_type: *media_type,
                created_at: *created_at,
                text: clone_opt_string(text),
            },
        }
    }
}

/// The wire-to-model rule for text bodies: an empty string is normalized to
/// an absent body, a non-empty one is kept exactly. (Lossy on purpose: an
/// empty and an absent body are indistinguishable after decoding.)
pub open spec fn spec_text_opt(text: Seq<char>) -> Option<Seq<char>> {
    if text.len() == 0 {
        None
    } else {
        Some(text)
    }
}

/// Normalize a wire text body: the empty string becomes `None`, any other
/// string is kept exactly.
pub fn text_to_opt(text: String) -> (r: Option<String>)
    ensures
        opt_str_view(r) == spec_text_opt(text@),
{
    if text.as_str().is_empty() {
        None
    } else {
        Some(text)
    }
}

/// The string value of the first entry under `key`, if there is an entry and
/// its value is a string.
pub open spec fn spec_field_string(entries: Seq<(String, Json)>, key: Seq<char>) -> Option<
    Seq<char>,
> {
    match obj_get(entries, key) {
        Some(Json::Str(s)) => Some(s@),
        _ => None,
    }
}

/// Decoding one variant shape out of a message object, after the ordered
/// trial has settled on it: the counterpart field under `user_key` and the
/// three fixed fields must all be present as strings, and the media type and
/// timestamp must themselves decode.
pub open spec fn spec_decode_variant(
    entries: Seq<(String, Json)>,
    sent: bool,
    user_key: Seq<char>,
) -> Result<MessageV, DecodeError> {
    match spec_field_string(entries, user_key) {
        None => Err(DecodeError::SchemaMismatch),
        Some(user) => match spec_field_string(entries, "Media Type"@) {
            None => Err(DecodeError::SchemaMismatch),
            Some(tag) => match spec_media_type(tag) {
                None => Err(DecodeError::UnrecognizedMediaType),
                Some(mt) => match spec_field_string(entries, "Created"@) {
                    None => Err(DecodeError::SchemaMismatch),
                    Some(created) => match timestamp::spec_decode(created) {
                        None => Err(DecodeError::MalformedTimestamp),
                        Some(ts) => match spec_field_string(entries, "Text"@) {
                            None => Err(DecodeError::SchemaMismatch),
                            Some(text) => Ok(
                                if sent {
                                    MessageV::Sent {
                                        to: user,
                                        media_type: mt,
                                        created_at: ts,
                                        text: spec_text_opt(text),
                                    }
                                } else {
                                    MessageV::Received {
                                        from: user,
                                        media_type: mt,
                                        created_at: ts,
                                        text: spec_text_opt(text),
                                    }
                                },
                            ),
                        },
                    },
                },
            },
        },
    }
}

/// The message a JSON value denotes. The variant is picked by an ordered
/// trial on which counterpart key is present: `To` makes the value a `Sent`
/// candidate, else `From` makes it a `Received` one; an object carrying both
/// keys matches neither variant exactly and is rejected, as is anything that
/// is not an object.
pub open spec fn spec_decode_message(j: Json) -> Result<MessageV, DecodeError> {
    match j {
        Json::Obj(entries) => {
            if obj_get(entries@, "To"@) is Some && obj_get(entries@, "From"@) is Some {
                Err(DecodeError::SchemaMismatch)
            } else if obj_get(entries@, "To"@) is Some {
                spec_decode_variant(entries@, true, "To"@)
            } else if obj_get(entries@, "From"@) is Some {
                spec_decode_variant(entries@, false, "From"@)
            } else {
                Err(DecodeError::SchemaMismatch)
            }
        },
        _ => Err(DecodeError::SchemaMismatch),
    }
}

/// `Result` of decoding one message, seen at the view level.
pub open spec fn msg_result_view(r: Result<Message, DecodeError>) -> Result<
    MessageV,
    DecodeError,
> {
    match r {
        Ok(m) => Ok(m@),
        Err(e) => Err(e),
    }
}

fn decode_variant(entries: &Vec<(String, Json)>, user_j: &Json, sent: bool) -> (r: Result<
    Message,
    DecodeError,
>)
    requires
        obj_get(entries@, if sent { "To"@ } else { "From"@ }) == Some(*user_j),
    ensures
        msg_result_view(r) == spec_decode_variant(
            entries@,
            sent,
            if sent { "To"@ } else { "From"@ },
        ),
{
    let user: String = match user_j {
        Json::Str(u) => u.clone(),
        _ => { return Err(DecodeError::SchemaMismatch) },
    };
    let mt_key: String = "Media Type".to_owned();
    let media_type: MediaType = match obj_lookup(entries, &mt_key) {
        Some(Json::Str(tag)) => match decode_media_type(tag) {
            Ok(mt) => mt,
            Err(e) => { return Err(e) },
        },
        Some(_) => { return Err(DecodeError::SchemaMismatch) },
        None => { return Err(DecodeError::SchemaMismatch) },
    };
    let created_key: String = "Created".to_owned();
    let created_at: Timestamp = match obj_lookup(entries, &created_key) {
        Some(Json::Str(created)) => match timestamp::decode(created.as_str()) {
            Ok(ts) => ts,
            Err(e) => { return Err(e) },
        },
        Some(_) => { return Err(DecodeError::SchemaMismatch) },
        None => { return Err(DecodeError::SchemaMismatch) },
    };
    let text_key: String = "Text".to_owned();
    let text: Option<String> = match obj_lookup(entries, &text_key) {
        Some(Json::Str(t)) => text_to_opt(t.clone()),
        Some(_) => { return Err(DecodeError::SchemaMismatch) },
        None => { return Err(DecodeError::SchemaMismatch) },
    };
    if sent {
        Ok(Message::Sent { to: user, media_type, created_at, text })
    } else {
        Ok(Message::Received { from: user, media_type, created_at, text })
    }
}

/// Decode one message object, by the ordered variant trial: `To` present
/// makes it a `Sent` candidate, else `From` a `Received` one; both present,
/// neither present, or any non-object value is a schema mismatch.
pub fn decode_message(j: &Json) -> (r: Result<Message, DecodeError>)
    ensures
        msg_result_view(r) == spec_decode_message(*j),
{
    match j {
        Json::Obj(entries) => {
            let to_key: String = "To".to_owned();
            let from_key: String = "From".to_owned();
            let to_j = obj_lookup(entries, &to_key);
            let from_j = obj_lookup(entries, &from_key);
            match (to_j, from_j) {
                (Some(_), Some(_)) => Err(DecodeError::SchemaMismatch),
                (Some(tj), None) => decode_variant(entries, tj, true),
                (None, Some(fj)) => decode_variant(entries, fj, false),
                (None, None) => Err(DecodeError::SchemaMismatch),
            }
        },
        _ => Err(DecodeError::SchemaMismatch),
    }
}

/// The views of a sequence of messages.
pub open spec fn views_of(s: Seq<Message>) -> Seq<MessageV> {
    s.map_values(|m: Message| m@)
}

/// The message sequence a JSON array denotes: every element must decode, in
/// order, and the first failing element fails the whole array with its own
/// error.
pub open spec fn spec_decode_messages(items: Seq<Json>) -> Result<Seq<MessageV>, DecodeError>
    decreases items.len(),
{
    if items.len() == 0 {
        Ok(Seq::empty())
    } else {
        match spec_decode_message(items[0]) {
            Err(e) => Err(e),
            Ok(m) => match spec_decode_messages(items.drop_first()) {
                Err(e) => Err(e),
                Ok(rest) => Ok(seq![m] + rest),
            },
        }
    }
}

proof fn lemma_decode_messages_all_ok(items: Seq<Json>, vs: Seq<MessageV>)
    requires
        vs.len() == items.len(),
        forall|k: int|
            0 <= k < items.len() ==> #[trigger] spec_decode_message(items[k]) == Ok::<
                MessageV,
                DecodeError,
            >(vs[k]),
    ensures
        spec_decode_messages(items) == Ok::<Seq<MessageV>, DecodeError>(vs),
    decreases items.len(),
{
    if items.len() == 0 {
        assert(vs =~= Seq::<MessageV>::empty());
    } else {
        assert(forall|k: int|
            0 <= k < items.drop_first().len() ==> #[trigger] spec_decode_message(
                items.drop_first()[k],
            ) == Ok::<MessageV, DecodeError>(vs.drop_first()[k]));
        lemma_decode_messages_all_ok(items.drop_first(), vs.drop_first());
        assert(spec_decode_message(items[0]) == Ok::<MessageV, DecodeError>(vs[0]));
        assert(seq![vs[0]] + vs.drop_first() =~= vs);
    }
}

proof fn lemma_decode_messages_first_err(items: Seq<Json>, j: int, e: DecodeError)
    requires
        0 <= j < items.len(),
        forall|k: int| 0 <= k < j ==> #[trigger] spec_decode_message(items[k]) is Ok,
        spec_decode_message(items[j]) == Err::<MessageV, DecodeError>(e),
    ensures
        spec_decode_messages(items) == Err::<Seq<MessageV>, DecodeError>(e),
    decreases items.len(),
{
    if j > 0 {
        assert(forall|k: int|
            0 <= k < j - 1 ==> #[trigger] spec_decode_message(items.drop_first()[k]) is Ok);
        assert(items.drop_first()[j - 1] == items[j]);
        lemma_decode_messages_first_err(items.drop_first(), j - 1, e);
    }
}

/// Decode an array of message objects; the first failing element fails the
/// whole array, atomically, with its own error.
pub fn decode_messages(items: &Vec<Json>) -> (r: Result<Vec<Message>, DecodeError>)
    ensures
        match r {
            Ok(v) => spec_decode_messages(items@) == Ok::<Seq<MessageV>, DecodeError>(
                views_of(v@),
            ),
            Err(e) => spec_decode_messages(items@) == Err::<Seq<MessageV>, DecodeError>(e),
        },
{
    let mut out: Vec<Message> = Vec::new();
    let mut i: usize = 0;
    while i < items.len()
        invariant
            0 <= i <= items@.len(),
            out@.len() == i,
            forall|k: int|
                0 <= k < i ==> #[trigger] spec_decode_message(items@[k]) == Ok::<
                    MessageV,
                    DecodeError,
                >(out@[k]@),
        decreases items@.len() - i,
    {
        match decode_message(&items[i]) {
            Ok(m) => {
                out.push(m);
            },
            Err(e) => {
                proof {
                    lemma_decode_messages_first_err(items@, i as int, e);
                }
                return Err(e);
            },
        }
        i = i + 1;
    }
    proof {
        assert(views_of(out@).len() == items@.len());
        assert(forall|k: int|
            0 <= k < items@.len() ==> #[trigger] spec_decode_message(items@[k]) == Ok::<
                MessageV,
                DecodeError,
            >(views_of(out@)[k]));
        lemma_decode_messages_all_ok(items@, views_of(out@));
    }
    Ok(out)
}

/// The mathematical value of a decoded chat log: the view of
/// `SnapchatData`.
pub struct SnapchatDataV {
    pub saved_received: Seq<MessageV>,
    pub saved_sent: Seq<MessageV>,
}

/// Everything decoded from one chat-log document: the saved received
/// messages and the saved sent messages, each in document order. Immutable
/// once decoded.
#[derive(Debug, PartialEq)]
pub struct SnapchatData {
    /// Messages of the `Received Saved Chat History` array, in order.
    pub saved_received: Vec<Message>,
    /// Messages of the `Sent Saved Chat History` array, in order.
    pub saved_sent: Vec<Message>,
}

impl View for SnapchatData {
    type V = SnapchatDataV;

    open spec fn view(&self) -> SnapchatDataV {
        SnapchatDataV {
            saved_received: views_of(self.saved_received@),
            saved_sent: views_of(self.saved_sent@),
        }
    }
}

/// The chat log a JSON value denotes. The value must be an object with both
/// history keys, each an array of message objects; a missing key, a
/// non-array value, or any non-object root is a schema mismatch, and a bad
/// array element fails the document with that element's error (received
/// history first).
pub open spec fn spec_decode_document(j: Json) -> Result<SnapchatDataV, DecodeError> {
    match j {
        Json::Obj(entries) => match obj_get(entries@, "Received Saved Chat History"@) {
            Some(Json::Arr(received)) => match obj_get(entries@, "Sent Saved Chat History"@) {
                Some(Json::Arr(sent)) => match spec_decode_messages(received@) {
                    Err(e) => Err(e),
                    Ok(r) => match spec_decode_messages(sent@) {
                        Err(e) => Err(e),
                        Ok(s) => Ok(SnapchatDataV { saved_received: r, saved_sent: s }),
                    },
                },
                _ => Err(DecodeError::SchemaMismatch),
            },
            _ => Err(DecodeError::SchemaMismatch),
        },
        _ => Err(DecodeError::SchemaMismatch),
    }
}

/// `Result` of decoding a document, seen at the view level.
pub open spec fn data_result_view(r: Result<SnapchatData, DecodeError>) -> Result<
    SnapchatDataV,
    DecodeError,
> {
    match r {
        Ok(d) => Ok(d@),
        Err(e) => Err(e),
    }
}

/// The chat log a text denotes: a syntax error unless the text is
/// well-formed JSON, else whatever its document decodes to.
pub open spec fn spec_from_str(s: Seq<char>) -> Result<SnapchatDataV, DecodeError> {
    match json_of(s) {
        None => Err(DecodeError::SyntaxError),
        Some(j) => spec_decode_document(j),
    }
}

/// The chat log a byte stream denotes: a syntax error unless the bytes are
/// valid UTF-8, else whatever the text they spell denotes.
pub open spec fn spec_from_reader(bytes: Seq<u8>) -> Result<SnapchatDataV, DecodeError> {
    if vstd::utf8::valid_utf8(bytes) {
        spec_from_str(vstd::utf8::decode_utf8(bytes))
    } else {
        Err(DecodeError::SyntaxError)
    }
}

/// Relies on str::from_utf8: exactly the valid UTF-8 byte sequences decode,
/// to the character sequence vstd's UTF-8 model gives them.
#[verifier::external_body]
fn bytes_as_str(bytes: &[u8]) -> (r: Option<&str>)
    ensures
        match r {
            Some(t) => vstd::utf8::valid_utf8(bytes@) && t@ == vstd::utf8::decode_utf8(bytes@),
            None => !vstd::utf8::valid_utf8(bytes@),
        },
{
    core::str::from_utf8(bytes).ok()
}

/// Decode a whole chat-log document from a JSON value: both history keys
/// must be present as arrays of message objects, and every element must
/// decode.
pub fn decode_document(j: &Json) -> (r: Result<SnapchatData, DecodeError>)
    ensures
        data_result_view(r) == spec_decode_document(*j),
{
    match j {
        Json::Obj(entries) => {
            let received_key: String = "Received Saved Chat History".to_owned();
            let sent_key: String = "Sent Saved Chat History".to_owned();
            let received: &Vec<Json> = match obj_lookup(entries, &received_key) {
                Some(Json::Arr(received)) => received,
                Some(_) => { return Err(DecodeError::SchemaMismatch) },
                None => { return Err(DecodeError::SchemaMismatch) },
            };
            let sent: &Vec<Json> = match obj_lookup(entries, &sent_key) {
                Some(Json::Arr(sent)) => sent,
                Some(_) => { return Err(DecodeError::SchemaMismatch) },
                None => { return Err(DecodeError::SchemaMismatch) },
            };
            let saved_received: Vec<Message> = match decode_messages(received) {
                Ok(v) => v,
                Err(e) => { return Err(e) },
            };
            let saved_sent: Vec<Message> = match decode_messages(sent) {
                Ok(v) => v,
                Err(e) => { return Err(e) },
            };
            Ok(SnapchatData { saved_received, saved_sent })
        },
        _ => Err(DecodeError::SchemaMismatch),
    }
}

impl SnapchatData {
    /// Parse a chat log from an in-memory string: the whole document decodes
    /// to the aggregate, or the call fails atomically with the error of the
    /// first thing wrong with it.
    pub fn from_str(s: &str) -> (r: Result<SnapchatData, DecodeError>)
        ensures
            data_result_view(r) == spec_from_str(s@),
    {
        match parse_json(s) {
            None => Err(DecodeError::SyntaxError),
            Some(j) => decode_document(&j),
        }
    }

    /// Parse a chat log from a fully-read byte stream; the bytes must spell
    /// the same UTF-8 text `from_str` would take, and the result is the
    /// same.
    pub fn from_reader(bytes: &[u8]) -> (r: Result<SnapchatData, DecodeError>)
        ensures
            data_result_view(r) == spec_from_reader(bytes@),
    {
        match bytes_as_str(bytes) {
            None => Err(DecodeError::SyntaxError),
            Some(s) => Self::from_str(s),
        }
    }
}

/// Chronological order on messages: by creation instant alone.
pub open spec fn msg_le(a: MessageV, b: MessageV) -> bool {
    a.created_at().spec_le(b.created_at())
}

/// Sorted ascending by creation instant.
pub open spec fn sorted_msgs(s: Seq<MessageV>) -> bool {
    forall|i: int, j: int| 0 <= i < j < s.len() ==> msg_le(s[i], s[j])
}

/// Every message of the aggregate: the received history followed by the
/// sent history.
pub open spec fn all_messages(d: SnapchatDataV) -> Seq<MessageV> {
    d.saved_received + d.saved_sent
}

/// Membership in the chat with `user`: the message's counterpart is exactly
/// `user` (case-sensitive, no trimming).
pub open spec fn chat_with(user: Seq<char>) -> spec_fn(MessageV) -> bool {
    |m: MessageV| m.recipient() == user
}

/// The messages of the chat with `user`, in history order.
pub open spec fn spec_user_chats(d: SnapchatDataV, user: Seq<char>) -> Seq<MessageV> {
    all_messages(d).filter(chat_with(user))
}

/// The counterpart usernames of a message sequence, message by message.
pub open spec fn recipients_of(s: Seq<MessageV>) -> Seq<Seq<char>> {
    s.map_values(|m: MessageV| m.recipient())
}

/// The set of all counterpart usernames of the aggregate.
pub open spec fn spec_user_list(d: SnapchatDataV) -> Set<Seq<char>> {
    recipients_of(all_messages(d)).to_set()
}

/// The string values of a username sequence.
pub open spec fn strings_of(v: Seq<String>) -> Seq<Seq<char>> {
    v.map_values(|s: String| s@)
}

/// Insert a message into a chronologically sorted vector, keeping it
/// sorted; the messages are not otherwise disturbed.
fn insert_sorted(out: &mut Vec<Message>, m: Message)
    requires
        sorted_msgs(views_of(old(out)@)),
    ensures
        sorted_msgs(views_of(final(out)@)),
        views_of(final(out)@).to_multiset() == views_of(old(out)@).to_multiset().insert(m@),
{
    let mut i: usize = 0;
    while i < out.len() && out[i].created_at().le(&m.created_at())
        invariant
            0 <= i <= out@.len(),
            *out == *old(out),
            forall|k: int| 0 <= k < i ==> msg_le(#[trigger] views_of(out@)[k], m@),
        decreases out@.len() - i,
    {
        proof {
            assert(views_of(out@)[i as int] == out@[i as int]@);
        }
        i = i + 1;
    }
    proof {
        let vs = views_of(out@);
        if i < out@.len() {
            assert(vs[i as int] == out@[i as int]@);
            crate::timestamp::lemma_le_total(out@[i as int]@.created_at(), m@.created_at());
            assert(msg_le(m@, vs[i as int]));
        }
    }
    out.insert(i, m);
    proof {
        let vs = views_of(old(out)@);
        let vs2 = views_of(out@);
        assert(vs2 =~= vs.insert(i as int, m@));
        vs.insert_ensures(i as int, m@);
        assert forall|a: int, b: int| 0 <= a < b < vs2.len() implies msg_le(vs2[a], vs2[b]) by {
            if a < i && b == i {
            } else if a == i && b == i + 1 {
                assert(vs2[b] == vs[i as int]);
            } else if a == i && b > i + 1 {
                assert(msg_le(vs[i as int], vs[b - 1]));
                crate::timestamp::lemma_le_trans(
                    m@.created_at(),
                    vs[i as int].created_at(),
                    vs[b - 1].created_at(),
                );
            } else if a < i && b > i {
                assert(msg_le(vs[a], vs[b - 1]));
            }
        }
        vstd::seq_lib::to_multiset_insert(vs, i as int, m@);
    }
}

/// Merge into `out` every message of `src` whose counterpart is `user`,
/// keeping `out` chronologically sorted.
fn insert_matching(out: &mut Vec<Message>, src: &Vec<Message>, user: &String)
    requires
        sorted_msgs(views_of(old(out)@)),
    ensures
        sorted_msgs(views_of(final(out)@)),
        views_of(final(out)@).to_multiset() == views_of(old(out)@).to_multiset().add(
            views_of(src@).filter(chat_with(user@)).to_multiset(),
        ),
{
    let ghost vs = views_of(src@);
    let ghost m0 = views_of(old(out)@).to_multiset();
    proof {
        assert(vs.take(0) =~= Seq::<MessageV>::empty());
        broadcast use Seq::to_multiset_ensures;

        vstd::multiset::lemma_multiset_empty_len(
            Seq::<MessageV>::empty().filter(chat_with(user@)).to_multiset(),
        );
        Seq::<MessageV>::empty().lemma_filter_len(chat_with(user@));
        assert(m0.add(vs.take(0).filter(chat_with(user@)).to_multiset()) =~= m0);
    }
    let mut i: usize = 0;
    while i < src.len()
        invariant
            0 <= i <= src@.len(),
            vs == views_of(src@),
            m0 == views_of(old(out)@).to_multiset(),
            sorted_msgs(views_of(out@)),
            views_of(out@).to_multiset() == m0.add(
                vs.take(i as int).filter(chat_with(user@)).to_multiset(),
            ),
        decreases src@.len() - i,
    {
        proof {
            assert(vs[i as int] == src@[i as int]@);
            assert(vs.take(i as int + 1) =~= vs.take(i as int).push(vs[i as int]));
            lemma_filter_push(vs.take(i as int), vs[i as int], chat_with(user@));
        }
        let m_ref = &src[i];
        let name = m_ref.recipient();
        if name == *user {
            proof {
                assert(vs[i as int].recipient() == user@);
                assert(chat_with(user@)(vs[i as int]));
            }
            insert_sorted(out, m_ref.duplicate());
            proof {
                let taken = vs.take(i as int).filter(chat_with(user@));
                assert(vs.take(i as int + 1).filter(chat_with(user@)) == taken.push(
                    vs[i as int],
                ));
                vstd::seq_lib::to_multiset_build(taken, vs[i as int]);
                assert(views_of(out@).to_multiset() =~= m0.add(
                    vs.take(i as int + 1).filter(chat_with(user@)).to_multiset(),
                ));
            }
        } else {
            proof {
                assert(vs[i as int].recipient() != user@);
                assert(!chat_with(user@)(vs[i as int]));
            }
        }
        i = i + 1;
    }
    proof {
        assert(vs.take(src@.len() as int) =~= vs);
    }
}

proof fn lemma_filter_push<A>(s: Seq<A>, a: A, p: spec_fn(A) -> bool)
    ensures
        s.push(a).filter(p) == (if p(a) {
            s.filter(p).push(a)
        } else {
            s.filter(p)
        }),
{
    reveal_with_fuel(Seq::filter, 2);
    assert(s.push(a).drop_last() =~= s);
    assert(s.push(a).last() == a);
}

impl SnapchatData {
    /// All messages of the chat with `user`, from both histories, sorted
    /// ascending by creation instant: exactly the messages (with their
    /// multiplicity) whose counterpart is `user`, in some chronological
    /// order.
    pub fn get_user_chats(self, user: &str) -> (r: Vec<Message>)
        ensures
            sorted_msgs(views_of(r@)),
            views_of(r@).to_multiset() == spec_user_chats(self@, user@).to_multiset(),
    {
        let user_s: String = user.to_owned();
        let mut out: Vec<Message> = Vec::new();
        proof {
            assert(views_of(out@) =~= Seq::<MessageV>::empty());
        }
        insert_matching(&mut out, &self.saved_received, &user_s);
        insert_matching(&mut out, &self.saved_sent, &user_s);
        proof {
            let p = chat_with(user@);
            let a = views_of(self.saved_received@);
            let b = views_of(self.saved_sent@);
            Seq::filter_distributes_over_add(a, b, p);
            vstd::seq_lib::lemma_multiset_commutative(a.filter(p), b.filter(p));
            broadcast use Seq::to_multiset_ensures;

            vstd::multiset::lemma_multiset_empty_len(
                Seq::<MessageV>::empty().to_multiset(),
            );
            assert(all_messages(self@) == a + b);
            assert(views_of(out@).to_multiset() =~= spec_user_chats(
                self@,
                user@,
            ).to_multiset());
        }
        out
    }
}

proof fn lemma_to_set_push<A>(s: Seq<A>, a: A)
    ensures
        s.push(a).to_set() == s.to_set().insert(a),
{
    broadcast use vstd::set::group_set_axioms;

    assert forall|x: A| s.push(a).to_set().contains(x) implies s.to_set().insert(a).contains(
        x,
    ) by {
        let k = choose|k: int| 0 <= k < s.push(a).len() && s.push(a)[k] == x;
        if k < s.len() {
            assert(s[k] == x);
        }
    }
    assert forall|x: A| s.to_set().insert(a).contains(x) implies s.push(a).to_set().contains(
        x,
    ) by {
        if s.to_set().contains(x) {
            let k = choose|k: int| 0 <= k < s.len() && s[k] == x;
            assert(s.push(a)[k] == x);
        } else {
            assert(s.push(a)[s.len() as int] == x);
        }
    }
    assert(s.push(a).to_set() =~= s.to_set().insert(a));
}

proof fn lemma_to_set_add<A>(s: Seq<A>, t: Seq<A>)
    ensures
        (s + t).to_set() == s.to_set().union(t.to_set()),
{
    broadcast use vstd::set::group_set_axioms;

    assert forall|x: A| (s + t).to_set().contains(x) implies s.to_set().union(
        t.to_set(),
    ).contains(x) by {
        let k = choose|k: int| 0 <= k < (s + t).len() && (s + t)[k] == x;
        if k < s.len() {
            assert(s[k] == x);
        } else {
            assert(t[k - s.len()] == x);
        }
    }
    assert forall|x: A| s.to_set().union(t.to_set()).contains(x) implies (s + t).to_set().contains(
        x,
    ) by {
        if s.to_set().contains(x) {
            let k = choose|k: int| 0 <= k < s.len() && s[k] == x;
            assert((s + t)[k] == x);
        } else {
            let k = choose|k: int| 0 <= k < t.len() && t[k] == x;
            assert((s + t)[k + s.len()] == x);
        }
    }
    assert((s + t).to_set() =~= s.to_set().union(t.to_set()));
}

/// `v` holds a string spelling `s`.
fn contains_string(v: &Vec<String>, s: &String) -> (r: bool)
    ensures
        r == strings_of(v@).contains(s@),
{
    let mut i: usize = 0;
    while i < v.len()
        invariant
            0 <= i <= v@.len(),
            forall|k: int| 0 <= k < i ==> #[trigger] strings_of(v@)[k] != s@,
        decreases v@.len() - i,
    {
        proof {
            assert(strings_of(v@)[i as int] == v@[i as int]@);
        }
        if v[i] == *s {
            proof {
                assert(strings_of(v@)[i as int] == s@);
            }
            return true;
        }
        i = i + 1;
    }
    proof {
        if strings_of(v@).contains(s@) {
            let k = choose|k: int|
                0 <= k < strings_of(v@).len() && strings_of(v@)[k] == s@;
            assert(false);
        }
    }
    false
}

/// Add to `users` the counterpart of every message of `src` that is not
/// there yet; no duplicate is ever added, and at most one entry comes from
/// each message.
fn add_recipients(users: &mut Vec<String>, src: &Vec<Message>)
    requires
        forall|a: int, b: int|
            0 <= a < b < old(users)@.len() ==> old(users)@[a]@ != old(users)@[b]@,
    ensures
        strings_of(final(users)@).to_set() == strings_of(old(users)@).to_set().union(
            recipients_of(views_of(src@)).to_set(),
        ),
        forall|a: int, b: int|
            0 <= a < b < final(users)@.len() ==> final(users)@[a]@ != final(users)@[b]@,
        final(users)@.len() <= old(users)@.len() + src@.len(),
{
    let ghost rs = recipients_of(views_of(src@));
    let ghost s0 = strings_of(old(users)@).to_set();
    proof {
        broadcast use vstd::set::group_set_axioms;

        assert(rs.take(0) =~= Seq::<Seq<char>>::empty());
        if exists|x: Seq<char>| rs.take(0).to_set().contains(x) {
            let x = choose|x: Seq<char>| rs.take(0).to_set().contains(x);
            let k = choose|k: int| 0 <= k < rs.take(0).len() && rs.take(0)[k] == x;
        }
        assert(s0.union(rs.take(0).to_set()) =~= s0);
    }
    let mut i: usize = 0;
    while i < src.len()
        invariant
            0 <= i <= src@.len(),
            rs == recipients_of(views_of(src@)),
            s0 == strings_of(old(users)@).to_set(),
            strings_of(users@).to_set() == s0.union(rs.take(i as int).to_set()),
            forall|a: int, b: int| 0 <= a < b < users@.len() ==> users@[a]@ != users@[b]@,
            users@.len() <= old(users)@.len() + i,
        decreases src@.len() - i,
    {
        proof {
            broadcast use vstd::set::group_set_axioms;

            assert(rs[i as int] == src@[i as int]@.recipient());
            assert(rs.take(i as int + 1) =~= rs.take(i as int).push(rs[i as int]));
            lemma_to_set_push(rs.take(i as int), rs[i as int]);
        }
        let name = src[i].recipient();
        if !contains_string(users, &name) {
            let ghost before = users@;
            users.push(name);
            proof {
                broadcast use vstd::set::group_set_axioms;

                assert(users@ == before.push(name));
                assert(strings_of(users@) =~= strings_of(before).push(name@));
                lemma_to_set_push(strings_of(before), name@);
                assert forall|a: int, b: int|
                    0 <= a < b < users@.len() implies users@[a]@ != users@[b]@ by {
                    if b == users@.len() - 1 {
                        assert(strings_of(before)[a] == before[a]@);
                    }
                }
                assert(strings_of(users@).to_set() =~= s0.union(rs.take(i as int + 1).to_set()));
            }
        } else {
            proof {
                broadcast use vstd::set::group_set_axioms;

                assert(strings_of(users@).to_set() =~= s0.union(rs.take(i as int + 1).to_set()));
            }
        }
        i = i + 1;
    }
    proof {
        assert(rs.take(src@.len() as int) =~= rs);
    }
}

impl SnapchatData {
    /// Every counterpart username of the log, each exactly once: the set
    /// union of the counterparts of the received and the sent history, with
    /// no duplicates and at most one entry per message, whatever repeats the
    /// input held.
    pub fn get_user_list(&self) -> (r: Vec<String>)
        ensures
            strings_of(r@).to_set() == spec_user_list(self@),
            forall|a: int, b: int| 0 <= a < b < r@.len() ==> r@[a]@ != r@[b]@,
            r@.len() <= self.saved_received@.len() + self.saved_sent@.len(),
    {
        let mut users: Vec<String> = Vec::new();
        proof {
            broadcast use vstd::set::group_set_axioms;

            assert(strings_of(users@) =~= Seq::<Seq<char>>::empty());
        }
        add_recipients(&mut users, &self.saved_received);
        add_recipients(&mut users, &self.saved_sent);
        proof {
            broadcast use vstd::set::group_set_axioms;

            let a = views_of(self.saved_received@);
            let b = views_of(self.saved_sent@);
            assert(recipients_of(a + b) =~= recipients_of(a) + recipients_of(b));
            lemma_to_set_add(recipients_of(a), recipients_of(b));
            if exists|x: Seq<char>| strings_of(Seq::<String>::empty()).to_set().contains(x) {
                let x = choose|x: Seq<char>|
                    strings_of(Seq::<String>::empty()).to_set().contains(x);
                let k = choose|k: int|
                    0 <= k < strings_of(Seq::<String>::empty()).len() && strings_of(
                        Seq::<String>::empty(),
                    )[k] == x;
            }
            assert(strings_of(users@).to_set() =~= spec_user_list(self@));
        }
        users
    }
}

/// Law: the user list is exactly a set union. The counterpart usernames of
/// an aggregate are the union of those of its received history and those of
/// its sent history.
pub proof fn lemma_user_list_is_union(d: SnapchatDataV)
    ensures
        spec_user_list(d) == recipients_of(d.saved_received).to_set().union(
            recipients_of(d.saved_sent).to_set(),
        ),
{
    assert(recipients_of(d.saved_received + d.saved_sent) =~= recipients_of(d.saved_received)
        + recipients_of(d.saved_sent));
    lemma_to_set_add(recipients_of(d.saved_received), recipients_of(d.saved_sent));
}

/// Law: the two parsing entry points agree. On every byte stream that
/// spells a text (is valid UTF-8), parsing the stream and parsing the
/// spelled text give identical results.
pub proof fn lemma_from_reader_agrees_with_from_str(bytes: Seq<u8>)
    requires
        vstd::utf8::valid_utf8(bytes),
    ensures
        spec_from_reader(bytes) == spec_from_str(vstd::utf8::decode_utf8(bytes)),
{
}

} // verus!
