//! The two events that travel over the wire, and their JSON text.
//!
//! The text of an event is a JSON object whose member `event` names the
//! variant:
//!
//! ```text
//! {"event":"update-users","usernames":["alice","bob"]}
//! {"event":"send-message","username":"alice","message":"hi"}
//! ```

use vstd::prelude::*;
use vstd::string::*;
use crate::json::{as_items, as_text, json_parsed, json_quoted, member, parse, quote, tree_member, value_tree, JsonTree};

verus! {

/// An event as it is exchanged with the clients.
#[derive(Debug, PartialEq, Eq)]
pub enum Event {
    /// The names that are connected now.
    UpdateUsers { usernames: Vec<String> },
    /// A message that `username` sent.
    SendMessage { username: String, message: String },
}

/// What an [`Event`] says, as a mathematical value.
pub enum EventModel {
    UpdateUsers { usernames: Seq<Seq<char>> },
    SendMessage { username: Seq<char>, message: Seq<char> },
}

impl View for Event {
    type V = EventModel;

    open spec fn view(&self) -> EventModel {
        match self {
            Event::UpdateUsers { usernames } => EventModel::UpdateUsers {
                usernames: usernames.deep_view(),
            },
            Event::SendMessage { username, message } => EventModel::SendMessage {
                username: username@,
                message: message@,
            },
        }
    }
}

/// Why a payload is no event.
#[derive(Debug, Clone, Copy, PartialEq, Eq)]
pub enum DecodeError {
    /// The payload is not text.
    NotText,
    /// The text is not JSON.
    Malformed,
    /// The document has no string member `event` that names a variant.
    UnknownEvent,
    /// The variant is known, but one of its members is missing or of the
    /// wrong kind.
    InvalidFields,
}

/// What a frame of the transport carries, as far as the relay reads it.
#[derive(Debug, PartialEq, Eq)]
pub enum Payload {
    Text(String),
    NonText,
}

/// What a [`Payload`] carries, as a mathematical value.
pub enum PayloadModel {
    Text(Seq<char>),
    NonText,
}

impl View for Payload {
    type V = PayloadModel;

    open spec fn view(&self) -> PayloadModel {
        match self {
            Payload::Text(text) => PayloadModel::Text(text@),
            Payload::NonText => PayloadModel::NonText,
        }
    }
}

/// The JSON literals of `names`, separated by commas.
pub open spec fn quoted_list(names: Seq<Seq<char>>) -> Seq<char>
    decreases names.len(),
{
    if names.len() == 0 {
        Seq::empty()
    } else {
        quoted_list(names.drop_last()) + (if names.len() > 1 {
            ","@
        } else {
            Seq::empty()
        }) + json_quoted(names.last())
    }
}

/// The text of an event, character for character.
pub open spec fn encoded(event: EventModel) -> Seq<char> {
    match event {
        EventModel::UpdateUsers { usernames } => "{\"event\":\"update-users\",\"usernames\":["@
            + quoted_list(usernames) + "]}"@,
        EventModel::SendMessage { username, message } =>
            "{\"event\":\"send-message\",\"username\":"@ + json_quoted(username)
            + ",\"message\":"@ + json_quoted(message) + "}"@,
    }
}

/// Whether every element of `items` is a string.
pub open spec fn all_text(items: Seq<JsonTree>) -> bool {
    forall|i: int| 0 <= i < items.len() ==> #[trigger] items[i] is Text
}

/// The strings that `items` holds, in order.
pub open spec fn texts(items: Seq<JsonTree>) -> Seq<Seq<char>> {
    Seq::new(items.len(), |i: int| items[i]->Text_0)
}

/// The event that a JSON document stands for. Members that the variant does
/// not name are ignored.
pub open spec fn event_of_tree(tree: JsonTree) -> Result<EventModel, DecodeError> {
    match tree_member(tree, "event"@) {
        Some(JsonTree::Text(tag)) => if tag == "update-users"@ {
            match tree_member(tree, "usernames"@) {
                Some(JsonTree::Array(items)) => if all_text(items) {
                    Ok(EventModel::UpdateUsers { usernames: texts(items) })
                } else {
                    Err(DecodeError::InvalidFields)
                },
                _ => Err(DecodeError::InvalidFields),
            }
        } else if tag == "send-message"@ {
            match (tree_member(tree, "username"@), tree_member(tree, "message"@)) {
                (Some(JsonTree::Text(username)), Some(JsonTree::Text(message))) => Ok(
                    EventModel::SendMessage { username, message },
                ),
                _ => Err(DecodeError::InvalidFields),
            }
        } else {
            Err(DecodeError::UnknownEvent)
        },
        _ => Err(DecodeError::UnknownEvent),
    }
}

/// The event that a text stands for.
pub open spec fn decoded(text: Seq<char>) -> Result<EventModel, DecodeError> {
    match json_parsed(text) {
        Some(tree) => event_of_tree(tree),
        None => Err(DecodeError::Malformed),
    }
}

/// The event that a payload stands for.
pub open spec fn decoded_payload(payload: PayloadModel) -> Result<EventModel, DecodeError> {
    match payload {
        PayloadModel::Text(text) => decoded(text),
        PayloadModel::NonText => Err(DecodeError::NotText),
    }
}

/// The JSON document that an event stands for: an object with the member
/// `event` and the members of the variant.
pub open spec fn event_tree(event: EventModel) -> JsonTree {
    match event {
        EventModel::UpdateUsers { usernames } => JsonTree::Object(
            map![
                "event"@ => JsonTree::Text("update-users"@),
                "usernames"@ => JsonTree::Array(
                    Seq::new(usernames.len(), |i: int| JsonTree::Text(usernames[i])),
                ),
            ],
        ),
        EventModel::SendMessage { username, message } => JsonTree::Object(
            map![
                "event"@ => JsonTree::Text("send-message"@),
                "username"@ => JsonTree::Text(username),
                "message"@ => JsonTree::Text(message),
            ],
        ),
    }
}

/// The outcome of a decoding, with the event taken by its view.
pub open spec fn outcome_view(r: Result<Event, DecodeError>) -> Result<EventModel, DecodeError> {
    match r {
        Ok(event) => Ok(event@),
        Err(e) => Err(e),
    }
}

/// The JSON literal of `s`.
fn quoted(s: &str) -> (text: String)
    ensures
        text@ == json_quoted(s@),
{
    match quote(s) {
        Ok(text) => text,
        // Writing a string does not fail.
        Err(_) => String::new(),
    }
}

/// Writes an event as text.
pub fn encode(event: &Event) -> (text: String)
    ensures
        text@ == encoded(event@),
{
    match event {
        Event::UpdateUsers { usernames } => {
            let mut text = String::from_str("{\"event\":\"update-users\",\"usernames\":[");
            let ghost head = text@;
            let ghost names = usernames.deep_view();
            let mut i: usize = 0;
            while i < usernames.len()
                invariant
                    i <= usernames.len(),
                    names == usernames.deep_view(),
                    text@ == head + quoted_list(names.take(i as int)),
                decreases usernames.len() - i,
            {
                if i > 0 {
                    text.append(",");
                }
                let literal = quoted(usernames[i].as_str());
                text.append(literal.as_str());
                proof {
                    let next = names.take(i + 1);
                    assert(next.drop_last() == names.take(i as int));
                    assert(next.last() == usernames[i as int]@);
                }
                i += 1;
            }
            proof {
                assert(names.take(i as int) == names);
            }
            text.append("]}");
            text
        },
        Event::SendMessage { username, message } => {
            let mut text = String::from_str("{\"event\":\"send-message\",\"username\":");
            let name = quoted(username.as_str());
            text.append(name.as_str());
            text.append(",\"message\":");
            let body = quoted(message.as_str());
            text.append(body.as_str());
            text.append("}");
            text
        },
    }
}

/// Whether two texts are the same.
fn same_text(a: &str, b: &str) -> (same: bool)
    ensures
        same == (a@ == b@),
{
    let left = a.to_owned();
    let right = b.to_owned();
    left == right
}

/// The strings of a JSON array, or `None` where an element is no string.
fn collect_texts(items: &Vec<serde_json::Value>) -> (r: Option<Vec<String>>)
    ensures
        ({
            let trees = items@.map_values(|item: serde_json::Value| value_tree(item));
            match r {
                Some(list) => all_text(trees) && list.deep_view() == texts(trees),
                None => !all_text(trees),
            }
        }),
{
    let ghost trees = items@.map_values(|item: serde_json::Value| value_tree(item));
    let mut list: Vec<String> = Vec::new();
    let mut i: usize = 0;
    while i < items.len()
        invariant
            i <= items.len(),
            trees == items@.map_values(|item: serde_json::Value| value_tree(item)),
            list.len() == i,
            forall|k: int| 0 <= k < i ==> #[trigger] trees[k] == JsonTree::Text(list[k]@),
        decreases items.len() - i,
    {
        match as_text(&items[i]) {
            Some(s) => {
                list.push(s.to_owned());
            },
            None => {
                assert(!(trees[i as int] is Text));
                return None;
            },
        }
        i += 1;
    }
    proof {
        assert(list.deep_view() =~= texts(trees));
    }
    Some(list)
}

/// Reads an event from a parsed JSON document.
pub fn event_from_value(value: &serde_json::Value) -> (r: Result<Event, DecodeError>)
    ensures
        outcome_view(r) == event_of_tree(value_tree(*value)),
{
    let tag = match member(value, "event") {
        Some(found) => match as_text(found) {
            Some(tag) => tag,
            None => {
                return Err(DecodeError::UnknownEvent);
            },
        },
        None => {
            return Err(DecodeError::UnknownEvent);
        },
    };
    if same_text(tag, "update-users") {
        match member(value, "usernames") {
            Some(found) => match as_items(found) {
                Some(items) => match collect_texts(items) {
                    Some(usernames) => Ok(Event::UpdateUsers { usernames }),
                    None => Err(DecodeError::InvalidFields),
                },
                None => Err(DecodeError::InvalidFields),
            },
            None => Err(DecodeError::InvalidFields),
        }
    } else if same_text(tag, "send-message") {
        let username = match member(value, "username") {
            Some(found) => match as_text(found) {
                Some(s) => s.to_owned(),
                None => {
                    return Err(DecodeError::InvalidFields);
                },
            },
            None => {
                return Err(DecodeError::InvalidFields);
            },
        };
        match member(value, "message") {
            Some(found) => match as_text(found) {
                Some(s) => Ok(Event::SendMessage { username, message: s.to_owned() }),
                None => Err(DecodeError::InvalidFields),
            },
            None => Err(DecodeError::InvalidFields),
        }
    } else {
        Err(DecodeError::UnknownEvent)
    }
}

/// Reads an event from its text.
pub fn decode(text: &str) -> (r: Result<Event, DecodeError>)
    ensures
        outcome_view(r) == decoded(text@),
{
    match parse(text) {
        Ok(value) => event_from_value(&value),
        Err(_) => Err(DecodeError::Malformed),
    }
}

/// Reads an event from a payload of the transport.
pub fn decode_payload(payload: &Payload) -> (r: Result<Event, DecodeError>)
    ensures
        outcome_view(r) == decoded_payload(payload@),
{
    match payload {
        Payload::Text(text) => decode(text.as_str()),
        Payload::NonText => Err(DecodeError::NotText),
    }
}

/// The words of the wire format differ from one another.
proof fn lemma_words_differ()
    ensures
        "event"@ != "usernames"@,
        "event"@ != "username"@,
        "event"@ != "message"@,
        "username"@ != "message"@,
        "update-users"@ != "send-message"@,
{
    reveal_strlit("event");
    reveal_strlit("usernames");
    reveal_strlit("username");
    reveal_strlit("message");
    reveal_strlit("update-users");
    reveal_strlit("send-message");
    assert("event"@.len() == 5);
    assert("usernames"@.len() == 9);
    assert("username"@.len() == 8);
    assert("message"@.len() == 7);
    assert("update-users"@[0] == 'u');
    assert("send-message"@[0] == 's');
}

/// Reading undoes writing, as far as this crate decides it: the document that
/// an event stands for is read back as that event.
pub proof fn law_document_round_trip(event: EventModel)
    ensures
        event_of_tree(event_tree(event)) == Ok::<EventModel, DecodeError>(event),
{
    lemma_words_differ();
    match event {
        EventModel::UpdateUsers { usernames } => {
            let items = Seq::new(usernames.len(), |i: int| JsonTree::Text(usernames[i]));
            assert(tree_member(event_tree(event), "usernames"@) == Some(JsonTree::Array(items)));
            assert(all_text(items));
            assert(texts(items) =~= usernames);
        },
        EventModel::SendMessage { username, message } => {},
    }
}

/// Reading undoes writing: where the JSON reader takes the text of an event
/// for the document that the event stands for, `decode` gives the event back.
/// That the reader does so is a fact about `serde_json` and is not proved
/// here.
pub proof fn law_round_trip(event: EventModel)
    ensures
        json_parsed(encoded(event)) == Some(event_tree(event)) ==> decoded(encoded(event)) == Ok::<
            EventModel,
            DecodeError,
        >(event),
{
    law_document_round_trip(event);
}

/// What is no event is rejected: a payload that is not text, a text that is
/// not JSON, and a document whose member `event` is missing, is no string, or
/// names no variant.
pub proof fn law_malformed_is_rejected(text: Seq<char>, tree: JsonTree)
    ensures
        decoded_payload(PayloadModel::NonText) == Err::<EventModel, DecodeError>(
            DecodeError::NotText,
        ),
        json_parsed(text) is None ==> decoded(text) == Err::<EventModel, DecodeError>(
            DecodeError::Malformed,
        ),
        !(tree_member(tree, "event"@) matches Some(JsonTree::Text(tag)) && (tag == "update-users"@
            || tag == "send-message"@)) ==> event_of_tree(tree) == Err::<EventModel, DecodeError>(
            DecodeError::UnknownEvent,
        ),
        json_parsed(text) == Some(tree) ==> decoded(text) == event_of_tree(tree),
{
}

} // verus!
