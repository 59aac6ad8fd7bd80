//! Flat JSON objects: written from named members, read for their string members.

use vstd::prelude::*;

verus! {

/// The value of one member of a flat JSON object.
#[derive(Debug)]
pub enum Member {
    Text(String),
    Flag(bool),
    Null,
}

/// `Member` with its text as a character sequence.
pub enum MemberView {
    Text(Seq<char>),
    Flag(bool),
    Null,
}

impl View for Member {
    type V = MemberView;

    open spec fn view(&self) -> MemberView {
        match *self {
            Member::Text(text) => MemberView::Text(text@),
            Member::Flag(flag) => MemberView::Flag(flag),
            Member::Null => MemberView::Null,
        }
    }
}

/// Named members, with their texts as character sequences.
pub open spec fn members_view(members: Seq<(String, Member)>) -> Seq<(Seq<char>, MemberView)> {
    members.map_values(|m: (String, Member)| (m.0@, m.1@))
}

/// The string members of a flat object. Where a name is given twice, the later one counts.
pub open spec fn text_members(members: Seq<(Seq<char>, MemberView)>) -> Map<Seq<char>, Seq<char>>
    decreases members.len(),
{
    if members.len() == 0 {
        Map::empty()
    } else {
        let rest = text_members(members.drop_last());
        match members.last().1 {
            MemberView::Text(text) => rest.insert(members.last().0, text),
            _ => rest.remove(members.last().0),
        }
    }
}

/// A JSON value of `serde_json`.
#[verifier::external_type_specification]
#[verifier::external_body]
pub struct ExValue(serde_json::Value);

/// The string members of a JSON value that is an object; a value of another kind has none.
pub uninterp spec fn string_members(value: serde_json::Value) -> Map<Seq<char>, Seq<char>>;

/// The text that `serde_json` writes for a flat object.
pub uninterp spec fn object_text(members: Seq<(Seq<char>, MemberView)>) -> Seq<char>;

/// What `serde_json` reads in a JSON text: the string members, or its message.
pub uninterp spec fn json_read(text: Seq<char>) -> Result<Map<Seq<char>, Seq<char>>, Seq<char>>;

/// A reading that succeeded with the given string members.
pub open spec fn read_as(members: Map<Seq<char>, Seq<char>>) -> Result<
    Map<Seq<char>, Seq<char>>,
    Seq<char>,
> {
    Ok(members)
}

/// A reading that failed with the given message.
pub open spec fn unreadable(message: Seq<char>) -> Result<Map<Seq<char>, Seq<char>>, Seq<char>> {
    Err(message)
}

/// Writes a flat object with the `Display` of `serde_json::Value`. `serde_json` reads the
/// same string members back from the text.
#[verifier::external_body]
pub(crate) fn write_object(members: Vec<(String, Member)>) -> (r: String)
    ensures
        r@ == object_text(members_view(members@)),
        json_read(r@) == read_as(text_members(members_view(members@))),
{
    let object: serde_json::Map<String, serde_json::Value> = members
        .into_iter()
        .map(|(name, member)| match member {
            Member::Text(text) => (name, serde_json::Value::String(text)),
            Member::Flag(flag) => (name, serde_json::Value::Bool(flag)),
            Member::Null => (name, serde_json::Value::Null),
        })
        .collect();
    serde_json::Value::Object(object).to_string()
}

/// Reads a JSON text with `serde_json::from_str`; the error is the parser's message.
#[verifier::external_body]
pub(crate) fn read_json(text: &str) -> (r: Result<serde_json::Value, String>)
    ensures
        match r {
            Ok(value) => json_read(text@) == read_as(string_members(value)),
            Err(message) => json_read(text@) == unreadable(message@),
        },
{
    serde_json::from_str(text).map_err(|err| err.to_string())
}

/// Looks up a string member with `serde_json::Value::get` and `Value::as_str`.
#[verifier::external_body]
pub(crate) fn string_member<'a>(value: &'a serde_json::Value, name: &str) -> (r: Option<&'a str>)
    ensures
        match r {
            Some(text) => string_members(*value).contains_key(name@) && text@ == string_members(
                *value,
            )[name@],
            None => !string_members(*value).contains_key(name@),
        },
{
    value.get(name).and_then(serde_json::Value::as_str)
}

} // verus!
