//! The JSON text that Vector reads back: an object with one member per
//! secret name, each holding the secret's value and error.

use crate::vector::{text_of, texts, FetchedSecret, FetchedSecrets, Outcome};
use vstd::prelude::*;
use vstd::string::StringExecFns;

verus! {

/// `serde_json::Error`, known by name only: nothing is said of what it
/// holds.
#[verifier::external_type_specification]
#[verifier::external_body]
pub struct ExJsonError(serde_json::Error);

/// The JSON string literal that stands for `text`: the text between double
/// quotes, with the characters escaped that JSON asks to escape.
pub uninterp spec fn json_string(text: Seq<char>) -> Seq<char>;

/// `serde_json::to_string`, called on a string slice. Trusted, not proved:
/// the result is the JSON string literal for the text, and it is always
/// `Ok`, since that function fails only where the value's own serialiser
/// fails or a map has a key that is no string, and a string slice written
/// into memory has neither.
#[verifier::external_body]
fn to_json_string(text: &str) -> (literal: Result<String, serde_json::Error>)
    ensures
        literal is Ok,
        literal->Ok_0@ == json_string(text@),
{
    serde_json::to_string(text)
}

/// The literal if there is one, else `null`.
pub open spec fn or_null(literal: Option<Seq<char>>) -> Seq<char> {
    match literal {
        Some(literal) => literal,
        None => "null"@,
    }
}

/// The JSON object for one secret, given the literals of its value and error.
pub open spec fn framed_secret(value: Option<Seq<char>>, error: Option<Seq<char>>) -> Seq<char> {
    "{\"value\":"@ + or_null(value) + ",\"error\":"@ + or_null(error) + "}"@
}

/// The first `count` members of an object, separated by commas: each is a
/// name's literal, a colon and the member's text.
pub open spec fn framed_members(names: Seq<Seq<char>>, members: Seq<Seq<char>>, count: nat) -> Seq<
    char,
>
    decreases count,
{
    if count == 0 {
        Seq::empty()
    } else if count == 1 {
        names[0] + ":"@ + members[0]
    } else {
        framed_members(names, members, (count - 1) as nat) + ","@ + names[count - 1] + ":"@
            + members[count - 1]
    }
}

/// The JSON object whose members are the names that have a member text at
/// the same position, in order.
pub open spec fn framed_object(names: Seq<Seq<char>>, members: Seq<Seq<char>>) -> Seq<char> {
    let count = if names.len() <= members.len() {
        names.len()
    } else {
        members.len()
    };
    "{"@ + framed_members(names, members, count) + "}"@
}

/// The JSON text of one outcome.
pub open spec fn json_secret(outcome: Outcome) -> Seq<char> {
    framed_secret(
        match outcome.value {
            Some(value) => Some(json_string(value)),
            None => None,
        },
        match outcome.error {
            Some(error) => Some(json_string(error)),
            None => None,
        },
    )
}

/// The JSON text of a table whose names are listed in `order`.
pub open spec fn json_object(order: Seq<Seq<char>>, table: Map<Seq<char>, Outcome>) -> Seq<char> {
    framed_object(
        order.map_values(|name: Seq<char>| json_string(name)),
        order.map_values(|name: Seq<char>| json_secret(table[name])),
    )
}

/// Writes the literal, or `null` where there is none, at the end of `text`.
fn append_or_null(text: &mut String, literal: &Option<String>)
    ensures
        final(text)@ == old(text)@ + or_null(text_of(*literal)),
{
    match literal {
        Some(literal) => text.append(literal.as_str()),
        None => text.append("null"),
    }
}

/// Frames the JSON object for one secret from the JSON literals of its
/// value and of its error; `null` stands for a literal that is absent.
pub fn frame_secret(value: &Option<String>, error: &Option<String>) -> (text: String)
    ensures
        text@ == framed_secret(text_of(*value), text_of(*error)),
{
    let mut text = String::from_str("{\"value\":");
    append_or_null(&mut text, value);
    text.append(",\"error\":");
    append_or_null(&mut text, error);
    text.append("}");
    text
}

/// Frames a JSON object from the JSON literals of its names and the JSON
/// texts of its members, pairing them by position.
pub fn frame_object(names: &Vec<String>, members: &Vec<String>) -> (text: String)
    ensures
        text@ == framed_object(texts(names@), texts(members@)),
{
    let count = if names.len() <= members.len() {
        names.len()
    } else {
        members.len()
    };
    let mut text = String::from_str("{");
    let mut i: usize = 0;
    while i < count
        invariant
            i <= count,
            count <= names.len(),
            count <= members.len(),
            text@ == "{"@ + framed_members(texts(names@), texts(members@), i as nat),
        decreases count - i,
    {
        let ghost before = text@;
        if i > 0 {
            text.append(",");
        }
        text.append(names[i].as_str());
        text.append(":");
        text.append(members[i].as_str());
        i += 1;
        assert(text@ =~= "{"@ + framed_members(texts(names@), texts(members@), i as nat));
    }
    text.append("}");
    text
}

impl FetchedSecret {
    /// The JSON object for this outcome: its value and its error, each a
    /// string or `null`.
    pub fn to_json(&self) -> (text: String)
        ensures
            text@ == json_secret(self@),
    {
        let value = match &self.value {
            Some(value) => Some(to_json_string(value.as_str()).unwrap()),
            None => None,
        };
        let error = match &self.error {
            Some(error) => Some(to_json_string(error.as_str()).unwrap()),
            None => None,
        };
        frame_secret(&value, &error)
    }
}

impl FetchedSecrets {
    /// The JSON object that reports this table: one member per name, in the
    /// order in which the names were first inserted.
    pub fn to_json(&self) -> (text: String)
        ensures
            text@ == json_object(self.order(), self@),
    {
        let names = self.names();
        let mut literals: Vec<String> = Vec::new();
        let mut members: Vec<String> = Vec::new();
        let mut i: usize = 0;
        while i < names.len()
            invariant
                i <= names.len(),
                texts(names@) == self.order(),
                self.order().to_set() == self@.dom(),
                literals.len() == i,
                members.len() == i,
                forall|j: int|
                    0 <= j < i ==> (#[trigger] literals@[j])@ == json_string(self.order()[j]),
                forall|j: int|
                    0 <= j < i ==> (#[trigger] members@[j])@ == json_secret(
                        self@[self.order()[j]],
                    ),
            decreases names.len() - i,
        {
            let name = names[i].as_str();
            assert(self.order()[i as int] == name@);
            assert(self.order().to_set().contains(name@));
            literals.push(to_json_string(name).unwrap());
            let secret = self.get(name);
            assert(secret is Some);
            members.push(secret.unwrap().to_json());
            i += 1;
        }
        assert(texts(literals@) =~= self.order().map_values(|name: Seq<char>| json_string(name)));
        assert(texts(members@) =~= self.order().map_values(
            |name: Seq<char>| json_secret(self@[name]),
        ));
        frame_object(&literals, &members)
    }
}

} // verus!
