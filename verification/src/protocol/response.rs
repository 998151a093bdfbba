//! Responses: the answers of a peer, and their form on the wire.
//!
//! On the wire a response is one JSON object:
//!
//! ```text
//! {"id": <u64>, "outcome": {"type": "OfGet", "value": <string|null>}}
//! {"id": <u64>, "outcome": {"type": "OfSet", "was_modified": <bool>}}
//! {"id": <u64>, "outcome": {"type": "Error", "msg": <string>}}
//! {"id": <u64>, "outcome": {"type": "Invalid", "msg": <string>}}
//! ```
//!
//! Reading is strict: a member that the schema does not name makes the whole
//! document invalid. Reading never fails: bytes that do not hold a response
//! are answered with an `Invalid` outcome under an id derived from the bytes.

use super::connection::delimiter_free;
use super::hasher::Hasher;
use super::json::{
    append, decimal, distinct_keys, find, find_foreign, foreign_key, has_duplicate, json_parse,
    json_string, lemma_object_view, member, members_view, parse, parsed_view, push_decimal, quote,
    same_text, utf8, Json, JsonView,
};
use vstd::prelude::*;
use vstd::utf8::{is_ascii_chars, is_ascii_chars_encode_utf8};

verus! {

/// The answer to one request.
#[derive(Eq, PartialEq, Debug, Hash)]
pub struct Response {
    pub id: u64,
    pub outcome: Outcome,
}

/// What became of a request.
#[derive(Eq, PartialEq, Debug, Hash)]
pub enum Outcome {
    /// The result of a read.
    OfGet { value: Option<String> },
    /// The result of a write.
    OfSet { was_modified: bool },
    /// The peer reported an error of its own.
    Error { msg: String },
    /// The bytes received held no response. Made here, never sent by a peer.
    Invalid { msg: String },
}

/// The mathematical value of an [`Outcome`].
pub enum OutcomeView {
    OfGet { value: Option<Seq<char>> },
    OfSet { was_modified: bool },
    Error { msg: Seq<char> },
    Invalid { msg: Seq<char> },
}

/// The mathematical value of a [`Response`].
pub struct ResponseView {
    pub id: u64,
    pub outcome: OutcomeView,
}

impl View for Outcome {
    type V = OutcomeView;

    open spec fn view(&self) -> OutcomeView {
        match self {
            Outcome::OfGet { value: Some(text) } => OutcomeView::OfGet { value: Some(text@) },
            Outcome::OfGet { value: None } => OutcomeView::OfGet { value: None },
            Outcome::OfSet { was_modified } => OutcomeView::OfSet { was_modified: *was_modified },
            Outcome::Error { msg } => OutcomeView::Error { msg: msg@ },
            Outcome::Invalid { msg } => OutcomeView::Invalid { msg: msg@ },
        }
    }
}

impl Clone for Outcome {
    fn clone(&self) -> (copy: Outcome)
        ensures
            copy@ == self@,
    {
        match self {
            Outcome::OfGet { value: Some(text) } => Outcome::OfGet { value: Some(text.clone()) },
            Outcome::OfGet { value: None } => Outcome::OfGet { value: None },
            Outcome::OfSet { was_modified } => Outcome::OfSet { was_modified: *was_modified },
            Outcome::Error { msg } => Outcome::Error { msg: msg.clone() },
            Outcome::Invalid { msg } => Outcome::Invalid { msg: msg.clone() },
        }
    }
}

impl Clone for Response {
    fn clone(&self) -> (copy: Response)
        ensures
            copy@ == self@,
    {
        Response { id: self.id, outcome: self.outcome.clone() }
    }
}

impl View for Response {
    type V = ResponseView;

    open spec fn view(&self) -> ResponseView {
        ResponseView { id: self.id, outcome: self.outcome@ }
    }
}

/// A member that the schema of a response names.
#[derive(Clone, Copy, Eq, PartialEq, Debug)]
pub enum Field {
    Id,
    Outcome,
    Type,
    Value,
    WasModified,
    Msg,
}

impl Field {
    /// The key of the member in the document.
    pub open spec fn name_spec(self) -> Seq<char> {
        match self {
            Field::Id => "id"@,
            Field::Outcome => "outcome"@,
            Field::Type => "type"@,
            Field::Value => "value"@,
            Field::WasModified => "was_modified"@,
            Field::Msg => "msg"@,
        }
    }

    /// The key of the member in the document.
    pub fn name(&self) -> (key: &'static str)
        ensures
            key@ == self.name_spec(),
    {
        match self {
            Field::Id => "id",
            Field::Outcome => "outcome",
            Field::Type => "type",
            Field::Value => "value",
            Field::WasModified => "was_modified",
            Field::Msg => "msg",
        }
    }
}

/// Why a JSON document is no response.
#[derive(Clone, Eq, PartialEq, Debug)]
pub enum SchemaError {
    /// The response, or its outcome, is not a JSON object.
    NotAnObject,
    /// The object has a member that the schema does not name; this is its key.
    UnknownField(String),
    /// Two members of the object share a key.
    DuplicateField,
    /// A member that the schema requires is absent.
    MissingField(Field),
    /// A member holds a value of another kind than the schema gives it.
    InvalidType(Field),
    /// The outcome's `type` names no variant; this is what it holds.
    UnknownVariant(String),
}

/// The mathematical value of a [`SchemaError`].
pub enum SchemaErrorView {
    NotAnObject,
    UnknownField(Seq<char>),
    DuplicateField,
    MissingField(Field),
    InvalidType(Field),
    UnknownVariant(Seq<char>),
}

impl View for SchemaError {
    type V = SchemaErrorView;

    open spec fn view(&self) -> SchemaErrorView {
        match self {
            SchemaError::NotAnObject => SchemaErrorView::NotAnObject,
            SchemaError::UnknownField(key) => SchemaErrorView::UnknownField(key@),
            SchemaError::DuplicateField => SchemaErrorView::DuplicateField,
            SchemaError::MissingField(field) => SchemaErrorView::MissingField(*field),
            SchemaError::InvalidType(field) => SchemaErrorView::InvalidType(*field),
            SchemaError::UnknownVariant(tag) => SchemaErrorView::UnknownVariant(tag@),
        }
    }
}

impl SchemaErrorView {
    /// The text that reports the error.
    pub open spec fn message(self) -> Seq<char> {
        match self {
            SchemaErrorView::NotAnObject => "expected a JSON object"@,
            SchemaErrorView::UnknownField(key) => "unknown field `"@ + key + "`"@,
            SchemaErrorView::DuplicateField => "duplicate field"@,
            SchemaErrorView::MissingField(field) => "missing field `"@ + field.name_spec() + "`"@,
            SchemaErrorView::InvalidType(field) => "invalid type for field `"@ + field.name_spec()
                + "`"@,
            SchemaErrorView::UnknownVariant(tag) => "unknown variant `"@ + tag + "`"@,
        }
    }
}

impl SchemaError {
    /// The text that reports the error.
    pub fn message(&self) -> (text: String)
        ensures
            text@ == self@.message(),
    {
        match self {
            SchemaError::NotAnObject => String::from_str("expected a JSON object"),
            SchemaError::UnknownField(key) => String::from_str("unknown field `").concat(
                key.as_str(),
            ).concat("`"),
            SchemaError::DuplicateField => String::from_str("duplicate field"),
            SchemaError::MissingField(field) => String::from_str("missing field `").concat(
                field.name(),
            ).concat("`"),
            SchemaError::InvalidType(field) => String::from_str("invalid type for field `").concat(
                field.name(),
            ).concat("`"),
            SchemaError::UnknownVariant(tag) => String::from_str("unknown variant `").concat(
                tag.as_str(),
            ).concat("`"),
        }
    }
}

impl OutcomeView {
    /// The outcome written as JSON text.
    pub open spec fn encode(self) -> Seq<u8> {
        match self {
            OutcomeView::OfGet { value: Some(text) } => utf8("{\"type\":\"OfGet\",\"value\":")
                + json_string(text) + utf8("}"),
            OutcomeView::OfGet { value: None } => utf8("{\"type\":\"OfGet\",\"value\":") + utf8(
                "null",
            ) + utf8("}"),
            OutcomeView::OfSet { was_modified } => utf8("{\"type\":\"OfSet\",\"was_modified\":")
                + utf8(
                if was_modified {
                    "true"
                } else {
                    "false"
                },
            ) + utf8("}"),
            OutcomeView::Error { msg } => utf8("{\"type\":\"Error\",\"msg\":") + json_string(msg)
                + utf8("}"),
            OutcomeView::Invalid { msg } => utf8("{\"type\":\"Invalid\",\"msg\":") + json_string(
                msg,
            ) + utf8("}"),
        }
    }

    /// Why `members` are more than `type` and the member `field`, each at most
    /// once; `None` if they are not.
    pub open spec fn shape_error(members: Seq<(Seq<char>, JsonView)>, field: Field) -> Option<
        SchemaErrorView,
    > {
        if let Some(key) = foreign_key(members, "type"@, field.name_spec()) {
            Some(SchemaErrorView::UnknownField(key))
        } else if !distinct_keys(members) {
            Some(SchemaErrorView::DuplicateField)
        } else {
            None
        }
    }

    /// The members of an `OfGet`: `value` holds a string or `null`, and may be
    /// absent, which reads as `null`.
    pub open spec fn read_of_get(members: Seq<(Seq<char>, JsonView)>) -> Result<
        OutcomeView,
        SchemaErrorView,
    > {
        match Self::shape_error(members, Field::Value) {
            Some(error) => Err(error),
            None => match member(members, "value"@) {
                None => Ok(OutcomeView::OfGet { value: None }),
                Some(JsonView::Null) => Ok(OutcomeView::OfGet { value: None }),
                Some(JsonView::Text(text)) => Ok(OutcomeView::OfGet { value: Some(text) }),
                Some(_) => Err(SchemaErrorView::InvalidType(Field::Value)),
            },
        }
    }

    /// The members of an `OfSet`: `was_modified` holds a boolean.
    pub open spec fn read_of_set(members: Seq<(Seq<char>, JsonView)>) -> Result<
        OutcomeView,
        SchemaErrorView,
    > {
        match Self::shape_error(members, Field::WasModified) {
            Some(error) => Err(error),
            None => match member(members, "was_modified"@) {
                None => Err(SchemaErrorView::MissingField(Field::WasModified)),
                Some(JsonView::Bool(flag)) => Ok(OutcomeView::OfSet { was_modified: flag }),
                Some(_) => Err(SchemaErrorView::InvalidType(Field::WasModified)),
            },
        }
    }

    /// The members of an `Error` or an `Invalid`: `msg` holds a string.
    pub open spec fn read_msg(members: Seq<(Seq<char>, JsonView)>) -> Result<
        Seq<char>,
        SchemaErrorView,
    > {
        match Self::shape_error(members, Field::Msg) {
            Some(error) => Err(error),
            None => match member(members, "msg"@) {
                None => Err(SchemaErrorView::MissingField(Field::Msg)),
                Some(JsonView::Text(text)) => Ok(text),
                Some(_) => Err(SchemaErrorView::InvalidType(Field::Msg)),
            },
        }
    }

    /// The outcome of the variant that `tag` names, read from `members`.
    pub open spec fn read_variant(tag: Seq<char>, members: Seq<(Seq<char>, JsonView)>) -> Result<
        OutcomeView,
        SchemaErrorView,
    > {
        if tag == "OfGet"@ {
            Self::read_of_get(members)
        } else if tag == "OfSet"@ {
            Self::read_of_set(members)
        } else if tag == "Error"@ {
            match Self::read_msg(members) {
                Ok(msg) => Ok(OutcomeView::Error { msg }),
                Err(error) => Err(error),
            }
        } else if tag == "Invalid"@ {
            match Self::read_msg(members) {
                Ok(msg) => Ok(OutcomeView::Invalid { msg }),
                Err(error) => Err(error),
            }
        } else {
            Err(SchemaErrorView::UnknownVariant(tag))
        }
    }

    /// The outcome that `document` holds under the schema, or why it holds
    /// none.
    pub open spec fn read(document: JsonView) -> Result<OutcomeView, SchemaErrorView> {
        match document {
            JsonView::Object(members) => match member(members, "type"@) {
                None => Err(SchemaErrorView::MissingField(Field::Type)),
                Some(JsonView::Text(tag)) => Self::read_variant(tag, members),
                Some(_) => Err(SchemaErrorView::InvalidType(Field::Type)),
            },
            _ => Err(SchemaErrorView::NotAnObject),
        }
    }

    /// The JSON document of the outcome, its members in the order of the
    /// schema.
    pub open spec fn document(self) -> JsonView {
        match self {
            OutcomeView::OfGet { value: Some(text) } => JsonView::Object(
                seq![("type"@, JsonView::Text("OfGet"@)), ("value"@, JsonView::Text(text))],
            ),
            OutcomeView::OfGet { value: None } => JsonView::Object(
                seq![("type"@, JsonView::Text("OfGet"@)), ("value"@, JsonView::Null)],
            ),
            OutcomeView::OfSet { was_modified } => JsonView::Object(
                seq![
                    ("type"@, JsonView::Text("OfSet"@)),
                    ("was_modified"@, JsonView::Bool(was_modified)),
                ],
            ),
            OutcomeView::Error { msg } => JsonView::Object(
                seq![("type"@, JsonView::Text("Error"@)), ("msg"@, JsonView::Text(msg))],
            ),
            OutcomeView::Invalid { msg } => JsonView::Object(
                seq![("type"@, JsonView::Text("Invalid"@)), ("msg"@, JsonView::Text(msg))],
            ),
        }
    }
}

/// The JSON document of a response with the id `id` whose outcome is written
/// as the document `outcome`.
pub open spec fn response_document(id: u64, outcome: JsonView) -> JsonView {
    JsonView::Object(seq![("id"@, JsonView::Unsigned(id)), ("outcome"@, outcome)])
}

impl ResponseView {
    /// The response written as JSON text: what goes on the wire, before the
    /// frame's delimiter.
    pub open spec fn encode(self) -> Seq<u8> {
        utf8("{\"id\":") + decimal(self.id as nat) + utf8(",\"outcome\":") + self.outcome.encode()
            + utf8("}")
    }

    /// The response that `document` holds under the schema, or why it holds
    /// none.
    pub open spec fn read(document: JsonView) -> Result<ResponseView, SchemaErrorView> {
        match document {
            JsonView::Object(members) => if let Some(key) = foreign_key(
                members,
                "id"@,
                "outcome"@,
            ) {
                Err(SchemaErrorView::UnknownField(key))
            } else if !distinct_keys(members) {
                Err(SchemaErrorView::DuplicateField)
            } else {
                match (member(members, "id"@), member(members, "outcome"@)) {
                    (None, _) => Err(SchemaErrorView::MissingField(Field::Id)),
                    (Some(_), None) => Err(SchemaErrorView::MissingField(Field::Outcome)),
                    (Some(JsonView::Unsigned(id)), Some(outcome)) => match OutcomeView::read(
                        outcome,
                    ) {
                        Ok(outcome) => Ok(ResponseView { id, outcome }),
                        Err(error) => Err(error),
                    },
                    (Some(_), Some(_)) => Err(SchemaErrorView::InvalidType(Field::Id)),
                }
            },
            _ => Err(SchemaErrorView::NotAnObject),
        }
    }

    /// The JSON document of the response, its members in the order of the
    /// schema.
    pub open spec fn document(self) -> JsonView {
        response_document(self.id, self.outcome.document())
    }

    /// The response that stands for bytes which hold none: an `Invalid`
    /// outcome with the reason, under the identifier of the bytes.
    pub open spec fn invalid(bytes: Seq<u8>, reason: Seq<char>) -> ResponseView {
        ResponseView { id: Hasher::spec_hash(bytes), outcome: OutcomeView::Invalid { msg: reason } }
    }

    /// The response read from `bytes`, given what the JSON parser made of
    /// them.
    pub open spec fn from_parsed(bytes: Seq<u8>, parsed: Result<JsonView, Seq<char>>)
        -> ResponseView {
        match parsed {
            Ok(document) => match Self::read(document) {
                Ok(response) => response,
                Err(error) => Self::invalid(bytes, error.message()),
            },
            Err(text) => Self::invalid(bytes, text),
        }
    }

    /// The response read from `bytes`.
    pub open spec fn decode(bytes: Seq<u8>) -> ResponseView {
        Self::from_parsed(bytes, json_parse(bytes))
    }
}

/// The view of a result: that of what it holds.
pub open spec fn result_view<T: View, E: View>(result: Result<T, E>) -> Result<T::V, E::V> {
    match result {
        Ok(value) => Ok(value@),
        Err(error) => Err(error@),
    }
}

/// The view of an optional error.
pub open spec fn error_view(error: Option<SchemaError>) -> Option<SchemaErrorView> {
    match error {
        Some(error) => Some(error@),
        None => None,
    }
}

/// Text of the schema, which is plain and holds no line feed, is written
/// without a delimiter.
proof fn lemma_plain_text_is_delimiter_free(text: &str)
    requires
        is_ascii_chars(text@),
        forall|i: int| 0 <= i < text@.len() ==> text@[i] != '\n',
    ensures
        delimiter_free(utf8(text)),
{
    is_ascii_chars_encode_utf8(text@);
    assert forall|i: int| 0 <= i < utf8(text).len() implies utf8(text)[i] != 10u8 by {
        assert(text@[i] != '\n');
        assert(text@[i] as u8 == utf8(text)[i]);
    }
}

/// No piece of text that the encoding of a response is made of holds a
/// delimiter.
proof fn lemma_schema_text_is_delimiter_free()
    ensures
        delimiter_free(utf8("{\"id\":")),
        delimiter_free(utf8(",\"outcome\":")),
        delimiter_free(utf8("}")),
        delimiter_free(utf8("null")),
        delimiter_free(utf8("true")),
        delimiter_free(utf8("false")),
        delimiter_free(utf8("{\"type\":\"OfGet\",\"value\":")),
        delimiter_free(utf8("{\"type\":\"OfSet\",\"was_modified\":")),
        delimiter_free(utf8("{\"type\":\"Error\",\"msg\":")),
        delimiter_free(utf8("{\"type\":\"Invalid\",\"msg\":")),
{
    reveal_strlit("{\"id\":");
    lemma_plain_text_is_delimiter_free("{\"id\":");
    reveal_strlit(",\"outcome\":");
    lemma_plain_text_is_delimiter_free(",\"outcome\":");
    reveal_strlit("}");
    lemma_plain_text_is_delimiter_free("}");
    reveal_strlit("null");
    lemma_plain_text_is_delimiter_free("null");
    reveal_strlit("true");
    lemma_plain_text_is_delimiter_free("true");
    reveal_strlit("false");
    lemma_plain_text_is_delimiter_free("false");
    reveal_strlit("{\"type\":\"OfGet\",\"value\":");
    lemma_plain_text_is_delimiter_free("{\"type\":\"OfGet\",\"value\":");
    reveal_strlit("{\"type\":\"OfSet\",\"was_modified\":");
    lemma_plain_text_is_delimiter_free("{\"type\":\"OfSet\",\"was_modified\":");
    reveal_strlit("{\"type\":\"Error\",\"msg\":");
    lemma_plain_text_is_delimiter_free("{\"type\":\"Error\",\"msg\":");
    reveal_strlit("{\"type\":\"Invalid\",\"msg\":");
    lemma_plain_text_is_delimiter_free("{\"type\":\"Invalid\",\"msg\":");
}

/// The decimal digits of a number hold no delimiter.
proof fn lemma_decimal_is_delimiter_free(n: nat)
    ensures
        delimiter_free(decimal(n)),
    decreases n,
{
    if n >= 10 {
        lemma_decimal_is_delimiter_free(n / 10);
    }
}

/// Bytes put together of pieces without a delimiter hold none.
proof fn lemma_joined_is_delimiter_free(head: Seq<u8>, tail: Seq<u8>)
    requires
        delimiter_free(head),
        delimiter_free(tail),
    ensures
        delimiter_free(head + tail),
{
}

impl Outcome {
    /// Checks that `members` are no more than `type` and the member `field`,
    /// each at most once.
    fn check_shape(members: &Vec<(String, Json)>, field: Field) -> (error: Option<SchemaError>)
        ensures
            error_view(error) == OutcomeView::shape_error(members_view(members@), field),
    {
        match find_foreign(members, "type", field.name()) {
            Some(i) => Some(SchemaError::UnknownField(members[i].0.clone())),
            None => if has_duplicate(members) {
                Some(SchemaError::DuplicateField)
            } else {
                None
            },
        }
    }

    /// Reads the members of an `OfGet`.
    fn read_of_get(members: &Vec<(String, Json)>) -> (outcome: Result<Outcome, SchemaError>)
        ensures
            result_view(outcome) == OutcomeView::read_of_get(members_view(members@)),
    {
        match Self::check_shape(members, Field::Value) {
            Some(error) => Err(error),
            None => match find(members, "value") {
                None => Ok(Outcome::OfGet { value: None }),
                Some(Json::Null) => Ok(Outcome::OfGet { value: None }),
                Some(Json::Text(text)) => Ok(Outcome::OfGet { value: Some(text.clone()) }),
                Some(_) => Err(SchemaError::InvalidType(Field::Value)),
            },
        }
    }

    /// Reads the members of an `OfSet`.
    fn read_of_set(members: &Vec<(String, Json)>) -> (outcome: Result<Outcome, SchemaError>)
        ensures
            result_view(outcome) == OutcomeView::read_of_set(members_view(members@)),
    {
        match Self::check_shape(members, Field::WasModified) {
            Some(error) => Err(error),
            None => match find(members, "was_modified") {
                None => Err(SchemaError::MissingField(Field::WasModified)),
                Some(Json::Bool(flag)) => Ok(Outcome::OfSet { was_modified: *flag }),
                Some(_) => Err(SchemaError::InvalidType(Field::WasModified)),
            },
        }
    }

    /// Reads the members of an `Error` or an `Invalid`: the text of `msg`.
    fn read_msg(members: &Vec<(String, Json)>) -> (msg: Result<String, SchemaError>)
        ensures
            result_view(msg) == OutcomeView::read_msg(members_view(members@)),
    {
        match Self::check_shape(members, Field::Msg) {
            Some(error) => Err(error),
            None => match find(members, "msg") {
                None => Err(SchemaError::MissingField(Field::Msg)),
                Some(Json::Text(text)) => Ok(text.clone()),
                Some(_) => Err(SchemaError::InvalidType(Field::Msg)),
            },
        }
    }

    /// Reads an outcome from a JSON document under the schema.
    ///
    /// Succeeds exactly on an object whose `type` names a variant and whose
    /// other members are those of that variant, each once, of the right kind.
    pub fn read(document: &Json) -> (outcome: Result<Outcome, SchemaError>)
        ensures
            result_view(outcome) == OutcomeView::read(document@),
    {
        match document {
            Json::Object(members) => {
                proof {
                    lemma_object_view(*members);
                }
                match find(members, "type") {
                    None => Err(SchemaError::MissingField(Field::Type)),
                    Some(Json::Text(tag)) => {
                        if same_text(tag, "OfGet") {
                            Self::read_of_get(members)
                        } else if same_text(tag, "OfSet") {
                            Self::read_of_set(members)
                        } else if same_text(tag, "Error") {
                            match Self::read_msg(members) {
                                Ok(msg) => Ok(Outcome::Error { msg }),
                                Err(error) => Err(error),
                            }
                        } else if same_text(tag, "Invalid") {
                            match Self::read_msg(members) {
                                Ok(msg) => Ok(Outcome::Invalid { msg }),
                                Err(error) => Err(error),
                            }
                        } else {
                            Err(SchemaError::UnknownVariant(tag.clone()))
                        }
                    },
                    Some(_) => Err(SchemaError::InvalidType(Field::Type)),
                }
            },
            _ => Err(SchemaError::NotAnObject),
        }
    }

    /// Writes the outcome as JSON text at the end of `out`. What is written
    /// holds no delimiter of frames.
    pub fn encode_into(&self, out: &mut Vec<u8>)
        ensures
            final(out)@ == old(out)@ + self@.encode(),
            delimiter_free(self@.encode()),
    {
        proof {
            lemma_schema_text_is_delimiter_free();
        }
        let ghost body: Seq<u8>;
        match self {
            Outcome::OfGet { value: Some(text) } => {
                append(out, "{\"type\":\"OfGet\",\"value\":".as_bytes());
                let quoted = quote(text.as_str());
                append(out, quoted.as_slice());
                proof {
                    body = utf8("{\"type\":\"OfGet\",\"value\":") + quoted@;
                    lemma_joined_is_delimiter_free(
                        utf8("{\"type\":\"OfGet\",\"value\":"),
                        quoted@,
                    );
                }
            },
            Outcome::OfGet { value: None } => {
                append(out, "{\"type\":\"OfGet\",\"value\":".as_bytes());
                append(out, "null".as_bytes());
                proof {
                    body = utf8("{\"type\":\"OfGet\",\"value\":") + utf8("null");
                    lemma_joined_is_delimiter_free(
                        utf8("{\"type\":\"OfGet\",\"value\":"),
                        utf8("null"),
                    );
                }
            },
            Outcome::OfSet { was_modified } => {
                append(out, "{\"type\":\"OfSet\",\"was_modified\":".as_bytes());
                if *was_modified {
                    append(out, "true".as_bytes());
                } else {
                    append(out, "false".as_bytes());
                }
                proof {
                    let flag = utf8(
                        if *was_modified {
                            "true"
                        } else {
                            "false"
                        },
                    );
                    body = utf8("{\"type\":\"OfSet\",\"was_modified\":") + flag;
                    lemma_joined_is_delimiter_free(
                        utf8("{\"type\":\"OfSet\",\"was_modified\":"),
                        flag,
                    );
                }
            },
            Outcome::Error { msg } => {
                append(out, "{\"type\":\"Error\",\"msg\":".as_bytes());
                let quoted = quote(msg.as_str());
                append(out, quoted.as_slice());
                proof {
                    body = utf8("{\"type\":\"Error\",\"msg\":") + quoted@;
                    lemma_joined_is_delimiter_free(
                        utf8("{\"type\":\"Error\",\"msg\":"),
                        quoted@,
                    );
                }
            },
            Outcome::Invalid { msg } => {
                append(out, "{\"type\":\"Invalid\",\"msg\":".as_bytes());
                let quoted = quote(msg.as_str());
                append(out, quoted.as_slice());
                proof {
                    body = utf8("{\"type\":\"Invalid\",\"msg\":") + quoted@;
                    lemma_joined_is_delimiter_free(
                        utf8("{\"type\":\"Invalid\",\"msg\":"),
                        quoted@,
                    );
                }
            },
        }
        append(out, "}".as_bytes());
        assert(out@ =~= old(out)@ + self@.encode());
        proof {
            lemma_joined_is_delimiter_free(body, utf8("}"));
            assert(self@.encode() =~= body + utf8("}"));
        }
    }
}

impl Response {
    /// The id of the request that this response answers.
    pub fn id(&self) -> (id: u64)
        ensures
            id == self@.id,
    {
        self.id
    }

    /// Reads a response from a JSON document under the schema.
    ///
    /// Succeeds exactly on an object with the two members `id`, an integer
    /// from 0 to 2^64 - 1, and `outcome`, an outcome under the schema, in either
    /// order and with no other member.
    pub fn read(document: &Json) -> (response: Result<Response, SchemaError>)
        ensures
            result_view(response) == ResponseView::read(document@),
    {
        match document {
            Json::Object(members) => {
                proof {
                    lemma_object_view(*members);
                }
                match find_foreign(members, "id", "outcome") {
                    Some(i) => Err(SchemaError::UnknownField(members[i].0.clone())),
                    None => if has_duplicate(members) {
                        Err(SchemaError::DuplicateField)
                    } else {
                        match (find(members, "id"), find(members, "outcome")) {
                            (None, _) => Err(SchemaError::MissingField(Field::Id)),
                            (Some(_), None) => Err(SchemaError::MissingField(Field::Outcome)),
                            (Some(Json::Unsigned(id)), Some(outcome)) => match Outcome::read(
                                outcome,
                            ) {
                                Ok(outcome) => Ok(Response { id: *id, outcome }),
                                Err(error) => Err(error),
                            },
                            (Some(_), Some(_)) => Err(SchemaError::InvalidType(Field::Id)),
                        }
                    },
                }
            },
            _ => Err(SchemaError::NotAnObject),
        }
    }

    /// The response that stands for `bytes` which hold none.
    pub fn invalid(bytes: &[u8], reason: String) -> (response: Response)
        ensures
            response@ == ResponseView::invalid(bytes@, reason@),
    {
        Response { id: Hasher::hash(bytes), outcome: Outcome::Invalid { msg: reason } }
    }

    /// Makes a response of `bytes`, given what the JSON parser made of them.
    ///
    /// A document that holds a response under the schema gives that response.
    /// In every other case, a parser's error included, the result is an
    /// `Invalid` outcome that carries the reason, under the identifier that
    /// [`Hasher`] derives from `bytes`.
    pub fn from_parsed(bytes: &[u8], parsed: Result<Json, String>) -> (response: Response)
        ensures
            response@ == ResponseView::from_parsed(bytes@, parsed_view(parsed)),
            (parsed is Err || ResponseView::read(parsed->Ok_0@) is Err) ==> {
                &&& response@.outcome is Invalid
                &&& response@.id == Hasher::spec_hash(bytes@)
            },
    {
        match parsed {
            Ok(document) => match Self::read(&document) {
                Ok(response) => response,
                Err(error) => Self::invalid(bytes, error.message()),
            },
            Err(text) => Self::invalid(bytes, text),
        }
    }

    /// Reads a response from the bytes of one frame. Never fails: see
    /// [`Response::from_parsed`].
    pub fn decode(bytes: &[u8]) -> (response: Response)
        ensures
            response@ == ResponseView::decode(bytes@),
            (json_parse(bytes@) is Err || ResponseView::read(json_parse(bytes@)->Ok_0) is Err)
                ==> {
                &&& response@.outcome is Invalid
                &&& response@.id == Hasher::spec_hash(bytes@)
            },
    {
        let parsed = parse(bytes);
        Self::from_parsed(bytes, parsed)
    }

    /// Writes the response as JSON text: the bytes of one frame, without the
    /// delimiter. The text holds no delimiter, so that the frame made of it
    /// reads back whole.
    pub fn encode(&self) -> (bytes: Vec<u8>)
        ensures
            bytes@ == self@.encode(),
            delimiter_free(bytes@),
    {
        let mut out: Vec<u8> = Vec::new();
        append(&mut out, "{\"id\":".as_bytes());
        push_decimal(&mut out, self.id);
        append(&mut out, ",\"outcome\":".as_bytes());
        self.outcome.encode_into(&mut out);
        append(&mut out, "}".as_bytes());
        assert(out@ =~= self@.encode());
        proof {
            lemma_schema_text_is_delimiter_free();
            lemma_decimal_is_delimiter_free(self.id as nat);
            let head = utf8("{\"id\":") + decimal(self.id as nat);
            lemma_joined_is_delimiter_free(utf8("{\"id\":"), decimal(self.id as nat));
            lemma_joined_is_delimiter_free(head, utf8(",\"outcome\":"));
            lemma_joined_is_delimiter_free(head + utf8(",\"outcome\":"), self@.outcome.encode());
            lemma_joined_is_delimiter_free(
                head + utf8(",\"outcome\":") + self@.outcome.encode(),
                utf8("}"),
            );
        }
        out
    }
}

impl From<Vec<u8>> for Response {
    /// Reads a response from the bytes of one frame: [`Response::decode`].
    fn from(bs: Vec<u8>) -> (response: Response)
        ensures
            response@ == ResponseView::decode(bs@),
    {
        Response::decode(bs.as_slice())
    }
}

impl vstd::std_specs::convert::FromSpecImpl<Vec<u8>> for Response {
    open spec fn obeys_from_spec() -> bool {
        false
    }

    open spec fn from_spec(bs: Vec<u8>) -> Response {
        arbitrary()
    }
}

impl From<Response> for Vec<u8> {
    /// Writes a response as the bytes of one frame: [`Response::encode`].
    fn from(response: Response) -> (bytes: Vec<u8>)
        ensures
            bytes@ == response@.encode(),
            delimiter_free(bytes@),
    {
        response.encode()
    }
}

impl vstd::std_specs::convert::FromSpecImpl<Response> for Vec<u8> {
    open spec fn obeys_from_spec() -> bool {
        false
    }

    open spec fn from_spec(response: Response) -> Vec<u8> {
        arbitrary()
    }
}

/// The keys and tags of the schema differ from one another as far as the schema
/// tells them apart.
proof fn lemma_schema_names()
    ensures
        "id"@ != "outcome"@,
        "type"@ != "value"@,
        "type"@ != "was_modified"@,
        "type"@ != "msg"@,
        "OfGet"@ != "OfSet"@,
        "OfGet"@ != "Error"@,
        "OfGet"@ != "Invalid"@,
        "OfSet"@ != "Error"@,
        "OfSet"@ != "Invalid"@,
        "Error"@ != "Invalid"@,
{
    reveal_strlit("id");
    reveal_strlit("outcome");
    reveal_strlit("type");
    reveal_strlit("value");
    reveal_strlit("was_modified");
    reveal_strlit("msg");
    reveal_strlit("OfGet");
    reveal_strlit("OfSet");
    reveal_strlit("Error");
    reveal_strlit("Invalid");
    assert("id"@.len() == 2 && "outcome"@.len() == 7);
    assert("type"@.len() == 4 && "value"@.len() == 5 && "was_modified"@.len() == 12);
    assert("msg"@.len() == 3);
    assert("OfGet"@.len() == 5 && "OfSet"@.len() == 5 && "Error"@.len() == 5);
    assert("Invalid"@.len() == 7);
    assert("OfGet"@[2] != "OfSet"@[2]);
    assert("OfGet"@[0] != "Error"@[0]);
    assert("OfSet"@[0] != "Error"@[0]);
}

/// Reading inverts writing, document for document: the document of a response
/// reads back as that response, whatever the response.
pub proof fn lemma_read_inverts_document(response: ResponseView)
    ensures
        OutcomeView::read(response.outcome.document()) == Ok::<OutcomeView, SchemaErrorView>(
            response.outcome,
        ),
        ResponseView::read(response.document()) == Ok::<ResponseView, SchemaErrorView>(response),
{
    lemma_schema_names();
    let inner = response.outcome.document()->Object_0;
    reveal_with_fuel(member, 3);
    reveal_with_fuel(foreign_key, 3);
    assert(inner.len() == 2);
    assert(inner.drop_first().len() == 1);
    assert(inner.drop_first().drop_first().len() == 0);
    assert(distinct_keys(inner));
    let outer = response.document()->Object_0;
    assert(outer.len() == 2);
    assert(outer.drop_first().len() == 1);
    assert(outer.drop_first().drop_first().len() == 0);
    assert(distinct_keys(outer));
}

/// Decoding inverts encoding wherever the JSON parser reads the encoded bytes
/// as the document of the response: for every response, if parsing its
/// encoding gives its document, then decoding its encoding gives the response
/// back.
pub proof fn lemma_decode_inverts_encode(response: ResponseView)
    ensures
        json_parse(response.encode()) == Ok::<JsonView, Seq<char>>(response.document())
            ==> ResponseView::decode(response.encode()) == response,
{
    lemma_read_inverts_document(response);
}

/// Bytes that hold no response decode to an `Invalid` outcome under the
/// identifier of the bytes: so it is where the parser fails, and where the
/// document it gives is no response under the schema. All other bytes decode
/// to the response that their document holds.
pub proof fn lemma_malformed_decodes_to_invalid(bytes: Seq<u8>)
    ensures
        match json_parse(bytes) {
            Ok(document) => match ResponseView::read(document) {
                Ok(response) => ResponseView::decode(bytes) == response,
                Err(error) => ResponseView::decode(bytes) == ResponseView::invalid(
                    bytes,
                    error.message(),
                ),
            },
            Err(report) => ResponseView::decode(bytes) == ResponseView::invalid(bytes, report),
        },
        json_parse(bytes) is Err || ResponseView::read(json_parse(bytes)->Ok_0) is Err ==> {
            &&& ResponseView::decode(bytes).outcome is Invalid
            &&& ResponseView::decode(bytes).id == Hasher::spec_hash(bytes)
        },
{
}

/// A key other than `first` and `second` among the members is found.
pub proof fn lemma_foreign_key_found(
    members: Seq<(Seq<char>, JsonView)>,
    first: Seq<char>,
    second: Seq<char>,
    i: int,
)
    requires
        0 <= i < members.len(),
        members[i].0 != first,
        members[i].0 != second,
    ensures
        foreign_key(members, first, second) is Some,
    decreases members.len(),
{
    if members[0].0 != first && members[0].0 != second {
    } else {
        assert(members.drop_first()[i - 1] == members[i]);
        lemma_foreign_key_found(members.drop_first(), first, second, i - 1);
    }
}

/// An unknown member is never ignored: a document with a member besides `id`
/// and `outcome` holds no response, however well the rest of it fits, and
/// bytes that parse to such a document decode to `Invalid`.
pub proof fn lemma_unknown_field_is_rejected(members: Seq<(Seq<char>, JsonView)>, i: int)
    requires
        0 <= i < members.len(),
        members[i].0 != "id"@,
        members[i].0 != "outcome"@,
    ensures
        ResponseView::read(JsonView::Object(members)) matches Err(
            SchemaErrorView::UnknownField(_),
        ),
        forall|bytes: Seq<u8>| #[trigger]
            json_parse(bytes) == Ok::<JsonView, Seq<char>>(JsonView::Object(members))
                ==> ResponseView::decode(bytes).outcome is Invalid,
{
    lemma_foreign_key_found(members, "id"@, "outcome"@, i);
}

/// The member that the variant with the tag `tag` has besides `type`.
pub open spec fn variant_field(tag: Seq<char>) -> Option<Field> {
    if tag == "OfGet"@ {
        Some(Field::Value)
    } else if tag == "OfSet"@ {
        Some(Field::WasModified)
    } else if tag == "Error"@ || tag == "Invalid"@ {
        Some(Field::Msg)
    } else {
        None
    }
}

/// An unknown member of an outcome is never ignored: an object with a member
/// besides `type` and the one member of the variant that `type` names holds
/// no outcome, and no response holds such an object as its outcome.
pub proof fn lemma_unknown_outcome_field_is_rejected(
    members: Seq<(Seq<char>, JsonView)>,
    i: int,
)
    requires
        0 <= i < members.len(),
        members[i].0 != "type"@,
        member(members, "type"@) matches Some(JsonView::Text(tag)) ==> variant_field(tag)
            matches Some(field) ==> members[i].0 != field.name_spec(),
    ensures
        OutcomeView::read(JsonView::Object(members)) is Err,
        forall|id: u64|
            ResponseView::read(#[trigger] response_document(id, JsonView::Object(members))) is Err,
{
    lemma_schema_names();
    match member(members, "type"@) {
        Some(JsonView::Text(tag)) => match variant_field(tag) {
            Some(field) => {
                lemma_foreign_key_found(members, "type"@, field.name_spec(), i);
            },
            None => {},
        },
        _ => {},
    }
    assert forall|id: u64|
        ResponseView::read(
            #[trigger] response_document(id, JsonView::Object(members)),
        ) is Err by {
        let outer = response_document(id, JsonView::Object(members))->Object_0;
        reveal_with_fuel(member, 3);
        reveal_with_fuel(foreign_key, 3);
        assert(outer.len() == 2);
        assert(outer.drop_first().len() == 1);
        assert(outer.drop_first().drop_first().len() == 0);
    }
}

} // verus!
