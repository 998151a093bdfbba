//! JSON documents as plain values, and the calls into the JSON library.
//!
//! Reading and escaping JSON text is the work of `serde_json`. This module
//! holds what it hands back as a value of the crate's own, so that the rules of
//! the wire schema can be checked on it.

use vstd::prelude::*;
use vstd::string::StringSliceAdditionalSpecFns;

verus! {

/// A parsed JSON document.
#[derive(Debug)]
pub enum Json {
    Null,
    Bool(bool),
    /// An integer from 0 to 2^64 - 1.
    Unsigned(u64),
    /// An integer below 0.
    Negative(i64),
    /// Any other number, as its decimal text.
    Real(String),
    Text(String),
    Array(Vec<Json>),
    /// The members of an object: each a key with its value.
    Object(Vec<(String, Json)>),
}

/// The mathematical value of a [`Json`] document.
pub enum JsonView {
    Null,
    Bool(bool),
    Unsigned(u64),
    Negative(i64),
    Real(Seq<char>),
    Text(Seq<char>),
    Array(Seq<JsonView>),
    Object(Seq<(Seq<char>, JsonView)>),
}

impl View for Json {
    type V = JsonView;

    open spec fn view(&self) -> JsonView
        decreases self, 0nat,
    {
        match self {
            Json::Null => JsonView::Null,
            Json::Bool(b) => JsonView::Bool(*b),
            Json::Unsigned(n) => JsonView::Unsigned(*n),
            Json::Negative(n) => JsonView::Negative(*n),
            Json::Real(text) => JsonView::Real(text@),
            Json::Text(text) => JsonView::Text(text@),
            Json::Array(items) => JsonView::Array(leading_items(*items, items.len() as nat)),
            Json::Object(members) => JsonView::Object(
                leading_members(*members, members.len() as nat),
            ),
        }
    }
}

/// The views of the first `n` of `items`.
pub open spec fn leading_items(items: Vec<Json>, n: nat) -> Seq<JsonView>
    decreases items, n,
{
    if n == 0 || n > items.len() {
        Seq::empty()
    } else {
        leading_items(items, (n - 1) as nat).push(items[n - 1].view())
    }
}

/// The views of the first `n` of `members`.
pub open spec fn leading_members(members: Vec<(String, Json)>, n: nat) -> Seq<
    (Seq<char>, JsonView),
>
    decreases members, n,
{
    if n == 0 || n > members.len() {
        Seq::empty()
    } else {
        leading_members(members, (n - 1) as nat).push(
            (members[n - 1].0@, members[n - 1].1.view()),
        )
    }
}

/// The members of an object by their views.
pub open spec fn members_view(members: Seq<(String, Json)>) -> Seq<(Seq<char>, JsonView)> {
    Seq::new(members.len(), |i: int| (members[i].0@, members[i].1@))
}

proof fn lemma_leading_members(members: Vec<(String, Json)>, n: nat)
    requires
        n <= members.len(),
    ensures
        leading_members(members, n) == members_view(members@).take(n as int),
    decreases n,
{
    let all = members_view(members@);
    if n > 0 {
        lemma_leading_members(members, (n - 1) as nat);
        assert(members[n - 1] == members@[n - 1]);
        assert(all[n - 1] == (members@[n - 1].0@, members@[n - 1].1@));
        assert(all.take(n as int) =~= all.take(n - 1).push(all[n - 1]));
    } else {
        assert(all.take(0) =~= Seq::<(Seq<char>, JsonView)>::empty());
    }
}

/// An object's view holds the views of its members.
pub proof fn lemma_object_view(members: Vec<(String, Json)>)
    ensures
        Json::Object(members)@ == JsonView::Object(members_view(members@)),
{
    lemma_leading_members(members, members.len() as nat);
    assert(members_view(members@).take(members.len() as int) =~= members_view(members@));
}

/// The value of the first of `members` that has the key `key`.
pub open spec fn member(members: Seq<(Seq<char>, JsonView)>, key: Seq<char>) -> Option<JsonView>
    decreases members.len(),
{
    if members.len() == 0 {
        None
    } else if members[0].0 == key {
        Some(members[0].1)
    } else {
        member(members.drop_first(), key)
    }
}

/// The key of the first of `members` whose key is neither `first` nor
/// `second`.
pub open spec fn foreign_key(
    members: Seq<(Seq<char>, JsonView)>,
    first: Seq<char>,
    second: Seq<char>,
) -> Option<Seq<char>>
    decreases members.len(),
{
    if members.len() == 0 {
        None
    } else if members[0].0 != first && members[0].0 != second {
        Some(members[0].0)
    } else {
        foreign_key(members.drop_first(), first, second)
    }
}

/// No two of `members` have the same key.
pub open spec fn distinct_keys(members: Seq<(Seq<char>, JsonView)>) -> bool {
    forall|i: int, j: int|
        0 <= i < j < members.len() ==> (#[trigger] members[i]).0 != (#[trigger] members[j]).0
}

/// Whether `text` reads the same as `literal`.
pub fn same_text(text: &String, literal: &str) -> (same: bool)
    ensures
        same == (text@ == literal@),
{
    let other = String::from_str(literal);
    *text == other
}

/// Looks up the value of the first member with the key `key`.
pub fn find<'a>(members: &'a Vec<(String, Json)>, key: &str) -> (found: Option<&'a Json>)
    ensures
        member(members_view(members@), key@) == match found {
            Some(value) => Some(value@),
            None => None::<JsonView>,
        },
{
    let ghost all = members_view(members@);
    let mut i: usize = 0;
    assert(all.skip(0) =~= all);
    while i < members.len()
        invariant
            i <= members.len(),
            all == members_view(members@),
            member(all, key@) == member(all.skip(i as int), key@),
        decreases members.len() - i,
    {
        assert(all.skip(i as int).drop_first() =~= all.skip(i + 1));
        assert(all.skip(i as int)[0] == all[i as int]);
        if same_text(&members[i].0, key) {
            return Some(&members[i].1);
        }
        i += 1;
    }
    None
}

/// Finds the first member whose key is neither `first` nor `second`.
pub fn find_foreign(members: &Vec<(String, Json)>, first: &str, second: &str) -> (found: Option<
    usize,
>)
    ensures
        foreign_key(members_view(members@), first@, second@) == match found {
            Some(i) => Some(members@[i as int].0@),
            None => None::<Seq<char>>,
        },
        found matches Some(i) ==> i < members.len(),
{
    let ghost all = members_view(members@);
    let mut i: usize = 0;
    assert(all.skip(0) =~= all);
    while i < members.len()
        invariant
            i <= members.len(),
            all == members_view(members@),
            foreign_key(all, first@, second@) == foreign_key(all.skip(i as int), first@, second@),
        decreases members.len() - i,
    {
        assert(all.skip(i as int).drop_first() =~= all.skip(i + 1));
        assert(all.skip(i as int)[0] == all[i as int]);
        if !same_text(&members[i].0, first) && !same_text(&members[i].0, second) {
            return Some(i);
        }
        i += 1;
    }
    None
}

/// Whether two members share a key.
pub fn has_duplicate(members: &Vec<(String, Json)>) -> (twice: bool)
    ensures
        twice == !distinct_keys(members_view(members@)),
{
    let ghost all = members_view(members@);
    let mut j: usize = 0;
    while j < members.len()
        invariant
            j <= members.len(),
            all == members_view(members@),
            forall|a: int, b: int|
                0 <= a < b < j ==> (#[trigger] all[a]).0 != (#[trigger] all[b]).0,
        decreases members.len() - j,
    {
        let mut i: usize = 0;
        while i < j
            invariant
                i <= j < members.len(),
                all == members_view(members@),
                forall|a: int| 0 <= a < i ==> (#[trigger] all[a]).0 != all[j as int].0,
            decreases j - i,
        {
            if members[i].0 == members[j].0 {
                assert(all[i as int].0 == all[j as int].0);
                return true;
            }
            i += 1;
        }
        j += 1;
    }
    false
}

/// The bytes of `text` on the wire: its UTF-8 encoding.
pub open spec fn utf8(text: &str) -> Seq<u8> {
    text.spec_bytes()
}

/// The decimal digits of `n`, most significant first, without leading zeros.
pub open spec fn decimal(n: nat) -> Seq<u8>
    decreases n,
{
    if n < 10 {
        seq![(48 + n) as u8]
    } else {
        decimal(n / 10).push((48 + n % 10) as u8)
    }
}

/// Appends `bytes` to `out`.
pub fn append(out: &mut Vec<u8>, bytes: &[u8])
    ensures
        final(out)@ == old(out)@ + bytes@,
{
    let mut i: usize = 0;
    while i < bytes.len()
        invariant
            i <= bytes.len(),
            out@ == old(out)@ + bytes@.take(i as int),
        decreases bytes.len() - i,
    {
        out.push(bytes[i]);
        assert(bytes@.take(i + 1) =~= bytes@.take(i as int).push(bytes@[i as int]));
        i += 1;
    }
    assert(bytes@.take(bytes.len() as int) =~= bytes@);
}

/// Appends the decimal digits of `n` to `out`.
pub fn push_decimal(out: &mut Vec<u8>, n: u64)
    ensures
        final(out)@ == old(out)@ + decimal(n as nat),
    decreases n,
{
    if n >= 10 {
        push_decimal(out, n / 10);
    }
    let digit: u8 = (n % 10) as u8;
    out.push(48 + digit);
    assert(out@ =~= old(out)@ + decimal(n as nat));
}

/// The byte that ends a line, and a frame on the wire.
pub const LINE_FEED: u8 = 10;

/// `serde_json::Value`, the document as the parser builds it. Nothing inside
/// it is visible here: what a value holds goes by the name [`json_value`].
#[verifier::external_type_specification]
#[verifier::external_body]
pub struct ExValue(serde_json::Value);

/// What `serde_json::from_slice` makes of `bytes` when asked for a
/// `serde_json::Value`: the document, or the text of the parser's error.
pub uninterp spec fn json_parse(bytes: Seq<u8>) -> Result<JsonView, Seq<char>>;

/// What a `serde_json::Value` holds: the document that [`json_of_value`]
/// copies out of it.
pub uninterp spec fn json_value(value: serde_json::Value) -> JsonView;

/// The bytes that `serde_json::to_vec` writes for the string `text`: the text
/// between double quotes, with the escapes of JSON.
pub uninterp spec fn json_string(text: Seq<char>) -> Seq<u8>;

/// What the parser handed back, by what it holds.
pub open spec fn parsed_value(parsed: Result<serde_json::Value, String>) -> Result<
    JsonView,
    Seq<char>,
> {
    match parsed {
        Ok(value) => Ok(json_value(value)),
        Err(text) => Err(text@),
    }
}

/// Parses `bytes` as one JSON document with `serde_json::from_slice`.
///
/// Trusted: the result is a function of the bytes alone, named [`json_parse`].
/// On failure it is the text that the parser's error displays.
#[verifier::external_body]
fn parse_value(bytes: &[u8]) -> (parsed: Result<serde_json::Value, String>)
    ensures
        json_parse(bytes@) == parsed_value(parsed),
{
    serde_json::from_slice::<serde_json::Value>(bytes).map_err(|error| error.to_string())
}

/// Copies a `serde_json::Value` into a [`Json`], variant by variant. A number
/// becomes `Unsigned` where `Number::as_u64` gives it, else `Negative` where
/// `Number::as_i64` gives it, else `Real` with the number's own text.
///
/// Trusted: the copy holds what the value holds.
#[verifier::external_body]
fn json_of_value(value: serde_json::Value) -> (document: Json)
    ensures
        document@ == json_value(value),
{
    match value {
        serde_json::Value::Null => Json::Null,
        serde_json::Value::Bool(b) => Json::Bool(b),
        serde_json::Value::Number(n) => match (n.as_u64(), n.as_i64()) {
            (Some(u), _) => Json::Unsigned(u),
            (None, Some(i)) => Json::Negative(i),
            (None, None) => Json::Real(n.to_string()),
        },
        serde_json::Value::String(s) => Json::Text(s),
        serde_json::Value::Array(a) => Json::Array(a.into_iter().map(json_of_value).collect()),
        serde_json::Value::Object(m) => Json::Object(
            m.into_iter().map(|(k, v)| (k, json_of_value(v))).collect(),
        ),
    }
}

/// The view of a parsed document, or of the text of the parser's error.
pub open spec fn parsed_view(parsed: Result<Json, String>) -> Result<JsonView, Seq<char>> {
    match parsed {
        Ok(document) => Ok(document@),
        Err(text) => Err(text@),
    }
}

/// Parses `bytes` as one JSON document: the members of an object come in the
/// order of the text, and a key that the text writes twice comes once, with
/// the value written last. Fails with the parser's report where the bytes are
/// no JSON text.
pub fn parse(bytes: &[u8]) -> (parsed: Result<Json, String>)
    ensures
        json_parse(bytes@) == parsed_view(parsed),
{
    match parse_value(bytes) {
        Ok(value) => Ok(json_of_value(value)),
        Err(text) => Err(text),
    }
}

/// Writes `text` as a JSON string with `serde_json::to_vec`.
///
/// Trusted: the result is a function of the text alone, named [`json_string`],
/// and holds no line feed: the serializer writes every byte below 0x20 as an
/// escape made of printable characters.
#[verifier::external_body]
pub(crate) fn quote(text: &str) -> (bytes: Vec<u8>)
    ensures
        bytes@ == json_string(text@),
        !bytes@.contains(LINE_FEED),
{
    serde_json::to_vec(text).unwrap()
}

} // verus!
