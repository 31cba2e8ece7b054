//! JSON values, held as JSON text. `serde_json` does the parsing and the printing; what
//! it returns is a function of the text alone and has a name here.
use vstd::prelude::*;
use crate::text;

verus! {

/// What `serde_json` makes of a text: the value printed in compact form, or the message
/// of the parse error.
pub uninterp spec fn json_parsed(raw: Seq<char>) -> Result<Seq<char>, Seq<char>>;

pub open spec fn result_view(r: Result<String, String>) -> Result<Seq<char>, Seq<char>> {
    match r {
        Ok(s) => Ok(s@),
        Err(e) => Err(e@),
    }
}

/// Calls `serde_json::from_str` for a `Value` and prints the value with its `Display`, or
/// the error with its own. The result is named `json_parsed`.
#[verifier::external_body]
pub(crate) fn parse(raw: &str) -> (r: Result<String, String>)
    ensures
        result_view(r) == json_parsed(raw@),
{
    match serde_json::from_str::<serde_json::Value>(raw) {
        Ok(value) => Ok(value.to_string()),
        Err(error) => Err(error.to_string()),
    }
}

/// The member of a JSON object under a key, as JSON text; `None` where the text is no
/// object or the key is not there.
pub uninterp spec fn json_member(json: Seq<char>, key: Seq<char>) -> Option<Seq<char>>;

/// Calls `serde_json::Value::get` with a string key on the value that a text holds. The
/// result is named `json_member`.
#[verifier::external_body]
pub(crate) fn member(json: &str, key: &str) -> (r: Option<String>)
    ensures
        text::opt_view(r) == json_member(json@, key@),
{
    serde_json::from_str::<serde_json::Value>(json).ok()?.get(key).map(|value| value.to_string())
}

/// The text that a JSON string holds; `None` where the value is no string.
pub uninterp spec fn json_string(json: Seq<char>) -> Option<Seq<char>>;

/// Calls `serde_json::Value::as_str` on the value that a text holds. The result is named
/// `json_string`.
#[verifier::external_body]
pub(crate) fn as_string(json: &str) -> (r: Option<String>)
    ensures
        text::opt_view(r) == json_string(json@),
{
    serde_json::from_str::<serde_json::Value>(json).ok()?.as_str().map(|s| s.to_owned())
}

/// The integer that a JSON number holds; `None` where the value is no 64-bit integer.
pub uninterp spec fn json_integer(json: Seq<char>) -> Option<i64>;

/// Calls `serde_json::Value::as_i64` on the value that a text holds. The result is named
/// `json_integer`.
#[verifier::external_body]
pub(crate) fn as_integer(json: &str) -> (r: Option<i64>)
    ensures
        r == json_integer(json@),
{
    serde_json::from_str::<serde_json::Value>(json).ok()?.as_i64()
}

/// The unsigned integer that a JSON number holds; `None` where the value is none.
pub uninterp spec fn json_unsigned(json: Seq<char>) -> Option<u64>;

/// Calls `serde_json::Value::as_u64` on the value that a text holds. The result is named
/// `json_unsigned`.
#[verifier::external_body]
pub(crate) fn as_unsigned(json: &str) -> (r: Option<u64>)
    ensures
        r == json_unsigned(json@),
{
    serde_json::from_str::<serde_json::Value>(json).ok()?.as_u64()
}

/// The elements of a JSON array, as JSON texts; `None` where the value is no array.
pub uninterp spec fn json_elements(json: Seq<char>) -> Option<Seq<Seq<char>>>;

pub open spec fn opt_views(r: Option<Vec<String>>) -> Option<Seq<Seq<char>>> {
    match r {
        Some(v) => Some(text::views(v@)),
        None => None,
    }
}

/// Calls `serde_json::Value::as_array` on the value that a text holds. The result is
/// named `json_elements`.
#[verifier::external_body]
pub(crate) fn as_elements(json: &str) -> (r: Option<Vec<String>>)
    ensures
        opt_views(r) == json_elements(json@),
{
    let value = serde_json::from_str::<serde_json::Value>(json).ok()?;
    value.as_array().map(|items| items.iter().map(|item| item.to_string()).collect())
}

/// A text as a JSON string, in quotes and with escapes.
pub uninterp spec fn json_quoted(s: Seq<char>) -> Seq<char>;

/// Prints a `serde_json::Value::String` with its `Display`. The result is named
/// `json_quoted`; reading it as a JSON string gives the text back.
#[verifier::external_body]
pub(crate) fn quote(s: &str) -> (r: String)
    ensures
        r@ == json_quoted(s@),
        json_string(r@) == Some(s@),
{
    serde_json::Value::String(s.to_owned()).to_string()
}

/// The text of a string member of an object.
pub open spec fn string_member(json: Seq<char>, key: Seq<char>) -> Option<Seq<char>> {
    match json_member(json, key) {
        Some(v) => json_string(v),
        None => None,
    }
}

pub fn get_string(json: &str, key: &str) -> (r: Option<String>)
    ensures
        text::opt_view(r) == string_member(json@, key@),
{
    match member(json, key) {
        Some(v) => as_string(v.as_str()),
        None => None,
    }
}

/// The text of a string member of an object, or nothing.
pub open spec fn string_member_or_empty(json: Seq<char>, key: Seq<char>) -> Seq<char> {
    match string_member(json, key) {
        Some(s) => s,
        None => Seq::empty(),
    }
}

pub fn get_string_or_empty(json: &str, key: &str) -> (r: String)
    ensures
        r@ == string_member_or_empty(json@, key@),
{
    match get_string(json, key) {
        Some(s) => s,
        None => String::new(),
    }
}

/// The integer member of an object.
pub open spec fn integer_member(json: Seq<char>, key: Seq<char>) -> Option<i64> {
    match json_member(json, key) {
        Some(v) => json_integer(v),
        None => None,
    }
}

pub fn get_integer(json: &str, key: &str) -> (r: Option<i64>)
    ensures
        r == integer_member(json@, key@),
{
    match member(json, key) {
        Some(v) => as_integer(v.as_str()),
        None => None,
    }
}

/// The unsigned integer member of an object.
pub open spec fn unsigned_member(json: Seq<char>, key: Seq<char>) -> Option<u64> {
    match json_member(json, key) {
        Some(v) => json_unsigned(v),
        None => None,
    }
}

pub fn get_unsigned(json: &str, key: &str) -> (r: Option<u64>)
    ensures
        r == unsigned_member(json@, key@),
{
    match member(json, key) {
        Some(v) => as_unsigned(v.as_str()),
        None => None,
    }
}

/// The texts of the strings among some JSON values, in order.
pub open spec fn strings_among(values: Seq<Seq<char>>) -> Seq<Seq<char>>
    decreases values.len(),
{
    if values.len() == 0 {
        Seq::empty()
    } else {
        match json_string(values.last()) {
            Some(s) => strings_among(values.drop_last()).push(s),
            None => strings_among(values.drop_last()),
        }
    }
}

/// The strings in an array member of an object; nothing where there is no such array.
pub open spec fn strings_member(json: Seq<char>, key: Seq<char>) -> Seq<Seq<char>> {
    match json_member(json, key) {
        Some(v) => match json_elements(v) {
            Some(items) => strings_among(items),
            None => Seq::empty(),
        },
        None => Seq::empty(),
    }
}

pub fn get_strings(json: &str, key: &str) -> (r: Vec<String>)
    ensures
        text::views(r@) == strings_member(json@, key@),
{
    let mut out: Vec<String> = Vec::new();
    assert(text::views(out@) =~= Seq::<Seq<char>>::empty());
    let list = match member(json, key) {
        Some(v) => as_elements(v.as_str()),
        None => None,
    };
    if let Some(items) = list {
        let ghost all = text::views(items@);
        let mut i: usize = 0;
        assert(all.take(0) =~= Seq::<Seq<char>>::empty());
        while i < items.len()
            invariant
                all == text::views(items@),
                i <= items@.len(),
                text::views(out@) == strings_among(all.take(i as int)),
            decreases items@.len() - i,
        {
            let ghost before = text::views(out@);
            assert(all.take(i + 1).drop_last() =~= all.take(i as int));
            if let Some(s) = as_string(items[i].as_str()) {
                out.push(s);
                assert(text::views(out@) =~= before.push(s@));
            }
            i = i + 1;
        }
        assert(all.take(i as int) =~= all);
    }
    out
}

// ---------------------------------------------------------------------------
// Objects and arrays
// ---------------------------------------------------------------------------

/// A member of an object, from its key and its value as JSON text. The key needs no
/// escapes.
pub open spec fn member_text(m: (Seq<char>, Seq<char>)) -> Seq<char> {
    "\""@ + m.0 + "\":"@ + m.1
}

/// An object, from its members.
pub open spec fn object_text(members: Seq<(Seq<char>, Seq<char>)>) -> Seq<char> {
    "{"@ + text::join(Seq::new(members.len(), |i: int| member_text(members[i])), ","@) + "}"@
}

/// An array, from its elements as JSON texts.
pub open spec fn array_text(elements: Seq<Seq<char>>) -> Seq<char> {
    "["@ + text::join(elements, ","@) + "]"@
}

pub open spec fn members_of(members: Seq<(&'static str, String)>) -> Seq<(Seq<char>, Seq<char>)> {
    Seq::new(members.len(), |i: int| (members[i].0@, members[i].1@))
}

/// Makes an object. Keys that are given in order stay in order.
pub fn object(members: &Vec<(&'static str, String)>) -> (r: String)
    ensures
        r@ == object_text(members_of(members@)),
{
    let ghost all = members_of(members@);
    let mut parts: Vec<String> = Vec::new();
    let mut i: usize = 0;
    while i < members.len()
        invariant
            all == members_of(members@),
            i <= members@.len(),
            parts@.len() == i,
            forall|j: int| 0 <= j < i ==> parts@[j]@ == member_text(#[trigger] all[j]),
        decreases members@.len() - i,
    {
        let mut part = "\"".to_owned();
        part.push_str(members[i].0);
        part.push_str("\":");
        part.push_str(members[i].1.as_str());
        assert(all[i as int] == (members@[i as int].0@, members@[i as int].1@));
        parts.push(part);
        i = i + 1;
    }
    assert(text::views(parts@) =~= Seq::new(all.len(), |j: int| member_text(all[j])));
    let mut s = "{".to_owned();
    s.push_str(text::joined(&parts, ",").as_str());
    s.push_str("}");
    s
}

/// Makes an array.
pub fn array(elements: &Vec<String>) -> (r: String)
    ensures
        r@ == array_text(text::views(elements@)),
{
    let mut s = "[".to_owned();
    s.push_str(text::joined(elements, ",").as_str());
    s.push_str("]");
    s
}

/// An optional text as JSON: a string, or null.
pub open spec fn opt_quoted(s: Option<Seq<char>>) -> Seq<char> {
    match s {
        Some(t) => json_quoted(t),
        None => "null"@,
    }
}

pub fn quote_opt(s: &Option<String>) -> (r: String)
    ensures
        r@ == opt_quoted(text::opt_view(*s)),
{
    match s {
        Some(t) => quote(t.as_str()),
        None => "null".to_owned(),
    }
}


/// An object holds each of its members: the key in quotes, a colon, and the value.
pub proof fn law_object_holds_each(members: Seq<(Seq<char>, Seq<char>)>, i: int)
    requires
        0 <= i < members.len(),
    ensures
        text::has(object_text(members), "\""@ + members[i].0 + "\":"@ + members[i].1),
        text::has_prefix(object_text(members), "{"@),
        text::has_suffix(object_text(members), "}"@),
{
    broadcast use text::group_parts;

    let all = Seq::new(members.len(), |j: int| member_text(members[j]));
    text::law_joined_holds_each(all, ","@, i);
    assert(all[i] == member_text(members[i]));
}

/// An array holds each of its elements.
pub proof fn law_array_holds_each(elements: Seq<Seq<char>>, i: int)
    requires
        0 <= i < elements.len(),
    ensures
        text::has(array_text(elements), elements[i]),
        text::has_prefix(array_text(elements), "["@),
        text::has_suffix(array_text(elements), "]"@),
{
    broadcast use text::group_parts;

    text::law_joined_holds_each(elements, ","@, i);
}

/// A member of an object is read as what it holds; without such a member there is nothing to
/// read, and an empty text stands for none.
pub proof fn law_members_are_read(json: Seq<char>, key: Seq<char>)
    ensures
        json_member(json, key) matches Some(v) ==> string_member(json, key) == json_string(v)
            && integer_member(json, key) == json_integer(v) && unsigned_member(json, key)
            == json_unsigned(v),
        json_member(json, key) is None ==> string_member(json, key) is None && integer_member(
            json,
            key,
        ) is None && unsigned_member(json, key) is None && strings_member(json, key).len() == 0,
        string_member(json, key) matches Some(s) ==> string_member_or_empty(json, key) == s,
        string_member(json, key) is None ==> string_member_or_empty(json, key).len() == 0,
{
}

/// Of the values in an array, the texts are taken, in their order.
pub proof fn law_texts_are_taken(values: Seq<Seq<char>>, v: Seq<char>)
    ensures
        json_string(v) matches Some(s) ==> strings_among(values.push(v)) == strings_among(
            values,
        ).push(s),
        json_string(v) is None ==> strings_among(values.push(v)) == strings_among(values),
        strings_among(Seq::empty()) == Seq::<Seq<char>>::empty(),
        opt_quoted(Some(v)) == json_quoted(v),
        opt_quoted(None) == "null"@,
{
    assert(values.push(v).drop_last() =~= values);
}

} // verus!
