//! JSON values as the library reads them, and the readers of model and platform responses.
use vstd::prelude::*;

verus! {

/// A JSON value. Numbers keep their text; object members keep their order.
pub enum Json {
    Null,
    Bool(bool),
    Number(String),
    Str(String),
    Array(Vec<Json>),
    Object(Vec<(String, Json)>),
}

/// The value of the first member of `fields` named `key`.
pub open spec fn first_field(fields: Seq<(String, Json)>, key: Seq<char>) -> Option<Json>
    decreases fields.len(),
{
    if fields.len() == 0 {
        None
    } else if fields[0].0@ == key {
        Some(fields[0].1)
    } else {
        first_field(fields.drop_first(), key)
    }
}

/// `v[key]` for an object, nothing otherwise (as `Value::get` with a string key).
pub open spec fn json_get(v: Json, key: Seq<char>) -> Option<Json> {
    match v {
        Json::Object(fields) => first_field(fields@, key),
        _ => None,
    }
}

/// The string inside a JSON string value.
pub open spec fn json_str(v: Option<Json>) -> Option<Seq<char>> {
    match v {
        Some(Json::Str(s)) => Some(s@),
        _ => None,
    }
}

/// The elements of a JSON array value.
pub open spec fn json_array(v: Option<Json>) -> Option<Seq<Json>> {
    match v {
        Some(Json::Array(items)) => Some(items@),
        _ => None,
    }
}

/// What `serde_json::from_str::<serde_json::Value>` makes of `text`, as a [`Json`]: none when the
/// text is not JSON. A function of the text alone.
pub uninterp spec fn parsed_json(text: Seq<char>) -> Option<Json>;

/// Parses `text` with `serde_json::from_str` into a `serde_json::Value` and converts it one for
/// one into a [`Json`] (numbers keep the text `Display` gives them, object members the order the
/// parsed map keeps them in); none when serde_json refuses the text. The contract only names the
/// result: what serde_json accepts and builds is left to its own source.
#[verifier::external_body]
pub fn parse_json(text: &str) -> (r: Option<Json>)
    ensures
        r == parsed_json(text@),
{
    serde_json::from_str::<serde_json::Value>(text).ok().map(|value| json_of_value(&value))
}

/// `serde_json::Value`, the tree `serde_json` parses into; it is only converted, never read.
#[verifier::external_type_specification]
#[verifier::external_body]
pub struct ExJsonValue(serde_json::Value);

/// Converts a `serde_json::Value` one for one into a [`Json`]; only `parse_json` uses it.
#[verifier::external_body]
fn json_of_value(value: &serde_json::Value) -> Json {
    match value {
        serde_json::Value::Null => Json::Null,
        serde_json::Value::Bool(flag) => Json::Bool(*flag),
        serde_json::Value::Number(number) => Json::Number(number.to_string()),
        serde_json::Value::String(text) => Json::Str(text.clone()),
        serde_json::Value::Array(items) => Json::Array(items.iter().map(json_of_value).collect()),
        serde_json::Value::Object(members) => Json::Object(members.iter().map(|(key, item)| (key.clone(), json_of_value(item))).collect()),
    }
}

/// The member `key` of an object.
pub fn get<'a>(v: &'a Json, key: &str) -> (r: Option<&'a Json>)
    ensures
        match r {
            Some(x) => json_get(*v, key@) == Some(*x),
            None => json_get(*v, key@) is None,
        },
{
    match v {
        Json::Object(fields) => {
            let n = fields.len();
            let mut found: Option<&'a Json> = None;
            let mut i: usize = n;
            assert(fields@.subrange(n as int, n as int).len() == 0);
            while i > 0
                invariant
                    i <= n,
                    n == fields@.len(),
                    match found {
                        Some(x) => first_field(fields@.subrange(i as int, n as int), key@) == Some(*x),
                        None => first_field(fields@.subrange(i as int, n as int), key@) is None,
                    },
                decreases i,
            {
                assert(fields@.subrange(i - 1, n as int).drop_first() =~= fields@.subrange(i as int, n as int));
                assert(fields@.subrange(i - 1, n as int)[0] == fields@[i - 1]);
                if crate::text::str_eq(fields[i - 1].0.as_str(), key) {
                    found = Some(&fields[i - 1].1);
                }
                i = i - 1;
            }
            assert(fields@.subrange(0, n as int) =~= fields@);
            found
        },
        _ => None,
    }
}

/// The string inside a string value.
pub fn as_str<'a>(v: Option<&'a Json>) -> (r: Option<&'a str>)
    ensures
        match r {
            Some(s) => json_str(match v { Some(x) => Some(*x), None => None }) == Some(s@),
            None => json_str(match v { Some(x) => Some(*x), None => None }) is None,
        },
{
    match v {
        Some(Json::Str(s)) => Some(s.as_str()),
        _ => None,
    }
}

/// The `type` member of a value, as a string.
pub open spec fn type_of(v: Json) -> Option<Seq<char>> {
    json_str(json_get(v, "type"@))
}

/// The last step whose type is `model_output`.
pub open spec fn last_model_output(steps: Seq<Json>) -> Option<Json>
    decreases steps.len(),
{
    if steps.len() == 0 {
        None
    } else if type_of(steps.last()) == Some("model_output"@) {
        Some(steps.last())
    } else {
        last_model_output(steps.drop_last())
    }
}

/// The text of every `text` part, joined.
pub open spec fn joined_texts(parts: Seq<Json>) -> Seq<char>
    decreases parts.len(),
{
    if parts.len() == 0 {
        Seq::empty()
    } else {
        joined_texts(parts.drop_last()) + if type_of(parts.last()) == Some("text"@) {
            match json_str(json_get(parts.last(), "text"@)) {
                Some(t) => t,
                None => Seq::empty(),
            }
        } else {
            Seq::empty()
        }
    }
}

/// The text of an interaction response: the `text` parts of the last `model_output` step,
/// joined, when there are any.
pub open spec fn spec_interaction_text(response: Json) -> Option<Seq<char>> {
    match json_array(json_get(response, "steps"@)) {
        None => None,
        Some(steps) => match last_model_output(steps) {
            None => None,
            Some(output) => match json_array(json_get(output, "content"@)) {
                None => None,
                Some(parts) => if joined_texts(parts).len() > 0 { Some(joined_texts(parts)) } else { None },
            },
        },
    }
}

/// The model's answer in an interaction response.
pub fn interaction_output_text(response: &Json) -> (r: Option<String>)
    ensures
        match r {
            Some(t) => spec_interaction_text(*response) == Some(t@),
            None => spec_interaction_text(*response) is None,
        },
{
    let steps = match get(response, "steps") {
        Some(Json::Array(steps)) => steps,
        _ => return None,
    };
    let n = steps.len();
    let mut i: usize = n;
    let mut found: usize = n;
    assert(steps@.subrange(0, n as int) =~= steps@);
    while i > 0 && found == n
        invariant
            i <= n,
            n == steps@.len(),
            found <= n,
            found == n ==> last_model_output(steps@) == last_model_output(steps@.subrange(0, i as int)),
            found < n ==> last_model_output(steps@) == Some(steps@[found as int]),
        decreases i,
    {
        assert(steps@.subrange(0, i as int).drop_last() =~= steps@.subrange(0, i - 1));
        assert(steps@.subrange(0, i as int).last() == steps@[i - 1]);
        let t = as_str(get(&steps[i - 1], "type"));
        let is_output = match t {
            Some(s) => crate::text::str_eq(s, "model_output"),
            None => false,
        };
        if is_output {
            found = i - 1;
        }
        i = i - 1;
    }
    if found == n {
        assert(steps@.subrange(0, 0).len() == 0);
        return None;
    }
    let output = &steps[found];
    let parts = match get(output, "content") {
        Some(Json::Array(parts)) => parts,
        _ => return None,
    };
    let mut text: Vec<char> = Vec::new();
    let mut j: usize = 0;
    while j < parts.len()
        invariant
            j <= parts@.len(),
            text@ == joined_texts(parts@.subrange(0, j as int)),
        decreases parts.len() - j,
    {
        assert(parts@.subrange(0, j + 1).drop_last() =~= parts@.subrange(0, j as int));
        let t = as_str(get(&parts[j], "type"));
        let is_text = match t {
            Some(s) => crate::text::str_eq(s, "text"),
            None => false,
        };
        if is_text {
            match as_str(get(&parts[j], "text")) {
                Some(s) => crate::text::extend_str(&mut text, s),
                None => {
                    assert(text@ =~= text@ + Seq::<char>::empty());
                },
            }
        }
        j = j + 1;
    }
    assert(parts@.subrange(0, parts@.len() as int) =~= parts@);
    if text.len() > 0 {
        Some(crate::text::string_of(&text))
    } else {
        None
    }
}

/// The text of the first `output_text` part of an item's content that carries one.
pub open spec fn first_output_text(parts: Seq<Json>) -> Option<Seq<char>>
    decreases parts.len(),
{
    if parts.len() == 0 {
        None
    } else if type_of(parts[0]) == Some("output_text"@) && json_str(json_get(parts[0], "text"@)) is Some {
        json_str(json_get(parts[0], "text"@))
    } else {
        first_output_text(parts.drop_first())
    }
}

/// The output text of one response item, if it has any.
pub open spec fn item_output_text(item: Json) -> Option<Seq<char>> {
    match json_array(json_get(item, "content"@)) {
        Some(parts) => first_output_text(parts),
        None => None,
    }
}

/// The first output text among the items.
pub open spec fn first_item_text(items: Seq<Json>) -> Option<Seq<char>>
    decreases items.len(),
{
    if items.len() == 0 {
        None
    } else if item_output_text(items[0]) is Some {
        item_output_text(items[0])
    } else {
        first_item_text(items.drop_first())
    }
}

/// The text of a responses-API reply: the first `output_text` part of the first output item
/// that has one.
pub open spec fn spec_responses_text(response: Json) -> Option<Seq<char>> {
    match json_array(json_get(response, "output"@)) {
        Some(items) => first_item_text(items),
        None => None,
    }
}

fn item_text(item: &Json) -> (r: Option<&str>)
    ensures
        match r {
            Some(t) => item_output_text(*item) == Some(t@),
            None => item_output_text(*item) is None,
        },
{
    let parts = match get(item, "content") {
        Some(Json::Array(parts)) => parts,
        _ => return None,
    };
    let n = parts.len();
    let mut found: Option<&str> = None;
    let mut i: usize = n;
    while i > 0
        invariant
            i <= n,
            n == parts@.len(),
            match found {
                Some(t) => first_output_text(parts@.subrange(i as int, n as int)) == Some(t@),
                None => first_output_text(parts@.subrange(i as int, n as int)) is None,
            },
        decreases i,
    {
        assert(parts@.subrange(i - 1, n as int).drop_first() =~= parts@.subrange(i as int, n as int));
        assert(parts@.subrange(i - 1, n as int)[0] == parts@[i - 1]);
        let t = as_str(get(&parts[i - 1], "type"));
        let is_output = match t {
            Some(s) => crate::text::str_eq(s, "output_text"),
            None => false,
        };
        if is_output {
            match as_str(get(&parts[i - 1], "text")) {
                Some(s) => {
                    found = Some(s);
                },
                None => {},
            }
        }
        i = i - 1;
    }
    assert(parts@.subrange(0, n as int) =~= parts@);
    found
}

/// The model's answer in a responses-API reply.
pub fn responses_output_text(response: &Json) -> (r: Option<String>)
    ensures
        match r {
            Some(t) => spec_responses_text(*response) == Some(t@),
            None => spec_responses_text(*response) is None,
        },
{
    let items = match get(response, "output") {
        Some(Json::Array(items)) => items,
        _ => return None,
    };
    let n = items.len();
    let mut found: Option<&str> = None;
    let mut i: usize = n;
    while i > 0
        invariant
            i <= n,
            n == items@.len(),
            match found {
                Some(t) => first_item_text(items@.subrange(i as int, n as int)) == Some(t@),
                None => first_item_text(items@.subrange(i as int, n as int)) is None,
            },
        decreases i,
    {
        assert(items@.subrange(i - 1, n as int).drop_first() =~= items@.subrange(i as int, n as int));
        assert(items@.subrange(i - 1, n as int)[0] == items@[i - 1]);
        match item_text(&items[i - 1]) {
            Some(t) => {
                found = Some(t);
            },
            None => {},
        }
        i = i - 1;
    }
    assert(items@.subrange(0, n as int) =~= items@);
    match found {
        Some(t) => Some(t.to_owned()),
        None => None,
    }
}

} // verus!
