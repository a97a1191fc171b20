use clipfarmer::json::{interaction_output_text, responses_output_text, Json};

fn obj(fields: Vec<(&str, Json)>) -> Json {
    Json::Object(fields.into_iter().map(|(k, v)| (k.to_owned(), v)).collect())
}

fn s(v: &str) -> Json {
    Json::Str(v.to_owned())
}

#[test]
fn extracts_structured_text_from_the_last_model_output() {
    let response = obj(vec![(
        "steps",
        Json::Array(vec![
            obj(vec![("type", s("thought")), ("summary", Json::Array(vec![obj(vec![("type", s("text")), ("text", s("hidden reasoning"))])]))]),
            obj(vec![
                ("type", s("model_output")),
                (
                    "content",
                    Json::Array(vec![
                        obj(vec![("type", s("text")), ("text", s("{\"accept\":"))]),
                        obj(vec![("type", s("text")), ("text", s("true}"))]),
                    ]),
                ),
            ]),
        ]),
    )]);
    assert_eq!(interaction_output_text(&response).as_deref(), Some("{\"accept\":true}"));
}

#[test]
fn extracts_responses_output_text() {
    let response = obj(vec![(
        "output",
        Json::Array(vec![obj(vec![("content", Json::Array(vec![obj(vec![("type", s("output_text")), ("text", s("{\"accept\":true}"))])]))])]),
    )]);
    assert_eq!(responses_output_text(&response).as_deref(), Some("{\"accept\":true}"));
}

#[test]
fn output_text_is_absent_without_text_parts() {
    let response = obj(vec![("steps", Json::Array(vec![obj(vec![("type", s("model_output")), ("content", Json::Array(vec![]))])]))]);
    assert_eq!(interaction_output_text(&response), None);
    assert_eq!(interaction_output_text(&Json::Null), None);
    let skipped = obj(vec![(
        "output",
        Json::Array(vec![
            obj(vec![("type", s("reasoning"))]),
            obj(vec![("content", Json::Array(vec![obj(vec![("type", s("refusal")), ("text", s("no"))]), obj(vec![("type", s("output_text")), ("text", s("yes"))])]))]),
        ]),
    )]);
    assert_eq!(responses_output_text(&skipped).as_deref(), Some("yes"));
    assert_eq!(responses_output_text(&Json::Bool(true)), None);
}
