use clipfarmer::chat::{chat_event_from_json, chat_events_from_sidecar, sidecar_lines_exec, ChatLineError};
use clipfarmer::json::{parse_json, Json};
use clipfarmer::pipeline::hash_author;

fn json(text: &str) -> Json {
    parse_json(text).unwrap()
}

#[test]
fn json_text_parses_into_the_library_value() {
    match json(r#"[1, "a", null, true, {"k": 2.5}]"#) {
        Json::Array(items) => {
            assert_eq!(items.len(), 5);
            assert!(matches!(&items[0], Json::Number(n) if n == "1"));
            assert!(matches!(&items[1], Json::Str(s) if s == "a"));
            assert!(matches!(&items[2], Json::Null));
            assert!(matches!(&items[3], Json::Bool(true)));
            match &items[4] {
                Json::Object(members) => {
                    assert_eq!(members[0].0, "k");
                    assert!(matches!(&members[0].1, Json::Number(n) if n == "2.5"));
                }
                _ => panic!("expected an object"),
            }
        }
        _ => panic!("expected an array"),
    }
    assert!(parse_json("{not json").is_none());
}

#[test]
fn a_stored_chat_event_keeps_its_fields_in_the_new_session() {
    let value = json(r#"{"session_id":"old","at_ms":1500,"author_hash":"abc","text":"hi","extra":1}"#);
    let event = chat_event_from_json(&value, "new", None).unwrap();
    assert_eq!(event.session_id, "new");
    assert_eq!(event.at_ms, 1500);
    assert_eq!(event.author_hash.as_deref(), Some("abc"));
    assert_eq!(event.text, "hi");
    let value = json(r#"["old", 7, null, "yo"]"#);
    let event = chat_event_from_json(&value, "new", None).unwrap();
    assert_eq!((event.at_ms, event.author_hash, event.text.as_str()), (7, None, "yo"));
}

#[test]
fn a_chat_downloader_line_is_timed_by_seconds_or_at_ms_and_its_author_is_hashed() {
    let value = json(r#"{"time_in_seconds":12.5,"message":"hey","author":{"name":"Bob"}}"#);
    let event = chat_event_from_json(&value, "s", Some(12_500)).unwrap();
    assert_eq!(event.at_ms, 12_500);
    assert_eq!(event.text, "hey");
    assert_eq!(event.author_hash, Some(hash_author("Bob")));
    let value = json(r#"{"at_ms":42,"text":"x","author":"Al"}"#);
    let event = chat_event_from_json(&value, "s", None).unwrap();
    assert_eq!(event.at_ms, 42);
    assert_eq!(event.author_hash, Some(hash_author("Al")));
    let value = json(r#"{"at_ms":42.5,"text":"x"}"#);
    assert_eq!(chat_event_from_json(&value, "s", None).unwrap_err(), ChatLineError::NoTimestamp);
    let value = json(r#"{"at_ms":1}"#);
    assert_eq!(chat_event_from_json(&value, "s", None).unwrap_err(), ChatLineError::NoText);
    let value = json(r#"{"at_ms":1,"message":5,"text":"ignored"}"#);
    assert_eq!(chat_event_from_json(&value, "s", None).unwrap_err(), ChatLineError::NoText);
}

#[test]
fn a_sidecar_reads_its_non_blank_lines_in_order_and_stops_at_the_first_bad_one() {
    let raw = "{\"at_ms\":1,\"text\":\"a\"}\r\n\n   \n{\"time_in_seconds\":2,\"message\":\"b\"}";
    let lines = sidecar_lines_exec(raw);
    assert_eq!(lines, vec!["{\"at_ms\":1,\"text\":\"a\"}".to_owned(), "{\"time_in_seconds\":2,\"message\":\"b\"}".to_owned()]);
    let events = chat_events_from_sidecar(raw, "s", &[None, Some(2_000)]).unwrap();
    assert_eq!(events.len(), 2);
    assert_eq!((events[0].at_ms, events[0].text.as_str()), (1, "a"));
    assert_eq!((events[1].at_ms, events[1].text.as_str()), (2_000, "b"));
    let raw = "{\"at_ms\":1}\nnot json\n";
    assert_eq!(chat_events_from_sidecar(raw, "s", &[None, None]).unwrap_err(), ChatLineError::NoText);
    let raw = "{\"at_ms\":1,\"text\":\"a\"}\nnot json\n";
    assert_eq!(chat_events_from_sidecar(raw, "s", &[None, None]).unwrap_err(), ChatLineError::NotJson);
    assert!(chat_events_from_sidecar("", "s", &[]).unwrap().is_empty());
}
