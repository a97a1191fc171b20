//! Chat recorded beside the media: a JSON-lines sidecar whose lines are either chat events in the
//! library's own shape or chat_downloader's messages, turned into the session's chat events.
use vstd::prelude::*;
use crate::cli::{parse_int, parse_int_exec};
use crate::digest::sha256_digest;
use crate::domain::{ChatEvent, ChatEventView};
use crate::json::{as_str, get, json_get, json_str, parse_json, parsed_json, Json};
use crate::models::hex;
use crate::pipeline::hash_author;
use crate::text::{chars_of, is_whitespace, spec_is_whitespace};

verus! {

/// Why a chat line was refused.
#[derive(Debug, Clone, Copy, PartialEq, Eq, Structural)]
pub enum ChatLineError {
    /// The line is not JSON.
    NotJson,
    /// The line has no timeline timestamp.
    NoTimestamp,
    /// The line has no message text.
    NoText,
}

impl ChatLineError {
    /// The explanation shown to the operator.
    pub fn message(&self) -> (m: &'static str)
        ensures
            m@ == chat_line_error_message(*self),
    {
        match self {
            ChatLineError::NotJson => "chat line is not JSON",
            ChatLineError::NoTimestamp => "chat line has no timeline timestamp",
            ChatLineError::NoText => "chat line has no message text",
        }
    }
}

/// The explanation of each refusal.
pub open spec fn chat_line_error_message(e: ChatLineError) -> Seq<char> {
    match e {
        ChatLineError::NotJson => "chat line is not JSON"@,
        ChatLineError::NoTimestamp => "chat line has no timeline timestamp"@,
        ChatLineError::NoText => "chat line has no message text"@,
    }
}

/// The pseudonym of a chat author: the first 16 hex digits of the SHA-256 of the name's UTF-8.
pub open spec fn author_pseudonym(name: Seq<char>) -> Seq<char> {
    hex(sha256_digest(vstd::utf8::encode_utf8(name))).subrange(0, 16)
}

/// A JSON number that is a whole number fitting `i64` (as serde's `i64` reads one).
pub open spec fn json_i64(v: Option<Json>) -> Option<i64> {
    match v {
        Some(Json::Number(t)) => match parse_int(t@) {
            Some(x) => Some(x as i64),
            None => None,
        },
        _ => None,
    }
}

/// An optional string field as serde's `Option<String>` reads it: absent or null is none, a
/// string is that string, anything else is refused.
pub open spec fn json_opt_string(v: Option<Json>) -> Option<Option<Seq<char>>> {
    match v {
        None => Some(None),
        Some(Json::Null) => Some(None),
        Some(Json::Str(s)) => Some(Some(s@)),
        _ => None,
    }
}

/// The fields of a stored chat event, when each has the right type: its time, author pseudonym
/// and text (its session is replaced).
pub open spec fn stored_event(session: Option<Json>, at: Option<Json>, author: Option<Json>, text: Option<Json>) -> Option<(
    i64,
    Option<Seq<char>>,
    Seq<char>,
)> {
    match (json_str(session), json_i64(at), json_opt_string(author), json_str(text)) {
        (Some(_), Some(a), Some(h), Some(t)) => Some((a, h, t)),
        _ => None,
    }
}

/// A line in the library's own chat event shape, as serde's derived reader takes it: an object
/// with `session_id`, `at_ms`, optional `author_hash` and `text` (other members ignored), or an
/// array of exactly those four in that order.
pub open spec fn library_event(v: Json) -> Option<(i64, Option<Seq<char>>, Seq<char>)> {
    match v {
        Json::Object(_) => stored_event(
            json_get(v, "session_id"@),
            json_get(v, "at_ms"@),
            json_get(v, "author_hash"@),
            json_get(v, "text"@),
        ),
        Json::Array(items) => if items.len() == 4 {
            stored_event(Some(items@[0]), Some(items@[1]), Some(items@[2]), Some(items@[3]))
        } else {
            None
        },
        _ => None,
    }
}

/// The chat event a parsed line gives for the session `session_id`. A line in the library's own
/// shape keeps its time, author and text. Otherwise (chat_downloader's shape) the time is
/// `time_in_seconds` in milliseconds when that is a number (`seconds_ms`, computed by the caller
/// in floating point), else the whole number `at_ms`; the text is `message` if present, else
/// `text`; the author is `author.name` if present, else `author`, and is kept only as its
/// pseudonym.
pub open spec fn spec_chat_line(v: Json, session_id: Seq<char>, seconds_ms: Option<i64>) -> Result<ChatEventView, ChatLineError> {
    match library_event(v) {
        Some((at, author, text)) => Ok(ChatEventView { session_id, at_ms: at, author_hash: author, text }),
        None => {
            let at = match json_get(v, "time_in_seconds"@) {
                Some(Json::Number(_)) => seconds_ms,
                _ => json_i64(json_get(v, "at_ms"@)),
            };
            let message = json_get(v, "message"@);
            let text = json_str(if message is Some { message } else { json_get(v, "text"@) });
            let named = match json_get(v, "author"@) {
                Some(a) => json_get(a, "name"@),
                None => None,
            };
            let author = json_str(if named is Some { named } else { json_get(v, "author"@) });
            match at {
                None => Err(ChatLineError::NoTimestamp),
                Some(a) => match text {
                    None => Err(ChatLineError::NoText),
                    Some(t) => Ok(ChatEventView {
                        session_id,
                        at_ms: a,
                        author_hash: match author {
                            Some(n) => Some(author_pseudonym(n)),
                            None => None,
                        },
                        text: t,
                    }),
                },
            }
        },
    }
}

/// `Option<&Json>` as `Option<Json>`.
pub open spec fn deref_json(v: Option<&Json>) -> Option<Json> {
    match v {
        Some(x) => Some(*x),
        None => None,
    }
}

fn json_i64_exec(v: Option<&Json>) -> (r: Option<i64>)
    ensures
        r == json_i64(deref_json(v)),
{
    match v {
        Some(Json::Number(t)) => {
            let chars = chars_of(t.as_str());
            parse_int_exec(chars.as_slice())
        },
        _ => None,
    }
}

fn json_opt_string_exec(v: Option<&Json>) -> (r: Option<Option<String>>)
    ensures
        match json_opt_string(deref_json(v)) {
            Some(Some(s)) => r matches Some(Some(x)) && x@ == s,
            Some(None) => r == Some(None::<String>),
            None => r is None,
        },
{
    match v {
        None => Some(None),
        Some(Json::Null) => Some(None),
        Some(Json::Str(s)) => Some(Some(s.clone())),
        _ => None,
    }
}

fn stored_event_exec(session: Option<&Json>, at: Option<&Json>, author: Option<&Json>, text: Option<&Json>) -> (r: Option<
    (i64, Option<String>, String),
>)
    ensures
        match stored_event(deref_json(session), deref_json(at), deref_json(author), deref_json(text)) {
            Some((a, h, t)) => r matches Some((a2, h2, t2)) && a2 == a && crate::domain::opt_view(h2) == h && t2@ == t,
            None => r is None,
        },
{
    let s = as_str(session);
    let a = json_i64_exec(at);
    let h = json_opt_string_exec(author);
    let t = as_str(text);
    match (s, a, h, t) {
        (Some(_), Some(a), Some(h), Some(t)) => {
            let text = t.to_owned();
            Some((a, h, text))
        },
        _ => None,
    }
}

fn library_event_exec(v: &Json) -> (r: Option<(i64, Option<String>, String)>)
    ensures
        match library_event(*v) {
            Some((a, h, t)) => r matches Some((a2, h2, t2)) && a2 == a && crate::domain::opt_view(h2) == h && t2@ == t,
            None => r is None,
        },
{
    match v {
        Json::Object(_) => stored_event_exec(get(v, "session_id"), get(v, "at_ms"), get(v, "author_hash"), get(v, "text")),
        Json::Array(items) => {
            if items.len() == 4 {
                stored_event_exec(Some(&items[0]), Some(&items[1]), Some(&items[2]), Some(&items[3]))
            } else {
                None
            }
        },
        _ => None,
    }
}

/// The chat event a parsed chat line gives for the session `session_id`; `seconds_ms` is the
/// line's `time_in_seconds` times 1000 as the caller computed it in floating point, used only when
/// that member is a number.
pub fn chat_event_from_json(value: &Json, session_id: &str, seconds_ms: Option<i64>) -> (r: Result<ChatEvent, ChatLineError>)
    ensures
        match spec_chat_line(*value, session_id@, seconds_ms) {
            Ok(e) => r matches Ok(x) && x@ == e,
            Err(e) => r == Err::<ChatEvent, ChatLineError>(e),
        },
{
    proof {
        reveal_strlit("session_id");
        reveal_strlit("at_ms");
        reveal_strlit("author_hash");
        reveal_strlit("text");
        reveal_strlit("time_in_seconds");
        reveal_strlit("message");
        reveal_strlit("author");
        reveal_strlit("name");
    }
    if let Some((at_ms, author_hash, text)) = library_event_exec(value) {
        return Ok(ChatEvent { session_id: session_id.to_owned(), at_ms, author_hash, text });
    }
    let at = match get(value, "time_in_seconds") {
        Some(Json::Number(_)) => seconds_ms,
        _ => json_i64_exec(get(value, "at_ms")),
    };
    let at_ms = match at {
        None => return Err(ChatLineError::NoTimestamp),
        Some(a) => a,
    };
    let message = get(value, "message");
    let text = match as_str(if message.is_some() { message } else { get(value, "text") }) {
        None => return Err(ChatLineError::NoText),
        Some(t) => t.to_owned(),
    };
    let named = match get(value, "author") {
        Some(a) => get(a, "name"),
        None => None,
    };
    let author = as_str(if named.is_some() { named } else { get(value, "author") });
    let author_hash = match author {
        Some(n) => Some(hash_author(n)),
        None => None,
    };
    Ok(ChatEvent { session_id: session_id.to_owned(), at_ms, author_hash, text })
}

/// `s` split at every `\n`.
pub open spec fn split_lines(s: Seq<char>) -> Seq<Seq<char>>
    decreases s.len(),
{
    if s.len() == 0 {
        seq![Seq::empty()]
    } else {
        let init = split_lines(s.drop_last());
        if s.last() == '\n' {
            init.push(Seq::empty())
        } else {
            init.update(init.len() - 1, init.last().push(s.last()))
        }
    }
}

/// A line that ended in `\n`, with the `\r` of a `\r\n` ending removed.
pub open spec fn strip_cr(l: Seq<char>) -> Seq<char> {
    if l.len() > 0 && l.last() == '\r' { l.drop_last() } else { l }
}

/// Whether a line holds only whitespace.
pub open spec fn blank(l: Seq<char>) -> bool {
    forall|i: int| 0 <= i < l.len() ==> spec_is_whitespace(#[trigger] l[i])
}

/// The lines that ended in `\n` (their `\r\n` ending removed), blank ones left out.
pub open spec fn kept_lines(pieces: Seq<Seq<char>>) -> Seq<Seq<char>>
    decreases pieces.len(),
{
    if pieces.len() == 0 {
        Seq::empty()
    } else {
        let init = kept_lines(pieces.drop_last());
        let l = strip_cr(pieces.last());
        if blank(l) { init } else { init.push(l) }
    }
}

/// The non-blank lines of a sidecar, in order, as `str::lines` yields them: split at `\n`, a
/// `\r` before a `\n` removed, a final line without `\n` kept as it is.
pub open spec fn sidecar_lines(s: Seq<char>) -> Seq<Seq<char>> {
    let pieces = split_lines(s);
    let tail = pieces.last();
    kept_lines(pieces.drop_last()) + if blank(tail) { Seq::<Seq<char>>::empty() } else { seq![tail] }
}

proof fn lemma_split_lines_len(s: Seq<char>)
    ensures
        split_lines(s).len() >= 1,
    decreases s.len(),
{
    if s.len() > 0 {
        lemma_split_lines_len(s.drop_last());
    }
}

fn blank_exec(l: &Vec<char>) -> (b: bool)
    ensures
        b == blank(l@),
{
    let mut i: usize = 0;
    while i < l.len()
        invariant
            i <= l@.len(),
            forall|k: int| 0 <= k < i ==> spec_is_whitespace(#[trigger] l@[k]),
        decreases l.len() - i,
    {
        if !is_whitespace(l[i]) {
            return false;
        }
        i = i + 1;
    }
    true
}

/// The non-blank lines of a chat sidecar, in order (see [`sidecar_lines`]).
pub fn sidecar_lines_exec(raw: &str) -> (lines: Vec<String>)
    ensures
        Seq::new(lines@.len(), |i: int| lines@[i]@) == sidecar_lines(raw@),
{
    let chars = chars_of(raw);
    let mut out: Vec<String> = Vec::new();
    let mut current: Vec<char> = Vec::new();
    let mut i: usize = 0;
    assert(chars@.subrange(0, 0) =~= Seq::<char>::empty());
    while i < chars.len()
        invariant
            i <= chars@.len(),
            chars@ == raw@,
            Seq::new(out@.len(), |k: int| out@[k]@) == kept_lines(split_lines(chars@.subrange(0, i as int)).drop_last()),
            current@ == split_lines(chars@.subrange(0, i as int)).last(),
        decreases chars.len() - i,
    {
        let ghost pre = chars@.subrange(0, i as int);
        let ghost ps = split_lines(pre);
        let ghost before = Seq::new(out@.len(), |k: int| out@[k]@);
        proof {
            lemma_split_lines_len(pre);
        }
        assert(chars@.subrange(0, i + 1).drop_last() =~= pre);
        assert(chars@.subrange(0, i + 1).last() == chars@[i as int]);
        if chars[i] == '\n' {
            let mut line: Vec<char> = Vec::new();
            std::mem::swap(&mut line, &mut current);
            let n = line.len();
            if n > 0 && line[n - 1] == '\r' {
                line.pop();
            }
            assert(line@ == strip_cr(ps.last()));
            assert(split_lines(chars@.subrange(0, i + 1)).drop_last() =~= ps);
            assert(ps.drop_last().push(ps.last()) =~= ps);
            if !blank_exec(&line) {
                out.push(crate::text::string_of(line.as_slice()));
                assert(Seq::new(out@.len(), |k: int| out@[k]@) =~= before.push(line@));
            } else {
                assert(Seq::new(out@.len(), |k: int| out@[k]@) =~= before);
            }
            assert(current@ =~= Seq::<char>::empty());
        } else {
            let ghost cur = current@;
            current.push(chars[i]);
            assert(split_lines(chars@.subrange(0, i + 1)) == ps.update(ps.len() - 1, cur.push(chars@[i as int])));
            assert(split_lines(chars@.subrange(0, i + 1)).drop_last() =~= ps.drop_last());
            assert(Seq::new(out@.len(), |k: int| out@[k]@) =~= before);
        }
        i = i + 1;
    }
    assert(chars@.subrange(0, chars@.len() as int) =~= raw@);
    let ghost before = Seq::new(out@.len(), |k: int| out@[k]@);
    if !blank_exec(&current) {
        out.push(crate::text::string_of(current.as_slice()));
        assert(Seq::new(out@.len(), |k: int| out@[k]@) =~= before + seq![current@]);
    } else {
        assert(Seq::new(out@.len(), |k: int| out@[k]@) =~= before + Seq::<Seq<char>>::empty());
    }
    out
}

/// The chat events of the lines, in order, for the session `session_id`: each line parsed as
/// JSON and read as a chat line (`seconds[i]` being line `i`'s floating-point time in
/// milliseconds); the first refused line decides the error.
pub open spec fn spec_chat_events(lines: Seq<Seq<char>>, session_id: Seq<char>, seconds: Seq<Option<i64>>) -> Result<
    Seq<ChatEventView>,
    ChatLineError,
>
    decreases lines.len(),
{
    if lines.len() == 0 {
        Ok(Seq::empty())
    } else {
        match spec_chat_events(lines.drop_last(), session_id, seconds) {
            Err(e) => Err(e),
            Ok(prev) => match parsed_json(lines.last()) {
                None => Err(ChatLineError::NotJson),
                Some(v) => match spec_chat_line(v, session_id, seconds[lines.len() - 1]) {
                    Err(e) => Err(e),
                    Ok(ev) => Ok(prev.push(ev)),
                },
            },
        }
    }
}

proof fn lemma_chat_error_sticks(ls: Seq<Seq<char>>, session_id: Seq<char>, seconds: Seq<Option<i64>>, k: int, e: ChatLineError)
    requires
        0 <= k <= ls.len(),
        spec_chat_events(ls.subrange(0, k), session_id, seconds) == Err::<Seq<ChatEventView>, ChatLineError>(e),
    ensures
        spec_chat_events(ls, session_id, seconds) == Err::<Seq<ChatEventView>, ChatLineError>(e),
    decreases ls.len() - k,
{
    if k < ls.len() {
        assert(ls.subrange(0, k + 1).drop_last() =~= ls.subrange(0, k));
        lemma_chat_error_sticks(ls, session_id, seconds, k + 1, e);
    } else {
        assert(ls.subrange(0, k) =~= ls);
    }
}

/// The chat events of a sidecar for the session `session_id`: its non-blank lines, in order,
/// each parsed as JSON and read as a chat line; `seconds[i]` is the `time_in_seconds` of the
/// `i`-th non-blank line in milliseconds as the caller computed it in floating point. The first
/// refused line decides the error.
pub fn chat_events_from_sidecar(raw: &str, session_id: &str, seconds: &[Option<i64>]) -> (r: Result<Vec<ChatEvent>, ChatLineError>)
    requires
        seconds@.len() == sidecar_lines(raw@).len(),
    ensures
        match spec_chat_events(sidecar_lines(raw@), session_id@, seconds@) {
            Ok(evs) => r matches Ok(v) && Seq::new(v@.len(), |i: int| v@[i]@) == evs,
            Err(e) => r == Err::<Vec<ChatEvent>, ChatLineError>(e),
        },
{
    let lines = sidecar_lines_exec(raw);
    let ghost ls = sidecar_lines(raw@);
    let mut out: Vec<ChatEvent> = Vec::new();
    let mut i: usize = 0;
    assert(Seq::new(out@.len(), |k: int| out@[k]@) =~= Seq::<ChatEventView>::empty());
    assert(ls.subrange(0, 0) =~= Seq::<Seq<char>>::empty());
    while i < lines.len()
        invariant
            i <= lines@.len(),
            out@.len() == i,
            Seq::new(lines@.len(), |k: int| lines@[k]@) == ls,
            ls == sidecar_lines(raw@),
            seconds@.len() == ls.len(),
            spec_chat_events(ls.subrange(0, i as int), session_id@, seconds@) == Ok::<Seq<ChatEventView>, ChatLineError>(
                Seq::new(out@.len(), |k: int| out@[k]@),
            ),
        decreases lines.len() - i,
    {
        let ghost before = Seq::new(out@.len(), |k: int| out@[k]@);
        assert(ls.subrange(0, i + 1).drop_last() =~= ls.subrange(0, i as int));
        assert(ls.subrange(0, i + 1).last() == lines@[i as int]@);
        let value = match parse_json(lines[i].as_str()) {
            None => {
                proof {
                    lemma_chat_error_sticks(ls, session_id@, seconds@, i + 1, ChatLineError::NotJson);
                }
                return Err(ChatLineError::NotJson);
            },
            Some(v) => v,
        };
        let event = match chat_event_from_json(&value, session_id, seconds[i]) {
            Err(e) => {
                proof {
                    lemma_chat_error_sticks(ls, session_id@, seconds@, i + 1, e);
                }
                return Err(e);
            },
            Ok(e) => e,
        };
        let ghost ev = event@;
        out.push(event);
        assert(Seq::new(out@.len(), |k: int| out@[k]@) =~= before.push(ev));
        i = i + 1;
    }
    assert(ls.subrange(0, lines@.len() as int) =~= ls);
    Ok(out)
}

} // verus!
