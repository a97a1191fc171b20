//! Publishing to platforms: credentials and names of the publishers, and the parts of each
//! upload that decide or compute (login checks, response reading, polling verdicts, outcomes).
use vstd::prelude::*;
use crate::domain::{Candidate, Outcome, OutcomeView};
use crate::json::{as_str, get, json_array, json_get, json_str, Json};
use crate::text::{chars_of, extend_chars, extend_str, int_text, int_text_u64, spec_starts_with, str_eq, string_of, trim};

verus! {

/// YouTube Shorts uploads.
#[derive(Debug, Clone)]
pub struct YouTubePublisher {
    pub access_token: String,
    pub privacy_status: String,
    pub work_dir: String,
}

/// Instagram Reels publishing.
#[derive(Debug, Clone)]
pub struct InstagramPublisher {
    pub access_token: String,
    pub account_id: String,
    pub poll_attempts: u32,
}

/// TikTok inbox drafts, which the creator finishes in the app.
#[derive(Debug, Clone)]
pub struct TikTokDraftPublisher {
    pub access_token: String,
}

impl YouTubePublisher {
    /// The platform's name.
    pub fn platform(&self) -> (p: &'static str)
        ensures
            p@ == "youtube"@,
    {
        "youtube"
    }
}

impl InstagramPublisher {
    /// The platform's name.
    pub fn platform(&self) -> (p: &'static str)
        ensures
            p@ == "instagram"@,
    {
        "instagram"
    }

    /// How many status polls to make: the configured number, at least one.
    pub fn poll_rounds(&self) -> (n: u32)
        ensures
            n == (if self.poll_attempts >= 1 { self.poll_attempts } else { 1 }),
    {
        if self.poll_attempts >= 1 { self.poll_attempts } else { 1 }
    }
}

impl TikTokDraftPublisher {
    /// The platform's name.
    pub fn platform(&self) -> (p: &'static str)
        ensures
            p@ == "tiktok"@,
    {
        "tiktok"
    }
}

/// Whether `c` is an ASCII letter, digit or underscore.
pub open spec fn login_char(c: char) -> bool {
    ('a' <= c && c <= 'z') || ('A' <= c && c <= 'Z') || ('0' <= c && c <= '9') || c == '_'
}

/// A Twitch login that is safe to put in a request: non-empty ASCII letters, digits and
/// underscores.
pub open spec fn spec_valid_twitch_login(login: Seq<char>) -> bool {
    login.len() > 0 && forall|i: int| 0 <= i < login.len() ==> login_char(#[trigger] login[i])
}

/// Whether a Twitch login is safe to look up.
pub fn valid_twitch_login(login: &str) -> (b: bool)
    ensures
        b == spec_valid_twitch_login(login@),
{
    let chars = chars_of(login);
    if chars.len() == 0 {
        return false;
    }
    let mut i: usize = 0;
    while i < chars.len()
        invariant
            i <= chars@.len(),
            chars@ == login@,
            forall|j: int| 0 <= j < i ==> login_char(#[trigger] chars@[j]),
        decreases chars.len() - i,
    {
        let c = chars[i];
        if !(('a' <= c && c <= 'z') || ('A' <= c && c <= 'Z') || ('0' <= c && c <= '9') || c == '_') {
            assert(!login_char(login@[i as int]));
            return false;
        }
        i = i + 1;
    }
    true
}

/// `c` with ASCII capitals lowered.
pub open spec fn ascii_lower(c: char) -> char {
    if 'A' <= c && c <= 'Z' { ((c as u32) + 32) as char } else { c }
}

/// Whether two strings are equal ignoring ASCII case.
pub open spec fn eq_ignore_ascii_case(a: Seq<char>, b: Seq<char>) -> bool {
    a.len() == b.len() && forall|i: int| 0 <= i < a.len() ==> ascii_lower(#[trigger] a[i]) == ascii_lower(b[i])
}

fn ascii_lower_exec(c: char) -> (r: char)
    ensures
        r == ascii_lower(c),
{
    if 'A' <= c && c <= 'Z' { (((c as u32) + 32) as u8) as char } else { c }
}

fn eq_ignore_ascii_case_exec(a: &str, b: &str) -> (r: bool)
    ensures
        r == eq_ignore_ascii_case(a@, b@),
{
    let x = chars_of(a);
    let y = chars_of(b);
    if x.len() != y.len() {
        return false;
    }
    let mut i: usize = 0;
    while i < x.len()
        invariant
            i <= x@.len(),
            x@ == a@,
            y@ == b@,
            x@.len() == y@.len(),
            forall|j: int| 0 <= j < i ==> ascii_lower(#[trigger] x@[j]) == ascii_lower(y@[j]),
        decreases x.len() - i,
    {
        if ascii_lower_exec(x[i]) != ascii_lower_exec(y[i]) {
            return false;
        }
        i = i + 1;
    }
    true
}

/// Why a Twitch user lookup could not give a broadcaster.
#[derive(Debug, Clone, Copy, PartialEq, Eq, Structural)]
pub enum BroadcasterError {
    /// No user came back.
    NoChannel,
    /// The user has no login.
    MissingLogin,
    /// The user is another channel.
    DifferentChannel,
    /// The user has no usable numeric ID.
    InvalidId,
}

/// The first user of a lookup response (`/data/0`).
pub open spec fn first_user(response: Json) -> Option<Json> {
    match json_get(response, "data"@) {
        Some(Json::Array(items)) => if items@.len() > 0 { Some(items@[0]) } else { None },
        Some(Json::Object(fields)) => crate::json::first_field(fields@, "0"@),
        _ => None,
    }
}

/// Whether a broadcaster ID is a non-empty run of ASCII digits.
pub open spec fn numeric_id(id: Seq<char>) -> bool {
    id.len() > 0 && forall|i: int| 0 <= i < id.len() ==> '0' <= #[trigger] id[i] && id[i] <= '9'
}

/// The broadcaster ID a user lookup gives for `expected_login`, or why it gives none.
pub open spec fn spec_broadcaster_id(response: Json, expected_login: Seq<char>) -> Result<Seq<char>, BroadcasterError> {
    match first_user(response) {
        None => Err(BroadcasterError::NoChannel),
        Some(user) => match json_str(json_get(user, "login"@)) {
            None => Err(BroadcasterError::MissingLogin),
            Some(login) => if !eq_ignore_ascii_case(login, expected_login) {
                Err(BroadcasterError::DifferentChannel)
            } else {
                match json_str(json_get(user, "id"@)) {
                    Some(id) => if numeric_id(id) { Ok(id) } else { Err(BroadcasterError::InvalidId) },
                    None => Err(BroadcasterError::InvalidId),
                }
            },
        },
    }
}

/// Reads the broadcaster ID of `expected_login` from a Twitch user lookup.
pub fn broadcaster_id_from_response(response: &Json, expected_login: &str) -> (r: Result<String, BroadcasterError>)
    ensures
        match r {
            Ok(id) => spec_broadcaster_id(*response, expected_login@) == Ok::<Seq<char>, BroadcasterError>(id@),
            Err(e) => spec_broadcaster_id(*response, expected_login@) == Err::<Seq<char>, BroadcasterError>(e),
        },
{
    let user: &Json = match get(response, "data") {
        Some(Json::Array(items)) => {
            if items.len() == 0 {
                return Err(BroadcasterError::NoChannel);
            }
            &items[0]
        },
        Some(Json::Object(_)) => match get(get(response, "data").unwrap(), "0") {
            Some(u) => u,
            None => return Err(BroadcasterError::NoChannel),
        },
        _ => return Err(BroadcasterError::NoChannel),
    };
    let login = match as_str(get(user, "login")) {
        Some(l) => l,
        None => return Err(BroadcasterError::MissingLogin),
    };
    if !eq_ignore_ascii_case_exec(login, expected_login) {
        return Err(BroadcasterError::DifferentChannel);
    }
    let id = match as_str(get(user, "id")) {
        Some(i) => i,
        None => return Err(BroadcasterError::InvalidId),
    };
    let chars = chars_of(id);
    let ghost verdict = spec_broadcaster_id(*response, expected_login@);
    assert(verdict == (if numeric_id(id@) { Ok::<Seq<char>, BroadcasterError>(id@) } else { Err(BroadcasterError::InvalidId) }));
    if chars.len() == 0 {
        return Err(BroadcasterError::InvalidId);
    }
    let mut i: usize = 0;
    while i < chars.len()
        invariant
            i <= chars@.len(),
            chars@ == id@,
            verdict == spec_broadcaster_id(*response, expected_login@),
            verdict == (if numeric_id(id@) { Ok::<Seq<char>, BroadcasterError>(id@) } else { Err(BroadcasterError::InvalidId) }),
            forall|j: int| 0 <= j < i ==> '0' <= #[trigger] chars@[j] && chars@[j] <= '9',
        decreases chars.len() - i,
    {
        if !('0' <= chars[i] && chars[i] <= '9') {
            assert(!numeric_id(id@)) by {
                assert(!('0' <= id@[i as int] && id@[i as int] <= '9'));
            }
            return Err(BroadcasterError::InvalidId);
        }
        i = i + 1;
    }
    Ok(id.to_owned())
}

/// The lines of `s`, split at each newline (the last line may be empty).
pub open spec fn lines_of(s: Seq<char>) -> Seq<Seq<char>>
    decreases s.len(),
{
    if s.len() == 0 {
        seq![Seq::empty()]
    } else {
        let init = lines_of(s.drop_last());
        if s.last() == '\n' {
            init.push(Seq::empty())
        } else {
            init.update(init.len() - 1, init.last().push(s.last()))
        }
    }
}

/// The value of the first `Location:` (or `location:`) header among `lines`, trimmed.
pub open spec fn first_location(lines: Seq<Seq<char>>) -> Option<Seq<char>>
    decreases lines.len(),
{
    if lines.len() == 0 {
        None
    } else if spec_starts_with(lines[0], "Location:"@) || spec_starts_with(lines[0], "location:"@) {
        Some(trim(lines[0].subrange(9, lines[0].len() as int)))
    } else {
        first_location(lines.drop_first())
    }
}

proof fn lemma_lines_nonempty(s: Seq<char>)
    ensures
        lines_of(s).len() >= 1,
    decreases s.len(),
{
    if s.len() > 0 {
        lemma_lines_nonempty(s.drop_last());
    }
}

fn lines_exec(s: &[char]) -> (out: Vec<Vec<char>>)
    ensures
        crate::text::views(out@) == lines_of(s@),
{
    let mut lines: Vec<Vec<char>> = Vec::new();
    let mut current: Vec<char> = Vec::new();
    let mut i: usize = 0;
    assert(s@.subrange(0, 0) =~= Seq::<char>::empty());
    while i < s.len()
        invariant
            i <= s@.len(),
            crate::text::views(lines@).push(current@) == lines_of(s@.subrange(0, i as int)),
        decreases s.len() - i,
    {
        proof {
            lemma_lines_nonempty(s@.subrange(0, i as int));
        }
        assert(s@.subrange(0, i + 1).drop_last() =~= s@.subrange(0, i as int));
        let ghost before = crate::text::views(lines@);
        let ghost cur = current@;
        if s[i] == '\n' {
            let mut done: Vec<char> = Vec::new();
            std::mem::swap(&mut done, &mut current);
            lines.push(done);
            assert(crate::text::views(lines@) =~= before.push(cur));
            assert(crate::text::views(lines@).push(current@) =~= before.push(cur).push(Seq::<char>::empty()));
        } else {
            current.push(s[i]);
            assert(crate::text::views(lines@).push(current@) =~= before.push(cur).update(before.len() as int, cur.push(s[i as int])));
        }
        i = i + 1;
    }
    assert(s@.subrange(0, s@.len() as int) =~= s@);
    let ghost before = crate::text::views(lines@);
    lines.push(current);
    assert(crate::text::views(lines@) =~= before.push(current@));
    lines
}

/// Where a resumable upload goes: the `Location` response header, trimmed.
pub fn resumable_location(headers: &str) -> (r: Option<String>)
    ensures
        match r {
            Some(l) => first_location(lines_of(headers@)) == Some(l@),
            None => first_location(lines_of(headers@)) is None,
        },
{
    let chars = chars_of(headers);
    let lines = lines_exec(&chars);
    let ghost ls = crate::text::views(lines@);
    let n = lines.len();
    let mut found: Option<Vec<char>> = None;
    let mut i: usize = n;
    while i > 0
        invariant
            i <= n,
            n == lines@.len(),
            ls == crate::text::views(lines@),
            match found {
                Some(l) => first_location(ls.subrange(i as int, n as int)) == Some(l@),
                None => first_location(ls.subrange(i as int, n as int)) is None,
            },
        decreases i,
    {
        assert(ls.subrange(i - 1, n as int).drop_first() =~= ls.subrange(i as int, n as int));
        assert(ls.subrange(i - 1, n as int)[0] == lines@[i - 1]@);
        let line = &lines[i - 1];
        let upper: Vec<char> = vec!['L', 'o', 'c', 'a', 't', 'i', 'o', 'n', ':'];
        let lower: Vec<char> = vec!['l', 'o', 'c', 'a', 't', 'i', 'o', 'n', ':'];
        proof {
            reveal_strlit("Location:");
            reveal_strlit("location:");
        }
        assert(upper@ =~= "Location:"@);
        assert(lower@ =~= "location:"@);
        if crate::text::starts_with(line.as_slice(), upper.as_slice()) || crate::text::starts_with(line.as_slice(), lower.as_slice()) {
            let mut rest: Vec<char> = Vec::new();
            let mut k: usize = 9;
            while k < line.len()
                invariant
                    9 <= k <= line@.len(),
                    rest@ == line@.subrange(9, k as int),
                decreases line.len() - k,
            {
                rest.push(line[k]);
                k = k + 1;
            }
            let t = crate::text::trim_exec(&rest);
            found = Some(t);
        }
        i = i - 1;
    }
    assert(ls.subrange(0, n as int) =~= ls);
    match found {
        Some(l) => Some(string_of(&l)),
        None => None,
    }
}

/// What an Instagram media container's status means for the publisher.
#[derive(Debug, Clone, Copy, PartialEq, Eq, Structural)]
pub enum ContainerStatus {
    /// Processing finished; the media can be published.
    Finished,
    /// Instagram refused the media.
    Rejected,
    /// Still processing; poll again after a pause.
    Pending,
}

/// The verdict on a container's `status_code`.
pub open spec fn spec_container_status(code: Option<Seq<char>>) -> ContainerStatus {
    match code {
        Some(c) => if c == "FINISHED"@ {
            ContainerStatus::Finished
        } else if c == "ERROR"@ || c == "EXPIRED"@ {
            ContainerStatus::Rejected
        } else {
            ContainerStatus::Pending
        },
        None => ContainerStatus::Pending,
    }
}

/// Reads a container status response.
pub fn container_status(status: &Json) -> (s: ContainerStatus)
    ensures
        s == spec_container_status(json_str(json_get(*status, "status_code"@))),
{
    match as_str(get(status, "status_code")) {
        Some(c) => if str_eq(c, "FINISHED") {
            ContainerStatus::Finished
        } else if str_eq(c, "ERROR") || str_eq(c, "EXPIRED") {
            ContainerStatus::Rejected
        } else {
            ContainerStatus::Pending
        },
        None => ContainerStatus::Pending,
    }
}

/// The `Content-Range` header for uploading a whole file of `size` bytes in one chunk.
pub fn content_range(size: u64) -> (h: String)
    requires
        size > 0,
    ensures
        h@ == "Content-Range: bytes 0-"@ + int_text(size - 1) + seq!['/'] + int_text(size as int),
{
    let mut text: Vec<char> = Vec::new();
    extend_str(&mut text, "Content-Range: bytes 0-");
    let a = int_text_u64(size - 1);
    extend_chars(&mut text, &a);
    text.push('/');
    let b = int_text_u64(size);
    extend_chars(&mut text, &b);
    string_of(&text)
}

/// The outcome of a finished upload.
pub open spec fn spec_outcome(
    candidate_id: Seq<char>,
    platform: Seq<char>,
    remote_id: Seq<char>,
    status: Seq<char>,
    key: Seq<char>,
    url: Option<Seq<char>>,
) -> OutcomeView {
    OutcomeView { candidate_id, platform, remote_id, status, idempotency_key: key, url }
}

/// A YouTube upload's outcome: published, with its Shorts link.
pub fn youtube_outcome(candidate: &Candidate, remote_id: &str, idempotency_key: &str) -> (o: Outcome)
    ensures
        o@ == spec_outcome(candidate.id@, "youtube"@, remote_id@, "published"@, idempotency_key@, Some("https://youtube.com/shorts/"@ + remote_id@)),
{
    let mut url: Vec<char> = Vec::new();
    extend_str(&mut url, "https://youtube.com/shorts/");
    extend_str(&mut url, remote_id);
    Outcome {
        candidate_id: candidate.id.clone(),
        platform: "youtube".to_owned(),
        remote_id: remote_id.to_owned(),
        status: "published".to_owned(),
        idempotency_key: idempotency_key.to_owned(),
        url: Some(string_of(&url)),
    }
}

/// An Instagram publication's outcome: published, without a link.
pub fn instagram_outcome(candidate: &Candidate, remote_id: &str, idempotency_key: &str) -> (o: Outcome)
    ensures
        o@ == spec_outcome(candidate.id@, "instagram"@, remote_id@, "published"@, idempotency_key@, None),
{
    Outcome {
        candidate_id: candidate.id.clone(),
        platform: "instagram".to_owned(),
        remote_id: remote_id.to_owned(),
        status: "published".to_owned(),
        idempotency_key: idempotency_key.to_owned(),
        url: None,
    }
}

/// A TikTok draft's outcome: it awaits the creator.
pub fn tiktok_outcome(candidate: &Candidate, publish_id: &str, idempotency_key: &str) -> (o: Outcome)
    ensures
        o@ == spec_outcome(candidate.id@, "tiktok"@, publish_id@, "awaiting_creator"@, idempotency_key@, None),
{
    Outcome {
        candidate_id: candidate.id.clone(),
        platform: "tiktok".to_owned(),
        remote_id: publish_id.to_owned(),
        status: "awaiting_creator".to_owned(),
        idempotency_key: idempotency_key.to_owned(),
        url: None,
    }
}

/// A Twitch clip's outcome: published, with its clip link.
pub fn twitch_outcome(candidate: &Candidate, remote_id: &str, idempotency_key: &str) -> (o: Outcome)
    ensures
        o@ == spec_outcome(candidate.id@, "twitch"@, remote_id@, "published"@, idempotency_key@, Some("https://clips.twitch.tv/"@ + remote_id@)),
{
    let mut url: Vec<char> = Vec::new();
    extend_str(&mut url, "https://clips.twitch.tv/");
    extend_str(&mut url, remote_id);
    Outcome {
        candidate_id: candidate.id.clone(),
        platform: "twitch".to_owned(),
        remote_id: remote_id.to_owned(),
        status: "published".to_owned(),
        idempotency_key: idempotency_key.to_owned(),
        url: Some(string_of(&url)),
    }
}

/// `login` with ASCII capitals lowered, as broadcaster IDs are cached under.
pub fn normalized_login(login: &str) -> (out: String)
    ensures
        out@ == Seq::new(login@.len(), |i: int| ascii_lower(login@[i])),
{
    let chars = chars_of(login);
    let mut out: Vec<char> = Vec::new();
    let mut i: usize = 0;
    while i < chars.len()
        invariant
            i <= chars@.len(),
            chars@ == login@,
            out@ == Seq::new(i as nat, |k: int| ascii_lower(login@[k])),
        decreases chars.len() - i,
    {
        out.push(ascii_lower_exec(chars[i]));
        assert(out@ =~= Seq::new((i + 1) as nat, |k: int| ascii_lower(login@[k])));
        i = i + 1;
    }
    string_of(&out)
}

} // verus!
