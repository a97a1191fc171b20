//! Publisher accounts of the desktop app: which platforms can be connected, how credentials are
//! cleaned up, and the book of stored credentials with the environment it implies.
use vstd::prelude::*;
use crate::domain::opt_view;
use crate::text::{chars_of, extend_str, str_eq, string_of, trim, trim_exec};

verus! {

/// The platforms, in the order the app lists them.
pub open spec fn spec_platforms() -> Seq<Seq<char>> {
    seq!["youtube"@, "tiktok"@, "instagram"@, "twitch"@]
}

/// The platforms the app can publish to.
pub fn platforms() -> (p: Vec<&'static str>)
    ensures
        p@.len() == 4,
        forall|i: int| 0 <= i < 4 ==> (#[trigger] p@[i])@ == spec_platforms()[i],
{
    let mut p: Vec<&'static str> = Vec::new();
    p.push("youtube");
    p.push("tiktok");
    p.push("instagram");
    p.push("twitch");
    p
}

/// Whether `platform` is one the app can publish to.
pub open spec fn supported_platform(platform: Seq<char>) -> bool {
    spec_platforms().contains(platform)
}

/// The refusal of an unsupported platform.
pub open spec fn unsupported_platform(platform: Seq<char>) -> Seq<char> {
    "unsupported publishing platform "@ + platform
}

/// Checks that the app can publish to `platform`.
pub fn validate_platform(platform: &str) -> (r: Result<(), String>)
    ensures
        supported_platform(platform@) ==> r is Ok,
        !supported_platform(platform@) ==> (r matches Err(e) && e@ == unsupported_platform(platform@)),
{
    let all = platforms();
    let mut i: usize = 0;
    while i < all.len()
        invariant
            i <= 4,
            all@.len() == 4,
            forall|k: int| 0 <= k < 4 ==> (#[trigger] all@[k])@ == spec_platforms()[k],
            forall|k: int| 0 <= k < i ==> spec_platforms()[k] != platform@,
        decreases 4 - i,
    {
        if str_eq(all[i], platform) {
            assert(spec_platforms()[i as int] == platform@);
            return Ok(());
        }
        i = i + 1;
    }
    assert(!spec_platforms().contains(platform@)) by {
        if spec_platforms().contains(platform@) {
            let k = choose|k: int| 0 <= k < 4 && spec_platforms()[k] == platform@;
        }
    }
    let mut text: Vec<char> = Vec::new();
    extend_str(&mut text, "unsupported publishing platform ");
    extend_str(&mut text, platform);
    Err(string_of(&text))
}

/// Credentials as the user typed them.
#[derive(Debug)]
pub struct ConnectAccountRequest {
    pub access_token: String,
    pub account_id: Option<String>,
    pub client_id: Option<String>,
}

/// Credentials as they are stored.
#[derive(Debug)]
pub struct StoredCredentials {
    pub access_token: String,
    pub account_id: Option<String>,
    pub client_id: Option<String>,
}

/// The content of stored credentials.
pub struct CredentialsView {
    pub access_token: Seq<char>,
    pub account_id: Option<Seq<char>>,
    pub client_id: Option<Seq<char>>,
}

impl View for StoredCredentials {
    type V = CredentialsView;

    open spec fn view(&self) -> CredentialsView {
        CredentialsView {
            access_token: self.access_token@,
            account_id: opt_view(self.account_id),
            client_id: opt_view(self.client_id),
        }
    }
}

impl StoredCredentials {
    /// A copy of the credentials.
    pub fn duplicate(&self) -> (out: StoredCredentials)
        ensures
            out@ == self@,
    {
        StoredCredentials {
            access_token: self.access_token.clone(),
            account_id: crate::domain::copy_opt_string(&self.account_id),
            client_id: crate::domain::copy_opt_string(&self.client_id),
        }
    }
}

/// An optional value trimmed.
pub open spec fn trim_opt(s: Option<Seq<char>>) -> Option<Seq<char>> {
    match s {
        Some(t) => Some(trim(t)),
        None => None,
    }
}

/// Whether an optional value is missing or blank.
pub open spec fn blank(s: Option<Seq<char>>) -> bool {
    match s {
        Some(t) => t.len() == 0,
        None => true,
    }
}

/// Trimmed credentials for `platform`, or why they cannot be stored: a token is always
/// required, an account ID for Instagram and a client ID for Twitch.
pub open spec fn spec_normalize(platform: Seq<char>, token: Seq<char>, account: Option<Seq<char>>, client: Option<Seq<char>>) -> Result<CredentialsView, Seq<char>> {
    if trim(token).len() == 0 {
        Err("An access token is required."@)
    } else if platform == "instagram"@ && blank(trim_opt(account)) {
        Err("An Instagram account ID is required."@)
    } else if platform == "twitch"@ && blank(trim_opt(client)) {
        Err("A Twitch client ID is required."@)
    } else {
        Ok(CredentialsView { access_token: trim(token), account_id: trim_opt(account), client_id: trim_opt(client) })
    }
}

fn trim_string(s: &str) -> (out: String)
    ensures
        out@ == trim(s@),
{
    let c = chars_of(s);
    let t = trim_exec(&c);
    string_of(&t)
}

fn trim_option(s: Option<String>) -> (out: Option<String>)
    ensures
        opt_view(out) == trim_opt(opt_view(s)),
{
    match s {
        Some(t) => Some(trim_string(t.as_str())),
        None => None,
    }
}

/// Cleans up credentials for `platform` and checks that the platform's required parts are there.
pub fn normalize_credentials(platform: &str, request: ConnectAccountRequest) -> (r: Result<StoredCredentials, String>)
    ensures
        match spec_normalize(platform@, request.access_token@, opt_view(request.account_id), opt_view(request.client_id)) {
            Ok(c) => r matches Ok(s) && s@ == c,
            Err(m) => r matches Err(e) && e@ == m,
        },
{
    let ConnectAccountRequest { access_token, account_id, client_id } = request;
    let access_token = trim_string(access_token.as_str());
    if access_token.unicode_len() == 0 {
        return Err("An access token is required.".to_owned());
    }
    let account_id = trim_option(account_id);
    let client_id = trim_option(client_id);
    let account_blank = match &account_id {
        Some(a) => a.unicode_len() == 0,
        None => true,
    };
    let client_blank = match &client_id {
        Some(c) => c.unicode_len() == 0,
        None => true,
    };
    if str_eq(platform, "instagram") && account_blank {
        return Err("An Instagram account ID is required.".to_owned());
    }
    if str_eq(platform, "twitch") && client_blank {
        return Err("A Twitch client ID is required.".to_owned());
    }
    Ok(StoredCredentials { access_token, account_id, client_id })
}

/// Whether a platform appears in the book.
pub open spec fn book_has(book: Seq<(Seq<char>, CredentialsView)>, platform: Seq<char>) -> bool {
    exists|i: int| 0 <= i < book.len() && (#[trigger] book[i]).0 == platform
}

/// Whether no platform appears twice.
pub open spec fn platforms_unique(book: Seq<(Seq<char>, CredentialsView)>) -> bool {
    forall|i: int, j: int| 0 <= i < j < book.len() ==> (#[trigger] book[i]).0 != (#[trigger] book[j]).0
}

/// Whether a platform is connected and how.
#[derive(Debug)]
pub struct AccountStatus {
    pub platform: String,
    pub connected: bool,
}

/// The stored publisher credentials, one entry per platform.
pub struct AccountBook {
    entries: Vec<(String, StoredCredentials)>,
}

impl View for AccountBook {
    type V = Seq<(Seq<char>, CredentialsView)>;

    closed spec fn view(&self) -> Seq<(Seq<char>, CredentialsView)> {
        entry_views(self.entries@)
    }
}

/// The contents of stored entries.
pub open spec fn entry_views(v: Seq<(String, StoredCredentials)>) -> Seq<(Seq<char>, CredentialsView)> {
    Seq::new(v.len(), |i: int| (v[i].0@, v[i].1@))
}

/// The environment variables that carry a platform's credentials.
pub open spec fn spec_platform_variables(platform: Seq<char>) -> Seq<Seq<char>> {
    if platform == "youtube"@ {
        seq!["YOUTUBE_ACCESS_TOKEN"@]
    } else if platform == "instagram"@ {
        seq!["INSTAGRAM_ACCESS_TOKEN"@, "INSTAGRAM_ACCOUNT_ID"@]
    } else if platform == "tiktok"@ {
        seq!["TIKTOK_ACCESS_TOKEN"@]
    } else if platform == "twitch"@ {
        seq!["TWITCH_ACCESS_TOKEN"@, "TWITCH_CLIENT_ID"@]
    } else {
        Seq::empty()
    }
}

/// The environment variables that carry a platform's credentials.
pub fn platform_variables(platform: &str) -> (v: Vec<&'static str>)
    ensures
        v@.len() == spec_platform_variables(platform@).len(),
        forall|i: int| 0 <= i < v@.len() ==> (#[trigger] v@[i])@ == spec_platform_variables(platform@)[i],
{
    let mut v: Vec<&'static str> = Vec::new();
    if str_eq(platform, "youtube") {
        v.push("YOUTUBE_ACCESS_TOKEN");
    } else if str_eq(platform, "instagram") {
        v.push("INSTAGRAM_ACCESS_TOKEN");
        v.push("INSTAGRAM_ACCOUNT_ID");
    } else if str_eq(platform, "tiktok") {
        v.push("TIKTOK_ACCESS_TOKEN");
    } else if str_eq(platform, "twitch") {
        v.push("TWITCH_ACCESS_TOKEN");
        v.push("TWITCH_CLIENT_ID");
    }
    v
}

/// The environment a stored entry sets: each platform's token, and Instagram's account ID and
/// Twitch's client ID when stored.
pub open spec fn entry_environment(platform: Seq<char>, c: CredentialsView) -> Seq<(Seq<char>, Seq<char>)> {
    if platform == "youtube"@ {
        seq![("YOUTUBE_ACCESS_TOKEN"@, c.access_token)]
    } else if platform == "instagram"@ {
        seq![("INSTAGRAM_ACCESS_TOKEN"@, c.access_token)] + match c.account_id {
            Some(a) => seq![("INSTAGRAM_ACCOUNT_ID"@, a)],
            None => Seq::empty(),
        }
    } else if platform == "tiktok"@ {
        seq![("TIKTOK_ACCESS_TOKEN"@, c.access_token)]
    } else if platform == "twitch"@ {
        seq![("TWITCH_ACCESS_TOKEN"@, c.access_token)] + match c.client_id {
            Some(a) => seq![("TWITCH_CLIENT_ID"@, a)],
            None => Seq::empty(),
        }
    } else {
        Seq::empty()
    }
}

/// The environment the whole book sets, entry by entry.
pub open spec fn book_environment(book: Seq<(Seq<char>, CredentialsView)>) -> Seq<(Seq<char>, Seq<char>)>
    decreases book.len(),
{
    if book.len() == 0 {
        Seq::empty()
    } else {
        book_environment(book.drop_last()) + entry_environment(book.last().0, book.last().1)
    }
}

impl AccountBook {
    /// Whether no platform appears twice.
    #[verifier::type_invariant]
    spec fn wf(&self) -> bool {
        platforms_unique(entry_views(self.entries@))
    }

    /// A book with nothing stored.
    pub fn new() -> (b: AccountBook)
        ensures
            b@ == Seq::<(Seq<char>, CredentialsView)>::empty(),
    {
        let b = AccountBook { entries: Vec::new() };
        assert(b@ =~= Seq::<(Seq<char>, CredentialsView)>::empty());
        b
    }

    fn find(&self, platform: &str) -> (r: Option<usize>)
        ensures
            match r {
                Some(i) => i < self@.len() && self@[i as int].0 == platform@,
                None => !book_has(self@, platform@),
            },
    {
        let mut i: usize = 0;
        while i < self.entries.len()
            invariant
                i <= self.entries@.len(),
                self@.len() == self.entries@.len(),
                forall|k: int| 0 <= k < i ==> (#[trigger] self@[k]).0 != platform@,
            decreases self.entries.len() - i,
        {
            assert(self@[i as int].0 == self.entries@[i as int].0@);
            if str_eq(self.entries[i].0.as_str(), platform) {
                return Some(i);
            }
            i = i + 1;
        }
        None
    }

    /// Whether credentials for `platform` are stored.
    pub fn contains(&self, platform: &str) -> (b: bool)
        ensures
            b == book_has(self@, platform@),
    {
        self.find(platform).is_some()
    }

    /// The credentials stored for `platform`.
    pub fn get(&self, platform: &str) -> (r: Option<StoredCredentials>)
        ensures
            match r {
                Some(c) => exists|i: int| 0 <= i < self@.len() && (#[trigger] self@[i]).0 == platform@ && self@[i].1 == c@,
                None => !book_has(self@, platform@),
            },
    {
        match self.find(platform) {
            Some(i) => {
                assert(self@[i as int].1 == self.entries@[i as int].1@);
                Some(self.entries[i].1.duplicate())
            },
            None => None,
        }
    }

    /// Stores credentials for `platform`, replacing any stored before.
    pub fn insert(&mut self, platform: &str, credentials: StoredCredentials)
        ensures
            book_has(final(self)@, platform@),
            forall|i: int| 0 <= i < final(self)@.len() && (#[trigger] final(self)@[i]).0 == platform@ ==> final(self)@[i].1 == credentials@,
            forall|p: Seq<char>| p != platform@ ==> (book_has(final(self)@, p) == book_has(old(self)@, p)),
    {
        proof {
            use_type_invariant(&*self);
        }
        let ghost before = self@;
        let ghost cv = credentials@;
        match self.find(platform) {
            Some(i) => {
                let key = self.entries[i].0.clone();
                assert(self.entries@[i as int].0@ == self@[i as int].0);
                let mut entries: Vec<(String, StoredCredentials)> = Vec::new();
                std::mem::swap(&mut entries, &mut self.entries);
                assert(entry_views(self.entries@) =~= Seq::<(Seq<char>, CredentialsView)>::empty());
                entries.set(i, (key, credentials));
                proof {
                    let t = entry_views(entries@);
                    assert(t =~= before.update(i as int, (platform@, cv)));
                    assert forall|a: int, b: int| 0 <= a < b < t.len() implies (#[trigger] t[a]).0 != (#[trigger] t[b]).0 by {
                        assert(t[a].0 == before[a].0 && t[b].0 == before[b].0);
                    }
                }
                self.entries = entries;
                assert(self@ =~= before.update(i as int, (platform@, cv)));
                assert forall|p: Seq<char>| p != platform@ implies (book_has(self@, p) == book_has(before, p)) by {
                    if book_has(before, p) {
                        let k = choose|k: int| 0 <= k < before.len() && (#[trigger] before[k]).0 == p;
                        assert(self@[k].0 == p);
                    }
                    if book_has(self@, p) {
                        let k = choose|k: int| 0 <= k < self@.len() && (#[trigger] self@[k]).0 == p;
                        assert(before[k].0 == p);
                    }
                }
                assert(self@[i as int].0 == platform@);
            },
            None => {
                let mut entries: Vec<(String, StoredCredentials)> = Vec::new();
                std::mem::swap(&mut entries, &mut self.entries);
                assert(entry_views(self.entries@) =~= Seq::<(Seq<char>, CredentialsView)>::empty());
                entries.push((platform.to_owned(), credentials));
                proof {
                    let t = entry_views(entries@);
                    assert(t =~= before.push((platform@, cv)));
                    assert forall|a: int, b: int| 0 <= a < b < t.len() implies (#[trigger] t[a]).0 != (#[trigger] t[b]).0 by {
                        assert(t[a] == before[a]);
                        if b < before.len() {
                            assert(t[b] == before[b]);
                        }
                    }
                }
                self.entries = entries;
                assert(self@ =~= before.push((platform@, cv)));
                assert forall|p: Seq<char>| p != platform@ implies (book_has(self@, p) == book_has(before, p)) by {
                    if book_has(before, p) {
                        let k = choose|k: int| 0 <= k < before.len() && (#[trigger] before[k]).0 == p;
                        assert(self@[k].0 == p);
                    }
                    if book_has(self@, p) {
                        let k = choose|k: int| 0 <= k < self@.len() && (#[trigger] self@[k]).0 == p;
                        assert(k < before.len());
                        assert(before[k].0 == p);
                    }
                }
                assert(self@[before.len() as int].0 == platform@);
            },
        }
    }

    /// Forgets the credentials for `platform`.
    pub fn remove(&mut self, platform: &str)
        ensures
            !book_has(final(self)@, platform@),
            forall|p: Seq<char>| p != platform@ ==> (book_has(final(self)@, p) == book_has(old(self)@, p)),
    {
        proof {
            use_type_invariant(&*self);
        }
        let ghost before = self@;
        match self.find(platform) {
            Some(i) => {
                let mut entries: Vec<(String, StoredCredentials)> = Vec::new();
                std::mem::swap(&mut entries, &mut self.entries);
                assert(entry_views(self.entries@) =~= Seq::<(Seq<char>, CredentialsView)>::empty());
                entries.remove(i);
                proof {
                    let t = entry_views(entries@);
                    assert(t =~= before.remove(i as int));
                    assert forall|a: int, b: int| 0 <= a < b < t.len() implies (#[trigger] t[a]).0 != (#[trigger] t[b]).0 by {
                        let a2 = if a < i { a } else { a + 1 };
                        let b2 = if b < i { b } else { b + 1 };
                        assert(t[a] == before[a2] && t[b] == before[b2]);
                    }
                }
                self.entries = entries;
                assert(self@ =~= before.remove(i as int));
                assert forall|p: Seq<char>| p != platform@ implies (book_has(self@, p) == book_has(before, p)) by {
                    if book_has(before, p) {
                        let k = choose|k: int| 0 <= k < before.len() && (#[trigger] before[k]).0 == p;
                        if k < i {
                            assert(self@[k].0 == p);
                        } else {
                            assert(k != i);
                            assert(self@[k - 1].0 == p);
                        }
                    }
                    if book_has(self@, p) {
                        let k = choose|k: int| 0 <= k < self@.len() && (#[trigger] self@[k]).0 == p;
                        if k < i {
                            assert(before[k].0 == p);
                        } else {
                            assert(before[k + 1].0 == p);
                        }
                    }
                }
                assert(!book_has(self@, platform@)) by {
                    if book_has(self@, platform@) {
                        let k = choose|k: int| 0 <= k < self@.len() && (#[trigger] self@[k]).0 == platform@;
                        if k < i {
                            assert(before[k].0 == platform@);
                        } else {
                            assert(before[k + 1].0 == platform@);
                        }
                    }
                }
            },
            None => {},
        }
    }

    /// The environment variables the stored credentials set, in order.
    pub fn environment(&self) -> (env: Vec<(String, String)>)
        ensures
            Seq::new(env@.len(), |i: int| (env@[i].0@, env@[i].1@)) == book_environment(self@),
    {
        let mut env: Vec<(String, String)> = Vec::new();
        let mut i: usize = 0;
        while i < self.entries.len()
            invariant
                i <= self.entries@.len(),
                Seq::new(env@.len(), |k: int| (env@[k].0@, env@[k].1@)) == book_environment(self@.subrange(0, i as int)),
            decreases self.entries.len() - i,
        {
            assert(self@.subrange(0, i + 1).drop_last() =~= self@.subrange(0, i as int));
            let ghost before = Seq::new(env@.len(), |k: int| (env@[k].0@, env@[k].1@));
            let (platform, c) = (&self.entries[i].0, &self.entries[i].1);
            let ghost pv = platform@;
            let ghost cv = c@;
            assert(self@.subrange(0, i + 1).last() == (pv, cv));
            if str_eq(platform.as_str(), "youtube") {
                env.push(("YOUTUBE_ACCESS_TOKEN".to_owned(), c.access_token.clone()));
            } else if str_eq(platform.as_str(), "instagram") {
                env.push(("INSTAGRAM_ACCESS_TOKEN".to_owned(), c.access_token.clone()));
                match &c.account_id {
                    Some(a) => env.push(("INSTAGRAM_ACCOUNT_ID".to_owned(), a.clone())),
                    None => {},
                }
            } else if str_eq(platform.as_str(), "tiktok") {
                env.push(("TIKTOK_ACCESS_TOKEN".to_owned(), c.access_token.clone()));
            } else if str_eq(platform.as_str(), "twitch") {
                env.push(("TWITCH_ACCESS_TOKEN".to_owned(), c.access_token.clone()));
                match &c.client_id {
                    Some(a) => env.push(("TWITCH_CLIENT_ID".to_owned(), a.clone())),
                    None => {},
                }
            }
            assert(Seq::new(env@.len(), |k: int| (env@[k].0@, env@[k].1@)) =~= before + entry_environment(pv, cv));
            i = i + 1;
        }
        assert(self@.subrange(0, self@.len() as int) =~= self@);
        env
    }

    /// The status of every platform: connected when credentials are stored or the environment
    /// already carries them (`environment[i]` for the `i`-th platform).
    pub fn statuses(&self, environment: &[bool]) -> (out: Vec<AccountStatus>)
        requires
            environment@.len() == 4,
        ensures
            out@.len() == 4,
            forall|i: int| 0 <= i < 4 ==> (#[trigger] out@[i]).platform@ == spec_platforms()[i]
                && out@[i].connected == (book_has(self@, spec_platforms()[i]) || environment@[i]),
    {
        let all = platforms();
        let mut out: Vec<AccountStatus> = Vec::new();
        let mut i: usize = 0;
        while i < 4
            invariant
                i <= 4,
                all@.len() == 4,
                environment@.len() == 4,
                forall|k: int| 0 <= k < 4 ==> (#[trigger] all@[k])@ == spec_platforms()[k],
                out@.len() == i,
                forall|k: int| 0 <= k < i ==> (#[trigger] out@[k]).platform@ == spec_platforms()[k]
                    && out@[k].connected == (book_has(self@, spec_platforms()[k]) || environment@[k]),
            decreases 4 - i,
        {
            let connected = self.contains(all[i]) || environment[i];
            out.push(AccountStatus { platform: all[i].to_owned(), connected });
            i = i + 1;
        }
        out
    }
}

/// The app's publisher accounts: where they are saved and what is stored.
pub struct AccountManager {
    pub path: String,
    pub accounts: AccountBook,
}

impl AccountManager {
    /// A manager for the accounts saved at `path`, holding `accounts`.
    pub fn new(path: String, accounts: AccountBook) -> (m: AccountManager)
        ensures
            m.path@ == path@,
            m.accounts@ == accounts@,
    {
        AccountManager { path, accounts }
    }

    /// Stores credentials for a supported platform after cleaning them up; the caller saves
    /// the book and applies its environment afterwards.
    pub fn connect(&mut self, platform: &str, request: ConnectAccountRequest) -> (r: Result<(), String>)
        ensures
            final(self).path == old(self).path,
            !supported_platform(platform@) ==> (r matches Err(e) && e@ == unsupported_platform(platform@) && final(self).accounts@ == old(self).accounts@),
            supported_platform(platform@) ==> match spec_normalize(platform@, request.access_token@, opt_view(request.account_id), opt_view(request.client_id)) {
                Err(m) => r matches Err(e) && e@ == m && final(self).accounts@ == old(self).accounts@,
                Ok(c) => r is Ok && book_has(final(self).accounts@, platform@)
                    && (forall|i: int| 0 <= i < final(self).accounts@.len() && (#[trigger] final(self).accounts@[i]).0 == platform@ ==> final(self).accounts@[i].1 == c)
                    && (forall|p: Seq<char>| p != platform@ ==> (book_has(final(self).accounts@, p) == book_has(old(self).accounts@, p))),
            },
    {
        match validate_platform(platform) {
            Err(e) => return Err(e),
            Ok(()) => {},
        }
        let credentials = match normalize_credentials(platform, request) {
            Err(e) => return Err(e),
            Ok(c) => c,
        };
        self.accounts.insert(platform, credentials);
        Ok(())
    }

    /// Forgets a supported platform's credentials, giving the environment variables to clear.
    pub fn disconnect(&mut self, platform: &str) -> (r: Result<Vec<&'static str>, String>)
        ensures
            final(self).path == old(self).path,
            !supported_platform(platform@) ==> (r matches Err(e) && e@ == unsupported_platform(platform@) && final(self).accounts@ == old(self).accounts@),
            supported_platform(platform@) ==> (r matches Ok(v) && v@.len() == spec_platform_variables(platform@).len()
                && (forall|i: int| 0 <= i < v@.len() ==> (#[trigger] v@[i])@ == spec_platform_variables(platform@)[i])
                && !book_has(final(self).accounts@, platform@)
                && (forall|p: Seq<char>| p != platform@ ==> (book_has(final(self).accounts@, p) == book_has(old(self).accounts@, p)))),
    {
        match validate_platform(platform) {
            Err(e) => return Err(e),
            Ok(()) => {},
        }
        self.accounts.remove(platform);
        Ok(platform_variables(platform))
    }

    /// The statuses of all platforms; see [`AccountBook::statuses`].
    pub fn statuses(&self, environment: &[bool]) -> (out: Vec<AccountStatus>)
        requires
            environment@.len() == 4,
        ensures
            out@.len() == 4,
            forall|i: int| 0 <= i < 4 ==> (#[trigger] out@[i]).platform@ == spec_platforms()[i]
                && out@[i].connected == (book_has(self.accounts@, spec_platforms()[i]) || environment@[i]),
    {
        self.accounts.statuses(environment)
    }

    /// The environment variables the stored credentials set.
    pub fn apply_environment(&self) -> (env: Vec<(String, String)>)
        ensures
            Seq::new(env@.len(), |i: int| (env@[i].0@, env@[i].1@)) == book_environment(self.accounts@),
    {
        self.accounts.environment()
    }
}

} // verus!
