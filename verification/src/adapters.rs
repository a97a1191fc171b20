//! The media, storage, capture and publishing adapters of the command-line pipeline: their
//! settings, and the parts of their work that decide or compute (filter graphs, escaping,
//! object URLs, VOD identifiers and channels, dry-run outcomes).
use vstd::prelude::*;
use vstd::string::StringSliceAdditionalSpecFns;
use crate::digest::{sha256, sha256_digest};
use crate::domain::{Candidate, EditManifest, Outcome, OutcomeView};
use crate::json::{as_str, get, json_get, json_str, Json};
use crate::models::{hex, hex_exec};
use crate::publishers::{ascii_lower, eq_ignore_ascii_case, normalized_login, spec_valid_twitch_login, valid_twitch_login};
use crate::text::{chars_of, extend_chars, extend_str, replace_all, replace_exec, spec_starts_with, str_eq, str_starts_with, string_of, trim, trim_exec};

verus! {

/// Samples frames with ffmpeg.
#[derive(Debug, Clone)]
pub struct FfmpegVisualSampler {
    pub executable: String,
}

/// Measures loudness and scene changes with ffmpeg.
#[derive(Debug, Clone)]
pub struct FfmpegSignalExtractor {
    pub executable: String,
}

/// Renders vertical clips with ffmpeg.
#[derive(Debug, Clone)]
pub struct FfmpegRenderer {
    pub executable: String,
}

/// Writes the manifest itself instead of rendering media.
#[derive(Debug, Clone)]
pub struct ManifestRenderer;

/// Stages artifacts in a local directory.
#[derive(Debug, Clone)]
pub struct LocalObjectStore {
    pub root: String,
    pub bucket: String,
    pub prefix: String,
    pub public_base_url: Option<String>,
}

/// Stages artifacts in S3-compatible storage through the AWS command line.
#[derive(Debug, Clone)]
pub struct S3CommandStore {
    pub aws_executable: String,
    pub endpoint: Option<String>,
    pub bucket: String,
    pub prefix: String,
    pub public_base_url: Option<String>,
    pub signed_url_seconds: u32,
}

/// Captures a live Twitch channel with streamlink.
#[derive(Debug, Clone)]
pub struct TwitchCapture {
    pub streamlink: String,
}

/// A Twitch VOD downloaded and ready to analyze.
#[derive(Debug, Clone)]
pub struct PreparedTwitchVod {
    pub id: String,
    pub channel_login: String,
    pub media_path: String,
}

/// Downloads Twitch VODs and their chat.
#[derive(Debug, Clone)]
pub struct TwitchVodSource {
    pub streamlink: String,
    pub chat_downloader: String,
    pub cache_root: String,
}

/// Captures live Twitch chat.
#[derive(Debug, Clone)]
pub struct TwitchChatCapture {
    pub executable: String,
}

/// A publisher that records outcomes without publishing anything.
#[derive(Debug, Clone)]
pub struct DryRunPublisher {
    pub name: String,
    pub draft_only: bool,
}

/// A path escaped for an ffmpeg filter argument: backslashes doubled, colons and quotes
/// escaped.
pub open spec fn spec_filter_path(path: Seq<char>) -> Seq<char> {
    replace_all(replace_all(replace_all(path, seq!['\\'], seq!['\\', '\\']), seq![':'], seq!['\\', ':']), seq!['\''], seq!['\\', '\''])
}

/// Escapes a path for use inside an ffmpeg filter graph.
pub fn ffmpeg_filter_path(path: &str) -> (out: String)
    ensures
        out@ == spec_filter_path(path@),
{
    let chars = chars_of(path);
    let mut backslash: Vec<char> = Vec::new();
    backslash.push('\\');
    let mut doubled: Vec<char> = Vec::new();
    doubled.push('\\');
    doubled.push('\\');
    let mut colon: Vec<char> = Vec::new();
    colon.push(':');
    let mut escaped_colon: Vec<char> = Vec::new();
    escaped_colon.push('\\');
    escaped_colon.push(':');
    let mut quote: Vec<char> = Vec::new();
    quote.push('\'');
    let mut escaped_quote: Vec<char> = Vec::new();
    escaped_quote.push('\\');
    escaped_quote.push('\'');
    assert(backslash@ =~= seq!['\\']);
    assert(doubled@ =~= seq!['\\', '\\']);
    assert(colon@ =~= seq![':']);
    assert(escaped_colon@ =~= seq!['\\', ':']);
    assert(quote@ =~= seq!['\'']);
    assert(escaped_quote@ =~= seq!['\\', '\'']);
    let a = replace_exec(&chars, &backslash, &doubled);
    let b = replace_exec(&a, &colon, &escaped_colon);
    let c = replace_exec(&b, &quote, &escaped_quote);
    string_of(&c)
}

/// The scaling stage of the filter graph for each layout; blurred fill is the default.
pub open spec fn spec_layout_filter(layout: Seq<char>) -> Seq<char> {
    if layout == "full_frame"@ || layout == "stacked"@ {
        "scale=1080:1920:force_original_aspect_ratio=decrease,pad=1080:1920:(ow-iw)/2:(oh-ih)/2"@
    } else if layout == "tracked_crop"@ {
        "scale=-2:1920,crop=1080:1920"@
    } else {
        "split=2[background][foreground];[background]scale=1080:1920:force_original_aspect_ratio=increase,crop=1080:1920,gblur=sigma=30[background];[foreground]scale=1080:1920:force_original_aspect_ratio=decrease[foreground];[background][foreground]overlay=(W-w)/2:(H-h)/2"@
    }
}

/// The scaling stage of the filter graph for a layout.
pub fn layout_filter(layout: &str) -> (f: &'static str)
    ensures
        f@ == spec_layout_filter(layout@),
{
    if str_eq(layout, "full_frame") || str_eq(layout, "stacked") {
        "scale=1080:1920:force_original_aspect_ratio=decrease,pad=1080:1920:(ow-iw)/2:(oh-ih)/2"
    } else if str_eq(layout, "tracked_crop") {
        "scale=-2:1920,crop=1080:1920"
    } else {
        "split=2[background][foreground];[background]scale=1080:1920:force_original_aspect_ratio=increase,crop=1080:1920,gblur=sigma=30[background];[foreground]scale=1080:1920:force_original_aspect_ratio=decrease[foreground];[background][foreground]overlay=(W-w)/2:(H-h)/2"
    }
}

/// Whether a manifest's hook has visible text.
pub open spec fn has_hook(hook: Option<Seq<char>>) -> bool {
    match hook {
        Some(h) => trim(h).len() > 0,
        None => false,
    }
}

/// The full filter graph: scaling, then subtitles when there are captions, then the hook text
/// when there is one, joined by commas.
pub open spec fn spec_render_filter(layout: Seq<char>, has_captions: bool, subtitle_path: Seq<char>, hook: bool, hook_path: Seq<char>) -> Seq<char> {
    spec_layout_filter(layout) + (if has_captions {
        ",subtitles=filename='"@ + spec_filter_path(subtitle_path) + "':force_style='Alignment=2,FontSize=18,Outline=3,MarginV=160'"@
    } else {
        Seq::empty()
    }) + (if hook {
        ",drawtext=textfile='"@ + spec_filter_path(hook_path)
            + "':expansion=none:fontcolor=white:fontsize=58:borderw=5:bordercolor=black:x=(w-text_w)/2:y=h*0.12"@
    } else {
        Seq::empty()
    })
}

/// The ffmpeg filter graph that renders a manifest, given where its subtitles and hook text
/// are written.
pub fn render_filter(manifest: &EditManifest, subtitle_path: &str, hook_path: &str) -> (f: String)
    ensures
        f@ == spec_render_filter(
            manifest.layout@,
            manifest.captions@.len() > 0,
            subtitle_path@,
            has_hook(crate::domain::opt_view(manifest.hook_text)),
            hook_path@,
        ),
{
    let mut out: Vec<char> = Vec::new();
    extend_str(&mut out, layout_filter(manifest.layout.as_str()));
    let ghost after_scale = out@;
    if manifest.captions.len() > 0 {
        extend_str(&mut out, ",subtitles=filename='");
        let p = ffmpeg_filter_path(subtitle_path);
        extend_str(&mut out, p.as_str());
        extend_str(&mut out, "':force_style='Alignment=2,FontSize=18,Outline=3,MarginV=160'");
    }
    let ghost after_subtitles = out@;
    let hook = match &manifest.hook_text {
        Some(h) => {
            let c = chars_of(h.as_str());
            let t = trim_exec(&c);
            t.len() > 0
        },
        None => false,
    };
    if hook {
        extend_str(&mut out, ",drawtext=textfile='");
        let p = ffmpeg_filter_path(hook_path);
        extend_str(&mut out, p.as_str());
        extend_str(&mut out, "':expansion=none:fontcolor=white:fontsize=58:borderw=5:bordercolor=black:x=(w-text_w)/2:y=h*0.12");
    }
    proof {
        assert(out@ =~= spec_render_filter(
            manifest.layout@,
            manifest.captions@.len() > 0,
            subtitle_path@,
            has_hook(crate::domain::opt_view(manifest.hook_text)),
            hook_path@,
        ));
    }
    string_of(&out)
}

/// The hook text written for the renderer: NUL, carriage return and newline become spaces.
pub open spec fn spec_hook_file_text(hook: Seq<char>) -> Seq<char> {
    Seq::new(hook.len(), |i: int| if hook[i] == '\0' || hook[i] == '\r' || hook[i] == '\n' { ' ' } else { hook[i] })
}

/// The hook text as the renderer reads it.
pub fn hook_file_text(hook: &str) -> (out: String)
    ensures
        out@ == spec_hook_file_text(hook@),
{
    let chars = chars_of(hook);
    let mut out: Vec<char> = Vec::new();
    let mut i: usize = 0;
    while i < chars.len()
        invariant
            i <= chars@.len(),
            chars@ == hook@,
            out@ == spec_hook_file_text(hook@).subrange(0, i as int),
        decreases chars.len() - i,
    {
        let c = chars[i];
        out.push(if c == '\0' || c == '\r' || c == '\n' { ' ' } else { c });
        assert(out@ =~= spec_hook_file_text(hook@).subrange(0, i + 1));
        i = i + 1;
    }
    assert(spec_hook_file_text(hook@).subrange(0, chars@.len() as int) =~= spec_hook_file_text(hook@));
    string_of(&out)
}

/// `s` without leading and trailing `c`.
pub open spec fn trim_char(s: Seq<char>, c: char) -> Seq<char> {
    trim_char_end(trim_char_start(s, c), c)
}

/// `s` without leading `c`.
pub open spec fn trim_char_start(s: Seq<char>, c: char) -> Seq<char>
    decreases s.len(),
{
    if s.len() > 0 && s[0] == c { trim_char_start(s.drop_first(), c) } else { s }
}

/// `s` without trailing `c`.
pub open spec fn trim_char_end(s: Seq<char>, c: char) -> Seq<char>
    decreases s.len(),
{
    if s.len() > 0 && s.last() == c { trim_char_end(s.drop_last(), c) } else { s }
}

fn trim_char_end_exec(s: &[char], c: char) -> (out: Vec<char>)
    ensures
        out@ == trim_char_end(s@, c),
{
    let mut j: usize = s.len();
    assert(s@.subrange(0, s@.len() as int) =~= s@);
    while j > 0 && s[j - 1] == c
        invariant
            j <= s@.len(),
            trim_char_end(s@, c) == trim_char_end(s@.subrange(0, j as int), c),
        decreases j,
    {
        assert(s@.subrange(0, j as int).drop_last() =~= s@.subrange(0, j - 1));
        j = j - 1;
    }
    let mut out: Vec<char> = Vec::new();
    let mut i: usize = 0;
    while i < j
        invariant
            i <= j <= s@.len(),
            out@ == s@.subrange(0, i as int),
        decreases j - i,
    {
        out.push(s[i]);
        i = i + 1;
    }
    proof {
        assert(s@.subrange(0, s@.len() as int) =~= s@);
        if j > 0 {
            assert(s@.subrange(0, j as int).last() != c);
        }
    }
    out
}

fn trim_char_start_exec(s: &[char], c: char) -> (out: Vec<char>)
    ensures
        out@ == trim_char_start(s@, c),
{
    let n = s.len();
    let mut i: usize = 0;
    assert(s@.subrange(0, n as int) =~= s@);
    while i < n && s[i] == c
        invariant
            i <= n == s@.len(),
            trim_char_start(s@, c) == trim_char_start(s@.subrange(i as int, n as int), c),
        decreases n - i,
    {
        assert(s@.subrange(i as int, n as int).drop_first() =~= s@.subrange(i + 1, n as int));
        i = i + 1;
    }
    let mut out: Vec<char> = Vec::new();
    let mut k: usize = i;
    while k < n
        invariant
            i <= k <= n == s@.len(),
            out@ == s@.subrange(i as int, k as int),
        decreases n - k,
    {
        out.push(s[k]);
        k = k + 1;
    }
    proof {
        assert(s@.subrange(0, n as int) =~= s@);
    }
    out
}

/// The object path of a staged artifact: the prefix without surrounding slashes, a slash,
/// and the key.
pub open spec fn spec_object_path(prefix: Seq<char>, key: Seq<char>) -> Seq<char> {
    trim_char(prefix, '/') + seq!['/'] + key
}

/// The object path of a staged artifact.
pub fn object_path(prefix: &str, key: &str) -> (out: String)
    ensures
        out@ == spec_object_path(prefix@, key@),
{
    let p = chars_of(prefix);
    let a = trim_char_start_exec(&p, '/');
    let mut b = trim_char_end_exec(&a, '/');
    b.push('/');
    extend_str(&mut b, key);
    string_of(&b)
}

/// The public URL of a staged object under `base`.
pub open spec fn spec_public_url(base: Seq<char>, path: Seq<char>) -> Seq<char> {
    trim_char_end(base, '/') + seq!['/'] + path
}

/// The public URL of a staged object under `base`.
pub fn public_url(base: &str, path: &str) -> (out: String)
    ensures
        out@ == spec_public_url(base@, path@),
{
    let b = chars_of(base);
    let mut t = trim_char_end_exec(&b, '/');
    t.push('/');
    extend_str(&mut t, path);
    string_of(&t)
}

/// Why a Twitch VOD URL was refused.
#[derive(Debug, Clone, Copy, PartialEq, Eq, Structural)]
pub enum VodUrlError {
    /// The URL holds NUL or a line break.
    Unsafe,
    /// The URL is not HTTPS.
    NotHttps,
    /// The URL has no path.
    NoPath,
    /// The host is not Twitch.
    NotTwitch,
    /// The path does not start with `videos`.
    NotVideos,
    /// The path stops after `videos`.
    MissingId,
    /// The ID is not a number or the path goes on.
    InvalidId,
}

/// Whether `s` holds `c`.
pub open spec fn has_char(s: Seq<char>, c: char) -> bool {
    exists|i: int| 0 <= i < s.len() && s[i] == c
}

/// Where `c` first occurs in `s`, or its length.
pub open spec fn index_of(s: Seq<char>, c: char) -> int
    decreases s.len(),
{
    if s.len() == 0 || s[0] == c { 0 } else { 1 + index_of(s.drop_first(), c) }
}

/// Where the first `?` or `#` occurs in `s`, or its length.
pub open spec fn query_index(s: Seq<char>) -> int
    decreases s.len(),
{
    if s.len() == 0 || s[0] == '?' || s[0] == '#' { 0 } else { 1 + query_index(s.drop_first()) }
}

/// The non-empty runs of `s` between separators, in order.
pub open spec fn fields(s: Seq<char>, sep: char) -> Seq<Seq<char>>
    decreases s.len(),
{
    if s.len() == 0 {
        Seq::empty()
    } else {
        let init = fields(s.drop_last(), sep);
        let c = s.last();
        if c == sep {
            init
        } else if s.len() >= 2 && s[s.len() - 2] != sep {
            init.update(init.len() - 1, init.last().push(c))
        } else {
            init.push(seq![c])
        }
    }
}

proof fn lemma_fields_last(s: Seq<char>, sep: char)
    ensures
        s.len() > 0 && s.last() != sep ==> fields(s, sep).len() > 0,
    decreases s.len(),
{
    if s.len() > 0 {
        lemma_fields_last(s.drop_last(), sep);
        if s.len() >= 2 {
            assert(s.drop_last().last() == s[s.len() - 2]);
        }
    }
}

/// The non-empty runs of `s[from..to]` between separators.
fn fields_exec(s: &[char], from: usize, to: usize, sep: char) -> (out: Vec<Vec<char>>)
    requires
        from <= to <= s@.len(),
    ensures
        crate::text::views(out@) == fields(s@.subrange(from as int, to as int), sep),
{
    let mut out: Vec<Vec<char>> = Vec::new();
    let mut i: usize = from;
    assert(s@.subrange(from as int, from as int) =~= Seq::<char>::empty());
    while i < to
        invariant
            from <= i <= to <= s@.len(),
            crate::text::views(out@) == fields(s@.subrange(from as int, i as int), sep),
        decreases to - i,
    {
        let ghost sub = s@.subrange(from as int, i + 1);
        assert(sub.drop_last() =~= s@.subrange(from as int, i as int));
        assert(sub.last() == s@[i as int]);
        let ghost before = crate::text::views(out@);
        proof {
            lemma_fields_last(s@.subrange(from as int, i as int), sep);
            if i > from {
                assert(sub[sub.len() - 2] == s@[i - 1]);
                assert(s@.subrange(from as int, i as int).last() == s@[i - 1]);
            }
        }
        let c = s[i];
        if c == sep {
        } else if i > from && s[i - 1] != sep {
            let k = out.len() - 1;
            let mut last = out.pop().unwrap();
            last.push(c);
            out.push(last);
            assert(crate::text::views(out@) =~= before.update(k as int, before.last().push(c)));
        } else {
            let mut w: Vec<char> = Vec::new();
            w.push(c);
            out.push(w);
            assert(crate::text::views(out@) =~= before.push(seq![c]));
        }
        i = i + 1;
    }
    out
}

/// The digits of a Twitch VOD URL (`https://[www.]twitch.tv/videos/<digits>`, any query or
/// fragment ignored), or why the URL is refused.
pub open spec fn spec_twitch_vod_id(url: Seq<char>) -> Result<Seq<char>, VodUrlError> {
    if has_char(url, '\0') || has_char(url, '\r') || has_char(url, '\n') {
        Err(VodUrlError::Unsafe)
    } else if !spec_starts_with(url, "https://"@) {
        Err(VodUrlError::NotHttps)
    } else {
        let rest = url.subrange(8, url.len() as int);
        let slash = index_of(rest, '/');
        if slash >= rest.len() {
            Err(VodUrlError::NoPath)
        } else {
            let host = Seq::new(slash as nat, |i: int| ascii_lower(rest[i]));
            let path = rest.subrange(slash + 1, rest.len() as int);
            if host != "twitch.tv"@ && host != "www.twitch.tv"@ {
                Err(VodUrlError::NotTwitch)
            } else {
                let clean = path.subrange(0, query_index(path));
                let segs = fields(clean, '/');
                if segs.len() == 0 || segs[0] != "videos"@ {
                    Err(VodUrlError::NotVideos)
                } else if segs.len() < 2 {
                    Err(VodUrlError::MissingId)
                } else if segs.len() > 2 || !crate::cli::all_digits(segs[1]) {
                    Err(VodUrlError::InvalidId)
                } else {
                    Ok(segs[1])
                }
            }
        }
    }
}

fn index_of_exec(s: &[char], from: usize, c: char) -> (r: usize)
    requires
        from <= s@.len(),
    ensures
        r == from + index_of(s@.subrange(from as int, s@.len() as int), c),
        from <= r <= s@.len(),
        r < s@.len() ==> s@[r as int] == c,
        forall|k: int| from <= k < r ==> s@[k] != c,
{
    let n = s.len();
    let mut i: usize = from;
    while i < n && s[i] != c
        invariant
            from <= i <= n == s@.len(),
            forall|k: int| from <= k < i ==> s@[k] != c,
            index_of(s@.subrange(from as int, n as int), c) == (i - from) + index_of(s@.subrange(i as int, n as int), c),
        decreases n - i,
    {
        assert(s@.subrange(i as int, n as int).drop_first() =~= s@.subrange(i + 1, n as int));
        i = i + 1;
    }
    i
}

proof fn lemma_query_index_bound(s: Seq<char>)
    ensures
        0 <= query_index(s) <= s.len(),
    decreases s.len(),
{
    if s.len() > 0 && s[0] != '?' && s[0] != '#' {
        lemma_query_index_bound(s.drop_first());
    }
}

fn query_index_exec(s: &[char], from: usize) -> (r: usize)
    requires
        from <= s@.len(),
    ensures
        r == from + query_index(s@.subrange(from as int, s@.len() as int)),
        from <= r <= s@.len(),
{
    let n = s.len();
    let mut i: usize = from;
    assert(s@.subrange(i as int, n as int).len() == 0 ==> query_index(s@.subrange(i as int, n as int)) == 0);
    while i < n && s[i] != '?' && s[i] != '#'
        invariant
            from <= i <= n == s@.len(),
            query_index(s@.subrange(from as int, n as int)) == (i - from) + query_index(s@.subrange(i as int, n as int)),
        decreases n - i,
    {
        assert(s@.subrange(i as int, n as int).drop_first() =~= s@.subrange(i + 1, n as int));
        i = i + 1;
    }
    i
}

/// Reads the VOD ID from a Twitch VOD URL.
pub fn twitch_vod_id(url: &str) -> (r: Result<String, VodUrlError>)
    ensures
        match spec_twitch_vod_id(url@) {
            Ok(id) => r matches Ok(v) && v@ == id,
            Err(e) => r == Err::<String, VodUrlError>(e),
        },
{
    let s = chars_of(url);
    let n = s.len();
    let mut k: usize = 0;
    while k < n
        invariant
            k <= n == s@.len(),
            s@ == url@,
            forall|q: int| 0 <= q < k ==> s@[q] != '\0' && s@[q] != '\r' && s@[q] != '\n',
        decreases n - k,
    {
        if s[k] == '\0' || s[k] == '\r' || s[k] == '\n' {
            return Err(VodUrlError::Unsafe);
        }
        k = k + 1;
    }
    if !str_starts_with(url, "https://") {
        return Err(VodUrlError::NotHttps);
    }
    proof {
        reveal_strlit("https://");
    }
    let ghost rest = url@.subrange(8, url@.len() as int);
    let slash = index_of_exec(&s, 8, '/');
    if slash >= n {
        return Err(VodUrlError::NoPath);
    }
    let mut host: Vec<char> = Vec::new();
    let mut h: usize = 8;
    while h < slash
        invariant
            8 <= h <= slash < n == s@.len(),
            s@ == url@,
            host@ == Seq::new((h - 8) as nat, |i: int| ascii_lower(s@[8 + i])),
        decreases slash - h,
    {
        let c = s[h];
        host.push(if 'A' <= c && c <= 'Z' { (((c as u32) + 32) as u8) as char } else { c });
        assert(host@ =~= Seq::new((h + 1 - 8) as nat, |i: int| ascii_lower(s@[8 + i])));
        h = h + 1;
    }
    let host_text = string_of(&host);
    proof {
        assert(host@ =~= Seq::new((slash - 8) as nat, |i: int| ascii_lower(rest[i])));
    }
    if !(str_eq(host_text.as_str(), "twitch.tv") || str_eq(host_text.as_str(), "www.twitch.tv")) {
        return Err(VodUrlError::NotTwitch);
    }
    let path_from = slash + 1;
    let ghost path = rest.subrange(slash - 8 + 1, rest.len() as int);
    assert(path =~= s@.subrange(path_from as int, n as int));
    let q = query_index_exec(&s, path_from);
    proof {
        lemma_query_index_bound(path);
    }
    let ghost clean = path.subrange(0, query_index(path));
    assert(clean =~= s@.subrange(path_from as int, q as int));
    let segs = fields_exec(&s, path_from, q, '/');
    let ghost sv = crate::text::views(segs@);
    if segs.len() == 0 {
        return Err(VodUrlError::NotVideos);
    }
    assert(sv[0] == segs@[0]@);
    if !str_eq(string_of(segs[0].as_slice()).as_str(), "videos") {
        return Err(VodUrlError::NotVideos);
    }
    if segs.len() < 2 {
        return Err(VodUrlError::MissingId);
    }
    assert(sv[1] == segs@[1]@);
    let id = &segs[1];
    let mut all_digits = true;
    let mut d: usize = 0;
    while d < id.len()
        invariant
            d <= id@.len(),
            all_digits == (forall|j: int| 0 <= j < d ==> crate::cli::is_digit(#[trigger] id@[j])),
        decreases id.len() - d,
    {
        if !('0' <= id[d] && id[d] <= '9') {
            all_digits = false;
        }
        d = d + 1;
    }
    if segs.len() > 2 || !all_digits {
        return Err(VodUrlError::InvalidId);
    }
    Ok(string_of(id.as_slice()))
}

/// Why streamlink's metadata gave no channel.
#[derive(Debug, Clone, Copy, PartialEq, Eq, Structural)]
pub enum MetadataError {
    /// No `metadata` object.
    MissingMetadata,
    /// No VOD ID.
    MissingId,
    /// Another VOD.
    DifferentVod,
    /// No channel login.
    MissingAuthor,
    /// The login is not safe.
    InvalidLogin,
}

/// The channel login in streamlink's metadata for VOD `expected_id`, lowercased, or why there
/// is none.
pub open spec fn spec_channel_from_metadata(value: Json, expected_id: Seq<char>) -> Result<Seq<char>, MetadataError> {
    match json_get(value, "metadata"@) {
        None => Err(MetadataError::MissingMetadata),
        Some(metadata) => match json_str(json_get(metadata, "id"@)) {
            None => Err(MetadataError::MissingId),
            Some(id) => if id != expected_id {
                Err(MetadataError::DifferentVod)
            } else {
                match json_str(json_get(metadata, "author"@)) {
                    None => Err(MetadataError::MissingAuthor),
                    Some(author) => {
                        let login = Seq::new(author.len(), |i: int| ascii_lower(author[i]));
                        if spec_valid_twitch_login(login) { Ok(login) } else { Err(MetadataError::InvalidLogin) }
                    },
                }
            },
        },
    }
}

/// Reads the channel of a VOD from streamlink's JSON metadata.
pub fn channel_from_streamlink_metadata(value: &Json, expected_id: &str) -> (r: Result<String, MetadataError>)
    ensures
        match spec_channel_from_metadata(*value, expected_id@) {
            Ok(c) => r matches Ok(v) && v@ == c,
            Err(e) => r == Err::<String, MetadataError>(e),
        },
{
    let metadata = match get(value, "metadata") {
        None => return Err(MetadataError::MissingMetadata),
        Some(m) => m,
    };
    let id = match as_str(get(metadata, "id")) {
        None => return Err(MetadataError::MissingId),
        Some(i) => i,
    };
    if !str_eq(id, expected_id) {
        return Err(MetadataError::DifferentVod);
    }
    let author = match as_str(get(metadata, "author")) {
        None => return Err(MetadataError::MissingAuthor),
        Some(a) => a,
    };
    let login = normalized_login(author);
    if !valid_twitch_login(login.as_str()) {
        return Err(MetadataError::InvalidLogin);
    }
    Ok(login)
}

/// Why a channel override was refused.
#[derive(Debug, Clone, Copy, PartialEq, Eq, Structural)]
pub enum ChannelError {
    /// The login is not safe.
    InvalidLogin,
    /// The login names another channel than the VOD's.
    Mismatch,
}

/// The channel to credit a VOD to: the override (lowercased) when it names the VOD's channel,
/// else the VOD's channel.
pub fn choose_channel(resolved: &str, channel_override: Option<&str>) -> (r: Result<String, ChannelError>)
    ensures
        match channel_override {
            None => r matches Ok(c) && c@ == resolved@,
            Some(o) => if !spec_valid_twitch_login(o@) {
                r == Err::<String, ChannelError>(ChannelError::InvalidLogin)
            } else if !eq_ignore_ascii_case(resolved@, o@) {
                r == Err::<String, ChannelError>(ChannelError::Mismatch)
            } else {
                r matches Ok(c) && c@ == Seq::new(o@.len(), |i: int| ascii_lower(o@[i]))
            },
        },
{
    match channel_override {
        None => Ok(resolved.to_owned()),
        Some(o) => {
            if !valid_twitch_login(o) {
                return Err(ChannelError::InvalidLogin);
            }
            let a = normalized_login(resolved);
            let b = normalized_login(o);
            if !str_eq(a.as_str(), b.as_str()) {
                proof {
                    if eq_ignore_ascii_case(resolved@, o@) {
                        assert(a@ =~= b@);
                    }
                }
                return Err(ChannelError::Mismatch);
            }
            proof {
                assert(a@.len() == b@.len());
                assert forall|i: int| 0 <= i < resolved@.len() implies ascii_lower(#[trigger] resolved@[i]) == ascii_lower(o@[i]) by {
                    assert(a@[i] == b@[i]);
                }
            }
            Ok(b)
        },
    }
}

/// The Twitch page of a live channel, for capture tools.
pub fn channel_url(channel: &str) -> (r: Result<String, ChannelError>)
    ensures
        spec_valid_twitch_login(channel@) ==> (r matches Ok(u) && u@ == "https://www.twitch.tv/"@ + channel@),
        !spec_valid_twitch_login(channel@) ==> r == Err::<String, ChannelError>(ChannelError::InvalidLogin),
{
    if !valid_twitch_login(channel) {
        return Err(ChannelError::InvalidLogin);
    }
    let mut out: Vec<char> = Vec::new();
    extend_str(&mut out, "https://www.twitch.tv/");
    extend_str(&mut out, channel);
    Ok(string_of(&out))
}

/// The dry-run identifier of a publication: `dry-` and the first 20 hex digits of the SHA-256
/// of its idempotency key.
pub open spec fn dry_run_id(key: Seq<u8>) -> Seq<char> {
    "dry-"@ + hex(sha256_digest(key)).subrange(0, 20)
}

impl DryRunPublisher {
    /// The platform this publisher stands in for.
    pub fn platform(&self) -> (p: &str)
        ensures
            p@ == self.name@,
    {
        self.name.as_str()
    }

    /// The outcome a dry run records: a deterministic ID from the idempotency key, and drafts
    /// awaiting the creator when the platform only takes drafts.
    pub fn publish(&self, candidate: &Candidate, idempotency_key: &str) -> (o: Outcome)
        ensures
            o@ == (OutcomeView {
                candidate_id: candidate.id@,
                platform: self.name@,
                remote_id: dry_run_id(idempotency_key.spec_bytes()),
                status: if self.draft_only { "awaiting_creator"@ } else { "published"@ },
                idempotency_key: idempotency_key@,
                url: None,
            }),
    {
        let digest = sha256(idempotency_key.as_bytes());
        let h = hex_exec(digest.as_slice());
        proof {
            crate::models::lemma_hex_len(digest@);
        }
        let mut id: Vec<char> = Vec::new();
        extend_str(&mut id, "dry-");
        let mut i: usize = 0;
        while i < 20
            invariant
                i <= 20,
                h@.len() == 64,
                id@ == "dry-"@ + h@.subrange(0, i as int),
            decreases 20 - i,
        {
            id.push(h[i]);
            assert(id@ =~= "dry-"@ + h@.subrange(0, i + 1));
            i = i + 1;
        }
        Outcome {
            candidate_id: candidate.id.clone(),
            platform: self.name.clone(),
            remote_id: string_of(&id),
            status: if self.draft_only { "awaiting_creator".to_owned() } else { "published".to_owned() },
            idempotency_key: idempotency_key.to_owned(),
            url: None,
        }
    }
}

} // verus!
