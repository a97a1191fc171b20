//! The parts of the hosted model providers that decide or compute: which frames to send, how
//! bytes are encoded, request fingerprints, audio-annotation checks and per-stage model names.
use vstd::prelude::*;
use crate::digest::{sha256, sha256_digest};
use crate::domain::{valid_confidence, visual_views, AudioAnnotation, EditorialStage, VisualSample, VisualSampleView, CONFIDENCE_ONE};
use crate::text::{decimal, decimal_u128, digit, digit_char, extend_chars, pad_zeros, pad_zeros_exec, string_of};

verus! {

/// Whether some sample in `s` was taken at `at_ms`.
pub open spec fn has_time(s: Seq<VisualSampleView>, at_ms: i64) -> bool {
    exists|i: int| 0 <= i < s.len() && (#[trigger] s[i]).at_ms == at_ms
}

/// The first sample of each timestamp, in order.
pub open spec fn unique_samples(s: Seq<VisualSampleView>) -> Seq<VisualSampleView>
    decreases s.len(),
{
    if s.len() == 0 {
        Seq::empty()
    } else {
        let init = unique_samples(s.drop_last());
        if has_time(init, s.last().at_ms) { init } else { init.push(s.last()) }
    }
}

/// At most `limit` of the distinct-time samples, spread evenly so that both ends of the story
/// are kept; all of them when they fit, and the last one alone when `limit` is one or zero.
pub open spec fn spec_select_visuals(s: Seq<VisualSampleView>, limit: nat) -> Seq<VisualSampleView> {
    let u = unique_samples(s);
    if u.len() <= limit {
        u
    } else if limit <= 1 {
        seq![u.last()]
    } else {
        Seq::new(limit, |i: int| u[i * (u.len() - 1) / (limit - 1)])
    }
}

proof fn lemma_spread_index(i: int, n: int, limit: int)
    requires
        0 <= i < limit,
        1 < limit < n,
    ensures
        0 <= i * (n - 1) / (limit - 1) < n,
{
    assert(0 <= i * (n - 1)) by (nonlinear_arith)
        requires 0 <= i, 1 < n;
    assert(i * (n - 1) <= (limit - 1) * (n - 1)) by (nonlinear_arith)
        requires i <= limit - 1, 1 < n;
    assert(i * (n - 1) / (limit - 1) <= (limit - 1) * (n - 1) / (limit - 1)) by (nonlinear_arith)
        requires i * (n - 1) <= (limit - 1) * (n - 1), 1 < limit;
    assert((limit - 1) * (n - 1) / (limit - 1) == n - 1) by (nonlinear_arith)
        requires 1 < limit;
    assert(0 <= i * (n - 1) / (limit - 1)) by (nonlinear_arith)
        requires 0 <= i * (n - 1), 1 < limit;
}

/// Chooses up to `limit` frames to show a model: one per timestamp, spread over the story.
pub fn select_visuals(samples: &[VisualSample], limit: usize) -> (out: Vec<VisualSample>)
    ensures
        visual_views(out@) == spec_select_visuals(visual_views(samples@), limit as nat),
{
    let ghost all = visual_views(samples@);
    let mut unique: Vec<VisualSample> = Vec::new();
    let mut i: usize = 0;
    while i < samples.len()
        invariant
            i <= samples@.len(),
            all == visual_views(samples@),
            visual_views(unique@) == unique_samples(all.subrange(0, i as int)),
        decreases samples.len() - i,
    {
        let ghost before = visual_views(unique@);
        assert(all.subrange(0, i + 1).drop_last() =~= all.subrange(0, i as int));
        assert(all[i as int] == samples@[i as int]@);
        let at = samples[i].at_ms;
        let mut seen = false;
        let mut j: usize = 0;
        while j < unique.len()
            invariant
                j <= unique@.len(),
                before == visual_views(unique@),
                seen == exists|k: int| 0 <= k < j && (#[trigger] before[k]).at_ms == at,
            decreases unique.len() - j,
        {
            assert(before[j as int] == unique@[j as int]@);
            if unique[j].at_ms == at {
                seen = true;
            }
            j = j + 1;
        }
        if !seen {
            let c = samples[i].duplicate();
            unique.push(c);
            assert(visual_views(unique@) =~= before.push(c@));
        }
        i = i + 1;
    }
    assert(all.subrange(0, samples@.len() as int) =~= all);
    let ghost u = visual_views(unique@);
    let n = unique.len();
    if n <= limit {
        return unique;
    }
    if limit <= 1 {
        let mut out: Vec<VisualSample> = Vec::new();
        let last = unique[n - 1].duplicate();
        out.push(last);
        assert(visual_views(out@) =~= seq![u.last()]);
        return out;
    }
    let mut out: Vec<VisualSample> = Vec::new();
    let mut index: usize = 0;
    while index < limit
        invariant
            index <= limit,
            1 < limit < n,
            n == unique@.len(),
            u == visual_views(unique@),
            visual_views(out@) == Seq::new(index as nat, |k: int| u[k * (u.len() - 1) / (limit - 1)]),
        decreases limit - index,
    {
        proof {
            lemma_spread_index(index as int, n as int, limit as int);
        }
        proof {
            let a: int = index as int;
            let b: int = (n - 1) as int;
            assert(a * b <= 0xffff_ffff_ffff_ffff * 0xffff_ffff_ffff_ffff) by (nonlinear_arith)
                requires 0 <= a <= 0xffff_ffff_ffff_ffff, 0 <= b <= 0xffff_ffff_ffff_ffff;
        }
        let position: u128 = (index as u128) * ((n - 1) as u128) / ((limit - 1) as u128);
        let p = position as usize;
        let ghost before = visual_views(out@);
        let c = unique[p].duplicate();
        assert(position as int == index * (n - 1) / (limit - 1));
        assert(c@ == u[index * (u.len() - 1) / (limit - 1)]);
        out.push(c);
        assert(visual_views(out@) =~= before.push(c@));
        assert(visual_views(out@) =~= Seq::new((index + 1) as nat, |k: int| u[k * (u.len() - 1) / (limit - 1)]));
        index = index + 1;
    }
    out
}

/// Visual selection never sends more than `limit` frames (at least one when there are any),
/// and when it has to thin them out it keeps both ends of the story.
pub proof fn law_selection_keeps_both_story_ends(s: Seq<VisualSampleView>, limit: nat)
    requires
        unique_samples(s).len() > limit,
    ensures
        spec_select_visuals(s, limit).len() == (if limit >= 1 { limit } else { 1 }),
        limit >= 2 ==> spec_select_visuals(s, limit)[0] == unique_samples(s)[0],
        spec_select_visuals(s, limit).last() == unique_samples(s).last(),
{
    let u = unique_samples(s);
    if limit >= 2 {
        let r = spec_select_visuals(s, limit);
        assert(r[0] == u[0 * (u.len() - 1) / (limit - 1)]);
        assert(r[limit - 1] == u[(limit - 1) * (u.len() - 1) / (limit - 1)]);
        assert((limit - 1) * (u.len() - 1) / (limit - 1) == u.len() - 1) by (nonlinear_arith)
            requires limit >= 2;
    }
}

/// The base64 alphabet.
pub open spec fn b64_char(i: int) -> char {
    if i < 26 {
        (65 + i) as char
    } else if i < 52 {
        (97 + i - 26) as char
    } else if i < 62 {
        (48 + i - 52) as char
    } else if i == 62 {
        '+'
    } else {
        '/'
    }
}

/// One group of up to three bytes in base64, padded with `=`.
pub open spec fn b64_group(c: Seq<u8>) -> Seq<char> {
    let b1: int = if c.len() > 1 { c[1] as int } else { 0 };
    let b2: int = if c.len() > 2 { c[2] as int } else { 0 };
    let v = c[0] as int * 65536 + b1 * 256 + b2;
    seq![
        b64_char(v / 262144),
        b64_char((v / 4096) % 64),
        if c.len() > 1 { b64_char((v / 64) % 64) } else { '=' },
        if c.len() > 2 { b64_char(v % 64) } else { '=' },
    ]
}

/// Standard padded base64 of `data`.
pub open spec fn spec_base64(data: Seq<u8>) -> Seq<char>
    decreases data.len(),
{
    if data.len() == 0 {
        Seq::empty()
    } else {
        let n = if data.len() < 3 { data.len() as int } else { 3 };
        b64_group(data.subrange(0, n)) + spec_base64(data.subrange(n, data.len() as int))
    }
}

fn b64_char_exec(i: u32) -> (c: char)
    requires
        i < 64,
    ensures
        c == b64_char(i as int),
{
    if i < 26 {
        ((65 + i) as u8) as char
    } else if i < 52 {
        ((97 + i - 26) as u8) as char
    } else if i < 62 {
        ((48 + i - 52) as u8) as char
    } else if i == 62 {
        '+'
    } else {
        '/'
    }
}

proof fn lemma_base64_step(data: Seq<u8>, k: int)
    requires
        0 <= k <= data.len(),
    ensures
        spec_base64(data.subrange(k, data.len() as int)) == (if k == data.len() {
            Seq::<char>::empty()
        } else {
            let n = if data.len() - k < 3 { data.len() - k } else { 3 };
            b64_group(data.subrange(k, k + n)) + spec_base64(data.subrange(k + n, data.len() as int))
        }),
{
    let rest = data.subrange(k, data.len() as int);
    if k < data.len() {
        let n = if data.len() - k < 3 { data.len() - k } else { 3 };
        assert(rest.subrange(0, n) =~= data.subrange(k, k + n));
        assert(rest.subrange(n, rest.len() as int) =~= data.subrange(k + n, data.len() as int));
    } else {
        assert(rest.len() == 0);
    }
}

/// One group of one to three bytes in base64.
fn encode_group(data: &[u8], k: usize, n: usize, out: &mut Vec<char>)
    requires
        1 <= n <= 3,
        k + n <= data@.len(),
    ensures
        final(out)@ == old(out)@ + b64_group(data@.subrange(k as int, k + n)),
{
    let ghost g = data@.subrange(k as int, k + n);
    let b0 = data[k] as u32;
    let b1: u32 = if n > 1 { data[k + 1] as u32 } else { 0 };
    let b2: u32 = if n > 2 { data[k + 2] as u32 } else { 0 };
    let v: u32 = b0 * 65536 + b1 * 256 + b2;
    assert(g[0] == data@[k as int]);
    assert(n > 1 ==> g[1] == data@[k + 1]);
    assert(n > 2 ==> g[2] == data@[k + 2]);
    let c0 = b64_char_exec(v / 262144);
    let c1 = b64_char_exec((v / 4096) % 64);
    let c2 = if n > 1 { b64_char_exec((v / 64) % 64) } else { '=' };
    let c3 = if n > 2 { b64_char_exec(v % 64) } else { '=' };
    let ghost before = out@;
    out.push(c0);
    out.push(c1);
    out.push(c2);
    out.push(c3);
    assert(out@ =~= before + b64_group(g));
}

/// Standard padded base64, as the model APIs expect binary payloads.
pub fn base64(data: &[u8]) -> (out: String)
    ensures
        out@ == spec_base64(data@),
{
    let len = data.len();
    let mut out: Vec<char> = Vec::new();
    let mut k: usize = 0;
    assert(data@.subrange(0, len as int) =~= data@);
    while k < len
        invariant
            len == data@.len(),
            k <= len,
            out@ + spec_base64(data@.subrange(k as int, len as int)) == spec_base64(data@),
        decreases len - k,
    {
        proof {
            lemma_base64_step(data@, k as int);
        }
        let n: usize = if len - k < 3 { len - k } else { 3 };
        let ghost before = out@;
        encode_group(data, k, n, &mut out);
        assert(out@ + spec_base64(data@.subrange(k + n, len as int)) =~= before + spec_base64(data@.subrange(k as int, len as int)));
        k = k + n;
    }
    proof {
        lemma_base64_step(data@, len as int);
    }
    assert(out@ =~= spec_base64(data@));
    string_of(&out)
}

/// A millisecond count as seconds with exactly three decimals (`-1.500`, `0.042`).
pub open spec fn spec_seconds(ms: i64) -> Seq<char> {
    let m: int = if ms < 0 { -(ms as int) } else { ms as int };
    (if ms < 0 { seq!['-'] } else { Seq::empty() }) + decimal((m / 1000) as nat) + seq!['.'] + pad_zeros(decimal((m % 1000) as nat), 3)
}

/// The largest magnitude in milliseconds whose `f64` seconds still print exactly.
pub const EXACT_SECONDS_LIMIT: i64 = 0x20_0000_0000_0000;

/// A millisecond count as the seconds argument media tools take (`{:.3}` of the value in
/// seconds).
pub fn seconds(ms: i64) -> (out: String)
    requires
        -EXACT_SECONDS_LIMIT <= ms <= EXACT_SECONDS_LIMIT,
    ensures
        out@ == spec_seconds(ms),
{
    let m: u64 = if ms < 0 { (0 - ms) as u64 } else { ms as u64 };
    let mut out: Vec<char> = Vec::new();
    if ms < 0 {
        out.push('-');
    }
    let whole = decimal_u128((m / 1000) as u128);
    extend_chars(&mut out, &whole);
    out.push('.');
    let frac = decimal_u128((m % 1000) as u128);
    let padded = pad_zeros_exec(frac, 3);
    extend_chars(&mut out, &padded);
    proof {
        let mm: int = if ms < 0 { -(ms as int) } else { ms as int };
        assert(m as int == mm);
    }
    string_of(&out)
}

/// Why an audio annotation was refused.
#[derive(Debug, Clone, Copy, PartialEq, Eq, Structural)]
pub enum AudioError {
    /// The confidence is not between zero and one.
    InvalidConfidence,
}

/// Checks that an audio annotation's confidence lies between zero and one.
pub fn validate_audio_annotation(annotation: &AudioAnnotation) -> (r: Result<(), AudioError>)
    ensures
        r is Ok <==> valid_confidence(annotation.confidence),
        r is Err ==> r == Err::<(), AudioError>(AudioError::InvalidConfidence),
{
    if 0 <= annotation.confidence && annotation.confidence <= CONFIDENCE_ONE {
        Ok(())
    } else {
        Err(AudioError::InvalidConfidence)
    }
}

/// Lowercase hexadecimal of a byte sequence.
pub open spec fn hex(bytes: Seq<u8>) -> Seq<char>
    decreases bytes.len(),
{
    if bytes.len() == 0 {
        Seq::empty()
    } else {
        hex(bytes.drop_last()) + seq![hex_digit(bytes.last() as int / 16), hex_digit(bytes.last() as int % 16)]
    }
}

/// One lowercase hexadecimal digit.
pub open spec fn hex_digit(d: int) -> char {
    if d < 10 { (48 + d) as char } else { (97 + d - 10) as char }
}

fn hex_digit_exec(d: u8) -> (c: char)
    requires
        d < 16,
    ensures
        c == hex_digit(d as int),
{
    if d < 10 { (48 + d) as char } else { (97 + d - 10) as char }
}

/// Lowercase hexadecimal of bytes.
pub fn hex_exec(bytes: &[u8]) -> (out: Vec<char>)
    ensures
        out@ == hex(bytes@),
{
    let mut out: Vec<char> = Vec::new();
    let mut i: usize = 0;
    while i < bytes.len()
        invariant
            i <= bytes@.len(),
            out@ == hex(bytes@.subrange(0, i as int)),
        decreases bytes.len() - i,
    {
        assert(bytes@.subrange(0, i + 1).drop_last() =~= bytes@.subrange(0, i as int));
        let b = bytes[i];
        out.push(hex_digit_exec(b / 16));
        out.push(hex_digit_exec(b % 16));
        i = i + 1;
    }
    assert(bytes@.subrange(0, bytes@.len() as int) =~= bytes@);
    out
}

/// The fingerprint of a serialized request: the lowercase hex SHA-256 of its bytes.
pub fn request_hash(payload: &[u8]) -> (out: String)
    ensures
        out@ == hex(sha256_digest(payload@)),
        out@.len() == 64,
{
    let digest = sha256(payload);
    let h = hex_exec(digest.as_slice());
    proof {
        lemma_hex_len(digest@);
    }
    string_of(&h)
}

pub(crate) proof fn lemma_hex_len(b: Seq<u8>)
    ensures
        hex(b).len() == 2 * b.len(),
    decreases b.len(),
{
    if b.len() > 0 {
        lemma_hex_len(b.drop_last());
    }
}

/// Gemini editorial review: the key and the model of each stage.
#[derive(Debug, Clone)]
pub struct GeminiEditorial {
    pub api_key: String,
    pub observer_model: String,
    pub director_model: String,
    pub editor_model: String,
    pub critic_model: String,
}

impl GeminiEditorial {
    /// The model that handles `stage`.
    pub fn model(&self, stage: EditorialStage) -> (m: &str)
        ensures
            m@ == (match stage {
                EditorialStage::Observer => self.observer_model@,
                EditorialStage::Director => self.director_model@,
                EditorialStage::Editor => self.editor_model@,
                EditorialStage::Critic => self.critic_model@,
            }),
    {
        match stage {
            EditorialStage::Observer => self.observer_model.as_str(),
            EditorialStage::Director => self.director_model.as_str(),
            EditorialStage::Editor => self.editor_model.as_str(),
            EditorialStage::Critic => self.critic_model.as_str(),
        }
    }

    /// The reasoning effort asked of the model at each stage.
    pub fn thinking_level(stage: EditorialStage) -> (level: &'static str)
        ensures
            level@ == (match stage {
                EditorialStage::Observer => "low"@,
                EditorialStage::Director | EditorialStage::Editor => "medium"@,
                EditorialStage::Critic => "high"@,
            }),
    {
        match stage {
            EditorialStage::Observer => "low",
            EditorialStage::Director | EditorialStage::Editor => "medium",
            EditorialStage::Critic => "high",
        }
    }
}

/// Gemini audio analysis of candidate clips.
#[derive(Debug, Clone)]
pub struct GeminiAudioAnalyzer {
    pub api_key: String,
    pub model: String,
    pub ffmpeg: String,
    pub work_dir: String,
    pub media_start_ms: i64,
}

/// OpenAI editorial review: the key, the model of each stage and the usage database.
#[derive(Debug, Clone)]
pub struct OpenAiEditorial {
    pub api_key: String,
    pub observer_model: String,
    pub director_model: String,
    pub editor_model: String,
    pub critic_model: String,
    pub db_path: String,
}

impl OpenAiEditorial {
    /// The model that handles `stage`.
    pub fn model(&self, stage: EditorialStage) -> (m: &str)
        ensures
            m@ == (match stage {
                EditorialStage::Observer => self.observer_model@,
                EditorialStage::Director => self.director_model@,
                EditorialStage::Editor => self.editor_model@,
                EditorialStage::Critic => self.critic_model@,
            }),
    {
        match stage {
            EditorialStage::Observer => self.observer_model.as_str(),
            EditorialStage::Director => self.director_model.as_str(),
            EditorialStage::Editor => self.editor_model.as_str(),
            EditorialStage::Critic => self.critic_model.as_str(),
        }
    }
}

/// OpenAI audio analysis of candidate clips.
#[derive(Debug, Clone)]
pub struct OpenAiAudioAnalyzer {
    pub api_key: String,
    pub model: String,
    pub ffmpeg: String,
    pub work_dir: String,
    pub db_path: String,
}

} // verus!
