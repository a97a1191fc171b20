//! Render manifests, caption generation and subtitle serialization: the exact description of
//! the media artifact a renderer produces.
use vstd::prelude::*;
use crate::domain::{
    cue_views, CaptionCue, CaptionCueView, EditManifest, EditManifestView, MAX_CLIP_MS, MIN_CLIP_MS,
};
use crate::text::{
    chars_of, contains_char, extend_chars, extend_str, int_padded, int_padded_i64, int_text,
    int_text_i64, int_text_u64, replace_all, replace_exec, string_of, trim, trim_exec,
};

verus! {

// ---------------------------------------------------------------------------------------------
// Paths.
// ---------------------------------------------------------------------------------------------
/// Why a path or object key was refused.
#[derive(Debug, Clone, Copy, PartialEq, Eq, Structural)]
pub enum PathError {
    /// The path is empty.
    Empty,
    /// The path holds a NUL, line feed or carriage return.
    ControlCharacter,
    /// A component of the path is `..`.
    ParentTraversal,
    /// An object key must be relative but starts with `/`.
    Absolute,
}

/// Whether `s` holds a NUL, line feed or carriage return.
pub open spec fn has_path_control(s: Seq<char>) -> bool {
    s.contains('\0') || s.contains('\n') || s.contains('\r')
}

/// Whether `s[i..j]` is a whole `/`-separated component of `s`.
pub open spec fn is_component(s: Seq<char>, i: int, j: int) -> bool {
    0 <= i <= j <= s.len() && (i == 0 || s[i - 1] == '/') && (j == s.len() || s[j] == '/')
        && forall|k: int| i <= k < j ==> s[k] != '/'
}

/// Whether some `/`-separated component of `s` is `..` (a parent-directory component).
pub open spec fn has_parent_component(s: Seq<char>) -> bool {
    exists|i: int| #[trigger] is_component(s, i, i + 2) && s[i] == '.' && s[i + 1] == '.'
}

/// What `validate_safe_path` answers for `s`.
pub open spec fn spec_safe_path(s: Seq<char>) -> Result<(), PathError> {
    if s.len() == 0 {
        Err(PathError::Empty)
    } else if has_path_control(s) {
        Err(PathError::ControlCharacter)
    } else if has_parent_component(s) {
        Err(PathError::ParentTraversal)
    } else {
        Ok(())
    }
}

/// Whether `s[start..end]` is `..`.
fn is_dotdot(s: &[char], start: usize, end: usize) -> (b: bool)
    requires
        start <= end <= s@.len(),
    ensures
        b == (end - start == 2 && s@[start as int] == '.' && s@[start + 1] == '.'),
{
    end - start == 2 && s[start] == '.' && s[start + 1] == '.'
}

/// Whether `s` has a `..` component.
fn has_parent_component_exec(s: &[char]) -> (found: bool)
    ensures
        found == has_parent_component(s@),
{
    let n = s.len();
    let mut start: usize = 0;
    let mut i: usize = 0;
    while i < n
        invariant
            n == s@.len(),
            start <= i <= n,
            start == 0 || s@[start - 1] == '/',
            forall|k: int| start <= k < i ==> s@[k] != '/',
            forall|a: int| #[trigger] is_component(s@, a, a + 2) && a + 2 < start ==> !(s@[a] == '.'
                && s@[a + 1] == '.'),
        decreases n - i,
    {
        if s[i] == '/' {
            if is_dotdot(s, start, i) {
                assert(is_component(s@, start as int, start + 2));
                return true;
            }
            proof {
                assert forall|a: int| #[trigger] is_component(s@, a, a + 2) && a + 2 < i + 1 implies !(
                s@[a] == '.' && s@[a + 1] == '.') by {
                    if a + 2 >= start {
                        if a < start {
                            assert(s@[start - 1] == '/');
                            assert(false);
                        } else if a > start {
                            assert(s@[a - 1] == '/');
                            assert(false);
                        }
                    }
                }
            }
            start = i + 1;
        }
        i = i + 1;
    }
    if is_dotdot(s, start, n) {
        assert(is_component(s@, start as int, start + 2));
        return true;
    }
    proof {
        assert forall|a: int| #[trigger] is_component(s@, a, a + 2) implies !(s@[a] == '.' && s@[a + 1]
            == '.') by {
            if a + 2 >= start {
                if a < start {
                    assert(s@[start - 1] == '/');
                    assert(false);
                } else if a > start {
                    assert(s@[a - 1] == '/');
                    assert(false);
                }
            }
        }
    }
    false
}

/// Checks that a path is non-empty, free of control characters and has no `..` component.
pub fn validate_safe_path(value: &str) -> (r: Result<(), PathError>)
    ensures
        r == spec_safe_path(value@),
{
    let s = chars_of(value);
    if s.len() == 0 {
        return Err(PathError::Empty);
    }
    if contains_char(&s, '\0') || contains_char(&s, '\n') || contains_char(&s, '\r') {
        return Err(PathError::ControlCharacter);
    }
    if has_parent_component_exec(&s) {
        return Err(PathError::ParentTraversal);
    }
    Ok(())
}

/// What `validate_object_key` answers for `s`.
pub open spec fn spec_object_key(s: Seq<char>) -> Result<(), PathError> {
    match spec_safe_path(s) {
        Err(e) => Err(e),
        Ok(()) => if s[0] == '/' { Err(PathError::Absolute) } else { Ok(()) },
    }
}

/// Checks that an object key is a safe path and relative.
pub fn validate_object_key(value: &str) -> (r: Result<(), PathError>)
    ensures
        r == spec_object_key(value@),
{
    validate_safe_path(value)?;
    let s = chars_of(value);
    if s[0] == '/' {
        return Err(PathError::Absolute);
    }
    Ok(())
}


/// The index of the last occurrence of `c` in `s`, or -1.
pub open spec fn last_index_of(s: Seq<char>, c: char) -> int
    decreases s.len(),
{
    if s.len() == 0 {
        -1
    } else if s.last() == c {
        s.len() - 1
    } else {
        last_index_of(s.drop_last(), c)
    }
}

/// Where the last occurrence of a character lies.
pub proof fn lemma_last_index_of(s: Seq<char>, c: char)
    ensures
        -1 <= last_index_of(s, c) < s.len(),
        last_index_of(s, c) >= 0 ==> s[last_index_of(s, c)] == c,
        forall|k: int| last_index_of(s, c) < k < s.len() ==> s[k] != c,
    decreases s.len(),
{
    if s.len() > 0 && s.last() != c {
        lemma_last_index_of(s.drop_last(), c);
        assert forall|k: int| last_index_of(s, c) < k < s.len() implies s[k] != c by {
            if k < s.len() - 1 {
                assert(s[k] == s.drop_last()[k]);
            }
        }
    }
}

fn last_index_of_exec(s: &[char], end: usize, c: char) -> (r: Option<usize>)
    requires
        end <= s@.len(),
    ensures
        match r {
            Some(i) => i == last_index_of(s@.subrange(0, end as int), c),
            None => last_index_of(s@.subrange(0, end as int), c) == -1,
        },
{
    let ghost t = s@.subrange(0, end as int);
    proof {
        lemma_last_index_of(t, c);
    }
    let mut j = end;
    while j > 0
        invariant
            j <= end <= s@.len(),
            t == s@.subrange(0, end as int),
            forall|k: int| j <= k < end ==> s@[k] != c,
            -1 <= last_index_of(t, c) < t.len(),
            last_index_of(t, c) >= 0 ==> t[last_index_of(t, c)] == c,
            forall|k: int| last_index_of(t, c) < k < t.len() ==> t[k] != c,
        decreases j,
    {
        if s[j - 1] == c {
            assert(t[j - 1] == c);
            return Some(j - 1);
        }
        j = j - 1;
    }
    None
}

/// The last component of a path that names a file, as `Path::file_name` finds it: trailing
/// `/` and `.` components are skipped; `..` or no component gives none.
pub open spec fn file_name(s: Seq<char>) -> Option<Seq<char>>
    decreases s.len(),
{
    let j = last_index_of(s, '/');
    let comp = s.subrange(j + 1, s.len() as int);
    if comp.len() == 0 || comp == seq!['.'] {
        if j < 0 {
            None
        } else {
            proof {
                lemma_last_index_of(s, '/');
            }
            file_name(s.subrange(0, j))
        }
    } else if comp == seq!['.', '.'] {
        None
    } else {
        Some(comp)
    }
}

/// The extension of a file name, as `Path::extension` finds it: what follows the last `.`,
/// unless there is no `.` or the only `.` begins the name.
pub open spec fn extension_of(name: Seq<char>) -> Option<Seq<char>> {
    let d = last_index_of(name, '.');
    if d <= 0 { None } else { Some(name.subrange(d + 1, name.len() as int)) }
}

/// Whether `ext` equals `mp4` ignoring ASCII case.
pub open spec fn is_mp4(ext: Seq<char>) -> bool {
    ext.len() == 3 && (ext[0] == 'm' || ext[0] == 'M') && (ext[1] == 'p' || ext[1] == 'P') && ext[2] == '4'
}

/// Whether a path names a file with an `mp4` extension (any ASCII case).
pub open spec fn has_mp4_extension(s: Seq<char>) -> bool {
    match file_name(s) {
        Some(name) => match extension_of(name) {
            Some(ext) => is_mp4(ext),
            None => false,
        },
        None => false,
    }
}

fn file_name_exec(s: &[char]) -> (r: Option<Vec<char>>)
    ensures
        match r {
            Some(v) => file_name(s@) == Some(v@),
            None => file_name(s@) is None,
        },
{
    let mut end = s.len();
    assert(s@.subrange(0, end as int) =~= s@);
    loop
        invariant
            end <= s@.len(),
            file_name(s@) == file_name(s@.subrange(0, end as int)),
        decreases end,
    {
        let ghost t = s@.subrange(0, end as int);
        proof {
            lemma_last_index_of(t, '/');
        }
        let found = last_index_of_exec(s, end, '/');
        let comp_start = match found {
            Some(j) => j + 1,
            None => 0,
        };
        let mut comp: Vec<char> = Vec::new();
        let mut k = comp_start;
        while k < end
            invariant
                comp_start <= k <= end,
                end <= s@.len(),
                comp@ == s@.subrange(comp_start as int, k as int),
            decreases end - k,
        {
            comp.push(s[k]);
            k = k + 1;
        }
        assert(comp_start as int == last_index_of(t, '/') + 1);
        assert(comp@ =~= t.subrange(comp_start as int, t.len() as int));
        if comp.len() == 0 || (comp.len() == 1 && comp[0] == '.') {
            proof {
                if comp@.len() == 1 && comp@[0] == '.' {
                    assert(comp@ =~= seq!['.']);
                }
            }
            match found {
                None => {
                    return None;
                },
                Some(j) => {
                    proof {
                        assert(t.subrange(0, j as int) =~= s@.subrange(0, j as int));
                    }
                    end = j;
                },
            }
        } else {
            if comp.len() == 2 && comp[0] == '.' && comp[1] == '.' {
                assert(comp@ =~= seq!['.', '.']);
                return None;
            }
            proof {
                if comp@ =~= seq!['.'] { assert(comp@[0] == '.'); }
                if comp@ =~= seq!['.', '.'] { assert(comp@[0] == '.' && comp@[1] == '.'); }
            }
            return Some(comp);
        }
    }
}

/// Whether the path names a file with an `mp4` extension (any ASCII case).
pub fn has_mp4_extension_exec(s: &[char]) -> (b: bool)
    ensures
        b == has_mp4_extension(s@),
{
    match file_name_exec(s) {
        None => false,
        Some(name) => {
            assert(name@.subrange(0, name@.len() as int) =~= name@);
            match last_index_of_exec(&name, name.len(), '.') {
                None => false,
                Some(d) => {
                    if d == 0 {
                        return false;
                    }
                    proof {
                        lemma_last_index_of(name@, '.');
                    }
                    let ext_len = name.len() - d - 1;
                    let ghost ext = name@.subrange(d + 1, name@.len() as int);
                    if ext_len != 3 {
                        return false;
                    }
                    let a = name[d + 1];
                    let b = name[d + 2];
                    let c = name[d + 3];
                    assert(ext[0] == a && ext[1] == b && ext[2] == c);
                    (a == 'm' || a == 'M') && (b == 'p' || b == 'P') && c == '4'
                }
            }
        }
    }
}

// ---------------------------------------------------------------------------------------------
// Manifest validation.
// ---------------------------------------------------------------------------------------------
/// Why a render manifest was refused.
#[derive(Debug, Clone, Copy, PartialEq, Eq, Structural)]
pub enum ManifestError {
    UnsupportedVersion,
    /// The render must last five to sixty seconds.
    Duration,
    /// The master output must be 1080x1920.
    Dimensions,
    /// The frame rate must be 23 to 60.
    FrameRate,
    InputPath(PathError),
    OutputPath(PathError),
    /// The output must be an mp4 file.
    OutputNotMp4,
    UnsupportedLayout,
    /// The hook text exceeds 160 characters.
    HookTooLong,
    /// The hook text holds a NUL or carriage return.
    HookControlCharacter,
    /// A caption cue lies outside the clip.
    CueOutsideClip,
    /// A caption holds a NUL or carriage return.
    CueControlCharacter,
}

/// The layouts a renderer supports.
pub open spec fn supported_layout(l: Seq<char>) -> bool {
    l == "fit_blur"@ || l == "tracked_crop"@ || l == "stacked"@ || l == "full_frame"@
}

/// Whether `s` holds a NUL or carriage return.
pub open spec fn has_text_control(s: Seq<char>) -> bool {
    s.contains('\0') || s.contains('\r')
}

/// Whether a cue lies inside a clip of `duration` and is free of control characters.
pub open spec fn cue_inside(c: CaptionCueView, duration: int) -> bool {
    c.start_ms >= 0 && c.end_ms > c.start_ms && c.end_ms <= duration
}

/// The index of the first cue that is outside the clip or holds a control character.
pub open spec fn first_bad_cue(cues: Seq<CaptionCueView>, duration: int) -> Option<(int, ManifestError)>
    decreases cues.len(),
{
    if cues.len() == 0 {
        None
    } else {
        match first_bad_cue(cues.drop_last(), duration) {
            Some(r) => Some(r),
            None => if !cue_inside(cues.last(), duration) {
                Some(((cues.len() - 1) as int, ManifestError::CueOutsideClip))
            } else if has_text_control(cues.last().text) {
                Some(((cues.len() - 1) as int, ManifestError::CueControlCharacter))
            } else {
                None
            },
        }
    }
}

/// What `validate_manifest` answers for a manifest, checking in order.
pub open spec fn spec_validate_manifest(m: EditManifestView) -> Result<(), ManifestError> {
    let duration = m.source_end_ms - m.source_start_ms;
    if m.version != 1 {
        Err(ManifestError::UnsupportedVersion)
    } else if !(MIN_CLIP_MS <= duration <= MAX_CLIP_MS) {
        Err(ManifestError::Duration)
    } else if !(m.width == 1080 && m.height == 1920) {
        Err(ManifestError::Dimensions)
    } else if !(23 <= m.fps <= 60) {
        Err(ManifestError::FrameRate)
    } else if spec_safe_path(m.input_path) is Err {
        Err(ManifestError::InputPath(spec_safe_path(m.input_path)->Err_0))
    } else if spec_safe_path(m.output_path) is Err {
        Err(ManifestError::OutputPath(spec_safe_path(m.output_path)->Err_0))
    } else if !has_mp4_extension(m.output_path) {
        Err(ManifestError::OutputNotMp4)
    } else if !supported_layout(m.layout) {
        Err(ManifestError::UnsupportedLayout)
    } else if m.hook_text is Some && m.hook_text->0.len() > 160 {
        Err(ManifestError::HookTooLong)
    } else if m.hook_text is Some && has_text_control(m.hook_text->0) {
        Err(ManifestError::HookControlCharacter)
    } else if first_bad_cue(m.captions, duration) is Some {
        Err((first_bad_cue(m.captions, duration)->0).1)
    } else {
        Ok(())
    }
}

fn layout_supported(layout: &str) -> (b: bool)
    ensures
        b == supported_layout(layout@),
{
    let l = chars_of(layout);
    let a = chars_of("fit_blur");
    let b = chars_of("tracked_crop");
    let c = chars_of("stacked");
    let d = chars_of("full_frame");
    crate::text::chars_eq(&l, &a) || crate::text::chars_eq(&l, &b) || crate::text::chars_eq(&l, &c)
        || crate::text::chars_eq(&l, &d)
}

fn has_text_control_exec(s: &str) -> (b: bool)
    ensures
        b == has_text_control(s@),
{
    let c = chars_of(s);
    contains_char(&c, '\0') || contains_char(&c, '\r')
}

/// Checks that a manifest describes a renderable clip: version 1, five to sixty seconds,
/// 1080x1920 at 23-60 fps, safe input and output paths with an mp4 output, a supported layout,
/// a hook of at most 160 characters without control characters, and captions inside the clip.
pub fn validate_manifest(manifest: &EditManifest) -> (r: Result<(), ManifestError>)
    ensures
        r == spec_validate_manifest(manifest@),
{
    let duration: i128 = manifest.source_end_ms as i128 - manifest.source_start_ms as i128;
    if manifest.version != 1 {
        return Err(ManifestError::UnsupportedVersion);
    }
    if duration < MIN_CLIP_MS as i128 || duration > MAX_CLIP_MS as i128 {
        return Err(ManifestError::Duration);
    }
    if !(manifest.width == 1080 && manifest.height == 1920) {
        return Err(ManifestError::Dimensions);
    }
    if !(23 <= manifest.fps && manifest.fps <= 60) {
        return Err(ManifestError::FrameRate);
    }
    if let Err(e) = validate_safe_path(manifest.input_path.as_str()) {
        return Err(ManifestError::InputPath(e));
    }
    if let Err(e) = validate_safe_path(manifest.output_path.as_str()) {
        return Err(ManifestError::OutputPath(e));
    }
    let output = chars_of(manifest.output_path.as_str());
    if !has_mp4_extension_exec(&output) {
        return Err(ManifestError::OutputNotMp4);
    }
    if !layout_supported(manifest.layout.as_str()) {
        return Err(ManifestError::UnsupportedLayout);
    }
    if let Some(hook) = &manifest.hook_text {
        if hook.as_str().unicode_len() > 160 {
            return Err(ManifestError::HookTooLong);
        }
        if has_text_control_exec(hook.as_str()) {
            return Err(ManifestError::HookControlCharacter);
        }
    }
    let mut i: usize = 0;
    let ghost verdict = match first_bad_cue(cue_views(manifest.captions@), duration as int) {
        Some(bad) => Err(bad.1),
        None => Ok(()),
    };
    assert(spec_validate_manifest(manifest@) == verdict);
    while i < manifest.captions.len()
        invariant
            i <= manifest.captions@.len(),
            duration == manifest@.source_end_ms - manifest@.source_start_ms,
            spec_validate_manifest(manifest@) == verdict,
            verdict == match first_bad_cue(cue_views(manifest.captions@), duration as int) {
                Some(bad) => Err(bad.1),
                None => Ok::<(), ManifestError>(()),
            },
            first_bad_cue(cue_views(manifest.captions@).subrange(0, i as int), duration as int) is None,
        decreases manifest.captions.len() - i,
    {
        let ghost all = cue_views(manifest.captions@);
        assert(all.subrange(0, i + 1).drop_last() =~= all.subrange(0, i as int));
        let cue = &manifest.captions[i];
        let inside = cue.start_ms >= 0 && cue.end_ms > cue.start_ms && (cue.end_ms as i128) <= duration;
        if !inside {
            proof {
                lemma_first_bad_cue_extends(all, i as int, duration as int);
            }
            return Err(ManifestError::CueOutsideClip);
        }
        if has_text_control_exec(cue.text.as_str()) {
            proof {
                lemma_first_bad_cue_extends(all, i as int, duration as int);
            }
            return Err(ManifestError::CueControlCharacter);
        }
        i = i + 1;
    }
    proof {
        assert(cue_views(manifest.captions@).subrange(0, manifest.captions@.len() as int) =~= cue_views(manifest.captions@));
    }
    Ok(())
}

proof fn lemma_first_bad_cue_extends(all: Seq<CaptionCueView>, i: int, duration: int)
    requires
        0 <= i < all.len(),
        first_bad_cue(all.subrange(0, i), duration) is None,
        !cue_inside(all[i], duration) || has_text_control(all[i].text),
    ensures
        first_bad_cue(all, duration) == first_bad_cue(all.subrange(0, i + 1), duration),
    decreases all.len() - i,
{
    if i + 1 < all.len() {
        assert(all.drop_last().subrange(0, i) =~= all.subrange(0, i));
        assert(all.drop_last().subrange(0, i + 1) =~= all.subrange(0, i + 1));
        assert(all.drop_last()[i] == all[i]);
        lemma_first_bad_cue_extends(all.drop_last(), i, duration);
        assert(all.subrange(0, i + 1).drop_last() =~= all.subrange(0, i));
    } else {
        assert(all.subrange(0, i + 1) =~= all);
    }
}


// ---------------------------------------------------------------------------------------------
// Subtitle timestamps and files.
// ---------------------------------------------------------------------------------------------
/// Integer division truncating toward zero, as Rust's `/` divides (for a positive divisor).
pub open spec fn tdiv(a: int, b: int) -> int {
    if a >= 0 { a / b } else { -((-a) / b) }
}

/// The remainder that goes with [`tdiv`], as Rust's `%` computes it.
pub open spec fn trem(a: int, b: int) -> int {
    a - b * tdiv(a, b)
}

/// Rust's `a / b` and `a % b` for a positive divisor.
pub fn div_rem(a: i64, b: i64) -> (r: (i64, i64))
    requires
        b > 0,
    ensures
        r.0 == tdiv(a as int, b as int),
        r.1 == trem(a as int, b as int),
{
    if a >= 0 {
        let q = (a as u64) / (b as u64);
        let m = (a as u64) % (b as u64);
        assert(a as int == b * q + m) by (nonlinear_arith)
            requires q == (a as u64) / (b as u64), m == (a as u64) % (b as u64), b > 0, a >= 0;
        (q as i64, m as i64)
    } else {
        let mag: u128 = (0i128 - a as i128) as u128;
        let q = mag / (b as u128);
        let m = mag % (b as u128);
        assert(q <= mag) by (nonlinear_arith)
            requires q == mag / (b as u128), b > 0;
        assert(m < b);
        assert(mag == (b as u128) * q + m) by (nonlinear_arith)
            requires q == mag / (b as u128), m == mag % (b as u128), b > 0;
        assert(mag as int == -(a as int));
        assert(q as int == (-(a as int)) / (b as int));
        let qn: i128 = 0i128 - q as i128;
        let mn: i128 = 0i128 - m as i128;
        assert(trem(a as int, b as int) == mn) by (nonlinear_arith)
            requires q as int == (-(a as int)) / (b as int), mag as int == -(a as int), m == mag % (b as u128),
                a < 0, b > 0, mn == -(m as int), tdiv(a as int, b as int) == -(q as int),
                mag == (b as u128) * q + m;
        (qn as i64, mn as i64)
    }
}

/// An SRT timestamp `HH:MM:SS,mmm` for a time in milliseconds (Rust's truncating division;
/// each field zero-padded, a negative field keeps its sign).
pub open spec fn srt_time(ms: int) -> Seq<char> {
    int_padded(tdiv(ms, 3_600_000), 2) + ":"@ + int_padded(tdiv(trem(ms, 3_600_000), 60_000), 2) + ":"@
        + int_padded(tdiv(trem(ms, 60_000), 1_000), 2) + ","@ + int_padded(trem(ms, 1_000), 3)
}

/// The SRT timestamp of a time in milliseconds.
pub fn srt_timestamp(ms: i64) -> (out: String)
    ensures
        out@ == srt_time(ms as int),
{
    let (hours, _) = div_rem(ms, 3_600_000);
    let (_, within_hour) = div_rem(ms, 3_600_000);
    let (minutes, _) = div_rem(within_hour, 60_000);
    let (_, within_minute) = div_rem(ms, 60_000);
    let (seconds, _) = div_rem(within_minute, 1_000);
    let (_, millis) = div_rem(ms, 1_000);
    let mut out = int_padded_i64(hours, 2);
    extend_str(&mut out, ":");
    let m = int_padded_i64(minutes, 2);
    extend_chars(&mut out, &m);
    extend_str(&mut out, ":");
    let sec = int_padded_i64(seconds, 2);
    extend_chars(&mut out, &sec);
    extend_str(&mut out, ",");
    let ml = int_padded_i64(millis, 3);
    extend_chars(&mut out, &ml);
    string_of(&out)
}

/// The text of a cue as SRT shows it: `-->` becomes an arrow and line feeds become spaces.
pub open spec fn srt_text(t: Seq<char>) -> Seq<char> {
    replace_all(replace_all(t, "-->"@, "→"@), "\n"@, " "@)
}

/// The SRT block of the cue numbered `n`.
pub open spec fn srt_block(n: int, c: CaptionCueView) -> Seq<char> {
    int_text(n) + "\n"@ + srt_time(c.start_ms as int) + " --> "@ + srt_time(c.end_ms as int) + "\n"@
        + srt_text(c.text) + "\n\n"@
}

/// The SRT document of the cues, numbered from one.
pub open spec fn srt_document(cues: Seq<CaptionCueView>) -> Seq<char>
    decreases cues.len(),
{
    if cues.len() == 0 {
        Seq::empty()
    } else {
        srt_document(cues.drop_last()) + srt_block(cues.len() as int, cues.last())
    }
}

/// The SRT text of a cue's text.
fn srt_text_exec(text: &str) -> (out: Vec<char>)
    ensures
        out@ == srt_text(text@),
{
    let arrow_in = chars_of("-->");
    let arrow_out = chars_of("→");
    let newline = chars_of("\n");
    let space = chars_of(" ");
    proof {
        reveal_strlit("-->");
        reveal_strlit("\n");
    }
    let t = chars_of(text);
    let once = replace_exec(&t, &arrow_in, &arrow_out);
    replace_exec(&once, &newline, &space)
}

/// The SRT block of the cue numbered `n`.
fn srt_block_exec(n: u64, cue: &CaptionCue) -> (out: Vec<char>)
    ensures
        out@ == srt_block(n as int, cue@),
{
    let mut out = int_text_u64(n);
    extend_str(&mut out, "\n");
    let start = srt_timestamp(cue.start_ms);
    extend_str(&mut out, start.as_str());
    extend_str(&mut out, " --> ");
    let end = srt_timestamp(cue.end_ms);
    extend_str(&mut out, end.as_str());
    extend_str(&mut out, "\n");
    let text = srt_text_exec(cue.text.as_str());
    extend_chars(&mut out, &text);
    extend_str(&mut out, "\n\n");
    out
}

/// Writes the cues as an SRT subtitle document.
pub fn render_srt(cues: &[CaptionCue]) -> (out: String)
    ensures
        out@ == srt_document(cue_views(cues@)),
{
    let mut out: Vec<char> = Vec::new();
    let mut i: usize = 0;
    while i < cues.len()
        invariant
            i <= cues@.len(),
            out@ == srt_document(cue_views(cues@).subrange(0, i as int)),
        decreases cues.len() - i,
    {
        let ghost all = cue_views(cues@);
        assert(all.subrange(0, i + 1).drop_last() =~= all.subrange(0, i as int));
        let block = srt_block_exec((i + 1) as u64, &cues[i]);
        extend_chars(&mut out, &block);
        proof {
            assert(all[i as int] == cues@[i as int]@);
            assert(out@ =~= srt_document(all.subrange(0, i + 1)));
        }
        i = i + 1;
    }
    assert(cue_views(cues@).subrange(0, cues@.len() as int) =~= cue_views(cues@));
    string_of(&out)
}

/// An ASS timestamp `H:MM:SS.cc` for a time in milliseconds (negative times show as zero).
pub open spec fn ass_time(ms: int) -> Seq<char> {
    let cs = if ms > 0 { ms / 10 } else { 0 };
    int_text(cs / 360_000) + ":"@ + int_padded((cs % 360_000) / 6_000, 2) + ":"@ + int_padded(
        (cs % 6_000) / 100,
        2,
    ) + "."@ + int_padded(cs % 100, 2)
}

/// The ASS timestamp of a time in milliseconds.
pub fn ass_timestamp(ms: i64) -> (out: Vec<char>)
    ensures
        out@ == ass_time(ms as int),
{
    let cs: i64 = if ms > 0 { ms / 10 } else { 0 };
    let mut out = int_text_i64(cs / 360_000);
    extend_str(&mut out, ":");
    let m = int_padded_i64((cs % 360_000) / 6_000, 2);
    extend_chars(&mut out, &m);
    extend_str(&mut out, ":");
    let s = int_padded_i64((cs % 6_000) / 100, 2);
    extend_chars(&mut out, &s);
    extend_str(&mut out, ".");
    let f = int_padded_i64(cs % 100, 2);
    extend_chars(&mut out, &f);
    out
}

/// The character that ASS text shows in place of `c`: braces and backslashes become their
/// full-width forms (they would start override tags), line breaks become spaces.
pub open spec fn ass_char(c: char) -> char {
    if c == '\\' { '＼' } else if c == '{' { '（' } else if c == '}' { '）' } else if c == '\r' || c == '\n' { ' ' } else { c }
}

/// Text made safe for an ASS dialogue line.
pub open spec fn ass_text(t: Seq<char>) -> Seq<char> {
    Seq::new(t.len(), |i: int| ass_char(t[i]))
}

/// Text made safe for an ASS dialogue line.
pub fn escape_ass_text(text: &[char]) -> (out: Vec<char>)
    ensures
        out@ == ass_text(text@),
{
    let mut out: Vec<char> = Vec::new();
    let mut i: usize = 0;
    while i < text.len()
        invariant
            i <= text@.len(),
            out@ == ass_text(text@.subrange(0, i as int)),
        decreases text.len() - i,
    {
        let c = text[i];
        let e = if c == '\\' { '＼' } else if c == '{' { '（' } else if c == '}' { '）' } else if c == '\r' || c == '\n' { ' ' } else { c };
        out.push(e);
        assert(out@ =~= ass_text(text@.subrange(0, i + 1)));
        i = i + 1;
    }
    assert(text@.subrange(0, text@.len() as int) =~= text@);
    out
}

/// The script header of every ASS file: an explicit 1080x1920 canvas and the caption and
/// hook styles with their safe-zone margins.
pub open spec fn ass_header() -> Seq<char> {
    ASS_HEADER@
}

/// The ASS script header.
pub const ASS_HEADER: &'static str = "[Script Info]\nScriptType: v4.00+\nPlayResX: 1080\nPlayResY: 1920\nScaledBorderAndShadow: yes\nWrapStyle: 0\nYCbCr Matrix: TV.709\n\n[V4+ Styles]\nFormat: Name, Fontname, Fontsize, PrimaryColour, SecondaryColour, OutlineColour, BackColour, Bold, Italic, Underline, StrikeOut, ScaleX, ScaleY, Spacing, Angle, BorderStyle, Outline, Shadow, Alignment, MarginL, MarginR, MarginV, Encoding\nStyle: Caption,Arial,64,&H00FFFFFF,&H00FFFFFF,&H00000000,&H78000000,-1,0,0,0,100,100,0,0,1,5,1,2,110,110,430,1\nStyle: Hook,Arial,54,&H00FFFFFF,&H00FFFFFF,&H00000000,&H78000000,-1,0,0,0,100,100,0,0,3,10,0,8,120,120,150,1\n\n[Events]\nFormat: Layer, Start, End, Style, Name, MarginL, MarginR, MarginV, Effect, Text\n";

/// How long the hook stays on screen, in milliseconds.
pub const HOOK_VISIBLE_MS: i64 = 3_000;

/// The hook dialogue line, when the trimmed hook is non-empty and the clip has positive length.
pub open spec fn ass_hook_line(hook: Option<Seq<char>>, duration_ms: int) -> Seq<char> {
    let hook_end = if duration_ms < 0 { 0 } else if duration_ms > HOOK_VISIBLE_MS { HOOK_VISIBLE_MS as int } else { duration_ms };
    match hook {
        Some(h) => if trim(h).len() > 0 && hook_end > 0 {
            "Dialogue: 1,"@ + ass_time(0) + ","@ + ass_time(hook_end) + ",Hook,,0,0,0,,"@ + ass_text(trim(h)) + "\n"@
        } else {
            Seq::empty()
        },
        None => Seq::empty(),
    }
}

/// The caption dialogue line of one cue.
pub open spec fn ass_cue_line(c: CaptionCueView) -> Seq<char> {
    "Dialogue: 0,"@ + ass_time(c.start_ms as int) + ","@ + ass_time(c.end_ms as int) + ",Caption,,0,0,0,,"@
        + ass_text(c.text) + "\n"@
}

/// The caption lines of the cues, in order.
pub open spec fn ass_cue_lines(cues: Seq<CaptionCueView>) -> Seq<char>
    decreases cues.len(),
{
    if cues.len() == 0 {
        Seq::empty()
    } else {
        ass_cue_lines(cues.drop_last()) + ass_cue_line(cues.last())
    }
}

fn ass_cue_line_exec(cue: &CaptionCue) -> (out: Vec<char>)
    ensures
        out@ == ass_cue_line(cue@),
{
    let mut out = chars_of("Dialogue: 0,");
    let a = ass_timestamp(cue.start_ms);
    extend_chars(&mut out, &a);
    extend_str(&mut out, ",");
    let b = ass_timestamp(cue.end_ms);
    extend_chars(&mut out, &b);
    extend_str(&mut out, ",Caption,,0,0,0,,");
    let text = chars_of(cue.text.as_str());
    let e = escape_ass_text(&text);
    extend_chars(&mut out, &e);
    extend_str(&mut out, "\n");
    out
}

/// A resolution-aware ASS subtitle document: the header, the hook shown for the first three
/// seconds (when given), then one caption line per cue.
pub fn render_ass(cues: &[CaptionCue], hook_text: Option<&str>, duration_ms: i64) -> (out: String)
    ensures
        out@ == ass_header() + ass_hook_line(
            match hook_text { Some(h) => Some(h@), None => None },
            duration_ms as int,
        ) + ass_cue_lines(cue_views(cues@)),
{
    let mut out = chars_of(ASS_HEADER);
    let ghost header = out@;
    if let Some(hook) = hook_text {
        let raw = chars_of(hook);
        let trimmed = trim_exec(&raw);
        let hook_end: i64 = if duration_ms < 0 { 0 } else if duration_ms > HOOK_VISIBLE_MS { HOOK_VISIBLE_MS } else { duration_ms };
        if trimmed.len() > 0 && hook_end > 0 {
            extend_str(&mut out, "Dialogue: 1,");
            let a = ass_timestamp(0);
            extend_chars(&mut out, &a);
            extend_str(&mut out, ",");
            let b = ass_timestamp(hook_end);
            extend_chars(&mut out, &b);
            extend_str(&mut out, ",Hook,,0,0,0,,");
            let e = escape_ass_text(&trimmed);
            extend_chars(&mut out, &e);
            extend_str(&mut out, "\n");
        }
    }
    let ghost with_hook = out@;
    assert(with_hook == ass_header() + ass_hook_line(
        match hook_text { Some(h) => Some(h@), None => None },
        duration_ms as int,
    ));
    let mut i: usize = 0;
    while i < cues.len()
        invariant
            i <= cues@.len(),
            out@ == with_hook + ass_cue_lines(cue_views(cues@).subrange(0, i as int)),
        decreases cues.len() - i,
    {
        let ghost all = cue_views(cues@);
        assert(all.subrange(0, i + 1).drop_last() =~= all.subrange(0, i as int));
        let line = ass_cue_line_exec(&cues[i]);
        extend_chars(&mut out, &line);
        proof {
            assert(all[i as int] == cues@[i as int]@);
            assert(out@ =~= with_hook + ass_cue_lines(all.subrange(0, i + 1)));
        }
        i = i + 1;
    }
    assert(cue_views(cues@).subrange(0, cues@.len() as int) =~= cue_views(cues@));
    string_of(&out)
}


// ---------------------------------------------------------------------------------------------
// Captions.
// ---------------------------------------------------------------------------------------------
/// Most words on one caption.
pub const MAX_CAPTION_WORDS: usize = 6;

/// Most bytes on one caption (words plus one separator each).
pub const MAX_CAPTION_CHARACTERS: usize = 34;

/// Segments starting within this long after the previous one ends may repeat its words.
pub const TRANSCRIPT_OVERLAP_TOLERANCE_MS: i64 = 1_200;

/// A transcript phrase on its way to becoming captions.
pub struct Phrase {
    pub start_ms: int,
    pub end_ms: int,
    pub words: Seq<Seq<char>>,
}

/// The comparison key of a word: its alphanumeric characters, lowercased.
pub open spec fn word_key(w: Seq<char>) -> Seq<char> {
    crate::timeline::lower_all(keep_alnum(w))
}

/// The alphanumeric characters of `s`, in order.
pub open spec fn keep_alnum(s: Seq<char>) -> Seq<char>
    decreases s.len(),
{
    if s.len() == 0 {
        Seq::empty()
    } else if crate::text::spec_is_alphanumeric(s.last()) {
        keep_alnum(s.drop_last()).push(s.last())
    } else {
        keep_alnum(s.drop_last())
    }
}

/// The keys of a word list.
pub open spec fn word_keys(ws: Seq<Seq<char>>) -> Seq<Seq<char>> {
    Seq::new(ws.len(), |i: int| word_key(ws[i]))
}

/// Whether `c` occurs as a contiguous run inside `p`.
pub open spec fn contains_run(p: Seq<Seq<char>>, c: Seq<Seq<char>>) -> bool {
    exists|i: int| 0 <= i && i + c.len() <= p.len() && #[trigger] p.subrange(i, i + c.len()) == c
}

/// The longest `k <= bound` (at least one) such that the last `k` of `p` are the first `k` of
/// `c`; zero when there is none.
pub open spec fn longest_overlap(p: Seq<Seq<char>>, c: Seq<Seq<char>>, bound: int) -> int
    decreases bound,
{
    if bound <= 0 {
        0
    } else if p.subrange(p.len() - bound, p.len() as int) == c.subrange(0, bound) {
        bound
    } else {
        longest_overlap(p, c, bound - 1)
    }
}

/// How many leading words of `current` repeat `previous` (compared by key): all of them when
/// `current` (two words or more) occurs inside `previous`, else the longest suffix/prefix
/// overlap.
pub open spec fn repeated_prefix_count(previous: Seq<Seq<char>>, current: Seq<Seq<char>>) -> int {
    let p = word_keys(previous);
    let c = word_keys(current);
    if c.len() >= 2 && contains_run(p, c) {
        c.len() as int
    } else {
        longest_overlap(p, c, if p.len() <= c.len() { p.len() as int } else { c.len() as int })
    }
}

/// The phrase a transcript segment contributes inside the clip, if any.
pub open spec fn clip_phrase(seg: crate::domain::TranscriptSegmentView, clip_start: i64, clip_end: i64) -> Option<Phrase> {
    let start = if seg.start_ms >= clip_start { seg.start_ms as int } else { clip_start as int };
    let end = if seg.end_ms <= clip_end { seg.end_ms as int } else { clip_end as int };
    let ws = crate::text::words(seg.text);
    if end > start && ws.len() > 0 { Some(Phrase { start_ms: start, end_ms: end, words: ws }) } else { None }
}

/// The phrases of the transcript inside the clip, in transcript order.
pub open spec fn clip_phrases(t: Seq<crate::domain::TranscriptSegmentView>, clip_start: i64, clip_end: i64) -> Seq<Phrase>
    decreases t.len(),
{
    if t.len() == 0 {
        Seq::empty()
    } else {
        let init = clip_phrases(t.drop_last(), clip_start, clip_end);
        match clip_phrase(t.last(), clip_start, clip_end) {
            Some(p) => init.push(p),
            None => init,
        }
    }
}

/// Whether `a` sorts no later than `b` by (start, end).
pub open spec fn phrase_le(a: Phrase, b: Phrase) -> bool {
    a.start_ms < b.start_ms || (a.start_ms == b.start_ms && a.end_ms <= b.end_ms)
}

/// One step of a stable insertion sort by (start, end).
pub open spec fn insert_phrase(s: Seq<Phrase>, c: Phrase) -> Seq<Phrase>
    decreases s.len(),
{
    if s.len() == 0 {
        seq![c]
    } else if phrase_le(s.last(), c) {
        s.push(c)
    } else {
        insert_phrase(s.drop_last(), c).push(s.last())
    }
}

/// The phrases stably sorted by (start, end).
pub open spec fn sort_phrases(s: Seq<Phrase>) -> Seq<Phrase>
    decreases s.len(),
{
    if s.len() == 0 { Seq::empty() } else { insert_phrase(sort_phrases(s.drop_last()), s.last()) }
}

/// One step of removing words that a sliding transcription window repeated.
pub open spec fn clean_step(cleaned: Seq<Phrase>, seg: Phrase) -> Seq<Phrase> {
    let adjusted = if cleaned.len() > 0 && seg.start_ms < crate::domain::sat_add(
        cleaned.last().end_ms,
        TRANSCRIPT_OVERLAP_TOLERANCE_MS as int,
    ) {
        let r = repeated_prefix_count(cleaned.last().words, seg.words);
        if r == seg.words.len() {
            None
        } else if r > 0 {
            Some(Phrase {
                start_ms: seg.start_ms + (seg.end_ms - seg.start_ms) * r / (seg.words.len() as int),
                end_ms: seg.end_ms,
                words: seg.words.subrange(r, seg.words.len() as int),
            })
        } else {
            Some(seg)
        }
    } else {
        Some(seg)
    };
    match adjusted {
        Some(a) => if a.end_ms > a.start_ms && a.words.len() > 0 { cleaned.push(a) } else { cleaned },
        None => cleaned,
    }
}

/// Repeated words removed from sorted phrases, left to right.
pub open spec fn clean_phrases(s: Seq<Phrase>) -> Seq<Phrase>
    decreases s.len(),
{
    if s.len() == 0 { Seq::empty() } else { clean_step(clean_phrases(s.drop_last()), s.last()) }
}

/// Two neighbouring phrases with their shared time split at its midpoint.
pub open spec fn split_pair(previous: Phrase, current: Phrase) -> (Phrase, Phrase) {
    if current.start_ms < previous.end_ms {
        let overlap_start = if current.start_ms >= previous.start_ms { current.start_ms } else { previous.start_ms };
        let overlap_end = if current.end_ms <= previous.end_ms { current.end_ms } else { previous.end_ms };
        let width = if overlap_end - overlap_start > 0 { overlap_end - overlap_start } else { 0 };
        let boundary = overlap_start + width / 2;
        (
            Phrase { end_ms: if previous.end_ms <= boundary { previous.end_ms } else { boundary }, ..previous },
            Phrase { start_ms: if current.start_ms >= boundary { current.start_ms } else { boundary }, ..current },
        )
    } else {
        (previous, current)
    }
}

/// Whether a phrase still has time.
pub open spec fn is_timed(p: Phrase) -> bool {
    p.start_ms < p.end_ms
}

/// The index of the last phrase of `s` that still has time, or -1 when none has.
pub open spec fn last_timed(s: Seq<Phrase>) -> int
    decreases s.len(),
{
    if s.len() == 0 {
        -1
    } else if is_timed(s.last()) {
        s.len() - 1
    } else {
        last_timed(s.drop_last())
    }
}

/// Left to right, the time each phrase shares with the last earlier phrase that still has time
/// split at its midpoint, so that no two phrases with time overlap. The earlier phrase compared
/// against is not always the immediate neighbour: a neighbour that lost all its time to an
/// earlier split is passed over, since splitting against it alone would leave two phrases with
/// time overlapping (see `law_captions_never_overlap`).
pub open spec fn split_overlaps(s: Seq<Phrase>) -> Seq<Phrase>
    decreases s.len(),
{
    if s.len() == 0 {
        s
    } else {
        let w = split_overlaps(s.drop_last());
        let j = last_timed(w);
        if j < 0 {
            w.push(s.last())
        } else {
            let pair = split_pair(w[j], s.last());
            w.update(j, pair.0).push(pair.1)
        }
    }
}

/// The byte weight of a caption group: its words' UTF-8 lengths plus one per word.
pub open spec fn group_weight(g: Seq<Seq<char>>) -> int
    decreases g.len(),
{
    if g.len() == 0 { 0 } else { group_weight(g.drop_last()) + crate::text::utf8_len(g.last()) + 1 }
}

/// One step of grouping words into captions of at most six words and 34 bytes.
pub open spec fn group_step(groups: Seq<Seq<Seq<char>>>, word: Seq<char>) -> Seq<Seq<Seq<char>>> {
    if groups.len() == 0 {
        groups.push(seq![word])
    } else {
        let g = groups.last();
        let exceed = g.len() >= MAX_CAPTION_WORDS || (g.len() > 0 && group_weight(g) + crate::text::utf8_len(word)
            > MAX_CAPTION_CHARACTERS);
        if exceed { groups.push(seq![word]) } else { groups.update(groups.len() - 1, g.push(word)) }
    }
}

/// The words grouped into captions, left to right.
pub open spec fn group_words(ws: Seq<Seq<char>>) -> Seq<Seq<Seq<char>>>
    decreases ws.len(),
{
    if ws.len() == 0 { Seq::empty() } else { group_step(group_words(ws.drop_last()), ws.last()) }
}

/// The weight of the first `k` groups.
pub open spec fn weight_before(groups: Seq<Seq<Seq<char>>>, k: int) -> int
    decreases k,
{
    if k <= 0 { 0 } else { weight_before(groups, k - 1) + group_weight(groups[k - 1]) }
}

/// The cues of the first `k` groups of a phrase: each group gets a share of the phrase's time
/// proportional to its weight; times are relative to `clip_start`; empty cues are dropped.
pub open spec fn phrase_cues(p: Phrase, groups: Seq<Seq<Seq<char>>>, total: int, clip_start: int, k: int) -> Seq<CaptionCueView>
    decreases k,
{
    if k <= 0 {
        Seq::empty()
    } else {
        let init = phrase_cues(p, groups, total, clip_start, k - 1);
        let d = p.end_ms - p.start_ms;
        let s = p.start_ms + d * weight_before(groups, k - 1) / total - clip_start;
        let e = p.start_ms + d * weight_before(groups, k) / total - clip_start;
        if e > s {
            init.push(CaptionCueView { start_ms: s as i64, end_ms: e as i64, text: crate::text::join(groups[k - 1], seq![' ']) })
        } else {
            init
        }
    }
}

/// The cues of one phrase.
pub open spec fn phrase_captions(p: Phrase, clip_start: int) -> Seq<CaptionCueView> {
    let groups = group_words(p.words);
    let sum = weight_before(groups, groups.len() as int);
    phrase_cues(p, groups, if sum >= 1 { sum } else { 1 }, clip_start, groups.len() as int)
}

/// The cues of all phrases with positive length, in order.
pub open spec fn phrases_captions(s: Seq<Phrase>, clip_start: int) -> Seq<CaptionCueView>
    decreases s.len(),
{
    if s.len() == 0 {
        Seq::empty()
    } else {
        let init = phrases_captions(s.drop_last(), clip_start);
        if s.last().end_ms > s.last().start_ms { init + phrase_captions(s.last(), clip_start) } else { init }
    }
}

/// Short, non-overlapping captions for the clip `clip_start..clip_end`: transcript phrases
/// clipped to the clip, sorted, words repeated by overlapping windows removed, shared time
/// split at midpoints, then grouped into captions of at most six words and 34 bytes.
pub open spec fn spec_caption_cues(t: Seq<crate::domain::TranscriptSegmentView>, clip_start: i64, clip_end: i64) -> Seq<CaptionCueView> {
    phrases_captions(split_overlaps(clean_phrases(sort_phrases(clip_phrases(t, clip_start, clip_end)))), clip_start as int)
}


/// A phrase under construction.
struct WorkingCaption {
    start_ms: i64,
    end_ms: i64,
    words: Vec<Vec<char>>,
}

spec fn phrase_of(w: WorkingCaption) -> Phrase {
    Phrase { start_ms: w.start_ms as int, end_ms: w.end_ms as int, words: crate::text::views(w.words@) }
}

spec fn phrases_of(v: Seq<WorkingCaption>) -> Seq<Phrase> {
    Seq::new(v.len(), |i: int| phrase_of(v[i]))
}

/// Whether timing the captions of every phrase with time stays within `i64`: its duration times
/// its words' weight (their UTF-8 lengths plus one each), the largest product the proportional
/// timing of its caption groups forms.
pub open spec fn caption_timing_fits(s: Seq<Phrase>) -> bool {
    forall|i: int| 0 <= i < s.len() && is_timed(#[trigger] s[i]) ==> (s[i].end_ms - s[i].start_ms) * group_weight(s[i].words) <= i64::MAX
}

/// Whether the captions of the clip `clip_start..clip_end` can be timed within `i64`.
pub open spec fn spec_caption_timing_fits(t: Seq<crate::domain::TranscriptSegmentView>, clip_start: i64, clip_end: i64) -> bool {
    caption_timing_fits(split_overlaps(clean_phrases(sort_phrases(clip_phrases(t, clip_start, clip_end)))))
}

/// Whether every phrase ends after it starts.
pub open spec fn timed_phrases(s: Seq<Phrase>) -> bool {
    forall|i: int| 0 <= i < s.len() ==> (#[trigger] s[i]).start_ms < s[i].end_ms
}

proof fn lemma_keep_alnum_len(s: Seq<char>)
    ensures
        keep_alnum(s).len() <= s.len(),
    decreases s.len(),
{
    if s.len() > 0 {
        lemma_keep_alnum_len(s.drop_last());
    }
}

/// The comparison key of a word.
fn word_key_exec(w: &Vec<char>) -> (out: Vec<char>)
    ensures
        out@ == word_key(w@),
{
    let mut kept: Vec<char> = Vec::new();
    let mut i: usize = 0;
    while i < w.len()
        invariant
            i <= w@.len(),
            kept@ == keep_alnum(w@.subrange(0, i as int)),
        decreases w.len() - i,
    {
        assert(w@.subrange(0, i + 1).drop_last() =~= w@.subrange(0, i as int));
        if crate::text::is_alphanumeric(w[i]) {
            kept.push(w[i]);
        }
        i = i + 1;
    }
    assert(w@.subrange(0, w@.len() as int) =~= w@);
    let mut lowered: Vec<char> = Vec::new();
    let mut j: usize = 0;
    while j < kept.len()
        invariant
            j <= kept@.len(),
            lowered@ == crate::timeline::lower_all(kept@.subrange(0, j as int)),
        decreases kept.len() - j,
    {
        assert(kept@.subrange(0, j + 1).drop_last() =~= kept@.subrange(0, j as int));
        let l = crate::text::lowercase(kept[j]);
        extend_chars(&mut lowered, &l);
        j = j + 1;
    }
    assert(kept@.subrange(0, kept@.len() as int) =~= kept@);
    lowered
}

fn word_keys_exec(ws: &Vec<Vec<char>>) -> (out: Vec<Vec<char>>)
    ensures
        crate::text::views(out@) == word_keys(crate::text::views(ws@)),
{
    let mut out: Vec<Vec<char>> = Vec::new();
    let mut i: usize = 0;
    while i < ws.len()
        invariant
            i <= ws@.len(),
            crate::text::views(out@) == word_keys(crate::text::views(ws@)).subrange(0, i as int),
        decreases ws.len() - i,
    {
        let k = word_key_exec(&ws[i]);
        let ghost before = crate::text::views(out@);
        out.push(k);
        assert(crate::text::views(out@) =~= before.push(k@));
        assert(word_keys(crate::text::views(ws@))[i as int] == word_key(ws@[i as int]@));
        assert(crate::text::views(out@) =~= word_keys(crate::text::views(ws@)).subrange(0, i + 1));
        i = i + 1;
    }
    assert(word_keys(crate::text::views(ws@)).subrange(0, ws@.len() as int) =~= word_keys(crate::text::views(ws@)));
    out
}

/// Whether `p[from..from + len]` equals `c[c_from..c_from + len]`.
fn runs_equal(p: &Vec<Vec<char>>, from: usize, c: &Vec<Vec<char>>, c_from: usize, len: usize) -> (eq: bool)
    requires
        from + len <= p@.len(),
        c_from + len <= c@.len(),
    ensures
        eq == (crate::text::views(p@).subrange(from as int, from + len) == crate::text::views(c@).subrange(c_from as int, c_from + len)),
{
    let ghost ps = crate::text::views(p@).subrange(from as int, from + len);
    let ghost cs = crate::text::views(c@).subrange(c_from as int, c_from + len);
    let pn = p.len();
    let cn = c.len();
    let mut k: usize = 0;
    while k < len
        invariant
            k <= len,
            pn == p@.len(),
            cn == c@.len(),
            from + len <= pn,
            c_from + len <= cn,
            ps == crate::text::views(p@).subrange(from as int, from + len),
            cs == crate::text::views(c@).subrange(c_from as int, c_from + len),
            forall|q: int| 0 <= q < k ==> #[trigger] ps[q] == cs[q],
        decreases len - k,
    {
        if !crate::text::chars_eq(&p[from + k], &c[c_from + k]) {
            assert(ps[k as int] != cs[k as int]);
            return false;
        }
        assert(ps[k as int] == cs[k as int]);
        k = k + 1;
    }
    assert(ps =~= cs);
    true
}

/// How many leading words of `current` repeat `previous`.
fn repeated_prefix_word_count(previous: &Vec<Vec<char>>, current: &Vec<Vec<char>>) -> (n: usize)
    ensures
        n == repeated_prefix_count(crate::text::views(previous@), crate::text::views(current@)),
        n <= current@.len(),
{
    let p = word_keys_exec(previous);
    let c = word_keys_exec(current);
    let ghost pv = crate::text::views(p@);
    let ghost cv = crate::text::views(c@);
    assert(pv.len() == previous@.len() && cv.len() == current@.len());
    assert(pv == word_keys(crate::text::views(previous@)));
    assert(cv == word_keys(crate::text::views(current@)));
    if c.len() >= 2 && c.len() <= p.len() {
        let mut i: usize = 0;
        let pn = p.len();
        let cn = c.len();
        let stop = pn - cn + 1;
        while i < stop
            invariant
                stop == pn - cn + 1,
                cn >= 2,
                pn == p@.len(),
                cn == c@.len(),
                c@.len() <= p@.len(),
                i <= p@.len() - c@.len() + 1,
                pv == crate::text::views(p@),
                cv == crate::text::views(c@),
                pv.len() == p@.len(),
                cv.len() == c@.len(),
                cv.len() == current@.len(),
                cv == word_keys(crate::text::views(current@)),
                pv == word_keys(crate::text::views(previous@)),
                forall|q: int| 0 <= q < i ==> #[trigger] pv.subrange(q, q + cv.len()) != cv,
            decreases stop - i,
        {
            assert(cv.subrange(0, cv.len() as int) =~= cv);
            if runs_equal(&p, i, &c, 0, cn) {
                assert(pv.subrange(i as int, i + cv.len()) == cv);
                assert(contains_run(pv, cv));
                return cn;
            }
            i = i + 1;
        }
        assert(!contains_run(pv, cv));
    }
    let mut bound = if p.len() <= c.len() { p.len() } else { c.len() };
    let ghost initial = bound as int;
    while bound > 0
        invariant
            bound <= p@.len(),
            bound <= c@.len(),
            pv == crate::text::views(p@),
            cv == crate::text::views(c@),
            pv.len() == p@.len(),
            cv.len() == c@.len(),
            cv.len() == current@.len(),
            cv == word_keys(crate::text::views(current@)),
            pv == word_keys(crate::text::views(previous@)),
            !(cv.len() >= 2 && contains_run(pv, cv)),
            initial == (if pv.len() <= cv.len() { pv.len() as int } else { cv.len() as int }),
            longest_overlap(pv, cv, initial) == longest_overlap(pv, cv, bound as int),
        decreases bound,
    {
        if runs_equal(&p, p.len() - bound, &c, 0, bound) {
            return bound;
        }
        bound = bound - 1;
    }
    0
}

proof fn lemma_longest_overlap_bound(p: Seq<Seq<char>>, c: Seq<Seq<char>>, bound: int)
    ensures
        0 <= longest_overlap(p, c, bound) <= (if bound > 0 { bound } else { 0 }),
    decreases bound,
{
    if bound > 0 {
        lemma_longest_overlap_bound(p, c, bound - 1);
    }
}

/// The phrases of the transcript inside the clip.
fn clip_phrases_exec(transcript: &[crate::domain::TranscriptSegment], clip_start: i64, clip_end: i64) -> (out: Vec<WorkingCaption>)
    ensures
        phrases_of(out@) == clip_phrases(crate::domain::segment_views(transcript@), clip_start, clip_end),
        timed_phrases(phrases_of(out@)),
{
    let mut out: Vec<WorkingCaption> = Vec::new();
    let mut i: usize = 0;
    while i < transcript.len()
        invariant
            i <= transcript@.len(),
            phrases_of(out@) == clip_phrases(crate::domain::segment_views(transcript@).subrange(0, i as int), clip_start, clip_end),
            timed_phrases(phrases_of(out@)),
        decreases transcript.len() - i,
    {
        let ghost all = crate::domain::segment_views(transcript@);
        assert(all.subrange(0, i + 1).drop_last() =~= all.subrange(0, i as int));
        let seg = &transcript[i];
        assert(all[i as int] == seg@);
        let start = if seg.start_ms >= clip_start { seg.start_ms } else { clip_start };
        let end = if seg.end_ms <= clip_end { seg.end_ms } else { clip_end };
        let text = chars_of(seg.text.as_str());
        let words = crate::text::split_whitespace(&text);
        if end > start && words.len() > 0 {
            let ghost before = phrases_of(out@);
            let w = WorkingCaption { start_ms: start, end_ms: end, words };
            assert(phrase_of(w) == clip_phrase(seg@, clip_start, clip_end)->0);
            out.push(w);
            assert(phrases_of(out@) =~= before.push(phrase_of(w)));
        }
        i = i + 1;
    }
    assert(crate::domain::segment_views(transcript@).subrange(0, transcript@.len() as int) =~= crate::domain::segment_views(transcript@));
    out
}

proof fn lemma_insert_phrase_at(s: Seq<Phrase>, c: Phrase, j: int)
    requires
        0 <= j <= s.len(),
        forall|k: int| j <= k < s.len() ==> !phrase_le(s[k], c),
        j == 0 || phrase_le(s[j - 1], c),
    ensures
        insert_phrase(s, c) == s.insert(j, c),
    decreases s.len(),
{
    if s.len() == 0 {
        assert(s.insert(j, c) =~= seq![c]);
    } else if phrase_le(s.last(), c) {
        assert(s.insert(j, c) =~= s.push(c));
    } else {
        lemma_insert_phrase_at(s.drop_last(), c, j);
        assert(s.insert(j, c) =~= s.drop_last().insert(j, c).push(s.last()));
    }
}

/// The phrases stably sorted by (start, end).
fn sort_phrases_exec(v: Vec<WorkingCaption>) -> (out: Vec<WorkingCaption>)
    requires
        timed_phrases(phrases_of(v@)),
    ensures
        phrases_of(out@) == sort_phrases(phrases_of(v@)),
        timed_phrases(phrases_of(out@)),
{
    let ghost input = phrases_of(v@);
    let ghost n = input.len();
    let mut rest = v;
    let mut sorted: Vec<WorkingCaption> = Vec::new();
    let mut taken: Vec<WorkingCaption> = Vec::new();
    // Reverse so that elements can be taken from the front in order.
    while rest.len() > 0
        invariant
            phrases_of(rest@) + phrases_of(taken@).reverse() == input,
        decreases rest.len(),
    {
        let ghost r = rest@;
        let c = rest.pop().unwrap();
        taken.push(c);
        proof {
            assert(phrases_of(taken@).reverse() =~= seq![phrase_of(c)] + phrases_of(taken@.drop_last()).reverse());
            assert(phrases_of(r) =~= phrases_of(rest@).push(phrase_of(c)));
            assert(phrases_of(rest@) + phrases_of(taken@).reverse() =~= input);
        }
    }
    assert(phrases_of(taken@).reverse() =~= input);
    while taken.len() > 0
        invariant
            phrases_of(taken@).len() <= n,
            input.len() == n,
            timed_phrases(input),
            input.subrange(n - taken@.len(), n as int) == phrases_of(taken@).reverse(),
            phrases_of(sorted@) == sort_phrases(input.subrange(0, n - taken@.len())),
            timed_phrases(phrases_of(sorted@)),
        decreases taken.len(),
    {
        let ghost k = n - taken@.len();
        let ghost tv = phrases_of(taken@);
        let c = taken.pop().unwrap();
        proof {
            assert(tv.reverse()[0] == phrase_of(c));
            assert(input[k] == phrase_of(c));
            assert(input.subrange(0, k + 1).drop_last() =~= input.subrange(0, k));
            assert(phrases_of(taken@) =~= tv.drop_last());
            assert(tv.drop_last().reverse() =~= tv.reverse().subrange(1, tv.len() as int));
            assert(input.subrange(n - taken@.len(), n as int) =~= input.subrange(k, n as int).subrange(1, tv.len() as int));
        }
        let mut j = sorted.len();
        while j > 0 && !(sorted[j - 1].start_ms < c.start_ms || (sorted[j - 1].start_ms == c.start_ms && sorted[j - 1].end_ms <= c.end_ms))
            invariant
                j <= sorted@.len(),
                forall|q: int| j <= q < sorted@.len() ==> !phrase_le(phrase_of(sorted@[q]), phrase_of(c)),
            decreases j,
        {
            j = j - 1;
        }
        let ghost before = phrases_of(sorted@);
        let ghost cv = phrase_of(c);
        sorted.insert(j, c);
        proof {
            assert(j > 0 ==> before[j - 1] == phrase_of(sorted@[j - 1]));
            lemma_insert_phrase_at(before, cv, j as int);
            assert(phrases_of(sorted@) =~= before.insert(j as int, cv));
            assert forall|q: int| 0 <= q < phrases_of(sorted@).len() implies
                (#[trigger] phrases_of(sorted@)[q]).start_ms < phrases_of(sorted@)[q].end_ms by {
                if q < j { assert(phrases_of(sorted@)[q] == before[q]); }
                else if q > j { assert(phrases_of(sorted@)[q] == before[q - 1]); }
            }
        }
    }
    assert(input.subrange(0, n as int) =~= input);
    sorted
}

/// A copy of the words `ws[from..]`.
fn copy_words(ws: &Vec<Vec<char>>, from: usize) -> (out: Vec<Vec<char>>)
    requires
        from <= ws@.len(),
    ensures
        crate::text::views(out@) == crate::text::views(ws@).subrange(from as int, ws@.len() as int),
{
    let mut out: Vec<Vec<char>> = Vec::new();
    let mut i: usize = from;
    while i < ws.len()
        invariant
            from <= i <= ws@.len(),
            crate::text::views(out@) == crate::text::views(ws@).subrange(from as int, i as int),
        decreases ws.len() - i,
    {
        let mut w: Vec<char> = Vec::new();
        extend_chars(&mut w, ws[i].as_slice());
        let ghost before = crate::text::views(out@);
        out.push(w);
        assert(crate::text::views(out@) =~= before.push(w@));
        assert(crate::text::views(ws@).subrange(from as int, i + 1) =~= crate::text::views(ws@).subrange(from as int, i as int).push(ws@[i as int]@));
        i = i + 1;
    }
    out
}

proof fn lemma_shift_bounds(d: int, r: int, n: int)
    requires
        0 <= d,
        0 <= r <= n,
        0 < n,
    ensures
        0 <= d * r / n <= d,
{
    assert(0 <= d * r) by (nonlinear_arith)
        requires 0 <= d, 0 <= r;
    assert(d * r <= d * n) by (nonlinear_arith)
        requires 0 <= d, r <= n;
    assert(d * r / n <= d * n / n) by (nonlinear_arith)
        requires d * r <= d * n, 0 < n;
    assert(d * n / n == d) by (nonlinear_arith)
        requires 0 < n;
    assert(0 <= d * r / n) by (nonlinear_arith)
        requires 0 <= d * r, 0 < n;
}

/// `d * r / n`, exactly, for `r` at most `n`: computed as `(d / n) * r + (d % n) * r / n`, whose
/// products stay within `u128` for operands below 2^64.
fn proportional_share(d: u128, r: u128, n: u128) -> (share: u128)
    requires
        d < 0x1_0000_0000_0000_0000,
        r <= n,
        0 < n < 0x1_0000_0000_0000_0000,
    ensures
        share as int == (d as int) * (r as int) / (n as int),
{
    let q = d / n;
    let m = d % n;
    proof {
        let (di, ri, ni, qi, mi) = (d as int, r as int, n as int, q as int, m as int);
        assert(di == qi * ni + mi && 0 <= mi < ni) by (nonlinear_arith)
            requires qi == di / ni, mi == di % ni, 0 < ni, 0 <= di;
        assert(qi * ri <= di) by (nonlinear_arith)
            requires di == qi * ni + mi, 0 <= mi, ri <= ni, 0 <= qi, 0 <= ri;
        assert(mi * ri < 0x1_0000_0000_0000_0000 * 0x1_0000_0000_0000_0000) by (nonlinear_arith)
            requires mi < ni, ni < 0x1_0000_0000_0000_0000, ri <= ni, 0 <= mi, 0 <= ri;
        let a = mi * ri;
        let t = a / ni;
        let u = a % ni;
        assert(a == t * ni + u && 0 <= u < ni) by (nonlinear_arith)
            requires t == a / ni, u == a % ni, 0 < ni, 0 <= a;
        assert(di * ri == (qi * ri + t) * ni + u) by (nonlinear_arith)
            requires di == qi * ni + mi, a == mi * ri, a == t * ni + u;
        vstd::arithmetic::div_mod::lemma_fundamental_div_mod_converse(di * ri, ni, qi * ri + t, u);
        assert(t <= mi) by (nonlinear_arith)
            requires a == mi * ri, ri <= ni, a == t * ni + u, 0 <= u, 0 < ni, 0 <= mi, 0 <= t, 0 <= ri;
        assert(0 <= t);
    }
    q * r + (m * r) / n
}

/// Sorted phrases with the words that overlapping transcription windows repeated removed.
fn clean_phrases_exec(sorted: &Vec<WorkingCaption>) -> (out: Vec<WorkingCaption>)
    requires
        timed_phrases(phrases_of(sorted@)),
    ensures
        phrases_of(out@) == clean_phrases(phrases_of(sorted@)),
        timed_phrases(phrases_of(out@)),
{
    let ghost input = phrases_of(sorted@);
    let mut cleaned: Vec<WorkingCaption> = Vec::new();
    let mut i: usize = 0;
    while i < sorted.len()
        invariant
            i <= sorted@.len(),
            input == phrases_of(sorted@),
            timed_phrases(input),
            phrases_of(cleaned@) == clean_phrases(input.subrange(0, i as int)),
            timed_phrases(phrases_of(cleaned@)),
        decreases sorted.len() - i,
    {
        let ghost before = phrases_of(cleaned@);
        assert(input.subrange(0, i + 1).drop_last() =~= input.subrange(0, i as int));
        let seg = &sorted[i];
        let ghost sv = phrase_of(*seg);
        assert(input[i as int] == sv);
        assert(sv.start_ms < sv.end_ms);
        let n = cleaned.len();
        let mut keep = true;
        let mut start = seg.start_ms;
        let mut from: usize = 0;
        let ghost close = before.len() > 0 && sv.start_ms < crate::domain::sat_add(
            before.last().end_ms,
            TRANSCRIPT_OVERLAP_TOLERANCE_MS as int,
        );
        if n > 0 {
            let previous = &cleaned[n - 1];
            assert(before.last() == phrase_of(*previous));
            if seg.start_ms < crate::domain::saturating_add_i64(previous.end_ms, TRANSCRIPT_OVERLAP_TOLERANCE_MS) {
                assert(close);
                let r = repeated_prefix_word_count(&previous.words, &seg.words);
                assert(r == repeated_prefix_count(before.last().words, sv.words));
                if r == seg.words.len() {
                    keep = false;
                } else if r > 0 {
                    let d: u128 = (seg.end_ms as i128 - seg.start_ms as i128) as u128;
                    let len: u128 = seg.words.len() as u128;
                    let share = proportional_share(d, r as u128, len);
                    proof {
                        lemma_shift_bounds(d as int, r as int, len as int);
                    }
                    let shifted: i128 = seg.start_ms as i128 + share as i128;
                    start = shifted as i64;
                    from = r;
                    assert(start == sv.start_ms + (sv.end_ms - sv.start_ms) * r / (sv.words.len() as int));
                } else {
                    assert(r == 0);
                }
            } else {
                assert(!close);
            }
        } else {
            assert(!close);
        }
        let ghost adjusted: Option<Phrase> = if keep {
            Some(Phrase { start_ms: start as int, end_ms: sv.end_ms, words: sv.words.subrange(from as int, sv.words.len() as int) })
        } else {
            None
        };
        proof {
            if from == 0 {
                assert(sv.words.subrange(0, sv.words.len() as int) =~= sv.words);
            }
        }
        if keep {
            let words = copy_words(&seg.words, from);
            if seg.end_ms > start && words.len() > 0 {
                let w = WorkingCaption { start_ms: start, end_ms: seg.end_ms, words };
                proof {
                    assert(crate::text::views(seg.words@) == sv.words);
                }
                cleaned.push(w);
                proof {
                    assert(phrases_of(cleaned@) =~= before.push(phrase_of(w)));
                    assert(phrase_of(w).words =~= sv.words.subrange(from as int, sv.words.len() as int));
                    assert forall|q: int| 0 <= q < phrases_of(cleaned@).len() implies
                        (#[trigger] phrases_of(cleaned@)[q]).start_ms < phrases_of(cleaned@)[q].end_ms by {
                        if q < before.len() {
                            assert(phrases_of(cleaned@)[q] == before[q]);
                        }
                    }
                }
            }
        }
        proof {
            let r = repeated_prefix_count(before.last().words, sv.words);
            if close {
                if r == sv.words.len() {
                    assert(adjusted is None);
                } else if r > 0 {
                    assert(adjusted == Some(Phrase {
                        start_ms: sv.start_ms + (sv.end_ms - sv.start_ms) * r / (sv.words.len() as int),
                        end_ms: sv.end_ms,
                        words: sv.words.subrange(r, sv.words.len() as int),
                    }));
                } else {
                    assert(adjusted == Some(sv));
                }
            } else {
                assert(adjusted == Some(sv));
            }
        }
        assert(phrases_of(cleaned@) == clean_step(before, sv));
        i = i + 1;
    }
    assert(input.subrange(0, sorted@.len() as int) =~= input);
    cleaned
}

/// Phrases `v` with their times replaced by `t`.
spec fn retimed(v: Seq<WorkingCaption>, t: Seq<(i64, i64)>) -> Seq<Phrase> {
    Seq::new(v.len(), |i: int| Phrase { start_ms: t[i].0 as int, end_ms: t[i].1 as int, words: crate::text::views(v[i].words@) })
}

proof fn lemma_last_timed(s: Seq<Phrase>)
    ensures
        -1 <= last_timed(s) < s.len(),
        0 <= last_timed(s) ==> is_timed(s[last_timed(s)]),
        forall|k: int| last_timed(s) < k < s.len() ==> !is_timed(#[trigger] s[k]),
    decreases s.len(),
{
    if s.len() > 0 {
        lemma_last_timed(s.drop_last());
        assert forall|k: int| last_timed(s) < k < s.len() implies !is_timed(#[trigger] s[k]) by {
            if k < s.len() - 1 {
                assert(s.drop_last()[k] == s[k]);
            }
        }
        if 0 <= last_timed(s) && last_timed(s) < s.len() - 1 {
            assert(s.drop_last()[last_timed(s)] == s[last_timed(s)]);
        }
    }
}

proof fn lemma_split_overlaps_len(s: Seq<Phrase>)
    ensures
        split_overlaps(s).len() == s.len(),
        forall|i: int| 0 <= i < s.len() ==> (#[trigger] split_overlaps(s)[i]).words == s[i].words,
    decreases s.len(),
{
    if s.len() > 0 {
        lemma_split_overlaps_len(s.drop_last());
        let w = split_overlaps(s.drop_last());
        lemma_last_timed(w);
        assert forall|i: int| 0 <= i < s.len() implies (#[trigger] split_overlaps(s)[i]).words == s[i].words by {
            if i < s.len() - 1 {
                assert(s.drop_last()[i] == s[i]);
            }
        }
    }
}

/// The times of the phrases after each one's shared time with the last earlier phrase that still
/// has time is split at its midpoint.
fn split_overlaps_exec(cleaned: &Vec<WorkingCaption>) -> (t: Vec<(i64, i64)>)
    ensures
        t@.len() == cleaned@.len(),
        retimed(cleaned@, t@) == split_overlaps(phrases_of(cleaned@)),
{
    let ghost input = phrases_of(cleaned@);
    let n = cleaned.len();
    let mut t: Vec<(i64, i64)> = Vec::new();
    let mut i: usize = 0;
    while i < n
        invariant
            n == cleaned@.len(),
            i <= n,
            t@.len() == i,
            forall|j: int| 0 <= j < i ==> (#[trigger] t@[j]) == (cleaned@[j].start_ms, cleaned@[j].end_ms),
        decreases n - i,
    {
        t.push((cleaned[i].start_ms, cleaned[i].end_ms));
        i = i + 1;
    }
    assert(retimed(cleaned@, t@).subrange(0, 0) =~= split_overlaps(input.subrange(0, 0)));
    let mut i: usize = 0;
    while i < n
        invariant
            n == cleaned@.len(),
            input == phrases_of(cleaned@),
            i <= n,
            t@.len() == n,
            retimed(cleaned@, t@).subrange(0, i as int) == split_overlaps(input.subrange(0, i as int)),
            forall|j: int| i <= j < n ==> (#[trigger] t@[j]) == (cleaned@[j].start_ms, cleaned@[j].end_ms),
        decreases n - i,
    {
        let ghost w = split_overlaps(input.subrange(0, i as int));
        let ghost old_t = t@;
        proof {
            lemma_split_overlaps_len(input.subrange(0, i as int));
            lemma_last_timed(w);
            assert(input.subrange(0, i + 1).drop_last() =~= input.subrange(0, i as int));
            assert forall|k: int| 0 <= k < i implies (#[trigger] w[k]).start_ms == old_t[k].0 && w[k].end_ms == old_t[k].1 by {
                assert(retimed(cleaned@, old_t).subrange(0, i as int)[k] == retimed(cleaned@, old_t)[k]);
            }
        }
        let mut j: usize = i;
        while j > 0 && !(t[j - 1].0 < t[j - 1].1)
            invariant
                j <= i,
                i < n,
                t@ == old_t,
                old_t.len() == n,
                forall|k: int| j <= k < i ==> !(old_t[k].0 < old_t[k].1),
            decreases j,
        {
            j = j - 1;
        }
        proof {
            let l = last_timed(w);
            assert(w.len() == i);
            if j > 0 {
                assert(is_timed(w[j - 1]));
            }
            assert forall|k: int| j <= k < i implies !is_timed(#[trigger] w[k]) by {}
            if l < j - 1 {
                assert(!is_timed(w[j - 1]));
            }
            if l > j - 1 {
                assert(!is_timed(w[l]));
            }
            assert(l == j - 1);
        }
        if j > 0 {
            let (ps, pe) = t[j - 1];
            let (cs, ce) = t[i];
            if cs < pe {
                let overlap_start: i64 = if cs >= ps { cs } else { ps };
                let overlap_end: i64 = if ce <= pe { ce } else { pe };
                let gap: i128 = overlap_end as i128 - overlap_start as i128;
                let width: i128 = if gap > 0 { gap } else { 0 };
                let boundary: i128 = overlap_start as i128 + width / 2;
                let new_end: i64 = if (pe as i128) <= boundary { pe } else { boundary as i64 };
                let new_start: i64 = if (cs as i128) >= boundary { cs } else { boundary as i64 };
                t.set(j - 1, (ps, new_end));
                t.set(i, (new_start, ce));
            }
            proof {
                let pair = split_pair(w[j - 1], input[i as int]);
                assert(retimed(cleaned@, t@).subrange(0, i + 1) =~= w.update(j - 1, pair.0).push(pair.1));
            }
        } else {
            assert(retimed(cleaned@, t@).subrange(0, i + 1) =~= w.push(input[i as int]));
        }
        i = i + 1;
    }
    assert(input.subrange(0, n as int) =~= input);
    assert(retimed(cleaned@, t@).subrange(0, n as int) =~= retimed(cleaned@, t@));
    t
}

spec fn views2(v: Seq<Vec<Vec<char>>>) -> Seq<Seq<Seq<char>>> {
    Seq::new(v.len(), |i: int| crate::text::views(v[i]@))
}

proof fn lemma_utf8_len_prefix(s: Seq<char>, i: int)
    requires
        0 <= i <= s.len(),
    ensures
        crate::text::utf8_len(s.subrange(0, i)) <= crate::text::utf8_len(s),
    decreases s.len() - i,
{
    if i < s.len() {
        lemma_utf8_len_prefix(s, i + 1);
        assert(s.subrange(0, i + 1).drop_last() =~= s.subrange(0, i));
    } else {
        assert(s.subrange(0, i) =~= s);
    }
}

proof fn lemma_group_weight_prefix(ws: Seq<Seq<char>>, i: int)
    requires
        0 <= i <= ws.len(),
    ensures
        group_weight(ws.subrange(0, i)) <= group_weight(ws),
    decreases ws.len() - i,
{
    if i < ws.len() {
        lemma_group_weight_prefix(ws, i + 1);
        assert(ws.subrange(0, i + 1).drop_last() =~= ws.subrange(0, i));
    } else {
        assert(ws.subrange(0, i) =~= ws);
    }
}

proof fn lemma_weight_before_agree(s: Seq<Seq<Seq<char>>>, t: Seq<Seq<Seq<char>>>, k: int)
    requires
        0 <= k <= s.len(),
        k <= t.len(),
        forall|i: int| 0 <= i < k ==> s[i] == t[i],
    ensures
        weight_before(s, k) == weight_before(t, k),
    decreases k,
{
    if k > 0 {
        lemma_weight_before_agree(s, t, k - 1);
    }
}

proof fn lemma_groups_weigh_their_words(ws: Seq<Seq<char>>)
    ensures
        weight_before(group_words(ws), group_words(ws).len() as int) == group_weight(ws),
    decreases ws.len(),
{
    if ws.len() > 0 {
        lemma_groups_weigh_their_words(ws.drop_last());
        let g = group_words(ws.drop_last());
        let w = ws.last();
        let r = group_words(ws);
        assert(r == group_step(g, w));
        assert(seq![w].drop_last() =~= Seq::<Seq<char>>::empty());
        assert(seq![w].last() == w);
        assert(group_weight(Seq::<Seq<char>>::empty()) == 0);
        assert(group_weight(seq![w]) == group_weight(seq![w].drop_last()) + crate::text::utf8_len(w) + 1);
        assert(group_weight(ws) == group_weight(ws.drop_last()) + crate::text::utf8_len(w) + 1);
        if g.len() == 0 {
            assert(r =~= seq![seq![w]]);
            assert(weight_before(r, 1) == weight_before(r, 0) + group_weight(r[0]));
        } else {
            let last = g.last();
            let exceed = last.len() >= MAX_CAPTION_WORDS || (last.len() > 0 && group_weight(last) + crate::text::utf8_len(w)
                > MAX_CAPTION_CHARACTERS);
            if exceed {
                assert(r == g.push(seq![w]));
                lemma_weight_before_agree(r, g, g.len() as int);
                assert(weight_before(r, r.len() as int) == weight_before(r, g.len() as int) + group_weight(r[g.len() as int]));
            } else {
                assert(r == g.update(g.len() - 1, last.push(w)));
                assert(last.push(w).drop_last() =~= last);
                assert(last.push(w).last() == w);
                lemma_weight_before_agree(r, g, g.len() - 1);
                assert(weight_before(r, r.len() as int) == weight_before(r, g.len() - 1) + group_weight(r[g.len() - 1]));
                assert(weight_before(g, g.len() as int) == weight_before(g, g.len() - 1) + group_weight(g[g.len() - 1]));
                assert(group_weight(last.push(w)) == group_weight(last) + crate::text::utf8_len(w) + 1);
            }
        }
    }
}

/// The UTF-8 length of a word.
fn word_bytes(s: &[char]) -> (n: u64)
    requires
        crate::text::utf8_len(s@) <= i64::MAX,
    ensures
        n == crate::text::utf8_len(s@),
{
    let mut n: u64 = 0;
    let mut i: usize = 0;
    while i < s.len()
        invariant
            i <= s@.len(),
            crate::text::utf8_len(s@) <= i64::MAX,
            n == crate::text::utf8_len(s@.subrange(0, i as int)),
        decreases s.len() - i,
    {
        assert(s@.subrange(0, i + 1).drop_last() =~= s@.subrange(0, i as int));
        proof {
            lemma_utf8_len_prefix(s@, i + 1);
        }
        let code = s[i] as u32;
        let w: u64 = if code < 0x80 { 1 } else if code < 0x800 { 2 } else if code < 0x10000 { 3 } else { 4 };
        n = n + w;
        i = i + 1;
    }
    assert(s@.subrange(0, s@.len() as int) =~= s@);
    n
}

/// The words of one phrase grouped into captions, with each group's weight.
fn group_words_exec(ws: &Vec<Vec<char>>) -> (r: (Vec<Vec<Vec<char>>>, Vec<u64>))
    requires
        group_weight(crate::text::views(ws@)) <= i64::MAX,
    ensures
        views2(r.0@) == group_words(crate::text::views(ws@)),
        r.1@.len() == r.0@.len(),
        forall|k: int| 0 <= k < r.1@.len() ==> (#[trigger] r.1@[k]) == group_weight(views2(r.0@)[k]),
{
    let ghost all = crate::text::views(ws@);
    let mut done: Vec<Vec<Vec<char>>> = Vec::new();
    let mut weights: Vec<u64> = Vec::new();
    let mut current: Vec<Vec<char>> = Vec::new();
    let mut current_weight: u64 = 0;
    let mut i: usize = 0;
    while i < ws.len()
        invariant
            i <= ws@.len(),
            all == crate::text::views(ws@),
            group_weight(all) <= i64::MAX,
            weights@.len() == done@.len(),
            i == 0 ==> done@.len() == 0 && current@.len() == 0,
            i > 0 ==> 1 <= current@.len() <= MAX_CAPTION_WORDS,
            i > 0 ==> group_words(all.subrange(0, i as int)) == views2(done@).push(crate::text::views(current@)),
            current_weight == group_weight(crate::text::views(current@)),
            current_weight <= group_weight(all.subrange(0, i as int)),
            forall|k: int| 0 <= k < weights@.len() ==> (#[trigger] weights@[k]) == group_weight(views2(done@)[k]),
        decreases ws.len() - i,
    {
        let mut word: Vec<char> = Vec::new();
        extend_chars(&mut word, ws[i].as_slice());
        assert(word@ == all[i as int]);
        proof {
            lemma_group_weight_prefix(all, i + 1);
            assert(all.subrange(0, i + 1).drop_last() =~= all.subrange(0, i as int));
            assert(all.subrange(0, i + 1).last() == all[i as int]);
            assert(group_words(all.subrange(0, i + 1)) == group_step(group_words(all.subrange(0, i as int)), all[i as int]));
            assert(group_weight(Seq::<Seq<char>>::empty()) == 0);
            lemma_group_weight_nonneg(crate::text::views(current@));
            lemma_group_weight_nonneg(all.subrange(0, i as int));
        }
        let wl = word_bytes(word.as_slice());
        let ghost old_current = crate::text::views(current@);
        let ghost old_done = views2(done@);
        let exceed = current.len() >= MAX_CAPTION_WORDS
            || (current.len() > 0 && current_weight + wl > MAX_CAPTION_CHARACTERS as u64);
        if i == 0 || exceed {
            if i > 0 {
                let ghost g = crate::text::views(current@);
                let mut finished: Vec<Vec<char>> = Vec::new();
                std::mem::swap(&mut finished, &mut current);
                done.push(finished);
                weights.push(current_weight);
                proof {
                    assert(views2(done@) =~= old_done.push(g));
                }
            }
            current = Vec::new();
            current.push(word);
            current_weight = wl + 1;
            proof {
                assert(crate::text::views(current@).last() == all[i as int]);
                assert(crate::text::views(current@) =~= seq![all[i as int]]);
                assert(crate::text::views(current@).drop_last() =~= Seq::<Seq<char>>::empty());
                if i == 0 {
                    assert(all.subrange(0, 1) =~= seq![all[0]]);
                    assert(all.subrange(0, 0) =~= Seq::<Seq<char>>::empty());
                }
            }
        } else {
            current.push(word);
            current_weight = current_weight + wl + 1;
            proof {
                assert(crate::text::views(current@).last() == all[i as int]);
                assert(crate::text::views(current@) =~= old_current.push(all[i as int]));
                assert(crate::text::views(current@).drop_last() =~= old_current);
                assert(old_done.push(old_current).update(old_done.len() as int, old_current.push(all[i as int]))
                    =~= old_done.push(crate::text::views(current@)));
            }
        }
        i = i + 1;
    }
    if current.len() > 0 {
        let ghost old_done = views2(done@);
        let ghost g = crate::text::views(current@);
        done.push(current);
        weights.push(current_weight);
        assert(views2(done@) =~= old_done.push(g));
        assert(all.subrange(0, ws@.len() as int) =~= all);
    } else {
        assert(all.len() == 0);
        assert(views2(done@) =~= Seq::<Seq<Seq<char>>>::empty());
    }
    (done, weights)
}

/// Appends the cues of the phrase `start..end` with `words` to `out`.
fn phrase_cues_exec(start: i64, end: i64, words: &Vec<Vec<char>>, clip_start: i64, out: &mut Vec<CaptionCue>)
    requires
        start < end,
        (end - start) * group_weight(crate::text::views(words@)) <= i64::MAX,
    ensures
        cue_views(final(out)@) == cue_views(old(out)@) + phrase_captions(
            Phrase { start_ms: start as int, end_ms: end as int, words: crate::text::views(words@) },
            clip_start as int,
        ),
{
    let ghost p = Phrase { start_ms: start as int, end_ms: end as int, words: crate::text::views(words@) };
    proof {
        lemma_group_weight_nonneg(p.words);
        assert(group_weight(p.words) <= i64::MAX) by (nonlinear_arith)
            requires (end - start) * group_weight(p.words) <= i64::MAX, end - start >= 1, group_weight(p.words) >= 0;
    }
    let (groups, weights) = group_words_exec(words);
    let ghost g = views2(groups@);
    let ghost wmax = group_weight(p.words);
    proof {
        lemma_groups_weigh_their_words(p.words);
        assert(weight_before(g, g.len() as int) == wmax);
    }
    let n = groups.len();
    let mut sum: u64 = 0;
    let mut k: usize = 0;
    while k < n
        invariant
            n == groups@.len(),
            weights@.len() == n,
            k <= n,
            g == views2(groups@),
            forall|j: int| 0 <= j < n ==> (#[trigger] weights@[j]) == group_weight(g[j]),
            weight_before(g, n as int) == wmax,
            wmax <= i64::MAX,
            sum == weight_before(g, k as int),
        decreases n - k,
    {
        proof {
            lemma_weight_before_mono(g, k + 1, n as int);
            assert(weight_before(g, k + 1) == weight_before(g, k as int) + group_weight(g[k as int]));
        }
        sum = sum + weights[k];
        k = k + 1;
    }
    let total: u64 = if sum >= 1 { sum } else { 1 };
    let d: i128 = end as i128 - start as i128;
    let ghost old_out = cue_views(out@);
    let mut sep: Vec<char> = Vec::new();
    sep.push(' ');
    let mut consumed: u64 = 0;
    let mut k: usize = 0;
    while k < n
        invariant
            n == groups@.len(),
            weights@.len() == n,
            k <= n,
            g == views2(groups@),
            sep@ == seq![' '],
            forall|j: int| 0 <= j < n ==> (#[trigger] weights@[j]) == group_weight(g[j]),
            weight_before(g, n as int) == wmax,
            wmax <= i64::MAX,
            d * wmax <= i64::MAX,
            consumed == weight_before(g, k as int),
            total == (if weight_before(g, n as int) >= 1 { weight_before(g, n as int) } else { 1 }),
            total >= 1,
            0 < d < 0x1_0000_0000_0000_0000,
            d == end - start,
            p == (Phrase { start_ms: start as int, end_ms: end as int, words: crate::text::views(words@) }),
            g == group_words(p.words),
            cue_views(out@) == old_out + phrase_cues(p, g, total as int, clip_start as int, k as int),
        decreases n - k,
    {
        proof {
            lemma_weight_before_mono(g, k as int, k + 1);
            lemma_weight_before_mono(g, k + 1, n as int);
            assert(weight_before(g, k + 1) == weight_before(g, k as int) + group_weight(g[k as int]));
        }
        let before: u64 = consumed;
        consumed = consumed + weights[k];
        proof {
            assert(d * (before as int) <= d * wmax) by (nonlinear_arith)
                requires 0 < d, before <= wmax;
            assert(d * (consumed as int) <= d * wmax) by (nonlinear_arith)
                requires 0 < d, consumed <= wmax;
            assert(0 <= d * (before as int)) by (nonlinear_arith)
                requires 0 < d;
            assert(0 <= d * (consumed as int)) by (nonlinear_arith)
                requires 0 < d;
        }
        let s: i128 = start as i128 + d * (before as i128) / (total as i128) - clip_start as i128;
        let e: i128 = start as i128 + d * (consumed as i128) / (total as i128) - clip_start as i128;
        let ghost prior = cue_views(out@);
        if e > s {
            let joined = crate::text::join_chars(&groups[k], sep.as_slice());
            let text = string_of(joined.as_slice());
            let cue = CaptionCue { start_ms: s as i64, end_ms: e as i64, text };
            out.push(cue);
            assert(cue_views(out@) =~= prior.push(cue@));
            assert(g[k as int] == crate::text::views(groups@[k as int]@));
        }
        k = k + 1;
    }
    assert(total == (if weight_before(g, g.len() as int) >= 1 { weight_before(g, g.len() as int) } else { 1 }));
}

/// The cues of the retimed phrases.
fn phrases_captions_exec(cleaned: &Vec<WorkingCaption>, times: &Vec<(i64, i64)>, clip_start: i64) -> (out: Vec<CaptionCue>)
    requires
        times@.len() == cleaned@.len(),
        caption_timing_fits(retimed(cleaned@, times@)),
    ensures
        cue_views(out@) == phrases_captions(retimed(cleaned@, times@), clip_start as int),
{
    let ghost all = retimed(cleaned@, times@);
    let mut out: Vec<CaptionCue> = Vec::new();
    let mut i: usize = 0;
    while i < cleaned.len()
        invariant
            i <= cleaned@.len(),
            times@.len() == cleaned@.len(),
            all == retimed(cleaned@, times@),
            caption_timing_fits(all),
            cue_views(out@) == phrases_captions(all.subrange(0, i as int), clip_start as int),
        decreases cleaned.len() - i,
    {
        assert(all.subrange(0, i + 1).drop_last() =~= all.subrange(0, i as int));
        assert(all.subrange(0, i + 1).last() == all[i as int]);
        let (start, end) = times[i];
        if start < end {
            proof {
                assert(is_timed(all[i as int]));
                assert(all[i as int].words == crate::text::views(cleaned@[i as int].words@));
            }
            phrase_cues_exec(start, end, &cleaned[i].words, clip_start, &mut out);
        }
        i = i + 1;
    }
    assert(all.subrange(0, cleaned@.len() as int) =~= all);
    out
}

/// Short, non-overlapping captions for the clip `clip_start_ms..clip_end_ms` from the
/// transcript: phrases clipped to the clip, sorted, words repeated by overlapping windows
/// removed, shared time split at midpoints, then grouped into captions of at most six words and
/// 34 bytes, each timed in proportion to its length, relative to the clip start.
pub fn build_caption_cues(transcript: &[crate::domain::TranscriptSegment], clip_start_ms: i64, clip_end_ms: i64) -> (out: Vec<CaptionCue>)
    requires
        spec_caption_timing_fits(crate::domain::segment_views(transcript@), clip_start_ms, clip_end_ms),
    ensures
        cue_views(out@) == spec_caption_cues(crate::domain::segment_views(transcript@), clip_start_ms, clip_end_ms),
{
    let source = clip_phrases_exec(transcript, clip_start_ms, clip_end_ms);
    let sorted = sort_phrases_exec(source);
    let cleaned = clean_phrases_exec(&sorted);
    let times = split_overlaps_exec(&cleaned);
    proof {
        lemma_split_overlaps_len(phrases_of(cleaned@));
    }
    phrases_captions_exec(&cleaned, &times, clip_start_ms)
}

/// The UTF-8 length of a word.
fn word_bytes_wide(s: &[char]) -> (n: u128)
    ensures
        n == crate::text::utf8_len(s@),
{
    let mut n: u128 = 0;
    let mut i: usize = 0;
    while i < s.len()
        invariant
            i <= s@.len(),
            n == crate::text::utf8_len(s@.subrange(0, i as int)),
            n <= 4 * i,
        decreases s.len() - i,
    {
        assert(s@.subrange(0, i + 1).drop_last() =~= s@.subrange(0, i as int));
        let code = s[i] as u32;
        let w: u128 = if code < 0x80 { 1 } else if code < 0x800 { 2 } else if code < 0x10000 { 3 } else { 4 };
        n = n + w;
        i = i + 1;
    }
    assert(s@.subrange(0, s@.len() as int) =~= s@);
    n
}

/// The weight of the words (their UTF-8 lengths plus one each), capped just above `i64::MAX`.
fn group_weight_capped(ws: &Vec<Vec<char>>) -> (w: u128)
    ensures
        w == (if group_weight(crate::text::views(ws@)) <= i64::MAX { group_weight(crate::text::views(ws@)) } else { i64::MAX + 1 }),
{
    let ghost all = crate::text::views(ws@);
    let mut acc: u128 = 0;
    let mut i: usize = 0;
    while i < ws.len()
        invariant
            i <= ws@.len(),
            all == crate::text::views(ws@),
            acc == (if group_weight(all.subrange(0, i as int)) <= i64::MAX { group_weight(all.subrange(0, i as int)) } else { i64::MAX + 1 }),
        decreases ws.len() - i,
    {
        assert(all.subrange(0, i + 1).drop_last() =~= all.subrange(0, i as int));
        assert(all.subrange(0, i + 1).last() == ws@[i as int]@);
        proof {
            lemma_group_weight_nonneg(all.subrange(0, i as int));
        }
        let wl = word_bytes_wide(ws[i].as_slice());
        let next: u128 = if acc > 0x7fff_ffff_ffff_ffff || wl > 0x7fff_ffff_ffff_ffff { 0x8000_0000_0000_0000 } else { acc + wl + 1 };
        acc = if next > 0x7fff_ffff_ffff_ffff { 0x8000_0000_0000_0000 } else { next };
        i = i + 1;
    }
    assert(all.subrange(0, ws@.len() as int) =~= all);
    acc
}

/// Whether the captions of the clip `clip_start_ms..clip_end_ms` from the transcript can be timed
/// within `i64` (see [`spec_caption_timing_fits`]), as `build_caption_cues` needs.
pub fn caption_timing_fits_exec(transcript: &[crate::domain::TranscriptSegment], clip_start_ms: i64, clip_end_ms: i64) -> (b: bool)
    ensures
        b == spec_caption_timing_fits(crate::domain::segment_views(transcript@), clip_start_ms, clip_end_ms),
{
    let source = clip_phrases_exec(transcript, clip_start_ms, clip_end_ms);
    let sorted = sort_phrases_exec(source);
    let cleaned = clean_phrases_exec(&sorted);
    let times = split_overlaps_exec(&cleaned);
    proof {
        lemma_split_overlaps_len(phrases_of(cleaned@));
    }
    let ghost all = retimed(cleaned@, times@);
    assert(all == split_overlaps(clean_phrases(sort_phrases(clip_phrases(crate::domain::segment_views(transcript@), clip_start_ms, clip_end_ms)))));
    let mut i: usize = 0;
    while i < cleaned.len()
        invariant
            i <= cleaned@.len(),
            times@.len() == cleaned@.len(),
            all == retimed(cleaned@, times@),
            all == split_overlaps(clean_phrases(sort_phrases(clip_phrases(crate::domain::segment_views(transcript@), clip_start_ms, clip_end_ms)))),
            forall|k: int| 0 <= k < i && is_timed(#[trigger] all[k]) ==> (all[k].end_ms - all[k].start_ms) * group_weight(all[k].words) <= i64::MAX,
        decreases cleaned.len() - i,
    {
        let (start, end) = times[i];
        assert(all[i as int].start_ms == start && all[i as int].end_ms == end);
        assert(all[i as int].words == crate::text::views(cleaned@[i as int].words@));
        if start < end {
            let d: u128 = (end as i128 - start as i128) as u128;
            let w = group_weight_capped(&cleaned[i].words);
            proof {
                assert(d * w <= 0x1_0000_0000_0000_0000 * 0x8000_0000_0000_0000) by (nonlinear_arith)
                    requires d < 0x1_0000_0000_0000_0000, w <= 0x8000_0000_0000_0000;
            }
            if d * w > 0x7fff_ffff_ffff_ffff {
                proof {
                    let gw = group_weight(all[i as int].words);
                    lemma_group_weight_nonneg(all[i as int].words);
                    assert(d as int == all[i as int].end_ms - all[i as int].start_ms);
                    if gw > i64::MAX {
                        assert(d * gw >= gw) by (nonlinear_arith)
                            requires d >= 1, gw >= 0;
                    }
                    assert(is_timed(all[i as int]));
                    assert(!((all[i as int].end_ms - all[i as int].start_ms) * gw <= i64::MAX));
                    assert(!caption_timing_fits(all));
                }
                return false;
            }
        }
        i = i + 1;
    }
    assert(caption_timing_fits(all));
    true
}

/// The manifest that renders `candidate` cut as `decision` says: the cut clamped to the
/// candidate, a 1080x1920 master at 30 fps, the decision's layout (`fit_blur` by default) and
/// hook, and captions for the cut from the transcript.
pub open spec fn manifest_for(
    candidate: crate::domain::CandidateView,
    decision: crate::domain::DecisionView,
    input_path: Seq<char>,
    output_path: Seq<char>,
    transcript: Seq<crate::domain::TranscriptSegmentView>,
) -> EditManifestView {
    let start = crate::domain::max_i64(decision.start_ms, candidate.start_ms);
    let end = if decision.end_ms <= candidate.end_ms { decision.end_ms } else { candidate.end_ms };
    EditManifestView {
        version: 1,
        candidate_id: candidate.id,
        input_path,
        output_path,
        source_start_ms: start,
        source_end_ms: end,
        width: 1080,
        height: 1920,
        fps: 30,
        layout: match decision.layout {
            Some(l) => l,
            None => "fit_blur"@,
        },
        hook_text: decision.hook_text,
        captions: spec_caption_cues(transcript, start, end),
    }
}

/// Builds the render manifest for a decision on a candidate and validates it.
pub fn build_manifest(
    candidate: &crate::domain::Candidate,
    decision: &crate::domain::EditorialDecision,
    input_path: &str,
    output_path: &str,
    transcript: &[crate::domain::TranscriptSegment],
) -> (r: Result<EditManifest, ManifestError>)
    requires
        spec_caption_timing_fits(
            crate::domain::segment_views(transcript@),
            crate::domain::max_i64(decision.start_ms, candidate.start_ms),
            if decision.end_ms <= candidate.end_ms { decision.end_ms } else { candidate.end_ms },
        ),
    ensures
        match r {
            Ok(m) => m@ == manifest_for(candidate@, decision@, input_path@, output_path@, crate::domain::segment_views(transcript@))
                && spec_validate_manifest(m@) is Ok,
            Err(e) => spec_validate_manifest(manifest_for(candidate@, decision@, input_path@, output_path@, crate::domain::segment_views(transcript@))) == Err::<(), ManifestError>(e),
        },
{
    let start_ms = if decision.start_ms >= candidate.start_ms { decision.start_ms } else { candidate.start_ms };
    let end_ms = if decision.end_ms <= candidate.end_ms { decision.end_ms } else { candidate.end_ms };
    let captions = build_caption_cues(transcript, start_ms, end_ms);
    let layout = match &decision.layout {
        Some(l) => l.clone(),
        None => "fit_blur".to_owned(),
    };
    let hook_text = match &decision.hook_text {
        Some(h) => Some(h.clone()),
        None => None,
    };
    let manifest = EditManifest {
        version: 1,
        candidate_id: candidate.id.clone(),
        input_path: input_path.to_owned(),
        output_path: output_path.to_owned(),
        source_start_ms: start_ms,
        source_end_ms: end_ms,
        width: 1080,
        height: 1920,
        fps: 30,
        layout,
        hook_text,
        captions,
    };
    assert(manifest@ == manifest_for(candidate@, decision@, input_path@, output_path@, crate::domain::segment_views(transcript@)));
    match validate_manifest(&manifest) {
        Ok(()) => Ok(manifest),
        Err(e) => Err(e),
    }
}

/// Every caption group holds one to six words, and unless it is a single word its text (the
/// words joined by single spaces) takes at most 34 bytes.
pub proof fn law_caption_groups_are_short(ws: Seq<Seq<char>>)
    ensures
        forall|k: int| 0 <= k < group_words(ws).len() ==> {
            let g = #[trigger] group_words(ws)[k];
            &&& 1 <= g.len() <= MAX_CAPTION_WORDS
            &&& (g.len() == 1 || group_weight(g) - 1 <= MAX_CAPTION_CHARACTERS)
        },
    decreases ws.len(),
{
    if ws.len() > 0 {
        law_caption_groups_are_short(ws.drop_last());
        let init = group_words(ws.drop_last());
        let w = ws.last();
        let all = group_words(ws);
        assert(group_weight(Seq::<Seq<char>>::empty()) == 0);
        assert(seq![w].drop_last() =~= Seq::<Seq<char>>::empty());
        assert forall|k: int| 0 <= k < all.len() implies {
            let g = #[trigger] all[k];
            &&& 1 <= g.len() <= MAX_CAPTION_WORDS
            &&& (g.len() == 1 || group_weight(g) - 1 <= MAX_CAPTION_CHARACTERS)
        } by {
            if init.len() > 0 && k == init.len() - 1 && all.len() == init.len() {
                let g = init.last();
                assert(g.push(w).drop_last() =~= g);
                assert(all[k] == g.push(w));
            } else if k < init.len() {
                assert(all[k] == init[k]);
            } else {
                assert(all[k] == seq![w]);
            }
        }
    }
}

/// Whether every phrase starts and ends within `lo..=hi`.
pub open spec fn phrases_within(s: Seq<Phrase>, lo: int, hi: int) -> bool {
    forall|i: int| 0 <= i < s.len() ==> lo <= (#[trigger] s[i]).start_ms <= hi && lo <= s[i].end_ms <= hi
}

/// Whether no two phrases that have time overlap, earlier ones ending before later ones start.
pub open spec fn timed_disjoint(s: Seq<Phrase>) -> bool {
    forall|i: int, j: int|
        0 <= i < j < s.len() && is_timed(#[trigger] s[i]) && is_timed(#[trigger] s[j]) ==> s[i].end_ms <= s[j].start_ms
}

/// Whether each cue starts before it ends, and every cue ends no later than any later cue starts.
pub open spec fn cues_in_order(c: Seq<CaptionCueView>) -> bool {
    &&& forall|i: int| 0 <= i < c.len() ==> (#[trigger] c[i]).start_ms < c[i].end_ms
    &&& forall|i: int, j: int| 0 <= i < j < c.len() ==> (#[trigger] c[i]).end_ms <= (#[trigger] c[j]).start_ms
}

proof fn lemma_insert_phrase_within(s: Seq<Phrase>, c: Phrase, lo: int, hi: int)
    requires
        phrases_within(s, lo, hi),
        timed_phrases(s),
        lo <= c.start_ms < c.end_ms <= hi,
    ensures
        phrases_within(insert_phrase(s, c), lo, hi),
        timed_phrases(insert_phrase(s, c)),
    decreases s.len(),
{
    if s.len() > 0 && !phrase_le(s.last(), c) {
        lemma_insert_phrase_within(s.drop_last(), c, lo, hi);
        let r = insert_phrase(s.drop_last(), c);
        assert forall|i: int| 0 <= i < r.push(s.last()).len() implies lo <= (#[trigger] r.push(s.last())[i]).start_ms
            < r.push(s.last())[i].end_ms <= hi by {
            if i < r.len() {
                assert(r.push(s.last())[i] == r[i]);
            }
        }
    }
}

proof fn lemma_sort_phrases_within(s: Seq<Phrase>, lo: int, hi: int)
    requires
        phrases_within(s, lo, hi),
        timed_phrases(s),
    ensures
        phrases_within(sort_phrases(s), lo, hi),
        timed_phrases(sort_phrases(s)),
    decreases s.len(),
{
    if s.len() > 0 {
        lemma_sort_phrases_within(s.drop_last(), lo, hi);
        lemma_insert_phrase_within(sort_phrases(s.drop_last()), s.last(), lo, hi);
    }
}

proof fn lemma_clip_phrases_within(t: Seq<crate::domain::TranscriptSegmentView>, clip_start: i64, clip_end: i64)
    ensures
        phrases_within(clip_phrases(t, clip_start, clip_end), clip_start as int, clip_end as int),
        timed_phrases(clip_phrases(t, clip_start, clip_end)),
    decreases t.len(),
{
    if t.len() > 0 {
        lemma_clip_phrases_within(t.drop_last(), clip_start, clip_end);
    }
}

proof fn lemma_clean_phrases_within(s: Seq<Phrase>, lo: int, hi: int)
    requires
        phrases_within(s, lo, hi),
        timed_phrases(s),
    ensures
        phrases_within(clean_phrases(s), lo, hi),
        timed_phrases(clean_phrases(s)),
    decreases s.len(),
{
    if s.len() > 0 {
        lemma_clean_phrases_within(s.drop_last(), lo, hi);
        let seg = s.last();
        let cleaned = clean_phrases(s.drop_last());
        let r = repeated_prefix_count(
            if cleaned.len() > 0 { cleaned.last().words } else { seq![] },
            seg.words,
        );
        let d = seg.end_ms - seg.start_ms;
        if 0 <= r && seg.words.len() > 0 {
            assert(0 <= d * r / (seg.words.len() as int)) by (nonlinear_arith)
                requires d > 0, r >= 0, seg.words.len() > 0;
        }
        if cleaned.len() > 0 {
            lemma_repeated_prefix_nonneg(cleaned.last().words, seg.words);
        }
    }
}

proof fn lemma_repeated_prefix_nonneg(previous: Seq<Seq<char>>, current: Seq<Seq<char>>)
    ensures
        0 <= repeated_prefix_count(previous, current),
{
    let p = word_keys(previous);
    let c = word_keys(current);
    lemma_longest_overlap_bound(p, c, if p.len() <= c.len() { p.len() as int } else { c.len() as int });
}

proof fn lemma_split_overlaps_disjoint(s: Seq<Phrase>, lo: int, hi: int)
    requires
        phrases_within(s, lo, hi),
        timed_phrases(s),
    ensures
        phrases_within(split_overlaps(s), lo, hi),
        timed_disjoint(split_overlaps(s)),
        split_overlaps(s).len() == s.len(),
    decreases s.len(),
{
    if s.len() > 0 {
        let init = s.drop_last();
        assert(phrases_within(init, lo, hi) && timed_phrases(init)) by {
            assert forall|i: int| 0 <= i < init.len() implies (#[trigger] init[i]) == s[i] by {}
        }
        lemma_split_overlaps_disjoint(init, lo, hi);
        let w = split_overlaps(init);
        let c = s.last();
        let r = split_overlaps(s);
        lemma_last_timed(w);
        let j = last_timed(w);
        if j < 0 {
            assert(r == w.push(c));
            assert forall|a: int, b: int|
                0 <= a < b < r.len() && is_timed(#[trigger] r[a]) && is_timed(#[trigger] r[b]) implies r[a].end_ms
                <= r[b].start_ms by {
                assert(r[a] == w[a]);
                if b < w.len() {
                    assert(r[b] == w[b]);
                }
            }
        } else {
            let p = w[j];
            let pair = split_pair(p, c);
            assert(r == w.update(j, pair.0).push(pair.1));
            let q = pair.0;
            let c2 = pair.1;
            assert(q.start_ms == p.start_ms && q.end_ms <= p.end_ms);
            assert(q.end_ms <= c2.start_ms);
            assert(p.start_ms <= c2.start_ms);
            assert(lo <= q.end_ms <= hi && lo <= c2.start_ms <= hi);
            assert forall|a: int, b: int|
                0 <= a < b < r.len() && is_timed(#[trigger] r[a]) && is_timed(#[trigger] r[b]) implies r[a].end_ms
                <= r[b].start_ms by {
                if a != j {
                    assert(r[a] == w[a]);
                }
                if b < w.len() && b != j {
                    assert(r[b] == w[b]);
                }
                if b == w.len() && a < j {
                    assert(is_timed(w[a]) && is_timed(w[j]));
                }
                if b == j {
                    assert(is_timed(w[a]) && is_timed(w[j]));
                }
            }
            assert forall|i: int| 0 <= i < r.len() implies lo <= (#[trigger] r[i]).start_ms <= hi && lo <= r[i].end_ms
                <= hi by {
                if i < w.len() && i != j {
                    assert(r[i] == w[i]);
                }
            }
        }
    }
}

proof fn lemma_group_weight_nonneg(g: Seq<Seq<char>>)
    ensures
        0 <= group_weight(g),
    decreases g.len(),
{
    if g.len() > 0 {
        lemma_group_weight_nonneg(g.drop_last());
    }
}

proof fn lemma_weight_before_mono(groups: Seq<Seq<Seq<char>>>, a: int, b: int)
    requires
        0 <= a <= b,
    ensures
        0 <= weight_before(groups, a) <= weight_before(groups, b),
    decreases b, a,
{
    if b > a {
        lemma_weight_before_mono(groups, a, b - 1);
        lemma_group_weight_nonneg(groups[b - 1]);
    } else if a > 0 {
        lemma_weight_before_mono(groups, 0, a);
    }
}

proof fn lemma_scaled_share(d: int, a: int, b: int, t: int)
    requires
        0 < d,
        0 <= a <= b <= t,
        1 <= t,
    ensures
        0 <= d * a / t <= d * b / t <= d,
{
    assert(0 <= d * a) by (nonlinear_arith)
        requires 0 < d, 0 <= a;
    assert(d * a <= d * b) by (nonlinear_arith)
        requires 0 < d, a <= b;
    assert(d * b <= d * t) by (nonlinear_arith)
        requires 0 < d, b <= t;
    vstd::arithmetic::div_mod::lemma_div_is_ordered(d * a, d * b, t);
    vstd::arithmetic::div_mod::lemma_div_is_ordered(d * b, d * t, t);
    vstd::arithmetic::div_mod::lemma_div_is_ordered(0, d * a, t);
    vstd::arithmetic::div_mod::lemma_div_by_multiple(d, t);
}

proof fn lemma_phrase_cues_in_order(p: Phrase, groups: Seq<Seq<Seq<char>>>, total: int, clip_start: int, k: int)
    requires
        p.start_ms < p.end_ms,
        1 <= total,
        0 <= k <= groups.len(),
        weight_before(groups, groups.len() as int) <= total,
        clip_start <= p.start_ms,
        p.end_ms - clip_start <= i64::MAX,
    ensures
        cues_in_order(phrase_cues(p, groups, total, clip_start, k)),
        forall|i: int| 0 <= i < phrase_cues(p, groups, total, clip_start, k).len() ==> p.start_ms - clip_start
            <= (#[trigger] phrase_cues(p, groups, total, clip_start, k)[i]).start_ms
            && phrase_cues(p, groups, total, clip_start, k)[i].end_ms <= p.start_ms + (p.end_ms - p.start_ms)
            * weight_before(groups, k) / total - clip_start,
    decreases k,
{
    let d = p.end_ms - p.start_ms;
    lemma_weight_before_mono(groups, k, groups.len() as int);
    lemma_scaled_share(d, weight_before(groups, k), weight_before(groups, k), total);
    if k > 0 {
        lemma_phrase_cues_in_order(p, groups, total, clip_start, k - 1);
        lemma_weight_before_mono(groups, k - 1, k);
        lemma_scaled_share(d, weight_before(groups, k - 1), weight_before(groups, k), total);
        let init = phrase_cues(p, groups, total, clip_start, k - 1);
        let s = p.start_ms + d * weight_before(groups, k - 1) / total - clip_start;
        let e = p.start_ms + d * weight_before(groups, k) / total - clip_start;
        if e > s {
            let cue = CaptionCueView { start_ms: s as i64, end_ms: e as i64, text: crate::text::join(groups[k - 1], seq![' ']) };
            assert(cue.start_ms == s && cue.end_ms == e);
            let r = init.push(cue);
            assert(phrase_cues(p, groups, total, clip_start, k) == r);
            assert forall|a: int, b: int| 0 <= a < b < r.len() implies (#[trigger] r[a]).end_ms <= (#[trigger] r[b]).start_ms by {
                assert(r[a] == init[a]);
                if b < init.len() {
                    assert(r[b] == init[b]);
                }
            }
            assert forall|a: int| 0 <= a < r.len() implies (#[trigger] r[a]).start_ms < r[a].end_ms by {
                if a < init.len() {
                    assert(r[a] == init[a]);
                }
            }
            assert forall|a: int| 0 <= a < r.len() implies p.start_ms - clip_start <= (#[trigger] r[a]).start_ms
                && r[a].end_ms <= e by {
                if a < init.len() {
                    assert(r[a] == init[a]);
                }
            }
        }
    }
}

proof fn lemma_phrase_captions_in_order(p: Phrase, clip_start: int)
    requires
        p.start_ms < p.end_ms,
        clip_start <= p.start_ms,
        p.end_ms - clip_start <= i64::MAX,
    ensures
        cues_in_order(phrase_captions(p, clip_start)),
        forall|i: int| 0 <= i < phrase_captions(p, clip_start).len() ==> p.start_ms - clip_start
            <= (#[trigger] phrase_captions(p, clip_start)[i]).start_ms && phrase_captions(p, clip_start)[i].end_ms
            <= p.end_ms - clip_start,
{
    let groups = group_words(p.words);
    let n = groups.len() as int;
    let sum = weight_before(groups, n);
    let total = if sum >= 1 { sum } else { 1 };
    lemma_weight_before_mono(groups, 0, n);
    lemma_phrase_cues_in_order(p, groups, total, clip_start, n);
    lemma_scaled_share(p.end_ms - p.start_ms, sum, sum, total);
    if sum >= 1 {
        vstd::arithmetic::div_mod::lemma_div_by_multiple(p.end_ms - p.start_ms, total);
    }
}

proof fn lemma_phrases_captions_in_order(s: Seq<Phrase>, clip_start: int, bound: int)
    requires
        timed_disjoint(s),
        forall|i: int| 0 <= i < s.len() ==> clip_start <= (#[trigger] s[i]).start_ms,
        forall|i: int| 0 <= i < s.len() && is_timed(#[trigger] s[i]) ==> s[i].end_ms <= bound,
        bound - clip_start <= i64::MAX,
    ensures
        cues_in_order(phrases_captions(s, clip_start)),
        forall|i: int| 0 <= i < phrases_captions(s, clip_start).len() ==> 0
            <= (#[trigger] phrases_captions(s, clip_start)[i]).start_ms && phrases_captions(s, clip_start)[i].end_ms
            <= bound - clip_start,
    decreases s.len(),
{
    if s.len() > 0 {
        let init = s.drop_last();
        let last = s.last();
        let out = phrases_captions(s, clip_start);
        assert forall|a: int, b: int|
            0 <= a < b < init.len() && is_timed(#[trigger] init[a]) && is_timed(#[trigger] init[b]) implies init[a].end_ms
            <= init[b].start_ms by {
            assert(init[a] == s[a] && init[b] == s[b]);
        }
        if is_timed(last) {
            assert forall|i: int| 0 <= i < init.len() && is_timed(#[trigger] init[i]) implies init[i].end_ms
                <= last.start_ms by {
                assert(init[i] == s[i]);
                assert(is_timed(s[i]) && is_timed(s[s.len() - 1]));
            }
            lemma_phrases_captions_in_order(init, clip_start, last.start_ms);
            lemma_phrase_captions_in_order(last, clip_start);
            let x = phrases_captions(init, clip_start);
            let y = phrase_captions(last, clip_start);
            assert(out == x + y);
            assert forall|a: int, b: int| 0 <= a < b < out.len() implies (#[trigger] out[a]).end_ms
                <= (#[trigger] out[b]).start_ms by {
                if b < x.len() {
                    assert(out[a] == x[a] && out[b] == x[b]);
                } else if a < x.len() {
                    assert(out[a] == x[a] && out[b] == y[b - x.len()]);
                } else {
                    assert(out[a] == y[a - x.len()] && out[b] == y[b - x.len()]);
                }
            }
            assert forall|a: int| 0 <= a < out.len() implies 0 <= (#[trigger] out[a]).start_ms < out[a].end_ms
                <= bound - clip_start by {
                if a < x.len() {
                    assert(out[a] == x[a]);
                } else {
                    assert(out[a] == y[a - x.len()]);
                }
            }
        } else {
            assert forall|i: int| 0 <= i < init.len() && is_timed(#[trigger] init[i]) implies init[i].end_ms <= bound by {
                assert(init[i] == s[i]);
            }
            lemma_phrases_captions_in_order(init, clip_start, bound);
        }
    }
}

/// Captions never overlap: every cue starts before it ends and inside the clip, and each cue
/// ends no later than the next one starts, so no two are ever on screen together.
pub proof fn law_captions_never_overlap(t: Seq<crate::domain::TranscriptSegmentView>, clip_start: i64, clip_end: i64)
    requires
        clip_end - clip_start <= i64::MAX,
    ensures
        cues_in_order(spec_caption_cues(t, clip_start, clip_end)),
        forall|i: int| 0 <= i < spec_caption_cues(t, clip_start, clip_end).len() ==> 0
            <= (#[trigger] spec_caption_cues(t, clip_start, clip_end)[i]).start_ms
            && spec_caption_cues(t, clip_start, clip_end)[i].end_ms <= clip_end - clip_start,
{
    let lo = clip_start as int;
    let hi = clip_end as int;
    let a = clip_phrases(t, clip_start, clip_end);
    lemma_clip_phrases_within(t, clip_start, clip_end);
    lemma_sort_phrases_within(a, lo, hi);
    let b = sort_phrases(a);
    lemma_clean_phrases_within(b, lo, hi);
    let c = clean_phrases(b);
    lemma_split_overlaps_disjoint(c, lo, hi);
    let d = split_overlaps(c);
    lemma_phrases_captions_in_order(d, lo, hi);
}

} // verus!
