//! The vocabulary a session adds to its channel's profile: the words its transcript uses most.
//!
//! A word counts when, stripped to its letters, digits and apostrophes and lowercased, it is
//! at least four UTF-8 bytes long. The vocabulary holds the twenty most frequent such words,
//! the more frequent first and, among equally frequent ones, in string order.
use vstd::prelude::*;
use crate::domain::{segment_views, TranscriptSegment, TranscriptSegmentView};
use crate::timeline::lower_all;
use crate::text::{
    chars_eq, chars_of, extend_chars, is_alphanumeric, lowercase, spec_is_alphanumeric,
    split_whitespace, string_of, utf8_len, utf8_width, views, words,
};

verus! {

/// How many words a vocabulary keeps.
pub const VOCABULARY_SIZE: usize = 20;

/// The letters, digits and apostrophes of `s`, in order.
pub open spec fn word_chars(s: Seq<char>) -> Seq<char>
    decreases s.len(),
{
    if s.len() == 0 {
        Seq::empty()
    } else {
        let init = word_chars(s.drop_last());
        if spec_is_alphanumeric(s.last()) || s.last() == '\'' {
            init.push(s.last())
        } else {
            init
        }
    }
}

/// A whitespace-separated word as the vocabulary counts it: its letters, digits and
/// apostrophes, lowercased.
pub open spec fn vocabulary_form(w: Seq<char>) -> Seq<char> {
    lower_all(word_chars(w))
}

/// The counted words among `ws`, in order: their vocabulary forms that are at least four
/// UTF-8 bytes long.
pub open spec fn counted_words(ws: Seq<Seq<char>>) -> Seq<Seq<char>>
    decreases ws.len(),
{
    if ws.len() == 0 {
        Seq::empty()
    } else {
        let init = counted_words(ws.drop_last());
        let w = vocabulary_form(ws.last());
        if utf8_len(w) >= 4 {
            init.push(w)
        } else {
            init
        }
    }
}

/// The counted words of a session's transcript texts, text by text.
pub open spec fn session_words(texts: Seq<Seq<char>>) -> Seq<Seq<char>>
    decreases texts.len(),
{
    if texts.len() == 0 {
        Seq::empty()
    } else {
        session_words(texts.drop_last()) + counted_words(words(texts.last()))
    }
}

/// The texts of a sequence of transcript segments.
pub open spec fn segment_texts(s: Seq<TranscriptSegmentView>) -> Seq<Seq<char>> {
    Seq::new(s.len(), |i: int| s[i].text)
}

/// How often `w` occurs in `ws`.
pub open spec fn occurrences(ws: Seq<Seq<char>>, w: Seq<char>) -> nat
    decreases ws.len(),
{
    if ws.len() == 0 {
        0
    } else {
        occurrences(ws.drop_last(), w) + if ws.last() == w { 1nat } else { 0nat }
    }
}

/// String order: `a` is a proper prefix of `b`, or at the first difference `a` has the
/// smaller character.
pub open spec fn lex_less(a: Seq<char>, b: Seq<char>) -> bool
    decreases a.len(),
{
    if a.len() == 0 {
        b.len() > 0
    } else if b.len() == 0 {
        false
    } else if a[0] != b[0] {
        (a[0] as u32) < (b[0] as u32)
    } else {
        lex_less(a.drop_first(), b.drop_first())
    }
}

/// Whether `a` comes before `b` in the vocabulary of `ws`: it is more frequent, or as
/// frequent and earlier in string order.
pub open spec fn ranks_before(ws: Seq<Seq<char>>, a: Seq<char>, b: Seq<char>) -> bool {
    occurrences(ws, a) > occurrences(ws, b) || (occurrences(ws, a) == occurrences(ws, b)
        && lex_less(a, b))
}

/// Whether `out` is the vocabulary of the counted words `ws`: at most twenty of them, best
/// ranked first, and every counted word left out ranks after all that were kept (so fewer
/// than twenty are kept only when every counted word is).
pub open spec fn is_vocabulary(ws: Seq<Seq<char>>, out: Seq<Seq<char>>) -> bool {
    &&& out.len() <= VOCABULARY_SIZE
    &&& forall|i: int| 0 <= i < out.len() ==> ws.contains(#[trigger] out[i])
    &&& forall|i: int, j: int| 0 <= i < j < out.len() ==> ranks_before(ws, #[trigger] out[i], #[trigger] out[j])
    &&& forall|w: Seq<char>| ws.contains(w) && !out.contains(w) ==> out.len() == VOCABULARY_SIZE
        && forall|i: int| 0 <= i < out.len() ==> ranks_before(ws, #[trigger] out[i], w)
}

proof fn lemma_lex_irreflexive(a: Seq<char>)
    ensures
        !lex_less(a, a),
    decreases a.len(),
{
    if a.len() > 0 {
        lemma_lex_irreflexive(a.drop_first());
    }
}

proof fn lemma_lex_total(a: Seq<char>, b: Seq<char>)
    ensures
        a == b || lex_less(a, b) || lex_less(b, a),
    decreases a.len(),
{
    if a.len() > 0 && b.len() > 0 {
        if a[0] == b[0] {
            lemma_lex_total(a.drop_first(), b.drop_first());
            if a.drop_first() == b.drop_first() {
                assert(a =~= seq![a[0]] + a.drop_first());
                assert(b =~= seq![b[0]] + b.drop_first());
            }
        } else {
            vstd::utf8::char_u32_cast(a[0], a[0] as u32);
            vstd::utf8::char_u32_cast(b[0], b[0] as u32);
        }
    } else if a.len() == 0 && b.len() == 0 {
        assert(a =~= b);
    }
}

proof fn lemma_lex_transitive(a: Seq<char>, b: Seq<char>, c: Seq<char>)
    requires
        lex_less(a, b),
        lex_less(b, c),
    ensures
        lex_less(a, c),
    decreases a.len(),
{
    if a.len() > 0 && b.len() > 0 && c.len() > 0 {
        if a[0] == b[0] && b[0] == c[0] {
            lemma_lex_transitive(a.drop_first(), b.drop_first(), c.drop_first());
        }
    }
}

/// Being ranked before is a strict order, total on distinct words.
proof fn lemma_ranks(ws: Seq<Seq<char>>, a: Seq<char>, b: Seq<char>, c: Seq<char>)
    ensures
        !ranks_before(ws, a, a),
        a != b ==> ranks_before(ws, a, b) || ranks_before(ws, b, a),
        ranks_before(ws, a, b) && ranks_before(ws, b, c) ==> ranks_before(ws, a, c),
{
    lemma_lex_irreflexive(a);
    lemma_lex_total(a, b);
    if ranks_before(ws, a, b) && ranks_before(ws, b, c) && occurrences(ws, a) == occurrences(ws, c) {
        lemma_lex_transitive(a, b, c);
    }
}

/// Compares two character sequences in string order.
fn lex_less_exec(a: &[char], b: &[char]) -> (r: bool)
    ensures
        r == lex_less(a@, b@),
{
    let mut k: usize = 0;
    assert(a@.subrange(0, a@.len() as int) =~= a@);
    assert(b@.subrange(0, b@.len() as int) =~= b@);
    while k < a.len() && k < b.len()
        invariant
            k <= a@.len(),
            k <= b@.len(),
            lex_less(a@, b@) == lex_less(a@.subrange(k as int, a@.len() as int), b@.subrange(k as int, b@.len() as int)),
        decreases a@.len() - k,
    {
        let ghost sa = a@.subrange(k as int, a@.len() as int);
        let ghost sb = b@.subrange(k as int, b@.len() as int);
        assert(sa[0] == a@[k as int]);
        assert(sb[0] == b@[k as int]);
        if a[k] != b[k] {
            return (a[k] as u32) < (b[k] as u32);
        }
        assert(sa.drop_first() =~= a@.subrange(k + 1, a@.len() as int));
        assert(sb.drop_first() =~= b@.subrange(k + 1, b@.len() as int));
        k = k + 1;
    }
    let ghost sa = a@.subrange(k as int, a@.len() as int);
    let ghost sb = b@.subrange(k as int, b@.len() as int);
    k == a.len() && k < b.len()
}

proof fn lemma_occurrences_push(ws: Seq<Seq<char>>, x: Seq<char>, w: Seq<char>)
    ensures
        occurrences(ws.push(x), w) == occurrences(ws, w) + if x == w { 1nat } else { 0nat },
{
    assert(ws.push(x).drop_last() =~= ws);
}

proof fn lemma_occurrences_bound(ws: Seq<Seq<char>>, w: Seq<char>)
    ensures
        occurrences(ws, w) <= ws.len(),
        occurrences(ws, w) > 0 <==> ws.contains(w),
    decreases ws.len(),
{
    if ws.len() > 0 {
        lemma_occurrences_bound(ws.drop_last(), w);
        if ws.drop_last().contains(w) {
            let k = choose|k: int| 0 <= k < ws.drop_last().len() && ws.drop_last()[k] == w;
            assert(ws[k] == w);
        }
        if ws.contains(w) && ws.last() != w {
            let k = choose|k: int| 0 <= k < ws.len() && ws[k] == w;
            assert(k < ws.len() - 1);
            assert(ws.drop_last()[k] == w);
        }
        if ws.last() == w {
            assert(ws[ws.len() - 1] == w);
        }
    }
}

/// The distinct counted words seen so far (`keys`) and how often each occurred (`counts`).
spec fn tally(keys: Seq<Seq<char>>, counts: Seq<u128>, seen: Seq<Seq<char>>) -> bool {
    &&& keys.len() == counts.len()
    &&& forall|i: int, j: int| 0 <= i < j < keys.len() ==> #[trigger] keys[i] != #[trigger] keys[j]
    &&& forall|k: int| 0 <= k < keys.len() ==> counts[k] == occurrences(seen, #[trigger] keys[k])
    &&& forall|k: int| 0 <= k < keys.len() ==> occurrences(seen, #[trigger] keys[k]) > 0
    &&& forall|w: Seq<char>| occurrences(seen, w) > 0 ==> keys.contains(w)
}

/// Counts one more occurrence of `w`.
fn count_word(keys: &mut Vec<Vec<char>>, counts: &mut Vec<u128>, w: Vec<char>, Ghost(seen): Ghost<Seq<Seq<char>>>)
    requires
        tally(views(old(keys)@), old(counts)@, seen),
        seen.len() < u128::MAX,
    ensures
        tally(views(final(keys)@), final(counts)@, seen.push(w@)),
{
    let ghost after = seen.push(w@);
    let mut k: usize = 0;
    while k < keys.len()
        invariant
            k <= keys@.len(),
            tally(views(keys@), counts@, seen),
            forall|m: int| 0 <= m < k ==> keys@[m]@ != w@,
            seen.len() < u128::MAX,
            after == seen.push(w@),
        decreases keys@.len() - k,
    {
        let same = chars_eq(keys[k].as_slice(), w.as_slice());
        if same {
            let ghost old_counts = counts@;
            let c = counts[k];
            proof {
                assert(views(keys@)[k as int] == keys@[k as int]@);
                assert(views(keys@)[k as int] == w@);
                lemma_occurrences_bound(seen, w@);
            }
            counts.set(k, c + 1);
            proof {
                let kv = views(keys@);
                assert(kv[k as int] == w@);
                assert forall|m: int| 0 <= m < kv.len() implies counts@[m] == occurrences(after, #[trigger] kv[m]) by {
                    lemma_occurrences_push(seen, w@, kv[m]);
                    assert(old_counts[m] == occurrences(seen, kv[m]));
                    if m != k {
                        assert(kv[m] != kv[k as int]);
                        assert(counts@[m] == old_counts[m]);
                    } else {
                        assert(counts@[m] == c + 1);
                    }
                }
                assert forall|m: int| 0 <= m < kv.len() implies occurrences(after, #[trigger] kv[m]) > 0 by {
                    lemma_occurrences_push(seen, w@, kv[m]);
                }
                assert forall|x: Seq<char>| occurrences(after, x) > 0 implies kv.contains(x) by {
                    lemma_occurrences_push(seen, w@, x);
                    if x != w@ {
                        assert(occurrences(seen, x) > 0);
                    } else {
                        assert(kv[k as int] == x);
                    }
                }
            }
            return;
        }
        k = k + 1;
    }
    let ghost before = views(keys@);
    let ghost wv = w@;
    keys.push(w);
    counts.push(1);
    proof {
        let kv = views(keys@);
        assert(kv =~= before.push(wv));
        assert forall|i: int, j: int| 0 <= i < j < kv.len() implies #[trigger] kv[i] != #[trigger] kv[j] by {
            if j == kv.len() - 1 {
                assert(keys@[i]@ != wv);
            }
        }
        lemma_occurrences_bound(seen, wv);
        assert(occurrences(seen, wv) == 0) by {
            if occurrences(seen, wv) > 0 {
                assert(before.contains(wv));
                let m = choose|m: int| 0 <= m < before.len() && before[m] == wv;
                assert(keys@[m]@ == wv);
            }
        }
        assert forall|m: int| 0 <= m < kv.len() implies counts@[m] == occurrences(after, #[trigger] kv[m]) by {
            lemma_occurrences_push(seen, wv, kv[m]);
            if m < kv.len() - 1 {
                assert(kv[m] == before[m]);
                assert(kv[m] != wv);
            }
        }
        assert forall|m: int| 0 <= m < kv.len() implies occurrences(after, #[trigger] kv[m]) > 0 by {
            lemma_occurrences_push(seen, wv, kv[m]);
            if m < kv.len() - 1 {
                assert(kv[m] == before[m]);
            }
        }
        assert forall|x: Seq<char>| occurrences(after, x) > 0 implies kv.contains(x) by {
            lemma_occurrences_push(seen, wv, x);
            if x != wv {
                assert(before.contains(x));
                let m = choose|m: int| 0 <= m < before.len() && before[m] == x;
                assert(kv[m] == x);
            } else {
                assert(kv[kv.len() - 1] == x);
            }
        }
    }
}

proof fn lemma_utf8_len_prefix(s: Seq<char>, i: int)
    requires
        0 <= i <= s.len(),
    ensures
        utf8_len(s.subrange(0, i)) <= utf8_len(s),
    decreases s.len() - i,
{
    if i < s.len() {
        lemma_utf8_len_prefix(s, i + 1);
        assert(s.subrange(0, i + 1).drop_last() =~= s.subrange(0, i));
    } else {
        assert(s.subrange(0, i) =~= s);
    }
}

/// Whether `s` takes at least four bytes in UTF-8.
fn at_least_four_bytes(s: &[char]) -> (b: bool)
    ensures
        b == (utf8_len(s@) >= 4),
{
    let mut n: usize = 0;
    let mut i: usize = 0;
    while i < s.len() && n < 4
        invariant
            i <= s@.len(),
            n == utf8_len(s@.subrange(0, i as int)),
            n < 8,
        decreases s@.len() - i,
    {
        assert(s@.subrange(0, i + 1).drop_last() =~= s@.subrange(0, i as int));
        let code = s[i] as u32;
        let w: usize = if code < 0x80 { 1 } else if code < 0x800 { 2 } else if code < 0x10000 { 3 } else { 4 };
        n = n + w;
        i = i + 1;
    }
    proof {
        lemma_utf8_len_prefix(s@, i as int);
        if n < 4 {
            assert(s@.subrange(0, i as int) =~= s@);
        }
    }
    n >= 4
}

/// The vocabulary form of a word: its letters, digits and apostrophes, lowercased.
fn vocabulary_form_exec(w: &[char]) -> (out: Vec<char>)
    ensures
        out@ == vocabulary_form(w@),
{
    let mut kept: Vec<char> = Vec::new();
    let mut i: usize = 0;
    while i < w.len()
        invariant
            i <= w@.len(),
            kept@ == word_chars(w@.subrange(0, i as int)),
        decreases w@.len() - i,
    {
        assert(w@.subrange(0, i + 1).drop_last() =~= w@.subrange(0, i as int));
        let c = w[i];
        if is_alphanumeric(c) || c == '\'' {
            kept.push(c);
        }
        i = i + 1;
    }
    assert(w@.subrange(0, w@.len() as int) =~= w@);
    let mut lowered: Vec<char> = Vec::new();
    let mut j: usize = 0;
    while j < kept.len()
        invariant
            j <= kept@.len(),
            lowered@ == lower_all(kept@.subrange(0, j as int)),
        decreases kept@.len() - j,
    {
        assert(kept@.subrange(0, j + 1).drop_last() =~= kept@.subrange(0, j as int));
        let l = lowercase(kept[j]);
        extend_chars(&mut lowered, &l);
        j = j + 1;
    }
    assert(kept@.subrange(0, kept@.len() as int) =~= kept@);
    lowered
}

/// The character sequences held by a sequence of strings.
pub open spec fn string_views(v: Seq<String>) -> Seq<Seq<char>> {
    Seq::new(v.len(), |i: int| v[i]@)
}

/// Every distinct counted word of the session, with how often it occurs.
fn tally_session(transcripts: &[TranscriptSegment]) -> (r: (Vec<Vec<char>>, Vec<u128>))
    ensures
        tally(views(r.0@), r.1@, session_words(segment_texts(segment_views(transcripts@)))),
{
    let ghost texts = segment_texts(segment_views(transcripts@));
    let ghost big: nat = usize::MAX as nat;
    let mut keys: Vec<Vec<char>> = Vec::new();
    let mut counts: Vec<u128> = Vec::new();
    let ghost mut seen: Seq<Seq<char>> = Seq::empty();
    let mut i: usize = 0;
    proof {
        assert(texts.subrange(0, 0) =~= Seq::<Seq<char>>::empty());
        assert forall|w: Seq<char>| occurrences(seen, w) > 0 implies views(keys@).contains(w) by {}
    }
    while i < transcripts.len()
        invariant
            i <= transcripts@.len(),
            texts == segment_texts(segment_views(transcripts@)),
            big == usize::MAX as nat,
            seen == session_words(texts.subrange(0, i as int)),
            tally(views(keys@), counts@, seen),
            seen.len() <= i * big,
        decreases transcripts@.len() - i,
    {
        let chars = chars_of(transcripts[i].text.as_str());
        let ws = split_whitespace(&chars);
        let ghost base = seen;
        let n = transcripts.len();
        let ghost text_i = texts[i as int];
        assert(text_i == chars@);
        let mut j: usize = 0;
        proof {
            assert(views(ws@).subrange(0, 0) =~= Seq::<Seq<char>>::empty());
            assert(seen =~= base + counted_words(views(ws@).subrange(0, 0)));
        }
        while j < ws.len()
            invariant
                i < n,
                j <= ws@.len(),
                big == usize::MAX as nat,
                base.len() <= i * big,
                seen == base + counted_words(views(ws@).subrange(0, j as int)),
                tally(views(keys@), counts@, seen),
                seen.len() <= i * big + j,
            decreases ws@.len() - j,
        {
            let w = vocabulary_form_exec(&ws[j]);
            let ghost sub = views(ws@).subrange(0, j + 1);
            proof {
                assert(sub.drop_last() =~= views(ws@).subrange(0, j as int));
                assert(sub.last() == ws@[j as int]@);
            }
            if at_least_four_bytes(&w) {
                proof {
                    assert(i * big + j < u128::MAX) by (nonlinear_arith)
                        requires
                            i < big,
                            j < big,
                            big == usize::MAX as nat,
                            usize::MAX <= u64::MAX;
                }
                let ghost wv = w@;
                count_word(&mut keys, &mut counts, w, Ghost(seen));
                proof {
                    assert(base + counted_words(sub) =~= (base + counted_words(views(ws@).subrange(0, j as int))).push(wv));
                    seen = seen.push(wv);
                }
            } else {
                proof {
                    assert(counted_words(sub) == counted_words(views(ws@).subrange(0, j as int)));
                }
            }
            j = j + 1;
        }
        proof {
            assert(views(ws@).subrange(0, ws@.len() as int) =~= views(ws@));
            assert(views(ws@) == words(text_i));
            let next = texts.subrange(0, i + 1);
            assert(next.drop_last() =~= texts.subrange(0, i as int));
            assert(next.last() == text_i);
            assert(seen.len() <= (i + 1) * big) by (nonlinear_arith)
                requires
                    seen.len() <= i * big + ws@.len(),
                    ws@.len() <= big;
        }
        i = i + 1;
    }
    proof {
        assert(texts.subrange(0, transcripts@.len() as int) =~= texts);
    }
    (keys, counts)
}

/// The untaken entry that ranks first, or `keys.len()` when every entry is taken.
fn best_untaken(keys: &Vec<Vec<char>>, counts: &Vec<u128>, taken: &Vec<bool>, Ghost(seen): Ghost<Seq<Seq<char>>>) -> (best: usize)
    requires
        tally(views(keys@), counts@, seen),
        taken@.len() == keys@.len(),
    ensures
        best <= keys@.len(),
        best == keys@.len() ==> forall|k: int| 0 <= k < keys@.len() ==> #[trigger] taken@[k],
        best < keys@.len() ==> !taken@[best as int] && forall|k: int| 0 <= k < keys@.len() && !taken@[k] && k != best
            ==> ranks_before(seen, keys@[best as int]@, #[trigger] keys@[k]@),
{
    let ghost kv = views(keys@);
    let mut best: usize = keys.len();
    let mut m: usize = 0;
    while m < keys.len()
        invariant
            m <= keys@.len(),
            kv == views(keys@),
            tally(kv, counts@, seen),
            taken@.len() == keys@.len(),
            best == keys@.len() || best < m,
            best == keys@.len() ==> forall|k: int| 0 <= k < m ==> #[trigger] taken@[k],
            best < keys@.len() ==> !taken@[best as int] && forall|k: int| 0 <= k < m && !taken@[k] && k != best
                ==> ranks_before(seen, keys@[best as int]@, #[trigger] keys@[k]@),
        decreases keys@.len() - m,
    {
        if !taken[m] {
            let better = best == keys.len() || counts[m] > counts[best] || (counts[m] == counts[best]
                && lex_less_exec(keys[m].as_slice(), keys[best].as_slice()));
            proof {
                assert(kv[m as int] == keys@[m as int]@);
                if best < keys@.len() {
                    assert(kv[best as int] == keys@[best as int]@);
                    assert(counts@[m as int] == occurrences(seen, kv[m as int]));
                    assert(counts@[best as int] == occurrences(seen, kv[best as int]));
                    assert(kv[m as int] != kv[best as int]);
                    lemma_ranks(seen, kv[m as int], kv[best as int], kv[best as int]);
                }
            }
            if better {
                proof {
                    if best < keys@.len() {
                        assert forall|k: int| 0 <= k < m + 1 && !taken@[k] && k != m
                            implies ranks_before(seen, keys@[m as int]@, #[trigger] keys@[k]@) by {
                            if k != best {
                                lemma_ranks(seen, kv[m as int], kv[best as int], keys@[k]@);
                            }
                        }
                    }
                }
                best = m;
            }
        }
        m = m + 1;
    }
    best
}

/// The twenty most frequent counted words of a session's transcript, the more frequent first
/// and equally frequent ones in string order.
pub fn session_vocabulary(transcripts: &[TranscriptSegment]) -> (out: Vec<String>)
    ensures
        is_vocabulary(session_words(segment_texts(segment_views(transcripts@))), string_views(out@)),
{
    let ghost ws = session_words(segment_texts(segment_views(transcripts@)));
    let (keys, counts) = tally_session(transcripts);
    let ghost kv = views(keys@);
    let mut taken: Vec<bool> = Vec::new();
    while taken.len() < keys.len()
        invariant
            taken@.len() <= keys@.len(),
            forall|k: int| 0 <= k < taken@.len() ==> !#[trigger] taken@[k],
        decreases keys@.len() - taken@.len(),
    {
        taken.push(false);
    }
    let mut out: Vec<String> = Vec::new();
    let mut done = false;
    while !done && out.len() < VOCABULARY_SIZE
        invariant
            kv == views(keys@),
            tally(kv, counts@, ws),
            taken@.len() == keys@.len(),
            out@.len() <= VOCABULARY_SIZE,
            done ==> forall|k: int| 0 <= k < keys@.len() ==> #[trigger] taken@[k],
            forall|i: int| 0 <= i < out@.len() ==> kv.contains(#[trigger] string_views(out@)[i]),
            forall|k: int| 0 <= k < keys@.len() && #[trigger] taken@[k] ==> string_views(out@).contains(kv[k]),
            forall|i: int, j: int| 0 <= i < j < out@.len() ==> ranks_before(ws, #[trigger] string_views(out@)[i], #[trigger] string_views(out@)[j]),
            forall|k: int, i: int| 0 <= k < keys@.len() && !#[trigger] taken@[k] && 0 <= i < out@.len()
                ==> ranks_before(ws, #[trigger] string_views(out@)[i], kv[k]),
        decreases VOCABULARY_SIZE - out@.len(), if done { 0int } else { 1int },
    {
        let best = best_untaken(&keys, &counts, &taken, Ghost(ws));
        if best == keys.len() {
            done = true;
        } else {
            let ghost before = string_views(out@);
            let word = string_of(keys[best].as_slice());
            taken.set(best, true);
            out.push(word);
            proof {
                let after = string_views(out@);
                assert(kv[best as int] == keys@[best as int]@);
                assert(after =~= before.push(kv[best as int]));
                assert forall|i: int| 0 <= i < out@.len() implies kv.contains(#[trigger] after[i]) by {
                    if i == out@.len() - 1 {
                        assert(kv[best as int] == after[i]);
                    } else {
                        assert(after[i] == before[i]);
                    }
                }
                assert forall|k: int| 0 <= k < keys@.len() && #[trigger] taken@[k] implies after.contains(kv[k]) by {
                    if k == best {
                        assert(after[after.len() - 1] == kv[k]);
                    } else {
                        assert(before.contains(kv[k]));
                        let i = choose|i: int| 0 <= i < before.len() && before[i] == kv[k];
                        assert(after[i] == kv[k]);
                    }
                }
                assert forall|i: int, j: int| 0 <= i < j < out@.len() implies ranks_before(ws, #[trigger] after[i], #[trigger] after[j]) by {
                    assert(after[i] == before[i]);
                    if j < out@.len() - 1 {
                        assert(after[j] == before[j]);
                    }
                }
                assert forall|k: int, i: int| 0 <= k < keys@.len() && !#[trigger] taken@[k] && 0 <= i < out@.len()
                    implies ranks_before(ws, #[trigger] after[i], kv[k]) by {
                    assert(k != best);
                    if i < out@.len() - 1 {
                        assert(after[i] == before[i]);
                    } else {
                        assert(kv[k] == keys@[k]@);
                    }
                }
            }
        }
    }
    proof {
        let o = string_views(out@);
        assert forall|i: int| 0 <= i < o.len() implies ws.contains(#[trigger] o[i]) by {
            assert(kv.contains(o[i]));
            let k = choose|k: int| 0 <= k < kv.len() && kv[k] == o[i];
            lemma_occurrences_bound(ws, kv[k]);
        }
        assert forall|w: Seq<char>| ws.contains(w) && !o.contains(w) implies o.len() == VOCABULARY_SIZE
            && forall|i: int| 0 <= i < o.len() ==> ranks_before(ws, #[trigger] o[i], w) by {
            lemma_occurrences_bound(ws, w);
            assert(kv.contains(w));
            let k = choose|k: int| 0 <= k < kv.len() && kv[k] == w;
            assert(!taken@[k]);
            assert forall|i: int| 0 <= i < o.len() implies ranks_before(ws, #[trigger] o[i], w) by {
                assert(ranks_before(ws, o[i], kv[k]));
            }
        }
    }
    out
}

/// The vocabulary holds the most frequent words: a counted word more frequent than some kept
/// word is kept too.
pub proof fn law_more_frequent_words_are_kept(ws: Seq<Seq<char>>, out: Seq<Seq<char>>, w: Seq<char>, i: int)
    requires
        is_vocabulary(ws, out),
        0 <= i < out.len(),
        ws.contains(w),
        occurrences(ws, w) > occurrences(ws, out[i]),
    ensures
        out.contains(w),
{
    if !out.contains(w) {
        assert(ranks_before(ws, out[i], w));
    }
}

} // verus!
