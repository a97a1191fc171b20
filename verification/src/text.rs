//! Verified text building blocks: decimal formatting, padding, whitespace splitting and
//! character classes.
use vstd::prelude::*;

verus! {

// ---------------------------------------------------------------------------------------------
// Character classes (Unicode): whitespace stated here, the others through `char`'s own methods.
// ---------------------------------------------------------------------------------------------
/// Unicode `White_Space`, the property `char::is_whitespace` tests: tab to carriage return,
/// space, next line, no-break space, ogham space mark, en quad to hair space, line and paragraph
/// separators, narrow no-break space, medium mathematical space and ideographic space.
pub open spec fn spec_is_whitespace(c: char) -> bool {
    ||| ('\u{9}' <= c && c <= '\u{d}')
    ||| c == ' '
    ||| c == '\u{85}'
    ||| c == '\u{a0}'
    ||| c == '\u{1680}'
    ||| ('\u{2000}' <= c && c <= '\u{200a}')
    ||| c == '\u{2028}'
    ||| c == '\u{2029}'
    ||| c == '\u{202f}'
    ||| c == '\u{205f}'
    ||| c == '\u{3000}'
}

/// Unicode alphabetic-or-numeric, as `char::is_alphanumeric` decides it.
pub uninterp spec fn spec_is_alphanumeric(c: char) -> bool;

/// The characters that `char::to_lowercase` yields for `c`.
pub uninterp spec fn spec_lowercase(c: char) -> Seq<char>;

/// Whether `c` is Unicode `White_Space`, as `char::is_whitespace` answers.
pub fn is_whitespace(c: char) -> (b: bool)
    ensures
        b == spec_is_whitespace(c),
{
    ('\u{9}' <= c && c <= '\u{d}') || c == ' ' || c == '\u{85}' || c == '\u{a0}' || c == '\u{1680}' || (
    '\u{2000}' <= c && c <= '\u{200a}') || c == '\u{2028}' || c == '\u{2029}' || c == '\u{202f}' || c == '\u{205f}'
        || c == '\u{3000}'
}

/// Calls `char::is_alphanumeric`; the contract names its result.
#[verifier::external_body]
pub fn is_alphanumeric(c: char) -> (b: bool)
    ensures
        b == spec_is_alphanumeric(c),
{
    c.is_alphanumeric()
}

/// Calls `char::to_lowercase` and collects what the iterator yields; the contract names it.
#[verifier::external_body]
pub fn lowercase(c: char) -> (out: Vec<char>)
    ensures
        out@ == spec_lowercase(c),
{
    c.to_lowercase().collect()
}

/// Calls `String::push`: the string gains the character at its end.
#[verifier::external_body]
pub fn push_char(s: &mut String, c: char)
    ensures
        final(s)@ == old(s)@.push(c),
{
    s.push(c)
}

// ---------------------------------------------------------------------------------------------
// Conversions between strings and character vectors.
// ---------------------------------------------------------------------------------------------
/// The characters of a string slice, in order.
pub fn chars_of(s: &str) -> (out: Vec<char>)
    ensures
        out@ == s@,
{
    broadcast use vstd::string::axiom_spec_iter;
    let mut out: Vec<char> = Vec::new();
    for c in it: s.chars()
        invariant
            it.seq() == s@,
            out@ == it.seq().subrange(0, it.index() as int),
    {
        assert(it.seq().subrange(0, it.index() + 1) =~= it.seq().subrange(0, it.index() as int).push(c));
        out.push(c);
    }
    assert(s@.subrange(0, s@.len() as int) =~= s@);
    out
}

/// A string made of the given characters.
pub fn string_of(chars: &[char]) -> (out: String)
    ensures
        out@ == chars@,
{
    let mut out = String::new();
    let mut i: usize = 0;
    while i < chars.len()
        invariant
            i <= chars@.len(),
            out@ == chars@.subrange(0, i as int),
        decreases chars.len() - i,
    {
        push_char(&mut out, chars[i]);
        i = i + 1;
    }
    out
}

/// Appends all of `tail` to `out`.
pub fn extend_chars(out: &mut Vec<char>, tail: &[char])
    ensures
        final(out)@ == old(out)@ + tail@,
{
    let mut i: usize = 0;
    while i < tail.len()
        invariant
            i <= tail@.len(),
            out@ == old(out)@ + tail@.subrange(0, i as int),
        decreases tail.len() - i,
    {
        out.push(tail[i]);
        i = i + 1;
    }
}

/// Appends the characters of `tail` to `out`.
pub fn extend_str(out: &mut Vec<char>, tail: &str)
    ensures
        final(out)@ == old(out)@ + tail@,
{
    let t = chars_of(tail);
    extend_chars(out, &t);
}

/// Whether two strings hold the same characters.
pub fn str_eq(a: &str, b: &str) -> (eq: bool)
    ensures
        eq == (a@ == b@),
{
    let x = chars_of(a);
    let y = chars_of(b);
    chars_eq(&x, &y)
}

/// Whether two character sequences are equal.
pub fn chars_eq(a: &[char], b: &[char]) -> (eq: bool)
    ensures
        eq == (a@ == b@),
{
    if a.len() != b.len() {
        return false;
    }
    let mut i: usize = 0;
    while i < a.len()
        invariant
            a@.len() == b@.len(),
            i <= a@.len(),
            forall|j: int| 0 <= j < i ==> a@[j] == b@[j],
        decreases a.len() - i,
    {
        if a[i] != b[i] {
            return false;
        }
        i = i + 1;
    }
    assert(a@ =~= b@);
    true
}

/// Whether `s` contains the character `c`.
pub fn contains_char(s: &[char], c: char) -> (found: bool)
    ensures
        found == s@.contains(c),
{
    let mut i: usize = 0;
    while i < s.len()
        invariant
            i <= s@.len(),
            forall|j: int| 0 <= j < i ==> s@[j] != c,
        decreases s.len() - i,
    {
        if s[i] == c {
            assert(s@[i as int] == c);
            return true;
        }
        i = i + 1;
    }
    false
}

/// Whether `s` starts with `prefix`.
pub open spec fn spec_starts_with(s: Seq<char>, prefix: Seq<char>) -> bool {
    prefix.len() <= s.len() && s.subrange(0, prefix.len() as int) == prefix
}

/// Whether `s` starts with `prefix`.
pub fn starts_with(s: &[char], prefix: &[char]) -> (b: bool)
    ensures
        b == spec_starts_with(s@, prefix@),
{
    if prefix.len() > s.len() {
        return false;
    }
    let mut i: usize = 0;
    while i < prefix.len()
        invariant
            prefix@.len() <= s@.len(),
            i <= prefix@.len(),
            forall|j: int| 0 <= j < i ==> s@[j] == prefix@[j],
        decreases prefix.len() - i,
    {
        if s[i] != prefix[i] {
            assert(s@.subrange(0, prefix@.len() as int)[i as int] != prefix@[i as int]);
            return false;
        }
        i = i + 1;
    }
    assert(s@.subrange(0, prefix@.len() as int) =~= prefix@);
    true
}

/// Whether the string slice `s` starts with the string slice `prefix`.
pub fn str_starts_with(s: &str, prefix: &str) -> (b: bool)
    ensures
        b == spec_starts_with(s@, prefix@),
{
    let a = chars_of(s);
    let p = chars_of(prefix);
    starts_with(&a, &p)
}

// ---------------------------------------------------------------------------------------------
// Decimal formatting, as `format!("{}")` and `format!("{:0w}")` write integers.
// ---------------------------------------------------------------------------------------------
/// The decimal digit for `d < 10`.
pub open spec fn digit_char(d: nat) -> char {
    if d == 0 { '0' }
    else if d == 1 { '1' }
    else if d == 2 { '2' }
    else if d == 3 { '3' }
    else if d == 4 { '4' }
    else if d == 5 { '5' }
    else if d == 6 { '6' }
    else if d == 7 { '7' }
    else if d == 8 { '8' }
    else { '9' }
}

/// Decimal digits of `n` without leading zeros ("0" for zero).
pub open spec fn decimal(n: nat) -> Seq<char>
    decreases n,
{
    if n < 10 {
        seq![digit_char(n)]
    } else {
        decimal(n / 10).push(digit_char(n % 10))
    }
}

/// `s` preceded by enough zeros to be at least `width` characters long.
pub open spec fn pad_zeros(s: Seq<char>, width: nat) -> Seq<char> {
    if s.len() >= width {
        s
    } else {
        Seq::new((width - s.len()) as nat, |i: int| '0') + s
    }
}

/// An integer written as `format!("{:0width$}")` writes it: a minus sign for negatives,
/// zero-padded so that the whole text is at least `width` characters.
pub open spec fn int_padded(n: int, width: nat) -> Seq<char> {
    if n < 0 {
        seq!['-'] + pad_zeros(decimal((-n) as nat), if width >= 1 { (width - 1) as nat } else { 0 })
    } else {
        pad_zeros(decimal(n as nat), width)
    }
}

/// An integer written as `format!("{}")` writes it.
pub open spec fn int_text(n: int) -> Seq<char> {
    int_padded(n, 0)
}

pub fn digit(d: u64) -> (c: char)
    requires
        d < 10,
    ensures
        c == digit_char(d as nat),
{
    if d == 0 { '0' }
    else if d == 1 { '1' }
    else if d == 2 { '2' }
    else if d == 3 { '3' }
    else if d == 4 { '4' }
    else if d == 5 { '5' }
    else if d == 6 { '6' }
    else if d == 7 { '7' }
    else if d == 8 { '8' }
    else { '9' }
}

proof fn lemma_decimal_len_pos(n: nat)
    ensures
        decimal(n).len() >= 1,
    decreases n,
{
    if n >= 10 {
        lemma_decimal_len_pos(n / 10);
    }
}

/// Decimal digits of an unsigned integer.
pub fn decimal_u128(n: u128) -> (out: Vec<char>)
    ensures
        out@ == decimal(n as nat),
    decreases n,
{
    if n < 10 {
        let mut v = Vec::new();
        v.push(digit(n as u64));
        v
    } else {
        let mut v = decimal_u128(n / 10);
        v.push(digit((n % 10) as u64));
        v
    }
}

/// Writes `s` zero-padded to `width` characters.
pub fn pad_zeros_exec(s: Vec<char>, width: usize) -> (out: Vec<char>)
    ensures
        out@ == pad_zeros(s@, width as nat),
{
    if s.len() >= width {
        return s;
    }
    let missing = width - s.len();
    let mut out: Vec<char> = Vec::new();
    let mut i: usize = 0;
    while i < missing
        invariant
            i <= missing,
            out@ == Seq::new(i as nat, |j: int| '0'),
        decreases missing - i,
    {
        out.push('0');
        i = i + 1;
        assert(out@ =~= Seq::new(i as nat, |j: int| '0'));
    }
    extend_chars(&mut out, &s);
    out
}

/// An `i64` formatted with `format!("{:0width$}")`.
pub fn int_padded_i64(n: i64, width: usize) -> (out: Vec<char>)
    ensures
        out@ == int_padded(n as int, width as nat),
{
    if n < 0 {
        let magnitude: u128 = (0i128 - n as i128) as u128;
        let digits = decimal_u128(magnitude);
        let padded = pad_zeros_exec(digits, if width >= 1 { width - 1 } else { 0 });
        let mut out = Vec::new();
        out.push('-');
        extend_chars(&mut out, &padded);
        assert(out@ =~= seq!['-'] + padded@);
        out
    } else {
        let digits = decimal_u128(n as u128);
        pad_zeros_exec(digits, width)
    }
}

/// An `i64` formatted with `format!("{}")`.
pub fn int_text_i64(n: i64) -> (out: Vec<char>)
    ensures
        out@ == int_text(n as int),
{
    int_padded_i64(n, 0)
}

/// A `u64` formatted with `format!("{}")`.
pub fn int_text_u64(n: u64) -> (out: Vec<char>)
    ensures
        out@ == int_text(n as int),
{
    decimal_u128(n as u128)
}

// ---------------------------------------------------------------------------------------------
// Whitespace splitting and joining, as `split_whitespace` and `join(" ")` do them.
// ---------------------------------------------------------------------------------------------
/// The maximal runs of non-whitespace characters of `s`, in order.
pub open spec fn words(s: Seq<char>) -> Seq<Seq<char>>
    decreases s.len(),
{
    if s.len() == 0 {
        Seq::empty()
    } else {
        let init = words(s.drop_last());
        let c = s.last();
        if spec_is_whitespace(c) {
            init
        } else if s.len() >= 2 && !spec_is_whitespace(s[s.len() - 2]) {
            init.update(init.len() - 1, init.last().push(c))
        } else {
            init.push(seq![c])
        }
    }
}

/// The pieces joined with `sep` between neighbours.
pub open spec fn join(pieces: Seq<Seq<char>>, sep: Seq<char>) -> Seq<char>
    decreases pieces.len(),
{
    if pieces.len() == 0 {
        Seq::empty()
    } else if pieces.len() == 1 {
        pieces[0]
    } else {
        join(pieces.drop_last(), sep) + sep + pieces.last()
    }
}

/// `s` with its whitespace runs collapsed to single spaces and trimmed at both ends.
pub open spec fn collapse_whitespace(s: Seq<char>) -> Seq<char> {
    join(words(s), seq![' '])
}

/// Every word is non-empty and free of whitespace.
pub open spec fn well_formed_words(ws: Seq<Seq<char>>) -> bool {
    forall|i: int|
        0 <= i < ws.len() ==> (#[trigger] ws[i]).len() > 0 && forall|j: int|
            0 <= j < ws[i].len() ==> !spec_is_whitespace(ws[i][j])
}

proof fn lemma_words_last(s: Seq<char>)
    requires
        s.len() >= 1,
        !spec_is_whitespace(s.last()),
    ensures
        words(s).len() >= 1,
        words(s).last().len() >= 1,
        words(s).last().last() == s.last(),
    decreases s.len(),
{
    if s.len() >= 2 && !spec_is_whitespace(s[s.len() - 2]) {
        assert(s.drop_last().last() == s[s.len() - 2]);
        lemma_words_last(s.drop_last());
    }
}

/// The character sequences held by a vector of character vectors.
pub open spec fn views(v: Seq<Vec<char>>) -> Seq<Seq<char>> {
    Seq::new(v.len(), |i: int| v[i]@)
}

proof fn lemma_words_well_formed(s: Seq<char>)
    ensures
        well_formed_words(words(s)),
    decreases s.len(),
{
    if s.len() > 0 {
        lemma_words_well_formed(s.drop_last());
        let init = words(s.drop_last());
        let c = s.last();
        if !spec_is_whitespace(c) && s.len() >= 2 && !spec_is_whitespace(s[s.len() - 2]) {
            lemma_words_last(s.drop_last());
            let w = init.update(init.len() - 1, init.last().push(c));
            assert forall|i: int| 0 <= i < w.len() implies (#[trigger] w[i]).len() > 0
                && forall|j: int| 0 <= j < w[i].len() ==> !spec_is_whitespace(w[i][j]) by {
                if i == w.len() - 1 {
                    assert(w[i] == init.last().push(c));
                    assert forall|j: int| 0 <= j < w[i].len() implies !spec_is_whitespace(w[i][j]) by {
                        if j < w[i].len() - 1 {
                            assert(w[i][j] == init[init.len() - 1][j]);
                        }
                    }
                }
            }
        }
    }
}

/// Splits `s` into its whitespace-separated words.
pub fn split_whitespace(s: &[char]) -> (out: Vec<Vec<char>>)
    ensures
        views(out@) == words(s@),
{
    let mut out: Vec<Vec<char>> = Vec::new();
    let mut i: usize = 0;
    while i < s.len()
        invariant
            i <= s@.len(),
            views(out@) == words(s@.subrange(0, i as int)),
        decreases s.len() - i,
    {
        let c = s[i];
        let ws = is_whitespace(c);
        let ghost prefix = s@.subrange(0, i as int);
        let ghost next = s@.subrange(0, i + 1);
        assert(next.drop_last() =~= prefix);
        assert(next.last() == c);
        if ws {
        } else if i >= 1 && !is_whitespace(s[i - 1]) {
            proof {
                assert(next[next.len() - 2] == s@[i - 1]);
                assert(prefix.last() == s@[i - 1]);
                lemma_words_last(prefix);
            }
            let ghost old_out = out@;
            let mut word = out.pop().unwrap();
            word.push(c);
            out.push(word);
            proof {
                assert(views(out@) =~= words(next));
            }
        } else {
            let mut word = Vec::new();
            word.push(c);
            assert(word@ =~= seq![c]);
            out.push(word);
            proof {
                assert(views(out@) =~= words(next));
            }
        }
        i = i + 1;
    }
    assert(s@.subrange(0, s@.len() as int) =~= s@);
    out
}

/// Joins the pieces with `sep` between neighbours.
pub fn join_chars(pieces: &Vec<Vec<char>>, sep: &[char]) -> (out: Vec<char>)
    ensures
        out@ == join(views(pieces@), sep@),
{
    let mut out: Vec<char> = Vec::new();
    let mut i: usize = 0;
    while i < pieces.len()
        invariant
            i <= pieces@.len(),
            out@ == join(views(pieces@).subrange(0, i as int), sep@),
        decreases pieces.len() - i,
    {
        let ghost before = views(pieces@).subrange(0, i as int);
        let ghost after = views(pieces@).subrange(0, i + 1);
        assert(after.drop_last() =~= before);
        if i > 0 {
            extend_chars(&mut out, sep);
        }
        extend_chars(&mut out, &pieces[i]);
        proof {
            if i == 0 {
                assert(after.len() == 1);
                assert(out@ =~= after[0]);
            } else {
                assert(out@ =~= join(before, sep@) + sep@ + after.last());
            }
        }
        i = i + 1;
    }
    assert(views(pieces@).subrange(0, pieces@.len() as int) =~= views(pieces@));
    out
}

/// `s` with whitespace runs collapsed to single spaces, trimmed at both ends.
pub fn collapse_whitespace_exec(s: &[char]) -> (out: Vec<char>)
    ensures
        out@ == collapse_whitespace(s@),
{
    let ws = split_whitespace(s);
    let mut sep = Vec::new();
    sep.push(' ');
    assert(sep@ =~= seq![' ']);
    join_chars(&ws, &sep)
}


// ---------------------------------------------------------------------------------------------
// Replacing, trimming and measuring.
// ---------------------------------------------------------------------------------------------
/// `s` with each non-overlapping occurrence of `pattern`, scanning left to right, replaced by
/// `replacement` (as `str::replace` does for a non-empty pattern).
pub open spec fn replace_all(s: Seq<char>, pattern: Seq<char>, replacement: Seq<char>) -> Seq<char>
    recommends
        pattern.len() > 0,
    decreases s.len(),
{
    if s.len() == 0 || pattern.len() == 0 {
        s
    } else if spec_starts_with(s, pattern) {
        replacement + replace_all(s.subrange(pattern.len() as int, s.len() as int), pattern, replacement)
    } else {
        seq![s[0]] + replace_all(s.drop_first(), pattern, replacement)
    }
}

/// Replaces each non-overlapping occurrence of `pattern`, left to right, by `replacement`.
pub fn replace_exec(s: &[char], pattern: &[char], replacement: &[char]) -> (out: Vec<char>)
    requires
        pattern@.len() > 0,
    ensures
        out@ == replace_all(s@, pattern@, replacement@),
{
    let mut out: Vec<char> = Vec::new();
    let mut i: usize = 0;
    assert(s@.subrange(0, s@.len() as int) =~= s@);
    assert(out@ + replace_all(s@, pattern@, replacement@) =~= replace_all(s@, pattern@, replacement@));
    while i < s.len()
        invariant
            i <= s@.len(),
            pattern@.len() > 0,
            out@ + replace_all(s@.subrange(i as int, s@.len() as int), pattern@, replacement@)
                == replace_all(s@, pattern@, replacement@),
        decreases s.len() - i,
    {
        let ghost rest = s@.subrange(i as int, s@.len() as int);
        let mut matches = pattern.len() <= s.len() - i;
        let mut k: usize = 0;
        while matches && k < pattern.len()
            invariant
                i <= s@.len(),
                matches ==> i + pattern@.len() <= s@.len(),
                k <= pattern@.len(),
                matches ==> forall|q: int| 0 <= q < k ==> s@[i + q] == pattern@[q],
                !matches ==> !spec_starts_with(rest, pattern@),
                rest == s@.subrange(i as int, s@.len() as int),
            decreases pattern.len() - k,
        {
            let total = s.len();
            assert(i + k < total);
            if s[i + k] != pattern[k] {
                assert(rest.subrange(0, pattern@.len() as int)[k as int] != pattern@[k as int]);
                matches = false;
                k = pattern.len();
            } else {
                k = k + 1;
            }
        }
        if matches {
            assert(rest.subrange(0, pattern@.len() as int) =~= pattern@);
            assert(rest.subrange(pattern@.len() as int, rest.len() as int) =~= s@.subrange(i + pattern@.len(), s@.len() as int));
            let ghost before = out@;
            extend_chars(&mut out, replacement);
            assert(out@ + replace_all(s@.subrange(i + pattern@.len(), s@.len() as int), pattern@, replacement@)
                =~= before + replace_all(rest, pattern@, replacement@));
            i = i + pattern.len();
        } else {
            assert(rest.drop_first() =~= s@.subrange(i + 1, s@.len() as int));
            let ghost before = out@;
            out.push(s[i]);
            assert(out@ + replace_all(s@.subrange(i + 1, s@.len() as int), pattern@, replacement@)
                =~= before + replace_all(rest, pattern@, replacement@));
            i = i + 1;
        }
    }
    assert(out@ =~= out@ + replace_all(s@.subrange(i as int, s@.len() as int), pattern@, replacement@));
    out
}

/// `s` without the whitespace at its start.
pub open spec fn trim_start(s: Seq<char>) -> Seq<char>
    decreases s.len(),
{
    if s.len() > 0 && spec_is_whitespace(s[0]) { trim_start(s.drop_first()) } else { s }
}

/// `s` without the whitespace at its end.
pub open spec fn trim_end(s: Seq<char>) -> Seq<char>
    decreases s.len(),
{
    if s.len() > 0 && spec_is_whitespace(s.last()) { trim_end(s.drop_last()) } else { s }
}

/// `s` without whitespace at either end, as `str::trim` gives it.
pub open spec fn trim(s: Seq<char>) -> Seq<char> {
    trim_end(trim_start(s))
}

proof fn lemma_trim_start_skip(s: Seq<char>, i: int)
    requires
        0 <= i <= s.len(),
        forall|j: int| 0 <= j < i ==> spec_is_whitespace(s[j]),
    ensures
        trim_start(s) == trim_start(s.subrange(i, s.len() as int)),
    decreases i,
{
    if i > 0 {
        assert(s.drop_first().subrange(i - 1, s.drop_first().len() as int) =~= s.subrange(i, s.len() as int));
        lemma_trim_start_skip(s.drop_first(), i - 1);
    } else {
        assert(s.subrange(0, s.len() as int) =~= s);
    }
}

proof fn lemma_trim_end_take(s: Seq<char>, j: int)
    requires
        0 <= j <= s.len(),
        forall|q: int| j <= q < s.len() ==> spec_is_whitespace(s[q]),
    ensures
        trim_end(s) == trim_end(s.subrange(0, j)),
    decreases s.len() - j,
{
    if j < s.len() {
        assert(s.drop_last().subrange(0, j) =~= s.subrange(0, j));
        lemma_trim_end_take(s.drop_last(), j);
    } else {
        assert(s.subrange(0, s.len() as int) =~= s);
    }
}

/// `s` without whitespace at either end.
pub fn trim_exec(s: &[char]) -> (out: Vec<char>)
    ensures
        out@ == trim(s@),
{
    let mut i: usize = 0;
    while i < s.len() && is_whitespace(s[i])
        invariant
            i <= s@.len(),
            forall|j: int| 0 <= j < i ==> spec_is_whitespace(s@[j]),
        decreases s.len() - i,
    {
        i = i + 1;
    }
    proof {
        lemma_trim_start_skip(s@, i as int);
    }
    let ghost t = s@.subrange(i as int, s@.len() as int);
    assert(i < s@.len() ==> !spec_is_whitespace(t[0]));
    let mut j: usize = s.len();
    while j > i && is_whitespace(s[j - 1])
        invariant
            i <= j <= s@.len(),
            forall|q: int| j <= q < s@.len() ==> spec_is_whitespace(s@[q]),
        decreases j,
    {
        j = j - 1;
    }
    proof {
        assert(trim_start(t) == t);
        lemma_trim_end_take(t, j - i);
        assert(t.subrange(0, j - i) =~= s@.subrange(i as int, j as int));
        let u = s@.subrange(i as int, j as int);
        assert(u.len() > 0 ==> !spec_is_whitespace(u.last()));
    }
    let mut out: Vec<char> = Vec::new();
    let mut k: usize = i;
    while k < j
        invariant
            i <= k <= j,
            j <= s@.len(),
            out@ == s@.subrange(i as int, k as int),
        decreases j - k,
    {
        out.push(s[k]);
        k = k + 1;
    }
    out
}

/// The number of bytes UTF-8 uses for `c`.
pub open spec fn utf8_width(c: char) -> nat {
    if (c as u32) < 0x80 { 1 } else if (c as u32) < 0x800 { 2 } else if (c as u32) < 0x10000 { 3 } else { 4 }
}

/// The UTF-8 length of `s` in bytes, as `str::len` gives it.
pub open spec fn utf8_len(s: Seq<char>) -> nat
    decreases s.len(),
{
    if s.len() == 0 { 0 } else { utf8_len(s.drop_last()) + utf8_width(s.last()) }
}

/// The UTF-8 length of `s` in bytes.
pub fn utf8_len_exec(s: &[char]) -> (n: usize)
    requires
        s@.len() <= 0x1000_0000,
    ensures
        n == utf8_len(s@),
{
    let mut n: usize = 0;
    let mut i: usize = 0;
    while i < s.len()
        invariant
            i <= s@.len(),
            s@.len() <= 0x1000_0000,
            n == utf8_len(s@.subrange(0, i as int)),
            n <= 4 * i,
        decreases s.len() - i,
    {
        assert(s@.subrange(0, i + 1).drop_last() =~= s@.subrange(0, i as int));
        let code = s[i] as u32;
        let w: usize = if code < 0x80 { 1 } else if code < 0x800 { 2 } else if code < 0x10000 { 3 } else { 4 };
        n = n + w;
        i = i + 1;
    }
    assert(s@.subrange(0, s@.len() as int) =~= s@);
    n
}

} // verus!
