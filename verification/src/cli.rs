//! The command line of the VOD clipper: clock timestamps and its options.
use vstd::prelude::*;
use crate::jobs::twitch_vod_url;
use crate::text::{chars_of, extend_str, str_eq, string_of};

verus! {

/// `s` split at every `:`.
pub open spec fn split_colons(s: Seq<char>) -> Seq<Seq<char>>
    decreases s.len(),
{
    if s.len() == 0 {
        seq![Seq::empty()]
    } else {
        let init = split_colons(s.drop_last());
        if s.last() == ':' {
            init.push(Seq::empty())
        } else {
            init.update(init.len() - 1, init.last().push(s.last()))
        }
    }
}

/// Whether `c` is an ASCII digit.
pub open spec fn is_digit(c: char) -> bool {
    '0' <= c && c <= '9'
}

/// The number an all-digit string spells.
pub open spec fn digits_value(s: Seq<char>) -> nat
    decreases s.len(),
{
    if s.len() == 0 { 0 } else { digits_value(s.drop_last()) * 10 + digit_val(s.last()) }
}

/// The value of a digit character.
pub open spec fn digit_val(c: char) -> nat {
    (c as int - '0' as int) as nat
}

/// Whether every character is an ASCII digit.
pub open spec fn all_digits(s: Seq<char>) -> bool {
    forall|i: int| 0 <= i < s.len() ==> is_digit(#[trigger] s[i])
}

/// A whole number with an optional sign, as `i64` parses it, when it fits.
pub open spec fn parse_int(s: Seq<char>) -> Option<int> {
    let neg = s.len() > 0 && s[0] == '-';
    let body = if s.len() > 0 && (s[0] == '-' || s[0] == '+') { s.subrange(1, s.len() as int) } else { s };
    if body.len() == 0 || !all_digits(body) {
        None
    } else {
        let v: int = if neg { -(digits_value(body) as int) } else { digits_value(body) as int };
        if i64::MIN <= v <= i64::MAX { Some(v) } else { None }
    }
}

/// Where the first `.` of `s` is, or the length of `s` when there is none.
pub open spec fn dot_index(s: Seq<char>) -> int
    decreases s.len(),
{
    if s.len() == 0 {
        0
    } else if s[0] == '.' {
        0
    } else {
        1 + dot_index(s.drop_first())
    }
}

/// A decimal numeral with an optional sign, digits, and an optional fraction after a point
/// (at least one digit in all): its sign, whole part and fraction digits.
pub open spec fn parse_decimal(s: Seq<char>) -> Option<(bool, nat, Seq<char>)> {
    let neg = s.len() > 0 && s[0] == '-';
    let body = if s.len() > 0 && (s[0] == '-' || s[0] == '+') { s.subrange(1, s.len() as int) } else { s };
    let dot = dot_index(body);
    let whole = body.subrange(0, dot);
    let frac = if dot < body.len() { body.subrange(dot + 1, body.len() as int) } else { Seq::empty() };
    if whole.len() + frac.len() == 0 || !all_digits(whole) || !all_digits(frac) {
        None
    } else {
        Some((neg, digits_value(whole), frac))
    }
}

proof fn lemma_dot_index(s: Seq<char>, i: int)
    requires
        0 <= i <= s.len(),
        forall|k: int| 0 <= k < i ==> s[k] != '.',
    ensures
        dot_index(s) == i + dot_index(s.subrange(i, s.len() as int)),
        0 <= dot_index(s) <= s.len(),
    decreases i,
{
    lemma_dot_index_bound(s);
    if i > 0 {
        assert(s.drop_first().subrange(i - 1, s.drop_first().len() as int) =~= s.subrange(i, s.len() as int));
        lemma_dot_index(s.drop_first(), i - 1);
    } else {
        assert(s.subrange(0, s.len() as int) =~= s);
    }
}

proof fn lemma_dot_index_bound(s: Seq<char>)
    ensures
        0 <= dot_index(s) <= s.len(),
        dot_index(s) < s.len() ==> s[dot_index(s)] == '.',
    decreases s.len(),
{
    if s.len() > 0 && s[0] != '.' {
        lemma_dot_index_bound(s.drop_first());
    }
}

/// Where the first exponent marker (`e` or `E`) of `s` is, or the length of `s` when there is none.
pub open spec fn exp_index(s: Seq<char>) -> int
    decreases s.len(),
{
    if s.len() == 0 {
        0
    } else if s[0] == 'e' || s[0] == 'E' {
        0
    } else {
        1 + exp_index(s.drop_first())
    }
}

/// `n` zero digits.
pub open spec fn zeros(n: nat) -> Seq<char> {
    Seq::new(n, |i: int| '0')
}

/// An exponent: an optional sign and at least one digit, of any size.
pub open spec fn parse_exponent(s: Seq<char>) -> Option<int> {
    let neg = s.len() > 0 && s[0] == '-';
    let body = if s.len() > 0 && (s[0] == '-' || s[0] == '+') { s.subrange(1, s.len() as int) } else { s };
    if body.len() == 0 || !all_digits(body) {
        None
    } else {
        Some(if neg { -(digits_value(body) as int) } else { digits_value(body) as int })
    }
}

/// The digits `digits` with the decimal point put after the first `p` of them (padding with
/// zeros on either side as needed): the whole part's digits and the fraction's digits.
pub open spec fn shift_point(digits: Seq<char>, p: int) -> (Seq<char>, Seq<char>) {
    if p <= 0 {
        (Seq::empty(), zeros((-p) as nat) + digits)
    } else if p >= digits.len() {
        (digits + zeros((p - digits.len()) as nat), Seq::empty())
    } else {
        (digits.subrange(0, p), digits.subrange(p, digits.len() as int))
    }
}

/// Whether `s` spells the lowercase ASCII word `w` in any mix of cases.
pub open spec fn spells_ignoring_case(s: Seq<char>, w: Seq<char>) -> bool {
    s.len() == w.len() && forall|i: int| 0 <= i < s.len() ==> (#[trigger] s[i] == w[i] || s[i] as int == w[i] as int - 32)
}

/// Whether `s` names an infinity or not-a-number (`inf`, `infinity`, `nan`, any case, with an
/// optional sign), which a floating-point parse reads but a timestamp cannot hold.
pub open spec fn non_finite(s: Seq<char>) -> bool {
    let body = if s.len() > 0 && (s[0] == '-' || s[0] == '+') { s.subrange(1, s.len() as int) } else { s };
    spells_ignoring_case(body, "inf"@) || spells_ignoring_case(body, "infinity"@) || spells_ignoring_case(body, "nan"@)
}

/// A seconds field: a decimal numeral with an optional sign and an optional exponent (`e` or `E`,
/// an optional sign and digits), as a floating-point parse reads it; its sign, whole part and
/// fraction digits, exactly.
pub open spec fn parse_seconds(s: Seq<char>) -> Option<(bool, nat, Seq<char>)> {
    let neg = s.len() > 0 && s[0] == '-';
    let body = if s.len() > 0 && (s[0] == '-' || s[0] == '+') { s.subrange(1, s.len() as int) } else { s };
    let e = exp_index(body);
    if e >= body.len() {
        parse_decimal(s)
    } else {
        let mant = body.subrange(0, e);
        let dot = dot_index(mant);
        let whole = mant.subrange(0, dot);
        let frac = if dot < mant.len() { mant.subrange(dot + 1, mant.len() as int) } else { Seq::empty() };
        match parse_exponent(body.subrange(e + 1, body.len() as int)) {
            None => None,
            Some(x) => if whole.len() + frac.len() == 0 || !all_digits(whole) || !all_digits(frac) {
                None
            } else {
                let shifted = shift_point(whole + frac, whole.len() + x);
                Some((neg, digits_value(shifted.0), shifted.1))
            },
        }
    }
}

/// The thousandths in a fraction's digits, rounded half away from zero.
pub open spec fn fraction_ms(frac: Seq<char>) -> nat {
    let d = |i: int| if i < frac.len() { digit_val(frac[i]) } else { 0nat };
    d(0) * 100 + d(1) * 10 + d(2) + if d(3) >= 5 { 1nat } else { 0nat }
}

/// Why a clock timestamp was refused.
#[derive(Debug, Clone, Copy, PartialEq, Eq, Structural)]
pub enum TimestampError {
    /// A field is not a number.
    Malformed,
    /// The timestamp has the wrong shape or a field is out of range.
    Invalid,
}

/// A clock reading `[[hours:]minutes:]seconds[.fraction][e exponent]` in milliseconds (rounded
/// half away from zero, saturating at the largest `i64`), or why it is refused; seconds that name
/// an infinity or not-a-number are refused as invalid.
pub open spec fn spec_parse_timestamp(value: Seq<char>) -> Result<i64, TimestampError> {
    let parts = split_colons(value);
    if !(1 <= parts.len() <= 3) {
        Err(TimestampError::Invalid)
    } else {
        if non_finite(parts.last()) {
            Err(TimestampError::Invalid)
        } else {
        match parse_seconds(parts.last()) {
            None => Err(TimestampError::Malformed),
            Some((neg, whole, frac)) => {
                let zero = whole == 0 && all_zero(frac);
                if neg && !zero {
                    Err(TimestampError::Invalid)
                } else if parts.len() > 1 && whole >= 60 {
                    Err(TimestampError::Invalid)
                } else {
                    let minutes = if parts.len() >= 2 { parse_int(parts[parts.len() - 2]) } else { Some(0) };
                    match minutes {
                        None => Err(TimestampError::Malformed),
                        Some(m) => if !(0 <= m < 60) {
                            Err(TimestampError::Invalid)
                        } else {
                            let hours = if parts.len() == 3 { parse_int(parts[0]) } else { Some(0) };
                            match hours {
                                None => Err(TimestampError::Malformed),
                                Some(h) => if h < 0 {
                                    Err(TimestampError::Invalid)
                                } else {
                                    let total: int = ((h * 3600 + m * 60 + whole) * 1000 + fraction_ms(frac)) as int;
                                    Ok(if total > i64::MAX { i64::MAX } else { total as i64 })
                                },
                            }
                        },
                    }
                }
            },
        }
        }
    }
}

/// Whether every digit is zero.
pub open spec fn all_zero(s: Seq<char>) -> bool {
    forall|i: int| 0 <= i < s.len() ==> s[i] == '0'
}

fn split_colons_exec(s: &[char]) -> (out: Vec<Vec<char>>)
    ensures
        crate::text::views(out@) == split_colons(s@),
{
    let mut parts: Vec<Vec<char>> = Vec::new();
    let mut current: Vec<char> = Vec::new();
    let mut i: usize = 0;
    assert(s@.subrange(0, 0) =~= Seq::<char>::empty());
    while i < s.len()
        invariant
            i <= s@.len(),
            crate::text::views(parts@).push(current@) == split_colons(s@.subrange(0, i as int)),
        decreases s.len() - i,
    {
        assert(s@.subrange(0, i + 1).drop_last() =~= s@.subrange(0, i as int));
        let ghost before = crate::text::views(parts@);
        let ghost cur = current@;
        if s[i] == ':' {
            let mut done: Vec<char> = Vec::new();
            std::mem::swap(&mut done, &mut current);
            parts.push(done);
            assert(crate::text::views(parts@) =~= before.push(cur));
            assert(crate::text::views(parts@).push(current@) =~= before.push(cur).push(Seq::<char>::empty()));
        } else {
            current.push(s[i]);
            assert(crate::text::views(parts@).push(current@) =~= before.push(cur).update(before.len() as int, cur.push(s[i as int])));
        }
        i = i + 1;
    }
    assert(s@.subrange(0, s@.len() as int) =~= s@);
    let ghost before = crate::text::views(parts@);
    parts.push(current);
    assert(crate::text::views(parts@) =~= before.push(current@));
    parts
}

/// The value of all-digit `s`, capped just above `cap`.
fn digits_capped(s: &[char], from: usize, to: usize, cap: u128) -> (r: u128)
    requires
        from <= to <= s@.len(),
        all_digits(s@.subrange(from as int, to as int)),
        cap <= 0x1_0000_0000_0000_0000_0000,
    ensures
        r as int == (if digits_value(s@.subrange(from as int, to as int)) <= cap { digits_value(s@.subrange(from as int, to as int)) as int } else { cap + 1 }),
{
    let mut v: u128 = 0;
    let mut i: usize = from;
    while i < to
        invariant
            from <= i <= to <= s@.len(),
            all_digits(s@.subrange(from as int, to as int)),
            cap <= 0x1_0000_0000_0000_0000_0000,
            v as int == (if digits_value(s@.subrange(from as int, i as int)) <= cap { digits_value(s@.subrange(from as int, i as int)) as int } else { cap + 1 }),
        decreases to - i,
    {
        assert(s@.subrange(from as int, i + 1).drop_last() =~= s@.subrange(from as int, i as int));
        assert(s@.subrange(from as int, to as int)[i - from] == s@[i as int]);
        let d = (s[i] as u32 - '0' as u32) as u128;
        proof {
            lemma_digits_grow(s@.subrange(from as int, i + 1));
        }
        if v > cap {
            v = cap + 1;
        } else {
            let next = v * 10 + d;
            v = if next <= cap { next } else { cap + 1 };
        }
        i = i + 1;
    }
    v
}

proof fn lemma_digits_grow(s: Seq<char>)
    requires
        s.len() > 0,
        is_digit(s.last()),
    ensures
        digits_value(s) >= digits_value(s.drop_last()),
        digits_value(s) == digits_value(s.drop_last()) * 10 + digit_val(s.last()),
{
}

fn check_digits(s: &[char], from: usize, to: usize) -> (b: bool)
    requires
        from <= to <= s@.len(),
    ensures
        b == all_digits(s@.subrange(from as int, to as int)),
{
    let mut i: usize = from;
    while i < to
        invariant
            from <= i <= to <= s@.len(),
            forall|k: int| from <= k < i ==> is_digit(#[trigger] s@[k]),
        decreases to - i,
    {
        if !('0' <= s[i] && s[i] <= '9') {
            assert(!is_digit(s@.subrange(from as int, to as int)[i - from]));
            return false;
        }
        i = i + 1;
    }
    assert forall|k: int| 0 <= k < to - from implies is_digit(#[trigger] s@.subrange(from as int, to as int)[k]) by {
        assert(s@.subrange(from as int, to as int)[k] == s@[from + k]);
    }
    true
}

/// A whole number with an optional sign.
pub(crate) fn parse_int_exec(s: &[char]) -> (r: Option<i64>)
    ensures
        match parse_int(s@) {
            Some(v) => r == Some(v as i64),
            None => r is None,
        },
{
    let n = s.len();
    let neg = n > 0 && s[0] == '-';
    let from: usize = if n > 0 && (s[0] == '-' || s[0] == '+') { 1 } else { 0 };
    let ghost body = if s@.len() > 0 && (s@[0] == '-' || s@[0] == '+') { s@.subrange(1, s@.len() as int) } else { s@ };
    assert(body =~= s@.subrange(from as int, n as int));
    if from == n || !check_digits(s, from, n) {
        return None;
    }
    let v = digits_capped(s, from, n, 0x8000_0000_0000_0000);
    if neg {
        if v > 0x8000_0000_0000_0000 {
            return None;
        }
        Some((0i128 - v as i128) as i64)
    } else {
        if v > 0x7fff_ffff_ffff_ffff {
            return None;
        }
        Some(v as i64)
    }
}

/// A decimal numeral: its sign, its whole part (capped just above 2^64), whether its fraction
/// is all zeros, and its fraction in rounded thousandths.
#[verifier::rlimit(50)]
fn parse_decimal_exec(sec: &[char]) -> (r: Option<(bool, u128, bool, u128)>)
    ensures
        match parse_decimal(sec@) {
            None => r is None,
            Some((neg, whole, frac)) => r matches Some((n2, w2, z2, f2)) && n2 == neg
                && w2 as int == (if whole <= 0x1_0000_0000_0000_0000 { whole as int } else { 0x1_0000_0000_0000_0001 })
                && z2 == all_zero(frac) && f2 == fraction_ms(frac),
        },
{
    let n = sec.len();
    let neg = n > 0 && sec[0] == '-';
    let from: usize = if n > 0 && (sec[0] == '-' || sec[0] == '+') { 1 } else { 0 };
    let ghost body = if sec@.len() > 0 && (sec@[0] == '-' || sec@[0] == '+') { sec@.subrange(1, sec@.len() as int) } else { sec@ };
    assert(body =~= sec@.subrange(from as int, n as int));
    let mut dot: usize = from;
    while dot < n && sec[dot] != '.'
        invariant
            from <= dot <= n,
            n == sec@.len(),
            forall|k: int| from <= k < dot ==> sec@[k] != '.',
        decreases n - dot,
    {
        dot = dot + 1;
    }
    proof {
        assert forall|k: int| 0 <= k < dot - from implies body[k] != '.' by {
            assert(body[k] == sec@[from + k]);
        }
        lemma_dot_index(body, dot - from);
        let rest = body.subrange(dot - from, body.len() as int);
        if dot < n {
            assert(rest[0] == '.');
        } else {
            assert(rest.len() == 0);
        }
        assert(body.subrange(0, dot - from) =~= sec@.subrange(from as int, dot as int));
        if dot < n {
            assert(body.subrange(dot - from + 1, body.len() as int) =~= sec@.subrange(dot + 1, n as int));
        }
    }
    let frac_from: usize = if dot < n { dot + 1 } else { n };
    proof {
        if dot == n {
            assert(sec@.subrange(n as int, n as int) =~= Seq::<char>::empty());
        }
    }
    if (dot - from) + (n - frac_from) == 0 || !check_digits(sec, from, dot) || !check_digits(sec, frac_from, n) {
        return None;
    }
    let ghost frac = sec@.subrange(frac_from as int, n as int);
    let whole = digits_capped(sec, from, dot, 0x1_0000_0000_0000_0000);
    let mut frac_zero = true;
    let mut k: usize = frac_from;
    while k < n
        invariant
            frac_from <= k <= n,
            n == sec@.len(),
            frac_zero == (forall|q: int| frac_from <= q < k ==> sec@[q] == '0'),
        decreases n - k,
    {
        if sec[k] != '0' {
            frac_zero = false;
        }
        k = k + 1;
    }
    proof {
        if frac_zero {
            assert forall|i: int| 0 <= i < frac.len() implies frac[i] == '0' by {
                assert(frac[i] == sec@[frac_from + i]);
            }
        } else {
            let q = choose|q: int| frac_from <= q < n && sec@[q] != '0';
            assert(frac[q - frac_from] == sec@[q]);
        }
    }
    let mut digits: Vec<u128> = Vec::new();
    let mut i: usize = 0;
    while i < 4
        invariant
            i <= 4,
            frac_from <= n,
            n == sec@.len(),
            frac == sec@.subrange(frac_from as int, n as int),
            all_digits(frac),
            digits@.len() == i,
            forall|q: int| 0 <= q < i ==> digits@[q] == (if q < frac.len() { digit_val(frac[q]) } else { 0nat }),
        decreases 4 - i,
    {
        let d: u128 = if i < n - frac_from {
            assert(frac[i as int] == sec@[frac_from + i]);
            assert(is_digit(frac[i as int]));
            (sec[frac_from + i] as u32 - '0' as u32) as u128
        } else {
            0
        };
        digits.push(d);
        i = i + 1;
    }
    let frac_ms: u128 = digits[0] * 100 + digits[1] * 10 + digits[2] + if digits[3] >= 5 { 1 } else { 0 };
    Some((neg, whole, frac_zero, frac_ms))
}

proof fn lemma_exp_index(s: Seq<char>, i: int)
    requires
        0 <= i <= s.len(),
        forall|k: int| 0 <= k < i ==> s[k] != 'e' && s[k] != 'E',
    ensures
        exp_index(s) == i + exp_index(s.subrange(i, s.len() as int)),
    decreases i,
{
    if i > 0 {
        assert(s.drop_first().subrange(i - 1, s.drop_first().len() as int) =~= s.subrange(i, s.len() as int));
        lemma_exp_index(s.drop_first(), i - 1);
    } else {
        assert(s.subrange(0, s.len() as int) =~= s);
    }
}

/// Where the exponent marker of `sec[from..]` is, or the end.
fn find_exponent(sec: &[char], from: usize) -> (e: usize)
    requires
        from <= sec@.len(),
    ensures
        from <= e <= sec@.len(),
        exp_index(sec@.subrange(from as int, sec@.len() as int)) == e - from,
        forall|k: int| from <= k < e ==> sec@[k] != 'e' && sec@[k] != 'E',
{
    let n = sec.len();
    let mut e = from;
    while e < n && sec[e] != 'e' && sec[e] != 'E'
        invariant
            from <= e <= n,
            n == sec@.len(),
            forall|k: int| from <= k < e ==> sec@[k] != 'e' && sec@[k] != 'E',
        decreases n - e,
    {
        e = e + 1;
    }
    proof {
        let body = sec@.subrange(from as int, n as int);
        assert forall|k: int| 0 <= k < e - from implies body[k] != 'e' && body[k] != 'E' by {
            assert(body[k] == sec@[from + k]);
        }
        lemma_exp_index(body, e - from);
        let rest = body.subrange(e - from, body.len() as int);
        if e < n {
            assert(rest[0] == sec@[e as int]);
        } else {
            assert(rest.len() == 0);
        }
    }
    e
}

/// Whether `sec` (after an optional sign) spells `w`, a lowercase ASCII word, in any case.
fn spells_exec(sec: &[char], from: usize, w: &str) -> (b: bool)
    requires
        from <= sec@.len(),
        forall|i: int| 0 <= i < w@.len() ==> 'a' <= #[trigger] w@[i] && w@[i] <= 'z',
    ensures
        b == spells_ignoring_case(sec@.subrange(from as int, sec@.len() as int), w@),
{
    let wc = chars_of(w);
    let n = sec.len();
    if n - from != wc.len() {
        return false;
    }
    let mut i: usize = 0;
    while i < wc.len()
        invariant
            i <= wc@.len(),
            wc@ == w@,
            n == sec@.len(),
            n - from == wc@.len(),
            forall|k: int| 0 <= k < w@.len() ==> 'a' <= #[trigger] w@[k] && w@[k] <= 'z',
            forall|k: int| 0 <= k < i ==> (#[trigger] sec@[from + k] == w@[k] || sec@[from + k] as int == w@[k] as int - 32),
        decreases wc.len() - i,
    {
        let c = sec[from + i];
        let l = wc[i];
        let upper = ((l as u32) - 32) as u8 as char;
        assert(upper as int == l as int - 32) by {
            assert('a' <= l && l <= 'z');
        }
        if c != l && c != upper {
            assert(sec@.subrange(from as int, n as int)[i as int] == c);
            return false;
        }
        i = i + 1;
    }
    assert forall|k: int| 0 <= k < sec@.subrange(from as int, n as int).len() implies (#[trigger] sec@.subrange(from as int, n as int)[k]
        == w@[k] || sec@.subrange(from as int, n as int)[k] as int == w@[k] as int - 32) by {
        assert(sec@.subrange(from as int, n as int)[k] == sec@[from + k]);
    }
    true
}

/// Whether a seconds field names an infinity or not-a-number.
fn non_finite_exec(sec: &[char]) -> (b: bool)
    ensures
        b == non_finite(sec@),
{
    let n = sec.len();
    let from: usize = if n > 0 && (sec[0] == '-' || sec[0] == '+') { 1 } else { 0 };
    let ghost body = if sec@.len() > 0 && (sec@[0] == '-' || sec@[0] == '+') { sec@.subrange(1, sec@.len() as int) } else { sec@ };
    assert(body =~= sec@.subrange(from as int, n as int));
    proof {
        reveal_strlit("inf");
        reveal_strlit("infinity");
        reveal_strlit("nan");
    }
    spells_exec(sec, from, "inf") || spells_exec(sec, from, "infinity") || spells_exec(sec, from, "nan")
}

/// `10` to the power `k`.
pub open spec fn pow10(k: nat) -> nat
    decreases k,
{
    if k == 0 { 1 } else { 10 * pow10((k - 1) as nat) }
}

proof fn lemma_digits_append(a: Seq<char>, b: Seq<char>)
    ensures
        digits_value(a + b) == digits_value(a) * pow10(b.len()) + digits_value(b),
    decreases b.len(),
{
    if b.len() == 0 {
        assert(a + b =~= a);
        assert(pow10(0) == 1);
        assert(digits_value(a) * 1 == digits_value(a));
    } else {
        lemma_digits_append(a, b.drop_last());
        assert((a + b).drop_last() =~= a + b.drop_last());
        assert((a + b).last() == b.last());
        let x = digits_value(a);
        let k = b.drop_last().len();
        let pk = pow10(k);
        let dp = digits_value(b.drop_last());
        let d = digit_val(b.last());
        assert(digits_value(a + b) == digits_value(a + b.drop_last()) * 10 + d);
        assert(digits_value(a + b.drop_last()) == x * pk + dp);
        assert(digits_value(b) == dp * 10 + d);
        assert(pow10(b.len()) == 10 * pk);
        assert((x * pk + dp) * 10 + d == x * (10 * pk) + (dp * 10 + d)) by (nonlinear_arith);
        assert(digits_value(a + b) == x * pow10(b.len()) + digits_value(b));
    }
}

proof fn lemma_all_zero_value(s: Seq<char>)
    requires
        all_zero(s),
    ensures
        digits_value(s) == 0,
    decreases s.len(),
{
    if s.len() > 0 {
        assert(all_zero(s.drop_last())) by {
            assert forall|i: int| 0 <= i < s.drop_last().len() implies s.drop_last()[i] == '0' by {
                assert(s.drop_last()[i] == s[i]);
            }
        }
        lemma_all_zero_value(s.drop_last());
    }
}

proof fn lemma_nonzero_value(s: Seq<char>)
    requires
        all_digits(s),
        !all_zero(s),
    ensures
        digits_value(s) >= 1,
    decreases s.len(),
{
    if s.len() > 0 {
        if s.last() != '0' {
            assert(is_digit(s.last()));
        } else {
            assert(!all_zero(s.drop_last())) by {
                let i = choose|i: int| 0 <= i < s.len() && s[i] != '0';
                assert(s.drop_last()[i] == s[i]);
            }
            assert(all_digits(s.drop_last())) by {
                assert forall|i: int| 0 <= i < s.drop_last().len() implies is_digit(#[trigger] s.drop_last()[i]) by {
                    assert(s.drop_last()[i] == s[i]);
                }
            }
            lemma_nonzero_value(s.drop_last());
        }
    }
}

proof fn lemma_pow10_big(k: nat)
    requires
        k >= 21,
    ensures
        pow10(k) > 0x1_0000_0000_0000_0001,
    decreases k,
{
    if k > 21 {
        lemma_pow10_big((k - 1) as nat);
    } else {
        reveal_with_fuel(pow10, 22);
        assert(pow10(21) == 1_000_000_000_000_000_000_000nat);
    }
}

proof fn lemma_parse_plain(w: Seq<char>, f: Seq<char>)
    requires
        all_digits(w),
        all_digits(f),
        w.len() + f.len() > 0,
    ensures
        parse_decimal(w + seq!['.'] + f) == Some((false, digits_value(w), f)),
{
    let s = w + seq!['.'] + f;
    assert(s[w.len() as int] == '.');
    if w.len() > 0 {
        assert(s[0] == w[0]);
        assert(is_digit(w[0]));
    }
    assert forall|k: int| 0 <= k < w.len() implies s[k] != '.' by {
        assert(s[k] == w[k]);
        assert(is_digit(w[k]));
    }
    lemma_dot_index(s, w.len() as int);
    let rest = s.subrange(w.len() as int, s.len() as int);
    assert(rest[0] == '.');
    assert(s.subrange(0, w.len() as int) =~= w);
    assert(s.subrange(w.len() as int + 1, s.len() as int) =~= f);
}

/// Appends `s[a..b]` to `out`.
fn push_range(out: &mut Vec<char>, s: &[char], a: usize, b: usize)
    requires
        a <= b <= s@.len(),
    ensures
        final(out)@ == old(out)@ + s@.subrange(a as int, b as int),
{
    let mut i = a;
    while i < b
        invariant
            a <= i <= b <= s@.len(),
            out@ == old(out)@ + s@.subrange(a as int, i as int),
        decreases b - i,
    {
        assert(s@.subrange(a as int, i + 1) =~= s@.subrange(a as int, i as int).push(s@[i as int]));
        out.push(s[i]);
        i = i + 1;
    }
}

/// Appends `k` zero digits to `out`.
fn push_zeros(out: &mut Vec<char>, k: usize)
    ensures
        final(out)@ == old(out)@ + zeros(k as nat),
{
    let mut i: usize = 0;
    while i < k
        invariant
            i <= k,
            out@ == old(out)@ + zeros(i as nat),
        decreases k - i,
    {
        assert(zeros((i + 1) as nat) =~= zeros(i as nat).push('0'));
        out.push('0');
        i = i + 1;
    }
}

/// An exponent in `s[from..to]`: whether it is negative and its size, capped just above 2^66.
fn parse_exponent_exec(s: &[char], from: usize, to: usize) -> (r: Option<(bool, u128)>)
    requires
        from <= to <= s@.len(),
    ensures
        match parse_exponent(s@.subrange(from as int, to as int)) {
            None => r is None,
            Some(x) => r matches Some((neg, v)) && (neg ==> x <= 0) && (!neg ==> x >= 0)
                && v as int == (if (if neg { -x } else { x }) <= 0x4_0000_0000_0000_0000 { if neg { -x } else { x } } else { 0x4_0000_0000_0000_0001 }),
        },
{
    let ghost t = s@.subrange(from as int, to as int);
    let neg = from < to && s[from] == '-';
    let start: usize = if from < to && (s[from] == '-' || s[from] == '+') { from + 1 } else { from };
    proof {
        if from < to {
            assert(t[0] == s@[from as int]);
        }
        let body = if t.len() > 0 && (t[0] == '-' || t[0] == '+') { t.subrange(1, t.len() as int) } else { t };
        assert(body =~= s@.subrange(start as int, to as int));
    }
    if start == to || !check_digits(s, start, to) {
        return None;
    }
    let v = digits_capped(s, start, to, 0x4_0000_0000_0000_0000);
    Some((neg, v))
}

proof fn lemma_shift_digits(m: Seq<char>, pp: int)
    requires
        all_digits(m),
    ensures
        all_digits(shift_point(m, pp).0),
        all_digits(shift_point(m, pp).1),
        shift_point(m, pp).0.len() + shift_point(m, pp).1.len() >= m.len(),
{
    let (w, f) = shift_point(m, pp);
    assert forall|i: int| 0 <= i < w.len() implies is_digit(#[trigger] w[i]) by {
        if pp > 0 && i < m.len() {
            assert(w[i] == m[i]);
        }
    }
    assert forall|i: int| 0 <= i < f.len() implies is_digit(#[trigger] f[i]) by {
        if pp > 0 && pp < m.len() {
            assert(f[i] == m[pp + i]);
        } else if pp <= 0 && i >= -pp {
            assert(f[i] == m[i + pp]);
        }
    }
}

proof fn lemma_shift_all_zero(m: Seq<char>, pp: int)
    requires
        all_zero(m),
    ensures
        digits_value(shift_point(m, pp).0) == 0,
        all_zero(shift_point(m, pp).1),
        fraction_ms(shift_point(m, pp).1) == 0,
{
    let (w, f) = shift_point(m, pp);
    assert(all_zero(w)) by {
        assert forall|i: int| 0 <= i < w.len() implies w[i] == '0' by {
            if pp > 0 && i < m.len() {
                assert(w[i] == m[i]);
            }
        }
    }
    assert(all_zero(f)) by {
        assert forall|i: int| 0 <= i < f.len() implies f[i] == '0' by {
            if pp > 0 && pp < m.len() {
                assert(f[i] == m[pp + i]);
            } else if pp <= 0 && i >= -pp {
                assert(f[i] == m[i + pp]);
            }
        }
    }
    lemma_all_zero_value(w);
}

proof fn lemma_shift_big(m: Seq<char>, pp: int)
    requires
        all_digits(m),
        !all_zero(m),
        pp > m.len() + 40,
    ensures
        digits_value(shift_point(m, pp).0) > 0x1_0000_0000_0000_0000,
        shift_point(m, pp).1.len() == 0,
{
    lemma_nonzero_value(m);
    let z = zeros((pp - m.len()) as nat);
    assert(shift_point(m, pp).0 == m + z);
    lemma_digits_append(m, z);
    lemma_all_zero_value(z);
    lemma_pow10_big(z.len());
    assert(digits_value(m) * pow10(z.len()) >= pow10(z.len())) by (nonlinear_arith)
        requires digits_value(m) >= 1;
}

proof fn lemma_shift_tiny(m: Seq<char>, pp: int)
    requires
        !all_zero(m),
        pp < -10,
    ensures
        digits_value(shift_point(m, pp).0) == 0,
        !all_zero(shift_point(m, pp).1),
        fraction_ms(shift_point(m, pp).1) == 0,
{
    let f = shift_point(m, pp).1;
    assert(f == zeros((-pp) as nat) + m);
    assert(f[0] == '0' && f[1] == '0' && f[2] == '0' && f[3] == '0');
    let q = choose|q: int| 0 <= q < m.len() && m[q] != '0';
    assert(f[q - pp] == m[q]);
}

/// The digits with the point put after the first `p`, as a plain numeral `whole.fraction`.
fn plain_numeral(digits: &Vec<char>, p: i128) -> (plain: Vec<char>)
    requires
        -10 <= p <= digits@.len() + 40,
    ensures
        plain@ == shift_point(digits@, p as int).0 + seq!['.'] + shift_point(digits@, p as int).1,
{
    let mlen = digits.len();
    let ghost sh = shift_point(digits@, p as int);
    let mut plain: Vec<char> = Vec::new();
    if p <= 0 {
        plain.push('.');
        push_zeros(&mut plain, (0 - p) as usize);
        push_range(&mut plain, digits.as_slice(), 0, mlen);
        assert(digits@.subrange(0, mlen as int) =~= digits@);
        assert(plain@ =~= sh.0 + seq!['.'] + sh.1);
    } else if p >= mlen as i128 {
        push_range(&mut plain, digits.as_slice(), 0, mlen);
        push_zeros(&mut plain, (p - mlen as i128) as usize);
        plain.push('.');
        assert(digits@.subrange(0, mlen as int) =~= digits@);
        assert(plain@ =~= sh.0 + seq!['.'] + sh.1);
    } else {
        push_range(&mut plain, digits.as_slice(), 0, p as usize);
        plain.push('.');
        push_range(&mut plain, digits.as_slice(), p as usize, mlen);
        assert(plain@ =~= sh.0 + seq!['.'] + sh.1);
    }
    plain
}

/// The mantissa `whole[.frac]` in `sec[from..e]`: its digits and how many are whole, when it
/// is well formed.
#[verifier::rlimit(50)]
fn parse_mantissa(sec: &[char], from: usize, e: usize) -> (r: Option<(Vec<char>, usize)>)
    requires
        from <= e <= sec@.len(),
    ensures
        ({
            let mant = sec@.subrange(from as int, e as int);
            let dot = dot_index(mant);
            let whole = mant.subrange(0, dot);
            let frac = if dot < mant.len() { mant.subrange(dot + 1, mant.len() as int) } else { Seq::empty() };
            match r {
                None => whole.len() + frac.len() == 0 || !all_digits(whole) || !all_digits(frac),
                Some((digits, wlen)) => !(whole.len() + frac.len() == 0 || !all_digits(whole) || !all_digits(frac))
                    && digits@ == whole + frac && wlen == whole.len(),
            }
        }),
{
    let ghost mant = sec@.subrange(from as int, e as int);
    let mut dot: usize = from;
    while dot < e && sec[dot] != '.'
        invariant
            from <= dot <= e,
            e <= sec@.len(),
            forall|k: int| from <= k < dot ==> sec@[k] != '.',
        decreases e - dot,
    {
        dot = dot + 1;
    }
    proof {
        assert forall|k: int| 0 <= k < dot - from implies mant[k] != '.' by {
            assert(mant[k] == sec@[from + k]);
        }
        lemma_dot_index(mant, dot - from);
        if dot < e {
            assert(mant.subrange(dot - from, mant.len() as int)[0] == '.');
        } else {
            assert(mant.subrange(dot - from, mant.len() as int).len() == 0);
        }
        assert(mant.subrange(0, dot - from) =~= sec@.subrange(from as int, dot as int));
        if dot < e {
            assert(mant.subrange(dot - from + 1, mant.len() as int) =~= sec@.subrange(dot + 1, e as int));
        } else {
            assert(sec@.subrange(e as int, e as int) =~= Seq::<char>::empty());
        }
    }
    let frac_from: usize = if dot < e { dot + 1 } else { e };
    if (dot - from) + (e - frac_from) == 0 || !check_digits(sec, from, dot) || !check_digits(sec, frac_from, e) {
        return None;
    }
    let mut digits: Vec<char> = Vec::new();
    push_range(&mut digits, sec, from, dot);
    push_range(&mut digits, sec, frac_from, e);
    Some((digits, dot - from))
}

/// A seconds field: its sign, its whole part (capped just above 2^64), whether its fraction is all
/// zeros, and its fraction in rounded thousandths; an exponent moves the decimal point.
#[verifier::rlimit(50)]
fn parse_seconds_exec(sec: &[char]) -> (r: Option<(bool, u128, bool, u128)>)
    ensures
        match parse_seconds(sec@) {
            None => r is None,
            Some((neg, whole, frac)) => r matches Some((n2, w2, z2, f2)) && n2 == neg
                && w2 as int == (if whole <= 0x1_0000_0000_0000_0000 { whole as int } else { 0x1_0000_0000_0000_0001 })
                && z2 == all_zero(frac) && f2 == fraction_ms(frac),
        },
{
    let n = sec.len();
    let neg = n > 0 && sec[0] == '-';
    let from: usize = if n > 0 && (sec[0] == '-' || sec[0] == '+') { 1 } else { 0 };
    let ghost body = if sec@.len() > 0 && (sec@[0] == '-' || sec@[0] == '+') { sec@.subrange(1, sec@.len() as int) } else { sec@ };
    assert(body =~= sec@.subrange(from as int, n as int));
    let e = find_exponent(sec, from);
    if e == n {
        return parse_decimal_exec(sec);
    }
    assert(body.subrange(0, e - from) =~= sec@.subrange(from as int, e as int));
    assert(body.subrange(e - from + 1, body.len() as int) =~= sec@.subrange(e + 1, n as int));
    let (eneg, ev) = match parse_exponent_exec(sec, e + 1, n) {
        None => return None,
        Some(x) => x,
    };
    let (digits, wlen) = match parse_mantissa(sec, from, e) {
        None => return None,
        Some(d) => d,
    };
    let ghost x = parse_exponent(sec@.subrange(e + 1, n as int))->0;
    let ghost m = digits@;
    let ghost pp = wlen + x;
    let ghost sh = shift_point(m, pp);
    assert(parse_seconds(sec@) == Some((neg, digits_value(sh.0), sh.1)));
    let mlen = digits.len();
    let mut all_zero_digits = true;
    let mut k: usize = 0;
    while k < mlen
        invariant
            k <= mlen,
            mlen == digits@.len(),
            all_zero_digits == (forall|q: int| 0 <= q < k ==> digits@[q] == '0'),
        decreases mlen - k,
    {
        if digits[k] != '0' {
            all_zero_digits = false;
        }
        k = k + 1;
    }
    let p: i128 = wlen as i128 + if eneg { 0 - (ev as i128) } else { ev as i128 };
    proof {
        assert(all_digits(m)) by {
            let mant = sec@.subrange(from as int, e as int);
            let dot = dot_index(mant);
            let whole = mant.subrange(0, dot);
            let frac = if dot < mant.len() { mant.subrange(dot + 1, mant.len() as int) } else { Seq::empty() };
            assert forall|i: int| 0 <= i < m.len() implies is_digit(#[trigger] m[i]) by {
                if i < whole.len() {
                    assert(m[i] == whole[i]);
                } else {
                    assert(m[i] == frac[i - whole.len()]);
                }
            }
        }
        if ev <= 0x4_0000_0000_0000_0000 {
            assert(p == pp);
        }
    }
    if all_zero_digits {
        proof {
            lemma_shift_all_zero(m, pp);
        }
        return Some((neg, 0, true, 0));
    }
    if p > mlen as i128 + 40 {
        proof {
            lemma_shift_big(m, pp);
        }
        return Some((neg, 0x1_0000_0000_0000_0001, true, 0));
    }
    if p < -10 {
        proof {
            lemma_shift_tiny(m, pp);
        }
        return Some((neg, 0, false, 0));
    }
    assert(p == pp);
    let plain = plain_numeral(&digits, p);
    proof {
        lemma_shift_digits(m, pp);
        lemma_parse_plain(sh.0, sh.1);
    }
    match parse_decimal_exec(plain.as_slice()) {
        None => None,
        Some((_, w2, z2, f2)) => Some((neg, w2, z2, f2)),
    }
}

/// The result of parsing a clock timestamp.
#[verifier::rlimit(50)]
pub fn parse_timestamp(value: &str) -> (r: Result<i64, TimestampError>)
    ensures
        r == spec_parse_timestamp(value@),
{
    let chars = chars_of(value);
    let parts = split_colons_exec(&chars);
    let ghost ps = crate::text::views(parts@);
    let count = parts.len();
    if !(1 <= count && count <= 3) {
        return Err(TimestampError::Invalid);
    }
    assert(ps.last() == parts@[count - 1]@);
    if non_finite_exec(parts[count - 1].as_slice()) {
        return Err(TimestampError::Invalid);
    }
    let (neg, whole, frac_zero, frac_ms) = match parse_seconds_exec(parts[count - 1].as_slice()) {
        None => return Err(TimestampError::Malformed),
        Some(d) => d,
    };
    if neg && !(whole == 0 && frac_zero) {
        return Err(TimestampError::Invalid);
    }
    if count > 1 && whole >= 60 {
        return Err(TimestampError::Invalid);
    }
    let minutes: i64 = if count >= 2 {
        assert(ps[count - 2] == parts@[count - 2]@);
        match parse_int_exec(parts[count - 2].as_slice()) {
            Some(m) => m,
            None => return Err(TimestampError::Malformed),
        }
    } else {
        0
    };
    if !(0 <= minutes && minutes < 60) {
        return Err(TimestampError::Invalid);
    }
    let hours: i64 = if count == 3 {
        assert(ps[0] == parts@[0]@);
        match parse_int_exec(parts[0].as_slice()) {
            Some(h) => h,
            None => return Err(TimestampError::Malformed),
        }
    } else {
        0
    };
    if hours < 0 {
        return Err(TimestampError::Invalid);
    }
    let total: u128 = ((hours as u128) * 3600 + (minutes as u128) * 60 + whole) * 1000 + frac_ms;
    if total > 0x7fff_ffff_ffff_ffff {
        Ok(0x7fff_ffff_ffff_ffff)
    } else {
        Ok(total as i64)
    }
}

/// How to run the VOD clipper.
pub open spec fn spec_usage() -> Seq<char> {
    "Usage: cargo run --manifest-path src-tauri/clipfarmer/Cargo.toml --bin clipfarmer-vod -- \\\n  --url https://www.twitch.tv/videos/123456789 \\\n  --start 01:23:45 \\\n  --end 01:24:15 \\\n  [--data-dir ./data] [--no-visuals] [--no-audio] [--no-chat] [--publish]"@
}

/// How to run the VOD clipper.
pub fn usage() -> (u: &'static str)
    ensures
        u@ == spec_usage(),
{
    "Usage: cargo run --manifest-path src-tauri/clipfarmer/Cargo.toml --bin clipfarmer-vod -- \\\n  --url https://www.twitch.tv/videos/123456789 \\\n  --start 01:23:45 \\\n  --end 01:24:15 \\\n  [--data-dir ./data] [--no-visuals] [--no-audio] [--no-chat] [--publish]"
}

/// What the VOD clipper was asked to do.
#[derive(Debug)]
pub struct Options {
    pub url: String,
    pub start_ms: i64,
    pub end_ms: i64,
    pub data_dir: String,
    pub no_visuals: bool,
    pub no_audio: bool,
    pub no_chat: bool,
    pub publish: bool,
}

/// The outcome of reading the command line.
#[derive(Debug)]
pub enum Invocation {
    /// Print the usage and stop.
    Help,
    /// Clip with these options.
    Run(Options),
}

/// Why the command line was refused.
#[derive(Debug, Clone, PartialEq, Eq)]
pub enum OptionsError {
    /// An option that needs a value came last.
    MissingValue(String),
    /// An argument the clipper does not know.
    Unknown(String),
    /// `--url`, `--start` or `--end` is missing (the option's name).
    Missing(String),
    /// The URL is not a Twitch VOD.
    NotAVod,
    /// A timestamp is refused.
    Timestamp(TimestampError),
    /// The end is not after the start.
    EndBeforeStart,
    /// The range is shorter than five seconds.
    TooShort,
}

/// The options read so far.
pub struct ArgState {
    pub url: Option<Seq<char>>,
    pub start: Option<Seq<char>>,
    pub end: Option<Seq<char>>,
    pub data_dir: Seq<char>,
    pub no_visuals: bool,
    pub no_audio: bool,
    pub no_chat: bool,
    pub publish: bool,
}

/// Where reading the arguments from `i` on ends: the state after the last argument, help, or
/// a refusal (with the offending option or argument).
pub enum ArgScan {
    Done(ArgState),
    Help,
    MissingValue(Seq<char>),
    Unknown(Seq<char>),
}

/// Reads the arguments from `i` on.
pub open spec fn scan_args(args: Seq<Seq<char>>, i: int, st: ArgState) -> ArgScan
    decreases args.len() - i,
{
    if i >= args.len() || i < 0 {
        ArgScan::Done(st)
    } else {
        let a = args[i];
        if a == "--url"@ || a == "--start"@ || a == "--end"@ || a == "--data-dir"@ {
            if i + 1 >= args.len() {
                ArgScan::MissingValue(a)
            } else {
                let v = args[i + 1];
                let next = if a == "--url"@ {
                    ArgState { url: Some(v), ..st }
                } else if a == "--start"@ {
                    ArgState { start: Some(v), ..st }
                } else if a == "--end"@ {
                    ArgState { end: Some(v), ..st }
                } else {
                    ArgState { data_dir: v, ..st }
                };
                scan_args(args, i + 2, next)
            }
        } else if a == "--no-visuals"@ {
            scan_args(args, i + 1, ArgState { no_visuals: true, ..st })
        } else if a == "--no-audio"@ {
            scan_args(args, i + 1, ArgState { no_audio: true, ..st })
        } else if a == "--no-chat"@ {
            scan_args(args, i + 1, ArgState { no_chat: true, ..st })
        } else if a == "--publish"@ {
            scan_args(args, i + 1, ArgState { publish: true, ..st })
        } else if a == "--help"@ || a == "-h"@ {
            ArgScan::Help
        } else {
            ArgScan::Unknown(a)
        }
    }
}

/// The state before any argument.
pub open spec fn initial_args() -> ArgState {
    ArgState {
        url: None,
        start: None,
        end: None,
        data_dir: "./data"@,
        no_visuals: false,
        no_audio: false,
        no_chat: false,
        publish: false,
    }
}

/// The view of the outcome of reading a command line.
pub enum InvocationView {
    Help,
    Run { url: Seq<char>, start_ms: i64, end_ms: i64, data_dir: Seq<char>, no_visuals: bool, no_audio: bool, no_chat: bool, publish: bool },
}

/// The error view.
pub enum OptionsErrorView {
    MissingValue(Seq<char>),
    Unknown(Seq<char>),
    Missing(Seq<char>),
    NotAVod,
    Timestamp(TimestampError),
    EndBeforeStart,
    TooShort,
}

/// What a command line asks for, or why it is refused: options are read left to right, then
/// the URL, start and end are required, the URL must be a Twitch VOD, both timestamps must
/// parse, and the range must run forward at least five seconds.
pub open spec fn spec_parse_options(args: Seq<Seq<char>>) -> Result<InvocationView, OptionsErrorView> {
    match scan_args(args, 0, initial_args()) {
        ArgScan::Help => Ok(InvocationView::Help),
        ArgScan::MissingValue(o) => Err(OptionsErrorView::MissingValue(o)),
        ArgScan::Unknown(a) => Err(OptionsErrorView::Unknown(a)),
        ArgScan::Done(st) => match st.url {
            None => Err(OptionsErrorView::Missing("--url"@)),
            Some(url) => if !twitch_vod_url(url) {
                Err(OptionsErrorView::NotAVod)
            } else {
                match st.start {
                    None => Err(OptionsErrorView::Missing("--start"@)),
                    Some(sv) => match spec_parse_timestamp(sv) {
                        Err(e) => Err(OptionsErrorView::Timestamp(e)),
                        Ok(start) => match st.end {
                            None => Err(OptionsErrorView::Missing("--end"@)),
                            Some(ev) => match spec_parse_timestamp(ev) {
                                Err(e) => Err(OptionsErrorView::Timestamp(e)),
                                Ok(end) => if end <= start {
                                    Err(OptionsErrorView::EndBeforeStart)
                                } else if end - start < 5_000 {
                                    Err(OptionsErrorView::TooShort)
                                } else {
                                    Ok(InvocationView::Run {
                                        url,
                                        start_ms: start,
                                        end_ms: end,
                                        data_dir: st.data_dir,
                                        no_visuals: st.no_visuals,
                                        no_audio: st.no_audio,
                                        no_chat: st.no_chat,
                                        publish: st.publish,
                                    })
                                },
                            },
                        },
                    },
                }
            },
        },
    }
}

impl View for Invocation {
    type V = InvocationView;

    open spec fn view(&self) -> InvocationView {
        match self {
            Invocation::Help => InvocationView::Help,
            Invocation::Run(o) => InvocationView::Run {
                url: o.url@,
                start_ms: o.start_ms,
                end_ms: o.end_ms,
                data_dir: o.data_dir@,
                no_visuals: o.no_visuals,
                no_audio: o.no_audio,
                no_chat: o.no_chat,
                publish: o.publish,
            },
        }
    }
}

impl View for OptionsError {
    type V = OptionsErrorView;

    open spec fn view(&self) -> OptionsErrorView {
        match self {
            OptionsError::MissingValue(o) => OptionsErrorView::MissingValue(o@),
            OptionsError::Unknown(a) => OptionsErrorView::Unknown(a@),
            OptionsError::Missing(o) => OptionsErrorView::Missing(o@),
            OptionsError::NotAVod => OptionsErrorView::NotAVod,
            OptionsError::Timestamp(e) => OptionsErrorView::Timestamp(*e),
            OptionsError::EndBeforeStart => OptionsErrorView::EndBeforeStart,
            OptionsError::TooShort => OptionsErrorView::TooShort,
        }
    }
}

/// The value after option `args[i]`, or which option lacks one.
pub fn next_value(args: &Vec<String>, i: usize, option: &str) -> (r: Result<String, String>)
    ensures
        i + 1 < args@.len() ==> (r matches Ok(v) && v@ == args@[i + 1]@),
        i + 1 >= args@.len() ==> (r matches Err(o) && o@ == option@),
{
    if i < args.len() && i + 1 < args.len() {
        Ok(args[i + 1].clone())
    } else {
        Err(option.to_owned())
    }
}

/// The arguments as character sequences.
pub open spec fn arg_views(args: Seq<String>) -> Seq<Seq<char>> {
    Seq::new(args.len(), |i: int| args[i]@)
}

impl Options {
    /// Reads the command line (without the program name).
    pub fn parse(args: &Vec<String>) -> (r: Result<Invocation, OptionsError>)
        ensures
            match spec_parse_options(arg_views(args@)) {
                Ok(v) => r matches Ok(inv) && inv@ == v,
                Err(e) => r matches Err(err) && err@ == e,
            },
    {
        let ghost all = arg_views(args@);
        let mut url: Option<String> = None;
        let mut start: Option<String> = None;
        let mut end: Option<String> = None;
        let mut data_dir: String = "./data".to_owned();
        let mut no_visuals = false;
        let mut no_audio = false;
        let mut no_chat = false;
        let mut publish = false;
        let mut i: usize = 0;
        while i < args.len()
            invariant
                all == arg_views(args@),
                i <= args@.len(),
                scan_args(all, 0, initial_args()) == scan_args(all, i as int, ArgState {
                    url: crate::domain::opt_view(url),
                    start: crate::domain::opt_view(start),
                    end: crate::domain::opt_view(end),
                    data_dir: data_dir@,
                    no_visuals,
                    no_audio,
                    no_chat,
                    publish,
                }),
            decreases args.len() - i,
        {
            let a = args[i].as_str();
            assert(all[i as int] == a@);
            if str_eq(a, "--url") || str_eq(a, "--start") || str_eq(a, "--end") || str_eq(a, "--data-dir") {
                let v = match next_value(args, i, a) {
                    Ok(v) => v,
                    Err(o) => return Err(OptionsError::MissingValue(o)),
                };
                assert(all[i + 1] == v@);
                if str_eq(a, "--url") {
                    url = Some(v);
                } else if str_eq(a, "--start") {
                    start = Some(v);
                } else if str_eq(a, "--end") {
                    end = Some(v);
                } else {
                    data_dir = v;
                }
                i = i + 2;
            } else if str_eq(a, "--no-visuals") {
                no_visuals = true;
                i = i + 1;
            } else if str_eq(a, "--no-audio") {
                no_audio = true;
                i = i + 1;
            } else if str_eq(a, "--no-chat") {
                no_chat = true;
                i = i + 1;
            } else if str_eq(a, "--publish") {
                publish = true;
                i = i + 1;
            } else if str_eq(a, "--help") || str_eq(a, "-h") {
                return Ok(Invocation::Help);
            } else {
                return Err(OptionsError::Unknown(a.to_owned()));
            }
        }
        let url = match url {
            None => return Err(OptionsError::Missing("--url".to_owned())),
            Some(u) => u,
        };
        if !(crate::text::str_starts_with(url.as_str(), "https://www.twitch.tv/videos/") || crate::text::str_starts_with(
            url.as_str(),
            "https://twitch.tv/videos/",
        )) {
            return Err(OptionsError::NotAVod);
        }
        let start_ms = match start {
            None => return Err(OptionsError::Missing("--start".to_owned())),
            Some(sv) => match parse_timestamp(sv.as_str()) {
                Err(e) => return Err(OptionsError::Timestamp(e)),
                Ok(t) => t,
            },
        };
        let end_ms = match end {
            None => return Err(OptionsError::Missing("--end".to_owned())),
            Some(ev) => match parse_timestamp(ev.as_str()) {
                Err(e) => return Err(OptionsError::Timestamp(e)),
                Ok(t) => t,
            },
        };
        if end_ms <= start_ms {
            return Err(OptionsError::EndBeforeStart);
        }
        if (end_ms as i128) - (start_ms as i128) < 5_000 {
            return Err(OptionsError::TooShort);
        }
        Ok(Invocation::Run(Options { url, start_ms, end_ms, data_dir, no_visuals, no_audio, no_chat, publish }))
    }
}

} // verus!
