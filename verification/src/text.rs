//! Character-level text helpers shared by the parsers and formatters:
//! whitespace trimming, decimal numbers, ASCII case folding and substring search.

use vstd::prelude::*;

verus! {

/// Unicode `White_Space` characters (what `char::is_whitespace` accepts).
pub open spec fn is_ws(c: char) -> bool {
    ||| ('\u{9}' <= c && c <= '\u{d}')
    ||| c == ' '
    ||| c == '\u{85}'
    ||| c == '\u{a0}'
    ||| c == '\u{1680}'
    ||| ('\u{2000}' <= c && c <= '\u{200a}')
    ||| c == '\u{2028}'
    ||| c == '\u{2029}'
    ||| c == '\u{202f}'
    ||| c == '\u{205f}'
    ||| c == '\u{3000}'
}

pub fn char_is_ws(c: char) -> (b: bool)
    ensures
        b == is_ws(c),
{
    ('\u{9}' <= c && c <= '\u{d}') || c == ' ' || c == '\u{85}' || c == '\u{a0}' || c == '\u{1680}'
        || ('\u{2000}' <= c && c <= '\u{200a}') || c == '\u{2028}' || c == '\u{2029}' || c
        == '\u{202f}' || c == '\u{205f}' || c == '\u{3000}'
}

/// The sequence with leading whitespace removed.
pub open spec fn trim_start(s: Seq<char>) -> Seq<char>
    decreases s.len(),
{
    if s.len() > 0 && is_ws(s[0]) {
        trim_start(s.drop_first())
    } else {
        s
    }
}

/// The sequence with trailing whitespace removed.
pub open spec fn trim_end(s: Seq<char>) -> Seq<char>
    decreases s.len(),
{
    if s.len() > 0 && is_ws(s.last()) {
        trim_end(s.drop_last())
    } else {
        s
    }
}

/// The sequence with whitespace removed from both ends (`str::trim`).
pub open spec fn trim(s: Seq<char>) -> Seq<char> {
    trim_end(trim_start(s))
}

/// The characters of a string slice, as a vector.
pub fn chars_of(s: &str) -> (v: Vec<char>)
    ensures
        v@ == s@,
{
    let n = s.unicode_len();
    let mut v: Vec<char> = Vec::new();
    let mut i: usize = 0;
    while i < n
        invariant
            n == s@.len(),
            i <= n,
            v@ == s@.subrange(0, i as int),
        decreases n - i,
    {
        let c = s.get_char(i);
        v.push(c);
        i = i + 1;
        assert(v@ =~= s@.subrange(0, i as int));
    }
    assert(v@ =~= s@);
    v
}

/// Calls std's `String::push`, trusted to append `c` to the characters of
/// `s` and change nothing else.
#[verifier::external_body]
pub(crate) fn push_char(s: &mut String, c: char)
    ensures
        final(s)@ == old(s)@.push(c),
{
    s.push(c);
}

/// A string holding `v[lo..hi]`.
pub fn string_from_range(v: &Vec<char>, lo: usize, hi: usize) -> (s: String)
    requires
        lo <= hi <= v@.len(),
    ensures
        s@ == v@.subrange(lo as int, hi as int),
{
    let mut s = String::new();
    let mut i = lo;
    while i < hi
        invariant
            lo <= i <= hi <= v@.len(),
            s@ == v@.subrange(lo as int, i as int),
        decreases hi - i,
    {
        push_char(&mut s, v[i]);
        i = i + 1;
        assert(s@ =~= v@.subrange(lo as int, i as int));
    }
    s
}

/// A string holding all of `v`.
pub fn string_from_chars(v: &Vec<char>) -> (s: String)
    ensures
        s@ == v@,
{
    let s = string_from_range(v, 0, v.len());
    assert(v@.subrange(0, v@.len() as int) =~= v@);
    s
}

/// Append the characters of a string slice to a string.
pub fn push_str(s: &mut String, t: &str)
    ensures
        final(s)@ == old(s)@ + t@,
{
    let v = chars_of(t);
    let mut i: usize = 0;
    let ghost start = s@;
    while i < v.len()
        invariant
            i <= v@.len(),
            v@ == t@,
            s@ == start + v@.subrange(0, i as int),
        decreases v@.len() - i,
    {
        push_char(s, v[i]);
        i = i + 1;
        assert(s@ =~= start + v@.subrange(0, i as int));
    }
    assert(v@.subrange(0, v@.len() as int) =~= v@);
}

/// Bounds `(lo, hi)` of the trimmed part of `v[from..to]`.
pub fn trim_bounds(v: &Vec<char>, from: usize, to: usize) -> (r: (usize, usize))
    requires
        from <= to <= v@.len(),
    ensures
        from <= r.0 <= r.1 <= to,
        v@.subrange(r.0 as int, r.1 as int) == trim(v@.subrange(from as int, to as int)),
{
    let mut lo = from;
    while lo < to && char_is_ws(v[lo])
        invariant
            from <= lo <= to <= v@.len(),
            trim_start(v@.subrange(from as int, to as int)) == trim_start(
                v@.subrange(lo as int, to as int),
            ),
        decreases to - lo,
    {
        assert(v@.subrange(lo as int, to as int).drop_first() =~= v@.subrange(
            lo + 1,
            to as int,
        ));
        lo = lo + 1;
    }
    let mut hi = to;
    while hi > lo && char_is_ws(v[hi - 1])
        invariant
            from <= lo <= hi <= to <= v@.len(),
            trim_end(v@.subrange(lo as int, to as int)) == trim_end(
                v@.subrange(lo as int, hi as int),
            ),
        decreases hi - lo,
    {
        assert(v@.subrange(lo as int, hi as int).drop_last() =~= v@.subrange(
            lo as int,
            hi - 1,
        ));
        hi = hi - 1;
    }
    (lo, hi)
}

/// Value of a decimal digit character.
pub open spec fn digit_val(c: char) -> int {
    (c as int) - ('0' as int)
}

pub open spec fn is_digit(c: char) -> bool {
    '0' <= c && c <= '9'
}

pub open spec fn all_digits(s: Seq<char>) -> bool {
    forall|i: int| 0 <= i < s.len() ==> is_digit(#[trigger] s[i])
}

/// The value of a string of decimal digits.
pub open spec fn digits_value(s: Seq<char>) -> int
    decreases s.len(),
{
    if s.len() == 0 {
        0
    } else {
        digits_value(s.drop_last()) * 10 + digit_val(s.last())
    }
}

/// What `str::parse::<i32>` returns: an optional sign, then one or more ASCII
/// digits, with the value in range.
pub open spec fn parse_i32(s: Seq<char>) -> Option<i32> {
    if s.len() == 0 {
        None
    } else {
        let neg = s[0] == '-';
        let body = if s[0] == '-' || s[0] == '+' { s.drop_first() } else { s };
        if body.len() == 0 || !all_digits(body) {
            None
        } else {
            let v = if neg { -digits_value(body) } else { digits_value(body) };
            if i32::MIN <= v <= i32::MAX { Some(v as i32) } else { None }
        }
    }
}

proof fn lemma_digits_value_nonneg(s: Seq<char>)
    requires
        all_digits(s),
    ensures
        digits_value(s) >= 0,
    decreases s.len(),
{
    if s.len() > 0 {
        lemma_digits_value_nonneg(s.drop_last());
    }
}

/// Parse `v[lo..hi]` as an `i32` exactly as `str::parse::<i32>` does.
pub fn parse_i32_range(v: &Vec<char>, lo: usize, hi: usize) -> (r: Option<i32>)
    requires
        lo <= hi <= v@.len(),
    ensures
        r == parse_i32(v@.subrange(lo as int, hi as int)),
{
    let ghost s = v@.subrange(lo as int, hi as int);
    if lo == hi {
        return None;
    }
    let neg = v[lo] == '-';
    let start = if v[lo] == '-' || v[lo] == '+' { lo + 1 } else { lo };
    let ghost body = v@.subrange(start as int, hi as int);
    assert(body =~= (if s[0] == '-' || s[0] == '+' { s.drop_first() } else { s }));
    if start == hi {
        return None;
    }
    // Saturate the magnitude just above the largest one that fits.
    let cap: i64 = 2147483649;
    let mut acc: i64 = 0;
    let mut i = start;
    while i < hi
        invariant
            lo <= start <= i <= hi <= v@.len(),
            body == v@.subrange(start as int, hi as int),
            s == v@.subrange(lo as int, hi as int),
            s.len() > 0,
            neg == (s[0] == '-'),
            body == (if s[0] == '-' || s[0] == '+' { s.drop_first() } else { s }),
            all_digits(v@.subrange(start as int, i as int)),
            0 <= acc <= cap,
            cap == 2147483649,
            acc == (if digits_value(v@.subrange(start as int, i as int)) < cap {
                digits_value(v@.subrange(start as int, i as int))
            } else {
                cap as int
            }),
        decreases hi - i,
    {
        let c = v[i];
        if !('0' <= c && c <= '9') {
            assert(body[i - start] == c);
            assert(!is_digit(body[i - start]));
            return None;
        }
        let d = (c as u32 - '0' as u32) as i64;
        let ghost pre = v@.subrange(start as int, i as int);
        let ghost next = v@.subrange(start as int, i + 1);
        assert(next.drop_last() =~= pre);
        assert(next.last() == c);
        proof {
            lemma_digits_value_nonneg(pre);
        }
        let t = acc * 10 + d;
        acc = if t < cap { t } else { cap };
        i = i + 1;
        assert(all_digits(v@.subrange(start as int, i as int))) by {
            assert forall|k: int| 0 <= k < next.len() implies is_digit(#[trigger] next[k]) by {
                if k < pre.len() {
                    assert(next[k] == pre[k]);
                }
            }
        }
    }
    assert(v@.subrange(start as int, i as int) =~= body);
    if neg {
        if acc <= 2147483648 {
            Some((-acc) as i32)
        } else {
            None
        }
    } else {
        if acc <= 2147483647 {
            Some(acc as i32)
        } else {
            None
        }
    }
}

/// Decimal digits of a natural number (no sign, no leading zeros).
pub open spec fn nat_digits(n: nat) -> Seq<char>
    decreases n,
{
    if n < 10 {
        seq![(('0' as int) + n) as char]
    } else {
        nat_digits(n / 10).push((('0' as int) + (n % 10)) as char)
    }
}

/// The digits of a natural number are digits, at least one, and read back as the number.
pub proof fn lemma_nat_digits(n: nat)
    ensures
        all_digits(nat_digits(n)),
        nat_digits(n).len() >= 1,
        digits_value(nat_digits(n)) == n,
    decreases n,
{
    let s = nat_digits(n);
    if n >= 10 {
        lemma_nat_digits(n / 10);
        let p = nat_digits(n / 10);
        let c = (('0' as int) + (n % 10)) as char;
        assert(s == p.push(c));
        assert(s.drop_last() =~= p);
        assert(s.last() == c);
        assert(digit_val(c) == n % 10);
        assert((n / 10) * 10 + n % 10 == n);
        assert(digits_value(s) == digits_value(p) * 10 + digit_val(c));
        assert forall|i: int| 0 <= i < s.len() implies is_digit(#[trigger] s[i]) by {
            if i < p.len() {
                assert(s[i] == p[i]);
            }
        }
    } else {
        let c = (('0' as int) + n) as char;
        assert(s == seq![c]);
        assert(s.drop_last() =~= Seq::<char>::empty());
        assert(digit_val(c) == n);
        assert(digits_value(s) == digits_value(Seq::<char>::empty()) * 10 + digit_val(c));
    }
}

/// Reading back the decimal text of an `i32` gives the number.
pub proof fn lemma_int_text_parses(v: i32)
    ensures
        parse_i32(int_text(v as int)) == Some(v),
        forall|i: int| 0 <= i < int_text(v as int).len() ==> {
            let c = #[trigger] int_text(v as int)[i];
            is_digit(c) || c == '-'
        },
{
    if v < 0 {
        let m = (-(v as int)) as nat;
        lemma_nat_digits(m);
        let t = int_text(v as int);
        assert(t == seq!['-'] + nat_digits(m));
        assert(t.drop_first() =~= nat_digits(m));
        assert forall|i: int| 0 <= i < t.len() implies (is_digit(#[trigger] t[i]) || t[i] == '-') by {
            if i > 0 {
                assert(t[i] == nat_digits(m)[i - 1]);
            }
        }
    } else {
        lemma_nat_digits(v as nat);
        let t = int_text(v as int);
        assert(is_digit(t[0]));
    }
}

/// Text with no whitespace at all is its own trim.
pub proof fn lemma_trim_no_ws(s: Seq<char>)
    requires
        forall|i: int| 0 <= i < s.len() ==> !is_ws(#[trigger] s[i]),
    ensures
        trim(s) == s,
{
    if s.len() > 0 {
        assert(!is_ws(s[0]));
        assert(!is_ws(s.last()));
    }
}

/// The decimal text of an integer, as `Display` writes it.
pub open spec fn int_text(v: int) -> Seq<char> {
    if v < 0 {
        seq!['-'] + nat_digits((-v) as nat)
    } else {
        nat_digits(v as nat)
    }
}

/// Append the decimal digits of `n`.
pub(crate) fn push_nat_digits(s: &mut String, n: u64)
    ensures
        final(s)@ == old(s)@ + nat_digits(n as nat),
    decreases n,
{
    if n >= 10 {
        push_nat_digits(s, n / 10);
    }
    let d = (n % 10) as u8;
    let c = (48u8 + d) as char;
    push_char(s, c);
    assert(final(s)@ =~= old(s)@ + nat_digits(n as nat)) by {
        if n >= 10 {
            assert(nat_digits(n as nat) == nat_digits((n / 10) as nat).push(
                (('0' as int) + (n % 10)) as char,
            ));
        }
    }
}

/// Append the decimal text of `v`.
pub fn push_int(s: &mut String, v: i64)
    ensures
        final(s)@ == old(s)@ + int_text(v as int),
{
    if v < 0 {
        push_char(s, '-');
        let m: u64 = if v == i64::MIN { 9223372036854775808u64 } else { (-v) as u64 };
        push_nat_digits(s, m);
        assert(final(s)@ =~= old(s)@ + int_text(v as int));
    } else {
        push_nat_digits(s, v as u64);
    }
}

/// Pad `t` on the left with spaces to at least `w` characters (`{:>w}`).
pub open spec fn pad_left(t: Seq<char>, w: nat) -> Seq<char> {
    if t.len() >= w {
        t
    } else {
        Seq::new((w - t.len()) as nat, |i: int| ' ') + t
    }
}

/// Pad `t` on the right with spaces to at least `w` characters (`{:w}` for text).
pub open spec fn pad_right(t: Seq<char>, w: nat) -> Seq<char> {
    if t.len() >= w {
        t
    } else {
        t + Seq::new((w - t.len()) as nat, |i: int| ' ')
    }
}

/// Append `n` spaces.
pub fn push_spaces(s: &mut String, n: usize)
    ensures
        final(s)@ == old(s)@ + Seq::new(n as nat, |i: int| ' '),
{
    let ghost start = s@;
    let mut i: usize = 0;
    while i < n
        invariant
            i <= n,
            s@ == start + Seq::new(i as nat, |k: int| ' '),
        decreases n - i,
    {
        push_char(s, ' ');
        i = i + 1;
        assert(s@ =~= start + Seq::new(i as nat, |k: int| ' '));
    }
}

/// The text of an integer, as a fresh string.
pub fn int_string(v: i64) -> (s: String)
    ensures
        s@ == int_text(v as int),
{
    let mut s = String::new();
    push_int(&mut s, v);
    assert(s@ =~= int_text(v as int));
    s
}

/// The decimal text of an unsigned number, as a fresh string.
pub fn nat_string(n: u64) -> (s: String)
    ensures
        s@ == nat_digits(n as nat),
{
    let mut s = String::new();
    push_nat_digits(&mut s, n);
    assert(s@ =~= nat_digits(n as nat));
    s
}

/// Append `t` right-aligned in a field of width `w`.
pub fn push_padded_left(s: &mut String, t: &String, w: usize)
    ensures
        final(s)@ == old(s)@ + pad_left(t@, w as nat),
{
    let tv = chars_of(t.as_str());
    if tv.len() < w {
        push_spaces(s, w - tv.len());
    }
    push_str(s, t.as_str());
    assert(final(s)@ =~= old(s)@ + pad_left(t@, w as nat));
}

/// Append `t` left-aligned in a field of width `w`.
pub fn push_padded_right(s: &mut String, t: &String, w: usize)
    ensures
        final(s)@ == old(s)@ + pad_right(t@, w as nat),
{
    let tv = chars_of(t.as_str());
    push_str(s, t.as_str());
    if tv.len() < w {
        push_spaces(s, w - tv.len());
    }
    assert(final(s)@ =~= old(s)@ + pad_right(t@, w as nat));
}

/// ASCII lower-casing of one character (`char::to_ascii_lowercase`).
pub open spec fn ascii_lower(c: char) -> char {
    if 'A' <= c && c <= 'Z' {
        ((c as int) + 32) as char
    } else {
        c
    }
}

pub open spec fn lower_seq(s: Seq<char>) -> Seq<char> {
    s.map_values(|c: char| ascii_lower(c))
}

/// Lower-casing twice is lower-casing once.
pub proof fn lemma_lower_idempotent(s: Seq<char>)
    ensures
        lower_seq(lower_seq(s)) == lower_seq(s),
{
    assert forall|i: int| 0 <= i < s.len() implies #[trigger] lower_seq(lower_seq(s))[i] == lower_seq(s)[i] by {
        let c = s[i];
        if 'A' <= c && c <= 'Z' {
            let l = ((c as int) + 32) as char;
            assert(l as int == (c as int) + 32);
            assert(!('A' <= l && l <= 'Z'));
        }
    }
    assert(lower_seq(lower_seq(s)) =~= lower_seq(s));
}

pub fn char_ascii_lower(c: char) -> (r: char)
    ensures
        r == ascii_lower(c),
{
    if 'A' <= c && c <= 'Z' {
        ((c as u8) + 32) as char
    } else {
        c
    }
}

/// The ASCII-lower-cased characters of a string slice (`str::to_ascii_lowercase`).
pub fn lowercase_chars(s: &str) -> (v: Vec<char>)
    ensures
        v@ == lower_seq(s@),
{
    let src = chars_of(s);
    let mut v: Vec<char> = Vec::new();
    let mut i: usize = 0;
    while i < src.len()
        invariant
            i <= src@.len(),
            src@ == s@,
            v@ == lower_seq(src@.subrange(0, i as int)),
        decreases src@.len() - i,
    {
        v.push(char_ascii_lower(src[i]));
        i = i + 1;
        assert(v@ =~= lower_seq(src@.subrange(0, i as int)));
    }
    assert(src@.subrange(0, src@.len() as int) =~= src@);
    v
}

/// Does `pat` occur in `s` starting at position `i`?
pub open spec fn occurs_at(s: Seq<char>, pat: Seq<char>, i: int) -> bool {
    0 <= i && i + pat.len() <= s.len() && s.subrange(i, i + pat.len()) == pat
}

/// Does `pat` occur anywhere in `s` (`str::contains`)?
pub open spec fn contains_seq(s: Seq<char>, pat: Seq<char>) -> bool {
    exists|i: int| occurs_at(s, pat, i)
}

/// Substring search on characters.
pub fn vec_contains(s: &Vec<char>, pat: &str) -> (b: bool)
    ensures
        b == contains_seq(s@, pat@),
{
    let p = chars_of(pat);
    let n = s.len();
    let m = p.len();
    if m > n {
        assert forall|i: int| !occurs_at(s@, pat@, i) by {}
        return false;
    }
    let mut i: usize = 0;
    while i <= n - m
        invariant
            m <= n,
            n == s@.len(),
            m == p@.len(),
            p@ == pat@,
            i <= n - m + 1,
            forall|k: int| 0 <= k < i ==> !occurs_at(s@, pat@, k),
        decreases n - m + 1 - i,
    {
        let mut j: usize = 0;
        let mut ok = true;
        while j < m
            invariant
                j <= m,
                i + m <= n,
                n == s@.len(),
                m == p@.len(),
                ok == (forall|k: int| 0 <= k < j ==> s@[i + k] == p@[k]),
            decreases m - j,
        {
            if s[i + j] != p[j] {
                ok = false;
            }
            j = j + 1;
        }
        if ok {
            assert(s@.subrange(i as int, i + m) =~= pat@);
            assert(occurs_at(s@, pat@, i as int));
            return true;
        }
        proof {
            if occurs_at(s@, pat@, i as int) {
                let k0 = choose|k: int| 0 <= k < m && s@[i + k] != p@[k];
                assert(s@.subrange(i as int, i + m)[k0] == s@[i + k0]);
            }
        }
        i = i + 1;
    }
    assert forall|k: int| !occurs_at(s@, pat@, k) by {
        if 0 <= k && k + m <= n {
            assert(k < i);
        }
    }
    false
}

/// Are the characters exactly those of `lit`?
pub fn chars_equal(v: &Vec<char>, lit: &str) -> (b: bool)
    ensures
        b == (v@ == lit@),
{
    let p = chars_of(lit);
    if v.len() != p.len() {
        return false;
    }
    let mut i: usize = 0;
    while i < v.len()
        invariant
            i <= v@.len(),
            v@.len() == p@.len(),
            p@ == lit@,
            forall|k: int| 0 <= k < i ==> v@[k] == p@[k],
        decreases v@.len() - i,
    {
        if v[i] != p[i] {
            assert(v@[i as int] != lit@[i as int]);
            return false;
        }
        i = i + 1;
    }
    assert(v@ =~= lit@);
    true
}

} // verus!
