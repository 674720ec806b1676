//! Dice expressions, matching Rogue's `"NxM"` damage-string format.
//!
//! Rogue 5.4.2 expresses damage as strings like `"1x8"` (roll 1d8) or
//! `"2x4/1x6"` (two separate attacks: 2d4 and 1d6). This module parses that
//! exact format and writes it back.

use vstd::prelude::*;
use crate::text::{
    chars_of, int_text, is_digit, is_ws, lemma_int_text_parses, lemma_trim_no_ws, parse_i32,
    parse_i32_range, push_char, push_int, string_from_chars, string_from_range, trim, trim_bounds,
};

verus! {

/// A single `NxM` dice term: roll `count` dice each with `sides` faces.
#[derive(Debug, Clone, Copy, PartialEq, Eq, Structural)]
pub struct Dice {
    pub count: i32,
    pub sides: i32,
}

/// Sum of a sequence of die results.
pub open spec fn sum_seq(s: Seq<i32>) -> int
    decreases s.len(),
{
    if s.len() == 0 {
        0
    } else {
        sum_seq(s.drop_last()) + s.last()
    }
}

/// Characters that separate the count from the number of sides.
pub open spec fn is_dice_sep(c: char) -> bool {
    c == 'x' || c == 'd' || c == 'X' || c == 'D'
}

/// `i` is the position of the first separator in `t`.
pub open spec fn first_sep_at(t: Seq<char>, i: int) -> bool {
    0 <= i < t.len() && is_dice_sep(t[i]) && forall|j: int| 0 <= j < i ==> !is_dice_sep(t[j])
}

/// The dice term a text denotes, as `Dice::from_str` reads it: the text is
/// trimmed, split at its first separator, and each side is trimmed and read as
/// an `i32`.
pub open spec fn dice_from_text(s: Seq<char>) -> Option<Dice> {
    let t = trim(s);
    if exists|i: int| first_sep_at(t, i) {
        let i = choose|i: int| first_sep_at(t, i);
        let c = parse_i32(trim(t.subrange(0, i)));
        let d = parse_i32(trim(t.subrange(i + 1, t.len() as int)));
        if c is Some && d is Some {
            Some(Dice { count: c->0, sides: d->0 })
        } else {
            None
        }
    } else {
        None
    }
}

/// The pieces of a text between `/` separators (`str::split('/')`).
pub open spec fn pieces_of(s: Seq<char>) -> Seq<Seq<char>>
    decreases s.len(),
{
    if s.len() == 0 {
        seq![Seq::<char>::empty()]
    } else {
        let p = pieces_of(s.drop_last());
        if s.last() == '/' {
            p.push(Seq::<char>::empty())
        } else {
            p.update(p.len() - 1, p[p.len() - 1].push(s.last()))
        }
    }
}

/// The terms of a damage text, piece by piece: empty pieces are skipped and the
/// first piece that is no dice term is the error.
pub open spec fn damage_terms(pieces: Seq<Seq<char>>) -> Result<Seq<Dice>, Seq<char>>
    decreases pieces.len(),
{
    if pieces.len() == 0 {
        Ok(Seq::empty())
    } else {
        match damage_terms(pieces.drop_last()) {
            Err(e) => Err(e),
            Ok(ds) => {
                let t = trim(pieces.last());
                if t.len() == 0 {
                    Ok(ds)
                } else {
                    match dice_from_text(t) {
                        None => Err(trim(t)),
                        Some(d) => Ok(ds.push(d)),
                    }
                }
            },
        }
    }
}

/// What `DamageRoll::from_str` gives for a text: its terms, or the offending
/// text; a text with no terms at all is refused as a whole.
pub open spec fn damage_from_text(s: Seq<char>) -> Result<Seq<Dice>, Seq<char>> {
    match damage_terms(pieces_of(s)) {
        Err(e) => Err(e),
        Ok(ds) => if ds.len() == 0 {
            Err(s)
        } else {
            Ok(ds)
        },
    }
}

/// The text of one term, `"{count}x{sides}"`.
pub open spec fn dice_text(d: Dice) -> Seq<char> {
    int_text(d.count as int) + seq!['x'] + int_text(d.sides as int)
}

/// The text of a list of terms joined by `/`.
pub open spec fn damage_text(ds: Seq<Dice>) -> Seq<char>
    decreases ds.len(),
{
    if ds.len() == 0 {
        Seq::empty()
    } else if ds.len() == 1 {
        dice_text(ds[0])
    } else {
        damage_text(ds.drop_last()) + seq!['/'] + dice_text(ds.last())
    }
}

proof fn lemma_pieces_nonempty(s: Seq<char>)
    ensures
        pieces_of(s).len() >= 1,
    decreases s.len(),
{
    if s.len() > 0 {
        lemma_pieces_nonempty(s.drop_last());
    }
}

impl Dice {
    pub fn new(count: i32, sides: i32) -> (d: Dice)
        ensures
            d.count == count,
            d.sides == sides,
    {
        Dice { count, sides }
    }

    /// Roll using a closure meant to yield a uniform value in `1..=sides`: the
    /// result is the sum of what one call per die (each given `sides`)
    /// returns, whatever that is. Each possible output, taken once per die,
    /// must stay within `i32`, so that the sum cannot overflow.
    pub fn roll_with<F: Fn(i32) -> i32>(&self, rng: F) -> (total: i32)
        requires
            self.count > 0 ==> call_requires(rng, (self.sides,)),
            self.count > 0 ==> forall|y: i32|
                call_ensures(rng, (self.sides,), y) ==> i32::MIN <= self.count * y <= i32::MAX,
        ensures
            self.count <= 0 ==> total == 0,
            self.count > 0 ==> exists|outs: Seq<i32>|
                {
                    &&& outs.len() == self.count
                    &&& forall|k: int|
                        0 <= k < outs.len() ==> call_ensures(rng, (self.sides,), #[trigger] outs[k])
                    &&& total == sum_seq(outs)
                },
            self.count > 0 && (forall|y: i32| call_ensures(rng, (self.sides,), y) ==> 1 <= y <= self.sides)
                ==> self.count <= total <= self.count * self.sides,
    {
        let mut total: i32 = 0;
        let mut i: i32 = 0;
        let ghost mut outs: Seq<i32> = Seq::empty();
        let ghost in_faces = forall|y: i32| call_ensures(rng, (self.sides,), y) ==> 1 <= y <= self.sides;
        while i < self.count
            invariant
                self.count > 0 ==> call_requires(rng, (self.sides,)),
                self.count > 0 ==> forall|y: i32|
                    call_ensures(rng, (self.sides,), y) ==> i32::MIN <= self.count * y <= i32::MAX,
                in_faces == forall|y: i32| call_ensures(rng, (self.sides,), y) ==> 1 <= y <= self.sides,
                0 <= i,
                self.count > 0 ==> i <= self.count,
                self.count <= 0 ==> i == 0,
                outs.len() == i,
                forall|k: int| 0 <= k < outs.len() ==> call_ensures(rng, (self.sides,), #[trigger] outs[k]),
                total == sum_seq(outs),
                i * i32::MIN <= self.count * total <= i * i32::MAX,
                in_faces ==> i <= total <= i * self.sides,
            decreases self.count - i,
        {
            let y = rng(self.sides);
            proof {
                let c = self.count as int;
                let tt = total as int;
                let yy = y as int;
                let ii = i as int;
                assert(c * (tt + yy) == c * tt + c * yy) by (nonlinear_arith);
                assert((ii + 1) * i32::MIN == ii * i32::MIN + i32::MIN) by (nonlinear_arith);
                assert((ii + 1) * i32::MAX == ii * i32::MAX + i32::MAX) by (nonlinear_arith);
                assert(c * (tt + yy) <= c * i32::MAX) by (nonlinear_arith)
                    requires c * (tt + yy) <= (ii + 1) * i32::MAX, ii + 1 <= c, c > 0;
                assert(c * (tt + yy) >= c * i32::MIN) by (nonlinear_arith)
                    requires c * (tt + yy) >= (ii + 1) * i32::MIN, ii + 1 <= c, c > 0;
                assert(tt + yy <= i32::MAX) by (nonlinear_arith)
                    requires c * (tt + yy) <= c * i32::MAX, c > 0;
                assert(tt + yy >= i32::MIN) by (nonlinear_arith)
                    requires c * (tt + yy) >= c * i32::MIN, c > 0;
                if in_faces {
                    assert((ii + 1) * self.sides == ii * self.sides + self.sides) by (nonlinear_arith);
                }
                let old_outs = outs;
                outs = outs.push(y);
                assert(outs.drop_last() =~= old_outs);
            }
            total = total + y;
            i = i + 1;
        }
        total
    }

    pub fn max(&self) -> (m: i32)
        requires
            i32::MIN <= self.count * self.sides <= i32::MAX,
        ensures
            m == self.count * self.sides,
    {
        self.count * self.sides
    }

    /// Twice the expected value of a roll, `count * (sides + 1)`: the average is
    /// this divided by two.
    pub fn doubled_average(&self) -> (a: i64)
        ensures
            a == self.count * (self.sides + 1),
    {
        proof {
            assert(-2147483648 * 2147483648 <= self.count * (self.sides + 1) <= 2147483648 * 2147483648)
                by (nonlinear_arith)
                requires
                    -2147483648 <= self.count <= 2147483647,
                    -2147483647 <= self.sides + 1 <= 2147483648,
            ;
        }
        (self.count as i64) * (self.sides as i64 + 1)
    }

    /// Read a dice term from a string, as `str::parse::<Dice>` does.
    pub fn parse_text(s: &str) -> (r: Result<Dice, DiceParseError>)
        ensures
            match r {
                Ok(d) => dice_from_text(s@) == Some(d),
                Err(e) => dice_from_text(s@) is None && e.0@ == trim(s@),
            },
    {
        let v = chars_of(s);
        let (od, lo, hi) = dice_in_range(&v, 0, v.len());
        assert(v@.subrange(0, v@.len() as int) =~= s@);
        match od {
            Some(d) => Ok(d),
            None => Err(DiceParseError(string_from_range(&v, lo, hi))),
        }
    }

    /// The term written back as `"{count}x{sides}"`.
    pub fn to_text(&self) -> (s: String)
        ensures
            s@ == dice_text(*self),
    {
        let mut s = String::new();
        push_dice(&mut s, self);
        assert(s@ =~= dice_text(*self));
        s
    }
}

fn push_dice(s: &mut String, d: &Dice)
    ensures
        final(s)@ == old(s)@ + dice_text(*d),
{
    push_int(s, d.count as i64);
    push_char(s, 'x');
    push_int(s, d.sides as i64);
    assert(final(s)@ =~= old(s)@ + dice_text(*d));
}

/// Parse the dice term in `v[from..to]`; also gives the bounds of the trimmed text.
fn dice_in_range(v: &Vec<char>, from: usize, to: usize) -> (r: (Option<Dice>, usize, usize))
    requires
        from <= to <= v@.len(),
    ensures
        r.0 == dice_from_text(v@.subrange(from as int, to as int)),
        r.1 <= r.2 <= v@.len(),
        v@.subrange(r.1 as int, r.2 as int) == trim(v@.subrange(from as int, to as int)),
{
    let (lo, hi) = trim_bounds(v, from, to);
    let ghost t = v@.subrange(lo as int, hi as int);
    let mut i = lo;
    while i < hi && !(v[i] == 'x' || v[i] == 'd' || v[i] == 'X' || v[i] == 'D')
        invariant
            lo <= i <= hi <= v@.len(),
            t == v@.subrange(lo as int, hi as int),
            forall|j: int| 0 <= j < i - lo ==> !is_dice_sep(#[trigger] t[j]),
        decreases hi - i,
    {
        i = i + 1;
    }
    if i == hi {
        assert forall|k: int| !first_sep_at(t, k) by {
            if 0 <= k < t.len() {
                assert(!is_dice_sep(t[k]));
            }
        }
        return (None, lo, hi);
    }
    let ghost k = (i - lo) as int;
    assert(first_sep_at(t, k));
    assert forall|k2: int| first_sep_at(t, k2) implies k2 == k by {
        if k2 < k {
            assert(!is_dice_sep(t[k2]));
        }
        if k < k2 {
            assert(!is_dice_sep(t[k]));
        }
    }
    let (a1, b1) = trim_bounds(v, lo, i);
    let (a2, b2) = trim_bounds(v, i + 1, hi);
    assert(t.subrange(0, k) =~= v@.subrange(lo as int, i as int));
    assert(t.subrange(k + 1, t.len() as int) =~= v@.subrange(i + 1, hi as int));
    let c = parse_i32_range(v, a1, b1);
    let d = parse_i32_range(v, a2, b2);
    match (c, d) {
        (Some(c), Some(d)) => (Some(Dice::new(c, d)), lo, hi),
        _ => (None, lo, hi),
    }
}

/// One or more dice terms separated by `/`, e.g. `"2x4/1x6"`.
#[derive(Debug, Clone, PartialEq, Eq)]
pub struct DamageRoll(pub Vec<Dice>);

impl DamageRoll {
    pub fn terms(&self) -> (t: &[Dice])
        ensures
            t@ == self.0@,
    {
        self.0.as_slice()
    }

    /// Twice the expected total of all terms.
    pub fn doubled_average(&self) -> (a: i128)
        ensures
            a == sum_doubled_average(self.0@),
    {
        let mut a: i128 = 0;
        let mut i: usize = 0;
        while i < self.0.len()
            invariant
                i <= self.0@.len(),
                a == sum_doubled_average(self.0@.subrange(0, i as int)),
                -(i as int) * 4611686018427387904 <= a <= (i as int) * 4611686018427387904,
            decreases self.0@.len() - i,
        {
            let t = self.0[i].doubled_average();
            assert(self.0@.subrange(0, i + 1).drop_last() =~= self.0@.subrange(0, i as int));
            proof {
                let d = self.0@[i as int];
                assert(-4611686018427387904 <= d.count * (d.sides + 1) <= 4611686018427387904)
                    by (nonlinear_arith)
                    requires
                        -2147483648 <= d.count <= 2147483647,
                        -2147483647 <= d.sides + 1 <= 2147483648,
                ;
            }
            a = a + t as i128;
            i = i + 1;
        }
        assert(self.0@.subrange(0, self.0@.len() as int) =~= self.0@);
        a
    }

    /// Read a damage expression from a string, as `str::parse::<DamageRoll>` does.
    pub fn parse_text(s: &str) -> (r: Result<DamageRoll, DiceParseError>)
        ensures
            match r {
                Ok(d) => damage_from_text(s@) == Ok::<Seq<Dice>, Seq<char>>(d.0@),
                Err(e) => damage_from_text(s@) == Err::<Seq<Dice>, Seq<char>>(e.0@),
            },
    {
        let v = chars_of(s);
        let n = v.len();
        let mut dice: Vec<Dice> = Vec::new();
        let mut start: usize = 0;
        let mut j: usize = 0;
        let ghost mut done: Seq<Seq<char>> = Seq::empty();
        assert(v@.subrange(0, 0) =~= Seq::<char>::empty());
        assert(pieces_of(v@.subrange(0, 0)) =~= done.push(v@.subrange(0, 0)));
        while j < n
            invariant
                n == v@.len(),
                v@ == s@,
                start <= j <= n,
                pieces_of(v@.subrange(0, j as int)) == done.push(v@.subrange(start as int, j as int)),
                damage_terms(done) == Ok::<Seq<Dice>, Seq<char>>(dice@),
            decreases n - j,
        {
            let ghost cur = v@.subrange(start as int, j as int);
            let ghost pre = v@.subrange(0, j as int);
            let ghost nxt = v@.subrange(0, j + 1);
            assert(nxt.drop_last() =~= pre);
            assert(nxt.last() == v@[j as int]);
            if v[j] == '/' {
                let ghost p = done.push(cur);
                assert(p.drop_last() =~= done);
                assert(p.last() == cur);
                match take_piece(&v, start, j, &mut dice) {
                    Some(e) => {
                        proof {
                            assert(damage_terms(p) == Err::<Seq<Dice>, Seq<char>>(e.0@));
                            lemma_pieces_prefix(v@, j as int, n as int);
                            let all = pieces_of(v@.subrange(0, n as int));
                            let q = all.subrange(p.len() as int, all.len() as int);
                            assert(all =~= p + q);
                            lemma_damage_terms_err_prefix(p, q, e.0@);
                            assert(v@.subrange(0, n as int) =~= v@);
                        }
                        return Err(e);
                    },
                    None => {},
                }
                proof {
                    done = done.push(cur);
                    assert(pieces_of(nxt) =~= done.push(Seq::<char>::empty()));
                }
                start = j + 1;
                assert(v@.subrange(start as int, j + 1) =~= Seq::<char>::empty());
            } else {
                proof {
                    lemma_pieces_nonempty(pre);
                    assert(v@.subrange(start as int, j + 1) =~= cur.push(v@[j as int]));
                    assert(pieces_of(nxt) =~= done.push(cur.push(v@[j as int])));
                }
            }
            j = j + 1;
        }
        assert(v@.subrange(0, n as int) =~= v@);
        let ghost cur = v@.subrange(start as int, n as int);
        let ghost p = done.push(cur);
        assert(p.drop_last() =~= done);
        assert(p.last() == cur);
        match take_piece(&v, start, n, &mut dice) {
            Some(e) => {
                return Err(e);
            },
            None => {},
        }
        if dice.len() == 0 {
            return Err(DiceParseError(string_from_chars(&v)));
        }
        Ok(DamageRoll(dice))
    }

    /// The expression written back with its terms joined by `/`.
    pub fn to_text(&self) -> (s: String)
        ensures
            s@ == damage_text(self.0@),
    {
        let mut s = String::new();
        let mut i: usize = 0;
        while i < self.0.len()
            invariant
                i <= self.0@.len(),
                s@ == damage_text(self.0@.subrange(0, i as int)),
            decreases self.0@.len() - i,
        {
            let ghost pre = s@;
            if i > 0 {
                push_char(&mut s, '/');
            }
            push_dice(&mut s, &self.0[i]);
            let ghost nxt = self.0@.subrange(0, i + 1);
            assert(nxt.drop_last() =~= self.0@.subrange(0, i as int));
            assert(nxt.last() == self.0@[i as int]);
            proof {
                if i == 0 {
                    assert(pre =~= Seq::<char>::empty());
                    assert(s@ =~= damage_text(nxt));
                } else {
                    assert(s@ =~= damage_text(nxt));
                }
            }
            i = i + 1;
        }
        assert(self.0@.subrange(0, self.0@.len() as int) =~= self.0@);
        s
    }
}

/// Twice the expected total of a list of terms.
pub open spec fn sum_doubled_average(ds: Seq<Dice>) -> int
    decreases ds.len(),
{
    if ds.len() == 0 {
        0
    } else {
        sum_doubled_average(ds.drop_last()) + ds.last().count * (ds.last().sides + 1)
    }
}

/// Handle the piece `v[from..to]`: a blank piece is skipped, a term is pushed, and
/// anything else is returned as the error.
fn take_piece(v: &Vec<char>, from: usize, to: usize, dice: &mut Vec<Dice>) -> (r: Option<
    DiceParseError,
>)
    requires
        from <= to <= v@.len(),
    ensures
        ({
            let t = trim(v@.subrange(from as int, to as int));
            if t.len() == 0 {
                r is None && final(dice)@ == old(dice)@
            } else {
                match dice_from_text(t) {
                    None => r matches Some(e) && e.0@ == trim(t) && final(dice)@ == old(dice)@,
                    Some(d) => r is None && final(dice)@ == old(dice)@.push(d),
                }
            }
        }),
{
    let (a, b) = trim_bounds(v, from, to);
    if a == b {
        return None;
    }
    let (od, x, y) = dice_in_range(v, a, b);
    match od {
        None => Some(DiceParseError(string_from_range(v, x, y))),
        Some(d) => {
            dice.push(d);
            None
        },
    }
}

/// An error from the leading pieces is the error of every longer list of pieces.
proof fn lemma_damage_terms_err_prefix(p: Seq<Seq<char>>, q: Seq<Seq<char>>, e: Seq<char>)
    requires
        damage_terms(p) == Err::<Seq<Dice>, Seq<char>>(e),
    ensures
        damage_terms(p + q) == Err::<Seq<Dice>, Seq<char>>(e),
    decreases q.len(),
{
    if q.len() == 0 {
        assert(p + q =~= p);
    } else {
        lemma_damage_terms_err_prefix(p, q.drop_last(), e);
        assert((p + q).drop_last() =~= p + q.drop_last());
    }
}

/// Once a `/` has been read at position `j`, the pieces before it never change.
proof fn lemma_pieces_prefix(s: Seq<char>, j: int, k: int)
    requires
        0 <= j < k <= s.len(),
        s[j] == '/',
    ensures
        pieces_of(s.subrange(0, k)).len() > pieces_of(s.subrange(0, j)).len(),
        pieces_of(s.subrange(0, k)).subrange(0, pieces_of(s.subrange(0, j)).len() as int)
            == pieces_of(s.subrange(0, j)),
    decreases k - j,
{
    let pj = pieces_of(s.subrange(0, j));
    let sk = s.subrange(0, k);
    assert(sk.drop_last() =~= s.subrange(0, k - 1));
    if k == j + 1 {
        assert(sk.last() == '/');
        assert(pieces_of(sk).subrange(0, pj.len() as int) =~= pj);
    } else {
        lemma_pieces_prefix(s, j, k - 1);
        lemma_pieces_nonempty(s.subrange(0, k - 1));
        assert(pieces_of(sk).subrange(0, pj.len() as int) =~= pj);
    }
}

/// Every character of a term's text is a digit, a minus sign or the `x`.
proof fn lemma_dice_text_chars(d: Dice)
    ensures
        forall|i: int| 0 <= i < dice_text(d).len() ==> {
            let c = #[trigger] dice_text(d)[i];
            is_digit(c) || c == '-' || c == 'x'
        },
{
    lemma_int_text_parses(d.count);
    lemma_int_text_parses(d.sides);
    let a = int_text(d.count as int);
    let b = int_text(d.sides as int);
    let t = dice_text(d);
    assert forall|i: int| 0 <= i < t.len() implies ({
        let c = #[trigger] t[i];
        is_digit(c) || c == '-' || c == 'x'
    }) by {
        if i < a.len() {
            assert(t[i] == a[i]);
        } else if i > a.len() {
            assert(t[i] == b[i - a.len() - 1]);
        }
    }
}

/// A term's text contains no whitespace and no `/`, and is not empty.
proof fn lemma_dice_text_plain(d: Dice)
    ensures
        dice_text(d).len() >= 3,
        forall|i: int| 0 <= i < dice_text(d).len() ==> !is_ws(#[trigger] dice_text(d)[i]),
        forall|i: int| 0 <= i < dice_text(d).len() ==> #[trigger] dice_text(d)[i] != '/',
{
    lemma_dice_text_chars(d);
    lemma_nat_digits_len(d);
    let t = dice_text(d);
    assert forall|i: int| 0 <= i < t.len() implies !is_ws(#[trigger] t[i]) by {
        let c = t[i];
        assert(is_digit(c) || c == '-' || c == 'x');
    }
    assert forall|i: int| 0 <= i < t.len() implies #[trigger] t[i] != '/' by {
        let c = t[i];
        assert(is_digit(c) || c == '-' || c == 'x');
    }
}

proof fn lemma_nat_digits_len(d: Dice)
    ensures
        int_text(d.count as int).len() >= 1,
        int_text(d.sides as int).len() >= 1,
{
    lemma_int_text_parses(d.count);
    lemma_int_text_parses(d.sides);
}

/// Reading back a term's text gives the term.
pub proof fn lemma_dice_roundtrip(d: Dice)
    ensures
        dice_from_text(dice_text(d)) == Some(d),
{
    lemma_dice_text_plain(d);
    lemma_dice_text_chars(d);
    lemma_int_text_parses(d.count);
    lemma_int_text_parses(d.sides);
    let a = int_text(d.count as int);
    let b = int_text(d.sides as int);
    let t = dice_text(d);
    lemma_trim_no_ws(t);
    let k = a.len() as int;
    assert(t[k] == 'x');
    assert forall|j: int| 0 <= j < k implies !is_dice_sep(#[trigger] t[j]) by {
        assert(t[j] == a[j]);
    }
    assert(first_sep_at(t, k));
    assert forall|i: int| first_sep_at(t, i) implies i == k by {
        if i < k {
            assert(t[i] == a[i]);
        } else if i > k {
            assert(is_dice_sep(t[k]));
        }
    }
    assert(t.subrange(0, k) =~= a);
    assert(t.subrange(k + 1, t.len() as int) =~= b);
    assert forall|i: int| 0 <= i < a.len() implies !is_ws(#[trigger] a[i]) by {
        assert(a[i] == t[i]);
    }
    assert forall|i: int| 0 <= i < b.len() implies !is_ws(#[trigger] b[i]) by {
        assert(b[i] == t[i + k + 1]);
    }
    lemma_trim_no_ws(a);
    lemma_trim_no_ws(b);
}

/// Appending text without `/` extends the last piece.
proof fn lemma_pieces_append_plain(s: Seq<char>, t: Seq<char>)
    requires
        forall|i: int| 0 <= i < t.len() ==> #[trigger] t[i] != '/',
    ensures
        pieces_of(s + t) == pieces_of(s).update(pieces_of(s).len() - 1, pieces_of(s).last() + t),
    decreases t.len(),
{
    lemma_pieces_nonempty(s);
    if t.len() == 0 {
        assert(s + t =~= s);
        assert(pieces_of(s).last() + t =~= pieces_of(s).last());
        assert(pieces_of(s).update(pieces_of(s).len() - 1, pieces_of(s).last()) =~= pieces_of(s));
    } else {
        let u = t.drop_last();
        assert forall|i: int| 0 <= i < u.len() implies #[trigger] u[i] != '/' by {
            assert(u[i] == t[i]);
        }
        lemma_pieces_append_plain(s, u);
        assert((s + t).drop_last() =~= s + u);
        assert((s + t).last() == t.last());
        lemma_pieces_nonempty(s + u);
        let p = pieces_of(s);
        let c = t.last();
        assert(t[t.len() - 1] != '/');
        let q = pieces_of(s + u);
        assert(q == p.update(p.len() - 1, p.last() + u));
        assert(q.len() == p.len());
        assert(q.last() == p.last() + u);
        assert(pieces_of(s + t) == q.update(q.len() - 1, q.last().push(c)));
        assert((p.last() + u).push(c) =~= p.last() + t);
        assert(pieces_of(s + t) =~= p.update(p.len() - 1, p.last() + t));
    }
}

/// The pieces of a joined damage text are the terms' texts.
proof fn lemma_damage_text_pieces(ds: Seq<Dice>)
    requires
        ds.len() > 0,
    ensures
        pieces_of(damage_text(ds)) == ds.map_values(|d: Dice| dice_text(d)),
    decreases ds.len(),
{
    let t = dice_text(ds.last());
    lemma_dice_text_plain(ds.last());
    if ds.len() == 1 {
        let e = Seq::<char>::empty();
        lemma_pieces_append_plain(e, t);
        assert(e + t =~= t);
        assert(pieces_of(e) =~= seq![e]);
        assert(pieces_of(t) =~= seq![t]);
        assert(ds.map_values(|d: Dice| dice_text(d)) =~= seq![t]);
    } else {
        let pre = damage_text(ds.drop_last());
        lemma_damage_text_pieces(ds.drop_last());
        let sp = pre.push('/');
        assert(damage_text(ds) == pre + seq!['/'] + t);
        assert(pre + seq!['/'] + t =~= sp + t);
        lemma_pieces_append_plain(sp, t);
        assert(sp.drop_last() =~= pre);
        let q = pieces_of(pre).push(Seq::<char>::empty());
        assert(pieces_of(sp) == q);
        assert(Seq::<char>::empty() + t =~= t);
        assert(ds.map_values(|d: Dice| dice_text(d)) =~= ds.drop_last().map_values(|d: Dice| dice_text(d)).push(t));
        assert(q.update(q.len() - 1, q.last() + t) =~= pieces_of(pre).push(t));
    }
}

/// Reading the terms' texts back piece by piece gives the terms.
proof fn lemma_damage_terms_of_texts(ds: Seq<Dice>)
    ensures
        damage_terms(ds.map_values(|d: Dice| dice_text(d))) == Ok::<Seq<Dice>, Seq<char>>(ds),
    decreases ds.len(),
{
    let ps = ds.map_values(|d: Dice| dice_text(d));
    if ds.len() > 0 {
        lemma_damage_terms_of_texts(ds.drop_last());
        assert(ps.drop_last() =~= ds.drop_last().map_values(|d: Dice| dice_text(d)));
        let t = dice_text(ds.last());
        assert(ps.last() == t);
        lemma_dice_text_plain(ds.last());
        lemma_trim_no_ws(t);
        lemma_dice_roundtrip(ds.last());
        assert(ds.drop_last().push(ds.last()) =~= ds);
    } else {
        assert(ds =~= Seq::<Dice>::empty());
    }
}

/// Writing a damage roll out and reading it back gives the same terms (for a
/// roll with at least one term; the empty roll writes the empty text, which is
/// refused).
pub proof fn lemma_damage_roundtrip(ds: Seq<Dice>)
    requires
        ds.len() > 0,
    ensures
        damage_from_text(damage_text(ds)) == Ok::<Seq<Dice>, Seq<char>>(ds),
{
    lemma_damage_text_pieces(ds);
    lemma_damage_terms_of_texts(ds);
}

impl core::str::FromStr for Dice {
    type Err = DiceParseError;

    fn from_str(s: &str) -> (r: Result<Dice, DiceParseError>)
        ensures
            match r {
                Ok(d) => dice_from_text(s@) == Some(d),
                Err(e) => dice_from_text(s@) is None && e.0@ == trim(s@),
            },
    {
        Dice::parse_text(s)
    }
}

impl core::str::FromStr for DamageRoll {
    type Err = DiceParseError;

    fn from_str(s: &str) -> (r: Result<DamageRoll, DiceParseError>)
        ensures
            match r {
                Ok(d) => damage_from_text(s@) == Ok::<Seq<Dice>, Seq<char>>(d.0@),
                Err(e) => damage_from_text(s@) == Err::<Seq<Dice>, Seq<char>>(e.0@),
            },
    {
        DamageRoll::parse_text(s)
    }
}

impl From<DamageRoll> for String {
    fn from(d: DamageRoll) -> (s: String)
        ensures
            s@ == damage_text(d.0@),
    {
        d.to_text()
    }
}

impl vstd::std_specs::convert::FromSpecImpl<DamageRoll> for String {
    open spec fn obeys_from_spec() -> bool {
        false
    }

    open spec fn from_spec(v: DamageRoll) -> String {
        arbitrary()
    }
}

/// The error returned when a dice expression cannot be read; it holds the text.
#[derive(Debug, Clone, PartialEq, Eq)]
pub struct DiceParseError(pub String);

} // verus!
