use vstd::prelude::*;
use vstd::string::*;
use vstd::utf8::is_ascii_chars;
use crate::text::push_char;

verus! {

/// The fixed scale: a quantity is held as a whole number of 1e-8 units.
pub const SCALE: u64 = 100_000_000;

/// Number of decimal places that the scale keeps.
pub const SCALE_DIGITS: u32 = 8;

/// The largest whole part whose scaled integer fits 64 bits.
pub const MAX_WHOLE: u64 = 184_467_440_737;

/// The character for a single decimal digit.
pub open spec fn dec_digit(d: nat) -> char
    recommends
        d < 10,
{
    if d == 0 { '0' } else if d == 1 { '1' } else if d == 2 { '2' } else if d == 3 { '3' }
    else if d == 4 { '4' } else if d == 5 { '5' } else if d == 6 { '6' } else if d == 7 { '7' }
    else if d == 8 { '8' } else { '9' }
}

/// The number a decimal digit stands for (0 for any other character).
pub open spec fn dec_digit_value(c: char) -> nat {
    if '0' <= c && c <= '9' {
        (c as nat - '0' as nat) as nat
    } else {
        0
    }
}

/// `c` is one of `0-9`.
pub open spec fn is_dec_digit(c: char) -> bool {
    '0' <= c && c <= '9'
}

/// Ten to the power `k`.
pub open spec fn pow10(k: nat) -> nat
    decreases k,
{
    if k == 0 {
        1
    } else {
        10 * pow10((k - 1) as nat)
    }
}

/// `n` in decimal, without leading zeros (`0` for zero).
pub open spec fn dec_digits(n: nat) -> Seq<char>
    decreases n,
{
    if n < 10 {
        seq![dec_digit(n)]
    } else {
        dec_digits(n / 10).push(dec_digit(n % 10))
    }
}

/// The last `w` decimal digits of `f`, padded with zeros on the left.
pub open spec fn padded_digits(f: nat, w: nat) -> Seq<char>
    decreases w,
{
    if w == 0 {
        Seq::empty()
    } else {
        padded_digits(f / 10, (w - 1) as nat).push(dec_digit(f % 10))
    }
}

/// The `w` decimal places of the fraction `f / 10^w` without its trailing
/// zeros; empty where the fraction is zero.
pub open spec fn fraction_digits(f: nat, w: nat) -> Seq<char>
    decreases w,
{
    if w == 0 {
        Seq::empty()
    } else if f % 10 == 0 {
        fraction_digits(f / 10, (w - 1) as nat)
    } else {
        padded_digits(f, w)
    }
}

/// The canonical decimal text of a scaled quantity: the whole part, then,
/// unless the fraction is zero, a point and the decimal places up to the
/// last one that is not zero. No sign, no exponent.
pub open spec fn canonical_text(scaled: nat) -> Seq<char> {
    let whole = scaled / (SCALE as nat);
    let frac = scaled % (SCALE as nat);
    if frac == 0 {
        dec_digits(whole)
    } else {
        dec_digits(whole).push('.') + fraction_digits(frac, SCALE_DIGITS as nat)
    }
}

/// The number that a text of decimal digits writes.
pub open spec fn dec_value(s: Seq<char>) -> nat
    decreases s.len(),
{
    if s.len() == 0 {
        0
    } else {
        dec_value(s.drop_last()) * 10 + dec_digit_value(s.last())
    }
}

/// The number of characters before the first point (all of them where the
/// text has no point).
pub open spec fn whole_len(text: Seq<char>) -> nat
    decreases text.len(),
{
    if text.len() == 0 || text[0] == '.' {
        0
    } else {
        1 + whole_len(text.drop_first())
    }
}

/// A decimal text: one digit or more, then nothing, or a point and one
/// digit or more. No sign, no exponent, no blanks.
pub open spec fn is_decimal_text(s: Seq<char>) -> bool {
    let w = whole_len(s) as int;
    &&& 1 <= w
    &&& s.len() != w + 1
    &&& forall|i: int| 0 <= i < s.len() && i != w ==> is_dec_digit(#[trigger] s[i])
}

/// One where the text has a ninth decimal place of five or more, else zero.
pub open spec fn round_up(places: Seq<char>) -> nat {
    if places.len() > SCALE_DIGITS && places[SCALE_DIGITS as int] >= '5' {
        1
    } else {
        0
    }
}

/// The decimal places that the scale keeps: the first eight at most.
pub open spec fn kept_places(places: Seq<char>) -> Seq<char> {
    if places.len() <= SCALE_DIGITS {
        places
    } else {
        places.take(SCALE_DIGITS as int)
    }
}

/// The quantity that a decimal text writes, in 1e-8 units: the digits before
/// the point times the scale, plus the first eight decimal places read as
/// eight places, plus one where the ninth place is five or more (half rounds
/// up; later places do not count).
pub open spec fn scaled_value(text: Seq<char>) -> nat {
    let w = whole_len(text) as int;
    if w == text.len() {
        dec_value(text) * (SCALE as nat)
    } else {
        let places = text.skip(w + 1);
        let kept = kept_places(places);
        dec_value(text.take(w)) * (SCALE as nat) + dec_value(kept) * pow10(
            (SCALE_DIGITS - kept.len()) as nat,
        ) + round_up(places)
    }
}

/// The scaled integer that `to_scaled_integer` owes for a text: the value
/// of a decimal text that fits 64 bits, and nothing for any other text.
pub open spec fn scaled_integer_of(text: Seq<char>) -> Option<u64> {
    if is_decimal_text(text) && scaled_value(text) <= u64::MAX {
        Some(scaled_value(text) as u64)
    } else {
        None
    }
}

fn dec_char(d: u8) -> (r: char)
    requires
        d < 10,
    ensures
        r == dec_digit(d as nat),
{
    if d == 0 { '0' } else if d == 1 { '1' } else if d == 2 { '2' } else if d == 3 { '3' }
    else if d == 4 { '4' } else if d == 5 { '5' } else if d == 6 { '6' } else if d == 7 { '7' }
    else if d == 8 { '8' } else { '9' }
}

fn push_dec(out: &mut String, n: u64)
    ensures
        final(out)@ == old(out)@ + dec_digits(n as nat),
    decreases n,
{
    if n >= 10 {
        push_dec(out, n / 10);
    }
    let d: u8 = (n % 10) as u8;
    push_char(out, dec_char(d));
    assert(final(out)@ =~= old(out)@ + dec_digits(n as nat));
}

fn push_padded(out: &mut String, f: u64, w: u32)
    ensures
        final(out)@ == old(out)@ + padded_digits(f as nat, w as nat),
    decreases w,
{
    if w > 0 {
        push_padded(out, f / 10, w - 1);
        let d: u8 = (f % 10) as u8;
        push_char(out, dec_char(d));
    }
    assert(final(out)@ =~= old(out)@ + padded_digits(f as nat, w as nat));
}

fn push_fraction(out: &mut String, f: u64, w: u32)
    ensures
        final(out)@ == old(out)@ + fraction_digits(f as nat, w as nat),
    decreases w,
{
    if w == 0 {
        assert(final(out)@ =~= old(out)@ + fraction_digits(f as nat, w as nat));
    } else if f % 10 == 0 {
        push_fraction(out, f / 10, w - 1);
    } else {
        push_padded(out, f, w);
    }
}

/// The canonical decimal text of a quantity given in 1e-8 units. Its
/// scaled integer is the quantity again.
pub fn to_canonical_string(scaled: u64) -> (r: String)
    ensures
        r@ == canonical_text(scaled as nat),
        scaled_integer_of(r@) == Some(scaled),
{
    let whole: u64 = scaled / SCALE;
    let frac: u64 = scaled % SCALE;
    let mut out = String::new();
    push_dec(&mut out, whole);
    if frac != 0 {
        push_char(&mut out, '.');
        push_fraction(&mut out, frac, SCALE_DIGITS);
    }
    proof {
        assert(out@ =~= canonical_text(scaled as nat));
        lemma_scaled_integer_of_canonical_text(scaled);
    }
    out
}

/// The ASCII codes of `.`, `0`, `5` and `9`.
const POINT: u8 = 46;

const ZERO: u8 = 48;

const FIVE: u8 = 53;

const NINE: u8 = 57;

fn digit_of(b: u8) -> (d: u64)
    requires
        ZERO <= b <= NINE,
    ensures
        d == dec_digit_value(b as char),
        d <= 9,
{
    (b - ZERO) as u64
}

/// The scaled integer of a quantity written as decimal text: the text times
/// the scale, rounded to the nearest integer, half up. Nothing for a text
/// that is no decimal text or whose scaled integer does not fit 64 bits.
pub fn to_scaled_integer(text: &str) -> (r: Option<u64>)
    ensures
        r == scaled_integer_of(text@),
{
    proof {
        lemma_first_point(text@);
    }
    if !text.is_ascii() {
        return None;
    }
    let n = text.unicode_len();
    let mut i: usize = 0;
    let mut whole: u64 = 0;
    let mut at_point = false;
    while i < n && !at_point
        invariant
            i <= n,
            n == text@.len(),
            is_ascii_chars(text@),
            whole_len(text@) <= n,
            whole_len(text@) < n ==> text@[whole_len(text@) as int] == '.',
            forall|j: int| 0 <= j < i ==> is_dec_digit(#[trigger] text@[j]),
            whole == dec_value(text@.take(i as int)),
            whole <= MAX_WHOLE,
            at_point ==> i < n && text@[i as int] == '.',
        decreases n - i + (if at_point { 0int } else { 1int }),
    {
        let b = text.get_ascii(i);
        assert(b as char == text@[i as int]);
        if b == POINT {
            at_point = true;
        } else {
            if b < ZERO || b > NINE {
                proof {
                    let w = whole_len(text@) as int;
                    if w < i {
                        assert(is_dec_digit(text@[w]));
                    }
                    assert(!is_dec_digit(text@[i as int]));
                }
                return None;
            }
            let next: u64 = whole * 10 + digit_of(b);
            proof {
                lemma_dec_value_take(text@, i as int);
            }
            if next > MAX_WHOLE {
                proof {
                    let w = whole_len(text@) as int;
                    if w < i {
                        assert(is_dec_digit(text@[w]));
                    }
                    lemma_dec_value_grows(text@, i + 1, w);
                    if w == n {
                        assert(text@.take(w) =~= text@);
                    }
                    assert(scaled_value(text@) >= dec_value(text@.take(w)) * (SCALE as nat));
                }
                return None;
            }
            whole = next;
            i += 1;
        }
    }
    proof {
        assert(text@ =~= text@.take(i as int) + text@.skip(i as int));
        lemma_whole_len(text@.take(i as int), text@.skip(i as int));
    }
    if i == 0 {
        return None;
    }
    let base: u64 = whole * SCALE;
    if i == n {
        assert(text@.take(n as int) =~= text@);
        return Some(base);
    }
    if i + 1 == n {
        return None;
    }
    let w: usize = i;
    let ghost places = text@.skip(w + 1);
    let mut j: usize = w + 1;
    let mut kept: usize = 0;
    let mut frac: u64 = 0;
    let mut weight: u64 = SCALE;
    let mut round: u64 = 0;
    proof {
        reveal_with_fuel(pow10, 9);
        assert(places.take(0).len() == 0);
        assert(dec_value(places.take(0)) == 0);
    }
    while j < n
        invariant
            1 <= w,
            w + 1 <= j <= n,
            n == text@.len(),
            is_ascii_chars(text@),
            whole_len(text@) == w,
            places == text@.skip(w + 1),
            forall|t: int| 0 <= t < j && t != w ==> is_dec_digit(#[trigger] text@[t]),
            kept == (if j - w - 1 < 8 { j - w - 1 } else { 8 }),
            weight == pow10((8 - kept) as nat),
            frac == dec_value(places.take(kept as int)) * pow10((8 - kept) as nat),
            frac + weight <= SCALE,
            round == (if j - w - 1 > 8 && places[8] >= '5' { 1u64 } else { 0u64 }),
        decreases n - j,
    {
        let b = text.get_ascii(j);
        assert(b as char == text@[j as int]);
        assert(places[j - w - 1] == text@[j as int]);
        if b < ZERO || b > NINE {
            proof {
                assert(!is_dec_digit(text@[j as int]));
            }
            return None;
        }
        if kept < 8 {
            let step: u64 = weight / 10;
            let d = digit_of(b);
            proof {
                let p = pow10((8 - kept - 1) as nat);
                let v = dec_value(places.take(kept as int));
                assert(weight == 10 * p);
                lemma_dec_value_take(places, kept as int);
                assert((v * 10 + d) * p == v * (10 * p) + d * p) by (nonlinear_arith);
                assert(d * p + p <= 10 * p) by (nonlinear_arith)
                    requires
                        d <= 9,
                ;
                assert(d * step == d * p);
            }
            frac = frac + d * step;
            weight = step;
            kept = kept + 1;
        } else if j - w - 1 == 8 {
            if b >= FIVE {
                round = 1;
            }
        }
        j += 1;
    }
    proof {
        assert(places.len() == n - w - 1);
        if places.len() <= 8 {
            assert(places.take(kept as int) =~= places);
        }
        assert(kept_places(places) =~= places.take(kept as int));
        assert(round == round_up(places));
        assert(is_decimal_text(text@));
    }
    let extra: u64 = frac + round;
    if extra > u64::MAX - base {
        None
    } else {
        Some(base + extra)
    }
}

/// The decimal text of `n` holds digits only, at least one and no leading
/// zero before another digit, and writes `n`.
pub proof fn lemma_dec_digits(n: nat)
    ensures
        dec_digits(n).len() >= 1,
        forall|i: int| 0 <= i < dec_digits(n).len() ==> is_dec_digit(#[trigger] dec_digits(n)[i]),
        dec_digits(n).len() > 1 ==> dec_digits(n)[0] != '0',
        dec_value(dec_digits(n)) == n,
    decreases n,
{
    let s = dec_digits(n);
    if n < 10 {
        assert(s.drop_last() =~= Seq::<char>::empty());
        assert(dec_value(s.drop_last()) == 0);
    } else {
        let m = n / 10;
        lemma_dec_digits(m);
        assert(s.drop_last() =~= dec_digits(m));
        assert(s[0] == dec_digits(m)[0]);
        if m >= 10 {
            lemma_dec_digits(m / 10);
            assert(dec_digits(m).len() > 1);
        } else {
            assert(dec_digits(m)[0] == dec_digit(m));
        }
    }
    assert(dec_digit_value(dec_digit(n % 10)) == n % 10);
}

/// Below `10^w`, the `w` padded digits of `f` write `f`.
pub proof fn lemma_padded_digits(f: nat, w: nat)
    requires
        f < pow10(w),
    ensures
        padded_digits(f, w).len() == w,
        forall|i: int| 0 <= i < w ==> is_dec_digit(#[trigger] padded_digits(f, w)[i]),
        dec_value(padded_digits(f, w)) == f,
    decreases w,
{
    if w > 0 {
        lemma_padded_digits(f / 10, (w - 1) as nat);
        assert(padded_digits(f, w).drop_last() =~= padded_digits(f / 10, (w - 1) as nat));
        assert(dec_digit_value(dec_digit(f % 10)) == f % 10);
    }
}

/// Below `10^w`, the decimal places written for `f`, filled up with zeros
/// to `w` places, write `f`.
pub proof fn lemma_fraction_digits(f: nat, w: nat)
    requires
        f < pow10(w),
    ensures
        fraction_digits(f, w).len() <= w,
        dec_value(fraction_digits(f, w)) * pow10((w - fraction_digits(f, w).len()) as nat) == f,
    decreases w,
{
    let places = fraction_digits(f, w);
    if w == 0 {
        assert(pow10(0) == 1);
        assert(dec_value(places) == 0);
        assert(dec_value(places) * pow10(0) == 0) by (nonlinear_arith)
            requires
                dec_value(places) == 0,
        ;
    } else if f % 10 == 0 {
        lemma_fraction_digits(f / 10, (w - 1) as nat);
        let v = dec_value(places);
        let p = pow10((w - 1 - places.len()) as nat);
        assert(pow10((w - places.len()) as nat) == 10 * p);
        assert(v * p == f / 10);
        assert(v * (10 * p) == 10 * (v * p)) by (nonlinear_arith);
    } else {
        lemma_padded_digits(f, w);
        assert(pow10(0) == 1);
        assert(dec_value(places) * pow10(0) == f) by (nonlinear_arith)
            requires
                dec_value(places) == f,
                pow10(0) == 1,
        ;
    }
}

/// The decimal places written for a fraction that is not zero: between one
/// and `w` digits, the last of them not `0`.
pub proof fn lemma_fraction_digits_shape(f: nat, w: nat)
    requires
        0 < f < pow10(w),
    ensures
        1 <= fraction_digits(f, w).len() <= w,
        forall|i: int|
            0 <= i < fraction_digits(f, w).len() ==> is_dec_digit(
                #[trigger] fraction_digits(f, w)[i],
            ),
        fraction_digits(f, w).last() != '0',
    decreases w,
{
    if w == 0 {
    } else if f % 10 == 0 {
        lemma_fraction_digits_shape(f / 10, (w - 1) as nat);
    } else {
        lemma_padded_digits(f, w);
    }
}

/// Where `head` holds no point and `tail` is empty or starts with one, the
/// first point of `head + tail` stands right behind `head`.
pub proof fn lemma_whole_len(head: Seq<char>, tail: Seq<char>)
    requires
        forall|i: int| 0 <= i < head.len() ==> is_dec_digit(#[trigger] head[i]),
        tail.len() == 0 || tail[0] == '.',
    ensures
        whole_len(head + tail) == head.len(),
    decreases head.len(),
{
    if head.len() > 0 {
        lemma_whole_len(head.drop_first(), tail);
        assert((head + tail).drop_first() =~= head.drop_first() + tail);
        assert((head + tail)[0] == head[0]);
    } else {
        assert(head + tail =~= tail);
    }
}

/// The first point of a text stands where `whole_len` says, if it has one.
pub proof fn lemma_first_point(s: Seq<char>)
    ensures
        whole_len(s) <= s.len(),
        forall|i: int| 0 <= i < whole_len(s) ==> #[trigger] s[i] != '.',
        whole_len(s) < s.len() ==> s[whole_len(s) as int] == '.',
    decreases s.len(),
{
    if s.len() == 0 || s[0] == '.' {
    } else {
        let t = s.drop_first();
        lemma_first_point(t);
        assert forall|i: int| 0 <= i < whole_len(s) implies #[trigger] s[i] != '.' by {
            if i > 0 {
                assert(s[i] == t[i - 1]);
            }
        }
        if whole_len(s) < s.len() {
            assert(s[whole_len(s) as int] == t[whole_len(t) as int]);
        }
    }
}

/// One more digit: ten times the value so far, plus the digit.
pub proof fn lemma_dec_value_take(s: Seq<char>, i: int)
    requires
        0 <= i < s.len(),
    ensures
        dec_value(s.take(i + 1)) == dec_value(s.take(i)) * 10 + dec_digit_value(s[i]),
{
    assert(s.take(i + 1).drop_last() =~= s.take(i));
}

/// A longer prefix of a text never writes a smaller number.
pub proof fn lemma_dec_value_grows(s: Seq<char>, a: int, b: int)
    requires
        0 <= a <= b <= s.len(),
    ensures
        dec_value(s.take(a)) <= dec_value(s.take(b)),
    decreases b - a,
{
    if a < b {
        lemma_dec_value_grows(s, a, b - 1);
        lemma_dec_value_take(s, b - 1);
    }
}

/// The shape of the canonical text: a decimal text without a leading zero
/// before another digit of the whole part; with a point come one to eight
/// decimal places, the last of them not `0`; without a fraction there is no
/// point.
pub proof fn lemma_canonical_text_shape(scaled: nat)
    ensures
        ({
            let text = canonical_text(scaled);
            let w = whole_len(text) as int;
            &&& is_decimal_text(text)
            &&& 1 <= w <= text.len()
            &&& w > 1 ==> text[0] != '0'
            &&& scaled % (SCALE as nat) == 0 ==> w == text.len()
            &&& scaled % (SCALE as nat) != 0 ==> {
                &&& text[w] == '.'
                &&& w + 2 <= text.len() <= w + 1 + SCALE_DIGITS
                &&& text.last() != '0'
            }
        }),
{
    let whole = scaled / (SCALE as nat);
    let frac = scaled % (SCALE as nat);
    let head = dec_digits(whole);
    let text = canonical_text(scaled);
    lemma_dec_digits(whole);
    assert(pow10(8) == SCALE) by {
        reveal_with_fuel(pow10, 9);
    }
    if frac == 0 {
        lemma_whole_len(head, Seq::<char>::empty());
        assert(head + Seq::<char>::empty() =~= head);
    } else {
        let places = fraction_digits(frac, SCALE_DIGITS as nat);
        let tail = seq!['.'] + places;
        lemma_fraction_digits_shape(frac, SCALE_DIGITS as nat);
        lemma_whole_len(head, tail);
        assert(text =~= head + tail);
        assert forall|i: int| 0 <= i < text.len() && i != head.len() implies is_dec_digit(
            #[trigger] text[i],
        ) by {
            if i > head.len() {
                assert(text[i] == places[i - head.len() - 1]);
            } else {
                assert(text[i] == head[i]);
            }
        }
        assert(text.last() == places.last());
    }
}

/// The canonical text and the scaled integer agree: the canonical text of a
/// quantity, read as a decimal and scaled, is the quantity's scaled integer.
pub proof fn lemma_canonical_text_scales_back(scaled: nat)
    ensures
        scaled_value(canonical_text(scaled)) == scaled,
{
    let whole = scaled / (SCALE as nat);
    let frac = scaled % (SCALE as nat);
    let head = dec_digits(whole);
    let text = canonical_text(scaled);
    lemma_dec_digits(whole);
    assert(pow10(8) == SCALE) by {
        reveal_with_fuel(pow10, 9);
    }
    if frac == 0 {
        lemma_whole_len(head, Seq::<char>::empty());
        assert(head + Seq::<char>::empty() =~= head);
    } else {
        let places = fraction_digits(frac, SCALE_DIGITS as nat);
        let tail = seq!['.'] + places;
        lemma_fraction_digits(frac, SCALE_DIGITS as nat);
        lemma_whole_len(head, tail);
        assert(text =~= head + tail);
        assert(text.take(head.len() as int) =~= head);
        assert(text.skip(head.len() as int + 1) =~= places);
    }
}

/// Text and integer agree: the scaled integer of the canonical text of a
/// quantity is that quantity.
pub proof fn lemma_scaled_integer_of_canonical_text(scaled: u64)
    ensures
        scaled_integer_of(canonical_text(scaled as nat)) == Some(scaled),
{
    lemma_canonical_text_shape(scaled as nat);
    lemma_canonical_text_scales_back(scaled as nat);
}

/// No text of digits is shorter than the decimal text of the number it writes.
pub proof fn lemma_dec_digits_shortest(s: Seq<char>)
    requires
        s.len() >= 1,
        forall|i: int| 0 <= i < s.len() ==> is_dec_digit(#[trigger] s[i]),
    ensures
        dec_digits(dec_value(s)).len() <= s.len(),
    decreases s.len(),
{
    let v = dec_value(s);
    let rest = s.drop_last();
    assert(is_dec_digit(s.last()));
    if s.len() == 1 {
        assert(dec_value(rest) == 0);
    } else if v >= 10 {
        assert forall|i: int| 0 <= i < rest.len() implies is_dec_digit(#[trigger] rest[i]) by {
            assert(rest[i] == s[i]);
        }
        lemma_dec_digits_shortest(rest);
        assert(v / 10 == dec_value(rest));
    }
}

/// A text of `n` digits writes a number below `10^n`.
pub proof fn lemma_dec_value_bound(s: Seq<char>)
    requires
        forall|i: int| 0 <= i < s.len() ==> is_dec_digit(#[trigger] s[i]),
    ensures
        dec_value(s) < pow10(s.len()),
    decreases s.len(),
{
    if s.len() > 0 {
        let rest = s.drop_last();
        assert forall|i: int| 0 <= i < rest.len() implies is_dec_digit(#[trigger] rest[i]) by {
            assert(rest[i] == s[i]);
        }
        lemma_dec_value_bound(rest);
        assert(is_dec_digit(s.last()));
    }
}

/// A number below `10^k` with `m` zeros appended is below `10^(k+m)`, and
/// its decimal places at width `k+m` are `k` at most.
pub proof fn lemma_fraction_digits_padded(v: nat, k: nat, m: nat)
    requires
        v < pow10(k),
    ensures
        v * pow10(m) < pow10(k + m),
        fraction_digits(v * pow10(m), k + m).len() <= k,
    decreases m,
{
    if m == 0 {
        assert(v * pow10(0) == v) by (nonlinear_arith)
            requires
                pow10(0) == 1,
        ;
        lemma_fraction_digits(v, k);
    } else {
        let q = pow10((m - 1) as nat);
        lemma_fraction_digits_padded(v, k, (m - 1) as nat);
        assert(v * (10 * q) == 10 * (v * q)) by (nonlinear_arith);
        assert(pow10(k + m) == 10 * pow10((k + m - 1) as nat));
        let f = v * pow10(m);
        assert(f == 10 * (v * q));
        assert(f % 10 == 0 && f / 10 == v * q);
    }
}

/// Minimal form: a decimal text with eight decimal places at most is never
/// shorter than the canonical text of the quantity it writes.
pub proof fn lemma_canonical_text_shortest(text: Seq<char>)
    requires
        is_decimal_text(text),
        text.len() <= whole_len(text) + 1 + SCALE_DIGITS,
    ensures
        canonical_text(scaled_value(text)).len() <= text.len(),
{
    lemma_first_point(text);
    let w = whole_len(text) as int;
    let head = text.take(w);
    assert forall|i: int| 0 <= i < head.len() implies is_dec_digit(#[trigger] head[i]) by {
        assert(head[i] == text[i]);
    }
    lemma_dec_digits_shortest(head);
    assert(pow10(8) == SCALE) by {
        reveal_with_fuel(pow10, 9);
    }
    if w == text.len() {
        assert(head =~= text);
    } else {
        let places = text.skip(w + 1);
        let k = places.len();
        assert forall|i: int| 0 <= i < k implies is_dec_digit(#[trigger] places[i]) by {
            assert(places[i] == text[w + 1 + i]);
        }
        lemma_dec_value_bound(places);
        lemma_fraction_digits_padded(dec_value(places), k, (SCALE_DIGITS - k) as nat);
        let f = dec_value(places) * pow10((SCALE_DIGITS - k) as nat);
        let x = scaled_value(text);
        assert(x == dec_value(head) * (SCALE as nat) + f);
        assert(x / (SCALE as nat) == dec_value(head) && x % (SCALE as nat) == f);
    }
}

/// Canonical means unique: two quantities with the same canonical text are
/// the same quantity.
pub proof fn lemma_canonical_text_unique(a: nat, b: nat)
    requires
        canonical_text(a) == canonical_text(b),
    ensures
        a == b,
{
    lemma_canonical_text_scales_back(a);
    lemma_canonical_text_scales_back(b);
}

} // verus!
