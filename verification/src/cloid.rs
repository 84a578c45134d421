use vstd::prelude::*;
use vstd::string::*;
use vstd::utf8::is_ascii_chars;
use crate::errors::Error;
use crate::text::push_char;

verus! {

/// Number of characters of an identifier, marker included.
pub const CLOID_LEN: usize = 34;

/// Number of hexadecimal digits behind the marker.
pub const CLOID_DIGITS: u32 = 32;

/// `c` is one of `0-9`, `a-f`, `A-F`.
pub open spec fn is_hex_digit(c: char) -> bool {
    ('0' <= c && c <= '9') || ('a' <= c && c <= 'f') || ('A' <= c && c <= 'F')
}

/// The number a hexadecimal digit stands for (0 for any other character).
pub open spec fn hex_digit_value(c: char) -> nat {
    if '0' <= c && c <= '9' {
        (c as nat - '0' as nat) as nat
    } else if 'a' <= c && c <= 'f' {
        (c as nat - 'a' as nat + 10) as nat
    } else if 'A' <= c && c <= 'F' {
        (c as nat - 'A' as nat + 10) as nat
    } else {
        0
    }
}

/// The lower-case digit for a number below 16.
pub open spec fn lower_hex_digit(d: nat) -> char
    recommends
        d < 16,
{
    if d == 0 { '0' } else if d == 1 { '1' } else if d == 2 { '2' } else if d == 3 { '3' }
    else if d == 4 { '4' } else if d == 5 { '5' } else if d == 6 { '6' } else if d == 7 { '7' }
    else if d == 8 { '8' } else if d == 9 { '9' } else if d == 10 { 'a' } else if d == 11 { 'b' }
    else if d == 12 { 'c' } else if d == 13 { 'd' } else if d == 14 { 'e' } else { 'f' }
}

/// A hexadecimal digit in upper case; any other character unchanged.
pub open spec fn upper_hex(c: char) -> char {
    if c == 'a' { 'A' } else if c == 'b' { 'B' } else if c == 'c' { 'C' }
    else if c == 'd' { 'D' } else if c == 'e' { 'E' } else if c == 'f' { 'F' } else { c }
}

/// The text starts with the marker `0x`.
pub open spec fn has_marker(s: Seq<char>) -> bool {
    s.len() >= 2 && s[0] == '0' && s[1] == 'x'
}

/// Every character behind the first two is a hexadecimal digit.
pub open spec fn digits_are_hex(s: Seq<char>) -> bool {
    forall|i: int| 2 <= i < s.len() ==> is_hex_digit(#[trigger] s[i])
}

/// The format of an identifier: the marker and 32 hexadecimal digits.
pub open spec fn is_cloid_text(s: Seq<char>) -> bool {
    s.len() == CLOID_LEN && has_marker(s) && digits_are_hex(s)
}

/// The error for a text that is no identifier. A missing marker or a wrong
/// length is `CloidHexString`, a character behind the marker that is no
/// digit is `CloidInvalidCharacters`; the marker counts first, then the
/// digits, then the length.
pub open spec fn parse_failure(s: Seq<char>) -> Error
    recommends
        !is_cloid_text(s),
{
    if !has_marker(s) {
        Error::CloidHexString
    } else if !digits_are_hex(s) {
        Error::CloidInvalidCharacters
    } else {
        Error::CloidHexString
    }
}

/// The text with every digit behind the marker in upper case.
pub open spec fn normalized(s: Seq<char>) -> Seq<char> {
    Seq::new(s.len(), |i: int| if i < 2 { s[i] } else { upper_hex(s[i]) })
}

/// The last `n` hexadecimal digits of `x`, most significant first, padded with zeros.
pub open spec fn hex_digits(x: nat, n: nat) -> Seq<char>
    decreases n,
{
    if n == 0 {
        Seq::empty()
    } else {
        hex_digits(x / 16, (n - 1) as nat).push(lower_hex_digit(x % 16))
    }
}

/// The number that a text of hexadecimal digits writes.
pub open spec fn hex_value(s: Seq<char>) -> nat
    decreases s.len(),
{
    if s.len() == 0 {
        0
    } else {
        hex_value(s.drop_last()) * 16 + hex_digit_value(s.last())
    }
}

/// 16 to the power `n`.
pub open spec fn pow16(n: nat) -> nat
    decreases n,
{
    if n == 0 { 1 } else { 16 * pow16((n - 1) as nat) }
}

/// The identifier that stands for the integer `x`.
pub open spec fn cloid_text_of(x: u128) -> Seq<char> {
    seq!['0', 'x'] + hex_digits(x as nat, CLOID_DIGITS as nat)
}

/// A client order identifier: `0x` and 32 hexadecimal digits.
#[derive(Debug, PartialEq, Eq, Hash)]
pub struct Cloid(String);

impl Clone for Cloid {
    fn clone(&self) -> (r: Cloid)
        ensures
            r@ == self@,
    {
        proof {
            use_type_invariant(self);
        }
        Cloid(self.0.clone())
    }
}

impl View for Cloid {
    type V = Seq<char>;

    closed spec fn view(&self) -> Seq<char> {
        self.0@
    }
}

fn is_hex_char(c: char) -> (r: bool)
    ensures
        r == is_hex_digit(c),
{
    ('0' <= c && c <= '9') || ('a' <= c && c <= 'f') || ('A' <= c && c <= 'F')
}

fn upper_hex_char(c: char) -> (r: char)
    ensures
        r == upper_hex(c),
{
    if c == 'a' { 'A' } else if c == 'b' { 'B' } else if c == 'c' { 'C' }
    else if c == 'd' { 'D' } else if c == 'e' { 'E' } else if c == 'f' { 'F' } else { c }
}

fn lower_hex_char(d: u8) -> (r: char)
    requires
        d < 16,
    ensures
        r == lower_hex_digit(d as nat),
{
    if d == 0 { '0' } else if d == 1 { '1' } else if d == 2 { '2' } else if d == 3 { '3' }
    else if d == 4 { '4' } else if d == 5 { '5' } else if d == 6 { '6' } else if d == 7 { '7' }
    else if d == 8 { '8' } else if d == 9 { '9' } else if d == 10 { 'a' } else if d == 11 { 'b' }
    else if d == 12 { 'c' } else if d == 13 { 'd' } else if d == 14 { 'e' } else { 'f' }
}

/// Appends the last `n` hexadecimal digits of `x` to `out`.
fn push_hex(out: &mut String, x: u128, n: u32)
    ensures
        final(out)@ == old(out)@ + hex_digits(x as nat, n as nat),
    decreases n,
{
    if n > 0 {
        push_hex(out, x / 16, n - 1);
        let d: u8 = (x % 16) as u8;
        push_char(out, lower_hex_char(d));
        assert(final(out)@ =~= old(out)@ + hex_digits(x as nat, n as nat));
    } else {
        assert(final(out)@ =~= old(out)@ + hex_digits(x as nat, n as nat));
    }
}

impl Cloid {
    #[verifier::type_invariant]
    spec fn well_formed(self) -> bool {
        is_cloid_text(self.0@)
    }

    /// Validates `raw_cloid` and keeps it with its digits in upper case.
    /// The marker is looked at first, then the digits, then the length.
    pub fn new(raw_cloid: &str) -> (r: Result<Cloid, Error>)
        ensures
            match r {
                Ok(c) => is_cloid_text(raw_cloid@) && c@ == normalized(raw_cloid@),
                Err(e) => !is_cloid_text(raw_cloid@) && e == parse_failure(raw_cloid@),
            },
    {
        let n = raw_cloid.unicode_len();
        if n < 2 || raw_cloid.get_char(0) != '0' || raw_cloid.get_char(1) != 'x' {
            return Err(Error::CloidHexString);
        }
        if !raw_cloid.is_ascii() {
            return Err(Error::CloidInvalidCharacters);
        }
        let mut i: usize = 2;
        while i < n
            invariant
                2 <= i <= n,
                n == raw_cloid@.len(),
                is_ascii_chars(raw_cloid@),
                has_marker(raw_cloid@),
                forall|j: int| 2 <= j < i ==> is_hex_digit(#[trigger] raw_cloid@[j]),
            decreases n - i,
        {
            let c = raw_cloid.get_ascii(i) as char;
            assert(c == raw_cloid@[i as int]);
            if !is_hex_char(c) {
                return Err(Error::CloidInvalidCharacters);
            }
            i += 1;
        }
        if n != CLOID_LEN {
            return Err(Error::CloidHexString);
        }
        let mut out = String::new();
        push_char(&mut out, '0');
        push_char(&mut out, 'x');
        let mut k: usize = 2;
        while k < CLOID_LEN
            invariant
                2 <= k <= CLOID_LEN,
                raw_cloid@.len() == CLOID_LEN,
                is_ascii_chars(raw_cloid@),
                has_marker(raw_cloid@),
                out@.len() == k,
                out@[0] == '0',
                out@[1] == 'x',
                forall|j: int| 2 <= j < k ==> #[trigger] out@[j] == upper_hex(raw_cloid@[j]),
            decreases CLOID_LEN - k,
        {
            let c = raw_cloid.get_ascii(k) as char;
            assert(c == raw_cloid@[k as int]);
            push_char(&mut out, upper_hex_char(c));
            k += 1;
        }
        proof {
            assert(out@ =~= normalized(raw_cloid@));
            assert forall|j: int| 2 <= j < out@.len() implies is_hex_digit(#[trigger] out@[j]) by {
                assert(is_hex_digit(raw_cloid@[j]));
            }
        }
        Ok(Cloid(out))
    }

    /// The identifier for an integer: `0x` and its 32 lower-case digits,
    /// which read back as the integer.
    pub fn from_int(cloid: u128) -> (r: Cloid)
        ensures
            r@ == cloid_text_of(cloid),
            is_cloid_text(r@),
            hex_value(r@.subrange(2, CLOID_LEN as int)) == cloid,
    {
        let mut out = String::new();
        push_char(&mut out, '0');
        push_char(&mut out, 'x');
        push_hex(&mut out, cloid, CLOID_DIGITS);
        proof {
            lemma_hex_digits_shape(cloid as nat, CLOID_DIGITS as nat);
            lemma_from_int_round_trip(cloid);
            assert(out@ =~= cloid_text_of(cloid));
        }
        Cloid(out)
    }

    /// The text of the identifier, as it is compared, hashed and sent.
    pub fn to_raw(&self) -> (r: &str)
        ensures
            r@ == self@,
            is_cloid_text(r@),
    {
        proof {
            use_type_invariant(self);
        }
        self.0.as_str()
    }
}

/// `hex_digits` gives `n` characters, each a hexadecimal digit.
pub proof fn lemma_hex_digits_shape(x: nat, n: nat)
    ensures
        hex_digits(x, n).len() == n,
        forall|i: int| 0 <= i < n ==> is_hex_digit(#[trigger] hex_digits(x, n)[i]),
    decreases n,
{
    if n > 0 {
        lemma_hex_digits_shape(x / 16, (n - 1) as nat);
    }
}

/// Reading back the `n` digits written for `x` gives `x`, where `x` is below `16^n`.
pub proof fn lemma_hex_value_of_digits(x: nat, n: nat)
    requires
        x < pow16(n),
    ensures
        hex_value(hex_digits(x, n)) == x,
    decreases n,
{
    if n > 0 {
        let rest = hex_digits(x / 16, (n - 1) as nat);
        let s = hex_digits(x, n);
        lemma_hex_value_of_digits(x / 16, (n - 1) as nat);
        assert(s.drop_last() =~= rest);
        assert(s.last() == lower_hex_digit(x % 16));
        assert(hex_digit_value(lower_hex_digit(x % 16)) == x % 16);
    }
}

/// Every identifier made from an integer has the format that `new` accepts.
pub proof fn lemma_from_int_is_cloid_text(x: u128)
    ensures
        is_cloid_text(cloid_text_of(x)),
{
    lemma_hex_digits_shape(x as nat, CLOID_DIGITS as nat);
}

/// Round trip: the 32 digits behind the marker of the identifier made from
/// `x`, read as a hexadecimal number, are `x` again.
pub proof fn lemma_from_int_round_trip(x: u128)
    ensures
        hex_value(cloid_text_of(x).subrange(2, CLOID_LEN as int)) == x,
{
    lemma_hex_digits_shape(x as nat, CLOID_DIGITS as nat);
    assert(cloid_text_of(x).subrange(2, CLOID_LEN as int) =~= hex_digits(x as nat, 32));
    assert(pow16(32) == 0x1_0000_0000_0000_0000_0000_0000_0000_0000) by {
        reveal_with_fuel(pow16, 33);
    }
    lemma_hex_value_of_digits(x as nat, 32);
}

/// What normalizing does to a well-formed text: the marker stays, each
/// digit is put in upper case and stands for the same number, and the
/// result is well-formed again.
pub proof fn lemma_normalized_digits(s: Seq<char>, i: int)
    requires
        is_cloid_text(s),
        0 <= i < s.len(),
    ensures
        normalized(s).len() == s.len(),
        i < 2 ==> normalized(s)[i] == s[i],
        i >= 2 ==> normalized(s)[i] == upper_hex(s[i]) && hex_digit_value(normalized(s)[i])
            == hex_digit_value(s[i]),
        is_cloid_text(normalized(s)),
{
    assert forall|j: int| 2 <= j < normalized(s).len() implies is_hex_digit(
        #[trigger] normalized(s)[j],
    ) by {
        assert(is_hex_digit(s[j]));
    }
}

} // verus!
