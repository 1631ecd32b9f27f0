//! Numbers and short pieces of text, as messages and JSON fields write them.
use vstd::prelude::*;
use vstd::utf8;

verus! {

/// `String::push`: the character is appended to the text.
pub assume_specification[ String::push ](s: &mut String, c: char)
    ensures
        final(s)@ == old(s)@.push(c),
;

/// The digit `d` of a number in a radix of at most sixteen, in lower case.
pub open spec fn digit_char(d: nat) -> char {
    if d < 10 {
        (d + 48) as char
    } else {
        (d + 87) as char
    }
}

/// `n` written in `radix`, without leading zeros.
pub open spec fn in_radix(n: nat, radix: nat) -> Seq<char>
    decreases n,
{
    if n < radix || radix < 2 {
        seq![digit_char(n)]
    } else {
        proof {
            assert(n / radix < n) by (nonlinear_arith)
                requires
                    n >= radix,
                    radix >= 2,
            ;
        }
        in_radix(n / radix, radix).push(digit_char(n % radix))
    }
}

/// `n` in decimal.
pub open spec fn decimal(n: nat) -> Seq<char> {
    in_radix(n, 10)
}

/// `n` in lower-case hexadecimal.
pub open spec fn hexadecimal(n: nat) -> Seq<char> {
    in_radix(n, 16)
}

/// `0x` and `n` in lower-case hexadecimal.
pub open spec fn prefixed_hex(n: nat) -> Seq<char> {
    "0x"@ + hexadecimal(n)
}

fn digit(d: u8) -> (c: char)
    requires
        d < 16,
    ensures
        c == digit_char(d as nat),
{
    if d < 10 {
        (d + 48) as char
    } else {
        (d + 87) as char
    }
}

fn push_in_radix(s: &mut String, n: u128, radix: u128)
    requires
        2 <= radix <= 16,
    ensures
        final(s)@ == old(s)@ + in_radix(n as nat, radix as nat),
    decreases n,
{
    if n < radix {
        s.push(digit(n as u8));
        assert(s@ =~= old(s)@ + in_radix(n as nat, radix as nat));
    } else {
        assert(n / radix < n) by (nonlinear_arith)
            requires
                n >= radix,
                radix >= 2,
        ;
        push_in_radix(s, n / radix, radix);
        let d: u128 = n % radix;
        s.push(digit(d as u8));
        assert(s@ =~= old(s)@ + in_radix(n as nat, radix as nat));
    }
}

/// Appends `n` in decimal.
pub fn push_decimal(s: &mut String, n: u128)
    ensures
        final(s)@ == old(s)@ + decimal(n as nat),
{
    push_in_radix(s, n, 10);
}

/// `n` in decimal.
pub fn to_decimal(n: u128) -> (s: String)
    ensures
        s@ == decimal(n as nat),
{
    let mut s = String::new();
    push_decimal(&mut s, n);
    assert(s@ =~= decimal(n as nat));
    s
}

/// `0x` and `n` in lower-case hexadecimal.
pub fn to_prefixed_hex(n: u128) -> (s: String)
    ensures
        s@ == prefixed_hex(n as nat),
{
    let mut s = "0x".to_owned();
    push_in_radix(&mut s, n, 16);
    s
}

/// A text and what follows it.
pub fn join(prefix: &str, rest: &str) -> (s: String)
    ensures
        s@ == prefix@ + rest@,
{
    let mut s = prefix.to_owned();
    s.append(rest);
    s
}

/// A result with the error taken as text.
pub open spec fn with_text_error<T>(r: Result<T, String>) -> Result<T, Seq<char>> {
    match r {
        Ok(v) => Ok(v),
        Err(e) => Err(e@),
    }
}

/// An optional byte string by its view.
pub open spec fn opt_bytes(v: Option<Vec<u8>>) -> Option<Seq<u8>> {
    match v {
        Some(b) => Some(b@),
        None => None,
    }
}

/// Whether two texts are the same.
pub fn str_eq(a: &str, b: &str) -> (r: bool)
    ensures
        r == (a@ == b@),
{
    let x = a.as_bytes();
    let y = b.as_bytes();
    proof {
        utf8::encode_utf8_decode_utf8(a@);
        utf8::encode_utf8_decode_utf8(b@);
    }
    if x.len() != y.len() {
        return false;
    }
    let mut i: usize = 0;
    while i < x.len()
        invariant
            i <= x@.len(),
            x@.len() == y@.len(),
            x@ == utf8::encode_utf8(a@),
            y@ == utf8::encode_utf8(b@),
            forall|j: int| 0 <= j < i ==> x@[j] == y@[j],
        decreases x@.len() - i,
    {
        if x[i] != y[i] {
            assert(x@[i as int] != y@[i as int]);
            return false;
        }
        i = i + 1;
    }
    assert(x@ =~= y@);
    true
}

/// Whether two byte strings are the same.
pub fn bytes_eq(x: &[u8], y: &[u8]) -> (r: bool)
    ensures
        r == (x@ == y@),
{
    if x.len() != y.len() {
        return false;
    }
    let mut i: usize = 0;
    while i < x.len()
        invariant
            i <= x@.len(),
            x@.len() == y@.len(),
            forall|j: int| 0 <= j < i ==> x@[j] == y@[j],
        decreases x@.len() - i,
    {
        if x[i] != y[i] {
            assert(x@[i as int] != y@[i as int]);
            return false;
        }
        i = i + 1;
    }
    assert(x@ =~= y@);
    true
}

/// A copy of a byte string.
pub fn copy_bytes(v: &Vec<u8>) -> (r: Vec<u8>)
    ensures
        r@ == v@,
{
    vstd::slice::slice_to_vec(v.as_slice())
}

/// What the byte `b` counts for as a digit of at most base sixteen, in either
/// case.
pub open spec fn digit_value(b: u8) -> Option<nat> {
    if 48 <= b <= 57 {
        Some((b - 48) as nat)
    } else if 97 <= b <= 102 {
        Some((b - 87) as nat)
    } else if 65 <= b <= 70 {
        Some((b - 55) as nat)
    } else {
        None
    }
}

/// Whether every byte is a digit in `radix`.
pub open spec fn all_digits(b: Seq<u8>, radix: nat) -> bool {
    forall|i: int| 0 <= i < b.len() ==> (#[trigger] digit_value(b[i])) is Some && digit_value(
        b[i],
    )->0 < radix
}

/// The number that a string of digits writes.
pub open spec fn digits_value(b: Seq<u8>, radix: nat) -> nat
    decreases b.len(),
{
    if b.len() == 0 {
        0
    } else {
        digits_value(b.drop_last(), radix) * radix + digit_value(b.last())->0
    }
}

/// `b` without one leading plus sign.
pub open spec fn without_plus(b: Seq<u8>) -> Seq<u8> {
    if b.len() > 0 && b[0] == 43 {
        b.skip(1)
    } else {
        b
    }
}

/// The number that a text writes in `radix`: digits, after an optional plus
/// sign, whose value is at most `max`.
pub open spec fn number_in(b: Seq<u8>, radix: nat, max: nat) -> Option<nat> {
    let d = without_plus(b);
    if d.len() > 0 && all_digits(d, radix) && digits_value(d, radix) <= max {
        Some(digits_value(d, radix))
    } else {
        None
    }
}

proof fn lemma_digits_monotone(b: Seq<u8>, k: int, radix: nat)
    requires
        0 <= k <= b.len(),
        radix >= 1,
    ensures
        digits_value(b.take(k), radix) <= digits_value(b, radix),
    decreases b.len(),
{
    if k == b.len() {
        assert(b.take(k) =~= b);
    } else {
        lemma_digits_monotone(b.drop_last(), k, radix);
        assert(b.drop_last().take(k) =~= b.take(k));
        let p = digits_value(b.drop_last(), radix);
        assert(p * radix >= p) by (nonlinear_arith)
            requires
                radix >= 1,
        ;
    }
}

/// Reads a number of at most `max` in `radix`.
pub fn parse_number(bytes: &[u8], radix: u128, max: u128) -> (r: Option<u128>)
    requires
        2 <= radix <= 16,
    ensures
        match r {
            Some(n) => number_in(bytes@, radix as nat, max as nat) == Some(n as nat),
            None => number_in(bytes@, radix as nat, max as nat) is None,
        },
{
    let start: usize = if bytes.len() > 0 && bytes[0] == 43 {
        1
    } else {
        0
    };
    let ghost d = without_plus(bytes@);
    assert(d =~= bytes@.skip(start as int));
    if bytes.len() == start {
        return None;
    }
    let mut n: u128 = 0;
    let mut i: usize = start;
    assert(d.take(0) =~= Seq::<u8>::empty());
    while i < bytes.len()
        invariant
            2 <= radix <= 16,
            start <= i <= bytes@.len(),
            d == bytes@.skip(start as int),
            d == without_plus(bytes@),
            n == digits_value(d.take(i - start), radix as nat),
            n <= max,
            all_digits(d.take(i - start), radix as nat),
        decreases bytes@.len() - i,
    {
        let b: u8 = bytes[i];
        let ghost at = i - start;
        assert(d[at] == b);
        let v: u128 = if 48 <= b && b <= 57 {
            (b - 48) as u128
        } else if 97 <= b && b <= 102 {
            (b - 87) as u128
        } else if 65 <= b && b <= 70 {
            (b - 55) as u128
        } else {
            16
        };
        if v >= radix {
            assert(digit_value(d[at]) is None || digit_value(d[at])->0 >= radix);
            return None;
        }
        assert(d.take(at + 1).drop_last() =~= d.take(at));
        assert(d.take(at + 1).last() == b);
        proof {
            lemma_digits_monotone(d, at + 1, radix as nat);
        }
        let scaled = n.checked_mul(radix);
        match scaled {
            Some(m) => {
                match m.checked_add(v) {
                    Some(t) => {
                        if t > max {
                            return None;
                        }
                        n = t;
                    },
                    None => {
                        return None;
                    },
                }
            },
            None => {
                return None;
            },
        }
        assert forall|j: int| 0 <= j < d.take(at + 1).len() implies (#[trigger] digit_value(
            d.take(at + 1)[j],
        )) is Some && digit_value(d.take(at + 1)[j])->0 < radix as nat by {
            if j < at {
                assert(d.take(at + 1)[j] == d.take(at)[j]);
                assert(digit_value(d.take(at)[j]) is Some);
            }
        }
        i = i + 1;
    }
    assert(d.take(i - start) =~= d);
    Some(n)
}

} // verus!
