//! What the texts and bytes of numbers and keys come to: which digits they are
//! made of, what they are worth, and which texts are read.
use vstd::prelude::*;
use vstd::utf8;

use crate::hexcodec;
use crate::hexcodec::{RpcError, RpcFault};
use crate::keymap;
use crate::keymap::Key;
use crate::text;
use crate::words;

verus! {

/// What a lower-case digit is worth; nothing where a character is none.
pub open spec fn worth(c: char) -> Option<int> {
    if '0' <= c <= '9' {
        Some(c as int - '0' as int)
    } else if 'a' <= c <= 'f' {
        Some(c as int - 'a' as int + 10)
    } else {
        None
    }
}

/// What digits are worth together, the first counting the most.
pub open spec fn worth_of(t: Seq<char>, radix: int) -> int
    decreases t.len(),
{
    if t.len() == 0 {
        0
    } else {
        worth_of(t.drop_last(), radix) * radix + worth(t.last())->0
    }
}

/// A number is written in digits of its radix, in lower case, that are worth it; the
/// first is a zero only where the number is one.
pub proof fn law_numbers_are_written_in_full(n: nat, radix: nat)
    requires
        2 <= radix <= 16,
    ensures
        ({
            let t = text::in_radix(n, radix);
            &&& t.len() > 0
            &&& forall|i: int| 0 <= i < t.len() ==> worth(#[trigger] t[i]) is Some && worth(t[i])->0
                < radix
            &&& worth_of(t, radix as int) == n
            &&& t[0] == '0' ==> n == 0
        }),
    decreases n,
{
    let t = text::in_radix(n, radix);
    let r = radix as int;
    if n < radix {
        assert(t.drop_last() =~= Seq::empty());
        assert(t.last() == t[0]);
        assert(worth_of(t.drop_last(), r) == 0);
        assert(0 * r == 0) by (nonlinear_arith);
    } else {
        assert(0 < n / radix < n) by (nonlinear_arith)
            requires
                n >= radix,
                radix >= 2,
        ;
        law_numbers_are_written_in_full(n / radix, radix);
        let before = text::in_radix(n / radix, radix);
        assert(t.drop_last() =~= before);
        assert(0 <= n % radix < radix) by (nonlinear_arith)
            requires
                radix >= 2,
        ;
        assert(n == (n / radix) * radix + n % radix) by (nonlinear_arith)
            requires
                radix >= 2,
        ;
        assert(worth(t.last()) == Some((n % radix) as int));
        assert forall|i: int| 0 <= i < t.len() implies worth(#[trigger] t[i]) is Some && worth(
            t[i],
        )->0 < radix by {
            if i < before.len() {
                assert(t[i] == before[i]);
            }
        }
        assert(t[0] == before[0]);
    }
}

/// Two numbers are written alike only where they are the same.
pub proof fn law_numbers_are_told_apart(a: nat, b: nat)
    ensures
        text::decimal(a) == text::decimal(b) ==> a == b,
        text::hexadecimal(a) == text::hexadecimal(b) ==> a == b,
        text::prefixed_hex(a) == text::prefixed_hex(b) ==> a == b,
{
    law_numbers_are_written_in_full(a, 10);
    law_numbers_are_written_in_full(b, 10);
    law_numbers_are_written_in_full(a, 16);
    law_numbers_are_written_in_full(b, 16);
    if text::prefixed_hex(a) == text::prefixed_hex(b) {
        reveal_strlit("0x");
        assert(text::prefixed_hex(a).skip(2) =~= text::hexadecimal(a));
        assert(text::prefixed_hex(b).skip(2) =~= text::hexadecimal(b));
    }
}

/// Decimal texts are made of the ten digits, and hexadecimal ones begin with `0x`.
pub proof fn law_decimal_and_hex_texts(n: nat)
    ensures
        forall|i: int|
            0 <= i < text::decimal(n).len() ==> '0' <= #[trigger] text::decimal(n)[i] <= '9',
        worth_of(text::decimal(n), 10) == n,
        text::prefixed_hex(n).take(2) == "0x"@,
        worth_of(text::prefixed_hex(n).skip(2), 16) == n,
{
    law_numbers_are_written_in_full(n, 10);
    law_numbers_are_written_in_full(n, 16);
    reveal_strlit("0x");
    assert(text::prefixed_hex(n).take(2) =~= "0x"@);
    assert(text::prefixed_hex(n).skip(2) =~= text::hexadecimal(n));
    assert forall|i: int| 0 <= i < text::decimal(n).len() implies '0' <= #[trigger] text::decimal(
        n,
    )[i] <= '9' by {
        assert(worth(text::in_radix(n, 10)[i]) is Some);
    }
}

/// What a byte is worth as a digit, in either case.
pub open spec fn byte_worth(b: u8) -> Option<int> {
    if 0x30 <= b <= 0x39 {
        Some(b - 0x30)
    } else if 0x61 <= b <= 0x66 {
        Some(b - 0x61 + 10)
    } else if 0x41 <= b <= 0x46 {
        Some(b - 0x41 + 10)
    } else {
        None
    }
}

proof fn lemma_digits_of_text(t: Seq<char>, radix: nat)
    requires
        forall|i: int| 0 <= i < t.len() ==> worth(#[trigger] t[i]) is Some && worth(t[i])->0
            < radix,
    ensures
        ({
            let e = utf8::encode_utf8(t);
            &&& e.len() == t.len()
            &&& text::all_digits(e, radix)
            &&& text::digits_value(e, radix) == worth_of(t, radix as int)
            &&& forall|i: int| 0 <= i < e.len() ==> #[trigger] e[i] == t[i] as u8
        }),
    decreases t.len(),
{
    assert(utf8::is_ascii_chars(t)) by {
        assert forall|i: int| 0 <= i < t.len() implies '\0' <= #[trigger] t[i] <= '\u{7f}' by {
            assert(worth(t[i]) is Some);
        }
    }
    utf8::is_ascii_chars_encode_utf8(t);
    let e = utf8::encode_utf8(t);
    assert forall|i: int| 0 <= i < e.len() implies (#[trigger] text::digit_value(e[i])) is Some
        && text::digit_value(e[i])->0 < radix by {
        assert(worth(t[i]) is Some);
        assert(e[i] == t[i] as u8);
    }
    if t.len() > 0 {
        let rest = t.drop_last();
        assert forall|i: int| 0 <= i < rest.len() implies worth(#[trigger] rest[i]) is Some && worth(
            rest[i],
        )->0 < radix by {
            assert(rest[i] == t[i]);
        }
        lemma_digits_of_text(rest, radix);
        assert(utf8::encode_utf8(rest) =~= e.drop_last());
        assert(worth(t[t.len() - 1]) is Some);
        assert(e.last() == t.last() as u8);
    }
}

/// A number that is written is read back, as long as it is not above the greatest
/// that is read.
pub proof fn law_written_numbers_are_read_back(n: nat, radix: nat, max: nat)
    requires
        2 <= radix <= 16,
    ensures
        text::number_in(utf8::encode_utf8(text::in_radix(n, radix)), radix, max) == (if n <= max {
            Some(n)
        } else {
            None
        }),
{
    law_numbers_are_written_in_full(n, radix);
    let t = text::in_radix(n, radix);
    lemma_digits_of_text(t, radix);
    let e = utf8::encode_utf8(t);
    assert(worth(t[0]) is Some);
    assert(e[0] == t[0] as u8);
    assert(text::without_plus(e) == e);
}

/// What is not a number is not read as one: no digits at all, a byte that is no
/// digit of the radix after the first, or a value above the greatest. One plus
/// sign in front is passed over.
pub proof fn law_only_numbers_are_read(b: Seq<u8>, radix: nat, max: nat)
    requires
        2 <= radix <= 16,
    ensures
        b.len() == 0 ==> text::number_in(b, radix, max) is None,
        (exists|i: int|
            1 <= i < b.len() && (byte_worth(#[trigger] b[i]) is None || byte_worth(b[i])->0
                >= radix)) ==> text::number_in(b, radix, max) is None,
        b.len() > 0 && b[0] != 43 && (byte_worth(b[0]) is None || byte_worth(b[0])->0 >= radix)
            ==> text::number_in(b, radix, max) is None,
        text::number_in(b, radix, max) is Some ==> text::number_in(b, radix, max)->0 <= max,
        text::number_in(seq![43u8], radix, max) is None,
        b.len() > 0 && b[0] != 43 ==> text::number_in(seq![43u8] + b, radix, max)
            == text::number_in(b, radix, max),
{
    assert(seq![43u8].skip(1) =~= Seq::empty());
    assert((seq![43u8] + b).skip(1) =~= b);
    if exists|i: int|
        1 <= i < b.len() && (byte_worth(#[trigger] b[i]) is None || byte_worth(b[i])->0 >= radix) {
        let i = choose|i: int|
            1 <= i < b.len() && (byte_worth(#[trigger] b[i]) is None || byte_worth(b[i])->0
                >= radix);
        let d = text::without_plus(b);
        let j = if b[0] == 43 {
            i - 1
        } else {
            i
        };
        assert(d[j] == b[i]);
        assert(text::digit_value(d[j]) is None || text::digit_value(d[j])->0 >= radix);
    }
    if b.len() > 0 && b[0] != 43 && (byte_worth(b[0]) is None || byte_worth(b[0])->0 >= radix) {
        assert(text::digit_value(text::without_plus(b)[0]) is None || text::digit_value(
            text::without_plus(b)[0],
        )->0 >= radix);
    }
}

/// One more digit makes a number that many times greater, and adds its worth.
pub proof fn law_digits_add_up(b: Seq<u8>, d: u8, radix: nat, max: nat)
    requires
        2 <= radix <= 16,
        b.len() > 0,
        b[0] != 43,
        text::number_in(b, radix, max) is Some,
        byte_worth(d) is Some,
        byte_worth(d)->0 < radix,
    ensures
        ({
            let v = text::number_in(b, radix, max)->0 * radix + byte_worth(d)->0;
            text::number_in(b.push(d), radix, max) == (if v <= max {
                Some(v as nat)
            } else {
                None
            })
        }),
{
    let p = b.push(d);
    assert(text::without_plus(p) == p);
    assert(text::without_plus(b) == b);
    assert(p.drop_last() =~= b);
    assert forall|i: int| 0 <= i < p.len() implies (#[trigger] text::digit_value(p[i])) is Some
        && text::digit_value(p[i])->0 < radix by {
        if i < b.len() {
            assert(text::digit_value(b[i]) is Some);
        }
    }
    assert(0 <= text::digits_value(b, radix) * radix) by (nonlinear_arith);
}

/// The bytes of a number come with the least significant one first.
pub proof fn law_the_least_byte_comes_first(v: nat, n: nat, b: Seq<u8>)
    ensures
        n > 0 ==> words::le_bytes(v, n).len() > 0 && words::le_bytes(v, n)[0] == v % 256,
        n > 0 ==> words::le_bytes(v, n).skip(1) == words::le_bytes(v / 256, (n - 1) as nat),
        words::le_bytes(v, 0).len() == 0,
        b.len() > 0 ==> words::le_value(b) % 256 == b[0] && words::le_value(b) / 256
            == words::le_value(b.skip(1)),
        b.len() == 0 ==> words::le_value(b) == 0,
{
    if n > 0 {
        assert(words::le_bytes(v, n).skip(1) =~= words::le_bytes(v / 256, (n - 1) as nat));
    }
}

/// Bytes are given back from the number that they write.
pub proof fn law_bytes_are_given_back(b: Seq<u8>)
    ensures
        words::le_bytes(words::le_value(b), b.len()) == b,
    decreases b.len(),
{
    if b.len() > 0 {
        law_bytes_are_given_back(b.skip(1));
        law_the_least_byte_comes_first(words::le_value(b), b.len(), b);
        assert(seq![b[0]] + b.skip(1) =~= b);
    } else {
        assert(words::le_bytes(words::le_value(b), b.len()) =~= b);
    }
}

/// Hex text has two lower-case digits for each byte, the greater one first, which
/// are worth it.
pub proof fn law_hex_text_is_worth_its_bytes(b: Seq<u8>, i: int)
    requires
        0 <= i < b.len(),
    ensures
        ({
            let h = hexcodec::hex_text(b);
            &&& h.len() == 2 * b.len()
            &&& worth(h[2 * i]) is Some && worth(h[2 * i + 1]) is Some
            &&& worth(h[2 * i])->0 * 16 + worth(h[2 * i + 1])->0 == b[i]
        }),
        hexcodec::prefixed_hex_text(b).take(2) == "0x"@,
        hexcodec::prefixed_hex_text(b).skip(2) == hexcodec::hex_text(b),
{
    assert((2 * i) % 2 == 0 && (2 * i + 1) % 2 == 1 && (2 * i) / 2 == i && (2 * i + 1) / 2 == i);
    reveal_strlit("0x");
    assert(hexcodec::prefixed_hex_text(b).take(2) =~= "0x"@);
    assert(hexcodec::prefixed_hex_text(b).skip(2) =~= hexcodec::hex_text(b));
}

/// A text is hex exactly where it is an even number of digits of either case, and
/// then writes the bytes that each two of them are worth.
pub proof fn law_hex_is_read_in_either_case(b: Seq<u8>)
    ensures
        hexcodec::is_hex(b) <==> b.len() % 2 == 0 && forall|i: int|
            0 <= i < b.len() ==> byte_worth(#[trigger] b[i]) is Some,
        !hexcodec::is_hex(b) ==> hexcodec::hex_or_empty(b).len() == 0,
        hexcodec::is_hex(b) ==> {
            let v = hexcodec::hex_or_empty(b);
            &&& 2 * v.len() == b.len()
            &&& forall|i: int|
                0 <= i < v.len() ==> #[trigger] v[i] == byte_worth(b[2 * i])->0 * 16 + byte_worth(
                    b[2 * i + 1],
                )->0
        },
{
    assert forall|i: int| 0 <= i < b.len() implies hexcodec::is_hex_digit(#[trigger] b[i]) == (
    byte_worth(b[i]) is Some) by {}
    if hexcodec::is_hex(b) {
        let v = hexcodec::hex_or_empty(b);
        assert forall|i: int| 0 <= i < v.len() implies #[trigger] v[i] == byte_worth(b[2 * i])->0
            * 16 + byte_worth(b[2 * i + 1])->0 by {
            assert(hexcodec::is_hex_digit(b[2 * i]));
            assert(hexcodec::is_hex_digit(b[2 * i + 1]));
        }
    }
}

/// One `0x` in front is taken off, and nothing else.
pub proof fn law_one_prefix_is_taken_off(b: Seq<u8>)
    ensures
        hexcodec::without_0x(seq![0x30u8, 0x78u8] + b) == b,
        !(b.len() >= 2 && b[0] == 0x30 && b[1] == 0x78) ==> hexcodec::without_0x(b) == b,
{
    assert((seq![0x30u8, 0x78u8] + b).skip(2) =~= b);
}

/// However many `0x` stand in front, none is left, and nothing else is taken off.
pub proof fn law_every_prefix_is_taken_off(b: Seq<u8>)
    ensures
        hexcodec::without_all_0x(seq![0x30u8, 0x78u8] + b) == hexcodec::without_all_0x(b),
        !(b.len() >= 2 && b[0] == 0x30 && b[1] == 0x78) ==> hexcodec::without_all_0x(b) == b,
        ({
            let r = hexcodec::without_all_0x(b);
            !(r.len() >= 2 && r[0] == 0x30 && r[1] == 0x78)
        }),
    decreases b.len(),
{
    assert((seq![0x30u8, 0x78u8] + b).skip(2) =~= b);
    if b.len() >= 2 && b[0] == 0x30 && b[1] == 0x78 {
        law_every_prefix_is_taken_off(b.skip(2));
    }
}

proof fn lemma_first_bad(b: Seq<u8>, from: nat)
    requires
        from <= b.len(),
    ensures
        ({
            let i = hexcodec::first_bad_digit(b, from);
            &&& from <= i <= b.len()
            &&& i < b.len() ==> byte_worth(b[i as int]) is None
            &&& forall|j: int| from <= j < i ==> byte_worth(#[trigger] b[j]) is Some
        }),
    decreases b.len() - from,
{
    if from < b.len() && hexcodec::is_hex_digit(b[from as int]) {
        lemma_first_bad(b, from + 1);
    }
}

/// The digit that an error names is the first that is none, at its place.
pub proof fn law_the_first_bad_digit_is_named(b: Seq<u8>)
    requires
        !hexcodec::is_hex(b),
    ensures
        b.len() % 2 != 0 ==> hexcodec::hex_error_text(b) == "Odd number of digits"@,
        b.len() % 2 == 0 ==> exists|i: int|
            {
                &&& 0 <= i < b.len()
                &&& byte_worth(#[trigger] b[i]) is None
                &&& forall|j: int| 0 <= j < i ==> byte_worth(#[trigger] b[j]) is Some
                &&& hexcodec::hex_error_text(b) == "Invalid character "@ + hexcodec::quoted_char(
                    b[i],
                ) + " at position "@ + text::decimal(i as nat)
            },
{
    if b.len() % 2 == 0 {
        lemma_first_bad(b, 0);
        law_hex_is_read_in_either_case(b);
        let i = hexcodec::first_bad_digit(b, 0) as int;
        assert(i < b.len());
        assert(byte_worth(b[i]) is None);
    }
}

/// Of hex texts exactly those of 32 bytes are read as a key, of which the bytes are
/// those written; any other text is refused with the code for bad parameters, and
/// told why.
pub proof fn law_keys_are_read_from_32_bytes(input: Seq<char>, k: Key)
    ensures
        ({
            let b = hexcodec::without_0x(utf8::encode_utf8(input));
            let good = hexcodec::is_hex(b) && b.len() == 64;
            &&& hexcodec::address_of(input) is Ok <==> good
            &&& hexcodec::hash_of(input) is Ok <==> good
            &&& good && k@ == hexcodec::hex_or_empty(b) ==> hexcodec::address_of(input) == Ok::<
                Key,
                RpcFault,
            >(k) && hexcodec::hash_of(input) == Ok::<Key, RpcFault>(k)
            &&& !hexcodec::is_hex(b) ==> hexcodec::address_of(input) == Err::<Key, RpcFault>(
                (-32602i32, "invalid address: "@ + hexcodec::hex_error_text(b)),
            ) && hexcodec::hash_of(input) == Err::<Key, RpcFault>(
                (-32602i32, "invalid hash: "@ + hexcodec::hex_error_text(b)),
            )
            &&& hexcodec::is_hex(b) && !good ==> hexcodec::address_of(input) == Err::<
                Key,
                RpcFault,
            >(
                (
                    -32602i32,
                    "address must be 32 bytes, got "@ + text::decimal((b.len() / 2) as nat),
                ),
            ) && hexcodec::hash_of(input) == Err::<Key, RpcFault>(
                (-32602i32, "hash must be 32 bytes, got "@ + text::decimal((b.len() / 2) as nat)),
            )
        }),
{
    keymap::lemma_key_of(k);
}

/// Bytes with or without `0x` are read alike, and what is not hex is told apart by
/// the given words in front.
pub proof fn law_prefixed_bytes_are_read(input: Seq<char>, prefix: Seq<char>)
    ensures
        ({
            let b = hexcodec::without_0x(utf8::encode_utf8(input));
            match hexcodec::prefixed_bytes(input, prefix) {
                Ok(v) => hexcodec::is_hex(b) && v == hexcodec::hex_or_empty(b),
                Err(e) => !hexcodec::is_hex(b) && e == prefix + hexcodec::hex_error_text(b),
            }
        }),
{
}

/// A number in hexadecimal is read back with and without its `0x`.
pub proof fn lemma_prefixed_number(n: nat)
    ensures
        hexcodec::without_0x(utf8::encode_utf8(text::prefixed_hex(n))) == utf8::encode_utf8(
            text::hexadecimal(n),
        ),
        hexcodec::without_0x(utf8::encode_utf8(text::hexadecimal(n))) == utf8::encode_utf8(
            text::hexadecimal(n),
        ),
{
    let h = text::hexadecimal(n);
    let p = text::prefixed_hex(n);
    law_numbers_are_written_in_full(n, 16);
    lemma_digits_of_text(h, 16);
    let e = utf8::encode_utf8(h);
    reveal_strlit("0x");
    assert(p[0] == '0' && p[1] == 'x');
    assert(utf8::is_ascii_chars(p)) by {
        assert forall|i: int| 0 <= i < p.len() implies '\0' <= #[trigger] p[i] <= '\u{7f}' by {
            if i >= 2 {
                assert(p[i] == h[i - 2]);
                assert(worth(h[i - 2]) is Some);
            }
        }
    }
    utf8::is_ascii_chars_encode_utf8(p);
    let pe = utf8::encode_utf8(p);
    assert(pe[0] == 0x30 && pe[1] == 0x78);
    assert(pe.skip(2) =~= e) by {
        assert forall|i: int| 0 <= i < e.len() implies pe.skip(2)[i] == e[i] by {
            assert(pe[i + 2] == p[i + 2] as u8);
            assert(e[i] == h[i] as u8);
        }
    }
    if e.len() >= 2 {
        assert(worth(h[1]) is Some);
        assert(e[1] == h[1] as u8);
    }
}

proof fn lemma_hex_is_digits(b: Seq<u8>)
    ensures
        forall|i: int|
            0 <= i < hexcodec::hex_text(b).len() ==> worth(#[trigger] hexcodec::hex_text(b)[i])
                is Some && worth(hexcodec::hex_text(b)[i])->0 < 16,
{
}

proof fn lemma_hex_encoding(b: Seq<u8>)
    ensures
        ({
            let e = utf8::encode_utf8(hexcodec::hex_text(b));
            &&& utf8::encode_utf8(hexcodec::prefixed_hex_text(b)) == seq![0x30u8, 0x78u8] + e
            &&& !(e.len() >= 2 && e[0] == 0x30 && e[1] == 0x78)
        }),
{
    let h = hexcodec::hex_text(b);
    let p = hexcodec::prefixed_hex_text(b);
    let e = utf8::encode_utf8(h);
    let pe = utf8::encode_utf8(p);
    lemma_hex_is_digits(b);
    lemma_digits_of_text(h, 16);
    reveal_strlit("0x");
    assert(p == "0x"@ + h);
    assert(utf8::is_ascii_chars(p)) by {
        assert forall|i: int| 0 <= i < p.len() implies '\0' <= #[trigger] p[i] <= '\u{7f}' by {
            if i >= 2 {
                assert(p[i] == h[i - 2]);
                assert(worth(h[i - 2]) is Some);
            }
        }
    }
    utf8::is_ascii_chars_encode_utf8(p);
    assert forall|i: int| 2 <= i < pe.len() implies pe[i] == e[i - 2] by {
        assert(pe[i] == p[i] as u8);
        assert(p[i] == h[i - 2]);
    }
    assert(pe =~= seq![0x30u8, 0x78u8] + e);
    if e.len() >= 2 {
        assert(worth(h[1]) is Some);
        assert(e[1] == h[1] as u8);
    }
}

/// Hex text is read back where every `0x` in front is taken off.
pub proof fn lemma_hex_without_all_prefixes(b: Seq<u8>)
    ensures
        hexcodec::hex_or_empty(
            hexcodec::without_all_0x(utf8::encode_utf8(hexcodec::prefixed_hex_text(b))),
        ) == b,
        hexcodec::hex_or_empty(
            hexcodec::without_all_0x(utf8::encode_utf8(hexcodec::hex_text(b))),
        ) == b,
{
    let e = utf8::encode_utf8(hexcodec::hex_text(b));
    lemma_hex_encoding(b);
    law_every_prefix_is_taken_off(e);
    assert(hexcodec::hex_or_empty(e) == b) by {
        hexcodec::law_hex_round_trip(b);
    }
}

/// Hex text is hex, and writes its bytes, with and without its `0x`.
pub proof fn lemma_hex_is_read(b: Seq<u8>)
    ensures
        ({
            let e = hexcodec::without_0x(utf8::encode_utf8("0x"@ + hexcodec::hex_text(b)));
            let h = hexcodec::without_0x(utf8::encode_utf8(hexcodec::hex_text(b)));
            &&& e == h
            &&& hexcodec::is_hex(h)
            &&& hexcodec::hex_bytes(h) == b
        }),
{
    let t = hexcodec::hex_text(b);
    let h = utf8::encode_utf8(t);
    lemma_hex_encoding(b);
    assert(hexcodec::prefixed_hex_text(b) == "0x"@ + t);
    assert((seq![0x30u8, 0x78u8] + h).skip(2) =~= h);
    assert(hexcodec::without_0x(h) == h);
    assert(hexcodec::is_hex(h)) by {
        lemma_hex_is_digits(b);
        lemma_digits_of_text(t, 16);
        assert(t.len() == 2 * b.len());
        assert forall|i: int| 0 <= i < h.len() implies hexcodec::is_hex_digit(#[trigger] h[i]) by {
            assert(worth(t[i]) is Some);
        }
    }
    assert(hexcodec::hex_or_empty(h) == b) by {
        hexcodec::law_hex_round_trip(b);
    }
}

/// Sixteen bytes write a number of 128 bits.
pub proof fn lemma_sixteen_bytes(b: Seq<u8>)
    requires
        b.len() == 16,
    ensures
        words::le_value(b) <= u128::MAX,
{
    words::lemma_le_bound(b);
    reveal_with_fuel(words::pow256, 17);
}

/// Numbers are written and read by these operations: in decimal, in hex behind `0x`,
/// and read back from their digits.
pub proof fn law_texts_of_numbers(
    n: u128,
    d: String,
    h: String,
    bytes: &[u8],
    max: u128,
    r: Option<u128>,
)
    requires
        call_ensures(text::to_decimal, (n,), d),
        call_ensures(text::to_prefixed_hex, (n,), h),
        call_ensures(text::parse_number, (bytes, 10u128, max), r),
    ensures
        worth_of(d@, 10) == n,
        h@.take(2) == "0x"@,
        worth_of(h@.skip(2), 16) == n,
        r is Some ==> r->0 <= max,
        bytes@ == utf8::encode_utf8(d@) && n <= max ==> r == Some(n),
        bytes@ == utf8::encode_utf8(d@) && n > max ==> r is None,
        bytes@.len() == 0 ==> r is None,
{
    law_decimal_and_hex_texts(n as nat);
    law_written_numbers_are_read_back(n as nat, 10, max as nat);
    law_only_numbers_are_read(bytes@, 10, max as nat);
}

/// Bytes are written in hex, two digits for each, and read back.
pub proof fn law_texts_of_bytes(
    b: &[u8],
    plain: String,
    prefixed: String,
    k: &Key,
    t: String,
    i: int,
)
    requires
        call_ensures(hexcodec::hex_of, (b,), plain),
        call_ensures(hexcodec::prefixed_hex_of, (b,), prefixed),
        call_ensures(hexcodec::key_text, (k,), t),
        0 <= i < b@.len(),
    ensures
        plain@.len() == 2 * b@.len(),
        worth(plain@[2 * i]) is Some && worth(plain@[2 * i + 1]) is Some,
        worth(plain@[2 * i])->0 * 16 + worth(plain@[2 * i + 1])->0 == b@[i],
        prefixed@ == "0x"@ + plain@,
        t@ == "0x"@ + hexcodec::hex_text(k@),
{
    law_hex_text_is_worth_its_bytes(b@, i);
}

/// An address and a hash are read from 64 hex digits, with or without `0x`, as the
/// bytes that those write; the two differ only in what they complain of.
pub proof fn law_addresses_are_read_back(
    input: &str,
    a: Result<Key, RpcError>,
    h: Result<Key, RpcError>,
    k: Key,
)
    requires
        call_ensures(hexcodec::parse_address, (input,), a),
        call_ensures(hexcodec::parse_hash, (input,), h),
    ensures
        input@ == "0x"@ + hexcodec::hex_text(k@) ==> a is Ok && a->Ok_0 == k && h is Ok && h->Ok_0
            == k,
        input@ == hexcodec::hex_text(k@) ==> a is Ok && a->Ok_0 == k && h is Ok && h->Ok_0 == k,
        a is Ok <==> h is Ok,
        a is Ok ==> a->Ok_0 == h->Ok_0,
        a is Err ==> (a->Err_0@).0 == -32602 && (h->Err_0@).0 == -32602,
{
    lemma_hex_is_read(k@);
    law_keys_are_read_from_32_bytes(input@, k);
    if input@ == "0x"@ + hexcodec::hex_text(k@) || input@ == hexcodec::hex_text(k@) {
        let b = hexcodec::without_0x(utf8::encode_utf8(input@));
        assert(hexcodec::hex_or_empty(b) == k@);
        assert(hexcodec::hex_bytes(b).len() == 32);
        keymap::lemma_key_of(k);
    }
}

/// Stored numbers are read from their first bytes, the least first, and written so
/// that they are read back; a key is a word of two halves.
pub proof fn law_stored_numbers_are_read(
    data: &[u8],
    wide: u128,
    narrow: u64,
    v: u64,
    bytes: Vec<u8>,
    k: &Key,
    w: words::Word,
)
    requires
        call_ensures(words::decode_u128, (data,), wide),
        call_ensures(words::decode_u64, (data,), narrow),
        call_ensures(words::encode_le, (v, 8usize), bytes),
        call_ensures(words::key_word, (k,), w),
    ensures
        data@.len() >= 16 ==> wide == words::le_value(data@.take(16)),
        data@.len() < 16 ==> wide == 0,
        data@.len() >= 8 ==> narrow == words::le_value(data@.take(8)),
        data@.len() < 8 ==> narrow == 0,
        bytes@.len() == 8,
        words::le_value(bytes@) == v,
        w.low == words::le_value(k@.take(16)),
        w.high == words::le_value(k@.skip(16)),
{
    reveal_with_fuel(words::pow256, 9);
    words::law_le_round_trip(v as nat, 8);
    lemma_sixteen_bytes(k@.take(16));
    lemma_sixteen_bytes(k@.skip(16));
    law_the_least_byte_comes_first(v as nat, 8, bytes@);
}

/// Keys are the same where all their bytes are, and zero where all of those are.
pub proof fn law_keys_are_their_bytes(a: &Key, b: &Key, same: bool, zero: bool, bytes: Vec<u8>)
    requires
        call_ensures(keymap::key_eq, (a, b), same),
        call_ensures(keymap::key_is_zero, (a,), zero),
        call_ensures(keymap::key_bytes, (a,), bytes),
    ensures
        same <==> *a == *b,
        zero <==> forall|i: int| 0 <= i < 32 ==> #[trigger] a@[i] == 0,
        bytes@ == a@,
{
}

/// A prefix is taken off once, or as often as it is there; what is left is read as
/// hex, and as no bytes where it is none.
pub proof fn law_prefixes_are_taken_off(
    b: &[u8],
    once: &[u8],
    all: &[u8],
    v: Vec<u8>,
    input: &str,
    prefix: &str,
    t: Result<Vec<u8>, String>,
    p: Result<Vec<u8>, RpcError>,
)
    requires
        call_ensures(hexcodec::strip_0x, (b,), once),
        call_ensures(hexcodec::strip_all_0x, (b,), all),
        call_ensures(hexcodec::decode_or_empty, (b,), v),
        call_ensures(hexcodec::decode_text, (input, prefix), t),
        call_ensures(hexcodec::decode_prefixed, (input, prefix), p),
    ensures
        ({
            let there = b@.len() >= 2 && b@[0] == 0x30 && b@[1] == 0x78;
            &&& there ==> once@ == b@.skip(2)
            &&& !there ==> once@ == b@ && all@ == b@
            &&& !(all@.len() >= 2 && all@[0] == 0x30 && all@[1] == 0x78)
        }),
        v@.len() > 0 ==> 2 * v@.len() == b@.len(),
        forall|i: int|
            0 <= i < v@.len() ==> #[trigger] v@[i] == byte_worth(b@[2 * i])->0 * 16 + byte_worth(
                b@[2 * i + 1],
            )->0,
        t is Ok <==> p is Ok,
        t is Ok ==> t->Ok_0@ == p->Ok_0@,
        t is Err ==> p->Err_0@ == (-32602i32, t->Err_0@),
        t is Err ==> exists|why: Seq<char>| t->Err_0@ == #[trigger] (prefix@ + why),
{
    law_one_prefix_is_taken_off(b@);
    law_every_prefix_is_taken_off(b@);
    law_hex_is_read_in_either_case(b@);
}

} // verus!
