//! Hex text: encoding, decoding, and the 32-byte addresses and hashes that
//! requests write in it.
use vstd::prelude::*;
use vstd::utf8;

use crate::keymap;
use crate::keymap::{key_from_slice, Key};
use crate::text;
use crate::text::{join, to_decimal};

verus! {

/// An error as a JSON-RPC response carries it.
#[derive(Debug, Clone, PartialEq, Eq)]
pub struct RpcError {
    pub code: i32,
    pub message: String,
}

/// An error by its view: the code and the message.
pub type RpcFault = (i32, Seq<char>);

impl View for RpcError {
    type V = RpcFault;

    open spec fn view(&self) -> RpcFault {
        (self.code, self.message@)
    }
}

/// A result with the error taken by its view.
pub open spec fn outcome<T>(r: Result<T, RpcError>) -> Result<T, RpcFault> {
    match r {
        Ok(v) => Ok(v),
        Err(e) => Err(e@),
    }
}

/// Lower-case hex, two digits for each byte.
pub open spec fn hex_text(b: Seq<u8>) -> Seq<char> {
    Seq::new(
        2 * b.len(),
        |i: int|
            text::digit_char(
                if i % 2 == 0 {
                    (b[i / 2] / 16) as nat
                } else {
                    (b[i / 2] % 16) as nat
                },
            ),
    )
}

/// `0x` and lower-case hex.
pub open spec fn prefixed_hex_text(b: Seq<u8>) -> Seq<char> {
    "0x"@ + hex_text(b)
}

/// Whether a byte is a hex digit, in either case.
pub open spec fn is_hex_digit(b: u8) -> bool {
    text::digit_value(b) is Some
}

/// Whether a text is hex: an even number of hex digits.
pub open spec fn is_hex(b: Seq<u8>) -> bool {
    b.len() % 2 == 0 && forall|i: int| 0 <= i < b.len() ==> is_hex_digit(#[trigger] b[i])
}

/// The bytes that a hex text writes.
pub open spec fn hex_bytes(b: Seq<u8>) -> Seq<u8> {
    Seq::new(
        b.len() / 2,
        |i: int|
            (text::digit_value(b[2 * i])->0 * 16 + text::digit_value(b[2 * i + 1])->0) as u8,
    )
}

/// The position of the first byte from `from` on that is no hex digit.
pub open spec fn first_bad_digit(b: Seq<u8>, from: nat) -> nat
    decreases b.len() - from,
{
    if from >= b.len() || !is_hex_digit(b[from as int]) {
        from
    } else {
        first_bad_digit(b, from + 1)
    }
}

/// A byte, taken as a character, as `{:?}` writes it: in single quotes, escaped
/// where it needs to be.
pub uninterp spec fn quoted_char(byte: u8) -> Seq<char>;

/// What is displayed of a text that is not hex.
pub open spec fn hex_error_text(b: Seq<u8>) -> Seq<char> {
    if b.len() % 2 != 0 {
        "Odd number of digits"@
    } else {
        let i = first_bad_digit(b, 0);
        "Invalid character "@ + quoted_char(b[i as int]) + " at position "@ + text::decimal(i)
    }
}

/// `hex::decode`, with its error displayed. It takes an even number of hex digits
/// in either case, and gives the byte of each pair. An odd number of bytes is
/// refused first; otherwise the error names the first byte that is no hex digit,
/// and its position.
#[verifier::external_body]
fn decode_hex(data: &[u8]) -> (r: Result<Vec<u8>, String>)
    ensures
        match r {
            Ok(v) => is_hex(data@) && v@ == hex_bytes(data@),
            Err(e) => !is_hex(data@) && e@ == if data@.len() % 2 != 0 {
                "Odd number of digits"@
            } else {
                "Invalid character "@ + quoted_char(
                    data@[first_bad_digit(data@, 0) as int],
                ) + " at position "@ + text::decimal(first_bad_digit(data@, 0))
            },
        },
{
    hex::decode(data).map_err(|e| e.to_string())
}

/// `hex::encode`: lower-case hex, two digits for each byte.
#[verifier::external_body]
fn encode_hex(data: &[u8]) -> (s: String)
    ensures
        s@ == hex_text(data@),
{
    hex::encode(data)
}

/// A text without one leading `0x`.
pub open spec fn without_0x(b: Seq<u8>) -> Seq<u8> {
    if b.len() >= 2 && b[0] == 48 && b[1] == 120 {
        b.skip(2)
    } else {
        b
    }
}

/// A text without any number of leading `0x`.
pub open spec fn without_all_0x(b: Seq<u8>) -> Seq<u8>
    decreases b.len(),
{
    if b.len() >= 2 && b[0] == 48 && b[1] == 120 {
        without_all_0x(b.skip(2))
    } else {
        b
    }
}

fn prefix_len(b: &[u8]) -> (n: usize)
    ensures
        n <= b@.len(),
        without_0x(b@) == b@.skip(n as int),
{
    if b.len() >= 2 && b[0] == 48 && b[1] == 120 {
        2
    } else {
        assert(b@.skip(0) =~= b@);
        0
    }
}

/// A text without one leading `0x`.
pub fn strip_0x(b: &[u8]) -> (r: &[u8])
    ensures
        r@ == without_0x(b@),
{
    let n: usize = prefix_len(b);
    vstd::slice::slice_subrange(b, n, b.len())
}

/// A text without any number of leading `0x`.
pub fn strip_all_0x(b: &[u8]) -> (r: &[u8])
    ensures
        r@ == without_all_0x(b@),
{
    let mut n: usize = 0;
    assert(b@.skip(0) =~= b@);
    while b.len() - n >= 2 && b[n] == 48 && b[n + 1] == 120
        invariant
            n <= b@.len(),
            without_all_0x(b@) == without_all_0x(b@.skip(n as int)),
        decreases b@.len() - n,
    {
        assert(b@.skip(n as int).skip(2) =~= b@.skip(n + 2));
        n = n + 2;
    }
    vstd::slice::slice_subrange(b, n, b.len())
}

/// The bytes that a text writes in hex, none where it is not hex.
pub open spec fn hex_or_empty(b: Seq<u8>) -> Seq<u8> {
    if is_hex(b) {
        hex_bytes(b)
    } else {
        Seq::empty()
    }
}

/// Decodes hex; what is not hex counts as no bytes.
pub fn decode_or_empty(b: &[u8]) -> (r: Vec<u8>)
    ensures
        r@ == hex_or_empty(b@),
{
    match decode_hex(b) {
        Ok(v) => v,
        Err(_) => Vec::new(),
    }
}

/// The bytes that a text writes in hex after an optional `0x`, or `prefix` and
/// what is wrong with it.
pub open spec fn prefixed_bytes(input: Seq<char>, prefix: Seq<char>) -> Result<
    Seq<u8>,
    Seq<char>,
> {
    let b = without_0x(utf8::encode_utf8(input));
    if is_hex(b) {
        Ok(hex_bytes(b))
    } else {
        Err(prefix + hex_error_text(b))
    }
}

/// Decodes hex after an optional `0x`; the error carries `prefix` and what is
/// wrong.
pub fn decode_text(input: &str, prefix: &str) -> (r: Result<Vec<u8>, String>)
    ensures
        match r {
            Ok(v) => prefixed_bytes(input@, prefix@) == Ok::<Seq<u8>, Seq<char>>(v@),
            Err(e) => prefixed_bytes(input@, prefix@) == Err::<Seq<u8>, Seq<char>>(e@),
        },
{
    match decode_hex(strip_0x(input.as_bytes())) {
        Ok(v) => Ok(v),
        Err(e) => Err(join(prefix, e.as_str())),
    }
}

/// Decodes hex after an optional `0x`; the error is one of the parameters.
pub fn decode_prefixed(input: &str, prefix: &str) -> (r: Result<Vec<u8>, RpcError>)
    ensures
        ({
            let b = without_0x(utf8::encode_utf8(input@));
            match r {
                Ok(v) => is_hex(b) && v@ == hex_bytes(b),
                Err(e) => !is_hex(b) && e@ == (-32602i32, prefix@ + hex_error_text(b)),
            }
        }),
{
    match decode_text(input, prefix) {
        Ok(v) => Ok(v),
        Err(message) => Err(RpcError { code: -32602, message }),
    }
}

/// `0x` and the bytes in lower-case hex.
pub fn prefixed_hex_of(b: &[u8]) -> (s: String)
    ensures
        s@ == prefixed_hex_text(b@),
{
    let h = encode_hex(b);
    join("0x", h.as_str())
}

/// The bytes in lower-case hex.
pub fn hex_of(b: &[u8]) -> (s: String)
    ensures
        s@ == hex_text(b@),
{
    encode_hex(b)
}

/// `0x` and a key in lower-case hex.
pub fn key_text(k: &Key) -> (s: String)
    ensures
        s@ == prefixed_hex_text(k@),
{
    prefixed_hex_of(k.as_slice())
}

/// The 32 bytes that a text writes in hex, or what is wrong with it.
pub open spec fn bytes32_of(input: Seq<char>, invalid: Seq<char>, length: Seq<char>) -> Result<
    Key,
    RpcFault,
> {
    let b = without_0x(utf8::encode_utf8(input));
    if !is_hex(b) {
        Err((-32602i32, invalid + hex_error_text(b)))
    } else {
        match keymap::key_of(hex_bytes(b)) {
            Some(k) => Ok(k),
            None => Err((-32602i32, length + text::decimal(hex_bytes(b).len()))),
        }
    }
}

/// The address that a text writes, or what is wrong with it.
pub open spec fn address_of(input: Seq<char>) -> Result<Key, RpcFault> {
    bytes32_of(input, "invalid address: "@, "address must be 32 bytes, got "@)
}

/// The hash that a text writes, or what is wrong with it.
pub open spec fn hash_of(input: Seq<char>) -> Result<Key, RpcFault> {
    bytes32_of(input, "invalid hash: "@, "hash must be 32 bytes, got "@)
}

fn parse_bytes32(input: &str, invalid: &str, length: &str) -> (r: Result<Key, RpcError>)
    ensures
        outcome(r) == bytes32_of(input@, invalid@, length@),
{
    let bytes = match decode_prefixed(input, invalid) {
        Ok(v) => v,
        Err(e) => {
            return Err(e);
        },
    };
    match key_from_slice(bytes.as_slice()) {
        Some(k) => Ok(k),
        None => {
            let n = to_decimal(bytes.len() as u128);
            Err(RpcError { code: -32602, message: join(length, n.as_str()) })
        },
    }
}

/// Reads a 32-byte address in hex, with or without `0x`.
pub fn parse_address(input: &str) -> (r: Result<Key, RpcError>)
    ensures
        outcome(r) == address_of(input@),
{
    parse_bytes32(input, "invalid address: ", "address must be 32 bytes, got ")
}

/// Reads a 32-byte hash in hex, with or without `0x`.
pub fn parse_hash(input: &str) -> (r: Result<Key, RpcError>)
    ensures
        outcome(r) == hash_of(input@),
{
    parse_bytes32(input, "invalid hash: ", "hash must be 32 bytes, got ")
}

proof fn lemma_hex_text_bytes(b: Seq<u8>)
    ensures
        ({
            let e = utf8::encode_utf8(hex_text(b));
            &&& is_hex(e)
            &&& hex_bytes(e) == b
            &&& e.len() == 2 * b.len()
            &&& utf8::is_ascii_chars(hex_text(b))
        }),
{
    let h = hex_text(b);
    assert(utf8::is_ascii_chars(h));
    utf8::is_ascii_chars_encode_utf8(h);
    let e = utf8::encode_utf8(h);
    assert forall|i: int| 0 <= i < e.len() implies is_hex_digit(#[trigger] e[i]) && text::digit_value(
        e[i],
    )->0 == (if i % 2 == 0 {
        b[i / 2] / 16
    } else {
        b[i / 2] % 16
    }) by {
        assert(e[i] == h[i] as u8);
    }
    assert forall|i: int| 0 <= i < b.len() implies hex_bytes(e)[i] == b[i] by {
        assert(is_hex_digit(e[2 * i]));
        assert(is_hex_digit(e[2 * i + 1]));
        assert((2 * i) / 2 == i && (2 * i + 1) / 2 == i);
    }
    assert(hex_bytes(e) =~= b);
}

/// Hex text gives back the bytes that it was made of, with and without `0x`.
pub proof fn law_hex_round_trip(b: Seq<u8>)
    ensures
        hex_or_empty(without_0x(utf8::encode_utf8(prefixed_hex_text(b)))) == b,
        hex_or_empty(without_0x(utf8::encode_utf8(hex_text(b)))) == b,
{
    lemma_hex_text_bytes(b);
    let h = hex_text(b);
    let e = utf8::encode_utf8(h);
    if e.len() >= 2 {
        assert(is_hex_digit(e[1]));
    }
    assert(without_0x(e) == e);
    let p = prefixed_hex_text(b);
    reveal_strlit("0x");
    assert(p[0] == '0' && p[1] == 'x');
    assert(utf8::is_ascii_chars(p));
    utf8::is_ascii_chars_encode_utf8(p);
    utf8::is_ascii_chars_encode_utf8(h);
    let pe = utf8::encode_utf8(p);
    assert(pe[0] == 48 && pe[1] == 120);
    assert(pe.skip(2) =~= e);
}

/// Every address and every hash is read back from its text, with and without
/// `0x`.
pub proof fn law_key_text_round_trip(k: Key)
    ensures
        address_of(prefixed_hex_text(k@)) == Ok::<Key, RpcFault>(k),
        address_of(hex_text(k@)) == Ok::<Key, RpcFault>(k),
        hash_of(prefixed_hex_text(k@)) == Ok::<Key, RpcFault>(k),
        hash_of(hex_text(k@)) == Ok::<Key, RpcFault>(k),
{
    law_hex_round_trip(k@);
    keymap::lemma_key_of(k);
    let x = without_0x(utf8::encode_utf8(prefixed_hex_text(k@)));
    let y = without_0x(utf8::encode_utf8(hex_text(k@)));
    assert(is_hex(x)) by {
        if !is_hex(x) {
            assert(hex_or_empty(x).len() == 0);
        }
    }
    assert(is_hex(y)) by {
        if !is_hex(y) {
            assert(hex_or_empty(y).len() == 0);
        }
    }
}

} // verus!
