//! Base64 in the standard alphabet, with padding.

use vstd::prelude::*;

verus! {

/// The symbol of a value of six bits.
pub open spec fn symbol(v: int) -> char {
    if v < 26 {
        ('A' as int + v) as char
    } else if v < 52 {
        ('a' as int + v - 26) as char
    } else if v < 62 {
        ('0' as int + v - 52) as char
    } else if v == 62 {
        '+'
    } else {
        '/'
    }
}

/// The byte at an index, zero behind the end.
pub open spec fn byte_at(b: Seq<u8>, i: int) -> int {
    if 0 <= i < b.len() {
        b[i] as int
    } else {
        0
    }
}

/// The three bytes of a group as one number.
pub open spec fn group(b: Seq<u8>, g: int) -> int {
    byte_at(b, 3 * g) * 65536 + byte_at(b, 3 * g + 1) * 256 + byte_at(b, 3 * g + 2)
}

/// The six bits that the symbol at an index stands for.
pub open spec fn six_bits(b: Seq<u8>, k: int) -> int {
    let x = group(b, k / 4);
    if k % 4 == 0 {
        x / 262144
    } else if k % 4 == 1 {
        x / 4096 % 64
    } else if k % 4 == 2 {
        x / 64 % 64
    } else {
        x % 64
    }
}

/// The text that encodes bytes: four symbols for each group of three bytes, where `=` stands
/// in place of a symbol that no byte of the last group reaches.
pub open spec fn base64_text(b: Seq<u8>) -> Seq<char> {
    Seq::new(
        (b.len() + 2) / 3 * 4,
        |k: int|
            if k / 4 * 3 + k % 4 > b.len() {
                '='
            } else {
                symbol(six_bits(b, k))
            },
    )
}

/// Whether a text encodes bytes.
pub open spec fn encodes(s: Seq<char>, b: Seq<u8>) -> bool {
    s == base64_text(b)
}

/// The bytes that a text encodes.
pub open spec fn base64_bytes(s: Seq<char>) -> Option<Seq<u8>> {
    if exists|b: Seq<u8>| encodes(s, b) {
        Some(choose|b: Seq<u8>| encodes(s, b))
    } else {
        None
    }
}

/// `base64::Engine::decode` of `general_purpose::STANDARD`: the bytes whose encoding `s` is,
/// or nothing if it is the encoding of none, as where a symbol is no part of the alphabet, the
/// padding is missing or the last symbol has bits that belong to no byte.
#[verifier::external_body]
pub(crate) fn base64_decode(s: &str) -> (r: Option<Vec<u8>>)
    ensures
        match r {
            Some(b) => encodes(s@, b@),
            None => forall|b: Seq<u8>| !encodes(s@, b),
        },
{
    base64::Engine::decode(&base64::engine::general_purpose::STANDARD, s).ok()
}

/// `base64::Engine::encode` of `general_purpose::STANDARD`: the text that encodes `b`.
#[verifier::external_body]
pub(crate) fn base64_encode(b: &Vec<u8>) -> (r: String)
    ensures
        r@ == base64_text(b@),
{
    base64::Engine::encode(&base64::engine::general_purpose::STANDARD, b)
}

proof fn lemma_symbol_is_unique(v: int, w: int)
    requires
        0 <= v < 64,
        0 <= w < 64,
    ensures
        symbol(v) != '=',
        symbol(v) == symbol(w) ==> v == w,
{
}

proof fn lemma_six_bits(b: Seq<u8>, k: int)
    ensures
        0 <= six_bits(b, k) < 64,
{
    let x = group(b, k / 4);
    assert(0 <= x < 16777216);
}

proof fn lemma_sextets(x: int)
    ensures
        x == x / 262144 * 262144 + x / 4096 % 64 * 4096 + x / 64 % 64 * 64 + x % 64,
{
    let y = x / 64;
    let z = x / 4096;
    assert(y / 64 == z);
    assert(z / 64 == x / 262144);
    assert(z == z / 64 * 64 + z % 64);
    assert(y == z * 64 + y % 64);
    assert(x == y * 64 + x % 64);
}

proof fn lemma_octets(p: int, q: int, r: int)
    requires
        0 <= p < 256,
        0 <= q < 256,
        0 <= r < 256,
    ensures
        (p * 65536 + q * 256 + r) / 65536 == p,
        (p * 65536 + q * 256 + r) / 256 % 256 == q,
        (p * 65536 + q * 256 + r) % 256 == r,
{
    let x = p * 65536 + q * 256 + r;
    assert(x / 65536 == p);
    assert(x / 256 == p * 256 + q);
    assert((p * 256 + q) % 256 == q);
    assert(x % 256 == r);
}

/// The symbols of a group determine its bytes.
proof fn lemma_group_is_read_back(b: Seq<u8>, g: int)
    ensures
        group(b, g) == six_bits(b, 4 * g) * 262144 + six_bits(b, 4 * g + 1) * 4096 + six_bits(
            b,
            4 * g + 2,
        ) * 64 + six_bits(b, 4 * g + 3),
        byte_at(b, 3 * g) == group(b, g) / 65536,
        byte_at(b, 3 * g + 1) == group(b, g) / 256 % 256,
        byte_at(b, 3 * g + 2) == group(b, g) % 256,
{
    lemma_sextets(group(b, g));
    lemma_octets(byte_at(b, 3 * g), byte_at(b, 3 * g + 1), byte_at(b, 3 * g + 2));
}

/// Where no byte reaches the place of a symbol, its bits are zero.
proof fn lemma_padding_is_zero(b: Seq<u8>, k: int)
    requires
        0 <= k < base64_text(b).len(),
        k / 4 * 3 + k % 4 > b.len(),
    ensures
        six_bits(b, k) == 0,
{
    let g = k / 4;
    let x = group(b, g);
    assert(3 * g < b.len());
    assert(byte_at(b, 3 * g + 2) == 0);
    if k % 4 == 2 {
        assert(byte_at(b, 3 * g + 1) == 0);
        assert(x == byte_at(b, 3 * g) * 65536);
        assert(x / 64 == byte_at(b, 3 * g) * 1024);
    } else {
        assert(k % 4 == 3);
        assert(x == (byte_at(b, 3 * g) * 1024 + byte_at(b, 3 * g + 1) * 4) * 64);
    }
}

proof fn lemma_symbol_at(b: Seq<u8>, k: int)
    requires
        0 <= k < base64_text(b).len(),
    ensures
        base64_text(b)[k] == (if k / 4 * 3 + k % 4 > b.len() {
            '='
        } else {
            symbol(six_bits(b, k))
        }),
{
}

proof fn lemma_symbols_agree(a: Seq<u8>, b: Seq<u8>, k: int)
    requires
        base64_text(a) == base64_text(b),
        a.len() == b.len(),
        0 <= k < base64_text(a).len(),
    ensures
        six_bits(a, k) == six_bits(b, k),
{
    lemma_symbol_at(a, k);
    lemma_symbol_at(b, k);
    if k / 4 * 3 + k % 4 > a.len() {
        lemma_padding_is_zero(a, k);
        lemma_padding_is_zero(b, k);
    } else {
        lemma_six_bits(a, k);
        lemma_six_bits(b, k);
        lemma_symbol_is_unique(six_bits(a, k), six_bits(b, k));
    }
}

proof fn lemma_lengths_agree(a: Seq<u8>, b: Seq<u8>)
    requires
        base64_text(a) == base64_text(b),
    ensures
        a.len() >= b.len(),
{
    if a.len() < b.len() {
        let g = (b.len() - 1) / 3;
        let m = b.len() - 3 * g;
        let k = 4 * g + m;
        assert(base64_text(a).len() == (a.len() + 2) / 3 * 4);
        assert(base64_text(b).len() == (b.len() + 2) / 3 * 4);
        assert(k / 4 == g && k % 4 == m);
        lemma_symbol_at(a, k);
        lemma_symbol_at(b, k);
        lemma_six_bits(b, k);
        lemma_symbol_is_unique(six_bits(b, k), 0);
    }
}

/// A text encodes no more than one sequence of bytes, so decoding gives back what was
/// encoded.
pub proof fn encoding_is_unique(a: Seq<u8>, b: Seq<u8>)
    requires
        base64_text(a) == base64_text(b),
    ensures
        a == b,
{
    lemma_lengths_agree(a, b);
    lemma_lengths_agree(b, a);
    assert forall|i: int| 0 <= i < a.len() implies a[i] == b[i] by {
        let g = i / 3;
        lemma_symbols_agree(a, b, 4 * g);
        lemma_symbols_agree(a, b, 4 * g + 1);
        lemma_symbols_agree(a, b, 4 * g + 2);
        lemma_symbols_agree(a, b, 4 * g + 3);
        lemma_group_is_read_back(a, g);
        lemma_group_is_read_back(b, g);
        assert(byte_at(a, i) == byte_at(b, i));
    }
    assert(a =~= b);
}

/// What encodes bytes is read back as those bytes.
pub proof fn encoded_bytes_are_read_back(b: Seq<u8>)
    ensures
        base64_bytes(base64_text(b)) == Some(b),
{
    let s = base64_text(b);
    assert(encodes(s, b));
    let c = choose|c: Seq<u8>| encodes(s, c);
    encoding_is_unique(c, b);
}

} // verus!
