//! Published checksums of release archives.

use crate::text;
use vstd::prelude::*;

verus! {

/// The length of a SHA-256 digest.
pub const DIGEST_LEN: usize = 32;

/// The value of a hexadecimal digit.
pub open spec fn digit_value(c: char) -> Option<int> {
    if '0' <= c <= '9' {
        Some(c as int - '0' as int)
    } else if 'a' <= c <= 'f' {
        Some(c as int - 'a' as int + 10)
    } else if 'A' <= c <= 'F' {
        Some(c as int - 'A' as int + 10)
    } else {
        None
    }
}

/// The lower-case hexadecimal digit of a value.
pub open spec fn digit_char(v: int) -> char {
    if v < 10 {
        ('0' as int + v) as char
    } else {
        ('a' as int + v - 10) as char
    }
}

/// Whether a text is a sequence of pairs of hexadecimal digits.
pub open spec fn is_hex(s: Seq<char>) -> bool {
    s.len() % 2 == 0 && forall|i: int| 0 <= i < s.len() ==> digit_value(#[trigger] s[i]) is Some
}

/// The bytes that pairs of hexadecimal digits write.
pub open spec fn hex_bytes(s: Seq<char>) -> Seq<u8> {
    Seq::new(
        s.len() / 2,
        |i: int| (digit_value(s[2 * i])->0 * 16 + digit_value(s[2 * i + 1])->0) as u8,
    )
}

/// Bytes in lower-case hexadecimal.
pub open spec fn hex_text(b: Seq<u8>) -> Seq<char> {
    Seq::new(
        b.len() * 2,
        |i: int|
            if i % 2 == 0 {
                digit_char(b[i / 2] as int / 16)
            } else {
                digit_char(b[i / 2] as int % 16)
            },
    )
}

/// `hex::decode`: the bytes that pairs of hexadecimal digits of either case write, or nothing
/// if the text is anything else.
#[verifier::external_body]
fn hex_decode(s: &str) -> (r: Option<Vec<u8>>)
    ensures
        match r {
            Some(b) => is_hex(s@) && b@ == hex_bytes(s@),
            None => !is_hex(s@),
        },
{
    hex::decode(s).ok()
}

/// `hex::encode`: bytes in lower-case hexadecimal, two digits each.
#[verifier::external_body]
fn hex_encode(b: &Vec<u8>) -> (r: String)
    ensures
        r@ == hex_text(b@),
{
    hex::encode(b)
}

/// The digest in a checksum file: its first word, if that is the hexadecimal form of a
/// SHA-256 digest.
pub open spec fn published_digest(content: Seq<char>) -> Option<Seq<u8>> {
    match text::first_word(content) {
        Some(word) => if is_hex(word) && hex_bytes(word).len() == DIGEST_LEN {
            Some(hex_bytes(word))
        } else {
            None
        },
        None => None,
    }
}

/// The digest in a checksum file, which has the form `<hex> *<file name>`.
pub fn parse_published_sha256(content: &str) -> (r: Option<Vec<u8>>)
    ensures
        match r {
            Some(d) => published_digest(content@) == Some(d@),
            None => published_digest(content@) is None,
        },
{
    match text::next_word(content) {
        Some(word) => match hex_decode(word.as_str()) {
            Some(bytes) => if bytes.len() == DIGEST_LEN {
                Some(bytes)
            } else {
                None
            },
            None => None,
        },
        None => None,
    }
}

/// A download whose digest is not the published one.
#[derive(Debug)]
pub struct ChecksumMismatch {
    pub url: String,
    pub expected: String,
    pub actual: String,
}

fn same_bytes(a: &Vec<u8>, b: &Vec<u8>) -> (r: bool)
    ensures
        r == (a@ == b@),
{
    if a.len() != b.len() {
        return false;
    }
    let mut i: usize = 0;
    while i < a.len()
        invariant
            i <= a@.len(),
            a@.len() == b@.len(),
            forall|j: int| 0 <= j < i ==> a@[j] == b@[j],
        decreases a.len() - i,
    {
        if a[i] != b[i] {
            return false;
        }
        i = i + 1;
    }
    assert(a@ == b@);
    true
}

/// Compares a download with its published digest; without one there is nothing to compare.
pub fn verify_digest(url: &str, expected: &Option<Vec<u8>>, actual: &Vec<u8>) -> (r: Result<
    (),
    ChecksumMismatch,
>)
    ensures
        r is Ok <==> (expected matches Some(e) ==> e@ == actual@),
        r matches Err(m) ==> m.url@ == url@ && m.expected@ == hex_text(expected->0@) && m.actual@
            == hex_text(actual@),
{
    match expected {
        Some(e) => if same_bytes(e, actual) {
            Ok(())
        } else {
            Err(
                ChecksumMismatch {
                    url: url.to_owned(),
                    expected: hex_encode(e),
                    actual: hex_encode(actual),
                },
            )
        },
        None => Ok(()),
    }
}

proof fn lemma_digit(v: int)
    requires
        0 <= v < 16,
    ensures
        digit_value(digit_char(v)) == Some(v),
{
}

/// The hexadecimal form of bytes writes those bytes.
pub proof fn hex_text_writes_its_bytes(b: Seq<u8>)
    ensures
        is_hex(hex_text(b)),
        hex_bytes(hex_text(b)) == b,
{
    let t = hex_text(b);
    assert forall|i: int| 0 <= i < t.len() implies digit_value(#[trigger] t[i]) is Some by {
        lemma_digit(b[i / 2] as int / 16);
        lemma_digit(b[i / 2] as int % 16);
    }
    assert forall|i: int| 0 <= i < b.len() implies hex_bytes(t)[i] == b[i] by {
        lemma_digit(b[i] as int / 16);
        lemma_digit(b[i] as int % 16);
        assert((2 * i) / 2 == i && (2 * i + 1) / 2 == i);
        assert(t[2 * i] == digit_char(b[i] as int / 16));
        assert(t[2 * i + 1] == digit_char(b[i] as int % 16));
    }
    assert(hex_bytes(t) == b);
}

/// A checksum file that holds the hexadecimal form of a digest publishes that digest.
pub proof fn published_digest_is_read_back(digest: Seq<u8>, rest: Seq<char>)
    requires
        digest.len() == DIGEST_LEN,
        rest.len() == 0 || text::is_space(rest[0]),
    ensures
        published_digest(hex_text(digest) + rest) == Some(digest),
{
    hex_text_writes_its_bytes(digest);
    let h = hex_text(digest);
    let s = h + rest;
    assert forall|i: int| 0 <= i < h.len() implies !text::is_space(#[trigger] h[i]) by {
        lemma_digit(digest[i / 2] as int / 16);
        lemma_digit(digest[i / 2] as int % 16);
    }
    assert(s[0] == h[0]);
    lemma_word_end(s, 0, h.len() as int);
    assert(s.subrange(0, h.len() as int) == h);
}

proof fn lemma_word_end(s: Seq<char>, i: int, e: int)
    requires
        0 <= i <= e <= s.len(),
        forall|j: int| i <= j < e ==> !text::is_space(#[trigger] s[j]),
        e < s.len() ==> text::is_space(s[e]),
    ensures
        text::word_end(s, i) == e,
    decreases e - i,
{
    if i < e {
        lemma_word_end(s, i + 1, e);
    }
}

/// The first word of a checksum file is its digest if it is 64 hexadecimal digits of either
/// case, wherever it starts and whatever follows it; no other word is one.
pub proof fn digests_are_sixty_four_digits(spaces: Seq<char>, word: Seq<char>, rest: Seq<char>)
    requires
        forall|i: int| 0 <= i < spaces.len() ==> text::is_space(#[trigger] spaces[i]),
        forall|i: int| 0 <= i < word.len() ==> !text::is_space(#[trigger] word[i]),
        rest.len() > 0 ==> text::is_space(rest[0]),
        word.len() > 0,
    ensures
        word.len() == 64 && (forall|i: int|
            0 <= i < 64 ==> ('0' <= #[trigger] word[i] <= '9' || 'a' <= word[i] <= 'f' || 'A'
                <= word[i] <= 'F')) ==> published_digest(spaces + word + rest) == Some(
            hex_bytes(word),
        ),
        word.len() != 64 ==> published_digest(spaces + word + rest) is None,
        (exists|i: int|
            0 <= i < word.len() && !('0' <= #[trigger] word[i] <= '9' || 'a' <= word[i] <= 'f' || 'A'
                <= word[i] <= 'F')) ==> published_digest(spaces + word + rest) is None,
        published_digest(spaces) is None,
{
    text::the_first_word_stands_between_spaces(spaces, word, rest);
    text::the_first_word_stands_between_spaces(spaces, Seq::empty(), Seq::empty());
    if exists|i: int|
        0 <= i < word.len() && !('0' <= #[trigger] word[i] <= '9' || 'a' <= word[i] <= 'f' || 'A'
            <= word[i] <= 'F') {
        let i = choose|i: int|
            0 <= i < word.len() && !('0' <= #[trigger] word[i] <= '9' || 'a' <= word[i] <= 'f'
                || 'A' <= word[i] <= 'F');
        assert(digit_value(word[i]) is None);
    }
}

/// Two hexadecimal digits, of either case, write one byte: sixteen times the first and the
/// second.
pub proof fn two_digits_write_a_byte(s: Seq<char>, i: int, hi: int, lo: int)
    requires
        0 <= i < s.len() / 2,
        0 <= hi < 16,
        0 <= lo < 16,
        s[2 * i] == digit_char(hi) || hi >= 10 && s[2 * i] as int == 'A' as int + hi - 10,
        s[2 * i + 1] == digit_char(lo) || lo >= 10 && s[2 * i + 1] as int == 'A' as int + lo - 10,
    ensures
        hex_bytes(s)[i] == 16 * hi + lo,
        digit_char(hi) as int == (if hi < 10 {
            '0' as int + hi
        } else {
            'a' as int + hi - 10
        }),
{
    lemma_digit(hi);
    lemma_digit(lo);
}

} // verus!
