//! Content digests and their hexadecimal text form.

use crate::error::SyncError;
use hex::FromHexError;
use sha2::Digest;
use sha2::Sha256;
use vstd::prelude::*;
use vstd::string::*;

verus! {

/// The number of bytes of a content digest.
pub const DIGEST_LEN: usize = 32;

/// The value of a hexadecimal digit; either case counts.
pub open spec fn hex_value(c: char) -> Option<int> {
    match c {
        '0' => Some(0int),
        '1' => Some(1int),
        '2' => Some(2int),
        '3' => Some(3int),
        '4' => Some(4int),
        '5' => Some(5int),
        '6' => Some(6int),
        '7' => Some(7int),
        '8' => Some(8int),
        '9' => Some(9int),
        'a' | 'A' => Some(10int),
        'b' | 'B' => Some(11int),
        'c' | 'C' => Some(12int),
        'd' | 'D' => Some(13int),
        'e' | 'E' => Some(14int),
        'f' | 'F' => Some(15int),
        _ => None,
    }
}

/// The upper case hexadecimal digit of a value below sixteen.
pub open spec fn hex_digit(value: int) -> char {
    if value == 0 {
        '0'
    } else if value == 1 {
        '1'
    } else if value == 2 {
        '2'
    } else if value == 3 {
        '3'
    } else if value == 4 {
        '4'
    } else if value == 5 {
        '5'
    } else if value == 6 {
        '6'
    } else if value == 7 {
        '7'
    } else if value == 8 {
        '8'
    } else if value == 9 {
        '9'
    } else if value == 10 {
        'A'
    } else if value == 11 {
        'B'
    } else if value == 12 {
        'C'
    } else if value == 13 {
        'D'
    } else if value == 14 {
        'E'
    } else {
        'F'
    }
}

/// Whether `text` is the hexadecimal form of a digest: 64 hexadecimal
/// digits.
pub open spec fn is_checksum_text(text: Seq<char>) -> bool {
    &&& text.len() == 2 * DIGEST_LEN
    &&& forall|i: int| 0 <= i < text.len() ==> hex_value(#[trigger] text[i]) is Some
}

/// The bytes that `text` stands for, two digits to a byte, the high half
/// first.
pub open spec fn decoded(text: Seq<char>) -> Seq<u8> {
    Seq::new(
        text.len() / 2,
        |i: int| (16 * hex_value(text[2 * i])->0 + hex_value(text[2 * i + 1])->0) as u8,
    )
}

/// The upper case hexadecimal form of `bytes`.
pub open spec fn encoded(bytes: Seq<u8>) -> Seq<char> {
    Seq::new(
        2 * bytes.len(),
        |k: int|
            if k % 2 == 0 {
                hex_digit(bytes[k / 2] as int / 16)
            } else {
                hex_digit(bytes[k / 2] as int % 16)
            },
    )
}

/// The error of the hex crate. It tells an odd length, a wrong length and
/// a character that is no digit apart; the engine does not.
#[verifier::external_type_specification]
#[verifier::external_body]
pub struct ExFromHexError(FromHexError);

/// `hex::decode_to_slice` into 32 bytes. It succeeds exactly on 64
/// hexadecimal digits of either case, and then gives the byte for each pair
/// of digits. Such a text is plain ASCII, so its bytes, which the outside
/// function reads, are its characters.
#[verifier::external_body]
fn hex_to_digest(text: &str) -> (outcome: Result<[u8; 32], FromHexError>)
    ensures
        outcome is Ok <==> is_checksum_text(text@),
        outcome matches Ok(digest) ==> digest@ == decoded(text@),
{
    let mut digest = [0u8; 32];
    match hex::decode_to_slice(text, &mut digest) {
        Ok(()) => Ok(digest),
        Err(fault) => Err(fault),
    }
}

/// Reads a digest from its hexadecimal form.
pub fn decode_checksum(text: &str) -> (outcome: Result<[u8; 32], SyncError>)
    ensures
        outcome is Ok <==> is_checksum_text(text@),
        outcome matches Ok(digest) ==> digest@ == decoded(text@),
        outcome matches Err(fault) ==> fault == SyncError::ChecksumDecode,
{
    match hex_to_digest(text) {
        Ok(digest) => Ok(digest),
        Err(_) => Err(SyncError::ChecksumDecode),
    }
}

/// The upper case hexadecimal digit of `value`, as a text of its own.
fn digit_text(value: u8) -> (text: &'static str)
    requires
        value < 16,
    ensures
        text@ == seq![hex_digit(value as int)],
{
    proof {
        reveal_strlit("0");
        reveal_strlit("1");
        reveal_strlit("2");
        reveal_strlit("3");
        reveal_strlit("4");
        reveal_strlit("5");
        reveal_strlit("6");
        reveal_strlit("7");
        reveal_strlit("8");
        reveal_strlit("9");
        reveal_strlit("A");
        reveal_strlit("B");
        reveal_strlit("C");
        reveal_strlit("D");
        reveal_strlit("E");
        reveal_strlit("F");
    }
    let text = if value == 0 {
        "0"
    } else if value == 1 {
        "1"
    } else if value == 2 {
        "2"
    } else if value == 3 {
        "3"
    } else if value == 4 {
        "4"
    } else if value == 5 {
        "5"
    } else if value == 6 {
        "6"
    } else if value == 7 {
        "7"
    } else if value == 8 {
        "8"
    } else if value == 9 {
        "9"
    } else if value == 10 {
        "A"
    } else if value == 11 {
        "B"
    } else if value == 12 {
        "C"
    } else if value == 13 {
        "D"
    } else if value == 14 {
        "E"
    } else {
        "F"
    };
    assert(text@ =~= seq![hex_digit(value as int)]);
    text
}

/// Writes a digest in upper case hexadecimal digits.
pub fn encode_checksum(digest: &[u8; 32]) -> (text: String)
    ensures
        text@ == encoded(digest@),
{
    let mut text = String::new();
    let mut i: usize = 0;
    while i < 32
        invariant
            i <= 32,
            digest@.len() == 32,
            text@ == encoded(digest@).take(2 * i),
        decreases 32 - i,
    {
        let byte: u8 = digest[i];
        let ghost before = text@;
        text.append(digit_text(byte / 16));
        text.append(digit_text(byte % 16));
        proof {
            let all = encoded(digest@);
            assert(all[2 * i] == hex_digit(byte as int / 16));
            assert(all[2 * i + 1] == hex_digit(byte as int % 16));
            assert(text@ =~= all.take(2 * (i + 1)));
        }
        i += 1;
    }
    proof {
        assert(encoded(digest@).take(64) =~= encoded(digest@));
    }
    text
}

/// Whether `text` writes `bytes` in hexadecimal digits, two to a byte and
/// the high half first, each digit in either case.
pub open spec fn spells(text: Seq<char>, bytes: Seq<u8>) -> bool {
    &&& text.len() == 2 * bytes.len()
    &&& forall|k: int|
        0 <= k < bytes.len() ==> hex_value(text[2 * k]) == Some((#[trigger] bytes[k]) as int / 16)
            && hex_value(text[2 * k + 1]) == Some(bytes[k] as int % 16)
}

/// A text that writes a digest in hexadecimal digits, in upper case, in
/// lower case or in both, decodes to that digest.
pub proof fn lemma_spelling_decodes(text: Seq<char>, digest: Seq<u8>)
    requires
        digest.len() == DIGEST_LEN,
        spells(text, digest),
    ensures
        is_checksum_text(text),
        decoded(text) == digest,
{
    assert forall|i: int| 0 <= i < text.len() implies hex_value(#[trigger] text[i]) is Some by {
        let k = i / 2;
        let byte = digest[k];
        if i == 2 * k {
            assert(hex_value(text[2 * k]) == Some(byte as int / 16));
        } else {
            assert(i == 2 * k + 1);
            assert(hex_value(text[2 * k + 1]) == Some(byte as int % 16));
        }
    }
    assert forall|k: int| 0 <= k < digest.len() implies decoded(text)[k] == digest[k] by {
        let byte = digest[k] as int;
        assert(hex_value(text[2 * k]) == Some(byte / 16));
        assert(hex_value(text[2 * k + 1]) == Some(byte % 16));
        assert(16 * (byte / 16) + byte % 16 == byte);
    }
    assert(decoded(text) =~= digest);
}

/// The upper case form of a digest writes the digest.
pub proof fn lemma_encoded_spells(digest: Seq<u8>)
    ensures
        spells(encoded(digest), digest),
{
    let text = encoded(digest);
    assert forall|value: int| 0 <= value < 16 implies hex_value(#[trigger] hex_digit(value))
        == Some(value) by {}
    assert forall|k: int| 0 <= k < digest.len() implies hex_value(text[2 * k]) == Some(
        (#[trigger] digest[k]) as int / 16,
    ) && hex_value(text[2 * k + 1]) == Some(digest[k] as int % 16) by {
        let byte = digest[k] as int;
        assert(0 <= byte / 16 < 16 && 0 <= byte % 16 < 16);
        assert(text[2 * k] == hex_digit(byte / 16));
        assert(text[2 * k + 1] == hex_digit(byte % 16));
    }
}

/// Decoding the hexadecimal form of a digest gives the digest back.
pub proof fn lemma_hex_round_trip(digest: Seq<u8>)
    requires
        digest.len() == DIGEST_LEN,
    ensures
        is_checksum_text(encoded(digest)),
        decoded(encoded(digest)) == digest,
{
    lemma_encoded_spells(digest);
    lemma_spelling_decodes(encoded(digest), digest);
}

/// A text of odd length, and a text that holds anything but hexadecimal
/// digits, is not the form of a digest.
pub proof fn lemma_malformed_checksum(text: Seq<char>)
    requires
        text.len() % 2 == 1 || exists|i: int| 0 <= i < text.len() && hex_value(text[i]) is None,
    ensures
        !is_checksum_text(text),
{
}

/// The SHA-256 digest of `content`.
pub uninterp spec fn sha256(content: Seq<u8>) -> Seq<u8>;

/// `Sha256::digest` of the sha2 crate: the SHA-256 digest of `content`, as
/// 32 bytes.
#[verifier::external_body]
fn sha256_of(content: &[u8]) -> (digest: [u8; 32])
    ensures
        digest@ == sha256(content@),
{
    Sha256::digest(content).into()
}

/// The digest by which the content of a file is compared with what the
/// store holds.
pub fn content_digest(content: &[u8]) -> (digest: [u8; 32])
    ensures
        digest@ == sha256(content@),
{
    sha256_of(content)
}

/// Whether two digests hold the same bytes.
pub fn same_digest(a: &[u8; 32], b: &[u8; 32]) -> (same: bool)
    ensures
        same == (a@ == b@),
{
    let mut i: usize = 0;
    while i < 32
        invariant
            i <= 32,
            a@.len() == 32,
            b@.len() == 32,
            forall|j: int| 0 <= j < i ==> a@[j] == b@[j],
        decreases 32 - i,
    {
        if a[i] != b[i] {
            return false;
        }
        i += 1;
    }
    assert(a@ =~= b@);
    true
}

} // verus!
