//! Fingerprints of audio files, for telling apart files that were imported
//! before, and the naming of mixdown files.
//!
//! A fingerprint is the SHA-256 digest, in lower-case hexadecimal, of the
//! first mebibyte of a file followed by the size of the whole file. Reading
//! the file is the caller's part.

use sha2::{Digest, Sha256};
use vstd::bytes::{spec_u64_to_le_bytes, u64_to_le_bytes};
use vstd::prelude::*;
use vstd::slice::slice_subrange;
use vstd::string::StringExecFns;

verus! {

/// Number of bytes from the start of a file that go into its fingerprint.
pub const HASH_BUFFER_SIZE: usize = 1048576;

/// The SHA-256 digest of a message.
pub uninterp spec fn sha256_of(message: Seq<u8>) -> Seq<u8>;

/// The SHA-256 digest of a message.
///
/// Trusted: the result is what `sha2::Sha256::digest` computes for the
/// message, which is 32 bytes long.
#[verifier::external_body]
fn sha256(message: &[u8]) -> (digest: Vec<u8>)
    ensures
        digest@ == sha256_of(message@),
        digest@.len() == 32,
{
    Sha256::digest(message).to_vec()
}

/// The hexadecimal digit for a number below sixteen, in lower case.
pub open spec fn hex_digit(n: int) -> Seq<char> {
    if n == 0 {
        "0"@
    } else if n == 1 {
        "1"@
    } else if n == 2 {
        "2"@
    } else if n == 3 {
        "3"@
    } else if n == 4 {
        "4"@
    } else if n == 5 {
        "5"@
    } else if n == 6 {
        "6"@
    } else if n == 7 {
        "7"@
    } else if n == 8 {
        "8"@
    } else if n == 9 {
        "9"@
    } else if n == 10 {
        "a"@
    } else if n == 11 {
        "b"@
    } else if n == 12 {
        "c"@
    } else if n == 13 {
        "d"@
    } else if n == 14 {
        "e"@
    } else {
        "f"@
    }
}

/// The bytes in hexadecimal: two digits for each byte, the high one first.
pub open spec fn hex_of(bytes: Seq<u8>) -> Seq<char>
    decreases bytes.len(),
{
    if bytes.len() == 0 {
        Seq::empty()
    } else {
        hex_of(bytes.drop_last()) + hex_digit(bytes.last() as int / 16) + hex_digit(
            bytes.last() as int % 16,
        )
    }
}

/// Every hexadecimal digit is a single character, so the hexadecimal form of
/// a run of bytes has two characters for each byte.
pub proof fn lemma_hex_length(bytes: Seq<u8>)
    ensures
        hex_of(bytes).len() == 2 * bytes.len(),
    decreases bytes.len(),
{
    reveal_strlit("0");
    reveal_strlit("1");
    reveal_strlit("2");
    reveal_strlit("3");
    reveal_strlit("4");
    reveal_strlit("5");
    reveal_strlit("6");
    reveal_strlit("7");
    reveal_strlit("8");
    reveal_strlit("9");
    reveal_strlit("a");
    reveal_strlit("b");
    reveal_strlit("c");
    reveal_strlit("d");
    reveal_strlit("e");
    reveal_strlit("f");
    if bytes.len() > 0 {
        lemma_hex_length(bytes.drop_last());
    }
}

fn digit(n: u8) -> (text: &'static str)
    requires
        n < 16,
    ensures
        text@ == hex_digit(n as int),
{
    if n == 0 {
        "0"
    } else if n == 1 {
        "1"
    } else if n == 2 {
        "2"
    } else if n == 3 {
        "3"
    } else if n == 4 {
        "4"
    } else if n == 5 {
        "5"
    } else if n == 6 {
        "6"
    } else if n == 7 {
        "7"
    } else if n == 8 {
        "8"
    } else if n == 9 {
        "9"
    } else if n == 10 {
        "a"
    } else if n == 11 {
        "b"
    } else if n == 12 {
        "c"
    } else if n == 13 {
        "d"
    } else if n == 14 {
        "e"
    } else {
        "f"
    }
}

/// The bytes in lower-case hexadecimal.
pub fn to_hex(bytes: &[u8]) -> (text: String)
    ensures
        text@ == hex_of(bytes@),
{
    let mut text = String::new();
    let mut i: usize = 0;
    while i < bytes.len()
        invariant
            i <= bytes.len(),
            text@ == hex_of(bytes@.take(i as int)),
        decreases bytes.len() - i,
    {
        let byte = bytes[i];
        proof {
            let upto = bytes@.take(i + 1);
            assert(upto.drop_last() =~= bytes@.take(i as int));
            assert(upto.last() == byte);
        }
        text = text.concat(digit(byte / 16)).concat(digit(byte % 16));
        i += 1;
    }
    assert(bytes@.take(i as int) =~= bytes@);
    text
}

/// The SHA-256 digest of the data, in lower-case hexadecimal.
pub fn hash_bytes(data: &[u8]) -> (hash: String)
    ensures
        hash@ == hex_of(sha256_of(data@)),
        hash@.len() == 64,
{
    let digest = sha256(data);
    proof {
        lemma_hex_length(digest@);
    }
    to_hex(digest.as_slice())
}

/// What goes into the fingerprint of a file: at most the first mebibyte of
/// its content, then its size as eight bytes, the lowest first.
pub open spec fn fingerprint_message(content: Seq<u8>, file_size: u64) -> Seq<u8> {
    let head = if content.len() > HASH_BUFFER_SIZE {
        content.take(HASH_BUFFER_SIZE as int)
    } else {
        content
    };
    head + spec_u64_to_le_bytes(file_size)
}

/// The fingerprint of a file, from the start of its content and its size.
/// Of the content no more than the first mebibyte is looked at, so two files
/// of the same size that start alike have the same fingerprint.
pub fn calculate_file_hash(content: &[u8], file_size: u64) -> (hash: String)
    ensures
        hash@ == hex_of(sha256_of(fingerprint_message(content@, file_size))),
        hash@.len() == 64,
{
    let head = if content.len() > HASH_BUFFER_SIZE {
        slice_subrange(content, 0, HASH_BUFFER_SIZE)
    } else {
        content
    };
    assert(content@.len() > HASH_BUFFER_SIZE ==> head@ =~= content@.take(HASH_BUFFER_SIZE as int));
    let mut message: Vec<u8> = Vec::new();
    let mut i: usize = 0;
    while i < head.len()
        invariant
            i <= head.len(),
            message@ == head@.take(i as int),
        decreases head.len() - i,
    {
        message.push(head[i]);
        assert(message@ =~= head@.take(i + 1));
        i += 1;
    }
    assert(head@.take(i as int) =~= head@);
    let mut size_bytes = u64_to_le_bytes(file_size);
    message.append(&mut size_bytes);
    hash_bytes(message.as_slice())
}

/// Whether a fingerprint is among those already known.
pub fn is_duplicate(hash: &str, existing_hashes: &[String]) -> (known: bool)
    ensures
        known == exists|i: int| 0 <= i < existing_hashes@.len() && existing_hashes@[i]@ == hash@,
{
    let wanted = hash.to_owned();
    let mut i: usize = 0;
    while i < existing_hashes.len()
        invariant
            i <= existing_hashes.len(),
            wanted@ == hash@,
            forall|j: int| 0 <= j < i ==> existing_hashes@[j]@ != hash@,
        decreases existing_hashes.len() - i,
    {
        if existing_hashes[i] == wanted {
            return true;
        }
        i += 1;
    }
    false
}

/// Name of the file that holds the mixdown of a song: the identifier of the
/// song with the extension `.wav`.
pub fn get_mixdown_filename(song_id: &str) -> (filename: String)
    ensures
        filename@ == song_id@ + ".wav"@,
{
    song_id.to_owned().concat(".wav")
}

} // verus!
