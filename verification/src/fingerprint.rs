//! Content fingerprints: a 64-bit XXH3 digest and its hexadecimal text.

use vstd::prelude::*;
use vstd::string::*;

verus! {

/// A content digest. Files with equal fingerprints count as identical.
pub type Fingerprint = u64;

/// Number of hexadecimal digits in the text of a fingerprint.
pub const DIGEST_WIDTH: usize = 16;

/// Number of leading digits used to tell colliding names apart.
pub const SHORT_WIDTH: usize = 8;

/// The 64-bit XXH3 hash, with seed 0, of `data`, as `twox_hash` computes it.
pub uninterp spec fn xxh3_64(data: Seq<u8>) -> u64;

/// Calls `twox_hash::xxh3::hash64`.
/// Trusted: the value returned is `xxh3_64` of the bytes, and of them alone.
#[verifier::external_body]
fn xxh3_hash64(data: &[u8]) -> (h: u64)
    ensures
        h == xxh3_64(data@),
{
    twox_hash::xxh3::hash64(data)
}

/// The lower-case hexadecimal digit for `d`, which is below 16.
pub open spec fn hex_digit(d: int) -> char {
    if d == 0 {
        '0'
    } else if d == 1 {
        '1'
    } else if d == 2 {
        '2'
    } else if d == 3 {
        '3'
    } else if d == 4 {
        '4'
    } else if d == 5 {
        '5'
    } else if d == 6 {
        '6'
    } else if d == 7 {
        '7'
    } else if d == 8 {
        '8'
    } else if d == 9 {
        '9'
    } else if d == 10 {
        'a'
    } else if d == 11 {
        'b'
    } else if d == 12 {
        'c'
    } else if d == 13 {
        'd'
    } else if d == 14 {
        'e'
    } else {
        'f'
    }
}

/// The last `width` hexadecimal digits of `value`, most significant first,
/// padded with zeros on the left.
pub open spec fn hex_digits(value: nat, width: nat) -> Seq<char>
    decreases width,
{
    if width == 0 {
        Seq::empty()
    } else {
        hex_digits(value / 16, (width - 1) as nat).push(hex_digit((value % 16) as int))
    }
}

/// The text of a fingerprint: sixteen lower-case hexadecimal digits.
pub open spec fn hex_digest(digest: Fingerprint) -> Seq<char> {
    hex_digits(digest as nat, DIGEST_WIDTH as nat)
}

/// The first eight digits of the text of a fingerprint.
pub open spec fn short_digest(digest: Fingerprint) -> Seq<char> {
    hex_digest(digest).take(SHORT_WIDTH as int)
}

/// `hex_digits` is as long as the width asked for.
pub proof fn lemma_hex_digits_len(value: nat, width: nat)
    ensures
        hex_digits(value, width).len() == width,
    decreases width,
{
    if width > 0 {
        lemma_hex_digits_len(value / 16, (width - 1) as nat);
    }
}

/// The one-character text of the hexadecimal digit `d`.
fn hex_text(d: u8) -> (text: &'static str)
    requires
        d < 16,
    ensures
        text@ == seq![hex_digit(d as int)],
{
    proof {
        reveal_strlit("0");
        reveal_strlit("1");
        reveal_strlit("2");
        reveal_strlit("3");
        reveal_strlit("4");
        reveal_strlit("5");
        reveal_strlit("6");
        reveal_strlit("7");
        reveal_strlit("8");
        reveal_strlit("9");
        reveal_strlit("a");
        reveal_strlit("b");
        reveal_strlit("c");
        reveal_strlit("d");
        reveal_strlit("e");
        reveal_strlit("f");
    }
    match d {
        0 => "0",
        1 => "1",
        2 => "2",
        3 => "3",
        4 => "4",
        5 => "5",
        6 => "6",
        7 => "7",
        8 => "8",
        9 => "9",
        10 => "a",
        11 => "b",
        12 => "c",
        13 => "d",
        14 => "e",
        _ => "f",
    }
}

/// Appends the last `width` hexadecimal digits of `value` to `out`.
fn push_hex(out: &mut String, value: u64, width: usize)
    ensures
        final(out)@ == old(out)@ + hex_digits(value as nat, width as nat),
    decreases width,
{
    if width > 0 {
        push_hex(out, value / 16, width - 1);
        let d: u8 = (value % 16) as u8;
        out.append(hex_text(d));
    }
}

/// Writes a fingerprint as sixteen lower-case hexadecimal digits, zeros
/// included, most significant digit first.
pub fn format_digest(digest: Fingerprint) -> (text: String)
    ensures
        text@ == hex_digest(digest),
        text@.len() == DIGEST_WIDTH,
{
    let mut text = String::new();
    push_hex(&mut text, digest, DIGEST_WIDTH);
    proof {
        lemma_hex_digits_len(digest as nat, DIGEST_WIDTH as nat);
    }
    text
}

/// The first eight hexadecimal digits of a fingerprint.
pub fn format_short_digest(digest: Fingerprint) -> (text: String)
    ensures
        text@ == short_digest(digest),
        text@.len() == SHORT_WIDTH,
{
    let full = format_digest(digest);
    let head = full.as_str().substring_char(0, SHORT_WIDTH);
    String::from_str(head)
}

/// A line of the fingerprint ledger: the text of the digest, two spaces, and
/// the path.
pub open spec fn ledger_entry(digest: Fingerprint, path: Seq<char>) -> Seq<char> {
    hex_digest(digest) + seq![' ', ' '] + path
}

/// Writes the ledger line for a file, without a line end.
pub fn ledger_line(digest: Fingerprint, path: &str) -> (line: String)
    ensures
        line@ == ledger_entry(digest, path@),
{
    let mut line = format_digest(digest);
    proof {
        reveal_strlit("  ");
    }
    line.append("  ");
    line.append(path);
    line
}

/// Fingerprints the complete contents of a file: the digest of the bytes and
/// how many bytes went into it.
pub fn fingerprint(data: &[u8]) -> (out: (Fingerprint, usize))
    ensures
        out.0 == xxh3_64(data@),
        out.1 == data@.len(),
{
    (xxh3_hash64(data), data.len())
}

/// The fingerprint of `data` as text.
pub fn calculate_hash(data: &[u8]) -> (text: String)
    ensures
        text@ == hex_digest(xxh3_64(data@)),
{
    let (digest, _) = fingerprint(data);
    format_digest(digest)
}

} // verus!
