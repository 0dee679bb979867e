//! Domain-separated SHA-256 helpers for revisions and chunks.

use sha2::Digest;
use vstd::prelude::*;
use vstd::utf8::encode_utf8;

use crate::text::{decimal, push_char, push_decimal, push_str};

verus! {

/// The SHA-256 digest of `data`, as `sha2` computes it.
pub uninterp spec fn sha256(data: Seq<u8>) -> Seq<u8>;

/// Wraps `sha2::Sha256::digest`: the digest of `data`, which is 32 bytes
/// long. The digest itself is only named, never described.
#[verifier::external_body]
fn sha256_digest(data: &[u8]) -> (digest: Vec<u8>)
    ensures
        digest@ == sha256(data@),
        digest@.len() == 32,
{
    sha2::Sha256::digest(data).to_vec()
}

/// The lowercase hexadecimal digit for `n`, which must be below sixteen.
pub open spec fn hex_digit(n: u8) -> char {
    if n < 10 {
        ('0' as u8 + n) as char
    } else {
        ('a' as u8 + (n - 10)) as char
    }
}

/// Lowercase hex, two digits per byte, high nibble first.
pub open spec fn hex_lower(bytes: Seq<u8>) -> Seq<char>
    decreases bytes.len(),
{
    if bytes.len() == 0 {
        seq![]
    } else {
        hex_lower(bytes.drop_last()) + seq![
            hex_digit(bytes.last() / 16),
            hex_digit(bytes.last() % 16),
        ]
    }
}

/// Wraps `hex::encode`: two lowercase hex digits per byte, high nibble first.
#[verifier::external_body]
fn hex_encode(bytes: &[u8]) -> (text: String)
    ensures
        text@ == hex_lower(bytes@),
{
    hex::encode(bytes)
}

/// The length of a hex rendering.
pub proof fn lemma_hex_len(bytes: Seq<u8>)
    ensures
        hex_lower(bytes).len() == 2 * bytes.len(),
    decreases bytes.len(),
{
    if bytes.len() > 0 {
        lemma_hex_len(bytes.drop_last());
    }
}

/// Whether `c` is a lowercase hex digit.
pub open spec fn is_lower_hex(c: char) -> bool {
    ('0' <= c && c <= '9') || ('a' <= c && c <= 'f')
}

/// Every character of a hex rendering is a lowercase hex digit.
pub proof fn lemma_hex_digits(bytes: Seq<u8>)
    ensures
        forall|i: int| 0 <= i < hex_lower(bytes).len() ==> is_lower_hex(#[trigger] hex_lower(bytes)[i]),
    decreases bytes.len(),
{
    if bytes.len() > 0 {
        lemma_hex_digits(bytes.drop_last());
        lemma_hex_len(bytes.drop_last());
        let h = hex_lower(bytes);
        let p = hex_lower(bytes.drop_last());
        assert forall|i: int| 0 <= i < h.len() implies is_lower_hex(#[trigger] h[i]) by {
            if i < p.len() {
                assert(h[i] == p[i]);
            }
        }
    }
}

/// `hex(sha256(message))` for a message given as text.
pub open spec fn hex_sha256(message: Seq<char>) -> Seq<char> {
    hex_lower(sha256(encode_utf8(message)))
}

/// Whether `s` is 64 lowercase hex digits, the shape of every digest rendering.
pub open spec fn is_digest_text(s: Seq<char>) -> bool {
    s.len() == 64 && forall|i: int| 0 <= i < 64 ==> is_lower_hex(#[trigger] s[i])
}

fn sha256_hex(message: &str) -> (text: String)
    ensures
        text@ == hex_sha256(message@),
        is_digest_text(text@),
{
    let digest = sha256_digest(message.as_bytes());
    proof {
        lemma_hex_len(digest@);
        lemma_hex_digits(digest@);
    }
    hex_encode(digest.as_slice())
}

/// The revision domain tag, `momotaro-revision-v1` and a NUL.
pub open spec fn revision_domain() -> Seq<char> {
    "momotaro-revision-v1\0"@
}

/// The chunk-id domain tag, `momotaro-chunk-id-v1` and a NUL.
pub open spec fn chunk_id_domain() -> Seq<char> {
    "momotaro-chunk-id-v1\0"@
}

/// The chunk-hash domain tag, `momotaro-chunk-hash-v1` and a NUL.
pub open spec fn chunk_hash_domain() -> Seq<char> {
    "momotaro-chunk-hash-v1\0"@
}

/// The message a revision hash digests.
pub open spec fn revision_message(normalized: Seq<char>) -> Seq<char> {
    revision_domain() + normalized
}

/// The message a chunk id digests.
pub open spec fn chunk_id_message(source_key: Seq<char>, revision_hash: Seq<char>, ordinal: nat) -> Seq<
    char,
> {
    chunk_id_domain() + source_key + seq!['\0'] + revision_hash + seq!['\0'] + decimal(ordinal)
}

/// The message a chunk hash digests.
pub open spec fn chunk_hash_message(chunk_id: Seq<char>, text: Seq<char>) -> Seq<char> {
    chunk_hash_domain() + chunk_id + seq!['\0'] + text
}

/// `hex(sha256("momotaro-revision-v1\0" + normalized))`.
pub fn revision_hash(normalized: &str) -> (h: String)
    ensures
        h@ == hex_sha256(revision_message(normalized@)),
        is_digest_text(h@),
{
    let mut message = String::new();
    push_str(&mut message, "momotaro-revision-v1\0");
    push_str(&mut message, normalized);
    sha256_hex(message.as_str())
}

/// `hex(sha256("momotaro-chunk-id-v1\0" + source_key + "\0" + revision_hash + "\0" + ordinal))`.
pub fn chunk_id(source_key: &str, revision_hash: &str, ordinal: u32) -> (id: String)
    ensures
        id@ == hex_sha256(chunk_id_message(source_key@, revision_hash@, ordinal as nat)),
        is_digest_text(id@),
{
    let mut message = String::new();
    push_str(&mut message, "momotaro-chunk-id-v1\0");
    push_str(&mut message, source_key);
    push_char(&mut message, '\0');
    push_str(&mut message, revision_hash);
    push_char(&mut message, '\0');
    push_decimal(&mut message, ordinal as u64);
    assert(message@ =~= chunk_id_message(source_key@, revision_hash@, ordinal as nat));
    sha256_hex(message.as_str())
}

/// `hex(sha256("momotaro-chunk-hash-v1\0" + chunk_id + "\0" + text))`.
pub fn chunk_hash(chunk_id: &str, text: &str) -> (h: String)
    ensures
        h@ == hex_sha256(chunk_hash_message(chunk_id@, text@)),
        is_digest_text(h@),
{
    let mut message = String::new();
    push_str(&mut message, "momotaro-chunk-hash-v1\0");
    push_str(&mut message, chunk_id);
    push_char(&mut message, '\0');
    push_str(&mut message, text);
    assert(message@ =~= chunk_hash_message(chunk_id@, text@));
    sha256_hex(message.as_str())
}

proof fn lemma_digit_injective(a: nat, b: nat)
    requires
        a < 10,
        b < 10,
        crate::text::digit_char(a) == crate::text::digit_char(b),
    ensures
        a == b,
{
}

/// Decimal spellings of different numbers differ.
pub proof fn lemma_decimal_injective(a: nat, b: nat)
    ensures
        decimal(a) == decimal(b) ==> a == b,
    decreases a + b,
{
    if decimal(a) == decimal(b) {
        crate::text::lemma_decimal_nonempty(a);
        crate::text::lemma_decimal_nonempty(b);
        if a < 10 && b < 10 {
            assert(decimal(a)[0] == crate::text::digit_char(a));
            assert(decimal(b)[0] == crate::text::digit_char(b));
            lemma_digit_injective(a, b);
        } else if a >= 10 && b >= 10 {
            assert(decimal(a).drop_last() == decimal(a / 10));
            assert(decimal(b).drop_last() == decimal(b / 10));
            assert(decimal(a).last() == crate::text::digit_char(a % 10));
            assert(decimal(b).last() == crate::text::digit_char(b % 10));
            lemma_digit_injective(a % 10, b % 10);
            lemma_decimal_injective(a / 10, b / 10);
        } else {
            assert(decimal(a).len() != decimal(b).len());
        }
    }
}

/// Law: every character of a revision's text goes into its digest. Two
/// different texts digest different messages, so any edit, anywhere in the
/// text, gives a new revision hash unless SHA-256 collides; and the message
/// starts with the revision domain tag, so it never equals a chunk message.
pub proof fn law_revision_message_covers_whole_text(a: Seq<char>, b: Seq<char>)
    ensures
        revision_message(a) == revision_message(b) ==> a == b,
        revision_message(a).len() == revision_domain().len() + a.len(),
        revision_message(a).take(revision_domain().len() as int) == revision_domain(),
{
    let d = revision_domain();
    assert(revision_message(a).take(d.len() as int) =~= d);
    if revision_message(a) == revision_message(b) {
        assert(revision_message(a).skip(d.len() as int) =~= a);
        assert(revision_message(b).skip(d.len() as int) =~= b);
    }
}

/// Law: a chunk's hash covers its whole text. Under one chunk id, two
/// different texts digest different messages.
pub proof fn law_chunk_hash_message_covers_whole_text(chunk_id: Seq<char>, a: Seq<char>, b: Seq<char>)
    ensures
        chunk_hash_message(chunk_id, a) == chunk_hash_message(chunk_id, b) ==> a == b,
{
    let p = chunk_hash_domain() + chunk_id + seq!['\0'];
    if chunk_hash_message(chunk_id, a) == chunk_hash_message(chunk_id, b) {
        assert(chunk_hash_message(chunk_id, a).skip(p.len() as int) =~= a);
        assert(chunk_hash_message(chunk_id, b).skip(p.len() as int) =~= b);
    }
}

/// Law: chunk ids of one source and position under different revisions digest
/// different messages. Revision hashes are hex and hold no NUL.
pub proof fn law_chunk_id_message_separates_revisions(
    source_key: Seq<char>,
    a: Seq<char>,
    b: Seq<char>,
    ordinal: nat,
)
    requires
        a != b,
        nul_free(a),
        nul_free(b),
    ensures
        chunk_id_message(source_key, a, ordinal) != chunk_id_message(source_key, b, ordinal),
{
    let x = a.push('\0');
    let y = b.push('\0');
    let i: int = if a.len() == b.len() {
        assert(!(a =~= b));
        choose|i: int| 0 <= i < a.len() && a[i] != b[i]
    } else if a.len() < b.len() {
        if a =~= b.take(a.len() as int) {
            a.len() as int
        } else {
            choose|i: int| 0 <= i < a.len() && a[i] != b.take(a.len() as int)[i]
        }
    } else {
        if b =~= a.take(b.len() as int) {
            b.len() as int
        } else {
            choose|i: int| 0 <= i < b.len() && b[i] != a.take(b.len() as int)[i]
        }
    };
    assert(0 <= i < x.len() && i < y.len() && x[i] != y[i]);
    let p = chunk_id_domain() + source_key + seq!['\0'];
    let ma = chunk_id_message(source_key, a, ordinal);
    let mb = chunk_id_message(source_key, b, ordinal);
    assert(ma[p.len() + i] == x[i]);
    assert(mb[p.len() + i] == y[i]);
}

/// Whether `s` holds no NUL character.
pub open spec fn nul_free(s: Seq<char>) -> bool {
    forall|i: int| 0 <= i < s.len() ==> s[i] != '\0'
}

/// Law: chunks of different sources digest different messages, whatever their
/// revision and position agree on, so identical content under two keys gets
/// two ids unless SHA-256 collides. Valid source keys hold no NUL.
pub proof fn law_chunk_id_message_separates_sources(
    a: Seq<char>,
    b: Seq<char>,
    revision_hash: Seq<char>,
    ordinal: nat,
)
    requires
        a != b,
        nul_free(a),
        nul_free(b),
    ensures
        chunk_id_message(a, revision_hash, ordinal) != chunk_id_message(b, revision_hash, ordinal),
{
    let x = a.push('\0');
    let y = b.push('\0');
    let i: int = if a.len() == b.len() {
        assert(!(a =~= b));
        choose|i: int| 0 <= i < a.len() && a[i] != b[i]
    } else if a.len() < b.len() {
        if a =~= b.take(a.len() as int) {
            a.len() as int
        } else {
            choose|i: int| 0 <= i < a.len() && a[i] != b.take(a.len() as int)[i]
        }
    } else {
        if b =~= a.take(b.len() as int) {
            b.len() as int
        } else {
            choose|i: int| 0 <= i < b.len() && b[i] != a.take(b.len() as int)[i]
        }
    };
    assert(0 <= i < x.len() && i < y.len() && x[i] != y[i]);
    let d = chunk_id_domain();
    let ma = chunk_id_message(a, revision_hash, ordinal);
    let mb = chunk_id_message(b, revision_hash, ordinal);
    assert(ma[d.len() + i] == x[i]);
    assert(mb[d.len() + i] == y[i]);
}

/// Law: two chunks of one revision at different positions digest different
/// messages, so their ids can only coincide through a SHA-256 collision.
pub proof fn law_chunk_id_message_separates_ordinals(
    source_key: Seq<char>,
    revision_hash: Seq<char>,
    a: nat,
    b: nat,
)
    requires
        a != b,
    ensures
        chunk_id_message(source_key, revision_hash, a) != chunk_id_message(
            source_key,
            revision_hash,
            b,
        ),
{
    let prefix = chunk_id_domain() + source_key + seq!['\0'] + revision_hash + seq!['\0'];
    lemma_decimal_injective(a, b);
    if chunk_id_message(source_key, revision_hash, a) == chunk_id_message(
        source_key,
        revision_hash,
        b,
    ) {
        let ma = chunk_id_message(source_key, revision_hash, a);
        assert(ma.skip(prefix.len() as int) =~= decimal(a));
        assert(chunk_id_message(source_key, revision_hash, b).skip(prefix.len() as int) =~= decimal(b));
    }
}

} // verus!
