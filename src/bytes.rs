//! Byte mode: the first `n` bytes of a source, decoded as text with
//! replacement characters where the bytes are not valid UTF-8.
use vstd::prelude::*;
use vstd::utf8::{decode_utf8, valid_utf8};

verus! {

/// The text that lossy UTF-8 decoding makes of `b`: invalid sequences, such
/// as a character cut at the end, become U+FFFD.
pub uninterp spec fn lossy_text(b: Seq<u8>) -> Seq<char>;

/// U+FFFD, the character that stands for bytes that are not valid UTF-8.
pub open spec fn replacement_char() -> char {
    '\u{FFFD}'
}

/// The text holds a replacement character.
pub open spec fn has_replacement(t: Seq<char>) -> bool {
    exists|i: int| 0 <= i < t.len() && t[i] == replacement_char()
}

/// Relies on `String::from_utf8_lossy`: the lossy decoding of `b`, which is
/// `b` itself, decoded, when `b` is valid UTF-8, and otherwise holds U+FFFD
/// in place of each invalid sequence.
#[verifier::external_body]
fn decode_lossy(b: &[u8]) -> (r: String)
    ensures
        r@ == lossy_text(b@),
        valid_utf8(b@) ==> r@ == decode_utf8(b@),
        !valid_utf8(b@) ==> has_replacement(r@),
{
    String::from_utf8_lossy(b).into_owned()
}

/// The bytes that byte mode keeps of `s`: the first `n`, or all of them.
pub open spec fn first_bytes(s: Seq<u8>, n: nat) -> Seq<u8> {
    if s.len() <= n {
        s
    } else {
        s.take(n as int)
    }
}

/// The output of byte mode on a source held in memory: its first `n` bytes,
/// decoded lossily. The count is of bytes, so a character may be cut.
pub fn head_bytes(data: &[u8], n: usize) -> (r: String)
    ensures
        r@ == lossy_text(first_bytes(data@, n as nat)),
        valid_utf8(first_bytes(data@, n as nat)) ==> r@ == decode_utf8(
            first_bytes(data@, n as nat),
        ),
        !valid_utf8(first_bytes(data@, n as nat)) ==> has_replacement(r@),
{
    let k = if data.len() <= n {
        data.len()
    } else {
        n
    };
    let part = &data[0..k];
    assert(part@ =~= first_bytes(data@, n as nat));
    decode_lossy(part)
}

/// Byte mode keeps exactly `min(B, n)` bytes of a source of `B` bytes, and
/// they are its leading bytes.
pub proof fn lemma_first_bytes_prefix(s: Seq<u8>, n: nat)
    ensures
        first_bytes(s, n).len() == if s.len() <= n {
            s.len()
        } else {
            n
        },
        first_bytes(s, n) == s.take(first_bytes(s, n).len() as int),
{
    if s.len() <= n {
        assert(s.take(s.len() as int) =~= s);
    }
}

} // verus!
