//! SHA-256 digests of byte strings, written as lowercase hexadecimal.

use vstd::prelude::*;

use sha2::Digest;

verus! {

/// The lowercase hexadecimal text of the SHA-256 digest of `bytes`.
pub uninterp spec fn sha256_hex_of(bytes: Seq<u8>) -> Seq<char>;

/// Whether `c` is a lowercase hexadecimal digit.
pub open spec fn is_lower_hex(c: char) -> bool {
    ('0' <= c && c <= '9') || ('a' <= c && c <= 'f')
}

/// Whether `s` is the text of a SHA-256 digest: 64 lowercase hexadecimal digits.
pub open spec fn is_sha256_hex(s: Seq<char>) -> bool {
    s.len() == 64 && forall|i: int| 0 <= i < s.len() ==> is_lower_hex(#[trigger] s[i])
}

/// Computes the SHA-256 digest of `bytes` with `sha2::Sha256::digest` and writes it in
/// lowercase hexadecimal (`{:x}`). The contract names the result (the same bytes give the
/// same text) and states its shape: the 32 digest bytes as 64 digits of
/// `0123456789abcdef`, as the digest array's `LowerHex` writes them. Which digits come
/// out is not stated.
#[verifier::external_body]
pub(crate) fn sha256_hex(bytes: &[u8]) -> (h: String)
    ensures
        h@ == sha256_hex_of(bytes@),
        is_sha256_hex(h@),
{
    format!("{:x}", sha2::Sha256::digest(bytes))
}

/// The prefix that labels a digest as SHA-256.
pub open spec fn sha256_label() -> Seq<char> {
    seq!['s', 'h', 'a', '2', '5', '6', ':']
}

/// The labelled text of a digest: `sha256:` followed by its hexadecimal.
pub open spec fn labelled_sha256(bytes: Seq<u8>) -> Seq<char> {
    sha256_label() + sha256_hex_of(bytes)
}

/// `sha256:` followed by the hexadecimal SHA-256 digest of `bytes`.
pub fn labelled_digest(bytes: &[u8]) -> (h: String)
    ensures
        h@ == labelled_sha256(bytes@),
        h@.subrange(0, 7) == sha256_label(),
        is_sha256_hex(h@.subrange(7, h@.len() as int)),
{
    let mut h = String::from_str("sha256:");
    proof {
        reveal_strlit("sha256:");
    }
    let hex = sha256_hex(bytes);
    h.append(hex.as_str());
    proof {
        assert(h@.subrange(0, 7) =~= sha256_label());
        assert(h@.subrange(7, h@.len() as int) =~= hex@);
    }
    h
}

/// Appends all bytes of `src` to `dst`.
pub fn extend_bytes(dst: &mut Vec<u8>, src: &[u8])
    ensures
        final(dst)@ == old(dst)@ + src@,
{
    let mut i: usize = 0;
    while i < src.len()
        invariant
            i <= src@.len(),
            dst@ == old(dst)@ + src@.subrange(0, i as int),
        decreases src@.len() - i,
    {
        dst.push(src[i]);
        i = i + 1;
        proof {
            assert(src@.subrange(0, i as int) =~= src@.subrange(0, i - 1).push(src@[i - 1]));
        }
    }
    proof {
        assert(src@.subrange(0, src@.len() as int) =~= src@);
    }
}

} // verus!
