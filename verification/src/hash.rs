//! SHA-256 digests in hexadecimal.
use crate::ids;
use vstd::prelude::*;

verus! {

/// The SHA-256 digest of some bytes.
pub uninterp spec fn sha256(bytes: Seq<u8>) -> Seq<u8>;

/// `sha2::Sha256::digest`: thirty-two bytes that depend on the given bytes alone.
#[verifier::external_body]
fn sha256_digest(bytes: &[u8]) -> (digest: Vec<u8>)
    ensures
        digest@ == sha256(bytes@),
        digest@.len() == 32,
{
    <sha2::Sha256 as sha2::Digest>::digest(bytes).to_vec()
}

/// Bytes in lower-case hexadecimal, two digits each.
pub open spec fn hex_of(bytes: Seq<u8>) -> Seq<char>
    decreases bytes.len(),
{
    if bytes.len() == 0 {
        Seq::empty()
    } else {
        hex_of(bytes.drop_last()).push(ids::hex_char((bytes.last() / 16) as nat)).push(
            ids::hex_char((bytes.last() % 16) as nat),
        )
    }
}

/// Bytes in lower-case hexadecimal.
pub fn to_hex(bytes: &[u8]) -> (s: String)
    ensures
        s@ == hex_of(bytes@),
{
    let mut s = String::new();
    let mut i: usize = 0;
    assert(bytes@.take(0) == Seq::<u8>::empty());
    while i < bytes.len()
        invariant
            i <= bytes@.len(),
            s@ == hex_of(bytes@.take(i as int)),
        decreases bytes@.len() - i,
    {
        let b: u8 = bytes[i];
        s.push(ids::hex_digit(b / 16));
        s.push(ids::hex_digit(b % 16));
        assert(bytes@.take(i + 1).drop_last() == bytes@.take(i as int));
        assert(bytes@.take(i + 1).last() == b);
        i += 1;
    }
    assert(bytes@.take(bytes@.len() as int) == bytes@);
    s
}

/// The SHA-256 digest of some bytes in lower-case hexadecimal.
pub open spec fn sha256_hex(bytes: Seq<u8>) -> Seq<char> {
    hex_of(sha256(bytes))
}

/// The SHA-256 digest of some bytes in lower-case hexadecimal.
pub fn digest_hex(bytes: &[u8]) -> (s: String)
    ensures
        s@ == sha256_hex(bytes@),
        s@.len() == 64,
{
    let digest = sha256_digest(bytes);
    proof {
        lemma_hex_of_len(digest@);
    }
    to_hex(&digest)
}

/// Hexadecimal takes two digits for every byte.
pub proof fn lemma_hex_of_len(bytes: Seq<u8>)
    ensures
        hex_of(bytes).len() == 2 * bytes.len(),
    decreases bytes.len(),
{
    if bytes.len() > 0 {
        lemma_hex_of_len(bytes.drop_last());
    }
}

/// Appends bytes.
pub fn append(bytes: &mut Vec<u8>, more: &[u8])
    ensures
        final(bytes)@ == old(bytes)@ + more@,
{
    let ghost before = bytes@;
    let mut i: usize = 0;
    assert(before + more@.take(0) == before);
    while i < more.len()
        invariant
            i <= more@.len(),
            bytes@ == before + more@.take(i as int),
        decreases more@.len() - i,
    {
        bytes.push(more[i]);
        assert(before + more@.take(i + 1) == (before + more@.take(i as int)).push(
            more@[i as int],
        ));
        i += 1;
    }
    assert(more@.take(more@.len() as int) == more@);
}

/// Bytes are written in a row, each with two digits that write its number.
pub proof fn bytes_are_written_in_a_row(bytes: Seq<u8>, b: u8)
    ensures
        hex_of(Seq::empty()).len() == 0,
        ids::hex_value(hex_of(bytes.push(b))) == 256 * ids::hex_value(hex_of(bytes)) + b,
        hex_of(bytes.push(b)).take(2 * bytes.len() as int) == hex_of(bytes),
{
    let h = hex_of(bytes);
    let x = ids::hex_char((b / 16) as nat);
    let y = ids::hex_char((b % 16) as nat);
    assert(bytes.push(b).drop_last() == bytes);
    assert(h.push(x).drop_last() == h);
    assert(h.push(x).push(y).drop_last() == h.push(x));
    lemma_hex_of_len(bytes);
    assert(h.push(x).push(y).take(2 * bytes.len() as int) == h);
    lemma_digit((b / 16) as nat);
    lemma_digit((b % 16) as nat);
    assert(b == 16 * (b / 16) + b % 16);
    assert(ids::hex_value(h.push(x)) == 16 * ids::hex_value(h) + b / 16);
}

proof fn lemma_digit(d: nat)
    requires
        d < 16,
    ensures
        d < 10 ==> ids::hex_char(d) as int == 48 + d,
        d >= 10 ==> ids::hex_char(d) as int == 87 + d,
{
    assert('0' as u32 == 48 && 'a' as u32 == 97);
}

} // verus!
