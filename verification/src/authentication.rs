//! Authentication protocol support: the salted double-hash password
//! response.
//!
//! The response token is `"md5"` followed by the hex digest
//! `H(H(password || username) || salt)`, where `H` is the hex-encoded MD5
//! digest and the inner digest travels into the outer hash as its ASCII
//! hex string. MD5 is what the protocol specifies for this auth mode; its
//! use here is not a security claim.
use vstd::prelude::*;

use crate::primitives::{concat_map, lemma_concat_map_take_snoc, try_from_utf8};
use vstd::utf8::{encode_utf8, partial_valid_utf8, valid_utf8};

verus! {

/// The lowercase ASCII hex digit for a value below 16.
pub open spec fn hex_digit(v: u8) -> u8
    recommends
        v < 16,
{
    if v < 10 {
        (48 + v) as u8
    } else {
        (87 + v) as u8
    }
}

/// The lowercase ASCII hex encoding of a byte run: two digits per byte,
/// high nibble first.
pub open spec fn hex_ascii(b: Seq<u8>) -> Seq<u8> {
    concat_map(b, |x: u8| seq![hex_digit(x / 16), hex_digit(x % 16)])
}

/// The 16-byte MD5 digest of a byte run, as the `md5` crate computes it.
pub uninterp spec fn md5_of(data: Seq<u8>) -> Seq<u8>;

/// Relies on `md5::compute`: the digest depends on the input bytes alone
/// and is always 16 bytes long.
#[verifier::external_body]
fn md5_digest(data: &Vec<u8>) -> (r: Vec<u8>)
    ensures
        r@ == md5_of(data@),
        r@.len() == 16,
{
    md5::compute(data.as_slice()).0.to_vec()
}

/// The bytes of the password response token for the MD5 auth mode:
/// the ASCII prefix `md5` followed by the hex outer digest.
pub open spec fn md5_hash_token(username: Seq<u8>, password: Seq<u8>, salt: Seq<u8>) -> Seq<u8> {
    seq![109u8, 100u8, 53u8] + hex_ascii(md5_of(hex_ascii(md5_of(password + username)) + salt))
}

/// Every hex digit is ASCII.
proof fn lemma_hex_digit_ascii(v: u8)
    ensures
        hex_digit(v / 16) < 0x80,
        hex_digit(v % 16) < 0x80,
{
}

/// Every byte of a hex encoding is ASCII.
proof fn lemma_hex_ascii_bytes(b: Seq<u8>)
    ensures
        hex_ascii(b).len() == 2 * b.len(),
        forall|i: int| 0 <= i < hex_ascii(b).len() ==> hex_ascii(b)[i] < 0x80,
    decreases b.len(),
{
    if b.len() == 0 {
    } else {
        lemma_hex_digit_ascii(b[0]);
        lemma_hex_ascii_bytes(b.drop_first());
        assert forall|i: int| 0 <= i < hex_ascii(b).len() implies hex_ascii(b)[i] < 0x80 by {
            if i >= 2 {
                assert(hex_ascii(b)[i] == hex_ascii(b.drop_first())[i - 2]);
            }
        }
    }
}

/// A run of ASCII bytes is valid UTF-8.
proof fn lemma_ascii_valid_utf8(b: Seq<u8>)
    requires
        forall|i: int| 0 <= i < b.len() ==> b[i] < 0x80,
    ensures
        valid_utf8(b),
{
    assert(b.subrange(0, 0) =~= Seq::<u8>::empty());
    assert(partial_valid_utf8(b, 0));
    assert forall|i: int|
        0 <= 0 <= i < b.len() <= b.len() implies #[trigger] vstd::utf8::is_leading_byte_width_1(
        b[i],
    ) by {
        assert(b[i] < 0x80);
    }
    vstd::utf8::partial_valid_utf8_extend_ascii_block(b, 0, b.len() as int);
    assert(b.subrange(0, b.len() as int) =~= b);
}

/// Appends the lowercase hex encoding of each byte of `b`.
fn to_hex(b: &[u8]) -> (r: Vec<u8>)
    ensures
        r@ == hex_ascii(b@),
{
    let mut out: Vec<u8> = Vec::new();
    let n = b.len();
    let mut i: usize = 0;
    while i < n
        invariant
            i <= n,
            n == b@.len(),
            out@ == hex_ascii(b@.take(i as int)),
        decreases n - i,
    {
        let x = b[i];
        let hi = x / 16;
        let lo = x % 16;
        out.push(if hi < 10 {
            48 + hi
        } else {
            87 + hi
        });
        out.push(if lo < 10 {
            48 + lo
        } else {
            87 + lo
        });
        proof {
            lemma_concat_map_take_snoc(
                b@,
                |x: u8| seq![hex_digit(x / 16), hex_digit(x % 16)],
                i as int,
            );
            assert(out@ =~= hex_ascii(b@.take(i + 1)));
        }
        i += 1;
    }
    proof {
        assert(b@.take(n as int) =~= b@);
    }
    out
}

/// Hashes authentication information in a way suitable for use in
/// response to an `AuthenticationMd5Password` message: the returned
/// token's UTF-8 bytes are exactly [`md5_hash_token`] of the inputs.
pub fn md5_hash(username: &[u8], password: &[u8], salt: [u8; 4]) -> (r: String)
    ensures
        encode_utf8(r@) == md5_hash_token(username@, password@, salt@),
{
    let mut data: Vec<u8> = Vec::new();
    data.extend_from_slice(password);
    data.extend_from_slice(username);
    proof {
        assert(data@ =~= password@ + username@);
    }
    let inner = md5_digest(&data);
    let mut outer_input = to_hex(inner.as_slice());
    outer_input.push(salt[0]);
    outer_input.push(salt[1]);
    outer_input.push(salt[2]);
    outer_input.push(salt[3]);
    proof {
        assert(outer_input@ =~= hex_ascii(md5_of(password@ + username@)) + salt@);
    }
    let outer = md5_digest(&outer_input);
    let hex_outer = to_hex(outer.as_slice());
    let mut token: Vec<u8> = Vec::new();
    token.push(109);
    token.push(100);
    token.push(53);
    token.extend_from_slice(hex_outer.as_slice());
    proof {
        assert(token@ =~= md5_hash_token(username@, password@, salt@));
        lemma_hex_ascii_bytes(outer@);
        assert forall|i: int| 0 <= i < token@.len() implies token@[i] < 0x80 by {
            if i >= 3 {
                assert(token@[i] == hex_ascii(outer@)[i - 3]);
            }
        }
        lemma_ascii_valid_utf8(token@);
    }
    match try_from_utf8(token.as_slice()) {
        Some(s) => s.to_owned(),
        None => {
            proof {
                assert(false);
            }
            String::new()
        },
    }
}

} // verus!
