//! The primitive wire codec: big-endian integers, c-strings, and
//! length-counted byte runs, together with their byte-level specifications.
//!
//! Every multi-byte integer on the wire is big-endian. Signed integers
//! travel as the big-endian bytes of their two's-complement bit pattern.
use vstd::prelude::*;

use crate::error::PgError;

verus! {

broadcast use vstd::utf8::group_utf8_lib;

// ===== Big-endian byte encodings, at the specification level =====

/// The two big-endian bytes of a `u16`.
pub open spec fn be_u16(v: u16) -> Seq<u8> {
    seq![(v >> 8) as u8, v as u8]
}

/// The `u16` encoded by two big-endian bytes.
pub open spec fn be_u16_val(b: Seq<u8>) -> u16
    recommends
        b.len() == 2,
{
    (((b[0] as u16) << 8) | (b[1] as u16))
}

/// The four big-endian bytes of a `u32`.
pub open spec fn be_u32(v: u32) -> Seq<u8> {
    seq![(v >> 24) as u8, (v >> 16) as u8, (v >> 8) as u8, v as u8]
}

/// The `u32` encoded by four big-endian bytes.
pub open spec fn be_u32_val(b: Seq<u8>) -> u32
    recommends
        b.len() == 4,
{
    (((b[0] as u32) << 24) | ((b[1] as u32) << 16) | ((b[2] as u32) << 8) | (b[3] as u32))
}

/// The eight big-endian bytes of a `u64`.
pub open spec fn be_u64(v: u64) -> Seq<u8> {
    seq![
        (v >> 56) as u8,
        (v >> 48) as u8,
        (v >> 40) as u8,
        (v >> 32) as u8,
        (v >> 24) as u8,
        (v >> 16) as u8,
        (v >> 8) as u8,
        v as u8,
    ]
}

/// The `u64` encoded by eight big-endian bytes.
pub open spec fn be_u64_val(b: Seq<u8>) -> u64
    recommends
        b.len() == 8,
{
    (((b[0] as u64) << 56) | ((b[1] as u64) << 48) | ((b[2] as u64) << 40) | ((b[3] as u64) << 32)
        | ((b[4] as u64) << 24) | ((b[5] as u64) << 16) | ((b[6] as u64) << 8) | (b[7] as u64))
}

/// The wire bytes of an `i16`: the big-endian bytes of its bit pattern.
pub open spec fn be_i16(v: i16) -> Seq<u8> {
    be_u16(v as u16)
}

/// The `i16` encoded by two big-endian bytes.
pub open spec fn be_i16_val(b: Seq<u8>) -> i16
    recommends
        b.len() == 2,
{
    be_u16_val(b) as i16
}

/// The wire bytes of an `i32`: the big-endian bytes of its bit pattern.
pub open spec fn be_i32(v: i32) -> Seq<u8> {
    be_u32(v as u32)
}

/// The `i32` encoded by four big-endian bytes.
pub open spec fn be_i32_val(b: Seq<u8>) -> i32
    recommends
        b.len() == 4,
{
    be_u32_val(b) as i32
}

/// The wire bytes of an `i64`: the big-endian bytes of its bit pattern.
pub open spec fn be_i64(v: i64) -> Seq<u8> {
    be_u64(v as u64)
}

/// The `i64` encoded by eight big-endian bytes.
pub open spec fn be_i64_val(b: Seq<u8>) -> i64
    recommends
        b.len() == 8,
{
    be_u64_val(b) as i64
}

// ===== Round-trip lemmas =====

/// Decoding the big-endian bytes of a `u16` yields the value back.
pub broadcast proof fn lemma_be_u16_round(v: u16)
    ensures
        be_u16_val(#[trigger] be_u16(v)) == v,
{
    assert(((((v >> 8) as u8) as u16) << 8 | ((v as u8) as u16)) == v) by (bit_vector);
}

/// Decoding the big-endian bytes of a `u32` yields the value back.
pub broadcast proof fn lemma_be_u32_round(v: u32)
    ensures
        be_u32_val(#[trigger] be_u32(v)) == v,
{
    assert(((((v >> 24) as u8) as u32) << 24 | (((v >> 16) as u8) as u32) << 16 | (((v
        >> 8) as u8) as u32) << 8 | ((v as u8) as u32)) == v) by (bit_vector);
}

/// Decoding the big-endian bytes of a `u64` yields the value back.
pub broadcast proof fn lemma_be_u64_round(v: u64)
    ensures
        be_u64_val(#[trigger] be_u64(v)) == v,
{
    assert(((((v >> 56) as u8) as u64) << 56 | (((v >> 48) as u8) as u64) << 48 | (((v
        >> 40) as u8) as u64) << 40 | (((v >> 32) as u8) as u64) << 32 | (((v
        >> 24) as u8) as u64) << 24 | (((v >> 16) as u8) as u64) << 16 | (((v
        >> 8) as u8) as u64) << 8 | ((v as u8) as u64)) == v) by (bit_vector);
}

/// Decoding the wire bytes of an `i16` yields the value back.
pub broadcast proof fn lemma_be_i16_round(v: i16)
    ensures
        be_i16_val(#[trigger] be_i16(v)) == v,
{
    lemma_be_u16_round(v as u16);
    assert(((v as u16) as i16) == v) by (bit_vector);
}

/// Decoding the wire bytes of an `i32` yields the value back.
pub broadcast proof fn lemma_be_i32_round(v: i32)
    ensures
        be_i32_val(#[trigger] be_i32(v)) == v,
{
    lemma_be_u32_round(v as u32);
    assert(((v as u32) as i32) == v) by (bit_vector);
}

/// Decoding the wire bytes of an `i64` yields the value back.
pub broadcast proof fn lemma_be_i64_round(v: i64)
    ensures
        be_i64_val(#[trigger] be_i64(v)) == v,
{
    lemma_be_u64_round(v as u64);
    assert(((v as u64) as i64) == v) by (bit_vector);
}

// ===== Executable writers =====

/// Appends the two big-endian bytes of a `u16`.
pub fn write_u16_be(v: u16, buf: &mut Vec<u8>)
    ensures
        final(buf)@ == old(buf)@ + be_u16(v),
{
    assert(v >> 8 <= 0xff) by (bit_vector);
    buf.push((v >> 8) as u8);
    buf.push(#[verifier::truncate] (v as u8));
    assert(buf@ =~= old(buf)@ + be_u16(v));
}

/// Appends the four big-endian bytes of a `u32`.
pub fn write_u32_be(v: u32, buf: &mut Vec<u8>)
    ensures
        final(buf)@ == old(buf)@ + be_u32(v),
{
    assert(v >> 24 <= 0xff && v >> 16 & 0xff <= 0xff) by (bit_vector);
    buf.push((v >> 24) as u8);
    buf.push(#[verifier::truncate] ((v >> 16) as u8));
    buf.push(#[verifier::truncate] ((v >> 8) as u8));
    buf.push(#[verifier::truncate] (v as u8));
    assert(buf@ =~= old(buf)@ + be_u32(v));
}

/// Appends the eight big-endian bytes of a `u64`.
pub fn write_u64_be(v: u64, buf: &mut Vec<u8>)
    ensures
        final(buf)@ == old(buf)@ + be_u64(v),
{
    assert(v >> 56 <= 0xff) by (bit_vector);
    buf.push((v >> 56) as u8);
    buf.push(#[verifier::truncate] ((v >> 48) as u8));
    buf.push(#[verifier::truncate] ((v >> 40) as u8));
    buf.push(#[verifier::truncate] ((v >> 32) as u8));
    buf.push(#[verifier::truncate] ((v >> 24) as u8));
    buf.push(#[verifier::truncate] ((v >> 16) as u8));
    buf.push(#[verifier::truncate] ((v >> 8) as u8));
    buf.push(#[verifier::truncate] (v as u8));
    assert(buf@ =~= old(buf)@ + be_u64(v));
}

/// Appends the two wire bytes of an `i16`.
pub fn write_i16_be(v: i16, buf: &mut Vec<u8>)
    ensures
        final(buf)@ == old(buf)@ + be_i16(v),
{
    write_u16_be(#[verifier::truncate] (v as u16), buf);
}

/// Appends the four wire bytes of an `i32`.
pub fn write_i32_be(v: i32, buf: &mut Vec<u8>)
    ensures
        final(buf)@ == old(buf)@ + be_i32(v),
{
    write_u32_be(#[verifier::truncate] (v as u32), buf);
}

/// Appends the eight wire bytes of an `i64`.
pub fn write_i64_be(v: i64, buf: &mut Vec<u8>)
    ensures
        final(buf)@ == old(buf)@ + be_i64(v),
{
    write_u64_be(#[verifier::truncate] (v as u64), buf);
}

// ===== Executable readers =====

/// Reads the big-endian `u16` at `off`.
pub fn read_u16_be(b: &[u8], off: usize) -> (r: u16)
    requires
        off + 2 <= b@.len(),
    ensures
        r == be_u16_val(b@.subrange(off as int, off as int + 2)),
{
    let hi = b[off];
    let lo = b[off + 1];
    let r = ((hi as u16) << 8) | (lo as u16);
    proof {
        let s = b@.subrange(off as int, off as int + 2);
        assert(s[0] == hi && s[1] == lo);
    }
    r
}

/// Reads the big-endian `u32` at `off`.
pub fn read_u32_be(b: &[u8], off: usize) -> (r: u32)
    requires
        off + 4 <= b@.len(),
    ensures
        r == be_u32_val(b@.subrange(off as int, off as int + 4)),
{
    let b0 = b[off];
    let b1 = b[off + 1];
    let b2 = b[off + 2];
    let b3 = b[off + 3];
    let r = ((b0 as u32) << 24) | ((b1 as u32) << 16) | ((b2 as u32) << 8) | (b3 as u32);
    proof {
        let s = b@.subrange(off as int, off as int + 4);
        assert(s[0] == b0 && s[1] == b1 && s[2] == b2 && s[3] == b3);
    }
    r
}

/// Reads the big-endian `u64` at `off`.
pub fn read_u64_be(b: &[u8], off: usize) -> (r: u64)
    requires
        off + 8 <= b@.len(),
    ensures
        r == be_u64_val(b@.subrange(off as int, off as int + 8)),
{
    let b0 = b[off];
    let b1 = b[off + 1];
    let b2 = b[off + 2];
    let b3 = b[off + 3];
    let b4 = b[off + 4];
    let b5 = b[off + 5];
    let b6 = b[off + 6];
    let b7 = b[off + 7];
    let r = ((b0 as u64) << 56) | ((b1 as u64) << 48) | ((b2 as u64) << 40) | ((b3 as u64) << 32)
        | ((b4 as u64) << 24) | ((b5 as u64) << 16) | ((b6 as u64) << 8) | (b7 as u64);
    proof {
        let s = b@.subrange(off as int, off as int + 8);
        assert(s[0] == b0 && s[1] == b1 && s[2] == b2 && s[3] == b3);
        assert(s[4] == b4 && s[5] == b5 && s[6] == b6 && s[7] == b7);
    }
    r
}

/// Reads the wire `i16` at `off`.
pub fn read_i16_be(b: &[u8], off: usize) -> (r: i16)
    requires
        off + 2 <= b@.len(),
    ensures
        r == be_i16_val(b@.subrange(off as int, off as int + 2)),
{
    let v = read_u16_be(b, off);
    #[verifier::truncate] (v as i16)
}

/// Reads the wire `i32` at `off`.
pub fn read_i32_be(b: &[u8], off: usize) -> (r: i32)
    requires
        off + 4 <= b@.len(),
    ensures
        r == be_i32_val(b@.subrange(off as int, off as int + 4)),
{
    let v = read_u32_be(b, off);
    #[verifier::truncate] (v as i32)
}

/// Reads the wire `i64` at `off`.
pub fn read_i64_be(b: &[u8], off: usize) -> (r: i64)
    requires
        off + 8 <= b@.len(),
    ensures
        r == be_i64_val(b@.subrange(off as int, off as int + 8)),
{
    let v = read_u64_be(b, off);
    #[verifier::truncate] (v as i64)
}

// ===== C-strings =====

/// The position of the first zero byte, if any.
pub open spec fn nul_pos(b: Seq<u8>) -> Option<int>
    decreases b.len(),
{
    if b.len() == 0 {
        None
    } else if b[0] == 0 {
        Some(0int)
    } else {
        match nul_pos(b.drop_first()) {
            Some(i) => Some(i + 1),
            None => None,
        }
    }
}

/// `nul_pos` finds exactly the first zero byte: before it every byte is
/// nonzero, and when it reports none, no byte is zero.
pub proof fn lemma_nul_pos(b: Seq<u8>)
    ensures
        match nul_pos(b) {
            Some(i) => 0 <= i < b.len() && b[i] == 0 && (forall|j: int| 0 <= j < i ==> b[j] != 0),
            None => forall|j: int| 0 <= j < b.len() ==> b[j] != 0,
        },
    decreases b.len(),
{
    if b.len() == 0 {
    } else if b[0] == 0 {
    } else {
        lemma_nul_pos(b.drop_first());
        assert forall|j: int| 0 <= j < b.len() && nul_pos(b) is None implies b[j] != 0 by {
            if j > 0 {
                assert(b.drop_first()[j - 1] == b[j]);
            }
        }
        if nul_pos(b) is Some {
            let i = nul_pos(b.drop_first())->Some_0;
            assert forall|j: int| 0 <= j < i + 1 implies b[j] != 0 by {
                if j > 0 {
                    assert(b.drop_first()[j - 1] == b[j]);
                }
            }
        }
    }
}

/// A zero byte whose predecessors are all nonzero is where `nul_pos` points.
pub proof fn lemma_nul_pos_of(b: Seq<u8>, i: int)
    requires
        0 <= i < b.len(),
        b[i] == 0,
        forall|j: int| 0 <= j < i ==> b[j] != 0,
    ensures
        nul_pos(b) == Some(i),
{
    lemma_nul_pos(b);
    match nul_pos(b) {
        Some(k) => {
            if k < i {
                assert(b[k] != 0);
            }
            if i < k {
                assert(b[i] != 0);
            }
        },
        None => {
            assert(b[i] != 0);
        },
    }
}

/// The wire form of a c-string with the given UTF-8 payload.
pub open spec fn cstr_bytes(payload: Seq<u8>) -> Seq<u8> {
    payload + seq![0u8]
}

/// Relies on `core::str::from_utf8`: it succeeds exactly on UTF-8 input,
/// and the resulting string view is the decoding of the given bytes.
#[verifier::external_body]
pub fn try_from_utf8(b: &[u8]) -> (r: Option<&str>)
    ensures
        r is Some <==> vstd::utf8::valid_utf8(b@),
        r matches Some(s) ==> vstd::utf8::encode_utf8(s@) == b@ && s@ == vstd::utf8::decode_utf8(
            b@,
        ),
{
    core::str::from_utf8(b).ok()
}

/// Reads the c-string that starts at `off`: bytes up to and including the
/// first zero, whose payload must decode as UTF-8. On success the returned
/// offset is just past the terminator.
pub fn read_cstr<'a>(b: &'a [u8], off: usize) -> (r: Result<(&'a str, usize), PgError>)
    requires
        off <= b@.len(),
    ensures
        ({
            let tail = b@.subrange(off as int, b@.len() as int);
            match nul_pos(tail) {
                None => r matches Err(e) && e == PgError::UnexpectedEof,
                Some(i) => {
                    if vstd::utf8::valid_utf8(tail.subrange(0, i)) {
                        &&& r matches Ok((s, end))
                        &&& vstd::utf8::encode_utf8(s@) == tail.subrange(0, i)
                        &&& s@ == vstd::utf8::decode_utf8(tail.subrange(0, i))
                        &&& end == off + i + 1
                    } else {
                        r matches Err(e) && e == PgError::InvalidUtf8
                    }
                },
            }
        }),
{
    let ghost tail = b@.subrange(off as int, b@.len() as int);
    let len = b.len();
    let mut i = off;
    while i < len && b[i] != 0
        invariant
            off <= i <= len,
            len == b@.len(),
            forall|j: int| off <= j < i ==> b@[j] != 0,
        decreases len - i,
    {
        i += 1;
    }
    if i == len {
        proof {
            lemma_nul_pos(tail);
            if nul_pos(tail) is Some {
                let k = nul_pos(tail)->Some_0;
                assert(tail[k] == b@[off + k]);
            }
        }
        return Err(PgError::UnexpectedEof);
    }
    proof {
        assert(tail[i - off] == b@[i as int]);
        assert forall|j: int| 0 <= j < i - off implies tail[j] != 0 by {
            assert(tail[j] == b@[off + j]);
        }
        lemma_nul_pos_of(tail, i - off);
    }
    let content = &b[off..i];
    proof {
        assert(content@ =~= tail.subrange(0, i - off));
    }
    match try_from_utf8(content) {
        Some(s) => Ok((s, i + 1)),
        None => Err(PgError::InvalidUtf8),
    }
}

/// Appends the bytes of `s` followed by a zero terminator; fails with
/// `EmbeddedNul`, leaving the buffer unchanged, exactly when `s` holds an
/// interior zero byte.
pub fn write_cstr(s: &str, buf: &mut Vec<u8>) -> (r: Result<(), PgError>)
    ensures
        match r {
            Ok(()) => !vstd::utf8::encode_utf8(s@).contains(0u8) && final(buf)@ == old(buf)@
                + cstr_bytes(vstd::utf8::encode_utf8(s@)),
            Err(e) => e == PgError::EmbeddedNul && vstd::utf8::encode_utf8(s@).contains(0u8)
                && final(buf)@ == old(buf)@,
        },
{
    let bytes = s.as_bytes();
    let n = bytes.len();
    let mut i: usize = 0;
    while i < n
        invariant
            i <= n,
            n == bytes@.len(),
            bytes@ == vstd::utf8::encode_utf8(s@),
            forall|j: int| 0 <= j < i ==> bytes@[j] != 0,
        decreases n - i,
    {
        if bytes[i] == 0 {
            return Err(PgError::EmbeddedNul);
        }
        i += 1;
    }
    proof {
        if vstd::utf8::encode_utf8(s@).contains(0u8) {
            let j = choose|j: int|
                0 <= j < bytes@.len() && bytes@[j] == 0;
            assert(bytes@[j] != 0);
        }
    }
    buf.extend_from_slice(bytes);
    buf.push(0);
    assert(buf@ =~= old(buf)@ + cstr_bytes(vstd::utf8::encode_utf8(s@)));
    Ok(())
}

// ===== Length-counted byte runs =====

/// The wire form of a length-prefixed ("pascal") byte run.
pub open spec fn pascal_bytes(payload: Seq<u8>) -> Seq<u8>
    recommends
        payload.len() <= 0x7fffffff,
{
    be_u32(payload.len() as u32) + payload
}

/// The wire form of a nullable length-prefixed value: SQL NULL travels as
/// the length -1 with no payload.
pub open spec fn nullable_bytes(v: Option<Seq<u8>>) -> Seq<u8> {
    match v {
        Some(p) => pascal_bytes(p),
        None => be_i32(-1i32),
    }
}

/// Appends a length-prefixed byte run; fails with `ValueTooLarge`, leaving
/// the buffer unchanged, exactly when the length exceeds the wire width.
pub fn write_pascal_string(s: &str, buf: &mut Vec<u8>) -> (r: Result<(), PgError>)
    ensures
        match r {
            Ok(()) => vstd::utf8::encode_utf8(s@).len() <= 0x7fffffff && final(buf)@ == old(buf)@
                + pascal_bytes(vstd::utf8::encode_utf8(s@)),
            Err(e) => e == PgError::ValueTooLarge && vstd::utf8::encode_utf8(s@).len() > 0x7fffffff
                && final(buf)@ == old(buf)@,
        },
{
    let bytes = s.as_bytes();
    if bytes.len() > 0x7fff_ffff {
        return Err(PgError::ValueTooLarge);
    }
    write_u32_be(bytes.len() as u32, buf);
    buf.extend_from_slice(bytes);
    assert(buf@ =~= old(buf)@ + pascal_bytes(vstd::utf8::encode_utf8(s@)));
    Ok(())
}

/// Appends a nullable length-prefixed value; fails with `ValueTooLarge`,
/// leaving the buffer unchanged, exactly when a present payload exceeds the
/// wire width.
pub fn write_nullable_bytes(v: Option<&Vec<u8>>, buf: &mut Vec<u8>) -> (r: Result<(), PgError>)
    ensures
        match r {
            Ok(()) => match v {
                Some(p) => p@.len() <= 0x7fffffff && final(buf)@ == old(buf)@ + nullable_bytes(
                    Some(p@),
                ),
                None => final(buf)@ == old(buf)@ + nullable_bytes(None),
            },
            Err(e) => e == PgError::ValueTooLarge && (v matches Some(p) && p@.len() > 0x7fffffff)
                && final(buf)@ == old(buf)@,
        },
{
    match v {
        Some(p) => {
            if p.len() > 0x7fff_ffff {
                return Err(PgError::ValueTooLarge);
            }
            write_u32_be(p.len() as u32, buf);
            buf.extend_from_slice(p.as_slice());
            assert(buf@ =~= old(buf)@ + nullable_bytes(Some(p@)));
            Ok(())
        },
        None => {
            write_i32_be(-1, buf);
            Ok(())
        },
    }
}

// ===== Width-checked conversions =====

/// Converts a length to `i16`, failing with `ValueTooLarge` when it would
/// not fit.
pub(crate) fn i16_from_usize(x: usize) -> (r: Result<i16, PgError>)
    ensures
        match r {
            Ok(v) => x <= 0x7fff && v == x as i16,
            Err(e) => e == PgError::ValueTooLarge && x > 0x7fff,
        },
{
    if x > 0x7fff {
        Err(PgError::ValueTooLarge)
    } else {
        Ok(x as i16)
    }
}

/// Converts a length to `i32`, failing with `ValueTooLarge` when it would
/// not fit.
pub(crate) fn i32_from_usize(x: usize) -> (r: Result<i32, PgError>)
    ensures
        match r {
            Ok(v) => x <= 0x7fffffff && v == x as i32,
            Err(e) => e == PgError::ValueTooLarge && x > 0x7fffffff,
        },
{
    if x > 0x7fff_ffff {
        Err(PgError::ValueTooLarge)
    } else {
        Ok(x as i32)
    }
}

// ===== Concatenated encodings of repeated substructures =====

/// The concatenation of the encodings of the items of `s`.
pub open spec fn concat_map<T>(s: Seq<T>, f: spec_fn(T) -> Seq<u8>) -> Seq<u8>
    decreases s.len(),
{
    if s.len() == 0 {
        Seq::empty()
    } else {
        f(s[0]) + concat_map(s.drop_first(), f)
    }
}

/// Concatenated encodings distribute over sequence concatenation.
pub proof fn lemma_concat_map_append<T>(s1: Seq<T>, s2: Seq<T>, f: spec_fn(T) -> Seq<u8>)
    ensures
        concat_map(s1 + s2, f) == concat_map(s1, f) + concat_map(s2, f),
    decreases s1.len(),
{
    if s1.len() == 0 {
        assert(s1 + s2 =~= s2);
        assert(concat_map(s1, f) + concat_map(s2, f) =~= concat_map(s2, f));
    } else {
        assert((s1 + s2).drop_first() =~= s1.drop_first() + s2);
        lemma_concat_map_append(s1.drop_first(), s2, f);
        assert(concat_map(s1 + s2, f) =~= concat_map(s1, f) + concat_map(s2, f));
    }
}

/// Extending a prefix by one item appends that item's encoding.
pub proof fn lemma_concat_map_take_snoc<T>(s: Seq<T>, f: spec_fn(T) -> Seq<u8>, i: int)
    requires
        0 <= i < s.len(),
    ensures
        concat_map(s.take(i + 1), f) == concat_map(s.take(i), f) + f(s[i]),
{
    assert(s.take(i + 1) =~= s.take(i) + seq![s[i]]);
    lemma_concat_map_append(s.take(i), seq![s[i]], f);
    assert(seq![s[i]].drop_first() =~= Seq::<T>::empty());
    assert(concat_map(seq![s[i]], f) == f(s[i]) + concat_map(Seq::<T>::empty(), f));
    assert(concat_map(seq![s[i]], f) =~= f(s[i]));
}

// ===== Steps of length-counted value cursors =====

/// One step of a cursor over length-prefixed, possibly-NULL values.
pub enum ValueStep {
    /// The declared count is exhausted and no bytes trail.
    Done,
    /// The cursor must report an error.
    Fail(PgError),
    /// One value (`None` for SQL NULL) and the bytes that follow it.
    Item { value: Option<Seq<u8>>, rest: Seq<u8> },
}

/// The step a value cursor takes with `remaining` declared values and the
/// bytes `b` ahead of it: at count zero any trailing bytes are an error;
/// otherwise a signed length of -1 yields NULL, and a non-negative length
/// yields that many bytes.
pub open spec fn nullable_value_step(remaining: int, b: Seq<u8>) -> ValueStep {
    if remaining == 0 {
        if b.len() == 0 {
            ValueStep::Done
        } else {
            ValueStep::Fail(PgError::InvalidMessageLength)
        }
    } else if b.len() < 4 {
        ValueStep::Fail(PgError::UnexpectedEof)
    } else {
        let l = be_i32_val(b.subrange(0, 4));
        if l < 0 {
            ValueStep::Item { value: None, rest: b.subrange(4, b.len() as int) }
        } else if b.len() - 4 < l {
            ValueStep::Fail(PgError::UnexpectedEof)
        } else {
            ValueStep::Item {
                value: Some(b.subrange(4, 4 + l)),
                rest: b.subrange(4 + l, b.len() as int),
            }
        }
    }
}

/// The values a cursor yields from `remaining` declared values over `b`,
/// when every step succeeds through the terminal `Done`.
pub open spec fn collect_values(remaining: nat, b: Seq<u8>) -> Option<Seq<Option<Seq<u8>>>>
    decreases remaining,
{
    match nullable_value_step(remaining as int, b) {
        ValueStep::Done => Some(Seq::empty()),
        ValueStep::Fail(_) => None,
        ValueStep::Item { value, rest } => {
            if remaining == 0 {
                None
            } else {
                match collect_values((remaining - 1) as nat, rest) {
                    Some(s) => Some(seq![value] + s),
                    None => None,
                }
            }
        },
    }
}

// ===== Framing =====

/// The frame of a message body: a big-endian length counting itself plus
/// the body, followed by the body.
pub open spec fn frame_bytes(body: Seq<u8>) -> Seq<u8>
    recommends
        body.len() + 4 <= 0x7fffffff,
{
    be_u32((body.len() + 4) as u32) + body
}

/// The frame of a tagged message: the tag byte, then the framed body.
pub open spec fn framed(tag: u8, body: Seq<u8>) -> Seq<u8>
    recommends
        body.len() + 4 <= 0x7fffffff,
{
    seq![tag] + frame_bytes(body)
}

/// Whether a message body fits the signed 32-bit wire length field.
pub open spec fn frame_fits(body: Seq<u8>) -> bool {
    body.len() + 4 <= 0x7fffffff
}

/// Backpatches the 4-byte length placeholder at `base` with the byte count
/// from `base` to the end of the buffer; fails with `ValueTooLarge`, leaving
/// the buffer unchanged, when that count exceeds the wire width.
pub(crate) fn finish_frame(buf: &mut Vec<u8>, base: usize) -> (r: Result<(), PgError>)
    requires
        base + 4 <= old(buf)@.len(),
    ensures
        match r {
            Ok(()) => old(buf)@.len() - base <= 0x7fffffff && final(buf)@ == old(buf)@.subrange(
                0,
                base as int,
            ) + be_u32((old(buf)@.len() - base) as u32) + old(buf)@.subrange(
                base as int + 4,
                old(buf)@.len() as int,
            ),
            Err(e) => e == PgError::ValueTooLarge && old(buf)@.len() - base > 0x7fffffff
                && final(buf)@ == old(buf)@,
        },
{
    let n = buf.len() - base;
    if n > 0x7fff_ffff {
        return Err(PgError::ValueTooLarge);
    }
    let v = n as u32;
    assert(v >> 24 <= 0xff) by (bit_vector);
    buf.set(base, (v >> 24) as u8);
    buf.set(base + 1, #[verifier::truncate] ((v >> 16) as u8));
    buf.set(base + 2, #[verifier::truncate] ((v >> 8) as u8));
    buf.set(base + 3, #[verifier::truncate] (v as u8));
    assert(buf@ =~= old(buf)@.subrange(0, base as int) + be_u32(v) + old(buf)@.subrange(
        base as int + 4,
        old(buf)@.len() as int,
    ));
    Ok(())
}

} // verus!
