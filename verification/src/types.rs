//! The binary value codec: one serializer and one deserializer per common
//! column type, together with the hstore, varbit, and array views.
//!
//! Serializers append a value's wire bytes to a caller-owned buffer.
//! Deserializers read a value back out of exactly the payload slice that a
//! data row handed over; a buffer of the wrong shape is rejected with a
//! recoverable error.
use vstd::prelude::*;

use crate::Oid;
use crate::error::PgError;
use crate::primitives::{
    be_i16, be_i16_val, be_i32, be_i32_val, be_i64, be_i64_val, be_u32, be_u32_val, concat_map,
    nullable_value_step, pascal_bytes, read_i16_be, read_i32_be, read_i64_be, read_u32_be,
    write_i16_be, write_i32_be, write_i64_be, write_u32_be,
};
pub use crate::IsNull;
use vstd::utf8::{decode_utf8, encode_utf8, valid_utf8};

verus! {

broadcast use vstd::utf8::group_utf8_lib;

// ===== BOOL =====

/// The wire byte of a `BOOL` value.
pub open spec fn spec_bool_to_sql(v: bool) -> Seq<u8> {
    seq![if v { 1u8 } else { 0u8 }]
}

/// Serializes a `BOOL` value.
pub fn bool_to_sql(v: bool, buf: &mut Vec<u8>)
    ensures
        final(buf)@ == old(buf)@ + spec_bool_to_sql(v),
{
    buf.push(if v { 1 } else { 0 });
    assert(buf@ =~= old(buf)@ + spec_bool_to_sql(v));
}

/// Deserializes a `BOOL` value: one byte, zero meaning false.
pub fn bool_from_sql(buf: &[u8]) -> (r: Result<bool, PgError>)
    ensures
        match r {
            Ok(v) => buf@.len() == 1 && v == (buf@[0] != 0),
            Err(e) => e == PgError::InvalidBufferSize && buf@.len() != 1,
        },
{
    if buf.len() != 1 {
        return Err(PgError::InvalidBufferSize);
    }
    Ok(buf[0] != 0)
}

// ===== BYTEA =====

/// Serializes a `BYTEA` value: an opaque passthrough.
pub fn bytea_to_sql(v: &[u8], buf: &mut Vec<u8>)
    ensures
        final(buf)@ == old(buf)@ + v@,
{
    buf.extend_from_slice(v);
}

/// Deserializes a `BYTEA` value: an opaque passthrough.
pub fn bytea_from_sql<'a>(buf: &'a [u8]) -> (r: &'a [u8])
    ensures
        r@ == buf@,
{
    buf
}

// ===== TEXT =====

/// Serializes a `TEXT`, `VARCHAR`, `CHAR(n)`, `NAME`, or `CITEXT` value.
pub fn text_to_sql(v: &str, buf: &mut Vec<u8>)
    ensures
        final(buf)@ == old(buf)@ + encode_utf8(v@),
{
    buf.extend_from_slice(v.as_bytes());
}

/// Deserializes a `TEXT`, `VARCHAR`, `CHAR(n)`, `NAME`, or `CITEXT` value,
/// validating that the payload is UTF-8.
pub fn text_from_sql<'a>(buf: &'a [u8]) -> (r: Result<&'a str, PgError>)
    ensures
        match r {
            Ok(s) => valid_utf8(buf@) && encode_utf8(s@) == buf@ && s@ == decode_utf8(buf@),
            Err(e) => e == PgError::InvalidUtf8 && !valid_utf8(buf@),
        },
{
    match crate::primitives::try_from_utf8(buf) {
        Some(s) => Ok(s),
        None => Err(PgError::InvalidUtf8),
    }
}

// ===== "char" =====

/// Serializes a `"char"` value: one signed byte.
pub fn char_to_sql(v: i8, buf: &mut Vec<u8>)
    ensures
        final(buf)@ == old(buf)@ + seq![v as u8],
{
    buf.push(#[verifier::truncate] (v as u8));
    assert(buf@ =~= old(buf)@ + seq![v as u8]);
}

/// Deserializes a `"char"` value: exactly one byte.
pub fn char_from_sql(buf: &[u8]) -> (r: Result<i8, PgError>)
    ensures
        match r {
            Ok(v) => buf@.len() == 1 && v == buf@[0] as i8,
            Err(e) => e == PgError::InvalidBufferSize && buf@.len() != 1,
        },
{
    if buf.len() != 1 {
        return Err(PgError::InvalidBufferSize);
    }
    Ok(#[verifier::truncate] (buf[0] as i8))
}

// ===== INT2 =====

/// Serializes an `INT2` value.
pub fn int2_to_sql(v: i16, buf: &mut Vec<u8>)
    ensures
        final(buf)@ == old(buf)@ + be_i16(v),
{
    write_i16_be(v, buf);
}

/// Deserializes an `INT2` value: exactly two big-endian bytes.
pub fn int2_from_sql(buf: &[u8]) -> (r: Result<i16, PgError>)
    ensures
        match r {
            Ok(v) => buf@.len() == 2 && v == be_i16_val(buf@),
            Err(e) => e == PgError::InvalidBufferSize && buf@.len() != 2,
        },
{
    if buf.len() != 2 {
        return Err(PgError::InvalidBufferSize);
    }
    let v = read_i16_be(buf, 0);
    proof {
        assert(buf@.subrange(0, 2) =~= buf@);
    }
    Ok(v)
}

// ===== INT4 =====

/// Serializes an `INT4` value.
pub fn int4_to_sql(v: i32, buf: &mut Vec<u8>)
    ensures
        final(buf)@ == old(buf)@ + be_i32(v),
{
    write_i32_be(v, buf);
}

/// Deserializes an `INT4` value: exactly four big-endian bytes.
pub fn int4_from_sql(buf: &[u8]) -> (r: Result<i32, PgError>)
    ensures
        match r {
            Ok(v) => buf@.len() == 4 && v == be_i32_val(buf@),
            Err(e) => e == PgError::InvalidBufferSize && buf@.len() != 4,
        },
{
    if buf.len() != 4 {
        return Err(PgError::InvalidBufferSize);
    }
    let v = read_i32_be(buf, 0);
    proof {
        assert(buf@.subrange(0, 4) =~= buf@);
    }
    Ok(v)
}

// ===== OID =====

/// Serializes an `OID` value.
pub fn oid_to_sql(v: Oid, buf: &mut Vec<u8>)
    ensures
        final(buf)@ == old(buf)@ + be_u32(v),
{
    write_u32_be(v, buf);
}

/// Deserializes an `OID` value: exactly four big-endian bytes.
pub fn oid_from_sql(buf: &[u8]) -> (r: Result<Oid, PgError>)
    ensures
        match r {
            Ok(v) => buf@.len() == 4 && v == be_u32_val(buf@),
            Err(e) => e == PgError::InvalidBufferSize && buf@.len() != 4,
        },
{
    if buf.len() != 4 {
        return Err(PgError::InvalidBufferSize);
    }
    let v = read_u32_be(buf, 0);
    proof {
        assert(buf@.subrange(0, 4) =~= buf@);
    }
    Ok(v)
}

// ===== INT8 =====

/// Serializes an `INT8` value.
pub fn int8_to_sql(v: i64, buf: &mut Vec<u8>)
    ensures
        final(buf)@ == old(buf)@ + be_i64(v),
{
    write_i64_be(v, buf);
}

/// Deserializes an `INT8` value: exactly eight big-endian bytes.
pub fn int8_from_sql(buf: &[u8]) -> (r: Result<i64, PgError>)
    ensures
        match r {
            Ok(v) => buf@.len() == 8 && v == be_i64_val(buf@),
            Err(e) => e == PgError::InvalidBufferSize && buf@.len() != 8,
        },
{
    if buf.len() != 8 {
        return Err(PgError::InvalidBufferSize);
    }
    let v = read_i64_be(buf, 0);
    proof {
        assert(buf@.subrange(0, 8) =~= buf@);
    }
    Ok(v)
}

// ===== TIMESTAMP / TIMESTAMPTZ =====

/// Serializes a `TIMESTAMP` or `TIMESTAMPTZ` value.
///
/// The value represents microseconds since midnight, January 1st, 2000 UTC.
pub fn timestamp_to_sql(v: i64, buf: &mut Vec<u8>)
    ensures
        final(buf)@ == old(buf)@ + be_i64(v),
{
    write_i64_be(v, buf);
}

/// Deserializes a `TIMESTAMP` or `TIMESTAMPTZ` value.
///
/// The value represents microseconds since midnight, January 1st, 2000 UTC.
pub fn timestamp_from_sql(buf: &[u8]) -> (r: Result<i64, PgError>)
    ensures
        match r {
            Ok(v) => buf@.len() == 8 && v == be_i64_val(buf@),
            Err(e) => e == PgError::InvalidMessageLength && buf@.len() != 8,
        },
{
    if buf.len() != 8 {
        return Err(PgError::InvalidMessageLength);
    }
    let v = read_i64_be(buf, 0);
    proof {
        assert(buf@.subrange(0, 8) =~= buf@);
    }
    Ok(v)
}

// ===== DATE =====

/// Serializes a `DATE` value: days since January 1st, 2000.
pub fn date_to_sql(v: i32, buf: &mut Vec<u8>)
    ensures
        final(buf)@ == old(buf)@ + be_i32(v),
{
    write_i32_be(v, buf);
}

/// Deserializes a `DATE` value: days since January 1st, 2000.
pub fn date_from_sql(buf: &[u8]) -> (r: Result<i32, PgError>)
    ensures
        match r {
            Ok(v) => buf@.len() == 4 && v == be_i32_val(buf@),
            Err(e) => e == PgError::InvalidMessageLength && buf@.len() != 4,
        },
{
    if buf.len() != 4 {
        return Err(PgError::InvalidMessageLength);
    }
    let v = read_i32_be(buf, 0);
    proof {
        assert(buf@.subrange(0, 4) =~= buf@);
    }
    Ok(v)
}

// ===== TIME / TIMETZ =====

/// Serializes a `TIME` or `TIMETZ` value: microseconds since midnight.
pub fn time_to_sql(v: i64, buf: &mut Vec<u8>)
    ensures
        final(buf)@ == old(buf)@ + be_i64(v),
{
    write_i64_be(v, buf);
}

/// Deserializes a `TIME` or `TIMETZ` value: microseconds since midnight.
pub fn time_from_sql(buf: &[u8]) -> (r: Result<i64, PgError>)
    ensures
        match r {
            Ok(v) => buf@.len() == 8 && v == be_i64_val(buf@),
            Err(e) => e == PgError::InvalidMessageLength && buf@.len() != 8,
        },
{
    if buf.len() != 8 {
        return Err(PgError::InvalidMessageLength);
    }
    let v = read_i64_be(buf, 0);
    proof {
        assert(buf@.subrange(0, 8) =~= buf@);
    }
    Ok(v)
}

// ===== MACADDR =====

/// Serializes a `MACADDR` value.
pub fn macaddr_to_sql(v: [u8; 6], buf: &mut Vec<u8>)
    ensures
        final(buf)@ == old(buf)@ + v@,
{
    buf.push(v[0]);
    buf.push(v[1]);
    buf.push(v[2]);
    buf.push(v[3]);
    buf.push(v[4]);
    buf.push(v[5]);
    assert(buf@ =~= old(buf)@ + v@);
}

/// Deserializes a `MACADDR` value: exactly six bytes.
pub fn macaddr_from_sql(buf: &[u8]) -> (r: Result<[u8; 6], PgError>)
    ensures
        match r {
            Ok(v) => buf@.len() == 6 && v@ == buf@,
            Err(e) => e == PgError::InvalidMessageLength && buf@.len() != 6,
        },
{
    if buf.len() != 6 {
        return Err(PgError::InvalidMessageLength);
    }
    let out = [buf[0], buf[1], buf[2], buf[3], buf[4], buf[5]];
    assert(out@ =~= buf@);
    Ok(out)
}

// ===== UUID =====

/// Serializes a `UUID` value.
pub fn uuid_to_sql(v: [u8; 16], buf: &mut Vec<u8>)
    ensures
        final(buf)@ == old(buf)@ + v@,
{
    let mut i: usize = 0;
    while i < 16
        invariant
            i <= 16,
            buf@ == old(buf)@ + v@.take(i as int),
        decreases 16 - i,
    {
        buf.push(v[i]);
        assert(buf@ =~= old(buf)@ + v@.take(i + 1));
        i += 1;
    }
    assert(buf@ =~= old(buf)@ + v@);
}

/// Deserializes a `UUID` value: exactly sixteen bytes.
pub fn uuid_from_sql(buf: &[u8]) -> (r: Result<[u8; 16], PgError>)
    ensures
        match r {
            Ok(v) => buf@.len() == 16 && v@ == buf@,
            Err(e) => e == PgError::InvalidMessageLength && buf@.len() != 16,
        },
{
    if buf.len() != 16 {
        return Err(PgError::InvalidMessageLength);
    }
    let out = [
        buf[0],
        buf[1],
        buf[2],
        buf[3],
        buf[4],
        buf[5],
        buf[6],
        buf[7],
        buf[8],
        buf[9],
        buf[10],
        buf[11],
        buf[12],
        buf[13],
        buf[14],
        buf[15],
    ];
    assert(out@ =~= buf@);
    Ok(out)
}

// ===== VARBIT =====

/// The wire form of a `VARBIT` value: a bit count, then its bytes.
pub open spec fn spec_varbit_to_sql(len: int, bytes: Seq<u8>) -> Seq<u8>
    recommends
        0 <= len <= 0x7fffffff,
{
    be_u32(len as u32) + bytes
}

/// Serializes a `VARBIT` value of `len` bits; fails with `ValueTooLarge`,
/// leaving the buffer unchanged, exactly when the bit count exceeds the
/// wire width.
pub fn varbit_to_sql(len: usize, v: &[u8], buf: &mut Vec<u8>) -> (r: Result<(), PgError>)
    ensures
        match r {
            Ok(()) => len <= 0x7fffffff && final(buf)@ == old(buf)@ + spec_varbit_to_sql(
                len as int,
                v@,
            ),
            Err(e) => e == PgError::ValueTooLarge && len > 0x7fffffff && final(buf)@ == old(buf)@,
        },
{
    if len > 0x7fff_ffff {
        return Err(PgError::ValueTooLarge);
    }
    write_u32_be(len as u32, buf);
    buf.extend_from_slice(v);
    assert(buf@ =~= old(buf)@ + spec_varbit_to_sql(len as int, v@));
    Ok(())
}

/// A `VARBIT` value: a bit count and the bytes that hold the bits.
pub struct Varbit<'a> {
    len: usize,
    bytes: &'a [u8],
}

impl<'a> Varbit<'a> {
    /// The number of bits.
    pub closed spec fn spec_len(&self) -> usize {
        self.len
    }

    /// The bytes holding the bits.
    pub closed spec fn spec_bytes(&self) -> Seq<u8> {
        self.bytes@
    }

    /// Returns the number of bits.
    pub fn len(&self) -> (r: usize)
        ensures
            r == self.spec_len(),
    {
        self.len
    }

    /// Returns the bits as a slice of bytes.
    pub fn bytes(&self) -> (r: &'a [u8])
        ensures
            r@ == self.spec_bytes(),
    {
        self.bytes
    }
}

/// Deserializes a `VARBIT` value: a non-negative bit count `L` followed by
/// exactly `ceil(L / 8)` bytes.
pub fn varbit_from_sql<'a>(buf: &'a [u8]) -> (r: Result<Varbit<'a>, PgError>)
    ensures
        ({
            if buf@.len() < 4 {
                r matches Err(e) && e == PgError::UnexpectedEof
            } else {
                let l = be_i32_val(buf@.subrange(0, 4));
                if l < 0 {
                    r matches Err(e) && e == PgError::InvalidBitLength
                } else if buf@.len() - 4 != (l + 7) / 8 {
                    r matches Err(e) && e == PgError::InvalidMessageLength
                } else {
                    r matches Ok(v) && v.spec_len() == l && v.spec_bytes() == buf@.subrange(
                        4,
                        buf@.len() as int,
                    )
                }
            }
        }),
{
    if buf.len() < 4 {
        return Err(PgError::UnexpectedEof);
    }
    let l = read_i32_be(buf, 0);
    if l < 0 {
        return Err(PgError::InvalidBitLength);
    }
    let bytes_needed = (l as usize + 7) / 8;
    if buf.len() - 4 != bytes_needed {
        return Err(PgError::InvalidMessageLength);
    }
    Ok(Varbit { len: l as usize, bytes: &buf[4..buf.len()] })
}

// ===== HSTORE =====

/// The wire form of one hstore entry: a length-prefixed key, then either a
/// length-prefixed value or the NULL length -1.
pub open spec fn hstore_entry_bytes(e: (String, Option<String>)) -> Seq<u8> {
    pascal_bytes(encode_utf8(e.0@)) + match e.1 {
        Some(v) => pascal_bytes(encode_utf8(v@)),
        None => be_i32(-1i32),
    }
}

/// The concatenated wire forms of a run of hstore entries.
pub open spec fn hstore_entries_bytes(es: Seq<(String, Option<String>)>) -> Seq<u8> {
    concat_map(es, |e: (String, Option<String>)| hstore_entry_bytes(e))
}

/// The full wire form of an `HSTORE` value: an entry count, then the
/// entries.
pub open spec fn spec_hstore_to_sql(es: Seq<(String, Option<String>)>) -> Seq<u8> {
    be_u32(es.len() as u32) + hstore_entries_bytes(es)
}

/// Whether one hstore entry's key and value fit their wire length fields.
pub open spec fn hstore_entry_fits(e: (String, Option<String>)) -> bool {
    encode_utf8(e.0@).len() <= 0x7fffffff && (e.1 matches Some(v) ==> encode_utf8(v@).len()
        <= 0x7fffffff)
}

/// Whether an hstore value fits its wire length fields.
pub open spec fn hstore_fits(es: Seq<(String, Option<String>)>) -> bool {
    es.len() <= 0x7fffffff && (forall|i: int|
        0 <= i < es.len() ==> #[trigger] hstore_entry_fits(es[i]))
}

/// Extending a prefix of entries by one appends that entry's wire form.
proof fn lemma_hstore_entries_snoc(es: Seq<(String, Option<String>)>, i: int)
    requires
        0 <= i < es.len(),
    ensures
        hstore_entries_bytes(es.take(i + 1)) == hstore_entries_bytes(es.take(i))
            + hstore_entry_bytes(es[i]),
{
    crate::primitives::lemma_concat_map_take_snoc(
        es,
        |e: (String, Option<String>)| hstore_entry_bytes(e),
        i,
    );
}

/// Serializes an `HSTORE` value; fails with `ValueTooLarge`, leaving the
/// buffer unchanged, exactly when the entry count or an entry's length
/// exceeds its wire width.
pub fn hstore_to_sql(values: &[(String, Option<String>)], buf: &mut Vec<u8>) -> (r: Result<
    (),
    PgError,
>)
    ensures
        match r {
            Ok(()) => hstore_fits(values@) && final(buf)@ == old(buf)@ + spec_hstore_to_sql(
                values@,
            ),
            Err(e) => e == PgError::ValueTooLarge && !hstore_fits(values@) && final(buf)@ == old(
                buf,
            )@,
        },
{
    let n = values.len();
    if n > 0x7fff_ffff {
        return Err(PgError::ValueTooLarge);
    }
    let mut i: usize = 0;
    while i < n
        invariant
            i <= n,
            n == values@.len(),
            forall|j: int| 0 <= j < i ==> #[trigger] hstore_entry_fits(values@[j]),
        decreases n - i,
    {
        let e = &values[i];
        if e.0.as_str().as_bytes().len() > 0x7fff_ffff {
            assert(!hstore_entry_fits(values@[i as int]));
            return Err(PgError::ValueTooLarge);
        }
        match &e.1 {
            Some(v) => {
                if v.as_str().as_bytes().len() > 0x7fff_ffff {
                    assert(!hstore_entry_fits(values@[i as int]));
                    return Err(PgError::ValueTooLarge);
                }
            },
            None => {},
        }
        assert(hstore_entry_fits(values@[i as int]));
        i += 1;
    }
    assert(hstore_fits(values@));
    write_u32_be(n as u32, buf);
    let mut i: usize = 0;
    while i < n
        invariant
            i <= n,
            n == values@.len(),
            n <= 0x7fffffff,
            hstore_fits(values@),
            buf@ == old(buf)@ + be_u32(n as u32) + hstore_entries_bytes(values@.take(i as int)),
        decreases n - i,
    {
        let e = &values[i];
        assert(hstore_entry_fits(values@[i as int]));
        let ghost buf_before = buf@;
        match crate::primitives::write_pascal_string(e.0.as_str(), buf) {
            Ok(()) => {},
            Err(_) => {
                proof {
                    assert(false);
                }
                return Err(PgError::ValueTooLarge);
            },
        }
        match &e.1 {
            Some(v) => {
                match crate::primitives::write_pascal_string(v.as_str(), buf) {
                    Ok(()) => {},
                    Err(_) => {
                        proof {
                            assert(false);
                        }
                        return Err(PgError::ValueTooLarge);
                    },
                }
            },
            None => {
                write_i32_be(-1, buf);
            },
        }
        proof {
            lemma_hstore_entries_snoc(values@, i as int);
            assert(buf@ =~= buf_before + hstore_entry_bytes(values@[i as int]));
            assert(buf@ =~= old(buf)@ + be_u32(n as u32) + hstore_entries_bytes(
                values@.take(i + 1),
            ));
        }
        i += 1;
    }
    proof {
        assert(values@.take(n as int) =~= values@);
        assert(buf@ =~= old(buf)@ + spec_hstore_to_sql(values@));
    }
    Ok(())
}

/// One step of the hstore entry cursor.
pub enum HsStep {
    /// The declared count is exhausted and no bytes trail.
    Done,
    /// The cursor must report an error.
    Fail(PgError),
    /// One decoded entry and the bytes that follow it.
    Item { key: Seq<char>, value: Option<Seq<char>>, rest: Seq<u8> },
}

/// The step the hstore cursor takes with `remaining` declared entries and
/// the bytes `b` ahead of it.
pub open spec fn hstore_step(remaining: int, b: Seq<u8>) -> HsStep {
    if remaining == 0 {
        if b.len() == 0 {
            HsStep::Done
        } else {
            HsStep::Fail(PgError::InvalidBufferSize)
        }
    } else if b.len() < 4 {
        HsStep::Fail(PgError::UnexpectedEof)
    } else {
        let klen = be_i32_val(b.subrange(0, 4));
        if klen < 0 {
            HsStep::Fail(PgError::InvalidKeyLength)
        } else if b.len() - 4 < klen {
            HsStep::Fail(PgError::UnexpectedEof)
        } else {
            let kbytes = b.subrange(4, 4 + klen);
            let after_key = b.subrange(4 + klen, b.len() as int);
            if !valid_utf8(kbytes) {
                HsStep::Fail(PgError::InvalidUtf8)
            } else if after_key.len() < 4 {
                HsStep::Fail(PgError::UnexpectedEof)
            } else {
                let vlen = be_i32_val(after_key.subrange(0, 4));
                if vlen < 0 {
                    HsStep::Item {
                        key: decode_utf8(kbytes),
                        value: None,
                        rest: after_key.subrange(4, after_key.len() as int),
                    }
                } else if after_key.len() - 4 < vlen {
                    HsStep::Fail(PgError::UnexpectedEof)
                } else {
                    let vbytes = after_key.subrange(4, 4 + vlen);
                    if !valid_utf8(vbytes) {
                        HsStep::Fail(PgError::InvalidUtf8)
                    } else {
                        HsStep::Item {
                            key: decode_utf8(kbytes),
                            value: Some(decode_utf8(vbytes)),
                            rest: after_key.subrange(4 + vlen, after_key.len() as int),
                        }
                    }
                }
            }
        }
    }
}

/// The entries the hstore cursor yields from `remaining` declared entries
/// over `b`, when every step succeeds through the terminal `Done`.
pub open spec fn collect_hstore(remaining: nat, b: Seq<u8>) -> Option<
    Seq<(Seq<char>, Option<Seq<char>>)>,
>
    decreases remaining,
{
    match hstore_step(remaining as int, b) {
        HsStep::Done => Some(Seq::empty()),
        HsStep::Fail(_) => None,
        HsStep::Item { key, value, rest } => {
            if remaining == 0 {
                None
            } else {
                match collect_hstore((remaining - 1) as nat, rest) {
                    Some(s) => Some(seq![(key, value)] + s),
                    None => None,
                }
            }
        },
    }
}

/// A fallible cursor over `HSTORE` entries.
pub struct HstoreEntries<'a> {
    remaining: i32,
    buf: &'a [u8],
}

impl<'a> HstoreEntries<'a> {
    /// The cursor's entry count is never negative.
    #[verifier::type_invariant]
    closed spec fn type_inv(&self) -> bool {
        self.remaining >= 0
    }

    /// The number of entries the cursor has yet to yield.
    pub closed spec fn spec_remaining(&self) -> i32 {
        self.remaining
    }

    /// The bytes ahead of the cursor.
    pub closed spec fn spec_buf(&self) -> Seq<u8> {
        self.buf@
    }

    /// Yields the next entry, `None` at the declared end, or the error the
    /// step ahead of the cursor calls for.
    pub fn next(&mut self) -> (r: Result<Option<(&'a str, Option<&'a str>)>, PgError>)
        ensures
            match hstore_step(old(self).spec_remaining() as int, old(self).spec_buf()) {
                HsStep::Done => r matches Ok(o) && o is None && final(self).spec_remaining() == old(
                    self,
                ).spec_remaining() && final(self).spec_buf() == old(self).spec_buf(),
                HsStep::Fail(e0) => r matches Err(e) && e == e0,
                HsStep::Item { key, value, rest } => {
                    &&& r matches Ok(o)
                    &&& o matches Some((k, v))
                    &&& k@ == key
                    &&& v is Some <==> value is Some
                    &&& (v matches Some(vs) ==> value matches Some(vc) && vs@ == vc)
                    &&& final(self).spec_remaining() == old(self).spec_remaining() - 1
                    &&& final(self).spec_buf() == rest
                },
            },
    {
        proof {
            use_type_invariant(&*self);
        }
        if self.remaining == 0 {
            if self.buf.len() != 0 {
                return Err(PgError::InvalidBufferSize);
            }
            return Ok(None);
        }
        if self.buf.len() < 4 {
            return Err(PgError::UnexpectedEof);
        }
        let klen = read_i32_be(self.buf, 0);
        if klen < 0 {
            return Err(PgError::InvalidKeyLength);
        }
        let klen = klen as usize;
        if self.buf.len() - 4 < klen {
            return Err(PgError::UnexpectedEof);
        }
        let b = self.buf;
        let kbytes = &b[4..4 + klen];
        let key = match crate::primitives::try_from_utf8(kbytes) {
            Some(s) => s,
            None => {
                return Err(PgError::InvalidUtf8);
            },
        };
        let after_key = &b[4 + klen..b.len()];
        proof {
            assert(after_key@ =~= old(self).spec_buf().subrange(
                4 + klen as int,
                old(self).spec_buf().len() as int,
            ));
        }
        if after_key.len() < 4 {
            return Err(PgError::UnexpectedEof);
        }
        let vlen = read_i32_be(after_key, 0);
        self.remaining = self.remaining - 1;
        if vlen < 0 {
            self.buf = &after_key[4..after_key.len()];
            proof {
                assert(self.buf@ =~= after_key@.subrange(4, after_key@.len() as int));
            }
            return Ok(Some((key, None)));
        }
        let vlen = vlen as usize;
        if after_key.len() - 4 < vlen {
            return Err(PgError::UnexpectedEof);
        }
        let vbytes = &after_key[4..4 + vlen];
        let value = match crate::primitives::try_from_utf8(vbytes) {
            Some(s) => s,
            None => {
                return Err(PgError::InvalidUtf8);
            },
        };
        self.buf = &after_key[4 + vlen..after_key.len()];
        proof {
            assert(self.buf@ =~= after_key@.subrange(4 + vlen as int, after_key@.len() as int));
        }
        Ok(Some((key, Some(value))))
    }

    /// Returns the declared number of entries still ahead as both bounds.
    pub fn size_hint(&self) -> (r: (usize, Option<usize>))
        ensures
            r.0 == self.spec_remaining() && (r.1 matches Some(n) && n == self.spec_remaining()),
    {
        proof {
            use_type_invariant(self);
        }
        let n = self.remaining as usize;
        (n, Some(n))
    }
}

/// Deserializes an `HSTORE` value: a non-negative entry count followed by
/// the entries, exposed as a fallible cursor.
pub fn hstore_from_sql<'a>(buf: &'a [u8]) -> (r: Result<HstoreEntries<'a>, PgError>)
    ensures
        ({
            if buf@.len() < 4 {
                r matches Err(e) && e == PgError::UnexpectedEof
            } else {
                let count = be_i32_val(buf@.subrange(0, 4));
                if count < 0 {
                    r matches Err(e) && e == PgError::InvalidEntryCount
                } else {
                    r matches Ok(it) && it.spec_remaining() == count && it.spec_buf()
                        == buf@.subrange(4, buf@.len() as int)
                }
            }
        }),
{
    if buf.len() < 4 {
        return Err(PgError::UnexpectedEof);
    }
    let count = read_i32_be(buf, 0);
    if count < 0 {
        return Err(PgError::InvalidEntryCount);
    }
    Ok(HstoreEntries { remaining: count, buf: &buf[4..buf.len()] })
}

// ===== ARRAY =====

/// One dimension of an array value.
#[derive(Debug, Copy, Clone, PartialEq, Eq, Structural)]
pub struct ArrayDimension {
    /// The number of elements along this dimension.
    pub len: i32,
    /// The index of this dimension's first element.
    pub lower_bound: i32,
}

/// The wire form of one array dimension.
pub open spec fn dim_bytes(d: ArrayDimension) -> Seq<u8> {
    be_i32(d.len) + be_i32(d.lower_bound)
}

/// The concatenated wire forms of a run of array dimensions.
pub open spec fn dims_bytes(ds: Seq<ArrayDimension>) -> Seq<u8> {
    concat_map(ds, |d: ArrayDimension| dim_bytes(d))
}

/// The wire form of one array element payload: a length-prefixed byte run,
/// or the NULL length -1.
pub open spec fn elem_bytes(e: Option<Vec<u8>>) -> Seq<u8> {
    match e {
        Some(v) => pascal_bytes(v@),
        None => be_i32(-1i32),
    }
}

/// The concatenated wire forms of a run of array element payloads.
pub open spec fn elems_bytes(es: Seq<Option<Vec<u8>>>) -> Seq<u8> {
    concat_map(es, |e: Option<Vec<u8>>| elem_bytes(e))
}

/// The full wire form of an array value: dimension count, has-nulls flag,
/// element-type Oid, the dimensions, then the framed element payloads.
pub open spec fn spec_array_to_sql(
    ds: Seq<ArrayDimension>,
    has_nulls: bool,
    element_type: Oid,
    es: Seq<Option<Vec<u8>>>,
) -> Seq<u8> {
    be_u32(ds.len() as u32) + be_i32(if has_nulls { 1i32 } else { 0i32 }) + be_u32(element_type)
        + dims_bytes(ds) + elems_bytes(es)
}

/// Whether an array's dimension count and element payloads fit their wire
/// length fields.
pub open spec fn array_fits(ds: Seq<ArrayDimension>, es: Seq<Option<Vec<u8>>>) -> bool {
    ds.len() <= 0x7fffffff && (forall|i: int|
        0 <= i < es.len() ==> (#[trigger] es[i] matches Some(v) ==> v@.len() <= 0x7fffffff))
}

/// Extending a prefix of dimensions by one appends that dimension's wire
/// form.
proof fn lemma_dims_bytes_snoc(ds: Seq<ArrayDimension>, i: int)
    requires
        0 <= i < ds.len(),
    ensures
        dims_bytes(ds.take(i + 1)) == dims_bytes(ds.take(i)) + dim_bytes(ds[i]),
{
    crate::primitives::lemma_concat_map_take_snoc(ds, |d: ArrayDimension| dim_bytes(d), i);
}

/// Extending a prefix of element payloads by one appends that payload's
/// wire form.
proof fn lemma_elems_bytes_snoc(es: Seq<Option<Vec<u8>>>, i: int)
    requires
        0 <= i < es.len(),
    ensures
        elems_bytes(es.take(i + 1)) == elems_bytes(es.take(i)) + elem_bytes(es[i]),
{
    crate::primitives::lemma_concat_map_take_snoc(es, |e: Option<Vec<u8>>| elem_bytes(e), i);
}

/// Serializes an array value from its dimensions and its already-encoded
/// element payloads (`None` for SQL NULL); fails with `ValueTooLarge`,
/// leaving the buffer unchanged, exactly when the dimension count or an
/// element's length exceeds its wire width.
pub fn array_to_sql(
    dimensions: &[ArrayDimension],
    has_nulls: bool,
    element_type: Oid,
    elements: &[Option<Vec<u8>>],
    buf: &mut Vec<u8>,
) -> (r: Result<(), PgError>)
    ensures
        match r {
            Ok(()) => array_fits(dimensions@, elements@) && final(buf)@ == old(buf)@
                + spec_array_to_sql(dimensions@, has_nulls, element_type, elements@),
            Err(e) => e == PgError::ValueTooLarge && !array_fits(dimensions@, elements@)
                && final(buf)@ == old(buf)@,
        },
{
    let nd = dimensions.len();
    if nd > 0x7fff_ffff {
        return Err(PgError::ValueTooLarge);
    }
    let ne = elements.len();
    let mut i: usize = 0;
    while i < ne
        invariant
            i <= ne,
            ne == elements@.len(),
            forall|j: int|
                0 <= j < i ==> (#[trigger] elements@[j] matches Some(v) ==> v@.len()
                    <= 0x7fffffff),
        decreases ne - i,
    {
        match &elements[i] {
            Some(v) => {
                if v.len() > 0x7fff_ffff {
                    assert(elements@[i as int] matches Some(w) && w@.len() > 0x7fffffff);
                    return Err(PgError::ValueTooLarge);
                }
            },
            None => {},
        }
        i += 1;
    }
    assert(array_fits(dimensions@, elements@));
    write_u32_be(nd as u32, buf);
    write_i32_be(if has_nulls { 1 } else { 0 }, buf);
    write_u32_be(element_type, buf);
    let ghost header = old(buf)@ + be_u32(nd as u32) + be_i32(if has_nulls { 1i32 } else { 0i32 })
        + be_u32(element_type);
    assert(buf@ =~= header);
    let mut i: usize = 0;
    while i < nd
        invariant
            i <= nd,
            nd == dimensions@.len(),
            buf@ == header + dims_bytes(dimensions@.take(i as int)),
        decreases nd - i,
    {
        let ghost buf_before = buf@;
        write_i32_be(dimensions[i].len, buf);
        write_i32_be(dimensions[i].lower_bound, buf);
        proof {
            lemma_dims_bytes_snoc(dimensions@, i as int);
            assert(buf@ =~= buf_before + dim_bytes(dimensions@[i as int]));
            assert(buf@ =~= header + dims_bytes(dimensions@.take(i + 1)));
        }
        i += 1;
    }
    proof {
        assert(dimensions@.take(nd as int) =~= dimensions@);
    }
    let ghost with_dims = header + dims_bytes(dimensions@);
    let mut i: usize = 0;
    while i < ne
        invariant
            i <= ne,
            ne == elements@.len(),
            array_fits(dimensions@, elements@),
            buf@ == with_dims + elems_bytes(elements@.take(i as int)),
        decreases ne - i,
    {
        let ghost buf_before = buf@;
        let o = match &elements[i] {
            Some(v) => Some(v),
            None => None,
        };
        match crate::primitives::write_nullable_bytes(o, buf) {
            Ok(()) => {},
            Err(_) => {
                proof {
                    assert(elements@[i as int] matches Some(v) && v@.len() > 0x7fffffff);
                    assert(false);
                }
                return Err(PgError::ValueTooLarge);
            },
        }
        proof {
            lemma_elems_bytes_snoc(elements@, i as int);
            assert(buf@ =~= buf_before + elem_bytes(elements@[i as int]));
            assert(buf@ =~= with_dims + elems_bytes(elements@.take(i + 1)));
        }
        i += 1;
    }
    proof {
        assert(elements@.take(ne as int) =~= elements@);
        assert(buf@ =~= old(buf)@ + spec_array_to_sql(
            dimensions@,
            has_nulls,
            element_type,
            elements@,
        ));
    }
    Ok(())
}

/// The element count computed while walking `n` dimension headers at the
/// front of `b`: the running product of the dimension lengths, rejecting a
/// negative length, a product beyond the signed 32-bit range, or a short
/// header.
pub open spec fn spec_dims_elems(b: Seq<u8>, n: int, acc: int) -> Result<int, PgError>
    decreases n,
{
    if n <= 0 {
        Ok(acc)
    } else if b.len() < 8 {
        Err(PgError::UnexpectedEof)
    } else {
        let l = be_i32_val(b.subrange(0, 4));
        if l < 0 {
            Err(PgError::InvalidDimensionSize)
        } else if acc * l > 0x7fffffff {
            Err(PgError::TooManyElements)
        } else {
            spec_dims_elems(b.subrange(8, b.len() as int), n - 1, acc * l)
        }
    }
}

/// An array value: its header fields and the bytes that hold its
/// dimensions and framed element payloads.
pub struct Array<'a> {
    dimensions: i32,
    has_nulls: bool,
    element_type: Oid,
    elements: i32,
    buf: &'a [u8],
}

impl<'a> Array<'a> {
    /// The dimension region always spans the front of the buffer and the
    /// counts are never negative.
    #[verifier::type_invariant]
    closed spec fn type_inv(&self) -> bool {
        0 <= self.dimensions && 8 * self.dimensions <= self.buf@.len() && 0 <= self.elements
    }

    /// The declared number of dimensions.
    pub closed spec fn spec_ndims(&self) -> i32 {
        self.dimensions
    }

    /// Whether the value declares that it may hold NULL elements.
    pub closed spec fn spec_has_nulls(&self) -> bool {
        self.has_nulls
    }

    /// The declared element type.
    pub closed spec fn spec_element_type(&self) -> Oid {
        self.element_type
    }

    /// The declared element count: the product of the dimension lengths.
    pub closed spec fn spec_elements(&self) -> i32 {
        self.elements
    }

    /// The bytes holding the dimensions followed by the element payloads.
    pub closed spec fn spec_buf(&self) -> Seq<u8> {
        self.buf@
    }

    /// Returns whether the value declares that it may hold NULL elements.
    pub fn has_nulls(&self) -> (r: bool)
        ensures
            r == self.spec_has_nulls(),
    {
        self.has_nulls
    }

    /// Returns the declared element type.
    pub fn element_type(&self) -> (r: Oid)
        ensures
            r == self.spec_element_type(),
    {
        self.element_type
    }

    /// Returns a cursor over the dimensions.
    pub fn dimensions(&self) -> (r: ArrayDimensions<'a>)
        ensures
            r.spec_buf() == self.spec_buf().subrange(0, 8 * self.spec_ndims() as int),
    {
        proof {
            use_type_invariant(self);
        }
        let end = self.buf.len();
        let n = (self.dimensions as usize) * 8;
        assert(n <= end);
        ArrayDimensions { buf: &self.buf[0..n] }
    }

    /// Returns a cursor over the framed element payloads.
    pub fn values(&self) -> (r: ArrayValues<'a>)
        ensures
            r.spec_remaining() == self.spec_elements(),
            r.spec_buf() == self.spec_buf().subrange(
                8 * self.spec_ndims() as int,
                self.spec_buf().len() as int,
            ),
    {
        proof {
            use_type_invariant(self);
        }
        let total = self.buf.len();
        let n = (self.dimensions as usize) * 8;
        ArrayValues { remaining: self.elements, buf: &self.buf[n..total] }
    }
}

/// Deserializes an array value: the header, with the element count checked
/// against the product of the dimension lengths.
pub fn array_from_sql<'a>(buf: &'a [u8]) -> (r: Result<Array<'a>, PgError>)
    ensures
        ({
            if buf@.len() < 12 {
                r matches Err(e) && e == PgError::UnexpectedEof
            } else {
                let nd = be_i32_val(buf@.subrange(0, 4));
                let rest = buf@.subrange(12, buf@.len() as int);
                if nd < 0 {
                    r matches Err(e) && e == PgError::InvalidDimensionCount
                } else {
                    match spec_dims_elems(rest, nd as int, 1) {
                        Err(e0) => r matches Err(e) && e == e0,
                        Ok(p) => {
                            &&& r matches Ok(a)
                            &&& a.spec_ndims() == nd
                            &&& a.spec_has_nulls() == (be_i32_val(buf@.subrange(4, 8)) != 0)
                            &&& a.spec_element_type() == be_u32_val(buf@.subrange(8, 12))
                            &&& a.spec_elements() == (if nd == 0 {
                                0int
                            } else {
                                p
                            })
                            &&& a.spec_buf() == rest
                        },
                    }
                }
            }
        }),
{
    if buf.len() < 12 {
        return Err(PgError::UnexpectedEof);
    }
    let nd = read_i32_be(buf, 0);
    if nd < 0 {
        return Err(PgError::InvalidDimensionCount);
    }
    let has_nulls = read_i32_be(buf, 4) != 0;
    let element_type = read_u32_be(buf, 8);
    let rest = &buf[12..buf.len()];
    let ghost rest_view = rest@;
    proof {
        assert(rest_view.subrange(0, rest_view.len() as int) =~= rest_view);
    }
    let mut elements: i32 = 1;
    let mut i: i32 = 0;
    let mut off: usize = 0;
    while i < nd
        invariant
            0 <= i <= nd,
            off == 8 * i,
            off <= rest_view.len(),
            rest@ == rest_view,
            rest@.len() == rest.len(),
            0 <= elements,
            buf@.len() >= 12,
            nd == be_i32_val(buf@.subrange(0, 4)),
            rest_view == buf@.subrange(12, buf@.len() as int),
            spec_dims_elems(rest_view, nd as int, 1) == spec_dims_elems(
                rest_view.subrange(off as int, rest_view.len() as int),
                nd - i,
                elements as int,
            ),
        decreases nd - i,
    {
        let ghost tail = rest_view.subrange(off as int, rest_view.len() as int);
        if rest.len() - off < 8 {
            assert(tail.len() < 8);
            return Err(PgError::UnexpectedEof);
        }
        let l = read_i32_be(rest, off);
        proof {
            assert(tail.subrange(0, 4) =~= rest_view.subrange(off as int, off as int + 4));
        }
        if l < 0 {
            return Err(PgError::InvalidDimensionSize);
        }
        elements = match elements.checked_mul(l) {
            Some(e) => e,
            None => {
                proof {
                    vstd::arithmetic::mul::lemma_mul_nonnegative(elements as int, l as int);
                }
                return Err(PgError::TooManyElements);
            },
        };
        proof {
            assert(tail.subrange(8, tail.len() as int) =~= rest_view.subrange(
                off as int + 8,
                rest_view.len() as int,
            ));
        }
        off += 8;
        i += 1;
    }
    if nd == 0 {
        elements = 0;
    }
    proof {
        assert(rest_view.subrange(off as int, rest_view.len() as int).len() == rest_view.len()
            - off);
    }
    Ok(Array { dimensions: nd, has_nulls, element_type, elements, buf: rest })
}

/// One step of the array dimension cursor.
pub enum DimStep {
    /// The dimension region is exhausted.
    Done,
    /// The cursor must report an error.
    Fail(PgError),
    /// One dimension and the bytes that follow it.
    Item { dim: ArrayDimension, rest: Seq<u8> },
}

/// The step the dimension cursor takes over the bytes `b` ahead of it.
pub open spec fn dim_step(b: Seq<u8>) -> DimStep {
    if b.len() == 0 {
        DimStep::Done
    } else if b.len() < 8 {
        DimStep::Fail(PgError::UnexpectedEof)
    } else {
        DimStep::Item {
            dim: ArrayDimension {
                len: be_i32_val(b.subrange(0, 4)),
                lower_bound: be_i32_val(b.subrange(4, 8)),
            },
            rest: b.subrange(8, b.len() as int),
        }
    }
}

/// The dimensions the cursor yields over `b`, when every step succeeds
/// through the terminal `Done`.
pub open spec fn collect_dims(b: Seq<u8>) -> Option<Seq<ArrayDimension>>
    decreases b.len(),
{
    match dim_step(b) {
        DimStep::Done => Some(Seq::empty()),
        DimStep::Fail(_) => None,
        DimStep::Item { dim, rest } => {
            if rest.len() < b.len() {
                match collect_dims(rest) {
                    Some(s) => Some(seq![dim] + s),
                    None => None,
                }
            } else {
                None
            }
        },
    }
}

/// A fallible cursor over an array value's dimensions.
pub struct ArrayDimensions<'a> {
    buf: &'a [u8],
}

impl<'a> ArrayDimensions<'a> {
    /// The bytes ahead of the cursor.
    pub closed spec fn spec_buf(&self) -> Seq<u8> {
        self.buf@
    }

    /// Yields the next dimension, or `None` once the region is exhausted.
    pub fn next(&mut self) -> (r: Result<Option<ArrayDimension>, PgError>)
        ensures
            match dim_step(old(self).spec_buf()) {
                DimStep::Done => r matches Ok(o) && o is None && final(self).spec_buf() == old(
                    self,
                ).spec_buf(),
                DimStep::Fail(e0) => r matches Err(e) && e == e0,
                DimStep::Item { dim, rest } => r matches Ok(o) && o matches Some(d) && d == dim
                    && final(self).spec_buf() == rest,
            },
    {
        if self.buf.len() == 0 {
            return Ok(None);
        }
        if self.buf.len() < 8 {
            return Err(PgError::UnexpectedEof);
        }
        let len = read_i32_be(self.buf, 0);
        let lower_bound = read_i32_be(self.buf, 4);
        let b = self.buf;
        self.buf = &b[8..b.len()];
        proof {
            assert(self.buf@ =~= b@.subrange(8, b@.len() as int));
        }
        Ok(Some(ArrayDimension { len, lower_bound }))
    }

    /// Returns the number of whole dimensions still ahead as both bounds.
    pub fn size_hint(&self) -> (r: (usize, Option<usize>))
        ensures
            r.0 == self.spec_buf().len() / 8 && (r.1 matches Some(n) && n == self.spec_buf().len()
                / 8),
    {
        let n = self.buf.len() / 8;
        (n, Some(n))
    }
}

/// A fallible cursor over an array value's framed element payloads.
pub struct ArrayValues<'a> {
    remaining: i32,
    buf: &'a [u8],
}

impl<'a> ArrayValues<'a> {
    /// The cursor's element count is never negative.
    #[verifier::type_invariant]
    closed spec fn type_inv(&self) -> bool {
        self.remaining >= 0
    }

    /// The number of elements the cursor has yet to yield.
    pub closed spec fn spec_remaining(&self) -> i32 {
        self.remaining
    }

    /// The bytes ahead of the cursor.
    pub closed spec fn spec_buf(&self) -> Seq<u8> {
        self.buf@
    }

    /// Yields the next element payload (`None` for SQL NULL), `None` at the
    /// declared end, or the error the step ahead of the cursor calls for.
    pub fn next(&mut self) -> (r: Result<Option<Option<&'a [u8]>>, PgError>)
        ensures
            match nullable_value_step(old(self).spec_remaining() as int, old(self).spec_buf()) {
                crate::primitives::ValueStep::Done => r matches Ok(o) && o is None
                    && final(self).spec_remaining() == old(self).spec_remaining()
                    && final(self).spec_buf() == old(self).spec_buf(),
                crate::primitives::ValueStep::Fail(e0) => r matches Err(e) && e == e0,
                crate::primitives::ValueStep::Item { value, rest } => {
                    &&& r matches Ok(o)
                    &&& o matches Some(v)
                    &&& v is Some <==> value is Some
                    &&& (v matches Some(s) ==> value matches Some(vb) && s@ == vb)
                    &&& final(self).spec_remaining() == old(self).spec_remaining() - 1
                    &&& final(self).spec_buf() == rest
                },
            },
    {
        proof {
            use_type_invariant(&*self);
        }
        if self.remaining == 0 {
            if self.buf.len() != 0 {
                return Err(PgError::InvalidMessageLength);
            }
            return Ok(None);
        }
        if self.buf.len() < 4 {
            return Err(PgError::UnexpectedEof);
        }
        let l = read_i32_be(self.buf, 0);
        self.remaining = self.remaining - 1;
        if l < 0 {
            let b = self.buf;
            self.buf = &b[4..b.len()];
            proof {
                assert(self.buf@ =~= b@.subrange(4, b@.len() as int));
            }
            return Ok(Some(None));
        }
        let l = l as usize;
        if self.buf.len() - 4 < l {
            return Err(PgError::UnexpectedEof);
        }
        let b = self.buf;
        let val = &b[4..4 + l];
        self.buf = &b[4 + l..b.len()];
        proof {
            assert(val@ =~= b@.subrange(4, 4 + l as int));
            assert(self.buf@ =~= b@.subrange(4 + l as int, b@.len() as int));
        }
        Ok(Some(Some(val)))
    }

    /// Returns the declared number of elements still ahead as both bounds.
    pub fn size_hint(&self) -> (r: (usize, Option<usize>))
        ensures
            r.0 == self.spec_remaining() && (r.1 matches Some(n) && n == self.spec_remaining()),
    {
        proof {
            use_type_invariant(self);
        }
        let n = self.remaining as usize;
        (n, Some(n))
    }
}

// ===== Laws of the value codec =====

/// Law (round-trip): the wire byte of a `BOOL` value decodes back to the
/// value: it is a single byte that is nonzero exactly for `true`.
pub proof fn lemma_bool_round_trip(v: bool)
    ensures
        spec_bool_to_sql(v).len() == 1,
        (spec_bool_to_sql(v)[0] != 0) == v,
{
}

/// Law (round-trip): the wire byte of a `"char"` value decodes back to
/// the value.
pub proof fn lemma_char_round_trip(v: i8)
    ensures
        seq![v as u8].len() == 1,
        ((v as u8) as i8) == v,
{
    assert(((v as u8) as i8) == v) by (bit_vector);
}

/// Law (round-trip): the wire bytes of a textual value are valid UTF-8
/// and decode back to the same characters.
pub proof fn lemma_text_round_trip(s: Seq<char>)
    ensures
        valid_utf8(encode_utf8(s)),
        decode_utf8(encode_utf8(s)) == s,
{
}

/// Law (round-trip): the wire form of a `VARBIT` value of `len` bits with
/// `ceil(len / 8)` bytes decodes back to the same bit count and bytes.
pub proof fn lemma_varbit_round_trip(len: u32, bytes: Seq<u8>)
    requires
        len <= 0x7fffffff,
        bytes.len() == (len + 7) / 8,
    ensures
        ({
            let w = spec_varbit_to_sql(len as int, bytes);
            &&& w.len() >= 4
            &&& be_i32_val(w.subrange(0, 4)) == len
            &&& w.len() - 4 == (len + 7) / 8
            &&& w.subrange(4, w.len() as int) == bytes
        }),
{
    broadcast use crate::primitives::lemma_be_u32_round;

    let w = spec_varbit_to_sql(len as int, bytes);
    assert(w.subrange(0, 4) =~= be_u32(len));
    assert(w.subrange(4, w.len() as int) =~= bytes);
}

/// The specification-level values of a run of already-encoded element
/// payloads.
pub open spec fn elems_view(es: Seq<Option<Vec<u8>>>) -> Seq<Option<Seq<u8>>> {
    es.map_values(
        |e: Option<Vec<u8>>|
            match e {
                Some(v) => Some(v@),
                None => None,
            },
    )
}

/// Law (cursor completeness): over the encoding of `es`, a value cursor
/// declared for `es.len()` values yields exactly those values and then
/// ends; together with [`nullable_value_step`], which reports an error on
/// the terminal step exactly when bytes trail, this pins the cursor's
/// whole behaviour on well-formed input.
pub proof fn lemma_values_cursor_complete(es: Seq<Option<Vec<u8>>>)
    requires
        forall|i: int|
            0 <= i < es.len() ==> (#[trigger] es[i] matches Some(p) ==> p@.len() <= 0x7fffffff),
    ensures
        crate::primitives::collect_values(es.len(), elems_bytes(es)) == Some(elems_view(es)),
    decreases es.len(),
{
    broadcast use crate::primitives::lemma_be_u32_round;
    broadcast use crate::primitives::lemma_be_i32_round;

    if es.len() == 0 {
        assert(elems_bytes(es).len() == 0);
        assert(elems_view(es) =~= Seq::<Option<Seq<u8>>>::empty());
    } else {
        let e0 = es[0];
        let rest = es.drop_first();
        let b = elems_bytes(es);
        assert(b == elem_bytes(e0) + elems_bytes(rest));
        assert(es[0] matches Some(p) ==> p@.len() <= 0x7fffffff);
        assert forall|i: int|
            0 <= i < rest.len() implies (#[trigger] rest[i] matches Some(p) ==> p@.len()
            <= 0x7fffffff) by {
            assert(rest[i] == es[i + 1]);
            assert(es[i + 1] matches Some(p) ==> p@.len() <= 0x7fffffff);
        }
        lemma_values_cursor_complete(rest);
        match e0 {
            Some(p) => {
                assert(b.subrange(0, 4) =~= be_u32(p@.len() as u32));
                assert(be_i32_val(b.subrange(0, 4)) == p@.len());
                assert(b.subrange(4, 4 + p@.len() as int) =~= p@);
                assert(b.subrange(4 + p@.len() as int, b.len() as int) =~= elems_bytes(rest));
                assert(seq![Some(p@)] + elems_view(rest) =~= elems_view(es));
            },
            None => {
                assert(b.subrange(0, 4) =~= be_i32(-1i32));
                assert(be_i32_val(b.subrange(0, 4)) == -1);
                assert(b.subrange(4, b.len() as int) =~= elems_bytes(rest));
                assert(seq![Option::<Seq<u8>>::None] + elems_view(rest) =~= elems_view(es));
            },
        }
    }
}

/// Law (cursor completeness): over the encoding of `ds`, the dimension
/// cursor yields exactly those dimensions and then ends.
pub proof fn lemma_dims_cursor_complete(ds: Seq<ArrayDimension>)
    ensures
        collect_dims(dims_bytes(ds)) == Some(ds),
    decreases ds.len(),
{
    broadcast use crate::primitives::lemma_be_i32_round;

    if ds.len() == 0 {
        assert(dims_bytes(ds).len() == 0);
        assert(Seq::<ArrayDimension>::empty() =~= ds);
    } else {
        let rest = ds.drop_first();
        let b = dims_bytes(ds);
        assert(b == dim_bytes(ds[0]) + dims_bytes(rest));
        assert(b.subrange(0, 4) =~= be_i32(ds[0].len));
        assert(b.subrange(4, 8) =~= be_i32(ds[0].lower_bound));
        assert(b.subrange(8, b.len() as int) =~= dims_bytes(rest));
        lemma_dims_cursor_complete(rest);
        assert(seq![ds[0]] + rest =~= ds);
    }
}

/// Whether walking the dimensions keeps every running product of their
/// lengths non-negative and within the signed 32-bit range.
pub open spec fn dims_product_ok(ds: Seq<ArrayDimension>, acc: int) -> bool
    decreases ds.len(),
{
    if ds.len() == 0 {
        true
    } else {
        &&& ds[0].len >= 0
        &&& acc * ds[0].len <= 0x7fffffff
        &&& dims_product_ok(ds.drop_first(), acc * ds[0].len)
    }
}

/// The product of the dimension lengths, folded from `acc`.
pub open spec fn dims_product(ds: Seq<ArrayDimension>, acc: int) -> int
    decreases ds.len(),
{
    if ds.len() == 0 {
        acc
    } else {
        dims_product(ds.drop_first(), acc * ds[0].len)
    }
}

/// The dimension region of an array encoding spans 8 bytes per dimension.
pub proof fn lemma_dims_bytes_len(ds: Seq<ArrayDimension>)
    ensures
        dims_bytes(ds).len() == 8 * ds.len(),
    decreases ds.len(),
{
    if ds.len() == 0 {
    } else {
        assert(dims_bytes(ds) == dim_bytes(ds[0]) + dims_bytes(ds.drop_first()));
        lemma_dims_bytes_len(ds.drop_first());
    }
}

/// Walking the encoded dimension headers computes exactly the folded
/// product of the dimension lengths, whatever bytes follow them.
pub proof fn lemma_dims_elems_of_encoding(ds: Seq<ArrayDimension>, acc: int, suffix: Seq<u8>)
    requires
        dims_product_ok(ds, acc),
        0 <= acc <= 0x7fffffff,
    ensures
        spec_dims_elems(dims_bytes(ds) + suffix, ds.len() as int, acc) == Ok::<int, PgError>(
            dims_product(ds, acc),
        ),
    decreases ds.len(),
{
    broadcast use crate::primitives::lemma_be_i32_round;

    if ds.len() == 0 {
        assert(dims_bytes(ds) + suffix =~= suffix);
    } else {
        let rest = ds.drop_first();
        let b = dims_bytes(ds) + suffix;
        assert(dims_bytes(ds) == dim_bytes(ds[0]) + dims_bytes(rest));
        assert(b.len() >= 8);
        assert(b.subrange(0, 4) =~= be_i32(ds[0].len));
        assert(b.subrange(8, b.len() as int) =~= dims_bytes(rest) + suffix);
        vstd::arithmetic::mul::lemma_mul_nonnegative(acc, ds[0].len as int);
        lemma_dims_elems_of_encoding(rest, acc * ds[0].len, suffix);
    }
}

/// Law (round-trip): the encoding of an array decodes back to the same
/// header fields, and its cursors yield exactly the encoded dimensions
/// and element payloads.
pub proof fn lemma_array_round_trip(
    ds: Seq<ArrayDimension>,
    has_nulls: bool,
    element_type: Oid,
    es: Seq<Option<Vec<u8>>>,
)
    requires
        array_fits(ds, es),
        dims_product_ok(ds, 1),
        ds.len() == 0 ==> es.len() == 0,
        ds.len() > 0 ==> dims_product(ds, 1) == es.len(),
    ensures
        ({
            let w = spec_array_to_sql(ds, has_nulls, element_type, es);
            &&& w.len() >= 12
            &&& be_i32_val(w.subrange(0, 4)) == ds.len()
            &&& (be_i32_val(w.subrange(4, 8)) != 0) == has_nulls
            &&& be_u32_val(w.subrange(8, 12)) == element_type
            &&& spec_dims_elems(w.subrange(12, w.len() as int), ds.len() as int, 1) == Ok::<
                int,
                PgError,
            >(dims_product(ds, 1))
            &&& collect_dims(w.subrange(12, 12 + 8 * ds.len() as int)) == Some(ds)
            &&& crate::primitives::collect_values(
                es.len(),
                w.subrange(12 + 8 * ds.len() as int, w.len() as int),
            ) == Some(elems_view(es))
        }),
{
    broadcast use crate::primitives::lemma_be_u32_round;
    broadcast use crate::primitives::lemma_be_i32_round;

    let w = spec_array_to_sql(ds, has_nulls, element_type, es);
    lemma_dims_bytes_len(ds);
    assert(w.subrange(0, 4) =~= be_u32(ds.len() as u32));
    assert(be_i32_val(w.subrange(0, 4)) == ds.len());
    assert(w.subrange(4, 8) =~= be_i32(if has_nulls { 1i32 } else { 0i32 }));
    assert(w.subrange(8, 12) =~= be_u32(element_type));
    assert(w.subrange(12, w.len() as int) =~= dims_bytes(ds) + elems_bytes(es));
    lemma_dims_elems_of_encoding(ds, 1, elems_bytes(es));
    assert(w.subrange(12, 12 + 8 * ds.len() as int) =~= dims_bytes(ds));
    assert(w.subrange(12 + 8 * ds.len() as int, w.len() as int) =~= elems_bytes(es));
    lemma_dims_cursor_complete(ds);
    assert forall|i: int|
        0 <= i < es.len() implies (#[trigger] es[i] matches Some(p) ==> p@.len()
        <= 0x7fffffff) by {}
    lemma_values_cursor_complete(es);
}

/// The specification-level entries of a run of hstore pairs.
pub open spec fn hstore_view(es: Seq<(String, Option<String>)>) -> Seq<
    (Seq<char>, Option<Seq<char>>),
> {
    es.map_values(
        |e: (String, Option<String>)|
            (
                e.0@,
                match e.1 {
                    Some(v) => Some(v@),
                    None => None,
                },
            ),
    )
}

/// Law (cursor completeness): over the encoding of `es`, an hstore cursor
/// declared for `es.len()` entries yields exactly those entries and then
/// ends; together with [`hstore_step`], which reports an error on the
/// terminal step exactly when bytes trail, this pins the cursor's whole
/// behaviour on well-formed input.
#[verifier::rlimit(100)]
#[verifier::spinoff_prover]
pub proof fn lemma_hstore_cursor_complete(es: Seq<(String, Option<String>)>)
    requires
        forall|i: int| 0 <= i < es.len() ==> #[trigger] hstore_entry_fits(es[i]),
    ensures
        collect_hstore(es.len(), hstore_entries_bytes(es)) == Some(hstore_view(es)),
    decreases es.len(),
{
    broadcast use crate::primitives::lemma_be_u32_round;
    broadcast use crate::primitives::lemma_be_i32_round;

    if es.len() == 0 {
        assert(hstore_entries_bytes(es).len() == 0);
        assert(hstore_view(es) =~= Seq::<(Seq<char>, Option<Seq<char>>)>::empty());
    } else {
        let e0 = es[0];
        let rest = es.drop_first();
        let b = hstore_entries_bytes(es);
        assert(b == hstore_entry_bytes(e0) + hstore_entries_bytes(rest));
        assert(hstore_entry_fits(es[0]));
        assert forall|i: int| 0 <= i < rest.len() implies #[trigger] hstore_entry_fits(
            rest[i],
        ) by {
            assert(rest[i] == es[i + 1]);
            assert(hstore_entry_fits(es[i + 1]));
        }
        lemma_hstore_cursor_complete(rest);
        let kb = encode_utf8(e0.0@);
        assert(b.subrange(0, 4) =~= be_u32(kb.len() as u32));
        assert(be_i32_val(b.subrange(0, 4)) == kb.len());
        assert(b.subrange(4, 4 + kb.len() as int) =~= kb);
        let after_key = b.subrange(4 + kb.len() as int, b.len() as int);
        match e0.1 {
            Some(v) => {
                let vb = encode_utf8(v@);
                assert(after_key =~= pascal_bytes(vb) + hstore_entries_bytes(rest));
                assert(after_key.subrange(0, 4) =~= be_u32(vb.len() as u32));
                assert(be_i32_val(after_key.subrange(0, 4)) == vb.len());
                assert(after_key.subrange(4, 4 + vb.len() as int) =~= vb);
                assert(after_key.subrange(4 + vb.len() as int, after_key.len() as int)
                    =~= hstore_entries_bytes(rest));
                assert(seq![(e0.0@, Some(v@))] + hstore_view(rest) =~= hstore_view(es));
            },
            None => {
                assert(after_key =~= be_i32(-1i32) + hstore_entries_bytes(rest));
                assert(after_key.subrange(0, 4) =~= be_i32(-1i32));
                assert(be_i32_val(after_key.subrange(0, 4)) == -1);
                assert(after_key.subrange(4, after_key.len() as int) =~= hstore_entries_bytes(
                    rest,
                ));
                assert(seq![(e0.0@, Option::<Seq<char>>::None)] + hstore_view(rest)
                    =~= hstore_view(es));
            },
        }
    }
}

/// Law (round-trip): the encoding of an hstore value decodes back to the
/// same entry count, and its cursor yields exactly the encoded entries.
pub proof fn lemma_hstore_round_trip(es: Seq<(String, Option<String>)>)
    requires
        hstore_fits(es),
    ensures
        ({
            let w = spec_hstore_to_sql(es);
            &&& w.len() >= 4
            &&& be_i32_val(w.subrange(0, 4)) == es.len()
            &&& collect_hstore(es.len(), w.subrange(4, w.len() as int)) == Some(hstore_view(es))
        }),
{
    broadcast use crate::primitives::lemma_be_u32_round;

    let w = spec_hstore_to_sql(es);
    assert(w.subrange(0, 4) =~= be_u32(es.len() as u32));
    assert(be_i32_val(w.subrange(0, 4)) == es.len());
    assert(w.subrange(4, w.len() as int) =~= hstore_entries_bytes(es));
    lemma_hstore_cursor_complete(es);
}

} // verus!
