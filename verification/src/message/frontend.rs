//! The frontend-message serializers.
//!
//! Each message kind appends its framed wire form to a caller-owned
//! growable buffer. The caller keeps ownership and may batch, reuse, or
//! truncate the buffer between messages. On failure the bytes that were
//! already in the buffer are untouched, though a partial message may
//! follow them; the caller is expected to discard the buffer.
use vstd::prelude::*;

use crate::Oid;
use crate::error::PgError;
use crate::primitives::{
    be_i16, be_i32, be_u16, be_u32, concat_map, cstr_bytes, finish_frame, frame_fits, framed,
    lemma_concat_map_take_snoc, nullable_bytes, write_cstr, write_i16_be, write_i32_be,
    write_nullable_bytes, write_u16_be, write_u32_be,
};
use vstd::utf8::encode_utf8;

verus! {

broadcast use vstd::utf8::group_utf8_lib;

/// The wire form of a frontend count-prefixed run of 16-bit formats.
pub open spec fn i16s_bytes(s: Seq<i16>) -> Seq<u8> {
    concat_map(s, |v: i16| be_i16(v))
}

/// The wire form of a run of 32-bit parameter-type Oids.
pub open spec fn oids_bytes(s: Seq<Oid>) -> Seq<u8> {
    concat_map(s, |v: Oid| be_u32(v))
}

/// The wire form of a run of framed, possibly-NULL parameter values.
pub open spec fn values_bytes(s: Seq<Option<Vec<u8>>>) -> Seq<u8> {
    concat_map(
        s,
        |v: Option<Vec<u8>>|
            match v {
                Some(p) => nullable_bytes(Some(p@)),
                None => nullable_bytes(None),
            },
    )
}

/// The wire form of a run of startup parameter pairs: a c-string name
/// followed by a c-string value, for each pair.
pub open spec fn params_bytes(s: Seq<(String, String)>) -> Seq<u8> {
    concat_map(
        s,
        |p: (String, String)|
            cstr_bytes(encode_utf8(p.0@)) + cstr_bytes(encode_utf8(p.1@)),
    )
}

/// Appends `tag` and a zeroed 4-byte length placeholder; returns the
/// placeholder's offset.
fn begin_frame(tag: u8, buf: &mut Vec<u8>) -> (base: usize)
    ensures
        final(buf)@ == old(buf)@ + seq![tag, 0u8, 0u8, 0u8, 0u8],
        base == old(buf)@.len() + 1,
        final(buf)@.len() == old(buf)@.len() + 5,
{
    buf.push(tag);
    let base = buf.len();
    buf.push(0);
    buf.push(0);
    buf.push(0);
    buf.push(0);
    assert(buf@ =~= old(buf)@ + seq![tag, 0u8, 0u8, 0u8, 0u8]);
    base
}

/// Appends a zeroed 4-byte length placeholder for an untagged frame;
/// returns the placeholder's offset.
fn begin_untagged_frame(buf: &mut Vec<u8>) -> (base: usize)
    ensures
        final(buf)@ == old(buf)@ + seq![0u8, 0u8, 0u8, 0u8],
        base == old(buf)@.len(),
        final(buf)@.len() == old(buf)@.len() + 4,
{
    let base = buf.len();
    buf.push(0);
    buf.push(0);
    buf.push(0);
    buf.push(0);
    assert(buf@ =~= old(buf)@ + seq![0u8, 0u8, 0u8, 0u8]);
    base
}

/// A frontend message that can be appended to a buffer in its framed wire
/// form.
pub trait Message {
    /// Whether every length involved fits its wire width and every
    /// c-string is free of interior zero bytes.
    spec fn wire_ok(&self) -> bool;

    /// The message's exact wire bytes.
    spec fn wire(&self) -> Seq<u8>;

    /// The error reported when the message cannot be serialized.
    spec fn wire_err(&self) -> PgError;

    /// Appends the message's framed wire form to `buf`. On failure the
    /// bytes that were already in the buffer are unchanged, though a
    /// partial message may have been appended after them.
    fn write(&self, buf: &mut Vec<u8>) -> (r: Result<(), PgError>)
        ensures
            match r {
                Ok(()) => self.wire_ok() && final(buf)@ == old(buf)@ + self.wire(),
                Err(e) => !self.wire_ok() && e == self.wire_err() && final(buf)@.len() >= old(
                    buf,
                )@.len() && final(buf)@.subrange(0, old(buf)@.len() as int) == old(buf)@,
            },
    ;
}

/// The `Query` message: a c-string SQL text under tag `Q`.
pub struct Query<'a> {
    pub query: &'a str,
}

impl<'a> Message for Query<'a> {
    open spec fn wire_ok(&self) -> bool {
        !encode_utf8(self.query@).contains(0u8) && frame_fits(
            cstr_bytes(encode_utf8(self.query@)),
        )
    }

    open spec fn wire(&self) -> Seq<u8> {
        framed(81u8, cstr_bytes(encode_utf8(self.query@)))
    }

    open spec fn wire_err(&self) -> PgError {
        if encode_utf8(self.query@).contains(0u8) {
            PgError::EmbeddedNul
        } else {
            PgError::ValueTooLarge
        }
    }

    fn write(&self, buf: &mut Vec<u8>) -> (r: Result<(), PgError>) {
        let base = begin_frame(81, buf);
        match write_cstr(self.query, buf) {
            Ok(()) => {},
            Err(e) => {
                assert(buf@.subrange(0, old(buf)@.len() as int) =~= old(buf)@);
                return Err(e);
            },
        }
        let ghost body = cstr_bytes(encode_utf8(self.query@));
        let ghost pre = buf@;
        match finish_frame(buf, base) {
            Ok(()) => {},
            Err(e) => {
                assert(buf@.subrange(0, old(buf)@.len() as int) =~= old(buf)@);
                return Err(e);
            },
        }
        proof {
            assert(pre.subrange(0, base as int) =~= old(buf)@ + seq![81u8]);
            assert(pre.subrange(base as int + 4, pre.len() as int) =~= body);
            assert(buf@ =~= old(buf)@ + self.wire());
        }
        Ok(())
    }
}

/// The `PasswordMessage` message: a c-string password under tag `p`.
pub struct PasswordMessage<'a> {
    pub password: &'a str,
}

impl<'a> Message for PasswordMessage<'a> {
    open spec fn wire_ok(&self) -> bool {
        !encode_utf8(self.password@).contains(0u8) && frame_fits(
            cstr_bytes(encode_utf8(self.password@)),
        )
    }

    open spec fn wire(&self) -> Seq<u8> {
        framed(112u8, cstr_bytes(encode_utf8(self.password@)))
    }

    open spec fn wire_err(&self) -> PgError {
        if encode_utf8(self.password@).contains(0u8) {
            PgError::EmbeddedNul
        } else {
            PgError::ValueTooLarge
        }
    }

    fn write(&self, buf: &mut Vec<u8>) -> (r: Result<(), PgError>) {
        let base = begin_frame(112, buf);
        match write_cstr(self.password, buf) {
            Ok(()) => {},
            Err(e) => {
                assert(buf@.subrange(0, old(buf)@.len() as int) =~= old(buf)@);
                return Err(e);
            },
        }
        let ghost body = cstr_bytes(encode_utf8(self.password@));
        let ghost pre = buf@;
        match finish_frame(buf, base) {
            Ok(()) => {},
            Err(e) => {
                assert(buf@.subrange(0, old(buf)@.len() as int) =~= old(buf)@);
                return Err(e);
            },
        }
        proof {
            assert(pre.subrange(0, base as int) =~= old(buf)@ + seq![112u8]);
            assert(pre.subrange(base as int + 4, pre.len() as int) =~= body);
            assert(buf@ =~= old(buf)@ + self.wire());
        }
        Ok(())
    }
}

/// The `CopyData` message: a raw payload under tag `d`.
pub struct CopyData<'a> {
    pub data: &'a [u8],
}

impl<'a> Message for CopyData<'a> {
    open spec fn wire_ok(&self) -> bool {
        frame_fits(self.data@)
    }

    open spec fn wire(&self) -> Seq<u8> {
        framed(100u8, self.data@)
    }

    open spec fn wire_err(&self) -> PgError {
        PgError::ValueTooLarge
    }

    fn write(&self, buf: &mut Vec<u8>) -> (r: Result<(), PgError>) {
        let base = begin_frame(100, buf);
        buf.extend_from_slice(self.data);
        let ghost pre = buf@;
        match finish_frame(buf, base) {
            Ok(()) => {},
            Err(e) => {
                assert(buf@.subrange(0, old(buf)@.len() as int) =~= old(buf)@);
                return Err(e);
            },
        }
        proof {
            assert(pre.subrange(0, base as int) =~= old(buf)@ + seq![100u8]);
            assert(pre.subrange(base as int + 4, pre.len() as int) =~= self.data@);
            assert(buf@ =~= old(buf)@ + self.wire());
        }
        Ok(())
    }
}

/// The `Describe` message: a statement (`S`) or portal (`P`) selector and
/// a c-string name under tag `D`.
pub struct Describe<'a> {
    pub variant: u8,
    pub name: &'a str,
}

impl<'a> Message for Describe<'a> {
    open spec fn wire_ok(&self) -> bool {
        !encode_utf8(self.name@).contains(0u8) && frame_fits(
            seq![self.variant] + cstr_bytes(encode_utf8(self.name@)),
        )
    }

    open spec fn wire(&self) -> Seq<u8> {
        framed(68u8, seq![self.variant] + cstr_bytes(encode_utf8(self.name@)))
    }

    open spec fn wire_err(&self) -> PgError {
        if encode_utf8(self.name@).contains(0u8) {
            PgError::EmbeddedNul
        } else {
            PgError::ValueTooLarge
        }
    }

    fn write(&self, buf: &mut Vec<u8>) -> (r: Result<(), PgError>) {
        let base = begin_frame(68, buf);
        buf.push(self.variant);
        match write_cstr(self.name, buf) {
            Ok(()) => {},
            Err(e) => {
                assert(buf@.subrange(0, old(buf)@.len() as int) =~= old(buf)@);
                return Err(e);
            },
        }
        let ghost body = seq![self.variant] + cstr_bytes(encode_utf8(self.name@));
        let ghost pre = buf@;
        match finish_frame(buf, base) {
            Ok(()) => {},
            Err(e) => {
                assert(buf@.subrange(0, old(buf)@.len() as int) =~= old(buf)@);
                return Err(e);
            },
        }
        proof {
            assert(pre.subrange(0, base as int) =~= old(buf)@ + seq![68u8]);
            assert(pre.subrange(base as int + 4, pre.len() as int) =~= body);
            assert(buf@ =~= old(buf)@ + self.wire());
        }
        Ok(())
    }
}

/// The `Execute` message: a c-string portal name and a row limit under
/// tag `E`.
pub struct Execute<'a> {
    pub portal: &'a str,
    pub max_rows: i32,
}

impl<'a> Message for Execute<'a> {
    open spec fn wire_ok(&self) -> bool {
        !encode_utf8(self.portal@).contains(0u8) && frame_fits(
            cstr_bytes(encode_utf8(self.portal@)) + be_i32(self.max_rows),
        )
    }

    open spec fn wire(&self) -> Seq<u8> {
        framed(69u8, cstr_bytes(encode_utf8(self.portal@)) + be_i32(self.max_rows))
    }

    open spec fn wire_err(&self) -> PgError {
        if encode_utf8(self.portal@).contains(0u8) {
            PgError::EmbeddedNul
        } else {
            PgError::ValueTooLarge
        }
    }

    fn write(&self, buf: &mut Vec<u8>) -> (r: Result<(), PgError>) {
        let base = begin_frame(69, buf);
        match write_cstr(self.portal, buf) {
            Ok(()) => {},
            Err(e) => {
                assert(buf@.subrange(0, old(buf)@.len() as int) =~= old(buf)@);
                return Err(e);
            },
        }
        write_i32_be(self.max_rows, buf);
        let ghost body = cstr_bytes(encode_utf8(self.portal@)) + be_i32(self.max_rows);
        let ghost pre = buf@;
        match finish_frame(buf, base) {
            Ok(()) => {},
            Err(e) => {
                assert(buf@.subrange(0, old(buf)@.len() as int) =~= old(buf)@);
                return Err(e);
            },
        }
        proof {
            assert(pre.subrange(0, base as int) =~= old(buf)@ + seq![69u8]);
            assert(pre.subrange(base as int + 4, pre.len() as int) =~= body);
            assert(buf@ =~= old(buf)@ + self.wire());
        }
        Ok(())
    }
}

/// The `Parse` message: a statement name, a query text, and the declared
/// parameter types under tag `P`.
pub struct Parse<'a> {
    pub name: &'a str,
    pub query: &'a str,
    pub param_types: &'a [Oid],
}

impl<'a> Message for Parse<'a> {
    open spec fn wire_ok(&self) -> bool {
        &&& !encode_utf8(self.name@).contains(0u8)
        &&& !encode_utf8(self.query@).contains(0u8)
        &&& self.param_types@.len() <= 0x7fff
        &&& frame_fits(
            cstr_bytes(encode_utf8(self.name@)) + cstr_bytes(encode_utf8(self.query@)) + be_u16(
                self.param_types@.len() as u16,
            ) + oids_bytes(self.param_types@),
        )
    }

    open spec fn wire(&self) -> Seq<u8> {
        framed(
            80u8,
            cstr_bytes(encode_utf8(self.name@)) + cstr_bytes(encode_utf8(self.query@)) + be_u16(
                self.param_types@.len() as u16,
            ) + oids_bytes(self.param_types@),
        )
    }

    open spec fn wire_err(&self) -> PgError {
        if encode_utf8(self.name@).contains(0u8) || encode_utf8(self.query@).contains(0u8) {
            PgError::EmbeddedNul
        } else {
            PgError::ValueTooLarge
        }
    }

    fn write(&self, buf: &mut Vec<u8>) -> (r: Result<(), PgError>) {
        let base = begin_frame(80, buf);
        match write_cstr(self.name, buf) {
            Ok(()) => {},
            Err(e) => {
                assert(buf@.subrange(0, old(buf)@.len() as int) =~= old(buf)@);
                return Err(e);
            },
        }
        match write_cstr(self.query, buf) {
            Ok(()) => {},
            Err(e) => {
                assert(buf@.subrange(0, old(buf)@.len() as int) =~= old(buf)@);
                return Err(e);
            },
        }
        let n = self.param_types.len();
        if n > 0x7fff {
            assert(buf@.subrange(0, old(buf)@.len() as int) =~= old(buf)@);
            return Err(PgError::ValueTooLarge);
        }
        write_u16_be(n as u16, buf);
        let ghost before_oids = buf@;
        let mut i: usize = 0;
        while i < n
            invariant
                i <= n,
                n == self.param_types@.len(),
                buf@ == before_oids + oids_bytes(self.param_types@.take(i as int)),
            decreases n - i,
        {
            write_u32_be(self.param_types[i], buf);
            proof {
                lemma_concat_map_take_snoc(self.param_types@, |v: Oid| be_u32(v), i as int);
                assert(buf@ =~= before_oids + oids_bytes(self.param_types@.take(i + 1)));
            }
            i += 1;
        }
        proof {
            assert(self.param_types@.take(n as int) =~= self.param_types@);
        }
        let ghost body = cstr_bytes(encode_utf8(self.name@)) + cstr_bytes(
            encode_utf8(self.query@),
        ) + be_u16(n as u16) + oids_bytes(self.param_types@);
        let ghost pre = buf@;
        proof {
            assert(pre.subrange(base as int + 4, pre.len() as int) =~= body);
        }
        match finish_frame(buf, base) {
            Ok(()) => {},
            Err(e) => {
                assert(buf@.subrange(0, old(buf)@.len() as int) =~= old(buf)@);
                return Err(e);
            },
        }
        proof {
            assert(pre.subrange(0, base as int) =~= old(buf)@ + seq![80u8]);
            assert(buf@ =~= old(buf)@ + self.wire());
        }
        Ok(())
    }
}

/// The `SslRequest` message: the SSL magic number in an untagged frame.
pub struct SslRequest;

impl Message for SslRequest {
    open spec fn wire_ok(&self) -> bool {
        true
    }

    open spec fn wire(&self) -> Seq<u8> {
        be_u32(8u32) + be_i32(80877103i32)
    }

    open spec fn wire_err(&self) -> PgError {
        PgError::ValueTooLarge
    }

    fn write(&self, buf: &mut Vec<u8>) -> (r: Result<(), PgError>) {
        let base = begin_untagged_frame(buf);
        write_i32_be(80877103, buf);
        let ghost pre = buf@;
        match finish_frame(buf, base) {
            Ok(()) => {},
            Err(_) => {
                proof {
                    assert(false);
                }
                return Err(PgError::ValueTooLarge);
            },
        }
        proof {
            assert(pre.subrange(0, base as int) =~= old(buf)@);
            assert(pre.subrange(base as int + 4, pre.len() as int) =~= be_i32(80877103i32));
            assert(buf@ =~= old(buf)@ + self.wire());
        }
        Ok(())
    }
}

/// The `StartupMessage` message: the protocol number and the c-string
/// parameter pairs, zero-terminated, in an untagged frame.
pub struct StartupMessage<'a> {
    pub parameters: &'a [(String, String)],
}

impl<'a> StartupMessage<'a> {
    /// Whether no parameter name or value holds an interior zero byte.
    pub open spec fn params_clean(&self) -> bool {
        forall|i: int|
            0 <= i < self.parameters@.len() ==> !(#[trigger] encode_utf8(
                self.parameters@[i].0@,
            )).contains(0u8) && !encode_utf8(self.parameters@[i].1@).contains(0u8)
    }
}

impl<'a> Message for StartupMessage<'a> {
    open spec fn wire_ok(&self) -> bool {
        self.params_clean() && frame_fits(
            be_i32(196608i32) + params_bytes(self.parameters@) + seq![0u8],
        )
    }

    open spec fn wire(&self) -> Seq<u8> {
        crate::primitives::frame_bytes(be_i32(196608i32) + params_bytes(self.parameters@) + seq![0u8])
    }

    open spec fn wire_err(&self) -> PgError {
        if !self.params_clean() {
            PgError::EmbeddedNul
        } else {
            PgError::ValueTooLarge
        }
    }

    fn write(&self, buf: &mut Vec<u8>) -> (r: Result<(), PgError>) {
        let base = begin_untagged_frame(buf);
        write_i32_be(196608, buf);
        let ghost with_proto = buf@;
        let n = self.parameters.len();
        let mut i: usize = 0;
        while i < n
            invariant
                i <= n,
                n == self.parameters@.len(),
                buf@ == with_proto + params_bytes(self.parameters@.take(i as int)),
                forall|j: int|
                    0 <= j < i ==> !(#[trigger] encode_utf8(
                        self.parameters@[j].0@,
                    )).contains(0u8) && !encode_utf8(self.parameters@[j].1@).contains(0u8),
                with_proto.subrange(0, old(buf)@.len() as int) == old(buf)@,
                with_proto.len() >= old(buf)@.len(),
            decreases n - i,
        {
            let ghost prev = buf@;
            let p = &self.parameters[i];
            match write_cstr(p.0.as_str(), buf) {
                Ok(()) => {},
                Err(e) => {
                    assert(!self.params_clean());
                    assert(buf@.subrange(0, old(buf)@.len() as int) =~= old(buf)@);
                    return Err(e);
                },
            }
            match write_cstr(p.1.as_str(), buf) {
                Ok(()) => {},
                Err(e) => {
                    assert(!self.params_clean());
                    assert(buf@.subrange(0, old(buf)@.len() as int) =~= old(buf)@);
                    return Err(e);
                },
            }
            proof {
                lemma_concat_map_take_snoc(
                    self.parameters@,
                    |p: (String, String)|
                        cstr_bytes(encode_utf8(p.0@)) + cstr_bytes(encode_utf8(p.1@)),
                    i as int,
                );
                assert(buf@ =~= with_proto + params_bytes(self.parameters@.take(i + 1)));
                assert(!encode_utf8(self.parameters@[i as int].0@).contains(0u8));
                assert(!encode_utf8(self.parameters@[i as int].1@).contains(0u8));
            }
            i += 1;
        }
        proof {
            assert(self.parameters@.take(n as int) =~= self.parameters@);
            assert(buf@ =~= with_proto + params_bytes(self.parameters@));
            assert(self.params_clean());
        }
        buf.push(0);
        let ghost body = be_i32(196608i32) + params_bytes(self.parameters@) + seq![0u8];
        let ghost pre = buf@;
        proof {
            assert(pre.subrange(base as int + 4, pre.len() as int) =~= body);
        }
        match finish_frame(buf, base) {
            Ok(()) => {},
            Err(e) => {
                assert(buf@.subrange(0, old(buf)@.len() as int) =~= old(buf)@);
                return Err(e);
            },
        }
        proof {
            assert(frame_fits(body));
            assert(pre.subrange(0, base as int) =~= old(buf)@);
            assert(buf@ =~= old(buf)@ + crate::primitives::frame_bytes(body));
            assert(buf@ =~= old(buf)@ + self.wire());
        }
        Ok(())
    }
}

/// The `Flush` message: an empty framed body under tag `H`.
pub struct Flush;

impl Message for Flush {
    open spec fn wire_ok(&self) -> bool {
        true
    }

    open spec fn wire(&self) -> Seq<u8> {
        framed(72u8, Seq::empty())
    }

    open spec fn wire_err(&self) -> PgError {
        PgError::ValueTooLarge
    }

    fn write(&self, buf: &mut Vec<u8>) -> (r: Result<(), PgError>) {
        let base = begin_frame(72, buf);
        let ghost pre = buf@;
        match finish_frame(buf, base) {
            Ok(()) => {},
            Err(_) => {
                proof {
                    assert(false);
                }
                return Err(PgError::ValueTooLarge);
            },
        }
        proof {
            assert(pre.subrange(0, base as int) =~= old(buf)@ + seq![72u8]);
            assert(pre.subrange(base as int + 4, pre.len() as int) =~= Seq::<u8>::empty());
            assert(buf@ =~= old(buf)@ + self.wire());
        }
        Ok(())
    }
}

/// The `Sync` message: an empty framed body under tag `S`.
pub struct Sync;

impl Message for Sync {
    open spec fn wire_ok(&self) -> bool {
        true
    }

    open spec fn wire(&self) -> Seq<u8> {
        framed(83u8, Seq::empty())
    }

    open spec fn wire_err(&self) -> PgError {
        PgError::ValueTooLarge
    }

    fn write(&self, buf: &mut Vec<u8>) -> (r: Result<(), PgError>) {
        let base = begin_frame(83, buf);
        let ghost pre = buf@;
        match finish_frame(buf, base) {
            Ok(()) => {},
            Err(_) => {
                proof {
                    assert(false);
                }
                return Err(PgError::ValueTooLarge);
            },
        }
        proof {
            assert(pre.subrange(0, base as int) =~= old(buf)@ + seq![83u8]);
            assert(pre.subrange(base as int + 4, pre.len() as int) =~= Seq::<u8>::empty());
            assert(buf@ =~= old(buf)@ + self.wire());
        }
        Ok(())
    }
}

/// The `Terminate` message: an empty framed body under tag `X`.
pub struct Terminate;

impl Message for Terminate {
    open spec fn wire_ok(&self) -> bool {
        true
    }

    open spec fn wire(&self) -> Seq<u8> {
        framed(88u8, Seq::empty())
    }

    open spec fn wire_err(&self) -> PgError {
        PgError::ValueTooLarge
    }

    fn write(&self, buf: &mut Vec<u8>) -> (r: Result<(), PgError>) {
        let base = begin_frame(88, buf);
        let ghost pre = buf@;
        match finish_frame(buf, base) {
            Ok(()) => {},
            Err(_) => {
                proof {
                    assert(false);
                }
                return Err(PgError::ValueTooLarge);
            },
        }
        proof {
            assert(pre.subrange(0, base as int) =~= old(buf)@ + seq![88u8]);
            assert(pre.subrange(base as int + 4, pre.len() as int) =~= Seq::<u8>::empty());
            assert(buf@ =~= old(buf)@ + self.wire());
        }
        Ok(())
    }
}

/// Appends a `CancelRequest` message: the cancel magic number, the target
/// backend's process id, and its cancellation key, in an untagged frame.
pub fn cancel_request(process_id: i32, secret_key: i32, buf: &mut Vec<u8>)
    ensures
        final(buf)@ == old(buf)@ + be_u32(16u32) + be_i32(80877102i32) + be_i32(process_id)
            + be_i32(secret_key),
{
    write_u32_be(16, buf);
    write_i32_be(80877102, buf);
    write_i32_be(process_id, buf);
    write_i32_be(secret_key, buf);
    assert(buf@ =~= old(buf)@ + be_u32(16u32) + be_i32(80877102i32) + be_i32(process_id) + be_i32(
        secret_key,
    ));
}

/// Appends a `Close` message under tag `C`: a statement (`S`) or portal
/// (`P`) selector and a c-string name; fails with `EmbeddedNul` when the
/// name holds an interior zero byte, or `ValueTooLarge` when the frame
/// would not fit its length field.
pub fn close(variant: u8, name: &str, buf: &mut Vec<u8>) -> (r: Result<(), PgError>)
    ensures
        match r {
            Ok(()) => !encode_utf8(name@).contains(0u8) && frame_fits(
                seq![variant] + cstr_bytes(encode_utf8(name@)),
            ) && final(buf)@ == old(buf)@ + framed(
                67u8,
                seq![variant] + cstr_bytes(encode_utf8(name@)),
            ),
            Err(e) => {
                &&& !(!encode_utf8(name@).contains(0u8) && frame_fits(
                    seq![variant] + cstr_bytes(encode_utf8(name@)),
                ))
                &&& e == (if encode_utf8(name@).contains(0u8) {
                    PgError::EmbeddedNul
                } else {
                    PgError::ValueTooLarge
                })
                &&& final(buf)@.subrange(0, old(buf)@.len() as int) == old(buf)@
            },
        },
{
    let base = begin_frame(67, buf);
    buf.push(variant);
    match write_cstr(name, buf) {
        Ok(()) => {},
        Err(e) => {
            assert(buf@.subrange(0, old(buf)@.len() as int) =~= old(buf)@);
            return Err(e);
        },
    }
    let ghost body = seq![variant] + cstr_bytes(encode_utf8(name@));
    let ghost pre = buf@;
    match finish_frame(buf, base) {
        Ok(()) => {},
        Err(e) => {
            assert(buf@.subrange(0, old(buf)@.len() as int) =~= old(buf)@);
            return Err(e);
        },
    }
    proof {
        assert(pre.subrange(0, base as int) =~= old(buf)@ + seq![67u8]);
        assert(pre.subrange(base as int + 4, pre.len() as int) =~= body);
        assert(buf@ =~= old(buf)@ + framed(67u8, body));
    }
    Ok(())
}

/// Appends a `CopyDone` message under tag `c`: an empty framed body.
pub fn copy_done(buf: &mut Vec<u8>)
    ensures
        final(buf)@ == old(buf)@ + framed(99u8, Seq::empty()),
{
    let base = begin_frame(99, buf);
    let ghost pre = buf@;
    match finish_frame(buf, base) {
        Ok(()) => {},
        Err(_) => {
            proof {
                assert(false);
            }
        },
    }
    proof {
        assert(pre.subrange(0, base as int) =~= old(buf)@ + seq![99u8]);
        assert(pre.subrange(base as int + 4, pre.len() as int) =~= Seq::<u8>::empty());
        assert(buf@ =~= old(buf)@ + framed(99u8, Seq::empty()));
    }
}

/// Appends a `CopyFail` message under tag `f`: a c-string error message;
/// fails with `EmbeddedNul` when the message holds an interior zero byte,
/// or `ValueTooLarge` when the frame would not fit its length field.
pub fn copy_fail(message: &str, buf: &mut Vec<u8>) -> (r: Result<(), PgError>)
    ensures
        match r {
            Ok(()) => !encode_utf8(message@).contains(0u8) && frame_fits(
                cstr_bytes(encode_utf8(message@)),
            ) && final(buf)@ == old(buf)@ + framed(102u8, cstr_bytes(encode_utf8(message@))),
            Err(e) => {
                &&& !(!encode_utf8(message@).contains(0u8) && frame_fits(
                    cstr_bytes(encode_utf8(message@)),
                ))
                &&& e == (if encode_utf8(message@).contains(0u8) {
                    PgError::EmbeddedNul
                } else {
                    PgError::ValueTooLarge
                })
                &&& final(buf)@.subrange(0, old(buf)@.len() as int) == old(buf)@
            },
        },
{
    let base = begin_frame(102, buf);
    match write_cstr(message, buf) {
        Ok(()) => {},
        Err(e) => {
            assert(buf@.subrange(0, old(buf)@.len() as int) =~= old(buf)@);
            return Err(e);
        },
    }
    let ghost body = cstr_bytes(encode_utf8(message@));
    let ghost pre = buf@;
    match finish_frame(buf, base) {
        Ok(()) => {},
        Err(e) => {
            assert(buf@.subrange(0, old(buf)@.len() as int) =~= old(buf)@);
            return Err(e);
        },
    }
    proof {
        assert(pre.subrange(0, base as int) =~= old(buf)@ + seq![102u8]);
        assert(pre.subrange(base as int + 4, pre.len() as int) =~= body);
        assert(buf@ =~= old(buf)@ + framed(102u8, body));
    }
    Ok(())
}

/// An error reported while serializing a `Bind` message.
#[derive(Clone, Copy, Debug, PartialEq, Eq, Structural)]
pub enum BindError {
    /// A parameter value could not be converted for transmission.
    Conversion(PgError),
    /// The message itself could not be serialized.
    Serialization(PgError),
}

/// The body of a `Bind` message: the portal and statement names, the
/// parameter format codes, the framed parameter values, and the result
/// format codes, each run prefixed by its 16-bit count.
pub open spec fn bind_body(
    portal: Seq<char>,
    statement: Seq<char>,
    formats: Seq<i16>,
    values: Seq<Option<Vec<u8>>>,
    result_formats: Seq<i16>,
) -> Seq<u8> {
    cstr_bytes(encode_utf8(portal)) + cstr_bytes(encode_utf8(statement)) + be_u16(
        formats.len() as u16,
    ) + i16s_bytes(formats) + be_u16(values.len() as u16) + values_bytes(values) + be_u16(
        result_formats.len() as u16,
    ) + i16s_bytes(result_formats)
}

/// Whether a `Bind` message's names are free of interior zero bytes and
/// every count and length fits its wire width.
pub open spec fn bind_ok(
    portal: Seq<char>,
    statement: Seq<char>,
    formats: Seq<i16>,
    values: Seq<Option<Vec<u8>>>,
    result_formats: Seq<i16>,
) -> bool {
    &&& !encode_utf8(portal).contains(0u8)
    &&& !encode_utf8(statement).contains(0u8)
    &&& formats.len() <= 0x7fff
    &&& values.len() <= 0x7fff
    &&& result_formats.len() <= 0x7fff
    &&& forall|i: int|
        0 <= i < values.len() ==> (#[trigger] values[i] matches Some(p) ==> p@.len() <= 0x7fffffff)
    &&& frame_fits(bind_body(portal, statement, formats, values, result_formats))
}

/// Appends a `Bind` message under tag `B` from the portal and statement
/// names, the format codes, and the already-encoded parameter values
/// (`None` for SQL NULL). Fails with `EmbeddedNul` when a name holds an
/// interior zero byte, and with `ValueTooLarge` when a count, a value, or
/// the whole frame exceeds its wire width; on failure the bytes that were
/// already in the buffer are unchanged.
pub fn bind(
    portal: &str,
    statement: &str,
    formats: &[i16],
    values: &[Option<Vec<u8>>],
    result_formats: &[i16],
    buf: &mut Vec<u8>,
) -> (r: Result<(), BindError>)
    ensures
        match r {
            Ok(()) => bind_ok(portal@, statement@, formats@, values@, result_formats@)
                && final(buf)@ == old(buf)@ + framed(
                66u8,
                bind_body(portal@, statement@, formats@, values@, result_formats@),
            ),
            Err(e) => {
                &&& !bind_ok(portal@, statement@, formats@, values@, result_formats@)
                &&& e == BindError::Serialization(
                    if encode_utf8(portal@).contains(0u8) || encode_utf8(statement@).contains(
                        0u8,
                    ) {
                        PgError::EmbeddedNul
                    } else {
                        PgError::ValueTooLarge
                    },
                )
                &&& final(buf)@.subrange(0, old(buf)@.len() as int) == old(buf)@
            },
        },
{
    let base = begin_frame(66, buf);
    match write_cstr(portal, buf) {
        Ok(()) => {},
        Err(e) => {
            assert(buf@.subrange(0, old(buf)@.len() as int) =~= old(buf)@);
            return Err(BindError::Serialization(e));
        },
    }
    match write_cstr(statement, buf) {
        Ok(()) => {},
        Err(e) => {
            assert(buf@.subrange(0, old(buf)@.len() as int) =~= old(buf)@);
            return Err(BindError::Serialization(e));
        },
    }
    match write_counted_i16s(formats, buf) {
        Ok(()) => {},
        Err(e) => {
            assert(buf@.subrange(0, old(buf)@.len() as int) =~= old(buf)@);
            return Err(BindError::Serialization(e));
        },
    }
    match write_counted_values(values, buf) {
        Ok(()) => {},
        Err(e) => {
            assert(buf@.subrange(0, old(buf)@.len() as int) =~= old(buf)@);
            return Err(BindError::Serialization(e));
        },
    }
    match write_counted_i16s(result_formats, buf) {
        Ok(()) => {},
        Err(e) => {
            assert(buf@.subrange(0, old(buf)@.len() as int) =~= old(buf)@);
            return Err(BindError::Serialization(e));
        },
    }
    let ghost body = bind_body(portal@, statement@, formats@, values@, result_formats@);
    let ghost pre = buf@;
    proof {
        assert(pre.subrange(base as int + 4, pre.len() as int) =~= body);
    }
    match finish_frame(buf, base) {
        Ok(()) => {},
        Err(e) => {
            assert(buf@.subrange(0, old(buf)@.len() as int) =~= old(buf)@);
            return Err(BindError::Serialization(e));
        },
    }
    proof {
        assert(pre.subrange(0, base as int) =~= old(buf)@ + seq![66u8]);
        assert(buf@ =~= old(buf)@ + framed(66u8, body));
    }
    Ok(())
}

/// Appends a 16-bit count followed by the format codes it counts; fails
/// with `ValueTooLarge`, leaving the buffer unchanged, exactly when the
/// count exceeds its wire width.
fn write_counted_i16s(items: &[i16], buf: &mut Vec<u8>) -> (r: Result<(), PgError>)
    ensures
        match r {
            Ok(()) => items@.len() <= 0x7fff && final(buf)@ == old(buf)@ + be_u16(
                items@.len() as u16,
            ) + i16s_bytes(items@),
            Err(e) => e == PgError::ValueTooLarge && items@.len() > 0x7fff && final(buf)@ == old(
                buf,
            )@,
        },
{
    let n = items.len();
    if n > 0x7fff {
        return Err(PgError::ValueTooLarge);
    }
    write_u16_be(n as u16, buf);
    let ghost before = buf@;
    let mut i: usize = 0;
    while i < n
        invariant
            i <= n,
            n == items@.len(),
            buf@ == before + i16s_bytes(items@.take(i as int)),
        decreases n - i,
    {
        write_i16_be(items[i], buf);
        proof {
            lemma_concat_map_take_snoc(items@, |v: i16| be_i16(v), i as int);
            assert(buf@ =~= before + i16s_bytes(items@.take(i + 1)));
        }
        i += 1;
    }
    proof {
        assert(items@.take(n as int) =~= items@);
        assert(buf@ =~= old(buf)@ + be_u16(n as u16) + i16s_bytes(items@));
    }
    Ok(())
}

/// Appends a 16-bit count followed by the framed parameter values it
/// counts; fails with `ValueTooLarge` when the count or a value's length
/// exceeds its wire width. On a count failure the buffer is unchanged; on
/// a value failure the bytes that were already in the buffer are
/// unchanged, though some values may have been appended after them.
fn write_counted_values(values: &[Option<Vec<u8>>], buf: &mut Vec<u8>) -> (r: Result<(), PgError>)
    ensures
        match r {
            Ok(()) => values@.len() <= 0x7fff && (forall|i: int|
                0 <= i < values@.len() ==> (#[trigger] values@[i] matches Some(p) ==> p@.len()
                    <= 0x7fffffff)) && final(buf)@ == old(buf)@ + be_u16(values@.len() as u16)
                + values_bytes(values@),
            Err(e) => {
                &&& e == PgError::ValueTooLarge
                &&& !(values@.len() <= 0x7fff && (forall|i: int|
                    0 <= i < values@.len() ==> (#[trigger] values@[i] matches Some(p) ==> p@.len()
                        <= 0x7fffffff)))
                &&& final(buf)@.subrange(0, old(buf)@.len() as int) == old(buf)@
                &&& final(buf)@.len() >= old(buf)@.len()
            },
        },
{
    let n = values.len();
    if n > 0x7fff {
        assert(buf@.subrange(0, buf@.len() as int) =~= buf@);
        return Err(PgError::ValueTooLarge);
    }
    write_u16_be(n as u16, buf);
    let ghost before = buf@;
    let mut i: usize = 0;
    while i < n
        invariant
            i <= n,
            n <= 0x7fff,
            n == values@.len(),
            buf@ == before + values_bytes(values@.take(i as int)),
            before == old(buf)@ + be_u16(n as u16),
            forall|j: int|
                0 <= j < i ==> (#[trigger] values@[j] matches Some(p) ==> p@.len() <= 0x7fffffff),
        decreases n - i,
    {
        let o = match &values[i] {
            Some(v) => Some(v),
            None => None,
        };
        match write_nullable_bytes(o, buf) {
            Ok(()) => {},
            Err(e) => {
                assert(values@[i as int] matches Some(p) && p@.len() > 0x7fffffff);
                assert(buf@.subrange(0, old(buf)@.len() as int) =~= old(buf)@);
                return Err(e);
            },
        }
        proof {
            assert(values@[i as int] matches Some(p) ==> p@.len() <= 0x7fffffff);
        }
        proof {
            lemma_concat_map_take_snoc(
                values@,
                |v: Option<Vec<u8>>|
                    match v {
                        Some(p) => nullable_bytes(Some(p@)),
                        None => nullable_bytes(None),
                    },
                i as int,
            );
            assert(buf@ =~= before + values_bytes(values@.take(i + 1)));
        }
        i += 1;
    }
    proof {
        assert(values@.take(n as int) =~= values@);
    }
    Ok(())
}

} // verus!
