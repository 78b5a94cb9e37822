//! The streaming backend-message parser.
//!
//! [`Message::parse`] reads at most one complete message from the front of
//! a caller-supplied byte slice. It never reads past the slice, never
//! allocates, reports exactly how many bytes the message occupied, and
//! returns an `Incomplete` outcome when the slice does not yet hold a whole
//! frame. Repeating substructures (row values, column formats, parameter
//! types, error fields, row-description fields) are exposed as fallible
//! cursors that borrow from the same slice.
//!
//! The behaviour of the parser is captured by the total specification
//! function [`spec_parse`]; the executable parser is proved to agree with
//! it on every input.
use vstd::prelude::*;

use crate::Oid;
use crate::error::PgError;
use crate::primitives::{
    be_i16_val, be_i32_val, be_u16_val, be_u32_val, nul_pos, nullable_value_step, read_cstr,
    read_i16_be, read_i32_be, read_u16_be, read_u32_be, ValueStep,
};
use vstd::utf8::{decode_utf8, valid_utf8};

verus! {

// ===== The specification-level model =====

/// The specification-level value of one backend message.
pub enum SpecMessage {
    AuthenticationCleartextPassword,
    AuthenticationGss,
    AuthenticationKerberosV5,
    AuthenticationMd5Password { salt: Seq<u8> },
    AuthenticationOk,
    AuthenticationScmCredential,
    AuthenticationSspi,
    BackendKeyData { process_id: i32, secret_key: i32 },
    BindComplete,
    CloseComplete,
    CommandComplete { tag: Seq<char> },
    CopyData { data: Seq<u8> },
    CopyDone,
    CopyInResponse { format: u8, len: u16, body: Seq<u8> },
    CopyOutResponse { format: u8, len: u16, body: Seq<u8> },
    DataRow { len: u16, body: Seq<u8> },
    EmptyQueryResponse,
    ErrorResponse { body: Seq<u8> },
    NoData,
    NoticeResponse { body: Seq<u8> },
    NotificationResponse { process_id: i32, channel: Seq<char>, message: Seq<char> },
    ParameterDescription { len: u16, body: Seq<u8> },
    ParameterStatus { name: Seq<char>, value: Seq<char> },
    ParseComplete,
    PortalSuspended,
    ReadyForQuery { status: u8 },
    RowDescription { len: u16, body: Seq<u8> },
    ForExtensibility,
}

/// The specification-level outcome of one parse attempt.
pub enum SpecParseOutcome {
    Complete { message: SpecMessage, consumed: int },
    Incomplete { required: Option<int> },
    Error { err: PgError },
}

/// The c-string at the front of `b`: its decoded payload and the bytes
/// after the terminator.
pub open spec fn spec_cstr(b: Seq<u8>) -> Result<(Seq<char>, Seq<u8>), PgError> {
    match nul_pos(b) {
        None => Err(PgError::UnexpectedEof),
        Some(i) => {
            if valid_utf8(b.subrange(0, i)) {
                Ok((decode_utf8(b.subrange(0, i)), b.subrange(i + 1, b.len() as int)))
            } else {
                Err(PgError::InvalidUtf8)
            }
        },
    }
}

/// Completes with `m` when the body is exhausted, the required shape of
/// every message kind that carries no trailing payload.
pub open spec fn spec_empty_body(m: SpecMessage, body: Seq<u8>, consumed: int) -> SpecParseOutcome {
    if body.len() == 0 {
        SpecParseOutcome::Complete { message: m, consumed }
    } else {
        SpecParseOutcome::Error { err: PgError::InvalidMessageLength }
    }
}

/// The outcome of an authentication message, switching on its subcode.
pub open spec fn spec_auth(body: Seq<u8>, consumed: int) -> SpecParseOutcome {
    if body.len() < 4 {
        SpecParseOutcome::Error { err: PgError::UnexpectedEof }
    } else {
        let code = be_i32_val(body.subrange(0, 4));
        let rest = body.subrange(4, body.len() as int);
        if code == 0 {
            spec_empty_body(SpecMessage::AuthenticationOk, rest, consumed)
        } else if code == 2 {
            spec_empty_body(SpecMessage::AuthenticationKerberosV5, rest, consumed)
        } else if code == 3 {
            spec_empty_body(SpecMessage::AuthenticationCleartextPassword, rest, consumed)
        } else if code == 5 {
            if rest.len() == 4 {
                SpecParseOutcome::Complete {
                    message: SpecMessage::AuthenticationMd5Password { salt: rest },
                    consumed,
                }
            } else {
                SpecParseOutcome::Error { err: PgError::InvalidMessageLength }
            }
        } else if code == 6 {
            spec_empty_body(SpecMessage::AuthenticationScmCredential, rest, consumed)
        } else if code == 7 {
            spec_empty_body(SpecMessage::AuthenticationGss, rest, consumed)
        } else if code == 9 {
            spec_empty_body(SpecMessage::AuthenticationSspi, rest, consumed)
        } else {
            SpecParseOutcome::Error { err: PgError::UnknownAuthTag(code) }
        }
    }
}

/// The outcome of dispatching a complete frame: `tag` selects the message
/// kind and `body` is validated against that kind's declared shape.
pub open spec fn spec_dispatch(tag: u8, body: Seq<u8>, consumed: int) -> SpecParseOutcome {
    if tag == 49 {  // '1'
        spec_empty_body(SpecMessage::ParseComplete, body, consumed)
    } else if tag == 50 {  // '2'
        spec_empty_body(SpecMessage::BindComplete, body, consumed)
    } else if tag == 51 {  // '3'
        spec_empty_body(SpecMessage::CloseComplete, body, consumed)
    } else if tag == 65 {  // 'A'
        if body.len() < 4 {
            SpecParseOutcome::Error { err: PgError::UnexpectedEof }
        } else {
            let process_id = be_i32_val(body.subrange(0, 4));
            match spec_cstr(body.subrange(4, body.len() as int)) {
                Err(e) => SpecParseOutcome::Error { err: e },
                Ok((channel, rest1)) => match spec_cstr(rest1) {
                    Err(e) => SpecParseOutcome::Error { err: e },
                    Ok((message, rest2)) => spec_empty_body(
                        SpecMessage::NotificationResponse { process_id, channel, message },
                        rest2,
                        consumed,
                    ),
                },
            }
        }
    } else if tag == 99 {  // 'c'
        spec_empty_body(SpecMessage::CopyDone, body, consumed)
    } else if tag == 67 {  // 'C'
        match spec_cstr(body) {
            Err(e) => SpecParseOutcome::Error { err: e },
            Ok((cmd, rest)) => spec_empty_body(
                SpecMessage::CommandComplete { tag: cmd },
                rest,
                consumed,
            ),
        }
    } else if tag == 100 {  // 'd'
        SpecParseOutcome::Complete { message: SpecMessage::CopyData { data: body }, consumed }
    } else if tag == 68 {  // 'D'
        if body.len() < 2 {
            SpecParseOutcome::Error { err: PgError::UnexpectedEof }
        } else {
            SpecParseOutcome::Complete {
                message: SpecMessage::DataRow {
                    len: be_u16_val(body.subrange(0, 2)),
                    body: body.subrange(2, body.len() as int),
                },
                consumed,
            }
        }
    } else if tag == 69 {  // 'E'
        SpecParseOutcome::Complete { message: SpecMessage::ErrorResponse { body }, consumed }
    } else if tag == 71 {  // 'G'
        if body.len() < 3 {
            SpecParseOutcome::Error { err: PgError::UnexpectedEof }
        } else {
            SpecParseOutcome::Complete {
                message: SpecMessage::CopyInResponse {
                    format: body[0],
                    len: be_u16_val(body.subrange(1, 3)),
                    body: body.subrange(3, body.len() as int),
                },
                consumed,
            }
        }
    } else if tag == 72 {  // 'H'
        if body.len() < 3 {
            SpecParseOutcome::Error { err: PgError::UnexpectedEof }
        } else {
            SpecParseOutcome::Complete {
                message: SpecMessage::CopyOutResponse {
                    format: body[0],
                    len: be_u16_val(body.subrange(1, 3)),
                    body: body.subrange(3, body.len() as int),
                },
                consumed,
            }
        }
    } else if tag == 73 {  // 'I'
        spec_empty_body(SpecMessage::EmptyQueryResponse, body, consumed)
    } else if tag == 75 {  // 'K'
        if body.len() < 8 {
            SpecParseOutcome::Error { err: PgError::UnexpectedEof }
        } else if body.len() > 8 {
            SpecParseOutcome::Error { err: PgError::InvalidMessageLength }
        } else {
            SpecParseOutcome::Complete {
                message: SpecMessage::BackendKeyData {
                    process_id: be_i32_val(body.subrange(0, 4)),
                    secret_key: be_i32_val(body.subrange(4, 8)),
                },
                consumed,
            }
        }
    } else if tag == 110 {  // 'n'
        spec_empty_body(SpecMessage::NoData, body, consumed)
    } else if tag == 78 {  // 'N'
        SpecParseOutcome::Complete { message: SpecMessage::NoticeResponse { body }, consumed }
    } else if tag == 82 {  // 'R'
        spec_auth(body, consumed)
    } else if tag == 115 {  // 's'
        spec_empty_body(SpecMessage::PortalSuspended, body, consumed)
    } else if tag == 83 {  // 'S'
        match spec_cstr(body) {
            Err(e) => SpecParseOutcome::Error { err: e },
            Ok((name, rest1)) => match spec_cstr(rest1) {
                Err(e) => SpecParseOutcome::Error { err: e },
                Ok((value, rest2)) => spec_empty_body(
                    SpecMessage::ParameterStatus { name, value },
                    rest2,
                    consumed,
                ),
            },
        }
    } else if tag == 116 {  // 't'
        if body.len() < 2 {
            SpecParseOutcome::Error { err: PgError::UnexpectedEof }
        } else {
            SpecParseOutcome::Complete {
                message: SpecMessage::ParameterDescription {
                    len: be_u16_val(body.subrange(0, 2)),
                    body: body.subrange(2, body.len() as int),
                },
                consumed,
            }
        }
    } else if tag == 84 {  // 'T'
        if body.len() < 2 {
            SpecParseOutcome::Error { err: PgError::UnexpectedEof }
        } else {
            SpecParseOutcome::Complete {
                message: SpecMessage::RowDescription {
                    len: be_u16_val(body.subrange(0, 2)),
                    body: body.subrange(2, body.len() as int),
                },
                consumed,
            }
        }
    } else if tag == 90 {  // 'Z'
        if body.len() < 1 {
            SpecParseOutcome::Error { err: PgError::UnexpectedEof }
        } else if body.len() > 1 {
            SpecParseOutcome::Error { err: PgError::InvalidMessageLength }
        } else {
            SpecParseOutcome::Complete {
                message: SpecMessage::ReadyForQuery { status: body[0] },
                consumed,
            }
        }
    } else {
        SpecParseOutcome::Error { err: PgError::UnknownTag(tag) }
    }
}

/// The total frame length declared by a header: the 32-bit length at
/// offset 1, which counts itself but not the tag byte, plus 1 for the tag.
pub open spec fn required_len(b: Seq<u8>) -> int
    recommends
        b.len() >= 5,
{
    be_u32_val(b.subrange(1, 5)) + 1
}

/// The outcome of parsing the front of `b`: fewer than 5 bytes give an
/// unsized `Incomplete`; a frame longer than the input gives a sized
/// `Incomplete`; a frame that fits is dispatched on its tag byte.
///
/// A declared frame too large for this platform's address space can never
/// be completed and is rejected; a declared length below the 4 bytes of
/// the length field itself is malformed.
pub open spec fn spec_parse(b: Seq<u8>) -> SpecParseOutcome {
    if b.len() < 5 {
        SpecParseOutcome::Incomplete { required: None }
    } else {
        let need = required_len(b);
        if b.len() < need {
            if need <= usize::MAX {
                SpecParseOutcome::Incomplete { required: Some(need) }
            } else {
                SpecParseOutcome::Error { err: PgError::ValueTooLarge }
            }
        } else if need < 5 {
            SpecParseOutcome::Error { err: PgError::InvalidMessageLength }
        } else {
            spec_dispatch(b[0], b.subrange(5, need), need)
        }
    }
}

// ===== The executable messages =====

/// A borrowed view of one backend message; body payloads reference the
/// parsed input slice.
pub enum Message<'a> {
    AuthenticationCleartextPassword,
    AuthenticationGss,
    AuthenticationKerberosV5,
    AuthenticationMd5Password(AuthenticationMd5PasswordBody<'a>),
    AuthenticationOk,
    AuthenticationScmCredential,
    AuthenticationSspi,
    BackendKeyData(BackendKeyDataBody<'a>),
    BindComplete,
    CloseComplete,
    CommandComplete(CommandCompleteBody<'a>),
    CopyData(CopyDataBody<'a>),
    CopyDone,
    CopyInResponse(CopyInResponseBody<'a>),
    CopyOutResponse(CopyOutResponseBody<'a>),
    DataRow(DataRowBody<'a>),
    EmptyQueryResponse,
    ErrorResponse(ErrorResponseBody<'a>),
    NoData,
    NoticeResponse(NoticeResponseBody<'a>),
    NotificationResponse(NotificationResponseBody<'a>),
    ParameterDescription(ParameterDescriptionBody<'a>),
    ParameterStatus(ParameterStatusBody<'a>),
    ParseComplete,
    PortalSuspended,
    ReadyForQuery(ReadyForQueryBody<'a>),
    RowDescription(RowDescriptionBody<'a>),
    /// Reserved so that adding a message kind is not a breaking change;
    /// the parser never produces it.
    __ForExtensibility,
}

/// The result of one parse attempt.
pub enum ParseResult<'a> {
    /// A whole message stood at the front of the input.
    Complete {
        /// The message.
        message: Message<'a>,
        /// How many input bytes the message occupied.
        consumed: usize,
    },
    /// The input does not yet hold a whole message.
    Incomplete {
        /// The total bytes a parse needs, known once 5 header bytes are in.
        required_size: Option<usize>,
    },
}

/// The body of an `AuthenticationMd5Password` message.
pub struct AuthenticationMd5PasswordBody<'a> {
    salt: [u8; 4],
    _p: core::marker::PhantomData<&'a [u8]>,
}

impl<'a> AuthenticationMd5PasswordBody<'a> {
    /// The salt the server delivered.
    pub closed spec fn spec_salt(&self) -> Seq<u8> {
        self.salt@
    }

    /// Returns the 4-byte salt.
    pub fn salt(&self) -> (r: [u8; 4])
        ensures
            r@ == self.spec_salt(),
    {
        self.salt
    }
}

/// The body of a `BackendKeyData` message.
pub struct BackendKeyDataBody<'a> {
    process_id: i32,
    secret_key: i32,
    _p: core::marker::PhantomData<&'a [u8]>,
}

impl<'a> BackendKeyDataBody<'a> {
    /// The backend's process id.
    pub closed spec fn spec_process_id(&self) -> i32 {
        self.process_id
    }

    /// The backend's cancellation key.
    pub closed spec fn spec_secret_key(&self) -> i32 {
        self.secret_key
    }

    /// Returns the backend's process id.
    pub fn process_id(&self) -> (r: i32)
        ensures
            r == self.spec_process_id(),
    {
        self.process_id
    }

    /// Returns the backend's cancellation key.
    pub fn secret_key(&self) -> (r: i32)
        ensures
            r == self.spec_secret_key(),
    {
        self.secret_key
    }
}

/// The body of a `CommandComplete` message.
pub struct CommandCompleteBody<'a> {
    tag: &'a str,
}

impl<'a> CommandCompleteBody<'a> {
    /// The command tag.
    pub closed spec fn spec_tag(&self) -> Seq<char> {
        self.tag@
    }

    /// Returns the command tag.
    pub fn tag(&self) -> (r: &'a str)
        ensures
            r@ == self.spec_tag(),
    {
        self.tag
    }
}

/// The body of a `CopyData` message.
pub struct CopyDataBody<'a> {
    data: &'a [u8],
}

impl<'a> CopyDataBody<'a> {
    /// The raw payload.
    pub closed spec fn spec_data(&self) -> Seq<u8> {
        self.data@
    }

    /// Returns the raw payload.
    pub fn data(&self) -> (r: &'a [u8])
        ensures
            r@ == self.spec_data(),
    {
        self.data
    }
}

/// The body of a `CopyInResponse` message.
pub struct CopyInResponseBody<'a> {
    format: u8,
    len: u16,
    buf: &'a [u8],
}

impl<'a> CopyInResponseBody<'a> {
    /// The overall copy format.
    pub closed spec fn spec_format(&self) -> u8 {
        self.format
    }

    /// The declared column count.
    pub closed spec fn spec_len(&self) -> u16 {
        self.len
    }

    /// The bytes holding the per-column formats.
    pub closed spec fn spec_buf(&self) -> Seq<u8> {
        self.buf@
    }

    /// Returns the overall copy format.
    pub fn format(&self) -> (r: u8)
        ensures
            r == self.spec_format(),
    {
        self.format
    }

    /// Returns a cursor over the per-column formats.
    pub fn column_formats(&self) -> (r: ColumnFormats<'a>)
        ensures
            r.spec_remaining() == self.spec_len() && r.spec_buf() == self.spec_buf(),
    {
        ColumnFormats { remaining: self.len, buf: self.buf }
    }
}

/// The body of a `CopyOutResponse` message.
pub struct CopyOutResponseBody<'a> {
    format: u8,
    len: u16,
    buf: &'a [u8],
}

impl<'a> CopyOutResponseBody<'a> {
    /// The overall copy format.
    pub closed spec fn spec_format(&self) -> u8 {
        self.format
    }

    /// The declared column count.
    pub closed spec fn spec_len(&self) -> u16 {
        self.len
    }

    /// The bytes holding the per-column formats.
    pub closed spec fn spec_buf(&self) -> Seq<u8> {
        self.buf@
    }

    /// Returns the overall copy format.
    pub fn format(&self) -> (r: u8)
        ensures
            r == self.spec_format(),
    {
        self.format
    }

    /// Returns a cursor over the per-column formats.
    pub fn column_formats(&self) -> (r: ColumnFormats<'a>)
        ensures
            r.spec_remaining() == self.spec_len() && r.spec_buf() == self.spec_buf(),
    {
        ColumnFormats { remaining: self.len, buf: self.buf }
    }
}

/// The body of a `DataRow` message.
pub struct DataRowBody<'a> {
    len: u16,
    buf: &'a [u8],
}

impl<'a> DataRowBody<'a> {
    /// The declared value count.
    pub closed spec fn spec_len(&self) -> u16 {
        self.len
    }

    /// The bytes holding the framed values.
    pub closed spec fn spec_buf(&self) -> Seq<u8> {
        self.buf@
    }

    /// Returns a cursor over the row's framed values.
    pub fn values(&self) -> (r: DataRowValues<'a>)
        ensures
            r.spec_remaining() == self.spec_len() && r.spec_buf() == self.spec_buf(),
    {
        DataRowValues { remaining: self.len, buf: self.buf }
    }
}

/// The body of an `ErrorResponse` message.
pub struct ErrorResponseBody<'a> {
    buf: &'a [u8],
}

impl<'a> ErrorResponseBody<'a> {
    /// The bytes holding the error fields.
    pub closed spec fn spec_buf(&self) -> Seq<u8> {
        self.buf@
    }

    /// Returns a cursor over the error fields.
    pub fn fields(&self) -> (r: ErrorFields<'a>)
        ensures
            r.spec_buf() == self.spec_buf(),
    {
        ErrorFields { buf: self.buf }
    }
}

/// The body of a `NoticeResponse` message.
pub struct NoticeResponseBody<'a> {
    buf: &'a [u8],
}

impl<'a> NoticeResponseBody<'a> {
    /// The bytes holding the notice fields.
    pub closed spec fn spec_buf(&self) -> Seq<u8> {
        self.buf@
    }

    /// Returns a cursor over the notice fields.
    pub fn fields(&self) -> (r: ErrorFields<'a>)
        ensures
            r.spec_buf() == self.spec_buf(),
    {
        ErrorFields { buf: self.buf }
    }
}

/// The body of a `NotificationResponse` message.
pub struct NotificationResponseBody<'a> {
    process_id: i32,
    channel: &'a str,
    message: &'a str,
}

impl<'a> NotificationResponseBody<'a> {
    /// The notifying backend's process id.
    pub closed spec fn spec_process_id(&self) -> i32 {
        self.process_id
    }

    /// The channel name.
    pub closed spec fn spec_channel(&self) -> Seq<char> {
        self.channel@
    }

    /// The notification payload.
    pub closed spec fn spec_message(&self) -> Seq<char> {
        self.message@
    }

    /// Returns the notifying backend's process id.
    pub fn process_id(&self) -> (r: i32)
        ensures
            r == self.spec_process_id(),
    {
        self.process_id
    }

    /// Returns the channel name.
    pub fn channel(&self) -> (r: &'a str)
        ensures
            r@ == self.spec_channel(),
    {
        self.channel
    }

    /// Returns the notification payload.
    pub fn message(&self) -> (r: &'a str)
        ensures
            r@ == self.spec_message(),
    {
        self.message
    }
}

/// The body of a `ParameterDescription` message.
pub struct ParameterDescriptionBody<'a> {
    len: u16,
    buf: &'a [u8],
}

impl<'a> ParameterDescriptionBody<'a> {
    /// The declared parameter count.
    pub closed spec fn spec_len(&self) -> u16 {
        self.len
    }

    /// The bytes holding the parameter type Oids.
    pub closed spec fn spec_buf(&self) -> Seq<u8> {
        self.buf@
    }

    /// Returns a cursor over the parameter type Oids.
    pub fn parameters(&self) -> (r: Parameters<'a>)
        ensures
            r.spec_remaining() == self.spec_len() && r.spec_buf() == self.spec_buf(),
    {
        Parameters { remaining: self.len, buf: self.buf }
    }
}

/// The body of a `ParameterStatus` message.
pub struct ParameterStatusBody<'a> {
    name: &'a str,
    value: &'a str,
}

impl<'a> ParameterStatusBody<'a> {
    /// The parameter's name.
    pub closed spec fn spec_name(&self) -> Seq<char> {
        self.name@
    }

    /// The parameter's value.
    pub closed spec fn spec_value(&self) -> Seq<char> {
        self.value@
    }

    /// Returns the parameter's name.
    pub fn name(&self) -> (r: &'a str)
        ensures
            r@ == self.spec_name(),
    {
        self.name
    }

    /// Returns the parameter's value.
    pub fn value(&self) -> (r: &'a str)
        ensures
            r@ == self.spec_value(),
    {
        self.value
    }
}

/// The body of a `ReadyForQuery` message.
pub struct ReadyForQueryBody<'a> {
    status: u8,
    _p: core::marker::PhantomData<&'a [u8]>,
}

impl<'a> ReadyForQueryBody<'a> {
    /// The transaction status byte.
    pub closed spec fn spec_status(&self) -> u8 {
        self.status
    }

    /// Returns the transaction status byte.
    pub fn status(&self) -> (r: u8)
        ensures
            r == self.spec_status(),
    {
        self.status
    }
}

/// The body of a `RowDescription` message.
pub struct RowDescriptionBody<'a> {
    len: u16,
    buf: &'a [u8],
}

impl<'a> RowDescriptionBody<'a> {
    /// The declared field count.
    pub closed spec fn spec_len(&self) -> u16 {
        self.len
    }

    /// The bytes holding the field descriptors.
    pub closed spec fn spec_buf(&self) -> Seq<u8> {
        self.buf@
    }

    /// Returns a cursor over the field descriptors.
    pub fn fields(&self) -> (r: Fields<'a>)
        ensures
            r.spec_remaining() == self.spec_len() && r.spec_buf() == self.spec_buf(),
    {
        Fields { remaining: self.len, buf: self.buf }
    }
}

// ===== Sub-iterators =====

/// One step of a cursor over 16-bit column formats.
pub enum U16Step {
    /// The declared count is exhausted and no bytes trail.
    Done,
    /// The cursor must report an error.
    Fail(PgError),
    /// One format and the bytes that follow it.
    Item { value: u16, rest: Seq<u8> },
}

/// The step a column-format cursor takes with `remaining` declared entries
/// and the bytes `b` ahead of it.
pub open spec fn format_step(remaining: int, b: Seq<u8>) -> U16Step {
    if remaining == 0 {
        if b.len() == 0 {
            U16Step::Done
        } else {
            U16Step::Fail(PgError::InvalidMessageLength)
        }
    } else if b.len() < 2 {
        U16Step::Fail(PgError::UnexpectedEof)
    } else {
        U16Step::Item { value: be_u16_val(b.subrange(0, 2)), rest: b.subrange(2, b.len() as int) }
    }
}

/// A fallible cursor over the per-column formats of a copy response.
pub struct ColumnFormats<'a> {
    remaining: u16,
    buf: &'a [u8],
}

impl<'a> ColumnFormats<'a> {
    /// The number of formats the cursor has yet to yield.
    pub closed spec fn spec_remaining(&self) -> u16 {
        self.remaining
    }

    /// The bytes ahead of the cursor.
    pub closed spec fn spec_buf(&self) -> Seq<u8> {
        self.buf@
    }

    /// Yields the next format, `None` at the declared end, or the error
    /// the step ahead of the cursor calls for.
    pub fn next(&mut self) -> (r: Result<Option<u16>, PgError>)
        ensures
            match format_step(old(self).spec_remaining() as int, old(self).spec_buf()) {
                U16Step::Done => r matches Ok(o) && o is None && final(self).spec_remaining()
                    == old(self).spec_remaining() && final(self).spec_buf() == old(
                    self,
                ).spec_buf(),
                U16Step::Fail(e0) => r matches Err(e) && e == e0,
                U16Step::Item { value, rest } => r matches Ok(o) && (o matches Some(v) && v
                    == value) && final(self).spec_remaining() == old(self).spec_remaining() - 1
                    && final(self).spec_buf() == rest,
            },
    {
        if self.remaining == 0 {
            if self.buf.len() != 0 {
                return Err(PgError::InvalidMessageLength);
            }
            return Ok(None);
        }
        if self.buf.len() < 2 {
            return Err(PgError::UnexpectedEof);
        }
        let v = read_u16_be(self.buf, 0);
        self.remaining = self.remaining - 1;
        let b = self.buf;
        self.buf = &b[2..b.len()];
        proof {
            assert(self.buf@ =~= b@.subrange(2, b@.len() as int));
        }
        Ok(Some(v))
    }

    /// Returns the declared number of formats still ahead as both bounds.
    pub fn size_hint(&self) -> (r: (usize, Option<usize>))
        ensures
            r.0 == self.spec_remaining() && (r.1 matches Some(n) && n == self.spec_remaining()),
    {
        let n = self.remaining as usize;
        (n, Some(n))
    }
}

/// A fallible cursor over the framed values of a data row.
pub struct DataRowValues<'a> {
    remaining: u16,
    buf: &'a [u8],
}

impl<'a> DataRowValues<'a> {
    /// The number of values the cursor has yet to yield.
    pub closed spec fn spec_remaining(&self) -> u16 {
        self.remaining
    }

    /// The bytes ahead of the cursor.
    pub closed spec fn spec_buf(&self) -> Seq<u8> {
        self.buf@
    }

    /// Yields the next value (`None` for SQL NULL), `None` at the declared
    /// end, or the error the step ahead of the cursor calls for.
    pub fn next(&mut self) -> (r: Result<Option<Option<&'a [u8]>>, PgError>)
        ensures
            match nullable_value_step(old(self).spec_remaining() as int, old(self).spec_buf()) {
                ValueStep::Done => r matches Ok(o) && o is None && final(self).spec_remaining()
                    == old(self).spec_remaining() && final(self).spec_buf() == old(
                    self,
                ).spec_buf(),
                ValueStep::Fail(e0) => r matches Err(e) && e == e0,
                ValueStep::Item { value, rest } => {
                    &&& r matches Ok(o)
                    &&& o matches Some(v)
                    &&& v is Some <==> value is Some
                    &&& (v matches Some(s) ==> value matches Some(vb) && s@ == vb)
                    &&& final(self).spec_remaining() == old(self).spec_remaining() - 1
                    &&& final(self).spec_buf() == rest
                },
            },
    {
        if self.remaining == 0 {
            if self.buf.len() != 0 {
                return Err(PgError::InvalidMessageLength);
            }
            return Ok(None);
        }
        if self.buf.len() < 4 {
            return Err(PgError::UnexpectedEof);
        }
        let l = read_i32_be(self.buf, 0);
        self.remaining = self.remaining - 1;
        if l < 0 {
            let b = self.buf;
            self.buf = &b[4..b.len()];
            proof {
                assert(self.buf@ =~= b@.subrange(4, b@.len() as int));
            }
            return Ok(Some(None));
        }
        let l = l as usize;
        if self.buf.len() - 4 < l {
            return Err(PgError::UnexpectedEof);
        }
        let b = self.buf;
        let val = &b[4..4 + l];
        self.buf = &b[4 + l..b.len()];
        proof {
            assert(val@ =~= b@.subrange(4, 4 + l as int));
            assert(self.buf@ =~= b@.subrange(4 + l as int, b@.len() as int));
        }
        Ok(Some(Some(val)))
    }

    /// Returns the declared number of values still ahead as both bounds.
    pub fn size_hint(&self) -> (r: (usize, Option<usize>))
        ensures
            r.0 == self.spec_remaining() && (r.1 matches Some(n) && n == self.spec_remaining()),
    {
        let n = self.remaining as usize;
        (n, Some(n))
    }
}

/// One step of the error-field cursor.
pub enum ErrStep {
    /// The terminating zero type code stood alone at the end.
    Done,
    /// The cursor must report an error.
    Fail(PgError),
    /// One field and the bytes that follow it.
    Item { code: u8, value: Seq<char>, rest: Seq<u8> },
}

/// The step the error-field cursor takes over the bytes `b` ahead of it: a
/// zero type code must be the final byte; any other code is followed by a
/// c-string value.
pub open spec fn error_field_step(b: Seq<u8>) -> ErrStep {
    if b.len() == 0 {
        ErrStep::Fail(PgError::UnexpectedEof)
    } else if b[0] == 0 {
        if b.len() == 1 {
            ErrStep::Done
        } else {
            ErrStep::Fail(PgError::InvalidMessageLength)
        }
    } else {
        match spec_cstr(b.subrange(1, b.len() as int)) {
            Err(e) => ErrStep::Fail(e),
            Ok((value, rest)) => ErrStep::Item { code: b[0], value, rest },
        }
    }
}

/// One field of an `ErrorResponse` or `NoticeResponse` message.
pub struct ErrorField<'a> {
    type_: u8,
    value: &'a str,
}

impl<'a> ErrorField<'a> {
    /// The field's type code.
    pub closed spec fn spec_type(&self) -> u8 {
        self.type_
    }

    /// The field's value.
    pub closed spec fn spec_value(&self) -> Seq<char> {
        self.value@
    }

    /// Returns the field's type code.
    pub fn type_(&self) -> (r: u8)
        ensures
            r == self.spec_type(),
    {
        self.type_
    }

    /// Returns the field's value.
    pub fn value(&self) -> (r: &'a str)
        ensures
            r@ == self.spec_value(),
    {
        self.value
    }
}

/// A fallible cursor over the fields of an `ErrorResponse` or
/// `NoticeResponse` message.
pub struct ErrorFields<'a> {
    buf: &'a [u8],
}

impl<'a> ErrorFields<'a> {
    /// The bytes ahead of the cursor.
    pub closed spec fn spec_buf(&self) -> Seq<u8> {
        self.buf@
    }

    /// Yields the next field, `None` at the terminating zero code, or the
    /// error the step ahead of the cursor calls for.
    pub fn next(&mut self) -> (r: Result<Option<ErrorField<'a>>, PgError>)
        ensures
            match error_field_step(old(self).spec_buf()) {
                ErrStep::Done => r matches Ok(o) && o is None,
                ErrStep::Fail(e0) => r matches Err(e) && e == e0,
                ErrStep::Item { code, value, rest } => {
                    &&& r matches Ok(o)
                    &&& o matches Some(f)
                    &&& f.spec_type() == code
                    &&& f.spec_value() == value
                    &&& final(self).spec_buf() == rest
                },
            },
    {
        if self.buf.len() == 0 {
            return Err(PgError::UnexpectedEof);
        }
        let code = self.buf[0];
        if code == 0 {
            if self.buf.len() != 1 {
                return Err(PgError::InvalidMessageLength);
            }
            return Ok(None);
        }
        let b = self.buf;
        let (value, off) = match read_cstr(b, 1) {
            Ok(x) => x,
            Err(e) => {
                return Err(e);
            },
        };
        proof {
            let tail = b@.subrange(1, b@.len() as int);
            crate::primitives::lemma_nul_pos(tail);
            if nul_pos(tail) is Some {
                    let i = nul_pos(tail)->Some_0;
                assert(tail.subrange(i + 1, tail.len() as int) =~= b@.subrange(
                    1 + i + 1,
                    b@.len() as int,
                ));
            }
        }
        self.buf = &b[off..b.len()];
        proof {
            assert(self.buf@ =~= b@.subrange(off as int, b@.len() as int));
        }
        Ok(Some(ErrorField { type_: code, value }))
    }
}

/// One step of a cursor over 32-bit parameter type Oids.
pub enum OidStep {
    /// The declared count is exhausted and no bytes trail.
    Done,
    /// The cursor must report an error.
    Fail(PgError),
    /// One Oid and the bytes that follow it.
    Item { value: Oid, rest: Seq<u8> },
}

/// The step a parameter-type cursor takes with `remaining` declared
/// entries and the bytes `b` ahead of it.
pub open spec fn oid_step(remaining: int, b: Seq<u8>) -> OidStep {
    if remaining == 0 {
        if b.len() == 0 {
            OidStep::Done
        } else {
            OidStep::Fail(PgError::InvalidMessageLength)
        }
    } else if b.len() < 4 {
        OidStep::Fail(PgError::UnexpectedEof)
    } else {
        OidStep::Item { value: be_u32_val(b.subrange(0, 4)), rest: b.subrange(4, b.len() as int) }
    }
}

/// A fallible cursor over the parameter type Oids of a
/// `ParameterDescription` message.
pub struct Parameters<'a> {
    remaining: u16,
    buf: &'a [u8],
}

impl<'a> Parameters<'a> {
    /// The number of Oids the cursor has yet to yield.
    pub closed spec fn spec_remaining(&self) -> u16 {
        self.remaining
    }

    /// The bytes ahead of the cursor.
    pub closed spec fn spec_buf(&self) -> Seq<u8> {
        self.buf@
    }

    /// Yields the next Oid, `None` at the declared end, or the error the
    /// step ahead of the cursor calls for.
    pub fn next(&mut self) -> (r: Result<Option<Oid>, PgError>)
        ensures
            match oid_step(old(self).spec_remaining() as int, old(self).spec_buf()) {
                OidStep::Done => r matches Ok(o) && o is None && final(self).spec_remaining()
                    == old(self).spec_remaining() && final(self).spec_buf() == old(
                    self,
                ).spec_buf(),
                OidStep::Fail(e0) => r matches Err(e) && e == e0,
                OidStep::Item { value, rest } => r matches Ok(o) && (o matches Some(v) && v
                    == value) && final(self).spec_remaining() == old(self).spec_remaining() - 1
                    && final(self).spec_buf() == rest,
            },
    {
        if self.remaining == 0 {
            if self.buf.len() != 0 {
                return Err(PgError::InvalidMessageLength);
            }
            return Ok(None);
        }
        if self.buf.len() < 4 {
            return Err(PgError::UnexpectedEof);
        }
        let v = read_u32_be(self.buf, 0);
        self.remaining = self.remaining - 1;
        let b = self.buf;
        self.buf = &b[4..b.len()];
        proof {
            assert(self.buf@ =~= b@.subrange(4, b@.len() as int));
        }
        Ok(Some(v))
    }

    /// Returns the declared number of Oids still ahead as both bounds.
    pub fn size_hint(&self) -> (r: (usize, Option<usize>))
        ensures
            r.0 == self.spec_remaining() && (r.1 matches Some(n) && n == self.spec_remaining()),
    {
        let n = self.remaining as usize;
        (n, Some(n))
    }
}

/// The specification-level value of one row-description field.
pub struct SpecField {
    pub name: Seq<char>,
    pub table_oid: Oid,
    pub column_id: i16,
    pub type_oid: Oid,
    pub type_size: i16,
    pub type_modifier: i32,
    pub format: i16,
}

/// One step of the row-description field cursor.
pub enum FieldStep {
    /// The declared count is exhausted and no bytes trail.
    Done,
    /// The cursor must report an error.
    Fail(PgError),
    /// One field descriptor and the bytes that follow it.
    Item { field: SpecField, rest: Seq<u8> },
}

/// The step the field cursor takes with `remaining` declared fields and
/// the bytes `b` ahead of it: a c-string name followed by 18 bytes of
/// fixed-width descriptor fields.
pub open spec fn field_step(remaining: int, b: Seq<u8>) -> FieldStep {
    if remaining == 0 {
        if b.len() == 0 {
            FieldStep::Done
        } else {
            FieldStep::Fail(PgError::InvalidMessageLength)
        }
    } else {
        match nul_pos(b) {
            None => FieldStep::Fail(PgError::UnexpectedEof),
            Some(i) => {
                if !valid_utf8(b.subrange(0, i)) {
                    FieldStep::Fail(PgError::InvalidUtf8)
                } else {
                    let rest0 = b.subrange(i + 1, b.len() as int);
                    if rest0.len() < 18 {
                        FieldStep::Fail(PgError::UnexpectedEof)
                    } else {
                        FieldStep::Item {
                            field: SpecField {
                                name: decode_utf8(b.subrange(0, i)),
                                table_oid: be_u32_val(rest0.subrange(0, 4)),
                                column_id: be_i16_val(rest0.subrange(4, 6)),
                                type_oid: be_u32_val(rest0.subrange(6, 10)),
                                type_size: be_i16_val(rest0.subrange(10, 12)),
                                type_modifier: be_i32_val(rest0.subrange(12, 16)),
                                format: be_i16_val(rest0.subrange(16, 18)),
                            },
                            rest: rest0.subrange(18, rest0.len() as int),
                        }
                    }
                }
            },
        }
    }
}

/// One field descriptor of a `RowDescription` message.
pub struct Field<'a> {
    name: &'a str,
    table_oid: Oid,
    column_id: i16,
    type_oid: Oid,
    type_size: i16,
    type_modifier: i32,
    format: i16,
}

impl<'a> View for Field<'a> {
    type V = SpecField;

    closed spec fn view(&self) -> SpecField {
        SpecField {
            name: self.name@,
            table_oid: self.table_oid,
            column_id: self.column_id,
            type_oid: self.type_oid,
            type_size: self.type_size,
            type_modifier: self.type_modifier,
            format: self.format,
        }
    }
}

impl<'a> Field<'a> {
    /// Returns the column's name.
    pub fn name(&self) -> (r: &'a str)
        ensures
            r@ == self@.name,
    {
        self.name
    }

    /// Returns the Oid of the table the column belongs to, or 0.
    pub fn table_oid(&self) -> (r: Oid)
        ensures
            r == self@.table_oid,
    {
        self.table_oid
    }

    /// Returns the column's ordinal within its table, or 0.
    pub fn column_id(&self) -> (r: i16)
        ensures
            r == self@.column_id,
    {
        self.column_id
    }

    /// Returns the Oid of the column's type.
    pub fn type_oid(&self) -> (r: Oid)
        ensures
            r == self@.type_oid,
    {
        self.type_oid
    }

    /// Returns the type's size in bytes; negative means variable width.
    pub fn type_size(&self) -> (r: i16)
        ensures
            r == self@.type_size,
    {
        self.type_size
    }

    /// Returns the type modifier.
    pub fn type_modifier(&self) -> (r: i32)
        ensures
            r == self@.type_modifier,
    {
        self.type_modifier
    }

    /// Returns the format code: 0 for text, 1 for binary.
    pub fn format(&self) -> (r: i16)
        ensures
            r == self@.format,
    {
        self.format
    }
}

/// A fallible cursor over the field descriptors of a `RowDescription`
/// message.
pub struct Fields<'a> {
    remaining: u16,
    buf: &'a [u8],
}

impl<'a> Fields<'a> {
    /// The number of fields the cursor has yet to yield.
    pub closed spec fn spec_remaining(&self) -> u16 {
        self.remaining
    }

    /// The bytes ahead of the cursor.
    pub closed spec fn spec_buf(&self) -> Seq<u8> {
        self.buf@
    }

    /// Yields the next field descriptor, `None` at the declared end, or
    /// the error the step ahead of the cursor calls for.
    pub fn next(&mut self) -> (r: Result<Option<Field<'a>>, PgError>)
        ensures
            match field_step(old(self).spec_remaining() as int, old(self).spec_buf()) {
                FieldStep::Done => r matches Ok(o) && o is None && final(self).spec_remaining()
                    == old(self).spec_remaining() && final(self).spec_buf() == old(
                    self,
                ).spec_buf(),
                FieldStep::Fail(e0) => r matches Err(e) && e == e0,
                FieldStep::Item { field, rest } => {
                    &&& r matches Ok(o)
                    &&& o matches Some(f)
                    &&& f@ == field
                    &&& final(self).spec_remaining() == old(self).spec_remaining() - 1
                    &&& final(self).spec_buf() == rest
                },
            },
    {
        if self.remaining == 0 {
            if self.buf.len() != 0 {
                return Err(PgError::InvalidMessageLength);
            }
            return Ok(None);
        }
        let b = self.buf;
        proof {
            assert(b@.subrange(0, b@.len() as int) =~= b@);
        }
        let (name, off) = match read_cstr(b, 0) {
            Ok(x) => x,
            Err(e) => {
                return Err(e);
            },
        };
        proof {
            crate::primitives::lemma_nul_pos(b@);
        }
        let ghost rest0 = b@.subrange(off as int, b@.len() as int);
        if b.len() - off < 18 {
            return Err(PgError::UnexpectedEof);
        }
        let table_oid = read_u32_be(b, off);
        let column_id = read_i16_be(b, off + 4);
        let type_oid = read_u32_be(b, off + 6);
        let type_size = read_i16_be(b, off + 10);
        let type_modifier = read_i32_be(b, off + 12);
        let format = read_i16_be(b, off + 16);
        proof {
            assert(rest0.subrange(0, 4) =~= b@.subrange(off as int, off as int + 4));
            assert(rest0.subrange(4, 6) =~= b@.subrange(off as int + 4, off as int + 6));
            assert(rest0.subrange(6, 10) =~= b@.subrange(off as int + 6, off as int + 10));
            assert(rest0.subrange(10, 12) =~= b@.subrange(off as int + 10, off as int + 12));
            assert(rest0.subrange(12, 16) =~= b@.subrange(off as int + 12, off as int + 16));
            assert(rest0.subrange(16, 18) =~= b@.subrange(off as int + 16, off as int + 18));
        }
        self.remaining = self.remaining - 1;
        self.buf = &b[off + 18..b.len()];
        proof {
            assert(self.buf@ =~= rest0.subrange(18, rest0.len() as int));
        }
        Ok(
            Some(
                Field { name, table_oid, column_id, type_oid, type_size, type_modifier, format },
            ),
        )
    }

    /// Returns the declared number of fields still ahead as both bounds.
    pub fn size_hint(&self) -> (r: (usize, Option<usize>))
        ensures
            r.0 == self.spec_remaining() && (r.1 matches Some(n) && n == self.spec_remaining()),
    {
        let n = self.remaining as usize;
        (n, Some(n))
    }
}

impl<'a> View for Message<'a> {
    type V = SpecMessage;

    open spec fn view(&self) -> SpecMessage {
        match self {
            Message::AuthenticationCleartextPassword => SpecMessage::AuthenticationCleartextPassword,
            Message::AuthenticationGss => SpecMessage::AuthenticationGss,
            Message::AuthenticationKerberosV5 => SpecMessage::AuthenticationKerberosV5,
            Message::AuthenticationMd5Password(b) => (SpecMessage::AuthenticationMd5Password {
                salt: b.spec_salt(),
            }),
            Message::AuthenticationOk => SpecMessage::AuthenticationOk,
            Message::AuthenticationScmCredential => SpecMessage::AuthenticationScmCredential,
            Message::AuthenticationSspi => SpecMessage::AuthenticationSspi,
            Message::BackendKeyData(b) => (SpecMessage::BackendKeyData {
                process_id: b.spec_process_id(),
                secret_key: b.spec_secret_key(),
            }),
            Message::BindComplete => SpecMessage::BindComplete,
            Message::CloseComplete => SpecMessage::CloseComplete,
            Message::CommandComplete(b) => (SpecMessage::CommandComplete { tag: b.spec_tag() }),
            Message::CopyData(b) => (SpecMessage::CopyData { data: b.spec_data() }),
            Message::CopyDone => SpecMessage::CopyDone,
            Message::CopyInResponse(b) => (SpecMessage::CopyInResponse {
                format: b.spec_format(),
                len: b.spec_len(),
                body: b.spec_buf(),
            }),
            Message::CopyOutResponse(b) => (SpecMessage::CopyOutResponse {
                format: b.spec_format(),
                len: b.spec_len(),
                body: b.spec_buf(),
            }),
            Message::DataRow(b) => (SpecMessage::DataRow {
                len: b.spec_len(),
                body: b.spec_buf(),
            }),
            Message::EmptyQueryResponse => SpecMessage::EmptyQueryResponse,
            Message::ErrorResponse(b) => (SpecMessage::ErrorResponse { body: b.spec_buf() }),
            Message::NoData => SpecMessage::NoData,
            Message::NoticeResponse(b) => (SpecMessage::NoticeResponse { body: b.spec_buf() }),
            Message::NotificationResponse(b) => (SpecMessage::NotificationResponse {
                process_id: b.spec_process_id(),
                channel: b.spec_channel(),
                message: b.spec_message(),
            }),
            Message::ParameterDescription(b) => (SpecMessage::ParameterDescription {
                len: b.spec_len(),
                body: b.spec_buf(),
            }),
            Message::ParameterStatus(b) => (SpecMessage::ParameterStatus {
                name: b.spec_name(),
                value: b.spec_value(),
            }),
            Message::ParseComplete => SpecMessage::ParseComplete,
            Message::PortalSuspended => SpecMessage::PortalSuspended,
            Message::ReadyForQuery(b) => (SpecMessage::ReadyForQuery { status: b.spec_status() }),
            Message::RowDescription(b) => (SpecMessage::RowDescription {
                len: b.spec_len(),
                body: b.spec_buf(),
            }),
            Message::__ForExtensibility => SpecMessage::ForExtensibility,
        }
    }
}

/// Whether the executable outcome `r` realizes the specification outcome
/// `s`.
pub open spec fn outcome_matches<'a>(r: Result<ParseResult<'a>, PgError>, s: SpecParseOutcome) -> bool {
    match s {
        SpecParseOutcome::Complete { message, consumed } => {
            &&& r matches Ok(pr)
            &&& pr matches ParseResult::Complete { message: m, consumed: c }
            &&& m@ == message
            &&& c == consumed
        },
        SpecParseOutcome::Incomplete { required } => {
            &&& r matches Ok(pr)
            &&& pr matches ParseResult::Incomplete { required_size }
            &&& match required {
                Some(n) => required_size matches Some(u) && u == n,
                None => required_size is None,
            }
        },
        SpecParseOutcome::Error { err } => r matches Err(e) && e == err,
    }
}

/// The formats a column-format cursor yields from `remaining` declared
/// entries over `b`, when every step succeeds through the terminal `Done`.
pub open spec fn collect_formats(remaining: nat, b: Seq<u8>) -> Option<Seq<u16>>
    decreases remaining,
{
    match format_step(remaining as int, b) {
        U16Step::Done => Some(Seq::empty()),
        U16Step::Fail(_) => None,
        U16Step::Item { value, rest } => {
            if remaining == 0 {
                None
            } else {
                match collect_formats((remaining - 1) as nat, rest) {
                    Some(s) => Some(seq![value] + s),
                    None => None,
                }
            }
        },
    }
}

/// The Oids a parameter-type cursor yields from `remaining` declared
/// entries over `b`, when every step succeeds through the terminal `Done`.
pub open spec fn collect_oids(remaining: nat, b: Seq<u8>) -> Option<Seq<Oid>>
    decreases remaining,
{
    match oid_step(remaining as int, b) {
        OidStep::Done => Some(Seq::empty()),
        OidStep::Fail(_) => None,
        OidStep::Item { value, rest } => {
            if remaining == 0 {
                None
            } else {
                match collect_oids((remaining - 1) as nat, rest) {
                    Some(s) => Some(seq![value] + s),
                    None => None,
                }
            }
        },
    }
}

/// The field descriptors the field cursor yields from `remaining`
/// declared entries over `b`, when every step succeeds through the
/// terminal `Done`.
pub open spec fn collect_fields(remaining: nat, b: Seq<u8>) -> Option<Seq<SpecField>>
    decreases remaining,
{
    match field_step(remaining as int, b) {
        FieldStep::Done => Some(Seq::empty()),
        FieldStep::Fail(_) => None,
        FieldStep::Item { field, rest } => {
            if remaining == 0 {
                None
            } else {
                match collect_fields((remaining - 1) as nat, rest) {
                    Some(s) => Some(seq![field] + s),
                    None => None,
                }
            }
        },
    }
}

/// The fields the error-field cursor yields over `b`, when every step
/// succeeds through the terminal `Done`.
pub open spec fn collect_error_fields(b: Seq<u8>) -> Option<Seq<(u8, Seq<char>)>>
    decreases b.len(),
{
    match error_field_step(b) {
        ErrStep::Done => Some(Seq::empty()),
        ErrStep::Fail(_) => None,
        ErrStep::Item { code, value, rest } => {
            if rest.len() < b.len() {
                match collect_error_fields(rest) {
                    Some(s) => Some(seq![(code, value)] + s),
                    None => None,
                }
            } else {
                None
            }
        },
    }
}

// ===== Laws of the parser =====

/// The byte count a `Complete` outcome reports.
pub open spec fn outcome_consumed(o: SpecParseOutcome) -> int {
    match o {
        SpecParseOutcome::Complete { consumed, .. } => consumed,
        _ => 0,
    }
}

/// The message a `Complete` outcome carries.
pub open spec fn outcome_message(o: SpecParseOutcome) -> SpecMessage {
    match o {
        SpecParseOutcome::Complete { message, .. } => message,
        _ => SpecMessage::ForExtensibility,
    }
}

/// A complete frame's consumed count always covers the 5 header bytes and
/// never exceeds the input.
pub proof fn lemma_consumed_bounds(b: Seq<u8>)
    requires
        spec_parse(b) is Complete,
    ensures
        5 <= outcome_consumed(spec_parse(b)) <= b.len(),
{
}

/// Law (framing safety): every strict prefix of a complete frame fails to
/// parse and is reported as incomplete; the parser never reads past the
/// bytes a frame declares, so no prefix is ever mistaken for a message.
pub proof fn lemma_framing_prefix_incomplete(b: Seq<u8>, k: int)
    requires
        b.len() <= usize::MAX,
        spec_parse(b) is Complete,
        0 <= k < outcome_consumed(spec_parse(b)),
    ensures
        spec_parse(b.subrange(0, k)) is Incomplete,
{
    let p = b.subrange(0, k);
    let need = required_len(b);
    if k < 5 {
        assert(spec_parse(p) is Incomplete);
    } else {
        assert(p.subrange(1, 5) =~= b.subrange(1, 5));
        assert(required_len(p) == need);
        assert(p.len() < need);
        assert(need <= b.len());
    }
}

/// Law (framing safety): a complete frame taken alone parses to the very
/// same outcome, consuming its whole length.
pub proof fn lemma_framing_exact(b: Seq<u8>)
    requires
        spec_parse(b) is Complete,
    ensures
        spec_parse(b.subrange(0, outcome_consumed(spec_parse(b)))) == spec_parse(b),
        outcome_consumed(spec_parse(b)) == required_len(b),
{
    let need = required_len(b);
    let p = b.subrange(0, need);
    assert(p.subrange(1, 5) =~= b.subrange(1, 5));
    assert(required_len(p) == need);
    assert(p.subrange(5, need) =~= b.subrange(5, need));
}

/// Law (idempotent advance): parsing depends only on the bytes of the
/// frame at the front of the input. Bytes that arrive after a complete
/// frame leave its outcome untouched, so consuming `consumed` bytes and
/// parsing the remainder gives the same results as parsing each frame in
/// isolation, independent of any prior call.
pub proof fn lemma_parse_extension(b: Seq<u8>, extra: Seq<u8>)
    requires
        spec_parse(b) is Complete,
    ensures
        spec_parse(b + extra) == spec_parse(b),
{
    let w = b + extra;
    let need = required_len(b);
    assert(w.len() >= b.len());
    assert(w.subrange(1, 5) =~= b.subrange(1, 5));
    assert(required_len(w) == need);
    assert(w[0] == b[0]);
    assert(w.subrange(5, need) =~= b.subrange(5, need));
}

/// Law (round-trip): a serialized `CopyData` message parses back to a
/// `CopyData` message with the same payload, consuming exactly the bytes
/// that were written.
pub proof fn lemma_copy_data_round_trip(data: Seq<u8>)
    requires
        data.len() + 4 <= 0x7fffffff,
    ensures
        ({
            let w = crate::primitives::framed(100u8, data);
            spec_parse(w) == (SpecParseOutcome::Complete {
                message: SpecMessage::CopyData { data },
                consumed: w.len() as int,
            })
        }),
{
    broadcast use crate::primitives::lemma_be_u32_round;

    let w = crate::primitives::framed(100u8, data);
    assert(w.len() == 5 + data.len());
    assert(w.subrange(1, 5) =~= crate::primitives::be_u32((data.len() + 4) as u32));
    assert(required_len(w) == data.len() + 5);
    assert(w[0] == 100u8);
    assert(w.subrange(5, data.len() + 5 as int) =~= data);
}

/// Law (round-trip): a serialized `CopyDone` message parses back to
/// `CopyDone`, consuming exactly the 5 bytes that were written.
pub proof fn lemma_copy_done_round_trip()
    ensures
        ({
            let w = crate::primitives::framed(99u8, Seq::empty());
            spec_parse(w) == (SpecParseOutcome::Complete {
                message: SpecMessage::CopyDone,
                consumed: 5int,
            })
        }),
{
    broadcast use crate::primitives::lemma_be_u32_round;

    let w = crate::primitives::framed(99u8, Seq::<u8>::empty());
    assert(w.len() == 5);
    assert(w.subrange(1, 5) =~= crate::primitives::be_u32(4u32));
    assert(required_len(w) == 5);
    assert(w[0] == 99u8);
    assert(w.subrange(5, 5) =~= Seq::<u8>::empty());
}

/// Dispatches one complete frame on its tag byte, validating the body
/// against the selected kind's declared shape; agrees with
/// [`spec_dispatch`].
#[verifier::rlimit(100)]
fn dispatch<'a>(tag: u8, body: &'a [u8], Ghost(consumed): Ghost<int>) -> (r: Result<
    Message<'a>,
    PgError,
>)
    ensures
        match spec_dispatch(tag, body@, consumed) {
            SpecParseOutcome::Complete { message, consumed: c } => r matches Ok(m) && m@ == message
                && c == consumed,
            SpecParseOutcome::Error { err } => r matches Err(e) && e == err,
            SpecParseOutcome::Incomplete { .. } => false,
        },
{
    let ghost bodyv = body@;
    let blen = body.len();
    let message = if tag == 49 {
        if blen != 0 {
            return Err(PgError::InvalidMessageLength);
        }
        Message::ParseComplete
    } else if tag == 50 {
        if blen != 0 {
            return Err(PgError::InvalidMessageLength);
        }
        Message::BindComplete
    } else if tag == 51 {
        if blen != 0 {
            return Err(PgError::InvalidMessageLength);
        }
        Message::CloseComplete
    } else if tag == 65 {
        if blen < 4 {
            return Err(PgError::UnexpectedEof);
        }
        let process_id = read_i32_be(body, 0);
        let (channel, off1) = match read_cstr(body, 4) {
            Ok(x) => x,
            Err(e) => {
                return Err(e);
            },
        };
        let ghost rest1 = bodyv.subrange(4, bodyv.len() as int);
        proof {
            crate::primitives::lemma_nul_pos(rest1);
            if nul_pos(rest1) is Some {
                let i = nul_pos(rest1)->Some_0;
                assert(rest1.subrange(i + 1, rest1.len() as int) =~= bodyv.subrange(
                    4 + i + 1,
                    bodyv.len() as int,
                ));
            }
        }
        let (message_s, off2) = match read_cstr(body, off1) {
            Ok(x) => x,
            Err(e) => {
                return Err(e);
            },
        };
        proof {
            let ghost rest2 = bodyv.subrange(off1 as int, bodyv.len() as int);
            crate::primitives::lemma_nul_pos(rest2);
            if nul_pos(rest2) is Some {
                let i = nul_pos(rest2)->Some_0;
                assert(rest2.subrange(i + 1, rest2.len() as int) =~= bodyv.subrange(
                    off1 + i + 1,
                    bodyv.len() as int,
                ));
            }
        }
        if off2 != blen {
            return Err(PgError::InvalidMessageLength);
        }
        Message::NotificationResponse(
            NotificationResponseBody { process_id, channel, message: message_s },
        )
    } else if tag == 99 {
        if blen != 0 {
            return Err(PgError::InvalidMessageLength);
        }
        Message::CopyDone
    } else if tag == 67 {
        proof {
            assert(bodyv.subrange(0, bodyv.len() as int) =~= bodyv);
            crate::primitives::lemma_nul_pos(bodyv);
        }
        let (cmd, off1) = match read_cstr(body, 0) {
            Ok(x) => x,
            Err(e) => {
                return Err(e);
            },
        };
        if off1 != blen {
            return Err(PgError::InvalidMessageLength);
        }
        Message::CommandComplete(CommandCompleteBody { tag: cmd })
    } else if tag == 100 {
        Message::CopyData(CopyDataBody { data: body })
    } else if tag == 68 {
        if blen < 2 {
            return Err(PgError::UnexpectedEof);
        }
        let n = read_u16_be(body, 0);
        Message::DataRow(DataRowBody { len: n, buf: &body[2..blen] })
    } else if tag == 69 {
        Message::ErrorResponse(ErrorResponseBody { buf: body })
    } else if tag == 71 {
        if blen < 3 {
            return Err(PgError::UnexpectedEof);
        }
        let format = body[0];
        let n = read_u16_be(body, 1);
        Message::CopyInResponse(CopyInResponseBody { format, len: n, buf: &body[3..blen] })
    } else if tag == 72 {
        if blen < 3 {
            return Err(PgError::UnexpectedEof);
        }
        let format = body[0];
        let n = read_u16_be(body, 1);
        Message::CopyOutResponse(CopyOutResponseBody { format, len: n, buf: &body[3..blen] })
    } else if tag == 73 {
        if blen != 0 {
            return Err(PgError::InvalidMessageLength);
        }
        Message::EmptyQueryResponse
    } else if tag == 75 {
        if blen < 8 {
            return Err(PgError::UnexpectedEof);
        }
        if blen > 8 {
            return Err(PgError::InvalidMessageLength);
        }
        let process_id = read_i32_be(body, 0);
        let secret_key = read_i32_be(body, 4);
        Message::BackendKeyData(
            BackendKeyDataBody { process_id, secret_key, _p: core::marker::PhantomData },
        )
    } else if tag == 110 {
        if blen != 0 {
            return Err(PgError::InvalidMessageLength);
        }
        Message::NoData
    } else if tag == 78 {
        Message::NoticeResponse(NoticeResponseBody { buf: body })
    } else if tag == 82 {
        if blen < 4 {
            return Err(PgError::UnexpectedEof);
        }
        let code = read_i32_be(body, 0);
        let rest_len = blen - 4;
        if code == 0 {
            if rest_len != 0 {
                return Err(PgError::InvalidMessageLength);
            }
            Message::AuthenticationOk
        } else if code == 2 {
            if rest_len != 0 {
                return Err(PgError::InvalidMessageLength);
            }
            Message::AuthenticationKerberosV5
        } else if code == 3 {
            if rest_len != 0 {
                return Err(PgError::InvalidMessageLength);
            }
            Message::AuthenticationCleartextPassword
        } else if code == 5 {
            if rest_len != 4 {
                return Err(PgError::InvalidMessageLength);
            }
            let salt = [body[4], body[5], body[6], body[7]];
            proof {
                assert(salt@ =~= bodyv.subrange(4, bodyv.len() as int));
            }
            Message::AuthenticationMd5Password(
                AuthenticationMd5PasswordBody { salt, _p: core::marker::PhantomData },
            )
        } else if code == 6 {
            if rest_len != 0 {
                return Err(PgError::InvalidMessageLength);
            }
            Message::AuthenticationScmCredential
        } else if code == 7 {
            if rest_len != 0 {
                return Err(PgError::InvalidMessageLength);
            }
            Message::AuthenticationGss
        } else if code == 9 {
            if rest_len != 0 {
                return Err(PgError::InvalidMessageLength);
            }
            Message::AuthenticationSspi
        } else {
            return Err(PgError::UnknownAuthTag(code));
        }
    } else if tag == 115 {
        if blen != 0 {
            return Err(PgError::InvalidMessageLength);
        }
        Message::PortalSuspended
    } else if tag == 83 {
        proof {
            assert(bodyv.subrange(0, bodyv.len() as int) =~= bodyv);
        }
        let (name, off1) = match read_cstr(body, 0) {
            Ok(x) => x,
            Err(e) => {
                return Err(e);
            },
        };
        proof {
            crate::primitives::lemma_nul_pos(bodyv);
            if nul_pos(bodyv) is Some {
                let i = nul_pos(bodyv)->Some_0;
                assert(bodyv.subrange(i + 1, bodyv.len() as int) =~= bodyv.subrange(
                    0 + i + 1,
                    bodyv.len() as int,
                ));
            }
        }
        let (value, off2) = match read_cstr(body, off1) {
            Ok(x) => x,
            Err(e) => {
                return Err(e);
            },
        };
        proof {
            let ghost rest2 = bodyv.subrange(off1 as int, bodyv.len() as int);
            crate::primitives::lemma_nul_pos(rest2);
            if nul_pos(rest2) is Some {
                let i = nul_pos(rest2)->Some_0;
                assert(rest2.subrange(i + 1, rest2.len() as int) =~= bodyv.subrange(
                    off1 + i + 1,
                    bodyv.len() as int,
                ));
            }
        }
        if off2 != blen {
            return Err(PgError::InvalidMessageLength);
        }
        Message::ParameterStatus(ParameterStatusBody { name, value })
    } else if tag == 116 {
        if blen < 2 {
            return Err(PgError::UnexpectedEof);
        }
        let n = read_u16_be(body, 0);
        Message::ParameterDescription(
            ParameterDescriptionBody { len: n, buf: &body[2..blen] },
        )
    } else if tag == 84 {
        if blen < 2 {
            return Err(PgError::UnexpectedEof);
        }
        let n = read_u16_be(body, 0);
        Message::RowDescription(RowDescriptionBody { len: n, buf: &body[2..blen] })
    } else if tag == 90 {
        if blen < 1 {
            return Err(PgError::UnexpectedEof);
        }
        if blen > 1 {
            return Err(PgError::InvalidMessageLength);
        }
        let status = body[0];
        Message::ReadyForQuery(ReadyForQueryBody { status, _p: core::marker::PhantomData })
    } else {
        return Err(PgError::UnknownTag(tag));
    };
    Ok(message)
}

impl<'a> Message<'a> {
    /// Attempts to parse one backend message from the front of `buf`,
    /// agreeing with [`spec_parse`] on every input: either a complete
    /// message together with the exact number of bytes it occupied, an
    /// `Incomplete` outcome naming the total bytes needed once the 5
    /// header bytes are present, or a recoverable error.
    #[verifier::rlimit(100)]
    pub fn parse(buf: &'a [u8]) -> (r: Result<ParseResult<'a>, PgError>)
        ensures
            outcome_matches(r, spec_parse(buf@)),
    {
        if buf.len() < 5 {
            return Ok(ParseResult::Incomplete { required_size: None });
        }
        let tag = buf[0];
        let len32 = read_u32_be(buf, 1);
        let need64: u64 = len32 as u64 + 1;
        if (buf.len() as u64) < need64 {
            if need64 <= usize::MAX as u64 {
                return Ok(ParseResult::Incomplete { required_size: Some(need64 as usize) });
            } else {
                return Err(PgError::ValueTooLarge);
            }
        }
        let need = need64 as usize;
        if need < 5 {
            return Err(PgError::InvalidMessageLength);
        }
        let body = &buf[5..need];
        let ghost bodyv = buf@.subrange(5, need as int);
        proof {
            assert(body@ == bodyv);
        }
        let blen = body.len();
        let message = match dispatch(tag, body, Ghost(need as int)) {
            Ok(m) => m,
            Err(e) => {
                return Err(e);
            },
        };
        Ok(ParseResult::Complete { message, consumed: need })
    }
}

} // verus!
