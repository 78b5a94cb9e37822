//! The owned-message adapter: a thin convenience layer that converts one
//! borrowed parse outcome into a message owning its payloads, by draining
//! each sub-cursor once and copying bytes and strings into heap-backed
//! containers.
use vstd::prelude::*;

use crate::Oid;
use crate::error::PgError;
use crate::message::backend;
use crate::message::backend::{
    collect_error_fields, collect_fields, collect_formats, collect_oids, spec_parse, SpecField,
    SpecMessage, SpecParseOutcome,
};
use crate::primitives::collect_values;
use crate::types::elems_view;
use vstd::slice::slice_to_vec;

verus! {

/// A backend message that owns its payloads.
pub enum Message {
    AuthenticationCleartextPassword,
    AuthenticationGSS,
    AuthenticationKerberosV5,
    AuthenticationMD5Password { salt: [u8; 4] },
    AuthenticationOk,
    AuthenticationSCMCredential,
    AuthenticationSSPI,
    BackendKeyData { process_id: i32, secret_key: i32 },
    BindComplete,
    CloseComplete,
    CommandComplete { tag: String },
    CopyData { data: Vec<u8> },
    CopyDone,
    CopyInResponse { format: u8, column_formats: Vec<u16> },
    CopyOutResponse { format: u8, column_formats: Vec<u16> },
    DataRow { row: Vec<Option<Vec<u8>>> },
    EmptyQueryResponse,
    ErrorResponse { fields: Vec<(u8, String)> },
    NoData,
    NoticeResponse { fields: Vec<(u8, String)> },
    NotificationResponse { process_id: i32, channel: String, payload: String },
    ParameterDescription { types: Vec<Oid> },
    ParameterStatus { parameter: String, value: String },
    ParseComplete,
    PortalSuspended,
    ReadyForQuery { state: u8 },
    RowDescription { descriptions: Vec<RowDescriptionEntry> },
    /// Reserved so that adding a message kind is not a breaking change;
    /// the parser never produces it.
    __ForExtensibility,
}

/// The result of an attempted parse.
pub enum ParseResult<T> {
    /// A message was successfully parsed.
    Complete {
        /// The message.
        message: T,
        /// The number of input bytes consumed to parse this message.
        consumed: usize,
    },
    /// The buffer did not contain a full message.
    Incomplete {
        /// The total bytes a parse needs, known once 5 header bytes are in.
        required_size: Option<usize>,
    },
}

/// One field descriptor of an owned `RowDescription` message.
pub struct RowDescriptionEntry {
    pub name: String,
    pub table_oid: Oid,
    pub column_id: i16,
    pub type_oid: Oid,
    pub type_size: i16,
    pub type_modifier: i32,
    pub format: i16,
}

impl View for RowDescriptionEntry {
    type V = SpecField;

    open spec fn view(&self) -> SpecField {
        SpecField {
            name: self.name@,
            table_oid: self.table_oid,
            column_id: self.column_id,
            type_oid: self.type_oid,
            type_size: self.type_size,
            type_modifier: self.type_modifier,
            format: self.format,
        }
    }
}

/// The specification-level descriptors of a run of owned entries.
pub open spec fn fields_view(v: Seq<RowDescriptionEntry>) -> Seq<SpecField> {
    v.map_values(|e: RowDescriptionEntry| e@)
}

/// The specification-level fields of a run of owned error fields.
pub open spec fn error_fields_view(v: Seq<(u8, String)>) -> Seq<(u8, Seq<char>)> {
    v.map_values(|e: (u8, String)| (e.0, e.1@))
}

/// Whether every sub-cursor of the message runs to its declared end, so
/// that the owned adapter can drain it.
pub open spec fn spec_drain_ok(s: SpecMessage) -> bool {
    match s {
        SpecMessage::CopyInResponse { len, body, .. } => collect_formats(len as nat, body)
            is Some,
        SpecMessage::CopyOutResponse { len, body, .. } => collect_formats(len as nat, body)
            is Some,
        SpecMessage::DataRow { len, body } => collect_values(len as nat, body) is Some,
        SpecMessage::ErrorResponse { body } => collect_error_fields(body) is Some,
        SpecMessage::NoticeResponse { body } => collect_error_fields(body) is Some,
        SpecMessage::ParameterDescription { len, body } => collect_oids(len as nat, body) is Some,
        SpecMessage::RowDescription { len, body } => collect_fields(len as nat, body) is Some,
        SpecMessage::ForExtensibility => false,
        _ => true,
    }
}

/// Whether the owned message realizes the specification-level message,
/// with each drained sub-cursor replaced by exactly the values it yields.
pub open spec fn owned_matches(m: Message, s: SpecMessage) -> bool {
    match s {
        SpecMessage::AuthenticationCleartextPassword => m is AuthenticationCleartextPassword,
        SpecMessage::AuthenticationGss => m is AuthenticationGSS,
        SpecMessage::AuthenticationKerberosV5 => m is AuthenticationKerberosV5,
        SpecMessage::AuthenticationMd5Password { salt } => m matches Message::AuthenticationMD5Password {
            salt: s2,
        } && s2@ == salt,
        SpecMessage::AuthenticationOk => m is AuthenticationOk,
        SpecMessage::AuthenticationScmCredential => m is AuthenticationSCMCredential,
        SpecMessage::AuthenticationSspi => m is AuthenticationSSPI,
        SpecMessage::BackendKeyData { process_id, secret_key } => (m matches Message::BackendKeyData {
            process_id: p,
            secret_key: k,
        } && p == process_id && k == secret_key),
        SpecMessage::BindComplete => m is BindComplete,
        SpecMessage::CloseComplete => m is CloseComplete,
        SpecMessage::CommandComplete { tag } => m matches Message::CommandComplete { tag: t } && t@
            == tag,
        SpecMessage::CopyData { data } => m matches Message::CopyData { data: d } && d@ == data,
        SpecMessage::CopyDone => m is CopyDone,
        SpecMessage::CopyInResponse { format, len, body } => (m matches Message::CopyInResponse {
            format: f,
            column_formats,
        } && f == format && collect_formats(len as nat, body) == Some(column_formats@)),
        SpecMessage::CopyOutResponse { format, len, body } => (m matches Message::CopyOutResponse {
            format: f,
            column_formats,
        } && f == format && collect_formats(len as nat, body) == Some(column_formats@)),
        SpecMessage::DataRow { len, body } => m matches Message::DataRow { row } && collect_values(
            len as nat,
            body,
        ) == Some(elems_view(row@)),
        SpecMessage::EmptyQueryResponse => m is EmptyQueryResponse,
        SpecMessage::ErrorResponse { body } => m matches Message::ErrorResponse { fields }
            && collect_error_fields(body) == Some(error_fields_view(fields@)),
        SpecMessage::NoData => m is NoData,
        SpecMessage::NoticeResponse { body } => m matches Message::NoticeResponse { fields }
            && collect_error_fields(body) == Some(error_fields_view(fields@)),
        SpecMessage::NotificationResponse { process_id, channel, message } => (m matches Message::NotificationResponse {
            process_id: p,
            channel: c,
            payload,
        } && p == process_id && c@ == channel && payload@ == message),
        SpecMessage::ParameterDescription { len, body } => m matches Message::ParameterDescription {
            types,
        } && collect_oids(len as nat, body) == Some(types@),
        SpecMessage::ParameterStatus { name, value } => (m matches Message::ParameterStatus {
            parameter,
            value: v,
        } && parameter@ == name && v@ == value),
        SpecMessage::ParseComplete => m is ParseComplete,
        SpecMessage::PortalSuspended => m is PortalSuspended,
        SpecMessage::ReadyForQuery { status } => m matches Message::ReadyForQuery { state } && state
            == status,
        SpecMessage::RowDescription { len, body } => m matches Message::RowDescription {
            descriptions,
        } && collect_fields(len as nat, body) == Some(fields_view(descriptions@)),
        SpecMessage::ForExtensibility => false,
    }
}

/// Drains a column-format cursor into a vector.
#[verifier::loop_isolation(false)]
fn drain_formats(it: backend::ColumnFormats<'_>) -> (r: Result<Vec<u16>, PgError>)
    ensures
        match collect_formats(it.spec_remaining() as nat, it.spec_buf()) {
            Some(s) => r matches Ok(v) && v@ == s,
            None => r is Err,
        },
{
    let ghost n0 = it.spec_remaining() as nat;
    let ghost b0 = it.spec_buf();
    let mut it = it;
    let mut out: Vec<u16> = Vec::new();
    loop
        invariant
            collect_formats(n0, b0) == (match collect_formats(
                it.spec_remaining() as nat,
                it.spec_buf(),
            ) {
                Some(s) => Some(out@ + s),
                None => None::<Seq<u16>>,
            }),
        decreases it.spec_remaining() as int,
    {
        let ghost n = it.spec_remaining() as nat;
        let ghost b = it.spec_buf();
        match it.next() {
            Ok(Some(v)) => {
                out.push(v);
                proof {
                    assert(collect_formats(n, b) == (match collect_formats(
                        it.spec_remaining() as nat,
                        it.spec_buf(),
                    ) {
                        Some(s) => Some(seq![v] + s),
                        None => None::<Seq<u16>>,
                    }));
                    if (collect_formats(it.spec_remaining() as nat, it.spec_buf())) is Some {
                        let s = (collect_formats(it.spec_remaining() as nat, it.spec_buf()))->Some_0;
                        assert(out@ + s =~= out@.drop_last() + (seq![v] + s));
                    }
                }
            },
            Ok(None) => {
                proof {
                    assert(out@ + Seq::<u16>::empty() =~= out@);
                }
                return Ok(out);
            },
            Err(e) => {
                return Err(e);
            },
        }
    }
}

/// Drains a parameter-type cursor into a vector.
#[verifier::loop_isolation(false)]
fn drain_oids(it: backend::Parameters<'_>) -> (r: Result<Vec<Oid>, PgError>)
    ensures
        match collect_oids(it.spec_remaining() as nat, it.spec_buf()) {
            Some(s) => r matches Ok(v) && v@ == s,
            None => r is Err,
        },
{
    let ghost n0 = it.spec_remaining() as nat;
    let ghost b0 = it.spec_buf();
    let mut it = it;
    let mut out: Vec<Oid> = Vec::new();
    loop
        invariant
            collect_oids(n0, b0) == (match collect_oids(
                it.spec_remaining() as nat,
                it.spec_buf(),
            ) {
                Some(s) => Some(out@ + s),
                None => None::<Seq<Oid>>,
            }),
        decreases it.spec_remaining() as int,
    {
        let ghost n = it.spec_remaining() as nat;
        let ghost b = it.spec_buf();
        match it.next() {
            Ok(Some(v)) => {
                out.push(v);
                proof {
                    if (collect_oids(it.spec_remaining() as nat, it.spec_buf())) is Some {
                        let s = (collect_oids(it.spec_remaining() as nat, it.spec_buf()))->Some_0;
                        assert(out@ + s =~= out@.drop_last() + (seq![v] + s));
                    }
                }
            },
            Ok(None) => {
                proof {
                    assert(out@ + Seq::<Oid>::empty() =~= out@);
                }
                return Ok(out);
            },
            Err(e) => {
                return Err(e);
            },
        }
    }
}

/// Drains a data-row value cursor into a vector, copying each payload.
#[verifier::loop_isolation(false)]
fn drain_values(it: backend::DataRowValues<'_>) -> (r: Result<Vec<Option<Vec<u8>>>, PgError>)
    ensures
        match collect_values(it.spec_remaining() as nat, it.spec_buf()) {
            Some(s) => r matches Ok(v) && elems_view(v@) == s,
            None => r is Err,
        },
{
    let ghost n0 = it.spec_remaining() as nat;
    let ghost b0 = it.spec_buf();
    let mut it = it;
    let mut out: Vec<Option<Vec<u8>>> = Vec::new();
    loop
        invariant
            collect_values(n0, b0) == (match collect_values(
                it.spec_remaining() as nat,
                it.spec_buf(),
            ) {
                Some(s) => Some(elems_view(out@) + s),
                None => None::<Seq<Option<Seq<u8>>>>,
            }),
        decreases it.spec_remaining() as int,
    {
        let ghost n = it.spec_remaining() as nat;
        let ghost b = it.spec_buf();
        match it.next() {
            Ok(Some(v)) => {
                let owned_v = match v {
                    Some(s) => Some(slice_to_vec(s)),
                    None => None,
                };
                let ghost value = match &owned_v {
                    Some(p) => Some(p@),
                    None => None::<Seq<u8>>,
                };
                out.push(owned_v);
                proof {
                    if (collect_values(it.spec_remaining() as nat, it.spec_buf())) is Some {
                        let s = (collect_values(it.spec_remaining() as nat, it.spec_buf()))->Some_0;
                        assert(elems_view(out@) =~= elems_view(out@.drop_last()) + seq![value]);
                        assert(elems_view(out@) + s =~= elems_view(out@.drop_last()) + (
                        seq![value] + s));
                    }
                }
            },
            Ok(None) => {
                proof {
                    assert(elems_view(out@) + Seq::<Option<Seq<u8>>>::empty() =~= elems_view(
                        out@,
                    ));
                }
                return Ok(out);
            },
            Err(e) => {
                return Err(e);
            },
        }
    }
}

/// Drains an error-field cursor into a vector, copying each value.
#[verifier::loop_isolation(false)]
fn drain_error_fields(it: backend::ErrorFields<'_>) -> (r: Result<Vec<(u8, String)>, PgError>)
    ensures
        match collect_error_fields(it.spec_buf()) {
            Some(s) => r matches Ok(v) && error_fields_view(v@) == s,
            None => r is Err,
        },
{
    let ghost b0 = it.spec_buf();
    let mut it = it;
    let mut out: Vec<(u8, String)> = Vec::new();
    loop
        invariant
            collect_error_fields(b0) == (match collect_error_fields(it.spec_buf()) {
                Some(s) => Some(error_fields_view(out@) + s),
                None => None::<Seq<(u8, Seq<char>)>>,
            }),
        decreases it.spec_buf().len(),
    {
        let ghost b = it.spec_buf();
        match it.next() {
            Ok(Some(f)) => {
                let code = f.type_();
                let value = f.value().to_owned();
                let ghost entry = (code, value@);
                out.push((code, value));
                proof {
                    crate::primitives::lemma_nul_pos(b.subrange(1, b.len() as int));
                    if (collect_error_fields(it.spec_buf())) is Some {
                        let s = (collect_error_fields(it.spec_buf()))->Some_0;
                        assert(error_fields_view(out@) =~= error_fields_view(out@.drop_last())
                            + seq![entry]);
                        assert(error_fields_view(out@) + s =~= error_fields_view(
                            out@.drop_last(),
                        ) + (seq![entry] + s));
                    }
                }
            },
            Ok(None) => {
                proof {
                    assert(error_fields_view(out@) + Seq::<(u8, Seq<char>)>::empty()
                        =~= error_fields_view(out@));
                }
                return Ok(out);
            },
            Err(e) => {
                return Err(e);
            },
        }
    }
}

/// Drains a row-description field cursor into a vector, copying each
/// descriptor.
#[verifier::loop_isolation(false)]
fn drain_fields(it: backend::Fields<'_>) -> (r: Result<Vec<RowDescriptionEntry>, PgError>)
    ensures
        match collect_fields(it.spec_remaining() as nat, it.spec_buf()) {
            Some(s) => r matches Ok(v) && fields_view(v@) == s,
            None => r is Err,
        },
{
    let ghost n0 = it.spec_remaining() as nat;
    let ghost b0 = it.spec_buf();
    let mut it = it;
    let mut out: Vec<RowDescriptionEntry> = Vec::new();
    loop
        invariant
            collect_fields(n0, b0) == (match collect_fields(
                it.spec_remaining() as nat,
                it.spec_buf(),
            ) {
                Some(s) => Some(fields_view(out@) + s),
                None => None::<Seq<SpecField>>,
            }),
        decreases it.spec_remaining() as int,
    {
        let ghost n = it.spec_remaining() as nat;
        let ghost b = it.spec_buf();
        match it.next() {
            Ok(Some(f)) => {
                let entry = RowDescriptionEntry {
                    name: f.name().to_owned(),
                    table_oid: f.table_oid(),
                    column_id: f.column_id(),
                    type_oid: f.type_oid(),
                    type_size: f.type_size(),
                    type_modifier: f.type_modifier(),
                    format: f.format(),
                };
                proof {
                    assert(entry@ == f@);
                }
                out.push(entry);
                proof {
                    if (collect_fields(it.spec_remaining() as nat, it.spec_buf())) is Some {
                        let s = (collect_fields(it.spec_remaining() as nat, it.spec_buf()))->Some_0;
                        assert(fields_view(out@) =~= fields_view(out@.drop_last()) + seq![f@]);
                        assert(fields_view(out@) + s =~= fields_view(out@.drop_last()) + (
                        seq![f@] + s));
                    }
                }
            },
            Ok(None) => {
                proof {
                    assert(fields_view(out@) + Seq::<SpecField>::empty() =~= fields_view(out@));
                }
                return Ok(out);
            },
            Err(e) => {
                return Err(e);
            },
        }
    }
}

/// Converts a borrowed message into one that owns its payloads, draining
/// each sub-cursor once; fails exactly when a sub-cursor's declared
/// structure does not run to its end.
fn to_owned_message(m: backend::Message<'_>) -> (r: Result<Message, PgError>)
    ensures
        spec_drain_ok(m@) ==> (r matches Ok(o) && owned_matches(o, m@)),
        !spec_drain_ok(m@) ==> r is Err,
{
    match m {
        backend::Message::AuthenticationCleartextPassword => Ok(
            Message::AuthenticationCleartextPassword,
        ),
        backend::Message::AuthenticationGss => Ok(Message::AuthenticationGSS),
        backend::Message::AuthenticationKerberosV5 => Ok(Message::AuthenticationKerberosV5),
        backend::Message::AuthenticationMd5Password(body) => Ok(
            Message::AuthenticationMD5Password { salt: body.salt() },
        ),
        backend::Message::AuthenticationOk => Ok(Message::AuthenticationOk),
        backend::Message::AuthenticationScmCredential => Ok(Message::AuthenticationSCMCredential),
        backend::Message::AuthenticationSspi => Ok(Message::AuthenticationSSPI),
        backend::Message::BackendKeyData(body) => Ok(
            Message::BackendKeyData {
                process_id: body.process_id(),
                secret_key: body.secret_key(),
            },
        ),
        backend::Message::BindComplete => Ok(Message::BindComplete),
        backend::Message::CloseComplete => Ok(Message::CloseComplete),
        backend::Message::CommandComplete(body) => Ok(
            Message::CommandComplete { tag: body.tag().to_owned() },
        ),
        backend::Message::CopyData(body) => Ok(
            Message::CopyData { data: slice_to_vec(body.data()) },
        ),
        backend::Message::CopyDone => Ok(Message::CopyDone),
        backend::Message::CopyInResponse(body) => {
            let format = body.format();
            match drain_formats(body.column_formats()) {
                Ok(column_formats) => Ok(Message::CopyInResponse { format, column_formats }),
                Err(e) => Err(e),
            }
        },
        backend::Message::CopyOutResponse(body) => {
            let format = body.format();
            match drain_formats(body.column_formats()) {
                Ok(column_formats) => Ok(Message::CopyOutResponse { format, column_formats }),
                Err(e) => Err(e),
            }
        },
        backend::Message::DataRow(body) => {
            match drain_values(body.values()) {
                Ok(row) => Ok(Message::DataRow { row }),
                Err(e) => Err(e),
            }
        },
        backend::Message::EmptyQueryResponse => Ok(Message::EmptyQueryResponse),
        backend::Message::ErrorResponse(body) => {
            match drain_error_fields(body.fields()) {
                Ok(fields) => Ok(Message::ErrorResponse { fields }),
                Err(e) => Err(e),
            }
        },
        backend::Message::NoData => Ok(Message::NoData),
        backend::Message::NoticeResponse(body) => {
            match drain_error_fields(body.fields()) {
                Ok(fields) => Ok(Message::NoticeResponse { fields }),
                Err(e) => Err(e),
            }
        },
        backend::Message::NotificationResponse(body) => Ok(
            Message::NotificationResponse {
                process_id: body.process_id(),
                channel: body.channel().to_owned(),
                payload: body.message().to_owned(),
            },
        ),
        backend::Message::ParameterDescription(body) => {
            match drain_oids(body.parameters()) {
                Ok(types) => Ok(Message::ParameterDescription { types }),
                Err(e) => Err(e),
            }
        },
        backend::Message::ParameterStatus(body) => Ok(
            Message::ParameterStatus {
                parameter: body.name().to_owned(),
                value: body.value().to_owned(),
            },
        ),
        backend::Message::ParseComplete => Ok(Message::ParseComplete),
        backend::Message::PortalSuspended => Ok(Message::PortalSuspended),
        backend::Message::ReadyForQuery(body) => Ok(
            Message::ReadyForQuery { state: body.status() },
        ),
        backend::Message::RowDescription(body) => {
            match drain_fields(body.fields()) {
                Ok(descriptions) => Ok(Message::RowDescription { descriptions }),
                Err(e) => Err(e),
            }
        },
        backend::Message::__ForExtensibility => Err(PgError::InvalidMessageLength),
    }
}

impl Message {
    /// Attempts to deserialize one backend message from the buffer into
    /// an owned message: the parse outcome agrees with [`spec_parse`],
    /// and a complete message is drained into owned payloads, which
    /// succeeds exactly when every declared substructure runs to its end.
    pub fn parse(buf: &[u8]) -> (r: Result<ParseResult<Message>, PgError>)
        ensures
            match spec_parse(buf@) {
                SpecParseOutcome::Complete { message, consumed } => {
                    if spec_drain_ok(message) {
                        &&& r matches Ok(pr)
                        &&& pr matches ParseResult::Complete { message: m, consumed: c }
                        &&& owned_matches(m, message)
                        &&& c == consumed
                    } else {
                        r is Err
                    }
                },
                SpecParseOutcome::Incomplete { required } => {
                    &&& r matches Ok(pr)
                    &&& pr matches ParseResult::Incomplete { required_size }
                    &&& match required {
                        Some(n) => required_size matches Some(u) && u == n,
                        None => required_size is None,
                    }
                },
                SpecParseOutcome::Error { err } => r matches Err(e) && e == err,
            },
    {
        match backend::Message::parse(buf) {
            Ok(backend::ParseResult::Complete { message, consumed }) => {
                match to_owned_message(message) {
                    Ok(m) => Ok(ParseResult::Complete { message: m, consumed }),
                    Err(e) => Err(e),
                }
            },
            Ok(backend::ParseResult::Incomplete { required_size }) => Ok(
                ParseResult::Incomplete { required_size },
            ),
            Err(e) => Err(e),
        }
    }
}

} // verus!
