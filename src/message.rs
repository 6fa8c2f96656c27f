//! Messages, their parameter and result payloads, and the envelope codec.
use vstd::prelude::*;
use vstd::utf8::{encode_utf8, valid_utf8, decode_utf8};
use crate::method::{Method, method_name, dispatch_key, resolve, serves, same_bytes, Registry};
use crate::laws::{law_round_trip, reply_method, wire_view};
use crate::profile::login_with_password;
use crate::profile::login_with_token;
use crate::wire::{
    ReadFail, Container, NIL, enc_uint, enc_header, enc_blob, enc_bool, read_uint, read_header,
    read_blob, read_bool, read_uint64, take_uint64, put_uint, put_header, put_blob, put_bool, take_uint, take_header,
    take_blob, take_bool,
};

verus! {

/// The parameters of a call: one variant for each registered method.
#[allow(non_camel_case_types)]
#[derive(Clone, Debug, PartialEq, Eq)]
pub enum Params {
    Profile_LoginWithPassword(login_with_password::Params),
    Profile_LoginWithToken(login_with_token::Params),
}

#[allow(non_camel_case_types)]
pub enum ParamsModel {
    Profile_LoginWithPassword(login_with_password::ParamsModel),
    Profile_LoginWithToken(Seq<char>),
}

impl View for Params {
    type V = ParamsModel;

    open spec fn view(&self) -> ParamsModel {
        match self {
            Params::Profile_LoginWithPassword(x) => ParamsModel::Profile_LoginWithPassword(x@),
            Params::Profile_LoginWithToken(x) => ParamsModel::Profile_LoginWithToken(x@),
        }
    }
}

/// The results of a call: one variant for each registered method.
#[allow(non_camel_case_types)]
#[derive(Clone, Copy, Debug, PartialEq, Eq, Structural)]
pub enum Results {
    Profile_LoginWithPassword(login_with_password::Results),
    Profile_LoginWithToken(login_with_token::Results),
}

/// A request, or the response that answers one.
#[derive(Clone, Debug, PartialEq, Eq)]
pub enum Message {
    Request { parent: Option<u32>, id: u32, params: Params },
    Response { id: u32, error: Option<String>, results: Results },
}

pub enum MessageModel {
    Request { parent: Option<u32>, id: u32, params: ParamsModel },
    Response { id: u32, error: Option<Seq<char>>, results: Results },
}

impl View for Message {
    type V = MessageModel;

    open spec fn view(&self) -> MessageModel {
        match self {
            Message::Request { parent, id, params } => MessageModel::Request {
                parent: *parent,
                id: *id,
                params: params@,
            },
            Message::Response { id, error, results } => MessageModel::Response {
                id: *id,
                error: match error {
                    Some(e) => Some(e@),
                    None => None,
                },
                results: *results,
            },
        }
    }
}

pub open spec fn params_method(p: ParamsModel) -> Method {
    match p {
        ParamsModel::Profile_LoginWithPassword(_) => Method::ProfileLoginWithPassword,
        ParamsModel::Profile_LoginWithToken(_) => Method::ProfileLoginWithToken,
    }
}

pub open spec fn results_method(r: Results) -> Method {
    match r {
        Results::Profile_LoginWithPassword(_) => Method::ProfileLoginWithPassword,
        Results::Profile_LoginWithToken(_) => Method::ProfileLoginWithToken,
    }
}

/// A value whose type determines the method it is sent with.
pub trait ParamsLike {
    spec fn method_spec(&self) -> Seq<char>;

    fn method(&self) -> (r: &'static str)
        ensures
            r@ == self.method_spec(),
    ;
}

impl Params {
    /// The method these parameters belong to.
    pub fn kind(&self) -> (r: Method)
        ensures
            r == params_method(self@),
    {
        match self {
            Params::Profile_LoginWithPassword(_) => Method::ProfileLoginWithPassword,
            Params::Profile_LoginWithToken(_) => Method::ProfileLoginWithToken,
        }
    }
}

impl ParamsLike for Params {
    open spec fn method_spec(&self) -> Seq<char> {
        method_name(params_method(self@))
    }

    fn method(&self) -> (r: &'static str) {
        self.kind().name()
    }
}

impl Results {
    /// The method these results answer.
    pub fn kind(&self) -> (r: Method)
        ensures
            r == results_method(*self),
    {
        match self {
            Results::Profile_LoginWithPassword(_) => Method::ProfileLoginWithPassword,
            Results::Profile_LoginWithToken(_) => Method::ProfileLoginWithToken,
        }
    }
}

/// A positional field of the envelope or of a payload record.
#[derive(Clone, Copy, Debug, PartialEq, Eq, Structural)]
pub enum Field {
    Envelope,
    Type,
    Id,
    Method,
    Params,
    Error,
    Results,
    Username,
    Password,
    Bytes,
    Token,
    Outcome,
}

/// The kind of value a field holds.
#[derive(Clone, Copy, Debug, PartialEq, Eq, Structural)]
pub enum Expected {
    Unsigned,
    Text,
    TextOrNil,
    Bytes,
    Bool,
    Array,
}

/// Why bytes could not be decoded into a message.
#[derive(Clone, Copy, Debug, PartialEq, Eq, Structural)]
pub enum DecodeError {
    /// The input, or the array that should hold the field, ends before it;
    /// for the id, also an id that is not a well-formed unsigned integer.
    MissingField(Field),
    /// The envelope's discriminant is neither a request nor a response.
    UnknownMessageType(u64),
    /// No method is registered under the name; carries the name's dispatch key.
    UnknownMethod(u64),
    /// The field begins with this marker byte, of another kind than expected.
    TypeMismatch(Expected, u8),
    /// A value is cut short, a string is not UTF-8, an array holds more
    /// elements than its record, or bytes follow the message.
    MalformedPayload,
}

/// Why a message could not be encoded.
#[derive(Clone, Copy, Debug, PartialEq, Eq, Structural)]
pub enum EncodeError {
    /// The field's bytes do not fit a 32-bit length.
    TooLong(Field),
}

/// A string on the wire: its UTF-8 bytes, behind a string header.
pub open spec fn enc_text(s: Seq<char>) -> Seq<u8> {
    enc_blob(Container::Text, encode_utf8(s))
}

pub open spec fn text_fits(s: Seq<char>) -> bool {
    encode_utf8(s).len() <= u32::MAX
}

pub open spec fn enc_params(p: ParamsModel) -> Seq<u8> {
    match p {
        ParamsModel::Profile_LoginWithPassword(x) => enc_header(Container::Array, 3) + enc_text(
            x.username,
        ) + enc_text(x.password) + enc_blob(Container::Bytes, x.bytes),
        ParamsModel::Profile_LoginWithToken(t) => enc_header(Container::Array, 1) + enc_text(t),
    }
}

pub open spec fn enc_results(r: Results) -> Seq<u8> {
    match r {
        Results::Profile_LoginWithPassword(x) => enc_header(Container::Array, 1) + enc_bool(x.ok),
        Results::Profile_LoginWithToken(x) => enc_header(Container::Array, 1) + enc_bool(x.ok),
    }
}

pub open spec fn enc_error(e: Option<Seq<char>>) -> Seq<u8> {
    match e {
        Some(s) => enc_text(s),
        None => seq![NIL],
    }
}

/// The wire form: `[0, id, method, params]` or `[1, id, error, results]`.
pub open spec fn enc_message(m: MessageModel) -> Seq<u8> {
    match m {
        MessageModel::Request { id, params, .. } => enc_header(Container::Array, 4) + enc_uint(0)
            + enc_uint(id) + enc_text(method_name(params_method(params))) + enc_params(params),
        MessageModel::Response { id, error, results } => enc_header(Container::Array, 4)
            + enc_uint(1) + enc_uint(id) + enc_error(error) + enc_results(results),
    }
}

/// The first field, in wire order, whose bytes do not fit a 32-bit length.
pub open spec fn oversized(m: MessageModel) -> Option<Field> {
    match m {
        MessageModel::Request { params, .. } => if !text_fits(
            method_name(params_method(params)),
        ) {
            Some(Field::Method)
        } else {
            params_oversized(params)
        },
        MessageModel::Response { error, .. } => match error {
            Some(e) => if !text_fits(e) {
                Some(Field::Error)
            } else {
                None
            },
            None => None,
        },
    }
}

fn put_text(buf: &mut Vec<u8>, s: &str, f: Field) -> (r: Result<(), EncodeError>)
    ensures
        text_fits(s@) ==> r is Ok && final(buf)@ == old(buf)@ + enc_text(s@),
        !text_fits(s@) ==> r == Err::<(), EncodeError>(EncodeError::TooLong(f)),
{
    let raw = s.as_bytes();
    if raw.len() > 0xffff_ffffusize {
        return Err(EncodeError::TooLong(f));
    }
    put_blob(buf, Container::Text, raw);
    Ok(())
}

fn put_params(buf: &mut Vec<u8>, p: &Params) -> (r: Result<(), EncodeError>)
    ensures
        match params_oversized(p@) {
            Some(f) => r == Err::<(), EncodeError>(EncodeError::TooLong(f)),
            None => r is Ok && final(buf)@ == old(buf)@ + enc_params(p@),
        },
{
    match p {
        Params::Profile_LoginWithPassword(x) => {
            put_header(buf, Container::Array, 3);
            put_text(buf, x.username.as_str(), Field::Username)?;
            put_text(buf, x.password.as_str(), Field::Password)?;
            if x.bytes.len() > 0xffff_ffffusize {
                return Err(EncodeError::TooLong(Field::Bytes));
            }
            put_blob(buf, Container::Bytes, x.bytes.as_slice());
        },
        Params::Profile_LoginWithToken(x) => {
            put_header(buf, Container::Array, 1);
            put_text(buf, x.token.as_str(), Field::Token)?;
        },
    }
    assert(final(buf)@ =~= old(buf)@ + enc_params(p@));
    Ok(())
}

/// The first field of the parameters whose bytes do not fit a 32-bit length.
pub open spec fn params_oversized(p: ParamsModel) -> Option<Field> {
    match p {
        ParamsModel::Profile_LoginWithPassword(x) => if !text_fits(x.username) {
            Some(Field::Username)
        } else if !text_fits(x.password) {
            Some(Field::Password)
        } else if x.bytes.len() > u32::MAX {
            Some(Field::Bytes)
        } else {
            None
        },
        ParamsModel::Profile_LoginWithToken(t) => if !text_fits(t) {
            Some(Field::Token)
        } else {
            None
        },
    }
}

fn put_results(buf: &mut Vec<u8>, r: &Results)
    ensures
        final(buf)@ == old(buf)@ + enc_results(*r),
{
    put_header(buf, Container::Array, 1);
    match r {
        Results::Profile_LoginWithPassword(x) => put_bool(buf, x.ok),
        Results::Profile_LoginWithToken(x) => put_bool(buf, x.ok),
    }
    assert(final(buf)@ =~= old(buf)@ + enc_results(*r));
}

/// Encodes a message as its positional array. A request's `parent` is not
/// carried on the wire.
pub fn encode(m: &Message) -> (r: Result<Vec<u8>, EncodeError>)
    ensures
        match oversized(m@) {
            Some(f) => r == Err::<Vec<u8>, EncodeError>(EncodeError::TooLong(f)),
            None => r matches Ok(v) && v@ == enc_message(m@),
        },
{
    let mut buf: Vec<u8> = Vec::new();
    put_header(&mut buf, Container::Array, 4);
    match m {
        Message::Request { id, params, .. } => {
            put_uint(&mut buf, 0);
            put_uint(&mut buf, *id);
            put_text(&mut buf, params.method(), Field::Method)?;
            put_params(&mut buf, params)?;
        },
        Message::Response { id, error, results } => {
            put_uint(&mut buf, 1);
            put_uint(&mut buf, *id);
            match error {
                Some(e) => {
                    put_text(&mut buf, e.as_str(), Field::Error)?;
                },
                None => {
                    buf.push(NIL);
                },
            }
            put_results(&mut buf, results);
        },
    }
    assert(buf@ =~= enc_message(m@));
    Ok(buf)
}


/// The decode error for a value that could not be read.
pub open spec fn fail(e: ReadFail, f: Field, x: Expected) -> DecodeError {
    match e {
        ReadFail::End => DecodeError::MissingField(f),
        ReadFail::Mismatch(m) => DecodeError::TypeMismatch(x, m),
        ReadFail::Malformed => DecodeError::MalformedPayload,
    }
}

fn failure(e: ReadFail, f: Field, x: Expected) -> (r: DecodeError)
    ensures
        r == fail(e, f, x),
{
    match e {
        ReadFail::End => DecodeError::MissingField(f),
        ReadFail::Mismatch(m) => DecodeError::TypeMismatch(x, m),
        ReadFail::Malformed => DecodeError::MalformedPayload,
    }
}

/// Reads a string field at `p`.
pub open spec fn parse_text(b: Seq<u8>, p: usize, f: Field, x: Expected) -> Result<
    (Seq<char>, usize),
    DecodeError,
> {
    match read_blob(b, p, Container::Text) {
        Err(e) => Err(fail(e, f, x)),
        Ok((s, e)) => if valid_utf8(b.subrange(s as int, e as int)) {
            Ok((decode_utf8(b.subrange(s as int, e as int)), e))
        } else {
            Err(DecodeError::MalformedPayload)
        },
    }
}

/// Relies on `std::str::from_utf8`, which accepts exactly the valid UTF-8
/// byte strings, and on `String::from` to own the result.
#[verifier::external_body]
fn text_from_utf8(raw: &[u8]) -> (r: Option<String>)
    ensures
        r is Some <==> valid_utf8(raw@),
        r matches Some(s) ==> s@ == decode_utf8(raw@),
{
    std::str::from_utf8(raw).ok().map(String::from)
}

fn take_text(b: &[u8], p: usize, f: Field, x: Expected) -> (r: Result<(String, usize), DecodeError>)
    ensures
        match parse_text(b@, p, f, x) {
            Ok((t, q)) => r matches Ok((s, q2)) && s@ == t && q2 == q,
            Err(e) => r == Err::<(String, usize), DecodeError>(e),
        },
{
    match take_blob(b, p, Container::Text) {
        Err(e) => Err(failure(e, f, x)),
        Ok((s, e)) => match text_from_utf8(vstd::slice::slice_subrange(b, s, e)) {
            Some(t) => Ok((t, e)),
            None => Err(DecodeError::MalformedPayload),
        },
    }
}

/// Reads the parameter record of method `k` at `p`.
#[verifier::opaque]
pub open spec fn parse_params(b: Seq<u8>, p: usize, k: Method) -> Result<
    (ParamsModel, usize),
    DecodeError,
> {
    match read_header(b, p, Container::Array) {
        Err(e) => Err(fail(e, Field::Params, Expected::Array)),
        Ok((n, q)) => match k {
            Method::ProfileLoginWithPassword => if n < 1 {
                Err(DecodeError::MissingField(Field::Username))
            } else {
                match parse_text(b, q, Field::Username, Expected::Text) {
                    Err(e) => Err(e),
                    Ok((username, q1)) => if n < 2 {
                        Err(DecodeError::MissingField(Field::Password))
                    } else {
                        match parse_text(b, q1, Field::Password, Expected::Text) {
                            Err(e) => Err(e),
                            Ok((password, q2)) => if n < 3 {
                                Err(DecodeError::MissingField(Field::Bytes))
                            } else {
                                match read_blob(b, q2, Container::Bytes) {
                                    Err(e) => Err(fail(e, Field::Bytes, Expected::Bytes)),
                                    Ok((s, e)) => if n > 3 {
                                        Err(DecodeError::MalformedPayload)
                                    } else {
                                        Ok(
                                            (
                                                ParamsModel::Profile_LoginWithPassword(
                                                    login_with_password::ParamsModel {
                                                        username,
                                                        password,
                                                        bytes: b.subrange(s as int, e as int),
                                                    },
                                                ),
                                                e,
                                            ),
                                        )
                                    },
                                }
                            },
                        }
                    },
                }
            },
            Method::ProfileLoginWithToken => if n < 1 {
                Err(DecodeError::MissingField(Field::Token))
            } else {
                match parse_text(b, q, Field::Token, Expected::Text) {
                    Err(e) => Err(e),
                    Ok((token, q1)) => if n > 1 {
                        Err(DecodeError::MalformedPayload)
                    } else {
                        Ok((ParamsModel::Profile_LoginWithToken(token), q1))
                    },
                }
            },
        },
    }
}

fn take_params(b: &[u8], p: usize, k: Method) -> (r: Result<(Params, usize), DecodeError>)
    ensures
        match parse_params(b@, p, k) {
            Ok((v, q)) => r matches Ok((x, q2)) && x@ == v && q2 == q,
            Err(e) => r == Err::<(Params, usize), DecodeError>(e),
        },
{
    reveal(parse_params);
    let (n, q) = match take_header(b, p, Container::Array) {
        Err(e) => {
            return Err(failure(e, Field::Params, Expected::Array));
        },
        Ok(h) => h,
    };
    match k {
        Method::ProfileLoginWithPassword => {
            if n < 1 {
                return Err(DecodeError::MissingField(Field::Username));
            }
            let (username, q1) = take_text(b, q, Field::Username, Expected::Text)?;
            if n < 2 {
                return Err(DecodeError::MissingField(Field::Password));
            }
            let (password, q2) = take_text(b, q1, Field::Password, Expected::Text)?;
            if n < 3 {
                return Err(DecodeError::MissingField(Field::Bytes));
            }
            let (s, e) = match take_blob(b, q2, Container::Bytes) {
                Err(e) => {
                    return Err(failure(e, Field::Bytes, Expected::Bytes));
                },
                Ok(span) => span,
            };
            if n > 3 {
                return Err(DecodeError::MalformedPayload);
            }
            let bytes = vstd::slice::slice_to_vec(vstd::slice::slice_subrange(b, s, e));
            Ok(
                (
                    Params::Profile_LoginWithPassword(
                        login_with_password::Params { username, password, bytes },
                    ),
                    e,
                ),
            )
        },
        Method::ProfileLoginWithToken => {
            if n < 1 {
                return Err(DecodeError::MissingField(Field::Token));
            }
            let (token, q1) = take_text(b, q, Field::Token, Expected::Text)?;
            if n > 1 {
                return Err(DecodeError::MalformedPayload);
            }
            Ok((Params::Profile_LoginWithToken(login_with_token::Params { token }), q1))
        },
    }
}

/// Reads the result record of method `k` at `p`.
pub open spec fn parse_results(b: Seq<u8>, p: usize, k: Method) -> Result<
    (Results, usize),
    DecodeError,
> {
    match read_header(b, p, Container::Array) {
        Err(e) => Err(fail(e, Field::Results, Expected::Array)),
        Ok((n, q)) => if n < 1 {
            Err(DecodeError::MissingField(Field::Outcome))
        } else {
            match read_bool(b, q) {
                Err(e) => Err(fail(e, Field::Outcome, Expected::Bool)),
                Ok((ok, q1)) => if n > 1 {
                    Err(DecodeError::MalformedPayload)
                } else {
                    match k {
                        Method::ProfileLoginWithPassword => Ok(
                            (
                                Results::Profile_LoginWithPassword(
                                    login_with_password::Results { ok },
                                ),
                                q1,
                            ),
                        ),
                        Method::ProfileLoginWithToken => Ok(
                            (Results::Profile_LoginWithToken(login_with_token::Results { ok }), q1),
                        ),
                    }
                },
            }
        },
    }
}

fn take_results(b: &[u8], p: usize, k: Method) -> (r: Result<(Results, usize), DecodeError>)
    ensures
        r == parse_results(b@, p, k),
{
    let (n, q) = match take_header(b, p, Container::Array) {
        Err(e) => {
            return Err(failure(e, Field::Results, Expected::Array));
        },
        Ok(h) => h,
    };
    if n < 1 {
        return Err(DecodeError::MissingField(Field::Outcome));
    }
    let (ok, q1) = match take_bool(b, q) {
        Err(e) => {
            return Err(failure(e, Field::Outcome, Expected::Bool));
        },
        Ok(v) => v,
    };
    if n > 1 {
        return Err(DecodeError::MalformedPayload);
    }
    match k {
        Method::ProfileLoginWithPassword => Ok(
            (Results::Profile_LoginWithPassword(login_with_password::Results { ok }), q1),
        ),
        Method::ProfileLoginWithToken => Ok(
            (Results::Profile_LoginWithToken(login_with_token::Results { ok }), q1),
        ),
    }
}

/// Reads a response's error field at `p`: nil, or a string.
pub open spec fn parse_error(b: Seq<u8>, p: usize) -> Result<(Option<Seq<char>>, usize), DecodeError> {
    if p < b.len() && b[p as int] == NIL {
        Ok((None, (p + 1) as usize))
    } else {
        match parse_text(b, p, Field::Error, Expected::TextOrNil) {
            Err(e) => Err(e),
            Ok((s, q)) => Ok((Some(s), q)),
        }
    }
}

/// The message that follows a request's discriminant, from an envelope of `n` elements.
pub open spec fn parse_request(
    reg: Seq<(Seq<char>, Method)>,
    b: Seq<u8>,
    n: u32,
    p: usize,
) -> Result<MessageModel, DecodeError> {
    if n < 2 {
        Err(DecodeError::MissingField(Field::Id))
    } else {
        match read_uint(b, p) {
            Err(_) => Err(DecodeError::MissingField(Field::Id)),
            Ok((id, p1)) => if n < 3 {
                Err(DecodeError::MissingField(Field::Method))
            } else {
                match parse_text(b, p1, Field::Method, Expected::Text) {
                    Err(e) => Err(e),
                    Ok((name, p2)) => match resolve(reg, name) {
                        None => Err(DecodeError::UnknownMethod(dispatch_key(name))),
                        Some(k) => if n < 4 {
                            Err(DecodeError::MissingField(Field::Params))
                        } else {
                            match parse_params(b, p2, k) {
                                Err(e) => Err(e),
                                Ok((params, q)) => if n > 4 || q != b.len() {
                                    Err(DecodeError::MalformedPayload)
                                } else {
                                    Ok(MessageModel::Request { parent: None, id, params })
                                },
                            }
                        },
                    },
                }
            },
        }
    }
}

/// The message that follows a response's discriminant, from an envelope of `n` elements.
pub open spec fn parse_response(b: Seq<u8>, n: u32, p: usize, reply_to: Option<Method>) -> Result<
    MessageModel,
    DecodeError,
> {
    if n < 2 {
        Err(DecodeError::MissingField(Field::Id))
    } else {
        match read_uint(b, p) {
            Err(_) => Err(DecodeError::MissingField(Field::Id)),
            Ok((id, p1)) => if n < 3 {
                Err(DecodeError::MissingField(Field::Error))
            } else {
                match parse_error(b, p1) {
                    Err(e) => Err(e),
                    Ok((error, p2)) => if n < 4 {
                        Err(DecodeError::MissingField(Field::Results))
                    } else {
                        match reply_to {
                            None => if p2 >= b.len() {
                                Err(DecodeError::MissingField(Field::Results))
                            } else {
                                Err(DecodeError::MissingField(Field::Method))
                            },
                            Some(k) => match parse_results(b, p2, k) {
                                Err(e) => Err(e),
                                Ok((results, q)) => if n > 4 || q != b.len() {
                                    Err(DecodeError::MalformedPayload)
                                } else {
                                    Ok(MessageModel::Response { id, error, results })
                                },
                            },
                        }
                    },
                }
            },
        }
    }
}

/// What decoding `b` yields, given the registry's table and, for a response,
/// the method of the request it answers.
pub open spec fn parse_message(
    reg: Seq<(Seq<char>, Method)>,
    b: Seq<u8>,
    reply_to: Option<Method>,
) -> Result<MessageModel, DecodeError> {
    match read_header(b, 0, Container::Array) {
        Err(e) => Err(fail(e, Field::Envelope, Expected::Array)),
        Ok((n, p)) => if n < 1 {
            Err(DecodeError::MissingField(Field::Type))
        } else {
            match read_uint64(b, p) {
                Err(e) => Err(fail(e, Field::Type, Expected::Unsigned)),
                Ok((t, p1)) => if t == 0 {
                    parse_request(reg, b, n, p1)
                } else if t == 1 {
                    parse_response(b, n, p1, reply_to)
                } else {
                    Err(DecodeError::UnknownMessageType(t))
                },
            }
        },
    }
}

pub open spec fn decoded(r: Result<Message, DecodeError>) -> Result<MessageModel, DecodeError> {
    match r {
        Ok(m) => Ok(m@),
        Err(e) => Err(e),
    }
}

impl Registry {
    /// Decodes one message that fills `b`. A request's method is read from the
    /// wire and resolved here; a response is decoded as an answer to
    /// `reply_to`, the method of the request it correlates with.
    pub fn decode(&self, b: &[u8], reply_to: Option<Method>) -> (r: Result<Message, DecodeError>)
        ensures
            decoded(r) == parse_message(self@, b@, reply_to),
            forall|m: MessageModel|
                b@ == #[trigger] enc_message(m) && oversized(m) is None && reply_to == reply_method(
                    m,
                ) && (m matches MessageModel::Request { params, .. } ==> serves(
                    self@,
                    params_method(params),
                )) ==> decoded(r) == Ok::<MessageModel, DecodeError>(wire_view(m)),
    {
        let _ = self.len();
        let total = b.len();
        proof {
            assert(b@.len() == total);
            assert forall|m: MessageModel|
                b@ == #[trigger] enc_message(m) && oversized(m) is None && reply_to == reply_method(
                    m,
                ) && (m matches MessageModel::Request { params, .. } ==> serves(
                    self@,
                    params_method(params),
                )) implies parse_message(self@, b@, reply_to) == Ok::<MessageModel, DecodeError>(
                wire_view(m),
            ) by {
                law_round_trip(self@, m);
            }
        }
        let (n, p) = match take_header(b, 0, Container::Array) {
            Err(e) => {
                return Err(failure(e, Field::Envelope, Expected::Array));
            },
            Ok(h) => h,
        };
        if n < 1 {
            return Err(DecodeError::MissingField(Field::Type));
        }
        let (t, p1) = match take_uint64(b, p) {
            Err(e) => {
                return Err(failure(e, Field::Type, Expected::Unsigned));
            },
            Ok(v) => v,
        };
        if t > 1 {
            return Err(DecodeError::UnknownMessageType(t));
        }
        if n < 2 {
            return Err(DecodeError::MissingField(Field::Id));
        }
        let (id, p2) = match take_uint(b, p1) {
            Err(_) => {
                return Err(DecodeError::MissingField(Field::Id));
            },
            Ok(v) => v,
        };
        if t == 0 {
            if n < 3 {
                return Err(DecodeError::MissingField(Field::Method));
            }
            let (name, p3) = take_text(b, p2, Field::Method, Expected::Text)?;
            let k = match self.lookup(name.as_str()) {
                Ok(k) => k,
                Err(key) => {
                    return Err(DecodeError::UnknownMethod(key));
                },
            };
            if n < 4 {
                return Err(DecodeError::MissingField(Field::Params));
            }
            let (params, q) = take_params(b, p3, k)?;
            if n > 4 || q != b.len() {
                return Err(DecodeError::MalformedPayload);
            }
            Ok(Message::Request { parent: None, id, params })
        } else {
            if n < 3 {
                return Err(DecodeError::MissingField(Field::Error));
            }
            let (error, p3) = if p2 < b.len() && b[p2] == NIL {
                (None, p2 + 1)
            } else {
                let (s, q) = take_text(b, p2, Field::Error, Expected::TextOrNil)?;
                (Some(s), q)
            };
            if n < 4 {
                return Err(DecodeError::MissingField(Field::Results));
            }
            let k = match reply_to {
                None => {
                    if p3 >= b.len() {
                        return Err(DecodeError::MissingField(Field::Results));
                    }
                    return Err(DecodeError::MissingField(Field::Method));
                },
                Some(k) => k,
            };
            let (results, q) = take_results(b, p3, k)?;
            if n > 4 || q != b.len() {
                return Err(DecodeError::MalformedPayload);
            }
            Ok(Message::Response { id, error, results })
        }
    }
}

/// Why a round trip could not be completed.
#[derive(Clone, Copy, Debug, PartialEq, Eq, Structural)]
pub enum CycleError {
    Encode(EncodeError),
    Decode(DecodeError),
}

impl Registry {
    /// Encodes `m`, decodes the bytes (a response as the answer to its own
    /// method), encodes the result again and tells whether both encodings are
    /// the same bytes.
    pub fn cycle(&self, m: &Message) -> (r: Result<bool, CycleError>)
        ensures
            match oversized(m@) {
                Some(f) => r == Err::<bool, CycleError>(CycleError::Encode(EncodeError::TooLong(f))),
                None => match parse_message(self@, enc_message(m@), reply_method(m@)) {
                    Err(e) => r == Err::<bool, CycleError>(CycleError::Decode(e)),
                    Ok(d) => match oversized(d) {
                        Some(f) => r == Err::<bool, CycleError>(
                            CycleError::Encode(EncodeError::TooLong(f)),
                        ),
                        None => r == Ok::<bool, CycleError>(enc_message(d) == enc_message(m@)),
                    },
                },
            },
            oversized(m@) is None && (m@ matches MessageModel::Request { params, .. } ==> serves(
                self@,
                params_method(params),
            )) ==> r == Ok::<bool, CycleError>(true),
    {
        let first = match encode(m) {
            Ok(b) => b,
            Err(e) => {
                return Err(CycleError::Encode(e));
            },
        };
        let _ = self.len();
        proof {
            if m@ matches MessageModel::Request { params, .. } ==> serves(
                self@,
                params_method(params),
            ) {
                law_round_trip(self@, m@);
            }
        }
        let reply_to = match m {
            Message::Request { .. } => None,
            Message::Response { results, .. } => Some(results.kind()),
        };
        let decoded = match self.decode(first.as_slice(), reply_to) {
            Ok(d) => d,
            Err(e) => {
                return Err(CycleError::Decode(e));
            },
        };
        let second = match encode(&decoded) {
            Ok(b) => b,
            Err(e) => {
                return Err(CycleError::Encode(e));
            },
        };
        Ok(same_bytes(first.as_slice(), second.as_slice()))
    }
}

} // verus!
