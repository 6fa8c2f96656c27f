//! What holds of the codec as a whole, stated over the wire form and the
//! parser that `encode` and `Registry::decode` are proved against.
use vstd::prelude::*;
use vstd::utf8::{encode_utf8, encode_utf8_decode_utf8, encode_utf8_valid_utf8};
use crate::method::{
    Method, method_name, dispatch_key, resolve, serves, keys_distinct, standard_entries,
};
use crate::message::{
    Expected, MessageModel, ParamsModel, Results, DecodeError, Field, enc_text, text_fits, enc_params,
    enc_results, enc_error, enc_message, oversized, params_oversized, params_method,
    results_method, parse_text, parse_params, parse_results, parse_error, parse_message,
};
use crate::wire::{
    ReadFail,
    Container, NIL, enc_uint, enc_header, enc_blob, enc_bool, read_uint, read_header, read_blob,
    read_bool, read_uint64, lemma_uint_round_trip, lemma_header_round_trip, lemma_blob_round_trip,
};

verus! {

/// `x` stands in `b` at position `p`.
pub open spec fn holds_at(b: Seq<u8>, p: int, x: Seq<u8>) -> bool {
    0 <= p && p + x.len() <= b.len() && b.subrange(p, p + x.len()) == x
}

proof fn split_at(b: Seq<u8>, p: int, x: Seq<u8>)
    requires
        holds_at(b, p, x),
    ensures
        b == b.subrange(0, p) + x + b.subrange(p + x.len(), b.len() as int),
{
    assert(b =~= b.subrange(0, p) + x + b.subrange(p + x.len(), b.len() as int));
}

proof fn uint_at(b: Seq<u8>, p: usize, v: u32)
    requires
        holds_at(b, p as int, enc_uint(v)),
        b.len() <= usize::MAX,
    ensures
        read_uint(b, p) == Ok::<(u32, usize), ReadFail>((v, (p + enc_uint(v).len()) as usize)),
        read_uint64(b, p) == Ok::<(u64, usize), ReadFail>(
            (v as u64, (p + enc_uint(v).len()) as usize),
        ),
{
    assert(b[p as int] == enc_uint(v)[0]);
    split_at(b, p as int, enc_uint(v));
    lemma_uint_round_trip(v, b.subrange(p + enc_uint(v).len(), b.len() as int), b.subrange(0, p as int));
}


proof fn header_at(b: Seq<u8>, p: usize, c: Container, n: u32)
    requires
        holds_at(b, p as int, enc_header(c, n)),
        b.len() <= usize::MAX,
    ensures
        read_header(b, p, c) == Ok::<(u32, usize), ReadFail>(
            (n, (p + enc_header(c, n).len()) as usize),
        ),
        1 <= enc_header(c, n).len() <= 5,
{
    let h = enc_header(c, n);
    split_at(b, p as int, h);
    lemma_header_round_trip(c, n, b.subrange(0, p as int), b.subrange(p + h.len(), b.len() as int));
}

proof fn blob_at(b: Seq<u8>, p: usize, c: Container, data: Seq<u8>)
    requires
        c != Container::Array,
        data.len() <= u32::MAX,
        holds_at(b, p as int, enc_blob(c, data)),
        b.len() <= usize::MAX,
    ensures
        ({
            let end = p + enc_blob(c, data).len();
            &&& read_blob(b, p, c) == Ok::<(usize, usize), ReadFail>(
                ((end - data.len()) as usize, end as usize),
            )
            &&& b.subrange(end - data.len(), end) == data
        }),
{
    let x = enc_blob(c, data);
    split_at(b, p as int, x);
    lemma_blob_round_trip(c, data, b.subrange(0, p as int), b.subrange(p + x.len(), b.len() as int));
}

proof fn text_at(b: Seq<u8>, p: usize, f: Field, x: Expected, s: Seq<char>)
    requires
        text_fits(s),
        holds_at(b, p as int, enc_text(s)),
        b.len() <= usize::MAX,
    ensures
        parse_text(b, p, f, x) == Ok::<(Seq<char>, usize), DecodeError>(
            (s, (p + enc_text(s).len()) as usize),
        ),
        b[p as int] != NIL,
{
    blob_at(b, p, Container::Text, encode_utf8(s));
    encode_utf8_valid_utf8(s);
    encode_utf8_decode_utf8(s);
    let n = encode_utf8(s).len() as u32;
    assert(b[p as int] == enc_header(Container::Text, n)[0]);
}

proof fn bool_at(b: Seq<u8>, p: usize, v: bool)
    requires
        holds_at(b, p as int, enc_bool(v)),
        b.len() <= usize::MAX,
    ensures
        read_bool(b, p) == Ok::<(bool, usize), ReadFail>((v, (p + 1) as usize)),
{
    assert(b[p as int] == enc_bool(v)[0]);
}

/// A part of `whole` stands in `b` where it stands in `whole`.
proof fn part_at(b: Seq<u8>, p: int, whole: Seq<u8>, off: int, part: Seq<u8>)
    requires
        holds_at(b, p, whole),
        0 <= off,
        off + part.len() <= whole.len(),
        whole.subrange(off, off + part.len()) == part,
    ensures
        holds_at(b, p + off, part),
{
    assert(b.subrange(p + off, p + off + part.len()) =~= whole.subrange(off, off + part.len()));
}

/// Payload round trip: a parameter record encoded at `p` reads back, under its
/// own method, as the same record, ending where its encoding ends.
pub proof fn law_params_round_trip(b: Seq<u8>, p: usize, params: ParamsModel)
    requires
        params_oversized(params) is None,
        holds_at(b, p as int, enc_params(params)),
        b.len() <= usize::MAX,
    ensures
        parse_params(b, p, params_method(params)) == Ok::<(ParamsModel, usize), DecodeError>(
            (params, (p + enc_params(params).len()) as usize),
        ),
{
    reveal(parse_params);
    let w = enc_params(params);
    match params {
        ParamsModel::Profile_LoginWithPassword(x) => {
            let h = enc_header(Container::Array, 3);
            let t1 = enc_text(x.username);
            let t2 = enc_text(x.password);
            let t3 = enc_blob(Container::Bytes, x.bytes);
            let (lh, l1, l2) = (h.len() as int, t1.len() as int, t2.len() as int);
            assert(w.subrange(0, lh) =~= h);
            assert(w.subrange(lh, lh + l1) =~= t1);
            assert(w.subrange(lh + l1, lh + l1 + l2) =~= t2);
            assert(w.subrange(lh + l1 + l2, lh + l1 + l2 + t3.len()) =~= t3);
            part_at(b, p as int, w, 0, h);
            part_at(b, p as int, w, lh, t1);
            part_at(b, p as int, w, lh + l1, t2);
            part_at(b, p as int, w, lh + l1 + l2, t3);
            header_at(b, p, Container::Array, 3);
            text_at(b, (p + lh) as usize, Field::Username, Expected::Text, x.username);
            text_at(b, (p + lh + l1) as usize, Field::Password, Expected::Text, x.password);
            blob_at(b, (p + lh + l1 + l2) as usize, Container::Bytes, x.bytes);
        },
        ParamsModel::Profile_LoginWithToken(t) => {
            let h = enc_header(Container::Array, 1);
            let t1 = enc_text(t);
            let lh = h.len() as int;
            assert(w.subrange(0, lh) =~= h);
            assert(w.subrange(lh, lh + t1.len()) =~= t1);
            part_at(b, p as int, w, 0, h);
            part_at(b, p as int, w, lh, t1);
            header_at(b, p, Container::Array, 1);
            text_at(b, (p + lh) as usize, Field::Token, Expected::Text, t);
        },
    }
}


/// Payload round trip: a result record encoded at `p` reads back, under its
/// own method, as the same record, ending where its encoding ends.
pub proof fn law_results_round_trip(b: Seq<u8>, p: usize, r: Results)
    requires
        holds_at(b, p as int, enc_results(r)),
        b.len() <= usize::MAX,
    ensures
        parse_results(b, p, results_method(r)) == Ok::<(Results, usize), DecodeError>(
            (r, (p + enc_results(r).len()) as usize),
        ),
{
    let w = enc_results(r);
    let h = enc_header(Container::Array, 1);
    let ok = match r {
        Results::Profile_LoginWithPassword(x) => x.ok,
        Results::Profile_LoginWithToken(x) => x.ok,
    };
    let lh = h.len() as int;
    assert(w.subrange(0, lh) =~= h);
    assert(w.subrange(lh, lh + 1) =~= enc_bool(ok));
    part_at(b, p as int, w, 0, h);
    part_at(b, p as int, w, lh, enc_bool(ok));
    header_at(b, p, Container::Array, 1);
    bool_at(b, (p + lh) as usize, ok);
}

proof fn error_at(b: Seq<u8>, p: usize, e: Option<Seq<char>>)
    requires
        e matches Some(s) ==> text_fits(s),
        holds_at(b, p as int, enc_error(e)),
        b.len() <= usize::MAX,
    ensures
        parse_error(b, p) == Ok::<(Option<Seq<char>>, usize), DecodeError>(
            (e, (p + enc_error(e).len()) as usize),
        ),
{
    match e {
        Some(s) => {
            text_at(b, p, Field::Error, Expected::TextOrNil, s);
        },
        None => {
            assert(b[p as int] == enc_error(e)[0]);
        },
    }
}

/// With pairwise distinct dispatch keys, a name is registered at most once, so
/// the name of a served method resolves to that method.
pub proof fn lemma_resolve_served(reg: Seq<(Seq<char>, Method)>, k: Method)
    requires
        keys_distinct(reg),
        serves(reg, k),
    ensures
        resolve(reg, method_name(k)) == Some(k),
{
    let i = choose|i: int| 0 <= i < reg.len() && (#[trigger] reg[i]) == (method_name(k), k);
    assert(0 <= i < reg.len() && reg[i].0 == method_name(k));
    let j = choose|j: int| 0 <= j < reg.len() && (#[trigger] reg[j]).0 == method_name(k);
    if j < i {
        assert(dispatch_key(reg[j].0) != dispatch_key(reg[i].0));
    } else if i < j {
        assert(dispatch_key(reg[i].0) != dispatch_key(reg[j].0));
    }
}

/// The standard table registers every method under its own name.
pub proof fn lemma_standard_serves(k: Method)
    ensures
        serves(standard_entries(), k),
{
    match k {
        Method::ProfileLoginWithPassword => assert(standard_entries()[0] == (method_name(k), k)),
        Method::ProfileLoginWithToken => assert(standard_entries()[1] == (method_name(k), k)),
    }
}

/// What a message is on the wire: a request's parent is not carried.
pub open spec fn wire_view(m: MessageModel) -> MessageModel {
    match m {
        MessageModel::Request { id, params, .. } => MessageModel::Request { parent: None, id, params },
        MessageModel::Response { .. } => m,
    }
}

/// The method a decoder is told a response answers.
pub open spec fn reply_method(m: MessageModel) -> Option<Method> {
    match m {
        MessageModel::Request { .. } => None,
        MessageModel::Response { results, .. } => Some(results_method(results)),
    }
}

proof fn request_trip(
    reg: Seq<(Seq<char>, Method)>,
    parent: Option<u32>,
    id: u32,
    params: ParamsModel,
)
    requires
        keys_distinct(reg),
        serves(reg, params_method(params)),
        oversized(MessageModel::Request { parent, id, params }) is None,
        enc_message(MessageModel::Request { parent, id, params }).len() <= usize::MAX,
    ensures
        parse_message(reg, enc_message(MessageModel::Request { parent, id, params }), None)
            == Ok::<MessageModel, DecodeError>(MessageModel::Request { parent: None, id, params }),
{
    let b = enc_message(MessageModel::Request { parent, id, params });
    let h = enc_header(Container::Array, 4);
    let lh = h.len() as int;
    let k = params_method(params);
    let (u0, u1, t) = (enc_uint(0), enc_uint(id), enc_text(method_name(k)));
    let (l0, l1, lt) = (u0.len() as int, u1.len() as int, t.len() as int);
    assert(b.subrange(0, lh) =~= h);
    assert(b.subrange(lh, lh + l0) =~= u0);
    assert(b.subrange(lh + l0, lh + l0 + l1) =~= u1);
    assert(b.subrange(lh + l0 + l1, lh + l0 + l1 + lt) =~= t);
    assert(b.subrange(lh + l0 + l1 + lt, b.len() as int) =~= enc_params(params));
    header_at(b, 0, Container::Array, 4);
    uint_at(b, lh as usize, 0);
    uint_at(b, (lh + l0) as usize, id);
    text_at(b, (lh + l0 + l1) as usize, Field::Method, Expected::Text, method_name(k));
    lemma_resolve_served(reg, k);
    law_params_round_trip(b, (lh + l0 + l1 + lt) as usize, params);
}

proof fn response_trip(
    reg: Seq<(Seq<char>, Method)>,
    id: u32,
    error: Option<Seq<char>>,
    results: Results,
)
    requires
        oversized(MessageModel::Response { id, error, results }) is None,
        enc_message(MessageModel::Response { id, error, results }).len() <= usize::MAX,
    ensures
        parse_message(
            reg,
            enc_message(MessageModel::Response { id, error, results }),
            Some(results_method(results)),
        ) == Ok::<MessageModel, DecodeError>(MessageModel::Response { id, error, results }),
{
    let b = enc_message(MessageModel::Response { id, error, results });
    let h = enc_header(Container::Array, 4);
    let lh = h.len() as int;
    let (u0, u1, e) = (enc_uint(1), enc_uint(id), enc_error(error));
    let (l0, l1, le) = (u0.len() as int, u1.len() as int, e.len() as int);
    assert(b.subrange(0, lh) =~= h);
    assert(b.subrange(lh, lh + l0) =~= u0);
    assert(b.subrange(lh + l0, lh + l0 + l1) =~= u1);
    assert(b.subrange(lh + l0 + l1, lh + l0 + l1 + le) =~= e);
    assert(b.subrange(lh + l0 + l1 + le, b.len() as int) =~= enc_results(results));
    header_at(b, 0, Container::Array, 4);
    uint_at(b, lh as usize, 1);
    uint_at(b, (lh + l0) as usize, id);
    error_at(b, (lh + l0 + l1) as usize, error);
    law_results_round_trip(b, (lh + l0 + l1 + le) as usize, results);
}

/// Round trip: decoding the encoding of any encodable message gives the
/// message back (a request without its parent, which is not carried), and
/// encoding that result gives the same bytes again. A request's method must be
/// registered; a response is decoded as the answer to its own method.
pub proof fn law_round_trip(reg: Seq<(Seq<char>, Method)>, m: MessageModel)
    requires
        keys_distinct(reg),
        m matches MessageModel::Request { params, .. } ==> serves(reg, params_method(params)),
        oversized(m) is None,
        enc_message(m).len() <= usize::MAX,
    ensures
        parse_message(reg, enc_message(m), reply_method(m)) == Ok::<MessageModel, DecodeError>(
            wire_view(m),
        ),
        enc_message(wire_view(m)) == enc_message(m),
{
    match m {
        MessageModel::Request { parent, id, params } => request_trip(reg, parent, id, params),
        MessageModel::Response { id, error, results } => response_trip(reg, id, error, results),
    }
}


/// A request whose method name is registered under no entry fails with
/// `UnknownMethod`, carrying the name's dispatch key, whatever follows the name.
pub proof fn law_unknown_method(
    reg: Seq<(Seq<char>, Method)>,
    n: u32,
    id: u32,
    name: Seq<char>,
    rest: Seq<u8>,
    reply_to: Option<Method>,
)
    requires
        n >= 3,
        text_fits(name),
        forall|i: int| 0 <= i < reg.len() ==> (#[trigger] reg[i]).0 != name,
        (enc_header(Container::Array, n) + enc_uint(0) + enc_uint(id) + enc_text(name)
            + rest).len() <= usize::MAX,
    ensures
        parse_message(
            reg,
            enc_header(Container::Array, n) + enc_uint(0) + enc_uint(id) + enc_text(name) + rest,
            reply_to,
        ) == Err::<MessageModel, DecodeError>(DecodeError::UnknownMethod(dispatch_key(name))),
{
    let (h, u0, u1, t) = (enc_header(Container::Array, n), enc_uint(0), enc_uint(id), enc_text(name));
    let b = h + u0 + u1 + t + rest;
    let (lh, l0, l1, lt) = (h.len() as int, u0.len() as int, u1.len() as int, t.len() as int);
    assert(b.subrange(0, lh) =~= h);
    assert(b.subrange(lh, lh + l0) =~= u0);
    assert(b.subrange(lh + l0, lh + l0 + l1) =~= u1);
    assert(b.subrange(lh + l0 + l1, lh + l0 + l1 + lt) =~= t);
    header_at(b, 0, Container::Array, n);
    uint_at(b, lh as usize, 0);
    uint_at(b, (lh + l0) as usize, id);
    text_at(b, (lh + l0 + l1) as usize, Field::Method, Expected::Text, name);
}

/// A discriminant other than 0 (request) and 1 (response) fails with
/// `UnknownMessageType`, whatever follows it.
pub proof fn law_unknown_discriminant(
    reg: Seq<(Seq<char>, Method)>,
    n: u32,
    t: u32,
    rest: Seq<u8>,
    reply_to: Option<Method>,
)
    requires
        n >= 1,
        t > 1,
        (enc_header(Container::Array, n) + enc_uint(t) + rest).len() <= usize::MAX,
    ensures
        parse_message(reg, enc_header(Container::Array, n) + enc_uint(t) + rest, reply_to) == Err::<
            MessageModel,
            DecodeError,
        >(DecodeError::UnknownMessageType(t as u64)),
{
    let (h, u) = (enc_header(Container::Array, n), enc_uint(t));
    let b = h + u + rest;
    let lh = h.len() as int;
    assert(b.subrange(0, lh) =~= h);
    assert(b.subrange(lh, lh + u.len()) =~= u);
    header_at(b, 0, Container::Array, n);
    uint_at(b, lh as usize, t);
}

/// The first `cut` fields of a message's envelope, after its header:
/// discriminant, id, then the method name (request) or the error (response).
pub open spec fn envelope_prefix(m: MessageModel, cut: nat) -> Seq<u8> {
    let (t, id, third) = match m {
        MessageModel::Request { id, params, .. } => (
            0u32,
            id,
            enc_text(method_name(params_method(params))),
        ),
        MessageModel::Response { id, error, .. } => (1u32, id, enc_error(error)),
    };
    if cut == 0 {
        Seq::empty()
    } else if cut == 1 {
        enc_uint(t)
    } else if cut == 2 {
        enc_uint(t) + enc_uint(id)
    } else {
        enc_uint(t) + enc_uint(id) + third
    }
}

/// The envelope field of a message at position `cut`.
pub open spec fn envelope_field(m: MessageModel, cut: nat) -> Field {
    if cut == 0 {
        Field::Type
    } else if cut == 1 {
        Field::Id
    } else if cut == 2 {
        if m is Request {
            Field::Method
        } else {
            Field::Error
        }
    } else {
        if m is Request {
            Field::Params
        } else {
            Field::Results
        }
    }
}

proof fn truncated_request(
    reg: Seq<(Seq<char>, Method)>,
    count: u32,
    cut: nat,
    m: MessageModel,
    reply_to: Option<Method>,
)
    requires
        cut < 4,
        cut <= count <= 4,
        keys_distinct(reg),
        m matches MessageModel::Request { params, .. } && serves(reg, params_method(params)),
        oversized(m) is None,
        (enc_header(Container::Array, count) + envelope_prefix(m, cut)).len() <= usize::MAX,
    ensures
        parse_message(reg, enc_header(Container::Array, count) + envelope_prefix(m, cut), reply_to)
            == Err::<MessageModel, DecodeError>(DecodeError::MissingField(envelope_field(m, cut))),
{
    let (id, k) = match m {
        MessageModel::Request { id, params, .. } => (id, params_method(params)),
        MessageModel::Response { id, .. } => (id, Method::ProfileLoginWithToken),
    };
    let (h, u0, u1, t) = (enc_header(Container::Array, count), enc_uint(0), enc_uint(id), enc_text(method_name(k)));
    let b = h + envelope_prefix(m, cut);
    let (lh, l0, l1, lt) = (h.len() as int, u0.len() as int, u1.len() as int, t.len() as int);
    assert(b.subrange(0, lh) =~= h);
    header_at(b, 0, Container::Array, count);
    if cut >= 1 {
        assert(b.subrange(lh, lh + l0) =~= u0);
        uint_at(b, lh as usize, 0);
    }
    if cut >= 2 {
        assert(b.subrange(lh + l0, lh + l0 + l1) =~= u1);
        uint_at(b, (lh + l0) as usize, id);
    }
    if cut >= 3 {
        assert(b.subrange(lh + l0 + l1, lh + l0 + l1 + lt) =~= t);
        text_at(b, (lh + l0 + l1) as usize, Field::Method, Expected::Text, method_name(k));
        lemma_resolve_served(reg, k);
        reveal(parse_params);
    }
}

proof fn truncated_response(
    reg: Seq<(Seq<char>, Method)>,
    count: u32,
    cut: nat,
    m: MessageModel,
    reply_to: Option<Method>,
)
    requires
        cut < 4,
        cut <= count <= 4,
        m is Response,
        oversized(m) is None,
        (enc_header(Container::Array, count) + envelope_prefix(m, cut)).len() <= usize::MAX,
    ensures
        parse_message(reg, enc_header(Container::Array, count) + envelope_prefix(m, cut), reply_to)
            == Err::<MessageModel, DecodeError>(DecodeError::MissingField(envelope_field(m, cut))),
{
    let (id, error) = match m {
        MessageModel::Response { id, error, .. } => (id, error),
        MessageModel::Request { id, .. } => (id, None),
    };
    let (h, u0, u1, e) = (enc_header(Container::Array, count), enc_uint(1), enc_uint(id), enc_error(error));
    let b = h + envelope_prefix(m, cut);
    let (lh, l0, l1, le) = (h.len() as int, u0.len() as int, u1.len() as int, e.len() as int);
    assert(b.subrange(0, lh) =~= h);
    header_at(b, 0, Container::Array, count);
    if cut >= 1 {
        assert(b.subrange(lh, lh + l0) =~= u0);
        uint_at(b, lh as usize, 1);
    }
    if cut >= 2 {
        assert(b.subrange(lh + l0, lh + l0 + l1) =~= u1);
        uint_at(b, (lh + l0) as usize, id);
    }
    if cut >= 3 {
        assert(b.subrange(lh + l0 + l1, lh + l0 + l1 + le) =~= e);
        error_at(b, (lh + l0 + l1) as usize, error);
    }
}

/// A message cut short before any of its four envelope fields, whether the
/// array's count stops there or the input ends there, fails with
/// `MissingField` naming the first absent field. A request's method must be
/// registered.
pub proof fn law_truncated(
    reg: Seq<(Seq<char>, Method)>,
    count: u32,
    cut: nat,
    m: MessageModel,
    reply_to: Option<Method>,
)
    requires
        cut < 4,
        cut <= count <= 4,
        keys_distinct(reg),
        m matches MessageModel::Request { params, .. } ==> serves(reg, params_method(params)),
        oversized(m) is None,
        (enc_header(Container::Array, count) + envelope_prefix(m, cut)).len() <= usize::MAX,
    ensures
        parse_message(reg, enc_header(Container::Array, count) + envelope_prefix(m, cut), reply_to)
            == Err::<MessageModel, DecodeError>(DecodeError::MissingField(envelope_field(m, cut))),
{
    if m is Response {
        truncated_response(reg, count, cut, m, reply_to);
    } else {
        truncated_request(reg, count, cut, m, reply_to);
    }
}

} // verus!
