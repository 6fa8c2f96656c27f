//! The subset of MessagePack that the envelope uses: unsigned integers of at
//! most 32 bits, nil, booleans, strings, binary blobs and array headers.
use vstd::prelude::*;

verus! {

/// Why a single value could not be read at a position.
#[derive(Clone, Copy, Debug, PartialEq, Eq, Structural)]
pub enum ReadFail {
    /// The input ends where the value should begin.
    End,
    /// The value begins with this marker byte, which is not of the expected kind.
    Mismatch(u8),
    /// The value is cut short, or its content is not well formed.
    Malformed,
}

/// The length-prefixed kinds of values.
#[derive(Clone, Copy, Debug, PartialEq, Eq, Structural)]
pub enum Container {
    Text,
    Bytes,
    Array,
}

pub open spec fn be16(v: u16) -> Seq<u8> {
    seq![(v >> 8u16) as u8, v as u8]
}

pub open spec fn be32(v: u32) -> Seq<u8> {
    seq![(v >> 24u32) as u8, (v >> 16u32) as u8, (v >> 8u32) as u8, v as u8]
}

pub open spec fn get16(b0: u8, b1: u8) -> u16 {
    ((b0 as u16) << 8u16) | (b1 as u16)
}

pub open spec fn get32(b0: u8, b1: u8, b2: u8, b3: u8) -> u32 {
    ((b0 as u32) << 24u32) | ((b1 as u32) << 16u32) | ((b2 as u32) << 8u32) | (b3 as u32)
}

proof fn lemma_be16(v: u16)
    ensures
        get16(be16(v)[0], be16(v)[1]) == v,
{
    let b0 = (v >> 8u16) as u8;
    let b1 = v as u8;
    assert(((b0 as u16) << 8u16) | (b1 as u16) == v) by (bit_vector)
        requires
            b0 == (v >> 8u16) as u8,
            b1 == v as u8,
    ;
}

proof fn lemma_be32(v: u32)
    ensures
        get32(be32(v)[0], be32(v)[1], be32(v)[2], be32(v)[3]) == v,
{
    let b0 = (v >> 24u32) as u8;
    let b1 = (v >> 16u32) as u8;
    let b2 = (v >> 8u32) as u8;
    let b3 = v as u8;
    assert(((b0 as u32) << 24u32) | ((b1 as u32) << 16u32) | ((b2 as u32) << 8u32) | (b3 as u32)
        == v) by (bit_vector)
        requires
            b0 == (v >> 24u32) as u8,
            b1 == (v >> 16u32) as u8,
            b2 == (v >> 8u32) as u8,
            b3 == v as u8,
    ;
}

/// The shortest encoding of an unsigned integer.
pub open spec fn enc_uint(v: u32) -> Seq<u8> {
    if v < 128 {
        seq![v as u8]
    } else if v < 256 {
        seq![0xccu8, v as u8]
    } else if v < 65536 {
        seq![0xcdu8] + be16(v as u16)
    } else {
        seq![0xceu8] + be32(v)
    }
}

/// Reads an unsigned integer of at most 32 bits at `p`, in any of its encodings.
pub open spec fn read_uint(b: Seq<u8>, p: usize) -> Result<(u32, usize), ReadFail> {
    if p >= b.len() {
        Err(ReadFail::End)
    } else {
        let m = b[p as int];
        if m < 128 {
            Ok((m as u32, (p + 1) as usize))
        } else if m == 0xcc {
            if p + 2 > b.len() {
                Err(ReadFail::Malformed)
            } else {
                Ok((b[p + 1] as u32, (p + 2) as usize))
            }
        } else if m == 0xcd {
            if p + 3 > b.len() {
                Err(ReadFail::Malformed)
            } else {
                Ok((get16(b[p + 1], b[p + 2]) as u32, (p + 3) as usize))
            }
        } else if m == 0xce {
            if p + 5 > b.len() {
                Err(ReadFail::Malformed)
            } else {
                Ok((get32(b[p + 1], b[p + 2], b[p + 3], b[p + 4]), (p + 5) as usize))
            }
        } else {
            Err(ReadFail::Mismatch(m))
        }
    }
}

pub proof fn lemma_uint_round_trip(v: u32, rest: Seq<u8>, pre: Seq<u8>)
    requires
        pre.len() + enc_uint(v).len() + rest.len() <= usize::MAX,
    ensures
        read_uint(pre + enc_uint(v) + rest, pre.len() as usize) == Ok::<(u32, usize), ReadFail>(
            (v, (pre.len() + enc_uint(v).len()) as usize),
        ),
{
    let b = pre + enc_uint(v) + rest;
    let p = pre.len() as int;
    if v < 128 {
    } else if v < 256 {
    } else if v < 65536 {
        lemma_be16(v as u16);
        assert(b[p + 1] == be16(v as u16)[0]);
        assert(b[p + 2] == be16(v as u16)[1]);
    } else {
        lemma_be32(v);
        assert(b[p + 1] == be32(v)[0]);
        assert(b[p + 2] == be32(v)[1]);
        assert(b[p + 3] == be32(v)[2]);
        assert(b[p + 4] == be32(v)[3]);
    }
}

pub fn put_uint(buf: &mut Vec<u8>, v: u32)
    ensures
        final(buf)@ == old(buf)@ + enc_uint(v),
{
    if v < 128 {
        buf.push(v as u8);
    } else if v < 256 {
        buf.push(0xcc);
        buf.push(v as u8);
    } else if v < 65536 {
        let w = v as u16;
        buf.push(0xcd);
        buf.push((w >> 8u16) as u8);
        buf.push(w as u8);
    } else {
        buf.push(0xce);
        buf.push((v >> 24u32) as u8);
        buf.push((v >> 16u32) as u8);
        buf.push((v >> 8u32) as u8);
        buf.push(v as u8);
    }
    assert(final(buf)@ =~= old(buf)@ + enc_uint(v));
}

pub fn take_uint(b: &[u8], p: usize) -> (r: Result<(u32, usize), ReadFail>)
    ensures
        r == read_uint(b@, p),
{
    if p >= b.len() {
        return Err(ReadFail::End);
    }
    let m = b[p];
    if m < 128 {
        Ok((m as u32, p + 1))
    } else if m == 0xcc {
        if b.len() - p < 2 {
            Err(ReadFail::Malformed)
        } else {
            Ok((b[p + 1] as u32, p + 2))
        }
    } else if m == 0xcd {
        if b.len() - p < 3 {
            Err(ReadFail::Malformed)
        } else {
            let v = ((b[p + 1] as u16) << 8u16) | (b[p + 2] as u16);
            Ok((v as u32, p + 3))
        }
    } else if m == 0xce {
        if b.len() - p < 5 {
            Err(ReadFail::Malformed)
        } else {
            let v = ((b[p + 1] as u32) << 24u32) | ((b[p + 2] as u32) << 16u32) | ((b[p + 3] as u32)
                << 8u32) | (b[p + 4] as u32);
            Ok((v, p + 5))
        }
    } else {
        Err(ReadFail::Mismatch(m))
    }
}


pub open spec fn fix_base(c: Container) -> u8 {
    match c {
        Container::Text => 0xa0,
        Container::Bytes => 0,
        Container::Array => 0x90,
    }
}

/// How many lengths fit in the marker byte itself.
pub open spec fn fix_span(c: Container) -> u8 {
    match c {
        Container::Text => 32,
        Container::Bytes => 0,
        Container::Array => 16,
    }
}

pub open spec fn has_mark8(c: Container) -> bool {
    c != Container::Array
}

pub open spec fn mark8(c: Container) -> u8 {
    if c == Container::Text {
        0xd9
    } else {
        0xc4
    }
}

pub open spec fn mark16(c: Container) -> u8 {
    match c {
        Container::Text => 0xda,
        Container::Bytes => 0xc5,
        Container::Array => 0xdc,
    }
}

pub open spec fn mark32(c: Container) -> u8 {
    match c {
        Container::Text => 0xdb,
        Container::Bytes => 0xc6,
        Container::Array => 0xdd,
    }
}

/// The shortest header announcing `n` elements (or bytes) of kind `c`.
pub open spec fn enc_header(c: Container, n: u32) -> Seq<u8> {
    if n < fix_span(c) {
        seq![(fix_base(c) + n) as u8]
    } else if has_mark8(c) && n < 256 {
        seq![mark8(c), n as u8]
    } else if n < 65536 {
        seq![mark16(c)] + be16(n as u16)
    } else {
        seq![mark32(c)] + be32(n)
    }
}

/// Reads a header of kind `c` at `p`: the announced length and where the body starts.
pub open spec fn read_header(b: Seq<u8>, p: usize, c: Container) -> Result<(u32, usize), ReadFail> {
    if p >= b.len() {
        Err(ReadFail::End)
    } else {
        let m = b[p as int];
        if fix_base(c) <= m < fix_base(c) + fix_span(c) {
            Ok(((m - fix_base(c)) as u32, (p + 1) as usize))
        } else if has_mark8(c) && m == mark8(c) {
            if p + 2 > b.len() {
                Err(ReadFail::Malformed)
            } else {
                Ok((b[p + 1] as u32, (p + 2) as usize))
            }
        } else if m == mark16(c) {
            if p + 3 > b.len() {
                Err(ReadFail::Malformed)
            } else {
                Ok((get16(b[p + 1], b[p + 2]) as u32, (p + 3) as usize))
            }
        } else if m == mark32(c) {
            if p + 5 > b.len() {
                Err(ReadFail::Malformed)
            } else {
                Ok((get32(b[p + 1], b[p + 2], b[p + 3], b[p + 4]), (p + 5) as usize))
            }
        } else {
            Err(ReadFail::Mismatch(m))
        }
    }
}

/// A string or a binary blob: its header, then its bytes.
pub open spec fn enc_blob(c: Container, data: Seq<u8>) -> Seq<u8> {
    enc_header(c, data.len() as u32) + data
}

/// Reads a string or a blob at `p`: the span of its bytes.
pub open spec fn read_blob(b: Seq<u8>, p: usize, c: Container) -> Result<(usize, usize), ReadFail> {
    match read_header(b, p, c) {
        Ok((n, q)) => if q + n > b.len() {
            Err(ReadFail::Malformed)
        } else {
            Ok((q, (q + n) as usize))
        },
        Err(e) => Err(e),
    }
}

pub proof fn lemma_header_round_trip(c: Container, n: u32, pre: Seq<u8>, rest: Seq<u8>)
    requires
        pre.len() + enc_header(c, n).len() + rest.len() <= usize::MAX,
    ensures
        read_header(pre + enc_header(c, n) + rest, pre.len() as usize, c) == Ok::<
            (u32, usize),
            ReadFail,
        >((n, (pre.len() + enc_header(c, n).len()) as usize)),
        1 <= enc_header(c, n).len() <= 5,
{
    let b = pre + enc_header(c, n) + rest;
    let p = pre.len() as int;
    assert(b[p] == enc_header(c, n)[0]);
    if n < fix_span(c) {
    } else if has_mark8(c) && n < 256 {
        assert(b[p + 1] == enc_header(c, n)[1]);
    } else if n < 65536 {
        lemma_be16(n as u16);
        assert(b[p + 1] == be16(n as u16)[0]);
        assert(b[p + 2] == be16(n as u16)[1]);
    } else {
        lemma_be32(n);
        assert(b[p + 1] == be32(n)[0]);
        assert(b[p + 2] == be32(n)[1]);
        assert(b[p + 3] == be32(n)[2]);
        assert(b[p + 4] == be32(n)[3]);
    }
}

pub proof fn lemma_blob_round_trip(c: Container, data: Seq<u8>, pre: Seq<u8>, rest: Seq<u8>)
    requires
        c != Container::Array,
        data.len() <= u32::MAX,
        pre.len() + enc_blob(c, data).len() + rest.len() <= usize::MAX,
    ensures
        ({
            let b = pre + enc_blob(c, data) + rest;
            let end = (pre.len() + enc_blob(c, data).len()) as int;
            &&& read_blob(b, pre.len() as usize, c) == Ok::<(usize, usize), ReadFail>(
                ((end - data.len()) as usize, end as usize),
            )
            &&& b.subrange(end - data.len(), end) == data
        }),
{
    let h = enc_header(c, data.len() as u32);
    lemma_header_round_trip(c, data.len() as u32, pre, data + rest);
    assert(pre + enc_blob(c, data) + rest =~= pre + h + (data + rest));
    let b = pre + enc_blob(c, data) + rest;
    let end = (pre.len() + h.len() + data.len()) as int;
    assert(b.subrange(end - data.len(), end) =~= data);
}

pub fn put_header(buf: &mut Vec<u8>, c: Container, n: u32)
    ensures
        final(buf)@ == old(buf)@ + enc_header(c, n),
{
    let (base, span, m16, m32): (u8, u8, u8, u8) = match c {
        Container::Text => (0xa0, 32, 0xda, 0xdb),
        Container::Bytes => (0, 0, 0xc5, 0xc6),
        Container::Array => (0x90, 16, 0xdc, 0xdd),
    };
    if n < span as u32 {
        buf.push(base + n as u8);
    } else if c != Container::Array && n < 256 {
        let m8: u8 = if c == Container::Text {
            0xd9
        } else {
            0xc4
        };
        buf.push(m8);
        buf.push(n as u8);
    } else if n < 65536 {
        let w = n as u16;
        buf.push(m16);
        buf.push((w >> 8u16) as u8);
        buf.push(w as u8);
    } else {
        buf.push(m32);
        buf.push((n >> 24u32) as u8);
        buf.push((n >> 16u32) as u8);
        buf.push((n >> 8u32) as u8);
        buf.push(n as u8);
    }
    assert(final(buf)@ =~= old(buf)@ + enc_header(c, n));
}

pub fn take_header(b: &[u8], p: usize, c: Container) -> (r: Result<(u32, usize), ReadFail>)
    ensures
        r == read_header(b@, p, c),
{
    if p >= b.len() {
        return Err(ReadFail::End);
    }
    let (base, span, m16, m32): (u8, u8, u8, u8) = match c {
        Container::Text => (0xa0, 32, 0xda, 0xdb),
        Container::Bytes => (0, 0, 0xc5, 0xc6),
        Container::Array => (0x90, 16, 0xdc, 0xdd),
    };
    let m8: u8 = if c == Container::Text {
        0xd9
    } else {
        0xc4
    };
    let m = b[p];
    if base <= m && (m as u32) < base as u32 + span as u32 {
        Ok(((m - base) as u32, p + 1))
    } else if c != Container::Array && m == m8 {
        if b.len() - p < 2 {
            Err(ReadFail::Malformed)
        } else {
            Ok((b[p + 1] as u32, p + 2))
        }
    } else if m == m16 {
        if b.len() - p < 3 {
            Err(ReadFail::Malformed)
        } else {
            let v = ((b[p + 1] as u16) << 8u16) | (b[p + 2] as u16);
            Ok((v as u32, p + 3))
        }
    } else if m == m32 {
        if b.len() - p < 5 {
            Err(ReadFail::Malformed)
        } else {
            let v = ((b[p + 1] as u32) << 24u32) | ((b[p + 2] as u32) << 16u32) | ((b[p + 3] as u32)
                << 8u32) | (b[p + 4] as u32);
            Ok((v, p + 5))
        }
    } else {
        Err(ReadFail::Mismatch(m))
    }
}

/// Appends a string or a blob whose bytes are `data`.
pub fn put_blob(buf: &mut Vec<u8>, c: Container, data: &[u8])
    requires
        data@.len() <= u32::MAX,
    ensures
        final(buf)@ == old(buf)@ + enc_blob(c, data@),
{
    put_header(buf, c, data.len() as u32);
    let ghost start = buf@;
    let mut i: usize = 0;
    while i < data.len()
        invariant
            i <= data@.len(),
            buf@ == start + data@.subrange(0, i as int),
        decreases data@.len() - i,
    {
        buf.push(data[i]);
        i = i + 1;
        assert(buf@ =~= start + data@.subrange(0, i as int));
    }
    assert(data@.subrange(0, i as int) =~= data@);
}

pub fn take_blob(b: &[u8], p: usize, c: Container) -> (r: Result<(usize, usize), ReadFail>)
    ensures
        r == read_blob(b@, p, c),
        r matches Ok((s, e)) ==> s <= e <= b@.len(),
{
    match take_header(b, p, c) {
        Ok((n, q)) => if b.len() - q < n as usize {
            Err(ReadFail::Malformed)
        } else {
            Ok((q, q + n as usize))
        },
        Err(e) => Err(e),
    }
}

pub open spec fn enc_bool(v: bool) -> Seq<u8> {
    seq![if v { 0xc3u8 } else { 0xc2u8 }]
}

pub open spec fn read_bool(b: Seq<u8>, p: usize) -> Result<(bool, usize), ReadFail> {
    if p >= b.len() {
        Err(ReadFail::End)
    } else if b[p as int] == 0xc2 {
        Ok((false, (p + 1) as usize))
    } else if b[p as int] == 0xc3 {
        Ok((true, (p + 1) as usize))
    } else {
        Err(ReadFail::Mismatch(b[p as int]))
    }
}

pub fn put_bool(buf: &mut Vec<u8>, v: bool)
    ensures
        final(buf)@ == old(buf)@ + enc_bool(v),
{
    buf.push(if v { 0xc3 } else { 0xc2 });
    assert(final(buf)@ =~= old(buf)@ + enc_bool(v));
}

pub fn take_bool(b: &[u8], p: usize) -> (r: Result<(bool, usize), ReadFail>)
    ensures
        r == read_bool(b@, p),
{
    if p >= b.len() {
        Err(ReadFail::End)
    } else if b[p] == 0xc2 {
        Ok((false, p + 1))
    } else if b[p] == 0xc3 {
        Ok((true, p + 1))
    } else {
        Err(ReadFail::Mismatch(b[p]))
    }
}

/// The marker of an absent value.
pub const NIL: u8 = 0xc0;


/// Reads an unsigned integer of at most 64 bits at `p`, in any of its encodings.
pub open spec fn read_uint64(b: Seq<u8>, p: usize) -> Result<(u64, usize), ReadFail> {
    if p < b.len() && b[p as int] == 0xcf {
        if p + 9 > b.len() {
            Err(ReadFail::Malformed)
        } else {
            Ok(
                (
                    ((get32(b[p + 1], b[p + 2], b[p + 3], b[p + 4]) as u64) << 32u64) | (get32(
                        b[p + 5],
                        b[p + 6],
                        b[p + 7],
                        b[p + 8],
                    ) as u64),
                    (p + 9) as usize,
                ),
            )
        }
    } else {
        match read_uint(b, p) {
            Ok((v, q)) => Ok((v as u64, q)),
            Err(e) => Err(e),
        }
    }
}

pub fn take_uint64(b: &[u8], p: usize) -> (r: Result<(u64, usize), ReadFail>)
    ensures
        r == read_uint64(b@, p),
{
    if p < b.len() && b[p] == 0xcf {
        if b.len() - p < 9 {
            Err(ReadFail::Malformed)
        } else {
            let hi = ((b[p + 1] as u32) << 24u32) | ((b[p + 2] as u32) << 16u32) | ((b[p + 3] as u32)
                << 8u32) | (b[p + 4] as u32);
            let lo = ((b[p + 5] as u32) << 24u32) | ((b[p + 6] as u32) << 16u32) | ((b[p + 7] as u32)
                << 8u32) | (b[p + 8] as u32);
            Ok((((hi as u64) << 32u64) | (lo as u64), p + 9))
        }
    } else {
        match take_uint(b, p) {
            Ok((v, q)) => Ok((v as u64, q)),
            Err(e) => Err(e),
        }
    }
}

} // verus!
