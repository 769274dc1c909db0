//! The binary wire-protocol codec.
//!
//! Every frame on the wire is a two-byte big-endian length prefix followed by
//! exactly that many payload bytes. A request payload begins with a one-byte
//! operation code; the rest of the payload is code-specific. All multi-byte
//! integers are big-endian.
//!
//! Parsing is deliberately defensive: a frame shorter than the minimum header
//! of its operation code, a declared sub-length that would overrun the
//! remaining bytes, a name that is not valid UTF-8, or an unrecognized
//! operation code all decode to the no-op sentinel request, which produces no
//! response and never mutates the registry.

use vstd::prelude::*;
use vstd::slice::{slice_subrange, slice_to_vec};
use vstd::string::StringSliceAdditionalSpecFns;
use vstd::utf8::{valid_utf8, decode_utf8, encode_utf8};

use crate::constants::{
    ALIVE2_REQ, PORT2_REQ, NAMES_REQ, DUMP_REQ, KILL_REQ, STOP_REQ, ALIVE2_RESP, PORT2_RESP,
};

verus! {

broadcast use vstd::utf8::encode_utf8_decode_utf8, vstd::utf8::encode_utf8_valid_utf8;

/// Relies on core::str::from_utf8: it succeeds exactly on valid UTF-8 input
/// and the resulting string slice is backed by the given bytes.
#[verifier::external_body]
pub(crate) fn bytes_as_str(v: &[u8]) -> (r: Option<&str>)
    ensures
        r is Some <==> valid_utf8(v@),
        r is Some ==> r.unwrap().spec_bytes() == v@,
{
    core::str::from_utf8(v).ok()
}

// ---------------------------------------------------------------------------
// Big-endian integers
// ---------------------------------------------------------------------------
/// Big-endian encoding of a 16-bit integer, most significant byte first.
pub open spec fn spec_u16_be(n: u16) -> Seq<u8> {
    seq![(n / 256) as u8, (n % 256) as u8]
}

/// The 16-bit integer read from two big-endian bytes.
pub open spec fn spec_u16_from_be(a: u8, b: u8) -> u16 {
    (a * 256 + b) as u16
}

/// Big-endian encoding of a 32-bit integer, most significant byte first.
pub open spec fn spec_u32_be(n: u32) -> Seq<u8> {
    seq![
        (n / 0x1000000) as u8,
        ((n / 0x10000) % 256) as u8,
        ((n / 256) % 256) as u8,
        (n % 256) as u8,
    ]
}

/// Writes a 16-bit integer as two big-endian bytes.
pub fn u16_be(n: u16) -> (r: [u8; 2])
    ensures
        r@ == spec_u16_be(n),
{
    let r = [(n / 256) as u8, (n % 256) as u8];
    assert(r@ =~= spec_u16_be(n));
    r
}

/// Reads a 16-bit integer from two big-endian bytes.
pub fn u16_from_be(a: u8, b: u8) -> (n: u16)
    ensures
        n == spec_u16_from_be(a, b),
{
    (a as u16) * 256 + (b as u16)
}

/// Writes a 32-bit integer as four big-endian bytes.
pub fn u32_be(n: u32) -> (r: [u8; 4])
    ensures
        r@ == spec_u32_be(n),
{
    let r = [(n / 0x1000000) as u8, ((n / 0x10000) % 256) as u8, ((n / 256) % 256) as u8, (
    n % 256) as u8];
    assert(r@ =~= spec_u32_be(n));
    r
}

/// Reads a 32-bit integer from four big-endian bytes.
pub fn u32_from_be(a: u8, b: u8, c: u8, d: u8) -> (n: u32)
    ensures
        n == a * 0x1000000 + b * 0x10000 + c * 256 + d,
{
    (a as u32) * 0x1000000 + (b as u32) * 0x10000 + (c as u32) * 256 + (d as u32)
}

/// Round trip of the big-endian encoding of a 16-bit integer.
pub proof fn lemma_u16_be_round_trip(n: u16)
    ensures
        spec_u16_from_be(spec_u16_be(n)[0], spec_u16_be(n)[1]) == n,
{
}

// ---------------------------------------------------------------------------
// Requests
// ---------------------------------------------------------------------------
/// One decoded request, as the event loop hands it to the registry.
///
/// `NoOp` is the sentinel for malformed or unrecognized input: it produces no
/// response and does not mutate the registry.
#[derive(Debug, PartialEq, Eq)]
pub enum EpmdReq {
    NoOp,
    /// port, node type, protocol, highest version, lowest version, name, extra
    Alive2(u16, u8, u8, u16, u16, String, Vec<u8>),
    /// name to look up
    Port2(String),
    Names,
    Dump,
    Kill,
    /// name to unregister
    Stop(String),
}

/// The mathematical value of a request.
pub enum ReqModel {
    NoOp,
    Alive2 {
        port: u16,
        node_type: u8,
        protocol: u8,
        high_version: u16,
        low_version: u16,
        name: Seq<char>,
        extra: Seq<u8>,
    },
    Port2 { name: Seq<char> },
    Names,
    Dump,
    Kill,
    Stop { name: Seq<char> },
}

impl View for EpmdReq {
    type V = ReqModel;

    open spec fn view(&self) -> ReqModel {
        match self {
            EpmdReq::NoOp => ReqModel::NoOp,
            EpmdReq::Alive2(port, node_type, protocol, high_version, low_version, name, extra) => {
                ReqModel::Alive2 {
                    port: *port,
                    node_type: *node_type,
                    protocol: *protocol,
                    high_version: *high_version,
                    low_version: *low_version,
                    name: name@,
                    extra: extra@,
                }
            },
            EpmdReq::Port2(name) => ReqModel::Port2 { name: name@ },
            EpmdReq::Names => ReqModel::Names,
            EpmdReq::Dump => ReqModel::Dump,
            EpmdReq::Kill => ReqModel::Kill,
            EpmdReq::Stop(name) => ReqModel::Stop { name: name@ },
        }
    }
}

impl ReqModel {
    /// Name and extra of a registration fit the 16-bit length fields of the
    /// wire protocol. Every request the codec parses satisfies this.
    pub open spec fn fits_wire(self) -> bool {
        match self {
            ReqModel::Alive2 { name, extra, .. } => encode_utf8(name).len() <= 0xFFFF
                && extra.len() <= 0xFFFF,
            _ => true,
        }
    }
}

/// The registration request parsed from its payload (the bytes after the
/// operation code). The fixed header takes 10 bytes, and the two declared
/// sub-lengths must fit in what remains after the header and both length
/// fields, else the request is the no-op sentinel.
pub open spec fn spec_parse_alive2(data: Seq<u8>) -> ReqModel {
    if data.len() < 12 {
        ReqModel::NoOp
    } else {
        let nlen = spec_u16_from_be(data[8], data[9]) as int;
        if nlen > data.len() - 12 {
            ReqModel::NoOp
        } else {
            let name_bytes = data.subrange(10, 10 + nlen);
            let elen = spec_u16_from_be(data[10 + nlen], data[11 + nlen]) as int;
            if elen > data.len() - 12 - nlen {
                ReqModel::NoOp
            } else if !valid_utf8(name_bytes) {
                ReqModel::NoOp
            } else {
                ReqModel::Alive2 {
                    port: spec_u16_from_be(data[0], data[1]),
                    node_type: data[2],
                    protocol: data[3],
                    high_version: spec_u16_from_be(data[4], data[5]),
                    low_version: spec_u16_from_be(data[6], data[7]),
                    name: decode_utf8(name_bytes),
                    extra: data.subrange(12 + nlen, 12 + nlen + elen),
                }
            }
        }
    }
}

/// The request parsed from a whole frame: the two-byte transport length
/// prefix (ignored here; the transport already used it to delimit the frame),
/// one operation-code byte, and the code-specific payload.
pub open spec fn spec_parse_request(mesg: Seq<u8>) -> ReqModel {
    if mesg.len() < 3 {
        ReqModel::NoOp
    } else {
        let code = mesg[2];
        let data = mesg.subrange(3, mesg.len() as int);
        if code == ALIVE2_REQ {
            spec_parse_alive2(data)
        } else if code == PORT2_REQ {
            if valid_utf8(data) {
                ReqModel::Port2 { name: decode_utf8(data) }
            } else {
                ReqModel::NoOp
            }
        } else if code == NAMES_REQ {
            ReqModel::Names
        } else if code == DUMP_REQ {
            ReqModel::Dump
        } else if code == KILL_REQ {
            ReqModel::Kill
        } else if code == STOP_REQ {
            if valid_utf8(data) {
                ReqModel::Stop { name: decode_utf8(data) }
            } else {
                ReqModel::NoOp
            }
        } else {
            ReqModel::NoOp
        }
    }
}

fn parse_alive2(data: &[u8]) -> (req: EpmdReq)
    ensures
        req@ == spec_parse_alive2(data@),
{
    if data.len() < 12 {
        return EpmdReq::NoOp;
    }
    let nlen = u16_from_be(data[8], data[9]) as usize;
    if nlen > data.len() - 12 {
        return EpmdReq::NoOp;
    }
    let name_bytes = slice_subrange(data, 10, 10 + nlen);
    let elen = u16_from_be(data[10 + nlen], data[11 + nlen]) as usize;
    if elen > data.len() - 12 - nlen {
        return EpmdReq::NoOp;
    }
    match bytes_as_str(name_bytes) {
        Option::Some(name) => {
            let extra = slice_to_vec(slice_subrange(data, 12 + nlen, 12 + nlen + elen));
            let port = u16_from_be(data[0], data[1]);
            let high_version = u16_from_be(data[4], data[5]);
            let low_version = u16_from_be(data[6], data[7]);
            proof {
                assert(encode_utf8(name@) == name_bytes@);
            }
            EpmdReq::Alive2(port, data[2], data[3], high_version, low_version, name.to_owned(), extra)
        },
        Option::None => EpmdReq::NoOp,
    }
}

/// Parses one whole frame (length prefix included) into a request.
///
/// Malformed input of any kind yields the no-op sentinel; this function never
/// fails and never reads out of bounds.
pub fn parse_request(mesg: Vec<u8>) -> (req: EpmdReq)
    ensures
        req@ == spec_parse_request(mesg@),
{
    if mesg.len() < 3 {
        return EpmdReq::NoOp;
    }
    let code = mesg[2];
    let data = slice_subrange(mesg.as_slice(), 3, mesg.len());
    if code == ALIVE2_REQ {
        parse_alive2(data)
    } else if code == PORT2_REQ {
        match bytes_as_str(data) {
            Option::Some(name) => {
                proof {
                    assert(encode_utf8(name@) == data@);
                }
                EpmdReq::Port2(name.to_owned())
            },
            Option::None => EpmdReq::NoOp,
        }
    } else if code == NAMES_REQ {
        EpmdReq::Names
    } else if code == DUMP_REQ {
        EpmdReq::Dump
    } else if code == KILL_REQ {
        EpmdReq::Kill
    } else if code == STOP_REQ {
        match bytes_as_str(data) {
            Option::Some(name) => {
                proof {
                    assert(encode_utf8(name@) == data@);
                }
                EpmdReq::Stop(name.to_owned())
            },
            Option::None => EpmdReq::NoOp,
        }
    } else {
        EpmdReq::NoOp
    }
}

/// Every frame that is shorter than the minimum header of its operation
/// code, or whose declared name or extra length overruns the remaining
/// bytes, parses to the no-op sentinel.
pub proof fn lemma_malformed_frame_is_noop(mesg: Seq<u8>)
    ensures
        mesg.len() < 3 ==> spec_parse_request(mesg) == ReqModel::NoOp,
        mesg.len() >= 3 && mesg[2] == ALIVE2_REQ && mesg.len() < 15 ==> spec_parse_request(mesg)
            == ReqModel::NoOp,
        mesg.len() >= 15 && mesg[2] == ALIVE2_REQ && spec_u16_from_be(mesg[11], mesg[12]) > mesg.len()
            - 15 ==> spec_parse_request(mesg) == ReqModel::NoOp,
        mesg.len() >= 15 && mesg[2] == ALIVE2_REQ && ({
            let nlen = spec_u16_from_be(mesg[11], mesg[12]) as int;
            nlen <= mesg.len() - 15 && spec_u16_from_be(mesg[13 + nlen], mesg[14 + nlen])
                > mesg.len() - 15 - nlen
        }) ==> spec_parse_request(mesg) == ReqModel::NoOp,
{
    if mesg.len() >= 15 && mesg[2] == ALIVE2_REQ {
        let data = mesg.subrange(3, mesg.len() as int);
        let nlen = spec_u16_from_be(data[8], data[9]) as int;
        assert(data[8] == mesg[11] && data[9] == mesg[12]);
        if 0 <= nlen <= data.len() - 12 {
            assert(data[10 + nlen] == mesg[13 + nlen] && data[11 + nlen] == mesg[14 + nlen]);
        }
    }
}

/// Every request the codec parses fits the wire: the declared name and extra
/// lengths were 16-bit fields, so what they delimit encodes back into them.
pub proof fn lemma_parse_request_fits_wire(mesg: Seq<u8>)
    ensures
        spec_parse_request(mesg).fits_wire(),
{
    broadcast use vstd::utf8::decode_utf8_encode_utf8;

    if mesg.len() >= 3 && mesg[2] == ALIVE2_REQ {
        let data = mesg.subrange(3, mesg.len() as int);
        if data.len() >= 12 {
            let nlen = spec_u16_from_be(data[8], data[9]) as int;
            if nlen <= data.len() - 12 {
                let name_bytes = data.subrange(10, 10 + nlen);
                if valid_utf8(name_bytes) {
                    assert(encode_utf8(decode_utf8(name_bytes)) == name_bytes);
                }
            }
        }
    }
}

// ---------------------------------------------------------------------------
// Responses
// ---------------------------------------------------------------------------
/// One response, produced only for requests that are not the no-op sentinel.
///
/// `NoOp` stands for "no response": zero bytes are written for it.
#[derive(Debug, PartialEq, Eq)]
pub enum EpmdResp {
    NoOp,
    /// result (0 = ok), creation
    Alive2(u8, u16),
    /// nonzero result
    Port2Err(u8),
    /// result (always 0), port, node type, protocol, highest version,
    /// lowest version, name, extra
    Port2Ok(u8, u16, u8, u8, u16, u16, String, Vec<u8>),
    /// own listening port, then one text line per registered node
    Names(u32, String),
    /// own listening port, then one text line per registered node with its
    /// liveness state
    Dump(u32, String),
    /// the registry held live nodes and the server is not in relaxed mode
    KillErr,
    /// the registry was cleared
    KillOk,
    /// no node of the given name was registered
    StopErr,
    /// the named node was removed
    StopOk,
}

/// The mathematical value of a response.
pub enum RespModel {
    NoOp,
    Alive2 { result: u8, creation: u16 },
    Port2Err { result: u8 },
    Port2Ok {
        result: u8,
        port: u16,
        node_type: u8,
        protocol: u8,
        high_version: u16,
        low_version: u16,
        name: Seq<char>,
        extra: Seq<u8>,
    },
    Names { port: u32, text: Seq<char> },
    Dump { port: u32, text: Seq<char> },
    KillErr,
    KillOk,
    StopErr,
    StopOk,
}

impl View for EpmdResp {
    type V = RespModel;

    open spec fn view(&self) -> RespModel {
        match self {
            EpmdResp::NoOp => RespModel::NoOp,
            EpmdResp::Alive2(result, creation) => RespModel::Alive2 {
                result: *result,
                creation: *creation,
            },
            EpmdResp::Port2Err(result) => RespModel::Port2Err { result: *result },
            EpmdResp::Port2Ok(
                result,
                port,
                node_type,
                protocol,
                high_version,
                low_version,
                name,
                extra,
            ) => RespModel::Port2Ok {
                result: *result,
                port: *port,
                node_type: *node_type,
                protocol: *protocol,
                high_version: *high_version,
                low_version: *low_version,
                name: name@,
                extra: extra@,
            },
            EpmdResp::Names(port, text) => RespModel::Names { port: *port, text: text@ },
            EpmdResp::Dump(port, text) => RespModel::Dump { port: *port, text: text@ },
            EpmdResp::KillErr => RespModel::KillErr,
            EpmdResp::KillOk => RespModel::KillOk,
            EpmdResp::StopErr => RespModel::StopErr,
            EpmdResp::StopOk => RespModel::StopOk,
        }
    }
}

impl RespModel {
    /// A response the codec can put on the wire: result codes agree with the
    /// ok / error shape, and name and extra fit their 16-bit length fields.
    pub open spec fn wf(self) -> bool {
        match self {
            RespModel::Port2Ok { result, name, extra, .. } => result == 0 && encode_utf8(
                name,
            ).len() <= 0xFFFF && extra.len() <= 0xFFFF,
            RespModel::Port2Err { result } => result != 0,
            _ => true,
        }
    }
}

/// The byte sequence "OK".
pub open spec fn spec_kill_ok_bytes() -> Seq<u8> {
    seq![79u8, 75u8]
}

/// The byte sequence "NO".
pub open spec fn spec_kill_err_bytes() -> Seq<u8> {
    seq![78u8, 79u8]
}

/// The byte sequence "STOPPED".
pub open spec fn spec_stop_ok_bytes() -> Seq<u8> {
    seq![83u8, 84u8, 79u8, 80u8, 80u8, 69u8, 68u8]
}

/// The byte sequence "NOEXIST".
pub open spec fn spec_stop_err_bytes() -> Seq<u8> {
    seq![78u8, 79u8, 69u8, 88u8, 73u8, 83u8, 84u8]
}

/// The encoded payload of a response: the operation code where the shape has
/// one, followed by the code-specific fields. The no-op response encodes to
/// zero bytes.
pub open spec fn spec_serialize_response(r: RespModel) -> Seq<u8> {
    match r {
        RespModel::NoOp => Seq::<u8>::empty(),
        RespModel::Alive2 { result, creation } => seq![ALIVE2_RESP, result] + spec_u16_be(creation),
        RespModel::Port2Err { result } => seq![PORT2_RESP, result],
        RespModel::Port2Ok {
            result,
            port,
            node_type,
            protocol,
            high_version,
            low_version,
            name,
            extra,
        } => {
            let name_bytes = encode_utf8(name);
            seq![PORT2_RESP, result] + spec_u16_be(port) + seq![node_type, protocol] + spec_u16_be(
                high_version,
            ) + spec_u16_be(low_version) + spec_u16_be(name_bytes.len() as u16) + name_bytes
                + spec_u16_be(extra.len() as u16) + extra
        },
        RespModel::Names { port, text } => spec_u32_be(port) + encode_utf8(text),
        RespModel::Dump { port, text } => spec_u32_be(port) + encode_utf8(text),
        RespModel::KillOk => spec_kill_ok_bytes(),
        RespModel::KillErr => spec_kill_err_bytes(),
        RespModel::StopOk => spec_stop_ok_bytes(),
        RespModel::StopErr => spec_stop_err_bytes(),
    }
}

/// Appends all bytes of a slice to a vector.
pub fn push_bytes(dst: &mut Vec<u8>, src: &[u8])
    ensures
        final(dst)@ == old(dst)@ + src@,
{
    let ghost orig = dst@;
    let mut i: usize = 0;
    while i < src.len()
        invariant
            0 <= i <= src@.len(),
            dst@ == orig + src@.subrange(0, i as int),
        decreases src@.len() - i,
    {
        dst.push(src[i]);
        i = i + 1;
        assert(orig + src@.subrange(0, i - 1) + seq![src@[i - 1]] =~= orig + src@.subrange(
            0,
            i as int,
        ));
    }
    assert(orig + src@.subrange(0, src@.len() as int) =~= orig + src@);
}

/// Serializes a response into its payload bytes (no transport length prefix).
pub fn serialize_response(resp: EpmdResp) -> (out: Vec<u8>)
    requires
        resp@.wf(),
    ensures
        out@ == spec_serialize_response(resp@),
{
    match resp {
        EpmdResp::NoOp => Vec::new(),
        EpmdResp::Alive2(result, creation) => {
            let mut out: Vec<u8> = Vec::new();
            out.push(ALIVE2_RESP);
            out.push(result);
            let c = u16_be(creation);
            push_bytes(&mut out, c.as_slice());
            assert(out@ =~= spec_serialize_response(RespModel::Alive2 { result, creation }));
            out
        },
        EpmdResp::Port2Err(result) => {
            let mut out: Vec<u8> = Vec::new();
            out.push(PORT2_RESP);
            out.push(result);
            assert(out@ =~= spec_serialize_response(RespModel::Port2Err { result }));
            out
        },
        EpmdResp::Port2Ok(
            result,
            port,
            node_type,
            protocol,
            high_version,
            low_version,
            name,
            extra,
        ) => {
            let ghost model = RespModel::Port2Ok {
                result,
                port,
                node_type,
                protocol,
                high_version,
                low_version,
                name: name@,
                extra: extra@,
            };
            let name_bytes = name.as_str().as_bytes();
            let mut out: Vec<u8> = Vec::new();
            out.push(PORT2_RESP);
            out.push(result);
            push_bytes(&mut out, u16_be(port).as_slice());
            out.push(node_type);
            out.push(protocol);
            push_bytes(&mut out, u16_be(high_version).as_slice());
            push_bytes(&mut out, u16_be(low_version).as_slice());
            push_bytes(&mut out, u16_be(name_bytes.len() as u16).as_slice());
            push_bytes(&mut out, name_bytes);
            push_bytes(&mut out, u16_be(extra.len() as u16).as_slice());
            push_bytes(&mut out, extra.as_slice());
            assert(out@ =~= spec_serialize_response(model));
            out
        },
        EpmdResp::Names(port, text) => {
            let mut out: Vec<u8> = Vec::new();
            push_bytes(&mut out, u32_be(port).as_slice());
            push_bytes(&mut out, text.as_str().as_bytes());
            assert(out@ =~= spec_serialize_response(RespModel::Names { port, text: text@ }));
            out
        },
        EpmdResp::Dump(port, text) => {
            let mut out: Vec<u8> = Vec::new();
            push_bytes(&mut out, u32_be(port).as_slice());
            push_bytes(&mut out, text.as_str().as_bytes());
            assert(out@ =~= spec_serialize_response(RespModel::Dump { port, text: text@ }));
            out
        },
        EpmdResp::KillOk => {
            let out: Vec<u8> = vec![79, 75];
            assert(out@ =~= spec_kill_ok_bytes());
            out
        },
        EpmdResp::KillErr => {
            let out: Vec<u8> = vec![78, 79];
            assert(out@ =~= spec_kill_err_bytes());
            out
        },
        EpmdResp::StopOk => {
            let out: Vec<u8> = vec![83, 84, 79, 80, 80, 69, 68];
            assert(out@ =~= spec_stop_ok_bytes());
            out
        },
        EpmdResp::StopErr => {
            let out: Vec<u8> = vec![78, 79, 69, 88, 73, 83, 84];
            assert(out@ =~= spec_stop_err_bytes());
            out
        },
    }
}

// ---------------------------------------------------------------------------
// Response decoding
// ---------------------------------------------------------------------------
/// Which request a response payload answers. Several response shapes carry no
/// operation code of their own, so a decoder must know what was asked.
#[derive(Clone, Copy, Debug, PartialEq, Eq, Structural)]
pub enum RespKind {
    Alive2,
    Port2,
    Names,
    Dump,
    Kill,
    Stop,
}

impl RespModel {
    /// True when this response answers a request of the given kind.
    pub open spec fn answers(self, kind: RespKind) -> bool {
        match self {
            RespModel::NoOp => true,
            RespModel::Alive2 { .. } => kind == RespKind::Alive2,
            RespModel::Port2Err { .. } => kind == RespKind::Port2,
            RespModel::Port2Ok { .. } => kind == RespKind::Port2,
            RespModel::Names { .. } => kind == RespKind::Names,
            RespModel::Dump { .. } => kind == RespKind::Dump,
            RespModel::KillErr => kind == RespKind::Kill,
            RespModel::KillOk => kind == RespKind::Kill,
            RespModel::StopErr => kind == RespKind::Stop,
            RespModel::StopOk => kind == RespKind::Stop,
        }
    }
}

/// The port-lookup response decoded from its payload bytes, assuming the
/// payload is not empty.
pub open spec fn spec_parse_port2_resp(b: Seq<u8>) -> Option<RespModel> {
    if b.len() < 2 || b[0] != PORT2_RESP {
        Option::None
    } else if b.len() == 2 && b[1] != 0 {
        Option::Some(RespModel::Port2Err { result: b[1] })
    } else if b.len() >= 14 && b[1] == 0 {
        let nlen = spec_u16_from_be(b[10], b[11]) as int;
        if b.len() < 14 + nlen {
            Option::None
        } else {
            let name_bytes = b.subrange(12, 12 + nlen);
            let elen = spec_u16_from_be(b[12 + nlen], b[13 + nlen]) as int;
            if b.len() != 14 + nlen + elen || !valid_utf8(name_bytes) {
                Option::None
            } else {
                Option::Some(
                    RespModel::Port2Ok {
                        result: 0,
                        port: spec_u16_from_be(b[2], b[3]),
                        node_type: b[4],
                        protocol: b[5],
                        high_version: spec_u16_from_be(b[6], b[7]),
                        low_version: spec_u16_from_be(b[8], b[9]),
                        name: decode_utf8(name_bytes),
                        extra: b.subrange(14 + nlen, b.len() as int),
                    },
                )
            }
        }
    } else {
        Option::None
    }
}

/// The response of the given kind decoded from its payload bytes. An empty
/// payload decodes to the no-op response; bytes that no well-formed response
/// of that kind encodes to decode to nothing.
pub open spec fn spec_parse_response(kind: RespKind, b: Seq<u8>) -> Option<RespModel> {
    if b.len() == 0 {
        Option::Some(RespModel::NoOp)
    } else {
        match kind {
            RespKind::Alive2 => {
                if b.len() == 4 && b[0] == ALIVE2_RESP {
                    Option::Some(
                        RespModel::Alive2 { result: b[1], creation: spec_u16_from_be(b[2], b[3]) },
                    )
                } else {
                    Option::None
                }
            },
            RespKind::Port2 => spec_parse_port2_resp(b),
            RespKind::Names => {
                if b.len() >= 4 && valid_utf8(b.subrange(4, b.len() as int)) {
                    Option::Some(
                        RespModel::Names {
                            port: (b[0] * 0x1000000 + b[1] * 0x10000 + b[2] * 256 + b[3]) as u32,
                            text: decode_utf8(b.subrange(4, b.len() as int)),
                        },
                    )
                } else {
                    Option::None
                }
            },
            RespKind::Dump => {
                if b.len() >= 4 && valid_utf8(b.subrange(4, b.len() as int)) {
                    Option::Some(
                        RespModel::Dump {
                            port: (b[0] * 0x1000000 + b[1] * 0x10000 + b[2] * 256 + b[3]) as u32,
                            text: decode_utf8(b.subrange(4, b.len() as int)),
                        },
                    )
                } else {
                    Option::None
                }
            },
            RespKind::Kill => {
                if b =~= spec_kill_ok_bytes() {
                    Option::Some(RespModel::KillOk)
                } else if b =~= spec_kill_err_bytes() {
                    Option::Some(RespModel::KillErr)
                } else {
                    Option::None
                }
            },
            RespKind::Stop => {
                if b =~= spec_stop_ok_bytes() {
                    Option::Some(RespModel::StopOk)
                } else if b =~= spec_stop_err_bytes() {
                    Option::Some(RespModel::StopErr)
                } else {
                    Option::None
                }
            },
        }
    }
}

fn parse_port2_resp(b: &[u8]) -> (resp: Option<EpmdResp>)
    requires
        b@.len() > 0,
    ensures
        match resp {
            Option::Some(r) => spec_parse_port2_resp(b@) == Option::Some(r@),
            Option::None => spec_parse_port2_resp(b@) is None,
        },
{
    if b.len() < 2 || b[0] != PORT2_RESP {
        return Option::None;
    }
    if b.len() == 2 && b[1] != 0 {
        return Option::Some(EpmdResp::Port2Err(b[1]));
    }
    if b.len() >= 14 && b[1] == 0 {
        let nlen = u16_from_be(b[10], b[11]) as usize;
        if b.len() < 14 + nlen {
            return Option::None;
        }
        let name_bytes = slice_subrange(b, 12, 12 + nlen);
        let elen = u16_from_be(b[12 + nlen], b[13 + nlen]) as usize;
        if b.len() != 14 + nlen + elen {
            return Option::None;
        }
        match bytes_as_str(name_bytes) {
            Option::Some(name) => {
                proof {
                    assert(encode_utf8(name@) == name_bytes@);
                }
                let extra = slice_to_vec(slice_subrange(b, 14 + nlen, b.len()));
                Option::Some(
                    EpmdResp::Port2Ok(
                        0,
                        u16_from_be(b[2], b[3]),
                        b[4],
                        b[5],
                        u16_from_be(b[6], b[7]),
                        u16_from_be(b[8], b[9]),
                        name.to_owned(),
                        extra,
                    ),
                )
            },
            Option::None => Option::None,
        }
    } else {
        Option::None
    }
}

/// Compares a byte slice with a fixed pair of bytes.
fn is_bytes2(b: &[u8], x0: u8, x1: u8) -> (r: bool)
    ensures
        r <==> b@ =~= seq![x0, x1],
{
    if b.len() == 2 && b[0] == x0 && b[1] == x1 {
        assert(b@ =~= seq![x0, x1]);
        true
    } else {
        assert(!(b@ =~= seq![x0, x1]));
        false
    }
}

/// Compares a byte slice with a fixed run of seven bytes.
fn is_bytes7(b: &[u8], x: [u8; 7]) -> (r: bool)
    ensures
        r <==> b@ =~= x@,
{
    if b.len() == 7 && b[0] == x[0] && b[1] == x[1] && b[2] == x[2] && b[3] == x[3] && b[4] == x[4]
        && b[5] == x[5] && b[6] == x[6] {
        assert(b@ =~= x@);
        true
    } else {
        assert(!(b@ =~= x@));
        false
    }
}

fn parse_stop_resp(b: &[u8]) -> (resp: Option<EpmdResp>)
    requires
        b@.len() > 0,
    ensures
        match resp {
            Option::Some(r) => spec_parse_response(RespKind::Stop, b@) == Option::Some(r@),
            Option::None => spec_parse_response(RespKind::Stop, b@) is None,
        },
{
    let stopped: [u8; 7] = [83, 84, 79, 80, 80, 69, 68];
    let noexist: [u8; 7] = [78, 79, 69, 88, 73, 83, 84];
    assert(stopped@ =~= spec_stop_ok_bytes());
    assert(noexist@ =~= spec_stop_err_bytes());
    if is_bytes7(b, stopped) {
        Option::Some(EpmdResp::StopOk)
    } else if is_bytes7(b, noexist) {
        Option::Some(EpmdResp::StopErr)
    } else {
        Option::None
    }
}

/// Decodes a response payload, given the kind of request it answers.
///
/// Returns the decoded response, or nothing when no well-formed response of
/// that kind encodes to these bytes.
pub fn parse_response(kind: RespKind, b: &[u8]) -> (resp: Option<EpmdResp>)
    ensures
        match resp {
            Option::Some(r) => spec_parse_response(kind, b@) == Option::Some(r@),
            Option::None => spec_parse_response(kind, b@) is None,
        },
{
    if b.len() == 0 {
        return Option::Some(EpmdResp::NoOp);
    }
    match kind {
        RespKind::Alive2 => {
            if b.len() == 4 && b[0] == ALIVE2_RESP {
                Option::Some(EpmdResp::Alive2(b[1], u16_from_be(b[2], b[3])))
            } else {
                Option::None
            }
        },
        RespKind::Port2 => parse_port2_resp(b),
        RespKind::Names | RespKind::Dump => {
            if b.len() < 4 {
                return Option::None;
            }
            let text_bytes = slice_subrange(b, 4, b.len());
            match bytes_as_str(text_bytes) {
                Option::Some(text) => {
                    proof {
                        assert(encode_utf8(text@) == text_bytes@);
                    }
                    let port = u32_from_be(b[0], b[1], b[2], b[3]);
                    match kind {
                        RespKind::Names => Option::Some(EpmdResp::Names(port, text.to_owned())),
                        _ => Option::Some(EpmdResp::Dump(port, text.to_owned())),
                    }
                },
                Option::None => Option::None,
            }
        },
        RespKind::Kill => {
            if is_bytes2(b, 79, 75) {
                Option::Some(EpmdResp::KillOk)
            } else if is_bytes2(b, 78, 79) {
                Option::Some(EpmdResp::KillErr)
            } else {
                Option::None
            }
        },
        RespKind::Stop => parse_stop_resp(b),
    }
}

/// Round trip of the response codec: every well-formed response, encoded and
/// then decoded under the kind of request it answers, comes back unchanged.
pub proof fn lemma_response_round_trip(r: RespModel, kind: RespKind)
    requires
        r.wf(),
        r.answers(kind),
    ensures
        spec_parse_response(kind, spec_serialize_response(r)) == Option::Some(r),
{
    broadcast use vstd::utf8::decode_utf8_encode_utf8;

    let b = spec_serialize_response(r);
    match r {
        RespModel::NoOp => {
            assert(b.len() == 0);
        },
        RespModel::Alive2 { result, creation } => {
            assert(b =~= seq![ALIVE2_RESP, result, (creation / 256) as u8, (creation % 256) as u8]);
            lemma_u16_be_round_trip(creation);
        },
        RespModel::Port2Err { result } => {
            assert(b =~= seq![PORT2_RESP, result]);
        },
        RespModel::Port2Ok {
            result,
            port,
            node_type,
            protocol,
            high_version,
            low_version,
            name,
            extra,
        } => {
            let name_bytes = encode_utf8(name);
            let nlen = name_bytes.len() as int;
            let elen = extra.len() as int;
            let header = seq![
                PORT2_RESP,
                0u8,
                (port / 256) as u8,
                (port % 256) as u8,
                node_type,
                protocol,
                (high_version / 256) as u8,
                (high_version % 256) as u8,
                (low_version / 256) as u8,
                (low_version % 256) as u8,
                (nlen / 256) as u8,
                (nlen % 256) as u8,
            ];
            assert(b =~= header + name_bytes + spec_u16_be(extra.len() as u16) + extra);
            assert(b.len() == 14 + nlen + elen);
            assert(spec_u16_from_be(b[10], b[11]) == nlen);
            assert(b.subrange(12, 12 + nlen) =~= name_bytes);
            assert(b[12 + nlen] == ((elen / 256) as u8) && b[13 + nlen] == ((elen % 256) as u8));
            assert(spec_u16_from_be(b[12 + nlen], b[13 + nlen]) == elen);
            assert(b.subrange(14 + nlen, b.len() as int) =~= extra);
            assert(valid_utf8(name_bytes));
            assert(decode_utf8(name_bytes) == name);
            lemma_u16_be_round_trip(port);
            lemma_u16_be_round_trip(high_version);
            lemma_u16_be_round_trip(low_version);
        },
        RespModel::Names { port, text } => {
            lemma_names_shape_round_trip(port, text);
        },
        RespModel::Dump { port, text } => {
            lemma_names_shape_round_trip(port, text);
        },
        RespModel::KillOk => {
            assert(b =~= spec_kill_ok_bytes());
        },
        RespModel::KillErr => {
            assert(b =~= spec_kill_err_bytes());
            assert(!(b =~= spec_kill_ok_bytes()));
        },
        RespModel::StopOk => {
            assert(b =~= spec_stop_ok_bytes());
        },
        RespModel::StopErr => {
            assert(b =~= spec_stop_err_bytes());
            assert(!(b =~= spec_stop_ok_bytes()));
        },
    }
}

proof fn lemma_names_shape_round_trip(port: u32, text: Seq<char>)
    ensures
        ({
            let b = spec_u32_be(port) + encode_utf8(text);
            &&& b.len() >= 4
            &&& valid_utf8(b.subrange(4, b.len() as int))
            &&& decode_utf8(b.subrange(4, b.len() as int)) == text
            &&& (b[0] * 0x1000000 + b[1] * 0x10000 + b[2] * 256 + b[3]) as u32 == port
        }),
{
    broadcast use vstd::utf8::decode_utf8_encode_utf8;

    let b = spec_u32_be(port) + encode_utf8(text);
    assert(b.subrange(4, b.len() as int) =~= encode_utf8(text));
    assert(b[0] == (port / 0x1000000) as u8);
    assert(b[1] == ((port / 0x10000) % 256) as u8);
    assert(b[2] == ((port / 256) % 256) as u8);
    assert(b[3] == (port % 256) as u8);
}

} // verus!
