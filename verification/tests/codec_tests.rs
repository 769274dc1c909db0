use re_epmd::{parse_request, parse_response, serialize_response, EpmdReq, EpmdResp, RespKind};

/// A whole registration frame for the given fields, length prefix included.
fn alive2_frame(port: u16, node_type: u8, protocol: u8, high: u16, low: u16, name: &str, extra: &[u8]) -> Vec<u8> {
    let mut payload: Vec<u8> = vec![120];
    payload.extend_from_slice(&port.to_be_bytes());
    payload.push(node_type);
    payload.push(protocol);
    payload.extend_from_slice(&high.to_be_bytes());
    payload.extend_from_slice(&low.to_be_bytes());
    payload.extend_from_slice(&(name.len() as u16).to_be_bytes());
    payload.extend_from_slice(name.as_bytes());
    payload.extend_from_slice(&(extra.len() as u16).to_be_bytes());
    payload.extend_from_slice(extra);
    let mut frame = (payload.len() as u16).to_be_bytes().to_vec();
    frame.extend_from_slice(&payload);
    frame
}

/// A whole frame holding one operation code and a raw payload.
fn simple_frame(code: u8, data: &[u8]) -> Vec<u8> {
    let mut frame = ((data.len() + 1) as u16).to_be_bytes().to_vec();
    frame.push(code);
    frame.extend_from_slice(data);
    frame
}

#[test]
fn parse_alive2_request() {
    let frame = alive2_frame(9999, 77, 0, 5, 5, "node1", &[1, 2, 3]);
    let req = parse_request(frame);
    assert_eq!(
        req,
        EpmdReq::Alive2(9999, 77, 0, 5, 5, "node1".to_string(), vec![1, 2, 3])
    );
}

#[test]
fn parse_simple_requests() {
    assert_eq!(
        parse_request(simple_frame(122, b"node1")),
        EpmdReq::Port2("node1".to_string())
    );
    assert_eq!(parse_request(simple_frame(110, b"")), EpmdReq::Names);
    assert_eq!(parse_request(simple_frame(100, b"")), EpmdReq::Dump);
    assert_eq!(parse_request(simple_frame(107, b"")), EpmdReq::Kill);
    assert_eq!(
        parse_request(simple_frame(115, b"ghost")),
        EpmdReq::Stop("ghost".to_string())
    );
}

#[test]
fn short_frames_decode_to_noop() {
    assert_eq!(parse_request(vec![]), EpmdReq::NoOp);
    assert_eq!(parse_request(vec![0]), EpmdReq::NoOp);
    assert_eq!(parse_request(vec![0, 1]), EpmdReq::NoOp);
    // A registration frame shorter than its fixed header.
    assert_eq!(parse_request(simple_frame(120, &[0; 11])), EpmdReq::NoOp);
}

#[test]
fn overrunning_sublength_decodes_to_noop() {
    // The declared name length exceeds the remaining bytes.
    let mut data = vec![0u8, 42, 77, 0, 0, 5, 0, 5];
    data.extend_from_slice(&200u16.to_be_bytes());
    data.extend_from_slice(b"node1");
    data.extend_from_slice(&0u16.to_be_bytes());
    assert_eq!(parse_request(simple_frame(120, &data)), EpmdReq::NoOp);

    // The declared extra length exceeds the remaining bytes.
    let mut data = vec![0u8, 42, 77, 0, 0, 5, 0, 5];
    data.extend_from_slice(&5u16.to_be_bytes());
    data.extend_from_slice(b"node1");
    data.extend_from_slice(&9u16.to_be_bytes());
    assert_eq!(parse_request(simple_frame(120, &data)), EpmdReq::NoOp);
}

#[test]
fn unrecognized_code_decodes_to_noop() {
    assert_eq!(parse_request(simple_frame(99, b"anything")), EpmdReq::NoOp);
}

#[test]
fn invalid_utf8_name_decodes_to_noop() {
    assert_eq!(parse_request(simple_frame(122, &[0xff, 0xfe])), EpmdReq::NoOp);
    assert_eq!(parse_request(simple_frame(115, &[0x80])), EpmdReq::NoOp);
    // A registration whose name bytes are not UTF-8.
    let mut data = vec![0u8, 42, 77, 0, 0, 5, 0, 5];
    data.extend_from_slice(&2u16.to_be_bytes());
    data.extend_from_slice(&[0xff, 0xfe]);
    data.extend_from_slice(&0u16.to_be_bytes());
    assert_eq!(parse_request(simple_frame(120, &data)), EpmdReq::NoOp);
}

#[test]
fn serialize_fixed_responses() {
    assert_eq!(serialize_response(EpmdResp::NoOp), Vec::<u8>::new());
    assert_eq!(serialize_response(EpmdResp::Alive2(0, 2)), vec![121, 0, 0, 2]);
    assert_eq!(serialize_response(EpmdResp::Port2Err(1)), vec![119, 1]);
    assert_eq!(serialize_response(EpmdResp::KillOk), b"OK".to_vec());
    assert_eq!(serialize_response(EpmdResp::KillErr), b"NO".to_vec());
    assert_eq!(serialize_response(EpmdResp::StopOk), b"STOPPED".to_vec());
    assert_eq!(serialize_response(EpmdResp::StopErr), b"NOEXIST".to_vec());
}

#[test]
fn serialize_port2_ok() {
    let resp = EpmdResp::Port2Ok(0, 9999, 77, 0, 5, 5, "node1".to_string(), vec![7]);
    let mut expected = vec![119, 0];
    expected.extend_from_slice(&9999u16.to_be_bytes());
    expected.push(77);
    expected.push(0);
    expected.extend_from_slice(&5u16.to_be_bytes());
    expected.extend_from_slice(&5u16.to_be_bytes());
    expected.extend_from_slice(&5u16.to_be_bytes());
    expected.extend_from_slice(b"node1");
    expected.extend_from_slice(&1u16.to_be_bytes());
    expected.push(7);
    assert_eq!(serialize_response(resp), expected);
}

#[test]
fn serialize_names_response() {
    let resp = EpmdResp::Names(4369, "name node1 at port 9999\n".to_string());
    let mut expected = 4369u32.to_be_bytes().to_vec();
    expected.extend_from_slice(b"name node1 at port 9999\n");
    assert_eq!(serialize_response(resp), expected);
}

fn round_trip(kind: RespKind, resp: EpmdResp) {
    let bytes = serialize_response(match &resp {
        EpmdResp::NoOp => EpmdResp::NoOp,
        EpmdResp::Alive2(a, b) => EpmdResp::Alive2(*a, *b),
        EpmdResp::Port2Err(a) => EpmdResp::Port2Err(*a),
        EpmdResp::Port2Ok(a, b, c, d, e, f, g, h) => {
            EpmdResp::Port2Ok(*a, *b, *c, *d, *e, *f, g.clone(), h.clone())
        }
        EpmdResp::Names(a, b) => EpmdResp::Names(*a, b.clone()),
        EpmdResp::Dump(a, b) => EpmdResp::Dump(*a, b.clone()),
        EpmdResp::KillErr => EpmdResp::KillErr,
        EpmdResp::KillOk => EpmdResp::KillOk,
        EpmdResp::StopErr => EpmdResp::StopErr,
        EpmdResp::StopOk => EpmdResp::StopOk,
    });
    assert_eq!(parse_response(kind, &bytes), Some(resp));
}

#[test]
fn response_round_trips() {
    // Encoding a well-formed response and decoding it under the kind of
    // request it answers comes back unchanged, for every response shape.
    round_trip(RespKind::Alive2, EpmdResp::NoOp);
    round_trip(RespKind::Alive2, EpmdResp::Alive2(0, 3));
    round_trip(RespKind::Alive2, EpmdResp::Alive2(1, 0));
    round_trip(RespKind::Port2, EpmdResp::Port2Err(1));
    round_trip(
        RespKind::Port2,
        EpmdResp::Port2Ok(0, 9999, 77, 0, 5, 5, "node1".to_string(), vec![1, 2]),
    );
    round_trip(
        RespKind::Port2,
        EpmdResp::Port2Ok(0, 1, 104, 1, 6, 5, "".to_string(), vec![]),
    );
    round_trip(RespKind::Names, EpmdResp::Names(4369, "name a at port 1\n".to_string()));
    round_trip(RespKind::Dump, EpmdResp::Dump(4369, "".to_string()));
    round_trip(RespKind::Kill, EpmdResp::KillOk);
    round_trip(RespKind::Kill, EpmdResp::KillErr);
    round_trip(RespKind::Stop, EpmdResp::StopOk);
    round_trip(RespKind::Stop, EpmdResp::StopErr);
}

#[test]
fn undecodable_responses() {
    assert_eq!(parse_response(RespKind::Alive2, &[121, 0, 0]), None);
    assert_eq!(parse_response(RespKind::Kill, b"KO"), None);
    assert_eq!(parse_response(RespKind::Stop, b"HALTED!"), None);
    assert_eq!(parse_response(RespKind::Names, &[0, 0]), None);
}
