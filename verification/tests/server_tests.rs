use re_epmd::conn::Connection;
use re_epmd::resolver::{HostIp, SockAddr};
use re_epmd::{
    parse_response, process_request, run_console, Epmd, EpmdConfig, EpmdReq, EpmdResp, ErlNode,
    RespKind, ServerEvent, ServerState,
};

fn addr(a: u8, b: u8, c: u8, d: u8) -> SockAddr {
    SockAddr { ip: HostIp::V4(a, b, c, d), port: 4369 }
}

fn alive2_frame(port: u16, node_type: u8, name: &str) -> Vec<u8> {
    let mut payload: Vec<u8> = vec![120];
    payload.extend_from_slice(&port.to_be_bytes());
    payload.push(node_type);
    payload.push(0);
    payload.extend_from_slice(&5u16.to_be_bytes());
    payload.extend_from_slice(&5u16.to_be_bytes());
    payload.extend_from_slice(&(name.len() as u16).to_be_bytes());
    payload.extend_from_slice(name.as_bytes());
    payload.extend_from_slice(&0u16.to_be_bytes());
    let mut frame = (payload.len() as u16).to_be_bytes().to_vec();
    frame.extend_from_slice(&payload);
    frame
}

fn simple_frame(code: u8, data: &[u8]) -> Vec<u8> {
    let mut frame = ((data.len() + 1) as u16).to_be_bytes().to_vec();
    frame.push(code);
    frame.extend_from_slice(data);
    frame
}

#[test]
fn process_alive2_registers_and_answers() {
    let mut epmd = Epmd::new();
    let config = EpmdConfig::new();
    let req = EpmdReq::Alive2(9999, 77, 0, 5, 5, "node1".to_string(), vec![]);
    let resp = process_request(&mut epmd, req, &config);
    match resp {
        EpmdResp::Alive2(result, creation) => {
            assert_eq!(result, 0);
            assert!((1..=3).contains(&creation));
            assert_eq!(epmd.lookup("node1").unwrap().creation, creation);
        }
        other => panic!("unexpected response {:?}", other),
    }
}

#[test]
fn process_port2_found_and_missing() {
    let mut epmd = Epmd::new();
    let config = EpmdConfig::new();
    epmd.register(ErlNode::new(9999, 77, 0, 5, 5, "node1".to_string(), vec![3]));
    let resp = process_request(&mut epmd, EpmdReq::Port2("node1".to_string()), &config);
    match resp {
        EpmdResp::Port2Ok(0, 9999, 77, 0, 5, 5, name, extra) => {
            assert_eq!(name, "node1");
            assert_eq!(extra, vec![3]);
        }
        other => panic!("unexpected response {:?}", other),
    }
    let resp = process_request(&mut epmd, EpmdReq::Port2("ghost".to_string()), &config);
    assert_eq!(resp, EpmdResp::Port2Err(1));
}

#[test]
fn process_names_and_dump_render_the_registry() {
    let mut epmd = Epmd::new();
    let config = EpmdConfig::new();
    epmd.register(ErlNode::new(9999, 77, 0, 5, 5, "node1".to_string(), vec![]));
    epmd.register(ErlNode::new(12, 77, 0, 5, 5, "abc".to_string(), vec![]));
    let resp = process_request(&mut epmd, EpmdReq::Names, &config);
    assert_eq!(
        resp,
        EpmdResp::Names(4369, "name node1 at port 9999\nname abc at port 12\n".to_string())
    );
    let resp = process_request(&mut epmd, EpmdReq::Dump, &config);
    assert_eq!(
        resp,
        EpmdResp::Dump(
            4369,
            "active name node1 at port 9999\nactive name abc at port 12\n".to_string()
        )
    );
}

#[test]
fn process_kill_and_stop() {
    let mut epmd = Epmd::new();
    let mut config = EpmdConfig::new();
    epmd.register(ErlNode::new(1, 77, 0, 5, 5, "node1".to_string(), vec![]));
    assert_eq!(process_request(&mut epmd, EpmdReq::Kill, &config), EpmdResp::KillErr);
    assert_eq!(process_request(&mut epmd, EpmdReq::Stop("ghost".to_string()), &config), EpmdResp::StopErr);
    assert_eq!(process_request(&mut epmd, EpmdReq::Stop("node1".to_string()), &config), EpmdResp::StopOk);
    assert_eq!(process_request(&mut epmd, EpmdReq::Kill, &config), EpmdResp::KillOk);
    epmd.register(ErlNode::new(1, 77, 0, 5, 5, "node1".to_string(), vec![]));
    config.brutal_kill = true;
    assert_eq!(process_request(&mut epmd, EpmdReq::Kill, &config), EpmdResp::KillOk);
    assert_eq!(epmd.list().len(), 0);
}

#[test]
fn scenario_register_then_lookup_over_the_wire() {
    // A client registers "node1" at port 9999; the server answers with
    // result 0 and a creation in 1..=3. A second connection asks for the
    // port of "node1" and is answered with the registered port.
    let events = vec![
        ServerEvent::Accept { peer: addr(10, 0, 0, 5), local: addr(127, 0, 0, 1), now: 0 },
        ServerEvent::Data { conn: 0, bytes: alive2_frame(9999, 77, "node1"), now: 1 },
        ServerEvent::Accept { peer: addr(10, 0, 0, 6), local: addr(127, 0, 0, 1), now: 2 },
        ServerEvent::Data { conn: 1, bytes: simple_frame(122, b"node1"), now: 3 },
    ];
    let (state, outputs) = run_console(Epmd::new(), EpmdConfig::new(), events);
    assert_eq!(outputs.len(), 2);

    assert_eq!(outputs[0].conn, 0);
    let first = &outputs[0].bytes;
    assert_eq!(&first[0..2], &((first.len() - 2) as u16).to_be_bytes());
    match parse_response(RespKind::Alive2, &first[2..]) {
        Some(EpmdResp::Alive2(0, creation)) => assert!((1..=3).contains(&creation)),
        other => panic!("unexpected response {:?}", other),
    }

    assert_eq!(outputs[1].conn, 1);
    let second = &outputs[1].bytes;
    match parse_response(RespKind::Port2, &second[2..]) {
        Some(EpmdResp::Port2Ok(0, port, 77, 0, 5, 5, name, _)) => {
            assert_eq!(port, 9999);
            assert_eq!(name, "node1");
        }
        other => panic!("unexpected response {:?}", other),
    }

    assert_eq!(state.epmd.lookup("node1").unwrap().port, 9999);
}

#[test]
fn scenario_stop_unregistered_name() {
    // A Stop request for a name that was never registered is answered with
    // the literal NOEXIST.
    let events = vec![
        ServerEvent::Accept { peer: addr(10, 0, 0, 5), local: addr(127, 0, 0, 1), now: 0 },
        ServerEvent::Data { conn: 0, bytes: simple_frame(115, b"ghost"), now: 1 },
    ];
    let (_state, outputs) = run_console(Epmd::new(), EpmdConfig::new(), events);
    assert_eq!(outputs.len(), 1);
    let mut expected = 7u16.to_be_bytes().to_vec();
    expected.extend_from_slice(b"NOEXIST");
    assert_eq!(outputs[0].bytes, expected);
}

#[test]
fn scenario_idle_connection_is_evicted() {
    // A connection that sends nothing and stays idle past the packet timeout
    // is closed and removed on the next housekeeping pass.
    let config = EpmdConfig::new();
    let timeout = config.packet_timeout;
    let events = vec![
        ServerEvent::Accept { peer: addr(10, 0, 0, 5), local: addr(127, 0, 0, 1), now: 0 },
        ServerEvent::Sweep { now: timeout + 1 },
    ];
    let (state, outputs) = run_console(Epmd::new(), config, events);
    assert_eq!(outputs.len(), 0);
    assert_eq!(state.connections.len(), 0);
}

#[test]
fn busy_connection_survives_the_sweep() {
    let config = EpmdConfig::new();
    let timeout = config.packet_timeout;
    let events = vec![
        ServerEvent::Accept { peer: addr(10, 0, 0, 5), local: addr(127, 0, 0, 1), now: 0 },
        ServerEvent::Accept { peer: addr(10, 0, 0, 6), local: addr(127, 0, 0, 1), now: timeout },
        ServerEvent::Sweep { now: timeout + 1 },
    ];
    let (state, _outputs) = run_console(Epmd::new(), config, events);
    assert_eq!(state.connections.len(), 1);
    assert_eq!(state.connections[0].peer_addr, addr(10, 0, 0, 6));
}

#[test]
fn registration_connection_is_kept() {
    // The connection that carried a registration is marked to be kept and
    // outlives the idle sweep; an interactive command closes its connection.
    let mut state = ServerState::new(Epmd::new(), EpmdConfig::new());
    state.step(ServerEvent::Accept { peer: addr(10, 0, 0, 5), local: addr(127, 0, 0, 1), now: 0 });
    let out = state.step(ServerEvent::Data { conn: 0, bytes: alive2_frame(9, 77, "n"), now: 0 });
    assert!(out.is_some());
    assert!(state.connections[0].keep);
    state.step(ServerEvent::Sweep { now: 1000 });
    assert_eq!(state.connections.len(), 1);

    state.step(ServerEvent::Accept { peer: addr(10, 0, 0, 6), local: addr(127, 0, 0, 1), now: 1000 });
    let out = state.step(ServerEvent::Data { conn: 1, bytes: simple_frame(110, b""), now: 1000 });
    assert!(out.is_some());
    assert!(!state.connections[1].open);
    state.step(ServerEvent::Sweep { now: 1000 });
    assert_eq!(state.connections.len(), 1);
}

#[test]
fn malformed_frame_gets_no_response() {
    let mut state = ServerState::new(Epmd::new(), EpmdConfig::new());
    state.step(ServerEvent::Accept { peer: addr(10, 0, 0, 5), local: addr(127, 0, 0, 1), now: 0 });
    // An unrecognized operation code: a whole frame, but a no-op request.
    let out = state.step(ServerEvent::Data { conn: 0, bytes: simple_frame(99, b"x"), now: 1 });
    assert!(out.is_none());
    assert!(state.connections[0].open);
}

#[test]
fn partial_frames_are_buffered() {
    let frame = alive2_frame(9999, 77, "node1");
    let (head, tail) = frame.split_at(5);
    let mut state = ServerState::new(Epmd::new(), EpmdConfig::new());
    state.step(ServerEvent::Accept { peer: addr(10, 0, 0, 5), local: addr(127, 0, 0, 1), now: 0 });
    let out = state.step(ServerEvent::Data { conn: 0, bytes: head.to_vec(), now: 1 });
    assert!(out.is_none());
    let out = state.step(ServerEvent::Data { conn: 0, bytes: tail.to_vec(), now: 2 });
    assert!(out.is_some());
    assert_eq!(state.epmd.lookup("node1").unwrap().port, 9999);
}

#[test]
fn take_frame_respects_the_length_prefix() {
    let mut c = Connection::new(addr(10, 0, 0, 5), addr(127, 0, 0, 1), 0);
    c.feed(&[0, 2], 1);
    assert!(c.take_frame().is_none());
    c.feed(&[107, 0, 9, 9], 2);
    let frame = c.take_frame().expect("a whole frame has arrived");
    assert_eq!(frame, vec![0, 2, 107, 0]);
    assert_eq!(c.read_buffer, vec![9, 9]);
    assert!(c.take_frame().is_none());
}

#[test]
fn local_peer_detection() {
    let local = addr(10, 0, 0, 1);
    let c = Connection::new(addr(127, 0, 0, 1), local, 0);
    assert!(c.local_peer);
    let c = Connection::new(addr(10, 0, 0, 1), local, 0);
    assert!(c.local_peer);
    let c = Connection::new(addr(10, 0, 0, 2), local, 0);
    assert!(!c.local_peer);
}
