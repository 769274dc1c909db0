//! The request-processing core of the event loop: one decoded request is
//! applied to the registry and answered, per the wire protocol's rules.

use vstd::prelude::*;
use vstd::string::StringExecFns;

use crate::codec::{
    EpmdReq, EpmdResp, ReqModel, RespModel, spec_parse_request, spec_serialize_response,
    parse_request, serialize_response, lemma_parse_request_fits_wire,
};
use crate::conn::{
    Connection, ConnModel, spec_frame_len, spec_frame_of, frame_bytes,
};
use crate::constants::{CLOSE_TIMEOUT, EPMD_PORT_NUMBER};
use crate::registry::{Epmd, ErlNode, NodeModel, spec_register, spec_lookup, spec_remove,
    spec_has_name};
use crate::resolver::{SockAddr, spec_is_loopback};

verus! {

/// The configuration the surrounding layer hands to the core: program flags,
/// timeouts, and where to listen. The core itself never reads the
/// environment or the command line.
pub struct EpmdConfig {
    // -- program flags --
    pub debug: bool,
    pub silent: bool,
    pub is_daemon: bool,
    pub is_systemd: bool,
    /// relaxed command check: allow Kill while nodes are registered
    pub brutal_kill: bool,
    pub use_ipv6: bool,
    // -- extra options --
    /// seconds a connection may stay idle before eviction
    pub packet_timeout: u64,
    pub delay_accept: usize,
    pub delay_write: usize,
    // -- connection properties --
    /// the configuration address list; empty means "any"
    pub address: String,
    pub port: u16,
}

impl EpmdConfig {
    /// The default configuration: console mode, strict command check, IPv4
    /// only, the default port, an empty address list, and the default idle
    /// timeout.
    pub fn new() -> (c: EpmdConfig)
        ensures
            !c.debug,
            !c.silent,
            !c.is_daemon,
            !c.is_systemd,
            !c.brutal_kill,
            !c.use_ipv6,
            c.packet_timeout == CLOSE_TIMEOUT,
            c.delay_accept == 0,
            c.delay_write == 0,
            c.address@ == Seq::<char>::empty(),
            c.port == EPMD_PORT_NUMBER,
    {
        EpmdConfig {
            debug: false,
            silent: false,
            is_daemon: false,
            is_systemd: false,
            brutal_kill: false,
            use_ipv6: false,
            packet_timeout: CLOSE_TIMEOUT,
            delay_accept: 0,
            delay_write: 0,
            address: String::new(),
            port: EPMD_PORT_NUMBER,
        }
    }
}

// ---------------------------------------------------------------------------
// Decimal rendering
// ---------------------------------------------------------------------------
/// The character of one decimal digit.
pub open spec fn spec_digit_char(d: int) -> char {
    if d == 0 {
        '0'
    } else if d == 1 {
        '1'
    } else if d == 2 {
        '2'
    } else if d == 3 {
        '3'
    } else if d == 4 {
        '4'
    } else if d == 5 {
        '5'
    } else if d == 6 {
        '6'
    } else if d == 7 {
        '7'
    } else if d == 8 {
        '8'
    } else {
        '9'
    }
}

/// The decimal rendering of a 16-bit integer, most significant digit first,
/// without leading zeros.
pub open spec fn spec_u16_dec_chars(n: int) -> Seq<char>
    decreases n,
{
    if n < 10 {
        seq![spec_digit_char(n)]
    } else {
        spec_u16_dec_chars(n / 10).push(spec_digit_char(n % 10))
    }
}

fn digit_string(d: u16) -> (r: String)
    requires
        d < 10,
    ensures
        r@ == seq![spec_digit_char(d as int)],
{
    proof {
        reveal_strlit("0");
        reveal_strlit("1");
        reveal_strlit("2");
        reveal_strlit("3");
        reveal_strlit("4");
        reveal_strlit("5");
        reveal_strlit("6");
        reveal_strlit("7");
        reveal_strlit("8");
        reveal_strlit("9");
    }
    let s = if d == 0 {
        String::from_str("0")
    } else if d == 1 {
        String::from_str("1")
    } else if d == 2 {
        String::from_str("2")
    } else if d == 3 {
        String::from_str("3")
    } else if d == 4 {
        String::from_str("4")
    } else if d == 5 {
        String::from_str("5")
    } else if d == 6 {
        String::from_str("6")
    } else if d == 7 {
        String::from_str("7")
    } else if d == 8 {
        String::from_str("8")
    } else {
        String::from_str("9")
    };
    assert(s@ =~= seq![spec_digit_char(d as int)]);
    s
}

/// Renders a 16-bit integer in decimal.
pub fn u16_to_string(n: u16) -> (r: String)
    ensures
        r@ == spec_u16_dec_chars(n as int),
    decreases n,
{
    if n < 10 {
        digit_string(n)
    } else {
        let mut s = u16_to_string(n / 10);
        let last = digit_string(n % 10);
        s.append(last.as_str());
        assert(s@ =~= spec_u16_dec_chars((n / 10) as int).push(spec_digit_char((n % 10) as int)));
        s
    }
}

// ---------------------------------------------------------------------------
// Registry text rendering
// ---------------------------------------------------------------------------
/// The text line describing one node in a listing: its name and port, with
/// an `active` liveness marker in a dump.
pub open spec fn spec_node_line(n: NodeModel, dump: bool) -> Seq<char> {
    (if dump {
        "active "@
    } else {
        Seq::<char>::empty()
    }) + "name "@ + n.name + " at port "@ + spec_u16_dec_chars(n.port as int) + "\n"@
}

/// The whole listing text: one line per live node, in registry order.
pub open spec fn spec_registry_text(nodes: Seq<NodeModel>, dump: bool) -> Seq<char>
    decreases nodes.len(),
{
    if nodes.len() == 0 {
        Seq::<char>::empty()
    } else {
        spec_registry_text(nodes.drop_last(), dump) + spec_node_line(nodes.last(), dump)
    }
}

/// Renders the listing text for the given nodes.
pub fn build_registry_text(nodes: &Vec<ErlNode>, dump: bool) -> (r: String)
    ensures
        r@ == spec_registry_text(nodes@.map(|i: int, n: ErlNode| n@), dump),
{
    let ghost views = nodes@.map(|i: int, n: ErlNode| n@);
    let mut text = String::new();
    let mut i: usize = 0;
    proof {
        assert(views.subrange(0, 0) =~= Seq::<NodeModel>::empty());
    }
    while i < nodes.len()
        invariant
            0 <= i <= nodes@.len(),
            views == nodes@.map(|i: int, n: ErlNode| n@),
            text@ == spec_registry_text(views.subrange(0, i as int), dump),
        decreases nodes@.len() - i,
    {
        if dump {
            text.append("active ");
        }
        text.append("name ");
        text.append(nodes[i].name.as_str());
        text.append(" at port ");
        let port = u16_to_string(nodes[i].port);
        text.append(port.as_str());
        text.append("\n");
        i = i + 1;
        proof {
            assert(views.subrange(0, i as int).drop_last() =~= views.subrange(0, i - 1));
            assert(views.subrange(0, i as int).last() == views[i - 1]);
            assert(text@ =~= spec_registry_text(views.subrange(0, i - 1), dump) + spec_node_line(
                views[i - 1],
                dump,
            ));
        }
    }
    proof {
        assert(views.subrange(0, views.len() as int) =~= views);
    }
    text
}

// ---------------------------------------------------------------------------
// Request processing
// ---------------------------------------------------------------------------
/// The registry contents after a request: a registration registers, an
/// unregistration removes, a permitted kill clears, anything else leaves the
/// registry unchanged.
pub open spec fn spec_registry_after(
    nodes: Seq<NodeModel>,
    next_creation: u16,
    req: ReqModel,
    relaxed: bool,
) -> Seq<NodeModel> {
    match req {
        ReqModel::Alive2 { port, node_type, protocol, high_version, low_version, name, extra } => {
            spec_register(
                nodes,
                NodeModel {
                    fd: 0,
                    port,
                    name,
                    creation: 0,
                    node_type,
                    protocol,
                    high_version,
                    low_version,
                    extra,
                },
                next_creation,
            ).0
        },
        ReqModel::Stop { name } => spec_remove(nodes, name),
        ReqModel::Kill => if relaxed || nodes.len() == 0 {
            Seq::<NodeModel>::empty()
        } else {
            nodes
        },
        _ => nodes,
    }
}

/// The fresh creation tag left for the next registration: it advances
/// cyclically through 1..=3 when a fresh name is registered.
pub open spec fn spec_next_creation_after(
    nodes: Seq<NodeModel>,
    next_creation: u16,
    req: ReqModel,
) -> u16 {
    match req {
        ReqModel::Alive2 { name, .. } => if spec_has_name(nodes, name) {
            next_creation
        } else {
            (next_creation % 3 + 1) as u16
        },
        _ => next_creation,
    }
}

/// The response a request earns against the given registry contents.
pub open spec fn spec_response_for(
    nodes: Seq<NodeModel>,
    next_creation: u16,
    req: ReqModel,
    relaxed: bool,
    own_port: u16,
) -> RespModel {
    match req {
        ReqModel::NoOp => RespModel::NoOp,
        ReqModel::Alive2 { port, node_type, protocol, high_version, low_version, name, extra } => {
            let creation = spec_register(
                nodes,
                NodeModel {
                    fd: 0,
                    port,
                    name,
                    creation: 0,
                    node_type,
                    protocol,
                    high_version,
                    low_version,
                    extra,
                },
                next_creation,
            ).1;
            RespModel::Alive2 { result: 0, creation }
        },
        ReqModel::Port2 { name } => match spec_lookup(nodes, name) {
            Option::Some(n) => RespModel::Port2Ok {
                result: 0,
                port: n.port,
                node_type: n.node_type,
                protocol: n.protocol,
                high_version: n.high_version,
                low_version: n.low_version,
                name: n.name,
                extra: n.extra,
            },
            Option::None => RespModel::Port2Err { result: 1 },
        },
        ReqModel::Names => RespModel::Names {
            port: own_port as u32,
            text: spec_registry_text(nodes, false),
        },
        ReqModel::Dump => RespModel::Dump {
            port: own_port as u32,
            text: spec_registry_text(nodes, true),
        },
        ReqModel::Kill => if relaxed || nodes.len() == 0 {
            RespModel::KillOk
        } else {
            RespModel::KillErr
        },
        ReqModel::Stop { name } => if spec_has_name(nodes, name) {
            RespModel::StopOk
        } else {
            RespModel::StopErr
        },
    }
}

/// Applies one decoded request to the registry and produces its response.
///
/// A registration registers the node and answers with the assigned creation
/// tag; a port lookup answers from the registry without mutating it; a
/// listing or dump renders the live nodes; a kill clears the registry when
/// permitted and reports refusal otherwise; an unregistration removes the
/// named node and reports whether it existed. The no-op sentinel leaves the
/// registry untouched and produces no response.
pub fn process_request(epmd: &mut Epmd, req: EpmdReq, config: &EpmdConfig) -> (resp: EpmdResp)
    requires
        old(epmd).wf(),
        req@.fits_wire(),
    ensures
        final(epmd).wf(),
        resp@.wf(),
        final(epmd)@ == spec_registry_after(
            old(epmd)@,
            old(epmd).next_creation,
            req@,
            config.brutal_kill,
        ),
        resp@ == spec_response_for(
            old(epmd)@,
            old(epmd).next_creation,
            req@,
            config.brutal_kill,
            config.port,
        ),
        final(epmd).next_creation == spec_next_creation_after(
            old(epmd)@,
            old(epmd).next_creation,
            req@,
        ),
        final(epmd).active_conn == old(epmd).active_conn,
        final(epmd).max_conn == old(epmd).max_conn,
{
    match req {
        EpmdReq::NoOp => EpmdResp::NoOp,
        EpmdReq::Alive2(port, node_type, protocol, high_version, low_version, name, extra) => {
            let node = ErlNode::new(port, node_type, protocol, high_version, low_version, name,
                extra);
            let creation = epmd.register(node);
            EpmdResp::Alive2(0, creation)
        },
        EpmdReq::Port2(name) => {
            match epmd.lookup(name.as_str()) {
                Option::Some(node) => {
                    proof {
                        crate::registry::lemma_lookup_is_member(epmd@, name@);
                    }
                    let extra = vstd::slice::slice_to_vec(node.extra.as_slice());
                    EpmdResp::Port2Ok(
                        0,
                        node.port,
                        node.node_type,
                        node.protocol,
                        node.high_version,
                        node.low_version,
                        node.name.clone(),
                        extra,
                    )
                },
                Option::None => EpmdResp::Port2Err(1),
            }
        },
        EpmdReq::Names => {
            let text = build_registry_text(epmd.list(), false);
            EpmdResp::Names(config.port as u32, text)
        },
        EpmdReq::Dump => {
            let text = build_registry_text(epmd.list(), true);
            EpmdResp::Dump(config.port as u32, text)
        },
        EpmdReq::Kill => {
            if epmd.kill(config.brutal_kill) {
                EpmdResp::KillOk
            } else {
                EpmdResp::KillErr
            }
        },
        EpmdReq::Stop(name) => {
            if epmd.remove(name.as_str()) {
                EpmdResp::StopOk
            } else {
                EpmdResp::StopErr
            }
        },
    }
}

// ---------------------------------------------------------------------------
// Housekeeping: the idle sweep and the removal of closed connections
// ---------------------------------------------------------------------------
/// The spec-level contents of a connection list.
pub open spec fn spec_conn_views(v: Seq<Connection>) -> Seq<ConnModel> {
    v.map(|i: int, c: Connection| c@)
}

/// The connection list after the idle sweep: every open connection that is
/// not kept and has been idle past the timeout is closed; the rest stay as
/// they are.
pub open spec fn spec_sweep(conns: Seq<ConnModel>, now: u64, timeout: u64) -> Seq<ConnModel> {
    conns.map(
        |i: int, c: ConnModel|
            if c.open && !c.keep && c.expired(now, timeout) {
                c.closed()
            } else {
                c
            },
    )
}

/// The connection list without its closed entries, order kept.
pub open spec fn spec_purge(conns: Seq<ConnModel>) -> Seq<ConnModel>
    decreases conns.len(),
{
    if conns.len() == 0 {
        conns
    } else if conns[0].can_remove {
        spec_purge(conns.drop_first())
    } else {
        seq![conns[0]] + spec_purge(conns.drop_first())
    }
}

/// The purge keeps no closed entry, and invents none: every survivor is an
/// entry of the input.
pub proof fn lemma_purge_clean(conns: Seq<ConnModel>)
    ensures
        forall|j: int| 0 <= j < spec_purge(conns).len() ==> !(#[trigger] spec_purge(conns)[j]).can_remove,
        forall|j: int|
            0 <= j < spec_purge(conns).len() ==> exists|i: int|
                0 <= i < conns.len() && conns[i] == #[trigger] spec_purge(conns)[j],
    decreases conns.len(),
{
    if conns.len() > 0 {
        lemma_purge_clean(conns.drop_first());
        let rest = spec_purge(conns.drop_first());
        assert forall|j: int| 0 <= j < spec_purge(conns).len() implies exists|i: int|
            0 <= i < conns.len() && conns[i] == #[trigger] spec_purge(conns)[j] by {
            if conns[0].can_remove {
                let i = choose|i: int|
                    0 <= i < conns.drop_first().len() && conns.drop_first()[i] == rest[j];
                assert(conns[i + 1] == spec_purge(conns)[j]);
            } else {
                if j == 0 {
                    assert(conns[0] == spec_purge(conns)[0]);
                } else {
                    let i = choose|i: int|
                        0 <= i < conns.drop_first().len() && conns.drop_first()[i] == rest[j - 1];
                    assert(conns[i + 1] == spec_purge(conns)[j]);
                }
            }
        }
    }
}

/// Law: after a housekeeping pass — the idle sweep followed by the purge —
/// no closed connection remains in the live set, and no remaining connection
/// is an unkept one that was idle past the timeout.
pub proof fn lemma_idle_connections_evicted(conns: Seq<ConnModel>, now: u64, timeout: u64)
    ensures
        forall|j: int|
            0 <= j < spec_purge(spec_sweep(conns, now, timeout)).len() ==> {
                let c = #[trigger] spec_purge(spec_sweep(conns, now, timeout))[j];
                !c.can_remove && !(c.open && !c.keep && c.expired(now, timeout))
            },
{
    let swept = spec_sweep(conns, now, timeout);
    lemma_purge_clean(swept);
    assert forall|j: int| 0 <= j < spec_purge(swept).len() implies {
        let c = #[trigger] spec_purge(swept)[j];
        !c.can_remove && !(c.open && !c.keep && c.expired(now, timeout))
    } by {
        let c = spec_purge(swept)[j];
        let i = choose|i: int| 0 <= i < swept.len() && swept[i] == c;
        if conns[i].open && !conns[i].keep && conns[i].expired(now, timeout) {
            assert(swept[i] == conns[i].closed());
        } else {
            assert(swept[i] == conns[i]);
        }
    }
}

/// Closes every open connection that is not kept and has been idle past the
/// timeout.
pub fn sweep_connections(conns: &mut Vec<Connection>, now: u64, timeout: u64)
    ensures
        spec_conn_views(final(conns)@) == spec_sweep(spec_conn_views(old(conns)@), now, timeout),
{
    let ghost orig = spec_conn_views(conns@);
    let mut i: usize = 0;
    while i < conns.len()
        invariant
            0 <= i <= conns@.len(),
            conns@.len() == orig.len(),
            forall|j: int|
                i <= j < orig.len() ==> #[trigger] spec_conn_views(conns@)[j] == orig[j],
            forall|j: int|
                0 <= j < i ==> #[trigger] spec_conn_views(conns@)[j] == spec_sweep(
                    orig,
                    now,
                    timeout,
                )[j],
        decreases conns@.len() - i,
    {
        proof {
            assert(spec_conn_views(conns@)[i as int] == conns@[i as int]@);
            assert(conns@[i as int]@ == orig[i as int]);
        }
        let needs_close = conns[i].open && !conns[i].keep && conns[i].expired(now, timeout);
        if needs_close {
            let ghost pre = conns@;
            let mut c = conns.remove(i);
            c.close();
            conns.insert(i, c);
            proof {
                assert(conns@ =~= pre.update(i as int, c));
                assert(spec_conn_views(conns@) =~= spec_conn_views(pre).update(i as int, c@));
                assert(c@ == orig[i as int].closed());
                assert(spec_sweep(orig, now, timeout)[i as int] == orig[i as int].closed());
            }
        } else {
            proof {
                assert(spec_sweep(orig, now, timeout)[i as int] == orig[i as int]);
            }
        }
        i = i + 1;
    }
    proof {
        assert(spec_conn_views(conns@) =~= spec_sweep(orig, now, timeout));
    }
}

/// Removes every closed connection from the live set, releasing its slot.
pub fn purge_connections(conns: &mut Vec<Connection>)
    ensures
        spec_conn_views(final(conns)@) == spec_purge(spec_conn_views(old(conns)@)),
{
    let ghost orig = spec_conn_views(conns@);
    let mut i: usize = 0;
    proof {
        assert(spec_conn_views(conns@).subrange(0, 0) =~= Seq::<ConnModel>::empty());
        assert(spec_conn_views(conns@).subrange(0, conns@.len() as int) =~= spec_conn_views(
            conns@,
        ));
    }
    while i < conns.len()
        invariant
            0 <= i <= conns@.len(),
            spec_purge(orig) == spec_conn_views(conns@).subrange(0, i as int) + spec_purge(
                spec_conn_views(conns@).subrange(i as int, conns@.len() as int),
            ),
        decreases conns@.len() - i,
    {
        let ghost views = spec_conn_views(conns@);
        let ghost rest = views.subrange(i as int, views.len() as int);
        proof {
            assert(rest[0] == views[i as int]);
        }
        if conns[i].can_remove {
            let ghost pre = conns@;
            conns.remove(i);
            proof {
                assert(conns@ =~= pre.remove(i as int));
                let views2 = spec_conn_views(conns@);
                assert(views2 =~= views.remove(i as int));
                assert(views2.subrange(0, i as int) =~= views.subrange(0, i as int));
                assert(views2.subrange(i as int, views2.len() as int) =~= rest.drop_first());
            }
        } else {
            proof {
                let views2 = spec_conn_views(conns@);
                assert(views2 == views);
                assert(spec_purge(rest) =~= seq![rest[0]] + spec_purge(rest.drop_first()));
                assert(views.subrange(0, i + 1) =~= views.subrange(0, i as int) + seq![
                    views[i as int],
                ]);
                assert(views.subrange(i + 1, views.len() as int) =~= rest.drop_first());
                assert(views.subrange(0, i as int) + (seq![rest[0]] + spec_purge(
                    rest.drop_first(),
                )) =~= views.subrange(0, i + 1) + spec_purge(rest.drop_first()));
            }
            i = i + 1;
        }
    }
    proof {
        let views = spec_conn_views(conns@);
        assert(views.subrange(0, i as int) =~= views);
        assert(views.subrange(i as int, views.len() as int) =~= Seq::<ConnModel>::empty());
        assert(spec_purge(orig) =~= views);
    }
}

// ---------------------------------------------------------------------------
// The event loop as a state machine
// ---------------------------------------------------------------------------
/// One thing the surrounding I/O loop observed: a connection was accepted,
/// bytes arrived on a connection, or the periodic housekeeping interval
/// elapsed.
pub enum ServerEvent {
    Accept { peer: SockAddr, local: SockAddr, now: u64 },
    Data { conn: usize, bytes: Vec<u8>, now: u64 },
    Sweep { now: u64 },
}

/// The mathematical value of an event.
pub enum EventModel {
    Accept { peer: SockAddr, local: SockAddr, now: u64 },
    Data { conn: int, bytes: Seq<u8>, now: u64 },
    Sweep { now: u64 },
}

impl View for ServerEvent {
    type V = EventModel;

    open spec fn view(&self) -> EventModel {
        match self {
            ServerEvent::Accept { peer, local, now } => EventModel::Accept {
                peer: *peer,
                local: *local,
                now: *now,
            },
            ServerEvent::Data { conn, bytes, now } => EventModel::Data {
                conn: *conn as int,
                bytes: bytes@,
                now: *now,
            },
            ServerEvent::Sweep { now } => EventModel::Sweep { now: *now },
        }
    }
}

/// An order to the surrounding I/O loop: write these bytes — a whole frame —
/// on that connection.
pub struct ServerOutput {
    pub conn: usize,
    pub bytes: Vec<u8>,
}

/// The mathematical value of an output order.
pub struct OutputModel {
    pub conn: int,
    pub bytes: Seq<u8>,
}

impl View for ServerOutput {
    type V = OutputModel;

    open spec fn view(&self) -> OutputModel {
        OutputModel { conn: self.conn as int, bytes: self.bytes@ }
    }
}

/// The whole state the event loop owns: the registry, the configuration, and
/// the live connection list.
pub struct ServerState {
    pub epmd: Epmd,
    pub config: EpmdConfig,
    pub connections: Vec<Connection>,
}

/// The mathematical value of the server state: the registry contents, the
/// next fresh creation tag, the connections, and the configuration values
/// the step logic reads.
pub struct ServerModel {
    pub nodes: Seq<NodeModel>,
    pub next_creation: u16,
    pub conns: Seq<ConnModel>,
    pub relaxed: bool,
    pub port: u16,
    pub timeout: u64,
}

impl View for ServerState {
    type V = ServerModel;

    open spec fn view(&self) -> ServerModel {
        ServerModel {
            nodes: self.epmd@,
            next_creation: self.epmd.next_creation,
            conns: spec_conn_views(self.connections@),
            relaxed: self.config.brutal_kill,
            port: self.config.port,
            timeout: self.config.packet_timeout,
        }
    }
}

/// The model of a freshly accepted connection.
pub open spec fn spec_new_conn(peer: SockAddr, local: SockAddr, now: u64) -> ConnModel {
    ConnModel {
        can_remove: false,
        open: true,
        keep: false,
        mod_time: now,
        peer_addr: peer,
        local_peer: spec_is_loopback(peer.ip) || peer.ip == local.ip,
        read_buffer: Seq::<u8>::empty(),
    }
}

/// One step of the event loop.
///
/// An accept appends a fresh open connection. A sweep closes the idle unkept
/// connections and removes the closed ones. Arriving bytes are buffered on
/// their connection; as soon as one whole frame is there, it is decoded,
/// applied to the registry, and answered: the framed response is the output
/// to write. A registration marks its connection to be kept; any other
/// answered request closes the connection; the no-op sentinel answers
/// nothing and leaves the connection open.
pub open spec fn spec_step(m: ServerModel, e: EventModel) -> (ServerModel, Option<OutputModel>) {
    match e {
        EventModel::Accept { peer, local, now } => (
            ServerModel { conns: m.conns.push(spec_new_conn(peer, local, now)), ..m },
            Option::<OutputModel>::None,
        ),
        EventModel::Sweep { now } => (
            ServerModel { conns: spec_purge(spec_sweep(m.conns, now, m.timeout)), ..m },
            Option::<OutputModel>::None,
        ),
        EventModel::Data { conn: i, bytes, now } => {
            if !(0 <= i < m.conns.len()) || !m.conns[i].open {
                (m, Option::<OutputModel>::None)
            } else {
                let c0 = m.conns[i];
                let fed = ConnModel {
                    read_buffer: c0.read_buffer + bytes,
                    mod_time: now,
                    ..c0
                };
                let buf = fed.read_buffer;
                if buf.len() >= 2 && buf.len() >= spec_frame_len(buf) {
                    let frame = buf.subrange(0, spec_frame_len(buf));
                    let rest = buf.subrange(spec_frame_len(buf), buf.len() as int);
                    let req = spec_parse_request(frame);
                    let resp = spec_response_for(m.nodes, m.next_creation, req, m.relaxed, m.port);
                    let payload = spec_serialize_response(resp);
                    let drained = ConnModel { read_buffer: rest, ..fed };
                    let served = match req {
                        ReqModel::NoOp => drained,
                        ReqModel::Alive2 { .. } => ConnModel { keep: true, ..drained },
                        _ => drained.closed(),
                    };
                    let out = if resp != RespModel::NoOp && payload.len() <= 0xFFFF {
                        Option::Some(OutputModel { conn: i, bytes: spec_frame_of(payload) })
                    } else {
                        Option::<OutputModel>::None
                    };
                    (
                        ServerModel {
                            nodes: spec_registry_after(m.nodes, m.next_creation, req, m.relaxed),
                            next_creation: spec_next_creation_after(m.nodes, m.next_creation, req),
                            conns: m.conns.update(i, served),
                            ..m
                        },
                        out,
                    )
                } else {
                    (ServerModel { conns: m.conns.update(i, fed), ..m }, Option::<OutputModel>::None)
                }
            }
        },
    }
}

impl ServerState {
    /// Well-formed server state: a well-formed registry.
    pub open spec fn wf(&self) -> bool {
        self.epmd.wf()
    }

    /// A server about to start: the given registry and configuration, and no
    /// connections yet.
    pub fn new(epmd: Epmd, config: EpmdConfig) -> (s: ServerState)
        requires
            epmd.wf(),
        ensures
            s.wf(),
            s@.nodes == epmd@,
            s@.next_creation == epmd.next_creation,
            s@.conns =~= Seq::<ConnModel>::empty(),
            s@.relaxed == config.brutal_kill,
            s@.port == config.port,
            s@.timeout == config.packet_timeout,
    {
        let s = ServerState { epmd, config, connections: Vec::new() };
        proof {
            assert(spec_conn_views(s.connections@) =~= Seq::<ConnModel>::empty());
        }
        s
    }

    /// Performs one step of the event loop on this state.
    pub fn step(&mut self, event: ServerEvent) -> (out: Option<ServerOutput>)
        requires
            old(self).wf(),
        ensures
            final(self).wf(),
            final(self)@ == spec_step(old(self)@, event@).0,
            (match out {
                Option::Some(o) => Option::Some(o@),
                Option::None => Option::<OutputModel>::None,
            }) == spec_step(old(self)@, event@).1,
    {
        let ghost m = self@;
        match event {
            ServerEvent::Accept { peer, local, now } => {
                let c = Connection::new(peer, local, now);
                proof {
                    assert(c@ == spec_new_conn(peer, local, now));
                }
                let ghost pre = self.connections@;
                self.connections.push(c);
                proof {
                    assert(spec_conn_views(self.connections@) =~= spec_conn_views(pre).push(c@));
                }
                Option::None
            },
            ServerEvent::Sweep { now } => {
                sweep_connections(&mut self.connections, now, self.config.packet_timeout);
                purge_connections(&mut self.connections);
                Option::None
            },
            ServerEvent::Data { conn: i, bytes, now } => {
                if i >= self.connections.len() {
                    return Option::None;
                }
                proof {
                    assert(m.conns[i as int] == self.connections@[i as int]@);
                }
                if !self.connections[i].open {
                    return Option::None;
                }
                let ghost pre = self.connections@;
                let ghost c0 = m.conns[i as int];
                let mut c = self.connections.remove(i);
                c.feed(bytes.as_slice(), now);
                let ghost fed = c@;
                proof {
                    assert(fed == ConnModel {
                        read_buffer: c0.read_buffer + bytes@,
                        mod_time: now,
                        ..c0
                    });
                }
                match c.take_frame() {
                    Option::Some(frame) => {
                        let ghost buf = fed.read_buffer;
                        let ghost frame_model = frame@;
                        let ghost drained = c@;
                        proof {
                            lemma_parse_request_fits_wire(frame_model);
                            assert(buf.len() >= 2 && spec_frame_len(buf) <= buf.len());
                            assert(frame_model == buf.subrange(0, spec_frame_len(buf)));
                            assert(drained == ConnModel {
                                read_buffer: buf.subrange(spec_frame_len(buf), buf.len() as int),
                                ..fed
                            });
                        }
                        let req = parse_request(frame);
                        let ghost req_model = req@;
                        let is_alive2 = matches!(req, EpmdReq::Alive2(..));
                        let resp = process_request(&mut self.epmd, req, &self.config);
                        let ghost resp_model = resp@;
                        proof {
                            assert(resp_model == spec_response_for(
                                m.nodes,
                                m.next_creation,
                                req_model,
                                m.relaxed,
                                m.port,
                            ));
                            match req_model {
                                ReqModel::NoOp => {
                                    assert(resp_model is NoOp);
                                },
                                ReqModel::Alive2 { .. } => {
                                    assert(resp_model is Alive2);
                                },
                                ReqModel::Port2 { name } => {
                                    assert(resp_model is Port2Ok || resp_model is Port2Err);
                                },
                                ReqModel::Names => {
                                    assert(resp_model is Names);
                                },
                                ReqModel::Dump => {
                                    assert(resp_model is Dump);
                                },
                                ReqModel::Kill => {
                                    assert(resp_model is KillOk || resp_model is KillErr);
                                },
                                ReqModel::Stop { name } => {
                                    assert(resp_model is StopOk || resp_model is StopErr);
                                },
                            }
                        }
                        let out: Option<ServerOutput> = match resp {
                            EpmdResp::NoOp => Option::None,
                            _ => {
                                if is_alive2 {
                                    c.keep = true;
                                } else {
                                    c.close();
                                }
                                let payload = serialize_response(resp);
                                if payload.len() <= 0xFFFF {
                                    let framed = frame_bytes(&payload);
                                    Option::Some(ServerOutput { conn: i, bytes: framed })
                                } else {
                                    Option::None
                                }
                            },
                        };
                        proof {
                            match req_model {
                                ReqModel::NoOp => {
                                    assert(c@ == drained);
                                },
                                ReqModel::Alive2 { .. } => {
                                    assert(c@ == ConnModel { keep: true, ..drained });
                                },
                                _ => {
                                    assert(c@ == drained.closed());
                                },
                            }
                        }
                        self.connections.insert(i, c);
                        proof {
                            assert(self.connections@ =~= pre.update(i as int, c));
                            assert(spec_conn_views(self.connections@) =~= spec_conn_views(
                                pre,
                            ).update(i as int, c@));
                        }
                        out
                    },
                    Option::None => {
                        self.connections.insert(i, c);
                        proof {
                            assert(self.connections@ =~= pre.update(i as int, c));
                            assert(spec_conn_views(self.connections@) =~= spec_conn_views(
                                pre,
                            ).update(i as int, c@));
                        }
                        Option::None
                    },
                }
            },
        }
    }
}

/// The event loop run over a whole sequence of events: the final state and
/// every output in order.
pub open spec fn spec_run(m: ServerModel, events: Seq<EventModel>) -> (ServerModel, Seq<
    OutputModel,
>)
    decreases events.len(),
{
    if events.len() == 0 {
        (m, Seq::<OutputModel>::empty())
    } else {
        let stepped = spec_step(m, events[0]);
        let run = spec_run(stepped.0, events.drop_first());
        (
            run.0,
            match stepped.1 {
                Option::Some(o) => seq![o] + run.1,
                Option::None => run.1,
            },
        )
    }
}

/// Runs the server's decision core over a sequence of observed I/O events,
/// starting from the given registry and configuration with no connections,
/// and returns the final state together with every write order in the order
/// it was issued. The surrounding I/O loop observes events from the sockets
/// and performs the writes.
pub fn run_console(epmd: Epmd, config: EpmdConfig, events: Vec<ServerEvent>) -> (r: (
    ServerState,
    Vec<ServerOutput>,
))
    requires
        epmd.wf(),
    ensures
        r.0.wf(),
        ({
            let m0 = ServerModel {
                nodes: epmd@,
                next_creation: epmd.next_creation,
                conns: Seq::<ConnModel>::empty(),
                relaxed: config.brutal_kill,
                port: config.port,
                timeout: config.packet_timeout,
            };
            let run = spec_run(m0, events@.map(|i: int, e: ServerEvent| e@));
            r.0@ == run.0 && r.1@.map(|i: int, o: ServerOutput| o@) == run.1
        }),
{
    let ghost evs0 = events@.map(|i: int, e: ServerEvent| e@);
    let ghost nodes0 = epmd@;
    let ghost nc0 = epmd.next_creation;
    let ghost relaxed0 = config.brutal_kill;
    let ghost port0 = config.port;
    let ghost timeout0 = config.packet_timeout;
    let mut state = ServerState::new(epmd, config);
    let ghost m0 = state@;
    let mut outputs: Vec<ServerOutput> = Vec::new();
    let mut events = events;
    proof {
        assert(m0 == ServerModel {
            nodes: nodes0,
            next_creation: nc0,
            conns: Seq::<ConnModel>::empty(),
            relaxed: relaxed0,
            port: port0,
            timeout: timeout0,
        });
        assert(events@.map(|i: int, e: ServerEvent| e@) =~= evs0);
        assert(outputs@.map(|i: int, o: ServerOutput| o@) =~= Seq::<OutputModel>::empty());
    }
    while events.len() > 0
        invariant
            state.wf(),
            spec_run(m0, evs0).0 == spec_run(state@, events@.map(|i: int, e: ServerEvent| e@)).0,
            spec_run(m0, evs0).1 == outputs@.map(|i: int, o: ServerOutput| o@) + spec_run(
                state@,
                events@.map(|i: int, e: ServerEvent| e@),
            ).1,
        decreases events@.len(),
    {
        let ghost remaining = events@.map(|i: int, e: ServerEvent| e@);
        let ghost pre_events = events@;
        let e = events.remove(0);
        proof {
            assert(events@ =~= pre_events.drop_first());
            assert(events@.map(|i: int, e: ServerEvent| e@) =~= remaining.drop_first());
            assert(remaining[0] == e@);
        }
        let ghost cur = state@;
        let out = state.step(e);
        match out {
            Option::Some(o) => {
                let ghost pre_out = outputs@;
                outputs.push(o);
                proof {
                    assert(outputs@.map(|i: int, o: ServerOutput| o@) =~= pre_out.map(
                        |i: int, o: ServerOutput| o@,
                    ).push(o@));
                    assert(pre_out.map(|i: int, o: ServerOutput| o@).push(o@) + spec_run(
                        state@,
                        remaining.drop_first(),
                    ).1 =~= pre_out.map(|i: int, o: ServerOutput| o@) + (seq![o@] + spec_run(
                        state@,
                        remaining.drop_first(),
                    ).1));
                }
            },
            Option::None => {},
        }
    }
    proof {
        assert(events@.map(|i: int, e: ServerEvent| e@) =~= Seq::<EventModel>::empty());
        assert(spec_run(m0, evs0).1 =~= outputs@.map(|i: int, o: ServerOutput| o@));
    }
    (state, outputs)
}

} // verus!
