//! The in-memory node registry: a mapping from node name to node record.
//!
//! The registry enforces name uniqueness — a later registration of an
//! existing name discards the previous record entirely — and assigns each
//! registration a `creation` tag in 1..=3 that differs from the tag of the
//! record it replaces, so peers can detect that a name was re-registered
//! since they last observed it.

use vstd::prelude::*;
use vstd::string::StringSliceAdditionalSpecFns;
use vstd::utf8::{encode_utf8, decode_utf8};

use crate::constants::MAX_FILE_DESCRIPTORS;

verus! {

broadcast use vstd::utf8::encode_utf8_decode_utf8;

/// Compares two byte slices for equality of their contents.
pub fn bytes_eq(a: &[u8], b: &[u8]) -> (r: bool)
    ensures
        r <==> a@ == b@,
{
    if a.len() != b.len() {
        assert(a@.len() != b@.len());
        return false;
    }
    let mut i: usize = 0;
    while i < a.len()
        invariant
            0 <= i <= a@.len(),
            a@.len() == b@.len(),
            forall|j: int| 0 <= j < i ==> a@[j] == b@[j],
        decreases a@.len() - i,
    {
        if a[i] != b[i] {
            return false;
        }
        i = i + 1;
    }
    assert(a@ =~= b@);
    true
}

/// Compares two string slices for equality of their characters.
pub fn str_eq(a: &str, b: &str) -> (r: bool)
    ensures
        r <==> a@ == b@,
{
    let r = bytes_eq(a.as_bytes(), b.as_bytes());
    proof {
        if r {
            assert(decode_utf8(encode_utf8(a@)) == decode_utf8(encode_utf8(b@)));
        }
    }
    r
}

/// One registered peer node.
pub struct ErlNode {
    /// socket descriptor bookkeeping slot (unused by the registry itself)
    pub fd: u32,
    /// port the node listens on
    pub port: u16,
    /// unique name of the node
    pub name: String,
    /// tag assigned at registration; distinguishes successive registrations
    /// of the same name
    pub creation: u16,
    /// capability tag of the node
    pub node_type: u8,
    /// transport family tag
    pub protocol: u8,
    /// highest supported protocol version
    pub high_version: u16,
    /// lowest supported protocol version
    pub low_version: u16,
    /// opaque vendor data
    pub extra: Vec<u8>,
}

/// The mathematical value of a node record.
pub struct NodeModel {
    pub fd: u32,
    pub port: u16,
    pub name: Seq<char>,
    pub creation: u16,
    pub node_type: u8,
    pub protocol: u8,
    pub high_version: u16,
    pub low_version: u16,
    pub extra: Seq<u8>,
}

impl View for ErlNode {
    type V = NodeModel;

    open spec fn view(&self) -> NodeModel {
        NodeModel {
            fd: self.fd,
            port: self.port,
            name: self.name@,
            creation: self.creation,
            node_type: self.node_type,
            protocol: self.protocol,
            high_version: self.high_version,
            low_version: self.low_version,
            extra: self.extra@,
        }
    }
}

impl NodeModel {
    /// The same record with another creation tag.
    pub open spec fn with_creation(self, c: u16) -> NodeModel {
        NodeModel { creation: c, ..self }
    }

    /// Name and extra fit the 16-bit length fields of the wire protocol.
    pub open spec fn fits_wire(self) -> bool {
        encode_utf8(self.name).len() <= 0xFFFF && self.extra.len() <= 0xFFFF
    }
}

impl ErlNode {
    /// Builds an unregistered record from the fields of a registration
    /// request. The creation tag is zero until the registry assigns one.
    pub fn new(
        erl_port: u16,
        node_type: u8,
        protocol: u8,
        high_vsn: u16,
        low_vsn: u16,
        name: String,
        extra: Vec<u8>,
    ) -> (node: ErlNode)
        ensures
            node@ == (NodeModel {
                fd: 0,
                port: erl_port,
                name: name@,
                creation: 0,
                node_type,
                protocol,
                high_version: high_vsn,
                low_version: low_vsn,
                extra: extra@,
            }),
    {
        ErlNode {
            fd: 0,
            port: erl_port,
            name,
            creation: 0,
            node_type,
            protocol,
            high_version: high_vsn,
            low_version: low_vsn,
            extra,
        }
    }
}

// ---------------------------------------------------------------------------
// Spec-level registry operations
// ---------------------------------------------------------------------------
/// True when some live record carries the given name.
pub open spec fn spec_has_name(nodes: Seq<NodeModel>, name: Seq<char>) -> bool {
    exists|i: int| 0 <= i < nodes.len() && nodes[i].name == name
}

/// The first record of the given name, if any.
pub open spec fn spec_lookup(nodes: Seq<NodeModel>, name: Seq<char>) -> Option<NodeModel>
    decreases nodes.len(),
{
    if nodes.len() == 0 {
        Option::None
    } else if nodes[0].name == name {
        Option::Some(nodes[0])
    } else {
        spec_lookup(nodes.drop_first(), name)
    }
}

/// The registry without the first record of the given name.
pub open spec fn spec_remove(nodes: Seq<NodeModel>, name: Seq<char>) -> Seq<NodeModel>
    decreases nodes.len(),
{
    if nodes.len() == 0 {
        nodes
    } else if nodes[0].name == name {
        nodes.drop_first()
    } else {
        seq![nodes[0]] + spec_remove(nodes.drop_first(), name)
    }
}

/// Registration: the record of the same name, if one exists, is replaced in
/// place by the new record, whose creation tag advances cyclically from the
/// replaced one; a fresh name is appended with the given fresh tag. Yields
/// the new registry contents and the assigned creation tag.
pub open spec fn spec_register(nodes: Seq<NodeModel>, node: NodeModel, fresh: u16) -> (Seq<
    NodeModel,
>, u16)
    decreases nodes.len(),
{
    if nodes.len() == 0 {
        (seq![node.with_creation(fresh)], fresh)
    } else if nodes[0].name == node.name {
        let c = (nodes[0].creation % 3 + 1) as u16;
        (seq![node.with_creation(c)] + nodes.drop_first(), c)
    } else {
        let (rest, c) = spec_register(nodes.drop_first(), node, fresh);
        (seq![nodes[0]] + rest, c)
    }
}

// ---------------------------------------------------------------------------
// The registry
// ---------------------------------------------------------------------------
/// The server's registry and connection bookkeeping counters.
pub struct Epmd {
    /// descriptors currently in use
    pub active_conn: usize,
    /// most descriptors the server may use
    pub max_conn: usize,
    /// the live node records; names are unique
    pub nodes: Vec<ErlNode>,
    /// creation tag the next registration of a fresh name receives
    pub next_creation: u16,
}

impl View for Epmd {
    type V = Seq<NodeModel>;

    open spec fn view(&self) -> Seq<NodeModel> {
        self.nodes@.map(|i: int, n: ErlNode| n@)
    }
}

impl Epmd {
    /// Well-formed registry: live names are unique, every creation tag is in
    /// 1..=3, every record fits the wire format, and the next fresh tag is in
    /// 1..=3.
    pub open spec fn wf(&self) -> bool {
        &&& forall|i: int, j: int|
            0 <= i < j < self@.len() ==> self@[i].name != self@[j].name
        &&& forall|i: int| 0 <= i < self@.len() ==> 1 <= #[trigger] self@[i].creation <= 3
        &&& forall|i: int| 0 <= i < self@.len() ==> (#[trigger] self@[i]).fits_wire()
        &&& 1 <= self.next_creation <= 3
    }

    /// An empty registry.
    pub fn new() -> (e: Epmd)
        ensures
            e.wf(),
            e@ =~= Seq::<NodeModel>::empty(),
            e.active_conn == 0,
            e.max_conn == MAX_FILE_DESCRIPTORS,
            e.next_creation == 1,
    {
        Epmd { active_conn: 0, max_conn: MAX_FILE_DESCRIPTORS, nodes: Vec::new(), next_creation: 1 }
    }

    /// Index of the first record of the given name, if any.
    fn find_index(&self, name: &str) -> (r: Option<usize>)
        ensures
            match r {
                Option::Some(i) => i < self@.len() && self@[i as int].name == name@ && forall|j: int|
                    0 <= j < i ==> self@[j].name != name@,
                Option::None => forall|j: int| 0 <= j < self@.len() ==> self@[j].name != name@,
            },
    {
        let mut i: usize = 0;
        while i < self.nodes.len()
            invariant
                0 <= i <= self@.len(),
                self@.len() == self.nodes@.len(),
                forall|j: int| 0 <= j < i ==> self@[j].name != name@,
            decreases self@.len() - i,
        {
            if str_eq(self.nodes[i].name.as_str(), name) {
                return Option::Some(i);
            }
            i = i + 1;
        }
        Option::None
    }

    /// Exact-match lookup of a registered name.
    pub fn lookup(&self, name: &str) -> (r: Option<&ErlNode>)
        ensures
            match r {
                Option::Some(node) => spec_lookup(self@, name@) == Option::Some(node@),
                Option::None => spec_lookup(self@, name@) is None,
            },
    {
        match self.find_index(name) {
            Option::Some(i) => {
                proof {
                    lemma_lookup_at_index(self@, name@, i as int);
                }
                Option::Some(&self.nodes[i])
            },
            Option::None => {
                proof {
                    lemma_lookup_absent(self@, name@);
                }
                Option::None
            },
        }
    }

    /// Every live record, each exactly once.
    pub fn list(&self) -> (r: &Vec<ErlNode>)
        ensures
            r@.map(|i: int, n: ErlNode| n@) == self@,
    {
        &self.nodes
    }

    /// Registers a node: a record with the same name is discarded and
    /// replaced (the later registration wins), a fresh name is appended.
    /// Returns the assigned creation tag, which is in 1..=3 and differs from
    /// the tag of any record it replaced. The creation tag of the argument is
    /// ignored.
    pub fn register(&mut self, node: ErlNode) -> (creation: u16)
        requires
            old(self).wf(),
            node@.fits_wire(),
        ensures
            final(self).wf(),
            1 <= creation <= 3,
            (final(self)@, creation) == spec_register(old(self)@, node@, old(self).next_creation),
            spec_lookup(final(self)@, node@.name) == Option::Some(node@.with_creation(creation)),
            spec_has_name(old(self)@, node@.name) ==> final(self)@.len() == old(self)@.len()
                && final(self).next_creation == old(self).next_creation,
            !spec_has_name(old(self)@, node@.name) ==> final(self)@.len() == old(self)@.len() + 1
                && creation == old(self).next_creation && final(self).next_creation == old(
                self,
            ).next_creation % 3 + 1,
            match spec_lookup(old(self)@, node@.name) {
                Option::Some(prev) => creation == prev.creation % 3 + 1 && creation != prev.creation,
                Option::None => creation == old(self).next_creation,
            },
            forall|m: Seq<char>|
                m != node@.name ==> #[trigger] spec_lookup(final(self)@, m) == spec_lookup(
                    old(self)@,
                    m,
                ),
            final(self).active_conn == old(self).active_conn,
            final(self).max_conn == old(self).max_conn,
    {
        let ghost pre = self@;
        let ghost orig = node@;
        match self.find_index(node.name.as_str()) {
            Option::Some(i) => {
                let creation = self.nodes[i].creation % 3 + 1;
                let mut node = node;
                node.creation = creation;
                let ghost replacement = node@;
                self.nodes[i] = node;
                proof {
                    assert(replacement == orig.with_creation(creation));
                    assert(self@ =~= pre.update(i as int, replacement));
                    lemma_register_update(pre, orig, self.next_creation, i as int);
                    lemma_lookup_at_index(pre, orig.name, i as int);
                    lemma_lookup_at_index(self@, orig.name, i as int);
                    assert forall|m: Seq<char>| m != orig.name implies #[trigger] spec_lookup(
                        self@,
                        m,
                    ) == spec_lookup(pre, m) by {
                        lemma_lookup_update_other(pre, replacement, i as int, m);
                    }
                    assert(spec_has_name(pre, orig.name));
                }
                creation
            },
            Option::None => {
                let creation = self.next_creation;
                let mut node = node;
                node.creation = creation;
                let ghost appended = node@;
                self.nodes.push(node);
                self.next_creation = self.next_creation % 3 + 1;
                proof {
                    assert(appended == orig.with_creation(creation));
                    assert(self@ =~= pre.push(appended));
                    lemma_register_push(pre, orig, creation);
                    lemma_lookup_push(pre, appended);
                    assert(!spec_has_name(pre, orig.name));
                    assert(spec_lookup(self@, orig.name) == Option::Some(appended));
                    lemma_lookup_absent(pre, orig.name);
                    assert(forall|i: int|
                        0 <= i < self@.len() ==> #[trigger] self@[i] == if i < pre.len() {
                            pre[i]
                        } else {
                            appended
                        });
                }
                creation
            },
        }
    }

    /// Removes the record of the given name. Returns whether one existed; a
    /// name that was never registered leaves the registry unchanged.
    pub fn remove(&mut self, name: &str) -> (removed: bool)
        requires
            old(self).wf(),
        ensures
            final(self).wf(),
            removed <==> spec_has_name(old(self)@, name@),
            final(self)@ == spec_remove(old(self)@, name@),
            !removed ==> final(self)@ == old(self)@,
            spec_lookup(final(self)@, name@) is None,
            final(self).next_creation == old(self).next_creation,
            final(self).active_conn == old(self).active_conn,
            final(self).max_conn == old(self).max_conn,
    {
        let ghost pre = self@;
        match self.find_index(name) {
            Option::Some(i) => {
                self.nodes.remove(i);
                proof {
                    assert(self@ =~= pre.remove(i as int));
                    lemma_remove_at_index(pre, name@, i as int);
                    lemma_remove_no_name(pre, name@);
                    lemma_lookup_absent(self@, name@);
                }
                true
            },
            Option::None => {
                proof {
                    lemma_remove_absent(pre, name@);
                    lemma_lookup_absent(pre, name@);
                }
                false
            },
        }
    }

    /// Clears the registry. In relaxed mode this succeeds unconditionally;
    /// otherwise it succeeds only when the registry is already empty, and is
    /// refused (leaving the registry unchanged) when live nodes remain.
    pub fn kill(&mut self, relaxed: bool) -> (ok: bool)
        requires
            old(self).wf(),
        ensures
            final(self).wf(),
            ok <==> (relaxed || old(self)@.len() == 0),
            ok ==> final(self)@ =~= Seq::<NodeModel>::empty(),
            !ok ==> final(self)@ == old(self)@,
            final(self).next_creation == old(self).next_creation,
            final(self).active_conn == old(self).active_conn,
            final(self).max_conn == old(self).max_conn,
    {
        if relaxed || self.nodes.len() == 0 {
            self.nodes.clear();
            assert(self@ =~= Seq::<NodeModel>::empty());
            true
        } else {
            false
        }
    }
}

// ---------------------------------------------------------------------------
// Lemmas connecting the indexed implementation to the recursive model
// ---------------------------------------------------------------------------
/// When the first record of the given name sits at index `i`, the lookup
/// model yields exactly that record.
pub proof fn lemma_lookup_at_index(nodes: Seq<NodeModel>, name: Seq<char>, i: int)
    requires
        0 <= i < nodes.len(),
        nodes[i].name == name,
        forall|j: int| 0 <= j < i ==> nodes[j].name != name,
    ensures
        spec_lookup(nodes, name) == Option::Some(nodes[i]),
    decreases i,
{
    if i > 0 {
        lemma_lookup_at_index(nodes.drop_first(), name, i - 1);
    }
}

/// A found record is one of the registry's elements.
pub proof fn lemma_lookup_is_member(nodes: Seq<NodeModel>, name: Seq<char>)
    requires
        spec_lookup(nodes, name) is Some,
    ensures
        exists|i: int|
            0 <= i < nodes.len() && nodes[i] == spec_lookup(nodes, name).unwrap(),
    decreases nodes.len(),
{
    if nodes.len() > 0 && nodes[0].name != name {
        lemma_lookup_is_member(nodes.drop_first(), name);
        let i = choose|i: int|
            0 <= i < nodes.drop_first().len() && nodes.drop_first()[i] == spec_lookup(
                nodes.drop_first(),
                name,
            ).unwrap();
        assert(nodes[i + 1] == spec_lookup(nodes, name).unwrap());
    }
}

/// When no record carries the given name, the lookup model yields nothing.
pub proof fn lemma_lookup_absent(nodes: Seq<NodeModel>, name: Seq<char>)
    requires
        forall|j: int| 0 <= j < nodes.len() ==> nodes[j].name != name,
    ensures
        spec_lookup(nodes, name) is None,
    decreases nodes.len(),
{
    if nodes.len() > 0 {
        lemma_lookup_absent(nodes.drop_first(), name);
    }
}

/// Appending a record does not change the lookup of any other name, and a
/// name absent before the append resolves to the appended record.
proof fn lemma_lookup_push(nodes: Seq<NodeModel>, node: NodeModel)
    ensures
        forall|m: Seq<char>|
            m != node.name ==> #[trigger] spec_lookup(nodes.push(node), m) == spec_lookup(nodes, m),
        (forall|j: int| 0 <= j < nodes.len() ==> nodes[j].name != node.name) ==> spec_lookup(
            nodes.push(node),
            node.name,
        ) == Option::Some(node),
    decreases nodes.len(),
{
    if nodes.len() == 0 {
        assert forall|m: Seq<char>| m != node.name implies #[trigger] spec_lookup(
            nodes.push(node),
            m,
        ) == spec_lookup(nodes, m) by {
            assert(nodes.push(node)[0] == node);
            assert(nodes.push(node).drop_first() =~= Seq::<NodeModel>::empty());
            assert(spec_lookup(Seq::<NodeModel>::empty(), m) is None);
            assert(spec_lookup(nodes, m) is None);
        }
        assert(spec_lookup(nodes.push(node), node.name) == Option::Some(node));
    } else {
        lemma_lookup_push(nodes.drop_first(), node);
        assert(nodes.push(node).drop_first() =~= nodes.drop_first().push(node));
        assert(nodes.push(node)[0] == nodes[0]);
        assert forall|m: Seq<char>| m != node.name implies #[trigger] spec_lookup(
            nodes.push(node),
            m,
        ) == spec_lookup(nodes, m) by {
            if nodes[0].name == m {
                assert(spec_lookup(nodes.push(node), m) == Option::Some(nodes[0]));
                assert(spec_lookup(nodes, m) == Option::Some(nodes[0]));
            } else {
                assert(spec_lookup(nodes.push(node), m) == spec_lookup(
                    nodes.drop_first().push(node),
                    m,
                ));
                assert(spec_lookup(nodes, m) == spec_lookup(nodes.drop_first(), m));
            }
        }
    }
}

/// Replacing the record at an index does not change the lookup of a name that
/// differs from the replacement's, provided the replacement keeps the name of
/// the record it replaces or the looked-up name is not at that index.
proof fn lemma_lookup_update_other(nodes: Seq<NodeModel>, node: NodeModel, i: int, m: Seq<char>)
    requires
        0 <= i < nodes.len(),
        nodes[i].name == node.name,
        m != node.name,
    ensures
        spec_lookup(nodes.update(i, node), m) == spec_lookup(nodes, m),
    decreases i,
{
    let updated = nodes.update(i, node);
    if i == 0 {
        assert(updated[0] == node);
        assert(updated.drop_first() =~= nodes.drop_first());
    } else {
        assert(updated[0] == nodes[0]);
        if nodes[0].name != m {
            assert(updated.drop_first() =~= nodes.drop_first().update(i - 1, node));
            lemma_lookup_update_other(nodes.drop_first(), node, i - 1, m);
        }
    }
}

/// The register model acts as an in-place update when the first record of
/// the new node's name sits at index `i`.
proof fn lemma_register_update(nodes: Seq<NodeModel>, orig: NodeModel, fresh: u16, i: int)
    requires
        0 <= i < nodes.len(),
        nodes[i].name == orig.name,
        forall|j: int| 0 <= j < i ==> nodes[j].name != orig.name,
    ensures
        spec_register(nodes, orig, fresh) == (
            nodes.update(i, orig.with_creation((nodes[i].creation % 3 + 1) as u16)),
            (nodes[i].creation % 3 + 1) as u16,
        ),
    decreases i,
{
    let c = (nodes[i].creation % 3 + 1) as u16;
    if i == 0 {
        assert(seq![orig.with_creation(c)] + nodes.drop_first() =~= nodes.update(
            0,
            orig.with_creation(c),
        ));
    } else {
        lemma_register_update(nodes.drop_first(), orig, fresh, i - 1);
        assert(seq![nodes[0]] + nodes.drop_first().update(i - 1, orig.with_creation(c))
            =~= nodes.update(i, orig.with_creation(c)));
    }
}

/// The register model acts as an append when no record carries the new
/// node's name.
proof fn lemma_register_push(nodes: Seq<NodeModel>, orig: NodeModel, fresh: u16)
    requires
        forall|j: int| 0 <= j < nodes.len() ==> nodes[j].name != orig.name,
    ensures
        spec_register(nodes, orig, fresh) == (nodes.push(orig.with_creation(fresh)), fresh),
    decreases nodes.len(),
{
    if nodes.len() == 0 {
        assert(seq![orig.with_creation(fresh)] =~= nodes.push(orig.with_creation(fresh)));
    } else {
        lemma_register_push(nodes.drop_first(), orig, fresh);
        assert(seq![nodes[0]] + nodes.drop_first().push(orig.with_creation(fresh)) =~= nodes.push(
            orig.with_creation(fresh),
        ));
    }
}

/// The remove model acts as deletion at an index when the first record of
/// the name sits at index `i`.
proof fn lemma_remove_at_index(nodes: Seq<NodeModel>, name: Seq<char>, i: int)
    requires
        0 <= i < nodes.len(),
        nodes[i].name == name,
        forall|j: int| 0 <= j < i ==> nodes[j].name != name,
    ensures
        spec_remove(nodes, name) == nodes.remove(i),
    decreases i,
{
    if i == 0 {
        assert(nodes.drop_first() =~= nodes.remove(0));
    } else {
        lemma_remove_at_index(nodes.drop_first(), name, i - 1);
        assert(seq![nodes[0]] + nodes.drop_first().remove(i - 1) =~= nodes.remove(i));
    }
}

/// Removing a name that no record carries leaves the registry unchanged.
pub proof fn lemma_remove_absent(nodes: Seq<NodeModel>, name: Seq<char>)
    requires
        forall|j: int| 0 <= j < nodes.len() ==> nodes[j].name != name,
    ensures
        spec_remove(nodes, name) == nodes,
    decreases nodes.len(),
{
    if nodes.len() > 0 {
        lemma_remove_absent(nodes.drop_first(), name);
        assert(seq![nodes[0]] + nodes.drop_first() =~= nodes);
    }
}

// ---------------------------------------------------------------------------
// Laws of the registry
// ---------------------------------------------------------------------------
/// Law: registering a node and then looking up its name yields a record whose
/// fields equal the registered ones, carrying the creation tag that the
/// registration returned, and that tag is in 1..=3.
pub proof fn lemma_register_then_lookup(nodes: Seq<NodeModel>, node: NodeModel, fresh: u16)
    requires
        forall|i: int| 0 <= i < nodes.len() ==> 1 <= #[trigger] nodes[i].creation <= 3,
        1 <= fresh <= 3,
    ensures
        ({
            let (reg, creation) = spec_register(nodes, node, fresh);
            &&& spec_lookup(reg, node.name) == Option::Some(node.with_creation(creation))
            &&& 1 <= creation <= 3
        }),
    decreases nodes.len(),
{
    let (reg, creation) = spec_register(nodes, node, fresh);
    if nodes.len() == 0 {
        assert(reg =~= seq![node.with_creation(fresh)]);
    } else if nodes[0].name == node.name {
        assert(reg[0] == node.with_creation(creation));
    } else {
        lemma_register_then_lookup(nodes.drop_first(), node, fresh);
        let (rest, c) = spec_register(nodes.drop_first(), node, fresh);
        assert(reg =~= seq![nodes[0]] + rest);
        assert(reg[0] == nodes[0]);
        assert(reg.drop_first() =~= rest);
    }
}

/// Law: registering a name that is already present never leaves two live
/// records for it — the registry's length does not change.
pub proof fn lemma_reregister_keeps_length(nodes: Seq<NodeModel>, node: NodeModel, fresh: u16)
    requires
        spec_has_name(nodes, node.name),
    ensures
        spec_register(nodes, node, fresh).0.len() == nodes.len(),
    decreases nodes.len(),
{
    if nodes.len() > 0 && nodes[0].name != node.name {
        assert(spec_has_name(nodes.drop_first(), node.name)) by {
            let i = choose|i: int| 0 <= i < nodes.len() && nodes[i].name == node.name;
            assert(nodes.drop_first()[i - 1].name == node.name);
        }
        lemma_reregister_keeps_length(nodes.drop_first(), node, fresh);
    }
}

/// Law: registration preserves the uniqueness of live names.
pub proof fn lemma_register_preserves_unique(nodes: Seq<NodeModel>, node: NodeModel, fresh: u16)
    requires
        forall|i: int, j: int| 0 <= i < j < nodes.len() ==> nodes[i].name != nodes[j].name,
    ensures
        ({
            let reg = spec_register(nodes, node, fresh).0;
            forall|i: int, j: int| 0 <= i < j < reg.len() ==> reg[i].name != reg[j].name
        }),
    decreases nodes.len(),
{
    let reg = spec_register(nodes, node, fresh).0;
    if nodes.len() == 0 {
    } else if nodes[0].name == node.name {
        assert(reg =~= seq![node.with_creation((nodes[0].creation % 3 + 1) as u16)]
            + nodes.drop_first());
        assert(forall|j: int| 0 < j < reg.len() ==> reg[j] == nodes[j]);
    } else {
        lemma_register_preserves_unique(nodes.drop_first(), node, fresh);
        let rest = spec_register(nodes.drop_first(), node, fresh).0;
        lemma_register_names(nodes.drop_first(), node, fresh);
        assert(reg =~= seq![nodes[0]] + rest);
        assert(forall|j: int| 0 < j < reg.len() ==> reg[j] == rest[j - 1]);
    }
}

/// Every name in the registry after a registration is either the registered
/// name or a name that was present before.
proof fn lemma_register_names(nodes: Seq<NodeModel>, node: NodeModel, fresh: u16)
    ensures
        ({
            let reg = spec_register(nodes, node, fresh).0;
            forall|i: int|
                0 <= i < reg.len() ==> (#[trigger] reg[i].name) == node.name || spec_has_name(
                    nodes,
                    reg[i].name,
                )
        }),
    decreases nodes.len(),
{
    let reg = spec_register(nodes, node, fresh).0;
    if nodes.len() == 0 {
    } else if nodes[0].name == node.name {
        assert forall|i: int| 0 <= i < reg.len() implies (#[trigger] reg[i].name) == node.name
            || spec_has_name(nodes, reg[i].name) by {
            if i > 0 {
                assert(reg[i] == nodes[i]);
            }
        }
    } else {
        lemma_register_names(nodes.drop_first(), node, fresh);
        let rest = spec_register(nodes.drop_first(), node, fresh).0;
        assert forall|i: int| 0 <= i < reg.len() implies (#[trigger] reg[i].name) == node.name
            || spec_has_name(nodes, reg[i].name) by {
            if i == 0 {
                assert(reg[0] == nodes[0]);
            } else {
                assert(reg[i] == rest[i - 1]);
                if rest[i - 1].name != node.name {
                    let j = choose|j: int|
                        0 <= j < nodes.drop_first().len() && nodes.drop_first()[j].name == rest[i
                            - 1].name;
                    assert(nodes[j + 1].name == rest[i - 1].name);
                }
            }
        }
    }
}

/// Law: after registering a node and then removing its name, a lookup of that
/// name yields nothing, provided live names were unique.
pub proof fn lemma_register_then_remove(nodes: Seq<NodeModel>, node: NodeModel, fresh: u16)
    requires
        forall|i: int, j: int| 0 <= i < j < nodes.len() ==> nodes[i].name != nodes[j].name,
    ensures
        spec_lookup(
            spec_remove(spec_register(nodes, node, fresh).0, node.name),
            node.name,
        ) is None,
{
    let reg = spec_register(nodes, node, fresh).0;
    lemma_register_preserves_unique(nodes, node, fresh);
    lemma_remove_no_name(reg, node.name);
    lemma_lookup_absent(spec_remove(reg, node.name), node.name);
}

/// After removal from a registry with unique names, no record of the removed
/// name remains.
proof fn lemma_remove_no_name(nodes: Seq<NodeModel>, name: Seq<char>)
    requires
        forall|i: int, j: int| 0 <= i < j < nodes.len() ==> nodes[i].name != nodes[j].name,
    ensures
        forall|j: int|
            0 <= j < spec_remove(nodes, name).len() ==> #[trigger] spec_remove(nodes, name)[j].name
                != name,
    decreases nodes.len(),
{
    if nodes.len() > 0 {
        if nodes[0].name == name {
        } else {
            lemma_remove_no_name(nodes.drop_first(), name);
            let r = seq![nodes[0]] + spec_remove(nodes.drop_first(), name);
            assert(forall|j: int| 0 <= j < r.len() ==> #[trigger] r[j].name != name);
        }
    }
}

} // verus!
