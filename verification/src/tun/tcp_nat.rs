//! The ports that stand for connections through the virtual interface.

use std::collections::HashMap;

use vstd::prelude::*;

use crate::dns::fake_ip;
use crate::ip;

verus! {

/// How many ports there are.
pub const PORTS: usize = 65536;

/// The first port that is given out.
pub const FIRST_PORT: u16 = 10000;

/// How many ports are tried for a new connection.
pub const TRIES: u32 = 55535;

/// An address and a port.
#[derive(Clone, Copy, Debug)]
pub struct Endpoint {
    pub ip: [u8; 4],
    pub port: u16,
}

#[verifier::ext_equal]
pub struct EndView {
    pub ip: Seq<u8>,
    pub port: u16,
}

impl View for Endpoint {
    type V = EndView;

    open spec fn view(&self) -> EndView {
        EndView { ip: self.ip@, port: self.port }
    }
}

/// A connection, and when it was last used.
#[derive(Clone, Copy, Debug)]
pub struct TcpSession {
    pub source: Endpoint,
    pub destination: Endpoint,
    pub last: u64,
}

#[verifier::ext_equal]
pub struct SessionView {
    pub source: EndView,
    pub destination: EndView,
    pub last: u64,
}

impl View for TcpSession {
    type V = SessionView;

    open spec fn view(&self) -> SessionView {
        SessionView { source: self.source@, destination: self.destination@, last: self.last }
    }
}

/// The connection of each port, the port to try next, and after what time a
/// connection that is not used is forgotten.
#[verifier::ext_equal]
pub struct NatView {
    pub slots: Seq<Option<SessionView>>,
    pub index: u16,
    pub timeout: u64,
}

/// Whether a port stands for the connections of a source.
pub open spec fn holds(slots: Seq<Option<SessionView>>, source: EndView, p: int) -> bool {
    0 <= p < slots.len() && slots[p] is Some && slots[p]->0.source == source
}

/// The port of a source, if it has one.
pub open spec fn port_for(slots: Seq<Option<SessionView>>, source: EndView) -> Option<int> {
    if exists|p: int| holds(slots, source, p) {
        Some(choose|p: int| holds(slots, source, p))
    } else {
        None
    }
}

/// The port behind one; behind the last stands zero, for which the first port is
/// taken.
pub open spec fn next_index(index: u16) -> u16 {
    if index == 0 {
        10001
    } else if index == 65535 {
        0
    } else {
        (index + 1) as u16
    }
}

pub open spec fn port_at(index: u16) -> int {
    if index == 0 {
        FIRST_PORT as int
    } else {
        index as int
    }
}

/// The first free port from one on, and the port to try next.
pub open spec fn free_port(slots: Seq<Option<SessionView>>, index: u16, tries: nat) -> (
    Option<int>,
    u16,
)
    decreases tries,
{
    if tries == 0 {
        (None, index)
    } else if slots[port_at(index)] is None {
        (Some(port_at(index)), next_index(index))
    } else {
        free_port(slots, next_index(index), (tries - 1) as nat)
    }
}

/// Whether a connection was not used for too long.
pub open spec fn expired(s: SessionView, now: u64, timeout: u64) -> bool {
    now - s.last > timeout
}

/// The destinations of the connections of the first ports.
pub open spec fn destinations_of(slots: Seq<Option<SessionView>>, n: int) -> Seq<Seq<u8>>
    decreases n,
{
    if n <= 0 {
        Seq::empty()
    } else {
        let before = destinations_of(slots, n - 1);
        match slots[n - 1] {
            Some(s) => before.push(s.destination.ip),
            None => before,
        }
    }
}

impl NatView {
    /// No source has two ports, and no port below the first is given out.
    pub open spec fn wf(self) -> bool {
        &&& self.slots.len() == PORTS
        &&& (self.index == 0 || self.index >= FIRST_PORT)
        &&& forall|p: int| 0 <= p < FIRST_PORT ==> (#[trigger] self.slots[p]) is None
        &&& forall|p: int, q: int|
            0 <= p < PORTS && 0 <= q < PORTS && (#[trigger] self.slots[p]) is Some && (
            #[trigger] self.slots[q]) is Some && self.slots[p]->0.source
                == self.slots[q]->0.source ==> p == q
        &&& forall|p: int|
            0 <= p < PORTS && (#[trigger] self.slots[p]) is Some
                ==> self.slots[p]->0.source.ip.len() == 4
    }

    /// The port of a connection and the table after the lookup. A source keeps its
    /// port, also to another destination.
    pub open spec fn looked_up(self, source: EndView, destination: EndView, now: u64) -> (
        Option<int>,
        NatView,
    ) {
        let s = SessionView { source, destination, last: now };
        match port_for(self.slots, source) {
            Some(p) => (Some(p), NatView { slots: self.slots.update(p, Some(s)), ..self }),
            None => {
                let (found, index) = free_port(self.slots, self.index, TRIES as nat);
                match found {
                    Some(p) => (
                        Some(p),
                        NatView { slots: self.slots.update(p, Some(s)), index, ..self },
                    ),
                    None => (None, NatView { index, ..self }),
                }
            },
        }
    }

    /// The connection of a port, which is in use now.
    pub open spec fn looked_back(self, port: int, now: u64) -> (
        Option<(EndView, EndView)>,
        NatView,
    ) {
        match self.slots[port] {
            None => (None, self),
            Some(s) => (
                Some((s.source, s.destination)),
                NatView {
                    slots: self.slots.update(port, Some(SessionView { last: now, ..s })),
                    ..self
                },
            ),
        }
    }

    /// Whether a connection goes to an address.
    pub open spec fn goes_to(self, ip: Seq<u8>) -> bool {
        exists|p: int|
            0 <= p < self.slots.len() && (#[trigger] self.slots[p]) is Some
                && self.slots[p]->0.destination.ip == ip
    }

    /// The destinations of all connections.
    pub open spec fn destinations(self) -> Seq<Seq<u8>> {
        destinations_of(self.slots, self.slots.len() as int)
    }

    /// The table without connections that were not used for too long.
    pub open spec fn swept(self, now: u64) -> NatView {
        NatView {
            slots: Seq::new(
                self.slots.len(),
                |p: int|
                    if self.slots[p] is Some && expired(self.slots[p]->0, now, self.timeout) {
                        None
                    } else {
                        self.slots[p]
                    },
            ),
            ..self
        }
    }
}

/// An address and a port as one number.
pub open spec fn key_of(e: EndView) -> int {
    (((e.ip[0] * 256 + e.ip[1]) * 256 + e.ip[2]) * 256 + e.ip[3]) * 65536 + e.port
}

proof fn lemma_key_differs(a: EndView, b: EndView)
    requires
        a.ip.len() == 4,
        b.ip.len() == 4,
        key_of(a) == key_of(b),
    ensures
        a == b,
{
    assert(a.port == b.port);
    assert(a.ip[3] == b.ip[3]);
    assert(a.ip[2] == b.ip[2]);
    assert(a.ip[1] == b.ip[1]);
    assert(a.ip =~= b.ip);
}

fn key(e: Endpoint) -> (r: u64)
    ensures
        r == key_of(e@),
{
    (((e.ip[0] as u64 * 256 + e.ip[1] as u64) * 256 + e.ip[2] as u64) * 256 + e.ip[3] as u64)
        * 65536 + e.port as u64
}

pub open spec fn slot_view(o: Option<TcpSession>) -> Option<SessionView> {
    match o {
        Some(s) => Some(s@),
        None => None,
    }
}

/// A table of connections.
#[derive(Debug)]
pub struct TcpNat {
    pub timeout: u64,
    pub slots: Vec<Option<TcpSession>>,
    pub addr: HashMap<u64, u16>,
    pub port_index: u16,
}

impl View for TcpNat {
    type V = NatView;

    open spec fn view(&self) -> NatView {
        NatView {
            slots: Seq::new(self.slots@.len(), |p: int| slot_view(self.slots@[p])),
            index: self.port_index,
            timeout: self.timeout,
        }
    }
}

impl TcpNat {
    /// The ports are found by their sources.
    pub open spec fn wf(self) -> bool {
        &&& self@.wf()
        &&& forall|k: u64| #[trigger]
            self.addr@.contains_key(k) ==> self@.slots[self.addr@[k] as int] is Some && key_of(
                self@.slots[self.addr@[k] as int]->0.source,
            ) == k
        &&& forall|p: int|
            0 <= p < PORTS && (#[trigger] self@.slots[p]) is Some ==> self.addr@.contains_key(
                key_of(self@.slots[p]->0.source) as u64,
            ) && self.addr@[key_of(self@.slots[p]->0.source) as u64] == p
    }

    /// A table without connections.
    pub fn new(timeout: u64) -> (r: Self)
        ensures
            r.wf(),
            r.timeout == timeout,
            r.port_index == FIRST_PORT,
            forall|p: int| 0 <= p < PORTS ==> (#[trigger] r@.slots[p]) is None,
    {
        broadcast use vstd::std_specs::hash::group_hash_axioms;

        let mut slots: Vec<Option<TcpSession>> = Vec::new();
        while slots.len() < PORTS
            invariant
                slots@.len() <= PORTS,
                forall|p: int| 0 <= p < slots@.len() ==> (#[trigger] slots@[p]) is None,
            decreases PORTS - slots@.len(),
        {
            slots.push(None);
        }
        TcpNat { timeout, slots, addr: HashMap::new(), port_index: FIRST_PORT }
    }

    /// The port of a source.
    fn find(&self, source: Endpoint) -> (r: Option<u16>)
        requires
            self.wf(),
        ensures
            match r {
                Some(p) => port_for(self@.slots, source@) == Some(p as int) && holds(
                    self@.slots,
                    source@,
                    p as int,
                ),
                None => port_for(self@.slots, source@) is None && !self.addr@.contains_key(
                    key_of(source@) as u64,
                ),
            },
    {
        broadcast use vstd::std_specs::hash::group_hash_axioms;

        let k: u64 = key(source);
        match self.addr.get(&k) {
            Some(p) => {
                proof {
                    let s = self@.slots[*p as int]->0.source;
                    lemma_key_differs(s, source@);
                    assert(holds(self@.slots, source@, *p as int));
                    let q = choose|q: int| holds(self@.slots, source@, q);
                    assert(holds(self@.slots, source@, q));
                    assert(self@.slots[q] is Some && self@.slots[*p as int] is Some);
                }
                Some(*p)
            },
            None => {
                proof {
                    if exists|p: int| holds(self@.slots, source@, p) {
                        let p = choose|p: int| holds(self@.slots, source@, p);
                        assert(self@.slots[p] is Some);
                    }
                }
                None
            },
        }
    }

    /// The port of a connection; a new source gets the next free one, if there is one.
    pub fn lookup(&mut self, source: Endpoint, destination: Endpoint, now: u64) -> (r: Option<u16>)
        requires
            old(self).wf(),
        ensures
            final(self).wf(),
            ({
                let (p, v) = old(self)@.looked_up(source@, destination@, now);
                final(self)@ == v && match r {
                    Some(n) => p == Some(n as int),
                    None => p is None,
                }
            }),
    {
        broadcast use vstd::std_specs::hash::group_hash_axioms;

        let ghost start = self@;
        let session = TcpSession { source, destination, last: now };
        if let Some(p) = self.find(source) {
            assert(start.slots[p as int] is Some);
            self.slots.set(p as usize, Some(session));
            assert(self@.slots =~= start.slots.update(p as int, Some(session@)));
            proof {
                assert forall|k: u64| #[trigger] self.addr@.contains_key(k) implies self@.slots[self.addr@[k] as int] is Some && key_of(
                    self@.slots[self.addr@[k] as int]->0.source,
                ) == k by {
                    assert(old(self).addr@.contains_key(k));
                }
                assert forall|q: int| 0 <= q < PORTS && (#[trigger] self@.slots[q]) is Some implies self.addr@.contains_key(
                    key_of(self@.slots[q]->0.source) as u64,
                ) && self.addr@[key_of(self@.slots[q]->0.source) as u64] == q by {
                    assert(start.slots[q] is Some);
                }
                self.lemma_distinct();
            }
            return Some(p);
        }
        let mut tries: u32 = TRIES;
        let ghost goal = free_port(start.slots, start.index, TRIES as nat);
        while tries > 0
            invariant
                tries <= TRIES,
                start == old(self)@,
                old(self).wf(),
                self.slots == old(self).slots,
                self.addr == old(self).addr,
                self.timeout == old(self).timeout,
                self.port_index == 0 || self.port_index >= FIRST_PORT,
                goal == free_port(start.slots, start.index, TRIES as nat),
                goal == free_port(start.slots, self.port_index, tries as nat),
                port_for(start.slots, source@) is None,
                !self.addr@.contains_key(key_of(source@) as u64),
                session@ == (SessionView { source: source@, destination: destination@, last: now }),
            decreases tries,
        {
            let mut p: u16 = self.port_index;
            if p == 0 {
                p = FIRST_PORT;
                self.port_index = 10001;
            } else if p == 65535 {
                self.port_index = 0;
            } else {
                self.port_index = p + 1;
            }
            tries -= 1;
            assert(start.slots[p as int] == slot_view(self.slots@[p as int]));
            if self.slots[p as usize].is_none() {
                let ghost before = self.addr@;
                self.insert_new(p, session);
                return Some(p);
            }
        }
        assert(self@.slots =~= start.slots);
        None
    }

    fn insert_new(&mut self, p: u16, session: TcpSession)
        requires
            old(self).slots@.len() == PORTS,
            old(self).slots@[p as int] is None,
            p >= FIRST_PORT,
            old(self).port_index == 0 || old(self).port_index >= FIRST_PORT,
            old(self).wf(),
            !old(self).addr@.contains_key(key_of(session.source@) as u64),
        ensures
            final(self).wf(),
            final(self)@ == (NatView {
                slots: old(self)@.slots.update(p as int, Some(session@)),
                ..old(self)@
            }),
    {
        broadcast use vstd::std_specs::hash::group_hash_axioms;

        let ghost start = self@;
        let ghost before = self.addr@;
        let k: u64 = key(session.source);
        self.addr.insert(k, p);
        self.slots.set(p as usize, Some(session));
        proof {
            assert(self@.slots =~= start.slots.update(p as int, Some(session@)));
            assert forall|j: u64| #[trigger] self.addr@.contains_key(j) implies self@.slots[self.addr@[j] as int] is Some && key_of(
                self@.slots[self.addr@[j] as int]->0.source,
            ) == j by {
                if j != k {
                    assert(before.contains_key(j));
                }
            }
            assert forall|q: int| 0 <= q < PORTS && (#[trigger] self@.slots[q]) is Some implies self.addr@.contains_key(
                key_of(self@.slots[q]->0.source) as u64,
            ) && self.addr@[key_of(self@.slots[q]->0.source) as u64] == q by {
                if q != p {
                    assert(start.slots[q] is Some);
                    assert(before.contains_key(key_of(start.slots[q]->0.source) as u64));
                }
            }
            self.lemma_distinct();
        }
    }

    proof fn lemma_distinct(self)
        requires
            self@.slots.len() == PORTS,
            forall|p: int|
                0 <= p < PORTS && (#[trigger] self@.slots[p]) is Some ==> self.addr@.contains_key(
                    key_of(self@.slots[p]->0.source) as u64,
                ) && self.addr@[key_of(self@.slots[p]->0.source) as u64] == p,
        ensures
            forall|p: int, q: int|
                0 <= p < PORTS && 0 <= q < PORTS && (#[trigger] self@.slots[p]) is Some && (
                #[trigger] self@.slots[q]) is Some && self@.slots[p]->0.source
                    == self@.slots[q]->0.source ==> p == q,
    {
    }

    /// The connection of a port, which is in use now.
    pub fn lookup_back(&mut self, port: u16, now: u64) -> (r: Option<(Endpoint, Endpoint)>)
        requires
            old(self).wf(),
        ensures
            final(self).wf(),
            ({
                let (c, v) = old(self)@.looked_back(port as int, now);
                final(self)@ == v && match r {
                    Some((s, d)) => c == Some((s@, d@)),
                    None => c is None,
                }
            }),
    {
        let ghost start = self@;
        assert(start.slots[port as int] == slot_view(self.slots@[port as int]));
        match self.slots[port as usize] {
            None => None,
            Some(s) => {
                let t = TcpSession { source: s.source, destination: s.destination, last: now };
                self.slots.set(port as usize, Some(t));
                proof {
                    assert(self@.slots =~= start.slots.update(port as int, Some(t@)));
                    assert forall|k: u64| #[trigger] self.addr@.contains_key(k) implies self@.slots[self.addr@[k] as int] is Some && key_of(
                        self@.slots[self.addr@[k] as int]->0.source,
                    ) == k by {
                        assert(old(self).addr@.contains_key(k));
                    }
                    assert forall|q: int| 0 <= q < PORTS && (#[trigger] self@.slots[q]) is Some implies self.addr@.contains_key(
                        key_of(self@.slots[q]->0.source) as u64,
                    ) && self.addr@[key_of(self@.slots[q]->0.source) as u64] == q by {
                        assert(start.slots[q] is Some);
                    }
                    self.lemma_distinct();
                }
                Some((s.source, s.destination))
            },
        }
    }

    /// Whether a connection goes to an address.
    pub fn has_destination(&self, ip: [u8; 4]) -> (r: bool)
        requires
            self.wf(),
        ensures
            r == self@.goes_to(ip@),
    {
        let mut p: usize = 0;
        while p < PORTS
            invariant
                p <= PORTS,
                self.wf(),
                forall|q: int|
                    0 <= q < p && (#[trigger] self@.slots[q]) is Some
                        ==> self@.slots[q]->0.destination.ip != ip@,
            decreases PORTS - p,
        {
            assert(self@.slots[p as int] == slot_view(self.slots@[p as int]));
            if let Some(s) = self.slots[p] {
                if ip::same_ipv4(s.destination.ip, ip) {
                    return true;
                }
            }
            p += 1;
        }
        false
    }

    /// The destinations of all connections.
    pub fn destinations(&self) -> (r: Vec<[u8; 4]>)
        requires
            self.wf(),
        ensures
            fake_ip::octets(r@) == self@.destinations(),
    {
        let mut r: Vec<[u8; 4]> = Vec::new();
        let mut p: usize = 0;
        assert(fake_ip::octets(r@) =~= Seq::<Seq<u8>>::empty());
        while p < PORTS
            invariant
                p <= PORTS,
                self.wf(),
                fake_ip::octets(r@) == destinations_of(self@.slots, p as int),
            decreases PORTS - p,
        {
            assert(self@.slots[p as int] == slot_view(self.slots@[p as int]));
            if let Some(s) = self.slots[p] {
                let ghost before = r@;
                r.push(s.destination.ip);
                assert(fake_ip::octets(r@) =~= fake_ip::octets(before).push(s.destination.ip@));
            }
            p += 1;
        }
        r
    }

    /// Forgets connections that were not used for too long.
    pub fn sweep(&mut self, now: u64)
        requires
            old(self).wf(),
        ensures
            final(self).wf(),
            final(self)@ == old(self)@.swept(now),
    {
        broadcast use vstd::std_specs::hash::group_hash_axioms;

        let ghost start = self@;
        let mut p: usize = 0;
        while p < PORTS
            invariant
                p <= PORTS,
                start == old(self)@,
                self.wf(),
                self.timeout == start.timeout,
                self.port_index == start.index,
                start.slots.len() == PORTS,
                forall|q: int|
                    0 <= q < p ==> (#[trigger] self@.slots[q]) == start.swept(now).slots[q],
                forall|q: int| p <= q < PORTS ==> (#[trigger] self@.slots[q]) == start.slots[q],
            decreases PORTS - p,
        {
            let ghost before = self@;
            let ghost addr = self.addr@;
            assert(before.slots[p as int] == slot_view(self.slots@[p as int]));
            if let Some(s) = self.slots[p] {
                if now > s.last && now - s.last > self.timeout {
                    let k: u64 = key(s.source);
                    self.addr.remove(&k);
                    self.slots.set(p, None);
                    proof {
                        assert(self@.slots =~= before.slots.update(p as int, None));
                        assert forall|j: u64| #[trigger] self.addr@.contains_key(j) implies self@.slots[self.addr@[j] as int] is Some && key_of(
                            self@.slots[self.addr@[j] as int]->0.source,
                        ) == j by {
                            assert(addr.contains_key(j));
                        }
                        assert forall|q: int| 0 <= q < PORTS && (#[trigger] self@.slots[q]) is Some implies self.addr@.contains_key(
                            key_of(self@.slots[q]->0.source) as u64,
                        ) && self.addr@[key_of(self@.slots[q]->0.source) as u64] == q by {
                            assert(before.slots[q] is Some);
                            assert(addr[key_of(before.slots[q]->0.source) as u64] == q);
                        }
                        self.lemma_distinct();
                    }
                }
            }
            p += 1;
        }
        assert(self@.slots =~= start.swept(now).slots);
    }
}

// ---- laws ----
proof fn lemma_port_kept(v: NatView, source: EndView, p: int)
    requires
        v.wf(),
        holds(v.slots, source, p),
    ensures
        port_for(v.slots, source) == Some(p),
{
    let q = choose|q: int| holds(v.slots, source, q);
    assert(holds(v.slots, source, q));
    assert(v.slots[p] is Some && v.slots[q] is Some);
}

proof fn lemma_free_port(slots: Seq<Option<SessionView>>, index: u16, tries: nat)
    requires
        index == 0 || index >= FIRST_PORT,
    ensures
        ({
            let (p, next) = free_port(slots, index, tries);
            &&& (next == 0 || next >= FIRST_PORT)
            &&& (p is Some ==> FIRST_PORT <= p->0 < PORTS && slots[p->0] is None)
        }),
    decreases tries,
{
    if tries > 0 && slots[port_at(index)] is Some {
        lemma_free_port(slots, next_index(index), (tries - 1) as nat);
    }
}

/// A packet that comes back to the port of a connection is one of that connection,
/// and the source keeps its port; the connections of other ports stay as they are.
pub proof fn law_port_leads_back(
    v: NatView,
    source: EndView,
    destination: EndView,
    now: u64,
    later: u64,
)
    requires
        v.wf(),
        source.ip.len() == 4,
        v.looked_up(source, destination, now).0 is Some,
    ensures
        ({
            let (p, w) = v.looked_up(source, destination, now);
            &&& FIRST_PORT <= p->0 < PORTS
            &&& w.looked_back(p->0, later).0 == Some((source, destination))
            &&& w.looked_up(source, destination, later).0 == p
            &&& forall|q: int|
                0 <= q < PORTS && q != p->0 ==> (#[trigger] w.slots[q]) == v.slots[q]
            &&& w.wf()
        }),
{
    let (p, w) = v.looked_up(source, destination, now);
    lemma_free_port(v.slots, v.index, TRIES as nat);
    if port_for(v.slots, source) is Some {
        assert(holds(v.slots, source, p->0));
        assert(v.slots[p->0] is Some);
    } else {
        assert forall|q: int| 0 <= q < PORTS && (#[trigger] v.slots[q]) is Some implies v.slots[q]->0.source
            != source by {
            if v.slots[q]->0.source == source {
                assert(holds(v.slots, source, q));
            }
        }
    }
    assert(w.wf()) by {
        assert forall|a: int, b: int|
            0 <= a < PORTS && 0 <= b < PORTS && (#[trigger] w.slots[a]) is Some && (
            #[trigger] w.slots[b]) is Some && w.slots[a]->0.source
                == w.slots[b]->0.source implies a == b by {
            if a != p->0 {
                assert(v.slots[a] is Some);
            }
            if b != p->0 {
                assert(v.slots[b] is Some);
            }
        }
        assert forall|q: int| 0 <= q < PORTS && (#[trigger] w.slots[q]) is Some implies w.slots[q]->0.source.ip.len()
            == 4 by {
            if q != p->0 {
                assert(v.slots[q] is Some);
            }
        }
        assert forall|q: int| 0 <= q < FIRST_PORT implies (#[trigger] w.slots[q]) is None by {
            assert(v.slots[q] is None);
        }
    }
    assert(holds(w.slots, source, p->0));
    lemma_port_kept(w, source, p->0);
}

/// Two sources never share a port.
pub proof fn law_ports_differ(v: NatView, a: EndView, b: EndView)
    requires
        v.wf(),
        a != b,
        port_for(v.slots, a) is Some,
    ensures
        port_for(v.slots, a) != port_for(v.slots, b),
{
    assert(holds(v.slots, a, port_for(v.slots, a)->0));
    if port_for(v.slots, b) is Some {
        assert(holds(v.slots, b, port_for(v.slots, b)->0));
    }
}

/// A connection that is used again in time is not forgotten.
pub proof fn law_used_connection_stays(v: NatView, port: int, used: u64, now: u64)
    requires
        v.wf(),
        0 <= port < PORTS,
        v.slots[port] is Some,
        now - used <= v.timeout,
    ensures
        ({
            let w = v.looked_back(port, used).1;
            w.swept(now).slots[port] == w.slots[port] && w.slots[port] is Some
        }),
{
}

/// The destinations that are told are those that connections go to.
pub proof fn law_destinations(v: NatView, ip: Seq<u8>)
    ensures
        v.destinations().contains(ip) == v.goes_to(ip),
{
    lemma_destinations(v.slots, v.slots.len() as int, ip);
}

proof fn lemma_destinations(slots: Seq<Option<SessionView>>, n: int, ip: Seq<u8>)
    requires
        0 <= n <= slots.len(),
    ensures
        destinations_of(slots, n).contains(ip) == (exists|p: int|
            0 <= p < n && (#[trigger] slots[p]) is Some && slots[p]->0.destination.ip == ip),
    decreases n,
{
    if n > 0 {
        lemma_destinations(slots, n - 1, ip);
        let before = destinations_of(slots, n - 1);
        let all = destinations_of(slots, n);
        if slots[n - 1] is Some {
            let last = slots[n - 1]->0.destination.ip;
            assert(all == before.push(last));
            if all.contains(ip) {
                let i = choose|i: int| 0 <= i < all.len() && all[i] == ip;
                if i < before.len() {
                    assert(before[i] == ip);
                    assert(before.contains(ip));
                } else {
                    assert(slots[n - 1]->0.destination.ip == ip);
                }
            }
            if before.contains(ip) {
                let i = choose|i: int| 0 <= i < before.len() && before[i] == ip;
                assert(all[i] == ip);
            }
            if last == ip {
                assert(all[before.len() as int] == ip);
            }
        }
    }
}

/// A connection that was not used for longer than the time allowed is forgotten, and no
/// other one is.
pub proof fn law_unused_connection_goes(v: NatView, p: int, now: u64)
    requires
        0 <= p < v.slots.len(),
    ensures
        v.swept(now).slots.len() == v.slots.len(),
        v.slots[p] is Some && now - v.slots[p]->0.last > v.timeout ==> v.swept(now).slots[p]
            is None,
        v.slots[p] is Some && now - v.slots[p]->0.last <= v.timeout ==> v.swept(now).slots[p]
            == v.slots[p],
        v.slots[p] is None ==> v.swept(now).slots[p] is None,
        v.swept(now).index == v.index,
{
}

/// The ports that are given out begin at ten thousand and go up to the last, behind which
/// the first one comes again.
pub proof fn law_ports_in_turn(index: u16)
    requires
        index >= 10000,
    ensures
        port_at(index) == index,
        index < 65535 ==> port_at(next_index(index)) == index + 1,
        index == 65535 ==> port_at(next_index(index)) == 10000 && port_at(
            next_index(next_index(index)),
        ) == 10001,
{
}

/// A new source gets the next port where it is free, and what is kept there is its own
/// address and where it wants to go.
pub proof fn law_new_source(v: NatView, source: EndView, destination: EndView, now: u64)
    requires
        v.wf(),
        port_for(v.slots, source) is None,
        v.index != 0,
        v.slots[v.index as int] is None,
    ensures
        v.looked_up(source, destination, now).0 == Some(v.index as int),
        v.looked_up(source, destination, now).1.slots[v.index as int] == Some(
            (SessionView { source, destination, last: now }),
        ),
        v.looked_up(source, destination, now).1.timeout == v.timeout,
        forall|p: int|
            0 <= p < v.slots.len() && p != v.index ==> (#[trigger] v.looked_up(
                source,
                destination,
                now,
            ).1.slots[p]) == v.slots[p],
{
}

/// A source that has a port keeps it.
pub proof fn law_known_source(v: NatView, source: EndView, destination: EndView, now: u64, p: int)
    requires
        v.wf(),
        holds(v.slots, source, p),
    ensures
        v.looked_up(source, destination, now).0 == Some(p),
        v.looked_up(source, destination, now).1.slots[p] == Some(
            (SessionView { source, destination, last: now }),
        ),
        v.looked_up(source, destination, now).1.index == v.index,
{
    let q = port_for(v.slots, source)->0;
    assert(holds(v.slots, source, q));
    assert(v.slots[p] is Some && v.slots[q] is Some);
}

/// An address and a port as a number: the octets from the highest on, then the port.
pub proof fn law_key_layout(a: u8, b: u8, c: u8, d: u8, port: u16)
    ensures
        key_of(EndView { ip: seq![a, b, c, d], port }) == a * 0x10000_00_00_00 + b
            * 0x10000_00_00 + c * 0x10000_00 + d * 0x10000 + port,
{
}

} // verus!
