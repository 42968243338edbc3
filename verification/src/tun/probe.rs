//! The physical interface that leads out.

use vstd::prelude::*;

use crate::ip;
use crate::ip::Ip;
use crate::net::PhysicalEndpoint;
use crate::text;

verus! {

/// The name of the virtual adapter.
pub const ADAPTER: &'static str = "NanoClash";

/// The type of loopback interfaces.
pub const IF_TYPE_SOFTWARE_LOOPBACK: u32 = 24;

/// The address of the virtual interface.
pub open spec fn server_ip() -> Seq<u8> {
    seq![172u8, 19u8, 0u8, 1u8]
}

/// The address that stands for the other side of the virtual interface.
pub open spec fn client_ip() -> Seq<u8> {
    seq![172u8, 19u8, 0u8, 2u8]
}

pub fn tun_server() -> (r: [u8; 4])
    ensures
        r@ == server_ip(),
{
    let r: [u8; 4] = [172, 19, 0, 1];
    assert(r@ =~= server_ip());
    r
}

pub fn tun_client() -> (r: [u8; 4])
    ensures
        r@ == client_ip(),
{
    let r: [u8; 4] = [172, 19, 0, 2];
    assert(r@ =~= client_ip());
    r
}

/// What the system tells of an interface that is up.
#[derive(Debug)]
pub struct Nic {
    pub name: String,
    pub index: u32,
    pub local: [u8; 4],
    pub gateway: Option<[u8; 4]>,
    pub dns: Vec<[u8; 4]>,
    pub if_type: u32,
}

/// Whether a name is that of a virtual adapter.
pub open spec fn tun_name(name: Seq<char>) -> bool {
    let n = text::lowered(name);
    text::has(n, "nanoclash"@) || text::has(n, "wintun"@)
}

/// Whether an address is one of the virtual interface.
pub open spec fn tun_addr(o: Seq<u8>) -> bool {
    o == server_ip() || o == client_ip()
}

/// Whether an address is one that queries are caught at.
pub open spec fn fake_dns(o: Seq<u8>) -> bool {
    o[0] == 198 && o[1] == 18
}

/// Whether an interface is a physical one with a way out.
pub open spec fn usable(n: Nic) -> bool {
    &&& !tun_name(n.name@)
    &&& n.if_type != IF_TYPE_SOFTWARE_LOOPBACK
    &&& n.index != 0
    &&& !tun_addr(n.local@)
    &&& n.gateway is Some
    &&& !tun_addr(n.gateway->0@)
    &&& n.gateway->0@ != seq![0u8, 0u8, 0u8, 0u8]
}

fn is_tun_name(name: &str) -> (r: bool)
    ensures
        r == tun_name(name@),
{
    let c = text::chars_of(name);
    let n = text::lower(c.as_slice());
    text::contains(n.as_slice(), "nanoclash") || text::contains(n.as_slice(), "wintun")
}

fn is_tun_addr(o: [u8; 4]) -> (r: bool)
    ensures
        r == tun_addr(o@),
{
    ip::same_ipv4(o, tun_server()) || ip::same_ipv4(o, tun_client())
}

pub fn usable_physical(n: &Nic) -> (r: bool)
    ensures
        r == usable(*n),
{
    if is_tun_name(n.name.as_str()) || n.if_type == IF_TYPE_SOFTWARE_LOOPBACK {
        return false;
    }
    if n.index == 0 || is_tun_addr(n.local) {
        return false;
    }
    match n.gateway {
        None => false,
        Some(g) => {
            let none: [u8; 4] = [0, 0, 0, 0];
            assert(none@ =~= seq![0u8, 0u8, 0u8, 0u8]);
            !is_tun_addr(g) && !ip::same_ipv4(g, none)
        },
    }
}

/// The first usable interface from one on; with an address, the first one that
/// has it.
pub open spec fn usable_from(v: Seq<Nic>, local: Option<Seq<u8>>, i: int) -> Option<int>
    decreases v.len() - i,
{
    if i >= v.len() {
        None
    } else if usable(v[i]) && (local is None || v[i].local@ == local->0) {
        Some(i)
    } else {
        usable_from(v, local, i + 1)
    }
}

/// The interface that leads out: the usable one with the address that the system
/// prefers, else the first usable one.
pub open spec fn chosen(v: Seq<Nic>, preferred: Option<Seq<u8>>) -> Option<int> {
    match preferred {
        None => usable_from(v, None, 0),
        Some(p) => match usable_from(v, Some(p), 0) {
            Some(i) => Some(i),
            None => usable_from(v, None, 0),
        },
    }
}

/// The interface number as the system wants it.
pub open spec fn signed_index(n: u32) -> i32 {
    n as i32
}

fn endpoint_of(n: &Nic) -> (r: PhysicalEndpoint)
    requires
        n.gateway is Some,
    ensures
        r.interface_index == signed_index(n.index),
        r.local_address == n.local,
        Some(r.gateway) == n.gateway,
        r.name@ == n.name@,
        r.dns_servers@.len() == n.dns@.len(),
        forall|i: int| 0 <= i < n.dns@.len() ==> r.dns_servers@[i] == Ip::V4(#[trigger] n.dns@[i]),
{
    let mut dns: Vec<Ip> = Vec::new();
    let mut i: usize = 0;
    while i < n.dns.len()
        invariant
            i <= n.dns@.len(),
            dns@.len() == i,
            forall|j: int| 0 <= j < i ==> dns@[j] == Ip::V4(#[trigger] n.dns@[j]),
        decreases n.dns@.len() - i,
    {
        dns.push(Ip::V4(n.dns[i]));
        i += 1;
    }
    let gateway: [u8; 4] = match n.gateway {
        Some(g) => g,
        None => [0, 0, 0, 0],
    };
    PhysicalEndpoint {
        interface_index: #[verifier::truncate] (n.index as i32),
        local_address: n.local,
        gateway,
        name: n.name.as_str().to_owned(),
        dns_servers: dns,
    }
}

/// The physical interface that leads out.
pub fn probe(nics: &[Nic], preferred: Option<[u8; 4]>) -> (r: Result<PhysicalEndpoint, String>)
    ensures
        match chosen(
            nics@,
            match preferred {
                Some(p) => Some(p@),
                None => None,
            },
        ) {
            None => r is Err && r->Err_0@ == "No usable physical IPv4 default interface found"@,
            Some(i) => {
                let n = nics@[i];
                &&& 0 <= i < nics@.len() && usable(n)
                &&& r is Ok
                &&& r->Ok_0.interface_index == signed_index(n.index)
                &&& r->Ok_0.local_address == n.local
                &&& Some(r->Ok_0.gateway) == n.gateway
                &&& r->Ok_0.name@ == n.name@
                &&& r->Ok_0.dns_servers@.len() == n.dns@.len()
                &&& forall|j: int|
                    0 <= j < n.dns@.len() ==> r->Ok_0.dns_servers@[j] == Ip::V4(
                        #[trigger] n.dns@[j],
                    )
            },
        },
{
    let ghost want = match preferred {
        Some(p) => Some(p@),
        None => None,
    };
    let mut fallback: Option<usize> = None;
    let mut i: usize = 0;
    while i < nics.len()
        invariant
            i <= nics@.len(),
            want == (match preferred {
                Some(p) => Some(p@),
                None => None,
            }),
            want is Some ==> usable_from(nics@, want, 0) == usable_from(nics@, want, i as int),
            match fallback {
                Some(f) => f < nics@.len() && usable(nics@[f as int]) && usable_from(
                    nics@,
                    None,
                    0,
                ) == Some(f as int),
                None => usable_from(nics@, None, 0) == usable_from(nics@, None, i as int),
            },
            want is None ==> fallback is None,
        decreases nics@.len() - i,
    {
        if usable_physical(&nics[i]) {
            match preferred {
                Some(p) => {
                    if ip::same_ipv4(nics[i].local, p) {
                        return Ok(endpoint_of(&nics[i]));
                    }
                    if fallback.is_none() {
                        fallback = Some(i);
                    }
                },
                None => {
                    return Ok(endpoint_of(&nics[i]));
                },
            }
        }
        i += 1;
    }
    match fallback {
        Some(f) => Ok(endpoint_of(&nics[f])),
        None => Err("No usable physical IPv4 default interface found".to_owned()),
    }
}

/// The address that the system prefers, unless it is one of the virtual interface.
pub fn preferred_local(local: Ip) -> (r: Option<[u8; 4]>)
    ensures
        r == (match local {
            Ip::V4(o) => if tun_addr(o@) {
                None
            } else {
                Some(o)
            },
            Ip::V6(_) => None,
        }),
{
    match local {
        Ip::V4(o) => if is_tun_addr(o) {
            None
        } else {
            Some(o)
        },
        Ip::V6(_) => None,
    }
}

// ---- interfaces that still ask the virtual one ----
/// Whether an interface asks an address at which queries are caught.
pub open spec fn asks_fake_dns(n: Nic) -> bool {
    exists|i: int| 0 <= i < n.dns@.len() && fake_dns((#[trigger] n.dns@[i])@)
}

pub open spec fn fake_dns_names(v: Seq<Nic>) -> Seq<Seq<char>>
    decreases v.len(),
{
    if v.len() == 0 {
        Seq::empty()
    } else {
        let n = v.last();
        let before = fake_dns_names(v.drop_last());
        if asks_fake_dns(n) && !tun_name(n.name@) {
            before.push(n.name@)
        } else {
            before
        }
    }
}

fn has_fake_dns(n: &Nic) -> (r: bool)
    ensures
        r == asks_fake_dns(*n),
{
    let mut i: usize = 0;
    while i < n.dns.len()
        invariant
            i <= n.dns@.len(),
            forall|j: int| 0 <= j < i ==> !fake_dns((#[trigger] n.dns@[j])@),
        decreases n.dns@.len() - i,
    {
        let o: [u8; 4] = n.dns[i];
        if o[0] == 198 && o[1] == 18 {
            assert(fake_dns(n.dns@[i as int]@));
            return true;
        }
        i += 1;
    }
    false
}

/// The names of interfaces other than virtual ones that ask an address at which
/// queries are caught.
pub fn fake_dns_interface_names(nics: &[Nic]) -> (r: Vec<String>)
    ensures
        text::strings(r@) == fake_dns_names(nics@),
{
    let mut r: Vec<String> = Vec::new();
    let mut i: usize = 0;
    assert(text::strings(r@) =~= fake_dns_names(nics@.take(0)));
    while i < nics.len()
        invariant
            i <= nics@.len(),
            text::strings(r@) == fake_dns_names(nics@.take(i as int)),
        decreases nics@.len() - i,
    {
        let ghost t = nics@.take(i + 1);
        assert(t.drop_last() =~= nics@.take(i as int));
        assert(t.last() == nics@[i as int]);
        if has_fake_dns(&nics[i]) && !is_tun_name(nics[i].name.as_str()) {
            let ghost before = text::strings(r@);
            r.push(nics[i].name.as_str().to_owned());
            assert(text::strings(r@) =~= before.push(nics@[i as int].name@));
        }
        i += 1;
    }
    assert(nics@.take(i as int) =~= nics@);
    r
}

// ---- from what the system lists ----
/// What the system lists of an interface that is up: its addresses in order.
#[derive(Debug)]
pub struct RawNic {
    pub name: String,
    pub index: u32,
    pub unicast: Vec<[u8; 4]>,
    pub gateways: Vec<[u8; 4]>,
    pub dns: Vec<[u8; 4]>,
    pub if_type: u32,
}

pub open spec fn unspecified(o: Seq<u8>) -> bool {
    o[0] == 0 && o[1] == 0 && o[2] == 0 && o[3] == 0
}

pub open spec fn loopback(o: Seq<u8>) -> bool {
    o[0] == 127
}

pub open spec fn link_local(o: Seq<u8>) -> bool {
    o[0] == 169 && o[1] == 254
}

/// The first address that leads somewhere else.
pub open spec fn local_from(v: Seq<[u8; 4]>, i: int) -> Option<[u8; 4]>
    decreases v.len() - i,
{
    if i >= v.len() {
        None
    } else if !loopback(v[i]@) && !unspecified(v[i]@) && !link_local(v[i]@) {
        Some(v[i])
    } else {
        local_from(v, i + 1)
    }
}

/// The first address that is one.
pub open spec fn gateway_from(v: Seq<[u8; 4]>, i: int) -> Option<[u8; 4]>
    decreases v.len() - i,
{
    if i >= v.len() {
        None
    } else if !unspecified(v[i]@) {
        Some(v[i])
    } else {
        gateway_from(v, i + 1)
    }
}

/// The addresses that lead somewhere, each once.
pub open spec fn servers_of(v: Seq<[u8; 4]>) -> Seq<Seq<u8>>
    decreases v.len(),
{
    if v.len() == 0 {
        Seq::empty()
    } else {
        let before = servers_of(v.drop_last());
        let o = v.last()@;
        if before.contains(o) || loopback(o) || unspecified(o) {
            before
        } else {
            before.push(o)
        }
    }
}

fn is_unspecified(o: [u8; 4]) -> (r: bool)
    ensures
        r == unspecified(o@),
{
    o[0] == 0 && o[1] == 0 && o[2] == 0 && o[3] == 0
}

fn holds_ip(v: &Vec<[u8; 4]>, o: [u8; 4]) -> (r: bool)
    ensures
        r == crate::dns::fake_ip::octets(v@).contains(o@),
{
    let ghost t = crate::dns::fake_ip::octets(v@);
    let mut i: usize = 0;
    while i < v.len()
        invariant
            i <= v@.len(),
            t == crate::dns::fake_ip::octets(v@),
            forall|j: int| 0 <= j < i ==> (#[trigger] t[j]) != o@,
        decreases v@.len() - i,
    {
        if ip::same_ipv4(v[i], o) {
            assert(t[i as int] == o@);
            return true;
        }
        i += 1;
    }
    false
}

/// An interface of what the system lists, where it has a name and an address that
/// leads somewhere else.
pub fn parse_nic(raw: &RawNic) -> (r: Option<Nic>)
    ensures
        if raw.name@.len() == 0 || local_from(raw.unicast@, 0) is None {
            r is None
        } else {
            &&& r is Some
            &&& r->0.name@ == raw.name@
            &&& r->0.index == raw.index
            &&& Some(r->0.local) == local_from(raw.unicast@, 0)
            &&& r->0.gateway == gateway_from(raw.gateways@, 0)
            &&& crate::dns::fake_ip::octets(r->0.dns@) == servers_of(raw.dns@)
            &&& r->0.if_type == raw.if_type
        },
{
    let name = text::chars_of(raw.name.as_str());
    if name.len() == 0 {
        return None;
    }
    let mut local: Option<[u8; 4]> = None;
    let mut i: usize = 0;
    while i < raw.unicast.len() && local.is_none()
        invariant
            i <= raw.unicast@.len(),
            match local {
                Some(o) => local_from(raw.unicast@, 0) == Some(o),
                None => local_from(raw.unicast@, 0) == local_from(raw.unicast@, i as int),
            },
        decreases raw.unicast@.len() - i,
    {
        let o: [u8; 4] = raw.unicast[i];
        if o[0] != 127 && !is_unspecified(o) && !(o[0] == 169 && o[1] == 254) {
            local = Some(o);
        }
        i += 1;
    }
    let local: [u8; 4] = match local {
        Some(o) => o,
        None => {
            return None;
        },
    };
    let mut gateway: Option<[u8; 4]> = None;
    let mut i: usize = 0;
    while i < raw.gateways.len() && gateway.is_none()
        invariant
            i <= raw.gateways@.len(),
            match gateway {
                Some(o) => gateway_from(raw.gateways@, 0) == Some(o),
                None => gateway_from(raw.gateways@, 0) == gateway_from(raw.gateways@, i as int),
            },
        decreases raw.gateways@.len() - i,
    {
        let o: [u8; 4] = raw.gateways[i];
        if !is_unspecified(o) {
            gateway = Some(o);
        }
        i += 1;
    }
    let mut dns: Vec<[u8; 4]> = Vec::new();
    let mut i: usize = 0;
    assert(crate::dns::fake_ip::octets(dns@) =~= servers_of(raw.dns@.take(0)));
    while i < raw.dns.len()
        invariant
            i <= raw.dns@.len(),
            crate::dns::fake_ip::octets(dns@) == servers_of(raw.dns@.take(i as int)),
        decreases raw.dns@.len() - i,
    {
        let ghost t = raw.dns@.take(i + 1);
        assert(t.drop_last() =~= raw.dns@.take(i as int));
        let o: [u8; 4] = raw.dns[i];
        assert(t.last() == o);
        if !holds_ip(&dns, o) && o[0] != 127 && !is_unspecified(o) {
            let ghost before = crate::dns::fake_ip::octets(dns@);
            dns.push(o);
            assert(crate::dns::fake_ip::octets(dns@) =~= before.push(o@));
        }
        i += 1;
    }
    assert(raw.dns@.take(i as int) =~= raw.dns@);
    Some(
        Nic {
            name: raw.name.as_str().to_owned(),
            index: raw.index,
            local,
            gateway,
            dns,
            if_type: raw.if_type,
        },
    )
}

// ---- laws ----
proof fn lemma_usable_from(v: Seq<Nic>, local: Option<Seq<u8>>, i: int)
    requires
        0 <= i,
    ensures
        match usable_from(v, local, i) {
            Some(k) => {
                &&& i <= k < v.len()
                &&& usable(v[k])
                &&& (local is Some ==> v[k].local@ == local->0)
                &&& forall|j: int|
                    i <= j < k ==> !(usable(#[trigger] v[j]) && (local is None || v[j].local@
                        == local->0))
            },
            None => forall|j: int|
                i <= j < v.len() ==> !(usable(#[trigger] v[j]) && (local is None || v[j].local@
                    == local->0)),
        },
    decreases v.len() - i,
{
    if i < v.len() && !(usable(v[i]) && (local is None || v[i].local@ == local->0)) {
        lemma_usable_from(v, local, i + 1);
    }
}

/// The interface that leads out is a usable one. It is the first that has the address which
/// the system prefers, where a usable one has it, and else the first usable one.
pub proof fn law_interface_that_leads_out(v: Seq<Nic>, p: Seq<u8>, k: int)
    requires
        0 <= k < v.len(),
        usable(v[k]),
    ensures
        chosen(v, Some(p)) is Some,
        chosen(v, None) is Some,
        0 <= chosen(v, None)->0 <= k,
        usable(v[chosen(v, None)->0]),
        usable(v[chosen(v, Some(p))->0]),
        v[k].local@ == p ==> chosen(v, Some(p))->0 <= k && v[chosen(v, Some(p))->0].local@ == p,
        (forall|j: int| 0 <= j < v.len() ==> (#[trigger] v[j]).local@ != p) ==> chosen(v, Some(p))
            == chosen(v, None),
{
    lemma_usable_from(v, None, 0);
    lemma_usable_from(v, Some(p), 0);
}

/// An interface is usable if it is none of the program's own, no loopback, has a number,
/// and has a gateway that is an address of another machine.
pub proof fn law_usable(n: Nic)
    ensures
        usable(n) ==> n.if_type != 24 && n.index != 0 && n.gateway is Some,
        usable(n) ==> n.local@ != seq![172u8, 19u8, 0u8, 1u8] && n.local@ != seq![
            172u8,
            19u8,
            0u8,
            2u8,
        ],
        usable(n) ==> n.gateway->0@ != seq![172u8, 19u8, 0u8, 1u8] && n.gateway->0@ != seq![
            172u8,
            19u8,
            0u8,
            2u8,
        ] && n.gateway->0@ != seq![0u8, 0u8, 0u8, 0u8],
        usable(n) ==> !text::has(text::lowered(n.name@), "nanoclash"@) && !text::has(
            text::lowered(n.name@),
            "wintun"@,
        ),
        (n.if_type != 24 && n.index != 0 && n.gateway is Some && !tun_name(n.name@) && n.local@[0]
            != 172 && n.gateway->0@[0] != 172 && n.gateway->0@[0] != 0) ==> usable(n),
{
    let s = seq![172u8, 19u8, 0u8, 1u8];
    let c = seq![172u8, 19u8, 0u8, 2u8];
    let z = seq![0u8, 0u8, 0u8, 0u8];
    assert(s[0] == 172 && c[0] == 172 && z[0] == 0);
}

/// The interfaces, but for the virtual one, that ask an address of 198.18 are those whose
/// name server is given back.
pub proof fn law_caught_interfaces(v: Seq<Nic>, n: Nic, i: int)
    requires
        0 <= i < n.dns@.len(),
        n.dns@[i]@[0] == 198,
        n.dns@[i]@[1] == 18,
    ensures
        !text::has(text::lowered(n.name@), "nanoclash"@) && !text::has(
            text::lowered(n.name@),
            "wintun"@,
        ) ==> fake_dns_names(v.push(n)) == fake_dns_names(v).push(n.name@),
        text::has(text::lowered(n.name@), "nanoclash"@) ==> fake_dns_names(v.push(n))
            == fake_dns_names(v),
{
    assert(v.push(n).drop_last() =~= v);
    assert(fake_dns(n.dns@[i]@));
}

/// An interface that asks no address of 198.18 keeps its name server.
pub proof fn law_other_interfaces(v: Seq<Nic>, n: Nic)
    requires
        forall|i: int|
            0 <= i < n.dns@.len() ==> (#[trigger] n.dns@[i])@[0] != 198 || n.dns@[i]@[1] != 18,
    ensures
        fake_dns_names(v.push(n)) == fake_dns_names(v),
{
    assert(v.push(n).drop_last() =~= v);
}

/// The address of an interface is the first that is neither a loopback, an unspecified nor
/// a link local one, and its gateway the first that is specified.
pub proof fn law_address_of_interface(v: Seq<[u8; 4]>, a: [u8; 4])
    ensures
        a@[0] != 127 && a@[0] != 0 && a@[0] != 169 ==> local_from(seq![a] + v, 0) == Some(a),
        a@[0] == 127 || (a@[0] == 169 && a@[1] == 254) || (a@[0] == 0 && a@[1] == 0 && a@[2] == 0
            && a@[3] == 0) ==> local_from(seq![a] + v, 0) == local_from(v, 0),
        a@[0] != 0 ==> gateway_from(seq![a] + v, 0) == Some(a),
        a@[0] == 0 && a@[1] == 0 && a@[2] == 0 && a@[3] == 0 ==> gateway_from(seq![a] + v, 0)
            == gateway_from(v, 0),
{
    let w = seq![a] + v;
    assert(w[0] == a);
    lemma_from_second(v, a, 0);
}

proof fn lemma_from_second(v: Seq<[u8; 4]>, a: [u8; 4], i: int)
    requires
        0 <= i,
    ensures
        local_from(seq![a] + v, i + 1) == local_from(v, i),
        gateway_from(seq![a] + v, i + 1) == gateway_from(v, i),
    decreases v.len() - i,
{
    if i < v.len() {
        assert((seq![a] + v)[i + 1] == v[i]);
        lemma_from_second(v, a, i + 1);
    }
}

/// The name servers of an interface: each specified address that is no loopback, once, in
/// order.
pub proof fn law_servers_of_interface(v: Seq<[u8; 4]>, a: [u8; 4])
    ensures
        servers_of(Seq::empty()) == Seq::<Seq<u8>>::empty(),
        a@[0] == 127 ==> servers_of(v.push(a)) == servers_of(v),
        a@[0] == 0 && a@[1] == 0 && a@[2] == 0 && a@[3] == 0 ==> servers_of(v.push(a))
            == servers_of(v),
        servers_of(v).contains(a@) ==> servers_of(v.push(a)) == servers_of(v),
        a@[0] != 127 && a@[0] != 0 && !servers_of(v).contains(a@) ==> servers_of(v.push(a))
            == servers_of(v).push(a@),
{
    assert(v.push(a).drop_last() =~= v);
}

} // verus!
