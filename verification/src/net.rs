//! The physical interface that outgoing sockets are bound to.

use vstd::prelude::*;

use crate::ip::Ip;
use crate::relay;

verus! {

/// An interface with a way out.
#[derive(Clone, Debug)]
pub struct PhysicalEndpoint {
    pub interface_index: i32,
    pub local_address: [u8; 4],
    pub gateway: [u8; 4],
    pub name: String,
    pub dns_servers: Vec<Ip>,
}

/// Remembers the physical interface while a virtual one catches all traffic.
#[derive(Debug)]
pub struct InterfaceBinder {
    pub physical: Option<PhysicalEndpoint>,
    pub unicast_if: i32,
}

impl InterfaceBinder {
    /// The index is the one of the interface, zero without one.
    pub open spec fn wf(self) -> bool {
        self.unicast_if == (match self.physical {
            Some(e) => e.interface_index,
            None => 0i32,
        })
    }

    pub fn new() -> (r: Self)
        ensures
            r.wf(),
            r.physical is None,
    {
        InterfaceBinder { physical: None, unicast_if: 0 }
    }

    pub fn is_bound(&self) -> (r: bool)
        ensures
            r == (self.physical is Some),
    {
        self.physical.is_some()
    }

    pub fn current<'a>(&'a self) -> (r: Option<&'a PhysicalEndpoint>)
        ensures
            match r {
                Some(e) => self.physical == Some(*e),
                None => self.physical is None,
            },
    {
        self.physical.as_ref()
    }

    pub fn set_physical(&mut self, ep: Option<PhysicalEndpoint>)
        ensures
            final(self).wf(),
            final(self).physical == ep,
    {
        self.unicast_if = match &ep {
            Some(e) => e.interface_index,
            None => 0,
        };
        self.physical = ep;
    }

    pub fn clear(&mut self)
        ensures
            final(self).wf(),
            final(self).physical is None,
    {
        self.set_physical(None);
    }

    /// The local address of sockets to an address of the given kind; none where
    /// the system chooses.
    pub fn local_address(&self, ipv4: bool) -> (r: Option<[u8; 4]>)
        ensures
            r == (match self.physical {
                Some(e) => if ipv4 {
                    Some(e.local_address)
                } else {
                    None
                },
                None => None,
            }),
    {
        match &self.physical {
            Some(e) => if ipv4 {
                Some(e.local_address)
            } else {
                None
            },
            None => None,
        }
    }

    /// The addresses that are tried for a connection: at most four, those of
    /// IPv4 first.
    pub fn happy_candidates(ips: &[Ip]) -> (r: Vec<Ip>)
        ensures
            ({
                let all = relay::four_first(relay::ip_views(ips@));
                relay::ip_views(r@) == all.take(if all.len() < 4 {
                    all.len() as int
                } else {
                    4
                })
            }),
    {
        let mut v = relay::sort_four_first(ips);
        let ghost all = relay::ip_views(v@);
        let n: usize = if v.len() < 4 {
            v.len()
        } else {
            4
        };
        v.truncate(n);
        assert(relay::ip_views(v@) =~= all.take(n as int));
        v
    }
}

} // verus!
