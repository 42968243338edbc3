//! Whether the virtual interface is up, and how it is brought up.

use vstd::prelude::*;

use crate::codec;
use crate::config::node;
use crate::config::node::ProxyNode;
use crate::ip::Ip;

verus! {

/// What a start comes to.
#[derive(Debug)]
pub enum StartStep {
    /// The interface is up.
    Running,
    /// Another start is under way: it is waited for.
    Wait,
    /// This is the one that brings the interface up.
    Go,
    Refused(String),
}

/// The state of the virtual interface.
#[derive(Debug)]
pub struct TunService {
    pub running: bool,
    pub starting: bool,
    pub configured: bool,
}

impl TunService {
    pub fn new() -> (r: Self)
        ensures
            r == (TunService { running: false, starting: false, configured: false }),
    {
        TunService { running: false, starting: false, configured: false }
    }

    /// The rules and the way out are known from now on.
    pub fn configure(&mut self)
        ensures
            *final(self) == (TunService { configured: true, ..*old(self) }),
    {
        self.configured = true;
    }

    pub fn is_running(&self) -> (r: bool)
        ensures
            r == self.running,
    {
        self.running
    }

    /// Begins to bring the interface up. Of several starts one does it.
    pub fn start(&mut self, windows: bool) -> (r: StartStep)
        ensures
            if !windows {
                r is Refused && r->Refused_0@
                    == "Enhance mode (TUN) is only supported on Windows."@ && *final(self)
                    == *old(self)
            } else if old(self).running {
                r is Running && *final(self) == *old(self)
            } else if old(self).starting {
                r is Wait && *final(self) == *old(self)
            } else {
                r is Go && *final(self) == (TunService { starting: true, ..*old(self) })
            },
    {
        if !windows {
            return StartStep::Refused(
                "Enhance mode (TUN) is only supported on Windows.".to_owned(),
            );
        }
        if self.running {
            return StartStep::Running;
        }
        if self.starting {
            return StartStep::Wait;
        }
        self.starting = true;
        StartStep::Go
    }

    /// Looks again after a wait for another start.
    pub fn waited(&self) -> (r: StartStep)
        ensures
            if self.starting {
                r is Wait
            } else if self.running {
                r is Running
            } else {
                r is Refused && r->Refused_0@ == "enhance start already in progress"@
            },
    {
        if self.starting {
            StartStep::Wait
        } else if self.running {
            StartStep::Running
        } else {
            StartStep::Refused("enhance start already in progress".to_owned())
        }
    }

    /// The start that brought the interface up is over. One that failed leaves the
    /// interface down.
    pub fn started(&mut self, worked: bool)
        ensures
            *final(self) == (TunService { starting: false, running: worked, ..*old(self) }),
    {
        self.starting = false;
        self.running = worked;
    }

    /// The interface is down.
    pub fn stop(&mut self)
        ensures
            *final(self) == (TunService { running: false, ..*old(self) }),
    {
        self.running = false;
    }

    /// Why the interface cannot be brought up with a node, if it cannot.
    pub fn check_start(&self, current: Option<&ProxyNode>) -> (r: Option<String>)
        ensures
            if !self.configured {
                r is Some && r->0@ == "TunService not configured"@
            } else if current is None || node::is_notice(current->0@.name) {
                r is Some && r->0@ == "Select a proxy node before enabling enhance mode"@
            } else {
                r is None
            },
    {
        if !self.configured {
            return Some("TunService not configured".to_owned());
        }
        match current {
            None => Some("Select a proxy node before enabling enhance mode".to_owned()),
            Some(n) => if n.is_subscription_info() {
                Some("Select a proxy node before enabling enhance mode".to_owned())
            } else {
                None
            },
        }
    }

    /// Whether a change of the node needs nothing to be done: without the interface,
    /// and where there is no node to go to.
    pub fn keeps_routes(&self, current: Option<&ProxyNode>) -> (r: bool)
        ensures
            r == (!self.running || !self.configured || current is None || node::is_notice(
                current->0@.name,
            )),
    {
        if !self.running || !self.configured {
            return true;
        }
        match current {
            None => true,
            Some(n) => n.is_subscription_info(),
        }
    }
}

/// The address of a node that is reached beside the virtual interface.
pub fn node_address(resolved: Option<Ip>) -> (r: Result<[u8; 4], String>)
    ensures
        match resolved {
            None => r is Err && r->Err_0@
                == "Could not resolve node IPv4 for anti-loop route"@,
            Some(Ip::V6(_)) => r is Err && r->Err_0@ == "IPv4 required for anti-loop route"@,
            Some(Ip::V4(o)) => r == Ok::<[u8; 4], String>(o),
        },
{
    match resolved {
        None => Err("Could not resolve node IPv4 for anti-loop route".to_owned()),
        Some(Ip::V6(_)) => Err("IPv4 required for anti-loop route".to_owned()),
        Some(Ip::V4(o)) => Ok(o),
    }
}

/// Whether the library of the driver has to be written: it is not there, or not
/// the one that comes with the program.
pub fn driver_is_stale(on_disk: Option<&[u8]>, own: &[u8]) -> (r: bool)
    ensures
        r == (on_disk is None || on_disk->0@ != own@),
{
    match on_disk {
        None => true,
        Some(b) => !codec::same_bytes(b, own),
    }
}

} // verus!
