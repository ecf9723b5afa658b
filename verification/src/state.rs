//! Which scan for devices is under way.

use crate::net::transfers;
use crate::text::same_text;
use vstd::prelude::*;

verus! {

/// A scan for devices that was asked for.
#[derive(Debug)]
pub struct DiscoveryRequest {
    pub settings_revision: u64,
    pub selected_local_ip: Option<String>,
}

/// A scan for devices as plain values.
#[verifier::ext_equal]
pub struct RequestView {
    pub settings_revision: u64,
    pub selected_local_ip: Option<Seq<char>>,
}

impl View for DiscoveryRequest {
    type V = RequestView;

    open spec fn view(&self) -> RequestView {
        RequestView {
            settings_revision: self.settings_revision,
            selected_local_ip: transfers::text_option(self.selected_local_ip),
        }
    }
}

impl Clone for DiscoveryRequest {
    fn clone(&self) -> (copy: Self)
        ensures
            copy@ == self@,
    {
        DiscoveryRequest {
            settings_revision: self.settings_revision,
            selected_local_ip: match &self.selected_local_ip {
                Some(ip) => Some(ip.clone()),
                None => None,
            },
        }
    }
}

/// The scan that is under way. There is never more than one, so that scans cannot pile
/// up.
#[derive(Debug)]
pub struct DiscoverySingleflight {
    pub active: Option<DiscoveryRequest>,
}

/// The scan that is under way, as plain values.
pub open spec fn active_view(active: Option<DiscoveryRequest>) -> Option<RequestView> {
    match active {
        Some(request) => Some(request@),
        None => None,
    }
}

fn same_request(a: &DiscoveryRequest, b: &DiscoveryRequest) -> (same: bool)
    ensures
        same == (a@ == b@),
{
    let same_ip = match (&a.selected_local_ip, &b.selected_local_ip) {
        (Some(x), Some(y)) => same_text(x, y),
        (None, None) => true,
        _ => false,
    };
    a.settings_revision == b.settings_revision && same_ip
}

impl DiscoverySingleflight {
    /// No scan is under way.
    pub fn new() -> (flight: Self)
        ensures
            flight.active is None,
    {
        DiscoverySingleflight { active: None }
    }

    /// Starts a scan, unless one is under way.
    pub fn claim(&mut self, request: &DiscoveryRequest) -> (result: Result<(), &'static str>)
        ensures
            match result {
                Ok(_) => old(self).active is None && active_view(final(self).active) == Some(
                    request@,
                ),
                Err(e) => old(self).active is Some && *final(self) == *old(self) && e@
                    == "discovery already in progress"@,
            },
    {
        if self.active.is_some() {
            return Err("discovery already in progress");
        }
        self.active = Some(request.clone());
        Ok(())
    }

    /// Ends a scan; a scan that is not under way ends nothing.
    pub fn release(&mut self, request: &DiscoveryRequest)
        ensures
            active_view(final(self).active) == if active_view(old(self).active) == Some(request@) {
                None
            } else {
                active_view(old(self).active)
            },
    {
        let ends = match &self.active {
            Some(active) => same_request(active, request),
            None => false,
        };
        if ends {
            self.active = None;
        }
    }
}

} // verus!
