//! Records carried along a profile for the RADIUS integration.
use vstd::prelude::*;

verus! {

/// A group membership mapped to a VLAN (0 to 65535).
pub struct RadiusGroup {
    pub spn: String,
    pub vlan: u16,
}

/// One client allowed to talk to the RADIUS server.
pub struct RadiusClient {
    pub name: String,
    pub ipaddr: String,
    pub secret: String,
}

/// The mathematical shape of a [`RadiusGroup`].
pub ghost struct RadiusGroupView {
    pub spn: Seq<char>,
    pub vlan: u16,
}

/// The mathematical shape of a [`RadiusClient`].
pub ghost struct RadiusClientView {
    pub name: Seq<char>,
    pub ipaddr: Seq<char>,
    pub secret: Seq<char>,
}

impl RadiusGroup {
    pub open spec fn view(self) -> RadiusGroupView {
        RadiusGroupView { spn: self.spn@, vlan: self.vlan }
    }
}

impl RadiusClient {
    pub open spec fn view(self) -> RadiusClientView {
        RadiusClientView { name: self.name@, ipaddr: self.ipaddr@, secret: self.secret@ }
    }
}

} // verus!
