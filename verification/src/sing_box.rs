//! The sing-box side of the conversion: the configuration and outbounds that
//! sing-box itself reads.

pub mod outbound;

pub use outbound::{Outbound, OutboundKind, Selector, UrlTest};

use vstd::prelude::*;

use crate::foreign::JsonObject;
use outbound::OutboundView;

verus! {

/// A sing-box configuration: its outbounds, and every other field as it is.
#[derive(Debug, PartialEq, Eq)]
pub struct Config {
    pub outbounds: Vec<Outbound>,
    pub extra: JsonObject,
}

/// The views of a sequence of outbounds.
pub open spec fn outbounds_view(v: Seq<Outbound>) -> Seq<OutboundView> {
    v.map_values(|o: Outbound| o@)
}

/// The tags of a sequence of outbounds.
pub open spec fn outbound_tags(v: Seq<OutboundView>) -> Seq<Seq<char>> {
    v.map_values(|o: OutboundView| o.tag)
}

impl Config {
    /// The outbounds of the configuration, as views.
    pub open spec fn outbounds_view(&self) -> Seq<OutboundView> {
        outbounds_view(self.outbounds@)
    }
}

impl Clone for Config {
    fn clone(&self) -> (r: Self)
        ensures
            r.outbounds_view() == self.outbounds_view(),
            r.extra == self.extra,
    {
        let mut outbounds: Vec<Outbound> = Vec::new();
        let n = self.outbounds.len();
        let mut i: usize = 0;
        while i < n
            invariant
                n == self.outbounds.len(),
                i <= n,
                outbounds_view(outbounds@) == self.outbounds_view().take(i as int),
            decreases n - i,
        {
            let ghost before = outbounds@;
            outbounds.push(self.outbounds[i].clone());
            proof {
                assert(outbounds_view(outbounds@) =~= outbounds_view(before).push(
                    self.outbounds@[i as int]@,
                ));
                assert(self.outbounds_view().take(i + 1) =~= self.outbounds_view().take(
                    i as int,
                ).push(self.outbounds@[i as int]@));
            }
            i += 1;
        }
        proof {
            assert(self.outbounds_view().take(n as int) =~= self.outbounds_view());
        }
        Config { outbounds, extra: self.extra.clone() }
    }
}

} // verus!
