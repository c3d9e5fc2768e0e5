//! Outbounds as sing-config reads them: selectors and URL tests may name
//! providers whose outbounds they take in.

use vstd::prelude::*;

use crate::foreign::{strings_view, JsonObject};
use crate::sing_box;
use crate::sing_box::outbound::{OutboundKindView, OutboundView};

verus! {

/// A sing-config outbound: its tag and what kind of outbound it is.
#[derive(Debug, Clone, PartialEq, Eq)]
pub struct Outbound {
    pub tag: String,
    pub kind: OutboundKind,
}

impl Outbound {
    pub fn new(tag: String, kind: OutboundKind) -> (r: Self)
        ensures
            r.tag == tag,
            r.kind == kind,
    {
        Self { tag, kind }
    }

    /// The providers that this outbound takes outbounds from, in the order
    /// it names them.
    pub open spec fn providers(self) -> Seq<Seq<char>> {
        match self.kind {
            OutboundKind::Selector(s) => strings_view(s.outbound_providers@),
            OutboundKind::UrlTest(u) => strings_view(u.outbound_providers@),
            OutboundKind::Unknown(_) => Seq::empty(),
        }
    }

    /// The sing-box outbound that this outbound becomes before any provider
    /// is expanded: the same tag and fields, without the list of providers.
    pub open spec fn converted(self) -> OutboundView {
        OutboundView {
            tag: self.tag@,
            kind: match self.kind {
                OutboundKind::Selector(s) => OutboundKindView::Selector {
                    outbounds: strings_view(s.outbounds@),
                    extra: s.extra,
                },
                OutboundKind::UrlTest(u) => OutboundKindView::UrlTest {
                    outbounds: strings_view(u.outbounds@),
                    extra: u.extra,
                },
                OutboundKind::Unknown(m) => OutboundKindView::Unknown(m),
            },
        }
    }
}

/// The kinds of outbound the library looks into; every other kind is kept
/// as the JSON object it was written as.
#[derive(Debug, Clone, PartialEq, Eq)]
pub enum OutboundKind {
    Selector(Selector),
    UrlTest(UrlTest),
    Unknown(JsonObject),
}

/// A selector: the outbounds it chooses among, and the providers whose
/// outbounds it takes in after them.
#[derive(Debug, Clone, PartialEq, Eq)]
pub struct Selector {
    pub outbounds: Vec<String>,
    pub outbound_providers: Vec<String>,
    pub extra: JsonObject,
}

impl Selector {
    /// Splits into the sing-box selector and the list of providers.
    pub(crate) fn split(self) -> (r: (sing_box::outbound::Selector, Vec<String>))
        ensures
            r.0.outbounds == self.outbounds,
            r.0.extra == self.extra,
            r.1 == self.outbound_providers,
    {
        (
            sing_box::outbound::Selector { outbounds: self.outbounds, extra: self.extra },
            self.outbound_providers,
        )
    }
}

/// A URL test: the outbounds it tests, and the providers whose outbounds it
/// takes in after them.
#[derive(Debug, Clone, PartialEq, Eq)]
pub struct UrlTest {
    pub outbounds: Vec<String>,
    pub outbound_providers: Vec<String>,
    pub extra: JsonObject,
}

impl UrlTest {
    /// Splits into the sing-box URL test and the list of providers.
    pub(crate) fn split(self) -> (r: (sing_box::outbound::UrlTest, Vec<String>))
        ensures
            r.0.outbounds == self.outbounds,
            r.0.extra == self.extra,
            r.1 == self.outbound_providers,
    {
        (
            sing_box::outbound::UrlTest { outbounds: self.outbounds, extra: self.extra },
            self.outbound_providers,
        )
    }
}

/// `o` and `p` are the same outbound but for the providers they name.
pub open spec fn same_but_providers(o: Outbound, p: Outbound) -> bool {
    &&& o.tag@ == p.tag@
    &&& match (o.kind, p.kind) {
        (OutboundKind::Selector(a), OutboundKind::Selector(b)) => a.outbounds@ == b.outbounds@
            && a.extra == b.extra,
        (OutboundKind::UrlTest(a), OutboundKind::UrlTest(b)) => a.outbounds@ == b.outbounds@
            && a.extra == b.extra,
        (OutboundKind::Unknown(a), OutboundKind::Unknown(b)) => a == b,
        _ => false,
    }
}

/// Law: before any provider is expanded, an input outbound becomes the
/// sing-box outbound with the same tag and the same kind, listing exactly
/// the outbounds it listed and keeping its other fields; the providers it
/// names play no part, so a selector or URL test that names none passes
/// through as it was written.
pub proof fn law_conversion_keeps_outbound(o: Outbound, p: Outbound)
    ensures
        o.converted().tag == o.tag@,
        match o.kind {
            OutboundKind::Selector(s) => o.converted().kind == (OutboundKindView::Selector {
                outbounds: strings_view(s.outbounds@),
                extra: s.extra,
            }),
            OutboundKind::UrlTest(u) => o.converted().kind == (OutboundKindView::UrlTest {
                outbounds: strings_view(u.outbounds@),
                extra: u.extra,
            }),
            OutboundKind::Unknown(m) => o.converted().kind == OutboundKindView::Unknown(m),
        },
        (o.converted().kind is Selector) == (o.kind is Selector),
        (o.converted().kind is UrlTest) == (o.kind is UrlTest),
        (o.converted().kind is Unknown) == (o.kind is Unknown),
        same_but_providers(o, p) ==> o.converted() == p.converted(),
{
}

} // verus!
