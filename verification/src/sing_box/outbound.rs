//! Outbounds as sing-box reads them.

use vstd::prelude::*;

use crate::foreign::{
    clone_strings, json_as_str, json_field, json_get, json_value_as_str,
    strings_view, JsonObject,
};

verus! {

/// A sing-box outbound: its tag and what kind of outbound it is.
#[derive(Debug, PartialEq, Eq)]
pub struct Outbound {
    pub tag: String,
    pub kind: OutboundKind,
}

/// The kinds of outbound the library looks into; every other kind is kept
/// as the JSON object it was written as.
#[derive(Debug, PartialEq, Eq)]
pub enum OutboundKind {
    Selector(Selector),
    UrlTest(UrlTest),
    Unknown(JsonObject),
}

/// A selector outbound: the tags of the outbounds it chooses among.
#[derive(Debug, PartialEq, Eq)]
pub struct Selector {
    pub outbounds: Vec<String>,
    pub extra: JsonObject,
}

/// A URL-test outbound: the tags of the outbounds it tests.
#[derive(Debug, PartialEq, Eq)]
pub struct UrlTest {
    pub outbounds: Vec<String>,
    pub extra: JsonObject,
}

/// What an outbound is, with its strings seen as character sequences.
pub struct OutboundView {
    pub tag: Seq<char>,
    pub kind: OutboundKindView,
}

/// What kind of outbound it is; a selector or URL test is seen as the tags
/// it lists and the fields it keeps as they are.
pub enum OutboundKindView {
    Selector { outbounds: Seq<Seq<char>>, extra: JsonObject },
    UrlTest { outbounds: Seq<Seq<char>>, extra: JsonObject },
    Unknown(JsonObject),
}

impl OutboundKindView {
    /// Whether this kind lists outbounds that providers can be expanded into.
    pub open spec fn is_group(self) -> bool {
        self is Selector || self is UrlTest
    }

    /// The `type` that sing-box knows this kind of outbound by: `selector`,
    /// `urltest`, or the `type` string of any other outbound where it has one.
    pub open spec fn kind_name(self) -> Option<Seq<char>> {
        match self {
            OutboundKindView::Selector { .. } => Some("selector"@),
            OutboundKindView::UrlTest { .. } => Some("urltest"@),
            OutboundKindView::Unknown(m) => match json_field(m, "type"@) {
                Some(v) => json_as_str(v),
                None => None,
            },
        }
    }

    /// The same kind with `tags` appended to the outbounds it lists.
    pub open spec fn extended(self, tags: Seq<Seq<char>>) -> OutboundKindView {
        match self {
            OutboundKindView::Selector { outbounds, extra } => OutboundKindView::Selector {
                outbounds: outbounds + tags,
                extra,
            },
            OutboundKindView::UrlTest { outbounds, extra } => OutboundKindView::UrlTest {
                outbounds: outbounds + tags,
                extra,
            },
            OutboundKindView::Unknown(m) => OutboundKindView::Unknown(m),
        }
    }
}

impl View for OutboundKind {
    type V = OutboundKindView;

    open spec fn view(&self) -> OutboundKindView {
        match self {
            OutboundKind::Selector(s) => OutboundKindView::Selector {
                outbounds: strings_view(s.outbounds@),
                extra: s.extra,
            },
            OutboundKind::UrlTest(u) => OutboundKindView::UrlTest {
                outbounds: strings_view(u.outbounds@),
                extra: u.extra,
            },
            OutboundKind::Unknown(m) => OutboundKindView::Unknown(*m),
        }
    }
}

impl View for Outbound {
    type V = OutboundView;

    open spec fn view(&self) -> OutboundView {
        OutboundView { tag: self.tag@, kind: self.kind@ }
    }
}

impl Outbound {
    pub fn new(tag: String, kind: OutboundKind) -> (r: Self)
        ensures
            r.tag == tag,
            r.kind == kind,
    {
        Self { tag, kind }
    }
}

impl OutboundKind {
    /// The `type` that sing-box knows this outbound by, where it has one.
    pub fn kind_name(&self) -> (r: Option<&str>)
        ensures
            r matches Some(s) ==> self@.kind_name() == Some(s@),
            r is None ==> self@.kind_name() is None,
    {
        match self {
            OutboundKind::Selector(_) => Some("selector"),
            OutboundKind::UrlTest(_) => Some("urltest"),
            OutboundKind::Unknown(m) => match json_get(m, "type") {
                Some(v) => json_value_as_str(v),
                None => None,
            },
        }
    }
}

impl Clone for Selector {
    fn clone(&self) -> (r: Self)
        ensures
            strings_view(r.outbounds@) == strings_view(self.outbounds@),
            r.extra == self.extra,
    {
        Selector { outbounds: clone_strings(&self.outbounds), extra: self.extra.clone() }
    }
}

impl Clone for UrlTest {
    fn clone(&self) -> (r: Self)
        ensures
            strings_view(r.outbounds@) == strings_view(self.outbounds@),
            r.extra == self.extra,
    {
        UrlTest { outbounds: clone_strings(&self.outbounds), extra: self.extra.clone() }
    }
}

impl Clone for OutboundKind {
    fn clone(&self) -> (r: Self)
        ensures
            r@ == self@,
    {
        match self {
            OutboundKind::Selector(s) => OutboundKind::Selector(s.clone()),
            OutboundKind::UrlTest(u) => OutboundKind::UrlTest(u.clone()),
            OutboundKind::Unknown(m) => OutboundKind::Unknown(m.clone()),
        }
    }
}

impl Clone for Outbound {
    fn clone(&self) -> (r: Self)
        ensures
            r@ == self@,
    {
        Outbound { tag: self.tag.clone(), kind: self.kind.clone() }
    }
}

/// Law: sing-box knows a selector by the type `selector`, a URL test by
/// `urltest`, and any other outbound by the string under its `type` key,
/// where that is a string.
pub proof fn law_kind_name(k: OutboundKindView)
    ensures
        k is Selector ==> k.kind_name() == Some("selector"@),
        k is UrlTest ==> k.kind_name() == Some("urltest"@),
        match k {
            OutboundKindView::Unknown(m) => k.kind_name() == (match json_field(m, "type"@) {
                Some(v) => json_as_str(v),
                None => None,
            }),
            _ => true,
        },
{
}

/// Law: appending tags to a selector or URL test appends them after the
/// outbounds it lists, keeping its kind and other fields; any other kind of
/// outbound is left as it is; appending twice appends both lists in turn.
pub proof fn law_extended(k: OutboundKindView, t1: Seq<Seq<char>>, t2: Seq<Seq<char>>)
    ensures
        match k {
            OutboundKindView::Selector { outbounds, extra } => k.extended(t1) == (OutboundKindView::Selector {
                outbounds: outbounds + t1,
                extra,
            }),
            OutboundKindView::UrlTest { outbounds, extra } => k.extended(t1) == (OutboundKindView::UrlTest {
                outbounds: outbounds + t1,
                extra,
            }),
            OutboundKindView::Unknown(_) => k.extended(t1) == k,
        },
        k.extended(t1).extended(t2) == k.extended(t1 + t2),
        k.extended(t1).is_group() == k.is_group(),
{
    match k {
        OutboundKindView::Selector { outbounds, extra } => {
            assert(outbounds + t1 + t2 =~= outbounds + (t1 + t2));
        },
        OutboundKindView::UrlTest { outbounds, extra } => {
            assert(outbounds + t1 + t2 =~= outbounds + (t1 + t2));
        },
        OutboundKindView::Unknown(_) => {},
    }
}

} // verus!
