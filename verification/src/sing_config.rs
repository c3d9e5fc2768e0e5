//! The sing-config side of the conversion: the configuration as it is
//! written, with providers and outbounds that refer to them.

pub mod action;
pub mod outbound;
pub mod provider;

pub use action::Action;
pub use outbound::{Outbound, OutboundKind, Selector, UrlTest};
pub use provider::{Provider, ProviderKind};

use std::collections::HashMap;

use vstd::prelude::*;

use crate::foreign::JsonObject;

verus! {

/// A sing-config configuration: providers by tag, outbounds, and every
/// other field as it is.
#[derive(Debug, Clone, PartialEq, Eq)]
pub struct Config {
    pub providers: HashMap<String, Provider>,
    pub outbounds: Vec<Outbound>,
    pub extra: JsonObject,
}

} // verus!
