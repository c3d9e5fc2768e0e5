//! Providers: where outbounds come from, and the actions applied to them.

use std::path::PathBuf;

use vstd::prelude::*;

use super::action::Action;

verus! {

/// A provider: where its outbounds come from, and the actions applied to
/// them in order.
#[derive(Debug, Clone, PartialEq, Eq)]
pub struct Provider {
    pub kind: ProviderKind,
    pub actions: Vec<Action>,
}

/// Where the outbounds of a provider come from.
#[derive(Debug, Clone, PartialEq, Eq)]
pub enum ProviderKind {
    /// A sing-box configuration file.
    Path(PathBuf),
    /// A sing-box configuration served at a URL.
    Url(String),
    /// The output of another provider, which must not itself be a `Ref`.
    Ref(String),
}

} // verus!
