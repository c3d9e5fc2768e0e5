//! Loading of providers.

pub mod lazy;

use vstd::prelude::*;

use crate::sing_box;

verus! {

/// Something that loads providers by tag.
pub trait LoadProvider {
    type Error;

    /// Loads a provider, returning its configuration.
    fn load_provider(&self, tag: &str) -> Result<&sing_box::Config, Self::Error>;
}

} // verus!
