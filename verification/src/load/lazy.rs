//! The decisions of a provider loader that loads each provider on first use:
//! which source a provider's outbounds come from, which references are
//! refused, and the actions applied, in order, to what was fetched.

use std::path::PathBuf;

use vstd::prelude::*;

use crate::sing_box::outbound::OutboundView;
use crate::sing_box::Config;
use crate::sing_config::action::{regex_compiles, ApplyActionError};
use crate::sing_config::{Action, Provider, ProviderKind};

verus! {

/// Why a provider could not be loaded.
#[derive(Debug)]
pub enum LoadProviderError {
    /// No provider has the tag.
    NotFound,
    /// The provider's file could not be read.
    ReadFile(std::io::Error),
    /// The provider's content is not a sing-box configuration.
    Parse(serde_json::Error),
    /// The provider refers to itself.
    SelfRef,
    /// The provider refers to the provider with this tag, which is a
    /// reference itself.
    NestedRef(String),
    /// An action of the provider could not be applied.
    ApplyAction { source: ApplyActionError, action: Action },
    /// The provider's URL could not be fetched.
    Request(ureq::Error),
}

/// Where the outbounds of a provider come from.
#[derive(Debug)]
pub enum Source<'a> {
    /// A sing-box configuration file to read.
    Path(&'a PathBuf),
    /// A sing-box configuration to fetch from a URL.
    Url(&'a String),
    /// The output of another provider, to load and copy.
    Ref(&'a String),
}

/// Decides where the outbounds of the provider `tag` come from. `provider`
/// is what the loader holds under `tag`; `is_from_ref` says that another
/// provider refers to this one. A reference may only point at a provider
/// that is not a reference itself, and never at itself.
pub fn resolve_source<'a>(provider: Option<&'a Provider>, tag: &str, is_from_ref: bool) -> (r:
    Result<Source<'a>, LoadProviderError>)
    ensures
        provider is None ==> r matches Err(LoadProviderError::NotFound),
        provider matches Some(p) ==> match p.kind {
            ProviderKind::Path(path) => r matches Ok(Source::Path(q)) && *q == path,
            ProviderKind::Url(url) => r matches Ok(Source::Url(q)) && *q == url,
            ProviderKind::Ref(ref_tag) => if is_from_ref {
                r matches Err(LoadProviderError::NestedRef(t)) && t@ == tag@
            } else if ref_tag@ == tag@ {
                r matches Err(LoadProviderError::SelfRef)
            } else {
                r matches Ok(Source::Ref(q)) && *q == ref_tag
            },
        },
{
    let provider = match provider {
        Some(p) => p,
        None => return Err(LoadProviderError::NotFound),
    };
    match &provider.kind {
        ProviderKind::Path(path) => Ok(Source::Path(path)),
        ProviderKind::Url(url) => Ok(Source::Url(url)),
        ProviderKind::Ref(ref_tag) => {
            if is_from_ref {
                return Err(LoadProviderError::NestedRef(tag.to_owned()));
            }
            let own = tag.to_owned();
            if *ref_tag == own {
                return Err(LoadProviderError::SelfRef);
            }
            Ok(Source::Ref(ref_tag))
        },
    }
}

/// The outbounds left after applying the actions, in order.
pub open spec fn apply_all(actions: Seq<Action>, os: Seq<OutboundView>) -> Seq<OutboundView>
    decreases actions.len(),
{
    if actions.len() == 0 {
        os
    } else {
        actions.last().kept(apply_all(actions.drop_last(), os))
    }
}

/// The position of the first action whose regex does not compile.
pub open spec fn first_failing(actions: Seq<Action>) -> Option<int>
    decreases actions.len(),
{
    if actions.len() == 0 {
        None
    } else {
        match first_failing(actions.drop_last()) {
            Some(j) => Some(j),
            None => if !regex_compiles(actions.last().filter().regex@) {
                Some(actions.len() - 1)
            } else {
                None
            },
        }
    }
}

/// A failing action within a prefix is the first failing action of all.
proof fn lemma_first_failing_prefix(actions: Seq<Action>, n: int)
    requires
        0 <= n <= actions.len(),
        first_failing(actions.take(n)) is Some,
    ensures
        first_failing(actions) == first_failing(actions.take(n)),
    decreases actions.len(),
{
    if n == actions.len() {
        assert(actions.take(n) =~= actions);
    } else {
        assert(actions.drop_last().take(n) =~= actions.take(n));
        lemma_first_failing_prefix(actions.drop_last(), n);
    }
}

/// Applies the provider's actions, in order, to the outbounds of what was
/// fetched for it; the other fields stay as they are. Fails at the first
/// action whose regex does not compile, naming that action.
pub fn apply_actions(config: Config, actions: &Vec<Action>) -> (r: Result<Config, LoadProviderError>)
    ensures
        first_failing(actions@) is None ==> (r matches Ok(c) && c.outbounds_view() == apply_all(
            actions@,
            config.outbounds_view(),
        ) && c.extra == config.extra),
        first_failing(actions@) matches Some(j) ==> (r matches Err(
            LoadProviderError::ApplyAction { action, .. },
        ) && action == actions@[j]),
{
    let ghost os = config.outbounds_view();
    let Config { outbounds, extra } = config;
    let mut outbounds = outbounds;
    let n = actions.len();
    let mut j: usize = 0;
    while j < n
        invariant
            n == actions.len(),
            j <= n,
            first_failing(actions@.take(j as int)) is None,
            crate::sing_box::outbounds_view(outbounds@) == apply_all(actions@.take(j as int), os),
        decreases n - j,
    {
        let action = &actions[j];
        proof {
            assert(actions@.take(j + 1).drop_last() =~= actions@.take(j as int));
            assert(actions@.take(j + 1).last() == *action);
        }
        outbounds = match action.apply(outbounds) {
            Ok(kept) => kept,
            Err(source) => {
                proof {
                    lemma_first_failing_prefix(actions@, j + 1);
                }
                return Err(LoadProviderError::ApplyAction { source, action: action.clone() });
            },
        };
        j += 1;
    }
    proof {
        assert(actions@.take(n as int) =~= actions@);
    }
    Ok(Config { outbounds, extra })
}

/// The output of a provider that refers to another one: the other
/// provider's output, copied, with this provider's actions applied in
/// order. Fails at the first action whose regex does not compile, naming
/// that action. Since the other provider's output is its own actions
/// applied to what was fetched for it, the result is both lists of actions
/// applied in turn (see [`law_actions_compose`]).
pub fn derive_from_source(source: &Config, actions: &Vec<Action>) -> (r: Result<Config, LoadProviderError>)
    ensures
        first_failing(actions@) is None ==> (r matches Ok(c) && c.outbounds_view() == apply_all(
            actions@,
            source.outbounds_view(),
        ) && c.extra == source.extra),
        first_failing(actions@) matches Some(j) ==> (r matches Err(
            LoadProviderError::ApplyAction { action, .. },
        ) && action == actions@[j]),
{
    apply_actions(source.clone(), actions)
}

/// Law: a chain of one action is that action, and each action of a chain
/// acts on what the actions before it left, whatever field its filter
/// looks at.
pub proof fn law_action_chain_steps(actions: Seq<Action>, a: Action, os: Seq<OutboundView>)
    ensures
        apply_all(seq![a], os) == a.kept(os),
        apply_all(actions.push(a), os) == a.kept(apply_all(actions, os)),
        apply_all(Seq::empty(), os) == os,
{
    assert(seq![a].drop_last() =~= Seq::<Action>::empty());
    assert(seq![a].last() == a);
    assert(apply_all(seq![a].drop_last(), os) == os);
    assert(actions.push(a).drop_last() =~= actions);
}

/// Law: applying one list of actions and then another is applying the two
/// lists one after the other; so a provider that refers to another one
/// gives what the other's actions and then its own leave of the source.
pub proof fn law_actions_compose(first: Seq<Action>, second: Seq<Action>, os: Seq<OutboundView>)
    ensures
        apply_all(first + second, os) == apply_all(second, apply_all(first, os)),
    decreases second.len(),
{
    if second.len() == 0 {
        assert(first + second =~= first);
    } else {
        law_actions_compose(first, second.drop_last(), os);
        assert((first + second).drop_last() =~= first + second.drop_last());
    }
}

} // verus!
