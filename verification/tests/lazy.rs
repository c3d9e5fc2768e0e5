use std::collections::HashMap;
use std::path::PathBuf;

use serde_json::Value;
use sing_config::load::lazy::{
    apply_actions, derive_from_source, resolve_source, LoadProviderError, Source,
};
use sing_config::sing_box;
use sing_config::sing_box::outbound::{Outbound, OutboundKind};
use sing_config::sing_config::action::{Filter, OutboundField};
use sing_config::sing_config::{Action, Provider, ProviderKind};

fn ref_provider(tag: &str) -> Provider {
    Provider {
        kind: ProviderKind::Ref(tag.to_string()),
        actions: vec![],
    }
}

#[test]
fn self_ref_should_error() {
    let providers = HashMap::from([("a".to_string(), ref_provider("a"))]);

    let err = resolve_source(providers.get("a"), "a", false).unwrap_err();
    assert!(matches!(err, LoadProviderError::SelfRef));
}

#[test]
fn nested_ref_should_error() {
    let providers = HashMap::from([
        ("a".to_string(), ref_provider("b")),
        ("b".to_string(), ref_provider("c")),
    ]);

    // Loading "a" follows its reference to "b"; "b" is loaded on behalf of a
    // reference, and its own reference is refused.
    let next = match resolve_source(providers.get("a"), "a", false).unwrap() {
        Source::Ref(next) => next.clone(),
        other => panic!("expected a reference, got {:?}", other),
    };
    let err = resolve_source(providers.get(next.as_str()), &next, true).unwrap_err();
    assert!(matches!(err, LoadProviderError::NestedRef(tag) if tag == "b"));
}

#[test]
fn missing_provider_is_not_found() {
    let providers: HashMap<String, Provider> = HashMap::new();
    let err = resolve_source(providers.get("x"), "x", false).unwrap_err();
    assert!(matches!(err, LoadProviderError::NotFound));
}

#[test]
fn path_and_url_sources() {
    let path = Provider { kind: ProviderKind::Path(PathBuf::from("external.json")), actions: vec![] };
    match resolve_source(Some(&path), "p", true).unwrap() {
        Source::Path(p) => assert_eq!(p, &PathBuf::from("external.json")),
        other => panic!("expected a path, got {:?}", other),
    }
    let url = Provider {
        kind: ProviderKind::Url("https://example.com/external.json".to_string()),
        actions: vec![],
    };
    match resolve_source(Some(&url), "u", false).unwrap() {
        Source::Url(u) => assert_eq!(u, "https://example.com/external.json"),
        other => panic!("expected a URL, got {:?}", other),
    }
}

#[test]
fn reference_to_another_provider_resolves() {
    let provider = ref_provider("external");
    match resolve_source(Some(&provider), "allow", false).unwrap() {
        Source::Ref(t) => assert_eq!(t, "external"),
        other => panic!("expected a reference, got {:?}", other),
    }
}

fn unknown(tag: &str, kind: &str) -> Outbound {
    Outbound::new(
        tag.to_string(),
        OutboundKind::Unknown(serde_json::Map::from_iter([("type".to_string(), Value::String(kind.into()))])),
    )
}

fn config() -> sing_box::Config {
    sing_box::Config {
        outbounds: vec![
            unknown("EXT-DIRECT-01", "direct"),
            unknown("EXT-BLOCK-01", "block"),
            unknown("ext-direct-02", "direct"),
        ],
        extra: serde_json::Map::from_iter([("log".to_string(), Value::Bool(true))]),
    }
}

fn filter(field: OutboundField, regex: &str) -> Filter {
    Filter { field, regex: regex.to_string() }
}

#[test]
fn actions_apply_in_order() {
    let actions = vec![
        Action::Include(filter(OutboundField::Tag, "(?i:direct)")),
        Action::Exclude(filter(OutboundField::Tag, "02")),
    ];
    let result = apply_actions(config(), &actions).expect("actions apply");
    let tags: Vec<&str> = result.outbounds.iter().map(|o| o.tag.as_str()).collect();
    assert_eq!(tags, vec!["EXT-DIRECT-01"]);
    assert_eq!(result.extra, config().extra);
}

#[test]
fn readme_action_chain() {
    let actions = vec![
        Action::Include(filter(OutboundField::Tag, "(?i:direct)")),
        Action::Exclude(filter(OutboundField::Tag, "block")),
        Action::Include(filter(OutboundField::Type, "^(direct|block)$")),
        Action::Exclude(filter(OutboundField::Type, "^block$")),
    ];
    let result = apply_actions(config(), &actions).expect("actions apply");
    let tags: Vec<&str> = result.outbounds.iter().map(|o| o.tag.as_str()).collect();
    assert_eq!(tags, vec!["EXT-DIRECT-01", "ext-direct-02"]);
}

#[test]
fn failing_action_is_named() {
    let bad = Action::Exclude(filter(OutboundField::Tag, "foo("));
    let actions = vec![
        Action::Include(filter(OutboundField::Tag, "EXT")),
        bad.clone(),
        Action::Include(filter(OutboundField::Tag, "also(")),
    ];
    match apply_actions(config(), &actions) {
        Err(LoadProviderError::ApplyAction { action, .. }) => assert_eq!(action, bad),
        other => panic!("expected the second action to fail, got {:?}", other),
    }
}

#[test]
fn no_actions_keep_everything() {
    let result = apply_actions(config(), &vec![]).expect("nothing to apply");
    assert_eq!(result, config());
}

#[test]
fn action_lists_compose() {
    let first = vec![Action::Include(filter(OutboundField::Tag, "(?i:direct)"))];
    let second = vec![Action::Include(filter(OutboundField::Type, "direct"))];
    let both: Vec<Action> = first.iter().chain(second.iter()).cloned().collect();
    let stepwise = apply_actions(apply_actions(config(), &first).unwrap(), &second).unwrap();
    let at_once = apply_actions(config(), &both).unwrap();
    assert_eq!(stepwise, at_once);
    assert_eq!(at_once.outbounds.len(), 2);
}

#[test]
fn derived_provider_applies_its_actions_to_the_source_output() {
    // README: `allow` refers to `external` and keeps the direct outbounds.
    let external_actions = vec![Action::Exclude(filter(OutboundField::Tag, "02"))];
    let allow_actions = vec![Action::Include(filter(OutboundField::Tag, "(?i:direct)"))];
    let external = apply_actions(config(), &external_actions).unwrap();
    let allow = derive_from_source(&external, &allow_actions).unwrap();
    let tags: Vec<&str> = allow.outbounds.iter().map(|o| o.tag.as_str()).collect();
    assert_eq!(tags, vec!["EXT-DIRECT-01"]);
    // The source is left as it was.
    assert_eq!(external.outbounds.len(), 2);
    let both: Vec<Action> = external_actions.iter().chain(allow_actions.iter()).cloned().collect();
    assert_eq!(allow, apply_actions(config(), &both).unwrap());
}

#[test]
fn derived_provider_names_its_failing_action() {
    let bad = Action::Include(filter(OutboundField::Type, "(("));
    match derive_from_source(&config(), &vec![bad.clone()]) {
        Err(LoadProviderError::ApplyAction { action, .. }) => assert_eq!(action, bad),
        other => panic!("expected the action to fail, got {:?}", other),
    }
}
