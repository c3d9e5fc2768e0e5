use std::collections::HashMap;

use serde_json::Value;
use sing_config::convert::{consume_provider, convert_outbounds, expand_provider, ConvertOutboundsError};
use sing_config::load::LoadProvider;
use sing_config::sing_box;
use sing_config::sing_box::outbound::{Outbound as SingBoxOutbound, OutboundKind as SingBoxOutboundKind};
use sing_config::sing_config::outbound::{
    Outbound as SingConfigOutbound, OutboundKind as SingConfigOutboundKind,
    Selector as SingConfigSelector, UrlTest as SingConfigUrlTest,
};

struct MockLoader {
    map: HashMap<String, sing_box::Config>,
}

impl MockLoader {
    fn new() -> Self {
        Self { map: HashMap::new() }
    }

    fn add_provider(&mut self, tag: impl Into<String>, outbounds: Vec<SingBoxOutbound>) {
        self.map.insert(
            tag.into(),
            sing_box::Config {
                outbounds,
                extra: serde_json::Map::new(),
            },
        );
    }
}

impl LoadProvider for MockLoader {
    type Error = LoadProviderError;

    fn load_provider(&self, tag: &str) -> Result<&sing_box::Config, Self::Error> {
        self.map.get(tag).ok_or(LoadProviderError)
    }
}

#[derive(Debug)]
struct LoadProviderError;

fn sing_box_unknown_outbound(
    tag: impl Into<String>,
    key: impl Into<String>,
    value: impl Into<String>,
) -> SingBoxOutbound {
    SingBoxOutbound::new(
        tag.into(),
        SingBoxOutboundKind::Unknown(serde_json::Map::from_iter([(key.into(), Value::String(value.into()))])),
    )
}

#[test]
fn expand_selector() {
    let mut loader = MockLoader::new();
    let provider_outbound_1 = sing_box_unknown_outbound("p1_out1", "foo", "bar");
    let provider_outbound_2 = sing_box_unknown_outbound("p1_out2", "bar", "foo");
    loader.add_provider(
        "provider1",
        vec![provider_outbound_1.clone(), provider_outbound_2.clone()],
    );

    let selector = SingConfigSelector {
        outbounds: vec!["existing_outbound".to_string()],
        outbound_providers: vec!["provider1".to_string()],
        extra: serde_json::Map::new(),
    };
    let input = vec![SingConfigOutbound {
        tag: "selector1".to_string(),
        kind: SingConfigOutboundKind::Selector(selector),
    }];
    let output = convert_outbounds(input, &loader).expect("conversion should succeed");

    // Verify "selector1" is present and expanded
    match &output["selector1"].kind {
        SingBoxOutboundKind::Selector(s) => assert_eq!(
            s.outbounds.as_slice(),
            &[
                "existing_outbound",
                &provider_outbound_1.tag,
                &provider_outbound_2.tag
            ]
        ),
        _ => panic!("selector1 should be a selector"),
    }

    // Verify provider outbounds are present and match exactly
    assert_eq!(
        output.get(&provider_outbound_1.tag),
        Some(&provider_outbound_1)
    );
    assert_eq!(
        output.get(&provider_outbound_2.tag),
        Some(&provider_outbound_2)
    );
}

#[test]
fn expand_url_test() {
    let mut loader = MockLoader::new();
    let provider_outbound_1 = sing_box_unknown_outbound("p1_out1", "foo", "bar");
    let provider_outbound_2 = sing_box_unknown_outbound("p1_out2", "bar", "foo");
    loader.add_provider(
        "provider1",
        vec![provider_outbound_1.clone(), provider_outbound_2.clone()],
    );

    let url_test = SingConfigUrlTest {
        outbounds: vec!["existing_outbound".to_string()],
        outbound_providers: vec!["provider1".to_string()],
        extra: serde_json::Map::new(),
    };
    let input = vec![SingConfigOutbound {
        tag: "url_test1".to_string(),
        kind: SingConfigOutboundKind::UrlTest(url_test),
    }];
    let output = convert_outbounds(input, &loader).expect("conversion should succeed");

    // Verify "url_test1" is present and expanded
    match &output["url_test1"].kind {
        SingBoxOutboundKind::UrlTest(u) => assert_eq!(
            u.outbounds.as_slice(),
            &[
                "existing_outbound",
                &provider_outbound_1.tag,
                &provider_outbound_2.tag
            ]
        ),
        _ => panic!("url_test1 should be a UrlTest"),
    }

    // Verify provider outbounds are present and match exactly
    assert_eq!(
        output.get(&provider_outbound_1.tag),
        Some(&provider_outbound_1)
    );
    assert_eq!(
        output.get(&provider_outbound_2.tag),
        Some(&provider_outbound_2)
    );
}

#[test]
fn unknown_pass_through() {
    let loader = MockLoader::new();

    let unknown_map = serde_json::Map::from_iter([
        ("foo".to_string(), Value::String("bar".into())),
        ("bar".to_string(), Value::String("foo".into())),
    ]);
    let input = vec![SingConfigOutbound {
        tag: "unknown1".to_string(),
        kind: SingConfigOutboundKind::Unknown(unknown_map.clone()),
    }];
    let output = convert_outbounds(input, &loader).expect("conversion should succeed");

    let expected = SingBoxOutbound {
        tag: "unknown1".to_string(),
        kind: SingBoxOutboundKind::Unknown(unknown_map),
    };
    assert_eq!(output.get("unknown1"), Some(&expected));
}

#[test]
fn inner_tag_conflict() {
    let loader = MockLoader::new();
    let input = vec![
        SingConfigOutbound {
            tag: "tag1".to_string(),
            kind: SingConfigOutboundKind::Unknown(serde_json::Map::new()),
        },
        SingConfigOutbound {
            tag: "tag1".to_string(),
            kind: SingConfigOutboundKind::Unknown(serde_json::Map::new()),
        },
    ];

    let err = convert_outbounds(input, &loader).unwrap_err();
    assert!(matches!(
        err,
        ConvertOutboundsError::InputTagConflict { tag } if tag == "tag1"
    ));
}

#[test]
fn provider_tag_conflict() {
    let mut loader = MockLoader::new();
    let provider_outbound = sing_box_unknown_outbound("conflict_tag", "foo", "bar");
    loader.add_provider("provider1", vec![provider_outbound]);

    let input = vec![
        SingConfigOutbound {
            tag: "conflict_tag".to_string(),
            kind: SingConfigOutboundKind::Unknown(serde_json::Map::new()),
        },
        SingConfigOutbound {
            tag: "selector1".to_string(),
            kind: SingConfigOutboundKind::Selector(SingConfigSelector {
                outbounds: vec![],
                outbound_providers: vec!["provider1".to_string()],
                extra: serde_json::Map::new(),
            }),
        },
    ];

    let err = convert_outbounds(input, &loader).unwrap_err();
    match err {
        ConvertOutboundsError::ProviderTagConflict { tag, from } => {
            assert_eq!(tag, "conflict_tag");
            assert_eq!(from, "provider1");
        }
        _ => panic!("Expected ProviderTagConflict, got {:?}", err),
    }
}

#[test]
fn keep_input_order_and_inputs_are_first() {
    let mut loader = MockLoader::new();
    let provider_outbound_1 = sing_box_unknown_outbound("p1_out1", "foo", "bar");
    let provider_outbound_2 = sing_box_unknown_outbound("p1_out2", "bar", "foo");
    loader.add_provider(
        "provider1",
        vec![provider_outbound_1.clone(), provider_outbound_2.clone()],
    );

    let input = vec![
        SingConfigOutbound {
            tag: "first_selector".to_string(),
            kind: SingConfigOutboundKind::Selector(SingConfigSelector {
                outbounds: vec!["direct_1".to_string()],
                outbound_providers: vec!["provider1".to_string()],
                extra: serde_json::Map::new(),
            }),
        },
        SingConfigOutbound {
            tag: "second_unknown".to_string(),
            kind: SingConfigOutboundKind::Unknown(serde_json::Map::new()),
        },
        SingConfigOutbound {
            tag: "third_url_test".to_string(),
            kind: SingConfigOutboundKind::UrlTest(SingConfigUrlTest {
                outbounds: vec!["direct_2".to_string()],
                outbound_providers: vec![],
                extra: serde_json::Map::new(),
            }),
        },
    ];

    let output = convert_outbounds(input, &loader).expect("conversion should succeed");
    let output_tags: Vec<&str> = output.keys().map(String::as_str).collect();
    assert_eq!(
        output_tags,
        vec![
            "first_selector",
            "second_unknown",
            "third_url_test",
            "p1_out1",
            "p1_out2"
        ]
    );
}

fn selector_outbound(tag: &str, outbounds: &[&str], providers: &[&str]) -> SingConfigOutbound {
    SingConfigOutbound::new(
        tag.to_string(),
        SingConfigOutboundKind::Selector(SingConfigSelector {
            outbounds: outbounds.iter().map(|s| s.to_string()).collect(),
            outbound_providers: providers.iter().map(|s| s.to_string()).collect(),
            extra: serde_json::Map::new(),
        }),
    )
}

fn listed(output: &indexmap::IndexMap<String, SingBoxOutbound>, tag: &str) -> Vec<String> {
    match &output[tag].kind {
        SingBoxOutboundKind::Selector(s) => s.outbounds.clone(),
        SingBoxOutboundKind::UrlTest(u) => u.outbounds.clone(),
        SingBoxOutboundKind::Unknown(_) => panic!("{tag} lists no outbounds"),
    }
}

#[test]
fn readme_example_expands_into_both_groups() {
    let mut loader = MockLoader::new();
    let ext_direct = sing_box_unknown_outbound("EXT-DIRECT-01", "type", "direct");
    let ext_block = sing_box_unknown_outbound("EXT-BLOCK-01", "type", "block");
    loader.add_provider("external", vec![ext_direct.clone(), ext_block.clone()]);

    let input = vec![
        SingConfigOutbound::new(
            "Auto".to_string(),
            SingConfigOutboundKind::UrlTest(SingConfigUrlTest {
                outbounds: vec![],
                outbound_providers: vec!["external".to_string()],
                extra: serde_json::Map::new(),
            }),
        ),
        selector_outbound("Select", &["LOCAL-DIRECT"], &["external"]),
        SingConfigOutbound::new(
            "LOCAL-DIRECT".to_string(),
            SingConfigOutboundKind::Unknown(serde_json::Map::from_iter([(
                "type".to_string(),
                Value::String("direct".into()),
            )])),
        ),
    ];
    let output = convert_outbounds(input, &loader).expect("conversion should succeed");
    let tags: Vec<&str> = output.keys().map(String::as_str).collect();
    assert_eq!(tags, vec!["Auto", "Select", "LOCAL-DIRECT", "EXT-DIRECT-01", "EXT-BLOCK-01"]);
    assert_eq!(listed(&output, "Auto"), vec!["EXT-DIRECT-01", "EXT-BLOCK-01"]);
    assert_eq!(
        listed(&output, "Select"),
        vec!["LOCAL-DIRECT", "EXT-DIRECT-01", "EXT-BLOCK-01"]
    );
    assert_eq!(output.get("EXT-BLOCK-01"), Some(&ext_block));
}

#[test]
fn missing_provider_is_a_load_error() {
    let loader = MockLoader::new();
    let input = vec![selector_outbound("s", &[], &["nowhere"])];
    let err = convert_outbounds(input, &loader).unwrap_err();
    assert!(matches!(err, ConvertOutboundsError::LoadProvider { tag, .. } if tag == "nowhere"));
}

#[test]
fn input_conflict_is_found_before_any_load() {
    // The provider is missing too; the repeated tag is reported first.
    let loader = MockLoader::new();
    let input = vec![
        selector_outbound("a", &[], &["nowhere"]),
        selector_outbound("b", &[], &[]),
        selector_outbound("a", &[], &[]),
    ];
    let err = convert_outbounds(input, &loader).unwrap_err();
    assert!(matches!(err, ConvertOutboundsError::InputTagConflict { tag } if tag == "a"));
}

#[test]
fn two_providers_conflicting_with_each_other() {
    let mut loader = MockLoader::new();
    loader.add_provider("p1", vec![sing_box_unknown_outbound("same", "k", "1")]);
    loader.add_provider("p2", vec![sing_box_unknown_outbound("same", "k", "2")]);
    let input = vec![selector_outbound("s", &[], &["p1", "p2"])];
    let err = convert_outbounds(input, &loader).unwrap_err();
    match err {
        ConvertOutboundsError::ProviderTagConflict { tag, from } => {
            assert_eq!(tag, "same");
            assert_eq!(from, "p2");
        }
        _ => panic!("Expected ProviderTagConflict, got {:?}", err),
    }
}

#[test]
fn provider_named_twice_is_appended_twice() {
    let mut loader = MockLoader::new();
    loader.add_provider("p", vec![sing_box_unknown_outbound("x", "k", "v")]);
    let input = vec![
        selector_outbound("s1", &["own"], &["p", "p"]),
        selector_outbound("s2", &[], &["p"]),
    ];
    let output = convert_outbounds(input, &loader).expect("conversion should succeed");
    assert_eq!(listed(&output, "s1"), vec!["own", "x", "x"]);
    assert_eq!(listed(&output, "s2"), vec!["x"]);
    let tags: Vec<&str> = output.keys().map(String::as_str).collect();
    assert_eq!(tags, vec!["s1", "s2", "x"]);
}

#[test]
fn providers_expand_in_order_first_named() {
    let mut loader = MockLoader::new();
    loader.add_provider("p1", vec![sing_box_unknown_outbound("a", "k", "v")]);
    loader.add_provider("p2", vec![sing_box_unknown_outbound("b", "k", "v")]);
    let input = vec![
        selector_outbound("s1", &[], &["p1"]),
        selector_outbound("s2", &[], &["p2", "p1"]),
    ];
    let output = convert_outbounds(input, &loader).expect("conversion should succeed");
    let tags: Vec<&str> = output.keys().map(String::as_str).collect();
    assert_eq!(tags, vec!["s1", "s2", "a", "b"]);
    // p1 was named first, so its outbounds come first in every list.
    assert_eq!(listed(&output, "s2"), vec!["a", "b"]);
}

#[test]
fn consume_provider_appends_tags() {
    let config = sing_box::Config {
        outbounds: vec![
            sing_box_unknown_outbound("t1", "k", "v"),
            sing_box_unknown_outbound("t2", "k", "v"),
        ],
        extra: serde_json::Map::new(),
    };
    let mut outbound = SingBoxOutbound::new(
        "sel".to_string(),
        SingBoxOutboundKind::Selector(sing_box::Selector {
            outbounds: vec!["own".to_string()],
            extra: serde_json::Map::new(),
        }),
    );
    consume_provider(&mut outbound, &config);
    match &outbound.kind {
        SingBoxOutboundKind::Selector(s) => assert_eq!(s.outbounds, vec!["own", "t1", "t2"]),
        _ => panic!("still a selector"),
    }
    assert_eq!(outbound.tag, "sel");
}

#[test]
fn expand_provider_merges_and_reports_conflicts() {
    let config = sing_box::Config {
        outbounds: vec![sing_box_unknown_outbound("n", "k", "v")],
        extra: serde_json::Map::new(),
    };
    let mut map = indexmap::IndexMap::new();
    map.insert(
        "g".to_string(),
        SingBoxOutbound::new(
            "g".to_string(),
            SingBoxOutboundKind::UrlTest(sing_box::UrlTest { outbounds: vec![], extra: serde_json::Map::new() }),
        ),
    );
    let result: Result<(), ConvertOutboundsError<()>> =
        expand_provider(&mut map, &"p".to_string(), &vec!["g".to_string()], &config);
    assert!(result.is_ok());
    assert_eq!(map.len(), 2);
    assert_eq!(listed(&map, "g"), vec!["n"]);

    let again: Result<(), ConvertOutboundsError<()>> =
        expand_provider(&mut map, &"q".to_string(), &vec!["g".to_string()], &config);
    assert!(matches!(
        again,
        Err(ConvertOutboundsError::ProviderTagConflict { tag, from }) if tag == "n" && from == "q"
    ));
    assert_eq!(listed(&map, "g"), vec!["n"]);
}

#[test]
fn provider_groups_pass_unchanged() {
    let mut loader = MockLoader::new();
    let inner = SingBoxOutbound::new(
        "inner".to_string(),
        SingBoxOutboundKind::Selector(sing_box::Selector {
            outbounds: vec!["x".to_string()],
            extra: serde_json::Map::new(),
        }),
    );
    loader.add_provider("p", vec![inner.clone()]);
    let input = vec![selector_outbound("outer", &["own"], &["p"])];
    let output = convert_outbounds(input, &loader).expect("conversion should succeed");
    assert_eq!(output.get("inner"), Some(&inner));
    assert_eq!(listed(&output, "outer"), vec!["own", "inner"]);
}
