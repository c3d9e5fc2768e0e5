use serde_json::Value;
use sing_config::sing_box::outbound::{Outbound, OutboundKind, Selector, UrlTest};
use sing_config::sing_config::action::{Filter, OutboundField};
use sing_config::sing_config::Action;

fn unknown(tag: &str, kind: Option<&str>) -> Outbound {
    let mut map = serde_json::Map::new();
    if let Some(kind) = kind {
        map.insert("type".to_string(), Value::String(kind.to_string()));
    }
    Outbound::new(tag.to_string(), OutboundKind::Unknown(map))
}

fn outbounds() -> Vec<Outbound> {
    vec![
        unknown("HK-01", Some("vmess")),
        unknown("US-01", Some("trojan")),
        Outbound::new(
            "pick".to_string(),
            OutboundKind::Selector(Selector { outbounds: vec![], extra: serde_json::Map::new() }),
        ),
        Outbound::new(
            "auto".to_string(),
            OutboundKind::UrlTest(UrlTest { outbounds: vec![], extra: serde_json::Map::new() }),
        ),
        unknown("odd", None),
        unknown("num", Some("7")),
    ]
}

fn tags(v: &[Outbound]) -> Vec<&str> {
    v.iter().map(|o| o.tag.as_str()).collect()
}

fn action(keep: bool, field: OutboundField, regex: &str) -> Action {
    let filter = Filter { field, regex: regex.to_string() };
    if keep {
        Action::Include(filter)
    } else {
        Action::Exclude(filter)
    }
}

#[test]
fn include_by_tag() {
    let kept = action(true, OutboundField::Tag, "^HK").apply(outbounds()).unwrap();
    assert_eq!(tags(&kept), vec!["HK-01"]);
}

#[test]
fn exclude_by_tag() {
    let kept = action(false, OutboundField::Tag, "-01$").apply(outbounds()).unwrap();
    assert_eq!(tags(&kept), vec!["pick", "auto", "odd", "num"]);
}

#[test]
fn type_names_of_groups_and_unknowns() {
    let kept = action(true, OutboundField::Type, "^(selector|urltest|trojan)$")
        .apply(outbounds())
        .unwrap();
    assert_eq!(tags(&kept), vec!["US-01", "pick", "auto"]);
}

#[test]
fn typeless_outbounds_are_ignored_by_type_filters() {
    // "odd" has no type; no type filter matches it, whatever the pattern.
    for regex in ["^$", ".*", ""] {
        let kept = action(true, OutboundField::Type, regex).apply(outbounds()).unwrap();
        assert!(!tags(&kept).contains(&"odd"));
        let kept = action(false, OutboundField::Type, regex).apply(outbounds()).unwrap();
        assert!(tags(&kept).contains(&"odd"));
    }
    let mut map = serde_json::Map::new();
    map.insert("type".to_string(), Value::Bool(true));
    let not_a_string = Outbound::new("b".to_string(), OutboundKind::Unknown(map));
    assert_eq!(not_a_string.kind.kind_name(), None);
    let kept = action(true, OutboundField::Type, ".*").apply(vec![not_a_string]).unwrap();
    assert!(kept.is_empty());
}

#[test]
fn kind_names() {
    let all = outbounds();
    let names: Vec<Option<&str>> = all.iter().map(|o| o.kind.kind_name()).collect();
    assert_eq!(
        names,
        vec![Some("vmess"), Some("trojan"), Some("selector"), Some("urltest"), None, Some("7")]
    );
}

#[test]
fn invalid_regex_is_an_error() {
    assert!(action(true, OutboundField::Tag, "(unclosed").apply(outbounds()).is_err());
    assert!(action(false, OutboundField::Type, "[z-a]").apply(vec![]).is_err());
}

#[test]
fn include_and_exclude_split_the_outbounds() {
    for regex in ["0", "^$", "(?i:hk|AUTO)", "selector"] {
        for field in [OutboundField::Tag, OutboundField::Type] {
            let inc = action(true, field, regex).apply(outbounds()).unwrap();
            let exc = action(false, field, regex).apply(outbounds()).unwrap();
            assert_eq!(inc.len() + exc.len(), outbounds().len());
            for o in &inc {
                assert!(!exc.contains(o));
            }
        }
    }
}

#[test]
fn applying_twice_is_applying_once() {
    for keep in [true, false] {
        let a = action(keep, OutboundField::Tag, "01");
        let once = a.apply(outbounds()).unwrap();
        let twice = a.apply(once.clone()).unwrap();
        assert_eq!(once, twice);
    }
}
