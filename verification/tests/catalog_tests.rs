use engine_behavior::catalog::resolve_prefabs;
use engine_behavior::doc::{canonical_keys, merge_docs, merge_fields, Doc, DocKey};
use serde_yaml::Value;

fn key(k: &Value) -> DocKey {
    match k {
        Value::String(s) => DocKey::Text(s.clone()),
        other => DocKey::Scalar(serde_yaml::to_string(other).unwrap().trim_end().to_string()),
    }
}

fn to_doc(v: &Value) -> Doc {
    match v {
        Value::Null => Doc::Null,
        Value::Bool(b) => Doc::Bool(*b),
        Value::Number(n) => Doc::Number(n.to_string()),
        Value::String(s) => Doc::Text(s.clone()),
        Value::Sequence(items) => Doc::List(items.iter().map(to_doc).collect()),
        Value::Mapping(m) => Doc::Mapping(m.iter().map(|(k, v)| (key(k), to_doc(v))).collect()),
        Value::Tagged(t) => Doc::Tagged(t.tag.to_string(), Box::new(to_doc(&t.value))),
    }
}

fn yaml(text: &str) -> Doc {
    to_doc(&serde_yaml::from_str::<Value>(text).unwrap())
}

fn get<'a>(d: &'a Doc, k: &str) -> Option<&'a Doc> {
    match d {
        Doc::Mapping(m) => m
            .iter()
            .find(|(key, _)| matches!(key, DocKey::Text(s) if s == k))
            .map(|(_, v)| v),
        _ => None,
    }
}

fn text(d: Option<&Doc>) -> Option<String> {
    match d {
        Some(Doc::Text(s)) => Some(s.clone()),
        _ => None,
    }
}

fn keys(d: &Doc) -> Vec<String> {
    match d {
        Doc::Mapping(m) => m
            .iter()
            .map(|(k, _)| match k {
                DocKey::Text(s) => s.clone(),
                DocKey::Scalar(s) => s.clone(),
            })
            .collect(),
        _ => Vec::new(),
    }
}

fn named(text: &str) -> Vec<(String, Doc)> {
    match yaml(text) {
        Doc::Mapping(m) => m
            .into_iter()
            .map(|(k, v)| match k {
                DocKey::Text(s) => (s, v),
                DocKey::Scalar(s) => (s, v),
            })
            .collect(),
        _ => Vec::new(),
    }
}

#[test]
fn test_prefab_ref_resolution_deep_merges_nested_component_fields() {
    let raw = named(
        r#"
canary-base:
  kind: "probe"
  sprite_template: "probe-template"
  components:
    extra_data:
      profile:
        family: "euclidean"
        revision: 1
        nested:
          enabled: true
canary-nested:
  ref: canary-base
  components:
    extra_data:
      profile:
        revision: 2
        nested:
          note: "merged"
"#,
    );
    let resolved = resolve_prefabs(&raw).expect("prefabs resolve");
    let (_, prefab) = resolved.iter().find(|(n, _)| n == "canary-nested").unwrap();
    assert_eq!(text(get(prefab, "kind")), Some("probe".to_string()));
    assert_eq!(text(get(prefab, "sprite_template")), Some("probe-template".to_string()));
    assert!(get(prefab, "ref").is_none());
    let profile = get(prefab, "components")
        .and_then(|c| get(c, "extra_data"))
        .and_then(|e| get(e, "profile"))
        .unwrap();
    assert_eq!(text(get(profile, "family")), Some("euclidean".to_string()));
    assert!(matches!(get(profile, "revision"), Some(Doc::Number(n)) if n == "2"));
    let nested = get(profile, "nested").unwrap();
    assert!(matches!(get(nested, "enabled"), Some(Doc::Bool(true))));
    assert_eq!(text(get(nested, "note")), Some("merged".to_string()));
}

#[test]
fn prefab_inheritance_cycle_names_the_chain() {
    let raw = named("a:\n  ref: b\nb:\n  ref: a\n");
    let err = resolve_prefabs(&raw).err().expect("cycle is an error");
    assert_eq!(err, "Prefab inheritance cycle detected: a -> b -> a");
}

#[test]
fn prefab_referring_to_itself_is_a_cycle() {
    let raw = named("solo:\n  ref: solo\n  kind: x\n");
    let err = resolve_prefabs(&raw).err().expect("cycle is an error");
    assert_eq!(err, "Prefab inheritance cycle detected: solo -> solo");
}

#[test]
fn prefab_with_missing_base_names_the_missing_prefab() {
    let raw = named("ship:\n  ref: hull\n  kind: ship\n");
    let err = resolve_prefabs(&raw).err().expect("missing base is an error");
    assert_eq!(err, "Prefab 'hull' references missing prefab");
}

#[test]
fn prefab_without_ref_is_kept_as_written() {
    let raw = named("ship:\n  kind: ship\n  default_tags: [a, b]\n");
    let resolved = resolve_prefabs(&raw).expect("resolves");
    assert_eq!(resolved.len(), 1);
    assert_eq!(resolved[0].0, "ship");
    assert_eq!(keys(&resolved[0].1), vec!["kind", "default_tags"]);
}

#[test]
fn ref_entry_is_replaced_by_the_last_entry_of_the_overlay() {
    let raw = named("base:\n  kind: base\nchild:\n  ref: base\n  x: 1\n  y: 2\n");
    let resolved = resolve_prefabs(&raw).expect("resolves");
    // The overlay without `ref` is {y, x}; merged over {kind}: kind, y, x.
    assert_eq!(keys(&resolved[1].1), vec!["kind", "y", "x"]);
}

#[test]
fn merge_keeps_base_order_and_appends_new_keys() {
    let base = yaml("a: 1\nb: {c: 1, d: 2}\n");
    let overlay = yaml("b: {d: 3, e: 4}\nf: 5\n");
    let merged = merge_docs(base, overlay);
    assert_eq!(keys(&merged), vec!["a", "b", "f"]);
    let b = get(&merged, "b").unwrap();
    assert_eq!(keys(b), vec!["c", "d", "e"]);
    assert!(matches!(get(b, "d"), Some(Doc::Number(n)) if n == "3"));
}

#[test]
fn merge_with_non_mapping_overlay_takes_the_overlay() {
    let merged = merge_docs(yaml("a: 1\n"), yaml("[1, 2]\n"));
    assert!(matches!(merged, Doc::List(ref v) if v.len() == 2));
    let merged = merge_docs(yaml("[1, 2]\n"), yaml("a: 1\n"));
    assert_eq!(keys(&merged), vec!["a"]);
}

#[test]
fn merged_fields_skip_listed_names_and_missing_values() {
    let base = yaml("a: 1\nb: {c: 1}\n");
    let overlay = vec![
        ("b".to_string(), Some(yaml("{d: 2}"))),
        ("skip-me".to_string(), Some(Doc::Bool(true))),
        ("gone".to_string(), None),
        ("e".to_string(), Some(Doc::Text("x".to_string()))),
    ];
    let merged = merge_fields(base, overlay, &vec!["skip-me".to_string()]);
    assert_eq!(keys(&merged), vec!["a", "b", "e"]);
    assert_eq!(keys(get(&merged, "b").unwrap()), vec!["c", "d"]);
}

#[test]
fn canonical_keys_replace_dashes_at_every_depth() {
    let d = canonical_keys(yaml("linear-motor:\n  max-speed: 3\n  tags: [a-b, {inner-key: x-y}]\nplain: 1\n"));
    assert_eq!(keys(&d), vec!["linear_motor", "plain"]);
    let motor = get(&d, "linear_motor").unwrap();
    assert_eq!(keys(motor), vec!["max_speed", "tags"]);
    match get(motor, "tags") {
        Some(Doc::List(items)) => {
            assert_eq!(text(Some(&items[0])), Some("a-b".to_string()));
            assert_eq!(keys(&items[1]), vec!["inner_key"]);
            assert_eq!(text(get(&items[1], "inner_key")), Some("x-y".to_string()));
        }
        _ => panic!("expected a list"),
    }
}
