use engine_behavior::palette::{PaletteData, PaletteStore};
use indexmap::IndexMap;

fn palette(id: &str, colors: &[(&str, &str)]) -> PaletteData {
    let mut map = IndexMap::new();
    for (k, v) in colors {
        map.insert(k.to_string(), v.to_string());
    }
    PaletteData {
        id: id.to_string(),
        name: format!("{id} palette"),
        colors: map,
        particles: vec![("fire".to_string(), vec!["#f00".to_string(), "#ff0".to_string()])],
    }
}

fn store() -> PaletteStore {
    let mut s = PaletteStore::default();
    s.add_loaded(palette("amber", &[("bg", "#000"), ("fg", "#fa0")]));
    s.add_loaded(palette("green", &[("bg", "#010"), ("fg", "#0f0")]));
    s.add_loaded(palette("mono", &[("fg", "#fff")]));
    s
}

#[test]
fn palette_colours_by_key_and_position() {
    let p = palette("amber", &[("bg", "#000"), ("fg", "#fa0")]);
    assert_eq!(p.get_color("fg"), "#fa0");
    assert_eq!(p.get_color("accent"), "");
    assert_eq!(p.color_at(1), "#fa0");
    assert_eq!(p.key_at(0), "bg");
    assert_eq!(p.color_at(2), "");
    assert_eq!(p.color_at(-1), "");
    assert_eq!(p.colors_len(), 2);
    assert_eq!(p.color_keys(), vec!["bg".to_string(), "fg".to_string()]);
    assert_eq!(p.color_values(), vec!["#000".to_string(), "#fa0".to_string()]);
    assert_eq!(p.particles("fire").len(), 2);
    assert!(p.particles("smoke").is_empty());
}

#[test]
fn active_palette_falls_back_from_persisted_to_default_to_first() {
    let s = store();
    assert_eq!(s.len(), 3);
    assert_eq!(s.resolve(Some("green"), Some("mono")).map(|p| p.id.as_str()), Some("green"));
    assert_eq!(s.resolve(Some("gone"), Some("mono")).map(|p| p.id.as_str()), Some("mono"));
    assert_eq!(s.resolve(None, Some("gone")).map(|p| p.id.as_str()), Some("amber"));
    assert!(PaletteStore::new().resolve(None, None).is_none());
}

#[test]
fn cycling_follows_load_order_and_wraps() {
    let s = store();
    assert_eq!(s.next_id("amber").as_deref(), Some("green"));
    assert_eq!(s.next_id("mono").as_deref(), Some("amber"));
    assert_eq!(s.next_id("unknown").as_deref(), Some("green"));
    assert_eq!(PaletteStore::new().next_id("amber"), None);
    assert_eq!(s.cycle_target(Some("green"), None), "mono");
    assert_eq!(s.cycle_target(None, None), "green");
    assert_eq!(s.list(), vec!["amber".to_string(), "green".to_string(), "mono".to_string()]);
}

#[test]
fn selecting_a_palette_bumps_the_version_only_when_it_sticks() {
    let mut s = store();
    assert_eq!(s.version(), 1);
    assert!(!s.select_active("gone", true));
    assert!(!s.select_active("green", false));
    assert_eq!(s.version(), 1);
    assert!(s.select_active("green", true));
    assert_eq!(s.version(), 2);
}

#[test]
fn reloading_a_palette_id_replaces_it_and_repeats_it_in_the_order() {
    let mut s = store();
    s.add_loaded(palette("amber", &[("bg", "#111")]));
    assert_eq!(s.len(), 3);
    assert_eq!(s.resolve(Some("amber"), None).unwrap().get_color("bg"), "#111");
    assert_eq!(s.list().len(), 4);
}

#[test]
fn particle_ramps_come_from_the_active_palette() {
    let s = store();
    assert_eq!(s.active_ramp(Some("green"), None, "fire").map(|v| v.len()), Some(2));
    assert_eq!(s.active_ramp(Some("green"), None, "smoke"), None);
    assert_eq!(PaletteStore::new().active_ramp(None, None, "fire"), None);
    let p = palette("x", &[]);
    assert!(p.particle_ramp("fire").is_some());
    assert!(p.particle_ramp("ice").is_none());
}

#[test]
fn prefab_colours_prefer_the_call_then_the_catalog_then_the_palette() {
    let s = store();
    assert_eq!(s.prefab_fg_colour(Some("#123"), Some("@palette.fg"), None, None), Some("#123".to_string()));
    assert_eq!(s.prefab_fg_colour(Some(""), Some("@palette.fg"), None, None), None);
    assert_eq!(s.prefab_fg_colour(None, Some("red"), None, None), Some("red".to_string()));
    assert_eq!(s.prefab_fg_colour(None, Some("@palette.fg"), Some("green"), None), Some("#0f0".to_string()));
    assert_eq!(s.prefab_fg_colour(None, Some("@palette.fg"), None, None), Some("#fa0".to_string()));
    assert_eq!(s.prefab_fg_colour(None, Some("@palette.accent"), None, None), None);
    assert_eq!(s.prefab_fg_colour(None, None, None, None), None);
    assert_eq!(PaletteStore::new().prefab_fg_colour(None, Some("@palette.fg"), None, None), None);
    assert_eq!(s.resolve(None, None).unwrap().color("bg"), Some("#000".to_string()));
    assert_eq!(s.resolve(None, None).unwrap().color("zz"), None);
}
