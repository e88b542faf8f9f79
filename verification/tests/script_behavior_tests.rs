use engine_behavior::command::BehaviorCommand;
use engine_behavior::doc::{Doc, DocKey};
use engine_behavior::params::BehaviorParams;
use engine_behavior::script_behavior::{
    first_script_error, region_lookup_names, script_hash, validate_script_compiles, RhaiScriptBehavior,
    ScriptOutcome,
};

fn behavior(script: &str, src: Option<&str>) -> RhaiScriptBehavior {
    let params = BehaviorParams {
        script: Some(script.to_string()),
        src: src.map(|s| s.to_string()),
        ..BehaviorParams::default()
    };
    RhaiScriptBehavior::from_params(&params, 1)
}

fn script_errors(commands: &[BehaviorCommand]) -> usize {
    commands.iter().filter(|c| matches!(c, BehaviorCommand::ScriptError { .. })).count()
}

#[test]
fn rhai_script_behavior_captures_compile_error_on_invalid_syntax() {
    let b = behavior("fn broken( { }", None);
    assert!(b.compile_failure().is_some(), "compile failure should be kept for invalid syntax");
}

#[test]
fn rhai_script_behavior_no_compile_error_for_valid_script() {
    let b = behavior(r#"let x = 1 + 2; #{}"#, None);
    assert!(b.compile_failure().is_none(), "a valid script has no compile failure");
}

#[test]
fn rhai_script_behavior_emits_script_error_command_on_compile_failure() {
    let mut b = behavior("let x = @@invalid@@;", None);
    let mut commands = Vec::new();
    let run = b.begin_frame("intro", &mut commands);
    assert!(!run);
    assert_eq!(script_errors(&commands), 1);
}

#[test]
fn rhai_script_behavior_emits_compile_error_only_once_per_instance() {
    let mut b = behavior("let x = @@invalid@@;", None);
    let mut first = Vec::new();
    let mut second = Vec::new();
    b.begin_frame("intro", &mut first);
    b.begin_frame("intro", &mut second);
    assert_eq!(script_errors(&first), 1, "first tick should emit exactly one ScriptError");
    assert_eq!(script_errors(&second), 0, "subsequent ticks should not repeat the compile error");
}

#[test]
fn rhai_script_behavior_script_error_carries_scene_id_and_source() {
    let mut b = behavior("let = ;", Some("./scene.rhai"));
    let mut commands = Vec::new();
    b.begin_frame("intro-login", &mut commands);
    match commands.iter().find(|c| matches!(c, BehaviorCommand::ScriptError { .. })) {
        Some(BehaviorCommand::ScriptError { scene_id, source, message }) => {
            assert_eq!(scene_id, "intro-login");
            assert_eq!(source.as_deref(), Some("./scene.rhai"));
            assert!(message.starts_with("compile error: "));
        }
        _ => panic!("expected ScriptError command"),
    }
}

#[test]
fn rhai_script_behavior_no_script_error_command_for_valid_script() {
    let script = r#"#{ state: #{ mode: "ok" } }"#;
    let mut b = behavior(script, None);
    let mut commands = Vec::new();
    assert!(b.begin_frame("intro", &mut commands));
    let value: rhai::Map = rhai::Engine::new().eval(script).expect("script runs");
    let mode = value
        .get("state")
        .and_then(|s| s.clone().try_cast::<rhai::Map>())
        .and_then(|m| m.get("mode").and_then(|v| v.clone().into_string().ok()))
        .expect("state.mode");
    let state = Doc::Mapping(vec![(DocKey::Text("mode".to_string()), Doc::Text(mode))]);
    b.finish_frame(
        "intro",
        ScriptOutcome::Returned { state: Some(state), entries: Vec::new(), queued: Vec::new() },
        &mut commands,
    );
    assert_eq!(script_errors(&commands), 0);
    assert!(matches!(b.state(), Doc::Mapping(m) if m.len() == 1));
}

#[test]
fn failed_run_is_reported_and_keeps_state() {
    let mut b = behavior("1 + 1", Some("./a.rhai"));
    let mut commands = Vec::new();
    b.finish_frame("s", ScriptOutcome::Failed("boom".to_string()), &mut commands);
    assert_eq!(first_script_error(&commands), Some("boom".to_string()));
    assert!(matches!(b.state(), Doc::Mapping(m) if m.is_empty()));
}

#[test]
fn returned_run_appends_list_commands_then_queued_ones() {
    let mut b = behavior("1 + 1", None);
    let mut commands = Vec::new();
    b.finish_frame(
        "s",
        ScriptOutcome::Returned {
            state: None,
            entries: Vec::new(),
            queued: vec![BehaviorCommand::StopSong, BehaviorCommand::SceneDespawn { target: "x".to_string() }],
        },
        &mut commands,
    );
    assert_eq!(commands.len(), 2);
    assert!(matches!(commands[0], BehaviorCommand::StopSong));
    assert!(first_script_error(&commands).is_none());
}

#[test]
fn script_without_source_text_never_runs() {
    let mut b = RhaiScriptBehavior::from_compiled(&BehaviorParams::default(), Some("ignored".to_string()), 2);
    let mut commands = Vec::new();
    assert!(b.compile_failure().is_none());
    assert!(!b.begin_frame("s", &mut commands));
    assert!(commands.is_empty());
}

#[test]
fn regions_are_built_only_for_scripts_that_mention_them() {
    assert!(behavior("let r = regions;", None).needs_regions());
    assert!(!behavior("let r = 1;", None).needs_regions());
}

#[test]
fn script_hash_depends_on_the_text() {
    assert_eq!(script_hash("a + b"), script_hash("a + b"));
    assert_ne!(script_hash("a + b"), script_hash("a + c"));
}

#[test]
fn region_names_list_target_then_item_aliases() {
    let params = BehaviorParams {
        target: Some("menu-grid".to_string()),
        item_prefix: Some("row-{}-label".to_string()),
        ..BehaviorParams::default()
    };
    let names = region_lookup_names(&params, 3);
    assert_eq!(names, vec!["menu-grid", "row-0-label", "row-1-label", "row-2-label"]);
    let defaults = region_lookup_names(&BehaviorParams { count: Some(2), ..BehaviorParams::default() }, 9);
    assert_eq!(defaults, vec!["menu-item-0", "menu-item-1"]);
}

fn nested(depth: usize) -> String {
    format!("let x = {}1{};", "(".repeat(depth), ")".repeat(depth))
}

#[test]
fn scripts_compile_up_to_the_raised_expression_depth() {
    // Deeper than Rhai's default limits, within the behavior engine's limit.
    assert!(behavior(&nested(40), None).compile_failure().is_none());
    // Far beyond the limit.
    assert!(behavior(&nested(400), None).compile_failure().is_some());
}

#[test]
fn compile_failure_carries_the_compiler_message() {
    let b = behavior("let x = ;", None);
    let msg = b.compile_failure().expect("invalid script");
    assert!(!msg.is_empty());
    assert!(msg.contains("line 1"), "message should locate the error: {msg}");
}

#[test]
fn scripts_without_text_are_not_compiled() {
    let b = RhaiScriptBehavior::from_params(&BehaviorParams::default(), 4);
    assert!(b.compile_failure().is_none());
    assert_eq!(b.behavior_id(), 4);
}

#[test]
fn validation_reports_the_compile_error_first() {
    assert!(validate_script_compiles("let x = 1; []").is_ok());
    let err = validate_script_compiles("let x = ;").expect_err("invalid script");
    assert!(err.starts_with("compile error: "), "{err}");
    let b = behavior("let x = ;", None);
    assert_eq!(err, format!("compile error: {}", b.compile_failure().unwrap()));
}
