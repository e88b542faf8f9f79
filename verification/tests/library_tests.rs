use engine_behavior::script_api::{next_random_state, random_numerator};
use engine_behavior::text::is_blank;
use engine_behavior::geometry::points_from_items;
use engine_behavior::script_api::ScriptAudioApi;
use engine_behavior::timing::{cues_for_stage, SceneAudioCues};
use engine_behavior::command::BehaviorCommand;
use engine_behavior::emitter_state::EmitterState;
use engine_behavior::input::InputState;
use engine_behavior::names::{
    angular_motor_mode_from_str, biome_from_label, biome_label, builtin_behavior_names,
    character_up_mode_from_str, init_behavior_system, motor_space_from_str, normalize_token,
    preferred_biomes_from_array,
    reference_frame_mode_from_str, text_to_bool, AngularMotorMode, Biome, BuiltInBehaviorFactory,
    BuiltinKind, CharacterUpMode, ModSource, MotorSpace, ReferenceFrameMode,
};
use engine_behavior::path::normalize_mod_path;
use engine_behavior::registry::{
    finish_external, is_yaml_file_name, plan_behavior, resolve_behavior_src_path, BehaviorSource,
    RawModBehavior,
};
use engine_behavior::script_api::{
    bind_action, jump, kind_capabilities, load_profile, queue_scene_cleanup, InputProfile,
    ScriptTimeApi,
};
use engine_behavior::timing::{is_within_time_window, parse_stage_name, SceneStage};

#[test]
fn emitter_queue_is_first_in_first_out_per_owner() {
    let mut state = EmitterState::new();
    state.track_spawn("flame", Some(7), 11);
    state.track_spawn("flame", Some(7), 12);
    state.track_spawn("flame", Some(8), 13);
    state.track_spawn("  ", Some(7), 14);
    state.track_spawn("flame", Some(7), 0);
    assert_eq!(state.active_count("flame", Some(7)), 2);
    assert_eq!(state.active_count("flame", Some(8)), 1);
    assert_eq!(state.evict_oldest("flame", Some(7)), Some(11));
    assert_eq!(state.evict_oldest("flame", Some(7)), Some(12));
    assert_eq!(state.evict_oldest("flame", Some(7)), None);
    assert_eq!(state.active_count("smoke", None), 0);
}

#[test]
fn emitter_make_room_evicts_oldest_until_below_limit() {
    let mut state = EmitterState::default();
    for id in 1..=5u64 {
        state.track_spawn("bullet", Some(1), id);
    }
    assert_eq!(state.make_room("bullet", Some(1), 3), vec![1, 2, 3]);
    assert_eq!(state.active_count("bullet", Some(1)), 2);
    assert_eq!(state.make_room("bullet", Some(1), 3), Vec::<u64>::new());
    assert_eq!(state.make_room("bullet", Some(1), 0), vec![4, 5]);
    assert_eq!(state.make_room("other", None, 1), Vec::<u64>::new());
}

#[test]
fn emitter_remove_entity_forgets_it_everywhere() {
    let mut state = EmitterState::new();
    state.track_spawn("a", None, 5);
    state.track_spawn("b", Some(2), 5);
    state.track_spawn("b", Some(2), 6);
    state.remove_entity(5);
    assert_eq!(state.active_count("a", None), 0);
    assert_eq!(state.active_count("b", Some(2)), 1);
    assert_eq!(state.evict_oldest("b", Some(2)), Some(6));
}

#[test]
fn mod_paths_are_named_from_the_mod_root() {
    assert_eq!(normalize_mod_path("/tmp/mod", "/tmp/mod/foo.yml"), "/foo.yml");
    assert_eq!(
        normalize_mod_path("/tmp/mod", "/tmp/mod/behaviors/./../behaviors/test.rhai"),
        "/behaviors/test.rhai"
    );
    assert_eq!(normalize_mod_path("/tmp/mod", "elsewhere/x.yml"), "/elsewhere/x.yml");
}

#[test]
fn behavior_script_paths_follow_their_reference_style() {
    assert_eq!(resolve_behavior_src_path("/m", "/m/behaviors/a.yml", "/scripts/x.rhai"), "/m/scripts/x.rhai");
    assert_eq!(resolve_behavior_src_path("/m", "/m/behaviors/a.yml", "./x.rhai"), "/m/behaviors/./x.rhai");
    assert_eq!(resolve_behavior_src_path("/m", "/m/behaviors/a.yml", "x.rhai"), "/m/scripts/x.rhai");
}

fn raw(kind: &str, script: Option<&str>, src: Option<&str>) -> RawModBehavior {
    RawModBehavior {
        kind: kind.to_string(),
        name: "my-anim".to_string(),
        script: script.map(|s| s.to_string()),
        src: src.map(|s| s.to_string()),
    }
}

#[test]
fn behavior_documents_of_another_kind_are_refused() {
    let err = plan_behavior("/m/foo.yml", raw("scene", Some("let x = 1;"), None), "/m").err().unwrap();
    assert_eq!(err, "expected kind=behavior, got `scene`");
}

#[test]
fn behavior_documents_need_exactly_one_script_source() {
    let both = plan_behavior("/m/foo.yml", raw("behavior", Some("1"), Some("./a.rhai")), "/m");
    assert_eq!(both.err().unwrap(), "expected exactly one of `script` or `src`");
    let none = plan_behavior("/m/foo.yml", raw("behavior", None, None), "/m");
    assert_eq!(none.err().unwrap(), "missing required `script` or `src` field");
}

#[test]
fn inline_behavior_documents_become_registry_entries() {
    match plan_behavior("/m/foo.yml", raw("behavior", Some("let x = 1;\n"), None), "/m") {
        Ok(BehaviorSource::Inline(b)) => {
            assert_eq!(b.name, "my-anim");
            assert!(b.script.contains("let x = 1;"));
            assert_eq!(b.src.as_deref(), Some("/foo.yml"));
        }
        _ => panic!("expected an inline behavior"),
    }
}

#[test]
fn external_behavior_documents_name_their_script_file() {
    match plan_behavior("/m/behaviors/test.yml", raw("behavior", None, Some(" ./test.rhai ")), "/m") {
        Ok(BehaviorSource::External { name, script_path }) => {
            assert_eq!(name, "my-anim");
            assert_eq!(script_path, "/m/behaviors/./test.rhai");
            let b = finish_external(name, &script_path, "/m", "let x = 1;".to_string());
            assert_eq!(b.script, "let x = 1;");
            assert_eq!(b.src.as_deref(), Some("/behaviors/test.rhai"));
        }
        _ => panic!("expected an external behavior"),
    }
}

#[test]
fn behavior_files_are_yaml_files() {
    assert!(is_yaml_file_name("a.yml"));
    assert!(is_yaml_file_name("a.yaml"));
    assert!(!is_yaml_file_name(".yml"));
    assert!(!is_yaml_file_name("a.rhai"));
    assert!(!is_yaml_file_name("a.YML"));
}

#[test]
fn builds_known_behavior_from_spec() {
    assert_eq!(BuiltInBehaviorFactory.create("blink"), Some(BuiltinKind::Blink));
    assert_eq!(BuiltInBehaviorFactory.create("  Menu-Carousel-Object "), Some(BuiltinKind::MenuCarouselObject));
    assert_eq!(BuiltInBehaviorFactory.create("wobble"), None);
    assert_eq!(builtin_behavior_names().len(), 10);
    assert_eq!(builtin_behavior_names()[0], "blink");
}

#[test]
fn mod_source_prefers_configuration_then_environment() {
    let mut config = ModSource::new();
    assert_eq!(config.get_mod_source(None), "mods/shell-quest");
    assert_eq!(config.get_mod_source(Some("env/mod".to_string())), "env/mod");
    init_behavior_system(&mut config, "my/mod");
    assert_eq!(config.get_mod_source(Some("env/mod".to_string())), "my/mod");
}

#[test]
fn tokens_keep_lowercased_letters_and_digits() {
    assert_eq!(normalize_token(Some("Parent-Entity 2")), "parententity2");
    assert_eq!(normalize_token(None), "");
    assert_eq!(reference_frame_mode_from_str(Some("Local_Horizon")), ReferenceFrameMode::LocalHorizon);
    assert_eq!(reference_frame_mode_from_str(Some("??")), ReferenceFrameMode::World);
    assert_eq!(motor_space_from_str(Some("reference-frame")), MotorSpace::ReferenceFrame);
    assert_eq!(motor_space_from_str(None), MotorSpace::Local);
    assert_eq!(angular_motor_mode_from_str(Some("TORQUE")), AngularMotorMode::Torque);
    assert_eq!(character_up_mode_from_str(Some("surface normal")), CharacterUpMode::SurfaceNormal);
}

#[test]
fn biome_labels_and_switch_words() {
    assert_eq!(biome_from_label(" Shallow-Water "), Some(Biome::ShallowWater));
    assert_eq!(biome_from_label("volcano"), Some(Biome::Volcanic));
    assert_eq!(biome_from_label("swamp"), None);
    assert_eq!(biome_label(Biome::ShallowWater), "shallow");
    assert_eq!(text_to_bool(" YES "), Some(true));
    assert_eq!(text_to_bool("off"), Some(false));
    assert_eq!(text_to_bool("maybe"), None);
}

#[test]
fn timed_visibility_window_is_half_open() {
    assert!(is_within_time_window(150, Some(100), Some(200)));
    assert!(is_within_time_window(100, Some(100), Some(200)));
    assert!(!is_within_time_window(200, Some(100), Some(200)));
    assert!(!is_within_time_window(50, Some(100), None));
    assert!(is_within_time_window(0, None, None));
}

#[test]
fn stage_names_accept_short_and_long_forms() {
    assert_eq!(parse_stage_name(" On-Enter "), Some(SceneStage::OnEnter));
    assert_eq!(parse_stage_name("idle"), Some(SceneStage::OnIdle));
    assert_eq!(parse_stage_name("leave"), Some(SceneStage::OnLeave));
    assert_eq!(parse_stage_name("DONE"), Some(SceneStage::Done));
    assert_eq!(parse_stage_name("finished"), None);
}

#[test]
fn time_service_reports_clocks_and_clamps_deltas() {
    let t = ScriptTimeApi::new(500, 150, SceneStage::OnIdle);
    assert_eq!(t.scene_elapsed_ms(), 500);
    assert_eq!(t.stage(), "on_idle");
    assert_eq!(t.get_i("stage_elapsed_ms", -1), 150);
    assert_eq!(t.get_i("nope", -1), -1);
    let mut last = None;
    assert_eq!(t.delta_ms(100, &mut last), 0);
    assert_eq!(last, Some(500));
    let mut last = Some(480);
    assert_eq!(t.delta_ms(100, &mut last), 20);
    assert_eq!(last, Some(500));
    assert_eq!(t.delta_ms(100, &mut Some(0)), 100);
    assert_eq!(t.delta_ms(100, &mut Some(900)), 0);
    assert_eq!(t.delta_ms(-5, &mut Some(0)), 0);
}

#[test]
fn jump_refuses_blank_scene_ids() {
    let mut q = Vec::new();
    assert!(!jump("  ", &mut q));
    assert!(jump("menu", &mut q));
    assert!(matches!(&q[0], BehaviorCommand::SceneTransition { to_scene_id } if to_scene_id == "menu"));
}

#[test]
fn input_bindings_become_commands() {
    let mut q = Vec::new();
    assert!(bind_action("fire", vec!["space".to_string()], &mut q));
    let profile = InputProfile {
        bindings: vec![("left".to_string(), vec!["a".to_string(), "arrowleft".to_string()])],
    };
    assert!(load_profile(Some(&profile), &mut q));
    assert!(!load_profile(None, &mut q));
    assert_eq!(q.len(), 2);
    assert!(matches!(&q[1], BehaviorCommand::BindInputAction { action, keys } if action == "left" && keys.len() == 2));
}

#[test]
fn scene_cleanup_despawns_the_visual() {
    let mut q = Vec::new();
    queue_scene_cleanup(&mut q, "vis-3");
    assert!(matches!(&q[0], BehaviorCommand::SceneDespawn { target } if target == "vis-3"));
}

#[test]
fn capabilities_depend_on_the_object_kind() {
    assert_eq!(kind_capabilities(None).len(), 5);
    let text = kind_capabilities(Some("text"));
    assert_eq!(text.len(), 9);
    assert_eq!(text[5], "text.content");
    let obj = kind_capabilities(Some("obj"));
    assert_eq!(obj.len(), 11);
    assert_eq!(obj[10], "obj.surface_mode");
}

#[test]
fn input_state_answers_key_and_action_queries() {
    let input = InputState::new(
        vec!["a".to_string(), "space".to_string()],
        vec!["space".to_string()],
        vec![
            ("left".to_string(), vec!["arrowleft".to_string(), "a".to_string()]),
            ("fire".to_string(), vec!["space".to_string()]),
            ("left".to_string(), vec!["q".to_string()]),
        ],
    );
    assert!(input.down("a"));
    assert!(!input.down(""));
    assert!(!input.just_pressed("a"));
    assert!(input.any_down());
    assert_eq!(input.down_count(), 2);
    assert!(input.action_down("left"));
    assert!(!input.action_just_pressed("left"));
    assert!(input.action_just_pressed("fire"));
    assert!(!input.action_down("jump"));
}

#[test]
fn script_point_lists_keep_integer_pairs() {
    let items = vec![
        Some(vec![Some(1), Some(2)]),
        None,
        Some(vec![Some(3)]),
        Some(vec![Some(4), None]),
        Some(vec![Some((1i64 << 32) + 7), Some(-8), Some(99)]),
    ];
    assert_eq!(points_from_items(&items), vec![[1, 2], [7, -8]]);
}

#[test]
fn stage_cue_lists_are_empty_once_done() {
    let cues = SceneAudioCues { on_enter: vec![1, 2], on_idle: vec![3], on_leave: vec![4] };
    assert_eq!(cues_for_stage(&cues, SceneStage::OnEnter), &[1, 2]);
    assert_eq!(cues_for_stage(&cues, SceneStage::OnLeave), &[4]);
    assert!(cues_for_stage(&cues, SceneStage::Done).is_empty());
}

#[test]
fn audio_cue_names_are_trimmed_and_blank_ones_refused() {
    let api = ScriptAudioApi::new();
    assert_eq!(api.cue_name("  thunder "), Some("thunder".to_string()));
    assert_eq!(api.cue_name("   "), None);
}

#[test]
fn blank_text_is_all_whitespace() {
    assert!(is_blank(""));
    assert!(is_blank(" \t\u{3000}"));
    assert!(!is_blank(" x "));
}

#[test]
fn random_generator_steps_like_xorshift() {
    assert_eq!(next_random_state(0), 1082269761);
    assert_eq!(next_random_state(12345), 13292852444890);
    assert_eq!(next_random_state(u64::MAX), 0);
    assert_eq!(random_numerator(u64::MAX), (1u64 << 53) - 1);
}

#[test]
fn preferred_biomes_from_array_defaults_for_empty_or_invalid_entries() {
    let defaults = vec![Biome::Grassland, Biome::Forest, Biome::Beach];
    let empty = preferred_biomes_from_array(&Vec::new(), defaults.clone());
    let invalid = preferred_biomes_from_array(&vec![Some("???".to_string()), None], defaults.clone());

    assert_eq!(empty, defaults);
    assert_eq!(invalid, defaults);
}

#[test]
fn preferred_biomes_keep_named_entries_in_order() {
    let defaults = vec![Biome::Grassland];
    let entries = vec![
        Some(" ICE ".to_string()),
        None,
        Some("bogus".to_string()),
        Some("volcano".to_string()),
    ];
    assert_eq!(
        preferred_biomes_from_array(&entries, defaults),
        vec![Biome::Snow, Biome::Volcanic]
    );
}

#[test]
fn rhai_script_behavior_time_delta_ms_clamps_and_persists() {
    // time.delta_ms(220, "/ast/last_ms"): the slot stands for the integer the
    // game state keeps at "/ast/last_ms".
    let mut last_ms: Option<i64> = None;

    let first = ScriptTimeApi::new(480, 120, SceneStage::OnIdle);
    assert_eq!(first.delta_ms(220, &mut last_ms), 0);
    assert_eq!(last_ms, Some(480));

    let second = ScriptTimeApi::new(830, 120, SceneStage::OnIdle);
    assert_eq!(second.delta_ms(220, &mut last_ms), 220);
    assert_eq!(last_ms, Some(830));
}

#[test]
fn rhai_script_behavior_input_load_profile_emits_bindings() {
    let keys = |k: &[&str]| k.iter().map(|s| s.to_string()).collect::<Vec<String>>();
    let profile = InputProfile {
        bindings: vec![
            ("turn_left".to_string(), keys(&["Left", "a", "A"])),
            ("turn_right".to_string(), keys(&["Right", "d", "D"])),
            ("thrust".to_string(), keys(&["Up", "w", "W"])),
            ("fire".to_string(), keys(&[" ", "f", "F"])),
        ],
    };
    let mut commands = Vec::new();
    assert!(load_profile(Some(&profile), &mut commands));
    let mut bound: Vec<(String, Vec<String>)> = commands
        .into_iter()
        .map(|c| match c {
            BehaviorCommand::BindInputAction { action, keys } => (action, keys),
            other => panic!("unexpected command {other:?}"),
        })
        .collect();
    bound.sort_by(|a, b| a.0.cmp(&b.0));
    assert_eq!(
        bound,
        vec![
            ("fire".to_string(), keys(&[" ", "f", "F"])),
            ("thrust".to_string(), keys(&["Up", "w", "W"])),
            ("turn_left".to_string(), keys(&["Left", "a", "A"])),
            ("turn_right".to_string(), keys(&["Right", "d", "D"])),
        ]
    );
}

#[test]
fn input_state_holds_each_code_once() {
    let input = InputState::new(
        vec!["a".to_string(), "b".to_string(), "a".to_string()],
        vec![],
        vec![],
    );
    assert_eq!(input.down_count(), 2);
    assert!(input.down("a"));
    assert!(input.down("b"));
    assert!(!input.just_pressed("a"));
    let none = InputState::new(vec![], vec![], vec![]);
    assert!(!none.any_down());
    assert_eq!(none.down_count(), 0);
}
