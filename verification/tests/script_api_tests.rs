use engine_behavior::command::{emit_text, BehaviorCommand, DebugLogSeverity};
use engine_behavior::registry::{ModBehavior, ModBehaviorRegistry};
use engine_behavior::script_api::{
    copy_to_clipboard, emit_flash_text, expire_flash, flash_plan, ScriptAudioApi, ScriptDebugApi,
};

fn debug_entry(c: &BehaviorCommand) -> Option<(String, Option<String>, DebugLogSeverity, String)> {
    match c {
        BehaviorCommand::DebugLog { scene_id, source, severity, message } => {
            Some((scene_id.clone(), source.clone(), *severity, message.clone()))
        }
        _ => None,
    }
}

#[test]
fn pushes_standard_debug_log_entries() {
    let mut queue: Vec<BehaviorCommand> = Vec::new();
    let mut api = ScriptDebugApi::new("scene-a".to_string(), Some("./scene.rhai".to_string()));

    api.info("hello", &mut queue);
    api.warn("careful", &mut queue);
    api.error("boom", &mut queue);

    assert_eq!(queue.len(), 3);
    let (scene_id, source, severity, message) = debug_entry(&queue[0]).expect("debug log");
    assert_eq!(scene_id, "scene-a");
    assert_eq!(source.as_deref(), Some("./scene.rhai"));
    assert_eq!(severity, DebugLogSeverity::Info);
    assert_eq!(message, "hello");
    let (_, _, severity, message) = debug_entry(&queue[1]).expect("debug log");
    assert_eq!(severity, DebugLogSeverity::Warn);
    assert_eq!(message, "careful");
    let (_, _, severity, message) = debug_entry(&queue[2]).expect("debug log");
    assert_eq!(severity, DebugLogSeverity::Error);
    assert_eq!(message, "boom");
}

#[test]
fn pushes_prefixed_layout_debug_entries() {
    let mut queue: Vec<BehaviorCommand> = Vec::new();
    let mut api = ScriptDebugApi::new("scene-a".to_string(), None);

    api.layout_warn("hud-score", "overflow", &mut queue);
    api.layout_error("hud-score", "missing font", &mut queue);

    assert_eq!(queue.len(), 2);
    let (_, _, severity, message) = debug_entry(&queue[0]).expect("debug log");
    assert_eq!(severity, DebugLogSeverity::Warn);
    assert_eq!(message, "[layout:hud-score] overflow");
    let (_, _, severity, message) = debug_entry(&queue[1]).expect("debug log");
    assert_eq!(severity, DebugLogSeverity::Error);
    assert_eq!(message, "[layout:hud-score] missing font");
}

#[test]
fn copy_to_clipboard_enqueues_behavior_command() {
    let mut queue: Vec<BehaviorCommand> = Vec::new();
    let ok = copy_to_clipboard("  SEED:42 BARREN  ", &mut queue);
    assert!(ok, "copy_to_clipboard should accept non-empty text");
    assert_eq!(queue.len(), 1);
    assert!(matches!(
        &queue[0],
        BehaviorCommand::CopyToClipboard { text } if text == "SEED:42 BARREN"
    ));
}

#[test]
fn copy_to_clipboard_rejects_empty_text() {
    let mut queue: Vec<BehaviorCommand> = Vec::new();
    assert!(!copy_to_clipboard("   ", &mut queue));
    assert!(queue.is_empty(), "empty copy request should not emit commands");
}

#[test]
fn registry_get_returns_inserted_behavior() {
    let mut reg = ModBehaviorRegistry::default();
    reg.insert(ModBehavior {
        name: "foo".into(),
        script: "1 + 1".into(),
        src: None,
    });
    assert!(reg.get("foo").is_some());
    assert!(reg.get("bar").is_none());
}

#[test]
fn flash_messages_store_trimmed_text_and_a_saturating_deadline() {
    assert_eq!(flash_plan(100, "  hi ", 50), ("hi".to_string(), 150));
    assert_eq!(flash_plan(100, "x", -5), ("x".to_string(), 100));
    assert_eq!(flash_plan(u64::MAX, "x", 5), ("x".to_string(), -1));
    let mut q = Vec::new();
    emit_flash_text("hello".to_string(), &mut q);
    assert!(matches!(&q[0], BehaviorCommand::SetText { target, text } if target == "game-message" && text == "hello"));
}

#[test]
fn expired_flash_messages_clear_the_target_once() {
    let mut q = Vec::new();
    assert!(!expire_flash(100, Some(150), "hi", &mut q));
    assert!(!expire_flash(200, None, "hi", &mut q));
    assert!(q.is_empty());
    assert!(expire_flash(200, Some(150), "", &mut q));
    assert!(q.is_empty());
    assert!(expire_flash(150, Some(150), "hi", &mut q));
    assert!(matches!(&q[0], BehaviorCommand::SetText { target, text } if target == "game-message" && text.is_empty()));
}

#[test]
fn layout_info_needs_a_target_and_a_message() {
    let mut queue: Vec<BehaviorCommand> = Vec::new();
    let mut api = ScriptDebugApi::new("s".to_string(), None);
    api.layout_info("  ", "x", &mut queue);
    api.info("   ", &mut queue);
    assert!(queue.is_empty());
    api.layout_info(" t ", " m ", &mut queue);
    let (_, _, severity, message) = debug_entry(&queue[0]).expect("debug log");
    assert_eq!(severity, DebugLogSeverity::Info);
    assert_eq!(message, "[layout:t] m");
}

#[test]
fn songs_play_by_trimmed_id_and_stop() {
    let mut q = Vec::new();
    let mut audio = ScriptAudioApi::new();
    assert!(!audio.play_song("  ", &mut q));
    assert!(audio.play_song("  theme ", &mut q));
    assert!(audio.stop_song(&mut q));
    assert_eq!(q.len(), 2);
    assert!(matches!(&q[0], BehaviorCommand::PlaySong { song_id } if song_id == "theme"));
    assert!(matches!(&q[1], BehaviorCommand::StopSong));
}

#[test]
fn text_commands_target_the_given_object() {
    let mut q = Vec::new();
    emit_text(&mut q, "title".to_string(), "Hello".to_string());
    assert!(matches!(&q[0], BehaviorCommand::SetText { target, text } if target == "title" && text == "Hello"));
}

#[test]
fn rhai_script_behavior_ui_flash_message_sets_text_and_expiry() {
    // ui.flash_message("READY", 500) at scene time 1200.
    let mut commands: Vec<BehaviorCommand> = Vec::new();
    let (text, until_ms) = flash_plan(1200, "READY", 500);
    emit_flash_text(text.clone(), &mut commands);

    assert!(commands.iter().any(|c| matches!(
        c,
        BehaviorCommand::SetText { target, text } if target == "game-message" && text == "READY"
    )));
    assert_eq!(text, "READY");
    assert_eq!(until_ms, 1700);
}

#[test]
fn rhai_script_behavior_ui_flash_message_auto_clears_after_expiry() {
    let (text, until_ms) = flash_plan(1200, "READY", 500);
    let mut stored_text = Some(text);
    let mut stored_until = Some(until_ms);

    let mut commands: Vec<BehaviorCommand> = Vec::new();
    let current = stored_text.clone().unwrap_or_default();
    if expire_flash(1700, stored_until, &current, &mut commands) {
        stored_text = None;
        stored_until = None;
    }

    assert!(commands.iter().any(|c| matches!(
        c,
        BehaviorCommand::SetText { target, text } if target == "game-message" && text.is_empty()
    )));
    assert_eq!(stored_text, None);
    assert_eq!(stored_until, None);
}
