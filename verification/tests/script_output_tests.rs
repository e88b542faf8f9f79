use engine_behavior::command::BehaviorCommand;
use engine_behavior::doc::Doc;
use engine_behavior::script_output::{apply_script_commands, ScriptCommandFields};

fn fields(op: &str) -> ScriptCommandFields {
    ScriptCommandFields {
        op: Some(op.to_string()),
        target: None,
        visible: None,
        dx: None,
        dy: None,
        text: None,
        path: None,
        value: None,
        to_scene_id: None,
    }
}

fn with_target(op: &str, target: &str) -> ScriptCommandFields {
    ScriptCommandFields { target: Some(target.to_string()), ..fields(op) }
}

#[test]
fn script_visibility_and_offset_entries_become_commands() {
    let entries = vec![
        Some(ScriptCommandFields { visible: Some(true), ..with_target("visibility", "menu-item-0") }),
        Some(ScriptCommandFields { dx: Some(1), dy: Some(-2), ..with_target("offset", "menu-item-0") }),
    ];
    let mut commands = Vec::new();
    apply_script_commands(&entries, &mut commands);
    assert_eq!(commands.len(), 2);
    assert!(matches!(&commands[0], BehaviorCommand::SetVisibility { target, visible: true } if target == "menu-item-0"));
    assert!(matches!(&commands[1], BehaviorCommand::SetOffset { target, dx: 1, dy: -2 } if target == "menu-item-0"));
}

#[test]
fn script_offset_defaults_missing_deltas_and_narrows_to_32_bits() {
    let entries = vec![
        Some(with_target("offset", "a")),
        Some(ScriptCommandFields { dx: Some((1i64 << 32) + 5), ..with_target("offset", "b") }),
    ];
    let mut commands = Vec::new();
    apply_script_commands(&entries, &mut commands);
    assert!(matches!(&commands[0], BehaviorCommand::SetOffset { dx: 0, dy: 0, .. }));
    assert!(matches!(&commands[1], BehaviorCommand::SetOffset { dx: 5, dy: 0, .. }));
}

#[test]
fn script_set_text_set_props_and_set_entries_become_commands() {
    let entries = vec![
        Some(ScriptCommandFields { text: Some("hi".to_string()), ..with_target("set-text", "title") }),
        Some(ScriptCommandFields { visible: Some(false), dy: Some(3), ..with_target("set-props", "title") }),
        Some(ScriptCommandFields {
            path: Some("text.content".to_string()),
            value: Some(Doc::Text("x".to_string())),
            ..with_target("set", "title")
        }),
    ];
    let mut commands = Vec::new();
    apply_script_commands(&entries, &mut commands);
    assert_eq!(commands.len(), 3);
    assert!(matches!(&commands[0], BehaviorCommand::SetText { target, text } if target == "title" && text == "hi"));
    assert!(matches!(
        &commands[1],
        BehaviorCommand::SetProps { target, visible: Some(false), dx: None, dy: Some(3), text: None } if target == "title"
    ));
    assert!(matches!(
        &commands[2],
        BehaviorCommand::SetProperty { target, path, value: Doc::Text(v) } if target == "title" && path == "text.content" && v == "x"
    ));
}

#[test]
fn script_malformed_entries_are_skipped() {
    let entries = vec![
        None,
        Some(fields("visibility")),
        Some(with_target("visibility", "a")),
        Some(with_target("set-props", "a")),
        Some(ScriptCommandFields { to_scene_id: Some("   ".to_string()), ..fields("transition") }),
        Some(with_target("explode", "a")),
        Some(ScriptCommandFields { op: None, ..with_target("visibility", "a") }),
        Some(ScriptCommandFields { to_scene_id: Some("menu".to_string()), ..fields("transition") }),
    ];
    let mut commands = Vec::new();
    apply_script_commands(&entries, &mut commands);
    assert_eq!(commands.len(), 1);
    assert!(matches!(&commands[0], BehaviorCommand::SceneTransition { to_scene_id } if to_scene_id == "menu"));
}

#[test]
fn rhai_script_behavior_emits_visibility_and_offset_commands() {
    let entries = vec![
        Some(ScriptCommandFields { visible: Some(true), ..with_target("visibility", "menu-item-0") }),
        Some(ScriptCommandFields { dx: Some(1), dy: Some(-2), ..with_target("offset", "menu-item-0") }),
    ];
    let mut commands = Vec::new();
    apply_script_commands(&entries, &mut commands);
    assert_eq!(commands.len(), 2);
    assert!(matches!(&commands[0], BehaviorCommand::SetVisibility { target, visible: true } if target == "menu-item-0"));
    assert!(matches!(&commands[1], BehaviorCommand::SetOffset { target, dx: 1, dy: -2 } if target == "menu-item-0"));
}

#[test]
fn rhai_script_behavior_emits_set_text_command() {
    let entries = vec![Some(ScriptCommandFields {
        text: Some("Memory Check: 0640K".to_string()),
        ..with_target("set-text", "ram-counter-line")
    })];
    let mut commands = Vec::new();
    apply_script_commands(&entries, &mut commands);
    assert_eq!(commands.len(), 1);
    assert!(matches!(
        &commands[0],
        BehaviorCommand::SetText { target, text } if target == "ram-counter-line" && text == "Memory Check: 0640K"
    ));
}

#[test]
fn rhai_script_behavior_emits_set_props_command() {
    let entries = vec![Some(ScriptCommandFields {
        visible: Some(true),
        dx: Some(2),
        dy: Some(-1),
        text: Some("HELLO".to_string()),
        ..with_target("set-props", "menu-item-0")
    })];
    let mut commands = Vec::new();
    apply_script_commands(&entries, &mut commands);
    assert_eq!(commands.len(), 1);
    assert!(matches!(
        &commands[0],
        BehaviorCommand::SetProps { target, visible: Some(true), dx: Some(2), dy: Some(-1), text: Some(t) }
            if target == "menu-item-0" && t == "HELLO"
    ));
}

#[test]
fn rhai_script_behavior_emits_set_property_command() {
    let entries = vec![Some(ScriptCommandFields {
        path: Some("position.y".to_string()),
        value: Some(Doc::Number("3".to_string())),
        ..with_target("set", "menu-item-0")
    })];
    let mut commands = Vec::new();
    apply_script_commands(&entries, &mut commands);
    assert_eq!(commands.len(), 1);
    assert!(matches!(
        &commands[0],
        BehaviorCommand::SetProperty { target, path, value: Doc::Number(n) }
            if target == "menu-item-0" && path == "position.y" && n == "3"
    ));
}
