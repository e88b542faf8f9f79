use engine_behavior::command::BehaviorCommand;
use engine_behavior::menu::{MenuCarouselBehavior, MenuCarouselObjectBehavior, MenuSelectedBehavior};
use engine_behavior::params::{BehaviorParams, Region};
use engine_behavior::timing::{BlinkBehavior, CueTiming, SceneAudioBehavior, SceneStage};

fn region(x: u16, y: u16, width: u16, height: u16) -> Region {
    Region { x, y, width, height }
}

fn visibility(c: &BehaviorCommand) -> Option<(String, bool)> {
    match c {
        BehaviorCommand::SetVisibility { target, visible } => Some((target.clone(), *visible)),
        _ => None,
    }
}

fn offset(c: &BehaviorCommand) -> Option<(String, i32, i32)> {
    match c {
        BehaviorCommand::SetOffset { target, dx, dy } => Some((target.clone(), *dx, *dy)),
        _ => None,
    }
}

fn carousel(index: usize, window: usize, step_y: i32, endless: bool) -> MenuCarouselBehavior {
    MenuCarouselBehavior::from_params(&BehaviorParams {
        target: Some("menu-grid".to_string()),
        index: Some(index),
        window: Some(window),
        step_y: Some(step_y),
        endless: Some(endless),
        ..BehaviorParams::default()
    })
}

#[test]
fn blink_behavior_toggles_visibility() {
    let mut behavior = BlinkBehavior::from_params(&BehaviorParams {
        visible_ms: Some(100),
        hidden_ms: Some(100),
        ..BehaviorParams::default()
    });
    let mut commands = Vec::new();
    behavior.update("scene:intro", 150, &mut commands);
    assert_eq!(commands.len(), 1);
    assert_eq!(visibility(&commands[0]), Some(("scene:intro".to_string(), false)));
}

#[test]
fn menu_selected_behavior_visibility_matches_selected_index() {
    let mut behavior = MenuSelectedBehavior::from_params(&BehaviorParams {
        index: Some(1),
        ..BehaviorParams::default()
    });
    let mut commands = Vec::new();
    behavior.update("scene:intro", 1, &mut commands);
    assert_eq!(commands.len(), 1);
    assert_eq!(visibility(&commands[0]), Some(("scene:intro".to_string(), true)));
}

#[test]
fn menu_carousel_centers_selected_item_in_target_region() {
    let mut behavior = carousel(2, 5, 2, true);
    let mut commands = Vec::new();
    behavior.update(
        "scene:intro",
        7,
        2,
        Some(region(0, 10, 40, 9)),
        Some(region(10, 20, 12, 1)),
        &mut commands,
    );
    assert_eq!(commands.len(), 2);
    assert_eq!(visibility(&commands[0]), Some(("scene:intro".to_string(), true)));
    assert_eq!(offset(&commands[1]), Some(("scene:intro".to_string(), 0, -6)));
}

#[test]
fn menu_carousel_wraps_when_endless_enabled() {
    let mut behavior = carousel(0, 5, 2, true);
    let mut commands = Vec::new();
    behavior.update(
        "scene:intro",
        7,
        6,
        Some(region(0, 10, 40, 9)),
        Some(region(10, 20, 12, 1)),
        &mut commands,
    );
    assert_eq!(commands.len(), 2);
    assert_eq!(visibility(&commands[0]), Some(("scene:intro".to_string(), true)));
    assert_eq!(offset(&commands[1]), Some(("scene:intro".to_string(), 0, -4)));
}

#[test]
fn menu_carousel_hides_items_outside_window() {
    let mut behavior = carousel(6, 5, 2, false);
    let mut commands = Vec::new();
    behavior.update(
        "scene:intro",
        7,
        0,
        Some(region(0, 10, 40, 9)),
        Some(region(10, 20, 12, 1)),
        &mut commands,
    );
    assert_eq!(commands.len(), 1);
    assert_eq!(visibility(&commands[0]), Some(("scene:intro".to_string(), false)));
}

#[test]
fn menu_carousel_uses_min_step_based_on_item_height() {
    let mut behavior = carousel(0, 3, 1, true);
    let mut commands = Vec::new();
    behavior.update(
        "scene:intro",
        3,
        2,
        Some(region(0, 10, 40, 9)),
        Some(region(10, 20, 24, 3)),
        &mut commands,
    );
    assert_eq!(commands.len(), 2);
    assert_eq!(visibility(&commands[0]), Some(("scene:intro".to_string(), true)));
    assert_eq!(offset(&commands[1]), Some(("scene:intro".to_string(), 0, -2)));
}

#[test]
fn menu_carousel_object_controls_multiple_items_from_single_behavior() {
    let mut behavior = MenuCarouselObjectBehavior::from_params(&BehaviorParams {
        target: Some("menu-grid".to_string()),
        item_prefix: Some("menu-item-".to_string()),
        count: Some(3),
        window: Some(3),
        step_y: Some(2),
        endless: Some(true),
        ..BehaviorParams::default()
    });
    let items = vec![
        Some(region(10, 6, 20, 1)),
        Some(region(10, 10, 20, 1)),
        Some(region(10, 14, 20, 1)),
    ];
    let mut commands = Vec::new();
    behavior.update(3, 1, Some(region(0, 10, 40, 9)), &items, &mut commands);
    assert_eq!(commands.len(), 6);
    assert_eq!(visibility(&commands[0]), Some(("menu-item-0".to_string(), true)));
    assert_eq!(offset(&commands[1]), Some(("menu-item-0".to_string(), 0, 6)));
    assert_eq!(visibility(&commands[2]), Some(("menu-item-1".to_string(), true)));
    assert_eq!(offset(&commands[3]), Some(("menu-item-1".to_string(), 0, 4)));
    assert_eq!(visibility(&commands[4]), Some(("menu-item-2".to_string(), true)));
    assert_eq!(offset(&commands[5]), Some(("menu-item-2".to_string(), 0, 2)));
}

#[test]
fn scene_audio_behavior_emits_each_cue_once() {
    let cues = vec![CueTiming { at_ms: 100, cue: "thunder".to_string() }];
    let mut behavior = SceneAudioBehavior::default();
    let first = behavior.update("intro", "scene:intro", SceneStage::OnEnter, 100, &cues);
    let second = behavior.update("intro", "scene:intro", SceneStage::OnEnter, 100, &cues);
    assert_eq!(first, vec![0]);
    assert!(second.is_empty());
}

#[test]
fn carousel_frame_inputs_are_checked_before_layout() {
    let behavior = carousel(2, 5, 2, true);
    assert!(behavior.frame_fits(7, 2, Some(region(0, 10, 40, 9)), Some(region(10, 20, 12, 1))));
    assert!(behavior.frame_fits(0, 0, None, None));
    let object = MenuCarouselObjectBehavior::from_params(&BehaviorParams {
        target: Some("menu-grid".to_string()),
        count: Some(3),
        ..BehaviorParams::default()
    });
    let two = vec![Some(region(10, 6, 20, 1)), None];
    assert!(!object.frame_fits(3, 0, Some(region(0, 10, 40, 9)), &two));
    let three = vec![None, None, None];
    assert!(object.frame_fits(3, 0, Some(region(0, 10, 40, 9)), &three));
}

#[test]
fn carousel_hiding_forgets_the_offset() {
    let mut behavior = carousel(2, 5, 2, true);
    let mut commands = Vec::new();
    behavior.update("scene:intro", 7, 2, Some(region(0, 10, 40, 9)), Some(region(10, 20, 12, 1)), &mut commands);
    behavior.hide_and_reset("scene:intro", &mut commands);
    assert_eq!(visibility(&commands[2]), Some(("scene:intro".to_string(), false)));
    commands.clear();
    // Back in view: the move is computed from the unshifted row again.
    behavior.update("scene:intro", 7, 2, Some(region(0, 10, 40, 9)), Some(region(10, 20, 12, 1)), &mut commands);
    assert_eq!(offset(&commands[1]), Some(("scene:intro".to_string(), 0, -6)));
}
