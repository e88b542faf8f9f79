use engine_behavior::geometry::sin32_i32;
use engine_behavior::menu::wrapped_menu_distance;
use engine_behavior::params::BehaviorParams;
use engine_behavior::text::trim;
use engine_behavior::timing::BlinkBehavior;
use engine_behavior::command::BehaviorCommand;

fn blink_at(b: &mut BlinkBehavior, t: u64) -> bool {
    let mut c = Vec::new();
    b.update("obj", t, &mut c);
    match &c[0] {
        BehaviorCommand::SetVisibility { visible, .. } => *visible,
        _ => panic!("expected visibility"),
    }
}

#[test]
fn blink_repeats_every_cycle() {
    let mut b = BlinkBehavior::from_params(&BehaviorParams {
        visible_ms: Some(100),
        hidden_ms: Some(50),
        phase_ms: Some(30),
        ..BehaviorParams::default()
    });
    for t in [0u64, 69, 70, 119, 120, 149] {
        assert_eq!(blink_at(&mut b, t), blink_at(&mut b, t + 150));
    }
    assert!(blink_at(&mut b, 0));
    assert!(!blink_at(&mut b, 70));
}

#[test]
fn sine_table_is_periodic_and_odd_after_half_a_turn() {
    for i in -40..40 {
        assert_eq!(sin32_i32(i + 32), sin32_i32(i));
        assert_eq!(sin32_i32(i + 16), -sin32_i32(i));
    }
}

#[test]
fn trimming_twice_is_trimming_once() {
    for s in ["  a b  ", "\u{2003}x\t", "", "   ", "plain"] {
        let once = trim(s);
        assert_eq!(trim(&once), once);
    }
}

#[test]
fn wrapped_distance_picks_the_shorter_way_round() {
    assert_eq!(wrapped_menu_distance(0, 6, 7), 1);
    assert_eq!(wrapped_menu_distance(6, 0, 7), -1);
    assert_eq!(wrapped_menu_distance(3, 0, 7), 3);
    assert_eq!(wrapped_menu_distance(2, 2, 7), 0);
}
