use magicrate::activation::{ActivationChange, ActivationCounter};
use magicrate::game_flow::GameMode;
use magicrate::player_logic::{
    after_ceiling_probe, after_floor_probe, after_landing_probe, animation_name_for_state,
    cooldown_after_frame, facing_from, is_jump_active, jump_starts, jump_tick, push_chain_length,
    push_frame, state_after_frame, update_push_intent, PlayerState, PushIntentProgress, PushState,
};
use magicrate::scene_rules::{
    all_goals_active, any_switch_active, crate_rule_is_solid, is_entity_placeholder,
    is_placeholder_identifier, next_stage_index, player_rule_is_solid, stage_index_is_valid,
    stage_number,
};
use magicrate::undo_history::{
    pop_previous, push_dedup_with_cap, snapshot_restore_plan, RestoreAction,
};

#[test]
fn first_enter_activates() {
    let mut counter = ActivationCounter::default();

    let change = counter.on_enter(true);

    assert_eq!(change, ActivationChange::Activated);
    assert!(counter.is_active());
}

#[test]
fn multiple_enters_only_activate_once() {
    let mut counter = ActivationCounter::default();

    assert_eq!(counter.on_enter(true), ActivationChange::Activated);
    assert_eq!(counter.on_enter(true), ActivationChange::Unchanged);
    assert!(counter.is_active());
}

#[test]
fn irrelevant_body_never_changes_state() {
    let mut counter = ActivationCounter::default();

    assert_eq!(counter.on_enter(false), ActivationChange::Unchanged);
    assert_eq!(counter.on_exit(false), ActivationChange::Unchanged);
    assert!(!counter.is_active());
}

#[test]
fn leaving_last_body_deactivates() {
    let mut counter = ActivationCounter::default();
    counter.on_enter(true);

    let change = counter.on_exit(true);

    assert_eq!(change, ActivationChange::Deactivated);
    assert!(!counter.is_active());
}

#[test]
fn extra_exit_is_safely_ignored() {
    let mut counter = ActivationCounter::default();

    let change = counter.on_exit(true);

    assert_eq!(change, ActivationChange::Unchanged);
    assert!(!counter.is_active());
}

#[test]
fn two_bodies_keep_trigger_active_until_both_leave() {
    let mut counter = ActivationCounter::default();
    assert_eq!(counter.on_enter(true), ActivationChange::Activated);
    assert_eq!(counter.on_enter(true), ActivationChange::Unchanged);
    assert_eq!(counter.on_exit(true), ActivationChange::Unchanged);
    assert!(counter.is_active());
    assert_eq!(counter.on_exit(true), ActivationChange::Deactivated);
    assert!(!counter.is_active());
}

#[test]
fn enter_then_exit_restores_counter() {
    let mut counter = ActivationCounter::default();
    counter.on_enter(true);
    let before = counter;
    counter.on_enter(true);
    counter.on_exit(true);
    assert_eq!(counter, before);
}

#[test]
fn update_push_intent_handles_direction_change_and_cooldown() {
    let (dir, timer, phase) = update_push_intent(0, 0, 1, 6);
    assert_eq!(
        (dir, timer, phase),
        (1, 6, PushIntentProgress::DirectionChanged)
    );

    let (dir, timer, phase) = update_push_intent(dir, timer, 1, 6);
    assert_eq!((dir, timer, phase), (1, 5, PushIntentProgress::Waiting));

    let (dir, timer, phase) = update_push_intent(dir, 0, 1, 6);
    assert_eq!((dir, timer, phase), (1, 0, PushIntentProgress::Ready));
}

#[test]
fn push_intent_is_ready_after_resistance_frames() {
    let resist = 3;
    let (mut dir, mut timer, phase) = update_push_intent(-1, 0, 1, resist);
    assert_eq!(phase, PushIntentProgress::DirectionChanged);
    for _ in 0..resist {
        let next = update_push_intent(dir, timer, 1, resist);
        assert_eq!(next.2, PushIntentProgress::Waiting);
        dir = next.0;
        timer = next.1;
    }
    assert_eq!(
        update_push_intent(dir, timer, 1, resist),
        (1, 0, PushIntentProgress::Ready)
    );
}

#[test]
fn negative_resistance_starts_at_zero() {
    assert_eq!(
        update_push_intent(1, 4, -1, -5),
        (-1, 0, PushIntentProgress::DirectionChanged)
    );
}

#[test]
fn player_template_animation_names_match_states() {
    assert_eq!(animation_name_for_state(PlayerState::Idle), "idle");
    assert_eq!(animation_name_for_state(PlayerState::Move), "move");
    assert_eq!(animation_name_for_state(PlayerState::Jump), "jump");
}

#[test]
fn player_state_follows_jump_floor_and_motion() {
    assert_eq!(state_after_frame(3, true, true), PlayerState::Jump);
    assert_eq!(state_after_frame(0, false, false), PlayerState::Jump);
    assert_eq!(state_after_frame(0, true, true), PlayerState::Move);
    assert_eq!(state_after_frame(0, true, false), PlayerState::Idle);
    assert!(is_jump_active(1, PlayerState::Idle));
    assert!(is_jump_active(0, PlayerState::Jump));
    assert!(!is_jump_active(0, PlayerState::Move));
    assert_eq!(facing_from(-7), -1);
    assert_eq!(facing_from(0), 1);
    assert_eq!(facing_from(3), 1);
}

#[test]
fn restart_and_undo_depend_on_mode() {
    assert!(GameMode::Transition.restart_requested(true, false));
    assert!(GameMode::Over.restart_requested(false, true));
    assert!(!GameMode::Playing.restart_requested(false, true));
    assert!(GameMode::Playing.undo_requested(true));
    assert!(!GameMode::Over.undo_requested(true));
    assert!(!GameMode::Transition.undo_requested(true));
    assert!(!GameMode::Playing.undo_requested(false));
}

#[test]
fn push_dedup_skips_close_snapshot() {
    let mut history: Vec<i32> = vec![10];

    push_dedup_with_cap(&mut history, 11, 10, |left, right| (*left - *right).abs() <= 1);

    assert_eq!(history, vec![10]);
}

#[test]
fn push_dedup_appends_distinct_snapshot() {
    let mut history: Vec<i32> = vec![10];

    push_dedup_with_cap(&mut history, 12, 10, |left, right| (*left - *right).abs() <= 1);

    assert_eq!(history, vec![10, 12]);
}

#[test]
fn push_dedup_applies_capacity() {
    let mut history = vec![1, 2, 3];

    push_dedup_with_cap(&mut history, 4, 2, |left, right| left == right);

    assert_eq!(history, vec![3, 4]);
}

#[test]
fn push_dedup_zero_capacity_keeps_newest() {
    let mut history = vec![1, 2];

    push_dedup_with_cap(&mut history, 5, 0, |left, right| left == right);

    assert_eq!(history, vec![5]);
}

#[test]
fn push_dedup_into_empty_history() {
    let mut history: Vec<i32> = Vec::new();

    push_dedup_with_cap(&mut history, 7, 3, |_left, _right| true);

    assert_eq!(history, vec![7]);
}

#[test]
fn pop_previous_requires_two_snapshots() {
    let mut history = vec![1];

    let popped = pop_previous(&mut history);

    assert_eq!(popped, None);
    assert_eq!(history, vec![1]);
}

#[test]
fn pop_previous_discards_latest_and_returns_new_latest() {
    let mut history = vec![1, 2, 3];

    let popped = pop_previous(&mut history);

    assert_eq!(popped, Some(2));
    assert_eq!(history, vec![1, 2]);
}

#[test]
fn push_then_undo_returns_previous_snapshot() {
    let mut history = vec![4, 8];
    push_dedup_with_cap(&mut history, 20, 2, |left, right| left == right);
    assert_eq!(history, vec![8, 20]);
    assert_eq!(pop_previous(&mut history), Some(8));
    assert_eq!(pop_previous(&mut history), None);
}

#[test]
fn tile_rules_and_placeholders() {
    assert!(player_rule_is_solid(1, 1));
    assert!(!player_rule_is_solid(1, 2));
    assert!(crate_rule_is_solid(1, 2, 2));
    assert!(crate_rule_is_solid(1, 2, 1));
    assert!(!crate_rule_is_solid(1, 2, 0));
    let ids = ["PlayerSpawn", "PushableCrate", "GoalPetal"];
    assert!(is_placeholder_identifier(&ids, "GoalPetal"));
    assert!(!is_placeholder_identifier(&ids, "Goal"));
    let suffix = "addons/ldtk-importer/src/components/ldtk-entity.gd";
    assert!(is_entity_placeholder(&ids, "Other", Some("res://addons/ldtk-importer/src/components/ldtk-entity.gd"), suffix));
    assert!(!is_entity_placeholder(&ids, "Other", Some("res://entity/crate.gd"), suffix));
    assert!(is_entity_placeholder(&ids, "PlayerSpawn", None, suffix));
    assert!(!is_entity_placeholder(&ids, "", None, suffix));
}

#[test]
fn stage_indices_wrap_and_validate() {
    assert!(stage_index_is_valid(0, 3));
    assert!(stage_index_is_valid(2, 3));
    assert!(!stage_index_is_valid(3, 3));
    assert!(!stage_index_is_valid(-1, 3));
    assert!(!stage_index_is_valid(0, 0));
    assert_eq!(next_stage_index(0, 3), Some(1));
    assert_eq!(next_stage_index(2, 3), Some(0));
    assert_eq!(next_stage_index(0, 0), None);
    assert_eq!(next_stage_index(-1, 3), Some(0));
    assert_eq!(next_stage_index(-3, 5), Some(((-2i32) as usize) % 5));
    assert_eq!(stage_number(4), 5);
}

#[test]
fn bridge_and_goal_decisions() {
    assert!(any_switch_active(&[false, true]));
    assert!(!any_switch_active(&[false, false]));
    assert!(!any_switch_active(&[]));
    assert!(all_goals_active(&[true, true]));
    assert!(!all_goals_active(&[true, false]));
    assert!(!all_goals_active(&[]));
}

fn push_state(intent_dir: i32, intent_timer: i32, cooldown: i32) -> PushState {
    PushState {
        intent_dir,
        intent_timer,
        cooldown,
    }
}

#[test]
fn push_happens_after_holding_through_resistance() {
    let mut state = push_state(0, 0, 0);
    let mut pushes = Vec::new();
    for _ in 0..5 {
        let (next, pushed) = push_frame(state, Some(1), true, true, 2, 8);
        pushes.push(pushed);
        state = next;
        if pushed {
            break;
        }
    }
    assert_eq!(pushes, vec![false, false, false, true]);
    assert_eq!(state, push_state(0, 0, 8));
}

#[test]
fn push_intent_cleared_without_direction_floor_or_crates() {
    let holding = push_state(1, 2, 0);
    assert_eq!(push_frame(holding, None, true, true, 6, 8), (push_state(0, 0, 0), false));
    assert_eq!(push_frame(holding, Some(1), false, true, 6, 8), (push_state(0, 0, 0), false));
    assert_eq!(push_frame(holding, Some(1), true, false, 6, 8), (push_state(0, 0, 0), false));
    assert_eq!(push_frame(holding, Some(1), true, true, 6, 8), (push_state(1, 1, 0), false));
    assert_eq!(push_frame(holding, Some(-1), true, false, 6, 8), (push_state(-1, 6, 0), false));
    let ready = push_state(-1, 0, 0);
    assert_eq!(push_frame(ready, Some(-1), true, false, 6, 8), (push_state(0, 0, 0), false));
}

#[test]
fn no_push_during_cooldown() {
    let ready = push_state(1, 0, 3);
    assert_eq!(push_frame(ready, Some(1), true, true, 6, 8), (push_state(0, 0, 3), false));
}

#[test]
fn transition_tick_loads_next_stage_when_countdown_ends() {
    assert_eq!(GameMode::Transition.after_transition_tick(false), (GameMode::Transition, false));
    assert_eq!(GameMode::Transition.after_transition_tick(true), (GameMode::Playing, true));
    assert_eq!(GameMode::Playing.after_transition_tick(true), (GameMode::Playing, false));
    assert_eq!(GameMode::Over.after_transition_tick(true), (GameMode::Over, false));
}

#[test]
fn restart_requested_by_restart_button_in_any_mode() {
    let over = GameMode::Over;
    let transition = GameMode::Transition;

    assert!(over.restart_requested(true, false));
    assert!(transition.restart_requested(true, false));
}

#[test]
fn restart_requested_by_jump_only_in_over_mode() {
    let playing = GameMode::Playing;
    let over = GameMode::Over;

    assert!(!playing.restart_requested(false, true));
    assert!(over.restart_requested(false, true));
}

#[test]
fn undo_only_allowed_while_playing() {
    let playing = GameMode::Playing;
    let over = GameMode::Over;

    assert!(playing.undo_requested(true));
    assert!(!over.undo_requested(true));
}

// The transition timer itself is an f64 kept by the game; these check the
// decision that the library makes once the game knows whether the
// countdown is over.

#[test]
fn transition_tick_counts_down_without_loading() {
    // 0.8 s left, 0.2 s pass: the countdown is not over.
    let (mode, should_load_next_stage) = GameMode::Transition.after_transition_tick(false);

    assert!(!should_load_next_stage);
    assert_eq!(mode, GameMode::Transition);
}

#[test]
fn transition_tick_requests_next_stage_when_timer_ends() {
    // 0.2 s left, 0.3 s pass: the countdown is over.
    let (mode, should_load_next_stage) = GameMode::Transition.after_transition_tick(true);

    assert!(should_load_next_stage);
    assert_eq!(mode, GameMode::Playing);
}

#[test]
fn non_transition_tick_is_noop() {
    for countdown_over in [false, true] {
        let (mode, should_load_next_stage) = GameMode::Playing.after_transition_tick(countdown_over);

        assert!(!should_load_next_stage);
        assert_eq!(mode, GameMode::Playing);
    }
}

#[test]
fn push_chain_counts_crates_in_a_row() {
    let occupied = vec![(16, 16), (24, 16), (40, 16), (32, 8)];

    assert_eq!(push_chain_length((16, 16), 8, &occupied), 2);
    assert_eq!(push_chain_length((24, 16), -8, &occupied), 2);
    assert_eq!(push_chain_length((32, 16), 8, &occupied), 0);
    assert_eq!(push_chain_length((40, 16), 8, &occupied), 1);
}

#[test]
fn push_chain_stops_at_the_edge_of_the_key_range() {
    let occupied = vec![(i32::MAX - 1, 0), (i32::MAX, 0)];

    assert_eq!(push_chain_length((i32::MAX - 1, 0), 1, &occupied), 2);
}

#[test]
fn snapshot_restore_matches_crates_by_name() {
    let scene = vec!["Crate".to_string(), "Crate2".to_string(), "Crate".to_string(), "Extra".to_string()];
    let snapshot = vec!["Crate2".to_string(), "Crate".to_string(), "Crate".to_string(), "Gone".to_string()];

    assert_eq!(
        snapshot_restore_plan(&scene, &snapshot),
        vec![
            RestoreAction::Untouched,
            RestoreAction::Restore(0),
            RestoreAction::Restore(1),
            RestoreAction::Stop,
        ]
    );
    assert_eq!(snapshot_restore_plan(&Vec::new(), &snapshot), Vec::<RestoreAction>::new());
}

#[test]
fn cooldown_counts_down_to_zero() {
    assert_eq!(cooldown_after_frame(8), 7);
    assert_eq!(cooldown_after_frame(1), 0);
    assert_eq!(cooldown_after_frame(0), 0);
    assert_eq!(cooldown_after_frame(-3), -3);
}

#[test]
fn jump_starts_only_from_rest_on_the_floor() {
    assert!(jump_starts(true, true, 0, true));
    assert!(!jump_starts(false, true, 0, true));
    assert!(!jump_starts(true, false, 0, true));
    assert!(!jump_starts(true, true, 3, true));
    assert!(!jump_starts(true, true, 0, false));
}

#[test]
fn vertical_probes_decide_the_counter() {
    assert_eq!(jump_tick(49, 44), (48, true));
    assert_eq!(jump_tick(45, 44), (44, false));
    assert_eq!(jump_tick(0, 44), (0, false));
    assert_eq!(after_ceiling_probe(47, true, 44), 44);
    assert_eq!(after_ceiling_probe(47, false, 44), 47);
    assert_eq!(after_ceiling_probe(44, true, 44), 44);
    assert_eq!(after_floor_probe(43, false, 44), (1, true));
    assert_eq!(after_floor_probe(43, true, 44), (43, false));
    assert_eq!(after_floor_probe(44, false, 44), (44, false));
    assert_eq!(after_landing_probe(3, true), (0, true));
    assert_eq!(after_landing_probe(0, true), (0, true));
    assert_eq!(after_landing_probe(3, false), (3, false));
}

/// One frame of vertical motion in open air: (counter, stepped up, stepped down).
fn airborne(counter: i32) -> (i32, bool, bool) {
    let (counter, up) = jump_tick(counter, 44);
    let counter = after_ceiling_probe(counter, false, 44);
    let (counter, down) = after_floor_probe(counter, false, 44);
    let (counter, _) = after_landing_probe(counter, false);
    (counter, up, down)
}

#[test]
fn jump_rises_then_falls_in_open_air() {
    let mut counter = 49;
    let mut ups = 0;
    for frame in 0..20 {
        let (next, up, down) = airborne(counter);
        if frame < 4 {
            assert!(up && !down);
        } else if frame == 4 {
            assert!(!up && !down);
        } else {
            assert!(!up && down);
        }
        if up {
            ups += 1;
        }
        counter = next;
    }
    assert_eq!(ups, 49 - 1 - 44);
}

#[test]
fn ceiling_cuts_the_rise() {
    let (counter, up) = jump_tick(49, 44);
    assert!(up);
    let counter = after_ceiling_probe(counter, true, 44);
    assert_eq!(jump_tick(counter, 44), (43, false));
}
