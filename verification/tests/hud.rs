use pcstone::hud::{
    bar_fill, drift_x, health_color, restart_prompt_visible, start_prompt_visible, winner,
    BAR_WIDTH, COLOR_GOOD, COLOR_HALF, COLOR_LOW,
};
use pcstone::model::Player;

fn with_health(id: u32, health: u32) -> Player {
    let mut p = Player::fresh(id, 0xffffffff, 144);
    p.health = health;
    p
}

#[test]
fn winner_is_the_first_player_with_health() {
    assert_eq!(winner(&vec![with_health(0, 0), with_health(1, 4)]), Some(1));
    assert_eq!(winner(&vec![with_health(0, 2), with_health(1, 0)]), Some(0));
    assert_eq!(winner(&vec![with_health(0, 2), with_health(1, 3)]), Some(0));
}

#[test]
fn nobody_wins_a_draw() {
    assert_eq!(winner(&vec![with_health(0, 0), with_health(1, 0)]), None);
    assert_eq!(winner(&Vec::new()), None);
}

#[test]
fn bar_fills_in_proportion() {
    assert_eq!(BAR_WIDTH, 10);
    assert_eq!(bar_fill(0, 10), 0);
    assert_eq!(bar_fill(3, 10), 3);
    assert_eq!(bar_fill(10, 10), 10);
    assert_eq!(bar_fill(2, 5), 4);
    assert_eq!(bar_fill(1, 3), 3);
    assert_eq!(bar_fill(2, 3), 6);
    assert_eq!(bar_fill(u32::MAX - 1, u32::MAX), 9);
}

#[test]
fn bar_without_a_cap_is_empty_and_none_is_overfull() {
    assert_eq!(bar_fill(0, 0), 0);
    assert_eq!(bar_fill(7, 0), 0);
    assert_eq!(bar_fill(11, 10), 10);
}

#[test]
fn health_colour_by_quarters() {
    assert_eq!(health_color(10, 10), COLOR_GOOD);
    assert_eq!(health_color(6, 10), COLOR_GOOD);
    assert_eq!(health_color(5, 10), COLOR_HALF);
    assert_eq!(health_color(3, 10), COLOR_HALF);
    assert_eq!(health_color(2, 10), COLOR_LOW);
    assert_eq!(health_color(0, 10), COLOR_LOW);
    assert_eq!(health_color(1, 4), COLOR_LOW);
    assert_eq!(health_color(2, 4), COLOR_HALF);
    assert_eq!(health_color(0, 0), COLOR_GOOD);
    assert_eq!(health_color(u32::MAX, u32::MAX), COLOR_GOOD);
}

#[test]
fn prompts_blink() {
    assert!(start_prompt_visible(0));
    assert!(start_prompt_visible(29));
    assert!(!start_prompt_visible(30));
    assert!(!start_prompt_visible(59));
    assert!(start_prompt_visible(60));
    assert!(restart_prompt_visible(0, 0));
    assert!(restart_prompt_visible(15, 0));
    assert!(!restart_prompt_visible(16, 0));
    assert!(!restart_prompt_visible(31, 0));
    assert!(restart_prompt_visible(32, 0));
    assert!(!restart_prompt_visible(0, 1));
}

#[test]
fn drifting_wraps_at_the_width_of_the_field() {
    assert_eq!(drift_x(0), 0);
    assert_eq!(drift_x(255), 255);
    assert_eq!(drift_x(256), 0);
    assert_eq!(drift_x(1000), 232);
}
