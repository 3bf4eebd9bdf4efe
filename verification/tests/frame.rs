use pcstone::frame::{player_detection, step, update_game_screen};
use pcstone::model::{GameState, PadInput, Player, Projectile, ProjectileType, Screen};

const W: u32 = 256;
const H: u32 = 144;

fn pad() -> PadInput {
    PadInput::idle()
}

fn fresh(id: u32) -> Player {
    Player::fresh(id, if id == 0 { 0xffffffff } else { 0xff0000ff }, H)
}

fn round_of_two() -> GameState {
    let mut state = GameState::new(H);
    state.screen = Screen::Game;
    state.tick = 1;
    state.players.push(fresh(1));
    state
}

fn cake(owner: u32, x: i32, y: i32, angle: i32) -> Projectile {
    Projectile {
        x,
        y,
        width: 6,
        height: 7,
        velocity: 5,
        angle,
        damage: 1,
        projectile_type: ProjectileType::Basic,
        projectile_owner: Some(owner),
        ttl: None,
    }
}

#[test]
fn session_starts_in_the_menu_with_the_first_player() {
    let state = GameState::new(H);
    assert_eq!(
        state,
        GameState {
            screen: Screen::Menu,
            tick: 0,
            hit_timer: 0,
            players: vec![fresh(0)],
            projectiles: vec![],
        }
    );
    assert_eq!(GameState::new(100).players[0].y, 50);
    assert_eq!(GameState::new(u32::MAX).players[0].y, i32::MAX);
}

#[test]
fn start_button_opens_the_round() {
    let mut state = GameState::new(H);
    state.tick = 40;
    player_detection(&mut state, &vec![PadInput { start: true, ..pad() }]);
    assert_eq!(state.screen, Screen::Game);
    assert_eq!(state.tick, 0);
    assert_eq!(state.players.len(), 1);
}

#[test]
fn menu_waits_without_a_button() {
    let mut state = GameState::new(H);
    state.tick = 40;
    player_detection(&mut state, &vec![PadInput { b: true, up: true, ..pad() }]);
    assert_eq!(state.screen, Screen::Menu);
    assert_eq!(state.tick, 40);
    assert_eq!(state.players, vec![fresh(0)]);
}

#[test]
fn second_player_joins_from_the_menu_as_a_copy_of_the_first() {
    let mut state = GameState::new(H);
    state.players[0].y = 33;
    let pads = vec![pad(), PadInput { a: true, ..pad() }];
    player_detection(&mut state, &pads);
    assert_eq!(state.players.len(), 2);
    assert_eq!(state.players[1], Player { id: 1, color: 0xff0000ff, x: 240, y: 33, ..fresh(0) });
    player_detection(&mut state, &pads);
    assert_eq!(state.players.len(), 2);
    assert_eq!(state.screen, Screen::Menu);
}

#[test]
fn step_counts_the_tick_on_either_screen() {
    let mut state = GameState::new(H);
    step(&mut state, &vec![], W, H);
    assert_eq!(state.tick, 1);
    step(&mut state, &vec![PadInput { a: true, ..pad() }], W, H);
    assert_eq!(state.screen, Screen::Game);
    assert_eq!(state.tick, 1);
    step(&mut state, &vec![], W, H);
    assert_eq!(state.tick, 2);
    assert_eq!(state.players, vec![fresh(0)]);
}

#[test]
fn thrown_cake_rests_in_its_first_frame_and_flies_from_the_next() {
    let mut state = round_of_two();
    update_game_screen(&mut state, &vec![PadInput { a: true, ..pad() }], W, H);
    assert_eq!(state.projectiles, vec![cake(0, 21, 72, 0)]);
    assert_eq!(state.players[0].cakes, 4);
    update_game_screen(&mut state, &vec![], W, H);
    assert_eq!(state.projectiles, vec![cake(0, 26, 72, 0)]);
}

#[test]
fn cake_thrown_into_an_opponent_hits_in_the_next_frame() {
    let mut state = round_of_two();
    state.players[1].x = 24;
    update_game_screen(&mut state, &vec![PadInput { a: true, ..pad() }], W, H);
    assert_eq!(state.players[1].health, 10);
    assert_eq!(state.projectiles.len(), 1);
    update_game_screen(&mut state, &vec![], W, H);
    assert_eq!(state.players[1].health, 9);
    assert!(state.projectiles.is_empty());
    assert_eq!(state.hit_timer, 29);
}

#[test]
fn cake_crosses_the_field_and_hits() {
    let mut state = round_of_two();
    step(&mut state, &vec![PadInput { a: true, ..pad() }], W, H);
    let mut frame: u32 = 1;
    while frame <= 43 {
        step(&mut state, &vec![], W, H);
        assert_eq!(state.players[1].health, 10);
        assert_eq!(state.projectiles, vec![cake(0, 21 + 5 * frame as i32, 72, 0)]);
        frame += 1;
    }
    step(&mut state, &vec![], W, H);
    assert_eq!(state.players[1].health, 9);
    assert_eq!(state.players[0].health, 10);
    assert!(state.projectiles.is_empty());
    assert_eq!(state.hit_timer, 29);
    assert_eq!(state.tick, 46);
}

#[test]
fn cake_that_misses_leaves_the_field() {
    let mut state = round_of_two();
    state.players[1].y = 0;
    state.projectiles = vec![cake(0, 250, 72, 0)];
    update_game_screen(&mut state, &vec![], W, H);
    assert_eq!(state.projectiles, vec![cake(0, 255, 72, 0)]);
    update_game_screen(&mut state, &vec![], W, H);
    assert!(state.projectiles.is_empty());
}

#[test]
fn cooldown_runs_down_by_one_per_frame() {
    let mut state = round_of_two();
    state.hit_timer = 2;
    update_game_screen(&mut state, &vec![], W, H);
    assert_eq!(state.hit_timer, 1);
    update_game_screen(&mut state, &vec![], W, H);
    assert_eq!(state.hit_timer, 0);
    update_game_screen(&mut state, &vec![], W, H);
    assert_eq!(state.hit_timer, 0);
}

#[test]
fn lethal_hit_ends_the_round() {
    let mut state = round_of_two();
    state.players[1].health = 1;
    state.projectiles = vec![cake(0, 238, 72, 0)];
    update_game_screen(&mut state, &vec![], W, H);
    assert_eq!(state.players[1].health, 0);
    assert_eq!(state.hit_timer, 119);
    assert!(state.projectiles.is_empty());
}

#[test]
fn pads_do_nothing_while_the_round_is_over() {
    let mut state = round_of_two();
    state.players[1].health = 0;
    state.hit_timer = 5;
    let busy = PadInput { up: true, left: true, a: true, b: true, start: true, ..pad() };
    let mut idle = state.clone();
    update_game_screen(&mut state, &vec![busy, busy], W, H);
    update_game_screen(&mut idle, &vec![], W, H);
    assert_eq!(state, idle);
    assert_eq!(state.players[0], fresh(0));
    assert_eq!(state.players[1], Player { health: 0, ..fresh(1) });
    assert!(state.projectiles.is_empty());
    assert_eq!(state.hit_timer, 4);
    assert_eq!(state.screen, Screen::Game);
}

#[test]
fn restart_waits_for_the_cooldown() {
    let mut state = round_of_two();
    state.players[0].health = 0;
    state.players[0].x = 99;
    state.hit_timer = 1;
    let pads = vec![PadInput { start: true, ..pad() }];
    update_game_screen(&mut state, &pads, W, H);
    assert_eq!(state.hit_timer, 0);
    assert_eq!(state.players[0].health, 0);
    assert_eq!(state.players[0].x, 99);
    assert_eq!(state.screen, Screen::Game);
    update_game_screen(&mut state, &pads, W, H);
    assert_eq!(
        state,
        GameState {
            screen: Screen::Menu,
            tick: 0,
            hit_timer: 0,
            players: vec![fresh(0), fresh(1)],
            projectiles: vec![],
        }
    );
}

#[test]
fn only_the_first_pad_restarts() {
    let mut state = round_of_two();
    state.players[0].health = 0;
    let before = state.clone();
    update_game_screen(&mut state, &vec![PadInput { b: true, ..pad() }, PadInput { a: true, start: true, ..pad() }], W, H);
    assert_eq!(state, before);
    update_game_screen(&mut state, &vec![PadInput { a: true, ..pad() }], W, H);
    assert_eq!(state.players[0].health, 10);
}

#[test]
fn second_player_joins_a_running_round() {
    let mut state = GameState::new(H);
    state.screen = Screen::Game;
    state.tick = 1;
    state.players[0].y = 10;
    update_game_screen(&mut state, &vec![pad(), PadInput { b: true, ..pad() }], W, H);
    assert_eq!(state.players.len(), 2);
    assert_eq!(state.players[1].id, 1);
    assert_eq!(state.players[1].x, 240);
    assert_eq!(state.players[1].y, 72);
    assert_eq!(state.players[1].cakes, 4);
    assert_eq!(state.projectiles, vec![cake(1, 245, 72, 180)]);
}

#[test]
fn ammo_returns_with_the_tick() {
    let mut state = round_of_two();
    state.players[0].cakes = 2;
    state.tick = 49;
    step(&mut state, &vec![], W, H);
    assert_eq!(state.players[0].cakes, 2);
    assert_eq!(state.tick, 50);
    step(&mut state, &vec![], W, H);
    assert_eq!(state.players[0].cakes, 3);
    let mut frames: u32 = 0;
    while frames < 200 {
        step(&mut state, &vec![], W, H);
        frames += 1;
    }
    assert_eq!(state.players[0].cakes, 5);
    assert_eq!(state.players[1].cakes, 5);
}

#[test]
fn health_and_ammo_stay_within_their_caps_through_a_duel() {
    let mut state = GameState::new(H);
    let mut frame: u32 = 0;
    while frame < 2000 {
        let one = PadInput {
            a: frame % 3 == 0,
            right: frame % 7 < 3,
            left: frame % 11 < 2,
            up: frame % 5 == 0,
            down: frame % 13 == 0,
            ..pad()
        };
        let two = PadInput { b: frame % 4 == 0, left: frame % 9 < 4, ..pad() };
        step(&mut state, &vec![one, two], W, H);
        assert!(state.players.len() >= 1 && state.players.len() <= 2);
        for p in state.players.iter() {
            assert!(p.health <= p.max_health);
            assert!(p.cakes <= p.max_cakes);
            assert!(p.x >= 0 && p.x <= (W - p.width) as i32);
            assert!(p.y >= 0 && p.y <= (H - p.height) as i32);
        }
        for c in state.projectiles.iter() {
            assert!(c.angle == 0 || c.angle == 180);
        }
        frame += 1;
    }
}

#[test]
fn reachable_states_are_well_formed() {
    let mut state = GameState::new(H);
    assert!(state.is_well_formed());
    let mut frame: u32 = 0;
    while frame < 300 {
        let busy = PadInput { a: frame % 2 == 0, b: true, right: true, ..pad() };
        step(&mut state, &vec![busy, busy], W, H);
        assert!(state.is_well_formed());
        frame += 1;
    }
}

#[test]
fn malformed_states_are_told_apart() {
    let mut state = round_of_two();
    assert!(state.is_well_formed());
    state.players[1].id = 0;
    assert!(!state.is_well_formed());
    let mut state = round_of_two();
    state.players[0].health = 11;
    assert!(!state.is_well_formed());
    let mut state = round_of_two();
    state.players[1].cakes = 6;
    assert!(!state.is_well_formed());
    let mut state = round_of_two();
    state.projectiles.push(cake(0, 1, 1, 45));
    assert!(!state.is_well_formed());
    state.projectiles[0].angle = -270;
    assert!(state.is_well_formed());
    state.players.clear();
    assert!(!state.is_well_formed());
}

#[test]
fn cake_thrown_outside_the_field_is_gone_in_the_same_frame() {
    let mut state = GameState::new(H);
    state.screen = Screen::Game;
    state.tick = 1;
    state.players[0].x = 1000;
    update_game_screen(&mut state, &vec![PadInput { a: true, ..pad() }], W, H);
    assert_eq!(state.players[0].cakes, 4);
    assert_eq!(state.players[0].x, 1000);
    assert!(state.projectiles.is_empty());
}

#[test]
fn cake_thrown_on_a_narrow_field_is_gone_in_the_same_frame() {
    let mut state = round_of_two();
    let pads = vec![pad(), PadInput { b: true, ..pad() }];
    update_game_screen(&mut state, &pads, 244, H);
    assert_eq!(state.players[1].cakes, 4);
    assert!(state.projectiles.is_empty());
    let mut wide = round_of_two();
    update_game_screen(&mut wide, &pads, 245, H);
    assert_eq!(wide.projectiles, vec![cake(1, 245, 72, 180)]);
}

#[test]
fn cake_thrown_at_the_edge_stays_and_is_not_moved() {
    let mut state = round_of_two();
    state.players[0].x = 251;
    update_game_screen(&mut state, &vec![PadInput { a: true, ..pad() }], W, H);
    assert_eq!(state.projectiles, vec![cake(0, 256, 72, 0)]);
    update_game_screen(&mut state, &vec![], W, H);
    assert!(state.projectiles.is_empty());
}

#[test]
fn nothing_in_flight_is_gone_after_a_frame() {
    let mut state = round_of_two();
    state.players[1].y = 0;
    state.projectiles = vec![
        cake(0, 254, 72, 0),
        cake(0, 100, 72, 0),
        Projectile { ttl: Some(1), ..cake(0, 50, 72, 0) },
        cake(1, -3, 72, 180),
        Projectile { ttl: Some(5), ..cake(1, 60, 100, 180) },
    ];
    update_game_screen(&mut state, &vec![PadInput { a: true, ..pad() }], W, H);
    assert_eq!(
        state.projectiles,
        vec![
            cake(0, 105, 72, 0),
            Projectile { ttl: Some(4), ..cake(1, 55, 100, 180) },
            cake(0, 21, 72, 0),
        ]
    );
    for q in state.projectiles.iter() {
        assert!(q.ttl != Some(0));
        assert!(q.x >= -(q.width as i32) && q.x <= W as i32);
        assert!(q.y >= -(q.height as i32) && q.y <= H as i32);
    }
}
