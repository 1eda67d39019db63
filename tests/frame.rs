use ecs_game::ecs::{EntityManager, LookupError, Velocity};
use ecs_game::frame::{clear_window, handle_input, KeyState};
use ecs_game::player::{DirState, Player};
use ecs_game::{HEIGHT, WIDTH};

fn keys(up: bool, down: bool, left: bool, right: bool, boost: bool) -> KeyState {
    KeyState { up, down, left, right, boost }
}

#[test]
fn clear_window_blackens_all() {
    let mut buf = vec![0xFFFFFFu32; 10];
    clear_window(&mut buf);
    assert_eq!(buf, vec![0u32; 10]);
}

#[test]
fn input_sets_velocity() {
    let mut em = EntityManager::new();
    let p = em.create_entity();
    em.add_velocity(p, 0, 0);
    assert_eq!(handle_input(keys(true, false, false, true, false), &mut em, p), Ok(()));
    assert_eq!(em.components().velocities.get(p), Some(Velocity { dx: 12, dy: -12 }));
    assert_eq!(handle_input(keys(false, true, true, false, true), &mut em, p), Ok(()));
    assert_eq!(em.components().velocities.get(p), Some(Velocity { dx: -24, dy: 24 }));
}

#[test]
fn input_up_beats_down_and_left_beats_right() {
    let mut em = EntityManager::new();
    let p = em.create_entity();
    em.add_velocity(p, 3, 3);
    assert_eq!(handle_input(keys(true, true, true, true, false), &mut em, p), Ok(()));
    assert_eq!(em.components().velocities.get(p), Some(Velocity { dx: -12, dy: -12 }));
}

#[test]
fn input_one_axis_zeroes_the_other() {
    let mut em = EntityManager::new();
    let p = em.create_entity();
    em.add_velocity(p, 12, 12);
    assert_eq!(handle_input(keys(false, false, false, true, true), &mut em, p), Ok(()));
    assert_eq!(em.components().velocities.get(p), Some(Velocity { dx: 24, dy: 0 }));
}

#[test]
fn input_none_resets_velocity() {
    let mut em = EntityManager::new();
    let p = em.create_entity();
    em.add_velocity(p, 12, -12);
    assert_eq!(handle_input(keys(false, false, false, false, true), &mut em, p), Ok(()));
    assert_eq!(em.components().velocities.get(p), Some(Velocity { dx: 0, dy: 0 }));
}

#[test]
fn input_none_without_velocity_fails() {
    let mut em = EntityManager::new();
    let p = em.create_entity();
    assert_eq!(
        handle_input(keys(false, false, false, false, false), &mut em, p),
        Err(LookupError { entity: p })
    );
}

#[test]
fn player_moves_and_boosts() {
    let mut pl = Player::new(100, 100, 0xFF, 10, 5, 20);
    pl.move_player(DirState::Positive, DirState::Negative);
    assert_eq!(pl.position(), (95, 105));
    pl.boost(true);
    pl.move_player(DirState::Negative, DirState::Zero);
    assert_eq!(pl.position(), (115, 105));
    pl.boost(false);
    pl.move_player(DirState::Zero, DirState::Positive);
    assert_eq!(pl.position(), (115, 100));
}

#[test]
fn player_move_blocked_at_edges() {
    let mut pl = Player::new(3, HEIGHT - 12, 0xFF, 10, 5, 20);
    pl.move_player(DirState::Positive, DirState::Negative);
    assert_eq!(pl.position(), (3, HEIGHT - 12));
    pl.move_player(DirState::Negative, DirState::Positive);
    assert_eq!(pl.position(), (8, HEIGHT - 17));
}

#[test]
fn player_draw_clips_at_screen_edge() {
    let pl = Player::new(WIDTH - 2, 0, 0x77, 4, 1, 1);
    let mut buf = vec![0u32; WIDTH * HEIGHT];
    pl.draw(&mut buf);
    assert_eq!(buf.iter().filter(|&&p| p == 0x77).count(), 8);
    assert_eq!(buf[WIDTH - 1], 0x77);
    assert_eq!(buf[3 * WIDTH + WIDTH - 2], 0x77);
    assert_eq!(buf[WIDTH], 0);
}
