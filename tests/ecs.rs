use ecs_game::ecs::{
    clamp, draw_entities, move_entities, movement_system, render_entities, EntityManager,
    LookupError, Position, Sprite, Tag, TagKind, TagSet, Velocity,
};
use ecs_game::{HEIGHT, WIDTH};

fn pos_of(em: &EntityManager, e: usize) -> Option<Position> {
    em.components().positions.get(e)
}

#[test]
fn create_entity_issues_increasing_ids() {
    let mut em = EntityManager::new();
    let a = em.create_entity();
    let b = em.create_entity();
    let c = em.create_entity();
    assert_eq!((a, b, c), (0, 1, 2));
}

#[test]
fn components_attach_to_uncreated_entities() {
    let mut em = EntityManager::new();
    em.add_position(42, 3, 4);
    assert_eq!(pos_of(&em, 42), Some(Position { x: 3, y: 4 }));
    em.add_position(42, 5, 6);
    assert_eq!(pos_of(&em, 42), Some(Position { x: 5, y: 6 }));
    assert_eq!(em.components().positions.len(), 1);
}

#[test]
fn add_sprite_and_velocity_replace() {
    let mut em = EntityManager::new();
    em.add_velocity(1, 2, 3);
    em.add_velocity(1, -4, 5);
    em.add_sprite(1, 6, 7, 0x123456);
    assert_eq!(em.components().velocities.get(1), Some(Velocity { dx: -4, dy: 5 }));
    assert_eq!(
        em.components().sprites.get(1),
        Some(Sprite { x_size: 6, y_size: 7, color: 0x123456 })
    );
    assert_eq!(em.components().sprites.get(2), None);
}

#[test]
fn reset_velocity_x_only() {
    let mut em = EntityManager::new();
    let e = em.create_entity();
    em.add_velocity(e, 7, -9);
    assert_eq!(em.reset_velocity(e, true, false), Ok(()));
    assert_eq!(em.components().velocities.get(e), Some(Velocity { dx: 0, dy: -9 }));
}

#[test]
fn reset_velocity_y_only() {
    let mut em = EntityManager::new();
    let e = em.create_entity();
    em.add_velocity(e, 7, -9);
    assert_eq!(em.reset_velocity(e, false, true), Ok(()));
    assert_eq!(em.components().velocities.get(e), Some(Velocity { dx: 7, dy: 0 }));
}

#[test]
fn reset_velocity_without_velocity_fails() {
    let mut em = EntityManager::new();
    let e = em.create_entity();
    em.add_position(e, 1, 1);
    assert_eq!(em.reset_velocity(e, true, true), Err(LookupError { entity: e }));
    assert_eq!(em.components().velocities.get(e), None);
}

#[test]
fn add_tag_twice_keeps_size() {
    let mut em = EntityManager::new();
    let e = em.create_entity();
    assert!(em.add_tag(e, Tag { tag: TagKind::Player }));
    let first = em.components().tags.get(e).unwrap().len();
    assert!(!em.add_tag(e, Tag { tag: TagKind::Player }));
    let second = em.components().tags.get(e).unwrap().len();
    assert_eq!(first, 1);
    assert_eq!(second, 1);
    assert!(em.add_tag(e, Tag { tag: TagKind::Enemy }));
    assert_eq!(em.components().tags.get(e).unwrap().len(), 2);
}

#[test]
fn tag_set_basics() {
    let mut s = TagSet::new();
    assert_eq!(s.len(), 0);
    assert!(!s.contains(Tag { tag: TagKind::Enemy }));
    s.insert(Tag { tag: TagKind::Enemy });
    assert!(s.contains(Tag { tag: TagKind::Enemy }));
    assert!(!s.contains(Tag { tag: TagKind::Player }));
    assert_eq!(s.len(), 1);
}

#[test]
fn clamp_saturates() {
    assert_eq!(clamp(0, -5, 100), 0);
    assert_eq!(clamp(0, 105, 100), 100);
    assert_eq!(clamp(0, 42, 100), 42);
}

#[test]
fn move_rejected_on_both_axes() {
    let mut em = EntityManager::new();
    let e = em.create_entity();
    em.add_position(e, 90, 90);
    em.add_sprite(e, 20, 20, 0xFF0000);
    em.add_velocity(e, 5, 5);
    move_entities(&mut em, 100, 100);
    assert_eq!(pos_of(&em, e), Some(Position { x: 90, y: 90 }));
}

#[test]
fn move_accepted_on_x_only() {
    let mut em = EntityManager::new();
    let e = em.create_entity();
    em.add_position(e, 90, 90);
    em.add_sprite(e, 20, 20, 0xFF0000);
    em.add_velocity(e, -15, 0);
    move_entities(&mut em, 100, 100);
    assert_eq!(pos_of(&em, e), Some(Position { x: 75, y: 90 }));
}

#[test]
fn move_axes_are_independent() {
    let mut em = EntityManager::new();
    let e = em.create_entity();
    em.add_position(e, 50, 85);
    em.add_sprite(e, 10, 10, 1);
    em.add_velocity(e, 10, 10);
    move_entities(&mut em, 100, 100);
    assert_eq!(pos_of(&em, e), Some(Position { x: 60, y: 85 }));
}

#[test]
fn move_saturates_negative_to_zero() {
    let mut em = EntityManager::new();
    let e = em.create_entity();
    em.add_position(e, 10, 10);
    em.add_sprite(e, 10, 10, 1);
    em.add_velocity(e, -30, -30);
    move_entities(&mut em, 100, 100);
    assert_eq!(pos_of(&em, e), Some(Position { x: 0, y: 0 }));
}

#[test]
fn sprites_stay_on_screen_over_many_passes() {
    let mut em = EntityManager::new();
    let e = em.create_entity();
    em.add_position(e, 50, 50);
    em.add_sprite(e, 10, 10, 1);
    em.add_velocity(e, 30, -7);
    for _ in 0..20 {
        move_entities(&mut em, 100, 100);
        let p = pos_of(&em, e).unwrap();
        assert!(p.x + 10 <= 100);
        assert!(p.y + 10 <= 100);
    }
    assert_eq!(pos_of(&em, e), Some(Position { x: 80, y: 0 }));
}

#[test]
fn spriteless_entity_never_moves() {
    let mut em = EntityManager::new();
    let e = em.create_entity();
    em.add_position(e, 10, 20);
    em.add_velocity(e, 1000, -1000);
    for _ in 0..5 {
        move_entities(&mut em, 100, 100);
    }
    assert_eq!(pos_of(&em, e), Some(Position { x: 10, y: 20 }));
}

#[test]
fn entity_without_velocity_stays() {
    let mut em = EntityManager::new();
    let e = em.create_entity();
    em.add_position(e, 10, 20);
    em.add_sprite(e, 5, 5, 1);
    move_entities(&mut em, 100, 100);
    assert_eq!(pos_of(&em, e), Some(Position { x: 10, y: 20 }));
}

#[test]
fn movement_system_uses_screen_size() {
    let mut em = EntityManager::new();
    let e = em.create_entity();
    em.add_position(e, (WIDTH - 30) as u32, 0);
    em.add_sprite(e, 24, 24, 1);
    em.add_velocity(e, 12, -12);
    movement_system(&mut em);
    assert_eq!(pos_of(&em, e), Some(Position { x: (WIDTH - 30) as u32, y: 0 }));
    em.add_velocity(e, 6, 12);
    movement_system(&mut em);
    assert_eq!(pos_of(&em, e), Some(Position { x: (WIDTH - 24) as u32, y: 12 }));
}

#[test]
fn render_fills_sprite_rectangle() {
    let mut em = EntityManager::new();
    let e = em.create_entity();
    em.add_position(e, 1, 1);
    em.add_sprite(e, 2, 3, 7);
    let mut buf = vec![0u32; 25];
    render_entities(&em, &mut buf, 5, 5);
    let mut expected = vec![0u32; 25];
    for r in 1..4 {
        for c in 1..3 {
            expected[r * 5 + c] = 7;
        }
    }
    assert_eq!(buf, expected);
}

#[test]
fn render_clips_past_buffer_end() {
    let mut em = EntityManager::new();
    let e = em.create_entity();
    em.add_position(e, 8, 8);
    em.add_sprite(e, 4, 4, 9);
    let mut buf = vec![0u32; 100];
    render_entities(&em, &mut buf, 10, 10);
    let written: Vec<usize> = (0..100).filter(|&i| buf[i] == 9).collect();
    assert_eq!(written, vec![88, 89, 90, 91, 98, 99]);
}

#[test]
fn render_skips_offscreen_corner_and_spriteless() {
    let mut em = EntityManager::new();
    let a = em.create_entity();
    em.add_position(a, 10, 0);
    em.add_sprite(a, 3, 3, 5);
    let b = em.create_entity();
    em.add_position(b, 0, 0);
    let mut buf = vec![1u32; 100];
    render_entities(&em, &mut buf, 10, 10);
    assert_eq!(buf, vec![1u32; 100]);
}

#[test]
fn render_later_entity_wins_overlap() {
    let mut em = EntityManager::new();
    let a = em.create_entity();
    let b = em.create_entity();
    em.add_position(b, 2, 2);
    em.add_sprite(b, 3, 3, 0x00FF00);
    em.add_position(a, 1, 1);
    em.add_sprite(a, 3, 3, 0xFF0000);
    let mut buf = vec![0u32; 36];
    render_entities(&em, &mut buf, 6, 6);
    assert_eq!(buf[1 * 6 + 1], 0xFF0000);
    assert_eq!(buf[2 * 6 + 2], 0x00FF00);
    assert_eq!(buf[3 * 6 + 3], 0x00FF00);
    assert_eq!(buf[4 * 6 + 4], 0x00FF00);
    assert_eq!(buf[3 * 6 + 1], 0xFF0000);
}

#[test]
fn draw_entities_on_full_screen() {
    let mut em = EntityManager::new();
    let e = em.create_entity();
    em.add_position(e, 3, 2);
    em.add_sprite(e, 2, 2, 0xABCDEF);
    let mut buf = vec![0u32; WIDTH * HEIGHT];
    draw_entities(&em, &mut buf);
    assert_eq!(buf[2 * WIDTH + 3], 0xABCDEF);
    assert_eq!(buf[3 * WIDTH + 4], 0xABCDEF);
    assert_eq!(buf.iter().filter(|&&p| p == 0xABCDEF).count(), 4);
}
