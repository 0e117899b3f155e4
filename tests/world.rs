use game_client::animation::{MovementAnimation, Region, Sprite};
use game_client::codec::{decode, encode_move, snapshot_payload};
use game_client::systems::{display_position, Animator, HealthChecker, Keyboard, Physics, Position};
use game_client::world::{EntityKind, Status, World, FULL_HEALTH};
use game_client::{AttackCommand, Direction, Message, MovementCommand, Player, Point};

fn sheet() -> Region {
    Region { x: 0, y: 0, width: 26, height: 36 }
}

fn player(id: &str, x: i32, y: i32, velocity: u8) -> Player {
    Player::new(
        id.to_string(),
        format!("name of {}", id),
        1,
        true,
        Point::new(0, 0),
        Point::new(x, y),
        velocity,
        0,
        7,
    )
}

fn world() -> World {
    World::new(player("me", 0, 0, 4), 0, sheet())
}

#[test]
fn reconcile_spawns_updates_and_skips_local() {
    let mut w = world();
    w.reconcile(&vec![player("me", 99, 99, 1), player("a", 1, 2, 4), player("b", 3, 4, 0)]);
    assert_eq!(w.entities.len(), 3);
    assert_eq!(w.entities[0].kind, EntityKind::Local);
    assert_eq!(w.entities[0].player.pos, Point::new(0, 0));
    assert_eq!(w.entities[1].kind, EntityKind::Remote);
    assert_eq!(w.entities[1].player.id, "a");
    assert_eq!(w.entities[2].player.pos, Point::new(3, 4));
    assert_eq!(w.entities[2].status, Status { alive: true, health: FULL_HEALTH });

    w.reconcile(&vec![player("a", 10, 20, 2)]);
    assert_eq!(w.entities.len(), 3);
    assert_eq!(w.entities[1].player.pos, Point::new(10, 20));
    assert_eq!(w.entities[1].player.velocity, 2);
    // An id missing from a later snapshot stays tracked.
    assert_eq!(w.entities[2].player.id, "b");
}

#[test]
fn reconcile_twice_is_idempotent() {
    let snapshot = vec![player("a", 1, 2, 1), player("b", 3, 4, 2)];
    let mut w = world();
    w.reconcile(&snapshot);
    let once: Vec<(String, Point, u8)> =
        w.entities.iter().map(|e| (e.player.id.clone(), e.player.pos, e.player.velocity)).collect();
    w.reconcile(&snapshot);
    let twice: Vec<(String, Point, u8)> =
        w.entities.iter().map(|e| (e.player.id.clone(), e.player.pos, e.player.velocity)).collect();
    assert_eq!(once, twice);
    assert_eq!(w.entities.len(), 3);
}

#[test]
fn latest_snapshot_wins() {
    let mut w = world();
    for i in 0..5 {
        w.reconcile(&vec![player("x", i, -i, (i % 4) as u8), player("y", 0, 0, 4)]);
    }
    let x = &w.entities[w.find(&"x".to_string()).unwrap()];
    assert_eq!(x.player.pos, Point::new(4, -4));
    assert_eq!(x.player.velocity, 0);
}

#[test]
fn duplicate_id_in_one_snapshot_takes_the_later_record() {
    let mut w = world();
    w.reconcile(&vec![player("x", 1, 1, 4), player("x", 2, 2, 4)]);
    assert_eq!(w.entities.len(), 2);
    assert_eq!(w.entities[1].player.pos, Point::new(2, 2));
}

#[test]
fn local_prediction_moves_five_and_saturates() {
    let mut w = world();
    Keyboard.run(&mut w, Some(MovementCommand::Move(Direction::Right)));
    Keyboard.run(&mut w, Some(MovementCommand::Move(Direction::Up)));
    assert_eq!(w.local_player().pos, Point::new(5, -5));
    Keyboard.run(&mut w, Some(MovementCommand::Stop));
    assert_eq!(w.local_player().pos, Point::new(5, -5));

    let mut edge = World::new(player("me", i32::MAX - 2, 0, 4), 0, sheet());
    Keyboard.run(&mut edge, Some(MovementCommand::Move(Direction::Right)));
    assert_eq!(edge.local_player().pos, Point::new(i32::MAX, 0));
}

#[test]
fn display_position_wraps_at_the_field_edges() {
    assert_eq!(display_position(Point::new(-401, 0)), Point::new(400, 0));
    assert_eq!(display_position(Point::new(401, 226)), Point::new(-400, -225));
    assert_eq!(display_position(Point::new(400, -225)), Point::new(400, -225));
}

#[test]
fn attack_takes_health_down_to_zero() {
    let mut w = world();
    w.entities[0].status.health = 15;
    HealthChecker.run(&mut w, Some(AttackCommand::Cast));
    assert_eq!(w.entities[0].status.health, 5);
    HealthChecker.run(&mut w, Some(AttackCommand::Cast));
    assert_eq!(w.entities[0].status.health, 0);
    HealthChecker.run(&mut w, Some(AttackCommand::Stop));
    assert_eq!(w.entities[0].status.health, 0);
}

#[test]
fn end_to_end_move_then_snapshot() {
    let mut w = world();
    let sent = encode_move(1, "me", Direction::Right);
    assert_eq!(sent, b"M0;1;me;Right".to_vec());
    match decode(&sent) {
        Ok(Message::Move { direction, .. }) => assert_eq!(direction, Some(Direction::Right)),
        other => panic!("unexpected {:?}", other),
    }
    // The authority's answer names a remote player moving right.
    let datagram = br#"P0;{"other":{"id":"other","velocity":"Right"}}"#;
    assert!(snapshot_payload(datagram).is_some());
    w.reconcile(&vec![player("other", 40, -8, Direction::Right.ordinal())]);
    Animator.run(&mut w);
    let e = &w.entities[w.find(&"other".to_string()).unwrap()];
    assert_eq!(e.player.pos, Point::new(40, -8));
    let right: &Vec<Sprite> = &e.animation.right_frames;
    assert!(right.contains(&e.sprite));
    assert_eq!(e.sprite, right[1]);
    // The local player's own echo does not move it.
    w.reconcile(&vec![player("me", 40, -8, 1)]);
    assert_eq!(w.local_player().pos, Point::new(0, 0));
}

#[test]
fn animate_advances_each_entity() {
    let mut w = world();
    w.reconcile(&vec![player("a", 0, 0, 0), player("b", 0, 0, 9)]);
    Animator.run(&mut w);
    assert_eq!(w.entities[0].animation.current_frame, 0);
    assert_eq!(w.entities[1].sprite, w.entities[1].animation.up_frames[1]);
    assert_eq!(w.entities[2].sprite, w.entities[2].animation.left_frames[1]);
    let fresh = MovementAnimation::from_sheet(0, sheet());
    assert_eq!(w.entities[0].sprite, fresh.down_frames[0]);
}

#[test]
fn no_command_yet_changes_nothing() {
    let mut w = world();
    Keyboard.run(&mut w, None);
    HealthChecker.run(&mut w, None);
    assert_eq!(w.local_player().pos, Point::new(0, 0));
    assert_eq!(w.entities[0].status.health, FULL_HEALTH);
}

#[test]
fn physics_reports_wrapped_positions() {
    let mut w = world();
    w.reconcile(&vec![player("far", 500, -300, 4)]);
    let shown = Physics.run(&w);
    assert_eq!(shown, vec![Position(Point::new(0, 0)), Position(Point::new(-400, 225))]);
}
