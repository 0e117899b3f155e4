use game_client::animation::{MovementAnimation, Region, Sprite, FRAMES_PER_DIRECTION};
use game_client::Direction;

fn anim() -> MovementAnimation {
    MovementAnimation::from_sheet(2, Region { x: 10, y: 20, width: 26, height: 36 })
}

#[test]
fn sheet_layout_has_one_row_per_direction() {
    let a = anim();
    assert_eq!(a.up_frames.len(), FRAMES_PER_DIRECTION);
    assert_eq!(a.down_frames[0].region, Region { x: 10, y: 20, width: 26, height: 36 });
    assert_eq!(a.left_frames[1].region, Region { x: 36, y: 56, width: 26, height: 36 });
    assert_eq!(a.right_frames[2].region, Region { x: 62, y: 92, width: 26, height: 36 });
    assert_eq!(a.up_frames[0].region, Region { x: 10, y: 128, width: 26, height: 36 });
    assert_eq!(a.up_frames[0].spritesheet, 2);
}

#[test]
fn cursor_cycles_through_the_direction_frames() {
    let mut a = anim();
    let mut sprite = a.down_frames[0];
    let right = Direction::Right.ordinal();
    a.advance(&mut sprite, right);
    assert_eq!((a.current_frame, sprite), (1, a.right_frames[1]));
    a.advance(&mut sprite, right);
    a.advance(&mut sprite, right);
    assert_eq!((a.current_frame, sprite), (0, a.right_frames[0]));
}

#[test]
fn stationary_freezes_on_the_last_frame() {
    let mut a = anim();
    let mut sprite = a.down_frames[0];
    a.advance(&mut sprite, Direction::Down.ordinal());
    let shown: Sprite = sprite;
    a.advance(&mut sprite, Direction::Stationary.ordinal());
    assert_eq!(a.current_frame, 1);
    assert_eq!(sprite, shown);
}

#[test]
fn out_of_range_velocity_uses_the_left_frames() {
    let mut a = anim();
    let mut sprite = a.down_frames[0];
    a.advance(&mut sprite, 200);
    assert_eq!(sprite, a.left_frames[1]);
}

#[test]
fn cursor_stays_in_bounds_for_any_velocities() {
    let mut a = anim();
    let mut sprite = a.down_frames[0];
    let mut seed: u32 = 12345;
    for _ in 0..500 {
        seed = seed.wrapping_mul(1103515245).wrapping_add(12345);
        let v = (seed >> 16) as u8 % 7;
        a.advance(&mut sprite, v);
        assert!(a.current_frame < a.up_frames.len());
        assert!(a.current_frame < a.left_frames.len());
    }
}

#[test]
fn ordinals_round_trip() {
    for d in [Direction::Stationary, Direction::Up, Direction::Right, Direction::Down, Direction::Left] {
        assert_eq!(Direction::from_ordinal(d.ordinal()), Some(d));
    }
    assert_eq!(Direction::from_ordinal(5), None);
    assert_eq!(Direction::Up.ordinal(), 0);
    assert_eq!(Direction::Stationary.ordinal(), 4);
}

#[test]
fn legacy_stationary_five_freezes_too() {
    let mut a = anim();
    let mut sprite = a.down_frames[0];
    a.advance(&mut sprite, Direction::Up.ordinal());
    let shown: Sprite = sprite;
    a.advance(&mut sprite, 5);
    assert_eq!(a.current_frame, 1);
    assert_eq!(sprite, shown);
    a.advance(&mut sprite, 6);
    assert_eq!((a.current_frame, sprite), (2, a.left_frames[2]));
}
