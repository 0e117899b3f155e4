use game_client::input::{Debouncer, InputEvent};
use game_client::{Direction, MovementCommand, Point};

fn down(d: Direction) -> InputEvent {
    InputEvent::KeyDown { direction: d, repeat: false }
}

fn up(d: Direction) -> InputEvent {
    InputEvent::KeyUp { direction: d }
}

#[test]
fn debounce_sequencing() {
    let mut input = Debouncer::new();
    assert!(!input.handle(down(Direction::Left)));
    assert!(!input.handle(down(Direction::Right)));
    assert!(!input.handle(up(Direction::Left)));
    assert_eq!(input.current(), MovementCommand::Move(Direction::Right));
    input.handle(up(Direction::Right));
    assert_eq!(input.current(), MovementCommand::Stop);
}

#[test]
fn repeats_and_duplicate_presses_change_nothing() {
    let mut input = Debouncer::new();
    input.handle(down(Direction::Up));
    input.handle(down(Direction::Left));
    input.handle(InputEvent::KeyDown { direction: Direction::Up, repeat: true });
    input.handle(down(Direction::Up));
    assert_eq!(input.held, vec![Direction::Left, Direction::Up]);
    input.handle(up(Direction::Down));
    assert_eq!(input.held, vec![Direction::Left, Direction::Up]);
    assert!(input.handle(InputEvent::Quit));
}

#[test]
fn dispatch_sends_only_changes() {
    let mut input = Debouncer::new();
    let nothing = input.dispatch("me", Point::new(0, 0), 10, 10_000);
    assert!(nothing.move_frame.is_none() && nothing.sync_frame.is_none());

    input.handle(down(Direction::Up));
    let first = input.dispatch("me", Point::new(0, 0), 11, 11_000);
    assert_eq!(first.move_frame, Some(b"M0;11000;me;Up".to_vec()));
    assert_eq!(first.sync_frame, None);
    assert_eq!(input.last_dispatched, MovementCommand::Move(Direction::Up));

    let again = input.dispatch("me", Point::new(0, 0), 12, 12_000);
    assert!(again.move_frame.is_none() && again.sync_frame.is_none());

    input.handle(up(Direction::Up));
    let stop = input.dispatch("me", Point::new(5, -5), 13, 13_000);
    assert_eq!(stop.move_frame, Some(b"M0;13;me;Stationary".to_vec()));
    assert_eq!(stop.sync_frame, Some(br#"S0;13;me;{"x":5,"y":-5}"#.to_vec()));
    assert_eq!(input.last_dispatched, MovementCommand::Stop);
}
