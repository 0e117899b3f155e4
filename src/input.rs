//! Turns key presses and releases into one current movement command, and
//! sends a command only when it differs from the last one sent.
use vstd::prelude::*;

use crate::codec::{encode_move, encode_sync, move_frame, sync_frame};
use crate::direction::{Direction, MovementCommand};
use crate::player::Point;

verus! {

/// A key event, already mapped to a logical action.
#[derive(Clone, Copy, Debug, PartialEq, Eq, Structural)]
pub enum InputEvent {
    /// A movement key went down; `repeat` marks the keyboard's auto-repeat.
    KeyDown { direction: Direction, repeat: bool },
    /// A movement key came up.
    KeyUp { direction: Direction },
    /// The user asked to leave.
    Quit,
}

/// `s` with `d` in front, unless `s` already holds it.
pub open spec fn pressed(s: Seq<Direction>, d: Direction) -> Seq<Direction> {
    if s.contains(d) {
        s
    } else {
        seq![d] + s
    }
}

/// `s` without its first `d`, if it has one.
pub open spec fn released(s: Seq<Direction>, d: Direction) -> Seq<Direction>
    decreases s.len(),
{
    if s.len() == 0 {
        s
    } else if s[0] == d {
        s.drop_first()
    } else {
        seq![s[0]] + released(s.drop_first(), d)
    }
}

/// The command that the held keys ask for: the most recent press, or stop.
pub open spec fn command_of(held: Seq<Direction>) -> MovementCommand {
    if held.len() > 0 {
        MovementCommand::Move(held[0])
    } else {
        MovementCommand::Stop
    }
}

/// The frames that one dispatch hands to the network.
#[derive(Debug)]
pub struct Dispatch {
    /// For the outbound command queue.
    pub move_frame: Option<Vec<u8>>,
    /// For the position-sync socket.
    pub sync_frame: Option<Vec<u8>>,
}

impl Dispatch {
    pub open spec fn frames(&self) -> (Option<Seq<u8>>, Option<Seq<u8>>) {
        (
            match self.move_frame {
                Some(f) => Some(f@),
                None => None,
            },
            match self.sync_frame {
                Some(f) => Some(f@),
                None => None,
            },
        )
    }
}

/// What a dispatch sends: nothing while the command is unchanged; for a new
/// move, its `M0` stamped in milliseconds; for a stop, a stationary `M0` and
/// an `S0` sync of the position, both stamped in seconds.
pub open spec fn dispatched(
    last: MovementCommand,
    held: Seq<Direction>,
    id: Seq<char>,
    position: Point,
    secs: i64,
    millis: i64,
) -> (Option<Seq<u8>>, Option<Seq<u8>>) {
    let c = command_of(held);
    if c == last {
        (None, None)
    } else {
        match c {
            MovementCommand::Move(d) => (Some(move_frame(millis as int, id, d)), None),
            _ => (
                Some(move_frame(secs as int, id, Direction::Stationary)),
                Some(sync_frame(secs as int, id, position)),
            ),
        }
    }
}

/// The held movement keys, most recent first, and the last command sent.
#[derive(Debug)]
pub struct Debouncer {
    pub held: Vec<Direction>,
    pub last_dispatched: MovementCommand,
}

proof fn lemma_released_at(s: Seq<Direction>, d: Direction, i: int)
    requires
        0 <= i < s.len(),
        s[i] == d,
        forall|j: int| 0 <= j < i ==> s[j] != d,
    ensures
        released(s, d) == s.remove(i),
    decreases s.len(),
{
    if i == 0 {
        assert(s.drop_first() =~= s.remove(0));
    } else {
        lemma_released_at(s.drop_first(), d, i - 1);
        assert(seq![s[0]] + s.drop_first().remove(i - 1) =~= s.remove(i));
    }
}

proof fn lemma_released_absent(s: Seq<Direction>, d: Direction)
    requires
        !s.contains(d),
    ensures
        released(s, d) == s,
    decreases s.len(),
{
    if s.len() > 0 {
        assert(!s.drop_first().contains(d)) by {
            if s.drop_first().contains(d) {
                let j = choose|j: int| 0 <= j < s.drop_first().len() && s.drop_first()[j] == d;
                assert(s[j + 1] == d);
            }
        }
        lemma_released_absent(s.drop_first(), d);
        assert(seq![s[0]] + s.drop_first() =~= s);
    }
}

impl Debouncer {
    /// No key held, and stop as the last command sent.
    pub fn new() -> (r: Debouncer)
        ensures
            r.held@ == Seq::<Direction>::empty(),
            r.last_dispatched == MovementCommand::Stop,
    {
        Debouncer { held: Vec::new(), last_dispatched: MovementCommand::Stop }
    }

    fn position_of(&self, d: Direction) -> (r: Option<usize>)
        ensures
            r matches Some(i) ==> i < self.held@.len() && self.held@[i as int] == d && forall|j: int|
                0 <= j < i ==> self.held@[j] != d,
            r is None ==> !self.held@.contains(d),
    {
        let mut i: usize = 0;
        while i < self.held.len()
            invariant
                0 <= i <= self.held@.len(),
                forall|j: int| 0 <= j < i ==> self.held@[j] != d,
            decreases self.held@.len() - i,
        {
            if self.held[i] == d {
                return Some(i);
            }
            i = i + 1;
        }
        None
    }

    /// A movement key went down: it becomes the most recent, unless it is
    /// already held.
    pub fn press(&mut self, d: Direction)
        ensures
            final(self).held@ == pressed(old(self).held@, d),
            final(self).last_dispatched == old(self).last_dispatched,
    {
        match self.position_of(d) {
            Some(_) => {},
            None => {
                self.held.insert(0, d);
                assert(self.held@ =~= seq![d] + old(self).held@);
            },
        }
    }

    /// A movement key came up: its first entry leaves the held keys.
    pub fn release(&mut self, d: Direction)
        ensures
            final(self).held@ == released(old(self).held@, d),
            final(self).last_dispatched == old(self).last_dispatched,
    {
        match self.position_of(d) {
            Some(i) => {
                proof {
                    lemma_released_at(self.held@, d, i as int);
                }
                self.held.remove(i);
            },
            None => {
                proof {
                    lemma_released_absent(self.held@, d);
                }
            },
        }
    }

    /// Feeds one event in; returns whether it asks to quit. An auto-repeated
    /// key-down changes nothing.
    pub fn handle(&mut self, event: InputEvent) -> (quit: bool)
        ensures
            quit == (event == InputEvent::Quit),
            final(self).last_dispatched == old(self).last_dispatched,
            final(self).held@ == (match event {
                InputEvent::KeyDown { direction, repeat } => if repeat {
                    old(self).held@
                } else {
                    pressed(old(self).held@, direction)
                },
                InputEvent::KeyUp { direction } => released(old(self).held@, direction),
                InputEvent::Quit => old(self).held@,
            }),
    {
        match event {
            InputEvent::KeyDown { direction, repeat } => {
                if !repeat {
                    self.press(direction);
                }
                false
            },
            InputEvent::KeyUp { direction } => {
                self.release(direction);
                false
            },
            InputEvent::Quit => true,
        }
    }

    /// The current command: a move towards the most recently pressed key
    /// still held, or stop.
    pub fn current(&self) -> (r: MovementCommand)
        ensures
            r == command_of(self.held@),
    {
        if self.held.len() > 0 {
            MovementCommand::Move(self.held[0])
        } else {
            MovementCommand::Stop
        }
    }

    /// Sends the current command if it differs from the last one sent. A
    /// move goes out as `M0` stamped in milliseconds; a stop goes out as a
    /// stationary `M0` together with an `S0` position sync of `position`,
    /// both stamped in seconds. An unchanged command sends nothing.
    pub fn dispatch(&mut self, local_id: &str, position: Point, now_secs: i64, now_millis: i64) -> (r:
        Dispatch)
        ensures
            final(self).held == old(self).held,
            final(self).last_dispatched == command_of(old(self).held@),
            r.frames() == dispatched(
                old(self).last_dispatched,
                old(self).held@,
                local_id@,
                position,
                now_secs,
                now_millis,
            ),
    {
        let command = self.current();
        if command == self.last_dispatched {
            return Dispatch { move_frame: None, sync_frame: None };
        }
        self.last_dispatched = command;
        match command {
            MovementCommand::Move(d) => Dispatch {
                move_frame: Some(encode_move(now_millis, local_id, d)),
                sync_frame: None,
            },
            _ => Dispatch {
                move_frame: Some(encode_move(now_secs, local_id, Direction::Stationary)),
                sync_frame: Some(encode_sync(now_secs, local_id, position)),
            },
        }
    }
}

} // verus!
