//! The per-tick systems that act on the world: local prediction, the
//! animation, attacks, and where each entity is shown.
use vstd::prelude::*;

use crate::direction::{AttackCommand, Direction, MovementCommand};
use crate::player::{Player, Point};
use crate::world::{Entity, EntityKind, Status, World};

verus! {

/// The health that one cast attack takes.
pub const ATTACK_DAMAGE: u32 = 10;

/// The half extents of the visible play field: 800 by 600 pixels, less a
/// 150-pixel band for the interface.
pub const HALF_WIDTH: i32 = 400;

pub const HALF_HEIGHT: i32 = 225;

/// How far one tick of movement carries the local player.
pub const STEP: i32 = 5;

pub open spec fn clamp_i32(v: int) -> i32 {
    if v < i32::MIN {
        i32::MIN
    } else if v > i32::MAX {
        i32::MAX
    } else {
        v as i32
    }
}

/// Where one tick of `command` moves a position; a coordinate stops at the
/// bounds of `i32`.
pub open spec fn predicted(p: Point, command: MovementCommand) -> Point {
    match command {
        MovementCommand::Move(Direction::Up) => Point { x: p.x, y: clamp_i32(p.y - STEP) },
        MovementCommand::Move(Direction::Down) => Point { x: p.x, y: clamp_i32(p.y + STEP) },
        MovementCommand::Move(Direction::Left) => Point { x: clamp_i32(p.x - STEP), y: p.y },
        MovementCommand::Move(Direction::Right) => Point { x: clamp_i32(p.x + STEP), y: p.y },
        _ => p,
    }
}

pub open spec fn wrap_axis(v: i32, half: i32) -> i32 {
    if v < -half {
        half
    } else if v > half {
        (-half) as i32
    } else {
        v
    }
}

/// Where a position is shown: a coordinate that leaves the play field on
/// one side comes back on the other.
pub open spec fn wrapped(p: Point) -> Point {
    Point { x: wrap_axis(p.x, HALF_WIDTH), y: wrap_axis(p.y, HALF_HEIGHT) }
}

/// A status after one attack command: a cast takes `ATTACK_DAMAGE`
/// health, down to no less than zero.
pub open spec fn attacked(s: Status, command: AttackCommand) -> Status {
    match command {
        AttackCommand::Cast => Status {
            health: if s.health >= ATTACK_DAMAGE {
                (s.health - ATTACK_DAMAGE) as u32
            } else {
                0
            },
            ..s
        },
        AttackCommand::Stop => s,
    }
}

fn clamped(v: i64) -> (r: i32)
    ensures
        r == clamp_i32(v as int),
{
    if v < i32::MIN as i64 {
        i32::MIN
    } else if v > i32::MAX as i64 {
        i32::MAX
    } else {
        v as i32
    }
}

/// Where a position is shown on the play field.
pub fn display_position(p: Point) -> (r: Point)
    ensures
        r == wrapped(p),
{
    let mut x = p.x;
    let mut y = p.y;
    if x < -HALF_WIDTH {
        x = HALF_WIDTH;
    } else if x > HALF_WIDTH {
        x = -HALF_WIDTH;
    }
    if y < -HALF_HEIGHT {
        y = HALF_HEIGHT;
    } else if y > HALF_HEIGHT {
        y = -HALF_HEIGHT;
    }
    Point { x, y }
}

pub open spec fn command_or_stop(c: Option<MovementCommand>) -> MovementCommand {
    match c {
        Some(c) => c,
        None => MovementCommand::Stop,
    }
}

pub open spec fn attack_or_stop(c: Option<AttackCommand>) -> AttackCommand {
    match c {
        Some(c) => c,
        None => AttackCommand::Stop,
    }
}

/// Where an entity is shown on the play field.
#[derive(Clone, Copy, Debug, PartialEq, Eq, Structural)]
pub struct Position(pub Point);

/// Moves the locally controlled player by the current command.
pub struct Keyboard;

impl Keyboard {
    /// Client-side prediction: one tick of the current command moves the
    /// local player; no command yet moves nothing.
    pub fn run(&mut self, world: &mut World, current: Option<MovementCommand>)
        requires
            old(world).wf(),
        ensures
            final(world).wf(),
            final(world).local_id == old(world).local_id,
            final(world).spritesheet == old(world).spritesheet,
            final(world).top_left == old(world).top_left,
            final(world).entities@ == old(world).entities@.update(
                0,
                Entity {
                    player: Player {
                        pos: predicted(old(world).entities@[0].player.pos, command_or_stop(current)),
                        ..old(world).entities@[0].player
                    },
                    ..old(world).entities@[0]
                },
            ),
    {
        let p = world.entities[0].player.pos;
        let command = match current {
            Some(c) => c,
            None => MovementCommand::Stop,
        };
        let moved = match command {
            MovementCommand::Move(Direction::Up) => Point { x: p.x, y: clamped(p.y as i64 - STEP as i64) },
            MovementCommand::Move(Direction::Down) => Point { x: p.x, y: clamped(p.y as i64 + STEP as i64) },
            MovementCommand::Move(Direction::Left) => Point { x: clamped(p.x as i64 - STEP as i64), y: p.y },
            MovementCommand::Move(Direction::Right) => Point { x: clamped(p.x as i64 + STEP as i64), y: p.y },
            _ => p,
        };
        let ghost s = world.entities@;
        world.entities[0].player.pos = moved;
        proof {
            let s2 = world.entities@;
            assert(s2 =~= s.update(
                0,
                Entity { player: Player { pos: moved, ..s[0].player }, ..s[0] },
            ));
            assert forall|a: int, b: int| 0 <= a < b < s2.len() implies (#[trigger] s2[a]).player.id@
                != (#[trigger] s2[b]).player.id@ by {
                assert(s[a].player.id@ != s[b].player.id@);
            }
        }
    }
}

/// Advances every entity's walk cycle.
pub struct Animator;

impl Animator {
    /// One animation tick for every entity, at its own velocity.
    pub fn run(&mut self, world: &mut World)
        requires
            old(world).wf(),
        ensures
            final(world).wf(),
            final(world).local_id == old(world).local_id,
            final(world).spritesheet == old(world).spritesheet,
            final(world).top_left == old(world).top_left,
            final(world).entities@.len() == old(world).entities@.len(),
            forall|i: int|
                0 <= i < old(world).entities@.len() ==> {
                    let e = old(world).entities@[i];
                    let f = #[trigger] final(world).entities@[i];
                    &&& f.kind == e.kind
                    &&& f.player == e.player
                    &&& f.status == e.status
                    &&& f.animation.up_frames == e.animation.up_frames
                    &&& f.animation.down_frames == e.animation.down_frames
                    &&& f.animation.left_frames == e.animation.left_frames
                    &&& f.animation.right_frames == e.animation.right_frames
                    &&& (f.animation.current_frame, f.sprite) == e.animation.step(
                        e.sprite,
                        e.player.velocity,
                    )
                },
    {
        let ghost s = world.entities@;
        let mut i: usize = 0;
        while i < world.entities.len()
            invariant
                0 <= i <= world.entities@.len(),
                world.entities@.len() == s.len(),
                world.local_id == old(world).local_id,
                world.spritesheet == old(world).spritesheet,
                world.top_left == old(world).top_left,
                s == old(world).entities@,
                old(world).wf(),
                forall|k: int|
                    i <= k < s.len() ==> #[trigger] world.entities@[k] == s[k],
                forall|k: int|
                    0 <= k < i ==> {
                        let e = s[k];
                        let f = #[trigger] world.entities@[k];
                        &&& f.kind == e.kind
                        &&& f.player == e.player
                        &&& f.status == e.status
                        &&& f.animation.up_frames == e.animation.up_frames
                        &&& f.animation.down_frames == e.animation.down_frames
                        &&& f.animation.left_frames == e.animation.left_frames
                        &&& f.animation.right_frames == e.animation.right_frames
                        &&& (f.animation.current_frame, f.sprite) == e.animation.step(
                            e.sprite,
                            e.player.velocity,
                        )
                        &&& f.animation.wf()
                    },
            decreases s.len() - i,
        {
            let velocity = world.entities[i].player.velocity;
            let mut sprite = world.entities[i].sprite;
            assert(world.entities@[i as int] == s[i as int]);
            world.entities[i].animation.advance(&mut sprite, velocity);
            world.entities[i].sprite = sprite;
            i = i + 1;
        }
        proof {
            let s2 = world.entities@;
            assert forall|a: int, b: int| 0 <= a < b < s2.len() implies (#[trigger] s2[a]).player.id@
                != (#[trigger] s2[b]).player.id@ by {
                assert(s[a].player.id@ != s[b].player.id@);
            }
            assert forall|a: int| 0 <= a < s2.len() implies ((#[trigger] s2[a]).kind
                == EntityKind::Local <==> a == 0) by {
                assert(s[a].kind == EntityKind::Local <==> a == 0);
            }
        }
    }
}

/// Applies the current attack to every entity's health.
pub struct HealthChecker;

impl HealthChecker {
    /// A cast attack takes `ATTACK_DAMAGE` health from every entity, down to
    /// no less than zero; a stop, or no command yet, changes nothing.
    pub fn run(&mut self, world: &mut World, current: Option<AttackCommand>)
        requires
            old(world).wf(),
        ensures
            final(world).wf(),
            final(world).local_id == old(world).local_id,
            final(world).spritesheet == old(world).spritesheet,
            final(world).top_left == old(world).top_left,
            final(world).entities@.len() == old(world).entities@.len(),
            forall|i: int|
                0 <= i < old(world).entities@.len() ==> #[trigger] final(world).entities@[i] == (Entity {
                    status: attacked(old(world).entities@[i].status, attack_or_stop(current)),
                    ..old(world).entities@[i]
                }),
    {
        let command = match current {
            Some(c) => c,
            None => AttackCommand::Stop,
        };
        let ghost s = world.entities@;
        let mut i: usize = 0;
        while i < world.entities.len()
            invariant
                0 <= i <= world.entities@.len(),
                world.entities@.len() == s.len(),
                world.local_id == old(world).local_id,
                world.spritesheet == old(world).spritesheet,
                world.top_left == old(world).top_left,
                s == old(world).entities@,
                forall|k: int| i <= k < s.len() ==> #[trigger] world.entities@[k] == s[k],
                command == attack_or_stop(current),
                forall|k: int|
                    0 <= k < i ==> #[trigger] world.entities@[k] == (Entity {
                        status: attacked(s[k].status, attack_or_stop(current)),
                        ..s[k]
                    }),
            decreases s.len() - i,
        {
            let st = world.entities[i].status;
            let next = match command {
                AttackCommand::Cast => Status {
                    health: if st.health >= ATTACK_DAMAGE {
                        st.health - ATTACK_DAMAGE
                    } else {
                        0
                    },
                    ..st
                },
                AttackCommand::Stop => st,
            };
            world.entities[i].status = next;
            i = i + 1;
        }
        proof {
            let s2 = world.entities@;
            assert forall|a: int, b: int| 0 <= a < b < s2.len() implies (#[trigger] s2[a]).player.id@
                != (#[trigger] s2[b]).player.id@ by {
                assert(s[a].player.id@ != s[b].player.id@);
            }
            assert forall|a: int| 0 <= a < s2.len() implies ((#[trigger] s2[a]).kind
                == EntityKind::Local <==> a == 0) by {
                assert(s[a].kind == EntityKind::Local <==> a == 0);
            }
            assert forall|a: int| 0 <= a < s2.len() implies (#[trigger] s2[a]).animation.wf() by {
                assert(s[a].animation.wf());
            }
        }
    }
}

/// Works out where each entity is shown.
pub struct Physics;

impl Physics {
    /// The shown position of each entity, in the order of the entity list:
    /// its position, wrapped round the edges of the play field.
    pub fn run(&self, world: &World) -> (r: Vec<Position>)
        ensures
            r@.len() == world.entities@.len(),
            forall|i: int|
                0 <= i < r@.len() ==> #[trigger] r@[i] == Position(
                    wrapped(world.entities@[i].player.pos),
                ),
    {
        let mut r: Vec<Position> = Vec::new();
        let mut i: usize = 0;
        while i < world.entities.len()
            invariant
                0 <= i <= world.entities@.len(),
                r@.len() == i,
                forall|k: int|
                    0 <= k < i ==> #[trigger] r@[k] == Position(wrapped(world.entities@[k].player.pos)),
            decreases world.entities@.len() - i,
        {
            r.push(Position(display_position(world.entities[i].player.pos)));
            i = i + 1;
        }
        r
    }
}

} // verus!
