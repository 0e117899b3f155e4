//! Client-side network synchronisation for a small multiplayer game: the
//! wire codec, the input debouncer, the reconciler that merges authoritative
//! snapshots into the local entity set, and the per-entity animation state
//! machine.
//!
//! Two policies that the protocol leaves open are fixed here. Entities are
//! never removed during a session: the protocol has no leave message, so an
//! id that later snapshots lack stays tracked with its last known record.
//! Numeric fields that do not parse read as 0, so that one corrupt field
//! never discards an otherwise readable message.

pub mod animation;
pub mod codec;
pub mod decimal;
pub mod direction;
pub mod input;
pub mod player;
pub mod systems;
pub mod world;

pub use codec::{CodecError, Message};
pub use direction::{AttackCommand, Direction, MovementCommand};
pub use player::{Player, Point};
