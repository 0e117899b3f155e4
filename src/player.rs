//! The player record that the authority sends for each visible player.
use vstd::prelude::*;

use crate::codec::{field_bounds, locate_field, text_in, text_of};
use crate::decimal::{field_or_zero, field_value, unsigned_field_value};

verus! {

/// A point in the plane, in whole pixels.
#[derive(Clone, Copy, Debug, PartialEq, Eq, Structural)]
pub struct Point {
    pub x: i32,
    pub y: i32,
}

impl Point {
    pub fn new(x: i32, y: i32) -> (r: Point)
        ensures
            r == (Point { x, y }),
    {
        Point { x, y }
    }
}

/// What the authority knows of one player.
#[derive(Debug)]
pub struct Player {
    /// The only stable identity of a player.
    pub id: String,
    pub char_name: String,
    pub skin: usize,
    pub logged_in: bool,
    pub pos: Point,
    /// The legacy direction ordinal: Up 0, Right 1, Down 2, Left 3,
    /// Stationary 4; other values come from peers that speak another dialect.
    pub velocity: u8,
    pub team: u8,
    pub world_pos: Point,
    pub last_update: i64,
}

impl Clone for Player {
    fn clone(&self) -> (r: Self)
        ensures
            r == *self,
    {
        Player {
            id: self.id.clone(),
            char_name: self.char_name.clone(),
            skin: self.skin,
            logged_in: self.logged_in,
            pos: self.pos,
            velocity: self.velocity,
            team: self.team,
            world_pos: self.world_pos,
            last_update: self.last_update,
        }
    }
}

/// The text of the `k`-th field of a `;`-separated record, or none.
pub open spec fn record_text(b: Seq<u8>, k: nat) -> Seq<char> {
    match field_bounds(b, 0, k) {
        Some((lo, hi)) => text_of(b.subrange(lo, hi)),
        None => Seq::empty(),
    }
}

/// The integer in `lo ..= hi` in the `k`-th field of a `;`-separated record,
/// or 0.
pub open spec fn record_int(b: Seq<u8>, k: nat, lo: int, hi: int) -> int {
    match field_bounds(b, 0, k) {
        Some((s, e)) => field_or_zero(b.subrange(s, e), lo, hi),
        None => 0,
    }
}

pub open spec fn record_i32(b: Seq<u8>, k: nat) -> i32 {
    record_int(b, k, i32::MIN as int, i32::MAX as int) as i32
}

fn record_text_at(b: &[u8], k: usize) -> (r: String)
    ensures
        r@ == record_text(b@, k as nat),
{
    match locate_field(b, 0, k) {
        Some((lo, hi)) => text_in(b, lo, hi),
        None => String::new(),
    }
}

fn record_i32_at(b: &[u8], k: usize) -> (r: i32)
    ensures
        r == record_i32(b@, k as nat),
{
    match locate_field(b, 0, k) {
        Some((lo, hi)) => field_value(b, lo, hi, i32::MIN as i64, i32::MAX as i64) as i32,
        None => 0,
    }
}

fn record_unsigned_at(b: &[u8], k: usize, hi: u64) -> (r: u64)
    ensures
        r as int == record_int(b@, k as nat, 0, hi as int),
{
    match locate_field(b, 0, k) {
        Some((s, e)) => unsigned_field_value(b, s, e, hi),
        None => 0,
    }
}

impl Player {
    /// A logged-in player with empty names at the origin, stamped with
    /// `last_update`.
    pub fn default_at(last_update: i64) -> (r: Player)
        ensures
            r.id@ == Seq::<char>::empty(),
            r.char_name@ == Seq::<char>::empty(),
            r.skin == 0,
            r.logged_in,
            r.pos == (Point { x: 0, y: 0 }),
            r.velocity == 0,
            r.team == 0,
            r.world_pos == (Point { x: 0, y: 0 }),
            r.last_update == last_update,
    {
        Player {
            id: String::new(),
            char_name: String::new(),
            skin: 0,
            logged_in: true,
            pos: Point::new(0, 0),
            velocity: 0,
            team: 0,
            world_pos: Point::new(0, 0),
            last_update,
        }
    }

    pub fn new(
        id: String,
        char_name: String,
        skin: usize,
        logged_in: bool,
        world_pos: Point,
        pos: Point,
        velocity: u8,
        team: u8,
        last_update: i64,
    ) -> (r: Player)
        ensures
            r == (Player {
                id,
                char_name,
                skin,
                logged_in,
                pos,
                velocity,
                team,
                world_pos,
                last_update,
            }),
    {
        Player { id, char_name, skin, logged_in, pos, velocity, team, world_pos, last_update }
    }

    /// Reads the record `id;char_name;skin;x;y;team;world_x;world_y`. A
    /// missing field takes its default (empty text, 0), and so does a
    /// numeric field that does not parse; the velocity is 0 and the player
    /// is logged in.
    pub fn from_str(string: &str) -> (r: Player)
        ensures
            ({
                let b = vstd::utf8::encode_utf8(string@);
                &&& r.id@ == record_text(b, 0)
                &&& r.char_name@ == record_text(b, 1)
                &&& r.skin == record_int(b, 2, 0, usize::MAX as int) as usize
                &&& r.logged_in
                &&& r.pos == Point { x: record_i32(b, 3), y: record_i32(b, 4) }
                &&& r.velocity == 0
                &&& r.team == record_int(b, 5, 0, u8::MAX as int) as u8
                &&& r.world_pos == Point { x: record_i32(b, 6), y: record_i32(b, 7) }
                &&& r.last_update == 0
            }),
    {
        let b = string.as_bytes();
        let skin = record_unsigned_at(b, 2, usize::MAX as u64);
        let team = record_unsigned_at(b, 5, u8::MAX as u64);
        Player {
            id: record_text_at(b, 0),
            char_name: record_text_at(b, 1),
            skin: skin as usize,
            logged_in: true,
            pos: Point { x: record_i32_at(b, 3), y: record_i32_at(b, 4) },
            velocity: 0,
            team: team as u8,
            world_pos: Point { x: record_i32_at(b, 6), y: record_i32_at(b, 7) },
            last_update: 0,
        }
    }
}

} // verus!
