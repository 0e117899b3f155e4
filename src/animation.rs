//! The per-entity animation: a frame cursor that walks the frame list of
//! the direction an entity moves in.
use vstd::prelude::*;

verus! {

/// A rectangle of a spritesheet, in pixels.
#[derive(Clone, Copy, Debug, PartialEq, Eq, Structural)]
pub struct Region {
    pub x: i32,
    pub y: i32,
    pub width: u32,
    pub height: u32,
}

/// What to draw: a region of one of the loaded spritesheets.
#[derive(Clone, Copy, Debug, PartialEq, Eq, Structural)]
pub struct Sprite {
    /// The specific spritesheet to render from.
    pub spritesheet: usize,
    /// The current region of the spritesheet to be rendered.
    pub region: Region,
}

/// The number of frames that each direction's walk cycle has.
pub const FRAMES_PER_DIRECTION: usize = 3;

/// The ordinal of a stationary velocity: the animation freezes.
pub const STATIONARY: u8 = 4;

/// The stationary value of an older dialect, which freezes the animation
/// too.
pub const LEGACY_STATIONARY: u8 = 5;

/// Whether a velocity leaves the animation frozen on its last frame.
pub open spec fn freezes(velocity: u8) -> bool {
    velocity == STATIONARY || velocity == LEGACY_STATIONARY
}

/// Frame `i` of the walk cycle in sheet row `row`, for a sheet whose first
/// frame is `top_left`.
pub open spec fn sheet_frame(spritesheet: usize, top_left: Region, row: int, i: int) -> Sprite {
    Sprite {
        spritesheet,
        region: Region {
            x: (top_left.x + top_left.width * i) as i32,
            y: (top_left.y + top_left.height * row) as i32,
            width: top_left.width,
            height: top_left.height,
        },
    }
}

pub open spec fn sheet_frames(spritesheet: usize, top_left: Region, row: int) -> Seq<Sprite> {
    Seq::new(FRAMES_PER_DIRECTION as nat, |i: int| sheet_frame(spritesheet, top_left, row, i))
}

/// Whether every frame of a sheet with this first frame has coordinates
/// that fit an `i32`.
pub open spec fn sheet_fits(top_left: Region) -> bool {
    &&& top_left.x + top_left.width * 2 <= i32::MAX
    &&& top_left.y + top_left.height * 3 <= i32::MAX
}

/// The walk cycles of the four directions and the cursor into the current
/// one.
#[derive(Debug)]
pub struct MovementAnimation {
    /// The current frame in the animation of the direction this entity is
    /// moving in.
    pub current_frame: usize,
    pub up_frames: Vec<Sprite>,
    pub down_frames: Vec<Sprite>,
    pub left_frames: Vec<Sprite>,
    pub right_frames: Vec<Sprite>,
}

impl MovementAnimation {
    /// The frame list that a velocity selects: one for each of the four
    /// directions, and the left one for any other value (values of 6 and up
    /// come from peers that speak another dialect).
    pub open spec fn frames_for(&self, velocity: u8) -> Seq<Sprite> {
        if velocity == 0 {
            self.up_frames@
        } else if velocity == 1 {
            self.right_frames@
        } else if velocity == 2 {
            self.down_frames@
        } else {
            self.left_frames@
        }
    }

    /// All four lists are equally long and not empty, and the cursor points
    /// into them.
    pub open spec fn wf(&self) -> bool {
        let n = self.up_frames@.len();
        &&& n > 0
        &&& self.down_frames@.len() == n
        &&& self.left_frames@.len() == n
        &&& self.right_frames@.len() == n
        &&& self.current_frame < n
    }

    /// The cursor and the shown sprite after one tick at `velocity`.
    pub open spec fn step(&self, sprite: Sprite, velocity: u8) -> (usize, Sprite) {
        if freezes(velocity) {
            (self.current_frame, sprite)
        } else {
            let next = ((self.current_frame + 1) as int % self.frames_for(velocity).len() as int) as usize;
            (next, self.frames_for(velocity)[next as int])
        }
    }

    /// The walk cycles of a spritesheet laid out with one row per direction
    /// (down, left, right, up) and `FRAMES_PER_DIRECTION` frames of the size
    /// of `top_left` side by side in each row.
    pub fn from_sheet(spritesheet: usize, top_left: Region) -> (r: MovementAnimation)
        requires
            sheet_fits(top_left),
        ensures
            r.wf(),
            r.current_frame == 0,
            r.up_frames@ == sheet_frames(spritesheet, top_left, 3),
            r.right_frames@ == sheet_frames(spritesheet, top_left, 2),
            r.down_frames@ == sheet_frames(spritesheet, top_left, 0),
            r.left_frames@ == sheet_frames(spritesheet, top_left, 1),
    {
        MovementAnimation {
            current_frame: 0,
            up_frames: row_frames(spritesheet, top_left, 3),
            down_frames: row_frames(spritesheet, top_left, 0),
            left_frames: row_frames(spritesheet, top_left, 1),
            right_frames: row_frames(spritesheet, top_left, 2),
        }
    }

    /// One animation tick at the given velocity. A stationary velocity (4,
    /// or 5 from the older dialect) leaves everything as it is: the entity
    /// freezes on its last frame. Any other moves the cursor one step round the selected list and shows
    /// that frame.
    pub fn advance(&mut self, sprite: &mut Sprite, velocity: u8)
        requires
            old(self).wf(),
        ensures
            final(self).wf(),
            final(self).up_frames == old(self).up_frames,
            final(self).down_frames == old(self).down_frames,
            final(self).left_frames == old(self).left_frames,
            final(self).right_frames == old(self).right_frames,
            freezes(velocity) ==> final(self).current_frame == old(self).current_frame
                && *final(sprite) == *old(sprite),
            !freezes(velocity) ==> final(self).current_frame as int == (old(self).current_frame
                + 1) as int % old(self).frames_for(velocity).len() as int,
            !freezes(velocity) ==> *final(sprite) == old(self).frames_for(
                velocity,
            )[final(self).current_frame as int],
            final(self).current_frame < final(self).frames_for(velocity).len(),
            (final(self).current_frame, *final(sprite)) == old(self).step(*old(sprite), velocity),
    {
        if velocity == STATIONARY || velocity == LEGACY_STATIONARY {
            return ;
        }
        let frames = if velocity == 0 {
            &self.up_frames
        } else if velocity == 1 {
            &self.right_frames
        } else if velocity == 2 {
            &self.down_frames
        } else {
            &self.left_frames
        };
        assert(frames@ == self.frames_for(velocity));
        assert(self.current_frame < frames@.len());
        let n = frames.len();
        let next = (self.current_frame + 1) % n;
        *sprite = frames[next];
        self.current_frame = next;
    }
}

fn row_frames(spritesheet: usize, top_left: Region, row: i64) -> (r: Vec<Sprite>)
    requires
        sheet_fits(top_left),
        0 <= row <= 3,
    ensures
        r@ == sheet_frames(spritesheet, top_left, row as int),
{
    let mut frames: Vec<Sprite> = Vec::new();
    let mut i: usize = 0;
    while i < FRAMES_PER_DIRECTION
        invariant
            0 <= i <= FRAMES_PER_DIRECTION,
            sheet_fits(top_left),
            0 <= row <= 3,
            frames@ == sheet_frames(spritesheet, top_left, row as int).take(i as int),
        decreases FRAMES_PER_DIRECTION - i,
    {
        assert(top_left.width * i <= top_left.width * 2) by (nonlinear_arith)
            requires
                i < 3,
        ;
        assert(top_left.height * row <= top_left.height * 3) by (nonlinear_arith)
            requires
                row <= 3,
        ;
        let x = top_left.x as i64 + top_left.width as i64 * i as i64;
        let y = top_left.y as i64 + top_left.height as i64 * row;
        frames.push(
            Sprite {
                spritesheet,
                region: Region { x: x as i32, y: y as i32, width: top_left.width, height: top_left.height },
            },
        );
        i = i + 1;
        assert(frames@ =~= sheet_frames(spritesheet, top_left, row as int).take(i as int));
    }
    assert(frames@ =~= sheet_frames(spritesheet, top_left, row as int));
    frames
}

/// The animation and the shown sprite after one tick at each velocity of
/// `velocities`, in order.
pub open spec fn ticked(a: MovementAnimation, sprite: Sprite, velocities: Seq<u8>) -> (
    MovementAnimation,
    Sprite,
)
    decreases velocities.len(),
{
    if velocities.len() == 0 {
        (a, sprite)
    } else {
        let (b, s) = ticked(a, sprite, velocities.drop_last());
        let (c, t) = b.step(s, velocities.last());
        (MovementAnimation { current_frame: c, ..b }, t)
    }
}

/// Whatever sequence of velocities drives a well-formed animation, its
/// cursor stays inside the frame list of every direction, and the frame
/// lists stay as they were.
pub proof fn lemma_cursor_in_bounds(a: MovementAnimation, sprite: Sprite, velocities: Seq<u8>)
    requires
        a.wf(),
    ensures
        ticked(a, sprite, velocities).0.wf(),
        forall|v: u8|
            #![trigger ticked(a, sprite, velocities).0.frames_for(v)]
            ticked(a, sprite, velocities).0.current_frame < ticked(
                a,
                sprite,
                velocities,
            ).0.frames_for(v).len(),
        ticked(a, sprite, velocities).0.up_frames == a.up_frames,
        ticked(a, sprite, velocities).0.down_frames == a.down_frames,
        ticked(a, sprite, velocities).0.left_frames == a.left_frames,
        ticked(a, sprite, velocities).0.right_frames == a.right_frames,
    decreases velocities.len(),
{
    if velocities.len() > 0 {
        lemma_cursor_in_bounds(a, sprite, velocities.drop_last());
    }
}

} // verus!
