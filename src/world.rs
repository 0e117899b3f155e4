//! The client's entity set: the locally controlled player and a mirror of
//! every remote player that a snapshot has shown, keyed by player id.
use vstd::prelude::*;

use crate::animation::{sheet_fits, sheet_frame, MovementAnimation, Region, Sprite};
use crate::player::Player;

verus! {

/// Who drives an entity.
#[derive(Clone, Copy, Debug, PartialEq, Eq, Structural)]
pub enum EntityKind {
    /// The player at this keyboard; snapshots never overwrite it.
    Local,
    /// A mirror of a player that the authority reports.
    Remote,
}

/// Whether an entity is alive, and its health out of `FULL_HEALTH`.
#[derive(Clone, Copy, Debug, PartialEq, Eq, Structural)]
pub struct Status {
    pub alive: bool,
    pub health: u32,
}

pub const FULL_HEALTH: u32 = 100;

/// One tracked player with its local-only state.
#[derive(Debug)]
pub struct Entity {
    pub kind: EntityKind,
    pub player: Player,
    pub animation: MovementAnimation,
    /// The sprite region currently shown.
    pub sprite: Sprite,
    pub status: Status,
}

/// What the reconciler and the animation see of an entity.
pub struct EntityView {
    pub kind: EntityKind,
    pub player: Player,
    pub current_frame: usize,
    pub sprite: Sprite,
    pub status: Status,
}

impl View for Entity {
    type V = EntityView;

    open spec fn view(&self) -> EntityView {
        EntityView {
            kind: self.kind,
            player: self.player,
            current_frame: self.animation.current_frame,
            sprite: self.sprite,
            status: self.status,
        }
    }
}

/// The entities keyed by player id; a later entity wins over an earlier one
/// with the same id (which a well-formed world never holds).
pub open spec fn entity_map(s: Seq<Entity>) -> Map<Seq<char>, EntityView>
    decreases s.len(),
{
    if s.len() == 0 {
        Map::empty()
    } else {
        entity_map(s.drop_last()).insert(s.last().player.id@, s.last()@)
    }
}

pub open spec fn unique_ids(s: Seq<Entity>) -> bool {
    forall|i: int, j: int|
        0 <= i < j < s.len() ==> (#[trigger] s[i]).player.id@ != (#[trigger] s[j]).player.id@
}

/// The state of an entity that a snapshot spawns: a remote mirror at full
/// health, showing `rest` with its cursor at the start.
pub open spec fn spawned(p: Player, rest: Sprite) -> EntityView {
    EntityView {
        kind: EntityKind::Remote,
        player: p,
        current_frame: 0,
        sprite: rest,
        status: Status { alive: true, health: FULL_HEALTH },
    }
}

/// One snapshot record merged into the entity map: the local player's own
/// record is skipped, a known id has its record replaced, and an unknown id
/// is spawned.
pub open spec fn apply_record(
    m: Map<Seq<char>, EntityView>,
    local: Seq<char>,
    p: Player,
    rest: Sprite,
) -> Map<Seq<char>, EntityView> {
    if p.id@ == local {
        m
    } else if m.contains_key(p.id@) {
        m.insert(p.id@, EntityView { player: p, ..m[p.id@] })
    } else {
        m.insert(p.id@, spawned(p, rest))
    }
}

/// A snapshot merged into the entity map, record by record. Nothing is
/// ever removed: an id that a later snapshot lacks stays tracked.
pub open spec fn reconciled(
    m: Map<Seq<char>, EntityView>,
    local: Seq<char>,
    snapshot: Seq<Player>,
    rest: Sprite,
) -> Map<Seq<char>, EntityView>
    decreases snapshot.len(),
{
    if snapshot.len() == 0 {
        m
    } else {
        apply_record(reconciled(m, local, snapshot.drop_last(), rest), local, snapshot.last(), rest)
    }
}

/// The record that a snapshot holds for each id: the last one with that id.
pub open spec fn snapshot_map(snapshot: Seq<Player>) -> Map<Seq<char>, Player>
    decreases snapshot.len(),
{
    if snapshot.len() == 0 {
        Map::empty()
    } else {
        snapshot_map(snapshot.drop_last()).insert(snapshot.last().id@, snapshot.last())
    }
}

proof fn lemma_entity_map(s: Seq<Entity>)
    requires
        unique_ids(s),
    ensures
        forall|i: int|
            0 <= i < s.len() ==> entity_map(s).contains_key(#[trigger] s[i].player.id@)
                && entity_map(s)[s[i].player.id@] == s[i]@,
        forall|k: Seq<char>|
            #[trigger] entity_map(s).contains_key(k) ==> exists|i: int|
                0 <= i < s.len() && s[i].player.id@ == k,
    decreases s.len(),
{
    if s.len() > 0 {
        let t = s.drop_last();
        assert(unique_ids(t)) by {
            assert forall|i: int, j: int| 0 <= i < j < t.len() implies (#[trigger] t[i]).player.id@
                != (#[trigger] t[j]).player.id@ by {
                assert(t[i] == s[i] && t[j] == s[j]);
            }
        }
        lemma_entity_map(t);
        assert forall|i: int| 0 <= i < s.len() implies entity_map(s).contains_key(
            #[trigger] s[i].player.id@,
        ) && entity_map(s)[s[i].player.id@] == s[i]@ by {
            if i < s.len() - 1 {
                assert(t[i] == s[i]);
                assert(s[i].player.id@ != s[s.len() - 1].player.id@);
            }
        }
        assert forall|k: Seq<char>| #[trigger] entity_map(s).contains_key(k) implies exists|i: int|
            0 <= i < s.len() && s[i].player.id@ == k by {
            if k != s.last().player.id@ {
                assert(entity_map(t).contains_key(k));
                let i = choose|i: int| 0 <= i < t.len() && t[i].player.id@ == k;
                assert(s[i] == t[i]);
            } else {
                assert(s[s.len() - 1].player.id@ == k);
            }
        }
    }
}

proof fn lemma_entity_map_update(s: Seq<Entity>, j: int, e: Entity)
    requires
        unique_ids(s),
        0 <= j < s.len(),
        e.player.id@ == s[j].player.id@,
    ensures
        entity_map(s.update(j, e)) == entity_map(s).insert(e.player.id@, e@),
    decreases s.len(),
{
    let u = s.update(j, e);
    let t = s.drop_last();
    if j == s.len() - 1 {
        assert(u.drop_last() =~= t);
        assert(entity_map(u) =~= entity_map(s).insert(e.player.id@, e@));
    } else {
        assert(unique_ids(t)) by {
            assert forall|a: int, b: int| 0 <= a < b < t.len() implies (#[trigger] t[a]).player.id@
                != (#[trigger] t[b]).player.id@ by {
                assert(t[a] == s[a] && t[b] == s[b]);
            }
        }
        assert(u.drop_last() =~= t.update(j, e));
        lemma_entity_map_update(t, j, e);
        assert(s[j].player.id@ != s[s.len() - 1].player.id@);
        assert(entity_map(u) =~= entity_map(s).insert(e.player.id@, e@));
    }
}

/// The local player, every remote player seen so far, and the sheet layout
/// that new entities take their walk cycles from.
#[derive(Debug)]
pub struct World {
    pub local_id: String,
    pub entities: Vec<Entity>,
    pub spritesheet: usize,
    pub top_left: Region,
}

impl View for World {
    type V = Map<Seq<char>, EntityView>;

    open spec fn view(&self) -> Map<Seq<char>, EntityView> {
        entity_map(self.entities@)
    }
}

impl World {
    /// The sprite that a new entity shows: the first frame of the walk
    /// cycle facing down.
    pub open spec fn rest_sprite(&self) -> Sprite {
        sheet_frame(self.spritesheet, self.top_left, 0, 0)
    }

    /// Ids are unique; the first entity is the local player, and it alone
    /// has the local player's id and the `Local` kind; every animation is
    /// well formed.
    pub open spec fn wf(&self) -> bool {
        let s = self.entities@;
        &&& sheet_fits(self.top_left)
        &&& s.len() > 0
        &&& s[0].player.id@ == self.local_id@
        &&& unique_ids(s)
        &&& forall|i: int|
            0 <= i < s.len() ==> ((#[trigger] s[i]).kind == EntityKind::Local <==> i == 0)
        &&& forall|i: int| 0 <= i < s.len() ==> (#[trigger] s[i]).animation.wf()
    }

    /// A world that holds only the local player.
    pub fn new(local: Player, spritesheet: usize, top_left: Region) -> (r: World)
        requires
            sheet_fits(top_left),
        ensures
            r.wf(),
            r.local_id@ == local.id@,
            r.spritesheet == spritesheet,
            r.top_left == top_left,
            r.entities@.len() == 1,
            r.entities@[0]@ == (EntityView { kind: EntityKind::Local, ..spawned(local, r.rest_sprite()) }),
    {
        let local_id = local.id.clone();
        let entity = Self::make_entity(EntityKind::Local, local, spritesheet, top_left);
        let mut entities: Vec<Entity> = Vec::new();
        entities.push(entity);
        World { local_id, entities, spritesheet, top_left }
    }

    fn make_entity(kind: EntityKind, player: Player, spritesheet: usize, top_left: Region) -> (r: Entity)
        requires
            sheet_fits(top_left),
        ensures
            r@ == (EntityView { kind, ..spawned(player, sheet_frame(spritesheet, top_left, 0, 0)) }),
            r.animation.wf(),
    {
        let animation = MovementAnimation::from_sheet(spritesheet, top_left);
        let sprite = animation.down_frames[0];
        Entity {
            kind,
            player,
            animation,
            sprite,
            status: Status { alive: true, health: FULL_HEALTH },
        }
    }

    /// The locally controlled player's record.
    pub fn local_player(&self) -> (r: &Player)
        requires
            self.wf(),
        ensures
            *r == self.entities@[0].player,
            r.id@ == self.local_id@,
    {
        &self.entities[0].player
    }

    /// The index of the entity with this id, if one is tracked.
    pub fn find(&self, id: &String) -> (r: Option<usize>)
        requires
            self.wf(),
        ensures
            r matches Some(i) ==> i < self.entities@.len() && self.entities@[i as int].player.id@
                == id@,
            r is None ==> !self@.contains_key(id@),
    {
        let mut i: usize = 0;
        while i < self.entities.len()
            invariant
                self.wf(),
                0 <= i <= self.entities@.len(),
                forall|j: int| 0 <= j < i ==> (#[trigger] self.entities@[j]).player.id@ != id@,
            decreases self.entities@.len() - i,
        {
            if self.entities[i].player.id == *id {
                return Some(i);
            }
            i = i + 1;
        }
        proof {
            lemma_entity_map(self.entities@);
        }
        None
    }

    /// Merges a snapshot into the entity set, record by record: the local
    /// player's own record is skipped, a tracked id has its whole record
    /// replaced, and an unknown id is spawned as a remote mirror. No entity
    /// is removed, and entities keep their place and animation.
    pub fn reconcile(&mut self, snapshot: &Vec<Player>)
        requires
            old(self).wf(),
        ensures
            final(self).wf(),
            final(self).local_id == old(self).local_id,
            final(self).spritesheet == old(self).spritesheet,
            final(self).top_left == old(self).top_left,
            final(self)@ == reconciled(old(self)@, old(self).local_id@, snapshot@, old(self).rest_sprite()),
            final(self).entities@.len() >= old(self).entities@.len(),
            forall|i: int|
                0 <= i < old(self).entities@.len() ==> (#[trigger] final(self).entities@[i]).animation
                    == old(self).entities@[i].animation,
    {
        let ghost m0 = self@;
        let ghost rest = self.rest_sprite();
        let ghost before = self.entities@;
        let mut i: usize = 0;
        while i < snapshot.len()
            invariant
                self.wf(),
                0 <= i <= snapshot@.len(),
                self.local_id == old(self).local_id,
                self.spritesheet == old(self).spritesheet,
                self.top_left == old(self).top_left,
                rest == self.rest_sprite(),
                self@ == reconciled(m0, self.local_id@, snapshot@.take(i as int), rest),
                self.entities@.len() >= before.len(),
                forall|k: int|
                    0 <= k < before.len() ==> (#[trigger] self.entities@[k]).animation
                        == before[k].animation,
            decreases snapshot@.len() - i,
        {
            let p = &snapshot[i];
            assert(snapshot@.take(i + 1).drop_last() =~= snapshot@.take(i as int));
            assert(snapshot@.take(i + 1).last() == *p);
            let ghost m = self@;
            if p.id == self.local_id {
            } else {
                match self.find(&p.id) {
                    Some(j) => {
                        proof {
                            lemma_entity_map(self.entities@);
                        }
                        let ghost s = self.entities@;
                        let ghost e = Entity { player: *p, ..s[j as int] };
                        assert(e@ == EntityView { player: *p, ..m[p.id@] });
                        self.entities[j].player = p.clone();
                        assert(self.entities@ =~= s.update(j as int, e));
                        proof {
                            lemma_entity_map_update(s, j as int, e);
                            assert(unique_ids(self.entities@)) by {
                                assert forall|a: int, b: int|
                                    0 <= a < b < self.entities@.len() implies (
                                    #[trigger] self.entities@[a]).player.id@ != (
                                    #[trigger] self.entities@[b]).player.id@ by {
                                    assert(s[a].player.id@ != s[b].player.id@);
                                }
                            }
                        }
                    },
                    None => {
                        let e = Self::make_entity(
                            EntityKind::Remote,
                            p.clone(),
                            self.spritesheet,
                            self.top_left,
                        );
                        let ghost s = self.entities@;
                        proof {
                            lemma_entity_map(s);
                        }
                        self.entities.push(e);
                        proof {
                            let s2 = self.entities@;
                            assert(s2.drop_last() =~= s);
                            assert forall|a: int, b: int| 0 <= a < b < s2.len() implies (
                            #[trigger] s2[a]).player.id@ != (#[trigger] s2[b]).player.id@ by {
                                if b == s2.len() - 1 {
                                    assert(s2[a] == s[a]);
                                    assert(m.contains_key(s[a].player.id@));
                                } else {
                                    assert(s2[a] == s[a] && s2[b] == s[b]);
                                }
                            }
                            assert forall|a: int| 0 <= a < s2.len() implies ((
                            #[trigger] s2[a]).kind == EntityKind::Local <==> a == 0) by {
                                if a < s.len() {
                                    assert(s2[a] == s[a]);
                                }
                            }
                            assert forall|a: int| 0 <= a < s2.len() implies (
                            #[trigger] s2[a]).animation.wf() by {
                                if a < s.len() {
                                    assert(s2[a] == s[a]);
                                }
                            }
                        }
                    },
                }
            }
            i = i + 1;
        }
        assert(snapshot@.take(snapshot@.len() as int) =~= snapshot@);
    }
}

proof fn lemma_snapshot_map(s: Seq<Player>)
    ensures
        forall|k: Seq<char>|
            #[trigger] snapshot_map(s).contains_key(k) <==> exists|j: int|
                0 <= j < s.len() && (#[trigger] s[j]).id@ == k,
        forall|k: Seq<char>| #[trigger]
            snapshot_map(s).contains_key(k) ==> snapshot_map(s)[k].id@ == k,
    decreases s.len(),
{
    if s.len() > 0 {
        let t = s.drop_last();
        lemma_snapshot_map(t);
        assert forall|k: Seq<char>| #[trigger] snapshot_map(s).contains_key(k) <==> exists|j: int|
            0 <= j < s.len() && (#[trigger] s[j]).id@ == k by {
            if snapshot_map(s).contains_key(k) && k != s.last().id@ {
                assert(snapshot_map(t).contains_key(k));
                let j = choose|j: int| 0 <= j < t.len() && (#[trigger] t[j]).id@ == k;
                assert(s[j] == t[j]);
            }
            if exists|j: int| 0 <= j < s.len() && (#[trigger] s[j]).id@ == k {
                let j = choose|j: int| 0 <= j < s.len() && (#[trigger] s[j]).id@ == k;
                if j < s.len() - 1 {
                    assert(t[j] == s[j]);
                    assert(snapshot_map(t).contains_key(k));
                }
            }
        }
        assert forall|k: Seq<char>| #[trigger] snapshot_map(s).contains_key(k) implies snapshot_map(
            s,
        )[k].id@ == k by {
            if k != s.last().id@ {
                assert(snapshot_map(t).contains_key(k));
            }
        }
    }
}

/// `reconciled` in closed form: an id that the snapshot holds (other than
/// the local one) carries the snapshot's last record for it, on top of its
/// old state or a fresh spawn; every other id keeps its old state.
proof fn lemma_reconciled(
    m: Map<Seq<char>, EntityView>,
    local: Seq<char>,
    s: Seq<Player>,
    rest: Sprite,
)
    ensures
        forall|k: Seq<char>|
            #[trigger] reconciled(m, local, s, rest).contains_key(k) <==> (m.contains_key(k) || (k
                != local && snapshot_map(s).contains_key(k))),
        forall|k: Seq<char>|
            k != local && #[trigger] snapshot_map(s).contains_key(k) ==> reconciled(
                m,
                local,
                s,
                rest,
            )[k] == (if m.contains_key(k) {
                EntityView { player: snapshot_map(s)[k], ..m[k] }
            } else {
                spawned(snapshot_map(s)[k], rest)
            }),
        forall|k: Seq<char>|
            !(k != local && snapshot_map(s).contains_key(k)) && #[trigger] m.contains_key(k)
                ==> reconciled(m, local, s, rest)[k] == m[k],
    decreases s.len(),
{
    if s.len() > 0 {
        lemma_reconciled(m, local, s.drop_last(), rest);
    }
}

/// Applying the same snapshot twice in a row leaves the entity set exactly
/// as the first application left it.
pub proof fn lemma_reconcile_idempotent(
    m: Map<Seq<char>, EntityView>,
    local: Seq<char>,
    snapshot: Seq<Player>,
    rest: Sprite,
)
    ensures
        reconciled(reconciled(m, local, snapshot, rest), local, snapshot, rest) == reconciled(
            m,
            local,
            snapshot,
            rest,
        ),
{
    let once = reconciled(m, local, snapshot, rest);
    lemma_reconciled(m, local, snapshot, rest);
    lemma_reconciled(once, local, snapshot, rest);
    assert(reconciled(once, local, snapshot, rest) =~= once);
}

/// Reconciling never removes a tracked id, and leaves the local player's
/// entity exactly as it was.
pub proof fn lemma_reconcile_keeps_tracked(
    m: Map<Seq<char>, EntityView>,
    local: Seq<char>,
    snapshot: Seq<Player>,
    rest: Sprite,
)
    ensures
        forall|k: Seq<char>|
            #[trigger] m.contains_key(k) ==> reconciled(m, local, snapshot, rest).contains_key(k),
        m.contains_key(local) ==> reconciled(m, local, snapshot, rest)[local] == m[local],
{
    lemma_reconciled(m, local, snapshot, rest);
}

/// Whether a snapshot holds a record for `id`.
pub open spec fn holds_id(snapshot: Seq<Player>, id: Seq<char>) -> bool {
    exists|j: int| 0 <= j < snapshot.len() && (#[trigger] snapshot[j]).id@ == id
}

/// A run of snapshots merged one after another.
pub open spec fn reconciled_all(
    m: Map<Seq<char>, EntityView>,
    local: Seq<char>,
    snapshots: Seq<Seq<Player>>,
    rest: Sprite,
) -> Map<Seq<char>, EntityView>
    decreases snapshots.len(),
{
    if snapshots.len() == 0 {
        m
    } else {
        reconciled(reconciled_all(m, local, snapshots.drop_last(), rest), local, snapshots.last(), rest)
    }
}

/// After a run of snapshots that each hold a record for the remote id `id`,
/// the entity for `id` carries the record of the most recent snapshot.
pub proof fn lemma_latest_snapshot_wins(
    m: Map<Seq<char>, EntityView>,
    local: Seq<char>,
    snapshots: Seq<Seq<Player>>,
    id: Seq<char>,
    rest: Sprite,
)
    requires
        snapshots.len() > 0,
        id != local,
        forall|i: int| 0 <= i < snapshots.len() ==> holds_id(#[trigger] snapshots[i], id),
    ensures
        reconciled_all(m, local, snapshots, rest).contains_key(id),
        reconciled_all(m, local, snapshots, rest)[id].player == snapshot_map(snapshots.last())[id],
        snapshot_map(snapshots.last())[id].id@ == id,
{
    let last = snapshots.last();
    let before = reconciled_all(m, local, snapshots.drop_last(), rest);
    lemma_snapshot_map(last);
    assert(holds_id(snapshots[snapshots.len() - 1], id));
    assert(snapshot_map(last).contains_key(id));
    lemma_reconciled(before, local, last, rest);
}

} // verus!
