//! Local diff model: the authoritative side of replication.
//!
//! It owns the set of entities this peer currently simulates. Each tick the
//! driver samples every tracked entity's live state into an `EntitySample`
//! and folds it into the entity's snapshot; `make_diff` then compares each
//! snapshot against the last transmitted one and emits the update stream.
//! The model also decides authority handoff: an entity that leaves the
//! authority radius is either transferred to a nearby peer or released.

use vstd::prelude::*;

use crate::bindings::{PlayerRegistry, ProxyBindings};
use crate::ctx::ModuleCtx;
use crate::des::{
    dup_animations, dup_effects, dup_limbs, dup_phys, dup_wand, animations_eq, effects_eq,
    limbs_eq, opt_peer_eq, opt_wand_gid, phys_eq, wand_gid_eq, DesToProxy, EntityInfo, EntityInfoV,
    GameEffectData, PhysBodyInfo,
    EntityKind, EntitySpawnInfo, EntityUpdate, EntityUpdateV, FullEntityData, SpawnOnce,
    SpawnOnceV, UpdatePosition, WandData,
};
use crate::ids::{EntityHandle, Gid, Lid, PeerId, WorldPos};

verus! {

/// Snapshot bookkeeping for one tracked entity: the snapshot being built
/// from live state this tick, and the last transmitted one. `last` is
/// `None` exactly until the first diff after tracking began, which then
/// must send a full init instead of field deltas.
pub struct EntityEntryPair {
    pub last: Option<EntityInfo>,
    pub current: EntityInfo,
    pub gid: Gid,
}

/// One queued death notification, recorded when a tracked entity died
/// locally and drained into the update stream by `make_diff`.
pub struct DeathNotify {
    pub entity_killed: EntityHandle,
    pub wait_on_kill: bool,
    pub drops_gold: bool,
    pub pos: WorldPos,
    pub file: String,
    pub entity_responsible: Option<EntityHandle>,
}

/// Engine facts needed to begin tracking an entity, read by the driver
/// immediately before calling `track_entity`.
pub struct InitialEntityState {
    /// The entity has an item capability.
    pub has_item_component: bool,
    /// The entity is not inside any inventory or container.
    pub is_own_root: bool,
    /// No component of the entity requires full serialization to replicate.
    pub reconstructible_by_filename: bool,
    /// The asset the entity was loaded from.
    pub filename: String,
    /// Full serialized form of the entity and the tick it was taken at.
    pub serialized: Vec<u8>,
    pub serialized_at: i32,
    /// Position at tracking time: exact encoding and coarse integers.
    pub x: u32,
    pub y: u32,
    pub world_pos: WorldPos,
    /// Initial health encoding to seed the snapshot with.
    pub hp: u32,
    /// The entity shows a boss health bar.
    pub has_boss_health_bar: bool,
    /// The entity is kept alive by the streaming system.
    pub has_keep_alive: bool,
    /// Death scripts attached to the entity.
    pub death_scripts: Vec<String>,
    /// Some variable of the entity opts out of gold drops.
    pub has_no_gold_drop_var: bool,
}

/// An entity is an item exactly when it carries an item capability and is
/// not itself inside some container.
pub fn entity_is_item(has_item_component: bool, is_own_root: bool) -> (r: bool)
    ensures
        r == (has_item_component && is_own_root),
{
    has_item_component && is_own_root
}

/// Items are replicated as pickupable `Item`s, everything else as `Normal`.
pub fn classify_entity(has_item_component: bool, is_own_root: bool) -> (r: EntityKind)
    ensures
        r == (if has_item_component && is_own_root {
            EntityKind::Item
        } else {
            EntityKind::Normal
        }),
{
    if entity_is_item(has_item_component, is_own_root) {
        EntityKind::Item
    } else {
        EntityKind::Normal
    }
}

/// A normal entity whose whole state the engine can rebuild from its asset
/// is replicated by name (the cheap path); anything else — items, and
/// entities with physics bodies or other non-reconstructible state — is
/// replicated as a full serialized payload.
pub fn choose_spawn_info(
    kind: EntityKind,
    reconstructible_by_filename: bool,
    filename: &String,
    serialized: &Vec<u8>,
    serialized_at: i32,
) -> (r: EntitySpawnInfo)
    ensures
        kind == EntityKind::Normal && reconstructible_by_filename ==> r@
            == crate::des::EntitySpawnInfoV::Filename(filename@),
        !(kind == EntityKind::Normal && reconstructible_by_filename) ==> r@
            == (crate::des::EntitySpawnInfoV::Serialized { serialized_at, data: serialized@ }),
{
    match kind {
        EntityKind::Normal if reconstructible_by_filename => EntitySpawnInfo::Filename(
            filename.clone(),
        ),
        _ => {
            let data = serialized.clone();
            proof {
                assert(data@ =~= serialized@);
            }
            EntitySpawnInfo::Serialized { serialized_at, data }
        },
    }
}

/// An entity drops gold on death when one of its death scripts is the gold
/// drop script and nothing on it opts out.
pub fn drops_gold_rule(death_scripts: &Vec<String>, has_no_gold_drop_var: bool) -> (r: bool)
    ensures
        r == (has_gold_drop_script(death_scripts@) && !has_no_gold_drop_var),
{
    if has_no_gold_drop_var {
        return false;
    }
    let needle: String = gold_drop_script();
    let mut i: usize = 0;
    while i < death_scripts.len()
        invariant
            needle@ == gold_drop_script_str(),
            !has_no_gold_drop_var,
            i <= death_scripts@.len(),
            forall|k: int| 0 <= k < i ==> (#[trigger] death_scripts@[k])@ != gold_drop_script_str(),
        decreases death_scripts@.len() - i,
    {
        let same = <String as PartialEq<String>>::eq(&death_scripts[i], &needle);
        if same {
            proof {
                assert(death_scripts@[i as int]@ == gold_drop_script_str());
            }
            return true;
        }
        i = i + 1;
    }
    false
}

/// Characters of the engine's gold drop death script path.
pub open spec fn gold_drop_script_str() -> Seq<char> {
    "data/scripts/items/drop_money.lua"@
}

/// Some death script of the entity is the gold drop script.
pub open spec fn has_gold_drop_script(scripts: Seq<String>) -> bool {
    exists|k: int| 0 <= k < scripts.len() && (#[trigger] scripts[k])@ == gold_drop_script_str()
}

fn gold_drop_script() -> (r: String)
    ensures
        r@ == gold_drop_script_str(),
{
    let r = "data/scripts/items/drop_money.lua".to_owned();
    r
}

/// The snapshot `track_entity` seeds for a fresh entity: position from the
/// initial state, everything else at its neutral value.
pub open spec fn initial_info(init: InitialEntityState, kind: EntityKind) -> EntityInfoV {
    EntityInfoV {
        spawn_info: if kind == EntityKind::Normal && init.reconstructible_by_filename {
            crate::des::EntitySpawnInfoV::Filename(init.filename@)
        } else {
            crate::des::EntitySpawnInfoV::Serialized {
                serialized_at: init.serialized_at,
                data: init.serialized@,
            }
        },
        kind,
        x: init.x,
        y: init.y,
        r: 0,
        vx: 0,
        vy: 0,
        hp: init.hp,
        world_pos: init.world_pos,
        phys: Seq::empty(),
        cost: 0,
        game_effects: Seq::empty(),
        current_stains: 0,
        facing_direction: false,
        animations: Seq::empty(),
        wand: None,
        is_global: init.has_boss_health_bar || init.has_keep_alive,
        drops_gold: has_gold_drop_script(init.death_scripts@) && !init.has_no_gold_drop_var,
        laser: None,
        ai_rotation: 0,
        ai_state: 0,
        limbs: Seq::empty(),
        is_enabled: false,
        counter: 0,
    }
}

/// No stream-local id occurs twice among the entries.
pub open spec fn lids_unique(entries: Seq<(Lid, EntityEntryPair)>) -> bool {
    forall|i: int, j: int|
        0 <= i < j < entries.len() ==> (#[trigger] entries[i]).0 != (#[trigger] entries[j]).0
}

/// Every entry's id was allocated below the next free id.
pub open spec fn lids_below(entries: Seq<(Lid, EntityEntryPair)>, next: Lid) -> bool {
    forall|i: int| 0 <= i < entries.len() ==> (#[trigger] entries[i]).0.0 < next.0
}

/// Some entry carries this stream-local id.
pub open spec fn entries_have(entries: Seq<(Lid, EntityEntryPair)>, lid: Lid) -> bool {
    exists|k: int| 0 <= k < entries.len() && (#[trigger] entries[k]).0 == lid
}

/// The snapshot entries and the live-entity table cover the same ids.
pub open spec fn entries_match(entries: Seq<(Lid, EntityEntryPair)>, b: ProxyBindings) -> bool {
    forall|lid: Lid| #[trigger] entries_have(entries, lid) <==> b.has_lid(lid)
}

/// Bookkeeping queues of the local model: which entities must stop being
/// tracked, which were handed to this peer, which were localized to some
/// peer, and which died, all drained by `make_diff`.
struct LocalDiffModelTracker {
    bound_entities: ProxyBindings,
    pending_removal: Vec<Lid>,
    pending_authority: Vec<FullEntityData>,
    pending_localize: Vec<(Lid, PeerId)>,
    pending_death_notify: Vec<DeathNotify>,
}

/// The authoritative diff model of one peer.
pub struct LocalDiffModel {
    next_lid: Lid,
    entries: Vec<(Lid, EntityEntryPair)>,
    tracker: LocalDiffModelTracker,
}

impl LocalDiffModel {
    /// Tracked entries, in tracking order.
    pub closed spec fn entries_seq(self) -> Seq<(Lid, EntityEntryPair)> {
        self.entries@
    }

    /// The id the next tracked entity will get.
    pub closed spec fn next_lid_spec(self) -> Lid {
        self.next_lid
    }

    /// The id-to-live-entity table.
    pub closed spec fn tracked_of(self) -> ProxyBindings {
        self.tracker.bound_entities
    }

    pub closed spec fn pending_removal_seq(self) -> Seq<Lid> {
        self.tracker.pending_removal@
    }

    pub closed spec fn pending_authority_seq(self) -> Seq<FullEntityData> {
        self.tracker.pending_authority@
    }

    pub closed spec fn pending_localize_seq(self) -> Seq<(Lid, PeerId)> {
        self.tracker.pending_localize@
    }

    pub closed spec fn pending_death_notify_seq(self) -> Seq<DeathNotify> {
        self.tracker.pending_death_notify@
    }

    pub open spec fn has_entry(self, lid: Lid) -> bool {
        entries_have(self.entries_seq(), lid)
    }

    /// Index of the entry for `lid`; meaningful only when `has_entry`.
    pub open spec fn entry_index(self, lid: Lid) -> int {
        choose|k: int|
            0 <= k < self.entries_seq().len() && (#[trigger] self.entries_seq()[k]).0 == lid
    }

    /// The entry tracked under `lid`; meaningful only when `has_entry`.
    pub open spec fn entry_pair(self, lid: Lid) -> EntityEntryPair {
        self.entries_seq()[self.entry_index(lid)].1
    }

    /// Some tracked entry carries this global id.
    pub open spec fn has_gid(self, gid: Gid) -> bool {
        exists|k: int|
            0 <= k < self.entries_seq().len() && (#[trigger] self.entries_seq()[k]).1.gid == gid
    }

    /// Global ids of all tracked entries.
    pub open spec fn gids(self) -> Set<Gid> {
        Set::new(|g: Gid| self.has_gid(g))
    }

    pub open spec fn wf(self) -> bool {
        &&& self.tracked_of().wf()
        &&& lids_unique(self.entries_seq())
        &&& lids_below(self.entries_seq(), self.next_lid_spec())
        &&& entries_match(self.entries_seq(), self.tracked_of())
    }

    pub fn new() -> (r: LocalDiffModel)
        ensures
            r.wf(),
            r.entries_seq().len() == 0,
            r.next_lid_spec().0 == 0,
            r.tracked_of()@.len() == 0,
            r.pending_removal_seq().len() == 0,
            r.pending_authority_seq().len() == 0,
            r.pending_localize_seq().len() == 0,
            r.pending_death_notify_seq().len() == 0,
    {
        let r = LocalDiffModel {
            next_lid: Lid(0),
            entries: Vec::new(),
            tracker: LocalDiffModelTracker {
                bound_entities: ProxyBindings::new(),
                pending_removal: Vec::new(),
                pending_authority: Vec::new(),
                pending_localize: Vec::new(),
                pending_death_notify: Vec::new(),
            },
        };
        proof {
            assert forall|lid: Lid| #[trigger] entries_have(r.entries_seq(), lid)
                <==> r.tracked_of().has_lid(lid) by {}
        }
        r
    }

    fn alloc_lid(&mut self) -> (r: Lid)
        requires
            old(self).next_lid_spec().0 < u32::MAX,
        ensures
            r == old(self).next_lid_spec(),
            final(self).next_lid_spec().0 == old(self).next_lid_spec().0 + 1,
            final(self).entries_seq() == old(self).entries_seq(),
            final(self).tracked_of() == old(self).tracked_of(),
            final(self).pending_removal_seq() == old(self).pending_removal_seq(),
            final(self).pending_authority_seq() == old(self).pending_authority_seq(),
            final(self).pending_localize_seq() == old(self).pending_localize_seq(),
            final(self).pending_death_notify_seq() == old(self).pending_death_notify_seq(),
    {
        let ret = self.next_lid;
        self.next_lid = Lid(self.next_lid.0 + 1);
        ret
    }

    /// Begins tracking a live entity under a fresh stream-local id.
    ///
    /// The caller owns the live entity: it must not already be tracked.
    /// The snapshot is seeded from the initial state; the first `make_diff`
    /// after this emits a full init for the new id.
    pub fn track_entity(&mut self, entity: EntityHandle, gid: Gid, init: InitialEntityState) -> (r:
        Lid)
        requires
            old(self).wf(),
            old(self).next_lid_spec().0 < u32::MAX,
            !old(self).tracked_of().has_handle(entity),
        ensures
            final(self).wf(),
            r == old(self).next_lid_spec(),
            !old(self).has_entry(r),
            final(self).next_lid_spec().0 == old(self).next_lid_spec().0 + 1,
            final(self).entries_seq().len() == old(self).entries_seq().len() + 1,
            final(self).entries_seq() == old(self).entries_seq().push(
                final(self).entries_seq().last(),
            ),
            final(self).entries_seq().last().0 == r,
            (final(self).entries_seq().last().1).last is None,
            (final(self).entries_seq().last().1).gid == gid,
            (final(self).entries_seq().last().1).current@ == initial_info(
                init,
                if init.has_item_component && init.is_own_root {
                    EntityKind::Item
                } else {
                    EntityKind::Normal
                },
            ),
            final(self).tracked_of().binds(r, entity),
            forall|l2: Lid, h2: EntityHandle|
                final(self).tracked_of().binds(l2, h2) <==> ((l2 == r && h2 == entity) || old(
                    self,
                ).tracked_of().binds(l2, h2)),
            final(self).pending_removal_seq() == old(self).pending_removal_seq(),
            final(self).pending_authority_seq() == old(self).pending_authority_seq(),
            final(self).pending_localize_seq() == old(self).pending_localize_seq(),
            final(self).pending_death_notify_seq() == old(self).pending_death_notify_seq(),
    {
        let lid = self.alloc_lid();
        proof {
            if entries_have(self.entries_seq(), lid) {
                let k = choose|k: int|
                    0 <= k < self.entries_seq().len() && (#[trigger] self.entries_seq()[k]).0
                        == lid;
                assert(self.entries_seq()[k].0.0 < old(self).next_lid_spec().0);
                assert(false);
            }
            assert(!old(self).has_entry(lid));
            assert(!self.tracker.bound_entities.has_lid(lid));
        }
        let kind = classify_entity(init.has_item_component, init.is_own_root);
        let spawn_info = choose_spawn_info(
            kind,
            init.reconstructible_by_filename,
            &init.filename,
            &init.serialized,
            init.serialized_at,
        );
        let drops_gold = drops_gold_rule(&init.death_scripts, init.has_no_gold_drop_var);
        self.tracker.bound_entities.insert(lid, entity);
        let current = EntityInfo {
            spawn_info,
            kind,
            x: init.x,
            y: init.y,
            r: 0,
            vx: 0,
            vy: 0,
            hp: init.hp,
            world_pos: init.world_pos,
            phys: Vec::new(),
            cost: 0,
            game_effects: Vec::new(),
            current_stains: 0,
            facing_direction: false,
            animations: Vec::new(),
            wand: None,
            is_global: init.has_boss_health_bar || init.has_keep_alive,
            drops_gold,
            laser: None,
            ai_rotation: 0,
            ai_state: 0,
            limbs: Vec::new(),
            is_enabled: false,
            counter: 0,
        };
        let ghost pre_entries = self.entries@;
        self.entries.push((lid, EntityEntryPair { last: None, current, gid }));
        proof {
            assert(self.entries@ =~= pre_entries.push(self.entries@.last()));
            let ghost li = (self.entries@.last().1).current@;
            assert(li.game_effects =~~= initial_info(init, kind).game_effects);
            assert(li.phys =~= initial_info(init, kind).phys);
            assert(li.animations =~= initial_info(init, kind).animations);
            assert(li.limbs =~= initial_info(init, kind).limbs);
            assert(li == initial_info(init, kind));
            assert forall|lid2: Lid| #[trigger] entries_have(self.entries_seq(), lid2)
                <==> self.tracker.bound_entities.has_lid(lid2) by {
                if entries_have(self.entries_seq(), lid2) {
                    let k = choose|k: int|
                        0 <= k < self.entries_seq().len() && (#[trigger] self.entries_seq()[k]).0
                            == lid2;
                    if k < pre_entries.len() {
                        assert(pre_entries[k].0 == lid2);
                        assert(entries_have(pre_entries, lid2));
                        assert(old(self).tracked_of().has_lid(lid2));
                        let h2 = old(self).tracked_of().lemma_has_lid_witness(lid2);
                        assert(pre_entries[k].0.0 < lid.0);
                        if h2 == entity {
                            old(self).tracked_of().lemma_binds_members(lid2, h2);
                            assert(false);
                        }
                        assert(self.tracker.bound_entities.binds(lid2, h2));
                        self.tracker.bound_entities.lemma_binds_members(lid2, h2);
                    } else {
                        assert(lid2 == lid);
                        assert(self.tracker.bound_entities.binds(lid, entity));
                        self.tracker.bound_entities.lemma_binds_members(lid, entity);
                    }
                }
                if self.tracker.bound_entities.has_lid(lid2) {
                    let h2 = self.tracker.bound_entities.lemma_has_lid_witness(lid2);
                    if lid2 == lid {
                        assert(self.entries@[self.entries@.len() - 1].0 == lid);
                        assert(entries_have(self.entries_seq(), lid2));
                    } else {
                        assert(old(self).tracked_of().binds(lid2, h2));
                        old(self).tracked_of().lemma_binds_members(lid2, h2);
                        assert(entries_have(pre_entries, lid2));
                        let k = choose|k: int|
                            0 <= k < pre_entries.len() && (#[trigger] pre_entries[k]).0 == lid2;
                        assert(self.entries@[k].0 == lid2);
                        assert(entries_have(self.entries_seq(), lid2));
                    }
                }
            }
            assert forall|i: int, j: int|
                0 <= i < j < self.entries_seq().len() implies (#[trigger] self.entries_seq()[i]).0
                != (#[trigger] self.entries_seq()[j]).0 by {
                if j == self.entries_seq().len() - 1 {
                    assert(self.entries_seq()[i] == pre_entries[i]);
                    assert(pre_entries[i].0.0 < old(self).next_lid_spec().0);
                }
            }
        }
        lid
    }

    /// Re-arms a full init for every tracked entity, used when a new
    /// observer joins and has no baseline to diff against.
    pub fn reset_diff_encoding(&mut self)
        requires
            old(self).wf(),
        ensures
            final(self).wf(),
            final(self).entries_seq().len() == old(self).entries_seq().len(),
            forall|k: int|
                0 <= k < old(self).entries_seq().len() ==> {
                    let pre = #[trigger] old(self).entries_seq()[k];
                    let post = final(self).entries_seq()[k];
                    post.0 == pre.0 && post.1.last is None && post.1.gid == pre.1.gid
                        && post.1.current@ == pre.1.current@
                },
            final(self).next_lid_spec() == old(self).next_lid_spec(),
            final(self).tracked_of() == old(self).tracked_of(),
            final(self).pending_removal_seq() == old(self).pending_removal_seq(),
            final(self).pending_authority_seq() == old(self).pending_authority_seq(),
            final(self).pending_localize_seq() == old(self).pending_localize_seq(),
            final(self).pending_death_notify_seq() == old(self).pending_death_notify_seq(),
    {
        let mut renewed: Vec<(Lid, EntityEntryPair)> = Vec::new();
        let mut i: usize = 0;
        while i < self.entries.len()
            invariant
                *self == *old(self),
                old(self).wf(),
                i <= self.entries@.len(),
                renewed@.len() == i,
                forall|k: int|
                    0 <= k < i ==> {
                        let pre = #[trigger] self.entries@[k];
                        let post = renewed@[k];
                        post.0 == pre.0 && post.1.last is None && post.1.gid == pre.1.gid
                            && post.1.current@ == pre.1.current@
                    },
            decreases self.entries@.len() - i,
        {
            let (lid, pair) = &self.entries[i];
            renewed.push(
                (*lid, EntityEntryPair { last: None, current: pair.current.duplicate(), gid: pair.gid }),
            );
            i = i + 1;
        }
        self.entries = renewed;
        proof {
            assert forall|lid2: Lid| #[trigger] entries_have(self.entries_seq(), lid2)
                <==> self.tracker.bound_entities.has_lid(lid2) by {
                if entries_have(self.entries_seq(), lid2) {
                    let k = choose|k: int|
                        0 <= k < self.entries_seq().len() && (#[trigger] self.entries_seq()[k]).0
                            == lid2;
                    assert(old(self).entries_seq()[k].0 == lid2);
                    assert(entries_have(old(self).entries_seq(), lid2));
                }
                if self.tracker.bound_entities.has_lid(lid2) {
                    assert(entries_have(old(self).entries_seq(), lid2));
                    let k = choose|k: int|
                        0 <= k < old(self).entries_seq().len() && (#[trigger] old(
                            self,
                        ).entries_seq()[k]).0 == lid2;
                    assert(self.entries@[k].0 == lid2);
                }
            }
            assert forall|i2: int, j2: int|
                0 <= i2 < j2 < self.entries_seq().len() implies (
            #[trigger] self.entries_seq()[i2]).0 != (#[trigger] self.entries_seq()[j2]).0 by {
                assert(old(self).entries_seq()[i2].0 != old(self).entries_seq()[j2].0);
            }
            assert forall|i2: int|
                0 <= i2 < self.entries_seq().len() implies (#[trigger] self.entries_seq()[i2]).0.0
                < self.next_lid_spec().0 by {
                assert(old(self).entries_seq()[i2].0.0 < old(self).next_lid_spec().0);
            }
        }
    }

    /// Queues an entity this peer was just granted authority over. The
    /// driver drains the queue, spawns each entity, and tracks it.
    pub fn got_authority(&mut self, full_entity_data: FullEntityData)
        ensures
            final(self).pending_authority_seq() == old(self).pending_authority_seq().push(
                full_entity_data,
            ),
            final(self).entries_seq() == old(self).entries_seq(),
            final(self).next_lid_spec() == old(self).next_lid_spec(),
            final(self).tracked_of() == old(self).tracked_of(),
            final(self).pending_removal_seq() == old(self).pending_removal_seq(),
            final(self).pending_localize_seq() == old(self).pending_localize_seq(),
            final(self).pending_death_notify_seq() == old(self).pending_death_notify_seq(),
            old(self).wf() ==> final(self).wf(),
    {
        self.tracker.pending_authority.push(full_entity_data);
        proof {
            assert(self.entries@ == old(self).entries@);
        }
    }

    /// Hands back everything queued by `got_authority`; the driver spawns
    /// each entry and calls `track_entity` on the result.
    pub fn drain_pending_authority(&mut self) -> (r: Vec<FullEntityData>)
        ensures
            r@ == old(self).pending_authority_seq(),
            final(self).pending_authority_seq().len() == 0,
            final(self).entries_seq() == old(self).entries_seq(),
            final(self).next_lid_spec() == old(self).next_lid_spec(),
            final(self).tracked_of() == old(self).tracked_of(),
            final(self).pending_removal_seq() == old(self).pending_removal_seq(),
            final(self).pending_localize_seq() == old(self).pending_localize_seq(),
            final(self).pending_death_notify_seq() == old(self).pending_death_notify_seq(),
            old(self).wf() ==> final(self).wf(),
    {
        let mut out: Vec<FullEntityData> = Vec::new();
        core::mem::swap(&mut out, &mut self.tracker.pending_authority);
        proof {
            assert(out@ =~= old(self).pending_authority_seq());
        }
        out
    }

    /// Records that a tracked entity died, so the next `make_diff` tells
    /// observers to kill their proxies.
    pub fn death_notify(
        &mut self,
        entity_killed: EntityHandle,
        wait_on_kill: bool,
        drops_gold: bool,
        pos: WorldPos,
        file: String,
        entity_responsible: Option<EntityHandle>,
    )
        ensures
            final(self).pending_death_notify_seq().len() == old(
                self,
            ).pending_death_notify_seq().len() + 1,
            final(self).pending_death_notify_seq() == old(self).pending_death_notify_seq().push(
                final(self).pending_death_notify_seq().last(),
            ),
            final(self).pending_death_notify_seq().last().entity_killed == entity_killed,
            final(self).pending_death_notify_seq().last().wait_on_kill == wait_on_kill,
            final(self).pending_death_notify_seq().last().drops_gold == drops_gold,
            final(self).pending_death_notify_seq().last().pos == pos,
            final(self).pending_death_notify_seq().last().file@ == file@,
            final(self).pending_death_notify_seq().last().entity_responsible
                == entity_responsible,
            final(self).entries_seq() == old(self).entries_seq(),
            final(self).next_lid_spec() == old(self).next_lid_spec(),
            final(self).tracked_of() == old(self).tracked_of(),
            final(self).pending_removal_seq() == old(self).pending_removal_seq(),
            final(self).pending_authority_seq() == old(self).pending_authority_seq(),
            final(self).pending_localize_seq() == old(self).pending_localize_seq(),
            old(self).wf() ==> final(self).wf(),
    {
        self.tracker.pending_death_notify.push(
            DeathNotify {
                entity_killed,
                wait_on_kill,
                drops_gold,
                pos,
                file,
                entity_responsible,
            },
        );
        proof {
            assert(self.entries@ == old(self).entries@);
            assert(self.tracker.pending_death_notify@ =~= old(
                self,
            ).pending_death_notify_seq().push(self.tracker.pending_death_notify@.last()));
        }
    }

    /// The stream-local id of a tracked live entity, if any.
    pub fn lid_by_entity(&self, entity: EntityHandle) -> (r: Option<Lid>)
        requires
            self.wf(),
        ensures
            match r {
                Some(lid) => self.tracked_of().binds(lid, entity),
                None => !self.tracked_of().has_handle(entity),
            },
    {
        self.tracker.bound_entities.get_by_right(entity)
    }

    /// The live entity tracked under a stream-local id, if any.
    pub fn entity_by_lid(&self, lid: Lid) -> (r: Option<EntityHandle>)
        requires
            self.wf(),
        ensures
            match r {
                Some(h) => self.tracked_of().binds(lid, h),
                None => !self.tracked_of().has_lid(lid),
            },
    {
        self.tracker.bound_entities.get_by_left(lid)
    }

    /// The live entity tracked under a global id, if any.
    pub fn find_by_gid(&self, gid: Gid) -> (r: Option<EntityHandle>)
        requires
            self.wf(),
        ensures
            r is Some ==> exists|k: int|
                0 <= k < self.entries_seq().len() && (#[trigger] self.entries_seq()[k]).1.gid
                    == gid && self.tracked_of().binds(self.entries_seq()[k].0, r->Some_0),
            r is None ==> !self.has_gid(gid),
    {
        let mut i: usize = 0;
        while i < self.entries.len()
            invariant
                self.wf(),
                i <= self.entries@.len(),
                forall|k: int| 0 <= k < i ==> (#[trigger] self.entries@[k]).1.gid != gid,
            decreases self.entries@.len() - i,
        {
            if self.entries[i].1.gid == gid {
                let lid = self.entries[i].0;
                proof {
                    assert(self.entries_seq()[i as int].0 == lid);
                    assert(self.has_entry(lid));
                }
                let r = self.tracker.bound_entities.get_by_left(lid);
                proof {
                    if r is None {
                        assert(!self.tracked_of().has_lid(lid));
                        assert(false);
                    }
                }
                return r;
            }
            i = i + 1;
        }
        None
    }

    /// The coarse position broadcast: one entry per tracked entity.
    pub fn get_pos_data(&self) -> (r: Vec<UpdatePosition>)
        ensures
            r@.len() == self.entries_seq().len(),
            forall|k: int|
                0 <= k < r@.len() ==> #[trigger] r@[k] == (UpdatePosition {
                    gid: self.entries_seq()[k].1.gid,
                    pos: self.entries_seq()[k].1.current.world_pos,
                }),
    {
        let mut r: Vec<UpdatePosition> = Vec::new();
        let mut i: usize = 0;
        while i < self.entries.len()
            invariant
                i <= self.entries@.len(),
                r@.len() == i,
                forall|k: int|
                    0 <= k < i ==> #[trigger] r@[k] == (UpdatePosition {
                        gid: self.entries@[k].1.gid,
                        pos: self.entries@[k].1.current.world_pos,
                    }),
            decreases self.entries@.len() - i,
        {
            let pair = &self.entries[i].1;
            r.push(UpdatePosition { gid: pair.gid, pos: pair.current.world_pos });
            i = i + 1;
        }
        r
    }

    /// The transferable description of a tracked entity: everything another
    /// peer needs to spawn it and take over.
    pub fn full_entity_data_for(&self, lid: Lid) -> (r: Option<FullEntityData>)
        requires
            self.wf(),
        ensures
            match r {
                Some(d) => self.has_entry(lid) && d.gid == self.entry_pair(lid).gid && d.pos
                    == self.entry_pair(lid).current.world_pos && d.data@ == self.entry_pair(
                    lid,
                ).current.spawn_info@ && d.wand is None,
                None => !self.has_entry(lid),
            },
    {
        let mut i: usize = 0;
        while i < self.entries.len()
            invariant
                self.wf(),
                i <= self.entries@.len(),
                forall|k: int| 0 <= k < i ==> (#[trigger] self.entries@[k]).0 != lid,
            decreases self.entries@.len() - i,
        {
            if self.entries[i].0 == lid {
                let pair = &self.entries[i].1;
                proof {
                    assert(self.entries_seq()[i as int].0 == lid);
                    assert(self.has_entry(lid));
                    let k = self.entry_index(lid);
                    assert(self.entries_seq()[k].0 == lid);
                    assert(k == i as int);
                }
                return Some(
                    FullEntityData {
                        gid: pair.gid,
                        pos: pair.current.world_pos,
                        data: pair.current.spawn_info.duplicate(),
                        wand: None,
                    },
                );
            }
            i = i + 1;
        }
        None
    }
}


/// A single-event stream when `changed` holds, else nothing: one field's
/// contribution to an entity's delta.
pub open spec fn cond_event(changed: bool, u: EntityUpdateV) -> Seq<EntityUpdateV> {
    if changed {
        seq![u]
    } else {
        Seq::empty()
    }
}

/// The field update events for one entity, given the last transmitted
/// snapshot `l` and the current one `c`: one event per changed field, in
/// the stream's fixed field order. Comparison is exact equality of the
/// carried encodings; the carried-item payload compares by carried-item id
/// alone.
pub open spec fn front_a_events(l: EntityInfoV, c: EntityInfoV) -> Seq<EntityUpdateV> {
    cond_event(opt_wand_gid(l.wand) != opt_wand_gid(c.wand), EntityUpdateV::SetWand(c.wand))
        + cond_event(l.laser != c.laser, EntityUpdateV::SetLaser(c.laser))
        + cond_event(l.x != c.x || l.y != c.y, EntityUpdateV::SetPosition(c.x, c.y))
        + cond_event(l.vx != c.vx || l.vy != c.vy, EntityUpdateV::SetVelocity(c.vx, c.vy))
        + cond_event(l.hp != c.hp, EntityUpdateV::SetHp(c.hp))
}

pub open spec fn front_b_events(l: EntityInfoV, c: EntityInfoV) -> Seq<EntityUpdateV> {
    cond_event(l.animations != c.animations, EntityUpdateV::SetAnimations(c.animations))
        + cond_event(
        l.facing_direction != c.facing_direction,
        EntityUpdateV::SetFacingDirection(c.facing_direction),
    )
        + cond_event(l.r != c.r, EntityUpdateV::SetRotation(c.r))
        + cond_event(l.phys != c.phys, EntityUpdateV::SetPhysInfo(c.phys))
}

pub open spec fn front_events(l: EntityInfoV, c: EntityInfoV) -> Seq<EntityUpdateV> {
    front_a_events(l, c) + front_b_events(l, c)
}

pub open spec fn back_a_events(l: EntityInfoV, c: EntityInfoV) -> Seq<EntityUpdateV> {
    cond_event(l.cost != c.cost, EntityUpdateV::SetCost(c.cost)) + cond_event(
        l.current_stains != c.current_stains,
        EntityUpdateV::SetStains(c.current_stains),
    )
        + cond_event(l.game_effects != c.game_effects, EntityUpdateV::SetGameEffects(c.game_effects))
        + cond_event(l.ai_rotation != c.ai_rotation, EntityUpdateV::SetAiRotation(c.ai_rotation))
}

pub open spec fn back_b_events(l: EntityInfoV, c: EntityInfoV) -> Seq<EntityUpdateV> {
    cond_event(l.ai_state != c.ai_state, EntityUpdateV::SetAiState(c.ai_state)) + cond_event(
        l.limbs != c.limbs,
        EntityUpdateV::SetLimbs(c.limbs),
    ) + cond_event(l.is_enabled != c.is_enabled, EntityUpdateV::SetIsEnabled(c.is_enabled))
        + cond_event(l.counter != c.counter, EntityUpdateV::SetCounter(c.counter))
}

pub open spec fn back_events(l: EntityInfoV, c: EntityInfoV) -> Seq<EntityUpdateV> {
    back_a_events(l, c) + back_b_events(l, c)
}

pub open spec fn field_events(l: EntityInfoV, c: EntityInfoV) -> Seq<EntityUpdateV> {
    front_events(l, c) + back_events(l, c)
}

/// The snapshot after folding in the fields that `front_events` covers:
/// each changed one takes its current value.
pub open spec fn front_a_merge(n: EntityInfoV, l: EntityInfoV, c: EntityInfoV) -> EntityInfoV {
    EntityInfoV {
        wand: if opt_wand_gid(l.wand) != opt_wand_gid(c.wand) {
            c.wand
        } else {
            n.wand
        },
        laser: if l.laser != c.laser {
            c.laser
        } else {
            n.laser
        },
        x: if l.x != c.x || l.y != c.y {
            c.x
        } else {
            n.x
        },
        y: if l.x != c.x || l.y != c.y {
            c.y
        } else {
            n.y
        },
        vx: if l.vx != c.vx || l.vy != c.vy {
            c.vx
        } else {
            n.vx
        },
        vy: if l.vx != c.vx || l.vy != c.vy {
            c.vy
        } else {
            n.vy
        },
        hp: if l.hp != c.hp {
            c.hp
        } else {
            n.hp
        },
        ..n
    }
}

pub open spec fn front_b_merge(n: EntityInfoV, l: EntityInfoV, c: EntityInfoV) -> EntityInfoV {
    EntityInfoV {
        animations: if l.animations != c.animations {
            c.animations
        } else {
            n.animations
        },
        facing_direction: if l.facing_direction != c.facing_direction {
            c.facing_direction
        } else {
            n.facing_direction
        },
        r: if l.r != c.r {
            c.r
        } else {
            n.r
        },
        phys: if l.phys != c.phys {
            c.phys
        } else {
            n.phys
        },
        ..n
    }
}

/// The snapshot after folding in the first fields that `back_events`
/// covers.
pub open spec fn back_a_merge(n: EntityInfoV, l: EntityInfoV, c: EntityInfoV) -> EntityInfoV {
    EntityInfoV {
        cost: if l.cost != c.cost {
            c.cost
        } else {
            n.cost
        },
        current_stains: if l.current_stains != c.current_stains {
            c.current_stains
        } else {
            n.current_stains
        },
        game_effects: if l.game_effects != c.game_effects {
            c.game_effects
        } else {
            n.game_effects
        },
        ai_rotation: if l.ai_rotation != c.ai_rotation {
            c.ai_rotation
        } else {
            n.ai_rotation
        },
        ..n
    }
}

/// The snapshot after folding in the last fields that `back_events` covers.
pub open spec fn back_b_merge(n: EntityInfoV, l: EntityInfoV, c: EntityInfoV) -> EntityInfoV {
    EntityInfoV {
        ai_state: if l.ai_state != c.ai_state {
            c.ai_state
        } else {
            n.ai_state
        },
        limbs: if l.limbs != c.limbs {
            c.limbs
        } else {
            n.limbs
        },
        is_enabled: if l.is_enabled != c.is_enabled {
            c.is_enabled
        } else {
            n.is_enabled
        },
        counter: if l.counter != c.counter {
            c.counter
        } else {
            n.counter
        },
        ..n
    }
}

/// A snapshot identical to the last transmitted one yields no events.
pub proof fn lemma_field_events_unchanged(l: EntityInfoV, c: EntityInfoV)
    requires
        l == c,
    ensures
        field_events(l, c) == Seq::<EntityUpdateV>::empty(),
{
    assert(field_events(l, c) =~= Seq::<EntityUpdateV>::empty());
}

/// The last transmitted snapshot after one diff: every diffed field now
/// holds the current value; fields the diff never sends keep their old
/// copy, and the carried-item payload is only renewed when the carried
/// item's id changed.
pub open spec fn merged_last(l: EntityInfoV, c: EntityInfoV) -> EntityInfoV {
    EntityInfoV {
        spawn_info: l.spawn_info,
        kind: l.kind,
        x: c.x,
        y: c.y,
        r: c.r,
        vx: c.vx,
        vy: c.vy,
        hp: c.hp,
        world_pos: l.world_pos,
        phys: c.phys,
        cost: c.cost,
        game_effects: c.game_effects,
        current_stains: c.current_stains,
        facing_direction: c.facing_direction,
        animations: c.animations,
        wand: if opt_wand_gid(l.wand) != opt_wand_gid(c.wand) {
            c.wand
        } else {
            l.wand
        },
        is_global: l.is_global,
        drops_gold: l.drops_gold,
        laser: c.laser,
        ai_rotation: c.ai_rotation,
        ai_state: c.ai_state,
        limbs: c.limbs,
        is_enabled: c.is_enabled,
        counter: c.counter,
    }
}

/// What `make_diff` records as the last transmitted snapshot of an entry.
pub open spec fn seeded_info(p: EntityEntryPair) -> EntityInfoV {
    match p.last {
        None => (p.current)@,
        Some(l) => merged_last(l@, (p.current)@),
    }
}

/// The delta block for an already initialized entity: its changed-field
/// events behind a header, or nothing at all when no field changed.
pub open spec fn diffed_events(lid: Lid, l: EntityInfoV, c: EntityInfoV) -> Seq<EntityUpdateV> {
    let evs = field_events(l, c);
    if evs.len() > 0 {
        seq![EntityUpdateV::CurrentEntity(lid)] + evs
    } else {
        Seq::empty()
    }
}

/// The stream block one entry contributes: a full init for a freshly
/// tracked entity, else its delta block.
pub open spec fn entry_events(e: (Lid, EntityEntryPair)) -> Seq<EntityUpdateV> {
    match (e.1).last {
        None => seq![
            EntityUpdateV::CurrentEntity(e.0),
            EntityUpdateV::Init(((e.1).current)@, (e.1).gid),
        ],
        Some(l) => diffed_events(e.0, l@, ((e.1).current)@),
    }
}

/// Concatenation of every entry's stream block, in entry order.
pub open spec fn entries_stream(s: Seq<(Lid, EntityEntryPair)>) -> Seq<EntityUpdateV>
    decreases s.len(),
{
    if s.len() == 0 {
        Seq::empty()
    } else {
        entries_stream(s.drop_last()) + entry_events(s.last())
    }
}

/// One localize event per drained localize request, in queue order.
pub open spec fn localize_events(q: Seq<(Lid, PeerId)>) -> Seq<EntityUpdateV>
    decreases q.len(),
{
    if q.len() == 0 {
        Seq::empty()
    } else {
        localize_events(q.drop_last()) + seq![
            EntityUpdateV::LocalizeEntity(q.last().0, q.last().1),
        ]
    }
}

/// The peer blamed for a death: the owner of the responsible player
/// entity, where one is known.
pub open spec fn death_peer(d: DeathNotify, reg: PlayerRegistry) -> Option<PeerId> {
    match d.entity_responsible {
        None => None,
        Some(h) => reg.spec_peer_of(h),
    }
}

/// The kill event one death notification contributes: nothing if the dead
/// entity is not tracked (it may already have been removed).
pub open spec fn one_death_event(d: DeathNotify, b: ProxyBindings, reg: PlayerRegistry) -> Seq<
    EntityUpdateV,
> {
    match b.spec_lid_of(d.entity_killed) {
        None => Seq::empty(),
        Some(lid) => seq![
            EntityUpdateV::KillEntity {
                lid,
                wait_on_kill: d.wait_on_kill,
                responsible_peer: death_peer(d, reg),
            },
        ],
    }
}

/// Kill events of all drained death notifications, in queue order.
pub open spec fn death_events(
    q: Seq<DeathNotify>,
    b: ProxyBindings,
    reg: PlayerRegistry,
) -> Seq<EntityUpdateV>
    decreases q.len(),
{
    if q.len() == 0 {
        Seq::empty()
    } else {
        death_events(q.drop_last(), b, reg) + one_death_event(q.last(), b, reg)
    }
}

/// The spawn-once side effect one death notification contributes.
pub open spec fn one_death_spawn(d: DeathNotify, b: ProxyBindings, reg: PlayerRegistry) -> Seq<
    (WorldPos, SpawnOnceV),
> {
    match b.spec_lid_of(d.entity_killed) {
        None => Seq::empty(),
        Some(lid) => seq![
            (
                d.pos,
                SpawnOnceV::Enemy {
                    file: (d.file)@,
                    drops_gold: d.drops_gold,
                    responsible: death_peer(d, reg),
                },
            ),
        ],
    }
}

/// Spawn-once side effects of all drained death notifications.
pub open spec fn death_spawns(
    q: Seq<DeathNotify>,
    b: ProxyBindings,
    reg: PlayerRegistry,
) -> Seq<(WorldPos, SpawnOnceV)>
    decreases q.len(),
{
    if q.len() == 0 {
        Seq::empty()
    } else {
        death_spawns(q.drop_last(), b, reg) + one_death_spawn(q.last(), b, reg)
    }
}

/// One removal event per drained removal, in queue order.
pub open spec fn removal_events(q: Seq<Lid>) -> Seq<EntityUpdateV>
    decreases q.len(),
{
    if q.len() == 0 {
        Seq::empty()
    } else {
        removal_events(q.drop_last()) + seq![EntityUpdateV::RemoveEntity(q.last())]
    }
}

/// The entry carrying `lid`; meaningful only when `entries_have`.
pub open spec fn entry_value(entries: Seq<(Lid, EntityEntryPair)>, lid: Lid) -> EntityEntryPair {
    let k = choose|k: int| 0 <= k < entries.len() && (#[trigger] entries[k]).0 == lid;
    (entries[k]).1
}

/// Appends one spawn-once side effect, tracking the ghost image.
fn push_spawn(dead: &mut Vec<(WorldPos, SpawnOnce)>, u: (WorldPos, SpawnOnce))
    ensures
        final(dead).deep_view() == old(dead).deep_view().push(u.deep_view()),
{
    let ghost before = dead@;
    let ghost before_dv = dead.deep_view();
    dead.push(u);
    proof {
        assert(dead@ =~= before.push(u));
        assert forall|k: int| 0 <= k < dead@.len() implies dead.deep_view()[k] == before_dv.push(
            u.deep_view(),
        )[k] by {
            if k < before.len() {
                assert(before_dv[k] == before[k].deep_view());
                assert(dead.deep_view()[k] == before[k].deep_view());
            } else {
                assert(dead.deep_view()[k] == u.deep_view());
            }
        }
        assert(dead.deep_view() =~~= before_dv.push(u.deep_view()));
    }
}

/// Appends one update, tracking the stream's ghost image.
pub fn push_update(res: &mut Vec<EntityUpdate>, u: EntityUpdate)
    ensures
        final(res).deep_view() == old(res).deep_view().push(u@),
        final(res)@.len() == old(res)@.len() + 1,
{
    let ghost before = res@;
    let ghost before_dv = res.deep_view();
    res.push(u);
    proof {
        assert(res@ =~= before.push(u));
        assert forall|k: int| 0 <= k < res@.len() implies res.deep_view()[k] == before_dv.push(
            u@,
        )[k] by {
            if k < before.len() {
                assert(before_dv[k] == before[k].deep_view());
                assert(res.deep_view()[k] == before[k].deep_view());
            } else {
                assert(res.deep_view()[k] == u@);
            }
        }
        assert(res.deep_view() =~~= before_dv.push(u@));
    }
}

/// Removes the entry carrying `lid`, if any; all other entries keep their
/// contents.
fn remove_entry(entries: &mut Vec<(Lid, EntityEntryPair)>, lid: Lid)
    requires
        lids_unique(old(entries)@),
    ensures
        lids_unique(final(entries)@),
        !entries_have(final(entries)@, lid),
        forall|l2: Lid|
            l2 != lid ==> (#[trigger] entries_have(final(entries)@, l2) <==> entries_have(
                old(entries)@,
                l2,
            )),
        forall|l2: Lid|
            l2 != lid && entries_have(old(entries)@, l2) ==> #[trigger] entry_value(
                final(entries)@,
                l2,
            ) == entry_value(old(entries)@, l2),
        forall|k: int|
            0 <= k < final(entries)@.len() ==> old(entries)@.contains(
                #[trigger] (final(entries)@)[k],
            ),
{
    let ghost orig = entries@;
    let mut i: usize = 0;
    while i < entries.len()
        invariant
            orig == old(entries)@,
            entries@ == orig,
            lids_unique(orig),
            i <= orig.len(),
            forall|k: int| 0 <= k < i ==> (#[trigger] orig[k]).0 != lid,
        decreases orig.len() - i,
    {
        if entries[i].0 == lid {
            let ghost idx = i as int;
            entries.remove(i);
            proof {
                orig.remove_ensures(idx);
                assert(entries@ == orig.remove(idx));
                lemma_entries_removed(orig, entries@, idx, lid);
            }
            return ;
        }
        i = i + 1;
    }
    proof {
        assert forall|k: int| 0 <= k < entries@.len() implies old(entries)@.contains(
            #[trigger] entries@[k],
        ) by {
            assert(old(entries)@[k] == entries@[k]);
        }
        if entries_have(entries@, lid) {
            let k = choose|k: int| 0 <= k < entries@.len() && (#[trigger] entries@[k]).0 == lid;
            assert(false);
        }
    }
}

/// After removing the unique entry with id `lid` at index `i`, the other
/// entries are untouched and still uniquely keyed.
proof fn lemma_entries_removed(
    prev: Seq<(Lid, EntityEntryPair)>,
    cur: Seq<(Lid, EntityEntryPair)>,
    i: int,
    lid: Lid,
)
    requires
        lids_unique(prev),
        0 <= i < prev.len(),
        (prev[i]).0 == lid,
        cur == prev.remove(i),
    ensures
        lids_unique(cur),
        !entries_have(cur, lid),
        forall|l2: Lid|
            l2 != lid ==> (#[trigger] entries_have(cur, l2) <==> entries_have(prev, l2)),
        forall|l2: Lid|
            l2 != lid && entries_have(prev, l2) ==> #[trigger] entry_value(cur, l2)
                == entry_value(prev, l2),
        forall|k: int| 0 <= k < cur.len() ==> prev.contains(#[trigger] cur[k]),
{
    prev.remove_ensures(i);
    assert forall|a: int, b: int| 0 <= a < b < cur.len() implies (#[trigger] cur[a]).0 != (
    #[trigger] cur[b]).0 by {
        let pa = if a < i { a } else { a + 1 };
        let pb = if b < i { b } else { b + 1 };
        assert(cur[a] == prev[pa] && cur[b] == prev[pb]);
    }
    assert forall|k: int| 0 <= k < cur.len() implies prev.contains(#[trigger] cur[k]) by {
        let pk = if k < i { k } else { k + 1 };
        assert(cur[k] == prev[pk]);
    }
    if entries_have(cur, lid) {
        let k = choose|k: int| 0 <= k < cur.len() && (#[trigger] cur[k]).0 == lid;
        let pk = if k < i { k } else { k + 1 };
        assert(cur[k] == prev[pk]);
        assert((prev[pk]).0 == (prev[i]).0);
        assert(false);
    }
    assert forall|l2: Lid| l2 != lid implies (entries_have(cur, l2) <==> entries_have(
        prev,
        l2,
    )) by {
        if entries_have(cur, l2) {
            let k = choose|k: int| 0 <= k < cur.len() && (#[trigger] cur[k]).0 == l2;
            let pk = if k < i { k } else { k + 1 };
            assert(prev[pk] == cur[k]);
        }
        if entries_have(prev, l2) {
            let k = choose|k: int| 0 <= k < prev.len() && (#[trigger] prev[k]).0 == l2;
            assert(k != i);
            if k < i {
                assert(cur[k] == prev[k]);
            } else {
                assert(cur[k - 1] == prev[k]);
            }
        }
    }
    assert forall|l2: Lid| l2 != lid && entries_have(prev, l2) implies entry_value(cur, l2)
        == entry_value(prev, l2) by {
        let kp = choose|k: int| 0 <= k < prev.len() && (#[trigger] prev[k]).0 == l2;
        assert(k_unique_prev(prev, l2, kp));
        let kc = if kp < i { kp } else { kp - 1 };
        assert(cur[kc] == prev[kp]);
        let kc2 = choose|k: int| 0 <= k < cur.len() && (#[trigger] cur[k]).0 == l2;
        if kc2 != kc {
            assert((cur[kc2]).0 == (cur[kc]).0);
            assert(false);
        }
    }
}

/// Helper fact shape: `kp` is an index of `l2` in `prev`.
spec fn k_unique_prev(prev: Seq<(Lid, EntityEntryPair)>, l2: Lid, kp: int) -> bool {
    0 <= kp < prev.len() && (prev[kp]).0 == l2
}

#[verifier::rlimit(100)]
#[verifier::spinoff_prover]
fn diff_front_a(
    res: &mut Vec<EntityUpdate>,
    nl: &mut EntityInfo,
    had: &mut bool,
    l: &EntityInfo,
    cur: &EntityInfo,
)
    ensures
        final(res).deep_view() == old(res).deep_view() + front_a_events(l@, cur@),
        (*final(nl))@ == front_a_merge((*old(nl))@, l@, cur@),
        *final(had) == (*old(had) || front_a_events(l@, cur@).len() > 0),
{
    let ghost base = res.deep_view();
    let ghost nv0 = (*nl)@;
    let ghost was_had = *had;
    diff_field_wand(res, nl, had, l, cur);
    let ghost mut acc: Seq<EntityUpdateV> = cond_event(opt_wand_gid((l@).wand) != opt_wand_gid((cur@).wand), EntityUpdateV::SetWand((cur@).wand));
    proof {
        assert(res.deep_view() == base + acc);
    }
    diff_field_laser(res, nl, had, l, cur);
    proof {
        vstd::seq_lib::lemma_concat_associative(
            base,
            acc,
            cond_event((l@).laser != (cur@).laser, EntityUpdateV::SetLaser((cur@).laser)),
        );
        acc = acc + cond_event((l@).laser != (cur@).laser, EntityUpdateV::SetLaser((cur@).laser));
        assert(res.deep_view() == base + acc);
    }
    diff_field_position(res, nl, had, l, cur);
    proof {
        vstd::seq_lib::lemma_concat_associative(
            base,
            acc,
            cond_event((l@).x != (cur@).x || (l@).y != (cur@).y, EntityUpdateV::SetPosition((cur@).x, (cur@).y)),
        );
        acc = acc + cond_event((l@).x != (cur@).x || (l@).y != (cur@).y, EntityUpdateV::SetPosition((cur@).x, (cur@).y));
        assert(res.deep_view() == base + acc);
    }
    diff_field_velocity(res, nl, had, l, cur);
    proof {
        vstd::seq_lib::lemma_concat_associative(
            base,
            acc,
            cond_event((l@).vx != (cur@).vx || (l@).vy != (cur@).vy, EntityUpdateV::SetVelocity((cur@).vx, (cur@).vy)),
        );
        acc = acc + cond_event((l@).vx != (cur@).vx || (l@).vy != (cur@).vy, EntityUpdateV::SetVelocity((cur@).vx, (cur@).vy));
        assert(res.deep_view() == base + acc);
    }
    diff_field_hp(res, nl, had, l, cur);
    proof {
        vstd::seq_lib::lemma_concat_associative(
            base,
            acc,
            cond_event((l@).hp != (cur@).hp, EntityUpdateV::SetHp((cur@).hp)),
        );
        acc = acc + cond_event((l@).hp != (cur@).hp, EntityUpdateV::SetHp((cur@).hp));
        assert(res.deep_view() == base + acc);
    }
    proof {
        assert(acc == front_a_events(l@, cur@));
        assert((*nl)@ == front_a_merge(nv0, l@, cur@)) by {
            let ghost nv = (*nl)@;
            let ghost mv = front_a_merge(nv0, l@, cur@);
            assert(nv.game_effects =~~= mv.game_effects);
            assert(nv.phys =~= mv.phys);
            assert(nv.animations =~= mv.animations);
            assert(nv.limbs =~= mv.limbs);
        }
        assert(*had == (was_had || acc.len() > 0));
    }
}

#[verifier::rlimit(100)]
#[verifier::spinoff_prover]
fn diff_front_b(
    res: &mut Vec<EntityUpdate>,
    nl: &mut EntityInfo,
    had: &mut bool,
    l: &EntityInfo,
    cur: &EntityInfo,
)
    ensures
        final(res).deep_view() == old(res).deep_view() + front_b_events(l@, cur@),
        (*final(nl))@ == front_b_merge((*old(nl))@, l@, cur@),
        *final(had) == (*old(had) || front_b_events(l@, cur@).len() > 0),
{
    let ghost base = res.deep_view();
    let ghost nv0 = (*nl)@;
    let ghost was_had = *had;
    diff_field_animations(res, nl, had, l, cur);
    let ghost mut acc: Seq<EntityUpdateV> = cond_event((l@).animations != (cur@).animations, EntityUpdateV::SetAnimations((cur@).animations));
    proof {
        assert(res.deep_view() == base + acc);
    }
    diff_field_facing(res, nl, had, l, cur);
    proof {
        vstd::seq_lib::lemma_concat_associative(
            base,
            acc,
            cond_event((l@).facing_direction != (cur@).facing_direction, EntityUpdateV::SetFacingDirection((cur@).facing_direction)),
        );
        acc = acc + cond_event((l@).facing_direction != (cur@).facing_direction, EntityUpdateV::SetFacingDirection((cur@).facing_direction));
        assert(res.deep_view() == base + acc);
    }
    diff_field_rotation(res, nl, had, l, cur);
    proof {
        vstd::seq_lib::lemma_concat_associative(
            base,
            acc,
            cond_event((l@).r != (cur@).r, EntityUpdateV::SetRotation((cur@).r)),
        );
        acc = acc + cond_event((l@).r != (cur@).r, EntityUpdateV::SetRotation((cur@).r));
        assert(res.deep_view() == base + acc);
    }
    diff_field_phys(res, nl, had, l, cur);
    proof {
        vstd::seq_lib::lemma_concat_associative(
            base,
            acc,
            cond_event((l@).phys != (cur@).phys, EntityUpdateV::SetPhysInfo((cur@).phys)),
        );
        acc = acc + cond_event((l@).phys != (cur@).phys, EntityUpdateV::SetPhysInfo((cur@).phys));
        assert(res.deep_view() == base + acc);
    }
    proof {
        assert(acc == front_b_events(l@, cur@));
        assert((*nl)@ == front_b_merge(nv0, l@, cur@)) by {
            let ghost nv = (*nl)@;
            let ghost mv = front_b_merge(nv0, l@, cur@);
            assert(nv.game_effects =~~= mv.game_effects);
            assert(nv.phys =~= mv.phys);
            assert(nv.animations =~= mv.animations);
            assert(nv.limbs =~= mv.limbs);
        }
        assert(*had == (was_had || acc.len() > 0));
    }
}

#[verifier::rlimit(100)]
#[verifier::spinoff_prover]
fn diff_back_a(
    res: &mut Vec<EntityUpdate>,
    nl: &mut EntityInfo,
    had: &mut bool,
    l: &EntityInfo,
    cur: &EntityInfo,
)
    ensures
        final(res).deep_view() == old(res).deep_view() + back_a_events(l@, cur@),
        (*final(nl))@ == back_a_merge((*old(nl))@, l@, cur@),
        *final(had) == (*old(had) || back_a_events(l@, cur@).len() > 0),
{
    let ghost base = res.deep_view();
    let ghost nv0 = (*nl)@;
    let ghost was_had = *had;
    diff_field_cost(res, nl, had, l, cur);
    let ghost mut acc: Seq<EntityUpdateV> = cond_event((l@).cost != (cur@).cost, EntityUpdateV::SetCost((cur@).cost));
    proof {
        assert(res.deep_view() == base + acc);
    }
    diff_field_stains(res, nl, had, l, cur);
    proof {
        vstd::seq_lib::lemma_concat_associative(
            base,
            acc,
            cond_event((l@).current_stains != (cur@).current_stains, EntityUpdateV::SetStains((cur@).current_stains)),
        );
        acc = acc + cond_event((l@).current_stains != (cur@).current_stains, EntityUpdateV::SetStains((cur@).current_stains));
        assert(res.deep_view() == base + acc);
    }
    diff_field_effects(res, nl, had, l, cur);
    proof {
        vstd::seq_lib::lemma_concat_associative(
            base,
            acc,
            cond_event((l@).game_effects != (cur@).game_effects, EntityUpdateV::SetGameEffects((cur@).game_effects)),
        );
        acc = acc + cond_event((l@).game_effects != (cur@).game_effects, EntityUpdateV::SetGameEffects((cur@).game_effects));
        assert(res.deep_view() == base + acc);
    }
    diff_field_ai_rotation(res, nl, had, l, cur);
    proof {
        vstd::seq_lib::lemma_concat_associative(
            base,
            acc,
            cond_event((l@).ai_rotation != (cur@).ai_rotation, EntityUpdateV::SetAiRotation((cur@).ai_rotation)),
        );
        acc = acc + cond_event((l@).ai_rotation != (cur@).ai_rotation, EntityUpdateV::SetAiRotation((cur@).ai_rotation));
        assert(res.deep_view() == base + acc);
    }
    proof {
        assert(acc == back_a_events(l@, cur@));
        assert((*nl)@ == back_a_merge(nv0, l@, cur@)) by {
            let ghost nv = (*nl)@;
            let ghost mv = back_a_merge(nv0, l@, cur@);
            assert(nv.game_effects =~~= mv.game_effects);
            assert(nv.phys =~= mv.phys);
            assert(nv.animations =~= mv.animations);
            assert(nv.limbs =~= mv.limbs);
        }
        assert(*had == (was_had || acc.len() > 0));
    }
}

#[verifier::rlimit(100)]
#[verifier::spinoff_prover]
fn diff_back_b(
    res: &mut Vec<EntityUpdate>,
    nl: &mut EntityInfo,
    had: &mut bool,
    l: &EntityInfo,
    cur: &EntityInfo,
)
    ensures
        final(res).deep_view() == old(res).deep_view() + back_b_events(l@, cur@),
        (*final(nl))@ == back_b_merge((*old(nl))@, l@, cur@),
        *final(had) == (*old(had) || back_b_events(l@, cur@).len() > 0),
{
    let ghost base = res.deep_view();
    let ghost nv0 = (*nl)@;
    let ghost was_had = *had;
    diff_field_ai_state(res, nl, had, l, cur);
    let ghost mut acc: Seq<EntityUpdateV> = cond_event((l@).ai_state != (cur@).ai_state, EntityUpdateV::SetAiState((cur@).ai_state));
    proof {
        assert(res.deep_view() == base + acc);
    }
    diff_field_limbs(res, nl, had, l, cur);
    proof {
        vstd::seq_lib::lemma_concat_associative(
            base,
            acc,
            cond_event((l@).limbs != (cur@).limbs, EntityUpdateV::SetLimbs((cur@).limbs)),
        );
        acc = acc + cond_event((l@).limbs != (cur@).limbs, EntityUpdateV::SetLimbs((cur@).limbs));
        assert(res.deep_view() == base + acc);
    }
    diff_field_enabled(res, nl, had, l, cur);
    proof {
        vstd::seq_lib::lemma_concat_associative(
            base,
            acc,
            cond_event((l@).is_enabled != (cur@).is_enabled, EntityUpdateV::SetIsEnabled((cur@).is_enabled)),
        );
        acc = acc + cond_event((l@).is_enabled != (cur@).is_enabled, EntityUpdateV::SetIsEnabled((cur@).is_enabled));
        assert(res.deep_view() == base + acc);
    }
    diff_field_counter(res, nl, had, l, cur);
    proof {
        vstd::seq_lib::lemma_concat_associative(
            base,
            acc,
            cond_event((l@).counter != (cur@).counter, EntityUpdateV::SetCounter((cur@).counter)),
        );
        acc = acc + cond_event((l@).counter != (cur@).counter, EntityUpdateV::SetCounter((cur@).counter));
        assert(res.deep_view() == base + acc);
    }
    proof {
        assert(acc == back_b_events(l@, cur@));
        assert((*nl)@ == back_b_merge(nv0, l@, cur@)) by {
            let ghost nv = (*nl)@;
            let ghost mv = back_b_merge(nv0, l@, cur@);
            assert(nv.game_effects =~~= mv.game_effects);
            assert(nv.phys =~= mv.phys);
            assert(nv.animations =~= mv.animations);
            assert(nv.limbs =~= mv.limbs);
        }
        assert(*had == (was_had || acc.len() > 0));
    }
}

impl LocalDiffModel {
    /// Emits one field update per changed fieldimpl LocalDiffModel {
    /// Emits one field update per changed field of an initialized entity,
    /// behind a header that is retracted again if nothing changed, and
    /// returns the new last-transmitted snapshot.
    #[verifier::rlimit(100)]
    #[verifier::spinoff_prover]
    fn diff_one(res: &mut Vec<EntityUpdate>, lid: Lid, l: &EntityInfo, cur: &EntityInfo) -> (nl:
        EntityInfo)
        ensures
            final(res).deep_view() == old(res).deep_view() + diffed_events(lid, l@, cur@),
            nl@ == merged_last(l@, cur@),
    {
        let ghost base = res.deep_view();
        let ghost lv = l@;
        let ghost cv = cur@;
        push_update(res, EntityUpdate::CurrentEntity(lid));
        let ghost base2 = base.push(EntityUpdateV::CurrentEntity(lid));
        let mut nl = l.duplicate();
        let mut had = false;
        diff_front_a(res, &mut nl, &mut had, l, cur);
        diff_front_b(res, &mut nl, &mut had, l, cur);
        proof {
            vstd::seq_lib::lemma_concat_associative(
                base2,
                front_a_events(lv, cv),
                front_b_events(lv, cv),
            );
            assert(res.deep_view() == base2 + front_events(lv, cv));
        }
        diff_back_a(res, &mut nl, &mut had, l, cur);
        proof {
            vstd::seq_lib::lemma_concat_associative(
                base2,
                front_events(lv, cv),
                back_a_events(lv, cv),
            );
            assert(res.deep_view() == base2 + (front_events(lv, cv) + back_a_events(lv, cv)));
        }
        diff_back_b(res, &mut nl, &mut had, l, cur);
        proof {
            vstd::seq_lib::lemma_concat_associative(
                base2,
                front_events(lv, cv) + back_a_events(lv, cv),
                back_b_events(lv, cv),
            );
            vstd::seq_lib::lemma_concat_associative(
                front_events(lv, cv),
                back_a_events(lv, cv),
                back_b_events(lv, cv),
            );
            assert(res.deep_view() == base2 + field_events(lv, cv));
            assert(had == (field_events(lv, cv).len() > 0));
            assert(nl@ == merged_last(lv, cv)) by {
                let ghost nv = nl@;
                let ghost mv = merged_last(lv, cv);
                assert(nv.game_effects =~~= mv.game_effects);
                assert(nv.phys =~= mv.phys);
                assert(nv.animations =~= mv.animations);
                assert(nv.limbs =~= mv.limbs);
            }
        }
        if !had {
            let ghost full = res@;
            let ghost full_dv = res.deep_view();
            res.pop();
            proof {
                assert(res@ =~= full.drop_last());
                assert forall|k: int| 0 <= k < res@.len() implies res.deep_view()[k]
                    == full_dv[k] by {
                    assert(res@[k] == full[k]);
                    assert(full_dv[k] == full[k].deep_view());
                }
                assert(field_events(lv, cv).len() == 0);
                assert(full_dv.len() == base2.len());
                assert forall|k: int| 0 <= k < base2.len() implies full_dv[k] == base2[k] by {
                    assert(full_dv[k] == (base2 + field_events(lv, cv))[k]);
                }
                assert(forall|k: int| 0 <= k < base.len() ==> base2[k] == base[k]);
                assert(res.deep_view() =~~= base);
                assert(diffed_events(lid, lv, cv) =~= Seq::<EntityUpdateV>::empty());
                assert(base + diffed_events(lid, lv, cv) =~= base);
            }
        } else {
            proof {
                assert(field_events(lv, cv).len() > 0);
                assert(diffed_events(lid, lv, cv) == seq![
                    EntityUpdateV::CurrentEntity(lid),
                ] + field_events(lv, cv));
                assert(res.deep_view() =~= base + diffed_events(lid, lv, cv));
            }
        }
        nl
    }
}

fn diff_field_wand(
    res: &mut Vec<EntityUpdate>,
    nl: &mut EntityInfo,
    had: &mut bool,
    l: &EntityInfo,
    cur: &EntityInfo,
)
    ensures
        final(res).deep_view() == old(res).deep_view() + cond_event(opt_wand_gid((l@).wand) != opt_wand_gid((cur@).wand), EntityUpdateV::SetWand((cur@).wand)),
        (*final(nl))@ == (if opt_wand_gid((l@).wand) != opt_wand_gid((cur@).wand) {
            EntityInfoV { wand: (cur@).wand, ..(*old(nl))@ }
        } else {
            (*old(nl))@
        }),
        *final(had) == (*old(had) || (opt_wand_gid((l@).wand) != opt_wand_gid((cur@).wand))),
{
    let ghost base = res.deep_view();
    if !wand_gid_eq(&cur.wand, &l.wand) {
        nl.wand = dup_wand(&cur.wand);
        push_update(res, EntityUpdate::SetWand(dup_wand(&cur.wand)));
        *had = true;
        proof {
            assert(res.deep_view() =~= base + cond_event(opt_wand_gid((l@).wand) != opt_wand_gid((cur@).wand), EntityUpdateV::SetWand((cur@).wand)));
        }
    } else {
        proof {
            assert(res.deep_view() =~= base + cond_event(opt_wand_gid((l@).wand) != opt_wand_gid((cur@).wand), EntityUpdateV::SetWand((cur@).wand)));
        }
    }
}

fn diff_field_laser(
    res: &mut Vec<EntityUpdate>,
    nl: &mut EntityInfo,
    had: &mut bool,
    l: &EntityInfo,
    cur: &EntityInfo,
)
    ensures
        final(res).deep_view() == old(res).deep_view() + cond_event((l@).laser != (cur@).laser, EntityUpdateV::SetLaser((cur@).laser)),
        (*final(nl))@ == (if (l@).laser != (cur@).laser {
            EntityInfoV { laser: (cur@).laser, ..(*old(nl))@ }
        } else {
            (*old(nl))@
        }),
        *final(had) == (*old(had) || ((l@).laser != (cur@).laser)),
{
    let ghost base = res.deep_view();
    if !opt_peer_eq(&cur.laser, &l.laser) {
        nl.laser = cur.laser;
        push_update(res, EntityUpdate::SetLaser(cur.laser));
        *had = true;
        proof {
            assert(res.deep_view() =~= base + cond_event((l@).laser != (cur@).laser, EntityUpdateV::SetLaser((cur@).laser)));
        }
    } else {
        proof {
            assert(res.deep_view() =~= base + cond_event((l@).laser != (cur@).laser, EntityUpdateV::SetLaser((cur@).laser)));
        }
    }
}

fn diff_field_position(
    res: &mut Vec<EntityUpdate>,
    nl: &mut EntityInfo,
    had: &mut bool,
    l: &EntityInfo,
    cur: &EntityInfo,
)
    ensures
        final(res).deep_view() == old(res).deep_view() + cond_event((l@).x != (cur@).x || (l@).y != (cur@).y, EntityUpdateV::SetPosition((cur@).x, (cur@).y)),
        (*final(nl))@ == (if (l@).x != (cur@).x || (l@).y != (cur@).y {
            EntityInfoV { x: (cur@).x, y: (cur@).y, ..(*old(nl))@ }
        } else {
            (*old(nl))@
        }),
        *final(had) == (*old(had) || ((l@).x != (cur@).x || (l@).y != (cur@).y)),
{
    let ghost base = res.deep_view();
    if cur.x != l.x || cur.y != l.y {
        nl.x = cur.x;
        nl.y = cur.y;
        push_update(res, EntityUpdate::SetPosition(cur.x, cur.y));
        *had = true;
        proof {
            assert(res.deep_view() =~= base + cond_event((l@).x != (cur@).x || (l@).y != (cur@).y, EntityUpdateV::SetPosition((cur@).x, (cur@).y)));
        }
    } else {
        proof {
            assert(res.deep_view() =~= base + cond_event((l@).x != (cur@).x || (l@).y != (cur@).y, EntityUpdateV::SetPosition((cur@).x, (cur@).y)));
        }
    }
}

fn diff_field_velocity(
    res: &mut Vec<EntityUpdate>,
    nl: &mut EntityInfo,
    had: &mut bool,
    l: &EntityInfo,
    cur: &EntityInfo,
)
    ensures
        final(res).deep_view() == old(res).deep_view() + cond_event((l@).vx != (cur@).vx || (l@).vy != (cur@).vy, EntityUpdateV::SetVelocity((cur@).vx, (cur@).vy)),
        (*final(nl))@ == (if (l@).vx != (cur@).vx || (l@).vy != (cur@).vy {
            EntityInfoV { vx: (cur@).vx, vy: (cur@).vy, ..(*old(nl))@ }
        } else {
            (*old(nl))@
        }),
        *final(had) == (*old(had) || ((l@).vx != (cur@).vx || (l@).vy != (cur@).vy)),
{
    let ghost base = res.deep_view();
    if cur.vx != l.vx || cur.vy != l.vy {
        nl.vx = cur.vx;
        nl.vy = cur.vy;
        push_update(res, EntityUpdate::SetVelocity(cur.vx, cur.vy));
        *had = true;
        proof {
            assert(res.deep_view() =~= base + cond_event((l@).vx != (cur@).vx || (l@).vy != (cur@).vy, EntityUpdateV::SetVelocity((cur@).vx, (cur@).vy)));
        }
    } else {
        proof {
            assert(res.deep_view() =~= base + cond_event((l@).vx != (cur@).vx || (l@).vy != (cur@).vy, EntityUpdateV::SetVelocity((cur@).vx, (cur@).vy)));
        }
    }
}

fn diff_field_hp(
    res: &mut Vec<EntityUpdate>,
    nl: &mut EntityInfo,
    had: &mut bool,
    l: &EntityInfo,
    cur: &EntityInfo,
)
    ensures
        final(res).deep_view() == old(res).deep_view() + cond_event((l@).hp != (cur@).hp, EntityUpdateV::SetHp((cur@).hp)),
        (*final(nl))@ == (if (l@).hp != (cur@).hp {
            EntityInfoV { hp: (cur@).hp, ..(*old(nl))@ }
        } else {
            (*old(nl))@
        }),
        *final(had) == (*old(had) || ((l@).hp != (cur@).hp)),
{
    let ghost base = res.deep_view();
    if cur.hp != l.hp {
        nl.hp = cur.hp;
        push_update(res, EntityUpdate::SetHp(cur.hp));
        *had = true;
        proof {
            assert(res.deep_view() =~= base + cond_event((l@).hp != (cur@).hp, EntityUpdateV::SetHp((cur@).hp)));
        }
    } else {
        proof {
            assert(res.deep_view() =~= base + cond_event((l@).hp != (cur@).hp, EntityUpdateV::SetHp((cur@).hp)));
        }
    }
}

fn diff_field_animations(
    res: &mut Vec<EntityUpdate>,
    nl: &mut EntityInfo,
    had: &mut bool,
    l: &EntityInfo,
    cur: &EntityInfo,
)
    ensures
        final(res).deep_view() == old(res).deep_view() + cond_event((l@).animations != (cur@).animations, EntityUpdateV::SetAnimations((cur@).animations)),
        (*final(nl))@ == (if (l@).animations != (cur@).animations {
            EntityInfoV { animations: (cur@).animations, ..(*old(nl))@ }
        } else {
            (*old(nl))@
        }),
        *final(had) == (*old(had) || ((l@).animations != (cur@).animations)),
{
    let ghost base = res.deep_view();
    if !animations_eq(&cur.animations, &l.animations) {
        nl.animations = dup_animations(&cur.animations);
        push_update(res, EntityUpdate::SetAnimations(dup_animations(&cur.animations)));
        *had = true;
        proof {
            assert(res.deep_view() =~= base + cond_event((l@).animations != (cur@).animations, EntityUpdateV::SetAnimations((cur@).animations)));
        }
    } else {
        proof {
            assert(res.deep_view() =~= base + cond_event((l@).animations != (cur@).animations, EntityUpdateV::SetAnimations((cur@).animations)));
        }
    }
}

fn diff_field_facing(
    res: &mut Vec<EntityUpdate>,
    nl: &mut EntityInfo,
    had: &mut bool,
    l: &EntityInfo,
    cur: &EntityInfo,
)
    ensures
        final(res).deep_view() == old(res).deep_view() + cond_event((l@).facing_direction != (cur@).facing_direction, EntityUpdateV::SetFacingDirection((cur@).facing_direction)),
        (*final(nl))@ == (if (l@).facing_direction != (cur@).facing_direction {
            EntityInfoV { facing_direction: (cur@).facing_direction, ..(*old(nl))@ }
        } else {
            (*old(nl))@
        }),
        *final(had) == (*old(had) || ((l@).facing_direction != (cur@).facing_direction)),
{
    let ghost base = res.deep_view();
    if cur.facing_direction != l.facing_direction {
        nl.facing_direction = cur.facing_direction;
        push_update(res, EntityUpdate::SetFacingDirection(cur.facing_direction));
        *had = true;
        proof {
            assert(res.deep_view() =~= base + cond_event((l@).facing_direction != (cur@).facing_direction, EntityUpdateV::SetFacingDirection((cur@).facing_direction)));
        }
    } else {
        proof {
            assert(res.deep_view() =~= base + cond_event((l@).facing_direction != (cur@).facing_direction, EntityUpdateV::SetFacingDirection((cur@).facing_direction)));
        }
    }
}

fn diff_field_rotation(
    res: &mut Vec<EntityUpdate>,
    nl: &mut EntityInfo,
    had: &mut bool,
    l: &EntityInfo,
    cur: &EntityInfo,
)
    ensures
        final(res).deep_view() == old(res).deep_view() + cond_event((l@).r != (cur@).r, EntityUpdateV::SetRotation((cur@).r)),
        (*final(nl))@ == (if (l@).r != (cur@).r {
            EntityInfoV { r: (cur@).r, ..(*old(nl))@ }
        } else {
            (*old(nl))@
        }),
        *final(had) == (*old(had) || ((l@).r != (cur@).r)),
{
    let ghost base = res.deep_view();
    if cur.r != l.r {
        nl.r = cur.r;
        push_update(res, EntityUpdate::SetRotation(cur.r));
        *had = true;
        proof {
            assert(res.deep_view() =~= base + cond_event((l@).r != (cur@).r, EntityUpdateV::SetRotation((cur@).r)));
        }
    } else {
        proof {
            assert(res.deep_view() =~= base + cond_event((l@).r != (cur@).r, EntityUpdateV::SetRotation((cur@).r)));
        }
    }
}

fn diff_field_phys(
    res: &mut Vec<EntityUpdate>,
    nl: &mut EntityInfo,
    had: &mut bool,
    l: &EntityInfo,
    cur: &EntityInfo,
)
    ensures
        final(res).deep_view() == old(res).deep_view() + cond_event((l@).phys != (cur@).phys, EntityUpdateV::SetPhysInfo((cur@).phys)),
        (*final(nl))@ == (if (l@).phys != (cur@).phys {
            EntityInfoV { phys: (cur@).phys, ..(*old(nl))@ }
        } else {
            (*old(nl))@
        }),
        *final(had) == (*old(had) || ((l@).phys != (cur@).phys)),
{
    let ghost base = res.deep_view();
    if !phys_eq(&cur.phys, &l.phys) {
        nl.phys = dup_phys(&cur.phys);
        push_update(res, EntityUpdate::SetPhysInfo(dup_phys(&cur.phys)));
        *had = true;
        proof {
            assert(res.deep_view() =~= base + cond_event((l@).phys != (cur@).phys, EntityUpdateV::SetPhysInfo((cur@).phys)));
        }
    } else {
        proof {
            assert(res.deep_view() =~= base + cond_event((l@).phys != (cur@).phys, EntityUpdateV::SetPhysInfo((cur@).phys)));
        }
    }
}

fn diff_field_cost(
    res: &mut Vec<EntityUpdate>,
    nl: &mut EntityInfo,
    had: &mut bool,
    l: &EntityInfo,
    cur: &EntityInfo,
)
    ensures
        final(res).deep_view() == old(res).deep_view() + cond_event((l@).cost != (cur@).cost, EntityUpdateV::SetCost((cur@).cost)),
        (*final(nl))@ == (if (l@).cost != (cur@).cost {
            EntityInfoV { cost: (cur@).cost, ..(*old(nl))@ }
        } else {
            (*old(nl))@
        }),
        *final(had) == (*old(had) || ((l@).cost != (cur@).cost)),
{
    let ghost base = res.deep_view();
    if cur.cost != l.cost {
        nl.cost = cur.cost;
        push_update(res, EntityUpdate::SetCost(cur.cost));
        *had = true;
        proof {
            assert(res.deep_view() =~= base + cond_event((l@).cost != (cur@).cost, EntityUpdateV::SetCost((cur@).cost)));
        }
    } else {
        proof {
            assert(res.deep_view() =~= base + cond_event((l@).cost != (cur@).cost, EntityUpdateV::SetCost((cur@).cost)));
        }
    }
}

fn diff_field_stains(
    res: &mut Vec<EntityUpdate>,
    nl: &mut EntityInfo,
    had: &mut bool,
    l: &EntityInfo,
    cur: &EntityInfo,
)
    ensures
        final(res).deep_view() == old(res).deep_view() + cond_event((l@).current_stains != (cur@).current_stains, EntityUpdateV::SetStains((cur@).current_stains)),
        (*final(nl))@ == (if (l@).current_stains != (cur@).current_stains {
            EntityInfoV { current_stains: (cur@).current_stains, ..(*old(nl))@ }
        } else {
            (*old(nl))@
        }),
        *final(had) == (*old(had) || ((l@).current_stains != (cur@).current_stains)),
{
    let ghost base = res.deep_view();
    if cur.current_stains != l.current_stains {
        nl.current_stains = cur.current_stains;
        push_update(res, EntityUpdate::SetStains(cur.current_stains));
        *had = true;
        proof {
            assert(res.deep_view() =~= base + cond_event((l@).current_stains != (cur@).current_stains, EntityUpdateV::SetStains((cur@).current_stains)));
        }
    } else {
        proof {
            assert(res.deep_view() =~= base + cond_event((l@).current_stains != (cur@).current_stains, EntityUpdateV::SetStains((cur@).current_stains)));
        }
    }
}

fn diff_field_effects(
    res: &mut Vec<EntityUpdate>,
    nl: &mut EntityInfo,
    had: &mut bool,
    l: &EntityInfo,
    cur: &EntityInfo,
)
    ensures
        final(res).deep_view() == old(res).deep_view() + cond_event((l@).game_effects != (cur@).game_effects, EntityUpdateV::SetGameEffects((cur@).game_effects)),
        (*final(nl))@ == (if (l@).game_effects != (cur@).game_effects {
            EntityInfoV { game_effects: (cur@).game_effects, ..(*old(nl))@ }
        } else {
            (*old(nl))@
        }),
        *final(had) == (*old(had) || ((l@).game_effects != (cur@).game_effects)),
{
    let ghost base = res.deep_view();
    if !effects_eq(&cur.game_effects, &l.game_effects) {
        nl.game_effects = dup_effects(&cur.game_effects);
        push_update(res, EntityUpdate::SetGameEffects(dup_effects(&cur.game_effects)));
        *had = true;
        proof {
            assert(res.deep_view() =~= base + cond_event((l@).game_effects != (cur@).game_effects, EntityUpdateV::SetGameEffects((cur@).game_effects)));
        }
    } else {
        proof {
            assert(res.deep_view() =~= base + cond_event((l@).game_effects != (cur@).game_effects, EntityUpdateV::SetGameEffects((cur@).game_effects)));
        }
    }
}

fn diff_field_ai_rotation(
    res: &mut Vec<EntityUpdate>,
    nl: &mut EntityInfo,
    had: &mut bool,
    l: &EntityInfo,
    cur: &EntityInfo,
)
    ensures
        final(res).deep_view() == old(res).deep_view() + cond_event((l@).ai_rotation != (cur@).ai_rotation, EntityUpdateV::SetAiRotation((cur@).ai_rotation)),
        (*final(nl))@ == (if (l@).ai_rotation != (cur@).ai_rotation {
            EntityInfoV { ai_rotation: (cur@).ai_rotation, ..(*old(nl))@ }
        } else {
            (*old(nl))@
        }),
        *final(had) == (*old(had) || ((l@).ai_rotation != (cur@).ai_rotation)),
{
    let ghost base = res.deep_view();
    if cur.ai_rotation != l.ai_rotation {
        nl.ai_rotation = cur.ai_rotation;
        push_update(res, EntityUpdate::SetAiRotation(cur.ai_rotation));
        *had = true;
        proof {
            assert(res.deep_view() =~= base + cond_event((l@).ai_rotation != (cur@).ai_rotation, EntityUpdateV::SetAiRotation((cur@).ai_rotation)));
        }
    } else {
        proof {
            assert(res.deep_view() =~= base + cond_event((l@).ai_rotation != (cur@).ai_rotation, EntityUpdateV::SetAiRotation((cur@).ai_rotation)));
        }
    }
}

fn diff_field_ai_state(
    res: &mut Vec<EntityUpdate>,
    nl: &mut EntityInfo,
    had: &mut bool,
    l: &EntityInfo,
    cur: &EntityInfo,
)
    ensures
        final(res).deep_view() == old(res).deep_view() + cond_event((l@).ai_state != (cur@).ai_state, EntityUpdateV::SetAiState((cur@).ai_state)),
        (*final(nl))@ == (if (l@).ai_state != (cur@).ai_state {
            EntityInfoV { ai_state: (cur@).ai_state, ..(*old(nl))@ }
        } else {
            (*old(nl))@
        }),
        *final(had) == (*old(had) || ((l@).ai_state != (cur@).ai_state)),
{
    let ghost base = res.deep_view();
    if cur.ai_state != l.ai_state {
        nl.ai_state = cur.ai_state;
        push_update(res, EntityUpdate::SetAiState(cur.ai_state));
        *had = true;
        proof {
            assert(res.deep_view() =~= base + cond_event((l@).ai_state != (cur@).ai_state, EntityUpdateV::SetAiState((cur@).ai_state)));
        }
    } else {
        proof {
            assert(res.deep_view() =~= base + cond_event((l@).ai_state != (cur@).ai_state, EntityUpdateV::SetAiState((cur@).ai_state)));
        }
    }
}

fn diff_field_limbs(
    res: &mut Vec<EntityUpdate>,
    nl: &mut EntityInfo,
    had: &mut bool,
    l: &EntityInfo,
    cur: &EntityInfo,
)
    ensures
        final(res).deep_view() == old(res).deep_view() + cond_event((l@).limbs != (cur@).limbs, EntityUpdateV::SetLimbs((cur@).limbs)),
        (*final(nl))@ == (if (l@).limbs != (cur@).limbs {
            EntityInfoV { limbs: (cur@).limbs, ..(*old(nl))@ }
        } else {
            (*old(nl))@
        }),
        *final(had) == (*old(had) || ((l@).limbs != (cur@).limbs)),
{
    let ghost base = res.deep_view();
    if !limbs_eq(&cur.limbs, &l.limbs) {
        nl.limbs = dup_limbs(&cur.limbs);
        push_update(res, EntityUpdate::SetLimbs(dup_limbs(&cur.limbs)));
        *had = true;
        proof {
            assert(res.deep_view() =~= base + cond_event((l@).limbs != (cur@).limbs, EntityUpdateV::SetLimbs((cur@).limbs)));
        }
    } else {
        proof {
            assert(res.deep_view() =~= base + cond_event((l@).limbs != (cur@).limbs, EntityUpdateV::SetLimbs((cur@).limbs)));
        }
    }
}

fn diff_field_enabled(
    res: &mut Vec<EntityUpdate>,
    nl: &mut EntityInfo,
    had: &mut bool,
    l: &EntityInfo,
    cur: &EntityInfo,
)
    ensures
        final(res).deep_view() == old(res).deep_view() + cond_event((l@).is_enabled != (cur@).is_enabled, EntityUpdateV::SetIsEnabled((cur@).is_enabled)),
        (*final(nl))@ == (if (l@).is_enabled != (cur@).is_enabled {
            EntityInfoV { is_enabled: (cur@).is_enabled, ..(*old(nl))@ }
        } else {
            (*old(nl))@
        }),
        *final(had) == (*old(had) || ((l@).is_enabled != (cur@).is_enabled)),
{
    let ghost base = res.deep_view();
    if cur.is_enabled != l.is_enabled {
        nl.is_enabled = cur.is_enabled;
        push_update(res, EntityUpdate::SetIsEnabled(cur.is_enabled));
        *had = true;
        proof {
            assert(res.deep_view() =~= base + cond_event((l@).is_enabled != (cur@).is_enabled, EntityUpdateV::SetIsEnabled((cur@).is_enabled)));
        }
    } else {
        proof {
            assert(res.deep_view() =~= base + cond_event((l@).is_enabled != (cur@).is_enabled, EntityUpdateV::SetIsEnabled((cur@).is_enabled)));
        }
    }
}

fn diff_field_counter(
    res: &mut Vec<EntityUpdate>,
    nl: &mut EntityInfo,
    had: &mut bool,
    l: &EntityInfo,
    cur: &EntityInfo,
)
    ensures
        final(res).deep_view() == old(res).deep_view() + cond_event((l@).counter != (cur@).counter, EntityUpdateV::SetCounter((cur@).counter)),
        (*final(nl))@ == (if (l@).counter != (cur@).counter {
            EntityInfoV { counter: (cur@).counter, ..(*old(nl))@ }
        } else {
            (*old(nl))@
        }),
        *final(had) == (*old(had) || ((l@).counter != (cur@).counter)),
{
    let ghost base = res.deep_view();
    if cur.counter != l.counter {
        nl.counter = cur.counter;
        push_update(res, EntityUpdate::SetCounter(cur.counter));
        *had = true;
        proof {
            assert(res.deep_view() =~= base + cond_event((l@).counter != (cur@).counter, EntityUpdateV::SetCounter((cur@).counter)));
        }
    } else {
        proof {
            assert(res.deep_view() =~= base + cond_event((l@).counter != (cur@).counter, EntityUpdateV::SetCounter((cur@).counter)));
        }
    }
}


impl LocalDiffModel {
    /// Turns this tick's snapshots into the ordered update stream.
    ///
    /// For every entry: a freshly tracked entity contributes a header and a
    /// full init and its snapshot is recorded as transmitted; an entity with
    /// a recorded snapshot contributes one event per changed field behind a
    /// header, or nothing at all when no field changed. Then the queued
    /// localize requests, death notifications (also reported as spawn-once
    /// side effects) and removals are drained, in that order; each drained
    /// removal also stops tracking its entity.
    #[verifier::rlimit(100)]
    #[verifier::spinoff_prover]
    pub fn make_diff(&mut self, ctx: &ModuleCtx) -> (r: (
        Vec<EntityUpdate>,
        Vec<(WorldPos, SpawnOnce)>,
    ))
        requires
            old(self).wf(),
            ctx.wf(),
        ensures
            final(self).wf(),
            (r.0).deep_view() == entries_stream(old(self).entries_seq()) + localize_events(
                old(self).pending_localize_seq(),
            ) + death_events(
                old(self).pending_death_notify_seq(),
                old(self).tracked_of(),
                ctx.player_entities,
            ) + removal_events(old(self).pending_removal_seq()),
            (r.1).deep_view() == death_spawns(
                old(self).pending_death_notify_seq(),
                old(self).tracked_of(),
                ctx.player_entities,
            ),
            forall|lid: Lid|
                #[trigger] final(self).has_entry(lid) <==> (old(self).has_entry(lid) && !old(
                    self,
                ).pending_removal_seq().contains(lid)),
            forall|lid: Lid|
                final(self).has_entry(lid) ==> {
                    let np = #[trigger] final(self).entry_pair(lid);
                    let op = old(self).entry_pair(lid);
                    np.gid == op.gid && (np.current)@ == (op.current)@ && np.last is Some && ((
                    np.last)->0)@ == seeded_info(op)
                },
            forall|l: Lid, h: EntityHandle|
                #[trigger] final(self).tracked_of().binds(l, h) <==> (old(
                    self,
                ).tracked_of().binds(l, h) && !old(self).pending_removal_seq().contains(l)),
            final(self).pending_removal_seq().len() == 0,
            final(self).pending_localize_seq().len() == 0,
            final(self).pending_death_notify_seq().len() == 0,
            final(self).pending_authority_seq() == old(self).pending_authority_seq(),
            final(self).next_lid_spec() == old(self).next_lid_spec(),
    {
        let mut res: Vec<EntityUpdate> = Vec::new();
        let mut dead: Vec<(WorldPos, SpawnOnce)> = Vec::new();
        let mut renewed: Vec<(Lid, EntityEntryPair)> = Vec::new();
        let mut i: usize = 0;
        proof {
            assert(res.deep_view() =~~= entries_stream(self.entries@.take(0int)));
        }
        while i < self.entries.len()
            invariant
                *self == *old(self),
                old(self).wf(),
                i <= self.entries@.len(),
                res.deep_view() == entries_stream(self.entries@.take(i as int)),
                dead@.len() == 0,
                renewed@.len() == i,
                forall|k: int|
                    0 <= k < i ==> {
                        let pre = #[trigger] self.entries@[k];
                        let post = renewed@[k];
                        post.0 == pre.0 && post.1.gid == pre.1.gid && (post.1.current)@ == (
                        pre.1.current)@ && post.1.last is Some && ((post.1.last)->0)@
                            == seeded_info(pre.1)
                    },
            decreases self.entries@.len() - i,
        {
            let ghost pre_stream = res.deep_view();
            let lid = self.entries[i].0;
            let gid = self.entries[i].1.gid;
            let is_fresh = match &self.entries[i].1.last {
                None => true,
                Some(_) => false,
            };
            if is_fresh {
                let cur = &self.entries[i].1.current;
                push_update(&mut res, EntityUpdate::CurrentEntity(lid));
                push_update(&mut res, EntityUpdate::Init(Box::new(cur.duplicate()), gid));
                renewed.push(
                    (
                        lid,
                        EntityEntryPair {
                            last: Some(cur.duplicate()),
                            current: cur.duplicate(),
                            gid,
                        },
                    ),
                );
                proof {
                    assert(entry_events(self.entries@[i as int]) =~= seq![
                        EntityUpdateV::CurrentEntity(lid),
                        EntityUpdateV::Init((cur)@, gid),
                    ]);
                    assert(res.deep_view() =~= pre_stream + entry_events(
                        self.entries@[i as int],
                    ));
                }
            } else {
                let pair = &self.entries[i].1;
                let l = match &pair.last {
                    Some(l) => l,
                    None => &pair.current,
                };
                let nl = Self::diff_one(&mut res, lid, l, &pair.current);
                renewed.push(
                    (lid, EntityEntryPair { last: Some(nl), current: pair.current.duplicate(), gid }),
                );
                proof {
                    assert(entry_events(self.entries@[i as int]) == diffed_events(
                        lid,
                        (l)@,
                        (pair.current)@,
                    ));
                    assert(res.deep_view() == pre_stream + entry_events(self.entries@[i as int]));
                }
            }
            proof {
                assert(self.entries@.take(i as int + 1).drop_last() =~= self.entries@.take(
                    i as int,
                ));
                assert(self.entries@.take(i as int + 1).last() == self.entries@[i as int]);
                assert(res.deep_view() == entries_stream(self.entries@.take(i as int + 1)));
            }
            i = i + 1;
        }
        proof {
            assert(self.entries@.take(self.entries@.len() as int) =~= self.entries@);
        }
        let ghost stream_entries = res.deep_view();

        // Localize requests leave the stream before deaths and removals.
        let mut localize: Vec<(Lid, PeerId)> = Vec::new();
        core::mem::swap(&mut localize, &mut self.tracker.pending_localize);
        let mut j: usize = 0;
        proof {
            assert(stream_entries + localize_events(localize@.take(0int)) =~= stream_entries);
        }
        while j < localize.len()
            invariant
                j <= localize@.len(),
                res.deep_view() == stream_entries + localize_events(localize@.take(j as int)),
            decreases localize@.len() - j,
        {
            let ghost pre_stream = res.deep_view();
            push_update(&mut res, EntityUpdate::LocalizeEntity(localize[j].0, localize[j].1));
            proof {
                assert(localize@.take(j as int + 1).drop_last() =~= localize@.take(j as int));
                assert(localize@.take(j as int + 1).last() == localize@[j as int]);
                vstd::seq_lib::lemma_concat_associative(
                    stream_entries,
                    localize_events(localize@.take(j as int)),
                    seq![
                        EntityUpdateV::LocalizeEntity(localize@[j as int].0, localize@[j as int].1),
                    ],
                );
                assert(pre_stream.push(res.deep_view().last()) =~= pre_stream + seq![
                    res.deep_view().last(),
                ]);
                assert(res.deep_view() == stream_entries + localize_events(
                    localize@.take(j as int + 1),
                ));
            }
            j = j + 1;
        }
        proof {
            assert(localize@.take(localize@.len() as int) =~= localize@);
        }
        let ghost stream_localize = res.deep_view();

        // Death notifications: tell observers to kill their proxies, and
        // surface what should respawn where.
        let mut deaths: Vec<DeathNotify> = Vec::new();
        core::mem::swap(&mut deaths, &mut self.tracker.pending_death_notify);
        let ghost b0 = self.tracker.bound_entities;
        let mut d: usize = 0;
        proof {
            assert(stream_localize + death_events(deaths@.take(0int), b0, ctx.player_entities)
                =~= stream_localize);
            assert(dead.deep_view() =~~= death_spawns(
                deaths@.take(0int),
                b0,
                ctx.player_entities,
            ));
        }
        while d < deaths.len()
            invariant
                self.tracker.bound_entities == b0,
                b0.wf(),
                ctx.wf(),
                d <= deaths@.len(),
                res.deep_view() == stream_localize + death_events(
                    deaths@.take(d as int),
                    b0,
                    ctx.player_entities,
                ),
                dead.deep_view() == death_spawns(deaths@.take(d as int), b0, ctx.player_entities),
            decreases deaths@.len() - d,
        {
            let ghost pre_stream = res.deep_view();
            let ghost pre_dead = dead.deep_view();
            let note = &deaths[d];
            let responsible_peer = match &note.entity_responsible {
                Some(ent) => ctx.peer_of_player(*ent),
                None => None,
            };
            proof {
                match note.entity_responsible {
                    Some(ent) => {
                        match responsible_peer {
                            Some(p) => {
                                ctx.player_entities.lemma_spec_peer_of(p, ent);
                            },
                            None => {},
                        }
                        assert(responsible_peer == death_peer(deaths@[d as int], ctx.player_entities));
                    },
                    None => {
                        assert(responsible_peer == death_peer(deaths@[d as int], ctx.player_entities));
                    },
                }
            }
            let lidopt = self.tracker.bound_entities.get_by_right(note.entity_killed);
            match lidopt {
                Some(lid) => {
                    proof {
                        b0.lemma_spec_lid_of(lid, note.entity_killed);
                    }
                    push_update(
                        &mut res,
                        EntityUpdate::KillEntity {
                            lid,
                            wait_on_kill: note.wait_on_kill,
                            responsible_peer,
                        },
                    );
                    push_spawn(
                        &mut dead,
                        (
                            note.pos,
                            SpawnOnce::Enemy {
                                file: note.file.clone(),
                                drops_gold: note.drops_gold,
                                responsible: responsible_peer,
                            },
                        ),
                    );
                },
                None => {},
            }
            proof {
                assert(deaths@.take(d as int + 1).drop_last() =~= deaths@.take(d as int));
                assert(deaths@.take(d as int + 1).last() == deaths@[d as int]);
                let one_ev = one_death_event(deaths@[d as int], b0, ctx.player_entities);
                let one_sp = one_death_spawn(deaths@[d as int], b0, ctx.player_entities);
                match lidopt {
                    Some(lid) => {
                        assert(res.deep_view() == pre_stream.push(one_ev[0]));
                        assert(pre_stream.push(one_ev[0]) =~= pre_stream + one_ev);
                        assert(dead.deep_view() == pre_dead.push(one_sp[0]));
                        assert(pre_dead.push(one_sp[0]) =~= pre_dead + one_sp);
                    },
                    None => {
                        assert(!b0.has_handle(deaths@[d as int].entity_killed));
                        assert(one_ev =~= Seq::<EntityUpdateV>::empty());
                        assert(one_sp =~= Seq::<(WorldPos, SpawnOnceV)>::empty());
                        assert(pre_stream + one_ev =~= pre_stream);
                        assert(pre_dead + one_sp =~= pre_dead);
                    },
                }
                vstd::seq_lib::lemma_concat_associative(
                    stream_localize,
                    death_events(deaths@.take(d as int), b0, ctx.player_entities),
                    one_ev,
                );
                assert(res.deep_view() == stream_localize + death_events(
                    deaths@.take(d as int + 1),
                    b0,
                    ctx.player_entities,
                ));
                vstd::seq_lib::lemma_concat_associative(
                    Seq::<(WorldPos, SpawnOnceV)>::empty(),
                    death_spawns(deaths@.take(d as int), b0, ctx.player_entities),
                    one_sp,
                );
                assert(dead.deep_view() == death_spawns(
                    deaths@.take(d as int + 1),
                    b0,
                    ctx.player_entities,
                ));
            }
            d = d + 1;
        }
        proof {
            assert(deaths@.take(deaths@.len() as int) =~= deaths@);
        }
        let ghost stream_death = res.deep_view();

        // Removals: emit the event and stop tracking, snapshot and binding.
        self.entries = renewed;
        let ghost seeded = self.entries@;
        let mut removals: Vec<Lid> = Vec::new();
        core::mem::swap(&mut removals, &mut self.tracker.pending_removal);
        proof {
            assert(lids_unique(seeded)) by {
                assert forall|a: int, b: int| 0 <= a < b < seeded.len() implies (
                #[trigger] seeded[a]).0 != (#[trigger] seeded[b]).0 by {
                    assert((old(self).entries_seq()[a]).0 != (old(self).entries_seq()[b]).0);
                }
            }
        }
        let mut w: usize = 0;
        proof {
            assert(stream_death + removal_events(removals@.take(0int)) =~= stream_death);
        }
        while w < removals.len()
            invariant
                old(self).wf(),
                b0.wf(),
                lids_unique(seeded),
                w <= removals@.len(),
                res.deep_view() == stream_death + removal_events(removals@.take(w as int)),
                self.tracker.bound_entities.wf(),
                lids_unique(self.entries@),
                forall|l2: Lid|
                    #[trigger] entries_have(self.entries@, l2) <==> (entries_have(seeded, l2)
                        && !removals@.take(w as int).contains(l2)),
                forall|l2: Lid|
                    entries_have(self.entries@, l2) ==> #[trigger] entry_value(self.entries@, l2)
                        == entry_value(seeded, l2),
                forall|l2: Lid, h2: EntityHandle|
                    #[trigger] self.tracker.bound_entities.binds(l2, h2) <==> (b0.binds(l2, h2)
                        && !removals@.take(w as int).contains(l2)),
                forall|k: int|
                    0 <= k < self.entries@.len() ==> seeded.contains(#[trigger] (self.entries@)[k]),
                self.tracker.pending_removal@.len() == 0,
                self.tracker.pending_localize@.len() == 0,
                self.tracker.pending_death_notify@.len() == 0,
                self.tracker.pending_authority@ == old(self).pending_authority_seq(),
                self.next_lid == old(self).next_lid_spec(),
            decreases removals@.len() - w,
        {
            let ghost pre_stream = res.deep_view();
            let ghost pre_entries = self.entries@;
            let ghost pre_b = self.tracker.bound_entities;
            let lid = removals[w];
            push_update(&mut res, EntityUpdate::RemoveEntity(lid));
            self.tracker.bound_entities.remove_by_left(lid);
            remove_entry(&mut self.entries, lid);
            proof {
                assert(removals@.take(w as int + 1).drop_last() =~= removals@.take(w as int));
                assert(removals@.take(w as int + 1).last() == removals@[w as int]);
                vstd::seq_lib::lemma_concat_associative(
                    stream_death,
                    removal_events(removals@.take(w as int)),
                    seq![EntityUpdateV::RemoveEntity(lid)],
                );
                assert(pre_stream.push(EntityUpdateV::RemoveEntity(lid)) =~= pre_stream + seq![
                    EntityUpdateV::RemoveEntity(lid),
                ]);
                assert(res.deep_view() == stream_death + removal_events(
                    removals@.take(w as int + 1),
                ));
                assert forall|l2: Lid| #[trigger] removals@.take(w as int + 1).contains(l2) <==> (
                removals@.take(w as int).contains(l2) || l2 == lid) by {
                    let up = removals@.take(w as int + 1);
                    let lo = removals@.take(w as int);
                    if up.contains(l2) {
                        let k = choose|k: int| 0 <= k < up.len() && #[trigger] up[k] == l2;
                        if k < w as int {
                            assert(lo[k] == l2);
                        }
                    }
                    if lo.contains(l2) {
                        let k = choose|k: int| 0 <= k < lo.len() && #[trigger] lo[k] == l2;
                        assert(up[k] == l2);
                    }
                    if l2 == lid {
                        assert(removals@.take(w as int + 1)[w as int] == l2);
                    }
                }
                assert forall|k: int|
                    0 <= k < self.entries@.len() implies seeded.contains(
                    #[trigger] (self.entries@)[k],
                ) by {
                    assert(pre_entries.contains(self.entries@[k]));
                    let k2 = choose|k2: int|
                        0 <= k2 < pre_entries.len() && #[trigger] pre_entries[k2]
                            == self.entries@[k];
                    assert(seeded.contains(pre_entries[k2]));
                }
            }
            w = w + 1;
        }
        proof {
            assert(removals@.take(removals@.len() as int) =~= removals@);
        }
        proof {
            assert forall|lid2: Lid| #[trigger] entries_have(self.entries@, lid2)
                <==> self.tracker.bound_entities.has_lid(lid2) by {
                if entries_have(self.entries@, lid2) {
                    assert(entries_have(seeded, lid2) && !removals@.contains(lid2));
                    let k = choose|k: int|
                        0 <= k < seeded.len() && (#[trigger] seeded[k]).0 == lid2;
                    assert((old(self).entries_seq()[k]).0 == lid2);
                    assert(entries_have(old(self).entries_seq(), lid2));
                    assert(old(self).tracked_of().has_lid(lid2));
                    let h2 = old(self).tracked_of().lemma_has_lid_witness(lid2);
                    assert(self.tracker.bound_entities.binds(lid2, h2));
                    self.tracker.bound_entities.lemma_binds_members(lid2, h2);
                }
                if self.tracker.bound_entities.has_lid(lid2) {
                    let h2 = self.tracker.bound_entities.lemma_has_lid_witness(lid2);
                    assert(b0.binds(lid2, h2) && !removals@.contains(lid2));
                    b0.lemma_binds_members(lid2, h2);
                    assert(entries_have(old(self).entries_seq(), lid2));
                    let k = choose|k: int|
                        0 <= k < old(self).entries_seq().len() && (#[trigger] old(
                            self,
                        ).entries_seq()[k]).0 == lid2;
                    assert((seeded[k]).0 == lid2);
                    assert(entries_have(seeded, lid2));
                }
            }
            assert forall|i2: int|
                0 <= i2 < self.entries@.len() implies (#[trigger] self.entries@[i2]).0.0
                < self.next_lid.0 by {
                let e = self.entries@[i2];
                assert(seeded.contains(e));
                let k = choose|k: int| 0 <= k < seeded.len() && #[trigger] seeded[k] == e;
                let oe = old(self).entries_seq()[k];
                assert((seeded[k]).0 == oe.0);
                assert(oe.0.0 < old(self).next_lid_spec().0);
            }
            assert forall|lid2: Lid| #[trigger] final(self).has_entry(lid2) <==> (old(
                self,
            ).has_entry(lid2) && !old(self).pending_removal_seq().contains(lid2)) by {
                if entries_have(self.entries@, lid2) {
                    let k = choose|k: int|
                        0 <= k < seeded.len() && (#[trigger] seeded[k]).0 == lid2;
                    assert((old(self).entries_seq()[k]).0 == lid2);
                }
                if old(self).has_entry(lid2) && !old(self).pending_removal_seq().contains(lid2) {
                    let k = choose|k: int|
                        0 <= k < old(self).entries_seq().len() && (#[trigger] old(
                            self,
                        ).entries_seq()[k]).0 == lid2;
                    assert((seeded[k]).0 == lid2);
                    assert(entries_have(seeded, lid2));
                }
            }
            assert forall|lid2: Lid| final(self).has_entry(lid2) implies {
                let np = #[trigger] final(self).entry_pair(lid2);
                let op = old(self).entry_pair(lid2);
                np.gid == op.gid && (np.current)@ == (op.current)@ && np.last is Some && ((
                np.last)->0)@ == seeded_info(op)
            } by {
                let kf = final(self).entry_index(lid2);
                assert((self.entries@[kf]).0 == lid2);
                assert(entry_value(self.entries@, lid2) == entry_value(seeded, lid2)) by {
                    assert(entries_have(self.entries@, lid2));
                }
                let ks = choose|k: int|
                    0 <= k < seeded.len() && (#[trigger] seeded[k]).0 == lid2;
                assert(entry_value(seeded, lid2) == (seeded[ks]).1);
                assert((old(self).entries_seq()[ks]).0 == lid2);
                let ko = old(self).entry_index(lid2);
                assert((old(self).entries_seq()[ko]).0 == lid2);
                assert(ko == ks);
                let kv = choose|k: int|
                    0 <= k < self.entries@.len() && (#[trigger] self.entries@[k]).0 == lid2;
                assert(kv == kf);
            }
        }
        (res, dead)
    }
}


/// Per-item animation state that suppresses cosmetic position/rotation
/// overwrites while it plays.
#[derive(Debug, Clone, Copy, PartialEq, Eq, Structural)]
pub struct ItemAnimation {
    pub hover: bool,
    pub spinning: bool,
}

/// Sprite-driven state of an entity without ranged AI aim.
pub struct SpriteSample {
    pub facing_direction: bool,
    pub animations: Vec<u16>,
}

/// The stains source: a die-style entity exposes a rolling variable, every
/// other entity reports its stain bitfield directly.
#[derive(Debug, Clone, Copy, PartialEq, Eq, Structural)]
pub enum StainsSample {
    Rolling { var_value: i32 },
    Plain { stains: u64 },
}

/// Everything the driver reads from the live engine about one tracked
/// entity during one tick. Engine quantities that are floating point are
/// carried as the same opaque encodings the snapshot uses; the authority
/// radius comparison, which needs real arithmetic, is done by the driver
/// and reported as `beyond_authority`.
pub struct EntitySample {
    pub alive: bool,
    /// The entity sits inside some inventory.
    pub item_in_inventory: bool,
    /// That inventory belongs to a locally simulated player.
    pub in_player_inventory: bool,
    pub x: u32,
    pub y: u32,
    pub r: u32,
    pub world_pos: WorldPos,
    /// Present when the entity has an item capability.
    pub item_animation: Option<ItemAnimation>,
    /// The entity has an inventory; its held item is then resampled.
    pub has_inventory: bool,
    pub wand: Option<WandData>,
    /// A boss health bar gates activation and is still disabled.
    pub has_boss_centipede_gate: bool,
    /// Some variable named for activation currently equals one.
    pub has_active_var_one: bool,
    pub is_wizard_boss: bool,
    /// Immunity slots of the wizard boss's children.
    pub wizard_slots: Vec<i32>,
    /// The dragon boss with its death script still attached.
    pub is_dragon_boss: bool,
    pub limbs: Vec<(u32, u32)>,
    /// Squared planar camera distance exceeded the authority radius.
    pub beyond_authority: bool,
    /// A peer within the transfer radius, if the driver found one.
    pub transfer_candidate: Option<PeerId>,
    pub velocity: Option<(u32, u32)>,
    pub hp: Option<u32>,
    /// All physics bodies report fully initialized.
    pub phys_ready: bool,
    pub phys: Vec<Option<PhysBodyInfo>>,
    pub cost: Option<i64>,
    pub game_effects: Vec<GameEffectData>,
    pub stains: StainsSample,
    /// Some AI component aims its ranged attacks.
    pub aims_ranged: bool,
    /// AI state and aim angle encoding, when an animal AI is present.
    pub ai: Option<(i32, u32)>,
    pub sprites: Option<SpriteSample>,
    /// The entity shows a laser sight (and is not the stationary turret).
    pub has_laser_sight: bool,
    /// The AI's current prey, if any.
    pub prey: Option<EntityHandle>,
    /// The asset the entity was loaded from.
    pub filename: String,
}

/// The stain bitfield seeded from a fresh die roll: the roll value in the
/// upper half, a cleared rolling flag in the lower half.
pub open spec fn rolled_stains(rng: i32) -> u64 {
    ((rng as u32) as u64) << 32
}

/// Continues a roll: once the rolling flag byte is zero it is forced to
/// one, keeping the rolled value in the upper half.
pub open spec fn continued_stains(prev: u64) -> u64 {
    if prev & 0xFF == 0 {
        (prev & 0xFFFF_FFFF_0000_0000) | 1
    } else {
        prev
    }
}

/// The wizard boss's immunity mask: one bit per child immunity slot.
/// Slots outside the mask's width are ignored.
pub open spec fn wizard_mask(slots: Seq<i32>) -> u64
    decreases slots.len(),
{
    if slots.len() == 0 {
        0u64
    } else {
        wizard_mask(slots.drop_last()) | mask_bit(slots.last())
    }
}

/// The mask contribution of one immunity slot.
pub open spec fn mask_bit(slot: i32) -> u64 {
    if 0 <= slot < 64 {
        1u64 << (slot as u64)
    } else {
        0u64
    }
}

/// Computes the wizard boss's immunity mask from its children's slots.
pub fn wizard_mask_of(slots: &Vec<i32>) -> (r: u64)
    ensures
        r == wizard_mask(slots@),
{
    let mut r: u64 = 0;
    let mut i: usize = 0;
    while i < slots.len()
        invariant
            i <= slots@.len(),
            r == wizard_mask(slots@.take(i as int)),
        decreases slots@.len() - i,
    {
        let slot = slots[i];
        if 0 <= slot && slot < 64 {
            r = r | (1u64 << (slot as u64));
        } else {
            proof {
                assert(r | 0u64 == r) by (bit_vector);
            }
        }
        proof {
            assert(slots@.take(i as int + 1).drop_last() =~= slots@.take(i as int));
            assert(slots@.take(i as int + 1).last() == slots@[i as int]);
        }
        i = i + 1;
    }
    proof {
        assert(slots@.take(slots@.len() as int) =~= slots@);
    }
    r
}

/// Position updates are suppressed while an item hovers, so the cosmetic
/// animation is not fought by authoritative snapshots.
pub open spec fn spec_send_position(anim: Option<ItemAnimation>) -> bool {
    match anim {
        Some(a) => !a.hover,
        None => true,
    }
}

/// Rotation updates are suppressed while an item spins (unless it also
/// hovers, which overrides the spin).
pub open spec fn spec_send_rotation(anim: Option<ItemAnimation>) -> bool {
    match anim {
        Some(a) => !a.spinning || a.hover,
        None => true,
    }
}

/// The snapshot after the sampling steps that precede the authority-radius
/// check: position, rotation, held item, activation flag, boss counter and
/// limb positions.
pub open spec fn pre_auth_fold(o: EntityInfoV, s: EntitySample) -> EntityInfoV {
    EntityInfoV {
        x: if spec_send_position(s.item_animation) {
            s.x
        } else {
            o.x
        },
        y: if spec_send_position(s.item_animation) {
            s.y
        } else {
            o.y
        },
        world_pos: if spec_send_position(s.item_animation) {
            s.world_pos
        } else {
            o.world_pos
        },
        r: if spec_send_rotation(s.item_animation) {
            s.r
        } else {
            o.r
        },
        wand: if s.has_inventory {
            (s.wand).deep_view()
        } else {
            o.wand
        },
        is_enabled: s.has_boss_centipede_gate || s.has_active_var_one,
        counter: if s.is_wizard_boss {
            wizard_mask((s.wizard_slots)@)
        } else if s.is_dragon_boss {
            1u64
        } else {
            o.counter
        },
        limbs: (s.limbs)@,
        ..o
    }
}

/// The snapshot after the sampling steps that follow the authority-radius
/// check: velocity, health, physics bodies, cost, game effects, stains and
/// the AI or sprite driven fields.
pub open spec fn post_auth_fold(
    o: EntityInfoV,
    s: EntitySample,
    stains: u64,
    laser: Option<PeerId>,
) -> EntityInfoV {
    EntityInfoV {
        vx: match s.velocity {
            Some(v) => v.0,
            None => o.vx,
        },
        vy: match s.velocity {
            Some(v) => v.1,
            None => o.vy,
        },
        hp: match s.hp {
            Some(h) => h,
            None => o.hp,
        },
        phys: if s.phys_ready {
            (s.phys)@
        } else {
            o.phys
        },
        cost: match s.cost {
            Some(c) => c,
            None => 0,
        },
        game_effects: (s.game_effects).deep_view(),
        current_stains: stains,
        ai_state: if s.aims_ranged && s.ai is Some {
            (s.ai->0).0
        } else {
            o.ai_state
        },
        ai_rotation: if s.aims_ranged && s.ai is Some {
            (s.ai->0).1
        } else {
            o.ai_rotation
        },
        facing_direction: if !s.aims_ranged && s.sprites is Some {
            (s.sprites->0).facing_direction
        } else {
            o.facing_direction
        },
        animations: if !s.aims_ranged && s.sprites is Some {
            ((s.sprites->0).animations)@
        } else if !s.aims_ranged {
            Seq::empty()
        } else {
            o.animations
        },
        laser: if !s.aims_ranged && s.sprites is Some {
            laser
        } else {
            o.laser
        },
        ..o
    }
}

/// The stains value when no fresh roll is drawn: rolling entities continue
/// their roll, everything else reports its bitfield.
pub open spec fn nonrolled_stains(o: EntityInfoV, s: EntitySample) -> u64 {
    match s.stains {
        StainsSample::Rolling { var_value } => continued_stains(o.current_stains),
        StainsSample::Plain { stains } => stains,
    }
}

/// What the caller must do after one entity's tick update: send these
/// messages in order, kill or re-script the live entity, and store a fresh
/// roll value, where present.
pub struct LocalUpdateOutcome {
    pub messages: Vec<DesToProxy>,
    /// Kill this live entity (its authority moved elsewhere).
    pub kill_entity: Option<EntityHandle>,
    /// Strip the sync tag and arm the item-drop notification script: the
    /// item went into a player inventory and leaves sync for now.
    pub untrack_item: Option<EntityHandle>,
    /// Store this fresh roll value on the entity's roll variable.
    pub set_rng_var: Option<i32>,
}

/// How one entity's tick update ended.
#[derive(Debug, Clone, Copy, PartialEq, Eq, Structural)]
pub enum LocalUpdateKind {
    /// The entity is gone; it was queued for removal.
    Dropped,
    /// The entity was picked into a player inventory and leaves sync.
    TemporarilyUntracked,
    /// Authority was released into the void.
    Released,
    /// Authority was transferred to a peer.
    Transferred,
    /// The snapshot was refreshed; the entity stays tracked.
    Updated,
}


/// Bytes of the asset prefix naming ghost-carried wands, which never get a
/// held-item update on release.
pub open spec fn wand_ghost_prefix_bytes() -> Seq<u8> {
    string_bytes("data/entities/animals/wand_ghost"@)
}

/// The UTF-8 bytes of a character sequence.
pub open spec fn string_bytes(chars: Seq<char>) -> Seq<u8> {
    vstd::utf8::encode_utf8(chars)
}

/// `p` is a prefix of `a`.
pub open spec fn spec_prefix(p: Seq<u8>, a: Seq<u8>) -> bool {
    p.len() <= a.len() && a.subrange(0, p.len() as int) == p
}

fn bytes_prefix(a: &[u8], p: &[u8]) -> (r: bool)
    ensures
        r == spec_prefix(p@, a@),
{
    if p.len() > a.len() {
        return false;
    }
    let mut i: usize = 0;
    while i < p.len()
        invariant
            p@.len() <= a@.len(),
            i <= p@.len(),
            forall|k: int| 0 <= k < i ==> a@[k] == p@[k],
        decreases p@.len() - i,
    {
        if a[i] != p[i] {
            proof {
                assert(a@.subrange(0, p@.len() as int)[i as int] != p@[i as int]);
            }
            return false;
        }
        i = i + 1;
    }
    proof {
        assert(a@.subrange(0, p@.len() as int) =~= p@);
    }
    true
}

/// Whether an asset name is a ghost-carried wand.
pub fn is_wand_ghost_file(name: &String) -> (r: bool)
    ensures
        r == spec_prefix(wand_ghost_prefix_bytes(), string_bytes((name)@)),
{
    let prefix = "data/entities/animals/wand_ghost";
    bytes_prefix(name.as_str().as_bytes(), prefix.as_bytes())
}

/// The messages a handoff announces: the held item (except for ghost
/// wands), the final position, and exactly one authority verdict.
pub open spec fn handoff_messages(
    msgs: Seq<DesToProxy>,
    gid: Gid,
    pos: WorldPos,
    target: Option<PeerId>,
    skip_wand: bool,
) -> bool {
    let base: int = if skip_wand {
        0
    } else {
        1
    };
    &&& msgs.len() == base + 2
    &&& (!skip_wand ==> (msgs[0] matches DesToProxy::UpdateWand(g, _) && g == gid))
    &&& (msgs[base] matches DesToProxy::UpdatePositions(v) && v@.len() == 1 && (v@[0]).gid == gid
        && (v@[0]).pos == pos)
    &&& (match target {
        Some(peer) => msgs[base + 1] == DesToProxy::TransferAuthorityTo(gid, peer),
        None => msgs[base + 1] == DesToProxy::ReleaseAuthority(gid),
    })
}

impl LocalDiffModel {
    /// Index of the entry tracked under `lid`.
    fn index_of(&self, lid: Lid) -> (r: usize)
        requires
            self.wf(),
            self.has_entry(lid),
        ensures
            r < self.entries_seq().len(),
            (self.entries_seq()[r as int]).0 == lid,
            r as int == self.entry_index(lid),
    {
        let mut i: usize = 0;
        while i < self.entries.len()
            invariant
                self.wf(),
                self.has_entry(lid),
                i <= self.entries@.len(),
                forall|k: int| 0 <= k < i ==> (#[trigger] self.entries@[k]).0 != lid,
            decreases self.entries@.len() - i,
        {
            if self.entries[i].0 == lid {
                proof {
                    let k = self.entry_index(lid);
                    assert((self.entries_seq()[k]).0 == lid);
                    if k != i as int {
                        assert((self.entries@[k]).0 != (self.entries@[i as int]).0);
                    }
                }
                return i;
            }
            i = i + 1;
        }
        proof {
            let k = choose|k: int|
                0 <= k < self.entries_seq().len() && (#[trigger] self.entries_seq()[k]).0 == lid;
            assert(false);
        }
        0
    }

    /// Replaces the snapshot under construction of the entry at `idx`.
    fn replace_current(&mut self, idx: usize, info: EntityInfo)
        requires
            old(self).wf(),
            idx < old(self).entries_seq().len(),
        ensures
            final(self).wf(),
            final(self).entries_seq().len() == old(self).entries_seq().len(),
            forall|k: int|
                0 <= k < old(self).entries_seq().len() && k != idx ==> (
                #[trigger] (final(self).entries_seq())[k]) == old(self).entries_seq()[k],
            ((final(self).entries_seq())[idx as int]).0 == ((old(self).entries_seq())[idx as int]).0,
            ((final(self).entries_seq())[idx as int]).1.gid == ((old(self).entries_seq())[idx as int]).1.gid,
            ((final(self).entries_seq())[idx as int]).1.last == ((old(self).entries_seq())[idx as int]).1.last,
            (((final(self).entries_seq())[idx as int]).1.current)@ == info@,
            final(self).next_lid_spec() == old(self).next_lid_spec(),
            final(self).tracked_of() == old(self).tracked_of(),
            final(self).pending_removal_seq() == old(self).pending_removal_seq(),
            final(self).pending_authority_seq() == old(self).pending_authority_seq(),
            final(self).pending_localize_seq() == old(self).pending_localize_seq(),
            final(self).pending_death_notify_seq() == old(self).pending_death_notify_seq(),
    {
        let ghost prev = self.entries@;
        let e = self.entries.remove(idx);
        let lid = e.0;
        let gid = e.1.gid;
        self.entries.insert(idx, (lid, EntityEntryPair { last: e.1.last, current: info, gid }));
        proof {
            prev.remove_ensures(idx as int);
            assert(self.entries@ =~= prev.update(idx as int, self.entries@[idx as int]));
            assert forall|k: int|
                0 <= k < prev.len() && k != idx implies #[trigger] self.entries@[k]
                == prev[k] by {}
            assert forall|a: int, b: int| 0 <= a < b < self.entries@.len() implies (
            #[trigger] self.entries@[a]).0 != (#[trigger] self.entries@[b]).0 by {
                assert((prev[a]).0 != (prev[b]).0);
            }
            assert forall|i2: int|
                0 <= i2 < self.entries@.len() implies (#[trigger] self.entries@[i2]).0.0
                < self.next_lid.0 by {
                assert((prev[i2]).0 == (self.entries@[i2]).0);
            }
            assert forall|lid2: Lid| #[trigger] entries_have(self.entries@, lid2) <==> entries_have(
                prev,
                lid2,
            ) by {
                if entries_have(self.entries@, lid2) {
                    let k = choose|k: int|
                        0 <= k < self.entries@.len() && (#[trigger] self.entries@[k]).0 == lid2;
                    assert((prev[k]).0 == lid2);
                }
                if entries_have(prev, lid2) {
                    let k = choose|k: int|
                        0 <= k < prev.len() && (#[trigger] prev[k]).0 == lid2;
                    assert((self.entries@[k]).0 == lid2);
                }
            }
        }
    }

    /// Folds one tick's engine sample into a tracked entity's snapshot and
    /// decides its fate.
    ///
    /// A dead entity is queued for removal and announced deleted. An item
    /// that went into a player's inventory leaves sync the same way, plus
    /// local cleanup. An entity beyond the authority radius is handed off:
    /// to a transfer candidate when it is global, else released; exactly
    /// one authority verdict is announced per handoff, never both, and the
    /// entity keeps its snapshot entry until the next stream drains the
    /// removal. Everything else is a plain snapshot refresh.
    #[verifier::rlimit(100)]
    #[verifier::spinoff_prover]
    pub fn update_tracked_entity(
        &mut self,
        lid: Lid,
        sample: Option<EntitySample>,
        ctx: &ModuleCtx,
    ) -> (r: (LocalUpdateKind, LocalUpdateOutcome))
        requires
            old(self).wf(),
            ctx.wf(),
            old(self).has_entry(lid),
        ensures
            final(self).wf(),
            final(self).next_lid_spec() == old(self).next_lid_spec(),
            final(self).tracked_of() == old(self).tracked_of(),
            final(self).pending_authority_seq() == old(self).pending_authority_seq(),
            final(self).pending_localize_seq() == old(self).pending_localize_seq(),
            final(self).pending_death_notify_seq() == old(self).pending_death_notify_seq(),
            forall|l2: Lid|
                #[trigger] final(self).has_entry(l2) <==> old(self).has_entry(l2),
            forall|l2: Lid|
                l2 != lid && final(self).has_entry(l2) ==> #[trigger] final(self).entry_pair(l2)
                    == old(self).entry_pair(l2),
            final(self).entry_pair(lid).gid == old(self).entry_pair(lid).gid,
            final(self).entry_pair(lid).last == old(self).entry_pair(lid).last,
            r.0 == LocalUpdateKind::Updated || r.0 == LocalUpdateKind::Dropped || r.0
                == LocalUpdateKind::TemporarilyUntracked || r.0 == LocalUpdateKind::Released
                || r.0 == LocalUpdateKind::Transferred,
            // A handoff, drop or untrack queues exactly one removal; a
            // plain update queues none.
            (r.0 == LocalUpdateKind::Updated ==> final(self).pending_removal_seq() == old(
                self,
            ).pending_removal_seq() && (r.1).messages@.len() == 0 && (r.1).kill_entity is None),
            (r.0 != LocalUpdateKind::Updated ==> final(self).pending_removal_seq() == old(
                self,
            ).pending_removal_seq().push(lid)),
            // A dropped or inventory-untracked entity is not sampled this
            // tick: every snapshot entry stays exactly as it was.
            (r.0 == LocalUpdateKind::Dropped || r.0 == LocalUpdateKind::TemporarilyUntracked
                ==> final(self).entries_seq() == old(self).entries_seq()),
            // A dropped entity announces exactly its deletion, without a
            // live-handle hint, and asks nothing else of the caller.
            (r.0 == LocalUpdateKind::Dropped ==> (r.1).messages@ =~= seq![
                DesToProxy::DeleteEntity(old(self).entry_pair(lid).gid, None),
            ] && (r.1).kill_entity is None && (r.1).untrack_item is None && (r.1).set_rng_var
                is None),
            // An item that went into a player inventory announces its
            // deletion with the live handle as hint, and that same entity
            // is handed back for tag removal and drop-notify re-arming.
            (r.0 == LocalUpdateKind::TemporarilyUntracked ==> ((r.1).untrack_item matches Some(h)
                && old(self).tracked_of().binds(lid, h) && (r.1).messages@ =~= seq![
                DesToProxy::DeleteEntity(old(self).entry_pair(lid).gid, Some(h)),
            ]) && (r.1).kill_entity is None && (r.1).set_rng_var is None),
            // Which case fired, and what it announced.
            (match sample {
                None => r.0 == LocalUpdateKind::Dropped,
                Some(s) => {
                    let gid = old(self).entry_pair(lid).gid;
                    let o = (old(self).entry_pair(lid).current)@;
                    let pre = pre_auth_fold(o, s);
                    &&& (!s.alive ==> r.0 == LocalUpdateKind::Dropped)
                    &&& (r.0 == LocalUpdateKind::Dropped ==> !s.alive)
                    &&& (s.alive && old(self).entry_pair(lid).current.kind == EntityKind::Item
                        && s.item_in_inventory && !s.in_player_inventory ==> r.0
                        == LocalUpdateKind::TemporarilyUntracked)
                    &&& (r.0 == LocalUpdateKind::TemporarilyUntracked ==> (r.1).untrack_item
                        is Some)
                    &&& (s.alive && !(old(self).entry_pair(lid).current.kind == EntityKind::Item
                        && s.item_in_inventory && !s.in_player_inventory) ==> {
                        &&& (s.beyond_authority && pre.is_global && s.transfer_candidate is Some
                            ==> r.0 == LocalUpdateKind::Transferred && handoff_messages(
                            ((r.1).messages)@,
                            gid,
                            s.world_pos,
                            s.transfer_candidate,
                            spec_prefix(wand_ghost_prefix_bytes(), string_bytes((s.filename)@)),
                        ))
                        &&& (s.beyond_authority && !pre.is_global ==> r.0
                            == LocalUpdateKind::Released && handoff_messages(
                            ((r.1).messages)@,
                            gid,
                            s.world_pos,
                            None,
                            spec_prefix(wand_ghost_prefix_bytes(), string_bytes((s.filename)@)),
                        ))
                        &&& (!(s.beyond_authority && (pre.is_global ==> s.transfer_candidate
                            is Some)) ==> r.0 == LocalUpdateKind::Updated)
                    })
                    &&& (r.0 == LocalUpdateKind::Released || r.0 == LocalUpdateKind::Transferred
                        ==> (r.1).kill_entity is Some && final(self).entry_pair(lid).current@
                        == pre && old(self).tracked_of().binds(lid, (r.1).kill_entity->0))
                    &&& (r.0 == LocalUpdateKind::Updated ==> {
                        let stains = match (r.1).set_rng_var {
                            Some(v) => rolled_stains(v),
                            None => nonrolled_stains(o, s),
                        };
                        &&& final(self).entry_pair(lid).current@ == post_auth_fold(
                            pre,
                            s,
                            stains,
                            laser_target(s, *ctx),
                        )
                        &&& ((r.1).set_rng_var is Some <==> s.stains matches StainsSample::Rolling {
                            var_value: 0i32 })
                    })
                },
            }),
    {
        let idx = self.index_of(lid);
        let alive_sample = match sample {
            None => None,
            Some(s) => {
                if s.alive {
                    Some(s)
                } else {
                    None
                }
            },
        };
        let none_outcome = LocalUpdateOutcome {
            messages: Vec::new(),
            kill_entity: None,
            untrack_item: None,
            set_rng_var: None,
        };
        match alive_sample {
            None => {
                let gid = self.entries[idx].1.gid;
                let mut messages: Vec<DesToProxy> = Vec::new();
                messages.push(DesToProxy::DeleteEntity(gid, None));
                self.tracker.pending_removal.push(lid);
                let r = (
                    LocalUpdateKind::Dropped,
                    LocalUpdateOutcome { messages, kill_entity: None, untrack_item: None, set_rng_var: None },
                );
                proof {
                    assert(self.entries@ == old(self).entries@);
                    assert((r.1).messages@ =~= seq![DesToProxy::DeleteEntity(gid, None)]);
                }
                r
            },
            Some(s) => {
                let gid = self.entries[idx].1.gid;
                let is_item = match self.entries[idx].1.current.kind {
                    EntityKind::Item => true,
                    EntityKind::Normal => false,
                };
                if is_item && s.item_in_inventory && !s.in_player_inventory {
                    let handle = match self.entity_by_lid(lid) {
                        Some(h) => h,
                        None => {
                            proof {
                                let h2 = old(self).tracked_of().lemma_has_lid_witness(lid);
                                old(self).tracked_of().lemma_binds_members(lid, h2);
                            }
                            proof {
                                assert(false);
                            }
                            EntityHandle(0)
                        },
                    };
                    let mut messages: Vec<DesToProxy> = Vec::new();
                    messages.push(DesToProxy::DeleteEntity(gid, Some(handle)));
                    self.tracker.pending_removal.push(lid);
                    let r = (
                        LocalUpdateKind::TemporarilyUntracked,
                        LocalUpdateOutcome {
                            messages,
                            kill_entity: None,
                            untrack_item: Some(handle),
                            set_rng_var: None,
                        },
                    );
                    proof {
                        assert(self.entries@ == old(self).entries@);
                    }
                    return r;
                }
                // Fold the pre-authority sampling steps into the snapshot.
                let pre = fold_pre(&self.entries[idx].1.current, &s);
                let is_global = pre.is_global;
                self.replace_current(idx, pre);
                proof {
                    assert(self.entries@[idx as int].0 == lid);
                }
                if s.beyond_authority && (!is_global || matches!(s.transfer_candidate, Some(_))) {
                    // Handoff: announce the held item and final position,
                    // then exactly one authority verdict.
                    let handle = match self.entity_by_lid(lid) {
                        Some(h) => h,
                        None => {
                            proof {
                                let h2 = old(self).tracked_of().lemma_has_lid_witness(lid);
                                old(self).tracked_of().lemma_binds_members(lid, h2);
                            }
                            proof {
                                assert(false);
                            }
                            EntityHandle(0)
                        },
                    };
                    let mut messages: Vec<DesToProxy> = Vec::new();
                    let skip_wand = is_wand_ghost_file(&s.filename);
                    if !skip_wand {
                        let wand_bytes = match &self.entries[idx].1.current.wand {
                            Some(w) => Some(w.serialized.clone()),
                            None => None,
                        };
                        messages.push(DesToProxy::UpdateWand(gid, wand_bytes));
                    }
                    let mut poslist: Vec<UpdatePosition> = Vec::new();
                    poslist.push(UpdatePosition { gid, pos: s.world_pos });
                    messages.push(DesToProxy::UpdatePositions(poslist));
                    let kind = if is_global {
                        let peer = match s.transfer_candidate {
                            Some(p) => p,
                            None => PeerId(0),
                        };
                        messages.push(DesToProxy::TransferAuthorityTo(gid, peer));
                        LocalUpdateKind::Transferred
                    } else {
                        messages.push(DesToProxy::ReleaseAuthority(gid));
                        LocalUpdateKind::Released
                    };
                    self.tracker.pending_removal.push(lid);
                    let r = (
                        kind,
                        LocalUpdateOutcome {
                            messages,
                            kill_entity: Some(handle),
                            untrack_item: None,
                            set_rng_var: None,
                        },
                    );
                    return r;
                }
                // Fold the post-authority sampling steps.
                let laser = resolve_laser(&s, ctx);
                let (stains, roll) = roll_stains(&self.entries[idx].1.current, &s);
                let post = fold_post(&self.entries[idx].1.current, &s, stains, laser);
                self.replace_current(idx, post);
                (
                    LocalUpdateKind::Updated,
                    LocalUpdateOutcome {
                        messages: Vec::new(),
                        kill_entity: None,
                        untrack_item: None,
                        set_rng_var: roll,
                    },
                )
            },
        }
    }
}

/// The peer a laser-sighted entity aims at: the owner of its prey's player
/// entity, where the prey is one.
pub open spec fn laser_target(s: EntitySample, ctx: ModuleCtx) -> Option<PeerId> {
    if s.has_laser_sight {
        match s.prey {
            Some(h) => ctx.player_entities.spec_peer_of(h),
            None => None,
        }
    } else {
        None
    }
}

fn resolve_laser(s: &EntitySample, ctx: &ModuleCtx) -> (r: Option<PeerId>)
    requires
        ctx.wf(),
    ensures
        r == laser_target(*s, *ctx),
{
    if s.has_laser_sight {
        match &s.prey {
            Some(h) => {
                let r = ctx.peer_of_player(*h);
                proof {
                    match r {
                        Some(p) => {
                            ctx.player_entities.lemma_spec_peer_of(p, *h);
                        },
                        None => {},
                    }
                }
                r
            },
            None => None,
        }
    } else {
        None
    }
}

/// Draws a fresh roll for a rolling entity whose roll variable is cleared;
/// relies on `rand::random` for the roll value, of which nothing is
/// assumed.
fn roll_stains(o: &EntityInfo, s: &EntitySample) -> (r: (u64, Option<i32>))
    ensures
        match r.1 {
            Some(v) => r.0 == rolled_stains(v) && (s.stains matches StainsSample::Rolling {
                var_value: 0i32 }),
            None => r.0 == nonrolled_stains(o@, *s) && !(s.stains
                matches StainsSample::Rolling { var_value: 0i32 }),
        },
{
    match s.stains {
        StainsSample::Rolling { var_value } => {
            if var_value == 0 {
                let v: i32 = rand::random();
                let stains = ((v as u32) as u64) << 32u64;
                (stains, Some(v))
            } else {
                let prev = o.current_stains;
                let stains = if prev & 0xFF == 0 {
                    (prev & 0xFFFF_FFFF_0000_0000) | 1
                } else {
                    prev
                };
                (stains, None)
            }
        },
        StainsSample::Plain { stains } => (stains, None),
    }
}

pub assume_specification<T>[ rand::random::<T> ]() -> (r: T)
    where
        rand::distributions::Standard: rand::distributions::Distribution<T>,
;

fn fold_pre(o: &EntityInfo, s: &EntitySample) -> (r: EntityInfo)
    ensures
        r@ == pre_auth_fold(o@, *s),
{
    let send_pos = match &s.item_animation {
        Some(a) => !a.hover,
        None => true,
    };
    let send_rot = match &s.item_animation {
        Some(a) => !a.spinning || a.hover,
        None => true,
    };
    let mut r = o.duplicate();
    if send_pos {
        r.x = s.x;
        r.y = s.y;
        r.world_pos = s.world_pos;
    }
    if send_rot {
        r.r = s.r;
    }
    if s.has_inventory {
        r.wand = dup_wand(&s.wand);
    }
    r.is_enabled = s.has_boss_centipede_gate || s.has_active_var_one;
    if s.is_wizard_boss {
        r.counter = wizard_mask_of(&s.wizard_slots);
    } else if s.is_dragon_boss {
        r.counter = 1;
    }
    r.limbs = dup_limbs(&s.limbs);
    proof {
        let ghost rv = r@;
        let ghost mv = pre_auth_fold(o@, *s);
        assert(rv.game_effects =~~= mv.game_effects);
        assert(rv.phys =~= mv.phys);
        assert(rv.animations =~= mv.animations);
        assert(rv.limbs =~= mv.limbs);
        assert(rv == mv);
    }
    r
}

fn fold_post(o: &EntityInfo, s: &EntitySample, stains: u64, laser: Option<PeerId>) -> (r:
    EntityInfo)
    ensures
        r@ == post_auth_fold(o@, *s, stains, laser),
{
    let mut r = o.duplicate();
    match &s.velocity {
        Some(v) => {
            r.vx = v.0;
            r.vy = v.1;
        },
        None => {},
    }
    match &s.hp {
        Some(h) => {
            r.hp = *h;
        },
        None => {},
    }
    if s.phys_ready {
        r.phys = dup_phys(&s.phys);
    }
    r.cost = match &s.cost {
        Some(c) => *c,
        None => 0,
    };
    r.game_effects = dup_effects(&s.game_effects);
    r.current_stains = stains;
    if s.aims_ranged {
        match &s.ai {
            Some(ai) => {
                r.ai_state = ai.0;
                r.ai_rotation = ai.1;
            },
            None => {},
        }
    } else {
        match &s.sprites {
            Some(sp) => {
                r.facing_direction = sp.facing_direction;
                r.animations = dup_animations(&sp.animations);
                r.laser = laser;
            },
            None => {
                r.animations = Vec::new();
            },
        }
    }
    proof {
        let ghost rv = r@;
        let ghost mv = post_auth_fold(o@, *s, stains, laser);
        assert(rv.game_effects =~~= mv.game_effects);
        assert(rv.phys =~= mv.phys);
        assert(rv.animations =~= mv.animations);
        assert(rv.limbs =~= mv.limbs);
        assert(rv == mv);
    }
    r
}


/// How a grab request against the local model ended.
pub enum GrabOutcome {
    /// The item was localized to the requesting peer: kill the live
    /// entity and send the message; the next stream announces the
    /// localization.
    Localized { entity: EntityHandle, message: DesToProxy },
    /// The entity is tracked but not an item; nothing changed.
    NotItem { entity: EntityHandle },
    /// No such tracked entity.
    Unknown,
}

impl LocalDiffModel {
    /// Index of the entry tracked under `lid`, if any.
    fn entry_lookup(&self, lid: Lid) -> (r: Option<usize>)
        requires
            self.wf(),
        ensures
            match r {
                Some(idx) => idx < self.entries_seq().len() && ((self.entries_seq())[
                    idx as int
                ]).0 == lid && idx as int == self.entry_index(lid),
                None => !self.has_entry(lid),
            },
    {
        let mut i: usize = 0;
        while i < self.entries.len()
            invariant
                self.wf(),
                i <= self.entries@.len(),
                forall|k: int| 0 <= k < i ==> (#[trigger] self.entries@[k]).0 != lid,
            decreases self.entries@.len() - i,
        {
            if self.entries[i].0 == lid {
                proof {
                    assert(self.entries_seq()[i as int].0 == lid);
                    assert(self.has_entry(lid));
                    let k = self.entry_index(lid);
                    assert((self.entries_seq()[k]).0 == lid);
                    if k != i as int {
                        assert((self.entries@[k]).0 != (self.entries@[i as int]).0);
                    }
                }
                return Some(i);
            }
            i = i + 1;
        }
        proof {
            if self.has_entry(lid) {
                let k = choose|k: int|
                    0 <= k < self.entries_seq().len() && (#[trigger] self.entries_seq()[k]).0
                        == lid;
                assert(false);
            }
        }
        None
    }

    /// A peer grabbed the entity under `lid` (an item pickup). An item is
    /// localized: it leaves tracking at once, a localize event is queued
    /// for the next stream, and the peer-side deletion is announced. A
    /// non-item is refused.
    pub fn entity_grabbed(&mut self, source: PeerId, lid: Lid) -> (r: GrabOutcome)
        requires
            old(self).wf(),
        ensures
            final(self).wf(),
            final(self).next_lid_spec() == old(self).next_lid_spec(),
            final(self).pending_removal_seq() == old(self).pending_removal_seq(),
            final(self).pending_authority_seq() == old(self).pending_authority_seq(),
            final(self).pending_death_notify_seq() == old(self).pending_death_notify_seq(),
            match r {
                GrabOutcome::Localized { entity, message } => {
                    &&& old(self).has_entry(lid)
                    &&& old(self).entry_pair(lid).current.kind == EntityKind::Item
                    &&& old(self).tracked_of().binds(lid, entity)
                    &&& message == DesToProxy::DeleteEntity(old(self).entry_pair(lid).gid, None)
                    &&& final(self).pending_localize_seq() == old(
                        self,
                    ).pending_localize_seq().push((lid, source))
                    &&& !final(self).has_entry(lid)
                    &&& forall|l2: Lid|
                        l2 != lid ==> (#[trigger] final(self).has_entry(l2) <==> old(
                            self,
                        ).has_entry(l2))
                    &&& forall|l2: Lid, h2: EntityHandle|
                        #[trigger] final(self).tracked_of().binds(l2, h2) <==> (old(
                            self,
                        ).tracked_of().binds(l2, h2) && l2 != lid)
                },
                GrabOutcome::NotItem { entity } => {
                    &&& old(self).has_entry(lid)
                    &&& old(self).entry_pair(lid).current.kind == EntityKind::Normal
                    &&& old(self).tracked_of().binds(lid, entity)
                    &&& *final(self) == *old(self)
                },
                GrabOutcome::Unknown => !old(self).has_entry(lid) && *final(self) == *old(self),
            },
    {
        let idx = match self.entry_lookup(lid) {
            Some(idx) => idx,
            None => {
                return GrabOutcome::Unknown;
            },
        };
        let entity = match self.entity_by_lid(lid) {
            Some(h) => h,
            None => {
                proof {
                    assert(self.has_entry(lid));
                    let h2 = self.tracker.bound_entities.lemma_has_lid_witness(lid);
                    assert(false);
                }
                EntityHandle(0)
            },
        };
        let is_item = match self.entries[idx].1.current.kind {
            EntityKind::Item => true,
            EntityKind::Normal => false,
        };
        if !is_item {
            return GrabOutcome::NotItem { entity };
        }
        let gid = self.entries[idx].1.gid;
        self.tracker.pending_localize.push((lid, source));
        self.tracker.bound_entities.remove_by_left(lid);
        remove_entry(&mut self.entries, lid);
        proof {
            assert forall|lid2: Lid| #[trigger] entries_have(self.entries@, lid2)
                <==> self.tracker.bound_entities.has_lid(lid2) by {
                if entries_have(self.entries@, lid2) {
                    assert(lid2 != lid);
                    assert(entries_have(old(self).entries_seq(), lid2));
                    let h2 = old(self).tracked_of().lemma_has_lid_witness(lid2);
                    assert(self.tracker.bound_entities.binds(lid2, h2));
                    self.tracker.bound_entities.lemma_binds_members(lid2, h2);
                }
                if self.tracker.bound_entities.has_lid(lid2) {
                    let h2 = self.tracker.bound_entities.lemma_has_lid_witness(lid2);
                    assert(old(self).tracked_of().binds(lid2, h2) && lid2 != lid);
                    old(self).tracked_of().lemma_binds_members(lid2, h2);
                    assert(entries_have(old(self).entries_seq(), lid2));
                    assert(entries_have(self.entries@, lid2));
                }
            }
            assert forall|i2: int|
                0 <= i2 < self.entries@.len() implies (#[trigger] self.entries@[i2]).0.0
                < self.next_lid.0 by {
                assert(old(self).entries_seq().contains(self.entries@[i2]));
                let k = choose|k: int|
                    0 <= k < old(self).entries_seq().len() && #[trigger] old(self).entries_seq()[k]
                        == self.entries@[i2];
            }
        }
        GrabOutcome::Localized { entity, message: DesToProxy::DeleteEntity(gid, None) }
    }
}

} // verus!
