//! Replication core for a peer-authoritative entity synchronization mesh.
//!
//! A `LocalDiffModel` owns the entities one peer simulates: every tick it
//! folds freshly sampled state into per-entity snapshots, and `make_diff`
//! turns the snapshots into an ordered stream of update events that other
//! peers can apply. A `RemoteDiffModel` consumes one peer's stream, keeps a
//! shadow snapshot per entity, and plans how the local proxy entities must
//! be mutated to match. Authority over an entity lives at exactly one peer
//! at a time; release and transfer are first-class transitions of the local
//! model.

use vstd::prelude::*;

mod assoc;
mod bindings;
mod ctx;
mod des;
mod ids;
mod laws;
mod local;
mod prepare;
mod remote;

pub use bindings::{PlayerRegistry, ProxyBindings};
pub use ctx::{ModuleCtx, DEFAULT_TICKRATE};
pub use des::{
    DesToProxy, EntityInfo, EntityInfoV, EntityKind, EntitySpawnInfo, EntitySpawnInfoV,
    EntityUpdate, EntityUpdateV, FullEntityData, GameEffectData, InterestRequest, PhysBodyInfo,
    ProjectileFired, ProjectileFiredV, ProxyToDes, RemoteDes, SpawnOnce, SpawnOnceV,
    UpdatePosition, WandData, WandDataV,
};
pub use ids::{EntityHandle, Gid, Lid, PeerId, WorldPos};
pub use prepare::{
    marker_int, should_strip_on_spawn, should_strip_script, wand_fate, HeldWand, LuaScripts,
    WandFate,
};
pub use remote::{
    apply_stream_v, apply_update_v, blame_entity, drop_value, gid_lookup, hp_damage_target,
    lemma_hp_sync_never_heals, one_remote_death, postponed_lids, projectile_plans,
    remote_death_plans, removals_fold, stain_is_rolling, stain_roll_value, wizard_child_fate,
    ChildFate, DeathPlan, RemoteAction, RemoteDiffModel, RemoteV, RemovalPlan,
};
pub use laws::{
    authority_disjoint, block_payload, events_for, events_for_from, fold_setters, is_field_setter,
    lemma_disjoint_step, lemma_disjoint_stream, lemma_field_events_setters,
    lemma_first_block_is_full_init, lemma_fresh_entity_first_stream,
    lemma_handoff_exactly_one_verdict, lemma_init_binds_waiting, lemma_init_then_sets,
    lemma_localize_entity, lemma_stream_applies_own_payload, lemma_unchanged_entity_is_silent,
    remote_has_proxy_gid, set_once,
};
pub use local::{
    classify_entity, choose_spawn_info, drops_gold_rule, entity_is_item, is_wand_ghost_file,
    wizard_mask_of, DeathNotify, EntityEntryPair, EntitySample, GrabOutcome, InitialEntityState,
    ItemAnimation, LocalDiffModel, LocalUpdateKind, LocalUpdateOutcome, SpriteSample, StainsSample,
};

verus! {

/// Planar radius around a peer's camera inside which it keeps authority
/// over the entities it simulates, in world units.
pub const AUTHORITY_RADIUS: i32 = 600;

/// Radius used when searching for a peer that can take over an entity that
/// left the authority radius; deliberately smaller than `AUTHORITY_RADIUS`
/// so a transferred entity starts well inside its new owner's range.
pub const TRANSFER_RADIUS: i32 = 300;

/// Radius, around a peer's position, of the area whose entities the peer
/// asks to be told about.
pub const INTEREST_REQUEST_RADIUS: i32 = 900;

/// Radius inside which a peer asks for authority over unowned entities.
pub const REQUEST_AUTHORITY_RADIUS: i32 = 400;

} // verus!
