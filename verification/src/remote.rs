//! Remote diff model: one per remote peer.
//!
//! It consumes that peer's ordered update stream, maintains a shadow
//! snapshot per stream-local id and a binding from ids to locally spawned
//! proxy entities, and plans how the live simulation must be mutated each
//! tick to match the shadows. It also owns the inverse transfer path: a
//! live entity awaiting its new id is bound as soon as the init for its
//! global id arrives, instead of being spawned a second time.

use vstd::prelude::*;

use crate::assoc::{
    assoc_has, assoc_map, assoc_unique, lemma_assoc_at, lemma_assoc_dom, lemma_assoc_push,
    lemma_assoc_remove, lemma_assoc_update,
};
use crate::bindings::ProxyBindings;
use crate::ctx::ModuleCtx;
use crate::des::{EntityInfo, EntityInfoV, EntityUpdate, EntityUpdateV, ProjectileFired};
use crate::ids::{EntityHandle, Gid, Lid, PeerId};

verus! {

/// An engine-side action the caller performs after feeding the stream in.
#[derive(Debug, Clone, Copy, PartialEq, Eq, Structural)]
pub enum RemoteAction {
    /// A live entity that was awaiting this global id is now bound to the
    /// given stream id; prepare it as a synchronized proxy.
    BindExisting { entity: EntityHandle, lid: Lid, gid: Gid },
    /// Destroy this proxy: its entity was localized to another peer.
    KillProxy { entity: EntityHandle },
}

/// Ghost image of a remote model mid-stream.
#[verifier::ext_equal]
pub struct RemoteV {
    pub infos: Map<Lid, EntityInfoV>,
    pub gids: Map<Lid, Gid>,
    pub waiting: Map<Gid, EntityHandle>,
    pub proxies: Map<Lid, EntityHandle>,
    pub pending_remove: Seq<Lid>,
    pub pending_death: Seq<(Lid, bool, Option<PeerId>)>,
    pub cursor: Option<Lid>,
}

/// The map minus every key bound to `v`.
pub open spec fn drop_value(m: Map<Lid, EntityHandle>, v: EntityHandle) -> Map<Lid, EntityHandle> {
    Map::new(|l: Lid| m.dom().contains(l) && m[l] != v, |l: Lid| m[l])
}

/// One stream element applied to the ghost state: the cursor moves on
/// headers, field setters hit the addressed shadow, and events with no
/// valid cursor are dropped. Returns the emitted engine-side actions.
pub open spec fn apply_update_v(st: RemoteV, u: EntityUpdateV, my_peer: PeerId) -> (
    RemoteV,
    Seq<RemoteAction>,
) {
    match u {
        EntityUpdateV::CurrentEntity(lid) => (RemoteV { cursor: Some(lid), ..st }, Seq::empty()),
        EntityUpdateV::Init(info, gid) => match st.cursor {
            None => (st, Seq::empty()),
            Some(lid) => {
                if st.waiting.dom().contains(gid) {
                    let ent = st.waiting[gid];
                    (
                        RemoteV {
                            infos: st.infos.insert(lid, info),
                            gids: st.gids.insert(lid, gid),
                            waiting: st.waiting.remove(gid),
                            proxies: drop_value(st.proxies, ent).insert(lid, ent),
                            ..st
                        },
                        seq![RemoteAction::BindExisting { entity: ent, lid, gid }],
                    )
                } else {
                    (
                        RemoteV {
                            infos: st.infos.insert(lid, info),
                            gids: st.gids.insert(lid, gid),
                            ..st
                        },
                        Seq::empty(),
                    )
                }
            },
        },
        EntityUpdateV::LocalizeEntity(lid, peer) => {
            let kills = st.proxies.dom().contains(lid) && peer != my_peer;
            (
                RemoteV {
                    infos: st.infos.remove(lid),
                    proxies: st.proxies.remove(lid),
                    cursor: None,
                    ..st
                },
                if kills {
                    seq![RemoteAction::KillProxy { entity: st.proxies[lid] }]
                } else {
                    Seq::empty()
                },
            )
        },
        _ => match st.cursor {
            None => (st, Seq::empty()),
            Some(lid) => {
                if st.infos.dom().contains(lid) {
                    let o = st.infos[lid];
                    match u {
                        EntityUpdateV::SetPosition(x, y) => (
                            RemoteV { infos: st.infos.insert(lid, EntityInfoV { x, y, ..o }), ..st },
                            Seq::empty(),
                        ),
                        EntityUpdateV::SetRotation(r) => (
                            RemoteV { infos: st.infos.insert(lid, EntityInfoV { r, ..o }), ..st },
                            Seq::empty(),
                        ),
                        EntityUpdateV::SetVelocity(vx, vy) => (
                            RemoteV {
                                infos: st.infos.insert(lid, EntityInfoV { vx, vy, ..o }),
                                ..st
                            },
                            Seq::empty(),
                        ),
                        EntityUpdateV::SetHp(hp) => (
                            RemoteV { infos: st.infos.insert(lid, EntityInfoV { hp, ..o }), ..st },
                            Seq::empty(),
                        ),
                        EntityUpdateV::SetPhysInfo(phys) => (
                            RemoteV {
                                infos: st.infos.insert(lid, EntityInfoV { phys, ..o }),
                                ..st
                            },
                            Seq::empty(),
                        ),
                        EntityUpdateV::SetCost(cost) => (
                            RemoteV {
                                infos: st.infos.insert(lid, EntityInfoV { cost, ..o }),
                                ..st
                            },
                            Seq::empty(),
                        ),
                        EntityUpdateV::SetAnimations(animations) => (
                            RemoteV {
                                infos: st.infos.insert(lid, EntityInfoV { animations, ..o }),
                                ..st
                            },
                            Seq::empty(),
                        ),
                        EntityUpdateV::SetStains(current_stains) => (
                            RemoteV {
                                infos: st.infos.insert(lid, EntityInfoV { current_stains, ..o }),
                                ..st
                            },
                            Seq::empty(),
                        ),
                        EntityUpdateV::SetGameEffects(game_effects) => (
                            RemoteV {
                                infos: st.infos.insert(lid, EntityInfoV { game_effects, ..o }),
                                ..st
                            },
                            Seq::empty(),
                        ),
                        EntityUpdateV::SetAiState(ai_state) => (
                            RemoteV {
                                infos: st.infos.insert(lid, EntityInfoV { ai_state, ..o }),
                                ..st
                            },
                            Seq::empty(),
                        ),
                        EntityUpdateV::SetAiRotation(ai_rotation) => (
                            RemoteV {
                                infos: st.infos.insert(lid, EntityInfoV { ai_rotation, ..o }),
                                ..st
                            },
                            Seq::empty(),
                        ),
                        EntityUpdateV::SetLimbs(limbs) => (
                            RemoteV {
                                infos: st.infos.insert(lid, EntityInfoV { limbs, ..o }),
                                ..st
                            },
                            Seq::empty(),
                        ),
                        EntityUpdateV::SetIsEnabled(is_enabled) => (
                            RemoteV {
                                infos: st.infos.insert(lid, EntityInfoV { is_enabled, ..o }),
                                ..st
                            },
                            Seq::empty(),
                        ),
                        EntityUpdateV::SetCounter(counter) => (
                            RemoteV {
                                infos: st.infos.insert(lid, EntityInfoV { counter, ..o }),
                                ..st
                            },
                            Seq::empty(),
                        ),
                        EntityUpdateV::SetWand(wand) => (
                            RemoteV {
                                infos: st.infos.insert(lid, EntityInfoV { wand, ..o }),
                                ..st
                            },
                            Seq::empty(),
                        ),
                        EntityUpdateV::SetLaser(laser) => (
                            RemoteV {
                                infos: st.infos.insert(lid, EntityInfoV { laser, ..o }),
                                ..st
                            },
                            Seq::empty(),
                        ),
                        EntityUpdateV::SetFacingDirection(facing_direction) => (
                            RemoteV {
                                infos: st.infos.insert(lid, EntityInfoV { facing_direction, ..o }),
                                ..st
                            },
                            Seq::empty(),
                        ),
                        EntityUpdateV::RemoveEntity(l2) => (
                            RemoteV { pending_remove: st.pending_remove.push(l2), ..st },
                            Seq::empty(),
                        ),
                        EntityUpdateV::KillEntity { lid: l2, wait_on_kill, responsible_peer } => (
                            RemoteV {
                                pending_death: st.pending_death.push(
                                    (l2, wait_on_kill, responsible_peer),
                                ),
                                ..st
                            },
                            Seq::empty(),
                        ),
                        _ => (st, Seq::empty()),
                    }
                } else {
                    (st, Seq::empty())
                }
            },
        },
    }
}

/// A whole stream applied in order, with the actions it emits.
pub open spec fn apply_stream_v(st: RemoteV, ups: Seq<EntityUpdateV>, my_peer: PeerId) -> (
    RemoteV,
    Seq<RemoteAction>,
)
    decreases ups.len(),
{
    if ups.len() == 0 {
        (st, Seq::empty())
    } else {
        let prev = apply_stream_v(st, ups.drop_last(), my_peer);
        let step = apply_update_v(prev.0, ups.last(), my_peer);
        (step.0, prev.1 + step.1)
    }
}

/// The shadow state a remote peer's stream reconstructs at this peer.
pub struct RemoteDiffModel {
    bound_entities: ProxyBindings,
    entity_infos: Vec<(Lid, EntityInfo)>,
    lid_to_gid: Vec<(Lid, Gid)>,
    waiting_for_lid: Vec<(Gid, EntityHandle)>,
    backtrack: Vec<EntityHandle>,
    grab_request: Vec<Lid>,
    pending_remove: Vec<Lid>,
    pending_death_notify: Vec<(Lid, bool, Option<PeerId>)>,
    postponed_remove: Vec<Lid>,
    peer_id: PeerId,
}

impl RemoteDiffModel {
    pub closed spec fn infos_seq(self) -> Seq<(Lid, EntityInfo)> {
        self.entity_infos@
    }

    pub closed spec fn gids_seq(self) -> Seq<(Lid, Gid)> {
        self.lid_to_gid@
    }

    pub closed spec fn waiting_seq(self) -> Seq<(Gid, EntityHandle)> {
        self.waiting_for_lid@
    }

    pub closed spec fn tracked_of(self) -> ProxyBindings {
        self.bound_entities
    }

    pub closed spec fn backtrack_seq(self) -> Seq<EntityHandle> {
        self.backtrack@
    }

    pub closed spec fn grab_request_seq(self) -> Seq<Lid> {
        self.grab_request@
    }

    pub closed spec fn pending_remove_seq(self) -> Seq<Lid> {
        self.pending_remove@
    }

    pub closed spec fn pending_death_seq(self) -> Seq<(Lid, bool, Option<PeerId>)> {
        self.pending_death_notify@
    }

    pub closed spec fn postponed_seq(self) -> Seq<Lid> {
        self.postponed_remove@
    }

    pub closed spec fn peer_id_spec(self) -> PeerId {
        self.peer_id
    }

    /// The shadow snapshots, as a map.
    pub open spec fn infos_map(self) -> Map<Lid, EntityInfoV> {
        assoc_map(self.infos_seq())
    }

    /// The stream-id-to-global-id correlation, as a map.
    pub open spec fn gids_map(self) -> Map<Lid, Gid> {
        assoc_map(self.gids_seq())
    }

    /// The live entities awaiting an id for their global id, as a map.
    pub open spec fn waiting_map(self) -> Map<Gid, EntityHandle> {
        assoc_map(self.waiting_seq())
    }

    pub open spec fn wf(self) -> bool {
        &&& self.tracked_of().wf()
        &&& assoc_unique(self.infos_seq())
        &&& assoc_unique(self.gids_seq())
        &&& assoc_unique(self.waiting_seq())
    }

    /// This model mid-stream, as a ghost state.
    pub open spec fn state_v(self, cursor: Option<Lid>) -> RemoteV {
        RemoteV {
            infos: self.infos_map(),
            gids: self.gids_map(),
            waiting: self.waiting_map(),
            proxies: self.tracked_of().to_map(),
            pending_remove: self.pending_remove_seq(),
            pending_death: self.pending_death_seq(),
            cursor,
        }
    }

    /// Two states agree on everything a stream can change.
    pub open spec fn matches_state(self, st: RemoteV) -> bool {
        &&& self.infos_map() == st.infos
        &&& self.gids_map() == st.gids
        &&& self.waiting_map() == st.waiting
        &&& self.tracked_of().to_map() == st.proxies
        &&& self.pending_remove_seq() == st.pending_remove
        &&& self.pending_death_seq() == st.pending_death
    }

    pub fn new(peer_id: PeerId) -> (r: RemoteDiffModel)
        ensures
            r.wf(),
            r.peer_id_spec() == peer_id,
            r.infos_seq().len() == 0,
            r.gids_seq().len() == 0,
            r.waiting_seq().len() == 0,
            r.tracked_of()@.len() == 0,
            r.backtrack_seq().len() == 0,
            r.grab_request_seq().len() == 0,
            r.pending_remove_seq().len() == 0,
            r.pending_death_seq().len() == 0,
            r.postponed_seq().len() == 0,
    {
        RemoteDiffModel {
            bound_entities: ProxyBindings::new(),
            entity_infos: Vec::new(),
            lid_to_gid: Vec::new(),
            waiting_for_lid: Vec::new(),
            backtrack: Vec::new(),
            grab_request: Vec::new(),
            pending_remove: Vec::new(),
            pending_death_notify: Vec::new(),
            postponed_remove: Vec::new(),
            peer_id,
        }
    }

    /// Remembers a live entity that is mid-transfer: the next init carrying
    /// its global id binds it instead of spawning a second proxy.
    pub fn wait_for_gid(&mut self, entity: EntityHandle, gid: Gid)
        requires
            old(self).wf(),
        ensures
            final(self).wf(),
            final(self).waiting_map() == old(self).waiting_map().insert(gid, entity),
            final(self).infos_seq() == old(self).infos_seq(),
            final(self).gids_seq() == old(self).gids_seq(),
            final(self).tracked_of() == old(self).tracked_of(),
            final(self).pending_remove_seq() == old(self).pending_remove_seq(),
            final(self).pending_death_seq() == old(self).pending_death_seq(),
            final(self).backtrack_seq() == old(self).backtrack_seq(),
            final(self).grab_request_seq() == old(self).grab_request_seq(),
            final(self).postponed_seq() == old(self).postponed_seq(),
            final(self).peer_id_spec() == old(self).peer_id_spec(),
    {
        let mut i: usize = 0;
        while i < self.waiting_for_lid.len()
            invariant
                *self == *old(self),
                old(self).wf(),
                i <= self.waiting_for_lid@.len(),
                forall|k: int| 0 <= k < i ==> (#[trigger] self.waiting_for_lid@[k]).0 != gid,
            decreases self.waiting_for_lid@.len() - i,
        {
            if self.waiting_for_lid[i].0 == gid {
                let ghost prev = self.waiting_for_lid@;
                let e = (gid, entity);
                let old_e = self.waiting_for_lid.remove(i);
                self.waiting_for_lid.insert(i, e);
                proof {
                    assert(self.waiting_for_lid@ =~= prev.update(i as int, e));
                    lemma_assoc_update::<Gid, EntityHandle>(prev, i as int, e);
                }
                return ;
            }
            i = i + 1;
        }
        let ghost prev = self.waiting_for_lid@;
        self.waiting_for_lid.push((gid, entity));
        proof {
            if assoc_has(prev, gid) {
                let k = choose|k: int| 0 <= k < prev.len() && (#[trigger] prev[k]).0 == gid;
                assert(false);
            }
            lemma_assoc_push::<Gid, EntityHandle>(prev, (gid, entity));
        }
    }
}


impl RemoteDiffModel {
    /// Takes the shadow snapshot stored under `lid` out of the store.
    fn info_take(&mut self, lid: Lid) -> (r: Option<EntityInfo>)
        requires
            old(self).wf(),
        ensures
            final(self).wf(),
            match r {
                Some(info) => old(self).infos_map().dom().contains(lid) && info@ == old(
                    self,
                ).infos_map()[lid] && final(self).infos_map() == old(self).infos_map().remove(lid),
                None => !old(self).infos_map().dom().contains(lid) && final(self).infos_seq()
                    == old(self).infos_seq(),
            },
            final(self).gids_seq() == old(self).gids_seq(),
            final(self).waiting_seq() == old(self).waiting_seq(),
            final(self).tracked_of() == old(self).tracked_of(),
            final(self).pending_remove_seq() == old(self).pending_remove_seq(),
            final(self).pending_death_seq() == old(self).pending_death_seq(),
            final(self).backtrack_seq() == old(self).backtrack_seq(),
            final(self).grab_request_seq() == old(self).grab_request_seq(),
            final(self).postponed_seq() == old(self).postponed_seq(),
            final(self).peer_id_spec() == old(self).peer_id_spec(),
    {
        let mut i: usize = 0;
        while i < self.entity_infos.len()
            invariant
                *self == *old(self),
                old(self).wf(),
                i <= self.entity_infos@.len(),
                forall|k: int| 0 <= k < i ==> (#[trigger] self.entity_infos@[k]).0 != lid,
            decreases self.entity_infos@.len() - i,
        {
            if self.entity_infos[i].0 == lid {
                let ghost prev = self.entity_infos@;
                let e = self.entity_infos.remove(i);
                proof {
                    lemma_assoc_at::<Lid, EntityInfo>(prev, i as int);
                    lemma_assoc_remove::<Lid, EntityInfo>(prev, i as int);
                }
                return Some(e.1);
            }
            i = i + 1;
        }
        proof {
            lemma_assoc_dom::<Lid, EntityInfo>(self.entity_infos@);
            if assoc_has(self.entity_infos@, lid) {
                let k = choose|k: int|
                    0 <= k < self.entity_infos@.len() && (#[trigger] self.entity_infos@[k]).0
                        == lid;
                assert(false);
            }
        }
        None
    }

    /// Whether a shadow snapshot is stored under `lid`.
    fn info_has(&self, lid: Lid) -> (r: bool)
        requires
            self.wf(),
        ensures
            r == self.infos_map().dom().contains(lid),
    {
        let mut i: usize = 0;
        proof {
            lemma_assoc_dom::<Lid, EntityInfo>(self.entity_infos@);
        }
        while i < self.entity_infos.len()
            invariant
                self.wf(),
                i <= self.entity_infos@.len(),
                forall|k: int| 0 <= k < i ==> (#[trigger] self.entity_infos@[k]).0 != lid,
                self.infos_map().dom().contains(lid) == assoc_has(self.infos_seq(), lid),
            decreases self.entity_infos@.len() - i,
        {
            if self.entity_infos[i].0 == lid {
                proof {
                    assert((self.entity_infos@[i as int]).0 == lid);
                }
                return true;
            }
            i = i + 1;
        }
        proof {
            if assoc_has(self.entity_infos@, lid) {
                let k = choose|k: int|
                    0 <= k < self.entity_infos@.len() && (#[trigger] self.entity_infos@[k]).0
                        == lid;
                assert(false);
            }
        }
        false
    }

    /// Stores a shadow snapshot under a key not currently present.
    fn info_store(&mut self, lid: Lid, info: EntityInfo)
        requires
            old(self).wf(),
            !old(self).infos_map().dom().contains(lid),
        ensures
            final(self).wf(),
            final(self).infos_map() == old(self).infos_map().insert(lid, info@),
            final(self).gids_seq() == old(self).gids_seq(),
            final(self).waiting_seq() == old(self).waiting_seq(),
            final(self).tracked_of() == old(self).tracked_of(),
            final(self).pending_remove_seq() == old(self).pending_remove_seq(),
            final(self).pending_death_seq() == old(self).pending_death_seq(),
            final(self).backtrack_seq() == old(self).backtrack_seq(),
            final(self).grab_request_seq() == old(self).grab_request_seq(),
            final(self).postponed_seq() == old(self).postponed_seq(),
            final(self).peer_id_spec() == old(self).peer_id_spec(),
    {
        let ghost prev = self.entity_infos@;
        proof {
            lemma_assoc_dom::<Lid, EntityInfo>(prev);
        }
        self.entity_infos.push((lid, info));
        proof {
            lemma_assoc_push::<Lid, EntityInfo>(prev, (lid, info));
        }
    }

    /// Records the global id of a stream id (overwriting any previous one).
    fn gid_store(&mut self, lid: Lid, gid: Gid)
        requires
            old(self).wf(),
        ensures
            final(self).wf(),
            final(self).gids_map() == old(self).gids_map().insert(lid, gid),
            final(self).infos_seq() == old(self).infos_seq(),
            final(self).waiting_seq() == old(self).waiting_seq(),
            final(self).tracked_of() == old(self).tracked_of(),
            final(self).pending_remove_seq() == old(self).pending_remove_seq(),
            final(self).pending_death_seq() == old(self).pending_death_seq(),
            final(self).backtrack_seq() == old(self).backtrack_seq(),
            final(self).grab_request_seq() == old(self).grab_request_seq(),
            final(self).postponed_seq() == old(self).postponed_seq(),
            final(self).peer_id_spec() == old(self).peer_id_spec(),
    {
        let mut i: usize = 0;
        while i < self.lid_to_gid.len()
            invariant
                *self == *old(self),
                old(self).wf(),
                i <= self.lid_to_gid@.len(),
                forall|k: int| 0 <= k < i ==> (#[trigger] self.lid_to_gid@[k]).0 != lid,
            decreases self.lid_to_gid@.len() - i,
        {
            if self.lid_to_gid[i].0 == lid {
                let ghost prev = self.lid_to_gid@;
                self.lid_to_gid.remove(i);
                self.lid_to_gid.insert(i, (lid, gid));
                proof {
                    assert(self.lid_to_gid@ =~= prev.update(i as int, (lid, gid)));
                    lemma_assoc_update::<Lid, Gid>(prev, i as int, (lid, gid));
                }
                return ;
            }
            i = i + 1;
        }
        let ghost prev = self.lid_to_gid@;
        self.lid_to_gid.push((lid, gid));
        proof {
            if assoc_has(prev, lid) {
                let k = choose|k: int| 0 <= k < prev.len() && (#[trigger] prev[k]).0 == lid;
                assert(false);
            }
            lemma_assoc_push::<Lid, Gid>(prev, (lid, gid));
        }
    }

    /// Takes the live entity awaiting this global id, if one is.
    fn waiting_take(&mut self, gid: Gid) -> (r: Option<EntityHandle>)
        requires
            old(self).wf(),
        ensures
            final(self).wf(),
            match r {
                Some(h) => old(self).waiting_map().dom().contains(gid) && h == old(
                    self,
                ).waiting_map()[gid] && final(self).waiting_map() == old(
                    self,
                ).waiting_map().remove(gid),
                None => !old(self).waiting_map().dom().contains(gid) && final(self).waiting_seq()
                    == old(self).waiting_seq(),
            },
            final(self).infos_seq() == old(self).infos_seq(),
            final(self).gids_seq() == old(self).gids_seq(),
            final(self).tracked_of() == old(self).tracked_of(),
            final(self).pending_remove_seq() == old(self).pending_remove_seq(),
            final(self).pending_death_seq() == old(self).pending_death_seq(),
            final(self).backtrack_seq() == old(self).backtrack_seq(),
            final(self).grab_request_seq() == old(self).grab_request_seq(),
            final(self).postponed_seq() == old(self).postponed_seq(),
            final(self).peer_id_spec() == old(self).peer_id_spec(),
    {
        let mut i: usize = 0;
        while i < self.waiting_for_lid.len()
            invariant
                *self == *old(self),
                old(self).wf(),
                i <= self.waiting_for_lid@.len(),
                forall|k: int| 0 <= k < i ==> (#[trigger] self.waiting_for_lid@[k]).0 != gid,
            decreases self.waiting_for_lid@.len() - i,
        {
            if self.waiting_for_lid[i].0 == gid {
                let ghost prev = self.waiting_for_lid@;
                let e = self.waiting_for_lid.remove(i);
                proof {
                    lemma_assoc_at::<Gid, EntityHandle>(prev, i as int);
                    lemma_assoc_remove::<Gid, EntityHandle>(prev, i as int);
                }
                return Some(e.1);
            }
            i = i + 1;
        }
        proof {
            lemma_assoc_dom::<Gid, EntityHandle>(self.waiting_for_lid@);
            if assoc_has(self.waiting_for_lid@, gid) {
                let k = choose|k: int|
                    0 <= k < self.waiting_for_lid@.len() && (#[trigger] self.waiting_for_lid@[k]).0
                        == gid;
                assert(false);
            }
        }
        None
    }

    /// Applies one stream element under the given cursor; returns the new
    /// cursor and the engine-side action the element demands, if any.
    #[verifier::rlimit(100)]
    #[verifier::spinoff_prover]
    pub fn apply_update(&mut self, cursor: Option<Lid>, u: &EntityUpdate, my_peer: PeerId) -> (r: (
        Option<Lid>,
        Option<RemoteAction>,
    ))
        requires
            old(self).wf(),
        ensures
            final(self).wf(),
            ({
                let stepped = apply_update_v(old(self).state_v(cursor), u@, my_peer);
                &&& final(self).matches_state(stepped.0)
                &&& r.0 == stepped.0.cursor
                &&& (match r.1 {
                    Some(a) => stepped.1 == seq![a],
                    None => stepped.1 == Seq::<RemoteAction>::empty(),
                })
            }),
            final(self).backtrack_seq() == old(self).backtrack_seq(),
            final(self).grab_request_seq() == old(self).grab_request_seq(),
            final(self).postponed_seq() == old(self).postponed_seq(),
            final(self).peer_id_spec() == old(self).peer_id_spec(),
    {
        proof {
            old(self).tracked_of().lemma_to_map();
        }
        match u {
            EntityUpdate::CurrentEntity(lid) => (Some(*lid), None),
            EntityUpdate::Init(info, gid) => {
                match cursor {
                    None => (cursor, None),
                    Some(lid) => {
                        let stored = info.duplicate();
                        self.info_take(lid);
                        self.info_store(lid, stored);
                        self.gid_store(lid, *gid);
                        proof {
                            assert(self.infos_map() =~= old(self).infos_map().insert(
                                lid,
                                (info)@,
                            ));
                        }
                        let waiting = self.waiting_take(*gid);
                        match waiting {
                            Some(ent) => {
                                let ghost pre = self.bound_entities;
                                self.bound_entities.insert(lid, ent);
                                proof {
                                    pre.lemma_to_map();
                                    self.bound_entities.lemma_to_map();
                                    assert(self.bound_entities.to_map() =~= drop_value(
                                        pre.to_map(),
                                        ent,
                                    ).insert(lid, ent)) by {
                                        let post = self.bound_entities;
                                        assert forall|l2: Lid|
                                            post.to_map().dom().contains(l2) <==> (drop_value(
                                                pre.to_map(),
                                                ent,
                                            ).insert(lid, ent)).dom().contains(l2) by {
                                            if post.to_map().dom().contains(l2) {
                                                assert(post.has_lid(l2));
                                                let h2 = post.lemma_has_lid_witness(l2);
                                            }
                                            if (drop_value(pre.to_map(), ent).insert(
                                                lid,
                                                ent,
                                            )).dom().contains(l2) {
                                                if l2 == lid {
                                                    assert(post.binds(lid, ent));
                                                    post.lemma_binds_members(lid, ent);
                                                } else {
                                                    assert(pre.to_map().dom().contains(l2));
                                                    assert(pre.has_lid(l2));
                                                    let h2 = pre.lemma_has_lid_witness(l2);
                                                    assert(post.binds(l2, h2));
                                                    post.lemma_binds_members(l2, h2);
                                                }
                                            }
                                        }
                                        assert forall|l2: Lid|
                                            post.to_map().dom().contains(l2) implies
                                            post.to_map()[l2] == (drop_value(pre.to_map(), ent).insert(
                                                lid,
                                                ent,
                                            ))[l2] by {
                                            assert(post.has_lid(l2));
                                            let h2 = post.lemma_has_lid_witness(l2);
                                            assert(post.to_map()[l2] == h2);
                                            if l2 == lid {
                                                assert(h2 == ent);
                                            } else {
                                                assert(pre.binds(l2, h2));
                                            }
                                        }
                                    }
                                }
                                (
                                    Some(lid),
                                    Some(RemoteAction::BindExisting { entity: ent, lid, gid: *gid }),
                                )
                            },
                            None => (Some(lid), None),
                        }
                    },
                }
            },
            EntityUpdate::LocalizeEntity(lid, peer) => {
                let ghost pre = self.bound_entities;
                let removed = self.bound_entities.remove_by_left(*lid);
                self.info_take(*lid);
                proof {
                    pre.lemma_to_map();
                    self.bound_entities.lemma_to_map();
                    assert(self.bound_entities.to_map() =~= pre.to_map().remove(*lid)) by {
                        let post = self.bound_entities;
                        assert forall|l2: Lid|
                            post.to_map().dom().contains(l2) <==> (pre.to_map().remove(
                                *lid,
                            )).dom().contains(l2) by {
                            if post.to_map().dom().contains(l2) {
                                let h2 = post.lemma_has_lid_witness(l2);
                                assert(pre.binds(l2, h2));
                            }
                            if (pre.to_map().remove(*lid)).dom().contains(l2) {
                                let h2 = pre.lemma_has_lid_witness(l2);
                                assert(post.binds(l2, h2));
                                post.lemma_binds_members(l2, h2);
                            }
                        }
                        assert forall|l2: Lid| post.to_map().dom().contains(l2) implies
                            post.to_map()[l2] == (pre.to_map().remove(*lid))[l2] by {
                            let h2 = post.lemma_has_lid_witness(l2);
                            assert(pre.binds(l2, h2));
                        }
                    }
                    assert(self.infos_map() =~= old(self).infos_map().remove(*lid));
                    match removed {
                        Some(p) => {
                            assert(pre.to_map().dom().contains(*lid) && pre.to_map()[*lid] == p.1);
                        },
                        None => {
                            if pre.to_map().dom().contains(*lid) {
                                assert(pre.has_lid(*lid));
                            }
                        },
                    }
                }
                match removed {
                    Some(p) => {
                        if peer.0 != my_peer.0 {
                            (None, Some(RemoteAction::KillProxy { entity: p.1 }))
                        } else {
                            (None, None)
                        }
                    },
                    None => (None, None),
                }
            },
            _ => {
                match cursor {
                    None => (cursor, None),
                    Some(lid) => {
                        match u {
                            EntityUpdate::RemoveEntity(l2) => {
                                if self.info_has(lid) {
                                    self.pending_remove.push(*l2);
                                }
                                return (cursor, None);
                            },
                            EntityUpdate::KillEntity { lid: l2, wait_on_kill, responsible_peer } => {
                                if self.info_has(lid) {
                                    self.pending_death_notify.push(
                                        (*l2, *wait_on_kill, *responsible_peer),
                                    );
                                }
                                return (cursor, None);
                            },
                            _ => {},
                        }
                        let taken = self.info_take(lid);
                        match taken {
                            None => (cursor, None),
                            Some(mut info) => {
                                let ghost o = old(self).infos_map()[lid];
                                match u {
                                    EntityUpdate::SetPosition(x, y) => {
                                        info.x = *x;
                                        info.y = *y;
                                    },
                                    EntityUpdate::SetRotation(rr) => {
                                        info.r = *rr;
                                    },
                                    EntityUpdate::SetVelocity(vx, vy) => {
                                        info.vx = *vx;
                                        info.vy = *vy;
                                    },
                                    EntityUpdate::SetHp(hp) => {
                                        info.hp = *hp;
                                    },
                                    EntityUpdate::SetPhysInfo(v) => {
                                        info.phys = crate::des::dup_phys(v);
                                    },
                                    EntityUpdate::SetCost(c) => {
                                        info.cost = *c;
                                    },
                                    EntityUpdate::SetAnimations(a) => {
                                        info.animations = crate::des::dup_animations(a);
                                    },
                                    EntityUpdate::SetStains(st) => {
                                        info.current_stains = *st;
                                    },
                                    EntityUpdate::SetGameEffects(e) => {
                                        info.game_effects = crate::des::dup_effects(e);
                                    },
                                    EntityUpdate::SetAiState(a) => {
                                        info.ai_state = *a;
                                    },
                                    EntityUpdate::SetAiRotation(a) => {
                                        info.ai_rotation = *a;
                                    },
                                    EntityUpdate::SetLimbs(l) => {
                                        info.limbs = crate::des::dup_limbs(l);
                                    },
                                    EntityUpdate::SetIsEnabled(e) => {
                                        info.is_enabled = *e;
                                    },
                                    EntityUpdate::SetCounter(c) => {
                                        info.counter = *c;
                                    },
                                    EntityUpdate::SetWand(w) => {
                                        info.wand = crate::des::dup_wand(w);
                                    },
                                    EntityUpdate::SetLaser(l) => {
                                        info.laser = *l;
                                    },
                                    EntityUpdate::SetFacingDirection(d) => {
                                        info.facing_direction = *d;
                                    },
                                    _ => {},
                                }
                                self.info_store(lid, info);
                                proof {
                                    let stepped = apply_update_v(
                                        old(self).state_v(cursor),
                                        u@,
                                        my_peer,
                                    );
                                    assert(self.infos_map() =~~= stepped.0.infos) by {
                                        let ghost iv = self.infos_map()[lid];
                                        assert(iv =~~= stepped.0.infos[lid]);
                                        assert(self.infos_map() =~= old(self).infos_map().remove(
                                            lid,
                                        ).insert(lid, iv));
                                    }
                                }
                                (cursor, None)
                            },
                        }
                    },
                }
            },
        }
    }

    /// Applies one peer's ordered update stream: a single pass that moves
    /// the entity cursor on headers, overwrites shadow snapshots on init,
    /// applies field setters to the addressed shadow in order (last write
    /// wins per field), queues removals and kills, and drops localized
    /// entities. Events with no valid addressee are ignored, never fatal.
    pub fn apply_diff(&mut self, diff: &Vec<EntityUpdate>, my_peer: PeerId) -> (actions: Vec<
        RemoteAction,
    >)
        requires
            old(self).wf(),
        ensures
            final(self).wf(),
            ({
                let fold = apply_stream_v(old(self).state_v(None), diff.deep_view(), my_peer);
                final(self).matches_state(fold.0) && actions@ == fold.1
            }),
            final(self).backtrack_seq() == old(self).backtrack_seq(),
            final(self).grab_request_seq() == old(self).grab_request_seq(),
            final(self).postponed_seq() == old(self).postponed_seq(),
            final(self).peer_id_spec() == old(self).peer_id_spec(),
    {
        let mut actions: Vec<RemoteAction> = Vec::new();
        let mut cursor: Option<Lid> = None;
        let mut i: usize = 0;
        proof {
            assert(diff.deep_view().take(0int) =~= Seq::<EntityUpdateV>::empty());
        }
        while i < diff.len()
            invariant
                old(self).wf(),
                self.wf(),
                i <= diff@.len(),
                diff.deep_view().len() == diff@.len(),
                ({
                    let fold = apply_stream_v(
                        old(self).state_v(None),
                        diff.deep_view().take(i as int),
                        my_peer,
                    );
                    self.matches_state(fold.0) && cursor == fold.0.cursor && actions@ == fold.1
                }),
                self.backtrack_seq() == old(self).backtrack_seq(),
                self.grab_request_seq() == old(self).grab_request_seq(),
                self.postponed_seq() == old(self).postponed_seq(),
                self.peer_id_spec() == old(self).peer_id_spec(),
            decreases diff@.len() - i,
        {
            let ghost pre = *self;
            let ghost pre_cursor = cursor;
            let ghost pre_actions = actions@;
            let (c2, act) = self.apply_update(cursor, &diff[i], my_peer);
            cursor = c2;
            match act {
                Some(a) => {
                    actions.push(a);
                },
                None => {},
            }
            proof {
                let dv = diff.deep_view();
                assert(dv.take(i as int + 1).drop_last() =~= dv.take(i as int));
                assert(dv.take(i as int + 1).last() == dv[i as int]);
                assert(dv[i as int] == (diff@[i as int])@);
                let foldp = apply_stream_v(old(self).state_v(None), dv.take(i as int), my_peer);
                let stepped = apply_update_v(pre.state_v(pre_cursor), (diff@[i as int])@, my_peer);
                assert(pre.state_v(pre_cursor) =~~= foldp.0) by {
                    assert(pre.matches_state(foldp.0));
                    assert(pre.state_v(pre_cursor).infos =~~= foldp.0.infos);
                    assert(pre.state_v(pre_cursor).gids =~= foldp.0.gids);
                    assert(pre.state_v(pre_cursor).waiting =~= foldp.0.waiting);
                    assert(pre.state_v(pre_cursor).proxies =~= foldp.0.proxies);
                }
                let fold = apply_stream_v(old(self).state_v(None), dv.take(i as int + 1), my_peer);
                assert(fold.0 == stepped.0 && fold.1 == foldp.1 + stepped.1);
                match act {
                    Some(a) => {
                        assert(actions@ =~= pre_actions + stepped.1);
                    },
                    None => {
                        assert(actions@ =~= pre_actions + stepped.1);
                    },
                }
            }
            i = i + 1;
        }
        proof {
            assert(diff.deep_view().take(diff@.len() as int) =~= diff.deep_view());
        }
        actions
    }
}


/// One death notification turned into engine work: finish the proxy off.
#[derive(Debug, Clone, Copy, PartialEq, Eq, Structural)]
pub struct DeathPlan {
    /// The proxy to kill.
    pub entity: EntityHandle,
    /// Clear the engine's wait-for-kill flag first (the event did not ask
    /// to wait).
    pub clear_wait_flag: bool,
    /// The killer's player entity, for damage attribution.
    pub responsible_entity: Option<EntityHandle>,
}

/// One drained removal: destroy the proxy, if one is bound.
#[derive(Debug, Clone, Copy, PartialEq, Eq, Structural)]
pub struct RemovalPlan {
    pub lid: Lid,
    pub entity: Option<EntityHandle>,
}

/// A drained-removal pass over the queue, threading the proxy bindings and
/// shadow entries: postponed ids are skipped, every other id loses both and
/// contributes one plan carrying the proxy bound at its turn.
pub open spec fn removals_fold(
    q: Seq<Lid>,
    postponed: Seq<Lid>,
    proxies: Map<Lid, EntityHandle>,
    infos: Map<Lid, EntityInfoV>,
) -> (Seq<RemovalPlan>, Map<Lid, EntityHandle>, Map<Lid, EntityInfoV>)
    decreases q.len(),
{
    if q.len() == 0 {
        (Seq::empty(), proxies, infos)
    } else {
        let prev = removals_fold(q.drop_last(), postponed, proxies, infos);
        let lid = q.last();
        if postponed.contains(lid) {
            prev
        } else {
            (
                prev.0 + seq![
                    RemovalPlan {
                        lid,
                        entity: if prev.1.dom().contains(lid) {
                            Some(prev.1[lid])
                        } else {
                            None
                        },
                    },
                ],
                prev.1.remove(lid),
                prev.2.remove(lid),
            )
        }
    }
}

/// The player entity blamed for a remote death.
pub open spec fn blame_entity(resp: Option<PeerId>, reg: crate::bindings::PlayerRegistry) -> Option<
    EntityHandle,
> {
    match resp {
        None => None,
        Some(p) => reg.spec_handle_of(p),
    }
}

/// The plan one remote death notification contributes: nothing if no proxy
/// is bound to its id.
pub open spec fn one_remote_death(
    d: (Lid, bool, Option<PeerId>),
    proxies: Map<Lid, EntityHandle>,
    reg: crate::bindings::PlayerRegistry,
) -> Seq<DeathPlan> {
    if proxies.dom().contains(d.0) {
        seq![
            DeathPlan {
                entity: proxies[d.0],
                clear_wait_flag: !d.1,
                responsible_entity: blame_entity(d.2, reg),
            },
        ]
    } else {
        Seq::empty()
    }
}

/// Plans of all drained remote death notifications, in queue order.
pub open spec fn remote_death_plans(
    q: Seq<(Lid, bool, Option<PeerId>)>,
    proxies: Map<Lid, EntityHandle>,
    reg: crate::bindings::PlayerRegistry,
) -> Seq<DeathPlan>
    decreases q.len(),
{
    if q.len() == 0 {
        Seq::empty()
    } else {
        remote_death_plans(q.drop_last(), proxies, reg) + one_remote_death(q.last(), proxies, reg)
    }
}

/// The ids whose removal a death notification postpones: those with a live
/// proxy, whose kill must be processed first.
pub open spec fn postponed_lids(
    q: Seq<(Lid, bool, Option<PeerId>)>,
    proxies: Map<Lid, EntityHandle>,
) -> Seq<Lid>
    decreases q.len(),
{
    if q.len() == 0 {
        Seq::empty()
    } else {
        postponed_lids(q.drop_last(), proxies) + (if proxies.dom().contains(q.last().0) {
            seq![q.last().0]
        } else {
            Seq::empty()
        })
    }
}

/// Health reconciliation: the health a proxy must be damaged down to, or
/// nothing when the observed health does not exceed the synced one. Damage
/// is only ever synthesized towards the synced value, never healing.
pub fn hp_damage_target(current_hp: u32, synced_hp: u32) -> (r: Option<u32>)
    ensures
        r == (if current_hp > synced_hp {
            Some(synced_hp)
        } else {
            None::<u32>
        }),
{
    if current_hp > synced_hp {
        Some(synced_hp)
    } else {
        None
    }
}

/// Death-notify and health reconciliation never raise a proxy's health:
/// whenever a damage target is produced it lies strictly below the observed
/// health, and none is produced when the synced value is not below it.
pub proof fn lemma_hp_sync_never_heals(current_hp: u32, synced_hp: u32)
    ensures
        current_hp > synced_hp ==> ((if current_hp > synced_hp {
            Some(synced_hp)
        } else {
            None::<u32>
        }) matches Some(t) && t < current_hp),
        current_hp <= synced_hp ==> (if current_hp > synced_hp {
            Some(synced_hp)
        } else {
            None::<u32>
        }) is None,
{
}

/// What a wizard boss's immunity mask says about one child: a child whose
/// slot bit is cleared dies, one whose bit is set gets its health restored
/// behind a wait-for-kill flag.
#[derive(Debug, Clone, Copy, PartialEq, Eq, Structural)]
pub enum ChildFate {
    Kill,
    RestoreHp,
}

/// Decides one wizard child's fate from the synced immunity mask.
pub fn wizard_child_fate(counter: u64, slot: i32) -> (r: ChildFate)
    ensures
        r == (if counter & crate::local::mask_bit(slot) == 0 {
            ChildFate::Kill
        } else {
            ChildFate::RestoreHp
        }),
{
    let bit: u64 = if 0 <= slot && slot < 64 {
        1u64 << (slot as u64)
    } else {
        0u64
    };
    proof {
        if !(0 <= slot < 64) {
            assert(counter & 0u64 == 0u64) by (bit_vector);
        }
    }
    if counter & bit == 0 {
        ChildFate::Kill
    } else {
        ChildFate::RestoreHp
    }
}

/// The roll value carried in a die entity's synced stain bitfield.
pub fn stain_roll_value(stains: u64) -> (r: i32)
    ensures
        r == (stains >> 32u64) as u32 as i32,
{
    ((stains >> 32u64) as u32) as i32
}

/// Whether the synced stain bitfield says the die is rolling.
pub fn stain_is_rolling(stains: u64) -> (r: bool)
    ensures
        r == ((stains & 0xFF) == 1),
{
    (stains & 0xFF) == 1
}

/// The first stream id correlated with `gid`, in correlation order.
pub open spec fn gid_lookup(s: Seq<(Lid, Gid)>, gid: Gid) -> Option<Lid>
    decreases s.len(),
{
    if s.len() == 0 {
        None
    } else if (s[0]).1 == gid {
        Some((s[0]).0)
    } else {
        gid_lookup(s.drop_first(), gid)
    }
}

proof fn lemma_gid_lookup_skip(s: Seq<(Lid, Gid)>, gid: Gid, i: int)
    requires
        0 <= i <= s.len(),
        forall|k: int| 0 <= k < i ==> (#[trigger] s[k]).1 != gid,
    ensures
        gid_lookup(s, gid) == gid_lookup(s.skip(i), gid),
    decreases i,
{
    if i > 0 {
        lemma_gid_lookup_skip(s, gid, i - 1);
        assert(s.skip(i - 1).drop_first() =~= s.skip(i));
        assert(s.skip(i - 1)[0] == s[i - 1]);
    } else {
        assert(s.skip(0) =~= s);
    }
}

impl RemoteDiffModel {
    /// The live proxy for a global id: the first stream id the stream
    /// correlated with it decides, and only its own binding counts.
    pub fn find_by_gid(&self, gid: Gid) -> (r: Option<EntityHandle>)
        requires
            self.wf(),
        ensures
            r == (match gid_lookup(self.gids_seq(), gid) {
                None => None::<EntityHandle>,
                Some(lid) => if self.tracked_of().to_map().dom().contains(lid) {
                    Some((self.tracked_of().to_map())[lid])
                } else {
                    None::<EntityHandle>
                },
            }),
    {
        proof {
            self.bound_entities.lemma_to_map();
        }
        let mut i: usize = 0;
        while i < self.lid_to_gid.len()
            invariant
                self.wf(),
                i <= self.lid_to_gid@.len(),
                forall|k: int| 0 <= k < i ==> (#[trigger] self.lid_to_gid@[k]).1 != gid,
            decreases self.lid_to_gid@.len() - i,
        {
            if self.lid_to_gid[i].1.0 == gid.0 {
                let lid = self.lid_to_gid[i].0;
                proof {
                    lemma_gid_lookup_skip(self.lid_to_gid@, gid, i as int);
                    assert(self.lid_to_gid@.skip(i as int)[0] == self.lid_to_gid@[i as int]);
                    assert(gid_lookup(self.gids_seq(), gid) == Some(lid));
                }
                let r = self.bound_entities.get_by_left(lid);
                proof {
                    self.bound_entities.lemma_to_map();
                    match r {
                        Some(h) => {},
                        None => {},
                    }
                }
                return r;
            }
            i = i + 1;
        }
        proof {
            lemma_gid_lookup_skip(self.lid_to_gid@, gid, i as int);
            assert(self.lid_to_gid@.skip(i as int).len() == 0);
        }
        None
    }

    /// Every bound proxy, for cleanup when this peer's stream ends: the
    /// model guarantees no proxy outlives it.
    pub fn remove_entities(&self) -> (r: Vec<EntityHandle>)
        ensures
            r@.len() == self.tracked_of()@.len(),
            forall|k: int|
                0 <= k < r@.len() ==> r@[k] == (#[trigger] self.tracked_of()@[k]).1,
    {
        self.bound_entities.handles()
    }

    /// Binds a freshly spawned proxy to its stream id.
    pub fn bind_spawned(&mut self, lid: Lid, entity: EntityHandle)
        requires
            old(self).wf(),
        ensures
            final(self).wf(),
            final(self).tracked_of().binds(lid, entity),
            forall|l2: Lid, h2: EntityHandle|
                final(self).tracked_of().binds(l2, h2) <==> ((l2 == lid && h2 == entity) || (old(
                    self,
                ).tracked_of().binds(l2, h2) && l2 != lid && h2 != entity)),
            final(self).infos_seq() == old(self).infos_seq(),
            final(self).gids_seq() == old(self).gids_seq(),
            final(self).waiting_seq() == old(self).waiting_seq(),
            final(self).pending_remove_seq() == old(self).pending_remove_seq(),
            final(self).pending_death_seq() == old(self).pending_death_seq(),
            final(self).backtrack_seq() == old(self).backtrack_seq(),
            final(self).grab_request_seq() == old(self).grab_request_seq(),
            final(self).postponed_seq() == old(self).postponed_seq(),
            final(self).peer_id_spec() == old(self).peer_id_spec(),
    {
        self.bound_entities.insert(lid, entity);
    }

    /// Entities queued to be tracked locally again, typically after this
    /// peer took authority over them.
    pub fn drain_backtrack(&mut self) -> (r: Vec<EntityHandle>)
        ensures
            r@ == old(self).backtrack_seq(),
            final(self).backtrack_seq().len() == 0,
            final(self).infos_seq() == old(self).infos_seq(),
            final(self).gids_seq() == old(self).gids_seq(),
            final(self).waiting_seq() == old(self).waiting_seq(),
            final(self).tracked_of() == old(self).tracked_of(),
            final(self).pending_remove_seq() == old(self).pending_remove_seq(),
            final(self).pending_death_seq() == old(self).pending_death_seq(),
            final(self).grab_request_seq() == old(self).grab_request_seq(),
            final(self).postponed_seq() == old(self).postponed_seq(),
            final(self).peer_id_spec() == old(self).peer_id_spec(),
            old(self).wf() ==> final(self).wf(),
    {
        let mut out: Vec<EntityHandle> = Vec::new();
        core::mem::swap(&mut out, &mut self.backtrack);
        out
    }

    /// Ids whose items this peer grabbed into a local inventory; the caller
    /// re-tracks them locally.
    pub fn drain_grab_request(&mut self) -> (r: Vec<Lid>)
        ensures
            r@ == old(self).grab_request_seq(),
            final(self).grab_request_seq().len() == 0,
            final(self).infos_seq() == old(self).infos_seq(),
            final(self).gids_seq() == old(self).gids_seq(),
            final(self).waiting_seq() == old(self).waiting_seq(),
            final(self).tracked_of() == old(self).tracked_of(),
            final(self).pending_remove_seq() == old(self).pending_remove_seq(),
            final(self).pending_death_seq() == old(self).pending_death_seq(),
            final(self).backtrack_seq() == old(self).backtrack_seq(),
            final(self).postponed_seq() == old(self).postponed_seq(),
            final(self).peer_id_spec() == old(self).peer_id_spec(),
            old(self).wf() ==> final(self).wf(),
    {
        let mut out: Vec<Lid> = Vec::new();
        core::mem::swap(&mut out, &mut self.grab_request);
        out
    }

    /// The shadow ids, in store order, for the per-tick reconciliation pass.
    pub fn shadow_lids(&self) -> (r: Vec<Lid>)
        ensures
            r@.len() == self.infos_seq().len(),
            forall|k: int|
                0 <= k < r@.len() ==> r@[k] == (#[trigger] self.infos_seq()[k]).0,
    {
        let mut r: Vec<Lid> = Vec::new();
        let mut i: usize = 0;
        while i < self.entity_infos.len()
            invariant
                i <= self.entity_infos@.len(),
                r@.len() == i,
                forall|k: int|
                    0 <= k < i ==> r@[k] == (#[trigger] self.entity_infos@[k]).0,
            decreases self.entity_infos@.len() - i,
        {
            r.push(self.entity_infos[i].0);
            i = i + 1;
        }
        r
    }

    /// A copy of the shadow snapshot stored under `lid`.
    pub fn shadow_of(&self, lid: Lid) -> (r: Option<EntityInfo>)
        requires
            self.wf(),
        ensures
            match r {
                Some(info) => self.infos_map().dom().contains(lid) && info@
                    == (self.infos_map())[lid],
                None => !self.infos_map().dom().contains(lid),
            },
    {
        let mut i: usize = 0;
        while i < self.entity_infos.len()
            invariant
                self.wf(),
                i <= self.entity_infos@.len(),
                forall|k: int| 0 <= k < i ==> (#[trigger] self.entity_infos@[k]).0 != lid,
            decreases self.entity_infos@.len() - i,
        {
            if self.entity_infos[i].0 == lid {
                proof {
                    lemma_assoc_at::<Lid, EntityInfo>(self.entity_infos@, i as int);
                }
                return Some(self.entity_infos[i].1.duplicate());
            }
            i = i + 1;
        }
        proof {
            lemma_assoc_dom::<Lid, EntityInfo>(self.entity_infos@);
            if assoc_has(self.entity_infos@, lid) {
                let k = choose|k: int|
                    0 <= k < self.entity_infos@.len() && (#[trigger] self.entity_infos@[k]).0
                        == lid;
                assert(false);
            }
        }
        None
    }

    /// The global id the stream named for `lid`, if any.
    pub fn gid_of(&self, lid: Lid) -> (r: Option<Gid>)
        requires
            self.wf(),
        ensures
            match r {
                Some(g) => self.gids_map().dom().contains(lid) && g == self.gids_map()[lid],
                None => !self.gids_map().dom().contains(lid),
            },
    {
        let mut i: usize = 0;
        while i < self.lid_to_gid.len()
            invariant
                self.wf(),
                i <= self.lid_to_gid@.len(),
                forall|k: int| 0 <= k < i ==> (#[trigger] self.lid_to_gid@[k]).0 != lid,
            decreases self.lid_to_gid@.len() - i,
        {
            if self.lid_to_gid[i].0 == lid {
                proof {
                    lemma_assoc_at::<Lid, Gid>(self.lid_to_gid@, i as int);
                }
                return Some(self.lid_to_gid[i].1);
            }
            i = i + 1;
        }
        proof {
            lemma_assoc_dom::<Lid, Gid>(self.lid_to_gid@);
            if assoc_has(self.lid_to_gid@, lid) {
                let k = choose|k: int|
                    0 <= k < self.lid_to_gid@.len() && (#[trigger] self.lid_to_gid@[k]).0 == lid;
                assert(false);
            }
        }
        None
    }

    /// The live proxy bound to `lid`, if any and alive per the driver.
    pub fn proxy_of(&self, lid: Lid) -> (r: Option<EntityHandle>)
        requires
            self.wf(),
        ensures
            match r {
                Some(h) => self.tracked_of().binds(lid, h),
                None => !self.tracked_of().has_lid(lid),
            },
    {
        self.bound_entities.get_by_left(lid)
    }

    /// Records that this peer grabbed the item under `lid` into a local
    /// inventory: the shadow entry is dropped and the id queued so the
    /// caller can re-track the entity locally. The proxy itself survives —
    /// it just became locally authoritative.
    pub fn grab_item(&mut self, lid: Lid)
        requires
            old(self).wf(),
        ensures
            final(self).wf(),
            final(self).infos_map() == old(self).infos_map().remove(lid),
            final(self).grab_request_seq() == old(self).grab_request_seq().push(lid),
            final(self).gids_seq() == old(self).gids_seq(),
            final(self).waiting_seq() == old(self).waiting_seq(),
            final(self).tracked_of() == old(self).tracked_of(),
            final(self).pending_remove_seq() == old(self).pending_remove_seq(),
            final(self).pending_death_seq() == old(self).pending_death_seq(),
            final(self).backtrack_seq() == old(self).backtrack_seq(),
            final(self).postponed_seq() == old(self).postponed_seq(),
            final(self).peer_id_spec() == old(self).peer_id_spec(),
    {
        self.grab_request.push(lid);
        let taken = self.info_take(lid);
        proof {
            match taken {
                Some(_) => {},
                None => {
                    assert(final(self).infos_map() =~= old(self).infos_map().remove(lid));
                },
            }
        }
    }

    /// Drains the death notifications into kill plans, postponing the
    /// removal of every id that still has a live proxy until its kill has
    /// been processed.
    pub fn drain_death_notify(&mut self, ctx: &ModuleCtx) -> (r: Vec<DeathPlan>)
        requires
            old(self).wf(),
            ctx.wf(),
        ensures
            final(self).wf(),
            r@ == remote_death_plans(
                old(self).pending_death_seq(),
                old(self).tracked_of().to_map(),
                ctx.player_entities,
            ),
            final(self).pending_death_seq().len() == 0,
            final(self).pending_remove_seq() == old(self).pending_remove_seq(),
            final(self).postponed_seq() == old(self).postponed_seq() + postponed_lids(
                old(self).pending_death_seq(),
                old(self).tracked_of().to_map(),
            ),
            final(self).infos_seq() == old(self).infos_seq(),
            final(self).gids_seq() == old(self).gids_seq(),
            final(self).waiting_seq() == old(self).waiting_seq(),
            final(self).tracked_of() == old(self).tracked_of(),
            final(self).backtrack_seq() == old(self).backtrack_seq(),
            final(self).grab_request_seq() == old(self).grab_request_seq(),
            final(self).peer_id_spec() == old(self).peer_id_spec(),
    {
        let ghost pm = self.bound_entities.to_map();
        proof {
            self.bound_entities.lemma_to_map();
        }
        let mut deaths: Vec<(Lid, bool, Option<PeerId>)> = Vec::new();
        core::mem::swap(&mut deaths, &mut self.pending_death_notify);
        let mut plans: Vec<DeathPlan> = Vec::new();
        let mut d: usize = 0;
        proof {
            assert(plans@ =~= remote_death_plans(deaths@.take(0int), pm, ctx.player_entities));
            assert(self.postponed_remove@ + postponed_lids(deaths@.take(0int), pm)
                =~= self.postponed_remove@);
        }
        let ghost base_postponed = self.postponed_remove@;
        while d < deaths.len()
            invariant
                old(self).wf(),
                self.wf(),
                ctx.wf(),
                self.bound_entities == old(self).tracked_of(),
                pm == self.bound_entities.to_map(),
                d <= deaths@.len(),
                plans@ == remote_death_plans(deaths@.take(d as int), pm, ctx.player_entities),
                self.postponed_remove@ == base_postponed + postponed_lids(
                    deaths@.take(d as int),
                    pm,
                ),
                self.pending_remove@ == old(self).pending_remove_seq(),
                self.entity_infos@ == old(self).infos_seq(),
                self.lid_to_gid@ == old(self).gids_seq(),
                self.waiting_for_lid@ == old(self).waiting_seq(),
                self.pending_death_notify@.len() == 0,
                self.backtrack@ == old(self).backtrack_seq(),
                self.grab_request@ == old(self).grab_request_seq(),
                self.peer_id == old(self).peer_id_spec(),
            decreases deaths@.len() - d,
        {
            let (lid, wait_on_kill, responsible_peer) = deaths[d];
            let responsible_entity = match responsible_peer {
                Some(p) => {
                    let h = ctx.player_entities.get_by_left(p);
                    proof {
                        match h {
                            Some(he) => {
                                ctx.player_entities.lemma_spec_handle_of(p, he);
                            },
                            None => {},
                        }
                    }
                    h
                },
                None => None,
            };
            let bound = self.bound_entities.get_by_left(lid);
            proof {
                self.bound_entities.lemma_to_map();
            }
            match bound {
                Some(ent) => {
                    plans.push(
                        DeathPlan {
                            entity: ent,
                            clear_wait_flag: !wait_on_kill,
                            responsible_entity,
                        },
                    );
                    self.postponed_remove.push(lid);
                },
                None => {},
            }
            proof {
                assert(deaths@.take(d as int + 1).drop_last() =~= deaths@.take(d as int));
                assert(deaths@.take(d as int + 1).last() == deaths@[d as int]);
                assert(plans@ =~= remote_death_plans(
                    deaths@.take(d as int + 1),
                    pm,
                    ctx.player_entities,
                ));
                assert(self.postponed_remove@ =~= base_postponed + postponed_lids(
                    deaths@.take(d as int + 1),
                    pm,
                ));
            }
            d = d + 1;
        }
        proof {
            assert(deaths@.take(deaths@.len() as int) =~= deaths@);
        }
        plans
    }

    /// Drains the queued removals: each drained id loses its proxy binding
    /// and its shadow entry and yields one plan carrying the proxy that was
    /// bound, except ids postponed by this tick's death notifications,
    /// which are skipped and stay queued for the next tick.
    pub fn drain_removals(&mut self) -> (r: Vec<RemovalPlan>)
        requires
            old(self).wf(),
        ensures
            final(self).wf(),
            ({
                let f = removals_fold(
                    old(self).pending_remove_seq(),
                    old(self).postponed_seq(),
                    old(self).tracked_of().to_map(),
                    old(self).infos_map(),
                );
                &&& r@ == f.0
                &&& final(self).tracked_of().to_map() == f.1
                &&& final(self).infos_map() == f.2
            }),
            final(self).pending_remove_seq() == old(self).postponed_seq(),
            final(self).postponed_seq().len() == 0,
            final(self).gids_seq() == old(self).gids_seq(),
            final(self).waiting_seq() == old(self).waiting_seq(),
            final(self).pending_death_seq() == old(self).pending_death_seq(),
            final(self).backtrack_seq() == old(self).backtrack_seq(),
            final(self).grab_request_seq() == old(self).grab_request_seq(),
            final(self).peer_id_spec() == old(self).peer_id_spec(),
    {
        proof {
            self.bound_entities.lemma_to_map();
        }
        let ghost pm0 = self.bound_entities.to_map();
        let ghost im0 = self.infos_map();
        let mut removals: Vec<Lid> = Vec::new();
        core::mem::swap(&mut removals, &mut self.pending_remove);
        let mut postponed: Vec<Lid> = Vec::new();
        core::mem::swap(&mut postponed, &mut self.postponed_remove);
        let mut r: Vec<RemovalPlan> = Vec::new();
        let mut w: usize = 0;
        proof {
            let f0 = removals_fold(removals@.take(0int), postponed@, pm0, im0);
            assert(r@ =~= f0.0);
        }
        while w < removals.len()
            invariant
                old(self).wf(),
                self.wf(),
                postponed@ == old(self).postponed_seq(),
                w <= removals@.len(),
                ({
                    let f = removals_fold(removals@.take(w as int), postponed@, pm0, im0);
                    &&& r@ == f.0
                    &&& self.tracked_of().to_map() == f.1
                    &&& self.infos_map() == f.2
                }),
                self.pending_remove@.len() == 0,
                self.postponed_remove@.len() == 0,
                self.lid_to_gid@ == old(self).gids_seq(),
                self.waiting_for_lid@ == old(self).waiting_seq(),
                self.pending_death_notify@ == old(self).pending_death_seq(),
                self.backtrack@ == old(self).backtrack_seq(),
                self.grab_request@ == old(self).grab_request_seq(),
                self.peer_id == old(self).peer_id_spec(),
            decreases removals@.len() - w,
        {
            let lid = removals[w];
            let ghost fpre = removals_fold(removals@.take(w as int), postponed@, pm0, im0);
            let mut skip = false;
            let mut j: usize = 0;
            while j < postponed.len()
                invariant
                    j <= postponed@.len(),
                    skip ==> postponed@.contains(lid),
                    !skip ==> forall|k: int| 0 <= k < j ==> postponed@[k] != lid,
                decreases postponed@.len() - j,
            {
                if postponed[j].0 == lid.0 {
                    proof {
                        assert(postponed@[j as int] == lid);
                    }
                    skip = true;
                }
                j = j + 1;
            }
            if !skip {
                proof {
                    if postponed@.contains(lid) {
                        let k = choose|k: int|
                            0 <= k < postponed@.len() && #[trigger] postponed@[k] == lid;
                        assert(false);
                    }
                }
                let ghost pre_bound = self.bound_entities;
                let removed = self.bound_entities.remove_by_left(lid);
                let entity = match removed {
                    Some(p) => Some(p.1),
                    None => None,
                };
                self.info_take(lid);
                r.push(RemovalPlan { lid, entity });
                proof {
                    crate::bindings::ProxyBindings::lemma_remove_to_map(
                        pre_bound,
                        self.bound_entities,
                        lid,
                    );
                    pre_bound.lemma_to_map();
                    match removed {
                        Some(p) => {
                            assert(fpre.1.dom().contains(lid) && fpre.1[lid] == p.1);
                        },
                        None => {
                            if fpre.1.dom().contains(lid) {
                                assert(pre_bound.has_lid(lid));
                            }
                        },
                    }
                    assert(self.infos_map() =~= fpre.2.remove(lid));
                }
            }
            proof {
                assert(removals@.take(w as int + 1).drop_last() =~= removals@.take(w as int));
                assert(removals@.take(w as int + 1).last() == removals@[w as int]);
                let f = removals_fold(removals@.take(w as int + 1), postponed@, pm0, im0);
                if skip {
                    assert(f == fpre);
                } else {
                    assert(r@ =~= f.0);
                }
            }
            w = w + 1;
        }
        proof {
            assert(removals@.take(removals@.len() as int) =~= removals@);
        }
        let ghost exit_model = *self;
        self.pending_remove = postponed;
        proof {
            assert(self.infos_map() == exit_model.infos_map());
            assert(self.bound_entities == exit_model.bound_entities);
        }
        r
    }

    /// Pairs each replicated one-shot projectile with its shooter's proxy,
    /// in input order; projectiles whose shooter is unbound are dropped
    /// without error.
    pub fn spawn_projectiles(&self, projectiles: &Vec<ProjectileFired>) -> (r: Vec<
        (EntityHandle, ProjectileFired),
    >)
        requires
            self.wf(),
        ensures
            r.deep_view() == projectile_plans(
                projectiles.deep_view(),
                self.tracked_of().to_map(),
            ),
    {
        proof {
            self.bound_entities.lemma_to_map();
        }
        let ghost pm = self.tracked_of().to_map();
        let mut r: Vec<(EntityHandle, ProjectileFired)> = Vec::new();
        let mut i: usize = 0;
        proof {
            assert(r.deep_view() =~= projectile_plans(
                projectiles.deep_view().take(0int),
                pm,
            ));
        }
        while i < projectiles.len()
            invariant
                self.wf(),
                pm == self.tracked_of().to_map(),
                forall|l: Lid, h: EntityHandle|
                    #[trigger] self.tracked_of().binds(l, h) <==> (pm.dom().contains(l) && pm[l]
                        == h),
                forall|l: Lid| pm.dom().contains(l) <==> #[trigger] self.tracked_of().has_lid(l),
                i <= projectiles@.len(),
                projectiles.deep_view().len() == projectiles@.len(),
                r.deep_view() == projectile_plans(projectiles.deep_view().take(i as int), pm),
            decreases projectiles@.len() - i,
        {
            let ghost pre = r.deep_view();
            let p = &projectiles[i];
            let found = self.bound_entities.get_by_left(p.shooter_lid);
            match &found {
                Some(h) => {
                    push_plan(&mut r, (*h, p.duplicate()));
                    proof {
                        assert(pm.dom().contains(p.shooter_lid) && pm[p.shooter_lid] == *h);
                    }
                },
                None => {},
            }
            proof {
                let pv = projectiles.deep_view();
                assert(pv.take(i as int + 1).drop_last() =~= pv.take(i as int));
                assert(pv.take(i as int + 1).last() == pv[i as int]);
                assert(pv[i as int] == (projectiles@[i as int]).deep_view());
                match found {
                    Some(h) => {
                        assert(r.deep_view() =~= pre + seq![
                            (pm[(pv[i as int]).shooter_lid], pv[i as int]),
                        ]);
                    },
                    None => {
                        assert(!pm.dom().contains(p.shooter_lid));
                        assert(r.deep_view() =~= pre);
                    },
                }
                assert(r.deep_view() =~= projectile_plans(pv.take(i as int + 1), pm));
            }
            i = i + 1;
        }
        proof {
            assert(projectiles.deep_view().take(projectiles@.len() as int)
                =~= projectiles.deep_view());
        }
        r
    }
}

/// The shooter-resolved projectile list: one pair per projectile whose
/// shooter id is bound, in input order, carrying that projectile.
pub open spec fn projectile_plans(
    ps: Seq<crate::des::ProjectileFiredV>,
    proxies: Map<Lid, EntityHandle>,
) -> Seq<(EntityHandle, crate::des::ProjectileFiredV)>
    decreases ps.len(),
{
    if ps.len() == 0 {
        Seq::empty()
    } else {
        projectile_plans(ps.drop_last(), proxies) + (if proxies.dom().contains(
            ps.last().shooter_lid,
        ) {
            seq![(proxies[ps.last().shooter_lid], ps.last())]
        } else {
            Seq::empty()
        })
    }
}

/// Appends one shooter-resolved projectile, tracking the ghost image.
fn push_plan(r: &mut Vec<(EntityHandle, ProjectileFired)>, u: (EntityHandle, ProjectileFired))
    ensures
        final(r).deep_view() == old(r).deep_view().push(u.deep_view()),
{
    let ghost before = r@;
    let ghost before_dv = r.deep_view();
    r.push(u);
    proof {
        assert(r@ =~= before.push(u));
        assert forall|k: int| 0 <= k < r@.len() implies r.deep_view()[k] == before_dv.push(
            u.deep_view(),
        )[k] by {
            if k < before.len() {
                assert(before_dv[k] == before[k].deep_view());
                assert(r.deep_view()[k] == before[k].deep_view());
            } else {
                assert(r.deep_view()[k] == u.deep_view());
            }
        }
        assert(r.deep_view() =~~= before_dv.push(u.deep_view()));
    }
}

} // verus!
