//! The library's replication laws, stated and proved over the same spec
//! functions the models' contracts use.

use vstd::prelude::*;

use crate::des::{opt_wand_gid, DesToProxy, EntityInfoV, EntityUpdateV};
use crate::ids::{Gid, Lid, PeerId, WorldPos};
use crate::bindings::{PlayerRegistry, ProxyBindings};
use crate::local::{
    back_a_events, back_b_events, back_events, cond_event, death_events, diffed_events,
    entries_have, entries_stream, entry_events, entry_value, field_events, front_a_events,
    front_b_events, front_events, handoff_messages, lemma_field_events_unchanged, lids_unique,
    localize_events, removal_events, DeathNotify, EntityEntryPair, LocalDiffModel,
};
use crate::remote::{apply_stream_v, apply_update_v, RemoteAction, RemoteV};

verus! {

/// Law: once an entity is tracked, the first stream block emitted for its
/// id is always a full init — the addressing header followed by the whole
/// snapshot — and never a field update. `track_entity` leaves the entry
/// with no transmitted snapshot, and `make_diff` emits exactly this block
/// for such an entry (and only then records a transmitted snapshot), so no
/// field update for an id can ever precede its init in the stream.
pub proof fn lemma_first_block_is_full_init(e: (Lid, EntityEntryPair))
    requires
        (e.1).last is None,
    ensures
        entry_events(e) == seq![
            EntityUpdateV::CurrentEntity(e.0),
            EntityUpdateV::Init(((e.1).current)@, (e.1).gid),
        ],
{
}

/// Law: a tick in which no sampled field differs from the transmitted
/// snapshot contributes nothing to the stream for that entity — not even
/// the addressing header.
pub proof fn lemma_unchanged_entity_is_silent(e: (Lid, EntityEntryPair))
    requires
        (e.1).last matches Some(l) && l@ == ((e.1).current)@,
    ensures
        entry_events(e) == Seq::<EntityUpdateV>::empty(),
{
    let l = (e.1).last->0;
    lemma_field_events_unchanged(l@, ((e.1).current)@);
    assert(diffed_events(e.0, l@, ((e.1).current)@) =~= Seq::<EntityUpdateV>::empty());
}

/// One field setter folded into a shadow snapshot; `None` for anything that
/// is not a field setter.
pub open spec fn set_once(o: EntityInfoV, u: EntityUpdateV) -> Option<EntityInfoV> {
    match u {
        EntityUpdateV::SetPosition(x, y) => Some(EntityInfoV { x, y, ..o }),
        EntityUpdateV::SetRotation(r) => Some(EntityInfoV { r, ..o }),
        EntityUpdateV::SetVelocity(vx, vy) => Some(EntityInfoV { vx, vy, ..o }),
        EntityUpdateV::SetHp(hp) => Some(EntityInfoV { hp, ..o }),
        EntityUpdateV::SetPhysInfo(phys) => Some(EntityInfoV { phys, ..o }),
        EntityUpdateV::SetCost(cost) => Some(EntityInfoV { cost, ..o }),
        EntityUpdateV::SetAnimations(animations) => Some(EntityInfoV { animations, ..o }),
        EntityUpdateV::SetStains(current_stains) => Some(EntityInfoV { current_stains, ..o }),
        EntityUpdateV::SetGameEffects(game_effects) => Some(EntityInfoV { game_effects, ..o }),
        EntityUpdateV::SetAiState(ai_state) => Some(EntityInfoV { ai_state, ..o }),
        EntityUpdateV::SetAiRotation(ai_rotation) => Some(EntityInfoV { ai_rotation, ..o }),
        EntityUpdateV::SetLimbs(limbs) => Some(EntityInfoV { limbs, ..o }),
        EntityUpdateV::SetIsEnabled(is_enabled) => Some(EntityInfoV { is_enabled, ..o }),
        EntityUpdateV::SetCounter(counter) => Some(EntityInfoV { counter, ..o }),
        EntityUpdateV::SetWand(wand) => Some(EntityInfoV { wand, ..o }),
        EntityUpdateV::SetLaser(laser) => Some(EntityInfoV { laser, ..o }),
        EntityUpdateV::SetFacingDirection(facing_direction) => Some(
            EntityInfoV { facing_direction, ..o },
        ),
        _ => None,
    }
}

/// A stream element that sets one field of the addressed entity.
pub open spec fn is_field_setter(u: EntityUpdateV) -> bool {
    match u {
        EntityUpdateV::CurrentEntity(_) => false,
        EntityUpdateV::Init(_, _) => false,
        EntityUpdateV::LocalizeEntity(_, _) => false,
        EntityUpdateV::RemoveEntity(_) => false,
        EntityUpdateV::KillEntity { .. } => false,
        _ => true,
    }
}

/// Field setters folded left to right: last write wins per field.
pub open spec fn fold_setters(o: EntityInfoV, sets: Seq<EntityUpdateV>) -> EntityInfoV
    decreases sets.len(),
{
    if sets.len() == 0 {
        o
    } else {
        match set_once(fold_setters(o, sets.drop_last()), sets.last()) {
            Some(i) => i,
            None => fold_setters(o, sets.drop_last()),
        }
    }
}

/// A field setter moves neither the cursor nor anything but the addressed
/// shadow snapshot, which it updates by `set_once`.
proof fn lemma_setter_step(st: RemoteV, u: EntityUpdateV, my_peer: PeerId, lid: Lid)
    requires
        is_field_setter(u),
        st.cursor == Some(lid),
        st.infos.dom().contains(lid),
    ensures
        ({
            let (st2, acts) = apply_update_v(st, u, my_peer);
            &&& st2.cursor == Some(lid)
            &&& st2.infos == st.infos.insert(lid, set_once(st.infos[lid], u)->0)
            &&& st2.gids == st.gids
            &&& st2.waiting == st.waiting
            &&& st2.proxies == st.proxies
            &&& acts == Seq::<RemoteAction>::empty()
        }),
{
}

/// Law: applying one init followed by any number of field setters to a
/// model with no shadow for the addressed id yields a shadow snapshot equal
/// to the init's snapshot with each set field overridden in event order —
/// order dependent, last write wins per field.
pub proof fn lemma_init_then_sets(
    st0: RemoteV,
    lid: Lid,
    info: EntityInfoV,
    gid: Gid,
    sets: Seq<EntityUpdateV>,
    my_peer: PeerId,
)
    requires
        forall|k: int| 0 <= k < sets.len() ==> is_field_setter(#[trigger] sets[k]),
        !st0.waiting.dom().contains(gid),
    ensures
        ({
            let stream = seq![
                EntityUpdateV::CurrentEntity(lid),
                EntityUpdateV::Init(info, gid),
            ] + sets;
            let (st2, acts) = apply_stream_v(st0, stream, my_peer);
            &&& st2.infos == st0.infos.insert(lid, fold_setters(info, sets))
            &&& acts == Seq::<RemoteAction>::empty()
        }),
    decreases sets.len(),
{
    let header = seq![EntityUpdateV::CurrentEntity(lid), EntityUpdateV::Init(info, gid)];
    lemma_apply_header(st0, lid, info, gid, my_peer);
    let sth = apply_stream_v(st0, header, my_peer).0;
    if sets.len() == 0 {
        let stream = header + sets;
        assert(stream =~= header);
        assert(sth.infos =~= st0.infos.insert(lid, fold_setters(info, sets)));
    } else {
        lemma_init_then_sets(st0, lid, info, gid, sets.drop_last(), my_peer);
        let prev_stream = header + sets.drop_last();
        let stream = header + sets;
        assert(stream.drop_last() =~= prev_stream);
        assert(stream.last() == sets.last());
        let stp = apply_stream_v(st0, prev_stream, my_peer).0;
        lemma_apply_stream_concat(st0, header, sets.drop_last(), my_peer);
        lemma_setters_keep_cursor(sth, sets.drop_last(), my_peer, lid);
        assert(stp.cursor == Some(lid));
        lemma_setter_step(stp, sets.last(), my_peer, lid);
        let (st2, acts) = apply_stream_v(st0, stream, my_peer);
        assert(st2.infos =~= st0.infos.insert(lid, fold_setters(info, sets)));
        assert(acts =~= Seq::<RemoteAction>::empty());
    }
}

/// An addressing header followed by an init, applied to a model with no
/// entity awaiting the init's global id: the shadow and the correlation are
/// recorded, the cursor addresses the new id, and nothing else moves.
proof fn lemma_apply_header(st0: RemoteV, lid: Lid, info: EntityInfoV, gid: Gid, my_peer: PeerId)
    requires
        !st0.waiting.dom().contains(gid),
    ensures
        ({
            let header = seq![EntityUpdateV::CurrentEntity(lid), EntityUpdateV::Init(info, gid)];
            let (sth, acts) = apply_stream_v(st0, header, my_peer);
            &&& sth == (RemoteV {
                infos: st0.infos.insert(lid, info),
                gids: st0.gids.insert(lid, gid),
                cursor: Some(lid),
                ..st0
            })
            &&& acts == Seq::<RemoteAction>::empty()
        }),
{
    let header = seq![EntityUpdateV::CurrentEntity(lid), EntityUpdateV::Init(info, gid)];
    let s1 = seq![EntityUpdateV::CurrentEntity(lid)];
    assert(s1.drop_last() =~= Seq::<EntityUpdateV>::empty());
    assert(s1.last() == EntityUpdateV::CurrentEntity(lid));
    assert(s1.drop_last().len() == 0);
    assert(apply_stream_v(st0, s1.drop_last(), my_peer).0 == st0);
    assert(apply_stream_v(st0, s1.drop_last(), my_peer).1.len() == 0);
    let stc = apply_stream_v(st0, s1, my_peer);
    assert(stc.0 == apply_update_v(st0, EntityUpdateV::CurrentEntity(lid), my_peer).0);
    assert(stc.1 =~= Seq::<RemoteAction>::empty());
    assert(header.drop_last() =~= s1);
    assert(header.last() == EntityUpdateV::Init(info, gid));
    assert(apply_stream_v(st0, header.drop_last(), my_peer) == stc);
    let sth = apply_stream_v(st0, header, my_peer);
    assert(sth.0 == apply_update_v(stc.0, EntityUpdateV::Init(info, gid), my_peer).0);
    assert(stc.0.waiting == st0.waiting);
    assert(sth.1 =~= Seq::<RemoteAction>::empty());
}

/// Streams apply piecewise: a concatenation is the second part applied to
/// the first part's outcome, with the actions concatenated.
proof fn lemma_apply_stream_concat(
    st: RemoteV,
    a: Seq<EntityUpdateV>,
    b: Seq<EntityUpdateV>,
    my_peer: PeerId,
)
    ensures
        apply_stream_v(st, a + b, my_peer).0 == apply_stream_v(
            apply_stream_v(st, a, my_peer).0,
            b,
            my_peer,
        ).0,
        apply_stream_v(st, a + b, my_peer).1 == apply_stream_v(st, a, my_peer).1 + apply_stream_v(
            apply_stream_v(st, a, my_peer).0,
            b,
            my_peer,
        ).1,
    decreases b.len(),
{
    if b.len() == 0 {
        assert(a + b =~= a);
        assert(apply_stream_v(st, a, my_peer).1 + apply_stream_v(
            apply_stream_v(st, a, my_peer).0,
            b,
            my_peer,
        ).1 =~= apply_stream_v(st, a, my_peer).1);
    } else {
        lemma_apply_stream_concat(st, a, b.drop_last(), my_peer);
        assert((a + b).drop_last() =~= a + b.drop_last());
        assert((a + b).last() == b.last());
        let mid = apply_stream_v(st, a, my_peer).0;
        let pa = apply_stream_v(st, a, my_peer).1;
        let pb = apply_stream_v(mid, b.drop_last(), my_peer).1;
        let step = apply_update_v(apply_stream_v(mid, b.drop_last(), my_peer).0, b.last(), my_peer);
        assert(pa + (pb + step.1) =~= (pa + pb) + step.1);
    }
}

/// A run of field setters keeps the cursor where it is.
proof fn lemma_setters_keep_cursor(st: RemoteV, sets: Seq<EntityUpdateV>, my_peer: PeerId, lid: Lid)
    requires
        forall|k: int| 0 <= k < sets.len() ==> is_field_setter(#[trigger] sets[k]),
        st.cursor == Some(lid),
        st.infos.dom().contains(lid),
    ensures
        apply_stream_v(st, sets, my_peer).0.cursor == Some(lid),
        apply_stream_v(st, sets, my_peer).0.infos.dom().contains(lid),
    decreases sets.len(),
{
    if sets.len() > 0 {
        lemma_setters_keep_cursor(st, sets.drop_last(), my_peer, lid);
        lemma_setter_step(apply_stream_v(st, sets.drop_last(), my_peer).0, sets.last(), my_peer, lid);
    }
}

/// A global id is a live remote proxy when some bound proxy's stream id
/// carries it.
pub open spec fn remote_has_proxy_gid(st: RemoteV, gid: Gid) -> bool {
    exists|lid: Lid|
        #![trigger st.gids.dom().contains(lid)]
        st.gids.dom().contains(lid) && st.gids[lid] == gid && st.proxies.dom().contains(lid)
}

/// No global id is simultaneously under local authority and a live remote
/// proxy.
pub open spec fn authority_disjoint(local: LocalDiffModel, st: RemoteV) -> bool {
    forall|g: Gid| !(#[trigger] local.has_gid(g) && remote_has_proxy_gid(st, g))
}

/// Law: one stream element preserves authority disjointness, provided an
/// init never names a global id this peer itself has authority over — the
/// protocol guarantee that an owner is not sent its own entities.
pub proof fn lemma_disjoint_step(
    local: LocalDiffModel,
    st: RemoteV,
    u: EntityUpdateV,
    my_peer: PeerId,
)
    requires
        authority_disjoint(local, st),
        u matches EntityUpdateV::Init(_, g) ==> !local.has_gid(g),
    ensures
        authority_disjoint(local, apply_update_v(st, u, my_peer).0),
{
    let st2 = apply_update_v(st, u, my_peer).0;
    assert forall|g: Gid| !(#[trigger] local.has_gid(g) && remote_has_proxy_gid(st2, g)) by {
        if local.has_gid(g) && remote_has_proxy_gid(st2, g) {
            let lid = choose|lid: Lid|
                #![trigger st2.gids.dom().contains(lid)]
                st2.gids.dom().contains(lid) && st2.gids[lid] == g && st2.proxies.dom().contains(
                    lid,
                );
            match u {
                EntityUpdateV::Init(_, g2) => {
                    if st.cursor is Some {
                        let clid = st.cursor->0;
                        if lid == clid {
                            assert(g == g2);
                        } else {
                            assert(st.gids.dom().contains(lid) && st.gids[lid] == g);
                            assert(st.proxies.dom().contains(lid));
                            assert(remote_has_proxy_gid(st, g));
                        }
                    } else {
                        assert(remote_has_proxy_gid(st, g));
                    }
                },
                _ => {
                    assert(st.gids.dom().contains(lid) && st.gids[lid] == g);
                    assert(st.proxies.dom().contains(lid));
                    assert(remote_has_proxy_gid(st, g));
                },
            }
        }
    }
}

/// Law: a whole stream preserves authority disjointness under the same
/// protocol guarantee on every init it carries.
pub proof fn lemma_disjoint_stream(
    local: LocalDiffModel,
    st: RemoteV,
    ups: Seq<EntityUpdateV>,
    my_peer: PeerId,
)
    requires
        authority_disjoint(local, st),
        forall|k: int|
            0 <= k < ups.len() ==> ((#[trigger] ups[k]) matches EntityUpdateV::Init(_, g)
                ==> !local.has_gid(g)),
    ensures
        authority_disjoint(local, apply_stream_v(st, ups, my_peer).0),
    decreases ups.len(),
{
    if ups.len() > 0 {
        lemma_disjoint_stream(local, st, ups.drop_last(), my_peer);
        lemma_disjoint_step(
            local,
            apply_stream_v(st, ups.drop_last(), my_peer).0,
            ups.last(),
            my_peer,
        );
    }
}

/// Law: a handoff announces exactly one authority verdict — a transfer
/// when a candidate peer was found, a release otherwise — never both and
/// never neither, and it comes after the final position update.
pub proof fn lemma_handoff_exactly_one_verdict(
    msgs: Seq<DesToProxy>,
    gid: Gid,
    pos: WorldPos,
    target: Option<PeerId>,
    skip_wand: bool,
)
    requires
        handoff_messages(msgs, gid, pos, target, skip_wand),
    ensures
        ({
            let base: int = if skip_wand {
                0
            } else {
                1
            };
            &&& (msgs[base + 1] is ReleaseAuthority <==> target is None)
            &&& (msgs[base + 1] is TransferAuthorityTo <==> target is Some)
            &&& forall|k: int|
                0 <= k < msgs.len() && ((#[trigger] msgs[k]) is ReleaseAuthority
                    || msgs[k] is TransferAuthorityTo) ==> k == base + 1
        }),
{
    let base: int = if skip_wand {
        0
    } else {
        1
    };
    assert forall|k: int|
        0 <= k < msgs.len() && ((#[trigger] msgs[k]) is ReleaseAuthority
            || msgs[k] is TransferAuthorityTo) implies k == base + 1 by {
        if k != base + 1 {
            if k == base {
                assert(msgs[base] is UpdatePositions);
            } else {
                assert(!skip_wand && k == 0);
                assert(msgs[0] is UpdateWand);
            }
        }
    }
}

/// Law: a localize event removes the addressed shadow entry unconditionally
/// and destroys the proxy exactly when the destination peer is not this
/// process.
pub proof fn lemma_localize_entity(st: RemoteV, lid: Lid, peer: PeerId, my_peer: PeerId)
    ensures
        ({
            let (st2, acts) = apply_update_v(
                st,
                EntityUpdateV::LocalizeEntity(lid, peer),
                my_peer,
            );
            &&& !st2.infos.dom().contains(lid)
            &&& !st2.proxies.dom().contains(lid)
            &&& st2.cursor is None
            &&& (peer == my_peer ==> acts == Seq::<RemoteAction>::empty())
            &&& (peer != my_peer && st.proxies.dom().contains(lid) ==> acts == seq![
                RemoteAction::KillProxy { entity: st.proxies[lid] },
            ])
        }),
{
}

/// Law: an init for a global id some live entity is already awaiting binds
/// that entity to the new stream id — no second proxy is spawned; the
/// binding and the bind action name the existing entity.
pub proof fn lemma_init_binds_waiting(
    st: RemoteV,
    lid: Lid,
    info: EntityInfoV,
    gid: Gid,
    my_peer: PeerId,
)
    requires
        st.cursor == Some(lid),
        st.waiting.dom().contains(gid),
    ensures
        ({
            let (st2, acts) = apply_update_v(st, EntityUpdateV::Init(info, gid), my_peer);
            &&& st2.proxies.dom().contains(lid)
            &&& st2.proxies[lid] == st.waiting[gid]
            &&& !st2.waiting.dom().contains(gid)
            &&& st2.infos[lid] == info
            &&& acts == seq![
                RemoteAction::BindExisting { entity: st.waiting[gid], lid, gid },
            ]
        }),
{
}


/// Every element of the list is a field setter.
pub open spec fn all_field_setters(s: Seq<EntityUpdateV>) -> bool {
    forall|k: int| 0 <= k < s.len() ==> is_field_setter(#[trigger] s[k])
}

proof fn lemma_cond_setter(c: bool, u: EntityUpdateV)
    requires
        is_field_setter(u),
    ensures
        all_field_setters(cond_event(c, u)),
{
    assert forall|k: int| 0 <= k < cond_event(c, u).len() implies is_field_setter(
        #[trigger] cond_event(c, u)[k],
    ) by {
        assert(cond_event(c, u)[k] == u);
    }
}

proof fn lemma_concat_setters(a: Seq<EntityUpdateV>, b: Seq<EntityUpdateV>)
    requires
        all_field_setters(a),
        all_field_setters(b),
    ensures
        all_field_setters(a + b),
{
    assert forall|k: int| 0 <= k < (a + b).len() implies is_field_setter(#[trigger] (a + b)[k]) by {
        if k < a.len() {
            assert((a + b)[k] == a[k]);
        } else {
            assert((a + b)[k] == b[k - a.len()]);
        }
    }
}

proof fn lemma_front_a_events_setters(l: EntityInfoV, c: EntityInfoV)
    ensures
        all_field_setters(front_a_events(l, c)),
{
    lemma_cond_setter(opt_wand_gid(l.wand) != opt_wand_gid(c.wand), EntityUpdateV::SetWand(c.wand));
    lemma_cond_setter(l.laser != c.laser, EntityUpdateV::SetLaser(c.laser));
    lemma_concat_setters(cond_event(opt_wand_gid(l.wand) != opt_wand_gid(c.wand), EntityUpdateV::SetWand(c.wand)), cond_event(l.laser != c.laser, EntityUpdateV::SetLaser(c.laser)));
    lemma_cond_setter(l.x != c.x || l.y != c.y, EntityUpdateV::SetPosition(c.x, c.y));
    lemma_concat_setters((cond_event(opt_wand_gid(l.wand) != opt_wand_gid(c.wand), EntityUpdateV::SetWand(c.wand)) + cond_event(l.laser != c.laser, EntityUpdateV::SetLaser(c.laser))), cond_event(l.x != c.x || l.y != c.y, EntityUpdateV::SetPosition(c.x, c.y)));
    lemma_cond_setter(l.vx != c.vx || l.vy != c.vy, EntityUpdateV::SetVelocity(c.vx, c.vy));
    lemma_concat_setters(((cond_event(opt_wand_gid(l.wand) != opt_wand_gid(c.wand), EntityUpdateV::SetWand(c.wand)) + cond_event(l.laser != c.laser, EntityUpdateV::SetLaser(c.laser))) + cond_event(l.x != c.x || l.y != c.y, EntityUpdateV::SetPosition(c.x, c.y))), cond_event(l.vx != c.vx || l.vy != c.vy, EntityUpdateV::SetVelocity(c.vx, c.vy)));
    lemma_cond_setter(l.hp != c.hp, EntityUpdateV::SetHp(c.hp));
    lemma_concat_setters((((cond_event(opt_wand_gid(l.wand) != opt_wand_gid(c.wand), EntityUpdateV::SetWand(c.wand)) + cond_event(l.laser != c.laser, EntityUpdateV::SetLaser(c.laser))) + cond_event(l.x != c.x || l.y != c.y, EntityUpdateV::SetPosition(c.x, c.y))) + cond_event(l.vx != c.vx || l.vy != c.vy, EntityUpdateV::SetVelocity(c.vx, c.vy))), cond_event(l.hp != c.hp, EntityUpdateV::SetHp(c.hp)));
}

proof fn lemma_front_b_events_setters(l: EntityInfoV, c: EntityInfoV)
    ensures
        all_field_setters(front_b_events(l, c)),
{
    lemma_cond_setter(l.animations != c.animations, EntityUpdateV::SetAnimations(c.animations));
    lemma_cond_setter(l.facing_direction != c.facing_direction, EntityUpdateV::SetFacingDirection(c.facing_direction));
    lemma_concat_setters(cond_event(l.animations != c.animations, EntityUpdateV::SetAnimations(c.animations)), cond_event(l.facing_direction != c.facing_direction, EntityUpdateV::SetFacingDirection(c.facing_direction)));
    lemma_cond_setter(l.r != c.r, EntityUpdateV::SetRotation(c.r));
    lemma_concat_setters((cond_event(l.animations != c.animations, EntityUpdateV::SetAnimations(c.animations)) + cond_event(l.facing_direction != c.facing_direction, EntityUpdateV::SetFacingDirection(c.facing_direction))), cond_event(l.r != c.r, EntityUpdateV::SetRotation(c.r)));
    lemma_cond_setter(l.phys != c.phys, EntityUpdateV::SetPhysInfo(c.phys));
    lemma_concat_setters(((cond_event(l.animations != c.animations, EntityUpdateV::SetAnimations(c.animations)) + cond_event(l.facing_direction != c.facing_direction, EntityUpdateV::SetFacingDirection(c.facing_direction))) + cond_event(l.r != c.r, EntityUpdateV::SetRotation(c.r))), cond_event(l.phys != c.phys, EntityUpdateV::SetPhysInfo(c.phys)));
}

proof fn lemma_back_a_events_setters(l: EntityInfoV, c: EntityInfoV)
    ensures
        all_field_setters(back_a_events(l, c)),
{
    lemma_cond_setter(l.cost != c.cost, EntityUpdateV::SetCost(c.cost));
    lemma_cond_setter(l.current_stains != c.current_stains, EntityUpdateV::SetStains(c.current_stains));
    lemma_concat_setters(cond_event(l.cost != c.cost, EntityUpdateV::SetCost(c.cost)), cond_event(l.current_stains != c.current_stains, EntityUpdateV::SetStains(c.current_stains)));
    lemma_cond_setter(l.game_effects != c.game_effects, EntityUpdateV::SetGameEffects(c.game_effects));
    lemma_concat_setters((cond_event(l.cost != c.cost, EntityUpdateV::SetCost(c.cost)) + cond_event(l.current_stains != c.current_stains, EntityUpdateV::SetStains(c.current_stains))), cond_event(l.game_effects != c.game_effects, EntityUpdateV::SetGameEffects(c.game_effects)));
    lemma_cond_setter(l.ai_rotation != c.ai_rotation, EntityUpdateV::SetAiRotation(c.ai_rotation));
    lemma_concat_setters(((cond_event(l.cost != c.cost, EntityUpdateV::SetCost(c.cost)) + cond_event(l.current_stains != c.current_stains, EntityUpdateV::SetStains(c.current_stains))) + cond_event(l.game_effects != c.game_effects, EntityUpdateV::SetGameEffects(c.game_effects))), cond_event(l.ai_rotation != c.ai_rotation, EntityUpdateV::SetAiRotation(c.ai_rotation)));
}

proof fn lemma_back_b_events_setters(l: EntityInfoV, c: EntityInfoV)
    ensures
        all_field_setters(back_b_events(l, c)),
{
    lemma_cond_setter(l.ai_state != c.ai_state, EntityUpdateV::SetAiState(c.ai_state));
    lemma_cond_setter(l.limbs != c.limbs, EntityUpdateV::SetLimbs(c.limbs));
    lemma_concat_setters(cond_event(l.ai_state != c.ai_state, EntityUpdateV::SetAiState(c.ai_state)), cond_event(l.limbs != c.limbs, EntityUpdateV::SetLimbs(c.limbs)));
    lemma_cond_setter(l.is_enabled != c.is_enabled, EntityUpdateV::SetIsEnabled(c.is_enabled));
    lemma_concat_setters((cond_event(l.ai_state != c.ai_state, EntityUpdateV::SetAiState(c.ai_state)) + cond_event(l.limbs != c.limbs, EntityUpdateV::SetLimbs(c.limbs))), cond_event(l.is_enabled != c.is_enabled, EntityUpdateV::SetIsEnabled(c.is_enabled)));
    lemma_cond_setter(l.counter != c.counter, EntityUpdateV::SetCounter(c.counter));
    lemma_concat_setters(((cond_event(l.ai_state != c.ai_state, EntityUpdateV::SetAiState(c.ai_state)) + cond_event(l.limbs != c.limbs, EntityUpdateV::SetLimbs(c.limbs))) + cond_event(l.is_enabled != c.is_enabled, EntityUpdateV::SetIsEnabled(c.is_enabled))), cond_event(l.counter != c.counter, EntityUpdateV::SetCounter(c.counter)));
}

/// Every changed-field event is a field setter.
pub proof fn lemma_field_events_setters(l: EntityInfoV, c: EntityInfoV)
    ensures
        all_field_setters(field_events(l, c)),
{
    lemma_front_a_events_setters(l, c);
    lemma_front_b_events_setters(l, c);
    lemma_back_a_events_setters(l, c);
    lemma_back_b_events_setters(l, c);
    lemma_concat_setters(front_a_events(l, c), front_b_events(l, c));
    lemma_concat_setters(back_a_events(l, c), back_b_events(l, c));
    lemma_concat_setters(front_events(l, c), back_events(l, c));
}

/// The events a stream applies to the entity under id `lid`: every init or
/// field setter whose addressing cursor is `lid` at its turn. Headers move
/// the cursor, a localize event invalidates it, and removals and kills pass
/// through.
pub open spec fn events_for_from(
    stream: Seq<EntityUpdateV>,
    cursor: Option<Lid>,
    lid: Lid,
) -> Seq<EntityUpdateV>
    decreases stream.len(),
{
    if stream.len() == 0 {
        Seq::empty()
    } else {
        let rest = stream.drop_first();
        match stream[0] {
            EntityUpdateV::CurrentEntity(l) => events_for_from(rest, Some(l), lid),
            EntityUpdateV::LocalizeEntity(_, _) => events_for_from(rest, None, lid),
            EntityUpdateV::RemoveEntity(_) => events_for_from(rest, cursor, lid),
            EntityUpdateV::KillEntity { .. } => events_for_from(rest, cursor, lid),
            u => (if cursor == Some(lid) {
                seq![u]
            } else {
                Seq::empty()
            }) + events_for_from(rest, cursor, lid),
        }
    }
}

/// The events a whole stream applies to the entity under id `lid`.
pub open spec fn events_for(stream: Seq<EntityUpdateV>, lid: Lid) -> Seq<EntityUpdateV> {
    events_for_from(stream, None, lid)
}

/// Where the addressing cursor stands after a stream.
pub open spec fn end_cursor(stream: Seq<EntityUpdateV>, cursor: Option<Lid>) -> Option<Lid>
    decreases stream.len(),
{
    if stream.len() == 0 {
        cursor
    } else {
        let rest = stream.drop_first();
        match stream[0] {
            EntityUpdateV::CurrentEntity(l) => end_cursor(rest, Some(l)),
            EntityUpdateV::LocalizeEntity(_, _) => end_cursor(rest, None),
            _ => end_cursor(rest, cursor),
        }
    }
}

/// Addressed events split over concatenation, threading the cursor.
proof fn lemma_events_for_concat(
    a: Seq<EntityUpdateV>,
    b: Seq<EntityUpdateV>,
    cursor: Option<Lid>,
    lid: Lid,
)
    ensures
        events_for_from(a + b, cursor, lid) == events_for_from(a, cursor, lid) + events_for_from(
            b,
            end_cursor(a, cursor),
            lid,
        ),
        end_cursor(a + b, cursor) == end_cursor(b, end_cursor(a, cursor)),
    decreases a.len(),
{
    if a.len() == 0 {
        assert(a + b =~= b);
        assert(events_for_from(a, cursor, lid) + events_for_from(b, cursor, lid)
            =~= events_for_from(b, cursor, lid));
    } else {
        assert((a + b)[0] == a[0]);
        assert((a + b).drop_first() =~= a.drop_first() + b);
        match a[0] {
            EntityUpdateV::CurrentEntity(l) => {
                lemma_events_for_concat(a.drop_first(), b, Some(l), lid);
            },
            EntityUpdateV::LocalizeEntity(_, _) => {
                lemma_events_for_concat(a.drop_first(), b, None, lid);
            },
            EntityUpdateV::RemoveEntity(_) => {
                lemma_events_for_concat(a.drop_first(), b, cursor, lid);
            },
            EntityUpdateV::KillEntity { .. } => {
                lemma_events_for_concat(a.drop_first(), b, cursor, lid);
            },
            u => {
                lemma_events_for_concat(a.drop_first(), b, cursor, lid);
                vstd::seq_lib::lemma_concat_associative(
                    if cursor == Some(lid) {
                        seq![u]
                    } else {
                        Seq::<EntityUpdateV>::empty()
                    },
                    events_for_from(a.drop_first(), cursor, lid),
                    events_for_from(b, end_cursor(a.drop_first(), cursor), lid),
                );
            },
        }
    }
}

/// A run of field setters is applied in full when the cursor addresses the
/// entity, not at all otherwise, and never moves the cursor.
proof fn lemma_setter_run_events(ss: Seq<EntityUpdateV>, cursor: Option<Lid>, lid: Lid)
    requires
        all_field_setters(ss),
    ensures
        end_cursor(ss, cursor) == cursor,
        events_for_from(ss, cursor, lid) == (if cursor == Some(lid) {
            ss
        } else {
            Seq::<EntityUpdateV>::empty()
        }),
    decreases ss.len(),
{
    if ss.len() > 0 {
        assert(is_field_setter(ss[0]));
        assert(all_field_setters(ss.drop_first())) by {
            assert forall|k: int| 0 <= k < ss.drop_first().len() implies is_field_setter(
                #[trigger] ss.drop_first()[k],
            ) by {
                assert(ss.drop_first()[k] == ss[k + 1]);
            }
        }
        lemma_setter_run_events(ss.drop_first(), cursor, lid);
        if cursor == Some(lid) {
            assert(events_for_from(ss, cursor, lid) =~= ss);
        } else {
            assert(events_for_from(ss, cursor, lid) =~= Seq::<EntityUpdateV>::empty());
        }
    }
}

/// The payload one entry applies to its own entity: its full init when
/// freshly tracked, its changed-field updates otherwise.
pub open spec fn block_payload(p: EntityEntryPair) -> Seq<EntityUpdateV> {
    match p.last {
        None => seq![EntityUpdateV::Init((p.current)@, p.gid)],
        Some(l) => field_events(l@, (p.current)@),
    }
}

/// One entry's stream block applies its payload to its own id and nothing
/// to any other; its header leaves the cursor on its own id.
proof fn lemma_entry_block_events(e: (Lid, EntityEntryPair), cursor: Option<Lid>, lid: Lid)
    ensures
        events_for_from(entry_events(e), cursor, lid) == (if e.0 == lid {
            block_payload(e.1)
        } else {
            Seq::<EntityUpdateV>::empty()
        }),
        end_cursor(entry_events(e), cursor) == (if entry_events(e).len() > 0 {
            Some(e.0)
        } else {
            cursor
        }),
{
    let block = entry_events(e);
    match (e.1).last {
        None => {
            assert(block[0] == EntityUpdateV::CurrentEntity(e.0));
            let tail1 = block.drop_first();
            assert(tail1 =~= seq![EntityUpdateV::Init(((e.1).current)@, (e.1).gid)]);
            assert(tail1[0] == EntityUpdateV::Init(((e.1).current)@, (e.1).gid));
            assert(tail1.drop_first().len() == 0);
            assert(events_for_from(tail1.drop_first(), Some(e.0), lid)
                =~= Seq::<EntityUpdateV>::empty());
            assert(end_cursor(tail1.drop_first(), Some(e.0)) == Some(e.0));
            assert(events_for_from(block, cursor, lid) == events_for_from(tail1, Some(e.0), lid));
            assert(events_for_from(tail1, Some(e.0), lid) == (if Some(e.0) == Some(lid) {
                seq![EntityUpdateV::Init(((e.1).current)@, (e.1).gid)]
            } else {
                Seq::<EntityUpdateV>::empty()
            }) + events_for_from(tail1.drop_first(), Some(e.0), lid));
            assert(end_cursor(block, cursor) == end_cursor(tail1, Some(e.0)));
            assert(end_cursor(tail1, Some(e.0)) == end_cursor(tail1.drop_first(), Some(e.0)));
            if e.0 == lid {
                assert(events_for_from(block, cursor, lid) =~= block_payload(e.1));
            } else {
                assert(events_for_from(block, cursor, lid) =~= Seq::<EntityUpdateV>::empty());
            }
        },
        Some(l) => {
            let fes = field_events(l@, ((e.1).current)@);
            lemma_field_events_setters(l@, ((e.1).current)@);
            if fes.len() > 0 {
                assert(block == seq![EntityUpdateV::CurrentEntity(e.0)] + fes);
                assert(block[0] == EntityUpdateV::CurrentEntity(e.0));
                assert(block.drop_first() =~= fes);
                lemma_setter_run_events(fes, Some(e.0), lid);
                if e.0 == lid {
                    assert(events_for_from(block, cursor, lid) == fes);
                } else {
                    assert(events_for_from(block, cursor, lid) =~= Seq::<EntityUpdateV>::empty());
                }
            } else {
                assert(block =~= Seq::<EntityUpdateV>::empty());
                if e.0 == lid {
                    assert(block_payload(e.1) =~= Seq::<EntityUpdateV>::empty());
                }
            }
        },
    }
}

/// The entry blocks of a whole tick apply, to each id, exactly its own
/// entry's payload.
proof fn lemma_entries_stream_events_for(
    s: Seq<(Lid, EntityEntryPair)>,
    cursor: Option<Lid>,
    lid: Lid,
)
    requires
        lids_unique(s),
    ensures
        events_for_from(entries_stream(s), cursor, lid) == (if entries_have(s, lid) {
            block_payload(entry_value(s, lid))
        } else {
            Seq::<EntityUpdateV>::empty()
        }),
    decreases s.len(),
{
    if s.len() == 0 {
        if entries_have(s, lid) {
            let k = choose|k: int| 0 <= k < s.len() && (#[trigger] s[k]).0 == lid;
            assert(false);
        }
    } else {
        let front = s.drop_last();
        let e = s.last();
        assert(lids_unique(front)) by {
            assert forall|i: int, j: int| 0 <= i < j < front.len() implies (
            #[trigger] front[i]).0 != (#[trigger] front[j]).0 by {
                assert(front[i] == s[i] && front[j] == s[j]);
            }
        }
        lemma_entries_stream_events_for(front, cursor, lid);
        lemma_events_for_concat(
            entries_stream(front),
            entry_events(e),
            cursor,
            lid,
        );
        lemma_entry_block_events(e, end_cursor(entries_stream(front), cursor), lid);
        if e.0 == lid {
            if entries_have(front, lid) {
                let k = choose|k: int| 0 <= k < front.len() && (#[trigger] front[k]).0 == lid;
                assert((s[k]).0 == (s[s.len() - 1]).0);
                assert(false);
            }
            assert((s[s.len() - 1]).0 == lid);
            assert(entries_have(s, lid));
            let kv = choose|k: int| 0 <= k < s.len() && (#[trigger] s[k]).0 == lid;
            if kv != s.len() - 1 {
                assert((s[kv]).0 != (s[s.len() - 1]).0);
            }
            assert(entry_value(s, lid) == e.1);
            assert(events_for_from(entries_stream(s), cursor, lid) =~= block_payload(e.1));
        } else {
            if entries_have(front, lid) {
                let k = choose|k: int| 0 <= k < front.len() && (#[trigger] front[k]).0 == lid;
                assert((s[k]).0 == lid);
                assert(entries_have(s, lid));
                let kv = choose|k2: int| 0 <= k2 < s.len() && (#[trigger] s[k2]).0 == lid;
                let kf = choose|k2: int| 0 <= k2 < front.len() && (#[trigger] front[k2]).0 == lid;
                if kv != kf {
                    if kv == s.len() - 1 {
                        assert((s[kv]).0 != lid);
                    } else {
                        assert((s[kv]).0 != (s[kf]).0);
                    }
                }
                assert(entry_value(s, lid) == entry_value(front, lid));
                assert(events_for_from(entries_stream(s), cursor, lid) =~= block_payload(
                    entry_value(s, lid),
                ));
            } else {
                if entries_have(s, lid) {
                    let k = choose|k: int| 0 <= k < s.len() && (#[trigger] s[k]).0 == lid;
                    assert(k < s.len() - 1);
                    assert((front[k]).0 == lid);
                    assert(false);
                }
                assert(events_for_from(entries_stream(s), cursor, lid)
                    =~= Seq::<EntityUpdateV>::empty());
            }
        }
    }
}

/// An element that only queues work: it applies nothing to any entity.
pub open spec fn is_tail_event(u: EntityUpdateV) -> bool {
    match u {
        EntityUpdateV::LocalizeEntity(_, _) => true,
        EntityUpdateV::RemoveEntity(_) => true,
        EntityUpdateV::KillEntity { .. } => true,
        _ => false,
    }
}

/// A run of localize, removal and kill events applies nothing.
proof fn lemma_tail_run_events(s: Seq<EntityUpdateV>, cursor: Option<Lid>, lid: Lid)
    requires
        forall|k: int| 0 <= k < s.len() ==> is_tail_event(#[trigger] s[k]),
    ensures
        events_for_from(s, cursor, lid) == Seq::<EntityUpdateV>::empty(),
    decreases s.len(),
{
    if s.len() > 0 {
        assert(is_tail_event(s[0]));
        assert(forall|k: int|
            0 <= k < s.drop_first().len() ==> is_tail_event(#[trigger] s.drop_first()[k])) by {
            assert forall|k: int| 0 <= k < s.drop_first().len() implies is_tail_event(
                #[trigger] s.drop_first()[k],
            ) by {
                assert(s.drop_first()[k] == s[k + 1]);
            }
        }
        match s[0] {
            EntityUpdateV::LocalizeEntity(_, _) => {
                lemma_tail_run_events(s.drop_first(), None, lid);
            },
            _ => {
                lemma_tail_run_events(s.drop_first(), cursor, lid);
            },
        }
    }
}

proof fn lemma_localize_events_tail(q: Seq<(Lid, PeerId)>)
    ensures
        forall|k: int|
            0 <= k < localize_events(q).len() ==> is_tail_event(#[trigger] localize_events(q)[k]),
    decreases q.len(),
{
    if q.len() > 0 {
        lemma_localize_events_tail(q.drop_last());
        assert forall|k: int| 0 <= k < localize_events(q).len() implies is_tail_event(
            #[trigger] localize_events(q)[k],
        ) by {
            if k < localize_events(q.drop_last()).len() {
                assert(localize_events(q)[k] == localize_events(q.drop_last())[k]);
            }
        }
    }
}

proof fn lemma_death_events_tail(q: Seq<DeathNotify>, b: ProxyBindings, reg: PlayerRegistry)
    ensures
        forall|k: int|
            0 <= k < death_events(q, b, reg).len() ==> is_tail_event(
                #[trigger] death_events(q, b, reg)[k],
            ),
    decreases q.len(),
{
    if q.len() > 0 {
        lemma_death_events_tail(q.drop_last(), b, reg);
        assert forall|k: int| 0 <= k < death_events(q, b, reg).len() implies is_tail_event(
            #[trigger] death_events(q, b, reg)[k],
        ) by {
            if k < death_events(q.drop_last(), b, reg).len() {
                assert(death_events(q, b, reg)[k] == death_events(q.drop_last(), b, reg)[k]);
            }
        }
    }
}

proof fn lemma_removal_events_tail(q: Seq<Lid>)
    ensures
        forall|k: int|
            0 <= k < removal_events(q).len() ==> is_tail_event(#[trigger] removal_events(q)[k]),
    decreases q.len(),
{
    if q.len() > 0 {
        lemma_removal_events_tail(q.drop_last());
        assert forall|k: int| 0 <= k < removal_events(q).len() implies is_tail_event(
            #[trigger] removal_events(q)[k],
        ) by {
            if k < removal_events(q.drop_last()).len() {
                assert(removal_events(q)[k] == removal_events(q.drop_last())[k]);
            }
        }
    }
}

/// Law: across one whole tick stream — entry blocks, then the localize,
/// death and removal drains — the events applied to the entity under `lid`
/// are exactly its own entry's payload: one full init while freshly
/// tracked, its changed-field updates afterwards, nothing when untracked.
///
/// This also settles the order across ticks. Each stream is consumed by
/// one `apply_diff` call, whose contract starts the cursor afresh, so the
/// events a sequence of streams applies to `lid` is the concatenation of
/// each stream's own payload. `track_entity` leaves the entry with no
/// transmitted snapshot, and by `make_diff`'s contract the entry keeps
/// none until the stream carrying its init is produced; every stream up to
/// that point applies nothing to `lid`, the init stream applies exactly
/// the init, and only later streams apply field updates. No field update
/// for an id ever precedes its init.
pub proof fn lemma_stream_applies_own_payload(
    entries: Seq<(Lid, EntityEntryPair)>,
    localize: Seq<(Lid, PeerId)>,
    deaths: Seq<DeathNotify>,
    removals: Seq<Lid>,
    b: ProxyBindings,
    reg: PlayerRegistry,
    lid: Lid,
)
    requires
        lids_unique(entries),
    ensures
        ({
            let stream = entries_stream(entries) + localize_events(localize) + death_events(
                deaths,
                b,
                reg,
            ) + removal_events(removals);
            events_for(stream, lid) == (if entries_have(entries, lid) {
                block_payload(entry_value(entries, lid))
            } else {
                Seq::<EntityUpdateV>::empty()
            })
        }),
{
    let s1 = entries_stream(entries);
    let s2 = localize_events(localize);
    let s3 = death_events(deaths, b, reg);
    let s4 = removal_events(removals);
    let tail3 = s2 + s3 + s4;
    assert(s1 + s2 + s3 + s4 =~= s1 + tail3);
    lemma_events_for_concat(s1, tail3, None, lid);
    lemma_entries_stream_events_for(entries, None, lid);
    lemma_localize_events_tail(localize);
    lemma_death_events_tail(deaths, b, reg);
    lemma_removal_events_tail(removals);
    assert(forall|k: int| 0 <= k < tail3.len() ==> is_tail_event(#[trigger] tail3[k])) by {
        assert forall|k: int| 0 <= k < tail3.len() implies is_tail_event(#[trigger] tail3[k]) by {
            if k < (s2 + s3).len() {
                assert(tail3[k] == (s2 + s3)[k]);
                if k < s2.len() {
                    assert((s2 + s3)[k] == s2[k]);
                } else {
                    assert((s2 + s3)[k] == s3[k - s2.len()]);
                }
            } else {
                assert(tail3[k] == s4[k - (s2 + s3).len()]);
            }
        }
    }
    lemma_tail_run_events(tail3, end_cursor(s1, None), lid);
    if entries_have(entries, lid) {
        assert(events_for(s1 + tail3, lid) =~= block_payload(entry_value(entries, lid)));
    } else {
        assert(events_for(s1 + tail3, lid) =~= Seq::<EntityUpdateV>::empty());
    }
}

/// Law: the first stream after an entity begins being tracked applies
/// exactly one event to it — its full init.
pub proof fn lemma_fresh_entity_first_stream(
    entries: Seq<(Lid, EntityEntryPair)>,
    localize: Seq<(Lid, PeerId)>,
    deaths: Seq<DeathNotify>,
    removals: Seq<Lid>,
    b: ProxyBindings,
    reg: PlayerRegistry,
    lid: Lid,
)
    requires
        lids_unique(entries),
        entries_have(entries, lid),
        (entry_value(entries, lid)).last is None,
    ensures
        events_for(
            entries_stream(entries) + localize_events(localize) + death_events(deaths, b, reg)
                + removal_events(removals),
            lid,
        ) == seq![
            EntityUpdateV::Init(
                ((entry_value(entries, lid)).current)@,
                (entry_value(entries, lid)).gid,
            ),
        ],
{
    lemma_stream_applies_own_payload(entries, localize, deaths, removals, b, reg, lid);
}

} // verus!
