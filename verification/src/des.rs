//! Wire schema: the shared vocabulary of messages exchanged between one
//! peer's `LocalDiffModel` and every other peer's `RemoteDiffModel`, plus
//! the snapshot type the diff algorithm works on.
//!
//! Engine quantities that the simulation reports as floating point numbers
//! (positions, rotations, velocities, health) are carried here as opaque
//! integer encodings chosen by the embedder. The diff algorithm only ever
//! compares them for equality, which must be exact (a field is re-sent iff
//! its encoding changed), and orders health values, so the embedder's
//! encoding of health must preserve the engine's ordering.

use vstd::prelude::*;

use crate::ids::{EntityHandle, Gid, Lid, PeerId, WorldPos};

verus! {

/// How an observer can re-create an entity it has never seen: either by the
/// engine asset it was loaded from, or from a full serialized payload.
pub enum EntitySpawnInfo {
    Filename(String),
    Serialized { serialized_at: i32, data: Vec<u8> },
}

/// Ghost image of `EntitySpawnInfo`.
#[verifier::ext_equal]
pub enum EntitySpawnInfoV {
    Filename(Seq<char>),
    Serialized { serialized_at: i32, data: Seq<u8> },
}

impl View for EntitySpawnInfo {
    type V = EntitySpawnInfoV;

    open spec fn view(&self) -> EntitySpawnInfoV {
        match self {
            EntitySpawnInfo::Filename(f) => EntitySpawnInfoV::Filename(f@),
            EntitySpawnInfo::Serialized { serialized_at, data } => EntitySpawnInfoV::Serialized {
                serialized_at: *serialized_at,
                data: data@,
            },
        }
    }
}

impl DeepView for EntitySpawnInfo {
    type V = EntitySpawnInfoV;

    open spec fn deep_view(&self) -> EntitySpawnInfoV {
        self.view()
    }
}

impl EntitySpawnInfo {
    /// Structural copy with a proved relation to the original.
    pub fn duplicate(&self) -> (r: EntitySpawnInfo)
        ensures
            r@ == self@,
    {
        match self {
            EntitySpawnInfo::Filename(f) => EntitySpawnInfo::Filename(f.clone()),
            EntitySpawnInfo::Serialized { serialized_at, data } => {
                let d = data.clone();
                proof {
                    assert(d@ =~= data@);
                }
                EntitySpawnInfo::Serialized { serialized_at: *serialized_at, data: d }
            },
        }
    }
}

/// Everything another peer needs to take authority over one entity.
pub struct FullEntityData {
    pub gid: Gid,
    pub pos: WorldPos,
    pub data: EntitySpawnInfo,
    pub wand: Option<Vec<u8>>,
}

/// One entry of the periodic coarse position broadcast.
#[derive(Debug, Clone, Copy, PartialEq, Eq, Structural)]
pub struct UpdatePosition {
    pub gid: Gid,
    pub pos: WorldPos,
}

/// Messages a diff-model peer sends towards the relay/proxy side.
pub enum DesToProxy {
    InitOrUpdateEntity(FullEntityData),
    DeleteEntity(Gid, Option<EntityHandle>),
    ReleaseAuthority(Gid),
    TransferAuthorityTo(Gid, PeerId),
    RequestAuthority { pos: WorldPos, radius: i32 },
    UpdateWand(Gid, Option<Vec<u8>>),
    UpdatePositions(Vec<UpdatePosition>),
}

/// Messages the relay/proxy side sends back to the diff-model peer.
pub enum ProxyToDes {
    /// This peer was granted authority over the described entity.
    GotAuthority(FullEntityData),
}

/// Asks to be kept informed about entities around a position.
#[derive(Debug, Clone, Copy, PartialEq, Eq, Structural)]
pub struct InterestRequest {
    pub pos: WorldPos,
    pub radius: i32,
}

/// Transform and motion of one physics sub-body, as opaque encodings of the
/// engine's floating point values.
#[derive(Clone, Copy, Debug)]
pub struct PhysBodyInfo {
    pub x: u32,
    pub y: u32,
    pub angle: u32,
    pub vx: u32,
    pub vy: u32,
    pub av: u32,
}

impl PartialEq for PhysBodyInfo {
    fn eq(&self, other: &Self) -> (r: bool) {
        self.x == other.x && self.y == other.y && self.angle == other.angle && self.vx == other.vx
            && self.vy == other.vy && self.av == other.av
    }
}

impl Eq for PhysBodyInfo {

}

impl vstd::std_specs::cmp::PartialEqSpecImpl for PhysBodyInfo {
    open spec fn obeys_eq_spec() -> bool {
        true
    }

    open spec fn eq_spec(&self, other: &Self) -> bool {
        self == other
    }
}

/// What kind of entity a tracked entity is, for pickup handling.
#[derive(Debug, Clone, Copy, PartialEq, Eq, Structural)]
pub enum EntityKind {
    /// Normal entity, usually replicable by its asset name.
    Normal,
    /// Item entity: it can be picked up into an inventory.
    Item,
}

/// One active game effect on an entity, as an opaque serialized descriptor.
/// The diff algorithm only compares descriptors for equality.
pub struct GameEffectData(pub Vec<u8>);

impl View for GameEffectData {
    type V = Seq<u8>;

    open spec fn view(&self) -> Seq<u8> {
        self.0@
    }
}

impl DeepView for GameEffectData {
    type V = Seq<u8>;

    open spec fn deep_view(&self) -> Seq<u8> {
        self.0@
    }
}

impl PartialEq for GameEffectData {
    fn eq(&self, other: &Self) -> (r: bool) {
        let r = self.0 == other.0;
        proof {
            if self.0@ =~= other.0@ {
                assert(self.0@ == other.0@);
            }
        }
        r
    }
}

impl Eq for GameEffectData {

}

impl vstd::std_specs::cmp::PartialEqSpecImpl for GameEffectData {
    open spec fn obeys_eq_spec() -> bool {
        true
    }

    open spec fn eq_spec(&self, other: &Self) -> bool {
        self.0@ == other.0@
    }
}

impl GameEffectData {
    pub fn duplicate(&self) -> (r: GameEffectData)
        ensures
            r@ == self@,
    {
        let d = self.0.clone();
        proof {
            assert(d@ =~= self.0@);
        }
        GameEffectData(d)
    }
}

/// The carried-item payload of an entity: the item's own global id, if it
/// is itself tracked, plus its serialized form.
pub struct WandData {
    pub gid: Option<Gid>,
    pub serialized: Vec<u8>,
}

/// Ghost image of `WandData`.
#[verifier::ext_equal]
pub struct WandDataV {
    pub gid: Option<Gid>,
    pub serialized: Seq<u8>,
}

impl View for WandData {
    type V = WandDataV;

    open spec fn view(&self) -> WandDataV {
        WandDataV { gid: self.gid, serialized: self.serialized@ }
    }
}

impl DeepView for WandData {
    type V = WandDataV;

    open spec fn deep_view(&self) -> WandDataV {
        self.view()
    }
}

impl WandData {
    pub fn duplicate(&self) -> (r: WandData)
        ensures
            r@ == self@,
    {
        let s = self.serialized.clone();
        proof {
            assert(s@ =~= self.serialized@);
        }
        WandData { gid: self.gid, serialized: s }
    }
}

/// Flat snapshot of every synchronized attribute of one entity at one
/// instant. Two successive snapshots of the same entity are compared
/// field by field to decide which update events must be sent.
pub struct EntityInfo {
    pub spawn_info: EntitySpawnInfo,
    pub kind: EntityKind,
    /// Position, rotation and velocity, as opaque encodings.
    pub x: u32,
    pub y: u32,
    pub r: u32,
    pub vx: u32,
    pub vy: u32,
    /// Health, as an order-preserving encoding.
    pub hp: u32,
    /// Coarse integer position, kept alongside the exact encoding for the
    /// periodic position broadcast.
    pub world_pos: WorldPos,
    pub phys: Vec<Option<PhysBodyInfo>>,
    pub cost: i64,
    pub game_effects: Vec<GameEffectData>,
    pub current_stains: u64,
    pub facing_direction: bool,
    pub animations: Vec<u16>,
    pub wand: Option<WandData>,
    pub is_global: bool,
    pub drops_gold: bool,
    pub laser: Option<PeerId>,
    pub ai_rotation: u32,
    pub ai_state: i32,
    pub limbs: Vec<(u32, u32)>,
    pub is_enabled: bool,
    pub counter: u64,
}

/// Ghost image of `EntityInfo`.
#[verifier::ext_equal]
pub struct EntityInfoV {
    pub spawn_info: EntitySpawnInfoV,
    pub kind: EntityKind,
    pub x: u32,
    pub y: u32,
    pub r: u32,
    pub vx: u32,
    pub vy: u32,
    pub hp: u32,
    pub world_pos: WorldPos,
    pub phys: Seq<Option<PhysBodyInfo>>,
    pub cost: i64,
    pub game_effects: Seq<Seq<u8>>,
    pub current_stains: u64,
    pub facing_direction: bool,
    pub animations: Seq<u16>,
    pub wand: Option<WandDataV>,
    pub is_global: bool,
    pub drops_gold: bool,
    pub laser: Option<PeerId>,
    pub ai_rotation: u32,
    pub ai_state: i32,
    pub limbs: Seq<(u32, u32)>,
    pub is_enabled: bool,
    pub counter: u64,
}

impl View for EntityInfo {
    type V = EntityInfoV;

    open spec fn view(&self) -> EntityInfoV {
        EntityInfoV {
            spawn_info: self.spawn_info@,
            kind: self.kind,
            x: self.x,
            y: self.y,
            r: self.r,
            vx: self.vx,
            vy: self.vy,
            hp: self.hp,
            world_pos: self.world_pos,
            phys: self.phys@,
            cost: self.cost,
            game_effects: self.game_effects.deep_view(),
            current_stains: self.current_stains,
            facing_direction: self.facing_direction,
            animations: self.animations@,
            wand: self.wand.deep_view(),
            is_global: self.is_global,
            drops_gold: self.drops_gold,
            laser: self.laser,
            ai_rotation: self.ai_rotation,
            ai_state: self.ai_state,
            limbs: self.limbs@,
            is_enabled: self.is_enabled,
            counter: self.counter,
        }
    }
}

impl DeepView for EntityInfo {
    type V = EntityInfoV;

    open spec fn deep_view(&self) -> EntityInfoV {
        self.view()
    }
}

impl EntityInfoV {
    /// The global id of the carried item, if any: the only part of the
    /// carried-item payload the diff algorithm compares.
    pub open spec fn wand_gid(self) -> Option<Option<Gid>> {
        match self.wand {
            Some(w) => Some(w.gid),
            None => None,
        }
    }
}

impl EntityInfo {
    /// Structural copy with a proved relation to the original.
    pub fn duplicate(&self) -> (r: EntityInfo)
        ensures
            r@ == self@,
    {
        let phys = self.phys.clone();
        let animations = self.animations.clone();
        proof {
            assert(phys@ =~= self.phys@);
            assert(animations@ =~= self.animations@);
        }
        let mut limbs: Vec<(u32, u32)> = Vec::new();
        let mut i: usize = 0;
        while i < self.limbs.len()
            invariant
                i <= self.limbs.len(),
                limbs@ =~= self.limbs@.take(i as int),
            decreases self.limbs.len() - i,
        {
            limbs.push(self.limbs[i]);
            i = i + 1;
        }
        proof {
            assert(limbs@ =~= self.limbs@);
        }
        let mut game_effects: Vec<GameEffectData> = Vec::new();
        let mut j: usize = 0;
        while j < self.game_effects.len()
            invariant
                j <= self.game_effects.len(),
                game_effects.deep_view().len() == j,
                forall|k: int|
                    0 <= k < j ==> game_effects.deep_view()[k]
                        == self.game_effects.deep_view()[k],
            decreases self.game_effects.len() - j,
        {
            let g = self.game_effects[j].duplicate();
            let ghost before = game_effects@;
            let ghost before_dv = game_effects.deep_view();
            game_effects.push(g);
            proof {
                assert(game_effects@ =~= before.push(g));
                assert(game_effects.deep_view()[j as int] == g@);
                assert(self.game_effects.deep_view()[j as int]
                    == self.game_effects@[j as int].deep_view());
                assert forall|k: int| 0 <= k < j + 1 implies game_effects.deep_view()[k]
                    == self.game_effects.deep_view()[k] by {
                    if k < j {
                        assert(before_dv[k] == before[k].deep_view());
                        assert(game_effects.deep_view()[k] == before[k].deep_view());
                    } else {
                        assert(g@ == self.game_effects@[j as int].deep_view());
                        assert(self.game_effects.deep_view()[j as int]
                            == self.game_effects@[j as int].deep_view());
                    }
                }
            }
            j = j + 1;
        }
        proof {
            assert(game_effects.deep_view() =~~= self.game_effects.deep_view());
        }
        let wand = match &self.wand {
            Some(w) => Some(w.duplicate()),
            None => None,
        };
        let r = EntityInfo {
            spawn_info: self.spawn_info.duplicate(),
            kind: self.kind,
            x: self.x,
            y: self.y,
            r: self.r,
            vx: self.vx,
            vy: self.vy,
            hp: self.hp,
            world_pos: self.world_pos,
            phys,
            cost: self.cost,
            game_effects,
            current_stains: self.current_stains,
            facing_direction: self.facing_direction,
            animations,
            wand,
            is_global: self.is_global,
            drops_gold: self.drops_gold,
            laser: self.laser,
            ai_rotation: self.ai_rotation,
            ai_state: self.ai_state,
            limbs,
            is_enabled: self.is_enabled,
            counter: self.counter,
        };
        r
    }
}

/// One element of the ordered update stream a `LocalDiffModel` produces.
pub enum EntityUpdate {
    /// Sets the entity that the following field updates act on.
    CurrentEntity(Lid),
    /// Full snapshot of a newly tracked (or re-initialized) entity.
    Init(Box<EntityInfo>, Gid),
    SetPosition(u32, u32),
    SetRotation(u32),
    SetVelocity(u32, u32),
    SetHp(u32),
    SetPhysInfo(Vec<Option<PhysBodyInfo>>),
    SetCost(i64),
    SetAnimations(Vec<u16>),
    SetStains(u64),
    SetGameEffects(Vec<GameEffectData>),
    SetAiState(i32),
    SetAiRotation(u32),
    SetLimbs(Vec<(u32, u32)>),
    SetIsEnabled(bool),
    SetCounter(u64),
    SetWand(Option<WandData>),
    SetLaser(Option<PeerId>),
    SetFacingDirection(bool),
    RemoveEntity(Lid),
    LocalizeEntity(Lid, PeerId),
    KillEntity { lid: Lid, wait_on_kill: bool, responsible_peer: Option<PeerId> },
}

/// Ghost image of `EntityUpdate`.
#[verifier::ext_equal]
pub enum EntityUpdateV {
    CurrentEntity(Lid),
    Init(EntityInfoV, Gid),
    SetPosition(u32, u32),
    SetRotation(u32),
    SetVelocity(u32, u32),
    SetHp(u32),
    SetPhysInfo(Seq<Option<PhysBodyInfo>>),
    SetCost(i64),
    SetAnimations(Seq<u16>),
    SetStains(u64),
    SetGameEffects(Seq<Seq<u8>>),
    SetAiState(i32),
    SetAiRotation(u32),
    SetLimbs(Seq<(u32, u32)>),
    SetIsEnabled(bool),
    SetCounter(u64),
    SetWand(Option<WandDataV>),
    SetLaser(Option<PeerId>),
    SetFacingDirection(bool),
    RemoveEntity(Lid),
    LocalizeEntity(Lid, PeerId),
    KillEntity { lid: Lid, wait_on_kill: bool, responsible_peer: Option<PeerId> },
}

impl View for EntityUpdate {
    type V = EntityUpdateV;

    open spec fn view(&self) -> EntityUpdateV {
        match self {
            EntityUpdate::CurrentEntity(lid) => EntityUpdateV::CurrentEntity(*lid),
            EntityUpdate::Init(info, gid) => EntityUpdateV::Init(info@, *gid),
            EntityUpdate::SetPosition(x, y) => EntityUpdateV::SetPosition(*x, *y),
            EntityUpdate::SetRotation(r) => EntityUpdateV::SetRotation(*r),
            EntityUpdate::SetVelocity(vx, vy) => EntityUpdateV::SetVelocity(*vx, *vy),
            EntityUpdate::SetHp(hp) => EntityUpdateV::SetHp(*hp),
            EntityUpdate::SetPhysInfo(v) => EntityUpdateV::SetPhysInfo(v@),
            EntityUpdate::SetCost(c) => EntityUpdateV::SetCost(*c),
            EntityUpdate::SetAnimations(a) => EntityUpdateV::SetAnimations(a@),
            EntityUpdate::SetStains(s) => EntityUpdateV::SetStains(*s),
            EntityUpdate::SetGameEffects(e) => EntityUpdateV::SetGameEffects(e.deep_view()),
            EntityUpdate::SetAiState(s) => EntityUpdateV::SetAiState(*s),
            EntityUpdate::SetAiRotation(r) => EntityUpdateV::SetAiRotation(*r),
            EntityUpdate::SetLimbs(l) => EntityUpdateV::SetLimbs(l@),
            EntityUpdate::SetIsEnabled(e) => EntityUpdateV::SetIsEnabled(*e),
            EntityUpdate::SetCounter(c) => EntityUpdateV::SetCounter(*c),
            EntityUpdate::SetWand(w) => EntityUpdateV::SetWand(w.deep_view()),
            EntityUpdate::SetLaser(p) => EntityUpdateV::SetLaser(*p),
            EntityUpdate::SetFacingDirection(d) => EntityUpdateV::SetFacingDirection(*d),
            EntityUpdate::RemoveEntity(lid) => EntityUpdateV::RemoveEntity(*lid),
            EntityUpdate::LocalizeEntity(lid, peer) => EntityUpdateV::LocalizeEntity(*lid, *peer),
            EntityUpdate::KillEntity { lid, wait_on_kill, responsible_peer } => {
                EntityUpdateV::KillEntity {
                    lid: *lid,
                    wait_on_kill: *wait_on_kill,
                    responsible_peer: *responsible_peer,
                }
            },
        }
    }
}

impl DeepView for EntityUpdate {
    type V = EntityUpdateV;

    open spec fn deep_view(&self) -> EntityUpdateV {
        self.view()
    }
}

/// Session/interest envelope around the entity update stream.
pub enum RemoteDes {
    /// Sent when a client (re)starts, so stale state is dropped.
    Reset,
    InterestRequest(InterestRequest),
    EntityUpdate(Vec<EntityUpdate>),
    ExitedInterest,
    Projectiles(Vec<ProjectileFired>),
    RequestGrab(Lid),
}

/// A one-shot projectile replicated outside the continuous diff stream.
pub struct ProjectileFired {
    pub shooter_lid: Lid,
    pub position: (u32, u32),
    pub target: (u32, u32),
    pub serialized: Vec<u8>,
}

/// Ghost image of `ProjectileFired`.
#[verifier::ext_equal]
pub struct ProjectileFiredV {
    pub shooter_lid: Lid,
    pub position: (u32, u32),
    pub target: (u32, u32),
    pub serialized: Seq<u8>,
}

impl View for ProjectileFired {
    type V = ProjectileFiredV;

    open spec fn view(&self) -> ProjectileFiredV {
        ProjectileFiredV {
            shooter_lid: self.shooter_lid,
            position: self.position,
            target: self.target,
            serialized: self.serialized@,
        }
    }
}

impl DeepView for ProjectileFired {
    type V = ProjectileFiredV;

    open spec fn deep_view(&self) -> ProjectileFiredV {
        self.view()
    }
}

impl ProjectileFired {
    /// Structural copy with a proved relation to the original.
    pub fn duplicate(&self) -> (r: ProjectileFired)
        ensures
            r@ == self@,
    {
        let serialized = self.serialized.clone();
        proof {
            assert(serialized@ =~= self.serialized@);
        }
        ProjectileFired {
            shooter_lid: self.shooter_lid,
            position: self.position,
            target: self.target,
            serialized,
        }
    }
}

/// Something that must eventually be spawned as a consequence of a tracked
/// entity's death (dropped loot, gold), independent of the wire stream.
pub enum SpawnOnce {
    Enemy { file: String, drops_gold: bool, responsible: Option<PeerId> },
}

/// Ghost image of `SpawnOnce`.
#[verifier::ext_equal]
pub enum SpawnOnceV {
    Enemy { file: Seq<char>, drops_gold: bool, responsible: Option<PeerId> },
}

impl View for SpawnOnce {
    type V = SpawnOnceV;

    open spec fn view(&self) -> SpawnOnceV {
        match self {
            SpawnOnce::Enemy { file, drops_gold, responsible } => SpawnOnceV::Enemy {
                file: file@,
                drops_gold: *drops_gold,
                responsible: *responsible,
            },
        }
    }
}

impl DeepView for SpawnOnce {
    type V = SpawnOnceV;

    open spec fn deep_view(&self) -> SpawnOnceV {
        self.view()
    }
}

/// Byte-exact comparison of two byte vectors.
pub fn bytes_eq(a: &Vec<u8>, b: &Vec<u8>) -> (r: bool)
    ensures
        r == (a@ == b@),
{
    if a.len() != b.len() {
        return false;
    }
    let mut i: usize = 0;
    while i < a.len()
        invariant
            a@.len() == b@.len(),
            i <= a@.len(),
            forall|k: int| 0 <= k < i ==> a@[k] == b@[k],
        decreases a@.len() - i,
    {
        if a[i] != b[i] {
            return false;
        }
        i = i + 1;
    }
    proof {
        assert(a@ =~= b@);
    }
    true
}

/// Exact comparison of two animation index lists.
pub fn animations_eq(a: &Vec<u16>, b: &Vec<u16>) -> (r: bool)
    ensures
        r == (a@ == b@),
{
    if a.len() != b.len() {
        return false;
    }
    let mut i: usize = 0;
    while i < a.len()
        invariant
            a@.len() == b@.len(),
            i <= a@.len(),
            forall|k: int| 0 <= k < i ==> a@[k] == b@[k],
        decreases a@.len() - i,
    {
        if a[i] != b[i] {
            return false;
        }
        i = i + 1;
    }
    proof {
        assert(a@ =~= b@);
    }
    true
}

/// Exact comparison of two limb position lists.
pub fn limbs_eq(a: &Vec<(u32, u32)>, b: &Vec<(u32, u32)>) -> (r: bool)
    ensures
        r == (a@ == b@),
{
    if a.len() != b.len() {
        return false;
    }
    let mut i: usize = 0;
    while i < a.len()
        invariant
            a@.len() == b@.len(),
            i <= a@.len(),
            forall|k: int| 0 <= k < i ==> a@[k] == b@[k],
        decreases a@.len() - i,
    {
        if a[i].0 != b[i].0 || a[i].1 != b[i].1 {
            proof {
                assert(a@[i as int] != b@[i as int]);
            }
            return false;
        }
        proof {
            assert(a@[i as int] == b@[i as int]);
        }
        i = i + 1;
    }
    proof {
        assert(a@ =~= b@);
    }
    true
}

fn phys_body_eq(a: &PhysBodyInfo, b: &PhysBodyInfo) -> (r: bool)
    ensures
        r == (a == b),
{
    a.x == b.x && a.y == b.y && a.angle == b.angle && a.vx == b.vx && a.vy == b.vy && a.av == b.av
}

/// Bit-exact comparison of two physics sub-body lists.
pub fn phys_eq(a: &Vec<Option<PhysBodyInfo>>, b: &Vec<Option<PhysBodyInfo>>) -> (r: bool)
    ensures
        r == (a@ == b@),
{
    if a.len() != b.len() {
        return false;
    }
    let mut i: usize = 0;
    while i < a.len()
        invariant
            a@.len() == b@.len(),
            i <= a@.len(),
            forall|k: int| 0 <= k < i ==> a@[k] == b@[k],
        decreases a@.len() - i,
    {
        let same = match (&a[i], &b[i]) {
            (None, None) => true,
            (Some(pa), Some(pb)) => phys_body_eq(pa, pb),
            _ => false,
        };
        if !same {
            proof {
                assert(a@[i as int] != b@[i as int]);
            }
            return false;
        }
        proof {
            assert(a@[i as int] == b@[i as int]);
        }
        i = i + 1;
    }
    proof {
        assert(a@ =~= b@);
    }
    true
}

/// Exact comparison of two game effect lists, descriptor by descriptor.
pub fn effects_eq(a: &Vec<GameEffectData>, b: &Vec<GameEffectData>) -> (r: bool)
    ensures
        r == (a.deep_view() == b.deep_view()),
{
    if a.len() != b.len() {
        proof {
            assert(a.deep_view().len() != b.deep_view().len());
        }
        return false;
    }
    let mut i: usize = 0;
    while i < a.len()
        invariant
            a@.len() == b@.len(),
            i <= a@.len(),
            forall|k: int| 0 <= k < i ==> a.deep_view()[k] == b.deep_view()[k],
        decreases a@.len() - i,
    {
        if !bytes_eq(&a[i].0, &b[i].0) {
            proof {
                assert(a.deep_view()[i as int] != b.deep_view()[i as int]);
            }
            return false;
        }
        proof {
            assert(a.deep_view()[i as int] == b.deep_view()[i as int]);
        }
        i = i + 1;
    }
    proof {
        assert(a.deep_view() =~~= b.deep_view());
    }
    true
}

/// Equality of two optional peers.
pub fn opt_peer_eq(a: &Option<PeerId>, b: &Option<PeerId>) -> (r: bool)
    ensures
        r == (a == b),
{
    match (a, b) {
        (None, None) => true,
        (Some(pa), Some(pb)) => pa.0 == pb.0,
        _ => false,
    }
}

/// Equality of two optional global ids.
pub fn opt_gid_eq(a: &Option<Gid>, b: &Option<Gid>) -> (r: bool)
    ensures
        r == (a == b),
{
    match (a, b) {
        (None, None) => true,
        (Some(ga), Some(gb)) => ga.0 == gb.0,
        _ => false,
    }
}

/// The part of the carried-item payload the diff algorithm compares: the
/// carried item's global id, with the outer option distinguishing "carries
/// nothing" from "carries an untracked item".
pub open spec fn opt_wand_gid(w: Option<WandDataV>) -> Option<Option<Gid>> {
    match w {
        Some(wd) => Some(wd.gid),
        None => None,
    }
}

/// Whether two carried-item payloads name the same carried item.
pub fn wand_gid_eq(a: &Option<WandData>, b: &Option<WandData>) -> (r: bool)
    ensures
        r == (opt_wand_gid(a.deep_view()) == opt_wand_gid(b.deep_view())),
{
    match (a, b) {
        (None, None) => true,
        (Some(wa), Some(wb)) => opt_gid_eq(&wa.gid, &wb.gid),
        _ => false,
    }
}

/// Structural copy of a game effect list with a proved relation to the
/// original.
pub fn dup_effects(v: &Vec<GameEffectData>) -> (r: Vec<GameEffectData>)
    ensures
        r.deep_view() == v.deep_view(),
{
    let mut out: Vec<GameEffectData> = Vec::new();
    let mut j: usize = 0;
    while j < v.len()
        invariant
            j <= v@.len(),
            out.deep_view().len() == j,
            forall|k: int| 0 <= k < j ==> out.deep_view()[k] == v.deep_view()[k],
        decreases v@.len() - j,
    {
        let g = v[j].duplicate();
        let ghost before = out@;
        let ghost before_dv = out.deep_view();
        out.push(g);
        proof {
            assert(out@ =~= before.push(g));
            assert forall|k: int| 0 <= k < j + 1 implies out.deep_view()[k] == v.deep_view()[k] by {
                if k < j {
                    assert(before_dv[k] == before[k].deep_view());
                    assert(out.deep_view()[k] == before[k].deep_view());
                } else {
                    assert(out.deep_view()[j as int] == g@);
                    assert(v.deep_view()[j as int] == (v@[j as int]).deep_view());
                }
            }
        }
        j = j + 1;
    }
    proof {
        assert(out.deep_view() =~~= v.deep_view());
    }
    out
}

/// Structural copy of an optional carried-item payload.
pub fn dup_wand(v: &Option<WandData>) -> (r: Option<WandData>)
    ensures
        r.deep_view() == v.deep_view(),
{
    match v {
        Some(w) => Some(w.duplicate()),
        None => None,
    }
}

/// Structural copy of a limb position list.
pub fn dup_limbs(v: &Vec<(u32, u32)>) -> (r: Vec<(u32, u32)>)
    ensures
        r@ == v@,
{
    let mut out: Vec<(u32, u32)> = Vec::new();
    let mut i: usize = 0;
    while i < v.len()
        invariant
            i <= v@.len(),
            out@ =~= v@.take(i as int),
        decreases v@.len() - i,
    {
        out.push(v[i]);
        i = i + 1;
    }
    proof {
        assert(out@ =~= v@);
    }
    out
}

/// Structural copy of a physics sub-body list.
pub fn dup_phys(v: &Vec<Option<PhysBodyInfo>>) -> (r: Vec<Option<PhysBodyInfo>>)
    ensures
        r@ == v@,
{
    let c = v.clone();
    proof {
        assert(c@ =~= v@);
    }
    c
}

/// Structural copy of an animation index list.
pub fn dup_animations(v: &Vec<u16>) -> (r: Vec<u16>)
    ensures
        r@ == v@,
{
    let c = v.clone();
    proof {
        assert(c@ =~= v@);
    }
    c
}

} // verus!
