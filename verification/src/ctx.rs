//! Per-tick context: the lookups both diff models need while processing one
//! simulation tick. The driver builds it once per tick from the peer
//! registry and passes it by reference; there is no ambient global state.

use vstd::prelude::*;

use crate::bindings::PlayerRegistry;
use crate::ids::{EntityHandle, Gid, PeerId};

verus! {

/// Simulation rate assumed for a peer whose actual rate is unknown, in
/// ticks per second.
pub const DEFAULT_TICKRATE: u8 = 60;

/// First tick rate recorded for `peer`, or the default where none is.
pub open spec fn fps_in(s: Seq<(PeerId, u8)>, peer: PeerId) -> u8
    decreases s.len(),
{
    if s.len() == 0 {
        DEFAULT_TICKRATE
    } else if s[0].0 == peer {
        s[0].1
    } else {
        fps_in(s.drop_first(), peer)
    }
}

proof fn lemma_fps_in_skip(s: Seq<(PeerId, u8)>, peer: PeerId, i: int)
    requires
        0 <= i <= s.len(),
        forall|k: int| 0 <= k < i ==> (#[trigger] s[k]).0 != peer,
    ensures
        fps_in(s, peer) == fps_in(s.skip(i), peer),
    decreases i,
{
    if i > 0 {
        lemma_fps_in_skip(s, peer, i - 1);
        assert(s.skip(i - 1).drop_first() =~= s.skip(i));
        assert(s.skip(i - 1)[0] == s[i - 1]);
    } else {
        assert(s.skip(0) =~= s);
    }
}

/// Everything the diff models may consult about the rest of the session
/// during one tick.
pub struct ModuleCtx {
    /// The peer this process runs as.
    pub my_peer: PeerId,
    /// Which live entity is which peer's player.
    pub player_entities: PlayerRegistry,
    /// Last reported simulation rate of each peer, in ticks per second.
    pub fps_by_player: Vec<(PeerId, u8)>,
    /// Entities known to be mid-transfer: their proxies must not be spawned
    /// this tick even if a shadow entry exists.
    pub dont_spawn: Vec<Gid>,
}

impl ModuleCtx {
    pub open spec fn wf(self) -> bool {
        self.player_entities.wf()
    }

    pub fn new(my_peer: PeerId) -> (r: ModuleCtx)
        ensures
            r.wf(),
            r.my_peer == my_peer,
            r.player_entities@.len() == 0,
            r.fps_by_player@.len() == 0,
            r.dont_spawn@.len() == 0,
    {
        ModuleCtx {
            my_peer,
            player_entities: PlayerRegistry::new(),
            fps_by_player: Vec::new(),
            dont_spawn: Vec::new(),
        }
    }

    /// The simulation rate to assume for a peer.
    pub fn fps_of(&self, peer: PeerId) -> (r: u8)
        ensures
            r == fps_in(self.fps_by_player@, peer),
    {
        let mut i: usize = 0;
        while i < self.fps_by_player.len()
            invariant
                i <= self.fps_by_player@.len(),
                forall|k: int| 0 <= k < i ==> (#[trigger] self.fps_by_player@[k]).0 != peer,
            decreases self.fps_by_player@.len() - i,
        {
            if self.fps_by_player[i].0 == peer {
                proof {
                    lemma_fps_in_skip(self.fps_by_player@, peer, i as int);
                    assert(self.fps_by_player@.skip(i as int)[0] == self.fps_by_player@[i as int]);
                }
                return self.fps_by_player[i].1;
            }
            i = i + 1;
        }
        proof {
            lemma_fps_in_skip(self.fps_by_player@, peer, i as int);
            assert(self.fps_by_player@.skip(i as int).len() == 0);
        }
        DEFAULT_TICKRATE
    }

    /// Whether proxies for this global id are suppressed this tick.
    pub fn suppressed(&self, gid: Gid) -> (r: bool)
        ensures
            r == self.dont_spawn@.contains(gid),
    {
        let mut i: usize = 0;
        while i < self.dont_spawn.len()
            invariant
                i <= self.dont_spawn@.len(),
                forall|k: int| 0 <= k < i ==> self.dont_spawn@[k] != gid,
            decreases self.dont_spawn@.len() - i,
        {
            if self.dont_spawn[i] == gid {
                return true;
            }
            i = i + 1;
        }
        false
    }

    /// The peer whose player entity `h` is, if any.
    pub fn peer_of_player(&self, h: EntityHandle) -> (r: Option<PeerId>)
        requires
            self.wf(),
        ensures
            match r {
                Some(peer) => self.player_entities.binds(peer, h),
                None => !self.player_entities.has_handle(h),
            },
    {
        self.player_entities.get_by_right(h)
    }
}

} // verus!
