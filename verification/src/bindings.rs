//! Injective bidirectional tables.
//!
//! The diff models correlate stream-local ids with live entity handles, and
//! the per-tick context correlates peers with their player entities. Both
//! relations must stay injective in both directions, so they are kept in
//! dedicated table types whose operations preserve that invariant, instead
//! of two hash tables that could drift apart.

use vstd::prelude::*;

use crate::ids::{EntityHandle, Lid, PeerId};

verus! {

/// Bidirectional table binding stream-local ids to live proxy entities.
pub struct ProxyBindings {
    pairs: Vec<(Lid, EntityHandle)>,
}

impl View for ProxyBindings {
    type V = Seq<(Lid, EntityHandle)>;

    closed spec fn view(&self) -> Seq<(Lid, EntityHandle)> {
        self.pairs@
    }
}

/// Some index of `s` holds exactly the pair `(lid, h)`.
pub open spec fn pair_in(s: Seq<(Lid, EntityHandle)>, lid: Lid, h: EntityHandle) -> bool {
    exists|k: int| 0 <= k < s.len() && s[k] == (lid, h)
}

/// Some index of `s` holds exactly the pair `(peer, h)`.
pub open spec fn peer_pair_in(s: Seq<(PeerId, EntityHandle)>, peer: PeerId, h: EntityHandle) -> bool {
    exists|k: int| 0 <= k < s.len() && s[k] == (peer, h)
}

impl ProxyBindings {
    /// Both directions of the table are injective: no id is bound twice and
    /// no entity is bound twice.
    pub open spec fn wf(self) -> bool {
        forall|i: int, j: int|
            0 <= i < j < self@.len() ==> (#[trigger] self@[i]).0 != (#[trigger] self@[j]).0
                && self@[i].1 != self@[j].1
    }

    pub open spec fn binds(self, lid: Lid, h: EntityHandle) -> bool {
        pair_in(self@, lid, h)
    }

    pub open spec fn has_lid(self, lid: Lid) -> bool {
        exists|k: int| 0 <= k < self@.len() && (#[trigger] self@[k]).0 == lid
    }

    pub open spec fn has_handle(self, h: EntityHandle) -> bool {
        exists|k: int| 0 <= k < self@.len() && (#[trigger] self@[k]).1 == h
    }

    pub fn new() -> (r: ProxyBindings)
        ensures
            r@ == Seq::<(Lid, EntityHandle)>::empty(),
            r.wf(),
    {
        ProxyBindings { pairs: Vec::new() }
    }

    pub fn len(&self) -> (r: usize)
        ensures
            r == self@.len(),
    {
        self.pairs.len()
    }

    /// The entity a stream-local id is bound to, if any.
    pub fn get_by_left(&self, lid: Lid) -> (r: Option<EntityHandle>)
        requires
            self.wf(),
        ensures
            match r {
                Some(h) => self.binds(lid, h),
                None => !self.has_lid(lid),
            },
    {
        let mut i: usize = 0;
        while i < self.pairs.len()
            invariant
                i <= self@.len(),
                forall|k: int| 0 <= k < i ==> (#[trigger] self@[k]).0 != lid,
            decreases self@.len() - i,
        {
            if self.pairs[i].0 == lid {
                proof {
                    assert(self@[i as int] == (lid, self@[i as int].1));
                }
                return Some(self.pairs[i].1);
            }
            i = i + 1;
        }
        None
    }

    /// The stream-local id an entity is bound to, if any.
    pub fn get_by_right(&self, h: EntityHandle) -> (r: Option<Lid>)
        requires
            self.wf(),
        ensures
            match r {
                Some(lid) => self.binds(lid, h),
                None => !self.has_handle(h),
            },
    {
        let mut i: usize = 0;
        while i < self.pairs.len()
            invariant
                i <= self@.len(),
                forall|k: int| 0 <= k < i ==> (#[trigger] self@[k]).1 != h,
            decreases self@.len() - i,
        {
            if self.pairs[i].1 == h {
                proof {
                    assert(self@[i as int] == (self@[i as int].0, h));
                }
                return Some(self.pairs[i].0);
            }
            i = i + 1;
        }
        None
    }

    /// Removes the pair bound to this id, if any.
    pub fn remove_by_left(&mut self, lid: Lid) -> (r: Option<(Lid, EntityHandle)>)
        requires
            old(self).wf(),
        ensures
            final(self).wf(),
            match r {
                Some(p) => p.0 == lid && old(self).binds(lid, p.1),
                None => !old(self).has_lid(lid) && final(self)@ == old(self)@,
            },
            forall|l2: Lid, h2: EntityHandle|
                final(self).binds(l2, h2) <==> (old(self).binds(l2, h2) && l2 != lid),
    {
        let mut i: usize = 0;
        while i < self.pairs.len()
            invariant
                *self == *old(self),
                self.wf(),
                i <= self@.len(),
                forall|k: int| 0 <= k < i ==> (#[trigger] self@[k]).0 != lid,
            decreases self@.len() - i,
        {
            if self.pairs[i].0 == lid {
                let ghost prev = self@;
                let p = self.pairs.remove(i);
                proof {
                    assert(prev[i as int] == (lid, p.1));
                    lemma_pairs_remove(prev, self@, i as int, lid);
                }
                return Some(p);
            }
            i = i + 1;
        }
        proof {
            assert forall|l2: Lid, h2: EntityHandle| #[trigger] pair_in(self@, l2, h2) implies l2
                != lid by {
                let k = choose|k: int| 0 <= k < self@.len() && self@[k] == (l2, h2);
                assert((self@[k]).0 == l2);
            }
        }
        None
    }

    /// Removes the pair bound to this entity, if any.
    pub fn remove_by_right(&mut self, h: EntityHandle) -> (r: Option<(Lid, EntityHandle)>)
        requires
            old(self).wf(),
        ensures
            final(self).wf(),
            match r {
                Some(p) => p.1 == h && old(self).binds(p.0, h),
                None => !old(self).has_handle(h) && final(self)@ == old(self)@,
            },
            forall|l2: Lid, h2: EntityHandle|
                final(self).binds(l2, h2) <==> (old(self).binds(l2, h2) && h2 != h),
    {
        let mut i: usize = 0;
        while i < self.pairs.len()
            invariant
                *self == *old(self),
                self.wf(),
                i <= self@.len(),
                forall|k: int| 0 <= k < i ==> (#[trigger] self@[k]).1 != h,
            decreases self@.len() - i,
        {
            if self.pairs[i].1 == h {
                let ghost prev = self@;
                let p = self.pairs.remove(i);
                proof {
                    assert(prev[i as int] == (p.0, h));
                    lemma_pairs_remove_right(prev, self@, i as int, h);
                }
                return Some(p);
            }
            i = i + 1;
        }
        proof {
            assert forall|l2: Lid, h2: EntityHandle| #[trigger] pair_in(self@, l2, h2) implies h2
                != h by {
                let k = choose|k: int| 0 <= k < self@.len() && self@[k] == (l2, h2);
                assert((self@[k]).1 == h2);
            }
        }
        None
    }

    /// Binds an id to an entity. Any pair this id or this entity was part of
    /// is dropped first, so the table stays injective.
    pub fn insert(&mut self, lid: Lid, h: EntityHandle)
        requires
            old(self).wf(),
        ensures
            final(self).wf(),
            forall|l2: Lid, h2: EntityHandle|
                final(self).binds(l2, h2) <==> ((l2 == lid && h2 == h) || (old(self).binds(l2, h2)
                    && l2 != lid && h2 != h)),
    {
        self.remove_by_left(lid);
        let ghost mid = *self;
        self.remove_by_right(h);
        let ghost cleared = *self;
        self.pairs.push((lid, h));
        proof {
            assert(self@ =~= cleared@.push((lid, h)));
            assert forall|l2: Lid, h2: EntityHandle| #[trigger] pair_in(cleared@, l2, h2) implies
                l2 != lid && h2 != h by {
                assert(mid.binds(l2, h2) && h2 != h);
            }
            assert forall|i: int, j: int| 0 <= i < j < self@.len() implies (
            #[trigger] self@[i]).0 != (#[trigger] self@[j]).0 && self@[i].1 != self@[j].1 by {
                if j == self@.len() - 1 {
                    assert(cleared@[i] == self@[i]);
                    let pr = cleared@[i];
                    assert(pr == (pr.0, pr.1));
                    assert(pair_in(cleared@, pr.0, pr.1));
                }
            }
            assert forall|l2: Lid, h2: EntityHandle| self.binds(l2, h2) <==> ((l2 == lid && h2
                == h) || (old(self).binds(l2, h2) && l2 != lid && h2 != h)) by {
                if self.binds(l2, h2) {
                    let k = choose|k: int| 0 <= k < self@.len() && self@[k] == (l2, h2);
                    if k < self@.len() - 1 {
                        assert(cleared@[k] == (l2, h2));
                        assert(cleared.binds(l2, h2));
                    }
                }
                if (l2 == lid && h2 == h) {
                    assert(self@[self@.len() - 1] == (l2, h2));
                }
                if old(self).binds(l2, h2) && l2 != lid && h2 != h {
                    assert(mid.binds(l2, h2));
                    assert(cleared.binds(l2, h2));
                    let k = choose|k: int| 0 <= k < cleared@.len() && cleared@[k] == (l2, h2);
                    assert(self@[k] == (l2, h2));
                }
            }
        }
    }

    /// The table as a map from ids to entities.
    pub open spec fn to_map(self) -> Map<Lid, EntityHandle> {
        crate::assoc::assoc_map(self@)
    }

    /// A well-formed table has unique keys.
    pub proof fn lemma_wf_unique(self)
        requires
            self.wf(),
        ensures
            crate::assoc::assoc_unique(self@),
    {
    }

    /// The map agrees with the bound pairs.
    pub proof fn lemma_to_map(self)
        requires
            self.wf(),
        ensures
            forall|l: Lid| self.to_map().dom().contains(l) <==> #[trigger] self.has_lid(l),
            forall|l: Lid, h: EntityHandle|
                #[trigger] self.binds(l, h) <==> (self.to_map().dom().contains(l)
                    && self.to_map()[l] == h),
    {
        crate::assoc::lemma_assoc_dom::<Lid, EntityHandle>(self@);
        assert forall|l: Lid| self.to_map().dom().contains(l) <==> #[trigger] self.has_lid(l) by {
            assert(crate::assoc::assoc_has(self@, l) == self.has_lid(l));
        }
        assert forall|l: Lid, h: EntityHandle| #[trigger] self.binds(l, h) <==> (
        self.to_map().dom().contains(l) && self.to_map()[l] == h) by {
            if self.binds(l, h) {
                let k = choose|k: int| 0 <= k < self@.len() && self@[k] == (l, h);
                assert((self@[k]).0 == l);
                crate::assoc::lemma_assoc_at::<Lid, EntityHandle>(self@, k);
            }
            if self.to_map().dom().contains(l) && self.to_map()[l] == h {
                assert(crate::assoc::assoc_has(self@, l));
                let k = choose|k: int| 0 <= k < self@.len() && (#[trigger] self@[k]).0 == l;
                crate::assoc::lemma_assoc_at::<Lid, EntityHandle>(self@, k);
                assert((self@[k]).1 == h);
                assert(self@[k] == (l, h));
            }
        }
    }

    /// A removal keyed by id denotes a removal in the map.
    pub proof fn lemma_remove_to_map(pre: ProxyBindings, post: ProxyBindings, lid: Lid)
        requires
            pre.wf(),
            post.wf(),
            forall|l2: Lid, h2: EntityHandle|
                post.binds(l2, h2) <==> (pre.binds(l2, h2) && l2 != lid),
        ensures
            post.to_map() == pre.to_map().remove(lid),
    {
        pre.lemma_to_map();
        post.lemma_to_map();
        assert(post.to_map() =~= pre.to_map().remove(lid)) by {
            assert forall|l2: Lid|
                post.to_map().dom().contains(l2) <==> (pre.to_map().remove(lid)).dom().contains(
                    l2,
                ) by {
                if post.to_map().dom().contains(l2) {
                    let h2 = post.lemma_has_lid_witness(l2);
                    assert(pre.binds(l2, h2));
                    pre.lemma_binds_members(l2, h2);
                }
                if (pre.to_map().remove(lid)).dom().contains(l2) {
                    let h2 = pre.lemma_has_lid_witness(l2);
                    assert(post.binds(l2, h2));
                    post.lemma_binds_members(l2, h2);
                }
            }
            assert forall|l2: Lid| post.to_map().dom().contains(l2) implies post.to_map()[l2] == (
            pre.to_map().remove(lid))[l2] by {
                let h2 = post.lemma_has_lid_witness(l2);
                assert(pre.binds(l2, h2));
            }
        }
    }

    /// The id bound to `h`, if any; under `wf` it is the unique one.
    pub open spec fn spec_lid_of(self, h: EntityHandle) -> Option<Lid> {
        if self.has_handle(h) {
            Some(choose|l: Lid| self.binds(l, h))
        } else {
            None
        }
    }

    /// Under `wf`, at most one id is bound to an entity.
    pub proof fn lemma_left_unique(self, l1: Lid, l2: Lid, h: EntityHandle)
        requires
            self.wf(),
            self.binds(l1, h),
            self.binds(l2, h),
        ensures
            l1 == l2,
    {
        let k1 = choose|k: int| 0 <= k < self@.len() && self@[k] == (l1, h);
        let k2 = choose|k: int| 0 <= k < self@.len() && self@[k] == (l2, h);
        if k1 != k2 {
            assert((self@[k1]).1 == (self@[k2]).1);
        }
    }

    /// Under `wf`, at most one entity is bound to an id.
    pub proof fn lemma_right_unique(self, l: Lid, h1: EntityHandle, h2: EntityHandle)
        requires
            self.wf(),
            self.binds(l, h1),
            self.binds(l, h2),
        ensures
            h1 == h2,
    {
        let k1 = choose|k: int| 0 <= k < self@.len() && self@[k] == (l, h1);
        let k2 = choose|k: int| 0 <= k < self@.len() && self@[k] == (l, h2);
        if k1 != k2 {
            assert((self@[k1]).0 == (self@[k2]).0);
        }
    }

    /// `spec_lid_of` agrees with any bound pair.
    pub proof fn lemma_spec_lid_of(self, lid: Lid, h: EntityHandle)
        requires
            self.wf(),
            self.binds(lid, h),
        ensures
            self.spec_lid_of(h) == Some(lid),
    {
        self.lemma_binds_members(lid, h);
        assert(exists|l: Lid| self.binds(l, h));
        let l2 = choose|l: Lid| self.binds(l, h);
        self.lemma_left_unique(lid, l2, h);
    }

    /// A bound id has a bound partner.
    pub proof fn lemma_has_lid_witness(self, lid: Lid) -> (h: EntityHandle)
        requires
            self.has_lid(lid),
        ensures
            self.binds(lid, h),
    {
        let k = choose|k: int| 0 <= k < self@.len() && (#[trigger] self@[k]).0 == lid;
        let pr = self@[k];
        assert(pr == (pr.0, pr.1));
        pr.1
    }

    /// A bound entity has a bound partner.
    pub proof fn lemma_has_handle_witness(self, h: EntityHandle) -> (lid: Lid)
        requires
            self.has_handle(h),
        ensures
            self.binds(lid, h),
    {
        let k = choose|k: int| 0 <= k < self@.len() && (#[trigger] self@[k]).1 == h;
        let pr = self@[k];
        assert(pr == (pr.0, pr.1));
        pr.0
    }

    /// Both members of a bound pair are present.
    pub proof fn lemma_binds_members(self, lid: Lid, h: EntityHandle)
        requires
            self.binds(lid, h),
        ensures
            self.has_lid(lid),
            self.has_handle(h),
    {
        let k = choose|k: int| 0 <= k < self@.len() && self@[k] == (lid, h);
        assert((self@[k]).0 == lid);
        assert((self@[k]).1 == h);
    }

    /// Every bound entity, in table order.
    pub fn handles(&self) -> (r: Vec<EntityHandle>)
        ensures
            r@.len() == self@.len(),
            forall|k: int| 0 <= k < self@.len() ==> r@[k] == (#[trigger] self@[k]).1,
    {
        let mut r: Vec<EntityHandle> = Vec::new();
        let mut i: usize = 0;
        while i < self.pairs.len()
            invariant
                i <= self@.len(),
                r@.len() == i,
                forall|k: int| 0 <= k < i ==> r@[k] == (#[trigger] self@[k]).1,
            decreases self@.len() - i,
        {
            r.push(self.pairs[i].1);
            i = i + 1;
        }
        r
    }
}

/// After removing index `i`, whose pair was the unique one with left key
/// `lid`, the table is still injective, no pair has left key `lid`, and the
/// bound pairs are exactly the old ones minus those with left key `lid`.
proof fn lemma_pairs_remove(
    prev: Seq<(Lid, EntityHandle)>,
    cur: Seq<(Lid, EntityHandle)>,
    i: int,
    lid: Lid,
)
    requires
        0 <= i < prev.len(),
        cur == prev.remove(i),
        prev[i].0 == lid,
        forall|a: int, b: int|
            0 <= a < b < prev.len() ==> (#[trigger] prev[a]).0 != (#[trigger] prev[b]).0
                && prev[a].1 != prev[b].1,
    ensures
        forall|a: int, b: int|
            0 <= a < b < cur.len() ==> (#[trigger] cur[a]).0 != (#[trigger] cur[b]).0 && cur[a].1
                != cur[b].1,
        forall|l2: Lid, h2: EntityHandle|
            #[trigger] pair_in(cur, l2, h2) <==> (pair_in(prev, l2, h2) && l2 != lid),
{
    prev.remove_ensures(i);
    assert forall|a: int, b: int| 0 <= a < b < cur.len() implies (#[trigger] cur[a]).0 != (
    #[trigger] cur[b]).0 && cur[a].1 != cur[b].1 by {
        let pa = if a < i { a } else { a + 1 };
        let pb = if b < i { b } else { b + 1 };
        assert(cur[a] == prev[pa] && cur[b] == prev[pb]);
    }
    assert forall|l2: Lid, h2: EntityHandle| #[trigger] pair_in(cur, l2, h2) <==> (pair_in(
        prev,
        l2,
        h2,
    ) && l2 != lid) by {
        if pair_in(cur, l2, h2) {
            let k = choose|k: int| 0 <= k < cur.len() && cur[k] == (l2, h2);
            let pk = if k < i { k } else { k + 1 };
            assert(prev[pk] == (l2, h2));
            if pk < i {
                assert(prev[pk].0 != prev[i].0);
            } else if pk > i {
                assert(prev[i].0 != prev[pk].0);
            }
        }
        if pair_in(prev, l2, h2) && l2 != lid {
            let k = choose|k: int| 0 <= k < prev.len() && prev[k] == (l2, h2);
            if k < i {
                assert(cur[k] == (l2, h2));
            } else {
                assert(k != i);
                assert(cur[k - 1] == (l2, h2));
            }
        }
    }
}

/// Mirror of `lemma_pairs_remove` for removal keyed by the right side.
proof fn lemma_pairs_remove_right(
    prev: Seq<(Lid, EntityHandle)>,
    cur: Seq<(Lid, EntityHandle)>,
    i: int,
    h: EntityHandle,
)
    requires
        0 <= i < prev.len(),
        cur == prev.remove(i),
        prev[i].1 == h,
        forall|a: int, b: int|
            0 <= a < b < prev.len() ==> (#[trigger] prev[a]).0 != (#[trigger] prev[b]).0
                && prev[a].1 != prev[b].1,
    ensures
        forall|a: int, b: int|
            0 <= a < b < cur.len() ==> (#[trigger] cur[a]).0 != (#[trigger] cur[b]).0 && cur[a].1
                != cur[b].1,
        forall|l2: Lid, h2: EntityHandle|
            #[trigger] pair_in(cur, l2, h2) <==> (pair_in(prev, l2, h2) && h2 != h),
{
    prev.remove_ensures(i);
    assert forall|a: int, b: int| 0 <= a < b < cur.len() implies (#[trigger] cur[a]).0 != (
    #[trigger] cur[b]).0 && cur[a].1 != cur[b].1 by {
        let pa = if a < i { a } else { a + 1 };
        let pb = if b < i { b } else { b + 1 };
        assert(cur[a] == prev[pa] && cur[b] == prev[pb]);
    }
    assert forall|l2: Lid, h2: EntityHandle| #[trigger] pair_in(cur, l2, h2) <==> (pair_in(
        prev,
        l2,
        h2,
    ) && h2 != h) by {
        if pair_in(cur, l2, h2) {
            let k = choose|k: int| 0 <= k < cur.len() && cur[k] == (l2, h2);
            let pk = if k < i { k } else { k + 1 };
            assert(prev[pk] == (l2, h2));
            if pk < i {
                assert(prev[pk].1 != prev[i].1);
            } else if pk > i {
                assert(prev[i].1 != prev[pk].1);
            }
        }
        if pair_in(prev, l2, h2) && h2 != h {
            let k = choose|k: int| 0 <= k < prev.len() && prev[k] == (l2, h2);
            if k < i {
                assert(cur[k] == (l2, h2));
            } else {
                assert(k != i);
                assert(cur[k - 1] == (l2, h2));
            }
        }
    }
}

/// Bidirectional table binding peers to their live player entities,
/// rebuilt by the driver once per tick.
pub struct PlayerRegistry {
    pairs: Vec<(PeerId, EntityHandle)>,
}

impl View for PlayerRegistry {
    type V = Seq<(PeerId, EntityHandle)>;

    closed spec fn view(&self) -> Seq<(PeerId, EntityHandle)> {
        self.pairs@
    }
}

impl PlayerRegistry {
    pub open spec fn wf(self) -> bool {
        forall|i: int, j: int|
            0 <= i < j < self@.len() ==> (#[trigger] self@[i]).0 != (#[trigger] self@[j]).0
                && self@[i].1 != self@[j].1
    }

    pub open spec fn binds(self, peer: PeerId, h: EntityHandle) -> bool {
        peer_pair_in(self@, peer, h)
    }

    pub open spec fn has_peer(self, peer: PeerId) -> bool {
        exists|k: int| 0 <= k < self@.len() && (#[trigger] self@[k]).0 == peer
    }

    pub open spec fn has_handle(self, h: EntityHandle) -> bool {
        exists|k: int| 0 <= k < self@.len() && (#[trigger] self@[k]).1 == h
    }

    pub fn new() -> (r: PlayerRegistry)
        ensures
            r@ == Seq::<(PeerId, EntityHandle)>::empty(),
            r.wf(),
    {
        PlayerRegistry { pairs: Vec::new() }
    }

    /// Registers a peer's player entity. The registry is built fresh each
    /// tick, so a peer or entity already present is rejected rather than
    /// silently rebound.
    pub fn insert(&mut self, peer: PeerId, h: EntityHandle) -> (r: bool)
        requires
            old(self).wf(),
        ensures
            final(self).wf(),
            r == (!old(self).has_peer(peer) && !old(self).has_handle(h)),
            r ==> forall|p2: PeerId, h2: EntityHandle|
                final(self).binds(p2, h2) <==> (old(self).binds(p2, h2) || (p2 == peer && h2
                    == h)),
            !r ==> final(self)@ == old(self)@,
    {
        let mut i: usize = 0;
        while i < self.pairs.len()
            invariant
                *self == *old(self),
                self.wf(),
                i <= self@.len(),
                forall|k: int|
                    0 <= k < i ==> (#[trigger] self@[k]).0 != peer && (#[trigger] self@[k]).1 != h,
            decreases self@.len() - i,
        {
            if self.pairs[i].0 == peer || self.pairs[i].1 == h {
                proof {
                    assert((self@[i as int]).0 == peer || (self@[i as int]).1 == h);
                }
                return false;
            }
            i = i + 1;
        }
        let ghost prev = self@;
        self.pairs.push((peer, h));
        proof {
            assert(self@ =~= prev.push((peer, h)));
            assert forall|p2: PeerId, h2: EntityHandle| self.binds(p2, h2) <==> (old(self).binds(
                p2,
                h2,
            ) || (p2 == peer && h2 == h)) by {
                if self.binds(p2, h2) {
                    let k = choose|k: int| 0 <= k < self@.len() && self@[k] == (p2, h2);
                    if k < self@.len() - 1 {
                        assert(prev[k] == (p2, h2));
                    }
                }
                if old(self).binds(p2, h2) {
                    let k = choose|k: int| 0 <= k < prev.len() && prev[k] == (p2, h2);
                    assert(self@[k] == (p2, h2));
                }
                if p2 == peer && h2 == h {
                    assert(self@[self@.len() - 1] == (p2, h2));
                }
            }
        }
        true
    }

    /// The peer bound to player entity `h`, if any; under `wf` the unique one.
    pub open spec fn spec_peer_of(self, h: EntityHandle) -> Option<PeerId> {
        if self.has_handle(h) {
            Some(choose|p: PeerId| self.binds(p, h))
        } else {
            None
        }
    }

    /// Under `wf`, at most one peer is bound to a player entity.
    pub proof fn lemma_peer_unique(self, p1: PeerId, p2: PeerId, h: EntityHandle)
        requires
            self.wf(),
            self.binds(p1, h),
            self.binds(p2, h),
        ensures
            p1 == p2,
    {
        let k1 = choose|k: int| 0 <= k < self@.len() && self@[k] == (p1, h);
        let k2 = choose|k: int| 0 <= k < self@.len() && self@[k] == (p2, h);
        if k1 != k2 {
            assert((self@[k1]).1 == (self@[k2]).1);
        }
    }

    /// `spec_peer_of` agrees with any bound pair.
    pub proof fn lemma_spec_peer_of(self, peer: PeerId, h: EntityHandle)
        requires
            self.wf(),
            self.binds(peer, h),
        ensures
            self.spec_peer_of(h) == Some(peer),
    {
        let k = choose|k: int| 0 <= k < self@.len() && self@[k] == (peer, h);
        assert((self@[k]).1 == h);
        assert(self.has_handle(h));
        assert(exists|p: PeerId| self.binds(p, h));
        let p2 = choose|p: PeerId| self.binds(p, h);
        self.lemma_peer_unique(peer, p2, h);
    }

    /// The player entity bound to `peer`, if any; under `wf` the unique one.
    pub open spec fn spec_handle_of(self, peer: PeerId) -> Option<EntityHandle> {
        if self.has_peer(peer) {
            Some(choose|h: EntityHandle| self.binds(peer, h))
        } else {
            None
        }
    }

    /// Under `wf`, at most one player entity is bound to a peer.
    pub proof fn lemma_handle_unique(self, peer: PeerId, h1: EntityHandle, h2: EntityHandle)
        requires
            self.wf(),
            self.binds(peer, h1),
            self.binds(peer, h2),
        ensures
            h1 == h2,
    {
        let k1 = choose|k: int| 0 <= k < self@.len() && self@[k] == (peer, h1);
        let k2 = choose|k: int| 0 <= k < self@.len() && self@[k] == (peer, h2);
        if k1 != k2 {
            assert((self@[k1]).0 == (self@[k2]).0);
        }
    }

    /// `spec_handle_of` agrees with any bound pair.
    pub proof fn lemma_spec_handle_of(self, peer: PeerId, h: EntityHandle)
        requires
            self.wf(),
            self.binds(peer, h),
        ensures
            self.spec_handle_of(peer) == Some(h),
    {
        let k = choose|k: int| 0 <= k < self@.len() && self@[k] == (peer, h);
        assert((self@[k]).0 == peer);
        assert(self.has_peer(peer));
        assert(exists|h2: EntityHandle| self.binds(peer, h2));
        let h2 = choose|h2: EntityHandle| self.binds(peer, h2);
        self.lemma_handle_unique(peer, h, h2);
    }

    /// The player entity of a peer, if known.
    pub fn get_by_left(&self, peer: PeerId) -> (r: Option<EntityHandle>)
        requires
            self.wf(),
        ensures
            match r {
                Some(h) => self.binds(peer, h),
                None => !self.has_peer(peer),
            },
    {
        let mut i: usize = 0;
        while i < self.pairs.len()
            invariant
                i <= self@.len(),
                forall|k: int| 0 <= k < i ==> (#[trigger] self@[k]).0 != peer,
            decreases self@.len() - i,
        {
            if self.pairs[i].0 == peer {
                proof {
                    assert(self@[i as int] == (peer, self@[i as int].1));
                }
                return Some(self.pairs[i].1);
            }
            i = i + 1;
        }
        None
    }

    /// The peer whose player entity this is, if any.
    pub fn get_by_right(&self, h: EntityHandle) -> (r: Option<PeerId>)
        requires
            self.wf(),
        ensures
            match r {
                Some(peer) => self.binds(peer, h),
                None => !self.has_handle(h),
            },
    {
        let mut i: usize = 0;
        while i < self.pairs.len()
            invariant
                i <= self@.len(),
                forall|k: int| 0 <= k < i ==> (#[trigger] self@[k]).1 != h,
            decreases self@.len() - i,
        {
            if self.pairs[i].1 == h {
                proof {
                    assert(self@[i as int] == (self@[i as int].0, h));
                }
                return Some(self.pairs[i].0);
            }
            i = i + 1;
        }
        None
    }
}

} // verus!
