//! The shared model: the in-memory fact store replicated to every joining
//! client, plus the ownership guard that restricts who may overwrite a
//! fact. A fact key is `(room, component_type, creator, index)`; the owner
//! key deliberately omits `component_type`.
use vstd::prelude::*;
use vstd::slice::slice_to_vec;

verus! {

/// The component type stored for facts written through `SetData`, whose
/// wire body carries no component type of its own.
pub const DEFAULT_COMPONENT_TYPE: u8 = 0;

/// One fact: an opaque byte value stored under its key.
#[derive(Debug, PartialEq, Eq)]
pub struct Fact {
    pub room: u8,
    pub component_type: u8,
    pub creator_id: u16,
    pub index: u16,
    pub data: Vec<u8>,
}

/// The identity of a fact within a running relay.
pub open spec fn spec_fact_key(f: Fact) -> (u8, u8, u16, u16) {
    (f.room, f.component_type, f.creator_id, f.index)
}

/// One ownership entry: only `owner` may overwrite facts under
/// `(room, creator_id, index)`, whatever their component type.
#[derive(Debug, Clone, Copy, PartialEq, Eq, Structural)]
pub struct OwnerEntry {
    pub room: u8,
    pub creator_id: u16,
    pub index: u16,
    pub owner: u16,
}

pub open spec fn spec_owner_key(o: OwnerEntry) -> (u8, u16, u16) {
    (o.room, o.creator_id, o.index)
}

/// The map a sequence of facts denotes; a later entry for the same key wins.
pub open spec fn spec_facts_map(facts: Seq<Fact>) -> Map<(u8, u8, u16, u16), Seq<u8>>
    decreases facts.len(),
{
    if facts.len() == 0 {
        Map::empty()
    } else {
        spec_facts_map(facts.drop_last()).insert(
            spec_fact_key(facts.last()),
            facts.last().data@,
        )
    }
}

/// The map a sequence of ownership entries denotes.
pub open spec fn spec_owners_map(owners: Seq<OwnerEntry>) -> Map<(u8, u16, u16), u16>
    decreases owners.len(),
{
    if owners.len() == 0 {
        Map::empty()
    } else {
        spec_owners_map(owners.drop_last()).insert(
            spec_owner_key(owners.last()),
            owners.last().owner,
        )
    }
}

/// The fact store. Facts are kept in first-insertion order with unique keys.
#[derive(Debug, PartialEq, Eq)]
pub struct Model {
    pub facts: Vec<Fact>,
}

impl View for Model {
    type V = Map<(u8, u8, u16, u16), Seq<u8>>;

    open spec fn view(&self) -> Self::V {
        spec_facts_map(self.facts@)
    }
}

/// Each fact key appears at most once.
pub open spec fn spec_facts_unique(facts: Seq<Fact>) -> bool {
    forall|i: int, j: int|
        0 <= i < j < facts.len() ==> spec_fact_key(facts[i]) != spec_fact_key(facts[j])
}

/// Each owner key appears at most once.
pub open spec fn spec_owners_unique(owners: Seq<OwnerEntry>) -> bool {
    forall|i: int, j: int|
        0 <= i < j < owners.len() ==> spec_owner_key(owners[i]) != spec_owner_key(owners[j])
}

impl Model {
    pub open spec fn wf(&self) -> bool {
        spec_facts_unique(self.facts@)
    }

    /// An empty fact store.
    pub fn new() -> (r: Model)
        ensures
            r.wf(),
            r@ == Map::<(u8, u8, u16, u16), Seq<u8>>::empty(),
            r.facts@.len() == 0,
    {
        Model { facts: Vec::new() }
    }

    /// Stores `fact` under its key; an existing entry for the key is
    /// overwritten in place, so first-insertion order is kept.
    pub fn insert(&mut self, fact: Fact)
        requires
            old(self).wf(),
        ensures
            final(self).wf(),
            final(self)@ == old(self)@.insert(spec_fact_key(fact), fact.data@),
            !old(self)@.contains_key(spec_fact_key(fact)) ==> final(self).facts@ == old(
                self,
            ).facts@.push(fact),
    {
        proof {
            lemma_facts_map_membership(self.facts@);
        }
        let n = self.facts.len();
        let mut i: usize = 0;
        while i < n
            invariant
                old(self).wf(),
                self.facts@ == old(self).facts@,
                n == self.facts@.len(),
                i <= n,
                forall|j: int|
                    0 <= j < i ==> spec_fact_key(#[trigger] self.facts@[j]) != spec_fact_key(fact),
            decreases n - i,
        {
            let same = {
                let existing = &self.facts[i];
                existing.room == fact.room && existing.component_type == fact.component_type
                    && existing.creator_id == fact.creator_id && existing.index == fact.index
            };
            if same {
                proof {
                    assert(spec_fact_key(self.facts@[i as int]) == spec_fact_key(fact));
                    lemma_facts_map_membership(self.facts@);
                    assert(spec_facts_map(self.facts@).contains_key(spec_fact_key(fact)));
                    lemma_facts_map_update(self.facts@, i as int, fact);
                }
                self.facts[i] = fact;
                return ;
            }
            i = i + 1;
        }
        proof {
        lemma_facts_map_membership(self.facts@);
            assert(!spec_facts_map(self.facts@).contains_key(spec_fact_key(fact))) by {
                if spec_facts_map(self.facts@).contains_key(spec_fact_key(fact)) {
                    let j = choose|j: int|
                        0 <= j < self.facts@.len() && spec_fact_key(#[trigger] self.facts@[j])
                            == spec_fact_key(fact);
                    assert(false);
                }
            }
        }
        let ghost pre = self.facts@;
        self.facts.push(fact);
        proof {
            assert(self.facts@.drop_last() =~= pre);
            assert(self.facts@.last() == fact);
            assert forall|a: int, b: int| 0 <= a < b < self.facts@.len() implies spec_fact_key(
                #[trigger] self.facts@[a],
            ) != spec_fact_key(#[trigger] self.facts@[b]) by {
                if b < self.facts@.len() - 1 {
                    assert(spec_fact_key(pre[a]) != spec_fact_key(pre[b]));
                } else {
                    assert(spec_fact_key(self.facts@[a]) != spec_fact_key(fact));
                }
            }
        }
    }
}

/// A key is in the denoted map exactly when some entry carries it.
pub proof fn lemma_facts_map_membership(facts: Seq<Fact>)
    ensures
        forall|k: (u8, u8, u16, u16)|
            #[trigger] spec_facts_map(facts).contains_key(k) <==> exists|i: int|
                0 <= i < facts.len() && spec_fact_key(#[trigger] facts[i]) == k,
    decreases facts.len(),
{
    if facts.len() > 0 {
        lemma_facts_map_membership(facts.drop_last());
        assert forall|k: (u8, u8, u16, u16)| #[trigger]
            spec_facts_map(facts).contains_key(k) implies exists|i: int|
            0 <= i < facts.len() && spec_fact_key(#[trigger] facts[i]) == k by {
            if k == spec_fact_key(facts.last()) {
                assert(spec_fact_key(facts[facts.len() - 1]) == k);
            } else {
                assert(spec_facts_map(facts.drop_last()).contains_key(k));
                let i = choose|i: int|
                    0 <= i < facts.drop_last().len() && spec_fact_key(
                        #[trigger] facts.drop_last()[i],
                    ) == k;
                assert(spec_fact_key(facts[i]) == k);
            }
        }
        assert forall|k: (u8, u8, u16, u16)|
            exists|i: int|
                0 <= i < facts.len() && spec_fact_key(#[trigger] facts[i])
                    == k implies #[trigger] spec_facts_map(facts).contains_key(k) by {
            let i = choose|i: int| 0 <= i < facts.len() && spec_fact_key(#[trigger] facts[i]) == k;
            if i < facts.len() - 1 {
                assert(spec_fact_key(facts.drop_last()[i]) == k);
                assert(spec_facts_map(facts.drop_last()).contains_key(k));
            }
        }
    }
}

/// The denoted value of each entry's key, when keys are unique, is that
/// entry's data.
pub proof fn lemma_facts_map_value(facts: Seq<Fact>, i: int)
    requires
        spec_facts_unique(facts),
        0 <= i < facts.len(),
    ensures
        spec_facts_map(facts).contains_key(spec_fact_key(facts[i])),
        spec_facts_map(facts)[spec_fact_key(facts[i])] == facts[i].data@,
    decreases facts.len(),
{
    if i == facts.len() - 1 {
    } else {
        lemma_facts_map_value(facts.drop_last(), i);
        assert(facts.drop_last()[i] == facts[i]);
        assert(spec_fact_key(facts.last()) != spec_fact_key(facts[i]));
    }
}

/// Replacing the entry that holds a key denotes the same map as inserting
/// that key.
pub proof fn lemma_facts_map_update(facts: Seq<Fact>, i: int, f: Fact)
    requires
        spec_facts_unique(facts),
        0 <= i < facts.len(),
        spec_fact_key(facts[i]) == spec_fact_key(f),
    ensures
        spec_facts_map(facts.update(i, f)) == spec_facts_map(facts).insert(
            spec_fact_key(f),
            f.data@,
        ),
        spec_facts_unique(facts.update(i, f)),
    decreases facts.len(),
{
    assert forall|a: int, b: int| 0 <= a < b < facts.update(i, f).len() implies spec_fact_key(
        facts.update(i, f)[a],
    ) != spec_fact_key(facts.update(i, f)[b]) by {
        assert(spec_fact_key(facts[a]) != spec_fact_key(facts[b]));
    }
    if i == facts.len() - 1 {
        assert(facts.update(i, f).drop_last() =~= facts.drop_last());
        assert(facts.update(i, f).last() == f);
        assert(spec_facts_map(facts.update(i, f)) =~= spec_facts_map(facts).insert(
            spec_fact_key(f),
            f.data@,
        ));
    } else {
        lemma_facts_map_update(facts.drop_last(), i, f);
        assert(facts.update(i, f).drop_last() =~= facts.drop_last().update(i, f));
        assert(facts.update(i, f).last() == facts.last());
        assert(spec_fact_key(facts.last()) != spec_fact_key(f));
        assert(spec_facts_map(facts.update(i, f)) =~= spec_facts_map(facts).insert(
            spec_fact_key(f),
            f.data@,
        ));
    }
}

/// Same, for ownership entries.
pub proof fn lemma_owners_map_membership(owners: Seq<OwnerEntry>)
    ensures
        forall|k: (u8, u16, u16)|
            #[trigger] spec_owners_map(owners).contains_key(k) <==> exists|i: int|
                0 <= i < owners.len() && spec_owner_key(#[trigger] owners[i]) == k,
    decreases owners.len(),
{
    if owners.len() > 0 {
        lemma_owners_map_membership(owners.drop_last());
        assert forall|k: (u8, u16, u16)| #[trigger]
            spec_owners_map(owners).contains_key(k) implies exists|i: int|
            0 <= i < owners.len() && spec_owner_key(#[trigger] owners[i]) == k by {
            if k == spec_owner_key(owners.last()) {
                assert(spec_owner_key(owners[owners.len() - 1]) == k);
            } else {
                assert(spec_owners_map(owners.drop_last()).contains_key(k));
                let i = choose|i: int|
                    0 <= i < owners.drop_last().len() && spec_owner_key(
                        #[trigger] owners.drop_last()[i],
                    ) == k;
                assert(spec_owner_key(owners[i]) == k);
            }
        }
        assert forall|k: (u8, u16, u16)|
            exists|i: int|
                0 <= i < owners.len() && spec_owner_key(#[trigger] owners[i])
                    == k implies #[trigger] spec_owners_map(owners).contains_key(k) by {
            let i = choose|i: int| 0 <= i < owners.len() && spec_owner_key(#[trigger] owners[i]) == k;
            if i < owners.len() - 1 {
                assert(spec_owner_key(owners.drop_last()[i]) == k);
                assert(spec_owners_map(owners.drop_last()).contains_key(k));
            }
        }
    }
}

/// The denoted owner of each entry's key, when keys are unique.
pub proof fn lemma_owners_map_value(owners: Seq<OwnerEntry>, i: int)
    requires
        spec_owners_unique(owners),
        0 <= i < owners.len(),
    ensures
        spec_owners_map(owners).contains_key(spec_owner_key(owners[i])),
        spec_owners_map(owners)[spec_owner_key(owners[i])] == owners[i].owner,
    decreases owners.len(),
{
    if i == owners.len() - 1 {
    } else {
        lemma_owners_map_value(owners.drop_last(), i);
        assert(owners.drop_last()[i] == owners[i]);
        assert(spec_owner_key(owners.last()) != spec_owner_key(owners[i]));
    }
}

/// Replacing the entry that holds an owner key denotes the same map as
/// inserting that key.
pub proof fn lemma_owners_map_update(owners: Seq<OwnerEntry>, i: int, o: OwnerEntry)
    requires
        spec_owners_unique(owners),
        0 <= i < owners.len(),
        spec_owner_key(owners[i]) == spec_owner_key(o),
    ensures
        spec_owners_map(owners.update(i, o)) == spec_owners_map(owners).insert(
            spec_owner_key(o),
            o.owner,
        ),
        spec_owners_unique(owners.update(i, o)),
    decreases owners.len(),
{
    assert forall|a: int, b: int| 0 <= a < b < owners.update(i, o).len() implies spec_owner_key(
        owners.update(i, o)[a],
    ) != spec_owner_key(owners.update(i, o)[b]) by {
        assert(spec_owner_key(owners[a]) != spec_owner_key(owners[b]));
    }
    if i == owners.len() - 1 {
        assert(owners.update(i, o).drop_last() =~= owners.drop_last());
        assert(spec_owners_map(owners.update(i, o)) =~= spec_owners_map(owners).insert(
            spec_owner_key(o),
            o.owner,
        ));
    } else {
        lemma_owners_map_update(owners.drop_last(), i, o);
        assert(owners.update(i, o).drop_last() =~= owners.drop_last().update(i, o));
        assert(owners.update(i, o).last() == owners.last());
        assert(spec_owner_key(owners.last()) != spec_owner_key(o));
        assert(spec_owners_map(owners.update(i, o)) =~= spec_owners_map(owners).insert(
            spec_owner_key(o),
            o.owner,
        ));
    }
}

/// The fact store together with its ownership guard: the one structure the
/// per-client tasks mutate across task boundaries, under a single write
/// lock held by the caller.
#[derive(Debug)]
pub struct SharedData {
    pub model: Model,
    pub data_owners: Vec<OwnerEntry>,
}

/// Whether session `session_id` may overwrite facts under this owner key:
/// either nobody claimed the key, or the claimant is the session itself.
pub open spec fn spec_set_allowed(
    owners: Map<(u8, u16, u16), u16>,
    room: u8,
    creator_id: u16,
    index: u16,
    session_id: u16,
) -> bool {
    !owners.contains_key((room, creator_id, index)) || owners[(room, creator_id, index)]
        == session_id
}

impl SharedData {
    pub open spec fn wf(&self) -> bool {
        &&& self.model.wf()
        &&& spec_owners_unique(self.data_owners@)
    }

    pub open spec fn owners(&self) -> Map<(u8, u16, u16), u16> {
        spec_owners_map(self.data_owners@)
    }

    /// An empty model with no ownership claims.
    pub fn new() -> (r: SharedData)
        ensures
            r.wf(),
            r.model@ == Map::<(u8, u8, u16, u16), Seq<u8>>::empty(),
            r.owners() == Map::<(u8, u16, u16), u16>::empty(),
            r.model.facts@.len() == 0,
    {
        SharedData { model: Model::new(), data_owners: Vec::new() }
    }

    /// Looks up who owns a key, if anyone.
    pub fn owner_of(&self, room: u8, creator_id: u16, index: u16) -> (r: Option<u16>)
        requires
            self.wf(),
        ensures
            match r {
                Some(owner) => self.owners().contains_key((room, creator_id, index))
                    && self.owners()[(room, creator_id, index)] == owner,
                None => !self.owners().contains_key((room, creator_id, index)),
            },
    {
        proof {
            lemma_owners_map_membership(self.data_owners@);
        }
        let n = self.data_owners.len();
        let mut i: usize = 0;
        while i < n
            invariant
                self.wf(),
                n == self.data_owners@.len(),
                i <= n,
                forall|j: int|
                    0 <= j < i ==> spec_owner_key(#[trigger] self.data_owners@[j]) != (
                        room,
                        creator_id,
                        index,
                    ),
            decreases n - i,
        {
            let entry = self.data_owners[i];
            if entry.room == room && entry.creator_id == creator_id && entry.index == index {
                proof {
                    lemma_owners_map_value(self.data_owners@, i as int);
                }
                return Some(entry.owner);
            }
            i = i + 1;
        }
        proof {
            lemma_owners_map_membership(self.data_owners@);
            assert(!self.owners().contains_key((room, creator_id, index))) by {
                if self.owners().contains_key((room, creator_id, index)) {
                    let j = choose|j: int|
                        0 <= j < self.data_owners@.len() && spec_owner_key(
                            #[trigger] self.data_owners@[j],
                        ) == (room, creator_id, index);
                    assert(false);
                }
            }
        }
        None
    }

    /// Applies a `SetData` under the ownership guard: when some other
    /// session owns the key, nothing changes and the write is rejected;
    /// otherwise the fact is stored (component type
    /// `DEFAULT_COMPONENT_TYPE`) and the write is accepted.
    pub fn set_data(
        &mut self,
        room: u8,
        creator_id: u16,
        index: u16,
        data: Vec<u8>,
        session_id: u16,
    ) -> (accepted: bool)
        requires
            old(self).wf(),
        ensures
            final(self).wf(),
            accepted == spec_set_allowed(old(self).owners(), room, creator_id, index, session_id),
            final(self).owners() == old(self).owners(),
            final(self).data_owners@ == old(self).data_owners@,
            accepted ==> final(self).model@ == old(self).model@.insert(
                (room, DEFAULT_COMPONENT_TYPE, creator_id, index),
                data@,
            ),
            !accepted ==> final(self).model@ == old(self).model@ && final(self).model.facts@ == old(
                self,
            ).model.facts@,
    {
        match self.owner_of(room, creator_id, index) {
            Some(owner) if owner != session_id => {
                return false;
            },
            _ => {},
        }
        let fact = Fact {
            room,
            component_type: DEFAULT_COMPONENT_TYPE,
            creator_id,
            index,
            data,
        };
        self.model.insert(fact);
        true
    }

    /// Records an ownership claim; the latest claim wins unconditionally.
    pub fn claim(&mut self, room: u8, creator_id: u16, index: u16, session_id: u16)
        requires
            old(self).wf(),
        ensures
            final(self).wf(),
            final(self).owners() == old(self).owners().insert(
                (room, creator_id, index),
                session_id,
            ),
            final(self).model@ == old(self).model@,
            final(self).model.facts@ == old(self).model.facts@,
    {
        proof {
            lemma_owners_map_membership(self.data_owners@);
        }
        let n = self.data_owners.len();
        let mut i: usize = 0;
        while i < n
            invariant
                old(self).wf(),
                self.data_owners@ == old(self).data_owners@,
                self.model == old(self).model,
                n == self.data_owners@.len(),
                i <= n,
                forall|j: int|
                    0 <= j < i ==> spec_owner_key(#[trigger] self.data_owners@[j]) != (
                        room,
                        creator_id,
                        index,
                    ),
            decreases n - i,
        {
            let existing = &self.data_owners[i];
            if existing.room == room && existing.creator_id == creator_id && existing.index
                == index {
                let entry = OwnerEntry { room, creator_id, index, owner: session_id };
                proof {
                    assert(spec_owner_key(self.data_owners@[i as int]) == spec_owner_key(entry));
                    lemma_owners_map_update(self.data_owners@, i as int, entry);
                }
                self.data_owners[i] = entry;
                return ;
            }
            i = i + 1;
        }
        proof {
            lemma_owners_map_membership(self.data_owners@);
            assert(!spec_owners_map(self.data_owners@).contains_key((room, creator_id, index))) by {
                if spec_owners_map(self.data_owners@).contains_key((room, creator_id, index)) {
                    let j = choose|j: int|
                        0 <= j < self.data_owners@.len() && spec_owner_key(
                            #[trigger] self.data_owners@[j],
                        ) == (room, creator_id, index);
                    assert(false);
                }
            }
        }
        let entry = OwnerEntry { room, creator_id, index, owner: session_id };
        let ghost pre = self.data_owners@;
        self.data_owners.push(entry);
        proof {
            assert(self.data_owners@.drop_last() =~= pre);
            assert(self.data_owners@.last() == entry);
            assert forall|a: int, b: int| 0 <= a < b < self.data_owners@.len() implies spec_owner_key(
                #[trigger] self.data_owners@[a],
            ) != spec_owner_key(#[trigger] self.data_owners@[b]) by {
                if b < self.data_owners@.len() - 1 {
                    assert(spec_owner_key(pre[a]) != spec_owner_key(pre[b]));
                } else {
                    assert(spec_owner_key(self.data_owners@[a]) != spec_owner_key(entry));
                }
            }
        }
    }

    /// A point-in-time copy of the fact store, for the Hello frame of a new
    /// joiner. The caller takes it under the same write barrier that orders
    /// the snapshot before later broadcasts.
    pub fn snapshot(&self) -> (r: Model)
        requires
            self.wf(),
        ensures
            r.wf(),
            r@ == self.model@,
            r.facts@.len() == self.model.facts@.len(),
            forall|i: int|
                0 <= i < r.facts@.len() ==> spec_fact_key(#[trigger] r.facts@[i]) == spec_fact_key(
                    self.model.facts@[i],
                ) && r.facts@[i].data@ == self.model.facts@[i].data@,
    {
        let n = self.model.facts.len();
        let mut facts: Vec<Fact> = Vec::new();
        let mut i: usize = 0;
        while i < n
            invariant
                self.wf(),
                n == self.model.facts@.len(),
                i <= n,
                facts@.len() == i,
                forall|j: int|
                    0 <= j < i ==> spec_fact_key(#[trigger] facts@[j]) == spec_fact_key(
                        self.model.facts@[j],
                    ) && facts@[j].data@ == self.model.facts@[j].data@,
            decreases n - i,
        {
            let src = &self.model.facts[i];
            let copy = Fact {
                room: src.room,
                component_type: src.component_type,
                creator_id: src.creator_id,
                index: src.index,
                data: slice_to_vec(src.data.as_slice()),
            };
            facts.push(copy);
            i = i + 1;
        }
        let r = Model { facts };
        proof {
            lemma_facts_map_pointwise(r.facts@, self.model.facts@);
        }
        r
    }
}

/// Two fact sequences that agree key-for-key and value-for-value denote the
/// same map.
pub proof fn lemma_facts_map_pointwise(a: Seq<Fact>, b: Seq<Fact>)
    requires
        a.len() == b.len(),
        forall|i: int|
            0 <= i < a.len() ==> spec_fact_key(#[trigger] a[i]) == spec_fact_key(b[i])
                && a[i].data@ == b[i].data@,
    ensures
        spec_facts_map(a) == spec_facts_map(b),
    decreases a.len(),
{
    if a.len() > 0 {
        assert forall|i: int| 0 <= i < a.drop_last().len() implies spec_fact_key(
            #[trigger] a.drop_last()[i],
        ) == spec_fact_key(b.drop_last()[i]) && a.drop_last()[i].data@
            == b.drop_last()[i].data@ by {
            assert(a.drop_last()[i] == a[i] && b.drop_last()[i] == b[i]);
        }
        lemma_facts_map_pointwise(a.drop_last(), b.drop_last());
        assert(spec_facts_map(a) =~= spec_facts_map(b));
    }
}

/// One mutation of the shared model, as the per-client tasks apply them
/// under the write lock: a `SetData` attempt or an ownership claim.
pub enum ModelEvent {
    SetFact { session_id: u16, room: u8, creator_id: u16, index: u16, data: Seq<u8> },
    ClaimOwner { session_id: u16, room: u8, creator_id: u16, index: u16 },
}

/// The shared model after a history of mutations, starting empty: each
/// claim records its owner unconditionally; each `SetData` stores its fact
/// exactly when the ownership guard admits it. This is step for step what
/// `set_data` and `claim` promise, so a relay that starts empty and applies
/// its inbound history in lock order holds exactly this model; `snapshot`
/// (and with it the Hello frame of a new joiner) returns exactly its view.
pub open spec fn spec_apply_history(events: Seq<ModelEvent>) -> (
    Map<(u8, u8, u16, u16), Seq<u8>>,
    Map<(u8, u16, u16), u16>,
)
    decreases events.len(),
{
    if events.len() == 0 {
        (Map::empty(), Map::empty())
    } else {
        let (facts, owners) = spec_apply_history(events.drop_last());
        match events.last() {
            ModelEvent::SetFact { session_id, room, creator_id, index, data } => {
                if spec_set_allowed(owners, room, creator_id, index, session_id) {
                    (facts.insert((room, DEFAULT_COMPONENT_TYPE, creator_id, index), data), owners)
                } else {
                    (facts, owners)
                }
            },
            ModelEvent::ClaimOwner { session_id, room, creator_id, index } => (
                facts,
                owners.insert((room, creator_id, index), session_id),
            ),
        }
    }
}

/// Extending a history by one event changes the model exactly as `set_data`
/// and `claim` promise for one call.
pub proof fn lemma_history_snoc(events: Seq<ModelEvent>, e: ModelEvent)
    ensures
        spec_apply_history(events.push(e)) == ({
            let (facts, owners) = spec_apply_history(events);
            match e {
                ModelEvent::SetFact { session_id, room, creator_id, index, data } => {
                    if spec_set_allowed(owners, room, creator_id, index, session_id) {
                        (
                            facts.insert((room, DEFAULT_COMPONENT_TYPE, creator_id, index), data),
                            owners,
                        )
                    } else {
                        (facts, owners)
                    }
                },
                ModelEvent::ClaimOwner { session_id, room, creator_id, index } => (
                    facts,
                    owners.insert((room, creator_id, index), session_id),
                ),
            }
        }),
{
    assert(events.push(e).drop_last() =~= events);
}

/// Whether event `i` is a `SetFact` that the guard accepts, given the
/// owners built by the events before it.
pub open spec fn spec_accepted(events: Seq<ModelEvent>, i: int) -> bool {
    &&& 0 <= i < events.len()
    &&& events[i] matches ModelEvent::SetFact { session_id, room, creator_id, index, data }
        && spec_set_allowed(
        spec_apply_history(events.take(i)).1,
        room,
        creator_id,
        index,
        session_id,
    )
}

/// Whether event `i` is an accepted write to fact key `k`.
pub open spec fn spec_writes_key(events: Seq<ModelEvent>, i: int, k: (u8, u8, u16, u16)) -> bool {
    &&& spec_accepted(events, i)
    &&& events[i] matches ModelEvent::SetFact { session_id, room, creator_id, index, data } && (
    room, DEFAULT_COMPONENT_TYPE, creator_id, index) == k
}

/// The data of the write at event `i`.
pub open spec fn spec_written_data(events: Seq<ModelEvent>, i: int) -> Seq<u8>
    recommends
        spec_accepted(events, i),
{
    match events[i] {
        ModelEvent::SetFact { data, .. } => data,
        _ => Seq::empty(),
    }
}

/// Law: after any history, the model holds a key exactly when some
/// accepted `SetData` wrote it, and it holds the data of the last such
/// write: the accepted history applied in order, last writer wins per key.
/// A new joiner's Hello carries precisely this model as its fact snapshot.
pub proof fn lemma_model_is_accepted_history(events: Seq<ModelEvent>, k: (u8, u8, u16, u16))
    ensures
        spec_apply_history(events).0.contains_key(k) <==> exists|i: int|
            #[trigger] spec_writes_key(events, i, k),
        forall|i: int|
            (#[trigger] spec_writes_key(events, i, k) && (forall|j: int|
                i < j < events.len() ==> !spec_writes_key(events, j, k)))
                ==> spec_apply_history(events).0.contains_key(k) && spec_apply_history(events).0[k]
                == spec_written_data(events, i),
    decreases events.len(),
{
    if events.len() == 0 {
    } else {
        let prefix = events.drop_last();
        lemma_model_is_accepted_history(prefix, k);
        assert forall|i: int| 0 <= i < prefix.len() implies (#[trigger] spec_writes_key(
            events,
            i,
            k,
        ) <==> spec_writes_key(prefix, i, k)) by {
            assert(events.take(i) =~= prefix.take(i));
            assert(events[i] == prefix[i]);
        }
        let last = events.len() - 1;
        assert(events.take(last) =~= prefix);
        let (facts, owners) = spec_apply_history(prefix);
        if spec_writes_key(events, last, k) {
            assert(spec_apply_history(events).0.contains_key(k));
            assert(exists|i: int| #[trigger] spec_writes_key(events, i, k));
            assert forall|i: int|
                (#[trigger] spec_writes_key(events, i, k) && (forall|j: int|
                    i < j < events.len() ==> !spec_writes_key(events, j, k)))
                    implies spec_apply_history(events).0.contains_key(k) && spec_apply_history(
                events,
            ).0[k] == spec_written_data(events, i) by {
                if i < last {
                    assert(spec_writes_key(events, last, k));
                    assert(false);
                }
            }
        } else {
            assert(spec_apply_history(events).0.contains_key(k) <==> facts.contains_key(k)) by {
                match events.last() {
                    ModelEvent::SetFact { session_id, room, creator_id, index, data } => {
                        if spec_set_allowed(owners, room, creator_id, index, session_id) {
                            assert((room, DEFAULT_COMPONENT_TYPE, creator_id, index) != k);
                        }
                    },
                    ModelEvent::ClaimOwner { .. } => {},
                }
            }
            assert((exists|i: int| #[trigger] spec_writes_key(events, i, k)) <==> (exists|i: int|
                #[trigger] spec_writes_key(prefix, i, k))) by {
                if exists|i: int| #[trigger] spec_writes_key(events, i, k) {
                    let i = choose|i: int| #[trigger] spec_writes_key(events, i, k);
                    assert(i < last || !spec_writes_key(events, last, k));
                    assert(spec_writes_key(prefix, i, k));
                }
                if exists|i: int| #[trigger] spec_writes_key(prefix, i, k) {
                    let i = choose|i: int| #[trigger] spec_writes_key(prefix, i, k);
                    assert(spec_writes_key(events, i, k));
                }
            }
            assert forall|i: int|
                (#[trigger] spec_writes_key(events, i, k) && (forall|j: int|
                    i < j < events.len() ==> !spec_writes_key(events, j, k)))
                    implies spec_apply_history(events).0.contains_key(k) && spec_apply_history(
                events,
            ).0[k] == spec_written_data(events, i) by {
                assert(i < last);
                assert(spec_writes_key(prefix, i, k));
                assert forall|j: int| i < j < prefix.len() implies !spec_writes_key(
                    prefix,
                    j,
                    k,
                ) by {
                    assert(!spec_writes_key(events, j, k));
                }
                assert(facts.contains_key(k) && facts[k] == spec_written_data(prefix, i));
                match events.last() {
                    ModelEvent::SetFact { session_id, room, creator_id, index, data } => {
                        if spec_set_allowed(owners, room, creator_id, index, session_id) {
                            assert((room, DEFAULT_COMPONENT_TYPE, creator_id, index) != k);
                        }
                    },
                    ModelEvent::ClaimOwner { .. } => {},
                }
            }
        }
    }
}

} // verus!
