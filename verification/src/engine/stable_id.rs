use std::collections::HashMap;

use vstd::prelude::*;
use vstd::std_specs::hash::obeys_key_model;

verus! {

broadcast use vstd::std_specs::hash::group_hash_axioms;

/// An identifier of an entity that survives saving and loading.
#[derive(Clone, Copy, Debug, PartialEq, Eq, Hash, Structural)]
pub struct StableId(pub u64);

impl StableId {
    /// The stable id with value `id`.
    pub fn new(id: u64) -> (s: Self)
        ensures
            s.0 == id,
    {
        StableId(id)
    }
}

/// Two-way association between entities (by their bits) and stable ids,
/// with the next id to hand out.
pub struct StableIdRegistry {
    next_id: u64,
    entity_to_id: HashMap<u64, u64>,
    id_to_entity: HashMap<u64, u64>,
}

/// The contents of a [`StableIdRegistry`].
pub struct RegistryView {
    pub next_id: u64,
    pub entity_to_id: Map<u64, u64>,
    pub id_to_entity: Map<u64, u64>,
}

impl View for StableIdRegistry {
    type V = RegistryView;

    closed spec fn view(&self) -> RegistryView {
        RegistryView {
            next_id: self.next_id,
            entity_to_id: self.entity_to_id@,
            id_to_entity: self.id_to_entity@,
        }
    }
}

/// Every id the registry knows is below the next id it will hand out.
pub open spec fn ids_below_next(v: RegistryView) -> bool {
    &&& forall|id: u64| #[trigger] v.id_to_entity.contains_key(id) ==> id < v.next_id
    &&& forall|e: u64| #[trigger] v.entity_to_id.contains_key(e) ==> v.entity_to_id[e] < v.next_id
}

/// The next id of a registry whose next id was `next`, after the ids of
/// `ids` were handed out by `generate_id` or passed to `register`, in order:
/// each moves the next id past itself.
pub open spec fn next_id_after(next: int, ids: Seq<u64>) -> int
    decreases ids.len(),
{
    if ids.len() == 0 {
        next
    } else {
        let n = next_id_after(next, ids.drop_last());
        if ids.last() >= n {
            ids.last() + 1
        } else {
            n
        }
    }
}

/// Ids are fresh: after any run of ids handed out or registered, the next
/// id handed out is above all of them, and the next id never goes down, so
/// successive generated ids strictly increase.
pub proof fn lemma_next_id_exceeds_seen(next: int, ids: Seq<u64>)
    ensures
        next <= next_id_after(next, ids),
        forall|i: int| 0 <= i < ids.len() ==> ids[i] < next_id_after(next, ids),
    decreases ids.len(),
{
    if ids.len() > 0 {
        let prev = ids.drop_last();
        lemma_next_id_exceeds_seen(next, prev);
        assert forall|i: int| 0 <= i < ids.len() implies ids[i] < next_id_after(next, ids) by {
            if i < prev.len() {
                assert(ids[i] == prev[i]);
            }
        }
    }
}

/// Over any run of `generate_id` and `register` calls, where `views[i]` is
/// the registry before call `i` and `ids[i]` the id it handed out or was
/// given: the next id only grows, ends at `next_id_after` of the run, and is
/// above every id seen before it. So an id that `generate_id` hands out
/// (which is the next id) is above every id handed out or registered earlier:
/// successive generated ids strictly increase and none is handed out twice.
pub proof fn lemma_registry_run(views: Seq<RegistryView>, ids: Seq<u64>)
    requires
        views.len() == ids.len() + 1,
        forall|i: int|
            0 <= i < ids.len() ==> (#[trigger] views[i + 1]).next_id == next_id_after(
                views[i].next_id as int,
                seq![ids[i]],
            ),
    ensures
        views.last().next_id == next_id_after(views[0].next_id as int, ids),
        forall|i: int, j: int| 0 <= i <= j < views.len() ==> #[trigger] views[i].next_id <= #[trigger] views[j].next_id,
        forall|i: int, j: int| 0 <= i < j < views.len() ==> #[trigger] ids[i] < #[trigger] views[j].next_id,
    decreases ids.len(),
{
    if ids.len() > 0 {
        let n = ids.len() - 1;
        let prev = views.drop_last();
        lemma_registry_run(prev, ids.drop_last());
        assert forall|i: int| 0 <= i < ids.drop_last().len() implies (#[trigger] prev[i + 1]).next_id
            == next_id_after(prev[i].next_id as int, seq![ids.drop_last()[i]]) by {
            assert(prev[i + 1] == views[i + 1]);
        }
        lemma_next_id_after_one(views[n].next_id as int, ids[n]);
        assert(ids.drop_last().push(ids[n]) =~= ids);
        assert(prev.last() == views[n]);
        assert forall|i: int, j: int| 0 <= i <= j < views.len() implies #[trigger] views[i].next_id
            <= #[trigger] views[j].next_id by {
            if j < views.len() - 1 {
                assert(views[i] == prev[i] && views[j] == prev[j]);
            } else if i < j {
                assert(views[i] == prev[i] && views[n] == prev[n]);
                assert(prev[i].next_id <= prev[n].next_id);
            }
        }
        assert forall|i: int, j: int| 0 <= i < j < views.len() implies #[trigger] ids[i]
            < #[trigger] views[j].next_id by {
            if j < views.len() - 1 {
                assert(views[j] == prev[j]);
                assert(ids[i] == ids.drop_last()[i]);
            } else if i < n {
                assert(ids[i] == ids.drop_last()[i]);
                assert(views[n] == prev[n]);
                assert(ids.drop_last()[i] < prev[n].next_id);
            }
        }
    }
}

proof fn lemma_next_id_after_one(next: int, id: u64)
    ensures
        next_id_after(next, seq![id]) == if id >= next {
            id + 1
        } else {
            next
        },
{
    let ids = seq![id];
    assert(ids.drop_last() =~= Seq::<u64>::empty());
    assert(next_id_after(next, ids.drop_last()) == next);
    assert(ids.last() == id);
}

impl StableIdRegistry {
    /// Every id the registry knows is below the next id it hands out.
    pub open spec fn wf(&self) -> bool {
        ids_below_next(self@)
    }

    /// An empty registry whose first id is 1.
    pub fn new() -> (r: Self)
        ensures
            r.wf(),
            r@.next_id == 1,
            r@.entity_to_id == Map::<u64, u64>::empty(),
            r@.id_to_entity == Map::<u64, u64>::empty(),
    {
        StableIdRegistry { next_id: 1, entity_to_id: HashMap::new(), id_to_entity: HashMap::new() }
    }

    /// The id that will be handed out next.
    pub fn next_id(&self) -> (n: u64)
        ensures
            n == self@.next_id,
    {
        self.next_id
    }

    /// Hands out the next id.
    pub fn generate_id(&mut self) -> (id: StableId)
        requires
            old(self).wf(),
            old(self)@.next_id < u64::MAX,
        ensures
            final(self).wf(),
            id.0 == old(self)@.next_id,
            !old(self)@.id_to_entity.contains_key(id.0),
            forall|e: u64| #[trigger] old(self)@.entity_to_id.contains_key(e) ==> old(self)@.entity_to_id[e] != id.0,
            final(self)@.next_id == old(self)@.next_id + 1,
            final(self)@.next_id == next_id_after(old(self)@.next_id as int, seq![id.0]),
            final(self)@.entity_to_id == old(self)@.entity_to_id,
            final(self)@.id_to_entity == old(self)@.id_to_entity,
    {
        let id = self.next_id;
        let ghost before = self@;
        self.next_id = self.next_id + 1;
        assert(self@.id_to_entity == before.id_to_entity);
        assert(self@.entity_to_id == before.entity_to_id);
        assert forall|i: u64| #[trigger] self@.id_to_entity.contains_key(i) implies i < self@.next_id by {
            assert(before.id_to_entity.contains_key(i));
        }
        proof {
            lemma_next_id_after_one(id as int, id);
        }
        StableId(id)
    }

    /// Associates `entity` and `id` both ways; an id at or above the next id
    /// (one read back from a save) moves the next id past it.
    pub fn register(&mut self, entity: u64, id: StableId)
        requires
            old(self).wf(),
            id.0 < u64::MAX || id.0 < old(self)@.next_id,
        ensures
            final(self).wf(),
            final(self)@.entity_to_id == old(self)@.entity_to_id.insert(entity, id.0),
            final(self)@.id_to_entity == old(self)@.id_to_entity.insert(id.0, entity),
            final(self)@.next_id == if id.0 >= old(self)@.next_id {
                (id.0 + 1) as u64
            } else {
                old(self)@.next_id
            },
            final(self)@.next_id == next_id_after(old(self)@.next_id as int, seq![id.0]),
    {
        proof {
            assert(obeys_key_model::<u64>());
        }
        let ghost before = self@;
        proof {
            lemma_next_id_after_one(self.next_id as int, id.0);
        }
        self.entity_to_id.insert(entity, id.0);
        self.id_to_entity.insert(id.0, entity);
        if id.0 >= self.next_id {
            self.next_id = id.0 + 1;
        }
        assert forall|i: u64| #[trigger] self@.id_to_entity.contains_key(i) implies i < self@.next_id by {
            if i != id.0 {
                assert(before.id_to_entity.contains_key(i));
            }
        }
        assert forall|e: u64| #[trigger] self@.entity_to_id.contains_key(e) implies self@.entity_to_id[e] < self@.next_id by {
            if e != entity {
                assert(before.entity_to_id.contains_key(e));
            }
        }
    }

    /// Forgets `entity` and the id it was registered with.
    pub fn unregister(&mut self, entity: u64)
        requires
            old(self).wf(),
        ensures
            final(self).wf(),
            final(self)@.next_id == old(self)@.next_id,
            final(self)@.entity_to_id == old(self)@.entity_to_id.remove(entity),
            final(self)@.id_to_entity == if old(self)@.entity_to_id.contains_key(entity) {
                old(self)@.id_to_entity.remove(old(self)@.entity_to_id[entity])
            } else {
                old(self)@.id_to_entity
            },
    {
        proof {
            assert(obeys_key_model::<u64>());
        }
        let ghost before = self@;
        if let Some(id) = self.entity_to_id.remove(&entity) {
            self.id_to_entity.remove(&id);
        }
        assert forall|i: u64| #[trigger] self@.id_to_entity.contains_key(i) implies i < self@.next_id by {
            assert(before.id_to_entity.contains_key(i));
        }
        assert forall|e: u64| #[trigger] self@.entity_to_id.contains_key(e) implies self@.entity_to_id[e] < self@.next_id by {
            assert(before.entity_to_id.contains_key(e));
        }
    }

    /// The entity registered with `id`.
    pub fn get_entity(&self, id: StableId) -> (e: Option<u64>)
        ensures
            e == if self@.id_to_entity.contains_key(id.0) {
                Some(self@.id_to_entity[id.0])
            } else {
                None::<u64>
            },
    {
        proof {
            assert(obeys_key_model::<u64>());
        }
        match self.id_to_entity.get(&id.0) {
            Some(e) => Some(*e),
            None => None,
        }
    }

    /// The id that `entity` was registered with.
    pub fn get_id(&self, entity: u64) -> (id: Option<StableId>)
        ensures
            id == if self@.entity_to_id.contains_key(entity) {
                Some(StableId(self@.entity_to_id[entity]))
            } else {
                None::<StableId>
            },
    {
        proof {
            assert(obeys_key_model::<u64>());
        }
        match self.entity_to_id.get(&entity) {
            Some(i) => Some(StableId(*i)),
            None => None,
        }
    }
}

impl Default for StableIdRegistry {
    /// An empty registry whose first id is 0.
    fn default() -> (r: Self)
        ensures
            r.wf(),
            r@.next_id == 0,
            r@.entity_to_id == Map::<u64, u64>::empty(),
            r@.id_to_entity == Map::<u64, u64>::empty(),
    {
        StableIdRegistry { next_id: 0, entity_to_id: HashMap::new(), id_to_entity: HashMap::new() }
    }
}

} // verus!
