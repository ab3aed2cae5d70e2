//! Entity and component store.
//!
//! Entities are numeric ids handed out by an allocator that recycles
//! freed ids.  Components of one type live in a [`TypedComponentStorage`],
//! a keyed collection whose mathematical view is a `Map` from entity id
//! to component.

use vstd::prelude::*;

verus! {

/// Entity id: a plain number.
pub type EntityId = u64;

/// An entity handle.
#[derive(Debug, Clone, Copy, PartialEq, Eq, Structural, Hash)]
pub struct Entity {
    pub id: EntityId,
    pub generation: u32,
}

impl Entity {
    pub fn new(id: EntityId) -> (e: Self)
        ensures
            e == (Entity { id, generation: 0u32 }),
    {
        Self { id, generation: 0 }
    }
}

/// Hands out entity ids, recycling freed ones.
pub struct EntityAllocator {
    next_id: EntityId,
    free_list: Vec<EntityId>,
    alive: Vec<EntityId>,
}

impl EntityAllocator {
    /// The ids of the live entities, in allocation order.
    pub closed spec fn spec_alive(&self) -> Seq<EntityId> {
        self.alive@
    }

    /// The ids waiting to be recycled.
    pub closed spec fn spec_free(&self) -> Seq<EntityId> {
        self.free_list@
    }

    /// The next id that has never been handed out.
    pub closed spec fn spec_next_id(&self) -> EntityId {
        self.next_id
    }

    /// Well-formedness: live and free ids are distinct, never shared,
    /// and all lie below `next_id`.
    pub open spec fn wf(&self) -> bool {
        &&& self.spec_alive().no_duplicates()
        &&& self.spec_free().no_duplicates()
        &&& forall|i: int|
            0 <= i < self.spec_alive().len() ==> #[trigger] self.spec_alive()[i]
                < self.spec_next_id()
        &&& forall|i: int|
            0 <= i < self.spec_free().len() ==> #[trigger] self.spec_free()[i]
                < self.spec_next_id()
        &&& forall|id: EntityId|
            !(#[trigger] self.spec_alive().contains(id) && self.spec_free().contains(id))
    }

    pub fn new() -> (a: Self)
        ensures
            a.wf(),
            a.spec_alive() =~= Seq::<EntityId>::empty(),
            a.spec_free() =~= Seq::<EntityId>::empty(),
            a.spec_next_id() == 0,
    {
        Self { next_id: 0, free_list: Vec::new(), alive: Vec::new() }
    }

    /// Allocate an entity: recycle the most recently freed id, or mint a
    /// fresh one.
    pub fn allocate(&mut self) -> (e: Entity)
        requires
            old(self).wf(),
            old(self).spec_free().len() > 0 || old(self).spec_next_id() < EntityId::MAX,
        ensures
            final (self).wf(),
            e.generation == 0,
            e.id == if old(self).spec_free().len() > 0 {
                old(self).spec_free().last()
            } else {
                old(self).spec_next_id()
            },
            !old(self).spec_alive().contains(e.id),
            final (self).spec_alive() == old(self).spec_alive().push(e.id),
            final (self).spec_free() == if old(self).spec_free().len() > 0 {
                old(self).spec_free().drop_last()
            } else {
                old(self).spec_free()
            },
            final (self).spec_next_id() == if old(self).spec_free().len() > 0 {
                old(self).spec_next_id() as int
            } else {
                old(self).spec_next_id() + 1
            },
    {
        let id = if let Some(id) = self.free_list.pop() {
            id
        } else {
            let id = self.next_id;
            self.next_id = self.next_id + 1;
            id
        };
        self.alive.push(id);
        proof {
            let a0 = old(self).spec_alive();
            let f0 = old(self).spec_free();
            let a2 = self.spec_alive();
            let f2 = self.spec_free();
            let n2 = self.spec_next_id();
            if f0.len() > 0 {
                assert(f0[f0.len() - 1] == id);
                assert(f0.contains(id));
            }
            assert(!a0.contains(id)) by {
                if a0.contains(id) {
                    if f0.len() == 0 {
                        let w = choose|w: int| 0 <= w < a0.len() && a0[w] == id;
                    }
                }
            }
            assert(a2.no_duplicates()) by {
                assert forall|p: int, q: int| 0 <= p < q < a2.len() implies a2[p] != a2[q] by {
                    if q == a2.len() - 1 && a2[p] == id {
                        assert(a0.contains(id));
                    }
                }
            }
            assert forall|k: int| 0 <= k < a2.len() implies #[trigger] a2[k] < n2 by {
                if k < a2.len() - 1 {
                    assert(a0[k] < old(self).spec_next_id());
                }
            }
            assert forall|k: int| 0 <= k < f2.len() implies #[trigger] f2[k] < n2 by {
                assert(f2[k] == f0[k]);
            }
            assert(f2.no_duplicates()) by {
                assert forall|p: int, q: int| 0 <= p < q < f2.len() implies f2[p] != f2[q] by {
                    assert(f2[p] == f0[p] && f2[q] == f0[q]);
                }
            }
            assert forall|id2: EntityId|
                !(#[trigger] a2.contains(id2) && f2.contains(id2)) by {
                if a2.contains(id2) && f2.contains(id2) {
                    let wfree = choose|w: int| 0 <= w < f2.len() && f2[w] == id2;
                    assert(f0[wfree] == id2);
                    assert(f0.contains(id2));
                    let wa = choose|w: int| 0 <= w < a2.len() && a2[w] == id2;
                    if wa < a2.len() - 1 {
                        assert(a0.contains(id2));
                    } else {
                        if f0.len() > 0 {
                            assert(wfree < f0.len() - 1);
                            assert(f0[wfree] != f0[f0.len() - 1]);
                        } else {
                            assert(f0[wfree] < old(self).spec_next_id());
                        }
                    }
                }
            }
        }
        Entity::new(id)
    }

    /// Free an entity: its id goes back on the free list.  Freeing an
    /// entity that is not alive does nothing.
    #[verifier::loop_isolation(false)]
    pub fn deallocate(&mut self, entity: Entity)
        requires
            old(self).wf(),
        ensures
            final (self).wf(),
            final (self).spec_next_id() == old(self).spec_next_id(),
            old(self).spec_alive().contains(entity.id) ==> {
                &&& final (self).spec_alive() == old(self).spec_alive().remove_value(entity.id)
                &&& final (self).spec_alive().len() == old(self).spec_alive().len() - 1
                &&& !final (self).spec_alive().contains(entity.id)
                &&& final (self).spec_free() == old(self).spec_free().push(entity.id)
            },
            !old(self).spec_alive().contains(entity.id) ==> *final (self) == *old(self),
            forall|other: EntityId|
                other != entity.id ==> (final (self).spec_alive().contains(other) <==> old(
                    self,
                ).spec_alive().contains(other)),
    {
        let ghost prior = self.alive@;
        let mut i: usize = 0;
        while i < self.alive.len()
            invariant
                *self == *old(self),
                prior == self.alive@,
                0 <= i <= self.alive.len(),
                forall|j: int| 0 <= j < i ==> self.alive@[j] != entity.id,
            decreases self.alive.len() - i,
        {
            if self.alive[i] == entity.id {
                proof {
                    assert(prior.contains(entity.id));
                }
                self.alive.remove(i);
                self.free_list.push(entity.id);
                proof {
                    lemma_remove_keeps_others(prior, i as int, entity.id);
                    let alive2 = self.spec_alive();
                    let free2 = self.spec_free();
                    assert(free2.no_duplicates()) by {
                        assert(!old(self).spec_free().contains(entity.id));
                        assert forall|p: int, q: int|
                            0 <= p < q < free2.len() implies free2[p] != free2[q] by {
                            if q == free2.len() - 1 {
                                if free2[p] == entity.id {
                                    assert(old(self).spec_free().contains(entity.id));
                                }
                            }
                        }
                    }
                    assert forall|k: int|
                        0 <= k < alive2.len() implies #[trigger] alive2[k]
                        < self.spec_next_id() by {
                        assert(alive2.contains(alive2[k]));
                        assert(prior.contains(alive2[k]));
                        let w = choose|w: int| 0 <= w < prior.len() && prior[w] == alive2[k];
                    }
                    assert forall|k: int|
                        0 <= k < free2.len() implies #[trigger] free2[k]
                        < self.spec_next_id() by {
                        if k < free2.len() - 1 {
                            assert(free2[k] == old(self).spec_free()[k]);
                        }
                    }
                    assert forall|id2: EntityId|
                        !(#[trigger] alive2.contains(id2) && free2.contains(id2)) by {
                        if alive2.contains(id2) && free2.contains(id2) {
                            assert(id2 != entity.id);
                            assert(prior.contains(id2));
                            let w = choose|w: int| 0 <= w < free2.len() && free2[w] == id2;
                            assert(w < free2.len() - 1);
                            assert(old(self).spec_free().contains(id2));
                        }
                    }
                }
                return ;
            }
            i += 1;
        }
        proof {
            assert(!prior.contains(entity.id)) by {
                if prior.contains(entity.id) {
                    let w = choose|w: int| 0 <= w < prior.len() && prior[w] == entity.id;
                }
            }
        }
    }

    #[verifier::loop_isolation(false)]
    pub fn is_alive(&self, entity: Entity) -> (r: bool)
        ensures
            r == self.spec_alive().contains(entity.id),
    {
        let mut i: usize = 0;
        while i < self.alive.len()
            invariant
                0 <= i <= self.alive.len(),
                forall|j: int| 0 <= j < i ==> self.alive@[j] != entity.id,
            decreases self.alive.len() - i,
        {
            if self.alive[i] == entity.id {
                return true;
            }
            i += 1;
        }
        false
    }

    /// The number of live entities.
    pub fn count(&self) -> (n: usize)
        ensures
            n == self.spec_alive().len(),
    {
        self.alive.len()
    }
}

proof fn lemma_remove_keeps_others(s: Seq<EntityId>, i: int, id: EntityId)
    requires
        s.no_duplicates(),
        0 <= i < s.len(),
        s[i] == id,
        forall|j: int| 0 <= j < i ==> s[j] != id,
    ensures
        s.remove(i) == s.remove_value(id),
        !s.remove(i).contains(id),
        s.remove(i).no_duplicates(),
        forall|other: EntityId|
            other != id ==> (s.remove(i).contains(other) <==> s.contains(other)),
{
    s.index_of_first_ensures(id);
    assert(s.index_of_first(id) == Some(i));
    let r = s.remove(i);
    assert(!r.contains(id)) by {
        if r.contains(id) {
            let w = choose|w: int| 0 <= w < r.len() && r[w] == id;
            if w < i {
                assert(s[w] == id);
            } else {
                assert(s[w + 1] == id);
            }
        }
    }
    assert forall|other: EntityId| other != id implies (r.contains(other) <==> s.contains(
        other,
    )) by {
        if r.contains(other) {
            let w = choose|w: int| 0 <= w < r.len() && r[w] == other;
            if w < i {
                assert(s[w] == other);
            } else {
                assert(s[w + 1] == other);
            }
        }
        if s.contains(other) {
            let w = choose|w: int| 0 <= w < s.len() && s[w] == other;
            if w < i {
                assert(r[w] == other);
            } else if w > i {
                assert(r[w - 1] == other);
            }
        }
    }
}

/// Marker trait for component types.
pub trait Component {}

/// The keys of an entry sequence, in storage order.
pub open spec fn key_seq<T>(s: Seq<(EntityId, T)>) -> Seq<EntityId> {
    s.map_values(|p: (EntityId, T)| p.0)
}

/// The mapping an entry sequence stands for: later entries win.
pub open spec fn entries_to_map<T>(s: Seq<(EntityId, T)>) -> Map<EntityId, T>
    decreases s.len(),
{
    if s.len() == 0 {
        Map::empty()
    } else {
        entries_to_map(s.drop_last()).insert(s.last().0, s.last().1)
    }
}

pub proof fn lemma_entries_to_map_dom<T>(s: Seq<(EntityId, T)>)
    ensures
        forall|k: EntityId| #[trigger]
            entries_to_map(s).contains_key(k) <==> key_seq(s).contains(k),
    decreases s.len(),
{
    if s.len() > 0 {
        lemma_entries_to_map_dom(s.drop_last());
        assert forall|k: EntityId| #[trigger]
            entries_to_map(s).contains_key(k) <==> key_seq(s).contains(k) by {
            if entries_to_map(s).contains_key(k) {
                if k == s.last().0 {
                    assert(key_seq(s)[s.len() - 1] == k);
                } else {
                    assert(entries_to_map(s.drop_last()).contains_key(k));
                    assert(key_seq(s.drop_last()).contains(k));
                    let w = choose|w: int|
                        0 <= w < key_seq(s.drop_last()).len() && key_seq(s.drop_last())[w] == k;
                    assert(key_seq(s.drop_last())[w] == s.drop_last()[w].0);
                    assert(key_seq(s)[w] == k);
                }
            }
            if key_seq(s).contains(k) {
                let w = choose|w: int| 0 <= w < key_seq(s).len() && key_seq(s)[w] == k;
                if w == s.len() - 1 {
                    assert(k == s.last().0);
                } else {
                    assert(key_seq(s.drop_last())[w] == k);
                    assert(key_seq(s.drop_last()).contains(k));
                    assert(entries_to_map(s.drop_last()).contains_key(k));
                }
            }
        }
    }
}

pub proof fn lemma_entries_to_map_get<T>(s: Seq<(EntityId, T)>, i: int)
    requires
        key_seq(s).no_duplicates(),
        0 <= i < s.len(),
    ensures
        entries_to_map(s).contains_key(s[i].0),
        entries_to_map(s)[s[i].0] == s[i].1,
    decreases s.len(),
{
    if i == s.len() - 1 {
    } else {
        assert(key_seq(s.drop_last()) =~= key_seq(s).drop_last());
        assert(key_seq(s)[i] != key_seq(s)[s.len() - 1]);
        lemma_entries_to_map_get(s.drop_last(), i);
        assert(s.drop_last()[i] == s[i]);
    }
}

pub proof fn lemma_entries_to_map_update<T>(s: Seq<(EntityId, T)>, i: int, v: T)
    requires
        key_seq(s).no_duplicates(),
        0 <= i < s.len(),
    ensures
        entries_to_map(s.update(i, (s[i].0, v))) == entries_to_map(s).insert(s[i].0, v),
    decreases s.len(),
{
    let s2 = s.update(i, (s[i].0, v));
    if i == s.len() - 1 {
        assert(s2.drop_last() =~= s.drop_last());
        assert(entries_to_map(s2) =~= entries_to_map(s).insert(s[i].0, v));
    } else {
        assert(key_seq(s.drop_last()) =~= key_seq(s).drop_last());
        lemma_entries_to_map_update(s.drop_last(), i, v);
        assert(s2.drop_last() =~= s.drop_last().update(i, (s[i].0, v)));
        assert(s2.last() == s.last());
        assert(key_seq(s)[i] != key_seq(s)[s.len() - 1]);
        assert(entries_to_map(s2) =~= entries_to_map(s).insert(s[i].0, v));
    }
}

proof fn lemma_entries_to_map_update_all<T>(s: Seq<(EntityId, T)>, i: int)
    requires
        key_seq(s).no_duplicates(),
        0 <= i < s.len(),
    ensures
        forall|v: T| #[trigger]
            entries_to_map(s.update(i, (s[i].0, v))) == entries_to_map(s).insert(s[i].0, v),
{
    assert forall|v: T| #[trigger]
        entries_to_map(s.update(i, (s[i].0, v))) == entries_to_map(s).insert(s[i].0, v) by {
        lemma_entries_to_map_update(s, i, v);
    }
}

pub proof fn lemma_entries_to_map_push<T>(s: Seq<(EntityId, T)>, k: EntityId, v: T)
    ensures
        entries_to_map(s.push((k, v))) == entries_to_map(s).insert(k, v),
{
    assert(s.push((k, v)).drop_last() =~= s);
    assert(entries_to_map(s.push((k, v))) =~= entries_to_map(s).insert(k, v));
}

proof fn lemma_entries_to_map_remove<T>(s: Seq<(EntityId, T)>, i: int)
    requires
        key_seq(s).no_duplicates(),
        0 <= i < s.len(),
    ensures
        entries_to_map(s.remove(i)) == entries_to_map(s).remove(s[i].0),
        key_seq(s.remove(i)) =~= key_seq(s).remove(i),
        key_seq(s.remove(i)).no_duplicates(),
    decreases s.len(),
{
    let s2 = s.remove(i);
    assert(key_seq(s2) =~= key_seq(s).remove(i));
    assert(key_seq(s2).no_duplicates()) by {
        assert forall|p: int, q: int|
            0 <= p < q < key_seq(s2).len() implies key_seq(s2)[p] != key_seq(s2)[q] by {
            let p0 = if p < i { p } else { p + 1 };
            let q0 = if q < i { q } else { q + 1 };
            assert(key_seq(s2)[p] == key_seq(s)[p0]);
            assert(key_seq(s2)[q] == key_seq(s)[q0]);
        }
    }
    lemma_entries_to_map_dom(s.drop_last());
    if i == s.len() - 1 {
        assert(s2 =~= s.drop_last());
        assert(!key_seq(s.drop_last()).contains(s[i].0)) by {
            if key_seq(s.drop_last()).contains(s[i].0) {
                let w = choose|w: int|
                    0 <= w < key_seq(s.drop_last()).len() && key_seq(s.drop_last())[w] == s[i].0;
                assert(key_seq(s)[w] == key_seq(s)[s.len() - 1]);
            }
        }
        assert(entries_to_map(s2) =~= entries_to_map(s).remove(s[i].0));
    } else {
        assert(key_seq(s.drop_last()) =~= key_seq(s).drop_last());
        lemma_entries_to_map_remove(s.drop_last(), i);
        assert(s2.drop_last() =~= s.drop_last().remove(i));
        assert(s2.last() == s.last());
        assert(s.drop_last()[i] == s[i]);
        assert(key_seq(s)[i] != key_seq(s)[s.len() - 1]);
        assert(entries_to_map(s2) =~= entries_to_map(s).remove(s[i].0));
    }
}

proof fn lemma_entries_len<T>(s: Seq<(EntityId, T)>)
    requires
        key_seq(s).no_duplicates(),
    ensures
        entries_to_map(s).dom() =~= key_seq(s).to_set(),
        entries_to_map(s).dom().len() == s.len(),
        entries_to_map(s).dom().finite(),
{
    lemma_entries_to_map_dom(s);
    assert(entries_to_map(s).dom() =~= key_seq(s).to_set());
    key_seq(s).unique_seq_to_set();
}

fn entry_component_mut<T>(entry: &mut (EntityId, T)) -> (r: &mut T)
    ensures
        *r == old(entry).1,
        *final (entry) == (old(entry).0, *final (r)),
{
    &mut entry.1
}

/// Behaviour every component storage offers: a set of stored entity ids
/// with membership, removal, emptying and counting.
pub trait ComponentStorage {
    /// The ids that have a component in this storage.
    spec fn stored(&self) -> Set<EntityId>;

    /// Validity of the storage representation.
    spec fn inv(&self) -> bool;

    fn remove(&mut self, entity_id: EntityId)
        requires
            old(self).inv(),
        ensures
            final (self).inv(),
            final (self).stored() == old(self).stored().remove(entity_id),
    ;

    fn has(&self, entity_id: EntityId) -> (r: bool)
        requires
            self.inv(),
        ensures
            r == self.stored().contains(entity_id),
    ;

    fn clear(&mut self)
        ensures
            final (self).inv(),
            final (self).stored() =~= Set::<EntityId>::empty(),
    ;

    fn len(&self) -> (n: usize)
        requires
            self.inv(),
        ensures
            n == self.stored().len(),
    ;

    fn is_empty(&self) -> (r: bool)
        requires
            self.inv(),
        ensures
            r == (self.stored().len() == 0),
    ;
}

/// Storage for all components of one type, keyed by entity id.
pub struct TypedComponentStorage<T: Component> {
    entries: Vec<(EntityId, T)>,
}

impl<T: Component> TypedComponentStorage<T> {
    /// The stored entries in storage order.
    pub closed spec fn spec_entries(&self) -> Seq<(EntityId, T)> {
        self.entries@
    }

    /// The storage as a mapping from entity id to component.
    pub open spec fn as_map(&self) -> Map<EntityId, T> {
        entries_to_map(self.spec_entries())
    }

    /// Well-formedness: each entity id is stored at most once.
    pub open spec fn wf(&self) -> bool {
        key_seq(self.spec_entries()).no_duplicates()
    }

    pub fn new() -> (s: Self)
        ensures
            s.wf(),
            s.as_map() == Map::<EntityId, T>::empty(),
            s.spec_entries() =~= Seq::<(EntityId, T)>::empty(),
    {
        Self { entries: Vec::new() }
    }

    /// Store a component for an entity, replacing any component the
    /// entity already had.
    #[verifier::loop_isolation(false)]
    pub fn insert(&mut self, entity_id: EntityId, component: T)
        requires
            old(self).wf(),
        ensures
            final (self).wf(),
            final (self).as_map() == old(self).as_map().insert(entity_id, component),
    {
        let ghost prior = self.entries@;
        let mut i: usize = 0;
        while i < self.entries.len()
            invariant
                *self == *old(self),
                0 <= i <= self.entries.len(),
                forall|j: int| 0 <= j < i ==> self.entries@[j].0 != entity_id,
            decreases self.entries.len() - i,
        {
            if self.entries[i].0 == entity_id {
                proof {
                    lemma_entries_to_map_update_all(prior, i as int);
                }
                let elem = vstd::std_specs::vec::vec_index_mut(&mut self.entries, i);
                *elem = (entity_id, component);
                proof {
                    assert(self.entries@ =~= prior.update(i as int, (prior[i as int].0, self.entries@[i as int].1)));
                    assert(key_seq(self.entries@) =~= key_seq(prior));
                }
                return ;
            }
            i += 1;
        }
        proof {
            lemma_entries_to_map_push(prior, entity_id, component);
        }
        self.entries.push((entity_id, component));
        proof {
            assert(key_seq(self.entries@).no_duplicates()) by {
                assert(key_seq(self.entries@) =~= key_seq(prior).push(entity_id));
                assert forall|p: int, q: int|
                    0 <= p < q < key_seq(self.entries@).len()
                    implies key_seq(self.entries@)[p] != key_seq(self.entries@)[q] by {
                    if q == key_seq(self.entries@).len() - 1 {
                        assert(key_seq(self.entries@)[p] == prior[p].0);
                    }
                }
            }
        }
    }

    /// Look up the component of an entity.
    #[verifier::loop_isolation(false)]
    pub fn get(&self, entity_id: EntityId) -> (r: Option<&T>)
        requires
            self.wf(),
        ensures
            match r {
                Some(c) => self.as_map().contains_key(entity_id) && *c == self.as_map()[entity_id],
                None => !self.as_map().contains_key(entity_id),
            },
    {
        proof {
            lemma_entries_to_map_dom(self.entries@);
        }
        let mut i: usize = 0;
        while i < self.entries.len()
            invariant
                0 <= i <= self.entries.len(),
                forall|j: int| 0 <= j < i ==> self.entries@[j].0 != entity_id,
            decreases self.entries.len() - i,
        {
            if self.entries[i].0 == entity_id {
                proof {
                    lemma_entries_to_map_get(self.entries@, i as int);
                }
                return Some(&self.entries[i].1);
            }
            i += 1;
        }
        proof {
            assert(!key_seq(self.entries@).contains(entity_id)) by {
                if key_seq(self.entries@).contains(entity_id) {
                    let w = choose|w: int|
                        0 <= w < key_seq(self.entries@).len() && key_seq(self.entries@)[w]
                            == entity_id;
                }
            }
        }
        None
    }

    /// Look up the component of an entity for mutation.
    #[verifier::loop_isolation(false)]
    pub fn get_mut(&mut self, entity_id: EntityId) -> (r: Option<&mut T>)
        requires
            old(self).wf(),
        ensures
            old(self).as_map().contains_key(entity_id) ==> (r matches Some(c) && *c == old(
                self,
            ).as_map()[entity_id] && final (self).wf() && final (self).as_map() == old(
                self,
            ).as_map().insert(entity_id, *final (c))),
            !old(self).as_map().contains_key(entity_id) ==> (r is None && *final (self) == *old(
                self,
            )),
    {
        proof {
            lemma_entries_to_map_dom(self.entries@);
        }
        let ghost prior = self.entries@;
        let mut i: usize = 0;
        while i < self.entries.len()
            invariant
                *self == *old(self),
                0 <= i <= self.entries.len(),
                forall|j: int| 0 <= j < i ==> self.entries@[j].0 != entity_id,
            decreases self.entries.len() - i,
        {
            if self.entries[i].0 == entity_id {
                proof {
                    lemma_entries_to_map_get(prior, i as int);
                    lemma_entries_to_map_update_all(prior, i as int);
                }
                let elem = vstd::std_specs::vec::vec_index_mut(&mut self.entries, i);
                let r = entry_component_mut(elem);
                proof {
                    lemma_entries_to_map_update(prior, i as int, *final (r));
                    assert(key_seq(prior.update(i as int, (prior[i as int].0, *final (r))))
                        =~= key_seq(prior));
                }
                return Some(r);
            }
            i += 1;
        }
        proof {
            assert(!key_seq(self.entries@).contains(entity_id)) by {
                if key_seq(self.entries@).contains(entity_id) {
                    let w = choose|w: int|
                        0 <= w < key_seq(self.entries@).len() && key_seq(self.entries@)[w]
                            == entity_id;
                }
            }
        }
        None
    }

    /// The stored entries, in storage order.
    pub fn iter(&self) -> (r: &[(EntityId, T)])
        ensures
            r@ == self.spec_entries(),
    {
        self.entries.as_slice()
    }

    /// The stored entries, in storage order, open for mutation.  A
    /// caller that changes an entity id must keep the ids unique.
    pub fn iter_mut(&mut self) -> (r: &mut [(EntityId, T)])
        ensures
            r@ == old(self).spec_entries(),
            final (self).spec_entries() == final (r)@,
    {
        self.entries.as_mut_slice()
    }

    /// The stored entity ids, in storage order.
    #[verifier::loop_isolation(false)]
    pub fn keys(&self) -> (r: Vec<EntityId>)
        requires
            self.wf(),
        ensures
            r@ == key_seq(self.spec_entries()),
            r@.no_duplicates(),
            forall|k: EntityId| r@.contains(k) <==> self.as_map().contains_key(k),
    {
        proof {
            lemma_entries_to_map_dom(self.entries@);
        }
        let mut r: Vec<EntityId> = Vec::new();
        let mut i: usize = 0;
        while i < self.entries.len()
            invariant
                0 <= i <= self.entries.len(),
                r@ =~= key_seq(self.entries@).subrange(0, i as int),
            decreases self.entries.len() - i,
        {
            r.push(self.entries[i].0);
            i += 1;
        }
        proof {
            assert(r@ =~= key_seq(self.entries@));
        }
        r
    }
}

impl<T: Component> ComponentStorage for TypedComponentStorage<T> {
    open spec fn stored(&self) -> Set<EntityId> {
        self.as_map().dom()
    }

    open spec fn inv(&self) -> bool {
        self.wf()
    }

    #[verifier::loop_isolation(false)]
    fn remove(&mut self, entity_id: EntityId) {
        let ghost prior = self.entries@;
        let mut i: usize = 0;
        while i < self.entries.len()
            invariant
                *self == *old(self),
                0 <= i <= self.entries.len(),
                forall|j: int| 0 <= j < i ==> self.entries@[j].0 != entity_id,
            decreases self.entries.len() - i,
        {
            if self.entries[i].0 == entity_id {
                proof {
                    lemma_entries_to_map_remove(prior, i as int);
                }
                self.entries.remove(i);
                proof {
                    assert(final (self).stored() =~= old(self).stored().remove(entity_id));
                }
                return ;
            }
            i += 1;
        }
        proof {
            lemma_entries_to_map_dom(self.entries@);
            assert(!key_seq(self.entries@).contains(entity_id)) by {
                if key_seq(self.entries@).contains(entity_id) {
                    let w = choose|w: int|
                        0 <= w < key_seq(self.entries@).len() && key_seq(self.entries@)[w]
                            == entity_id;
                }
            }
            assert(self.stored() =~= old(self).stored().remove(entity_id));
        }
    }

    #[verifier::loop_isolation(false)]
    fn has(&self, entity_id: EntityId) -> (r: bool) {
        proof {
            lemma_entries_to_map_dom(self.entries@);
        }
        let mut i: usize = 0;
        while i < self.entries.len()
            invariant
                0 <= i <= self.entries.len(),
                forall|j: int| 0 <= j < i ==> self.entries@[j].0 != entity_id,
            decreases self.entries.len() - i,
        {
            if self.entries[i].0 == entity_id {
                proof {
                    assert(key_seq(self.entries@)[i as int] == entity_id);
                }
                return true;
            }
            i += 1;
        }
        proof {
            assert(!key_seq(self.entries@).contains(entity_id)) by {
                if key_seq(self.entries@).contains(entity_id) {
                    let w = choose|w: int|
                        0 <= w < key_seq(self.entries@).len() && key_seq(self.entries@)[w]
                            == entity_id;
                }
            }
        }
        false
    }

    fn clear(&mut self) {
        self.entries.clear();
        proof {
            assert(final (self).stored() =~= Set::<EntityId>::empty());
        }
    }

    fn len(&self) -> (n: usize) {
        proof {
            lemma_entries_len(self.entries@);
        }
        self.entries.len()
    }

    fn is_empty(&self) -> (r: bool) {
        proof {
            lemma_entries_len(self.entries@);
        }
        self.entries.len() == 0
    }
}

} // verus!
