use crate::domain::aggregate_root::{same_state, AggregateRoot};
use crate::error::BoxError;
use vstd::prelude::*;

verus! {

/// The length of the page that `skip` and `take` cut out of `count` items:
/// what is left after `skip` items, and `take` items at most.
pub open spec fn page_len(count: nat, skip: nat, take: nat) -> nat {
    let left = if skip <= count {
        (count - skip) as nat
    } else {
        0
    };
    if take <= left {
        take
    } else {
        left
    }
}

/// Whether `page` shows the entries of `entries` under `keys`, one for one:
/// the keys are distinct keys of `entries`, and each aggregate of the page
/// shows the entry under its key.
pub open spec fn shows_entries<T: AggregateRoot>(
    entries: Map<u64, T>,
    keys: Seq<u64>,
    page: Seq<T>,
) -> bool {
    &&& keys.len() == page.len()
    &&& keys.no_duplicates()
    &&& forall|i: int|
        0 <= i < keys.len() ==> entries.contains_key(#[trigger] keys[i]) && same_state(
            entries[keys[i]],
            page[i],
        )
}

/// Whether `after` is `before` with `entity` stored under its identity, in
/// place of what stood there: every other entry is as it was.
pub open spec fn upserted<T: AggregateRoot>(
    before: Map<u64, T>,
    after: Map<u64, T>,
    entity: T,
) -> bool {
    &&& after.contains_key(entity.identity())
    &&& same_state(entity, after[entity.identity()])
    &&& after == before.insert(entity.identity(), after[entity.identity()])
}

/// The index of the last of `entities` whose identity is `id`, if there is
/// one.
pub open spec fn last_with_identity<T: AggregateRoot>(entities: Seq<T>, id: u64) -> Option<int>
    decreases entities.len(),
{
    if entities.len() == 0 {
        None
    } else if entities.last().identity() == id {
        Some(entities.len() - 1)
    } else {
        last_with_identity(entities.drop_last(), id)
    }
}

/// Whether `after` is `before` with each of `entities` stored in turn under
/// its identity: an identity that occurs among them holds the last of them
/// that has it, and every other entry is as it was.
pub open spec fn upserted_all<T: AggregateRoot>(
    before: Map<u64, T>,
    after: Map<u64, T>,
    entities: Seq<T>,
) -> bool {
    forall|id: u64|
        match #[trigger] last_with_identity(entities, id) {
            Some(i) => after.contains_key(id) && same_state(entities[i], after[id]),
            None => after.contains_key(id) == before.contains_key(id) && (before.contains_key(id)
                ==> after[id] == before[id]),
        }
}

/// The identities of `entities`.
pub open spec fn identities<T: AggregateRoot>(entities: Seq<T>) -> Set<u64> {
    Set::new(|id: u64| exists|i: int| 0 <= i < entities.len() && entities[i].identity() == id)
}

/// The index that `last_with_identity` finds is that of an entity with this
/// identity.
pub proof fn lemma_last_with_identity<T: AggregateRoot>(entities: Seq<T>, id: u64)
    ensures
        match last_with_identity(entities, id) {
            Some(i) => 0 <= i < entities.len() && entities[i].identity() == id,
            None => true,
        },
    decreases entities.len(),
{
    if entities.len() > 0 && entities.last().identity() != id {
        lemma_last_with_identity(entities.drop_last(), id);
    }
}

/// Storing one more entity extends `upserted_all` by that entity.
pub proof fn lemma_upserted_all_step<T: AggregateRoot>(
    before: Map<u64, T>,
    middle: Map<u64, T>,
    after: Map<u64, T>,
    entities: Seq<T>,
    entity: T,
)
    requires
        upserted_all(before, middle, entities),
        upserted(middle, after, entity),
    ensures
        upserted_all(before, after, entities.push(entity)),
{
    let longer = entities.push(entity);
    assert(longer.drop_last() =~= entities);
    assert forall|id: u64|
        match #[trigger] last_with_identity(longer, id) {
            Some(i) => after.contains_key(id) && same_state(longer[i], after[id]),
            None => after.contains_key(id) == before.contains_key(id) && (before.contains_key(id)
                ==> after[id] == before[id]),
        } by {
        lemma_last_with_identity(entities, id);
        assert(last_with_identity(entities, id) is Some || last_with_identity(entities, id) is None);
        if entity.identity() != id {
            assert(last_with_identity(longer, id) == last_with_identity(entities, id));
            assert(after.contains_key(id) == middle.contains_key(id));
            assert(middle.contains_key(id) ==> after[id] == middle[id]);
        }
    }
}

/// Round trip: what is found under the identity of an aggregate that was
/// just stored shows that aggregate.
pub proof fn lemma_stored_is_found<T: AggregateRoot>(
    before: Map<u64, T>,
    after: Map<u64, T>,
    entity: T,
    found: T,
)
    requires
        upserted(before, after, entity),
        same_state(after[entity.identity()], found),
    ensures
        after.contains_key(entity.identity()),
        same_state(entity, found),
{
}

/// Storing a second aggregate under the identity of a first replaces the
/// first entirely: the store is as if the second alone had been stored.
pub proof fn lemma_update_replaces<T: AggregateRoot>(
    before: Map<u64, T>,
    middle: Map<u64, T>,
    after: Map<u64, T>,
    first: T,
    second: T,
)
    requires
        upserted(before, middle, first),
        upserted(middle, after, second),
        first.identity() == second.identity(),
    ensures
        upserted(before, after, second),
        same_state(second, after[first.identity()]),
{
    assert(after =~= before.insert(second.identity(), after[second.identity()]));
}

/// Storing an aggregate touches no entry but its own, and the store holds
/// one entry for each identity: one more than before where the identity was
/// new, as many as before where it was not.
pub proof fn lemma_upsert_is_local<T: AggregateRoot>(
    before: Map<u64, T>,
    after: Map<u64, T>,
    entity: T,
)
    requires
        before.dom().finite(),
        upserted(before, after, entity),
    ensures
        forall|id: u64|
            id != entity.identity() ==> after.contains_key(id) == before.contains_key(id) && (
            before.contains_key(id) ==> after[id] == #[trigger] before[id]),
        after.dom().finite(),
        after.len() == if before.contains_key(entity.identity()) {
            before.len()
        } else {
            before.len() + 1
        },
{
    assert(after.dom() =~= before.dom().insert(entity.identity()));
}

/// Deleting under an identity that is not stored changes nothing.
pub proof fn lemma_delete_absent_is_noop<T: AggregateRoot>(entries: Map<u64, T>, id: u64)
    requires
        !entries.contains_key(id),
    ensures
        entries.remove(id) == entries,
{
    assert(entries.remove(id) =~= entries);
}

/// Whether every entry stands under its own identity.
pub open spec fn keyed_by_identity<T: AggregateRoot>(entries: Map<u64, T>) -> bool {
    forall|id: u64| #[trigger] entries.contains_key(id) ==> entries[id].identity() == id
}

/// Storing and deleting keep every entry under its own identity.
pub proof fn lemma_keyed_by_identity_is_kept<T: AggregateRoot>(
    before: Map<u64, T>,
    after: Map<u64, T>,
    entity: T,
)
    requires
        keyed_by_identity(before),
        upserted(before, after, entity) || after == before.remove(entity.identity()),
    ensures
        keyed_by_identity(after),
{
    assert forall|id: u64| #[trigger] after.contains_key(id) implies after[id].identity()
        == id by {
        if id != entity.identity() {
            assert(before.contains_key(id));
        }
    }
}

/// A read-only repository: the stored aggregates, each under its identity.
///
/// A backend may fail on any call. `never_fails` says of a repository that
/// none of its operations does.
pub trait ReadRepository<T: AggregateRoot> {
    /// The stored aggregates, each under the identity that it was stored
    /// with.
    spec fn entries(&self) -> Map<u64, T>;

    /// Whether every operation of this repository succeeds.
    spec fn never_fails(&self) -> bool;

    /// The stored aggregate with the identity `id`, if there is one.
    fn get_by_id(&self, id: u64) -> (found: Result<Option<T>, BoxError>)
        ensures
            self.never_fails() ==> found is Ok,
            match found {
                Ok(Some(entity)) => self.entries().contains_key(id) && same_state(
                    self.entries()[id],
                    entity,
                ),
                Ok(None) => !self.entries().contains_key(id),
                Err(_) => true,
            },
    ;

    /// One page of the stored aggregates: up to `take` of them after skipping
    /// `skip`, in no contracted order.
    fn list(&self, skip: usize, take: usize) -> (listed: Result<Vec<T>, BoxError>)
        ensures
            self.never_fails() ==> listed is Ok,
            match listed {
                Ok(page) => page@.len() == page_len(
                    self.entries().len(),
                    skip as nat,
                    take as nat,
                ) && exists|keys: Seq<u64>| shows_entries(self.entries(), keys, page@),
                Err(_) => true,
            },
    ;

    /// The number of stored aggregates.
    fn count(&self) -> (counted: Result<usize, BoxError>)
        ensures
            self.never_fails() ==> counted is Ok,
            match counted {
                Ok(count) => count == self.entries().len(),
                Err(_) => true,
            },
    ;

    /// Whether an aggregate with the identity `id` is stored.
    fn exists_by_id(&self, id: u64) -> (answer: Result<bool, BoxError>)
        ensures
            self.never_fails() ==> answer is Ok,
            match answer {
                Ok(found) => found == self.entries().contains_key(id),
                Err(_) => true,
            },
    {
        match self.get_by_id(id) {
            Ok(found) => Ok(found.is_some()),
            Err(err) => Err(err),
        }
    }

    /// Whether nothing is stored.
    fn is_empty(&self) -> (answer: Result<bool, BoxError>)
        ensures
            self.never_fails() ==> answer is Ok,
            match answer {
                Ok(empty) => empty == (self.entries().len() == 0),
                Err(_) => true,
            },
    {
        match self.count() {
            Ok(count) => Ok(count == 0),
            Err(err) => Err(err),
        }
    }
}

/// A repository: the persistence of aggregate roots, keyed by identity.
///
/// A backend may fail on any call. `fails_cleanly` says of a repository
/// that an operation of it which fails leaves the stored aggregates as they
/// were.
pub trait Repository<T: AggregateRoot>: ReadRepository<T> {
    /// Whether an operation of this repository that fails leaves the stored
    /// aggregates as they were.
    spec fn fails_cleanly(&self) -> bool;

    /// Stores `entity` under its identity and hands it back.
    fn add(&mut self, entity: T) -> (added: Result<T, BoxError>)
        ensures
            old(self).never_fails() ==> added is Ok,
            final(self).never_fails() == old(self).never_fails(),
            final(self).fails_cleanly() == old(self).fails_cleanly(),
            match added {
                Ok(stored) => same_state(entity, stored) && upserted(
                    old(self).entries(),
                    final(self).entries(),
                    entity,
                ),
                Err(_) => old(self).fails_cleanly() ==> final(self).entries() == old(self).entries(),
            },
    ;

    /// Stores `entity` under its identity, in place of what was stored
    /// there, and hands it back.
    fn update(&mut self, entity: T) -> (updated: Result<T, BoxError>)
        ensures
            old(self).never_fails() ==> updated is Ok,
            final(self).never_fails() == old(self).never_fails(),
            final(self).fails_cleanly() == old(self).fails_cleanly(),
            match updated {
                Ok(stored) => same_state(entity, stored) && upserted(
                    old(self).entries(),
                    final(self).entries(),
                    entity,
                ),
                Err(_) => old(self).fails_cleanly() ==> final(self).entries() == old(self).entries(),
            },
    ;

    /// Removes what is stored under the identity of `entity`, if anything.
    fn delete(&mut self, entity: T) -> (deleted: Result<(), BoxError>)
        ensures
            old(self).never_fails() ==> deleted is Ok,
            final(self).never_fails() == old(self).never_fails(),
            final(self).fails_cleanly() == old(self).fails_cleanly(),
            match deleted {
                Ok(_) => final(self).entries() == old(self).entries().remove(entity.identity()),
                Err(_) => old(self).fails_cleanly() ==> final(self).entries() == old(self).entries(),
            },
    ;

    /// Adds each of `entities` in turn and hands them back in the same
    /// order. The first failure ends the run: what was added before it stays
    /// stored.
    fn add_range(&mut self, entities: Vec<T>) -> (added: Result<Vec<T>, BoxError>)
        ensures
            old(self).never_fails() || entities@.len() == 0 ==> added is Ok,
            final(self).never_fails() == old(self).never_fails(),
            final(self).fails_cleanly() == old(self).fails_cleanly(),
            match added {
                Ok(stored) => {
                    &&& stored@.len() == entities@.len()
                    &&& forall|i: int|
                        0 <= i < stored@.len() ==> same_state(entities@[i], #[trigger] stored@[i])
                    &&& upserted_all(old(self).entries(), final(self).entries(), entities@)
                },
                Err(_) => old(self).fails_cleanly() ==> exists|done: int|
                    0 <= done < entities@.len() && upserted_all(
                        old(self).entries(),
                        final(self).entries(),
                        #[trigger] entities@.take(done),
                    ),
            },
    {
        let ghost before = self.entries();
        let mut added_entities: Vec<T> = Vec::new();
        for entity in iter: entities
            invariant
                iter.seq() == entities@,
                self.never_fails() == old(self).never_fails(),
                self.fails_cleanly() == old(self).fails_cleanly(),
                before == old(self).entries(),
                added_entities@.len() == iter.index(),
                forall|i: int|
                    0 <= i < added_entities@.len() ==> same_state(
                        entities@[i],
                        #[trigger] added_entities@[i],
                    ),
                upserted_all(before, self.entries(), entities@.take(iter.index() as int)),
        {
            let ghost middle = self.entries();
            let ghost done = entities@.take(iter.index() as int);
            match self.add(entity) {
                Ok(stored) => {
                    proof {
                        lemma_upserted_all_step(before, middle, self.entries(), done, entity);
                        assert(done.push(entity) =~= entities@.take(iter.index() + 1));
                    }
                    added_entities.push(stored);
                },
                Err(err) => {
                    return Err(err);
                },
            }
        }
        assert(entities@.take(entities@.len() as int) =~= entities@);
        Ok(added_entities)
    }

    /// Updates each of `entities` in turn and hands them back in the same
    /// order. The first failure ends the run: what was updated before it
    /// stays stored.
    fn update_range(&mut self, entities: Vec<T>) -> (updated: Result<Vec<T>, BoxError>)
        ensures
            old(self).never_fails() || entities@.len() == 0 ==> updated is Ok,
            final(self).never_fails() == old(self).never_fails(),
            final(self).fails_cleanly() == old(self).fails_cleanly(),
            match updated {
                Ok(stored) => {
                    &&& stored@.len() == entities@.len()
                    &&& forall|i: int|
                        0 <= i < stored@.len() ==> same_state(entities@[i], #[trigger] stored@[i])
                    &&& upserted_all(old(self).entries(), final(self).entries(), entities@)
                },
                Err(_) => old(self).fails_cleanly() ==> exists|done: int|
                    0 <= done < entities@.len() && upserted_all(
                        old(self).entries(),
                        final(self).entries(),
                        #[trigger] entities@.take(done),
                    ),
            },
    {
        let ghost before = self.entries();
        let mut updated_entities: Vec<T> = Vec::new();
        for entity in iter: entities
            invariant
                iter.seq() == entities@,
                self.never_fails() == old(self).never_fails(),
                self.fails_cleanly() == old(self).fails_cleanly(),
                before == old(self).entries(),
                updated_entities@.len() == iter.index(),
                forall|i: int|
                    0 <= i < updated_entities@.len() ==> same_state(
                        entities@[i],
                        #[trigger] updated_entities@[i],
                    ),
                upserted_all(before, self.entries(), entities@.take(iter.index() as int)),
        {
            let ghost middle = self.entries();
            let ghost done = entities@.take(iter.index() as int);
            match self.update(entity) {
                Ok(stored) => {
                    proof {
                        lemma_upserted_all_step(before, middle, self.entries(), done, entity);
                        assert(done.push(entity) =~= entities@.take(iter.index() + 1));
                    }
                    updated_entities.push(stored);
                },
                Err(err) => {
                    return Err(err);
                },
            }
        }
        assert(entities@.take(entities@.len() as int) =~= entities@);
        Ok(updated_entities)
    }

    /// Deletes each of `entities` in turn. The first failure ends the run:
    /// what was deleted before it stays deleted.
    fn delete_range(&mut self, entities: Vec<T>) -> (deleted: Result<(), BoxError>)
        ensures
            old(self).never_fails() || entities@.len() == 0 ==> deleted is Ok,
            final(self).never_fails() == old(self).never_fails(),
            final(self).fails_cleanly() == old(self).fails_cleanly(),
            match deleted {
                Ok(_) => final(self).entries() == old(self).entries().remove_keys(
                    identities(entities@),
                ),
                Err(_) => old(self).fails_cleanly() ==> exists|done: int|
                    0 <= done < entities@.len() && final(self).entries() == old(self)
                        .entries().remove_keys(identities(#[trigger] entities@.take(done))),
            },
    {
        let ghost before = self.entries();
        assert(before.remove_keys(identities(entities@.take(0))) =~= before);
        for entity in iter: entities
            invariant
                iter.seq() == entities@,
                self.never_fails() == old(self).never_fails(),
                self.fails_cleanly() == old(self).fails_cleanly(),
                before == old(self).entries(),
                self.entries() == before.remove_keys(
                    identities(entities@.take(iter.index() as int)),
                ),
        {
            let ghost done = entities@.take(iter.index() as int);
            match self.delete(entity) {
                Ok(()) => {
                    proof {
                        let longer = entities@.take(iter.index() + 1);
                        assert(longer[iter.index() as int] == entity);
                        assert forall|id: u64| #[trigger]
                            identities(longer).contains(id) == (identities(done).contains(id) || id
                                == entity.identity()) by {
                            if identities(done).contains(id) {
                                let i = choose|i: int|
                                    0 <= i < done.len() && done[i].identity() == id;
                                assert(longer[i] == done[i]);
                            }
                            if identities(longer).contains(id) {
                                let i = choose|i: int|
                                    0 <= i < longer.len() && longer[i].identity() == id;
                                if i < done.len() {
                                    assert(longer[i] == done[i]);
                                }
                            }
                        }
                        assert(self.entries() =~= before.remove_keys(identities(longer)));
                    }
                },
                Err(err) => {
                    return Err(err);
                },
            }
        }
        assert(entities@.take(entities@.len() as int) =~= entities@);
        Ok(())
    }
}

} // verus!
