use crate::application::repository::{
    keyed_by_identity, page_len, shows_entries, ReadRepository, Repository,
};
use crate::domain::aggregate_root::{same_aggregate, same_state, snapshot, AggregateRoot};
use crate::error::BoxError;
use std::collections::HashMap;
use vstd::prelude::*;
use vstd::std_specs::hash::spec_keys_iter;
use vstd::std_specs::iter::IteratorSpec;

verus! {

broadcast use vstd::std_specs::hash::group_hash_axioms;

/// A run of distinct keys, each showing its entry, is a page of the entries.
proof fn lemma_page_shows_entries<T: AggregateRoot>(
    entries: Map<u64, T>,
    all: Seq<u64>,
    page: Seq<T>,
    skip: int,
)
    requires
        all.no_duplicates(),
        0 <= skip,
        page.len() > 0 ==> skip + page.len() <= all.len(),
        forall|j: int|
            0 <= j < page.len() ==> entries.contains_key(#[trigger] all[skip + j])
                && same_state(entries[all[skip + j]], page[j]),
    ensures
        exists|keys: Seq<u64>| shows_entries(entries, keys, page),
{
    let keys = Seq::new(page.len(), |j: int| all[skip + j]);
    assert forall|i: int| 0 <= i < keys.len() implies entries.contains_key(#[trigger] keys[i])
        && same_state(entries[keys[i]], page[i]) by {
        assert(keys[i] == all[skip + i]);
    }
    assert(shows_entries(entries, keys, page));
}

/// A repository that keeps its aggregates in memory, in a hash map keyed by
/// identity. It never fails.
///
/// Adding and updating both store the aggregate under its identity, in place
/// of what stood there. What is stored and what is handed out are copies: no
/// caller holds a reference into the store.
pub struct InMemoryRepository<T: AggregateRoot> {
    entities: HashMap<u64, T>,
}

impl<T: AggregateRoot> InMemoryRepository<T> {
    /// Every stored aggregate stands under its own identity.
    #[verifier::type_invariant]
    spec fn sound(self) -> bool {
        keyed_by_identity(self.entities@)
    }

    /// An empty repository.
    pub fn new() -> (repository: Self)
        ensures
            repository.entries() == Map::<u64, T>::empty(),
            keyed_by_identity(repository.entries()),
    {
        InMemoryRepository { entities: HashMap::new() }
    }
}

impl<T: AggregateRoot> Default for InMemoryRepository<T> {
    fn default() -> (repository: Self)
        ensures
            repository.entries() == Map::<u64, T>::empty(),
    {
        InMemoryRepository::new()
    }
}

impl<T: AggregateRoot> ReadRepository<T> for InMemoryRepository<T> {
    closed spec fn entries(&self) -> Map<u64, T> {
        self.entities@
    }

    open spec fn never_fails(&self) -> bool {
        true
    }

    fn get_by_id(&self, id: u64) -> (found: Result<Option<T>, BoxError>)
        ensures
            found matches Ok(Some(entity)) ==> entity.identity() == id && same_aggregate(
                self.entries()[id],
                entity,
            ),
    {
        proof {
            use_type_invariant(self);
        }
        match self.entities.get(&id) {
            Some(entity) => Ok(Some(snapshot(entity))),
            None => Ok(None),
        }
    }

    fn list(&self, skip: usize, take: usize) -> (listed: Result<Vec<T>, BoxError>)
        ensures
            listed matches Ok(page) ==> {
                &&& forall|i: int|
                    0 <= i < page@.len() ==> self.entries().contains_key(
                        (#[trigger] page@[i]).identity(),
                    ) && same_aggregate(self.entries()[page@[i].identity()], page@[i])
                &&& forall|i: int, j: int|
                    0 <= i < j < page@.len() ==> (#[trigger] page@[i]).identity() != (
                    #[trigger] page@[j]).identity()
            },
    {
        proof {
            use_type_invariant(self);
        }
        let count = self.entities.len();
        let ghost all: Seq<u64> = spec_keys_iter(&self.entities).remaining().unref();
        let mut page: Vec<T> = Vec::new();
        let mut position: usize = 0;
        for key in iter: self.entities.keys()
            invariant
                iter.seq().unref() == all,
                all.no_duplicates(),
                all.to_set() == self.entities@.dom(),
                all.len() == count,
                count == self.entities@.len(),
                position == iter.index(),
                page@.len() == page_len(position as nat, skip as nat, take as nat),
                keyed_by_identity(self.entities@),
                page@.len() > 0 ==> skip + page@.len() <= position,
                forall|j: int|
                    0 <= j < page@.len() ==> self.entities@.contains_key(#[trigger] all[skip + j])
                        && same_aggregate(self.entities@[all[skip + j]], page@[j]),
        {
            assert(all[position as int] == *key);
            assert(all.to_set().contains(all[position as int]));
            if position >= skip && page.len() < take {
                match self.entities.get(key) {
                    Some(entity) => {
                        page.push(snapshot(entity));
                    },
                    None => {
                        assert(false);
                    },
                }
            }
            position += 1;
        }
        proof {
            lemma_page_shows_entries(self.entries(), all, page@, skip as int);
            assert forall|i: int| 0 <= i < page@.len() implies (#[trigger] page@[i]).identity()
                == all[skip + i] by {
                assert(self.entities@.contains_key(all[skip + i]));
            }
        }
        Ok(page)
    }

    fn count(&self) -> (counted: Result<usize, BoxError>) {
        Ok(self.entities.len())
    }
}

impl<T: AggregateRoot> Repository<T> for InMemoryRepository<T> {
    open spec fn fails_cleanly(&self) -> bool {
        true
    }

    fn add(&mut self, entity: T) -> (added: Result<T, BoxError>)
        ensures
            added matches Ok(stored) && stored == entity,
            same_aggregate(entity, final(self).entries()[entity.identity()]),
            keyed_by_identity(final(self).entries()),
    {
        proof {
            use_type_invariant(&*self);
        }
        let stored = snapshot(&entity);
        // The map leaves the repository while it changes, so that the
        // repository is sound at every moment.
        let mut entities: HashMap<u64, T> = HashMap::new();
        core::mem::swap(&mut self.entities, &mut entities);
        entities.insert(entity.id(), stored);
        core::mem::swap(&mut self.entities, &mut entities);
        Ok(entity)
    }

    fn update(&mut self, entity: T) -> (updated: Result<T, BoxError>)
        ensures
            updated matches Ok(stored) && stored == entity,
            same_aggregate(entity, final(self).entries()[entity.identity()]),
            keyed_by_identity(final(self).entries()),
    {
        self.add(entity)
    }

    fn delete(&mut self, entity: T) -> (deleted: Result<(), BoxError>)
        ensures
            keyed_by_identity(final(self).entries()),
    {
        proof {
            use_type_invariant(&*self);
        }
        let id = entity.id();
        let mut entities: HashMap<u64, T> = HashMap::new();
        core::mem::swap(&mut self.entities, &mut entities);
        entities.remove(&id);
        core::mem::swap(&mut self.entities, &mut entities);
        Ok(())
    }
}

} // verus!
