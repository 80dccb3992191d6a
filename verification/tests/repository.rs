use ddd_rs::application::{ReadRepository, Repository};
use ddd_rs::domain::{Aggregate, AggregateRoot, Entity};
use ddd_rs::infrastructure::InMemoryRepository;
use ddd_rs::BoxError;

type Note = Aggregate<&'static str, u32>;

fn three_notes() -> InMemoryRepository<Note> {
    let mut repository = InMemoryRepository::new();
    repository.add(Note::new(1, "foo")).unwrap();
    repository.add(Note::new(2, "bar")).unwrap();
    repository.add(Note::new(3, "baz")).unwrap();
    repository
}

#[test]
fn new_repository_is_empty() {
    let repository: InMemoryRepository<Note> = InMemoryRepository::new();
    assert_eq!(repository.count().unwrap(), 0);
    assert!(repository.is_empty().unwrap());
    assert!(repository.list(0, 10).unwrap().is_empty());
    assert!(repository.get_by_id(1).unwrap().is_none());
}

#[test]
fn default_repository_is_empty() {
    let repository: InMemoryRepository<Note> = InMemoryRepository::default();
    assert!(repository.is_empty().unwrap());
}

#[test]
fn add_then_get_returns_the_aggregate() {
    let mut repository = InMemoryRepository::new();
    let added = repository.add(Note::new(42, "foo")).unwrap();
    assert_eq!(added.id(), 42);
    assert_eq!(added.state(), "foo");
    let found = repository.get_by_id(42).unwrap().unwrap();
    assert_eq!(found.id(), 42);
    assert_eq!(found.state(), "foo");
    assert!(found == added);
}

#[test]
fn add_keeps_the_pending_events_of_the_aggregate() {
    let mut repository = InMemoryRepository::new();
    let mut note = Note::new(1, "foo");
    note.register_domain_event(5);
    let mut added = repository.add(note).unwrap();
    assert_eq!(added.drain_domain_events(), vec![5]);
    let mut found = repository.get_by_id(1).unwrap().unwrap();
    assert_eq!(found.drain_domain_events(), vec![5]);
}

#[test]
fn get_hands_out_a_copy() {
    let mut repository = InMemoryRepository::new();
    repository.add(Note::new(1, "foo")).unwrap();
    let mut found = repository.get_by_id(1).unwrap().unwrap();
    found.set_state("changed");
    assert_eq!(repository.get_by_id(1).unwrap().unwrap().state(), "foo");
}

#[test]
fn get_of_an_absent_identity_is_none() {
    let repository = three_notes();
    assert!(repository.get_by_id(4).unwrap().is_none());
    assert!(!repository.exists_by_id(4).unwrap());
    assert!(repository.exists_by_id(2).unwrap());
}

#[test]
fn update_after_add_replaces_the_stored_value() {
    let mut repository = InMemoryRepository::new();
    repository.add(Note::new(2, "bar")).unwrap();
    let mut note = repository.get_by_id(2).unwrap().unwrap();
    note.set_state("qux");
    let updated = repository.update(note).unwrap();
    assert_eq!(updated.state(), "qux");
    assert_eq!(repository.get_by_id(2).unwrap().unwrap().state(), "qux");
    assert_eq!(repository.count().unwrap(), 1);
}

#[test]
fn add_under_a_stored_identity_overwrites() {
    let mut repository = InMemoryRepository::new();
    repository.add(Note::new(1, "foo")).unwrap();
    repository.add(Note::new(1, "bar")).unwrap();
    assert_eq!(repository.count().unwrap(), 1);
    assert_eq!(repository.get_by_id(1).unwrap().unwrap().state(), "bar");
}

#[test]
fn update_of_an_absent_identity_stores_it() {
    let mut repository = InMemoryRepository::new();
    repository.update(Note::new(8, "new")).unwrap();
    assert_eq!(repository.get_by_id(8).unwrap().unwrap().state(), "new");
}

#[test]
fn delete_removes_the_entry() {
    let mut repository = three_notes();
    repository.delete(Note::new(2, "whatever")).unwrap();
    assert!(!repository.exists_by_id(2).unwrap());
    assert_eq!(repository.count().unwrap(), 2);
    assert!(repository.exists_by_id(1).unwrap());
    assert!(repository.exists_by_id(3).unwrap());
}

#[test]
fn delete_of_an_absent_identity_is_a_no_op() {
    let mut repository = three_notes();
    assert!(repository.delete(Note::new(9, "ghost")).is_ok());
    assert_eq!(repository.count().unwrap(), 3);
    let mut empty: InMemoryRepository<Note> = InMemoryRepository::new();
    assert!(empty.delete(Note::new(1, "ghost")).is_ok());
    assert!(empty.is_empty().unwrap());
}

#[test]
fn count_and_is_empty_follow_the_store() {
    let mut repository = three_notes();
    assert_eq!(repository.count().unwrap(), 3);
    assert!(!repository.is_empty().unwrap());
    repository.delete_range(vec![Note::new(1, ""), Note::new(2, ""), Note::new(3, "")]).unwrap();
    assert_eq!(repository.count().unwrap(), 0);
    assert!(repository.is_empty().unwrap());
}

#[test]
fn list_skip_one_take_one_of_three() {
    let repository = three_notes();
    let first = repository.list(0, 1).unwrap();
    let second = repository.list(1, 1).unwrap();
    assert_eq!(first.len(), 1);
    assert_eq!(second.len(), 1);
    assert_ne!(first[0].id(), second[0].id());
}

#[test]
fn list_returns_each_stored_aggregate_once() {
    let repository = three_notes();
    let all = repository.list(0, 10).unwrap();
    assert_eq!(all.len(), 3);
    let mut ids: Vec<u64> = all.iter().map(|note| note.id()).collect();
    ids.sort();
    assert_eq!(ids, vec![1, 2, 3]);
    for note in all.iter() {
        let stored = repository.get_by_id(note.id()).unwrap().unwrap();
        assert_eq!(stored.state(), note.state());
    }
}

#[test]
fn list_page_lengths() {
    let repository = three_notes();
    assert_eq!(repository.list(0, 0).unwrap().len(), 0);
    assert_eq!(repository.list(0, 2).unwrap().len(), 2);
    assert_eq!(repository.list(0, 3).unwrap().len(), 3);
    assert_eq!(repository.list(1, 5).unwrap().len(), 2);
    assert_eq!(repository.list(2, 5).unwrap().len(), 1);
    assert_eq!(repository.list(3, 5).unwrap().len(), 0);
    assert_eq!(repository.list(7, 5).unwrap().len(), 0);
    assert_eq!(repository.list(usize::MAX, usize::MAX).unwrap().len(), 0);
    assert_eq!(repository.list(0, usize::MAX).unwrap().len(), 3);
}

#[test]
fn list_pages_do_not_overlap() {
    let repository = three_notes();
    let head = repository.list(0, 2).unwrap();
    let tail = repository.list(2, 2).unwrap();
    let mut ids: Vec<u64> = head.iter().chain(tail.iter()).map(|note| note.id()).collect();
    ids.sort();
    assert_eq!(ids, vec![1, 2, 3]);
}

#[test]
fn add_range_adds_each_and_returns_them_in_order() {
    let mut repository = InMemoryRepository::new();
    let added = repository
        .add_range(vec![Note::new(3, "c"), Note::new(1, "a"), Note::new(2, "b")])
        .unwrap();
    let ids: Vec<u64> = added.iter().map(|note| note.id()).collect();
    assert_eq!(ids, vec![3, 1, 2]);
    assert_eq!(repository.count().unwrap(), 3);
    assert_eq!(repository.get_by_id(1).unwrap().unwrap().state(), "a");
}

#[test]
fn add_range_of_nothing_changes_nothing() {
    let mut repository = three_notes();
    assert!(repository.add_range(vec![]).unwrap().is_empty());
    assert_eq!(repository.count().unwrap(), 3);
}

#[test]
fn add_range_keeps_the_last_of_a_repeated_identity() {
    let mut repository = InMemoryRepository::new();
    repository.add_range(vec![Note::new(1, "first"), Note::new(1, "last")]).unwrap();
    assert_eq!(repository.count().unwrap(), 1);
    assert_eq!(repository.get_by_id(1).unwrap().unwrap().state(), "last");
}

#[test]
fn update_range_replaces_each() {
    let mut repository = three_notes();
    let updated = repository.update_range(vec![Note::new(1, "x"), Note::new(3, "z")]).unwrap();
    assert_eq!(updated.len(), 2);
    assert_eq!(updated[0].state(), "x");
    assert_eq!(repository.get_by_id(1).unwrap().unwrap().state(), "x");
    assert_eq!(repository.get_by_id(2).unwrap().unwrap().state(), "bar");
    assert_eq!(repository.get_by_id(3).unwrap().unwrap().state(), "z");
}

#[test]
fn delete_range_removes_each_and_skips_the_absent() {
    let mut repository = three_notes();
    repository.delete_range(vec![Note::new(1, ""), Note::new(9, ""), Note::new(3, "")]).unwrap();
    assert_eq!(repository.count().unwrap(), 1);
    assert!(repository.exists_by_id(2).unwrap());
}

struct Refusing {
    inner: InMemoryRepository<Note>,
    refused: u64,
}

impl ReadRepository<Note> for Refusing {
    // The model of the store is ghost: compiled code never asks for it.
    fn entries(&self) -> vstd::map::Map<u64, Note> {
        unreachable!()
    }

    fn never_fails(&self) -> bool {
        false
    }

    fn get_by_id(&self, id: u64) -> Result<Option<Note>, BoxError> {
        self.inner.get_by_id(id)
    }

    fn list(&self, skip: usize, take: usize) -> Result<Vec<Note>, BoxError> {
        self.inner.list(skip, take)
    }

    fn count(&self) -> Result<usize, BoxError> {
        self.inner.count()
    }
}

impl Repository<Note> for Refusing {
    fn fails_cleanly(&self) -> bool {
        true
    }

    fn add(&mut self, entity: Note) -> Result<Note, BoxError> {
        if entity.id() == self.refused {
            return Err(BoxError::new("refused"));
        }
        self.inner.add(entity)
    }

    fn update(&mut self, entity: Note) -> Result<Note, BoxError> {
        self.add(entity)
    }

    fn delete(&mut self, entity: Note) -> Result<(), BoxError> {
        if entity.id() == self.refused {
            return Err(BoxError::new("refused"));
        }
        self.inner.delete(entity)
    }
}

#[test]
fn add_range_keeps_what_was_added_before_the_first_failure() {
    let mut repository = Refusing { inner: InMemoryRepository::new(), refused: 2 };
    let result = repository.add_range(vec![Note::new(1, "a"), Note::new(2, "b"), Note::new(3, "c")]);
    match result {
        Err(err) => assert_eq!(err.message, "refused"),
        Ok(_) => panic!("the failure was lost"),
    }
    assert_eq!(repository.count().unwrap(), 1);
    assert!(repository.exists_by_id(1).unwrap());
    assert!(!repository.exists_by_id(3).unwrap());
}

#[test]
fn update_range_keeps_what_was_updated_before_the_first_failure() {
    let mut repository = Refusing { inner: InMemoryRepository::new(), refused: 3 };
    assert!(repository.update_range(vec![Note::new(1, "a"), Note::new(3, "c"), Note::new(4, "d")]).is_err());
    assert_eq!(repository.count().unwrap(), 1);
    assert_eq!(repository.get_by_id(1).unwrap().unwrap().state(), "a");
}

#[test]
fn delete_range_keeps_what_was_deleted_before_the_first_failure() {
    let mut repository = Refusing { inner: three_notes(), refused: 2 };
    assert!(repository.delete_range(vec![Note::new(1, ""), Note::new(2, ""), Note::new(3, "")]).is_err());
    assert!(!repository.exists_by_id(1).unwrap());
    assert!(repository.exists_by_id(2).unwrap());
    assert!(repository.exists_by_id(3).unwrap());
}
