//! The storage abstraction and the database facade.
//!
//! Every facade operation is a whole-state round trip: it reads the complete
//! persisted state fresh, mutates it in memory, and (for mutating
//! operations) persists the complete state back. Nothing is cached between
//! calls, and a failed operation never silently recovers: storage failures
//! and missing references always propagate to the caller.

use crate::errors::DbError;
use crate::id_table::DeepCopy;
use crate::models::{
    spec_add_epic, spec_add_story, spec_delete_epic, spec_delete_story, spec_set_epic_status,
    spec_set_story_status, DBState, Epic, StateView, Status, Story,
};
use vstd::prelude::*;

verus! {

/// A medium able to read and write the full persisted state.
///
/// `persisted` is the state a successful read would currently return. A
/// faulty medium may fail a read or a write at any moment, so neither
/// operation promises success; each says what holds of whatever it returns.
pub trait Database: Sized {
    /// The well-formed state the medium currently holds, if it holds one.
    /// A backend implemented outside the verified world may leave the
    /// default, which promises nothing of what it holds.
    open spec fn persisted(&self) -> Option<StateView> {
        None
    }

    /// Load the entire persisted state. Fails with `StorageRead` when the
    /// medium is unreadable and with `StorageParse` when its content does not
    /// describe a state.
    fn read_db(&self) -> (r: Result<DBState, DbError>)
        ensures
            r matches Ok(db) ==> db.wf() && self.persisted() == Some(db@),
            r matches Err(e) ==> (e == DbError::StorageRead || e == DbError::StorageParse),
    ;

    /// Serialize and persist the entire state, replacing any prior content.
    /// Fails with `StorageWrite` when the medium cannot be written; a failed
    /// write may leave the medium in any condition.
    fn write_db(&mut self, state: &DBState) -> (r: Result<(), DbError>)
        requires
            state.wf(),
        ensures
            r matches Ok(()) ==> final(self).persisted() == Some(state@),
            r matches Err(e) ==> e == DbError::StorageWrite,
    ;
}

/// A reliable in-memory medium: it keeps the last written state and hands
/// back an independent copy on every read, so callers see exactly the
/// load-mutate-store behaviour of a file without any input/output.
pub struct MemoryDatabase {
    content: Option<DBState>,
}

impl MemoryDatabase {
    #[verifier::type_invariant]
    spec fn inv(&self) -> bool {
        self.content matches Some(db) ==> db.wf()
    }

    /// An unreadable medium, like a path with no file behind it.
    pub fn new() -> (r: Self)
        ensures
            r.persisted() == None::<StateView>,
    {
        MemoryDatabase { content: None }
    }

    /// A medium already holding `state`.
    pub fn with_state(state: DBState) -> (r: Self)
        requires
            state.wf(),
        ensures
            r.persisted() == Some(state@),
    {
        MemoryDatabase { content: Some(state) }
    }
}

impl Database for MemoryDatabase {
    closed spec fn persisted(&self) -> Option<StateView> {
        match self.content {
            Some(db) => Some(db@),
            None => None,
        }
    }

    fn read_db(&self) -> (r: Result<DBState, DbError>)
        ensures
            self.persisted() is Some ==> r is Ok,
            self.persisted() is None ==> r == Err::<DBState, DbError>(DbError::StorageRead),
    {
        proof {
            use_type_invariant(self);
        }
        match &self.content {
            Some(db) => Ok(db.deep_copy()),
            None => Err(DbError::StorageRead),
        }
    }

    fn write_db(&mut self, state: &DBState) -> (r: Result<(), DbError>)
        ensures
            r is Ok,
    {
        self.content = Some(state.deep_copy());
        Ok(())
    }
}

/// The database facade: create, read, update and delete operations with
/// cross-entity integrity checks, over any [`Database`] medium.
pub struct JiraDatabase<D: Database> {
    database: D,
}

impl<D: Database> JiraDatabase<D> {
    /// The state the underlying medium currently holds, if any.
    pub closed spec fn persisted(&self) -> Option<StateView> {
        self.database.persisted()
    }

    /// The persisted id counter is not exhausted, so a fresh id can be
    /// issued. `create_epic` requires it; on a store whose counter has
    /// reached the maximum no further id could be issued without reuse.
    pub open spec fn counter_ok(&self) -> bool {
        self.persisted() matches Some(s) ==> s.last_item_id < u32::MAX
    }

    /// The persisted id counter is not exhausted wherever `create_story`
    /// would actually issue an id: when the state holds epic `epic_id`. A
    /// missing epic is reported whatever the counter holds.
    pub open spec fn story_counter_ok(&self, epic_id: u32) -> bool {
        self.persisted() matches Some(s) ==> (s.epics.dom().contains(epic_id)
            ==> s.last_item_id < u32::MAX)
    }

    /// Wrap a storage medium.
    pub fn new(database: D) -> (r: Self)
        ensures
            r.persisted() == database.persisted(),
    {
        JiraDatabase { database }
    }

    /// Load the full persisted state for inspection.
    pub fn read_db(&self) -> (r: Result<DBState, DbError>)
        ensures
            r matches Ok(db) ==> db.wf() && self.persisted() == Some(db@),
            r matches Err(e) ==> (e == DbError::StorageRead || e == DbError::StorageParse),
    {
        self.database.read_db()
    }

    /// Insert `epic` under a fresh id and return that id. Fails only when
    /// the underlying read or write fails.
    pub fn create_epic(&mut self, epic: Epic) -> (r: Result<u32, DbError>)
        requires
            old(self).counter_ok(),
        ensures
            r matches Ok(id) ==> (old(self).persisted() matches Some(s) && id == s.last_item_id
                + 1 && final(self).persisted() == Some(spec_add_epic(s, epic@))),
            r matches Err(e) ==> e.is_storage(),
            r matches Err(e) && e != DbError::StorageWrite ==> final(self).persisted() == old(
                self,
            ).persisted(),
    {
        match self.database.read_db() {
            Err(e) => Err(e),
            Ok(mut db) => {
                let id = db.add_epic(epic);
                match self.database.write_db(&db) {
                    Ok(()) => Ok(id),
                    Err(e) => Err(e),
                }
            },
        }
    }

    /// Insert `story` under a fresh id, linked under epic `epic_id`, and
    /// return that id. Fails with `EpicNotFound` when the state holds no
    /// such epic; in that case nothing is written.
    pub fn create_story(&mut self, story: Story, epic_id: u32) -> (r: Result<u32, DbError>)
        requires
            old(self).story_counter_ok(epic_id),
        ensures
            r matches Ok(id) ==> (old(self).persisted() matches Some(s) && s.epics.dom().contains(
                epic_id,
            ) && id == s.last_item_id + 1 && final(self).persisted() == Some(
                spec_add_story(s, story@, epic_id),
            )),
            r matches Err(e) ==> e.is_storage() || e == DbError::EpicNotFound(epic_id),
            r == Err::<u32, DbError>(DbError::EpicNotFound(epic_id)) ==> (old(self).persisted()
                matches Some(s) && !s.epics.dom().contains(epic_id)),
            r matches Err(e) && e != DbError::StorageWrite ==> final(self).persisted() == old(
                self,
            ).persisted(),
    {
        match self.database.read_db() {
            Err(e) => Err(e),
            Ok(mut db) => {
                match db.add_story(story, epic_id) {
                    None => Err(DbError::EpicNotFound(epic_id)),
                    Some(id) => {
                        match self.database.write_db(&db) {
                            Ok(()) => Ok(id),
                            Err(e) => Err(e),
                        }
                    },
                }
            },
        }
    }

    /// Delete epic `epic_id` and every story it references, then persist.
    /// Fails with `EpicNotFound` when the state holds no such epic; in that
    /// case nothing is written.
    pub fn delete_epic(&mut self, epic_id: u32) -> (r: Result<(), DbError>)
        ensures
            r matches Ok(()) ==> (old(self).persisted() matches Some(s) && s.epics.dom().contains(
                epic_id,
            ) && final(self).persisted() == Some(spec_delete_epic(s, epic_id))),
            r matches Err(e) ==> e.is_storage() || e == DbError::EpicNotFound(epic_id),
            r == Err::<(), DbError>(DbError::EpicNotFound(epic_id)) ==> (old(self).persisted()
                matches Some(s) && !s.epics.dom().contains(epic_id)),
            r matches Err(e) && e != DbError::StorageWrite ==> final(self).persisted() == old(
                self,
            ).persisted(),
    {
        match self.database.read_db() {
            Err(e) => Err(e),
            Ok(mut db) => {
                if db.remove_epic(epic_id) {
                    match self.database.write_db(&db) {
                        Ok(()) => Ok(()),
                        Err(e) => Err(e),
                    }
                } else {
                    Err(DbError::EpicNotFound(epic_id))
                }
            },
        }
    }

    /// Unlink story `story_id` from epic `epic_id`, delete the story, and
    /// persist. Fails with `EpicNotFound` when the epic is absent, and with
    /// `StoryNotInEpic` when the epic exists but does not reference the
    /// story; in both cases nothing is written.
    pub fn delete_story(&mut self, epic_id: u32, story_id: u32) -> (r: Result<(), DbError>)
        ensures
            r matches Ok(()) ==> (old(self).persisted() matches Some(s) && s.epics.dom().contains(
                epic_id,
            ) && s.epics[epic_id].stories.contains(story_id) && final(self).persisted() == Some(
                spec_delete_story(s, epic_id, story_id),
            )),
            r matches Err(e) ==> e.is_storage() || e == DbError::EpicNotFound(epic_id) || e
                == DbError::StoryNotInEpic(epic_id, story_id),
            r == Err::<(), DbError>(DbError::EpicNotFound(epic_id)) ==> (old(self).persisted()
                matches Some(s) && !s.epics.dom().contains(epic_id)),
            r == Err::<(), DbError>(DbError::StoryNotInEpic(epic_id, story_id)) ==> (old(
                self,
            ).persisted() matches Some(s) && s.epics.dom().contains(epic_id)
                && !s.epics[epic_id].stories.contains(story_id)),
            r matches Err(e) && e != DbError::StorageWrite ==> final(self).persisted() == old(
                self,
            ).persisted(),
    {
        match self.database.read_db() {
            Err(e) => Err(e),
            Ok(mut db) => {
                match db.remove_story(epic_id, story_id) {
                    Err(e) => Err(e),
                    Ok(()) => {
                        match self.database.write_db(&db) {
                            Ok(()) => Ok(()),
                            Err(e) => Err(e),
                        }
                    },
                }
            },
        }
    }

    /// Overwrite epic `epic_id`'s status and persist; nothing else in the
    /// state changes. Fails with `EpicNotFound` when the epic is absent; in
    /// that case nothing is written.
    pub fn update_epic_status(&mut self, epic_id: u32, status: Status) -> (r: Result<(), DbError>)
        ensures
            r matches Ok(()) ==> (old(self).persisted() matches Some(s) && s.epics.dom().contains(
                epic_id,
            ) && final(self).persisted() == Some(spec_set_epic_status(s, epic_id, status))),
            r matches Err(e) ==> e.is_storage() || e == DbError::EpicNotFound(epic_id),
            r == Err::<(), DbError>(DbError::EpicNotFound(epic_id)) ==> (old(self).persisted()
                matches Some(s) && !s.epics.dom().contains(epic_id)),
            r matches Err(e) && e != DbError::StorageWrite ==> final(self).persisted() == old(
                self,
            ).persisted(),
    {
        match self.database.read_db() {
            Err(e) => Err(e),
            Ok(mut db) => {
                if db.set_epic_status(epic_id, status) {
                    match self.database.write_db(&db) {
                        Ok(()) => Ok(()),
                        Err(e) => Err(e),
                    }
                } else {
                    Err(DbError::EpicNotFound(epic_id))
                }
            },
        }
    }

    /// Overwrite story `story_id`'s status and persist; nothing else in the
    /// state changes. Fails with `StoryNotFound` when the story is absent;
    /// in that case nothing is written.
    pub fn update_story_status(&mut self, story_id: u32, status: Status) -> (r: Result<
        (),
        DbError,
    >)
        ensures
            r matches Ok(()) ==> (old(self).persisted() matches Some(s) && s.stories.dom().contains(
                story_id,
            ) && final(self).persisted() == Some(spec_set_story_status(s, story_id, status))),
            r matches Err(e) ==> e.is_storage() || e == DbError::StoryNotFound(story_id),
            r == Err::<(), DbError>(DbError::StoryNotFound(story_id)) ==> (old(self).persisted()
                matches Some(s) && !s.stories.dom().contains(story_id)),
            r matches Err(e) && e != DbError::StorageWrite ==> final(self).persisted() == old(
                self,
            ).persisted(),
    {
        match self.database.read_db() {
            Err(e) => Err(e),
            Ok(mut db) => {
                if db.set_story_status(story_id, status) {
                    match self.database.write_db(&db) {
                        Ok(()) => Ok(()),
                        Err(e) => Err(e),
                    }
                } else {
                    Err(DbError::StoryNotFound(story_id))
                }
            },
        }
    }
}

} // verus!
