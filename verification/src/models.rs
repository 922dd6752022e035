//! The entity model: `Status`, `Story`, `Epic`, `DBState` and their
//! mathematical views, plus the in-memory transitions of the state.
//!
//! The model is pure data plus constructors and in-memory mutations;
//! cross-reference validation on construction is the database facade's
//! responsibility, not the model's.

use crate::errors::DbError;
use crate::id_table::DeepCopy;
use crate::id_table::IdTable;
use vstd::prelude::*;

verus! {

/// Workflow state of an epic or story. Any status may be set to any status;
/// no transition rules are enforced.
#[derive(Clone, Copy, PartialEq, Eq, Structural, Debug)]
pub enum Status {
    Open,
    InProgress,
    Resolved,
    Closed,
}

/// A unit of work belonging to an epic. Its identity is the key under which
/// the containing [`crate::models::DBState`] stores it, not a field of its own.
#[derive(Debug)]
pub struct Story {
    pub name: String,
    pub description: String,
    pub status: Status,
}

/// Mathematical value of a [`Story`].
pub ghost struct StoryView {
    pub name: Seq<char>,
    pub description: Seq<char>,
    pub status: Status,
}

impl View for Story {
    type V = StoryView;

    open spec fn view(&self) -> StoryView {
        StoryView { name: self.name@, description: self.description@, status: self.status }
    }
}

impl Story {
    /// A fresh story starts out `Open`.
    pub fn new(name: String, description: String) -> (r: Self)
        ensures
            r@ == (StoryView { name: name@, description: description@, status: Status::Open }),
    {
        Story { name, description, status: Status::Open }
    }
}

/// A top-level unit of work: its own fields plus the ids of the stories it
/// contains, in insertion order.
#[derive(Debug)]
pub struct Epic {
    pub name: String,
    pub description: String,
    pub status: Status,
    pub stories: Vec<u32>,
}

/// Mathematical value of an [`Epic`].
pub ghost struct EpicView {
    pub name: Seq<char>,
    pub description: Seq<char>,
    pub status: Status,
    pub stories: Seq<u32>,
}

impl View for Epic {
    type V = EpicView;

    open spec fn view(&self) -> EpicView {
        EpicView {
            name: self.name@,
            description: self.description@,
            status: self.status,
            stories: self.stories@,
        }
    }
}

impl Epic {
    /// A fresh epic starts out `Open` with no stories.
    pub fn new(name: String, description: String) -> (r: Self)
        ensures
            r@ == (EpicView {
                name: name@,
                description: description@,
                status: Status::Open,
                stories: Seq::<u32>::empty(),
            }),
    {
        Epic { name, description, status: Status::Open, stories: Vec::new() }
    }
}

impl DeepCopy for Story {
    fn deep_copy(&self) -> (r: Self)
        ensures
            r@ == self@,
    {
        Story {
            name: self.name.clone(),
            description: self.description.clone(),
            status: self.status,
        }
    }
}

/// An element-for-element copy of an id list.
fn copy_ids(v: &Vec<u32>) -> (r: Vec<u32>)
    ensures
        r@ == v@,
{
    let mut r: Vec<u32> = Vec::new();
    let n = v.len();
    let mut i: usize = 0;
    while i < n
        invariant
            n == v.len(),
            0 <= i <= n,
            r@ == v@.take(i as int),
        decreases n - i,
    {
        r.push(v[i]);
        proof {
            assert(r@ =~= v@.take(i + 1));
        }
        i += 1;
    }
    proof {
        assert(r@ =~= v@);
    }
    r
}

impl DeepCopy for Epic {
    fn deep_copy(&self) -> (r: Self)
        ensures
            r@ == self@,
    {
        Epic {
            name: self.name.clone(),
            description: self.description.clone(),
            status: self.status,
            stories: copy_ids(&self.stories),
        }
    }
}

/// The complete persisted snapshot: the id counter and the two entity tables.
///
/// `last_item_id` never decreases over the lifetime of a state; every id ever
/// issued is at most `last_item_id`, and ids come from this single counter
/// shared between epics and stories.
#[derive(Debug)]
pub struct DBState {
    pub last_item_id: u32,
    pub epics: IdTable<Epic>,
    pub stories: IdTable<Story>,
}

/// Mathematical value of a [`DBState`].
pub ghost struct StateView {
    pub last_item_id: u32,
    pub epics: Map<u32, EpicView>,
    pub stories: Map<u32, StoryView>,
}

impl View for DBState {
    type V = StateView;

    open spec fn view(&self) -> StateView {
        StateView { last_item_id: self.last_item_id, epics: self.epics@, stories: self.stories@ }
    }
}

/// The state reached by inserting `epic` under the next fresh id.
pub open spec fn spec_add_epic(s: StateView, epic: EpicView) -> StateView
    recommends
        s.last_item_id < u32::MAX,
{
    let id = (s.last_item_id + 1) as u32;
    StateView { last_item_id: id, epics: s.epics.insert(id, epic), stories: s.stories }
}

/// The state reached by inserting `story` under the next fresh id and
/// appending that id to epic `epic_id`'s story list.
pub open spec fn spec_add_story(s: StateView, story: StoryView, epic_id: u32) -> StateView
    recommends
        s.last_item_id < u32::MAX,
        s.epics.dom().contains(epic_id),
{
    let id = (s.last_item_id + 1) as u32;
    let epic = s.epics[epic_id];
    StateView {
        last_item_id: id,
        epics: s.epics.insert(epic_id, EpicView { stories: epic.stories.push(id), ..epic }),
        stories: s.stories.insert(id, story),
    }
}

/// The story map after removing each id of `ids` in turn.
pub open spec fn spec_remove_ids(m: Map<u32, StoryView>, ids: Seq<u32>) -> Map<u32, StoryView>
    decreases ids.len(),
{
    if ids.len() == 0 {
        m
    } else {
        spec_remove_ids(m.remove(ids[0]), ids.drop_first())
    }
}

/// The state reached by deleting epic `epic_id` together with every story it
/// references (a cascading delete, not a detach).
pub open spec fn spec_delete_epic(s: StateView, epic_id: u32) -> StateView
    recommends
        s.epics.dom().contains(epic_id),
{
    StateView {
        last_item_id: s.last_item_id,
        epics: s.epics.remove(epic_id),
        stories: spec_remove_ids(s.stories, s.epics[epic_id].stories),
    }
}

/// Position of the first occurrence of `x` in `s`.
pub open spec fn spec_first_index(s: Seq<u32>, x: u32) -> int
    recommends
        s.contains(x),
    decreases s.len(),
{
    if s.len() == 0 {
        0
    } else if s[0] == x {
        0
    } else {
        1 + spec_first_index(s.drop_first(), x)
    }
}

/// The state reached by unlinking story `story_id` from epic `epic_id` and
/// removing the story itself.
pub open spec fn spec_delete_story(s: StateView, epic_id: u32, story_id: u32) -> StateView
    recommends
        s.epics.dom().contains(epic_id),
        s.epics[epic_id].stories.contains(story_id),
{
    let epic = s.epics[epic_id];
    let i = spec_first_index(epic.stories, story_id);
    StateView {
        last_item_id: s.last_item_id,
        epics: s.epics.insert(epic_id, EpicView { stories: epic.stories.remove(i), ..epic }),
        stories: s.stories.remove(story_id),
    }
}

/// The state reached by overwriting epic `epic_id`'s status.
pub open spec fn spec_set_epic_status(s: StateView, epic_id: u32, status: Status) -> StateView
    recommends
        s.epics.dom().contains(epic_id),
{
    let epic = s.epics[epic_id];
    StateView {
        last_item_id: s.last_item_id,
        epics: s.epics.insert(epic_id, EpicView { status: status, ..epic }),
        stories: s.stories,
    }
}

/// The state reached by overwriting story `story_id`'s status.
pub open spec fn spec_set_story_status(s: StateView, story_id: u32, status: Status) -> StateView
    recommends
        s.stories.dom().contains(story_id),
{
    let story = s.stories[story_id];
    StateView {
        last_item_id: s.last_item_id,
        epics: s.epics,
        stories: s.stories.insert(story_id, StoryView { status: status, ..story }),
    }
}

impl DBState {
    /// Both entity tables are well formed.
    pub open spec fn wf(&self) -> bool {
        self.epics.wf() && self.stories.wf()
    }

    /// The empty state: zero counter, no epics, no stories.
    pub fn new() -> (r: Self)
        ensures
            r.wf(),
            r@ == (StateView {
                last_item_id: 0u32,
                epics: Map::<u32, EpicView>::empty(),
                stories: Map::<u32, StoryView>::empty(),
            }),
    {
        DBState { last_item_id: 0, epics: IdTable::new(), stories: IdTable::new() }
    }

    /// Insert a fresh epic built from `name` and `description` under the next
    /// fresh id.
    pub fn create_epic(&mut self, name: String, description: String)
        requires
            old(self).wf(),
            old(self).last_item_id < u32::MAX,
        ensures
            final(self).wf(),
            final(self)@ == spec_add_epic(
                old(self)@,
                EpicView {
                    name: name@,
                    description: description@,
                    status: Status::Open,
                    stories: Seq::<u32>::empty(),
                },
            ),
    {
        self.last_item_id = self.last_item_id + 1;
        let epic = Epic::new(name, description);
        self.epics.insert(self.last_item_id, epic);
    }

    /// Insert a fresh story built from `name` and `description` under the
    /// next fresh id, without linking it to any epic.
    pub fn create_story(&mut self, name: String, description: String)
        requires
            old(self).wf(),
            old(self).last_item_id < u32::MAX,
        ensures
            final(self).wf(),
            final(self)@ == (StateView {
                last_item_id: (old(self)@.last_item_id + 1) as u32,
                epics: old(self)@.epics,
                stories: old(self)@.stories.insert(
                    (old(self)@.last_item_id + 1) as u32,
                    StoryView { name: name@, description: description@, status: Status::Open },
                ),
            }),
    {
        self.last_item_id = self.last_item_id + 1;
        let story = Story::new(name, description);
        self.stories.insert(self.last_item_id, story);
    }

    /// Insert the given epic under the next fresh id and return that id.
    /// Always succeeds.
    pub fn add_epic(&mut self, epic: Epic) -> (id: u32)
        requires
            old(self).wf(),
            old(self).last_item_id < u32::MAX,
        ensures
            final(self).wf(),
            id == old(self).last_item_id + 1,
            final(self)@ == spec_add_epic(old(self)@, epic@),
    {
        self.last_item_id = self.last_item_id + 1;
        self.epics.insert(self.last_item_id, epic);
        self.last_item_id
    }

    /// Insert the given story under the next fresh id, linked under epic
    /// `epic_id`, and return that id. Succeeds exactly when the epic exists;
    /// no id is issued, and so no counter headroom is needed, when it does
    /// not.
    pub fn add_story(&mut self, story: Story, epic_id: u32) -> (r: Option<u32>)
        requires
            old(self).wf(),
            old(self)@.epics.dom().contains(epic_id) ==> old(self).last_item_id < u32::MAX,
        ensures
            final(self).wf(),
            old(self)@.epics.dom().contains(epic_id) <==> r is Some,
            match r {
                Some(id) => id == old(self).last_item_id + 1 && final(self)@ == spec_add_story(
                    old(self)@,
                    story@,
                    epic_id,
                ),
                None => *final(self) == *old(self),
            },
    {
        match self.epics.remove(epic_id) {
            Some(mut epic) => {
                self.last_item_id = self.last_item_id + 1;
                epic.stories.push(self.last_item_id);
                self.epics.insert(epic_id, epic);
                self.stories.insert(self.last_item_id, story);
                proof {
                    assert(self@.epics =~= spec_add_story(old(self)@, story@, epic_id).epics);
                }
                Some(self.last_item_id)
            },
            None => None,
        }
    }
}


/// The first position holding `x` is the one `spec_first_index` names.
pub proof fn lemma_first_index(s: Seq<u32>, x: u32, i: int)
    requires
        0 <= i < s.len(),
        s[i] == x,
        forall|j: int| 0 <= j < i ==> s[j] != x,
    ensures
        s.contains(x),
        spec_first_index(s, x) == i,
    decreases s.len(),
{
    assert(s.contains(x));
    if s[0] != x {
        lemma_first_index(s.drop_first(), x, i - 1);
    }
}

/// Position of the first occurrence of `x` in `v`, if any.
#[verifier::loop_isolation(false)]
fn find_first(v: &Vec<u32>, x: u32) -> (r: Option<usize>)
    ensures
        match r {
            Some(i) => i < v@.len() && v@.contains(x) && i == spec_first_index(v@, x),
            None => !v@.contains(x),
        },
{
    let n = v.len();
    let mut i: usize = 0;
    while i < n
        invariant
            0 <= i <= n,
            n == v.len(),
            forall|j: int| 0 <= j < i ==> v@[j] != x,
        decreases n - i,
    {
        if v[i] == x {
            proof {
                lemma_first_index(v@, x, i as int);
            }
            return Some(i);
        }
        i += 1;
    }
    None
}

impl DBState {
    /// Delete epic `epic_id` together with every story it references.
    /// Succeeds exactly when the epic exists.
    #[verifier::loop_isolation(false)]
    pub fn remove_epic(&mut self, epic_id: u32) -> (r: bool)
        requires
            old(self).wf(),
        ensures
            final(self).wf(),
            r == old(self)@.epics.dom().contains(epic_id),
            r ==> final(self)@ == spec_delete_epic(old(self)@, epic_id),
            !r ==> *final(self) == *old(self),
    {
        match self.epics.remove(epic_id) {
            Some(epic) => {
                let ghost ids = epic.stories@;
                let ghost stories0 = self.stories@;
                let ghost epics1 = self.epics;
                let ghost counter1 = self.last_item_id;
                proof {
                    assert(ids.skip(0) =~= ids);
                }
                let n = epic.stories.len();
                let mut i: usize = 0;
                while i < n
                    invariant
                        0 <= i <= n,
                        n == epic.stories.len(),
                        self.stories.wf(),
                        self.epics == epics1,
                        self.last_item_id == counter1,
                        spec_remove_ids(stories0, ids) == spec_remove_ids(
                            self.stories@,
                            ids.skip(i as int),
                        ),
                    decreases n - i,
                {
                    let ghost before = self.stories@;
                    self.stories.remove(epic.stories[i]);
                    proof {
                        assert(ids.skip(i as int)[0] == ids[i as int]);
                        assert(ids.skip(i as int).drop_first() =~= ids.skip(i + 1));
                    }
                    i += 1;
                }
                proof {
                    assert(ids.skip(n as int) =~= Seq::<u32>::empty());
                }
                true
            },
            None => false,
        }
    }

    /// Unlink story `story_id` from epic `epic_id` and remove the story
    /// itself. Fails with `EpicNotFound` when the epic is absent and with
    /// `StoryNotInEpic` when the epic does not reference the story.
    #[verifier::loop_isolation(false)]
    pub fn remove_story(&mut self, epic_id: u32, story_id: u32) -> (r: Result<(), DbError>)
        requires
            old(self).wf(),
        ensures
            final(self).wf(),
            r matches Ok(()) <==> old(self)@.epics.dom().contains(epic_id) && old(
                self,
            )@.epics[epic_id].stories.contains(story_id),
            r matches Ok(()) ==> final(self)@ == spec_delete_story(old(self)@, epic_id, story_id),
            r == Err::<(), DbError>(DbError::EpicNotFound(epic_id)) <==> !old(
                self,
            )@.epics.dom().contains(epic_id),
            r == Err::<(), DbError>(DbError::StoryNotInEpic(epic_id, story_id)) <==> old(
                self,
            )@.epics.dom().contains(epic_id) && !old(self)@.epics[epic_id].stories.contains(
                story_id,
            ),
            r is Err ==> *final(self) == *old(self),
    {
        let found: Option<usize> = match self.epics.get(epic_id) {
            None => {
                return Err(DbError::EpicNotFound(epic_id));
            },
            Some(epic) => find_first(&epic.stories, story_id),
        };
        match found {
            None => Err(DbError::StoryNotInEpic(epic_id, story_id)),
            Some(i) => {
                match self.epics.remove(epic_id) {
                    Some(mut epic) => {
                        epic.stories.remove(i);
                        self.epics.insert(epic_id, epic);
                        self.stories.remove(story_id);
                        proof {
                            assert(self@.epics =~= spec_delete_story(
                                old(self)@,
                                epic_id,
                                story_id,
                            ).epics);
                        }
                        Ok(())
                    },
                    None => Err(DbError::EpicNotFound(epic_id)),
                }
            },
        }
    }

    /// Overwrite epic `epic_id`'s status. Succeeds exactly when the epic
    /// exists; nothing else in the state changes.
    pub fn set_epic_status(&mut self, epic_id: u32, status: Status) -> (r: bool)
        requires
            old(self).wf(),
        ensures
            final(self).wf(),
            r == old(self)@.epics.dom().contains(epic_id),
            r ==> final(self)@ == spec_set_epic_status(old(self)@, epic_id, status),
            !r ==> *final(self) == *old(self),
    {
        match self.epics.remove(epic_id) {
            Some(mut epic) => {
                epic.status = status;
                self.epics.insert(epic_id, epic);
                proof {
                    assert(self@.epics =~= spec_set_epic_status(old(self)@, epic_id, status).epics);
                }
                true
            },
            None => false,
        }
    }

    /// Overwrite story `story_id`'s status. Succeeds exactly when the story
    /// exists; nothing else in the state changes.
    pub fn set_story_status(&mut self, story_id: u32, status: Status) -> (r: bool)
        requires
            old(self).wf(),
        ensures
            final(self).wf(),
            r == old(self)@.stories.dom().contains(story_id),
            r ==> final(self)@ == spec_set_story_status(old(self)@, story_id, status),
            !r ==> *final(self) == *old(self),
    {
        match self.stories.remove(story_id) {
            Some(mut story) => {
                story.status = status;
                self.stories.insert(story_id, story);
                proof {
                    assert(self@.stories =~= spec_set_story_status(
                        old(self)@,
                        story_id,
                        status,
                    ).stories);
                }
                true
            },
            None => false,
        }
    }
}

impl DeepCopy for DBState {
    fn deep_copy(&self) -> (r: Self)
        ensures
            r@ == self@,
            self.wf() ==> r.wf(),
    {
        DBState {
            last_item_id: self.last_item_id,
            epics: self.epics.deep_copy(),
            stories: self.stories.deep_copy(),
        }
    }
}


/// Story equality: field for field.
pub open spec fn story_eq_spec(a: &Story, b: &Story) -> bool {
    a.name@ == b.name@ && a.description@ == b.description@ && a.status == b.status
}

/// Epic equality: field for field, story ids in the same order.
pub open spec fn epic_eq_spec(a: &Epic, b: &Epic) -> bool {
    a.name@ == b.name@ && a.description@ == b.description@ && a.status == b.status && a.stories@
        == b.stories@
}

/// Whether two id lists hold the same ids in the same order.
#[verifier::loop_isolation(false)]
fn ids_eq(a: &Vec<u32>, b: &Vec<u32>) -> (r: bool)
    ensures
        r == (a@ == b@),
{
    if a.len() != b.len() {
        proof {
            assert(a@.len() != b@.len());
        }
        return false;
    }
    let n = a.len();
    let mut i: usize = 0;
    while i < n
        invariant
            0 <= i <= n,
            n == a@.len() == b@.len(),
            forall|j: int| 0 <= j < i ==> a@[j] == b@[j],
        decreases n - i,
    {
        if a[i] != b[i] {
            return false;
        }
        i += 1;
    }
    proof {
        assert(a@ =~= b@);
    }
    true
}

impl PartialEq for Story {
    fn eq(&self, other: &Story) -> (r: bool) {
        self.name == other.name && self.description == other.description && self.status
            == other.status
    }
}

impl vstd::std_specs::cmp::PartialEqSpecImpl for Story {
    open spec fn obeys_eq_spec() -> bool {
        true
    }

    open spec fn eq_spec(&self, other: &Story) -> bool {
        story_eq_spec(self, other)
    }
}

impl PartialEq for Epic {
    fn eq(&self, other: &Epic) -> (r: bool) {
        self.name == other.name && self.description == other.description && self.status
            == other.status && ids_eq(&self.stories, &other.stories)
    }
}

impl vstd::std_specs::cmp::PartialEqSpecImpl for Epic {
    open spec fn obeys_eq_spec() -> bool {
        true
    }

    open spec fn eq_spec(&self, other: &Epic) -> bool {
        epic_eq_spec(self, other)
    }
}

/// Table equality: the same entries in the same order. This is equality of
/// the representation, as the original's derived equality was: two tables
/// that hold one map in different entry orders compare unequal here, while
/// their views are the same `Map` (see `IdTable::lemma_view`). Entry order
/// is insertion order, and everything the library itself writes and reads
/// back keeps it, so the round trip compares equal by this test too.
pub open spec fn epic_table_eq_spec(a: &IdTable<Epic>, b: &IdTable<Epic>) -> bool {
    a.spec_entries().len() == b.spec_entries().len() && forall|i: int|
        0 <= i < a.spec_entries().len() ==> (#[trigger] a.spec_entries()[i]).0 == (
        #[trigger] b.spec_entries()[i]).0 && epic_eq_spec(&a.spec_entries()[i].1, &b.spec_entries()[i].1)
}

/// Table equality: the same entries in the same order, as for the epics.
pub open spec fn story_table_eq_spec(a: &IdTable<Story>, b: &IdTable<Story>) -> bool {
    a.spec_entries().len() == b.spec_entries().len() && forall|i: int|
        0 <= i < a.spec_entries().len() ==> (#[trigger] a.spec_entries()[i]).0 == (
        #[trigger] b.spec_entries()[i]).0 && story_eq_spec(&a.spec_entries()[i].1, &b.spec_entries()[i].1)
}

impl PartialEq for IdTable<Epic> {
    #[verifier::loop_isolation(false)]
    fn eq(&self, other: &IdTable<Epic>) -> (r: bool) {
        let a = self.raw_entries();
        let b = other.raw_entries();
        if a.len() != b.len() {
            proof {
                assert(a@.len() != b@.len());
            }
            return false;
        }
        let n = a.len();
        let mut i: usize = 0;
        while i < n
            invariant
                0 <= i <= n,
                n == a@.len() == b@.len(),
                a@ == self.spec_entries(),
                b@ == other.spec_entries(),
                forall|j: int|
                    0 <= j < i ==> (#[trigger] a@[j]).0 == (#[trigger] b@[j]).0 && epic_eq_spec(
                        &a@[j].1,
                        &b@[j].1,
                    ),
            decreases n - i,
        {
            if a[i].0 != b[i].0 {
                return false;
            }
            if !(a[i].1 == b[i].1) {
                return false;
            }
            i += 1;
        }
        true
    }
}

impl vstd::std_specs::cmp::PartialEqSpecImpl for IdTable<Epic> {
    open spec fn obeys_eq_spec() -> bool {
        true
    }

    open spec fn eq_spec(&self, other: &IdTable<Epic>) -> bool {
        epic_table_eq_spec(self, other)
    }
}

impl PartialEq for IdTable<Story> {
    #[verifier::loop_isolation(false)]
    fn eq(&self, other: &IdTable<Story>) -> (r: bool) {
        let a = self.raw_entries();
        let b = other.raw_entries();
        if a.len() != b.len() {
            proof {
                assert(a@.len() != b@.len());
            }
            return false;
        }
        let n = a.len();
        let mut i: usize = 0;
        while i < n
            invariant
                0 <= i <= n,
                n == a@.len() == b@.len(),
                a@ == self.spec_entries(),
                b@ == other.spec_entries(),
                forall|j: int|
                    0 <= j < i ==> (#[trigger] a@[j]).0 == (#[trigger] b@[j]).0 && story_eq_spec(
                        &a@[j].1,
                        &b@[j].1,
                    ),
            decreases n - i,
        {
            if a[i].0 != b[i].0 {
                return false;
            }
            if !(a[i].1 == b[i].1) {
                return false;
            }
            i += 1;
        }
        true
    }
}

impl vstd::std_specs::cmp::PartialEqSpecImpl for IdTable<Story> {
    open spec fn obeys_eq_spec() -> bool {
        true
    }

    open spec fn eq_spec(&self, other: &IdTable<Story>) -> bool {
        story_table_eq_spec(self, other)
    }
}

impl PartialEq for DBState {
    fn eq(&self, other: &DBState) -> (r: bool) {
        self.last_item_id == other.last_item_id && self.epics == other.epics && self.stories
            == other.stories
    }
}

impl vstd::std_specs::cmp::PartialEqSpecImpl for DBState {
    open spec fn obeys_eq_spec() -> bool {
        true
    }

    open spec fn eq_spec(&self, other: &DBState) -> bool {
        self.last_item_id == other.last_item_id && epic_table_eq_spec(&self.epics, &other.epics)
            && story_table_eq_spec(&self.stories, &other.stories)
    }
}

} // verus!
