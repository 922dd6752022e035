//! Laws of the store, stated and proved over the state transitions.

use crate::models::{
    spec_add_epic, spec_add_story, spec_delete_epic, spec_remove_ids, spec_set_story_status,
    EpicView, StateView, Status, StoryView,
};
use vstd::prelude::*;

verus! {

/// One create call against the store: a new epic, or a new story to be
/// linked under an existing epic.
pub ghost enum CreateOp {
    NewEpic(EpicView),
    NewStory(StoryView, u32),
}

/// Whether the create succeeds on state `s` and so issues an id.
pub open spec fn op_succeeds(s: StateView, op: CreateOp) -> bool {
    match op {
        CreateOp::NewEpic(_) => true,
        CreateOp::NewStory(_, epic_id) => s.epics.dom().contains(epic_id),
    }
}

/// The state after one create call; a failing call leaves the state as it was.
pub open spec fn apply_create(s: StateView, op: CreateOp) -> StateView {
    match op {
        CreateOp::NewEpic(epic) => spec_add_epic(s, epic),
        CreateOp::NewStory(story, epic_id) => if s.epics.dom().contains(epic_id) {
            spec_add_story(s, story, epic_id)
        } else {
            s
        },
    }
}

/// The state after a sequence of create calls.
pub open spec fn apply_creates(s: StateView, ops: Seq<CreateOp>) -> StateView
    decreases ops.len(),
{
    if ops.len() == 0 {
        s
    } else {
        apply_creates(apply_create(s, ops[0]), ops.drop_first())
    }
}

/// The ids the calls issue, in call order; failing calls issue none.
pub open spec fn issued_ids(s: StateView, ops: Seq<CreateOp>) -> Seq<u32>
    decreases ops.len(),
{
    if ops.len() == 0 {
        Seq::empty()
    } else {
        let head: Seq<u32> = if op_succeeds(s, ops[0]) {
            seq![(s.last_item_id + 1) as u32]
        } else {
            Seq::empty()
        };
        head + issued_ids(apply_create(s, ops[0]), ops.drop_first())
    }
}

/// Id uniqueness: over any sequence of create calls whose ids stay within
/// the counter's range, the issued ids are consecutive — one more than the
/// prior counter, then each successor in call order — and therefore pairwise
/// distinct. The counter never decreases along the way.
pub proof fn lemma_issued_ids(s: StateView, ops: Seq<CreateOp>)
    requires
        s.last_item_id + ops.len() <= u32::MAX,
    ensures
        issued_ids(s, ops).len() <= ops.len(),
        apply_creates(s, ops).last_item_id == s.last_item_id + issued_ids(s, ops).len(),
        forall|i: int|
            0 <= i < issued_ids(s, ops).len() ==> issued_ids(s, ops)[i] == s.last_item_id + 1 + i,
        forall|i: int, j: int|
            0 <= i < j < issued_ids(s, ops).len() ==> issued_ids(s, ops)[i] != issued_ids(
                s,
                ops,
            )[j],
    decreases ops.len(),
{
    if ops.len() > 0 {
        let s2 = apply_create(s, ops[0]);
        lemma_issued_ids(s2, ops.drop_first());
    }
}

/// What stays of a story map is what it already held.
pub proof fn lemma_remove_ids_subset(m: Map<u32, StoryView>, ids: Seq<u32>, x: u32)
    requires
        spec_remove_ids(m, ids).dom().contains(x),
    ensures
        m.dom().contains(x),
    decreases ids.len(),
{
    if ids.len() > 0 {
        lemma_remove_ids_subset(m.remove(ids[0]), ids.drop_first(), x);
    }
}

/// Removing a list of ids removes every one of them.
pub proof fn lemma_remove_ids_removes(m: Map<u32, StoryView>, ids: Seq<u32>, x: u32)
    requires
        ids.contains(x),
    ensures
        !spec_remove_ids(m, ids).dom().contains(x),
    decreases ids.len(),
{
    if ids[0] == x {
        if spec_remove_ids(m.remove(x), ids.drop_first()).dom().contains(x) {
            lemma_remove_ids_subset(m.remove(x), ids.drop_first(), x);
        }
    } else {
        let i = choose|i: int| 0 <= i < ids.len() && ids[i] == x;
        assert(ids.drop_first()[i - 1] == x);
        lemma_remove_ids_removes(m.remove(ids[0]), ids.drop_first(), x);
    }
}

/// Referential cascade: create an epic, create a story under it, then delete
/// the epic — the resulting state holds neither the epic's id nor the
/// story's.
pub proof fn lemma_referential_cascade(s: StateView, epic: EpicView, story: StoryView)
    requires
        s.last_item_id + 2 <= u32::MAX,
    ensures
        ({
            let epic_id = (s.last_item_id + 1) as u32;
            let story_id = (s.last_item_id + 2) as u32;
            let after = spec_delete_epic(
                spec_add_story(spec_add_epic(s, epic), story, epic_id),
                epic_id,
            );
            !after.epics.dom().contains(epic_id) && !after.stories.dom().contains(story_id)
        }),
{
    let epic_id = (s.last_item_id + 1) as u32;
    let story_id = (s.last_item_id + 2) as u32;
    let s2 = spec_add_story(spec_add_epic(s, epic), story, epic_id);
    assert(s2.epics[epic_id].stories.contains(story_id)) by {
        assert(s2.epics[epic_id].stories.last() == story_id);
    }
    lemma_remove_ids_removes(s2.stories, s2.epics[epic_id].stories, story_id);
}

/// Status update isolation: overwriting one story's status changes that
/// status and nothing else — not the counter, not the epics (so not the
/// owning epic's status or story list), not any other story, and not the
/// story's own name or description.
pub proof fn lemma_status_update_isolated(s: StateView, story_id: u32, status: Status)
    requires
        s.stories.dom().contains(story_id),
    ensures
        ({
            let after = spec_set_story_status(s, story_id, status);
            &&& after.last_item_id == s.last_item_id
            &&& after.epics == s.epics
            &&& after.stories.dom() == s.stories.dom()
            &&& after.stories[story_id].status == status
            &&& after.stories[story_id].name == s.stories[story_id].name
            &&& after.stories[story_id].description == s.stories[story_id].description
            &&& forall|k: u32|
                s.stories.dom().contains(k) && k != story_id ==> after.stories[k] == s.stories[k]
        }),
{
    let after = spec_set_story_status(s, story_id, status);
    assert(after.stories.dom() =~= s.stories.dom());
}

} // verus!
