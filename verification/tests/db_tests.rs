use jira_db::{DBState, DbError, Epic, JiraDatabase, MemoryDatabase, Status, Story};

fn fresh_db() -> JiraDatabase<MemoryDatabase> {
    JiraDatabase::new(MemoryDatabase::with_state(DBState::new()))
}

#[test]
fn read_db_should_fail_with_invalid_path() {
    // The in-memory medium starts unreadable, like a path with no file
    // behind it.
    let db = JiraDatabase::new(MemoryDatabase::new());
    assert!(db.read_db().is_err());
}

#[test]
fn create_epic_returns_first_fresh_id() {
    let mut db = fresh_db();
    let id = db.create_epic(Epic::new("E1".to_owned(), "first".to_owned())).unwrap();
    assert_eq!(id, 1);
    let state = db.read_db().unwrap();
    assert_eq!(state.last_item_id, 1);
    let epic = state.epics.get(1).unwrap();
    assert_eq!(epic.name, "E1");
    assert_eq!(epic.status, Status::Open);
    assert_eq!(epic.stories, Vec::<u32>::new());
}

#[test]
fn issued_ids_are_consecutive_and_distinct() {
    let mut db = fresh_db();
    let a = db.create_epic(Epic::new("a".to_owned(), "".to_owned())).unwrap();
    let b = db.create_story(Story::new("b".to_owned(), "".to_owned()), a).unwrap();
    let c = db.create_epic(Epic::new("c".to_owned(), "".to_owned())).unwrap();
    let d = db.create_story(Story::new("d".to_owned(), "".to_owned()), c).unwrap();
    assert_eq!(vec![a, b, c, d], vec![1, 2, 3, 4]);
}

#[test]
fn ids_continue_from_prior_counter() {
    let mut start = DBState::new();
    start.create_epic("seed".to_owned(), "seed".to_owned());
    start.last_item_id = 41;
    let mut db = JiraDatabase::new(MemoryDatabase::with_state(start));
    let id = db.create_epic(Epic::new("late".to_owned(), "".to_owned())).unwrap();
    assert_eq!(id, 42);
}

#[test]
fn create_story_appends_to_epic() {
    let mut db = fresh_db();
    let epic_id = db.create_epic(Epic::new("E".to_owned(), "".to_owned())).unwrap();
    let s1 = db.create_story(Story::new("S1".to_owned(), "".to_owned()), epic_id).unwrap();
    let s2 = db.create_story(Story::new("S2".to_owned(), "".to_owned()), epic_id).unwrap();
    let state = db.read_db().unwrap();
    assert_eq!(state.epics.get(epic_id).unwrap().stories, vec![s1, s2]);
    assert!(state.stories.get(s1).is_some());
    assert!(state.stories.get(s2).is_some());
}

#[test]
fn create_story_fails_on_missing_epic() {
    let mut db = fresh_db();
    let r = db.create_story(Story::new("S".to_owned(), "".to_owned()), 999);
    assert_eq!(r.unwrap_err(), DbError::EpicNotFound(999));
    // Nothing was issued or stored.
    let state = db.read_db().unwrap();
    assert_eq!(state.last_item_id, 0);
}

#[test]
fn update_epic_status_fails_on_missing_epic() {
    let mut db = fresh_db();
    let r = db.update_epic_status(999, Status::Closed);
    assert_eq!(r.unwrap_err(), DbError::EpicNotFound(999));
}

#[test]
fn update_story_status_fails_on_missing_story() {
    let mut db = fresh_db();
    let r = db.update_story_status(7, Status::Resolved);
    assert_eq!(r.unwrap_err(), DbError::StoryNotFound(7));
}

#[test]
fn delete_story_fails_when_epic_does_not_reference_it() {
    let mut db = fresh_db();
    let epic_id = db.create_epic(Epic::new("E".to_owned(), "".to_owned())).unwrap();
    let r = db.delete_story(epic_id, 999);
    assert_eq!(r.unwrap_err(), DbError::StoryNotInEpic(epic_id, 999));
}

#[test]
fn delete_story_removes_link_and_story() {
    let mut db = fresh_db();
    let epic_id = db.create_epic(Epic::new("E".to_owned(), "".to_owned())).unwrap();
    let s1 = db.create_story(Story::new("S1".to_owned(), "".to_owned()), epic_id).unwrap();
    let s2 = db.create_story(Story::new("S2".to_owned(), "".to_owned()), epic_id).unwrap();
    db.delete_story(epic_id, s1).unwrap();
    let state = db.read_db().unwrap();
    assert_eq!(state.epics.get(epic_id).unwrap().stories, vec![s2]);
    assert!(state.stories.get(s1).is_none());
    assert!(state.stories.get(s2).is_some());
}

#[test]
fn delete_epic_fails_on_missing_epic() {
    let mut db = fresh_db();
    let r = db.delete_epic(4);
    assert_eq!(r.unwrap_err(), DbError::EpicNotFound(4));
}

#[test]
fn delete_epic_cascades_to_stories() {
    let mut db = fresh_db();
    let epic_id = db.create_epic(Epic::new("E".to_owned(), "".to_owned())).unwrap();
    let story_id = db.create_story(Story::new("S".to_owned(), "".to_owned()), epic_id).unwrap();
    db.delete_epic(epic_id).unwrap();
    let state = db.read_db().unwrap();
    assert!(state.epics.get(epic_id).is_none());
    assert!(state.stories.get(story_id).is_none());
}

#[test]
fn status_update_touches_only_that_story() {
    let mut db = fresh_db();
    let epic_id = db.create_epic(Epic::new("E".to_owned(), "d".to_owned())).unwrap();
    let s1 = db.create_story(Story::new("S1".to_owned(), "a".to_owned()), epic_id).unwrap();
    let s2 = db.create_story(Story::new("S2".to_owned(), "b".to_owned()), epic_id).unwrap();
    let before = db.read_db().unwrap();
    db.update_story_status(s1, Status::InProgress).unwrap();
    let after = db.read_db().unwrap();
    assert_eq!(after.last_item_id, before.last_item_id);
    assert_eq!(after.epics, before.epics);
    let changed = after.stories.get(s1).unwrap();
    assert_eq!(changed.status, Status::InProgress);
    assert_eq!(changed.name, "S1");
    assert_eq!(changed.description, "a");
    assert_eq!(after.stories.get(s2).unwrap(), before.stories.get(s2).unwrap());
}

#[test]
fn update_epic_status_overwrites_status() {
    let mut db = fresh_db();
    let epic_id = db.create_epic(Epic::new("E".to_owned(), "".to_owned())).unwrap();
    db.update_epic_status(epic_id, Status::Closed).unwrap();
    let state = db.read_db().unwrap();
    assert_eq!(state.epics.get(epic_id).unwrap().status, Status::Closed);
}

#[test]
fn end_to_end_create_then_cascade_delete() {
    let mut db = fresh_db();
    let epic_id = db.create_epic(Epic::new("E1".to_owned(), "first epic".to_owned())).unwrap();
    assert_eq!(epic_id, 1);
    let state = db.read_db().unwrap();
    assert_eq!(state.epics.get(1).unwrap().stories, Vec::<u32>::new());

    let story_id = db
        .create_story(Story::new("S1".to_owned(), "first story".to_owned()), 1)
        .unwrap();
    assert_eq!(story_id, 2);
    let state = db.read_db().unwrap();
    assert!(state.stories.get(2).is_some());
    assert_eq!(state.epics.get(1).unwrap().stories, vec![2]);

    db.delete_epic(1).unwrap();
    let state = db.read_db().unwrap();
    let expected = DBState {
        last_item_id: 2,
        epics: jira_db::id_table::IdTable::new(),
        stories: jira_db::id_table::IdTable::new(),
    };
    assert_eq!(state, expected);
}
