use jira_db::codec::{parse_db_text, serialize_db};
use jira_db::id_table::IdTable;
use jira_db::{DBState, DbError, Epic, Status, Story};

#[test]
fn read_db_should_fail_with_invalid_json() {
    let file_contents = r#"{ "last_item_id": 0 epics: {} stories {} }"#;
    let result = parse_db_text(file_contents);
    assert!(result.is_err());
}

#[test]
fn read_db_should_parse_json_file() {
    let file_contents = r#"{ "last_item_id": 0, "epics": {}, "stories": {} }"#;
    let result = parse_db_text(file_contents);
    assert!(result.is_ok());
    let state = result.unwrap();
    assert_eq!(state, DBState::new());
}

#[test]
fn write_db_should_work() {
    let story = Story {
        name: "epic 1".to_owned(),
        description: "epic 1".to_owned(),
        status: Status::Open,
    };
    let epic = Epic {
        name: "epic 1".to_owned(),
        description: "epic 1".to_owned(),
        status: Status::Open,
        stories: vec![2],
    };

    let mut stories = IdTable::new();
    stories.insert(2, story);

    let mut epics = IdTable::new();
    epics.insert(1, epic);

    let state = DBState { last_item_id: 2, epics, stories };

    let written = serialize_db(&state);
    let read_result = parse_db_text(&written);

    assert!(read_result.is_ok());
    assert_eq!(read_result.unwrap(), state);
}

#[test]
fn empty_state_serializes_exactly() {
    let state = DBState::new();
    assert_eq!(serialize_db(&state), r#"{"last_item_id":0,"epics":{},"stories":{}}"#);
}

#[test]
fn full_state_serializes_exactly() {
    let mut epics = IdTable::new();
    epics.insert(
        1,
        Epic {
            name: "E".to_owned(),
            description: "d".to_owned(),
            status: Status::InProgress,
            stories: vec![2, 3],
        },
    );
    let mut stories = IdTable::new();
    stories.insert(
        2,
        Story { name: "S".to_owned(), description: "".to_owned(), status: Status::Resolved },
    );
    stories.insert(
        3,
        Story { name: "T".to_owned(), description: "t".to_owned(), status: Status::Closed },
    );
    let state = DBState { last_item_id: 3, epics, stories };
    let expected = r#"{"last_item_id":3,"epics":{"1":{"name":"E","description":"d","status":"InProgress","stories":[2,3]}},"stories":{"2":{"name":"S","description":"","status":"Resolved"},"3":{"name":"T","description":"t","status":"Closed"}}}"#;
    assert_eq!(serialize_db(&state), expected);
}

#[test]
fn escaped_strings_round_trip() {
    let mut stories = IdTable::new();
    stories.insert(
        5,
        Story {
            name: "with \"quotes\" and \\backslash\\".to_owned(),
            description: "line\nbreak\ttab and caf\u{e9} \u{1F680}".to_owned(),
            status: Status::Open,
        },
    );
    let state = DBState { last_item_id: 5, epics: IdTable::new(), stories };
    let written = serialize_db(&state);
    let read_back = parse_db_text(&written).unwrap();
    assert_eq!(read_back, state);
}

#[test]
fn control_characters_are_escaped_as_unicode() {
    let mut stories = IdTable::new();
    stories.insert(
        1,
        Story {
            name: "a\u{0001}b".to_owned(),
            description: String::new(),
            status: Status::Open,
        },
    );
    let state = DBState { last_item_id: 1, epics: IdTable::new(), stories };
    let written = serialize_db(&state);
    assert!(written.contains(r#""a\u0001b""#));
    assert_eq!(parse_db_text(&written).unwrap(), state);
}

#[test]
fn parse_accepts_common_escapes() {
    let text = r#"{"last_item_id":1,"epics":{},"stories":{"1":{"name":"a\nbA","description":"\/","status":"Open"}}}"#;
    let state = parse_db_text(text).unwrap();
    let story_name = &state.stories.get(1).unwrap().name;
    assert_eq!(story_name, "a\nbA");
}

#[test]
fn parse_accepts_unicode_escapes_up_to_the_basic_plane() {
    let text = r#"{"last_item_id":1,"epics":{},"stories":{"1":{"name":"A\u00e9\u2603","description":"","status":"Open"}}}"#;
    let state = parse_db_text(text).unwrap();
    assert_eq!(state.stories.get(1).unwrap().name, "A\u{e9}\u{2603}");
}

#[test]
fn parse_rejects_surrogate_escapes() {
    let text = r#"{"last_item_id":1,"epics":{},"stories":{"1":{"name":"\ud83d\ude00","description":"","status":"Open"}}}"#;
    assert_eq!(parse_db_text(text).unwrap_err(), DbError::StorageParse);
}

#[test]
fn parse_rejects_unknown_fields() {
    let text = r#"{"last_item_id":0,"epics":{},"stories":{},"extra":1}"#;
    assert_eq!(parse_db_text(text).unwrap_err(), DbError::StorageParse);
}

#[test]
fn parse_rejects_reordered_fields() {
    let text = r#"{"epics":{},"last_item_id":0,"stories":{}}"#;
    assert_eq!(parse_db_text(text).unwrap_err(), DbError::StorageParse);
}

#[test]
fn parse_rejects_counter_out_of_range() {
    let ok = parse_db_text(r#"{"last_item_id":4294967295,"epics":{},"stories":{}}"#);
    assert_eq!(ok.unwrap().last_item_id, u32::MAX);
    let too_big = parse_db_text(r#"{"last_item_id":4294967296,"epics":{},"stories":{}}"#);
    assert_eq!(too_big.unwrap_err(), DbError::StorageParse);
}

#[test]
fn parse_rejects_leading_zero() {
    let text = r#"{"last_item_id":01,"epics":{},"stories":{}}"#;
    assert_eq!(parse_db_text(text).unwrap_err(), DbError::StorageParse);
}

#[test]
fn parse_rejects_truncated_document() {
    let text = r#"{"last_item_id":0,"epics":{},"stories":{}"#;
    assert_eq!(parse_db_text(text).unwrap_err(), DbError::StorageParse);
}

#[test]
fn parse_reads_whitespace_and_nested_entries() {
    let text = " {\n\t\"last_item_id\" : 9 ,\n \"epics\" : { \"4\" : { \"name\" : \"E\" , \"description\" : \"\" , \"status\" : \"Open\" , \"stories\" : [ 5 , 6 ] } } ,\n \"stories\" : { \"5\" : { \"name\" : \"S\" , \"description\" : \"\" , \"status\" : \"Open\" } , \"6\" : { \"name\" : \"T\" , \"description\" : \"\" , \"status\" : \"Open\" } } }\n";
    let state = parse_db_text(text).unwrap();
    assert_eq!(state.last_item_id, 9);
    assert_eq!(state.epics.get(4).unwrap().stories, vec![5, 6]);
    assert!(state.stories.get(5).is_some());
    assert!(state.stories.get(6).is_some());
}
