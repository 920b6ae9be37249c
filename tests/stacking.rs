use gaming_calendar::model::{GamingSession, User};
use gaming_calendar::stacking::get_events_stacking;
use std::collections::HashMap;

struct Setup {
    time_1: i64,
    time_2: i64,
    time_3: i64,
    time_4: i64,
    server_id: String,
    session_id_1: i64,
    session_id_2: i64,
    session_id_3: i64,
    title: String,
    owner: User,
    participants: Vec<User>,
}

fn utc(text: &str) -> i64 {
    chrono::DateTime::parse_from_rfc3339(text).unwrap().timestamp()
}

impl Setup {
    fn new() -> Self {
        Self {
            time_1: utc("1996-12-19T16:00:00Z"),
            time_2: utc("1996-12-19T17:00:00Z"),
            time_3: utc("1996-12-19T18:00:00Z"),
            time_4: utc("1996-12-19T19:00:00Z"),
            server_id: "server_id".to_string(),
            session_id_1: 111111111111,
            session_id_2: 222222222222,
            session_id_3: 333333333333,
            title: "title".to_string(),
            owner: User {
                name: "username".to_string(),
                picture: "picture".to_string(),
            },
            participants: vec![],
        }
    }
}

fn create_gaming_session(session_id: &i64, start_time: &i64, end_time: &i64) -> GamingSession {
    let setup = Setup::new();
    GamingSession {
        server_id: setup.server_id,
        session_id: *session_id,
        title: setup.title,
        start_time: *start_time,
        end_time: *end_time,
        owner: setup.owner,
        participants: setup.participants,
        game: None,
    }
}

#[test]
fn test_empty_case() {
    let input: Vec<GamingSession> = vec![];
    let expected: HashMap<i64, i32> = HashMap::new();
    let res = get_events_stacking(&input);
    assert_eq!(expected, res);
}

#[test]
fn test_stacking_case() {
    let setup = Setup::new();
    let input: Vec<GamingSession> = vec![
        create_gaming_session(&setup.session_id_1, &setup.time_1, &setup.time_3),
        create_gaming_session(&setup.session_id_2, &setup.time_2, &setup.time_4),
    ];
    let expected: HashMap<i64, i32> =
        HashMap::from([(setup.session_id_1, 0), (setup.session_id_2, 1)]);
    let res = get_events_stacking(&input);
    assert_eq!(expected, res);
}

#[test]
fn test_end_equals_start() {
    let setup = Setup::new();
    let input: Vec<GamingSession> = vec![
        create_gaming_session(&setup.session_id_1, &setup.time_1, &setup.time_2),
        create_gaming_session(&setup.session_id_2, &setup.time_2, &setup.time_3),
    ];
    let expected: HashMap<i64, i32> =
        HashMap::from([(setup.session_id_1, 0), (setup.session_id_2, 0)]);
    let res = get_events_stacking(&input);
    assert_eq!(expected, res);
}

#[test]
fn test_end_equals_and_overlap() {
    let setup = Setup::new();
    let input: Vec<GamingSession> = vec![
        create_gaming_session(&setup.session_id_1, &setup.time_1, &setup.time_3),
        create_gaming_session(&setup.session_id_2, &setup.time_2, &setup.time_4),
        create_gaming_session(&setup.session_id_3, &setup.time_3, &setup.time_4),
    ];
    let expected: HashMap<i64, i32> = HashMap::from([
        (setup.session_id_1, 0),
        (setup.session_id_2, 1),
        (setup.session_id_3, 0),
    ]);
    let res = get_events_stacking(&input);
    assert_eq!(expected, res);
}

#[test]
fn test_second_third_event_same() {
    let setup = Setup::new();
    let input: Vec<GamingSession> = vec![
        create_gaming_session(&setup.session_id_1, &setup.time_1, &setup.time_3),
        create_gaming_session(&setup.session_id_2, &setup.time_3, &setup.time_4),
        create_gaming_session(&setup.session_id_3, &setup.time_3, &setup.time_4),
    ];
    let expected: HashMap<i64, i32> = HashMap::from([
        (setup.session_id_1, 0),
        (setup.session_id_2, 0),
        (setup.session_id_3, 1),
    ]);
    let res = get_events_stacking(&input);
    assert_eq!(expected, res);
}

#[test]
fn stacking_sorts_by_start_before_placing() {
    let setup = Setup::new();
    // Given out of order: the later session must not take column 0 first.
    let input: Vec<GamingSession> = vec![
        create_gaming_session(&setup.session_id_2, &setup.time_2, &setup.time_4),
        create_gaming_session(&setup.session_id_1, &setup.time_1, &setup.time_3),
        create_gaming_session(&setup.session_id_3, &setup.time_3, &setup.time_4),
    ];
    let expected: HashMap<i64, i32> = HashMap::from([
        (setup.session_id_1, 0),
        (setup.session_id_2, 1),
        (setup.session_id_3, 0),
    ]);
    assert_eq!(expected, get_events_stacking(&input));
}

#[test]
fn stacking_identical_intervals_take_separate_columns() {
    let setup = Setup::new();
    let input: Vec<GamingSession> = vec![
        create_gaming_session(&setup.session_id_1, &setup.time_1, &setup.time_2),
        create_gaming_session(&setup.session_id_2, &setup.time_1, &setup.time_2),
        create_gaming_session(&setup.session_id_3, &setup.time_1, &setup.time_2),
    ];
    let res = get_events_stacking(&input);
    assert_eq!(res.get(&setup.session_id_1), Some(&0));
    assert_eq!(res.get(&setup.session_id_2), Some(&1));
    assert_eq!(res.get(&setup.session_id_3), Some(&2));
}

#[test]
fn stacking_uses_as_many_columns_as_the_busiest_instant() {
    let setup = Setup::new();
    // At 17:30 three sessions are in progress; nowhere more.
    let input: Vec<GamingSession> = vec![
        create_gaming_session(&1, &setup.time_1, &setup.time_3),
        create_gaming_session(&2, &setup.time_2, &setup.time_4),
        create_gaming_session(&3, &(setup.time_2 + 1800), &setup.time_3),
        create_gaming_session(&4, &setup.time_3, &setup.time_4),
        create_gaming_session(&5, &setup.time_3, &setup.time_4),
    ];
    let res = get_events_stacking(&input);
    let mut columns: Vec<i32> = res.values().copied().collect();
    columns.sort();
    columns.dedup();
    assert_eq!(columns, vec![0, 1, 2]);
    assert_eq!(res[&1], 0);
    assert_eq!(res[&2], 1);
    assert_eq!(res[&3], 2);
    assert_eq!(res[&4], 0);
    assert_eq!(res[&5], 2);
}
