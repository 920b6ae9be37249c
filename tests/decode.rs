use gaming_calendar::catalog::GameLoaderArgs;
use gaming_calendar::igdb::{format_access_url, get_post_url, RequestType};
use gaming_calendar::model::{Game, User};
use gaming_calendar::records::{session_from_records, RecordError, SessionRecord, UserRecord};
use gaming_calendar::url_params::{UrlError, UrlParams};

#[test]
fn url_decodes_server_and_user() {
    let p = UrlParams::decode_url("c2VydmVyOnVzZXI=".to_string()).unwrap();
    assert_eq!(p.get_server_id(), "server");
    assert_eq!(p.get_user_id(), "user");
}

#[test]
fn url_ignores_a_third_field() {
    let p = UrlParams::decode_url("YTpiOmM=".to_string()).unwrap();
    assert_eq!(p.get_server_id(), "a");
    assert_eq!(p.get_user_id(), "b");
}

#[test]
fn url_errors() {
    assert_eq!(
        UrlParams::decode_url("not base64!".to_string()).err(),
        Some(UrlError::InvalidBase64)
    );
    assert_eq!(
        UrlParams::decode_url("//46eA==".to_string()).err(),
        Some(UrlError::InvalidUtf8)
    );
    assert_eq!(
        UrlParams::decode_url("bm9jb2xvbg==".to_string()).err(),
        Some(UrlError::MissingField)
    );
}

fn record(owner: &str, start: &str, end: &str) -> SessionRecord {
    SessionRecord {
        session_id: Some(5),
        server_id: "server".to_string(),
        title: "raid".to_string(),
        start_time: start.to_string(),
        end_time: end.to_string(),
        owner: owner.to_string(),
        is_selected: false,
        game: Some("chess".to_string()),
    }
}

fn row(name: &str) -> UserRecord {
    UserRecord { session_id: 5, user_id: name.to_string(), user_photo: format!("{}.png", name) }
}

#[test]
fn records_assemble_into_a_session() {
    let rows = vec![row("x"), row("a")];
    let s = session_from_records(
        &record("a", "1996-12-19T16:00:00Z", "1996-12-19T10:00:00-08:00"),
        &rows,
    )
    .unwrap();
    assert_eq!(s.session_id, 5);
    assert_eq!(s.server_id, "server");
    assert_eq!(s.title, "raid");
    assert_eq!(s.start_time, 851011200);
    assert_eq!(s.end_time, 851011200 + 2 * 3600);
    assert_eq!(s.owner.name, "a");
    assert_eq!(s.owner.picture, "a.png");
    assert_eq!(s.participants.len(), 2);
    assert_eq!(s.participants[0].name, "x");
    assert_eq!(s.participants[1].picture, "a.png");
    assert_eq!(s.game, Some("chess".to_string()));
}

#[test]
fn records_errors() {
    let rows = vec![row("a")];
    let mut r = record("a", "1996-12-19T16:00:00Z", "1996-12-19T18:00:00Z");
    r.session_id = None;
    assert_eq!(session_from_records(&r, &rows).err(), Some(RecordError::MissingSessionId));
    let r = record("zz", "1996-12-19T16:00:00Z", "1996-12-19T18:00:00Z");
    assert_eq!(session_from_records(&r, &rows).err(), Some(RecordError::OwnerNotFound));
    let r = record("a", "yesterday", "1996-12-19T18:00:00Z");
    assert_eq!(session_from_records(&r, &rows).err(), Some(RecordError::InvalidStartTime));
    let r = record("a", "1996-12-19T16:00:00Z", "");
    assert_eq!(session_from_records(&r, &rows).err(), Some(RecordError::InvalidEndTime));
}

#[test]
fn user_from_record() {
    let u = User::from(&row("q"));
    assert_eq!(u.get_name(), "q");
    assert_eq!(u.get_picture(), "q.png");
}

#[test]
fn game_getters() {
    let g = Game { title: "Go".to_string(), cover_url: "go.png".to_string() };
    assert_eq!(g.get_title(), "Go");
    assert_eq!(g.get_cover_url(), "go.png");
}

#[test]
fn catalog_defaults() {
    let a = GameLoaderArgs::default();
    assert_eq!(a.game_lookup_depth, 1000);
    assert_eq!(a.search_suggestions_depth, 5);
    assert_eq!(a.data_file_path, "game_data.json");
}

#[test]
fn catalog_addresses() {
    assert_eq!(RequestType::Games.as_str(), "games");
    assert_eq!(RequestType::Covers.as_str(), "covers");
    assert_eq!(get_post_url(RequestType::Games), "https://api.igdb.com/v4/games");
    assert_eq!(get_post_url(RequestType::Covers), "https://api.igdb.com/v4/covers");
    assert_eq!(
        format_access_url("id", "key"),
        "https://id.twitch.tv/oauth2/token?client_id=id&client_secret=key&grant_type=client_credentials"
    );
}
