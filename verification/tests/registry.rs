use rgs::addr::parse_server_addr;
use rgs::errors::Error;
use rgs::models::{ConfValue, MockDataSource, ServerData, ServerEntry};
use rgs::{ConfType, Core, GameTable, QueryStatus};

#[test]
pub fn test_game_table() {
    let _obj = GameTable::default();
}

#[test]
fn create_then_create_again_fails() {
    let mut table = GameTable::new();
    let id = String::from("quake3");
    assert!(table.create_game_entry(&id).is_ok());
    match table.create_game_entry(&id) {
        Err(Error::GameExists(m)) => assert_eq!(m, "quake3"),
        other => panic!("unexpected result: {:?}", other),
    }
}

#[test]
fn remove_of_unknown_game_fails() {
    let mut table = GameTable::new();
    let id = String::from("never-created");
    match table.remove_game_entry(&id) {
        Err(Error::NoSuchGame(m)) => assert_eq!(m, "never-created"),
        other => panic!("unexpected result: {:?}", other),
    }
}

#[test]
fn create_list_remove_round_trip() {
    let mut table = GameTable::new();
    let a = String::from("a");
    let b = String::from("b");
    table.create_game_entry(&a).unwrap();
    table.create_game_entry(&b).unwrap();
    assert_eq!(table.list_games(), vec![String::from("a"), String::from("b")]);
    table.remove_game_entry(&a).unwrap();
    assert_eq!(table.list_games(), vec![String::from("b")]);
}

#[test]
fn list_games_is_ordered() {
    let mut table = GameTable::new();
    for id in ["delta", "alpha", "charlie", "bravo"] {
        table.create_game_entry(&String::from(id)).unwrap();
    }
    assert_eq!(
        table.list_games(),
        vec![
            String::from("alpha"),
            String::from("bravo"),
            String::from("charlie"),
            String::from("delta"),
        ]
    );
}

#[test]
fn fresh_game_has_empty_settings_of_every_type() {
    let mut table = GameTable::new();
    let id = String::from("g");
    table.create_game_entry(&id).unwrap();
    for t in [ConfType::Launcher, ConfType::Backend, ConfType::System] {
        let store = table.get_settings(&id, t).unwrap();
        assert!(store.keys().is_empty());
    }
    assert_eq!(table.status_of(&id), Some(QueryStatus::Empty));
}

#[test]
fn setting_written_is_visible_on_next_retrieval() {
    let mut table = GameTable::new();
    let id = String::from("g");
    table.create_game_entry(&id).unwrap();
    assert!(table.get_settings(&id, ConfType::Backend).unwrap().keys().is_empty());
    table
        .set_setting(&id, ConfType::Backend, "qstat_path".into(), ConfValue::Str("/bin/qstat".into()))
        .unwrap();
    let store = table.get_settings(&id, ConfType::Backend).unwrap();
    assert_eq!(store.keys(), vec![String::from("qstat_path")]);
    let other = table.get_settings(&id, ConfType::Launcher).unwrap();
    assert!(other.keys().is_empty());
}

#[test]
fn get_settings_of_unknown_game_fails() {
    let mut table = GameTable::new();
    let id = String::from("nope");
    match table.get_settings(&id, ConfType::Backend) {
        Err(Error::NoSuchGame(m)) => assert_eq!(m, "nope"),
        other => panic!("unexpected result: {:?}", other.map(|_| ())),
    }
}

#[test]
fn refresh_of_unknown_game_fails_without_mutation() {
    let mut table = GameTable::new();
    let known = String::from("known");
    table.create_game_entry(&known).unwrap();
    let id = String::from("ghost");
    match table.refresh_begin(&id) {
        Err(Error::NoSuchGame(m)) => assert_eq!(m, "ghost"),
        other => panic!("unexpected result: {:?}", other.map(|_| ())),
    }
    assert_eq!(table.list_games(), vec![String::from("known")]);
    assert_eq!(table.status_of(&known), Some(QueryStatus::Empty));
}

#[test]
fn mock_refresh_resolves_to_ready_and_empty() {
    let mut table = GameTable::new();
    let id = String::from("g");
    table.create_game_entry(&id).unwrap();
    table.refresh_sync(&id, &MockDataSource).unwrap();
    assert_eq!(table.status_of(&id), Some(QueryStatus::Ready));
    assert!(table.servers_of(&id).unwrap().records().is_empty());
}

#[test]
fn refresh_begin_marks_working() {
    let mut table = GameTable::new();
    let id = String::from("g");
    table.create_game_entry(&id).unwrap();
    let (_kind, snapshot) = table.refresh_begin(&id).unwrap();
    assert!(snapshot.keys().is_empty());
    assert_eq!(table.status_of(&id), Some(QueryStatus::Working));
}

#[test]
fn failed_backend_drives_working_to_error_and_keeps_servers() {
    let mut table = GameTable::new();
    let id = String::from("g");
    table.create_game_entry(&id).unwrap();

    let mut data = ServerData::new();
    let addr = parse_server_addr("10.1.2.3:27015").unwrap();
    data.insert(ServerEntry::new(addr));
    table.refresh_begin(&id).unwrap();
    assert!(table.refresh_commit(&id, Ok(data)));
    assert_eq!(table.status_of(&id), Some(QueryStatus::Ready));
    assert_eq!(table.servers_of(&id).unwrap().records().len(), 1);

    table.refresh_begin(&id).unwrap();
    assert_eq!(table.status_of(&id), Some(QueryStatus::Working));
    let failed: Result<ServerData, Error> = Err(Error::BackendError("probe died".into()));
    assert!(table.refresh_commit(&id, failed));
    assert_eq!(table.status_of(&id), Some(QueryStatus::Error));
    let kept = table.servers_of(&id).unwrap();
    assert_eq!(kept.records().len(), 1);
    assert!(kept.get(addr).is_some());
}

#[test]
fn commit_against_removed_game_is_a_silent_noop() {
    let mut table = GameTable::new();
    let id = String::from("g");
    table.create_game_entry(&id).unwrap();
    table.refresh_begin(&id).unwrap();
    table.remove_game_entry(&id).unwrap();
    let committed = table.refresh_commit(&id, Ok(ServerData::new()));
    assert!(!committed);
    assert!(table.list_games().is_empty());
}

#[test]
fn core_refresh_servers_materializes_backend_settings() {
    let mut core = Core::new();
    let id = String::from("g");
    core.game_table.create_game_entry(&id).unwrap();
    core.refresh_servers(id.clone());
    let store = core.game_table.get_settings(&id, ConfType::Backend).unwrap();
    assert!(store.keys().is_empty());
}

#[test]
fn core_read_game_lists_reports_success() {
    let mut core = Core::new();
    let r = core.read_game_lists(rgs::GameList(Vec::new()));
    assert_eq!(r.unwrap(), "Success.");
}

#[test]
fn conf_type_text_round_trip() {
    assert_eq!(ConfType::from_string("launcher").unwrap(), ConfType::Launcher);
    assert_eq!(ConfType::from_string("backend").unwrap(), ConfType::Backend);
    assert_eq!(ConfType::from_string("system").unwrap(), ConfType::System);
    assert!(ConfType::from_string("Launcher").is_err());
    assert!(ConfType::from_string("").is_err());
    assert_eq!(ConfType::Launcher.to_string(), "launcher");
    assert_eq!(ConfType::Backend.to_string(), "backend");
    assert_eq!(ConfType::System.to_string(), "system");
}
