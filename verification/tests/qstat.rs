use rgs::addr::parse_server_addr;
use rgs::backends::qstat::{
    make_qstat_cmd_params, make_rulestring, parse, Backend, ProbeOutput, QuerySettings,
};
use rgs::errors::Error;
use rgs::backends::qstat::get_string_array;
use rgs::models::{Config, ConfStorage, ConfValue, ConfElem, ServerData, ServerEntry};

#[test]
fn test_make_qstat_cmd_params() {
    let mut rules: Vec<(String, String)> = Vec::new();
    rules.push(("rule1".into(), "value1".into()));
    rules.push(("rule2".into(), "value2".into()));

    let master_server_uri: Vec<String> = vec!["serverA".into(), "serverB".into()];

    let func = &make_qstat_cmd_params;
    let expectation: Vec<String> = vec![
        String::from("-json"),
        String::from("-utf8"),
        String::from("-maxsim"),
        String::from("9999"),
        String::from("-R"),
        String::from("-P"),
        String::from("-q3s") + &make_rulestring(&rules),
        String::from("serverA serverB"),
    ];
    assert_eq!(func("q3s", &rules, &master_server_uri), expectation);
}

#[test]
fn test_parse() {
    let fixture = r##"
[
    {
        "protocol": "a2s",
        "address": "100.110.120.130:33333",
        "status": "online",
        "hostname": "100.110.120.130:33333",
        "name": "MyPreciousServer",
        "gametype": "cstrike",
        "map": "de_dust2",
        "numplayers": 14,
        "maxplayers": 33,
        "numspectators": 0,
        "maxspectators": 0,
        "ping": 10,
        "retries": 0,
        "rules": {
            "protocol": "11",
            "gamedir": "cstrike",
            "gamename": "Counter-Strike: Source",
            "bots": "0",
            "dedicated": "1",
            "sv_os": "linux",
            "secure": "1",
            "version": "3398447",
            "game_port": "33333",
            "game_tags": "increased_maxplayers,!weapon,alltalk,bhop,bunnyhopping,de,mg,minigames,no-steam,shop,startmoney"
        },
        "players": [
            {
                "name": "PlayerA",
                "score": 0,
                "time": "9s"
            },
            {
                "name": "PlayerB",
                "score": 10,
                "time": "1m37s"
            }
        ]
    }
]
"##;
    let func = &parse;
    let mut expectation = ServerData::default();
    expectation.insert(ServerEntry::new(parse_server_addr("100.110.120.130:33333").unwrap()));
    assert_eq!(func(fixture, "a2s").unwrap(), expectation);
}

#[test]
fn master_type_is_lowercased() {
    let rules: Vec<(String, String)> = Vec::new();
    let uris: Vec<String> = vec!["m1".into()];
    let cmd = make_qstat_cmd_params("Q3S", &rules, &uris);
    assert_eq!(cmd[6], "-q3s");
}

#[test]
fn rulestring_is_deterministic() {
    let rules: Vec<(String, String)> = vec![
        ("a".into(), "1".into()),
        ("b".into(), "2".into()),
    ];
    assert_eq!(make_rulestring(&rules), ",a=1,b=2");
    assert_eq!(make_rulestring(&rules), make_rulestring(&rules));
}

#[test]
fn invocation_builds_argument_string() {
    let settings = QuerySettings {
        qstat_path: "/usr/bin/qstat".into(),
        master_type: "Q3M".into(),
        server_type: "q3s".into(),
        master_server_uri: vec!["master1".into(), "master2".into()],
        qstat_game_type: Some("cpma".into()),
    };
    let inv = Backend::invocation(&settings);
    assert_eq!(inv.program, "/usr/bin/qstat");
    assert_eq!(
        inv.argument,
        "-json -utf8 -maxsim 9999 -R -P -q3m,qstat_game_type=cpma master1 master2"
    );
}

#[test]
fn query_settings_read_from_store() {
    let mut store = ConfStorage::new();
    store.insert("qstat_path".into(), ConfValue::Str("/bin/qstat".into()));
    store.insert("qstat_master_type".into(), ConfValue::Str("q3m".into()));
    store.insert("qstat_server_type".into(), ConfValue::Str("q3s".into()));
    store.insert(
        "master_server_uri".into(),
        ConfValue::Arr(vec![ConfElem::Str("master".into())]),
    );
    let qs = QuerySettings::try_from(&store).unwrap();
    assert_eq!(qs.qstat_path, "/bin/qstat");
    assert_eq!(qs.master_type, "q3m");
    assert_eq!(qs.server_type, "q3s");
    assert_eq!(qs.master_server_uri, vec![String::from("master")]);
    assert!(qs.qstat_game_type.is_none());
}

#[test]
fn query_settings_fail_fast_on_missing_key() {
    let store = ConfStorage::new();
    match QuerySettings::try_from(&store) {
        Err(Error::InvalidSettingKey(k)) => assert_eq!(k, "qstat_path"),
        other => panic!("unexpected result: {:?}", other.map(|_| ())),
    }
}

#[test]
fn query_settings_fail_fast_on_mistyped_key() {
    let mut store = ConfStorage::new();
    store.insert("qstat_path".into(), ConfValue::Int(3));
    match QuerySettings::try_from(&store) {
        Err(Error::SettingTypeMismatch(k)) => assert_eq!(k, "qstat_path"),
        other => panic!("unexpected result: {:?}", other.map(|_| ())),
    }
}

#[test]
fn parse_rejects_invalid_json() {
    match parse("{ not json", "a2s") {
        Err(Error::DataParseError(_)) => {},
        other => panic!("unexpected result: {:?}", other.map(|_| ())),
    }
}

#[test]
fn parse_rejects_non_array_document() {
    match parse("{\"address\": \"1.2.3.4:5\"}", "a2s") {
        Err(Error::DataParseError(m)) => assert_eq!(m, "Not a valid array of servers"),
        other => panic!("unexpected result: {:?}", other.map(|_| ())),
    }
}

#[test]
fn parse_skips_entry_without_address() {
    let fixture = r##"[{"name": "no address here"}, {"address": "10.0.0.1:27015"}]"##;
    let got = parse(fixture, "a2s").unwrap();
    assert_eq!(got.records().len(), 1);
    let addr = parse_server_addr("10.0.0.1:27015").unwrap();
    assert!(got.get(addr).is_some());
}

#[test]
fn parse_deduplicates_by_address() {
    let fixture = r##"[{"address": "10.0.0.1:1"}, {"address": "10.0.0.1:1"}, {"address": "10.0.0.2:1"}]"##;
    let got = parse(fixture, "a2s").unwrap();
    assert_eq!(got.records().len(), 2);
}

#[test]
fn interpret_output_reports_exit_code() {
    let out = ProbeOutput { success: false, exit_code: Some(3), stdout: Vec::new() };
    match Backend::interpret_output(out, "a2s") {
        Err(Error::IOError(m)) => assert_eq!(m, "QStat exited with status: 3"),
        other => panic!("unexpected result: {:?}", other.map(|_| ())),
    }
}

#[test]
fn interpret_output_reports_signal_death() {
    let out = ProbeOutput { success: false, exit_code: None, stdout: Vec::new() };
    match Backend::interpret_output(out, "a2s") {
        Err(Error::IOError(m)) => assert_eq!(m, "QStat killed by a signal"),
        other => panic!("unexpected result: {:?}", other.map(|_| ())),
    }
}

#[test]
fn interpret_output_rejects_bad_utf8() {
    let out = ProbeOutput { success: true, exit_code: Some(0), stdout: vec![0xff, 0xfe] };
    match Backend::interpret_output(out, "a2s") {
        Err(Error::DataParseError(m)) => assert_eq!(m, "QStat output is not valid UTF-8"),
        other => panic!("unexpected result: {:?}", other.map(|_| ())),
    }
}

#[test]
fn interpret_output_parses_good_run() {
    let body = br##"[{"address": "8.8.8.8:27960"}]"##.to_vec();
    let out = ProbeOutput { success: true, exit_code: Some(0), stdout: body };
    let got = Backend::interpret_output(out, "a2s").unwrap();
    assert_eq!(got.records().len(), 1);
    let addr = parse_server_addr("8.8.8.8:27960").unwrap();
    assert!(got.get(addr).is_some());
}

#[test]
fn string_array_coercion_on_values() {
    let arr = ConfValue::Arr(vec![ConfElem::Str("x".into()), ConfElem::Str("y".into())]);
    assert_eq!(get_string_array(&arr).unwrap(), vec![String::from("x"), String::from("y")]);
    let mixed = ConfValue::Arr(vec![ConfElem::Str("x".into()), ConfElem::Int(1)]);
    match get_string_array(&mixed) {
        Err(Error::DataParseError(m)) => assert_eq!(m, "Not a string"),
        other => panic!("unexpected result: {:?}", other.map(|_| ())),
    }
    match get_string_array(&ConfValue::Bool(true)) {
        Err(Error::DataParseError(m)) => assert_eq!(m, "Not a valid array of strings"),
        other => panic!("unexpected result: {:?}", other.map(|_| ())),
    }
}

#[test]
fn settings_via_config_trait() {
    let mut store = ConfStorage::new();
    store.insert("flag".into(), ConfValue::Bool(true));
    let b: bool = Config::<bool>::get_or_err(&store, "flag").unwrap();
    assert!(b);
}
