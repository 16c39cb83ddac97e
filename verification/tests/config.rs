use rgs::addr::{parse_server_addr, ServerAddr};
use rgs::errors::Error;
use rgs::models::{Config, ConfStorage, ConfValue, ConfElem, ServerData, ServerEntry};
use rgs::text::{i64_to_string, join_spaced, u64_to_string};

#[test]
fn string_array_round_trip_and_bool_mismatch() {
    let mut store = ConfStorage::new();
    store.insert(
        "k".into(),
        ConfValue::Arr(vec![ConfElem::Str("a".into()), ConfElem::Str("b".into())]),
    );
    let arr: Vec<String> = Config::<Vec<String>>::get_or_err(&store, "k").unwrap();
    assert_eq!(arr, vec![String::from("a"), String::from("b")]);
    match Config::<bool>::get_or_err(&store, "k") {
        Err(Error::SettingTypeMismatch(m)) => assert_eq!(m, "k"),
        other => panic!("unexpected result: {:?}", other),
    }
}

#[test]
fn absent_key_fails_with_invalid_setting_key() {
    let store = ConfStorage::new();
    match Config::<String>::get_or_err(&store, "missing") {
        Err(Error::InvalidSettingKey(m)) => assert_eq!(m, "missing"),
        other => panic!("unexpected result: {:?}", other),
    }
}

#[test]
fn heterogeneous_array_names_offending_key() {
    let mut store = ConfStorage::new();
    store.insert(
        "mixed".into(),
        ConfValue::Arr(vec![ConfElem::Str("a".into()), ConfElem::Bool(false)]),
    );
    match Config::<Vec<String>>::get_or_err(&store, "mixed") {
        Err(Error::SettingTypeMismatch(m)) => {
            assert_eq!(m, "Multi-type array detected: mixed")
        },
        other => panic!("unexpected result: {:?}", other),
    }
}

#[test]
fn untyped_accessor_copies_the_value() {
    let mut store = ConfStorage::new();
    store.insert("n".into(), ConfValue::Int(42));
    let v: ConfValue = Config::<ConfValue>::get_or_err(&store, "n").unwrap();
    match v {
        ConfValue::Int(n) => assert_eq!(n, 42),
        _ => panic!("wrong value type"),
    }
}

#[test]
fn insert_replaces_value_under_same_key() {
    let mut store = ConfStorage::new();
    store.insert("k".into(), ConfValue::Str("first".into()));
    store.insert("k".into(), ConfValue::Str("second".into()));
    assert_eq!(store.keys().len(), 1);
    let s: String = Config::<String>::get_or_err(&store, "k").unwrap();
    assert_eq!(s, "second");
}

#[test]
fn last_write_wins_by_address() {
    let addr = parse_server_addr("100.110.120.130:33333").unwrap();
    let mut a = ServerEntry::new(addr);
    a.name = Some("first".into());
    let mut b = ServerEntry::new(addr);
    b.name = Some("second".into());

    let mut set = ServerData::new();
    set.insert(a);
    set.insert(b);
    assert_eq!(set.records().len(), 1);
    assert_eq!(set.get(addr).unwrap().name.as_deref(), Some("second"));
}

#[test]
fn no_two_records_share_an_address() {
    let mut set = ServerData::new();
    for text in ["1.2.3.4:1", "1.2.3.4:1", "1.2.3.4:2", "5.6.7.8:1", "5.6.7.8:1"] {
        set.insert(ServerEntry::new(parse_server_addr(text).unwrap()));
    }
    assert!(set.contains_addr(parse_server_addr("1.2.3.4:1").unwrap()));
    assert!(!set.contains_addr(parse_server_addr("1.2.3.4:3").unwrap()));
    let records = set.records();
    assert_eq!(records.len(), 3);
    for i in 0..records.len() {
        for j in 0..records.len() {
            if i != j {
                assert_ne!(records[i].addr, records[j].addr);
            }
        }
    }
}

#[test]
fn records_with_equal_address_compare_equal() {
    let addr = parse_server_addr("9.9.9.9:999").unwrap();
    let mut a = ServerEntry::new(addr);
    a.name = Some("one".into());
    let b = ServerEntry::new(addr);
    assert_eq!(a, b);
    let c = ServerEntry::new(parse_server_addr("9.9.9.9:998").unwrap());
    assert!(a != c);
}

#[test]
fn address_grammar_accepts_and_rejects() {
    assert_eq!(
        parse_server_addr("100.110.120.130:33333"),
        Some(ServerAddr { o1: 100, o2: 110, o3: 120, o4: 130, port: 33333 })
    );
    assert_eq!(
        parse_server_addr("0.0.0.0:0"),
        Some(ServerAddr { o1: 0, o2: 0, o3: 0, o4: 0, port: 0 })
    );
    assert_eq!(
        parse_server_addr("255.255.255.255:65535"),
        Some(ServerAddr { o1: 255, o2: 255, o3: 255, o4: 255, port: 65535 })
    );
    assert_eq!(parse_server_addr("256.0.0.1:1"), None);
    assert_eq!(parse_server_addr("1.2.3.4:65536"), None);
    assert_eq!(parse_server_addr("1.2.3.4"), None);
    assert_eq!(parse_server_addr("1.2.3:4"), None);
    assert_eq!(parse_server_addr("01.2.3.4:5"), None);
    assert_eq!(parse_server_addr("1.2.3.4:"), None);
    assert_eq!(parse_server_addr(""), None);
    assert_eq!(parse_server_addr("a.b.c.d:e"), None);
    assert_eq!(parse_server_addr("1.2.3.4.5:6"), None);
    assert_eq!(parse_server_addr("1.2.3.4:5:6"), None);
}

#[test]
fn decimal_notation_is_exact() {
    assert_eq!(u64_to_string(0), "0");
    assert_eq!(u64_to_string(9), "9");
    assert_eq!(u64_to_string(12345), "12345");
    assert_eq!(u64_to_string(u64::MAX), "18446744073709551615");
    assert_eq!(i64_to_string(-7), "-7");
    assert_eq!(i64_to_string(0), "0");
    assert_eq!(i64_to_string(i64::MIN), "-9223372036854775808");
}

#[test]
fn join_with_spaces() {
    let empty: Vec<String> = Vec::new();
    assert_eq!(join_spaced(&empty), "");
    assert_eq!(join_spaced(&vec![String::from("one")]), "one");
    assert_eq!(
        join_spaced(&vec![String::from("a"), String::from("b"), String::from("c")]),
        "a b c"
    );
}

#[test]
fn error_details_are_kept() {
    let e = Error::BackendError("boom".into());
    assert_eq!(e.detail(), "boom");
    let e = Error::NoSuchGame("g".into());
    assert_eq!(e.detail(), "g");
}
