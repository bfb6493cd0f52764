use layercfg::environment::{derive_key, Environment};
use layercfg::item::ConfigurationItem;
use layercfg::value::{OsText, RawValue, ValueKind};
use layercfg::RejectReason;

#[test]
fn lookup_fails_when_name_is_absent() {
    let env = Environment::new("APPNAME".into(), Vec::new());
    let res = env.lookup("test_name");
    assert_eq!(None, res);
}

#[test]
fn lookup_succeeds_when_name_is_present() {
    let env = Environment::new(
        "APPNAME".into(),
        vec![("test_name".into(), OsText::Unicode("test_value".into()))],
    );
    let res = env.lookup("test_name").expect("test_name not found in env");
    match res {
        OsText::Unicode(val) => assert_eq!(val, "test_value"),
        OsText::NotUnicode => panic!("result should be Ok(\"test_value\")"),
    }
}

#[test]
fn lookup_first_entry_wins() {
    let env = Environment::new(
        "APPNAME".into(),
        vec![
            ("k".into(), OsText::Unicode("first".into())),
            ("k".into(), OsText::Unicode("second".into())),
        ],
    );
    let res = env.lookup("k").unwrap();
    assert_eq!(res, &OsText::Unicode("first".into()));
}

#[test]
fn try_get() {
    let env = Environment::new(
        "APPNAME".into(),
        vec![(
            "APPNAME_ENV_TEST_CONFIGURATION_ITEM".into(),
            OsText::Unicode("test_value".into()),
        )],
    );
    let mut ci = ConfigurationItem::new(
        "EnvTestConfigurationItem".to_string(),
        None,
        ValueKind::Text,
    );
    let res = env.try_get(&mut ci);
    assert!(res.is_none());
    assert_eq!(ci.get(), &Some(RawValue::Text(String::from("test_value"))));
}

#[test]
fn from_raw_keeps_unicode_named_pairs_in_order() {
    let env = Environment::from_raw(
        "APPNAME".into(),
        vec![
            (OsText::Unicode("A".into()), OsText::Unicode("1".into())),
            (OsText::NotUnicode, OsText::Unicode("dropped".into())),
            (OsText::Unicode("B".into()), OsText::NotUnicode),
        ],
    );
    assert_eq!(
        env.vars,
        vec![
            ("A".to_string(), OsText::Unicode("1".into())),
            ("B".to_string(), OsText::NotUnicode),
        ]
    );
}

#[test]
fn grouped_key_derivation() {
    let key = derive_key("APP", Some("Network"), "Limit");
    assert_eq!(key, "APP__NETWORK__LIMIT");
}

#[test]
fn ungrouped_key_derivation() {
    let key = derive_key("APPNAME", None, "MyThreshold");
    assert_eq!(key, "APPNAME_MY_THRESHOLD");
}

#[test]
fn try_get_derives_grouped_key() {
    let env = Environment::new(
        "APP".into(),
        vec![("APP__NETWORK__LIMIT".into(), OsText::Unicode("9".into()))],
    );
    let mut ci = ConfigurationItem::new(
        "Limit".to_string(),
        Some("Network".to_string()),
        ValueKind::Integer,
    );
    let res = env.try_get(&mut ci);
    assert!(res.is_none());
    assert_eq!(ci.get(), &Some(RawValue::Integer(9)));
}

#[test]
fn try_get_missing_key_is_source_unavailable() {
    let env = Environment::new("APPNAME".into(), Vec::new());
    let mut ci = ConfigurationItem::new("Missing".to_string(), None, ValueKind::Text);
    let res = env.try_get(&mut ci);
    assert_eq!(
        res,
        Some(RejectReason::SourceUnavailable {
            key: "APPNAME_MISSING".into()
        })
    );
    assert_eq!(ci.get(), &None);
}

#[test]
fn try_get_unparsable_value_is_rejected() {
    let env = Environment::new(
        "APPNAME".into(),
        vec![("APPNAME_PORT".into(), OsText::Unicode("not a number".into()))],
    );
    let mut ci = ConfigurationItem::new("Port".to_string(), None, ValueKind::Integer);
    let res = env.try_get(&mut ci);
    match res {
        Some(RejectReason::ValueRejected { key, value, reason }) => {
            assert_eq!(key, "APPNAME_PORT");
            assert_eq!(value, RawValue::Text("not a number".into()));
            assert_eq!(reason, layercfg::value::AcceptError::ParseFailed);
        }
        other => panic!("expected a rejected value, got {:?}", other),
    }
    assert_eq!(ci.get(), &None);
}

#[test]
fn try_get_non_unicode_value_is_its_own_rejection() {
    let env = Environment::new(
        "APPNAME".into(),
        vec![("APPNAME_RAW".into(), OsText::NotUnicode)],
    );
    let mut ci = ConfigurationItem::new("Raw".to_string(), None, ValueKind::Text);
    let res = env.try_get(&mut ci);
    assert_eq!(
        res,
        Some(RejectReason::ValueNotUnicode {
            key: "APPNAME_RAW".into()
        })
    );
}

#[test]
fn try_get_invalid_derived_key_is_rejected() {
    let env = Environment::new("BAD=PREFIX".into(), Vec::new());
    let mut ci = ConfigurationItem::new("Item".to_string(), None, ValueKind::Text);
    let res = env.try_get(&mut ci);
    match res {
        Some(RejectReason::InvalidKeyName { key }) => assert!(key.contains('=')),
        other => panic!("expected an invalid key name, got {:?}", other),
    }
}
