use layercfg::environment::Environment;
use layercfg::item::ConfigurationItem;
use layercfg::value::{Decimal, OsText, RawValue, ValueKind};
use layercfg::{
    Attempt, ConfigurationStrategy, ConfigurationValueSource, Hardcoded, SourceLabel,
};

#[test]
fn tci_string() {
    let env = Environment::new(
        "APPNAME".into(),
        vec![(
            "APPNAME_TEST_CONFIGURATION_ITEM".into(),
            OsText::Unicode("test_value".into()),
        )],
    );
    let sources = vec![ConfigurationValueSource::Environment(env)];
    let strategy = ConfigurationStrategy::new(sources);
    let mut ci = ConfigurationItem::new("TestConfigurationItem".to_string(), None, ValueKind::Text);
    let _res = strategy.try_get(&mut ci);
    let got = match ci.get() {
        Some(RawValue::Text(s)) => Some(s),
        _ => None,
    };
    assert_eq!(Some(&String::from("test_value")), got);
}

#[test]
fn tci_double() {
    let env = Environment::new(
        "APPNAME".into(),
        vec![("APPNAME_MY_THRESHOLD".into(), OsText::Unicode("43.1".into()))],
    );
    let sources = vec![ConfigurationValueSource::Environment(env)];
    let strategy = ConfigurationStrategy::new(sources);
    let mut ci = ConfigurationItem::new("MyThreshold".to_string(), None, ValueKind::Numeric);
    let res = strategy.try_get(&mut ci);
    println!("{:?}", res);
    let d = match ci.get() {
        Some(RawValue::Numeric(d)) => *d,
        other => panic!("expected a numeric value, got {:?}", other),
    };
    assert_eq!(
        d,
        Decimal {
            negative: false,
            mantissa: 431,
            scale: 1
        }
    );
    let f = (d.mantissa as f64) / 10f64.powi(d.scale as i32);
    assert_eq!(Some(&43.1f64), Some(&f));
}

#[test]
fn first_accepting_source_ends_the_trail() {
    // Two rejecting sources before the accepting third: the trail must have
    // exactly three entries, the first two rejecting and the last accepting.
    let empty_env = Environment::new("APPNAME".into(), Vec::new());
    let wrong_kind = Hardcoded::new(RawValue::Bytes(vec![1, 2, 3]));
    let accepting = Hardcoded::new(RawValue::Text("fallback".into()));
    let strategy = ConfigurationStrategy::new(vec![
        ConfigurationValueSource::Environment(empty_env),
        ConfigurationValueSource::Hardcoded(wrong_kind),
        ConfigurationValueSource::Hardcoded(accepting),
    ]);
    let mut ci = ConfigurationItem::new("Greeting".to_string(), None, ValueKind::Text);
    let res = strategy.try_get(&mut ci);
    assert_eq!(res.attempts.len(), 3);
    assert!(!res.attempts[0].is_ok());
    assert!(!res.attempts[1].is_ok());
    assert!(res.attempts[2].is_ok());
    assert_eq!(res.attempts[0].source, SourceLabel::Environment);
    assert_eq!(res.attempts[2].source, SourceLabel::Hardcoded);
    assert_eq!(ci.get(), &Some(RawValue::Text("fallback".into())));
}

#[test]
fn acceptance_short_circuits_later_sources() {
    // The first source accepts: the trail stops at one entry even though a
    // second source could also have supplied a value.
    let first = Hardcoded::new(RawValue::Text("first".into()));
    let second = Hardcoded::new(RawValue::Text("second".into()));
    let strategy = ConfigurationStrategy::new(vec![
        ConfigurationValueSource::Hardcoded(first),
        ConfigurationValueSource::Hardcoded(second),
    ]);
    let mut ci = ConfigurationItem::new("Greeting".to_string(), None, ValueKind::Text);
    let res = strategy.try_get(&mut ci);
    assert_eq!(res.attempts.len(), 1);
    assert!(res.attempts[0].is_ok());
    assert_eq!(ci.get(), &Some(RawValue::Text("first".into())));
}

#[test]
fn exhausted_trail_covers_every_source_and_leaves_the_slot_empty() {
    let empty_env = Environment::new("APPNAME".into(), Vec::new());
    let wrong_kind = Hardcoded::new(RawValue::Bytes(vec![9]));
    let strategy = ConfigurationStrategy::new(vec![
        ConfigurationValueSource::Environment(empty_env),
        ConfigurationValueSource::Hardcoded(wrong_kind),
    ]);
    let mut ci = ConfigurationItem::new("Greeting".to_string(), None, ValueKind::Text);
    let res = strategy.try_get(&mut ci);
    assert_eq!(res.attempts.len(), 2);
    assert!(res.attempts.iter().all(|a| !a.is_ok()));
    assert_eq!(ci.get(), &None);
    assert_eq!(res.item_name, "Greeting");
}

#[test]
fn empty_source_list_is_exhausted_at_once() {
    let strategy = ConfigurationStrategy::new(Vec::new());
    let mut ci = ConfigurationItem::new("Greeting".to_string(), None, ValueKind::Text);
    let res = strategy.try_get(&mut ci);
    assert_eq!(res.attempts.len(), 0);
    assert_eq!(ci.get(), &None);
}

#[test]
fn attempt_is_ok_means_no_error() {
    let ok = Attempt::new(SourceLabel::Hardcoded, None);
    assert!(ok.is_ok());
    let failed = Attempt::new(
        SourceLabel::Environment,
        Some(layercfg::RejectReason::SourceUnavailable { key: "K".into() }),
    );
    assert!(!failed.is_ok());
}

#[test]
fn typed_candidate_of_matching_kind_is_taken_directly() {
    let strategy = ConfigurationStrategy::new(vec![ConfigurationValueSource::Hardcoded(
        Hardcoded::new(RawValue::Integer(-7)),
    )]);
    let mut ci = ConfigurationItem::new("Count".to_string(), None, ValueKind::Integer);
    let res = strategy.try_get(&mut ci);
    assert_eq!(res.attempts.len(), 1);
    assert_eq!(ci.get(), &Some(RawValue::Integer(-7)));
}

#[test]
fn hardcoded_text_parses_into_numeric_item() {
    let strategy = ConfigurationStrategy::new(vec![ConfigurationValueSource::Hardcoded(
        Hardcoded::new(RawValue::Text("-0.5".into())),
    )]);
    let mut ci = ConfigurationItem::new("Bias".to_string(), None, ValueKind::Numeric);
    strategy.try_get(&mut ci);
    assert_eq!(
        ci.get(),
        &Some(RawValue::Numeric(Decimal {
            negative: true,
            mantissa: 5,
            scale: 1
        }))
    );
}
