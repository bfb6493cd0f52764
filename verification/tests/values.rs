use layercfg::command_line::{CommandLine, CommandLineOutcome};
use layercfg::environment_variable::{is_valid_name, EnvironmentVariable, EnvVarOutcome};
use layercfg::item::ConfigurationItem;
use layercfg::value::{
    parse_bool, parse_decimal, parse_i64, AcceptError, Decimal, OsText, RawValue, ValueKind,
};

#[test]
fn integers_parse_with_signs() {
    assert_eq!(parse_i64("42"), Some(42));
    assert_eq!(parse_i64("-7"), Some(-7));
    assert_eq!(parse_i64("+13"), Some(13));
    assert_eq!(parse_i64("0"), Some(0));
}

#[test]
fn integer_bounds_are_exact() {
    assert_eq!(parse_i64("9223372036854775807"), Some(i64::MAX));
    assert_eq!(parse_i64("9223372036854775808"), None);
    assert_eq!(parse_i64("-9223372036854775808"), Some(i64::MIN));
    assert_eq!(parse_i64("-9223372036854775809"), None);
    assert_eq!(parse_i64("99999999999999999999999"), None);
}

#[test]
fn bad_integer_grammar_is_refused() {
    assert_eq!(parse_i64(""), None);
    assert_eq!(parse_i64("-"), None);
    assert_eq!(parse_i64("abc"), None);
    assert_eq!(parse_i64("4 2"), None);
    assert_eq!(parse_i64("4.2"), None);
}

#[test]
fn booleans_are_exactly_the_two_literals() {
    assert_eq!(parse_bool("true"), Some(true));
    assert_eq!(parse_bool("false"), Some(false));
    assert_eq!(parse_bool("True"), None);
    assert_eq!(parse_bool("1"), None);
    assert_eq!(parse_bool(""), None);
}

#[test]
fn decimals_parse_to_mantissa_and_scale() {
    assert_eq!(
        parse_decimal("43.1"),
        Some(Decimal {
            negative: false,
            mantissa: 431,
            scale: 1
        })
    );
    assert_eq!(
        parse_decimal("-0.5"),
        Some(Decimal {
            negative: true,
            mantissa: 5,
            scale: 1
        })
    );
    assert_eq!(
        parse_decimal("43"),
        Some(Decimal {
            negative: false,
            mantissa: 43,
            scale: 0
        })
    );
}

#[test]
fn bad_decimal_grammar_is_refused() {
    assert_eq!(parse_decimal("43."), None);
    assert_eq!(parse_decimal(".5"), None);
    assert_eq!(parse_decimal("4.3.1"), None);
    assert_eq!(parse_decimal(""), None);
    assert_eq!(parse_decimal("-"), None);
    assert_eq!(parse_decimal("18446744073709551616"), None);
}

#[test]
fn item_accepts_matching_kind_directly() {
    let mut ci = ConfigurationItem::new("Flagged".to_string(), None, ValueKind::Boolean);
    assert_eq!(ci.try_value(RawValue::Boolean(true)), None);
    assert_eq!(ci.get(), &Some(RawValue::Boolean(true)));
}

#[test]
fn item_refuses_a_candidate_with_no_coercion_path() {
    let mut ci = ConfigurationItem::new("Blob".to_string(), None, ValueKind::Bytes);
    let res = ci.try_value(RawValue::Text("abc".into()));
    assert_eq!(res, Some(AcceptError::ValueNotHandled));
    assert_eq!(ci.get(), &None);
}

#[test]
fn item_reports_parse_failures() {
    let mut ci = ConfigurationItem::new("Count".to_string(), None, ValueKind::Integer);
    let res = ci.try_value(RawValue::Text("twelve".into()));
    assert_eq!(res, Some(AcceptError::ParseFailed));
    assert_eq!(ci.get(), &None);
}

#[test]
fn item_identity_is_name_and_group() {
    let ci = ConfigurationItem::new(
        "Limit".to_string(),
        Some("Network".to_string()),
        ValueKind::Integer,
    );
    assert_eq!(ci.get_name(), "Limit");
    assert_eq!(ci.get_group(), Some("Network"));
    let top = ConfigurationItem::new("Limit".to_string(), None, ValueKind::Integer);
    assert_eq!(top.get_group(), None);
}

#[test]
fn environment_variable_names_are_validated() {
    assert!(is_valid_name("APPNAME_MY_THRESHOLD"));
    assert!(!is_valid_name(""));
    assert!(!is_valid_name("A=B"));
}

#[test]
fn environment_variable_classifies_every_outcome() {
    let empty = EnvironmentVariable::new("", None);
    assert!(matches!(
        empty.result,
        EnvVarOutcome::InvalidEnvironmentVariableName { .. }
    ));

    let eq = EnvironmentVariable::new("A=B", Some(OsText::Unicode("x".into())));
    assert!(matches!(
        eq.result,
        EnvVarOutcome::InvalidEnvironmentVariableName { .. }
    ));

    let unset = EnvironmentVariable::new("NAME", None);
    assert_eq!(unset.result, EnvVarOutcome::EnvironmentVariableWasNotSet);

    let garbled = EnvironmentVariable::new("NAME", Some(OsText::NotUnicode));
    assert_eq!(
        garbled.result,
        EnvVarOutcome::EnvironmentVariableValueWasNotUnicode
    );

    let set = EnvironmentVariable::new("NAME", Some(OsText::Unicode("v".into())));
    assert_eq!(
        set.result,
        EnvVarOutcome::Success {
            value: "v".to_string()
        }
    );
}

#[test]
fn command_line_classifies_every_outcome() {
    let none = CommandLine::new(Vec::new());
    assert_eq!(none.result, CommandLineOutcome::NoCommandLineArguments);

    let tainted = CommandLine::new(vec![
        OsText::Unicode("ok".into()),
        OsText::NotUnicode,
    ]);
    assert!(matches!(
        tainted.result,
        CommandLineOutcome::SomeArgumentsWereNotValidUnicode { .. }
    ));

    let clean = CommandLine::new(vec![
        OsText::Unicode("bin".into()),
        OsText::Unicode("--verbose".into()),
    ]);
    assert_eq!(
        clean.result,
        CommandLineOutcome::Success {
            args: vec!["bin".to_string(), "--verbose".to_string()]
        }
    );
}
