use layercfg::cli::{ChoiceOutcome, ChoicesOutcome, Error, CLI};

#[test]
fn it() {
    let mut cli = CLI::new();

    let myflag = cli.flag("--myflag-set", "--myflag-unset", "my unittest flag");

    let args = vec!["--myflag-set".into()];

    let values = cli.args(&args).unwrap();

    let myflagval = values.flag_value(myflag).unwrap();

    assert_eq!(true, myflagval);
}

#[test]
fn flag_set_unset_and_absent() {
    let declare = || {
        let mut cli = CLI::new();
        let h = cli.flag("--myflag-set", "--myflag-unset", "my unittest flag");
        (cli, h)
    };

    let (cli, h) = declare();
    let values = cli.args(&vec!["--myflag-set".into()]).unwrap();
    assert_eq!(values.flag_value(h), Some(true));

    let (cli, h) = declare();
    let values = cli.args(&vec!["--myflag-unset".into()]).unwrap();
    assert_eq!(values.flag_value(h), Some(false));

    let (cli, h) = declare();
    let values = cli.args(&vec![]).unwrap();
    assert_eq!(values.flag_value(h), None);
}

#[test]
fn option_forms_resolve_identically() {
    let two_tokens = {
        let mut cli = CLI::new();
        let h = cli.opt("--name", "an option");
        let values = cli
            .args(&vec!["--name".into(), "value".into()])
            .unwrap();
        values.opt_value(h)
    };
    let one_token = {
        let mut cli = CLI::new();
        let h = cli.opt("--name", "an option");
        let values = cli.args(&vec!["--name=value".into()]).unwrap();
        values.opt_value(h)
    };
    assert_eq!(two_tokens, Some("value".to_string()));
    assert_eq!(two_tokens, one_token);
}

#[test]
fn option_with_no_value_is_fatal() {
    let mut cli = CLI::new();
    let _h = cli.opt("--name", "an option");
    let res = cli.args(&vec!["--name".into()]);
    assert_eq!(res.err(), Some(Error::NoValueForOption));
}

#[test]
fn option_right_before_terminator_is_fatal() {
    let mut cli = CLI::new();
    let _h = cli.opt("--name", "an option");
    let res = cli.args(&vec!["--name".into(), "--".into()]);
    assert_eq!(res.err(), Some(Error::NoValueForOption));
}

#[test]
fn nothing_after_the_terminator_is_scanned() {
    let mut cli = CLI::new();
    let f = cli.flag("--myflag-set", "--myflag-unset", "a flag");
    let o = cli.opt("--name", "an option");
    let values = cli
        .args(&vec![
            "--".into(),
            "--myflag-set".into(),
            "--name".into(),
            "value".into(),
        ])
        .unwrap();
    assert_eq!(values.flag_value(f), None);
    assert_eq!(values.opt_value(o), None);
}

#[test]
fn last_occurrence_wins() {
    let mut cli = CLI::new();
    let f = cli.flag("--myflag-set", "--myflag-unset", "a flag");
    let o = cli.opt("--name", "an option");
    let values = cli
        .args(&vec![
            "--myflag-set".into(),
            "--name=a".into(),
            "--myflag-unset".into(),
            "--name".into(),
            "b".into(),
        ])
        .unwrap();
    assert_eq!(values.flag_value(f), Some(false));
    assert_eq!(values.opt_value(o), Some("b".to_string()));
}

#[test]
fn descriptors_of_every_sort_are_scanned() {
    let mut cli = layercfg::cli::new();
    let f = cli.flag("--a-set", "--a-unset", "flag");
    let o = cli.opt("--b", "opt");
    let om = cli.opt_many("--c", "opt many");
    let c = cli.choice("--d", "choice", vec!["x".into(), "y".into()]);
    let cm = cli.choice_many("--e", "choice many", vec!["x".into(), "y".into()]);
    assert_eq!((f, o, om, c, cm), (0, 0, 0, 0, 0));
    let values = cli
        .args(&vec![
            "--a-set".into(),
            "--b=beta".into(),
            "--c".into(),
            "one".into(),
            "--d=y".into(),
            "--e=x".into(),
            "--c=two".into(),
            "--e".into(),
            "y".into(),
        ])
        .unwrap();
    assert_eq!(values.flag_value(f), Some(true));
    assert_eq!(values.opt_value(o), Some("beta".to_string()));
    assert_eq!(
        values.opt_many_value(om),
        &Some(vec!["one".to_string(), "two".to_string()])
    );
    assert_eq!(
        values.choice_value(c),
        &ChoiceOutcome::Selected {
            value: "y".to_string()
        }
    );
    assert_eq!(
        values.choice_many_value(cm),
        &ChoicesOutcome::Selected {
            values: vec!["x".to_string(), "y".to_string()]
        }
    );
}

#[test]
fn absent_descriptors_resolve_to_unset() {
    let mut cli = layercfg::cli::new();
    let o = cli.opt("--b", "opt");
    let om = cli.opt_many("--c", "opt many");
    let c = cli.choice("--d", "choice", vec!["x".into()]);
    let cm = cli.choice_many("--e", "choice many", vec!["x".into()]);
    let values = cli.args(&vec![]).unwrap();
    assert_eq!(values.opt_value(o), None);
    assert_eq!(values.opt_many_value(om), &None);
    assert_eq!(values.choice_value(c), &ChoiceOutcome::Unset);
    assert_eq!(values.choice_many_value(cm), &ChoicesOutcome::Unset);
}

#[test]
fn opt_many_collects_occurrences_in_order_before_terminator() {
    let mut cli = layercfg::cli::new();
    let om = cli.opt_many("--c", "opt many");
    let values = cli
        .args(&vec![
            "--c".into(),
            "a".into(),
            "--c=b".into(),
            "--".into(),
            "--c=c".into(),
        ])
        .unwrap();
    assert_eq!(
        values.opt_many_value(om),
        &Some(vec!["a".to_string(), "b".to_string()])
    );
}

#[test]
fn choice_outside_the_declared_set_is_a_typed_outcome() {
    let mut cli = layercfg::cli::new();
    let c = cli.choice("--d", "choice", vec!["x".into(), "y".into()]);
    let values = cli.args(&vec!["--d=z".into()]).unwrap();
    assert_eq!(
        values.choice_value(c),
        &ChoiceOutcome::NotAChoice {
            value: "z".to_string()
        }
    );
}

#[test]
fn choice_many_reports_the_first_value_outside_the_set() {
    let mut cli = layercfg::cli::new();
    let cm = cli.choice_many("--e", "choice many", vec!["x".into(), "y".into()]);
    let values = cli
        .args(&vec!["--e=x".into(), "--e=z".into(), "--e=w".into()])
        .unwrap();
    assert_eq!(
        values.choice_many_value(cm),
        &ChoicesOutcome::NotAChoice {
            value: "z".to_string()
        }
    );
}

#[test]
fn bare_multi_value_or_choice_name_is_fatal() {
    let mut cli = layercfg::cli::new();
    let _om = cli.opt_many("--c", "opt many");
    assert_eq!(cli.args(&vec!["--c".into()]).err(), Some(Error::NoValueForOption));

    let mut cli = layercfg::cli::new();
    let _c = cli.choice("--d", "choice", vec!["x".into()]);
    assert_eq!(cli.args(&vec!["--d".into()]).err(), Some(Error::NoValueForOption));

    let mut cli = layercfg::cli::new();
    let _cm = cli.choice_many("--e", "choice many", vec!["x".into()]);
    assert_eq!(
        cli.args(&vec!["--e".into(), "--".into()]).err(),
        Some(Error::NoValueForOption)
    );
}
