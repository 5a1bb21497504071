use argh::{parse, Arg, ParseError, ParseHint, ParseState};

/// Runs a parse whose callback answers by the event's debug text, and records every event.
fn record(
    tokens: &[&str],
    answer: impl Fn(&str) -> Option<ParseHint>,
) -> (Vec<String>, Result<(), ParseError>) {
    let mut seen = Vec::new();
    let r = parse(tokens, |arg| {
        let text = format!("{:?}", arg);
        let h = answer(&text);
        seen.push(text);
        h
    });
    (seen, r)
}

fn needs(names: &'static [&'static str]) -> impl Fn(&str) -> Option<ParseHint> {
    move |ev: &str| {
        if names.iter().any(|n| ev == format!("Opt({:?})", n)) {
            Some(ParseHint::ExpectParameter)
        } else {
            None
        }
    }
}

fn consumed(_: &str) -> Option<ParseHint> {
    None
}

#[test]
fn single_positional_event() {
    let (ev, r) = record(&["filename"], consumed);
    assert_eq!(ev, vec![r#"Pos("filename")"#]);
    assert_eq!(r, Ok(()));
}

#[test]
fn long_flag_has_no_further_event() {
    let (ev, r) = record(&["--help"], consumed);
    assert_eq!(ev, vec![r#"Opt("help")"#]);
    assert_eq!(r, Ok(()));
}

#[test]
fn long_option_takes_next_token() {
    let (ev, r) = record(&["--foo", "bar"], needs(&["foo"]));
    assert_eq!(ev, vec![r#"Opt("foo")"#, r#"OptPar("foo", "bar")"#]);
    assert_eq!(r, Ok(()));
}

#[test]
fn bundle_gives_flags_in_order() {
    let (ev, r) = record(&["-abc"], consumed);
    assert_eq!(ev, vec![r#"Opt("a")"#, r#"Opt("b")"#, r#"Opt("c")"#]);
    assert_eq!(r, Ok(()));
}

#[test]
fn bundle_end_takes_next_token() {
    let (ev, r) = record(&["-abc", "foo"], needs(&["c"]));
    assert_eq!(
        ev,
        vec![r#"Opt("a")"#, r#"Opt("b")"#, r#"Opt("c")"#, r#"OptPar("c", "foo")"#]
    );
    assert_eq!(r, Ok(()));
}

#[test]
fn bundle_tail_is_inline_value() {
    let (ev, r) = record(&["-abcfoo"], needs(&["c"]));
    assert_eq!(
        ev,
        vec![r#"Opt("a")"#, r#"Opt("b")"#, r#"Opt("c")"#, r#"OptPar("c", "foo")"#]
    );
    assert_eq!(r, Ok(()));
}

#[test]
fn mixed_input_event_order() {
    let tokens = ["--bag=bad", "foo", "-abcfoo", "bar", "--foobar", "--", "--baz"];
    let (ev, r) = record(&tokens, needs(&["bag", "c"]));
    assert_eq!(
        ev,
        vec![
            r#"Opt("bag")"#,
            r#"OptPar("bag", "bad")"#,
            r#"Pos("foo")"#,
            r#"Opt("a")"#,
            r#"Opt("b")"#,
            r#"Opt("c")"#,
            r#"OptPar("c", "foo")"#,
            r#"Pos("bar")"#,
            r#"Opt("foobar")"#,
            r#"Pos("--baz")"#,
        ]
    );
    assert_eq!(r, Ok(()));
}

#[test]
fn missing_value_at_end() {
    let (ev, r) = record(&["--foo"], needs(&["foo"]));
    assert_eq!(ev, vec![r#"Opt("foo")"#]);
    assert_eq!(r, Err(ParseError::MissingParameter("foo".to_string())));
}

#[test]
fn missing_value_after_bundle() {
    let (_, r) = record(&["-ac"], needs(&["c"]));
    assert_eq!(r, Err(ParseError::MissingParameter("c".to_string())));
}

#[test]
fn inline_value_for_flag_is_unexpected() {
    let (ev, r) = record(&["--foo=bar"], consumed);
    assert_eq!(ev, vec![r#"Opt("foo")"#]);
    assert_eq!(
        r,
        Err(ParseError::UnexpectedParameter("foo".to_string(), "bar".to_string()))
    );
}

#[test]
fn inline_value_splits_at_first_equals() {
    let (ev, r) = record(&["--k=a=b"], needs(&["k"]));
    assert_eq!(ev, vec![r#"Opt("k")"#, r#"OptPar("k", "a=b")"#]);
    assert_eq!(r, Ok(()));
}

#[test]
fn plain_tokens_all_positional() {
    let tokens = ["a", "b c", "x-y", "=", "é"];
    let (ev, r) = record(&tokens, |_| Some(ParseHint::InvalidOption));
    assert_eq!(
        ev,
        vec![r#"Pos("a")"#, r#"Pos("b c")"#, r#"Pos("x-y")"#, r#"Pos("=")"#, r#"Pos("é")"#]
    );
    assert_eq!(r, Ok(()));
}

#[test]
fn same_rule_gives_same_run() {
    let tokens = ["-xv", "--out", "f", "p", "--", "-q"];
    let first = record(&tokens, needs(&["out"]));
    let second = record(&tokens, needs(&["out"]));
    assert_eq!(first, second);
    assert_eq!(
        first.0,
        vec![
            r#"Opt("x")"#,
            r#"Opt("v")"#,
            r#"Opt("out")"#,
            r#"OptPar("out", "f")"#,
            r#"Pos("p")"#,
            r#"Pos("-q")"#,
        ]
    );
    assert_eq!(first.1, Ok(()));
}

#[test]
fn empty_token_is_skipped() {
    let (ev, r) = record(&["", "x", ""], consumed);
    assert_eq!(ev, vec![r#"Pos("x")"#]);
    assert_eq!(r, Ok(()));
}

#[test]
fn no_tokens() {
    let (ev, r) = record(&[], consumed);
    assert!(ev.is_empty());
    assert_eq!(r, Ok(()));
}

#[test]
fn lone_dash_is_positional() {
    let (ev, r) = record(&["-"], consumed);
    assert_eq!(ev, vec![r#"Pos("-")"#]);
    assert_eq!(r, Ok(()));
}

#[test]
fn everything_after_marker_is_positional() {
    let (ev, r) = record(&["--", "-a", "--b", "", "--", "c"], consumed);
    assert_eq!(
        ev,
        vec![r#"Pos("-a")"#, r#"Pos("--b")"#, r#"Pos("")"#, r#"Pos("--")"#, r#"Pos("c")"#]
    );
    assert_eq!(r, Ok(()));
}

#[test]
fn awaited_value_may_look_like_option() {
    let (ev, r) = record(&["--foo", "-x"], needs(&["foo"]));
    assert_eq!(ev, vec![r#"Opt("foo")"#, r#"OptPar("foo", "-x")"#]);
    assert_eq!(r, Ok(()));
}

#[test]
fn awaited_value_may_be_empty() {
    let (ev, r) = record(&["--foo", ""], needs(&["foo"]));
    assert_eq!(ev, vec![r#"Opt("foo")"#, r#"OptPar("foo", "")"#]);
    assert_eq!(r, Ok(()));
}

#[test]
fn unknown_long_option_stops_parse() {
    let (ev, r) = record(&["--nope", "x"], |_| Some(ParseHint::InvalidOption));
    assert_eq!(ev, vec![r#"Opt("nope")"#]);
    assert_eq!(r, Err(ParseError::InvalidOption("nope".to_string())));
}

#[test]
fn unknown_short_option_in_bundle() {
    let (ev, r) = record(&["-abz", "x"], |e| {
        if e == r#"Opt("b")"# {
            Some(ParseHint::InvalidOption)
        } else {
            None
        }
    });
    assert_eq!(ev, vec![r#"Opt("a")"#, r#"Opt("b")"#]);
    assert_eq!(r, Err(ParseError::InvalidOption("b".to_string())));
}

#[test]
fn unknown_option_with_inline_value() {
    let (_, r) = record(&["--q=1"], |_| Some(ParseHint::InvalidOption));
    assert_eq!(r, Err(ParseError::InvalidOption("q".to_string())));
}

#[test]
fn rejected_awaited_value_names_the_option() {
    let (ev, r) = record(&["--level", "high"], |e| {
        if e.starts_with("OptPar") {
            Some(ParseHint::InvalidValue("not a number".to_string()))
        } else {
            Some(ParseHint::ExpectParameter)
        }
    });
    assert_eq!(ev, vec![r#"Opt("level")"#, r#"OptPar("level", "high")"#]);
    assert_eq!(
        r,
        Err(ParseError::InvalidValue("level".to_string(), "not a number".to_string()))
    );
}

#[test]
fn unknown_answer_to_awaited_value_names_the_option() {
    let (_, r) = record(&["--level", "high"], |e| {
        if e.starts_with("OptPar") {
            Some(ParseHint::InvalidOption)
        } else {
            Some(ParseHint::ExpectParameter)
        }
    });
    assert_eq!(r, Err(ParseError::InvalidOption("level".to_string())));
}

#[test]
fn rejected_flag_value() {
    let (_, r) = record(&["-x"], |_| Some(ParseHint::InvalidValue("bad".to_string())));
    assert_eq!(
        r,
        Err(ParseError::InvalidValue("x".to_string(), "bad".to_string()))
    );
    let (_, r) = record(&["--long"], |_| Some(ParseHint::InvalidValue("bad".to_string())));
    assert_eq!(
        r,
        Err(ParseError::InvalidValue("long".to_string(), "bad".to_string()))
    );
}

#[test]
fn value_event_asking_for_value_is_invalid_hint() {
    let (ev, r) = record(&["--foo", "bar", "baz"], |_| Some(ParseHint::ExpectParameter));
    assert_eq!(ev, vec![r#"Opt("foo")"#, r#"OptPar("foo", "bar")"#]);
    assert_eq!(r, Err(ParseError::InvalidHint));
}

#[test]
fn reply_to_inline_value_is_not_consulted() {
    let (ev, r) = record(&["--foo=bar", "-cv"], |e| {
        if e.starts_with("OptPar") {
            Some(ParseHint::InvalidOption)
        } else {
            Some(ParseHint::ExpectParameter)
        }
    });
    assert_eq!(
        ev,
        vec![
            r#"Opt("foo")"#,
            r#"OptPar("foo", "bar")"#,
            r#"Opt("c")"#,
            r#"OptPar("c", "v")"#,
        ]
    );
    assert_eq!(r, Ok(()));
}

#[test]
fn bundle_of_non_ascii_characters() {
    let (ev, r) = record(&["-éß"], consumed);
    assert_eq!(ev, vec![r#"Opt("é")"#, r#"Opt("ß")"#]);
    assert_eq!(r, Ok(()));
}

#[test]
fn step_from_each_state() {
    let mut seen = Vec::new();
    let mut cb = |arg: Arg| {
        seen.push(format!("{:?}", arg));
        None
    };
    assert!(matches!(ParseState::Void.parse("x", &mut cb), Ok(ParseState::Void)));
    assert!(matches!(ParseState::Void.parse("--", &mut cb), Ok(ParseState::ForcePos)));
    assert!(matches!(ParseState::ForcePos.parse("-y", &mut cb), Ok(ParseState::ForcePos)));
    assert!(matches!(ParseState::Dash.parse("", &mut cb), Ok(ParseState::Void)));
    assert!(matches!(ParseState::DoubleDash.parse("z", &mut cb), Ok(ParseState::Void)));
    assert!(matches!(ParseState::Combo.parse("mn", &mut cb), Ok(ParseState::Void)));
    assert!(matches!(
        ParseState::Parameter("o".to_string()).parse("", &mut cb),
        Ok(ParseState::Void)
    ));
    assert_eq!(
        seen,
        vec![
            r#"Pos("x")"#,
            r#"Pos("-y")"#,
            r#"Pos("-")"#,
            r#"Opt("z")"#,
            r#"Opt("m")"#,
            r#"Opt("n")"#,
            r#"OptPar("o", "")"#,
        ]
    );
}

#[test]
fn step_awaits_value() {
    let r = ParseState::Void.parse("--out", |_| Some(ParseHint::ExpectParameter));
    match r {
        Ok(ParseState::Parameter(name)) => assert_eq!(name, "out"),
        other => panic!("unexpected {:?}", other),
    }
}

#[test]
fn error_messages() {
    assert_eq!(
        ParseError::InvalidOption("x".to_string()).message(),
        "Invalid option: x"
    );
    assert_eq!(
        ParseError::MissingParameter("foo".to_string()).message(),
        "Missing parameter for foo"
    );
    assert_eq!(
        ParseError::UnexpectedParameter("foo".to_string(), "bar".to_string()).message(),
        "Unexpected parameter for foo: bar"
    );
    assert_eq!(
        ParseError::InvalidValue("n".to_string(), "too big".to_string()).message(),
        "Invalid value for n: too big"
    );
    assert_eq!(
        ParseError::InvalidHint.message(),
        "Handler returned an invalid parse hint"
    );
}
