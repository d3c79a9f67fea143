use std::collections::HashMap;

use prepost::argparse::{ArgParseError, Argument, ArgumentParser, ErrorKind, ParsedArguments};

fn to_map(p: &ParsedArguments) -> HashMap<String, Vec<String>> {
    let mut m = HashMap::new();
    for i in 0..p.len() {
        let k = p.key(i).clone();
        let v = p.get(k.as_str()).unwrap().clone();
        m.insert(k, v);
    }
    m
}

fn strings(v: &[&str]) -> Vec<String> {
    v.iter().map(|s| s.to_string()).collect()
}

fn kind_of(r: Result<ParsedArguments, ArgParseError>) -> ErrorKind {
    r.unwrap_err().kind
}

#[test]
fn without_arguments() {
    let parser = ArgumentParser::new();
    assert_eq!(parser.parse_args(vec![]).ok().map(|p| to_map(&p)), Some(HashMap::new()));
}

#[test]
fn no_double_dashes() {
    assert!(ArgumentParser::new()
        .parse_args(vec!["-a=4".into()])
        .is_err());
}

#[test]
fn no_arg_name() {
    assert!(ArgumentParser::new()
        .parse_args(vec!["--a=567".into(), "--=error".into()])
        .is_err());
}

#[test]
fn no_value() {
    assert!(ArgumentParser::new()
        .parse_args(vec!["--pre=".into()])
        .is_err());
}

#[test]
fn with_required_arguments() {
    let mut parser = ArgumentParser::new();

    parser.add_argument(Argument {
        name: "test".into(),
        description: "This is a test parameter".into(),
        required: true,
        multiple: false,
    });

    parser.add_argument(Argument {
        name: "other".into(),
        description: "Other argument".into(),
        required: false,
        multiple: false,
    });

    assert!(parser.parse_args(vec!["--test=ls -la".into()]).is_ok());
    assert!(parser.parse_args(vec!["--other=whoami".into()]).is_err());
    assert!(parser
        .parse_args(vec!["--test=whoami".into(), "--other=hello".into()])
        .is_ok());
}

#[test]
fn with_multiple_arguments() {
    let mut parser = ArgumentParser::new();

    parser.add_argument(Argument {
        name: "mult".into(),
        description: "Multiple".into(),
        multiple: true,
        required: true,
    });

    let mut expected_args: HashMap<String, Vec<String>> = HashMap::new();
    expected_args.insert("mult".into(), vec!["1".into(), "2".into()]);

    assert_eq!(
        parser
            .parse_args(vec!["--mult=1".into(), "--mult=2".into()])
            .ok()
            .map(|p| to_map(&p)),
        Some(expected_args)
    );
}

#[test]
fn malformed_prefix_kinds() {
    let parser = ArgumentParser::new();
    for t in ["-a=4", "a=4", "", "-", "x--a=1"] {
        let e = parser.parse_args(strings(&[t, "--b=2"])).unwrap_err();
        assert_eq!(e.kind, ErrorKind::MalformedPrefix);
        assert_eq!(e.arg, t);
        assert_eq!(e.reason(), "does not start with double dashes (--)");
    }
}

#[test]
fn missing_delimiter_kind() {
    let parser = ArgumentParser::new();
    for t in ["--abc", "--", "--a b"] {
        let e = parser.parse_args(strings(&[t])).unwrap_err();
        assert_eq!(e.kind, ErrorKind::MissingDelimiter);
        assert_eq!(e.arg, t);
    }
}

#[test]
fn incomplete_argument_kind() {
    let parser = ArgumentParser::new();
    assert_eq!(kind_of(parser.parse_args(strings(&["--=x"]))), ErrorKind::IncompleteArgument);
    assert_eq!(kind_of(parser.parse_args(strings(&["--a="]))), ErrorKind::IncompleteArgument);
    assert_eq!(kind_of(parser.parse_args(strings(&["--="]))), ErrorKind::IncompleteArgument);
}

#[test]
fn stops_at_first_bad_token() {
    let parser = ArgumentParser::new();
    let e = parser.parse_args(strings(&["--a=1", "--b", "c"])).unwrap_err();
    assert_eq!(e.kind, ErrorKind::MissingDelimiter);
    assert_eq!(e.arg, "--b");
}

#[test]
fn value_keeps_later_equal_signs() {
    let parser = ArgumentParser::new();
    let p = parser.parse_args(strings(&["--env=A=B=C"])).unwrap();
    assert_eq!(p.get("env"), Some(&strings(&["A=B=C"])));
}

#[test]
fn keys_in_first_seen_order_and_values_in_input_order() {
    let parser = ArgumentParser::new();
    let p = parser
        .parse_args(strings(&["--b=1", "--a=x", "--b=2", "--a=y", "--b=3"]))
        .unwrap();
    assert_eq!(p.len(), 2);
    assert_eq!(p.key(0), "b");
    assert_eq!(p.key(1), "a");
    assert_eq!(p.get("b"), Some(&strings(&["1", "2", "3"])));
    assert_eq!(p.get("a"), Some(&strings(&["x", "y"])));
    assert_eq!(p.get("c"), None);
    assert!(!p.is_empty());
}

#[test]
fn missing_required_names_argument() {
    let mut parser = ArgumentParser::new();
    parser.add_argument(Argument {
        name: "test".into(),
        description: "".into(),
        required: true,
        multiple: false,
    });
    let e = parser.parse_args(strings(&["--other=1"])).unwrap_err();
    assert_eq!(e.kind, ErrorKind::MissingRequired);
    assert_eq!(e.arg, "test");
    assert_eq!(e.reason(), "is required");
    let p = parser.parse_args(strings(&["--test=1"])).unwrap();
    assert_eq!(p.get("test"), Some(&strings(&["1"])));
}

#[test]
fn token_error_comes_before_missing_required() {
    let mut parser = ArgumentParser::new();
    parser.add_argument(Argument {
        name: "cmd".into(),
        description: "".into(),
        required: true,
        multiple: false,
    });
    let e = parser.parse_args(strings(&["cmd=1"])).unwrap_err();
    assert_eq!(e.kind, ErrorKind::MalformedPrefix);
}

#[test]
fn repeated_key_without_multiple_is_kept() {
    let mut parser = ArgumentParser::new();
    parser.add_argument(Argument {
        name: "cmd".into(),
        description: "".into(),
        required: true,
        multiple: false,
    });
    let p = parser.parse_args(strings(&["--cmd=a", "--cmd=b"])).unwrap();
    assert_eq!(p.get("cmd"), Some(&strings(&["a", "b"])));
}

#[test]
fn parsing_twice_gives_same_result() {
    let parser = ArgumentParser::new();
    let tokens = strings(&["--x=1", "--y=2", "--x=3"]);
    let a = parser.parse_args(tokens.clone()).unwrap();
    let b = parser.parse_args(tokens).unwrap();
    assert_eq!(to_map(&a), to_map(&b));
    assert_eq!(a.key(0), b.key(0));
    assert_eq!(a.key(1), b.key(1));
}

#[test]
fn non_ascii_key_and_value() {
    let parser = ArgumentParser::new();
    let p = parser.parse_args(strings(&["--clé=été"])).unwrap();
    assert_eq!(p.key(0), "clé");
    assert_eq!(p.get("clé"), Some(&strings(&["été"])));
}
