use oflh::cli::{parse_arguments, Arguments};

fn parse(args: &[&str]) -> Result<Arguments, String> {
    parse_arguments(args.iter().map(|a| a.as_bytes().to_vec()).collect())
}

#[test]
fn port_options_and_literal_paths() {
    let args = parse(&["--port", "3000", "--here", "."]).unwrap();
    assert!(args.view.ports && args.view.ports_path_only);
    assert_eq!(args.view.port, Some(3000));
    assert_eq!(args.path, Some(b".".to_vec()));
    for args in [
        &["--port"][..],
        &["--port", "0"],
        &["--port", "65536"],
        &["--port", "abc"],
    ] {
        assert!(parse(args).is_err());
    }
    assert_eq!(
        parse(&["--", "--ports"]).unwrap().path,
        Some(b"--ports".to_vec())
    );
    assert!(!parse(&["3000"]).unwrap().view.ports);
}

#[test]
fn help_version_and_usage_errors() {
    assert!(parse(&["--help", "--bogus"]).unwrap().help);
    assert!(parse(&["-h"]).unwrap().help);
    assert!(parse(&["-version"]).unwrap().version);
    assert_eq!(parse(&["--bogus"]).unwrap_err(), "unknown option: --bogus");
    assert_eq!(
        parse(&["one", "two"]).unwrap_err(),
        "expected one path; quote paths containing spaces"
    );
    assert_eq!(
        parse(&["--port", "0"]).unwrap_err(),
        "--port requires a number from 1 to 65535"
    );
    let args = parse(&["--ports"]).unwrap();
    assert!(args.view.ports && !args.view.ports_path_only && args.view.port.is_none());
    assert!(args.path.is_none());
    assert_eq!(parse(&["--port", "+80"]).unwrap().view.port, Some(80));
    // after the path, everything is positional
    assert!(parse(&[".", "--help"]).is_err());
}
