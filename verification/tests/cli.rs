use lib::cli::{parse_args, CliOptions, CliRequest};

fn args_of(list: &[&str]) -> Vec<String> {
    list.iter().map(|s| s.to_string()).collect()
}

fn options(args: &[String]) -> CliOptions {
    match parse_args(args).unwrap() {
        CliRequest::Compile(opts) => opts,
        CliRequest::Help => panic!("unexpected help request"),
        CliRequest::Version => panic!("unexpected version request"),
    }
}

fn error_of(args: &[String]) -> String {
    match parse_args(args) {
        Err(msg) => msg,
        Ok(_) => panic!("expected an error"),
    }
}

#[test]
fn parse_args_help_exits() {
    // --help ends argument parsing with a request to print the usage text.
    let args = vec!["rcc".to_string(), "--help".to_string()];
    assert!(matches!(parse_args(&args), Ok(CliRequest::Help)));
}

#[test]
fn parse_args_basic_input() {
    let args = vec!["rcc".to_string(), "test.c".to_string()];
    let opts = options(&args);
    assert_eq!(opts.input, Some("test.c".to_string()));
    assert!(!opts.compile_only);
    assert_eq!(opts.output, None);
}

#[test]
fn parse_args_compile_only() {
    let args = vec!["rcc".to_string(), "-c".to_string(), "test.c".to_string()];
    let opts = options(&args);
    assert!(opts.compile_only);
}

#[test]
fn parse_args_output_flag() {
    let args = vec![
        "rcc".to_string(),
        "-o".to_string(),
        "output.o".to_string(),
        "test.c".to_string(),
    ];
    let opts = options(&args);
    assert_eq!(opts.output, Some("output.o".to_string()));
}

#[test]
fn parse_args_unknown_flag() {
    let args = vec!["rcc".to_string(), "--bogus".to_string()];
    assert!(parse_args(&args).is_err());
}

#[test]
fn parse_args_missing_output_value() {
    let args = vec!["rcc".to_string(), "-o".to_string()];
    assert!(parse_args(&args).is_err());
}

#[test]
fn parse_args_multiple_inputs() {
    let args = vec!["rcc".to_string(), "a.c".to_string(), "b.c".to_string()];
    assert!(parse_args(&args).is_err());
}

#[test]
fn parse_args_error_messages() {
    assert_eq!(error_of(&args_of(&["rcc", "--bogus"])), "unknown flag: --bogus");
    assert_eq!(error_of(&args_of(&["rcc", "-"])), "unknown flag: -");
    assert_eq!(error_of(&args_of(&["rcc", "-o"])), "-o requires a filename argument");
    assert_eq!(error_of(&args_of(&["rcc", "a.c", "b.c"])), "unexpected argument: b.c");
}

#[test]
fn parse_args_short_and_long_forms() {
    assert!(matches!(parse_args(&args_of(&["rcc", "-h"])), Ok(CliRequest::Help)));
    assert!(matches!(parse_args(&args_of(&["rcc", "--version"])), Ok(CliRequest::Version)));
    assert!(matches!(parse_args(&args_of(&["rcc", "-V"])), Ok(CliRequest::Version)));
}

#[test]
fn parse_args_reads_left_to_right() {
    // An error before --help wins; --help before an error wins.
    assert!(parse_args(&args_of(&["rcc", "--bogus", "--help"])).is_err());
    assert!(matches!(parse_args(&args_of(&["rcc", "--help", "--bogus"])), Ok(CliRequest::Help)));
    // The value after -o is taken as a file name even when it looks like a flag.
    let opts = options(&args_of(&["rcc", "-o", "-c", "x.c"]));
    assert_eq!(opts.output, Some("-c".to_string()));
    assert!(!opts.compile_only);
    assert_eq!(opts.input, Some("x.c".to_string()));
}

#[test]
fn parse_args_no_arguments() {
    let opts = options(&args_of(&["rcc"]));
    assert_eq!(opts.input, None);
    assert_eq!(opts.output, None);
    assert!(!opts.compile_only);
    let opts = options(&[]);
    assert_eq!(opts.input, None);
}

