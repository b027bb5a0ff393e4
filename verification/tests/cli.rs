use yapper::cli::{
    launch, parse, stopped_message, Invocation, Launch, Options, APP_ID, QUICK_APP_ID, USAGE,
};

fn parse_args(args: &[&str]) -> Invocation {
    parse(args.iter().map(|s| s.to_string()).collect())
}

#[test]
fn no_arguments_runs_the_normal_window() {
    assert!(matches!(
        parse_args(&[]),
        Invocation::Run(Options { quick: false })
    ));
}

#[test]
fn quick_has_a_short_and_a_long_form() {
    assert!(matches!(
        parse_args(&["-q"]),
        Invocation::Run(Options { quick: true })
    ));
    assert!(matches!(
        parse_args(&["--quick"]),
        Invocation::Run(Options { quick: true })
    ));
}

#[test]
fn help_and_version_win_over_everything_else() {
    assert!(matches!(parse_args(&["--quick", "--help"]), Invocation::Help));
    assert!(matches!(parse_args(&["-V"]), Invocation::Version));
}

#[test]
fn an_unknown_argument_is_reported_rather_than_ignored() {
    let Invocation::Invalid(message) = parse_args(&["--turbo"]) else {
        panic!("expected an error");
    };
    assert!(message.contains("--turbo"), "{message}");
}

#[test]
fn the_first_argument_that_decides_is_the_one_that_does() {
    assert!(matches!(parse_args(&["-h", "--turbo"]), Invocation::Help));
    assert!(matches!(parse_args(&["-V", "-h"]), Invocation::Version));
    assert!(matches!(parse_args(&["--stop-daemon", "--version"]), Invocation::Version));
    let Invocation::Invalid(message) = parse_args(&["-q", "file.wav", "--help"]) else {
        panic!("expected an error");
    };
    assert_eq!(message, "unrecognised argument: file.wav");
}

#[test]
fn stopping_is_asked_for_by_name() {
    assert!(matches!(
        parse_args(&["--stop-daemon"]),
        Invocation::StopDaemon(Options { quick: false })
    ));
    assert!(matches!(
        parse_args(&["--stop-daemon", "-q"]),
        Invocation::StopDaemon(Options { quick: true })
    ));
    assert!(USAGE.contains("--stop-daemon"));
}

#[test]
fn quick_capture_needs_a_clipboard_that_outlives_it() {
    assert!(matches!(launch(parse_args(&["-q"]), false), Launch::NoClipboard));
    assert!(matches!(launch(parse_args(&["-q"]), true), Launch::Run(Options { quick: true })));
    assert!(matches!(launch(parse_args(&[]), false), Launch::Run(Options { quick: false })));
    assert!(matches!(launch(parse_args(&["--stop-daemon"]), false), Launch::StopDaemon));
    assert!(matches!(launch(parse_args(&["--stop-daemon", "-q"]), false), Launch::NoClipboard));
    assert!(matches!(launch(parse_args(&["-h"]), false), Launch::Usage));
    assert!(matches!(launch(parse_args(&["-V"]), false), Launch::Version));
    assert!(matches!(launch(parse_args(&["x"]), false), Launch::Refuse(_)));
}

#[test]
fn quick_capture_copies_and_goes_by_a_name_of_its_own() {
    let quick = Options { quick: true };
    assert!(quick.copy_output() && !quick.type_output());
    assert!(!Options::default().copy_output());
    assert_eq!(quick.application_id(), QUICK_APP_ID);
    assert_eq!(Options::default().application_id(), APP_ID);
    assert_eq!(stopped_message(true), "yapper: quick capture stopped");
    assert_eq!(stopped_message(false), "yapper: no quick capture process running");
}
