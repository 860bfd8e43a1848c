use ropener::config::ConfigError;
use ropener::detect::DetectError;
use ropener::message::{decimal_text, describe};
use ropener::pipeline::Fatal;

#[test]
fn numbers_are_written_in_base_ten() {
    assert_eq!(decimal_text(0), "0");
    assert_eq!(decimal_text(7), "7");
    assert_eq!(decimal_text(10), "10");
    assert_eq!(decimal_text(127), "127");
    assert_eq!(decimal_text(1000), "1000");
    assert_eq!(decimal_text(-1), "-1");
    assert_eq!(decimal_text(-120), "-120");
    assert_eq!(decimal_text(i32::MAX), "2147483647");
    assert_eq!(decimal_text(i32::MIN), "-2147483648");
}

#[test]
fn numbers_are_written_as_the_standard_library_writes_them() {
    let mut n: i32 = -2000;
    while n <= 2000 {
        assert_eq!(decimal_text(n), n.to_string());
        n += 1;
    }
    for n in [99_999, 100_000, 123_456_789, -987_654_321, 1_000_000_000] {
        assert_eq!(decimal_text(n), n.to_string());
    }
}

#[test]
fn failed_inspection_names_file_code_and_output() {
    let error = Fatal::Detect(DetectError::Failed {
        path: "/tmp/a b".to_string(),
        code: Some(1),
        output: b"cannot open `/tmp/a b'\n".to_vec(),
    });
    assert_eq!(
        describe(&error),
        "Failed to read mime type of /tmp/a b: error 1: cannot open `/tmp/a b'\n"
    );
}

#[test]
fn failed_inspection_without_code_or_text() {
    let error = Fatal::Detect(DetectError::Failed {
        path: "x".to_string(),
        code: None,
        output: vec![b'a', 0xff, b'b'],
    });
    assert_eq!(describe(&error), "Failed to read mime type of x: error unknown: a\u{fffd}b");
    let error = Fatal::Detect(DetectError::Failed {
        path: String::new(),
        code: Some(-15),
        output: Vec::new(),
    });
    assert_eq!(describe(&error), "Failed to read mime type of : error -15: ");
}

#[test]
fn failed_launch_names_the_command() {
    let error = Fatal::LaunchFailed { command: "xdg-open".to_string() };
    assert_eq!(describe(&error), "failed to execute xdg-open");
}

#[test]
fn each_error_has_its_line() {
    assert_eq!(describe(&Fatal::MissingArgument), "Need file path");
    assert_eq!(describe(&Fatal::DetectorUnavailable), "failed to execute file command");
    assert_eq!(
        describe(&Fatal::Detect(DetectError::NotText)),
        "Failed to convert file command output to String"
    );
    assert_eq!(
        describe(&Fatal::Detect(DetectError::NoSeparator)),
        "Failed to find ': ' in file output"
    );
    assert_eq!(
        describe(&Fatal::Detect(DetectError::NoSubtype)),
        "Failed to find '/' in file output"
    );
    assert_eq!(describe(&Fatal::ConfigUnreadable), "Failed to read config file");
    assert_eq!(describe(&Fatal::Config(ConfigError::Unparseable)), "Failed to parse config file");
    assert_eq!(describe(&Fatal::Config(ConfigError::NotATable)), "Config is not a table");
    assert_eq!(describe(&Fatal::Config(ConfigError::NoGlobal)), "No global config");
    assert_eq!(
        describe(&Fatal::Config(ConfigError::NoGlobalDefault)),
        "No default config in global"
    );
    assert_eq!(describe(&Fatal::Config(ConfigError::NotAString)), "Config entry is not a string");
    assert_eq!(describe(&Fatal::UnexpectedEvent), "Unexpected event");
}
