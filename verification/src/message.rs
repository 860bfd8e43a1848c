//! The words for a run that is given up: one line for each error.

use crate::config::ConfigError;
use crate::detect::DetectError;
use crate::path::{lossy_text, utf8_lossy};
use crate::pipeline::Fatal;
use vstd::prelude::*;
use vstd::string::*;

verus! {

broadcast use vstd::string::group_string_axioms;

/// The character for the digit `d`, for `d` from 0 to 9.
pub open spec fn digit(d: int) -> char {
    ((0x30 + d) as u32) as char
}

/// The digits of `n` in base ten, the highest first and no leading zero.
pub open spec fn digits(n: nat) -> Seq<char>
    decreases n,
{
    if n < 10 {
        seq![digit(n as int)]
    } else {
        digits(n / 10).push(digit((n % 10) as int))
    }
}

/// `n` in base ten, with `-` before it where it is negative.
pub open spec fn decimal(n: int) -> Seq<char> {
    if n < 0 {
        seq!['-'] + digits((-n) as nat)
    } else {
        digits(n as nat)
    }
}

/// The exit code as it is written in a message.
pub open spec fn code_text(code: Option<i32>) -> Seq<char> {
    match code {
        Some(c) => decimal(c as int),
        None => "unknown"@,
    }
}

/// The line that says why no type could be read.
pub open spec fn detect_message(error: DetectError) -> Seq<char> {
    match error {
        DetectError::Failed { path, code, output } => "Failed to read mime type of "@ + path@
            + ": error "@ + code_text(code) + ": "@ + lossy_text(output@),
        DetectError::NotText => "Failed to convert file command output to String"@,
        DetectError::NoSeparator => "Failed to find ': ' in file output"@,
        DetectError::NoSubtype => "Failed to find '/' in file output"@,
    }
}

/// The line that says why the configuration gives no command.
pub open spec fn config_message(error: ConfigError) -> Seq<char> {
    match error {
        ConfigError::Unparseable => "Failed to parse config file"@,
        ConfigError::NotATable => "Config is not a table"@,
        ConfigError::NoGlobal => "No global config"@,
        ConfigError::NoGlobalDefault => "No default config in global"@,
        ConfigError::NotAString => "Config entry is not a string"@,
    }
}

/// The line that says why the run is given up. It names what the error
/// holds: the file, the exit code and the output of a failed inspection, and
/// the command that could not be run.
pub open spec fn message(error: Fatal) -> Seq<char> {
    match error {
        Fatal::MissingArgument => "Need file path"@,
        Fatal::DetectorUnavailable => "failed to execute file command"@,
        Fatal::Detect(e) => detect_message(e),
        Fatal::ConfigUnreadable => "Failed to read config file"@,
        Fatal::Config(e) => config_message(e),
        Fatal::LaunchFailed { command } => "failed to execute "@ + command@,
        Fatal::UnexpectedEvent => "Unexpected event"@,
    }
}

/// The digit `d` as text.
fn digit_text(d: u8) -> (text: &'static str)
    requires
        d < 10,
    ensures
        text@ == seq![digit(d as int)],
{
    proof {
        reveal_strlit("0");
        reveal_strlit("1");
        reveal_strlit("2");
        reveal_strlit("3");
        reveal_strlit("4");
        reveal_strlit("5");
        reveal_strlit("6");
        reveal_strlit("7");
        reveal_strlit("8");
        reveal_strlit("9");
    }
    let text = match d {
        0 => "0",
        1 => "1",
        2 => "2",
        3 => "3",
        4 => "4",
        5 => "5",
        6 => "6",
        7 => "7",
        8 => "8",
        _ => "9",
    };
    assert(text@ =~= seq![digit(d as int)]);
    text
}

/// `n` in base ten.
pub fn decimal_text(n: i32) -> (text: String)
    ensures
        text@ == decimal(n as int),
{
    let wide: i64 = n as i64;
    let size: u32 = if wide < 0 {
        (-wide) as u32
    } else {
        wide as u32
    };
    let mut rest: u32 = size;
    let mut low: Vec<u8> = Vec::new();
    let ghost mut tail: Seq<char> = Seq::empty();
    assert(digits(size as nat) =~= digits(rest as nat) + tail);
    while rest >= 10
        invariant
            digits(size as nat) == digits(rest as nat) + tail,
            low@.len() == tail.len(),
            forall|k: int|
                0 <= k < low@.len() ==> low@[k] < 10 && tail[tail.len() - 1 - k] == digit(
                    low@[k] as int,
                ),
        decreases rest,
    {
        let d: u8 = (rest % 10) as u8;
        proof {
            let longer = seq![digit(d as int)] + tail;
            assert(digits(rest as nat) == digits((rest / 10) as nat).push(digit(d as int)));
            assert(digits(size as nat) =~= digits((rest / 10) as nat) + longer);
            assert forall|k: int| 0 <= k < low@.len() + 1 implies low@.push(d)[k] < 10
                && longer[longer.len() - 1 - k] == digit(low@.push(d)[k] as int) by {
                if k < low@.len() {
                    assert(longer[longer.len() - 1 - k] == tail[tail.len() - 1 - k]);
                }
            }
            tail = longer;
        }
        low.push(d);
        rest = rest / 10;
    }
    let mut text = if n < 0 {
        "-".to_owned()
    } else {
        "".to_owned()
    };
    proof {
        reveal_strlit("-");
        reveal_strlit("");
    }
    text.append(digit_text(rest as u8));
    let ghost head = text@;
    assert(head + tail =~= decimal(n as int));
    let mut k: usize = low.len();
    while k > 0
        invariant
            k <= low.len(),
            low@.len() == tail.len(),
            forall|j: int|
                0 <= j < low@.len() ==> low@[j] < 10 && tail[tail.len() - 1 - j] == digit(
                    low@[j] as int,
                ),
            text@ == head + tail.take(low.len() - k),
        decreases k,
    {
        k -= 1;
        text.append(digit_text(low[k]));
        assert(text@ =~= head + tail.take(low.len() - k));
    }
    assert(tail.take(tail.len() as int) =~= tail);
    text
}

/// The line for an error of the type detector.
fn describe_detect(error: &DetectError) -> (text: String)
    ensures
        text@ == detect_message(*error),
{
    match error {
        DetectError::Failed { path, code, output } => {
            let mut text = "Failed to read mime type of ".to_owned();
            text.append(path.as_str());
            text.append(": error ");
            match code {
                Some(c) => {
                    let number = decimal_text(*c);
                    text.append(number.as_str());
                },
                None => {
                    text.append("unknown");
                },
            }
            text.append(": ");
            let printed = utf8_lossy(output.as_slice());
            text.append(printed.as_str());
            text
        },
        DetectError::NotText => "Failed to convert file command output to String".to_owned(),
        DetectError::NoSeparator => "Failed to find ': ' in file output".to_owned(),
        DetectError::NoSubtype => "Failed to find '/' in file output".to_owned(),
    }
}

/// The line for an error of the command resolver.
fn describe_config(error: &ConfigError) -> (text: String)
    ensures
        text@ == config_message(*error),
{
    match error {
        ConfigError::Unparseable => "Failed to parse config file".to_owned(),
        ConfigError::NotATable => "Config is not a table".to_owned(),
        ConfigError::NoGlobal => "No global config".to_owned(),
        ConfigError::NoGlobalDefault => "No default config in global".to_owned(),
        ConfigError::NotAString => "Config entry is not a string".to_owned(),
    }
}

/// The line that says why the run is given up.
pub fn describe(error: &Fatal) -> (text: String)
    ensures
        text@ == message(*error),
{
    match error {
        Fatal::MissingArgument => "Need file path".to_owned(),
        Fatal::DetectorUnavailable => "failed to execute file command".to_owned(),
        Fatal::Detect(e) => describe_detect(e),
        Fatal::ConfigUnreadable => "Failed to read config file".to_owned(),
        Fatal::Config(e) => describe_config(e),
        Fatal::LaunchFailed { command } => {
            let mut text = "failed to execute ".to_owned();
            text.append(command.as_str());
            text
        },
        Fatal::UnexpectedEvent => "Unexpected event".to_owned(),
    }
}

} // verus!
