//! The dispatcher, one decision at a time.
//!
//! The run is a chain of questions that only the outside can answer: is the
//! path a link, does it exist, what does the inspection utility print, what
//! does the configuration file hold, did the command run. `step` takes the
//! answer to the last question and decides what comes next; the caller does
//! what the `Action` says and comes back with the `Event`.

use crate::config::{configured, is_outcome, resolve_command, ConfigError};
use crate::detect::{get_file_type, inspection, is_detected, is_inspection, DetectError};
use crate::launch::{build_invocation, build_report, invocation, report};
use crate::path::{argument_path, get_soft_link_source, link_source, resolve_argument};
use vstd::prelude::*;
use vstd::string::*;

verus! {

broadcast use vstd::string::group_string_axioms;

/// Where the configuration is read from.
pub const CONFIG_PATH: &'static str = "/home/fge/.ropener.conf";

/// Why a run is given up.
#[derive(Debug, PartialEq, Eq)]
pub enum Fatal {
    /// No path was given on the command line.
    MissingArgument,
    /// The inspection utility could not be run.
    DetectorUnavailable,
    /// The inspection utility's outcome gives no type.
    Detect(DetectError),
    /// The configuration file could not be read.
    ConfigUnreadable,
    /// The configuration gives no command.
    Config(ConfigError),
    /// The command could not be run.
    LaunchFailed { command: String },
    /// An answer came to a question that was not asked.
    UnexpectedEvent,
}

/// How far the run has come.
#[derive(Debug, PartialEq, Eq)]
pub enum State {
    /// Nothing is known yet; the command line is awaited.
    Start,
    /// Asked whether `path` is a link.
    Linking { path: String },
    /// Asked whether `path` exists.
    Checking { path: String },
    /// Asked for the type of `path`.
    Inspecting { path: String },
    /// Asked for the configuration.
    Configuring { path: String, main_type: String, sub_type: String },
    /// Asked to run `command`.
    Launching { command: String },
    /// The run is over.
    Done,
}

/// What the outside reports.
#[derive(Debug, PartialEq, Eq)]
pub enum Event {
    /// The command line, the program's own name first.
    Arguments(Vec<String>),
    /// The target of the link, or `None` where the path is no link or its
    /// target cannot be read.
    Link(Option<String>),
    /// Whether the path exists.
    Exists(bool),
    /// The inspection utility could not be run.
    NotInspected,
    /// The inspection utility ran: whether it reported success, its exit
    /// code, and what it printed.
    Inspected { success: bool, code: Option<i32>, stdout: Vec<u8> },
    /// The text of the configuration file, or `None` where it cannot be read.
    Config(Option<String>),
    /// Whether the command was started and waited for.
    Launched(bool),
}

/// What the outside is to do next.
#[derive(Debug, PartialEq, Eq)]
pub enum Action {
    /// Read the target of the symbolic link at `path`; answer with `Link`.
    ReadLink { path: String },
    /// Test whether `path` exists; answer with `Exists`.
    CheckExists { path: String },
    /// Run `program` with `arguments` and capture what it prints; answer
    /// with `Inspected` or `NotInspected`.
    Inspect { program: String, arguments: Vec<String> },
    /// Read the file at `path`; answer with `Config`.
    ReadConfig { path: String },
    /// Print `report` and a newline, run `program` with `arguments` and wait
    /// for it; answer with `Launched`.
    Launch { report: String, program: String, arguments: Vec<String> },
    /// Print `message` as a line on standard error and end with `code`.
    Exit { code: i32, message: String },
    /// End with success.
    Finish,
    /// Give up with `error`.
    Abort { error: Fatal },
}

/// The line that reports a missing file.
pub open spec fn missing_message(path: Seq<char>) -> Seq<char> {
    "File "@ + path + " does not exists"@
}

/// The path after one link: the link's source where a target was read.
pub open spec fn after_link(path: Seq<char>, target: Option<String>) -> Seq<char> {
    match target {
        Some(t) => link_source(path, t@),
        None => path,
    }
}

/// `program` and `arguments` hand the command line for `command` and `path`
/// to a shell.
pub open spec fn is_shell_call(
    program: String,
    arguments: Vec<String>,
    command: Seq<char>,
    path: Seq<char>,
) -> bool {
    &&& program@ == "bash"@
    &&& arguments@.len() == 2
    &&& arguments@[0]@ == "-c"@
    &&& arguments@[1]@ == invocation(command, path)
}

/// The run ends with `error`.
pub open spec fn gives_up(next: State, action: Action, error: Fatal) -> bool {
    next is Done && action == (Action::Abort { error })
}

/// The step from `Start`: the first argument is resolved to a path and the
/// path is asked about; without an argument the run is given up.
pub open spec fn is_first_step(args: Seq<String>, next: State, action: Action) -> bool {
    if args.len() < 2 {
        gives_up(next, action, Fatal::MissingArgument)
    } else {
        match (next, action) {
            (State::Linking { path }, Action::ReadLink { path: asked }) => {
                path@ == argument_path(args[1]@) && asked@ == path@
            },
            _ => false,
        }
    }
}

/// The step from `Linking`: the link, if it is one, is followed once, and the
/// resulting path is tested.
pub open spec fn is_link_step(path: Seq<char>, target: Option<String>, next: State, action: Action) -> bool {
    match (next, action) {
        (State::Checking { path: resolved }, Action::CheckExists { path: asked }) => {
            resolved@ == after_link(path, target) && asked@ == resolved@
        },
        _ => false,
    }
}

/// The step from `Checking`: a missing file ends the run with exit code 1 and
/// a message that names it; a file that exists is inspected.
pub open spec fn is_check_step(path: Seq<char>, exists: bool, next: State, action: Action) -> bool {
    if !exists {
        match (next, action) {
            (State::Done, Action::Exit { code, message }) => {
                code == 1 && message@ == missing_message(path)
            },
            _ => false,
        }
    } else {
        match (next, action) {
            (State::Inspecting { path: kept }, Action::Inspect { program, arguments }) => {
                kept@ == path && is_inspection(program, arguments, path)
            },
            _ => false,
        }
    }
}

/// The step from `Inspecting`: the type is read from the utility's outcome
/// and the configuration is asked for; an outcome without a type ends the run.
pub open spec fn is_inspect_step(
    path: Seq<char>,
    success: bool,
    code: Option<i32>,
    stdout: Seq<u8>,
    next: State,
    action: Action,
) -> bool {
    match (next, action) {
        (
            State::Configuring { path: kept, main_type, sub_type },
            Action::ReadConfig { path: file },
        ) => {
            &&& kept@ == path
            &&& file@ == CONFIG_PATH@
            &&& is_detected(
                path,
                success,
                code,
                stdout,
                Ok::<(String, String), DetectError>((main_type, sub_type)),
            )
        },
        (State::Done, Action::Abort { error: Fatal::Detect(e) }) => is_detected(
            path,
            success,
            code,
            stdout,
            Err::<(String, String), DetectError>(e),
        ),
        _ => false,
    }
}

/// The step from `Configuring`: the command for the type is resolved and
/// launched; a configuration without one ends the run.
pub open spec fn is_config_step(
    path: Seq<char>,
    main_type: Seq<char>,
    sub_type: Seq<char>,
    text: Option<String>,
    next: State,
    action: Action,
) -> bool {
    match text {
        None => gives_up(next, action, Fatal::ConfigUnreadable),
        Some(text) => match (next, action) {
            (State::Launching { command }, Action::Launch { report: lines, program, arguments }) => {
                &&& configured(text@, main_type, sub_type) == Ok::<Seq<char>, ConfigError>(
                    command@,
                )
                &&& lines@ == report(path, main_type, sub_type, command@)
                &&& is_shell_call(program, arguments, command@, path)
            },
            (State::Done, Action::Abort { error: Fatal::Config(e) }) => configured(
                text@,
                main_type,
                sub_type,
            ) == Err::<Seq<char>, ConfigError>(e),
            _ => false,
        },
    }
}

/// The step from `Launching`: a command that ran ends the run with success,
/// whatever its own exit code was; one that did not run ends it with an error.
pub open spec fn is_launch_step(command: Seq<char>, ran: bool, next: State, action: Action) -> bool {
    if ran {
        next is Done && action is Finish
    } else {
        match (next, action) {
            (State::Done, Action::Abort { error: Fatal::LaunchFailed { command: named } }) => {
                named@ == command
            },
            _ => false,
        }
    }
}

/// `next` and `action` are what follows `event` in `state`.
pub open spec fn is_step(state: State, event: Event, next: State, action: Action) -> bool {
    match (state, event) {
        (State::Start, Event::Arguments(args)) => is_first_step(args@, next, action),
        (State::Linking { path }, Event::Link(target)) => is_link_step(path@, target, next, action),
        (State::Checking { path }, Event::Exists(exists)) => is_check_step(
            path@,
            exists,
            next,
            action,
        ),
        (State::Inspecting { path }, Event::NotInspected) => gives_up(
            next,
            action,
            Fatal::DetectorUnavailable,
        ),
        (State::Inspecting { path }, Event::Inspected { success, code, stdout }) => is_inspect_step(
            path@,
            success,
            code,
            stdout@,
            next,
            action,
        ),
        (State::Configuring { path, main_type, sub_type }, Event::Config(text)) => is_config_step(
            path@,
            main_type@,
            sub_type@,
            text,
            next,
            action,
        ),
        (State::Launching { command }, Event::Launched(ran)) => is_launch_step(
            command@,
            ran,
            next,
            action,
        ),
        _ => gives_up(next, action, Fatal::UnexpectedEvent),
    }
}

/// An action that inspects a file, reads the configuration or launches a
/// command.
pub open spec fn does_work(action: Action) -> bool {
    action is Inspect || action is ReadConfig || action is Launch
}

/// A missing file ends the run at once. The step that learns of it asks for
/// exit code 1 and a message that names the path; neither that step nor any
/// step after it inspects a file, reads the configuration or launches a
/// command.
pub proof fn lemma_missing_file_ends_the_run(
    path: String,
    next: State,
    action: Action,
    later: Event,
    after: State,
    then: Action,
)
    requires
        is_step(State::Checking { path }, Event::Exists(false), next, action),
        is_step(next, later, after, then),
    ensures
        action is Exit,
        action->code == 1,
        action->message@ == missing_message(path@),
        next is Done,
        after is Done,
        !does_work(action),
        !does_work(then),
{
}

/// Only a file that exists is inspected, and it is the file that was
/// tested: whenever a step asks for an inspection, the step before it has
/// learned that the path exists, and the utility is run on exactly that
/// path. A path that was found missing is never inspected.
pub proof fn lemma_only_existing_files_are_inspected(
    state: State,
    event: Event,
    next: State,
    action: Action,
)
    requires
        is_step(state, event, next, action),
    ensures
        action is Inspect ==> state is Checking && event == Event::Exists(true),
        action is Inspect ==> next is Inspecting && next->Inspecting_path@
            == state->Checking_path@ && is_inspection(
            action->Inspect_program,
            action->Inspect_arguments,
            state->Checking_path@,
        ),
        state is Checking && event == Event::Exists(false) ==> !does_work(action) && next is Done,
{
}

/// A run that is over stays over: every step from `Done` leads to `Done` and
/// asks for no work.
pub proof fn lemma_done_is_final(event: Event, next: State, action: Action)
    requires
        is_step(State::Done, event, next, action),
    ensures
        next is Done,
        action is Abort,
{
}

/// Work comes in order: a link is read only for the argument's own path, so
/// once in a run; a file is inspected only after it was found to exist; the
/// configuration is read only after the type was detected; and a command is
/// launched only after the configuration was read.
pub proof fn lemma_work_comes_in_order(state: State, event: Event, next: State, action: Action)
    requires
        is_step(state, event, next, action),
    ensures
        action is ReadLink ==> state is Start && event is Arguments,
        action is CheckExists ==> state is Linking && event is Link,
        action is Inspect ==> state is Checking && event == Event::Exists(true) && is_inspection(
            action->Inspect_program,
            action->Inspect_arguments,
            state->Checking_path@,
        ),
        action is ReadConfig ==> state is Inspecting && event is Inspected,
        action is Launch ==> state is Configuring && event is Config,
{
}

/// An argument without the scheme of a file URI is the path that is asked
/// about, and stays the path where it is no link.
pub proof fn lemma_plain_argument_is_kept(
    args: Vec<String>,
    next: State,
    action: Action,
    after: State,
    then: Action,
)
    requires
        args@.len() >= 2,
        !crate::path::has_file_scheme(args@[1]@),
        is_step(State::Start, Event::Arguments(args), next, action),
        is_step(next, Event::Link(None), after, then),
    ensures
        next is Linking,
        next->Linking_path@ == args@[1]@,
        after is Checking,
        after->Checking_path@ == args@[1]@,
{
}

/// The command's own exit code does not count: once it was started and
/// waited for, the run ends with success.
pub proof fn lemma_launched_run_succeeds(command: String, next: State, action: Action)
    requires
        is_step(State::Launching { command }, Event::Launched(true), next, action),
    ensures
        next is Done,
        action is Finish,
{
}

fn give_up(error: Fatal) -> (next: (State, Action))
    ensures
        gives_up(next.0, next.1, error),
{
    (State::Done, Action::Abort { error })
}

fn first_step(args: Vec<String>) -> (next: (State, Action))
    ensures
        is_first_step(args@, next.0, next.1),
{
    if args.len() < 2 {
        return give_up(Fatal::MissingArgument);
    }
    let path = resolve_argument(args[1].as_str());
    let asked = path.clone();
    (State::Linking { path }, Action::ReadLink { path: asked })
}

fn link_step(path: String, target: Option<String>) -> (next: (State, Action))
    ensures
        is_link_step(path@, target, next.0, next.1),
{
    let resolved = match &target {
        Some(t) => get_soft_link_source(path.as_str(), Some(t.as_str())),
        None => path,
    };
    let asked = resolved.clone();
    (State::Checking { path: resolved }, Action::CheckExists { path: asked })
}

fn check_step(path: String, exists: bool) -> (next: (State, Action))
    ensures
        is_check_step(path@, exists, next.0, next.1),
{
    if !exists {
        let mut message = "File ".to_owned();
        message.append(path.as_str());
        message.append(" does not exists");
        return (State::Done, Action::Exit { code: 1, message });
    }
    let (program, arguments) = inspection(path.as_str());
    (State::Inspecting { path }, Action::Inspect { program, arguments })
}

fn inspect_step(path: String, success: bool, code: Option<i32>, stdout: Vec<u8>) -> (next: (
    State,
    Action,
))
    ensures
        is_inspect_step(path@, success, code, stdout@, next.0, next.1),
{
    match get_file_type(path.as_str(), success, code, stdout) {
        Ok((main_type, sub_type)) => (
            State::Configuring { path, main_type, sub_type },
            Action::ReadConfig { path: CONFIG_PATH.to_owned() },
        ),
        Err(e) => (State::Done, Action::Abort { error: Fatal::Detect(e) }),
    }
}

fn config_step(path: String, main_type: String, sub_type: String, text: Option<String>) -> (next: (
    State,
    Action,
))
    ensures
        is_config_step(path@, main_type@, sub_type@, text, next.0, next.1),
{
    let text = match text {
        Some(text) => text,
        None => return give_up(Fatal::ConfigUnreadable),
    };
    match resolve_command(text.as_str(), main_type.as_str(), sub_type.as_str()) {
        Ok(command) => {
            let lines = build_report(
                path.as_str(),
                main_type.as_str(),
                sub_type.as_str(),
                command.as_str(),
            );
            let mut arguments: Vec<String> = Vec::new();
            arguments.push("-c".to_owned());
            arguments.push(build_invocation(command.as_str(), path.as_str()));
            (
                State::Launching { command },
                Action::Launch { report: lines, program: "bash".to_owned(), arguments },
            )
        },
        Err(e) => (State::Done, Action::Abort { error: Fatal::Config(e) }),
    }
}

fn launch_step(command: String, ran: bool) -> (next: (State, Action))
    ensures
        is_launch_step(command@, ran, next.0, next.1),
{
    if ran {
        (State::Done, Action::Finish)
    } else {
        (State::Done, Action::Abort { error: Fatal::LaunchFailed { command } })
    }
}

/// Decides what follows `event` in `state`: the state that the run is in
/// then, and what the outside is to do.
pub fn step(state: State, event: Event) -> (next: (State, Action))
    ensures
        is_step(state, event, next.0, next.1),
{
    match state {
        State::Start => match event {
            Event::Arguments(args) => first_step(args),
            _ => give_up(Fatal::UnexpectedEvent),
        },
        State::Linking { path } => match event {
            Event::Link(target) => link_step(path, target),
            _ => give_up(Fatal::UnexpectedEvent),
        },
        State::Checking { path } => match event {
            Event::Exists(exists) => check_step(path, exists),
            _ => give_up(Fatal::UnexpectedEvent),
        },
        State::Inspecting { path } => match event {
            Event::NotInspected => give_up(Fatal::DetectorUnavailable),
            Event::Inspected { success, code, stdout } => inspect_step(path, success, code, stdout),
            _ => give_up(Fatal::UnexpectedEvent),
        },
        State::Configuring { path, main_type, sub_type } => match event {
            Event::Config(text) => config_step(path, main_type, sub_type, text),
            _ => give_up(Fatal::UnexpectedEvent),
        },
        State::Launching { command } => match event {
            Event::Launched(ran) => launch_step(command, ran),
            _ => give_up(Fatal::UnexpectedEvent),
        },
        State::Done => give_up(Fatal::UnexpectedEvent),
    }
}

} // verus!
