//! The launcher's text: the shell command line and the diagnostic report.

use vstd::prelude::*;
use vstd::string::*;

verus! {

/// The command line handed to the shell: the command, a space, and the path
/// between single quotes. A quote inside the path is left as it is.
pub open spec fn invocation(command: Seq<char>, path: Seq<char>) -> Seq<char> {
    command + seq![' ', '\''] + path + seq!['\'']
}

/// The three diagnostic lines printed before the launch: the resolved path,
/// the type as `main/sub`, and the command.
pub open spec fn report(
    path: Seq<char>,
    main_type: Seq<char>,
    sub_type: Seq<char>,
    command: Seq<char>,
) -> Seq<char> {
    path + seq!['\n'] + main_type + seq!['/'] + sub_type + seq!['\n'] + command
}

/// Builds the shell command line for `command` and `path`.
pub fn build_invocation(command: &str, path: &str) -> (line: String)
    ensures
        line@ == invocation(command@, path@),
{
    let mut line = String::from_str(command);
    line.append(" '");
    line.append(path);
    line.append("'");
    proof {
        reveal_strlit(" '");
        reveal_strlit("'");
        assert(" '"@ =~= seq![' ', '\'']);
        assert("'"@ =~= seq!['\'']);
    }
    line
}

/// Builds the diagnostic report, without a trailing newline.
pub fn build_report(path: &str, main_type: &str, sub_type: &str, command: &str) -> (text: String)
    ensures
        text@ == report(path@, main_type@, sub_type@, command@),
{
    let mut text = String::from_str(path);
    text.append("\n");
    text.append(main_type);
    text.append("/");
    text.append(sub_type);
    text.append("\n");
    text.append(command);
    proof {
        reveal_strlit("\n");
        reveal_strlit("/");
        assert("\n"@ =~= seq!['\n']);
        assert("/"@ =~= seq!['/']);
    }
    text
}

} // verus!
