//! The type detector: from what the inspection utility printed to a MIME type.
//!
//! The utility prints the file's name, the separator `": "` and the type as
//! `main/sub`. Each part of the type is trimmed and put in lowercase: a MIME
//! type does not depend on the case of its letters. Running the utility is
//! the caller's part.

use crate::text::{
    after_first, ascii_lowercase, before_first, chars_of, find_char_from, find_in,
    first_occurrence, is_space, is_upper, lemma_lower_keeps_the_rest, lemma_trimmed_is_tight,
    lowercase, trim_bounds, trimmed,
};
use vstd::prelude::*;
use vstd::string::*;
use vstd::utf8::*;

verus! {

broadcast use {vstd::string::group_string_axioms, vstd::utf8::encode_utf8_decode_utf8};

/// Why no type could be read from the utility's outcome.
#[derive(Debug, PartialEq, Eq)]
pub enum DetectError {
    /// The utility reported failure for the file at `path`; its exit code,
    /// where it has one, and what it printed.
    Failed { path: String, code: Option<i32>, output: Vec<u8> },
    /// What the utility printed is not UTF-8.
    NotText,
    /// The output holds no `": "`.
    NoSeparator,
    /// The type after the separator holds no `/`.
    NoSubtype,
}

/// The separator between the file's name and its type.
pub open spec fn separator() -> Seq<char> {
    seq![':', ' ']
}

/// Everything after the first separator in `output`.
pub open spec fn mime_text(output: Seq<char>) -> Option<Seq<char>> {
    match first_occurrence(output, separator()) {
        Some(i) => Some(output.skip(i + 2)),
        None => None,
    }
}

/// The main type: what stands before the first `/`, trimmed and in
/// lowercase.
pub open spec fn main_type(mime: Seq<char>) -> Seq<char> {
    lowercase(trimmed(before_first(mime, '/')))
}

/// The subtype: what stands between the first `/` and the next, trimmed and
/// in lowercase.
pub open spec fn sub_type(mime: Seq<char>) -> Seq<char> {
    lowercase(trimmed(before_first(after_first(mime, '/'), '/')))
}

/// `result` is what the printed `output` gives: the two parts of its type,
/// or the reason why it has none.
pub open spec fn is_type_of(output: Seq<char>, result: Result<(String, String), DetectError>) -> bool {
    match mime_text(output) {
        None => result == Err::<(String, String), DetectError>(DetectError::NoSeparator),
        Some(mime) => if mime.contains('/') {
            &&& result is Ok
            &&& result->Ok_0.0@ == main_type(mime)
            &&& result->Ok_0.1@ == sub_type(mime)
        } else {
            result == Err::<(String, String), DetectError>(DetectError::NoSubtype)
        },
    }
}

/// `program` and `arguments` ask the utility for the MIME type of the file
/// at `path`, and to fail where it cannot read the file: `file -E
/// --mime-type` and the path.
pub open spec fn is_inspection(program: String, arguments: Vec<String>, path: Seq<char>) -> bool {
    &&& program@ == "file"@
    &&& arguments@.len() == 3
    &&& arguments@[0]@ == "-E"@
    &&& arguments@[1]@ == "--mime-type"@
    &&& arguments@[2]@ == path
}

/// `result` is what the utility's outcome gives for the file at `path`:
/// whether it reported success, its exit code, and the bytes it printed.
pub open spec fn is_detected(
    path: Seq<char>,
    success: bool,
    code: Option<i32>,
    stdout: Seq<u8>,
    result: Result<(String, String), DetectError>,
) -> bool {
    if !success {
        match result {
            Err(DetectError::Failed { path: p, code: c, output }) => p@ == path && c == code
                && output@ == stdout,
            _ => false,
        }
    } else if !valid_utf8(stdout) {
        result == Err::<(String, String), DetectError>(DetectError::NotText)
    } else {
        is_type_of(decode_utf8(stdout), result)
    }
}

/// Calls `std::str::from_utf8`. Believed, not proved: text comes back
/// exactly when `bytes` are valid UTF-8, and it is the text that they encode.
#[verifier::external_body]
fn text_of(bytes: &[u8]) -> (text: Option<&str>)
    ensures
        text is Some <==> valid_utf8(bytes@),
        text is Some ==> text->0.spec_bytes() == bytes@,
{
    std::str::from_utf8(bytes).ok()
}

/// Both parts of a type are clean: neither holds a `/` or one of `A` to
/// `Z`, and neither begins or ends with white space.
pub proof fn lemma_type_parts_are_clean(mime: Seq<char>)
    ensures
        !main_type(mime).contains('/'),
        !sub_type(mime).contains('/'),
        forall|i: int| 0 <= i < main_type(mime).len() ==> !is_upper(#[trigger] main_type(mime)[i]),
        forall|i: int| 0 <= i < sub_type(mime).len() ==> !is_upper(#[trigger] sub_type(mime)[i]),
        main_type(mime).len() > 0 ==> !is_space(main_type(mime).first()) && !is_space(
            main_type(mime).last(),
        ),
        sub_type(mime).len() > 0 ==> !is_space(sub_type(mime).first()) && !is_space(
            sub_type(mime).last(),
        ),
{
    lemma_part_is_clean(mime);
    lemma_part_is_clean(after_first(mime, '/'));
}

/// What stands before the first `/`, trimmed and in lowercase, holds no `/`
/// and no `A` to `Z`, and neither begins nor ends with white space.
proof fn lemma_part_is_clean(s: Seq<char>)
    ensures
        ({
            let part = lowercase(trimmed(before_first(s, '/')));
            &&& !part.contains('/')
            &&& forall|i: int| 0 <= i < part.len() ==> !is_upper(#[trigger] part[i])
            &&& part.len() > 0 ==> !is_space(part.first()) && !is_space(part.last())
        }),
{
    let whole = before_first(s, '/');
    s.index_of_first_ensures('/');
    assert forall|i: int| 0 <= i < whole.len() implies whole[i] != '/' by {
        if s.index_of_first('/') is Some {
            assert(whole[i] == s[i]);
        } else {
            assert(s.contains(s[i]));
        }
    }
    let (a, b) = lemma_trimmed_is_tight(whole);
    let kept = trimmed(whole);
    let part = lowercase(kept);
    assert forall|i: int| 0 <= i < part.len() implies part[i] != '/' && !is_upper(part[i]) by {
        assert(kept[i] == whole[a + i]);
        lemma_lower_keeps_the_rest(kept[i], '/');
    }
    if part.len() > 0 {
        lemma_lower_keeps_the_rest(kept.first(), '/');
        lemma_lower_keeps_the_rest(kept.last(), '/');
    }
}

/// Reads the type out of the utility's printed `output`.
pub fn parse_file_type(output: &str) -> (result: Result<(String, String), DetectError>)
    ensures
        is_type_of(output@, result),
{
    let text = chars_of(output);
    let pattern = chars_of(": ");
    proof {
        reveal_strlit(": ");
        assert(pattern@ =~= separator());
    }
    let n = text.len();
    match find_in(&text, &pattern) {
        None => Err(DetectError::NoSeparator),
        Some(i) => {
            let start = i + 2;
            let ghost mime = text@.skip(start as int);
            match find_char_from(&text, '/', start) {
                None => {
                    proof {
                        mime.index_of_first_ensures('/');
                    }
                    Err(DetectError::NoSubtype)
                },
                Some(j) => {
                    let end = match find_char_from(&text, '/', j + 1) {
                        Some(k) => k,
                        None => n,
                    };
                    let (a, b) = trim_bounds(&text, start, j);
                    let (c, d) = trim_bounds(&text, j + 1, end);
                    proof {
                        mime.index_of_first_ensures('/');
                        assert(before_first(mime, '/') =~= text@.subrange(start as int, j as int));
                        assert(after_first(mime, '/') =~= text@.skip(j + 1));
                        assert(before_first(after_first(mime, '/'), '/') =~= text@.subrange(
                            j + 1,
                            end as int,
                        ));
                    }
                    let main_part = ascii_lowercase(output.substring_char(a, b));
                    let sub_part = ascii_lowercase(output.substring_char(c, d));
                    Ok((main_part, sub_part))
                },
            }
        },
    }
}

/// The program to run, and its arguments, to learn the type of the file at
/// `file_path`: the path is handed over as it stands, as the last argument.
pub fn inspection(file_path: &str) -> (call: (String, Vec<String>))
    ensures
        is_inspection(call.0, call.1, file_path@),
{
    let mut arguments: Vec<String> = Vec::new();
    arguments.push("-E".to_owned());
    arguments.push("--mime-type".to_owned());
    arguments.push(file_path.to_owned());
    ("file".to_owned(), arguments)
}

/// Reads the type of the file at `file_path` out of the utility's outcome:
/// whether it reported success, its exit code, and what it printed.
pub fn get_file_type(file_path: &str, success: bool, code: Option<i32>, stdout: Vec<u8>) -> (result:
    Result<(String, String), DetectError>)
    ensures
        is_detected(file_path@, success, code, stdout@, result),
{
    if !success {
        return Err(DetectError::Failed { path: file_path.to_owned(), code, output: stdout });
    }
    match text_of(stdout.as_slice()) {
        None => Err(DetectError::NotText),
        Some(output) => parse_file_type(output),
    }
}

} // verus!
