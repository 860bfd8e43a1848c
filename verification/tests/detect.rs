use ropener::detect::{get_file_type, inspection, parse_file_type, DetectError};

fn pair(main: &str, sub: &str) -> Result<(String, String), DetectError> {
    Ok((main.to_string(), sub.to_string()))
}

#[test]
fn type_is_read_after_the_separator() {
    assert_eq!(parse_file_type("/tmp/a.txt: text/plain\n"), pair("text", "plain"));
}

#[test]
fn both_parts_are_trimmed() {
    assert_eq!(parse_file_type("a:  image / png \n"), pair("image", "png"));
}

#[test]
fn the_first_separator_counts() {
    assert_eq!(parse_file_type("odd: name: text/x-c"), pair("name: text", "x-c"));
    assert_eq!(parse_file_type("a: b: text/plain"), pair("b: text", "plain"));
}

#[test]
fn a_colon_without_a_space_is_no_separator() {
    assert_eq!(parse_file_type("/tmp/a:b.txt: application/pdf"), pair("application", "pdf"));
    assert_eq!(parse_file_type("/tmp/a:text/plain"), Err(DetectError::NoSeparator));
}

#[test]
fn only_the_first_two_parts_are_taken() {
    assert_eq!(parse_file_type("f: a/b/c"), pair("a", "b"));
    assert_eq!(parse_file_type("f: a//c"), pair("a", ""));
}

#[test]
fn empty_parts_are_kept() {
    assert_eq!(parse_file_type("f: /"), pair("", ""));
    assert_eq!(parse_file_type("f: text/"), pair("text", ""));
    assert_eq!(parse_file_type(": /x"), pair("", "x"));
}

#[test]
fn output_without_separator_is_refused() {
    assert_eq!(parse_file_type(""), Err(DetectError::NoSeparator));
    assert_eq!(parse_file_type("text/plain"), Err(DetectError::NoSeparator));
    assert_eq!(parse_file_type("a:"), Err(DetectError::NoSeparator));
}

#[test]
fn type_without_slash_is_refused() {
    assert_eq!(parse_file_type("/tmp/a: data"), Err(DetectError::NoSubtype));
    assert_eq!(parse_file_type("/a/b: "), Err(DetectError::NoSubtype));
    assert_eq!(parse_file_type("/a/b: plain"), Err(DetectError::NoSubtype));
}

#[test]
fn characters_outside_ascii_are_counted_once() {
    assert_eq!(parse_file_type("/tmp/é€.txt: text/plain"), pair("text", "plain"));
    assert_eq!(parse_file_type("ü: é/€"), pair("é", "€"));
}

#[test]
fn a_failed_run_carries_code_and_output() {
    assert_eq!(
        get_file_type("/tmp/a", false, Some(2), b"oops: text/plain".to_vec()),
        Err(DetectError::Failed {
            path: "/tmp/a".to_string(),
            code: Some(2),
            output: b"oops: text/plain".to_vec()
        })
    );
    assert_eq!(
        get_file_type("a b", false, None, vec![0xff]),
        Err(DetectError::Failed { path: "a b".to_string(), code: None, output: vec![0xff] })
    );
}

#[test]
fn output_that_is_not_text_is_refused() {
    assert_eq!(get_file_type("/tmp/a", true, Some(0), vec![b'a', b':', b' ', 0xff, b'/']), Err(DetectError::NotText));
    assert_eq!(get_file_type("/tmp/a", true, Some(0), vec![0xc0, 0x80]), Err(DetectError::NotText));
    assert_eq!(get_file_type("/tmp/a", true, Some(0), vec![0xed, 0xa0, 0x80]), Err(DetectError::NotText));
}

#[test]
fn a_good_run_gives_the_type() {
    assert_eq!(
        get_file_type("/tmp/a", true, Some(0), b"/tmp/x.png: image/png\n".to_vec()),
        pair("image", "png")
    );
    assert_eq!(
        get_file_type("/tmp/a", true, Some(0), "/tmp/é: text/plain\n".as_bytes().to_vec()),
        pair("text", "plain")
    );
    assert_eq!(get_file_type("/tmp/a", true, Some(0), Vec::new()), Err(DetectError::NoSeparator));
}

#[test]
fn both_parts_are_put_in_lowercase() {
    assert_eq!(parse_file_type("/tmp/a.txt: Text/Plain\n"), pair("text", "plain"));
    assert_eq!(parse_file_type("f: APPLICATION/X-Tar"), pair("application", "x-tar"));
    assert_eq!(
        get_file_type("/tmp/a", true, Some(0), b"/tmp/a.txt: Text/Plain\n".to_vec()),
        pair("text", "plain")
    );
}

#[test]
fn only_the_letters_a_to_z_change_case() {
    assert_eq!(parse_file_type("f: AZ@[`{09/az-_+."), pair("az@[`{09", "az-_+."));
    assert_eq!(parse_file_type("f: \u{c9}T\u{c9}/\u{3a3}x"), pair("\u{c9}t\u{c9}", "\u{3a3}x"));
}

#[test]
fn the_name_before_the_separator_keeps_its_case() {
    assert_eq!(parse_file_type("/TMP/A: B/C: Image/PNG"), pair("b", "c: image"));
}

#[test]
fn the_utility_is_asked_about_the_path_as_it_stands() {
    assert_eq!(
        inspection("/tmp/a b.txt"),
        (
            "file".to_string(),
            vec!["-E".to_string(), "--mime-type".to_string(), "/tmp/a b.txt".to_string()]
        )
    );
    assert_eq!(inspection("").1[2], "");
}
