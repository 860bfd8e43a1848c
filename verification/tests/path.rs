use ropener::path::{
    decode_file_uri, get_soft_link_source, is_absolute_path, is_file_uri, normalize,
    resolve_argument,
};
use std::path::Path;

#[test]
fn plain_argument_is_the_path() {
    assert_eq!(resolve_argument("/tmp/a.txt"), "/tmp/a.txt");
    assert_eq!(resolve_argument("relative/a b.txt"), "relative/a b.txt");
    assert_eq!(resolve_argument("100%25.txt"), "100%25.txt");
    assert_eq!(resolve_argument(""), "");
    assert_eq!(resolve_argument("file:/tmp/a"), "file:/tmp/a");
    assert_eq!(resolve_argument("http://host/a%20b"), "http://host/a%20b");
}

#[test]
fn uri_without_escapes_gives_what_follows_the_scheme() {
    assert_eq!(decode_file_uri("file:///tmp/a.txt"), "/tmp/a.txt");
    assert_eq!(decode_file_uri("file://"), "");
    assert_eq!(decode_file_uri("file://host/share"), "host/share");
    assert_eq!(decode_file_uri("file:///tmp/a+b&c=d.txt"), "/tmp/a+b&c=d.txt");
    assert_eq!(decode_file_uri("file:///tmp/é€.txt"), "/tmp/é€.txt");
    assert_eq!(resolve_argument("file:///tmp/x y"), "/tmp/x y");
}

#[test]
fn escaped_space_is_decoded() {
    assert_eq!(decode_file_uri("file:///tmp/a%20b.txt"), "/tmp/a b.txt");
    assert_eq!(resolve_argument("file:///tmp/a%20b.txt"), "/tmp/a b.txt");
}

#[test]
fn escapes_are_decoded_in_either_case() {
    assert_eq!(decode_file_uri("file:///a%2fb%2Fc"), "/a/b/c");
    assert_eq!(decode_file_uri("file:///%41%5a%7E"), "/AZ~");
    assert_eq!(decode_file_uri("file:///%25"), "/%");
    assert_eq!(decode_file_uri("file:///%2520"), "/%20");
}

#[test]
fn escapes_of_several_bytes_give_one_character() {
    assert_eq!(decode_file_uri("file:///%C3%A9"), "/é");
    assert_eq!(decode_file_uri("file:///%e2%82%ac.txt"), "/€.txt");
    assert_eq!(decode_file_uri("file:///%F0%9F%98%80"), "/\u{1f600}");
}

#[test]
fn incomplete_escapes_stay() {
    assert_eq!(decode_file_uri("file:///100%"), "/100%");
    assert_eq!(decode_file_uri("file:///a%2"), "/a%2");
    assert_eq!(decode_file_uri("file:///a%zz"), "/a%zz");
    assert_eq!(decode_file_uri("file:///a%2g%41"), "/a%2gA");
    assert_eq!(decode_file_uri("file:///%%41"), "/%A");
}

#[test]
fn ill_formed_bytes_are_replaced() {
    assert_eq!(decode_file_uri("file:///a%FFb"), "/a\u{fffd}b");
    assert_eq!(decode_file_uri("file:///%C3"), "/\u{fffd}");
}

#[test]
fn scheme_is_recognised() {
    assert!(is_file_uri("file:///tmp/a"));
    assert!(is_file_uri("file://"));
    assert!(!is_file_uri("file:/tmp/a"));
    assert!(!is_file_uri("FILE:///tmp/a"));
    assert!(!is_file_uri("/tmp/file://a"));
    assert!(!is_file_uri(""));
}

#[test]
fn absolute_paths_begin_at_the_root() {
    assert!(is_absolute_path("/"));
    assert!(is_absolute_path("/a/b"));
    assert!(!is_absolute_path("a/b"));
    assert!(!is_absolute_path("../x"));
    assert!(!is_absolute_path(""));
}

#[test]
fn absolute_target_is_taken_as_it_stands() {
    assert_eq!(get_soft_link_source("/home/u/link", Some("/etc/hosts")), "/etc/hosts");
    assert_eq!(get_soft_link_source("elsewhere/link", Some("/etc/hosts")), "/etc/hosts");
    assert_eq!(get_soft_link_source("link", Some("/etc/../etc/hosts")), "/etc/../etc/hosts");
}

#[test]
fn relative_target_starts_from_the_directory_of_the_link() {
    assert_eq!(get_soft_link_source("/a/b/link", Some("../x")), "/a/x");
    assert_eq!(get_soft_link_source("/home/u/link", Some("../x")), "/home/x");
    assert_eq!(
        Path::new(&get_soft_link_source("/home/u/link", Some("../x"))),
        Path::new("/home").join("x").as_path()
    );
}

#[test]
fn relative_target_beside_the_link() {
    assert_eq!(get_soft_link_source("/home/u/link", Some("real.txt")), "/home/u/real.txt");
    assert_eq!(get_soft_link_source("dir/link", Some("sub/real.txt")), "dir/sub/real.txt");
    assert_eq!(get_soft_link_source("/link", Some("real")), "/real");
    assert_eq!(get_soft_link_source("/tmp/é/link", Some("€")), "/tmp/é/€");
}

#[test]
fn relative_target_of_a_link_without_directory() {
    assert_eq!(get_soft_link_source("link", Some("x")), "x");
    assert_eq!(get_soft_link_source("link", Some("../x")), "../x");
    assert_eq!(get_soft_link_source("link", Some(".")), ".");
}

#[test]
fn relative_target_is_normalized_with_the_directory() {
    assert_eq!(get_soft_link_source("/a/b/link", Some("../../x/./y")), "/x/y");
    assert_eq!(get_soft_link_source("/a/b/link", Some("../../../x")), "/x");
    assert_eq!(get_soft_link_source("/a//b/./link", Some("c//d/")), "/a/b/c/d");
    assert_eq!(get_soft_link_source("a/b/link", Some("../../../x")), "../x");
    assert_eq!(get_soft_link_source("a/link", Some("..")), ".");
    assert_eq!(get_soft_link_source("/a/link", Some("..")), "/");
}

#[test]
fn absolute_target_is_not_normalized() {
    assert_eq!(get_soft_link_source("/a/b/link", Some("/x/../y")), "/x/../y");
    assert_eq!(get_soft_link_source("/a/b/link", Some("//x/./")), "//x/./");
}

#[test]
fn normal_form_drops_empty_components_and_dots() {
    assert_eq!(normalize("/a/b"), "/a/b");
    assert_eq!(normalize("a/b"), "a/b");
    assert_eq!(normalize("//a///b/"), "/a/b");
    assert_eq!(normalize("a/./b/."), "a/b");
    assert_eq!(normalize("./a"), "a");
    assert_eq!(normalize("/"), "/");
    assert_eq!(normalize("///"), "/");
    assert_eq!(normalize("/."), "/");
}

#[test]
fn normal_form_cancels_a_component_with_the_step_up_after_it() {
    assert_eq!(normalize("/a/b/../x"), "/a/x");
    assert_eq!(normalize("a/b/../../c"), "c");
    assert_eq!(normalize("/a/../b/../c"), "/c");
    assert_eq!(normalize("a/.."), ".");
    assert_eq!(normalize("a/b/.."), "a");
}

#[test]
fn normal_form_keeps_steps_up_that_cancel_nothing() {
    assert_eq!(normalize("../x"), "../x");
    assert_eq!(normalize("../../x"), "../../x");
    assert_eq!(normalize("a/../../x"), "../x");
    assert_eq!(normalize("../a/.."), "..");
    assert_eq!(normalize(".."), "..");
}

#[test]
fn normal_form_drops_steps_up_at_the_root() {
    assert_eq!(normalize("/.."), "/");
    assert_eq!(normalize("/../a"), "/a");
    assert_eq!(normalize("/a/../../b"), "/b");
}

#[test]
fn normal_form_of_nothing_is_the_directory_itself() {
    assert_eq!(normalize(""), ".");
    assert_eq!(normalize("."), ".");
    assert_eq!(normalize("./."), ".");
}

#[test]
fn normal_form_keeps_other_names_with_dots() {
    assert_eq!(normalize("..."), "...");
    assert_eq!(normalize("a/.../b"), "a/.../b");
    assert_eq!(normalize(".hidden/..x/y."), ".hidden/..x/y.");
    assert_eq!(normalize("/é/../€ x"), "/€ x");
}

#[test]
fn normal_form_is_a_normal_form() {
    for path in ["/a/b/../x", "a/../../x", "//a//", "", "../..", "/..", "a/./b"] {
        let once = normalize(path);
        assert_eq!(normalize(&once), once);
    }
}

#[test]
fn unreadable_link_leaves_the_path() {
    assert_eq!(get_soft_link_source("/home/u/link", None), "/home/u/link");
    assert_eq!(get_soft_link_source("", None), "");
}
