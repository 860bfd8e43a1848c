use ropener::launch::{build_invocation, build_report};

#[test]
fn invocation_wraps_the_path_in_single_quotes() {
    assert_eq!(build_invocation("xdg-open", "/tmp/a b.txt"), "xdg-open '/tmp/a b.txt'");
}

#[test]
fn invocation_keeps_embedded_quotes() {
    assert_eq!(build_invocation("vim -R", "/tmp/it's"), "vim -R '/tmp/it's'");
}

#[test]
fn report_has_three_lines() {
    assert_eq!(
        build_report("/tmp/a.txt", "text", "plain", "vim"),
        "/tmp/a.txt\ntext/plain\nvim"
    );
}
