use ferris_serve::paths::{is_confined, join};

#[test]
fn joins_a_request_path_onto_the_root() {
    assert_eq!(join(b"public", b"/foo.png"), b"public/foo.png");
    assert_eq!(join(b"public", b"/css/site.css"), b"public/css/site.css");
}

#[test]
fn joins_a_plain_name_onto_the_root() {
    assert_eq!(join(b"public", b"index.html"), b"public/index.html");
    assert_eq!(join(b"public", b"404.html"), b"public/404.html");
}

#[test]
fn a_root_that_ends_in_a_slash_gets_no_second_one() {
    assert_eq!(join(b"public/", b"/foo.png"), b"public/foo.png");
    assert_eq!(join(b"/", b"/foo.png"), b"/foo.png");
    assert_eq!(join(b"/srv/www/", b"a"), b"/srv/www/a");
}

#[test]
fn an_empty_root_gives_a_relative_file() {
    assert_eq!(join(b"", b"/foo.png"), b"foo.png");
    assert_eq!(join(b"", b"///etc/passwd"), b"etc/passwd");
    assert_eq!(join(b"", b""), b"");
}

#[test]
fn every_leading_slash_is_dropped() {
    assert_eq!(join(b"public", b"///a"), b"public/a");
    assert_eq!(join(b"public", b"/"), b"public/");
    assert_eq!(join(b"public", b""), b"public/");
}

#[test]
fn nothing_else_is_normalised() {
    assert_eq!(join(b"public", b"/a//b/./c/"), b"public/a//b/./c/");
    assert_eq!(join(b"public", b"/../secret.txt"), b"public/../secret.txt");
    assert_eq!(join(b"./public", b"/a/../../b"), b"./public/a/../../b");
}

#[test]
fn paths_without_parent_segments_are_confined() {
    assert!(is_confined(b""));
    assert!(is_confined(b"/"));
    assert!(is_confined(b"/index.html"));
    assert!(is_confined(b"/a/b/c.png"));
    assert!(is_confined(b"//a///b/"));
    assert!(is_confined(b"/./a/./b/."));
}

#[test]
fn parent_segments_that_stay_inside_are_confined() {
    assert!(is_confined(b"/a/.."));
    assert!(is_confined(b"/a/../b"));
    assert!(is_confined(b"/a/b/../../c"));
    assert!(is_confined(b"a/b/c/../../../"));
    assert!(is_confined(b"/a/../b/../c/.."));
}

#[test]
fn a_path_that_climbs_out_is_not_confined() {
    assert!(!is_confined(b".."));
    assert!(!is_confined(b"/.."));
    assert!(!is_confined(b"/../"));
    assert!(!is_confined(b"/../secret.txt"));
    assert!(!is_confined(b"/a/../../secret.txt"));
    assert!(!is_confined(b"/a/b/../../../c"));
    assert!(!is_confined(b"//.//../a"));
}

#[test]
fn a_path_that_climbs_out_and_comes_back_is_not_confined() {
    assert!(!is_confined(b"/../public/index.html"));
    assert!(!is_confined(b"/a/../../a/b"));
}

#[test]
fn names_that_only_look_like_dot_segments_are_ordinary() {
    assert!(is_confined(b"/..."));
    assert!(is_confined(b"/..a"));
    assert!(is_confined(b"/a.."));
    assert!(is_confined(b"/.a/.b"));
    assert!(is_confined(b"/.../.."));
    assert!(!is_confined(b"/.../../.."));
}
