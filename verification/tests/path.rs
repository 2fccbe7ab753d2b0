use std::path::Path;

use process::path::same_path;

#[test]
fn paths_agree_as_those_of_std_do() {
    let paths = [
        "", "/", "//", ".", "./", "./.", "..", "../", "a", "a/", "a/.", "./a", "/a", "//a", "/./a",
        "a/b", "a//b", "a/./b", "./a/b", ".//a/b", "a/../b", "a/b/..", ".a", "a.", "/usr/bin/git",
        "/usr/bin//git/", "/usr/./bin/git", "usr/bin/git", "/usr/bin/.git", "...", "a/...",
    ];
    for a in paths {
        for b in paths {
            assert_eq!(
                same_path(a.as_bytes(), b.as_bytes()),
                Path::new(a) == Path::new(b),
                "{a:?} and {b:?}"
            );
        }
    }
}

#[test]
fn bytes_of_a_path_need_not_be_text() {
    assert!(same_path(b"/\xff//b", b"/\xff/b/"));
    assert!(!same_path(b"/\xff/b", b"/\xfe/b"));
}

#[test]
fn slashes_that_do_not_count() {
    assert!(same_path(b"/usr/bin/git", b"/usr/bin/git/"));
    assert!(same_path(b"/usr//bin/git", b"/usr/bin/git"));
    assert!(!same_path(b"", b"/"));
}
