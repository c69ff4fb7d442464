use dirsync::client::server_address;
use dirsync::paths::{make_absolute_path, make_local_path};

#[test]
fn path_below_the_root_loses_root_and_separator() {
    assert_eq!(make_local_path("/srv/data", "/srv/data/a.txt"), "a.txt");
    assert_eq!(make_local_path("/srv/data", "/srv/data/sub/b.txt"), "sub/b.txt");
}

#[test]
fn path_outside_the_root_loses_one_leading_separator() {
    assert_eq!(make_local_path("/srv/data", "/etc/passwd"), "etc/passwd");
    assert_eq!(make_local_path("/srv/data", "relative/file"), "relative/file");
}

#[test]
fn only_one_separator_is_dropped() {
    assert_eq!(make_local_path("/srv", "/srv//a"), "/a");
    assert_eq!(make_local_path("/srv/", "/srv/a"), "a");
}

#[test]
fn root_itself_becomes_empty() {
    assert_eq!(make_local_path("/srv/data", "/srv/data"), "");
    assert_eq!(make_local_path("/srv/data", "/srv/data/"), "");
}

#[test]
fn root_is_matched_as_text() {
    assert_eq!(make_local_path("/srv/da", "/srv/data/a.txt"), "ta/a.txt");
}

#[test]
fn absolute_path_joins_with_one_separator() {
    assert_eq!(make_absolute_path("/srv/data", "a.txt"), "/srv/data/a.txt");
    assert_eq!(make_absolute_path("/srv/data", "sub/b.txt"), "/srv/data/sub/b.txt");
    assert_eq!(make_absolute_path("", "a"), "/a");
    assert_eq!(make_absolute_path("/srv", ""), "/srv/");
}

#[test]
fn relative_of_absolute_is_the_path() {
    for root in ["/srv/data", "", "/", "C:/x", "/données"] {
        for path in ["a.txt", "sub/b.txt", "", "/lead", "ß/文件"] {
            assert_eq!(make_local_path(root, &make_absolute_path(root, path)), path);
        }
    }
}

#[test]
fn server_address_uses_the_default_port() {
    assert_eq!(server_address("127.0.0.1"), "127.0.0.1:5343");
    assert_eq!(server_address("192.168.1.20"), "192.168.1.20:5343");
}
