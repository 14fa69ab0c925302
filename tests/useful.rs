use genlogsum::{add_time, correct_path, get_path_mtimedb, get_size_cpn, is_digit};

#[test]
fn digit_tests() {
    assert!(!is_digit(&b'a'));
    assert!(!is_digit(&b'A'));
    assert!(is_digit(&b'0'));
    assert!(is_digit(&b'9'));
    assert!(is_digit(&b'6'));
}

#[test]
fn test_size_cpn_simple() {
    let a = "hello";
    let s_a = get_size_cpn(a).unwrap();
    assert_eq!(s_a, a.len());
}

#[test]
fn test_size_cpn_dash() {
    let a = "sys-devel/gcc";
    let s_a = get_size_cpn(a).unwrap();
    assert_eq!(s_a, a.len());
}

#[test]
fn test_size_cpn_version() {
    let gcc = "sys-devel/gcc";
    let a = "sys-devel/gcc-12.4.0";

    let s_a = get_size_cpn(a).unwrap();

    assert_eq!(s_a, gcc.len());
}

#[test]
fn test_size_cpn_hard() {
    let a = "dev-python/PyQt6-6.7.1-r1";
    let s_a = get_size_cpn(a).unwrap();
    assert_eq!(s_a, 16);
}

#[test]
fn size_cpn_trailing_dash() {
    assert_eq!(get_size_cpn("a/b-"), None);
    assert_eq!(get_size_cpn(""), Some(0));
    assert_eq!(get_size_cpn("a/b--1"), Some(4));
}

#[test]
fn correct_path_classical() {
    let root = "/";
    let file = "/var/log/emerge.log";
    let mut path = String::new();
    let expected = "/var/log/emerge.log";

    correct_path(root, file, &mut path);
    assert_eq!(path, expected);
}

#[test]
fn correct_path_chroot() {
    let root = "/mnt/gentoo";
    let file = "var/log/emerge.log";
    let mut path = String::new();
    let expected = "/mnt/gentoo/var/log/emerge.log";

    correct_path(root, file, &mut path);
    assert_eq!(path, expected);
}

#[test]
fn correct_path_stupid() {
    let root = "/";
    let file = "./emerge.log";
    let mut path = String::new();
    let expected = "./emerge.log";

    correct_path(root, file, &mut path);
    assert_eq!(path, expected);
}

#[test]
fn path_of_the_queue() {
    assert_eq!(get_path_mtimedb("/"), "/var/cache/edb/mtimedb");
    assert_eq!(get_path_mtimedb("/mnt/gentoo/"), "/mnt/gentoo/var/cache/edb/mtimedb");
}

#[test]
fn test_add_time_more_0() {
    let total = Some(0);
    let t = Some(15);

    assert_eq!(add_time(total, t), t);
}

#[test]
fn test_add_time_less_0() {
    let total = None;
    let t = Some(15);

    assert_eq!(add_time(total, t), None);
}

#[test]
fn add_time_saturates() {
    assert_eq!(add_time(Some(u64::MAX - 1), Some(5)), Some(u64::MAX));
}
