use genlogsum::{
    act_on_line, get_info, get_info_3equal, last_line, read_file, read_file_test, select_line_type,
    LineStatus, LineType,
};

#[test]
fn get_info_without_colons() {
    let line = "146181";
    assert!(get_info(line).is_none());
}

#[test]
fn get_info_with_cpn_none() {
    let line = "1: ) a/b-0";
    assert!(get_info(line).is_none());
}

#[test]
fn get_info_with_cpn() {
    let line = "146181: (1 of 1) a/b-0 to /";
    let p = get_info(line).unwrap();
    assert_eq!(p.cpn(), "a/b".to_string());
    assert_eq!(p.full_name, "a/b-0".to_string());
    assert_eq!(p.time, 146181);
}

#[test]
fn get_info_3equal_with_cpn() {
    let line = "1234567890:  === (1 of 1) Merging (app/testing-1.2.3::/var/db/repos/gentoo/app/testing/testing-1.2.3.ebuild)";
    let p = get_info_3equal(line, 0).unwrap();

    assert!(!p.is_binary);
    assert_eq!(p.time, 1234567890);
    assert_eq!(p.cpn(), "app/testing".to_string());
}

#[test]
fn get_info_3equal_binary_with_cpn() {
    let line = "1234567890:  === (1 of 1) Merging Binary (app/testing-1.2.3::/)";
    let p = get_info_3equal(line, 24).unwrap();

    assert!(p.is_binary);
    assert_eq!(p.time, 1234567890);
    assert_eq!(p.cpn(), "app/testing".to_string());
}

#[test]
#[should_panic]
fn get_info_3equal_binary_panic() {
    let line = "1234567890:  === (1 of 1 Merging Binary (app/testing-1.2.3::/";
    get_info_3equal(line, 0).unwrap();
}

#[test]
fn line_is_start() {
    let line = "1234567890:  >>> emerge (1 of 1) sys-devel/gcc-1.2.3 to /";
    assert!(matches!(select_line_type(line), LineType::Start));
}

#[test]
fn line_is_merge() {
    let line = "1234567890:  === (1 of 1) Merging Binary something, does not matter";
    assert!(matches!(select_line_type(line), LineType::MergeBinary));
}

#[test]
fn line_is_termination() {
    let line = "1234567890:  *** terminating.";
    assert!(matches!(select_line_type(line), LineType::Term));
}

#[test]
fn line_is_unknow() {
    let line = "1234567890:  >>> AUTOCLEAN: sec-policy/selinux-java:0";
    assert!(matches!(select_line_type(line), LineType::Unknow));
}

#[test]
fn line_is_not_merging_binary() {
    let line = "1234567890:  === (9 of 15) Cleaning (a/b-1.2.3::...";
    assert!(!matches!(select_line_type(line), LineType::MergeBinary));
    let line = "1234567890:  === (9 of 15) Post-Build Cleaning (a/b-1.2.3::...";
    assert!(!matches!(select_line_type(line), LineType::MergeBinary));
    let line = "1234567890:  === (9 of 15) Compiling/Packaging (a/b-1.2.3::...";
    assert!(!matches!(select_line_type(line), LineType::MergeBinary));
    let line = "1234567890:  === (1 of 1) Merging (a/b-1.2.3::...";
    assert!(!matches!(select_line_type(line), LineType::MergeBinary));
}

const TWO_WITH_1BINARY: &str = "\
1700000000:  >>> emerge (1 of 2) app/source-1.0 to /
1700000002:  === (1 of 2) Merging (app/source-1.0::/var/db/repos/gentoo/app/source/source-1.0.ebuild)
1700000100:  ::: completed emerge (1 of 2) app/source-1.0 to /
1700000101:  >>> emerge (2 of 2) app/binary-2.0 to /
1700000102:  === (2 of 2) Merging Binary (app/binary-2.0::/var/cache/binpkgs/app/binary-2.0.gpkg.tar)
1700000110:  ::: completed emerge (2 of 2) app/binary-2.0 to /
";

const BINARY_RUNNING: &str = "\
1234567890:  >>> emerge (1 of 1) category/package-1.2.3 to /
1234567891:  === (1 of 1) Merging Binary (category/package-1.2.3::/var/cache/binpkgs/category/package-1.2.3.gpkg.tar)
";

#[test]
fn read_file_two_package_with_1binary() {
    let (emerges_not_complete, completed_atoms) = read_file_test(TWO_WITH_1BINARY);

    assert_eq!(emerges_not_complete.len(), 0);
    assert_eq!(completed_atoms.len(), 1); // Binary package are not added to it
}

#[test]
fn read_file_binary_emerge_running() {
    let (emerges_not_complete, completed_atoms) = read_file_test(BINARY_RUNNING);

    // the binary merge takes the build out of the flight, without a sample
    assert_eq!(emerges_not_complete.len(), 0);
    assert!(completed_atoms.is_empty());
}

#[test]
fn source_build_duration_is_recorded() {
    let (inflight, atoms) = read_file_test(TWO_WITH_1BINARY);
    assert!(inflight.is_empty());
    assert_eq!(atoms[0].cpn, "app/source");
    assert_eq!(atoms[0].num_emerge, 1);
    assert_eq!(atoms[0].total_time, 100);
    assert_eq!(atoms[0].last_time, 1700000100);
}

#[test]
fn start_without_end_stays_in_flight() {
    let log = "1700000000:  >>> emerge (3 of 7) dev-lang/rust-1.80.0 to /\n";
    let (inflight, atoms) = read_file_test(log);
    assert_eq!(inflight.len(), 1);
    assert_eq!(inflight[0].full_name, "dev-lang/rust-1.80.0");
    assert_eq!(inflight[0].num, "3 of 7");
    assert!(atoms.is_empty());
}

#[test]
fn terminate_clears_the_flight() {
    let log = "\
1700000000:  >>> emerge (1 of 2) app/a-1 to /
1700000001:  *** terminating.
1700000002:  >>> emerge (1 of 1) app/b-2 to /
";
    let (inflight, atoms) = read_file_test(log);
    assert_eq!(inflight.len(), 1);
    assert_eq!(inflight[0].full_name, "app/b-2");
    assert!(atoms.is_empty());
}

#[test]
fn repeated_start_supersedes() {
    let log = "\
1700000000:  >>> emerge (1 of 2) app/a-1 to /
1700000050:  >>> emerge (1 of 1) app/a-1 to /
1700000080:  ::: completed emerge (1 of 1) app/a-1 to /
";
    let (inflight, atoms) = read_file_test(log);
    assert!(inflight.is_empty());
    assert_eq!(atoms.len(), 1);
    assert_eq!(atoms[0].total_time, 30);
}

#[test]
fn samples_accumulate_per_identity() {
    let log = "\
1700000000:  >>> emerge (1 of 1) app/a-1 to /
1700000020:  ::: completed emerge (1 of 1) app/a-1 to /
1700000100:  >>> emerge (1 of 1) app/a-2 to /
1700000130:  ::: completed emerge (1 of 1) app/a-2 to /
";
    let (_, atoms) = read_file_test(log);
    assert_eq!(atoms.len(), 1);
    assert_eq!(atoms[0].num_emerge, 2);
    assert_eq!(atoms[0].total_time, 50);
    assert_eq!(atoms[0].best_time, 20);
    assert_eq!(atoms[0].worst_time, 30);
    assert_eq!(atoms[0].last_time, 1700000130);
    assert_eq!(atoms[0].filter_time(), 25);
}

#[test]
fn comments_short_lines_and_crlf() {
    let log = "# 1700000000:  >>> emerge (1 of 1) app/a-1 to /\r\n\r\nshort\r\n1700000000:  >>> emerge (1 of 1) app/b-1 to /\r\n";
    let (inflight, _) = read_file_test(log);
    assert_eq!(inflight.len(), 1);
    assert_eq!(inflight[0].full_name, "app/b-1");
}

#[test]
fn end_without_start_is_ignored() {
    let log = "1700000020:  ::: completed emerge (1 of 1) app/a-1 to /\n";
    let (inflight, atoms) = read_file_test(log);
    assert!(inflight.is_empty());
    assert!(atoms.is_empty());
}

#[test]
fn non_numeric_time_gives_no_event() {
    assert!(get_info("aaaaa:").is_none());
    assert!(get_info("12a45: (1 of 1) a/b-0 to /").is_none());
    assert!(get_info("99999999999: (1 of 1) a/b-0 to /").is_none());
}

#[test]
fn missing_slash_gives_no_event() {
    assert!(get_info("146181: (1 of 1) ab-0 to /").is_none());
}

#[test]
fn start_line_fields() {
    let p = get_info("1700000000:  >>> emerge (12 of 40) dev-python/PyQt6-6.7.1-r1 to /").unwrap();
    assert_eq!(p.category, "dev-python");
    assert_eq!(p.name, "PyQt6");
    assert_eq!(p.full_name, "dev-python/PyQt6-6.7.1-r1");
    assert_eq!(p.num, "12 of 40");
    assert_eq!(p.time, 1700000000);
    assert!(!p.is_binary);
}

#[test]
fn identity_without_version_gives_no_event() {
    assert!(get_info("1: (x) a/b to /").is_none());
    assert!(get_info_3equal("1234567890:  === (1 of 1) Merging (a/b::/var/db/repos)", 0).is_none());
}

#[test]
fn full_name_starts_with_identity_and_dash() {
    let p = get_info("1700000000:  >>> emerge (1 of 1) sys-devel/gcc-13.3.1_p20240614 to /").unwrap();
    assert!(p.full_name.starts_with(&(p.cpn() + "-")));
}

#[test]
fn line_outcomes() {
    let mut inflight = Vec::new();
    let mut atoms = Vec::new();
    assert_eq!(act_on_line("# comment", &mut inflight, &mut atoms), LineStatus::Ignored);
    assert_eq!(
        act_on_line("1700000000:  >>> AUTOCLEAN: sec-policy/selinux-java:0", &mut inflight, &mut atoms),
        LineStatus::Ignored
    );
    assert_eq!(
        act_on_line("1700000000:  >>> emerge (1 of 1) a/b-1 to /", &mut inflight, &mut atoms),
        LineStatus::Applied
    );
    assert_eq!(
        act_on_line("1700000000:  >>> emerge (1 of 1) a/b to /", &mut inflight, &mut atoms),
        LineStatus::Malformed
    );
    assert_eq!(
        act_on_line("17000x0000:  >>> emerge (1 of 1) a/b-1 to /", &mut inflight, &mut atoms),
        LineStatus::BadTimestamp
    );
    assert_eq!(act_on_line("1700000001:  *** terminating.", &mut inflight, &mut atoms), LineStatus::Applied);
    assert!(inflight.is_empty());
}

#[test]
fn skipped_lines_are_reported() {
    let log = "\
1700000000:  >>> emerge (1 of 1) a/b-1 to /
# a comment
17000x0000:  >>> emerge (1 of 1) a/c-1 to /
1700000002:  ::: completed emerge (1 of 1) a/d to /
";
    let mut inflight = Vec::new();
    let mut atoms = Vec::new();
    let skipped = read_file(log, &mut inflight, &mut atoms);
    assert_eq!(skipped, vec![(3, LineStatus::BadTimestamp), (4, LineStatus::Malformed)]);
    assert_eq!(inflight.len(), 1);
}

#[test]
fn last_line_of_text() {
    assert_eq!(last_line("a\nb\n[3/9] cc\n"), "[3/9] cc");
    assert_eq!(last_line("one\r\ntwo"), "two");
    assert_eq!(last_line(""), "");
}
