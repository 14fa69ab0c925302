use genlogsum::{
    compile_resumelist, emerge_package, get_emerges, get_info, get_info_3equal, get_time,
    get_time_emerge, ninja_log_paths, ninja_progress, ninja_read, read_file_test, set_last_time,
    status_package, Arguments, Atom, EmergeResume, Format, Over, PackageInfo,
};

const NOW: u32 = 1234567890;

fn get_default_config() -> Arguments {
    Arguments {
        files: vec!["./emerge.log".to_string()],
        fakeroots: vec!["/".to_string()],
        format: Format { full: false, all: false },
        read_ninja: false,
        show_root: false,
        skip_file: false,
    }
}

fn create_default_situation() -> (Arguments, Vec<Atom>, PackageInfo) {
    let config = get_default_config();
    let emerge = get_info("1234567890:  >>> emerge (1 of 1) app/testing-0.0.0 to /").unwrap();
    let map = vec![Atom::new(emerge.cpn(), 10, 0)];
    (config, map, emerge)
}

#[test]
fn set_last_time_work() {
    let default = create_default_situation();
    let emerge = default.2;
    let mut m = default.1;
    let map: Vec<PackageInfo> = vec![emerge, create_default_situation().2];
    assert_eq!(m[0].last_time, 0);
    set_last_time(&map, &mut m);
    assert_eq!(m[0].last_time, 1234567890);
}

#[test]
fn set_last_time_leaves_other_atoms() {
    let (_, _, emerge) = create_default_situation();
    let mut atoms = vec![Atom::new("app/retesting".to_string(), 10, 7)];
    set_last_time(&vec![emerge], &mut atoms);
    assert_eq!(atoms[0].last_time, 7);
}

#[test]
fn status_package_over_time() {
    let default = create_default_situation();
    let mut emerge = default.2;
    emerge.time = 0;
    let map = default.1;
    let config = default.0;
    let status = status_package(&emerge, &map, &config, NOW, &vec![], &String::new());
    assert!(status.is_none());
}

#[test]
fn status_package_no_history() {
    let default = create_default_situation();
    let emerge = default.2;
    let mut map = default.1;
    map.clear();
    let config = default.0;
    let status = status_package(&emerge, &map, &config, NOW, &vec![], &String::new());
    assert_eq!(status.unwrap().0, "1 of 1, app/testing-0.0.0, Unknow");
}

#[test]
fn status_package_get_time() {
    let default = create_default_situation();
    let emerge = default.2;
    let map = default.1;
    let config = default.0;
    let status = status_package(&emerge, &map, &config, NOW, &vec![], &String::new());
    assert_eq!(status.unwrap().0, "1 of 1, app/testing-0.0.0, ETA: 1m");
}

#[test]
fn emerge_package_binary_running() {
    let merge = "1234567890:  === (1 of 1) Merging Binary (category/package-1.2.3::/var/cache/binpkgs/category/package-1.2.3.gpkg.tar)";
    let package = get_info_3equal(merge, 0).unwrap();
    let completed_atoms: Vec<Atom> = vec![];
    let config = get_default_config();
    let mut print = String::new();

    emerge_package(&package, &completed_atoms, &config, "/", NOW, &vec![], &String::new(), &mut print);

    assert_eq!(print, "1 of 1, category/package-1.2.3, ETA: 2m\n");
}

#[test]
fn start_without_history_is_unknown() {
    let (inflight, mut atoms) = read_file_test("1700000000:  >>> emerge (1 of 1) a/b-1.0 to /\n");
    assert_eq!(inflight.len(), 1);
    let mut print = String::new();
    get_emerges(&inflight, &mut atoms, &get_default_config(), "/", 1700000010, &vec![], &vec![], &mut print);
    assert_eq!(print, "1 of 1, a/b-1.0, Unknow\n");
}

#[test]
fn running_build_with_history() {
    let log = "\
1700000000:  >>> emerge (1 of 1) a/b-1.0 to /
1700000600:  ::: completed emerge (1 of 1) a/b-1.0 to /
1700001000:  >>> emerge (1 of 1) a/b-1.1 to /
";
    let (inflight, mut atoms) = read_file_test(log);
    set_last_time(&inflight, &mut atoms);
    assert_eq!(atoms[0].last_time, 1700001000);
    let mut print = String::new();
    // 600 s on average, 120 s elapsed: (600 - 120) * 1.25 + 60 = 660 s
    get_emerges(&inflight, &mut atoms, &get_default_config(), "/", 1700001120, &vec![], &vec![], &mut print);
    assert_eq!(print, "1 of 1, a/b-1.1, ETA: 11m\n");
}

#[test]
fn overrun_is_reported() {
    let log = "\
1700000000:  >>> emerge (1 of 1) a/b-1.0 to /
1700000600:  ::: completed emerge (1 of 1) a/b-1.0 to /
1700001000:  >>> emerge (1 of 1) a/b-1.1 to /
";
    let (inflight, mut atoms) = read_file_test(log);
    set_last_time(&inflight, &mut atoms);
    let mut print = String::new();
    get_emerges(&inflight, &mut atoms, &get_default_config(), "/", 1700001000 + 3 * 3600 + 600, &vec![], &vec![], &mut print);
    assert_eq!(print, "1 of 1, a/b-1.1 is over by 3h\n");
}

#[test]
fn eta_texts() {
    assert_eq!(get_time_emerge(4 * 3600, Over::NO), ", ETA: 1h");
    assert_eq!(get_time_emerge(4 * 60, Over::AVG), ", ETA (avg): 1m");
    assert_eq!(get_time_emerge(4 * 30, Over::AVGWORST), ", ETA (worst): a few seconds");
    assert_eq!(get_time_emerge(4 * 86400, Over::ALL), " is over by 1d");
}

#[test]
fn binary_queue_entry_takes_two_minutes() {
    let r = EmergeResume { binary: true, name: "a/b-1".to_string() };
    assert_eq!(get_time(&r, &vec![], NOW), Some((480, Over::NO)));
    let r = EmergeResume { binary: false, name: "a/b-1".to_string() };
    assert_eq!(get_time(&r, &vec![], NOW), None);
    let atoms = vec![Atom::new("a/b".to_string(), 40, 0)];
    assert_eq!(get_time(&r, &atoms, NOW), Some((40 * 5 + 240, Over::NO)));
}

#[test]
fn queue_total() {
    let atoms = vec![Atom::new("a/b".to_string(), 600, 0)];
    let resume = vec![
        EmergeResume { binary: false, name: "a/b-1".to_string() },
        EmergeResume { binary: true, name: "c/d-2".to_string() },
    ];
    let mut out = String::new();
    compile_resumelist(&resume, &atoms, NOW, &mut out);
    // 600 * 1.25 + 60 = 810 s, plus 120 s
    assert_eq!(out, ", 15m");
    let resume = vec![EmergeResume { binary: false, name: "e/f-1".to_string() }];
    let mut out = String::new();
    compile_resumelist(&resume, &atoms, NOW, &mut out);
    assert_eq!(out, ", Total: Unknow");
}

#[test]
fn full_listing_with_queue() {
    let log = "\
1700000000:  >>> emerge (1 of 3) a/b-1.0 to /
1700000600:  ::: completed emerge (1 of 3) a/b-1.0 to /
1700001000:  >>> emerge (2 of 3) a/b-1.1 to /
";
    let (inflight, mut atoms) = read_file_test(log);
    set_last_time(&inflight, &mut atoms);
    let mut config = get_default_config();
    config.format.all = true;
    let resume = vec![
        EmergeResume { binary: false, name: "a/b-1.1".to_string() },
        EmergeResume { binary: true, name: "c/d-2".to_string() },
    ];
    let mut print = String::new();
    get_emerges(&inflight, &mut atoms, &config, "/", 1700001000, &resume, &vec![], &mut print);
    assert_eq!(
        print,
        "2 of 3, a/b-1.1, ETA: 13m\nc/d-2, ETA: 2m\nTotal: 15m\n"
    );
}

#[test]
fn root_name_is_shown() {
    let (config0, atoms, emerge) = create_default_situation();
    let mut config = config0;
    config.show_root = true;
    let mut print = String::new();
    emerge_package(&emerge, &atoms, &config, "/mnt/gentoo/", NOW, &vec![], &String::new(), &mut print);
    assert_eq!(print, "gentoo: 1 of 1, app/testing-0.0.0, ETA: 1m\n");
    let mut print = String::new();
    emerge_package(&emerge, &atoms, &config, "/", NOW, &vec![], &String::new(), &mut print);
    assert_eq!(print, "1 of 1, app/testing-0.0.0, ETA: 1m\n");
}

#[test]
fn progress_marker() {
    assert_eq!(ninja_progress("[225/3346] cc -c foo.c"), "[225/3346]");
    assert_eq!(ninja_progress("[ 12/300] cc"), "[ 12/300]");
    assert_eq!(ninja_progress("[a/3] cc"), "");
    assert_eq!(ninja_progress("make: done"), "");
    assert_eq!(ninja_progress("[12"), "[12");
}

#[test]
fn progress_from_first_log_found() {
    let mut out = String::new();
    ninja_read(&vec!["".to_string(), "[3/9] ld".to_string(), "[1/9] cc".to_string()], &mut out);
    assert_eq!(out, " [3/9]");
    let mut out = String::new();
    ninja_read(&vec![], &mut out);
    assert_eq!(out, " ");
}

#[test]
fn progress_shown_when_asked() {
    let (config0, atoms, emerge) = create_default_situation();
    let mut config = config0;
    config.read_ninja = true;
    let status = status_package(&emerge, &atoms, &config, NOW, &vec![], &" [7/8]".to_string());
    assert_eq!(status.unwrap().0, "1 of 1, app/testing-0.0.0, ETA: 1m [7/8]");
}

#[test]
fn log_paths_around_start() {
    let p = get_info("0: (1 of 1) a/b-1 to /").unwrap();
    let paths = ninja_log_paths(&p);
    assert_eq!(
        paths,
        vec![
            "/var/log/portage/build/a/b-1:19700101-000001.log".to_string(),
            "/var/log/portage/build/a/b-1:19700101-000000.log".to_string(),
        ]
    );
    let p = get_info("1234567890: (1 of 1) a/b-1 to /").unwrap();
    let paths = ninja_log_paths(&p);
    assert_eq!(paths.len(), 3);
    assert_eq!(paths[1], "/var/log/portage/build/a/b-1:20090213-233130.log");
    assert_eq!(paths[2], "/var/log/portage/build/a/b-1:20090213-233129.log");
}

#[test]
fn stamped_log_path() {
    assert_eq!(
        genlogsum::log_path_with_stamp("a/b-1", "20240101-120000"),
        "/var/log/portage/build/a/b-1:20240101-120000.log"
    );
}
