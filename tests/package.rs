use genlogsum::{Atom, Over, PackageInfo};

const NOW: u32 = 1234567890;

fn setup_atom(time: u32) -> Atom {
    Atom::new("cpn".to_string(), time, 0)
}

fn text(time: u64) -> String {
    let mut out = String::new();
    Atom::convert_text(time, &mut out);
    out
}

#[test]
fn package_info_cpn() {
    let p = PackageInfo {
        category: "a".to_string(),
        name: "b".to_string(),
        full_name: "a/b-0.0.1".to_string(),
        time: 1,
        is_binary: false,
        num: "".to_string(),
    };

    assert_eq!(p.cpn(), "a/b");
}

#[test]
fn atom_new() {
    let time = 15;
    let p = setup_atom(15);

    assert_eq!(p.cpn, "cpn".to_string());
    assert_eq!(p.num_emerge, 1);
    assert_eq!(p.best_time, time);
    assert_eq!(p.worst_time, time);
    assert_eq!(p.total_time, time);
}

#[test]
fn atom_add() {
    let time = 15;
    let mut p = setup_atom(0);
    p.add(time);

    assert_eq!(p.cpn, "cpn".to_string());
    assert_eq!(p.num_emerge, 2);
    assert_eq!(p.best_time, 0);
    assert_eq!(p.worst_time, time);
    assert_eq!(p.total_time, time);

    p.add(time);
    assert_eq!(p.total_time, 2 * time);
}

#[test]
fn atom_filter_time_2() {
    let mut atom = setup_atom(10);
    atom.add(30);
    assert_eq!(atom.total_time, 40);
    assert_eq!(atom.filter_time(), 20);
    assert_eq!(atom.time_avg(), 20);
}

#[test]
fn atom_filter_time_4_same() {
    let mut atom = setup_atom(10);
    atom.add(10);
    atom.add(10);
    atom.add(10);

    assert_eq!(atom.total_time, 40);
    assert_eq!(atom.filter_time(), 10);
    assert_eq!(atom.time_avg(), 10);
}

#[test]
fn atom_filter_time_4_diff() {
    let mut atom = setup_atom(10);
    atom.add(20);
    atom.add(30);
    atom.add(40);

    assert_eq!(atom.total_time, 100);
    assert_eq!(atom.filter_time(), 50 / 2);
    assert_eq!(atom.time_avg(), 100 / 4);
}

#[test]
fn two_samples_average_without_trimming() {
    let mut atom = setup_atom(20);
    atom.add(30);
    assert_eq!(atom.filter_time(), 25);
    assert_eq!(atom.time_avg(), 25);
}

#[test]
fn atom_convert_text_none() {
    assert_eq!(text(0), "a few seconds".to_string());
}

#[test]
fn atom_convert_text_seconds() {
    assert_eq!(text(32), "a few seconds".to_string());
}

#[test]
fn atom_convert_text_minutes() {
    assert_eq!(text(29 * 60 + 27), "29m ".to_string());
    assert_eq!(text(1800), "30m ".to_string());
}

#[test]
fn atom_convert_text_hours() {
    assert_eq!(text(71 * 60 + 61), "1h 12m ".to_string());
}

#[test]
fn atom_convert_text_days() {
    assert_eq!(text(91 * 24 * 60 * 60 + 9 * 60 * 60 + 43 * 60), "91d 9h 43m ".to_string());
}

#[test]
fn convert_text_appends() {
    let mut out = String::from("Total: ");
    Atom::convert_text(86400 + 60, &mut out);
    assert_eq!(out, "Total: 1d 1m ");
    assert_eq!(text(3600), "1h ");
}

#[test]
fn atom_comp_avg_no_history() {
    let mut atom = setup_atom(0);
    atom.last_time = NOW - 1;
    let (t, over) = atom.comp_avg(NOW);
    assert_eq!(t as f64 / 4.0, 1.);
    assert!(matches!(over, Over::ALL));
}

#[test]
fn atom_comp_avg_over_all() {
    // 52h 8m ago
    let time = 52 * 60 * 60 + 8 * 60;
    let mut atom = setup_atom(21);
    atom.last_time = NOW - time;
    let (t, over) = atom.comp_avg(NOW);
    assert_eq!(t as f64 / 4.0, (time - 21) as f64);
    assert!(matches!(over, Over::ALL));
}

#[test]
fn atom_comp_avg_over_avg() {
    let mut atom = setup_atom(10);
    atom.add(10);
    atom.add(61);
    atom.last_time = NOW - 15;
    let (t, over) = atom.comp_avg(NOW);
    assert_eq!(t as f64 / 4.0, 12. * 1.25 + 60.);
    assert!(matches!(over, Over::AVG));
}

#[test]
fn atom_comp_avg_over_no() {
    let mut atom = setup_atom(60);
    atom.last_time = NOW - 10;
    let (t, over) = atom.comp_avg(NOW);
    assert_eq!(t as f64 / 4.0, 50. * 1.25 + 60.);
    assert!(matches!(over, Over::NO));
}

#[test]
fn comp_avg_overrun_past_worst() {
    let mut atom = setup_atom(10);
    atom.last_time = NOW - 15;
    assert_eq!(atom.comp_avg(NOW), (5 * 4, Over::ALL));
}

#[test]
fn comp_avg_within_average() {
    let mut atom = setup_atom(10);
    atom.last_time = NOW - 5;
    let (t, over) = atom.comp_avg(NOW);
    assert_eq!(over, Over::NO);
    assert_eq!(t as f64 / 4.0, 66.25);
}

#[test]
fn comp_avg_worst_tier_has_no_padding() {
    // samples 10, 10, 40: trimmed average 10, average 20, worst 40
    let mut atom = setup_atom(10);
    atom.add(10);
    atom.add(40);
    atom.last_time = NOW - 25;
    assert_eq!(atom.comp_avg(NOW), (15 * 4, Over::AVGWORST));
}

#[test]
fn comp_avg_unknown_start_counts_no_elapsed_time() {
    let atom = setup_atom(100);
    assert_eq!(atom.comp_avg(NOW), (100 * 5 + 240, Over::NO));
}
