//! The report: one line per running or queued build with what is left of it.
use vstd::prelude::*;

use crate::config::{Arguments, EmergeResume};
use crate::package::{duration_text, eta, cpn_of, Atom, AtomView, Over, PackageInfo, PackageView};
use crate::parse_file::{
    atom_views, atoms_ok, cpn_index, cpn_size, find_cpn, find_key, has_cpn, has_key, pkg_views,
    set_package_time, set_time_spec, size_in,
};
use crate::text::{chars_of, find_char, find_in, is_digit_char, push_char, string_of};

verus! {

/// The wording of a duration of `t` seconds, without the space that ends it.
pub open spec fn duration_label(t: nat) -> Seq<char> {
    let x = duration_text(t);
    if x.len() > 0 && x.last() == ' ' {
        x.drop_last()
    } else {
        x
    }
}

fn label_of(t: u64) -> (r: String)
    ensures
        r@ == duration_label(t as nat),
{
    let mut s = String::new();
    Atom::convert_text(t, &mut s);
    let c = chars_of(s.as_str());
    if c.len() > 0 && c[c.len() - 1] == ' ' {
        string_of(&c, 0, c.len() - 1)
    } else {
        s
    }
}

/// The words that introduce an estimate of each tier.
pub open spec fn over_prefix(o: Over) -> Seq<char> {
    match o {
        Over::NO => ", ETA:"@,
        Over::AVG => ", ETA (avg):"@,
        Over::AVGWORST => ", ETA (worst):"@,
        Over::ALL => " is over by"@,
    }
}

/// The text of an estimate of `t` quarters of a second from tier `over`.
pub fn get_time_emerge(t: u64, over: Over) -> (r: String)
    ensures
        r@ == over_prefix(over) + seq![' '] + duration_label(t as nat / 4),
{
    let mut out = String::new();
    match over {
        Over::NO => out.append(", ETA:"),
        Over::AVG => out.append(", ETA (avg):"),
        Over::AVGWORST => out.append(", ETA (worst):"),
        Over::ALL => out.append(" is over by"),
    }
    push_char(&mut out, ' ');
    let label = label_of(t / 4);
    out.append(label.as_str());
    out
}

/// An estimate as mathematical values.
pub open spec fn opt_eta(t: Option<(u64, Over)>) -> Option<(int, Over)> {
    match t {
        Some((q, o)) => Some((q as int, o)),
        None => None,
    }
}

/// The estimate for a running build of identity `k`; nothing without history.
pub open spec fn time_spec(a: Seq<AtomView>, k: Seq<char>, now: u32) -> Option<(int, Over)> {
    if has_cpn(a, k) {
        Some(eta(a[cpn_index(a, k)], now))
    } else {
        None
    }
}

/// The estimate for the running build of identity `cpn`, in quarters of a
/// second, or nothing when that identity has no history.
pub fn get_time_package(cpn: &String, atoms: &Vec<Atom>, now: u32) -> (r: Option<(u64, Over)>)
    requires
        atoms_ok(atom_views(atoms@)),
    ensures
        opt_eta(r) == time_spec(atom_views(atoms@), cpn@, now),
{
    let ghost s = atom_views(atoms@);
    match find_cpn(atoms, cpn) {
        Some(i) => {
            assert(s[i as int].cpn == cpn@);
            assert(cpn_index(s, cpn@) == i) by {
                let j = cpn_index(s, cpn@);
                assert(s[j].cpn == cpn@);
            }
            assert(s[i as int].wf());
            Some(atoms[i].comp_avg(now))
        },
        None => None,
    }
}

/// The identity part of a full name, or the whole name when it has no version.
pub open spec fn cpn_part(full: Seq<char>) -> Seq<char> {
    match cpn_size(full) {
        Some(k) => full.subrange(0, k),
        None => full,
    }
}

/// The fixed estimate of a binary install: two minutes, in quarters of a second.
pub const BINARY_QUARTERS: u64 = 480;

/// The estimate for a package: the fixed one for a binary install, the one
/// from the history of its identity otherwise.
pub open spec fn queue_time_spec(binary: bool, name: Seq<char>, a: Seq<AtomView>, now: u32) -> Option<
    (int, Over),
> {
    if binary {
        Some((BINARY_QUARTERS as int, Over::NO))
    } else {
        time_spec(a, cpn_part(name), now)
    }
}

fn identity_of(name: &String) -> (r: String)
    ensures
        r@ == cpn_part(name@),
{
    let c = chars_of(name.as_str());
    assert(c@.subrange(0, c@.len() as int) == c@);
    match size_in(&c, 0, c.len()) {
        Some(k) => string_of(&c, 0, k),
        None => string_of(&c, 0, c.len()),
    }
}

/// The estimate for a queued or running package (see [`queue_time_spec`]).
pub fn get_time(r: &EmergeResume, atoms: &Vec<Atom>, now: u32) -> (t: Option<(u64, Over)>)
    requires
        atoms_ok(atom_views(atoms@)),
    ensures
        opt_eta(t) == queue_time_spec(r.binary, r.name@, atom_views(atoms@), now),
{
    if r.binary {
        return Some((BINARY_QUARTERS, Over::NO));
    }
    let cpn = identity_of(&r.name);
    get_time_package(&cpn, atoms, now)
}

/// The end of a line: the estimate with its tier, or "Unknow" without history.
pub open spec fn eta_suffix(t: Option<(int, Over)>) -> Seq<char> {
    match t {
        Some((q, o)) => over_prefix(o) + seq![' '] + duration_label((q / 4) as nat),
        None => ", Unknow"@,
    }
}

/// Appends the end of a line for the estimate `time` (see [`eta_suffix`]).
pub fn format_time(time: Option<(u64, Over)>, output: &mut String)
    ensures
        final(output)@ == old(output)@ + eta_suffix(opt_eta(time)),
{
    match time {
        Some((q, o)) => {
            let s = get_time_emerge(q, o);
            output.append(s.as_str());
        },
        None => output.append(", Unknow"),
    }
}

/// The sum of two quarter counts, held at the largest `u64`.
pub open spec fn sat_sum(x: int, y: int) -> int {
    if x + y > u64::MAX {
        u64::MAX as int
    } else {
        x + y
    }
}

/// A running total: unknown as soon as one of its terms is.
pub open spec fn total_spec(total: Option<int>, t: Option<int>) -> Option<int> {
    match (total, t) {
        (Some(x), Some(y)) => Some(sat_sum(x, y)),
        _ => None,
    }
}

/// Adds a term to a running total; the total is unknown as soon as one of
/// its terms is.
pub fn add_time(total: Option<u64>, t: Option<u64>) -> (r: Option<u64>)
    ensures
        r matches Some(x) ==> total_spec(
            match total {
                Some(a) => Some(a as int),
                None => None,
            },
            match t {
                Some(b) => Some(b as int),
                None => None,
            },
        ) == Some(x as int),
        r is None <==> (total is None || t is None),
{
    match (total, t) {
        (Some(a), Some(b)) => {
            if a > u64::MAX - b {
                Some(u64::MAX)
            } else {
                Some(a + b)
            }
        },
        _ => None,
    }
}

/// The estimate of a term, forgetting its tier.
pub open spec fn quarters_of(t: Option<(int, Over)>) -> Option<int> {
    match t {
        Some((q, _)) => Some(q),
        None => None,
    }
}

/// The total estimate of the queued packages, in quarters of a second;
/// unknown when one of them has no history.
pub open spec fn resume_total(rs: Seq<EmergeResume>, a: Seq<AtomView>, now: u32) -> Option<int>
    decreases rs.len(),
{
    if rs.len() == 0 {
        Some(0)
    } else {
        total_spec(
            resume_total(rs.drop_last(), a, now),
            quarters_of(queue_time_spec(rs.last().binary, rs.last().name@, a, now)),
        )
    }
}

/// The total of the queue, as it ends a line.
pub open spec fn total_suffix(t: Option<int>) -> Seq<char> {
    match t {
        Some(q) => ", "@ + duration_label((q / 4) as nat),
        None => ", Total: Unknow"@,
    }
}

/// Appends the total estimate of the queued packages `resume` to `output`.
pub fn compile_resumelist(
    resume: &Vec<EmergeResume>,
    atoms: &Vec<Atom>,
    now: u32,
    output: &mut String,
)
    requires
        atoms_ok(atom_views(atoms@)),
    ensures
        final(output)@ == old(output)@ + total_suffix(resume_total(resume@, atom_views(atoms@), now)),
{
    let ghost a = atom_views(atoms@);
    let mut total: Option<u64> = Some(0);
    let mut i: usize = 0;
    while i < resume.len()
        invariant
            i <= resume@.len(),
            a == atom_views(atoms@),
            atoms_ok(a),
            resume_total(resume@.subrange(0, i as int), a, now) == match total {
                Some(x) => Some(x as int),
                None => None::<int>,
            },
        decreases resume@.len() - i,
    {
        let t = get_time(&resume[i], atoms, now);
        let q = match t {
            Some((q, _)) => Some(q),
            None => None,
        };
        total = add_time(total, q);
        assert(resume@.subrange(0, i + 1).drop_last() == resume@.subrange(0, i as int));
        i = i + 1;
    }
    assert(resume@.subrange(0, i as int) == resume@);
    match total {
        Some(q) => {
            output.append(", ");
            let label = label_of(q / 4);
            output.append(label.as_str());
        },
        None => output.append(", Total: Unknow"),
    }
}

/// The progress marker that ends a build tool's line, `[done/total]`, when the
/// line starts with `[` then a digit or a space and a digit; nothing otherwise.
pub open spec fn progress_spec(l: Seq<char>) -> Seq<char> {
    if l.len() > 1 && l[0] == '[' && (is_digit_char(l[1]) || (l[1] == ' ' && l.len() > 2
        && is_digit_char(l[2]))) {
        match find_char(l, ']') {
            Some(k) => l.subrange(0, k + 1),
            None => l.subrange(0, if l.len() < 4 { l.len() as int } else { 4 }),
        }
    } else {
        Seq::empty()
    }
}

/// The progress marker of a build tool's last line (see [`progress_spec`]).
pub fn ninja_progress(line: &str) -> (r: String)
    ensures
        r@ == progress_spec(line@),
{
    let l = chars_of(line);
    assert(l@.subrange(0, l@.len() as int) == l@);
    if l.len() > 1 && l[0] == '[' && (('0' <= l[1] && l[1] <= '9') || (l[1] == ' ' && l.len() > 2
        && '0' <= l[2] && l[2] <= '9')) {
        match find_in(&l, 0, l.len(), ']') {
            Some(k) => string_of(&l, 0, k + 1),
            None => string_of(&l, 0, if l.len() < 4 { l.len() } else { 4 }),
        }
    } else {
        String::new()
    }
}

/// The first of `lines` that is not empty; nothing when all are.
pub open spec fn first_nonempty(lines: Seq<Seq<char>>) -> Seq<char>
    decreases lines.len(),
{
    if lines.len() == 0 {
        Seq::empty()
    } else if lines[0].len() > 0 {
        lines[0]
    } else {
        first_nonempty(lines.drop_first())
    }
}

/// The views of some strings.
pub open spec fn str_views(v: Seq<String>) -> Seq<Seq<char>> {
    v.map_values(|s: String| s@)
}

/// Appends a space and the progress marker of the first non-empty line among
/// the last lines of a build's candidate logs, in the order they were tried.
pub fn ninja_read(last_lines: &Vec<String>, output: &mut String)
    ensures
        final(output)@ == old(output)@ + seq![' '] + progress_spec(
            first_nonempty(str_views(last_lines@)),
        ),
{
    push_char(output, ' ');
    let ghost all = str_views(last_lines@);
    let ghost start = output@;
    assert(all.subrange(0, all.len() as int) == all);
    let mut i: usize = 0;
    while i < last_lines.len()
        invariant
            i <= last_lines@.len(),
            start == old(output)@ + seq![' '],
            output@ == start,
            all == str_views(last_lines@),
            first_nonempty(all) == first_nonempty(all.subrange(i as int, all.len() as int)),
            forall|j: int| 0 <= j < i ==> all[j].len() == 0,
        decreases last_lines@.len() - i,
    {
        let line = &last_lines[i];
        let c = chars_of(line.as_str());
        let ghost tail = all.subrange(i as int, all.len() as int);
        assert(tail[0] == line@);
        if c.len() > 0 {
            assert(first_nonempty(tail) == line@);
            let p = ninja_progress(line.as_str());
            output.append(p.as_str());
            return ;
        }
        assert(tail.drop_first() == all.subrange(i + 1, all.len() as int));
        i = i + 1;
    }
    assert(all.subrange(i as int, all.len() as int) == Seq::<Seq<char>>::empty());
    assert(progress_spec(Seq::<char>::empty()) == Seq::<char>::empty());
}

/// The UTC date and time of a Unix time, written `YYYYmmdd-HHMMSS`.
pub uninterp spec fn stamp_of(t: u32) -> Seq<char>;

/// Relies on chrono's `DateTime::from_timestamp` and its `format` with
/// `%Y%m%d-%H%M%S`: the date and time of `t` in UTC, a value of `t` alone.
#[verifier::external_body]
fn log_stamp(t: u32) -> (r: String)
    ensures
        r@ == stamp_of(t),
{
    match chrono::DateTime::from_timestamp(t as i64, 0) {
        Some(d) => d.format("%Y%m%d-%H%M%S").to_string(),
        None => String::new(),
    }
}

/// Where a build tool's log of the package `full_name` is kept, for the
/// date and time `stamp` at which it was created.
pub open spec fn stamped_path_spec(full_name: Seq<char>, stamp: Seq<char>) -> Seq<char> {
    "/var/log/portage/build/"@ + full_name + seq![':'] + stamp + ".log"@
}

/// Where a build tool's log of the package `full_name` started at `t` is kept.
pub open spec fn log_path_spec(full_name: Seq<char>, t: u32) -> Seq<char> {
    stamped_path_spec(full_name, stamp_of(t))
}

/// The path of a build tool's log of `full_name` created at `stamp` (see
/// [`stamped_path_spec`]).
pub fn log_path_with_stamp(full_name: &str, stamp: &str) -> (r: String)
    ensures
        r@ == stamped_path_spec(full_name@, stamp@),
{
    let mut path = String::new();
    path.append("/var/log/portage/build/");
    path.append(full_name);
    push_char(&mut path, ':');
    path.append(stamp);
    path.append(".log");
    path
}

fn log_path(full_name: &String, t: u32) -> (r: String)
    ensures
        r@ == log_path_spec(full_name@, t),
{
    let stamp = log_stamp(t);
    log_path_with_stamp(full_name.as_str(), stamp.as_str())
}

/// The logs that may hold a build's progress: the log may have been created a
/// second after, at, or a second before the time in the emerge log, tried in
/// that order.
pub open spec fn candidates_spec(p: PackageView) -> Seq<Seq<char>> {
    let after = if p.time < u32::MAX {
        seq![log_path_spec(p.full_name, (p.time + 1) as u32)]
    } else {
        Seq::empty()
    };
    let before = if p.time > 0 {
        seq![log_path_spec(p.full_name, (p.time - 1) as u32)]
    } else {
        Seq::empty()
    };
    after + seq![log_path_spec(p.full_name, p.time)] + before
}

/// The paths of the logs that may hold the progress of build `p` (see
/// [`candidates_spec`]).
pub fn ninja_log_paths(p: &PackageInfo) -> (r: Vec<String>)
    ensures
        str_views(r@) == candidates_spec(p@),
{
    let mut r: Vec<String> = Vec::new();
    if p.time < u32::MAX {
        r.push(log_path(&p.full_name, p.time + 1));
    }
    r.push(log_path(&p.full_name, p.time));
    if p.time > 0 {
        r.push(log_path(&p.full_name, p.time - 1));
    }
    assert(str_views(r@) == candidates_spec(p@));
    r
}

/// `s` without the `/` characters that end it.
pub open spec fn trim_slashes(s: Seq<char>) -> Seq<char>
    decreases s.len(),
{
    if s.len() > 0 && s.last() == '/' {
        trim_slashes(s.drop_last())
    } else {
        s
    }
}

/// What follows the last `/` of `s`.
pub open spec fn last_segment(s: Seq<char>) -> Seq<char>
    decreases s.len(),
{
    if s.len() == 0 || s.last() == '/' {
        Seq::empty()
    } else {
        last_segment(s.drop_last()).push(s.last())
    }
}

/// The name of a root folder: its last component.
pub open spec fn root_name(root: Seq<char>) -> Seq<char> {
    last_segment(trim_slashes(root))
}

fn root_name_of(root: &str) -> (r: String)
    ensures
        r@ == root_name(root@),
{
    let c = chars_of(root);
    let mut j: usize = c.len();
    assert(c@.subrange(0, j as int) == c@);
    while j > 0 && c[j - 1] == '/'
        invariant
            j <= c@.len(),
            trim_slashes(c@) == trim_slashes(c@.subrange(0, j as int)),
        decreases j,
    {
        assert(c@.subrange(0, j as int).drop_last() == c@.subrange(0, j - 1));
        j = j - 1;
    }
    let ghost t = c@.subrange(0, j as int);
    assert(trim_slashes(t) == t);
    let mut i: usize = j;
    while i > 0 && c[i - 1] != '/'
        invariant
            i <= j <= c@.len(),
            t == c@.subrange(0, j as int),
            last_segment(t) == last_segment(c@.subrange(0, i as int)) + c@.subrange(
                i as int,
                j as int,
            ),
        decreases i,
    {
        let ghost pre = c@.subrange(0, i as int);
        assert(pre.drop_last() == c@.subrange(0, i - 1));
        assert(c@.subrange(i - 1, j as int) == seq![pre.last()] + c@.subrange(i as int, j as int));
        assert(last_segment(pre) == last_segment(pre.drop_last()).push(pre.last()));
        assert(last_segment(pre.drop_last()).push(pre.last()) + c@.subrange(i as int, j as int)
            == last_segment(pre.drop_last()) + c@.subrange(i - 1, j as int));
        i = i - 1;
    }
    assert(last_segment(c@.subrange(0, i as int)) == Seq::<char>::empty());
    assert(Seq::<char>::empty() + c@.subrange(i as int, j as int) == c@.subrange(
        i as int,
        j as int,
    ));
    string_of(&c, i, j)
}

/// A build is left out of the report a week after it started.
pub const WEEK: u32 = 604800;

/// The build started more than a week before `now`.
pub open spec fn too_old(p: PackageView, now: u32) -> bool {
    now >= p.time && now - p.time > WEEK
}

/// The estimate for the build `p`.
pub open spec fn package_time(p: PackageView, a: Seq<AtomView>, now: u32) -> Option<(int, Over)> {
    queue_time_spec(p.is_binary, cpn_of(p.category, p.name), a, now)
}

/// The status of a build: its ordinal, its full name, its estimate, then the
/// progress of its own log and the total of the queue when asked for.
pub open spec fn status_text(
    p: PackageView,
    a: Seq<AtomView>,
    config: Arguments,
    now: u32,
    resume: Seq<EmergeResume>,
    progress: Seq<char>,
) -> Seq<char> {
    (if p.num.len() > 0 {
        p.num + ", "@
    } else {
        Seq::empty()
    }) + p.full_name + eta_suffix(package_time(p, a, now)) + (if config.read_ninja {
        progress
    } else {
        Seq::empty()
    }) + (if config.format.full {
        total_suffix(resume_total(resume, a, now))
    } else {
        Seq::empty()
    })
}

/// The status of build `emerge` (see [`status_text`]) and its estimate;
/// nothing for a build that started more than a week before `now`.
pub fn status_package(
    emerge: &PackageInfo,
    atoms: &Vec<Atom>,
    config: &Arguments,
    now: u32,
    resume: &Vec<EmergeResume>,
    progress: &String,
) -> (r: Option<(String, Option<(u64, Over)>)>)
    requires
        atoms_ok(atom_views(atoms@)),
    ensures
        too_old(emerge@, now) ==> r is None,
        !too_old(emerge@, now) ==> (r matches Some((s, t)) && s@ == status_text(
            emerge@,
            atom_views(atoms@),
            *config,
            now,
            resume@,
            progress@,
        ) && opt_eta(t) == package_time(emerge@, atom_views(atoms@), now)),
{
    if now >= emerge.time && now - emerge.time > WEEK {
        return None;
    }
    let mut output = String::new();
    let num = chars_of(emerge.num.as_str());
    if num.len() > 0 {
        output.append(emerge.num.as_str());
        output.append(", ");
    }
    output.append(emerge.full_name.as_str());
    let query = EmergeResume { binary: emerge.is_binary, name: emerge.cpn() };
    let t = get_time(&query, atoms, now);
    format_time(t, &mut output);
    if config.read_ninja {
        output.append(progress.as_str());
    }
    if config.format.full {
        compile_resumelist(resume, atoms, now, &mut output);
    }
    Some((output, t))
}

/// What starts a line when the root is shown: the root's name and a colon,
/// for any root but `/`.
pub open spec fn root_prefix(show_root: bool, root: Seq<char>) -> Seq<char> {
    if show_root && !(root.len() == 1 && root[0] == '/') && root_name(root).len() > 0 {
        root_name(root) + ": "@
    } else {
        Seq::empty()
    }
}

/// The line of a build in the report and the estimate it adds to the total.
pub open spec fn package_line(
    p: PackageView,
    a: Seq<AtomView>,
    config: Arguments,
    root: Seq<char>,
    now: u32,
    resume: Seq<EmergeResume>,
    progress: Seq<char>,
) -> (Seq<char>, Option<int>) {
    if too_old(p, now) {
        (root_prefix(config.show_root, root) + seq!['\n'], None)
    } else {
        (
            root_prefix(config.show_root, root) + status_text(p, a, config, now, resume, progress)
                + seq!['\n'],
            quarters_of(package_time(p, a, now)),
        )
    }
}

/// Appends the line of build `p` (see [`package_line`]) to `print`, and
/// returns its estimate; nothing for a build left out.
pub fn emerge_package(
    p: &PackageInfo,
    atoms: &Vec<Atom>,
    config: &Arguments,
    fakeroot: &str,
    now: u32,
    resume: &Vec<EmergeResume>,
    progress: &String,
    print: &mut String,
) -> (r: Option<u64>)
    requires
        atoms_ok(atom_views(atoms@)),
    ensures
        final(print)@ == old(print)@ + package_line(
            p@,
            atom_views(atoms@),
            *config,
            fakeroot@,
            now,
            resume@,
            progress@,
        ).0,
        (match r {
            Some(x) => Some(x as int),
            None => None,
        }) == package_line(p@, atom_views(atoms@), *config, fakeroot@, now, resume@, progress@).1,
{
    let root = chars_of(fakeroot);
    if config.show_root && !(root.len() == 1 && root[0] == '/') {
        let name = root_name_of(fakeroot);
        let n = chars_of(name.as_str());
        if n.len() > 0 {
            print.append(name.as_str());
            print.append(": ");
        }
    }
    let status = status_package(p, atoms, config, now, resume, progress);
    let r = match status {
        Some((s, t)) => {
            print.append(s.as_str());
            match t {
                Some((q, _)) => Some(q),
                None => None,
            }
        },
        None => None,
    };
    push_char(print, '\n');
    r
}

/// The progress text handed for the `i`-th build, if any.
pub open spec fn progress_at(progress: Seq<Seq<char>>, i: int) -> Seq<char> {
    if 0 <= i < progress.len() {
        progress[i]
    } else {
        Seq::empty()
    }
}

/// The lines of the running builds, in order, and the total of their estimates.
pub open spec fn running_report(
    ps: Seq<PackageView>,
    a: Seq<AtomView>,
    config: Arguments,
    root: Seq<char>,
    now: u32,
    resume: Seq<EmergeResume>,
    progress: Seq<Seq<char>>,
) -> (Seq<char>, Option<int>)
    decreases ps.len(),
{
    if ps.len() == 0 {
        (Seq::empty(), Some(0))
    } else {
        let prev = running_report(ps.drop_last(), a, config, root, now, resume, progress);
        let cur = package_line(
            ps.last(),
            a,
            config,
            root,
            now,
            resume,
            progress_at(progress, ps.len() - 1),
        );
        (prev.0 + cur.0, total_spec(prev.1, cur.1))
    }
}

/// The build that a queued package stands for, as if it started at `now`.
pub open spec fn queued_pkg(r: EmergeResume, now: u32) -> PackageView {
    let cpn = cpn_part(r.name@);
    match find_char(cpn, '/') {
        Some(s) => PackageView {
            category: cpn.subrange(0, s),
            name: cpn.subrange(s + 1, cpn.len() as int),
            full_name: r.name@,
            time: now,
            is_binary: r.binary,
            num: Seq::empty(),
        },
        None => PackageView {
            category: Seq::empty(),
            name: cpn,
            full_name: r.name@,
            time: now,
            is_binary: r.binary,
            num: Seq::empty(),
        },
    }
}

fn queued_package(r: &EmergeResume, now: u32) -> (p: PackageInfo)
    ensures
        p@ == queued_pkg(*r, now),
{
    let cpn = identity_of(&r.name);
    let c = chars_of(cpn.as_str());
    assert(c@.subrange(0, c@.len() as int) == c@);
    let (category, name) = match find_in(&c, 0, c.len(), '/') {
        Some(s) => (string_of(&c, 0, s), string_of(&c, s + 1, c.len())),
        None => (String::new(), cpn.clone()),
    };
    PackageInfo {
        category,
        name,
        full_name: r.name.clone(),
        time: now,
        is_binary: r.binary,
        num: String::new(),
    }
}

/// The lines of the queued packages that are not running, in order, with the
/// atoms as each such package takes `now` as its last start, and the total
/// that goes on from `total`.
pub open spec fn queued_report(
    rs: Seq<EmergeResume>,
    inflight: Seq<PackageView>,
    a: Seq<AtomView>,
    config: Arguments,
    root: Seq<char>,
    now: u32,
    resume: Seq<EmergeResume>,
    total: Option<int>,
) -> (Seq<char>, Seq<AtomView>, Option<int>)
    decreases rs.len(),
{
    if rs.len() == 0 {
        (Seq::empty(), a, total)
    } else {
        let prev = queued_report(rs.drop_last(), inflight, a, config, root, now, resume, total);
        let r = rs.last();
        if has_key(inflight, r.name@) {
            prev
        } else {
            let p = queued_pkg(r, now);
            let a2 = set_time_spec(prev.1, p);
            let cur = package_line(p, a2, config, root, now, resume, Seq::empty());
            (prev.0 + cur.0, a2, total_spec(prev.2, cur.1))
        }
    }
}

/// The line that closes a full listing.
pub open spec fn total_line(t: Option<int>) -> Seq<char> {
    "Total: "@ + match t {
        Some(q) => duration_label((q / 4) as nat),
        None => "Unknow"@,
    } + seq!['\n']
}

/// Appends the report to `print`: a line per running build (see
/// [`running_report`]), then, for a full listing, a line per queued package
/// that is not running (see [`queued_report`]) and the total of all estimates.
pub fn get_emerges(
    inflight: &Vec<PackageInfo>,
    atoms: &mut Vec<Atom>,
    config: &Arguments,
    fakeroot: &str,
    now: u32,
    resume: &Vec<EmergeResume>,
    progress: &Vec<String>,
    print: &mut String,
)
    requires
        atoms_ok(atom_views(old(atoms)@)),
    ensures
        atoms_ok(atom_views(final(atoms)@)),
        ({
            let run = running_report(
                pkg_views(inflight@),
                atom_views(old(atoms)@),
                *config,
                fakeroot@,
                now,
                resume@,
                str_views(progress@),
            );
            let queued = queued_report(
                resume@,
                pkg_views(inflight@),
                atom_views(old(atoms)@),
                *config,
                fakeroot@,
                now,
                resume@,
                run.1,
            );
            if config.format.all {
                &&& final(print)@ == old(print)@ + run.0 + queued.0 + total_line(queued.2)
                &&& atom_views(final(atoms)@) == queued.1
            } else {
                &&& final(print)@ == old(print)@ + run.0
                &&& final(atoms)@ == old(atoms)@
            }
        }),
{
    let ghost a0 = atom_views(atoms@);
    let ghost ps = pkg_views(inflight@);
    let ghost pr = str_views(progress@);
    let ghost printed_before = print@;
    let empty = String::new();
    let mut total: Option<u64> = Some(0);
    let mut i: usize = 0;
    while i < inflight.len()
        invariant
            i <= inflight@.len(),
            ps == pkg_views(inflight@),
            pr == str_views(progress@),
            a0 == atom_views(atoms@),
            atoms_ok(a0),
            atoms@ == old(atoms)@,
            empty@ == Seq::<char>::empty(),
            ({
                let run = running_report(
                    ps.subrange(0, i as int),
                    a0,
                    *config,
                    fakeroot@,
                    now,
                    resume@,
                    pr,
                );
                &&& print@ == printed_before + run.0
                &&& run.1 == match total {
                    Some(x) => Some(x as int),
                    None => None::<int>,
                }
            }),
        decreases inflight@.len() - i,
    {
        let progress_i = if i < progress.len() {
            &progress[i]
        } else {
            &empty
        };
        let t = emerge_package(&inflight[i], atoms, config, fakeroot, now, resume, progress_i, print);
        total = add_time(total, t);
        let ghost sub = ps.subrange(0, i + 1);
        assert(sub.drop_last() == ps.subrange(0, i as int));
        assert(sub.last() == inflight@[i as int]@);
        assert(printed_before + running_report(ps.subrange(0, i as int), a0, *config, fakeroot@, now, resume@, pr).0
            + package_line(inflight@[i as int]@, a0, *config, fakeroot@, now, resume@, progress_at(pr, i as int)).0
            == printed_before + running_report(sub, a0, *config, fakeroot@, now, resume@, pr).0);
        i = i + 1;
    }
    assert(ps.subrange(0, i as int) == ps);
    if !config.format.all {
        return ;
    }
    let ghost run = running_report(ps, a0, *config, fakeroot@, now, resume@, pr);
    let ghost printed_running = print@;
    let mut j: usize = 0;
    while j < resume.len()
        invariant
            j <= resume@.len(),
            ps == pkg_views(inflight@),
            atoms_ok(atom_views(atoms@)),
            empty@ == Seq::<char>::empty(),
            printed_running == printed_before + run.0,
            ({
                let queued = queued_report(
                    resume@.subrange(0, j as int),
                    ps,
                    a0,
                    *config,
                    fakeroot@,
                    now,
                    resume@,
                    run.1,
                );
                &&& print@ == printed_running + queued.0
                &&& atom_views(atoms@) == queued.1
                &&& queued.2 == match total {
                    Some(x) => Some(x as int),
                    None => None::<int>,
                }
            }),
        decreases resume@.len() - j,
    {
        let r = &resume[j];
        let ghost sub = resume@.subrange(0, j + 1);
        assert(sub.drop_last() == resume@.subrange(0, j as int));
        assert(sub.last() == *r);
        let ghost prev = queued_report(resume@.subrange(0, j as int), ps, a0, *config, fakeroot@, now, resume@, run.1);
        match find_key(inflight, &r.name) {
            Some(k) => {
                assert(ps[k as int].full_name == r.name@);
            },
            None => {
                let package = queued_package(r, now);
                set_package_time(&package, atoms);
                let t = emerge_package(&package, atoms, config, fakeroot, now, resume, &empty, print);
                total = add_time(total, t);
                assert(print@ == printed_running + prev.0 + package_line(package@, atom_views(atoms@), *config, fakeroot@, now, resume@, Seq::empty()).0);
            },
        }
        j = j + 1;
    }
    assert(resume@.subrange(0, j as int) == resume@);
    print.append("Total: ");
    match total {
        Some(q) => {
            let label = label_of(q / 4);
            print.append(label.as_str());
        },
        None => print.append("Unknow"),
    }
    push_char(print, '\n');
}

} // verus!
