//! Reading the emerge log: what kind each line is, the build event it names,
//! and the state that the whole log leaves.
use vstd::prelude::*;

use crate::package::{cpn_of, Atom, AtomView, PackageInfo, PackageView};
use crate::text::{
    chars_of, copy_range, find_char, find_in, is_digit_char, parse_u32, parse_u32_in, string_of,
};

verus! {

/// What a line of the log reports.
#[derive(PartialEq, Eq, Structural, Clone, Copy, Debug)]
pub enum LineType {
    /// A build starts.
    Start,
    /// A binary package is merged.
    MergeBinary,
    /// A build is complete.
    End,
    /// The emerge run terminates.
    Term,
    /// Anything else.
    Unknow,
}

/// What reading one line of the log came to.
#[derive(PartialEq, Eq, Structural, Clone, Copy, Debug)]
pub enum LineStatus {
    /// The line was an event and was taken into account.
    Applied,
    /// The line is a comment, too short, or of no kind that matters.
    Ignored,
    /// The line is of a kind that names a build, but a field of it is missing.
    Malformed,
    /// The line is of a kind that names a build, but the text before its first
    /// `:` is not a time: the log does not have the expected format.
    BadTimestamp,
}

/// Scanning `s` from position `n`: the position of the first `-` that a digit
/// follows (the start of the version), the length of `s` when no such `-`
/// exists, or nothing when a `-` ends `s` before any such one.
pub open spec fn size_from(s: Seq<char>, n: int) -> Option<int>
    decreases s.len() - n,
{
    if n < 0 || n >= s.len() {
        Some(s.len() as int)
    } else if s[n] == '-' {
        if n + 1 >= s.len() {
            None
        } else if is_digit_char(s[n + 1]) {
            Some(n)
        } else {
            size_from(s, n + 1)
        }
    } else {
        size_from(s, n + 1)
    }
}

/// The length of the `category/name` part of `category/name-version`.
pub open spec fn cpn_size(s: Seq<char>) -> Option<int> {
    size_from(s, 0)
}

pub(crate) fn size_in(l: &Vec<char>, from: usize, to: usize) -> (r: Option<usize>)
    requires
        from <= to <= l@.len(),
    ensures
        r matches Some(k) ==> from + k <= to && cpn_size(l@.subrange(from as int, to as int))
            == Some(k as int),
        r is None ==> cpn_size(l@.subrange(from as int, to as int)) is None,
{
    let ghost s = l@.subrange(from as int, to as int);
    let mut i: usize = from;
    while i < to
        invariant
            from <= i <= to <= l@.len(),
            s == l@.subrange(from as int, to as int),
            size_from(s, 0) == size_from(s, i - from),
        decreases to - i,
    {
        if l[i] == '-' {
            if i + 1 >= to {
                return None;
            }
            let c = l[i + 1];
            if '0' <= c && c <= '9' {
                return Some(i - from);
            }
        }
        i = i + 1;
    }
    Some(to - from)
}

/// The length of the `category/name` part of `category/name-version`: the
/// version starts after the first `-` that a digit follows. Nothing when a
/// `-` ends the text before such a one.
pub fn get_size_cpn(cpnpv: &str) -> (r: Option<usize>)
    ensures
        r matches Some(k) ==> cpn_size(cpnpv@) == Some(k as int),
        r is None ==> cpn_size(cpnpv@) is None,
{
    let l = chars_of(cpnpv);
    assert(l@.subrange(0, l@.len() as int) == l@);
    size_in(&l, 0, l.len())
}

/// The event that `l` names when the package identity starts at `start`,
/// the version at `found`, and `sym` ends the full name. There is none unless
/// a `-` stands at `found`, inside the full name, so that the full name is the
/// identity, a `-`, and the version.
pub open spec fn build_spec(
    l: Seq<char>,
    start: int,
    found: int,
    time: u32,
    is_binary: bool,
    sym: char,
) -> Option<PackageView> {
    let cpn = l.subrange(start, found);
    match find_char(l.subrange(start, l.len() as int), sym) {
        None => None,
        Some(end) => if !(found < start + end && l[found] == '-') {
            None
        } else {
            match find_char(cpn, '/') {
                None => None,
                Some(slash) => match find_char(l, '(') {
                    None => None,
                    Some(open) => match find_char(l, ')') {
                        None => None,
                        Some(close) => if open + 1 > close {
                            None
                        } else {
                            Some(
                                PackageView {
                                    category: cpn.subrange(0, slash),
                                    name: cpn.subrange(slash + 1, cpn.len() as int),
                                    full_name: l.subrange(start, start + end),
                                    time,
                                    is_binary,
                                    num: l.subrange(open + 1, close),
                                },
                            )
                        },
                    },
                },
            }
        },
    }
}

/// The full name of an event is its identity, a `-`, and the version.
pub open spec fn versioned(p: PackageView) -> bool {
    let cpn = cpn_of(p.category, p.name);
    p.full_name.len() > cpn.len() && p.full_name.subrange(0, cpn.len() as int + 1) =~= cpn.push('-')
}

/// The view of an optional event.
pub open spec fn opt_view(r: Option<PackageInfo>) -> Option<PackageView> {
    match r {
        Some(p) => Some(p@),
        None => None,
    }
}

fn build_package_info(
    l: &Vec<char>,
    start: usize,
    found: usize,
    time: u32,
    is_binary: bool,
    end_symbol: char,
) -> (r: Option<PackageInfo>)
    requires
        start <= found <= l@.len(),
    ensures
        opt_view(r) == build_spec(l@, start as int, found as int, time, is_binary, end_symbol),
        r matches Some(p) ==> versioned(p@),
{
    let ghost cpn = l@.subrange(start as int, found as int);
    assert(l@.subrange(0, l@.len() as int) == l@);
    let end = find_in(l, start, l.len(), end_symbol)?;
    if !(found - start < end && l[found] == '-') {
        return None;
    }
    let slash = find_in(l, start, found, '/')?;
    let open = find_in(l, 0, l.len(), '(')?;
    let close = find_in(l, 0, l.len(), ')')?;
    if open + 1 > close {
        return None;
    }
    let category = string_of(l, start, start + slash);
    let name = string_of(l, start + slash + 1, found);
    let full_name = string_of(l, start, start + end);
    let num = string_of(l, open + 1, close);
    assert(category@ == cpn.subrange(0, slash as int));
    assert(name@ == cpn.subrange(slash + 1, cpn.len() as int));
    assert(cpn_of(category@, name@) =~= cpn);
    assert(full_name@.subrange(0, cpn.len() as int + 1) =~= cpn.push('-'));
    Some(PackageInfo { category, name, full_name, time, is_binary, num })
}

/// The start event that a line `>>> emerge (x of y) category/name-version to /`
/// names: the time before the first `:`, the identity two characters after the
/// first `)`, up to the version, and the full name up to the next space.
pub open spec fn info_spec(l: Seq<char>) -> Option<PackageView> {
    match find_char(l, ':') {
        None => None,
        Some(colon) => match parse_u32(l.subrange(0, colon)) {
            None => None,
            Some(time) => match find_char(l, ')') {
                None => None,
                Some(close) => if close + 2 > l.len() {
                    None
                } else {
                    match cpn_size(l.subrange(close + 2, l.len() as int)) {
                        None => None,
                        Some(size) => build_spec(
                            l,
                            close + 2,
                            close + 2 + size,
                            time,
                            false,
                            ' ',
                        ),
                    }
                },
            },
        },
    }
}

pub(crate) fn info_of(l: &Vec<char>) -> (r: Option<PackageInfo>)
    ensures
        opt_view(r) == info_spec(l@),
        r matches Some(p) ==> versioned(p@),
{
    assert(l@.subrange(0, l@.len() as int) == l@);
    let colon = find_in(l, 0, l.len(), ':')?;
    let time = parse_u32_in(l, 0, colon)?;
    let close = find_in(l, 0, l.len(), ')')?;
    if l.len() - close < 2 {
        return None;
    }
    let start = close + 2;
    let size = size_in(l, start, l.len())?;
    build_package_info(l, start, start + size, time, false, ' ')
}

/// The build event of a start line; nothing when a field is missing or the
/// time is not a number.
pub fn get_info(line: &str) -> (r: Option<PackageInfo>)
    ensures
        opt_view(r) == info_spec(line@),
        r matches Some(p) ==> versioned(p@),
{
    let l = chars_of(line);
    info_of(&l)
}

/// The merge event that a line `=== (x of y) Merging [Binary ](category/name-version::...)`
/// names. `position` is where the `)` after the ordinal stands, or 0 to look for
/// it from the 24th character on. The identity starts after the first `(` that
/// follows the word after that `)`; the full name ends at the next `:`; the
/// package is binary when that word starts with `B`.
pub open spec fn merge_info_spec(l: Seq<char>, position: int) -> Option<PackageView> {
    let pos = if position == 0 {
        if l.len() < 24 {
            None
        } else {
            match find_char(l.subrange(24, l.len() as int), ')') {
                Some(v) => Some(24 + v),
                None => None,
            }
        }
    } else {
        Some(position)
    };
    match pos {
        None => None,
        Some(pos) => match find_char(l, ':') {
            None => None,
            Some(colon) => match parse_u32(l.subrange(0, colon)) {
                None => None,
                Some(time) => {
                    let after = pos + 10;
                    if after > l.len() {
                        None
                    } else {
                        match find_char(l.subrange(after, l.len() as int), '(') {
                            None => None,
                            Some(open) => {
                                let start = after + open + 1;
                                match find_char(l.subrange(start, l.len() as int), ':') {
                                    None => None,
                                    Some(e) => match cpn_size(l.subrange(start, start + e)) {
                                        None => None,
                                        Some(size) => build_spec(
                                            l,
                                            start,
                                            start + size,
                                            time,
                                            after < l.len() && l[after] == 'B',
                                            ':',
                                        ),
                                    },
                                }
                            },
                        }
                    }
                },
            },
        },
    }
}

pub(crate) fn merge_info_of(l: &Vec<char>, position: usize) -> (r: Option<PackageInfo>)
    ensures
        opt_view(r) == merge_info_spec(l@, position as int),
        r matches Some(p) ==> versioned(p@),
{
    assert(l@.subrange(0, l@.len() as int) == l@);
    let mut pos = position;
    if pos == 0 {
        if l.len() < 24 {
            return None;
        }
        let v = find_in(l, 24, l.len(), ')')?;
        pos = 24 + v;
    }
    let colon = find_in(l, 0, l.len(), ':')?;
    let time = parse_u32_in(l, 0, colon)?;
    if pos > l.len() || l.len() - pos < 10 {
        return None;
    }
    let after = pos + 10;
    let open = find_in(l, after, l.len(), '(')?;
    let start = after + open + 1;
    let e = find_in(l, start, l.len(), ':')?;
    let end_pos = start + e;
    let size = size_in(l, start, end_pos)?;
    let is_binary = after < l.len() && l[after] == 'B';
    build_package_info(l, start, start + size, time, is_binary, ':')
}

/// The build event of a merge line (see [`merge_info_spec`]); nothing when a
/// field is missing or the time is not a number.
pub fn get_info_3equal(line: &str, position: usize) -> (r: Option<PackageInfo>)
    ensures
        opt_view(r) == merge_info_spec(line@, position as int),
        r matches Some(p) ==> versioned(p@),
{
    let l = chars_of(line);
    merge_info_of(&l, position)
}

/// Whether the two characters at `)+2` and `)+10`, counted from the first `)`,
/// are the `M` and the `B` of "Merging Binary".
pub open spec fn merging_binary_spec(l: Seq<char>) -> bool {
    match find_char(l, ')') {
        None => false,
        Some(p) => p + 10 < l.len() && l[p + 2] == 'M' && l[p + 10] == 'B',
    }
}

fn merging_binary(l: &Vec<char>) -> (r: bool)
    ensures
        r == merging_binary_spec(l@),
{
    assert(l@.subrange(0, l@.len() as int) == l@);
    match find_in(l, 0, l.len(), ')') {
        None => false,
        Some(p) => l.len() - p > 10 && l[p + 2] == 'M' && l[p + 10] == 'B',
    }
}

/// Whether a line is the merge of a binary package (see [`merging_binary_spec`]).
pub fn is_line_merging_binary(line: &str) -> (r: bool)
    ensures
        r == merging_binary_spec(line@),
{
    let l = chars_of(line);
    merging_binary(&l)
}

/// The kind of a line, read from the marker at characters 13 to 17 that follows
/// the time and its separator.
pub open spec fn line_type_spec(l: Seq<char>) -> LineType {
    let first = l[13];
    let last = l[17];
    if first == '>' && last == 'e' {
        LineType::Start
    } else if first == '=' && last == '(' {
        if merging_binary_spec(l) {
            LineType::MergeBinary
        } else {
            LineType::Unknow
        }
    } else if first == ':' && last == 'c' {
        LineType::End
    } else if first == '*' && last == 't' {
        LineType::Term
    } else {
        LineType::Unknow
    }
}

fn line_type(l: &Vec<char>) -> (r: LineType)
    requires
        l@.len() >= 18,
    ensures
        r == line_type_spec(l@),
{
    let first = l[13];
    let last = l[17];
    if first == '>' && last == 'e' {
        LineType::Start
    } else if first == '=' && last == '(' {
        if merging_binary(l) {
            LineType::MergeBinary
        } else {
            LineType::Unknow
        }
    } else if first == ':' && last == 'c' {
        LineType::End
    } else if first == '*' && last == 't' {
        LineType::Term
    } else {
        LineType::Unknow
    }
}

/// The kind of a line of at least 18 characters.
pub fn select_line_type(line: &str) -> (r: LineType)
    requires
        line@.len() >= 18,
    ensures
        r == line_type_spec(line@),
{
    let l = chars_of(line);
    line_type(&l)
}

/// The views of the builds in flight, in the order they started.
pub open spec fn pkg_views(v: Seq<PackageInfo>) -> Seq<PackageView> {
    v.map_values(|p: PackageInfo| p@)
}

/// The views of the atoms.
pub open spec fn atom_views(v: Seq<Atom>) -> Seq<AtomView> {
    v.map_values(|a: Atom| a@)
}

/// Some build in flight has the full name `k`.
pub open spec fn has_key(s: Seq<PackageView>, k: Seq<char>) -> bool {
    exists|i: int| 0 <= i < s.len() && s[i].full_name == k
}

/// Where the build in flight with full name `k` stands.
pub open spec fn key_index(s: Seq<PackageView>, k: Seq<char>) -> int {
    choose|i: int| 0 <= i < s.len() && s[i].full_name == k
}

/// No two builds in flight share a full name.
pub open spec fn keys_unique(s: Seq<PackageView>) -> bool {
    forall|i: int, j: int|
        0 <= i < s.len() && 0 <= j < s.len() && i != j ==> s[i].full_name != s[j].full_name
}

/// The builds in flight without the one named `k`.
pub open spec fn without(s: Seq<PackageView>, k: Seq<char>) -> Seq<PackageView> {
    if has_key(s, k) {
        s.remove(key_index(s, k))
    } else {
        s
    }
}

/// Some atom has the identity `k`.
pub open spec fn has_cpn(s: Seq<AtomView>, k: Seq<char>) -> bool {
    exists|i: int| 0 <= i < s.len() && s[i].cpn == k
}

/// Where the atom of identity `k` stands.
pub open spec fn cpn_index(s: Seq<AtomView>, k: Seq<char>) -> int {
    choose|i: int| 0 <= i < s.len() && s[i].cpn == k
}

/// No two atoms share an identity, and each holds well-formed counters.
pub open spec fn atoms_ok(s: Seq<AtomView>) -> bool {
    &&& forall|i: int, j: int|
        0 <= i < s.len() && 0 <= j < s.len() && i != j ==> s[i].cpn != s[j].cpn
    &&& forall|i: int| 0 <= i < s.len() ==> (#[trigger] s[i]).wf()
}

/// The atoms after one more duration `d` of identity `k`, from a build that
/// ended at `end`: a new atom for a new identity; otherwise one more sample
/// on the existing atom, unless its counters would overflow.
pub open spec fn record_spec(s: Seq<AtomView>, k: Seq<char>, d: u32, end: u32) -> Seq<AtomView> {
    if has_cpn(s, k) {
        let i = cpn_index(s, k);
        let a = s[i];
        if a.total_time + d <= u32::MAX && a.num_emerge < u32::MAX {
            s.update(
                i,
                AtomView {
                    cpn: a.cpn,
                    num_emerge: (a.num_emerge + 1) as u32,
                    total_time: (a.total_time + d) as u32,
                    best_time: if d < a.best_time {
                        d
                    } else {
                        a.best_time
                    },
                    worst_time: if d > a.worst_time {
                        d
                    } else {
                        a.worst_time
                    },
                    last_time: end,
                },
            )
        } else {
            s
        }
    } else {
        s.push(
            AtomView { cpn: k, num_emerge: 1, total_time: d, best_time: d, worst_time: d, last_time: end },
        )
    }
}

/// What the builds in flight and the atoms become after the completion line `l`:
/// the build it names leaves the flight, and when it was a source build that
/// did not end before it started, its duration is recorded.
pub open spec fn complete_spec(s: Seq<PackageView>, a: Seq<AtomView>, l: Seq<char>) -> (
    Seq<PackageView>,
    Seq<AtomView>,
) {
    match info_spec(l) {
        None => (s, a),
        Some(p) => if has_key(s, p.full_name) {
            let m = s[key_index(s, p.full_name)];
            let a2 = if !m.is_binary && p.time >= m.time {
                record_spec(a, cpn_of(m.category, m.name), (p.time - m.time) as u32, p.time)
            } else {
                a
            };
            (without(s, p.full_name), a2)
        } else {
            (s, a)
        },
    }
}

/// Whether a line is read at all: comment lines, and lines too short to hold
/// a marker, are skipped.
pub open spec fn is_event_line(l: Seq<char>) -> bool {
    l.len() >= 18 && l[0] != '#'
}

/// What one line of the log does to the builds in flight and to the atoms.
pub open spec fn act_spec(s: Seq<PackageView>, a: Seq<AtomView>, l: Seq<char>) -> (
    Seq<PackageView>,
    Seq<AtomView>,
) {
    if !is_event_line(l) {
        (s, a)
    } else {
        match line_type_spec(l) {
            LineType::Start => match info_spec(l) {
                Some(p) => (without(s, p.full_name).push(p), a),
                None => (s, a),
            },
            LineType::MergeBinary => match merge_info_spec(l, 0) {
                Some(p) => (without(s, p.full_name), a),
                None => (s, a),
            },
            LineType::End => complete_spec(s, a, l),
            LineType::Term => (Seq::empty(), a),
            LineType::Unknow => (s, a),
        }
    }
}

/// The builds in flight and the atoms are consistent.
pub open spec fn state_ok(inflight: Seq<PackageInfo>, atoms: Seq<Atom>) -> bool {
    keys_unique(pkg_views(inflight)) && atoms_ok(atom_views(atoms))
}

pub(crate) fn find_key(inflight: &Vec<PackageInfo>, k: &String) -> (r: Option<usize>)
    ensures
        r matches Some(i) ==> i < inflight@.len() && inflight@[i as int].full_name@ == k@,
        r is None ==> !has_key(pkg_views(inflight@), k@),
{
    let mut i: usize = 0;
    while i < inflight.len()
        invariant
            i <= inflight@.len(),
            forall|j: int| 0 <= j < i ==> inflight@[j].full_name@ != k@,
        decreases inflight@.len() - i,
    {
        if inflight[i].full_name == *k {
            return Some(i);
        }
        i = i + 1;
    }
    None
}

proof fn lemma_key_index(s: Seq<PackageView>, k: Seq<char>, i: int)
    requires
        keys_unique(s),
        0 <= i < s.len(),
        s[i].full_name == k,
    ensures
        has_key(s, k),
        key_index(s, k) == i,
{
    let j = key_index(s, k);
}

proof fn lemma_remove_unique(s: Seq<PackageView>, i: int)
    requires
        keys_unique(s),
        0 <= i < s.len(),
    ensures
        keys_unique(s.remove(i)),
        forall|j: int| 0 <= j < s.remove(i).len() ==> s.remove(i)[j].full_name != s[i].full_name,
{
}

fn remove_key(inflight: &mut Vec<PackageInfo>, k: &String)
    requires
        keys_unique(pkg_views(old(inflight)@)),
    ensures
        keys_unique(pkg_views(final(inflight)@)),
        pkg_views(final(inflight)@) == without(pkg_views(old(inflight)@), k@),
        !has_key(pkg_views(final(inflight)@), k@),
{
    let ghost s = pkg_views(inflight@);
    match find_key(inflight, k) {
        Some(i) => {
            proof {
                lemma_key_index(s, k@, i as int);
                lemma_remove_unique(s, i as int);
            }
            inflight.remove(i);
            assert(pkg_views(inflight@) == s.remove(i as int));
        },
        None => {},
    }
}

pub(crate) fn find_cpn(atoms: &Vec<Atom>, k: &String) -> (r: Option<usize>)
    ensures
        r matches Some(i) ==> i < atoms@.len() && atoms@[i as int].cpn@ == k@,
        r is None ==> !has_cpn(atom_views(atoms@), k@),
{
    let mut i: usize = 0;
    while i < atoms.len()
        invariant
            i <= atoms@.len(),
            forall|j: int| 0 <= j < i ==> atoms@[j].cpn@ != k@,
        decreases atoms@.len() - i,
    {
        if atoms[i].cpn == *k {
            return Some(i);
        }
        i = i + 1;
    }
    None
}

fn record(atoms: &mut Vec<Atom>, k: String, d: u32, end: u32)
    requires
        atoms_ok(atom_views(old(atoms)@)),
    ensures
        atoms_ok(atom_views(final(atoms)@)),
        atom_views(final(atoms)@) == record_spec(atom_views(old(atoms)@), k@, d, end),
{
    let ghost s = atom_views(atoms@);
    match find_cpn(atoms, &k) {
        Some(i) => {
            assert(s[i as int].cpn == k@);
            assert(cpn_index(s, k@) == i) by {
                let j = cpn_index(s, k@);
                assert(s[j].cpn == k@);
            }
            if atoms[i].total_time as u64 + d as u64 <= 4294967295u64 && atoms[i].num_emerge
                < 4294967295u32 {
                let mut a = atoms.remove(i);
                assert(s[i as int] == a@);
                a.add(d);
                a.last_time = end;
                atoms.insert(i, a);
                assert(atom_views(atoms@) == s.update(i as int, a@));
            }
        },
        None => {
            let a = Atom::new(k, d, end);
            atoms.push(a);
            assert(atom_views(atoms@) == s.push(a@));
        },
    }
}

fn complete_emerge(l: &Vec<char>, inflight: &mut Vec<PackageInfo>, atoms: &mut Vec<Atom>) -> (r:
    bool)
    requires
        state_ok(old(inflight)@, old(atoms)@),
    ensures
        r == info_spec(l@) is Some,
        state_ok(final(inflight)@, final(atoms)@),
        (pkg_views(final(inflight)@), atom_views(final(atoms)@)) == complete_spec(
            pkg_views(old(inflight)@),
            atom_views(old(atoms)@),
            l@,
        ),
{
    let p = match info_of(l) {
        Some(info) => info,
        None => return false,
    };
    let ghost s = pkg_views(inflight@);
    if let Some(i) = find_key(inflight, &p.full_name) {
        proof {
            lemma_key_index(s, p.full_name@, i as int);
        }
        let m = &inflight[i];
        if !m.is_binary && p.time >= m.time {
            let cpn = m.cpn();
            record(atoms, cpn, p.time - m.time, p.time);
        }
        remove_key(inflight, &p.full_name);
    }
    true
}

/// The text before the first `:` of a line is not a time.
pub open spec fn bad_time(l: Seq<char>) -> bool {
    match find_char(l, ':') {
        Some(c) => parse_u32(l.subrange(0, c)) is None,
        None => false,
    }
}

fn bad_timestamp(l: &Vec<char>) -> (r: bool)
    ensures
        r == bad_time(l@),
{
    assert(l@.subrange(0, l@.len() as int) == l@);
    match find_in(l, 0, l.len(), ':') {
        Some(c) => parse_u32_in(l, 0, c).is_none(),
        None => false,
    }
}

/// What reading line `l` comes to (see [`LineStatus`]).
pub open spec fn status_spec(l: Seq<char>) -> LineStatus {
    if !is_event_line(l) {
        LineStatus::Ignored
    } else {
        match line_type_spec(l) {
            LineType::Unknow => LineStatus::Ignored,
            LineType::Term => LineStatus::Applied,
            LineType::MergeBinary => if bad_time(l) {
                LineStatus::BadTimestamp
            } else if merge_info_spec(l, 0) is None {
                LineStatus::Malformed
            } else {
                LineStatus::Applied
            },
            _ => if bad_time(l) {
                LineStatus::BadTimestamp
            } else if info_spec(l) is None {
                LineStatus::Malformed
            } else {
                LineStatus::Applied
            },
        }
    }
}

fn act_on_chars(l: &Vec<char>, inflight: &mut Vec<PackageInfo>, atoms: &mut Vec<Atom>) -> (r:
    LineStatus)
    requires
        state_ok(old(inflight)@, old(atoms)@),
    ensures
        r == status_spec(l@),
        state_ok(final(inflight)@, final(atoms)@),
        (pkg_views(final(inflight)@), atom_views(final(atoms)@)) == act_spec(
            pkg_views(old(inflight)@),
            atom_views(old(atoms)@),
            l@,
        ),
{
    if l.len() < 18 || l[0] == '#' {
        return LineStatus::Ignored;
    }
    let kind = line_type(l);
    if kind == LineType::Unknow {
        return LineStatus::Ignored;
    }
    if kind == LineType::Term {
        inflight.clear();
        assert(pkg_views(inflight@) == Seq::<PackageView>::empty());
        return LineStatus::Applied;
    }
    let bad = bad_timestamp(l);
    let found = match kind {
        LineType::Start => match info_of(l) {
            Some(info) => {
                remove_key(inflight, &info.full_name);
                let ghost s = pkg_views(inflight@);
                inflight.push(info);
                assert(pkg_views(inflight@) == s.push(info@));
                true
            },
            None => false,
        },
        LineType::MergeBinary => match merge_info_of(l, 0) {
            Some(info) => {
                remove_key(inflight, &info.full_name);
                true
            },
            None => false,
        },
        _ => complete_emerge(l, inflight, atoms),
    };
    if bad {
        LineStatus::BadTimestamp
    } else if found {
        LineStatus::Applied
    } else {
        LineStatus::Malformed
    }
}

/// Applies one line of the log to the builds in flight and to the atoms, and
/// tells what the line came to.
pub fn act_on_line(line: &str, inflight: &mut Vec<PackageInfo>, atoms: &mut Vec<Atom>) -> (r:
    LineStatus)
    requires
        state_ok(old(inflight)@, old(atoms)@),
    ensures
        r == status_spec(line@),
        state_ok(final(inflight)@, final(atoms)@),
        (pkg_views(final(inflight)@), atom_views(final(atoms)@)) == act_spec(
            pkg_views(old(inflight)@),
            atom_views(old(atoms)@),
            line@,
        ),
{
    let l = chars_of(line);
    act_on_chars(&l, inflight, atoms)
}

/// A line without the carriage return that ends it, if one does.
pub open spec fn strip_cr(x: Seq<char>) -> Seq<char> {
    if x.len() > 0 && x.last() == '\r' {
        x.drop_last()
    } else {
        x
    }
}

/// The lines of `s` from position `start` on: split at each `\n`, with the
/// `\r` of a `\r\n` ending dropped, and no empty line after a final `\n`.
pub open spec fn lines_from(s: Seq<char>, start: int) -> Seq<Seq<char>>
    decreases s.len() - start,
{
    if start < 0 || start >= s.len() {
        Seq::empty()
    } else {
        match find_char(s.subrange(start, s.len() as int), '\n') {
            None => seq![s.subrange(start, s.len() as int)],
            Some(k) => if k < 0 {
                Seq::empty()
            } else {
                seq![strip_cr(s.subrange(start, start + k))] + lines_from(s, start + k + 1)
            },
        }
    }
}

/// The lines of a log.
pub open spec fn log_lines(s: Seq<char>) -> Seq<Seq<char>> {
    lines_from(s, 0)
}

/// What the lines, read in order, do to the builds in flight and to the atoms.
pub open spec fn scan_spec(s: Seq<PackageView>, a: Seq<AtomView>, lines: Seq<Seq<char>>) -> (
    Seq<PackageView>,
    Seq<AtomView>,
)
    decreases lines.len(),
{
    if lines.len() == 0 {
        (s, a)
    } else {
        let st = act_spec(s, a, lines[0]);
        scan_spec(st.0, st.1, lines.drop_first())
    }
}

/// A line that was skipped because it could not be read.
pub open spec fn is_skipped(st: LineStatus) -> bool {
    st == LineStatus::Malformed || st == LineStatus::BadTimestamp
}

/// The lines that were skipped, by number (counted from 1) and outcome, in order.
pub open spec fn skipped_lines(lines: Seq<Seq<char>>) -> Seq<(int, LineStatus)>
    decreases lines.len(),
{
    if lines.len() == 0 {
        Seq::empty()
    } else {
        let prev = skipped_lines(lines.drop_last());
        let st = status_spec(lines.last());
        if is_skipped(st) {
            prev.push((lines.len() as int, st))
        } else {
            prev
        }
    }
}

/// The views of skipped-line reports.
pub open spec fn skip_views(v: Seq<(usize, LineStatus)>) -> Seq<(int, LineStatus)> {
    v.map_values(|e: (usize, LineStatus)| (e.0 as int, e.1))
}

fn next_line(c: &Vec<char>, start: usize) -> (r: (Vec<char>, usize))
    requires
        start < c@.len(),
    ensures
        start < r.1 <= c@.len(),
        lines_from(c@, start as int) == seq![r.0@] + lines_from(c@, r.1 as int),
{
    match find_in(c, start, c.len(), '\n') {
        None => {
            let line = copy_range(c, start, c.len());
            assert(lines_from(c@, c@.len() as int) == Seq::<Seq<char>>::empty());
            assert(seq![line@] + Seq::<Seq<char>>::empty() == seq![line@]);
            (line, c.len())
        },
        Some(k) => {
            let end = start + k;
            let line = if k > 0 && c[end - 1] == '\r' {
                copy_range(c, start, end - 1)
            } else {
                copy_range(c, start, end)
            };
            assert(line@ == strip_cr(c@.subrange(start as int, end as int)));
            (line, end + 1)
        },
    }
}

/// Reads the whole content of a log, line by line, into the builds in flight
/// and the atoms, and returns the lines it had to skip (see [`skipped_lines`]).
pub fn read_file(content: &str, inflight: &mut Vec<PackageInfo>, atoms: &mut Vec<Atom>) -> (r: Vec<
    (usize, LineStatus),
>)
    requires
        state_ok(old(inflight)@, old(atoms)@),
    ensures
        state_ok(final(inflight)@, final(atoms)@),
        (pkg_views(final(inflight)@), atom_views(final(atoms)@)) == scan_spec(
            pkg_views(old(inflight)@),
            atom_views(old(atoms)@),
            log_lines(content@),
        ),
        skip_views(r@) == skipped_lines(log_lines(content@)),
{
    let c = chars_of(content);
    let ghost goal = scan_spec(pkg_views(inflight@), atom_views(atoms@), log_lines(content@));
    let ghost done: Seq<Seq<char>> = Seq::empty();
    let mut skipped: Vec<(usize, LineStatus)> = Vec::new();
    let mut count: usize = 0;
    let mut start: usize = 0;
    assert(done + lines_from(c@, 0) == lines_from(c@, 0));
    while start < c.len()
        invariant
            start <= c@.len(),
            c@ == content@,
            state_ok(inflight@, atoms@),
            goal == scan_spec(pkg_views(inflight@), atom_views(atoms@), lines_from(c@, start as int)),
            done + lines_from(c@, start as int) == log_lines(c@),
            count == done.len(),
            count <= start,
            skip_views(skipped@) == skipped_lines(done),
        decreases c@.len() - start,
    {
        let ghost rest = lines_from(c@, start as int);
        let (line, next) = next_line(&c, start);
        let status = act_on_chars(&line, inflight, atoms);
        assert(rest[0] == line@);
        assert(rest.drop_first() == lines_from(c@, next as int));
        let ghost line_seen = line@;
        start = next;
        let ghost done2 = done.push(line_seen);
        assert(done2.drop_last() == done);
        assert(done2 + lines_from(c@, start as int) == done + rest);
        count = count + 1;
        if status == LineStatus::Malformed || status == LineStatus::BadTimestamp {
            let ghost before = skipped@;
            skipped.push((count, status));
            assert(skip_views(skipped@) == skip_views(before).push((count as int, status)));
        }
        proof {
            done = done2;
        }
    }
    proof {
        assert(lines_from(c@, start as int) == Seq::<Seq<char>>::empty());
        assert(done + Seq::<Seq<char>>::empty() == done);
    }
    skipped
}

/// The last line of a text; nothing when it has no line.
pub open spec fn last_line_spec(content: Seq<char>) -> Seq<char> {
    let lines = log_lines(content);
    if lines.len() == 0 {
        Seq::empty()
    } else {
        lines.last()
    }
}

/// The last line of a text (see [`log_lines`]); empty when it has none.
pub fn last_line(content: &str) -> (r: String)
    ensures
        r@ == last_line_spec(content@),
{
    let c = chars_of(content);
    let ghost done: Seq<Seq<char>> = Seq::empty();
    let mut last: Vec<char> = Vec::new();
    let mut start: usize = 0;
    assert(done + lines_from(c@, 0) == lines_from(c@, 0));
    while start < c.len()
        invariant
            start <= c@.len(),
            c@ == content@,
            done + lines_from(c@, start as int) == log_lines(c@),
            last@ == if done.len() == 0 {
                Seq::<char>::empty()
            } else {
                done.last()
            },
        decreases c@.len() - start,
    {
        let ghost rest = lines_from(c@, start as int);
        let (line, next) = next_line(&c, start);
        assert(rest[0] == line@);
        assert(rest.drop_first() == lines_from(c@, next as int));
        let ghost done2 = done.push(line@);
        assert(done2 + lines_from(c@, next as int) == done + rest);
        last = line;
        start = next;
        proof {
            done = done2;
        }
    }
    proof {
        assert(lines_from(c@, start as int) == Seq::<Seq<char>>::empty());
        assert(done + Seq::<Seq<char>>::empty() == done);
    }
    string_of(&last, 0, last.len())
}

/// The builds in flight and the atoms that a whole log leaves, from nothing.
pub fn read_file_test(content: &str) -> (r: (Vec<PackageInfo>, Vec<Atom>))
    ensures
        state_ok(r.0@, r.1@),
        (pkg_views(r.0@), atom_views(r.1@)) == scan_spec(
            Seq::empty(),
            Seq::empty(),
            log_lines(content@),
        ),
{
    let mut inflight: Vec<PackageInfo> = Vec::new();
    let mut atoms: Vec<Atom> = Vec::new();
    assert(pkg_views(inflight@) == Seq::<PackageView>::empty());
    assert(atom_views(atoms@) == Seq::<AtomView>::empty());
    let _skipped = read_file(content, &mut inflight, &mut atoms);
    (inflight, atoms)
}

/// The atoms after the build `p` is known to have started at its time: the
/// atom of its identity, if any, takes that time as its last start.
pub open spec fn set_time_spec(a: Seq<AtomView>, p: PackageView) -> Seq<AtomView> {
    let k = cpn_of(p.category, p.name);
    if has_cpn(a, k) {
        let i = cpn_index(a, k);
        a.update(
            i,
            AtomView {
                cpn: a[i].cpn,
                num_emerge: a[i].num_emerge,
                total_time: a[i].total_time,
                best_time: a[i].best_time,
                worst_time: a[i].worst_time,
                last_time: p.time,
            },
        )
    } else {
        a
    }
}

/// The atoms after each build of `ps`, in order, is known to have started.
pub open spec fn set_times_spec(a: Seq<AtomView>, ps: Seq<PackageView>) -> Seq<AtomView>
    decreases ps.len(),
{
    if ps.len() == 0 {
        a
    } else {
        set_time_spec(set_times_spec(a, ps.drop_last()), ps.last())
    }
}

pub(crate) fn set_package_time(package: &PackageInfo, atoms: &mut Vec<Atom>)
    requires
        atoms_ok(atom_views(old(atoms)@)),
    ensures
        atoms_ok(atom_views(final(atoms)@)),
        atom_views(final(atoms)@) == set_time_spec(atom_views(old(atoms)@), package@),
{
    let ghost s = atom_views(atoms@);
    let k = package.cpn();
    if let Some(i) = find_cpn(atoms, &k) {
        assert(s[i as int].cpn == k@);
        assert(cpn_index(s, k@) == i) by {
            let j = cpn_index(s, k@);
            assert(s[j].cpn == k@);
        }
        let mut a = atoms.remove(i);
        a.last_time = package.time;
        atoms.insert(i, a);
        assert(atom_views(atoms@) == s.update(i as int, a@));
    }
}

/// Gives each atom whose package is in flight the start time of that build
/// (the last one listed, when several share the identity).
pub fn set_last_time(inflight: &Vec<PackageInfo>, atoms: &mut Vec<Atom>)
    requires
        atoms_ok(atom_views(old(atoms)@)),
    ensures
        atoms_ok(atom_views(final(atoms)@)),
        atom_views(final(atoms)@) == set_times_spec(atom_views(old(atoms)@), pkg_views(inflight@)),
{
    let ghost a0 = atom_views(atoms@);
    let ghost ps = pkg_views(inflight@);
    let mut i: usize = 0;
    while i < inflight.len()
        invariant
            i <= inflight@.len(),
            ps == pkg_views(inflight@),
            atoms_ok(atom_views(atoms@)),
            atom_views(atoms@) == set_times_spec(a0, ps.subrange(0, i as int)),
        decreases inflight@.len() - i,
    {
        set_package_time(&inflight[i], atoms);
        assert(ps.subrange(0, i + 1).drop_last() == ps.subrange(0, i as int));
        i = i + 1;
    }
    assert(ps.subrange(0, i as int) == ps);
}

} // verus!
