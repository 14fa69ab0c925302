//! Facts about reading a log that hold of every input.
use vstd::prelude::*;

use crate::package::{cpn_of, eta, filtered_avg, full_avg, AtomView, Over, PackageView};
use crate::parse_file::{
    act_spec, build_spec, cpn_size, has_cpn, info_spec, is_event_line, line_type_spec, merge_info_spec, scan_spec,
    size_from, without, LineType,
};
use crate::config::Arguments;
use crate::report::{
    cpn_part, package_line, package_time, progress_at, root_prefix, running_report, status_text,
    too_old,
};
use crate::text::{all_digits, is_digit_char, is_first, lemma_find_char_at, parse_u32};

verus! {

/// `c` does not occur in `s`.
pub open spec fn lacks(s: Seq<char>, c: char) -> bool {
    forall|i: int| 0 <= i < s.len() ==> s[i] != c
}

/// No `-` inside `s` is followed by a digit.
pub open spec fn no_version_dash(s: Seq<char>) -> bool {
    forall|i: int| 0 <= i < s.len() - 1 && #[trigger] s[i] == '-' ==> !is_digit_char(s[i + 1])
}

/// A start line: the time, what follows it up to the ordinal, the ordinal in
/// parentheses, then after a space the identity, a `-`, the version, a space
/// and the rest.
pub open spec fn start_line(
    ts: Seq<char>,
    head: Seq<char>,
    ord: Seq<char>,
    cat: Seq<char>,
    name: Seq<char>,
    ver: Seq<char>,
    rest: Seq<char>,
) -> Seq<char> {
    ts + head + seq!['('] + ord + seq![')', ' '] + cpn_of(cat, name) + seq!['-'] + ver + seq![' ']
        + rest
}

proof fn lemma_size_from_identity(s: Seq<char>, k: int, n: int)
    requires
        0 <= n <= k,
        k + 1 < s.len(),
        s[k] == '-',
        is_digit_char(s[k + 1]),
        no_version_dash(s.subrange(0, k)),
    ensures
        size_from(s, n) == Some(k),
    decreases k - n,
{
    if n < k {
        lemma_size_from_identity(s, k, n + 1);
        if s[n] == '-' && n + 1 < k {
            assert(s.subrange(0, k)[n] == '-');
            assert(s.subrange(0, k)[n + 1] == s[n + 1]);
        }
    }
}

/// On a start line whose time is a number, whose ordinal holds no `)`, whose
/// text before the ordinal holds no parenthesis, whose category holds no `/`,
/// whose identity holds no space and no `-` followed by a digit, and whose
/// version starts with a digit and holds no space, the start event holds the
/// time, the identity as the text before the first `-` that a digit follows,
/// the full name up to the next space, and the ordinal.
pub proof fn lemma_start_line_fields(
    ts: Seq<char>,
    head: Seq<char>,
    ord: Seq<char>,
    cat: Seq<char>,
    name: Seq<char>,
    ver: Seq<char>,
    rest: Seq<char>,
    t: u32,
)
    requires
        parse_u32(ts) == Some(t),
        head.len() > 0,
        head[0] == ':',
        lacks(head, '('),
        lacks(head, ')'),
        lacks(ord, ')'),
        lacks(cat, '/'),
        lacks(cpn_of(cat, name), ' '),
        no_version_dash(cpn_of(cat, name)),
        ver.len() > 0,
        is_digit_char(ver[0]),
        lacks(ver, ' '),
    ensures
        info_spec(start_line(ts, head, ord, cat, name, ver, rest)) == Some(
            PackageView {
                category: cat,
                name,
                full_name: cpn_of(cat, name) + seq!['-'] + ver,
                time: t,
                is_binary: false,
                num: ord,
            },
        ),
{
    let l = start_line(ts, head, ord, cat, name, ver, rest);
    let cpn = cpn_of(cat, name);
    let full = cpn + seq!['-'] + ver;
    let a = ts.len() as int;
    let open = a + head.len();
    let close = open + 1 + ord.len();
    let start = close + 2;
    let k = cpn.len() as int;
    let sp = start + full.len();
    assert(l.subrange(0, a) =~= ts);
    assert(l.subrange(a, open) =~= head);
    assert(l[open] == '(');
    assert(l.subrange(open + 1, close) =~= ord);
    assert(l[close] == ')');
    assert(l.subrange(start, start + k) =~= cpn);
    assert(l.subrange(start, sp) =~= full);
    assert(l[sp] == ' ');
    assert(all_digits(ts));
    // the first ':' ends the time
    assert forall|j: int| 0 <= j < a implies l[j] != ':' by {
        assert(l.subrange(0, a)[j] == l[j]);
        assert(is_digit_char(ts[j]));
    }
    assert(l[a] == ':') by {
        assert(l.subrange(a, open)[0] == l[a]);
    }
    assert(is_first(l, ':', a));
    lemma_find_char_at(l, ':', a);
    // the first '(' and ')' enclose the ordinal
    assert forall|j: int| 0 <= j < open implies l[j] != '(' && l[j] != ')' by {
        if j < a {
            assert(l.subrange(0, a)[j] == l[j]);
            assert(is_digit_char(ts[j]));
        } else {
            assert(l.subrange(a, open)[j - a] == l[j]);
        }
    }
    assert(is_first(l, '(', open));
    lemma_find_char_at(l, '(', open);
    assert forall|j: int| 0 <= j < close implies l[j] != ')' by {
        if open < j {
            assert(l.subrange(open + 1, close)[j - open - 1] == l[j]);
        }
    }
    assert(is_first(l, ')', close));
    lemma_find_char_at(l, ')', close);
    // the identity ends where the version starts
    let s = l.subrange(start, l.len() as int);
    assert(s.subrange(0, k) =~= cpn);
    assert(s[k] == '-') by {
        assert(full[k] == '-');
        assert(l.subrange(start, sp)[k] == l[start + k]);
    }
    assert(is_digit_char(s[k + 1])) by {
        assert(full[k + 1] == ver[0]);
        assert(l.subrange(start, sp)[k + 1] == l[start + k + 1]);
    }
    lemma_size_from_identity(s, k, 0);
    assert(cpn_size(s) == Some(k));
    // the full name ends at the next space
    assert forall|j: int| 0 <= j < full.len() implies s[j] != ' ' by {
        assert(l.subrange(start, sp)[j] == s[j]);
        if j < k {
            assert(full[j] == cpn[j]);
        } else if j > k {
            assert(full[j] == ver[j - k - 1]);
        }
    }
    assert(s[full.len() as int] == ' ');
    assert(is_first(s, ' ', full.len() as int));
    lemma_find_char_at(s, ' ', full.len() as int);
    assert(s.subrange(0, full.len() as int) =~= full);
    assert(l.subrange(start, start + full.len()) =~= full);
    // the category ends at the first '/'
    assert forall|j: int| 0 <= j < cat.len() implies cpn[j] != '/' by {
        assert(cpn[j] == cat[j]);
    }
    assert(cpn[cat.len() as int] == '/');
    assert(is_first(cpn, '/', cat.len() as int));
    lemma_find_char_at(cpn, '/', cat.len() as int);
    assert(cpn.subrange(0, cat.len() as int) =~= cat);
    assert(cpn.subrange(cat.len() as int + 1, cpn.len() as int) =~= name);
}

/// A merge line: the time, what follows it up to the ordinal, the ordinal in
/// parentheses, nine characters, a word, then in parentheses the identity, a
/// `-`, the version, a `:` and the rest.
pub open spec fn merge_line(
    ts: Seq<char>,
    head: Seq<char>,
    ord: Seq<char>,
    gap: Seq<char>,
    word: Seq<char>,
    cat: Seq<char>,
    name: Seq<char>,
    ver: Seq<char>,
    rest: Seq<char>,
) -> Seq<char> {
    ts + head + seq!['('] + ord + seq![')'] + gap + word + seq!['('] + cpn_of(cat, name) + seq!['-']
        + ver + seq![':'] + rest
}

/// On a merge line whose time is a number, whose ordinal holds no `)` and
/// ends at character 24 or later, whose text before the ordinal holds no
/// parenthesis, whose word after the ordinal holds no `(`, whose category holds
/// no `/`, whose identity holds no `:` and no `-` followed by a digit, and
/// whose version starts with a digit and holds no `:`, the merge event holds
/// the time, the identity, the full name up to the `:`, the ordinal, and is
/// binary exactly when the word starts with `B` ("Merging Binary").
#[verifier::rlimit(100)]
#[verifier::spinoff_prover]
pub proof fn lemma_merge_line_fields(
    ts: Seq<char>,
    head: Seq<char>,
    ord: Seq<char>,
    gap: Seq<char>,
    word: Seq<char>,
    cat: Seq<char>,
    name: Seq<char>,
    ver: Seq<char>,
    rest: Seq<char>,
    t: u32,
)
    requires
        parse_u32(ts) == Some(t),
        head.len() > 0,
        head[0] == ':',
        lacks(head, '('),
        lacks(head, ')'),
        lacks(ord, ')'),
        ts.len() + head.len() + 1 + ord.len() >= 24,
        gap.len() == 9,
        lacks(word, '('),
        lacks(cat, '/'),
        lacks(cpn_of(cat, name), ':'),
        no_version_dash(cpn_of(cat, name)),
        ver.len() > 0,
        is_digit_char(ver[0]),
        lacks(ver, ':'),
    ensures
        merge_info_spec(merge_line(ts, head, ord, gap, word, cat, name, ver, rest), 0) == Some(
            PackageView {
                category: cat,
                name,
                full_name: cpn_of(cat, name) + seq!['-'] + ver,
                time: t,
                is_binary: word.len() > 0 && word[0] == 'B',
                num: ord,
            },
        ),
{
    let l = merge_line(ts, head, ord, gap, word, cat, name, ver, rest);
    let cpn = cpn_of(cat, name);
    let full = cpn + seq!['-'] + ver;
    let a = ts.len() as int;
    let open = a + head.len();
    let close = open + 1 + ord.len();
    let after = close + 10;
    let paren = after + word.len();
    let start = paren + 1;
    let k = cpn.len() as int;
    let colon2 = start + full.len();
    assert(l.subrange(0, a) =~= ts);
    assert(l.subrange(a, open) =~= head);
    assert(l[open] == '(');
    assert(l.subrange(open + 1, close) =~= ord);
    assert(l[close] == ')');
    assert(l.subrange(after, paren) =~= word);
    assert(l[paren] == '(');
    assert(l.subrange(start, colon2) =~= full);
    assert(l[colon2] == ':');
    assert(all_digits(ts));
    // the first ':' ends the time
    assert forall|j: int| 0 <= j < a implies l[j] != ':' by {
        assert(l.subrange(0, a)[j] == l[j]);
        assert(is_digit_char(ts[j]));
    }
    assert(l[a] == ':') by {
        assert(l.subrange(a, open)[0] == l[a]);
    }
    assert(is_first(l, ':', a));
    lemma_find_char_at(l, ':', a);
    // the first '(' and ')' enclose the ordinal
    assert forall|j: int| 0 <= j < open implies l[j] != '(' && l[j] != ')' by {
        if j < a {
            assert(l.subrange(0, a)[j] == l[j]);
            assert(is_digit_char(ts[j]));
        } else {
            assert(l.subrange(a, open)[j - a] == l[j]);
        }
    }
    assert(is_first(l, '(', open));
    lemma_find_char_at(l, '(', open);
    assert forall|j: int| 0 <= j < close implies l[j] != ')' by {
        if open < j {
            assert(l.subrange(open + 1, close)[j - open - 1] == l[j]);
        }
    }
    assert(is_first(l, ')', close));
    lemma_find_char_at(l, ')', close);
    // counted from character 24, the first ')' is the same one
    let from24 = l.subrange(24, l.len() as int);
    assert forall|j: int| 0 <= j < close - 24 implies from24[j] != ')' by {
        assert(from24[j] == l[j + 24]);
    }
    assert(from24[close - 24] == ')');
    assert(is_first(from24, ')', close - 24));
    lemma_find_char_at(from24, ')', close - 24);
    // the identity starts after the first '(' that follows the word
    let from_after = l.subrange(after, l.len() as int);
    assert forall|j: int| 0 <= j < word.len() implies from_after[j] != '(' by {
        assert(l.subrange(after, paren)[j] == from_after[j]);
    }
    assert(from_after[word.len() as int] == '(');
    assert(is_first(from_after, '(', word.len() as int));
    lemma_find_char_at(from_after, '(', word.len() as int);
    assert(word.len() > 0 ==> l[after] == word[0]) by {
        if word.len() > 0 {
            assert(l.subrange(after, paren)[0] == l[after]);
        }
    }
    // the full name ends at the next ':'
    let s = l.subrange(start, l.len() as int);
    assert forall|j: int| 0 <= j < full.len() implies s[j] != ':' by {
        assert(l.subrange(start, colon2)[j] == s[j]);
        if j < k {
            assert(full[j] == cpn[j]);
        } else if j > k {
            assert(full[j] == ver[j - k - 1]);
        }
    }
    assert(s[full.len() as int] == ':');
    assert(is_first(s, ':', full.len() as int));
    lemma_find_char_at(s, ':', full.len() as int);
    // the identity ends where the version starts
    assert(l.subrange(start, colon2) =~= full);
    assert(full.subrange(0, k) =~= cpn);
    assert(full[k] == '-');
    assert(is_digit_char(full[k + 1])) by {
        assert(full[k + 1] == ver[0]);
    }
    lemma_size_from_identity(full, k, 0);
    assert(cpn_size(full) == Some(k));
    assert(l[start + k] == '-') by {
        assert(l.subrange(start, colon2)[k] == l[start + k]);
    }
    assert(l.subrange(start, start + k) =~= cpn);
    // the category ends at the first '/'
    assert forall|j: int| 0 <= j < cat.len() implies cpn[j] != '/' by {
        assert(cpn[j] == cat[j]);
    }
    assert(cpn[cat.len() as int] == '/');
    assert(is_first(cpn, '/', cat.len() as int));
    lemma_find_char_at(cpn, '/', cat.len() as int);
    assert(cpn.subrange(0, cat.len() as int) =~= cat);
    assert(cpn.subrange(cat.len() as int + 1, cpn.len() as int) =~= name);
    assert(build_spec(l, start, start + k, t, word.len() > 0 && word[0] == 'B', ':') == Some(
        PackageView {
            category: cat,
            name,
            full_name: full,
            time: t,
            is_binary: word.len() > 0 && word[0] == 'B',
            num: ord,
        },
    ));
}

/// A start line puts the build it names last in flight, after taking out any
/// earlier build of the same full name, and leaves the atoms as they were.
pub proof fn lemma_start_enters_flight(s: Seq<PackageView>, a: Seq<AtomView>, l: Seq<char>)
    requires
        is_event_line(l),
        line_type_spec(l) == LineType::Start,
        info_spec(l) is Some,
    ensures
        act_spec(s, a, l).0 == without(s, info_spec(l)->0.full_name).push(info_spec(l)->0),
        act_spec(s, a, l).0.last() == info_spec(l)->0,
        act_spec(s, a, l).1 == a,
{
}

/// A binary merge line never changes the atoms: binary installs give no
/// duration sample. The build it names leaves the flight.
pub proof fn lemma_merge_binary_keeps_atoms(s: Seq<PackageView>, a: Seq<AtomView>, l: Seq<char>)
    requires
        is_event_line(l),
        line_type_spec(l) == LineType::MergeBinary,
    ensures
        act_spec(s, a, l).1 == a,
        merge_info_spec(l, 0) matches Some(p) ==> act_spec(s, a, l).0 == without(s, p.full_name),
{
}

/// A terminate line leaves no build in flight and the atoms as they were.
pub proof fn lemma_terminate_clears(s: Seq<PackageView>, a: Seq<AtomView>, l: Seq<char>)
    requires
        is_event_line(l),
        line_type_spec(l) == LineType::Term,
    ensures
        act_spec(s, a, l).0 == Seq::<PackageView>::empty(),
        act_spec(s, a, l).1 == a,
{
}

/// Reading two runs of lines one after the other is reading them joined.
pub proof fn lemma_scan_append(
    s: Seq<PackageView>,
    a: Seq<AtomView>,
    xs: Seq<Seq<char>>,
    ys: Seq<Seq<char>>,
)
    ensures
        scan_spec(s, a, xs + ys) == scan_spec(
            scan_spec(s, a, xs).0,
            scan_spec(s, a, xs).1,
            ys,
        ),
    decreases xs.len(),
{
    if xs.len() > 0 {
        let st = act_spec(s, a, xs[0]);
        assert((xs + ys)[0] == xs[0]);
        assert((xs + ys).drop_first() == xs.drop_first() + ys);
        lemma_scan_append(st.0, st.1, xs.drop_first(), ys);
    } else {
        assert(xs + ys == ys);
    }
}

/// What precedes a terminate line has no bearing on the builds in flight at
/// the end: they are those that the lines after it leave, from none.
pub proof fn lemma_terminate_resets_flight(
    s: Seq<PackageView>,
    a: Seq<AtomView>,
    pre: Seq<Seq<char>>,
    term: Seq<char>,
    post: Seq<Seq<char>>,
)
    requires
        is_event_line(term),
        line_type_spec(term) == LineType::Term,
    ensures
        scan_spec(s, a, pre + seq![term] + post) == scan_spec(
            Seq::empty(),
            scan_spec(s, a, pre).1,
            post,
        ),
{
    let mid = scan_spec(s, a, pre);
    lemma_scan_append(s, a, pre + seq![term], post);
    lemma_scan_append(s, a, pre, seq![term]);
    lemma_terminate_clears(mid.0, mid.1, term);
    let one = seq![term];
    assert(one[0] == term);
    assert(one.drop_first() == Seq::<Seq<char>>::empty());
    let after = act_spec(mid.0, mid.1, term);
    assert(scan_spec(mid.0, mid.1, one) == scan_spec(after.0, after.1, one.drop_first()));
    assert(scan_spec(mid.0, mid.1, one) == (Seq::<PackageView>::empty(), mid.1));
}

/// How far an estimate had to fall back: 0 for the trimmed average up to 3
/// for an overrun.
pub open spec fn severity(o: Over) -> int {
    match o {
        Over::NO => 0,
        Over::AVG => 1,
        Over::AVGWORST => 2,
        Over::ALL => 3,
    }
}

/// The later it is in a build, the further its estimate falls back: the tier
/// never goes down as time passes.
pub proof fn lemma_tier_monotonic(a: AtomView, now1: u32, now2: u32)
    requires
        now1 <= now2,
    ensures
        severity(eta(a, now1).1) <= severity(eta(a, now2).1),
{
}

/// With at most two samples nothing is trimmed: the trimmed average is the
/// plain average.
pub proof fn lemma_no_trim_below_three(a: AtomView)
    requires
        a.wf(),
        a.num_emerge <= 2,
    ensures
        filtered_avg(a.num_emerge, a.total_time, a.best_time, a.worst_time) == full_avg(
            a.num_emerge,
            a.total_time,
        ),
{
}

/// When every sample is the same, trimming changes nothing: both averages
/// are that duration.
pub proof fn lemma_equal_samples_average(a: AtomView)
    requires
        a.wf(),
        a.best_time == a.worst_time,
    ensures
        filtered_avg(a.num_emerge, a.total_time, a.best_time, a.worst_time) == a.best_time,
        full_avg(a.num_emerge, a.total_time) == a.best_time,
{
    let n = a.num_emerge as int;
    let b = a.best_time as int;
    let t = a.total_time as int;
    if n >= 2 {
        assert(t == n * b) by (nonlinear_arith)
            requires
                b + b + (n - 2) * b <= t,
                t <= b + b + (n - 2) * b,
        ;
        assert(t / n == b) by (nonlinear_arith)
            requires
                t == n * b,
                n >= 2,
        ;
        if n > 2 {
            assert((t - b - b) / (n - 2) == b) by (nonlinear_arith)
                requires
                    t == n * b,
                    n > 2,
            ;
        }
    }
}

proof fn lemma_size_from_unversioned(s: Seq<char>, n: int)
    requires
        0 <= n <= s.len(),
        no_version_dash(s),
    ensures
        size_from(s, n) == Some(s.len() as int) || size_from(s, n) is None,
    decreases s.len() - n,
{
    if n < s.len() {
        if s[n] == '-' && n + 1 < s.len() {
            assert(!is_digit_char(s[n + 1]));
        }
        lemma_size_from_unversioned(s, n + 1);
    }
}

/// An identity with no `-` followed by a digit is its own identity part.
pub proof fn lemma_identity_is_own_part(cpn: Seq<char>)
    requires
        no_version_dash(cpn),
    ensures
        cpn_part(cpn) == cpn,
{
    lemma_size_from_unversioned(cpn, 0);
    assert(cpn.subrange(0, cpn.len() as int) == cpn);
}

/// A source build in flight whose identity has no history is reported as
/// unknown: its line is its ordinal, its full name and "Unknow".
pub proof fn lemma_unknown_without_history(
    p: PackageView,
    a: Seq<AtomView>,
    config: Arguments,
    root: Seq<char>,
    now: u32,
    resume: Seq<crate::config::EmergeResume>,
    progress: Seq<Seq<char>>,
)
    requires
        !config.show_root,
        !config.read_ninja,
        !config.format.full,
        !p.is_binary,
        !too_old(p, now),
        no_version_dash(cpn_of(p.category, p.name)),
        !has_cpn(a, cpn_of(p.category, p.name)),
    ensures
        running_report(seq![p], a, config, root, now, resume, progress).0 == (if p.num.len() > 0 {
            p.num + ", "@
        } else {
            Seq::empty()
        }) + p.full_name + ", Unknow"@ + seq!['\n'],
        running_report(seq![p], a, config, root, now, resume, progress).1 is None,
{
    lemma_identity_is_own_part(cpn_of(p.category, p.name));
    let one = seq![p];
    assert(one.drop_last() == Seq::<PackageView>::empty());
    assert(one.last() == p);
    let num_part = if p.num.len() > 0 {
        p.num + ", "@
    } else {
        Seq::empty()
    };
    let e = Seq::<char>::empty();
    assert(package_time(p, a, now) is None);
    let st = status_text(p, a, config, now, resume, progress_at(progress, 0));
    assert(st == num_part + p.full_name + ", Unknow"@ + e + e);
    assert(num_part + p.full_name + ", Unknow"@ + e + e == num_part + p.full_name + ", Unknow"@);
    assert(root_prefix(config.show_root, root) == e);
    let cur = package_line(p, a, config, root, now, resume, progress_at(progress, 0));
    assert(cur.0 == e + st + seq!['\n']);
    assert(e + (e + st + seq!['\n']) == st + seq!['\n']);
    let r0 = running_report(one.drop_last(), a, config, root, now, resume, progress);
    assert(r0.0 == e);
    assert(running_report(one, a, config, root, now, resume, progress).0 == r0.0 + cur.0);
    assert(st + seq!['\n'] == num_part + p.full_name + ", Unknow"@ + seq!['\n']);
}

} // verus!
