//! Build events, per-package duration statistics, the estimate of what is left, and its wording.
use vstd::prelude::*;

use crate::text::{decimal, push_char, push_decimal};

verus! {

/// A build event read from one log line.
pub struct PackageInfo {
    /// The category of the package.
    pub category: String,
    /// The package name.
    pub name: String,
    /// The full name of the package, with its version.
    pub full_name: String,
    /// The time written at the start of the line.
    pub time: u32,
    /// Whether the package is installed from a binary package.
    pub is_binary: bool,
    /// The position of the package in its run ("x of y"), for display.
    pub num: String,
}

/// What a [`PackageInfo`] holds, as mathematical values.
pub struct PackageView {
    pub category: Seq<char>,
    pub name: Seq<char>,
    pub full_name: Seq<char>,
    pub time: u32,
    pub is_binary: bool,
    pub num: Seq<char>,
}

impl View for PackageInfo {
    type V = PackageView;

    open spec fn view(&self) -> PackageView {
        PackageView {
            category: self.category@,
            name: self.name@,
            full_name: self.full_name@,
            time: self.time,
            is_binary: self.is_binary,
            num: self.num@,
        }
    }
}

/// The version-independent identity `category/name`.
pub open spec fn cpn_of(category: Seq<char>, name: Seq<char>) -> Seq<char> {
    category + seq!['/'] + name
}

impl PackageInfo {
    /// The `category/name` identity of the package.
    pub fn cpn(&self) -> (r: String)
        ensures
            r@ == cpn_of(self.category@, self.name@),
    {
        let mut r = self.category.clone();
        push_char(&mut r, '/');
        r.append(self.name.as_str());
        r
    }
}

/// Accumulated build durations of one package identity.
pub struct Atom {
    /// The `category/name` identity.
    pub cpn: String,
    /// How many durations were recorded.
    pub num_emerge: u32,
    /// The sum of the recorded durations, in seconds.
    pub total_time: u32,
    /// The shortest recorded duration.
    pub best_time: u32,
    /// The longest recorded duration.
    pub worst_time: u32,
    /// When the last build of the package started; 0 when unknown.
    pub last_time: u32,
}

/// Which statistic an estimate had to fall back to.
#[derive(PartialEq, Eq, Structural, Clone, Copy, Debug)]
pub enum Over {
    /// The elapsed time is within the trimmed average.
    NO,
    /// Past the trimmed average, within the full average.
    AVG,
    /// Past the full average, within the worst duration.
    AVGWORST,
    /// Past the worst duration: the estimate is an overrun.
    ALL,
}

/// What an [`Atom`] holds, as mathematical values.
pub struct AtomView {
    pub cpn: Seq<char>,
    pub num_emerge: u32,
    pub total_time: u32,
    pub best_time: u32,
    pub worst_time: u32,
    pub last_time: u32,
}

impl View for Atom {
    type V = AtomView;

    open spec fn view(&self) -> AtomView {
        AtomView {
            cpn: self.cpn@,
            num_emerge: self.num_emerge,
            total_time: self.total_time,
            best_time: self.best_time,
            worst_time: self.worst_time,
            last_time: self.last_time,
        }
    }
}

impl AtomView {
    /// The counters hold what a run of recorded durations gives: at least one
    /// sample, the best not above the worst, and a total that the best and
    /// worst bound.
    pub open spec fn wf(self) -> bool {
        &&& self.num_emerge >= 1
        &&& self.best_time <= self.worst_time
        &&& self.num_emerge == 1 ==> self.total_time == self.best_time && self.best_time == self.worst_time
        &&& self.num_emerge >= 2 ==> {
            &&& self.best_time + self.worst_time + (self.num_emerge - 2) * self.best_time
                <= self.total_time
            &&& self.total_time <= self.best_time + self.worst_time + (self.num_emerge - 2)
                * self.worst_time
        }
    }
}

impl Atom {
    /// See [`AtomView::wf`].
    pub open spec fn wf(&self) -> bool {
        self@.wf()
    }

    /// An atom with one recorded duration.
    pub fn new(cpn: String, time: u32, last_time: u32) -> (r: Self)
        ensures
            r.wf(),
            r.cpn@ == cpn@,
            r.num_emerge == 1,
            r.total_time == time,
            r.best_time == time,
            r.worst_time == time,
            r.last_time == last_time,
    {
        Atom { cpn, num_emerge: 1, total_time: time, best_time: time, worst_time: time, last_time }
    }

    /// Records one more duration.
    pub fn add(&mut self, time: u32)
        requires
            old(self).wf(),
            old(self).total_time + time <= u32::MAX,
            old(self).num_emerge < u32::MAX,
        ensures
            final(self).wf(),
            final(self).cpn == old(self).cpn,
            final(self).last_time == old(self).last_time,
            final(self).num_emerge == old(self).num_emerge + 1,
            final(self).total_time == old(self).total_time + time,
            final(self).best_time == if time < old(self).best_time {
                time
            } else {
                old(self).best_time
            },
            final(self).worst_time == if time > old(self).worst_time {
                time
            } else {
                old(self).worst_time
            },
    {
        let ghost n = self.num_emerge as int;
        let ghost t = self.total_time as int;
        let ghost b = self.best_time as int;
        let ghost w = self.worst_time as int;
        self.num_emerge = self.num_emerge + 1;
        self.total_time = self.total_time + time;
        if time > self.worst_time {
            self.worst_time = time;
        }
        if time < self.best_time {
            self.best_time = time;
        }
        proof {
            let x = time as int;
            if n >= 2 {
                let n2 = self.num_emerge as int;
                let b2 = self.best_time as int;
                let w2 = self.worst_time as int;
                assert(b2 + w2 + (n2 - 2) * b2 <= t + x && t + x <= b2 + w2 + (n2 - 2) * w2)
                    by (nonlinear_arith)
                    requires
                        b <= w,
                        b + w + (n - 2) * b <= t,
                        t <= b + w + (n - 2) * w,
                        n >= 2,
                        n2 == n + 1,
                        b2 == if x < b { x } else { b },
                        w2 == if x > w { x } else { w },
                ;
            } else {
                assert((self.num_emerge - 2) * self.best_time == 0
                    && (self.num_emerge - 2) * self.worst_time == 0) by (nonlinear_arith)
                    requires
                        self.num_emerge == 2,
                ;
            }
        }
    }

    /// The average duration, leaving out the best and the worst once there
    /// are more than two samples (whole seconds, rounded down).
    pub fn filter_time(&self) -> (r: u32)
        requires
            self.wf(),
        ensures
            r == filtered_avg(self.num_emerge, self.total_time, self.best_time, self.worst_time),
    {
        if self.num_emerge > 2 {
            assert(self.best_time + self.worst_time <= self.total_time) by (nonlinear_arith)
                requires
                    self.num_emerge >= 2,
                    self.best_time + self.worst_time + (self.num_emerge - 2) * self.best_time
                        <= self.total_time,
            ;
            (self.total_time - self.best_time - self.worst_time) / (self.num_emerge - 2)
        } else {
            self.total_time / self.num_emerge
        }
    }

    /// The average of all recorded durations (whole seconds, rounded down).
    pub fn time_avg(&self) -> (r: u32)
        requires
            self.wf(),
        ensures
            r == full_avg(self.num_emerge, self.total_time),
    {
        self.total_time / self.num_emerge
    }

    /// The estimate for a build of this package that is running at `now`,
    /// in quarters of a second, with the statistic it had to fall back to.
    pub fn comp_avg(&self, now: u32) -> (r: (u64, Over))
        requires
            self.wf(),
        ensures
            r.0 as int == eta(self@, now).0,
            r.1 == eta(self@, now).1,
    {
        let elapsed: i64 = if self.last_time != 0 {
            now as i64 - self.last_time as i64
        } else {
            0
        };
        let filtered = self.filter_time() as i64 - elapsed;
        if filtered >= 0 {
            return ((filtered * 5 + 240) as u64, Over::NO);
        }
        let full = self.time_avg() as i64 - elapsed;
        if full >= 0 {
            return ((full * 5 + 240) as u64, Over::AVG);
        }
        let worst = self.worst_time as i64 - elapsed;
        if worst >= 0 {
            return ((worst * 4) as u64, Over::AVGWORST);
        }
        (((elapsed - self.worst_time as i64) * 4) as u64, Over::ALL)
    }

    /// Appends the wording of a duration of `time` seconds to `out`.
    pub fn convert_text(time: u64, out: &mut String)
        ensures
            final(out)@ == old(out)@ + duration_text(time as nat),
    {
        let d = time / 86400;
        let h = (time / 3600) % 24;
        let m = (time / 60) % 60;
        if d == 0 && h == 0 && m == 0 {
            out.append("a few seconds");
            return;
        }
        push_term(out, d, 'd');
        push_term(out, h, 'h');
        push_term(out, m, 'm');
    }
}

/// The average with the best and the worst left out once there are more
/// than two samples; the plain average otherwise.
pub open spec fn filtered_avg(n: u32, total: u32, best: u32, worst: u32) -> int {
    if n > 2 {
        (total - best - worst) / (n - 2) as int
    } else {
        total as int / n as int
    }
}

/// The average of all samples.
pub open spec fn full_avg(n: u32, total: u32) -> int {
    total as int / n as int
}

/// Seconds since the package's last start; 0 when that start is unknown.
pub open spec fn elapsed_at(a: AtomView, now: u32) -> int {
    if a.last_time == 0 {
        0
    } else {
        now - a.last_time
    }
}

/// The estimate in quarters of a second, and the tier that gave it. The first
/// two tiers pad what is left by a quarter and one minute; the third gives what
/// is left before the worst duration; the last gives how far past it the build is.
pub open spec fn eta(a: AtomView, now: u32) -> (int, Over) {
    let e = elapsed_at(a, now);
    let filtered = filtered_avg(a.num_emerge, a.total_time, a.best_time, a.worst_time) - e;
    let full = full_avg(a.num_emerge, a.total_time) - e;
    let worst = a.worst_time - e;
    if filtered >= 0 {
        (filtered * 5 + 240, Over::NO)
    } else if full >= 0 {
        (full * 5 + 240, Over::AVG)
    } else if worst >= 0 {
        (worst * 4, Over::AVGWORST)
    } else {
        (-worst * 4, Over::ALL)
    }
}

/// One part of a duration: the number and its unit, then a space; nothing for zero.
pub open spec fn term(n: nat, unit: char) -> Seq<char> {
    if n == 0 {
        Seq::empty()
    } else {
        decimal(n) + seq![unit, ' ']
    }
}

/// The wording of a duration: days, hours and minutes that are not zero, or
/// "a few seconds" when all three are.
pub open spec fn duration_text(t: nat) -> Seq<char> {
    let d = t / 86400;
    let h = (t / 3600) % 24;
    let m = (t / 60) % 60;
    if d == 0 && h == 0 && m == 0 {
        "a few seconds"@
    } else {
        term(d, 'd') + term(h, 'h') + term(m, 'm')
    }
}

fn push_term(out: &mut String, n: u64, unit: char)
    ensures
        final(out)@ == old(out)@ + term(n as nat, unit),
{
    if n != 0 {
        push_decimal(out, n);
        push_char(out, unit);
        push_char(out, ' ');
        assert(final(out)@ == old(out)@ + term(n as nat, unit));
    } else {
        assert(old(out)@ + term(n as nat, unit) == old(out)@);
    }
}

} // verus!
