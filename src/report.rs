//! The breakdown of a session: one row per region, relative to a total region.
use vstd::prelude::*;
use vstd::string::*;

use crate::clock::span;
use crate::profiler::{lookup, ProfileAnchor, Profiler};
use crate::text::{decimal_u64, digits, fixed, fixed_point};

verus! {

/// One region of a report.
#[derive(Debug, Clone, PartialEq, Eq)]
pub struct ReportEntry {
    pub name: String,
    pub hit_count: u64,
    pub tsc_elapsed: u64,
    /// The region's share of the total, in hundredths of a percent.
    pub percent_hundredths: u128,
}

impl View for ReportEntry {
    type V = (Seq<char>, u64, u64, nat);

    open spec fn view(&self) -> (Seq<char>, u64, u64, nat) {
        (self.name@, self.hit_count, self.tsc_elapsed, self.percent_hundredths as nat)
    }
}

/// Why a report could not be produced.
#[derive(Debug, Clone, Copy, PartialEq, Eq, Structural)]
pub enum ReportError {
    /// The cycle counter's frequency is unknown (zero), so no time in
    /// milliseconds can be given.
    CalibrationUnavailable,
}

/// `elapsed` as a share of `total`, in hundredths of a percent, rounded down;
/// zero when the total is zero.
pub open spec fn percent_hundredths(elapsed: nat, total: nat) -> nat {
    if total == 0 {
        0
    } else {
        elapsed * 10000 / total
    }
}

/// Elapsed cycles of the region `root`, zero if it has no anchor.
pub open spec fn root_cycles(e: Seq<(Seq<char>, ProfileAnchor)>, root: Seq<char>) -> nat {
    match lookup(e, root) {
        Some(a) => a.tsc_elapsed as nat,
        None => 0,
    }
}

/// The rows of a report over entries `e`, leaving out `root`, with shares of
/// `total`.
pub open spec fn rows(e: Seq<(Seq<char>, ProfileAnchor)>, root: Seq<char>, total: nat) -> Seq<
    (Seq<char>, u64, u64, nat),
>
    decreases e.len(),
{
    if e.len() == 0 {
        Seq::empty()
    } else {
        let prev = rows(e.drop_last(), root, total);
        let (name, a) = e.last();
        if name == root {
            prev
        } else {
            prev.push(
                (name, a.hit_count, a.tsc_elapsed, percent_hundredths(a.tsc_elapsed as nat, total)),
            )
        }
    }
}

/// The elapsed cycles of every region of `e` but `root`, summed.
pub open spec fn reconciled(e: Seq<(Seq<char>, ProfileAnchor)>, root: Seq<char>) -> nat
    decreases e.len(),
{
    if e.len() == 0 {
        0
    } else if e.last().0 == root {
        reconciled(e.drop_last(), root)
    } else {
        reconciled(e.drop_last(), root) + e.last().1.tsc_elapsed as nat
    }
}

/// The header line: the session's length in milliseconds with four decimals.
pub open spec fn header_text(root: Seq<char>, cycles: nat, cpu_freq: nat) -> Seq<char> {
    "Total "@ + root + ": "@ + fixed(cycles * 10000000 / cpu_freq, 4) + "ms\n"@
}

/// The line of one row.
pub open spec fn row_text(row: (Seq<char>, u64, u64, nat)) -> Seq<char> {
    row.0 + " ["@ + digits(row.1 as nat) + "] took: "@ + digits(row.2 as nat) + ", "@ + fixed(
        row.3,
        2,
    ) + "%\n"@
}

/// The lines of all rows, in order.
pub open spec fn rows_text(r: Seq<(Seq<char>, u64, u64, nat)>) -> Seq<char>
    decreases r.len(),
{
    if r.len() == 0 {
        Seq::empty()
    } else {
        rows_text(r.drop_last()) + row_text(r.last())
    }
}

/// The whole report of profiler `p` relative to region `root`.
pub open spec fn report_text(p: Profiler, root: Seq<char>, cpu_freq: nat) -> Seq<char> {
    header_text(root, span(p.start_tsc, p.end_tsc), cpu_freq) + rows_text(
        rows(p@, root, root_cycles(p@, root)),
    )
}

impl Profiler {
    /// Elapsed cycles of the region `root`, zero if it has no anchor.
    pub fn root_cycles(&self, root: &str) -> (r: u64)
        requires
            self.wf(),
        ensures
            r == root_cycles(self@, root@),
    {
        match self.anchor(root) {
            Some(a) => a.tsc_elapsed,
            None => 0,
        }
    }

    /// One row per region but `root`, in the table's order, each with its
    /// share of the elapsed cycles of `root`.
    pub fn report(&self, root: &str) -> (r: Vec<ReportEntry>)
        requires
            self.wf(),
        ensures
            r@.map_values(|x: ReportEntry| x@) == rows(self@, root@, root_cycles(self@, root@)),
    {
        let total: u64 = self.root_cycles(root);
        let key: String = root.to_owned();
        let mut out: Vec<ReportEntry> = Vec::new();
        let mut i: usize = 0;
        while i < self.anchors.len()
            invariant
                i <= self.anchors.len(),
                key@ == root@,
                out@.map_values(|x: ReportEntry| x@) == rows(
                    self@.subrange(0, i as int),
                    root@,
                    total as nat,
                ),
            decreases self.anchors.len() - i,
        {
            let ghost before = out@;
            assert(self@.subrange(0, i + 1).drop_last() =~= self@.subrange(0, i as int));
            if !(self.anchors[i].0 == key) {
                let a: ProfileAnchor = self.anchors[i].1;
                let pct: u128 = if total == 0 {
                    0
                } else {
                    (a.tsc_elapsed as u128) * 10000 / (total as u128)
                };
                out.push(
                    ReportEntry {
                        name: self.anchors[i].0.clone(),
                        hit_count: a.hit_count,
                        tsc_elapsed: a.tsc_elapsed,
                        percent_hundredths: pct,
                    },
                );
                assert(out@.map_values(|x: ReportEntry| x@) =~= before.map_values(
                    |x: ReportEntry| x@,
                ).push(
                    (
                        self@[i as int].0,
                        a.hit_count,
                        a.tsc_elapsed,
                        percent_hundredths(a.tsc_elapsed as nat, total as nat),
                    ),
                ));
            }
            i += 1;
        }
        assert(self@.subrange(0, self.anchors.len() as int) =~= self@);
        out
    }

    /// The elapsed cycles of every region but `root`, summed. Nested regions
    /// are counted inside their parents too, so this may exceed the total.
    pub fn reconciled_total(&self, root: &str) -> (r: u128)
        ensures
            r == reconciled(self@, root@),
    {
        let key: String = root.to_owned();
        let mut sum: u128 = 0;
        let mut i: usize = 0;
        while i < self.anchors.len()
            invariant
                i <= self.anchors.len(),
                key@ == root@,
                sum == reconciled(self@.subrange(0, i as int), root@),
                sum <= i * (u64::MAX as int),
            decreases self.anchors.len() - i,
        {
            assert(self@.subrange(0, i + 1).drop_last() =~= self@.subrange(0, i as int));
            if !(self.anchors[i].0 == key) {
                assert((i + 1) * (u64::MAX as int) == i * (u64::MAX as int) + u64::MAX)
                    by (nonlinear_arith);
                assert((i + 1) * (u64::MAX as int) <= (usize::MAX as int + 1) * (
                u64::MAX as int)) by (nonlinear_arith)
                    requires
                        i < usize::MAX,
                ;
                sum = sum + self.anchors[i].1.tsc_elapsed as u128;
            } else {
                assert((i + 1) * (u64::MAX as int) == i * (u64::MAX as int) + u64::MAX)
                    by (nonlinear_arith);
            }
            i += 1;
        }
        assert(self@.subrange(0, self.anchors.len() as int) =~= self@);
        sum
    }

    /// How far the summed regions are from the total: the distance between
    /// the elapsed cycles of `root` and `reconciled_total`.
    pub fn total_difference(&self, root: &str) -> (r: u128)
        requires
            self.wf(),
        ensures
            r == if root_cycles(self@, root@) >= reconciled(self@, root@) {
                root_cycles(self@, root@) - reconciled(self@, root@)
            } else {
                reconciled(self@, root@) - root_cycles(self@, root@)
            },
    {
        let total: u128 = self.root_cycles(root) as u128;
        let sum: u128 = self.reconciled_total(root);
        if total >= sum {
            total - sum
        } else {
            sum - total
        }
    }

    /// The report as text: a header with the session's length in
    /// milliseconds, then one line per region but `root`. Fails when the
    /// cycle counter's frequency is unknown.
    pub fn generate_report(&self, root: &str, cpu_freq: u64) -> (r: Result<String, ReportError>)
        requires
            self.wf(),
        ensures
            cpu_freq == 0 ==> r == Err::<String, ReportError>(ReportError::CalibrationUnavailable),
            cpu_freq != 0 ==> r is Ok && r->Ok_0@ == report_text(*self, root@, cpu_freq as nat),
    {
        if cpu_freq == 0 {
            return Err(ReportError::CalibrationUnavailable);
        }
        let cycles: u64 = self.end_tsc.saturating_sub(self.start_tsc);
        let mut out: String = header_line(root, cycles, cpu_freq);
        let entries: Vec<ReportEntry> = self.report(root);
        let ghost all = entries@.map_values(|x: ReportEntry| x@);
        let mut i: usize = 0;
        while i < entries.len()
            invariant
                i <= entries.len(),
                all == entries@.map_values(|x: ReportEntry| x@),
                out@ == header_text(root@, span(self.start_tsc, self.end_tsc), cpu_freq as nat)
                    + rows_text(all.subrange(0, i as int)),
            decreases entries.len() - i,
        {
            assert(all.subrange(0, i + 1).drop_last() =~= all.subrange(0, i as int));
            let line: String = row_line(&entries[i]);
            out.append(line.as_str());
            assert(out@ =~= header_text(root@, span(self.start_tsc, self.end_tsc), cpu_freq as nat)
                + rows_text(all.subrange(0, i + 1)));
            i += 1;
        }
        assert(all.subrange(0, entries.len() as int) =~= all);
        Ok(out)
    }
}

/// The report's text is determined by the table and the session's two cycle
/// readings alone: asking twice, with no region entered or left in between,
/// yields the same text.
pub proof fn lemma_report_deterministic(p: Profiler, q: Profiler, root: Seq<char>, cpu_freq: nat)
    requires
        p@ == q@,
        p.start_tsc == q.start_tsc,
        p.end_tsc == q.end_tsc,
    ensures
        report_text(p, root, cpu_freq) == report_text(q, root, cpu_freq),
{
}

fn header_line(root: &str, cycles: u64, cpu_freq: u64) -> (r: String)
    requires
        cpu_freq > 0,
    ensures
        r@ == header_text(root@, cycles as nat, cpu_freq as nat),
{
    let c: u128 = cycles as u128;
    assert(c * 10000000 <= u64::MAX as int * 10000000) by (nonlinear_arith)
        requires
            c <= u64::MAX,
    ;
    let ms: String = fixed_point(c * 10000000 / (cpu_freq as u128), 4);
    let mut out: String = String::from_str("Total ");
    out.append(root);
    out.append(": ");
    out.append(ms.as_str());
    out.append("ms\n");
    out
}

fn row_line(e: &ReportEntry) -> (r: String)
    ensures
        r@ == row_text(e@),
{
    let hits: String = decimal_u64(e.hit_count);
    let cycles: String = decimal_u64(e.tsc_elapsed);
    let pct: String = fixed_point(e.percent_hundredths, 2);
    let mut out: String = e.name.clone();
    out.append(" [");
    out.append(hits.as_str());
    out.append("] took: ");
    out.append(cycles.as_str());
    out.append(", ");
    out.append(pct.as_str());
    out.append("%\n");
    out
}

} // verus!
