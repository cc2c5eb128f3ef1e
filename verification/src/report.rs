//! Report aggregation: per-run bookkeeping and the comparison table.
//! A run record keeps what one benchmark run produced; reports are the
//! successfully measured subset; the comparison table is a pure,
//! deterministically ordered view over one category's reports,
//! recomputed fresh from the full set each time.

use vstd::prelude::*;
use crate::metrics::Metrics;
use crate::metrics::spec_parse_metrics;
use crate::metrics::parse_metrics;

verus! {

/// Identity of one thing to benchmark: a grouping category and the
/// name of the specific implementation.
pub struct BenchmarkTarget {
    pub category: Vec<u8>,
    pub name: Vec<u8>,
}

/// What building one target came to. A failed build permanently
/// excludes the target from every later phase.
pub struct BuildOutcome {
    pub target: BenchmarkTarget,
    pub success: bool,
    pub stderr: Vec<u8>,
}

/// One successfully measured run: the unit of comparison.
pub struct Report {
    pub name: Vec<u8>,
    pub peak_bytes: u64,
    pub metrics: Metrics,
}

/// How one run ended, after the process was cleaned up.
pub enum RunOutcome {
    /// The server process never started; there was nothing to measure.
    LaunchFailed,
    /// The load generator wrote to its error stream; the output is
    /// unusable and the target contributes no report.
    LoadToolFailed { stderr: Vec<u8> },
    /// The output did not parse; the narrative text is kept but the
    /// target is left out of the comparison table.
    Unparsed { stdout: Vec<u8> },
    /// The output parsed; the target is fully measured.
    Measured { stdout: Vec<u8>, metrics: Metrics },
}

/// Everything one run left behind.
pub struct RunRecord {
    pub category: Vec<u8>,
    pub name: Vec<u8>,
    /// Peak resident memory observed during the load window; 0 when
    /// the launch failed.
    pub peak_bytes: u64,
    pub outcome: RunOutcome,
}

impl RunOutcome {
    /// The collecting decision, as a predicate on this outcome: error
    /// output wins, then parseability.
    pub open spec fn matches_collect(&self, stdout: Seq<u8>, stderr: Seq<u8>) -> bool {
        if stderr.len() > 0 {
            self matches RunOutcome::LoadToolFailed { stderr: e } && e@ == stderr
        } else {
            match spec_parse_metrics(stdout) {
                Some(m) => self matches RunOutcome::Measured { stdout: o, metrics: m2 } && o@
                    == stdout && m2 == m,
                None => self matches RunOutcome::Unparsed { stdout: o } && o@ == stdout,
            }
        }
    }
}

/// Close out one run that got as far as the load call: decide its
/// outcome from the load generator's two streams. Non-empty error text
/// means no report; otherwise the text is parsed, and a parse failure
/// still keeps the narrative output.
pub fn collect_run(
    category: Vec<u8>,
    name: Vec<u8>,
    peak_bytes: u64,
    stdout: Vec<u8>,
    stderr: Vec<u8>,
) -> (r: RunRecord)
    ensures
        r.category == category,
        r.name == name,
        r.peak_bytes == peak_bytes,
        r.outcome.matches_collect(stdout@, stderr@),
        (r.outcome is Measured) <==> (stderr@.len() == 0 && spec_parse_metrics(stdout@) is Some),
{
    if stderr.len() > 0 {
        RunRecord { category, name, peak_bytes, outcome: RunOutcome::LoadToolFailed { stderr } }
    } else {
        match parse_metrics(&stdout) {
            Some(m) => RunRecord {
                category,
                name,
                peak_bytes,
                outcome: RunOutcome::Measured { stdout, metrics: m },
            },
            None => RunRecord {
                category,
                name,
                peak_bytes,
                outcome: RunOutcome::Unparsed { stdout },
            },
        }
    }
}

/// Record a run whose launch failed: no process, no streams, no peak.
pub fn record_launch_failure(category: Vec<u8>, name: Vec<u8>) -> (r: RunRecord)
    ensures
        r.category == category,
        r.name == name,
        r.peak_bytes == 0,
        r.outcome is LaunchFailed,
{
    RunRecord { category, name, peak_bytes: 0, outcome: RunOutcome::LaunchFailed }
}

/// The reports of one category: the measured records, in order.
pub open spec fn spec_reports_of(records: Seq<RunRecord>, category: Seq<u8>) -> Seq<Report>
    decreases records.len(),
{
    if records.len() == 0 {
        Seq::empty()
    } else {
        let rest = spec_reports_of(records.drop_last(), category);
        let r = records.last();
        match r.outcome {
            RunOutcome::Measured { stdout, metrics } => if r.category@ == category {
                rest.push(Report { name: r.name, peak_bytes: r.peak_bytes, metrics })
            } else {
                rest
            },
            _ => rest,
        }
    }
}

/// Every report of a category stems from a measured record of that
/// category with the same name.
pub proof fn lemma_reports_from_records(records: Seq<RunRecord>, category: Seq<u8>)
    ensures
        forall|j: int|
            0 <= j < spec_reports_of(records, category).len() ==> exists|i: int|
                0 <= i < records.len() && records[i].name
                    == #[trigger] spec_reports_of(records, category)[j].name && records[i].category@
                    == category && records[i].outcome is Measured,
    decreases records.len(),
{
    if records.len() > 0 {
        lemma_reports_from_records(records.drop_last(), category);
        let rest = spec_reports_of(records.drop_last(), category);
        assert forall|j: int| 0 <= j < spec_reports_of(records, category).len() implies exists|
            i: int,
        |
            0 <= i < records.len() && records[i].name == #[trigger] spec_reports_of(
                records,
                category,
            )[j].name && records[i].category@ == category && records[i].outcome is Measured by {
            if j < rest.len() {
                let i = choose|i: int|
                    0 <= i < records.drop_last().len() && records.drop_last()[i].name == rest[j].name
                        && records.drop_last()[i].category@ == category && records.drop_last()[i].outcome is Measured;
                assert(records[i] == records.drop_last()[i]);
            } else {
                let i = records.len() - 1;
                assert(records[i].name == spec_reports_of(records, category)[j].name);
            }
        }
    }
}

/// Deep copy of a byte vector.
pub fn clone_bytes(v: &Vec<u8>) -> (r: Vec<u8>)
    ensures
        r@ == v@,
{
    let r = crate::metrics::copy_range(v, 0, v.len());
    proof {
        assert(v@.subrange(0, v@.len() as int) =~= v@);
    }
    r
}

/// Byte-vector equality.
pub fn bytes_eq(a: &Vec<u8>, b: &Vec<u8>) -> (r: bool)
    ensures
        r == (a@ == b@),
{
    if a.len() != b.len() {
        return false;
    }
    let mut i: usize = 0;
    while i < a.len()
        invariant
            i <= a@.len() == b@.len(),
            forall|k: int| 0 <= k < i ==> a@[k] == b@[k],
        decreases a.len() - i,
    {
        if a[i] != b[i] {
            return false;
        }
        i = i + 1;
    }
    proof {
        assert(a@ =~= b@);
    }
    true
}

/// The measured records of one category, turned into reports, in
/// record order.
pub fn reports_of(records: Vec<RunRecord>, category: &Vec<u8>) -> (r: Vec<Report>)
    ensures
        r@ == spec_reports_of(records@, category@),
{
    let ghost orig = records@;
    let mut rest = records;
    let n0 = rest.len();
    proof {
        assert(orig.len() == n0);
    }
    let mut out: Vec<Report> = Vec::new();
    let mut k: usize = 0;
    while rest.len() > 0
        invariant
            k + rest@.len() == orig.len(),
            orig.len() <= usize::MAX,
            rest@ =~= orig.skip(k as int),
            out@ == spec_reports_of(orig.take(k as int), category@),
        decreases rest.len(),
    {
        let ghost prev = rest@;
        let rec = rest.remove(0);
        proof {
            assert(prev[0] == orig[k as int]);
            assert(orig.take(k + 1).drop_last() =~= orig.take(k as int));
            assert(orig.take(k + 1).last() == orig[k as int]);
            assert(rest@ =~= orig.skip(k + 1));
        }
        let RunRecord { category: c, name, peak_bytes, outcome } = rec;
        let same = bytes_eq(&c, category);
        match outcome {
            RunOutcome::Measured { stdout: _, metrics } => {
                if same {
                    out.push(Report { name, peak_bytes, metrics });
                }
            },
            _ => {},
        }
        k = k + 1;
    }
    proof {
        assert(orig.take(orig.len() as int) =~= orig);
    }
    out
}

/// The category occurs in the collected list.
pub open spec fn cat_listed(cats: Seq<Vec<u8>>, c: Seq<u8>) -> bool {
    exists|j: int| 0 <= j < cats.len() && (#[trigger] cats[j])@ == c
}

/// Some record carries the category.
pub open spec fn cat_of_records(records: Seq<RunRecord>, c: Seq<u8>) -> bool {
    exists|i: int| 0 <= i < records.len() && (#[trigger] records[i].category)@ == c
}

/// Is a category already among those collected?
fn has_category(cats: &Vec<Vec<u8>>, c: &Vec<u8>) -> (r: bool)
    ensures
        r == cat_listed(cats@, c@),
{
    let mut i: usize = 0;
    while i < cats.len()
        invariant
            i <= cats@.len(),
            forall|j: int| 0 <= j < i ==> (#[trigger] cats@[j])@ != c@,
        decreases cats.len() - i,
    {
        if bytes_eq(&cats[i], c) {
            return true;
        }
        i = i + 1;
    }
    false
}

/// The distinct categories of a record set, each exactly once, in
/// first-appearance order: one report document is produced per entry.
pub fn categories_of(records: &Vec<RunRecord>) -> (cats: Vec<Vec<u8>>)
    ensures
        forall|j: int| 0 <= j < cats@.len() ==> cat_of_records(records@, (#[trigger] cats@[j])@),
        forall|k: int|
            0 <= k < records@.len() ==> cat_listed(cats@, (#[trigger] records@[k].category)@),
        forall|j1: int, j2: int|
            0 <= j1 < j2 < cats@.len() ==> (#[trigger] cats@[j1])@ != (#[trigger] cats@[j2])@,
{
    let mut cats: Vec<Vec<u8>> = Vec::new();
    let mut i: usize = 0;
    while i < records.len()
        invariant
            i <= records@.len(),
            forall|j: int|
                0 <= j < cats@.len() ==> cat_of_records(records@, (#[trigger] cats@[j])@),
            forall|k: int|
                0 <= k < i ==> cat_listed(cats@, (#[trigger] records@[k].category)@),
            forall|j1: int, j2: int|
                0 <= j1 < j2 < cats@.len() ==> (#[trigger] cats@[j1])@ != (#[trigger] cats@[j2])@,
        decreases records.len() - i,
    {
        let present = has_category(&cats, &records[i].category);
        if !present {
            let ghost prev = cats@;
            cats.push(clone_bytes(&records[i].category));
            proof {
                assert(cats@[cats@.len() - 1]@ == records@[i as int].category@);
                assert(cat_of_records(records@, cats@[cats@.len() - 1]@));
                assert forall|j: int| 0 <= j < cats@.len() implies cat_of_records(
                    records@,
                    (#[trigger] cats@[j])@,
                ) by {
                    if j < prev.len() {
                        assert(cats@[j] == prev[j]);
                    }
                }
                assert forall|k: int| 0 <= k < i + 1 implies cat_listed(
                    cats@,
                    (#[trigger] records@[k].category)@,
                ) by {
                    if k < i {
                        let j = choose|j: int|
                            0 <= j < prev.len() && (#[trigger] prev[j])@ == records@[k].category@;
                        assert(cats@[j]@ == records@[k].category@);
                    } else {
                        assert(cats@[cats@.len() - 1]@ == records@[k].category@);
                    }
                }
            }
        }
        i = i + 1;
    }
    cats
}

/// One row of the comparison table: a target's absolute figures and
/// its share of the best figure in each dimension.
pub struct ComparisonRow {
    pub name: Vec<u8>,
    pub requests_per_sec_centi: u64,
    /// This target's throughput as a percentage of the best (highest).
    pub throughput_pct: u64,
    pub peak_bytes: u64,
    /// The best (lowest) peak memory as a percentage of this target's.
    pub memory_pct: u64,
    pub latency_avg_ns: u64,
    /// The best (lowest) average latency as a percentage of this
    /// target's.
    pub latency_pct: u64,
}

/// The comparison table: one row per report, in report order.
pub struct ComparisonTable {
    pub rows: Vec<ComparisonRow>,
}

/// Highest throughput among the reports; 0 when there are none.
pub open spec fn spec_best_rps(rs: Seq<Report>) -> u64
    decreases rs.len(),
{
    if rs.len() == 0 {
        0u64
    } else {
        let rest = spec_best_rps(rs.drop_last());
        let v = rs.last().metrics.requests_per_sec_centi;
        if v > rest {
            v
        } else {
            rest
        }
    }
}

/// Lowest peak memory among the reports; the largest value when there
/// are none.
pub open spec fn spec_best_mem(rs: Seq<Report>) -> u64
    decreases rs.len(),
{
    if rs.len() == 0 {
        u64::MAX
    } else {
        let rest = spec_best_mem(rs.drop_last());
        let v = rs.last().peak_bytes;
        if v < rest {
            v
        } else {
            rest
        }
    }
}

/// Lowest average latency among the reports; the largest value when
/// there are none.
pub open spec fn spec_best_lat(rs: Seq<Report>) -> u64
    decreases rs.len(),
{
    if rs.len() == 0 {
        u64::MAX
    } else {
        let rest = spec_best_lat(rs.drop_last());
        let v = rs.last().metrics.latency_avg_ns;
        if v < rest {
            v
        } else {
            rest
        }
    }
}

/// Share of the best figure when higher is better: `v` as a
/// percentage of `best`, 100 when there is no best.
pub open spec fn spec_share_of_best_high(v: u64, best: u64) -> u64 {
    if best == 0 {
        100u64
    } else {
        ((v * 100) as int / best as int) as u64
    }
}

/// Share of the best figure when lower is better: `best` as a
/// percentage of `v`, 100 for a zero figure (nothing beats it).
pub open spec fn spec_share_of_best_low(best: u64, v: u64) -> u64 {
    if v == 0 {
        100u64
    } else {
        ((best * 100) as int / v as int) as u64
    }
}

fn share_of_best_high(v: u64, best: u64) -> (r: u64)
    ensures
        r == spec_share_of_best_high(v, best),
{
    if best == 0 {
        100
    } else {
        (((v as u128) * 100) / (best as u128)) as u64
    }
}

fn share_of_best_low(best: u64, v: u64) -> (r: u64)
    ensures
        r == spec_share_of_best_low(best, v),
{
    if v == 0 {
        100
    } else {
        (((best as u128) * 100) / (v as u128)) as u64
    }
}

/// The row a report gets, against the run's best figures.
pub open spec fn spec_comparison_row(r: Report, best_rps: u64, best_mem: u64, best_lat: u64) -> ComparisonRow {
    ComparisonRow {
        name: r.name,
        requests_per_sec_centi: r.metrics.requests_per_sec_centi,
        throughput_pct: spec_share_of_best_high(r.metrics.requests_per_sec_centi, best_rps),
        peak_bytes: r.peak_bytes,
        memory_pct: spec_share_of_best_low(best_mem, r.peak_bytes),
        latency_avg_ns: r.metrics.latency_avg_ns,
        latency_pct: spec_share_of_best_low(best_lat, r.metrics.latency_avg_ns),
    }
}

/// The whole table: one row per report, in order, each normalised
/// against the best figures over the full report set.
pub open spec fn spec_compare(rs: Seq<Report>) -> Seq<ComparisonRow> {
    Seq::new(
        rs.len(),
        |i: int| spec_comparison_row(rs[i], spec_best_rps(rs), spec_best_mem(rs), spec_best_lat(rs)),
    )
}

fn best_rps(reports: &Vec<Report>) -> (r: u64)
    ensures
        r == spec_best_rps(reports@),
{
    let mut best: u64 = 0;
    let mut i: usize = 0;
    while i < reports.len()
        invariant
            i <= reports@.len(),
            best == spec_best_rps(reports@.take(i as int)),
        decreases reports.len() - i,
    {
        proof {
            assert(reports@.take(i + 1).drop_last() =~= reports@.take(i as int));
            assert(reports@.take(i + 1).last() == reports@[i as int]);
        }
        let v = reports[i].metrics.requests_per_sec_centi;
        if v > best {
            best = v;
        }
        i = i + 1;
    }
    proof {
        assert(reports@.take(reports@.len() as int) =~= reports@);
    }
    best
}

fn best_mem(reports: &Vec<Report>) -> (r: u64)
    ensures
        r == spec_best_mem(reports@),
{
    let mut best: u64 = u64::MAX;
    let mut i: usize = 0;
    while i < reports.len()
        invariant
            i <= reports@.len(),
            best == spec_best_mem(reports@.take(i as int)),
        decreases reports.len() - i,
    {
        proof {
            assert(reports@.take(i + 1).drop_last() =~= reports@.take(i as int));
            assert(reports@.take(i + 1).last() == reports@[i as int]);
        }
        let v = reports[i].peak_bytes;
        if v < best {
            best = v;
        }
        i = i + 1;
    }
    proof {
        assert(reports@.take(reports@.len() as int) =~= reports@);
    }
    best
}

fn best_lat(reports: &Vec<Report>) -> (r: u64)
    ensures
        r == spec_best_lat(reports@),
{
    let mut best: u64 = u64::MAX;
    let mut i: usize = 0;
    while i < reports.len()
        invariant
            i <= reports@.len(),
            best == spec_best_lat(reports@.take(i as int)),
        decreases reports.len() - i,
    {
        proof {
            assert(reports@.take(i + 1).drop_last() =~= reports@.take(i as int));
            assert(reports@.take(i + 1).last() == reports@[i as int]);
        }
        let v = reports[i].metrics.latency_avg_ns;
        if v < best {
            best = v;
        }
        i = i + 1;
    }
    proof {
        assert(reports@.take(reports@.len() as int) =~= reports@);
    }
    best
}

/// Compute the comparison table for a report set. A pure function of
/// the set: one row per report, in the same, deterministic order. The
/// empty set gives the empty table, not an error.
pub fn compare(reports: Vec<Report>) -> (t: ComparisonTable)
    ensures
        t.rows@ == spec_compare(reports@),
        t.rows@.len() == reports@.len(),
        reports@.len() == 0 ==> t.rows@.len() == 0,
{
    let brps = best_rps(&reports);
    let bmem = best_mem(&reports);
    let blat = best_lat(&reports);
    let ghost orig = reports@;
    let mut rest = reports;
    let n0 = rest.len();
    proof {
        assert(orig.len() == n0);
    }
    let mut rows: Vec<ComparisonRow> = Vec::new();
    let mut k: usize = 0;
    while rest.len() > 0
        invariant
            k + rest@.len() == orig.len(),
            orig.len() <= usize::MAX,
            rest@ =~= orig.skip(k as int),
            brps == spec_best_rps(orig),
            bmem == spec_best_mem(orig),
            blat == spec_best_lat(orig),
            rows@ =~= spec_compare(orig).take(k as int),
        decreases rest.len(),
    {
        let ghost prev = rest@;
        let rep = rest.remove(0);
        proof {
            assert(prev[0] == orig[k as int]);
            assert(rest@ =~= orig.skip(k + 1));
        }
        let tp = share_of_best_high(rep.metrics.requests_per_sec_centi, brps);
        let mp = share_of_best_low(bmem, rep.peak_bytes);
        let lp = share_of_best_low(blat, rep.metrics.latency_avg_ns);
        let Report { name, peak_bytes, metrics } = rep;
        let row = ComparisonRow {
            name,
            requests_per_sec_centi: metrics.requests_per_sec_centi,
            throughput_pct: tp,
            peak_bytes,
            memory_pct: mp,
            latency_avg_ns: metrics.latency_avg_ns,
            latency_pct: lp,
        };
        rows.push(row);
        proof {
            assert(spec_compare(orig)[k as int] == spec_comparison_row(
                orig[k as int],
                brps,
                bmem,
                blat,
            ));
            assert(rows@ =~= spec_compare(orig).take(k + 1));
        }
        k = k + 1;
    }
    proof {
        assert(spec_compare(orig).take(orig.len() as int) =~= spec_compare(orig));
    }
    ComparisonTable { rows }
}

} // verus!
