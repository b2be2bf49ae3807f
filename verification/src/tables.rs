use vstd::prelude::*;

use crate::analyzer::SystemAnalysis;
use crate::cleanup::{item_total, ref_views, size_order, CleanupAssessment, CleanupItem, ItemView};
use crate::order::is_stable_sort;
use crate::pacman::{action_view, action_views, ActionView};
use crate::report::{
    cache_color, cache_shade, delta_text, format_delta, orphan_color, orphan_shade, score_color,
    score_shade, Shade,
};
use crate::scan::QuickScan;
use crate::stats::{
    bucket_view, bucket_views, entry_views, format_bytes, format_bytes_spec, format_signed_bytes,
    format_signed_bytes_spec, take_at_most, EntryView, PackageSizeEntry, PackageStats, SizeBucket,
};
use crate::storage::{HistoryDelta, HistoryEntry, HistoryFile};
use crate::text::{dec, push_dec, push_str};

verus! {

// ---------------------------------------------------------------------------
// The rows of the terminal tables
// ---------------------------------------------------------------------------

/// How many entries of a long list the terminal tables show.
pub const SHOW_TOP_N: usize = 5;

/// How many of `total` entries a table shows: all of them, up to `SHOW_TOP_N`.
pub fn shown_count(total: usize) -> (n: usize)
    ensures
        n == (if total < SHOW_TOP_N {
            total
        } else {
            SHOW_TOP_N
        }),
{
    if total < SHOW_TOP_N {
        total
    } else {
        SHOW_TOP_N
    }
}

/// A metric and its value, with the colour the value is shown in, if any.
#[derive(Debug, Clone)]
pub struct MetricRow {
    pub label: String,
    pub value: String,
    pub shade: Option<Shade>,
}

pub type MetricView = (Seq<char>, Seq<char>, Option<Shade>);

pub open spec fn metric_view(r: MetricRow) -> MetricView {
    (r.label@, r.value@, r.shade)
}

pub open spec fn metric_views(s: Seq<MetricRow>) -> Seq<MetricView> {
    s.map_values(|r: MetricRow| metric_view(r))
}

fn metric(label: &str, value: String, shade: Option<Shade>) -> (r: MetricRow)
    ensures
        metric_view(r) == (label@, value@, shade),
{
    MetricRow { label: label.to_owned(), value, shade }
}

/// The decimal digits of a count.
fn count_text(n: usize) -> (s: String)
    ensures
        s@ == dec(n as nat),
{
    let mut s = String::new();
    push_dec(&mut s, n as u128);
    assert(s@ == dec(n as nat));
    s
}

fn push_metric(rows: &mut Vec<MetricRow>, label: &str, value: String, shade: Option<Shade>)
    ensures
        metric_views(final(rows)@) == metric_views(old(rows)@).push((label@, value@, shade)),
{
    let r = metric(label, value, shade);
    rows.push(r);
    assert(metric_views(rows@) == metric_views(old(rows)@).push((label@, value@, shade)));
}

/// The row of the package cache size, when it is known.
pub open spec fn cache_rows(cache: Option<u64>) -> Seq<MetricView> {
    match cache {
        Some(b) => seq![("Pacman cache"@, format_bytes_spec(b as nat), Some(cache_shade(b as nat)))],
        None => seq![],
    }
}

fn push_cache_row(rows: &mut Vec<MetricRow>, cache: Option<u64>)
    ensures
        metric_views(final(rows)@) == metric_views(old(rows)@) + cache_rows(cache),
{
    match cache {
        Some(b) => {
            push_metric(rows, "Pacman cache", format_bytes(b), Some(cache_color(b)));
        },
        None => {
            assert(metric_views(rows@) == metric_views(rows@) + Seq::<MetricView>::empty());
        },
    }
}

// ---------------------------------------------------------------------------
// Scan
// ---------------------------------------------------------------------------

pub open spec fn scan_brief_spec(scan: QuickScan) -> Seq<MetricView> {
    seq![
        ("Packages"@, dec(scan.total_packages as nat), None),
        ("Explicit"@, dec(scan.explicit_packages as nat), None),
        ("Dependencies"@, dec(scan.dependency_packages as nat), None),
        ("Orphans"@, dec(scan.orphan_count as nat), Some(orphan_shade(scan.orphan_count as nat))),
    ] + cache_rows(scan.cache_size_bytes)
}

/// The table of a quick scan: package counts, orphans coloured by their number,
/// and the cache size coloured by its size when it is known.
pub fn scan_brief_rows(scan: &QuickScan) -> (r: Vec<MetricRow>)
    ensures
        metric_views(r@) == scan_brief_spec(*scan),
{
    let mut rows: Vec<MetricRow> = Vec::new();
    push_metric(&mut rows, "Packages", count_text(scan.total_packages), None);
    push_metric(&mut rows, "Explicit", count_text(scan.explicit_packages), None);
    push_metric(&mut rows, "Dependencies", count_text(scan.dependency_packages), None);
    push_metric(
        &mut rows,
        "Orphans",
        count_text(scan.orphan_count),
        Some(orphan_color(scan.orphan_count)),
    );
    push_cache_row(&mut rows, scan.cache_size_bytes);
    rows
}

// ---------------------------------------------------------------------------
// Cleanup
// ---------------------------------------------------------------------------

pub open spec fn clean_summary_spec(c: CleanupAssessment) -> Seq<MetricView> {
    seq![
        ("Orphans"@, dec(c.orphans.len() as nat), Some(orphan_shade(c.orphans.len() as nat))),
        (
            "Unused dependencies"@,
            dec(c.unnecessary_dependencies.len() as nat),
            Some(orphan_shade(c.unnecessary_dependencies.len() as nat)),
        ),
    ] + cache_rows(c.cache_size_bytes) + seq![
        (
            "Reclaimable (packages)"@,
            format_bytes_spec(item_total(c.all_items())),
            Some(Shade::Green),
        ),
    ]
}

/// The summary table of a cleanup assessment: orphans and unused dependencies
/// coloured by their number, the cache size, and the space removal would free.
pub fn clean_summary_rows(cleanup: &CleanupAssessment) -> (r: Vec<MetricRow>)
    requires
        item_total(cleanup.all_items()) <= u64::MAX,
    ensures
        metric_views(r@) == clean_summary_spec(*cleanup),
{
    let mut rows: Vec<MetricRow> = Vec::new();
    push_metric(
        &mut rows,
        "Orphans",
        count_text(cleanup.orphans.len()),
        Some(orphan_color(cleanup.orphans.len())),
    );
    push_metric(
        &mut rows,
        "Unused dependencies",
        count_text(cleanup.unnecessary_dependencies.len()),
        Some(orphan_color(cleanup.unnecessary_dependencies.len())),
    );
    push_cache_row(&mut rows, cleanup.cache_size_bytes);
    push_metric(
        &mut rows,
        "Reclaimable (packages)",
        format_bytes(cleanup.reclaimable_bytes()),
        Some(Shade::Green),
    );
    rows
}

/// A row of the table of cleanup candidates.
#[derive(Debug, Clone)]
pub struct CandidateRow {
    pub package: String,
    pub version: String,
    pub size: String,
    pub reason: String,
}

pub open spec fn candidate_row_view(r: CandidateRow) -> (Seq<char>, Seq<char>, Seq<char>, Seq<char>) {
    (r.package@, r.version@, r.size@, r.reason@)
}

pub open spec fn candidate_row_views(s: Seq<CandidateRow>) -> Seq<
    (Seq<char>, Seq<char>, Seq<char>, Seq<char>),
> {
    s.map_values(|r: CandidateRow| candidate_row_view(r))
}

/// What a candidate's row shows: its name, version, size and reason.
pub open spec fn candidate_cells(i: ItemView) -> (Seq<char>, Seq<char>, Seq<char>, Seq<char>) {
    (i.name, i.version, format_bytes_spec(i.size_bytes as nat), i.reason)
}

fn candidate_row(item: &CleanupItem) -> (r: CandidateRow)
    ensures
        candidate_row_view(r) == candidate_cells(item@),
{
    CandidateRow {
        package: item.name.clone(),
        version: item.version.clone(),
        size: format_bytes(item.size_bytes),
        reason: item.reason.clone(),
    }
}

/// The rows of the largest cleanup candidates, at most `SHOW_TOP_N` of them, in the
/// order of `candidates`.
pub fn top_candidate_rows(cleanup: &CleanupAssessment) -> (r: Vec<CandidateRow>)
    ensures
        exists|sorted: Seq<ItemView>|
            #[trigger] is_stable_sort(sorted, cleanup.all_items(), size_order())
                && candidate_row_views(r@) == take_at_most(sorted, SHOW_TOP_N as nat).map_values(
                |i: ItemView| candidate_cells(i),
            ),
{
    let candidates = cleanup.candidates();
    let ghost sorted = ref_views(candidates@);
    let n = shown_count(candidates.len());
    let ghost shown = take_at_most(sorted, SHOW_TOP_N as nat);
    assert(shown.len() == n);
    let mut rows: Vec<CandidateRow> = Vec::new();
    let mut i: usize = 0;
    while i < n
        invariant
            i <= n <= candidates.len(),
            rows.len() == i,
            sorted == ref_views(candidates@),
            shown == take_at_most(sorted, SHOW_TOP_N as nat),
            shown.len() == n,
            candidate_row_views(rows@) == shown.take(i as int).map_values(
                |it: ItemView| candidate_cells(it),
            ),
        decreases n - i,
    {
        let item: &CleanupItem = candidates[i];
        let row = candidate_row(item);
        let ghost before = rows@;
        rows.push(row);
        proof {
            assert(shown[i as int] == item@);
            let a = candidate_row_views(rows@);
            let b = shown.take(i + 1).map_values(|it: ItemView| candidate_cells(it));
            assert forall|k: int| 0 <= k < a.len() implies a[k] == b[k] by {
                if k < i {
                    assert(rows@[k] == before[k]);
                    assert(candidate_row_views(before)[k] == shown.take(i as int).map_values(
                        |it: ItemView| candidate_cells(it),
                    )[k]);
                }
            }
            assert(a =~= b);
        }
        i += 1;
    }
    assert(shown.take(n as int) == shown);
    rows
}

// ---------------------------------------------------------------------------
// Statistics
// ---------------------------------------------------------------------------

pub open spec fn stats_summary_spec(s: PackageStats, ratio: Seq<char>) -> Seq<MetricView> {
    seq![
        ("Total packages"@, dec(s.total_packages as nat), None),
        ("Total size"@, format_bytes_spec(s.total_size_bytes as nat), None),
        ("Average size"@, format_bytes_spec(s.average_size_bytes as nat), None),
        ("Median size"@, format_bytes_spec(s.median_size_bytes as nat), None),
        (
            "Explicit / Dependency"@,
            dec(s.explicit_packages as nat) + " / "@ + dec(s.dependency_packages as nat) + "  ("@
                + ratio + ")"@,
            None,
        ),
    ]
}

/// The summary table of the package statistics; `ratio` is the ratio of explicit
/// to dependency packages as it is to be shown.
pub fn stats_summary_rows(stats: &PackageStats, ratio: &str) -> (r: Vec<MetricRow>)
    ensures
        metric_views(r@) == stats_summary_spec(*stats, ratio@),
{
    let mut rows: Vec<MetricRow> = Vec::new();
    push_metric(&mut rows, "Total packages", count_text(stats.total_packages), None);
    push_metric(&mut rows, "Total size", format_bytes(stats.total_size_bytes), None);
    push_metric(&mut rows, "Average size", format_bytes(stats.average_size_bytes), None);
    push_metric(&mut rows, "Median size", format_bytes(stats.median_size_bytes), None);
    let mut split = count_text(stats.explicit_packages);
    push_str(&mut split, " / ");
    push_dec(&mut split, stats.dependency_packages as u128);
    push_str(&mut split, "  (");
    push_str(&mut split, ratio);
    push_str(&mut split, ")");
    push_metric(&mut rows, "Explicit / Dependency", split, None);
    rows
}

/// A row of the table of size buckets.
#[derive(Debug, Clone)]
pub struct BucketRow {
    pub bucket: String,
    pub count: usize,
    pub total_size: String,
}

pub open spec fn bucket_row_view(r: BucketRow) -> (Seq<char>, nat, Seq<char>) {
    (r.bucket@, r.count as nat, r.total_size@)
}

pub open spec fn bucket_row_views(s: Seq<BucketRow>) -> Seq<(Seq<char>, nat, Seq<char>)> {
    s.map_values(|r: BucketRow| bucket_row_view(r))
}

/// What a bucket's row shows: its label, its count and its total size.
pub open spec fn bucket_cells(b: (Seq<char>, nat, nat)) -> (Seq<char>, nat, Seq<char>) {
    (b.0, b.1, format_bytes_spec(b.2))
}

/// One row per size bucket, in order.
pub fn size_bucket_rows(buckets: &[SizeBucket]) -> (r: Vec<BucketRow>)
    ensures
        bucket_row_views(r@) == bucket_views(buckets@).map_values(
            |b: (Seq<char>, nat, nat)| bucket_cells(b),
        ),
{
    let ghost bv = bucket_views(buckets@);
    let mut rows: Vec<BucketRow> = Vec::new();
    let mut i: usize = 0;
    while i < buckets.len()
        invariant
            i <= buckets.len(),
            rows.len() == i,
            bv == bucket_views(buckets@),
            bucket_row_views(rows@) == bv.take(i as int).map_values(
                |b: (Seq<char>, nat, nat)| bucket_cells(b),
            ),
        decreases buckets.len() - i,
    {
        let b = &buckets[i];
        let ghost before = rows@;
        rows.push(
            BucketRow {
                bucket: b.label.clone(),
                count: b.count,
                total_size: format_bytes(b.total_bytes),
            },
        );
        proof {
            assert(bv[i as int] == bucket_view(*b));
            let x = bucket_row_views(rows@);
            let y = bv.take(i + 1).map_values(|b: (Seq<char>, nat, nat)| bucket_cells(b));
            assert forall|k: int| 0 <= k < x.len() implies x[k] == y[k] by {
                if k < i {
                    assert(rows@[k] == before[k]);
                    assert(bucket_row_views(before)[k] == bv.take(i as int).map_values(
                        |b: (Seq<char>, nat, nat)| bucket_cells(b),
                    )[k]);
                }
            }
            assert(x =~= y);
        }
        i += 1;
    }
    assert(bv.take(buckets.len() as int) == bv);
    rows
}

/// A row of a table of packages and their sizes.
#[derive(Debug, Clone)]
pub struct PackageRow {
    pub package: String,
    pub version: String,
    pub size: String,
}

pub open spec fn package_row_view(r: PackageRow) -> (Seq<char>, Seq<char>, Seq<char>) {
    (r.package@, r.version@, r.size@)
}

pub open spec fn package_row_views(s: Seq<PackageRow>) -> Seq<(Seq<char>, Seq<char>, Seq<char>)> {
    s.map_values(|r: PackageRow| package_row_view(r))
}

/// What a package's row shows: its name, its version and its size.
pub open spec fn package_cells(e: EntryView) -> (Seq<char>, Seq<char>, Seq<char>) {
    (e.name, e.version, format_bytes_spec(e.size_bytes as nat))
}

/// One row per package, in order.
pub fn largest_package_rows(packages: &[PackageSizeEntry]) -> (r: Vec<PackageRow>)
    ensures
        package_row_views(r@) == entry_views(packages@).map_values(
            |e: EntryView| package_cells(e),
        ),
{
    let ghost ev = entry_views(packages@);
    let mut rows: Vec<PackageRow> = Vec::new();
    let mut i: usize = 0;
    while i < packages.len()
        invariant
            i <= packages.len(),
            rows.len() == i,
            ev == entry_views(packages@),
            package_row_views(rows@) == ev.take(i as int).map_values(
                |e: EntryView| package_cells(e),
            ),
        decreases packages.len() - i,
    {
        let p = &packages[i];
        let ghost before = rows@;
        rows.push(
            PackageRow {
                package: p.name.clone(),
                version: p.version.clone(),
                size: format_bytes(p.size_bytes),
            },
        );
        proof {
            assert(ev[i as int] == p@);
            let x = package_row_views(rows@);
            let y = ev.take(i + 1).map_values(|e: EntryView| package_cells(e));
            assert forall|k: int| 0 <= k < x.len() implies x[k] == y[k] by {
                if k < i {
                    assert(rows@[k] == before[k]);
                    assert(package_row_views(before)[k] == ev.take(i as int).map_values(
                        |e: EntryView| package_cells(e),
                    )[k]);
                }
            }
            assert(x =~= y);
        }
        i += 1;
    }
    assert(ev.take(packages.len() as int) == ev);
    rows
}

// ---------------------------------------------------------------------------
// Dashboard
// ---------------------------------------------------------------------------

/// `100u8.saturating_sub(score)`.
pub open spec fn complement(score: nat) -> nat {
    if score <= 100 {
        (100 - score) as nat
    } else {
        0
    }
}

pub open spec fn dashboard_health_spec(a: SystemAnalysis) -> Seq<MetricView> {
    seq![
        ("Health score"@, dec(a.health_score as nat), Some(score_shade(a.health_score as nat))),
        (
            "Bloat score"@,
            dec(a.bloat_score as nat),
            Some(score_shade(complement(a.bloat_score as nat))),
        ),
        ("Unused dep. confidence"@, a.unused_dependency_confidence@, None),
        ("Suspicious dep. chains"@, dec(a.dependencies.suspicious_chains.len() as nat), None),
    ]
}

/// The health table of the dashboard: the health score coloured by its value, the
/// bloat score coloured by what it leaves of 100, the confidence about unused
/// dependencies and the number of suspicious dependency chains.
pub fn dashboard_health_rows(analysis: &SystemAnalysis) -> (r: Vec<MetricRow>)
    ensures
        metric_views(r@) == dashboard_health_spec(*analysis),
{
    let mut rows: Vec<MetricRow> = Vec::new();
    push_metric(
        &mut rows,
        "Health score",
        count_text(analysis.health_score as usize),
        Some(score_color(analysis.health_score)),
    );
    let left: u8 = if analysis.bloat_score <= 100 {
        100 - analysis.bloat_score
    } else {
        0
    };
    push_metric(
        &mut rows,
        "Bloat score",
        count_text(analysis.bloat_score as usize),
        Some(score_color(left)),
    );
    push_metric(
        &mut rows,
        "Unused dep. confidence",
        analysis.unused_dependency_confidence.clone(),
        None,
    );
    push_metric(
        &mut rows,
        "Suspicious dep. chains",
        count_text(analysis.dependencies.suspicious_chains.len()),
        None,
    );
    rows
}

/// The row of the heaviest package, when there is one.
pub open spec fn heaviest_rows(heavy: Seq<EntryView>) -> Seq<MetricView> {
    if heavy.len() > 0 {
        seq![
            (
                "Heaviest package"@,
                heavy[0].name + " ("@ + format_bytes_spec(heavy[0].size_bytes as nat) + ")"@,
                None,
            ),
        ]
    } else {
        seq![]
    }
}

pub open spec fn dashboard_disk_spec(a: SystemAnalysis) -> Seq<MetricView> {
    seq![
        ("Packages"@, dec(a.stats.total_packages as nat), None),
        ("Total size"@, format_bytes_spec(a.stats.total_size_bytes as nat), None),
    ] + cache_rows(a.cleanup.cache_size_bytes) + heaviest_rows(
        entry_views(a.stats.heavy_packages@),
    )
}

/// The disk table of the dashboard: package count, total size, the cache size
/// when it is known, and the heaviest package when there is one.
pub fn dashboard_disk_rows(analysis: &SystemAnalysis) -> (r: Vec<MetricRow>)
    ensures
        metric_views(r@) == dashboard_disk_spec(*analysis),
{
    let mut rows: Vec<MetricRow> = Vec::new();
    push_metric(&mut rows, "Packages", count_text(analysis.stats.total_packages), None);
    push_metric(&mut rows, "Total size", format_bytes(analysis.stats.total_size_bytes), None);
    push_cache_row(&mut rows, analysis.cleanup.cache_size_bytes);
    let ghost before = metric_views(rows@);
    let ghost hv = entry_views(analysis.stats.heavy_packages@);
    if analysis.stats.heavy_packages.len() > 0 {
        let top = &analysis.stats.heavy_packages[0];
        assert(hv[0] == top@);
        let mut text = top.name.clone();
        push_str(&mut text, " (");
        let size = format_bytes(top.size_bytes);
        push_str(&mut text, size.as_str());
        push_str(&mut text, ")");
        push_metric(&mut rows, "Heaviest package", text, None);
    } else {
        assert(before + heaviest_rows(hv) == before);
    }
    rows
}

pub open spec fn dashboard_cleanup_spec(a: SystemAnalysis) -> Seq<MetricView> {
    seq![
        (
            "Orphans"@,
            dec(a.cleanup.orphans.len() as nat),
            Some(orphan_shade(a.cleanup.orphans.len() as nat)),
        ),
        ("Unused dependencies"@, dec(a.cleanup.unnecessary_dependencies.len() as nat), None),
        (
            "Reclaimable space"@,
            format_bytes_spec(item_total(a.cleanup.all_items())),
            Some(Shade::Green),
        ),
    ]
}

/// The cleanup table of the dashboard: orphans coloured by their number, unused
/// dependencies, and the space their removal would free.
pub fn dashboard_cleanup_rows(analysis: &SystemAnalysis) -> (r: Vec<MetricRow>)
    requires
        item_total(analysis.cleanup.all_items()) <= u64::MAX,
    ensures
        metric_views(r@) == dashboard_cleanup_spec(*analysis),
{
    let mut rows: Vec<MetricRow> = Vec::new();
    push_metric(
        &mut rows,
        "Orphans",
        count_text(analysis.cleanup.orphans.len()),
        Some(orphan_color(analysis.cleanup.orphans.len())),
    );
    push_metric(
        &mut rows,
        "Unused dependencies",
        count_text(analysis.cleanup.unnecessary_dependencies.len()),
        None,
    );
    push_metric(
        &mut rows,
        "Reclaimable space",
        format_bytes(analysis.cleanup.reclaimable_bytes()),
        Some(Shade::Green),
    );
    rows
}

// ---------------------------------------------------------------------------
// Two-column tables of the full report and the history
// ---------------------------------------------------------------------------

/// A row of a table of items and their values.
#[derive(Debug, Clone)]
pub struct SimpleRow {
    pub item: String,
    pub value: String,
}

pub open spec fn simple_view(r: SimpleRow) -> (Seq<char>, Seq<char>) {
    (r.item@, r.value@)
}

pub open spec fn simple_views(s: Seq<SimpleRow>) -> Seq<(Seq<char>, Seq<char>)> {
    s.map_values(|r: SimpleRow| simple_view(r))
}

fn push_simple(rows: &mut Vec<SimpleRow>, item: String, value: String)
    ensures
        simple_views(final(rows)@) == simple_views(old(rows)@).push((item@, value@)),
{
    let ghost i = item@;
    let ghost v = value@;
    rows.push(SimpleRow { item, value });
    assert(simple_views(rows@) == simple_views(old(rows)@).push((i, v)));
}

pub open spec fn system_summary_spec(a: SystemAnalysis) -> Seq<(Seq<char>, Seq<char>)> {
    seq![
        ("Packages"@, dec(a.stats.total_packages as nat)),
        ("Total size"@, format_bytes_spec(a.stats.total_size_bytes as nat)),
        ("Average size"@, format_bytes_spec(a.stats.average_size_bytes as nat)),
        ("Median size"@, format_bytes_spec(a.stats.median_size_bytes as nat)),
        ("Orphans"@, dec(a.cleanup.orphans.len() as nat)),
        ("Cleanup candidates"@, dec(a.cleanup.safe_remove_candidates.len() as nat)),
        ("Health score"@, dec(a.health_score as nat)),
    ]
}

/// The system summary of the full report.
pub fn system_summary_rows(analysis: &SystemAnalysis) -> (r: Vec<SimpleRow>)
    ensures
        simple_views(r@) == system_summary_spec(*analysis),
{
    let mut rows: Vec<SimpleRow> = Vec::new();
    push_simple(&mut rows, "Packages".to_owned(), count_text(analysis.stats.total_packages));
    push_simple(&mut rows, "Total size".to_owned(), format_bytes(analysis.stats.total_size_bytes));
    push_simple(
        &mut rows,
        "Average size".to_owned(),
        format_bytes(analysis.stats.average_size_bytes),
    );
    push_simple(
        &mut rows,
        "Median size".to_owned(),
        format_bytes(analysis.stats.median_size_bytes),
    );
    push_simple(&mut rows, "Orphans".to_owned(), count_text(analysis.cleanup.orphans.len()));
    push_simple(
        &mut rows,
        "Cleanup candidates".to_owned(),
        count_text(analysis.cleanup.safe_remove_candidates.len()),
    );
    push_simple(&mut rows, "Health score".to_owned(), count_text(analysis.health_score as usize));
    rows
}

/// What a recent package action's row shows: the package, then the action and
/// its time.
pub open spec fn recent_cells(a: ActionView) -> (Seq<char>, Seq<char>) {
    (a.2, a.1 + " | "@ + a.0)
}

/// One row per recently installed or updated package, in order.
pub fn recent_rows(analysis: &SystemAnalysis) -> (r: Vec<SimpleRow>)
    ensures
        simple_views(r@) == action_views(analysis.stats.recent_packages@).map_values(
            |a: ActionView| recent_cells(a),
        ),
{
    let ghost av = action_views(analysis.stats.recent_packages@);
    let mut rows: Vec<SimpleRow> = Vec::new();
    let mut i: usize = 0;
    while i < analysis.stats.recent_packages.len()
        invariant
            i <= analysis.stats.recent_packages.len(),
            rows.len() == i,
            av == action_views(analysis.stats.recent_packages@),
            simple_views(rows@) == av.take(i as int).map_values(|a: ActionView| recent_cells(a)),
        decreases analysis.stats.recent_packages.len() - i,
    {
        let entry = &analysis.stats.recent_packages[i];
        let mut value = entry.action.clone();
        push_str(&mut value, " | ");
        push_str(&mut value, entry.timestamp.as_str());
        let ghost before = rows@;
        push_simple(&mut rows, entry.name.clone(), value);
        proof {
            assert(av[i as int] == action_view(*entry));
            let x = simple_views(rows@);
            let y = av.take(i + 1).map_values(|a: ActionView| recent_cells(a));
            assert(x.len() == i + 1);
            assert forall|k: int| 0 <= k < x.len() implies x[k] == y[k] by {
                if k < i {
                    assert(simple_views(before)[k] == av.take(i as int).map_values(
                        |a: ActionView| recent_cells(a),
                    )[k]);
                }
            }
            assert(x =~= y);
        }
        i += 1;
    }
    assert(av.take(analysis.stats.recent_packages.len() as int) == av);
    rows
}

/// What a recorded analysis's row shows: when it was recorded, then its package
/// count, orphan count and health score.
pub open spec fn history_cells(e: HistoryEntry) -> (Seq<char>, Seq<char>) {
    (
        e.collected_at@,
        dec(e.analysis.stats.total_packages as nat) + " packages | "@ + dec(
            e.analysis.cleanup.orphans.len() as nat,
        ) + " orphans | score "@ + dec(e.analysis.health_score as nat),
    )
}

/// The recorded analyses, newest first, at most twenty.
pub open spec fn history_spec(entries: Seq<HistoryEntry>) -> Seq<(Seq<char>, Seq<char>)> {
    take_at_most(entries.reverse(), 20).map_values(|e: HistoryEntry| history_cells(e))
}

fn history_row(entry: &HistoryEntry) -> (r: SimpleRow)
    ensures
        simple_view(r) == history_cells(*entry),
{
    let mut value = count_text(entry.analysis.stats.total_packages);
    push_str(&mut value, " packages | ");
    push_dec(&mut value, entry.analysis.cleanup.orphans.len() as u128);
    push_str(&mut value, " orphans | score ");
    push_dec(&mut value, entry.analysis.health_score as u128);
    SimpleRow { item: entry.collected_at.clone(), value }
}

/// The table of recorded analyses: the newest twenty, newest first.
pub fn history_rows(history: &HistoryFile) -> (r: Vec<SimpleRow>)
    ensures
        simple_views(r@) == history_spec(history.entries@),
{
    let n = history.entries.len();
    let ghost rev = history.entries@.reverse();
    let shown: usize = if n < 20 {
        n
    } else {
        20
    };
    let ghost want = take_at_most(rev, 20);
    assert(want.len() == shown);
    let mut rows: Vec<SimpleRow> = Vec::new();
    let mut i: usize = 0;
    while i < shown
        invariant
            i <= shown <= n,
            n == history.entries.len(),
            rows.len() == i,
            rev == history.entries@.reverse(),
            want == take_at_most(rev, 20),
            want.len() == shown,
            simple_views(rows@) == want.take(i as int).map_values(
                |e: HistoryEntry| history_cells(e),
            ),
        decreases shown - i,
    {
        let entry = &history.entries[n - 1 - i];
        assert(want[i as int] == rev[i as int]);
        assert(rev[i as int] == history.entries@[n - 1 - i]);
        let row = history_row(entry);
        let ghost before = rows@;
        rows.push(row);
        proof {
            let x = simple_views(rows@);
            let y = want.take(i + 1).map_values(|e: HistoryEntry| history_cells(e));
            assert forall|k: int| 0 <= k < x.len() implies x[k] == y[k] by {
                if k < i {
                    assert(rows@[k] == before[k]);
                    assert(simple_views(before)[k] == want.take(i as int).map_values(
                        |e: HistoryEntry| history_cells(e),
                    )[k]);
                }
            }
            assert(x =~= y);
        }
        i += 1;
    }
    assert(want.take(shown as int) == want);
    rows
}

pub open spec fn delta_spec(d: HistoryDelta) -> Seq<(Seq<char>, Seq<char>)> {
    seq![
        ("Package delta"@, dec(d.previous_packages as nat) + " -> "@ + dec(d.current_packages as nat)),
        ("Health delta"@, delta_text(d.health_delta as int)),
        ("Orphan delta"@, delta_text(d.orphan_delta as int)),
        ("Size delta"@, format_signed_bytes_spec(d.size_delta_bytes as int)),
    ]
}

/// The table of changes between the last two recorded analyses.
pub fn delta_rows(delta: &HistoryDelta) -> (r: Vec<SimpleRow>)
    ensures
        simple_views(r@) == delta_spec(*delta),
{
    let mut rows: Vec<SimpleRow> = Vec::new();
    let mut packages = count_text(delta.previous_packages);
    push_str(&mut packages, " -> ");
    push_dec(&mut packages, delta.current_packages as u128);
    push_simple(&mut rows, "Package delta".to_owned(), packages);
    push_simple(&mut rows, "Health delta".to_owned(), format_delta(delta.health_delta as i128));
    push_simple(&mut rows, "Orphan delta".to_owned(), format_delta(delta.orphan_delta as i128));
    push_simple(&mut rows, "Size delta".to_owned(), format_signed_bytes(delta.size_delta_bytes));
    rows
}

} // verus!
