use vstd::prelude::*;

use crate::cleanup::{
    assessment_of, build_cleanup_assessment, line_if, orphan_items, select_items, unneeded_items,
    CleanupAssessment,
};
use crate::deps::{
    inspect_dependencies, inspection_of, node_names, node_of, redundant_pred,
    DependencyInspection,
};
use crate::pacman::{
    action_views, package_views, PackageRecord, PackageView, SystemSnapshot,
};
use crate::stats::{
    compute_package_stats, f64_value, f64_value_of, format_bytes, format_bytes_spec,
    stats_of, total_size, PackageStats,
};
use crate::text::{dec, push_dec, push_str};

verus! {

// ---------------------------------------------------------------------------
// Data model
// ---------------------------------------------------------------------------

/// Everything learned about a snapshot, with scores and advice.
#[derive(Debug, Clone)]
pub struct SystemAnalysis {
    pub snapshot: SystemSnapshot,
    pub stats: PackageStats,
    pub cleanup: CleanupAssessment,
    pub dependencies: DependencyInspection,
    pub health_score: u8,
    pub bloat_score: u8,
    pub cache_warning: Option<String>,
    pub unused_dependency_confidence: String,
    pub recommendations: Vec<String>,
    pub penalty_breakdown: Vec<String>,
}

// ---------------------------------------------------------------------------
// The bloat score
// ---------------------------------------------------------------------------

pub open spec fn capped(v: int, cap: int) -> int {
    if v < cap {
        v
    } else {
        cap
    }
}

/// Integer division by two rounding toward zero, as Rust's `/` on `i32` does.
pub open spec fn half_toward_zero(t: int) -> int {
    if t >= 0 {
        t / 2
    } else {
        -((-t) / 2)
    }
}

pub open spec fn orphan_penalty(orphans: usize) -> int {
    capped((orphans as i32) * 2, 20)
}

pub open spec fn unused_penalty(unused: usize) -> int {
    capped((unused as i32) * 4, 10)
}

pub open spec fn heavy_penalty(heavy: usize) -> int {
    capped(half_toward_zero((heavy as i32) as int), 12)
}

pub open spec fn redundant_penalty(redundant: usize) -> int {
    capped((redundant as i32) * 2, 8)
}

pub open spec fn i32_saturate(v: nat) -> int {
    if v > i32::MAX {
        i32::MAX as int
    } else {
        v as int
    }
}

/// The installed size in GiB divided by 1.5, rounded half away from zero, as an
/// `i32` (the conversion saturates).
pub open spec fn size_gib_pressure(total: nat) -> int {
    i32_saturate(((2 * f64_value(total) + 3 * 0x2000_0000) / (3 * 0x4000_0000)) as nat)
}

/// The number of packages divided by 150, rounded half away from zero, as an `i32`.
pub open spec fn inventory_pressure(packages: nat) -> int {
    i32_saturate(((2 * f64_value(packages) + 150) / 300) as nat)
}

pub open spec fn size_penalty(total: nat, packages: nat) -> int {
    if packages == 0 {
        0
    } else {
        capped(size_gib_pressure(total) + inventory_pressure(packages), 25)
    }
}

pub open spec fn cache_penalty(cache: Option<u64>) -> int {
    match cache {
        Some(b) => if b >= 20 * 0x4000_0000 {
            8
        } else if b >= 10 * 0x4000_0000 {
            5
        } else if b >= 5 * 0x4000_0000 {
            3
        } else {
            0
        },
        None => 0,
    }
}

pub open spec fn positive(v: int) -> int {
    if v > 0 {
        v
    } else {
        0
    }
}

pub open spec fn penalty_line(label: Seq<char>, v: int) -> Seq<Seq<char>> {
    line_if(v > 0, label + ": +"@ + dec(v as nat))
}

/// The inputs on which computing the score stays within `i32`.
pub open spec fn bloat_inputs_fit(
    orphans: usize,
    unused: usize,
    redundant: usize,
    total: nat,
    packages: nat,
) -> bool {
    &&& i32::MIN <= (orphans as i32) * 2 <= i32::MAX
    &&& i32::MIN <= (unused as i32) * 4 <= i32::MAX
    &&& i32::MIN <= (redundant as i32) * 2 <= i32::MAX
    &&& packages > 0 ==> size_gib_pressure(total) + inventory_pressure(packages) <= i32::MAX
}

/// The bloat score: the sum of the positive penalties, 0 when there are no packages.
pub open spec fn bloat_of(
    orphans: usize,
    unused: usize,
    heavy: usize,
    redundant: usize,
    total: nat,
    packages: nat,
    cache: Option<u64>,
) -> int {
    if packages == 0 {
        0
    } else {
        positive(orphan_penalty(orphans)) + positive(unused_penalty(unused)) + positive(
            heavy_penalty(heavy),
        ) + positive(redundant_penalty(redundant)) + positive(size_penalty(total, packages))
            + positive(cache_penalty(cache))
    }
}

/// One line per positive penalty, in a fixed order.
pub open spec fn penalties_of(
    orphans: usize,
    unused: usize,
    heavy: usize,
    redundant: usize,
    total: nat,
    packages: nat,
    cache: Option<u64>,
) -> Seq<Seq<char>> {
    penalty_line("orphans"@, orphan_penalty(orphans)) + penalty_line(
        "unused dependencies"@,
        unused_penalty(unused),
    ) + penalty_line("heavy packages"@, heavy_penalty(heavy)) + penalty_line(
        "redundant families"@,
        redundant_penalty(redundant),
    ) + penalty_line("installed size pressure"@, size_penalty(total, packages)) + penalty_line(
        "pacman cache pressure"@,
        cache_penalty(cache),
    )
}

pub open spec fn confidence_of(unused: nat) -> Seq<char> {
    if unused == 0 {
        "low"@
    } else if unused < 5 {
        "medium"@
    } else {
        "high"@
    }
}

fn push_penalty(out: &mut Vec<String>, label: &str, v: i32)
    ensures
        final(out).deep_view() == old(out).deep_view() + penalty_line(label@, v as int),
{
    if v > 0 {
        let mut s = String::new();
        push_str(&mut s, label);
        push_str(&mut s, ": +");
        push_dec(&mut s, v as u128);
        out.push(s);
    } else {
        assert(old(out).deep_view() + Seq::<Seq<char>>::empty() =~= old(out).deep_view());
    }
}

fn saturate_i32(v: u128) -> (r: i32)
    ensures
        r == i32_saturate(v as nat),
{
    if v > 0x7fff_ffff {
        0x7fff_ffff
    } else {
        v as i32
    }
}

fn orphan_penalty_of(n: usize) -> (p: i32)
    requires
        i32::MIN <= (n as i32) * 2 <= i32::MAX,
    ensures
        p == orphan_penalty(n),
{
    let o = n as i32;
    if o * 2 < 20 {
        o * 2
    } else {
        20
    }
}

fn unused_penalty_of(n: usize) -> (p: i32)
    requires
        i32::MIN <= (n as i32) * 4 <= i32::MAX,
    ensures
        p == unused_penalty(n),
{
    let u = n as i32;
    if u * 4 < 10 {
        u * 4
    } else {
        10
    }
}

fn heavy_penalty_of(n: usize) -> (p: i32)
    ensures
        p == heavy_penalty(n),
{
    let h = n as i32;
    let half = h / 2;
    if half < 12 {
        half
    } else {
        12
    }
}

fn redundant_penalty_of(n: usize) -> (p: i32)
    requires
        i32::MIN <= (n as i32) * 2 <= i32::MAX,
    ensures
        p == redundant_penalty(n),
{
    let r = n as i32;
    if r * 2 < 8 {
        r * 2
    } else {
        8
    }
}

fn size_penalty_of(total: u64, packages: usize) -> (p: i32)
    requires
        packages > 0 ==> size_gib_pressure(total as nat) + inventory_pressure(packages as nat)
            <= i32::MAX,
    ensures
        p == size_penalty(total as nat, packages as nat),
{
    if packages == 0 {
        return 0;
    }
    let x = f64_value_of(total);
    let gib = saturate_i32((2 * x + 3 * 0x2000_0000) / (3 * 0x4000_0000));
    let n = f64_value_of(packages as u64);
    let inventory = saturate_i32((2 * n + 150) / 300);
    let sum = gib + inventory;
    if sum < 25 {
        sum
    } else {
        25
    }
}

fn cache_penalty_of(cache_size_bytes: Option<u64>) -> (p: i32)
    ensures
        p == cache_penalty(cache_size_bytes),
{
    match cache_size_bytes {
        Some(b) => {
            if b >= 20 * 0x4000_0000 {
                8
            } else if b >= 10 * 0x4000_0000 {
                5
            } else if b >= 5 * 0x4000_0000 {
                3
            } else {
                0
            }
        },
        None => 0,
    }
}

/// The bloat score, the penalties that make it up, and how sure the unused
/// dependency findings are.
pub fn compute_bloat_score(
    stats: &PackageStats,
    cleanup: &CleanupAssessment,
    dependencies: &DependencyInspection,
    cache_size_bytes: Option<u64>,
) -> (r: (u8, Vec<String>, String))
    requires
        bloat_inputs_fit(
            cleanup.orphans.len(),
            cleanup.unnecessary_dependencies.len(),
            dependencies.redundant_packages.len(),
            stats.total_size_bytes as nat,
            stats.total_packages as nat,
        ),
    ensures
        r.0 as int == bloat_of(
            cleanup.orphans.len(),
            cleanup.unnecessary_dependencies.len(),
            stats.heavy_packages.len(),
            dependencies.redundant_packages.len(),
            stats.total_size_bytes as nat,
            stats.total_packages as nat,
            cache_size_bytes,
        ),
        r.1.deep_view() == penalties_of(
            cleanup.orphans.len(),
            cleanup.unnecessary_dependencies.len(),
            stats.heavy_packages.len(),
            dependencies.redundant_packages.len(),
            stats.total_size_bytes as nat,
            stats.total_packages as nat,
            cache_size_bytes,
        ),
        r.2@ == confidence_of(cleanup.unnecessary_dependencies.len() as nat),
{
    let orphan = orphan_penalty_of(cleanup.orphans.len());
    let unused = unused_penalty_of(cleanup.unnecessary_dependencies.len());
    let heavy = heavy_penalty_of(stats.heavy_packages.len());
    let redundant = redundant_penalty_of(dependencies.redundant_packages.len());
    let size = size_penalty_of(stats.total_size_bytes, stats.total_packages);
    let cache = cache_penalty_of(cache_size_bytes);
    assert(orphan <= 20 && unused <= 10 && heavy <= 12 && redundant <= 8 && size <= 25 && cache
        <= 8);

    let mut score: i32 = 0;
    if orphan > 0 {
        score += orphan;
    }
    if unused > 0 {
        score += unused;
    }
    if heavy > 0 {
        score += heavy;
    }
    if redundant > 0 {
        score += redundant;
    }
    if size > 0 {
        score += size;
    }
    if cache > 0 {
        score += cache;
    }
    if stats.total_packages == 0 {
        score = 0;
    }

    let mut penalties: Vec<String> = Vec::new();
    push_penalty(&mut penalties, "orphans", orphan);
    push_penalty(&mut penalties, "unused dependencies", unused);
    push_penalty(&mut penalties, "heavy packages", heavy);
    push_penalty(&mut penalties, "redundant families", redundant);
    push_penalty(&mut penalties, "installed size pressure", size);
    push_penalty(&mut penalties, "pacman cache pressure", cache);
    assert(penalties.deep_view() =~= penalties_of(
        cleanup.orphans.len(),
        cleanup.unnecessary_dependencies.len(),
        stats.heavy_packages.len(),
        dependencies.redundant_packages.len(),
        stats.total_size_bytes as nat,
        stats.total_packages as nat,
        cache_size_bytes,
    ));

    let confidence = if cleanup.unnecessary_dependencies.len() == 0 {
        String::from_str("low")
    } else if cleanup.unnecessary_dependencies.len() < 5 {
        String::from_str("medium")
    } else {
        String::from_str("high")
    };
    (score as u8, penalties, confidence)
}


// ---------------------------------------------------------------------------
// Advice
// ---------------------------------------------------------------------------

/// The warning about a package cache of 5 GiB or more.
pub open spec fn cache_warning_of(cache: Option<u64>) -> Option<Seq<char>> {
    match cache {
        Some(b) => if b >= 20 * 0x4000_0000 {
            Some(
                "Pacman cache is very large at "@ + format_bytes_spec(b as nat)
                    + "; consider `paccache -ruk0` after review."@,
            )
        } else if b >= 10 * 0x4000_0000 {
            Some(
                "Pacman cache is large at "@ + format_bytes_spec(b as nat)
                    + "; consider pruning old package archives."@,
            )
        } else if b >= 5 * 0x4000_0000 {
            Some(
                "Pacman cache is growing at "@ + format_bytes_spec(b as nat)
                    + "; it may be worth trimming stale packages."@,
            )
        } else {
            None
        },
        None => None,
    }
}

fn sentence(head: &str, middle: &String, tail: &str) -> (s: String)
    ensures
        s@ == head@ + middle@ + tail@,
{
    let mut s = String::new();
    push_str(&mut s, head);
    push_str(&mut s, middle.as_str());
    push_str(&mut s, tail);
    s
}

fn count_sentence(head: &str, n: usize, tail: &str) -> (s: String)
    ensures
        s@ == head@ + dec(n as nat) + tail@,
{
    let mut s = String::new();
    push_str(&mut s, head);
    push_dec(&mut s, n as u128);
    push_str(&mut s, tail);
    s
}

/// A warning when the package cache has grown to 5 GiB or more.
pub fn build_cache_warning(cache_size_bytes: Option<u64>) -> (r: Option<String>)
    ensures
        r.deep_view() == cache_warning_of(cache_size_bytes),
{
    let bytes = match cache_size_bytes {
        Some(b) => b,
        None => {
            return None;
        },
    };
    if bytes >= 20 * 0x4000_0000 {
        Some(
            sentence(
                "Pacman cache is very large at ",
                &format_bytes(bytes),
                "; consider `paccache -ruk0` after review.",
            ),
        )
    } else if bytes >= 10 * 0x4000_0000 {
        Some(
            sentence(
                "Pacman cache is large at ",
                &format_bytes(bytes),
                "; consider pruning old package archives.",
            ),
        )
    } else if bytes >= 5 * 0x4000_0000 {
        Some(
            sentence(
                "Pacman cache is growing at ",
                &format_bytes(bytes),
                "; it may be worth trimming stale packages.",
            ),
        )
    } else {
        None
    }
}

pub open spec fn health_advice(health: u8) -> Seq<char> {
    if health >= 90 {
        "System package state looks healthy overall."@
    } else if health >= 70 {
        "System is generally healthy, but a targeted cleanup would help."@
    } else {
        "Health score is low enough to justify a careful cleanup and dependency review."@
    }
}

/// The advice of an analysis, in a fixed order.
pub open spec fn advice_of(
    orphans: nat,
    unused: nat,
    largest: Option<(Seq<char>, u64)>,
    warnings: nat,
    cache_warning: Option<Seq<char>>,
    confidence: Seq<char>,
    health: u8,
    bloat: u8,
) -> Seq<Seq<char>> {
    line_if(
        orphans > 0,
        "Review and remove "@ + dec(orphans)
            + " orphaned package(s) after verifying they are not needed."@,
    ) + line_if(
        unused > 0,
        dec(unused) + " dependency package(s) appear unused and are strong cleanup candidates."@,
    ) + match largest {
        Some((name, size)) => seq![
            "Largest package detected: "@ + name + " using "@ + format_bytes_spec(size as nat)
                + "."@,
        ],
        None => seq![],
    } + line_if(
        warnings > 0,
        "Inspect "@ + dec(warnings)
            + " dependency warning(s) for broad or redundant package chains."@,
    ) + match cache_warning {
        Some(w) => seq![w],
        None => seq![],
    } + seq!["Unused dependency confidence is "@ + confidence + "."@] + seq![health_advice(health)]
        + line_if(
        bloat >= 70,
        "The package set looks bloated; review large packages and stale dependencies first."@,
    )
}

pub open spec fn first_heavy(stats: PackageStats) -> Option<(Seq<char>, u64)> {
    if stats.heavy_packages.len() > 0 {
        Some((stats.heavy_packages@[0].name@, stats.heavy_packages@[0].size_bytes))
    } else {
        None
    }
}

/// The advice of an analysis.
pub fn build_recommendations(
    stats: &PackageStats,
    cleanup: &CleanupAssessment,
    dependencies: &DependencyInspection,
    health_score: u8,
    bloat_score: u8,
    cache_warning: Option<&str>,
    unused_dependency_confidence: &str,
) -> (r: Vec<String>)
    ensures
        r.deep_view() == advice_of(
            cleanup.orphans.len() as nat,
            cleanup.unnecessary_dependencies.len() as nat,
            first_heavy(*stats),
            dependencies.suspicious_chains.len() as nat,
            match cache_warning {
                Some(w) => Some(w@),
                None => None,
            },
            unused_dependency_confidence@,
            health_score,
            bloat_score,
        ),
{
    let mut r: Vec<String> = Vec::new();
    let ghost s0 = r.deep_view();
    if cleanup.orphans.len() > 0 {
        r.push(
            count_sentence(
                "Review and remove ",
                cleanup.orphans.len(),
                " orphaned package(s) after verifying they are not needed.",
            ),
        );
    }
    let ghost s1 = r.deep_view();
    if cleanup.unnecessary_dependencies.len() > 0 {
        r.push(
            count_sentence(
                "",
                cleanup.unnecessary_dependencies.len(),
                " dependency package(s) appear unused and are strong cleanup candidates.",
            ),
        );
        proof {
            reveal_strlit("");
        }
    }
    let ghost s2 = r.deep_view();
    if stats.heavy_packages.len() > 0 {
        let heavy = &stats.heavy_packages[0];
        let mut line = String::new();
        push_str(&mut line, "Largest package detected: ");
        push_str(&mut line, heavy.name.as_str());
        push_str(&mut line, " using ");
        let size = format_bytes(heavy.size_bytes);
        push_str(&mut line, size.as_str());
        push_str(&mut line, ".");
        r.push(line);
    }
    let ghost s3 = r.deep_view();
    if dependencies.suspicious_chains.len() > 0 {
        r.push(
            count_sentence(
                "Inspect ",
                dependencies.suspicious_chains.len(),
                " dependency warning(s) for broad or redundant package chains.",
            ),
        );
    }
    let ghost s4 = r.deep_view();
    match cache_warning {
        Some(w) => r.push(String::from_str(w)),
        None => {},
    }
    let ghost s5 = r.deep_view();
    let mut confidence = String::new();
    push_str(&mut confidence, "Unused dependency confidence is ");
    push_str(&mut confidence, unused_dependency_confidence);
    push_str(&mut confidence, ".");
    r.push(confidence);
    let ghost s6 = r.deep_view();
    if health_score >= 90 {
        r.push(String::from_str("System package state looks healthy overall."));
    } else if health_score >= 70 {
        r.push(String::from_str("System is generally healthy, but a targeted cleanup would help."));
    } else {
        r.push(
            String::from_str(
                "Health score is low enough to justify a careful cleanup and dependency review.",
            ),
        );
    }
    let ghost s7 = r.deep_view();
    if bloat_score >= 70 {
        r.push(
            String::from_str(
                "The package set looks bloated; review large packages and stale dependencies first.",
            ),
        );
    }
    assert(r.deep_view() =~= advice_of(
        cleanup.orphans.len() as nat,
        cleanup.unnecessary_dependencies.len() as nat,
        first_heavy(*stats),
        dependencies.suspicious_chains.len() as nat,
        match cache_warning {
            Some(w) => Some(w@),
            None => None,
        },
        unused_dependency_confidence@,
        health_score,
        bloat_score,
    ));
    r
}

/// `packages | orphans | heavy packages | score` in one line.
pub fn package_overview_line(analysis: &SystemAnalysis) -> (r: String)
    ensures
        r@ == dec(analysis.stats.total_packages as nat) + " packages | "@ + dec(
            analysis.cleanup.orphans.len() as nat,
        ) + " orphans | "@ + dec(analysis.stats.heavy_packages.len() as nat)
            + " heavy packages | "@ + dec(analysis.health_score as nat) + " score"@,
{
    let mut s = String::new();
    push_dec(&mut s, analysis.stats.total_packages as u128);
    push_str(&mut s, " packages | ");
    push_dec(&mut s, analysis.cleanup.orphans.len() as u128);
    push_str(&mut s, " orphans | ");
    push_dec(&mut s, analysis.stats.heavy_packages.len() as u128);
    push_str(&mut s, " heavy packages | ");
    push_dec(&mut s, analysis.health_score as u128);
    push_str(&mut s, " score");
    s
}


// ---------------------------------------------------------------------------
// The whole analysis
// ---------------------------------------------------------------------------

pub open spec fn dependency_nodes(pkgs: Seq<PackageView>) -> Seq<crate::deps::NodeView> {
    pkgs.map_values(|p: PackageView| node_of(p))
}

/// The snapshots on which the analysis stays within the integer types it computes in.
pub open spec fn analysis_fits(pkgs: Seq<PackageView>, orphans: Seq<Seq<char>>) -> bool {
    &&& total_size(pkgs) <= u64::MAX
    &&& bloat_inputs_fit(
        orphan_items(pkgs, orphans).len() as usize,
        unneeded_items(pkgs, orphans).len() as usize,
        node_names(dependency_nodes(pkgs), redundant_pred()).len() as usize,
        total_size(pkgs),
        pkgs.len(),
    )
}

pub open spec fn health_of(packages: nat, bloat: int) -> int {
    if packages == 0 {
        0
    } else if bloat >= 100 {
        0
    } else {
        100 - bloat
    }
}

/// Statistics, cleanup assessment and dependency inspection of a snapshot, the
/// bloat and health scores, a warning about the given package cache size, and advice.
pub fn analyze(snapshot: &SystemSnapshot, cache_size_bytes: Option<u64>) -> (a: SystemAnalysis)
    requires
        analysis_fits(package_views(snapshot.packages@), snapshot.orphan_names.deep_view()),
    ensures
        a.snapshot.generated_at@ == snapshot.generated_at@,
        package_views(a.snapshot.packages@) == package_views(snapshot.packages@),
        a.snapshot.orphan_names.deep_view() == snapshot.orphan_names.deep_view(),
        action_views(a.snapshot.recent_actions@) == action_views(snapshot.recent_actions@),
        stats_of(
            a.stats,
            package_views(snapshot.packages@),
            action_views(snapshot.recent_actions@),
            snapshot.orphan_names.len() as nat,
        ),
        assessment_of(
            a.cleanup,
            package_views(snapshot.packages@),
            snapshot.orphan_names.deep_view(),
            a.stats.heavy_packages.len() as nat,
            cache_size_bytes,
        ),
        inspection_of(a.dependencies, package_views(snapshot.packages@)),
        a.bloat_score as int == bloat_of(
            a.cleanup.orphans.len(),
            a.cleanup.unnecessary_dependencies.len(),
            a.stats.heavy_packages.len(),
            a.dependencies.redundant_packages.len(),
            total_size(package_views(snapshot.packages@)),
            snapshot.packages.len() as nat,
            cache_size_bytes,
        ),
        a.penalty_breakdown.deep_view() == penalties_of(
            a.cleanup.orphans.len(),
            a.cleanup.unnecessary_dependencies.len(),
            a.stats.heavy_packages.len(),
            a.dependencies.redundant_packages.len(),
            total_size(package_views(snapshot.packages@)),
            snapshot.packages.len() as nat,
            cache_size_bytes,
        ),
        a.unused_dependency_confidence@ == confidence_of(
            a.cleanup.unnecessary_dependencies.len() as nat,
        ),
        a.health_score as int == health_of(snapshot.packages.len() as nat, a.bloat_score as int),
        a.cache_warning.deep_view() == cache_warning_of(cache_size_bytes),
        a.recommendations.deep_view() == advice_of(
            a.cleanup.orphans.len() as nat,
            a.cleanup.unnecessary_dependencies.len() as nat,
            first_heavy(a.stats),
            a.dependencies.suspicious_chains.len() as nat,
            cache_warning_of(cache_size_bytes),
            a.unused_dependency_confidence@,
            a.health_score,
            a.bloat_score,
        ),
{
    let ghost pv = package_views(snapshot.packages@);
    let stats = compute_package_stats(snapshot);
    let cleanup = build_cleanup_assessment(snapshot, &stats, cache_size_bytes);
    let dependencies = inspect_dependencies(snapshot);
    let cache_warning = build_cache_warning(cache_size_bytes);
    proof {
        let names = snapshot.orphan_names.deep_view();
        assert(crate::cleanup::item_views(cleanup.orphans@).len() == cleanup.orphans.len());
        assert(crate::cleanup::item_views(cleanup.unnecessary_dependencies@).len()
            == cleanup.unnecessary_dependencies.len());
        assert(dependencies.redundant_packages.deep_view().len()
            == dependencies.redundant_packages.len());
        assert(node_names(dependency_nodes(pv), redundant_pred()).len()
            == dependencies.redundant_packages.len());
    }
    let (bloat_score, penalty_breakdown, unused_dependency_confidence) = compute_bloat_score(
        &stats,
        &cleanup,
        &dependencies,
        cache_size_bytes,
    );
    let health_score: u8 = if stats.total_packages == 0 {
        0
    } else if bloat_score >= 100 {
        0
    } else {
        100 - bloat_score
    };
    let warning_ref: Option<&str> = match &cache_warning {
        Some(w) => Some(w.as_str()),
        None => None,
    };
    let recommendations = build_recommendations(
        &stats,
        &cleanup,
        &dependencies,
        health_score,
        bloat_score,
        warning_ref,
        unused_dependency_confidence.as_str(),
    );
    SystemAnalysis {
        snapshot: snapshot.clone(),
        stats,
        cleanup,
        dependencies,
        health_score,
        bloat_score,
        cache_warning,
        unused_dependency_confidence,
        recommendations,
        penalty_breakdown,
    }
}

// ---------------------------------------------------------------------------
// Whether a snapshot can be analysed
// ---------------------------------------------------------------------------

/// The sum of the installed sizes, computed wide enough never to overflow.
fn total_size_wide(packages: &Vec<PackageRecord>) -> (t: u128)
    ensures
        t == total_size(package_views(packages@)),
{
    let ghost pv = package_views(packages@);
    let mut t: u128 = 0;
    let mut i: usize = 0;
    while i < packages.len()
        invariant
            i <= packages.len(),
            pv == package_views(packages@),
            t == total_size(pv.take(i as int)),
            t <= i * 0xffff_ffff_ffff_ffffu128,
        decreases packages.len() - i,
    {
        proof {
            assert(pv.take(i + 1).drop_last() == pv.take(i as int));
            assert(pv.take(i + 1).last() == pv[i as int]);
        }
        let x = packages[i].installed_size_bytes;
        assert(t + x <= (i + 1) * 0xffff_ffff_ffff_ffffu128) by (nonlinear_arith)
            requires
                t <= i * 0xffff_ffff_ffff_ffffu128,
                x <= 0xffff_ffff_ffff_ffffu64,
        ;
        assert((i + 1) * 0xffff_ffff_ffff_ffffu128 <= 0x1_0000_0000_0000_0000 * 0xffff_ffff_ffff_ffffu128)
            by (nonlinear_arith)
            requires
                i < 0xffff_ffff_ffff_ffffu64,
        ;
        t = t + x as u128;
        i += 1;
    }
    assert(pv.take(packages.len() as int) == pv);
    t
}

/// Whether `n as i32` times `k` stays within `i32`.
fn scaled_fits(n: usize, k: i32) -> (b: bool)
    requires
        0 < k <= 4,
    ensures
        b == (i32::MIN <= (n as i32) * k <= i32::MAX),
{
    let m = n as i32;
    assert(-0x8000_0000_0000_0000i64 <= (m as i64) * (k as i64) <= 0x7fff_ffff_ffff_ffffi64)
        by (nonlinear_arith)
        requires
            -0x8000_0000 <= m <= 0x7fff_ffff,
            0 < k <= 4,
    ;
    let p: i64 = (m as i64) * (k as i64);
    -0x8000_0000i64 <= p && p <= 0x7fff_ffffi64
}

/// Whether the two size pressures add up within `i32`.
fn pressures_fit(total: u64, packages: usize) -> (b: bool)
    ensures
        b == (packages > 0 ==> size_gib_pressure(total as nat) + inventory_pressure(packages as nat)
            <= i32::MAX),
{
    if packages == 0 {
        return true;
    }
    let x = f64_value_of(total);
    let gib = saturate_i32((2 * x + 3 * 0x2000_0000) / (3 * 0x4000_0000));
    let n = f64_value_of(packages as u64);
    let inventory = saturate_i32((2 * n + 150) / 300);
    (gib as i64) + (inventory as i64) <= 0x7fff_ffffi64
}

/// Whether `analyze` can run on a snapshot: the installed sizes add up within
/// `u64` and the penalties of the bloat score stay within `i32`.
pub fn can_analyze(snapshot: &SystemSnapshot) -> (b: bool)
    ensures
        b == analysis_fits(package_views(snapshot.packages@), snapshot.orphan_names.deep_view()),
{
    let ghost pv = package_views(snapshot.packages@);
    let ghost names = snapshot.orphan_names.deep_view();
    let total = total_size_wide(&snapshot.packages);
    if total > 0xffff_ffff_ffff_ffffu128 {
        return false;
    }
    let orphans = select_items(&snapshot.packages, &snapshot.orphan_names, true);
    let unneeded = select_items(&snapshot.packages, &snapshot.orphan_names, false);
    let dependencies = inspect_dependencies(snapshot);
    proof {
        assert(crate::cleanup::item_views(orphans@).len() == orphans.len());
        assert(crate::cleanup::item_views(unneeded@).len() == unneeded.len());
        assert(dependencies.redundant_packages.deep_view().len()
            == dependencies.redundant_packages.len());
        assert(node_names(dependency_nodes(pv), redundant_pred()).len()
            == dependencies.redundant_packages.len());
    }
    scaled_fits(orphans.len(), 2) && scaled_fits(unneeded.len(), 4) && scaled_fits(
        dependencies.redundant_packages.len(),
        2,
    ) && pressures_fit(total as u64, snapshot.packages.len())
}

} // verus!
