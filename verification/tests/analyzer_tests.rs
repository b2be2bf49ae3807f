use amph::analyzer::{
    analyze, build_cache_warning, build_recommendations, can_analyze, compute_bloat_score,
    package_overview_line,
};
use amph::cleanup::{CleanupAssessment, CleanupItem};
use amph::deps::DependencyInspection;
use amph::pacman::{InstallReason, PackageRecord, SystemSnapshot};
use amph::stats::{PackageSizeEntry, PackageStats};

const GIB: u64 = 1024 * 1024 * 1024;

fn entry(name: &str, size: u64) -> PackageSizeEntry {
    PackageSizeEntry {
        name: name.to_string(),
        version: "1".to_string(),
        size_bytes: size,
        description: None,
    }
}

fn stats(total_packages: usize, total_size: u64, heavy: usize) -> PackageStats {
    PackageStats {
        total_packages,
        total_size_bytes: total_size,
        average_size_bytes: 0,
        median_size_bytes: 0,
        largest_packages: Vec::new(),
        heavy_packages: (0..heavy).map(|i| entry(&format!("h{}", i), 1000 - i as u64)).collect(),
        size_buckets: Vec::new(),
        recent_packages: Vec::new(),
        orphan_count: 0,
        explicit_packages: 0,
        dependency_packages: 0,
    }
}

fn item(name: &str) -> CleanupItem {
    CleanupItem {
        name: name.to_string(),
        version: "1".to_string(),
        reason: "unknown".to_string(),
        size_bytes: 1,
    }
}

fn cleanup(orphans: usize, unused: usize) -> CleanupAssessment {
    CleanupAssessment {
        orphans: (0..orphans).map(|i| item(&format!("o{}", i))).collect(),
        unnecessary_dependencies: (0..unused).map(|i| item(&format!("u{}", i))).collect(),
        safe_remove_candidates: Vec::new(),
        dry_run_command: String::new(),
        recommendations: Vec::new(),
        cache_size_bytes: None,
    }
}

fn deps(redundant: usize, warnings: usize) -> DependencyInspection {
    DependencyInspection {
        nodes: Vec::new(),
        leaf_packages: Vec::new(),
        root_packages: Vec::new(),
        redundant_packages: (0..redundant).map(|i| format!("r{}", i)).collect(),
        suspicious_chains: (0..warnings).map(|i| format!("w{}", i)).collect(),
    }
}

/// The size pressure as the floating-point formula computes it.
fn float_size_pressure(total: u64, packages: usize) -> i32 {
    if packages == 0 {
        return 0;
    }
    let size_gib = total as f64 / (1024.0 * 1024.0 * 1024.0);
    let package_pressure = (size_gib / 1.5).round() as i32;
    let inventory_pressure = (packages as f64 / 150.0).round() as i32;
    (package_pressure + inventory_pressure).min(25)
}

fn pkg(name: &str, size: u64, reason: InstallReason, depends_on: &[&str], required_by: &[&str]) -> PackageRecord {
    PackageRecord {
        name: name.to_string(),
        version: "1".to_string(),
        description: None,
        installed_size_bytes: size,
        install_date: None,
        install_reason: reason,
        packager: None,
        groups: Vec::new(),
        depends_on: depends_on.iter().map(|s| s.to_string()).collect(),
        required_by: required_by.iter().map(|s| s.to_string()).collect(),
        optional_for: Vec::new(),
    }
}

#[test]
fn bloat_score_of_a_clean_system() {
    let (score, penalties, confidence) =
        compute_bloat_score(&stats(10, 1024, 0), &cleanup(0, 0), &deps(0, 0), None);
    assert_eq!(score, 0);
    assert!(penalties.is_empty());
    assert_eq!(confidence, "low");
}

#[test]
fn bloat_score_adds_capped_penalties() {
    let (score, penalties, confidence) = compute_bloat_score(
        &stats(300, 3 * GIB, 30),
        &cleanup(3, 2),
        &deps(1, 0),
        Some(12 * GIB),
    );
    // orphans 6, unused 8, heavy 12, redundant 2, size 2 + 2, cache 5
    assert_eq!(score, 37);
    assert_eq!(
        penalties,
        vec![
            "orphans: +6".to_string(),
            "unused dependencies: +8".to_string(),
            "heavy packages: +12".to_string(),
            "redundant families: +2".to_string(),
            "installed size pressure: +4".to_string(),
            "pacman cache pressure: +5".to_string(),
        ]
    );
    assert_eq!(confidence, "medium");
}

#[test]
fn bloat_score_caps() {
    let (score, penalties, confidence) = compute_bloat_score(
        &stats(100_000, 100 * GIB, 100),
        &cleanup(50, 50),
        &deps(50, 0),
        Some(30 * GIB),
    );
    assert_eq!(score, 20 + 10 + 12 + 8 + 25 + 8);
    assert_eq!(penalties[4], "installed size pressure: +25");
    assert_eq!(confidence, "high");
}

#[test]
fn bloat_score_is_zero_without_packages_but_lists_penalties() {
    let (score, penalties, _) =
        compute_bloat_score(&stats(0, 0, 0), &cleanup(2, 0), &deps(0, 0), Some(6 * GIB));
    assert_eq!(score, 0);
    assert_eq!(
        penalties,
        vec!["orphans: +4".to_string(), "pacman cache pressure: +3".to_string()]
    );
}

#[test]
fn size_pressure_matches_float_formula() {
    let mut cases: Vec<(u64, usize)> = Vec::new();
    for k in 0..64u32 {
        for d in [0u64, 1, 12345] {
            cases.push(((1u64 << k).wrapping_add(d), 1));
        }
    }
    for n in [1usize, 74, 75, 76, 224, 225, 226, 374, 375, 1000, 3749, 3750] {
        cases.push((0, n));
    }
    let half_step = 3 * (GIB / 4);
    for m in 0..40u64 {
        cases.push((m * half_step, 1));
        cases.push((m * half_step + 1, 1));
        cases.push((m * half_step - (if m > 0 { 1 } else { 0 }), 1));
    }
    for (total, packages) in cases {
        let (_, penalties, _) =
            compute_bloat_score(&stats(packages, total, 0), &cleanup(0, 0), &deps(0, 0), None);
        let expected = float_size_pressure(total, packages);
        let line = penalties
            .iter()
            .find(|l| l.starts_with("installed size pressure"))
            .cloned();
        if expected > 0 {
            assert_eq!(line, Some(format!("installed size pressure: +{}", expected)), "total {} packages {}", total, packages);
        } else {
            assert_eq!(line, None, "total {} packages {}", total, packages);
        }
    }
}

#[test]
fn heavy_penalty_halves() {
    let (score, penalties, _) =
        compute_bloat_score(&stats(1, 0, 7), &cleanup(0, 0), &deps(0, 0), None);
    assert_eq!(score, 3);
    assert_eq!(penalties, vec!["heavy packages: +3".to_string()]);
}

#[test]
fn cache_warnings() {
    assert_eq!(build_cache_warning(None), None);
    assert_eq!(build_cache_warning(Some(5 * GIB - 1)), None);
    assert_eq!(
        build_cache_warning(Some(5 * GIB)),
        Some("Pacman cache is growing at 5.0 GiB; it may be worth trimming stale packages.".to_string())
    );
    assert_eq!(
        build_cache_warning(Some(10 * GIB)),
        Some("Pacman cache is large at 10.0 GiB; consider pruning old package archives.".to_string())
    );
    assert_eq!(
        build_cache_warning(Some(20 * GIB)),
        Some("Pacman cache is very large at 20.0 GiB; consider `paccache -ruk0` after review.".to_string())
    );
}

#[test]
fn recommendations_in_order() {
    let mut s = stats(10, 0, 1);
    s.heavy_packages[0] = entry("chromium", 300 * 1024 * 1024);
    let r = build_recommendations(
        &s,
        &cleanup(2, 1),
        &deps(0, 3),
        60,
        75,
        Some("cache warning"),
        "medium",
    );
    assert_eq!(
        r,
        vec![
            "Review and remove 2 orphaned package(s) after verifying they are not needed.".to_string(),
            "1 dependency package(s) appear unused and are strong cleanup candidates.".to_string(),
            "Largest package detected: chromium using 300.0 MiB.".to_string(),
            "Inspect 3 dependency warning(s) for broad or redundant package chains.".to_string(),
            "cache warning".to_string(),
            "Unused dependency confidence is medium.".to_string(),
            "Health score is low enough to justify a careful cleanup and dependency review.".to_string(),
            "The package set looks bloated; review large packages and stale dependencies first.".to_string(),
        ]
    );
}

#[test]
fn recommendations_of_a_healthy_system() {
    let r = build_recommendations(&stats(10, 0, 0), &cleanup(0, 0), &deps(0, 0), 95, 5, None, "low");
    assert_eq!(
        r,
        vec![
            "Unused dependency confidence is low.".to_string(),
            "System package state looks healthy overall.".to_string(),
        ]
    );
    let r = build_recommendations(&stats(10, 0, 0), &cleanup(0, 0), &deps(0, 0), 70, 30, None, "low");
    assert_eq!(r[1], "System is generally healthy, but a targeted cleanup would help.");
}

fn sample_snapshot() -> SystemSnapshot {
    SystemSnapshot {
        generated_at: "1700000000".to_string(),
        packages: vec![
            pkg("app", 2 * GIB, InstallReason::Explicit, &["lib"], &[]),
            pkg("lib", 10 * 1024 * 1024, InstallReason::Dependency, &[], &["app"]),
            pkg("stale", 5 * 1024 * 1024, InstallReason::Dependency, &[], &[]),
            pkg("gone", 1024, InstallReason::Dependency, &[], &[]),
        ],
        orphan_names: vec!["gone".to_string()],
        recent_actions: Vec::new(),
    }
}

#[test]
fn analysis_of_a_snapshot() {
    let snap = sample_snapshot();
    assert!(can_analyze(&snap));
    let a = analyze(&snap, Some(6 * GIB));
    assert_eq!(a.snapshot.generated_at, "1700000000");
    assert_eq!(a.snapshot.packages.len(), 4);
    assert_eq!(a.stats.total_packages, 4);
    assert_eq!(a.cleanup.orphans.len(), 1);
    assert_eq!(a.cleanup.unnecessary_dependencies.len(), 1);
    assert_eq!(a.dependencies.redundant_packages, vec!["stale".to_string(), "gone".to_string()]);
    // orphans 2, unused 4, heavy (one package of 200 MiB or more) 0, redundant 4,
    // size 1 + 0, cache 3
    assert_eq!(a.stats.heavy_packages.len(), 1);
    assert_eq!(a.bloat_score, 14);
    assert_eq!(a.health_score, 86);
    assert_eq!(a.health_score as u16 + a.bloat_score as u16, 100);
    assert_eq!(a.unused_dependency_confidence, "medium");
    assert_eq!(
        a.cache_warning,
        Some("Pacman cache is growing at 6.0 GiB; it may be worth trimming stale packages.".to_string())
    );
    assert_eq!(a.recommendations[0], "Review and remove 1 orphaned package(s) after verifying they are not needed.");
    assert_eq!(a.recommendations.last().unwrap(), "System is generally healthy, but a targeted cleanup would help.");
    assert_eq!(a.cleanup.cache_size_bytes, Some(6 * GIB));
    assert_eq!(package_overview_line(&a), "4 packages | 1 orphans | 1 heavy packages | 86 score");
}

#[test]
fn analysis_of_an_empty_snapshot() {
    let snap = SystemSnapshot {
        generated_at: "0".to_string(),
        packages: Vec::new(),
        orphan_names: Vec::new(),
        recent_actions: Vec::new(),
    };
    assert!(can_analyze(&snap));
    let a = analyze(&snap, None);
    assert_eq!(a.health_score, 0);
    assert_eq!(a.bloat_score, 0);
    assert_eq!(a.unused_dependency_confidence, "low");
    assert_eq!(a.cache_warning, None);
}

#[test]
fn sizes_beyond_u64_cannot_be_analysed() {
    let snap = SystemSnapshot {
        generated_at: "0".to_string(),
        packages: vec![
            pkg("a", u64::MAX, InstallReason::Explicit, &[], &[]),
            pkg("b", 1, InstallReason::Explicit, &[], &[]),
        ],
        orphan_names: Vec::new(),
        recent_actions: Vec::new(),
    };
    assert!(!can_analyze(&snap));
}
