use amph::cleanup::{
    build_cleanup_assessment, flatten_candidates, format_cleanup_line, to_item, CleanupAssessment,
    CleanupItem,
};
use amph::pacman::{InstallReason, PackageRecord, SystemSnapshot};
use amph::stats::compute_package_stats;

fn pkg(name: &str, size: u64, reason: InstallReason, required_by: &[&str]) -> PackageRecord {
    PackageRecord {
        name: name.to_string(),
        version: format!("{}-1", size),
        description: None,
        installed_size_bytes: size,
        install_date: None,
        install_reason: reason,
        packager: None,
        groups: Vec::new(),
        depends_on: Vec::new(),
        required_by: required_by.iter().map(|s| s.to_string()).collect(),
        optional_for: Vec::new(),
    }
}

fn snapshot(packages: Vec<PackageRecord>, orphans: &[&str]) -> SystemSnapshot {
    SystemSnapshot {
        generated_at: "0".to_string(),
        packages,
        orphan_names: orphans.iter().map(|s| s.to_string()).collect(),
        recent_actions: Vec::new(),
    }
}

fn item(name: &str, size: u64) -> CleanupItem {
    CleanupItem {
        name: name.to_string(),
        version: "1".to_string(),
        reason: "unknown".to_string(),
        size_bytes: size,
    }
}

fn assessment(orphans: Vec<CleanupItem>, unused: Vec<CleanupItem>) -> CleanupAssessment {
    CleanupAssessment {
        orphans,
        unnecessary_dependencies: unused,
        safe_remove_candidates: Vec::new(),
        dry_run_command: String::new(),
        recommendations: Vec::new(),
        cache_size_bytes: None,
    }
}

fn sample() -> SystemSnapshot {
    snapshot(
        vec![
            pkg("zeta", 500, InstallReason::Dependency, &[]),
            pkg("alpha", 100, InstallReason::Dependency, &[]),
            pkg("used", 50, InstallReason::Dependency, &["app"]),
            pkg("app", 900, InstallReason::Explicit, &[]),
            pkg("orphan", 300, InstallReason::Dependency, &[]),
        ],
        &["orphan"],
    )
}

#[test]
fn to_item_reasons() {
    assert_eq!(to_item(&pkg("a", 1, InstallReason::Explicit, &[])).reason, "explicitly installed");
    assert_eq!(
        to_item(&pkg("a", 1, InstallReason::Dependency, &[])).reason,
        "installed as dependency"
    );
    let unknown = to_item(&pkg("a", 7, InstallReason::Unknown, &[]));
    assert_eq!(unknown.reason, "unknown");
    assert_eq!(unknown.name, "a");
    assert_eq!(unknown.version, "7-1");
    assert_eq!(unknown.size_bytes, 7);
}

#[test]
fn assessment_splits_orphans_and_unused() {
    let snap = sample();
    let stats = compute_package_stats(&snap);
    let a = build_cleanup_assessment(&snap, &stats, Some(42));
    let orphans: Vec<&str> = a.orphans.iter().map(|i| i.name.as_str()).collect();
    let unused: Vec<&str> = a.unnecessary_dependencies.iter().map(|i| i.name.as_str()).collect();
    assert_eq!(orphans, vec!["orphan"]);
    assert_eq!(unused, vec!["zeta", "alpha"]);
    assert_eq!(a.safe_remove_candidates, vec!["alpha", "orphan", "zeta"]);
    assert_eq!(a.dry_run_command, "sudo pacman -Rns --print alpha orphan zeta");
    assert_eq!(a.cache_size_bytes, Some(42));
    assert_eq!(
        a.recommendations,
        vec![
            "Review 1 orphaned package(s) for removal.".to_string(),
            "2 dependency package(s) appear unused and are cleanup candidates.".to_string(),
            "Audit very large packages for optional features and old toolchains.".to_string(),
        ]
    );
}

#[test]
fn assessment_with_nothing_to_remove() {
    let snap = snapshot(vec![pkg("app", 10, InstallReason::Explicit, &[])], &[]);
    let stats = compute_package_stats(&snap);
    let a = build_cleanup_assessment(&snap, &stats, None);
    assert!(a.orphans.is_empty());
    assert!(a.unnecessary_dependencies.is_empty());
    assert!(a.safe_remove_candidates.is_empty());
    assert_eq!(a.dry_run_command, "sudo pacman -Rns --print <review-manually>");
    assert_eq!(
        a.recommendations,
        vec!["No safe cleanup candidates were detected from the current snapshot.".to_string()]
    );
    assert_eq!(a.cache_size_bytes, None);
}

#[test]
fn orphan_named_twice_is_a_candidate_once() {
    let snap = snapshot(
        vec![
            pkg("dup", 1, InstallReason::Explicit, &[]),
            pkg("dup", 2, InstallReason::Explicit, &[]),
        ],
        &["dup", "dup", "absent"],
    );
    let stats = compute_package_stats(&snap);
    let a = build_cleanup_assessment(&snap, &stats, None);
    assert_eq!(a.orphans.len(), 2);
    assert_eq!(a.safe_remove_candidates, vec!["dup"]);
}

#[test]
fn orphan_and_unused_are_disjoint() {
    let snap = sample();
    let stats = compute_package_stats(&snap);
    let a = build_cleanup_assessment(&snap, &stats, None);
    for o in &a.orphans {
        assert!(a.unnecessary_dependencies.iter().all(|u| u.name != o.name));
    }
}

#[test]
fn candidates_largest_first_and_stable() {
    let a = assessment(
        vec![item("o1", 10), item("o2", 30)],
        vec![item("u1", 30), item("u2", 20), item("u3", 10)],
    );
    let names: Vec<&str> = a.candidates().iter().map(|i| i.name.as_str()).collect();
    assert_eq!(names, vec!["o2", "u1", "u2", "o1", "u3"]);
}

#[test]
fn candidates_keep_the_total() {
    let a = assessment(vec![item("o1", 10), item("o2", 30)], vec![item("u1", 5)]);
    let sum: u64 = a.candidates().iter().map(|i| i.size_bytes).sum();
    assert_eq!(sum, a.reclaimable_bytes());
    assert_eq!(a.reclaimable_bytes(), 45);
}

#[test]
fn reclaimable_of_nothing() {
    assert_eq!(assessment(Vec::new(), Vec::new()).reclaimable_bytes(), 0);
    assert!(assessment(Vec::new(), Vec::new()).candidates().is_empty());
}

#[test]
fn flatten_keeps_order_and_reason() {
    let a = assessment(vec![item("o", 3)], vec![item("u", 4)]);
    let flat = flatten_candidates(&a);
    assert_eq!(flat.len(), 2);
    assert_eq!(flat[0].name, "o");
    assert_eq!(flat[0].size_bytes, 3);
    assert_eq!(flat[0].description, Some("unknown".to_string()));
    assert_eq!(flat[1].name, "u");
    assert_eq!(flat[1].version, "1");
}

#[test]
fn cleanup_line_format() {
    let mut i = item("firefox", 268_435_456);
    i.version = "121.0-1".to_string();
    assert_eq!(format_cleanup_line(&i), "firefox (121.0-1) - 256.0 MiB");
    assert_eq!(format_cleanup_line(&item("x", 12)), "x (1) - 12 B");
}
