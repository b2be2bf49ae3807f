use amph::analyzer::{analyze, SystemAnalysis};
use amph::pacman::{InstallReason, PackageRecord, SystemSnapshot};
use amph::scan::quick_scan;
use amph::storage::{compare_recent, HistoryFile};

fn pkg(name: &str, size: u64, reason: InstallReason, depends_on: &[&str]) -> PackageRecord {
    PackageRecord {
        name: name.to_string(),
        version: "1".to_string(),
        description: None,
        installed_size_bytes: size,
        install_date: None,
        install_reason: reason,
        packager: None,
        groups: Vec::new(),
        depends_on: depends_on.iter().map(|s| s.to_string()).collect(),
        required_by: Vec::new(),
        optional_for: Vec::new(),
    }
}

fn snapshot(at: &str, packages: Vec<PackageRecord>, orphans: &[&str]) -> SystemSnapshot {
    SystemSnapshot {
        generated_at: at.to_string(),
        packages,
        orphan_names: orphans.iter().map(|s| s.to_string()).collect(),
        recent_actions: Vec::new(),
    }
}

fn analysis(at: &str, names: &[(&str, u64)], orphans: &[&str]) -> SystemAnalysis {
    let packages = names
        .iter()
        .map(|(n, s)| pkg(n, *s, InstallReason::Explicit, &[]))
        .collect();
    analyze(&snapshot(at, packages, orphans), None)
}

#[test]
fn quick_scan_counts() {
    let snap = snapshot(
        "0",
        vec![
            pkg("a", 1, InstallReason::Explicit, &["b", "ghost"]),
            pkg("b", 1, InstallReason::Dependency, &[]),
            pkg("c", 1, InstallReason::Unknown, &["a", "phantom"]),
        ],
        &["c"],
    );
    let q = quick_scan(&snap, Some(77));
    assert_eq!(q.total_packages, 3);
    assert_eq!(q.explicit_packages, 1);
    assert_eq!(q.dependency_packages, 1);
    assert_eq!(q.orphan_count, 1);
    assert_eq!(q.cache_size_bytes, Some(77));
    let missing: Vec<(&str, &str)> = q
        .missing_dependencies
        .iter()
        .map(|m| (m.package.as_str(), m.missing.as_str()))
        .collect();
    assert_eq!(missing, vec![("a", "ghost"), ("c", "phantom")]);
    assert!(q.has_critical_issues());
}

#[test]
fn quick_scan_without_missing_dependencies() {
    let snap = snapshot(
        "0",
        vec![
            pkg("a", 1, InstallReason::Explicit, &["b"]),
            pkg("b", 1, InstallReason::Dependency, &[]),
        ],
        &[],
    );
    let q = quick_scan(&snap, None);
    assert!(q.missing_dependencies.is_empty());
    assert!(!q.has_critical_issues());
    assert_eq!(q.cache_size_bytes, None);
}

#[test]
fn quick_scan_matches_names_exactly() {
    let snap = snapshot("0", vec![pkg("a", 1, InstallReason::Explicit, &["a>=1"])], &[]);
    let q = quick_scan(&snap, None);
    assert_eq!(q.missing_dependencies.len(), 1);
    assert_eq!(q.missing_dependencies[0].missing, "a>=1");
}

#[test]
fn empty_history() {
    let history = HistoryFile::default();
    assert!(history.entries.is_empty());
    assert!(compare_recent(&history).is_none());
}

#[test]
fn one_entry_is_not_enough() {
    let mut history = HistoryFile::default();
    history.record(analysis("1", &[("a", 1)], &[]));
    assert_eq!(history.entries.len(), 1);
    assert_eq!(history.entries[0].collected_at, "1");
    assert!(compare_recent(&history).is_none());
}

#[test]
fn compare_last_two_entries() {
    let mut history = HistoryFile::default();
    history.record(analysis("0", &[("zz", 5)], &[]));
    history.record(analysis("1", &[("a", 100), ("b", 200), ("c", 300)], &["a", "b"]));
    history.record(analysis("2", &[("d", 1000), ("b", 200), ("c", 50)], &[]));
    assert_eq!(history.entries[2].collected_at, "2");
    let delta = compare_recent(&history).unwrap();
    assert_eq!(delta.current_packages, 3);
    assert_eq!(delta.previous_packages, 3);
    assert_eq!(delta.added_packages, vec!["d".to_string()]);
    assert_eq!(delta.removed_packages, vec!["a".to_string()]);
    assert_eq!(delta.orphan_delta, -2);
    assert_eq!(delta.size_delta_bytes, 1250 - 600);
    let current = &history.entries[2].analysis;
    let previous = &history.entries[1].analysis;
    assert_eq!(
        delta.health_delta,
        current.health_score as i16 - previous.health_score as i16
    );
}

#[test]
fn comparing_an_analysis_with_itself_shows_no_change() {
    let mut history = HistoryFile::default();
    let a = analysis("1", &[("x", 10), ("y", 20)], &["y"]);
    history.record(a.clone());
    history.record(a);
    let delta = compare_recent(&history).unwrap();
    assert!(delta.added_packages.is_empty());
    assert!(delta.removed_packages.is_empty());
    assert_eq!(delta.health_delta, 0);
    assert_eq!(delta.orphan_delta, 0);
    assert_eq!(delta.size_delta_bytes, 0);
}

#[test]
fn added_and_removed_are_sorted_and_unique() {
    let mut history = HistoryFile::default();
    history.record(analysis("1", &[("m", 1), ("k", 1)], &[]));
    history.record(analysis("2", &[("z", 1), ("b", 1), ("b", 2), ("a", 1)], &[]));
    let delta = compare_recent(&history).unwrap();
    assert_eq!(
        delta.added_packages,
        vec!["a".to_string(), "b".to_string(), "z".to_string()]
    );
    assert_eq!(delta.removed_packages, vec!["k".to_string(), "m".to_string()]);
}
