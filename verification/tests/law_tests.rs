use amph::analyzer::{analyze, compute_bloat_score};
use amph::cleanup::build_cleanup_assessment;
use amph::deps::{inspect_dependencies, suspicious_chain_for_package};
use amph::pacman::{normalize_package_token, split_tokens, InstallReason, PackageRecord, SystemSnapshot};
use amph::scan::quick_scan;
use amph::stats::{compute_package_stats, summarize_packages, PackageStats};
use amph::storage::{compare_recent, HistoryFile};
use std::collections::BTreeSet;

fn pkg(name: &str, size: u64, reason: InstallReason, depends_on: &[&str], required_by: &[&str]) -> PackageRecord {
    PackageRecord {
        name: name.to_string(),
        version: "1".to_string(),
        description: None,
        installed_size_bytes: size,
        install_date: None,
        install_reason: reason,
        packager: None,
        groups: Vec::new(),
        depends_on: depends_on.iter().map(|s| s.to_string()).collect(),
        required_by: required_by.iter().map(|s| s.to_string()).collect(),
        optional_for: Vec::new(),
    }
}

fn snapshot(packages: Vec<PackageRecord>, orphans: &[&str]) -> SystemSnapshot {
    SystemSnapshot {
        generated_at: "0".to_string(),
        packages,
        orphan_names: orphans.iter().map(|s| s.to_string()).collect(),
        recent_actions: Vec::new(),
    }
}

fn mixed() -> SystemSnapshot {
    let mib = 1024 * 1024;
    snapshot(
        vec![
            pkg("editor", 80 * mib, InstallReason::Explicit, &["toolkit", "spell"], &[]),
            pkg("toolkit", 30 * mib, InstallReason::Dependency, &["fonts"], &["editor"]),
            pkg("fonts", 600 * mib, InstallReason::Dependency, &["render"], &["toolkit"]),
            pkg("render", 2 * mib, InstallReason::Dependency, &["math"], &["fonts"]),
            pkg("math", 512, InstallReason::Dependency, &[], &["render"]),
            pkg("leftover", 7 * mib, InstallReason::Dependency, &[], &[]),
            pkg("tool", 150 * mib, InstallReason::Unknown, &[], &[]),
        ],
        &["leftover"],
    )
}

#[test]
fn buckets_partition_the_packages() {
    let stats = compute_package_stats(&mixed());
    let count: usize = stats.size_buckets.iter().map(|b| b.count).sum();
    let total: u64 = stats.size_buckets.iter().map(|b| b.total_bytes).sum();
    assert_eq!(count, 7);
    assert_eq!(total, stats.total_size_bytes);
}

#[test]
fn reason_counts_do_not_exceed_packages() {
    let stats = compute_package_stats(&mixed());
    assert_eq!(stats.explicit_packages, 1);
    assert_eq!(stats.dependency_packages, 5);
    assert!(stats.explicit_packages + stats.dependency_packages <= stats.total_packages);
}

#[test]
fn largest_packages_descend() {
    let stats = compute_package_stats(&mixed());
    for pair in stats.largest_packages.windows(2) {
        assert!(pair[0].size_bytes >= pair[1].size_bytes);
    }
}

#[test]
fn median_and_average_lie_between_extremes() {
    let snap = mixed();
    let stats = compute_package_stats(&snap);
    let min = snap.packages.iter().map(|p| p.installed_size_bytes).min().unwrap();
    let max = snap.packages.iter().map(|p| p.installed_size_bytes).max().unwrap();
    assert!(min <= stats.median_size_bytes && stats.median_size_bytes <= max);
    assert!(min <= stats.average_size_bytes && stats.average_size_bytes <= max);
    assert_eq!(stats.median_size_bytes, 30 * 1024 * 1024);
}

#[test]
fn health_is_what_bloat_leaves() {
    let a = analyze(&mixed(), Some(1024));
    assert!(a.bloat_score <= 83);
    assert_eq!(a.health_score as u32 + a.bloat_score as u32, 100);
}

#[test]
fn normalizing_twice_changes_nothing() {
    for token in ["fonts>=2", ",render:", " math ", "=", "editor<3,"] {
        let once = normalize_package_token(token);
        assert_eq!(normalize_package_token(&once), once);
    }
}

#[test]
fn orphans_and_unused_never_share_a_package() {
    let snap = mixed();
    let stats = compute_package_stats(&snap);
    let c = build_cleanup_assessment(&snap, &stats, None);
    let orphans: BTreeSet<&str> = c.orphans.iter().map(|i| i.name.as_str()).collect();
    assert_eq!(orphans.len(), 1);
    assert!(c.unnecessary_dependencies.iter().all(|u| !orphans.contains(u.name.as_str())));
    assert_eq!(c.unnecessary_dependencies.len(), 0);
}

#[test]
fn sorted_lists_hold_no_duplicates() {
    let snap = snapshot(
        vec![
            pkg("a", 1, InstallReason::Dependency, &["a"], &[]),
            pkg("a", 2, InstallReason::Dependency, &["a"], &[]),
        ],
        &["a"],
    );
    let d = inspect_dependencies(&snap);
    let unique: BTreeSet<&String> = d.suspicious_chains.iter().collect();
    assert_eq!(unique.len(), d.suspicious_chains.len());
    assert_eq!(d.suspicious_chains.len(), 2);
    let stats = compute_package_stats(&snap);
    let c = build_cleanup_assessment(&snap, &stats, None);
    assert_eq!(c.safe_remove_candidates, vec!["a".to_string()]);
}

#[test]
fn candidates_keep_their_total() {
    let snap = mixed();
    let stats = compute_package_stats(&snap);
    let c = build_cleanup_assessment(&snap, &stats, None);
    let sorted: u64 = c.candidates().iter().map(|i| i.size_bytes).sum();
    assert_eq!(sorted, c.reclaimable_bytes());
}

#[test]
fn critical_exactly_when_a_dependency_is_not_installed() {
    let snap = mixed();
    let uninstalled = snap
        .packages
        .iter()
        .any(|p| p.depends_on.iter().any(|d| !snap.packages.iter().any(|q| &q.name == d)));
    let q = quick_scan(&snap, None);
    assert_eq!(q.has_critical_issues(), uninstalled);
    assert!(q.has_critical_issues());
    assert_eq!(q.missing_dependencies[0].missing, "spell");
}

#[test]
fn chains_start_at_the_package_and_follow_first_dependencies() {
    let snap = mixed();
    let chain = suspicious_chain_for_package("editor", &snap).unwrap();
    assert_eq!(chain, vec!["editor", "toolkit", "fonts", "render", "math"]);
    assert!(chain.len() >= 4 && chain.len() <= 12);
    for pair in chain.windows(2) {
        let from = snap.packages.iter().find(|p| p.name == pair[0]).unwrap();
        assert_eq!(from.depends_on[0], pair[1]);
    }
    assert_eq!(suspicious_chain_for_package("render", &snap), None);
}

#[test]
fn applying_the_delta_gives_the_current_packages() {
    let mut history = HistoryFile::default();
    history.record(analyze(&mixed(), None));
    let mut later = mixed();
    later.packages.retain(|p| p.name != "leftover" && p.name != "tool");
    later.packages.push(pkg("newcomer", 5, InstallReason::Explicit, &[], &[]));
    history.record(analyze(&later, None));
    let delta = compare_recent(&history).unwrap();
    let previous: BTreeSet<String> = mixed().packages.iter().map(|p| p.name.clone()).collect();
    let current: BTreeSet<String> = later.packages.iter().map(|p| p.name.clone()).collect();
    let removed: BTreeSet<String> = delta.removed_packages.iter().cloned().collect();
    let added: BTreeSet<String> = delta.added_packages.iter().cloned().collect();
    assert!(removed.is_disjoint(&added));
    let applied: BTreeSet<String> = previous.difference(&removed).cloned().chain(added).collect();
    assert_eq!(applied, current);
    assert_eq!(delta.removed_packages, vec!["leftover".to_string(), "tool".to_string()]);
    assert_eq!(delta.added_packages, vec!["newcomer".to_string()]);
}

#[test]
fn list_tokens_are_normalized_names() {
    let tokens = split_tokens("glibc>=2 , None  :zlib: >=1 perl=5.38 None,");
    assert_eq!(tokens, vec!["glibc".to_string(), "zlib".to_string(), "perl".to_string()]);
    for t in &tokens {
        assert!(!t.is_empty());
        assert_ne!(t, "None");
        assert_eq!(&normalize_package_token(t), t);
    }
}

fn stats_fields(s: &PackageStats) -> String {
    format!("{:?}", s)
}

#[test]
fn buckets_do_not_depend_on_package_order() {
    let snap = mixed();
    let mut reversed = mixed();
    reversed.packages.reverse();
    let a = compute_package_stats(&snap);
    let b = compute_package_stats(&reversed);
    for (x, y) in a.size_buckets.iter().zip(b.size_buckets.iter()) {
        assert_eq!((x.count, x.total_bytes), (y.count, y.total_bytes));
    }
    assert_eq!(stats_fields(&a), stats_fields(&b));
}

#[test]
fn summarize_is_the_statistics_of_a_fresh_snapshot() {
    let packages = mixed().packages;
    let fresh = SystemSnapshot {
        generated_at: String::new(),
        packages: packages.clone(),
        orphan_names: Vec::new(),
        recent_actions: Vec::new(),
    };
    assert_eq!(stats_fields(&summarize_packages(&packages)), stats_fields(&compute_package_stats(&fresh)));
}

#[test]
fn analysis_is_made_of_its_parts() {
    let snap = mixed();
    let a = analyze(&snap, Some(11 * 1024 * 1024 * 1024));
    let stats = compute_package_stats(&snap);
    let cleanup = build_cleanup_assessment(&snap, &stats, Some(11 * 1024 * 1024 * 1024));
    let deps = inspect_dependencies(&snap);
    let (bloat, penalties, confidence) =
        compute_bloat_score(&stats, &cleanup, &deps, Some(11 * 1024 * 1024 * 1024));
    assert_eq!(stats_fields(&a.stats), stats_fields(&stats));
    assert_eq!(format!("{:?}", a.cleanup), format!("{:?}", cleanup));
    assert_eq!(format!("{:?}", a.dependencies), format!("{:?}", deps));
    assert_eq!(a.bloat_score, bloat);
    assert_eq!(a.penalty_breakdown, penalties);
    assert_eq!(a.unused_dependency_confidence, confidence);
    assert_eq!(a.snapshot.packages.len(), snap.packages.len());
}

#[test]
fn swapping_the_last_two_entries_negates_the_delta() {
    let first = analyze(&mixed(), None);
    let mut later = mixed();
    later.packages.retain(|p| p.name != "tool");
    later.packages.push(pkg("newcomer", 5, InstallReason::Explicit, &[], &[]));
    later.orphan_names.clear();
    let second = analyze(&later, None);
    let mut forward = HistoryFile::default();
    forward.record(first.clone());
    forward.record(second.clone());
    let mut backward = HistoryFile::default();
    backward.record(second);
    backward.record(first);
    let d = compare_recent(&forward).unwrap();
    let s = compare_recent(&backward).unwrap();
    assert_eq!(s.current_packages, d.previous_packages);
    assert_eq!(s.previous_packages, d.current_packages);
    assert_eq!(s.added_packages, d.removed_packages);
    assert_eq!(s.removed_packages, d.added_packages);
    assert_eq!(s.health_delta, -d.health_delta);
    assert_eq!(s.orphan_delta, -d.orphan_delta);
    assert_eq!(s.size_delta_bytes, -d.size_delta_bytes);
    assert_eq!(d.orphan_delta, -1);
}

#[test]
fn normalized_tokens_have_no_constraint_or_edge_separators() {
    for token in ["glibc>=2.38", " ,zlib: ", "perl=5", "a<b>c", ":", "x, y", ""] {
        let name = normalize_package_token(token);
        assert!(!name.contains(|c: char| c == '<' || c == '>' || c == '='));
        if let Some(first) = name.chars().next() {
            assert!(!(first == ',' || first == ':' || first.is_whitespace()));
        }
        if let Some(last) = name.chars().last() {
            assert!(!(last == ',' || last == ':' || last.is_whitespace()));
        }
        assert!(token.contains(name.as_str()));
    }
    assert_eq!(normalize_package_token("glibc>=2.38"), "glibc");
    assert_eq!(normalize_package_token("x, y"), "x, y");
}
