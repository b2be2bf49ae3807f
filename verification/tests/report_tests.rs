use amph::analyzer::analyze;
use amph::cleanup::{CleanupAssessment, CleanupItem};
use amph::pacman::{InstallReason, PackageRecord, RecentPackageAction, SystemSnapshot};
use amph::report::{
    bloat_color, cache_color, clean_markdown, format_delta, full_markdown,
    markdown_table_for_sizes, orphan_color, scan_markdown, score_color, Shade,
};
use amph::scan::{MissingDependency, QuickScan};
use amph::stats::{PackageSizeEntry, SizeBucket};
use amph::storage::{compare_recent, HistoryDelta, HistoryFile};
use amph::tables::{
    clean_summary_rows, dashboard_cleanup_rows, dashboard_disk_rows, dashboard_health_rows,
    delta_rows, history_rows, largest_package_rows, recent_rows, scan_brief_rows, shown_count,
    size_bucket_rows, stats_summary_rows, system_summary_rows, top_candidate_rows, MetricRow,
    SimpleRow, SHOW_TOP_N,
};

const GIB: u64 = 1024 * 1024 * 1024;

fn metric(rows: &[MetricRow]) -> Vec<(String, String, Option<Shade>)> {
    rows.iter().map(|r| (r.label.clone(), r.value.clone(), r.shade)).collect()
}

fn simple(rows: &[SimpleRow]) -> Vec<(String, String)> {
    rows.iter().map(|r| (r.item.clone(), r.value.clone())).collect()
}

fn m(label: &str, value: &str, shade: Option<Shade>) -> (String, String, Option<Shade>) {
    (label.to_string(), value.to_string(), shade)
}

fn s(item: &str, value: &str) -> (String, String) {
    (item.to_string(), value.to_string())
}

fn item(name: &str, size: u64) -> CleanupItem {
    CleanupItem {
        name: name.to_string(),
        version: "1".to_string(),
        reason: "unknown".to_string(),
        size_bytes: size,
    }
}

fn assessment(orphans: Vec<CleanupItem>, unused: Vec<CleanupItem>, cache: Option<u64>) -> CleanupAssessment {
    CleanupAssessment {
        orphans,
        unnecessary_dependencies: unused,
        safe_remove_candidates: vec!["a".to_string()],
        dry_run_command: "sudo pacman -Rns --print a".to_string(),
        recommendations: Vec::new(),
        cache_size_bytes: cache,
    }
}

fn scan(missing: usize, cache: Option<u64>) -> QuickScan {
    QuickScan {
        total_packages: 120,
        explicit_packages: 40,
        dependency_packages: 80,
        orphan_count: 3,
        missing_dependencies: (0..missing)
            .map(|i| MissingDependency { package: format!("p{}", i), missing: "x".to_string() })
            .collect(),
        cache_size_bytes: cache,
    }
}

fn pkg(name: &str, size: u64, reason: InstallReason, required_by: &[&str]) -> PackageRecord {
    PackageRecord {
        name: name.to_string(),
        version: "2.0".to_string(),
        description: None,
        installed_size_bytes: size,
        install_date: None,
        install_reason: reason,
        packager: None,
        groups: Vec::new(),
        depends_on: Vec::new(),
        required_by: required_by.iter().map(|s| s.to_string()).collect(),
        optional_for: Vec::new(),
    }
}

fn sample_snapshot() -> SystemSnapshot {
    SystemSnapshot {
        generated_at: "1700000000".to_string(),
        packages: vec![
            pkg("app", 300 * 1024 * 1024, InstallReason::Explicit, &[]),
            pkg("lib", 2048, InstallReason::Dependency, &["app"]),
            pkg("stale", 1024, InstallReason::Dependency, &[]),
        ],
        orphan_names: vec!["stale".to_string()],
        recent_actions: vec![RecentPackageAction {
            timestamp: "2024-01-01T00:00:00+0000".to_string(),
            action: "installed".to_string(),
            name: "app".to_string(),
            version: Some("2.0".to_string()),
        }],
    }
}

#[test]
fn colours() {
    assert_eq!(orphan_color(0), Shade::Green);
    assert_eq!(orphan_color(1), Shade::Yellow);
    assert_eq!(orphan_color(4), Shade::Yellow);
    assert_eq!(orphan_color(5), Shade::Red);
    assert_eq!(cache_color(5 * GIB - 1), Shade::Green);
    assert_eq!(cache_color(5 * GIB), Shade::Yellow);
    assert_eq!(cache_color(10 * GIB), Shade::Red);
    assert_eq!(score_color(100), Shade::Green);
    assert_eq!(score_color(90), Shade::Green);
    assert_eq!(score_color(89), Shade::DarkGreen);
    assert_eq!(score_color(70), Shade::DarkGreen);
    assert_eq!(score_color(50), Shade::Yellow);
    assert_eq!(score_color(25), Shade::Red);
    assert_eq!(score_color(24), Shade::DarkRed);
    assert_eq!(score_color(101), Shade::DarkRed);
    assert_eq!(score_color(255), Shade::DarkRed);
    assert_eq!(bloat_color(0), Shade::Green);
    assert_eq!(bloat_color(24), Shade::Green);
    assert_eq!(bloat_color(25), Shade::Yellow);
    assert_eq!(bloat_color(50), Shade::Red);
    assert_eq!(bloat_color(75), Shade::DarkRed);
}

#[test]
fn deltas() {
    assert_eq!(format_delta(3), "+3");
    assert_eq!(format_delta(0), "0");
    assert_eq!(format_delta(-2), "-2");
    assert_eq!(format_delta(i128::MIN), i128::MIN.to_string());
    assert_eq!(format_delta(i128::MAX), format!("+{}", i128::MAX));
}

#[test]
fn scan_markdown_report() {
    assert_eq!(
        scan_markdown(&scan(2, Some(3 * GIB))),
        "# amph scan\n\n- Packages: 120\n- Explicit: 40\n- Dependencies: 80\n- Orphans: 3\n- Pacman cache: 3.0 GiB\n- Missing dependency links: 2\n"
    );
    assert_eq!(
        scan_markdown(&scan(0, None)),
        "# amph scan\n\n- Packages: 120\n- Explicit: 40\n- Dependencies: 80\n- Orphans: 3\n- Missing dependency links: 0\n"
    );
}

#[test]
fn clean_markdown_report() {
    let a = assessment(vec![item("small", 10)], vec![item("big", 4096)], None);
    assert_eq!(
        clean_markdown(&a),
        "# amph clean\n\n- Orphans: 1\n- Unused dependencies: 1\n- Reclaimable: 4.0 KiB\n\n## Candidates\n\n| Package | Version | Size | Reason |\n| --- | --- | --- | --- |\n| big | 1 | 4.0 KiB | unknown |\n| small | 1 | 10 B | unknown |\n\nDry-run: `sudo pacman -Rns --print a`\n"
    );
}

#[test]
fn size_table_markdown() {
    let entries = vec![
        PackageSizeEntry { name: "a".to_string(), version: "1".to_string(), size_bytes: 2048, description: None },
        PackageSizeEntry { name: "b".to_string(), version: "2".to_string(), size_bytes: 3, description: None },
    ];
    assert_eq!(
        markdown_table_for_sizes(&entries),
        "| Package | Version | Size |\n| --- | --- | --- |\n| a | 1 | 2.0 KiB |\n| b | 2 | 3 B |\n"
    );
    assert_eq!(markdown_table_for_sizes(&[]), "| Package | Version | Size |\n| --- | --- | --- |\n");
}

#[test]
fn full_markdown_report() {
    let a = analyze(&sample_snapshot(), None);
    let md = full_markdown(&a);
    let expected_head = format!(
        "# amph report\n\n- Generated at: 1700000000\n- Packages: 3\n- Total size: 300.0 MiB\n- Health score: {}\n\n## Largest packages\n\n",
        a.health_score
    );
    assert!(md.starts_with(&expected_head), "{}", md);
    assert!(md.contains("| app | 2.0 | 300.0 MiB |\n| lib | 2.0 | 2.0 KiB |\n| stale | 2.0 | 1.0 KiB |\n\n\n## Cleanup candidates\n\n- stale\n\n## Recommendations\n\n"));
    assert!(md.ends_with(&format!("- {}\n", a.recommendations.last().unwrap())));
}

#[test]
fn full_markdown_without_candidates() {
    let mut snap = sample_snapshot();
    snap.orphan_names.clear();
    snap.packages.truncate(1);
    let a = analyze(&snap, None);
    assert!(full_markdown(&a).contains("## Cleanup candidates\n\nNo cleanup candidates detected.\n\n## Recommendations\n\n"));
}

#[test]
fn shown_counts() {
    assert_eq!(SHOW_TOP_N, 5);
    assert_eq!(shown_count(0), 0);
    assert_eq!(shown_count(3), 3);
    assert_eq!(shown_count(5), 5);
    assert_eq!(shown_count(9), 5);
}

#[test]
fn scan_brief_table() {
    assert_eq!(
        metric(&scan_brief_rows(&scan(0, Some(6 * GIB)))),
        vec![
            m("Packages", "120", None),
            m("Explicit", "40", None),
            m("Dependencies", "80", None),
            m("Orphans", "3", Some(Shade::Yellow)),
            m("Pacman cache", "6.0 GiB", Some(Shade::Yellow)),
        ]
    );
    assert_eq!(scan_brief_rows(&scan(0, None)).len(), 4);
}

#[test]
fn clean_summary_table() {
    let a = assessment(vec![item("o", 10)], vec![item("u", 2048)], Some(GIB));
    assert_eq!(
        metric(&clean_summary_rows(&a)),
        vec![
            m("Orphans", "1", Some(Shade::Yellow)),
            m("Unused dependencies", "1", Some(Shade::Yellow)),
            m("Pacman cache", "1.0 GiB", Some(Shade::Green)),
            m("Reclaimable (packages)", "2.0 KiB", Some(Shade::Green)),
        ]
    );
}

#[test]
fn top_candidates_table() {
    let a = assessment(
        (0..4).map(|i| item(&format!("o{}", i), i as u64)).collect(),
        (0..4).map(|i| item(&format!("u{}", i), 10 + i as u64)).collect(),
        None,
    );
    let rows = top_candidate_rows(&a);
    let names: Vec<&str> = rows.iter().map(|r| r.package.as_str()).collect();
    assert_eq!(names, vec!["u3", "u2", "u1", "u0", "o3"]);
    assert_eq!(rows[0].size, "13 B");
    assert_eq!(rows[0].reason, "unknown");
    assert_eq!(rows[0].version, "1");
    assert!(top_candidate_rows(&assessment(Vec::new(), Vec::new(), None)).is_empty());
}

#[test]
fn stats_tables() {
    let a = analyze(&sample_snapshot(), None);
    assert_eq!(
        metric(&stats_summary_rows(&a.stats, "0.50 : 1")),
        vec![
            m("Total packages", "3", None),
            m("Total size", "300.0 MiB", None),
            m("Average size", "100.0 MiB", None),
            m("Median size", "2.0 KiB", None),
            m("Explicit / Dependency", "1 / 2  (0.50 : 1)", None),
        ]
    );
    let buckets = size_bucket_rows(&a.stats.size_buckets);
    assert_eq!(buckets.len(), 5);
    assert_eq!(buckets[0].bucket, "Tiny (<1 MiB)");
    assert_eq!(buckets[0].count, 2);
    assert_eq!(buckets[0].total_size, "3.0 KiB");
    assert_eq!(buckets[3].count, 1);
    assert_eq!(buckets[3].total_size, "300.0 MiB");
    let rows = largest_package_rows(&a.stats.largest_packages);
    assert_eq!(rows.len(), 3);
    assert_eq!((rows[0].package.as_str(), rows[0].version.as_str(), rows[0].size.as_str()), ("app", "2.0", "300.0 MiB"));
}

#[test]
fn bucket_rows_of_given_buckets() {
    let rows = size_bucket_rows(&[SizeBucket { label: "L".to_string(), count: 7, total_bytes: 1536 }]);
    assert_eq!(rows[0].bucket, "L");
    assert_eq!(rows[0].count, 7);
    assert_eq!(rows[0].total_size, "1.5 KiB");
}

#[test]
fn dashboard_tables() {
    let a = analyze(&sample_snapshot(), Some(11 * GIB));
    let health = metric(&dashboard_health_rows(&a));
    assert_eq!(health[0], m("Health score", &a.health_score.to_string(), Some(score_color(a.health_score))));
    assert_eq!(
        health[1],
        m("Bloat score", &a.bloat_score.to_string(), Some(score_color(100u8.saturating_sub(a.bloat_score))))
    );
    assert_eq!(health[2], m("Unused dep. confidence", "low", None));
    assert_eq!(health[3], m("Suspicious dep. chains", "1", None));
    assert_eq!(
        metric(&dashboard_disk_rows(&a)),
        vec![
            m("Packages", "3", None),
            m("Total size", "300.0 MiB", None),
            m("Pacman cache", "11.0 GiB", Some(Shade::Red)),
            m("Heaviest package", "app (300.0 MiB)", None),
        ]
    );
    assert_eq!(
        metric(&dashboard_cleanup_rows(&a)),
        vec![
            m("Orphans", "1", Some(Shade::Yellow)),
            m("Unused dependencies", "0", None),
            m("Reclaimable space", "1.0 KiB", Some(Shade::Green)),
        ]
    );
}

#[test]
fn dashboard_disk_without_packages() {
    let empty = SystemSnapshot {
        generated_at: "0".to_string(),
        packages: Vec::new(),
        orphan_names: Vec::new(),
        recent_actions: Vec::new(),
    };
    let a = analyze(&empty, None);
    assert_eq!(
        metric(&dashboard_disk_rows(&a)),
        vec![m("Packages", "0", None), m("Total size", "0 B", None)]
    );
}

#[test]
fn summary_and_recent_tables() {
    let a = analyze(&sample_snapshot(), None);
    assert_eq!(
        simple(&system_summary_rows(&a)),
        vec![
            s("Packages", "3"),
            s("Total size", "300.0 MiB"),
            s("Average size", "100.0 MiB"),
            s("Median size", "2.0 KiB"),
            s("Orphans", "1"),
            s("Cleanup candidates", "1"),
            s("Health score", &a.health_score.to_string()),
        ]
    );
    assert_eq!(
        simple(&recent_rows(&a)),
        vec![s("app", "installed | 2024-01-01T00:00:00+0000")]
    );
}

#[test]
fn history_table_newest_first_at_most_twenty() {
    let mut history = HistoryFile::default();
    for i in 0..25 {
        let mut snap = sample_snapshot();
        snap.generated_at = format!("t{:02}", i);
        history.record(analyze(&snap, None));
    }
    let rows = history_rows(&history);
    assert_eq!(rows.len(), 20);
    assert_eq!(rows[0].item, "t24");
    assert_eq!(rows[19].item, "t05");
    let a = &history.entries[24].analysis;
    assert_eq!(rows[0].value, format!("3 packages | 1 orphans | score {}", a.health_score));
    assert!(history_rows(&HistoryFile::default()).is_empty());
}

#[test]
fn delta_table() {
    let delta = HistoryDelta {
        current_packages: 12,
        previous_packages: 10,
        added_packages: Vec::new(),
        removed_packages: Vec::new(),
        health_delta: -3,
        orphan_delta: 2,
        size_delta_bytes: -1536,
    };
    assert_eq!(
        simple(&delta_rows(&delta)),
        vec![
            s("Package delta", "10 -> 12"),
            s("Health delta", "-3"),
            s("Orphan delta", "+2"),
            s("Size delta", "-1.5 KiB"),
        ]
    );
}

#[test]
fn delta_table_of_recorded_history() {
    let mut history = HistoryFile::default();
    history.record(analyze(&sample_snapshot(), None));
    let mut snap = sample_snapshot();
    snap.packages.pop();
    snap.orphan_names.clear();
    history.record(analyze(&snap, None));
    let delta = compare_recent(&history).unwrap();
    let rows = simple(&delta_rows(&delta));
    assert_eq!(rows[0], s("Package delta", "3 -> 2"));
    assert_eq!(rows[2], s("Orphan delta", "-1"));
    assert_eq!(rows[3], s("Size delta", "-1.0 KiB"));
}
