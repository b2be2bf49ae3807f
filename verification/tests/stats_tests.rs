use amph::pacman::{InstallReason, PackageRecord, RecentPackageAction, SystemSnapshot};
use amph::stats::{compute_package_stats, format_bytes, format_signed_bytes, summarize_packages};

fn pkg(name: &str, size: u64, reason: InstallReason) -> PackageRecord {
    PackageRecord {
        name: name.to_string(),
        version: "1.0-1".to_string(),
        description: Some(format!("{} package", name)),
        installed_size_bytes: size,
        install_date: None,
        install_reason: reason,
        packager: None,
        groups: Vec::new(),
        depends_on: Vec::new(),
        required_by: Vec::new(),
        optional_for: Vec::new(),
    }
}

fn snapshot(packages: Vec<PackageRecord>) -> SystemSnapshot {
    SystemSnapshot {
        generated_at: "0".to_string(),
        packages,
        orphan_names: Vec::new(),
        recent_actions: Vec::new(),
    }
}

/// The floating-point rendering that the byte formatter is meant to reproduce.
fn float_format_bytes(bytes: u64) -> String {
    let units = ["B", "KiB", "MiB", "GiB", "TiB"];
    let mut value = bytes as f64;
    let mut index = 0usize;
    while value >= 1024.0 && index + 1 < units.len() {
        value /= 1024.0;
        index += 1;
    }
    if index == 0 {
        format!("{} {}", bytes, units[index])
    } else {
        format!("{value:.1} {}", units[index])
    }
}

#[test]
fn format_bytes_small_counts_are_exact() {
    assert_eq!(format_bytes(0), "0 B");
    assert_eq!(format_bytes(1), "1 B");
    assert_eq!(format_bytes(1023), "1023 B");
}

#[test]
fn format_bytes_units() {
    assert_eq!(format_bytes(1024), "1.0 KiB");
    assert_eq!(format_bytes(1536), "1.5 KiB");
    assert_eq!(format_bytes(1024 * 1024), "1.0 MiB");
    assert_eq!(format_bytes(5 * 1024 * 1024 * 1024), "5.0 GiB");
    assert_eq!(format_bytes(3 * 1024 * 1024 * 1024 * 1024), "3.0 TiB");
}

#[test]
fn format_bytes_rounds_to_tenths() {
    assert_eq!(format_bytes(1048575), "1024.0 KiB");
    assert_eq!(format_bytes(9_762_243), "9.3 MiB");
    assert_eq!(format_bytes(1126), "1.1 KiB");
}

#[test]
fn format_bytes_stays_in_tebibytes() {
    assert_eq!(format_bytes(u64::MAX), "16777216.0 TiB");
    assert_eq!(format_bytes(2048 * 1024 * 1024 * 1024 * 1024), "2048.0 TiB");
}

#[test]
fn format_bytes_matches_float_rendering() {
    let mut values: Vec<u64> = vec![
        1024, 1075, 1076, 1126, 1177, 1228, 10 * 1024 + 51, 10 * 1024 + 52,
        (1 << 20) - 1, 1 << 20, (1 << 30) - 1, 1 << 30, (1 << 40) - 1, 1 << 40,
        (1 << 53) + 1, (1 << 60) + 12345, u64::MAX - 1, u64::MAX,
    ];
    let mut x: u64 = 0x9e37_79b9_7f4a_7c15;
    for _ in 0..2000 {
        x = x.wrapping_mul(6364136223846793005).wrapping_add(1442695040888963407);
        let shift = (x >> 58) as u32;
        values.push(x >> shift);
    }
    for k in 1..64u32 {
        for d in [0u64, 1, 51, 52, 102, 103] {
            values.push((1u64 << k).wrapping_add(d));
            values.push((1u64 << k).wrapping_sub(d));
        }
    }
    for v in values {
        assert_eq!(format_bytes(v), float_format_bytes(v), "value {}", v);
    }
}

#[test]
fn format_signed_bytes_examples() {
    assert_eq!(format_signed_bytes(0), "0 B");
    assert_eq!(format_signed_bytes(2048), "2.0 KiB");
    assert_eq!(format_signed_bytes(-2048), "-2.0 KiB");
    assert_eq!(format_signed_bytes(-5), "-5 B");
}

#[test]
fn format_signed_bytes_keeps_the_low_64_bits() {
    assert_eq!(format_signed_bytes(i128::MIN), "-0 B");
    assert_eq!(format_signed_bytes((1i128 << 64) + 5), "5 B");
    assert_eq!(format_signed_bytes(-((1i128 << 64) + 7)), "-7 B");
}

#[test]
fn stats_of_empty_snapshot() {
    let stats = compute_package_stats(&snapshot(Vec::new()));
    assert_eq!(stats.total_packages, 0);
    assert_eq!(stats.total_size_bytes, 0);
    assert_eq!(stats.average_size_bytes, 0);
    assert_eq!(stats.median_size_bytes, 0);
    assert!(stats.largest_packages.is_empty());
    assert!(stats.heavy_packages.is_empty());
    assert_eq!(stats.size_buckets.len(), 5);
    assert!(stats.size_buckets.iter().all(|b| b.count == 0 && b.total_bytes == 0));
}

#[test]
fn stats_sort_by_size_then_name() {
    let stats = compute_package_stats(&snapshot(vec![
        pkg("b", 10, InstallReason::Explicit),
        pkg("a", 10, InstallReason::Dependency),
        pkg("c", 30, InstallReason::Unknown),
        pkg("d", 5, InstallReason::Explicit),
    ]));
    let names: Vec<&str> = stats.largest_packages.iter().map(|e| e.name.as_str()).collect();
    assert_eq!(names, vec!["c", "a", "b", "d"]);
    assert_eq!(stats.total_packages, 4);
    assert_eq!(stats.total_size_bytes, 55);
    assert_eq!(stats.average_size_bytes, 13);
    assert_eq!(stats.median_size_bytes, 10);
    assert_eq!(stats.explicit_packages, 2);
    assert_eq!(stats.dependency_packages, 1);
    assert_eq!(stats.largest_packages[0].description, Some("c package".to_string()));
}

#[test]
fn stats_median_of_odd_and_even() {
    let odd = compute_package_stats(&snapshot(vec![
        pkg("a", 1, InstallReason::Explicit),
        pkg("b", 100, InstallReason::Explicit),
        pkg("c", 7, InstallReason::Explicit),
    ]));
    assert_eq!(odd.median_size_bytes, 7);
    let even = compute_package_stats(&snapshot(vec![
        pkg("a", 1, InstallReason::Explicit),
        pkg("b", 4, InstallReason::Explicit),
        pkg("c", 10, InstallReason::Explicit),
        pkg("d", 100, InstallReason::Explicit),
    ]));
    assert_eq!(even.median_size_bytes, 7);
}

#[test]
fn stats_median_of_two_large_sizes() {
    let stats = compute_package_stats(&snapshot(vec![
        pkg("a", u64::MAX / 2, InstallReason::Explicit),
        pkg("b", u64::MAX / 2 + 1, InstallReason::Explicit),
    ]));
    assert_eq!(stats.median_size_bytes, u64::MAX / 2);
}

#[test]
fn stats_largest_keeps_twenty() {
    let packages: Vec<PackageRecord> = (0..30)
        .map(|i| pkg(&format!("p{:02}", i), i as u64, InstallReason::Explicit))
        .collect();
    let stats = compute_package_stats(&snapshot(packages));
    assert_eq!(stats.largest_packages.len(), 20);
    assert_eq!(stats.largest_packages[0].name, "p29");
    assert_eq!(stats.largest_packages[19].name, "p10");
}

#[test]
fn stats_heavy_falls_back_to_top_five() {
    let packages: Vec<PackageRecord> = (0..8)
        .map(|i| pkg(&format!("p{}", i), (i as u64) * 1000, InstallReason::Explicit))
        .collect();
    let stats = compute_package_stats(&snapshot(packages));
    let names: Vec<&str> = stats.heavy_packages.iter().map(|e| e.name.as_str()).collect();
    assert_eq!(names, vec!["p7", "p6", "p5", "p4", "p3"]);
}

#[test]
fn stats_heavy_are_those_of_200_mib() {
    let mib = 1024 * 1024;
    let stats = compute_package_stats(&snapshot(vec![
        pkg("small", 10 * mib, InstallReason::Explicit),
        pkg("edge", 200 * mib, InstallReason::Explicit),
        pkg("below", 200 * mib - 1, InstallReason::Explicit),
        pkg("huge", 900 * mib, InstallReason::Explicit),
    ]));
    let names: Vec<&str> = stats.heavy_packages.iter().map(|e| e.name.as_str()).collect();
    assert_eq!(names, vec!["huge", "edge"]);
}

#[test]
fn stats_buckets() {
    let stats = compute_package_stats(&snapshot(vec![
        pkg("t", 1_048_575, InstallReason::Explicit),
        pkg("s1", 1_048_576, InstallReason::Explicit),
        pkg("s2", 24_999_999, InstallReason::Explicit),
        pkg("m", 25_000_000, InstallReason::Explicit),
        pkg("l", 100_000_000, InstallReason::Explicit),
        pkg("h", 500_000_000, InstallReason::Explicit),
    ]));
    let labels: Vec<&str> = stats.size_buckets.iter().map(|b| b.label.as_str()).collect();
    assert_eq!(
        labels,
        vec![
            "Tiny (<1 MiB)",
            "Small (1-25 MiB)",
            "Medium (25-100 MiB)",
            "Large (100-500 MiB)",
            "Huge (>=500 MiB)"
        ]
    );
    let counts: Vec<usize> = stats.size_buckets.iter().map(|b| b.count).collect();
    assert_eq!(counts, vec![1, 2, 1, 1, 1]);
    let totals: Vec<u64> = stats.size_buckets.iter().map(|b| b.total_bytes).collect();
    assert_eq!(totals, vec![1_048_575, 26_048_575, 25_000_000, 100_000_000, 500_000_000]);
    // every package in exactly one bucket
    assert_eq!(counts.iter().sum::<usize>(), stats.total_packages);
    assert_eq!(totals.iter().sum::<u64>(), stats.total_size_bytes);
}

#[test]
fn stats_keep_recent_actions_and_orphan_count() {
    let mut snap = snapshot(vec![pkg("a", 1, InstallReason::Explicit)]);
    snap.orphan_names = vec!["x".to_string(), "y".to_string()];
    snap.recent_actions = vec![RecentPackageAction {
        timestamp: "t".to_string(),
        action: "installed".to_string(),
        name: "a".to_string(),
        version: Some("1".to_string()),
    }];
    let stats = compute_package_stats(&snap);
    assert_eq!(stats.orphan_count, 2);
    assert_eq!(stats.recent_packages.len(), 1);
    assert_eq!(stats.recent_packages[0].name, "a");
    assert_eq!(stats.recent_packages[0].version, Some("1".to_string()));
}

#[test]
fn summarize_matches_compute() {
    let packages = vec![
        pkg("a", 3, InstallReason::Dependency),
        pkg("b", 9, InstallReason::Explicit),
    ];
    let stats = summarize_packages(&packages);
    assert_eq!(stats.total_packages, 2);
    assert_eq!(stats.total_size_bytes, 12);
    assert_eq!(stats.orphan_count, 0);
    assert!(stats.recent_packages.is_empty());
    assert_eq!(stats.largest_packages[0].name, "b");
}
