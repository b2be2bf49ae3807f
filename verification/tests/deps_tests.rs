use amph::deps::{
    dependency_chain_summary, dependency_family_counts, inspect_dependencies, normalize_dependency,
    package_family, suspicious_chain_for_package,
};
use amph::pacman::{InstallReason, PackageRecord, SystemSnapshot};

fn pkg(name: &str, reason: InstallReason, depends_on: &[&str], required_by: &[&str]) -> PackageRecord {
    PackageRecord {
        name: name.to_string(),
        version: "1".to_string(),
        description: None,
        installed_size_bytes: 1,
        install_date: None,
        install_reason: reason,
        packager: None,
        groups: Vec::new(),
        depends_on: depends_on.iter().map(|s| s.to_string()).collect(),
        required_by: required_by.iter().map(|s| s.to_string()).collect(),
        optional_for: Vec::new(),
    }
}

fn snapshot(packages: Vec<PackageRecord>) -> SystemSnapshot {
    SystemSnapshot {
        generated_at: "0".to_string(),
        packages,
        orphan_names: Vec::new(),
        recent_actions: Vec::new(),
    }
}

fn names(packages: &[&str]) -> SystemSnapshot {
    snapshot(packages.iter().map(|n| pkg(n, InstallReason::Explicit, &[], &[])).collect())
}

#[test]
fn inspection_classifies_nodes() {
    let snap = snapshot(vec![
        pkg("app", InstallReason::Explicit, &["lib"], &[]),
        pkg("lib", InstallReason::Dependency, &[], &["app"]),
        pkg("stale", InstallReason::Dependency, &[], &[]),
    ]);
    let d = inspect_dependencies(&snap);
    assert_eq!(d.nodes.len(), 3);
    assert!(d.nodes[0].is_explicit);
    assert!(!d.nodes[1].is_explicit);
    assert_eq!(d.nodes[0].depends_on, vec!["lib".to_string()]);
    assert_eq!(d.leaf_packages, vec!["lib".to_string(), "stale".to_string()]);
    assert_eq!(d.root_packages, vec!["app".to_string(), "stale".to_string()]);
    assert_eq!(d.redundant_packages, vec!["stale".to_string()]);
    assert_eq!(
        d.suspicious_chains,
        vec!["stale is installed as a dependency but nothing currently requires it".to_string()]
    );
}

#[test]
fn inspection_warnings_sorted_and_unique() {
    let wide: Vec<String> = (0..25).map(|i| format!("d{}", i)).collect();
    let wide_refs: Vec<&str> = wide.iter().map(|s| s.as_str()).collect();
    let snap = snapshot(vec![
        pkg("zz", InstallReason::Unknown, &["zz"], &["x"]),
        pkg("aa", InstallReason::Explicit, &wide_refs, &[]),
        pkg("zz", InstallReason::Unknown, &["zz"], &["x"]),
    ]);
    let d = inspect_dependencies(&snap);
    assert_eq!(
        d.suspicious_chains,
        vec![
            "aa has an unusually broad dependency fan-out (25 dependencies)".to_string(),
            "zz depends on itself".to_string(),
        ]
    );
    assert_eq!(dependency_chain_summary(&d), d.suspicious_chains);
}

#[test]
fn inspection_of_nothing() {
    let d = inspect_dependencies(&snapshot(Vec::new()));
    assert!(d.nodes.is_empty());
    assert!(d.leaf_packages.is_empty());
    assert!(d.suspicious_chains.is_empty());
}

#[test]
fn unknown_reason_counts_as_not_explicit() {
    let d = inspect_dependencies(&snapshot(vec![pkg("u", InstallReason::Unknown, &[], &[])]));
    assert_eq!(d.redundant_packages, vec!["u".to_string()]);
}

#[test]
fn families() {
    assert_eq!(package_family("lib32-mesa"), "mesa");
    assert_eq!(package_family("neovim-git"), "neovim");
    assert_eq!(package_family("linux-lts"), "linux");
    assert_eq!(package_family("foo-bin-git"), "foo-bin");
    assert_eq!(package_family("gtk-common"), "gtk");
    assert_eq!(package_family("lib32-foo-debug-common"), "foo-debug");
    assert_eq!(package_family("lib32-"), "");
    assert_eq!(package_family("plain"), "plain");
    assert_eq!(package_family("-git"), "");
}

#[test]
fn family_counts_keep_repeated_families() {
    let snap = names(&["mesa", "lib32-mesa", "vim", "neovim", "neovim-git", "gtk-common", "gtk", "x"]);
    assert_eq!(
        dependency_family_counts(&snap),
        vec![("gtk".to_string(), 2), ("mesa".to_string(), 2), ("neovim".to_string(), 2)]
    );
    assert!(dependency_family_counts(&names(&["a", "b"])).is_empty());
}

#[test]
fn normalize_dependency_examples() {
    assert_eq!(normalize_dependency("python>=3.11"), "python");
    assert_eq!(normalize_dependency("sh"), "sh");
}

#[test]
fn chain_needs_an_installed_package() {
    let snap = snapshot(vec![pkg("a", InstallReason::Explicit, &["b"], &[])]);
    assert_eq!(suspicious_chain_for_package("missing", &snap), None);
}

#[test]
fn short_chains_are_not_reported() {
    let snap = snapshot(vec![
        pkg("a", InstallReason::Explicit, &["b>=1"], &[]),
        pkg("b", InstallReason::Dependency, &["c"], &[]),
        pkg("c", InstallReason::Dependency, &["notinstalled"], &[]),
    ]);
    assert_eq!(suspicious_chain_for_package("a", &snap), None);
}

#[test]
fn long_chain_follows_first_dependencies() {
    let snap = snapshot(vec![
        pkg("a", InstallReason::Explicit, &["b>=1", "z"], &[]),
        pkg("b", InstallReason::Dependency, &["c"], &[]),
        pkg("c", InstallReason::Dependency, &["d"], &[]),
        pkg("d", InstallReason::Dependency, &[], &[]),
    ]);
    assert_eq!(
        suspicious_chain_for_package("a", &snap),
        Some(vec!["a".to_string(), "b".to_string(), "c".to_string(), "d".to_string()])
    );
}

#[test]
fn cycle_ends_with_the_repeated_name() {
    let snap = snapshot(vec![
        pkg("a", InstallReason::Explicit, &["b"], &[]),
        pkg("b", InstallReason::Dependency, &["c"], &[]),
        pkg("c", InstallReason::Dependency, &["a"], &[]),
    ]);
    assert_eq!(
        suspicious_chain_for_package("a", &snap),
        Some(vec!["a".to_string(), "b".to_string(), "c".to_string(), "a".to_string()])
    );
}

#[test]
fn chain_is_at_most_twelve_long() {
    let names: Vec<String> = (0..20).map(|i| format!("p{:02}", i)).collect();
    let packages: Vec<PackageRecord> = (0..20)
        .map(|i| {
            let next = if i + 1 < 20 { vec![names[i + 1].as_str()] } else { Vec::new() };
            pkg(&names[i], InstallReason::Dependency, &next, &[])
        })
        .collect();
    let chain = suspicious_chain_for_package("p00", &snapshot(packages)).unwrap();
    assert_eq!(chain.len(), 12);
    assert_eq!(chain[0], "p00");
    assert_eq!(chain[11], "p11");
}

#[test]
fn chain_uses_first_package_of_a_name() {
    let snap = snapshot(vec![
        pkg("a", InstallReason::Explicit, &["b"], &[]),
        pkg("b", InstallReason::Dependency, &["c"], &[]),
        pkg("b", InstallReason::Dependency, &["x"], &[]),
        pkg("c", InstallReason::Dependency, &["d"], &[]),
        pkg("d", InstallReason::Dependency, &[], &[]),
        pkg("x", InstallReason::Dependency, &[], &[]),
    ]);
    assert_eq!(
        suspicious_chain_for_package("a", &snap),
        Some(vec!["a".to_string(), "b".to_string(), "c".to_string(), "d".to_string()])
    );
}
