use vstd::prelude::*;

use crate::deps::pkg_names;
use crate::pacman::{package_views, InstallReason, PackageView, SystemSnapshot};
use crate::stats::count_reason;

verus! {

/// A dependency that no installed package provides under that name.
#[derive(Debug, Clone)]
pub struct MissingDependency {
    pub package: String,
    pub missing: String,
}

pub open spec fn missing_view(m: MissingDependency) -> (Seq<char>, Seq<char>) {
    (m.package@, m.missing@)
}

pub open spec fn missing_views(s: Seq<MissingDependency>) -> Seq<(Seq<char>, Seq<char>)> {
    s.map_values(|m: MissingDependency| missing_view(m))
}

/// A quick look at the installed packages.
#[derive(Debug, Clone)]
pub struct QuickScan {
    pub total_packages: usize,
    pub explicit_packages: usize,
    pub dependency_packages: usize,
    pub orphan_count: usize,
    pub missing_dependencies: Vec<MissingDependency>,
    pub cache_size_bytes: Option<u64>,
}

impl QuickScan {
    /// Whether a dependency is missing.
    pub fn has_critical_issues(&self) -> (r: bool)
        ensures
            r == (self.missing_dependencies.len() > 0),
    {
        self.missing_dependencies.len() != 0
    }
}

/// The dependencies of one package that are not installed, with the package's name.
pub open spec fn missing_of_package(p: PackageView, names: Seq<Seq<char>>) -> Seq<
    (Seq<char>, Seq<char>),
> {
    p.depends_on.filter(|d: Seq<char>| !names.contains(d)).map_values(
        |d: Seq<char>| (p.name, d),
    )
}

/// The missing dependencies of the packages, in the order of packages and then of
/// their dependency lists.
pub open spec fn missing_of(pkgs: Seq<PackageView>, names: Seq<Seq<char>>) -> Seq<
    (Seq<char>, Seq<char>),
>
    decreases pkgs.len(),
{
    if pkgs.len() == 0 {
        seq![]
    } else {
        missing_of(pkgs.drop_last(), names) + missing_of_package(pkgs.last(), names)
    }
}

fn is_installed(snapshot: &SystemSnapshot, name: &String) -> (r: bool)
    ensures
        r == pkg_names(package_views(snapshot.packages@)).contains(name@),
{
    let ghost names = pkg_names(package_views(snapshot.packages@));
    let mut i: usize = 0;
    while i < snapshot.packages.len()
        invariant
            i <= snapshot.packages.len(),
            names == pkg_names(package_views(snapshot.packages@)),
            forall|j: int| 0 <= j < i ==> names[j] != name@,
        decreases snapshot.packages.len() - i,
    {
        if snapshot.packages[i].name == *name {
            assert(names[i as int] == name@);
            return true;
        }
        i += 1;
    }
    false
}

/// Counts of packages by install reason, the number of orphans, the dependencies
/// that no installed package satisfies by name, and the given cache size.
pub fn quick_scan(snapshot: &SystemSnapshot, cache_size_bytes: Option<u64>) -> (q: QuickScan)
    ensures
        q.total_packages == snapshot.packages.len(),
        q.explicit_packages == count_reason(
            package_views(snapshot.packages@),
            InstallReason::Explicit,
        ),
        q.dependency_packages == count_reason(
            package_views(snapshot.packages@),
            InstallReason::Dependency,
        ),
        q.orphan_count == snapshot.orphan_names.len(),
        missing_views(q.missing_dependencies@) == missing_of(
            package_views(snapshot.packages@),
            pkg_names(package_views(snapshot.packages@)),
        ),
        q.cache_size_bytes == cache_size_bytes,
{
    let ghost pv = package_views(snapshot.packages@);
    let ghost names = pkg_names(pv);
    let mut explicit_packages: usize = 0;
    let mut dependency_packages: usize = 0;
    let mut missing: Vec<MissingDependency> = Vec::new();
    let mut i: usize = 0;
    while i < snapshot.packages.len()
        invariant
            i <= snapshot.packages.len(),
            pv == package_views(snapshot.packages@),
            names == pkg_names(pv),
            explicit_packages == count_reason(pv.take(i as int), InstallReason::Explicit),
            dependency_packages == count_reason(pv.take(i as int), InstallReason::Dependency),
            explicit_packages <= i,
            dependency_packages <= i,
            missing_views(missing@) == missing_of(pv.take(i as int), names),
        decreases snapshot.packages.len() - i,
    {
        let p = &snapshot.packages[i];
        proof {
            assert(pv.take(i + 1).drop_last() == pv.take(i as int));
            assert(pv.take(i + 1).last() == p@);
        }
        match p.install_reason {
            InstallReason::Explicit => explicit_packages += 1,
            InstallReason::Dependency => dependency_packages += 1,
            InstallReason::Unknown => {},
        }
        let ghost before = missing_views(missing@);
        let ghost deps = p.depends_on.deep_view();
        let ghost keep = |d: Seq<char>| !names.contains(d);
        let mut k: usize = 0;
        while k < p.depends_on.len()
            invariant
                k <= p.depends_on.len(),
                deps == p.depends_on.deep_view(),
                names == pkg_names(package_views(snapshot.packages@)),
                keep == (|d: Seq<char>| !names.contains(d)),
                missing_views(missing@) == before + deps.take(k as int).filter(keep).map_values(
                    |d: Seq<char>| (p.name@, d),
                ),
            decreases p.depends_on.len() - k,
        {
            let d = &p.depends_on[k];
            proof {
                assert(deps.take(k + 1) == deps.take(k as int).push(deps[k as int]));
                deps.take(k as int).lemma_filter_push(deps[k as int], keep);
            }
            if !is_installed(snapshot, d) {
                let ghost mv = missing_views(missing@);
                missing.push(MissingDependency { package: p.name.clone(), missing: d.clone() });
                assert(missing_views(missing@) == mv.push((p.name@, d@)));
            }
            k += 1;
        }
        assert(deps.take(p.depends_on.len() as int) == deps);
        i += 1;
    }
    assert(pv.take(snapshot.packages.len() as int) == pv);
    QuickScan {
        total_packages: snapshot.packages.len(),
        explicit_packages,
        dependency_packages,
        orphan_count: snapshot.orphan_names.len(),
        missing_dependencies: missing,
        cache_size_bytes,
    }
}

} // verus!
