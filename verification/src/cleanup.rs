use vstd::prelude::*;

use crate::order::{is_stable_sort, lemma_stable_insert, stable_sort_with, strict_weak_order};
use crate::pacman::{package_views, InstallReason, PackageRecord, PackageView, SystemSnapshot};
use crate::stats::{
    entry_views, format_bytes, format_bytes_spec, EntryView, PackageSizeEntry, PackageStats,
};
use crate::text::{dec, join, push_dec, push_joined, push_str, sorted_unique, strictly_sorted};

verus! {

// ---------------------------------------------------------------------------
// Data model
// ---------------------------------------------------------------------------

/// A package that could be removed, and why it was installed.
#[derive(Debug)]
pub struct CleanupItem {
    pub name: String,
    pub version: String,
    pub reason: String,
    pub size_bytes: u64,
}

/// What a cleanup item holds, as plain sequences.
pub struct ItemView {
    pub name: Seq<char>,
    pub version: Seq<char>,
    pub reason: Seq<char>,
    pub size_bytes: u64,
}

impl View for CleanupItem {
    type V = ItemView;

    open spec fn view(&self) -> ItemView {
        ItemView {
            name: self.name@,
            version: self.version@,
            reason: self.reason@,
            size_bytes: self.size_bytes,
        }
    }
}

impl Clone for CleanupItem {
    fn clone(&self) -> (r: Self)
        ensures
            r@ == self@,
    {
        CleanupItem {
            name: self.name.clone(),
            version: self.version.clone(),
            reason: self.reason.clone(),
            size_bytes: self.size_bytes,
        }
    }
}

pub open spec fn item_views(s: Seq<CleanupItem>) -> Seq<ItemView> {
    s.map_values(|i: CleanupItem| i@)
}

/// The packages that could go, the command that would show their removal, and advice.
#[derive(Debug, Clone)]
pub struct CleanupAssessment {
    pub orphans: Vec<CleanupItem>,
    pub unnecessary_dependencies: Vec<CleanupItem>,
    pub safe_remove_candidates: Vec<String>,
    pub dry_run_command: String,
    pub recommendations: Vec<String>,
    pub cache_size_bytes: Option<u64>,
}

// ---------------------------------------------------------------------------
// Specification
// ---------------------------------------------------------------------------

pub open spec fn reason_text(r: InstallReason) -> Seq<char> {
    match r {
        InstallReason::Explicit => "explicitly installed"@,
        InstallReason::Dependency => "installed as dependency"@,
        InstallReason::Unknown => "unknown"@,
    }
}

pub open spec fn item_of(p: PackageView) -> ItemView {
    ItemView {
        name: p.name,
        version: p.version,
        reason: reason_text(p.install_reason),
        size_bytes: p.installed_size_bytes,
    }
}

pub open spec fn orphan_pred(orphans: Seq<Seq<char>>) -> spec_fn(PackageView) -> bool {
    |p: PackageView| orphans.contains(p.name)
}

/// Installed as a dependency, required by nothing, and not an orphan.
pub open spec fn unneeded_pred(orphans: Seq<Seq<char>>) -> spec_fn(PackageView) -> bool {
    |p: PackageView|
        p.install_reason == InstallReason::Dependency && p.required_by.len() == 0
            && !orphans.contains(p.name)
}

pub open spec fn orphan_items(pkgs: Seq<PackageView>, orphans: Seq<Seq<char>>) -> Seq<ItemView> {
    pkgs.filter(orphan_pred(orphans)).map_values(|p: PackageView| item_of(p))
}

pub open spec fn unneeded_items(pkgs: Seq<PackageView>, orphans: Seq<Seq<char>>) -> Seq<ItemView> {
    pkgs.filter(unneeded_pred(orphans)).map_values(|p: PackageView| item_of(p))
}

pub open spec fn item_names(items: Seq<ItemView>) -> Seq<Seq<char>> {
    items.map_values(|i: ItemView| i.name)
}

pub open spec fn dry_run_text(candidates: Seq<Seq<char>>) -> Seq<char> {
    if candidates.len() == 0 {
        "sudo pacman -Rns --print <review-manually>"@
    } else {
        "sudo pacman -Rns --print "@ + join(candidates, " "@)
    }
}

pub open spec fn line_if(c: bool, s: Seq<char>) -> Seq<Seq<char>> {
    if c {
        seq![s]
    } else {
        seq![]
    }
}

pub open spec fn cleanup_advice(
    orphans: nat,
    unneeded: nat,
    heavy: nat,
    candidates: nat,
) -> Seq<Seq<char>> {
    line_if(orphans > 0, "Review "@ + dec(orphans) + " orphaned package(s) for removal."@) + line_if(
        unneeded > 0,
        dec(unneeded) + " dependency package(s) appear unused and are cleanup candidates."@,
    ) + line_if(heavy >= 5, "Audit very large packages for optional features and old toolchains."@)
        + line_if(candidates == 0, "No safe cleanup candidates were detected from the current snapshot."@)
}

/// `a` holds the cleanup assessment of packages `pkgs` with orphans named `orphans`,
/// `heavy` heavy packages and the package cache size `cache`.
pub open spec fn assessment_of(
    a: CleanupAssessment,
    pkgs: Seq<PackageView>,
    orphans: Seq<Seq<char>>,
    heavy: nat,
    cache: Option<u64>,
) -> bool {
    let o = orphan_items(pkgs, orphans);
    let u = unneeded_items(pkgs, orphans);
    &&& item_views(a.orphans@) == o
    &&& item_views(a.unnecessary_dependencies@) == u
    &&& strictly_sorted(a.safe_remove_candidates.deep_view())
    &&& a.safe_remove_candidates.deep_view().to_set() == item_names(o + u).to_set()
    &&& a.dry_run_command@ == dry_run_text(a.safe_remove_candidates.deep_view())
    &&& a.recommendations.deep_view() == cleanup_advice(
        o.len(),
        u.len(),
        heavy,
        a.safe_remove_candidates.len() as nat,
    )
    &&& a.cache_size_bytes == cache
}

// ---------------------------------------------------------------------------
// Building the assessment
// ---------------------------------------------------------------------------

fn names_contain(names: &Vec<String>, name: &String) -> (r: bool)
    ensures
        r == names.deep_view().contains(name@),
{
    let mut i: usize = 0;
    while i < names.len()
        invariant
            i <= names.len(),
            forall|j: int| 0 <= j < i ==> names.deep_view()[j] != name@,
        decreases names.len() - i,
    {
        if names[i] == *name {
            assert(names.deep_view()[i as int] == name@);
            return true;
        }
        i += 1;
    }
    false
}

fn reason_string(r: InstallReason) -> (s: String)
    ensures
        s@ == reason_text(r),
{
    match r {
        InstallReason::Explicit => String::from_str("explicitly installed"),
        InstallReason::Dependency => String::from_str("installed as dependency"),
        InstallReason::Unknown => String::from_str("unknown"),
    }
}

/// The cleanup item of a package.
pub fn to_item(package: &PackageRecord) -> (item: CleanupItem)
    ensures
        item@ == item_of(package@),
{
    CleanupItem {
        name: package.name.clone(),
        version: package.version.clone(),
        reason: reason_string(package.install_reason),
        size_bytes: package.installed_size_bytes,
    }
}

pub(crate) fn select_items(packages: &Vec<PackageRecord>, orphan_names: &Vec<String>, want_orphans: bool) -> (r:
    Vec<CleanupItem>)
    ensures
        item_views(r@) == (if want_orphans {
            orphan_items(package_views(packages@), orphan_names.deep_view())
        } else {
            unneeded_items(package_views(packages@), orphan_names.deep_view())
        }),
{
    let ghost pv = package_views(packages@);
    let ghost names = orphan_names.deep_view();
    let ghost pred = if want_orphans {
        orphan_pred(names)
    } else {
        unneeded_pred(names)
    };
    let mut r: Vec<CleanupItem> = Vec::new();
    let mut i: usize = 0;
    while i < packages.len()
        invariant
            i <= packages.len(),
            pv == package_views(packages@),
            names == orphan_names.deep_view(),
            pred == (if want_orphans {
                orphan_pred(names)
            } else {
                unneeded_pred(names)
            }),
            item_views(r@) == pv.take(i as int).filter(pred).map_values(
                |p: PackageView| item_of(p),
            ),
        decreases packages.len() - i,
    {
        let p = &packages[i];
        let is_orphan = names_contain(orphan_names, &p.name);
        let keep = if want_orphans {
            is_orphan
        } else {
            p.install_reason == InstallReason::Dependency && p.required_by.len() == 0 && !is_orphan
        };
        proof {
            assert(pv.take(i + 1) == pv.take(i as int).push(pv[i as int]));
            pv.take(i as int).lemma_filter_push(pv[i as int], pred);
            assert(pv[i as int] == p@);
            assert(p@.required_by.len() == p.required_by.len());
            assert(keep == pred(pv[i as int]));
        }
        if keep {
            let ghost before = item_views(r@);
            r.push(to_item(p));
            assert(item_views(r@) == before.push(item_of(pv[i as int])));
        }
        i += 1;
    }
    assert(pv.take(packages.len() as int) == pv);
    r
}

fn names_of_items(a: &Vec<CleanupItem>, b: &Vec<CleanupItem>) -> (r: Vec<String>)
    ensures
        r.deep_view() == item_names(item_views(a@) + item_views(b@)),
{
    let ghost all = item_views(a@) + item_views(b@);
    let mut r: Vec<String> = Vec::new();
    let mut i: usize = 0;
    while i < a.len()
        invariant
            i <= a.len(),
            all == item_views(a@) + item_views(b@),
            r.deep_view() == item_names(all.take(i as int)),
        decreases a.len() - i,
    {
        r.push(a[i].name.clone());
        assert(item_names(all.take(i + 1)) == item_names(all.take(i as int)).push(all[i as int].name));
        i += 1;
    }
    let mut j: usize = 0;
    while j < b.len()
        invariant
            j <= b.len(),
            all == item_views(a@) + item_views(b@),
            r.deep_view() == item_names(all.take(a.len() + j)),
        decreases b.len() - j,
    {
        r.push(b[j].name.clone());
        assert(item_names(all.take(a.len() + j + 1)) == item_names(all.take(a.len() + j)).push(
            all[a.len() + j].name,
        ));
        j += 1;
    }
    assert(all.take(a.len() + b.len()) == all);
    r
}

/// The orphans, the unused dependencies, the names one could remove (sorted, each
/// once), the dry-run command that would show their removal, and advice.
pub fn build_cleanup_assessment(
    snapshot: &SystemSnapshot,
    stats: &PackageStats,
    cache_size_bytes: Option<u64>,
) -> (a: CleanupAssessment)
    ensures
        assessment_of(
            a,
            package_views(snapshot.packages@),
            snapshot.orphan_names.deep_view(),
            stats.heavy_packages.len() as nat,
            cache_size_bytes,
        ),
{
    let orphans = select_items(&snapshot.packages, &snapshot.orphan_names, true);
    let unnecessary_dependencies = select_items(&snapshot.packages, &snapshot.orphan_names, false);
    let names = names_of_items(&orphans, &unnecessary_dependencies);
    let safe_remove_candidates = sorted_unique(&names);
    let mut dry_run_command = String::new();
    if safe_remove_candidates.len() == 0 {
        push_str(&mut dry_run_command, "sudo pacman -Rns --print <review-manually>");
    } else {
        push_str(&mut dry_run_command, "sudo pacman -Rns --print ");
        push_joined(&mut dry_run_command, &safe_remove_candidates, " ");
    }
    assert(safe_remove_candidates.deep_view().len() == safe_remove_candidates.len());
    let mut recommendations: Vec<String> = Vec::new();
    let ghost o = item_views(orphans@);
    let ghost u = item_views(unnecessary_dependencies@);
    assert(o.len() == orphans.len());
    assert(u.len() == unnecessary_dependencies.len());
    if orphans.len() > 0 {
        let mut s = String::new();
        push_str(&mut s, "Review ");
        push_dec(&mut s, orphans.len() as u128);
        push_str(&mut s, " orphaned package(s) for removal.");
        recommendations.push(s);
    }
    let ghost r1 = recommendations.deep_view();
    if unnecessary_dependencies.len() > 0 {
        let mut s = String::new();
        push_dec(&mut s, unnecessary_dependencies.len() as u128);
        push_str(&mut s, " dependency package(s) appear unused and are cleanup candidates.");
        recommendations.push(s);
    }
    let ghost r2 = recommendations.deep_view();
    if stats.heavy_packages.len() >= 5 {
        recommendations.push(
            String::from_str("Audit very large packages for optional features and old toolchains."),
        );
    }
    let ghost r3 = recommendations.deep_view();
    if safe_remove_candidates.len() == 0 {
        recommendations.push(
            String::from_str("No safe cleanup candidates were detected from the current snapshot."),
        );
    }
    assert(recommendations.deep_view() =~= cleanup_advice(
        o.len(),
        u.len(),
        stats.heavy_packages.len() as nat,
        safe_remove_candidates.len() as nat,
    ));
    CleanupAssessment {
        orphans,
        unnecessary_dependencies,
        safe_remove_candidates,
        dry_run_command,
        recommendations,
        cache_size_bytes,
    }
}


// ---------------------------------------------------------------------------
// Reading an assessment
// ---------------------------------------------------------------------------

pub open spec fn size_order() -> spec_fn(ItemView, ItemView) -> bool {
    |a: ItemView, b: ItemView| a.size_bytes > b.size_bytes
}

pub open spec fn ref_views(s: Seq<&CleanupItem>) -> Seq<ItemView> {
    s.map_values(|r: &CleanupItem| r@)
}

pub open spec fn item_total(s: Seq<ItemView>) -> nat
    decreases s.len(),
{
    if s.len() == 0 {
        0
    } else {
        item_total(s.drop_last()) + s.last().size_bytes as nat
    }
}

pub open spec fn flattened(i: ItemView) -> EntryView {
    EntryView { name: i.name, version: i.version, size_bytes: i.size_bytes, description: Some(i.reason) }
}

pub open spec fn cleanup_line(i: ItemView) -> Seq<char> {
    i.name + " ("@ + i.version + ") - "@ + format_bytes_spec(i.size_bytes as nat)
}

proof fn lemma_item_total_prefix(s: Seq<ItemView>, i: int)
    requires
        0 <= i <= s.len(),
    ensures
        item_total(s.take(i)) <= item_total(s),
    decreases s.len() - i,
{
    if i < s.len() {
        lemma_item_total_prefix(s, i + 1);
        assert(s.take(i + 1).drop_last() == s.take(i));
    } else {
        assert(s.take(i) == s);
    }
}

fn insertion_point(r: &Vec<&CleanupItem>, size: u64) -> (k: usize)
    ensures
        k <= r.len(),
        forall|j: int| 0 <= j < k ==> !(size > #[trigger] r@[j].size_bytes),
        k < r.len() ==> size > r@[k as int].size_bytes,
{
    let mut k: usize = 0;
    while k < r.len() && !(size > r[k].size_bytes)
        invariant
            k <= r.len(),
            forall|j: int| 0 <= j < k ==> !(size > #[trigger] r@[j].size_bytes),
        decreases r.len() - k,
    {
        k += 1;
    }
    k
}

impl CleanupAssessment {
    pub open spec fn all_items(&self) -> Seq<ItemView> {
        item_views(self.orphans@) + item_views(self.unnecessary_dependencies@)
    }

    /// The orphans and then the unused dependencies, largest first; items of equal
    /// size keep that order.
    pub fn candidates(&self) -> (r: Vec<&CleanupItem>)
        ensures
            is_stable_sort(ref_views(r@), self.all_items(), size_order()),
    {
        proof {
            lemma_size_order();
        }
        let ghost orig = self.all_items();
        let ghost o = item_views(self.orphans@);
        let mut r: Vec<&CleanupItem> = Vec::new();
        let ghost mut perm: Seq<int> = Seq::empty();
        let mut i: usize = 0;
        while i < self.orphans.len()
            invariant
                i <= self.orphans.len(),
                orig == self.all_items(),
                o == item_views(self.orphans@),
                strict_weak_order(size_order()),
                stable_sort_with(ref_views(r@), o.take(i as int), perm, size_order()),
            decreases self.orphans.len() - i,
        {
            let item: &CleanupItem = &self.orphans[i];
            let ghost sorted = ref_views(r@);
            let k = insertion_point(&r, item.size_bytes);
            proof {
                assert forall|j: int| 0 <= j < k implies !size_order()(item@, #[trigger] sorted[j]) by {
                    assert(sorted[j] == r@[j]@);
                }
                lemma_stable_insert(sorted, o.take(i as int), perm, size_order(), item@, k as int);
                perm = perm.insert(k as int, i as int);
                assert(o.take(i + 1) == o.take(i as int).push(item@));
            }
            r.insert(k, item);
            assert(ref_views(r@) == sorted.insert(k as int, item@));
            i += 1;
        }
        assert(o.take(self.orphans.len() as int) == o);
        let n1 = self.orphans.len();
        let mut j: usize = 0;
        while j < self.unnecessary_dependencies.len()
            invariant
                j <= self.unnecessary_dependencies.len(),
                n1 == self.orphans.len(),
                orig == self.all_items(),
                strict_weak_order(size_order()),
                stable_sort_with(ref_views(r@), orig.take(n1 + j), perm, size_order()),
            decreases self.unnecessary_dependencies.len() - j,
        {
            let item: &CleanupItem = &self.unnecessary_dependencies[j];
            assert(item@ == orig[n1 + j]);
            let ghost sorted = ref_views(r@);
            let k = insertion_point(&r, item.size_bytes);
            proof {
                assert forall|q: int| 0 <= q < k implies !size_order()(item@, #[trigger] sorted[q]) by {
                    assert(sorted[q] == r@[q]@);
                }
                lemma_stable_insert(sorted, orig.take(n1 + j), perm, size_order(), item@, k as int);
                perm = perm.insert(k as int, n1 + j);
                assert(orig.take(n1 + j + 1) == orig.take(n1 + j).push(item@));
            }
            r.insert(k, item);
            assert(ref_views(r@) == sorted.insert(k as int, item@));
            j += 1;
        }
        assert(orig.take(orig.len() as int) == orig);
        r
    }

    /// The space that removing every orphan and unused dependency would free.
    pub fn reclaimable_bytes(&self) -> (total: u64)
        requires
            item_total(self.all_items()) <= u64::MAX,
        ensures
            total == item_total(self.all_items()),
    {
        let ghost all = self.all_items();
        let n1 = self.orphans.len();
        let mut total: u64 = 0;
        let mut i: usize = 0;
        while i < n1
            invariant
                i <= n1,
                n1 == self.orphans.len(),
                all == self.all_items(),
                item_total(all) <= u64::MAX,
                total == item_total(all.take(i as int)),
            decreases n1 - i,
        {
            proof {
                assert(self.orphans[i as int].size_bytes == all[i as int].size_bytes);
                assert(all.take(i + 1).drop_last() == all.take(i as int));
                lemma_item_total_prefix(all, i + 1);
            }
            total = total + self.orphans[i].size_bytes;
            i += 1;
        }
        let mut j: usize = 0;
        while j < self.unnecessary_dependencies.len()
            invariant
                j <= self.unnecessary_dependencies.len(),
                n1 == self.orphans.len(),
                all == self.all_items(),
                item_total(all) <= u64::MAX,
                total == item_total(all.take(n1 + j)),
            decreases self.unnecessary_dependencies.len() - j,
        {
            proof {
                assert(self.unnecessary_dependencies[j as int].size_bytes == all[n1 + j].size_bytes);
                assert(all.take(n1 + j + 1).drop_last() == all.take(n1 + j));
                lemma_item_total_prefix(all, n1 + j + 1);
            }
            total = total + self.unnecessary_dependencies[j].size_bytes;
            j += 1;
        }
        assert(all.take(all.len() as int) == all);
        total
    }
}

proof fn lemma_size_order()
    ensures
        strict_weak_order(size_order()),
{
}

fn flattened_entry(item: &CleanupItem) -> (e: PackageSizeEntry)
    ensures
        e@ == flattened(item@),
{
    PackageSizeEntry {
        name: item.name.clone(),
        version: item.version.clone(),
        size_bytes: item.size_bytes,
        description: Some(item.reason.clone()),
    }
}

/// The orphans and then the unused dependencies as size entries, the reason as description.
pub fn flatten_candidates(assessment: &CleanupAssessment) -> (r: Vec<PackageSizeEntry>)
    ensures
        entry_views(r@) == assessment.all_items().map_values(|i: ItemView| flattened(i)),
{
    let ghost all = assessment.all_items().map_values(|i: ItemView| flattened(i));
    let n1 = assessment.orphans.len();
    let mut r: Vec<PackageSizeEntry> = Vec::new();
    let mut i: usize = 0;
    while i < n1
        invariant
            i <= n1,
            n1 == assessment.orphans.len(),
            all == assessment.all_items().map_values(|i: ItemView| flattened(i)),
            entry_views(r@) == all.take(i as int),
        decreases n1 - i,
    {
        r.push(flattened_entry(&assessment.orphans[i]));
        assert(all.take(i + 1) == all.take(i as int).push(all[i as int]));
        i += 1;
    }
    let mut j: usize = 0;
    while j < assessment.unnecessary_dependencies.len()
        invariant
            j <= assessment.unnecessary_dependencies.len(),
            n1 == assessment.orphans.len(),
            all == assessment.all_items().map_values(|i: ItemView| flattened(i)),
            entry_views(r@) == all.take(n1 + j),
        decreases assessment.unnecessary_dependencies.len() - j,
    {
        r.push(flattened_entry(&assessment.unnecessary_dependencies[j]));
        assert(all.take(n1 + j + 1) == all.take(n1 + j).push(all[n1 + j]));
        j += 1;
    }
    assert(all.take(all.len() as int) == all);
    r
}

/// `name (version) - size`.
pub fn format_cleanup_line(item: &CleanupItem) -> (r: String)
    ensures
        r@ == cleanup_line(item@),
{
    let mut s = String::new();
    push_str(&mut s, item.name.as_str());
    push_str(&mut s, " (");
    push_str(&mut s, item.version.as_str());
    push_str(&mut s, ") - ");
    let size = format_bytes(item.size_bytes);
    push_str(&mut s, size.as_str());
    s
}

} // verus!
