use vstd::prelude::*;

use crate::cleanup::line_if;
use crate::pacman::{
    clone_strings, normalize_dependency_token, normalize_token, package_views, InstallReason,
    PackageView, SystemSnapshot,
};
use crate::text::{
    chars_eq_at, chars_of, dec, push_dec, push_str, sorted_unique, starts_with_at,
    strictly_sorted, string_of_range, seq_lt, };

verus! {

// ---------------------------------------------------------------------------
// Data model
// ---------------------------------------------------------------------------

/// A package and its dependency links.
#[derive(Debug, Clone)]
pub struct DependencyNode {
    pub name: String,
    pub depends_on: Vec<String>,
    pub required_by: Vec<String>,
    pub optional_for: Vec<String>,
    pub is_explicit: bool,
}

/// What a dependency node holds, as plain sequences.
pub struct NodeView {
    pub name: Seq<char>,
    pub depends_on: Seq<Seq<char>>,
    pub required_by: Seq<Seq<char>>,
    pub optional_for: Seq<Seq<char>>,
    pub is_explicit: bool,
}

impl View for DependencyNode {
    type V = NodeView;

    open spec fn view(&self) -> NodeView {
        NodeView {
            name: self.name@,
            depends_on: self.depends_on.deep_view(),
            required_by: self.required_by.deep_view(),
            optional_for: self.optional_for.deep_view(),
            is_explicit: self.is_explicit,
        }
    }
}

pub open spec fn node_views(s: Seq<DependencyNode>) -> Seq<NodeView> {
    s.map_values(|n: DependencyNode| n@)
}

/// The dependency graph of the installed packages and what looks wrong in it.
#[derive(Debug, Clone)]
pub struct DependencyInspection {
    pub nodes: Vec<DependencyNode>,
    pub leaf_packages: Vec<String>,
    pub root_packages: Vec<String>,
    pub redundant_packages: Vec<String>,
    pub suspicious_chains: Vec<String>,
}

// ---------------------------------------------------------------------------
// Specification
// ---------------------------------------------------------------------------

pub open spec fn node_of(p: PackageView) -> NodeView {
    NodeView {
        name: p.name,
        depends_on: p.depends_on,
        required_by: p.required_by,
        optional_for: p.optional_for,
        is_explicit: p.install_reason == InstallReason::Explicit,
    }
}

pub open spec fn node_names(nodes: Seq<NodeView>, keep: spec_fn(NodeView) -> bool) -> Seq<Seq<char>> {
    nodes.filter(keep).map_values(|n: NodeView| n.name)
}

pub open spec fn leaf_pred() -> spec_fn(NodeView) -> bool {
    |n: NodeView| n.depends_on.len() == 0
}

pub open spec fn root_pred() -> spec_fn(NodeView) -> bool {
    |n: NodeView| n.required_by.len() == 0
}

pub open spec fn redundant_pred() -> spec_fn(NodeView) -> bool {
    |n: NodeView| !n.is_explicit && n.required_by.len() == 0
}

/// The warnings about one package: it depends on itself; it has 25 or more
/// dependencies; it is an unrequired dependency.
pub open spec fn node_warnings(n: NodeView) -> Seq<Seq<char>> {
    line_if(n.depends_on.contains(n.name), n.name + " depends on itself"@) + line_if(
        n.depends_on.len() >= 25,
        n.name + " has an unusually broad dependency fan-out ("@ + dec(n.depends_on.len())
            + " dependencies)"@,
    ) + line_if(
        !n.is_explicit && n.required_by.len() == 0,
        n.name + " is installed as a dependency but nothing currently requires it"@,
    )
}

pub open spec fn all_warnings(nodes: Seq<NodeView>) -> Seq<Seq<char>>
    decreases nodes.len(),
{
    if nodes.len() == 0 {
        seq![]
    } else {
        all_warnings(nodes.drop_last()) + node_warnings(nodes.last())
    }
}

/// `d` is the dependency inspection of the packages `pkgs`.
pub open spec fn inspection_of(d: DependencyInspection, pkgs: Seq<PackageView>) -> bool {
    let nodes = pkgs.map_values(|p: PackageView| node_of(p));
    &&& node_views(d.nodes@) == nodes
    &&& d.leaf_packages.deep_view() == node_names(nodes, leaf_pred())
    &&& d.root_packages.deep_view() == node_names(nodes, root_pred())
    &&& d.redundant_packages.deep_view() == node_names(nodes, redundant_pred())
    &&& strictly_sorted(d.suspicious_chains.deep_view())
    &&& d.suspicious_chains.deep_view().to_set() == all_warnings(nodes).to_set()
}

// ---------------------------------------------------------------------------
// Inspection
// ---------------------------------------------------------------------------

fn contains_string(list: &Vec<String>, s: &String) -> (r: bool)
    ensures
        r == list.deep_view().contains(s@),
{
    let mut i: usize = 0;
    while i < list.len()
        invariant
            i <= list.len(),
            forall|j: int| 0 <= j < i ==> list.deep_view()[j] != s@,
        decreases list.len() - i,
    {
        if list[i] == *s {
            assert(list.deep_view()[i as int] == s@);
            return true;
        }
        i += 1;
    }
    false
}

fn warnings_for(node: &DependencyNode, out: &mut Vec<String>)
    ensures
        final(out).deep_view() == old(out).deep_view() + node_warnings(node@),
{
    let ghost start = out.deep_view();
    if contains_string(&node.depends_on, &node.name) {
        let mut s = String::new();
        push_str(&mut s, node.name.as_str());
        push_str(&mut s, " depends on itself");
        out.push(s);
    }
    let ghost w1 = out.deep_view();
    assert(node.depends_on.deep_view().len() == node.depends_on.len());
    if node.depends_on.len() >= 25 {
        let mut s = String::new();
        push_str(&mut s, node.name.as_str());
        push_str(&mut s, " has an unusually broad dependency fan-out (");
        push_dec(&mut s, node.depends_on.len() as u128);
        push_str(&mut s, " dependencies)");
        out.push(s);
    }
    let ghost w2 = out.deep_view();
    assert(node.required_by.deep_view().len() == node.required_by.len());
    if !node.is_explicit && node.required_by.len() == 0 {
        let mut s = String::new();
        push_str(&mut s, node.name.as_str());
        push_str(&mut s, " is installed as a dependency but nothing currently requires it");
        out.push(s);
    }
    assert(out.deep_view() =~= start + node_warnings(node@));
}

fn names_where(nodes: &Vec<DependencyNode>, which: u8) -> (r: Vec<String>)
    requires
        which < 3,
    ensures
        r.deep_view() == node_names(
            node_views(nodes@),
            if which == 0 {
                leaf_pred()
            } else if which == 1 {
                root_pred()
            } else {
                redundant_pred()
            },
        ),
{
    let ghost nv = node_views(nodes@);
    let ghost pred = if which == 0 {
        leaf_pred()
    } else if which == 1 {
        root_pred()
    } else {
        redundant_pred()
    };
    let mut r: Vec<String> = Vec::new();
    let mut i: usize = 0;
    while i < nodes.len()
        invariant
            i <= nodes.len(),
            nv == node_views(nodes@),
            pred == (if which == 0 {
                leaf_pred()
            } else if which == 1 {
                root_pred()
            } else {
                redundant_pred()
            }),
            r.deep_view() == node_names(nv.take(i as int), pred),
        decreases nodes.len() - i,
    {
        let n = &nodes[i];
        assert(n.depends_on.deep_view().len() == n.depends_on.len());
        assert(n.required_by.deep_view().len() == n.required_by.len());
        let keep = if which == 0 {
            n.depends_on.len() == 0
        } else if which == 1 {
            n.required_by.len() == 0
        } else {
            !n.is_explicit && n.required_by.len() == 0
        };
        proof {
            assert(nv.take(i + 1) == nv.take(i as int).push(nv[i as int]));
            nv.take(i as int).lemma_filter_push(nv[i as int], pred);
            assert(keep == pred(nv[i as int]));
            if keep {
                assert(node_names(nv.take(i + 1), pred) == node_names(nv.take(i as int), pred).push(
                    nv[i as int].name,
                ));
            } else {
                assert(node_names(nv.take(i + 1), pred) == node_names(nv.take(i as int), pred));
            }
        }
        if keep {
            let ghost before = r.deep_view();
            r.push(n.name.clone());
            assert(r.deep_view() == before.push(n.name@));
        }
        i += 1;
    }
    assert(nv.take(nodes.len() as int) == nv);
    r
}

/// The dependency graph of the snapshot, its leaves (no dependencies), roots
/// (required by nothing) and unrequired dependencies, and the warnings, sorted,
/// each once.
pub fn inspect_dependencies(snapshot: &SystemSnapshot) -> (d: DependencyInspection)
    ensures
        inspection_of(d, package_views(snapshot.packages@)),
{
    let ghost pv = package_views(snapshot.packages@);
    let ghost nodes_spec = pv.map_values(|p: PackageView| node_of(p));
    let mut nodes: Vec<DependencyNode> = Vec::new();
    let mut i: usize = 0;
    while i < snapshot.packages.len()
        invariant
            i <= snapshot.packages.len(),
            pv == package_views(snapshot.packages@),
            nodes_spec == pv.map_values(|p: PackageView| node_of(p)),
            node_views(nodes@) == nodes_spec.take(i as int),
        decreases snapshot.packages.len() - i,
    {
        let p = &snapshot.packages[i];
        nodes.push(
            DependencyNode {
                name: p.name.clone(),
                depends_on: clone_strings(&p.depends_on),
                required_by: clone_strings(&p.required_by),
                optional_for: clone_strings(&p.optional_for),
                is_explicit: p.install_reason == InstallReason::Explicit,
            },
        );
        assert(nodes_spec.take(i + 1) == nodes_spec.take(i as int).push(nodes_spec[i as int]));
        i += 1;
    }
    assert(nodes_spec.take(snapshot.packages.len() as int) == nodes_spec);
    let leaf_packages = names_where(&nodes, 0);
    let root_packages = names_where(&nodes, 1);
    let redundant_packages = names_where(&nodes, 2);
    let mut warnings: Vec<String> = Vec::new();
    let mut j: usize = 0;
    while j < nodes.len()
        invariant
            j <= nodes.len(),
            node_views(nodes@) == nodes_spec,
            warnings.deep_view() == all_warnings(nodes_spec.take(j as int)),
        decreases nodes.len() - j,
    {
        warnings_for(&nodes[j], &mut warnings);
        assert(nodes_spec.take(j + 1).drop_last() == nodes_spec.take(j as int));
        j += 1;
    }
    assert(nodes_spec.take(nodes.len() as int) == nodes_spec);
    let suspicious_chains = sorted_unique(&warnings);
    DependencyInspection {
        nodes,
        leaf_packages,
        root_packages,
        redundant_packages,
        suspicious_chains,
    }
}

/// The warnings of an inspection.
pub fn dependency_chain_summary(inspection: &DependencyInspection) -> (r: Vec<String>)
    ensures
        r.deep_view() == inspection.suspicious_chains.deep_view(),
{
    clone_strings(&inspection.suspicious_chains)
}

/// A dependency token reduced to the package name.
pub fn normalize_dependency(value: &str) -> (r: String)
    ensures
        r@ == normalize_token(value@),
{
    normalize_dependency_token(value)
}


// ---------------------------------------------------------------------------
// Package families
// ---------------------------------------------------------------------------

pub open spec fn strip_prefix_spec(s: Seq<char>, p: Seq<char>) -> Option<Seq<char>> {
    if p.is_prefix_of(s) {
        Some(s.skip(p.len() as int))
    } else {
        None
    }
}

pub open spec fn strip_suffix_spec(s: Seq<char>, p: Seq<char>) -> Option<Seq<char>> {
    if p.len() <= s.len() && s.skip(s.len() - p.len()) == p {
        Some(s.take(s.len() - p.len()))
    } else {
        None
    }
}

pub open spec fn or_same(o: Option<Seq<char>>, s: Seq<char>) -> Seq<char> {
    match o {
        Some(t) => t,
        None => s,
    }
}

pub open spec fn family_suffixes() -> Seq<Seq<char>> {
    seq!["-git"@, "-svn"@, "-hg"@, "-cvs"@, "-bin"@, "-debug"@, "-lts"@]
}

/// `s` without the first suffix of the list that it ends with.
pub open spec fn strip_first_suffix(s: Seq<char>, sufs: Seq<Seq<char>>) -> Seq<char>
    decreases sufs.len(),
{
    if sufs.len() == 0 {
        s
    } else {
        match strip_suffix_spec(s, sufs[0]) {
            Some(t) => t,
            None => strip_first_suffix(s, sufs.drop_first()),
        }
    }
}

/// The family of a package: its name without `lib32-` in front, without the first
/// of `-git`, `-svn`, `-hg`, `-cvs`, `-bin`, `-debug`, `-lts` that ends it, then
/// without a final `-common`.
pub open spec fn family_of(name: Seq<char>) -> Seq<char> {
    let a = or_same(strip_prefix_spec(name, "lib32-"@), name);
    let b = strip_first_suffix(a, family_suffixes());
    or_same(strip_suffix_spec(b, "-common"@), b)
}

/// Whether `v[lo..hi]` ends with `suffix`; if so, where the rest ends.
fn strip_suffix_at(v: &Vec<char>, lo: usize, hi: usize, suffix: &str) -> (r: Option<usize>)
    requires
        lo <= hi <= v.len(),
    ensures
        match strip_suffix_spec(v@.subrange(lo as int, hi as int), suffix@) {
            Some(t) => r is Some && lo <= r->0 <= hi && t == v@.subrange(lo as int, r->0 as int),
            None => r is None,
        },
{
    let ghost s = v@.subrange(lo as int, hi as int);
    let pat = chars_of(suffix);
    if pat.len() > hi - lo {
        return None;
    }
    let cut = hi - pat.len();
    let hit = chars_eq_at(v, cut, hi, &pat);
    assert(s.skip(s.len() - pat.len()) == v@.subrange(cut as int, hi as int));
    assert(s.take(s.len() - pat.len()) == v@.subrange(lo as int, cut as int));
    if hit {
        Some(cut)
    } else {
        None
    }
}

fn family_bounds(v: &Vec<char>) -> (r: (usize, usize))
    ensures
        r.0 <= r.1 <= v.len(),
        v@.subrange(r.0 as int, r.1 as int) == family_of(v@),
{
    let n = v.len();
    assert(v@.subrange(0, n as int) == v@);
    let prefix = chars_of("lib32-");
    let lo = if starts_with_at(v, 0, n, &prefix) {
        prefix.len()
    } else {
        0
    };
    assert(v@.subrange(lo as int, n as int) == or_same(strip_prefix_spec(v@, "lib32-"@), v@));
    let ghost a = v@.subrange(lo as int, n as int);
    proof {
        reveal_with_fuel(strip_first_suffix, 8);
        assert(family_suffixes().drop_first() == seq!["-svn"@, "-hg"@, "-cvs"@, "-bin"@, "-debug"@, "-lts"@]);
    }
    let hi = if let Some(h) = strip_suffix_at(v, lo, n, "-git") {
        h
    } else if let Some(h) = strip_suffix_at(v, lo, n, "-svn") {
        h
    } else if let Some(h) = strip_suffix_at(v, lo, n, "-hg") {
        h
    } else if let Some(h) = strip_suffix_at(v, lo, n, "-cvs") {
        h
    } else if let Some(h) = strip_suffix_at(v, lo, n, "-bin") {
        h
    } else if let Some(h) = strip_suffix_at(v, lo, n, "-debug") {
        h
    } else if let Some(h) = strip_suffix_at(v, lo, n, "-lts") {
        h
    } else {
        n
    };
    proof {
        let sf = family_suffixes();
        assert(sf[0] == "-git"@);
        assert(sf.drop_first()[0] == "-svn"@);
        assert(sf.drop_first().drop_first()[0] == "-hg"@);
        assert(sf.drop_first().drop_first().drop_first()[0] == "-cvs"@);
        assert(sf.drop_first().drop_first().drop_first().drop_first()[0] == "-bin"@);
        assert(sf.drop_first().drop_first().drop_first().drop_first().drop_first()[0] == "-debug"@);
        assert(sf.drop_first().drop_first().drop_first().drop_first().drop_first().drop_first()[0]
            == "-lts"@);
        assert(sf.drop_first().drop_first().drop_first().drop_first().drop_first().drop_first().drop_first().len()
            == 0);
        assert(v@.subrange(lo as int, hi as int) == strip_first_suffix(a, sf));
    }
    let hi2 = match strip_suffix_at(v, lo, hi, "-common") {
        Some(h) => h,
        None => hi,
    };
    (lo, hi2)
}

/// The family of a package name.
pub fn package_family(name: &str) -> (r: String)
    ensures
        r@ == family_of(name@),
{
    let v = chars_of(name);
    let (lo, hi) = family_bounds(&v);
    string_of_range(&v, lo, hi)
}

pub open spec fn count_of(s: Seq<Seq<char>>, x: Seq<char>) -> nat
    decreases s.len(),
{
    if s.len() == 0 {
        0
    } else {
        count_of(s.drop_last(), x) + (if s.last() == x {
            1nat
        } else {
            0nat
        })
    }
}

proof fn lemma_count_of_contains(s: Seq<Seq<char>>, x: Seq<char>)
    ensures
        count_of(s, x) > 0 ==> s.contains(x),
        count_of(s, x) <= s.len(),
    decreases s.len(),
{
    if s.len() > 0 {
        lemma_count_of_contains(s.drop_last(), x);
        if count_of(s.drop_last(), x) > 0 {
            let i = choose|i: int| 0 <= i < s.drop_last().len() && s.drop_last()[i] == x;
            assert(s[i] == x);
        }
        if s.last() == x {
            assert(s[s.len() - 1] == x);
        }
    }
}

pub open spec fn families_of(pkgs: Seq<PackageView>) -> Seq<Seq<char>> {
    pkgs.map_values(|p: PackageView| family_of(p.name))
}

pub open spec fn family_names(r: Seq<(String, usize)>) -> Seq<Seq<char>> {
    r.map_values(|e: (String, usize)| e.0@)
}

fn count_in(list: &Vec<String>, x: &String) -> (c: usize)
    ensures
        c == count_of(list.deep_view(), x@),
{
    let ghost d = list.deep_view();
    let mut c: usize = 0;
    let mut i: usize = 0;
    while i < list.len()
        invariant
            i <= list.len(),
            d == list.deep_view(),
            c == count_of(d.take(i as int), x@),
        decreases list.len() - i,
    {
        proof {
            assert(d.take(i + 1).drop_last() == d.take(i as int));
            lemma_count_of_contains(d.take(i as int), x@);
        }
        if list[i] == *x {
            c = c + 1;
        }
        i += 1;
    }
    assert(d.take(list.len() as int) == d);
    c
}

/// The families with more than one package, by name, each with its number of packages.
pub fn dependency_family_counts(snapshot: &SystemSnapshot) -> (r: Vec<(String, usize)>)
    ensures
        strictly_sorted(family_names(r@)),
        forall|i: int|
            0 <= i < r.len() ==> #[trigger] r@[i].1 == count_of(
                families_of(package_views(snapshot.packages@)),
                r@[i].0@,
            ) && r@[i].1 > 1,
        forall|f: Seq<char>|
            count_of(families_of(package_views(snapshot.packages@)), f) > 1 ==> #[trigger] family_names(
                r@,
            ).contains(f),
{
    let ghost pv = package_views(snapshot.packages@);
    let mut fams: Vec<String> = Vec::new();
    let mut i: usize = 0;
    while i < snapshot.packages.len()
        invariant
            i <= snapshot.packages.len(),
            pv == package_views(snapshot.packages@),
            fams.deep_view() == families_of(pv).take(i as int),
        decreases snapshot.packages.len() - i,
    {
        fams.push(package_family(snapshot.packages[i].name.as_str()));
        assert(families_of(pv).take(i + 1) == families_of(pv).take(i as int).push(
            family_of(pv[i as int].name),
        ));
        i += 1;
    }
    assert(families_of(pv).take(snapshot.packages.len() as int) == families_of(pv));
    let ghost fs = families_of(pv);
    let uniq = sorted_unique(&fams);
    let ghost u = uniq.deep_view();
    let mut r: Vec<(String, usize)> = Vec::new();
    let mut j: usize = 0;
    while j < uniq.len()
        invariant
            j <= uniq.len(),
            fams.deep_view() == fs,
            u == uniq.deep_view(),
            strictly_sorted(u),
            u.to_set() == fs.to_set(),
            strictly_sorted(family_names(r@)),
            forall|a: int| 0 <= a < r.len() ==> u.take(j as int).contains(#[trigger] family_names(r@)[a]),
            forall|a: int|
                0 <= a < r.len() ==> #[trigger] r@[a].1 == count_of(fs, r@[a].0@) && r@[a].1 > 1,
            forall|b: int| 0 <= b < j && count_of(fs, u[b]) > 1 ==> family_names(r@).contains(#[trigger] u[b]),
        decreases uniq.len() - j,
    {
        let c = count_in(&fams, &uniq[j]);
        if c > 1 {
            let ghost before = r@;
            r.push((uniq[j].clone(), c));
            proof {
                let names = family_names(r@);
                assert(names == family_names(before).push(u[j as int]));
                assert forall|a: int, b: int| 0 <= a < b < names.len() implies seq_lt(
                    #[trigger] names[a],
                    #[trigger] names[b],
                ) by {
                    if b == names.len() - 1 {
                        assert(u.take(j as int).contains(family_names(before)[a]));
                        let k = choose|k: int| 0 <= k < j && u.take(j as int)[k] == family_names(before)[a];
                        assert(u[k] == u.take(j as int)[k]);
                        assert(seq_lt(u[k], u[j as int]));
                    } else {
                        assert(names[a] == family_names(before)[a]);
                        assert(names[b] == family_names(before)[b]);
                    }
                }
                assert forall|a: int| 0 <= a < r.len() implies u.take(j + 1).contains(
                    #[trigger] family_names(r@)[a],
                ) by {
                    if a == r.len() - 1 {
                        assert(family_names(r@)[a] == u[j as int]);
                        assert(u.take(j + 1)[j as int] == u[j as int]);
                    } else {
                        assert(u.take(j as int).contains(family_names(before)[a]));
                        let k = choose|k: int| 0 <= k < j && u.take(j as int)[k] == family_names(before)[a];
                        assert(u.take(j + 1)[k] == u.take(j as int)[k]);
                        assert(family_names(r@)[a] == family_names(before)[a]);
                    }
                }
                assert forall|b: int| 0 <= b < j + 1 && count_of(fs, u[b]) > 1 implies family_names(
                    r@,
                ).contains(#[trigger] u[b]) by {
                    if b == j {
                        assert(names[names.len() - 1] == u[b]);
                    } else {
                        let k = choose|k: int| 0 <= k < family_names(before).len() && family_names(before)[k] == u[b];
                        assert(names[k] == u[b]);
                    }
                }
            }
        } else {
            proof {
                assert forall|a: int| 0 <= a < r.len() implies u.take(j + 1).contains(
                    #[trigger] family_names(r@)[a],
                ) by {
                    assert(u.take(j as int).contains(family_names(r@)[a]));
                    let k = choose|k: int| 0 <= k < j && u.take(j as int)[k] == family_names(r@)[a];
                    assert(u.take(j + 1)[k] == u.take(j as int)[k]);
                }
            }
        }
        j += 1;
    }
    proof {
        assert forall|f: Seq<char>| count_of(fs, f) > 1 implies #[trigger] family_names(r@).contains(
            f,
        ) by {
            lemma_count_of_contains(fs, f);
            assert(fs.to_set().contains(f));
            assert(u.to_set().contains(f));
            let b = choose|b: int| 0 <= b < u.len() && u[b] == f;
            assert(count_of(fs, u[b]) > 1);
        }
    }
    r
}


// ---------------------------------------------------------------------------
// Following first dependencies
// ---------------------------------------------------------------------------

pub open spec fn pkg_names(pkgs: Seq<PackageView>) -> Seq<Seq<char>> {
    pkgs.map_values(|p: PackageView| p.name)
}

/// Index of the first package named `name`, or the number of packages.
pub open spec fn pkg_index(pkgs: Seq<PackageView>, name: Seq<char>) -> nat
    decreases pkgs.len(),
{
    if pkgs.len() == 0 || pkgs[0].name == name {
        0
    } else {
        1 + pkg_index(pkgs.drop_first(), name)
    }
}

/// The first dependency of the first package named `cur`, reduced to a name, when
/// an installed package has that name.
pub open spec fn next_in_chain(pkgs: Seq<PackageView>, cur: Seq<char>) -> Option<Seq<char>> {
    let k = pkg_index(pkgs, cur);
    if k < pkgs.len() && pkgs[k as int].depends_on.len() > 0 {
        let n = normalize_token(pkgs[k as int].depends_on[0]);
        if pkg_names(pkgs).contains(n) {
            Some(n)
        } else {
            None
        }
    } else {
        None
    }
}

/// The walk from `cur` along first dependencies, at most `fuel` steps; a name met
/// a second time ends it and is listed again.
pub open spec fn walk(pkgs: Seq<PackageView>, cur: Seq<char>, seen: Set<Seq<char>>, fuel: nat) -> Seq<
    Seq<char>,
>
    decreases fuel,
{
    if fuel == 0 {
        seq![]
    } else if seen.contains(cur) {
        seq![cur]
    } else {
        seq![cur] + match next_in_chain(pkgs, cur) {
            Some(n) => walk(pkgs, n, seen.insert(cur), (fuel - 1) as nat),
            None => seq![],
        }
    }
}

/// The walk of twelve steps from an installed package, when it is four names or longer.
pub open spec fn chain_of(pkgs: Seq<PackageView>, pkg: Seq<char>) -> Option<Seq<Seq<char>>> {
    if pkg_names(pkgs).contains(pkg) {
        let c = walk(pkgs, pkg, Set::empty(), 12);
        if c.len() >= 4 {
            Some(c)
        } else {
            None
        }
    } else {
        None
    }
}

proof fn lemma_pkg_index(pkgs: Seq<PackageView>, name: Seq<char>, k: int)
    requires
        0 <= k <= pkgs.len(),
        forall|i: int| 0 <= i < k ==> (#[trigger] pkgs[i]).name != name,
        k < pkgs.len() ==> pkgs[k].name == name,
    ensures
        pkg_index(pkgs, name) == k,
    decreases pkgs.len(),
{
    if pkgs.len() > 0 && pkgs[0].name != name {
        assert forall|i: int| 0 <= i < k - 1 implies (#[trigger] pkgs.drop_first()[i]).name != name by {
            assert(pkgs[i + 1].name != name);
        }
        lemma_pkg_index(pkgs.drop_first(), name, k - 1);
    }
}

fn has_package(snapshot: &SystemSnapshot, name: &String) -> (r: bool)
    ensures
        r == pkg_names(package_views(snapshot.packages@)).contains(name@),
{
    let ghost names = pkg_names(package_views(snapshot.packages@));
    let mut i: usize = 0;
    while i < snapshot.packages.len()
        invariant
            i <= snapshot.packages.len(),
            names == pkg_names(package_views(snapshot.packages@)),
            forall|j: int| 0 <= j < i ==> names[j] != name@,
        decreases snapshot.packages.len() - i,
    {
        if snapshot.packages[i].name == *name {
            assert(names[i as int] == name@);
            return true;
        }
        i += 1;
    }
    false
}

fn next_package(snapshot: &SystemSnapshot, cur: &String) -> (r: Option<String>)
    ensures
        r.deep_view() == next_in_chain(package_views(snapshot.packages@), cur@),
{
    let ghost pv = package_views(snapshot.packages@);
    let mut i: usize = 0;
    while i < snapshot.packages.len() && snapshot.packages[i].name != *cur
        invariant
            i <= snapshot.packages.len(),
            pv == package_views(snapshot.packages@),
            forall|j: int| 0 <= j < i ==> (#[trigger] pv[j]).name != cur@,
        decreases snapshot.packages.len() - i,
    {
        i += 1;
    }
    proof {
        lemma_pkg_index(pv, cur@, i as int);
    }
    if i == snapshot.packages.len() {
        return None;
    }
    let p = &snapshot.packages[i];
    assert(p.depends_on.deep_view().len() == p.depends_on.len());
    if p.depends_on.len() == 0 {
        return None;
    }
    let n = normalize_dependency(p.depends_on[0].as_str());
    if has_package(snapshot, &n) {
        Some(n)
    } else {
        None
    }
}

/// The chain of first dependencies from `package`, when it is at least four names long.
pub fn suspicious_chain_for_package(package: &str, snapshot: &SystemSnapshot) -> (r: Option<
    Vec<String>,
>)
    ensures
        r.deep_view() == chain_of(package_views(snapshot.packages@), package@),
{
    let ghost pv = package_views(snapshot.packages@);
    let start = String::from_str(package);
    if !has_package(snapshot, &start) {
        return None;
    }
    let ghost whole = walk(pv, package@, Set::empty(), 12);
    let mut chain: Vec<String> = Vec::new();
    let mut current = start;
    let mut seen: Vec<String> = Vec::new();
    let mut steps: usize = 0;
    assert(seen.deep_view().to_set() =~= Set::<Seq<char>>::empty());
    while steps < 12
        invariant_except_break
            steps <= 12,
            pv == package_views(snapshot.packages@),
            whole == walk(pv, package@, Set::empty(), 12),
            chain.deep_view() + walk(pv, current@, seen.deep_view().to_set(), (12 - steps) as nat)
                == whole,
            steps == 12 ==> chain.deep_view() == whole,
        ensures
            chain.deep_view() == whole,
        decreases 12 - steps,
    {
        let ghost rest = walk(pv, current@, seen.deep_view().to_set(), (12 - steps) as nat);
        if contains_string(&seen, &current) {
            assert(seen.deep_view().to_set().contains(current@));
            let ghost before = chain.deep_view();
            chain.push(current.clone());
            assert(chain.deep_view() =~= before + rest);
            break;
        }
        proof {
            if seen.deep_view().to_set().contains(current@) {
                let k = choose|k: int| 0 <= k < seen.deep_view().len() && seen.deep_view()[k] == current@;
                assert(seen.deep_view().contains(current@));
            }
        }
        let ghost old_seen = seen.deep_view();
        seen.push(current.clone());
        proof {
            assert(seen.deep_view() == old_seen.push(current@));
            assert(seen.deep_view() =~= old_seen + seq![current@]);
            Seq::<Seq<char>>::lemma_to_set_insert_commutes(old_seen, current@);
        }
        let ghost before = chain.deep_view();
        chain.push(current.clone());
        let next = next_package(snapshot, &current);
        match next {
            Some(n) => {
                proof {
                    assert(rest == seq![current@] + walk(
                        pv,
                        n@,
                        old_seen.to_set().insert(current@),
                        (12 - steps - 1) as nat,
                    ));
                    assert(chain.deep_view() == before.push(current@));
                    assert(before + rest == before.push(current@) + walk(
                        pv,
                        n@,
                        seen.deep_view().to_set(),
                        (12 - steps - 1) as nat,
                    ));
                }
                current = n;
            },
            None => {
                assert(rest == seq![current@] + Seq::<Seq<char>>::empty());
                assert(chain.deep_view() =~= before + rest);
                break;
            },
        }
        steps += 1;
        proof {
            if steps == 12 {
                let w = walk(pv, current@, seen.deep_view().to_set(), 0);
                assert(w == Seq::<Seq<char>>::empty());
                assert(chain.deep_view() + w =~= chain.deep_view());
            }
        }
    }
    if chain.len() >= 4 {
        Some(chain)
    } else {
        None
    }
}

} // verus!
