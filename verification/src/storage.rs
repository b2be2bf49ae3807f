use vstd::prelude::*;

use crate::analyzer::SystemAnalysis;
use crate::deps::pkg_names;
use crate::pacman::package_views;
use crate::text::{seq_lt, sorted_unique, strictly_sorted};

verus! {

/// One recorded analysis.
#[derive(Debug, Clone)]
pub struct HistoryEntry {
    pub collected_at: String,
    pub analysis: SystemAnalysis,
}

/// All recorded analyses, oldest first.
#[derive(Debug, Clone)]
pub struct HistoryFile {
    pub entries: Vec<HistoryEntry>,
}

impl HistoryFile {
    /// Appends an analysis, recorded at the time its snapshot was taken.
    pub fn record(&mut self, analysis: SystemAnalysis)
        ensures
            final(self).entries.len() == old(self).entries.len() + 1,
            forall|i: int|
                0 <= i < old(self).entries.len() ==> #[trigger] final(self).entries@[i]
                    == old(self).entries@[i],
            final(self).entries@.last().analysis == analysis,
            final(self).entries@.last().collected_at@ == analysis.snapshot.generated_at@,
    {
        let collected_at = analysis.snapshot.generated_at.clone();
        self.entries.push(HistoryEntry { collected_at, analysis });
    }
}

impl Default for HistoryFile {
    fn default() -> (h: HistoryFile)
        ensures
            h.entries.len() == 0,
    {
        HistoryFile { entries: Vec::new() }
    }
}

/// How the last two recorded analyses differ.
#[derive(Debug, Clone)]
pub struct HistoryDelta {
    pub current_packages: usize,
    pub previous_packages: usize,
    pub added_packages: Vec<String>,
    pub removed_packages: Vec<String>,
    pub health_delta: i16,
    pub orphan_delta: i16,
    pub size_delta_bytes: i128,
}

/// The names of the packages in an analysed snapshot.
pub open spec fn names_in(a: SystemAnalysis) -> Set<Seq<char>> {
    pkg_names(package_views(a.snapshot.packages@)).to_set()
}

/// The difference in orphans stays within `i16`, as the subtraction needs.
pub open spec fn orphan_delta_fits(current: SystemAnalysis, previous: SystemAnalysis) -> bool {
    i16::MIN <= (current.cleanup.orphans.len() as i16) - (previous.cleanup.orphans.len() as i16)
        <= i16::MAX
}

/// `d` is how the analysis `cur` differs from the analysis `prev`: package counts,
/// added and removed packages (sorted, each once), and changes in health score,
/// orphans and installed size.
pub open spec fn delta_of(d: HistoryDelta, cur: SystemAnalysis, prev: SystemAnalysis) -> bool {
    &&& d.current_packages == cur.stats.total_packages
    &&& d.previous_packages == prev.stats.total_packages
    &&& strictly_sorted(d.added_packages.deep_view())
    &&& d.added_packages.deep_view().to_set() == names_in(cur).difference(names_in(prev))
    &&& strictly_sorted(d.removed_packages.deep_view())
    &&& d.removed_packages.deep_view().to_set() == names_in(prev).difference(names_in(cur))
    &&& d.health_delta == cur.health_score as int - prev.health_score as int
    &&& d.orphan_delta == (cur.cleanup.orphans.len() as i16) - (prev.cleanup.orphans.len() as i16)
    &&& d.size_delta_bytes == cur.stats.total_size_bytes as int - prev.stats.total_size_bytes as int
}

pub open spec fn history_fits(h: HistoryFile) -> bool {
    h.entries.len() >= 2 ==> orphan_delta_fits(
        h.entries@[h.entries.len() - 1].analysis,
        h.entries@[h.entries.len() - 2].analysis,
    )
}

fn package_names(analysis: &SystemAnalysis) -> (r: Vec<String>)
    ensures
        strictly_sorted(r.deep_view()),
        r.deep_view().to_set() == names_in(*analysis),
{
    let ghost pv = package_views(analysis.snapshot.packages@);
    let mut names: Vec<String> = Vec::new();
    let mut i: usize = 0;
    while i < analysis.snapshot.packages.len()
        invariant
            i <= analysis.snapshot.packages.len(),
            pv == package_views(analysis.snapshot.packages@),
            names.deep_view() == pkg_names(pv).take(i as int),
        decreases analysis.snapshot.packages.len() - i,
    {
        names.push(analysis.snapshot.packages[i].name.clone());
        assert(pkg_names(pv).take(i + 1) == pkg_names(pv).take(i as int).push(pv[i as int].name));
        i += 1;
    }
    assert(pkg_names(pv).take(analysis.snapshot.packages.len() as int) == pkg_names(pv));
    sorted_unique(&names)
}

fn in_sorted(list: &Vec<String>, x: &String) -> (r: bool)
    ensures
        r == list.deep_view().to_set().contains(x@),
{
    let mut i: usize = 0;
    while i < list.len()
        invariant
            i <= list.len(),
            forall|j: int| 0 <= j < i ==> list.deep_view()[j] != x@,
        decreases list.len() - i,
    {
        if list[i] == *x {
            assert(list.deep_view()[i as int] == x@);
            return true;
        }
        i += 1;
    }
    false
}

/// The strings of the strictly sorted `a` that `b` lacks, in order.
fn sorted_difference(a: &Vec<String>, b: &Vec<String>) -> (r: Vec<String>)
    requires
        strictly_sorted(a.deep_view()),
    ensures
        strictly_sorted(r.deep_view()),
        r.deep_view().to_set() == a.deep_view().to_set().difference(b.deep_view().to_set()),
{
    let ghost av = a.deep_view();
    let ghost bs = b.deep_view().to_set();
    let mut r: Vec<String> = Vec::new();
    let mut i: usize = 0;
    while i < a.len()
        invariant
            i <= a.len(),
            av == a.deep_view(),
            bs == b.deep_view().to_set(),
            strictly_sorted(av),
            strictly_sorted(r.deep_view()),
            forall|k: int| 0 <= k < r.len() ==> av.take(i as int).contains(#[trigger] r.deep_view()[k]),
            r.deep_view().to_set() == av.take(i as int).to_set().difference(bs),
        decreases a.len() - i,
    {
        let x = &a[i];
        let keep = !in_sorted(b, x);
        let ghost before = r.deep_view();
        proof {
            assert(av.take(i + 1) =~= av.take(i as int) + seq![av[i as int]]);
            Seq::<Seq<char>>::lemma_to_set_insert_commutes(av.take(i as int), av[i as int]);
        }
        if keep {
            r.push(x.clone());
            proof {
                let rv = r.deep_view();
                assert(rv == before.push(x@));
                assert forall|p: int, q: int| 0 <= p < q < rv.len() implies seq_lt(
                    #[trigger] rv[p],
                    #[trigger] rv[q],
                ) by {
                    if q == rv.len() - 1 {
                        assert(av.take(i as int).contains(before[p]));
                        let k = choose|k: int| 0 <= k < i && av.take(i as int)[k] == before[p];
                        assert(av[k] == before[p]);
                    } else {
                        assert(rv[p] == before[p]);
                        assert(rv[q] == before[q]);
                    }
                }
                assert forall|k: int| 0 <= k < rv.len() implies av.take(i + 1).contains(
                    #[trigger] rv[k],
                ) by {
                    if k == rv.len() - 1 {
                        assert(av.take(i + 1)[i as int] == rv[k]);
                    } else {
                        assert(av.take(i as int).contains(before[k]));
                        let m = choose|m: int| 0 <= m < i && av.take(i as int)[m] == before[k];
                        assert(av.take(i + 1)[m] == before[k]);
                    }
                }
                Seq::<Seq<char>>::lemma_to_set_insert_commutes(before, x@);
                assert(rv =~= before + seq![x@]);
                assert(rv.to_set() =~= av.take(i + 1).to_set().difference(bs));
            }
        } else {
            proof {
                assert forall|k: int| 0 <= k < before.len() implies av.take(i + 1).contains(
                    #[trigger] before[k],
                ) by {
                    assert(av.take(i as int).contains(before[k]));
                    let m = choose|m: int| 0 <= m < i && av.take(i as int)[m] == before[k];
                    assert(av.take(i + 1)[m] == before[k]);
                }
                assert(before.to_set() =~= av.take(i + 1).to_set().difference(bs));
            }
        }
        i += 1;
    }
    assert(av.take(a.len() as int) == av);
    r
}

/// How the last recorded analysis differs from the one before it: package counts,
/// added and removed packages (sorted, each once), and changes in health score,
/// orphans and installed size. `None` with fewer than two entries.
pub fn compare_recent(history: &HistoryFile) -> (r: Option<HistoryDelta>)
    requires
        history_fits(*history),
    ensures
        r is Some <==> history.entries.len() >= 2,
        r matches Some(d) ==> delta_of(
            d,
            history.entries@[history.entries.len() - 1].analysis,
            history.entries@[history.entries.len() - 2].analysis,
        ),
{
    let n = history.entries.len();
    if n < 2 {
        return None;
    }
    let current = &history.entries[n - 1].analysis;
    let previous = &history.entries[n - 2].analysis;
    let current_names = package_names(current);
    let previous_names = package_names(previous);
    let added_packages = sorted_difference(&current_names, &previous_names);
    let removed_packages = sorted_difference(&previous_names, &current_names);
    let current_size = current.stats.total_size_bytes as i128;
    let previous_size = previous.stats.total_size_bytes as i128;
    let current_orphans = current.cleanup.orphans.len() as i16;
    let previous_orphans = previous.cleanup.orphans.len() as i16;
    Some(
        HistoryDelta {
            current_packages: current.stats.total_packages,
            previous_packages: previous.stats.total_packages,
            added_packages,
            removed_packages,
            health_delta: current.health_score as i16 - previous.health_score as i16,
            orphan_delta: current_orphans - previous_orphans,
            size_delta_bytes: current_size - previous_size,
        },
    )
}

} // verus!
