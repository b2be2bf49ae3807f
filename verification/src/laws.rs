use vstd::prelude::*;

use crate::analyzer::{
    advice_of, bloat_of, cache_penalty, cache_warning_of, confidence_of, first_heavy,
    health_advice, health_of, heavy_penalty, inventory_pressure, orphan_penalty, penalties_of,
    penalty_line, redundant_penalty, size_gib_pressure, size_penalty, unused_penalty,
    SystemAnalysis,
};
use crate::report::{bloat_shade, cache_shade, orphan_shade, score_shade, Shade};
use crate::tables::{
    cache_rows, dashboard_disk_spec, dashboard_health_spec, heaviest_rows, history_spec,
};
use crate::cleanup::{
    assessment_of, item_names, item_of, item_total, item_views, line_if, orphan_items, orphan_pred,
    size_order,
    unneeded_items, unneeded_pred, CleanupAssessment, ItemView,
};
use crate::deps::{
    all_warnings, chain_of, inspection_of, leaf_pred, next_in_chain, node_names, node_of,
    node_views, node_warnings, pkg_names, redundant_pred, root_pred, walk, DependencyInspection,
    NodeView,
};
use crate::order::{is_perm, is_stable_sort, stable_sort_with, strict_weak_order};
use crate::pacman::{
    action_views, after_verb, all_digits, digits_value, du_size, is_digit, is_none_word,
    keep_token_pred, log_action, normalize_token, token_list, unsigned_digits, version_cut_pred,
    ActionView, InstallReason, PackageView,
};
use crate::scan::{missing_of, missing_of_package};
use crate::stats::{
    bucket_bounds, bucket_of, bucket_views, buckets_of, count_reason, entries_of, entry_of,
    entry_order,
    entry_views, format_bytes_spec, heavy_of, heavy_pred, lemma_entry_order, median_of_sorted,
    sizes_of, stats_of, take_at_most, total_size, EntryView, PackageStats,
};
use crate::storage::{delta_of, HistoryDelta, HistoryEntry};
use crate::text::{
    dec, digit_char, is_ws, join, lemma_rrun_len, lemma_rrun_len_unique, lemma_run_len,
    lemma_run_len_unique, lemma_seq_lt_irreflexive, lemma_seq_lt_transitive, lemma_words_unfold,
    non_ws_pred, rrun_len, run_len, seq_lt, split_once, strictly_sorted, trim_pred, trim_start,
    words, ws_pred,
};

verus! {

// ---------------------------------------------------------------------------
// Statistics
// ---------------------------------------------------------------------------

proof fn lemma_buckets_partition_rec(pkgs: Seq<PackageView>)
    ensures
        bucket_of(pkgs, 0, 1048576).0 + bucket_of(pkgs, 1048576, 25000000).0 + bucket_of(
            pkgs,
            25000000,
            100000000,
        ).0 + bucket_of(pkgs, 100000000, 500000000).0 + bucket_of(
            pkgs,
            500000000,
            0x1_0000_0000_0000_0000,
        ).0 == pkgs.len(),
        bucket_of(pkgs, 0, 1048576).1 + bucket_of(pkgs, 1048576, 25000000).1 + bucket_of(
            pkgs,
            25000000,
            100000000,
        ).1 + bucket_of(pkgs, 100000000, 500000000).1 + bucket_of(
            pkgs,
            500000000,
            0x1_0000_0000_0000_0000,
        ).1 == total_size(pkgs),
    decreases pkgs.len(),
{
    if pkgs.len() > 0 {
        lemma_buckets_partition_rec(pkgs.drop_last());
    }
}

/// Every package falls in exactly one size bucket: the bucket counts add up to the
/// number of packages and the bucket totals to the total size.
pub proof fn law_buckets_partition(pkgs: Seq<PackageView>)
    ensures
        buckets_of(pkgs).len() == 5,
        buckets_of(pkgs)[0].1 + buckets_of(pkgs)[1].1 + buckets_of(pkgs)[2].1 + buckets_of(pkgs)[3].1
            + buckets_of(pkgs)[4].1 == pkgs.len(),
        buckets_of(pkgs)[0].2 + buckets_of(pkgs)[1].2 + buckets_of(pkgs)[2].2 + buckets_of(pkgs)[3].2
            + buckets_of(pkgs)[4].2 == total_size(pkgs),
{
    lemma_buckets_partition_rec(pkgs);
}

/// No more packages are counted as explicit or as dependencies than there are.
pub proof fn law_reason_counts(pkgs: Seq<PackageView>)
    ensures
        count_reason(pkgs, InstallReason::Explicit) + count_reason(pkgs, InstallReason::Dependency)
            <= pkgs.len(),
    decreases pkgs.len(),
{
    if pkgs.len() > 0 {
        law_reason_counts(pkgs.drop_last());
    }
}

/// A stable sort in the order of the size listing puts larger packages first.
pub proof fn law_sorted_sizes_descend(sorted: Seq<EntryView>, orig: Seq<EntryView>)
    requires
        is_stable_sort(sorted, orig, entry_order()),
    ensures
        forall|i: int, j: int|
            0 <= i < j < sorted.len() ==> (#[trigger] sorted[i]).size_bytes >= (
            #[trigger] sorted[j]).size_bytes,
{
    assert forall|i: int, j: int| 0 <= i < j < sorted.len() implies (
    #[trigger] sorted[i]).size_bytes >= (#[trigger] sorted[j]).size_bytes by {
        assert(!entry_order()(sorted[j], sorted[i]));
    }
}

/// The median of sizes sorted in ascending order lies between the smallest and the
/// largest of them.
pub proof fn law_median_within_range(asc: Seq<u64>)
    requires
        asc.len() > 0,
        forall|i: int, j: int| 0 <= i <= j < asc.len() ==> asc[i] <= asc[j],
    ensures
        asc[0] <= median_of_sorted(asc) <= asc[asc.len() - 1],
{
    let m = asc.len() / 2;
    if asc.len() % 2 == 0 {
        assert(asc[0] <= asc[m - 1] && asc[m - 1] <= asc[m as int] && asc[m as int] <= asc[asc.len()
            - 1]);
    } else {
        assert(asc[0] <= asc[m as int] && asc[m as int] <= asc[asc.len() - 1]);
    }
}

proof fn lemma_total_bounds(pkgs: Seq<PackageView>, lo: nat, hi: nat)
    requires
        forall|i: int| 0 <= i < pkgs.len() ==> lo <= #[trigger] pkgs[i].installed_size_bytes <= hi,
    ensures
        pkgs.len() * lo <= total_size(pkgs) <= pkgs.len() * hi,
    decreases pkgs.len(),
{
    if pkgs.len() > 0 {
        let init = pkgs.drop_last();
        assert forall|i: int| 0 <= i < init.len() implies lo <= #[trigger] init[i].installed_size_bytes
            <= hi by {
            assert(init[i] == pkgs[i]);
        }
        lemma_total_bounds(init, lo, hi);
        assert(lo <= pkgs.last().installed_size_bytes <= hi);
        assert(pkgs.len() * lo == init.len() * lo + lo) by (nonlinear_arith)
            requires
                pkgs.len() == init.len() + 1,
        ;
        assert(pkgs.len() * hi == init.len() * hi + hi) by (nonlinear_arith)
            requires
                pkgs.len() == init.len() + 1,
        ;
    }
}

/// When every package takes between `lo` and `hi` bytes, so does the average size.
pub proof fn law_average_within_range(pkgs: Seq<PackageView>, lo: nat, hi: nat)
    requires
        pkgs.len() > 0,
        forall|i: int| 0 <= i < pkgs.len() ==> lo <= #[trigger] pkgs[i].installed_size_bytes <= hi,
    ensures
        lo <= total_size(pkgs) / pkgs.len() <= hi,
{
    lemma_total_bounds(pkgs, lo, hi);
    let n = pkgs.len();
    let t = total_size(pkgs);
    assert(lo <= t / n <= hi) by (nonlinear_arith)
        requires
            n > 0,
            n * lo <= t <= n * hi,
    {
        vstd::arithmetic::div_mod::lemma_div_is_ordered((n * lo) as int, t as int, n as int);
        vstd::arithmetic::div_mod::lemma_div_is_ordered(t as int, (n * hi) as int, n as int);
        vstd::arithmetic::div_mod::lemma_div_multiples_vanish(lo as int, n as int);
        vstd::arithmetic::div_mod::lemma_div_multiples_vanish(hi as int, n as int);
    }
}

// ---------------------------------------------------------------------------
// Scores
// ---------------------------------------------------------------------------

/// The bloat score stays between 0 and 83, and with packages installed the health
/// score is what the bloat score leaves of 100.
pub proof fn law_health_complements_bloat(
    orphans: usize,
    unused: usize,
    heavy: usize,
    redundant: usize,
    total: nat,
    packages: nat,
    cache: Option<u64>,
)
    ensures
        0 <= bloat_of(orphans, unused, heavy, redundant, total, packages, cache) <= 83,
        packages > 0 ==> health_of(
            packages,
            bloat_of(orphans, unused, heavy, redundant, total, packages, cache),
        ) + bloat_of(orphans, unused, heavy, redundant, total, packages, cache) == 100,
        packages == 0 ==> health_of(
            packages,
            bloat_of(orphans, unused, heavy, redundant, total, packages, cache),
        ) == 0,
{
}

// ---------------------------------------------------------------------------
// Tokens
// ---------------------------------------------------------------------------

/// Reducing a token to a package name twice gives what reducing it once gives.
pub proof fn law_normalize_token_idempotent(tok: Seq<char>)
    ensures
        normalize_token(normalize_token(tok)) == normalize_token(tok),
{
    let head = tok.take(run_len(tok, version_cut_pred()) as int);
    lemma_run_len(tok, version_cut_pred());
    let p = trim_pred(true);
    let t = head.skip(run_len(head, p) as int);
    lemma_run_len(head, p);
    lemma_rrun_len(t, p);
    let r = t.take(t.len() - rrun_len(t, p));
    assert(r == normalize_token(tok));
    assert forall|i: int| 0 <= i < r.len() implies #[trigger] version_cut_pred()(r[i]) by {
        assert(r[i] == head[run_len(head, p) + i]);
        assert(head[run_len(head, p) + i] == tok[run_len(head, p) + i]);
    }
    lemma_run_len_unique(r, version_cut_pred(), r.len() as int);
    assert(r.take(r.len() as int) == r);
    if r.len() > 0 {
        assert(r[0] == t[0]);
        lemma_run_len_unique(r, p, 0);
        assert(r.skip(0) == r);
        assert(r[r.len() - 1] == t[t.len() - rrun_len(t, p) - 1]);
        lemma_rrun_len_unique(r, p, 0);
    } else {
        lemma_run_len_unique(r, p, 0);
        lemma_rrun_len_unique(r, p, 0);
        assert(r.skip(0) == r);
    }
    assert(r.take(r.len() - 0) == r);
}


/// A token reduced to a package name holds no `<`, `>` or `=`, neither starts nor
/// ends with `,`, `:` or white space, and is a piece of the token, taken from where
/// its leading separators end.
pub proof fn law_normalized_token_shape(tok: Seq<char>)
    ensures
        forall|i: int|
            0 <= i < normalize_token(tok).len() ==> {
                let c = #[trigger] normalize_token(tok)[i];
                c != '<' && c != '>' && c != '='
            },
        normalize_token(tok).len() > 0 ==> !trim_pred(true)(normalize_token(tok)[0]),
        normalize_token(tok).len() > 0 ==> !trim_pred(true)(
            normalize_token(tok)[normalize_token(tok).len() - 1],
        ),
        exists|k: int|
            0 <= k && k + normalize_token(tok).len() <= tok.len() && #[trigger] tok.subrange(
                k,
                k + normalize_token(tok).len(),
            ) == normalize_token(tok),
{
    let head = tok.take(run_len(tok, version_cut_pred()) as int);
    lemma_run_len(tok, version_cut_pred());
    let p = trim_pred(true);
    let a = run_len(head, p) as int;
    let t = head.skip(a);
    lemma_run_len(head, p);
    lemma_rrun_len(t, p);
    let r = t.take(t.len() - rrun_len(t, p));
    assert(r == normalize_token(tok));
    assert forall|i: int| 0 <= i < r.len() implies {
        let c = #[trigger] r[i];
        c != '<' && c != '>' && c != '='
    } by {
        assert(r[i] == head[a + i]);
        assert(head[a + i] == tok[a + i]);
        assert(version_cut_pred()(tok[a + i]));
    }
    if r.len() > 0 {
        assert(r[0] == t[0]);
        assert(r[r.len() - 1] == t[t.len() - rrun_len(t, p) - 1]);
    }
    assert(tok.subrange(a, a + r.len()) == r);
}

/// Every name read from a list field of `pacman -Qi` is non-empty, is not `None`,
/// and is already reduced to a package name.
pub proof fn law_list_tokens_are_names(raw: Seq<char>)
    ensures
        forall|i: int|
            0 <= i < token_list(raw).len() ==> {
                let t = #[trigger] token_list(raw)[i];
                &&& t.len() > 0
                &&& t != "None"@
                &&& normalize_token(t) == t
            },
{
    if !(raw.len() == 0 || is_none_word(raw)) {
        let mapped = words(raw).map_values(|w: Seq<char>| normalize_token(w));
        assert forall|i: int| 0 <= i < token_list(raw).len() implies {
            let t = #[trigger] token_list(raw)[i];
            &&& t.len() > 0
            &&& t != "None"@
            &&& normalize_token(t) == t
        } by {
            let t = token_list(raw)[i];
            mapped.lemma_filter_pred(keep_token_pred(), i);
            mapped.lemma_filter_contains_rev(keep_token_pred(), t);
            let j = choose|j: int| 0 <= j < mapped.len() && mapped[j] == t;
            law_normalize_token_idempotent(words(raw)[j]);
        }
    }
}

proof fn lemma_first_word_nonempty(s: Seq<char>)
    ensures
        words(s).len() > 0 ==> words(s)[0].len() > 0,
{
    lemma_words_unfold(s);
    if trim_start(s).len() > 0 {
        let t = trim_start(s);
        let k = run_len(t, non_ws_pred());
        assert(words(s)[0] == t.take(k as int));
    }
}

/// Every action read from a pacman log line installs, upgrades, downgrades or
/// reinstalls a package with a non-empty name.
pub proof fn law_log_actions_are_package_changes(line: Seq<char>)
    ensures
        log_action(line) matches Some(a) ==> {
            &&& (a.1 == "installed"@ || a.1 == "upgraded"@ || a.1 == "downgraded"@ || a.1
                == "reinstalled"@)
            &&& a.2.len() > 0
        },
{
    match split_once(line, "] [ALPM] "@) {
        Some((tp, rest)) => {
            if after_verb(rest, "installed"@) is Some {
                lemma_first_word_nonempty(after_verb(rest, "installed"@)->0);
            } else if after_verb(rest, "upgraded"@) is Some {
                lemma_first_word_nonempty(after_verb(rest, "upgraded"@)->0);
            } else if after_verb(rest, "downgraded"@) is Some {
                lemma_first_word_nonempty(after_verb(rest, "downgraded"@)->0);
            } else if after_verb(rest, "reinstalled"@) is Some {
                lemma_first_word_nonempty(after_verb(rest, "reinstalled"@)->0);
            }
        },
        None => {},
    }
}

// ---------------------------------------------------------------------------
// Cleanup
// ---------------------------------------------------------------------------

/// No package is both an orphan and an unused dependency.
pub proof fn law_orphans_and_unused_disjoint(pkgs: Seq<PackageView>, orphans: Seq<Seq<char>>)
    ensures
        forall|i: int, j: int|
            0 <= i < orphan_items(pkgs, orphans).len() && 0 <= j < unneeded_items(
                pkgs,
                orphans,
            ).len() ==> (#[trigger] orphan_items(pkgs, orphans)[i]).name != (
            #[trigger] unneeded_items(pkgs, orphans)[j]).name,
{
    let fo = pkgs.filter(orphan_pred(orphans));
    let fu = pkgs.filter(unneeded_pred(orphans));
    assert forall|i: int, j: int|
        0 <= i < orphan_items(pkgs, orphans).len() && 0 <= j < unneeded_items(
            pkgs,
            orphans,
        ).len() implies (#[trigger] orphan_items(pkgs, orphans)[i]).name != (
    #[trigger] unneeded_items(pkgs, orphans)[j]).name by {
        fo.len();
        pkgs.lemma_filter_pred(orphan_pred(orphans), i);
        pkgs.lemma_filter_pred(unneeded_pred(orphans), j);
        assert(orphan_items(pkgs, orphans)[i] == item_of(fo[i]));
        assert(unneeded_items(pkgs, orphans)[j] == item_of(fu[j]));
    }
}

/// A strictly sorted list names nothing twice.
pub proof fn law_strictly_sorted_no_duplicates(s: Seq<Seq<char>>)
    requires
        strictly_sorted(s),
    ensures
        s.no_duplicates(),
{
    assert forall|i: int, j: int| 0 <= i < s.len() && 0 <= j < s.len() && i != j implies s[i]
        != s[j] by {
        if i < j {
            assert(seq_lt(s[i], s[j]));
            lemma_seq_lt_irreflexive(s[i]);
        } else {
            assert(seq_lt(s[j], s[i]));
            lemma_seq_lt_irreflexive(s[j]);
        }
    }
}

proof fn lemma_item_total_remove(s: Seq<ItemView>, k: int)
    requires
        0 <= k < s.len(),
    ensures
        item_total(s) == item_total(s.remove(k)) + s[k].size_bytes,
    decreases s.len(),
{
    if k == s.len() - 1 {
        assert(s.remove(k) == s.drop_last());
    } else {
        lemma_item_total_remove(s.drop_last(), k);
        assert(s.remove(k).drop_last() == s.drop_last().remove(k));
        assert(s.remove(k).last() == s.last());
    }
}

/// Taking the last element out of a rearrangement: it stands at some index `k` of
/// `sorted`, and the rest of `sorted` is a rearrangement of the rest of `orig`.
proof fn lemma_perm_step<T>(sorted: Seq<T>, orig: Seq<T>, perm: Seq<int>) -> (r: (int, Seq<int>))
    requires
        sorted.len() == orig.len(),
        orig.len() > 0,
        is_perm(perm, orig.len() as int),
        forall|i: int| 0 <= i < sorted.len() ==> #[trigger] sorted[i] == orig[perm[i]],
    ensures
        0 <= r.0 < sorted.len(),
        sorted[r.0] == orig.last(),
        sorted.remove(r.0).len() == orig.drop_last().len(),
        is_perm(r.1, orig.len() - 1),
        forall|i: int|
            0 <= i < sorted.len() - 1 ==> #[trigger] sorted.remove(r.0)[i] == orig.drop_last()[r.1[i]],
{
    let n = orig.len() as int;
    assert(exists|k: int| 0 <= k < n && perm[k] == n - 1) by {
        lemma_perm_onto(perm, n, n - 1);
    }
    let k = choose|k: int| 0 <= k < n && perm[k] == n - 1;
    let s2 = sorted.remove(k);
    let p2 = Seq::new(
        (n - 1) as nat,
        |i: int|
            if i < k {
                perm[i]
            } else {
                perm[i + 1]
            },
    );
    assert forall|i: int| 0 <= i < n - 1 implies 0 <= #[trigger] p2[i] < n - 1 by {
        let q = if i < k {
            i
        } else {
            i + 1
        };
        assert(p2[i] == perm[q]);
        assert(perm[q] != perm[k]);
    }
    assert forall|i: int, j: int| 0 <= i < j < n - 1 implies #[trigger] p2[i] != #[trigger] p2[j] by {
        let a = if i < k {
            i
        } else {
            i + 1
        };
        let b = if j < k {
            j
        } else {
            j + 1
        };
        assert(perm[a] != perm[b]);
    }
    assert forall|i: int| 0 <= i < n - 1 implies #[trigger] s2[i] == orig.drop_last()[p2[i]] by {
        if i < k {
            assert(s2[i] == sorted[i]);
        } else {
            assert(s2[i] == sorted[i + 1]);
        }
    }
    (k, p2)
}

proof fn lemma_perm_total(sorted: Seq<ItemView>, orig: Seq<ItemView>, perm: Seq<int>)
    requires
        sorted.len() == orig.len(),
        is_perm(perm, orig.len() as int),
        forall|i: int| 0 <= i < sorted.len() ==> #[trigger] sorted[i] == orig[perm[i]],
    ensures
        item_total(sorted) == item_total(orig),
    decreases orig.len(),
{
    if orig.len() > 0 {
        let (k, p2) = lemma_perm_step(sorted, orig, perm);
        lemma_perm_total(sorted.remove(k), orig.drop_last(), p2);
        lemma_item_total_remove(sorted, k);
    }
}

proof fn lemma_bucket_remove(s: Seq<PackageView>, k: int, lo: nat, hi: nat)
    requires
        0 <= k < s.len(),
    ensures
        bucket_of(s, lo, hi) == (if lo <= s[k].installed_size_bytes < hi {
            (
                bucket_of(s.remove(k), lo, hi).0 + 1,
                bucket_of(s.remove(k), lo, hi).1 + s[k].installed_size_bytes as nat,
            )
        } else {
            bucket_of(s.remove(k), lo, hi)
        }),
    decreases s.len(),
{
    if k == s.len() - 1 {
        assert(s.remove(k) == s.drop_last());
    } else {
        lemma_bucket_remove(s.drop_last(), k, lo, hi);
        assert(s.remove(k).drop_last() == s.drop_last().remove(k));
        assert(s.remove(k).last() == s.last());
    }
}

proof fn lemma_perm_bucket(sorted: Seq<PackageView>, orig: Seq<PackageView>, perm: Seq<int>, lo: nat, hi: nat)
    requires
        sorted.len() == orig.len(),
        is_perm(perm, orig.len() as int),
        forall|i: int| 0 <= i < sorted.len() ==> #[trigger] sorted[i] == orig[perm[i]],
    ensures
        bucket_of(sorted, lo, hi) == bucket_of(orig, lo, hi),
    decreases orig.len(),
{
    if orig.len() > 0 {
        let (k, p2) = lemma_perm_step(sorted, orig, perm);
        lemma_perm_bucket(sorted.remove(k), orig.drop_last(), p2, lo, hi);
        lemma_bucket_remove(sorted, k, lo, hi);
    }
}

/// The size buckets do not depend on the order of the packages: any rearrangement
/// of them, such as the packages sorted by size, falls into the same buckets.
pub proof fn law_buckets_ignore_order(pkgs: Seq<PackageView>, rearranged: Seq<PackageView>, perm: Seq<int>)
    requires
        rearranged.len() == pkgs.len(),
        is_perm(perm, pkgs.len() as int),
        forall|i: int| 0 <= i < pkgs.len() ==> #[trigger] rearranged[i] == pkgs[perm[i]],
    ensures
        buckets_of(rearranged) == buckets_of(pkgs),
{
    assert forall|i: int| 0 <= i < 5 implies #[trigger] buckets_of(rearranged)[i] == buckets_of(pkgs)[i] by {
        lemma_perm_bucket(rearranged, pkgs, perm, bucket_bounds()[i].0, bucket_bounds()[i].1);
    }
    assert(buckets_of(rearranged) =~= buckets_of(pkgs));
}

/// Each index below `n` appears in a permutation of `0..n`.
proof fn lemma_perm_onto(perm: Seq<int>, n: int, v: int)
    requires
        is_perm(perm, n),
        0 <= v < n,
    ensures
        exists|k: int| 0 <= k < n && perm[k] == v,
{
    if !(exists|k: int| 0 <= k < n && perm[k] == v) {
        // the n distinct values perm[0..n] lie in 0..n without v: too few places
        let vals = perm.to_set();
        perm.unique_seq_to_set();
        assert(vals.subset_of(Set::new(|x: int| 0 <= x < n && x != v)));
        vstd::set_lib::lemma_int_range(0, n);
        let range = vstd::set_lib::set_int_range(0, n);
        assert(Set::new(|x: int| 0 <= x < n && x != v) =~= range.remove(v));
        vstd::set_lib::lemma_len_subset(vals, range.remove(v));
    }
}

/// Sorting the candidates loses and adds nothing: their sizes add up to what
/// removing all orphans and unused dependencies would free.
pub proof fn law_candidates_keep_total(sorted: Seq<ItemView>, all: Seq<ItemView>)
    requires
        is_stable_sort(sorted, all, size_order()),
    ensures
        item_total(sorted) == item_total(all),
{
    let perm = choose|perm: Seq<int>| stable_sort_with(sorted, all, perm, size_order());
    lemma_perm_total(sorted, all, perm);
}

// ---------------------------------------------------------------------------
// Cache size
// ---------------------------------------------------------------------------

proof fn lemma_digit_char(d: nat)
    requires
        d < 10,
    ensures
        is_digit(digit_char(d)),
        (digit_char(d) as u32) - ('0' as u32) == d,
{
}

proof fn lemma_dec_digits(n: nat)
    ensures
        dec(n).len() > 0,
        all_digits(dec(n)),
        digits_value(dec(n)) == n,
    decreases n,
{
    if n < 10 {
        lemma_digit_char(n);
        assert(dec(n).drop_last() == Seq::<char>::empty());
        assert(dec(n).last() == digit_char(n));
        assert(digits_value(dec(n)) == digits_value(Seq::<char>::empty()) * 10 + n);
    } else {
        lemma_dec_digits(n / 10);
        lemma_digit_char(n % 10);
        let d = dec(n);
        assert(d.drop_last() == dec(n / 10));
        assert(d.last() == digit_char(n % 10));
        assert(digits_value(d) == digits_value(dec(n / 10)) * 10 + n % 10);
        assert((n / 10) * 10 + n % 10 == n) by (nonlinear_arith);
        assert forall|i: int| 0 <= i < d.len() implies is_digit(#[trigger] d[i]) by {
            if i < d.len() - 1 {
                assert(d[i] == dec(n / 10)[i]);
            }
        }
    }
}

/// What `du -sb` prints, a byte count followed by white space and a path (or by
/// nothing), is read back as that byte count.
pub proof fn law_cache_size_reads_back(n: u64, rest: Seq<char>)
    requires
        rest.len() == 0 || is_ws(rest[0]),
    ensures
        du_size(dec(n as nat) + rest) == Some(n),
{
    let d = dec(n as nat);
    lemma_dec_digits(n as nat);
    let s = d + rest;
    assert(s[0] == d[0]);
    assert(is_digit(d[0]));
    lemma_run_len_unique(s, ws_pred(), 0);
    assert(s.skip(0) == s);
    assert(trim_start(s) == s);
    assert forall|i: int| 0 <= i < d.len() implies #[trigger] non_ws_pred()(s[i]) by {
        assert(s[i] == d[i]);
        assert(is_digit(d[i]));
    }
    if d.len() < s.len() {
        assert(s[d.len() as int] == rest[0]);
    }
    lemma_run_len_unique(s, non_ws_pred(), d.len() as int);
    lemma_words_unfold(s);
    assert(s.take(d.len() as int) == d);
    assert(words(s)[0] == d);
    assert(unsigned_digits(d) == d);
}

// ---------------------------------------------------------------------------
// Scans
// ---------------------------------------------------------------------------

proof fn lemma_filter_nonempty(s: Seq<Seq<char>>, f: spec_fn(Seq<char>) -> bool)
    ensures
        s.filter(f).len() > 0 <==> exists|j: int| 0 <= j < s.len() && f(#[trigger] s[j]),
{
    if s.filter(f).len() > 0 {
        s.lemma_filter_pred(f, 0);
        s.lemma_filter_contains_rev(f, s.filter(f)[0]);
        let j = choose|j: int| 0 <= j < s.len() && s[j] == s.filter(f)[0];
        assert(f(s[j]));
    }
    if exists|j: int| 0 <= j < s.len() && f(#[trigger] s[j]) {
        let j = choose|j: int| 0 <= j < s.len() && f(#[trigger] s[j]);
        s.lemma_filter_contains(f, j);
    }
}

/// Whether some package depends on a name that is not in `names`.
pub open spec fn has_uninstalled_dependency(pkgs: Seq<PackageView>, names: Seq<Seq<char>>) -> bool {
    exists|i: int, j: int|
        0 <= i < pkgs.len() && 0 <= j < pkgs[i].depends_on.len() && !names.contains(
            #[trigger] pkgs[i].depends_on[j],
        )
}

proof fn lemma_missing_nonempty(pkgs: Seq<PackageView>, names: Seq<Seq<char>>)
    ensures
        missing_of(pkgs, names).len() > 0 <==> has_uninstalled_dependency(pkgs, names),
    decreases pkgs.len(),
{
    if pkgs.len() > 0 {
        let init = pkgs.drop_last();
        let p = pkgs.last();
        lemma_missing_nonempty(init, names);
        let f = |d: Seq<char>| !names.contains(d);
        lemma_filter_nonempty(p.depends_on, f);
        assert(missing_of_package(p, names).len() == p.depends_on.filter(f).len());
        if has_uninstalled_dependency(init, names) {
            let (i, j) = choose|i: int, j: int|
                0 <= i < init.len() && 0 <= j < init[i].depends_on.len() && !names.contains(
                    #[trigger] init[i].depends_on[j],
                );
            assert(pkgs[i] == init[i]);
            assert(!names.contains(pkgs[i].depends_on[j]));
        }
        if exists|j: int| 0 <= j < p.depends_on.len() && f(#[trigger] p.depends_on[j]) {
            let j = choose|j: int| 0 <= j < p.depends_on.len() && f(#[trigger] p.depends_on[j]);
            assert(pkgs[pkgs.len() - 1] == p);
            assert(!names.contains(pkgs[pkgs.len() - 1].depends_on[j]));
        }
        if has_uninstalled_dependency(pkgs, names) {
            let (i, j) = choose|i: int, j: int|
                0 <= i < pkgs.len() && 0 <= j < pkgs[i].depends_on.len() && !names.contains(
                    #[trigger] pkgs[i].depends_on[j],
                );
            if i < pkgs.len() - 1 {
                assert(init[i] == pkgs[i]);
                assert(!names.contains(init[i].depends_on[j]));
            } else {
                assert(f(p.depends_on[j]));
            }
        }
    }
}

/// A quick scan has critical issues exactly when some installed package depends on
/// a name that no installed package has.
pub proof fn law_critical_iff_uninstalled_dependency(pkgs: Seq<PackageView>)
    ensures
        missing_of(pkgs, pkg_names(pkgs)).len() > 0 <==> has_uninstalled_dependency(
            pkgs,
            pkg_names(pkgs),
        ),
{
    lemma_missing_nonempty(pkgs, pkg_names(pkgs));
}

// ---------------------------------------------------------------------------
// Dependency chains
// ---------------------------------------------------------------------------

proof fn lemma_walk_shape(pkgs: Seq<PackageView>, cur: Seq<char>, seen: Set<Seq<char>>, fuel: nat)
    requires
        pkg_names(pkgs).contains(cur),
    ensures
        walk(pkgs, cur, seen, fuel).len() <= fuel,
        fuel > 0 ==> walk(pkgs, cur, seen, fuel).len() >= 1 && walk(pkgs, cur, seen, fuel)[0]
            == cur,
        forall|i: int|
            0 <= i < walk(pkgs, cur, seen, fuel).len() ==> pkg_names(pkgs).contains(
                #[trigger] walk(pkgs, cur, seen, fuel)[i],
            ),
        forall|i: int|
            0 <= i < walk(pkgs, cur, seen, fuel).len() - 1 ==> next_in_chain(
                pkgs,
                #[trigger] walk(pkgs, cur, seen, fuel)[i],
            ) == Some(walk(pkgs, cur, seen, fuel)[i + 1]),
    decreases fuel,
{
    if fuel > 0 && !seen.contains(cur) {
        match next_in_chain(pkgs, cur) {
            Some(n) => {
                let rest = walk(pkgs, n, seen.insert(cur), (fuel - 1) as nat);
                lemma_walk_shape(pkgs, n, seen.insert(cur), (fuel - 1) as nat);
                let w = walk(pkgs, cur, seen, fuel);
                assert(w == seq![cur] + rest);
                assert forall|i: int| 0 <= i < w.len() implies pkg_names(pkgs).contains(
                    #[trigger] w[i],
                ) by {
                    if i > 0 {
                        assert(w[i] == rest[i - 1]);
                    }
                }
                assert forall|i: int| 0 <= i < w.len() - 1 implies next_in_chain(
                    pkgs,
                    #[trigger] w[i],
                ) == Some(w[i + 1]) by {
                    if i > 0 {
                        assert(w[i] == rest[i - 1]);
                        assert(w[i + 1] == rest[i]);
                    } else {
                        assert(w[1] == rest[0]);
                    }
                }
            },
            None => {
                assert(walk(pkgs, cur, seen, fuel) == seq![cur] + Seq::<Seq<char>>::empty());
            },
        }
    }
}

/// A suspicious chain found from a package starts at that package, holds between
/// four and twelve names, names only installed packages, and goes from each name to
/// the first dependency of that package.
pub proof fn law_chain_shape(pkgs: Seq<PackageView>, pkg: Seq<char>)
    ensures
        chain_of(pkgs, pkg) matches Some(c) ==> {
            &&& 4 <= c.len() <= 12
            &&& c[0] == pkg
            &&& forall|i: int| 0 <= i < c.len() ==> pkg_names(pkgs).contains(#[trigger] c[i])
            &&& forall|i: int|
                0 <= i < c.len() - 1 ==> next_in_chain(pkgs, #[trigger] c[i]) == Some(c[i + 1])
        },
{
    if pkg_names(pkgs).contains(pkg) {
        lemma_walk_shape(pkgs, pkg, Set::empty(), 12);
    }
}

// ---------------------------------------------------------------------------
// History
// ---------------------------------------------------------------------------

/// The packages added since the previous analysis and those removed since then
/// share no name, and taking the removed ones from the previous packages and adding
/// the added ones gives the current packages.
pub proof fn law_history_delta_applies(current: Set<Seq<char>>, previous: Set<Seq<char>>)
    ensures
        current.difference(previous).disjoint(previous.difference(current)),
        previous.difference(previous.difference(current)).union(current.difference(previous))
            == current,
{
    assert(previous.difference(previous.difference(current)).union(current.difference(previous))
        =~= current);
}

// ---------------------------------------------------------------------------
// Results that are fixed by their contracts
// ---------------------------------------------------------------------------

/// Two strictly sorted lists with the same elements are the same list.
pub proof fn law_strictly_sorted_unique(a: Seq<Seq<char>>, b: Seq<Seq<char>>)
    requires
        strictly_sorted(a),
        strictly_sorted(b),
        a.to_set() == b.to_set(),
    ensures
        a == b,
    decreases a.len(),
{
    if a.len() == 0 {
        if b.len() > 0 {
            assert(a.to_set().contains(b[0]));
        }
        assert(a =~= b);
    } else {
        assert(b.to_set().contains(a[0]));
        assert(b.len() > 0);
        assert(a.to_set().contains(b[0]));
        let j = choose|j: int| 0 <= j < b.len() && b[j] == a[0];
        let i = choose|i: int| 0 <= i < a.len() && a[i] == b[0];
        if j > 0 {
            assert(seq_lt(b[0], b[j]));
            if i > 0 {
                assert(seq_lt(a[0], a[i]));
                lemma_seq_lt_transitive(a[0], a[i], a[0]);
            }
            lemma_seq_lt_irreflexive(a[0]);
        }
        assert(a[0] == b[0]);
        let a1 = a.drop_first();
        let b1 = b.drop_first();
        assert forall|k: int| 0 <= k < a1.len() implies a1[k] != a[0] by {
            assert(seq_lt(a[0], a[k + 1]));
            lemma_seq_lt_irreflexive(a[0]);
        }
        assert forall|k: int| 0 <= k < b1.len() implies b1[k] != b[0] by {
            assert(seq_lt(b[0], b[k + 1]));
            lemma_seq_lt_irreflexive(b[0]);
        }
        assert forall|x: Seq<char>| a1.to_set().contains(x) <==> b1.to_set().contains(x) by {
            if a1.to_set().contains(x) {
                let k = choose|k: int| 0 <= k < a1.len() && a1[k] == x;
                assert(a[k + 1] == x);
                assert(a.to_set().contains(x));
                assert(b.to_set().contains(x));
                let m = choose|m: int| 0 <= m < b.len() && b[m] == x;
                assert(m != 0);
                assert(b1[m - 1] == x);
            }
            if b1.to_set().contains(x) {
                let k = choose|k: int| 0 <= k < b1.len() && b1[k] == x;
                assert(b[k + 1] == x);
                assert(b.to_set().contains(x));
                assert(a.to_set().contains(x));
                let m = choose|m: int| 0 <= m < a.len() && a[m] == x;
                assert(m != 0);
                assert(a1[m - 1] == x);
            }
        }
        assert(a1.to_set() =~= b1.to_set());
        law_strictly_sorted_unique(a1, b1);
        assert(a =~= b) by {
            assert forall|k: int| 0 <= k < a.len() implies a[k] == b[k] by {
                if k > 0 {
                    assert(a[k] == a1[k - 1]);
                    assert(b[k] == b1[k - 1]);
                }
            }
        }
    }
}

/// Where `before` leaves two elements of `orig` unordered, the earlier one comes
/// first: the order that a stable sort lists the indices of `orig` in.
pub open spec fn sorts_before<T>(orig: Seq<T>, before: spec_fn(T, T) -> bool, y: int, x: int) -> bool {
    ||| before(orig[y], orig[x])
    ||| (!before(orig[x], orig[y]) && !before(orig[y], orig[x]) && y < x)
}

proof fn lemma_sorts_before_asymmetric<T>(orig: Seq<T>, before: spec_fn(T, T) -> bool, y: int, x: int)
    requires
        strict_weak_order(before),
    ensures
        !(sorts_before(orig, before, y, x) && sorts_before(orig, before, x, y)),
{
    if before(orig[y], orig[x]) && before(orig[x], orig[y]) {
        assert(before(orig[y], orig[y]));
    }
}

proof fn lemma_stable_perm_position<T>(
    sorted: Seq<T>,
    orig: Seq<T>,
    perm: Seq<int>,
    before: spec_fn(T, T) -> bool,
    i: int,
)
    requires
        strict_weak_order(before),
        stable_sort_with(sorted, orig, perm, before),
        0 <= i < orig.len(),
    ensures
        Set::new(|y: int| 0 <= y < orig.len() && sorts_before(orig, before, y, perm[i])).len() == i,
{
    let n = orig.len() as int;
    let x = perm[i];
    let set = Set::new(|y: int| 0 <= y < n && sorts_before(orig, before, y, x));
    let prefix = perm.take(i);
    assert forall|a: int, b: int| 0 <= a < b < n implies sorts_before(
        orig,
        before,
        #[trigger] perm[a],
        #[trigger] perm[b],
    ) by {
        assert(sorted[a] == orig[perm[a]]);
        assert(sorted[b] == orig[perm[b]]);
        assert(!before(sorted[b], sorted[a]));
    }
    assert forall|y: int| set.contains(y) <==> prefix.to_set().contains(y) by {
        if set.contains(y) {
            assert(exists|k: int| 0 <= k < n && perm[k] == y) by {
                lemma_perm_onto(perm, n, y);
            }
            let k = choose|k: int| 0 <= k < n && perm[k] == y;
            if k == i {
                assert(!before(orig[x], orig[x]));
            } else if k > i {
                assert(sorts_before(orig, before, perm[i], perm[k]));
                lemma_sorts_before_asymmetric(orig, before, y, x);
            } else {
                assert(prefix[k] == y);
            }
        }
        if prefix.to_set().contains(y) {
            let k = choose|k: int| 0 <= k < prefix.len() && prefix[k] == y;
            assert(perm[k] == y);
            assert(sorts_before(orig, before, perm[k], perm[i]));
        }
    }
    assert(set =~= prefix.to_set());
    assert(prefix.no_duplicates()) by {
        assert forall|a: int, b: int| 0 <= a < prefix.len() && 0 <= b < prefix.len() && a != b implies prefix[a]
            != prefix[b] by {
            if a < b {
                assert(perm[a] != perm[b]);
            } else {
                assert(perm[b] != perm[a]);
            }
        }
    }
    prefix.unique_seq_to_set();
}

/// A stable sort by a strict weak order has one result only.
pub proof fn law_stable_sort_unique<T>(
    a: Seq<T>,
    b: Seq<T>,
    orig: Seq<T>,
    before: spec_fn(T, T) -> bool,
)
    requires
        strict_weak_order(before),
        is_stable_sort(a, orig, before),
        is_stable_sort(b, orig, before),
    ensures
        a == b,
{
    let pa = choose|p: Seq<int>| stable_sort_with(a, orig, p, before);
    let pb = choose|p: Seq<int>| stable_sort_with(b, orig, p, before);
    let n = orig.len() as int;
    assert forall|i: int| 0 <= i < n implies #[trigger] pa[i] == pb[i] by {
        let x = pa[i];
        assert(exists|j: int| 0 <= j < n && pb[j] == x) by {
            lemma_perm_onto(pb, n, x);
        }
        let j = choose|j: int| 0 <= j < n && pb[j] == x;
        lemma_stable_perm_position(a, orig, pa, before, i);
        lemma_stable_perm_position(b, orig, pb, before, j);
    }
    assert forall|i: int| 0 <= i < a.len() implies a[i] == b[i] by {
        assert(a[i] == orig[pa[i]]);
        assert(b[i] == orig[pb[i]]);
    }
    assert(a =~= b);
}

/// The statistics of a list of packages are fixed by it: two results that both meet
/// the statistics contract agree in every field. So the statistics inside an
/// analysis are those that computing them alone gives, and summarizing a list of
/// packages gives the statistics of a snapshot of those packages with no orphans
/// and no log entries.
pub proof fn law_stats_determined(
    s1: PackageStats,
    s2: PackageStats,
    pkgs: Seq<PackageView>,
    recent: Seq<ActionView>,
    orphans: nat,
)
    requires
        stats_of(s1, pkgs, recent, orphans),
        stats_of(s2, pkgs, recent, orphans),
    ensures
        s1.total_packages == s2.total_packages,
        s1.total_size_bytes == s2.total_size_bytes,
        s1.average_size_bytes == s2.average_size_bytes,
        s1.median_size_bytes == s2.median_size_bytes,
        entry_views(s1.largest_packages@) == entry_views(s2.largest_packages@),
        entry_views(s1.heavy_packages@) == entry_views(s2.heavy_packages@),
        bucket_views(s1.size_buckets@) == bucket_views(s2.size_buckets@),
        action_views(s1.recent_packages@) == action_views(s2.recent_packages@),
        s1.orphan_count == s2.orphan_count,
        s1.explicit_packages == s2.explicit_packages,
        s1.dependency_packages == s2.dependency_packages,
{
    lemma_entry_order();
    let a = choose|sorted: Seq<EntryView>|
        #[trigger] is_stable_sort(sorted, entries_of(pkgs), entry_order()) && entry_views(
            s1.largest_packages@,
        ) == take_at_most(sorted, 20) && entry_views(s1.heavy_packages@) == heavy_of(sorted)
            && s1.median_size_bytes == median_of_sorted(sizes_of(sorted).reverse());
    let b = choose|sorted: Seq<EntryView>|
        #[trigger] is_stable_sort(sorted, entries_of(pkgs), entry_order()) && entry_views(
            s2.largest_packages@,
        ) == take_at_most(sorted, 20) && entry_views(s2.heavy_packages@) == heavy_of(sorted)
            && s2.median_size_bytes == median_of_sorted(sizes_of(sorted).reverse());
    law_stable_sort_unique(a, b, entries_of(pkgs), entry_order());
}

/// The cleanup assessment of a snapshot is fixed by it: two results that both meet
/// the assessment contract agree in every field.
pub proof fn law_assessment_determined(
    c1: CleanupAssessment,
    c2: CleanupAssessment,
    pkgs: Seq<PackageView>,
    orphans: Seq<Seq<char>>,
    heavy: nat,
    cache: Option<u64>,
)
    requires
        assessment_of(c1, pkgs, orphans, heavy, cache),
        assessment_of(c2, pkgs, orphans, heavy, cache),
    ensures
        item_views(c1.orphans@) == item_views(c2.orphans@),
        item_views(c1.unnecessary_dependencies@) == item_views(c2.unnecessary_dependencies@),
        c1.safe_remove_candidates.deep_view() == c2.safe_remove_candidates.deep_view(),
        c1.dry_run_command@ == c2.dry_run_command@,
        c1.recommendations.deep_view() == c2.recommendations.deep_view(),
        c1.cache_size_bytes == c2.cache_size_bytes,
{
    law_strictly_sorted_unique(
        c1.safe_remove_candidates.deep_view(),
        c2.safe_remove_candidates.deep_view(),
    );
}

/// The dependency inspection of a list of packages is fixed by it: two results that
/// both meet the inspection contract agree in every field.
pub proof fn law_inspection_determined(
    d1: DependencyInspection,
    d2: DependencyInspection,
    pkgs: Seq<PackageView>,
)
    requires
        inspection_of(d1, pkgs),
        inspection_of(d2, pkgs),
    ensures
        node_views(d1.nodes@) == node_views(d2.nodes@),
        d1.leaf_packages.deep_view() == d2.leaf_packages.deep_view(),
        d1.root_packages.deep_view() == d2.root_packages.deep_view(),
        d1.redundant_packages.deep_view() == d2.redundant_packages.deep_view(),
        d1.suspicious_chains.deep_view() == d2.suspicious_chains.deep_view(),
{
    law_strictly_sorted_unique(d1.suspicious_chains.deep_view(), d2.suspicious_chains.deep_view());
}

/// The entries in the order of the size listing fall into the same buckets as the
/// packages: they are the entries of a rearrangement of the packages, and any
/// rearrangement has the same buckets.
pub proof fn law_sorted_entries_keep_buckets(sorted: Seq<EntryView>, pkgs: Seq<PackageView>)
    requires
        is_stable_sort(sorted, entries_of(pkgs), entry_order()),
    ensures
        exists|rearranged: Seq<PackageView>|
            entries_of(rearranged) == sorted && #[trigger] buckets_of(rearranged) == buckets_of(
                pkgs,
            ),
{
    let perm = choose|p: Seq<int>| stable_sort_with(sorted, entries_of(pkgs), p, entry_order());
    let rearranged = Seq::new(pkgs.len(), |i: int| pkgs[perm[i]]);
    law_buckets_ignore_order(pkgs, rearranged, perm);
    assert forall|i: int| 0 <= i < sorted.len() implies entries_of(rearranged)[i] == sorted[i] by {
        assert(sorted[i] == entries_of(pkgs)[perm[i]]);
    }
    assert(entries_of(rearranged) =~= sorted);
}

/// Comparing two analyses the other way round swaps the package counts and the
/// added and removed packages and negates the changes in health score, orphans and
/// size.
pub proof fn law_swapped_delta(
    d: HistoryDelta,
    swapped: HistoryDelta,
    cur: SystemAnalysis,
    prev: SystemAnalysis,
)
    requires
        delta_of(d, cur, prev),
        delta_of(swapped, prev, cur),
    ensures
        swapped.current_packages == d.previous_packages,
        swapped.previous_packages == d.current_packages,
        swapped.added_packages.deep_view() == d.removed_packages.deep_view(),
        swapped.removed_packages.deep_view() == d.added_packages.deep_view(),
        swapped.health_delta == -d.health_delta,
        swapped.orphan_delta == -d.orphan_delta,
        swapped.size_delta_bytes == -d.size_delta_bytes,
{
    law_strictly_sorted_unique(swapped.added_packages.deep_view(), d.removed_packages.deep_view());
    law_strictly_sorted_unique(swapped.removed_packages.deep_view(), d.added_packages.deep_view());
}

// ---------------------------------------------------------------------------
// What the results say about their inputs
// ---------------------------------------------------------------------------

/// The list of removal candidates is empty exactly when there is neither an orphan
/// nor an unused dependency, and the advice says that no safe cleanup candidates
/// were detected exactly then.
pub proof fn law_no_candidates_advice(
    a: CleanupAssessment,
    pkgs: Seq<PackageView>,
    orphans: Seq<Seq<char>>,
    heavy: nat,
    cache: Option<u64>,
)
    requires
        assessment_of(a, pkgs, orphans, heavy, cache),
    ensures
        a.safe_remove_candidates.len() == 0 <==> (orphan_items(pkgs, orphans).len() == 0
            && unneeded_items(pkgs, orphans).len() == 0),
        a.recommendations.deep_view().contains(
            "No safe cleanup candidates were detected from the current snapshot."@,
        ) <==> (orphan_items(pkgs, orphans).len() == 0 && unneeded_items(pkgs, orphans).len()
            == 0),
{
    let o = orphan_items(pkgs, orphans);
    let u = unneeded_items(pkgs, orphans);
    let names = item_names(o + u);
    let cands = a.safe_remove_candidates.deep_view();
    assert(cands.len() == a.safe_remove_candidates.len());
    if (o + u).len() > 0 {
        assert(names.to_set().contains(names[0]));
        assert(cands.to_set().contains(names[0]));
    }
    if cands.len() > 0 {
        assert(cands.to_set().contains(cands[0]));
        assert(names.to_set().contains(cands[0]));
    }
    let none = "No safe cleanup candidates were detected from the current snapshot."@;
    reveal_strlit("No safe cleanup candidates were detected from the current snapshot.");
    reveal_strlit("Review ");
    reveal_strlit("Audit very large packages for optional features and old toolchains.");
    let adv = a.recommendations.deep_view();
    if cands.len() > 0 {
        let first = line_if(o.len() > 0, "Review "@ + dec(o.len()) + " orphaned package(s) for removal."@);
        let second = line_if(
            u.len() > 0,
            dec(u.len()) + " dependency package(s) appear unused and are cleanup candidates."@,
        );
        let third = line_if(heavy >= 5, "Audit very large packages for optional features and old toolchains."@);
        assert(adv == first + second + third + Seq::<Seq<char>>::empty());
        lemma_dec_digits(u.len());
        assert forall|k: int| 0 <= k < adv.len() implies adv[k] != none by {
            assert(none[0] == 'N');
            if k < first.len() {
                assert(adv[k][0] == 'R');
            } else if k < first.len() + second.len() {
                assert(adv[k][0] == dec(u.len())[0]);
                assert(is_digit(dec(u.len())[0]));
            } else {
                assert(adv[k][0] == 'A');
            }
        }
    } else {
        assert(adv[adv.len() - 1] == none);
    }
}

proof fn lemma_all_warnings_contains(nodes: Seq<NodeView>, x: Seq<char>)
    ensures
        all_warnings(nodes).contains(x) <==> exists|i: int|
            0 <= i < nodes.len() && #[trigger] node_warnings(nodes[i]).contains(x),
    decreases nodes.len(),
{
    if nodes.len() > 0 {
        let init = nodes.drop_last();
        lemma_all_warnings_contains(init, x);
        let w = all_warnings(nodes);
        let a = all_warnings(init);
        let b = node_warnings(nodes.last());
        assert(w == a + b);
        if w.contains(x) {
            let k = choose|k: int| 0 <= k < w.len() && w[k] == x;
            if k < a.len() {
                assert(a[k] == x);
                let i = choose|i: int| 0 <= i < init.len() && #[trigger] node_warnings(init[i]).contains(x);
                assert(nodes[i] == init[i]);
            } else {
                assert(b[k - a.len()] == x);
                assert(node_warnings(nodes[nodes.len() - 1]).contains(x));
            }
        }
        if exists|i: int| 0 <= i < nodes.len() && #[trigger] node_warnings(nodes[i]).contains(x) {
            let i = choose|i: int| 0 <= i < nodes.len() && #[trigger] node_warnings(nodes[i]).contains(x);
            if i < nodes.len() - 1 {
                assert(init[i] == nodes[i]);
                assert(a.contains(x));
                let k = choose|k: int| 0 <= k < a.len() && a[k] == x;
                assert(w[k] == x);
            } else {
                let k = choose|k: int| 0 <= k < b.len() && b[k] == x;
                assert(w[a.len() + k] == x);
            }
        }
    }
}

/// The three warnings about one package.
pub open spec fn self_dependency_line(name: Seq<char>) -> Seq<char> {
    name + " depends on itself"@
}

pub open spec fn fan_out_line(name: Seq<char>, n: nat) -> Seq<char> {
    name + " has an unusually broad dependency fan-out ("@ + dec(n) + " dependencies)"@
}

pub open spec fn unrequired_line(name: Seq<char>) -> Seq<char> {
    name + " is installed as a dependency but nothing currently requires it"@
}

proof fn lemma_warning_source(pkgs: Seq<PackageView>, chains: Seq<Seq<char>>, x: Seq<char>) -> (i: int)
    requires
        chains.to_set() == all_warnings(pkgs.map_values(|p: PackageView| node_of(p))).to_set(),
        chains.contains(x),
    ensures
        0 <= i < pkgs.len(),
        warning_about(pkgs[i], x),
{
    let nodes = pkgs.map_values(|p: PackageView| node_of(p));
    assert(chains.to_set().contains(x));
    assert(all_warnings(nodes).to_set().contains(x));
    lemma_all_warnings_contains(nodes, x);
    let i = choose|i: int| 0 <= i < nodes.len() && #[trigger] node_warnings(nodes[i]).contains(x);
    let p = pkgs[i];
    let n = nodes[i];
    assert(n == node_of(p));
    let l1 = line_if(n.depends_on.contains(n.name), n.name + " depends on itself"@);
    let l2 = line_if(
        n.depends_on.len() >= 25,
        n.name + " has an unusually broad dependency fan-out ("@ + dec(n.depends_on.len())
            + " dependencies)"@,
    );
    let l3 = line_if(
        !n.is_explicit && n.required_by.len() == 0,
        n.name + " is installed as a dependency but nothing currently requires it"@,
    );
    let w = node_warnings(n);
    assert(w == l1 + l2 + l3);
    let m = choose|m: int| 0 <= m < w.len() && w[m] == x;
    if m < l1.len() {
        assert(x == self_dependency_line(p.name));
    } else if m < l1.len() + l2.len() {
        assert(w[m] == l2[m - l1.len()]);
        assert(x == fan_out_line(p.name, p.depends_on.len()));
    } else {
        assert(w[m] == l3[m - l1.len() - l2.len()]);
        assert(x == unrequired_line(p.name));
    }
    assert(warning_about(pkgs[i], x));
    i
}

/// `x` is one of the warnings about the package `p`.
pub open spec fn warning_about(p: PackageView, x: Seq<char>) -> bool {
    ||| (p.depends_on.contains(p.name) && x == self_dependency_line(p.name))
    ||| (p.depends_on.len() >= 25 && x == fan_out_line(p.name, p.depends_on.len()))
    ||| (p.install_reason != InstallReason::Explicit && p.required_by.len() == 0 && x
        == unrequired_line(p.name))
}

/// Every package's warnings are listed, and nothing else is: a package that lists
/// itself among its dependencies, one with 25 or more dependencies, and one not
/// installed explicitly that nothing requires each give their line.
pub proof fn law_dependency_warnings(d: DependencyInspection, pkgs: Seq<PackageView>)
    requires
        inspection_of(d, pkgs),
    ensures
        forall|i: int|
            0 <= i < pkgs.len() && pkgs[i].depends_on.contains(pkgs[i].name)
                ==> d.suspicious_chains.deep_view().contains(
                #[trigger] self_dependency_line(pkgs[i].name),
            ),
        forall|i: int|
            0 <= i < pkgs.len() && pkgs[i].depends_on.len() >= 25
                ==> d.suspicious_chains.deep_view().contains(
                #[trigger] fan_out_line(pkgs[i].name, pkgs[i].depends_on.len()),
            ),
        forall|i: int|
            0 <= i < pkgs.len() && pkgs[i].install_reason != InstallReason::Explicit
                && pkgs[i].required_by.len() == 0 ==> d.suspicious_chains.deep_view().contains(
                #[trigger] unrequired_line(pkgs[i].name),
            ),
        forall|x: Seq<char>|
            d.suspicious_chains.deep_view().contains(x) ==> exists|i: int|
                0 <= i < pkgs.len() && #[trigger] warning_about(pkgs[i], x),
{
    let nodes = pkgs.map_values(|p: PackageView| node_of(p));
    let chains = d.suspicious_chains.deep_view();
    assert(chains.len() == d.suspicious_chains.len());
    assert forall|i: int, x: Seq<char>| 0 <= i < pkgs.len() && #[trigger] node_warnings(nodes[i]).contains(x)
        implies chains.contains(x) by {
        lemma_all_warnings_contains(nodes, x);
        assert(all_warnings(nodes).to_set().contains(x));
        assert(chains.to_set().contains(x));
    }
    assert forall|i: int| #![trigger pkgs[i]] 0 <= i < pkgs.len() implies {
        let p = pkgs[i];
        let w = node_warnings(nodes[i]);
        &&& p.depends_on.contains(p.name) ==> w.contains(self_dependency_line(p.name))
        &&& p.depends_on.len() >= 25 ==> w.contains(fan_out_line(p.name, p.depends_on.len()))
        &&& (p.install_reason != InstallReason::Explicit && p.required_by.len() == 0) ==> w.contains(
            unrequired_line(p.name),
        )
    } by {
        let p = pkgs[i];
        let n = nodes[i];
        assert(n == node_of(p));
        let l1 = line_if(n.depends_on.contains(n.name), n.name + " depends on itself"@);
        let l2 = line_if(
            n.depends_on.len() >= 25,
            n.name + " has an unusually broad dependency fan-out ("@ + dec(n.depends_on.len())
                + " dependencies)"@,
        );
        let l3 = line_if(
            !n.is_explicit && n.required_by.len() == 0,
            n.name + " is installed as a dependency but nothing currently requires it"@,
        );
        let w = node_warnings(n);
        assert(w == l1 + l2 + l3);
        if p.depends_on.contains(p.name) {
            assert(w[0] == self_dependency_line(p.name));
        }
        if p.depends_on.len() >= 25 {
            assert(w[l1.len() as int] == fan_out_line(p.name, p.depends_on.len()));
        }
        if p.install_reason != InstallReason::Explicit && p.required_by.len() == 0 {
            assert(w[(l1.len() + l2.len()) as int] == unrequired_line(p.name));
        }
    }
    assert forall|x: Seq<char>| chains.contains(x) implies exists|i: int|
        0 <= i < pkgs.len() && #[trigger] warning_about(pkgs[i], x) by {
        let i = lemma_warning_source(pkgs, chains, x);
    }
}

proof fn lemma_heavy_first_is_largest(
    stats: PackageStats,
    pkgs: Seq<PackageView>,
    recent: Seq<ActionView>,
    orphans: nat,
) -> (i: int)
    requires
        stats_of(stats, pkgs, recent, orphans),
        pkgs.len() > 0,
    ensures
        0 <= i < pkgs.len(),
        forall|j: int| 0 <= j < pkgs.len() ==> (#[trigger] pkgs[j]).installed_size_bytes
            <= pkgs[i].installed_size_bytes,
        stats.heavy_packages.len() > 0,
        stats.heavy_packages@[0].name@ == pkgs[i].name,
        stats.heavy_packages@[0].size_bytes == pkgs[i].installed_size_bytes,
{
    lemma_entry_order();
    let sorted = choose|sorted: Seq<EntryView>|
        #[trigger] is_stable_sort(sorted, entries_of(pkgs), entry_order()) && entry_views(
            stats.largest_packages@,
        ) == take_at_most(sorted, 20) && entry_views(stats.heavy_packages@) == heavy_of(sorted)
            && stats.median_size_bytes == median_of_sorted(sizes_of(sorted).reverse());
    let orig = entries_of(pkgs);
    let perm = choose|p: Seq<int>| stable_sort_with(sorted, orig, p, entry_order());
    law_sorted_sizes_descend(sorted, orig);
    let n = pkgs.len() as int;
    assert(sorted.len() == n);
    let i = perm[0];
    assert(sorted[0] == orig[i]);
    assert forall|j: int| 0 <= j < n implies (#[trigger] pkgs[j]).installed_size_bytes
        <= pkgs[i].installed_size_bytes by {
        assert(exists|k: int| 0 <= k < n && perm[k] == j) by {
            lemma_perm_onto(perm, n, j);
        }
        let k = choose|k: int| 0 <= k < n && perm[k] == j;
        assert(sorted[k] == orig[j]);
        if k > 0 {
            assert(sorted[0].size_bytes >= sorted[k].size_bytes);
        }
    }
    let f = sorted.filter(heavy_pred());
    let h = heavy_of(sorted);
    if take_at_most(f, 20).len() == 0 {
        assert(h == take_at_most(sorted, 5));
        assert(h[0] == sorted[0]);
    } else {
        assert(f.len() > 0);
        sorted.lemma_filter_pred(heavy_pred(), 0);
        sorted.lemma_filter_contains_rev(heavy_pred(), f[0]);
        let k = choose|k: int| 0 <= k < sorted.len() && sorted[k] == f[0];
        if k > 0 {
            assert(sorted[0].size_bytes >= sorted[k].size_bytes);
        }
        assert(heavy_pred()(sorted[0]));
        assert(sorted == seq![sorted[0]] + sorted.drop_first());
        sorted.drop_first().lemma_filter_prepend(sorted[0], heavy_pred());
        assert(f[0] == sorted[0]);
        assert(h == take_at_most(f, 20));
        assert(h[0] == sorted[0]);
    }
    assert(entry_views(stats.heavy_packages@)[0] == stats.heavy_packages@[0]@);
    i
}

/// With packages installed, the advice names the largest package: one that no
/// installed package exceeds in size.
pub proof fn law_largest_package_advice(
    stats: PackageStats,
    pkgs: Seq<PackageView>,
    recent: Seq<ActionView>,
    orphans: nat,
    orphan_count: nat,
    unused: nat,
    warnings: nat,
    cache_warning: Option<Seq<char>>,
    confidence: Seq<char>,
    health: u8,
    bloat: u8,
)
    requires
        stats_of(stats, pkgs, recent, orphans),
        pkgs.len() > 0,
    ensures
        exists|i: int|
            0 <= i < pkgs.len() && (forall|j: int|
                0 <= j < pkgs.len() ==> (#[trigger] pkgs[j]).installed_size_bytes
                    <= pkgs[i].installed_size_bytes) && #[trigger] advice_of(
                orphan_count,
                unused,
                first_heavy(stats),
                warnings,
                cache_warning,
                confidence,
                health,
                bloat,
            ).contains(
                "Largest package detected: "@ + pkgs[i].name + " using "@ + format_bytes_spec(
                    pkgs[i].installed_size_bytes as nat,
                ) + "."@,
            ),
{
    let i = lemma_heavy_first_is_largest(stats, pkgs, recent, orphans);
    let line = "Largest package detected: "@ + pkgs[i].name + " using "@ + format_bytes_spec(
        pkgs[i].installed_size_bytes as nat,
    ) + "."@;
    let a = line_if(
        orphan_count > 0,
        "Review and remove "@ + dec(orphan_count)
            + " orphaned package(s) after verifying they are not needed."@,
    );
    let b = line_if(
        unused > 0,
        dec(unused) + " dependency package(s) appear unused and are strong cleanup candidates."@,
    );
    let adv = advice_of(
        orphan_count,
        unused,
        first_heavy(stats),
        warnings,
        cache_warning,
        confidence,
        health,
        bloat,
    );
    assert(first_heavy(stats) == Some((pkgs[i].name, pkgs[i].installed_size_bytes)));
    assert(adv.len() > a.len() + b.len());
    assert(adv[(a.len() + b.len()) as int] == line);
    assert(adv.contains(line));
}

/// In the dashboard, the heaviest package shown is one that no installed package
/// exceeds in size.
pub proof fn law_dashboard_heaviest_is_largest(
    a: SystemAnalysis,
    pkgs: Seq<PackageView>,
    recent: Seq<ActionView>,
    orphans: nat,
)
    requires
        stats_of(a.stats, pkgs, recent, orphans),
        pkgs.len() > 0,
    ensures
        exists|i: int|
            0 <= i < pkgs.len() && (forall|j: int|
                0 <= j < pkgs.len() ==> (#[trigger] pkgs[j]).installed_size_bytes
                    <= pkgs[i].installed_size_bytes) && #[trigger] dashboard_disk_spec(a).contains(
                (
                    "Heaviest package"@,
                    pkgs[i].name + " ("@ + format_bytes_spec(pkgs[i].installed_size_bytes as nat)
                        + ")"@,
                    None::<Shade>,
                ),
            ),
{
    let i = lemma_heavy_first_is_largest(a.stats, pkgs, recent, orphans);
    let rows = dashboard_disk_spec(a);
    let head = seq![
        ("Packages"@, dec(a.stats.total_packages as nat), None::<Shade>),
        ("Total size"@, format_bytes_spec(a.stats.total_size_bytes as nat), None::<Shade>),
    ];
    let hv = entry_views(a.stats.heavy_packages@);
    assert(hv[0] == a.stats.heavy_packages@[0]@);
    let row = (
        "Heaviest package"@,
        pkgs[i].name + " ("@ + format_bytes_spec(pkgs[i].installed_size_bytes as nat) + ")"@,
        None::<Shade>,
    );
    assert(heaviest_rows(hv) == seq![row]);
    let c = cache_rows(a.cleanup.cache_size_bytes);
    assert(rows == head + c + seq![row]);
    assert(rows[(head.len() + c.len()) as int] == row);
    assert(dashboard_disk_spec(a).contains(row));
}

/// The number of dependencies in `deps`, counted by position, that name no package
/// in `names`.
pub open spec fn uninstalled_count(deps: Seq<Seq<char>>, names: Seq<Seq<char>>) -> nat {
    Set::new(|j: int| 0 <= j < deps.len() && !names.contains(deps[j])).len()
}

/// The number of (package, dependency) pairs whose dependency names no package in
/// `names`.
pub open spec fn uninstalled_pairs(pkgs: Seq<PackageView>, names: Seq<Seq<char>>) -> nat
    decreases pkgs.len(),
{
    if pkgs.len() == 0 {
        0
    } else {
        uninstalled_pairs(pkgs.drop_last(), names) + uninstalled_count(
            pkgs.last().depends_on,
            names,
        )
    }
}

proof fn lemma_filter_len_counts(s: Seq<Seq<char>>, names: Seq<Seq<char>>)
    ensures
        s.filter(|d: Seq<char>| !names.contains(d)).len() == uninstalled_count(s, names),
        Set::new(|j: int| 0 <= j < s.len() && !names.contains(s[j])).finite(),
    decreases s.len(),
{
    let f = |d: Seq<char>| !names.contains(d);
    let set = Set::new(|j: int| 0 <= j < s.len() && !names.contains(s[j]));
    if s.len() == 0 {
        assert(set =~= Set::<int>::empty());
    } else {
        let t = s.drop_last();
        let x = s.last();
        lemma_filter_len_counts(t, names);
        assert(t.push(x) == s);
        t.lemma_filter_len_push(f, x);
        let tset = Set::new(|j: int| 0 <= j < t.len() && !names.contains(t[j]));
        assert(!tset.contains(t.len() as int));
        if f(x) {
            assert(set =~= tset.insert(t.len() as int));
        } else {
            assert(set =~= tset);
        }
    }
}

proof fn lemma_missing_of_package(p: PackageView, names: Seq<Seq<char>>)
    ensures
        missing_of_package(p, names).len() == uninstalled_count(p.depends_on, names),
        forall|x: (Seq<char>, Seq<char>)|
            missing_of_package(p, names).contains(x) <==> (x.0 == p.name
                && p.depends_on.contains(x.1) && !names.contains(x.1)),
{
    let f = |d: Seq<char>| !names.contains(d);
    let fl = p.depends_on.filter(f);
    let m = missing_of_package(p, names);
    lemma_filter_len_counts(p.depends_on, names);
    assert forall|x: (Seq<char>, Seq<char>)| m.contains(x) <==> (x.0 == p.name
        && p.depends_on.contains(x.1) && !names.contains(x.1)) by {
        if m.contains(x) {
            let k = choose|k: int| 0 <= k < m.len() && m[k] == x;
            p.depends_on.lemma_filter_pred(f, k);
            p.depends_on.lemma_filter_contains_rev(f, fl[k]);
        }
        if x.0 == p.name && p.depends_on.contains(x.1) && !names.contains(x.1) {
            let j = choose|j: int| 0 <= j < p.depends_on.len() && p.depends_on[j] == x.1;
            p.depends_on.lemma_filter_contains(f, j);
            let k = choose|k: int| 0 <= k < fl.len() && fl[k] == x.1;
            assert(m[k] == x);
        }
    }
}

/// Every dependency that names no installed package is reported with its package,
/// once for each place it is listed, and nothing else is reported.
pub proof fn law_missing_dependencies_complete(pkgs: Seq<PackageView>, names: Seq<Seq<char>>)
    ensures
        forall|i: int, j: int|
            0 <= i < pkgs.len() && 0 <= j < pkgs[i].depends_on.len() && !names.contains(
                pkgs[i].depends_on[j],
            ) ==> #[trigger] missing_of(pkgs, names).contains(
                (pkgs[i].name, pkgs[i].depends_on[j]),
            ),
        forall|x: (Seq<char>, Seq<char>)|
            #[trigger] missing_of(pkgs, names).contains(x) ==> exists|i: int, j: int|
                0 <= i < pkgs.len() && 0 <= j < pkgs[i].depends_on.len() && !names.contains(
                    pkgs[i].depends_on[j],
                ) && x == (pkgs[i].name, #[trigger] pkgs[i].depends_on[j]),
        missing_of(pkgs, names).len() == uninstalled_pairs(pkgs, names),
    decreases pkgs.len(),
{
    if pkgs.len() > 0 {
        let init = pkgs.drop_last();
        let p = pkgs.last();
        let last = pkgs.len() - 1;
        law_missing_dependencies_complete(init, names);
        lemma_missing_of_package(p, names);
        let a = missing_of(init, names);
        let b = missing_of_package(p, names);
        let m = missing_of(pkgs, names);
        assert(m == a + b);
        assert forall|i: int, j: int|
            0 <= i < pkgs.len() && 0 <= j < pkgs[i].depends_on.len() && !names.contains(
                pkgs[i].depends_on[j],
            ) implies #[trigger] m.contains((pkgs[i].name, pkgs[i].depends_on[j])) by {
            let x = (pkgs[i].name, pkgs[i].depends_on[j]);
            if i < last {
                assert(init[i] == pkgs[i]);
                assert(a.contains(x));
                let k = choose|k: int| 0 <= k < a.len() && a[k] == x;
                assert(m[k] == x);
            } else {
                assert(p.depends_on.contains(x.1));
                assert(b.contains(x));
                let k = choose|k: int| 0 <= k < b.len() && b[k] == x;
                assert(m[a.len() + k] == x);
            }
        }
        assert forall|x: (Seq<char>, Seq<char>)| #[trigger] m.contains(x) implies exists|
            i: int,
            j: int,
        |
            0 <= i < pkgs.len() && 0 <= j < pkgs[i].depends_on.len() && !names.contains(
                pkgs[i].depends_on[j],
            ) && x == (pkgs[i].name, #[trigger] pkgs[i].depends_on[j]) by {
            let k = choose|k: int| 0 <= k < m.len() && m[k] == x;
            if k < a.len() {
                assert(a[k] == x);
                assert(a.contains(x));
                let (i, j) = choose|i: int, j: int|
                    0 <= i < init.len() && 0 <= j < init[i].depends_on.len() && !names.contains(
                        init[i].depends_on[j],
                    ) && x == (init[i].name, #[trigger] init[i].depends_on[j]);
                assert(pkgs[i] == init[i]);
                assert(x == (pkgs[i].name, pkgs[i].depends_on[j]));
            } else {
                assert(b[k - a.len()] == x);
                assert(b.contains(x));
                let j = choose|j: int| 0 <= j < p.depends_on.len() && p.depends_on[j] == x.1;
                assert(pkgs[last] == p);
                assert(x == (pkgs[last].name, pkgs[last].depends_on[j]));
            }
        }
    }
}

proof fn lemma_filter_count<T>(s: Seq<T>, f: spec_fn(T) -> bool)
    ensures
        s.filter(f).len() == Set::new(|i: int| 0 <= i < s.len() && f(s[i])).len(),
        Set::new(|i: int| 0 <= i < s.len() && f(s[i])).finite(),
    decreases s.len(),
{
    let set = Set::new(|i: int| 0 <= i < s.len() && f(s[i]));
    if s.len() == 0 {
        assert(set =~= Set::<int>::empty());
    } else {
        let t = s.drop_last();
        let x = s.last();
        lemma_filter_count(t, f);
        assert(t.push(x) == s);
        t.lemma_filter_len_push(f, x);
        let tset = Set::new(|i: int| 0 <= i < t.len() && f(t[i]));
        assert(!tset.contains(t.len() as int));
        if f(x) {
            assert(set =~= tset.insert(t.len() as int));
        } else {
            assert(set =~= tset);
        }
    }
}

/// The cleanup item `item` is about the package `p`: same name, version and size.
pub open spec fn describes(item: ItemView, p: PackageView) -> bool {
    &&& item.name == p.name
    &&& item.version == p.version
    &&& item.size_bytes == p.installed_size_bytes
}

spec fn filtered_items(pkgs: Seq<PackageView>, pred: spec_fn(PackageView) -> bool) -> Seq<ItemView> {
    pkgs.filter(pred).map_values(|p: PackageView| item_of(p))
}

proof fn lemma_items_of_filter(pkgs: Seq<PackageView>, pred: spec_fn(PackageView) -> bool)
    ensures
        forall|i: int|
            #![trigger pkgs[i]]
            0 <= i < pkgs.len() && pred(pkgs[i]) ==> exists|k: int|
                0 <= k < filtered_items(pkgs, pred).len()
                    && #[trigger] describes(
                    filtered_items(pkgs, pred)[k],
                    pkgs[i],
                ),
        forall|x: ItemView|
            filtered_items(pkgs, pred).contains(x) ==> exists|i: int|
                0 <= i < pkgs.len() && pred(pkgs[i]) && #[trigger] describes(x, pkgs[i]),
        filtered_items(pkgs, pred).len() == Set::new(
            |i: int| 0 <= i < pkgs.len() && pred(pkgs[i]),
        ).len(),
{
    let fl = pkgs.filter(pred);
    let items = filtered_items(pkgs, pred);
    lemma_filter_count(pkgs, pred);
    assert forall|i: int| #![trigger pkgs[i]] 0 <= i < pkgs.len() && pred(pkgs[i]) implies exists|k: int|
        0 <= k < items.len() && #[trigger] describes(items[k], pkgs[i]) by {
        pkgs.lemma_filter_contains(pred, i);
        let k = choose|k: int| 0 <= k < fl.len() && fl[k] == pkgs[i];
        assert(items[k] == item_of(fl[k]));
        assert(describes(items[k], pkgs[i]));
    }
    assert forall|x: ItemView| items.contains(x) implies exists|i: int|
        0 <= i < pkgs.len() && pred(pkgs[i]) && #[trigger] describes(x, pkgs[i]) by {
        let k = choose|k: int| 0 <= k < items.len() && items[k] == x;
        pkgs.lemma_filter_pred(pred, k);
        pkgs.lemma_filter_contains_rev(pred, fl[k]);
        let i = choose|i: int| 0 <= i < pkgs.len() && pkgs[i] == fl[k];
        assert(items[k] == item_of(fl[k]));
        assert(describes(items[k], pkgs[i]));
    }
}

/// The orphans are the packages named in the orphan list, each listed once for each
/// such package; the unused dependencies are the packages installed as dependencies
/// that nothing requires and that are not orphans, likewise.
pub proof fn law_cleanup_items_are_the_packages(pkgs: Seq<PackageView>, orphans: Seq<Seq<char>>)
    ensures
        forall|i: int|
            #![trigger pkgs[i]]
            0 <= i < pkgs.len() && orphans.contains(pkgs[i].name) ==> exists|k: int|
                0 <= k < orphan_items(pkgs, orphans).len() && #[trigger] describes(
                    orphan_items(pkgs, orphans)[k],
                    pkgs[i],
                ),
        forall|x: ItemView|
            orphan_items(pkgs, orphans).contains(x) ==> exists|i: int|
                0 <= i < pkgs.len() && orphans.contains(pkgs[i].name) && #[trigger] describes(
                    x,
                    pkgs[i],
                ),
        orphan_items(pkgs, orphans).len() == Set::new(
            |i: int| 0 <= i < pkgs.len() && orphans.contains(pkgs[i].name),
        ).len(),
        forall|i: int|
            #![trigger pkgs[i]]
            0 <= i < pkgs.len() && pkgs[i].install_reason == InstallReason::Dependency
                && pkgs[i].required_by.len() == 0 && !orphans.contains(pkgs[i].name)
                ==> exists|k: int|
                0 <= k < unneeded_items(pkgs, orphans).len() && #[trigger] describes(
                    unneeded_items(pkgs, orphans)[k],
                    pkgs[i],
                ),
        forall|x: ItemView|
            unneeded_items(pkgs, orphans).contains(x) ==> exists|i: int|
                0 <= i < pkgs.len() && pkgs[i].install_reason == InstallReason::Dependency
                    && pkgs[i].required_by.len() == 0 && !orphans.contains(pkgs[i].name)
                    && #[trigger] describes(x, pkgs[i]),
        unneeded_items(pkgs, orphans).len() == Set::new(
            |i: int|
                0 <= i < pkgs.len() && pkgs[i].install_reason == InstallReason::Dependency
                    && pkgs[i].required_by.len() == 0 && !orphans.contains(pkgs[i].name),
        ).len(),
{
    let o = orphan_items(pkgs, orphans);
    let u = unneeded_items(pkgs, orphans);
    let po = orphan_pred(orphans);
    let pu = unneeded_pred(orphans);
    lemma_items_of_filter(pkgs, po);
    lemma_items_of_filter(pkgs, pu);
    assert(o == filtered_items(pkgs, po));
    assert(u == filtered_items(pkgs, pu));
    assert forall|i: int|
        #![trigger pkgs[i]]
        0 <= i < pkgs.len() && orphans.contains(pkgs[i].name) implies exists|k: int|
        0 <= k < o.len() && #[trigger] describes(o[k], pkgs[i]) by {
        assert(po(pkgs[i]));
    }
    assert forall|x: ItemView| o.contains(x) implies exists|i: int|
        0 <= i < pkgs.len() && orphans.contains(pkgs[i].name) && #[trigger] describes(x, pkgs[i]) by {
        let i = choose|i: int| 0 <= i < pkgs.len() && po(pkgs[i]) && #[trigger] describes(x, pkgs[i]);
    }
    assert forall|i: int|
        #![trigger pkgs[i]]
        0 <= i < pkgs.len() && pkgs[i].install_reason == InstallReason::Dependency
            && pkgs[i].required_by.len() == 0 && !orphans.contains(pkgs[i].name) implies exists|
        k: int,
    | 0 <= k < u.len() && #[trigger] describes(u[k], pkgs[i]) by {
        assert(pu(pkgs[i]));
    }
    assert forall|x: ItemView| u.contains(x) implies exists|i: int|
        0 <= i < pkgs.len() && pkgs[i].install_reason == InstallReason::Dependency
            && pkgs[i].required_by.len() == 0 && !orphans.contains(pkgs[i].name)
            && #[trigger] describes(x, pkgs[i]) by {
        let i = choose|i: int| 0 <= i < pkgs.len() && pu(pkgs[i]) && #[trigger] describes(x, pkgs[i]);
    }
    assert(Set::new(|i: int| 0 <= i < pkgs.len() && po(pkgs[i])) =~= Set::new(
        |i: int| 0 <= i < pkgs.len() && orphans.contains(pkgs[i].name),
    ));
    assert(Set::new(|i: int| 0 <= i < pkgs.len() && pu(pkgs[i])) =~= Set::new(
        |i: int|
            0 <= i < pkgs.len() && pkgs[i].install_reason == InstallReason::Dependency
                && pkgs[i].required_by.len() == 0 && !orphans.contains(pkgs[i].name),
    ));
}

/// The count of packages installed for a reason is the number of packages that
/// pacman reports with that reason.
pub proof fn law_reason_count_is_number_of_packages(pkgs: Seq<PackageView>, reason: InstallReason)
    ensures
        count_reason(pkgs, reason) == Set::new(
            |i: int| 0 <= i < pkgs.len() && pkgs[i].install_reason == reason,
        ).len(),
        Set::new(|i: int| 0 <= i < pkgs.len() && pkgs[i].install_reason == reason).finite(),
    decreases pkgs.len(),
{
    let set = Set::new(|i: int| 0 <= i < pkgs.len() && pkgs[i].install_reason == reason);
    if pkgs.len() == 0 {
        assert(set =~= Set::<int>::empty());
    } else {
        let t = pkgs.drop_last();
        law_reason_count_is_number_of_packages(t, reason);
        let tset = Set::new(|i: int| 0 <= i < t.len() && t[i].install_reason == reason);
        assert(!tset.contains(t.len() as int));
        if pkgs.last().install_reason == reason {
            assert(set =~= tset.insert(t.len() as int));
        } else {
            assert(set =~= tset);
        }
    }
}

proof fn lemma_bucket_count(pkgs: Seq<PackageView>, lo: nat, hi: nat)
    ensures
        bucket_of(pkgs, lo, hi).0 == Set::new(
            |i: int| 0 <= i < pkgs.len() && lo <= pkgs[i].installed_size_bytes < hi,
        ).len(),
        Set::new(|i: int| 0 <= i < pkgs.len() && lo <= pkgs[i].installed_size_bytes < hi).finite(),
    decreases pkgs.len(),
{
    let set = Set::new(|i: int| 0 <= i < pkgs.len() && lo <= pkgs[i].installed_size_bytes < hi);
    if pkgs.len() == 0 {
        assert(set =~= Set::<int>::empty());
    } else {
        let t = pkgs.drop_last();
        lemma_bucket_count(t, lo, hi);
        let tset = Set::new(|i: int| 0 <= i < t.len() && lo <= t[i].installed_size_bytes < hi);
        assert(!tset.contains(t.len() as int));
        let b = pkgs.last().installed_size_bytes;
        if lo <= b < hi {
            assert(set =~= tset.insert(t.len() as int));
        } else {
            assert(set =~= tset);
        }
    }
}

/// The five buckets, in order, count the packages under 1 MiB (1048576 bytes), from
/// 1 MiB to under 25000000 bytes, from there to under 100000000, from there to under
/// 500000000, and from 500000000 bytes on.
pub proof fn law_bucket_ranges(pkgs: Seq<PackageView>)
    ensures
        buckets_of(pkgs)[0].0 == "Tiny (<1 MiB)"@,
        buckets_of(pkgs)[0].1 == Set::new(
            |i: int| 0 <= i < pkgs.len() && pkgs[i].installed_size_bytes < 1048576,
        ).len(),
        buckets_of(pkgs)[1].0 == "Small (1-25 MiB)"@,
        buckets_of(pkgs)[1].1 == Set::new(
            |i: int| 0 <= i < pkgs.len() && 1048576 <= pkgs[i].installed_size_bytes < 25000000,
        ).len(),
        buckets_of(pkgs)[2].0 == "Medium (25-100 MiB)"@,
        buckets_of(pkgs)[2].1 == Set::new(
            |i: int| 0 <= i < pkgs.len() && 25000000 <= pkgs[i].installed_size_bytes < 100000000,
        ).len(),
        buckets_of(pkgs)[3].0 == "Large (100-500 MiB)"@,
        buckets_of(pkgs)[3].1 == Set::new(
            |i: int| 0 <= i < pkgs.len() && 100000000 <= pkgs[i].installed_size_bytes < 500000000,
        ).len(),
        buckets_of(pkgs)[4].0 == "Huge (>=500 MiB)"@,
        buckets_of(pkgs)[4].1 == Set::new(
            |i: int| 0 <= i < pkgs.len() && 500000000 <= pkgs[i].installed_size_bytes,
        ).len(),
{
    lemma_bucket_count(pkgs, 0, 1048576);
    lemma_bucket_count(pkgs, 1048576, 25000000);
    lemma_bucket_count(pkgs, 25000000, 100000000);
    lemma_bucket_count(pkgs, 100000000, 500000000);
    lemma_bucket_count(pkgs, 500000000, 0x1_0000_0000_0000_0000);
    assert(Set::new(|i: int| 0 <= i < pkgs.len() && 0 <= pkgs[i].installed_size_bytes < 1048576)
        =~= Set::new(|i: int| 0 <= i < pkgs.len() && pkgs[i].installed_size_bytes < 1048576));
    assert(Set::new(
        |i: int|
            0 <= i < pkgs.len() && 500000000 <= pkgs[i].installed_size_bytes
                < 0x1_0000_0000_0000_0000,
    ) =~= Set::new(|i: int| 0 <= i < pkgs.len() && 500000000 <= pkgs[i].installed_size_bytes));
}

proof fn lemma_names_of_filter(nodes: Seq<NodeView>, pred: spec_fn(NodeView) -> bool)
    ensures
        forall|i: int|
            #![trigger nodes[i]]
            0 <= i < nodes.len() && pred(nodes[i]) ==> node_names(nodes, pred).contains(
                nodes[i].name,
            ),
        forall|x: Seq<char>|
            node_names(nodes, pred).contains(x) ==> exists|i: int|
                0 <= i < nodes.len() && pred(nodes[i]) && #[trigger] nodes[i].name == x,
        node_names(nodes, pred).len() == Set::new(
            |i: int| 0 <= i < nodes.len() && pred(nodes[i]),
        ).len(),
{
    let fl = nodes.filter(pred);
    let names = node_names(nodes, pred);
    lemma_filter_count(nodes, pred);
    assert forall|i: int| #![trigger nodes[i]] 0 <= i < nodes.len() && pred(nodes[i]) implies names.contains(
        nodes[i].name,
    ) by {
        nodes.lemma_filter_contains(pred, i);
        let k = choose|k: int| 0 <= k < fl.len() && fl[k] == nodes[i];
        assert(names[k] == nodes[i].name);
    }
    assert forall|x: Seq<char>| names.contains(x) implies exists|i: int|
        0 <= i < nodes.len() && pred(nodes[i]) && #[trigger] nodes[i].name == x by {
        let k = choose|k: int| 0 <= k < names.len() && names[k] == x;
        nodes.lemma_filter_pred(pred, k);
        nodes.lemma_filter_contains_rev(pred, fl[k]);
        let i = choose|i: int| 0 <= i < nodes.len() && nodes[i] == fl[k];
        assert(nodes[i].name == x);
    }
}

/// The leaf packages are the packages that depend on nothing, the root packages
/// those that nothing requires, and the redundant packages those not installed
/// explicitly that nothing requires: each such package's name is listed, once for
/// each such package, and no other name is.
pub proof fn law_dependency_lists(d: DependencyInspection, pkgs: Seq<PackageView>)
    requires
        inspection_of(d, pkgs),
    ensures
        forall|i: int|
            #![trigger pkgs[i]]
            0 <= i < pkgs.len() && pkgs[i].depends_on.len() == 0
                ==> d.leaf_packages.deep_view().contains(pkgs[i].name),
        forall|x: Seq<char>|
            d.leaf_packages.deep_view().contains(x) ==> exists|i: int|
                0 <= i < pkgs.len() && pkgs[i].depends_on.len() == 0 && #[trigger] pkgs[i].name
                    == x,
        d.leaf_packages.len() == Set::new(
            |i: int| 0 <= i < pkgs.len() && pkgs[i].depends_on.len() == 0,
        ).len(),
        forall|i: int|
            #![trigger pkgs[i]]
            0 <= i < pkgs.len() && pkgs[i].required_by.len() == 0
                ==> d.root_packages.deep_view().contains(pkgs[i].name),
        forall|x: Seq<char>|
            d.root_packages.deep_view().contains(x) ==> exists|i: int|
                0 <= i < pkgs.len() && pkgs[i].required_by.len() == 0 && #[trigger] pkgs[i].name
                    == x,
        d.root_packages.len() == Set::new(
            |i: int| 0 <= i < pkgs.len() && pkgs[i].required_by.len() == 0,
        ).len(),
        forall|i: int|
            #![trigger pkgs[i]]
            0 <= i < pkgs.len() && pkgs[i].install_reason != InstallReason::Explicit
                && pkgs[i].required_by.len() == 0 ==> d.redundant_packages.deep_view().contains(
                pkgs[i].name,
            ),
        forall|x: Seq<char>|
            d.redundant_packages.deep_view().contains(x) ==> exists|i: int|
                0 <= i < pkgs.len() && pkgs[i].install_reason != InstallReason::Explicit
                    && pkgs[i].required_by.len() == 0 && #[trigger] pkgs[i].name == x,
        d.redundant_packages.len() == Set::new(
            |i: int|
                0 <= i < pkgs.len() && pkgs[i].install_reason != InstallReason::Explicit
                    && pkgs[i].required_by.len() == 0,
        ).len(),
{
    let nodes = pkgs.map_values(|p: PackageView| node_of(p));
    assert forall|i: int| 0 <= i < pkgs.len() implies #[trigger] nodes[i] == node_of(pkgs[i]) by {}
    lemma_names_of_filter(nodes, leaf_pred());
    lemma_names_of_filter(nodes, root_pred());
    lemma_names_of_filter(nodes, redundant_pred());
    assert(d.leaf_packages.deep_view().len() == d.leaf_packages.len());
    assert(d.root_packages.deep_view().len() == d.root_packages.len());
    assert(d.redundant_packages.deep_view().len() == d.redundant_packages.len());
    assert(Set::new(|i: int| 0 <= i < nodes.len() && leaf_pred()(nodes[i])) =~= Set::new(
        |i: int| 0 <= i < pkgs.len() && pkgs[i].depends_on.len() == 0,
    ));
    assert(Set::new(|i: int| 0 <= i < nodes.len() && root_pred()(nodes[i])) =~= Set::new(
        |i: int| 0 <= i < pkgs.len() && pkgs[i].required_by.len() == 0,
    ));
    assert(Set::new(|i: int| 0 <= i < nodes.len() && redundant_pred()(nodes[i])) =~= Set::new(
        |i: int|
            0 <= i < pkgs.len() && pkgs[i].install_reason != InstallReason::Explicit
                && pkgs[i].required_by.len() == 0,
    ));
    assert forall|i: int|
        #![trigger pkgs[i]]
        0 <= i < pkgs.len() && pkgs[i].depends_on.len() == 0 implies d.leaf_packages.deep_view().contains(
        pkgs[i].name,
    ) by {
        assert(leaf_pred()(nodes[i]));
    }
    assert forall|i: int|
        #![trigger pkgs[i]]
        0 <= i < pkgs.len() && pkgs[i].required_by.len() == 0 implies d.root_packages.deep_view().contains(
        pkgs[i].name,
    ) by {
        assert(root_pred()(nodes[i]));
    }
    assert forall|i: int|
        #![trigger pkgs[i]]
        0 <= i < pkgs.len() && pkgs[i].install_reason != InstallReason::Explicit
            && pkgs[i].required_by.len() == 0 implies d.redundant_packages.deep_view().contains(
        pkgs[i].name,
    ) by {
        assert(redundant_pred()(nodes[i]));
    }
    assert forall|x: Seq<char>| d.leaf_packages.deep_view().contains(x) implies exists|i: int|
        0 <= i < pkgs.len() && pkgs[i].depends_on.len() == 0 && #[trigger] pkgs[i].name == x by {
        let i = choose|i: int| 0 <= i < nodes.len() && leaf_pred()(nodes[i]) && #[trigger] nodes[i].name == x;
        assert(pkgs[i].name == x);
    }
    assert forall|x: Seq<char>| d.root_packages.deep_view().contains(x) implies exists|i: int|
        0 <= i < pkgs.len() && pkgs[i].required_by.len() == 0 && #[trigger] pkgs[i].name == x by {
        let i = choose|i: int| 0 <= i < nodes.len() && root_pred()(nodes[i]) && #[trigger] nodes[i].name == x;
        assert(pkgs[i].name == x);
    }
    assert forall|x: Seq<char>| d.redundant_packages.deep_view().contains(x) implies exists|i: int|
        0 <= i < pkgs.len() && pkgs[i].install_reason != InstallReason::Explicit
            && pkgs[i].required_by.len() == 0 && #[trigger] pkgs[i].name == x by {
        let i = choose|i: int|
            0 <= i < nodes.len() && redundant_pred()(nodes[i]) && #[trigger] nodes[i].name == x;
        assert(pkgs[i].name == x);
    }
}

/// One for a line that is there, none for one that is not.
pub open spec fn one_if(c: bool) -> int {
    if c {
        1
    } else {
        0
    }
}

/// The advice of an analysis holds one line for each thing that calls for one, and
/// each says what it is about: the orphans first, with their number; the unused
/// dependencies with theirs; the largest package with its size; the dependency
/// warnings with their number; the cache warning; the confidence about unused
/// dependencies; then the verdict that the health score calls for, and last of all,
/// from a bloat score of 70 on, the call to review large and stale packages.
pub proof fn law_advice_lines(
    orphans: nat,
    unused: nat,
    largest: Option<(Seq<char>, u64)>,
    warnings: nat,
    cache_warning: Option<Seq<char>>,
    confidence: Seq<char>,
    health: u8,
    bloat: u8,
)
    ensures
        ({
            let adv = advice_of(
                orphans,
                unused,
                largest,
                warnings,
                cache_warning,
                confidence,
                health,
                bloat,
            );
            &&& adv.len() == one_if(orphans > 0) + one_if(unused > 0) + one_if(largest is Some)
                + one_if(warnings > 0) + one_if(cache_warning is Some) + 2 + one_if(bloat >= 70)
            &&& orphans > 0 ==> adv[0] == "Review and remove "@ + dec(orphans)
                + " orphaned package(s) after verifying they are not needed."@
            &&& unused > 0 ==> adv.contains(
                dec(unused) + " dependency package(s) appear unused and are strong cleanup candidates."@,
            )
            &&& largest matches Some((n, sz)) ==> adv.contains(
                "Largest package detected: "@ + n + " using "@ + format_bytes_spec(sz as nat) + "."@,
            )
            &&& warnings > 0 ==> adv.contains(
                "Inspect "@ + dec(warnings)
                    + " dependency warning(s) for broad or redundant package chains."@,
            )
            &&& cache_warning matches Some(w) ==> adv.contains(w)
            &&& adv.contains("Unused dependency confidence is "@ + confidence + "."@)
            &&& health >= 90 ==> adv.contains("System package state looks healthy overall."@)
            &&& 70 <= health < 90 ==> adv.contains(
                "System is generally healthy, but a targeted cleanup would help."@,
            )
            &&& health < 70 ==> adv.contains(
                "Health score is low enough to justify a careful cleanup and dependency review."@,
            )
            &&& bloat >= 70 ==> adv.last()
                == "The package set looks bloated; review large packages and stale dependencies first."@
            &&& bloat < 70 ==> adv.last() == (if health >= 90 {
                "System package state looks healthy overall."@
            } else if health >= 70 {
                "System is generally healthy, but a targeted cleanup would help."@
            } else {
                "Health score is low enough to justify a careful cleanup and dependency review."@
            })
        }),
{
    let adv = advice_of(
        orphans,
        unused,
        largest,
        warnings,
        cache_warning,
        confidence,
        health,
        bloat,
    );
    let a = line_if(
        orphans > 0,
        "Review and remove "@ + dec(orphans)
            + " orphaned package(s) after verifying they are not needed."@,
    );
    let b = line_if(
        unused > 0,
        dec(unused) + " dependency package(s) appear unused and are strong cleanup candidates."@,
    );
    let c = match largest {
        Some((name, size)) => seq![
            "Largest package detected: "@ + name + " using "@ + format_bytes_spec(size as nat)
                + "."@,
        ],
        None => Seq::<Seq<char>>::empty(),
    };
    let d = line_if(
        warnings > 0,
        "Inspect "@ + dec(warnings)
            + " dependency warning(s) for broad or redundant package chains."@,
    );
    let e = match cache_warning {
        Some(w) => seq![w],
        None => Seq::<Seq<char>>::empty(),
    };
    let f = seq!["Unused dependency confidence is "@ + confidence + "."@];
    let g = seq![health_advice(health)];
    let z = line_if(
        bloat >= 70,
        "The package set looks bloated; review large packages and stale dependencies first."@,
    );
    assert(adv == a + b + c + d + e + f + g + z);
    let ib = a.len() as int;
    let ic = ib + b.len();
    let id = ic + c.len();
    let ie = id + d.len();
    let if_ = ie + e.len();
    let ig = if_ + 1;
    if unused > 0 {
        assert(adv[ib] == b[0]);
    }
    if largest is Some {
        assert(adv[ic] == c[0]);
    }
    if warnings > 0 {
        assert(adv[id] == d[0]);
    }
    if cache_warning is Some {
        assert(adv[ie] == e[0]);
    }
    assert(adv[if_] == f[0]);
    assert(adv[ig] == g[0]);
    if bloat >= 70 {
        assert(adv.last() == z[0]);
    } else {
        assert(adv.last() == g[0]);
    }
}

proof fn lemma_join_holds_each(list: Seq<Seq<char>>, sep: Seq<char>, k: int)
    requires
        0 <= k < list.len(),
    ensures
        exists|off: int|
            0 <= off && off + list[k].len() <= join(list, sep).len() && #[trigger] join(
                list,
                sep,
            ).subrange(off, off + list[k].len()) == list[k],
    decreases list.len(),
{
    let j = join(list, sep);
    if list.len() == 1 {
        assert(j.subrange(0, list[k].len() as int) =~= list[k]);
        assert(join(list, sep).subrange(0int, 0int + list[k].len()) == list[k]);
    } else {
        let init = list.drop_last();
        let ji = join(init, sep);
        assert(j == ji + sep + list.last());
        if k < list.len() - 1 {
            lemma_join_holds_each(init, sep, k);
            let off = choose|off: int|
                0 <= off && off + init[k].len() <= ji.len() && #[trigger] join(init, sep).subrange(
                    off,
                    off + init[k].len(),
                ) == init[k];
            assert(init[k] == list[k]);
            assert(j.subrange(off, off + list[k].len()) =~= ji.subrange(off, off + init[k].len()));
            assert(join(list, sep).subrange(off, off + list[k].len()) == list[k]);
        } else {
            let off = (ji.len() + sep.len()) as int;
            assert(j.subrange(off, off + list[k].len()) =~= list.last());
            assert(join(list, sep).subrange(off, off + list[k].len()) == list[k]);
        }
    }
}

/// The cleanup advice holds one line for each thing that calls for one: the orphans
/// first, with their number; the unused dependencies with theirs; the call to audit
/// large packages from five heavy packages on; and, when there is nothing to remove,
/// that no candidates were found. The dry-run command names every removal
/// candidate after `sudo pacman -Rns --print `, or asks for a manual review when
/// there is none.
pub proof fn law_cleanup_advice_and_command(
    a: CleanupAssessment,
    pkgs: Seq<PackageView>,
    orphans: Seq<Seq<char>>,
    heavy: nat,
    cache: Option<u64>,
)
    requires
        assessment_of(a, pkgs, orphans, heavy, cache),
    ensures
        ({
            let adv = a.recommendations.deep_view();
            let o = orphan_items(pkgs, orphans).len();
            let u = unneeded_items(pkgs, orphans).len();
            &&& adv.len() == one_if(o > 0) + one_if(u > 0) + one_if(heavy >= 5) + one_if(
                o == 0 && u == 0,
            )
            &&& o > 0 ==> adv[0] == "Review "@ + dec(o) + " orphaned package(s) for removal."@
            &&& u > 0 ==> adv.contains(
                dec(u) + " dependency package(s) appear unused and are cleanup candidates."@,
            )
            &&& heavy >= 5 ==> adv.contains(
                "Audit very large packages for optional features and old toolchains."@,
            )
        }),
        "sudo pacman -Rns --print "@.is_prefix_of(a.dry_run_command@),
        a.safe_remove_candidates.len() == 0 ==> a.dry_run_command@
            == "sudo pacman -Rns --print <review-manually>"@,
        forall|x: Seq<char>|
            a.safe_remove_candidates.deep_view().contains(x) ==> exists|off: int|
                0 <= off && off + x.len() <= a.dry_run_command@.len()
                    && #[trigger] a.dry_run_command@.subrange(off, off + x.len()) == x,
{
    law_no_candidates_advice(a, pkgs, orphans, heavy, cache);
    let o = orphan_items(pkgs, orphans).len();
    let u = unneeded_items(pkgs, orphans).len();
    let cands = a.safe_remove_candidates.deep_view();
    assert(cands.len() == a.safe_remove_candidates.len());
    let adv = a.recommendations.deep_view();
    let l1 = line_if(o > 0, "Review "@ + dec(o) + " orphaned package(s) for removal."@);
    let l2 = line_if(u > 0, dec(u) + " dependency package(s) appear unused and are cleanup candidates."@);
    let l3 = line_if(heavy >= 5, "Audit very large packages for optional features and old toolchains."@);
    let l4 = line_if(
        a.safe_remove_candidates.len() == 0,
        "No safe cleanup candidates were detected from the current snapshot."@,
    );
    assert(adv == l1 + l2 + l3 + l4);
    if u > 0 {
        assert(adv[l1.len() as int] == l2[0]);
    }
    if heavy >= 5 {
        assert(adv[(l1.len() + l2.len()) as int] == l3[0]);
    }
    reveal_strlit("sudo pacman -Rns --print ");
    reveal_strlit("sudo pacman -Rns --print <review-manually>");
    let cmd = a.dry_run_command@;
    let prefix = "sudo pacman -Rns --print "@;
    if cands.len() == 0 {
        assert(cmd == "sudo pacman -Rns --print <review-manually>"@);
        assert(cmd.subrange(0, prefix.len() as int) =~= prefix);
    } else {
        assert(cmd == prefix + join(cands, " "@));
        assert(cmd.subrange(0, prefix.len() as int) =~= prefix);
        assert forall|x: Seq<char>| cands.contains(x) implies exists|off: int|
            0 <= off && off + x.len() <= cmd.len() && #[trigger] cmd.subrange(off, off + x.len())
                == x by {
            let k = choose|k: int| 0 <= k < cands.len() && cands[k] == x;
            lemma_join_holds_each(cands, " "@, k);
            let j = join(cands, " "@);
            let off = choose|off: int|
                0 <= off && off + cands[k].len() <= j.len() && #[trigger] join(cands, " "@).subrange(
                    off,
                    off + cands[k].len(),
                ) == cands[k];
            assert(cmd.subrange(prefix.len() + off, prefix.len() + off + cands[k].len())
                =~= j.subrange(off, off + cands[k].len()));
        }
    }
}

/// The colour of a health score: green from 90 to 100, dark green from 70 to 89,
/// yellow from 50 to 69, red from 25 to 49, and dark red below 25 and above 100.
/// The colour of a bloat score: green up to 24, yellow up to 49, red up to 74, dark
/// red from 75. The colour of a count of orphans: green for none, yellow up to four,
/// red from five. The colour of a cache size: red from 10 GiB, yellow from 5 GiB,
/// green below.
pub proof fn law_colours(score: nat, count: nat, bytes: nat)
    ensures
        (score_shade(score) == Shade::Green) <==> (90 <= score <= 100),
        (score_shade(score) == Shade::DarkGreen) <==> (70 <= score <= 89),
        (score_shade(score) == Shade::Yellow) <==> (50 <= score <= 69),
        (score_shade(score) == Shade::Red) <==> (25 <= score <= 49),
        (score_shade(score) == Shade::DarkRed) <==> (score < 25 || score > 100),
        (bloat_shade(score) == Shade::Green) <==> (score <= 24),
        (bloat_shade(score) == Shade::Yellow) <==> (25 <= score <= 49),
        (bloat_shade(score) == Shade::Red) <==> (50 <= score <= 74),
        (bloat_shade(score) == Shade::DarkRed) <==> (score >= 75),
        (orphan_shade(count) == Shade::Green) <==> (count == 0),
        (orphan_shade(count) == Shade::Yellow) <==> (1 <= count <= 4),
        (orphan_shade(count) == Shade::Red) <==> (count >= 5),
        (cache_shade(bytes) == Shade::Red) <==> (bytes >= 10 * 1024 * 1024 * 1024),
        (cache_shade(bytes) == Shade::Yellow) <==> (5 * 1024 * 1024 * 1024 <= bytes < 10 * 1024
            * 1024 * 1024),
        (cache_shade(bytes) == Shade::Green) <==> (bytes < 5 * 1024 * 1024 * 1024),
{
}

/// The dashboard's disk table shows the number of packages and their total size,
/// then the cache size, coloured by it, when it is known, then the heaviest package
/// when there is one; the health table shows the health score and the bloat score
/// coloured as health scores (the bloat score by what it leaves of 100), the
/// confidence about unused dependencies and the number of suspicious chains.
pub proof fn law_dashboard_rows(
    a: SystemAnalysis,
    pkgs: Seq<PackageView>,
    recent: Seq<ActionView>,
    orphans: nat,
)
    requires
        stats_of(a.stats, pkgs, recent, orphans),
    ensures
        ({
            let rows = dashboard_disk_spec(a);
            &&& rows.len() == 2 + one_if(a.cleanup.cache_size_bytes is Some) + one_if(
                pkgs.len() > 0,
            )
            &&& rows[0] == ("Packages"@, dec(pkgs.len()), None::<Shade>)
            &&& rows[1] == ("Total size"@, format_bytes_spec(total_size(pkgs)), None::<Shade>)
            &&& a.cleanup.cache_size_bytes matches Some(b) ==> rows[2] == (
                "Pacman cache"@,
                format_bytes_spec(b as nat),
                Some(
                    if b >= 10 * 1024 * 1024 * 1024 {
                        Shade::Red
                    } else if b >= 5 * 1024 * 1024 * 1024 {
                        Shade::Yellow
                    } else {
                        Shade::Green
                    },
                ),
            )
        }),
        ({
            let rows = dashboard_health_spec(a);
            &&& rows.len() == 4
            &&& rows[0] == ("Health score"@, dec(a.health_score as nat), Some(
                score_shade(a.health_score as nat),
            ))
            &&& rows[1] == ("Bloat score"@, dec(a.bloat_score as nat), Some(
                score_shade(if a.bloat_score <= 100 {
                    (100 - a.bloat_score) as nat
                } else {
                    0
                }),
            ))
            &&& rows[2] == ("Unused dep. confidence"@, a.unused_dependency_confidence@, None::<Shade>)
            &&& rows[3] == (
                "Suspicious dep. chains"@,
                dec(a.dependencies.suspicious_chains.len() as nat),
                None::<Shade>,
            )
        }),
{
    let rows = dashboard_disk_spec(a);
    let c = cache_rows(a.cleanup.cache_size_bytes);
    let hv = entry_views(a.stats.heavy_packages@);
    if pkgs.len() > 0 {
        lemma_heavy_first_is_largest(a.stats, pkgs, recent, orphans);
    } else {
        lemma_entry_order();
        let sorted = choose|sorted: Seq<EntryView>|
            #[trigger] is_stable_sort(sorted, entries_of(pkgs), entry_order()) && entry_views(
                a.stats.largest_packages@,
            ) == take_at_most(sorted, 20) && entry_views(a.stats.heavy_packages@) == heavy_of(sorted)
                && a.stats.median_size_bytes == median_of_sorted(sizes_of(sorted).reverse());
        let perm = choose|p: Seq<int>| stable_sort_with(sorted, entries_of(pkgs), p, entry_order());
        assert(sorted.len() == 0);
        assert(sorted.filter(heavy_pred()).len() == 0) by {
            sorted.lemma_filter_len(heavy_pred());
        }
        assert(hv.len() == 0);
    }
    assert(heaviest_rows(hv).len() == one_if(pkgs.len() > 0));
}

proof fn lemma_filter_positions(s: Seq<Seq<char>>, f: spec_fn(Seq<char>) -> bool) -> (js: Seq<int>)
    ensures
        js.len() == s.filter(f).len(),
        forall|k: int|
            0 <= k < js.len() ==> 0 <= #[trigger] js[k] < s.len() && s.filter(f)[k] == s[js[k]],
        forall|k1: int, k2: int| 0 <= k1 < k2 < js.len() ==> #[trigger] js[k1] < #[trigger] js[k2],
    decreases s.len(),
{
    if s.len() == 0 {
        Seq::empty()
    } else {
        let t = s.drop_last();
        let x = s.last();
        let js0 = lemma_filter_positions(t, f);
        assert(t.push(x) == s);
        t.lemma_filter_push(x, f);
        if f(x) {
            let js = js0.push(t.len() as int);
            assert forall|k: int| 0 <= k < js.len() implies 0 <= #[trigger] js[k] < s.len()
                && s.filter(f)[k] == s[js[k]] by {
                if k < js0.len() {
                    assert(s.filter(f)[k] == t.filter(f)[k]);
                    assert(s[js0[k]] == t[js0[k]]);
                }
            }
            js
        } else {
            assert forall|k: int| 0 <= k < js0.len() implies 0 <= #[trigger] js0[k] < s.len()
                && s.filter(f)[k] == s[js0[k]] by {
                assert(s[js0[k]] == t[js0[k]]);
            }
            js0
        }
    }
}

/// `a` comes before `b` in the order of packages, then of dependency lists.
pub open spec fn pair_before(a: (int, int), b: (int, int)) -> bool {
    a.0 < b.0 || (a.0 == b.0 && a.1 < b.1)
}

/// The missing dependency links come in the order of the packages and, for one
/// package, in the order of its dependency list: each stands for a place in a
/// dependency list, and the places follow each other in that order.
pub proof fn law_missing_dependencies_in_order(pkgs: Seq<PackageView>, names: Seq<Seq<char>>) -> (places: Seq<(int, int)>)
    ensures
        places.len() == missing_of(pkgs, names).len(),
        forall|k: int|
            #![trigger places[k]]
            0 <= k < places.len() ==> {
                let (i, j) = places[k];
                &&& 0 <= i < pkgs.len()
                &&& 0 <= j < pkgs[i].depends_on.len()
                &&& !names.contains(pkgs[i].depends_on[j])
                &&& missing_of(pkgs, names)[k] == (pkgs[i].name, pkgs[i].depends_on[j])
            },
        forall|k1: int, k2: int|
            0 <= k1 < k2 < places.len() ==> pair_before(#[trigger] places[k1], #[trigger] places[k2]),
    decreases pkgs.len(),
{
    if pkgs.len() == 0 {
        Seq::empty()
    } else {
        let init = pkgs.drop_last();
        let p = pkgs.last();
        let n = pkgs.len() - 1;
        let f = |d: Seq<char>| !names.contains(d);
        let p0 = law_missing_dependencies_in_order(init, names);
        let js = lemma_filter_positions(p.depends_on, f);
        let tail = js.map_values(|j: int| (n, j));
        let places = p0 + tail;
        let a = missing_of(init, names);
        let b = missing_of_package(p, names);
        assert(missing_of(pkgs, names) == a + b);
        let fl = p.depends_on.filter(f);
        assert forall|k: int|
            #![trigger places[k]]
            0 <= k < places.len() implies {
            let (i, j) = places[k];
            &&& 0 <= i < pkgs.len()
            &&& 0 <= j < pkgs[i].depends_on.len()
            &&& !names.contains(pkgs[i].depends_on[j])
            &&& missing_of(pkgs, names)[k] == (pkgs[i].name, pkgs[i].depends_on[j])
        } by {
            if k < p0.len() {
                assert(places[k] == p0[k]);
                let (i, j) = p0[k];
                assert(init[i] == pkgs[i]);
                assert(missing_of(pkgs, names)[k] == a[k]);
            } else {
                let q = k - p0.len();
                assert(places[k] == tail[q]);
                assert(tail[q] == (n, js[q]));
                p.depends_on.lemma_filter_pred(f, q);
                assert(fl[q] == p.depends_on[js[q]]);
                assert(missing_of(pkgs, names)[k] == b[q]);
                assert(b[q] == (p.name, fl[q]));
                assert(pkgs[n] == p);
            }
        }
        assert forall|k1: int, k2: int| 0 <= k1 < k2 < places.len() implies pair_before(
            #[trigger] places[k1],
            #[trigger] places[k2],
        ) by {
            if k2 < p0.len() {
                assert(places[k1] == p0[k1]);
                assert(places[k2] == p0[k2]);
            } else if k1 < p0.len() {
                assert(places[k1] == p0[k1]);
                assert(places[k2] == tail[k2 - p0.len()]);
            } else {
                assert(places[k1] == tail[k1 - p0.len()]);
                assert(places[k2] == tail[k2 - p0.len()]);
                assert(js[k1 - p0.len()] < js[k2 - p0.len()]);
            }
        }
        places
    }
}

/// The penalties of the bloat score: two per orphan up to 20, four per unused
/// dependency up to 10, one per two heavy packages up to 12, two per redundant
/// package up to 8, the size pressure between 0 and 25, and for the package cache 8
/// from 20 GiB, 5 from 10 GiB and 3 from 5 GiB. With packages installed the score is
/// their sum; without, it is 0. Each positive penalty is listed with its value, in
/// that order, and no other line is.
pub proof fn law_bloat_penalties(
    orphans: usize,
    unused: usize,
    heavy: usize,
    redundant: usize,
    total: nat,
    packages: nat,
    cache: Option<u64>,
)
    requires
        orphans < 0x1000_0000,
        unused < 0x1000_0000,
        heavy < 0x1000_0000,
        redundant < 0x1000_0000,
    ensures
        orphan_penalty(orphans) == (if 2 * orphans < 20 {
            2 * orphans
        } else {
            20
        }),
        unused_penalty(unused) == (if 4 * unused < 10 {
            4 * unused
        } else {
            10
        }),
        heavy_penalty(heavy) == (if heavy / 2 < 12 {
            heavy / 2
        } else {
            12
        }),
        redundant_penalty(redundant) == (if 2 * redundant < 8 {
            2 * redundant
        } else {
            8
        }),
        packages > 0 ==> 0 <= size_penalty(total, packages) <= 25,
        packages == 0 ==> size_penalty(total, packages) == 0,
        cache_penalty(cache) == (match cache {
            Some(b) => if b >= 20 * 1024 * 1024 * 1024 {
                8int
            } else if b >= 10 * 1024 * 1024 * 1024 {
                5
            } else if b >= 5 * 1024 * 1024 * 1024 {
                3
            } else {
                0
            },
            None => 0,
        }),
        bloat_of(orphans, unused, heavy, redundant, total, packages, cache) == (if packages == 0 {
            0
        } else {
            orphan_penalty(orphans) + unused_penalty(unused) + heavy_penalty(heavy)
                + redundant_penalty(redundant) + size_penalty(total, packages) + cache_penalty(
                cache,
            )
        }),
        ({
            let lines = penalties_of(orphans, unused, heavy, redundant, total, packages, cache);
            &&& lines.len() == one_if(orphans > 0) + one_if(unused > 0) + one_if(heavy >= 2)
                + one_if(redundant > 0) + one_if(size_penalty(total, packages) > 0) + one_if(
                cache_penalty(cache) > 0,
            )
            &&& orphans > 0 ==> lines[0] == "orphans: +"@ + dec(orphan_penalty(orphans) as nat)
            &&& unused > 0 ==> lines.contains(
                "unused dependencies: +"@ + dec(unused_penalty(unused) as nat),
            )
            &&& heavy >= 2 ==> lines.contains("heavy packages: +"@ + dec(heavy_penalty(heavy) as nat))
            &&& redundant > 0 ==> lines.contains(
                "redundant families: +"@ + dec(redundant_penalty(redundant) as nat),
            )
            &&& cache_penalty(cache) > 0 ==> lines.last() == "pacman cache pressure: +"@ + dec(
                cache_penalty(cache) as nat,
            )
        }),
{
    assert(orphans as i32 == orphans);
    assert(unused as i32 == unused);
    assert(heavy as i32 == heavy);
    assert(redundant as i32 == redundant);
    let l1 = penalty_line("orphans"@, orphan_penalty(orphans));
    let l2 = penalty_line("unused dependencies"@, unused_penalty(unused));
    let l3 = penalty_line("heavy packages"@, heavy_penalty(heavy));
    let l4 = penalty_line("redundant families"@, redundant_penalty(redundant));
    let l5 = penalty_line("installed size pressure"@, size_penalty(total, packages));
    let l6 = penalty_line("pacman cache pressure"@, cache_penalty(cache));
    let lines = penalties_of(orphans, unused, heavy, redundant, total, packages, cache);
    assert(lines == l1 + l2 + l3 + l4 + l5 + l6);
    if packages > 0 {
        assert(size_gib_pressure(total) >= 0);
        assert(inventory_pressure(packages) >= 0);
    }
    reveal_strlit(": +");
    reveal_strlit("orphans");
    reveal_strlit("orphans: +");
    reveal_strlit("unused dependencies");
    reveal_strlit("unused dependencies: +");
    reveal_strlit("heavy packages");
    reveal_strlit("heavy packages: +");
    reveal_strlit("redundant families");
    reveal_strlit("redundant families: +");
    reveal_strlit("pacman cache pressure");
    reveal_strlit("pacman cache pressure: +");
    assert("orphans"@ + ": +"@ =~= "orphans: +"@);
    assert("unused dependencies"@ + ": +"@ =~= "unused dependencies: +"@);
    assert("heavy packages"@ + ": +"@ =~= "heavy packages: +"@);
    assert("redundant families"@ + ": +"@ =~= "redundant families: +"@);
    assert("pacman cache pressure"@ + ": +"@ =~= "pacman cache pressure: +"@);
    if orphans > 0 {
        assert(lines[0] == l1[0]);
    }
    if unused > 0 {
        assert(lines[l1.len() as int] == l2[0]);
    }
    if heavy >= 2 {
        assert(lines[(l1.len() + l2.len()) as int] == l3[0]);
    }
    if redundant > 0 {
        assert(lines[(l1.len() + l2.len() + l3.len()) as int] == l4[0]);
    }
    assert(l1.len() == one_if(orphans > 0));
    assert(l2.len() == one_if(unused > 0));
    assert(l3.len() == one_if(heavy >= 2));
    assert(l4.len() == one_if(redundant > 0));
    assert(l5.len() == one_if(size_penalty(total, packages) > 0));
    assert(l6.len() == one_if(cache_penalty(cache) > 0));
    if cache_penalty(cache) > 0 {
        assert(lines.last() == l6[0]);
    }
}

/// The confidence about unused dependencies is low without any, medium with one to
/// four, and high from five on; the cache warning comes from 5 GiB of cache on and
/// grows more urgent at 10 and at 20 GiB.
pub proof fn law_confidence_and_cache_warning(unused: nat, cache: Option<u64>)
    ensures
        (confidence_of(unused) == "low"@) <==> unused == 0,
        (confidence_of(unused) == "medium"@) <==> (1 <= unused <= 4),
        (confidence_of(unused) == "high"@) <==> unused >= 5,
        (cache_warning_of(cache) is Some) <==> (cache matches Some(b) && b >= 5 * 1024 * 1024
            * 1024),
        cache matches Some(b) ==> (b >= 20 * 1024 * 1024 * 1024 ==> cache_warning_of(cache)
            == Some(
            "Pacman cache is very large at "@ + format_bytes_spec(b as nat)
                + "; consider `paccache -ruk0` after review."@,
        )),
        cache matches Some(b) ==> (10 * 1024 * 1024 * 1024 <= b < 20 * 1024 * 1024 * 1024
            ==> cache_warning_of(cache) == Some(
            "Pacman cache is large at "@ + format_bytes_spec(b as nat)
                + "; consider pruning old package archives."@,
        )),
        cache matches Some(b) ==> (5 * 1024 * 1024 * 1024 <= b < 10 * 1024 * 1024 * 1024
            ==> cache_warning_of(cache) == Some(
            "Pacman cache is growing at "@ + format_bytes_spec(b as nat)
                + "; it may be worth trimming stale packages."@,
        )),
{
    reveal_strlit("low");
    reveal_strlit("medium");
    reveal_strlit("high");
    assert("low"@.len() == 3);
    assert("medium"@.len() == 6);
    assert("high"@.len() == 4);
}

/// The table of recorded analyses shows the newest twenty, newest first: row `k`
/// is the entry `k` places from the end, with when it was recorded, its package
/// count, its orphan count and its health score.
pub proof fn law_history_rows_newest_first(entries: Seq<HistoryEntry>)
    ensures
        history_spec(entries).len() == (if entries.len() < 20 {
            entries.len()
        } else {
            20
        }),
        forall|k: int|
            #![trigger history_spec(entries)[k]]
            0 <= k < history_spec(entries).len() ==> {
                let e = entries[entries.len() - 1 - k];
                &&& history_spec(entries)[k].0 == e.collected_at@
                &&& history_spec(entries)[k].1 == dec(e.analysis.stats.total_packages as nat)
                    + " packages | "@ + dec(e.analysis.cleanup.orphans.len() as nat)
                    + " orphans | score "@ + dec(e.analysis.health_score as nat)
            },
{
    let rev = entries.reverse();
    let shown = take_at_most(rev, 20);
    assert forall|k: int|
        #![trigger history_spec(entries)[k]]
        0 <= k < history_spec(entries).len() implies {
        let e = entries[entries.len() - 1 - k];
        &&& history_spec(entries)[k].0 == e.collected_at@
        &&& history_spec(entries)[k].1 == dec(e.analysis.stats.total_packages as nat)
            + " packages | "@ + dec(e.analysis.cleanup.orphans.len() as nat) + " orphans | score "@
            + dec(e.analysis.health_score as nat)
    } by {
        assert(shown[k] == rev[k]);
        assert(rev[k] == entries[entries.len() - 1 - k]);
    }
}

/// The largest packages are the twenty largest, largest first: there are twenty of
/// them or all packages if fewer, each is one of the packages, their sizes descend,
/// and a package not listed is no larger than the last one listed. The heavy
/// packages are of 200 MiB or more, the first twenty of those in that order, when
/// any package is; otherwise they are the five largest.
pub proof fn law_largest_and_heavy(
    stats: PackageStats,
    pkgs: Seq<PackageView>,
    recent: Seq<ActionView>,
    orphans: nat,
)
    requires
        stats_of(stats, pkgs, recent, orphans),
    ensures
        ({
            let largest = entry_views(stats.largest_packages@);
            let heavy = entry_views(stats.heavy_packages@);
            &&& largest.len() == (if pkgs.len() < 20 {
                pkgs.len()
            } else {
                20
            })
            &&& forall|k: int|
                #![trigger largest[k]]
                0 <= k < largest.len() ==> exists|i: int|
                    0 <= i < pkgs.len() && largest[k] == #[trigger] entry_of(pkgs[i])
            &&& forall|k1: int, k2: int|
                0 <= k1 < k2 < largest.len() ==> (#[trigger] largest[k1]).size_bytes >= (
                #[trigger] largest[k2]).size_bytes
            &&& forall|i: int|
                #![trigger pkgs[i]]
                0 <= i < pkgs.len() ==> largest.contains(entry_of(pkgs[i]))
                    || pkgs[i].installed_size_bytes <= largest.last().size_bytes
            &&& (exists|i: int| 0 <= i < pkgs.len() && #[trigger] pkgs[i].installed_size_bytes >= 209715200)
                ==> heavy.len() > 0 && forall|k: int|
                0 <= k < heavy.len() ==> (#[trigger] heavy[k]).size_bytes >= 209715200
            &&& !(exists|i: int| 0 <= i < pkgs.len() && #[trigger] pkgs[i].installed_size_bytes >= 209715200)
                ==> heavy == largest.take(if largest.len() < 5 {
                largest.len() as int
            } else {
                5
            })
        }),
{
    lemma_entry_order();
    let sorted = choose|sorted: Seq<EntryView>|
        #[trigger] is_stable_sort(sorted, entries_of(pkgs), entry_order()) && entry_views(
            stats.largest_packages@,
        ) == take_at_most(sorted, 20) && entry_views(stats.heavy_packages@) == heavy_of(sorted)
            && stats.median_size_bytes == median_of_sorted(sizes_of(sorted).reverse());
    let orig = entries_of(pkgs);
    let perm = choose|p: Seq<int>| stable_sort_with(sorted, orig, p, entry_order());
    law_sorted_sizes_descend(sorted, orig);
    let n = pkgs.len() as int;
    let largest = entry_views(stats.largest_packages@);
    let heavy = entry_views(stats.heavy_packages@);
    assert(largest == take_at_most(sorted, 20));
    assert forall|k: int| #![trigger largest[k]] 0 <= k < largest.len() implies exists|i: int|
        0 <= i < pkgs.len() && largest[k] == #[trigger] entry_of(pkgs[i]) by {
        assert(largest[k] == sorted[k]);
        assert(sorted[k] == orig[perm[k]]);
        assert(orig[perm[k]] == entry_of(pkgs[perm[k]]));
    }
    assert forall|k1: int, k2: int| 0 <= k1 < k2 < largest.len() implies (
    #[trigger] largest[k1]).size_bytes >= (#[trigger] largest[k2]).size_bytes by {
        assert(largest[k1] == sorted[k1]);
        assert(largest[k2] == sorted[k2]);
    }
    assert forall|i: int| #![trigger pkgs[i]] 0 <= i < pkgs.len() implies largest.contains(
        entry_of(pkgs[i]),
    ) || pkgs[i].installed_size_bytes <= largest.last().size_bytes by {
        assert(exists|q: int| 0 <= q < n && perm[q] == i) by {
            lemma_perm_onto(perm, n, i);
        }
        let q = choose|q: int| 0 <= q < n && perm[q] == i;
        assert(sorted[q] == orig[i]);
        assert(orig[i] == entry_of(pkgs[i]));
        if q < largest.len() {
            assert(largest[q] == sorted[q]);
        } else {
            assert(largest.last() == sorted[largest.len() - 1]);
        }
    }
    let f = sorted.filter(heavy_pred());
    if exists|i: int| 0 <= i < pkgs.len() && #[trigger] pkgs[i].installed_size_bytes >= 209715200 {
        let i = choose|i: int| 0 <= i < pkgs.len() && #[trigger] pkgs[i].installed_size_bytes >= 209715200;
        assert(exists|q: int| 0 <= q < n && perm[q] == i) by {
            lemma_perm_onto(perm, n, i);
        }
        let q = choose|q: int| 0 <= q < n && perm[q] == i;
        assert(sorted[q] == orig[i]);
        assert(heavy_pred()(sorted[q]));
        sorted.lemma_filter_contains(heavy_pred(), q);
        assert(f.len() > 0);
        assert(heavy == take_at_most(f, 20));
        assert forall|k: int| 0 <= k < heavy.len() implies (#[trigger] heavy[k]).size_bytes
            >= 209715200 by {
            assert(heavy[k] == f[k]);
            sorted.lemma_filter_pred(heavy_pred(), k);
        }
    } else {
        if f.len() > 0 {
            sorted.lemma_filter_pred(heavy_pred(), 0);
            sorted.lemma_filter_contains_rev(heavy_pred(), f[0]);
            let q = choose|q: int| 0 <= q < sorted.len() && sorted[q] == f[0];
            assert(sorted[q] == orig[perm[q]]);
            assert(pkgs[perm[q]].installed_size_bytes >= 209715200);
        }
        assert(heavy == take_at_most(sorted, 5));
        assert(heavy =~= largest.take(if largest.len() < 5 {
            largest.len() as int
        } else {
            5
        }));
    }
}

} // verus!
