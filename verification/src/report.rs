use vstd::prelude::*;

use crate::analyzer::SystemAnalysis;
use crate::cleanup::{item_total, ref_views, size_order, CleanupAssessment, CleanupItem, ItemView};
use crate::order::is_stable_sort;
use crate::scan::QuickScan;
use crate::stats::{entry_views, format_bytes, format_bytes_spec, EntryView, PackageSizeEntry};
use crate::text::{dec, dec_signed, push_dec, push_dec_signed, push_str};

verus! {

// ---------------------------------------------------------------------------
// Colours of the terminal tables
// ---------------------------------------------------------------------------

/// The colour a value is shown in.
#[derive(Debug, Clone, Copy, PartialEq, Eq, Structural)]
pub enum Shade {
    Green,
    DarkGreen,
    Yellow,
    Red,
    DarkRed,
}

/// Green for no orphans, yellow for up to four, red beyond.
pub open spec fn orphan_shade(count: nat) -> Shade {
    if count == 0 {
        Shade::Green
    } else if count <= 4 {
        Shade::Yellow
    } else {
        Shade::Red
    }
}

/// The colour of a count of orphans or unused dependencies.
pub fn orphan_color(count: usize) -> (c: Shade)
    ensures
        c == orphan_shade(count as nat),
{
    if count == 0 {
        Shade::Green
    } else if count <= 4 {
        Shade::Yellow
    } else {
        Shade::Red
    }
}

/// Red from 10 GiB of package cache, yellow from 5 GiB, green below.
pub open spec fn cache_shade(bytes: nat) -> Shade {
    if bytes >= 10 * 0x4000_0000 {
        Shade::Red
    } else if bytes >= 5 * 0x4000_0000 {
        Shade::Yellow
    } else {
        Shade::Green
    }
}

/// The colour of a package cache size.
pub fn cache_color(bytes: u64) -> (c: Shade)
    ensures
        c == cache_shade(bytes as nat),
{
    if bytes >= 10 * 0x4000_0000 {
        Shade::Red
    } else if bytes >= 5 * 0x4000_0000 {
        Shade::Yellow
    } else {
        Shade::Green
    }
}

/// The colour of a score: green from 90 to 100, dark green from 70, yellow from 50,
/// red from 25, dark red below 25 and above 100.
pub open spec fn score_shade(score: nat) -> Shade {
    if score > 100 {
        Shade::DarkRed
    } else if score >= 90 {
        Shade::Green
    } else if score >= 70 {
        Shade::DarkGreen
    } else if score >= 50 {
        Shade::Yellow
    } else if score >= 25 {
        Shade::Red
    } else {
        Shade::DarkRed
    }
}

/// The colour of a health score.
pub fn score_color(score: u8) -> (c: Shade)
    ensures
        c == score_shade(score as nat),
{
    if score > 100 {
        Shade::DarkRed
    } else if score >= 90 {
        Shade::Green
    } else if score >= 70 {
        Shade::DarkGreen
    } else if score >= 50 {
        Shade::Yellow
    } else if score >= 25 {
        Shade::Red
    } else {
        Shade::DarkRed
    }
}

/// The colour of a bloat score: green below 25, yellow below 50, red below 75,
/// dark red from 75.
pub open spec fn bloat_shade(score: nat) -> Shade {
    if score <= 24 {
        Shade::Green
    } else if score <= 49 {
        Shade::Yellow
    } else if score <= 74 {
        Shade::Red
    } else {
        Shade::DarkRed
    }
}

/// The colour of a bloat score.
pub fn bloat_color(score: u8) -> (c: Shade)
    ensures
        c == bloat_shade(score as nat),
{
    if score <= 24 {
        Shade::Green
    } else if score <= 49 {
        Shade::Yellow
    } else if score <= 74 {
        Shade::Red
    } else {
        Shade::DarkRed
    }
}

/// A change shown with its sign: `+3`, `0`, `-2`.
pub open spec fn delta_text(value: int) -> Seq<char> {
    if value > 0 {
        seq!['+'] + dec(value as nat)
    } else {
        dec_signed(value)
    }
}

/// A change shown with its sign.
pub fn format_delta(value: i128) -> (r: String)
    ensures
        r@ == delta_text(value as int),
{
    let mut s = String::new();
    if value > 0 {
        push_str(&mut s, "+");
        proof {
            reveal_strlit("+");
        }
        push_dec(&mut s, value as u128);
    } else {
        push_dec_signed(&mut s, value);
    }
    s
}

// ---------------------------------------------------------------------------
// Markdown reports
// ---------------------------------------------------------------------------

pub open spec fn scan_markdown_text(
    total: nat,
    explicit: nat,
    dependency: nat,
    orphans: nat,
    cache: Option<u64>,
    missing: nat,
) -> Seq<char> {
    "# amph scan\n\n"@ + "- Packages: "@ + dec(total) + "\n"@ + "- Explicit: "@ + dec(explicit)
        + "\n"@ + "- Dependencies: "@ + dec(dependency) + "\n"@ + "- Orphans: "@ + dec(orphans)
        + "\n"@ + match cache {
        Some(b) => "- Pacman cache: "@ + format_bytes_spec(b as nat) + "\n"@,
        None => Seq::<char>::empty(),
    } + "- Missing dependency links: "@ + dec(missing) + "\n"@
}

fn push_line_count(out: &mut String, label: &str, n: usize)
    ensures
        final(out)@ == old(out)@ + label@ + dec(n as nat) + "\n"@,
{
    push_str(out, label);
    push_dec(out, n as u128);
    push_str(out, "\n");
}

/// The Markdown summary of a quick scan.
pub fn scan_markdown(scan: &QuickScan) -> (r: String)
    ensures
        r@ == scan_markdown_text(
            scan.total_packages as nat,
            scan.explicit_packages as nat,
            scan.dependency_packages as nat,
            scan.orphan_count as nat,
            scan.cache_size_bytes,
            scan.missing_dependencies.len() as nat,
        ),
{
    let mut md = String::new();
    push_str(&mut md, "# amph scan\n\n");
    push_line_count(&mut md, "- Packages: ", scan.total_packages);
    push_line_count(&mut md, "- Explicit: ", scan.explicit_packages);
    push_line_count(&mut md, "- Dependencies: ", scan.dependency_packages);
    push_line_count(&mut md, "- Orphans: ", scan.orphan_count);
    let ghost before = md@;
    match scan.cache_size_bytes {
        Some(b) => {
            push_str(&mut md, "- Pacman cache: ");
            let size = format_bytes(b);
            push_str(&mut md, size.as_str());
            push_str(&mut md, "\n");
        },
        None => {
            assert(md@ == before + Seq::<char>::empty());
        },
    }
    push_line_count(&mut md, "- Missing dependency links: ", scan.missing_dependencies.len());
    md
}

pub open spec fn candidate_row(i: ItemView) -> Seq<char> {
    "| "@ + i.name + " | "@ + i.version + " | "@ + format_bytes_spec(i.size_bytes as nat) + " | "@
        + i.reason + " |\n"@
}

pub open spec fn candidate_rows(s: Seq<ItemView>) -> Seq<char>
    decreases s.len(),
{
    if s.len() == 0 {
        Seq::<char>::empty()
    } else {
        candidate_rows(s.drop_last()) + candidate_row(s.last())
    }
}

pub open spec fn clean_markdown_text(
    orphans: nat,
    unused: nat,
    reclaimable: nat,
    sorted: Seq<ItemView>,
    dry_run: Seq<char>,
) -> Seq<char> {
    "# amph clean\n\n"@ + "- Orphans: "@ + dec(orphans) + "\n"@ + "- Unused dependencies: "@ + dec(
        unused,
    ) + "\n"@ + "- Reclaimable: "@ + format_bytes_spec(reclaimable) + "\n\n"@
        + "## Candidates\n\n| Package | Version | Size | Reason |\n| --- | --- | --- | --- |\n"@
        + candidate_rows(sorted) + "\nDry-run: `"@ + dry_run + "`\n"@
}

fn push_candidate_row(out: &mut String, item: &CleanupItem)
    ensures
        final(out)@ == old(out)@ + candidate_row(item@),
{
    push_str(out, "| ");
    push_str(out, item.name.as_str());
    push_str(out, " | ");
    push_str(out, item.version.as_str());
    push_str(out, " | ");
    let size = format_bytes(item.size_bytes);
    push_str(out, size.as_str());
    push_str(out, " | ");
    push_str(out, item.reason.as_str());
    push_str(out, " |\n");
}

/// The Markdown report of a cleanup assessment, candidates largest first.
pub fn clean_markdown(cleanup: &CleanupAssessment) -> (r: String)
    requires
        item_total(cleanup.all_items()) <= u64::MAX,
    ensures
        exists|sorted: Seq<ItemView>|
            #[trigger] is_stable_sort(sorted, cleanup.all_items(), size_order()) && r@
                == clean_markdown_text(
                cleanup.orphans.len() as nat,
                cleanup.unnecessary_dependencies.len() as nat,
                item_total(cleanup.all_items()),
                sorted,
                cleanup.dry_run_command@,
            ),
{
    let mut md = String::new();
    push_str(&mut md, "# amph clean\n\n");
    push_line_count(&mut md, "- Orphans: ", cleanup.orphans.len());
    push_line_count(&mut md, "- Unused dependencies: ", cleanup.unnecessary_dependencies.len());
    push_str(&mut md, "- Reclaimable: ");
    let reclaimable = format_bytes(cleanup.reclaimable_bytes());
    push_str(&mut md, reclaimable.as_str());
    push_str(&mut md, "\n\n");
    push_str(
        &mut md,
        "## Candidates\n\n| Package | Version | Size | Reason |\n| --- | --- | --- | --- |\n",
    );
    let candidates = cleanup.candidates();
    let ghost sorted = ref_views(candidates@);
    let ghost head = md@;
    let mut i: usize = 0;
    while i < candidates.len()
        invariant
            i <= candidates.len(),
            sorted == ref_views(candidates@),
            md@ == head + candidate_rows(sorted.take(i as int)),
        decreases candidates.len() - i,
    {
        let item: &CleanupItem = candidates[i];
        push_candidate_row(&mut md, item);
        proof {
            assert(sorted.take(i + 1).drop_last() == sorted.take(i as int));
            assert(sorted.take(i + 1).last() == item@);
        }
        i += 1;
    }
    assert(sorted.take(candidates.len() as int) == sorted);
    push_str(&mut md, "\nDry-run: `");
    push_str(&mut md, cleanup.dry_run_command.as_str());
    push_str(&mut md, "`\n");
    md
}

pub open spec fn size_row(e: EntryView) -> Seq<char> {
    "| "@ + e.name + " | "@ + e.version + " | "@ + format_bytes_spec(e.size_bytes as nat) + " |\n"@
}

pub open spec fn size_rows(s: Seq<EntryView>) -> Seq<char>
    decreases s.len(),
{
    if s.len() == 0 {
        Seq::<char>::empty()
    } else {
        size_rows(s.drop_last()) + size_row(s.last())
    }
}

/// A Markdown table of packages and their sizes.
pub open spec fn size_table(s: Seq<EntryView>) -> Seq<char> {
    "| Package | Version | Size |\n| --- | --- | --- |\n"@ + size_rows(s)
}

fn push_size_row(out: &mut String, p: &PackageSizeEntry)
    ensures
        final(out)@ == old(out)@ + size_row(p@),
{
    push_str(out, "| ");
    push_str(out, p.name.as_str());
    push_str(out, " | ");
    push_str(out, p.version.as_str());
    push_str(out, " | ");
    let size = format_bytes(p.size_bytes);
    push_str(out, size.as_str());
    push_str(out, " |\n");
}

/// A Markdown table of packages, their versions and their sizes.
pub fn markdown_table_for_sizes(packages: &[PackageSizeEntry]) -> (r: String)
    ensures
        r@ == size_table(entry_views(packages@)),
{
    let ghost ev = entry_views(packages@);
    let mut out = String::new();
    push_str(&mut out, "| Package | Version | Size |\n| --- | --- | --- |\n");
    let ghost head = out@;
    let mut i: usize = 0;
    while i < packages.len()
        invariant
            i <= packages.len(),
            ev == entry_views(packages@),
            out@ == head + size_rows(ev.take(i as int)),
            head == "| Package | Version | Size |\n| --- | --- | --- |\n"@,
        decreases packages.len() - i,
    {
        let p = &packages[i];
        push_size_row(&mut out, p);
        proof {
            assert(ev.take(i + 1).drop_last() == ev.take(i as int));
            assert(ev.take(i + 1).last() == p@);
        }
        i += 1;
    }
    assert(ev.take(packages.len() as int) == ev);
    out
}

pub open spec fn bullets(s: Seq<Seq<char>>) -> Seq<char>
    decreases s.len(),
{
    if s.len() == 0 {
        Seq::<char>::empty()
    } else {
        bullets(s.drop_last()) + "- "@ + s.last() + "\n"@
    }
}

fn push_bullets(out: &mut String, items: &Vec<String>)
    ensures
        final(out)@ == old(out)@ + bullets(items.deep_view()),
{
    let ghost d = items.deep_view();
    let mut i: usize = 0;
    while i < items.len()
        invariant
            i <= items.len(),
            d == items.deep_view(),
            out@ == old(out)@ + bullets(d.take(i as int)),
        decreases items.len() - i,
    {
        push_str(out, "- ");
        push_str(out, items[i].as_str());
        push_str(out, "\n");
        proof {
            assert(d.take(i + 1).drop_last() == d.take(i as int));
            assert(d.take(i + 1).last() == items[i as int]@);
        }
        i += 1;
    }
    assert(d.take(items.len() as int) == d);
}

pub open spec fn full_markdown_text(a: SystemAnalysis) -> Seq<char> {
    "# amph report\n\n"@ + "- Generated at: "@ + a.snapshot.generated_at@ + "\n"@ + "- Packages: "@
        + dec(a.stats.total_packages as nat) + "\n"@ + "- Total size: "@ + format_bytes_spec(
        a.stats.total_size_bytes as nat,
    ) + "\n"@ + "- Health score: "@ + dec(a.health_score as nat) + "\n\n"@
        + "## Largest packages\n\n"@ + size_table(entry_views(a.stats.largest_packages@))
        + "\n\n"@ + "## Cleanup candidates\n\n"@ + (if a.cleanup.safe_remove_candidates.len()
        == 0 {
        "No cleanup candidates detected.\n\n"@
    } else {
        bullets(a.cleanup.safe_remove_candidates.deep_view()) + "\n"@
    }) + "## Recommendations\n\n"@ + bullets(a.recommendations.deep_view())
}

/// The full Markdown report of an analysis.
pub fn full_markdown(analysis: &SystemAnalysis) -> (r: String)
    ensures
        r@ == full_markdown_text(*analysis),
{
    let mut md = String::new();
    push_str(&mut md, "# amph report\n\n");
    push_str(&mut md, "- Generated at: ");
    push_str(&mut md, analysis.snapshot.generated_at.as_str());
    push_str(&mut md, "\n");
    push_line_count(&mut md, "- Packages: ", analysis.stats.total_packages);
    push_str(&mut md, "- Total size: ");
    let total = format_bytes(analysis.stats.total_size_bytes);
    push_str(&mut md, total.as_str());
    push_str(&mut md, "\n");
    push_str(&mut md, "- Health score: ");
    push_dec(&mut md, analysis.health_score as u128);
    push_str(&mut md, "\n\n");
    push_str(&mut md, "## Largest packages\n\n");
    let table = markdown_table_for_sizes(analysis.stats.largest_packages.as_slice());
    push_str(&mut md, table.as_str());
    push_str(&mut md, "\n\n");
    push_str(&mut md, "## Cleanup candidates\n\n");
    if analysis.cleanup.safe_remove_candidates.len() == 0 {
        push_str(&mut md, "No cleanup candidates detected.\n\n");
    } else {
        push_bullets(&mut md, &analysis.cleanup.safe_remove_candidates);
        push_str(&mut md, "\n");
    }
    push_str(&mut md, "## Recommendations\n\n");
    push_bullets(&mut md, &analysis.recommendations);
    md
}

} // verus!
