use vstd::prelude::*;

use crate::order::{is_stable_sort, lemma_stable_insert, stable_sort_with, strict_weak_order};
use crate::pacman::{
    action_views, clone_actions, clone_opt_string, InstallReason, PackageRecord,
    PackageView, RecentPackageAction, SystemSnapshot, package_views, ActionView,
};
use crate::text::{
    dec, digit_char, lemma_seq_lt_irreflexive, lemma_seq_lt_total,
    lemma_seq_lt_transitive, push_char, push_dec, push_str, seq_lt, string_lt,
};

verus! {

// ---------------------------------------------------------------------------
// Byte counts for people
// ---------------------------------------------------------------------------

pub open spec fn two_pow(k: nat) -> nat
    decreases k,
{
    if k == 0 {
        1
    } else {
        2 * two_pow((k - 1) as nat)
    }
}

/// Number of binary digits of `n`.
pub open spec fn bit_len(n: nat) -> nat
    decreases n,
{
    if n == 0 {
        0
    } else {
        1 + bit_len(n / 2)
    }
}

/// `num / den` rounded to the nearest integer, ties to the even one.
pub open spec fn round_half_even(num: nat, den: nat) -> nat {
    let q = num / den;
    let r = num % den;
    if 2 * r > den || (2 * r == den && q % 2 == 1) {
        q + 1
    } else {
        q
    }
}

/// The value of `n as f64`: `n` rounded to 53 significant bits, ties to even.
pub open spec fn f64_value(n: nat) -> nat {
    if bit_len(n) <= 53 {
        n
    } else {
        let unit = two_pow((bit_len(n) - 53) as nat);
        round_half_even(n, unit) * unit
    }
}

/// Which unit `format_bytes` shows: B, KiB, MiB, GiB or TiB.
pub open spec fn unit_index(b: nat) -> nat {
    if b < 1024 {
        0
    } else if b < 1048576 {
        1
    } else if b < 1073741824 {
        2
    } else if b < 1099511627776 {
        3
    } else {
        4
    }
}

/// How many bytes one of the unit stands for.
pub open spec fn unit_scale(i: nat) -> nat {
    if i == 0 {
        1
    } else if i == 1 {
        1024
    } else if i == 2 {
        1048576
    } else if i == 3 {
        1073741824
    } else {
        1099511627776
    }
}

pub open spec fn unit_name(i: nat) -> Seq<char> {
    if i == 0 {
        "B"@
    } else if i == 1 {
        "KiB"@
    } else if i == 2 {
        "MiB"@
    } else if i == 3 {
        "GiB"@
    } else {
        "TiB"@
    }
}

/// The shown size in tenths of the unit: `{:.1}` of the `f64` quotient.
pub open spec fn tenths(b: nat) -> nat {
    round_half_even(10 * f64_value(b), unit_scale(unit_index(b)))
}

/// `format_bytes`: a count below 1024 as `N B`; otherwise the count in the largest
/// unit up to TiB that it reaches, with one decimal, rounded half to even.
pub open spec fn format_bytes_spec(b: nat) -> Seq<char> {
    let i = unit_index(b);
    if i == 0 {
        dec(b) + " B"@
    } else {
        let n = tenths(b);
        dec(n / 10) + seq!['.', digit_char(n % 10), ' '] + unit_name(i)
    }
}

proof fn lemma_bit_len_range(m: nat, k: nat)
    requires
        k >= 1,
        two_pow((k - 1) as nat) <= m < two_pow(k),
    ensures
        bit_len(m) == k,
    decreases k,
{
    if k == 1 {
        assert(two_pow(0) == 1);
        assert(two_pow(1) == 2);
        assert(m == 1);
        assert(bit_len(0) == 0);
    } else {
        let j = (k - 1) as nat;
        assert(two_pow(k) == 2 * two_pow(j));
        assert(two_pow(j) == 2 * two_pow((j - 1) as nat));
        assert(two_pow((j - 1) as nat) <= m / 2 < two_pow(j)) by (nonlinear_arith)
            requires
                two_pow(j) <= m < two_pow(k),
                two_pow(k) == 2 * two_pow(j),
                two_pow(j) == 2 * two_pow((j - 1) as nat),
        ;
        lemma_bit_len_range(m / 2, j);
    }
}

proof fn lemma_two_pow_53()
    ensures
        two_pow(53) == 0x20_0000_0000_0000,
        two_pow(52) == 0x10_0000_0000_0000,
{
    reveal_with_fuel(two_pow, 54);
}

/// `b as f64`, as an exact integer.
pub fn f64_value_of(b: u64) -> (x: u128)
    ensures
        x == f64_value(b as nat),
        x <= 0x1_0000_0000_0000_0000u128,
{
    proof {
        lemma_two_pow_53();
    }
    if b < 0x20_0000_0000_0000u64 {
        proof {
            lemma_bit_len_bound(b as nat, 53);
        }
        return b as u128;
    }
    let mut m: u64 = b;
    let mut unit: u128 = 1;
    let ghost mut s: nat = 0;
    assert(two_pow(0) == 1);
    while m >= 0x20_0000_0000_0000u64
        invariant
            two_pow(53) == 0x20_0000_0000_0000,
            two_pow(52) == 0x10_0000_0000_0000,
            bit_len(b as nat) == s + bit_len(m as nat),
            unit == two_pow(s),
            1 <= unit,
            m == b as nat / unit as nat,
            m >= 0x10_0000_0000_0000u64,
            unit * 0x10_0000_0000_0000 <= b,
        decreases m,
    {
        assert(bit_len(m as nat) == 1 + bit_len(m as nat / 2));
        proof {
            vstd::arithmetic::div_mod::lemma_div_denominator(b as int, unit as int, 2);
            vstd::arithmetic::div_mod::lemma_fundamental_div_mod(b as int, unit as int);
        }
        assert(unit * 0x20_0000_0000_0000 <= b) by (nonlinear_arith)
            requires
                m == b as nat / unit as nat,
                m >= 0x20_0000_0000_0000u64,
                unit > 0,
                b as int == unit as int * (b as int / unit as int) + b as int % unit as int,
                b as int % unit as int >= 0,
        ;
        m = m / 2;
        unit = unit * 2;
        proof {
            s = s + 1;
            assert(two_pow(s) == 2 * two_pow((s - 1) as nat));
        }
    }
    proof {
        lemma_bit_len_range(m as nat, 53);
        vstd::arithmetic::div_mod::lemma_fundamental_div_mod(b as int, unit as int);
    }
    proof {
        reveal_with_fuel(two_pow, 65);
        assert(two_pow(64) == 0x1_0000_0000_0000_0000);
        lemma_bit_len_bound(b as nat, 64);
        lemma_two_pow_monotone(s, 11);
        assert(two_pow(11) == 2048);
    }
    assert(unit <= 2048);
    let q: u128 = (b as u128) / unit;
    let r: u128 = (b as u128) % unit;
    assert(q == m);
    let rounded: u128 = if 2 * r > unit || (2 * r == unit && q % 2 == 1) {
        q + 1
    } else {
        q
    };
    assert(rounded * unit <= 0x1_0000_0000_0000_0000u128) by (nonlinear_arith)
        requires
            rounded <= q + 1,
            q < 0x20_0000_0000_0000u64,
            unit <= 2048,
    ;
    rounded * unit
}

proof fn lemma_two_pow_monotone(a: nat, b: nat)
    requires
        a <= b,
    ensures
        two_pow(a) <= two_pow(b),
    decreases b,
{
    if a < b {
        lemma_two_pow_monotone(a, (b - 1) as nat);
    }
}

proof fn lemma_bit_len_bound(n: nat, k: nat)
    requires
        n < two_pow(k),
    ensures
        bit_len(n) <= k,
    decreases k,
{
    if n > 0 && k > 0 {
        assert(n / 2 < two_pow((k - 1) as nat)) by (nonlinear_arith)
            requires
                n < two_pow(k),
                two_pow(k) == 2 * two_pow((k - 1) as nat),
        ;
        lemma_bit_len_bound(n / 2, (k - 1) as nat);
    } else if n > 0 {
        assert(two_pow(0) == 1);
    }
}

/// A byte count as people read it: `512 B`, `1.5 KiB`, `3.2 GiB`.
pub fn format_bytes(bytes: u64) -> (r: String)
    ensures
        r@ == format_bytes_spec(bytes as nat),
{
    let mut out = String::new();
    if bytes < 1024 {
        push_dec(&mut out, bytes as u128);
        push_str(&mut out, " B");
        return out;
    }
    let (scale, unit): (u128, &str) = if bytes < 1048576 {
        (1024, "KiB")
    } else if bytes < 1073741824 {
        (1048576, "MiB")
    } else if bytes < 1099511627776 {
        (1073741824, "GiB")
    } else {
        (1099511627776, "TiB")
    };
    let x = f64_value_of(bytes);
    let num: u128 = 10 * x;
    let q = num / scale;
    let rem = num % scale;
    let n: u128 = if 2 * rem > scale || (2 * rem == scale && q % 2 == 1) {
        q + 1
    } else {
        q
    };
    assert(n == tenths(bytes as nat));
    push_dec(&mut out, n / 10);
    push_char(&mut out, '.');
    push_char(&mut out, digit_of(n % 10));
    push_char(&mut out, ' ');
    push_str(&mut out, unit);
    out
}

fn digit_of(d: u128) -> (c: char)
    requires
        d < 10,
    ensures
        c == digit_char(d as nat),
{
    if d == 0 {
        '0'
    } else if d == 1 {
        '1'
    } else if d == 2 {
        '2'
    } else if d == 3 {
        '3'
    } else if d == 4 {
        '4'
    } else if d == 5 {
        '5'
    } else if d == 6 {
        '6'
    } else if d == 7 {
        '7'
    } else if d == 8 {
        '8'
    } else {
        '9'
    }
}

/// The magnitude of a signed count cut to its low 64 bits, as `unsigned_abs() as u64` does.
pub open spec fn low_magnitude(b: int) -> nat {
    (if b < 0 {
        -b
    } else {
        b
    }) as nat % 0x1_0000_0000_0000_0000
}

/// `format_signed_bytes`: a minus sign before a negative count.
pub open spec fn format_signed_bytes_spec(b: int) -> Seq<char> {
    if b < 0 {
        seq!['-'] + format_bytes_spec(low_magnitude(b))
    } else {
        format_bytes_spec(low_magnitude(b))
    }
}

/// A signed byte count as people read it, such as a change in size.
pub fn format_signed_bytes(bytes: i128) -> (r: String)
    ensures
        r@ == format_signed_bytes_spec(bytes as int),
{
    let magnitude: u128 = if bytes == i128::MIN {
        0x8000_0000_0000_0000_0000_0000_0000_0000u128
    } else if bytes < 0 {
        (-bytes) as u128
    } else {
        bytes as u128
    };
    let low = (magnitude % 0x1_0000_0000_0000_0000u128) as u64;
    if bytes < 0 {
        let mut out = String::new();
        push_char(&mut out, '-');
        let rest = format_bytes(low);
        push_str(&mut out, rest.as_str());
        assert(out@ == seq!['-'] + rest@);
        out
    } else {
        format_bytes(low)
    }
}


// ---------------------------------------------------------------------------
// Data model
// ---------------------------------------------------------------------------

/// A package with the size that it takes on disk.
#[derive(Debug)]
pub struct PackageSizeEntry {
    pub name: String,
    pub version: String,
    pub size_bytes: u64,
    pub description: Option<String>,
}

/// What a size entry holds, as plain sequences.
pub struct EntryView {
    pub name: Seq<char>,
    pub version: Seq<char>,
    pub size_bytes: u64,
    pub description: Option<Seq<char>>,
}

impl View for PackageSizeEntry {
    type V = EntryView;

    open spec fn view(&self) -> EntryView {
        EntryView {
            name: self.name@,
            version: self.version@,
            size_bytes: self.size_bytes,
            description: self.description.deep_view(),
        }
    }
}

impl Clone for PackageSizeEntry {
    fn clone(&self) -> (r: Self)
        ensures
            r@ == self@,
    {
        PackageSizeEntry {
            name: self.name.clone(),
            version: self.version.clone(),
            size_bytes: self.size_bytes,
            description: clone_opt_string(&self.description),
        }
    }
}

pub open spec fn entry_views(s: Seq<PackageSizeEntry>) -> Seq<EntryView> {
    s.map_values(|e: PackageSizeEntry| e@)
}

/// How many packages fall in a size range, and how much they take together.
#[derive(Debug, Clone)]
pub struct SizeBucket {
    pub label: String,
    pub count: usize,
    pub total_bytes: u64,
}

pub open spec fn bucket_view(b: SizeBucket) -> (Seq<char>, nat, nat) {
    (b.label@, b.count as nat, b.total_bytes as nat)
}

pub open spec fn bucket_views(s: Seq<SizeBucket>) -> Seq<(Seq<char>, nat, nat)> {
    s.map_values(|b: SizeBucket| bucket_view(b))
}

/// Statistics over the installed packages.
#[derive(Debug, Clone)]
pub struct PackageStats {
    pub total_packages: usize,
    pub total_size_bytes: u64,
    pub average_size_bytes: u64,
    pub median_size_bytes: u64,
    pub largest_packages: Vec<PackageSizeEntry>,
    pub heavy_packages: Vec<PackageSizeEntry>,
    pub size_buckets: Vec<SizeBucket>,
    pub recent_packages: Vec<RecentPackageAction>,
    pub orphan_count: usize,
    pub explicit_packages: usize,
    pub dependency_packages: usize,
}

// ---------------------------------------------------------------------------
// Specification of the statistics
// ---------------------------------------------------------------------------

pub open spec fn entry_of(p: PackageView) -> EntryView {
    EntryView {
        name: p.name,
        version: p.version,
        size_bytes: p.installed_size_bytes,
        description: p.description,
    }
}

pub open spec fn entries_of(pkgs: Seq<PackageView>) -> Seq<EntryView> {
    pkgs.map_values(|p: PackageView| entry_of(p))
}

/// The order of the size listing: larger first, then by name.
pub open spec fn entry_before(a: EntryView, b: EntryView) -> bool {
    a.size_bytes > b.size_bytes || (a.size_bytes == b.size_bytes && seq_lt(a.name, b.name))
}

pub open spec fn entry_order() -> spec_fn(EntryView, EntryView) -> bool {
    |a: EntryView, b: EntryView| entry_before(a, b)
}

pub open spec fn total_size(pkgs: Seq<PackageView>) -> nat
    decreases pkgs.len(),
{
    if pkgs.len() == 0 {
        0
    } else {
        total_size(pkgs.drop_last()) + pkgs.last().installed_size_bytes as nat
    }
}

/// Packages whose size lies in `[lo, hi)`: how many, and their total size.
pub open spec fn bucket_of(pkgs: Seq<PackageView>, lo: nat, hi: nat) -> (nat, nat)
    decreases pkgs.len(),
{
    if pkgs.len() == 0 {
        (0, 0)
    } else {
        let r = bucket_of(pkgs.drop_last(), lo, hi);
        let b = pkgs.last().installed_size_bytes;
        if lo <= b < hi {
            (r.0 + 1, r.1 + b as nat)
        } else {
            r
        }
    }
}

pub open spec fn count_reason(pkgs: Seq<PackageView>, reason: InstallReason) -> nat
    decreases pkgs.len(),
{
    if pkgs.len() == 0 {
        0
    } else {
        count_reason(pkgs.drop_last(), reason) + (if pkgs.last().install_reason == reason {
            1nat
        } else {
            0nat
        })
    }
}

pub open spec fn take_at_most<T>(s: Seq<T>, n: nat) -> Seq<T> {
    if s.len() <= n {
        s
    } else {
        s.take(n as int)
    }
}

pub open spec fn heavy_pred() -> spec_fn(EntryView) -> bool {
    |e: EntryView| e.size_bytes >= 209715200
}

/// The packages of at least 200 MiB, the first twenty of them; when there is none,
/// the five largest packages.
pub open spec fn heavy_of(sorted: Seq<EntryView>) -> Seq<EntryView> {
    let heavy = take_at_most(sorted.filter(heavy_pred()), 20);
    if heavy.len() == 0 {
        take_at_most(sorted, 5)
    } else {
        heavy
    }
}

pub open spec fn sizes_of(s: Seq<EntryView>) -> Seq<u64> {
    s.map_values(|e: EntryView| e.size_bytes)
}

/// The median of values sorted in ascending order: the middle one, or the mean of
/// the two middle ones rounded down; 0 for no values.
pub open spec fn median_of_sorted(asc: Seq<u64>) -> nat {
    if asc.len() == 0 {
        0
    } else {
        let m = asc.len() / 2;
        if asc.len() % 2 == 1 {
            asc[m as int] as nat
        } else {
            ((asc[m - 1] + asc[m as int]) / 2) as nat
        }
    }
}

pub open spec fn bucket_labels() -> Seq<Seq<char>> {
    seq![
        "Tiny (<1 MiB)"@,
        "Small (1-25 MiB)"@,
        "Medium (25-100 MiB)"@,
        "Large (100-500 MiB)"@,
        "Huge (>=500 MiB)"@,
    ]
}

pub open spec fn bucket_bounds() -> Seq<(nat, nat)> {
    seq![
        (0nat, 1048576nat),
        (1048576nat, 25000000nat),
        (25000000nat, 100000000nat),
        (100000000nat, 500000000nat),
        (500000000nat, 0x1_0000_0000_0000_0000nat),
    ]
}

/// The five size buckets, from tiny to huge.
pub open spec fn buckets_of(pkgs: Seq<PackageView>) -> Seq<(Seq<char>, nat, nat)> {
    Seq::new(
        5,
        |i: int|
            {
                let r = bucket_of(pkgs, bucket_bounds()[i].0, bucket_bounds()[i].1);
                (bucket_labels()[i], r.0, r.1)
            },
    )
}

// ---------------------------------------------------------------------------
// Sorting entries
// ---------------------------------------------------------------------------

pub proof fn lemma_entry_order()
    ensures
        strict_weak_order(entry_order()),
{
    let b = entry_order();
    assert forall|a: EntryView| !#[trigger] b(a, a) by {
        lemma_seq_lt_irreflexive(a.name);
    }
    assert forall|x: EntryView, y: EntryView, z: EntryView| #[trigger] b(x, y) && #[trigger] b(
        y,
        z,
    ) implies b(x, z) by {
        if x.size_bytes == y.size_bytes && y.size_bytes == z.size_bytes {
            lemma_seq_lt_transitive(x.name, y.name, z.name);
        }
    }
    assert forall|x: EntryView, y: EntryView, z: EntryView| #[trigger] b(x, z) implies b(x, y)
        || #[trigger] b(y, z) by {
        if x.size_bytes == y.size_bytes && y.size_bytes == z.size_bytes {
            lemma_seq_lt_total(x.name, y.name);
            if seq_lt(y.name, x.name) {
                lemma_seq_lt_transitive(y.name, x.name, z.name);
            }
        }
    }
}

fn entry_before_exec(a: &PackageSizeEntry, b: &PackageSizeEntry) -> (r: bool)
    ensures
        r == entry_before(a@, b@),
{
    a.size_bytes > b.size_bytes || (a.size_bytes == b.size_bytes && string_lt(&a.name, &b.name))
}

/// The entries sorted by size, largest first, then by name; equal entries keep
/// their order.
pub fn sort_entries(entries: Vec<PackageSizeEntry>) -> (r: Vec<PackageSizeEntry>)
    ensures
        is_stable_sort(entry_views(r@), entry_views(entries@), entry_order()),
{
    proof {
        lemma_entry_order();
    }
    let ghost orig = entry_views(entries@);
    let mut r: Vec<PackageSizeEntry> = Vec::new();
    let ghost mut perm: Seq<int> = Seq::empty();
    let mut i: usize = 0;
    for e in it: entries
        invariant
            strict_weak_order(entry_order()),
            it.seq() == entries@,
            orig == entry_views(entries@),
            stable_sort_with(
                entry_views(r@),
                orig.take(it.index() as int),
                perm,
                entry_order(),
            ),
    {
        let ghost sorted = entry_views(r@);
        let ghost done = orig.take(it.index() as int);
        let mut k: usize = 0;
        while k < r.len() && !entry_before_exec(&e, &r[k])
            invariant
                k <= r.len(),
                sorted == entry_views(r@),
                forall|j: int| 0 <= j < k ==> !entry_order()(e@, #[trigger] sorted[j]),
            decreases r.len() - k,
        {
            k += 1;
        }
        proof {
            assert(e@ == orig[it.index() as int]);
            lemma_stable_insert(sorted, done, perm, entry_order(), e@, k as int);
            perm = perm.insert(k as int, done.len() as int);
            assert(orig.take(it.index() + 1) == done.push(e@));
        }
        r.insert(k, e);
        assert(entry_views(r@) == sorted.insert(k as int, e@));
    }
    assert(orig.take(entries.len() as int) == orig);
    r
}


// ---------------------------------------------------------------------------
// Computing the statistics
// ---------------------------------------------------------------------------

proof fn lemma_total_prefix(pkgs: Seq<PackageView>, i: int)
    requires
        0 <= i <= pkgs.len(),
    ensures
        total_size(pkgs.take(i)) <= total_size(pkgs),
    decreases pkgs.len() - i,
{
    if i < pkgs.len() {
        lemma_total_prefix(pkgs, i + 1);
        assert(pkgs.take(i + 1).drop_last() == pkgs.take(i));
    } else {
        assert(pkgs.take(i) == pkgs);
    }
}

proof fn lemma_bucket_le_total(pkgs: Seq<PackageView>, lo: nat, hi: nat)
    ensures
        bucket_of(pkgs, lo, hi).1 <= total_size(pkgs),
        bucket_of(pkgs, lo, hi).0 <= pkgs.len(),
    decreases pkgs.len(),
{
    if pkgs.len() > 0 {
        lemma_bucket_le_total(pkgs.drop_last(), lo, hi);
    }
}

proof fn lemma_count_reason_le(pkgs: Seq<PackageView>, reason: InstallReason)
    ensures
        count_reason(pkgs, reason) <= pkgs.len(),
    decreases pkgs.len(),
{
    if pkgs.len() > 0 {
        lemma_count_reason_le(pkgs.drop_last(), reason);
    }
}

/// One size entry per package, in the order of the packages.
fn size_entries(packages: &Vec<PackageRecord>) -> (r: Vec<PackageSizeEntry>)
    ensures
        entry_views(r@) == entries_of(package_views(packages@)),
{
    let mut r: Vec<PackageSizeEntry> = Vec::new();
    let mut i: usize = 0;
    while i < packages.len()
        invariant
            i <= packages.len(),
            entry_views(r@) == entries_of(package_views(packages@)).take(i as int),
        decreases packages.len() - i,
    {
        let p = &packages[i];
        r.push(
            PackageSizeEntry {
                name: p.name.clone(),
                version: p.version.clone(),
                size_bytes: p.installed_size_bytes,
                description: clone_opt_string(&p.description),
            },
        );
        assert(entries_of(package_views(packages@)).take(i + 1) == entries_of(
            package_views(packages@),
        ).take(i as int).push(entry_of(packages@[i as int]@)));
        i += 1;
    }
    assert(entries_of(package_views(packages@)).take(packages.len() as int) == entries_of(
        package_views(packages@),
    ));
    r
}

/// The first `n` entries, or all of them when there are fewer.
fn first_entries(sorted: &Vec<PackageSizeEntry>, n: usize) -> (r: Vec<PackageSizeEntry>)
    ensures
        entry_views(r@) == take_at_most(entry_views(sorted@), n as nat),
{
    let mut r: Vec<PackageSizeEntry> = Vec::new();
    let mut i: usize = 0;
    while i < sorted.len() && i < n
        invariant
            i <= sorted.len(),
            i <= n,
            entry_views(r@) == entry_views(sorted@).take(i as int),
        decreases sorted.len() - i,
    {
        r.push(sorted[i].clone());
        assert(entry_views(sorted@).take(i + 1) == entry_views(sorted@).take(i as int).push(
            sorted@[i as int]@,
        ));
        i += 1;
    }
    assert(entry_views(sorted@).take(sorted.len() as int) == entry_views(sorted@));
    r
}

/// The heavy packages among the sorted entries.
fn heavy_entries(sorted: &Vec<PackageSizeEntry>) -> (r: Vec<PackageSizeEntry>)
    ensures
        entry_views(r@) == heavy_of(entry_views(sorted@)),
{
    let ghost sv = entry_views(sorted@);
    let mut r: Vec<PackageSizeEntry> = Vec::new();
    let mut i: usize = 0;
    while i < sorted.len()
        invariant
            i <= sorted.len(),
            sv == entry_views(sorted@),
            entry_views(r@) == take_at_most(sv.take(i as int).filter(heavy_pred()), 20),
        decreases sorted.len() - i,
    {
        let ghost f = sv.take(i as int).filter(heavy_pred());
        proof {
            assert(sv.take(i + 1) == sv.take(i as int).push(sv[i as int]));
            sv.take(i as int).lemma_filter_push(sv[i as int], heavy_pred());
        }
        if sorted[i].size_bytes >= 209715200 {
            if r.len() < 20 {
                assert(entry_views(r@).len() == r@.len());
                assert(f.len() < 20);
                r.push(sorted[i].clone());
            } else {
                assert(f.push(sv[i as int]).take(20) == f.take(20));
            }
        }
        i += 1;
    }
    assert(sv.take(sorted.len() as int) == sv);
    if r.len() == 0 {
        first_entries(sorted, 5)
    } else {
        r
    }
}

/// The median size from the entries sorted largest first.
fn median_size(sorted: &Vec<PackageSizeEntry>) -> (m: u64)
    ensures
        m == median_of_sorted(sizes_of(entry_views(sorted@)).reverse()),
{
    let n = sorted.len();
    let ghost asc = sizes_of(entry_views(sorted@)).reverse();
    if n == 0 {
        return 0;
    }
    let mid = n / 2;
    assert(asc[mid as int] == sorted@[n - 1 - mid].size_bytes);
    if n % 2 == 1 {
        sorted[n - 1 - mid].size_bytes
    } else {
        assert(asc[mid - 1] == sorted@[n - mid].size_bytes);
        let a = sorted[n - mid].size_bytes as u128;
        let b = sorted[n - 1 - mid].size_bytes as u128;
        ((a + b) / 2) as u64
    }
}

/// The five size buckets of the packages.
fn build_size_buckets(packages: &Vec<PackageRecord>) -> (r: Vec<SizeBucket>)
    requires
        total_size(package_views(packages@)) <= u64::MAX,
    ensures
        bucket_views(r@) == buckets_of(package_views(packages@)),
{
    let ghost pv = package_views(packages@);
    let mut counts: [usize; 5] = [0, 0, 0, 0, 0];
    let mut totals: [u64; 5] = [0, 0, 0, 0, 0];
    let mut i: usize = 0;
    while i < packages.len()
        invariant
            i <= packages.len(),
            pv == package_views(packages@),
            total_size(pv) <= u64::MAX,
            forall|j: int|
                0 <= j < 5 ==> (#[trigger] counts[j] as nat, totals[j] as nat) == bucket_of(
                    pv.take(i as int),
                    bucket_bounds()[j].0,
                    bucket_bounds()[j].1,
                ),
        decreases packages.len() - i,
    {
        let b = packages[i].installed_size_bytes;
        let j: usize = if b <= 1048575 {
            0
        } else if b <= 24999999 {
            1
        } else if b <= 99999999 {
            2
        } else if b <= 499999999 {
            3
        } else {
            4
        };
        proof {
            let t = pv.take(i + 1);
            assert(t.drop_last() == pv.take(i as int));
            assert(t.last() == pv[i as int]);
            lemma_bucket_le_total(t, bucket_bounds()[j as int].0, bucket_bounds()[j as int].1);
            lemma_total_prefix(pv, i + 1);
        }
        counts[j] = counts[j] + 1;
        totals[j] = totals[j] + b;
        i += 1;
    }
    assert(pv.take(packages.len() as int) == pv);
    let mut r: Vec<SizeBucket> = Vec::new();
    r.push(
        SizeBucket {
            label: String::from_str("Tiny (<1 MiB)"),
            count: counts[0],
            total_bytes: totals[0],
        },
    );
    r.push(
        SizeBucket {
            label: String::from_str("Small (1-25 MiB)"),
            count: counts[1],
            total_bytes: totals[1],
        },
    );
    r.push(
        SizeBucket {
            label: String::from_str("Medium (25-100 MiB)"),
            count: counts[2],
            total_bytes: totals[2],
        },
    );
    r.push(
        SizeBucket {
            label: String::from_str("Large (100-500 MiB)"),
            count: counts[3],
            total_bytes: totals[3],
        },
    );
    r.push(
        SizeBucket {
            label: String::from_str("Huge (>=500 MiB)"),
            count: counts[4],
            total_bytes: totals[4],
        },
    );
    assert(bucket_views(r@) =~= buckets_of(pv));
    r
}

/// Total installed size of the packages.
fn total_installed_size(packages: &Vec<PackageRecord>) -> (t: u64)
    requires
        total_size(package_views(packages@)) <= u64::MAX,
    ensures
        t == total_size(package_views(packages@)),
{
    let ghost pv = package_views(packages@);
    let mut t: u64 = 0;
    let mut i: usize = 0;
    while i < packages.len()
        invariant
            i <= packages.len(),
            pv == package_views(packages@),
            total_size(pv) <= u64::MAX,
            t == total_size(pv.take(i as int)),
        decreases packages.len() - i,
    {
        proof {
            assert(pv.take(i + 1).drop_last() == pv.take(i as int));
            lemma_total_prefix(pv, i + 1);
        }
        t = t + packages[i].installed_size_bytes;
        i += 1;
    }
    assert(pv.take(packages.len() as int) == pv);
    t
}

/// How many packages were installed for the given reason.
fn count_with_reason(packages: &Vec<PackageRecord>, reason: InstallReason) -> (c: usize)
    ensures
        c == count_reason(package_views(packages@), reason),
{
    let ghost pv = package_views(packages@);
    let mut c: usize = 0;
    let mut i: usize = 0;
    while i < packages.len()
        invariant
            i <= packages.len(),
            pv == package_views(packages@),
            c == count_reason(pv.take(i as int), reason),
        decreases packages.len() - i,
    {
        proof {
            assert(pv.take(i + 1).drop_last() == pv.take(i as int));
            lemma_count_reason_le(pv.take(i as int), reason);
        }
        if packages[i].install_reason == reason {
            c = c + 1;
        }
        i += 1;
    }
    assert(pv.take(packages.len() as int) == pv);
    c
}

/// `stats` holds the statistics of the packages `pkgs`, with the given recent log
/// entries and number of orphans.
pub open spec fn stats_of(
    stats: PackageStats,
    pkgs: Seq<PackageView>,
    recent: Seq<ActionView>,
    orphans: nat,
) -> bool {
    &&& stats.total_packages == pkgs.len()
    &&& stats.total_size_bytes == total_size(pkgs)
    &&& stats.average_size_bytes == (if pkgs.len() == 0 {
        0
    } else {
        total_size(pkgs) / pkgs.len()
    })
    &&& exists|sorted: Seq<EntryView>|
        #[trigger] is_stable_sort(sorted, entries_of(pkgs), entry_order()) && entry_views(
            stats.largest_packages@,
        ) == take_at_most(sorted, 20) && entry_views(stats.heavy_packages@) == heavy_of(sorted)
            && stats.median_size_bytes == median_of_sorted(sizes_of(sorted).reverse())
    &&& bucket_views(stats.size_buckets@) == buckets_of(pkgs)
    &&& action_views(stats.recent_packages@) == recent
    &&& stats.orphan_count == orphans
    &&& stats.explicit_packages == count_reason(pkgs, InstallReason::Explicit)
    &&& stats.dependency_packages == count_reason(pkgs, InstallReason::Dependency)
}

/// Statistics over the packages of a snapshot: counts, sizes, the largest and the
/// heavy packages, size buckets and the recent log entries.
pub fn compute_package_stats(snapshot: &SystemSnapshot) -> (stats: PackageStats)
    requires
        total_size(package_views(snapshot.packages@)) <= u64::MAX,
    ensures
        stats_of(
            stats,
            package_views(snapshot.packages@),
            action_views(snapshot.recent_actions@),
            snapshot.orphan_names.len() as nat,
        ),
{
    let entries = size_entries(&snapshot.packages);
    let sorted = sort_entries(entries);
    let total_packages = sorted.len();
    let total_size_bytes = total_installed_size(&snapshot.packages);
    let average_size_bytes = if total_packages == 0 {
        0
    } else {
        total_size_bytes / (total_packages as u64)
    };
    let median_size_bytes = median_size(&sorted);
    let largest_packages = first_entries(&sorted, 20);
    let heavy_packages = heavy_entries(&sorted);
    let stats = PackageStats {
        total_packages,
        total_size_bytes,
        average_size_bytes,
        median_size_bytes,
        largest_packages,
        heavy_packages,
        size_buckets: build_size_buckets(&snapshot.packages),
        recent_packages: clone_actions(&snapshot.recent_actions),
        orphan_count: snapshot.orphan_names.len(),
        explicit_packages: count_with_reason(&snapshot.packages, InstallReason::Explicit),
        dependency_packages: count_with_reason(&snapshot.packages, InstallReason::Dependency),
    };
    assert(is_stable_sort(
        entry_views(sorted@),
        entries_of(package_views(snapshot.packages@)),
        entry_order(),
    ));
    stats
}


/// Statistics over a list of packages alone, with no orphans and no log entries.
pub fn summarize_packages(packages: &[PackageRecord]) -> (stats: PackageStats)
    requires
        total_size(package_views(packages@)) <= u64::MAX,
    ensures
        stats_of(stats, package_views(packages@), Seq::empty(), 0),
{
    let mut copy: Vec<PackageRecord> = Vec::new();
    let mut i: usize = 0;
    while i < packages.len()
        invariant
            i <= packages.len(),
            package_views(copy@) == package_views(packages@).take(i as int),
        decreases packages.len() - i,
    {
        copy.push(packages[i].clone());
        assert(package_views(packages@).take(i + 1) == package_views(packages@).take(i as int).push(
            packages@[i as int]@,
        ));
        i += 1;
    }
    assert(package_views(packages@).take(packages.len() as int) == package_views(packages@));
    let snapshot = SystemSnapshot {
        generated_at: String::new(),
        packages: copy,
        orphan_names: Vec::new(),
        recent_actions: Vec::new(),
    };
    assert(action_views(snapshot.recent_actions@) =~= Seq::<ActionView>::empty());
    compute_package_stats(&snapshot)
}

} // verus!
