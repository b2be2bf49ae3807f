use vstd::prelude::*;

use crate::text::{
    ascii_lower_seq, ascii_lower_range, chars_eq_at, chars_of, contains, find_in, lemma_run_len_unique,
    range_views, ranges_ok, run_len, string_of_range, trim_bounds_with, trim_pred, trim_with,
    word_ranges, words, line_ranges, lines, not_char_pred, trim, trim_bounds, push_range, push_char,
    split_once, starts_with_at,
};

verus! {

// ---------------------------------------------------------------------------
// Data model
// ---------------------------------------------------------------------------

/// Why pacman says a package is installed.
#[derive(Debug, Clone, Copy, PartialEq, Eq, Structural)]
pub enum InstallReason {
    Explicit,
    Dependency,
    Unknown,
}

/// What `pacman -Qi` reports of one installed package.
#[derive(Debug)]
pub struct PackageRecord {
    pub name: String,
    pub version: String,
    pub description: Option<String>,
    pub installed_size_bytes: u64,
    pub install_date: Option<String>,
    pub install_reason: InstallReason,
    pub packager: Option<String>,
    pub groups: Vec<String>,
    pub depends_on: Vec<String>,
    pub required_by: Vec<String>,
    pub optional_for: Vec<String>,
}

/// One install, upgrade, downgrade or reinstall read from the pacman log.
#[derive(Debug)]
pub struct RecentPackageAction {
    pub timestamp: String,
    pub action: String,
    pub name: String,
    pub version: Option<String>,
}

/// The installed packages, the orphans and the recent log actions at one moment.
#[derive(Debug)]
pub struct SystemSnapshot {
    pub generated_at: String,
    pub packages: Vec<PackageRecord>,
    pub orphan_names: Vec<String>,
    pub recent_actions: Vec<RecentPackageAction>,
}

/// What a package record holds, as plain sequences.
pub struct PackageView {
    pub name: Seq<char>,
    pub version: Seq<char>,
    pub description: Option<Seq<char>>,
    pub installed_size_bytes: u64,
    pub install_date: Option<Seq<char>>,
    pub install_reason: InstallReason,
    pub packager: Option<Seq<char>>,
    pub groups: Seq<Seq<char>>,
    pub depends_on: Seq<Seq<char>>,
    pub required_by: Seq<Seq<char>>,
    pub optional_for: Seq<Seq<char>>,
}

impl View for PackageRecord {
    type V = PackageView;

    open spec fn view(&self) -> PackageView {
        PackageView {
            name: self.name@,
            version: self.version@,
            description: self.description.deep_view(),
            installed_size_bytes: self.installed_size_bytes,
            install_date: self.install_date.deep_view(),
            install_reason: self.install_reason,
            packager: self.packager.deep_view(),
            groups: self.groups.deep_view(),
            depends_on: self.depends_on.deep_view(),
            required_by: self.required_by.deep_view(),
            optional_for: self.optional_for.deep_view(),
        }
    }
}

pub open spec fn package_views(s: Seq<PackageRecord>) -> Seq<PackageView> {
    s.map_values(|p: PackageRecord| p@)
}

/// A copy of a list of strings.
pub fn clone_strings(v: &Vec<String>) -> (r: Vec<String>)
    ensures
        r.deep_view() == v.deep_view(),
{
    let r = v.clone();
    assert(r.deep_view() =~= v.deep_view());
    r
}

/// A copy of an optional string.
pub fn clone_opt_string(o: &Option<String>) -> (r: Option<String>)
    ensures
        r.deep_view() == o.deep_view(),
{
    match o {
        Some(s) => Some(s.clone()),
        None => None,
    }
}

impl Clone for PackageRecord {
    fn clone(&self) -> (r: Self)
        ensures
            r@ == self@,
    {
        PackageRecord {
            name: self.name.clone(),
            version: self.version.clone(),
            description: clone_opt_string(&self.description),
            installed_size_bytes: self.installed_size_bytes,
            install_date: clone_opt_string(&self.install_date),
            install_reason: self.install_reason,
            packager: clone_opt_string(&self.packager),
            groups: clone_strings(&self.groups),
            depends_on: clone_strings(&self.depends_on),
            required_by: clone_strings(&self.required_by),
            optional_for: clone_strings(&self.optional_for),
        }
    }
}

impl Clone for RecentPackageAction {
    fn clone(&self) -> (r: Self)
        ensures
            action_view(r) == action_view(*self),
    {
        RecentPackageAction {
            timestamp: self.timestamp.clone(),
            action: self.action.clone(),
            name: self.name.clone(),
            version: clone_opt_string(&self.version),
        }
    }
}

/// A copy of a list of package records.
pub fn clone_packages(v: &Vec<PackageRecord>) -> (r: Vec<PackageRecord>)
    ensures
        package_views(r@) == package_views(v@),
{
    let r = v.clone();
    assert(package_views(r@) =~= package_views(v@));
    r
}

/// A copy of a list of log actions.
pub fn clone_actions(v: &Vec<RecentPackageAction>) -> (r: Vec<RecentPackageAction>)
    ensures
        action_views(r@) == action_views(v@),
{
    let r = v.clone();
    assert(action_views(r@) =~= action_views(v@));
    r
}

impl Clone for SystemSnapshot {
    fn clone(&self) -> (r: Self)
        ensures
            r.generated_at@ == self.generated_at@,
            package_views(r.packages@) == package_views(self.packages@),
            r.orphan_names.deep_view() == self.orphan_names.deep_view(),
            action_views(r.recent_actions@) == action_views(self.recent_actions@),
    {
        SystemSnapshot {
            generated_at: self.generated_at.clone(),
            packages: clone_packages(&self.packages),
            orphan_names: clone_strings(&self.orphan_names),
            recent_actions: clone_actions(&self.recent_actions),
        }
    }
}

// ---------------------------------------------------------------------------
// Tokens of dependency lists
// ---------------------------------------------------------------------------

pub open spec fn version_cut_pred() -> spec_fn(char) -> bool {
    |c: char| !(c == '<' || c == '>' || c == '=')
}

/// A package token without its version constraint (everything from the first
/// `<`, `>` or `=` on) and without surrounding commas, colons and white space.
pub open spec fn normalize_token(tok: Seq<char>) -> Seq<char> {
    trim_with(tok.take(run_len(tok, version_cut_pred()) as int), trim_pred(true))
}

/// Bounds of `normalize_token(v[lo..hi])` inside `v`.
fn normalize_bounds(v: &Vec<char>, lo: usize, hi: usize) -> (r: (usize, usize))
    requires
        lo <= hi <= v.len(),
    ensures
        lo <= r.0 <= r.1 <= hi,
        v@.subrange(r.0 as int, r.1 as int) == normalize_token(v@.subrange(lo as int, hi as int)),
{
    let ghost s = v@.subrange(lo as int, hi as int);
    let mut cut = lo;
    while cut < hi && !(v[cut] == '<' || v[cut] == '>' || v[cut] == '=')
        invariant
            lo <= cut <= hi <= v.len(),
            forall|i: int| lo <= i < cut ==> #[trigger] version_cut_pred()(v@[i]),
        decreases hi - cut,
    {
        cut += 1;
    }
    proof {
        assert forall|i: int| 0 <= i < cut - lo implies #[trigger] version_cut_pred()(s[i]) by {
            assert(s[i] == v@[lo + i]);
        }
        if cut < hi {
            assert(s[cut - lo] == v@[cut as int]);
        }
        lemma_run_len_unique(s, version_cut_pred(), cut - lo);
        assert(s.take(cut - lo) == v@.subrange(lo as int, cut as int));
    }
    trim_bounds_with(v, lo, cut, true)
}

/// `normalize_dependency_token`, on a string.
pub fn normalize_package_token(token: &str) -> (r: String)
    ensures
        r@ == normalize_token(token@),
{
    let v = chars_of(token);
    let (lo, hi) = normalize_bounds(&v, 0, v.len());
    assert(v@.subrange(0, v.len() as int) == v@);
    string_of_range(&v, lo, hi)
}

/// A dependency token as pacman prints it, reduced to the package name.
pub fn normalize_dependency_token(token: &str) -> (r: String)
    ensures
        r@ == normalize_token(token@),
{
    normalize_package_token(token)
}

pub open spec fn is_none_word(s: Seq<char>) -> bool {
    ascii_lower_seq(s) == "none"@
}

pub open spec fn keep_token_pred() -> spec_fn(Seq<char>) -> bool {
    |t: Seq<char>| t.len() > 0 && t != "None"@
}

/// The package names of a pacman list field: none for an empty field or for
/// `None` in any ASCII case; otherwise each white-space separated word,
/// normalized, leaving out empty results and `None`.
pub open spec fn token_list(raw: Seq<char>) -> Seq<Seq<char>> {
    if raw.len() == 0 || is_none_word(raw) {
        seq![]
    } else {
        words(raw).map_values(|w: Seq<char>| normalize_token(w)).filter(keep_token_pred())
    }
}

/// The tokens of a list field.
pub fn split_tokens(raw: &str) -> (r: Vec<String>)
    ensures
        r.deep_view() == token_list(raw@),
{
    let v = chars_of(raw);
    let lowered = ascii_lower_range(&v, 0, v.len());
    let none_word = chars_of("none");
    assert(v@.subrange(0, v.len() as int) == v@);
    if v.len() == 0 || chars_eq_at(&lowered, 0, lowered.len(), &none_word) {
        assert(lowered@.subrange(0, lowered.len() as int) == lowered@);
        return Vec::new();
    }
    assert(lowered@.subrange(0, lowered.len() as int) == lowered@);
    let none_cap = chars_of("None");
    let ranges = word_ranges(&v, 0, v.len());
    let ghost ws = words(v@);
    let ghost norm = ws.map_values(|w: Seq<char>| normalize_token(w));
    let mut out: Vec<String> = Vec::new();
    let mut i: usize = 0;
    while i < ranges.len()
        invariant
            i <= ranges.len(),
            ranges_ok(v.len() as int, ranges@),
            range_views(v@, ranges@) == ws,
            norm == ws.map_values(|w: Seq<char>| normalize_token(w)),
            none_cap@ == "None"@,
            out.deep_view() == norm.take(i as int).filter(keep_token_pred()),
        decreases ranges.len() - i,
    {
        let (lo, hi) = ranges[i];
        assert(ranges@[i as int].0 <= ranges@[i as int].1 <= v.len());
        let (a, b) = normalize_bounds(&v, lo, hi);
        proof {
            assert(norm[i as int] == normalize_token(ws[i as int]));
            assert(ws[i as int] == v@.subrange(lo as int, hi as int));
            assert(norm.take(i + 1) == norm.take(i as int).push(norm[i as int]));
            norm.take(i as int).lemma_filter_push(norm[i as int], keep_token_pred());
        }
        if a < b && !chars_eq_at(&v, a, b, &none_cap) {
            let t = string_of_range(&v, a, b);
            let ghost old_out = out.deep_view();
            out.push(t);
            assert(out.deep_view() == old_out.push(t@));
        }
        i += 1;
    }
    assert(norm.take(ranges.len() as int) == norm);
    out
}

/// The package names of a dependency list field.
pub fn split_dependency_list(raw: &str) -> (r: Vec<String>)
    ensures
        r.deep_view() == token_list(raw@),
{
    split_tokens(raw)
}

// ---------------------------------------------------------------------------
// Install reason
// ---------------------------------------------------------------------------

/// The install reason named by a pacman field, compared without regard to case.
pub open spec fn reason_of(raw: Seq<char>) -> InstallReason {
    if contains(ascii_lower_seq(raw), "dependency"@) {
        InstallReason::Dependency
    } else if contains(ascii_lower_seq(raw), "explicit"@) {
        InstallReason::Explicit
    } else {
        InstallReason::Unknown
    }
}

/// The install reason that a `pacman -Qi` field states: a dependency if it
/// mentions one, explicit if it says so, unknown otherwise (ASCII case ignored).
pub fn parse_install_reason(raw: &str) -> (r: InstallReason)
    ensures
        r == reason_of(raw@),
{
    let v = chars_of(raw);
    let lowered = ascii_lower_range(&v, 0, v.len());
    assert(v@.subrange(0, v.len() as int) == v@);
    assert(lowered@.subrange(0, lowered.len() as int) == lowered@);
    let dependency = chars_of("dependency");
    let explicit = chars_of("explicit");
    if find_in(&lowered, 0, lowered.len(), &dependency).is_some() {
        InstallReason::Dependency
    } else if find_in(&lowered, 0, lowered.len(), &explicit).is_some() {
        InstallReason::Explicit
    } else {
        InstallReason::Unknown
    }
}


// ---------------------------------------------------------------------------
// `Key : Value` fields of `pacman -Qi`
// ---------------------------------------------------------------------------

pub open spec fn keys_unique(v: Seq<(String, String)>) -> bool {
    forall|i: int, j: int| 0 <= i < j < v.len() ==> (#[trigger] v[i]).0@ != (#[trigger] v[j]).0@
}

pub open spec fn has_key(v: Seq<(String, String)>, k: Seq<char>) -> bool {
    exists|i: int| 0 <= i < v.len() && (#[trigger] v[i]).0@ == k
}

/// The map from keys to values that a list of fields with distinct keys stands for.
pub open spec fn fields_map(v: Seq<(String, String)>) -> Map<Seq<char>, Seq<char>> {
    Map::new(
        |k: Seq<char>| has_key(v, k),
        |k: Seq<char>| v[choose|i: int| 0 <= i < v.len() && (#[trigger] v[i]).0@ == k].1@,
    )
}

/// One line of `pacman -Qi` output applied to the fields read so far and the key
/// of the last field: `Key : Value` sets a field (the first colon splits, both
/// sides trimmed); any other line continues the last field, joined by one space
/// to a non-empty value; before any field, such a line is ignored.
pub open spec fn field_step(
    st: (Map<Seq<char>, Seq<char>>, Seq<char>),
    line: Seq<char>,
) -> (Map<Seq<char>, Seq<char>>, Seq<char>) {
    let k = run_len(line, not_char_pred(':'));
    if k < line.len() {
        let key = trim(line.take(k as int));
        (st.0.insert(key, trim(line.skip(k + 1 as int))), key)
    } else if st.1.len() > 0 {
        let prev = if st.0.dom().contains(st.1) {
            st.0[st.1]
        } else {
            Seq::<char>::empty()
        };
        let sep: Seq<char> = if prev.len() > 0 {
            seq![' ']
        } else {
            Seq::<char>::empty()
        };
        (st.0.insert(st.1, prev + sep + trim(line)), st.1)
    } else {
        st
    }
}

pub open spec fn fields_after(ls: Seq<Seq<char>>) -> (Map<Seq<char>, Seq<char>>, Seq<char>)
    decreases ls.len(),
{
    if ls.len() == 0 {
        (Map::empty(), Seq::<char>::empty())
    } else {
        field_step(fields_after(ls.drop_last()), ls.last())
    }
}

/// The fields of a `pacman -Qi` report.
pub open spec fn keyed_fields(raw: Seq<char>) -> Map<Seq<char>, Seq<char>> {
    fields_after(lines(raw)).0
}

/// Where `key` stands in `fields`.
pub fn key_index(fields: &Vec<(String, String)>, key: &String) -> (r: Option<usize>)
    requires
        keys_unique(fields@),
    ensures
        match r {
            Some(i) => i < fields.len() && fields@[i as int].0@ == key@,
            None => !has_key(fields@, key@),
        },
{
    let mut i: usize = 0;
    while i < fields.len()
        invariant
            i <= fields.len(),
            forall|j: int| 0 <= j < i ==> (#[trigger] fields@[j]).0@ != key@,
        decreases fields.len() - i,
    {
        if fields[i].0 == *key {
            return Some(i);
        }
        i += 1;
    }
    None
}

proof fn lemma_fields_map_at(v: Seq<(String, String)>, i: int)
    requires
        keys_unique(v),
        0 <= i < v.len(),
    ensures
        fields_map(v).dom().contains(v[i].0@),
        fields_map(v)[v[i].0@] == v[i].1@,
{
    assert(has_key(v, v[i].0@));
    let j = choose|j: int| 0 <= j < v.len() && (#[trigger] v[j]).0@ == v[i].0@;
    if j != i {
        if j < i {
            assert(v[j].0@ != v[i].0@);
        } else {
            assert(v[i].0@ != v[j].0@);
        }
    }
}

/// Sets the value of `key`, adding the field if it is new.
pub fn set_field(fields: &mut Vec<(String, String)>, key: String, value: String)
    requires
        keys_unique(old(fields)@),
    ensures
        keys_unique(final(fields)@),
        fields_map(final(fields)@) == fields_map(old(fields)@).insert(key@, value@),
{
    let ghost old_v = fields@;
    let ghost k = key@;
    let ghost val = value@;
    match key_index(fields, &key) {
        Some(i) => {
            fields.set(i, (key, value));
            proof {
                let nv = fields@;
                assert(nv == old_v.update(i as int, nv[i as int]));
                assert forall|a: int, b: int| 0 <= a < b < nv.len() implies (#[trigger] nv[a]).0@
                    != (#[trigger] nv[b]).0@ by {
                    if a != i && b != i {
                        assert(old_v[a].0@ != old_v[b].0@);
                    } else if a == i {
                        assert(old_v[a].0@ != old_v[b].0@);
                    } else {
                        assert(old_v[a].0@ != old_v[b].0@);
                    }
                }
                assert forall|q: Seq<char>| #[trigger]
                    fields_map(nv).dom().contains(q) == fields_map(old_v).insert(k, val).dom().contains(
                        q,
                    ) by {
                    if has_key(nv, q) {
                        let j = choose|j: int| 0 <= j < nv.len() && (#[trigger] nv[j]).0@ == q;
                        if j != i {
                            assert(old_v[j].0@ == q);
                        }
                    }
                    if has_key(old_v, q) {
                        let j = choose|j: int| 0 <= j < old_v.len() && (#[trigger] old_v[j]).0@ == q;
                        if j != i {
                            assert(nv[j].0@ == q);
                        } else {
                            assert(nv[i as int].0@ == q);
                        }
                    }
                    if q == k {
                        assert(nv[i as int].0@ == q);
                    }
                }
                assert forall|q: Seq<char>| #[trigger]
                    fields_map(nv).dom().contains(q) implies fields_map(nv)[q] == fields_map(
                    old_v,
                ).insert(k, val)[q] by {
                    let j = choose|j: int| 0 <= j < nv.len() && (#[trigger] nv[j]).0@ == q;
                    lemma_fields_map_at(nv, j);
                    if j != i {
                        assert(old_v[j] == nv[j]);
                        lemma_fields_map_at(old_v, j);
                    }
                }
                assert(fields_map(nv) =~= fields_map(old_v).insert(k, val));
            }
        },
        None => {
            fields.push((key, value));
            proof {
                let nv = fields@;
                assert(nv == old_v.push(nv[nv.len() - 1]));
                assert forall|a: int, b: int| 0 <= a < b < nv.len() implies (#[trigger] nv[a]).0@
                    != (#[trigger] nv[b]).0@ by {
                    if b == nv.len() - 1 {
                        assert(old_v[a] == nv[a]);
                    } else {
                        assert(old_v[a].0@ != old_v[b].0@);
                    }
                }
                let last = nv.len() - 1;
                assert forall|q: Seq<char>| #[trigger]
                    fields_map(nv).dom().contains(q) == fields_map(old_v).insert(k, val).dom().contains(
                        q,
                    ) by {
                    if has_key(nv, q) {
                        let j = choose|j: int| 0 <= j < nv.len() && (#[trigger] nv[j]).0@ == q;
                        if j != last {
                            assert(old_v[j].0@ == q);
                        }
                    }
                    if has_key(old_v, q) {
                        let j = choose|j: int| 0 <= j < old_v.len() && (#[trigger] old_v[j]).0@ == q;
                        assert(nv[j].0@ == q);
                    }
                    if q == k {
                        assert(nv[last].0@ == q);
                    }
                }
                assert forall|q: Seq<char>| #[trigger]
                    fields_map(nv).dom().contains(q) implies fields_map(nv)[q] == fields_map(
                    old_v,
                ).insert(k, val)[q] by {
                    let j = choose|j: int| 0 <= j < nv.len() && (#[trigger] nv[j]).0@ == q;
                    lemma_fields_map_at(nv, j);
                    if j != last {
                        assert(old_v[j] == nv[j]);
                        lemma_fields_map_at(old_v, j);
                    }
                }
                assert(fields_map(nv) =~= fields_map(old_v).insert(k, val));
            }
        },
    }
}

/// The value of `key`, if the report has that field.
pub fn field_value(fields: &Vec<(String, String)>, key: &str) -> (r: Option<String>)
    requires
        keys_unique(fields@),
    ensures
        r is Some == fields_map(fields@).dom().contains(key@),
        r matches Some(v) ==> v@ == fields_map(fields@)[key@],
{
    let k = String::from_str(key);
    match key_index(fields, &k) {
        Some(i) => {
            proof {
                lemma_fields_map_at(fields@, i as int);
            }
            Some(fields[i].1.clone())
        },
        None => None,
    }
}

/// Splits a `pacman -Qi` report into its `Key : Value` fields, continuation lines
/// appended to the field before them.
pub fn parse_keyed_fields(raw: &str) -> (fields: Vec<(String, String)>)
    ensures
        keys_unique(fields@),
        fields_map(fields@) == keyed_fields(raw@),
{
    let v = chars_of(raw);
    assert(v@.subrange(0, v.len() as int) == v@);
    let rs = line_ranges(&v, 0, v.len());
    let ghost ls = lines(v@);
    let mut fields: Vec<(String, String)> = Vec::new();
    let mut current = String::new();
    assert(fields_map(fields@) =~= Map::<Seq<char>, Seq<char>>::empty());
    let mut i: usize = 0;
    while i < rs.len()
        invariant
            i <= rs.len(),
            ranges_ok(v.len() as int, rs@),
            range_views(v@, rs@) == ls,
            ls == lines(v@),
            keys_unique(fields@),
            (fields_map(fields@), current@) == fields_after(ls.take(i as int)),
            current@.len() > 0 ==> fields_map(fields@).dom().contains(current@),
        decreases rs.len() - i,
    {
        let (lo, hi) = rs[i];
        let ghost old_current = current@;
        assert(rs@[i as int].0 <= rs@[i as int].1 <= v.len());
        let ghost line = v@.subrange(lo as int, hi as int);
        assert(ls[i as int] == line);
        assert(ls.take(i + 1).drop_last() == ls.take(i as int));
        assert(ls.take(i + 1).last() == line);
        assert(fields_after(ls.take(i + 1)) == field_step(fields_after(ls.take(i as int)), line));
        let ghost prev_map = fields_map(fields@);
        let mut k = lo;
        while k < hi && v[k] != ':'
            invariant
                lo <= k <= hi <= v.len(),
                forall|j: int| lo <= j < k ==> #[trigger] v@[j] != ':',
            decreases hi - k,
        {
            k += 1;
        }
        proof {
            assert forall|j: int| 0 <= j < k - lo implies #[trigger] not_char_pred(':')(line[j]) by {
                assert(line[j] == v@[lo + j]);
            }
            if k < hi {
                assert(line[k - lo] == v@[k as int]);
            }
            lemma_run_len_unique(line, not_char_pred(':'), k - lo);
        }
        if k < hi {
            let (a, b) = trim_bounds(&v, lo, k);
            let key = string_of_range(&v, a, b);
            let (c, d) = trim_bounds(&v, k + 1, hi);
            let value = string_of_range(&v, c, d);
            proof {
                assert(line.take(k - lo) == v@.subrange(lo as int, k as int));
                assert(line.skip(k - lo + 1) == v@.subrange(k + 1, hi as int));
            }
            set_field(&mut fields, key.clone(), value);
            current = key;
            assert(field_step((prev_map, old_current), line).0 == fields_map(fields@));
        } else if !current.as_str().is_empty() {
            let idx = key_index(&fields, &current);
            let (c, d) = trim_bounds(&v, lo, hi);
            match idx {
                Some(j) => {
                    proof {
                        lemma_fields_map_at(fields@, j as int);
                    }
                    let mut val = fields[j].1.clone();
                    if !val.as_str().is_empty() {
                        push_char(&mut val, ' ');
                    }
                    push_range(&mut val, &v, c, d);
                    assert(val@ == prev_map[current@] + (if prev_map[current@].len() > 0 {
                        seq![' ']
                    } else {
                        Seq::<char>::empty()
                    }) + trim(line));
                    set_field(&mut fields, current.clone(), val);
                },
                None => {},
            }
        }
        i += 1;
    }
    assert(ls.take(rs.len() as int) == ls);
    fields
}


// ---------------------------------------------------------------------------
// Package records
// ---------------------------------------------------------------------------

pub open spec fn field_or_empty(m: Map<Seq<char>, Seq<char>>, key: Seq<char>) -> Seq<char> {
    if m.dom().contains(key) {
        m[key]
    } else {
        Seq::<char>::empty()
    }
}

pub open spec fn nonempty_field(m: Map<Seq<char>, Seq<char>>, key: Seq<char>) -> Option<Seq<char>> {
    if m.dom().contains(key) && m[key].len() > 0 {
        Some(m[key])
    } else {
        None
    }
}

fn string_field(fields: &Vec<(String, String)>, key: &str) -> (r: String)
    requires
        keys_unique(fields@),
    ensures
        r@ == field_or_empty(fields_map(fields@), key@),
{
    match field_value(fields, key) {
        Some(v) => v,
        None => String::new(),
    }
}

fn optional_field(fields: &Vec<(String, String)>, key: &str) -> (r: Option<String>)
    requires
        keys_unique(fields@),
    ensures
        r.deep_view() == nonempty_field(fields_map(fields@), key@),
{
    match field_value(fields, key) {
        Some(v) => {
            if v.as_str().is_empty() {
                None
            } else {
                Some(v)
            }
        },
        None => None,
    }
}

fn list_field(fields: &Vec<(String, String)>, key: &str) -> (r: Vec<String>)
    requires
        keys_unique(fields@),
    ensures
        r.deep_view() == token_list(field_or_empty(fields_map(fields@), key@)),
{
    let raw = string_field(fields, key);
    split_tokens(raw.as_str())
}

/// The record of a package from the fields of its `pacman -Qi` report, given the
/// installed size already read from the `Installed Size` field.
pub fn package_record_from_fields(fields: &Vec<(String, String)>, installed_size_bytes: u64) -> (r:
    PackageRecord)
    requires
        keys_unique(fields@),
    ensures
        r.name@ == field_or_empty(fields_map(fields@), "Name"@),
        r.version@ == field_or_empty(fields_map(fields@), "Version"@),
        r.description.deep_view() == nonempty_field(fields_map(fields@), "Description"@),
        r.installed_size_bytes == installed_size_bytes,
        r.install_date.deep_view() == nonempty_field(fields_map(fields@), "Install Date"@),
        r.install_reason == (if fields_map(fields@).dom().contains("Install Reason"@) {
            reason_of(fields_map(fields@)["Install Reason"@])
        } else {
            InstallReason::Unknown
        }),
        r.packager.deep_view() == nonempty_field(fields_map(fields@), "Packager"@),
        r.groups.deep_view() == token_list(field_or_empty(fields_map(fields@), "Groups"@)),
        r.depends_on.deep_view() == token_list(field_or_empty(fields_map(fields@), "Depends On"@)),
        r.required_by.deep_view() == token_list(
            field_or_empty(fields_map(fields@), "Required By"@),
        ),
        r.optional_for.deep_view() == token_list(
            field_or_empty(fields_map(fields@), "Optional For"@),
        ),
{
    let install_reason = match field_value(fields, "Install Reason") {
        Some(v) => parse_install_reason(v.as_str()),
        None => InstallReason::Unknown,
    };
    PackageRecord {
        name: string_field(fields, "Name"),
        version: string_field(fields, "Version"),
        description: optional_field(fields, "Description"),
        installed_size_bytes,
        install_reason,
        install_date: optional_field(fields, "Install Date"),
        packager: optional_field(fields, "Packager"),
        groups: list_field(fields, "Groups"),
        depends_on: list_field(fields, "Depends On"),
        required_by: list_field(fields, "Required By"),
        optional_for: list_field(fields, "Optional For"),
    }
}

// ---------------------------------------------------------------------------
// Lines of the pacman log
// ---------------------------------------------------------------------------

/// Timestamp, action, package name and version of a log entry.
pub type ActionView = (Seq<char>, Seq<char>, Seq<char>, Option<Seq<char>>);

pub open spec fn action_view(a: RecentPackageAction) -> ActionView {
    (a.timestamp@, a.action@, a.name@, a.version.deep_view())
}

pub open spec fn action_views(s: Seq<RecentPackageAction>) -> Seq<ActionView> {
    s.map_values(|a: RecentPackageAction| action_view(a))
}

pub open spec fn open_bracket_pred() -> spec_fn(char) -> bool {
    |c: char| c == '['
}

/// The version between the first `(` and the `)` after it, trimmed, if not empty.
pub open spec fn version_in(part: Seq<char>) -> Option<Seq<char>> {
    match split_once(part, seq!['(']) {
        Some((_, tail)) => match split_once(tail, seq![')']) {
            Some((val, _)) => if trim(val).len() > 0 {
                Some(trim(val))
            } else {
                None
            },
            None => None,
        },
        None => None,
    }
}

/// What follows `verb` and one space at the start of `rest`.
pub open spec fn after_verb(rest: Seq<char>, verb: Seq<char>) -> Option<Seq<char>> {
    if (verb + seq![' ']).is_prefix_of(rest) {
        Some(rest.skip(verb.len() + 1 as int))
    } else {
        None
    }
}

pub open spec fn verb_action(ts: Seq<char>, verb: Seq<char>, part: Seq<char>) -> Option<ActionView> {
    if words(part).len() == 0 {
        None
    } else {
        Some((ts, verb, words(part)[0], version_in(part)))
    }
}

/// The entry a pacman log line records: `[timestamp] [ALPM] verb name (version)`,
/// where the verb is `installed`, `upgraded`, `downgraded` or `reinstalled`, the
/// timestamp loses its leading `[`s and the name is the first word after the verb.
pub open spec fn log_action(line: Seq<char>) -> Option<ActionView> {
    match split_once(line, "] [ALPM] "@) {
        None => None,
        Some((tp, rest)) => {
            let ts = tp.skip(run_len(tp, open_bracket_pred()) as int);
            if after_verb(rest, "installed"@) is Some {
                verb_action(ts, "installed"@, after_verb(rest, "installed"@)->0)
            } else if after_verb(rest, "upgraded"@) is Some {
                verb_action(ts, "upgraded"@, after_verb(rest, "upgraded"@)->0)
            } else if after_verb(rest, "downgraded"@) is Some {
                verb_action(ts, "downgraded"@, after_verb(rest, "downgraded"@)->0)
            } else if after_verb(rest, "reinstalled"@) is Some {
                verb_action(ts, "reinstalled"@, after_verb(rest, "reinstalled"@)->0)
            } else {
                None
            }
        },
    }
}

/// The version found in `v[lo..hi]`.
fn version_at(v: &Vec<char>, lo: usize, hi: usize) -> (r: Option<String>)
    requires
        lo <= hi <= v.len(),
    ensures
        r.deep_view() == version_in(v@.subrange(lo as int, hi as int)),
{
    let ghost part = v@.subrange(lo as int, hi as int);
    let mut open_paren: Vec<char> = Vec::new();
    open_paren.push('(');
    let mut close_paren: Vec<char> = Vec::new();
    close_paren.push(')');
    assert(open_paren@ == seq!['(']);
    assert(close_paren@ == seq![')']);
    match find_in(v, lo, hi, &open_paren) {
        None => None,
        Some(j) => {
            assert(part.skip(j - lo + 1) == v@.subrange(j + 1, hi as int));
            match find_in(v, j + 1, hi, &close_paren) {
                None => None,
                Some(m) => {
                    assert(v@.subrange(j + 1, hi as int).take(m - (j + 1)) == v@.subrange(
                        j + 1,
                        m as int,
                    ));
                    let (a, b) = trim_bounds(v, j + 1, m);
                    if a < b {
                        Some(string_of_range(v, a, b))
                    } else {
                        None
                    }
                },
            }
        },
    }
}

/// The entry for `verb`, if `v[lo..hi]` starts with it: `None` when it does not,
/// `Some(None)` when it does but names no package.
fn try_verb(v: &Vec<char>, lo: usize, hi: usize, verb: &str, ts: &String) -> (r: Option<
    Option<RecentPackageAction>,
>)
    requires
        lo <= hi <= v.len(),
    ensures
        match after_verb(v@.subrange(lo as int, hi as int), verb@) {
            None => r is None,
            Some(part) => r is Some && match r->0 {
                Some(a) => verb_action(ts@, verb@, part) == Some(action_view(a)),
                None => verb_action(ts@, verb@, part) is None,
            },
        },
{
    let mut prefix = chars_of(verb);
    prefix.push(' ');
    assert(prefix@ == verb@ + seq![' ']);
    if !starts_with_at(v, lo, hi, &prefix) {
        return None;
    }
    let start = lo + prefix.len();
    let ghost part = v@.subrange(lo as int, hi as int).skip(verb@.len() + 1 as int);
    assert(part == v@.subrange(start as int, hi as int));
    let rs = word_ranges(v, start, hi);
    if rs.len() == 0 {
        return Some(None);
    }
    let (a, b) = rs[0];
    assert(rs@[0].0 <= rs@[0].1 <= v.len());
    assert(range_views(v@, rs@)[0] == v@.subrange(a as int, b as int));
    let name = string_of_range(v, a, b);
    let version = version_at(v, start, hi);
    Some(
        Some(
            RecentPackageAction {
                timestamp: ts.clone(),
                action: String::from_str(verb),
                name,
                version,
            },
        ),
    )
}

/// The install, upgrade, downgrade or reinstall that a pacman log line records.
pub fn parse_pacman_log_line(line: &str) -> (r: Option<RecentPackageAction>)
    ensures
        match r {
            Some(a) => log_action(line@) == Some(action_view(a)),
            None => log_action(line@) is None,
        },
{
    let v = chars_of(line);
    assert(v@.subrange(0, v.len() as int) == v@);
    let sep = chars_of("] [ALPM] ");
    let i = match find_in(&v, 0, v.len(), &sep) {
        Some(i) => i,
        None => {
            return None;
        },
    };
    let ghost tp = v@.take(i as int);
    let mut t: usize = 0;
    while t < i && v[t] == '['
        invariant
            t <= i <= v.len(),
            forall|j: int| 0 <= j < t ==> #[trigger] v@[j] == '[',
        decreases i - t,
    {
        t += 1;
    }
    proof {
        assert forall|j: int| 0 <= j < t implies #[trigger] open_bracket_pred()(tp[j]) by {}
        if t < i {
            assert(tp[t as int] == v@[t as int]);
        }
        lemma_run_len_unique(tp, open_bracket_pred(), t as int);
        assert(tp.skip(t as int) == v@.subrange(t as int, i as int));
    }
    let ts = string_of_range(&v, t, i);
    let rest = i + sep.len();
    assert(v@.skip(rest as int) == v@.subrange(rest as int, v.len() as int));
    match try_verb(&v, rest, v.len(), "installed", &ts) {
        Some(r) => {
            return r;
        },
        None => {},
    }
    match try_verb(&v, rest, v.len(), "upgraded", &ts) {
        Some(r) => {
            return r;
        },
        None => {},
    }
    match try_verb(&v, rest, v.len(), "downgraded", &ts) {
        Some(r) => {
            return r;
        },
        None => {},
    }
    match try_verb(&v, rest, v.len(), "reinstalled", &ts) {
        Some(r) => {
            return r;
        },
        None => {},
    }
    None
}


// ---------------------------------------------------------------------------
// Lists of names and the recent log entries
// ---------------------------------------------------------------------------

pub open spec fn nonempty_pred() -> spec_fn(Seq<char>) -> bool {
    |t: Seq<char>| t.len() > 0
}

/// The names pacman prints one per line: each line trimmed, empty lines left out.
pub open spec fn name_lines(output: Seq<char>) -> Seq<Seq<char>> {
    lines(output).map_values(|l: Seq<char>| trim(l)).filter(nonempty_pred())
}

/// The package names in the output of `pacman -Qq` or `pacman -Qdtq`.
pub fn package_names_from_output(output: &str) -> (r: Vec<String>)
    ensures
        r.deep_view() == name_lines(output@),
{
    let v = chars_of(output);
    assert(v@.subrange(0, v.len() as int) == v@);
    let rs = line_ranges(&v, 0, v.len());
    let ghost trimmed = lines(v@).map_values(|l: Seq<char>| trim(l));
    let mut out: Vec<String> = Vec::new();
    let mut i: usize = 0;
    while i < rs.len()
        invariant
            i <= rs.len(),
            ranges_ok(v.len() as int, rs@),
            range_views(v@, rs@) == lines(v@),
            trimmed == lines(v@).map_values(|l: Seq<char>| trim(l)),
            out.deep_view() == trimmed.take(i as int).filter(nonempty_pred()),
        decreases rs.len() - i,
    {
        let (lo, hi) = rs[i];
        assert(rs@[i as int].0 <= rs@[i as int].1 <= v.len());
        let (a, b) = trim_bounds(&v, lo, hi);
        proof {
            assert(trimmed[i as int] == trim(v@.subrange(lo as int, hi as int)));
            assert(trimmed.take(i + 1) == trimmed.take(i as int).push(trimmed[i as int]));
            trimmed.take(i as int).lemma_filter_push(trimmed[i as int], nonempty_pred());
        }
        if a < b {
            let ghost old_out = out.deep_view();
            out.push(string_of_range(&v, a, b));
            assert(out.deep_view() == old_out.push(trimmed[i as int]));
        }
        i += 1;
    }
    assert(trimmed.take(rs.len() as int) == trimmed);
    out
}

/// The log entries of a list of lines, the last line first.
pub open spec fn actions_newest_first(ls: Seq<Seq<char>>) -> Seq<ActionView>
    decreases ls.len(),
{
    if ls.len() == 0 {
        seq![]
    } else {
        let rest = actions_newest_first(ls.drop_first());
        match log_action(ls[0]) {
            Some(a) => rest.push(a),
            None => rest,
        }
    }
}

/// The log entries of several log files, each file read from its last line up.
pub open spec fn actions_of_logs(contents: Seq<Seq<char>>) -> Seq<ActionView>
    decreases contents.len(),
{
    if contents.len() == 0 {
        seq![]
    } else {
        actions_of_logs(contents.drop_last()) + actions_newest_first(lines(contents.last()))
    }
}

/// At most `max(limit, 1)` of them: the scan stops once it holds `limit` entries,
/// and it checks only after adding one.
pub open spec fn first_actions(all: Seq<ActionView>, limit: nat) -> Seq<ActionView> {
    let n = if limit == 0 {
        1
    } else {
        limit
    };
    if all.len() <= n {
        all
    } else {
        all.take(n as int)
    }
}

proof fn lemma_actions_split(ls: Seq<Seq<char>>, i: int)
    requires
        0 <= i <= ls.len(),
    ensures
        actions_newest_first(ls) == actions_newest_first(ls.skip(i)) + actions_newest_first(
            ls.take(i),
        ),
    decreases i,
{
    if i == 0 {
        assert(ls.skip(0) == ls);
        assert(actions_newest_first(ls.take(0)) == Seq::<ActionView>::empty());
        assert(actions_newest_first(ls) + Seq::<ActionView>::empty() == actions_newest_first(ls));
    } else {
        lemma_actions_split(ls, i - 1);
        let s = ls.skip(i - 1);
        assert(s.drop_first() == ls.skip(i));
        assert(s[0] == ls[i - 1]);
        let t = ls.take(i);
        lemma_actions_last(t);
        assert(t.drop_last() == ls.take(i - 1));
        assert(t.last() == ls[i - 1]);
    }
}

/// Adding a line at the end puts its entry first.
proof fn lemma_actions_last(ls: Seq<Seq<char>>)
    requires
        ls.len() > 0,
    ensures
        actions_newest_first(ls) == (match log_action(ls.last()) {
            Some(a) => seq![a],
            None => Seq::<ActionView>::empty(),
        }) + actions_newest_first(ls.drop_last()),
    decreases ls.len(),
{
    let e = match log_action(ls.last()) {
        Some(a) => seq![a],
        None => Seq::<ActionView>::empty(),
    };
    if ls.len() == 1 {
        assert(ls.drop_first().len() == 0);
        assert(ls.drop_last().len() == 0);
        assert(actions_newest_first(ls.drop_first()) == Seq::<ActionView>::empty());
        assert(actions_newest_first(ls.drop_last()) == Seq::<ActionView>::empty());
        assert(ls.last() == ls[0]);
        assert(e + Seq::<ActionView>::empty() =~= e);
        match log_action(ls[0]) {
            Some(a) => {
                assert(Seq::<ActionView>::empty().push(a) =~= seq![a]);
            },
            None => {},
        }
    } else {
        lemma_actions_last(ls.drop_first());
        assert(ls.drop_first().last() == ls.last());
        assert(ls.drop_first().drop_last() == ls.drop_last().drop_first());
        assert(ls.drop_last()[0] == ls[0]);
        let r = actions_newest_first(ls.drop_last().drop_first());
        assert(actions_newest_first(ls.drop_first()) == e + r);
        match log_action(ls[0]) {
            Some(a) => {
                assert(actions_newest_first(ls.drop_last()) == r.push(a));
                assert(e + r.push(a) =~= (e + r).push(a));
            },
            None => {
                assert(actions_newest_first(ls.drop_last()) == r);
            },
        }
    }
}

proof fn lemma_actions_of_logs_prefix(contents: Seq<Seq<char>>, k: int)
    requires
        0 <= k <= contents.len(),
    ensures
        actions_of_logs(contents.take(k)).is_prefix_of(actions_of_logs(contents)),
    decreases contents.len() - k,
{
    if k < contents.len() {
        lemma_actions_of_logs_prefix(contents, k + 1);
        assert(contents.take(k + 1).drop_last() == contents.take(k));
    } else {
        assert(contents.take(k) == contents);
    }
}

/// The most recent installs, upgrades, downgrades and reinstalls recorded in the
/// given log files (the current log first): each file from its last line up.
pub fn recent_actions_from_logs(contents: &Vec<String>, limit: usize) -> (r: Vec<RecentPackageAction>)
    ensures
        action_views(r@) == first_actions(actions_of_logs(contents.deep_view()), limit as nat),
{
    let ghost cs = contents.deep_view();
    let ghost all = actions_of_logs(cs);
    let ghost n: nat = if limit == 0 {
        1
    } else {
        limit as nat
    };
    let mut out: Vec<RecentPackageAction> = Vec::new();
    let mut f: usize = 0;
    while f < contents.len()
        invariant
            f <= contents.len(),
            cs == contents.deep_view(),
            all == actions_of_logs(cs),
            n == (if limit == 0 {
                1
            } else {
                limit as nat
            }),
            action_views(out@) == actions_of_logs(cs.take(f as int)),
            out.len() < n,
        decreases contents.len() - f,
    {
        let v = chars_of(contents[f].as_str());
        assert(v@.subrange(0, v.len() as int) == v@);
        let rs = line_ranges(&v, 0, v.len());
        let ghost ls = lines(v@);
        let ghost before = action_views(out@);
        proof {
            assert(ls.skip(ls.len() as int) == Seq::<Seq<char>>::empty());
            assert(before + actions_newest_first(ls.skip(ls.len() as int)) == before);
        }
        let mut i = rs.len();
        while i > 0
            invariant
                i <= rs.len(),
                ranges_ok(v.len() as int, rs@),
                range_views(v@, rs@) == ls,
                cs == contents.deep_view(),
                f < contents.len(),
                ls == lines(cs[f as int]),
                all == actions_of_logs(cs),
                before == actions_of_logs(cs.take(f as int)),
                n == (if limit == 0 {
                    1
                } else {
                    limit as nat
                }),
                action_views(out@) == before + actions_newest_first(ls.skip(i as int)),
                out.len() < n,
            decreases i,
        {
            i -= 1;
            let (lo, hi) = rs[i];
            assert(rs@[i as int].0 <= rs@[i as int].1 <= v.len());
            let line = string_of_range(&v, lo, hi);
            proof {
                let s = ls.skip(i as int);
                assert(s.drop_first() == ls.skip(i + 1));
                assert(s[0] == ls[i as int]);
            }
            match parse_pacman_log_line(line.as_str()) {
                Some(a) => {
                    let ghost old_views = action_views(out@);
                    out.push(a);
                    assert(action_views(out@) == old_views.push(action_view(a)));
                    if out.len() >= limit {
                        proof {
                            assert(out.len() == n);
                            lemma_actions_split(ls, i as int);
                            assert(cs.take(f + 1).drop_last() == cs.take(f as int));
                            assert(cs.take(f + 1).last() == cs[f as int]);
                            lemma_actions_of_logs_prefix(cs, f + 1);
                            let p = action_views(out@);
                            assert(p.is_prefix_of(all));
                            assert(all.take(n as int) =~= p);
                        }
                        return out;
                    }
                },
                None => {},
            }
        }
        proof {
            assert(ls.skip(0) == ls);
            assert(cs.take(f + 1).drop_last() == cs.take(f as int));
            assert(cs.take(f + 1).last() == cs[f as int]);
        }
        f += 1;
    }
    assert(cs.take(contents.len() as int) == cs);
    out
}


// ---------------------------------------------------------------------------
// Installed sizes
// ---------------------------------------------------------------------------

/// The power of 1024 that a size unit of `pacman -Qi` stands for, the unit read
/// without regard to ASCII case; any other unit counts as bytes.
pub open spec fn unit_exponent(unit: Seq<char>) -> u32 {
    let u = ascii_lower_seq(unit);
    if u == "kib"@ || u == "kb"@ {
        1
    } else if u == "mib"@ || u == "mb"@ {
        2
    } else if u == "gib"@ || u == "gb"@ {
        3
    } else if u == "tib"@ || u == "tb"@ {
        4
    } else {
        0
    }
}

/// `,` read as a decimal point.
pub open spec fn decimal_point(c: char) -> char {
    if c == ',' {
        '.'
    } else {
        c
    }
}

/// The parts of an installed size such as `9,31 MiB`: the number, with a `,` read as
/// a decimal point (none when the text is blank), and the power of 1024 of the
/// unit after it (bytes when there is none).
pub open spec fn size_parts(raw: Seq<char>) -> (Option<Seq<char>>, u32) {
    let w = words(raw);
    (
        if w.len() > 0 {
            Some(w[0].map_values(|c: char| decimal_point(c)))
        } else {
            None
        },
        if w.len() > 1 {
            unit_exponent(w[1])
        } else {
            0
        },
    )
}

fn lowered_is(lowered: &Vec<char>, a: &str, b: &str) -> (r: bool)
    ensures
        r == (lowered@ == a@ || lowered@ == b@),
{
    let pa = chars_of(a);
    let pb = chars_of(b);
    assert(lowered@.subrange(0, lowered.len() as int) == lowered@);
    chars_eq_at(lowered, 0, lowered.len(), &pa) || chars_eq_at(lowered, 0, lowered.len(), &pb)
}

fn unit_exponent_of(v: &Vec<char>, lo: usize, hi: usize) -> (e: u32)
    requires
        lo <= hi <= v.len(),
    ensures
        e == unit_exponent(v@.subrange(lo as int, hi as int)),
{
    let u = ascii_lower_range(v, lo, hi);
    assert(u@.subrange(0, u.len() as int) == u@);
    if lowered_is(&u, "kib", "kb") {
        1
    } else if lowered_is(&u, "mib", "mb") {
        2
    } else if lowered_is(&u, "gib", "gb") {
        3
    } else if lowered_is(&u, "tib", "tb") {
        4
    } else {
        0
    }
}

/// Splits an installed size into its number, `,` read as a decimal point, and the
/// power of 1024 of its unit.
pub fn split_size(raw: &str) -> (r: (Option<String>, u32))
    ensures
        r.0.deep_view() == size_parts(raw@).0,
        r.1 == size_parts(raw@).1,
{
    let v = chars_of(raw);
    assert(v@.subrange(0, v.len() as int) == v@);
    let rs = word_ranges(&v, 0, v.len());
    let ghost w = words(v@);
    assert(range_views(v@, rs@) == w);
    let number = if rs.len() > 0 {
        let (lo, hi) = rs[0];
        assert(lo <= hi <= v.len());
        let ghost first = v@.subrange(lo as int, hi as int);
        assert(w[0] == first);
        let mut n = String::new();
        let mut i = lo;
        while i < hi
            invariant
                lo <= i <= hi <= v.len(),
                first == v@.subrange(lo as int, hi as int),
                n@ == v@.subrange(lo as int, i as int).map_values(|c: char| decimal_point(c)),
            decreases hi - i,
        {
            let c = v[i];
            let d = if c == ',' {
                '.'
            } else {
                c
            };
            push_char(&mut n, d);
            assert(v@.subrange(lo as int, i + 1).map_values(|c: char| decimal_point(c))
                =~= v@.subrange(lo as int, i as int).map_values(|c: char| decimal_point(c)).push(
                d,
            ));
            i += 1;
        }
        Some(n)
    } else {
        None
    };
    let exponent = if rs.len() > 1 {
        let (lo, hi) = rs[1];
        assert(lo <= hi <= v.len());
        assert(w[1] == v@.subrange(lo as int, hi as int));
        unit_exponent_of(&v, lo, hi)
    } else {
        0
    };
    (number, exponent)
}

// ---------------------------------------------------------------------------
// Size of the package cache
// ---------------------------------------------------------------------------

pub open spec fn is_digit(c: char) -> bool {
    '0' <= c && c <= '9'
}

/// The number an ASCII decimal digit string stands for.
pub open spec fn digits_value(d: Seq<char>) -> nat
    decreases d.len(),
{
    if d.len() == 0 {
        0
    } else {
        digits_value(d.drop_last()) * 10 + ((d.last() as u32) - ('0' as u32)) as nat
    }
}

/// The digits after an optional leading `+`.
pub open spec fn unsigned_digits(t: Seq<char>) -> Seq<char> {
    if t.len() > 0 && t[0] == '+' {
        t.drop_first()
    } else {
        t
    }
}

pub open spec fn all_digits(d: Seq<char>) -> bool {
    forall|i: int| 0 <= i < d.len() ==> is_digit(#[trigger] d[i])
}

/// `u64::from_str`: an optional `+`, then one or more ASCII digits, the value fitting in `u64`.
pub open spec fn parse_u64(t: Seq<char>) -> Option<u64> {
    let d = unsigned_digits(t);
    if d.len() > 0 && all_digits(d) && digits_value(d) <= u64::MAX {
        Some(digits_value(d) as u64)
    } else {
        None
    }
}

/// The byte count `du -sb` prints first.
pub open spec fn du_size(output: Seq<char>) -> Option<u64> {
    if words(output).len() == 0 {
        None
    } else {
        parse_u64(words(output)[0])
    }
}

fn parse_u64_at(v: &Vec<char>, lo: usize, hi: usize) -> (r: Option<u64>)
    requires
        lo <= hi <= v.len(),
    ensures
        r == parse_u64(v@.subrange(lo as int, hi as int)),
{
    let ghost t = v@.subrange(lo as int, hi as int);
    let start = if lo < hi && v[lo] == '+' {
        lo + 1
    } else {
        lo
    };
    let ghost d = v@.subrange(start as int, hi as int);
    assert(d == unsigned_digits(t));
    if start == hi {
        return None;
    }
    let mut value: u128 = 0;
    let mut i = start;
    let mut overflow = false;
    while i < hi
        invariant
            start <= i <= hi <= v.len(),
            d == v@.subrange(start as int, hi as int),
            d == unsigned_digits(v@.subrange(lo as int, hi as int)),
            lo <= start,
            forall|j: int| start <= j < i ==> is_digit(#[trigger] v@[j]),
            !overflow ==> value == digits_value(v@.subrange(start as int, i as int)),
            overflow ==> digits_value(v@.subrange(start as int, i as int)) > u64::MAX,
            value <= u64::MAX,
        decreases hi - i,
    {
        let c = v[i];
        if !('0' <= c && c <= '9') {
            proof {
                assert(!is_digit(d[i - start]));
                assert(!all_digits(d));
            }
            return None;
        }
        let dig = (c as u32 - '0' as u32) as u128;
        let ghost prefix = v@.subrange(start as int, i + 1);
        assert(prefix.drop_last() == v@.subrange(start as int, i as int));
        assert(prefix.last() == c);
        if !overflow {
            let next = value * 10 + dig;
            if next > 0xffff_ffff_ffff_ffffu128 {
                overflow = true;
            } else {
                value = next;
            }
        }
        i += 1;
    }
    assert(v@.subrange(start as int, hi as int) == d);
    if overflow {
        None
    } else {
        Some(value as u64)
    }
}

/// The size of the package cache from the output of `du -sb`.
pub fn parse_cache_size(output: &str) -> (r: Option<u64>)
    ensures
        r == du_size(output@),
{
    let v = chars_of(output);
    assert(v@.subrange(0, v.len() as int) == v@);
    let rs = word_ranges(&v, 0, v.len());
    if rs.len() == 0 {
        return None;
    }
    let (lo, hi) = rs[0];
    assert(rs@[0].0 <= rs@[0].1 <= v.len());
    assert(range_views(v@, rs@)[0] == v@.subrange(lo as int, hi as int));
    parse_u64_at(&v, lo, hi)
}

} // verus!
