//! The summary builder: one verified linear pass over the collected entries,
//! plus one sort-and-truncate pass for the largest files.
//!
//! [`build_summary`] is total over well-formed input — it has no error path —
//! and its contract pins every field of the produced [`DirSummary`] to a
//! spec-level function of the path and the entry sequence alone, so the
//! summary is fully deterministic for a given directory snapshot.

use vstd::prelude::*;

use crate::entry::DirectoryEntry;
use crate::entry::EntryKind;
use crate::text::lower_seq;
use crate::text::lower_string;
use crate::text::seq_contains_sub;
use crate::text::seq_ends_with;
use crate::text::seq_lt;
use crate::text::seq_starts_with;
use crate::text::str_compare;
use crate::text::str_contains;
use crate::text::str_ends_with;
use crate::text::str_starts_with;

verus! {

/// Entry counts of one scan; `total` covers files and directories alike and
/// `hidden` counts entries of either kind whose name starts with a dot.
#[derive(Clone, Copy, Debug, PartialEq, Eq, Structural)]
pub struct Counts {
    pub total: u32,
    pub files: u32,
    pub dirs: u32,
    pub hidden: u32,
}

/// Boolean markers for well-known project files and directories.
#[derive(Clone, Copy, Debug, PartialEq, Eq, Structural)]
pub struct NotableFiles {
    pub has_git: bool,
    pub has_readme: bool,
    pub has_license: bool,
    pub has_dockerfile: bool,
    pub has_ci: bool,
    pub has_rust: bool,
    pub has_node: bool,
    pub has_python: bool,
}

/// One candidate in the largest-files list.
#[derive(Clone, Debug, PartialEq, Eq)]
pub struct SizeEntry {
    pub name: String,
    pub bytes: u64,
}

/// One row of the extension-frequency table: a lower-cased extension and how
/// many files carry it.
#[derive(Clone, Debug, PartialEq, Eq)]
pub struct HintEntry {
    pub ext: String,
    pub count: u32,
}

/// The derived summary of one directory scan, rebuilt fresh per invocation.
#[derive(Clone, Debug, PartialEq, Eq)]
pub struct DirSummary {
    /// The scanned path, as given.
    pub path: String,
    pub counts: Counts,
    /// Extension-frequency rows, strictly sorted by key so that serialized
    /// output is reproducible across runs and platforms.
    pub language_hints: Vec<HintEntry>,
    pub notable_files: NotableFiles,
    /// Names flagged by the suspicious-file rules, in scan-encounter order;
    /// a name matching both rules appears once per matching rule.
    pub suspicious_files: Vec<String>,
    /// At most five files, sorted by size descending, ties in scan order.
    pub top_file_by_size: Vec<SizeEntry>,
}

// ---------------------------------------------------------------------------
// Spec-level classification rules, per entry.
// ---------------------------------------------------------------------------

pub open spec fn is_file(e: DirectoryEntry) -> bool {
    e.kind is File
}

pub open spec fn is_dir(e: DirectoryEntry) -> bool {
    e.kind is Directory
}

/// The lower-cased name a file is classified by.
pub open spec fn lower_name(e: DirectoryEntry) -> Seq<char> {
    lower_seq(e.name@)
}

pub open spec fn marks_git(e: DirectoryEntry) -> bool {
    is_dir(e) && e.name@ == ".git"@
}

pub open spec fn marks_ci(e: DirectoryEntry) -> bool {
    is_dir(e) && e.name@ == ".github"@
}

pub open spec fn marks_readme(e: DirectoryEntry) -> bool {
    is_file(e) && (lower_name(e) == "readme"@ || seq_starts_with(lower_name(e), "readme."@))
}

pub open spec fn marks_license(e: DirectoryEntry) -> bool {
    is_file(e) && (lower_name(e) == "license"@ || seq_starts_with(lower_name(e), "license."@))
}

pub open spec fn marks_dockerfile(e: DirectoryEntry) -> bool {
    is_file(e) && lower_name(e) == "dockerfile"@
}

pub open spec fn marks_rust(e: DirectoryEntry) -> bool {
    is_file(e) && lower_name(e) == "cargo.toml"@
}

pub open spec fn marks_node(e: DirectoryEntry) -> bool {
    is_file(e) && lower_name(e) == "package.json"@
}

/// Python detection recognizes `pyproject.toml` and the literal name
/// `requirement.txt` — singular, without an `s`; the common plural form
/// `requirements.txt` is deliberately not recognized by this rule.
pub open spec fn marks_python(e: DirectoryEntry) -> bool {
    is_file(e) && (lower_name(e) == "pyproject.toml"@ || lower_name(e) == "requirement.txt"@)
}

/// Suspicious rule for secret material: the exact name `.env`, a `.pem`
/// suffix, or `id_rsa` anywhere in the name.
pub open spec fn rule_secret(l: Seq<char>) -> bool {
    l == ".env"@ || seq_ends_with(l, ".pem"@) || seq_contains_sub(l, "id_rsa"@)
}

/// Suspicious rule for dumped data: a `.log`, `.dump` or `.sql` suffix.
pub open spec fn rule_dump(l: Seq<char>) -> bool {
    seq_ends_with(l, ".log"@) || seq_ends_with(l, ".dump"@) || seq_ends_with(l, ".sql"@)
}

/// What one entry contributes to the suspicious-file list: nothing for a
/// directory, and one occurrence of the raw name per matching rule for a
/// file — a name matching both rules is listed twice.
pub open spec fn susp_of_entry(e: DirectoryEntry) -> Seq<Seq<char>> {
    if is_file(e) {
        (if rule_secret(lower_name(e)) {
            seq![e.name@]
        } else {
            Seq::<Seq<char>>::empty()
        }) + (if rule_dump(lower_name(e)) {
            seq![e.name@]
        } else {
            Seq::<Seq<char>>::empty()
        })
    } else {
        Seq::<Seq<char>>::empty()
    }
}

// ---------------------------------------------------------------------------
// Spec-level aggregation over the first `n` entries of the sequence.
// ---------------------------------------------------------------------------

pub open spec fn count_files_upto(s: Seq<DirectoryEntry>, n: int) -> nat
    decreases n,
{
    if n <= 0 {
        0
    } else {
        count_files_upto(s, n - 1) + (if is_file(s[n - 1]) {
            1nat
        } else {
            0nat
        })
    }
}

pub open spec fn count_dirs_upto(s: Seq<DirectoryEntry>, n: int) -> nat
    decreases n,
{
    if n <= 0 {
        0
    } else {
        count_dirs_upto(s, n - 1) + (if is_dir(s[n - 1]) {
            1nat
        } else {
            0nat
        })
    }
}

pub open spec fn count_hidden_upto(s: Seq<DirectoryEntry>, n: int) -> nat
    decreases n,
{
    if n <= 0 {
        0
    } else {
        count_hidden_upto(s, n - 1) + (if s[n - 1].is_hidden {
            1nat
        } else {
            0nat
        })
    }
}

pub open spec fn count_files(s: Seq<DirectoryEntry>) -> nat {
    count_files_upto(s, s.len() as int)
}

pub open spec fn count_dirs(s: Seq<DirectoryEntry>) -> nat {
    count_dirs_upto(s, s.len() as int)
}

pub open spec fn count_hidden(s: Seq<DirectoryEntry>) -> nat {
    count_hidden_upto(s, s.len() as int)
}

pub open spec fn has_git_upto(s: Seq<DirectoryEntry>, n: int) -> bool {
    exists|i: int| 0 <= i < n && #[trigger] marks_git(s[i])
}

pub open spec fn has_ci_upto(s: Seq<DirectoryEntry>, n: int) -> bool {
    exists|i: int| 0 <= i < n && #[trigger] marks_ci(s[i])
}

pub open spec fn has_readme_upto(s: Seq<DirectoryEntry>, n: int) -> bool {
    exists|i: int| 0 <= i < n && #[trigger] marks_readme(s[i])
}

pub open spec fn has_license_upto(s: Seq<DirectoryEntry>, n: int) -> bool {
    exists|i: int| 0 <= i < n && #[trigger] marks_license(s[i])
}

pub open spec fn has_dockerfile_upto(s: Seq<DirectoryEntry>, n: int) -> bool {
    exists|i: int| 0 <= i < n && #[trigger] marks_dockerfile(s[i])
}

pub open spec fn has_rust_upto(s: Seq<DirectoryEntry>, n: int) -> bool {
    exists|i: int| 0 <= i < n && #[trigger] marks_rust(s[i])
}

pub open spec fn has_node_upto(s: Seq<DirectoryEntry>, n: int) -> bool {
    exists|i: int| 0 <= i < n && #[trigger] marks_node(s[i])
}

pub open spec fn has_python_upto(s: Seq<DirectoryEntry>, n: int) -> bool {
    exists|i: int| 0 <= i < n && #[trigger] marks_python(s[i])
}

/// The suspicious-file list over the first `n` entries, in scan order.
pub open spec fn susp_upto(s: Seq<DirectoryEntry>, n: int) -> Seq<Seq<char>>
    decreases n,
{
    if n <= 0 {
        Seq::<Seq<char>>::empty()
    } else {
        susp_upto(s, n - 1) + susp_of_entry(s[n - 1])
    }
}

pub open spec fn susp_spec(s: Seq<DirectoryEntry>) -> Seq<Seq<char>> {
    susp_upto(s, s.len() as int)
}

// ---------------------------------------------------------------------------
// The extension-frequency table: an association sequence kept strictly
// sorted by key. `hints_insert` places a new key at its ordered position and
// bumps the count of a present key in place.
// ---------------------------------------------------------------------------

pub open spec fn hints_insert(h: Seq<(Seq<char>, int)>, k: Seq<char>) -> Seq<(Seq<char>, int)>
    decreases h.len(),
{
    if h.len() == 0 {
        seq![(k, 1int)]
    } else if seq_lt(h[0].0, k) {
        seq![h[0]] + hints_insert(h.drop_first(), k)
    } else if h[0].0 == k {
        seq![(h[0].0, h[0].1 + 1)] + h.drop_first()
    } else {
        seq![(k, 1int)] + h
    }
}

/// The extension-frequency table over the first `n` entries: every file with
/// an extension contributes one occurrence of its lower-cased extension.
pub open spec fn hints_upto(s: Seq<DirectoryEntry>, n: int) -> Seq<(Seq<char>, int)>
    decreases n,
{
    if n <= 0 {
        Seq::<(Seq<char>, int)>::empty()
    } else {
        let h = hints_upto(s, n - 1);
        let e = s[n - 1];
        if is_file(e) && e.extension is Some {
            hints_insert(h, lower_seq((e.extension->0)@))
        } else {
            h
        }
    }
}

pub open spec fn hints_spec(s: Seq<DirectoryEntry>) -> Seq<(Seq<char>, int)> {
    hints_upto(s, s.len() as int)
}

// ---------------------------------------------------------------------------
// Largest files: a stable descending insertion sort over the candidates, in
// scan order, then truncation to the first five.
// ---------------------------------------------------------------------------

/// What one entry contributes to the size candidates: files of known size
/// only.
pub open spec fn cand_of(e: DirectoryEntry) -> Seq<(Seq<char>, u64)> {
    if is_file(e) && e.size_bytes is Some {
        seq![(e.name@, e.size_bytes->0)]
    } else {
        Seq::<(Seq<char>, u64)>::empty()
    }
}

pub open spec fn cands_upto(s: Seq<DirectoryEntry>, n: int) -> Seq<(Seq<char>, u64)>
    decreases n,
{
    if n <= 0 {
        Seq::<(Seq<char>, u64)>::empty()
    } else {
        cands_upto(s, n - 1) + cand_of(s[n - 1])
    }
}

pub open spec fn cands(s: Seq<DirectoryEntry>) -> Seq<(Seq<char>, u64)> {
    cands_upto(s, s.len() as int)
}

/// Inserts `x` behind every element whose size is at least `x`'s: a stable
/// insertion for a descending order, so ties keep their scan order.
pub open spec fn stable_insert(h: Seq<(Seq<char>, u64)>, x: (Seq<char>, u64)) -> Seq<
    (Seq<char>, u64),
>
    decreases h.len(),
{
    if h.len() == 0 {
        seq![x]
    } else if h[0].1 >= x.1 {
        seq![h[0]] + stable_insert(h.drop_first(), x)
    } else {
        seq![x] + h
    }
}

/// The stable descending sort of the candidates, built by inserting them in
/// scan order.
pub open spec fn sort_desc(c: Seq<(Seq<char>, u64)>) -> Seq<(Seq<char>, u64)>
    decreases c.len(),
{
    if c.len() == 0 {
        c
    } else {
        stable_insert(sort_desc(c.drop_last()), c.last())
    }
}

/// The largest-files list: the sorted candidates, truncated to five.
pub open spec fn top_spec(s: Seq<DirectoryEntry>) -> Seq<(Seq<char>, u64)> {
    let sorted = sort_desc(cands(s));
    if sorted.len() <= 5 {
        sorted
    } else {
        sorted.take(5)
    }
}

// ---------------------------------------------------------------------------
// Views of the executable rows as spec-level association sequences.
// ---------------------------------------------------------------------------

pub open spec fn hints_model(v: Seq<HintEntry>) -> Seq<(Seq<char>, int)> {
    v.map_values(|h: HintEntry| (h.ext@, h.count as int))
}

pub open spec fn sizes_model(v: Seq<SizeEntry>) -> Seq<(Seq<char>, u64)> {
    v.map_values(|e: SizeEntry| (e.name@, e.bytes))
}

pub open spec fn names_model(v: Seq<String>) -> Seq<Seq<char>> {
    v.map_values(|x: String| x@)
}

/// The whole contract of the builder: every field of the summary equals a
/// spec-level function of the scanned path and the entry sequence alone.
pub open spec fn summary_obeys(r: DirSummary, path: Seq<char>, s: Seq<DirectoryEntry>) -> bool {
    &&& r.path@ == path
    &&& r.counts.total == s.len()
    &&& r.counts.files == count_files(s)
    &&& r.counts.dirs == count_dirs(s)
    &&& r.counts.hidden == count_hidden(s)
    &&& hints_model(r.language_hints@) == hints_spec(s)
    &&& r.notable_files.has_git == has_git_upto(s, s.len() as int)
    &&& r.notable_files.has_ci == has_ci_upto(s, s.len() as int)
    &&& r.notable_files.has_readme == has_readme_upto(s, s.len() as int)
    &&& r.notable_files.has_license == has_license_upto(s, s.len() as int)
    &&& r.notable_files.has_dockerfile == has_dockerfile_upto(s, s.len() as int)
    &&& r.notable_files.has_rust == has_rust_upto(s, s.len() as int)
    &&& r.notable_files.has_node == has_node_upto(s, s.len() as int)
    &&& r.notable_files.has_python == has_python_upto(s, s.len() as int)
    &&& names_model(r.suspicious_files@) == susp_spec(s)
    &&& sizes_model(r.top_file_by_size@) == top_spec(s)
}

// ---------------------------------------------------------------------------
// Positional characterizations of the two spec-level insertions, used to
// justify the scans of the executable builder.
// ---------------------------------------------------------------------------

/// When the first `p` keys order before `k` and the key at `p` equals `k`,
/// the insertion bumps the count at `p` in place.
proof fn lemma_hints_insert_found(h: Seq<(Seq<char>, int)>, k: Seq<char>, p: int)
    requires
        0 <= p < h.len(),
        forall|j: int| 0 <= j < p ==> seq_lt(#[trigger] h[j].0, k),
        h[p].0 == k,
    ensures
        hints_insert(h, k) == h.update(p, (h[p].0, h[p].1 + 1)),
    decreases p,
{
    crate::text::lemma_seq_lt_irrefl(k);
    if p == 0 {
        assert(hints_insert(h, k) =~= h.update(0, (h[0].0, h[0].1 + 1)));
    } else {
        lemma_hints_insert_found(h.drop_first(), k, p - 1);
        assert(hints_insert(h, k) =~= h.update(p, (h[p].0, h[p].1 + 1)));
    }
}

/// When the first `p` keys order before `k` and the key at `p` (if any)
/// orders after `k`, the insertion places a fresh row at `p`.
proof fn lemma_hints_insert_new(h: Seq<(Seq<char>, int)>, k: Seq<char>, p: int)
    requires
        0 <= p <= h.len(),
        forall|j: int| 0 <= j < p ==> seq_lt(#[trigger] h[j].0, k),
        p < h.len() ==> h[p].0 != k && !seq_lt(h[p].0, k),
    ensures
        hints_insert(h, k) == h.insert(p, (k, 1int)),
    decreases p,
{
    if p == 0 {
        assert(hints_insert(h, k) =~= h.insert(0, (k, 1int)));
    } else {
        lemma_hints_insert_new(h.drop_first(), k, p - 1);
        assert(hints_insert(h, k) =~= h.insert(p, (k, 1int)));
    }
}

/// When the first `p` candidates are at least as large as `x` and the one at
/// `p` (if any) is smaller, the stable insertion places `x` at `p`.
proof fn lemma_stable_insert_at(h: Seq<(Seq<char>, u64)>, x: (Seq<char>, u64), p: int)
    requires
        0 <= p <= h.len(),
        forall|j: int| 0 <= j < p ==> (#[trigger] h[j].1) >= x.1,
        p < h.len() ==> h[p].1 < x.1,
    ensures
        stable_insert(h, x) == h.insert(p, x),
    decreases p,
{
    if p == 0 {
        assert(stable_insert(h, x) =~= h.insert(0, x));
    } else {
        lemma_stable_insert_at(h.drop_first(), x, p - 1);
        assert(stable_insert(h, x) =~= h.insert(p, x));
    }
}

// ---------------------------------------------------------------------------
// Executable helpers of the builder.
// ---------------------------------------------------------------------------

/// The ordered position of `key` in the hint rows: the index of the first
/// key that does not order strictly before `key`.
fn hint_position(hints: &Vec<HintEntry>, key: &str) -> (j: usize)
    ensures
        j <= hints@.len(),
        forall|k: int| 0 <= k < j ==> seq_lt(#[trigger] hints@[k].ext@, key@),
        j < hints@.len() ==> !seq_lt(hints@[j as int].ext@, key@),
{
    let n: usize = hints.len();
    let mut j: usize = 0;
    while j < n
        invariant
            n == hints@.len(),
            j <= n,
            forall|k: int| 0 <= k < j ==> seq_lt(#[trigger] hints@[k].ext@, key@),
        decreases n - j,
    {
        let c = str_compare(hints[j].ext.as_str(), key);
        if c != -1 {
            return j;
        }
        j = j + 1;
    }
    j
}

/// Records one occurrence of the lower-cased extension `key`: bumps the
/// count of its row, or inserts a fresh row at the ordered position.
fn record_hint(hints: &mut Vec<HintEntry>, key: String, bound: Ghost<int>)
    requires
        0 <= bound@,
        bound@ + 1 <= u32::MAX,
        forall|k: int| 0 <= k < old(hints)@.len() ==> 1 <= (#[trigger] old(hints)@[k].count)
            <= bound@,
    ensures
        hints_model(final(hints)@) == hints_insert(hints_model(old(hints)@), key@),
        forall|k: int| 0 <= k < final(hints)@.len() ==> 1 <= (#[trigger] final(hints)@[k].count)
            <= bound@ + 1,
{
    let ghost m = hints_model(hints@);
    let j = hint_position(hints, key.as_str());
    if j < hints.len() {
        let c = str_compare(hints[j].ext.as_str(), key.as_str());
        if c == 0 {
            proof {
                assert(m[j as int].0 == key@);
                assert(forall|k: int| 0 <= k < j ==> seq_lt(#[trigger] m[k].0, key@));
                lemma_hints_insert_found(m, key@, j as int);
            }
            let cnt = hints[j].count;
            hints[j].count = cnt + 1;
            proof {
                assert(hints_model(hints@) =~= m.update(j as int, (m[j as int].0, m[j as int].1
                    + 1)));
            }
            return ;
        }
    }
    proof {
        assert(forall|k: int| 0 <= k < j ==> seq_lt(#[trigger] m[k].0, key@));
        if (j as int) < m.len() {
            assert(m[j as int].0 != key@ && !seq_lt(m[j as int].0, key@));
        }
        lemma_hints_insert_new(m, key@, j as int);
    }
    let ghost kv = key@;
    let row = HintEntry { ext: key, count: 1 };
    let ghost rowv = row;
    let ghost before = hints@;
    hints.insert(j, row);
    proof {
        assert(hints_model(hints@) =~= m.insert(j as int, (kv, 1int)));
        m.insert_ensures(j as int, (kv, 1int));
        assert forall|k: int| 0 <= k < hints@.len() implies 1 <= (#[trigger] hints@[k].count)
            <= bound@ + 1 by {
            let hm = hints_model(hints@);
            assert(hm[k] == (hints@[k].ext@, hints@[k].count as int));
            if k < j {
                assert(hm[k] == m[k]);
                assert(m[k] == (old(hints)@[k].ext@, old(hints)@[k].count as int));
                assert(1 <= old(hints)@[k].count <= bound@);
                assert(hm[k].1 == hints@[k].count as int);
                assert(1 <= hints@[k].count <= bound@ + 1);
            } else if k > j {
                assert(hm[k] == m.insert(j as int, (kv, 1int))[(k - 1) + 1]);
                assert(hm[k] == m[k - 1]);
                assert(m[k - 1] == (old(hints)@[k - 1].ext@, old(hints)@[k - 1].count as int));
                assert(1 <= old(hints)@[k - 1].count <= bound@);
                assert(hm[k].1 == hints@[k].count as int);
                assert(1 <= hints@[k].count <= bound@ + 1);
            } else {
                assert(hm[k] == (kv, 1int));
                assert(hm[k].1 == hints@[k].count as int);
                assert(1 <= hints@[k].count <= bound@ + 1);
            }
        }
    }
}

/// The ordered position for a size candidate: the index of the first kept
/// candidate strictly smaller than `bytes`.
fn size_position(tops: &Vec<SizeEntry>, bytes: u64) -> (j: usize)
    ensures
        j <= tops@.len(),
        forall|k: int| 0 <= k < j ==> (#[trigger] tops@[k].bytes) >= bytes,
        j < tops@.len() ==> tops@[j as int].bytes < bytes,
{
    let n: usize = tops.len();
    let mut j: usize = 0;
    while j < n
        invariant
            n == tops@.len(),
            j <= n,
            forall|k: int| 0 <= k < j ==> (#[trigger] tops@[k].bytes) >= bytes,
        decreases n - j,
    {
        if tops[j].bytes < bytes {
            return j;
        }
        j = j + 1;
    }
    j
}

/// Inserts one size candidate at its ordered position, behind every
/// candidate of equal or larger size.
fn record_size(tops: &mut Vec<SizeEntry>, name: &String, bytes: u64)
    ensures
        sizes_model(final(tops)@) == stable_insert(sizes_model(old(tops)@), (name@, bytes)),
{
    let ghost m = sizes_model(tops@);
    let j = size_position(tops, bytes);
    proof {
        assert(forall|k: int| 0 <= k < j ==> (#[trigger] m[k].1) >= bytes);
        if (j as int) < m.len() {
            assert(m[j as int].1 < bytes);
        }
        lemma_stable_insert_at(m, (name@, bytes), j as int);
    }
    let row = SizeEntry { name: name.clone(), bytes };
    tops.insert(j, row);
    proof {
        assert(sizes_model(tops@) =~= m.insert(j as int, (name@, bytes)));
    }
}

/// Builds the summary of one directory scan: a single linear pass over the
/// entries derives the counts, the extension-frequency table (strictly
/// sorted by key), the notable-marker flags and the suspicious-file list,
/// and a final sort-and-truncate pass keeps the five largest files, ties in
/// scan order. Total: no error path. Running it twice on the same inputs
/// yields identical summaries, since every field is pinned by the contract
/// to a function of the inputs alone.
#[verifier::rlimit(80)]
pub fn build_summary(path: &str, entries: &Vec<DirectoryEntry>) -> (r: DirSummary)
    requires
        entries@.len() <= u32::MAX,
    ensures
        summary_obeys(r, path@, entries@),
{
    let ghost s = entries@;
    let n: usize = entries.len();

    let mut total: u32 = 0;
    let mut files: u32 = 0;
    let mut dirs: u32 = 0;
    let mut hidden: u32 = 0;

    let mut has_git = false;
    let mut has_ci = false;
    let mut has_readme = false;
    let mut has_license = false;
    let mut has_dockerfile = false;
    let mut has_rust = false;
    let mut has_node = false;
    let mut has_python = false;

    let mut hints: Vec<HintEntry> = Vec::new();
    let mut suspicious: Vec<String> = Vec::new();
    let mut tops: Vec<SizeEntry> = Vec::new();

    let mut i: usize = 0;
    while i < n
        invariant
            s == entries@,
            n == s.len(),
            n <= u32::MAX,
            i <= n,
            total == i,
            files == count_files_upto(s, i as int),
            dirs == count_dirs_upto(s, i as int),
            hidden == count_hidden_upto(s, i as int),
            files <= i && dirs <= i && hidden <= i,
            has_git == has_git_upto(s, i as int),
            has_ci == has_ci_upto(s, i as int),
            has_readme == has_readme_upto(s, i as int),
            has_license == has_license_upto(s, i as int),
            has_dockerfile == has_dockerfile_upto(s, i as int),
            has_rust == has_rust_upto(s, i as int),
            has_node == has_node_upto(s, i as int),
            has_python == has_python_upto(s, i as int),
            hints_model(hints@) == hints_upto(s, i as int),
            forall|k: int| 0 <= k < hints@.len() ==> 1 <= (#[trigger] hints@[k].count) <= i,
            names_model(suspicious@) == susp_upto(s, i as int),
            sizes_model(tops@) == sort_desc(cands_upto(s, i as int)),
        decreases n - i,
    {
        let f = &entries[i];
        proof {
            assert(*f == s[i as int]);
        }
        total = total + 1;
        if f.is_hidden {
            hidden = hidden + 1;
        }
        match f.kind {
            EntryKind::Directory => {
                dirs = dirs + 1;
                if str_compare(f.name.as_str(), ".github") == 0 {
                    has_ci = true;
                }
                if str_compare(f.name.as_str(), ".git") == 0 {
                    has_git = true;
                }
                proof {
                    assert(susp_of_entry(s[i as int]) =~= Seq::<Seq<char>>::empty());
                    assert(names_model(suspicious@) =~= susp_upto(s, i + 1));
                    assert(cand_of(s[i as int]) =~= Seq::<(Seq<char>, u64)>::empty());
                    assert(cands_upto(s, i + 1) =~= cands_upto(s, i as int));
                }
            },
            EntryKind::File => {
                files = files + 1;
                match &f.extension {
                    Some(ext) => {
                        let key = lower_string(ext.as_str());
                        record_hint(&mut hints, key, Ghost(i as int));
                    },
                    None => {},
                }
                match f.size_bytes {
                    Some(sz) => {
                        record_size(&mut tops, &f.name, sz);
                        proof {
                            assert(cands_upto(s, i + 1) =~= cands_upto(s, i as int) + cand_of(
                                s[i as int],
                            ));
                            assert(cands_upto(s, i + 1).drop_last() =~= cands_upto(s, i as int));
                        }
                    },
                    None => {
                        proof {
                            assert(cands_upto(s, i + 1) =~= cands_upto(s, i as int));
                        }
                    },
                }
                let lname = lower_string(f.name.as_str());
                let l: &str = lname.as_str();
                if str_compare(l, "readme") == 0 || str_starts_with(l, "readme.") {
                    has_readme = true;
                }
                if str_compare(l, "license") == 0 || str_starts_with(l, "license.") {
                    has_license = true;
                }
                if str_compare(l, "dockerfile") == 0 {
                    has_dockerfile = true;
                }
                if str_compare(l, "cargo.toml") == 0 {
                    has_rust = true;
                }
                if str_compare(l, "package.json") == 0 {
                    has_node = true;
                }
                if str_compare(l, "pyproject.toml") == 0 || str_compare(l, "requirement.txt")
                    == 0 {
                    has_python = true;
                }
                let ghost susp_before = names_model(suspicious@);
                if str_compare(l, ".env") == 0 || str_ends_with(l, ".pem") || str_contains(
                    l,
                    "id_rsa",
                ) {
                    suspicious.push(f.name.clone());
                }
                if str_ends_with(l, ".log") || str_ends_with(l, ".dump") || str_ends_with(
                    l,
                    ".sql",
                ) {
                    suspicious.push(f.name.clone());
                }
                proof {
                    assert(names_model(suspicious@) =~= susp_before + susp_of_entry(s[i as int]));
                    assert(names_model(suspicious@) =~= susp_upto(s, i + 1));
                }
            },
        }
        proof {
            assert(has_git_upto(s, i + 1) == (has_git_upto(s, i as int) || marks_git(
                s[i as int],
            )));
            assert(has_ci_upto(s, i + 1) == (has_ci_upto(s, i as int) || marks_ci(s[i as int])));
            assert(has_readme_upto(s, i + 1) == (has_readme_upto(s, i as int) || marks_readme(
                s[i as int],
            )));
            assert(has_license_upto(s, i + 1) == (has_license_upto(s, i as int) || marks_license(
                s[i as int],
            )));
            assert(has_dockerfile_upto(s, i + 1) == (has_dockerfile_upto(s, i as int)
                || marks_dockerfile(s[i as int])));
            assert(has_rust_upto(s, i + 1) == (has_rust_upto(s, i as int) || marks_rust(
                s[i as int],
            )));
            assert(has_node_upto(s, i + 1) == (has_node_upto(s, i as int) || marks_node(
                s[i as int],
            )));
            assert(has_python_upto(s, i + 1) == (has_python_upto(s, i as int) || marks_python(
                s[i as int],
            )));
        }
        i = i + 1;
    }

    if tops.len() > 5 {
        tops.truncate(5);
        proof {
            assert(sizes_model(tops@) =~= top_spec(s));
        }
    }
    proof {
        assert(sizes_model(tops@) =~= top_spec(s));
    }

    let summary = DirSummary {
        path: String::from_str(path),
        counts: Counts { total, files, dirs, hidden },
        language_hints: hints,
        notable_files: NotableFiles {
            has_git,
            has_readme,
            has_license,
            has_dockerfile,
            has_ci,
            has_rust,
            has_node,
            has_python,
        },
        suspicious_files: suspicious,
        top_file_by_size: tops,
    };
    summary
}

} // verus!
