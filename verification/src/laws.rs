//! The laws of the summary builder, stated and proved over the spec-level
//! aggregation functions that [`crate::summary::build_summary`]'s contract
//! speaks of: count consistency, exactness and boundedness of the
//! extension-frequency table, shape of the largest-files list, and
//! determinism of the whole summary.

use vstd::prelude::*;

use crate::entry::DirectoryEntry;
use crate::summary::DirSummary;
use crate::summary::cand_of;
use crate::summary::cands;
use crate::summary::cands_upto;
use crate::summary::count_dirs;
use crate::summary::count_dirs_upto;
use crate::summary::count_files;
use crate::summary::count_files_upto;
use crate::summary::count_hidden;
use crate::summary::count_hidden_upto;
use crate::summary::hints_insert;
use crate::summary::hints_model;
use crate::summary::hints_spec;
use crate::summary::hints_upto;
use crate::summary::is_file;
use crate::summary::names_model;
use crate::summary::sizes_model;
use crate::summary::sort_desc;
use crate::summary::stable_insert;
use crate::summary::summary_obeys;
use crate::summary::top_spec;
use crate::text::lemma_seq_lt_total;
use crate::text::lemma_seq_lt_trans;
use crate::text::lower_seq;
use crate::text::seq_lt;

verus! {

// ---------------------------------------------------------------------------
// Counts.
// ---------------------------------------------------------------------------

proof fn lemma_counts_upto(s: Seq<DirectoryEntry>, n: int)
    requires
        0 <= n <= s.len(),
    ensures
        count_files_upto(s, n) + count_dirs_upto(s, n) == n,
        count_hidden_upto(s, n) <= n,
    decreases n,
{
    if n > 0 {
        lemma_counts_upto(s, n - 1);
    }
}

/// For every non-empty directory, the total equals files plus directories —
/// every entry is exactly one of the two — and at most every entry is
/// hidden.
pub proof fn lemma_counts_consistent(s: Seq<DirectoryEntry>)
    requires
        s.len() > 0,
    ensures
        count_files(s) + count_dirs(s) == s.len(),
        count_hidden(s) <= s.len(),
{
    lemma_counts_upto(s, s.len() as int);
}

// ---------------------------------------------------------------------------
// The extension-frequency table.
// ---------------------------------------------------------------------------

/// Membership of a key in an association sequence.
pub open spec fn hints_has_key(h: Seq<(Seq<char>, int)>, k: Seq<char>) -> bool
    decreases h.len(),
{
    h.len() > 0 && (h[0].0 == k || hints_has_key(h.drop_first(), k))
}

/// Whether one entry contributes the key `k` to the table: a file with an
/// extension whose lower-cased form is `k`.
pub open spec fn entry_has_key(e: DirectoryEntry, k: Seq<char>) -> bool {
    is_file(e) && e.extension is Some && lower_seq((e.extension->0)@) == k
}

/// Whether some of the first `n` entries contributes the key `k`.
pub open spec fn some_file_has_key_upto(s: Seq<DirectoryEntry>, n: int, k: Seq<char>) -> bool
    decreases n,
{
    n > 0 && (entry_has_key(s[n - 1], k) || some_file_has_key_upto(s, n - 1, k))
}

pub open spec fn some_file_has_key(s: Seq<DirectoryEntry>, k: Seq<char>) -> bool {
    some_file_has_key_upto(s, s.len() as int, k)
}

/// The sum of the occurrence counts of the table.
pub open spec fn sum_counts(h: Seq<(Seq<char>, int)>) -> int
    decreases h.len(),
{
    if h.len() == 0 {
        0
    } else {
        h[0].1 + sum_counts(h.drop_first())
    }
}

/// The total count the table assigns to key `k`: the sum of the counts of
/// every row carrying that key (a single row, once the table is known to
/// list each key at most once).
pub open spec fn hints_lookup(h: Seq<(Seq<char>, int)>, k: Seq<char>) -> int
    decreases h.len(),
{
    if h.len() == 0 {
        0
    } else {
        (if h[0].0 == k {
            h[0].1
        } else {
            0
        }) + hints_lookup(h.drop_first(), k)
    }
}

/// How many of the first `n` entries are files whose lower-cased extension
/// is `k`.
pub open spec fn ext_count_upto(s: Seq<DirectoryEntry>, n: int, k: Seq<char>) -> int
    decreases n,
{
    if n <= 0 {
        0
    } else {
        ext_count_upto(s, n - 1, k) + (if entry_has_key(s[n - 1], k) {
            1int
        } else {
            0int
        })
    }
}

pub open spec fn ext_count(s: Seq<DirectoryEntry>, k: Seq<char>) -> int {
    ext_count_upto(s, s.len() as int, k)
}

/// Strictly ascending key order: the table lists every key once, sorted.
pub open spec fn hints_sorted(h: Seq<(Seq<char>, int)>) -> bool {
    forall|a: int, b: int| #![trigger h[a], h[b]] 0 <= a < b < h.len() ==> seq_lt(h[a].0, h[b].0)
}

proof fn lemma_hints_insert_keys(h: Seq<(Seq<char>, int)>, key: Seq<char>, k: Seq<char>)
    ensures
        hints_has_key(hints_insert(h, key), k) == (hints_has_key(h, k) || k == key),
    decreases h.len(),
{
    let res = hints_insert(h, key);
    if h.len() == 0 {
        assert(res.drop_first() =~= Seq::<(Seq<char>, int)>::empty());
        assert(!hints_has_key(res.drop_first(), k));
        assert(res[0] == (key, 1int));
    } else if seq_lt(h[0].0, key) {
        lemma_hints_insert_keys(h.drop_first(), key, k);
        assert(res.drop_first() =~= hints_insert(h.drop_first(), key));
    } else if h[0].0 == key {
        assert(res.drop_first() =~= h.drop_first());
    } else {
        assert(res.drop_first() =~= h);
    }
}

proof fn lemma_keys_upto(s: Seq<DirectoryEntry>, n: int, k: Seq<char>)
    requires
        0 <= n <= s.len(),
    ensures
        hints_has_key(hints_upto(s, n), k) == some_file_has_key_upto(s, n, k),
    decreases n,
{
    if n > 0 {
        lemma_keys_upto(s, n - 1, k);
        let e = s[n - 1];
        if is_file(e) && e.extension is Some {
            lemma_hints_insert_keys(hints_upto(s, n - 1), lower_seq((e.extension->0)@), k);
        }
    }
}

proof fn lemma_hints_insert_lookup(h: Seq<(Seq<char>, int)>, key: Seq<char>, k: Seq<char>)
    ensures
        hints_lookup(hints_insert(h, key), k) == hints_lookup(h, k) + (if k == key {
            1int
        } else {
            0int
        }),
    decreases h.len(),
{
    let res = hints_insert(h, key);
    if h.len() == 0 {
        assert(res.drop_first() =~= Seq::<(Seq<char>, int)>::empty());
        assert(hints_lookup(res.drop_first(), k) == 0);
        assert(res[0] == (key, 1int));
    } else if seq_lt(h[0].0, key) {
        lemma_hints_insert_lookup(h.drop_first(), key, k);
        assert(res.drop_first() =~= hints_insert(h.drop_first(), key));
    } else if h[0].0 == key {
        assert(res.drop_first() =~= h.drop_first());
    } else {
        assert(res.drop_first() =~= h);
    }
}

proof fn lemma_lookup_upto(s: Seq<DirectoryEntry>, n: int, k: Seq<char>)
    requires
        0 <= n <= s.len(),
    ensures
        hints_lookup(hints_upto(s, n), k) == ext_count_upto(s, n, k),
    decreases n,
{
    if n > 0 {
        lemma_lookup_upto(s, n - 1, k);
        let e = s[n - 1];
        if is_file(e) && e.extension is Some {
            lemma_hints_insert_lookup(hints_upto(s, n - 1), lower_seq((e.extension->0)@), k);
        }
    }
}

proof fn lemma_hints_insert_sum(h: Seq<(Seq<char>, int)>, key: Seq<char>)
    ensures
        sum_counts(hints_insert(h, key)) == sum_counts(h) + 1,
    decreases h.len(),
{
    let res = hints_insert(h, key);
    if h.len() == 0 {
        assert(res.drop_first() =~= Seq::<(Seq<char>, int)>::empty());
        assert(sum_counts(res.drop_first()) == 0);
        assert(res[0] == (key, 1int));
    } else if seq_lt(h[0].0, key) {
        lemma_hints_insert_sum(h.drop_first(), key);
        assert(res.drop_first() =~= hints_insert(h.drop_first(), key));
    } else if h[0].0 == key {
        assert(res.drop_first() =~= h.drop_first());
    } else {
        assert(res.drop_first() =~= h);
    }
}

proof fn lemma_sum_upto(s: Seq<DirectoryEntry>, n: int)
    requires
        0 <= n <= s.len(),
    ensures
        0 <= sum_counts(hints_upto(s, n)) <= count_files_upto(s, n),
    decreases n,
{
    if n > 0 {
        lemma_sum_upto(s, n - 1);
        let e = s[n - 1];
        if is_file(e) && e.extension is Some {
            lemma_hints_insert_sum(hints_upto(s, n - 1), lower_seq((e.extension->0)@));
        }
    }
}

/// A lower bound on every key is preserved by inserting another key above
/// the bound.
proof fn lemma_hints_insert_lb(h: Seq<(Seq<char>, int)>, key: Seq<char>, c: Seq<char>)
    requires
        forall|a: int| 0 <= a < h.len() ==> seq_lt(c, (#[trigger] h[a]).0),
        seq_lt(c, key),
    ensures
        forall|a: int| 0 <= a < hints_insert(h, key).len() ==> seq_lt(
            c,
            (#[trigger] hints_insert(h, key)[a]).0,
        ),
    decreases h.len(),
{
    let res = hints_insert(h, key);
    if h.len() == 0 {
    } else if seq_lt(h[0].0, key) {
        assert(forall|a: int| 0 <= a < h.drop_first().len() ==> seq_lt(
            c,
            (#[trigger] h.drop_first()[a]).0,
        ));
        lemma_hints_insert_lb(h.drop_first(), key, c);
        let rest = hints_insert(h.drop_first(), key);
        assert forall|a: int| 0 <= a < res.len() implies seq_lt(c, (#[trigger] res[a]).0) by {
            if a > 0 {
                assert(res[a] == rest[a - 1]);
            }
        }
    } else if h[0].0 == key {
        assert forall|a: int| 0 <= a < res.len() implies seq_lt(c, (#[trigger] res[a]).0) by {
            if a > 0 {
                assert(res[a] == h[a]);
            }
        }
    } else {
        assert forall|a: int| 0 <= a < res.len() implies seq_lt(c, (#[trigger] res[a]).0) by {
            if a > 0 {
                assert(res[a] == h[a - 1]);
            }
        }
    }
}

proof fn lemma_hints_insert_sorted(h: Seq<(Seq<char>, int)>, key: Seq<char>)
    requires
        hints_sorted(h),
    ensures
        hints_sorted(hints_insert(h, key)),
    decreases h.len(),
{
    let res = hints_insert(h, key);
    if h.len() == 0 {
    } else if seq_lt(h[0].0, key) {
        let tail = h.drop_first();
        assert forall|a: int, b: int| #![trigger tail[a], tail[b]] 0 <= a < b < tail.len()
            implies seq_lt(tail[a].0, tail[b].0) by {
            assert(tail[a] == h[a + 1]);
            assert(tail[b] == h[b + 1]);
        }
        lemma_hints_insert_sorted(tail, key);
        assert forall|a: int| 0 <= a < tail.len() implies seq_lt(h[0].0, (#[trigger] tail[a]).0) by {
            assert(tail[a] == h[a + 1]);
        }
        lemma_hints_insert_lb(tail, key, h[0].0);
        let rest = hints_insert(tail, key);
        assert forall|a: int, b: int| #![trigger res[a], res[b]] 0 <= a < b < res.len()
            implies seq_lt(res[a].0, res[b].0) by {
            assert(res[b] == rest[b - 1]);
            if a > 0 {
                assert(res[a] == rest[a - 1]);
            }
        }
    } else if h[0].0 == key {
        assert forall|a: int, b: int| #![trigger res[a], res[b]] 0 <= a < b < res.len()
            implies seq_lt(res[a].0, res[b].0) by {
            assert(res[b] == h[b]);
            if a > 0 {
                assert(res[a] == h[a]);
            } else {
                assert(res[0].0 == h[0].0);
            }
        }
    } else {
        lemma_seq_lt_total(key, h[0].0);
        assert(seq_lt(key, h[0].0));
        assert forall|a: int, b: int| #![trigger res[a], res[b]] 0 <= a < b < res.len()
            implies seq_lt(res[a].0, res[b].0) by {
            assert(res[b] == h[b - 1]);
            if a > 0 {
                assert(res[a] == h[a - 1]);
            } else {
                if b > 1 {
                    assert(seq_lt(h[0].0, h[b - 1].0));
                    lemma_seq_lt_trans(key, h[0].0, h[b - 1].0);
                }
            }
        }
    }
}

proof fn lemma_hints_sorted_upto(s: Seq<DirectoryEntry>, n: int)
    requires
        0 <= n <= s.len(),
    ensures
        hints_sorted(hints_upto(s, n)),
    decreases n,
{
    if n > 0 {
        lemma_hints_sorted_upto(s, n - 1);
        let e = s[n - 1];
        if is_file(e) && e.extension is Some {
            lemma_hints_insert_sorted(hints_upto(s, n - 1), lower_seq((e.extension->0)@));
        }
    }
}

/// The extension-frequency table lists exactly the distinct lower-cased
/// extensions of the files that have one, in strictly ascending key order;
/// the count it assigns to each key is exactly the number of files with
/// that lower-cased extension; and the counts sum to at most the number of
/// files.
pub proof fn lemma_language_hints_properties(s: Seq<DirectoryEntry>)
    ensures
        forall|k: Seq<char>| #[trigger] hints_has_key(hints_spec(s), k) == some_file_has_key(
            s,
            k,
        ),
        forall|k: Seq<char>| #[trigger] hints_lookup(hints_spec(s), k) == ext_count(s, k),
        0 <= sum_counts(hints_spec(s)) <= count_files(s),
        hints_sorted(hints_spec(s)),
{
    let n = s.len() as int;
    assert forall|k: Seq<char>| #[trigger] hints_has_key(hints_spec(s), k) == some_file_has_key(
        s,
        k,
    ) by {
        lemma_keys_upto(s, n, k);
    }
    assert forall|k: Seq<char>| #[trigger] hints_lookup(hints_spec(s), k) == ext_count(s, k) by {
        lemma_lookup_upto(s, n, k);
    }
    lemma_sum_upto(s, n);
    lemma_hints_sorted_upto(s, n);
}

// ---------------------------------------------------------------------------
// The largest-files list.
// ---------------------------------------------------------------------------

/// Sizes in descending order.
pub open spec fn sizes_sorted(h: Seq<(Seq<char>, u64)>) -> bool {
    forall|a: int, b: int| #![trigger h[a], h[b]] 0 <= a < b < h.len() ==> h[a].1 >= h[b].1
}

/// Membership of a candidate in a candidate sequence.
pub open spec fn holds_cand(h: Seq<(Seq<char>, u64)>, x: (Seq<char>, u64)) -> bool
    decreases h.len(),
{
    h.len() > 0 && (h[0] == x || holds_cand(h.drop_first(), x))
}

/// Whether a candidate names a file of the input, with that file's size.
pub open spec fn entry_yields(e: DirectoryEntry, x: (Seq<char>, u64)) -> bool {
    is_file(e) && e.size_bytes is Some && x == (e.name@, e.size_bytes->0)
}

/// The candidate comes from some file of the input.
pub open spec fn cand_from_input(s: Seq<DirectoryEntry>, x: (Seq<char>, u64)) -> bool {
    exists|i: int| 0 <= i < s.len() && #[trigger] entry_yields(s[i], x)
}

proof fn lemma_stable_insert_len(h: Seq<(Seq<char>, u64)>, x: (Seq<char>, u64))
    ensures
        stable_insert(h, x).len() == h.len() + 1,
    decreases h.len(),
{
    if h.len() > 0 && h[0].1 >= x.1 {
        lemma_stable_insert_len(h.drop_first(), x);
    }
}

/// An upper bound on every size is preserved by inserting a candidate below
/// the bound.
proof fn lemma_stable_insert_ub(h: Seq<(Seq<char>, u64)>, x: (Seq<char>, u64), c: u64)
    requires
        forall|a: int| 0 <= a < h.len() ==> (#[trigger] h[a]).1 <= c,
        x.1 <= c,
    ensures
        forall|a: int| 0 <= a < stable_insert(h, x).len() ==> (#[trigger] stable_insert(h, x)[a]).1
            <= c,
    decreases h.len(),
{
    let res = stable_insert(h, x);
    if h.len() == 0 {
    } else if h[0].1 >= x.1 {
        assert(forall|a: int| 0 <= a < h.drop_first().len() ==> (#[trigger] h.drop_first()[a]).1
            <= c);
        lemma_stable_insert_ub(h.drop_first(), x, c);
        let rest = stable_insert(h.drop_first(), x);
        assert forall|a: int| 0 <= a < res.len() implies (#[trigger] res[a]).1 <= c by {
            if a > 0 {
                assert(res[a] == rest[a - 1]);
            }
        }
    } else {
        assert forall|a: int| 0 <= a < res.len() implies (#[trigger] res[a]).1 <= c by {
            if a > 0 {
                assert(res[a] == h[a - 1]);
            }
        }
    }
}

proof fn lemma_stable_insert_sorted(h: Seq<(Seq<char>, u64)>, x: (Seq<char>, u64))
    requires
        sizes_sorted(h),
    ensures
        sizes_sorted(stable_insert(h, x)),
    decreases h.len(),
{
    let res = stable_insert(h, x);
    if h.len() == 0 {
    } else if h[0].1 >= x.1 {
        let tail = h.drop_first();
        assert forall|a: int, b: int| #![trigger tail[a], tail[b]] 0 <= a < b < tail.len()
            implies tail[a].1 >= tail[b].1 by {
            assert(tail[a] == h[a + 1]);
            assert(tail[b] == h[b + 1]);
        }
        lemma_stable_insert_sorted(tail, x);
        assert forall|a: int| 0 <= a < tail.len() implies (#[trigger] tail[a]).1 <= h[0].1 by {
            assert(tail[a] == h[a + 1]);
        }
        lemma_stable_insert_ub(tail, x, h[0].1);
        let rest = stable_insert(tail, x);
        assert forall|a: int, b: int| #![trigger res[a], res[b]] 0 <= a < b < res.len()
            implies res[a].1 >= res[b].1 by {
            assert(res[b] == rest[b - 1]);
            if a > 0 {
                assert(res[a] == rest[a - 1]);
            }
        }
    } else {
        assert forall|a: int, b: int| #![trigger res[a], res[b]] 0 <= a < b < res.len()
            implies res[a].1 >= res[b].1 by {
            assert(res[b] == h[b - 1]);
            if a > 0 {
                assert(res[a] == h[a - 1]);
            } else {
                if b > 1 {
                    assert(h[0].1 >= h[b - 1].1);
                }
            }
        }
    }
}

proof fn lemma_stable_insert_holds(
    h: Seq<(Seq<char>, u64)>,
    x: (Seq<char>, u64),
    y: (Seq<char>, u64),
)
    ensures
        holds_cand(stable_insert(h, x), y) == (holds_cand(h, y) || y == x),
    decreases h.len(),
{
    let res = stable_insert(h, x);
    if h.len() == 0 {
        assert(res.drop_first() =~= Seq::<(Seq<char>, u64)>::empty());
        assert(!holds_cand(res.drop_first(), y));
        assert(!holds_cand(h, y));
        assert(res[0] == x);
    } else if h[0].1 >= x.1 {
        lemma_stable_insert_holds(h.drop_first(), x, y);
        assert(res.drop_first() =~= stable_insert(h.drop_first(), x));
    } else {
        assert(res.drop_first() =~= h);
    }
}

proof fn lemma_holds_drop_last(h: Seq<(Seq<char>, u64)>, y: (Seq<char>, u64))
    requires
        h.len() > 0,
    ensures
        holds_cand(h, y) == (holds_cand(h.drop_last(), y) || y == h.last()),
    decreases h.len(),
{
    if h.len() == 1 {
        assert(h.drop_last() =~= Seq::<(Seq<char>, u64)>::empty());
        assert(!holds_cand(h.drop_last(), y));
        assert(h.drop_first() =~= Seq::<(Seq<char>, u64)>::empty());
        assert(!holds_cand(h.drop_first(), y));
        assert(h.last() == h[0]);
    } else {
        lemma_holds_drop_last(h.drop_first(), y);
        assert(h.drop_first().drop_last() =~= h.drop_last().drop_first());
        assert(h.drop_first().last() == h.last());
        assert(h.drop_last()[0] == h[0]);
    }
}

proof fn lemma_sort_desc_props(c: Seq<(Seq<char>, u64)>)
    ensures
        sort_desc(c).len() == c.len(),
        sizes_sorted(sort_desc(c)),
        forall|y: (Seq<char>, u64)| #[trigger] holds_cand(sort_desc(c), y) ==> holds_cand(c, y),
    decreases c.len(),
{
    if c.len() > 0 {
        let prev = c.drop_last();
        lemma_sort_desc_props(prev);
        lemma_stable_insert_len(sort_desc(prev), c.last());
        lemma_stable_insert_sorted(sort_desc(prev), c.last());
        assert forall|y: (Seq<char>, u64)| #[trigger] holds_cand(sort_desc(c), y) implies
        holds_cand(c, y) by {
            lemma_stable_insert_holds(sort_desc(prev), c.last(), y);
            lemma_holds_drop_last(c, y);
        }
    }
}

proof fn lemma_holds_of_index(h: Seq<(Seq<char>, u64)>, b: int)
    requires
        0 <= b < h.len(),
    ensures
        holds_cand(h, h[b]),
    decreases b,
{
    if b > 0 {
        lemma_holds_of_index(h.drop_first(), b - 1);
    }
}

proof fn lemma_cands_member(s: Seq<DirectoryEntry>, n: int, y: (Seq<char>, u64))
    requires
        0 <= n <= s.len(),
        holds_cand(cands_upto(s, n), y),
    ensures
        cand_from_input(s, y),
    decreases n,
{
    if n > 0 {
        let prev = cands_upto(s, n - 1);
        let e = s[n - 1];
        lemma_holds_drop_last_generic(prev, cand_of(e), y);
        if holds_cand(prev, y) {
            lemma_cands_member(s, n - 1, y);
        } else {
            assert(entry_yields(e, y));
        }
    }
}

/// Membership in a concatenation with a one-or-zero-element contribution.
proof fn lemma_holds_drop_last_generic(
    a: Seq<(Seq<char>, u64)>,
    b: Seq<(Seq<char>, u64)>,
    y: (Seq<char>, u64),
)
    requires
        b.len() <= 1,
        holds_cand(a + b, y),
    ensures
        holds_cand(a, y) || (b.len() == 1 && y == b[0]),
    decreases a.len(),
{
    if a.len() == 0 {
        assert(a + b =~= b);
        assert(!holds_cand(a, y));
        if b.len() == 1 {
            assert((a + b).drop_first() =~= Seq::<(Seq<char>, u64)>::empty());
            assert(!holds_cand((a + b).drop_first(), y));
            assert((a + b)[0] == b[0]);
        }
    } else {
        assert((a + b).drop_first() =~= a.drop_first() + b);
        assert((a + b)[0] == a[0]);
        if (a + b)[0] != y {
            lemma_holds_drop_last_generic(a.drop_first(), b, y);
        }
    }
}

/// The largest-files list keeps `min(5, number of files of known size)`
/// candidates, sorted by size descending, and every kept candidate names a
/// file of the input together with that file's size. Ties keep their scan
/// order: the list is the stable descending sort of the candidates, as
/// `top_spec` states.
pub proof fn lemma_top_file_properties(s: Seq<DirectoryEntry>)
    ensures
        top_spec(s).len() == (if cands(s).len() < 5 {
            cands(s).len()
        } else {
            5
        }),
        sizes_sorted(top_spec(s)),
        forall|b: int| 0 <= b < top_spec(s).len() ==> #[trigger] cand_from_input(
            s,
            top_spec(s)[b],
        ),
{
    let c = cands(s);
    let sorted = sort_desc(c);
    lemma_sort_desc_props(c);
    assert forall|b: int| 0 <= b < top_spec(s).len() implies #[trigger] cand_from_input(
        s,
        top_spec(s)[b],
    ) by {
        assert(top_spec(s)[b] == sorted[b]);
        lemma_holds_of_index(sorted, b);
        lemma_cands_member(s, s.len() as int, sorted[b]);
    }
}

// ---------------------------------------------------------------------------
// Determinism.
// ---------------------------------------------------------------------------

/// Running the builder twice on the same path and entry sequence yields
/// identical summaries: every field of a summary that satisfies the
/// builder's contract is pinned to a function of the inputs alone, so two
/// such summaries agree on every observable part.
pub proof fn lemma_builder_deterministic(
    r1: DirSummary,
    r2: DirSummary,
    path: Seq<char>,
    s: Seq<DirectoryEntry>,
)
    requires
        summary_obeys(r1, path, s),
        summary_obeys(r2, path, s),
    ensures
        r1.path@ == r2.path@,
        r1.counts == r2.counts,
        r1.notable_files == r2.notable_files,
        hints_model(r1.language_hints@) == hints_model(r2.language_hints@),
        names_model(r1.suspicious_files@) == names_model(r2.suspicious_files@),
        sizes_model(r1.top_file_by_size@) == sizes_model(r2.top_file_by_size@),
{
}

} // verus!
