//! The sort order of a listing: a configurable multi-key comparison with a
//! byte-wise name tiebreak, and an optional mirror of the whole order.

use vstd::prelude::*;
use vstd::multiset::Multiset;
use vstd::string::StrSliceExecFns;
use crate::entry::Entry;
use crate::opts::Options;

verus! {

/// Lexicographic order over character code points. For UTF-8 encoded names
/// this agrees with byte-wise comparison of the encoded name, so the sort is
/// case-sensitive and locale-independent.
pub open spec fn name_le(a: Seq<char>, b: Seq<char>) -> bool
    decreases a.len(),
{
    if a.len() == 0 {
        true
    } else if b.len() == 0 {
        false
    } else if a[0] != b[0] {
        a[0] < b[0]
    } else {
        name_le(a.subrange(1, a.len() as int), b.subrange(1, b.len() as int))
    }
}

pub proof fn lemma_name_le_total(a: Seq<char>, b: Seq<char>)
    ensures
        name_le(a, b) || name_le(b, a),
    decreases a.len(),
{
    if a.len() == 0 || b.len() == 0 {
    } else if a[0] != b[0] {
    } else {
        lemma_name_le_total(a.subrange(1, a.len() as int), b.subrange(1, b.len() as int));
    }
}

pub proof fn lemma_name_le_trans(a: Seq<char>, b: Seq<char>, c: Seq<char>)
    requires
        name_le(a, b),
        name_le(b, c),
    ensures
        name_le(a, c),
    decreases a.len(),
{
    if a.len() == 0 {
    } else {
        if b.len() == 0 {
        } else if c.len() == 0 {
        } else {
            if a[0] == b[0] && b[0] == c[0] {
                lemma_name_le_trans(
                    a.subrange(1, a.len() as int),
                    b.subrange(1, b.len() as int),
                    c.subrange(1, c.len() as int),
                );
            }
        }
    }
}

pub proof fn lemma_name_le_antisym(a: Seq<char>, b: Seq<char>)
    requires
        name_le(a, b),
        name_le(b, a),
    ensures
        a == b,
    decreases a.len(),
{
    if a.len() == 0 {
        assert(b.len() == 0);
        assert(a =~= b);
    } else {
        assert(b.len() > 0);
        assert(a[0] == b[0]);
        let a1 = a.subrange(1, a.len() as int);
        let b1 = b.subrange(1, b.len() as int);
        lemma_name_le_antisym(a1, b1);
        assert(a1 =~= b1);
        assert(a1.len() == a.len() - 1);
        assert(b1.len() == b.len() - 1);
        assert(a.len() == b.len());
        assert forall|i: int| 0 <= i < a.len() implies a[i] == b[i] by {
            if i > 0 {
                assert(a1[i - 1] == b1[i - 1]);
            }
        }
        assert(a =~= b);
    }
}

/// Directories rank ahead of everything else when dirs-first is on;
/// otherwise the key is inert.
pub open spec fn dir_rank(o: Options, e: Entry) -> int {
    if o.dirs_first && e.meta.is_dir {
        0
    } else {
        1
    }
}

/// The size key, active only under sort-by-size; larger sizes sort first.
pub open spec fn size_key(o: Options, e: Entry) -> int {
    if o.sort_size {
        e.meta.size as int
    } else {
        0
    }
}

/// The time key, active only under sort-by-time (and not sort-by-size, which
/// wins when both are set); more recent times sort first.
pub open spec fn time_key(o: Options, e: Entry) -> int {
    if !o.sort_size && o.sort_time {
        e.time_key()
    } else {
        0
    }
}

/// The listing order: dirs-first rank, then the active key (descending),
/// then the name as the final tiebreak. The reverse flag plays no part
/// here; it mirrors the fully sorted sequence afterwards.
pub open spec fn entry_le(o: Options, a: Entry, b: Entry) -> bool {
    if dir_rank(o, a) != dir_rank(o, b) {
        dir_rank(o, a) < dir_rank(o, b)
    } else if size_key(o, a) != size_key(o, b) {
        size_key(o, a) > size_key(o, b)
    } else if time_key(o, a) != time_key(o, b) {
        time_key(o, a) > time_key(o, b)
    } else {
        name_le(a.name@, b.name@)
    }
}

pub open spec fn sorted_le(o: Options, s: Seq<Entry>) -> bool {
    forall|i: int, j: int| 0 <= i < j < s.len() ==> entry_le(o, s[i], s[j])
}

/// Law: the order is total — any two entries compare one way or the other.
pub proof fn lemma_entry_le_total(o: Options, a: Entry, b: Entry)
    ensures
        entry_le(o, a, b) || entry_le(o, b, a),
{
    lemma_name_le_total(a.name@, b.name@);
}

/// Law: the order is transitive.
pub proof fn lemma_entry_le_trans(o: Options, a: Entry, b: Entry, c: Entry)
    requires
        entry_le(o, a, b),
        entry_le(o, b, c),
    ensures
        entry_le(o, a, c),
{
    if name_le(a.name@, b.name@) && name_le(b.name@, c.name@) {
        lemma_name_le_trans(a.name@, b.name@, c.name@);
    }
}

/// Law: two entries that compare equal both ways carry the same name, so on
/// a collection with distinct names the order is antisymmetric.
pub proof fn lemma_entry_le_antisym_names(o: Options, a: Entry, b: Entry)
    requires
        entry_le(o, a, b),
        entry_le(o, b, a),
    ensures
        a.name@ == b.name@,
{
    lemma_name_le_antisym(a.name@, b.name@);
}

/// Byte-wise (code-point) comparison of two names.
pub fn str_le(a: &str, b: &str) -> (r: bool)
    ensures
        r == name_le(a@, b@),
{
    let alen = a.unicode_len();
    let blen = b.unicode_len();
    let min: usize = if alen < blen {
        alen
    } else {
        blen
    };
    let mut i: usize = 0;
    proof {
        assert(a@.subrange(0, alen as int) =~= a@);
        assert(b@.subrange(0, blen as int) =~= b@);
    }
    while i < min
        invariant
            0 <= i <= min,
            min == if alen < blen { alen } else { blen },
            alen == a@.len(),
            blen == b@.len(),
            name_le(a@, b@) == name_le(
                a@.subrange(i as int, alen as int),
                b@.subrange(i as int, blen as int),
            ),
            name_le(b@, a@) == name_le(
                b@.subrange(i as int, blen as int),
                a@.subrange(i as int, alen as int),
            ),
        decreases min - i,
    {
        let ca = a.get_char(i);
        let cb = b.get_char(i);
        proof {
            assert(a@.subrange(i as int, alen as int)[0] == a@[i as int]);
            assert(b@.subrange(i as int, blen as int)[0] == b@[i as int]);
        }
        if ca != cb {
            return ca < cb;
        }
        proof {
            assert(a@.subrange(i as int, alen as int).subrange(
                1,
                a@.subrange(i as int, alen as int).len() as int,
            ) =~= a@.subrange(i + 1, alen as int));
            assert(b@.subrange(i as int, blen as int).subrange(
                1,
                b@.subrange(i as int, blen as int).len() as int,
            ) =~= b@.subrange(i + 1, blen as int));
        }
        i = i + 1;
    }
    proof {
        if alen <= blen {
            assert(a@.subrange(i as int, alen as int).len() == 0);
        } else {
            assert(b@.subrange(i as int, blen as int).len() == 0);
            assert(a@.subrange(i as int, alen as int).len() > 0);
        }
    }
    alen <= blen
}

fn time_key_exec(e: &Entry) -> (r: i64)
    ensures
        r == e.time_key(),
        r >= 0,
{
    match e.meta.mtime {
        Some(t) => if t >= 0 {
            t
        } else {
            0
        },
        None => 0,
    }
}

/// Compares two entries under the active option set.
pub fn entry_le_exec(o: &Options, a: &Entry, b: &Entry) -> (r: bool)
    ensures
        r == entry_le(*o, *a, *b),
{
    if o.dirs_first {
        if a.meta.is_dir && !b.meta.is_dir {
            return true;
        }
        if !a.meta.is_dir && b.meta.is_dir {
            return false;
        }
    }
    if o.sort_size {
        if a.meta.size != b.meta.size {
            return a.meta.size > b.meta.size;
        }
    } else if o.sort_time {
        let ta = time_key_exec(a);
        let tb = time_key_exec(b);
        if ta != tb {
            return ta > tb;
        }
    }
    str_le(a.name.as_str(), b.name.as_str())
}

/// Names within one directory read are unique, so a listing never holds two
/// entries of the same name.
pub open spec fn distinct_names(s: Seq<Entry>) -> bool {
    forall|i: int, j: int| 0 <= i < j < s.len() ==> s[i].name@ != s[j].name@
}

/// Moving one element from the pool into the picked prefix keeps the overall
/// multiset of elements.
proof fn lemma_multiset_transfer(
    out_ms: Multiset<Entry>,
    items_ms: Multiset<Entry>,
    x: Entry,
)
    requires
        items_ms.count(x) > 0,
    ensures
        out_ms.insert(x).add(items_ms.remove(x)) == out_ms.add(items_ms),
{
    broadcast use vstd::multiset::group_multiset_axioms;

    assert(out_ms.insert(x).add(items_ms.remove(x)) =~= out_ms.add(items_ms));
}

/// The index of a least element under the listing order.
fn min_index(items: &Vec<Entry>, o: &Options) -> (m: usize)
    requires
        items@.len() > 0,
    ensures
        m < items@.len(),
        forall|t: int| 0 <= t < items@.len() ==> entry_le(*o, items@[m as int], items@[t]),
{
    let mut m: usize = 0;
    let mut k: usize = 1;
    proof {
        lemma_entry_le_total(*o, items@[0], items@[0]);
    }
    while k < items.len()
        invariant
            m < k <= items@.len(),
            forall|t: int| 0 <= t < k ==> entry_le(*o, items@[m as int], items@[t]),
        decreases items@.len() - k,
    {
        let cand_less = entry_le_exec(o, &items[k], &items[m]);
        if cand_less {
            proof {
                lemma_entry_le_total(*o, items@[k as int], items@[k as int]);
                assert forall|t: int| 0 <= t < k + 1 implies entry_le(
                    *o,
                    items@[k as int],
                    items@[t],
                ) by {
                    if t < k {
                        lemma_entry_le_trans(*o, items@[k as int], items@[m as int], items@[t]);
                    }
                }
            }
            m = k;
        } else {
            proof {
                lemma_entry_le_total(*o, items@[m as int], items@[k as int]);
            }
        }
        k = k + 1;
    }
    m
}

/// Selection sort into the listing order; the reverse flag is applied
/// afterwards by `sort_entries`.
fn sort_core(v: Vec<Entry>, o: &Options) -> (r: Vec<Entry>)
    ensures
        r@.to_multiset() == v@.to_multiset(),
        r@.len() == v@.len(),
        sorted_le(*o, r@),
{
    broadcast use vstd::seq_lib::group_to_multiset_ensures;
    broadcast use vstd::multiset::group_multiset_axioms;

    let ghost orig = v@;
    let mut items = v;
    let mut out: Vec<Entry> = Vec::new();
    proof {
        assert(out@.to_multiset().add(items@.to_multiset()) =~= orig.to_multiset());
    }
    while items.len() > 0
        invariant
            out@.to_multiset().add(items@.to_multiset()) == orig.to_multiset(),
            out@.len() + items@.len() == orig.len(),
            sorted_le(*o, out@),
            forall|x: int, y: int|
                0 <= x < out@.len() && 0 <= y < items@.len() ==> entry_le(*o, out@[x], items@[y]),
        decreases items@.len(),
    {
        broadcast use vstd::seq_lib::group_to_multiset_ensures;
        broadcast use vstd::multiset::group_multiset_axioms;

        let m = min_index(&items, o);
        let ghost old_items = items@;
        let ghost old_out = out@;
        let x = items.remove(m);
        proof {
            old_items.remove_ensures(m as int);
            assert(old_items.contains(x)) by {
                assert(old_items[m as int] == x);
            }
            assert(old_items.to_multiset().count(x) > 0);
        }
        out.push(x);
        proof {
            lemma_multiset_transfer(old_out.to_multiset(), old_items.to_multiset(), x);
            assert(out@.to_multiset().add(items@.to_multiset()) == orig.to_multiset());
            // every element left in the pool is one of the old pool's, so the
            // picked prefix still precedes all of them, and the minimum that
            // was just appended does too
            assert forall|p: int, y: int|
                0 <= p < out@.len() && 0 <= y < items@.len() implies entry_le(
                *o,
                out@[p],
                items@[y],
            ) by {
                assert(items@[y] == if y < m { old_items[y] } else { old_items[y + 1] });
                if p < old_out.len() {
                    assert(out@[p] == old_out[p]);
                } else {
                    assert(out@[p] == x);
                }
            }
            assert forall|p: int, q: int|
                0 <= p < q < out@.len() implies entry_le(*o, out@[p], out@[q]) by {
                if q < old_out.len() {
                    assert(entry_le(*o, old_out[p], old_out[q]));
                } else {
                    assert(out@[q] == x);
                    assert(entry_le(*o, old_out[p], old_items[m as int]));
                }
            }
        }
    }
    proof {
        assert(items@ =~= Seq::<Entry>::empty());
        assert forall|e: Entry| items@.to_multiset().count(e) == 0 by {
            if items@.to_multiset().count(e) > 0 {
                assert(items@.contains(e));
            }
        }
        assert(items@.to_multiset() =~= Multiset::<Entry>::empty());
        assert(out@.to_multiset() =~= orig.to_multiset());
    }
    out
}

/// The mirror of a sequence of entries.
fn reverse_vec(v: Vec<Entry>) -> (r: Vec<Entry>)
    ensures
        r@ == v@.reverse(),
{
    let ghost orig = v@;
    let mut items = v;
    let mut out: Vec<Entry> = Vec::new();
    while items.len() > 0
        invariant
            items@ == orig.subrange(0, items@.len() as int),
            out@.len() == orig.len() - items@.len(),
            forall|i: int| 0 <= i < out@.len() ==> out@[i] == orig[orig.len() - 1 - i],
        decreases items@.len(),
    {
        proof {
            assert(items@[items@.len() - 1] == orig[items@.len() - 1]);
        }
        let x = items.pop().unwrap();
        out.push(x);
        proof {
            assert(items@ =~= orig.subrange(0, items@.len() as int));
        }
    }
    proof {
        assert(out@ =~= orig.reverse());
    }
    out
}

/// Sorts a listing: the multi-key order of `entry_le`, then — when the
/// reverse flag is set — a mirror of the whole sequence.
pub fn sort_entries(v: Vec<Entry>, o: &Options) -> (r: Vec<Entry>)
    ensures
        r@.to_multiset() == v@.to_multiset(),
        r@.len() == v@.len(),
        sorted_le(*o, if o.reverse { r@.reverse() } else { r@ }),
{
    let sorted = sort_core(v, o);
    if o.reverse {
        let ghost s = sorted@;
        let r = reverse_vec(sorted);
        proof {
            s.lemma_reverse_to_multiset();
            assert(r@.reverse() =~= s);
        }
        r
    } else {
        sorted
    }
}

/// Law: sorting is deterministic — for one option set, any two sorted
/// arrangements of one collection of uniquely named entries are the same
/// sequence, so repeated sorts always produce the same output.
pub proof fn lemma_sorted_unique(o: Options, x: Seq<Entry>, y: Seq<Entry>)
    requires
        sorted_le(o, x),
        sorted_le(o, y),
        x.to_multiset() == y.to_multiset(),
        distinct_names(x),
    ensures
        x == y,
    decreases x.len(),
{
    broadcast use vstd::seq_lib::group_to_multiset_ensures;
    broadcast use vstd::multiset::group_multiset_axioms;

    if x.len() == 0 {
        assert(y.len() == 0);
        assert(x =~= y);
    } else {
        assert(x.to_multiset().len() == x.len());
        assert(y.len() == x.len());
        // the two heads contain each other, so they compare equal both ways
        assert(x.to_multiset().contains(x[0])) by {
            assert(x.contains(x[0]));
        }
        assert(y.to_multiset().contains(y[0])) by {
            assert(y.contains(y[0]));
        }
        assert(x.contains(y[0]));
        assert(y.contains(x[0]));
        let i = choose|i: int| 0 <= i < x.len() && x[i] == y[0];
        let j = choose|j: int| 0 <= j < y.len() && y[j] == x[0];
        assert(entry_le(o, x[0], x[i]) && entry_le(o, y[0], y[j])) by {
            lemma_entry_le_total(o, x[0], x[0]);
            lemma_entry_le_total(o, y[0], y[0]);
        }
        lemma_entry_le_antisym_names(o, x[0], y[0]);
        // distinct names force the witness to be the head itself
        assert(x[i].name@ == x[0].name@);
        assert(i == 0);
        assert(x[0] == y[0]);
        // peel the equal heads and recurse
        let x1 = x.drop_first();
        let y1 = y.drop_first();
        assert(x1 =~= x.remove(0));
        assert(y1 =~= y.remove(0));
        assert(x1.to_multiset() == y1.to_multiset()) by {
            assert(x.remove(0).to_multiset() =~= x.to_multiset().remove(x[0]));
            assert(y.remove(0).to_multiset() =~= y.to_multiset().remove(y[0]));
        }
        assert(sorted_le(o, x1) && sorted_le(o, y1) && distinct_names(x1)) by {
            assert forall|p: int, q: int| 0 <= p < q < x1.len() implies entry_le(o, x1[p], x1[q])
                && x1[p].name@ != x1[q].name@ by {
                assert(x1[p] == x[p + 1] && x1[q] == x[q + 1]);
            }
            assert forall|p: int, q: int| 0 <= p < q < y1.len() implies entry_le(
                o,
                y1[p],
                y1[q],
            ) by {
                assert(y1[p] == y[p + 1] && y1[q] == y[q + 1]);
            }
        }
        lemma_sorted_unique(o, x1, y1);
        assert(x =~= y) by {
            assert forall|p: int| 0 <= p < x.len() implies x[p] == y[p] by {
                if p > 0 {
                    assert(x1[p - 1] == y1[p - 1]);
                }
            }
        }
    }
}

/// A permutation of a listing with unique names has unique names itself.
pub proof fn lemma_permutation_distinct(x: Seq<Entry>, y: Seq<Entry>)
    requires
        x.to_multiset() == y.to_multiset(),
        distinct_names(x),
    ensures
        distinct_names(y),
{
    broadcast use vstd::seq_lib::group_to_multiset_ensures;
    broadcast use vstd::multiset::group_multiset_axioms;

    assert forall|i: int, j: int| 0 <= i < j < y.len() implies y[i].name@ != y[j].name@ by {
        if y[i].name@ == y[j].name@ {
            if y[i] == y[j] {
                // the same value twice means its count is at least two, so it
                // occurs at two positions of x as well
                let yr = y.remove(i);
                assert(yr.to_multiset() =~= y.to_multiset().remove(y[i]));
                assert(yr[j - 1] == y[j]);
                assert(yr.contains(y[j]));
                assert(yr.to_multiset().count(y[j]) > 0);
                assert(y.to_multiset().remove(y[i]).count(y[i]) >= 1);
                assert(y.to_multiset().count(y[i]) >= 2);
                assert(x.to_multiset().count(y[i]) >= 2);
                assert(x.contains(y[i])) by {
                    assert(x.to_multiset().count(y[i]) > 0);
                }
                let a = choose|a: int| 0 <= a < x.len() && x[a] == y[i];
                let xr = x.remove(a);
                assert(xr.to_multiset() =~= x.to_multiset().remove(y[i]));
                assert(xr.to_multiset().count(y[i]) >= 1);
                assert(xr.contains(y[i]));
                let b = choose|b: int| 0 <= b < xr.len() && xr[b] == y[i];
                x.remove_ensures(a);
                if b < a {
                    assert(x[b] == y[i] && x[a] == y[i]);
                    assert(x[b].name@ == x[a].name@);
                } else {
                    assert(x[b + 1] == y[i] && x[a] == y[i]);
                    assert(x[a].name@ == x[b + 1].name@);
                }
            } else {
                // two different values with one name would both stand in x
                assert(y.contains(y[i]) && y.contains(y[j]));
                assert(x.to_multiset().count(y[i]) > 0 && x.to_multiset().count(y[j]) > 0);
                assert(x.contains(y[i]) && x.contains(y[j]));
                let a = choose|a: int| 0 <= a < x.len() && x[a] == y[i];
                let b = choose|b: int| 0 <= b < x.len() && x[b] == y[j];
                assert(a != b);
                if a < b {
                    assert(x[a].name@ != x[b].name@);
                } else {
                    assert(x[b].name@ != x[a].name@);
                }
            }
        }
    }
}

/// Law: the reverse flag produces the exact mirror. If `plain` is a sorted
/// arrangement of a uniquely named collection, and `rev` is what the same
/// collection sorts to with the reverse flag set (so its mirror is sorted
/// under the same keys), then `rev` is exactly `plain` mirrored.
pub proof fn lemma_reverse_mirror(
    o: Options,
    o_rev: Options,
    input: Seq<Entry>,
    plain: Seq<Entry>,
    rev: Seq<Entry>,
)
    requires
        !o.reverse,
        o_rev == (Options { reverse: true, ..o }),
        distinct_names(input),
        plain.to_multiset() == input.to_multiset(),
        sorted_le(o, plain),
        rev.to_multiset() == input.to_multiset(),
        sorted_le(o_rev, rev.reverse()),
    ensures
        rev == plain.reverse(),
{
    // the comparison never reads the reverse flag
    assert forall|a: Entry, b: Entry| entry_le(o_rev, a, b) == entry_le(o, a, b) by {
        assert(dir_rank(o_rev, a) == dir_rank(o, a) && dir_rank(o_rev, b) == dir_rank(o, b));
        assert(size_key(o_rev, a) == size_key(o, a) && size_key(o_rev, b) == size_key(o, b));
        assert(time_key(o_rev, a) == time_key(o, a) && time_key(o_rev, b) == time_key(o, b));
    }
    assert(sorted_le(o, rev.reverse()));
    rev.lemma_reverse_to_multiset();
    lemma_permutation_distinct(input, plain);
    lemma_sorted_unique(o, plain, rev.reverse());
    assert(rev =~= plain.reverse()) by {
        assert(rev.reverse() == plain);
    }
}

/// Law: with dirs-first on, no non-directory ever precedes a directory in a
/// sorted listing, whatever secondary keys are active. (The reverse flag
/// mirrors the whole order, directories last — this speaks of the sorted
/// order before that mirror.)
pub proof fn lemma_dirs_first(o: Options, s: Seq<Entry>)
    requires
        o.dirs_first,
        sorted_le(o, s),
    ensures
        forall|i: int, j: int|
            0 <= i < j < s.len() && s[j].meta.is_dir ==> s[i].meta.is_dir,
{
    assert forall|i: int, j: int|
        0 <= i < j < s.len() && s[j].meta.is_dir implies s[i].meta.is_dir by {
        assert(entry_le(o, s[i], s[j]));
    }
}

} // verus!
