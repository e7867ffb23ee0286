//! The table sorter: a stable sort of process rows by one column and a
//! direction.
//!
//! The result is pinned down exactly by the spec function [`sort_seq`]:
//! insertion from the left, each row placed behind every row that compares
//! at-or-before it. That makes the sort stable (rows with equal keys keep
//! their relative order) and deterministic, and idempotence on already
//! sorted input is proved below ([`lemma_sort_idempotent`]).

use crate::processes::{
    compare_in_column, eff_cmp, f32_bits_is_nan, key_le, lemma_col_cmp_antisym, ProcessInfo,
    COLUMN_COUNT,
};
use vstd::prelude::*;

verus! {

/// `x` inserted into `s` from the right: behind every element that compares
/// at-or-before it, in front of every element strictly after it. An element
/// equal to `x` stays in front, which is what makes the sort stable.
pub open spec fn insert_sorted(s: Seq<ProcessInfo>, x: ProcessInfo, col: int, desc: bool) -> Seq<
    ProcessInfo,
>
    decreases s.len(),
{
    if s.len() == 0 {
        seq![x]
    } else if eff_cmp(col, desc, s.last(), x) <= 0 {
        s.push(x)
    } else {
        insert_sorted(s.drop_last(), x, col, desc).push(s.last())
    }
}

/// The stable sort of `s` under the given column and direction: every
/// element in turn inserted behind its equals.
pub open spec fn sort_seq(s: Seq<ProcessInfo>, col: int, desc: bool) -> Seq<ProcessInfo>
    decreases s.len(),
{
    if s.len() == 0 {
        Seq::empty()
    } else {
        insert_sorted(sort_seq(s.drop_last(), col, desc), s.last(), col, desc)
    }
}

/// Every adjacent pair of rows is in order.
pub open spec fn adj_sorted(s: Seq<ProcessInfo>, col: int, desc: bool) -> bool {
    forall|i: int| 0 <= i < s.len() - 1 ==> key_le(col, desc, #[trigger] s[i], s[i + 1])
}

/// Inserting preserves adjacent sortedness, grows the length by one, and
/// ends in either `x` or the old last element.
proof fn lemma_insert_sorted_props(s: Seq<ProcessInfo>, x: ProcessInfo, col: int, desc: bool)
    ensures
        insert_sorted(s, x, col, desc).len() == s.len() + 1,
        insert_sorted(s, x, col, desc).last() == x || (s.len() > 0 && insert_sorted(
            s,
            x,
            col,
            desc,
        ).last() == s.last()),
        adj_sorted(s, col, desc) ==> adj_sorted(insert_sorted(s, x, col, desc), col, desc),
    decreases s.len(),
{
    if s.len() == 0 {
    } else if eff_cmp(col, desc, s.last(), x) <= 0 {
        let r = s.push(x);
        if adj_sorted(s, col, desc) {
            assert forall|i: int| 0 <= i < r.len() - 1 implies key_le(
                col,
                desc,
                #[trigger] r[i],
                r[i + 1],
            ) by {
                if i < s.len() - 1 {
                    assert(key_le(col, desc, s[i], s[i + 1]));
                }
            }
        }
    } else {
        let t = s.drop_last();
        lemma_insert_sorted_props(t, x, col, desc);
        let r0 = insert_sorted(t, x, col, desc);
        let r = r0.push(s.last());
        if adj_sorted(s, col, desc) {
            assert forall|i: int| 0 <= i < t.len() - 1 implies key_le(
                col,
                desc,
                #[trigger] t[i],
                t[i + 1],
            ) by {
                assert(key_le(col, desc, s[i], s[i + 1]));
            }
            assert(adj_sorted(t, col, desc));
            assert(adj_sorted(r0, col, desc));
            // The junction pair: the last of `r0` is either `x`, which the
            // branch condition puts strictly before `s.last()`, or the old
            // next-to-last element of `s`, already in order with `s.last()`.
            lemma_col_cmp_antisym(col, s.last(), x);
            if r0.last() == x {
                assert(key_le(col, desc, x, s.last()));
            } else {
                assert(t.last() == s[s.len() - 2]);
                assert(key_le(col, desc, s[s.len() - 2], s.last()));
            }
            assert forall|i: int| 0 <= i < r.len() - 1 implies key_le(
                col,
                desc,
                #[trigger] r[i],
                r[i + 1],
            ) by {
                if i < r0.len() - 1 {
                    assert(key_le(col, desc, r0[i], r0[i + 1]));
                } else {
                    assert(r[i] == r0.last());
                    assert(r[i + 1] == s.last());
                }
            }
        }
    }
}

/// Sorting keeps the length and yields an adjacently sorted sequence.
pub proof fn lemma_sort_seq_props(s: Seq<ProcessInfo>, col: int, desc: bool)
    ensures
        sort_seq(s, col, desc).len() == s.len(),
        adj_sorted(sort_seq(s, col, desc), col, desc),
    decreases s.len(),
{
    if s.len() == 0 {
    } else {
        lemma_sort_seq_props(s.drop_last(), col, desc);
        lemma_insert_sorted_props(sort_seq(s.drop_last(), col, desc), s.last(), col, desc);
    }
}

/// An adjacently sorted sequence is a fixed point of the sort.
pub proof fn lemma_sorted_sort_is_identity(s: Seq<ProcessInfo>, col: int, desc: bool)
    requires
        adj_sorted(s, col, desc),
    ensures
        sort_seq(s, col, desc) == s,
    decreases s.len(),
{
    if s.len() == 0 {
        assert(sort_seq(s, col, desc) =~= s);
    } else {
        let t = s.drop_last();
        assert forall|i: int| 0 <= i < t.len() - 1 implies key_le(
            col,
            desc,
            #[trigger] t[i],
            t[i + 1],
        ) by {
            assert(key_le(col, desc, s[i], s[i + 1]));
        }
        lemma_sorted_sort_is_identity(t, col, desc);
        if t.len() == 0 {
            assert(insert_sorted(t, s.last(), col, desc) =~= s);
        } else {
            assert(t.last() == s[s.len() - 2]);
            assert(key_le(col, desc, s[s.len() - 2], s.last()));
            assert(t.push(s.last()) =~= s);
        }
    }
}

/// Sorting is idempotent: a list already sorted by a column and direction is
/// given back identically by another sort with the same key, so repeated
/// re-sorts of an unchanged list never reorder it.
pub proof fn lemma_sort_idempotent(s: Seq<ProcessInfo>, col: int, desc: bool)
    ensures
        sort_seq(sort_seq(s, col, desc), col, desc) == sort_seq(s, col, desc),
{
    lemma_sort_seq_props(s, col, desc);
    lemma_sorted_sort_is_identity(sort_seq(s, col, desc), col, desc);
}

/// A list whose every CPU percentage is NaN is left exactly in its input
/// order by a sort on the cpu column (index 2), in either direction: a NaN
/// compares equal to everything, so every adjacent pair is already in order.
pub proof fn lemma_all_nan_cpu_sort_is_identity(s: Seq<ProcessInfo>, desc: bool)
    requires
        forall|i: int| 0 <= i < s.len() ==> f32_bits_is_nan((#[trigger] s[i]).cpu_bits),
    ensures
        sort_seq(s, 2, desc) == s,
{
    assert forall|i: int| 0 <= i < s.len() - 1 implies key_le(2, desc, #[trigger] s[i], s[i + 1]) by {
        assert(f32_bits_is_nan(s[i].cpu_bits));
        assert(f32_bits_is_nan(s[i + 1].cpu_bits));
    }
    lemma_sorted_sort_is_identity(s, 2, desc);
}

/// Inserting adds exactly one row: the result holds the rows of `s` and
/// `x`, with multiplicity.
proof fn lemma_insert_sorted_multiset(s: Seq<ProcessInfo>, x: ProcessInfo, col: int, desc: bool)
    ensures
        insert_sorted(s, x, col, desc).to_multiset() == s.to_multiset().insert(x),
    decreases s.len(),
{
    broadcast use vstd::seq_lib::group_to_multiset_ensures;

    if s.len() == 0 {
        assert(s =~= Seq::<ProcessInfo>::empty());
        assert(seq![x] =~= Seq::<ProcessInfo>::empty().push(x));
        assert(insert_sorted(s, x, col, desc).to_multiset() =~= s.to_multiset().insert(x));
    } else if eff_cmp(col, desc, s.last(), x) <= 0 {
        assert(s.push(x).to_multiset() =~= s.to_multiset().insert(x));
    } else {
        let t = s.drop_last();
        lemma_insert_sorted_multiset(t, x, col, desc);
        assert(t.push(s.last()) =~= s);
        assert(insert_sorted(s, x, col, desc).to_multiset() =~= t.to_multiset().insert(x).insert(
            s.last(),
        ));
        assert(t.to_multiset().insert(x).insert(s.last()) =~= t.to_multiset().insert(
            s.last(),
        ).insert(x));
        assert(s.to_multiset() =~= t.to_multiset().insert(s.last()));
    }
}

/// The sort only reorders: the rows of the result are exactly the rows of
/// the input, with multiplicity.
pub proof fn lemma_sort_permutes(s: Seq<ProcessInfo>, col: int, desc: bool)
    ensures
        sort_seq(s, col, desc).to_multiset() == s.to_multiset(),
    decreases s.len(),
{
    broadcast use vstd::seq_lib::group_to_multiset_ensures;

    if s.len() == 0 {
        assert(sort_seq(s, col, desc).to_multiset() =~= s.to_multiset());
    } else {
        let t = s.drop_last();
        lemma_sort_permutes(t, col, desc);
        lemma_insert_sorted_multiset(sort_seq(t, col, desc), s.last(), col, desc);
        assert(t.push(s.last()) =~= s);
        assert(s.to_multiset() =~= t.to_multiset().insert(s.last()));
    }
}

/// Where `insert_sorted` puts `x`: if everything from `j` on is strictly
/// after `x` and the element before `j` (if any) is not, the insertion
/// lands exactly at `j`.
proof fn lemma_insert_sorted_at(s: Seq<ProcessInfo>, x: ProcessInfo, col: int, desc: bool, j: int)
    requires
        0 <= j <= s.len(),
        forall|k: int| j <= k < s.len() ==> eff_cmp(col, desc, #[trigger] s[k], x) > 0,
        j > 0 ==> eff_cmp(col, desc, s[j - 1], x) <= 0,
    ensures
        insert_sorted(s, x, col, desc) == s.take(j) + seq![x] + s.skip(j),
    decreases s.len(),
{
    if s.len() == 0 {
        assert(insert_sorted(s, x, col, desc) =~= s.take(j) + seq![x] + s.skip(j));
    } else if j == s.len() {
        assert(eff_cmp(col, desc, s.last(), x) <= 0);
        assert(s.push(x) =~= s.take(j) + seq![x] + s.skip(j));
    } else {
        assert(eff_cmp(col, desc, s[s.len() - 1], x) > 0);
        let t = s.drop_last();
        assert forall|k: int| j <= k < t.len() implies eff_cmp(col, desc, #[trigger] t[k], x)
            > 0 by {
            assert(eff_cmp(col, desc, s[k], x) > 0);
        }
        if j > 0 {
            assert(t[j - 1] == s[j - 1]);
        }
        lemma_insert_sorted_at(t, x, col, desc, j);
        assert(insert_sorted(t, x, col, desc).push(s.last()) =~= s.take(j) + seq![x] + s.skip(j));
    }
}

/// Sorts the process list in place by the given column index and direction.
/// The result is exactly the stable sort [`sort_seq`] of the input.
pub fn sort_processes(processes: &mut Vec<ProcessInfo>, sort_column: usize, sort_desc: bool)
    requires
        sort_column < COLUMN_COUNT,
    ensures
        final(processes)@ == sort_seq(old(processes)@, sort_column as int, sort_desc),
{
    let ghost s0: Seq<ProcessInfo> = processes@;
    let ghost colI: int = sort_column as int;
    let mut i: usize = 0;
    proof {
        assert(s0.take(0) =~= Seq::<ProcessInfo>::empty());
        assert(s0.skip(0) =~= s0);
        assert(processes@ =~= sort_seq(s0.take(0), colI, sort_desc) + s0.skip(0));
    }
    while i < processes.len()
        invariant
            sort_column < COLUMN_COUNT,
            colI == sort_column as int,
            i <= s0.len(),
            processes@.len() == s0.len(),
            processes@ == sort_seq(s0.take(i as int), colI, sort_desc) + s0.skip(i as int),
        decreases s0.len() - i,
    {
        proof {
            lemma_sort_seq_props(s0.take(i as int), colI, sort_desc);
            assert(s0.skip(i as int)[0] == s0[i as int]);
        }
        let ghost pre: Seq<ProcessInfo> = sort_seq(s0.take(i as int), colI, sort_desc);
        let x = processes.remove(i);
        proof {
            assert(x == s0[i as int]);
            assert(processes@ =~= pre + s0.skip(i + 1));
        }
        let mut j: usize = i;
        loop
            invariant
                sort_column < COLUMN_COUNT,
                colI == sort_column as int,
                i < s0.len(),
                j <= i,
                pre.len() == i,
                pre == sort_seq(s0.take(i as int), colI, sort_desc),
                x == s0[i as int],
                processes@.len() == s0.len() - 1,
                processes@ == pre + s0.skip(i + 1),
                forall|k: int| j <= k < i ==> eff_cmp(colI, sort_desc, #[trigger] pre[k], x) > 0,
            ensures
                j <= i,
                forall|k: int| j <= k < i ==> eff_cmp(colI, sort_desc, #[trigger] pre[k], x) > 0,
                j > 0 ==> eff_cmp(colI, sort_desc, pre[j - 1], x) <= 0,
                processes@ == pre + s0.skip(i + 1),
                processes@.len() == s0.len() - 1,
            decreases j,
        {
            if j == 0 {
                break ;
            }
            let c = compare_in_column(sort_column, &processes[j - 1], &x);
            let e: i8 = if sort_desc {
                -c
            } else {
                c
            };
            proof {
                assert(processes@[j - 1] == pre[j - 1]);
                assert(e as int == eff_cmp(colI, sort_desc, pre[j - 1], x));
            }
            if e > 0 {
                j = j - 1;
            } else {
                break ;
            }
        }
        proof {
            lemma_insert_sorted_at(pre, x, colI, sort_desc, j as int);
        }
        processes.insert(j, x);
        proof {
            assert(processes@ =~= pre.take(j as int) + seq![x] + pre.skip(j as int) + s0.skip(
                i + 1,
            ));
            assert(s0.take(i + 1).drop_last() =~= s0.take(i as int));
            assert(s0.take(i + 1).last() == s0[i as int]);
            assert(sort_seq(s0.take(i + 1), colI, sort_desc) == insert_sorted(
                pre,
                x,
                colI,
                sort_desc,
            ));
            assert(insert_sorted(pre, x, colI, sort_desc) + s0.skip(i + 1) =~= pre.take(j as int)
                + seq![x] + pre.skip(j as int) + s0.skip(i + 1));
        }
        i = i + 1;
    }
    proof {
        assert(s0.take(s0.len() as int) =~= s0);
        assert(s0.skip(s0.len() as int) =~= Seq::<ProcessInfo>::empty());
        assert(processes@ =~= sort_seq(s0, colI, sort_desc));
    }
}

} // verus!
