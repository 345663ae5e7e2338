//! What every report built by [`crate::report::ScanReport::from_dirs`] keeps:
//! it holds exactly the dirs it was given, and its categories tile the dirs,
//! each holding one target's dirs, largest first.

use vstd::prelude::*;
use vstd::multiset::Multiset;

use crate::report::{
    BucketView, FoundDir, bucket_categories, concat_buckets, insert_bucket,
    insert_dir, members, raw_buckets, report_buckets, sort_buckets, sort_dirs, sum_sizes,
    with_sorted_dirs, selected_dirs, with_selection, lemma_raw_buckets_found, lemma_raw_buckets_new, dir_targets, group_order,
};
use crate::seqs::lemma_keep_first;
use crate::target::any_text;

verus! {

broadcast use {vstd::seq_lib::group_to_multiset_ensures, vstd::multiset::group_multiset_axioms};

/// The dirs of the buckets, as a multiset.
pub open spec fn bucket_dirs(bs: Seq<BucketView>) -> Multiset<FoundDir> {
    concat_buckets(bs).to_multiset()
}

proof fn lemma_insert_dir_multiset(s: Seq<FoundDir>, x: FoundDir)
    ensures
        insert_dir(s, x).to_multiset() == s.to_multiset().insert(x),
    decreases s.len(),
{
    if s.len() == 0 {
        assert(seq![x] =~= s.push(x));
    } else if s.last().size >= x.size {
    } else {
        lemma_insert_dir_multiset(s.drop_last(), x);
        assert(s =~= s.drop_last().push(s.last()));
        assert(insert_dir(s.drop_last(), x).push(s.last()).to_multiset() =~= s.to_multiset().insert(
            x,
        ));
    }
}

/// Sorting dirs keeps exactly the same dirs.
pub proof fn lemma_sort_dirs_multiset(s: Seq<FoundDir>)
    ensures
        sort_dirs(s).to_multiset() == s.to_multiset(),
    decreases s.len(),
{
    if s.len() > 0 {
        lemma_sort_dirs_multiset(s.drop_last());
        lemma_insert_dir_multiset(sort_dirs(s.drop_last()), s.last());
        assert(s =~= s.drop_last().push(s.last()));
    }
}

proof fn lemma_bucket_dirs_push(bs: Seq<BucketView>, b: BucketView)
    ensures
        bucket_dirs(bs.push(b)) == bucket_dirs(bs).add(b.1.to_multiset()),
{
    assert(bs.push(b).drop_last() =~= bs);
    vstd::seq_lib::lemma_multiset_commutative(concat_buckets(bs), b.1);
}

proof fn lemma_insert_bucket_dirs(s: Seq<BucketView>, x: BucketView)
    ensures
        bucket_dirs(insert_bucket(s, x)) == bucket_dirs(s).add(x.1.to_multiset()),
    decreases s.len(),
{
    if s.len() == 0 {
        assert(seq![x] =~= s.push(x));
        lemma_bucket_dirs_push(s, x);
    } else if sum_sizes(s.last().1) >= sum_sizes(x.1) {
        lemma_bucket_dirs_push(s, x);
    } else {
        let p = s.drop_last();
        lemma_insert_bucket_dirs(p, x);
        lemma_bucket_dirs_push(insert_bucket(p, x), s.last());
        lemma_bucket_dirs_push(p, s.last());
        assert(s =~= p.push(s.last()));
        assert(bucket_dirs(insert_bucket(s, x)) =~= bucket_dirs(s).add(x.1.to_multiset()));
    }
}

/// Sorting buckets keeps exactly the same dirs.
pub proof fn lemma_sort_buckets_dirs(bs: Seq<BucketView>)
    ensures
        bucket_dirs(sort_buckets(bs)) == bucket_dirs(bs),
    decreases bs.len(),
{
    if bs.len() > 0 {
        let p = bs.drop_last();
        lemma_sort_buckets_dirs(p);
        lemma_insert_bucket_dirs(sort_buckets(p), bs.last());
        lemma_bucket_dirs_push(p, bs.last());
        assert(bs =~= p.push(bs.last()));
    }
}

/// Sorting the dirs inside each bucket keeps exactly the same dirs.
proof fn lemma_sorted_within_dirs(bs: Seq<BucketView>)
    ensures
        bucket_dirs(bs.map_values(|b: BucketView| with_sorted_dirs(b))) == bucket_dirs(bs),
    decreases bs.len(),
{
    if bs.len() > 0 {
        let p = bs.drop_last();
        lemma_sorted_within_dirs(p);
        let m = bs.map_values(|b: BucketView| with_sorted_dirs(b));
        assert(m =~= p.map_values(|b: BucketView| with_sorted_dirs(b)).push(
            with_sorted_dirs(bs.last()),
        ));
        lemma_bucket_dirs_push(p.map_values(|b: BucketView| with_sorted_dirs(b)), with_sorted_dirs(bs.last()));
        lemma_bucket_dirs_push(p, bs.last());
        lemma_sort_dirs_multiset(bs.last().1);
        assert(bs =~= p.push(bs.last()));
    }
}

proof fn lemma_update_bucket_dirs(bs: Seq<BucketView>, j: int, d: FoundDir)
    requires
        0 <= j < bs.len(),
    ensures
        bucket_dirs(bs.update(j, (bs[j].0, bs[j].1.push(d)))) == bucket_dirs(bs).insert(d),
    decreases bs.len(),
{
    let p = bs.drop_last();
    let u = bs.update(j, (bs[j].0, bs[j].1.push(d)));
    assert(bs =~= p.push(bs.last()));
    lemma_bucket_dirs_push(p, bs.last());
    if j == bs.len() - 1 {
        assert(u =~= p.push((bs[j].0, bs[j].1.push(d))));
        lemma_bucket_dirs_push(p, (bs[j].0, bs[j].1.push(d)));
        assert(bucket_dirs(u) =~= bucket_dirs(bs).insert(d));
    } else {
        lemma_update_bucket_dirs(p, j, d);
        assert(u =~= p.update(j, (p[j].0, p[j].1.push(d))).push(bs.last()));
        lemma_bucket_dirs_push(p.update(j, (p[j].0, p[j].1.push(d))), bs.last());
        assert(bucket_dirs(u) =~= bucket_dirs(bs).insert(d));
    }
}

/// Bucketing by target keeps exactly the same dirs.
proof fn lemma_raw_buckets_dirs(s: Seq<FoundDir>)
    ensures
        bucket_dirs(raw_buckets(s)) == s.to_multiset(),
    decreases s.len(),
{
    if s.len() == 0 {
        assert(raw_buckets(s) =~= Seq::<BucketView>::empty());
    } else {
        let p = s.drop_last();
        let d = s.last();
        assert(s =~= p.push(d));
        lemma_raw_buckets_dirs(p);
        if exists|j: int| 0 <= j < raw_buckets(p).len() && raw_buckets(p)[j].0 == d.target@ {
            let j = choose|j: int| 0 <= j < raw_buckets(p).len() && raw_buckets(p)[j].0 == d.target@;
            lemma_raw_buckets_found(p, d, j);
            lemma_update_bucket_dirs(raw_buckets(p), j, d);
        } else {
            lemma_raw_buckets_new(p, d);
            lemma_bucket_dirs_push(raw_buckets(p), (d.target@, seq![d]));
            assert(seq![d] =~= Seq::<FoundDir>::empty().push(d));
        }
    }
}

/// A report holds exactly the dirs it was built from: none lost, none added,
/// none repeated.
pub proof fn lemma_report_keeps_dirs(s: Seq<FoundDir>)
    ensures
        concat_buckets(report_buckets(s)).to_multiset() == s.to_multiset(),
{
    let raw = raw_buckets(s);
    lemma_raw_buckets_dirs(s);
    lemma_sorted_within_dirs(raw);
    lemma_sort_buckets_dirs(raw.map_values(|b: BucketView| with_sorted_dirs(b)));
}

/// Dirs largest first.
pub open spec fn dirs_descending(s: Seq<FoundDir>) -> bool {
    forall|i: int, j: int| 0 <= i < j < s.len() ==> s[i].size >= s[j].size
}

/// Buckets largest total first.
pub open spec fn buckets_descending(bs: Seq<BucketView>) -> bool {
    forall|i: int, j: int| 0 <= i < j < bs.len() ==> sum_sizes(bs[i].1) >= sum_sizes(bs[j].1)
}

proof fn lemma_insert_dir_descending(s: Seq<FoundDir>, x: FoundDir)
    requires
        dirs_descending(s),
    ensures
        dirs_descending(insert_dir(s, x)),
    decreases s.len(),
{
    if s.len() == 0 {
    } else if s.last().size >= x.size {
    } else {
        let p = s.drop_last();
        lemma_insert_dir_descending(p, x);
        lemma_insert_dir_multiset(p, x);
        let q = insert_dir(p, x);
        assert forall|i: int| 0 <= i < q.len() implies q[i].size >= s.last().size by {
            assert(q.to_multiset().count(q[i]) > 0);
            assert(p.to_multiset().insert(x).count(q[i]) > 0);
            if q[i] != x {
                assert(p.contains(q[i]));
                let k = choose|k: int| 0 <= k < p.len() && p[k] == q[i];
                assert(s[k] == p[k]);
            }
        }
    }
}

/// Sorting dirs puts them largest first.
pub proof fn lemma_sort_dirs_descending(s: Seq<FoundDir>)
    ensures
        dirs_descending(sort_dirs(s)),
    decreases s.len(),
{
    if s.len() > 0 {
        lemma_sort_dirs_descending(s.drop_last());
        lemma_insert_dir_descending(sort_dirs(s.drop_last()), s.last());
    }
}

proof fn lemma_insert_bucket_multiset(s: Seq<BucketView>, x: BucketView)
    ensures
        insert_bucket(s, x).to_multiset() == s.to_multiset().insert(x),
    decreases s.len(),
{
    if s.len() == 0 {
        assert(seq![x] =~= s.push(x));
    } else if sum_sizes(s.last().1) >= sum_sizes(x.1) {
    } else {
        lemma_insert_bucket_multiset(s.drop_last(), x);
        assert(s =~= s.drop_last().push(s.last()));
        assert(insert_bucket(s.drop_last(), x).push(s.last()).to_multiset() =~= s.to_multiset().insert(
            x,
        ));
    }
}

/// Sorting buckets keeps exactly the same buckets.
proof fn lemma_sort_buckets_multiset(s: Seq<BucketView>)
    ensures
        sort_buckets(s).to_multiset() == s.to_multiset(),
    decreases s.len(),
{
    if s.len() > 0 {
        lemma_sort_buckets_multiset(s.drop_last());
        lemma_insert_bucket_multiset(sort_buckets(s.drop_last()), s.last());
        assert(s =~= s.drop_last().push(s.last()));
    }
}

proof fn lemma_insert_bucket_descending(s: Seq<BucketView>, x: BucketView)
    requires
        buckets_descending(s),
    ensures
        buckets_descending(insert_bucket(s, x)),
    decreases s.len(),
{
    if s.len() == 0 {
    } else if sum_sizes(s.last().1) >= sum_sizes(x.1) {
    } else {
        let p = s.drop_last();
        lemma_insert_bucket_descending(p, x);
        lemma_insert_bucket_multiset(p, x);
        let q = insert_bucket(p, x);
        assert forall|i: int| 0 <= i < q.len() implies sum_sizes(q[i].1) >= sum_sizes(s.last().1) by {
            assert(q.to_multiset().count(q[i]) > 0);
            assert(p.to_multiset().insert(x).count(q[i]) > 0);
            if q[i] != x {
                assert(p.contains(q[i]));
                let k = choose|k: int| 0 <= k < p.len() && p[k] == q[i];
                assert(s[k] == p[k]);
            }
        }
    }
}

/// Sorting buckets puts them largest total first.
proof fn lemma_sort_buckets_descending(s: Seq<BucketView>)
    ensures
        buckets_descending(sort_buckets(s)),
    decreases s.len(),
{
    if s.len() > 0 {
        lemma_sort_buckets_descending(s.drop_last());
        lemma_insert_bucket_descending(sort_buckets(s.drop_last()), s.last());
    }
}

/// Every member of a target's bucket has that target.
proof fn lemma_members_target(s: Seq<FoundDir>, t: Seq<char>)
    ensures
        forall|i: int| 0 <= i < members(s, t).len() ==> #[trigger] members(s, t)[i].target@ == t,
    decreases s.len(),
{
    if s.len() > 0 {
        let p = s.drop_last();
        lemma_members_target(p, t);
        if s.last().target@ == t {
            assert forall|i: int| 0 <= i < members(s, t).len() implies #[trigger] members(s, t)[i].target@
                == t by {
                if i < members(p, t).len() {
                    assert(members(s, t)[i] == members(p, t)[i]);
                }
            }
        }
    }
}

/// A target that occurs has at least one member.
proof fn lemma_members_nonempty(s: Seq<FoundDir>, t: Seq<char>)
    requires
        dir_targets(s).contains(t),
    ensures
        members(s, t).len() > 0,
    decreases s.len(),
{
    let p = s.drop_last();
    if s.last().target@ != t {
        assert(dir_targets(p).contains(t)) by {
            let i = choose|i: int| 0 <= i < dir_targets(s).len() && dir_targets(s)[i] == t;
            assert(i != s.len() - 1);
            assert(dir_targets(p)[i] == t);
        }
        lemma_members_nonempty(p, t);
    }
}

/// Where bucket `i` starts in the concatenation.
pub open spec fn start_of(bs: Seq<BucketView>, i: int) -> int {
    concat_buckets(bs.take(i)).len() as int
}

/// The categories address the buckets: one per bucket, each starting where
/// the previous one ends, each range holding exactly its bucket's dirs.
proof fn lemma_categories_layout(bs: Seq<BucketView>)
    ensures
        bucket_categories(bs).len() == bs.len(),
        forall|i: int| 0 <= i < bs.len() ==> #[trigger] bucket_categories(bs)[i] == (
            bs[i].0,
            start_of(bs, i),
            bs[i].1.len() as int,
        ),
        forall|i: int| 0 <= i < bs.len() ==> concat_buckets(bs).subrange(
            start_of(bs, i),
            start_of(bs, i) + bs[i].1.len(),
        ) == #[trigger] bs[i].1,
        forall|i: int| 0 <= i < bs.len() ==> #[trigger] start_of(bs, i + 1) == start_of(bs, i) + bs[i].1.len(),
        start_of(bs, 0) == 0,
        start_of(bs, bs.len() as int) == concat_buckets(bs).len(),
    decreases bs.len(),
{
    assert(bs.take(0) =~= Seq::<BucketView>::empty());
    assert(bs.take(bs.len() as int) =~= bs);
    if bs.len() > 0 {
        let p = bs.drop_last();
        lemma_categories_layout(p);
        assert forall|i: int| 0 <= i <= p.len() implies #[trigger] bs.take(i) == p.take(i) by {
            assert(bs.take(i) =~= p.take(i));
        }
        assert forall|i: int| 0 <= i < bs.len() implies #[trigger] start_of(bs, i + 1) == start_of(bs, i)
            + bs[i].1.len() by {
            assert(bs.take(i + 1).drop_last() =~= bs.take(i));
            assert(bs.take(i + 1).last() == bs[i]);
        }
        assert forall|i: int| 0 <= i < bs.len() implies #[trigger] bucket_categories(bs)[i] == (
            bs[i].0,
            start_of(bs, i),
            bs[i].1.len() as int,
        ) by {
            if i < p.len() {
                assert(bs.take(i) == p.take(i));
            }
        }
        assert forall|i: int| 0 <= i < bs.len() implies concat_buckets(bs).subrange(
            start_of(bs, i),
            start_of(bs, i) + bs[i].1.len(),
        ) == #[trigger] bs[i].1 by {
            let c = concat_buckets(p);
            if i < p.len() {
                assert(bs.take(i) == p.take(i));
                assert(p.take(i + 1) == bs.take(i + 1));
                assert(start_of(p, i) + p[i].1.len() <= start_of(p, p.len() as int)) by {
                    lemma_start_monotone(p, i + 1, p.len() as int);
                }
                assert(concat_buckets(bs).subrange(start_of(bs, i), start_of(bs, i) + bs[i].1.len())
                    =~= c.subrange(start_of(p, i), start_of(p, i) + p[i].1.len()));
            } else {
                assert(bs.take(i) =~= p);
                assert(concat_buckets(bs).subrange(start_of(bs, i), start_of(bs, i) + bs[i].1.len())
                    =~= bs[i].1);
            }
        }
    }
}

/// Later buckets start no earlier.
proof fn lemma_start_monotone(bs: Seq<BucketView>, i: int, j: int)
    requires
        0 <= i <= j <= bs.len(),
    ensures
        start_of(bs, i) <= start_of(bs, j),
    decreases j - i,
{
    if i < j {
        lemma_start_monotone(bs, i, j - 1);
        assert(bs.take(j).drop_last() =~= bs.take(j - 1));
    }
}

/// The buckets of a report before they are ordered.
pub open spec fn unordered_buckets(s: Seq<FoundDir>) -> Seq<BucketView> {
    raw_buckets(s).map_values(|b: BucketView| with_sorted_dirs(b))
}

/// Each report bucket is the sorted members of one target that occurs.
proof fn lemma_report_bucket(s: Seq<FoundDir>, i: int) -> (k: int)
    requires
        0 <= i < report_buckets(s).len(),
    ensures
        0 <= k < group_order(s).len(),
        report_buckets(s)[i] == unordered_buckets(s)[k],
        report_buckets(s)[i] == (group_order(s)[k], sort_dirs(members(s, group_order(s)[k]))),
{
    let x = unordered_buckets(s);
    let bs = report_buckets(s);
    lemma_sort_buckets_multiset(x);
    assert(bs.to_multiset().count(bs[i]) > 0);
    assert(x.contains(bs[i]));
    let k = choose|k: int| 0 <= k < x.len() && x[k] == bs[i];
    k
}

/// The unordered buckets have distinct targets.
proof fn lemma_unordered_distinct(s: Seq<FoundDir>)
    ensures
        unordered_buckets(s).no_duplicates(),
        group_order(s).no_duplicates(),
{
    lemma_keep_first(dir_targets(s), |t: Seq<char>| any_text(t));
    let x = unordered_buckets(s);
    assert forall|a: int, b: int| 0 <= a < x.len() && 0 <= b < x.len() && a != b implies x[a]
        != x[b] by {
        assert(x[a].0 == group_order(s)[a]);
        assert(x[b].0 == group_order(s)[b]);
    }
}

/// The shape of every report built from `s`: its dirs are exactly the dirs of
/// `s`; there is one category per target that occurs in `s`; the categories
/// tile the dirs in order, each starting where the previous one ends; every
/// category is non-empty, holds only dirs of its own target, largest first;
/// no two categories share a target; and a category weighs at least as much as
/// every later one.
pub proof fn lemma_report_layout(s: Seq<FoundDir>)
    ensures
        concat_buckets(report_buckets(s)).to_multiset() == s.to_multiset(),
        bucket_categories(report_buckets(s)).len() == group_order(s).len(),
        ({
            let dirs = concat_buckets(report_buckets(s));
            let cats = bucket_categories(report_buckets(s));
            &&& cats.len() == 0 ==> dirs.len() == 0
            &&& cats.len() > 0 ==> cats[0].1 == 0 && cats.last().1 + cats.last().2 == dirs.len()
            &&& forall|i: int| 0 <= i < cats.len() - 1 ==> #[trigger] cats[i + 1].1 == cats[i].1
                + cats[i].2
            &&& forall|i: int| 0 <= i < cats.len() ==> #[trigger] cats[i].2 > 0
            &&& forall|i: int, k: int|
                0 <= i < cats.len() && cats[i].1 <= k < cats[i].1 + cats[i].2 ==> #[trigger] dirs[k].target@
                    == #[trigger] cats[i].0
            &&& forall|i: int|
                0 <= i < cats.len() ==> dirs_descending(
                    #[trigger] dirs.subrange(cats[i].1, cats[i].1 + cats[i].2),
                )
            &&& forall|i: int, j: int|
                0 <= i < j < cats.len() ==> #[trigger] cats[i].0 != #[trigger] cats[j].0
            &&& forall|i: int, j: int|
                0 <= i < j < cats.len() ==> sum_sizes(#[trigger] dirs.subrange(cats[i].1, cats[i].1 + cats[i].2))
                    >= sum_sizes(#[trigger] dirs.subrange(cats[j].1, cats[j].1 + cats[j].2))
        }),
{
    let bs = report_buckets(s);
    let x = unordered_buckets(s);
    let dirs = concat_buckets(bs);
    let cats = bucket_categories(bs);
    lemma_report_keeps_dirs(s);
    lemma_categories_layout(bs);
    lemma_sort_buckets_multiset(x);
    lemma_sort_buckets_descending(x);
    lemma_unordered_distinct(s);
    lemma_keep_first(dir_targets(s), |t: Seq<char>| any_text(t));
    assert(bs.to_multiset().len() == x.to_multiset().len());
    assert(bs.len() == x.len());
    assert(cats.len() == group_order(s).len());
    assert forall|i: int| 0 <= i < cats.len() - 1 implies #[trigger] cats[i + 1].1 == cats[i].1
        + cats[i].2 by {
        assert(cats[i + 1] == (bs[i + 1].0, start_of(bs, i + 1), bs[i + 1].1.len() as int));
        assert(cats[i] == (bs[i].0, start_of(bs, i), bs[i].1.len() as int));
        assert(start_of(bs, i + 1) == start_of(bs, i) + bs[i].1.len());
    }
    if cats.len() > 0 {
        assert(cats[0] == (bs[0].0, start_of(bs, 0), bs[0].1.len() as int));
        let l = cats.len() - 1;
        assert(cats[l] == (bs[l].0, start_of(bs, l), bs[l].1.len() as int));
        assert(start_of(bs, l + 1) == start_of(bs, l) + bs[l].1.len());
    }
    assert forall|i: int| 0 <= i < cats.len() implies #[trigger] cats[i].2 > 0 && dirs.subrange(
        cats[i].1,
        cats[i].1 + cats[i].2,
    ) == bs[i].1 && dirs_descending(bs[i].1) && (forall|k: int|
        0 <= k < bs[i].1.len() ==> #[trigger] bs[i].1[k].target@ == cats[i].0) by {
        assert(cats[i] == (bs[i].0, start_of(bs, i), bs[i].1.len() as int));
        let k = lemma_report_bucket(s, i);
        let t = group_order(s)[k];
        assert(group_order(s).contains(t));
        assert(dir_targets(s).contains(t));
        lemma_members_nonempty(s, t);
        lemma_members_target(s, t);
        lemma_sort_dirs_multiset(members(s, t));
        lemma_sort_dirs_descending(members(s, t));
        let m = members(s, t);
        let sd = sort_dirs(m);
        assert(sd.to_multiset().len() == m.to_multiset().len());
        assert(sd.len() == m.len());
        assert forall|q: int| 0 <= q < sd.len() implies #[trigger] sd[q].target@ == t by {
            assert(sd.to_multiset().count(sd[q]) > 0);
            assert(m.contains(sd[q]));
            let r = choose|r: int| 0 <= r < m.len() && m[r] == sd[q];
            assert(m[r].target@ == t);
        }
    }
    assert forall|i: int, k: int|
        0 <= i < cats.len() && cats[i].1 <= k < cats[i].1 + cats[i].2 implies #[trigger] dirs[k].target@
        == #[trigger] cats[i].0 by {
        let sub = dirs.subrange(cats[i].1, cats[i].1 + cats[i].2);
        assert(cats[i] == (bs[i].0, start_of(bs, i), bs[i].1.len() as int));
        lemma_start_monotone(bs, i + 1, bs.len() as int);
        assert(start_of(bs, i + 1) == start_of(bs, i) + bs[i].1.len());
        assert(sub == bs[i].1);
        assert(sub[k - cats[i].1] == dirs[k]);
        assert(bs[i].1[k - cats[i].1].target@ == cats[i].0);
    }
    assert forall|i: int| 0 <= i < cats.len() implies dirs_descending(
        #[trigger] dirs.subrange(cats[i].1, cats[i].1 + cats[i].2),
    ) by {
        assert(cats[i].2 > 0);
    }
    assert forall|i: int, j: int| 0 <= i < j < cats.len() implies #[trigger] cats[i].0
        != #[trigger] cats[j].0 by {
        assert(cats[i] == (bs[i].0, start_of(bs, i), bs[i].1.len() as int));
        assert(cats[j] == (bs[j].0, start_of(bs, j), bs[j].1.len() as int));
        let ki = lemma_report_bucket(s, i);
        let kj = lemma_report_bucket(s, j);
        if bs[i].0 == bs[j].0 {
            assert(ki == kj);
            assert(bs[i] == bs[j]);
            x.lemma_multiset_has_no_duplicates();
            assert(x.to_multiset().count(bs[i]) == 1);
            assert(bs.to_multiset().count(bs[i]) == 1);
            bs.lemma_multiset_has_no_duplicates_conv();
        }
    }
    assert forall|i: int, j: int| 0 <= i < j < cats.len() implies sum_sizes(
        #[trigger] dirs.subrange(cats[i].1, cats[i].1 + cats[i].2),
    ) >= sum_sizes(#[trigger] dirs.subrange(cats[j].1, cats[j].1 + cats[j].2)) by {
        assert(cats[i].2 > 0);
        assert(cats[j].2 > 0);
    }
}

/// Marking every dir selects them all; unmarking every dir selects none.
pub proof fn lemma_all_marked(s: Seq<FoundDir>, t: Seq<FoundDir>, selected: bool)
    requires
        t.len() == s.len(),
        forall|i: int| 0 <= i < s.len() ==> #[trigger] t[i] == with_selection(s[i], selected),
    ensures
        selected ==> selected_dirs(t) == t,
        !selected ==> selected_dirs(t).len() == 0,
        sum_sizes(t) == sum_sizes(s),
    decreases s.len(),
{
    if s.len() > 0 {
        lemma_all_marked(s.drop_last(), t.drop_last(), selected);
        assert(t.last() == with_selection(s.last(), selected));
        if selected {
            assert(t =~= t.drop_last().push(t.last()));
        }
    }
}

/// Flipping the mark of one dir moves exactly that dir in or out of the
/// selection.
pub proof fn lemma_toggle_count(s: Seq<FoundDir>, i: int)
    requires
        0 <= i < s.len(),
    ensures
        selected_dirs(s.update(i, with_selection(s[i], !s[i].selected))).len() == if s[i].selected {
            selected_dirs(s).len() - 1
        } else {
            selected_dirs(s).len() + 1int
        },
    decreases s.len(),
{
    let u = s.update(i, with_selection(s[i], !s[i].selected));
    if i == s.len() - 1 {
        assert(u.drop_last() =~= s.drop_last());
    } else {
        lemma_toggle_count(s.drop_last(), i);
        assert(u.drop_last() =~= s.drop_last().update(
            i,
            with_selection(s.drop_last()[i], !s.drop_last()[i].selected),
        ));
    }
}

} // verus!
