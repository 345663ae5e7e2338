//! The result of a scan: the directories found, grouped into categories with
//! size and file-count totals. This is the model the dashboard renders.

use vstd::prelude::*;

use crate::seqs::{keep_first, lemma_keep_first};
use crate::target::{TargetName, any_text};

verus! {

/// One reclaimable directory found on disk.
pub struct FoundDir {
    pub path: String,
    pub target: TargetName,
    pub size: u64,
    pub file_count: u64,
    /// Whether the user has it marked for deletion. Found dirs start selected.
    pub selected: bool,
}

impl Clone for FoundDir {
    fn clone(&self) -> (r: Self)
        ensures
            r == *self,
    {
        FoundDir {
            path: self.path.clone(),
            target: self.target.clone(),
            size: self.size,
            file_count: self.file_count,
            selected: self.selected,
        }
    }
}

impl FoundDir {
    /// A dir just measured by a scan: everything found starts selected.
    pub fn measured(path: String, target: TargetName, size: u64, file_count: u64) -> (r: FoundDir)
        ensures
            r.path == path,
            r.target == target,
            r.size == size,
            r.file_count == file_count,
            r.selected,
    {
        FoundDir { path, target, size, file_count, selected: true }
    }
}

/// A run of contiguous [`FoundDir`]s sharing a target name, addressed as a
/// slice of [`ScanReport::dirs`].
pub struct Category {
    pub target: TargetName,
    pub start: usize,
    pub len: usize,
}

impl Clone for Category {
    fn clone(&self) -> (r: Self)
        ensures
            r == *self,
    {
        Category { target: self.target.clone(), start: self.start, len: self.len }
    }
}

/// All directories found in a scan, in display order: categories sorted by
/// total size (largest first), and dirs within a category likewise.
pub struct ScanReport {
    pub dirs: Vec<FoundDir>,
    pub categories: Vec<Category>,
}

/// The sum of the sizes of `s`.
pub open spec fn sum_sizes(s: Seq<FoundDir>) -> nat
    decreases s.len(),
{
    if s.len() == 0 {
        0
    } else {
        sum_sizes(s.drop_last()) + s.last().size as nat
    }
}

/// The sum of the file counts of `s`.
pub open spec fn sum_files(s: Seq<FoundDir>) -> nat
    decreases s.len(),
{
    if s.len() == 0 {
        0
    } else {
        sum_files(s.drop_last()) + s.last().file_count as nat
    }
}

/// Every target's dirs weigh, together, no more than a `u64` holds.
pub open spec fn target_totals_fit(s: Seq<FoundDir>) -> bool {
    forall|t: Seq<char>| #[trigger] sum_sizes(members(s, t)) <= u64::MAX
}

/// `d` with its mark set to `selected`.
pub open spec fn with_selection(d: FoundDir, selected: bool) -> FoundDir {
    FoundDir { selected: selected, ..d }
}

/// The dirs of `s` that are marked for deletion, in order.
pub open spec fn selected_dirs(s: Seq<FoundDir>) -> Seq<FoundDir>
    decreases s.len(),
{
    if s.len() == 0 {
        Seq::empty()
    } else if s.last().selected {
        selected_dirs(s.drop_last()).push(s.last())
    } else {
        selected_dirs(s.drop_last())
    }
}

/// `sorted` (largest first) with `x` placed after every element at least as
/// large, and before the smaller ones.
pub open spec fn insert_dir(sorted: Seq<FoundDir>, x: FoundDir) -> Seq<FoundDir>
    decreases sorted.len(),
{
    if sorted.len() == 0 {
        seq![x]
    } else if sorted.last().size >= x.size {
        sorted.push(x)
    } else {
        insert_dir(sorted.drop_last(), x).push(sorted.last())
    }
}

/// The stable sort of `s` by size, largest first: equal sizes keep their order.
pub open spec fn sort_dirs(s: Seq<FoundDir>) -> Seq<FoundDir>
    decreases s.len(),
{
    if s.len() == 0 {
        s
    } else {
        insert_dir(sort_dirs(s.drop_last()), s.last())
    }
}

/// The dirs of `s` whose target is `t`, in order.
pub open spec fn members(s: Seq<FoundDir>, t: Seq<char>) -> Seq<FoundDir>
    decreases s.len(),
{
    if s.len() == 0 {
        Seq::empty()
    } else if s.last().target@ == t {
        members(s.drop_last(), t).push(s.last())
    } else {
        members(s.drop_last(), t)
    }
}

/// The targets of `s`, one per dir.
pub open spec fn dir_targets(s: Seq<FoundDir>) -> Seq<Seq<char>> {
    s.map_values(|d: FoundDir| d.target@)
}

/// Each target of `s` once, in the order it first occurs.
pub open spec fn group_order(s: Seq<FoundDir>) -> Seq<Seq<char>> {
    keep_first(dir_targets(s), |t: Seq<char>| any_text(t))
}

/// A target with its dirs.
pub type BucketView = (Seq<char>, Seq<FoundDir>);

/// The dirs of `s` bucketed by target, buckets in first-occurrence order, dirs
/// in input order.
pub open spec fn raw_buckets(s: Seq<FoundDir>) -> Seq<BucketView> {
    group_order(s).map_values(|t: Seq<char>| (t, members(s, t)))
}

/// `sorted` (largest total first) with `x` placed after every bucket at least
/// as large, and before the smaller ones.
pub open spec fn insert_bucket(sorted: Seq<BucketView>, x: BucketView) -> Seq<BucketView>
    decreases sorted.len(),
{
    if sorted.len() == 0 {
        seq![x]
    } else if sum_sizes(sorted.last().1) >= sum_sizes(x.1) {
        sorted.push(x)
    } else {
        insert_bucket(sorted.drop_last(), x).push(sorted.last())
    }
}

/// The stable sort of buckets by total size, largest first.
pub open spec fn sort_buckets(s: Seq<BucketView>) -> Seq<BucketView>
    decreases s.len(),
{
    if s.len() == 0 {
        s
    } else {
        insert_bucket(sort_buckets(s.drop_last()), s.last())
    }
}

/// A bucket with its dirs sorted by size, largest first.
pub open spec fn with_sorted_dirs(b: BucketView) -> BucketView {
    (b.0, sort_dirs(b.1))
}

/// The buckets of a report on `s`, in display order.
pub open spec fn report_buckets(s: Seq<FoundDir>) -> Seq<BucketView> {
    sort_buckets(raw_buckets(s).map_values(|b: BucketView| with_sorted_dirs(b)))
}

/// The dirs of the buckets, one bucket after the other.
pub open spec fn concat_buckets(bs: Seq<BucketView>) -> Seq<FoundDir>
    decreases bs.len(),
{
    if bs.len() == 0 {
        Seq::empty()
    } else {
        concat_buckets(bs.drop_last()) + bs.last().1
    }
}

/// A category as target, start and length.
pub type CategoryView = (Seq<char>, int, int);

/// The categories that address the buckets in `concat_buckets(bs)`.
pub open spec fn bucket_categories(bs: Seq<BucketView>) -> Seq<CategoryView>
    decreases bs.len(),
{
    if bs.len() == 0 {
        Seq::empty()
    } else {
        bucket_categories(bs.drop_last()).push(
            (bs.last().0, concat_buckets(bs.drop_last()).len() as int, bs.last().1.len() as int),
        )
    }
}

/// The views of categories.
pub open spec fn category_views(cs: Seq<Category>) -> Seq<CategoryView> {
    cs.map_values(|c: Category| (c.target@, c.start as int, c.len as int))
}

/// `insert_dir` places `x` at the first position after which every dir is
/// smaller than `x`.
proof fn lemma_insert_dir_at(s: Seq<FoundDir>, x: FoundDir, pos: int)
    requires
        0 <= pos <= s.len(),
        forall|i: int| pos <= i < s.len() ==> s[i].size < x.size,
        pos == 0 || s[pos - 1].size >= x.size,
    ensures
        insert_dir(s, x) == s.insert(pos, x),
    decreases s.len(),
{
    if pos == s.len() {
        assert(s.insert(pos, x) =~= s.push(x));
    } else {
        lemma_insert_dir_at(s.drop_last(), x, pos);
        assert(s.insert(pos, x) =~= s.drop_last().insert(pos, x).push(s.last()));
    }
}

/// `insert_bucket` places `x` at the first position after which every bucket is
/// smaller than `x`.
proof fn lemma_insert_bucket_at(s: Seq<BucketView>, x: BucketView, pos: int)
    requires
        0 <= pos <= s.len(),
        forall|i: int| pos <= i < s.len() ==> sum_sizes(s[i].1) < sum_sizes(x.1),
        pos == 0 || sum_sizes(s[pos - 1].1) >= sum_sizes(x.1),
    ensures
        insert_bucket(s, x) == s.insert(pos, x),
    decreases s.len(),
{
    if pos == s.len() {
        assert(s.insert(pos, x) =~= s.push(x));
    } else {
        lemma_insert_bucket_at(s.drop_last(), x, pos);
        assert(s.insert(pos, x) =~= s.drop_last().insert(pos, x).push(s.last()));
    }
}

/// Sorts dirs by size, largest first, keeping the order of equal sizes.
fn sort_by_size(v: Vec<FoundDir>) -> (r: Vec<FoundDir>)
    ensures
        r@ == sort_dirs(v@),
{
    let ghost input = v@;
    let mut rest = v;
    let n = rest.len();
    assert(input.len() == n);
    let mut out: Vec<FoundDir> = Vec::new();
    let mut k: usize = 0;
    while rest.len() > 0
        invariant
            k + rest.len() == input.len(),
            input.len() <= usize::MAX,
            rest@ == input.skip(k as int),
            out@ == sort_dirs(input.take(k as int)),
        decreases rest.len(),
    {
        let x = rest.remove(0);
        assert(x == input[k as int]);
        let mut pos = out.len();
        while pos > 0 && out[pos - 1].size < x.size
            invariant
                pos <= out.len(),
                forall|i: int| pos <= i < out.len() ==> out@[i].size < x.size,
            decreases pos,
        {
            pos = pos - 1;
        }
        proof {
            lemma_insert_dir_at(out@, x, pos as int);
            assert(input.take(k + 1).drop_last() =~= input.take(k as int));
            assert(input.take(k + 1).last() == x);
            assert(rest@ =~= input.skip(k + 1));
        }
        out.insert(pos, x);
        k = k + 1;
    }
    assert(input.take(k as int) =~= input);
    out
}

/// A target's dirs while a report is being built, with their total size.
struct Bucket {
    target: TargetName,
    dirs: Vec<FoundDir>,
    total: u64,
}

/// The views of buckets.
spec fn bucket_views(bs: Seq<Bucket>) -> Seq<BucketView> {
    bs.map_values(|b: Bucket| (b.target@, b.dirs@))
}

/// No dir of `s` has target `t`, so it has no members.
proof fn lemma_members_absent(s: Seq<FoundDir>, t: Seq<char>)
    requires
        !dir_targets(s).contains(t),
    ensures
        members(s, t) == Seq::<FoundDir>::empty(),
    decreases s.len(),
{
    if s.len() > 0 {
        assert(dir_targets(s)[s.len() - 1] == s.last().target@);
        assert(!dir_targets(s.drop_last()).contains(t)) by {
            if dir_targets(s.drop_last()).contains(t) {
                let i = choose|i: int|
                    0 <= i < dir_targets(s.drop_last()).len() && dir_targets(s.drop_last())[i] == t;
                assert(dir_targets(s)[i] == t);
            }
        }
        lemma_members_absent(s.drop_last(), t);
    }
}

/// Adding a dir to `s` adds it to the members of its own target only.
proof fn lemma_members_push(s: Seq<FoundDir>, d: FoundDir, u: Seq<char>)
    ensures
        members(s.push(d), u) == if d.target@ == u {
            members(s, u).push(d)
        } else {
            members(s, u)
        },
{
    assert(s.push(d).drop_last() =~= s);
}

/// The first-occurrence order of targets after adding one more dir.
proof fn lemma_group_order_push(s: Seq<FoundDir>, d: FoundDir)
    ensures
        dir_targets(s.push(d)) == dir_targets(s).push(d.target@),
        group_order(s.push(d)) == if group_order(s).contains(d.target@) {
            group_order(s)
        } else {
            group_order(s).push(d.target@)
        },
{
    assert(dir_targets(s.push(d)) =~= dir_targets(s).push(d.target@));
    assert(dir_targets(s.push(d)).drop_last() =~= dir_targets(s));
}

/// Adding a dir whose target already has a bucket extends that bucket.
pub(crate) proof fn lemma_raw_buckets_found(s: Seq<FoundDir>, d: FoundDir, j: int)
    requires
        0 <= j < raw_buckets(s).len(),
        raw_buckets(s)[j].0 == d.target@,
    ensures
        raw_buckets(s.push(d)) == raw_buckets(s).update(
            j,
            (d.target@, raw_buckets(s)[j].1.push(d)),
        ),
{
    let t = d.target@;
    lemma_group_order_push(s, d);
    assert(group_order(s)[j] == t);
    assert(group_order(s).contains(t));
    lemma_keep_first(dir_targets(s), |t: Seq<char>| any_text(t));
    let a = raw_buckets(s.push(d));
    let b = raw_buckets(s).update(j, (t, raw_buckets(s)[j].1.push(d)));
    assert forall|i: int| 0 <= i < a.len() implies a[i] == b[i] by {
        lemma_members_push(s, d, group_order(s)[i]);
        if i != j {
            assert(group_order(s)[i] != group_order(s)[j]);
        }
    }
    assert(a =~= b);
}

/// Adding a dir whose target has no bucket yet opens a new bucket at the end.
pub(crate) proof fn lemma_raw_buckets_new(s: Seq<FoundDir>, d: FoundDir)
    requires
        forall|j: int| 0 <= j < raw_buckets(s).len() ==> raw_buckets(s)[j].0 != d.target@,
    ensures
        raw_buckets(s.push(d)) == raw_buckets(s).push((d.target@, seq![d])),
{
    let t = d.target@;
    lemma_group_order_push(s, d);
    lemma_keep_first(dir_targets(s), |t: Seq<char>| any_text(t));
    assert(!group_order(s).contains(t)) by {
        if group_order(s).contains(t) {
            let j = choose|j: int| 0 <= j < group_order(s).len() && group_order(s)[j] == t;
            assert(raw_buckets(s)[j].0 == t);
        }
    }
    assert(!dir_targets(s).contains(t));
    lemma_members_absent(s, t);
    let a = raw_buckets(s.push(d));
    let b = raw_buckets(s).push((t, seq![d]));
    assert forall|i: int| 0 <= i < a.len() implies a[i] == b[i] by {
        lemma_members_push(s, d, group_order(s.push(d))[i]);
        if i < group_order(s).len() {
            assert(group_order(s)[i] != t);
        } else {
            assert(members(s, t).push(d) =~= seq![d]);
        }
    }
    assert(a =~= b);
}

/// Buckets `v` by target: buckets in the order their target first occurs,
/// dirs in input order.
fn group_by_target(v: Vec<FoundDir>) -> (r: Vec<Bucket>)
    ensures
        bucket_views(r@) == raw_buckets(v@),
{
    let ghost input = v@;
    let mut rest = v;
    let n = rest.len();
    assert(input.len() == n);
    let mut buckets: Vec<Bucket> = Vec::new();
    let mut k: usize = 0;
    assert(bucket_views(buckets@) =~= raw_buckets(input.take(0)));
    while rest.len() > 0
        invariant
            k + rest.len() == input.len(),
            input.len() <= usize::MAX,
            rest@ == input.skip(k as int),
            bucket_views(buckets@) == raw_buckets(input.take(k as int)),
        decreases rest.len(),
    {
        let d = rest.remove(0);
        let ghost s = input.take(k as int);
        proof {
            assert(d == input[k as int]);
            assert(input.take(k + 1) =~= s.push(d));
            assert(rest@ =~= input.skip(k + 1));
        }
        let mut j: usize = 0;
        let mut found = false;
        while !found && j < buckets.len()
            invariant
                j <= buckets.len(),
                bucket_views(buckets@) == raw_buckets(s),
                found ==> j < buckets.len() && buckets@[j as int].target@ == d.target@,
                !found ==> forall|i: int| 0 <= i < j ==> buckets@[i].target@ != d.target@,
            decreases buckets.len() - j + if found { 0int } else { 1int },
        {
            if buckets[j].target.same_as(&d.target) {
                found = true;
            } else {
                j = j + 1;
            }
        }
        if found {
            proof {
                assert(bucket_views(buckets@)[j as int].0 == d.target@);
                lemma_raw_buckets_found(s, d, j as int);
            }
            let ghost before = buckets@;
            let mut b = buckets.remove(j);
            b.dirs.push(d);
            buckets.insert(j, b);
            proof {
                assert(bucket_views(buckets@) =~= bucket_views(before).update(
                    j as int,
                    (d.target@, bucket_views(before)[j as int].1.push(d)),
                ));
            }
        } else {
            proof {
                assert forall|i: int| 0 <= i < raw_buckets(s).len() implies raw_buckets(s)[i].0
                    != d.target@ by {
                    assert(bucket_views(buckets@)[i].0 == buckets@[i].target@);
                }
                lemma_raw_buckets_new(s, d);
            }
            let ghost before = buckets@;
            let target = d.target.clone();
            let dirs = vec![d];
            buckets.push(Bucket { target, dirs, total: 0 });
            proof {
                assert(dirs@ =~= seq![d]);
                assert(bucket_views(buckets@) =~= bucket_views(before).push((d.target@, seq![d])));
            }
        }
        k = k + 1;
    }
    assert(input.take(k as int) =~= input);
    buckets
}

/// Placing a dir adds its size to the total.
proof fn lemma_sum_insert(s: Seq<FoundDir>, x: FoundDir)
    ensures
        sum_sizes(insert_dir(s, x)) == sum_sizes(s) + x.size,
    decreases s.len(),
{
    if s.len() == 0 {
        assert(seq![x].drop_last() =~= Seq::<FoundDir>::empty());
        assert(sum_sizes(Seq::<FoundDir>::empty()) == 0);
        assert(seq![x].last() == x);
    } else if s.last().size >= x.size {
        assert(s.push(x).drop_last() =~= s);
    } else {
        let p = insert_dir(s.drop_last(), x);
        lemma_sum_insert(s.drop_last(), x);
        assert(p.push(s.last()).drop_last() =~= p);
        assert(sum_sizes(p.push(s.last())) == sum_sizes(p) + s.last().size);
        assert(sum_sizes(s) == sum_sizes(s.drop_last()) + s.last().size);
    }
}

/// Sorting keeps the total size.
pub proof fn lemma_sum_sort(s: Seq<FoundDir>)
    ensures
        sum_sizes(sort_dirs(s)) == sum_sizes(s),
    decreases s.len(),
{
    if s.len() > 0 {
        lemma_sum_sort(s.drop_last());
        lemma_sum_insert(sort_dirs(s.drop_last()), s.last());
    }
}

/// The members of a target in a prefix weigh no more than all its members.
proof fn lemma_members_prefix_le(s: Seq<FoundDir>, t: Seq<char>, i: int)
    requires
        0 <= i <= s.len(),
    ensures
        sum_sizes(members(s.take(i), t)) <= sum_sizes(members(s, t)),
    decreases s.len(),
{
    if i == s.len() {
        assert(s.take(i) =~= s);
    } else {
        assert(s.drop_last().take(i) =~= s.take(i));
        lemma_members_prefix_le(s.drop_last(), t, i);
        if s.last().target@ == t {
            assert(members(s.drop_last(), t).push(s.last()).drop_last() =~= members(
                s.drop_last(),
                t,
            ));
        }
    }
}

/// A prefix weighs no more than the whole.
proof fn lemma_sum_prefix_le(s: Seq<FoundDir>, i: int)
    requires
        0 <= i <= s.len(),
    ensures
        sum_sizes(s.take(i)) <= sum_sizes(s),
    decreases s.len(),
{
    if i == s.len() {
        assert(s.take(i) =~= s);
    } else {
        assert(s.drop_last().take(i) =~= s.take(i));
        lemma_sum_prefix_le(s.drop_last(), i);
    }
}

/// The total size of the dirs of `dirs` whose target is `target`, or `None`
/// when it does not fit in a `u64`.
fn target_total(dirs: &Vec<FoundDir>, target: &TargetName) -> (r: Option<u64>)
    ensures
        match r {
            Some(x) => x == sum_sizes(members(dirs@, target@)),
            None => sum_sizes(members(dirs@, target@)) > u64::MAX,
        },
{
    let mut total: u64 = 0;
    let mut i: usize = 0;
    while i < dirs.len()
        invariant
            i <= dirs.len(),
            total == sum_sizes(members(dirs@.take(i as int), target@)),
        decreases dirs.len() - i,
    {
        proof {
            assert(dirs@.take(i + 1) =~= dirs@.take(i as int).push(dirs@[i as int]));
            lemma_members_push(dirs@.take(i as int), dirs@[i as int], target@);
            lemma_members_prefix_le(dirs@, target@, i + 1);
            let m = members(dirs@.take(i as int), target@);
            assert(m.push(dirs@[i as int]).drop_last() =~= m);
        }
        if dirs[i].target.same_as(target) {
            match total.checked_add(dirs[i].size) {
                Some(t) => total = t,
                None => return None,
            }
        }
        i = i + 1;
    }
    assert(dirs@.take(i as int) =~= dirs@);
    Some(total)
}

/// Whether every target's dirs in `dirs`, together, fit in a `u64`: what
/// [`ScanReport::from_dirs`] needs.
pub fn totals_fit(dirs: &Vec<FoundDir>) -> (r: bool)
    ensures
        r == target_totals_fit(dirs@),
{
    let mut i: usize = 0;
    while i < dirs.len()
        invariant
            i <= dirs.len(),
            forall|j: int| 0 <= j < i ==> sum_sizes(members(dirs@, #[trigger] dirs@[j].target@))
                <= u64::MAX,
        decreases dirs.len() - i,
    {
        if target_total(dirs, &dirs[i].target).is_none() {
            return false;
        }
        i = i + 1;
    }
    assert forall|t: Seq<char>| #[trigger] sum_sizes(members(dirs@, t)) <= u64::MAX by {
        if dir_targets(dirs@).contains(t) {
            let j = choose|j: int| 0 <= j < dir_targets(dirs@).len() && dir_targets(dirs@)[j] == t;
            assert(dirs@[j].target@ == t);
        } else {
            lemma_members_absent(dirs@, t);
        }
    }
    true
}

/// The sum of the sizes of `dirs`.
fn total_size(dirs: &Vec<FoundDir>) -> (r: u64)
    requires
        sum_sizes(dirs@) <= u64::MAX,
    ensures
        r == sum_sizes(dirs@),
{
    let mut total: u64 = 0;
    let mut i: usize = 0;
    while i < dirs.len()
        invariant
            i <= dirs.len(),
            sum_sizes(dirs@) <= u64::MAX,
            total == sum_sizes(dirs@.take(i as int)),
        decreases dirs.len() - i,
    {
        proof {
            assert(dirs@.take(i + 1).drop_last() =~= dirs@.take(i as int));
            lemma_sum_prefix_le(dirs@, i + 1);
        }
        total = total + dirs[i].size;
        i = i + 1;
    }
    assert(dirs@.take(i as int) =~= dirs@);
    total
}

/// Sorts the dirs of every bucket and records each bucket's total.
fn sort_within(buckets: Vec<Bucket>, Ghost(s): Ghost<Seq<FoundDir>>) -> (r: Vec<Bucket>)
    requires
        bucket_views(buckets@) == raw_buckets(s),
        target_totals_fit(s),
    ensures
        bucket_views(r@) == raw_buckets(s).map_values(|b: BucketView| with_sorted_dirs(b)),
        forall|i: int| 0 <= i < r@.len() ==> #[trigger] r@[i].total == sum_sizes(r@[i].dirs@),
{
    let ghost input = bucket_views(buckets@);
    let ghost goal = raw_buckets(s).map_values(|b: BucketView| with_sorted_dirs(b));
    let mut rest = buckets;
    let n = rest.len();
    assert(input.len() == n);
    let mut out: Vec<Bucket> = Vec::new();
    let mut k: usize = 0;
    while rest.len() > 0
        invariant
            k + rest.len() == input.len(),
            input.len() <= usize::MAX,
            input == raw_buckets(s),
            goal == raw_buckets(s).map_values(|b: BucketView| with_sorted_dirs(b)),
            target_totals_fit(s),
            bucket_views(rest@) == input.skip(k as int),
            bucket_views(out@) == goal.take(k as int),
            forall|i: int| 0 <= i < out@.len() ==> #[trigger] out@[i].total == sum_sizes(out@[i].dirs@),
        decreases rest.len(),
    {
        let ghost rest_before = rest@;
        let b = rest.remove(0);
        let ghost bv = input[k as int];
        proof {
            assert(b == rest_before[0]);
            assert(bucket_views(rest_before)[0] == input.skip(k as int)[0]);
            assert(bucket_views(rest@) =~= bucket_views(rest_before).skip(1));
            assert(bucket_views(rest@) =~= input.skip(k + 1));
            assert(bv == (b.target@, b.dirs@));
            lemma_keep_first(dir_targets(s), |t: Seq<char>| any_text(t));
            assert(sum_sizes(members(s, group_order(s)[k as int])) <= u64::MAX);
        }
        let dirs = sort_by_size(b.dirs);
        proof {
            lemma_sum_sort(b.dirs@);
        }
        let total = total_size(&dirs);
        let ghost before = out@;
        out.push(Bucket { target: b.target, dirs, total });
        proof {
            assert(goal.len() == input.len());
            assert(goal[k as int] == with_sorted_dirs(bv));
            assert(bucket_views(out@) =~= bucket_views(before).push(with_sorted_dirs(bv)));
            assert(goal.take(k + 1) =~= goal.take(k as int).push(goal[k as int]));
            assert(bucket_views(out@) =~= goal.take(k + 1));
        }
        k = k + 1;
    }
    assert(goal.take(k as int) =~= goal);
    out
}

/// Sorts buckets by total size, largest first, keeping the order of equal
/// totals.
fn sort_by_total(v: Vec<Bucket>) -> (r: Vec<Bucket>)
    requires
        forall|i: int| 0 <= i < v@.len() ==> #[trigger] v@[i].total == sum_sizes(v@[i].dirs@),
    ensures
        bucket_views(r@) == sort_buckets(bucket_views(v@)),
{
    let ghost input = bucket_views(v@);
    let mut rest = v;
    let n = rest.len();
    assert(input.len() == n);
    let mut out: Vec<Bucket> = Vec::new();
    let mut k: usize = 0;
    while rest.len() > 0
        invariant
            k + rest.len() == input.len(),
            input.len() <= usize::MAX,
            bucket_views(rest@) == input.skip(k as int),
            bucket_views(out@) == sort_buckets(input.take(k as int)),
            forall|i: int| 0 <= i < rest@.len() ==> #[trigger] rest@[i].total == sum_sizes(rest@[i].dirs@),
            forall|i: int| 0 <= i < out@.len() ==> #[trigger] out@[i].total == sum_sizes(out@[i].dirs@),
        decreases rest.len(),
    {
        let ghost rest_before = rest@;
        let x = rest.remove(0);
        proof {
            assert(x == rest_before[0]);
            assert(x.total == sum_sizes(x.dirs@));
            assert(forall|i: int| 0 <= i < rest@.len() ==> rest@[i] == rest_before[i + 1]);
        }
        let mut pos = out.len();
        while pos > 0 && out[pos - 1].total < x.total
            invariant
                pos <= out.len(),
                forall|i: int| pos <= i < out.len() ==> out@[i].total < x.total,
            decreases pos,
        {
            pos = pos - 1;
        }
        let ghost xv = (x.target@, x.dirs@);
        proof {
            let ov = bucket_views(out@);
            assert forall|i: int| pos <= i < ov.len() implies sum_sizes(ov[i].1) < sum_sizes(xv.1) by {
                assert(out@[i].total == sum_sizes(out@[i].dirs@));
            }
            if pos > 0 {
                assert(out@[pos - 1].total == sum_sizes(out@[pos - 1].dirs@));
            }
            lemma_insert_bucket_at(ov, xv, pos as int);
            assert(xv == bucket_views(rest_before)[0]);
            assert(bucket_views(rest_before)[0] == input.skip(k as int)[0]);
            assert(input.take(k + 1).drop_last() =~= input.take(k as int));
            assert(input.take(k + 1).last() == xv);
            assert(bucket_views(rest@) =~= bucket_views(rest_before).skip(1));
            assert(bucket_views(rest@) =~= input.skip(k + 1));
        }
        let ghost before = out@;
        out.insert(pos, x);
        proof {
            assert(bucket_views(out@) =~= bucket_views(before).insert(pos as int, xv));
            assert forall|i: int| 0 <= i < out@.len() implies #[trigger] out@[i].total == sum_sizes(
                out@[i].dirs@,
            ) by {
                if i < pos {
                    assert(out@[i] == before[i]);
                } else if i > pos {
                    assert(out@[i] == before[i - 1]);
                }
            }
        }
        k = k + 1;
    }
    assert(input.take(k as int) =~= input);
    out
}

impl ScanReport {
    /// Group loose dirs into the ordered, flattened report.
    pub fn from_dirs(dirs: Vec<FoundDir>) -> (r: ScanReport)
        requires
            target_totals_fit(dirs@),
        ensures
            r.dirs@ == concat_buckets(report_buckets(dirs@)),
            category_views(r.categories@) == bucket_categories(report_buckets(dirs@)),
            forall|i: int| 0 <= i < r.categories@.len() ==> #[trigger] r.categories@[i].start
                + r.categories@[i].len <= r.dirs@.len(),
    {
        let ghost s = dirs@;
        let raw = group_by_target(dirs);
        let within = sort_within(raw, Ghost(s));
        let sorted = sort_by_total(within);
        let ghost bs = bucket_views(sorted@);
        assert(bs == report_buckets(s));
        let mut rest = sorted;
        let n = rest.len();
        assert(bs.len() == n);
        let mut flat: Vec<FoundDir> = Vec::new();
        let mut categories: Vec<Category> = Vec::new();
        let mut k: usize = 0;
        assert(category_views(categories@) =~= bucket_categories(bs.take(0)));
        assert(flat@ =~= concat_buckets(bs.take(0)));
        while rest.len() > 0
            invariant
                k + rest.len() == bs.len(),
                bs.len() <= usize::MAX,
                bucket_views(rest@) == bs.skip(k as int),
                flat@ == concat_buckets(bs.take(k as int)),
                category_views(categories@) == bucket_categories(bs.take(k as int)),
                forall|i: int| 0 <= i < categories@.len() ==> #[trigger] categories@[i].start
                    + categories@[i].len <= flat@.len(),
            decreases rest.len(),
        {
            let ghost rest_before = rest@;
            let mut b = rest.remove(0);
            let ghost bv = (b.target@, b.dirs@);
            proof {
                assert(bv == bucket_views(rest_before)[0]);
                assert(bucket_views(rest_before)[0] == bs.skip(k as int)[0]);
                assert(bv == bs[k as int]);
                assert(bucket_views(rest@) =~= bucket_views(rest_before).skip(1));
                assert(bucket_views(rest@) =~= bs.skip(k + 1));
                assert(bs.take(k + 1).drop_last() =~= bs.take(k as int));
                assert(bs.take(k + 1).last() == bv);
            }
            let ghost cats_before = categories@;
            let ghost flat_before = flat@;
            categories.push(Category { target: b.target, start: flat.len(), len: b.dirs.len() });
            flat.append(&mut b.dirs);
            proof {
                assert(flat@ =~= flat_before + bv.1);
                assert(category_views(categories@) =~= category_views(cats_before).push(
                    (bv.0, flat_before.len() as int, bv.1.len() as int),
                ));
            }
            k = k + 1;
        }
        assert(bs.take(k as int) =~= bs);
        ScanReport { dirs: flat, categories }
    }

    pub fn is_empty(&self) -> (r: bool)
        ensures
            r == (self.dirs@.len() == 0),
    {
        self.dirs.len() == 0
    }

    pub fn dir_count(&self) -> (r: usize)
        ensures
            r == self.dirs@.len(),
    {
        self.dirs.len()
    }

    /// The total size of every dir.
    pub fn total_size(&self) -> (r: u64)
        requires
            sum_sizes(self.dirs@) <= u64::MAX,
        ensures
            r == sum_sizes(self.dirs@),
    {
        total_size(&self.dirs)
    }

    /// The total file count of every dir.
    pub fn total_files(&self) -> (r: u64)
        requires
            sum_files(self.dirs@) <= u64::MAX,
        ensures
            r == sum_files(self.dirs@),
    {
        let mut total: u64 = 0;
        let mut i: usize = 0;
        while i < self.dirs.len()
            invariant
                i <= self.dirs.len(),
                sum_files(self.dirs@) <= u64::MAX,
                total == sum_files(self.dirs@.take(i as int)),
            decreases self.dirs.len() - i,
        {
            proof {
                assert(self.dirs@.take(i + 1).drop_last() =~= self.dirs@.take(i as int));
                lemma_files_prefix_le(self.dirs@, i + 1);
            }
            total = total + self.dirs[i].file_count;
            i = i + 1;
        }
        assert(self.dirs@.take(i as int) =~= self.dirs@);
        total
    }

    /// Dirs the user still has marked for deletion, in display order.
    pub fn selected(&self) -> (r: Vec<&FoundDir>)
        ensures
            r@.map_values(|d: &FoundDir| *d) == selected_dirs(self.dirs@),
    {
        let mut out: Vec<&FoundDir> = Vec::new();
        let mut i: usize = 0;
        while i < self.dirs.len()
            invariant
                i <= self.dirs.len(),
                out@.map_values(|d: &FoundDir| *d) == selected_dirs(self.dirs@.take(i as int)),
            decreases self.dirs.len() - i,
        {
            proof {
                assert(self.dirs@.take(i + 1).drop_last() =~= self.dirs@.take(i as int));
            }
            let ghost before = out@;
            if self.dirs[i].selected {
                out.push(&self.dirs[i]);
                assert(out@.map_values(|d: &FoundDir| *d) =~= before.map_values(
                    |d: &FoundDir| *d,
                ).push(self.dirs@[i as int]));
            }
            i = i + 1;
        }
        assert(self.dirs@.take(i as int) =~= self.dirs@);
        out
    }

    /// How many dirs are marked for deletion.
    pub fn selected_count(&self) -> (r: usize)
        ensures
            r == selected_dirs(self.dirs@).len(),
    {
        let mut count: usize = 0;
        let mut i: usize = 0;
        while i < self.dirs.len()
            invariant
                i <= self.dirs.len(),
                count == selected_dirs(self.dirs@.take(i as int)).len(),
            decreases self.dirs.len() - i,
        {
            proof {
                assert(self.dirs@.take(i + 1).drop_last() =~= self.dirs@.take(i as int));
                lemma_selected_len_le(self.dirs@.take(i as int));
            }
            if self.dirs[i].selected {
                count = count + 1;
            }
            i = i + 1;
        }
        assert(self.dirs@.take(i as int) =~= self.dirs@);
        count
    }

    /// The total size of the dirs marked for deletion.
    pub fn selected_size(&self) -> (r: u64)
        requires
            sum_sizes(selected_dirs(self.dirs@)) <= u64::MAX,
        ensures
            r == sum_sizes(selected_dirs(self.dirs@)),
    {
        match self.checked_selected_size() {
            Some(total) => total,
            None => 0,
        }
    }

    /// The total size of the dirs marked for deletion, or `None` when it does
    /// not fit in a `u64`.
    pub fn checked_selected_size(&self) -> (r: Option<u64>)
        ensures
            match r {
                Some(total) => total == sum_sizes(selected_dirs(self.dirs@)),
                None => sum_sizes(selected_dirs(self.dirs@)) > u64::MAX,
            },
    {
        let mut total: u64 = 0;
        let mut i: usize = 0;
        while i < self.dirs.len()
            invariant
                i <= self.dirs.len(),
                total == sum_sizes(selected_dirs(self.dirs@.take(i as int))),
            decreases self.dirs.len() - i,
        {
            proof {
                let t = self.dirs@.take(i + 1);
                assert(t.drop_last() =~= self.dirs@.take(i as int));
                lemma_selected_prefix_le(self.dirs@, i + 1);
                if t.last().selected {
                    assert(selected_dirs(t.drop_last()).push(t.last()).drop_last() =~= selected_dirs(
                        t.drop_last(),
                    ));
                }
            }
            if self.dirs[i].selected {
                match total.checked_add(self.dirs[i].size) {
                    Some(t) => total = t,
                    None => return None,
                }
            }
            i = i + 1;
        }
        assert(self.dirs@.take(i as int) =~= self.dirs@);
        Some(total)
    }

    /// Flip the selection of the dir at a flat index. Out-of-range is ignored.
    pub fn toggle(&mut self, index: usize)
        ensures
            final(self).categories == old(self).categories,
            index < old(self).dirs@.len() ==> final(self).dirs@ == old(self).dirs@.update(
                index as int,
                with_selection(old(self).dirs@[index as int], !old(self).dirs@[index as int].selected),
            ),
            index >= old(self).dirs@.len() ==> final(self).dirs@ == old(self).dirs@,
    {
        if index < self.dirs.len() {
            let flipped = !self.dirs[index].selected;
            self.dirs[index].selected = flipped;
        }
    }

    /// Select or deselect every dir at once.
    pub fn set_all(&mut self, selected: bool)
        ensures
            final(self).categories == old(self).categories,
            final(self).dirs@.len() == old(self).dirs@.len(),
            forall|i: int| 0 <= i < old(self).dirs@.len() ==> #[trigger] final(self).dirs@[i]
                == with_selection(old(self).dirs@[i], selected),
    {
        let ghost original = self.dirs@;
        let mut i: usize = 0;
        while i < self.dirs.len()
            invariant
                i <= self.dirs.len(),
                self.dirs@.len() == original.len(),
                self.categories == old(self).categories,
                original == old(self).dirs@,
                forall|j: int| 0 <= j < i ==> #[trigger] self.dirs@[j] == with_selection(original[j], selected),
                forall|j: int| i <= j < original.len() ==> #[trigger] self.dirs@[j] == original[j],
            decreases self.dirs.len() - i,
        {
            self.dirs[i].selected = selected;
            i = i + 1;
        }
    }

    /// The dirs of one category, in display order.
    pub fn category_dirs(&self, category: &Category) -> (r: &[FoundDir])
        requires
            category.start + category.len <= self.dirs@.len(),
        ensures
            r@ == self.dirs@.subrange(category.start as int, category.start + category.len),
    {
        let n = self.dirs.len();
        assert(category.start + category.len <= n);
        &self.dirs.as_slice()[category.start..category.start + category.len]
    }

    /// The total size and total file count of the dirs of `category`.
    pub fn category_totals(&self, category: &Category) -> (r: (u64, u64))
        requires
            category.start + category.len <= self.dirs@.len(),
            sum_sizes(self.dirs@.subrange(category.start as int, category.start + category.len))
                <= u64::MAX,
            sum_files(self.dirs@.subrange(category.start as int, category.start + category.len))
                <= u64::MAX,
        ensures
            r.0 == sum_sizes(
                self.dirs@.subrange(category.start as int, category.start + category.len),
            ),
            r.1 == sum_files(
                self.dirs@.subrange(category.start as int, category.start + category.len),
            ),
    {
        match self.checked_category_totals(category) {
            Some(totals) => totals,
            None => (0, 0),
        }
    }

    /// The total size and total file count of the dirs of `category`, or
    /// `None` when either does not fit in a `u64`.
    pub fn checked_category_totals(&self, category: &Category) -> (r: Option<(u64, u64)>)
        requires
            category.start + category.len <= self.dirs@.len(),
        ensures
            ({
                let run = self.dirs@.subrange(
                    category.start as int,
                    category.start + category.len,
                );
                match r {
                    Some(t) => t.0 == sum_sizes(run) && t.1 == sum_files(run),
                    None => sum_sizes(run) > u64::MAX || sum_files(run) > u64::MAX,
                }
            }),
    {
        run_totals(&self.dirs, category.start, category.len)
    }

    /// The total size and total file count of every dir, or `None` when either
    /// does not fit in a `u64`.
    pub fn checked_totals(&self) -> (r: Option<(u64, u64)>)
        ensures
            match r {
                Some(t) => t.0 == sum_sizes(self.dirs@) && t.1 == sum_files(self.dirs@),
                None => sum_sizes(self.dirs@) > u64::MAX || sum_files(self.dirs@) > u64::MAX,
            },
    {
        assert(self.dirs@.subrange(0, self.dirs@.len() as int) =~= self.dirs@);
        run_totals(&self.dirs, 0, self.dirs.len())
    }
}

/// The total size and total file count of the `len` dirs from `start`, or
/// `None` when either does not fit in a `u64`.
fn run_totals(dirs: &Vec<FoundDir>, start: usize, len: usize) -> (r: Option<(u64, u64)>)
    requires
        start + len <= dirs@.len(),
    ensures
        ({
            let run = dirs@.subrange(start as int, start + len);
            match r {
                Some(t) => t.0 == sum_sizes(run) && t.1 == sum_files(run),
                None => sum_sizes(run) > u64::MAX || sum_files(run) > u64::MAX,
            }
        }),
{
    let ghost run = dirs@.subrange(start as int, start + len);
    let mut size: u64 = 0;
    let mut files: u64 = 0;
    let mut i: usize = 0;
    while i < len
        invariant
            i <= len,
            start + len <= dirs.len(),
            run == dirs@.subrange(start as int, start + len),
            size == sum_sizes(run.take(i as int)),
            files == sum_files(run.take(i as int)),
        decreases len - i,
    {
        proof {
            assert(run.take(i + 1).drop_last() =~= run.take(i as int));
            assert(run.take(i + 1).last() == dirs@[start + i]);
            lemma_sum_prefix_le(run, i + 1);
            lemma_files_prefix_le(run, i + 1);
        }
        let d = &dirs[start + i];
        match (size.checked_add(d.size), files.checked_add(d.file_count)) {
            (Some(s), Some(f)) => {
                size = s;
                files = f;
            },
            _ => return None,
        }
        i = i + 1;
    }
    assert(run.take(i as int) =~= run);
    Some((size, files))
}

/// The text that `humansize::format_size` gives for `bytes` with its `DECIMAL`
/// options (SI units, two decimal places), e.g. `1 MB` for a million bytes.
pub uninterp spec fn decimal_size_text(bytes: u64) -> Seq<char>;

/// Calls `humansize::format_size(bytes, humansize::DECIMAL)`. Claimed: the text
/// depends on `bytes` alone; what it reads is not stated.
#[verifier::external_body]
fn format_decimal(bytes: u64) -> (r: String)
    ensures
        r@ == decimal_size_text(bytes),
{
    humansize::format_size(bytes, humansize::DECIMAL)
}

/// Format a byte count for display, e.g. `1.23 GB`.
pub fn human_size(bytes: u64) -> (r: String)
    ensures
        r@ == decimal_size_text(bytes),
{
    format_decimal(bytes)
}

/// A prefix has no more files than the whole.
proof fn lemma_files_prefix_le(s: Seq<FoundDir>, i: int)
    requires
        0 <= i <= s.len(),
    ensures
        sum_files(s.take(i)) <= sum_files(s),
    decreases s.len(),
{
    if i == s.len() {
        assert(s.take(i) =~= s);
    } else {
        assert(s.drop_last().take(i) =~= s.take(i));
        lemma_files_prefix_le(s.drop_last(), i);
    }
}

/// There are no more selected dirs than dirs.
proof fn lemma_selected_len_le(s: Seq<FoundDir>)
    ensures
        selected_dirs(s).len() <= s.len(),
    decreases s.len(),
{
    if s.len() > 0 {
        lemma_selected_len_le(s.drop_last());
    }
}

/// The selected dirs of a prefix weigh no more than all the selected dirs.
proof fn lemma_selected_prefix_le(s: Seq<FoundDir>, i: int)
    requires
        0 <= i <= s.len(),
    ensures
        sum_sizes(selected_dirs(s.take(i))) <= sum_sizes(selected_dirs(s)),
    decreases s.len(),
{
    if i == s.len() {
        assert(s.take(i) =~= s);
    } else {
        assert(s.drop_last().take(i) =~= s.take(i));
        lemma_selected_prefix_le(s.drop_last(), i);
        if s.last().selected {
            assert(selected_dirs(s.drop_last()).push(s.last()).drop_last() =~= selected_dirs(
                s.drop_last(),
            ));
        }
    }
}

/// The selected dirs weigh no more than all the dirs.
pub proof fn lemma_sum_selected_le(s: Seq<FoundDir>)
    ensures
        sum_sizes(selected_dirs(s)) <= sum_sizes(s),
    decreases s.len(),
{
    if s.len() > 0 {
        lemma_sum_selected_le(s.drop_last());
        if s.last().selected {
            assert(selected_dirs(s.drop_last()).push(s.last()).drop_last() =~= selected_dirs(
                s.drop_last(),
            ));
        }
    }
}

} // verus!
