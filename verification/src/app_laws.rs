//! Laws of the dashboard: what its key handling keeps and what the results
//! panel lists, stated over the steps that [`App::on_key`] and
//! [`App::on_scan_event`] take.

use vstd::prelude::*;

use crate::app::{
    App, Key, KeyPress, Mode, Overlay, Row, Selectable, checked_names, key_step, listed, ranges_fit,
    removed_step, rows_of, select_step, selectable_views, commit_step, scan_step, review_step,
    highlighted_dir,
};
use crate::config::{available_names, config_after_add, lemma_added_is_available};
use crate::target::name_views;
use crate::app::Action;
use crate::report::Category;

verus! {

/// The directory indices of the `Dir` rows of `rows`, in order.
pub open spec fn dir_rows(rows: Seq<Row>) -> Seq<usize>
    decreases rows.len(),
{
    if rows.len() == 0 {
        Seq::empty()
    } else {
        match rows.last() {
            Row::Dir(d) => dir_rows(rows.drop_last()).push(d),
            Row::Header(_) => dir_rows(rows.drop_last()),
        }
    }
}

/// The directory rows of two runs of rows are those of the first, then those
/// of the second.
proof fn lemma_dir_rows_append(a: Seq<Row>, b: Seq<Row>)
    ensures
        dir_rows(a + b) == dir_rows(a) + dir_rows(b),
    decreases b.len(),
{
    if b.len() == 0 {
        assert(a + b =~= a);
        assert(dir_rows(a) + dir_rows(b) =~= dir_rows(a));
    } else {
        lemma_dir_rows_append(a, b.drop_last());
        assert((a + b).drop_last() =~= a + b.drop_last());
        match b.last() {
            Row::Dir(d) => {
                assert(dir_rows(a) + dir_rows(b) =~= (dir_rows(a) + dir_rows(b.drop_last())).push(d));
            },
            Row::Header(_) => {},
        }
    }
}

/// A run of directory rows from `start` lists `start`, `start + 1`, ...
proof fn lemma_dir_rows_run(start: int, len: nat)
    requires
        start >= 0,
        start + len <= usize::MAX,
    ensures
        dir_rows(Seq::new(len, |k: int| Row::Dir((start + k) as usize))) == Seq::new(
            len,
            |k: int| (start + k) as usize,
        ),
    decreases len,
{
    let rows = Seq::new(len, |k: int| Row::Dir((start + k) as usize));
    if len > 0 {
        lemma_dir_rows_run(start, (len - 1) as nat);
        assert(rows.drop_last() =~= Seq::new((len - 1) as nat, |k: int| Row::Dir((start + k) as usize)));
        assert(Seq::new(len, |k: int| (start + k) as usize) =~= Seq::new(
            (len - 1) as nat,
            |k: int| (start + k) as usize,
        ).push((start + len - 1) as usize));
    } else {
        assert(rows =~= Seq::<Row>::empty());
        assert(Seq::new(len, |k: int| (start + k) as usize) =~= Seq::<usize>::empty());
    }
}

/// Categories that lay out `n` directories one after another, from the first
/// directory to the last, each walkable without overflow, as a report's
/// categories do.
pub open spec fn tiles(cats: Seq<Category>, n: int) -> bool {
    &&& ranges_fit(cats)
    &&& cats.len() == 0 ==> n == 0
    &&& cats.len() > 0 ==> cats[0].start == 0 && cats.last().start + cats.last().len == n
    &&& forall|i: int| 0 <= i < cats.len() - 1 ==> #[trigger] cats[i + 1].start == cats[i].start
        + cats[i].len
}

/// The results panel gives every directory of the report exactly one row, in
/// report order: over categories that lay out `n` directories, the `Dir` rows
/// are `0, 1, ..., n - 1`.
pub proof fn lemma_rows_list_each_dir_once(cats: Seq<Category>, n: int)
    requires
        tiles(cats, n),
    ensures
        dir_rows(rows_of(cats)) == Seq::new(n as nat, |d: int| d as usize),
    decreases cats.len(),
{
    if cats.len() == 0 {
        assert(Seq::new(n as nat, |d: int| d as usize) =~= Seq::<usize>::empty());
    } else {
        let c = cats.last();
        let p = cats.drop_last();
        let m = c.start as int;
        assert(ranges_fit(p)) by {
            assert forall|i: int| 0 <= i < p.len() implies #[trigger] p[i].start + p[i].len
                <= usize::MAX by {
                assert(p[i] == cats[i]);
            }
        }
        assert forall|i: int| 0 <= i < p.len() - 1 implies #[trigger] p[i + 1].start == p[i].start
            + p[i].len by {
            assert(p[i] == cats[i]);
            assert(p[i + 1] == cats[i + 1]);
        }
        if p.len() > 0 {
            assert(p[0] == cats[0]);
            assert(p.last() == cats[cats.len() - 2]);
            let i = cats.len() - 2;
            assert(cats[i + 1].start == cats[i].start + cats[i].len);
        }
        assert(tiles(p, m));
        lemma_rows_list_each_dir_once(p, m);
        let head = rows_of(p).push(Row::Header((cats.len() - 1) as usize));
        let run = Seq::new(c.len as nat, |k: int| Row::Dir((c.start + k) as usize));
        assert(cats[cats.len() - 1] == c);
        assert(c.start + c.len <= usize::MAX);
        lemma_dir_rows_append(head, run);
        assert(head.drop_last() =~= rows_of(p));
        lemma_dir_rows_run(m, c.len as nat);
        assert(Seq::new(n as nat, |d: int| d as usize) =~= Seq::new(m as nat, |d: int| d as usize)
            + Seq::new(c.len as nat, |k: int| (m + k) as usize));
    }
}

/// A panel listed from `names` with the names in `on` checked holds each of
/// `names` in order, checked exactly when it is in `on`. So the dashboard
/// opens with the remembered selection checked and nothing else.
pub proof fn lemma_listed_checks_exactly_on(names: Seq<Seq<char>>, on: Seq<Seq<char>>)
    ensures
        listed(names, on).len() == names.len(),
        forall|i: int| 0 <= i < names.len() ==> (#[trigger] listed(names, on)[i]).0 == names[i] && (
        listed(names, on)[i].1 <==> on.contains(names[i])),
{
}

/// A name is among the checked names exactly when some entry of the panel
/// with that name is checked.
proof fn lemma_checked_names_contains(ts: Seq<Selectable>, n: Seq<char>)
    ensures
        checked_names(ts).contains(n) <==> exists|k: int|
            0 <= k < ts.len() && (#[trigger] ts[k]).name@ == n && ts[k].enabled,
    decreases ts.len(),
{
    if ts.len() > 0 {
        let p = ts.drop_last();
        lemma_checked_names_contains(p, n);
        crate::seqs::lemma_push_contains(checked_names(p), ts.last().name@);
        if exists|k: int| 0 <= k < p.len() && (#[trigger] p[k]).name@ == n && p[k].enabled {
            let k = choose|k: int| 0 <= k < p.len() && (#[trigger] p[k]).name@ == n && p[k].enabled;
            assert(ts[k] == p[k]);
        }
        if exists|k: int| 0 <= k < ts.len() && (#[trigger] ts[k]).name@ == n && ts[k].enabled {
            let k = choose|k: int| 0 <= k < ts.len() && (#[trigger] ts[k]).name@ == n && ts[k].enabled;
            if k < p.len() {
                assert(p[k] == ts[k]);
            }
        }
    }
}

/// Removing the highlighted name (`r` in the selection screen) leaves the
/// check of every remaining name as it was: an entry of the new panel is
/// checked exactly when an entry of the old panel with its name was checked.
pub proof fn lemma_remove_keeps_other_checks(a: App, b: App, key: KeyPress, act: Action)
    requires
        a.mode == Mode::Select,
        a.overlay == Overlay::Off,
        key.key == Key::Char('r'),
        key_step(a, b, key, act),
        a.targets_state is Some,
        a.targets_state->0 < a.targets@.len(),
    ensures
        forall|j: int| 0 <= j < b.targets@.len() ==> ((#[trigger] b.targets@[j]).enabled <==> exists|k: int|
            0 <= k < a.targets@.len() && (#[trigger] a.targets@[k]).name@ == b.targets@[j].name@
                && a.targets@[k].enabled),
{
    assert forall|j: int| 0 <= j < b.targets@.len() implies ((#[trigger] b.targets@[j]).enabled
        <==> exists|k: int|
        0 <= k < a.targets@.len() && (#[trigger] a.targets@[k]).name@ == b.targets@[j].name@
            && a.targets@[k].enabled) by {
        let checked = checked_names(a.targets@);
        let names = available_names(b.config@);
        assert(select_step(a, b, key, act));
        assert(removed_step(a, b, act));
        assert(selectable_views(b.targets@) == listed(names, checked));
        lemma_checked_names_contains(a.targets@, b.targets@[j].name@);
        assert(selectable_views(b.targets@)[j] == (b.targets@[j].name@, b.targets@[j].enabled));
        assert(selectable_views(b.targets@).len() == b.targets@.len());
        assert(listed(names, checked).len() == names.len());
        assert(listed(names, checked)[j] == (names[j], checked.contains(names[j])));
    }
}

/// Space in the selection screen flips the check of the highlighted name and
/// leaves every other entry, and every name, as it was.
pub proof fn lemma_space_flips_highlighted(a: App, b: App, key: KeyPress, act: Action)
    requires
        a.mode == Mode::Select,
        a.overlay == Overlay::Off,
        key.key == Key::Char(' '),
        key_step(a, b, key, act),
        a.targets_state is Some,
        a.targets_state->0 < a.targets@.len(),
    ensures
        b.targets@.len() == a.targets@.len(),
        b.targets_state == a.targets_state,
        b.targets@[a.targets_state->0 as int].enabled == !a.targets@[a.targets_state->0 as int].enabled,
        forall|j: int| 0 <= j < a.targets@.len() ==> (#[trigger] b.targets@[j]).name@ == a.targets@[j].name@,
        forall|j: int|
            0 <= j < a.targets@.len() && j != a.targets_state->0 ==> (#[trigger] b.targets@[j]).enabled
                == a.targets@[j].enabled,
{
    let i = a.targets_state->0 as int;
    let va = selectable_views(a.targets@);
    let vb = selectable_views(b.targets@);
    assert(vb.len() == va.len());
    assert(vb[i] == (b.targets@[i].name@, b.targets@[i].enabled));
    assert forall|j: int| 0 <= j < a.targets@.len() implies (#[trigger] b.targets@[j]).name@
        == a.targets@[j].name@ by {
        assert(vb[j] == (b.targets@[j].name@, b.targets@[j].enabled));
        assert(va[j] == (a.targets@[j].name@, a.targets@[j].enabled));
    }
    assert forall|j: int| 0 <= j < a.targets@.len() && j != i implies (#[trigger] b.targets@[j]).enabled
        == a.targets@[j].enabled by {
        assert(vb[j] == (b.targets@[j].name@, b.targets@[j].enabled));
        assert(va[j] == (a.targets@[j].name@, a.targets@[j].enabled));
    }
}

/// Pressing space twice on the same highlighted name gives back the panel it
/// started from.
pub proof fn lemma_space_twice_restores(
    a: App,
    b: App,
    c: App,
    key: KeyPress,
    act1: Action,
    act2: Action,
)
    requires
        a.mode == Mode::Select,
        a.overlay == Overlay::Off,
        key.key == Key::Char(' '),
        key_step(a, b, key, act1),
        key_step(b, c, key, act2),
    ensures
        selectable_views(c.targets@) == selectable_views(a.targets@),
        c.targets_state == a.targets_state,
{
    let va = selectable_views(a.targets@);
    let vc = selectable_views(c.targets@);
    match a.targets_state {
        Some(i) => {
            if i < a.targets@.len() {
                lemma_space_flips_highlighted(a, b, key, act1);
                lemma_space_flips_highlighted(b, c, key, act2);
                assert forall|j: int| 0 <= j < va.len() implies vc[j] == va[j] by {
                    assert(vc[j] == (c.targets@[j].name@, c.targets@[j].enabled));
                    assert(va[j] == (a.targets@[j].name@, a.targets@[j].enabled));
                }
                assert(vc =~= va);
            }
        },
        None => {},
    }
}

/// Enter in the selection screen scans exactly the checked names, and
/// remembers them as the selection; with no name checked nothing happens.
pub proof fn lemma_scan_takes_checked(a: App, b: App, key: KeyPress, act: Action)
    requires
        a.mode == Mode::Select,
        a.overlay == Overlay::Off,
        key.key == Key::Enter,
        key_step(a, b, key, act),
    ensures
        (exists|k: int| 0 <= k < a.targets@.len() && (#[trigger] a.targets@[k]).enabled) ==> (
        act matches Action::StartScan(names) && b.mode == Mode::Scanning && forall|n: Seq<char>|
            #[trigger] name_views(names@).contains(n) <==> exists|k: int|
                0 <= k < a.targets@.len() && (#[trigger] a.targets@[k]).name@ == n
                    && a.targets@[k].enabled),
        (forall|k: int| 0 <= k < a.targets@.len() ==> !(#[trigger] a.targets@[k]).enabled) ==> (b
            == a && act is Nothing),
{
    assert(select_step(a, b, key, act));
    assert(scan_step(a, b, act));
    let checked = checked_names(a.targets@);
    if exists|k: int| 0 <= k < a.targets@.len() && (#[trigger] a.targets@[k]).enabled {
        let k = choose|k: int| 0 <= k < a.targets@.len() && (#[trigger] a.targets@[k]).enabled;
        lemma_checked_names_contains(a.targets@, a.targets@[k].name@);
        assert(checked.len() > 0);
        assert forall|n: Seq<char>| #[trigger] checked.contains(n) <==> exists|k: int|
            0 <= k < a.targets@.len() && (#[trigger] a.targets@[k]).name@ == n
                && a.targets@[k].enabled by {
            lemma_checked_names_contains(a.targets@, n);
        }
    } else {
        if checked.len() > 0 {
            lemma_checked_names_contains(a.targets@, checked[0]);
            assert(checked.contains(checked[0]));
        }
    }
}

/// Confirming a non-empty new name lists it, checked, and keeps the check of
/// every other name: an entry of the new panel is checked exactly when it is
/// the new name or an entry of the old panel with its name was checked.
pub proof fn lemma_added_name_listed_checked(a: App, b: App, v: Seq<char>, act: Action)
    requires
        a.overlay == Overlay::AddName,
        v.len() > 0,
        commit_step(a, b, v, act),
    ensures
        exists|j: int| 0 <= j < b.targets@.len() && (#[trigger] b.targets@[j]).name@ == v
            && b.targets@[j].enabled,
        forall|j: int| 0 <= j < b.targets@.len() ==> ((#[trigger] b.targets@[j]).enabled <==> (
        b.targets@[j].name@ == v || exists|k: int|
            0 <= k < a.targets@.len() && (#[trigger] a.targets@[k]).name@ == b.targets@[j].name@
                && a.targets@[k].enabled)),
{
    let checked = checked_names(a.targets@).push(v);
    let names = available_names(b.config@);
    let vb = selectable_views(b.targets@);
    assert(vb == listed(names, checked));
    assert(vb.len() == b.targets@.len());
    assert(listed(names, checked).len() == names.len());
    assert forall|j: int| 0 <= j < b.targets@.len() implies ((#[trigger] b.targets@[j]).enabled <==> (
    b.targets@[j].name@ == v || exists|k: int|
        0 <= k < a.targets@.len() && (#[trigger] a.targets@[k]).name@ == b.targets@[j].name@
            && a.targets@[k].enabled)) by {
        assert(vb[j] == (b.targets@[j].name@, b.targets@[j].enabled));
        assert(listed(names, checked)[j] == (names[j], checked.contains(names[j])));
        crate::seqs::lemma_push_contains(checked_names(a.targets@), v);
        lemma_checked_names_contains(a.targets@, names[j]);
    }
    lemma_added_is_available(a.config@, v);
    assert(b.config@ == config_after_add(a.config@, v));
    let j = choose|j: int| 0 <= j < names.len() && names[j] == v;
    assert(vb[j] == (b.targets@[j].name@, b.targets@[j].enabled));
    assert(listed(names, checked)[j] == (names[j], checked.contains(names[j])));
    crate::seqs::lemma_push_contains(checked_names(a.targets@), v);
}

/// Space in the review screen flips the mark of the highlighted directory and
/// of no other.
pub proof fn lemma_review_space_flips_highlighted(a: App, b: App, key: KeyPress, act: Action)
    requires
        a.mode == Mode::Review,
        a.overlay == Overlay::Off,
        key.key == Key::Char(' '),
        key_step(a, b, key, act),
        highlighted_dir(a.rows@, a.results_state) matches Some(d) && d < a.report.dirs@.len(),
    ensures
        b.report.dirs@.len() == a.report.dirs@.len(),
        ({
            let d = highlighted_dir(a.rows@, a.results_state)->0 as int;
            &&& b.report.dirs@[d].selected == !a.report.dirs@[d].selected
            &&& b.report.dirs@[d].path == a.report.dirs@[d].path
            &&& b.report.dirs@[d].size == a.report.dirs@[d].size
            &&& forall|j: int| 0 <= j < a.report.dirs@.len() && j != d ==> #[trigger] b.report.dirs@[j]
                == a.report.dirs@[j]
        }),
{
    assert(review_step(a, b, key, act));
}

} // verus!
