//! The dashboard: a small state machine driving target selection, scanning,
//! the results review and the delete confirmation.
//!
//! Each method takes the state and one event (a key, a scan event, the text the
//! user typed, the outcome of a deletion) to the next state, and returns the
//! [`Action`] the program must carry out: the program draws the screen, edits
//! the text input, saves the configuration, runs the scan and removes the
//! directories.

use vstd::prelude::*;

use crate::config::{
    Config, available_names, config_after_add, config_after_remove, config_with_enabled,
    initial_names,
};
use crate::delete::{
    Disposal, Outcome, deref_dirs, dispose_outcome, freed_total, path_starts_with, removable,
};
use crate::report::{Category, ScanReport, selected_dirs};
use crate::scan::ScanEvent;
use crate::seqs::lemma_push_contains;
use crate::target::{TargetName, name_views};

verus! {

/// Which screen the dashboard is showing.
#[derive(Clone, Copy, Debug, PartialEq, Eq, Structural)]
pub enum Mode {
    /// Pick target names and the scan directory.
    Select,
    /// A background scan is running.
    Scanning,
    /// Review found dirs and opt some out.
    Review,
    /// Show the freed-space summary.
    Done,
}

/// A pop-up layered over the current screen. The two text inputs are edited by
/// the program; their text comes back through [`App::commit_overlay`].
#[derive(Clone, Copy, Debug, PartialEq, Eq, Structural)]
pub enum Overlay {
    Off,
    AddName,
    ChangePath,
    ConfirmDelete,
}

/// A target name with its checked state in the selection panel.
pub struct Selectable {
    pub name: TargetName,
    pub enabled: bool,
}

/// A row in the results panel: a category header or one directory (a flat
/// index into [`ScanReport::dirs`]). Headers are skipped during navigation.
#[derive(Clone, Copy, Debug, PartialEq, Eq, Structural)]
pub enum Row {
    Header(usize),
    Dir(usize),
}

/// The key of a key press.
#[derive(Clone, Copy, Debug, PartialEq, Eq, Structural)]
pub enum Key {
    Up,
    Down,
    Char(char),
    Enter,
    Esc,
    Delete,
    /// Any other key.
    Other,
}

/// A key press: the key, and whether Control was held.
#[derive(Clone, Copy, Debug, PartialEq, Eq, Structural)]
pub struct KeyPress {
    pub key: Key,
    pub ctrl: bool,
}

/// What the program must do after a transition.
pub enum Action {
    /// Nothing beyond drawing the new state.
    Nothing,
    /// Open a text input holding this text.
    OpenInput(String),
    /// Hand the key press to the open text input.
    EditInput,
    /// Read the open text input and hand its text to [`App::commit_overlay`].
    CommitInput,
    /// Save the configuration.
    SaveConfig,
    /// Make this the scan directory if it is a directory ([`App::set_root`]).
    ChangeRootIfDir(String),
    /// Save the configuration and scan the root for these names.
    StartScan(Vec<TargetName>),
    /// Drop the running scan.
    CancelScan,
    /// Remove what [`App::removal_plan`] lists and hand the results to
    /// [`App::perform_delete`].
    Delete,
}

/// The dashboard's state.
pub struct App {
    pub config: Config,
    pub root: String,
    pub disposal: Disposal,
    pub mode: Mode,
    pub overlay: Overlay,
    pub quit: bool,
    pub targets: Vec<Selectable>,
    /// The highlighted row of the selection panel.
    pub targets_state: Option<usize>,
    /// Whether a scan is running and its events are awaited.
    pub scan_running: bool,
    pub found_total: Option<usize>,
    pub measured: usize,
    pub report: ScanReport,
    pub rows: Vec<Row>,
    /// The highlighted row of the results panel.
    pub results_state: Option<usize>,
    pub outcome: Option<Outcome>,
}

/// The names and checked states of the selection panel.
pub open spec fn selectable_views(ts: Seq<Selectable>) -> Seq<(Seq<char>, bool)> {
    ts.map_values(|t: Selectable| (t.name@, t.enabled))
}

/// `names`, each checked when it is in `on`.
pub open spec fn listed(names: Seq<Seq<char>>, on: Seq<Seq<char>>) -> Seq<(Seq<char>, bool)> {
    names.map_values(|n: Seq<char>| (n, on.contains(n)))
}

/// The checked names, in panel order.
pub open spec fn checked_names(ts: Seq<Selectable>) -> Seq<Seq<char>>
    decreases ts.len(),
{
    if ts.len() == 0 {
        Seq::empty()
    } else if ts.last().enabled {
        checked_names(ts.drop_last()).push(ts.last().name@)
    } else {
        checked_names(ts.drop_last())
    }
}

/// A highlight that sits on a row of a list of `len` rows, or is absent when
/// the list is empty.
pub open spec fn selection_ok(sel: Option<usize>, len: int) -> bool {
    match sel {
        Some(i) => i < len,
        None => len == 0,
    }
}

/// `x` clamped into `[lo, hi]`.
pub open spec fn clamp(x: int, lo: int, hi: int) -> int {
    if x < lo {
        lo
    } else if x > hi {
        hi
    } else {
        x
    }
}

/// The highlight of a list of `len` rows moved one row up or down, staying on
/// the list.
pub open spec fn moved(sel: Option<usize>, len: int, forward: bool) -> Option<usize> {
    if len == 0 {
        sel
    } else {
        let cur = match sel {
            Some(i) => i as int,
            None => 0,
        };
        Some(clamp(if forward { cur + 1 } else { cur - 1 }, 0, len - 1) as usize)
    }
}

/// The nearest directory row from `i` on, going forward or backward.
pub open spec fn dir_row_from(rows: Seq<Row>, i: int, forward: bool) -> Option<int>
    decreases (if forward {
        rows.len() - i
    } else {
        i + 1
    }),
{
    if i < 0 || i >= rows.len() {
        None
    } else if rows[i] is Dir {
        Some(i)
    } else if forward {
        dir_row_from(rows, i + 1, true)
    } else {
        dir_row_from(rows, i - 1, false)
    }
}

/// The rows of a results panel over `cats`: each category's header, then one
/// row per directory of it.
pub open spec fn rows_of(cats: Seq<Category>) -> Seq<Row>
    decreases cats.len(),
{
    if cats.len() == 0 {
        Seq::empty()
    } else {
        let c = cats.last();
        rows_of(cats.drop_last()).push(Row::Header((cats.len() - 1) as usize)) + Seq::new(
            c.len as nat,
            |k: int| Row::Dir((c.start + k) as usize),
        )
    }
}

/// Whether every category's range can be walked without overflow.
pub open spec fn ranges_fit(cats: Seq<Category>) -> bool {
    forall|i: int| 0 <= i < cats.len() ==> #[trigger] cats[i].start + cats[i].len <= usize::MAX
}

/// The results highlight sits on a directory row, or is absent.
pub open spec fn results_ok(sel: Option<usize>, rows: Seq<Row>) -> bool {
    match sel {
        Some(i) => i < rows.len() && rows[i as int] is Dir,
        None => true,
    }
}

/// Whether `c` has the Unicode `White_Space` property, as `char::is_whitespace`
/// decides it.
pub open spec fn is_white_space(c: char) -> bool {
    ||| '\u{9}' <= c <= '\u{d}'
    ||| c == ' '
    ||| c == '\u{85}'
    ||| c == '\u{a0}'
    ||| c == '\u{1680}'
    ||| '\u{2000}' <= c <= '\u{200a}'
    ||| c == '\u{2028}'
    ||| c == '\u{2029}'
    ||| c == '\u{202f}'
    ||| c == '\u{205f}'
    ||| c == '\u{3000}'
}

/// `s` without its leading whitespace.
pub open spec fn trim_start(s: Seq<char>) -> Seq<char>
    decreases s.len(),
{
    if s.len() > 0 && is_white_space(s[0]) {
        trim_start(s.drop_first())
    } else {
        s
    }
}

/// `s` without its trailing whitespace.
pub open spec fn trim_end(s: Seq<char>) -> Seq<char>
    decreases s.len(),
{
    if s.len() > 0 && is_white_space(s.last()) {
        trim_end(s.drop_last())
    } else {
        s
    }
}

/// `s` without leading and trailing whitespace.
pub open spec fn trimmed(s: Seq<char>) -> Seq<char> {
    trim_end(trim_start(s))
}

/// Whether `c` is whitespace in the sense of [`is_white_space`].
fn white_space(c: char) -> (r: bool)
    ensures
        r == is_white_space(c),
{
    ('\u{9}' <= c && c <= '\u{d}') || c == ' ' || c == '\u{85}' || c == '\u{a0}' || c
        == '\u{1680}' || ('\u{2000}' <= c && c <= '\u{200a}') || c == '\u{2028}' || c
        == '\u{2029}' || c == '\u{202f}' || c == '\u{205f}' || c == '\u{3000}'
}

/// Leading whitespace up to `i`, then a non-whitespace character (or the
/// end): what is left is the text from `i`.
proof fn lemma_trim_start_at(s: Seq<char>, i: int)
    requires
        0 <= i <= s.len(),
        forall|k: int| 0 <= k < i ==> is_white_space(#[trigger] s[k]),
        i < s.len() ==> !is_white_space(s[i]),
    ensures
        trim_start(s) == s.subrange(i, s.len() as int),
    decreases i,
{
    if i == 0 {
        assert(s.subrange(0, s.len() as int) =~= s);
    } else {
        let t = s.drop_first();
        assert forall|k: int| 0 <= k < i - 1 implies is_white_space(#[trigger] t[k]) by {
            assert(t[k] == s[k + 1]);
        }
        assert(i - 1 < t.len() ==> t[i - 1] == s[i]);
        lemma_trim_start_at(t, i - 1);
        assert(t.subrange(i - 1, t.len() as int) =~= s.subrange(i, s.len() as int));
    }
}

/// Trailing whitespace from `j`, after a non-whitespace character (or the
/// start): what is left is the text up to `j`.
proof fn lemma_trim_end_at(s: Seq<char>, j: int)
    requires
        0 <= j <= s.len(),
        forall|k: int| j <= k < s.len() ==> is_white_space(#[trigger] s[k]),
        0 < j ==> !is_white_space(s[j - 1]),
    ensures
        trim_end(s) == s.subrange(0, j),
    decreases s.len() - j,
{
    if j == s.len() {
        assert(s.subrange(0, j) =~= s);
    } else {
        let t = s.drop_last();
        assert(is_white_space(s[s.len() - 1]));
        assert forall|k: int| j <= k < t.len() implies is_white_space(#[trigger] t[k]) by {
            assert(t[k] == s[k]);
        }
        assert(0 < j ==> t[j - 1] == s[j - 1]);
        lemma_trim_end_at(t, j);
        assert(t.subrange(0, j) =~= s.subrange(0, j));
    }
}

/// The text of `s` without leading and trailing whitespace, as `str::trim`
/// gives it.
fn trim_text(s: &str) -> (r: &str)
    ensures
        r@ == trimmed(s@),
{
    let n = s.unicode_len();
    let mut i: usize = 0;
    while i < n
        invariant
            i <= n,
            n == s@.len(),
            forall|k: int| 0 <= k < i ==> is_white_space(#[trigger] s@[k]),
        ensures
            i <= n,
            forall|k: int| 0 <= k < i ==> is_white_space(#[trigger] s@[k]),
            i < n ==> !is_white_space(s@[i as int]),
        decreases n - i,
    {
        if !white_space(s.get_char(i)) {
            break;
        }
        i = i + 1;
    }
    let mut j: usize = n;
    while j > i
        invariant
            i <= j <= n,
            n == s@.len(),
            forall|k: int| j <= k < n ==> is_white_space(#[trigger] s@[k]),
        ensures
            i <= j <= n,
            forall|k: int| j <= k < n ==> is_white_space(#[trigger] s@[k]),
            i < j ==> !is_white_space(s@[j - 1]),
        decreases j - i,
    {
        if !white_space(s.get_char(j - 1)) {
            break;
        }
        j = j - 1;
    }
    proof {
        lemma_trim_start_at(s@, i as int);
        let t = s@.subrange(i as int, n as int);
        assert forall|k: int| j - i <= k < t.len() implies is_white_space(#[trigger] t[k]) by {
            assert(t[k] == s@[i + k]);
        }
        if i < j {
            assert(t[j - i - 1] == s@[j - 1]);
        }
        lemma_trim_end_at(t, j - i);
        assert(t.subrange(0, j - i) =~= s@.subrange(i as int, j as int));
    }
    s.substring_char(i, j)
}

/// Clamp-move a list highlight one row, staying within `[0, len)`.
fn move_selection(state: &mut Option<usize>, len: usize, forward: bool)
    ensures
        *final(state) == moved(*old(state), len as int, forward),
{
    if len == 0 {
        return;
    }
    let current = match *state {
        Some(i) => i,
        None => 0,
    };
    let next = if forward {
        if current >= len - 1 {
            len - 1
        } else {
            current + 1
        }
    } else {
        if current == 0 {
            0
        } else if current - 1 > len - 1 {
            len - 1
        } else {
            current - 1
        }
    };
    *state = Some(next);
}

/// Control-C.
pub fn is_ctrl_c(key: KeyPress) -> (r: bool)
    ensures
        r == (key.ctrl && key.key == Key::Char('c')),
{
    key.ctrl && key.key == Key::Char('c')
}

/// The panel entries for `names`, checked when in `on`.
fn list_targets(names: Vec<TargetName>, on: &Vec<TargetName>) -> (r: Vec<Selectable>)
    ensures
        selectable_views(r@) == listed(name_views(names@), name_views(on@)),
{
    let ghost goal = listed(name_views(names@), name_views(on@));
    let ghost input = names@;
    let mut rest = names;
    let n = rest.len();
    assert(input.len() == n);
    let mut out: Vec<Selectable> = Vec::new();
    let mut k: usize = 0;
    while rest.len() > 0
        invariant
            k + rest.len() == input.len(),
            input.len() <= usize::MAX,
            rest@ == input.skip(k as int),
            goal == listed(name_views(input), name_views(on@)),
            selectable_views(out@) == goal.take(k as int),
        decreases rest.len(),
    {
        let name = rest.remove(0);
        proof {
            assert(name == input[k as int]);
            assert(rest@ =~= input.skip(k + 1));
        }
        let enabled = crate::target::contains_name(on, &name);
        let ghost before = out@;
        out.push(Selectable { name, enabled });
        proof {
            assert(goal.len() == input.len());
            assert(goal[k as int] == (input[k as int]@, name_views(on@).contains(input[k as int]@)));
            assert(selectable_views(out@) =~= selectable_views(before).push(
                (input[k as int]@, enabled),
            ));
            assert(goal.take(k + 1) =~= goal.take(k as int).push(goal[k as int]));
            assert(selectable_views(out@) =~= goal.take(k + 1));
        }
        k = k + 1;
    }
    assert(goal.take(k as int) =~= goal);
    out
}

/// The checked names of the panel, in order.
fn checked_targets(ts: &Vec<Selectable>) -> (r: Vec<TargetName>)
    ensures
        name_views(r@) == checked_names(ts@),
{
    let mut out: Vec<TargetName> = Vec::new();
    let mut i: usize = 0;
    while i < ts.len()
        invariant
            i <= ts.len(),
            name_views(out@) == checked_names(ts@.take(i as int)),
        decreases ts.len() - i,
    {
        proof {
            assert(ts@.take(i + 1).drop_last() =~= ts@.take(i as int));
        }
        if ts[i].enabled {
            let ghost before = out@;
            out.push(ts[i].name.clone());
            assert(name_views(out@) =~= name_views(before).push(ts@[i as int].name@));
        }
        i = i + 1;
    }
    assert(ts@.take(i as int) =~= ts@);
    out
}

/// The highlight of a panel of `len` rows after it was rebuilt: kept, but
/// pulled back onto the list.
pub open spec fn reload_selection(sel: Option<usize>, len: int) -> Option<usize> {
    if len == 0 {
        None
    } else {
        let cur = match sel {
            Some(i) => i as int,
            None => 0,
        };
        Some((if cur < len - 1 { cur } else { len - 1 }) as usize)
    }
}

/// `b` is `a` with the panel rebuilt from configuration `b.config`, keeping
/// the names in `checked` checked.
pub open spec fn rebuilt_panel(a: App, b: App, checked: Seq<Seq<char>>) -> bool {
    &&& selectable_views(b.targets@) == listed(available_names(b.config@), checked)
    &&& b.targets_state == reload_selection(a.targets_state, b.targets@.len() as int)
}

/// `b` differs from `a` in the selection panel and configuration at most.
pub open spec fn panel_only(a: App, b: App) -> bool {
    b == App { config: b.config, targets: b.targets, targets_state: b.targets_state, ..a }
}

/// The panel with the highlighted entry's check flipped.
pub open spec fn toggled(ts: Seq<(Seq<char>, bool)>, sel: Option<usize>) -> Seq<(Seq<char>, bool)> {
    match sel {
        Some(i) => if i < ts.len() {
            ts.update(i as int, (ts[i as int].0, !ts[i as int].1))
        } else {
            ts
        },
        None => ts,
    }
}

/// The effect of a key in the selection screen.
pub open spec fn select_step(a: App, b: App, key: KeyPress, act: Action) -> bool {
    let len = a.targets@.len() as int;
    match key.key {
        Key::Up | Key::Char('k') => b == App { targets_state: moved(a.targets_state, len, false), ..a }
            && act is Nothing,
        Key::Down | Key::Char('j') => b == App {
            targets_state: moved(a.targets_state, len, true),
            ..a
        } && act is Nothing,
        Key::Char(' ') => panel_only(a, b) && b.config == a.config && b.targets_state
            == a.targets_state && selectable_views(b.targets@) == toggled(
            selectable_views(a.targets@),
            a.targets_state,
        ) && act is Nothing,
        Key::Char('a') => b == App { overlay: Overlay::AddName, ..a } && (act matches Action::OpenInput(
            t,
        ) && t@.len() == 0),
        Key::Char('r') | Key::Delete => removed_step(a, b, act),
        Key::Char('c') => b == App { overlay: Overlay::ChangePath, ..a } && (act matches Action::OpenInput(
            t,
        ) && t@ == a.root@),
        Key::Enter | Key::Char('s') => scan_step(a, b, act),
        _ => b == a && act is Nothing,
    }
}

/// Removing the highlighted name: dropped from the configuration (saved), the
/// panel rebuilt.
pub open spec fn removed_step(a: App, b: App, act: Action) -> bool {
    match a.targets_state {
        Some(i) => if i < a.targets@.len() {
            &&& panel_only(a, b)
            &&& b.config@ == config_after_remove(a.config@, a.targets@[i as int].name@)
            &&& rebuilt_panel(a, b, checked_names(a.targets@))
            &&& act is SaveConfig
        } else {
            b == a && act is Nothing
        },
        None => b == a && act is Nothing,
    }
}

/// Starting a scan of the checked names: remembered in the configuration,
/// scan started. Nothing happens when no name is checked.
pub open spec fn scan_step(a: App, b: App, act: Action) -> bool {
    let checked = checked_names(a.targets@);
    if checked.len() == 0 {
        b == a && act is Nothing
    } else {
        &&& b == App {
            config: b.config,
            scan_running: true,
            found_total: None,
            measured: 0,
            mode: Mode::Scanning,
            ..a
        }
        &&& b.config@ == config_with_enabled(a.config@, checked)
        &&& act matches Action::StartScan(names) && name_views(names@) == checked
    }
}

/// The effect of a key in the results screen.
pub open spec fn review_step(a: App, b: App, key: KeyPress, act: Action) -> bool {
    &&& act is Nothing
    &&& match key.key {
        Key::Up | Key::Char('k') => b == App {
            results_state: moved_result(a.rows@, a.results_state, false),
            ..a
        },
        Key::Down | Key::Char('j') => b == App {
            results_state: moved_result(a.rows@, a.results_state, true),
            ..a
        },
        Key::Char(' ') => b == App { report: b.report, ..a } && b.report.categories
            == a.report.categories && match highlighted_dir(a.rows@, a.results_state) {
            Some(d) => d < a.report.dirs@.len() ==> b.report.dirs@ == a.report.dirs@.update(
                d as int,
                crate::report::with_selection(
                    a.report.dirs@[d as int],
                    !a.report.dirs@[d as int].selected,
                ),
            ),
            None => b.report.dirs@ == a.report.dirs@,
        } && (highlighted_dir(a.rows@, a.results_state) matches Some(d) && d
            >= a.report.dirs@.len() ==> b.report.dirs@ == a.report.dirs@),
        Key::Char('a') => all_marked(a, b, true),
        Key::Char('n') => all_marked(a, b, false),
        Key::Char('t') => b == App { disposal: Disposal::Trash, ..a },
        Key::Char('p') => b == App { disposal: Disposal::Permanent, ..a },
        Key::Char('d') => if crate::report::selected_dirs(a.report.dirs@).len() > 0 {
            b == App { overlay: Overlay::ConfirmDelete, ..a }
        } else {
            b == a
        },
        Key::Esc | Key::Char('b') => b == App { mode: Mode::Select, ..a },
        _ => b == a,
    }
}

/// Every dir marked (or unmarked) at once.
pub open spec fn all_marked(a: App, b: App, selected: bool) -> bool {
    &&& b == App { report: b.report, ..a }
    &&& b.report.categories == a.report.categories
    &&& b.report.dirs@.len() == a.report.dirs@.len()
    &&& forall|i: int| 0 <= i < a.report.dirs@.len() ==> #[trigger] b.report.dirs@[i]
        == crate::report::with_selection(a.report.dirs@[i], selected)
}

/// The highlight of the results panel moved to the nearest directory row in
/// the direction, or left where it is when there is none.
pub open spec fn moved_result(rows: Seq<Row>, sel: Option<usize>, forward: bool) -> Option<usize> {
    if rows.len() == 0 {
        sel
    } else {
        let cur = match sel {
            Some(i) => i as int,
            None => 0,
        };
        match dir_row_from(rows, if forward { cur + 1 } else { cur - 1 }, forward) {
            Some(j) => Some(j as usize),
            None => sel,
        }
    }
}

/// The flat index of the highlighted directory, if a directory row is
/// highlighted.
pub open spec fn highlighted_dir(rows: Seq<Row>, sel: Option<usize>) -> Option<usize> {
    match sel {
        Some(i) => if i < rows.len() {
            match rows[i as int] {
                Row::Dir(d) => Some(d),
                Row::Header(_) => None,
            }
        } else {
            None
        },
        None => None,
    }
}

/// The effect of a key while a text input is open: `Esc` closes it, `Enter`
/// asks for its text, any other key edits it.
pub open spec fn input_step(a: App, b: App, key: KeyPress, act: Action) -> bool {
    match key.key {
        Key::Esc => b == App { overlay: Overlay::Off, ..a } && act is Nothing,
        Key::Enter => b == a && act is CommitInput,
        _ => b == a && act is EditInput,
    }
}

/// The effect of a key while the delete confirmation is open.
pub open spec fn confirm_step(a: App, b: App, key: KeyPress, act: Action) -> bool {
    match key.key {
        Key::Char('y') | Key::Char('Y') | Key::Enter => b == App { overlay: Overlay::Off, ..a }
            && act is Delete,
        Key::Char('n') | Key::Char('N') | Key::Esc => b == App { overlay: Overlay::Off, ..a }
            && act is Nothing,
        _ => b == a && act is Nothing,
    }
}

/// A key that quits from any screen without an overlay.
pub open spec fn is_quit_key(key: KeyPress) -> bool {
    key.key == Key::Char('q') || (key.ctrl && key.key == Key::Char('c'))
}

/// The effect of a key on the dashboard.
pub open spec fn key_step(a: App, b: App, key: KeyPress, act: Action) -> bool {
    match a.overlay {
        Overlay::AddName | Overlay::ChangePath => input_step(a, b, key, act),
        Overlay::ConfirmDelete => confirm_step(a, b, key, act),
        Overlay::Off => if a.mode == Mode::Done || is_quit_key(key) {
            b == App { quit: true, ..a } && act is Nothing
        } else {
            match a.mode {
                Mode::Select => select_step(a, b, key, act),
                Mode::Scanning => if key.key == Key::Esc {
                    b == App { scan_running: false, mode: Mode::Select, ..a } && act is CancelScan
                } else {
                    b == a && act is Nothing
                },
                _ => review_step(a, b, key, act),
            }
        },
    }
}

/// The effect of the (trimmed) text `v` of an open input, handed back when the
/// user confirmed it. The input closes; a non-empty added name joins the
/// configuration, checked; a new scan directory is proposed.
pub open spec fn commit_step(a: App, b: App, v: Seq<char>, act: Action) -> bool {
    match a.overlay {
        Overlay::AddName => if v.len() > 0 {
            &&& b == App {
                config: b.config,
                targets: b.targets,
                targets_state: b.targets_state,
                overlay: Overlay::Off,
                ..a
            }
            &&& b.config@ == config_after_add(a.config@, v)
            &&& rebuilt_panel(a, b, checked_names(a.targets@).push(v))
            &&& act is SaveConfig
        } else {
            b == App { overlay: Overlay::Off, ..a } && act is Nothing
        },
        Overlay::ChangePath => b == App { overlay: Overlay::Off, ..a } && (act matches Action::ChangeRootIfDir(
            p,
        ) && p@ == v),
        _ => b == App { overlay: Overlay::Off, ..a } && act is Nothing,
    }
}

/// The effect of a scan event.
pub open spec fn scan_event_step(a: App, b: App, event: ScanEvent) -> bool {
    match event {
        ScanEvent::Found(total) => b == App { found_total: Some(total), ..a },
        ScanEvent::Measured => b == App { measured: (a.measured + 1) as usize, ..a },
        ScanEvent::Done(report) => finished_scan(a, b, report),
    }
}

/// The scan is over: its report is shown for review.
pub open spec fn finished_scan(a: App, b: App, report: ScanReport) -> bool {
    &&& b == App {
        report: report,
        rows: b.rows,
        results_state: b.results_state,
        scan_running: false,
        mode: Mode::Review,
        ..a
    }
    &&& b.rows@ == rows_of(report.categories@)
    &&& b.results_state == match dir_row_from(b.rows@, 0, true) {
        Some(j) => Some(j as usize),
        None => None,
    }
}

impl App {
    /// The invariant every transition keeps: both highlights sit on rows of
    /// their lists (the results one on a directory row), and the result rows
    /// are those of the report's categories.
    pub open spec fn wf(&self) -> bool {
        &&& selection_ok(self.targets_state, self.targets@.len() as int)
        &&& results_ok(self.results_state, self.rows@)
        &&& self.rows@ == rows_of(self.report.categories@)
    }

    pub fn new(config: Config, root: String, disposal: Disposal) -> (r: App)
        ensures
            r.wf(),
            r.config@ == config@,
            r.root@ == root@,
            r.disposal == disposal,
            r.mode == Mode::Select,
            r.overlay == Overlay::Off,
            !r.quit,
            selectable_views(r.targets@) == listed(available_names(config@), initial_names(config@)),
            r.targets@.len() == available_names(config@).len(),
            forall|i: int| 0 <= i < r.targets@.len() ==> (#[trigger] r.targets@[i]).name@
                == available_names(config@)[i] && (r.targets@[i].enabled <==> initial_names(
                config@,
            ).contains(r.targets@[i].name@)),
            r.targets_state == if r.targets@.len() > 0 {
                Some(0usize)
            } else {
                None
            },
            !r.scan_running,
            r.found_total is None,
            r.measured == 0,
            r.report.dirs@.len() == 0,
            r.report.categories@.len() == 0,
            r.rows@.len() == 0,
            r.results_state is None,
            r.outcome is None,
    {
        let enabled = config.initial_enabled();
        let targets = list_targets(config.available(), &enabled);
        let targets_state = if targets.len() > 0 {
            Some(0)
        } else {
            None
        };
        let app = App {
            config,
            root,
            disposal,
            mode: Mode::Select,
            overlay: Overlay::Off,
            quit: false,
            targets,
            targets_state,
            scan_running: false,
            found_total: None,
            measured: 0,
            report: ScanReport { dirs: Vec::new(), categories: Vec::new() },
            rows: Vec::new(),
            results_state: None,
            outcome: None,
        };
        assert(rows_of(app.report.categories@) =~= Seq::<Row>::empty());
        proof {
            let v = selectable_views(app.targets@);
            let goal = listed(available_names(app.config@), initial_names(app.config@));
            assert(v.len() == app.targets@.len());
            assert(goal.len() == available_names(app.config@).len());
            assert forall|i: int| 0 <= i < app.targets@.len() implies (#[trigger] app.targets@[i]).name@
                == available_names(app.config@)[i] && (app.targets@[i].enabled <==> initial_names(
                app.config@,
            ).contains(app.targets@[i].name@)) by {
                assert(v[i] == (app.targets@[i].name@, app.targets@[i].enabled));
                assert(goal[i] == v[i]);
                assert(goal[i] == (available_names(app.config@)[i], initial_names(app.config@).contains(
                    available_names(app.config@)[i],
                )));
            }
        }
        app
    }

    /// Handle one key press.
    pub fn on_key(&mut self, key: KeyPress) -> (act: Action)
        requires
            old(self).wf(),
        ensures
            final(self).wf(),
            key_step(*old(self), *final(self), key, act),
    {
        match self.overlay {
            Overlay::AddName | Overlay::ChangePath => return self.on_input_key(key),
            Overlay::ConfirmDelete => return self.on_confirm_key(key),
            Overlay::Off => {},
        }
        if self.mode == Mode::Done {
            self.quit = true;
            return Action::Nothing;
        }
        if key.key == Key::Char('q') || is_ctrl_c(key) {
            self.quit = true;
            return Action::Nothing;
        }
        match self.mode {
            Mode::Select => self.on_select_key(key),
            Mode::Scanning => {
                if key.key == Key::Esc {
                    self.scan_running = false;
                    self.mode = Mode::Select;
                    Action::CancelScan
                } else {
                    Action::Nothing
                }
            },
            _ => self.on_review_key(key),
        }
    }

    fn on_select_key(&mut self, key: KeyPress) -> (act: Action)
        requires
            old(self).wf(),
        ensures
            final(self).wf(),
            select_step(*old(self), *final(self), key, act),
    {
        match key.key {
            Key::Up | Key::Char('k') => {
                let len = self.targets.len();
                move_selection(&mut self.targets_state, len, false);
                Action::Nothing
            },
            Key::Down | Key::Char('j') => {
                let len = self.targets.len();
                move_selection(&mut self.targets_state, len, true);
                Action::Nothing
            },
            Key::Char(' ') => {
                self.toggle_target();
                Action::Nothing
            },
            Key::Char('a') => {
                self.overlay = Overlay::AddName;
                Action::OpenInput(String::new())
            },
            Key::Char('r') | Key::Delete => self.remove_target(),
            Key::Char('c') => {
                self.overlay = Overlay::ChangePath;
                Action::OpenInput(self.root.clone())
            },
            Key::Enter | Key::Char('s') => self.start_scan(),
            _ => Action::Nothing,
        }
    }

    fn on_review_key(&mut self, key: KeyPress) -> (act: Action)
        requires
            old(self).wf(),
        ensures
            final(self).wf(),
            review_step(*old(self), *final(self), key, act),
    {
        match key.key {
            Key::Up | Key::Char('k') => self.move_result(false),
            Key::Down | Key::Char('j') => self.move_result(true),
            Key::Char(' ') => {
                if let Some(index) = self.selected_dir() {
                    self.report.toggle(index);
                }
            },
            Key::Char('a') => self.report.set_all(true),
            Key::Char('n') => self.report.set_all(false),
            Key::Char('t') => self.disposal = Disposal::Trash,
            Key::Char('p') => self.disposal = Disposal::Permanent,
            Key::Char('d') => {
                if self.report.selected_count() > 0 {
                    self.overlay = Overlay::ConfirmDelete;
                }
            },
            Key::Esc | Key::Char('b') => self.mode = Mode::Select,
            _ => {},
        }
        Action::Nothing
    }

    fn on_input_key(&mut self, key: KeyPress) -> (act: Action)
        ensures
            input_step(*old(self), *final(self), key, act),
    {
        match key.key {
            Key::Esc => {
                self.overlay = Overlay::Off;
                Action::Nothing
            },
            Key::Enter => Action::CommitInput,
            _ => Action::EditInput,
        }
    }

    fn on_confirm_key(&mut self, key: KeyPress) -> (act: Action)
        ensures
            confirm_step(*old(self), *final(self), key, act),
    {
        match key.key {
            Key::Char('y') | Key::Char('Y') | Key::Enter => {
                self.overlay = Overlay::Off;
                Action::Delete
            },
            Key::Char('n') | Key::Char('N') | Key::Esc => {
                self.overlay = Overlay::Off;
                Action::Nothing
            },
            _ => Action::Nothing,
        }
    }

    /// Flip the check of the highlighted name.
    fn toggle_target(&mut self)
        ensures
            panel_only(*old(self), *final(self)),
            final(self).config == old(self).config,
            final(self).targets_state == old(self).targets_state,
            selectable_views(final(self).targets@) == toggled(
                selectable_views(old(self).targets@),
                old(self).targets_state,
            ),
            final(self).targets@.len() == old(self).targets@.len(),
    {
        if let Some(index) = self.targets_state {
            if index < self.targets.len() {
                let ghost before = self.targets@;
                let flipped = !self.targets[index].enabled;
                self.targets[index].enabled = flipped;
                assert(selectable_views(self.targets@) =~= toggled(
                    selectable_views(before),
                    old(self).targets_state,
                ));
                return;
            }
        }
        assert(selectable_views(self.targets@) =~= toggled(
            selectable_views(old(self).targets@),
            old(self).targets_state,
        ));
    }

    /// Rebuild the panel from the configuration, keeping the checked names
    /// checked.
    fn reload_targets(&mut self)
        ensures
            panel_only(*old(self), *final(self)),
            final(self).config == old(self).config,
            rebuilt_panel(*old(self), *final(self), checked_names(old(self).targets@)),
            selection_ok(final(self).targets_state, final(self).targets@.len() as int),
    {
        let enabled = checked_targets(&self.targets);
        let targets = list_targets(self.config.available(), &enabled);
        self.targets = targets;
        let len = self.targets.len();
        if len == 0 {
            self.targets_state = None;
        } else {
            let current = match self.targets_state {
                Some(i) => i,
                None => 0,
            };
            self.targets_state = Some(if current < len - 1 { current } else { len - 1 });
        }
    }

    /// Drop the highlighted name from the configuration and rebuild the panel.
    fn remove_target(&mut self) -> (act: Action)
        requires
            old(self).wf(),
        ensures
            final(self).wf(),
            removed_step(*old(self), *final(self), act),
    {
        let index = match self.targets_state {
            Some(i) => i,
            None => return Action::Nothing,
        };
        if index >= self.targets.len() {
            return Action::Nothing;
        }
        let name = self.targets[index].name.clone();
        self.config.remove(&name);
        self.reload_targets();
        Action::SaveConfig
    }

    /// Remember the checked names and start scanning for them.
    fn start_scan(&mut self) -> (act: Action)
        requires
            old(self).wf(),
        ensures
            final(self).wf(),
            scan_step(*old(self), *final(self), act),
    {
        let enabled = checked_targets(&self.targets);
        if enabled.len() == 0 {
            return Action::Nothing;
        }
        let remembered = checked_targets(&self.targets);
        self.config.set_enabled(remembered);
        self.scan_running = true;
        self.found_total = None;
        self.measured = 0;
        self.mode = Mode::Scanning;
        Action::StartScan(enabled)
    }

    /// Move the results highlight to the nearest directory row.
    fn move_result(&mut self, forward: bool)
        requires
            old(self).wf(),
        ensures
            final(self).wf(),
            *final(self) == (App {
                results_state: moved_result(old(self).rows@, old(self).results_state, forward),
                ..*old(self)
            }),
    {
        if self.rows.len() == 0 {
            return;
        }
        let len = self.rows.len();
        let start = match self.results_state {
            Some(i) => i,
            None => 0,
        };
        if forward {
            let mut index = start;
            while index < len
                invariant
                    *self == *old(self),
                    old(self).wf(),
                    len == self.rows@.len(),
                    len > 0,
                    start == (match old(self).results_state {
                        Some(i) => i,
                        None => 0,
                    }),
                    forward,
                    start <= index,
                    index < len ==> dir_row_from(self.rows@, start + 1, true) == dir_row_from(
                        self.rows@,
                        index + 1,
                        true,
                    ),
                    index >= len ==> dir_row_from(self.rows@, start + 1, true) is None,
                decreases len - index,
            {
                if index + 1 >= len {
                    index = len;
                } else {
                    index = index + 1;
                    if let Row::Dir(_) = self.rows[index] {
                        assert(dir_row_from(self.rows@, index as int, true) == Some(index as int));
                        self.results_state = Some(index);
                        return;
                    }
                }
            }
        } else {
            let mut index = start;
            while index > 0
                invariant
                    *self == *old(self),
                    old(self).wf(),
                    len == self.rows@.len(),
                    len > 0,
                    start == (match old(self).results_state {
                        Some(i) => i,
                        None => 0,
                    }),
                    !forward,
                    index <= start,
                    dir_row_from(self.rows@, start - 1, false) == dir_row_from(
                        self.rows@,
                        index - 1,
                        false,
                    ),
                decreases index,
            {
                index = index - 1;
                if index < len {
                    if let Row::Dir(_) = self.rows[index] {
                        assert(dir_row_from(self.rows@, index as int, false) == Some(index as int));
                        self.results_state = Some(index);
                        return;
                    }
                }
            }
        }
    }

    /// Check the entry named `name`, the only one with that name.
    fn enable_named(&mut self, name: &TargetName, Ghost(names): Ghost<Seq<Seq<char>>>, Ghost(on): Ghost<Seq<Seq<char>>>)
        requires
            selectable_views(old(self).targets@) == listed(names, on),
            names.no_duplicates(),
        ensures
            *final(self) == (App { targets: final(self).targets, ..*old(self) }),
            selectable_views(final(self).targets@) == listed(names, on.push(name@)),
    {
        let ghost goal = listed(names, on.push(name@));
        proof {
            lemma_push_contains(on, name@);
        }
        assert(names.len() == selectable_views(self.targets@).len());
        let mut i: usize = 0;
        while i < self.targets.len()
            invariant
                *self == (App { targets: self.targets, ..*old(self) }),
                i <= self.targets@.len(),
                names.no_duplicates(),
                goal == listed(names, on.push(name@)),
                forall|y: Seq<char>| #[trigger] on.push(name@).contains(y) <==> (on.contains(y) || y == name@),
                selectable_views(self.targets@) == listed(names, on),
                names.len() == self.targets@.len(),
                forall|j: int| 0 <= j < i ==> names[j] != name@,
            decreases self.targets.len() - i,
        {
            if self.targets[i].name.same_as(name) {
                let ghost before = self.targets@;
                self.targets[i].enabled = true;
                proof {
                    assert(listed(names, on)[i as int] == (names[i as int], on.contains(names[i as int])));
                    assert(selectable_views(before)[i as int] == (names[i as int], on.contains(names[i as int])));
                    assert forall|j: int| 0 <= j < goal.len() implies #[trigger] selectable_views(self.targets@)[j] == goal[j] by {
                        assert(listed(names, on)[j] == (names[j], on.contains(names[j])));
                        assert(selectable_views(before)[j] == (names[j], on.contains(names[j])));
                        if j != i {
                            assert(names[j] != names[i as int]);
                        }
                    }
                    assert(selectable_views(self.targets@) =~= goal);
                }
                return;
            }
            proof {
                assert(listed(names, on)[i as int] == (names[i as int], on.contains(names[i as int])));
                assert(selectable_views(self.targets@)[i as int] == (names[i as int], on.contains(names[i as int])));
            }
            i = i + 1;
        }
        proof {
            assert forall|j: int| 0 <= j < goal.len() implies #[trigger] selectable_views(self.targets@)[j] == goal[j] by {
                assert(listed(names, on)[j] == (names[j], on.contains(names[j])));
                assert(selectable_views(self.targets@)[j] == (names[j], on.contains(names[j])));
            }
            assert(selectable_views(self.targets@) =~= goal);
        }
    }

    /// Take the text of the open input, which the user confirmed; surrounding
    /// whitespace does not count.
    pub fn commit_overlay(&mut self, value: &str) -> (act: Action)
        requires
            old(self).wf(),
        ensures
            final(self).wf(),
            commit_step(*old(self), *final(self), trimmed(value@), act),
    {
        let text = trim_text(value);
        self.commit_text(text)
    }

    /// Take the trimmed text of the open input.
    pub fn commit_text(&mut self, text: &str) -> (act: Action)
        requires
            old(self).wf(),
        ensures
            final(self).wf(),
            commit_step(*old(self), *final(self), text@, act),
    {
        let overlay = self.overlay;
        self.overlay = Overlay::Off;
        match overlay {
            Overlay::AddName => {
                if text.is_empty() {
                    return Action::Nothing;
                }
                let name = TargetName::new(text);
                let ghost checked = checked_names(self.targets@);
                self.config.add_custom(name.clone());
                self.reload_targets();
                proof {
                    crate::config::lemma_available(self.config@);
                }
                let ghost reloaded = *self;
                self.enable_named(&name, Ghost(available_names(self.config@)), Ghost(checked));
                proof {
                    assert(selectable_views(self.targets@).len() == selectable_views(reloaded.targets@).len());
                    assert(self.targets@.len() == reloaded.targets@.len());
                }
                Action::SaveConfig
            },
            Overlay::ChangePath => Action::ChangeRootIfDir(text.to_owned()),
            _ => Action::Nothing,
        }
    }

    /// Make `path` the scan directory; the program has checked that it is a
    /// directory.
    pub fn set_root(&mut self, path: String)
        ensures
            *final(self) == (App { root: path, ..*old(self) }),
    {
        self.root = path;
    }

    /// What the confirmed deletion hands to the remover: for each dir marked
    /// for deletion, in order, its path when it may be removed, or `None` when
    /// it guards the scan root.
    pub fn removal_plan(&self) -> (r: Vec<Option<String>>)
        ensures
            r@.len() == selected_dirs(self.report.dirs@).len(),
            forall|i: int| 0 <= i < r@.len() ==> {
                let d = #[trigger] selected_dirs(self.report.dirs@)[i];
                match r@[i] {
                    Some(p) => p@ == d.path@ && !path_starts_with(self.root@, d.path@),
                    None => path_starts_with(self.root@, d.path@),
                }
            },
    {
        let selected = self.report.selected();
        let ghost sel = selected_dirs(self.report.dirs@);
        assert(deref_dirs(selected@) =~= sel);
        let allowed = removable(selected.as_slice(), self.root.as_str());
        let mut plan: Vec<Option<String>> = Vec::new();
        let mut i: usize = 0;
        while i < selected.len()
            invariant
                i <= selected@.len(),
                allowed@.len() == selected@.len(),
                sel == deref_dirs(selected@),
                forall|j: int| 0 <= j < selected@.len() ==> #[trigger] allowed@[j]
                    == !path_starts_with(self.root@, selected@[j].path@),
                plan@.len() == i,
                forall|j: int| 0 <= j < i ==> {
                    let d = #[trigger] sel[j];
                    match plan@[j] {
                        Some(p) => p@ == d.path@ && !path_starts_with(self.root@, d.path@),
                        None => path_starts_with(self.root@, d.path@),
                    }
                },
            decreases selected.len() - i,
        {
            assert(sel[i as int] == *selected@[i as int]);
            if allowed[i] {
                plan.push(Some(selected[i].path.clone()));
            } else {
                plan.push(None);
            }
            i = i + 1;
        }
        plan
    }

    /// Record the deletion the user confirmed: the dirs marked for deletion are
    /// disposed of under the scan root, given what removing each gave (in the
    /// order of [`App::removal_plan`], `Ok` for those it leaves alone), and the
    /// outcome is shown. Returns `false`, changing nothing, when the bytes
    /// freed do not fit in a `u64`.
    pub fn perform_delete(&mut self, removals: &[Result<(), String>]) -> (r: bool)
        requires
            old(self).wf(),
            removals@.len() == selected_dirs(old(self).report.dirs@).len(),
        ensures
            final(self).wf(),
            r == (dispose_outcome(
                selected_dirs(old(self).report.dirs@),
                old(self).root@,
                removals@,
            ).freed <= u64::MAX),
            r ==> final(self).outcome is Some && final(self).outcome->0@ == dispose_outcome(
                selected_dirs(old(self).report.dirs@),
                old(self).root@,
                removals@,
            ) && *final(self) == (App {
                outcome: final(self).outcome,
                mode: Mode::Done,
                ..*old(self)
            }),
            !r ==> *final(self) == *old(self),
    {
        let outcome = {
            let selected = self.report.selected();
            assert(deref_dirs(selected@) =~= selected_dirs(self.report.dirs@));
            match freed_total(selected.as_slice(), self.root.as_str(), removals) {
                Some(_) => Some(self.disposal.dispose(selected.as_slice(), self.root.as_str(), removals)),
                None => None,
            }
        };
        match outcome {
            Some(o) => {
                self.outcome = Some(o);
                self.mode = Mode::Done;
                true
            },
            None => false,
        }
    }

    /// Take one event of the running scan.
    pub fn on_scan_event(&mut self, event: ScanEvent)
        requires
            old(self).wf(),
            event matches ScanEvent::Measured ==> old(self).measured < usize::MAX,
            event matches ScanEvent::Done(report) ==> ranges_fit(report.categories@),
        ensures
            final(self).wf(),
            scan_event_step(*old(self), *final(self), event),
    {
        match event {
            ScanEvent::Found(total) => self.found_total = Some(total),
            ScanEvent::Measured => self.measured = self.measured + 1,
            ScanEvent::Done(report) => self.finish_scan(report),
        }
    }

    fn finish_scan(&mut self, report: ScanReport)
        requires
            ranges_fit(report.categories@),
        ensures
            final(self).wf() <== selection_ok(old(self).targets_state, old(self).targets@.len() as int),
            finished_scan(*old(self), *final(self), report),
    {
        self.report = report;
        self.rebuild_rows();
        self.scan_running = false;
        self.mode = Mode::Review;
    }

    /// Lay the rows out from the report's categories and highlight the first
    /// directory row.
    fn rebuild_rows(&mut self)
        requires
            ranges_fit(old(self).report.categories@),
        ensures
            *final(self) == (App { rows: final(self).rows, results_state: final(self).results_state, ..*old(self) }),
            final(self).rows@ == rows_of(old(self).report.categories@),
            final(self).results_state == match dir_row_from(final(self).rows@, 0, true) {
                Some(j) => Some(j as usize),
                None => None,
            },
            results_ok(final(self).results_state, final(self).rows@),
    {
        let ghost cats = self.report.categories@;
        let mut rows: Vec<Row> = Vec::new();
        let mut ci: usize = 0;
        while ci < self.report.categories.len()
            invariant
                *self == *old(self),
                cats == self.report.categories@,
                ranges_fit(cats),
                ci <= cats.len(),
                rows@ == rows_of(cats.take(ci as int)),
            decreases cats.len() - ci,
        {
            let start = self.report.categories[ci].start;
            let len = self.report.categories[ci].len;
            assert(cats[ci as int].start + cats[ci as int].len <= usize::MAX);
            let ghost base = rows@.push(Row::Header(ci));
            rows.push(Row::Header(ci));
            let mut d: usize = start;
            while d < start + len
                invariant
                    start <= d <= start + len,
                    start + len <= usize::MAX,
                    rows@ == base + Seq::new((d - start) as nat, |k: int| Row::Dir((start + k) as usize)),
                decreases start + len - d,
            {
                let ghost before = rows@;
                rows.push(Row::Dir(d));
                assert(rows@ =~= base + Seq::new((d + 1 - start) as nat, |k: int| Row::Dir((start + k) as usize)));
                d = d + 1;
            }
            proof {
                let t = cats.take(ci + 1);
                assert(t.drop_last() =~= cats.take(ci as int));
                assert(t.last() == cats[ci as int]);
                assert(rows@ =~= rows_of(t));
            }
            ci = ci + 1;
        }
        assert(cats.take(ci as int) =~= cats);
        let mut first: usize = 0;
        let mut found = false;
        while !found && first < rows.len()
            invariant
                first <= rows@.len(),
                found ==> first < rows@.len() && rows@[first as int] is Dir,
                dir_row_from(rows@, 0, true) == dir_row_from(rows@, first as int, true),
            decreases rows.len() - first + if found { 0int } else { 1int },
        {
            if let Row::Dir(_) = rows[first] {
                found = true;
            } else {
                first = first + 1;
            }
        }
        if found {
            assert(dir_row_from(rows@, first as int, true) == Some(first as int));
        }
        self.rows = rows;
        self.results_state = if found {
            Some(first)
        } else {
            None
        };
    }
}

impl ScanReport {
    /// Whether every category's range can be walked without overflow, which a
    /// report from [`ScanReport::from_dirs`] always allows.
    pub fn ranges_fit(&self) -> (r: bool)
        ensures
            r == ranges_fit(self.categories@),
    {
        let mut i: usize = 0;
        while i < self.categories.len()
            invariant
                i <= self.categories@.len(),
                forall|j: int| 0 <= j < i ==> #[trigger] self.categories@[j].start + self.categories@[j].len <= usize::MAX,
            decreases self.categories.len() - i,
        {
            if self.categories[i].len > usize::MAX - self.categories[i].start {
                return false;
            }
            i = i + 1;
        }
        true
    }
}

impl App {
    /// The flat index of the highlighted directory, if any.
    pub fn selected_dir(&self) -> (r: Option<usize>)
        ensures
            r == highlighted_dir(self.rows@, self.results_state),
    {
        let index = match self.results_state {
            Some(i) => i,
            None => return None,
        };
        if index >= self.rows.len() {
            return None;
        }
        match self.rows[index] {
            Row::Dir(d) => Some(d),
            Row::Header(_) => None,
        }
    }

    /// How many targets are checked.
    pub fn checked_count(&self) -> (r: usize)
        ensures
            r == checked_names(self.targets@).len(),
    {
        let ghost ts = self.targets@;
        let mut count: usize = 0;
        let mut i: usize = 0;
        while i < self.targets.len()
            invariant
                i <= self.targets.len(),
                ts == self.targets@,
                count <= i,
                count == checked_names(ts.take(i as int)).len(),
            decreases self.targets.len() - i,
        {
            proof {
                assert(ts.take(i + 1).drop_last() =~= ts.take(i as int));
            }
            if self.targets[i].enabled {
                count = count + 1;
            }
            i = i + 1;
        }
        assert(ts.take(i as int) =~= ts);
        count
    }
}

} // verus!
