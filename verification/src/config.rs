//! Persistent user configuration: which target names exist and which are
//! selected. The program stores it as TOML under the OS config directory so
//! customisations survive across runs; this module holds the rules.

use vstd::prelude::*;

use crate::seqs::{keep_first, lemma_keep_first, lemma_keep_first_append, lemma_without, without};
use crate::target::{
    TargetName, contains_name, default_names, default_targets, is_default_name, name_views,
};

verus! {

/// The name lists kept across runs.
pub struct TargetSettings {
    /// Names the user added; kept forever.
    pub custom: Vec<TargetName>,
    /// Built-in defaults the user removed; never shown again (until re-added).
    pub hidden: Vec<TargetName>,
    /// Names that were checked in the last run; restored on the next launch.
    pub enabled: Vec<TargetName>,
}

/// User settings. The visible target list is `(defaults ∪ custom) − hidden`.
/// Mutating methods update the in-memory state; the program persists it.
pub struct Config {
    pub targets: TargetSettings,
    /// Where this configuration loads from and saves to; `None` for one that
    /// lives in memory only.
    pub path: Option<String>,
}

/// What a configuration holds, as texts.
#[verifier::ext_equal]
pub struct ConfigView {
    pub custom: Seq<Seq<char>>,
    pub hidden: Seq<Seq<char>>,
    pub enabled: Seq<Seq<char>>,
    pub path: Option<Seq<char>>,
}

impl View for Config {
    type V = ConfigView;

    open spec fn view(&self) -> ConfigView {
        ConfigView {
            custom: name_views(self.targets.custom@),
            hidden: name_views(self.targets.hidden@),
            enabled: name_views(self.targets.enabled@),
            path: match self.path {
                Some(p) => Some(p@),
                None => None,
            },
        }
    }
}

/// The candidates for the visible list: the defaults, then the custom names.
pub open spec fn candidate_names(c: ConfigView) -> Seq<Seq<char>> {
    default_names() + c.custom
}

/// The visible list: every candidate that is not hidden, once, in candidate
/// order.
pub open spec fn available_names(c: ConfigView) -> Seq<Seq<char>> {
    keep_first(candidate_names(c), |n: Seq<char>| !c.hidden.contains(n))
}

/// The names that start checked: every available name when nothing was
/// remembered, else the remembered names that are still available, once each.
pub open spec fn initial_names(c: ConfigView) -> Seq<Seq<char>> {
    if c.enabled.len() == 0 {
        available_names(c)
    } else {
        keep_first(c.enabled, |n: Seq<char>| available_names(c).contains(n))
    }
}

/// The visible list holds each candidate that is not hidden, and nothing else,
/// exactly once.
pub proof fn lemma_available(c: ConfigView)
    ensures
        available_names(c).no_duplicates(),
        forall|n: Seq<char>| #[trigger]
            available_names(c).contains(n) <==> (candidate_names(c).contains(n)
                && !c.hidden.contains(n)),
{
    lemma_keep_first(candidate_names(c), |n: Seq<char>| !c.hidden.contains(n));
}

/// The visible defaults come first, in declared order; every custom name comes
/// after them.
pub proof fn lemma_defaults_first(c: ConfigView)
    ensures
        available_names(c).take(
            keep_first(default_names(), |n: Seq<char>| !c.hidden.contains(n)).len() as int,
        ) == keep_first(default_names(), |n: Seq<char>| !c.hidden.contains(n)),
        forall|i: int, j: int|
            0 <= i < j < available_names(c).len() && is_default_name(#[trigger] available_names(c)[j])
                ==> is_default_name(#[trigger] available_names(c)[i]),
{
    let keep = |n: Seq<char>| !c.hidden.contains(n);
    let a = default_names();
    lemma_keep_first_append(a, c.custom, keep);
    lemma_keep_first(a, keep);
    let av = available_names(c);
    let k = keep_first(a, keep).len() as int;
    assert forall|i: int, j: int|
        0 <= i < j < av.len() && is_default_name(#[trigger] av[j]) implies is_default_name(
        #[trigger] av[i],
    ) by {
        if j < k {
            assert(av.take(k)[i] == av[i]);
            assert(keep_first(a, keep).contains(av[i]));
        } else {
            assert(!a.contains(av[j]));
        }
    }
}

/// A name the user adds is visible afterwards: a hidden default is unhidden,
/// any other name is (or already was) custom.
pub proof fn lemma_added_is_available(c: ConfigView, name: Seq<char>)
    ensures
        available_names(config_after_add(c, name)).contains(name),
{
    let d = config_after_add(c, name);
    lemma_available(d);
    lemma_without(c.hidden, name);
    if is_default_name(name) {
        let i = choose|i: int| 0 <= i < default_names().len() && default_names()[i] == name;
        assert(candidate_names(d)[i] == name);
    } else if c.custom.contains(name) {
        let i = choose|i: int| 0 <= i < c.custom.len() && c.custom[i] == name;
        assert(candidate_names(d)[default_names().len() + i] == name);
    } else {
        assert(candidate_names(d)[(default_names().len() + c.custom.len()) as int] == name);
    }
}

/// Adding a name unhides that name only: every other name is hidden after
/// the addition exactly when it was hidden before, so a hidden name stays out
/// of the visible list when a different name is added.
pub proof fn lemma_add_keeps_others_hidden(c: ConfigView, name: Seq<char>, n: Seq<char>)
    requires
        n != name,
    ensures
        config_after_add(c, name).hidden.contains(n) <==> c.hidden.contains(n),
        c.hidden.contains(n) ==> !available_names(config_after_add(c, name)).contains(n),
        available_names(config_after_add(c, name)).contains(n) <==> available_names(c).contains(n),
{
    let d = config_after_add(c, name);
    lemma_without(c.hidden, name);
    crate::seqs::lemma_push_contains(c.custom, name);
    lemma_available(d);
    lemma_available(c);
    lemma_candidates_other(c, d, n);
}

/// Removing a name changes nothing for any other name: it is visible, and
/// remembered as checked, after the removal exactly when it was before.
pub proof fn lemma_remove_keeps_others(c: ConfigView, name: Seq<char>, n: Seq<char>)
    requires
        n != name,
    ensures
        available_names(config_after_remove(c, name)).contains(n) <==> available_names(c).contains(n),
        config_after_remove(c, name).enabled.contains(n) <==> c.enabled.contains(n),
        config_after_remove(c, name).custom.contains(n) <==> c.custom.contains(n),
        config_after_remove(c, name).hidden.contains(n) <==> c.hidden.contains(n),
{
    let d = config_after_remove(c, name);
    lemma_without(c.enabled, name);
    lemma_without(c.custom, name);
    crate::seqs::lemma_push_contains(c.hidden, name);
    lemma_available(d);
    lemma_available(c);
    lemma_candidates_other(c, d, n);
}

/// A name other than the changed one is a candidate of `d` exactly when it is
/// one of `c`, provided their custom lists agree on it.
proof fn lemma_candidates_other(c: ConfigView, d: ConfigView, n: Seq<char>)
    requires
        d.custom.contains(n) <==> c.custom.contains(n),
    ensures
        candidate_names(d).contains(n) <==> candidate_names(c).contains(n),
{
    lemma_candidates(c, n);
    lemma_candidates(d, n);
}

/// A name is a candidate exactly when it is a default or a custom name.
proof fn lemma_candidates(c: ConfigView, n: Seq<char>)
    ensures
        candidate_names(c).contains(n) <==> (default_names().contains(n) || c.custom.contains(n)),
{
    let all = candidate_names(c);
    let k = default_names().len();
    if all.contains(n) {
        let i = choose|i: int| 0 <= i < all.len() && all[i] == n;
        if i < k {
            assert(default_names()[i] == n);
        } else {
            assert(c.custom[i - k] == n);
        }
    }
    if default_names().contains(n) {
        let i = choose|i: int| 0 <= i < k && default_names()[i] == n;
        assert(all[i] == n);
    }
    if c.custom.contains(n) {
        let i = choose|i: int| 0 <= i < c.custom.len() && c.custom[i] == n;
        assert(all[k + i] == n);
    }
}

/// A name the user removes is no longer visible: it leaves the custom names,
/// and a default is hidden.
pub proof fn lemma_removed_is_gone(c: ConfigView, name: Seq<char>)
    ensures
        !available_names(config_after_remove(c, name)).contains(name),
{
    let d = config_after_remove(c, name);
    lemma_available(d);
    lemma_without(c.custom, name);
    if is_default_name(name) {
        if !c.hidden.contains(name) {
            assert(d.hidden[c.hidden.len() as int] == name);
        }
    } else {
        assert(!candidate_names(d).contains(name)) by {
            if candidate_names(d).contains(name) {
                let k = choose|k: int| 0 <= k < candidate_names(d).len() && candidate_names(d)[k] == name;
                if k < default_names().len() {
                    assert(default_names()[k] == name);
                } else {
                    assert(d.custom[k - default_names().len()] == name);
                    assert(d.custom.contains(name));
                }
            }
        }
    }
}

/// The names that start checked are available names, each once; with nothing
/// remembered they are all the available names.
pub proof fn lemma_initial_names(c: ConfigView)
    ensures
        initial_names(c).no_duplicates(),
        forall|n: Seq<char>| #[trigger] initial_names(c).contains(n) ==> available_names(c).contains(n),
        c.enabled.len() == 0 ==> initial_names(c) == available_names(c),
        c.enabled.len() > 0 ==> forall|n: Seq<char>| #[trigger] initial_names(c).contains(n) <==> (
        c.enabled.contains(n) && available_names(c).contains(n)),
{
    lemma_available(c);
    lemma_keep_first(c.enabled, |n: Seq<char>| available_names(c).contains(n));
}

/// Adding a name keeps the custom list free of duplicates and of defaults.
pub proof fn lemma_add_keeps_custom_clean(c: ConfigView, name: Seq<char>)
    requires
        c.custom.no_duplicates(),
        forall|n: Seq<char>| #[trigger] c.custom.contains(n) ==> !is_default_name(n),
    ensures
        config_after_add(c, name).custom.no_duplicates(),
        forall|n: Seq<char>| #[trigger] config_after_add(c, name).custom.contains(n) ==> !is_default_name(n),
{
    let d = config_after_add(c, name);
    if !is_default_name(name) && !c.custom.contains(name) {
        crate::seqs::lemma_push_contains(c.custom, name);
        assert forall|a: int, b: int| 0 <= a < d.custom.len() && 0 <= b < d.custom.len() && a != b
            implies d.custom[a] != d.custom[b] by {
            if a == c.custom.len() as int {
                assert(c.custom[b] == d.custom[b]);
            } else if b == c.custom.len() as int {
                assert(c.custom[a] == d.custom[a]);
            }
        }
    }
}

/// The configuration after the user adds `name`: it is unhidden, and it joins
/// the custom names unless it is a default or already there.
pub open spec fn config_after_add(c: ConfigView, name: Seq<char>) -> ConfigView {
    ConfigView {
        hidden: without(c.hidden, name),
        custom: if !is_default_name(name) && !c.custom.contains(name) {
            c.custom.push(name)
        } else {
            c.custom
        },
        ..c
    }
}

/// The configuration after the user removes `name`: it is no longer
/// remembered as checked, it leaves the custom names entirely, and a default
/// is hidden (once).
pub open spec fn config_after_remove(c: ConfigView, name: Seq<char>) -> ConfigView {
    ConfigView {
        enabled: without(c.enabled, name),
        custom: without(c.custom, name),
        hidden: if is_default_name(name) && !c.hidden.contains(name) {
            c.hidden.push(name)
        } else {
            c.hidden
        },
        ..c
    }
}

/// The configuration remembering `enabled` as the checked names.
pub open spec fn config_with_enabled(c: ConfigView, enabled: Seq<Seq<char>>) -> ConfigView {
    ConfigView { enabled: enabled, ..c }
}

/// Appends the names of `from` that are not hidden and not yet in `out`.
fn push_visible(out: &mut Vec<TargetName>, from: &Vec<TargetName>, hidden: &Vec<TargetName>, Ghost(seen): Ghost<Seq<Seq<char>>>)
    requires
        name_views(old(out)@) == keep_first(seen, |n: Seq<char>| !name_views(hidden@).contains(n)),
    ensures
        name_views(final(out)@) == keep_first(
            seen + name_views(from@),
            |n: Seq<char>| !name_views(hidden@).contains(n),
        ),
{
    let ghost keep = |n: Seq<char>| !name_views(hidden@).contains(n);
    let ghost all = seen + name_views(from@);
    assert(all.take(seen.len() as int) =~= seen);
    let mut i: usize = 0;
    while i < from.len()
        invariant
            i <= from.len(),
            keep == (|n: Seq<char>| !name_views(hidden@).contains(n)),
            all == seen + name_views(from@),
            name_views(out@) == keep_first(all.take(seen.len() + i), keep),
        decreases from.len() - i,
    {
        proof {
            assert(all.take(seen.len() + i + 1).drop_last() =~= all.take(seen.len() + i));
            assert(all.take(seen.len() + i + 1).last() == from@[i as int]@);
        }
        let name = &from[i];
        if !contains_name(hidden, name) && !contains_name(out, name) {
            let ghost before = out@;
            out.push(name.clone());
            assert(name_views(out@) =~= name_views(before).push(name@));
        }
        i = i + 1;
    }
    assert(all.take(seen.len() + from.len()) =~= all);
}

impl Default for Config {
    /// An in-memory configuration with nothing added, hidden or remembered.
    fn default() -> (r: Config)
        ensures
            r@.custom.len() == 0,
            r@.hidden.len() == 0,
            r@.enabled.len() == 0,
            r@.path is None,
    {
        Config {
            targets: TargetSettings { custom: Vec::new(), hidden: Vec::new(), enabled: Vec::new() },
            path: None,
        }
    }
}

impl Config {

    /// The configuration that lives at `path`: what was stored there, or a
    /// fresh one when nothing was stored yet.
    pub fn load(path: String, stored: Option<TargetSettings>) -> (r: Config)
        ensures
            r@.path == Some(path@),
            match stored {
                Some(s) => {
                    &&& r@.custom == name_views(s.custom@)
                    &&& r@.hidden == name_views(s.hidden@)
                    &&& r@.enabled == name_views(s.enabled@)
                },
                None => r@.custom.len() == 0 && r@.hidden.len() == 0 && r@.enabled.len() == 0,
            },
    {
        match stored {
            Some(targets) => Config { targets, path: Some(path) },
            None => {
                let mut c = Config::default();
                c.path = Some(path);
                c
            },
        }
    }

    /// The names to show in the dashboard: defaults then custom, minus hidden,
    /// de-duplicated, in a stable order.
    pub fn available(&self) -> (r: Vec<TargetName>)
        ensures
            name_views(r@) == available_names(self@),
    {
        let defaults = default_targets();
        let mut out: Vec<TargetName> = Vec::new();
        proof {
            assert(name_views(out@) =~= keep_first(
                Seq::<Seq<char>>::empty(),
                |n: Seq<char>| !name_views(self.targets.hidden@).contains(n),
            ));
        }
        push_visible(&mut out, &defaults, &self.targets.hidden, Ghost(Seq::empty()));
        assert(Seq::<Seq<char>>::empty() + default_names() =~= default_names());
        push_visible(&mut out, &self.targets.custom, &self.targets.hidden, Ghost(default_names()));
        out
    }

    /// The names that should start checked: the remembered selection, or every
    /// available name on first run.
    pub fn initial_enabled(&self) -> (r: Vec<TargetName>)
        ensures
            name_views(r@) == initial_names(self@),
    {
        let available = self.available();
        if self.targets.enabled.len() == 0 {
            return available;
        }
        let ghost keep = |n: Seq<char>| available_names(self@).contains(n);
        let ghost all = name_views(self.targets.enabled@);
        let mut out: Vec<TargetName> = Vec::new();
        let mut i: usize = 0;
        while i < self.targets.enabled.len()
            invariant
                i <= self.targets.enabled.len(),
                keep == (|n: Seq<char>| available_names(self@).contains(n)),
                all == name_views(self.targets.enabled@),
                name_views(available@) == available_names(self@),
                name_views(out@) == keep_first(all.take(i as int), keep),
            decreases self.targets.enabled.len() - i,
        {
            proof {
                assert(all.take(i + 1).drop_last() =~= all.take(i as int));
                assert(all.take(i + 1).last() == self.targets.enabled@[i as int]@);
            }
            let name = &self.targets.enabled[i];
            if contains_name(&available, name) && !contains_name(&out, name) {
                let ghost before = out@;
                out.push(name.clone());
                assert(name_views(out@) =~= name_views(before).push(name@));
            }
            i = i + 1;
        }
        assert(all.take(i as int) =~= all);
        out
    }

    /// Add a user name kept across runs. Re-adding a hidden default just unhides
    /// it; duplicates are ignored.
    pub fn add_custom(&mut self, name: TargetName)
        ensures
            final(self)@ == config_after_add(old(self)@, name@),
    {
        let kept = retain_other(&self.targets.hidden, &name);
        self.targets.hidden = kept;
        if !name.is_default() && !contains_name(&self.targets.custom, &name) {
            let ghost before = self.targets.custom@;
            self.targets.custom.push(name);
            assert(name_views(self.targets.custom@) =~= name_views(before).push(name@));
        }
    }

    /// Remove a name from the visible list. A default is hidden (re-addable); a
    /// custom name is dropped entirely.
    pub fn remove(&mut self, name: &TargetName)
        ensures
            final(self)@ == config_after_remove(old(self)@, name@),
    {
        let enabled = retain_other(&self.targets.enabled, name);
        self.targets.enabled = enabled;
        let custom = retain_other(&self.targets.custom, name);
        self.targets.custom = custom;
        if name.is_default() && !contains_name(&self.targets.hidden, name) {
            let ghost before = self.targets.hidden@;
            self.targets.hidden.push(name.clone());
            assert(name_views(self.targets.hidden@) =~= name_views(before).push(name@));
        }
    }

    /// Remember which names the user has checked for next time.
    pub fn set_enabled(&mut self, enabled: Vec<TargetName>)
        ensures
            final(self)@ == config_with_enabled(old(self)@, name_views(enabled@)),
    {
        self.targets.enabled = enabled;
    }
}

/// The names of `names` whose text differs from `name`, in order.
fn retain_other(names: &Vec<TargetName>, name: &TargetName) -> (r: Vec<TargetName>)
    ensures
        name_views(r@) == without(name_views(names@), name@),
{
    let ghost all = name_views(names@);
    let mut out: Vec<TargetName> = Vec::new();
    let mut i: usize = 0;
    while i < names.len()
        invariant
            i <= names.len(),
            all == name_views(names@),
            name_views(out@) == without(all.take(i as int), name@),
        decreases names.len() - i,
    {
        proof {
            assert(all.take(i + 1).drop_last() =~= all.take(i as int));
            assert(all.take(i + 1).last() == names@[i as int]@);
        }
        if !names[i].same_as(name) {
            let ghost before = out@;
            out.push(names[i].clone());
            assert(name_views(out@) =~= name_views(before).push(names@[i as int]@));
        }
        i = i + 1;
    }
    assert(all.take(i as int) =~= all);
    out
}

} // verus!
