//! Removing the selected directories: to the system trash by default, or
//! permanently when the user opts in. One failure never aborts the batch.
//!
//! The removal itself is the program's work; this module decides what may be
//! removed and keeps the account of a run.

use vstd::prelude::*;

use crate::report::FoundDir;

verus! {

/// How a deletion is carried out.
#[derive(Clone, Copy, Debug, PartialEq, Eq, Structural)]
pub enum Disposal {
    /// Move to the OS trash/recycle bin so it can be restored.
    Trash,
    /// Remove for good with no recovery.
    Permanent,
}

impl Default for Disposal {
    fn default() -> (r: Disposal)
        ensures
            r == Disposal::Trash,
    {
        Disposal::Trash
    }
}

/// Whether `base` is a prefix of `path`, comparing whole path components, as
/// `std::path::Path::starts_with` decides it on the platform the program is
/// built for (Unix and Windows split components differently).
pub uninterp spec fn path_starts_with(path: Seq<char>, base: Seq<char>) -> bool;

/// Calls `std::path::Path::starts_with`. Claimed: the answer depends on the two
/// texts alone, and a path starts with itself. How components are split and
/// normalised is not stated.
#[verifier::external_body]
fn path_has_prefix(path: &str, base: &str) -> (r: bool)
    ensures
        r == path_starts_with(path@, base@),
        path@ == base@ ==> r,
{
    std::path::Path::new(path).starts_with(base)
}

/// True if removing `path` would also remove the scan root (it equals the root
/// or is one of its ancestors).
pub fn guards_root(path: &str, root: &str) -> (r: bool)
    ensures
        r == path_starts_with(root@, path@),
        path@ == root@ ==> r,
{
    path_has_prefix(root, path)
}

/// Which of `dirs` may be handed to the remover: those that do not guard the
/// scan root `root`.
pub fn removable(dirs: &[&FoundDir], root: &str) -> (r: Vec<bool>)
    ensures
        r@.len() == dirs@.len(),
        forall|i: int| 0 <= i < dirs@.len() ==> #[trigger] r@[i] == !path_starts_with(
            root@,
            dirs@[i].path@,
        ),
{
    let mut plan: Vec<bool> = Vec::new();
    let mut i: usize = 0;
    while i < dirs.len()
        invariant
            i <= dirs@.len(),
            plan@.len() == i,
            forall|j: int| 0 <= j < i ==> #[trigger] plan@[j] == !path_starts_with(
                root@,
                dirs@[j].path@,
            ),
        decreases dirs.len() - i,
    {
        let guarded = guards_root(&dirs[i].path, root);
        plan.push(!guarded);
        i = i + 1;
    }
    plan
}

/// The bytes a run over `dirs` under `root` frees, given what removing each
/// removable dir gave, or `None` when that total does not fit in a `u64`.
pub fn freed_total(dirs: &[&FoundDir], root: &str, removals: &[Result<(), String>]) -> (r:
    Option<u64>)
    requires
        removals@.len() == dirs@.len(),
    ensures
        match r {
            Some(f) => f == dispose_outcome(deref_dirs(dirs@), root@, removals@).freed,
            None => dispose_outcome(deref_dirs(dirs@), root@, removals@).freed > u64::MAX,
        },
{
    let ghost all = deref_dirs(dirs@);
    let ghost flags = guard_flags(all, root@);
    let mut total: u64 = 0;
    let mut i: usize = 0;
    while i < dirs.len()
        invariant
            i <= dirs@.len(),
            removals@.len() == dirs@.len(),
            all == deref_dirs(dirs@),
            flags == guard_flags(all, root@),
            total == tally_outcome(all.take(i as int), flags.take(i as int), removals@.take(i as int)).freed,
        decreases dirs.len() - i,
    {
        let dir = dirs[i];
        proof {
            let t = all.take(i + 1);
            assert(t.drop_last() =~= all.take(i as int));
            assert(flags.take(i + 1).take(i as int) =~= flags.take(i as int));
            assert(removals@.take(i + 1).take(i as int) =~= removals@.take(i as int));
            assert(t.last() == *dir);
            assert(flags.take(i + 1)[i as int] == flags[i as int]);
            assert(removals@.take(i + 1)[i as int] == removals@[i as int]);
            lemma_freed_prefix_le(all, flags, removals@, i + 1);
        }
        if !guards_root(&dir.path, root) {
            if let Ok(()) = &removals[i] {
                match total.checked_add(dir.size) {
                    Some(t) => total = t,
                    None => return None,
                }
            }
        }
        i = i + 1;
    }
    proof {
        assert(all.take(i as int) =~= all);
        assert(flags.take(i as int) =~= flags);
        assert(removals@.take(i as int) =~= removals@);
    }
    Some(total)
}

/// The message recorded for a dir that guards the scan root.
pub open spec fn refusal_message() -> Seq<char> {
    "refusing to delete the scan root"@
}

/// What happened during a [`Disposal::dispose`] run.
pub struct Outcome {
    pub freed_bytes: u64,
    pub removed: usize,
    pub failures: Vec<(String, String)>,
}

/// An outcome as numbers and texts.
pub struct OutcomeView {
    pub freed: nat,
    pub removed: nat,
    pub failures: Seq<(Seq<char>, Seq<char>)>,
}

/// The texts of failures.
pub open spec fn failure_views(fs: Seq<(String, String)>) -> Seq<(Seq<char>, Seq<char>)> {
    fs.map_values(|f: (String, String)| (f.0@, f.1@))
}

impl View for Outcome {
    type V = OutcomeView;

    open spec fn view(&self) -> OutcomeView {
        OutcomeView {
            freed: self.freed_bytes as nat,
            removed: self.removed as nat,
            failures: failure_views(self.failures@),
        }
    }
}

/// The account of a run over `dirs`, where `guarded[i]` tells whether
/// `dirs[i]` guards the scan root and `removals[i]` is what removing it gave: a
/// guarded dir is refused whatever its entry says; the others are removed or
/// failed as their entry says.
pub open spec fn tally_outcome(
    dirs: Seq<FoundDir>,
    guarded: Seq<bool>,
    removals: Seq<Result<(), String>>,
) -> OutcomeView
    decreases dirs.len(),
{
    if dirs.len() == 0 {
        OutcomeView { freed: 0, removed: 0, failures: Seq::empty() }
    } else {
        let n = dirs.len() - 1;
        let before = tally_outcome(dirs.drop_last(), guarded.take(n), removals.take(n));
        let d = dirs.last();
        if guarded[n] {
            OutcomeView {
                failures: before.failures.push((d.path@, refusal_message())),
                ..before
            }
        } else {
            match removals[n] {
                Ok(_) => OutcomeView {
                    freed: before.freed + d.size as nat,
                    removed: before.removed + 1,
                    ..before
                },
                Err(message) => OutcomeView {
                    failures: before.failures.push((d.path@, message@)),
                    ..before
                },
            }
        }
    }
}

/// Whether each dir guards `root`.
pub open spec fn guard_flags(dirs: Seq<FoundDir>, root: Seq<char>) -> Seq<bool> {
    dirs.map_values(|d: FoundDir| path_starts_with(root, d.path@))
}

/// The account of a run over `dirs` under scan root `root`.
pub open spec fn dispose_outcome(
    dirs: Seq<FoundDir>,
    root: Seq<char>,
    removals: Seq<Result<(), String>>,
) -> OutcomeView {
    tally_outcome(dirs, guard_flags(dirs, root), removals)
}

/// The dirs that references point to.
pub open spec fn deref_dirs(dirs: Seq<&FoundDir>) -> Seq<FoundDir> {
    dirs.map_values(|d: &FoundDir| *d)
}

impl Default for Outcome {
    fn default() -> (r: Outcome)
        ensures
            r@.freed == 0,
            r@.removed == 0,
            r@.failures.len() == 0,
    {
        Outcome { freed_bytes: 0, removed: 0, failures: Vec::new() }
    }
}

impl Outcome {
    /// Count one removed dir of `size` bytes.
    pub fn succeed(&mut self, size: u64)
        requires
            old(self).freed_bytes + size <= u64::MAX,
            old(self).removed < usize::MAX,
        ensures
            final(self)@.freed == old(self)@.freed + size,
            final(self)@.removed == old(self)@.removed + 1,
            final(self)@.failures == old(self)@.failures,
    {
        self.freed_bytes = self.freed_bytes + size;
        self.removed = self.removed + 1;
    }

    /// Record that `path` could not be removed, and why.
    pub fn fail(&mut self, path: &str, message: &str)
        ensures
            final(self)@.freed == old(self)@.freed,
            final(self)@.removed == old(self)@.removed,
            final(self)@.failures == old(self)@.failures.push((path@, message@)),
    {
        let ghost before = self.failures@;
        self.failures.push((path.to_owned(), message.to_owned()));
        assert(failure_views(self.failures@) =~= failure_views(before).push((path@, message@)));
    }
}

impl Disposal {
    pub fn label(self) -> (r: &'static str)
        ensures
            self == Disposal::Trash ==> r@ == "trash"@,
            self == Disposal::Permanent ==> r@ == "permanent"@,
    {
        match self {
            Disposal::Trash => "trash",
            Disposal::Permanent => "permanent",
        }
    }

    /// The account of disposing of `dirs`: `removals[i]` is what removing
    /// `dirs[i]` gave. A dir that equals `root` or is one of its ancestors is
    /// never to be removed; it is recorded as refused, whatever its entry says.
    pub fn dispose(self, dirs: &[&FoundDir], root: &str, removals: &[Result<(), String>]) -> (r:
        Outcome)
        requires
            removals@.len() == dirs@.len(),
            dispose_outcome(deref_dirs(dirs@), root@, removals@).freed <= u64::MAX,
        ensures
            r@ == dispose_outcome(deref_dirs(dirs@), root@, removals@),
            forall|i: int|
                0 <= i < dirs@.len() && (#[trigger] dirs@[i]).path@ == root@ ==> r@.failures.contains(
                    (root@, refusal_message()),
                ),
    {
        let ghost all = deref_dirs(dirs@);
        let mut guarded: Vec<bool> = Vec::new();
        let mut i: usize = 0;
        while i < dirs.len()
            invariant
                i <= dirs@.len(),
                all == deref_dirs(dirs@),
                guarded@ == guard_flags(all, root@).take(i as int),
                forall|j: int| 0 <= j < i && (#[trigger] dirs@[j]).path@ == root@ ==> guarded@[j],
            decreases dirs.len() - i,
        {
            let g = guards_root(&dirs[i].path, root);
            let ghost before = guarded@;
            guarded.push(g);
            assert(guarded@ =~= guard_flags(all, root@).take(i + 1));
            i = i + 1;
        }
        assert(guarded@ =~= guard_flags(all, root@));
        let r = tally(dirs, &guarded, removals);
        proof {
            assert forall|i: int|
                0 <= i < dirs@.len() && (#[trigger] dirs@[i]).path@ == root@ implies r@.failures.contains(
                (root@, refusal_message()),
            ) by {
                lemma_guarded_is_refused(all, guarded@, removals@, i);
                assert(all[i] == *dirs@[i]);
            }
        }
        r
    }
}

/// The account of a run over `dirs`, given for each dir whether it guards the
/// scan root and what removing it gave.
pub fn tally(dirs: &[&FoundDir], guarded: &[bool], removals: &[Result<(), String>]) -> (r: Outcome)
    requires
        guarded@.len() == dirs@.len(),
        removals@.len() == dirs@.len(),
        tally_outcome(deref_dirs(dirs@), guarded@, removals@).freed <= u64::MAX,
    ensures
        r@ == tally_outcome(deref_dirs(dirs@), guarded@, removals@),
{
    let ghost all = deref_dirs(dirs@);
    let mut outcome = Outcome::default();
    let mut i: usize = 0;
    proof {
        assert(outcome@.failures =~= Seq::<(Seq<char>, Seq<char>)>::empty());
        assert(all.take(0) =~= Seq::<FoundDir>::empty());
    }
    while i < dirs.len()
        invariant
            i <= dirs@.len(),
            guarded@.len() == dirs@.len(),
            removals@.len() == dirs@.len(),
            all == deref_dirs(dirs@),
            tally_outcome(all, guarded@, removals@).freed <= u64::MAX,
            outcome@ == tally_outcome(all.take(i as int), guarded@.take(i as int), removals@.take(i as int)),
            outcome@.removed <= i,
        decreases dirs.len() - i,
    {
        let dir = dirs[i];
        proof {
            let t = all.take(i + 1);
            assert(t.drop_last() =~= all.take(i as int));
            assert(guarded@.take(i + 1).take(i as int) =~= guarded@.take(i as int));
            assert(removals@.take(i + 1).take(i as int) =~= removals@.take(i as int));
            assert(t.last() == *dir);
            assert(guarded@.take(i + 1)[i as int] == guarded@[i as int]);
            assert(removals@.take(i + 1)[i as int] == removals@[i as int]);
            lemma_freed_prefix_le(all, guarded@, removals@, i + 1);
        }
        if guarded[i] {
            outcome.fail(dir.path.as_str(), "refusing to delete the scan root");
            proof {
                reveal_strlit("refusing to delete the scan root");
            }
        } else {
            match &removals[i] {
                Ok(()) => outcome.succeed(dir.size),
                Err(message) => outcome.fail(dir.path.as_str(), message.as_str()),
            }
        }
        i = i + 1;
    }
    proof {
        assert(all.take(i as int) =~= all);
        assert(guarded@.take(i as int) =~= guarded@);
        assert(removals@.take(i as int) =~= removals@);
    }
    outcome
}

/// A dir marked as guarding the root is recorded as refused.
pub proof fn lemma_guarded_is_refused(
    dirs: Seq<FoundDir>,
    guarded: Seq<bool>,
    removals: Seq<Result<(), String>>,
    i: int,
)
    requires
        guarded.len() == dirs.len(),
        removals.len() == dirs.len(),
        0 <= i < dirs.len(),
        guarded[i],
    ensures
        tally_outcome(dirs, guarded, removals).failures.contains((dirs[i].path@, refusal_message())),
    decreases dirs.len(),
{
    let n = dirs.len() - 1;
    let before = tally_outcome(dirs.drop_last(), guarded.take(n), removals.take(n));
    if i == n {
        crate::seqs::lemma_push_contains(before.failures, (dirs[i].path@, refusal_message()));
    } else {
        lemma_guarded_is_refused(dirs.drop_last(), guarded.take(n), removals.take(n), i);
        let d = dirs.last();
        if !guarded[n] {
            if let Err(message) = removals[n] {
                crate::seqs::lemma_push_contains(before.failures, (d.path@, message@));
            }
        } else {
            crate::seqs::lemma_push_contains(before.failures, (d.path@, refusal_message()));
        }
    }
}

/// The bytes freed over a prefix of the run are no more than over all of it.
proof fn lemma_freed_prefix_le(
    dirs: Seq<FoundDir>,
    guarded: Seq<bool>,
    removals: Seq<Result<(), String>>,
    i: int,
)
    requires
        0 <= i <= dirs.len(),
        guarded.len() == dirs.len(),
        removals.len() == dirs.len(),
    ensures
        tally_outcome(dirs.take(i), guarded.take(i), removals.take(i)).freed <= tally_outcome(
            dirs,
            guarded,
            removals,
        ).freed,
    decreases dirs.len(),
{
    if i == dirs.len() {
        assert(dirs.take(i) =~= dirs);
        assert(guarded.take(i) =~= guarded);
        assert(removals.take(i) =~= removals);
    } else {
        let n = dirs.len() - 1;
        assert(dirs.drop_last().take(i) =~= dirs.take(i));
        assert(guarded.take(n).take(i) =~= guarded.take(i));
        assert(removals.take(n).take(i) =~= removals.take(i));
        lemma_freed_prefix_le(dirs.drop_last(), guarded.take(n), removals.take(n), i);
    }
}

/// Every dir of a run is accounted for exactly once: removed, or recorded as a
/// failure. One failure never stops the others.
pub proof fn lemma_every_dir_accounted(
    dirs: Seq<FoundDir>,
    guarded: Seq<bool>,
    removals: Seq<Result<(), String>>,
)
    requires
        guarded.len() == dirs.len(),
        removals.len() == dirs.len(),
    ensures
        tally_outcome(dirs, guarded, removals).removed + tally_outcome(
            dirs,
            guarded,
            removals,
        ).failures.len() == dirs.len(),
    decreases dirs.len(),
{
    if dirs.len() > 0 {
        let n = dirs.len() - 1;
        lemma_every_dir_accounted(dirs.drop_last(), guarded.take(n), removals.take(n));
    }
}

/// The total size of the dirs that do not guard the root and whose removal
/// succeeded.
pub open spec fn removed_size(
    dirs: Seq<FoundDir>,
    guarded: Seq<bool>,
    removals: Seq<Result<(), String>>,
) -> nat
    decreases dirs.len(),
{
    if dirs.len() == 0 {
        0
    } else {
        let n = dirs.len() - 1;
        let before = removed_size(dirs.drop_last(), guarded.take(n), removals.take(n));
        if !guarded[n] && removals[n] is Ok {
            before + dirs.last().size as nat
        } else {
            before
        }
    }
}

/// A dir that guards the root is never removed and frees nothing: the bytes
/// freed are those of the dirs that do not guard the root and whose removal
/// succeeded.
pub proof fn lemma_freed_counts_removed_only(
    dirs: Seq<FoundDir>,
    guarded: Seq<bool>,
    removals: Seq<Result<(), String>>,
)
    requires
        guarded.len() == dirs.len(),
        removals.len() == dirs.len(),
    ensures
        tally_outcome(dirs, guarded, removals).freed == removed_size(dirs, guarded, removals),
    decreases dirs.len(),
{
    if dirs.len() > 0 {
        let n = dirs.len() - 1;
        lemma_freed_counts_removed_only(dirs.drop_last(), guarded.take(n), removals.take(n));
    }
}

} // verus!
