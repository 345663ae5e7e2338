//! The directory names `byteback` knows how to sweep.

use vstd::prelude::*;
use vstd::string::*;

use crate::seqs::{keep_first, lemma_keep_first};

verus! {

/// A directory name worth reclaiming, e.g. `node_modules` or `.next`.
///
/// A newtype rather than a bare `String` so signatures read as intent
/// (`config.remove(name)`, `lookup(&targets)`) instead of "some string".
#[derive(Debug, PartialEq, Eq, Hash, PartialOrd, Ord)]
pub struct TargetName(String);

impl View for TargetName {
    type V = Seq<char>;

    closed spec fn view(&self) -> Seq<char> {
        self.0@
    }
}

impl Clone for TargetName {
    fn clone(&self) -> (r: Self)
        ensures
            r == *self,
    {
        TargetName(self.0.clone())
    }
}

/// The built-in names offered out of the box, in declared order. Users hide any
/// of these and add their own through the configuration; the two are merged
/// into the list shown in the dashboard.
pub open spec fn default_names() -> Seq<Seq<char>> {
    seq![
        "node_modules"@,
        "dist"@,
        "build"@,
        ".next"@,
        ".turbo"@,
        "target"@,
        ".cache"@,
        ".parcel-cache"@,
        ".svelte-kit"@,
        ".nuxt"@,
        "coverage"@,
        "__pycache__"@,
    ]
}

/// True when `name` is one of the built-in names.
pub open spec fn is_default_name(name: Seq<char>) -> bool {
    default_names().contains(name)
}

/// The views of a sequence of names.
pub open spec fn name_views(names: Seq<TargetName>) -> Seq<Seq<char>> {
    names.map_values(|n: TargetName| n@)
}

impl TargetName {
    /// A name with the given text.
    pub fn new(text: &str) -> (r: TargetName)
        ensures
            r@ == text@,
    {
        TargetName(String::from_str(text))
    }

    pub fn as_str(&self) -> (r: &str)
        ensures
            r@ == self@,
    {
        self.0.as_str()
    }

    /// The name as an owned string.
    pub fn to_string(&self) -> (r: String)
        ensures
            r@ == self@,
    {
        self.0.clone()
    }

    /// True when both names have the same text.
    pub fn same_as(&self, other: &TargetName) -> (r: bool)
        ensures
            r == (self@ == other@),
    {
        self.0 == other.0
    }

    /// True if this name is one of the built-in defaults.
    pub fn is_default(&self) -> (r: bool)
        ensures
            r == is_default_name(self@),
    {
        let defaults = default_targets();
        let mut i: usize = 0;
        while i < defaults.len()
            invariant
                i <= defaults.len(),
                name_views(defaults@) == default_names(),
                forall|j: int| 0 <= j < i ==> defaults@[j]@ != self@,
            decreases defaults.len() - i,
        {
            if defaults[i].same_as(self) {
                assert(default_names()[i as int] == self@);
                return true;
            }
            i = i + 1;
        }
        assert forall|j: int| 0 <= j < default_names().len() implies default_names()[j] != self@ by {
            assert(defaults@[j]@ == default_names()[j]);
        }
        false
    }
}

impl From<String> for TargetName {
    fn from(value: String) -> (r: Self)
        ensures
            r@ == value@,
    {
        TargetName(value)
    }
}

impl vstd::std_specs::convert::FromSpecImpl<String> for TargetName {
    closed spec fn obeys_from_spec() -> bool {
        true
    }

    closed spec fn from_spec(v: String) -> Self {
        TargetName(v)
    }
}

impl<'a> From<&'a str> for TargetName {
    fn from(value: &'a str) -> (r: Self)
        ensures
            r@ == value@,
    {
        TargetName(String::from_str(value))
    }
}

impl<'a> vstd::std_specs::convert::FromSpecImpl<&'a str> for TargetName {
    closed spec fn obeys_from_spec() -> bool {
        false
    }

    closed spec fn from_spec(v: &'a str) -> Self {
        vstd::pervasive::arbitrary()
    }
}

/// The built-in defaults as owned names, in declared order.
pub fn default_targets() -> (r: Vec<TargetName>)
    ensures
        name_views(r@) == default_names(),
{
    let r = vec![
        TargetName::new("node_modules"),
        TargetName::new("dist"),
        TargetName::new("build"),
        TargetName::new(".next"),
        TargetName::new(".turbo"),
        TargetName::new("target"),
        TargetName::new(".cache"),
        TargetName::new(".parcel-cache"),
        TargetName::new(".svelte-kit"),
        TargetName::new(".nuxt"),
        TargetName::new("coverage"),
        TargetName::new("__pycache__"),
    ];
    assert(name_views(r@) =~= default_names());
    r
}

/// True when some name in `names` has the text of `name`.
pub fn contains_name(names: &Vec<TargetName>, name: &TargetName) -> (r: bool)
    ensures
        r == name_views(names@).contains(name@),
{
    let mut i: usize = 0;
    while i < names.len()
        invariant
            i <= names.len(),
            forall|j: int| 0 <= j < i ==> names@[j]@ != name@,
        decreases names.len() - i,
    {
        if names[i].same_as(name) {
            assert(name_views(names@)[i as int] == name@);
            return true;
        }
        i = i + 1;
    }
    assert forall|j: int| 0 <= j < name_views(names@).len() implies name_views(names@)[j]
        != name@ by {
        assert(name_views(names@)[j] == names@[j]@);
    }
    false
}

/// The texts of a sequence of strings.
pub open spec fn string_views(strings: Seq<String>) -> Seq<Seq<char>> {
    strings.map_values(|s: String| s@)
}

/// True for every text: the filter of a plain de-duplication.
pub open spec fn any_text(t: Seq<char>) -> bool {
    true
}

/// A lookup collection of the enabled names, for matching directory names
/// during a scan: each name's text once, in the order of `targets`.
pub fn lookup(targets: &[TargetName]) -> (r: Vec<String>)
    ensures
        string_views(r@) == keep_first(name_views(targets@), |t: Seq<char>| any_text(t)),
        string_views(r@).no_duplicates(),
        string_views(r@).to_set() == name_views(targets@).to_set(),
{
    let ghost all = name_views(targets@);
    let ghost keep = |t: Seq<char>| any_text(t);
    let mut r: Vec<String> = Vec::new();
    let mut i: usize = 0;
    while i < targets.len()
        invariant
            i <= targets.len(),
            all == name_views(targets@),
            keep == (|t: Seq<char>| any_text(t)),
            string_views(r@) == keep_first(all.take(i as int), keep),
        decreases targets.len() - i,
    {
        let name = &targets[i];
        let mut seen = false;
        let mut j: usize = 0;
        while j < r.len()
            invariant
                j <= r.len(),
                !seen ==> forall|k: int| 0 <= k < j ==> r@[k]@ != name@,
                seen ==> string_views(r@).contains(name@),
            decreases r.len() - j,
        {
            if r[j] == name.0 {
                seen = true;
                assert(string_views(r@)[j as int] == name@);
            }
            j = j + 1;
        }
        proof {
            if !seen {
                assert forall|k: int| 0 <= k < string_views(r@).len() implies string_views(
                    r@,
                )[k] != name@ by {
                    assert(string_views(r@)[k] == r@[k]@);
                }
            }
            assert(all.take(i + 1).drop_last() =~= all.take(i as int));
            assert(all.take(i + 1).last() == name@);
        }
        if !seen {
            let ghost before = r@;
            r.push(name.0.clone());
            assert(string_views(r@) =~= string_views(before).push(name@));
        }
        i = i + 1;
    }
    proof {
        assert(all.take(targets.len() as int) =~= all);
        lemma_keep_first(all, keep);
        assert(string_views(r@).to_set() =~= all.to_set());
    }
    r
}

} // verus!
