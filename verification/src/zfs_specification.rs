//! The declared state of a pool: datasets with the properties they should have, and glob
//! patterns of datasets and properties that the plan leaves alone.

use vstd::prelude::*;

use crate::keyed::{has_key, keys_of, keys_unique, lookup, KeyedList};
use crate::prefix_paths::{prefix_paths, PrefixPaths};
use crate::property::{
    Duplicate, PropertySource, PropertyValue, PropertyValueView, SourceView,
};

verus! {

/// Whether `glob::Pattern::new` accepts the pattern text.
pub uninterp spec fn glob_valid(pattern: Seq<char>) -> bool;

/// Whether `glob::Pattern::matches`, with the default options, matches `candidate`
/// against the pattern compiled from the text `pattern`.
pub uninterp spec fn glob_match(pattern: Seq<char>, candidate: Seq<char>) -> bool;

/// The error that `glob::Pattern::new` reports for a pattern it refuses; opaque here.
#[verifier::external_type_specification]
#[verifier::external_body]
pub struct ExPatternError(glob::PatternError);

/// Compiles a glob pattern with `glob::Pattern::new`, keeping only whether it compiled
/// and, where it did not, the error that `glob` reports. Claims that the outcome is `Ok`
/// exactly for the pattern texts that `glob_valid` names.
#[verifier::external_body]
fn compile_glob(text: &str) -> (r: Result<(), glob::PatternError>)
    ensures
        r is Ok == glob_valid(text@),
{
    glob::Pattern::new(text).map(|_| ())
}

/// Matches `candidate` with `glob::Pattern::matches` against the pattern compiled from
/// `text` by `glob::Pattern::new` (which, for a text that `glob_valid` accepts, compiles).
/// Claims that the answer is the one that `glob_match` names for the two texts.
#[verifier::external_body]
fn glob_matches(text: &str, candidate: &str) -> (r: bool)
    requires
        glob_valid(text@),
    ensures
        r == glob_match(text@, candidate@),
{
    match glob::Pattern::new(text) {
        Ok(pattern) => pattern.matches(candidate),
        Err(_) => false,
    }
}

/// A glob pattern text that `glob` compiles.
#[derive(Debug)]
pub struct GlobPattern {
    text: String,
}

impl View for GlobPattern {
    type V = Seq<char>;

    closed spec fn view(&self) -> Seq<char> {
        self.text@
    }
}

impl GlobPattern {
    #[verifier::type_invariant]
    closed spec fn compiles(&self) -> bool {
        glob_valid(self.text@)
    }

    /// The pattern `text`, or the error that `glob` reports for it.
    pub fn new(text: &str) -> (r: Result<GlobPattern, glob::PatternError>)
        ensures
            r is Ok == glob_valid(text@),
            r matches Ok(p) ==> p@ == text@,
    {
        match compile_glob(text) {
            Ok(()) => Ok(GlobPattern { text: crate::text::owned(text) }),
            Err(e) => Err(e),
        }
    }

    /// The pattern text.
    pub fn as_str(&self) -> (r: &str)
        ensures
            r@ == self@,
    {
        self.text.as_str()
    }

    /// Whether `candidate` matches the pattern.
    pub fn matches(&self, candidate: &str) -> (r: bool)
        ensures
            r == glob_match(self@, candidate@),
    {
        proof {
            use_type_invariant(self);
        }
        glob_matches(self.text.as_str(), candidate)
    }
}

/// Whether some pattern of `patterns` matches `name`.
pub open spec fn matches_any(patterns: Seq<Seq<char>>, name: Seq<char>) -> bool {
    exists|i: int| 0 <= i < patterns.len() && glob_match(#[trigger] patterns[i], name)
}

/// Whether some pattern of `patterns` matches `name`.
pub fn matches_any_pattern(patterns: &Vec<GlobPattern>, name: &str) -> (r: bool)
    ensures
        r == matches_any(patterns@.map_values(|p: GlobPattern| p@), name@),
{
    let ghost texts = patterns@.map_values(|p: GlobPattern| p@);
    let n = patterns.len();
    let mut i: usize = 0;
    while i < n
        invariant
            n == patterns@.len(),
            texts == patterns@.map_values(|p: GlobPattern| p@),
            i <= n,
            forall|j: int| 0 <= j < i ==> !glob_match(#[trigger] texts[j], name@),
        decreases n - i,
    {
        if patterns[i].matches(name) {
            assert(glob_match(texts[i as int], name@));
            return true;
        }
        i = i + 1;
    }
    false
}

/// A property as the specification states it, with the source that `zfs get` reported
/// where it came from the pool.
#[derive(Debug)]
pub struct Property {
    pub value: PropertyValue,
    pub source: Option<PropertySource>,
}

/// A property of a specification as its value and its optional source.
pub struct PropertyView {
    pub value: PropertyValueView,
    pub source: Option<SourceView>,
}

impl View for Property {
    type V = PropertyView;

    open spec fn view(&self) -> PropertyView {
        PropertyView {
            value: self.value@,
            source: match self.source {
                Some(s) => Some(s@),
                None => None,
            },
        }
    }
}

impl Duplicate for Property {
    fn duplicate(&self) -> (r: Self) {
        Property {
            value: self.value.duplicate(),
            source: match &self.source {
                Some(s) => Some(s.duplicate()),
                None => None,
            },
        }
    }
}

/// The properties of a dataset, under their names.
pub type DatasetView = Seq<(Seq<char>, PropertyView)>;

/// A dataset of a specification, with its properties.
#[derive(Debug)]
pub struct ZfsSpecificationDataset {
    pub properties: KeyedList<Property>,
}

impl View for ZfsSpecificationDataset {
    type V = DatasetView;

    open spec fn view(&self) -> DatasetView {
        self.properties@
    }
}

impl Duplicate for ZfsSpecificationDataset {
    fn duplicate(&self) -> (r: Self) {
        ZfsSpecificationDataset { properties: self.properties.duplicate() }
    }
}

/// Values under names, taken as properties with no source.
pub open spec fn without_sources(values: Seq<(Seq<char>, PropertyValueView)>) -> DatasetView {
    values.map_values(
        |e: (Seq<char>, PropertyValueView)| (e.0, PropertyView { value: e.1, source: None }),
    )
}

impl ZfsSpecificationDataset {
    /// A dataset with the given property values, none of which has a source.
    pub fn new(properties: KeyedList<PropertyValue>) -> (r: ZfsSpecificationDataset)
        ensures
            r@ == without_sources(properties@),
    {
        properties.reveal_unique_names();
        let n = properties.len();
        let mut result: KeyedList<Property> = KeyedList::new();
        let mut i: usize = 0;
        while i < n
            invariant
                n == properties@.len(),
                keys_unique(properties@),
                i <= n,
                result@ =~= without_sources(properties@.subrange(0, i as int)),
            decreases n - i,
        {
            proof {
                assert forall|j: int| 0 <= j < i implies #[trigger] result@[j].0
                    != properties@[i as int].0 by {
                    assert(result@[j].0 == properties@[j].0);
                }
            }
            let name = properties.key_at(i).clone();
            let value = properties.value_at(i).duplicate();
            result.insert(name, Property { value, source: None });
            i = i + 1;
        }
        assert(properties@.subrange(0, n as int) =~= properties@);
        ZfsSpecificationDataset { properties: result }
    }

    /// The property named `name`, if the dataset states one.
    pub fn get_property(&self, name: &str) -> (r: Option<&Property>)
        ensures
            (match r {
                Some(p) => Some(p@),
                None => None,
            }) == lookup(self@, name@),
    {
        self.properties.get(name)
    }
}

/// The datasets of a specification under their names, and its ignore patterns.
pub struct SpecificationView {
    pub datasets: Seq<(Seq<char>, DatasetView)>,
    pub ignored_datasets: Seq<Seq<char>>,
    pub ignored_properties: Seq<Seq<char>>,
}

/// The declared state of a pool.
#[derive(Debug)]
pub struct ZfsSpecification {
    pub datasets: KeyedList<ZfsSpecificationDataset>,
    pub ignored_datasets: Vec<GlobPattern>,
    pub ignored_properties: Vec<GlobPattern>,
}

impl View for ZfsSpecification {
    type V = SpecificationView;

    open spec fn view(&self) -> SpecificationView {
        SpecificationView {
            datasets: self.datasets@,
            ignored_datasets: self.ignored_datasets@.map_values(|p: GlobPattern| p@),
            ignored_properties: self.ignored_properties@.map_values(|p: GlobPattern| p@),
        }
    }
}

/// The datasets after an empty dataset is added under each of `names` that none holds
/// yet, in the order of `names`.
pub open spec fn add_missing(
    datasets: Seq<(Seq<char>, DatasetView)>,
    names: Seq<Seq<char>>,
) -> Seq<(Seq<char>, DatasetView)>
    decreases names.len(),
{
    if names.len() == 0 {
        datasets
    } else {
        let before = add_missing(datasets, names.drop_last());
        if has_key(before, names.last()) {
            before
        } else {
            before.push((names.last(), Seq::empty()))
        }
    }
}

/// The datasets after the parent paths of each of `names`, in turn, are added where
/// missing.
pub open spec fn expand_with(
    datasets: Seq<(Seq<char>, DatasetView)>,
    names: Seq<Seq<char>>,
) -> Seq<(Seq<char>, DatasetView)>
    decreases names.len(),
{
    if names.len() == 0 {
        datasets
    } else {
        add_missing(expand_with(datasets, names.drop_last()), prefix_paths(names.last()))
    }
}

/// The datasets with an empty dataset added for every parent path of a dataset that the
/// specification does not state.
pub open spec fn expanded(datasets: Seq<(Seq<char>, DatasetView)>) -> Seq<(Seq<char>, DatasetView)> {
    expand_with(datasets, keys_of(datasets))
}

impl ZfsSpecification {
    /// The dataset named `name`, if the specification holds one.
    pub fn get_dataset(&self, name: &str) -> (r: Option<&ZfsSpecificationDataset>)
        ensures
            (match r {
                Some(d) => Some(d@),
                None => None,
            }) == lookup(self@.datasets, name@),
    {
        self.datasets.get(name)
    }

    /// Adds an empty dataset for every parent path of a stated dataset that the
    /// specification does not state, so that `zfs create` can make parents first.
    pub fn expand_sub_datasets(&mut self)
        ensures
            final(self)@.datasets == expanded(old(self)@.datasets),
            final(self)@.ignored_datasets == old(self)@.ignored_datasets,
            final(self)@.ignored_properties == old(self)@.ignored_properties,
    {
        let ghost original = self.datasets@;
        let count = self.datasets.len();
        let mut names: Vec<String> = Vec::new();
        let mut i: usize = 0;
        while i < count
            invariant
                count == original.len(),
                self.datasets@ == original,
                i <= count,
                names@.map_values(|s: String| s@) =~= keys_of(original).subrange(0, i as int),
            decreases count - i,
        {
            let name = self.datasets.key_at(i).clone();
            assert(keys_of(original)[i as int] == name@);
            let ghost before = names@;
            names.push(name);
            assert(names@.map_values(|s: String| s@) =~= before.map_values(|s: String| s@).push(
                name@,
            ));
            i = i + 1;
        }
        assert(keys_of(original).subrange(0, count as int) =~= keys_of(original));
        let ghost names_view = keys_of(original);
        let mut i: usize = 0;
        while i < count
            invariant
                count == original.len(),
                names_view == keys_of(original),
                names@.map_values(|s: String| s@) == names_view,
                i <= count,
                self.datasets@ == expand_with(original, names_view.subrange(0, i as int)),
                self@.ignored_datasets == old(self)@.ignored_datasets,
                self@.ignored_properties == old(self)@.ignored_properties,
            decreases count - i,
        {
            let name: &str = names[i].as_str();
            assert(name@ == names_view[i as int]);
            let ghost start = self.datasets@;
            let ghost all = prefix_paths(name@);
            let mut paths = PrefixPaths::new(name);
            let ghost mut k: int = 0;
            loop
                invariant_except_break
                    0 <= k <= all.len(),
                    paths@ == all.skip(k),
                    self.datasets@ == add_missing(start, all.subrange(0, k)),
                invariant
                    self@.ignored_datasets == old(self)@.ignored_datasets,
                    self@.ignored_properties == old(self)@.ignored_properties,
                ensures
                    self.datasets@ == add_missing(start, all),
                decreases paths@.len(),
            {
                match paths.next() {
                    None => {
                        assert(all.subrange(0, k) =~= all);
                        break;
                    },
                    Some(p) => {
                        proof {
                            assert(p@ == all[k]);
                            assert(all.subrange(0, k + 1).drop_last() =~= all.subrange(0, k));
                            assert(all.skip(k).drop_first() =~= all.skip(k + 1));
                        }
                        if !self.datasets.contains_key(p) {
                            self.datasets.insert(
                                crate::text::owned(p),
                                ZfsSpecificationDataset { properties: KeyedList::new() },
                            );
                        }
                        proof {
                            k = k + 1;
                        }
                    },
                }
            }
            assert(names_view.subrange(0, i + 1).drop_last() =~= names_view.subrange(0, i as int));
            i = i + 1;
        }
        assert(names_view.subrange(0, count as int) =~= names_view);
    }
}

} // verus!
