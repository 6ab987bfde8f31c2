//! The datasets and properties that `zfs get all -t filesystem,volume --json --json-int`
//! reports, and how they become the specification of the pool's current state.

use vstd::prelude::*;

use crate::keyed::{
    has_key, key_index, keys_unique, lemma_filter_map_has_key, lemma_filter_map_step, lookup,
    KeyedList,
};
use crate::property::{
    source_is_local, source_user_managed, Duplicate, Property, ReportedPropertyView,
};
use crate::zfs_specification::{
    self, DatasetView, PropertyView, ZfsSpecification, ZfsSpecificationDataset,
};

verus! {

/// The version header of the JSON output of `zfs`.
#[derive(Debug)]
pub struct ZfsListVersion {
    pub command: String,
    pub vers_major: i32,
    pub vers_minor: i32,
}

/// The kind of a dataset.
#[derive(PartialEq, Eq, Structural, Debug, Clone, Copy)]
pub enum DatasetType {
    Filesystem,
    Volume,
    Snapshot,
    Bookmark,
}

/// A dataset as `zfs get` reports it.
#[derive(Debug)]
pub struct Dataset {
    pub name: String,
    pub dataset_type: DatasetType,
    pub pool: String,
    pub createtxg: i32,
    pub properties: KeyedList<Property>,
}

/// A reported dataset with its texts taken as sequences of characters.
pub struct DatasetEntryView {
    pub name: Seq<char>,
    pub dataset_type: DatasetType,
    pub pool: Seq<char>,
    pub createtxg: i32,
    pub properties: Seq<(Seq<char>, ReportedPropertyView)>,
}

impl View for Dataset {
    type V = DatasetEntryView;

    open spec fn view(&self) -> DatasetEntryView {
        DatasetEntryView {
            name: self.name@,
            dataset_type: self.dataset_type,
            pool: self.pool@,
            createtxg: self.createtxg,
            properties: self.properties@,
        }
    }
}

impl Dataset {
    /// The property named `name`, if the dataset reports one.
    pub fn get_property(&self, name: &str) -> (r: Option<&Property>)
        ensures
            (match r {
                Some(p) => Some(p@),
                None => None,
            }) == lookup(self@.properties, name@),
    {
        self.properties.get(name)
    }

    /// The property named `name`, if the dataset reports one, to change in place.
    pub fn get_property_mut(&mut self, name: &str) -> (r: Option<&mut Property>)
        ensures
            r is Some == has_key(old(self)@.properties, name@),
            r matches Some(p) ==> (*p)@ == lookup(old(self)@.properties, name@)->0
                && final(self)@.properties == old(self)@.properties.update(
                key_index(old(self)@.properties, name@),
                (name@, final(p)@),
            ),
            r is None ==> final(self)@.properties == old(self)@.properties,
            final(self)@.name == old(self)@.name,
            final(self)@.dataset_type == old(self)@.dataset_type,
            final(self)@.pool == old(self)@.pool,
            final(self)@.createtxg == old(self)@.createtxg,
    {
        self.properties.get_mut(name)
    }
}

/// The JSON output of `zfs get`: its version header and the datasets under their names.
#[derive(Debug)]
pub struct ZfsList {
    pub output_version: ZfsListVersion,
    pub datasets: KeyedList<Dataset>,
}

/// Which sources of properties a filter keeps.
#[derive(PartialEq, Eq, Structural, Debug, Clone, Copy)]
pub enum SourceSelection {
    /// Properties set on the dataset itself.
    Local,
    /// Properties that the user may change with `zfs set`.
    UserManaged,
}

/// Which properties the current state keeps: those named in `properties`, if given, and
/// those whose source `property_sources` selects, if given.
#[derive(Debug)]
pub struct SpecificationFilter {
    pub properties: Option<Vec<String>>,
    pub property_sources: Option<SourceSelection>,
}

/// A filter as its property names and its selection of sources.
pub struct FilterView {
    pub properties: Option<Seq<Seq<char>>>,
    pub property_sources: Option<SourceSelection>,
}

impl View for SpecificationFilter {
    type V = FilterView;

    open spec fn view(&self) -> FilterView {
        FilterView {
            properties: match self.properties {
                Some(names) => Some(names@.map_values(|n: String| n@)),
                None => None,
            },
            property_sources: self.property_sources,
        }
    }
}

impl Default for SpecificationFilter {
    /// The filter that keeps every property.
    fn default() -> (r: SpecificationFilter)
        ensures
            r@.properties is None,
            r@.property_sources is None,
    {
        SpecificationFilter { properties: None, property_sources: None }
    }
}

/// Whether the filter keeps the reported property `p` named `name`.
pub open spec fn keeps_property(filter: FilterView, name: Seq<char>, p: ReportedPropertyView) -> bool {
    &&& match filter.properties {
        Some(names) => names.contains(name),
        None => true,
    }
    &&& match filter.property_sources {
        Some(SourceSelection::Local) => source_is_local(p.source.kind),
        Some(SourceSelection::UserManaged) => source_user_managed(p.source.kind),
        None => true,
    }
}

/// The properties of a reported dataset that the filter keeps, as properties of a
/// specification that remember their source.
pub open spec fn specification_properties(
    properties: Seq<(Seq<char>, ReportedPropertyView)>,
    filter: FilterView,
) -> DatasetView {
    properties.filter(|e: (Seq<char>, ReportedPropertyView)| keeps_property(filter, e.0, e.1)).map_values(
        |e: (Seq<char>, ReportedPropertyView)|
            (e.0, PropertyView { value: e.1.value, source: Some(e.1.source) }),
    )
}

/// The reported datasets as the datasets of a specification.
pub open spec fn specification_datasets(
    datasets: Seq<(Seq<char>, DatasetEntryView)>,
    filter: FilterView,
) -> Seq<(Seq<char>, DatasetView)> {
    datasets.map_values(
        |e: (Seq<char>, DatasetEntryView)| (e.0, specification_properties(e.1.properties, filter)),
    )
}

/// Whether `names` holds `name`.
fn contains_name(names: &Vec<String>, name: &str) -> (r: bool)
    ensures
        r == names@.map_values(|n: String| n@).contains(name@),
{
    let ghost view = names@.map_values(|n: String| n@);
    let n = names.len();
    let mut i: usize = 0;
    while i < n
        invariant
            n == names@.len(),
            view == names@.map_values(|n: String| n@),
            i <= n,
            forall|j: int| 0 <= j < i ==> view[j] != name@,
        decreases n - i,
    {
        if crate::text::str_equal(names[i].as_str(), name) {
            assert(view[i as int] == name@);
            return true;
        }
        i = i + 1;
    }
    false
}

/// Whether the filter keeps the property `p` named `name`.
fn keeps(filter: &SpecificationFilter, name: &str, p: &Property) -> (r: bool)
    ensures
        r == keeps_property(filter@, name@, p@),
{
    let by_name = match &filter.properties {
        Some(names) => contains_name(names, name),
        None => true,
    };
    let by_source = match filter.property_sources {
        Some(SourceSelection::Local) => p.source.is_local(),
        Some(SourceSelection::UserManaged) => p.source.user_managed(),
        None => true,
    };
    by_name && by_source
}

/// The properties of a reported dataset that the filter keeps, with their sources.
fn dataset_specification(properties: &KeyedList<Property>, filter: &SpecificationFilter) -> (r:
    ZfsSpecificationDataset)
    ensures
        r@ == specification_properties(properties@, filter@),
{
    properties.reveal_unique_names();
    let ghost keep = |e: (Seq<char>, ReportedPropertyView)| keeps_property(filter@, e.0, e.1);
    let ghost convert = |e: (Seq<char>, ReportedPropertyView)|
        (e.0, PropertyView { value: e.1.value, source: Some(e.1.source) });
    let n = properties.len();
    let mut result: KeyedList<zfs_specification::Property> = KeyedList::new();
    let mut i: usize = 0;
    while i < n
        invariant
            n == properties@.len(),
            keys_unique(properties@),
            i <= n,
            keep == (|e: (Seq<char>, ReportedPropertyView)| keeps_property(filter@, e.0, e.1)),
            convert == (|e: (Seq<char>, ReportedPropertyView)|
                (e.0, PropertyView { value: e.1.value, source: Some(e.1.source) })),
            result@ == properties@.subrange(0, i as int).filter(keep).map_values(convert),
        decreases n - i,
    {
        proof {
            lemma_filter_map_step(properties@, keep, convert, i as int);
        }
        let name = properties.key_at(i);
        let p = properties.value_at(i);
        if keeps(filter, name.as_str(), p) {
            proof {
                if has_key(result@, name@) {
                    lemma_filter_map_has_key(properties@.subrange(0, i as int), keep, convert, name@);
                    let j = choose|j: int| 0 <= j < i && #[trigger] properties@.subrange(0, i as int)[j].0 == name@;
                    assert(properties@[j].0 == properties@[i as int].0);
                }
            }
            result.insert(
                name.clone(),
                zfs_specification::Property {
                    value: p.value.duplicate(),
                    source: Some(p.source.duplicate()),
                },
            );
        }
        i = i + 1;
    }
    assert(properties@.subrange(0, n as int) =~= properties@);
    ZfsSpecificationDataset { properties: result }
}

impl ZfsList {
    /// The reported state as a specification: every dataset, with the properties that the
    /// filter keeps and the sources they were reported with; no ignore patterns.
    pub fn into_specification(self, filter: &SpecificationFilter) -> (r: ZfsSpecification)
        ensures
            r@.datasets == specification_datasets(self.datasets@, filter@),
            r@.ignored_datasets.len() == 0,
            r@.ignored_properties.len() == 0,
    {
        self.datasets.reveal_unique_names();
        let ghost source = self.datasets@;
        let n = self.datasets.len();
        let mut result: KeyedList<ZfsSpecificationDataset> = KeyedList::new();
        let mut i: usize = 0;
        while i < n
            invariant
                n == source.len(),
                source == self.datasets@,
                keys_unique(source),
                i <= n,
                result@ =~= specification_datasets(source.subrange(0, i as int), filter@),
            decreases n - i,
        {
            let name = self.datasets.key_at(i);
            let dataset = self.datasets.value_at(i);
            proof {
                assert forall|j: int| 0 <= j < i implies #[trigger] result@[j].0 != name@ by {
                    assert(result@[j].0 == source[j].0);
                }
            }
            let converted = dataset_specification(&dataset.properties, filter);
            result.insert(name.clone(), converted);
            i = i + 1;
        }
        assert(source.subrange(0, n as int) =~= source);
        ZfsSpecification { datasets: result, ignored_datasets: Vec::new(), ignored_properties: Vec::new() }
    }

    /// The output of `zfs get` without the `refreservation` of volumes, which stands for
    /// the same setting as their `reservation` on every pool that OpenZFS supports.
    pub fn without_volume_refreservation(self) -> (r: ZfsList)
        ensures
            r.datasets@ == self.datasets@.map_values(
                |e: (Seq<char>, DatasetEntryView)| without_refreservation(e),
            ),
            r.output_version == self.output_version,
    {
        self.datasets.reveal_unique_names();
        let ghost source = self.datasets@;
        let ZfsList { output_version, datasets } = self;
        let n = datasets.len();
        let mut result: KeyedList<Dataset> = KeyedList::new();
        let mut i: usize = 0;
        while i < n
            invariant
                n == source.len(),
                source == datasets@,
                keys_unique(source),
                i <= n,
                result@ =~= source.subrange(0, i as int).map_values(
                    |e: (Seq<char>, DatasetEntryView)| without_refreservation(e),
                ),
            decreases n - i,
        {
            let name = datasets.key_at(i);
            let dataset = datasets.value_at(i);
            proof {
                assert forall|j: int| 0 <= j < i implies #[trigger] result@[j].0 != name@ by {
                    assert(result@[j].0 == source[j].0);
                }
            }
            let properties = if dataset.dataset_type == DatasetType::Volume {
                drop_refreservation(&dataset.properties)
            } else {
                dataset.properties.duplicate()
            };
            let copy = Dataset {
                name: dataset.name.clone(),
                dataset_type: dataset.dataset_type,
                pool: dataset.pool.clone(),
                createtxg: dataset.createtxg,
                properties,
            };
            assert(copy@ == without_refreservation(source[i as int]).1);
            result.insert(name.clone(), copy);
            i = i + 1;
        }
        assert(source.subrange(0, n as int) =~= source);
        ZfsList { output_version, datasets: result }
    }
}

/// Whether a reported property is not named `refreservation`.
pub open spec fn not_refreservation(e: (Seq<char>, ReportedPropertyView)) -> bool {
    e.0 != "refreservation"@
}

/// A reported dataset without its `refreservation` where it is a volume.
pub open spec fn without_refreservation(e: (Seq<char>, DatasetEntryView)) -> (
    Seq<char>,
    DatasetEntryView,
) {
    if e.1.dataset_type == DatasetType::Volume {
        (
            e.0,
            DatasetEntryView {
                properties: e.1.properties.filter(
                    |p: (Seq<char>, ReportedPropertyView)| not_refreservation(p),
                ),
                ..e.1
            },
        )
    } else {
        e
    }
}

/// The reported properties without `refreservation`.
fn drop_refreservation(properties: &KeyedList<Property>) -> (r: KeyedList<Property>)
    ensures
        r@ == properties@.filter(|p: (Seq<char>, ReportedPropertyView)| not_refreservation(p)),
{
    properties.reveal_unique_names();
    let ghost keep = |p: (Seq<char>, ReportedPropertyView)| not_refreservation(p);
    let ghost id = |p: (Seq<char>, ReportedPropertyView)| p;
    let n = properties.len();
    let mut r: KeyedList<Property> = KeyedList::new();
    let mut i: usize = 0;
    while i < n
        invariant
            n == properties@.len(),
            keys_unique(properties@),
            i <= n,
            keep == (|p: (Seq<char>, ReportedPropertyView)| not_refreservation(p)),
            id == (|p: (Seq<char>, ReportedPropertyView)| p),
            r@ == properties@.subrange(0, i as int).filter(keep).map_values(id),
        decreases n - i,
    {
        proof {
            lemma_filter_map_step(properties@, keep, id, i as int);
        }
        let name = properties.key_at(i);
        if !crate::text::str_equal(name.as_str(), "refreservation") {
            proof {
                if has_key(r@, name@) {
                    lemma_filter_map_has_key(properties@.subrange(0, i as int), keep, id, name@);
                    let j = choose|j: int|
                        0 <= j < i && #[trigger] properties@.subrange(0, i as int)[j].0 == name@;
                    assert(properties@[j].0 == properties@[i as int].0);
                }
            }
            r.insert(name.clone(), properties.value_at(i).duplicate());
        }
        i = i + 1;
    }
    assert(properties@.subrange(0, n as int) =~= properties@);
    assert(properties@.filter(keep).map_values(id) =~= properties@.filter(keep));
    r
}

} // verus!
