//! The plan: which datasets to create, which properties to set or inherit, and which
//! datasets to destroy, so that the pool matches its specification.

use vstd::prelude::*;
use vstd::string::*;

use crate::actions::{
    ActionSet, ActionView, DestructiveAction, UnsettableProperty, UnsettableView, ValuesView,
    ZfsAction,
};
use crate::keyed::{
    has_key, keys_unique, lemma_filter_map_has_key, lemma_filter_map_step, lookup, KeyedList,
};
use crate::order::{order_by_length, positions, sort_by_key};
use crate::prefix_paths::{prefix_paths, PrefixPaths};
use crate::producer::VecActionProducer;
use crate::property::{
    equivalent_values, source_is_local, source_user_managed, Duplicate, FractionReadings,
    PropertySource, PropertyValue, PropertyValueView, SourceView,
};
use crate::text::{parse_signed, signed_reading};
use crate::zfs_specification::{
    matches_any, matches_any_pattern, DatasetView, GlobPattern, Property, PropertyView,
    ZfsSpecification, ZfsSpecificationDataset,
};

verus! {

/// Whether the text `s` is a whole number, with an optional sign, followed by `K` or `k`,
/// that counts `n` in units of 1024.
pub open spec fn k_syntax(s: Seq<char>, n: u64) -> bool {
    &&& s.len() > 0
    &&& (s.last() == 'K' || s.last() == 'k')
    &&& match signed_reading(s.drop_last()) {
        Some(p) => p * 1024 == n,
        None => false,
    }
}

/// Whether the text `s` counts `number` in units of 1024, written as a whole number followed
/// by `K` or `k`.
pub fn is_k_syntax(s: &str, number: u64) -> (r: bool)
    ensures
        r == k_syntax(s@, number),
{
    let n = s.unicode_len();
    if n == 0 {
        return false;
    }
    let last = s.get_char(n - 1);
    if !(last == 'K' || last == 'k') {
        return false;
    }
    let digits = s.substring_char(0, n - 1);
    assert(digits@ =~= s@.drop_last());
    match parse_signed(digits) {
        Some(p) => (p as i128) * 1024 == number as i128,
        None => false,
    }
}

/// Whether a number and a text that differ as values are still the same setting because
/// the text counts the number in units of 1024.
pub open spec fn k_exception(a: PropertyValueView, d: PropertyValueView) -> bool {
    match (a, d) {
        (PropertyValueView::String(s), PropertyValueView::Number(n)) => k_syntax(s, n),
        (PropertyValueView::Number(n), PropertyValueView::String(s)) => k_syntax(s, n),
        _ => false,
    }
}

/// Whether a number and a text are the same setting by the unit-`K` reading.
fn is_k_exception(a: &PropertyValue, d: &PropertyValue) -> (r: bool)
    ensures
        r == k_exception(a@, d@),
{
    match (a, d) {
        (PropertyValue::String(s), PropertyValue::Number(n)) => is_k_syntax(s.as_str(), *n),
        (PropertyValue::Number(n), PropertyValue::String(s)) => is_k_syntax(s.as_str(), *n),
        _ => false,
    }
}

/// The properties that no pattern of `patterns` matches.
pub open spec fn ignore_properties(properties: DatasetView, patterns: Seq<Seq<char>>) -> DatasetView {
    properties.filter(|e: (Seq<char>, PropertyView)| !matches_any(patterns, e.0))
}

/// The datasets that no dataset pattern matches, each with the properties that no
/// property pattern matches.
pub open spec fn filter_datasets(
    datasets: Seq<(Seq<char>, DatasetView)>,
    dataset_patterns: Seq<Seq<char>>,
    property_patterns: Seq<Seq<char>>,
) -> Seq<(Seq<char>, DatasetView)> {
    datasets.filter(|e: (Seq<char>, DatasetView)| !matches_any(dataset_patterns, e.0)).map_values(
        |e: (Seq<char>, DatasetView)| (e.0, ignore_properties(e.1, property_patterns)),
    )
}

/// The views of a list of patterns.
pub open spec fn patterns_view(patterns: Seq<GlobPattern>) -> Seq<Seq<char>> {
    patterns.map_values(|p: GlobPattern| p@)
}

/// The properties of a dataset that no pattern matches.
fn without_ignored_properties(dataset: &ZfsSpecificationDataset, patterns: &Vec<GlobPattern>) -> (r:
    ZfsSpecificationDataset)
    ensures
        r@ == ignore_properties(dataset@, patterns_view(patterns@)),
{
    let properties = &dataset.properties;
    properties.reveal_unique_names();
    let ghost pats = patterns_view(patterns@);
    let ghost keep = |e: (Seq<char>, PropertyView)| !matches_any(pats, e.0);
    let ghost id = |e: (Seq<char>, PropertyView)| e;
    let n = properties.len();
    let mut result: KeyedList<Property> = KeyedList::new();
    let mut i: usize = 0;
    while i < n
        invariant
            n == properties@.len(),
            keys_unique(properties@),
            i <= n,
            pats == patterns_view(patterns@),
            keep == (|e: (Seq<char>, PropertyView)| !matches_any(pats, e.0)),
            id == (|e: (Seq<char>, PropertyView)| e),
            result@ == properties@.subrange(0, i as int).filter(keep).map_values(id),
        decreases n - i,
    {
        proof {
            lemma_filter_map_step(properties@, keep, id, i as int);
        }
        let name = properties.key_at(i);
        if !matches_any_pattern(patterns, name.as_str()) {
            proof {
                if has_key(result@, name@) {
                    lemma_filter_map_has_key(properties@.subrange(0, i as int), keep, id, name@);
                    let j = choose|j: int|
                        0 <= j < i && #[trigger] properties@.subrange(0, i as int)[j].0 == name@;
                    assert(properties@[j].0 == properties@[i as int].0);
                }
            }
            result.insert(name.clone(), properties.value_at(i).duplicate());
        }
        i = i + 1;
    }
    assert(properties@.subrange(0, n as int) =~= properties@);
    assert(properties@.filter(keep).map_values(id) =~= properties@.filter(keep));
    ZfsSpecificationDataset { properties: result }
}

/// The specification without the datasets and properties that the ignore patterns
/// match: the given patterns where there are some, else the specification's own. The
/// specification's own patterns are kept.
pub fn filter_spec(
    spec: ZfsSpecification,
    ignored_datasets: Option<&Vec<GlobPattern>>,
    ignored_properties: Option<&Vec<GlobPattern>>,
) -> (r: ZfsSpecification)
    ensures
        r@.datasets == filter_datasets(
            spec@.datasets,
            match ignored_datasets {
                Some(p) => patterns_view(p@),
                None => spec@.ignored_datasets,
            },
            match ignored_properties {
                Some(p) => patterns_view(p@),
                None => spec@.ignored_properties,
            },
        ),
        r@.ignored_datasets == spec@.ignored_datasets,
        r@.ignored_properties == spec@.ignored_properties,
{
    let ZfsSpecification { datasets, ignored_datasets: own_datasets, ignored_properties: own_properties } = spec;
    let dataset_patterns = match ignored_datasets {
        Some(p) => p,
        None => &own_datasets,
    };
    let property_patterns = match ignored_properties {
        Some(p) => p,
        None => &own_properties,
    };
    datasets.reveal_unique_names();
    let ghost dpats = patterns_view(dataset_patterns@);
    let ghost ppats = patterns_view(property_patterns@);
    let ghost keep = |e: (Seq<char>, DatasetView)| !matches_any(dpats, e.0);
    let ghost convert = |e: (Seq<char>, DatasetView)| (e.0, ignore_properties(e.1, ppats));
    let n = datasets.len();
    let mut result: KeyedList<ZfsSpecificationDataset> = KeyedList::new();
    let mut i: usize = 0;
    while i < n
        invariant
            n == datasets@.len(),
            keys_unique(datasets@),
            i <= n,
            dpats == patterns_view(dataset_patterns@),
            ppats == patterns_view(property_patterns@),
            keep == (|e: (Seq<char>, DatasetView)| !matches_any(dpats, e.0)),
            convert == (|e: (Seq<char>, DatasetView)| (e.0, ignore_properties(e.1, ppats))),
            result@ == datasets@.subrange(0, i as int).filter(keep).map_values(convert),
        decreases n - i,
    {
        proof {
            lemma_filter_map_step(datasets@, keep, convert, i as int);
        }
        let name = datasets.key_at(i);
        if !matches_any_pattern(dataset_patterns, name.as_str()) {
            proof {
                if has_key(result@, name@) {
                    lemma_filter_map_has_key(datasets@.subrange(0, i as int), keep, convert, name@);
                    let j = choose|j: int|
                        0 <= j < i && #[trigger] datasets@.subrange(0, i as int)[j].0 == name@;
                    assert(datasets@[j].0 == datasets@[i as int].0);
                }
            }
            let filtered = without_ignored_properties(datasets.value_at(i), property_patterns);
            result.insert(name.clone(), filtered);
        }
        i = i + 1;
    }
    assert(datasets@.subrange(0, n as int) =~= datasets@);
    ZfsSpecification {
        datasets: result,
        ignored_datasets: own_datasets,
        ignored_properties: own_properties,
    }
}


/// What the plan does with one desired property of a dataset that exists.
pub enum PropertyPlan {
    /// The current value is the desired one.
    Keep,
    /// The property is set to the desired value.
    Change,
    /// The property cannot be set, because of the source of its current value.
    Refuse(Option<SourceView>),
}

/// What the plan does with the desired property `desired` named `name`, given the current
/// properties of the dataset: set it where it is missing, or where the user may change it
/// and its value is not an equivalent one; refuse it where the user may not change it.
pub open spec fn property_plan(
    actual: DatasetView,
    name: Seq<char>,
    desired: PropertyView,
    readings: Seq<(Seq<char>, u32, Option<u64>)>,
) -> PropertyPlan {
    match lookup(actual, name) {
        None => PropertyPlan::Change,
        Some(current) => match current.source {
            Some(source) => if source_user_managed(source.kind) {
                if !equivalent_values(current.value, desired.value, name, readings) && !k_exception(
                    current.value,
                    desired.value,
                ) {
                    PropertyPlan::Change
                } else {
                    PropertyPlan::Keep
                }
            } else {
                PropertyPlan::Refuse(current.source)
            },
            None => PropertyPlan::Refuse(None),
        },
    }
}

/// The desired property values that the plan sets on a dataset that exists.
pub open spec fn properties_to_set(
    actual: DatasetView,
    desired: DatasetView,
    readings: Seq<(Seq<char>, u32, Option<u64>)>,
) -> ValuesView {
    desired.filter(
        |e: (Seq<char>, PropertyView)| property_plan(actual, e.0, e.1, readings) is Change,
    ).map_values(|e: (Seq<char>, PropertyView)| (e.0, e.1.value))
}

/// The desired properties of a dataset that exists that the plan cannot set.
pub open spec fn refusals(
    dataset: Seq<char>,
    actual: DatasetView,
    desired: DatasetView,
    readings: Seq<(Seq<char>, u32, Option<u64>)>,
) -> Seq<UnsettableView> {
    desired.filter(
        |e: (Seq<char>, PropertyView)| property_plan(actual, e.0, e.1, readings) is Refuse,
    ).map_values(
        |e: (Seq<char>, PropertyView)|
            UnsettableView {
                dataset: dataset,
                property: e.0,
                source: property_plan(actual, e.0, e.1, readings)->Refuse_0,
            },
    )
}

/// The values of properties under their names.
pub open spec fn property_values(properties: DatasetView) -> ValuesView {
    properties.map_values(|e: (Seq<char>, PropertyView)| (e.0, e.1.value))
}

/// The parent paths of `name` that are not among the current datasets.
pub open spec fn missing_parents(
    actual: Seq<(Seq<char>, DatasetView)>,
    name: Seq<char>,
) -> Seq<Seq<char>> {
    prefix_paths(name).filter(|p: Seq<char>| !has_key(actual, p))
}

/// A creation of a dataset with no properties.
pub open spec fn create_empty(name: Seq<char>) -> ActionView {
    ActionView::Create { name: name, properties: Seq::empty() }
}

/// The changes for one desired dataset: for a dataset that exists, one change of the
/// properties to set, if any; else the creation of each missing parent, then of the
/// dataset with all its desired properties.
pub open spec fn desired_actions(
    actual: Seq<(Seq<char>, DatasetView)>,
    desired: (Seq<char>, DatasetView),
    readings: Seq<(Seq<char>, u32, Option<u64>)>,
) -> Seq<ActionView> {
    match lookup(actual, desired.0) {
        Some(current) => {
            let changes = properties_to_set(current, desired.1, readings);
            if changes.len() > 0 {
                seq![ActionView::SetProps { dataset: desired.0, properties: changes }]
            } else {
                Seq::empty()
            }
        },
        None => missing_parents(actual, desired.0).map_values(|p: Seq<char>| create_empty(p)).push(
            ActionView::Create { name: desired.0, properties: property_values(desired.1) },
        ),
    }
}

/// The refused properties of one desired dataset.
pub open spec fn desired_refusals(
    actual: Seq<(Seq<char>, DatasetView)>,
    desired: (Seq<char>, DatasetView),
    readings: Seq<(Seq<char>, u32, Option<u64>)>,
) -> Seq<UnsettableView> {
    match lookup(actual, desired.0) {
        Some(current) => refusals(desired.0, current, desired.1, readings),
        None => Seq::empty(),
    }
}

/// The properties set on a current dataset itself that the desired dataset does not state.
pub open spec fn local_not_desired(actual: DatasetView, desired: DatasetView) -> Seq<Seq<char>> {
    actual.filter(
        |e: (Seq<char>, PropertyView)|
            (e.1.source matches Some(s) && source_is_local(s.kind)) && !has_key(desired, e.0),
    ).map_values(|e: (Seq<char>, PropertyView)| e.0)
}

/// The change for one current dataset that is also desired: the inheritance of the
/// properties set on it that the specification does not state, if any.
pub open spec fn inherit_actions(
    desired: Seq<(Seq<char>, DatasetView)>,
    current: (Seq<char>, DatasetView),
) -> Seq<ActionView> {
    match lookup(desired, current.0) {
        Some(wanted) => {
            let names = local_not_desired(current.1, wanted);
            if names.len() > 0 {
                seq![ActionView::Inherit { dataset: current.0, properties: names }]
            } else {
                Seq::empty()
            }
        },
        None => Seq::empty(),
    }
}

/// The length of a name in bytes, in its UTF-8 encoding.
pub open spec fn name_bytes(name: Seq<char>) -> nat {
    vstd::utf8::encode_utf8(name).len()
}

/// The desired datasets, shortest name (in bytes) first, ties in their order.
pub open spec fn length_order(datasets: Seq<(Seq<char>, DatasetView)>) -> Seq<(Seq<char>, DatasetView)> {
    sort_by_key(
        positions(datasets.len()),
        |i: int|
            if 0 <= i < datasets.len() {
                name_bytes(datasets[i].0)
            } else {
                0
            },
    ).map_values(|i: int| datasets[i])
}

/// The additive changes of the plan, before repeated creations are folded: the changes of
/// each desired dataset, shortest name first, then the inheritances of each current
/// dataset.
pub open spec fn planned_additive(
    actual: Seq<(Seq<char>, DatasetView)>,
    desired: Seq<(Seq<char>, DatasetView)>,
    readings: Seq<(Seq<char>, u32, Option<u64>)>,
) -> Seq<ActionView> {
    length_order(desired).map_values(
        |d: (Seq<char>, DatasetView)| desired_actions(actual, d, readings),
    ).flatten() + actual.map_values(|a: (Seq<char>, DatasetView)| inherit_actions(desired, a)).flatten()
}

/// The refused properties of the plan, in the order of the desired datasets.
pub open spec fn planned_refusals(
    actual: Seq<(Seq<char>, DatasetView)>,
    desired: Seq<(Seq<char>, DatasetView)>,
    readings: Seq<(Seq<char>, u32, Option<u64>)>,
) -> Seq<UnsettableView> {
    length_order(desired).map_values(
        |d: (Seq<char>, DatasetView)| desired_refusals(actual, d, readings),
    ).flatten()
}

/// The current datasets that are not desired, which the plan destroys.
pub open spec fn planned_destroyed(
    actual: Seq<(Seq<char>, DatasetView)>,
    desired: Seq<(Seq<char>, DatasetView)>,
) -> Seq<Seq<char>> {
    actual.filter(|a: (Seq<char>, DatasetView)| !has_key(desired, a.0)).map_values(
        |a: (Seq<char>, DatasetView)| a.0,
    )
}

/// What the plan does with one desired property.
enum Decision {
    Keep,
    Change,
    Refuse(Option<PropertySource>),
}

impl View for Decision {
    type V = PropertyPlan;

    closed spec fn view(&self) -> PropertyPlan {
        match self {
            Decision::Keep => PropertyPlan::Keep,
            Decision::Change => PropertyPlan::Change,
            Decision::Refuse(s) => PropertyPlan::Refuse(
                match s {
                    Some(s) => Some(s@),
                    None => None,
                },
            ),
        }
    }
}

/// What the plan does with the desired property `desired` named `name`.
fn decide(
    actual: &ZfsSpecificationDataset,
    name: &str,
    desired: &Property,
    readings: &FractionReadings,
) -> (r: Decision)
    ensures
        r@ == property_plan(actual@, name@, desired@, readings@),
{
    match actual.get_property(name) {
        None => Decision::Change,
        Some(current) => match &current.source {
            Some(source) => {
                if source.user_managed() {
                    if !current.value.equivalent_for_property(&desired.value, name, readings)
                        && !is_k_exception(&current.value, &desired.value) {
                        Decision::Change
                    } else {
                        Decision::Keep
                    }
                } else {
                    Decision::Refuse(Some(source.duplicate()))
                }
            },
            None => Decision::Refuse(None),
        },
    }
}


/// Taking one more element into a prefix adds its image at the end of the concatenation.
pub proof fn lemma_flatten_step<A, B>(s: Seq<A>, f: spec_fn(A) -> Seq<B>, k: int)
    requires
        0 <= k < s.len(),
    ensures
        s.subrange(0, k + 1).map_values(f).flatten() == s.subrange(0, k).map_values(f).flatten()
            + f(s[k]),
{
    broadcast use Seq::lemma_flatten_push;

    assert(s.subrange(0, k + 1).map_values(f) =~= s.subrange(0, k).map_values(f).push(f(s[k])));
}

/// The values of properties under their names.
fn values_of(properties: &KeyedList<Property>) -> (r: KeyedList<PropertyValue>)
    ensures
        r@ == property_values(properties@),
{
    properties.reveal_unique_names();
    let n = properties.len();
    let mut r: KeyedList<PropertyValue> = KeyedList::new();
    let mut i: usize = 0;
    while i < n
        invariant
            n == properties@.len(),
            keys_unique(properties@),
            i <= n,
            r@ =~= property_values(properties@.subrange(0, i as int)),
        decreases n - i,
    {
        proof {
            assert forall|j: int| 0 <= j < i implies #[trigger] r@[j].0 != properties@[i as int].0 by {
                assert(r@[j].0 == properties@[j].0);
            }
        }
        r.insert(properties.key_at(i).clone(), properties.value_at(i).value.duplicate());
        i = i + 1;
    }
    assert(properties@.subrange(0, n as int) =~= properties@);
    r
}

/// Plans a desired dataset that exists: sets the desired properties that need it, and
/// records those it may not set.
fn plan_existing(
    producer: &mut VecActionProducer,
    name: &String,
    current: &ZfsSpecificationDataset,
    wanted: &ZfsSpecificationDataset,
    readings: &FractionReadings,
)
    ensures
        final(producer)@.actions == old(producer)@.actions + (if properties_to_set(
            current@,
            wanted@,
            readings@,
        ).len() > 0 {
            seq![
                ActionView::SetProps {
                    dataset: name@,
                    properties: properties_to_set(current@, wanted@, readings@),
                },
            ]
        } else {
            Seq::empty()
        }),
        final(producer)@.errors == old(producer)@.errors + refusals(
            name@,
            current@,
            wanted@,
            readings@,
        ),
        final(producer)@.destructive == old(producer)@.destructive,
{
    let properties = &wanted.properties;
    properties.reveal_unique_names();
    let ghost is_change = |e: (Seq<char>, PropertyView)|
        property_plan(current@, e.0, e.1, readings@) is Change;
    let ghost is_refuse = |e: (Seq<char>, PropertyView)|
        property_plan(current@, e.0, e.1, readings@) is Refuse;
    let ghost as_value = |e: (Seq<char>, PropertyView)| (e.0, e.1.value);
    let ghost as_error = |e: (Seq<char>, PropertyView)|
        UnsettableView {
            dataset: name@,
            property: e.0,
            source: property_plan(current@, e.0, e.1, readings@)->Refuse_0,
        };
    let ghost errors0 = producer@.errors;
    let n = properties.len();
    let mut changes: KeyedList<PropertyValue> = KeyedList::new();
    let mut i: usize = 0;
    while i < n
        invariant
            n == properties@.len(),
            keys_unique(properties@),
            i <= n,
            is_change == (|e: (Seq<char>, PropertyView)|
                property_plan(current@, e.0, e.1, readings@) is Change),
            is_refuse == (|e: (Seq<char>, PropertyView)|
                property_plan(current@, e.0, e.1, readings@) is Refuse),
            as_value == (|e: (Seq<char>, PropertyView)| (e.0, e.1.value)),
            as_error == (|e: (Seq<char>, PropertyView)|
                UnsettableView {
                    dataset: name@,
                    property: e.0,
                    source: property_plan(current@, e.0, e.1, readings@)->Refuse_0,
                }),
            changes@ == properties@.subrange(0, i as int).filter(is_change).map_values(as_value),
            producer@.errors == errors0 + properties@.subrange(0, i as int).filter(
                is_refuse,
            ).map_values(as_error),
            producer@.actions == old(producer)@.actions,
            producer@.destructive == old(producer)@.destructive,
        decreases n - i,
    {
        proof {
            lemma_filter_map_step(properties@, is_change, as_value, i as int);
            lemma_filter_map_step(properties@, is_refuse, as_error, i as int);
        }
        let property_name = properties.key_at(i);
        let desired = properties.value_at(i);
        match decide(current, property_name.as_str(), desired, readings) {
            Decision::Keep => {},
            Decision::Change => {
                proof {
                    if has_key(changes@, property_name@) {
                        lemma_filter_map_has_key(
                            properties@.subrange(0, i as int),
                            is_change,
                            as_value,
                            property_name@,
                        );
                        let j = choose|j: int|
                            0 <= j < i && #[trigger] properties@.subrange(0, i as int)[j].0
                                == property_name@;
                        assert(properties@[j].0 == properties@[i as int].0);
                    }
                }
                changes.insert(property_name.clone(), desired.value.duplicate());
            },
            Decision::Refuse(source) => {
                let ghost before = producer@.errors;
                producer.produce_error(
                    UnsettableProperty {
                        dataset: name.clone(),
                        property: property_name.clone(),
                        source,
                    },
                );
                assert(producer@.errors =~= before.push(as_error(properties@[i as int])));
            },
        }
        i = i + 1;
    }
    assert(properties@.subrange(0, n as int) =~= properties@);
    if changes.len() > 0 {
        let ghost before = producer@.actions;
        let ghost set = ActionView::SetProps { dataset: name@, properties: changes@ };
        producer.produce_action(
            ZfsAction::SetProperties { dataset: name.clone(), properties: changes },
        );
        assert(producer@.actions =~= before + seq![set]);
    } else {
        assert(producer@.actions =~= old(producer)@.actions + Seq::<ActionView>::empty());
    }
}

/// Plans a desired dataset that does not exist: creates each missing parent, then the
/// dataset with all its desired properties.
fn plan_missing(
    producer: &mut VecActionProducer,
    name: &String,
    wanted: &ZfsSpecificationDataset,
    actual: &ZfsSpecification,
)
    ensures
        final(producer)@.actions == old(producer)@.actions + missing_parents(
            actual@.datasets,
            name@,
        ).map_values(|p: Seq<char>| create_empty(p)).push(
            ActionView::Create { name: name@, properties: property_values(wanted@) },
        ),
        final(producer)@.errors == old(producer)@.errors,
        final(producer)@.destructive == old(producer)@.destructive,
{
    let ghost all = prefix_paths(name@);
    let ghost missing = |p: Seq<char>| !has_key(actual@.datasets, p);
    let ghost create = |p: Seq<char>| create_empty(p);
    let ghost actions0 = producer@.actions;
    let mut paths = PrefixPaths::new(name.as_str());
    let ghost mut k: int = 0;
    loop
        invariant_except_break
            0 <= k <= all.len(),
            paths@ == all.skip(k),
            producer@.actions == actions0 + all.subrange(0, k).filter(missing).map_values(create),
        invariant
            all == prefix_paths(name@),
            missing == (|p: Seq<char>| !has_key(actual@.datasets, p)),
            create == (|p: Seq<char>| create_empty(p)),
            producer@.errors == old(producer)@.errors,
            producer@.destructive == old(producer)@.destructive,
        ensures
            producer@.actions == actions0 + all.filter(missing).map_values(create),
        decreases paths@.len(),
    {
        match paths.next() {
            None => {
                assert(all.subrange(0, k) =~= all);
                break ;
            },
            Some(p) => {
                proof {
                    assert(p@ == all[k]);
                    lemma_filter_map_step(all, missing, create, k);
                    assert(all.skip(k).drop_first() =~= all.skip(k + 1));
                }
                if actual.get_dataset(p).is_none() {
                    let ghost before = producer@.actions;
                    producer.produce_action(
                        ZfsAction::CreateDataset {
                            name: crate::text::owned(p),
                            properties: KeyedList::new(),
                        },
                    );
                    assert(producer@.actions =~= before.push(create(all[k])));
                }
                proof {
                    k = k + 1;
                }
            },
        }
    }
    let ghost before = producer@.actions;
    let ghost created = ActionView::Create { name: name@, properties: property_values(wanted@) };
    producer.produce_action(
        ZfsAction::CreateDataset { name: name.clone(), properties: values_of(&wanted.properties) },
    );
    assert(producer@.actions =~= actions0 + all.filter(missing).map_values(create).push(created));
}

/// Plans a current dataset: inherits the properties set on it that the desired dataset
/// does not state, or destroys it where it is not desired.
fn plan_current(
    producer: &mut VecActionProducer,
    name: &String,
    current: &ZfsSpecificationDataset,
    desired: &ZfsSpecification,
)
    ensures
        final(producer)@.actions == old(producer)@.actions + inherit_actions(
            desired@.datasets,
            (name@, current@),
        ),
        final(producer)@.destructive == if has_key(desired@.datasets, name@) {
            old(producer)@.destructive
        } else {
            old(producer)@.destructive.push(name@)
        },
        final(producer)@.errors == old(producer)@.errors,
{
    match desired.get_dataset(name.as_str()) {
        Some(wanted) => {
            let properties = &current.properties;
            properties.reveal_unique_names();
            let ghost keep = |e: (Seq<char>, PropertyView)|
                (e.1.source matches Some(s) && source_is_local(s.kind)) && !has_key(wanted@, e.0);
            let ghost key = |e: (Seq<char>, PropertyView)| e.0;
            let n = properties.len();
            let mut inherited: Vec<String> = Vec::new();
            let mut i: usize = 0;
            while i < n
                invariant
                    n == properties@.len(),
                    i <= n,
                    keep == (|e: (Seq<char>, PropertyView)|
                        (e.1.source matches Some(s) && source_is_local(s.kind)) && !has_key(
                            wanted@,
                            e.0,
                        )),
                    key == (|e: (Seq<char>, PropertyView)| e.0),
                    inherited@.map_values(|s: String| s@) == properties@.subrange(
                        0,
                        i as int,
                    ).filter(keep).map_values(key),
                decreases n - i,
            {
                proof {
                    lemma_filter_map_step(properties@, keep, key, i as int);
                }
                let property_name = properties.key_at(i);
                let property = properties.value_at(i);
                let local = match &property.source {
                    Some(source) => source.is_local(),
                    None => false,
                };
                if local && wanted.get_property(property_name.as_str()).is_none() {
                    let ghost before = inherited@;
                    inherited.push(property_name.clone());
                    assert(inherited@.map_values(|s: String| s@) =~= before.map_values(
                        |s: String| s@,
                    ).push(property_name@));
                }
                i = i + 1;
            }
            assert(properties@.subrange(0, n as int) =~= properties@);
            if inherited.len() > 0 {
                let ghost before = producer@.actions;
                let ghost action = ActionView::Inherit {
                    dataset: name@,
                    properties: inherited@.map_values(|s: String| s@),
                };
                producer.produce_action(
                    ZfsAction::InheritProperties { dataset: name.clone(), properties: inherited },
                );
                assert(producer@.actions =~= before + seq![action]);
            } else {
                assert(producer@.actions =~= old(producer)@.actions + Seq::<ActionView>::empty());
            }
        },
        None => {
            producer.produce_destructive_action(
                DestructiveAction::DestroyDataset { name: name.clone() },
            );
            assert(producer@.actions =~= old(producer)@.actions + Seq::<ActionView>::empty());
        },
    }
}


/// The current datasets as the plan sees them: without the datasets and properties that
/// the specification's ignore patterns match.
pub open spec fn visible_actual(
    actual: Seq<(Seq<char>, DatasetView)>,
    desired: crate::zfs_specification::SpecificationView,
) -> Seq<(Seq<char>, DatasetView)> {
    filter_datasets(actual, desired.ignored_datasets, desired.ignored_properties)
}

/// The desired datasets as the plan sees them: without the datasets and properties that
/// the specification's ignore patterns match.
pub open spec fn visible_desired(desired: crate::zfs_specification::SpecificationView) -> Seq<
    (Seq<char>, DatasetView),
> {
    filter_datasets(desired.datasets, desired.ignored_datasets, desired.ignored_properties)
}

/// Plans the changes that bring the current state `actual` to the desired state `desired`,
/// leaving out the datasets and properties that the desired state's ignore patterns
/// match, and appends them to `producer`: for each desired dataset, shortest name first,
/// the property changes of a dataset that exists or the creation of a dataset that does
/// not (after its missing parents); then for each current dataset, the inheritance of
/// the properties set on it that the desired dataset does not state, or its destruction
/// where it is not desired. Desired properties that may not be set are recorded.
pub fn eval_spec(
    producer: &mut VecActionProducer,
    actual: ZfsSpecification,
    desired: ZfsSpecification,
    readings: &FractionReadings,
)
    ensures
        final(producer)@.actions == old(producer)@.actions + planned_additive(
            visible_actual(actual@.datasets, desired@),
            visible_desired(desired@),
            readings@,
        ),
        final(producer)@.errors == old(producer)@.errors + planned_refusals(
            visible_actual(actual@.datasets, desired@),
            visible_desired(desired@),
            readings@,
        ),
        final(producer)@.destructive == old(producer)@.destructive + planned_destroyed(
            visible_actual(actual@.datasets, desired@),
            visible_desired(desired@),
        ),
{
    let actual = filter_spec(
        actual,
        Some(&desired.ignored_datasets),
        Some(&desired.ignored_properties),
    );
    let desired = filter_spec(desired, None, None);
    let ghost a = actual@.datasets;
    let ghost d = desired@.datasets;
    let ghost ordered = length_order(d);
    let ghost actions0 = producer@.actions;
    let ghost errors0 = producer@.errors;
    let ghost destructive0 = producer@.destructive;
    let ghost for_desired = |e: (Seq<char>, DatasetView)| desired_actions(a, e, readings@);
    let ghost refused = |e: (Seq<char>, DatasetView)| desired_refusals(a, e, readings@);
    let ghost for_current = |e: (Seq<char>, DatasetView)| inherit_actions(d, e);
    let ghost undesired = |e: (Seq<char>, DatasetView)| !has_key(d, e.0);
    let ghost name_of = |e: (Seq<char>, DatasetView)| e.0;
    actual.datasets.reveal_unique_names();
    desired.datasets.reveal_unique_names();

    let n = desired.datasets.len();
    let mut lengths: Vec<usize> = Vec::new();
    let mut i: usize = 0;
    while i < n
        invariant
            n == d.len(),
            d == desired@.datasets,
            i <= n,
            lengths@.len() == i,
            forall|j: int| 0 <= j < i ==> #[trigger] lengths@[j] as nat == name_bytes(d[j].0),
        decreases n - i,
    {
        lengths.push(desired.datasets.key_at(i).as_str().as_bytes().len());
        i = i + 1;
    }
    let order = order_by_length(&lengths);
    proof {
        let by_lengths = |i: int|
            if 0 <= i < lengths@.len() {
                lengths@[i] as nat
            } else {
                0
            };
        let by_names = |i: int|
            if 0 <= i < d.len() {
                name_bytes(d[i].0)
            } else {
                0
            };
        assert(by_lengths =~= by_names);
        assert(ordered =~= order@.map_values(|i: usize| i as int).map_values(|i: int| d[i]));
    }

    let m = order.len();
    let mut k: usize = 0;
    while k < m
        invariant
            m == order@.len(),
            n == d.len(),
            a == actual@.datasets,
            d == desired@.datasets,
            ordered == order@.map_values(|i: usize| i as int).map_values(|i: int| d[i]),
            forall|j: int| 0 <= j < m ==> #[trigger] order@[j] < n,
            keys_unique(a),
            keys_unique(d),
            k <= m,
            for_desired == (|e: (Seq<char>, DatasetView)| desired_actions(a, e, readings@)),
            refused == (|e: (Seq<char>, DatasetView)| desired_refusals(a, e, readings@)),
            producer@.actions == actions0 + ordered.subrange(0, k as int).map_values(
                for_desired,
            ).flatten(),
            producer@.errors == errors0 + ordered.subrange(0, k as int).map_values(
                refused,
            ).flatten(),
            producer@.destructive == destructive0,
        decreases m - k,
    {
        proof {
            lemma_flatten_step(ordered, for_desired, k as int);
            lemma_flatten_step(ordered, refused, k as int);
        }
        let index = order[k];
        let name = desired.datasets.key_at(index);
        let wanted = desired.datasets.value_at(index);
        assert(ordered[k as int] == (name@, wanted@));
        let ghost actions_before = producer@.actions;
        let ghost errors_before = producer@.errors;
        match actual.get_dataset(name.as_str()) {
            Some(current) => {
                plan_existing(producer, name, current, wanted, readings);
                assert(producer@.errors =~= errors_before + refused(ordered[k as int]));
                assert(producer@.actions =~= actions_before + for_desired(ordered[k as int]));
            },
            None => {
                plan_missing(producer, name, wanted, &actual);
                assert(producer@.errors =~= errors_before + refused(ordered[k as int]));
                assert(producer@.actions =~= actions_before + for_desired(ordered[k as int]));
            },
        }
        k = k + 1;
    }
    assert(order@.map_values(|i: usize| i as int).map_values(|i: int| d[i]).subrange(0, m as int)
        =~= ordered);

    let ghost actions1 = producer@.actions;
    let c = actual.datasets.len();
    let mut i: usize = 0;
    while i < c
        invariant
            c == a.len(),
            a == actual@.datasets,
            d == desired@.datasets,
            i <= c,
            for_current == (|e: (Seq<char>, DatasetView)| inherit_actions(d, e)),
            undesired == (|e: (Seq<char>, DatasetView)| !has_key(d, e.0)),
            name_of == (|e: (Seq<char>, DatasetView)| e.0),
            producer@.actions == actions1 + a.subrange(0, i as int).map_values(
                for_current,
            ).flatten(),
            producer@.destructive == destructive0 + a.subrange(0, i as int).filter(
                undesired,
            ).map_values(name_of),
            producer@.errors == errors0 + ordered.map_values(refused).flatten(),
        decreases c - i,
    {
        proof {
            lemma_flatten_step(a, for_current, i as int);
            lemma_filter_map_step(a, undesired, name_of, i as int);
        }
        let name = actual.datasets.key_at(i);
        let current = actual.datasets.value_at(i);
        let ghost actions_before = producer@.actions;
        let ghost destructive_before = producer@.destructive;
        plan_current(producer, name, current, &desired);
        assert(a[i as int] == (name@, current@));
        assert(producer@.actions =~= actions_before + for_current(a[i as int]));
        assert(producer@.destructive =~= destructive_before + if undesired(a[i as int]) {
            seq![name@]
        } else {
            Seq::<Seq<char>>::empty()
        });
        i = i + 1;
    }
    assert(a.subrange(0, c as int) =~= a);
    assert(producer@.actions =~= actions0 + planned_additive(a, d, readings@));
}

/// The plan that brings the pool whose state `zfs get` reported as `zfs_list_output` to
/// the specification `zfs_specification` (as read, before its parent paths are added):
/// its additive changes, with repeated creations folded, its destructive changes, and the
/// desired properties that may not be set.
pub fn get_actions(
    zfs_specification: ZfsSpecification,
    zfs_list_output: crate::zfs_list_output::ZfsList,
    readings: &FractionReadings,
) -> (r: (ActionSet, Vec<UnsettableProperty>))
    ensures
        ({
            let expanded_spec = crate::zfs_specification::SpecificationView {
                datasets: crate::zfs_specification::expanded(zfs_specification@.datasets),
                ..zfs_specification@
            };
            let current = visible_actual(
                crate::zfs_list_output::specification_datasets(
                    zfs_list_output.datasets@,
                    crate::zfs_list_output::FilterView {
                        properties: None,
                        property_sources: None,
                    },
                ),
                expanded_spec,
            );
            let wanted = visible_desired(expanded_spec);
            &&& crate::actions::actions_view(r.0.additive@) == crate::producer::cleaned(
                planned_additive(current, wanted, readings@),
                readings@,
            )
            &&& crate::actions::destroyed_view(r.0.destrictive@) == planned_destroyed(
                current,
                wanted,
            )
            &&& crate::actions::unsettable_view(r.1@) == planned_refusals(
                current,
                wanted,
                readings@,
            )
        }),
{
    let mut specification = zfs_specification;
    specification.expand_sub_datasets();
    let actual = zfs_list_output.into_specification(
        &crate::zfs_list_output::SpecificationFilter::default(),
    );
    let mut producer = VecActionProducer::new();
    eval_spec(&mut producer, actual, specification, readings);
    assert(producer@.actions =~= planned_additive(
        visible_actual(actual@.datasets, specification@),
        visible_desired(specification@),
        readings@,
    ));
    producer.finalize(readings)
}

} // verus!
