//! Properties of the library that hold for all inputs: how property values compare, how
//! repeated creations fold, and what the plan may touch.

use vstd::prelude::*;

use crate::actions::{ActionView, ValuesView};
use crate::keyed::{has_key, keys_of, lookup};
use crate::planner::{
    create_empty, desired_actions, filter_datasets, k_syntax, ignore_properties, inherit_actions,
    length_order, local_not_desired, missing_parents, planned_additive, planned_destroyed,
    properties_to_set, property_values, visible_actual, visible_desired,
};
use crate::prefix_paths::{
    lemma_prefix_paths_of_prefix, lemma_slash_positions, prefix_paths, slash_positions,
};
use crate::producer::{changed_properties, cleaned, cleanup_from};
use crate::property::{
    equivalent_values, is_number_char, is_number_end, lemma_number_end, number_syntax,
    numeric_value, number_end,
    suffix_shift, value_eq, NumberSyntax, PropertyValueView,
};
use crate::text::{
    ascii_lower, ascii_upper, signed_reading, decimal_text, is_digit, lemma_decimal_text_reads_back, unsigned_reading,
};
use crate::zfs_specification::{
    add_missing, expand_with, expanded, matches_any, DatasetView, SpecificationView,
};

verus! {

/// Whether two values of a property mean the same setting does not depend on which of the
/// two is named first.
pub proof fn law_equivalence_symmetric(
    a: PropertyValueView,
    b: PropertyValueView,
    name: Seq<char>,
    readings: Seq<(Seq<char>, u32, Option<u64>)>,
)
    ensures
        equivalent_values(a, b, name, readings) == equivalent_values(b, a, name, readings),
{
}

/// Every value of a property means the same setting as itself.
pub proof fn law_equivalence_reflexive(
    a: PropertyValueView,
    name: Seq<char>,
    readings: Seq<(Seq<char>, u32, Option<u64>)>,
)
    ensures
        equivalent_values(a, a, name, readings),
{
}

/// The base-ten text of a number reads back as that number, whatever the readings of
/// fractional texts.
pub proof fn law_decimal_text_reads_back(n: u64, readings: Seq<(Seq<char>, u32, Option<u64>)>)
    ensures
        number_syntax(decimal_text(n as nat)) == NumberSyntax::Whole(n),
        numeric_value(decimal_text(n as nat), readings) == Some(n),
        value_eq(
            PropertyValueView::Number(n),
            PropertyValueView::String(decimal_text(n as nat)),
            readings,
        ),
{
    let s = decimal_text(n as nat);
    lemma_decimal_text_reads_back(n as nat);
    assert(is_number_end(s, s.len() as int));
    lemma_number_end(s, s.len() as int);
    let suffix = s.subrange(s.len() as int, s.len() as int);
    assert(suffix.map_values(|c: char| ascii_upper(c)) =~= ""@) by {
        reveal_strlit("");
    }
    assert(suffix_shift(suffix) == Some(0u32));
    assert(s.subrange(0, s.len() as int) =~= s);
    assert(!s.contains('.')) by {
        if s.contains('.') {
            let i = choose|i: int| 0 <= i < s.len() && s[i] == '.';
            assert(is_digit(s[i]));
        }
    }
    assert(unsigned_reading(s) == Some(n));
    assert(vstd::arithmetic::power2::pow2(0) == 1) by {
        vstd::arithmetic::power2::lemma2_to64();
    }
    assert(n * vstd::arithmetic::power2::pow2(0) == n);
}


/// Changing the letters of a text by `case` leaves its number part and its unit alone,
/// where `case` keeps digits and dots, turns no other character into one, and its result
/// upper-cases as the character does.
proof fn lemma_case_change(s: Seq<char>, case: spec_fn(char) -> char)
    requires
        forall|c: char| #[trigger] is_number_char(case(c)) == is_number_char(c),
        forall|c: char| is_number_char(c) ==> #[trigger] case(c) == c,
        forall|c: char| #[trigger] ascii_upper(case(c)) == ascii_upper(c),
    ensures
        number_syntax(s.map_values(case)) == number_syntax(s),
{
    let t = s.map_values(case);
    let k = number_end(s);
    crate::property::lemma_number_end_exists(s);
    assert forall|j: int| 0 <= j < k implies is_number_char(#[trigger] t[j]) by {
        assert(is_number_char(s[j]));
        assert(t[j] == case(s[j]));
    }
    if k < s.len() {
        assert(t[k] == case(s[k]));
    }
    assert(is_number_end(t, k));
    lemma_number_end(t, k);
    assert(t.subrange(0, k) =~= s.subrange(0, k)) by {
        assert forall|j: int| 0 <= j < k implies #[trigger] t[j] == s[j] by {
            assert(is_number_char(s[j]));
            assert(t[j] == case(s[j]));
        }
    }
    let ts = t.subrange(k, t.len() as int);
    let ss = s.subrange(k, s.len() as int);
    assert forall|j: int| 0 <= j < ts.len() implies ascii_upper(#[trigger] ts[j]) == ascii_upper(
        ss[j],
    ) by {
        assert(ts[j] == case(ss[j]));
    }
    assert(ts.map_values(|c: char| ascii_upper(c)) =~= ss.map_values(|c: char| ascii_upper(c)));
    assert(suffix_shift(ts) == suffix_shift(ss));
}

/// A unit suffix reads the same in any letter case: upper-casing or lower-casing the
/// ASCII letters of a numeric text does not change how it reads.
pub proof fn law_suffix_case_insensitive(s: Seq<char>)
    ensures
        number_syntax(s.map_values(|c: char| ascii_upper(c))) == number_syntax(s),
        number_syntax(s.map_values(|c: char| ascii_lower(c))) == number_syntax(s),
{
    lemma_case_change(s, |c: char| ascii_upper(c));
    lemma_case_change(s, |c: char| ascii_lower(c));
}

/// The name of the dataset that a change creates, if it creates one.
pub open spec fn created_name(a: ActionView) -> Option<Seq<char>> {
    match a {
        ActionView::Create { name, .. } => Some(name),
        _ => None,
    }
}

/// Whether no change of `s` creates a dataset named in `known` or created by an earlier
/// change of `s`.
pub open spec fn creates_fresh(s: Seq<ActionView>, known: Seq<(Seq<char>, ValuesView)>) -> bool {
    forall|i: int|
        0 <= i < s.len() && (#[trigger] created_name(s[i])) is Some ==> {
            &&& !has_key(known, created_name(s[i])->0)
            &&& forall|j: int| 0 <= j < i ==> created_name(s[j]) != created_name(s[i])
        }
}

proof fn lemma_has_key_push(known: Seq<(Seq<char>, ValuesView)>, n: Seq<char>, p: ValuesView, x: Seq<char>)
    ensures
        has_key(known.push((n, p)), x) <==> (has_key(known, x) || x == n),
{
    let k = known.push((n, p));
    if has_key(known, x) {
        let i = choose|i: int| 0 <= i < known.len() && known[i].0 == x;
        assert(k[i].0 == x);
    }
    if x == n {
        assert(k[known.len() as int].0 == x);
    }
    if has_key(k, x) {
        let i = choose|i: int| 0 <= i < k.len() && k[i].0 == x;
        if i < known.len() {
            assert(known[i].0 == x);
        }
    }
}

/// Changes whose creations are all fresh come through the folding unchanged.
proof fn lemma_fresh_cleanup_identity(
    s: Seq<ActionView>,
    known: Seq<(Seq<char>, ValuesView)>,
    readings: Seq<(Seq<char>, u32, Option<u64>)>,
)
    requires
        creates_fresh(s, known),
    ensures
        cleanup_from(s, known, readings) == s,
    decreases s.len(),
{
    if s.len() > 0 {
        let rest = s.drop_first();
        match s[0] {
            ActionView::Create { name, properties } => {
                assert(created_name(s[0]) is Some);
                let k2 = known.push((name, properties));
                assert forall|i: int|
                    0 <= i < rest.len() && (#[trigger] created_name(rest[i])) is Some implies {
                        &&& !has_key(k2, created_name(rest[i])->0)
                        &&& forall|j: int| 0 <= j < i ==> created_name(rest[j]) != created_name(rest[i])
                    } by {
                    assert(rest[i] == s[i + 1]);
                    assert(created_name(s[i + 1]) is Some);
                    assert(created_name(s[0]) != created_name(s[i + 1]));
                    lemma_has_key_push(known, name, properties, created_name(rest[i])->0);
                    assert forall|j: int| 0 <= j < i implies created_name(rest[j]) != created_name(rest[i]) by {
                        assert(rest[j] == s[j + 1]);
                    }
                }
                lemma_fresh_cleanup_identity(rest, k2, readings);
            },
            _ => {
                assert forall|i: int|
                    0 <= i < rest.len() && (#[trigger] created_name(rest[i])) is Some implies {
                        &&& !has_key(known, created_name(rest[i])->0)
                        &&& forall|j: int| 0 <= j < i ==> created_name(rest[j]) != created_name(rest[i])
                    } by {
                    assert(rest[i] == s[i + 1]);
                    assert(created_name(s[i + 1]) is Some);
                    assert forall|j: int| 0 <= j < i implies created_name(rest[j]) != created_name(rest[i]) by {
                        assert(rest[j] == s[j + 1]);
                    }
                }
                lemma_fresh_cleanup_identity(rest, known, readings);
            },
        }
        assert(seq![s[0]] + rest =~= s);
    }
}

/// After folding, every creation is fresh.
proof fn lemma_cleanup_fresh(
    s: Seq<ActionView>,
    known: Seq<(Seq<char>, ValuesView)>,
    readings: Seq<(Seq<char>, u32, Option<u64>)>,
)
    ensures
        creates_fresh(cleanup_from(s, known, readings), known),
    decreases s.len(),
{
    if s.len() > 0 {
        let rest = s.drop_first();
        let out = cleanup_from(s, known, readings);
        match s[0] {
            ActionView::Create { name, properties } => {
                match lookup(known, name) {
                    Some(existing) => {
                        lemma_cleanup_fresh(rest, known, readings);
                        let t = cleanup_from(rest, known, readings);
                        let head = out.subrange(0, out.len() - t.len());
                        assert(out =~= head + t);
                        assert(forall|i: int| 0 <= i < head.len() ==> created_name(#[trigger] head[i]) is None);
                        assert forall|i: int|
                            0 <= i < out.len() && (#[trigger] created_name(out[i])) is Some implies {
                                &&& !has_key(known, created_name(out[i])->0)
                                &&& forall|j: int| 0 <= j < i ==> created_name(out[j]) != created_name(out[i])
                            } by {
                            let h = head.len() as int;
                            if i < h {
                                assert(out[i] == head[i]);
                            } else {
                                assert(out[i] == t[i - h]);
                                assert(created_name(t[i - h]) is Some);
                                assert forall|j: int| 0 <= j < i implies created_name(out[j]) != created_name(out[i]) by {
                                    if j < h {
                                        assert(out[j] == head[j]);
                                    } else {
                                        assert(out[j] == t[j - h]);
                                    }
                                }
                            }
                        }
                    },
                    None => {
                        let k2 = known.push((name, properties));
                        lemma_cleanup_fresh(rest, k2, readings);
                        let t = cleanup_from(rest, k2, readings);
                        assert(out =~= seq![s[0]] + t);
                        assert forall|i: int|
                            0 <= i < out.len() && (#[trigger] created_name(out[i])) is Some implies {
                                &&& !has_key(known, created_name(out[i])->0)
                                &&& forall|j: int| 0 <= j < i ==> created_name(out[j]) != created_name(out[i])
                            } by {
                            if i == 0 {
                                assert(out[0] == s[0]);
                            } else {
                                assert(out[i] == t[i - 1]);
                                assert(created_name(t[i - 1]) is Some);
                                lemma_has_key_push(known, name, properties, created_name(out[i])->0);
                                assert forall|j: int| 0 <= j < i implies created_name(out[j]) != created_name(out[i]) by {
                                    if j == 0 {
                                        assert(out[0] == s[0]);
                                    } else {
                                        assert(out[j] == t[j - 1]);
                                    }
                                }
                            }
                        }
                    },
                }
            },
            _ => {
                lemma_cleanup_fresh(rest, known, readings);
                let t = cleanup_from(rest, known, readings);
                assert(out =~= seq![s[0]] + t);
                assert forall|i: int|
                    0 <= i < out.len() && (#[trigger] created_name(out[i])) is Some implies {
                        &&& !has_key(known, created_name(out[i])->0)
                        &&& forall|j: int| 0 <= j < i ==> created_name(out[j]) != created_name(out[i])
                    } by {
                    if i == 0 {
                        assert(out[0] == s[0]);
                    } else {
                        assert(out[i] == t[i - 1]);
                        assert(created_name(t[i - 1]) is Some);
                        assert forall|j: int| 0 <= j < i implies created_name(out[j]) != created_name(out[i]) by {
                            if j == 0 {
                                assert(out[0] == s[0]);
                            } else {
                                assert(out[j] == t[j - 1]);
                            }
                        }
                    }
                }
            },
        }
    }
}

/// After folding, no two changes create the same dataset.
pub proof fn law_cleanup_creates_once(
    actions: Seq<ActionView>,
    readings: Seq<(Seq<char>, u32, Option<u64>)>,
)
    ensures
        forall|i: int, j: int|
            0 <= j < i < cleaned(actions, readings).len() && created_name(
                #[trigger] cleaned(actions, readings)[i],
            ) is Some ==> created_name(#[trigger] cleaned(actions, readings)[j]) != created_name(
                cleaned(actions, readings)[i],
            ),
{
    lemma_cleanup_fresh(actions, Seq::empty(), readings);
}

/// Folding repeated creations a second time changes nothing.
pub proof fn law_cleanup_idempotent(
    actions: Seq<ActionView>,
    readings: Seq<(Seq<char>, u32, Option<u64>)>,
)
    ensures
        cleaned(cleaned(actions, readings), readings) == cleaned(actions, readings),
{
    lemma_cleanup_fresh(actions, Seq::empty(), readings);
    lemma_fresh_cleanup_identity(cleaned(actions, readings), Seq::empty(), readings);
}


/// Where every element of every part satisfies `q`, every element of the concatenation
/// does.
pub proof fn lemma_flatten_all<A>(parts: Seq<Seq<A>>, q: spec_fn(A) -> bool)
    requires
        forall|i: int, k: int| 0 <= i < parts.len() && 0 <= k < parts[i].len() ==> q(#[trigger] parts[i][k]),
    ensures
        forall|k: int| 0 <= k < parts.flatten().len() ==> q(#[trigger] parts.flatten()[k]),
    decreases parts.len(),
{
    if parts.len() > 0 {
        let rest = parts.drop_first();
        assert forall|i: int, k: int| 0 <= i < rest.len() && 0 <= k < rest[i].len() implies q(#[trigger] rest[i][k]) by {
            assert(rest[i] == parts[i + 1]);
        }
        lemma_flatten_all(rest, q);
        let f = parts.flatten();
        assert(f == parts[0] + rest.flatten());
        assert forall|k: int| 0 <= k < f.len() implies q(#[trigger] f[k]) by {
            if k < parts[0].len() {
                assert(f[k] == parts[0][k]);
            } else {
                assert(f[k] == rest.flatten()[k - parts[0].len()]);
            }
        }
    }
}

/// Folding creates no dataset that the changes did not create.
proof fn lemma_cleanup_creates_from(
    s: Seq<ActionView>,
    known: Seq<(Seq<char>, ValuesView)>,
    readings: Seq<(Seq<char>, u32, Option<u64>)>,
    p: spec_fn(Seq<char>) -> bool,
)
    requires
        forall|i: int| 0 <= i < s.len() && (#[trigger] created_name(s[i])) is Some ==> p(created_name(s[i])->0),
    ensures
        forall|i: int|
            0 <= i < cleanup_from(s, known, readings).len() && (#[trigger] created_name(
                cleanup_from(s, known, readings)[i],
            )) is Some ==> p(created_name(cleanup_from(s, known, readings)[i])->0),
    decreases s.len(),
{
    if s.len() > 0 {
        let rest = s.drop_first();
        assert forall|i: int| 0 <= i < rest.len() && (#[trigger] created_name(rest[i])) is Some implies p(created_name(rest[i])->0) by {
            assert(rest[i] == s[i + 1]);
        }
        let out = cleanup_from(s, known, readings);
        match s[0] {
            ActionView::Create { name, properties } => {
                assert(created_name(s[0]) is Some);
                match lookup(known, name) {
                    Some(existing) => {
                        lemma_cleanup_creates_from(rest, known, readings, p);
                        let t = cleanup_from(rest, known, readings);
                        let head = out.subrange(0, out.len() - t.len());
                        assert(out =~= head + t);
                        assert forall|i: int| 0 <= i < out.len() && (#[trigger] created_name(out[i])) is Some implies p(created_name(out[i])->0) by {
                            if i < head.len() {
                                assert(out[i] == head[i]);
                            } else {
                                assert(out[i] == t[i - head.len()]);
                            }
                        }
                    },
                    None => {
                        let k2 = known.push((name, properties));
                        lemma_cleanup_creates_from(rest, k2, readings, p);
                        let t = cleanup_from(rest, k2, readings);
                        assert(out =~= seq![s[0]] + t);
                        assert forall|i: int| 0 <= i < out.len() && (#[trigger] created_name(out[i])) is Some implies p(created_name(out[i])->0) by {
                            if i > 0 {
                                assert(out[i] == t[i - 1]);
                            }
                        }
                    },
                }
            },
            _ => {
                lemma_cleanup_creates_from(rest, known, readings, p);
                let t = cleanup_from(rest, known, readings);
                assert(out =~= seq![s[0]] + t);
                assert forall|i: int| 0 <= i < out.len() && (#[trigger] created_name(out[i])) is Some implies p(created_name(out[i])->0) by {
                    if i > 0 {
                        assert(out[i] == t[i - 1]);
                    }
                }
            },
        }
    }
}

/// Every dataset that the plan creates is one that does not exist yet.
proof fn lemma_planned_creates_missing(
    actual: Seq<(Seq<char>, DatasetView)>,
    desired: Seq<(Seq<char>, DatasetView)>,
    readings: Seq<(Seq<char>, u32, Option<u64>)>,
)
    ensures
        forall|i: int|
            0 <= i < planned_additive(actual, desired, readings).len() && (#[trigger] created_name(
                planned_additive(actual, desired, readings)[i],
            )) is Some ==> !has_key(
                actual,
                created_name(planned_additive(actual, desired, readings)[i])->0,
            ),
{
    broadcast use vstd::seq_lib::group_filter_ensures;

    let q = |a: ActionView| created_name(a) is Some ==> !has_key(actual, created_name(a)->0);
    let ordered = crate::planner::length_order(desired);
    let first = ordered.map_values(|d: (Seq<char>, DatasetView)| desired_actions(actual, d, readings));
    let second = actual.map_values(|a: (Seq<char>, DatasetView)| inherit_actions(desired, a));
    assert forall|i: int, k: int| 0 <= i < first.len() && 0 <= k < first[i].len() implies q(#[trigger] first[i][k]) by {
        let d = ordered[i];
        if lookup(actual, d.0) is None {
            let parents = missing_parents(actual, d.0);
            let block = parents.map_values(|p: Seq<char>| create_empty(p));
            if k < block.len() {
                assert(first[i][k] == create_empty(parents[k]));
                assert(!has_key(actual, parents[k]));
            }
        }
    }
    assert forall|i: int, k: int| 0 <= i < second.len() && 0 <= k < second[i].len() implies q(#[trigger] second[i][k]) by {
    }
    lemma_flatten_all(first, q);
    lemma_flatten_all(second, q);
    let all = planned_additive(actual, desired, readings);
    assert forall|i: int| 0 <= i < all.len() implies q(#[trigger] all[i]) by {
        if i < first.flatten().len() {
            assert(all[i] == first.flatten()[i]);
        } else {
            assert(all[i] == second.flatten()[i - first.flatten().len()]);
        }
    }
}

/// The plan creates only datasets that do not exist and destroys only datasets that exist
/// and are not desired, so it never both creates and destroys a dataset.
pub proof fn law_creates_and_destroys_apart(
    actual: Seq<(Seq<char>, DatasetView)>,
    desired: Seq<(Seq<char>, DatasetView)>,
    readings: Seq<(Seq<char>, u32, Option<u64>)>,
)
    ensures
        forall|i: int|
            0 <= i < cleaned(planned_additive(actual, desired, readings), readings).len()
                && (#[trigger] created_name(
                cleaned(planned_additive(actual, desired, readings), readings)[i],
            )) is Some ==> !has_key(
                actual,
                created_name(cleaned(planned_additive(actual, desired, readings), readings)[i])->0,
            ),
        forall|j: int|
            0 <= j < planned_destroyed(actual, desired).len() ==> has_key(
                actual,
                #[trigger] planned_destroyed(actual, desired)[j],
            ) && !has_key(desired, planned_destroyed(actual, desired)[j]),
        forall|i: int, j: int|
            0 <= i < cleaned(planned_additive(actual, desired, readings), readings).len() && 0 <= j
                < planned_destroyed(actual, desired).len() ==> created_name(
                #[trigger] cleaned(planned_additive(actual, desired, readings), readings)[i],
            ) != Some(#[trigger] planned_destroyed(actual, desired)[j]),
{
    broadcast use vstd::seq_lib::group_filter_ensures;

    lemma_planned_creates_missing(actual, desired, readings);
    let s = planned_additive(actual, desired, readings);
    lemma_cleanup_creates_from(s, Seq::empty(), readings, |n: Seq<char>| !has_key(actual, n));
    let kept = actual.filter(|a: (Seq<char>, DatasetView)| !has_key(desired, a.0));
    assert forall|j: int| 0 <= j < planned_destroyed(actual, desired).len() implies has_key(
        actual,
        #[trigger] planned_destroyed(actual, desired)[j],
    ) && !has_key(desired, planned_destroyed(actual, desired)[j]) by {
        assert(planned_destroyed(actual, desired)[j] == kept[j].0);
        assert(kept.contains(kept[j]));
        actual.lemma_filter_contains_rev(|a: (Seq<char>, DatasetView)| !has_key(desired, a.0), kept[j]);
        let m = choose|m: int| 0 <= m < actual.len() && actual[m] == kept[j];
        assert(actual[m].0 == kept[j].0);
    }
}


/// Adding missing datasets keeps the datasets there were, adds exactly the missing names,
/// and gives each added dataset no properties.
proof fn lemma_add_missing(datasets: Seq<(Seq<char>, DatasetView)>, names: Seq<Seq<char>>)
    ensures
        add_missing(datasets, names).len() >= datasets.len(),
        add_missing(datasets, names).subrange(0, datasets.len() as int) == datasets,
        forall|k: Seq<char>|
            #[trigger] has_key(add_missing(datasets, names), k) <==> (has_key(datasets, k)
                || names.contains(k)),
        forall|i: int|
            datasets.len() <= i < add_missing(datasets, names).len() ==> (#[trigger] add_missing(
                datasets,
                names,
            )[i]).1 == Seq::<(Seq<char>, crate::zfs_specification::PropertyView)>::empty(),
    decreases names.len(),
{
    if names.len() == 0 {
        assert(datasets.subrange(0, datasets.len() as int) =~= datasets);
    } else {
        let rest = names.drop_last();
        let last = names.last();
        lemma_add_missing(datasets, rest);
        let before = add_missing(datasets, rest);
        let after = add_missing(datasets, names);
        assert forall|k: Seq<char>| names.contains(k) <==> (rest.contains(k) || k == last) by {
            if names.contains(k) {
                let i = choose|i: int| 0 <= i < names.len() && names[i] == k;
                if i < names.len() - 1 {
                    assert(rest[i] == k);
                }
            }
            if rest.contains(k) {
                let i = choose|i: int| 0 <= i < rest.len() && rest[i] == k;
                assert(names[i] == k);
            }
            if k == last {
                assert(names[names.len() - 1] == k);
            }
        }
        if !has_key(before, last) {
            assert forall|k: Seq<char>| has_key(after, k) <==> (has_key(before, k) || k == last) by {
                if has_key(after, k) {
                    let i = choose|i: int| 0 <= i < after.len() && after[i].0 == k;
                    if i < before.len() {
                        assert(before[i].0 == k);
                    }
                }
                if has_key(before, k) {
                    let i = choose|i: int| 0 <= i < before.len() && before[i].0 == k;
                    assert(after[i].0 == k);
                }
                if k == last {
                    assert(after[before.len() as int].0 == k);
                }
            }
            assert(after.subrange(0, datasets.len() as int) =~= before.subrange(0, datasets.len() as int));
        } else {
            assert forall|k: Seq<char>| has_key(after, k) <==> (has_key(before, k) || k == last) by {
            }
        }
    }
}

/// Whether `k` is a parent path of one of `names`.
pub open spec fn is_parent_path_of_any(names: Seq<Seq<char>>, k: Seq<char>) -> bool {
    exists|i: int, m: int|
        0 <= i < names.len() && 0 <= m < prefix_paths(names[i]).len() && #[trigger] prefix_paths(
            names[i],
        )[m] == k
}

/// Adding the parent paths of some names keeps the datasets there were, adds exactly the
/// missing parent paths, and gives each added dataset no properties.
proof fn lemma_expand_with(datasets: Seq<(Seq<char>, DatasetView)>, names: Seq<Seq<char>>)
    ensures
        expand_with(datasets, names).len() >= datasets.len(),
        expand_with(datasets, names).subrange(0, datasets.len() as int) == datasets,
        forall|k: Seq<char>|
            #[trigger] has_key(expand_with(datasets, names), k) <==> (has_key(datasets, k)
                || is_parent_path_of_any(names, k)),
        forall|i: int|
            datasets.len() <= i < expand_with(datasets, names).len() ==> (
            #[trigger] expand_with(datasets, names)[i]).1 == Seq::<
                (Seq<char>, crate::zfs_specification::PropertyView),
            >::empty(),
    decreases names.len(),
{
    if names.len() == 0 {
        assert(datasets.subrange(0, datasets.len() as int) =~= datasets);
    } else {
        let rest = names.drop_last();
        let last = names.last();
        lemma_expand_with(datasets, rest);
        let before = expand_with(datasets, rest);
        lemma_add_missing(before, prefix_paths(last));
        let after = expand_with(datasets, names);
        assert(after.subrange(0, datasets.len() as int) =~= add_missing(before, prefix_paths(last)).subrange(0, before.len() as int).subrange(0, datasets.len() as int));
        assert forall|i: int| datasets.len() <= i < after.len() implies (#[trigger] after[i]).1 == Seq::<(Seq<char>, crate::zfs_specification::PropertyView)>::empty() by {
            if i < before.len() {
                assert(after[i] == add_missing(before, prefix_paths(last)).subrange(0, before.len() as int)[i]);
            }
        }
        assert forall|k: Seq<char>| has_key(after, k) <==> (has_key(datasets, k) || is_parent_path_of_any(names, k)) by {
            if is_parent_path_of_any(names, k) {
                let (i, m) = choose|i: int, m: int| 0 <= i < names.len() && 0 <= m < prefix_paths(names[i]).len() && #[trigger] prefix_paths(names[i])[m] == k;
                if i < names.len() - 1 {
                    assert(rest[i] == names[i]);
                    assert(is_parent_path_of_any(rest, k));
                } else {
                    assert(prefix_paths(last).contains(k));
                }
            }
            if is_parent_path_of_any(rest, k) {
                let (i, m) = choose|i: int, m: int| 0 <= i < rest.len() && 0 <= m < prefix_paths(rest[i]).len() && #[trigger] prefix_paths(rest[i])[m] == k;
                assert(names[i] == rest[i]);
                assert(prefix_paths(names[i])[m] == k);
            }
            if prefix_paths(last).contains(k) {
                let m = choose|m: int| 0 <= m < prefix_paths(last).len() && prefix_paths(last)[m] == k;
                assert(names[names.len() - 1] == last);
                assert(prefix_paths(names[names.len() - 1])[m] == k);
            }
        }
    }
}

/// Adding the parent datasets keeps every stated dataset, in front and unchanged; the
/// added datasets have no properties; and afterwards every parent path of every dataset is
/// a dataset of the specification.
pub proof fn law_expansion_adds_every_parent(datasets: Seq<(Seq<char>, DatasetView)>)
    ensures
        expanded(datasets).subrange(0, datasets.len() as int) == datasets,
        forall|i: int|
            datasets.len() <= i < expanded(datasets).len() ==> (#[trigger] expanded(datasets)[i]).1
                == Seq::<(Seq<char>, crate::zfs_specification::PropertyView)>::empty(),
        forall|i: int, m: int|
            0 <= i < expanded(datasets).len() && 0 <= m < prefix_paths(expanded(datasets)[i].0).len()
                ==> has_key(
                expanded(datasets),
                #[trigger] prefix_paths(expanded(datasets)[i].0)[m],
            ),
{
    let names = keys_of(datasets);
    let e = expanded(datasets);
    lemma_expand_with(datasets, names);
    assert forall|i: int, m: int|
        0 <= i < e.len() && 0 <= m < prefix_paths(e[i].0).len() implies has_key(
        e,
        #[trigger] prefix_paths(e[i].0)[m],
    ) by {
        let key = e[i].0;
        assert(has_key(e, key));
        if has_key(datasets, key) {
            let j = choose|j: int| 0 <= j < datasets.len() && datasets[j].0 == key;
            assert(names[j] == key);
            assert(is_parent_path_of_any(names, prefix_paths(key)[m]));
        } else {
            let (j, m0) = choose|j: int, m0: int| 0 <= j < names.len() && 0 <= m0 < prefix_paths(names[j]).len() && #[trigger] prefix_paths(names[j])[m0] == key;
            lemma_prefix_paths_of_prefix(names[j], m0);
            assert(prefix_paths(key)[m] == prefix_paths(names[j])[m]);
            assert(is_parent_path_of_any(names, prefix_paths(key)[m]));
        }
    }
}


/// Whether a change before position `i` of `s` creates the dataset `p`.
pub open spec fn created_before(s: Seq<ActionView>, i: int, p: Seq<char>) -> bool {
    exists|j: int| 0 <= j < i && #[trigger] created_name(s[j]) == Some(p)
}

/// Whether every parent path of a dataset created at position `i`, that is not a current
/// dataset, is named in `known` or created before position `i`.
pub open spec fn parents_ready(
    s: Seq<ActionView>,
    i: int,
    actual: Seq<(Seq<char>, DatasetView)>,
    known: Seq<(Seq<char>, ValuesView)>,
) -> bool {
    created_name(s[i]) is Some ==> forall|m: int|
        0 <= m < prefix_paths(created_name(s[i])->0).len() && !has_key(
            actual,
            #[trigger] prefix_paths(created_name(s[i])->0)[m],
        ) ==> has_key(known, prefix_paths(created_name(s[i])->0)[m]) || created_before(
            s,
            i,
            prefix_paths(created_name(s[i])->0)[m],
        )
}

/// Whether every dataset that `s` creates comes after the creation of each of its missing
/// parents (or after the parent is named in `known`).
pub open spec fn parents_first(
    s: Seq<ActionView>,
    actual: Seq<(Seq<char>, DatasetView)>,
    known: Seq<(Seq<char>, ValuesView)>,
) -> bool {
    forall|i: int| 0 <= i < s.len() ==> #[trigger] parents_ready(s, i, actual, known)
}

/// Creations whose parents come first within each part still have them first in the
/// concatenation.
proof fn lemma_parents_first_concat(
    s: Seq<ActionView>,
    t: Seq<ActionView>,
    actual: Seq<(Seq<char>, DatasetView)>,
    known: Seq<(Seq<char>, ValuesView)>,
)
    requires
        parents_first(s, actual, known),
        parents_first(t, actual, known),
    ensures
        parents_first(s + t, actual, known),
{
    let st = s + t;
    assert forall|i: int| 0 <= i < st.len() implies #[trigger] parents_ready(st, i, actual, known) by {
        if i < s.len() {
            assert(st[i] == s[i]);
            assert(parents_ready(s, i, actual, known));
            assert forall|p: Seq<char>| created_before(s, i, p) implies created_before(st, i, p) by {
                let j = choose|j: int| 0 <= j < i && #[trigger] created_name(s[j]) == Some(p);
                assert(st[j] == s[j]);
            }
        } else {
            let k = i - s.len();
            assert(st[i] == t[k]);
            assert(parents_ready(t, k, actual, known));
            assert forall|p: Seq<char>| created_before(t, k, p) implies created_before(st, i, p) by {
                let j = choose|j: int| 0 <= j < k && #[trigger] created_name(t[j]) == Some(p);
                assert(st[j + s.len()] == t[j]);
            }
        }
    }
}

/// Concatenating parts whose creations have their parents first keeps them first.
proof fn lemma_parents_first_flatten(
    parts: Seq<Seq<ActionView>>,
    actual: Seq<(Seq<char>, DatasetView)>,
    known: Seq<(Seq<char>, ValuesView)>,
)
    requires
        forall|i: int| 0 <= i < parts.len() ==> parents_first(#[trigger] parts[i], actual, known),
    ensures
        parents_first(parts.flatten(), actual, known),
    decreases parts.len(),
{
    if parts.len() == 0 {
        assert(parts.flatten() =~= Seq::<ActionView>::empty());
    } else {
        let rest = parts.drop_first();
        assert forall|i: int| 0 <= i < rest.len() implies parents_first(#[trigger] rest[i], actual, known) by {
            assert(rest[i] == parts[i + 1]);
        }
        lemma_parents_first_flatten(rest, actual, known);
        assert(parents_first(parts[0], actual, known));
        lemma_parents_first_concat(parts[0], rest.flatten(), actual, known);
    }
}

/// A parent path is as long as the position of its slash.
proof fn lemma_prefix_path_len(s: Seq<char>, a: int)
    requires
        0 <= a < prefix_paths(s).len(),
    ensures
        prefix_paths(s)[a].len() == slash_positions(s)[a],
        prefix_paths(s)[a] == s.subrange(0, slash_positions(s)[a]),
{
    lemma_slash_positions(s);
}

/// The creations for a desired dataset that does not exist come after the creations of
/// its missing parents.
proof fn lemma_block_parents_first(
    actual: Seq<(Seq<char>, DatasetView)>,
    name: Seq<char>,
    properties: ValuesView,
)
    ensures
        parents_first(
            crate::planner::missing_parents(actual, name).map_values(|p: Seq<char>| create_empty(p)).push(
                ActionView::Create { name: name, properties: properties },
            ),
            actual,
            Seq::empty(),
        ),
{
    broadcast use vstd::seq_lib::group_filter_ensures;
    broadcast use Seq::lemma_filter_contains_rev;

    let pp = prefix_paths(name);
    let missing = |p: Seq<char>| !has_key(actual, p);
    let mp = pp.filter(missing);
    let block = mp.map_values(|p: Seq<char>| create_empty(p)).push(
        ActionView::Create { name: name, properties: properties },
    );
    lemma_slash_positions(name);
    assert forall|i: int| 0 <= i < block.len() implies #[trigger] parents_ready(block, i, actual, Seq::empty()) by {
        if i < mp.len() {
            let n = mp[i];
            assert(block[i] == create_empty(n));
            assert(mp.contains(n));
            assert(pp.contains(n));
            let m0 = choose|m0: int| 0 <= m0 < pp.len() && pp[m0] == n;
            lemma_prefix_paths_of_prefix(name, m0);
            let f1 = pp.subrange(0, m0).filter(missing);
            let f2 = pp.subrange(m0, pp.len() as int).filter(missing);
            assert(pp =~= pp.subrange(0, m0) + pp.subrange(m0, pp.len() as int));
            Seq::filter_distributes_over_add(pp.subrange(0, m0), pp.subrange(m0, pp.len() as int), missing);
            assert(mp == f1 + f2);
            // Every element of f1 is shorter than n, so n sits at or after the end of f1.
            if i < f1.len() {
                assert(f1.contains(f1[i]));
                pp.subrange(0, m0).lemma_filter_contains_rev(missing, f1[i]);
                let a = choose|a: int| 0 <= a < m0 && pp.subrange(0, m0)[a] == f1[i];
                lemma_prefix_path_len(name, a);
                lemma_prefix_path_len(name, m0);
                assert(mp[i] == f1[i]);
                assert(false);
            }
            assert forall|m: int|
                0 <= m < prefix_paths(n).len() && !has_key(actual, #[trigger] prefix_paths(n)[m])
                implies created_before(block, i, prefix_paths(n)[m]) by {
                let x = prefix_paths(n)[m];
                assert(x == pp[m]);
                assert(pp.subrange(0, m0)[m] == x);
                assert(f1.contains(x));
                let j = choose|j: int| 0 <= j < f1.len() && f1[j] == x;
                assert(mp[j] == x);
                assert(block[j] == create_empty(x));
                assert(created_name(block[j]) == Some(x));
            }
        } else {
            assert(block[i] == ActionView::Create { name: name, properties: properties });
            assert forall|m: int|
                0 <= m < prefix_paths(name).len() && !has_key(actual, #[trigger] prefix_paths(name)[m])
                implies created_before(block, i, prefix_paths(name)[m]) by {
                let x = pp[m];
                assert(mp.contains(x));
                let j = choose|j: int| 0 <= j < mp.len() && mp[j] == x;
                assert(block[j] == create_empty(x));
                assert(created_name(block[j]) == Some(x));
            }
        }
    }
}

/// In the plan before folding, every dataset is created after its missing parents.
proof fn lemma_planned_parents_first(
    actual: Seq<(Seq<char>, DatasetView)>,
    desired: Seq<(Seq<char>, DatasetView)>,
    readings: Seq<(Seq<char>, u32, Option<u64>)>,
)
    ensures
        parents_first(planned_additive(actual, desired, readings), actual, Seq::empty()),
{
    let ordered = crate::planner::length_order(desired);
    let first = ordered.map_values(|d: (Seq<char>, DatasetView)| desired_actions(actual, d, readings));
    let second = actual.map_values(|a: (Seq<char>, DatasetView)| inherit_actions(desired, a));
    let known = Seq::<(Seq<char>, ValuesView)>::empty();
    assert forall|i: int| 0 <= i < first.len() implies parents_first(#[trigger] first[i], actual, known) by {
        let d = ordered[i];
        if lookup(actual, d.0) is None {
            lemma_block_parents_first(actual, d.0, crate::planner::property_values(d.1));
        } else {
            assert forall|k: int| 0 <= k < first[i].len() implies #[trigger] parents_ready(first[i], k, actual, known) by {
                assert(created_name(first[i][k]) is None);
            }
        }
    }
    assert forall|i: int| 0 <= i < second.len() implies parents_first(#[trigger] second[i], actual, known) by {
        assert forall|k: int| 0 <= k < second[i].len() implies #[trigger] parents_ready(second[i], k, actual, known) by {
            assert(created_name(second[i][k]) is None);
        }
    }
    lemma_parents_first_flatten(first, actual, known);
    lemma_parents_first_flatten(second, actual, known);
    lemma_parents_first_concat(first.flatten(), second.flatten(), actual, known);
}


/// Folding repeated creations keeps every creation after the creations of its missing
/// parents.
proof fn lemma_cleanup_parents_first(
    s: Seq<ActionView>,
    actual: Seq<(Seq<char>, DatasetView)>,
    known: Seq<(Seq<char>, ValuesView)>,
    readings: Seq<(Seq<char>, u32, Option<u64>)>,
)
    requires
        parents_first(s, actual, known),
    ensures
        parents_first(cleanup_from(s, known, readings), actual, known),
    decreases s.len(),
{
    if s.len() > 0 {
        let rest = s.drop_first();
        let out = cleanup_from(s, known, readings);
        match s[0] {
            ActionView::Create { name, properties } => {
                match lookup(known, name) {
                    Some(existing) => {
                        assert forall|i: int| 0 <= i < rest.len() implies #[trigger] parents_ready(rest, i, actual, known) by {
                            assert(rest[i] == s[i + 1]);
                            assert(parents_ready(s, i + 1, actual, known));
                            assert forall|p: Seq<char>| created_before(s, i + 1, p) implies has_key(known, p) || created_before(rest, i, p) by {
                                let j = choose|j: int| 0 <= j < i + 1 && #[trigger] created_name(s[j]) == Some(p);
                                if j > 0 {
                                    assert(rest[j - 1] == s[j]);
                                } else {
                                    assert(p == name);
                                }
                            }
                        }
                        lemma_cleanup_parents_first(rest, actual, known, readings);
                        let t = cleanup_from(rest, known, readings);
                        let head = out.subrange(0, out.len() - t.len());
                        assert(out =~= head + t);
                        assert forall|i: int| 0 <= i < head.len() implies #[trigger] parents_ready(head, i, actual, known) by {
                            assert(created_name(head[i]) is None);
                        }
                        lemma_parents_first_concat(head, t, actual, known);
                    },
                    None => {
                        let k2 = known.push((name, properties));
                        assert forall|i: int| 0 <= i < rest.len() implies #[trigger] parents_ready(rest, i, actual, k2) by {
                            assert(rest[i] == s[i + 1]);
                            assert(parents_ready(s, i + 1, actual, known));
                            assert forall|p: Seq<char>| has_key(known, p) || created_before(s, i + 1, p) implies has_key(k2, p) || created_before(rest, i, p) by {
                                lemma_has_key_push(known, name, properties, p);
                                if created_before(s, i + 1, p) {
                                    let j = choose|j: int| 0 <= j < i + 1 && #[trigger] created_name(s[j]) == Some(p);
                                    if j > 0 {
                                        assert(rest[j - 1] == s[j]);
                                    }
                                }
                            }
                        }
                        lemma_cleanup_parents_first(rest, actual, k2, readings);
                        let t = cleanup_from(rest, k2, readings);
                        assert(out =~= seq![s[0]] + t);
                        assert forall|i: int| 0 <= i < out.len() implies #[trigger] parents_ready(out, i, actual, known) by {
                            if i == 0 {
                                assert(out[0] == s[0]);
                                assert(parents_ready(s, 0, actual, known));
                            } else {
                                assert(out[i] == t[i - 1]);
                                assert(parents_ready(t, i - 1, actual, k2));
                                assert forall|p: Seq<char>| has_key(k2, p) || created_before(t, i - 1, p) implies has_key(known, p) || created_before(out, i, p) by {
                                    lemma_has_key_push(known, name, properties, p);
                                    if p == name {
                                        assert(created_name(out[0]) == Some(p));
                                    }
                                    if created_before(t, i - 1, p) {
                                        let j = choose|j: int| 0 <= j < i - 1 && #[trigger] created_name(t[j]) == Some(p);
                                        assert(out[j + 1] == t[j]);
                                    }
                                }
                            }
                        }
                    },
                }
            },
            _ => {
                assert forall|i: int| 0 <= i < rest.len() implies #[trigger] parents_ready(rest, i, actual, known) by {
                    assert(rest[i] == s[i + 1]);
                    assert(parents_ready(s, i + 1, actual, known));
                    assert forall|p: Seq<char>| created_before(s, i + 1, p) implies created_before(rest, i, p) by {
                        let j = choose|j: int| 0 <= j < i + 1 && #[trigger] created_name(s[j]) == Some(p);
                        assert(j > 0);
                        assert(rest[j - 1] == s[j]);
                    }
                }
                lemma_cleanup_parents_first(rest, actual, known, readings);
                let t = cleanup_from(rest, known, readings);
                assert(out =~= seq![s[0]] + t);
                assert(parents_ready(seq![s[0]], 0, actual, known));
                lemma_parents_first_concat(seq![s[0]], t, actual, known);
            },
        }
    }
}

/// Adding names that all are datasets already changes nothing.
proof fn lemma_add_present(datasets: Seq<(Seq<char>, DatasetView)>, names: Seq<Seq<char>>)
    requires
        forall|i: int| 0 <= i < names.len() ==> has_key(datasets, #[trigger] names[i]),
    ensures
        add_missing(datasets, names) == datasets,
    decreases names.len(),
{
    if names.len() > 0 {
        let rest = names.drop_last();
        assert forall|i: int| 0 <= i < rest.len() implies has_key(datasets, #[trigger] rest[i]) by {
            assert(rest[i] == names[i]);
        }
        lemma_add_present(datasets, rest);
        assert(has_key(datasets, names[names.len() - 1]));
    }
}

/// Adding the parent paths of names whose parent paths all are datasets changes nothing.
proof fn lemma_expand_closed(datasets: Seq<(Seq<char>, DatasetView)>, names: Seq<Seq<char>>)
    requires
        forall|i: int, m: int|
            0 <= i < names.len() && 0 <= m < prefix_paths(names[i]).len() ==> has_key(
                datasets,
                #[trigger] prefix_paths(names[i])[m],
            ),
    ensures
        expand_with(datasets, names) == datasets,
    decreases names.len(),
{
    if names.len() > 0 {
        let rest = names.drop_last();
        let last = names[names.len() - 1];
        assert forall|i: int, m: int|
            0 <= i < rest.len() && 0 <= m < prefix_paths(rest[i]).len() implies has_key(
            datasets,
            #[trigger] prefix_paths(rest[i])[m],
        ) by {
            assert(rest[i] == names[i]);
        }
        lemma_expand_closed(datasets, rest);
        let paths = prefix_paths(last);
        assert forall|m: int| 0 <= m < paths.len() implies has_key(datasets, #[trigger] paths[m]) by {
            assert(prefix_paths(names[names.len() - 1])[m] == paths[m]);
        }
        lemma_add_present(datasets, paths);
    }
}

/// Adding the parent datasets a second time changes nothing.
pub proof fn law_expansion_idempotent(datasets: Seq<(Seq<char>, DatasetView)>)
    ensures
        expanded(expanded(datasets)) == expanded(datasets),
{
    let e = expanded(datasets);
    law_expansion_adds_every_parent(datasets);
    let names = keys_of(e);
    assert forall|i: int, m: int|
        0 <= i < names.len() && 0 <= m < prefix_paths(names[i]).len() implies has_key(
        e,
        #[trigger] prefix_paths(names[i])[m],
    ) by {
        assert(names[i] == e[i].0);
        assert(has_key(e, prefix_paths(e[i].0)[m]));
    }
    lemma_expand_closed(e, names);
}

/// In the plan, every dataset is created after each of its parent paths that is not a
/// current dataset: parents are always created before their children.
pub proof fn law_parents_created_first(
    actual: Seq<(Seq<char>, DatasetView)>,
    desired: Seq<(Seq<char>, DatasetView)>,
    readings: Seq<(Seq<char>, u32, Option<u64>)>,
)
    ensures
        parents_first(
            cleaned(planned_additive(actual, desired, readings), readings),
            actual,
            Seq::empty(),
        ),
{
    lemma_planned_parents_first(actual, desired, readings);
    lemma_cleanup_parents_first(
        planned_additive(actual, desired, readings),
        actual,
        Seq::empty(),
        readings,
    );
}

/// The desired datasets are planned shortest name first: the order holds as many entries
/// as there are datasets, each dataset appears in it, and no name in it is longer, in
/// bytes, than a name after it.
pub proof fn law_shortest_name_first(datasets: Seq<(Seq<char>, DatasetView)>)
    ensures
        length_order(datasets).len() == datasets.len(),
        forall|i: int, j: int|
            0 <= i < j < datasets.len() ==> crate::planner::name_bytes(
                (#[trigger] length_order(datasets)[i]).0,
            ) <= crate::planner::name_bytes((#[trigger] length_order(datasets)[j]).0),
        forall|k: int| 0 <= k < datasets.len() ==> length_order(datasets).contains(#[trigger] datasets[k]),
{
    broadcast use vstd::seq_lib::group_to_multiset_ensures;

    let n = datasets.len();
    let key = |i: int|
        if 0 <= i < datasets.len() {
            crate::planner::name_bytes(datasets[i].0)
        } else {
            0
        };
    let order = crate::order::sort_by_key(crate::order::positions(n), key);
    crate::order::lemma_sort_sorted(crate::order::positions(n), key);
    crate::order::lemma_sort_all(crate::order::positions(n), key, |i: int| 0 <= i < n);
    assert(order.len() == n) by {
        assert(order.to_multiset().len() == crate::order::positions(n).to_multiset().len());
    }
    let ordered = length_order(datasets);
    assert forall|i: int, j: int| 0 <= i < j < datasets.len() implies crate::planner::name_bytes(
        (#[trigger] ordered[i]).0,
    ) <= crate::planner::name_bytes((#[trigger] ordered[j]).0) by {
        assert(key(order[i]) <= key(order[j]));
        assert(0 <= order[i] < n && 0 <= order[j] < n);
    }
    assert forall|k: int| 0 <= k < datasets.len() implies ordered.contains(#[trigger] datasets[k]) by {
        let p = crate::order::positions(n);
        assert(p[k] == k);
        assert(p.to_multiset().count(k) > 0);
        assert(order.to_multiset().count(k) > 0);
        assert(order.contains(k));
        let idx = choose|idx: int| 0 <= idx < order.len() && order[idx] == k;
        assert(ordered[idx] == datasets[k]);
    }
}


/// Whether a change stays clear of the ignore patterns: it names no ignored property, and
/// it sets or inherits properties only on a dataset that no dataset pattern matches (a
/// creation with properties counts as setting them).
pub open spec fn respects_ignores(
    a: ActionView,
    dataset_patterns: Seq<Seq<char>>,
    property_patterns: Seq<Seq<char>>,
) -> bool {
    match a {
        ActionView::Create { name, properties } => {
            &&& properties.len() > 0 ==> !matches_any(dataset_patterns, name)
            &&& forall|k: int|
                0 <= k < properties.len() ==> !matches_any(property_patterns, #[trigger] properties[k].0)
        },
        ActionView::SetProps { dataset, properties } => {
            &&& !matches_any(dataset_patterns, dataset)
            &&& forall|k: int|
                0 <= k < properties.len() ==> !matches_any(property_patterns, #[trigger] properties[k].0)
        },
        ActionView::Inherit { dataset, properties } => {
            &&& !matches_any(dataset_patterns, dataset)
            &&& forall|k: int|
                0 <= k < properties.len() ==> !matches_any(property_patterns, #[trigger] properties[k])
        },
    }
}

/// Every dataset that the filter keeps has a name no dataset pattern matches, and
/// properties no property pattern matches.
proof fn lemma_filtered_dataset(
    datasets: Seq<(Seq<char>, DatasetView)>,
    dp: Seq<Seq<char>>,
    pp: Seq<Seq<char>>,
    i: int,
)
    requires
        0 <= i < filter_datasets(datasets, dp, pp).len(),
    ensures
        !matches_any(dp, filter_datasets(datasets, dp, pp)[i].0),
        forall|k: int|
            0 <= k < filter_datasets(datasets, dp, pp)[i].1.len() ==> !matches_any(
                pp,
                #[trigger] filter_datasets(datasets, dp, pp)[i].1[k].0,
            ),
{
    broadcast use vstd::seq_lib::group_filter_ensures;

    let keep = |e: (Seq<char>, DatasetView)| !matches_any(dp, e.0);
    let kept = datasets.filter(keep);
    let e = kept[i];
    assert(keep(e));
    let props = ignore_properties(e.1, pp);
    assert(filter_datasets(datasets, dp, pp)[i] == (e.0, props));
    assert forall|k: int| 0 <= k < props.len() implies !matches_any(pp, #[trigger] props[k].0) by {
        let pk = |q: (Seq<char>, crate::zfs_specification::PropertyView)| !matches_any(pp, q.0);
        assert(pk(e.1.filter(pk)[k]));
    }
}

/// Folding keeps the changes clear of the ignore patterns.
proof fn lemma_cleanup_respects_ignores(
    s: Seq<ActionView>,
    known: Seq<(Seq<char>, ValuesView)>,
    readings: Seq<(Seq<char>, u32, Option<u64>)>,
    dp: Seq<Seq<char>>,
    pp: Seq<Seq<char>>,
)
    requires
        forall|i: int| 0 <= i < s.len() ==> respects_ignores(#[trigger] s[i], dp, pp),
    ensures
        forall|i: int|
            0 <= i < cleanup_from(s, known, readings).len() ==> respects_ignores(
                #[trigger] cleanup_from(s, known, readings)[i],
                dp,
                pp,
            ),
    decreases s.len(),
{
    broadcast use vstd::seq_lib::group_filter_ensures;
    broadcast use Seq::lemma_filter_contains_rev;

    if s.len() > 0 {
        let rest = s.drop_first();
        assert forall|i: int| 0 <= i < rest.len() implies respects_ignores(#[trigger] rest[i], dp, pp) by {
            assert(rest[i] == s[i + 1]);
        }
        let out = cleanup_from(s, known, readings);
        assert(respects_ignores(s[0], dp, pp));
        match s[0] {
            ActionView::Create { name, properties } => {
                match lookup(known, name) {
                    Some(existing) => {
                        lemma_cleanup_respects_ignores(rest, known, readings, dp, pp);
                        let t = cleanup_from(rest, known, readings);
                        let edited = changed_properties(existing, properties, readings);
                        let head = if edited.len() > 0 {
                            seq![ActionView::SetProps { dataset: name, properties: edited }]
                        } else {
                            Seq::empty()
                        };
                        assert(out == head + t);
                        if edited.len() > 0 {
                            assert(properties.len() > 0) by {
                                properties.lemma_filter_len(
                                    |e: (Seq<char>, crate::property::PropertyValueView)|
                                        match lookup(existing, e.0) {
                                            Some(v) => !crate::property::value_eq(v, e.1, readings),
                                            None => true,
                                        },
                                );
                            }
                            assert forall|k: int| 0 <= k < edited.len() implies !matches_any(pp, #[trigger] edited[k].0) by {
                                assert(edited.contains(edited[k]));
                                assert(properties.contains(edited[k]));
                                let m = choose|m: int| 0 <= m < properties.len() && properties[m] == edited[k];
                                assert(!matches_any(pp, properties[m].0));
                            }
                            assert(respects_ignores(head[0], dp, pp));
                        }
                        assert forall|i: int| 0 <= i < out.len() implies respects_ignores(#[trigger] out[i], dp, pp) by {
                            if i < head.len() {
                                assert(out[i] == head[i]);
                            } else {
                                assert(out[i] == t[i - head.len()]);
                            }
                        }
                    },
                    None => {
                        let k2 = known.push((name, properties));
                        lemma_cleanup_respects_ignores(rest, k2, readings, dp, pp);
                        let t = cleanup_from(rest, k2, readings);
                        assert(out =~= seq![s[0]] + t);
                        assert forall|i: int| 0 <= i < out.len() implies respects_ignores(#[trigger] out[i], dp, pp) by {
                            if i > 0 {
                                assert(out[i] == t[i - 1]);
                            }
                        }
                    },
                }
            },
            _ => {
                lemma_cleanup_respects_ignores(rest, known, readings, dp, pp);
                let t = cleanup_from(rest, known, readings);
                assert(out =~= seq![s[0]] + t);
                assert forall|i: int| 0 <= i < out.len() implies respects_ignores(#[trigger] out[i], dp, pp) by {
                    if i > 0 {
                        assert(out[i] == t[i - 1]);
                    }
                }
            },
        }
    }
}

/// The plan leaves alone what the ignore patterns match: it destroys no dataset that a
/// dataset pattern matches, sets or inherits properties only on datasets that no dataset
/// pattern matches, and names no property that a property pattern matches.
pub proof fn law_ignored_left_alone(
    current: Seq<(Seq<char>, DatasetView)>,
    spec: SpecificationView,
    readings: Seq<(Seq<char>, u32, Option<u64>)>,
)
    ensures
        forall|j: int|
            0 <= j < planned_destroyed(visible_actual(current, spec), visible_desired(spec)).len()
                ==> !matches_any(
                spec.ignored_datasets,
                #[trigger] planned_destroyed(visible_actual(current, spec), visible_desired(spec))[j],
            ),
        forall|i: int|
            0 <= i < cleaned(
                planned_additive(visible_actual(current, spec), visible_desired(spec), readings),
                readings,
            ).len() ==> respects_ignores(
                #[trigger] cleaned(
                    planned_additive(visible_actual(current, spec), visible_desired(spec), readings),
                    readings,
                )[i],
                spec.ignored_datasets,
                spec.ignored_properties,
            ),
{
    broadcast use vstd::seq_lib::group_filter_ensures;
    broadcast use Seq::lemma_filter_contains_rev;

    let dp = spec.ignored_datasets;
    let pp = spec.ignored_properties;
    let a = visible_actual(current, spec);
    let d = visible_desired(spec);
    let n = d.len();
    // Destroyed datasets are current datasets, which the filter kept.
    let undesired = |e: (Seq<char>, DatasetView)| !has_key(d, e.0);
    let gone = a.filter(undesired);
    assert forall|j: int| 0 <= j < planned_destroyed(a, d).len() implies !matches_any(dp, #[trigger] planned_destroyed(a, d)[j]) by {
        assert(planned_destroyed(a, d)[j] == gone[j].0);
        assert(gone.contains(gone[j]));
        assert(a.contains(gone[j]));
        let m = choose|m: int| 0 <= m < a.len() && a[m] == gone[j];
        lemma_filtered_dataset(current, dp, pp, m);
    }
    // Every change of the plan before folding is clear of the patterns.
    let key = |i: int| if 0 <= i < d.len() { crate::planner::name_bytes(d[i].0) } else { 0 };
    crate::order::lemma_sort_all(crate::order::positions(n), key, |i: int| 0 <= i < n);
    let order = crate::order::sort_by_key(crate::order::positions(n), key);
    let ordered = length_order(d);
    let first = ordered.map_values(|e: (Seq<char>, DatasetView)| desired_actions(a, e, readings));
    let second = a.map_values(|e: (Seq<char>, DatasetView)| inherit_actions(d, e));
    let q = |x: ActionView| respects_ignores(x, dp, pp);
    assert forall|i: int, k: int| 0 <= i < first.len() && 0 <= k < first[i].len() implies q(#[trigger] first[i][k]) by {
        let e = ordered[i];
        assert(0 <= order[i] < n);
        assert(e == d[order[i]]);
        lemma_filtered_dataset(spec.datasets, dp, pp, order[i]);
        match lookup(a, e.0) {
            Some(current_props) => {
                let changes = properties_to_set(current_props, e.1, readings);
                assert forall|m: int| 0 <= m < changes.len() implies !matches_any(pp, #[trigger] changes[m].0) by {
                    let is_change = |x: (Seq<char>, crate::zfs_specification::PropertyView)|
                        crate::planner::property_plan(current_props, x.0, x.1, readings) is Change;
                    let f = e.1.filter(is_change);
                    assert(changes[m].0 == f[m].0);
                    assert(f.contains(f[m]));
                    assert(e.1.contains(f[m]));
                    let w = choose|w: int| 0 <= w < e.1.len() && e.1[w] == f[m];
                    assert(!matches_any(pp, e.1[w].0));
                }
            },
            None => {
                let parents = crate::planner::missing_parents(a, e.0);
                let block = parents.map_values(|p: Seq<char>| create_empty(p));
                if k < block.len() {
                    assert(first[i][k] == create_empty(parents[k]));
                } else {
                    let values = property_values(e.1);
                    assert forall|m: int| 0 <= m < values.len() implies !matches_any(pp, #[trigger] values[m].0) by {
                        assert(values[m].0 == e.1[m].0);
                    }
                }
            },
        }
    }
    assert forall|i: int, k: int| 0 <= i < second.len() && 0 <= k < second[i].len() implies q(#[trigger] second[i][k]) by {
        let e = a[i];
        lemma_filtered_dataset(current, dp, pp, i);
        if let Some(wanted) = lookup(d, e.0) {
            let names = local_not_desired(e.1, wanted);
            assert forall|m: int| 0 <= m < names.len() implies !matches_any(pp, #[trigger] names[m]) by {
                let keep = |x: (Seq<char>, crate::zfs_specification::PropertyView)|
                    (x.1.source matches Some(s) && crate::property::source_is_local(s.kind)) && !has_key(wanted, x.0);
                let f = e.1.filter(keep);
                assert(names[m] == f[m].0);
                assert(f.contains(f[m]));
                assert(e.1.contains(f[m]));
                let w = choose|w: int| 0 <= w < e.1.len() && e.1[w] == f[m];
                assert(!matches_any(pp, e.1[w].0));
            }
        }
    }
    lemma_flatten_all(first, q);
    lemma_flatten_all(second, q);
    let all = planned_additive(a, d, readings);
    assert forall|i: int| 0 <= i < all.len() implies respects_ignores(#[trigger] all[i], dp, pp) by {
        if i < first.flatten().len() {
            assert(all[i] == first.flatten()[i]);
            assert(q(first.flatten()[i]));
        } else {
            assert(all[i] == second.flatten()[i - first.flatten().len()]);
            assert(q(second.flatten()[i - first.flatten().len()]));
        }
    }
    lemma_cleanup_respects_ignores(all, Seq::empty(), readings, dp, pp);
}


/// Whether the current datasets already are the desired state: the same datasets; every
/// desired property present, managed by the user, with an equivalent value; and no
/// property set on a dataset itself that the specification does not state.
pub open spec fn state_matches(
    actual: Seq<(Seq<char>, DatasetView)>,
    desired: Seq<(Seq<char>, DatasetView)>,
    readings: Seq<(Seq<char>, u32, Option<u64>)>,
) -> bool {
    &&& forall|i: int| 0 <= i < desired.len() ==> has_key(actual, #[trigger] desired[i].0)
    &&& forall|i: int| 0 <= i < actual.len() ==> has_key(desired, #[trigger] actual[i].0)
    &&& forall|i: int, k: int|
        0 <= i < desired.len() && 0 <= k < desired[i].1.len() ==> {
            let current = lookup(actual, desired[i].0)->0;
            let name = #[trigger] desired[i].1[k].0;
            &&& lookup(current, name) matches Some(q)
            &&& q.source matches Some(src)
            &&& crate::property::source_user_managed(src.kind)
            &&& equivalent_values(q.value, desired[i].1[k].1.value, name, readings)
        }
    &&& forall|i: int, k: int|
        0 <= i < actual.len() && 0 <= k < actual[i].1.len() && (actual[i].1[k].1.source matches Some(
            src,
        ) && crate::property::source_is_local(src.kind)) ==> has_key(
            lookup(desired, actual[i].0)->0,
            #[trigger] actual[i].1[k].0,
        )
}

/// A filter that no element passes leaves nothing.
proof fn lemma_filter_none<A>(s: Seq<A>, p: spec_fn(A) -> bool)
    requires
        forall|i: int| 0 <= i < s.len() ==> !p(#[trigger] s[i]),
    ensures
        s.filter(p).len() == 0,
{
    broadcast use vstd::seq_lib::group_filter_ensures;
    broadcast use Seq::lemma_filter_contains_rev;

    if s.filter(p).len() > 0 {
        let x = s.filter(p)[0];
        assert(p(x));
        assert(s.filter(p).contains(x));
        assert(s.contains(x));
        let i = choose|i: int| 0 <= i < s.len() && s[i] == x;
        assert(!p(s[i]));
    }
}

/// Concatenating empty parts gives nothing.
proof fn lemma_flatten_empty<A>(parts: Seq<Seq<A>>)
    requires
        forall|i: int| 0 <= i < parts.len() ==> (#[trigger] parts[i]).len() == 0,
    ensures
        parts.flatten().len() == 0,
    decreases parts.len(),
{
    if parts.len() > 0 {
        let rest = parts.drop_first();
        assert forall|i: int| 0 <= i < rest.len() implies (#[trigger] rest[i]).len() == 0 by {
            assert(rest[i] == parts[i + 1]);
        }
        lemma_flatten_empty(rest);
        assert(parts[0].len() == 0);
    }
}

/// A pool already in the desired state needs no change: the plan creates, sets, inherits
/// and destroys nothing, and refuses nothing.
pub proof fn law_matching_state_needs_nothing(
    actual: Seq<(Seq<char>, DatasetView)>,
    desired: Seq<(Seq<char>, DatasetView)>,
    readings: Seq<(Seq<char>, u32, Option<u64>)>,
)
    requires
        state_matches(actual, desired, readings),
    ensures
        planned_additive(actual, desired, readings).len() == 0,
        crate::planner::planned_refusals(actual, desired, readings).len() == 0,
        planned_destroyed(actual, desired).len() == 0,
{
    let n = desired.len();
    let key = |i: int| if 0 <= i < desired.len() { crate::planner::name_bytes(desired[i].0) } else { 0 };
    crate::order::lemma_sort_all(crate::order::positions(n), key, |i: int| 0 <= i < n);
    let order = crate::order::sort_by_key(crate::order::positions(n), key);
    let ordered = length_order(desired);
    let first = ordered.map_values(|e: (Seq<char>, DatasetView)| desired_actions(actual, e, readings));
    let refused = ordered.map_values(|e: (Seq<char>, DatasetView)| crate::planner::desired_refusals(actual, e, readings));
    let second = actual.map_values(|e: (Seq<char>, DatasetView)| inherit_actions(desired, e));
    assert forall|i: int| 0 <= i < first.len() implies (#[trigger] first[i]).len() == 0 && refused[i].len() == 0 by {
        let j = order[i];
        assert(0 <= j < n);
        let e = ordered[i];
        assert(e == desired[j]);
        assert(has_key(actual, e.0));
        let current = lookup(actual, e.0)->0;
        let is_change = |x: (Seq<char>, crate::zfs_specification::PropertyView)|
            crate::planner::property_plan(current, x.0, x.1, readings) is Change;
        let is_refuse = |x: (Seq<char>, crate::zfs_specification::PropertyView)|
            crate::planner::property_plan(current, x.0, x.1, readings) is Refuse;
        assert forall|k: int| 0 <= k < e.1.len() implies !is_change(#[trigger] e.1[k]) && !is_refuse(e.1[k]) by {
            assert(desired[j].1[k] == e.1[k]);
        }
        lemma_filter_none(e.1, is_change);
        lemma_filter_none(e.1, is_refuse);
    }
    assert forall|i: int| 0 <= i < second.len() implies (#[trigger] second[i]).len() == 0 by {
        let e = actual[i];
        assert(has_key(desired, e.0));
        let wanted = lookup(desired, e.0)->0;
        let keep = |x: (Seq<char>, crate::zfs_specification::PropertyView)|
            (x.1.source matches Some(s) && crate::property::source_is_local(s.kind)) && !has_key(wanted, x.0);
        assert forall|k: int| 0 <= k < e.1.len() implies !keep(#[trigger] e.1[k]) by {
            assert(actual[i].1[k] == e.1[k]);
        }
        lemma_filter_none(e.1, keep);
    }
    assert forall|i: int| 0 <= i < refused.len() implies (#[trigger] refused[i]).len() == 0 by {
        assert(first[i].len() == 0);
    }
    lemma_flatten_empty(first);
    lemma_flatten_empty(refused);
    lemma_flatten_empty(second);
    let undesired = |e: (Seq<char>, DatasetView)| !has_key(desired, e.0);
    lemma_filter_none(actual, undesired);
}


/// The parent paths of a name are exactly its prefixes that end just before a slash,
/// shortest first.
pub proof fn law_parent_paths(s: Seq<char>)
    ensures
        forall|m: int|
            0 <= m < prefix_paths(s).len() ==> {
                let p = #[trigger] prefix_paths(s)[m];
                &&& p.len() < s.len()
                &&& s[p.len() as int] == '/'
                &&& p == s.subrange(0, p.len() as int)
            },
        forall|m1: int, m2: int|
            0 <= m1 < m2 < prefix_paths(s).len() ==> (#[trigger] prefix_paths(s)[m1]).len()
                < (#[trigger] prefix_paths(s)[m2]).len(),
        forall|k: int|
            0 <= k < s.len() && s[k] == '/' ==> prefix_paths(s).contains(#[trigger] s.subrange(0, k)),
{
    lemma_slash_positions(s);
    let ps = slash_positions(s);
    assert forall|k: int| 0 <= k < s.len() && s[k] == '/' implies prefix_paths(s).contains(#[trigger] s.subrange(0, k)) by {
        assert(ps.contains(k));
        let m = choose|m: int| 0 <= m < ps.len() && ps[m] == k;
        assert(prefix_paths(s)[m] == s.subrange(0, k));
    }
}


/// A text in units of 1024 counts one number only: if it counts `n` and `m`, then `n`
/// and `m` are the same.
pub proof fn law_k_syntax_counts_one_number(s: Seq<char>, n: u64, m: u64)
    requires
        k_syntax(s, n),
        k_syntax(s, m),
    ensures
        n == m,
{
}

/// A whole number `p` (one that `i64` holds) followed by `K` or `k` counts exactly
/// `p * 1024`.
pub proof fn law_k_syntax_of_number(p: u64, n: u64)
    requires
        p <= i64::MAX,
    ensures
        k_syntax(decimal_text(p as nat) + "K"@, n) <==> p * 1024 == n,
        k_syntax(decimal_text(p as nat) + "k"@, n) <==> p * 1024 == n,
{
    let t = decimal_text(p as nat);
    lemma_decimal_text_reads_back(p as nat);
    assert(!is_digit('+') && !is_digit('-'));
    assert(signed_reading(t) == Some(p as int));
    reveal_strlit("K");
    reveal_strlit("k");
    let a = t + "K"@;
    let b = t + "k"@;
    assert(a.drop_last() =~= t);
    assert(b.drop_last() =~= t);
    assert(a.last() == 'K');
    assert(b.last() == 'k');
}

/// The reading of `n` units of `2^e`: their number where it fits in a `u64`, else no
/// number.
pub open spec fn units_of(n: u64, e: nat) -> NumberSyntax {
    if e < 64 && n * vstd::arithmetic::power2::pow2(e) <= u64::MAX {
        NumberSyntax::Whole((n * vstd::arithmetic::power2::pow2(e)) as u64)
    } else {
        NumberSyntax::Invalid
    }
}

/// A whole number followed by a unit reads as its digits' value times the unit's power of
/// two.
proof fn lemma_number_then_unit(n: u64, unit: Seq<char>, e: u32)
    requires
        unit.len() > 0,
        !is_number_char(unit[0]),
        suffix_shift(unit) == Some(e),
    ensures
        number_syntax(decimal_text(n as nat) + unit) == units_of(n, e as nat),
{
    let t = decimal_text(n as nat);
    let s = t + unit;
    lemma_decimal_text_reads_back(n as nat);
    assert forall|j: int| 0 <= j < t.len() implies is_number_char(#[trigger] s[j]) by {
        assert(s[j] == t[j]);
        assert(is_digit(t[j]));
    }
    assert(s[t.len() as int] == unit[0]);
    assert(is_number_end(s, t.len() as int));
    lemma_number_end(s, t.len() as int);
    assert(s.subrange(0, t.len() as int) =~= t);
    assert(s.subrange(t.len() as int, s.len() as int) =~= unit);
    assert(!t.contains('.')) by {
        if t.contains('.') {
            let i = choose|i: int| 0 <= i < t.len() && t[i] == '.';
            assert(is_digit(t[i]));
        }
    }
    assert(unsigned_reading(t) == Some(n));
}

/// How the spellings of the unit `B` read.
proof fn lemma_unit_b()
    ensures
        suffix_shift("B"@) == Some(0u32),
{
    reveal_strlit("");
    reveal_strlit("B");
    reveal_strlit("K");
    reveal_strlit("KB");
    reveal_strlit("KIB");
    reveal_strlit("M");
    reveal_strlit("MB");
    reveal_strlit("MIB");
    reveal_strlit("G");
    reveal_strlit("GB");
    reveal_strlit("GIB");
    reveal_strlit("T");
    reveal_strlit("TB");
    reveal_strlit("TIB");
    reveal_strlit("P");
    reveal_strlit("PB");
    reveal_strlit("PIB");
    reveal_strlit("E");
    reveal_strlit("EB");
    reveal_strlit("EIB");
    reveal_strlit("Z");
    reveal_strlit("ZB");
    reveal_strlit("ZIB");
    assert("B"@.map_values(|c: char| ascii_upper(c)) =~= "B"@);
}

/// How the spellings of the unit `K` read.
proof fn lemma_unit_k()
    ensures
        suffix_shift("K"@) == Some(10u32),
        suffix_shift("KB"@) == Some(10u32),
        suffix_shift("KiB"@) == Some(10u32),
{
    reveal_strlit("");
    reveal_strlit("B");
    reveal_strlit("K");
    reveal_strlit("KB");
    reveal_strlit("KIB");
    reveal_strlit("M");
    reveal_strlit("MB");
    reveal_strlit("MIB");
    reveal_strlit("G");
    reveal_strlit("GB");
    reveal_strlit("GIB");
    reveal_strlit("T");
    reveal_strlit("TB");
    reveal_strlit("TIB");
    reveal_strlit("P");
    reveal_strlit("PB");
    reveal_strlit("PIB");
    reveal_strlit("E");
    reveal_strlit("EB");
    reveal_strlit("EIB");
    reveal_strlit("Z");
    reveal_strlit("ZB");
    reveal_strlit("ZIB");
    assert("K"@.map_values(|c: char| ascii_upper(c)) =~= "K"@);
    assert("K"@.len() != ""@.len());
    assert("K"@ != "B"@) by {
        assert("K"@[0] != "B"@[0]);
    }
    assert("KB"@.map_values(|c: char| ascii_upper(c)) =~= "KB"@);
    assert("KB"@.len() != ""@.len());
    assert("KB"@.len() != "B"@.len());
    assert("KB"@.len() != "K"@.len());
    reveal_strlit("KiB");
    assert("KiB"@.map_values(|c: char| ascii_upper(c)) =~= "KIB"@);
    assert("KIB"@.len() != ""@.len());
    assert("KIB"@.len() != "B"@.len());
    assert("KIB"@.len() != "K"@.len());
    assert("KIB"@.len() != "KB"@.len());
}

/// How the spellings of the unit `M` read.
proof fn lemma_unit_m()
    ensures
        suffix_shift("M"@) == Some(20u32),
        suffix_shift("MB"@) == Some(20u32),
        suffix_shift("MiB"@) == Some(20u32),
{
    reveal_strlit("");
    reveal_strlit("B");
    reveal_strlit("K");
    reveal_strlit("KB");
    reveal_strlit("KIB");
    reveal_strlit("M");
    reveal_strlit("MB");
    reveal_strlit("MIB");
    reveal_strlit("G");
    reveal_strlit("GB");
    reveal_strlit("GIB");
    reveal_strlit("T");
    reveal_strlit("TB");
    reveal_strlit("TIB");
    reveal_strlit("P");
    reveal_strlit("PB");
    reveal_strlit("PIB");
    reveal_strlit("E");
    reveal_strlit("EB");
    reveal_strlit("EIB");
    reveal_strlit("Z");
    reveal_strlit("ZB");
    reveal_strlit("ZIB");
    assert("M"@.map_values(|c: char| ascii_upper(c)) =~= "M"@);
    assert("M"@.len() != ""@.len());
    assert("M"@ != "B"@) by {
        assert("M"@[0] != "B"@[0]);
    }
    assert("M"@ != "K"@) by {
        assert("M"@[0] != "K"@[0]);
    }
    assert("M"@.len() != "KB"@.len());
    assert("M"@.len() != "KIB"@.len());
    assert("MB"@.map_values(|c: char| ascii_upper(c)) =~= "MB"@);
    assert("MB"@.len() != ""@.len());
    assert("MB"@.len() != "B"@.len());
    assert("MB"@.len() != "K"@.len());
    assert("MB"@ != "KB"@) by {
        assert("MB"@[0] != "KB"@[0]);
    }
    assert("MB"@.len() != "KIB"@.len());
    assert("MB"@.len() != "M"@.len());
    reveal_strlit("MiB");
    assert("MiB"@.map_values(|c: char| ascii_upper(c)) =~= "MIB"@);
    assert("MIB"@.len() != ""@.len());
    assert("MIB"@.len() != "B"@.len());
    assert("MIB"@.len() != "K"@.len());
    assert("MIB"@.len() != "KB"@.len());
    assert("MIB"@ != "KIB"@) by {
        assert("MIB"@[0] != "KIB"@[0]);
    }
    assert("MIB"@.len() != "M"@.len());
    assert("MIB"@.len() != "MB"@.len());
}

/// How the spellings of the unit `G` read.
proof fn lemma_unit_g()
    ensures
        suffix_shift("G"@) == Some(30u32),
        suffix_shift("GB"@) == Some(30u32),
        suffix_shift("GiB"@) == Some(30u32),
{
    reveal_strlit("");
    reveal_strlit("B");
    reveal_strlit("K");
    reveal_strlit("KB");
    reveal_strlit("KIB");
    reveal_strlit("M");
    reveal_strlit("MB");
    reveal_strlit("MIB");
    reveal_strlit("G");
    reveal_strlit("GB");
    reveal_strlit("GIB");
    reveal_strlit("T");
    reveal_strlit("TB");
    reveal_strlit("TIB");
    reveal_strlit("P");
    reveal_strlit("PB");
    reveal_strlit("PIB");
    reveal_strlit("E");
    reveal_strlit("EB");
    reveal_strlit("EIB");
    reveal_strlit("Z");
    reveal_strlit("ZB");
    reveal_strlit("ZIB");
    assert("G"@.map_values(|c: char| ascii_upper(c)) =~= "G"@);
    assert("G"@.len() != ""@.len());
    assert("G"@ != "B"@) by {
        assert("G"@[0] != "B"@[0]);
    }
    assert("G"@ != "K"@) by {
        assert("G"@[0] != "K"@[0]);
    }
    assert("G"@.len() != "KB"@.len());
    assert("G"@.len() != "KIB"@.len());
    assert("G"@ != "M"@) by {
        assert("G"@[0] != "M"@[0]);
    }
    assert("G"@.len() != "MB"@.len());
    assert("G"@.len() != "MIB"@.len());
    assert("GB"@.map_values(|c: char| ascii_upper(c)) =~= "GB"@);
    assert("GB"@.len() != ""@.len());
    assert("GB"@.len() != "B"@.len());
    assert("GB"@.len() != "K"@.len());
    assert("GB"@ != "KB"@) by {
        assert("GB"@[0] != "KB"@[0]);
    }
    assert("GB"@.len() != "KIB"@.len());
    assert("GB"@.len() != "M"@.len());
    assert("GB"@ != "MB"@) by {
        assert("GB"@[0] != "MB"@[0]);
    }
    assert("GB"@.len() != "MIB"@.len());
    assert("GB"@.len() != "G"@.len());
    reveal_strlit("GiB");
    assert("GiB"@.map_values(|c: char| ascii_upper(c)) =~= "GIB"@);
    assert("GIB"@.len() != ""@.len());
    assert("GIB"@.len() != "B"@.len());
    assert("GIB"@.len() != "K"@.len());
    assert("GIB"@.len() != "KB"@.len());
    assert("GIB"@ != "KIB"@) by {
        assert("GIB"@[0] != "KIB"@[0]);
    }
    assert("GIB"@.len() != "M"@.len());
    assert("GIB"@.len() != "MB"@.len());
    assert("GIB"@ != "MIB"@) by {
        assert("GIB"@[0] != "MIB"@[0]);
    }
    assert("GIB"@.len() != "G"@.len());
    assert("GIB"@.len() != "GB"@.len());
}

/// How the spellings of the unit `T` read.
proof fn lemma_unit_t()
    ensures
        suffix_shift("T"@) == Some(40u32),
        suffix_shift("TB"@) == Some(40u32),
        suffix_shift("TiB"@) == Some(40u32),
{
    reveal_strlit("");
    reveal_strlit("B");
    reveal_strlit("K");
    reveal_strlit("KB");
    reveal_strlit("KIB");
    reveal_strlit("M");
    reveal_strlit("MB");
    reveal_strlit("MIB");
    reveal_strlit("G");
    reveal_strlit("GB");
    reveal_strlit("GIB");
    reveal_strlit("T");
    reveal_strlit("TB");
    reveal_strlit("TIB");
    reveal_strlit("P");
    reveal_strlit("PB");
    reveal_strlit("PIB");
    reveal_strlit("E");
    reveal_strlit("EB");
    reveal_strlit("EIB");
    reveal_strlit("Z");
    reveal_strlit("ZB");
    reveal_strlit("ZIB");
    assert("T"@.map_values(|c: char| ascii_upper(c)) =~= "T"@);
    assert("T"@.len() != ""@.len());
    assert("T"@ != "B"@) by {
        assert("T"@[0] != "B"@[0]);
    }
    assert("T"@ != "K"@) by {
        assert("T"@[0] != "K"@[0]);
    }
    assert("T"@.len() != "KB"@.len());
    assert("T"@.len() != "KIB"@.len());
    assert("T"@ != "M"@) by {
        assert("T"@[0] != "M"@[0]);
    }
    assert("T"@.len() != "MB"@.len());
    assert("T"@.len() != "MIB"@.len());
    assert("T"@ != "G"@) by {
        assert("T"@[0] != "G"@[0]);
    }
    assert("T"@.len() != "GB"@.len());
    assert("T"@.len() != "GIB"@.len());
    assert("TB"@.map_values(|c: char| ascii_upper(c)) =~= "TB"@);
    assert("TB"@.len() != ""@.len());
    assert("TB"@.len() != "B"@.len());
    assert("TB"@.len() != "K"@.len());
    assert("TB"@ != "KB"@) by {
        assert("TB"@[0] != "KB"@[0]);
    }
    assert("TB"@.len() != "KIB"@.len());
    assert("TB"@.len() != "M"@.len());
    assert("TB"@ != "MB"@) by {
        assert("TB"@[0] != "MB"@[0]);
    }
    assert("TB"@.len() != "MIB"@.len());
    assert("TB"@.len() != "G"@.len());
    assert("TB"@ != "GB"@) by {
        assert("TB"@[0] != "GB"@[0]);
    }
    assert("TB"@.len() != "GIB"@.len());
    assert("TB"@.len() != "T"@.len());
    reveal_strlit("TiB");
    assert("TiB"@.map_values(|c: char| ascii_upper(c)) =~= "TIB"@);
    assert("TIB"@.len() != ""@.len());
    assert("TIB"@.len() != "B"@.len());
    assert("TIB"@.len() != "K"@.len());
    assert("TIB"@.len() != "KB"@.len());
    assert("TIB"@ != "KIB"@) by {
        assert("TIB"@[0] != "KIB"@[0]);
    }
    assert("TIB"@.len() != "M"@.len());
    assert("TIB"@.len() != "MB"@.len());
    assert("TIB"@ != "MIB"@) by {
        assert("TIB"@[0] != "MIB"@[0]);
    }
    assert("TIB"@.len() != "G"@.len());
    assert("TIB"@.len() != "GB"@.len());
    assert("TIB"@ != "GIB"@) by {
        assert("TIB"@[0] != "GIB"@[0]);
    }
    assert("TIB"@.len() != "T"@.len());
    assert("TIB"@.len() != "TB"@.len());
}

/// How the spellings of the unit `P` read.
proof fn lemma_unit_p()
    ensures
        suffix_shift("P"@) == Some(50u32),
        suffix_shift("PB"@) == Some(50u32),
        suffix_shift("PiB"@) == Some(50u32),
{
    reveal_strlit("");
    reveal_strlit("B");
    reveal_strlit("K");
    reveal_strlit("KB");
    reveal_strlit("KIB");
    reveal_strlit("M");
    reveal_strlit("MB");
    reveal_strlit("MIB");
    reveal_strlit("G");
    reveal_strlit("GB");
    reveal_strlit("GIB");
    reveal_strlit("T");
    reveal_strlit("TB");
    reveal_strlit("TIB");
    reveal_strlit("P");
    reveal_strlit("PB");
    reveal_strlit("PIB");
    reveal_strlit("E");
    reveal_strlit("EB");
    reveal_strlit("EIB");
    reveal_strlit("Z");
    reveal_strlit("ZB");
    reveal_strlit("ZIB");
    assert("P"@.map_values(|c: char| ascii_upper(c)) =~= "P"@);
    assert("P"@.len() != ""@.len());
    assert("P"@ != "B"@) by {
        assert("P"@[0] != "B"@[0]);
    }
    assert("P"@ != "K"@) by {
        assert("P"@[0] != "K"@[0]);
    }
    assert("P"@.len() != "KB"@.len());
    assert("P"@.len() != "KIB"@.len());
    assert("P"@ != "M"@) by {
        assert("P"@[0] != "M"@[0]);
    }
    assert("P"@.len() != "MB"@.len());
    assert("P"@.len() != "MIB"@.len());
    assert("P"@ != "G"@) by {
        assert("P"@[0] != "G"@[0]);
    }
    assert("P"@.len() != "GB"@.len());
    assert("P"@.len() != "GIB"@.len());
    assert("P"@ != "T"@) by {
        assert("P"@[0] != "T"@[0]);
    }
    assert("P"@.len() != "TB"@.len());
    assert("P"@.len() != "TIB"@.len());
    assert("PB"@.map_values(|c: char| ascii_upper(c)) =~= "PB"@);
    assert("PB"@.len() != ""@.len());
    assert("PB"@.len() != "B"@.len());
    assert("PB"@.len() != "K"@.len());
    assert("PB"@ != "KB"@) by {
        assert("PB"@[0] != "KB"@[0]);
    }
    assert("PB"@.len() != "KIB"@.len());
    assert("PB"@.len() != "M"@.len());
    assert("PB"@ != "MB"@) by {
        assert("PB"@[0] != "MB"@[0]);
    }
    assert("PB"@.len() != "MIB"@.len());
    assert("PB"@.len() != "G"@.len());
    assert("PB"@ != "GB"@) by {
        assert("PB"@[0] != "GB"@[0]);
    }
    assert("PB"@.len() != "GIB"@.len());
    assert("PB"@.len() != "T"@.len());
    assert("PB"@ != "TB"@) by {
        assert("PB"@[0] != "TB"@[0]);
    }
    assert("PB"@.len() != "TIB"@.len());
    assert("PB"@.len() != "P"@.len());
    reveal_strlit("PiB");
    assert("PiB"@.map_values(|c: char| ascii_upper(c)) =~= "PIB"@);
    assert("PIB"@.len() != ""@.len());
    assert("PIB"@.len() != "B"@.len());
    assert("PIB"@.len() != "K"@.len());
    assert("PIB"@.len() != "KB"@.len());
    assert("PIB"@ != "KIB"@) by {
        assert("PIB"@[0] != "KIB"@[0]);
    }
    assert("PIB"@.len() != "M"@.len());
    assert("PIB"@.len() != "MB"@.len());
    assert("PIB"@ != "MIB"@) by {
        assert("PIB"@[0] != "MIB"@[0]);
    }
    assert("PIB"@.len() != "G"@.len());
    assert("PIB"@.len() != "GB"@.len());
    assert("PIB"@ != "GIB"@) by {
        assert("PIB"@[0] != "GIB"@[0]);
    }
    assert("PIB"@.len() != "T"@.len());
    assert("PIB"@.len() != "TB"@.len());
    assert("PIB"@ != "TIB"@) by {
        assert("PIB"@[0] != "TIB"@[0]);
    }
    assert("PIB"@.len() != "P"@.len());
    assert("PIB"@.len() != "PB"@.len());
}

/// How the spellings of the unit `E` read.
proof fn lemma_unit_e()
    ensures
        suffix_shift("E"@) == Some(60u32),
        suffix_shift("EB"@) == Some(60u32),
        suffix_shift("EiB"@) == Some(60u32),
{
    reveal_strlit("");
    reveal_strlit("B");
    reveal_strlit("K");
    reveal_strlit("KB");
    reveal_strlit("KIB");
    reveal_strlit("M");
    reveal_strlit("MB");
    reveal_strlit("MIB");
    reveal_strlit("G");
    reveal_strlit("GB");
    reveal_strlit("GIB");
    reveal_strlit("T");
    reveal_strlit("TB");
    reveal_strlit("TIB");
    reveal_strlit("P");
    reveal_strlit("PB");
    reveal_strlit("PIB");
    reveal_strlit("E");
    reveal_strlit("EB");
    reveal_strlit("EIB");
    reveal_strlit("Z");
    reveal_strlit("ZB");
    reveal_strlit("ZIB");
    assert("E"@.map_values(|c: char| ascii_upper(c)) =~= "E"@);
    assert("E"@.len() != ""@.len());
    assert("E"@ != "B"@) by {
        assert("E"@[0] != "B"@[0]);
    }
    assert("E"@ != "K"@) by {
        assert("E"@[0] != "K"@[0]);
    }
    assert("E"@.len() != "KB"@.len());
    assert("E"@.len() != "KIB"@.len());
    assert("E"@ != "M"@) by {
        assert("E"@[0] != "M"@[0]);
    }
    assert("E"@.len() != "MB"@.len());
    assert("E"@.len() != "MIB"@.len());
    assert("E"@ != "G"@) by {
        assert("E"@[0] != "G"@[0]);
    }
    assert("E"@.len() != "GB"@.len());
    assert("E"@.len() != "GIB"@.len());
    assert("E"@ != "T"@) by {
        assert("E"@[0] != "T"@[0]);
    }
    assert("E"@.len() != "TB"@.len());
    assert("E"@.len() != "TIB"@.len());
    assert("E"@ != "P"@) by {
        assert("E"@[0] != "P"@[0]);
    }
    assert("E"@.len() != "PB"@.len());
    assert("E"@.len() != "PIB"@.len());
    assert("EB"@.map_values(|c: char| ascii_upper(c)) =~= "EB"@);
    assert("EB"@.len() != ""@.len());
    assert("EB"@.len() != "B"@.len());
    assert("EB"@.len() != "K"@.len());
    assert("EB"@ != "KB"@) by {
        assert("EB"@[0] != "KB"@[0]);
    }
    assert("EB"@.len() != "KIB"@.len());
    assert("EB"@.len() != "M"@.len());
    assert("EB"@ != "MB"@) by {
        assert("EB"@[0] != "MB"@[0]);
    }
    assert("EB"@.len() != "MIB"@.len());
    assert("EB"@.len() != "G"@.len());
    assert("EB"@ != "GB"@) by {
        assert("EB"@[0] != "GB"@[0]);
    }
    assert("EB"@.len() != "GIB"@.len());
    assert("EB"@.len() != "T"@.len());
    assert("EB"@ != "TB"@) by {
        assert("EB"@[0] != "TB"@[0]);
    }
    assert("EB"@.len() != "TIB"@.len());
    assert("EB"@.len() != "P"@.len());
    assert("EB"@ != "PB"@) by {
        assert("EB"@[0] != "PB"@[0]);
    }
    assert("EB"@.len() != "PIB"@.len());
    assert("EB"@.len() != "E"@.len());
    reveal_strlit("EiB");
    assert("EiB"@.map_values(|c: char| ascii_upper(c)) =~= "EIB"@);
    assert("EIB"@.len() != ""@.len());
    assert("EIB"@.len() != "B"@.len());
    assert("EIB"@.len() != "K"@.len());
    assert("EIB"@.len() != "KB"@.len());
    assert("EIB"@ != "KIB"@) by {
        assert("EIB"@[0] != "KIB"@[0]);
    }
    assert("EIB"@.len() != "M"@.len());
    assert("EIB"@.len() != "MB"@.len());
    assert("EIB"@ != "MIB"@) by {
        assert("EIB"@[0] != "MIB"@[0]);
    }
    assert("EIB"@.len() != "G"@.len());
    assert("EIB"@.len() != "GB"@.len());
    assert("EIB"@ != "GIB"@) by {
        assert("EIB"@[0] != "GIB"@[0]);
    }
    assert("EIB"@.len() != "T"@.len());
    assert("EIB"@.len() != "TB"@.len());
    assert("EIB"@ != "TIB"@) by {
        assert("EIB"@[0] != "TIB"@[0]);
    }
    assert("EIB"@.len() != "P"@.len());
    assert("EIB"@.len() != "PB"@.len());
    assert("EIB"@ != "PIB"@) by {
        assert("EIB"@[0] != "PIB"@[0]);
    }
    assert("EIB"@.len() != "E"@.len());
    assert("EIB"@.len() != "EB"@.len());
}

/// How the spellings of the unit `Z` read.
proof fn lemma_unit_z()
    ensures
        suffix_shift("Z"@) == Some(70u32),
        suffix_shift("ZB"@) == Some(70u32),
        suffix_shift("ZiB"@) == Some(70u32),
{
    reveal_strlit("");
    reveal_strlit("B");
    reveal_strlit("K");
    reveal_strlit("KB");
    reveal_strlit("KIB");
    reveal_strlit("M");
    reveal_strlit("MB");
    reveal_strlit("MIB");
    reveal_strlit("G");
    reveal_strlit("GB");
    reveal_strlit("GIB");
    reveal_strlit("T");
    reveal_strlit("TB");
    reveal_strlit("TIB");
    reveal_strlit("P");
    reveal_strlit("PB");
    reveal_strlit("PIB");
    reveal_strlit("E");
    reveal_strlit("EB");
    reveal_strlit("EIB");
    reveal_strlit("Z");
    reveal_strlit("ZB");
    reveal_strlit("ZIB");
    assert("Z"@.map_values(|c: char| ascii_upper(c)) =~= "Z"@);
    assert("Z"@.len() != ""@.len());
    assert("Z"@ != "B"@) by {
        assert("Z"@[0] != "B"@[0]);
    }
    assert("Z"@ != "K"@) by {
        assert("Z"@[0] != "K"@[0]);
    }
    assert("Z"@.len() != "KB"@.len());
    assert("Z"@.len() != "KIB"@.len());
    assert("Z"@ != "M"@) by {
        assert("Z"@[0] != "M"@[0]);
    }
    assert("Z"@.len() != "MB"@.len());
    assert("Z"@.len() != "MIB"@.len());
    assert("Z"@ != "G"@) by {
        assert("Z"@[0] != "G"@[0]);
    }
    assert("Z"@.len() != "GB"@.len());
    assert("Z"@.len() != "GIB"@.len());
    assert("Z"@ != "T"@) by {
        assert("Z"@[0] != "T"@[0]);
    }
    assert("Z"@.len() != "TB"@.len());
    assert("Z"@.len() != "TIB"@.len());
    assert("Z"@ != "P"@) by {
        assert("Z"@[0] != "P"@[0]);
    }
    assert("Z"@.len() != "PB"@.len());
    assert("Z"@.len() != "PIB"@.len());
    assert("Z"@ != "E"@) by {
        assert("Z"@[0] != "E"@[0]);
    }
    assert("Z"@.len() != "EB"@.len());
    assert("Z"@.len() != "EIB"@.len());
    assert("ZB"@.map_values(|c: char| ascii_upper(c)) =~= "ZB"@);
    assert("ZB"@.len() != ""@.len());
    assert("ZB"@.len() != "B"@.len());
    assert("ZB"@.len() != "K"@.len());
    assert("ZB"@ != "KB"@) by {
        assert("ZB"@[0] != "KB"@[0]);
    }
    assert("ZB"@.len() != "KIB"@.len());
    assert("ZB"@.len() != "M"@.len());
    assert("ZB"@ != "MB"@) by {
        assert("ZB"@[0] != "MB"@[0]);
    }
    assert("ZB"@.len() != "MIB"@.len());
    assert("ZB"@.len() != "G"@.len());
    assert("ZB"@ != "GB"@) by {
        assert("ZB"@[0] != "GB"@[0]);
    }
    assert("ZB"@.len() != "GIB"@.len());
    assert("ZB"@.len() != "T"@.len());
    assert("ZB"@ != "TB"@) by {
        assert("ZB"@[0] != "TB"@[0]);
    }
    assert("ZB"@.len() != "TIB"@.len());
    assert("ZB"@.len() != "P"@.len());
    assert("ZB"@ != "PB"@) by {
        assert("ZB"@[0] != "PB"@[0]);
    }
    assert("ZB"@.len() != "PIB"@.len());
    assert("ZB"@.len() != "E"@.len());
    assert("ZB"@ != "EB"@) by {
        assert("ZB"@[0] != "EB"@[0]);
    }
    assert("ZB"@.len() != "EIB"@.len());
    assert("ZB"@.len() != "Z"@.len());
    reveal_strlit("ZiB");
    assert("ZiB"@.map_values(|c: char| ascii_upper(c)) =~= "ZIB"@);
    assert("ZIB"@.len() != ""@.len());
    assert("ZIB"@.len() != "B"@.len());
    assert("ZIB"@.len() != "K"@.len());
    assert("ZIB"@.len() != "KB"@.len());
    assert("ZIB"@ != "KIB"@) by {
        assert("ZIB"@[0] != "KIB"@[0]);
    }
    assert("ZIB"@.len() != "M"@.len());
    assert("ZIB"@.len() != "MB"@.len());
    assert("ZIB"@ != "MIB"@) by {
        assert("ZIB"@[0] != "MIB"@[0]);
    }
    assert("ZIB"@.len() != "G"@.len());
    assert("ZIB"@.len() != "GB"@.len());
    assert("ZIB"@ != "GIB"@) by {
        assert("ZIB"@[0] != "GIB"@[0]);
    }
    assert("ZIB"@.len() != "T"@.len());
    assert("ZIB"@.len() != "TB"@.len());
    assert("ZIB"@ != "TIB"@) by {
        assert("ZIB"@[0] != "TIB"@[0]);
    }
    assert("ZIB"@.len() != "P"@.len());
    assert("ZIB"@.len() != "PB"@.len());
    assert("ZIB"@ != "PIB"@) by {
        assert("ZIB"@[0] != "PIB"@[0]);
    }
    assert("ZIB"@.len() != "E"@.len());
    assert("ZIB"@.len() != "EB"@.len());
    assert("ZIB"@ != "EIB"@) by {
        assert("ZIB"@[0] != "EIB"@[0]);
    }
    assert("ZIB"@.len() != "Z"@.len());
    assert("ZIB"@.len() != "ZB"@.len());
}

/// Every spelling of a unit reads alike, and each unit is its power of two: bytes (`B`)
/// are `2^0`, `K` `2^10`, `M` `2^20`, `G` `2^30`, `T` `2^40`, `P` `2^50` and `E` `2^60`,
/// each alone, with `B` or with `iB`; `Z` (`2^70`) never fits in a `u64`. A number of
/// units reads as their count where it fits in a `u64`, else as no number.
pub proof fn law_unit_suffixes(n: u64)
    ensures
        number_syntax(decimal_text(n as nat) + "B"@) == units_of(n, 0),
        number_syntax(decimal_text(n as nat) + "K"@) == units_of(n, 10),
        number_syntax(decimal_text(n as nat) + "KB"@) == units_of(n, 10),
        number_syntax(decimal_text(n as nat) + "KiB"@) == units_of(n, 10),
        number_syntax(decimal_text(n as nat) + "M"@) == units_of(n, 20),
        number_syntax(decimal_text(n as nat) + "MB"@) == units_of(n, 20),
        number_syntax(decimal_text(n as nat) + "MiB"@) == units_of(n, 20),
        number_syntax(decimal_text(n as nat) + "G"@) == units_of(n, 30),
        number_syntax(decimal_text(n as nat) + "GB"@) == units_of(n, 30),
        number_syntax(decimal_text(n as nat) + "GiB"@) == units_of(n, 30),
        number_syntax(decimal_text(n as nat) + "T"@) == units_of(n, 40),
        number_syntax(decimal_text(n as nat) + "TB"@) == units_of(n, 40),
        number_syntax(decimal_text(n as nat) + "TiB"@) == units_of(n, 40),
        number_syntax(decimal_text(n as nat) + "P"@) == units_of(n, 50),
        number_syntax(decimal_text(n as nat) + "PB"@) == units_of(n, 50),
        number_syntax(decimal_text(n as nat) + "PiB"@) == units_of(n, 50),
        number_syntax(decimal_text(n as nat) + "E"@) == units_of(n, 60),
        number_syntax(decimal_text(n as nat) + "EB"@) == units_of(n, 60),
        number_syntax(decimal_text(n as nat) + "EiB"@) == units_of(n, 60),
        number_syntax(decimal_text(n as nat) + "Z"@) == NumberSyntax::Invalid,
        number_syntax(decimal_text(n as nat) + "ZB"@) == NumberSyntax::Invalid,
        number_syntax(decimal_text(n as nat) + "ZiB"@) == NumberSyntax::Invalid,
{
    lemma_unit_b();
    reveal_strlit("B");
    lemma_number_then_unit(n, "B"@, 0);
    lemma_unit_k();
    reveal_strlit("K");
    lemma_number_then_unit(n, "K"@, 10);
    reveal_strlit("KB");
    lemma_number_then_unit(n, "KB"@, 10);
    reveal_strlit("KiB");
    lemma_number_then_unit(n, "KiB"@, 10);
    lemma_unit_m();
    reveal_strlit("M");
    lemma_number_then_unit(n, "M"@, 20);
    reveal_strlit("MB");
    lemma_number_then_unit(n, "MB"@, 20);
    reveal_strlit("MiB");
    lemma_number_then_unit(n, "MiB"@, 20);
    lemma_unit_g();
    reveal_strlit("G");
    lemma_number_then_unit(n, "G"@, 30);
    reveal_strlit("GB");
    lemma_number_then_unit(n, "GB"@, 30);
    reveal_strlit("GiB");
    lemma_number_then_unit(n, "GiB"@, 30);
    lemma_unit_t();
    reveal_strlit("T");
    lemma_number_then_unit(n, "T"@, 40);
    reveal_strlit("TB");
    lemma_number_then_unit(n, "TB"@, 40);
    reveal_strlit("TiB");
    lemma_number_then_unit(n, "TiB"@, 40);
    lemma_unit_p();
    reveal_strlit("P");
    lemma_number_then_unit(n, "P"@, 50);
    reveal_strlit("PB");
    lemma_number_then_unit(n, "PB"@, 50);
    reveal_strlit("PiB");
    lemma_number_then_unit(n, "PiB"@, 50);
    lemma_unit_e();
    reveal_strlit("E");
    lemma_number_then_unit(n, "E"@, 60);
    reveal_strlit("EB");
    lemma_number_then_unit(n, "EB"@, 60);
    reveal_strlit("EiB");
    lemma_number_then_unit(n, "EiB"@, 60);
    lemma_unit_z();
    reveal_strlit("Z");
    lemma_number_then_unit(n, "Z"@, 70);
    reveal_strlit("ZB");
    lemma_number_then_unit(n, "ZB"@, 70);
    reveal_strlit("ZiB");
    lemma_number_then_unit(n, "ZiB"@, 70);
}


/// In a list whose names are unique, an entry's name is among the images of the entries
/// that pass a filter (under a map that keeps names) exactly when the entry passes, and
/// then its image is there.
proof fn lemma_filter_map_entry<A, B>(
    s: Seq<(Seq<char>, A)>,
    p: spec_fn((Seq<char>, A)) -> bool,
    f: spec_fn((Seq<char>, A)) -> (Seq<char>, B),
    k: int,
)
    requires
        0 <= k < s.len(),
        crate::keyed::keys_unique(s),
        forall|e: (Seq<char>, A)| #[trigger] f(e).0 == e.0,
    ensures
        has_key(s.filter(p).map_values(f), s[k].0) == p(s[k]),
        p(s[k]) ==> s.filter(p).map_values(f).contains(f(s[k])),
{
    broadcast use vstd::seq_lib::group_filter_ensures;
    broadcast use Seq::lemma_filter_contains_rev;

    let t = s.filter(p);
    let r = t.map_values(f);
    if p(s[k]) {
        assert(t.contains(s[k]));
        let j = choose|j: int| 0 <= j < t.len() && t[j] == s[k];
        assert(r[j] == f(s[k]));
        assert(r[j].0 == s[k].0);
    }
    if has_key(r, s[k].0) {
        let j = choose|j: int| 0 <= j < r.len() && #[trigger] r[j].0 == s[k].0;
        assert(r[j] == f(t[j]));
        assert(t.contains(t[j]));
        assert(s.contains(t[j]));
        let m = choose|m: int| 0 <= m < s.len() && s[m] == t[j];
        assert(s[m].0 == s[k].0);
        assert(m == k);
        assert(p(t[j]));
    }
}

/// Turning the report into a specification keeps every dataset, under its name and in its
/// place, and keeps a reported property exactly when the filter lets its name through
/// (any name where the filter names none) and its source is one the filter selects: any
/// source where it selects none; `Local` for the local selection; `Local`, `Inherited`,
/// `Default` or `Received` for the user-managed one. A kept property keeps its value and
/// its source.
pub proof fn law_report_filter(
    datasets: Seq<(Seq<char>, crate::zfs_list_output::DatasetEntryView)>,
    filter: crate::zfs_list_output::FilterView,
    i: int,
    k: int,
)
    requires
        0 <= i < datasets.len(),
        0 <= k < datasets[i].1.properties.len(),
        crate::keyed::keys_unique(datasets[i].1.properties),
    ensures
        ({
            let out = crate::zfs_list_output::specification_datasets(datasets, filter);
            let name = datasets[i].1.properties[k].0;
            let p = datasets[i].1.properties[k].1;
            let kind = p.source.kind;
            let by_name = match filter.properties {
                Some(names) => names.contains(name),
                None => true,
            };
            let by_source = match filter.property_sources {
                None => true,
                Some(crate::zfs_list_output::SourceSelection::Local) => kind
                    == crate::property::SourceKind::Local,
                Some(crate::zfs_list_output::SourceSelection::UserManaged) => kind
                    == crate::property::SourceKind::Local || kind
                    == crate::property::SourceKind::Inherited || kind
                    == crate::property::SourceKind::Default || kind
                    == crate::property::SourceKind::Received,
            };
            &&& out.len() == datasets.len()
            &&& out[i].0 == datasets[i].0
            &&& has_key(out[i].1, name) == (by_name && by_source)
            &&& (by_name && by_source) ==> out[i].1.contains(
                (
                    name,
                    crate::zfs_specification::PropertyView {
                        value: p.value,
                        source: Some(p.source),
                    },
                ),
            )
        }),
{
    let props = datasets[i].1.properties;
    let keep = |e: (Seq<char>, crate::property::ReportedPropertyView)|
        crate::zfs_list_output::keeps_property(filter, e.0, e.1);
    let convert = |e: (Seq<char>, crate::property::ReportedPropertyView)|
        (
            e.0,
            crate::zfs_specification::PropertyView { value: e.1.value, source: Some(e.1.source) },
        );
    lemma_filter_map_entry(props, keep, convert, k);
    assert(crate::zfs_list_output::specification_properties(props, filter) == props.filter(
        keep,
    ).map_values(convert));
}

/// Only volumes lose their `refreservation`: every other dataset comes through the
/// reading of the report unchanged; a volume keeps its name, type, pool and creation
/// group, loses every property named `refreservation`, and keeps every other property.
pub proof fn law_only_volumes_lose_refreservation(
    datasets: Seq<(Seq<char>, crate::zfs_list_output::DatasetEntryView)>,
    i: int,
)
    requires
        0 <= i < datasets.len(),
    ensures
        ({
            let out = datasets.map_values(
                |e: (Seq<char>, crate::zfs_list_output::DatasetEntryView)|
                    crate::zfs_list_output::without_refreservation(e),
            );
            let d = datasets[i];
            &&& out.len() == datasets.len()
            &&& d.1.dataset_type != crate::zfs_list_output::DatasetType::Volume ==> out[i] == d
            &&& d.1.dataset_type == crate::zfs_list_output::DatasetType::Volume ==> {
                &&& out[i].0 == d.0
                &&& out[i].1.name == d.1.name
                &&& out[i].1.dataset_type == d.1.dataset_type
                &&& out[i].1.pool == d.1.pool
                &&& out[i].1.createtxg == d.1.createtxg
                &&& !has_key(out[i].1.properties, "refreservation"@)
                &&& forall|k: int|
                    0 <= k < d.1.properties.len() && d.1.properties[k].0 != "refreservation"@
                        ==> out[i].1.properties.contains(#[trigger] d.1.properties[k])
            }
        }),
{
    broadcast use vstd::seq_lib::group_filter_ensures;

    let d = datasets[i];
    if d.1.dataset_type == crate::zfs_list_output::DatasetType::Volume {
        let props = d.1.properties;
        let keep = |p: (Seq<char>, crate::property::ReportedPropertyView)|
            crate::zfs_list_output::not_refreservation(p);
        let kept = props.filter(keep);
        if has_key(kept, "refreservation"@) {
            let j = choose|j: int| 0 <= j < kept.len() && #[trigger] kept[j].0 == "refreservation"@;
            assert(keep(kept[j]));
        }
        assert forall|k: int|
            0 <= k < props.len() && props[k].0 != "refreservation"@ implies kept.contains(
            #[trigger] props[k],
        ) by {
            assert(keep(props[k]));
        }
    }
}


/// An element of one part of a concatenation is an element of the whole.
proof fn lemma_flatten_contains<A>(parts: Seq<Seq<A>>, i: int, a: A)
    requires
        0 <= i < parts.len(),
        parts[i].contains(a),
    ensures
        parts.flatten().contains(a),
    decreases parts.len(),
{
    let rest = parts.drop_first();
    assert(parts.flatten() == parts.first() + rest.flatten());
    if i == 0 {
        let k = choose|k: int| 0 <= k < parts[0].len() && parts[0][k] == a;
        assert(parts.flatten()[k] == a);
    } else {
        assert(rest[i - 1] == parts[i]);
        lemma_flatten_contains(rest, i - 1, a);
        let k = choose|k: int| 0 <= k < rest.flatten().len() && rest.flatten()[k] == a;
        assert(parts.flatten()[parts[0].len() + k] == a);
    }
}

/// Folding repeated creations keeps every change that is not a creation.
proof fn lemma_cleanup_keeps(
    s: Seq<ActionView>,
    known: Seq<(Seq<char>, ValuesView)>,
    readings: Seq<(Seq<char>, u32, Option<u64>)>,
    a: ActionView,
)
    requires
        s.contains(a),
        !(a is Create),
    ensures
        cleanup_from(s, known, readings).contains(a),
    decreases s.len(),
{
    let rest = s.drop_first();
    let out = cleanup_from(s, known, readings);
    if s[0] == a {
        assert(out == seq![a] + cleanup_from(rest, known, readings));
        assert(out[0] == a);
    } else {
        let k = choose|k: int| 0 <= k < s.len() && s[k] == a;
        assert(rest[k - 1] == a);
        match s[0] {
            ActionView::Create { name, properties } => match lookup(known, name) {
                Some(existing) => {
                    lemma_cleanup_keeps(rest, known, readings, a);
                    let edited = changed_properties(existing, properties, readings);
                    let head = if edited.len() > 0 {
                        seq![ActionView::SetProps { dataset: name, properties: edited }]
                    } else {
                        Seq::empty()
                    };
                    let tail = cleanup_from(rest, known, readings);
                    assert(out == head + tail);
                    let j = choose|j: int| 0 <= j < tail.len() && tail[j] == a;
                    assert(out[head.len() + j] == a);
                },
                None => {
                    let known2 = known.push((name, properties));
                    lemma_cleanup_keeps(rest, known2, readings, a);
                    let tail = cleanup_from(rest, known2, readings);
                    assert(out == seq![s[0]] + tail);
                    let j = choose|j: int| 0 <= j < tail.len() && tail[j] == a;
                    assert(out[1 + j] == a);
                },
            },
            _ => {
                lemma_cleanup_keeps(rest, known, readings, a);
                let tail = cleanup_from(rest, known, readings);
                assert(out == seq![s[0]] + tail);
                let j = choose|j: int| 0 <= j < tail.len() && tail[j] == a;
                assert(out[1 + j] == a);
            },
        }
    }
}

/// A desired property that an existing dataset does not report at all is set: the plan
/// holds a change that sets properties of that dataset, among them that property with its
/// desired value.
pub proof fn law_unreported_properties_are_set(
    actual: Seq<(Seq<char>, DatasetView)>,
    desired: Seq<(Seq<char>, DatasetView)>,
    readings: Seq<(Seq<char>, u32, Option<u64>)>,
    j: int,
    k: int,
)
    requires
        0 <= j < desired.len(),
        has_key(actual, desired[j].0),
        0 <= k < desired[j].1.len(),
        !has_key(lookup(actual, desired[j].0)->0, desired[j].1[k].0),
    ensures
        exists|changes: ValuesView|
            #[trigger] changes.contains((desired[j].1[k].0, desired[j].1[k].1.value)) && cleaned(
                planned_additive(actual, desired, readings),
                readings,
            ).contains(ActionView::SetProps { dataset: desired[j].0, properties: changes }),
{
    broadcast use vstd::seq_lib::group_filter_ensures;

    let d = desired[j];
    let current = lookup(actual, d.0)->0;
    let entry = d.1[k];
    let is_change = |e: (Seq<char>, crate::zfs_specification::PropertyView)|
        crate::planner::property_plan(current, e.0, e.1, readings) is Change;
    let as_value = |e: (Seq<char>, crate::zfs_specification::PropertyView)| (e.0, e.1.value);
    assert(is_change(entry));
    let filtered = d.1.filter(is_change);
    assert(filtered.contains(entry));
    let m = choose|m: int| 0 <= m < filtered.len() && filtered[m] == entry;
    let changes = properties_to_set(current, d.1, readings);
    assert(changes == filtered.map_values(as_value));
    assert(changes[m] == (entry.0, entry.1.value));
    assert(changes.contains((entry.0, entry.1.value)));
    let act = ActionView::SetProps { dataset: d.0, properties: changes };
    assert(desired_actions(actual, d, readings) == seq![act]);
    law_shortest_name_first(desired);
    let ordered = length_order(desired);
    assert(ordered.contains(desired[j]));
    let i = choose|i: int| 0 <= i < ordered.len() && ordered[i] == d;
    let parts = ordered.map_values(
        |e: (Seq<char>, DatasetView)| desired_actions(actual, e, readings),
    );
    assert(parts[i] == seq![act]);
    assert(parts[i][0] == act);
    lemma_flatten_contains(parts, i, act);
    let second = actual.map_values(|e: (Seq<char>, DatasetView)| inherit_actions(desired, e)).flatten();
    let plan = planned_additive(actual, desired, readings);
    assert(plan == parts.flatten() + second);
    let q = choose|q: int| 0 <= q < parts.flatten().len() && parts.flatten()[q] == act;
    assert(plan[q] == act);
    lemma_cleanup_keeps(plan, Seq::empty(), readings, act);
}

} // verus!
