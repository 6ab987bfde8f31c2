//! The collector of a plan's changes and refusals, and the folding of repeated dataset
//! creations into property changes.

use vstd::prelude::*;

use crate::actions::{
    actions_view, destroyed_view, unsettable_view, ActionSet, ActionView, DestructiveAction,
    UnsettableProperty, UnsettableView, ValuesView, ZfsAction,
};
use crate::keyed::{
    has_key, keys_unique, lemma_filter_map_has_key, lookup, KeyedList,
};
use crate::property::{value_eq, Duplicate, FractionReadings, PropertyValue, PropertyValueView};

verus! {

/// The properties of a repeated creation whose values differ from, or are missing in, the
/// properties of the first creation of the same dataset.
pub open spec fn changed_properties(
    existing: ValuesView,
    properties: ValuesView,
    readings: Seq<(Seq<char>, u32, Option<u64>)>,
) -> ValuesView {
    properties.filter(
        |e: (Seq<char>, PropertyValueView)|
            match lookup(existing, e.0) {
                Some(v) => !value_eq(v, e.1, readings),
                None => true,
            },
    )
}

/// The changes after the first, kept creation of each dataset: a later creation of a
/// dataset already created (or named in `known`) becomes a change of the properties that
/// differ from those of the first creation, or nothing where none differs.
pub open spec fn cleanup_from(
    actions: Seq<ActionView>,
    known: Seq<(Seq<char>, ValuesView)>,
    readings: Seq<(Seq<char>, u32, Option<u64>)>,
) -> Seq<ActionView>
    decreases actions.len(),
{
    if actions.len() == 0 {
        Seq::empty()
    } else {
        let rest = actions.drop_first();
        match actions[0] {
            ActionView::Create { name, properties } => match lookup(known, name) {
                Some(existing) => {
                    let edited = changed_properties(existing, properties, readings);
                    (if edited.len() > 0 {
                        seq![ActionView::SetProps { dataset: name, properties: edited }]
                    } else {
                        Seq::empty()
                    }) + cleanup_from(rest, known, readings)
                },
                None => seq![actions[0]] + cleanup_from(
                    rest,
                    known.push((name, properties)),
                    readings,
                ),
            },
            _ => seq![actions[0]] + cleanup_from(rest, known, readings),
        }
    }
}

/// The changes with every repeated creation of a dataset folded into its first.
pub open spec fn cleaned(
    actions: Seq<ActionView>,
    readings: Seq<(Seq<char>, u32, Option<u64>)>,
) -> Seq<ActionView> {
    cleanup_from(actions, Seq::empty(), readings)
}

/// The state of a plan under way: changes that add, changes that destroy, and properties
/// that cannot be set.
pub struct ProducerView {
    pub actions: Seq<ActionView>,
    pub destructive: Seq<Seq<char>>,
    pub errors: Seq<UnsettableView>,
}

/// Collects the changes and refusals of a plan in the order they are produced.
#[derive(Debug)]
pub struct VecActionProducer {
    pub actions: Vec<ZfsAction>,
    pub destructive_actions: Vec<DestructiveAction>,
    pub errors: Vec<UnsettableProperty>,
}

impl View for VecActionProducer {
    type V = ProducerView;

    open spec fn view(&self) -> ProducerView {
        ProducerView {
            actions: actions_view(self.actions@),
            destructive: destroyed_view(self.destructive_actions@),
            errors: unsettable_view(self.errors@),
        }
    }
}

/// The properties of a repeated creation that differ from those of the first.
fn changed_values(
    existing: &KeyedList<PropertyValue>,
    properties: &KeyedList<PropertyValue>,
    readings: &FractionReadings,
) -> (r: KeyedList<PropertyValue>)
    ensures
        r@ == changed_properties(existing@, properties@, readings@),
{
    properties.reveal_unique_names();
    let ghost keep = |e: (Seq<char>, PropertyValueView)|
        match lookup(existing@, e.0) {
            Some(v) => !value_eq(v, e.1, readings@),
            None => true,
        };
    let ghost id = |e: (Seq<char>, PropertyValueView)| e;
    let n = properties.len();
    let mut r: KeyedList<PropertyValue> = KeyedList::new();
    let mut i: usize = 0;
    while i < n
        invariant
            n == properties@.len(),
            keys_unique(properties@),
            i <= n,
            keep == (|e: (Seq<char>, PropertyValueView)|
                match lookup(existing@, e.0) {
                    Some(v) => !value_eq(v, e.1, readings@),
                    None => true,
                }),
            id == (|e: (Seq<char>, PropertyValueView)| e),
            r@ == properties@.subrange(0, i as int).filter(keep).map_values(id),
        decreases n - i,
    {
        proof {
            crate::keyed::lemma_filter_map_step(properties@, keep, id, i as int);
        }
        let name = properties.key_at(i);
        let value = properties.value_at(i);
        let differs = match existing.get(name.as_str()) {
            Some(v) => !v.equals(value, readings),
            None => true,
        };
        if differs {
            proof {
                if has_key(r@, name@) {
                    lemma_filter_map_has_key(properties@.subrange(0, i as int), keep, id, name@);
                    let j = choose|j: int|
                        0 <= j < i && #[trigger] properties@.subrange(0, i as int)[j].0 == name@;
                    assert(properties@[j].0 == properties@[i as int].0);
                }
            }
            r.insert(name.clone(), value.duplicate());
        }
        i = i + 1;
    }
    assert(properties@.subrange(0, n as int) =~= properties@);
    assert(properties@.filter(keep).map_values(id) =~= properties@.filter(keep));
    r
}

impl VecActionProducer {
    /// A producer that holds nothing yet.
    pub fn new() -> (r: VecActionProducer)
        ensures
            r@.actions.len() == 0,
            r@.destructive.len() == 0,
            r@.errors.len() == 0,
    {
        VecActionProducer {
            actions: Vec::new(),
            destructive_actions: Vec::new(),
            errors: Vec::new(),
        }
    }

    /// Appends a change that adds or changes settings.
    pub fn produce_action(&mut self, action: ZfsAction)
        ensures
            final(self)@.actions == old(self)@.actions.push(action@),
            final(self)@.destructive == old(self)@.destructive,
            final(self)@.errors == old(self)@.errors,
    {
        let ghost a = action@;
        self.actions.push(action);
        assert(actions_view(self.actions@) =~= old(self)@.actions.push(a));
    }

    /// Appends a change that destroys data.
    pub fn produce_destructive_action(&mut self, action: DestructiveAction)
        ensures
            final(self)@.actions == old(self)@.actions,
            final(self)@.destructive == old(self)@.destructive.push(action@),
            final(self)@.errors == old(self)@.errors,
    {
        let ghost a = action@;
        self.destructive_actions.push(action);
        assert(destroyed_view(self.destructive_actions@) =~= old(self)@.destructive.push(a));
    }

    /// Appends a property that cannot be set.
    pub fn produce_error(&mut self, error: UnsettableProperty)
        ensures
            final(self)@.actions == old(self)@.actions,
            final(self)@.destructive == old(self)@.destructive,
            final(self)@.errors == old(self)@.errors.push(error@),
    {
        let ghost e = error@;
        self.errors.push(error);
        assert(unsettable_view(self.errors@) =~= old(self)@.errors.push(e));
    }

    /// Folds every repeated creation of a dataset into its first creation: a repeat becomes
    /// a change of the properties whose values differ from, or are missing in, the first
    /// creation, and disappears where none does.
    pub fn cleanup_multiple_creates(actions: Vec<ZfsAction>, readings: &FractionReadings) -> (r:
        Vec<ZfsAction>)
        ensures
            actions_view(r@) == cleaned(actions_view(actions@), readings@),
    {
        let ghost all = actions_view(actions@);
        let mut remaining = actions;
        let mut known: KeyedList<KeyedList<PropertyValue>> = KeyedList::new();
        let mut out: Vec<ZfsAction> = Vec::new();
        while remaining.len() > 0
            invariant
                cleaned(all, readings@) == actions_view(out@) + cleanup_from(
                    actions_view(remaining@),
                    known@,
                    readings@,
                ),
            decreases remaining.len(),
        {
            let ghost rest_before = actions_view(remaining@);
            let ghost known_before = known@;
            let ghost out_before = actions_view(out@);
            let action = remaining.remove(0);
            assert(actions_view(remaining@) =~= rest_before.drop_first());
            assert(rest_before[0] == action@);
            match action {
                ZfsAction::CreateDataset { name, properties } => {
                    let existing = known.get(name.as_str());
                    match existing {
                        Some(existing) => {
                            let edited = changed_values(existing, &properties, readings);
                            if edited.len() > 0 {
                                let ghost edited_view = edited@;
                                out.push(ZfsAction::SetProperties { dataset: name, properties: edited });
                                assert(actions_view(out@) =~= out_before + seq![ActionView::SetProps { dataset: name@, properties: edited_view }]);
                            } else {
                                assert(edited@ =~= Seq::<(Seq<char>, PropertyValueView)>::empty());
                            }
                        },
                        None => {
                            let ghost created = ActionView::Create { name: name@, properties: properties@ };
                            known.insert(name.clone(), properties.duplicate());
                            assert(known@ == known_before.push((name@, properties@)));
                            out.push(ZfsAction::CreateDataset { name, properties });
                            assert(actions_view(out@) =~= out_before + seq![created]);
                        },
                    }
                },
                other => {
                    let ghost a = other@;
                    out.push(other);
                    assert(actions_view(out@) =~= out_before + seq![a]);
                },
            }
        }
        assert(actions_view(remaining@) =~= Seq::<ActionView>::empty());
        assert(actions_view(out@) + Seq::<ActionView>::empty() =~= actions_view(out@));
        out
    }

    /// Folds the repeated creations among the changes collected so far.
    pub fn cleanup(&mut self, readings: &FractionReadings)
        ensures
            final(self)@.actions == cleaned(old(self)@.actions, readings@),
            final(self)@.destructive == old(self)@.destructive,
            final(self)@.errors == old(self)@.errors,
    {
        let mut taken: Vec<ZfsAction> = Vec::new();
        std::mem::swap(&mut taken, &mut self.actions);
        self.actions = Self::cleanup_multiple_creates(taken, readings);
    }

    /// The collected changes, with repeated creations folded, and the refused properties.
    pub fn finalize(self, readings: &FractionReadings) -> (r: (ActionSet, Vec<UnsettableProperty>))
        ensures
            actions_view(r.0.additive@) == cleaned(self@.actions, readings@),
            destroyed_view(r.0.destrictive@) == self@.destructive,
            unsettable_view(r.1@) == self@.errors,
    {
        let mut producer = self;
        producer.cleanup(readings);
        (
            ActionSet { additive: producer.actions, destrictive: producer.destructive_actions },
            producer.errors,
        )
    }
}

} // verus!
