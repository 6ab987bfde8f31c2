//! The fractional numeric texts among the property values of a plan's inputs, whose
//! floating-point readings the caller supplies.

use vstd::prelude::*;

use crate::property::{
    number_syntax, parse_number_with_suffix, NumberSyntax, ParsedNumber, PropertyValue,
    PropertyValueView,
};
use crate::zfs_list_output::{DatasetEntryView, ZfsList};
use crate::zfs_specification::{DatasetView, ZfsSpecification};

verus! {

/// A number part with a decimal point and the power of two of its unit.
#[derive(Debug)]
pub struct FractionText {
    pub number_part: String,
    pub shift: u32,
}

impl View for FractionText {
    type V = (Seq<char>, u32);

    open spec fn view(&self) -> (Seq<char>, u32) {
        (self.number_part@, self.shift)
    }
}

/// The fractional reading that a value needs, if it needs one.
pub open spec fn fraction_of(v: PropertyValueView) -> Seq<(Seq<char>, u32)> {
    match v {
        PropertyValueView::String(s) => match number_syntax(s) {
            NumberSyntax::Fraction(number_part, shift) => seq![(number_part, shift)],
            _ => Seq::empty(),
        },
        PropertyValueView::Number(_) => Seq::empty(),
    }
}

/// The fractional readings that the values of a specification need, dataset by dataset.
pub open spec fn specification_fractions(datasets: Seq<(Seq<char>, DatasetView)>) -> Seq<
    (Seq<char>, u32),
> {
    datasets.map_values(
        |d: (Seq<char>, DatasetView)|
            d.1.map_values(|p: (Seq<char>, crate::zfs_specification::PropertyView)| fraction_of(p.1.value)).flatten(),
    ).flatten()
}

/// The fractional readings that the values of a `zfs get` report need, dataset by
/// dataset.
pub open spec fn report_fractions(datasets: Seq<(Seq<char>, DatasetEntryView)>) -> Seq<
    (Seq<char>, u32),
> {
    datasets.map_values(
        |d: (Seq<char>, DatasetEntryView)|
            d.1.properties.map_values(
                |p: (Seq<char>, crate::property::ReportedPropertyView)| fraction_of(p.1.value),
            ).flatten(),
    ).flatten()
}

/// The views of a list of fractional texts.
pub open spec fn fractions_view(texts: Seq<FractionText>) -> Seq<(Seq<char>, u32)> {
    texts.map_values(|t: FractionText| t@)
}

/// Appends the fractional reading that `value` needs, if it needs one.
fn push_fraction(value: &PropertyValue, out: &mut Vec<FractionText>)
    ensures
        fractions_view(final(out)@) == fractions_view(old(out)@) + fraction_of(value@),
{
    let ghost before = fractions_view(out@);
    match value {
        PropertyValue::String(s) => match parse_number_with_suffix(s.as_str()) {
            ParsedNumber::Fraction { number_part, shift } => {
                let ghost t = (number_part@, shift);
                out.push(FractionText { number_part, shift });
                assert(fractions_view(out@) =~= before + seq![t]);
            },
            _ => {
                assert(fractions_view(out@) =~= before + Seq::<(Seq<char>, u32)>::empty());
            },
        },
        PropertyValue::Number(_) => {
            assert(fractions_view(out@) =~= before + Seq::<(Seq<char>, u32)>::empty());
        },
    }
}

/// The fractional readings that the values of the specification and of the report need,
/// those of the specification first.
pub fn fractions_to_read(desired: &ZfsSpecification, current: &ZfsList) -> (r: Vec<FractionText>)
    ensures
        fractions_view(r@) == specification_fractions(desired@.datasets) + report_fractions(
            current.datasets@,
        ),
{
    let mut out: Vec<FractionText> = Vec::new();
    let ghost per_spec = |d: (Seq<char>, DatasetView)|
        d.1.map_values(|p: (Seq<char>, crate::zfs_specification::PropertyView)| fraction_of(p.1.value)).flatten();
    let ghost per_report = |d: (Seq<char>, DatasetEntryView)|
        d.1.properties.map_values(
            |p: (Seq<char>, crate::property::ReportedPropertyView)| fraction_of(p.1.value),
        ).flatten();
    let ghost ds = desired@.datasets;
    let n = desired.datasets.len();
    let mut i: usize = 0;
    while i < n
        invariant
            n == ds.len(),
            ds == desired@.datasets,
            i <= n,
            per_spec == (|d: (Seq<char>, DatasetView)|
                d.1.map_values(|p: (Seq<char>, crate::zfs_specification::PropertyView)| fraction_of(p.1.value)).flatten()),
            fractions_view(out@) == ds.subrange(0, i as int).map_values(per_spec).flatten(),
        decreases n - i,
    {
        proof {
            crate::planner::lemma_flatten_step(ds, per_spec, i as int);
        }
        let properties = &desired.datasets.value_at(i).properties;
        let ghost ps = properties@;
        let ghost f = |p: (Seq<char>, crate::zfs_specification::PropertyView)| fraction_of(p.1.value);
        let ghost start = fractions_view(out@);
        let m = properties.len();
        let mut j: usize = 0;
        while j < m
            invariant
                m == ps.len(),
                ps == properties@,
                j <= m,
                f == (|p: (Seq<char>, crate::zfs_specification::PropertyView)| fraction_of(p.1.value)),
                fractions_view(out@) == start + ps.subrange(0, j as int).map_values(f).flatten(),
            decreases m - j,
        {
            proof {
                crate::planner::lemma_flatten_step(ps, f, j as int);
            }
            push_fraction(&properties.value_at(j).value, &mut out);
            j = j + 1;
        }
        assert(ps.subrange(0, m as int) =~= ps);
        assert(per_spec(ds[i as int]) == ps.map_values(f).flatten());
        i = i + 1;
    }
    assert(ds.subrange(0, n as int) =~= ds);
    let ghost middle = fractions_view(out@);
    let ghost rs = current.datasets@;
    let c = current.datasets.len();
    let mut i: usize = 0;
    while i < c
        invariant
            c == rs.len(),
            rs == current.datasets@,
            i <= c,
            per_report == (|d: (Seq<char>, DatasetEntryView)|
                d.1.properties.map_values(
                    |p: (Seq<char>, crate::property::ReportedPropertyView)| fraction_of(p.1.value),
                ).flatten()),
            fractions_view(out@) == middle + rs.subrange(0, i as int).map_values(per_report).flatten(),
        decreases c - i,
    {
        proof {
            crate::planner::lemma_flatten_step(rs, per_report, i as int);
        }
        let properties = &current.datasets.value_at(i).properties;
        let ghost ps = properties@;
        let ghost f = |p: (Seq<char>, crate::property::ReportedPropertyView)| fraction_of(p.1.value);
        let ghost start = fractions_view(out@);
        let m = properties.len();
        let mut j: usize = 0;
        while j < m
            invariant
                m == ps.len(),
                ps == properties@,
                j <= m,
                f == (|p: (Seq<char>, crate::property::ReportedPropertyView)| fraction_of(p.1.value)),
                fractions_view(out@) == start + ps.subrange(0, j as int).map_values(f).flatten(),
            decreases m - j,
        {
            proof {
                crate::planner::lemma_flatten_step(ps, f, j as int);
            }
            push_fraction(&properties.value_at(j).value, &mut out);
            j = j + 1;
        }
        assert(ps.subrange(0, m as int) =~= ps);
        assert(per_report(rs[i as int]) == ps.map_values(f).flatten());
        i = i + 1;
    }
    assert(rs.subrange(0, c as int) =~= rs);
    out
}

} // verus!
