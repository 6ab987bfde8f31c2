//! Property values and their sources as `zfs get` reports them, and the rules by which
//! two values of a property count as the same.

use vstd::prelude::*;
use vstd::string::*;
use vstd::arithmetic::power2::pow2;
use vstd::bits::{lemma_u64_pow2_no_overflow, lemma_u64_shl_is_mul};

use crate::text::{
    ascii_upper, ascii_uppercase, contains_char, decimal_string, decimal_text, has_prefix, is_digit,
    owned, parse_unsigned, starts_with, str_equal, unsigned_reading,
};

verus! {

/// Where the value of a property comes from, as the `source` column of `zfs get` shows.
#[derive(Debug, Clone)]
pub enum PropertySource {
    Local { data: String },
    NoSource { data: String },
    Inherited { data: String },
    Default { data: String },
    Temporary { data: String },
    Received { data: String },
}

/// The kind of source of a property, without its detail text.
#[derive(PartialEq, Eq, Structural, Debug, Clone, Copy)]
pub enum SourceKind {
    Local,
    NoSource,
    Inherited,
    Default,
    Temporary,
    Received,
}

/// A property source as a kind and the detail text that `zfs get` attaches to it.
pub struct SourceView {
    pub kind: SourceKind,
    pub data: Seq<char>,
}

impl View for PropertySource {
    type V = SourceView;

    open spec fn view(&self) -> SourceView {
        match self {
            PropertySource::Local { data } => SourceView { kind: SourceKind::Local, data: data@ },
            PropertySource::NoSource { data } => SourceView { kind: SourceKind::NoSource, data: data@ },
            PropertySource::Inherited { data } => SourceView {
                kind: SourceKind::Inherited,
                data: data@,
            },
            PropertySource::Default { data } => SourceView { kind: SourceKind::Default, data: data@ },
            PropertySource::Temporary { data } => SourceView {
                kind: SourceKind::Temporary,
                data: data@,
            },
            PropertySource::Received { data } => SourceView {
                kind: SourceKind::Received,
                data: data@,
            },
        }
    }
}

/// A property set on the dataset itself.
pub open spec fn source_is_local(kind: SourceKind) -> bool {
    kind == SourceKind::Local
}

/// A property whose value the user may change with `zfs set`: set locally, inherited,
/// left at its default or received; not a temporary mount option and not a read-only
/// statistic.
pub open spec fn source_user_managed(kind: SourceKind) -> bool {
    kind == SourceKind::Local || kind == SourceKind::Inherited || kind == SourceKind::Default
        || kind == SourceKind::Received
}

/// A value that can be copied with a proof that the copy has the same view.
pub trait Duplicate: View + Sized {
    fn duplicate(&self) -> (r: Self)
        ensures
            r@ == self@,
    ;
}

impl Duplicate for PropertySource {
    fn duplicate(&self) -> (r: Self) {
        match self {
            PropertySource::Local { data } => PropertySource::Local { data: data.clone() },
            PropertySource::NoSource { data } => PropertySource::NoSource { data: data.clone() },
            PropertySource::Inherited { data } => PropertySource::Inherited { data: data.clone() },
            PropertySource::Default { data } => PropertySource::Default { data: data.clone() },
            PropertySource::Temporary { data } => PropertySource::Temporary { data: data.clone() },
            PropertySource::Received { data } => PropertySource::Received { data: data.clone() },
        }
    }
}

impl PropertySource {
    /// The kind of this source.
    pub fn kind(&self) -> (k: SourceKind)
        ensures
            k == self@.kind,
    {
        match self {
            PropertySource::Local { .. } => SourceKind::Local,
            PropertySource::NoSource { .. } => SourceKind::NoSource,
            PropertySource::Inherited { .. } => SourceKind::Inherited,
            PropertySource::Default { .. } => SourceKind::Default,
            PropertySource::Temporary { .. } => SourceKind::Temporary,
            PropertySource::Received { .. } => SourceKind::Received,
        }
    }

    /// Whether the property is set on the dataset itself.
    pub fn is_local(&self) -> (r: bool)
        ensures
            r == source_is_local(self@.kind),
    {
        match self {
            PropertySource::Local { .. } => true,
            PropertySource::Received { .. }
            | PropertySource::Temporary { .. }
            | PropertySource::NoSource { .. }
            | PropertySource::Inherited { .. }
            | PropertySource::Default { .. } => false,
        }
    }

    /// Whether the user may change the property with `zfs set`.
    pub fn user_managed(&self) -> (r: bool)
        ensures
            r == source_user_managed(self@.kind),
    {
        match self {
            PropertySource::Local { .. }
            | PropertySource::Inherited { .. }
            | PropertySource::Default { .. }
            | PropertySource::Received { .. } => true,
            PropertySource::Temporary { .. } | PropertySource::NoSource { .. } => false,
        }
    }
}


/// The value of a property: a number, or a text as `zfs` prints or accepts it.
#[derive(Debug, Clone)]
pub enum PropertyValue {
    Number(u64),
    String(String),
}

/// A property value with its text taken as a sequence of characters.
pub enum PropertyValueView {
    Number(u64),
    String(Seq<char>),
}

impl View for PropertyValue {
    type V = PropertyValueView;

    open spec fn view(&self) -> PropertyValueView {
        match self {
            PropertyValue::Number(n) => PropertyValueView::Number(*n),
            PropertyValue::String(s) => PropertyValueView::String(s@),
        }
    }
}

impl Duplicate for PropertyValue {
    fn duplicate(&self) -> (r: Self) {
        match self {
            PropertyValue::Number(n) => PropertyValue::Number(*n),
            PropertyValue::String(s) => PropertyValue::String(s.clone()),
        }
    }
}

/// The text that `zfs set` is given for a value: a number in base ten, a text as it is.
pub open spec fn value_text(v: PropertyValueView) -> Seq<char> {
    match v {
        PropertyValueView::Number(n) => decimal_text(n as nat),
        PropertyValueView::String(s) => s,
    }
}

impl PropertyValue {
    /// The value as the text that `zfs set` is given.
    pub fn to_string(&self) -> (r: String)
        ensures
            r@ == value_text(self@),
    {
        match self {
            PropertyValue::Number(num) => decimal_string(*num),
            PropertyValue::String(string) => string.clone(),
        }
    }
}


/// Properties for which `none` stands for the number zero.
pub open spec fn is_zero_sentinel_name(name: Seq<char>) -> bool {
    name == "quota"@ || name == "refquota"@ || name == "reservation"@ || name == "refreservation"@
        || name == "defaultuserquota"@ || name == "defaultgroupquota"@
        || name == "defaultprojectquota"@ || name == "defaultuserobjquota"@
        || name == "defaultgroupobjquota"@ || name == "defaultprojectobjquota"@
        || name == "zoned_uid"@
}

/// Prefixes of per-user, per-group and per-project quota properties, for which `none`
/// stands for the number zero.
pub open spec fn has_zero_sentinel_prefix(name: Seq<char>) -> bool {
    has_prefix(name, "userquota@"@) || has_prefix(name, "groupquota@"@) || has_prefix(
        name,
        "projectquota@"@,
    ) || has_prefix(name, "userobjquota@"@) || has_prefix(name, "groupobjquota@"@)
        || has_prefix(name, "projectobjquota@"@)
}

/// The number that the text `none` stands for in the property `name`, if it stands for one:
/// zero for quotas and reservations, the largest `u64` for the count limits.
pub open spec fn none_sentinel(name: Seq<char>) -> Option<u64> {
    if is_zero_sentinel_name(name) || has_zero_sentinel_prefix(name) {
        Some(0)
    } else if name == "filesystem_limit"@ || name == "snapshot_limit"@ {
        Some(u64::MAX)
    } else {
        None
    }
}

/// The number that `none` stands for in the property named `property_name`.
pub fn numeric_none_sentinel(property_name: &str) -> (r: Option<u64>)
    ensures
        r == none_sentinel(property_name@),
{
    let zero_name = str_equal(property_name, "quota") || str_equal(property_name, "refquota")
        || str_equal(property_name, "reservation") || str_equal(property_name, "refreservation")
        || str_equal(property_name, "defaultuserquota") || str_equal(
        property_name,
        "defaultgroupquota",
    ) || str_equal(property_name, "defaultprojectquota") || str_equal(
        property_name,
        "defaultuserobjquota",
    ) || str_equal(property_name, "defaultgroupobjquota") || str_equal(
        property_name,
        "defaultprojectobjquota",
    ) || str_equal(property_name, "zoned_uid");
    let zero_prefix = starts_with(property_name, "userquota@") || starts_with(
        property_name,
        "groupquota@",
    ) || starts_with(property_name, "projectquota@") || starts_with(
        property_name,
        "userobjquota@",
    ) || starts_with(property_name, "groupobjquota@") || starts_with(
        property_name,
        "projectobjquota@",
    );
    if zero_name || zero_prefix {
        Some(0)
    } else if str_equal(property_name, "filesystem_limit") || str_equal(
        property_name,
        "snapshot_limit",
    ) {
        Some(u64::MAX)
    } else {
        None
    }
}

/// A character that may stand in the number part of a numeric text.
pub open spec fn is_number_char(c: char) -> bool {
    is_digit(c) || c == '.'
}

/// Whether `k` is where the number part of `s` ends: every character before `k` may stand
/// in a number, and the character at `k`, if any, may not.
pub open spec fn is_number_end(s: Seq<char>, k: int) -> bool {
    &&& 0 <= k <= s.len()
    &&& forall|j: int| 0 <= j < k ==> is_number_char(#[trigger] s[j])
    &&& (k == s.len() || !is_number_char(s[k]))
}

/// The length of the longest prefix of `s` made of digits and dots.
pub open spec fn number_end(s: Seq<char>) -> int {
    choose|k: int| is_number_end(s, k)
}

/// The number part of a text ends at exactly one place.
pub proof fn lemma_number_end(s: Seq<char>, k: int)
    requires
        is_number_end(s, k),
    ensures
        number_end(s) == k,
{
    let m = number_end(s);
    assert(is_number_end(s, m));
    if m < k {
        assert(is_number_char(s[m]));
    } else if k < m {
        assert(is_number_char(s[k]));
    }
}

/// Every text has a place where its number part ends.
pub proof fn lemma_number_end_exists(s: Seq<char>)
    ensures
        is_number_end(s, number_end(s)),
{
    lemma_number_end_from(s, 0);
}

/// Where the characters before `k` may all stand in a number, the number part ends at `k`
/// or later.
proof fn lemma_number_end_from(s: Seq<char>, k: int)
    requires
        0 <= k <= s.len(),
        forall|j: int| 0 <= j < k ==> is_number_char(#[trigger] s[j]),
    ensures
        is_number_end(s, number_end(s)),
    decreases s.len() - k,
{
    if k == s.len() || !is_number_char(s[k]) {
        assert(is_number_end(s, k));
    } else {
        lemma_number_end_from(s, k + 1);
    }
}

/// The power of two that a unit suffix multiplies by, in any mix of upper and lower case:
/// none or `B` for bytes, then `K`, `M`, `G`, `T`, `P`, `E` and `Z` (the units of
/// `zfs_nicestrtonum` in libzfs), each alone, with `B` or with `iB`.
pub open spec fn suffix_shift(suffix: Seq<char>) -> Option<u32> {
    let u = suffix.map_values(|c: char| ascii_upper(c));
    if u == ""@ || u == "B"@ {
        Some(0)
    } else if u == "K"@ || u == "KB"@ || u == "KIB"@ {
        Some(10)
    } else if u == "M"@ || u == "MB"@ || u == "MIB"@ {
        Some(20)
    } else if u == "G"@ || u == "GB"@ || u == "GIB"@ {
        Some(30)
    } else if u == "T"@ || u == "TB"@ || u == "TIB"@ {
        Some(40)
    } else if u == "P"@ || u == "PB"@ || u == "PIB"@ {
        Some(50)
    } else if u == "E"@ || u == "EB"@ || u == "EIB"@ {
        Some(60)
    } else if u == "Z"@ || u == "ZB"@ || u == "ZIB"@ {
        Some(70)
    } else {
        None
    }
}

/// How a numeric text with an optional unit suffix reads.
pub enum NumberSyntax {
    /// A whole number of units, times the unit, where the product fits in a `u64`.
    Whole(u64),
    /// A number part with a decimal point, and the power of two of its unit; its value
    /// depends on a floating-point reading that the caller supplies.
    Fraction(Seq<char>, u32),
    /// Not a number.
    Invalid,
}

/// How the text `s` reads as a number: the longest prefix of digits and dots is the
/// number part, the rest is the unit suffix. A number part without a dot is read as a
/// `u64` and multiplied by the unit's power of two; a unit of `2^64` or more, or a
/// product beyond `u64::MAX`, makes the text too large, and so not a number.
pub open spec fn number_syntax(s: Seq<char>) -> NumberSyntax {
    let k = number_end(s);
    let number_part = s.subrange(0, k);
    let suffix = s.subrange(k, s.len() as int);
    match suffix_shift(suffix) {
        None => NumberSyntax::Invalid,
        Some(shift) => {
            if number_part.contains('.') {
                NumberSyntax::Fraction(number_part, shift)
            } else {
                match unsigned_reading(number_part) {
                    None => NumberSyntax::Invalid,
                    Some(v) => if shift < 64 && v * pow2(shift as nat) <= u64::MAX {
                        NumberSyntax::Whole((v * pow2(shift as nat)) as u64)
                    } else {
                        NumberSyntax::Invalid
                    },
                }
            }
        },
    }
}

/// The outcome of reading a numeric text.
#[derive(Debug)]
pub enum ParsedNumber {
    Whole(u64),
    Fraction { number_part: String, shift: u32 },
    Invalid,
}

impl View for ParsedNumber {
    type V = NumberSyntax;

    open spec fn view(&self) -> NumberSyntax {
        match self {
            ParsedNumber::Whole(n) => NumberSyntax::Whole(*n),
            ParsedNumber::Fraction { number_part, shift } => NumberSyntax::Fraction(
                number_part@,
                *shift,
            ),
            ParsedNumber::Invalid => NumberSyntax::Invalid,
        }
    }
}

/// The power of two of a unit suffix.
fn unit_shift(suffix: &str) -> (r: Option<u32>)
    ensures
        r == suffix_shift(suffix@),
{
    let upper = ascii_uppercase(suffix);
    let u = upper.as_str();
    if str_equal(u, "") || str_equal(u, "B") {
        Some(0)
    } else if str_equal(u, "K") || str_equal(u, "KB") || str_equal(u, "KIB") {
        Some(10)
    } else if str_equal(u, "M") || str_equal(u, "MB") || str_equal(u, "MIB") {
        Some(20)
    } else if str_equal(u, "G") || str_equal(u, "GB") || str_equal(u, "GIB") {
        Some(30)
    } else if str_equal(u, "T") || str_equal(u, "TB") || str_equal(u, "TIB") {
        Some(40)
    } else if str_equal(u, "P") || str_equal(u, "PB") || str_equal(u, "PIB") {
        Some(50)
    } else if str_equal(u, "E") || str_equal(u, "EB") || str_equal(u, "EIB") {
        Some(60)
    } else if str_equal(u, "Z") || str_equal(u, "ZB") || str_equal(u, "ZIB") {
        Some(70)
    } else {
        None
    }
}

/// Reads a numeric text with an optional unit suffix, refusing a value too large for a
/// `u64`. A number part with a decimal point is handed back unread, with its unit.
pub fn parse_number_with_suffix(s: &str) -> (r: ParsedNumber)
    ensures
        r@ == number_syntax(s@),
{
    let n = s.unicode_len();
    let mut k: usize = 0;
    while k < n
        invariant
            n == s@.len(),
            k <= n,
            forall|j: int| 0 <= j < k ==> is_number_char(#[trigger] s@[j]),
        ensures
            k == n || !is_number_char(s@[k as int]),
        decreases n - k,
    {
        let c = s.get_char(k);
        if !(('0' <= c && c <= '9') || c == '.') {
            break;
        }
        k = k + 1;
    }
    proof {
        lemma_number_end(s@, k as int);
    }
    let number_part = s.substring_char(0, k);
    let suffix = s.substring_char(k, n);
    let shift = match unit_shift(suffix) {
        Some(shift) => shift,
        None => return ParsedNumber::Invalid,
    };
    if contains_char(number_part, '.') {
        return ParsedNumber::Fraction { number_part: owned(number_part), shift };
    }
    match parse_unsigned(number_part) {
        None => ParsedNumber::Invalid,
        Some(value) => {
            if shift < 64 {
                let s64: u64 = shift as u64;
                proof {
                    lemma_u64_pow2_no_overflow(s64 as nat);
                    lemma_u64_shl_is_mul(1, s64);
                }
                let factor: u64 = 1u64 << s64;
                match value.checked_mul(factor) {
                    Some(p) => ParsedNumber::Whole(p),
                    None => ParsedNumber::Invalid,
                }
            } else {
                ParsedNumber::Invalid
            }
        },
    }
}


/// The value of one number part with a decimal point, read in a unit, as the caller
/// computed it in floating point.
#[derive(Debug, Clone)]
pub struct FractionReading {
    pub number_part: String,
    pub shift: u32,
    pub value: Option<u64>,
}

/// The values of the fractional numeric texts (such as `1.5G`) that a comparison of
/// property values may meet. Their reading takes floating point, which the library does
/// not compute; its callers do, and hand the outcomes in here.
#[derive(Debug, Clone)]
pub struct FractionReadings {
    pub entries: Vec<FractionReading>,
}

/// The first recorded value for a number part and unit, or nothing where none is recorded.
pub open spec fn reading_in(
    entries: Seq<(Seq<char>, u32, Option<u64>)>,
    number_part: Seq<char>,
    shift: u32,
) -> Option<u64>
    decreases entries.len(),
{
    if entries.len() == 0 {
        None
    } else if entries[0].0 == number_part && entries[0].1 == shift {
        entries[0].2
    } else {
        reading_in(entries.drop_first(), number_part, shift)
    }
}

impl View for FractionReadings {
    type V = Seq<(Seq<char>, u32, Option<u64>)>;

    open spec fn view(&self) -> Seq<(Seq<char>, u32, Option<u64>)> {
        self.entries@.map_values(|e: FractionReading| (e.number_part@, e.shift, e.value))
    }
}

impl FractionReadings {
    /// A table that records no reading.
    pub fn new() -> (r: FractionReadings)
        ensures
            r@ == Seq::<(Seq<char>, u32, Option<u64>)>::empty(),
    {
        FractionReadings { entries: Vec::new() }
    }

    /// Records the value of a number part read in a unit.
    pub fn record(&mut self, number_part: String, shift: u32, value: Option<u64>)
        ensures
            final(self)@ == old(self)@.push((number_part@, shift, value)),
    {
        self.entries.push(FractionReading { number_part, shift, value });
        assert(final(self)@ =~= old(self)@.push((number_part@, shift, value)));
    }

    /// The recorded value of a number part read in a unit.
    pub fn reading(&self, number_part: &str, shift: u32) -> (r: Option<u64>)
        ensures
            r == reading_in(self@, number_part@, shift),
    {
        let n = self.entries.len();
        let mut i: usize = 0;
        assert(self@.skip(0) =~= self@);
        while i < n
            invariant
                n == self@.len(),
                i <= n,
                reading_in(self@, number_part@, shift) == reading_in(
                    self@.skip(i as int),
                    number_part@,
                    shift,
                ),
            decreases n - i,
        {
            let e = &self.entries[i];
            assert(self@.skip(i as int)[0] == self@[i as int]);
            assert(self@.skip(i as int).drop_first() =~= self@.skip(i + 1));
            if e.shift == shift && str_equal(e.number_part.as_str(), number_part) {
                return e.value;
            }
            i = i + 1;
        }
        None
    }
}

/// The number that a numeric text stands for, if any.
pub open spec fn numeric_value(
    text: Seq<char>,
    readings: Seq<(Seq<char>, u32, Option<u64>)>,
) -> Option<u64> {
    match number_syntax(text) {
        NumberSyntax::Whole(v) => Some(v),
        NumberSyntax::Fraction(number_part, shift) => reading_in(readings, number_part, shift),
        NumberSyntax::Invalid => None,
    }
}

/// Equality of property values: two numbers or two texts are equal when they are the
/// same; a number and a text are equal when the text reads as that number.
pub open spec fn value_eq(
    a: PropertyValueView,
    b: PropertyValueView,
    readings: Seq<(Seq<char>, u32, Option<u64>)>,
) -> bool {
    match (a, b) {
        (PropertyValueView::Number(s), PropertyValueView::Number(o)) => s == o,
        (PropertyValueView::String(s), PropertyValueView::String(o)) => s == o,
        (PropertyValueView::Number(s), PropertyValueView::String(o)) => Some(s) == numeric_value(
            o,
            readings,
        ),
        (PropertyValueView::String(s), PropertyValueView::Number(o)) => numeric_value(
            s,
            readings,
        ) == Some(o),
    }
}

/// Whether one value is the text `none` and the other is the number that `none` stands
/// for in the property `name`.
pub open spec fn none_matches_sentinel(
    a: PropertyValueView,
    b: PropertyValueView,
    name: Seq<char>,
) -> bool {
    match none_sentinel(name) {
        Some(sentinel) => match (a, b) {
            (PropertyValueView::Number(n), PropertyValueView::String(v)) => n == sentinel && v
                == "none"@,
            (PropertyValueView::String(v), PropertyValueView::Number(n)) => n == sentinel && v
                == "none"@,
            _ => false,
        },
        None => false,
    }
}

/// Whether two values of the property `name` mean the same setting.
pub open spec fn equivalent_values(
    a: PropertyValueView,
    b: PropertyValueView,
    name: Seq<char>,
    readings: Seq<(Seq<char>, u32, Option<u64>)>,
) -> bool {
    none_matches_sentinel(a, b, name) || value_eq(a, b, readings)
}

/// The number that a numeric text stands for, if any.
pub fn numeric_value_of(text: &str, readings: &FractionReadings) -> (r: Option<u64>)
    ensures
        r == numeric_value(text@, readings@),
{
    match parse_number_with_suffix(text) {
        ParsedNumber::Whole(v) => Some(v),
        ParsedNumber::Fraction { number_part, shift } => readings.reading(
            number_part.as_str(),
            shift,
        ),
        ParsedNumber::Invalid => None,
    }
}

impl PropertyValue {
    /// Whether two values are equal: the same number, the same text, or a text that reads
    /// as the number.
    pub fn equals(&self, other: &Self, readings: &FractionReadings) -> (r: bool)
        ensures
            r == value_eq(self@, other@, readings@),
    {
        match (self, other) {
            (PropertyValue::Number(s), PropertyValue::Number(o)) => *s == *o,
            (PropertyValue::String(s), PropertyValue::String(o)) => str_equal(
                s.as_str(),
                o.as_str(),
            ),
            (PropertyValue::Number(s), PropertyValue::String(o)) => match numeric_value_of(
                o.as_str(),
                readings,
            ) {
                Some(v) => v == *s,
                None => false,
            },
            (PropertyValue::String(s), PropertyValue::Number(o)) => match numeric_value_of(
                s.as_str(),
                readings,
            ) {
                Some(v) => v == *o,
                None => false,
            },
        }
    }

    /// Whether two values of the property `property_name` mean the same setting: they are
    /// equal, or one is `none` and the other the number that `none` stands for in that
    /// property.
    pub fn equivalent_for_property(
        &self,
        other: &Self,
        property_name: &str,
        readings: &FractionReadings,
    ) -> (r: bool)
        ensures
            r == equivalent_values(self@, other@, property_name@, readings@),
    {
        let none_is_sentinel = match numeric_none_sentinel(property_name) {
            Some(sentinel) => match (self, other) {
                (PropertyValue::Number(number), PropertyValue::String(value)) => *number
                    == sentinel && str_equal(value.as_str(), "none"),
                (PropertyValue::String(value), PropertyValue::Number(number)) => *number
                    == sentinel && str_equal(value.as_str(), "none"),
                _ => false,
            },
            None => false,
        };
        none_is_sentinel || self.equals(other, readings)
    }
}


/// A property of a dataset as `zfs get` reports it: its value and where it comes from.
#[derive(Debug, Clone)]
pub struct Property {
    pub value: PropertyValue,
    pub source: PropertySource,
}

/// A reported property as its value and its source.
pub struct ReportedPropertyView {
    pub value: PropertyValueView,
    pub source: SourceView,
}

impl View for Property {
    type V = ReportedPropertyView;

    open spec fn view(&self) -> ReportedPropertyView {
        ReportedPropertyView { value: self.value@, source: self.source@ }
    }
}

impl Duplicate for Property {
    fn duplicate(&self) -> (r: Self) {
        Property { value: self.value.duplicate(), source: self.source.duplicate() }
    }
}

} // verus!
