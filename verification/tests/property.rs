use disko_zfs::property::{
    numeric_none_sentinel, parse_number_with_suffix, FractionReadings, ParsedNumber,
    PropertySource, PropertyValue,
};

#[test]
fn none_uses_each_property_numeric_sentinel() {
    let readings = FractionReadings::new();
    let none = PropertyValue::String("none".to_owned());
    let zero = PropertyValue::Number(0);

    for property_name in [
        "quota",
        "refquota",
        "reservation",
        "refreservation",
        "defaultuserquota",
        "defaultgroupquota",
        "defaultprojectquota",
        "defaultuserobjquota",
        "defaultgroupobjquota",
        "defaultprojectobjquota",
        "zoned_uid",
        "userquota@1000",
        "groupquota@1000",
        "projectquota@1000",
        "userobjquota@1000",
        "groupobjquota@1000",
        "projectobjquota@1000",
    ] {
        assert!(none.equivalent_for_property(&zero, property_name, &readings));
        assert!(zero.equivalent_for_property(&none, property_name, &readings));
    }

    let maximum = PropertyValue::Number(u64::MAX);
    for property_name in ["filesystem_limit", "snapshot_limit"] {
        assert!(none.equivalent_for_property(&maximum, property_name, &readings));
        assert!(maximum.equivalent_for_property(&none, property_name, &readings));
        assert!(!none.equivalent_for_property(&zero, property_name, &readings));
    }

    assert!(!none.equivalent_for_property(&zero, "special_small_blocks", &readings));
    assert!(!none.equivalent_for_property(&zero, "example:custom", &readings));
}

fn whole(text: &str) -> Option<u64> {
    match parse_number_with_suffix(text) {
        ParsedNumber::Whole(n) => Some(n),
        _ => None,
    }
}

#[test]
fn suffixes_scale_by_powers_of_two() {
    assert_eq!(whole("0"), Some(0));
    assert_eq!(whole("512"), Some(512));
    assert_eq!(whole("512B"), Some(512));
    assert_eq!(whole("1K"), Some(1024));
    assert_eq!(whole("1k"), Some(1024));
    assert_eq!(whole("2KB"), Some(2048));
    assert_eq!(whole("3kib"), Some(3072));
    assert_eq!(whole("1M"), Some(1 << 20));
    assert_eq!(whole("4G"), Some(4 << 30));
    assert_eq!(whole("1TiB"), Some(1 << 40));
    assert_eq!(whole("1P"), Some(1 << 50));
    assert_eq!(whole("1E"), Some(1 << 60));
}

#[test]
fn numbers_too_large_for_64_bits_are_invalid() {
    for text in ["16E", "17E", "16384P", "18446744073709551615K"] {
        assert!(matches!(parse_number_with_suffix(text), ParsedNumber::Invalid), "{}", text);
    }
    assert_eq!(whole("15E"), Some(15 << 60));
    assert_eq!(whole("16383P"), Some(16383 << 50));
    assert_eq!(whole("18014398509481983K"), Some(18014398509481983 << 10));
}

#[test]
fn equal_values_ignore_overflowing_texts() {
    let readings = FractionReadings::new();
    let zero = PropertyValue::Number(0);
    let text = PropertyValue::String("16E".to_owned());
    assert!(!zero.equals(&text, &readings));
    assert!(!text.equals(&zero, &readings));
}

#[test]
fn invalid_numeric_texts_are_not_numbers() {
    for text in ["", "none", "on", "1X", "1KK", "1Z", "0Z", "K", "18446744073709551616", "1 K"] {
        assert!(matches!(parse_number_with_suffix(text), ParsedNumber::Invalid), "{}", text);
    }
}

#[test]
fn fractional_texts_are_handed_back_with_their_unit() {
    match parse_number_with_suffix("1.5G") {
        ParsedNumber::Fraction { number_part, shift } => {
            assert_eq!(number_part, "1.5");
            assert_eq!(shift, 30);
        }
        other => panic!("unexpected {:?}", other),
    }
    match parse_number_with_suffix(".5") {
        ParsedNumber::Fraction { number_part, shift } => {
            assert_eq!(number_part, ".5");
            assert_eq!(shift, 0);
        }
        other => panic!("unexpected {:?}", other),
    }
}

#[test]
fn fractional_texts_compare_by_their_readings() {
    let mut readings = FractionReadings::new();
    readings.record("1.5".to_owned(), 30, Some(1610612736));
    let text = PropertyValue::String("1.5G".to_owned());
    assert!(text.equals(&PropertyValue::Number(1610612736), &readings));
    assert!(!text.equals(&PropertyValue::Number(1610612737), &readings));
    let empty = FractionReadings::new();
    assert!(!text.equals(&PropertyValue::Number(1610612736), &empty));
    assert_eq!(readings.reading("1.5", 30), Some(1610612736));
    assert_eq!(readings.reading("1.5", 20), None);
}

#[test]
fn numbers_equal_their_texts() {
    let readings = FractionReadings::new();
    assert!(PropertyValue::Number(1024).equals(&PropertyValue::String("1K".to_owned()), &readings));
    assert!(PropertyValue::String("1K".to_owned()).equals(&PropertyValue::Number(1024), &readings));
    assert!(PropertyValue::Number(7).equals(&PropertyValue::String("7".to_owned()), &readings));
    assert!(!PropertyValue::String("1K".to_owned())
        .equals(&PropertyValue::String("1024".to_owned()), &readings));
    assert!(!PropertyValue::Number(1).equals(&PropertyValue::Number(2), &readings));
    assert!(PropertyValue::String("lz4".to_owned())
        .equals(&PropertyValue::String("lz4".to_owned()), &readings));
}

#[test]
fn sentinel_names() {
    assert_eq!(numeric_none_sentinel("quota"), Some(0));
    assert_eq!(numeric_none_sentinel("userquota@alice"), Some(0));
    assert_eq!(numeric_none_sentinel("snapshot_limit"), Some(u64::MAX));
    assert_eq!(numeric_none_sentinel("userquota"), None);
    assert_eq!(numeric_none_sentinel("compression"), None);
}

#[test]
fn values_render_as_zfs_reads_them() {
    assert_eq!(PropertyValue::Number(0).to_string(), "0");
    assert_eq!(PropertyValue::Number(1234567890).to_string(), "1234567890");
    assert_eq!(PropertyValue::Number(u64::MAX).to_string(), "18446744073709551615");
    assert_eq!(PropertyValue::String("lz4".to_owned()).to_string(), "lz4");
}

#[test]
fn sources_that_the_user_manages() {
    let data = || "-".to_owned();
    assert!(PropertySource::Local { data: data() }.is_local());
    assert!(!PropertySource::Inherited { data: data() }.is_local());
    assert!(PropertySource::Local { data: data() }.user_managed());
    assert!(PropertySource::Inherited { data: data() }.user_managed());
    assert!(PropertySource::Default { data: data() }.user_managed());
    assert!(PropertySource::Received { data: data() }.user_managed());
    assert!(!PropertySource::Temporary { data: data() }.user_managed());
    assert!(!PropertySource::NoSource { data: data() }.user_managed());
}

#[test]
fn suffixes_read_the_same_in_any_case() {
    for (lower, upper) in [("3kib", "3KIB"), ("2gb", "2GB"), ("1.5g", "1.5G"), ("16e", "16E"), ("x", "X")] {
        assert_eq!(
            format!("{:?}", parse_number_with_suffix(lower)),
            format!("{:?}", parse_number_with_suffix(upper))
        );
    }
}
