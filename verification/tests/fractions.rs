use disko_zfs::fractions::fractions_to_read;
use disko_zfs::keyed::KeyedList;
use disko_zfs::property::{PropertyValue};
use disko_zfs::zfs_list_output::{ZfsList, ZfsListVersion};
use disko_zfs::zfs_specification::{ZfsSpecification, ZfsSpecificationDataset};

#[test]
fn fractional_values_are_listed_for_reading() {
    let mut values = KeyedList::new();
    values.insert("quota".to_owned(), PropertyValue::String("1.5G".to_owned()));
    values.insert("atime".to_owned(), PropertyValue::String("off".to_owned()));
    values.insert("refquota".to_owned(), PropertyValue::Number(1));
    let mut datasets = KeyedList::new();
    datasets.insert("tank".to_owned(), ZfsSpecificationDataset::new(values));
    let spec = ZfsSpecification { datasets, ignored_datasets: Vec::new(), ignored_properties: Vec::new() };
    let list = ZfsList {
        output_version: ZfsListVersion { command: "zfs get".to_owned(), vers_major: 0, vers_minor: 1 },
        datasets: KeyedList::new(),
    };
    let texts = fractions_to_read(&spec, &list);
    assert_eq!(texts.len(), 1);
    assert_eq!(texts[0].number_part, "1.5");
    assert_eq!(texts[0].shift, 30);
}
