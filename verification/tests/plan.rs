use disko_zfs::actions::{render_command, ActionSet, DestructiveAction, ZfsAction};
use disko_zfs::keyed::KeyedList;
use disko_zfs::planner::{eval_spec, filter_spec, get_actions};
use disko_zfs::producer::VecActionProducer;
use disko_zfs::property::{FractionReadings, Property, PropertySource, PropertyValue};
use disko_zfs::zfs_list_output::{
    Dataset, DatasetType, SourceSelection, SpecificationFilter, ZfsList, ZfsListVersion,
};
use disko_zfs::zfs_specification::{
    self, GlobPattern, ZfsSpecification, ZfsSpecificationDataset,
};

fn number(n: u64) -> PropertyValue {
    PropertyValue::Number(n)
}

fn text(s: &str) -> PropertyValue {
    PropertyValue::String(s.to_owned())
}

fn local() -> PropertySource {
    PropertySource::Local { data: "-".to_owned() }
}

fn wanted(datasets: &[(&str, &[(&str, PropertyValue)])]) -> ZfsSpecification {
    let mut list = KeyedList::new();
    for (name, properties) in datasets {
        let mut values = KeyedList::new();
        for (property, value) in properties.iter() {
            values.insert(property.to_string(), value.clone());
        }
        list.insert(name.to_string(), ZfsSpecificationDataset::new(values));
    }
    ZfsSpecification { datasets: list, ignored_datasets: Vec::new(), ignored_properties: Vec::new() }
}

fn reported(datasets: &[(&str, &[(&str, PropertyValue, PropertySource)])]) -> ZfsList {
    let mut list = KeyedList::new();
    for (name, properties) in datasets {
        let mut props = KeyedList::new();
        for (property, value, source) in properties.iter() {
            props.insert(
                property.to_string(),
                Property { value: value.clone(), source: source.clone() },
            );
        }
        list.insert(
            name.to_string(),
            Dataset {
                name: name.to_string(),
                dataset_type: DatasetType::Filesystem,
                pool: "tank".to_owned(),
                createtxg: 1,
                properties: props,
            },
        );
    }
    ZfsList {
        output_version: ZfsListVersion { command: "zfs get".to_owned(), vers_major: 0, vers_minor: 1 },
        datasets: list,
    }
}

fn commands(actions: &ActionSet) -> (Vec<Vec<String>>, Vec<Vec<String>>) {
    (actions.to_additive_commands(), actions.to_destructive_commands())
}

fn words(list: &[&str]) -> Vec<String> {
    list.iter().map(|s| s.to_string()).collect()
}

#[test]
fn none_properties_equal_zero_in_zfs_json() {
    let spec = wanted(&[("tank", &[("quota", text("none")), ("refreservation", text("none"))])]);
    let list = reported(&[(
        "tank",
        &[("quota", number(0), local()), ("refreservation", number(0), local())],
    )]);
    let (actions, errors) = get_actions(spec, list, &FractionReadings::new());
    let (additive, destructive) = commands(&actions);
    assert!(additive.is_empty());
    assert!(destructive.is_empty());
    assert!(errors.is_empty());
}

#[test]
fn missing_datasets_are_created_after_their_parents() {
    let spec = wanted(&[("tank/a/b", &[("compression", text("lz4"))])]);
    let list = reported(&[("tank", &[])]);
    let (actions, errors) = get_actions(spec, list, &FractionReadings::new());
    let (additive, destructive) = commands(&actions);
    assert_eq!(
        additive,
        vec![
            words(&["zfs", "create", "tank/a"]),
            words(&["zfs", "create", "-ocompression=lz4", "tank/a/b"]),
        ]
    );
    assert!(destructive.is_empty());
    assert!(errors.is_empty());
}

#[test]
fn differing_properties_are_set_and_undesired_datasets_destroyed() {
    let spec = wanted(&[("tank", &[("compression", text("zstd")), ("atime", text("off"))])]);
    let list = reported(&[
        ("tank", &[("compression", text("lz4"), local()), ("atime", text("off"), local())]),
        ("tank/old", &[]),
    ]);
    let (actions, errors) = get_actions(spec, list, &FractionReadings::new());
    let (additive, destructive) = commands(&actions);
    assert_eq!(additive, vec![words(&["zfs", "set", "compression=zstd", "tank"])]);
    assert_eq!(destructive, vec![words(&["zfs", "destroy", "tank/old"])]);
    assert!(errors.is_empty());
}

#[test]
fn local_properties_not_stated_are_inherited() {
    let spec = wanted(&[("tank", &[("atime", text("off"))])]);
    let list = reported(&[(
        "tank",
        &[
            ("atime", text("off"), local()),
            ("compression", text("lz4"), local()),
            ("recordsize", number(131072), PropertySource::Default { data: "-".to_owned() }),
        ],
    )]);
    let (actions, _) = get_actions(spec, list, &FractionReadings::new());
    let (additive, _) = commands(&actions);
    assert_eq!(additive, vec![words(&["zfs", "inherit", "compression", "tank"])]);
}

#[test]
fn properties_the_user_does_not_manage_are_refused() {
    let spec = wanted(&[("tank", &[("mounted", text("yes"))])]);
    let list = reported(&[(
        "tank",
        &[("mounted", text("no"), PropertySource::NoSource { data: "-".to_owned() })],
    )]);
    let (actions, errors) = get_actions(spec, list, &FractionReadings::new());
    let (additive, _) = commands(&actions);
    assert!(additive.is_empty());
    assert_eq!(errors.len(), 1);
    assert_eq!(errors[0].dataset, "tank");
    assert_eq!(errors[0].property, "mounted");
    assert!(matches!(errors[0].source, Some(PropertySource::NoSource { .. })));
}

#[test]
fn k_syntax_and_suffixes_count_as_equal() {
    let spec = wanted(&[("tank", &[("recordsize", text("128K")), ("volblocksize", text("+16k"))])]);
    let list = reported(&[(
        "tank",
        &[("recordsize", number(131072), local()), ("volblocksize", number(16384), local())],
    )]);
    let (actions, _) = get_actions(spec, list, &FractionReadings::new());
    assert!(actions.to_additive_commands().is_empty());
}

#[test]
fn ignored_datasets_and_properties_are_left_alone() {
    let mut spec = wanted(&[("tank", &[("atime", text("on"))])]);
    spec.ignored_datasets.push(GlobPattern::new("tank/keep*").unwrap());
    spec.ignored_properties.push(GlobPattern::new("com.example:*").unwrap());
    let list = reported(&[
        ("tank", &[("atime", text("on"), local()), ("com.example:x", text("1"), local())]),
        ("tank/keep-me", &[]),
    ]);
    let (actions, _) = get_actions(spec, list, &FractionReadings::new());
    let (additive, destructive) = commands(&actions);
    assert!(additive.is_empty());
    assert!(destructive.is_empty());
}

#[test]
fn invalid_glob_patterns_are_rejected() {
    assert!(GlobPattern::new("[").is_err());
    assert!(GlobPattern::new("tank/*").is_ok());
    let p = GlobPattern::new("tank/*").unwrap();
    assert!(p.matches("tank/a"));
    assert!(!p.matches("pool/a"));
    assert_eq!(p.as_str(), "tank/*");
}

#[test]
fn repeated_creations_fold_into_property_changes() {
    let mut first = KeyedList::new();
    first.insert("atime".to_owned(), text("off"));
    let mut second = KeyedList::new();
    second.insert("atime".to_owned(), text("off"));
    second.insert("compression".to_owned(), text("lz4"));
    let mut same = KeyedList::new();
    same.insert("atime".to_owned(), text("off"));
    let actions = vec![
        ZfsAction::CreateDataset { name: "tank/a".to_owned(), properties: first },
        ZfsAction::CreateDataset { name: "tank/a".to_owned(), properties: second },
        ZfsAction::CreateDataset { name: "tank/a".to_owned(), properties: same },
    ];
    let folded = VecActionProducer::cleanup_multiple_creates(actions, &FractionReadings::new());
    let set = ActionSet { additive: folded, destrictive: Vec::new() };
    assert_eq!(
        set.to_additive_commands(),
        vec![
            words(&["zfs", "create", "-oatime=off", "tank/a"]),
            words(&["zfs", "set", "compression=lz4", "tank/a"]),
        ]
    );
}

#[test]
fn specifications_gain_their_parent_datasets() {
    let mut spec = wanted(&[("tank/a/b", &[("atime", text("off"))])]);
    spec.expand_sub_datasets();
    assert_eq!(spec.datasets.len(), 3);
    assert!(spec.get_dataset("tank").is_some());
    assert!(spec.get_dataset("tank/a").is_some());
    assert!(spec.get_dataset("tank/a/b").unwrap().get_property("atime").is_some());
    assert!(spec.get_dataset("tank").unwrap().properties.len() == 0);
}

#[test]
fn reports_become_specifications_through_filters() {
    let list = reported(&[(
        "tank",
        &[
            ("atime", text("off"), local()),
            ("compression", text("lz4"), PropertySource::Inherited { data: "pool".to_owned() }),
            ("mounted", text("yes"), PropertySource::NoSource { data: "-".to_owned() }),
        ],
    )]);
    let filter = SpecificationFilter { properties: None, property_sources: Some(SourceSelection::Local) };
    let spec = list.into_specification(&filter);
    let tank = spec.get_dataset("tank").unwrap();
    assert!(tank.get_property("atime").is_some());
    assert!(tank.get_property("compression").is_none());

    let list = reported(&[(
        "tank",
        &[("atime", text("off"), local()), ("compression", text("lz4"), local())],
    )]);
    let filter = SpecificationFilter {
        properties: Some(vec!["compression".to_owned()]),
        property_sources: None,
    };
    let spec = list.into_specification(&filter);
    let tank = spec.get_dataset("tank").unwrap();
    assert!(tank.get_property("atime").is_none());
    let compression: &zfs_specification::Property = tank.get_property("compression").unwrap();
    assert!(matches!(compression.source, Some(PropertySource::Local { .. })));
    assert!(SpecificationFilter::default().properties.is_none());
}

#[test]
fn volumes_lose_their_refreservation() {
    let mut list = reported(&[("tank/vol", &[
        ("refreservation", number(1), local()),
        ("volsize", number(1024), local()),
    ])]);
    list.datasets.get_mut("tank/vol").unwrap().dataset_type = DatasetType::Volume;
    let list = list.without_volume_refreservation();
    let vol = list.datasets.get("tank/vol").unwrap();
    assert!(vol.get_property("refreservation").is_none());
    assert!(vol.get_property("volsize").is_some());
}

#[test]
fn dataset_properties_can_be_changed_in_place() {
    let mut list = reported(&[("tank", &[("atime", text("off"), local())])]);
    let dataset = list.datasets.get_mut("tank").unwrap();
    dataset.get_property_mut("atime").unwrap().value = text("on");
    assert!(dataset.get_property_mut("missing").is_none());
    let value = &list.datasets.get("tank").unwrap().get_property("atime").unwrap().value;
    assert!(matches!(value, PropertyValue::String(s) if s == "on"));
}

#[test]
fn destructive_and_additive_commands() {
    let mut producer = VecActionProducer::new();
    producer.produce_destructive_action(DestructiveAction::DestroyDataset { name: "tank/x".to_owned() });
    let mut values = KeyedList::new();
    values.insert("quota".to_owned(), number(10));
    producer.produce_action(ZfsAction::SetProperties { dataset: "tank".to_owned(), properties: values });
    producer.produce_action(ZfsAction::InheritProperties {
        dataset: "tank".to_owned(),
        properties: vec!["atime".to_owned(), "compression".to_owned()],
    });
    let (set, errors) = producer.finalize(&FractionReadings::new());
    assert!(errors.is_empty());
    assert_eq!(set.to_destructive_commands(), vec![words(&["zfs", "destroy", "tank/x"])]);
    assert_eq!(
        set.to_additive_commands(),
        vec![
            words(&["zfs", "set", "quota=10", "tank"]),
            words(&["zfs", "inherit", "atime", "compression", "tank"]),
        ]
    );
    assert_eq!(render_command("> ", &words(&["zfs", "destroy", "tank/x"])), "> zfs destroy tank/x\n");
    assert_eq!(render_command("", &Vec::new()), "\n");
}

#[test]
fn eval_spec_plans_against_a_filtered_state() {
    let desired = wanted(&[("tank", &[("atime", text("off"))])]);
    let actual = reported(&[("tank", &[("atime", text("on"), local())])])
        .into_specification(&SpecificationFilter::default());
    let mut producer = VecActionProducer::new();
    eval_spec(&mut producer, actual, desired, &FractionReadings::new());
    let (set, _) = producer.finalize(&FractionReadings::new());
    assert_eq!(set.to_additive_commands(), vec![words(&["zfs", "set", "atime=off", "tank"])]);

    let mut spec = wanted(&[("tank", &[]), ("tank/skip", &[])]);
    spec.ignored_datasets.push(GlobPattern::new("*/skip").unwrap());
    let filtered = filter_spec(spec, None, None);
    assert!(filtered.get_dataset("tank/skip").is_none());
    assert_eq!(filtered.ignored_datasets.len(), 1);
}

#[test]
fn folding_twice_changes_nothing() {
    let mut first = KeyedList::new();
    first.insert("atime".to_owned(), text("off"));
    let mut second = KeyedList::new();
    second.insert("atime".to_owned(), text("on"));
    let actions = vec![
        ZfsAction::CreateDataset { name: "tank/a".to_owned(), properties: first },
        ZfsAction::CreateDataset { name: "tank/a".to_owned(), properties: second },
    ];
    let readings = FractionReadings::new();
    let once = VecActionProducer::cleanup_multiple_creates(actions, &readings);
    let once_commands = ActionSet { additive: once, destrictive: Vec::new() }.to_additive_commands();
    let mut again_input = Vec::new();
    for command in &once_commands {
        let mut properties = KeyedList::new();
        if command[1] == "create" {
            properties.insert("atime".to_owned(), text("off"));
            again_input.push(ZfsAction::CreateDataset { name: command[3].clone(), properties });
        } else {
            properties.insert("atime".to_owned(), text("on"));
            again_input.push(ZfsAction::SetProperties { dataset: command[3].clone(), properties });
        }
    }
    let twice = VecActionProducer::cleanup_multiple_creates(again_input, &readings);
    let twice_commands = ActionSet { additive: twice, destrictive: Vec::new() }.to_additive_commands();
    assert_eq!(once_commands, twice_commands);
    assert_eq!(
        once_commands,
        vec![words(&["zfs", "create", "-oatime=off", "tank/a"]), words(&["zfs", "set", "atime=on", "tank/a"])]
    );
}

#[test]
fn created_and_destroyed_datasets_are_apart() {
    let spec = wanted(&[("tank/new/child", &[])]);
    let list = reported(&[("tank", &[]), ("tank/gone", &[])]);
    let (actions, _) = get_actions(spec, list, &FractionReadings::new());
    let (additive, destructive) = commands(&actions);
    assert_eq!(
        additive,
        vec![words(&["zfs", "create", "tank/new"]), words(&["zfs", "create", "tank/new/child"])]
    );
    assert_eq!(destructive, vec![words(&["zfs", "destroy", "tank/gone"])]);
}

#[test]
fn fractional_values_use_the_supplied_readings() {
    let spec = wanted(&[("tank", &[("quota", text("1.5G"))])]);
    let list = reported(&[("tank", &[("quota", number(1610612736), local())])]);
    let mut readings = FractionReadings::new();
    readings.record("1.5".to_owned(), 30, Some(1610612736));
    let (actions, _) = get_actions(spec, list, &readings);
    assert!(actions.to_additive_commands().is_empty());

    let spec = wanted(&[("tank", &[("quota", text("1.5G"))])]);
    let list = reported(&[("tank", &[("quota", number(1610612736), local())])]);
    let (actions, _) = get_actions(spec, list, &FractionReadings::new());
    assert_eq!(actions.to_additive_commands(), vec![words(&["zfs", "set", "quota=1.5G", "tank"])]);
}

#[test]
fn datasets_are_planned_by_name_length_in_bytes() {
    // "tank/éé" has 7 characters but 9 bytes; "tank/abc" has 8 of each.
    let spec = wanted(&[("tank/éé", &[]), ("tank/abc", &[])]);
    let list = reported(&[("tank", &[])]);
    let (actions, _) = get_actions(spec, list, &FractionReadings::new());
    let (additive, _) = commands(&actions);
    assert_eq!(
        additive,
        vec![words(&["zfs", "create", "tank/abc"]), words(&["zfs", "create", "tank/éé"])]
    );
}

#[test]
fn expanding_twice_changes_nothing() {
    let mut spec = wanted(&[("tank/a/b", &[("atime", text("off"))]), ("pool/x", &[])]);
    spec.expand_sub_datasets();
    let names: Vec<String> = (0..spec.datasets.len()).map(|i| spec.datasets.key_at(i).clone()).collect();
    spec.expand_sub_datasets();
    let again: Vec<String> = (0..spec.datasets.len()).map(|i| spec.datasets.key_at(i).clone()).collect();
    assert_eq!(names, again);
    assert_eq!(names.len(), 5);
}
