use pcpc_core::coerce::coerce;
use pcpc_core::differ::EditBuffer;
use pcpc_core::format_property;
use pcpc_core::model::{CPUProperties, DBPartProps, PartsCategory, StringenFloat};
use pcpc_core::ordering::OrderingStore;
use pcpc_core::ordmap::OrderedMap;
use pcpc_core::schema::{part_props_get_properties_as_map, FieldKind};
use pcpc_core::text::{dehumanize_field, humanize_field, parse_bool, parse_uint};

fn get<'a>(m: &'a OrderedMap<String>, key: &str) -> Option<&'a String> {
    m.get(&key.to_string())
}

#[test]
fn humanization_round_trips_every_declared_identifier() {
    let idents = [
        "name",
        "image_url",
        "model",
        "manufactuer",
        "release_date",
        "rating",
        "cores",
        "threads",
        "max_frequency",
        "base_frequency",
        "max_tdp",
        "base_tdp",
        "cache",
        "max_ram_size",
        "max_memory_channels",
        "ecc_memory_supported",
        "max_pcie_lanes",
        "max_supported_pcie_version",
        "socket",
        "max_temperature",
    ];
    for ident in idents {
        let display = humanize_field(ident);
        assert_eq!(dehumanize_field(display.as_str()), ident);
    }
}

#[test]
fn humanization_exact_values() {
    assert_eq!(humanize_field("name"), "Name");
    assert_eq!(humanize_field("image_url"), "Image Url");
    assert_eq!(humanize_field("max_ram_size"), "Max Ram Size");
    assert_eq!(humanize_field("ecc_memory_supported"), "Ecc Memory Supported");
    assert_eq!(dehumanize_field("Release Date"), "release_date");
}

#[test]
fn extraction_is_ordered_and_rendered() {
    let part = DBPartProps {
        category: PartsCategory::CPU(CPUProperties::default()),
        ..DBPartProps::default()
    };
    let m = part_props_get_properties_as_map(&part);
    assert_eq!(m.len(), 20);
    assert_eq!(m.key_at(0), "Name");
    assert_eq!(m.key_at(5), "Rating");
    assert_eq!(m.key_at(6), "Cores");
    assert_eq!(m.key_at(19), "Max Temperature");
    assert_eq!(get(&m, "Rating").unwrap(), "0");
    assert_eq!(get(&m, "Cores").unwrap(), "0");
    assert_eq!(get(&m, "Ecc Memory Supported").unwrap(), "false");
    assert_eq!(get(&m, "Socket").unwrap(), "");
    assert!(get(&m, "Category").is_none());
}

#[test]
fn extraction_renders_values_not_defaults() {
    let part = DBPartProps {
        name: "Intel Core i5-13500".to_string(),
        model: "i5-13500".to_string(),
        manufactuer: "Intel".to_string(),
        release_date: "22Q4".to_string(),
        rating: StringenFloat::from_text("3.5".to_string()).unwrap(),
        category: PartsCategory::CPU(CPUProperties {
            cores: 14,
            threads: 20,
            max_frequency: "4.80 GHz".to_string(),
            ecc_memory_supported: true,
            max_pcie_lanes: 20,
            ..CPUProperties::default()
        }),
        ..DBPartProps::default()
    };
    let m = part_props_get_properties_as_map(&part);
    assert_eq!(get(&m, "Name").unwrap(), "Intel Core i5-13500");
    assert_eq!(get(&m, "Rating").unwrap(), "3.5");
    assert_eq!(get(&m, "Cores").unwrap(), "14");
    assert_eq!(get(&m, "Threads").unwrap(), "20");
    assert_eq!(get(&m, "Max Frequency").unwrap(), "4.80 GHz");
    assert_eq!(get(&m, "Ecc Memory Supported").unwrap(), "true");
}

#[test]
fn extract_then_coerce_restores_default_instance_of_every_category() {
    for tag in PartsCategory::get_all_variats() {
        let category = PartsCategory::from_string(&tag);
        let part = DBPartProps {
            category: category.clone(),
            ..DBPartProps::default()
        };
        let m = part_props_get_properties_as_map(&part);
        let coerced = coerce(&m, &category).expect("default instance must coerce");
        assert_eq!(coerced, part);
    }
}

#[test]
fn extract_then_coerce_restores_an_edited_record() {
    let part = DBPartProps {
        name: "Intel Core i5-12500".to_string(),
        model: "i5-12500".to_string(),
        manufactuer: "Intel".to_string(),
        release_date: "21Q4".to_string(),
        rating: StringenFloat::from_text("2.5".to_string()).unwrap(),
        category: PartsCategory::CPU(CPUProperties {
            cores: 6,
            threads: 12,
            base_frequency: "1.80 GHz".to_string(),
            cache: "12 MB".to_string(),
            max_memory_channels: 2,
            ecc_memory_supported: true,
            socket: "FCLGA1700".to_string(),
            ..CPUProperties::default()
        }),
        ..DBPartProps::default()
    };
    let m = part_props_get_properties_as_map(&part);
    let coerced = coerce(&m, &part.category).expect("record must coerce");
    assert_eq!(coerced, part);
}

#[test]
fn coercion_rejects_out_of_type_boolean() {
    let category = PartsCategory::from_string("CPU");
    let mut buffer = EditBuffer::new();
    buffer.switch_category(&category);
    buffer.set_field("Ecc Memory Supported".to_string(), "maybe".to_string());
    let err = coerce(&buffer.fields, &category).expect_err("boolean must reject 'maybe'");
    assert_eq!(err.field, "Ecc Memory Supported");
    assert_eq!(err.expected, FieldKind::Bool);
}

#[test]
fn coercion_rejects_and_bounds_integers() {
    let category = PartsCategory::from_string("CPU");
    let mut buffer = EditBuffer::new();
    buffer.switch_category(&category);
    buffer.set_field("Cores".to_string(), "many".to_string());
    let err = coerce(&buffer.fields, &category).expect_err("non-numeric cores must reject");
    assert_eq!(err.field, "Cores");
    assert_eq!(err.expected, FieldKind::UInt);

    buffer.set_field("Cores".to_string(), "4294967296".to_string());
    assert!(coerce(&buffer.fields, &category).is_err());

    buffer.set_field("Cores".to_string(), "4294967295".to_string());
    let part = coerce(&buffer.fields, &category).expect("max value fits");
    match part.category {
        PartsCategory::CPU(c) => assert_eq!(c.cores, 4294967295),
        _ => panic!("wrong category"),
    }
}

#[test]
fn coercion_validates_rating_as_decimal_text() {
    let category = PartsCategory::Basic;
    let mut buffer = EditBuffer::new();
    buffer.set_field("Rating".to_string(), "maybe".to_string());
    let err = coerce(&buffer.fields, &category).expect_err("non-numeric rating must reject");
    assert_eq!(err.field, "Rating");
    assert_eq!(err.expected, FieldKind::Decimal);

    buffer.set_field("Rating".to_string(), "1e3".to_string());
    assert!(coerce(&buffer.fields, &category).is_ok());

    buffer.set_field("Rating".to_string(), "1.5.2".to_string());
    assert!(coerce(&buffer.fields, &category).is_err());

    buffer.set_field("Rating".to_string(), "-2.5".to_string());
    let part = coerce(&buffer.fields, &category).unwrap();
    assert_eq!(part.rating.0, "-2.5");
}

#[test]
fn coercion_trims_values_before_parsing() {
    let category = PartsCategory::from_string("CPU");
    let mut buffer = EditBuffer::new();
    buffer.switch_category(&category);
    buffer.set_field("Name".to_string(), "  Boxed CPU  ".to_string());
    buffer.set_field("Cores".to_string(), " 8 ".to_string());
    buffer.set_field("Ecc Memory Supported".to_string(), " true ".to_string());
    let part = coerce(&buffer.fields, &category).unwrap();
    assert_eq!(part.name, "Boxed CPU");
    match part.category {
        PartsCategory::CPU(c) => {
            assert_eq!(c.cores, 8);
            assert!(c.ecc_memory_supported);
        },
        _ => panic!("wrong category"),
    }
}

#[test]
fn coercion_reports_a_missing_field() {
    let category = PartsCategory::Basic;
    let buffer = OrderedMap::new();
    let err = coerce(&buffer, &category).expect_err("empty buffer must reject");
    assert_eq!(err.field, "Name");
    assert_eq!(err.expected, FieldKind::Text);
}

#[test]
fn switch_to_same_category_changes_nothing() {
    let mut buffer = EditBuffer::new();
    buffer.set_field("Name".to_string(), "My part".to_string());
    let before: Vec<(String, String)> = (0..buffer.fields.len())
        .map(|i| (buffer.fields.key_at(i).clone(), buffer.fields.value_at(i).clone()))
        .collect();
    buffer.switch_category(&PartsCategory::Basic);
    let after: Vec<(String, String)> = (0..buffer.fields.len())
        .map(|i| (buffer.fields.key_at(i).clone(), buffer.fields.value_at(i).clone()))
        .collect();
    assert_eq!(before, after);
}

#[test]
fn switch_seeds_new_fields_in_declaration_order() {
    let mut buffer = EditBuffer::new();
    assert_eq!(buffer.fields.len(), 6);
    buffer.switch_category(&PartsCategory::from_string("CPU"));
    assert_eq!(buffer.fields.len(), 20);
    assert_eq!(buffer.fields.key_at(6), "Cores");
    assert_eq!(buffer.fields.value_at(6), "0");
    assert_eq!(buffer.fields.key_at(19), "Max Temperature");
}

#[test]
fn switch_away_and_back_keeps_base_edits_and_discards_the_rest() {
    let cpu = PartsCategory::from_string("CPU");
    let basic = PartsCategory::Basic;
    let mut buffer = EditBuffer::new();
    buffer.set_field("Name".to_string(), "Edited name".to_string());
    buffer.set_field("Model".to_string(), "M-1".to_string());

    buffer.switch_category(&cpu);
    assert_eq!(buffer.fields.get(&"Name".to_string()).unwrap(), "Edited name");
    buffer.set_field("Cores".to_string(), "8".to_string());

    buffer.switch_category(&basic);
    assert_eq!(buffer.fields.len(), 6);
    assert_eq!(buffer.fields.get(&"Name".to_string()).unwrap(), "Edited name");
    assert_eq!(buffer.fields.get(&"Model".to_string()).unwrap(), "M-1");
    assert!(buffer.fields.get(&"Cores".to_string()).is_none());

    buffer.switch_category(&cpu);
    assert_eq!(buffer.fields.get(&"Cores".to_string()).unwrap(), "0");
}

#[test]
fn ordering_store_merge_keeps_hidden_choices() {
    let basic = PartsCategory::Basic;
    let cpu = PartsCategory::from_string("CPU");
    let mut store = OrderingStore::initial(&basic);
    store.set_visibility("Model".to_string(), false);

    let shown = store.visible_and_ordered_fields(&basic);
    assert_eq!(
        shown,
        vec!["Name", "Image Url", "Manufactuer", "Release Date", "Rating"]
    );

    store.merge_category(&cpu);
    let shown_cpu = store.visible_and_ordered_fields(&cpu);
    assert!(shown_cpu.contains(&"Cores".to_string()));
    assert!(!shown_cpu.contains(&"Model".to_string()));

    store.merge_category(&basic);
    let shown_back = store.visible_and_ordered_fields(&basic);
    assert_eq!(
        shown_back,
        vec!["Name", "Image Url", "Manufactuer", "Release Date", "Rating"]
    );
    assert!(!shown_back.contains(&"Cores".to_string()));
}

#[test]
fn ordering_store_initial_state_and_replacement() {
    let basic = PartsCategory::Basic;
    let store = OrderingStore::initial(&basic);
    let shown = store.visible_and_ordered_fields(&basic);
    assert_eq!(
        shown,
        vec!["Name", "Image Url", "Model", "Manufactuer", "Release Date", "Rating"]
    );

    let mut reordered = OrderedMap::new();
    reordered.set("Model".to_string(), true);
    reordered.set("Name".to_string(), true);
    let mut store = store;
    store.set_order(reordered);
    assert_eq!(store.visible_and_ordered_fields(&basic), vec!["Model", "Name"]);
}

#[test]
fn unknown_category_string_falls_back_to_basic() {
    assert_eq!(PartsCategory::from_string("Nonexistent"), PartsCategory::Basic);
    let (category, recognized) = PartsCategory::parse_tag("Nonexistent");
    assert_eq!(category, PartsCategory::Basic);
    assert!(!recognized);
    let (category, recognized) = PartsCategory::parse_tag("CPU");
    assert_eq!(category, PartsCategory::CPU(CPUProperties::default()));
    assert!(recognized);
}

#[test]
fn registry_enumerates_the_closed_tag_set() {
    assert_eq!(PartsCategory::get_all_variats(), vec!["Basic", "CPU"]);
    assert_eq!(PartsCategory::Basic.tag_string(), "Basic");
    assert_eq!(
        PartsCategory::CPU(CPUProperties::default()).tag_string(),
        "CPU"
    );
}

#[test]
fn format_property_remaps_boolean_tokens_only() {
    assert_eq!(format_property("true".to_string()), "Yes");
    assert_eq!(format_property("false".to_string()), "No");
    assert_eq!(format_property("23 MB".to_string()), "23 MB");
}

#[test]
fn stringen_float_accepts_decimal_text_only() {
    assert!(StringenFloat::from_text("2.5".to_string()).is_some());
    assert!(StringenFloat::from_text("0".to_string()).is_some());
    assert!(StringenFloat::from_text("-1e9".to_string()).is_some());
    assert!(StringenFloat::from_text("+.5".to_string()).is_some());
    assert!(StringenFloat::from_text("1.".to_string()).is_some());
    assert!(StringenFloat::from_text("".to_string()).is_none());
    assert!(StringenFloat::from_text("abc".to_string()).is_none());
    assert!(StringenFloat::from_text("1.2.3".to_string()).is_none());
    assert!(StringenFloat::from_text("e5".to_string()).is_none());
    assert!(StringenFloat::from_text(".".to_string()).is_none());
    assert_eq!(StringenFloat::default().0, "0");
}

#[test]
fn text_parsers_accept_exactly_their_tokens() {
    assert_eq!(parse_uint("0"), Some(0));
    assert_eq!(parse_uint("0042"), Some(42));
    assert_eq!(parse_uint("4294967295"), Some(4294967295));
    assert_eq!(parse_uint("4294967296"), None);
    assert_eq!(parse_uint(""), None);
    assert_eq!(parse_uint("+1"), None);
    assert_eq!(parse_uint("1x"), None);
    assert_eq!(parse_bool("true"), Some(true));
    assert_eq!(parse_bool("false"), Some(false));
    assert_eq!(parse_bool("True"), None);
    assert_eq!(parse_bool("maybe"), None);
}

#[test]
fn default_part_record_is_zero_valued() {
    let part = DBPartProps::default();
    assert_eq!(part.name, "");
    assert_eq!(part.image_url, "");
    assert_eq!(part.model, "");
    assert_eq!(part.manufactuer, "");
    assert_eq!(part.release_date, "");
    assert_eq!(part.rating.0, "0");
    assert_eq!(part.category, PartsCategory::Basic);
}
