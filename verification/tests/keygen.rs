use hudi_core::config::HudiConfigs;
use hudi_core::config::HudiTableConfig::{
    KeyGeneratorClass, KeyGeneratorType as KeyGenTypeCfg, PartitionFields,
};
use hudi_core::error::CoreError;
use hudi_core::expr::Filter;
use hudi_core::keygen::{
    is_timestamp_based_keygen, parse_partition_field_spec, partition_column_names,
    KeyGeneratorFilterTransformer, KeyGeneratorType,
};

#[test]
fn test_key_generator_type_from_type_str() {
    assert_eq!(
        KeyGeneratorType::from_type_str("simple"),
        Some(KeyGeneratorType::Simple)
    );
    assert_eq!(
        KeyGeneratorType::from_type_str("COMPLEX"),
        Some(KeyGeneratorType::Complex)
    );
    assert_eq!(
        KeyGeneratorType::from_type_str("timestamp_avro"),
        Some(KeyGeneratorType::Timestamp)
    );
    assert_eq!(
        KeyGeneratorType::from_type_str("CUSTOM"),
        Some(KeyGeneratorType::Custom)
    );
    assert_eq!(
        KeyGeneratorType::from_type_str("non_partition"),
        Some(KeyGeneratorType::NonPartition)
    );
    assert_eq!(
        KeyGeneratorType::from_type_str("GLOBAL_DELETE"),
        Some(KeyGeneratorType::GlobalDelete)
    );
    assert_eq!(KeyGeneratorType::from_type_str("unknown"), None);
}

#[test]
fn test_key_generator_type_from_class_name() {
    let cases = [
        (
            "org.apache.hudi.keygen.SimpleKeyGenerator",
            KeyGeneratorType::Simple,
        ),
        (
            "org.apache.hudi.keygen.ComplexKeyGenerator",
            KeyGeneratorType::Complex,
        ),
        (
            "org.apache.hudi.keygen.TimestampBasedKeyGenerator",
            KeyGeneratorType::Timestamp,
        ),
        (
            "org.apache.hudi.keygen.CustomKeyGenerator",
            KeyGeneratorType::Custom,
        ),
        (
            "org.apache.hudi.keygen.NonpartitionedKeyGenerator",
            KeyGeneratorType::NonPartition,
        ),
        (
            "org.apache.hudi.keygen.GlobalDeleteKeyGenerator",
            KeyGeneratorType::GlobalDelete,
        ),
        // Avro variants map to the same logical kinds.
        (
            "org.apache.hudi.keygen.NonpartitionedAvroKeyGenerator",
            KeyGeneratorType::NonPartition,
        ),
    ];
    for (class_name, expected) in cases {
        assert_eq!(
            KeyGeneratorType::from_class_name(class_name),
            Some(expected)
        );
    }
    assert_eq!(
        KeyGeneratorType::from_class_name("com.example.MyKeyGen"),
        None
    );
}

#[test]
fn test_resolve_prefers_type_then_class() {
    // Explicit type wins.
    let configs = HudiConfigs::new(vec![
        (KeyGenTypeCfg, "COMPLEX".to_string()),
        (
            KeyGeneratorClass,
            "org.apache.hudi.keygen.SimpleKeyGenerator".to_string(),
        ),
    ]);
    assert_eq!(
        KeyGeneratorType::resolve(&configs).unwrap(),
        Some(KeyGeneratorType::Complex)
    );

    // Falls back to class name when type is absent.
    let configs = HudiConfigs::new(vec![(
        KeyGeneratorClass,
        "org.apache.hudi.keygen.TimestampBasedKeyGenerator".to_string(),
    )]);
    assert_eq!(
        KeyGeneratorType::resolve(&configs).unwrap(),
        Some(KeyGeneratorType::Timestamp)
    );

    // Neither configured.
    assert_eq!(
        KeyGeneratorType::resolve(&HudiConfigs::empty()).unwrap(),
        None
    );
}

#[test]
fn test_is_timestamp_based_keygen_only_for_pure_timestamp() {
    let ts = HudiConfigs::new(vec![(KeyGenTypeCfg, "TIMESTAMP".to_string())]);
    assert!(is_timestamp_based_keygen(&ts).unwrap());

    // A custom generator with a timestamp partition field is NOT a pure timestamp keygen.
    let custom = HudiConfigs::new(vec![(KeyGenTypeCfg, "CUSTOM".to_string())]);
    assert!(!is_timestamp_based_keygen(&custom).unwrap());
}

#[test]
fn test_parse_partition_field_spec() {
    assert_eq!(
        parse_partition_field_spec("ts:TIMESTAMP"),
        ("ts", Some(KeyGeneratorType::Timestamp))
    );
    assert_eq!(
        parse_partition_field_spec("city:SIMPLE"),
        ("city", Some(KeyGeneratorType::Simple))
    );
    // Bare column name (non-custom generators).
    assert_eq!(parse_partition_field_spec("city"), ("city", None));
    // Unknown type after the colon yields None for the type but still strips the suffix.
    assert_eq!(parse_partition_field_spec("city:WAT"), ("city", None));
}

#[test]
fn test_partition_column_names_strips_custom_specs() {
    let configs = HudiConfigs::new(vec![(
        PartitionFields,
        "ts:TIMESTAMP,city:SIMPLE".to_string(),
    )]);
    assert_eq!(
        partition_column_names(&configs),
        vec!["ts".to_string(), "city".to_string()]
    );

    // Bare names are returned unchanged.
    let configs = HudiConfigs::new(vec![(PartitionFields, "year,month".to_string())]);
    assert_eq!(
        partition_column_names(&configs),
        vec!["year".to_string(), "month".to_string()]
    );
}

#[test]
fn avro_variants_mean_the_same_kinds() {
    for name in [
        "SIMPLE",
        "COMPLEX",
        "TIMESTAMP",
        "CUSTOM",
        "NON_PARTITION",
        "GLOBAL_DELETE",
    ] {
        let kind = KeyGeneratorType::from_upper_name(name);
        assert!(kind.is_some());
        assert_eq!(
            KeyGeneratorType::from_upper_name(&format!("{name}_AVRO")),
            kind
        );
    }
    assert_eq!(KeyGeneratorType::from_upper_name("simple"), None);
}

#[test]
fn outer_space_and_case_make_no_difference() {
    for text in ["Simple", " simple", "simple\t", "\u{3000}SIMPLE\n"] {
        assert_eq!(
            KeyGeneratorType::from_type_str(text),
            Some(KeyGeneratorType::Simple)
        );
    }
    assert_eq!(KeyGeneratorType::from_type_str("sim ple"), None);
}

#[test]
fn upper_case_beyond_ascii() {
    // The long s has the capital S.
    assert_eq!(
        KeyGeneratorType::from_type_str("\u{17f}imple"),
        Some(KeyGeneratorType::Simple)
    );
}

#[test]
fn ascii_case_makes_no_difference_beyond_ascii() {
    for (a, b) in [
        ("\u{17f}IMPLE", " \u{17f}imple "),
        ("Cu\u{17f}toM", "cu\u{17f}tOm\t"),
        ("Non_Partition\u{e9}", "non_partition\u{e9}"),
    ] {
        assert_eq!(
            KeyGeneratorType::from_type_str(a),
            KeyGeneratorType::from_type_str(b)
        );
    }
    assert_eq!(
        KeyGeneratorType::from_type_str("cu\u{17f}TOM"),
        Some(KeyGeneratorType::Custom)
    );
}

#[test]
fn the_most_specific_word_of_a_class_decides() {
    assert_eq!(
        KeyGeneratorType::from_class_name("SimpleNonpartitioned"),
        Some(KeyGeneratorType::NonPartition)
    );
    assert_eq!(
        KeyGeneratorType::from_class_name("CustomComplex"),
        Some(KeyGeneratorType::Complex)
    );
    assert_eq!(KeyGeneratorType::from_class_name("simple"), None);
}

#[test]
fn an_unknown_type_falls_back_to_the_class() {
    let configs = HudiConfigs::new(vec![
        (KeyGenTypeCfg, "WAT".to_string()),
        (KeyGeneratorClass, "SimpleKeyGenerator".to_string()),
    ]);
    assert_eq!(
        KeyGeneratorType::resolve(&configs).unwrap(),
        Some(KeyGeneratorType::Simple)
    );
    let configs = HudiConfigs::new(vec![
        (KeyGenTypeCfg, "WAT".to_string()),
        (KeyGeneratorClass, "com.example.MyKeyGen".to_string()),
    ]);
    assert_eq!(KeyGeneratorType::resolve(&configs).unwrap(), None);
    assert!(!is_timestamp_based_keygen(&configs).unwrap());
}

#[test]
fn specs_are_split_at_the_first_colon() {
    assert_eq!(
        parse_partition_field_spec(" a b : custom "),
        ("a b", Some(KeyGeneratorType::Custom))
    );
    assert_eq!(parse_partition_field_spec("a:b:SIMPLE"), ("a", None));
    assert_eq!(parse_partition_field_spec(""), ("", None));
}

#[test]
fn partition_columns_by_comma() {
    assert!(partition_column_names(&HudiConfigs::empty()).is_empty());
    let configs = HudiConfigs::new(vec![(PartitionFields, "a,, b:SIMPLE".to_string())]);
    assert_eq!(partition_column_names(&configs), vec!["a", "", "b"]);
}

struct DayOf;

impl KeyGeneratorFilterTransformer for DayOf {
    fn source_field(&self) -> &str {
        "ts"
    }

    fn transform_filter(&self, filter: &Filter) -> Result<Vec<Filter>, CoreError> {
        Ok(vec![Filter {
            field: "day".to_string(),
            operator: filter.operator.to_string(),
            value: filter.value.chars().take(10).collect(),
        }])
    }
}

#[test]
fn filters_can_be_transformed() {
    assert_eq!(DayOf.source_field(), "ts");
    let filter = Filter {
        field: "ts".to_string(),
        operator: "=".to_string(),
        value: "2024-01-02T03:04:05".to_string(),
    };
    let expected = Filter {
        field: "day".to_string(),
        operator: "=".to_string(),
        value: "2024-01-02".to_string(),
    };
    assert_eq!(DayOf.transform_filter(&filter).unwrap(), vec![expected]);
}
