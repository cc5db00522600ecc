use dcr::dicom::DicomTag;
use dcr::rules::{required, type1_rule_set};
use dcr::validation::{
    classify_sop_class, get_sop_class, is_tag_present, read_class_uid, result_of_missing,
    validate_fields, validate_type1_fields, value_present, FieldTable, ModalityTable, RuleSet,
    SopClass, ValidationResult,
};

fn field(tag: &str, vr: &str, value: &str) -> DicomTag {
    DicomTag {
        tag: tag.to_string(),
        name: String::new(),
        vr: vr.to_string(),
        value: value.to_string(),
        baseline_value: None,
        depth: 0,
        is_expandable: false,
        is_expanded: false,
        children: Vec::new(),
        diff_status: None,
    }
}

fn small_rules() -> RuleSet {
    RuleSet {
        class_field: "(0008,0016)".to_string(),
        common: Vec::new(),
        modality: vec![ModalityTable {
            class_uid: "1.2.3".to_string(),
            table: FieldTable {
                name: "Example".to_string(),
                fields: vec![
                    required("(0001,0001)", "Field1"),
                    required("(0001,0002)", "Field2"),
                    required("(0001,0003)", "Field3"),
                ],
            },
        }],
    }
}

fn small_record() -> Vec<DicomTag> {
    vec![
        field("(0008,0016)", "UI", "1.2.3"),
        field("(0001,0001)", "LO", "a"),
        field("(0001,0002)", "LO", "b"),
        field("(0001,0003)", "LO", "c"),
    ]
}

fn missing_of(result: ValidationResult) -> Vec<String> {
    match result {
        ValidationResult::Invalid(missing) => missing,
        other => panic!("expected an invalid report, got {:?}", other),
    }
}

#[test]
fn scenario_three_fields() {
    let rules = small_rules();
    let record = small_record();
    assert!(matches!(validate_fields(&record, &rules), ValidationResult::Valid));

    let mut without_second = small_record();
    without_second.remove(2);
    assert_eq!(missing_of(validate_fields(&without_second, &rules)), vec!["Field2"]);

    let mut without_class = small_record();
    without_class.remove(2);
    without_class.remove(0);
    assert!(matches!(validate_fields(&without_class, &rules), ValidationResult::NotApplicable));
}

#[test]
fn missing_fields_come_in_table_order() {
    let mut rules = small_rules();
    rules.common = vec![
        FieldTable { name: "First".to_string(), fields: vec![required("(0009,0001)", "Zeta"), required("(0009,0002)", "Alpha")] },
        FieldTable { name: "Empty".to_string(), fields: Vec::new() },
        FieldTable { name: "Second".to_string(), fields: vec![required("(0001,0003)", "Again"), required("(0002,0001)", "Mid")] },
    ];
    let record = vec![field("(0001,0002)", "LO", "b"), field("(0008,0016)", "UI", "1.2.3")];
    assert_eq!(
        missing_of(validate_fields(&record, &rules)),
        vec!["Zeta", "Alpha", "Again", "Mid", "Field1", "Field3"]
    );
}

#[test]
fn unrecognised_or_absent_class_is_not_applicable() {
    let rules = small_rules();
    let mut record = small_record();
    record[0].value = "1.2.4".to_string();
    assert!(matches!(validate_fields(&record, &rules), ValidationResult::NotApplicable));
    record[0].value = String::new();
    assert!(matches!(validate_fields(&record, &rules), ValidationResult::NotApplicable));
    // a class field that is a sequence names no class
    record[0].value = "1.2.3".to_string();
    record[0].vr = "SQ".to_string();
    assert!(matches!(validate_fields(&record, &rules), ValidationResult::NotApplicable));
    // a class field below the roots is not the record's
    let mut holder = field("(0040,0275)", "SQ", "<Sequence with 1 item(s)>");
    holder.children = vec![field("(0008,0016)", "UI", "1.2.3")];
    holder.is_expandable = true;
    assert!(matches!(validate_fields(&vec![holder], &rules), ValidationResult::NotApplicable));
    let no_tables = RuleSet { class_field: "(0008,0016)".to_string(), common: Vec::new(), modality: Vec::new() };
    assert!(matches!(validate_fields(&small_record(), &no_tables), ValidationResult::NotApplicable));
}

#[test]
fn the_class_identifier_is_trimmed() {
    let rules = small_rules();
    let mut record = small_record();
    record[0].value = "  1.2.3 \n".to_string();
    assert!(matches!(validate_fields(&record, &rules), ValidationResult::Valid));
    assert_eq!(read_class_uid(&record, &"(0008,0016)".to_string()), Some("1.2.3".to_string()));
    assert_eq!(read_class_uid(&record, &"(0008,0017)".to_string()), None);
}

#[test]
fn the_first_table_of_a_class_is_the_one_applied() {
    let mut rules = small_rules();
    rules.modality.push(ModalityTable {
        class_uid: "1.2.3".to_string(),
        table: FieldTable { name: "Later".to_string(), fields: vec![required("(0005,0001)", "Never")] },
    });
    rules.modality.push(ModalityTable {
        class_uid: "9.9".to_string(),
        table: FieldTable { name: "Other".to_string(), fields: vec![required("(0005,0002)", "Nine")] },
    });
    assert!(matches!(validate_fields(&small_record(), &rules), ValidationResult::Valid));
    let mut record = small_record();
    record[0].value = "9.9".to_string();
    assert_eq!(missing_of(validate_fields(&record, &rules)), vec!["Nine"]);
}

#[test]
fn blank_text_counts_as_missing_and_other_values_as_present() {
    let id = "(0001,0001)".to_string();
    assert!(is_tag_present(&vec![field("(0001,0001)", "LO", "x")], &id));
    assert!(is_tag_present(&vec![field("(0001,0001)", "LO", "  x  ")], &id));
    assert!(!is_tag_present(&vec![field("(0001,0001)", "LO", "")], &id));
    assert!(!is_tag_present(&vec![field("(0001,0001)", "LO", " \t\r\n ")], &id));
    assert!(!is_tag_present(&vec![field("(0001,0001)", "US", "")], &id));
    assert!(is_tag_present(&vec![field("(0001,0001)", "SQ", "")], &id));
    assert!(is_tag_present(&vec![field("(0001,0001)", "SQ", "<Sequence with 0 item(s)>")], &id));
    assert!(is_tag_present(&vec![field("(0001,0001)", "OB", "<Pixel Data Sequence>")], &id));
    assert!(!is_tag_present(&vec![field("(0001,0002)", "LO", "x")], &id));
    assert!(!is_tag_present(&Vec::new(), &id));
    // of two roots with one identifier the first decides
    assert!(!is_tag_present(&vec![field("(0001,0001)", "LO", ""), field("(0001,0001)", "LO", "x")], &id));
    assert!(is_tag_present(&vec![field("(0001,0001)", "LO", "x"), field("(0001,0001)", "LO", "")], &id));
    assert!(value_present(true, "x"));
    assert!(!value_present(true, ""));
    assert!(value_present(false, ""));
}

fn ct_fields() -> Vec<(&'static str, &'static str)> {
    vec![
        ("(0008,0016)", "1.2.840.10008.5.1.4.1.1.2"),
        ("(0008,0018)", "1.2.3"),
        ("(0020,000D)", "1.2.4"),
        ("(0008,0060)", "CT"),
        ("(0020,000E)", "1.2.5"),
        ("(0020,0052)", "1.2.6"),
        ("(0020,0032)", "0\\0\\0"),
        ("(0020,0037)", "1\\0\\0\\0\\1\\0"),
        ("(0028,0030)", "1\\1"),
        ("(0028,0002)", "1"),
        ("(0028,0004)", "MONOCHROME2"),
        ("(0028,0010)", "2"),
        ("(0028,0011)", "2"),
        ("(0028,0100)", "16"),
        ("(0028,0101)", "16"),
        ("(0028,0102)", "15"),
        ("(0028,0103)", "0"),
        ("(7FE0,0010)", "0\\0\\0\\0"),
        ("(0008,0008)", "ORIGINAL\\PRIMARY"),
        ("(0028,1052)", "-1024"),
        ("(0028,1053)", "1"),
    ]
}

fn record_of(fields: &[(&str, &str)]) -> Vec<DicomTag> {
    fields.iter().map(|(tag, value)| field(tag, "LO", value)).collect()
}

#[test]
fn a_complete_ct_record_is_valid() {
    assert!(matches!(validate_type1_fields(&record_of(&ct_fields())), ValidationResult::Valid));
}

#[test]
fn each_ct_field_is_required_under_its_name() {
    let names = [
        "SOPInstanceUID", "StudyInstanceUID", "Modality", "SeriesInstanceUID", "FrameOfReferenceUID",
        "ImagePositionPatient", "ImageOrientationPatient", "PixelSpacing", "SamplesPerPixel",
        "PhotometricInterpretation", "Rows", "Columns", "BitsAllocated", "BitsStored", "HighBit",
        "PixelRepresentation", "PixelData", "ImageType", "RescaleIntercept", "RescaleSlope",
    ];
    let fields = ct_fields();
    for (i, name) in names.iter().enumerate() {
        let mut partial = fields.clone();
        partial.remove(i + 1);
        assert_eq!(missing_of(validate_type1_fields(&record_of(&partial))), vec![*name]);
    }
    // with the class identifier alone, every other field is reported, in table order
    let only_class = record_of(&fields[..1]);
    assert_eq!(missing_of(validate_type1_fields(&only_class)), names);
}

#[test]
fn mr_records_have_their_own_table() {
    let mut fields = ct_fields();
    fields[0].1 = "1.2.840.10008.5.1.4.1.1.4";
    assert_eq!(
        missing_of(validate_type1_fields(&record_of(&fields))),
        vec!["ScanningSequence", "SequenceVariant", "MRAcquisitionType"]
    );
    fields.push(("(0018,0020)", "SE"));
    fields.push(("(0018,0021)", "NONE"));
    fields.push(("(0018,0023)", "2D"));
    assert!(matches!(validate_type1_fields(&record_of(&fields)), ValidationResult::Valid));
    fields[0].1 = "1.2.840.10008.5.1.4.1.1.7";
    assert!(matches!(validate_type1_fields(&record_of(&fields)), ValidationResult::NotApplicable));
    assert!(matches!(validate_type1_fields(&record_of(&fields[1..])), ValidationResult::NotApplicable));
}

#[test]
fn the_standard_rules_hold_six_common_tables_and_two_classes() {
    let rules = type1_rule_set();
    assert_eq!(rules.class_field, "(0008,0016)");
    let sizes: Vec<usize> = rules.common.iter().map(|t| t.fields.len()).collect();
    assert_eq!(sizes, vec![2, 1, 2, 1, 3, 9]);
    assert_eq!(rules.modality.len(), 2);
    assert_eq!(rules.modality[0].class_uid, "1.2.840.10008.5.1.4.1.1.2");
    assert_eq!(rules.modality[0].table.fields.len(), 3);
    assert_eq!(rules.modality[1].class_uid, "1.2.840.10008.5.1.4.1.1.4");
    assert_eq!(rules.modality[1].table.fields.len(), 4);
    assert_eq!(rules.common[5].fields[8].tag, "(7FE0,0010)");
    assert_eq!(rules.common[5].fields[8].name, "PixelData");
    assert_eq!(rules.common[0].name, "SOP Common");
}

#[test]
fn sop_classes_are_read_from_the_class_identifier() {
    let class = |value: &str| get_sop_class(&vec![field("(0010,0010)", "PN", "x"), field("(0008,0016)", "UI", value)]);
    assert!(matches!(class("1.2.840.10008.5.1.4.1.1.2"), SopClass::Ct));
    assert!(matches!(class(" 1.2.840.10008.5.1.4.1.1.2 "), SopClass::Ct));
    assert!(matches!(class("1.2.840.10008.5.1.4.1.1.4"), SopClass::Mr));
    match class("1.2.840.10008.5.1.4.1.1.7 ") {
        SopClass::Other(uid) => assert_eq!(uid, "1.2.840.10008.5.1.4.1.1.7"),
        other => panic!("expected another class, got {:?}", other),
    }
    match class("") {
        SopClass::Other(uid) => assert_eq!(uid, ""),
        other => panic!("expected another class, got {:?}", other),
    }
    assert!(matches!(get_sop_class(&Vec::new()), SopClass::Unknown));
    assert!(matches!(get_sop_class(&vec![field("(0008,0016)", "SQ", "x")]), SopClass::Unknown));
    assert!(matches!(classify_sop_class(None), SopClass::Unknown));
    assert!(matches!(classify_sop_class(Some("1.2.840.10008.5.1.4.1.1.4".to_string())), SopClass::Mr));
}

#[test]
fn a_report_is_valid_exactly_without_missing_names() {
    assert!(matches!(result_of_missing(Vec::new()), ValidationResult::Valid));
    assert_eq!(missing_of(result_of_missing(vec!["Rows".to_string()])), vec!["Rows"]);
}
