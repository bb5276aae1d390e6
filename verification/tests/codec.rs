use dcm_finder::dir_scan::create_new_path;
use dcm_finder::work_db::DcmIndex;
use dcm_finder::work_dcm::{
    depersonalize_obj, get_value_for_tag, replace_element_in_dcm_obj, rewrite_table, MetaDcm,
};
use dicom::object::mem::InMemElement;
use dicom::object::{DefaultDicomObject, FileMetaTableBuilder, InMemDicomObject, Tag};

type Vr = dicom::core::VR;

fn text(group: u16, element: u16, vr: Vr, value: &str) -> InMemElement {
    dicom::core::DataElement::new(Tag(group, element), vr, dicom::core::PrimitiveValue::from(value))
}

fn file_object(elements: Vec<InMemElement>) -> DefaultDicomObject {
    let meta = FileMetaTableBuilder::new()
        .transfer_syntax("1.2.840.10008.1.2.1")
        .media_storage_sop_class_uid("1.2.840.10008.5.1.4.1.1.2")
        .media_storage_sop_instance_uid("2.25.1")
        .build()
        .unwrap();
    InMemDicomObject::from_element_iter(elements).with_exact_meta(meta)
}

fn scan(patient: &str, study: &str, series: &str) -> DefaultDicomObject {
    file_object(vec![
        text(0x0010, 0x0020, Vr::LO, patient),
        text(0x0010, 0x0010, Vr::PN, "Doe^Jane"),
        text(0x0010, 0x0030, Vr::DA, "19700101"),
        text(0x0010, 0x0040, Vr::CS, "F"),
        text(0x0020, 0x000D, Vr::UI, study),
        text(0x0020, 0x000E, Vr::UI, series),
        text(0x0008, 0x0060, Vr::CS, "CT"),
        text(0x0008, 0x0080, Vr::LO, "General Hospital"),
        text(0x0028, 0x0010, Vr::US, "512"),
    ])
}

fn read(obj: &DefaultDicomObject, group: u16, element: u16) -> Option<String> {
    obj.get(Tag(group, element)).map(|e| e.to_str().unwrap().into_owned())
}

#[test]
fn present_attribute_reads_as_its_text() {
    let obj = scan("P1", "S1", "SE1");
    assert_eq!(get_value_for_tag(&obj, 0x0010, 0x0020), "P1");
    assert_eq!(get_value_for_tag(&obj, 0x0008, 0x0060), "CT");
}

#[test]
fn missing_attribute_reads_as_unknown() {
    let obj = scan("P1", "S1", "SE1");
    assert_eq!(get_value_for_tag(&obj, 0x0010, 0x1010), "Unknown");
}

#[test]
fn attribute_without_text_reads_as_unknown() {
    let items: Vec<InMemDicomObject> = vec![InMemDicomObject::new_empty()];
    let value = dicom::core::value::Value::from(dicom::core::value::DataSetSequence::from(items));
    let sequence: InMemElement = dicom::core::DataElement::new(Tag(0x0008, 0x1115), Vr::SQ, value);
    let obj = file_object(vec![sequence]);
    assert_eq!(get_value_for_tag(&obj, 0x0008, 0x1115), "Unknown");
}

#[test]
fn padding_at_the_end_of_a_text_is_not_read() {
    let obj = file_object(vec![text(0x0010, 0x0020, Vr::LO, "P1 \0")]);
    assert_eq!(get_value_for_tag(&obj, 0x0010, 0x0020), "P1");
}

#[test]
fn record_holds_every_attribute_or_unknown() {
    let obj = scan("P1", "S1", "SE1");
    let record = MetaDcm::from(&obj, "/in/1.dcm");
    assert_eq!(record.get_patient_ref().patient_id, "P1");
    assert_eq!(record.get_patient_ref().birth_date, "19700101");
    assert_eq!(record.get_patient_ref().sex, "F");
    assert_eq!(record.get_patient_ref().age, "Unknown");
    assert_eq!(record.get_study_ref().study_uid, "S1");
    assert_eq!(record.get_study_ref().study_date, "Unknown");
    assert_eq!(record.get_study_ref().study_time, "Unknown");
    assert_eq!(record.get_study_ref().description, "Unknown");
    assert_eq!(record.get_series_ref().series_uid, "SE1");
    assert_eq!(record.get_series_ref().modality, "CT");
    assert_eq!(record.get_series_ref().rows, "512");
    assert_eq!(record.get_series_ref().columns, "Unknown");
    assert_eq!(record.get_series_ref().description, "Unknown");
    assert_eq!(record.get_path_ref(), "/in/1.dcm");
}

#[test]
fn record_of_an_empty_object_is_all_unknown() {
    let obj = file_object(vec![]);
    let record = MetaDcm::from(&obj, "");
    assert_eq!(record.get_patient_ref().patient_id, "Unknown");
    assert_eq!(record.get_study_ref().study_uid, "Unknown");
    assert_eq!(record.get_series_ref().series_uid, "Unknown");
    assert_eq!(record.get_series_ref().kvp, "Unknown");
    assert_eq!(record.get_path_ref(), "");
}

#[test]
fn series_description_is_read_from_its_tag() {
    let obj = file_object(vec![
        text(0x0010, 0x0020, Vr::LO, "P1"),
        text(0x0020, 0x000D, Vr::UI, "S1"),
        text(0x0020, 0x000E, Vr::UI, "SE1"),
        text(0x0008, 0x1030, Vr::LO, "STUDY DESC"),
        text(0x0008, 0x103E, Vr::LO, "CHEST PA"),
    ]);
    let record = MetaDcm::from(&obj, "/in/a.dcm");
    assert_eq!(record.get_series_ref().description, "CHEST PA");
    assert_eq!(record.get_study_ref().description, "STUDY DESC");
}

#[test]
fn replace_rewrites_a_present_attribute_and_keeps_its_representation() {
    let mut obj = scan("P1", "S1", "SE1");
    replace_element_in_dcm_obj(&mut obj, 0x0010, 0x0010, "Unknown Name");
    let element = obj.get(Tag(0x0010, 0x0010)).unwrap();
    assert_eq!(element.to_str().unwrap(), "Unknown Name");
    assert_eq!(element.vr(), Vr::PN);
}

#[test]
fn replace_inserts_nothing_into_an_object_without_the_attribute() {
    let mut obj = scan("P1", "S1", "SE1");
    let before = obj.clone();
    replace_element_in_dcm_obj(&mut obj, 0x0038, 0x0010, "Unknown ID");
    assert!(obj.get(Tag(0x0038, 0x0010)).is_none());
    assert_eq!(obj, before);
}

#[test]
fn rewrite_table_has_its_twelve_entries() {
    let table = rewrite_table();
    let entries: Vec<(u16, u16, &str)> =
        table.iter().map(|e| (e.group, e.element, e.text)).collect();
    assert_eq!(
        entries,
        vec![
            (0x0010, 0x0010, "Unknown Name"),
            (0x0010, 0x0030, "19000101"),
            (0x0010, 0x0032, "084545"),
            (0x0010, 0x0034, "19000101"),
            (0x0010, 0x4000, "Unknown Comments"),
            (0x0040, 0x1102, "Unknown Address"),
            (0x0040, 0x1103, "Unknown Phone"),
            (0x0008, 0x0081, "Unknown Address"),
            (0x0008, 0x0080, "Unknown Attribute"),
            (0x0038, 0x0010, "Unknown ID"),
            (0x0018, 0x1000, "Unknown Serial Number"),
            (0x0050, 0x0020, "Unknown Description"),
        ]
    );
}

#[test]
fn rewrite_changes_the_named_attributes_that_are_present_and_nothing_else() {
    let mut obj = scan("P1", "S1", "SE1");
    let before = obj.clone();
    depersonalize_obj(&mut obj);
    // Named by the policy and present: rewritten, representation kept.
    assert_eq!(read(&obj, 0x0010, 0x0010).unwrap(), "Unknown Name");
    assert_eq!(obj.get(Tag(0x0010, 0x0010)).unwrap().vr(), Vr::PN);
    assert_eq!(read(&obj, 0x0010, 0x0030).unwrap(), "19000101");
    assert_eq!(obj.get(Tag(0x0010, 0x0030)).unwrap().vr(), Vr::DA);
    assert_eq!(read(&obj, 0x0008, 0x0080).unwrap(), "Unknown Attribute");
    // Named by the policy and absent: still absent.
    for (group, element) in [
        (0x0010, 0x0032),
        (0x0010, 0x0034),
        (0x0010, 0x4000),
        (0x0040, 0x1102),
        (0x0040, 0x1103),
        (0x0008, 0x0081),
        (0x0038, 0x0010),
        (0x0018, 0x1000),
        (0x0050, 0x0020),
    ] {
        assert!(obj.get(Tag(group, element)).is_none());
    }
    // Every other attribute: as it was.
    let rewritten = [Tag(0x0010, 0x0010), Tag(0x0010, 0x0030), Tag(0x0008, 0x0080)];
    let tags_after: Vec<Tag> = obj.tags().collect();
    let tags_before: Vec<Tag> = before.tags().collect();
    assert_eq!(tags_after, tags_before);
    for tag in tags_before {
        if !rewritten.contains(&tag) {
            assert_eq!(obj.get(tag), before.get(tag));
        }
    }
    assert_eq!(obj.meta(), before.meta());
}

#[test]
fn rewrite_of_every_named_attribute() {
    let mut obj = file_object(
        rewrite_table().iter().map(|e| text(e.group, e.element, Vr::LO, "secret")).collect(),
    );
    depersonalize_obj(&mut obj);
    for entry in rewrite_table() {
        assert_eq!(read(&obj, entry.group, entry.element).unwrap(), entry.text);
        assert_eq!(obj.get(Tag(entry.group, entry.element)).unwrap().vr(), Vr::LO);
    }
    assert_eq!(obj.tags().count(), 12);
}

#[test]
fn address_and_telephone_are_rewritten_each_to_its_own_text() {
    let mut obj = file_object(vec![
        text(0x0040, 0x1102, Vr::ST, "1 Main St"),
        text(0x0040, 0x1103, Vr::LO, "555-1234"),
    ]);
    depersonalize_obj(&mut obj);
    assert_eq!(read(&obj, 0x0040, 0x1102).unwrap(), "Unknown Address");
    assert_eq!(read(&obj, 0x0040, 0x1103).unwrap(), "Unknown Phone");
    assert_eq!(obj.get(Tag(0x0040, 0x1102)).unwrap().vr(), Vr::ST);
    assert_eq!(obj.get(Tag(0x0040, 0x1103)).unwrap().vr(), Vr::LO);
}

#[test]
fn rewrite_leaves_pixel_data_sequences_and_file_meta_as_they_are() {
    let items: Vec<InMemDicomObject> =
        vec![InMemDicomObject::from_element_iter(vec![text(0x0008, 0x1150, Vr::UI, "1.2.3")])];
    let value = dicom::core::value::Value::from(dicom::core::value::DataSetSequence::from(items));
    let sequence: InMemElement = dicom::core::DataElement::new(Tag(0x0008, 0x1115), Vr::SQ, value);
    let pixels: InMemElement = dicom::core::DataElement::new(
        Tag(0x7FE0, 0x0010),
        Vr::OB,
        dicom::core::PrimitiveValue::from(vec![0u8, 1, 2, 3, 254, 255]),
    );
    let mut obj = file_object(vec![
        text(0x0010, 0x0010, Vr::PN, "Doe^Jane"),
        text(0x0010, 0x0020, Vr::LO, "P1 "),
        text(0x0028, 0x0010, Vr::US, "512"),
        sequence,
        pixels,
    ]);
    let before = obj.clone();
    depersonalize_obj(&mut obj);
    assert_eq!(read(&obj, 0x0010, 0x0010).unwrap(), "Unknown Name");
    // An undefined length never equals another, so whole elements are compared by what
    // they print as.
    for tag in [Tag(0x0010, 0x0020), Tag(0x0028, 0x0010), Tag(0x0008, 0x1115), Tag(0x7FE0, 0x0010)]
    {
        assert_eq!(format!("{:?}", obj.get(tag)), format!("{:?}", before.get(tag)));
    }
    assert_eq!(obj.get(Tag(0x0010, 0x0020)), before.get(Tag(0x0010, 0x0020)));
    assert_eq!(obj.get(Tag(0x7FE0, 0x0010)), before.get(Tag(0x7FE0, 0x0010)));
    assert_eq!(obj.get(Tag(0x7FE0, 0x0010)).unwrap().to_bytes().unwrap().as_ref(), &[
        0u8, 1, 2, 3, 254, 255
    ]);
    assert_eq!(obj.tags().collect::<Vec<Tag>>(), before.tags().collect::<Vec<Tag>>());
    assert_eq!(obj.meta(), before.meta());
}

#[test]
fn rewrite_twice_is_rewrite_once() {
    let mut once = scan("P1", "S1", "SE1");
    depersonalize_obj(&mut once);
    let mut twice = once.clone();
    depersonalize_obj(&mut twice);
    assert_eq!(once, twice);
}

#[test]
fn three_files_are_indexed_and_copied_under_their_series() {
    let sources = [
        (scan("P1", "S1", "SE1"), "/in/1.dcm"),
        (scan("P1", "S1", "SE2"), "/in/2.dcm"),
        (scan("P2", "S2", "SE3"), "/in/3.dcm"),
    ];
    let mut index = DcmIndex::create_dcm_tables();
    let mut copies: Vec<String> = Vec::new();
    for (obj, path) in sources.iter() {
        let record = MetaDcm::from(obj, path);
        index.insert_dcm(&record);
        copies.push(create_new_path(&record, "out_root", true, 0));
        let mut copy = obj.clone();
        depersonalize_obj(&mut copy);
        assert_eq!(read(&copy, 0x0010, 0x0010).unwrap(), "Unknown Name");
        assert_eq!(read(&copy, 0x0010, 0x0030).unwrap(), "19000101");
        assert_eq!(read(&copy, 0x0008, 0x0080).unwrap(), "Unknown Attribute");
        assert_eq!(read(&copy, 0x0010, 0x0020), read(obj, 0x0010, 0x0020));
        assert_eq!(read(&copy, 0x0020, 0x000E), read(obj, 0x0020, 0x000E));
        assert_eq!(copy.tags().count(), obj.tags().count());
    }
    assert_eq!(
        copies,
        vec!["out_root/P1/S1/SE1/0", "out_root/P1/S1/SE2/0", "out_root/P2/S2/SE3/0"]
    );
    let report = index.export_result();
    assert_eq!(report.len(), 2);
    assert_eq!(report[0].patient_id, "P1");
    assert_eq!(report[0].count(), (1, 2, 2));
    assert_eq!(report[1].patient_id, "P2");
    assert_eq!(report[1].count(), (1, 1, 1));
}
