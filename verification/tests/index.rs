use dcm_finder::index_model::Error;
use dcm_finder::work_db::DcmIndex;
use dcm_finder::work_dcm::{MetaDcm, MetaPatient, MetaSeries, MetaStudy};

fn patient(id: &str) -> MetaPatient {
    MetaPatient {
        patient_id: id.to_string(),
        birth_date: "19700101".to_string(),
        sex: "F".to_string(),
        age: "050Y".to_string(),
    }
}

fn study(uid: &str) -> MetaStudy {
    MetaStudy {
        study_uid: uid.to_string(),
        study_date: "20200101".to_string(),
        study_time: "120000".to_string(),
        description: "chest".to_string(),
    }
}

fn series(uid: &str) -> MetaSeries {
    MetaSeries {
        series_uid: uid.to_string(),
        modality: "CT".to_string(),
        instancenumber: "1".to_string(),
        imagepositionpatient: "Unknown".to_string(),
        imageorientationpatient: "Unknown".to_string(),
        pixelspacing: "Unknown".to_string(),
        numberofframes: "Unknown".to_string(),
        xraytubecurrent: "Unknown".to_string(),
        kvp: "Unknown".to_string(),
        filtertype: "Unknown".to_string(),
        rows: "512".to_string(),
        columns: "512".to_string(),
        exposuretime: "Unknown".to_string(),
        rescaleintercept: "Unknown".to_string(),
        description: "axial".to_string(),
    }
}

fn record<'a>(p: &str, st: &str, se: &str, path: &'a str) -> MetaDcm<'a> {
    MetaDcm::new(patient(p), study(st), series(se), path)
}

fn long_id() -> String {
    "x".repeat(65)
}

#[test]
fn new_index_has_an_empty_report() {
    let index = DcmIndex::create_dcm_tables();
    assert!(index.get_patients_as_struct().is_empty());
    assert!(index.export_result().is_empty());
}

#[test]
fn patient_is_inserted_once_and_first_write_wins() {
    let mut index = DcmIndex::create_dcm_tables();
    assert_eq!(index.get_or_add_patient(&patient("P1")), Ok("P1".to_string()));
    let mut later = patient("P1");
    later.sex = "M".to_string();
    assert_eq!(index.get_or_add_patient(&later), Ok("P1".to_string()));
    let report = index.get_patients_as_struct();
    assert_eq!(report.len(), 1);
    assert_eq!(report[0].patient_id, "P1");
    assert_eq!(report[0].sex, "F");
    assert_eq!(report[0].birth_date, "19700101");
    assert_eq!(report[0].age, "050Y");
}

#[test]
fn identifier_of_64_characters_is_taken_and_of_65_refused() {
    let mut index = DcmIndex::create_dcm_tables();
    let at_limit = "y".repeat(64);
    assert_eq!(index.get_or_add_patient(&patient(&at_limit)), Ok(at_limit.clone()));
    assert_eq!(index.get_or_add_patient(&patient(&long_id())), Err(Error::IdentifierTooLong));
    assert_eq!(index.get_patients_as_struct().len(), 1);
}

#[test]
fn identifier_length_counts_characters_not_bytes() {
    let mut index = DcmIndex::create_dcm_tables();
    let id = "é".repeat(64);
    assert_eq!(id.len(), 128);
    assert_eq!(index.get_or_add_patient(&patient(&id)), Ok(id.clone()));
}

#[test]
fn study_needs_its_patient() {
    let mut index = DcmIndex::create_dcm_tables();
    assert_eq!(
        index.get_or_add_study(&study("S1"), &"P1".to_string()),
        Err(Error::UnknownParent)
    );
    index.get_or_add_patient(&patient("P1")).unwrap();
    assert_eq!(index.get_or_add_study(&study("S1"), &"P1".to_string()), Ok("S1".to_string()));
    assert_eq!(
        index.get_or_add_study(&study(&long_id()), &"P1".to_string()),
        Err(Error::IdentifierTooLong)
    );
    assert_eq!(index.get_studies_as_struct(&"P1".to_string()).len(), 1);
}

#[test]
fn known_study_stays_with_its_first_patient() {
    let mut index = DcmIndex::create_dcm_tables();
    index.get_or_add_patient(&patient("P1")).unwrap();
    index.get_or_add_patient(&patient("P2")).unwrap();
    index.get_or_add_study(&study("S1"), &"P1".to_string()).unwrap();
    assert_eq!(index.get_or_add_study(&study("S1"), &"P2".to_string()), Ok("S1".to_string()));
    assert_eq!(index.get_or_add_study(&study("S1"), &"nobody".to_string()), Ok("S1".to_string()));
    assert_eq!(index.get_studies_as_struct(&"P1".to_string()).len(), 1);
    assert_eq!(index.get_studies_as_struct(&"P2".to_string()).len(), 0);
}

#[test]
fn series_needs_its_study() {
    let mut index = DcmIndex::create_dcm_tables();
    assert_eq!(
        index.get_or_add_series(&series("SE1"), &"S1".to_string()),
        Err(Error::UnknownParent)
    );
    index.get_or_add_patient(&patient("P1")).unwrap();
    index.get_or_add_study(&study("S1"), &"P1".to_string()).unwrap();
    assert_eq!(index.get_or_add_series(&series("SE1"), &"S1".to_string()), Ok("SE1".to_string()));
    assert_eq!(index.get_or_add_series(&series("SE1"), &"S1".to_string()), Ok("SE1".to_string()));
    assert_eq!(
        index.get_or_add_series(&series(&long_id()), &"S1".to_string()),
        Err(Error::IdentifierTooLong)
    );
    let found = index.get_series_as_struct(&"S1".to_string());
    assert_eq!(found.len(), 1);
    assert_eq!(found[0].series_uid, "SE1");
    assert_eq!(found[0].modality, "CT");
    assert_eq!(found[0].rows, "512");
    assert_eq!(found[0].description, "axial");
}

#[test]
fn path_under_a_series_needs_the_series() {
    let mut index = DcmIndex::create_dcm_tables();
    assert_eq!(
        index.insert_path_with_uid("/a.dcm", &"SE1".to_string()),
        Err(Error::UnknownParent)
    );
    index.get_or_add_patient(&patient("P1")).unwrap();
    index.get_or_add_study(&study("S1"), &"P1".to_string()).unwrap();
    index.get_or_add_series(&series("SE1"), &"S1".to_string()).unwrap();
    assert_eq!(index.insert_path_with_uid("/a.dcm", &"SE1".to_string()), Ok(()));
    assert_eq!(index.insert_path_with_uid("/a.dcm", &"SE1".to_string()), Ok(()));
    assert_eq!(index.insert_path_with_uid("/a.dcm", &"missing".to_string()), Ok(()));
    assert_eq!(index.insert_path_with_uid("/b.dcm", &"SE1".to_string()), Ok(()));
    assert_eq!(
        index.get_paths_as_vec(&"SE1".to_string()),
        vec!["/a.dcm".to_string(), "/b.dcm".to_string()]
    );
}

#[test]
fn path_under_no_series_is_in_no_series_of_the_report() {
    let mut index = DcmIndex::create_dcm_tables();
    index.get_or_add_patient(&patient("P1")).unwrap();
    index.get_or_add_study(&study("S1"), &"P1".to_string()).unwrap();
    index.get_or_add_series(&series("SE1"), &"S1".to_string()).unwrap();
    index.insert_path("/orphan.dcm");
    index.insert_path("/orphan.dcm");
    assert!(index.get_paths_as_vec(&"SE1".to_string()).is_empty());
    // The path is held: a later insert under a series is a no-op.
    assert_eq!(index.insert_path_with_uid("/orphan.dcm", &"SE1".to_string()), Ok(()));
    assert!(index.get_paths_as_vec(&"SE1".to_string()).is_empty());
}

#[test]
fn same_identifiers_twice_give_one_row_each_and_two_paths() {
    let mut index = DcmIndex::create_dcm_tables();
    index.insert_dcm(&record("P1", "S1", "SE1", "/data/a.dcm"));
    index.insert_dcm(&record("P1", "S1", "SE1", "/data/b.dcm"));
    let report = index.get_patients_as_struct();
    assert_eq!(report.len(), 1);
    assert_eq!(report[0].studies.len(), 1);
    assert_eq!(report[0].studies[0].series.len(), 1);
    assert_eq!(
        report[0].studies[0].series[0].paths,
        vec!["/data/a.dcm".to_string(), "/data/b.dcm".to_string()]
    );
    assert_eq!(report[0].count(), (1, 1, 2));
}

#[test]
fn same_record_again_changes_nothing() {
    let mut index = DcmIndex::create_dcm_tables();
    index.insert_dcm(&record("P1", "S1", "SE1", "/data/a.dcm"));
    index.insert_dcm(&record("P1", "S1", "SE1", "/data/a.dcm"));
    index.insert_dcm(&record("P1", "S1", "SE1", "/data/a.dcm"));
    let report = index.get_patients_as_struct();
    assert_eq!(report.len(), 1);
    assert_eq!(report[0].count(), (1, 1, 1));
}

#[test]
fn record_with_unusable_series_is_kept_as_orphan_path() {
    let mut index = DcmIndex::create_dcm_tables();
    let long = long_id();
    index.insert_dcm(&record("P1", "S1", &long, "/data/a.dcm"));
    let report = index.get_patients_as_struct();
    // Patient and study were inserted before the chain failed.
    assert_eq!(report.len(), 1);
    assert_eq!(report[0].count(), (1, 0, 0));
    // The path is held under no series: inserting it under a series later is a no-op.
    index.get_or_add_series(&series("SE1"), &"S1".to_string()).unwrap();
    assert_eq!(index.insert_path_with_uid("/data/a.dcm", &"SE1".to_string()), Ok(()));
    assert!(index.get_paths_as_vec(&"SE1".to_string()).is_empty());
    assert_eq!(index.insert_path_with_uid("/data/new.dcm", &"SE1".to_string()), Ok(()));
    assert_eq!(index.get_paths_as_vec(&"SE1".to_string()), vec!["/data/new.dcm".to_string()]);
}

#[test]
fn record_with_unusable_patient_inserts_only_its_path() {
    let mut index = DcmIndex::create_dcm_tables();
    let long = long_id();
    index.insert_dcm(&record(&long, "S1", "SE1", "/data/a.dcm"));
    assert!(index.get_patients_as_struct().is_empty());
    assert!(index.get_studies_as_struct(&long).is_empty());
    assert!(index.get_series_as_struct(&"S1".to_string()).is_empty());
    // The study was not inserted: a series under it is refused.
    assert_eq!(
        index.get_or_add_series(&series("SE1"), &"S1".to_string()),
        Err(Error::UnknownParent)
    );
}

#[test]
fn three_files_of_two_patients_are_reported_with_their_counts() {
    let mut index = DcmIndex::create_dcm_tables();
    index.insert_dcm(&record("P1", "S1", "SE1", "/in/1.dcm"));
    index.insert_dcm(&record("P1", "S1", "SE2", "/in/2.dcm"));
    index.insert_dcm(&record("P2", "S2", "SE3", "/in/3.dcm"));
    let report = index.export_result();
    assert_eq!(report.len(), 2);
    assert_eq!(report[0].patient_id, "P1");
    assert_eq!(report[0].count(), (1, 2, 2));
    assert_eq!(report[1].patient_id, "P2");
    assert_eq!(report[1].count(), (1, 1, 1));
    assert_eq!(report[0].studies[0].study_uid, "S1");
    assert_eq!(report[0].studies[0].series[0].series_uid, "SE1");
    assert_eq!(report[0].studies[0].series[0].paths, vec!["/in/1.dcm".to_string()]);
    assert_eq!(report[0].studies[0].series[1].series_uid, "SE2");
    assert_eq!(report[0].studies[0].series[1].paths, vec!["/in/2.dcm".to_string()]);
    assert_eq!(report[1].studies[0].series[0].paths, vec!["/in/3.dcm".to_string()]);
}

#[test]
fn counts_of_the_report_are_the_linked_rows() {
    let mut index = DcmIndex::create_dcm_tables();
    index.insert_dcm(&record("P1", "S1", "SE1", "/in/1.dcm"));
    index.insert_dcm(&record("P1", "S1", "SE1", "/in/2.dcm"));
    index.insert_dcm(&record("P1", "S2", "SE2", "/in/3.dcm"));
    index.insert_dcm(&record("P2", "S3", "SE3", "/in/4.dcm"));
    // A series that is already held stays under its first study and patient.
    index.insert_dcm(&record("P2", "S3", "SE1", "/in/5.dcm"));
    index.insert_path("/in/orphan.dcm");
    let report = index.export_result();
    assert_eq!(report.len(), 2);
    assert_eq!(report[0].count(), (2, 2, 4));
    assert_eq!(report[1].count(), (1, 1, 1));
}

#[test]
fn getters_of_a_record_give_its_parts() {
    let r = record("P1", "S1", "SE1", "/in/1.dcm");
    assert_eq!(r.get_patient_ref().patient_id, "P1");
    assert_eq!(r.get_study_ref().study_uid, "S1");
    assert_eq!(r.get_series_ref().series_uid, "SE1");
    assert_eq!(r.get_path_ref(), "/in/1.dcm");
    assert_eq!(r.get_patient_ref().duplicate().age, "050Y");
    assert_eq!(r.get_study_ref().duplicate().description, "chest");
    assert_eq!(r.get_series_ref().duplicate().modality, "CT");
}

#[test]
fn order_of_records_does_not_decide_what_is_held() {
    let long = long_id();
    let records = [
        ("P1", "S1", "SE1", "/in/1.dcm"),
        ("P2", "S1", "SE1", "/in/2.dcm"),
        ("P2", "S2", long.as_str(), "/in/3.dcm"),
        (long.as_str(), "S3", "SE3", "/in/4.dcm"),
        ("P1", "S1", "SE2", "/in/1.dcm"),
        ("P3", long.as_str(), "SE4", "/in/5.dcm"),
    ];
    let orders: [[usize; 6]; 4] =
        [[0, 1, 2, 3, 4, 5], [5, 4, 3, 2, 1, 0], [1, 0, 4, 5, 2, 3], [3, 5, 2, 4, 1, 0]];
    for order in orders {
        let mut index = DcmIndex::create_dcm_tables();
        for i in order {
            let (p, st, se, path) = records[i];
            index.insert_dcm(&record(p, st, se, path));
        }
        let mut patients: Vec<String> =
            index.get_patients_as_struct().into_iter().map(|p| p.patient_id).collect();
        patients.sort();
        assert_eq!(patients, vec!["P1", "P2", "P3"]);
        // Studies S1 and S2 and series SE1 and SE2 are held, whoever owns them: a second
        // insert of each is a no-op, and an insert under a missing parent is not refused.
        for uid in ["S1", "S2"] {
            assert_eq!(
                index.get_or_add_study(&study(uid), &"nobody".to_string()),
                Ok(uid.to_string())
            );
        }
        for uid in ["SE1", "SE2"] {
            assert_eq!(
                index.get_or_add_series(&series(uid), &"nothing".to_string()),
                Ok(uid.to_string())
            );
        }
        // Nothing else is held.
        assert_eq!(
            index.get_or_add_study(&study("S3"), &"nobody".to_string()),
            Err(Error::UnknownParent)
        );
        for uid in ["SE3", "SE4"] {
            assert_eq!(
                index.get_or_add_series(&series(uid), &"nothing".to_string()),
                Err(Error::UnknownParent)
            );
        }
        let studies: usize = index.get_patients_as_struct().iter().map(|p| p.count().0).sum();
        let series: usize = index.get_patients_as_struct().iter().map(|p| p.count().1).sum();
        assert_eq!((studies, series), (2, 2));
    }
}
