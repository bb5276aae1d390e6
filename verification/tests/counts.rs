use dcm_finder::work_db::{Pa, Se, St};

fn series(uid: &str, paths: &[&str]) -> Se {
    Se {
        series_uid: uid.to_string(),
        modality: "CT".to_string(),
        instancenumber: "1".to_string(),
        imagepositionpatient: "Unknown".to_string(),
        imageorientationpatient: "Unknown".to_string(),
        pixelspacing: "Unknown".to_string(),
        numberofframes: "Unknown".to_string(),
        xraytubecurrent: "Unknown".to_string(),
        kvp: "Unknown".to_string(),
        filtertype: "Unknown".to_string(),
        rows: "512".to_string(),
        columns: "512".to_string(),
        exposuretime: "Unknown".to_string(),
        rescaleintercept: "Unknown".to_string(),
        description: "Unknown".to_string(),
        paths: paths.iter().map(|p| p.to_string()).collect(),
    }
}

#[test]
fn patient_counts_add_up_over_studies() {
    let patient = Pa {
        patient_id: "P1".to_string(),
        birth_date: "19700101".to_string(),
        sex: "F".to_string(),
        age: "050Y".to_string(),
        studies: vec![
            St {
                study_uid: "S1".to_string(),
                study_date: "20200101".to_string(),
                study_time: "120000".to_string(),
                description: "first".to_string(),
                series: vec![series("SE1", &["a", "b"]), series("SE2", &["c"])],
            },
            St {
                study_uid: "S2".to_string(),
                study_date: "20200102".to_string(),
                study_time: "120000".to_string(),
                description: "second".to_string(),
                series: vec![series("SE3", &[])],
            },
        ],
    };
    assert_eq!(patient.count_studies(), 2);
    assert_eq!(patient.count(), (2, 3, 3));
    assert_eq!(patient.studies[0].count_series(), 2);
    assert_eq!(patient.studies[0].count(), (2, 3));
    assert_eq!(patient.studies[0].series[0].count_paths(), 2);
}

#[test]
fn checked_counts_are_the_counts() {
    let study = St {
        study_uid: "S1".to_string(),
        study_date: "20200101".to_string(),
        study_time: "120000".to_string(),
        description: "first".to_string(),
        series: vec![series("SE1", &["a", "b"]), series("SE2", &[]), series("SE3", &["c"])],
    };
    assert_eq!(study.checked_count(), Some((3, 3)));
    assert_eq!(study.count(), (3, 3));
    let patient = Pa {
        patient_id: "P1".to_string(),
        birth_date: "19700101".to_string(),
        sex: "F".to_string(),
        age: "050Y".to_string(),
        studies: vec![study],
    };
    assert_eq!(patient.checked_count(), Some((1, 3, 3)));
    assert_eq!(patient.count(), (1, 3, 3));
}

#[test]
fn patient_without_studies_counts_nothing() {
    let patient = Pa {
        patient_id: "P1".to_string(),
        birth_date: "19700101".to_string(),
        sex: "F".to_string(),
        age: "050Y".to_string(),
        studies: vec![],
    };
    assert_eq!(patient.count(), (0, 0, 0));
    assert_eq!(patient.checked_count(), Some((0, 0, 0)));
}
