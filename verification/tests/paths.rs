use dcm_finder::dir_scan::{
    create_new_path, fallback_folder, is_hidden, series_folder, Scan,
};
use dcm_finder::text::{decimal_string, join, trim};
use dcm_finder::work_dcm::{MetaDcm, MetaPatient, MetaSeries, MetaStudy};

fn record<'a>(p: &str, st: &str, se: &str, path: &'a str) -> MetaDcm<'a> {
    let unknown = || "Unknown".to_string();
    MetaDcm::new(
        MetaPatient {
            patient_id: p.to_string(),
            birth_date: unknown(),
            sex: unknown(),
            age: unknown(),
        },
        MetaStudy {
            study_uid: st.to_string(),
            study_date: unknown(),
            study_time: unknown(),
            description: unknown(),
        },
        MetaSeries {
            series_uid: se.to_string(),
            modality: unknown(),
            instancenumber: unknown(),
            imagepositionpatient: unknown(),
            imageorientationpatient: unknown(),
            pixelspacing: unknown(),
            numberofframes: unknown(),
            xraytubecurrent: unknown(),
            kvp: unknown(),
            filtertype: unknown(),
            rows: unknown(),
            columns: unknown(),
            exposuretime: unknown(),
            rescaleintercept: unknown(),
            description: unknown(),
        },
        path,
    )
}

#[test]
fn names_that_begin_with_a_dot_are_hidden() {
    assert!(is_hidden(Some(".git")));
    assert!(is_hidden(Some(".")));
    assert!(is_hidden(Some("..")));
    assert!(is_hidden(Some(".hidden.dcm")));
    assert!(!is_hidden(Some("scan.dcm")));
    assert!(!is_hidden(Some("a.b")));
    assert!(!is_hidden(Some(" .git")));
    assert!(!is_hidden(Some("")));
    assert!(!is_hidden(None));
}

#[test]
fn trim_drops_white_space_at_both_ends_only() {
    assert_eq!(trim("  P 1 \t\r\n"), "P 1");
    assert_eq!(trim("P1"), "P1");
    assert_eq!(trim(""), "");
    assert_eq!(trim(" \t "), "");
    assert_eq!(trim("\u{a0}\u{3000}id\u{2003}\u{85}"), "id");
    assert_eq!(trim("\u{0}id\u{0}"), "\u{0}id\u{0}");
    assert_eq!(trim("\u{200b}id"), "\u{200b}id");
}

#[test]
fn trim_agrees_with_the_standard_trim() {
    let samples = [
        "", " ", "a", " a", "a ", "  a b  ", "\n\tx\u{b}\u{c}", "\u{1680}y\u{2028}\u{2029}",
        "\u{202f}z\u{205f}", "\u{2000}\u{200a}w", "é ", " 日本 ", "\u{feff}q", "\u{1c}r\u{1f}",
    ];
    for s in samples {
        assert_eq!(trim(s), s.trim());
    }
}

#[test]
fn trim_takes_for_white_space_what_the_standard_library_does() {
    for code in 0..=0x10FFFFu32 {
        if let Some(c) = char::from_u32(code) {
            let s = c.to_string();
            assert_eq!(trim(&s).is_empty(), c.is_whitespace(), "U+{:04X}", code);
        }
    }
}

#[test]
fn decimal_string_agrees_with_the_standard_rendering() {
    for n in (0..2000usize).chain([9_999, 10_000, 99_999, 100_000, 4_294_967_295]) {
        assert_eq!(decimal_string(n), n.to_string());
    }
}

#[test]
fn decimal_string_writes_the_digits() {
    assert_eq!(decimal_string(0), "0");
    assert_eq!(decimal_string(7), "7");
    assert_eq!(decimal_string(10), "10");
    assert_eq!(decimal_string(1234567890), "1234567890");
    assert_eq!(decimal_string(usize::MAX), usize::MAX.to_string());
}

#[test]
fn join_parts_base_and_segment_by_one_slash() {
    assert_eq!(join("out", "P1"), "out/P1");
    assert_eq!(join("out/", "P1"), "out/P1");
    assert_eq!(join("", "P1"), "P1");
    assert_eq!(join("/", "P1"), "/P1");
    assert_eq!(join("out", ""), "out/");
}

#[test]
fn folder_of_a_series_is_patient_study_series() {
    let r = record("P1", "S1", "SE1", "/in/1.dcm");
    assert_eq!(series_folder(&r, "out_root"), "out_root/P1/S1/SE1");
}

#[test]
fn folder_segments_are_trimmed() {
    let r = record(" P1 ", "S1\t", "\nSE1", "/in/1.dcm");
    assert_eq!(series_folder(&r, "out_root"), "out_root/P1/S1/SE1");
}

#[test]
fn empty_identifiers_get_their_defaults() {
    let r = record("", "", "", "/in/1.dcm");
    assert_eq!(series_folder(&r, "out"), "out/NoPatientID/NoStudyUID/NoSeriesUid");
}

#[test]
fn blank_identifier_gets_no_default_and_trims_to_an_empty_segment() {
    let r = record("  ", "S1", "SE1", "/in/1.dcm");
    // The empty segment leaves "out/", and the next segment follows that slash.
    assert_eq!(series_folder(&r, "out"), "out/S1/SE1");
}

#[test]
fn fallback_folder_is_below_the_output_root() {
    assert_eq!(fallback_folder("out_root"), "out_root/out_data_dcm_finder");
}

#[test]
fn new_path_is_named_by_the_count_of_entries() {
    let r = record("P1", "S1", "SE1", "/in/1.dcm");
    assert_eq!(create_new_path(&r, "out_root", true, 0), "out_root/P1/S1/SE1/0");
    assert_eq!(create_new_path(&r, "out_root", true, 12), "out_root/P1/S1/SE1/12");
    assert_eq!(create_new_path(&r, "out_root", false, 3), "out_root/out_data_dcm_finder/3");
}

/// Runs a scan over a walk and gives the names that it keeps.
fn kept<'a>(walk: &[(usize, Option<&'a str>)]) -> Vec<&'a str> {
    let mut scan = Scan::new();
    let mut names = Vec::new();
    for (depth, name) in walk {
        if scan.step(*depth, *name) {
            names.push(name.unwrap_or("?"));
        }
    }
    names
}

#[test]
fn scan_keeps_a_tree_without_hidden_entries() {
    let walk = [
        (0, Some("root")),
        (1, Some("a")),
        (2, Some("1.dcm")),
        (2, Some("2.dcm")),
        (1, Some("b.dcm")),
    ];
    assert_eq!(kept(&walk), vec!["root", "a", "1.dcm", "2.dcm", "b.dcm"]);
}

#[test]
fn scan_skips_hidden_entries_and_all_beneath_them() {
    let walk = [
        (0, Some("root")),
        (1, Some(".git")),
        (2, Some("objects")),
        (3, Some("pack.dcm")),
        (2, Some(".inner")),
        (3, Some("deep.dcm")),
        (2, Some("after.dcm")),
        (1, Some("a")),
        (2, Some(".hidden.dcm")),
        (2, Some("seen.dcm")),
        (1, Some("b.dcm")),
    ];
    assert_eq!(kept(&walk), vec!["root", "a", "seen.dcm", "b.dcm"]);
}

#[test]
fn scan_skips_everything_beneath_a_hidden_root() {
    let walk = [(0, Some(".")), (1, Some("a")), (2, Some("1.dcm")), (1, Some("b.dcm"))];
    assert!(kept(&walk).is_empty());
}

#[test]
fn scan_keeps_entries_whose_name_is_no_text() {
    let walk = [(0, Some("root")), (1, None), (2, Some("1.dcm")), (1, Some(".x")), (2, None)];
    assert_eq!(kept(&walk), vec!["root", "?", "1.dcm"]);
}

#[test]
fn scan_goes_on_after_a_hidden_entry_at_the_same_depth() {
    let walk = [
        (0, Some("root")),
        (1, Some(".a")),
        (1, Some(".b")),
        (2, Some("x")),
        (1, Some("c")),
        (2, Some("y")),
    ];
    assert_eq!(kept(&walk), vec!["root", "c", "y"]);
}
