use crate::counting::{
    group_sum, in_group, in_some_group, lemma_filter_agree, lemma_filter_keeps_keys_distinct,
    lemma_filter_len_is_key_count, lemma_filter_member, lemma_group_sum,
};
use crate::index_model::{
    in_series, in_study, of_patient, IndexView, PathRowView, SeriesRowView, StudyRowView,
};
use crate::work_db::{total_files, total_paths, total_series, PaView};
use vstd::prelude::*;

verus! {

/// Whether the counts of a patient of the report are the numbers of studies, of series
/// and of files that the index links to the patient, none of them beyond what a machine
/// integer holds.
pub open spec fn counts_match(v: IndexView, node: PaView) -> bool {
    let patient_id = node.attrs.patient_id;
    &&& node.studies.len() == v.linked_studies(patient_id).len()
    &&& total_series(node.studies) == v.linked_series(patient_id).len()
    &&& total_files(node.studies) == v.linked_paths(patient_id).len()
    &&& total_series(node.studies) <= v.series.len()
    &&& total_files(node.studies) <= v.paths.len()
}

/// Whether a series row refers to the study of a study row.
spec fn series_in_study() -> spec_fn(StudyRowView, SeriesRowView) -> bool {
    |s: StudyRowView, e: SeriesRowView| e.study_uid == s.study.study_uid
}

/// Whether a path row refers to the series of a series row.
spec fn path_in_series() -> spec_fn(SeriesRowView, PathRowView) -> bool {
    |e: SeriesRowView, p: PathRowView| p.series_uid == Some(e.series.series_uid)
}

/// Whether a path row refers to a series that refers to the study of a study row.
spec fn path_in_study(v: IndexView) -> spec_fn(StudyRowView, PathRowView) -> bool {
    |s: StudyRowView, p: PathRowView|
        exists|j: int|
            0 <= j < v.series.len() && (#[trigger] v.series[j]).study_uid == s.study.study_uid
                && p.series_uid == Some(v.series[j].series.series_uid)
}

/// The files under the series of some series rows, counted row by row.
proof fn lemma_total_paths_by_series(v: IndexView, rows: Seq<SeriesRowView>)
    ensures
        total_paths(rows.map_values(|row: SeriesRowView| v.series_node(row))) == group_sum(
            v.paths,
            rows,
            path_in_series(),
        ),
    decreases rows.len(),
{
    let node = |row: SeriesRowView| v.series_node(row);
    if rows.len() > 0 {
        let rest = rows.drop_last();
        let last = rows.last();
        lemma_total_paths_by_series(v, rest);
        assert(rows.map_values(node).drop_last() == rest.map_values(node));
        assert(rows.map_values(node).last() == v.series_node(last));
        lemma_filter_agree(
            v.paths,
            in_series(last.series.series_uid),
            in_group(path_in_series(), last),
        );
    }
}

/// The series under the studies of some study rows, counted row by row.
proof fn lemma_total_series_by_study(v: IndexView, rows: Seq<StudyRowView>)
    ensures
        total_series(rows.map_values(|row: StudyRowView| v.study_node(row))) == group_sum(
            v.series,
            rows,
            series_in_study(),
        ),
    decreases rows.len(),
{
    let node = |row: StudyRowView| v.study_node(row);
    if rows.len() > 0 {
        let rest = rows.drop_last();
        let last = rows.last();
        lemma_total_series_by_study(v, rest);
        assert(rows.map_values(node).drop_last() == rest.map_values(node));
        assert(rows.map_values(node).last() == v.study_node(last));
        lemma_filter_agree(
            v.series,
            in_study(last.study.study_uid),
            in_group(series_in_study(), last),
        );
    }
}

/// The files under one study are the path rows that refer to a series of the study.
proof fn lemma_total_paths_of_study(v: IndexView, s: StudyRowView)
    requires
        v.keys_wf(),
    ensures
        total_paths(v.series_of(s.study.study_uid)) == v.paths.filter(
            in_group(path_in_study(v), s),
        ).len(),
{
    let uid = s.study.study_uid;
    let rows = v.series.filter(in_study(uid));
    let key = |r: SeriesRowView| r.series.series_uid;
    lemma_total_paths_by_series(v, rows);
    lemma_filter_keeps_keys_distinct(v.series, key, in_study(uid));
    assert forall|i: int, j: int, row: PathRowView| 0 <= i < j < rows.len() implies !(
    #[trigger] path_in_series()(rows[i], row) && #[trigger] path_in_series()(rows[j], row)) by {
        assert(rows.map_values(key)[i] != rows.map_values(key)[j]);
    }
    lemma_group_sum(v.paths, rows, path_in_series());
    let p = in_some_group(path_in_series(), rows);
    let q = in_group(path_in_study(v), s);
    assert forall|row: PathRowView| #[trigger] p(row) == q(row) by {
        if p(row) {
            let j = choose|j: int|
                0 <= j < rows.len() && #[trigger] path_in_series()(rows[j], row);
            lemma_filter_member(v.series, in_study(uid), rows[j]);
            assert(rows.contains(rows[j]));
            let k = choose|k: int| 0 <= k < v.series.len() && v.series[k] == rows[j];
            assert(v.series[k].study_uid == uid);
        }
        if q(row) {
            let k = choose|k: int|
                0 <= k < v.series.len() && (#[trigger] v.series[k]).study_uid == uid
                    && row.series_uid == Some(v.series[k].series.series_uid);
            lemma_filter_member(v.series, in_study(uid), v.series[k]);
            assert(v.series.contains(v.series[k]));
            let j = choose|j: int| 0 <= j < rows.len() && rows[j] == v.series[k];
            assert(path_in_series()(rows[j], row));
        }
    }
    lemma_filter_agree(v.paths, p, q);
}

/// The files under the studies of some study rows, counted row by row.
proof fn lemma_total_files_by_study(v: IndexView, rows: Seq<StudyRowView>)
    requires
        v.keys_wf(),
    ensures
        total_files(rows.map_values(|row: StudyRowView| v.study_node(row))) == group_sum(
            v.paths,
            rows,
            path_in_study(v),
        ),
    decreases rows.len(),
{
    let node = |row: StudyRowView| v.study_node(row);
    if rows.len() > 0 {
        let rest = rows.drop_last();
        let last = rows.last();
        lemma_total_files_by_study(v, rest);
        assert(rows.map_values(node).drop_last() == rest.map_values(node));
        assert(rows.map_values(node).last() == v.study_node(last));
        lemma_total_paths_of_study(v, last);
    }
}

/// What the report shows under a patient is what the index links to
/// the patient: the report has as many studies under the patient as there are study
/// identifiers that refer to the patient, as many series as there are series
/// identifiers that refer to one of those studies, and as many files as there are paths
/// that refer to one of those series.
pub proof fn lemma_report_counts(v: IndexView, patient_id: Seq<char>)
    requires
        v.keys_wf(),
    ensures
        v.linked_studies(patient_id).finite(),
        v.linked_series(patient_id).finite(),
        v.linked_paths(patient_id).finite(),
        v.studies_of(patient_id).len() == v.linked_studies(patient_id).len(),
        total_series(v.studies_of(patient_id)) == v.linked_series(patient_id).len(),
        total_files(v.studies_of(patient_id)) == v.linked_paths(patient_id).len(),
        v.linked_studies(patient_id).len() <= v.studies.len(),
        v.linked_series(patient_id).len() <= v.series.len(),
        v.linked_paths(patient_id).len() <= v.paths.len(),
{
    let rows = v.studies.filter(of_patient(patient_id));
    let study_key = |r: StudyRowView| r.study.study_uid;
    let series_key = |r: SeriesRowView| r.series.series_uid;
    let path_key = |r: PathRowView| r.path;
    // The studies.
    assert forall|uid: Seq<char>|
        v.linked_studies(patient_id).contains(uid) <==> exists|i: int|
            0 <= i < v.studies.len() && #[trigger] study_key(v.studies[i]) == uid && of_patient(
                patient_id,
            )(v.studies[i]) by {
        if v.linked_studies(patient_id).contains(uid) {
            let i = choose|i: int|
                0 <= i < v.studies.len() && (#[trigger] v.studies[i]).study.study_uid == uid
                    && v.studies[i].patient_id == patient_id;
            assert(study_key(v.studies[i]) == uid && of_patient(patient_id)(v.studies[i]));
        }
        if exists|i: int|
            0 <= i < v.studies.len() && #[trigger] study_key(v.studies[i]) == uid && of_patient(
                patient_id,
            )(v.studies[i]) {
            let i = choose|i: int|
                0 <= i < v.studies.len() && #[trigger] study_key(v.studies[i]) == uid
                    && of_patient(patient_id)(v.studies[i]);
            assert(v.studies[i].study.study_uid == uid && v.studies[i].patient_id == patient_id);
        }
    }
    lemma_filter_len_is_key_count(
        v.studies,
        study_key,
        of_patient(patient_id),
        v.linked_studies(patient_id),
    );
    lemma_filter_keeps_keys_distinct(v.studies, study_key, of_patient(patient_id));
    assert forall|uid: Seq<char>|
        v.linked_studies(patient_id).contains(uid) <==> exists|j: int|
            0 <= j < rows.len() && (#[trigger] rows[j]).study.study_uid == uid by {
        if v.linked_studies(patient_id).contains(uid) {
            let i = choose|i: int|
                0 <= i < v.studies.len() && (#[trigger] v.studies[i]).study.study_uid == uid
                    && v.studies[i].patient_id == patient_id;
            lemma_filter_member(v.studies, of_patient(patient_id), v.studies[i]);
            assert(v.studies.contains(v.studies[i]));
            let j = choose|j: int| 0 <= j < rows.len() && rows[j] == v.studies[i];
            assert(rows[j].study.study_uid == uid);
        }
        if exists|j: int| 0 <= j < rows.len() && (#[trigger] rows[j]).study.study_uid == uid {
            let j = choose|j: int|
                0 <= j < rows.len() && (#[trigger] rows[j]).study.study_uid == uid;
            lemma_filter_member(v.studies, of_patient(patient_id), rows[j]);
            assert(rows.contains(rows[j]));
            let i = choose|i: int| 0 <= i < v.studies.len() && v.studies[i] == rows[j];
            assert(v.studies[i].patient_id == patient_id);
        }
    }
    // The series.
    lemma_total_series_by_study(v, rows);
    assert forall|i: int, j: int, row: SeriesRowView| 0 <= i < j < rows.len() implies !(
    #[trigger] series_in_study()(rows[i], row) && #[trigger] series_in_study()(rows[j], row)) by {
        assert(rows.map_values(study_key)[i] != rows.map_values(study_key)[j]);
    }
    lemma_group_sum(v.series, rows, series_in_study());
    let series_test = in_some_group(series_in_study(), rows);
    assert forall|uid: Seq<char>|
        v.linked_series(patient_id).contains(uid) <==> exists|i: int|
            0 <= i < v.series.len() && #[trigger] series_key(v.series[i]) == uid && series_test(
                v.series[i],
            ) by {
        if v.linked_series(patient_id).contains(uid) {
            let i = choose|i: int|
                0 <= i < v.series.len() && (#[trigger] v.series[i]).series.series_uid == uid
                    && v.linked_studies(patient_id).contains(v.series[i].study_uid);
            let j = choose|j: int|
                0 <= j < rows.len() && (#[trigger] rows[j]).study.study_uid
                    == v.series[i].study_uid;
            assert(series_in_study()(rows[j], v.series[i]));
            assert(series_key(v.series[i]) == uid && series_test(v.series[i]));
        }
        if exists|i: int|
            0 <= i < v.series.len() && #[trigger] series_key(v.series[i]) == uid && series_test(
                v.series[i],
            ) {
            let i = choose|i: int|
                0 <= i < v.series.len() && #[trigger] series_key(v.series[i]) == uid
                    && series_test(v.series[i]);
            let j = choose|j: int|
                0 <= j < rows.len() && #[trigger] series_in_study()(rows[j], v.series[i]);
            assert(rows[j].study.study_uid == v.series[i].study_uid);
            assert(v.linked_studies(patient_id).contains(v.series[i].study_uid));
            assert(v.series[i].series.series_uid == uid);
        }
    }
    lemma_filter_len_is_key_count(v.series, series_key, series_test, v.linked_series(patient_id));
    // The files.
    lemma_total_files_by_study(v, rows);
    assert forall|i: int, j: int, row: PathRowView| 0 <= i < j < rows.len() implies !(
    #[trigger] path_in_study(v)(rows[i], row) && #[trigger] path_in_study(v)(rows[j], row)) by {
        assert(rows.map_values(study_key)[i] != rows.map_values(study_key)[j]);
        if path_in_study(v)(rows[i], row) && path_in_study(v)(rows[j], row) {
            let a = choose|a: int|
                0 <= a < v.series.len() && (#[trigger] v.series[a]).study_uid
                    == rows[i].study.study_uid && row.series_uid == Some(
                    v.series[a].series.series_uid,
                );
            let b = choose|b: int|
                0 <= b < v.series.len() && (#[trigger] v.series[b]).study_uid
                    == rows[j].study.study_uid && row.series_uid == Some(
                    v.series[b].series.series_uid,
                );
            assert(v.series_uids()[a] == v.series_uids()[b]);
        }
    }
    lemma_group_sum(v.paths, rows, path_in_study(v));
    let path_test = in_some_group(path_in_study(v), rows);
    assert forall|path: Seq<char>|
        v.linked_paths(patient_id).contains(path) <==> exists|i: int|
            0 <= i < v.paths.len() && #[trigger] path_key(v.paths[i]) == path && path_test(
                v.paths[i],
            ) by {
        if v.linked_paths(patient_id).contains(path) {
            let i = choose|i: int|
                0 <= i < v.paths.len() && (#[trigger] v.paths[i]).path == path && (
                v.paths[i].series_uid matches Some(uid) && v.linked_series(patient_id).contains(
                    uid,
                ));
            let uid = v.paths[i].series_uid->0;
            let k = choose|k: int|
                0 <= k < v.series.len() && (#[trigger] v.series[k]).series.series_uid == uid
                    && v.linked_studies(patient_id).contains(v.series[k].study_uid);
            let j = choose|j: int|
                0 <= j < rows.len() && (#[trigger] rows[j]).study.study_uid
                    == v.series[k].study_uid;
            assert(path_in_study(v)(rows[j], v.paths[i]));
            assert(path_key(v.paths[i]) == path && path_test(v.paths[i]));
        }
        if exists|i: int|
            0 <= i < v.paths.len() && #[trigger] path_key(v.paths[i]) == path && path_test(
                v.paths[i],
            ) {
            let i = choose|i: int|
                0 <= i < v.paths.len() && #[trigger] path_key(v.paths[i]) == path && path_test(
                    v.paths[i],
                );
            let j = choose|j: int|
                0 <= j < rows.len() && #[trigger] path_in_study(v)(rows[j], v.paths[i]);
            let k = choose|k: int|
                0 <= k < v.series.len() && (#[trigger] v.series[k]).study_uid
                    == rows[j].study.study_uid && v.paths[i].series_uid == Some(
                    v.series[k].series.series_uid,
                );
            assert(v.linked_studies(patient_id).contains(v.series[k].study_uid));
            assert(v.linked_series(patient_id).contains(v.series[k].series.series_uid));
            assert(v.paths[i].path == path);
        }
    }
    lemma_filter_len_is_key_count(v.paths, path_key, path_test, v.linked_paths(patient_id));
    v.studies.lemma_filter_len(of_patient(patient_id));
    v.series.lemma_filter_len(series_test);
    v.paths.lemma_filter_len(path_test);
}

/// The counts of every patient of the report are
/// what the index links to that patient.
pub proof fn lemma_tree_counts(v: IndexView)
    requires
        v.keys_wf(),
    ensures
        v.tree().len() == v.patients.len(),
        forall|i: int| 0 <= i < v.patients.len() ==> counts_match(v, #[trigger] v.tree()[i]),
{
    assert forall|i: int| 0 <= i < v.patients.len() implies counts_match(
        v,
        #[trigger] v.tree()[i],
    ) by {
        lemma_report_counts(v, v.patients[i].patient_id);
    }
}

} // verus!
