use crate::index_model::{
    lemma_with_path_wf, lemma_with_patient_wf, lemma_with_series_wf, lemma_with_study_wf, IndexView,
    PathRowView, SeriesRowView, StudyRowView, MAX_IDENTIFIER_LEN,
};
use crate::work_dcm::RecordView;
use vstd::prelude::*;

verus! {

/// Whether two records name the same patient, study and series.
pub open spec fn same_identifiers(a: RecordView, b: RecordView) -> bool {
    &&& a.patient.patient_id == b.patient.patient_id
    &&& a.study.study_uid == b.study.study_uid
    &&& a.series.series_uid == b.series.series_uid
}

/// Whether none of a record's three identifiers is longer than the index allows.
pub open spec fn usable_identifiers(r: RecordView) -> bool {
    &&& r.patient.patient_id.len() <= MAX_IDENTIFIER_LEN
    &&& r.study.study_uid.len() <= MAX_IDENTIFIER_LEN
    &&& r.series.series_uid.len() <= MAX_IDENTIFIER_LEN
}

/// Taking a record keeps the invariant of the index and records the record's path, under
/// its series where the chain holds and under no series where it does not. The tables
/// only grow: what they held before, they hold after.
pub proof fn lemma_ingest(v: IndexView, r: RecordView)
    requires
        v.wf(),
    ensures
        v.ingest(r).wf(),
        v.ingest(r).has_path(r.path),
        v.chain_holds(r) ==> v.ingest(r).has_patient(r.patient.patient_id),
        v.chain_holds(r) ==> v.ingest(r).has_study(r.study.study_uid),
        v.chain_holds(r) ==> v.ingest(r).has_series(r.series.series_uid),
        !v.has_path(r.path) ==> v.ingest(r).paths == v.paths.push(
            PathRowView { path: r.path, series_uid: v.recorded_under(r) },
        ),
        v.has_path(r.path) ==> v.ingest(r).paths == v.paths,
        forall|id: Seq<char>| v.has_patient(id) ==> v.ingest(r).has_patient(id),
        forall|id: Seq<char>| v.has_study(id) ==> v.ingest(r).has_study(id),
        forall|id: Seq<char>| v.has_series(id) ==> v.ingest(r).has_series(id),
        forall|path: Seq<char>| v.has_path(path) ==> v.ingest(r).has_path(path),
{
    lemma_ingest_stages(v, r);
    let a = after_patient(v, r);
    let b = after_study(v, r);
    let c = after_series(v, r);
    let w = v.ingest(r);
    assert forall|id: Seq<char>| v.has_study(id) implies w.has_study(id) by {
        assert(a.has_study(id));
        assert(b.has_study(id));
    }
    assert forall|id: Seq<char>| v.has_series(id) implies w.has_series(id) by {
        assert(b.has_series(id));
        assert(c.has_series(id));
    }
}

/// The index after the first stage of taking a record: the patient.
spec fn after_patient(v: IndexView, r: RecordView) -> IndexView {
    if v.patient_outcome(r.patient) is Ok {
        v.with_patient(r.patient)
    } else {
        v
    }
}

/// The index after the second stage: the study, where the patient went through.
spec fn after_study(v: IndexView, r: RecordView) -> IndexView {
    let a = after_patient(v, r);
    if v.patient_outcome(r.patient) is Ok && a.study_outcome(r.study, r.patient.patient_id) is Ok {
        a.with_study(r.study, r.patient.patient_id)
    } else {
        a
    }
}

/// The index after the third stage: the series, where patient and study went through.
spec fn after_series(v: IndexView, r: RecordView) -> IndexView {
    let b = after_study(v, r);
    if v.chain_holds(r) {
        b.with_series(r.series, r.study.study_uid)
    } else {
        b
    }
}

/// Taking a record goes by stages, each of which keeps the invariant and changes one
/// table at most.
proof fn lemma_ingest_stages(v: IndexView, r: RecordView)
    requires
        v.wf(),
    ensures
        after_patient(v, r).wf(),
        after_study(v, r).wf(),
        after_series(v, r).wf(),
        v.ingest(r).wf(),
        v.ingest(r) == after_series(v, r).with_path(r.path, v.recorded_under(r)),
        forall|id: Seq<char>| v.has_patient(id) ==> after_patient(v, r).has_patient(id),
        forall|id: Seq<char>| after_patient(v, r).has_study(id) ==> after_study(v, r).has_study(id),
        forall|id: Seq<char>|
            after_study(v, r).has_series(id) ==> after_series(v, r).has_series(id),
        forall|k: Seq<char>| #[trigger] v.ingest(r).has_path(k) <==> v.has_path(k) || k == r.path,
        v.ingest(r).has_path(r.path),
        v.chain_holds(r) ==> after_patient(v, r).has_patient(r.patient.patient_id),
        v.chain_holds(r) ==> after_study(v, r).has_study(r.study.study_uid),
        v.chain_holds(r) ==> after_series(v, r).has_series(r.series.series_uid),
        after_patient(v, r).study_uids() == v.study_uids(),
        after_patient(v, r).series_uids() == v.series_uids(),
        after_patient(v, r).path_keys() == v.path_keys(),
        after_study(v, r).patient_ids() == after_patient(v, r).patient_ids(),
        after_study(v, r).series_uids() == v.series_uids(),
        after_study(v, r).path_keys() == v.path_keys(),
        after_series(v, r).patient_ids() == after_patient(v, r).patient_ids(),
        after_series(v, r).study_uids() == after_study(v, r).study_uids(),
        after_series(v, r).path_keys() == v.path_keys(),
        v.ingest(r).patient_ids() == after_patient(v, r).patient_ids(),
        v.ingest(r).study_uids() == after_study(v, r).study_uids(),
        v.ingest(r).series_uids() == after_series(v, r).series_uids(),
        v.ingest(r).patients == after_patient(v, r).patients,
        v.ingest(r).studies == after_study(v, r).studies,
        v.ingest(r).series == after_series(v, r).series,
{
    let a = after_patient(v, r);
    let b = after_study(v, r);
    let c = after_series(v, r);
    if v.patient_outcome(r.patient) is Ok {
        lemma_with_patient_wf(v, r.patient);
        if a.study_outcome(r.study, r.patient.patient_id) is Ok {
            lemma_with_study_wf(a, r.study, r.patient.patient_id);
            if b.series_outcome(r.series, r.study.study_uid) is Ok {
                lemma_with_series_wf(b, r.series, r.study.study_uid);
            }
        }
    }
    lemma_with_path_wf(c, r.path, v.recorded_under(r));
    let w = c.with_path(r.path, v.recorded_under(r));
    assert(v.ingest(r) == w);
    assert forall|k: Seq<char>| #[trigger] w.has_path(k) <==> v.has_path(k) || k == r.path by {
        assert(c.has_path(k) == v.has_path(k));
    }
    assert(w.has_path(r.path));
}

/// A record whose identifiers were taken before inserts no patient, no study and no
/// series: the three tables stay as they are, and the path table gets the record's path
/// unless it holds it.
pub proof fn lemma_known_identifiers_add_no_row(v: IndexView, a: RecordView, b: RecordView)
    requires
        v.wf(),
        same_identifiers(a, b),
    ensures
        v.ingest(a).ingest(b).patients == v.ingest(a).patients,
        v.ingest(a).ingest(b).studies == v.ingest(a).studies,
        v.ingest(a).ingest(b).series == v.ingest(a).series,
        v.ingest(a).ingest(b).paths == v.ingest(a).with_path(b.path, v.recorded_under(a)).paths,
{
    lemma_ingest(v, a);
    let v1 = v.ingest(a);
    if v.patient_outcome(a.patient) is Ok {
        lemma_with_patient_wf(v, a.patient);
        let x = v.with_patient(a.patient);
        if x.study_outcome(a.study, a.patient.patient_id) is Ok {
            lemma_with_study_wf(x, a.study, a.patient.patient_id);
            let y = x.with_study(a.study, a.patient.patient_id);
            if y.series_outcome(a.series, a.study.study_uid) is Ok {
                lemma_with_series_wf(y, a.series, a.study.study_uid);
                let z = y.with_series(a.series, a.study.study_uid);
                assert(v1 == z.with_path(a.path, Some(a.series.series_uid)));
                assert(v1.patient_ids() == z.patient_ids());
                assert(v1.study_uids() == z.study_uids());
                assert(v1.series_uids() == z.series_uids());
            } else {
                assert(v1 == y.with_path(a.path, None));
                assert(v1.patient_ids() == y.patient_ids());
                assert(v1.study_uids() == y.study_uids());
                assert(v1.series_uids() == y.series_uids());
            }
        } else {
            assert(v1 == x.with_path(a.path, None));
            assert(v1.patient_ids() == x.patient_ids());
            assert(v1.study_uids() == x.study_uids());
        }
    } else {
        assert(v1 == v.with_path(a.path, None));
        assert(v1.patient_ids() == v.patient_ids());
    }
}

/// After a record with usable identifiers was taken, the index holds exactly one row of
/// its patient, one of its study and one of its series, and exactly one row of its path.
pub proof fn lemma_one_row_per_identifier(v: IndexView, r: RecordView)
    requires
        v.wf(),
        usable_identifiers(r),
    ensures
        v.chain_holds(r),
        v.ingest(r).patient_ids().to_multiset().count(r.patient.patient_id) == 1,
        v.ingest(r).study_uids().to_multiset().count(r.study.study_uid) == 1,
        v.ingest(r).series_uids().to_multiset().count(r.series.series_uid) == 1,
        v.ingest(r).path_keys().to_multiset().count(r.path) == 1,
{
    lemma_with_patient_wf(v, r.patient);
    let a = v.with_patient(r.patient);
    lemma_with_study_wf(a, r.study, r.patient.patient_id);
    lemma_ingest(v, r);
    let w = v.ingest(r);
    w.patient_ids().to_multiset_ensures();
    w.study_uids().to_multiset_ensures();
    w.series_uids().to_multiset_ensures();
    w.path_keys().to_multiset_ensures();
    w.patient_ids().lemma_multiset_has_no_duplicates();
    w.study_uids().lemma_multiset_has_no_duplicates();
    w.series_uids().lemma_multiset_has_no_duplicates();
    w.path_keys().lemma_multiset_has_no_duplicates();
}

/// A record is never dropped: whatever its identifiers are, the index holds exactly one
/// row of its path afterwards. Where its series identifier is new and too long, that row
/// is under no series.
pub proof fn lemma_path_is_recorded(v: IndexView, r: RecordView)
    requires
        v.wf(),
    ensures
        v.ingest(r).path_keys().to_multiset().count(r.path) == 1,
        !v.has_series(r.series.series_uid) && r.series.series_uid.len() > MAX_IDENTIFIER_LEN
            && !v.has_path(r.path) ==> v.ingest(r).paths == v.paths.push(
            PathRowView { path: r.path, series_uid: None },
        ),
{
    lemma_ingest(v, r);
    let w = v.ingest(r);
    w.path_keys().to_multiset_ensures();
    w.path_keys().lemma_multiset_has_no_duplicates();
    if v.patient_outcome(r.patient) is Ok {
        let a = v.with_patient(r.patient);
        assert(a.series_uids() == v.series_uids());
        if a.study_outcome(r.study, r.patient.patient_id) is Ok {
            let b = a.with_study(r.study, r.patient.patient_id);
            assert(b.series_uids() == v.series_uids());
            assert(b.path_keys() == v.path_keys());
        } else {
            assert(a.path_keys() == v.path_keys());
        }
    }
}

/// The paths of a list of records.
pub open spec fn paths_of_records(records: Seq<RecordView>) -> Seq<Seq<char>> {
    records.map_values(|r: RecordView| r.path)
}

/// Records that name one patient, one study and one series, taken into an empty index
/// in any number, give one patient row, one study row and one series row, with the
/// attributes of the first record, and as many path rows as the records have distinct
/// paths, each under the series.
pub proof fn lemma_same_identifiers_one_row_each(records: Seq<RecordView>)
    requires
        records.len() > 0,
        usable_identifiers(records[0]),
        forall|i: int|
            0 <= i < records.len() ==> same_identifiers(records[0], #[trigger] records[i]),
    ensures
        IndexView::empty().ingest_all(records).patients == seq![records[0].patient],
        IndexView::empty().ingest_all(records).studies == seq![
            StudyRowView { study: records[0].study, patient_id: records[0].patient.patient_id },
        ],
        IndexView::empty().ingest_all(records).series == seq![
            SeriesRowView { series: records[0].series, study_uid: records[0].study.study_uid },
        ],
        IndexView::empty().ingest_all(records).paths.len() == paths_of_records(
            records,
        ).to_set().len(),
        forall|j: int|
            0 <= j < IndexView::empty().ingest_all(records).paths.len() ==> (
            #[trigger] IndexView::empty().ingest_all(records).paths[j]).series_uid == Some(
                records[0].series.series_uid,
            ),
    decreases records.len(),
{
    let e = IndexView::empty();
    let first = records[0];
    let rest = records.drop_last();
    let last = records.last();
    let w = e.ingest_all(records);
    assert(e.patient_ids() == Seq::<Seq<char>>::empty());
    assert(e.study_uids() == Seq::<Seq<char>>::empty());
    assert(e.series_uids() == Seq::<Seq<char>>::empty());
    assert(e.path_keys() == Seq::<Seq<char>>::empty());
    assert(e.wf());
    lemma_ingest_all_keys(e, records);
    if rest.len() == 0 {
        assert(e.ingest_all(rest) == e);
        assert(w == e.ingest(first));
        lemma_ingest_stages(e, first);
        let a = e.with_patient(first.patient);
        assert(a.patients == seq![first.patient]);
        lemma_with_patient_wf(e, first.patient);
        let b = a.with_study(first.study, first.patient.patient_id);
        assert(a.study_uids() == e.study_uids());
        lemma_with_study_wf(a, first.study, first.patient.patient_id);
        assert(b.series_uids() == e.series_uids());
        let c = b.with_series(first.series, first.study.study_uid);
        assert(c.path_keys() == e.path_keys());
        assert(w.paths == seq![
            PathRowView { path: first.path, series_uid: Some(first.series.series_uid) },
        ]);
    } else {
        assert forall|i: int| 0 <= i < rest.len() implies same_identifiers(
            rest[0],
            #[trigger] rest[i],
        ) by {
            assert(rest[i] == records[i]);
        }
        assert(rest[0] == records[0]);
        lemma_same_identifiers_one_row_each(rest);
        let v = e.ingest_all(rest.drop_last());
        let prev = rest.last();
        lemma_ingest_all_keys(e, rest.drop_last());
        assert(e.ingest_all(rest) == v.ingest(prev));
        assert(same_identifiers(first, records[rest.len() - 1]));
        assert(same_identifiers(first, records[records.len() - 1]));
        lemma_one_row_per_identifier(v, prev);
        lemma_known_identifiers_add_no_row(v, prev, last);
        let u = v.ingest(prev);
        assert(w == u.ingest(last));
        assert(w.paths == u.with_path(last.path, Some(last.series.series_uid)).paths);
    }
    assert forall|k: Seq<char>| #[trigger]
        w.has_path(k) <==> exists|i: int| 0 <= i < records.len() && records[i].path == k by {
        assert(!e.has_path(k));
    }
    lemma_paths_are_distinct_paths(w, records);
}

/// Where an index holds exactly the paths of some records, it has as many path rows as
/// the records have distinct paths.
proof fn lemma_paths_are_distinct_paths(w: IndexView, records: Seq<RecordView>)
    requires
        w.wf(),
        forall|k: Seq<char>| #[trigger]
            w.has_path(k) <==> exists|i: int| 0 <= i < records.len() && records[i].path == k,
    ensures
        w.paths.len() == paths_of_records(records).to_set().len(),
{
    let keys = w.path_keys();
    let paths = paths_of_records(records);
    keys.unique_seq_to_set();
    assert forall|k: Seq<char>| keys.to_set().contains(k) <==> paths.to_set().contains(k) by {
        assert(keys.to_set().contains(k) == w.has_path(k));
        if w.has_path(k) {
            let i = choose|i: int| 0 <= i < records.len() && records[i].path == k;
            assert(paths[i] == k);
        }
        if paths.to_set().contains(k) {
            let i = choose|i: int| 0 <= i < paths.len() && paths[i] == k;
            assert(records[i].path == k);
        }
    }
    assert(keys.to_set() =~= paths.to_set());
}

/// Whether a record brings a patient row: its patient identifier is not too long.
pub open spec fn brings_patient(r: RecordView) -> bool {
    r.patient.patient_id.len() <= MAX_IDENTIFIER_LEN
}

/// Whether a record brings a study row: it brings a patient row, and its study
/// identifier is not too long.
pub open spec fn brings_study(r: RecordView) -> bool {
    brings_patient(r) && r.study.study_uid.len() <= MAX_IDENTIFIER_LEN
}

/// What an index holds after a record was taken: what it held, and the identifiers that
/// the record brings.
pub proof fn lemma_ingest_keys(v: IndexView, r: RecordView)
    requires
        v.wf(),
    ensures
        v.chain_holds(r) <==> usable_identifiers(r),
        forall|id: Seq<char>| #[trigger]
            v.ingest(r).has_patient(id) <==> v.has_patient(id) || (id == r.patient.patient_id
                && brings_patient(r)),
        forall|id: Seq<char>| #[trigger]
            v.ingest(r).has_study(id) <==> v.has_study(id) || (id == r.study.study_uid
                && brings_study(r)),
        forall|id: Seq<char>| #[trigger]
            v.ingest(r).has_series(id) <==> v.has_series(id) || (id == r.series.series_uid
                && usable_identifiers(r)),
        forall|k: Seq<char>| #[trigger] v.ingest(r).has_path(k) <==> v.has_path(k) || k == r.path,
{
    lemma_ingest_stages(v, r);
    let a = after_patient(v, r);
    let b = after_study(v, r);
    let c = after_series(v, r);
    let w = v.ingest(r);
    lemma_held_is_short(v, r.patient.patient_id, r.study.study_uid, r.series.series_uid);
    if v.patient_outcome(r.patient) is Ok {
        lemma_with_patient_wf(v, r.patient);
        lemma_held_is_short(a, r.patient.patient_id, r.study.study_uid, r.series.series_uid);
        if a.study_outcome(r.study, r.patient.patient_id) is Ok {
            lemma_with_study_wf(a, r.study, r.patient.patient_id);
            lemma_held_is_short(b, r.patient.patient_id, r.study.study_uid, r.series.series_uid);
            if b.series_outcome(r.series, r.study.study_uid) is Ok {
                lemma_with_series_wf(b, r.series, r.study.study_uid);
            }
        }
    }
    assert forall|id: Seq<char>| #[trigger]
        w.has_patient(id) <==> v.has_patient(id) || (id == r.patient.patient_id && brings_patient(
            r,
        )) by {
        assert(w.has_patient(id) == a.has_patient(id));
    }
    assert forall|id: Seq<char>| #[trigger]
        w.has_study(id) <==> v.has_study(id) || (id == r.study.study_uid && brings_study(r)) by {
        assert(w.has_study(id) == b.has_study(id));
        assert(a.has_study(id) == v.has_study(id));
    }
    assert forall|id: Seq<char>| #[trigger]
        w.has_series(id) <==> v.has_series(id) || (id == r.series.series_uid
            && usable_identifiers(r)) by {
        assert(w.has_series(id) == c.has_series(id));
        assert(b.has_series(id) == v.has_series(id));
    }
}

/// An identifier that a table of the index holds is not too long.
proof fn lemma_held_is_short(v: IndexView, p: Seq<char>, s: Seq<char>, e: Seq<char>)
    requires
        v.keys_wf(),
    ensures
        v.has_patient(p) ==> p.len() <= MAX_IDENTIFIER_LEN,
        v.has_study(s) ==> s.len() <= MAX_IDENTIFIER_LEN,
        v.has_series(e) ==> e.len() <= MAX_IDENTIFIER_LEN,
{
    if v.has_patient(p) {
        let i = choose|i: int| 0 <= i < v.patient_ids().len() && v.patient_ids()[i] == p;
        assert(v.patients[i].patient_id == p);
    }
    if v.has_study(s) {
        let i = choose|i: int| 0 <= i < v.study_uids().len() && v.study_uids()[i] == s;
        assert(v.studies[i].study.study_uid == s);
    }
    if v.has_series(e) {
        let i = choose|i: int| 0 <= i < v.series_uids().len() && v.series_uids()[i] == e;
        assert(v.series[i].series.series_uid == e);
    }
}

/// What an index holds after records were taken one after the other: what it held, and
/// the identifiers that any of the records brings.
pub proof fn lemma_ingest_all_keys(v: IndexView, records: Seq<RecordView>)
    requires
        v.wf(),
    ensures
        v.ingest_all(records).wf(),
        forall|id: Seq<char>| #[trigger]
            v.ingest_all(records).has_patient(id) <==> v.has_patient(id) || exists|i: int|
                0 <= i < records.len() && (#[trigger] records[i]).patient.patient_id == id
                    && brings_patient(records[i]),
        forall|id: Seq<char>| #[trigger]
            v.ingest_all(records).has_study(id) <==> v.has_study(id) || exists|i: int|
                0 <= i < records.len() && (#[trigger] records[i]).study.study_uid == id
                    && brings_study(records[i]),
        forall|id: Seq<char>| #[trigger]
            v.ingest_all(records).has_series(id) <==> v.has_series(id) || exists|i: int|
                0 <= i < records.len() && (#[trigger] records[i]).series.series_uid == id
                    && usable_identifiers(records[i]),
        forall|k: Seq<char>| #[trigger]
            v.ingest_all(records).has_path(k) <==> v.has_path(k) || exists|i: int|
                0 <= i < records.len() && (#[trigger] records[i]).path == k,
    decreases records.len(),
{
    if records.len() > 0 {
        let rest = records.drop_last();
        let last = records.last();
        let n = rest.len() as int;
        lemma_ingest_all_keys(v, rest);
        let u = v.ingest_all(rest);
        let w = u.ingest(last);
        lemma_ingest_keys(u, last);
        lemma_ingest(u, last);
        assert(records[n] == last);
        assert forall|i: int| 0 <= i < n implies #[trigger] rest[i] == records[i] by {}
        assert forall|id: Seq<char>| #[trigger]
            w.has_patient(id) <==> v.has_patient(id) || exists|i: int|
                0 <= i < records.len() && (#[trigger] records[i]).patient.patient_id == id
                    && brings_patient(records[i]) by {
            if u.has_patient(id) && !v.has_patient(id) {
                let i = choose|i: int|
                    0 <= i < rest.len() && (#[trigger] rest[i]).patient.patient_id == id
                        && brings_patient(rest[i]);
                assert(records[i] == rest[i]);
            }
            if exists|i: int|
                0 <= i < records.len() && (#[trigger] records[i]).patient.patient_id == id
                    && brings_patient(records[i]) {
                let i = choose|i: int|
                    0 <= i < records.len() && (#[trigger] records[i]).patient.patient_id == id
                        && brings_patient(records[i]);
                if i < n {
                    assert(rest[i] == records[i]);
                    assert(u.has_patient(id));
                }
            }
        }
        assert forall|id: Seq<char>| #[trigger]
            w.has_study(id) <==> v.has_study(id) || exists|i: int|
                0 <= i < records.len() && (#[trigger] records[i]).study.study_uid == id
                    && brings_study(records[i]) by {
            if u.has_study(id) && !v.has_study(id) {
                let i = choose|i: int|
                    0 <= i < rest.len() && (#[trigger] rest[i]).study.study_uid == id
                        && brings_study(rest[i]);
                assert(records[i] == rest[i]);
            }
            if exists|i: int|
                0 <= i < records.len() && (#[trigger] records[i]).study.study_uid == id
                    && brings_study(records[i]) {
                let i = choose|i: int|
                    0 <= i < records.len() && (#[trigger] records[i]).study.study_uid == id
                        && brings_study(records[i]);
                if i < n {
                    assert(rest[i] == records[i]);
                    assert(u.has_study(id));
                }
            }
        }
        assert forall|id: Seq<char>| #[trigger]
            w.has_series(id) <==> v.has_series(id) || exists|i: int|
                0 <= i < records.len() && (#[trigger] records[i]).series.series_uid == id
                    && usable_identifiers(records[i]) by {
            if u.has_series(id) && !v.has_series(id) {
                let i = choose|i: int|
                    0 <= i < rest.len() && (#[trigger] rest[i]).series.series_uid == id
                        && usable_identifiers(rest[i]);
                assert(records[i] == rest[i]);
            }
            if exists|i: int|
                0 <= i < records.len() && (#[trigger] records[i]).series.series_uid == id
                    && usable_identifiers(records[i]) {
                let i = choose|i: int|
                    0 <= i < records.len() && (#[trigger] records[i]).series.series_uid == id
                        && usable_identifiers(records[i]);
                if i < n {
                    assert(rest[i] == records[i]);
                    assert(u.has_series(id));
                }
            }
        }
        assert forall|k: Seq<char>| #[trigger]
            w.has_path(k) <==> v.has_path(k) || exists|i: int|
                0 <= i < records.len() && (#[trigger] records[i]).path == k by {
            if u.has_path(k) && !v.has_path(k) {
                let i = choose|i: int| 0 <= i < rest.len() && (#[trigger] rest[i]).path == k;
                assert(records[i] == rest[i]);
            }
            if exists|i: int| 0 <= i < records.len() && (#[trigger] records[i]).path == k {
                let i = choose|i: int| 0 <= i < records.len() && (#[trigger] records[i]).path == k;
                if i < n {
                    assert(rest[i] == records[i]);
                    assert(u.has_path(k));
                }
            }
        }
    }
}

/// The order in which records are taken does not decide what the index holds: two lists
/// of the same records, in whatever order and however often each, leave the same
/// patients, studies, series and paths, and as many rows in each table. (Which
/// attributes a row has, and which row owns it, is decided by the record that came
/// first.)
pub proof fn lemma_order_does_not_decide_what_is_held(
    v: IndexView,
    a: Seq<RecordView>,
    b: Seq<RecordView>,
)
    requires
        v.wf(),
        forall|r: RecordView| a.contains(r) <==> b.contains(r),
    ensures
        v.ingest_all(a).patient_ids().to_set() == v.ingest_all(b).patient_ids().to_set(),
        v.ingest_all(a).study_uids().to_set() == v.ingest_all(b).study_uids().to_set(),
        v.ingest_all(a).series_uids().to_set() == v.ingest_all(b).series_uids().to_set(),
        v.ingest_all(a).path_keys().to_set() == v.ingest_all(b).path_keys().to_set(),
        v.ingest_all(a).patients.len() == v.ingest_all(b).patients.len(),
        v.ingest_all(a).studies.len() == v.ingest_all(b).studies.len(),
        v.ingest_all(a).series.len() == v.ingest_all(b).series.len(),
        v.ingest_all(a).paths.len() == v.ingest_all(b).paths.len(),
{
    lemma_ingest_all_keys(v, a);
    lemma_ingest_all_keys(v, b);
    let x = v.ingest_all(a);
    let y = v.ingest_all(b);
    assert forall|i: int| 0 <= i < a.len() implies b.contains(#[trigger] a[i]) by {
        assert(a.contains(a[i]));
    }
    assert forall|i: int| 0 <= i < b.len() implies a.contains(#[trigger] b[i]) by {
        assert(b.contains(b[i]));
    }
    assert forall|id: Seq<char>|
        x.patient_ids().to_set().contains(id) <==> y.patient_ids().to_set().contains(id) by {
        lemma_same_records_bring_the_same(v, a, b, id);
        lemma_same_records_bring_the_same(v, b, a, id);
        assert(x.patient_ids().to_set().contains(id) == x.has_patient(id));
        assert(y.patient_ids().to_set().contains(id) == y.has_patient(id));
    }
    assert forall|id: Seq<char>|
        x.study_uids().to_set().contains(id) <==> y.study_uids().to_set().contains(id) by {
        lemma_same_records_bring_the_same(v, a, b, id);
        lemma_same_records_bring_the_same(v, b, a, id);
        assert(x.study_uids().to_set().contains(id) == x.has_study(id));
        assert(y.study_uids().to_set().contains(id) == y.has_study(id));
    }
    assert forall|id: Seq<char>|
        x.series_uids().to_set().contains(id) <==> y.series_uids().to_set().contains(id) by {
        lemma_same_records_bring_the_same(v, a, b, id);
        lemma_same_records_bring_the_same(v, b, a, id);
        assert(x.series_uids().to_set().contains(id) == x.has_series(id));
        assert(y.series_uids().to_set().contains(id) == y.has_series(id));
    }
    assert forall|k: Seq<char>|
        x.path_keys().to_set().contains(k) <==> y.path_keys().to_set().contains(k) by {
        lemma_same_records_bring_the_same(v, a, b, k);
        lemma_same_records_bring_the_same(v, b, a, k);
        assert(x.path_keys().to_set().contains(k) == x.has_path(k));
        assert(y.path_keys().to_set().contains(k) == y.has_path(k));
    }
    assert(x.patient_ids().to_set() =~= y.patient_ids().to_set());
    assert(x.study_uids().to_set() =~= y.study_uids().to_set());
    assert(x.series_uids().to_set() =~= y.series_uids().to_set());
    assert(x.path_keys().to_set() =~= y.path_keys().to_set());
    x.patient_ids().unique_seq_to_set();
    y.patient_ids().unique_seq_to_set();
    x.study_uids().unique_seq_to_set();
    y.study_uids().unique_seq_to_set();
    x.series_uids().unique_seq_to_set();
    y.series_uids().unique_seq_to_set();
    x.path_keys().unique_seq_to_set();
    y.path_keys().unique_seq_to_set();
}

/// What the records of one list bring, the records of a list that holds them all bring
/// too.
proof fn lemma_same_records_bring_the_same(
    v: IndexView,
    a: Seq<RecordView>,
    b: Seq<RecordView>,
    id: Seq<char>,
)
    requires
        v.wf(),
        forall|i: int| 0 <= i < a.len() ==> b.contains(#[trigger] a[i]),
    ensures
        v.ingest_all(a).has_patient(id) ==> v.ingest_all(b).has_patient(id),
        v.ingest_all(a).has_study(id) ==> v.ingest_all(b).has_study(id),
        v.ingest_all(a).has_series(id) ==> v.ingest_all(b).has_series(id),
        v.ingest_all(a).has_path(id) ==> v.ingest_all(b).has_path(id),
{
    lemma_ingest_all_keys(v, a);
    lemma_ingest_all_keys(v, b);
    let x = v.ingest_all(a);
    let y = v.ingest_all(b);
    if x.has_patient(id) && !v.has_patient(id) {
        let i = choose|i: int|
            0 <= i < a.len() && (#[trigger] a[i]).patient.patient_id == id && brings_patient(a[i]);
        let j = choose|j: int| 0 <= j < b.len() && b[j] == a[i];
        assert(b[j].patient.patient_id == id && brings_patient(b[j]));
    }
    if x.has_study(id) && !v.has_study(id) {
        let i = choose|i: int|
            0 <= i < a.len() && (#[trigger] a[i]).study.study_uid == id && brings_study(a[i]);
        let j = choose|j: int| 0 <= j < b.len() && b[j] == a[i];
        assert(b[j].study.study_uid == id && brings_study(b[j]));
    }
    if x.has_series(id) && !v.has_series(id) {
        let i = choose|i: int|
            0 <= i < a.len() && (#[trigger] a[i]).series.series_uid == id && usable_identifiers(
                a[i],
            );
        let j = choose|j: int| 0 <= j < b.len() && b[j] == a[i];
        assert(b[j].series.series_uid == id && usable_identifiers(b[j]));
    }
    if x.has_path(id) && !v.has_path(id) {
        let i = choose|i: int| 0 <= i < a.len() && (#[trigger] a[i]).path == id;
        let j = choose|j: int| 0 <= j < b.len() && b[j] == a[i];
        assert(b[j].path == id);
    }
}

} // verus!
