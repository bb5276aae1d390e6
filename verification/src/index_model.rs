use crate::work_db::{PaView, SeView, StView};
use crate::work_dcm::{PatientView, RecordView, SeriesView, StudyView};
use vstd::prelude::*;

verus! {

/// Why the index refused a row.
#[derive(Debug, Clone, Copy, PartialEq, Eq, Structural)]
pub enum Error {
    /// The row's identifier has more than 64 characters.
    IdentifierTooLong,
    /// The row refers to a patient, a study or a series that the index does not hold.
    UnknownParent,
}

/// The most characters that an identifier of a patient, a study or a series may have.
pub const MAX_IDENTIFIER_LEN: usize = 64;

/// A row of the study table: the study and the patient that owns it.
pub struct StudyRowView {
    pub study: StudyView,
    pub patient_id: Seq<char>,
}

/// A row of the series table: the series and the study that owns it.
pub struct SeriesRowView {
    pub series: SeriesView,
    pub study_uid: Seq<char>,
}

/// A row of the path table: the path and the series that the file belongs to, if any.
pub struct PathRowView {
    pub path: Seq<char>,
    pub series_uid: Option<Seq<char>>,
}

/// The four tables of the index, each in the order in which its rows were inserted.
pub struct IndexView {
    pub patients: Seq<PatientView>,
    pub studies: Seq<StudyRowView>,
    pub series: Seq<SeriesRowView>,
    pub paths: Seq<PathRowView>,
}

/// The test for the path rows of one series.
pub open spec fn in_series(series_uid: Seq<char>) -> spec_fn(PathRowView) -> bool {
    |row: PathRowView| row.series_uid == Some(series_uid)
}

/// The test for the series rows of one study.
pub open spec fn in_study(study_uid: Seq<char>) -> spec_fn(SeriesRowView) -> bool {
    |row: SeriesRowView| row.study_uid == study_uid
}

/// The test for the study rows of one patient.
pub open spec fn of_patient(patient_id: Seq<char>) -> spec_fn(StudyRowView) -> bool {
    |row: StudyRowView| row.patient_id == patient_id
}

impl IndexView {
    /// The index without any row.
    pub open spec fn empty() -> IndexView {
        IndexView { patients: seq![], studies: seq![], series: seq![], paths: seq![] }
    }

    pub open spec fn patient_ids(self) -> Seq<Seq<char>> {
        self.patients.map_values(|p: PatientView| p.patient_id)
    }

    pub open spec fn study_uids(self) -> Seq<Seq<char>> {
        self.studies.map_values(|r: StudyRowView| r.study.study_uid)
    }

    pub open spec fn series_uids(self) -> Seq<Seq<char>> {
        self.series.map_values(|r: SeriesRowView| r.series.series_uid)
    }

    pub open spec fn path_keys(self) -> Seq<Seq<char>> {
        self.paths.map_values(|r: PathRowView| r.path)
    }

    pub open spec fn has_patient(self, patient_id: Seq<char>) -> bool {
        self.patient_ids().contains(patient_id)
    }

    pub open spec fn has_study(self, study_uid: Seq<char>) -> bool {
        self.study_uids().contains(study_uid)
    }

    pub open spec fn has_series(self, series_uid: Seq<char>) -> bool {
        self.series_uids().contains(series_uid)
    }

    pub open spec fn has_path(self, path: Seq<char>) -> bool {
        self.path_keys().contains(path)
    }

    /// No identifier occurs twice in its table, and none is longer than allowed.
    pub open spec fn keys_wf(self) -> bool {
        &&& self.patient_ids().no_duplicates()
        &&& self.study_uids().no_duplicates()
        &&& self.series_uids().no_duplicates()
        &&& self.path_keys().no_duplicates()
        &&& forall|i: int|
            0 <= i < self.patients.len() ==> (#[trigger] self.patients[i]).patient_id.len()
                <= MAX_IDENTIFIER_LEN
        &&& forall|i: int|
            0 <= i < self.studies.len() ==> (#[trigger] self.studies[i]).study.study_uid.len()
                <= MAX_IDENTIFIER_LEN
        &&& forall|i: int|
            0 <= i < self.series.len() ==> (#[trigger] self.series[i]).series.series_uid.len()
                <= MAX_IDENTIFIER_LEN
    }

    /// Every row refers to a row that the index holds: a study to its patient, a series to
    /// its study, a path to its series unless it has none.
    pub open spec fn links_wf(self) -> bool {
        &&& forall|i: int|
            0 <= i < self.studies.len() ==> self.has_patient(
                (#[trigger] self.studies[i]).patient_id,
            )
        &&& forall|i: int|
            0 <= i < self.series.len() ==> self.has_study((#[trigger] self.series[i]).study_uid)
        &&& forall|i: int|
            0 <= i < self.paths.len() ==> ((#[trigger] self.paths[i]).series_uid matches Some(uid)
                ==> self.has_series(uid))
    }

    /// The invariant of the index.
    pub open spec fn wf(self) -> bool {
        self.keys_wf() && self.links_wf()
    }

    /// Whether the patient table takes the patient: only a new identifier can be too long.
    pub open spec fn patient_outcome(self, p: PatientView) -> Result<(), Error> {
        if self.has_patient(p.patient_id) {
            Ok(())
        } else if p.patient_id.len() > MAX_IDENTIFIER_LEN {
            Err(Error::IdentifierTooLong)
        } else {
            Ok(())
        }
    }

    /// The index after the patient was taken: the first row of an identifier stays.
    pub open spec fn with_patient(self, p: PatientView) -> IndexView {
        if self.has_patient(p.patient_id) {
            self
        } else {
            IndexView { patients: self.patients.push(p), ..self }
        }
    }

    /// Whether the study table takes the study under the patient.
    pub open spec fn study_outcome(
        self,
        s: StudyView,
        patient_id: Seq<char>,
    ) -> Result<(), Error> {
        if self.has_study(s.study_uid) {
            Ok(())
        } else if s.study_uid.len() > MAX_IDENTIFIER_LEN {
            Err(Error::IdentifierTooLong)
        } else if !self.has_patient(patient_id) {
            Err(Error::UnknownParent)
        } else {
            Ok(())
        }
    }

    /// The index after the study was taken under the patient.
    pub open spec fn with_study(self, s: StudyView, patient_id: Seq<char>) -> IndexView {
        if self.has_study(s.study_uid) {
            self
        } else {
            IndexView {
                studies: self.studies.push(StudyRowView { study: s, patient_id }),
                ..self
            }
        }
    }

    /// Whether the series table takes the series under the study.
    pub open spec fn series_outcome(
        self,
        s: SeriesView,
        study_uid: Seq<char>,
    ) -> Result<(), Error> {
        if self.has_series(s.series_uid) {
            Ok(())
        } else if s.series_uid.len() > MAX_IDENTIFIER_LEN {
            Err(Error::IdentifierTooLong)
        } else if !self.has_study(study_uid) {
            Err(Error::UnknownParent)
        } else {
            Ok(())
        }
    }

    /// The index after the series was taken under the study.
    pub open spec fn with_series(self, s: SeriesView, study_uid: Seq<char>) -> IndexView {
        if self.has_series(s.series_uid) {
            self
        } else {
            IndexView {
                series: self.series.push(SeriesRowView { series: s, study_uid }),
                ..self
            }
        }
    }

    /// Whether the path table takes the path under the series.
    pub open spec fn path_outcome(
        self,
        path: Seq<char>,
        series_uid: Seq<char>,
    ) -> Result<(), Error> {
        if self.has_path(path) || self.has_series(series_uid) {
            Ok(())
        } else {
            Err(Error::UnknownParent)
        }
    }

    /// The index after the path was taken, under a series or under none.
    pub open spec fn with_path(self, path: Seq<char>, series_uid: Option<Seq<char>>) -> IndexView {
        if self.has_path(path) {
            self
        } else {
            IndexView { paths: self.paths.push(PathRowView { path, series_uid }), ..self }
        }
    }

    /// The index after one file's record was taken: patient, study, series and path in
    /// turn; where a link of the chain fails, what was inserted before it stays and the
    /// path is recorded under no series.
    pub open spec fn ingest(self, r: RecordView) -> IndexView {
        if self.patient_outcome(r.patient) is Err {
            self.with_path(r.path, None)
        } else {
            let a = self.with_patient(r.patient);
            if a.study_outcome(r.study, r.patient.patient_id) is Err {
                a.with_path(r.path, None)
            } else {
                let b = a.with_study(r.study, r.patient.patient_id);
                if b.series_outcome(r.series, r.study.study_uid) is Err {
                    b.with_path(r.path, None)
                } else {
                    let c = b.with_series(r.series, r.study.study_uid);
                    c.with_path(r.path, Some(r.series.series_uid))
                }
            }
        }
    }

    /// Whether every link of a record's chain holds, so that its path is recorded under
    /// its series.
    pub open spec fn chain_holds(self, r: RecordView) -> bool {
        let a = self.with_patient(r.patient);
        let b = a.with_study(r.study, r.patient.patient_id);
        &&& self.patient_outcome(r.patient) is Ok
        &&& a.study_outcome(r.study, r.patient.patient_id) is Ok
        &&& b.series_outcome(r.series, r.study.study_uid) is Ok
    }

    /// The series that a record's path is recorded under: the record's own where the
    /// chain holds, none where it does not.
    pub open spec fn recorded_under(self, r: RecordView) -> Option<Seq<char>> {
        if self.chain_holds(r) {
            Some(r.series.series_uid)
        } else {
            None
        }
    }

    /// The index after the records were taken one after the other.
    pub open spec fn ingest_all(self, records: Seq<RecordView>) -> IndexView
        decreases records.len(),
    {
        if records.len() == 0 {
            self
        } else {
            self.ingest_all(records.drop_last()).ingest(records.last())
        }
    }

    /// The studies under a patient: the identifiers of the study rows that refer to the
    /// patient.
    pub open spec fn linked_studies(self, patient_id: Seq<char>) -> Set<Seq<char>> {
        Set::new(
            |uid: Seq<char>|
                exists|i: int|
                    0 <= i < self.studies.len() && (#[trigger] self.studies[i]).study.study_uid
                        == uid && self.studies[i].patient_id == patient_id,
        )
    }

    /// The series under a patient: the identifiers of the series rows that refer to a
    /// study under the patient.
    pub open spec fn linked_series(self, patient_id: Seq<char>) -> Set<Seq<char>> {
        Set::new(
            |uid: Seq<char>|
                exists|i: int|
                    0 <= i < self.series.len() && (#[trigger] self.series[i]).series.series_uid
                        == uid && self.linked_studies(patient_id).contains(
                        self.series[i].study_uid,
                    ),
        )
    }

    /// The files under a patient: the paths of the path rows that refer to a series under
    /// the patient.
    pub open spec fn linked_paths(self, patient_id: Seq<char>) -> Set<Seq<char>> {
        Set::new(
            |path: Seq<char>|
                exists|i: int|
                    0 <= i < self.paths.len() && (#[trigger] self.paths[i]).path == path && (
                    self.paths[i].series_uid matches Some(uid) && self.linked_series(
                        patient_id,
                    ).contains(uid)),
        )
    }

    /// The paths of the files of one series, in the order of the path table.
    pub open spec fn paths_of(self, series_uid: Seq<char>) -> Seq<Seq<char>> {
        self.paths.filter(in_series(series_uid)).map_values(|row: PathRowView| row.path)
    }

    /// One series of the report.
    pub open spec fn series_node(self, row: SeriesRowView) -> SeView {
        SeView { attrs: row.series, paths: self.paths_of(row.series.series_uid) }
    }

    /// The series of one study, in the order of the series table.
    pub open spec fn series_of(self, study_uid: Seq<char>) -> Seq<SeView> {
        self.series.filter(in_study(study_uid)).map_values(
            |row: SeriesRowView| self.series_node(row),
        )
    }

    /// One study of the report.
    pub open spec fn study_node(self, row: StudyRowView) -> StView {
        StView { attrs: row.study, series: self.series_of(row.study.study_uid) }
    }

    /// The studies of one patient, in the order of the study table.
    pub open spec fn studies_of(self, patient_id: Seq<char>) -> Seq<StView> {
        self.studies.filter(of_patient(patient_id)).map_values(
            |row: StudyRowView| self.study_node(row),
        )
    }

    /// One patient of the report.
    pub open spec fn patient_node(self, p: PatientView) -> PaView {
        PaView { attrs: p, studies: self.studies_of(p.patient_id) }
    }

    /// The report: every patient in the order of the patient table, each with the studies,
    /// series and paths under it.
    pub open spec fn tree(self) -> Seq<PaView> {
        self.patients.map_values(|p: PatientView| self.patient_node(p))
    }
}

/// Mapping a sequence with one more element maps the element too.
pub proof fn lemma_map_push<A, B>(s: Seq<A>, x: A, f: spec_fn(A) -> B)
    ensures
        s.push(x).map_values(f) == s.map_values(f).push(f(x)),
{
    assert(s.push(x).map_values(f) =~= s.map_values(f).push(f(x)));
}

/// The first `i + 1` elements are the first `i` and the one behind them.
pub proof fn lemma_take_push<A>(s: Seq<A>, i: int)
    requires
        0 <= i < s.len(),
    ensures
        s.take(i + 1) == s.take(i).push(s[i]),
{
    assert(s.take(i + 1) =~= s.take(i).push(s[i]));
}

/// A new key behind keys without duplicates leaves them without duplicates.
pub proof fn lemma_push_fresh<A>(s: Seq<A>, x: A)
    requires
        s.no_duplicates(),
        !s.contains(x),
    ensures
        s.push(x).no_duplicates(),
        forall|y: A| s.push(x).contains(y) <==> s.contains(y) || y == x,
{
    assert forall|y: A| s.push(x).contains(y) <==> s.contains(y) || y == x by {
        if s.contains(y) {
            let i = choose|i: int| 0 <= i < s.len() && s[i] == y;
            assert(s.push(x)[i] == y);
        }
        if y == x {
            assert(s.push(x)[s.len() as int] == x);
        }
    }
}

/// Taking a patient keeps the invariant.
pub proof fn lemma_with_patient_wf(v: IndexView, p: PatientView)
    requires
        v.wf(),
        v.patient_outcome(p) is Ok,
    ensures
        v.with_patient(p).wf(),
        forall|id: Seq<char>|
            v.with_patient(p).has_patient(id) <==> v.has_patient(id) || id == p.patient_id,
{
    let w = v.with_patient(p);
    if !v.has_patient(p.patient_id) {
        lemma_map_push(v.patients, p, |p: PatientView| p.patient_id);
        lemma_push_fresh(v.patient_ids(), p.patient_id);
        assert(w.study_uids() == v.study_uids());
        assert(w.series_uids() == v.series_uids());
        assert(w.path_keys() == v.path_keys());
        assert forall|i: int| 0 <= i < w.studies.len() implies w.has_patient(
            (#[trigger] w.studies[i]).patient_id,
        ) by {
            assert(v.has_patient(v.studies[i].patient_id));
        }
    }
}

/// Taking a study keeps the invariant.
pub proof fn lemma_with_study_wf(v: IndexView, s: StudyView, patient_id: Seq<char>)
    requires
        v.wf(),
        v.study_outcome(s, patient_id) is Ok,
    ensures
        v.with_study(s, patient_id).wf(),
        forall|id: Seq<char>|
            v.with_study(s, patient_id).has_study(id) <==> v.has_study(id) || id == s.study_uid,
{
    let w = v.with_study(s, patient_id);
    if !v.has_study(s.study_uid) {
        lemma_map_push(
            v.studies,
            StudyRowView { study: s, patient_id },
            |r: StudyRowView| r.study.study_uid,
        );
        lemma_push_fresh(v.study_uids(), s.study_uid);
        assert(w.patient_ids() == v.patient_ids());
        assert(w.series_uids() == v.series_uids());
        assert(w.path_keys() == v.path_keys());
        assert forall|i: int| 0 <= i < w.series.len() implies w.has_study(
            (#[trigger] w.series[i]).study_uid,
        ) by {
            assert(v.has_study(v.series[i].study_uid));
        }
    }
}

/// Taking a series keeps the invariant.
pub proof fn lemma_with_series_wf(v: IndexView, s: SeriesView, study_uid: Seq<char>)
    requires
        v.wf(),
        v.series_outcome(s, study_uid) is Ok,
    ensures
        v.with_series(s, study_uid).wf(),
        forall|id: Seq<char>|
            v.with_series(s, study_uid).has_series(id) <==> v.has_series(id) || id
                == s.series_uid,
{
    let w = v.with_series(s, study_uid);
    if !v.has_series(s.series_uid) {
        lemma_map_push(
            v.series,
            SeriesRowView { series: s, study_uid },
            |r: SeriesRowView| r.series.series_uid,
        );
        lemma_push_fresh(v.series_uids(), s.series_uid);
        assert(w.patient_ids() == v.patient_ids());
        assert(w.study_uids() == v.study_uids());
        assert(w.path_keys() == v.path_keys());
        assert forall|i: int| 0 <= i < w.paths.len() implies (
        (#[trigger] w.paths[i]).series_uid matches Some(uid) ==> w.has_series(uid)) by {
            if let Some(uid) = v.paths[i].series_uid {
                assert(v.has_series(uid));
            }
        }
    }
}

/// Taking a path under a series that the index holds, or under none, keeps the invariant.
pub proof fn lemma_with_path_wf(v: IndexView, path: Seq<char>, series_uid: Option<Seq<char>>)
    requires
        v.wf(),
        v.has_path(path) || (series_uid matches Some(uid) ==> v.has_series(uid)),
    ensures
        v.with_path(path, series_uid).wf(),
        forall|k: Seq<char>|
            v.with_path(path, series_uid).has_path(k) <==> v.has_path(k) || k == path,
{
    let w = v.with_path(path, series_uid);
    if !v.has_path(path) {
        lemma_map_push(v.paths, PathRowView { path, series_uid }, |r: PathRowView| r.path);
        lemma_push_fresh(v.path_keys(), path);
        assert(w.patient_ids() == v.patient_ids());
        assert(w.study_uids() == v.study_uids());
        assert(w.series_uids() == v.series_uids());
    }
}

} // verus!
